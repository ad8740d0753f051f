//! The operations offered to the command line: tasks, categories, cleaning
//! and contexts, each keeping the category index in step with the task store.
//! Persisting the result is left to the caller, which writes the active
//! context's task store to `state.task_file()` after each change.
use vstd::prelude::*;

use crate::errors::EfficacyError;
use crate::index::{
    bucket, category_index, label, lemma_bucket_members, lemma_index_partitions, lemma_index_push,
    lemma_same_labels, partitions,
};
use crate::objects::{opt_view, tasks_view, Task, TaskState, TaskView, Timestamp};
use crate::settings::Settings;
use crate::state::{ContextDeletion, ContextSwitch, State, StateView, loaded_tasks, entered};
use crate::registry::{json_file, valid_context_name, default_name};

verus! {

/// `t` marked done.
pub open spec fn completed(t: TaskView) -> TaskView {
    TaskView { state: TaskState::Done, ..t }
}

/// `t` with each supplied field replaced.
pub open spec fn edited(
    t: TaskView,
    description: Option<Seq<char>>,
    category: Option<Seq<char>>,
    information: Option<Seq<char>>,
    due: Option<Timestamp>,
) -> TaskView {
    TaskView {
        description: match description {
            Some(d) => d,
            None => t.description,
        },
        category: match category {
            Some(c) => Some(c),
            None => t.category,
        },
        information: match information {
            Some(i) => Some(i),
            None => t.information,
        },
        due: match due {
            Some(d) => Some(d),
            None => t.due,
        },
        state: t.state,
    }
}

/// `t` moved to the category `new`.
pub open spec fn moved(t: TaskView, new: Seq<char>) -> TaskView {
    TaskView { category: Some(new), ..t }
}

/// The store with every task labelled `old` moved to the category `new`.
pub open spec fn renamed(ts: Seq<TaskView>, old: Seq<char>, new: Seq<char>) -> Seq<TaskView> {
    Seq::new(
        ts.len(),
        |i: int|
            if label(ts[i]) == old {
                moved(ts[i], new)
            } else {
                ts[i]
            },
    )
}

/// The store without the tasks labelled `l`, the others in their order.
pub open spec fn without_label(ts: Seq<TaskView>, l: Seq<char>) -> Seq<TaskView> {
    ts.filter(|t: TaskView| label(t) != l)
}

/// The store without the tasks that are done, the others in their order.
pub open spec fn without_done(ts: Seq<TaskView>) -> Seq<TaskView> {
    ts.filter(|t: TaskView| t.state == TaskState::Todo)
}

/// The label that a category argument names: the category, or "No category".
pub open spec fn category_label(category: Option<String>) -> Seq<char> {
    match category {
        Some(c) => c@,
        None => "No category"@,
    }
}

/// The elements of `s` whose positions are not in `gone`, in their order.
pub open spec fn without_positions<A>(s: Seq<A>, gone: Set<int>) -> Seq<A>
    decreases s.len(),
{
    if s.len() == 0 {
        s
    } else if gone.contains(s.len() - 1) {
        without_positions(s.drop_last(), gone)
    } else {
        without_positions(s.drop_last(), gone).push(s.last())
    }
}

proof fn lemma_without_none<A>(s: Seq<A>, gone: Set<int>)
    requires
        forall|r: int| gone.contains(r) ==> r >= s.len(),
    ensures
        without_positions(s, gone) == s,
    decreases s.len(),
{
    if s.len() > 0 {
        lemma_without_none(s.drop_last(), gone);
        assert(s.drop_last().push(s.last()) =~= s);
    }
}

proof fn lemma_without_len<A>(s: Seq<A>, gone: Set<int>, d: int)
    requires
        0 <= d < s.len(),
        !gone.contains(d),
        forall|r: int| gone.contains(r) ==> r > d,
    ensures
        without_positions(s, gone).len() > d,
    decreases s.len(),
{
    if d == s.len() - 1 {
        lemma_without_none(s, gone);
    } else {
        lemma_without_len(s.drop_last(), gone, d);
    }
}

/// Removing the position `d`, below every position already gone, is the same
/// as leaving out `d` as well.
proof fn lemma_without_remove<A>(s: Seq<A>, gone: Set<int>, d: int)
    requires
        0 <= d < s.len(),
        !gone.contains(d),
        forall|r: int| gone.contains(r) ==> r > d,
    ensures
        d < without_positions(s, gone).len(),
        without_positions(s, gone).remove(d) == without_positions(s, gone.insert(d)),
    decreases s.len(),
{
    lemma_without_len(s, gone, d);
    let n = s.len() - 1;
    let p = s.drop_last();
    if n == d {
        lemma_without_none(s, gone);
        lemma_without_none(p, gone.insert(d));
        assert(s.remove(d) =~= p);
    } else {
        lemma_without_remove(p, gone, d);
        if !gone.contains(n) {
            let q = without_positions(p, gone);
            lemma_without_len(p, gone, d);
            assert(q.push(s.last()).remove(d) =~= q.remove(d).push(s.last()));
        }
    }
}

/// Leaving out the positions of the tasks labelled `l` leaves the tasks not
/// labelled `l`.
proof fn lemma_without_labelled(ts: Seq<TaskView>, gone: Set<int>, l: Seq<char>)
    requires
        forall|i: int| 0 <= i < ts.len() ==> (gone.contains(i) <==> label(#[trigger] ts[i]) == l),
    ensures
        without_positions(ts, gone) == without_label(ts, l),
    decreases ts.len(),
{
    if ts.len() > 0 {
        let p = ts.drop_last();
        assert forall|i: int| 0 <= i < p.len() implies (gone.contains(i) <==> label(
            #[trigger] p[i],
        ) == l) by {
            assert(p[i] == ts[i]);
        }
        lemma_without_labelled(p, gone, l);
        assert(p.push(ts.last()) =~= ts);
        p.lemma_filter_push(ts.last(), |t: TaskView| label(t) != l);
        assert(ts[ts.len() - 1] == ts.last());
    } else {
        assert(without_label(ts, l) =~= ts);
    }
}

/// Relies on itertools::sorted: the same ids, in ascending order.
#[verifier::external_body]
fn sorted_ids(ids: &Vec<usize>) -> (r: Vec<usize>)
    ensures
        r@.to_multiset() == ids@.to_multiset(),
        forall|a: int, b: int| 0 <= a < b < r@.len() ==> r@[a] <= r@[b],
{
    itertools::sorted(ids.iter().copied()).collect()
}

/// Relies on itertools::rev: the same ids, last first.
#[verifier::external_body]
fn reversed_ids(ids: Vec<usize>) -> (r: Vec<usize>)
    ensures
        r@ == ids@.reverse(),
{
    itertools::rev(ids).collect()
}

/// The ids of a bucket, in descending order.
fn descending(ids: &Vec<usize>) -> (r: Vec<usize>)
    requires
        forall|a: int, b: int| 0 <= a < b < ids@.len() ==> ids@[a] < ids@[b],
    ensures
        forall|x: usize| r@.contains(x) <==> ids@.contains(x),
        forall|a: int, b: int| 0 <= a < b < r@.len() ==> r@[a] > r@[b],
{
    let s = sorted_ids(ids);
    proof {
        broadcast use vstd::seq_lib::group_to_multiset_ensures;

        assert(ids@.no_duplicates());
        ids@.lemma_multiset_has_no_duplicates();
        assert forall|x: usize| s@.to_multiset().contains(x) implies s@.to_multiset().count(x)
            == 1 by {}
        s@.lemma_multiset_has_no_duplicates_conv();
        assert forall|x: usize| s@.contains(x) <==> ids@.contains(x) by {
            assert(s@.contains(x) <==> s@.to_multiset().count(x) > 0);
            assert(ids@.contains(x) <==> ids@.to_multiset().count(x) > 0);
        }
        assert forall|a: int, b: int| 0 <= a < b < s@.len() implies s@[a] < s@[b] by {
            assert(s@[a] <= s@[b]);
            assert(s@[a] != s@[b]);
        }
    }
    let r = reversed_ids(s);
    proof {
        assert forall|x: usize| r@.contains(x) <==> s@.contains(x) by {
            if r@.contains(x) {
                let i = choose|i: int| 0 <= i < r@.len() && r@[i] == x;
                assert(s@[s@.len() - 1 - i] == x);
            }
            if s@.contains(x) {
                let i = choose|i: int| 0 <= i < s@.len() && s@[i] == x;
                assert(r@[s@.len() - 1 - i] == x);
            }
        }
    }
    r
}

/// The task manager: its settings and the state of the active context.
#[derive(Debug)]
pub struct Efficacy {
    pub config: Settings,
    pub state: State,
}

impl Efficacy {
    /// The state is well formed.
    pub open spec fn wf(&self) -> bool {
        self.state.wf()
    }

    /// A manager over a state that is already set up and loaded.
    pub fn init(config: Settings, state: State) -> (r: Efficacy)
        requires
            state.wf(),
        ensures
            r.wf(),
            r.state@ == state@,
    {
        Efficacy { config, state }
    }

    /// Appends a new task, in state `Todo`, and records it in the index.
    pub fn add_task(
        &mut self,
        description: String,
        category: Option<String>,
        information: Option<String>,
        due: Option<Timestamp>,
    )
        requires
            old(self).wf(),
            old(self).state@.tasks.len() < usize::MAX,
        ensures
            final(self).wf(),
            final(self).state@ == (StateView {
                tasks: old(self).state@.tasks.push(
                    TaskView {
                        description: description@,
                        state: TaskState::Todo,
                        category: opt_view(category),
                        information: opt_view(information),
                        due,
                    },
                ),
                ..old(self).state@
            }),
            partitions(final(self).state.category_map@, final(self).state@.tasks),
    {
        let new_task = Task::new(description, category, information, due);
        let id = self.state.task_objects.len();
        proof {
            lemma_index_push(self.state@.tasks, new_task@);
        }
        self.state.add_to_category_map(&new_task, id);
        self.state.task_objects.push(new_task);
        assert(self.state@.tasks =~= old(self).state@.tasks.push(new_task@));
        proof {
            lemma_index_partitions(self.state@.tasks);
        }
    }

    /// Marks the task `id` done.
    pub fn complete_task(&mut self, id: usize) -> (r: Result<(), EfficacyError>)
        requires
            old(self).wf(),
        ensures
            final(self).wf(),
            r is Ok <==> id < old(self).state@.tasks.len(),
            r is Ok ==> final(self).state@ == (StateView {
                tasks: old(self).state@.tasks.update(id as int, completed(old(self).state@.tasks[id as int])),
                ..old(self).state@
            }),
            r is Err ==> r == Err::<(), EfficacyError>(EfficacyError::MismatchedIdError)
                && final(self).state@ == old(self).state@,
    {
        if id >= self.state.task_objects.len() {
            return Err(EfficacyError::MismatchedIdError);
        }
        let ghost ts = self.state@.tasks;
        self.state.task_objects[id].state = TaskState::Done;
        proof {
            let ts2 = ts.update(id as int, completed(ts[id as int]));
            assert(self.state@.tasks =~= ts2);
            lemma_same_labels(ts, ts2);
        }
        Ok(())
    }

    /// Replaces the supplied fields of the task `id`, and rebuilds the index
    /// when its category changes.
    pub fn edit_task(
        &mut self,
        id: usize,
        new_description: Option<String>,
        new_category: Option<String>,
        new_information: Option<String>,
        new_due: Option<Timestamp>,
    ) -> (r: Result<(), EfficacyError>)
        requires
            old(self).wf(),
        ensures
            final(self).wf(),
            r is Ok <==> id < old(self).state@.tasks.len(),
            r is Ok ==> final(self).state@ == (StateView {
                tasks: old(self).state@.tasks.update(
                    id as int,
                    edited(
                        old(self).state@.tasks[id as int],
                        opt_view(new_description),
                        opt_view(new_category),
                        opt_view(new_information),
                        new_due,
                    ),
                ),
                ..old(self).state@
            }),
            r is Err ==> r == Err::<(), EfficacyError>(EfficacyError::MismatchedIdError)
                && final(self).state@ == old(self).state@,
    {
        if id >= self.state.task_objects.len() {
            return Err(EfficacyError::MismatchedIdError);
        }
        let ghost ts = self.state@.tasks;
        let ghost target = edited(
            ts[id as int],
            opt_view(new_description),
            opt_view(new_category),
            opt_view(new_information),
            new_due,
        );
        let category_changes = new_category.is_some();
        match new_description {
            Some(d) => {
                self.state.task_objects[id].description = d;
            },
            None => {},
        }
        match new_category {
            Some(c) => {
                self.state.task_objects[id].category = Some(c);
            },
            None => {},
        }
        match new_information {
            Some(i) => {
                self.state.task_objects[id].information = Some(i);
            },
            None => {},
        }
        match new_due {
            Some(d) => {
                self.state.task_objects[id].due = Some(d);
            },
            None => {},
        }
        assert(self.state@.tasks =~= ts.update(id as int, target));
        if category_changes {
            self.state.rebuild_category_map();
        } else {
            proof {
                lemma_same_labels(ts, ts.update(id as int, target));
            }
        }
        Ok(())
    }

    /// Removes the task `id` and hands it back; the tasks after it move down
    /// by one, and the index is rebuilt.
    pub fn delete_task(&mut self, id: usize) -> (r: Result<Task, EfficacyError>)
        requires
            old(self).wf(),
        ensures
            final(self).wf(),
            r is Ok <==> id < old(self).state@.tasks.len(),
            r matches Ok(t) ==> t@ == old(self).state@.tasks[id as int] && final(self).state@ == (
            StateView { tasks: old(self).state@.tasks.remove(id as int), ..old(self).state@ }),
            r is Err ==> r == Err::<Task, EfficacyError>(EfficacyError::MismatchedIdError)
                && final(self).state@ == old(self).state@,
    {
        if id >= self.state.task_objects.len() {
            return Err(EfficacyError::MismatchedIdError);
        }
        let ghost ts = self.state@.tasks;
        let deleted_task = self.state.task_objects.remove(id);
        assert(self.state@.tasks =~= ts.remove(id as int));
        self.state.rebuild_category_map();
        Ok(deleted_task)
    }

    /// Moves every task of the category `category` to `new_category_title`.
    /// Fails, changing nothing, when no task carries that label.
    pub fn edit_category(&mut self, category: String, new_category_title: String) -> (r: Result<
        (),
        EfficacyError,
    >)
        requires
            old(self).wf(),
        ensures
            final(self).wf(),
            r is Ok <==> category_index(old(self).state@.tasks).contains_key(category@),
            r is Ok ==> final(self).state@ == (StateView {
                tasks: renamed(old(self).state@.tasks, category@, new_category_title@),
                ..old(self).state@
            }),
            r is Err ==> r == Err::<(), EfficacyError>(EfficacyError::NonexistentCategoryError)
                && final(self).state@ == old(self).state@,
    {
        let ghost ts = self.state@.tasks;
        let ghost new_title = new_category_title@;
        let n = self.state.task_objects.len();
        proof {
            lemma_bucket_members(ts, category@);
        }
        let ids_to_move = match self.state.category_map.get(&category) {
            Some(ids) => ids,
            None => return Err(EfficacyError::NonexistentCategoryError),
        };
        let ghost b = ids_to_move@;
        let mut k: usize = 0;
        while k < ids_to_move.len()
            invariant
                b == ids_to_move@,
                b == bucket(ts, category@),
                k <= b.len(),
                n == ts.len(),
                forall|a: int| 0 <= a < b.len() ==> b[a] < ts.len(),
                new_title == new_category_title@,
                self.state.task_file_paths == old(self).state.task_file_paths,
                self.state.current_context == old(self).state.current_context,
                self.state.task_objects@.len() == ts.len(),
                forall|i: int| 0 <= i < ts.len() ==> #[trigger] tasks_view(self.state.task_objects@)[i]
                    == if exists|a: int| 0 <= a < k && b[a] as int == i {
                        moved(ts[i], new_title)
                    } else {
                        ts[i]
                    },
            decreases b.len() - k,
        {
            let id = ids_to_move[k];
            let ghost before = tasks_view(self.state.task_objects@);
            self.state.task_objects[id].category = Some(new_category_title.clone());
            proof {
                assert forall|i: int| 0 <= i < ts.len() implies #[trigger] tasks_view(
                    self.state.task_objects@,
                )[i] == if exists|a: int| 0 <= a < k + 1 && b[a] as int == i {
                    moved(ts[i], new_title)
                } else {
                    ts[i]
                } by {
                    if i == id as int {
                        assert(b[k as int] as int == i);
                    } else {
                        assert(tasks_view(self.state.task_objects@)[i] == before[i]);
                        if exists|a: int| 0 <= a < k + 1 && b[a] as int == i {
                            let a = choose|a: int| 0 <= a < k + 1 && b[a] as int == i;
                            assert(a < k);
                        }
                    }
                }
            }
            k = k + 1;
        }
        proof {
            assert forall|i: int| 0 <= i < ts.len() implies (exists|a: int|
                0 <= a < b.len() && b[a] as int == i) == (label(ts[i]) == category@) by {
                if label(ts[i]) == category@ {
                    assert(b.contains(i as usize));
                    let a = choose|a: int| 0 <= a < b.len() && b[a] == i as usize;
                    assert(b[a] as int == i);
                }
                if exists|a: int| 0 <= a < b.len() && b[a] as int == i {
                    let a = choose|a: int| 0 <= a < b.len() && b[a] as int == i;
                    assert(b.contains(b[a]));
                }
            }
            assert(self.state@.tasks =~= renamed(ts, category@, new_category_title@));
        }
        self.state.rebuild_category_map();
        Ok(())
    }

    /// Removes every task of the category `category` (of the uncategorised
    /// tasks when it is `None`), the highest id first, and rebuilds the index.
    /// Fails, changing nothing, when no task carries that label.
    pub fn delete_category(&mut self, category: Option<String>) -> (r: Result<(), EfficacyError>)
        requires
            old(self).wf(),
        ensures
            final(self).wf(),
            r is Ok <==> category_index(old(self).state@.tasks).contains_key(
                category_label(category),
            ),
            r is Ok ==> final(self).state@ == (StateView {
                tasks: without_label(old(self).state@.tasks, category_label(category)),
                ..old(self).state@
            }),
            r is Err ==> r == Err::<(), EfficacyError>(EfficacyError::NonexistentCategoryError)
                && final(self).state@ == old(self).state@,
    {
        let ghost ts = self.state@.tasks;
        let category = match category {
            Some(s) => s,
            None => String::from_str("No category"),
        };
        let ghost l = category@;
        let n = self.state.task_objects.len();
        proof {
            lemma_bucket_members(ts, l);
        }
        let tasks_to_delete = match self.state.category_map.get(&category) {
            Some(v) => descending(v),
            None => return Err(EfficacyError::NonexistentCategoryError),
        };
        let ghost d = tasks_to_delete@;
        let mut k: usize = 0;
        proof {
            lemma_without_none(ts, Set::empty());
            assert(Set::new(|i: int| exists|j: int| 0 <= j < 0 && d[j] == i) =~= Set::<int>::empty());
        }
        while k < tasks_to_delete.len()
            invariant
                d == tasks_to_delete@,
                k <= d.len(),
                self.state.task_file_paths == old(self).state.task_file_paths,
                self.state.current_context == old(self).state.current_context,
                forall|x: usize| d.contains(x) <==> (x < ts.len() && label(ts[x as int]) == l),
                forall|a: int, c: int| 0 <= a < c < d.len() ==> d[a] > d[c],
                tasks_view(self.state.task_objects@) == without_positions(
                    ts,
                    Set::new(|i: int| exists|j: int| 0 <= j < k && d[j] == i),
                ),
            decreases d.len() - k,
        {
            let id = tasks_to_delete[k];
            let ghost gone = Set::new(|i: int| exists|j: int| 0 <= j < k && d[j] == i);
            proof {
                assert(d.contains(id));
                assert forall|r: int| gone.contains(r) implies r > id as int by {
                    let j = choose|j: int| 0 <= j < k && d[j] == r;
                    assert(d[j] > d[k as int]);
                }
                lemma_without_remove(ts, gone, id as int);
                assert(Set::new(|i: int| exists|j: int| 0 <= j < k + 1 && d[j] == i) =~= gone.insert(
                    id as int,
                )) by {
                    assert forall|i: int| gone.insert(id as int).contains(i) implies exists|j: int|
                        0 <= j < k + 1 && d[j] == i by {
                        if i == id as int {
                            assert(d[k as int] == i);
                        }
                    }
                }
            }
            let ghost before = self.state.task_objects@;
            self.state.task_objects.remove(id);
            proof {
                assert(tasks_view(self.state.task_objects@) =~= tasks_view(before).remove(id as int));
            }
            k = k + 1;
        }
        proof {
            let gone = Set::new(|i: int| exists|j: int| 0 <= j < d.len() && d[j] == i);
            assert forall|i: int| 0 <= i < ts.len() implies (gone.contains(i) <==> label(
                #[trigger] ts[i],
            ) == l) by {
                if label(ts[i]) == l {
                    assert(d.contains(i as usize));
                    let j = choose|j: int| 0 <= j < d.len() && d[j] == i as usize;
                    assert(d[j] as int == i);
                }
                if gone.contains(i) {
                    let j = choose|j: int| 0 <= j < d.len() && d[j] == i;
                    assert(d.contains(d[j]));
                }
            }
            lemma_without_labelled(ts, gone, l);
        }
        self.state.rebuild_category_map();
        Ok(())
    }

    /// Removes every task that is done, keeping the order of the others, and
    /// rebuilds the index.
    pub fn clean(&mut self)
        requires
            old(self).wf(),
        ensures
            final(self).wf(),
            final(self).state@ == (StateView {
                tasks: without_done(old(self).state@.tasks),
                ..old(self).state@
            }),
    {
        let ghost ts = self.state@.tasks;
        let mut kept: Vec<Task> = Vec::new();
        let mut i: usize = 0;
        while i < self.state.task_objects.len()
            invariant
                ts == self.state@.tasks,
                i <= ts.len(),
                self.state.task_file_paths == old(self).state.task_file_paths,
                self.state.current_context == old(self).state.current_context,
                tasks_view(kept@) == without_done(ts.take(i as int)),
            decreases ts.len() - i,
        {
            let t = &self.state.task_objects[i];
            proof {
                assert(ts.take(i + 1) =~= ts.take(i as int).push(ts[i as int]));
                ts.take(i as int).lemma_filter_push(ts[i as int], |t: TaskView| t.state == TaskState::Todo);
            }
            if t.state == TaskState::Todo {
                let ghost before = kept@;
                kept.push(t.duplicate());
                assert(tasks_view(kept@) =~= tasks_view(before).push(ts[i as int]));
            }
            i = i + 1;
        }
        assert(ts.take(ts.len() as int) =~= ts);
        self.state.task_objects = kept;
        self.state.rebuild_category_map();
    }

    /// Registers the context `name` and plans the switch to it (see
    /// `State::new_context`).
    pub fn new_context(&mut self, context_name: &String) -> (r: Result<ContextSwitch, EfficacyError>)
        requires
            old(self).wf(),
        ensures
            final(self).wf(),
            r is Ok <==> valid_context_name(context_name@),
            r is Err ==> r == Err::<ContextSwitch, EfficacyError>(EfficacyError::BadContextNameError)
                && final(self).state@ == old(self).state@,
            r is Ok ==> final(self).state@ == (StateView {
                registry: old(self).state@.registry.insert(context_name@, json_file(context_name@)),
                ..old(self).state@
            }),
            r matches Ok(sw) ==> {
                &&& sw.context_name@ == context_name@
                &&& sw.outgoing_file@ == final(self).state@.registry[final(self).state@.current]
                &&& sw.incoming_file@ == json_file(context_name@)
            },
    {
        self.state.new_context(context_name)
    }

    /// Plans the switch to the context `name` (see `State::change_context`).
    pub fn change_context(&self, context_name: &String) -> (r: Result<ContextSwitch, EfficacyError>)
        requires
            self.wf(),
        ensures
            r is Ok <==> self.state@.registry.contains_key(context_name@),
            r is Err ==> r == Err::<ContextSwitch, EfficacyError>(EfficacyError::NonexistentContextError),
            r matches Ok(sw) ==> {
                &&& sw.context_name@ == context_name@
                &&& sw.outgoing_file@ == self.state@.registry[self.state@.current]
                &&& sw.incoming_file@ == self.state@.registry[context_name@]
            },
    {
        self.state.change_context(context_name)
    }

    /// Completes a switch with the task store loaded from the new context's
    /// file (see `State::enter_context`).
    pub fn enter_context(&mut self, context_name: &String, loaded: Option<Vec<Task>>) -> (r: Result<
        (),
        EfficacyError,
    >)
        requires
            old(self).wf(),
        ensures
            final(self).wf(),
            r is Ok <==> old(self).state@.registry.contains_key(context_name@),
            r is Ok ==> final(self).state@ == entered(old(self).state@, context_name@, loaded_tasks(loaded)),
            r is Err ==> r == Err::<(), EfficacyError>(EfficacyError::NonexistentContextError)
                && final(self).state@ == old(self).state@,
    {
        self.state.enter_context(context_name, loaded)
    }

    /// Whether a context named `name` is registered.
    pub fn context_exists(&self, context_name: &String) -> (r: bool)
        requires
            self.wf(),
        ensures
            r == self.state@.registry.contains_key(context_name@),
    {
        self.state.context_exists(context_name)
    }

    /// Deregisters a context (see `State::delete_context`).
    pub fn delete_context(&mut self, context_name: &String) -> (r: ContextDeletion)
        requires
            old(self).wf(),
        ensures
            final(self).wf(),
            context_name@ == default_name() ==> r is Reserved,
            context_name@ != default_name() && context_name@ == old(self).state@.current ==> r is Active,
            context_name@ != default_name() && context_name@ != old(self).state@.current
                && !old(self).state@.registry.contains_key(context_name@) ==> r is Unknown,
            context_name@ != default_name() && context_name@ != old(self).state@.current
                && old(self).state@.registry.contains_key(context_name@) ==> r is Deleted,
            r matches ContextDeletion::Deleted(f) ==> {
                &&& context_name@ != default_name()
                &&& context_name@ != old(self).state@.current
                &&& old(self).state@.registry.contains_key(context_name@)
                &&& f@ == old(self).state@.registry[context_name@]
                &&& final(self).state@ == (StateView {
                    registry: old(self).state@.registry.remove(context_name@),
                    ..old(self).state@
                })
            },
            !(r is Deleted) ==> final(self).state@ == old(self).state@,
    {
        self.state.delete_context(context_name)
    }
}

} // verus!
