//! Listings: the categories of the active context with their tasks, and the
//! registered contexts.
use vstd::prelude::*;

use crate::formatting::{
    bold_code, count_text, format_category, format_context, format_nothing, grey_code,
    italic_code, no_escape, shown,
};
use crate::index::{category_index, lemma_bucket_members, lemma_index_partitions};
use crate::objects::{tasks_view, Task, TaskState, TaskView, Timestamp};
use crate::program::Efficacy;
use crate::registry::views;
use crate::task_text::{format_task, format_task_spotlight, spotlight, task_line};

verus! {

/// `a` is `b` or comes before it: compared character by character by code
/// point, a prefix first.
pub open spec fn text_le(a: Seq<char>, b: Seq<char>) -> bool
    decreases a.len(),
{
    if a.len() == 0 {
        true
    } else if b.len() == 0 {
        false
    } else if (a[0] as u32) < (b[0] as u32) {
        true
    } else if (a[0] as u32) > (b[0] as u32) {
        false
    } else {
        text_le(a.drop_first(), b.drop_first())
    }
}

/// `names` holds each element of `dom` once, in ascending order.
pub open spec fn in_order(names: Seq<Seq<char>>, dom: Set<Seq<char>>) -> bool {
    &&& names.to_set() == dom
    &&& names.no_duplicates()
    &&& forall|a: int, b: int| 0 <= a < b < names.len() ==> text_le(names[a], names[b])
}

/// Relies on itertools::sorted: the same strings, ascending in std's order
/// of strings, which compares their UTF-8 bytes and so their code points.
#[verifier::external_body]
fn sorted_names(names: Vec<String>) -> (r: Vec<String>)
    ensures
        views(r@).to_multiset() == views(names@).to_multiset(),
        forall|a: int, b: int| 0 <= a < b < r@.len() ==> text_le(r@[a]@, r@[b]@),
{
    itertools::sorted(names).collect()
}

/// The order of a pair `(rank, id)`: by rank, then by id.
pub open spec fn pair_le(a: (u8, usize), b: (u8, usize)) -> bool {
    a.0 < b.0 || (a.0 == b.0 && a.1 <= b.1)
}

/// Relies on itertools::sorted: the same pairs, ascending in the order of
/// tuples, which compares the first elements and then the second.
#[verifier::external_body]
fn sorted_pairs(pairs: Vec<(u8, usize)>) -> (r: Vec<(u8, usize)>)
    ensures
        r@.to_multiset() == pairs@.to_multiset(),
        forall|a: int, b: int| 0 <= a < b < r@.len() ==> pair_le(r@[a], r@[b]),
{
    itertools::sorted(pairs).collect()
}

proof fn lemma_same_elements<A>(a: Seq<A>, b: Seq<A>)
    requires
        a.to_multiset() == b.to_multiset(),
        b.no_duplicates(),
    ensures
        forall|x: A| a.contains(x) <==> b.contains(x),
        a.to_set() == b.to_set(),
        a.no_duplicates(),
{
    broadcast use vstd::seq_lib::group_to_multiset_ensures;

    assert forall|x: A| a.contains(x) <==> b.contains(x) by {
        assert(a.contains(x) <==> a.to_multiset().count(x) > 0);
        assert(b.contains(x) <==> b.to_multiset().count(x) > 0);
    }
    assert(a.to_set() =~= b.to_set());
    b.lemma_multiset_has_no_duplicates();
    a.lemma_multiset_has_no_duplicates_conv();
}

/// The lines, each followed by a line break.
pub open spec fn joined(lines: Seq<Seq<char>>) -> Seq<char>
    decreases lines.len(),
{
    if lines.len() == 0 {
        Seq::empty()
    } else {
        joined(lines.drop_last()) + lines.last() + "\n"@
    }
}

proof fn lemma_joined_push(lines: Seq<Seq<char>>, line: Seq<char>)
    ensures
        joined(lines.push(line)) == joined(lines) + line + "\n"@,
{
    assert(lines.push(line).drop_last() =~= lines);
}

/// The sort key of the task `id`: to-do tasks first, then by id.
pub open spec fn task_key(ts: Seq<TaskView>, id: usize) -> (u8, usize) {
    (
        match ts[id as int].state {
            TaskState::Todo => 0u8,
            TaskState::Done => 1u8,
        },
        id,
    )
}

/// `o` holds the ids of `b`, to-do tasks first, each part in ascending
/// order of id.
pub open spec fn task_order(o: Seq<usize>, b: Seq<usize>, ts: Seq<TaskView>) -> bool {
    &&& forall|x: usize| o.contains(x) <==> b.contains(x)
    &&& forall|a: int, c: int|
        0 <= a < c < o.len() ==> pair_le(task_key(ts, o[a]), task_key(ts, o[c])) && o[a] != o[c]
}

/// A context's line, as `format_context` gives it.
pub open spec fn context_line(r: Seq<char>, name: Seq<char>, current: bool) -> bool {
    &&& !current ==> r == name
    &&& current && no_escape(name) ==> exists|n: Seq<char>|
        #![trigger shown(n, italic_code(), name)]
        r == "~"@ + n + "~"@ && shown(n, italic_code(), name)
}

/// A category's heading, as `format_category` gives it.
pub open spec fn category_line(r: Seq<char>, name: Seq<char>, count: nat) -> bool {
    no_escape(name) ==> exists|b: Seq<char>, c: Seq<char>|
        #![trigger shown(b, bold_code(), name), shown(c, grey_code(), count_text(count))]
        r == b + ": "@ + c && shown(b, bold_code(), name) && shown(c, grey_code(), count_text(count))
}

/// A category's block in a listing: its heading, the lines of its tasks in
/// `task_order`, and an empty line.
pub open spec fn category_block(
    r: Seq<char>,
    name: Seq<char>,
    tasks: Seq<Task>,
    format: Seq<char>,
    now: Timestamp,
) -> bool {
    let ts = tasks_view(tasks);
    let b = category_index(ts)[name];
    exists|heading: Seq<char>, order: Seq<usize>, lines: Seq<Seq<char>>|
        #![trigger category_line(heading, name, b.len()), task_order(order, b, ts), joined(lines)]
        category_line(heading, name, b.len()) && task_order(order, b, ts) && lines.len()
            == order.len() && (forall|j: int|
            0 <= j < lines.len() ==> task_line(
                #[trigger] lines[j],
                format,
                tasks[order[j] as int],
                order[j] as nat,
                now,
            )) && r == heading + "\n"@ + joined(lines) + "\n"@
}

/// The concatenation of the blocks.
pub open spec fn concatenated(blocks: Seq<Seq<char>>) -> Seq<char>
    decreases blocks.len(),
{
    if blocks.len() == 0 {
        Seq::empty()
    } else {
        concatenated(blocks.drop_last()) + blocks.last()
    }
}

/// The tasks of the bucket `ids`, to-do tasks first, each part by id.
fn order_tasks(tasks: &Vec<Task>, ids: &Vec<usize>) -> (r: Vec<usize>)
    requires
        forall|a: int| 0 <= a < ids@.len() ==> ids@[a] < tasks@.len(),
        ids@.no_duplicates(),
    ensures
        task_order(r@, ids@, tasks_view(tasks@)),
{
    let ghost ts = tasks_view(tasks@);
    let mut pairs: Vec<(u8, usize)> = Vec::new();
    let mut i: usize = 0;
    while i < ids.len()
        invariant
            i <= ids@.len(),
            ts == tasks_view(tasks@),
            forall|a: int| 0 <= a < ids@.len() ==> ids@[a] < tasks@.len(),
            pairs@ == ids@.take(i as int).map_values(|id: usize| task_key(ts, id)),
        decreases ids@.len() - i,
    {
        let id = ids[i];
        let rank: u8 = match tasks[id].state {
            TaskState::Todo => 0,
            TaskState::Done => 1,
        };
        pairs.push((rank, id));
        proof {
            assert(ids@.take(i + 1) =~= ids@.take(i as int).push(id));
            assert(pairs@ =~= ids@.take(i + 1).map_values(|id: usize| task_key(ts, id)));
        }
        i = i + 1;
    }
    proof {
        assert(ids@.take(ids@.len() as int) =~= ids@);
        assert(pairs@.no_duplicates()) by {
            assert forall|a: int, c: int| 0 <= a < pairs@.len() && 0 <= c < pairs@.len() && a != c
                implies pairs@[a] != pairs@[c] by {
                assert(pairs@[a].1 == ids@[a]);
                assert(pairs@[c].1 == ids@[c]);
            }
        }
    }
    let sorted = sorted_pairs(pairs);
    proof {
        lemma_same_elements(sorted@, pairs@);
    }
    let mut r: Vec<usize> = Vec::new();
    let mut k: usize = 0;
    while k < sorted.len()
        invariant
            k <= sorted@.len(),
            r@ == sorted@.take(k as int).map_values(|p: (u8, usize)| p.1),
        decreases sorted@.len() - k,
    {
        r.push(sorted[k].1);
        proof {
            assert(sorted@.take(k + 1) =~= sorted@.take(k as int).push(sorted@[k as int]));
            assert(r@ =~= sorted@.take(k + 1).map_values(|p: (u8, usize)| p.1));
        }
        k = k + 1;
    }
    proof {
        assert(sorted@.take(sorted@.len() as int) =~= sorted@);
        assert forall|a: int| 0 <= a < sorted@.len() implies #[trigger] sorted@[a] == task_key(
            ts,
            r@[a],
        ) by {
            assert(pairs@.contains(sorted@[a]));
            let j = choose|j: int| 0 <= j < pairs@.len() && pairs@[j] == sorted@[a];
            assert(pairs@[j] == task_key(ts, ids@[j]));
        }
        assert forall|x: usize| r@.contains(x) <==> ids@.contains(x) by {
            if r@.contains(x) {
                let a = choose|a: int| 0 <= a < r@.len() && r@[a] == x;
                assert(pairs@.contains(sorted@[a]));
                let j = choose|j: int| 0 <= j < pairs@.len() && pairs@[j] == sorted@[a];
                assert(ids@[j] == x);
            }
            if ids@.contains(x) {
                let j = choose|j: int| 0 <= j < ids@.len() && ids@[j] == x;
                assert(pairs@[j] == task_key(ts, x));
                assert(sorted@.contains(pairs@[j]));
                let a = choose|a: int| 0 <= a < sorted@.len() && sorted@[a] == pairs@[j];
                assert(r@[a] == x);
            }
        }
        assert forall|a: int, c: int| 0 <= a < c < r@.len() implies pair_le(
            task_key(ts, r@[a]),
            task_key(ts, r@[c]),
        ) && r@[a] != r@[c] by {
            assert(sorted@[a] == task_key(ts, r@[a]));
            assert(sorted@[c] == task_key(ts, r@[c]));
            assert(sorted@[a] != sorted@[c]);
        }
    }
    r
}

impl Efficacy {
    /// The registered contexts, one line each in ascending order of name, the
    /// active one marked, after a leading line break.
    pub fn list_contexts(&self) -> (r: String)
        requires
            self.wf(),
        ensures
            exists|names: Seq<Seq<char>>, lines: Seq<Seq<char>>|
                #![trigger in_order(names, self.state@.registry.dom()), joined(lines)]
                in_order(names, self.state@.registry.dom()) && lines.len() == names.len() && (
                forall|i: int|
                    0 <= i < names.len() ==> context_line(
                        #[trigger] lines[i],
                        names[i],
                        names[i] == self.state@.current,
                    )) && r@ == "\n"@ + joined(lines),
    {
        let all = self.state.task_file_paths.names();
        let names = sorted_names(all);
        proof {
            lemma_same_elements(views(names@), views(all@));
        }
        let mut result = String::from_str("\n");
        let ghost lines: Seq<Seq<char>> = Seq::empty();
        let mut i: usize = 0;
        while i < names.len()
            invariant
                i <= names@.len(),
                lines.len() == i,
                forall|j: int|
                    0 <= j < i ==> context_line(
                        #[trigger] lines[j],
                        names@[j]@,
                        names@[j]@ == self.state@.current,
                    ),
                result@ == "\n"@ + joined(lines),
            decreases names@.len() - i,
        {
            let is_current = names[i] == self.state.current_context.context_name;
            let line = format_context(&names[i], is_current);
            proof {
                lemma_joined_push(lines, line@);
                lines = lines.push(line@);
            }
            result.append(line.as_str());
            result.append("\n");
            i = i + 1;
        }
        proof {
            assert(views(names@).len() == lines.len());
            assert forall|j: int| 0 <= j < lines.len() implies context_line(
                #[trigger] lines[j],
                views(names@)[j],
                views(names@)[j] == self.state@.current,
            ) by {
                assert(views(names@)[j] == names@[j]@);
            }
            assert(in_order(views(names@), self.state@.registry.dom()));
        }
        result
    }

    /// The listing of the active context as seen at `now`: for each category,
    /// in ascending order of name, its block; the final line break dropped.
    /// With no tasks, "No tasks!" in grey.
    pub fn list(&self, now: Timestamp) -> (r: String)
        requires
            self.wf(),
        ensures
            self.state@.tasks.len() == 0 ==> shown(r@, grey_code(), "No tasks!"@),
            self.state@.tasks.len() > 0 ==> exists|labels: Seq<Seq<char>>, blocks: Seq<Seq<char>>|
                #![trigger in_order(labels, category_index(self.state@.tasks).dom()), concatenated(blocks)]
                in_order(labels, category_index(self.state@.tasks).dom()) && labels.len() > 0
                    && blocks.len() == labels.len() && (forall|i: int|
                    0 <= i < labels.len() ==> category_block(
                        #[trigger] blocks[i],
                        labels[i],
                        self.state.task_objects@,
                        self.config.task_format@,
                        now,
                    )) && r@ == ("\n"@ + concatenated(blocks)).drop_last(),
    {
        let ghost ts = self.state@.tasks;
        let ghost tasks = self.state.task_objects@;
        let n_tasks = self.state.task_objects.len();
        proof {
            lemma_index_partitions(ts);
        }
        let all = self.state.category_map.labels();
        let labels = sorted_names(all);
        proof {
            lemma_same_elements(views(labels@), views(all@));
            assert forall|j: int| 0 <= j < labels@.len() implies category_index(ts).contains_key(
                #[trigger] labels@[j]@,
            ) by {
                assert(views(labels@)[j] == labels@[j]@);
                assert(views(labels@).contains(labels@[j]@));
                assert(views(labels@).to_set().contains(labels@[j]@));
            }
            reveal_strlit("\n");
        }
        let mut result = String::from_str("\n");
        let ghost blocks: Seq<Seq<char>> = Seq::empty();
        let mut i: usize = 0;
        while i < labels.len()
            invariant
                ts == self.state@.tasks,
                tasks == self.state.task_objects@,
                n_tasks == ts.len(),
                self.wf(),
                i <= labels@.len(),
                forall|j: int| 0 <= j < labels@.len() ==> category_index(ts).contains_key(#[trigger] labels@[j]@),
                blocks.len() == i,
                forall|j: int|
                    0 <= j < i ==> category_block(
                        #[trigger] blocks[j],
                        labels@[j]@,
                        tasks,
                        self.config.task_format@,
                        now,
                    ),
                result@ == "\n"@ + concatenated(blocks),
            decreases labels@.len() - i,
        {
            let label = &labels[i];
            let ids = match self.state.category_map.get(label) {
                Some(v) => v,
                None => {
                    proof {
                        assert(category_index(ts).contains_key(labels@[i as int]@));
                    }
                    return result;
                },
            };
            let ghost b = category_index(ts)[label@];
            proof {
                lemma_bucket_members(ts, label@);
                assert(ids@ == b);
                assert(b.no_duplicates()) by {
                    assert forall|a: int, c: int| 0 <= a < b.len() && 0 <= c < b.len() && a != c
                        implies b[a] != b[c] by {
                        if a < c {
                            assert(b[a] < b[c]);
                        } else {
                            assert(b[c] < b[a]);
                        }
                    }
                }
            }
            let heading = format_category(label, ids);
            let order = order_tasks(&self.state.task_objects, ids);
            let mut block = heading.clone();
            block.append("\n");
            let ghost lines: Seq<Seq<char>> = Seq::empty();
            let mut k: usize = 0;
            while k < order.len()
                invariant
                    ts == self.state@.tasks,
                    tasks == self.state.task_objects@,
                    task_order(order@, b, ts),
                    forall|x: usize| b.contains(x) ==> x < tasks.len(),
                    k <= order@.len(),
                    lines.len() == k,
                    forall|j: int|
                        0 <= j < k ==> task_line(
                            #[trigger] lines[j],
                            self.config.task_format@,
                            tasks[order@[j] as int],
                            order@[j] as nat,
                            now,
                        ),
                    block@ == heading@ + "\n"@ + joined(lines),
                decreases order@.len() - k,
            {
                let id = order[k];
                proof {
                    assert(order@.contains(id));
                }
                let line = format_task(&self.config.task_format, &self.state.task_objects[id], id, now);
                proof {
                    lemma_joined_push(lines, line@);
                    lines = lines.push(line@);
                }
                block.append(line.as_str());
                block.append("\n");
                k = k + 1;
            }
            block.append("\n");
            proof {
                assert(category_line(heading@, label@, b.len()));
                assert(category_block(block@, label@, tasks, self.config.task_format@, now));
                assert(blocks.push(block@).drop_last() =~= blocks);
                blocks = blocks.push(block@);
            }
            result.append(block.as_str());
            i = i + 1;
        }
        proof {
            assert(views(labels@).len() == blocks.len());
            assert forall|j: int| 0 <= j < blocks.len() implies category_block(
                #[trigger] blocks[j],
                views(labels@)[j],
                tasks,
                self.config.task_format@,
                now,
            ) by {
                assert(views(labels@)[j] == labels@[j]@);
            }
        }
        if labels.len() == 0 {
            proof {
                assert(ts.len() == 0) by {
                    if ts.len() > 0 {
                        assert(category_index(ts).contains_key(crate::index::label(ts[0])));
                        assert(views(labels@).to_set().contains(crate::index::label(ts[0])));
                    }
                }
            }
            format_nothing()
        } else {
            proof {
                assert(ts.len() > 0) by {
                    assert(views(labels@).to_set().contains(views(labels@)[0]));
                }
            }
            let s = result.as_str();
            let n = s.unicode_len();
            assert(n >= 1);
            let r = s.substring_char(0, n - 1).to_owned();
            proof {
                assert(r@ =~= result@.drop_last());
                assert forall|a: int, c: int| 0 <= a < c < views(labels@).len() implies text_le(
                    views(labels@)[a],
                    views(labels@)[c],
                ) by {
                    assert(views(labels@)[a] == labels@[a]@);
                    assert(views(labels@)[c] == labels@[c]@);
                }
                assert(in_order(views(labels@), category_index(ts).dom()));
            }
            r
        }
    }

    /// The detailed view of the task `id` as seen at `now`, `local_due` being
    /// its due date written in local time; nothing when there is no such task.
    pub fn list_task(&self, id: usize, now: Timestamp, local_due: &String) -> (r: Option<String>)
        requires
            self.wf(),
        ensures
            r is Some <==> id < self.state.task_objects@.len(),
            r matches Some(text) ==> spotlight(
                text@,
                self.state.task_objects@[id as int],
                id as nat,
                now,
                local_due@,
            ),
    {
        if id < self.state.task_objects.len() {
            let task = &self.state.task_objects[id];
            Some(format_task_spotlight(task, id, now, local_due))
        } else {
            None
        }
    }
}

} // verus!
