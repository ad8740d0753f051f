//! The category index: for each category label, the ids of the tasks that
//! carry it. It is derived from the task store and can always be rebuilt
//! from it.
use vstd::prelude::*;

use crate::objects::{Task, TaskView};

verus! {

/// The label of the bucket that holds uncategorised tasks.
pub open spec fn no_category() -> Seq<char> {
    "No category"@
}

/// The bucket label of a task: its category, or "No category" when it has none.
pub open spec fn label(t: TaskView) -> Seq<char> {
    match t.category {
        Some(c) => c,
        None => no_category(),
    }
}

/// The ids, in ascending order, of the tasks in `ts` whose label is `l`.
pub open spec fn bucket(ts: Seq<TaskView>, l: Seq<char>) -> Seq<usize>
    decreases ts.len(),
{
    if ts.len() == 0 {
        Seq::empty()
    } else if label(ts.last()) == l {
        bucket(ts.drop_last(), l).push((ts.len() - 1) as usize)
    } else {
        bucket(ts.drop_last(), l)
    }
}

/// Whether some task in `ts` has label `l`.
pub open spec fn has_label(ts: Seq<TaskView>, l: Seq<char>) -> bool {
    exists|i: int| 0 <= i < ts.len() && label(#[trigger] ts[i]) == l
}

/// The category index of a task store: one bucket per label in use.
pub open spec fn category_index(ts: Seq<TaskView>) -> Map<Seq<char>, Seq<usize>> {
    Map::new(|l: Seq<char>| has_label(ts, l), |l: Seq<char>| bucket(ts, l))
}

/// The index `m` after recording the task `t` under the id `id`, at the end
/// of its bucket.
pub open spec fn index_insert(m: Map<Seq<char>, Seq<usize>>, t: TaskView, id: usize) -> Map<
    Seq<char>,
    Seq<usize>,
> {
    let l = label(t);
    m.insert(
        l,
        if m.contains_key(l) {
            m[l].push(id)
        } else {
            seq![id]
        },
    )
}

/// The index obtained by recording the tasks one after the other, each under
/// its position.
pub open spec fn incremental_index(ts: Seq<TaskView>) -> Map<Seq<char>, Seq<usize>>
    decreases ts.len(),
{
    if ts.len() == 0 {
        Map::empty()
    } else {
        index_insert(incremental_index(ts.drop_last()), ts.last(), (ts.len() - 1) as usize)
    }
}

/// The buckets of `m` partition the ids of `ts`: every id lies in the bucket
/// of its task's label, and a bucket holds only ids in range of tasks with
/// its label.
pub open spec fn partitions(m: Map<Seq<char>, Seq<usize>>, ts: Seq<TaskView>) -> bool {
    &&& forall|id: usize|
        id < ts.len() ==> {
            &&& #[trigger] m.contains_key(label(ts[id as int]))
            &&& m[label(ts[id as int])].contains(id)
        }
    &&& forall|l: Seq<char>, id: usize|
        #[trigger] m.contains_key(l) && #[trigger] m[l].contains(id) ==> id < ts.len() && label(
            ts[id as int],
        ) == l
}

/// A bucket holds exactly the positions of the tasks with its label, in
/// strictly ascending order.
pub proof fn lemma_bucket_members(ts: Seq<TaskView>, l: Seq<char>)
    requires
        ts.len() <= usize::MAX,
    ensures
        forall|j: usize| #[trigger]
            bucket(ts, l).contains(j) <==> (j < ts.len() && label(ts[j as int]) == l),
        forall|a: int, b: int|
            0 <= a < b < bucket(ts, l).len() ==> bucket(ts, l)[a] < bucket(ts, l)[b],
        forall|a: int| 0 <= a < bucket(ts, l).len() ==> bucket(ts, l)[a] < ts.len(),
        bucket(ts, l).len() == 0 <==> !has_label(ts, l),
    decreases ts.len(),
{
    if ts.len() > 0 {
        let prev = ts.drop_last();
        lemma_bucket_members(prev, l);
        let n = (ts.len() - 1) as usize;
        assert forall|j: usize| #[trigger]
            bucket(ts, l).contains(j) <==> (j < ts.len() && label(ts[j as int]) == l) by {
            if bucket(ts, l).contains(j) {
                if j != n {
                    if label(ts.last()) == l {
                        let k = choose|k: int|
                            0 <= k < bucket(ts, l).len() && bucket(ts, l)[k] == j;
                        if k < bucket(prev, l).len() {
                            assert(bucket(prev, l)[k] == j);
                        }
                    }
                    assert(bucket(prev, l).contains(j));
                }
            }
            if j < ts.len() && label(ts[j as int]) == l {
                if j == n {
                    assert(bucket(ts, l).last() == j);
                } else {
                    assert(prev[j as int] == ts[j as int]);
                    assert(bucket(prev, l).contains(j));
                    let k = choose|k: int|
                        0 <= k < bucket(prev, l).len() && bucket(prev, l)[k] == j;
                    assert(bucket(ts, l)[k] == j);
                }
            }
        }
        if has_label(ts, l) {
            let i = choose|i: int| 0 <= i < ts.len() && label(#[trigger] ts[i]) == l;
            if i < n {
                assert(prev[i] == ts[i]);
                assert(has_label(prev, l));
            }
        }
        if has_label(prev, l) {
            let i = choose|i: int| 0 <= i < prev.len() && label(#[trigger] prev[i]) == l;
            assert(ts[i] == prev[i]);
        }
        if label(ts.last()) == l {
            assert(ts[n as int] == ts.last());
        }
    }
}

/// Recording one more task at the end updates only the bucket of its label.
pub proof fn lemma_index_push(ts: Seq<TaskView>, t: TaskView)
    requires
        ts.len() < usize::MAX,
    ensures
        category_index(ts.push(t)) == index_insert(category_index(ts), t, ts.len() as usize),
{
    let ts2 = ts.push(t);
    assert(ts2.drop_last() =~= ts);
    assert(ts2.last() == t);
    lemma_bucket_members(ts, label(t));
    let lhs = category_index(ts2);
    let rhs = index_insert(category_index(ts), t, ts.len() as usize);
    assert forall|l: Seq<char>| #[trigger] lhs.contains_key(l) <==> rhs.contains_key(l) by {
        if has_label(ts2, l) && l != label(t) {
            let i = choose|i: int| 0 <= i < ts2.len() && label(#[trigger] ts2[i]) == l;
            assert(ts[i] == ts2[i]);
        }
        if has_label(ts, l) {
            let i = choose|i: int| 0 <= i < ts.len() && label(#[trigger] ts[i]) == l;
            assert(ts2[i] == ts[i]);
        }
        if l == label(t) {
            assert(ts2[ts.len() as int] == t);
        }
    }
    assert forall|l: Seq<char>| lhs.contains_key(l) implies #[trigger] lhs[l] == rhs[l] by {
        if l == label(t) && !has_label(ts, l) {
            assert(bucket(ts, l) =~= Seq::<usize>::empty());
            assert(bucket(ts2, l) =~= seq![ts.len() as usize]);
        }
    }
    assert(lhs =~= rhs);
}

/// Recording the tasks one by one gives the index that a full scan gives.
pub proof fn lemma_incremental_agrees(ts: Seq<TaskView>)
    requires
        ts.len() <= usize::MAX,
    ensures
        incremental_index(ts) == category_index(ts),
    decreases ts.len(),
{
    if ts.len() == 0 {
        assert(category_index(ts) =~= Map::empty());
    } else {
        let prev = ts.drop_last();
        lemma_incremental_agrees(prev);
        lemma_index_push(prev, ts.last());
        assert(prev.push(ts.last()) =~= ts);
    }
}

/// The buckets of an index partition the ids of the store: every id lies in
/// the bucket of its task's label, and a bucket holds only ids in range whose
/// task carries that bucket's label, each once, in ascending order.
pub proof fn lemma_index_partitions(ts: Seq<TaskView>)
    requires
        ts.len() <= usize::MAX,
    ensures
        forall|id: usize|
            id < ts.len() ==> {
                &&& #[trigger] category_index(ts).contains_key(label(ts[id as int]))
                &&& category_index(ts)[label(ts[id as int])].contains(id)
            },
        forall|l: Seq<char>, id: usize|
            #[trigger] category_index(ts).contains_key(l) && #[trigger] category_index(
                ts,
            )[l].contains(id) ==> id < ts.len() && label(ts[id as int]) == l,
        forall|l: Seq<char>, a: int, b: int|
            category_index(ts).contains_key(l) && 0 <= a < b < category_index(ts)[l].len()
                ==> #[trigger] category_index(ts)[l][a] < #[trigger] category_index(ts)[l][b],
        forall|l: Seq<char>|
            #[trigger] category_index(ts).contains_key(l) ==> category_index(ts)[l].len() > 0,
{
    assert forall|id: usize| id < ts.len() implies {
        &&& #[trigger] category_index(ts).contains_key(label(ts[id as int]))
        &&& category_index(ts)[label(ts[id as int])].contains(id)
    } by {
        lemma_bucket_members(ts, label(ts[id as int]));
    }
    assert forall|l: Seq<char>, id: usize|
        #[trigger] category_index(ts).contains_key(l) && #[trigger] category_index(
            ts,
        )[l].contains(id) implies id < ts.len() && label(ts[id as int]) == l by {
        lemma_bucket_members(ts, l);
    }
    assert forall|l: Seq<char>, a: int, b: int|
        category_index(ts).contains_key(l) && 0 <= a < b < category_index(ts)[l].len()
            implies #[trigger] category_index(ts)[l][a] < #[trigger] category_index(ts)[l][b] by {
        lemma_bucket_members(ts, l);
    }
    assert forall|l: Seq<char>| #[trigger] category_index(ts).contains_key(l) implies category_index(
        ts,
    )[l].len() > 0 by {
        lemma_bucket_members(ts, l);
    }
}

/// Adding tasks one after the other, each recorded at the end of its bucket,
/// gives buckets that partition the ids of the store: every id lies in the
/// bucket of its task's label, and no bucket holds an id out of range or of a
/// task with another label.
pub proof fn lemma_adds_partition(ts: Seq<TaskView>)
    requires
        ts.len() <= usize::MAX,
    ensures
        forall|id: usize|
            id < ts.len() ==> {
                &&& #[trigger] incremental_index(ts).contains_key(label(ts[id as int]))
                &&& incremental_index(ts)[label(ts[id as int])].contains(id)
            },
        forall|l: Seq<char>, id: usize|
            #[trigger] incremental_index(ts).contains_key(l) && #[trigger] incremental_index(
                ts,
            )[l].contains(id) ==> id < ts.len() && label(ts[id as int]) == l,
{
    lemma_incremental_agrees(ts);
    lemma_index_partitions(ts);
}

/// Two task stores whose tasks carry the same labels, position by position,
/// have the same index.
pub proof fn lemma_same_labels(ts1: Seq<TaskView>, ts2: Seq<TaskView>)
    requires
        ts1.len() == ts2.len(),
        forall|i: int| 0 <= i < ts1.len() ==> label(#[trigger] ts1[i]) == label(ts2[i]),
    ensures
        category_index(ts1) == category_index(ts2),
{
    assert forall|l: Seq<char>| bucket(ts1, l) == bucket(ts2, l) by {
        lemma_same_labels_bucket(ts1, ts2, l);
    }
    assert forall|l: Seq<char>| has_label(ts1, l) <==> has_label(ts2, l) by {
        if has_label(ts1, l) {
            let i = choose|i: int| 0 <= i < ts1.len() && label(#[trigger] ts1[i]) == l;
            assert(label(ts2[i]) == l);
        }
        if has_label(ts2, l) {
            let i = choose|i: int| 0 <= i < ts2.len() && label(#[trigger] ts2[i]) == l;
            assert(label(ts1[i]) == l);
        }
    }
    assert(category_index(ts1) =~= category_index(ts2));
}

proof fn lemma_same_labels_bucket(ts1: Seq<TaskView>, ts2: Seq<TaskView>, l: Seq<char>)
    requires
        ts1.len() == ts2.len(),
        forall|i: int| 0 <= i < ts1.len() ==> label(#[trigger] ts1[i]) == label(ts2[i]),
    ensures
        bucket(ts1, l) == bucket(ts2, l),
    decreases ts1.len(),
{
    if ts1.len() > 0 {
        let front1 = ts1.drop_last();
        let front2 = ts2.drop_last();
        assert forall|i: int| 0 <= i < front1.len() implies label(#[trigger] front1[i]) == label(front2[i]) by {
            assert(front1[i] == ts1[i]);
            assert(front2[i] == ts2[i]);
        }
        lemma_same_labels_bucket(front1, front2, l);
        assert(label(ts1[ts1.len() - 1]) == label(ts2[ts2.len() - 1]));
    }
}

/// A bucket's ids after the task `id` is removed: `id` leaves, and every id
/// above it moves down by one.
pub open spec fn shifted(b: Seq<usize>, id: usize) -> Seq<usize> {
    b.filter(other_than(id)).map_values(shift_down(id))
}

/// Holds of every id but `id`.
pub open spec fn other_than(id: usize) -> spec_fn(usize) -> bool {
    |j: usize| j != id
}

/// The new value of the id `j` once the task `id` is removed.
pub open spec fn shift_down(id: usize) -> spec_fn(usize) -> usize {
    |j: usize|
        if j > id {
            (j - 1) as usize
        } else {
            j
        }
}

proof fn lemma_filter_absent(s: Seq<usize>, id: usize)
    requires
        !s.contains(id),
    ensures
        s.filter(other_than(id)) == s,
    decreases s.len(),
{
    if s.len() == 0 {
        assert(s.filter(other_than(id)) =~= s);
    } else {
        let p = s.drop_last();
        assert(!p.contains(id)) by {
            if p.contains(id) {
                let a = choose|a: int| 0 <= a < p.len() && p[a] == id;
                assert(s[a] == id);
            }
        }
        lemma_filter_absent(p, id);
        assert(p.push(s.last()) =~= s);
        p.lemma_filter_push(s.last(), other_than(id));
        assert(s[s.len() - 1] == s.last());
    }
}

proof fn lemma_bucket_after_remove(ts: Seq<TaskView>, id: usize, l: Seq<char>)
    requires
        ts.len() <= usize::MAX,
        id < ts.len(),
    ensures
        bucket(ts.remove(id as int), l) == shifted(bucket(ts, l), id),
    decreases ts.len(),
{
    let p = ts.drop_last();
    let n = (ts.len() - 1) as usize;
    let keep = other_than(id);
    let down = shift_down(id);
    if id == n {
        assert(ts.remove(id as int) =~= p);
        lemma_bucket_members(p, l);
        let bp = bucket(p, l);
        lemma_filter_absent(bp, id);
        assert(bp.map_values(down) =~= bp) by {
            assert forall|a: int| 0 <= a < bp.len() implies bp.map_values(down)[a] == bp[a] by {
                assert(bp.contains(bp[a]));
            }
        }
        if label(ts.last()) == l {
            bp.lemma_filter_push(id, keep);
        }
    } else {
        lemma_bucket_after_remove(p, id, l);
        let r = ts.remove(id as int);
        assert(r =~= p.remove(id as int).push(ts.last()));
        assert(r.drop_last() =~= p.remove(id as int));
        assert(r.last() == ts.last());
        let bp = bucket(p, l);
        if label(ts.last()) == l {
            bp.lemma_filter_push(n, keep);
            let f = bp.filter(keep);
            assert(f.push(n).map_values(down) =~= f.map_values(down).push((n - 1) as usize));
        }
    }
}

/// Deleting the task `id` and rebuilding gives, for every label, the old
/// bucket without `id` and with the ids above it moved down by one; and the
/// rebuilt index is the one that recording the remaining tasks one by one
/// gives.
pub proof fn lemma_delete_then_rebuild(ts: Seq<TaskView>, id: usize)
    requires
        ts.len() <= usize::MAX,
        id < ts.len(),
    ensures
        category_index(ts.remove(id as int)) == incremental_index(ts.remove(id as int)),
        forall|l: Seq<char>| #[trigger] category_index(ts.remove(id as int)).contains_key(l)
            ==> category_index(ts.remove(id as int))[l] == shifted(bucket(ts, l), id),
{
    lemma_incremental_agrees(ts.remove(id as int));
    assert forall|l: Seq<char>| #[trigger] category_index(ts.remove(id as int)).contains_key(l)
        implies category_index(ts.remove(id as int))[l] == shifted(bucket(ts, l), id) by {
        lemma_bucket_after_remove(ts, id, l);
    }
}

/// The bucket label of `t`.
pub fn label_of(t: &Task) -> (r: String)
    ensures
        r@ == label(t@),
{
    match &t.category {
        Some(c) => c.clone(),
        None => String::from_str("No category"),
    }
}

/// The executable category index: one entry per label, each with its ids.
#[derive(Debug)]
pub struct CategoryMap {
    entries: Vec<(String, Vec<usize>)>,
}

impl View for CategoryMap {
    type V = Map<Seq<char>, Seq<usize>>;

    closed spec fn view(&self) -> Map<Seq<char>, Seq<usize>> {
        Map::new(
            |k: Seq<char>| exists|i: int| 0 <= i < self.entries@.len() && #[trigger] self.entries@[i].0@ == k,
            |k: Seq<char>|
                self.entries@[choose|i: int|
                    0 <= i < self.entries@.len() && #[trigger] self.entries@[i].0@ == k].1@,
        )
    }
}

impl CategoryMap {
    /// No two entries share a label.
    pub closed spec fn wf(&self) -> bool {
        forall|i: int, j: int|
            0 <= i < self.entries@.len() && 0 <= j < self.entries@.len() && i != j
                ==> #[trigger] self.entries@[i].0@ != #[trigger] self.entries@[j].0@
    }

    proof fn lemma_entry(&self, i: int)
        requires
            self.wf(),
            0 <= i < self.entries@.len(),
        ensures
            self@.contains_key(self.entries@[i].0@),
            self@[self.entries@[i].0@] == self.entries@[i].1@,
    {
        let k = self.entries@[i].0@;
        assert(self.entries@[i].0@ == k);
        let j = choose|j: int| 0 <= j < self.entries@.len() && #[trigger] self.entries@[j].0@ == k;
        assert(j == i);
    }

    /// An index with no buckets.
    pub fn new() -> (r: CategoryMap)
        ensures
            r.wf(),
            r@ == Map::<Seq<char>, Seq<usize>>::empty(),
    {
        let r = CategoryMap { entries: Vec::new() };
        assert(r@ =~= Map::<Seq<char>, Seq<usize>>::empty());
        r
    }

    /// Removes every bucket.
    pub fn clear(&mut self)
        ensures
            final(self).wf(),
            final(self)@ == Map::<Seq<char>, Seq<usize>>::empty(),
    {
        self.entries.clear();
        assert(self@ =~= Map::<Seq<char>, Seq<usize>>::empty());
    }

    /// The number of buckets.
    pub fn len(&self) -> (r: usize)
        requires
            self.wf(),
        ensures
            r == self@.dom().len(),
    {
        proof {
            self.lemma_dom_len();
        }
        self.entries.len()
    }

    proof fn lemma_dom_len(&self)
        requires
            self.wf(),
        ensures
            self@.dom().finite(),
            self@.dom().len() == self.entries@.len(),
            self.entries@.map_values(|e: (String, Vec<usize>)| e.0@).no_duplicates(),
            self.entries@.map_values(|e: (String, Vec<usize>)| e.0@).to_set() == self@.dom(),
    {
        let names = self.entries@.map_values(|e: (String, Vec<usize>)| e.0@);
        assert(names.no_duplicates()) by {
            assert forall|i: int, j: int| 0 <= i < names.len() && 0 <= j < names.len() && i != j
                implies names[i] != names[j] by {
                assert(self.entries@[i].0@ != self.entries@[j].0@);
            }
        }
        names.unique_seq_to_set();
        assert(self@.dom() =~= names.to_set()) by {
            assert forall|k: Seq<char>| self@.dom().contains(k) implies names.to_set().contains(k) by {
                let i = choose|i: int| 0 <= i < self.entries@.len() && #[trigger] self.entries@[i].0@ == k;
                assert(names[i] == k);
            }
            assert forall|k: Seq<char>| names.to_set().contains(k) implies self@.dom().contains(k) by {
                let i = choose|i: int| 0 <= i < names.len() && names[i] == k;
                assert(self.entries@[i].0@ == k);
            }
        }
    }

    /// The position of the entry labelled `name`, if there is one.
    fn find(&self, name: &String) -> (r: Option<usize>)
        requires
            self.wf(),
        ensures
            match r {
                Some(i) => i < self.entries@.len() && self.entries@[i as int].0@ == name@,
                None => !self@.contains_key(name@),
            },
    {
        let mut i: usize = 0;
        while i < self.entries.len()
            invariant
                i <= self.entries@.len(),
                forall|j: int| 0 <= j < i ==> #[trigger] self.entries@[j].0@ != name@,
            decreases self.entries@.len() - i,
        {
            if self.entries[i].0 == *name {
                return Some(i);
            }
            i = i + 1;
        }
        None
    }

    /// The ids in the bucket labelled `name`, if that bucket exists.
    pub fn get(&self, name: &String) -> (r: Option<&Vec<usize>>)
        requires
            self.wf(),
        ensures
            match r {
                Some(v) => self@.contains_key(name@) && v@ == self@[name@],
                None => !self@.contains_key(name@),
            },
    {
        match self.find(name) {
            Some(i) => {
                proof {
                    self.lemma_entry(i as int);
                }
                Some(&self.entries[i].1)
            },
            None => None,
        }
    }

    /// The label and ids of the `i`-th bucket, in the order in which the
    /// labels were first recorded.
    pub fn entry(&self, i: usize) -> (r: (&String, &Vec<usize>))
        requires
            self.wf(),
            i < self@.dom().len(),
        ensures
            self@.contains_key(r.0@),
            self@[r.0@] == r.1@,
    {
        proof {
            self.lemma_dom_len();
            self.lemma_entry(i as int);
        }
        (&self.entries[i].0, &self.entries[i].1)
    }

    /// Records the id `id` at the end of the bucket labelled `name`, creating
    /// the bucket if needed.
    pub fn insert_id(&mut self, name: String, id: usize)
        requires
            old(self).wf(),
        ensures
            final(self).wf(),
            final(self)@ == old(self)@.insert(
                name@,
                if old(self)@.contains_key(name@) {
                    old(self)@[name@].push(id)
                } else {
                    seq![id]
                },
            ),
    {
        let ghost pre = *self;
        match self.find(&name) {
            Some(i) => {
                proof {
                    pre.lemma_entry(i as int);
                }
                self.entries[i].1.push(id);
                proof {
                    assert(self.entries@.len() == pre.entries@.len());
                    assert forall|j: int| 0 <= j < self.entries@.len()
                        implies #[trigger] self.entries@[j].0@ == pre.entries@[j].0@ by {}
                    assert(self.wf());
                    let post = pre@.insert(name@, pre@[name@].push(id));
                    assert forall|k: Seq<char>| #[trigger] self@.contains_key(k) <==> post.contains_key(k) by {
                        if self@.contains_key(k) {
                            let j = choose|j: int| 0 <= j < self.entries@.len() && #[trigger] self.entries@[j].0@ == k;
                            pre.lemma_entry(j);
                        }
                        if pre@.contains_key(k) {
                            let j = choose|j: int| 0 <= j < pre.entries@.len() && #[trigger] pre.entries@[j].0@ == k;
                            self.lemma_entry(j);
                        }
                        if k == name@ {
                            self.lemma_entry(i as int);
                        }
                    }
                    assert forall|k: Seq<char>| self@.contains_key(k) implies #[trigger] self@[k] == post[k] by {
                        let j = choose|j: int| 0 <= j < self.entries@.len() && #[trigger] self.entries@[j].0@ == k;
                        self.lemma_entry(j);
                        pre.lemma_entry(j);
                    }
                    assert(self@ =~= post);
                }
            },
            None => {
                let ghost k0 = name@;
                self.entries.push((name, vec![id]));
                proof {
                    let n = pre.entries@.len() as int;
                    assert forall|j: int| 0 <= j < n
                        implies #[trigger] self.entries@[j] == pre.entries@[j] by {}
                    assert forall|j: int| 0 <= j < n implies #[trigger] pre.entries@[j].0@ != k0 by {
                        pre.lemma_entry(j);
                    }
                    assert(self.wf());
                    let post = pre@.insert(k0, seq![id]);
                    assert forall|k: Seq<char>| #[trigger] self@.contains_key(k) <==> post.contains_key(k) by {
                        if self@.contains_key(k) && k != k0 {
                            let j = choose|j: int| 0 <= j < self.entries@.len() && #[trigger] self.entries@[j].0@ == k;
                            pre.lemma_entry(j);
                        }
                        if pre@.contains_key(k) {
                            let j = choose|j: int| 0 <= j < pre.entries@.len() && #[trigger] pre.entries@[j].0@ == k;
                            self.lemma_entry(j);
                        }
                        if k == k0 {
                            self.lemma_entry(n);
                        }
                    }
                    assert forall|k: Seq<char>| self@.contains_key(k) implies #[trigger] self@[k] == post[k] by {
                        let j = choose|j: int| 0 <= j < self.entries@.len() && #[trigger] self.entries@[j].0@ == k;
                        self.lemma_entry(j);
                        if j < n {
                            pre.lemma_entry(j);
                        }
                    }
                    assert(self@ =~= post);
                }
            },
        }
    }

    /// The labels of the buckets, in the order in which they were first recorded.
    pub fn labels(&self) -> (r: Vec<String>)
        requires
            self.wf(),
        ensures
            crate::registry::views(r@).to_set() == self@.dom(),
            crate::registry::views(r@).no_duplicates(),
    {
        let mut r: Vec<String> = Vec::new();
        let mut i: usize = 0;
        while i < self.entries.len()
            invariant
                i <= self.entries@.len(),
                crate::registry::views(r@) == self.entries@.take(i as int).map_values(|e: (String, Vec<usize>)| e.0@),
            decreases self.entries@.len() - i,
        {
            r.push(self.entries[i].0.clone());
            proof {
                assert(self.entries@.take(i + 1).map_values(|e: (String, Vec<usize>)| e.0@) =~= self.entries@.take(i as int).map_values(|e: (String, Vec<usize>)| e.0@).push(self.entries@[i as int].0@));
                assert(crate::registry::views(r@) =~= self.entries@.take(i + 1).map_values(|e: (String, Vec<usize>)| e.0@));
            }
            i = i + 1;
        }
        proof {
            self.lemma_dom_len();
            assert(self.entries@.take(self.entries@.len() as int) =~= self.entries@);
        }
        r
    }
}

} // verus!
