//! Context names, the files that hold each context, and the registry that
//! maps the one to the other.
use vstd::prelude::*;

verus! {

/// The name of the context that always exists.
pub open spec fn default_name() -> Seq<char> {
    "default"@
}

/// The file that holds the `default` context's tasks.
pub open spec fn default_file() -> Seq<char> {
    "default.json"@
}

/// The file that records which context is active.
pub open spec fn marker_file() -> Seq<char> {
    "context.json"@
}

/// The file created for a new context.
pub open spec fn json_file(name: Seq<char>) -> Seq<char> {
    name + ".json"@
}

/// Whether `c` has the Unicode White_Space property.
pub open spec fn is_white_space(c: char) -> bool {
    let u = c as u32;
    (0x9 <= u <= 0xd) || u == 0x20 || u == 0x85 || u == 0xa0 || u == 0x1680 || (0x2000 <= u
        <= 0x200a) || u == 0x2028 || u == 0x2029 || u == 0x202f || u == 0x205f || u == 0x3000
}

/// Whether `s` holds a whitespace character.
pub open spec fn has_white_space(s: Seq<char>) -> bool {
    exists|i: int| 0 <= i < s.len() && is_white_space(#[trigger] s[i])
}

/// A name that a new context may take: not the reserved `default`, and
/// without whitespace.
pub open spec fn valid_context_name(name: Seq<char>) -> bool {
    name != default_name() && !has_white_space(name)
}

/// The position of the last '.' in `s`, or -1.
pub open spec fn last_dot(s: Seq<char>) -> int
    decreases s.len(),
{
    if s.len() == 0 {
        -1
    } else if s.last() == '.' {
        s.len() - 1
    } else {
        last_dot(s.drop_last())
    }
}

/// The stem of a file name: the part before its last '.', or the whole name
/// when it has no '.' after its first character, or is "..".
pub open spec fn file_stem(f: Seq<char>) -> Seq<char> {
    if f == ".."@ || last_dot(f) <= 0 {
        f
    } else {
        f.subrange(0, last_dot(f))
    }
}

/// The registry built from the file names found in the data directory: each
/// file but the marker and the default file under its stem, a later file
/// replacing an earlier one of the same stem.
pub open spec fn scanned(files: Seq<Seq<char>>) -> Map<Seq<char>, Seq<char>>
    decreases files.len(),
{
    if files.len() == 0 {
        Map::empty()
    } else {
        let prev = scanned(files.drop_last());
        let f = files.last();
        if f == marker_file() || f == default_file() {
            prev
        } else {
            prev.insert(file_stem(f), f)
        }
    }
}

/// The registry at start-up: the scanned files, and `default`.
pub open spec fn initial_registry(files: Seq<Seq<char>>) -> Map<Seq<char>, Seq<char>> {
    scanned(files).insert(default_name(), default_file())
}

pub open spec fn views(v: Seq<String>) -> Seq<Seq<char>> {
    v.map_values(|s: String| s@)
}

/// Whether `c` is whitespace.
pub fn white_space(c: char) -> (r: bool)
    ensures
        r == is_white_space(c),
{
    let u = c as u32;
    (0x9 <= u && u <= 0xd) || u == 0x20 || u == 0x85 || u == 0xa0 || u == 0x1680 || (0x2000 <= u
        && u <= 0x200a) || u == 0x2028 || u == 0x2029 || u == 0x202f || u == 0x205f || u == 0x3000
}

/// Whether a new context may take the name `name`.
pub fn is_valid_context_name(name: &String) -> (r: bool)
    ensures
        r == valid_context_name(name@),
{
    let reserved = String::from_str("default");
    if *name == reserved {
        return false;
    }
    let s = name.as_str();
    let n = s.unicode_len();
    let mut i: usize = 0;
    while i < n
        invariant
            n == s@.len(),
            s@ == name@,
            i <= n,
            forall|j: int| 0 <= j < i ==> !is_white_space(#[trigger] s@[j]),
        decreases n - i,
    {
        if white_space(s.get_char(i)) {
            return false;
        }
        i = i + 1;
    }
    true
}

/// The stem of the file name `f`.
pub fn stem_of(f: &String) -> (r: String)
    ensures
        r@ == file_stem(f@),
{
    let s = f.as_str();
    let n = s.unicode_len();
    let mut i: usize = n;
    proof {
        assert(s@.subrange(0, n as int) =~= s@);
    }
    while i > 0 && s.get_char(i - 1) != '.'
        invariant
            n == s@.len(),
            s@ == f@,
            i <= n,
            last_dot(s@) == last_dot(s@.subrange(0, i as int)),
        decreases i,
    {
        proof {
            let t = s@.subrange(0, i as int);
            assert(t.drop_last() =~= s@.subrange(0, i - 1));
        }
        i = i - 1;
    }
    proof {
        if i > 0 {
            let t = s@.subrange(0, i as int);
            assert(t.last() == s@[i - 1]);
        } else {
            assert(s@.subrange(0, 0) =~= Seq::<char>::empty());
        }
    }
    let dots = String::from_str("..");
    if *f == dots || i <= 1 {
        f.clone()
    } else {
        s.substring_char(0, i - 1).to_owned()
    }
}

/// The registry of contexts: each context name with the file that holds its
/// tasks.
#[derive(Debug)]
pub struct Registry {
    entries: Vec<(String, String)>,
}

impl View for Registry {
    type V = Map<Seq<char>, Seq<char>>;

    closed spec fn view(&self) -> Map<Seq<char>, Seq<char>> {
        Map::new(
            |k: Seq<char>| exists|i: int| 0 <= i < self.entries@.len() && #[trigger] self.entries@[i].0@ == k,
            |k: Seq<char>|
                self.entries@[choose|i: int|
                    0 <= i < self.entries@.len() && #[trigger] self.entries@[i].0@ == k].1@,
        )
    }
}

impl Registry {
    /// No two entries share a name.
    pub closed spec fn wf(&self) -> bool {
        forall|i: int, j: int|
            0 <= i < self.entries@.len() && 0 <= j < self.entries@.len() && i != j
                ==> #[trigger] self.entries@[i].0@ != #[trigger] self.entries@[j].0@
    }

    proof fn lemma_entry(&self, i: int)
        requires
            self.wf(),
            0 <= i < self.entries@.len(),
        ensures
            self@.contains_key(self.entries@[i].0@),
            self@[self.entries@[i].0@] == self.entries@[i].1@,
    {
        let k = self.entries@[i].0@;
        assert(self.entries@[i].0@ == k);
        let j = choose|j: int| 0 <= j < self.entries@.len() && #[trigger] self.entries@[j].0@ == k;
        assert(j == i);
    }

    proof fn lemma_dom(&self)
        requires
            self.wf(),
        ensures
            self@.dom().finite(),
            self@.dom().len() == self.entries@.len(),
            self.entries@.map_values(|e: (String, String)| e.0@).no_duplicates(),
            self.entries@.map_values(|e: (String, String)| e.0@).to_set() == self@.dom(),
    {
        let names = self.entries@.map_values(|e: (String, String)| e.0@);
        assert(names.no_duplicates()) by {
            assert forall|i: int, j: int| 0 <= i < names.len() && 0 <= j < names.len() && i != j
                implies names[i] != names[j] by {
                assert(self.entries@[i].0@ != self.entries@[j].0@);
            }
        }
        names.unique_seq_to_set();
        assert(self@.dom() =~= names.to_set()) by {
            assert forall|k: Seq<char>| self@.dom().contains(k) implies names.to_set().contains(k) by {
                let i = choose|i: int| 0 <= i < self.entries@.len() && #[trigger] self.entries@[i].0@ == k;
                assert(names[i] == k);
            }
            assert forall|k: Seq<char>| names.to_set().contains(k) implies self@.dom().contains(k) by {
                let i = choose|i: int| 0 <= i < names.len() && names[i] == k;
                assert(self.entries@[i].0@ == k);
            }
        }
    }

    /// A registry with no contexts.
    pub fn new() -> (r: Registry)
        ensures
            r.wf(),
            r@ == Map::<Seq<char>, Seq<char>>::empty(),
    {
        let r = Registry { entries: Vec::new() };
        assert(r@ =~= Map::<Seq<char>, Seq<char>>::empty());
        r
    }

    fn find(&self, name: &String) -> (r: Option<usize>)
        requires
            self.wf(),
        ensures
            match r {
                Some(i) => i < self.entries@.len() && self.entries@[i as int].0@ == name@,
                None => !self@.contains_key(name@),
            },
    {
        let mut i: usize = 0;
        while i < self.entries.len()
            invariant
                i <= self.entries@.len(),
                forall|j: int| 0 <= j < i ==> #[trigger] self.entries@[j].0@ != name@,
            decreases self.entries@.len() - i,
        {
            if self.entries[i].0 == *name {
                return Some(i);
            }
            i = i + 1;
        }
        None
    }

    /// The file of the context `name`, if it is registered.
    pub fn get(&self, name: &String) -> (r: Option<&String>)
        requires
            self.wf(),
        ensures
            match r {
                Some(f) => self@.contains_key(name@) && f@ == self@[name@],
                None => !self@.contains_key(name@),
            },
    {
        match self.find(name) {
            Some(i) => {
                proof {
                    self.lemma_entry(i as int);
                }
                Some(&self.entries[i].1)
            },
            None => None,
        }
    }

    /// The number of registered contexts.
    pub fn len(&self) -> (r: usize)
        requires
            self.wf(),
        ensures
            r == self@.dom().len(),
    {
        proof {
            self.lemma_dom();
        }
        self.entries.len()
    }

    /// The name of the `i`-th context, in the order of registration.
    pub fn name(&self, i: usize) -> (r: &String)
        requires
            self.wf(),
            i < self@.dom().len(),
        ensures
            self@.contains_key(r@),
    {
        proof {
            self.lemma_dom();
            self.lemma_entry(i as int);
        }
        &self.entries[i].0
    }

    /// Registers `name` with the file `file`, replacing any earlier entry.
    pub fn insert(&mut self, name: String, file: String)
        requires
            old(self).wf(),
        ensures
            final(self).wf(),
            final(self)@ == old(self)@.insert(name@, file@),
    {
        let ghost pre = *self;
        let ghost k0 = name@;
        let ghost f0 = file@;
        match self.find(&name) {
            Some(i) => {
                self.entries.set(i, (name, file));
                proof {
                    assert forall|j: int| 0 <= j < self.entries@.len() && j != i
                        implies #[trigger] self.entries@[j] == pre.entries@[j] by {}
                    assert(self.wf());
                    let post = pre@.insert(k0, f0);
                    assert forall|k: Seq<char>| #[trigger] self@.contains_key(k) <==> post.contains_key(k) by {
                        if self@.contains_key(k) {
                            let j = choose|j: int| 0 <= j < self.entries@.len() && #[trigger] self.entries@[j].0@ == k;
                            pre.lemma_entry(j);
                        }
                        if pre@.contains_key(k) {
                            let j = choose|j: int| 0 <= j < pre.entries@.len() && #[trigger] pre.entries@[j].0@ == k;
                            self.lemma_entry(j);
                        }
                        if k == k0 {
                            self.lemma_entry(i as int);
                        }
                    }
                    assert forall|k: Seq<char>| self@.contains_key(k) implies #[trigger] self@[k] == post[k] by {
                        let j = choose|j: int| 0 <= j < self.entries@.len() && #[trigger] self.entries@[j].0@ == k;
                        self.lemma_entry(j);
                        if j != i {
                            pre.lemma_entry(j);
                        }
                    }
                    assert(self@ =~= post);
                }
            },
            None => {
                self.entries.push((name, file));
                proof {
                    let n = pre.entries@.len() as int;
                    assert forall|j: int| 0 <= j < n
                        implies #[trigger] self.entries@[j] == pre.entries@[j] by {}
                    assert forall|j: int| 0 <= j < n implies #[trigger] pre.entries@[j].0@ != k0 by {
                        pre.lemma_entry(j);
                    }
                    assert(self.wf());
                    let post = pre@.insert(k0, f0);
                    assert forall|k: Seq<char>| #[trigger] self@.contains_key(k) <==> post.contains_key(k) by {
                        if self@.contains_key(k) && k != k0 {
                            let j = choose|j: int| 0 <= j < self.entries@.len() && #[trigger] self.entries@[j].0@ == k;
                            pre.lemma_entry(j);
                        }
                        if pre@.contains_key(k) {
                            let j = choose|j: int| 0 <= j < pre.entries@.len() && #[trigger] pre.entries@[j].0@ == k;
                            self.lemma_entry(j);
                        }
                        if k == k0 {
                            self.lemma_entry(n);
                        }
                    }
                    assert forall|k: Seq<char>| self@.contains_key(k) implies #[trigger] self@[k] == post[k] by {
                        let j = choose|j: int| 0 <= j < self.entries@.len() && #[trigger] self.entries@[j].0@ == k;
                        self.lemma_entry(j);
                        if j < n {
                            pre.lemma_entry(j);
                        }
                    }
                    assert(self@ =~= post);
                }
            },
        }
    }

    /// Deregisters `name`.
    pub fn remove(&mut self, name: &String)
        requires
            old(self).wf(),
        ensures
            final(self).wf(),
            final(self)@ == old(self)@.remove(name@),
    {
        let ghost pre = *self;
        match self.find(name) {
            Some(i) => {
                self.entries.remove(i);
                proof {
                    let post = pre@.remove(name@);
                    assert forall|j: int| 0 <= j < self.entries@.len()
                        implies #[trigger] self.entries@[j] == pre.entries@[if j < i { j } else { j + 1 }] by {}
                    assert(self.wf()) by {
                        assert forall|a: int, b: int|
                            0 <= a < self.entries@.len() && 0 <= b < self.entries@.len() && a != b
                                implies #[trigger] self.entries@[a].0@ != #[trigger] self.entries@[b].0@ by {
                            let pa = if a < i { a } else { a + 1 };
                            let pb = if b < i { b } else { b + 1 };
                            assert(self.entries@[a] == pre.entries@[pa]);
                            assert(self.entries@[b] == pre.entries@[pb]);
                        }
                    }
                    assert forall|k: Seq<char>| #[trigger] self@.contains_key(k) <==> post.contains_key(k) by {
                        if self@.contains_key(k) {
                            let j = choose|j: int| 0 <= j < self.entries@.len() && #[trigger] self.entries@[j].0@ == k;
                            let pj = if j < i { j } else { j + 1 };
                            assert(self.entries@[j] == pre.entries@[pj]);
                            pre.lemma_entry(pj);
                            assert(pre.entries@[pj].0@ != pre.entries@[i as int].0@);
                        }
                        if post.contains_key(k) {
                            let j = choose|j: int| 0 <= j < pre.entries@.len() && #[trigger] pre.entries@[j].0@ == k;
                            assert(j != i);
                            let sj = if j < i { j } else { j - 1 };
                            assert(self.entries@[sj] == pre.entries@[j]);
                            self.lemma_entry(sj);
                        }
                    }
                    assert forall|k: Seq<char>| self@.contains_key(k) implies #[trigger] self@[k] == post[k] by {
                        let j = choose|j: int| 0 <= j < self.entries@.len() && #[trigger] self.entries@[j].0@ == k;
                        self.lemma_entry(j);
                        let pj = if j < i { j } else { j + 1 };
                        assert(self.entries@[j] == pre.entries@[pj]);
                        pre.lemma_entry(pj);
                    }
                    assert(self@ =~= post);
                }
            },
            None => {
                assert(pre@.remove(name@) =~= pre@);
            },
        }
    }

    /// The registered names, in the order of registration.
    pub fn names(&self) -> (r: Vec<String>)
        requires
            self.wf(),
        ensures
            crate::registry::views(r@).to_set() == self@.dom(),
            crate::registry::views(r@).no_duplicates(),
    {
        let mut r: Vec<String> = Vec::new();
        let mut i: usize = 0;
        while i < self.entries.len()
            invariant
                i <= self.entries@.len(),
                crate::registry::views(r@) == self.entries@.take(i as int).map_values(|e: (String, String)| e.0@),
            decreases self.entries@.len() - i,
        {
            r.push(self.entries[i].0.clone());
            proof {
                assert(self.entries@.take(i + 1).map_values(|e: (String, String)| e.0@) =~= self.entries@.take(i as int).map_values(|e: (String, String)| e.0@).push(self.entries@[i as int].0@));
                assert(crate::registry::views(r@) =~= self.entries@.take(i + 1).map_values(|e: (String, String)| e.0@));
            }
            i = i + 1;
        }
        proof {
            self.lemma_dom();
            assert(self.entries@.take(self.entries@.len() as int) =~= self.entries@);
        }
        r
    }
}

} // verus!
