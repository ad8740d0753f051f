//! The state of one run: the registry of contexts, the active context, its
//! task store and the category index derived from that store.
use vstd::prelude::*;

use crate::errors::EfficacyError;
use crate::index::{category_index, index_insert, label_of, lemma_index_push, CategoryMap};
use crate::objects::{tasks_view, Context, Task, TaskView};
use crate::registry::{
    default_name, initial_registry, json_file, scanned, is_valid_context_name, stem_of,
    valid_context_name, views, Registry, default_file, marker_file,
};

verus! {

/// The mathematical value of a state: the active context, the registry, and
/// the tasks of the active context.
pub struct StateView {
    pub current: Seq<char>,
    pub registry: Map<Seq<char>, Seq<char>>,
    pub tasks: Seq<TaskView>,
}

/// The contents of the data directory's context files, as last written:
/// each file with the task store it holds.
pub type Disk = Map<Seq<char>, Seq<TaskView>>;

/// The task store that loading `file` yields: what it holds, or nothing when
/// it is missing.
pub open spec fn stored(disk: Disk, file: Seq<char>) -> Seq<TaskView> {
    if disk.contains_key(file) {
        disk[file]
    } else {
        Seq::empty()
    }
}

/// The task store that a load hands over: the parsed tasks, or an empty store
/// when the file was missing or malformed.
pub open spec fn loaded_tasks(loaded: Option<Vec<Task>>) -> Seq<TaskView> {
    match loaded {
        Some(v) => tasks_view(v@),
        None => Seq::empty(),
    }
}

/// The state after making `name` active with the task store `tasks`.
pub open spec fn entered(s: StateView, name: Seq<char>, tasks: Seq<TaskView>) -> StateView {
    StateView { current: name, registry: s.registry, tasks }
}

/// The disk after persisting the active context of `s`.
pub open spec fn saved(s: StateView, disk: Disk) -> Disk {
    disk.insert(s.registry[s.current], s.tasks)
}

/// A full switch to `name`: persist the active context, then load `name`'s
/// file from the disk so written.
pub open spec fn switched(s: StateView, disk: Disk, name: Seq<char>) -> (StateView, Disk) {
    let d = saved(s, disk);
    (entered(s, name, stored(d, s.registry[name])), d)
}

/// Switching away from the active context `a` to `b` and back again restores
/// the task store that `a` held before the first switch, when nothing else
/// writes to the files in between.
pub proof fn lemma_switch_away_and_back(s: StateView, disk: Disk, a: Seq<char>, b: Seq<char>)
    requires
        s.current == a,
        s.registry.contains_key(a),
        s.registry.contains_key(b),
    ensures
        ({
            let (s1, d1) = switched(s, disk, b);
            let (s2, d2) = switched(s1, d1, a);
            &&& s2.current == a
            &&& s2.registry == s.registry
            &&& s2.tasks == s.tasks
        }),
{
    let (s1, d1) = switched(s, disk, b);
    let fa = s.registry[a];
    let fb = s.registry[b];
    assert(d1[fa] == s.tasks);
    if fa == fb {
        assert(s1.tasks == s.tasks);
    }
}

/// What start-up must create in the data directory, and whether the existing
/// state is to be loaded.
#[derive(Debug, Clone, Copy, PartialEq, Eq, Structural)]
pub struct Bootstrap {
    pub create_dir: bool,
    pub create_marker: bool,
    pub create_default_file: bool,
    pub load_existing: bool,
}

/// Plans start-up from what exists: a missing directory is created with
/// everything in it; otherwise a missing marker is created, and with it the
/// default context's file, which is also created when it alone is missing.
/// Only when nothing had to be created is the existing state loaded.
pub fn bootstrap_steps(dir_exists: bool, marker_exists: bool, default_file_exists: bool) -> (r:
    Bootstrap)
    ensures
        r.create_dir == !dir_exists,
        r.create_marker == (!dir_exists || !marker_exists),
        r.create_default_file == (!dir_exists || !marker_exists || !default_file_exists),
        r.load_existing == (dir_exists && marker_exists && default_file_exists),
{
    let create_dir = !dir_exists;
    let create_marker = create_dir || !marker_exists;
    let create_default_file = create_marker || !default_file_exists;
    Bootstrap { create_dir, create_marker, create_default_file, load_existing: !create_default_file }
}

/// What a switch of context must persist and load: the active context's file
/// to write, and the file of the context switched to, to read.
#[derive(Debug)]
pub struct ContextSwitch {
    pub context_name: String,
    pub outgoing_file: String,
    pub incoming_file: String,
}

/// Why `delete_context` removed nothing, or the file it deregistered.
#[derive(Debug)]
pub enum ContextDeletion {
    /// `default` cannot be deleted.
    Reserved,
    /// The active context cannot be deleted.
    Active,
    /// No context of that name is registered.
    Unknown,
    /// The context was deregistered; its file is to be removed.
    Deleted(String),
}

/// The state of one run. Its registry maps each context name to the file,
/// in the data directory, that holds the context's tasks.
#[derive(Debug)]
pub struct State {
    pub current_context: Context,
    pub task_file_paths: Registry,
    pub task_objects: Vec<Task>,
    pub category_map: CategoryMap,
}

impl View for State {
    type V = StateView;

    open spec fn view(&self) -> StateView {
        StateView {
            current: self.current_context.context_name@,
            registry: self.task_file_paths@,
            tasks: tasks_view(self.task_objects@),
        }
    }
}

impl State {
    /// The registry is well formed and holds `default` and the active
    /// context, and the category index is the index of the task store.
    pub open spec fn wf(&self) -> bool {
        &&& self.task_file_paths.wf()
        &&& self.task_file_paths@.contains_key(self.current_context.context_name@)
        &&& self.task_file_paths@.contains_key(default_name())
        &&& self.category_map.wf()
        &&& self.category_map@ == category_index(self@.tasks)
    }

    /// The state at start-up, before anything is loaded: the registry built
    /// from the data directory's file names, `default` active, no tasks.
    pub fn new(file_names: Vec<String>) -> (r: State)
        ensures
            r.wf(),
            r@ == (StateView {
                current: default_name(),
                registry: initial_registry(views(file_names@)),
                tasks: Seq::empty(),
            }),
    {
        let marker = String::from_str("context.json");
        let default_task_file = String::from_str("default.json");
        let mut registry = Registry::new();
        let mut i: usize = 0;
        while i < file_names.len()
            invariant
                i <= file_names@.len(),
                registry.wf(),
                registry@ == scanned(views(file_names@).take(i as int)),
                marker@ == marker_file(),
                default_task_file@ == default_file(),
            decreases file_names@.len() - i,
        {
            let f = &file_names[i];
            proof {
                let fs = views(file_names@);
                assert(fs.take(i + 1).drop_last() =~= fs.take(i as int));
                assert(fs.take(i + 1).last() == f@);
            }
            if !(*f == marker) && !(*f == default_task_file) {
                let stem = stem_of(f);
                registry.insert(stem, f.clone());
            }
            i = i + 1;
        }
        proof {
            assert(views(file_names@).take(file_names@.len() as int) =~= views(file_names@));
        }
        registry.insert(String::from_str("default"), default_task_file);
        let r = State {
            current_context: Context { context_name: String::from_str("default") },
            task_file_paths: registry,
            task_objects: Vec::new(),
            category_map: CategoryMap::new(),
        };
        assert(r@.tasks =~= Seq::<TaskView>::empty());
        assert(category_index(Seq::<TaskView>::empty()) =~= Map::<Seq<char>, Seq<usize>>::empty());
        r
    }

    /// Whether a context named `name` is registered.
    pub fn context_exists(&self, name: &String) -> (r: bool)
        requires
            self.wf(),
        ensures
            r == self@.registry.contains_key(name@),
    {
        self.task_file_paths.get(name).is_some()
    }

    /// The file that holds the active context's tasks.
    pub fn task_file(&self) -> (r: &String)
        requires
            self.wf(),
        ensures
            r@ == self@.registry[self@.current],
    {
        match self.task_file_paths.get(&self.current_context.context_name) {
            Some(f) => f,
            None => {
                proof {
                    assert(false);
                }
                &self.current_context.context_name
            },
        }
    }

    /// Makes the context named by the persisted marker active: the marker's
    /// name, or `default` when the marker could not be read. Fails when that
    /// context is not registered, leaving the state as it was.
    pub fn load_context(&mut self, marker: Option<Context>) -> (r: Result<(), EfficacyError>)
        requires
            old(self).wf(),
        ensures
            final(self).wf(),
            ({
                let name = match marker {
                    Some(c) => c.context_name@,
                    None => default_name(),
                };
                &&& r is Ok <==> old(self)@.registry.contains_key(name)
                &&& r is Ok ==> final(self)@ == entered(old(self)@, name, old(self)@.tasks)
                &&& r is Err ==> r == Err::<(), EfficacyError>(EfficacyError::NonexistentContextError)
                    && final(self)@ == old(self)@
            }),
    {
        let name = match marker {
            Some(c) => c.context_name,
            None => String::from_str("default"),
        };
        if self.context_exists(&name) {
            self.current_context = Context { context_name: name };
            Ok(())
        } else {
            Err(EfficacyError::NonexistentContextError)
        }
    }

    /// Replaces the task store wholesale with a loaded one (empty when the
    /// file was missing or malformed) and rebuilds the category index.
    pub fn load(&mut self, loaded: Option<Vec<Task>>)
        requires
            old(self).wf(),
        ensures
            final(self).wf(),
            final(self)@ == entered(old(self)@, old(self)@.current, loaded_tasks(loaded)),
    {
        self.task_objects = match loaded {
            Some(v) => v,
            None => Vec::new(),
        };
        assert(self@.tasks =~= loaded_tasks(loaded));
        self.rebuild_category_map();
    }

    /// Records the task `task` under the id `id` in the category index, at
    /// the end of its bucket.
    pub fn add_to_category_map(&mut self, task: &Task, id: usize)
        requires
            old(self).category_map.wf(),
        ensures
            final(self).category_map.wf(),
            final(self).category_map@ == index_insert(old(self).category_map@, task@, id),
            final(self)@ == old(self)@,
            final(self).task_file_paths == old(self).task_file_paths,
    {
        let l = label_of(task);
        self.category_map.insert_id(l, id);
    }

    /// Rebuilds the category index from the task store by one scan.
    pub fn rebuild_category_map(&mut self)
        ensures
            final(self).category_map.wf(),
            final(self).category_map@ == category_index(final(self)@.tasks),
            final(self)@ == old(self)@,
            final(self).task_file_paths == old(self).task_file_paths,
    {
        self.category_map.clear();
        let ghost ts = self@.tasks;
        let mut i: usize = 0;
        proof {
            assert(ts.take(0) =~= Seq::<TaskView>::empty());
            assert(category_index(ts.take(0)) =~= Map::<Seq<char>, Seq<usize>>::empty());
        }
        while i < self.task_objects.len()
            invariant
                ts == self@.tasks,
                i <= ts.len(),
                self.category_map.wf(),
                self.category_map@ == category_index(ts.take(i as int)),
                self@ == old(self)@,
                self.task_file_paths == old(self).task_file_paths,
            decreases ts.len() - i,
        {
            let l = label_of(&self.task_objects[i]);
            proof {
                assert(ts.take(i + 1) =~= ts.take(i as int).push(ts[i as int]));
                lemma_index_push(ts.take(i as int), ts[i as int]);
            }
            self.category_map.insert_id(l, i);
            i = i + 1;
        }
        proof {
            assert(ts.take(ts.len() as int) =~= ts);
        }
    }

    /// Plans a switch to the context `name`: the active context's file, to be
    /// written first, and `name`'s file, to be read. Fails when `name` is not
    /// registered. The state is not changed: `enter_context` completes the
    /// switch once the files are handled.
    pub fn change_context(&self, name: &String) -> (r: Result<ContextSwitch, EfficacyError>)
        requires
            self.wf(),
        ensures
            r is Ok <==> self@.registry.contains_key(name@),
            r is Err ==> r == Err::<ContextSwitch, EfficacyError>(EfficacyError::NonexistentContextError),
            r matches Ok(sw) ==> {
                &&& sw.context_name@ == name@
                &&& sw.outgoing_file@ == self@.registry[self@.current]
                &&& sw.incoming_file@ == self@.registry[name@]
            },
    {
        match self.task_file_paths.get(name) {
            Some(f) => Ok(
                ContextSwitch {
                    context_name: name.clone(),
                    outgoing_file: self.task_file().clone(),
                    incoming_file: f.clone(),
                },
            ),
            None => Err(EfficacyError::NonexistentContextError),
        }
    }

    /// Completes a switch: makes `name` active with the task store loaded
    /// from its file, and rebuilds the category index. Fails when `name` is
    /// not registered, leaving the state as it was.
    pub fn enter_context(&mut self, name: &String, loaded: Option<Vec<Task>>) -> (r: Result<
        (),
        EfficacyError,
    >)
        requires
            old(self).wf(),
        ensures
            final(self).wf(),
            r is Ok <==> old(self)@.registry.contains_key(name@),
            r is Ok ==> final(self)@ == entered(old(self)@, name@, loaded_tasks(loaded)),
            r is Err ==> r == Err::<(), EfficacyError>(EfficacyError::NonexistentContextError)
                && final(self)@ == old(self)@,
    {
        if !self.context_exists(name) {
            return Err(EfficacyError::NonexistentContextError);
        }
        self.current_context = Context { context_name: name.clone() };
        self.load(loaded);
        Ok(())
    }

    /// Registers a new context `name` with the file `name.json` and plans the
    /// switch to it. Fails, changing nothing, when `name` is `default` or
    /// holds whitespace.
    pub fn new_context(&mut self, name: &String) -> (r: Result<ContextSwitch, EfficacyError>)
        requires
            old(self).wf(),
        ensures
            final(self).wf(),
            r is Ok <==> valid_context_name(name@),
            r is Err ==> r == Err::<ContextSwitch, EfficacyError>(EfficacyError::BadContextNameError)
                && final(self)@ == old(self)@,
            r is Ok ==> final(self)@ == (StateView {
                registry: old(self)@.registry.insert(name@, json_file(name@)),
                ..old(self)@
            }),
            r matches Ok(sw) ==> {
                &&& sw.context_name@ == name@
                &&& sw.outgoing_file@ == final(self)@.registry[final(self)@.current]
                &&& sw.incoming_file@ == json_file(name@)
            },
    {
        if !is_valid_context_name(name) {
            return Err(EfficacyError::BadContextNameError);
        }
        let file = name.clone().concat(".json");
        self.task_file_paths.insert(name.clone(), file);
        self.change_context(name)
    }

    /// Deregisters the context `name` and hands back its file, to be removed.
    /// `default`, the active context and an unregistered name are refused,
    /// and the state is left as it was.
    pub fn delete_context(&mut self, name: &String) -> (r: ContextDeletion)
        requires
            old(self).wf(),
        ensures
            final(self).wf(),
            name@ == default_name() ==> r is Reserved,
            name@ != default_name() && name@ == old(self)@.current ==> r is Active,
            name@ != default_name() && name@ != old(self)@.current
                && !old(self)@.registry.contains_key(name@) ==> r is Unknown,
            name@ != default_name() && name@ != old(self)@.current
                && old(self)@.registry.contains_key(name@) ==> r is Deleted,
            r matches ContextDeletion::Deleted(f) ==> {
                &&& name@ != default_name()
                &&& name@ != old(self)@.current
                &&& old(self)@.registry.contains_key(name@)
                &&& f@ == old(self)@.registry[name@]
                &&& final(self)@ == (StateView {
                    registry: old(self)@.registry.remove(name@),
                    ..old(self)@
                })
            },
            !(r is Deleted) ==> final(self)@ == old(self)@,
    {
        let reserved = String::from_str("default");
        if *name == reserved {
            return ContextDeletion::Reserved;
        }
        if *name == self.current_context.context_name {
            return ContextDeletion::Active;
        }
        let file = match self.task_file_paths.get(name) {
            Some(f) => f.clone(),
            None => {
                return ContextDeletion::Unknown;
            },
        };
        self.task_file_paths.remove(name);
        ContextDeletion::Deleted(file)
    }
}

} // verus!
