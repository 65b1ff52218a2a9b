//! The host's decision core: the application state, the UI command
//! processor, the backend reload pipeline, and the producer-runtime
//! restart protocol.
//!
//! Two single-consumer loops drive this state.  The UI loop drains
//! [`UIServerCommand`]s sent by modules and producers, strictly in arrival
//! order; the backend loop drains [`BackendServerCommand`]s raised by the
//! filesystem watcher.  Each command is handled by one call into this
//! module, so every observable instant of the host is a state these
//! functions produce, and the well-formedness invariant [`AppView::wf`]
//! holds at every such instant.

use vstd::prelude::*;

use crate::config::{
    effective_config, lookup_block, names_view, routed_block, Config, ConfigView, GeneralConfig,
};
use crate::layout::{simple_layout_name, spec_simple_layout_name, LayoutManager, LayoutView};
use crate::registry::{ActivityView, DynamicActivity, Module, ModuleView};
use crate::runtime::{
    lemma_replay_tasks_generation, lemma_replay_tasks_push, replay_tasks, ProducerRuntimeHandle,
    ProducerTask,
};

verus! {

/// The commands a module or producer may send to the UI loop: the only
/// channel through which a module can affect the layout or its own
/// registry entry.
pub enum UIServerCommand {
    /// Register a producer (by handle) with the named module and invoke it
    /// once on the current producer runtime.
    AddProducer(String, u64),
    /// Show an activity in the layout, style it, and register it with the
    /// named module.
    AddActivity(String, DynamicActivity),
    /// Remove the activity registered under the given name from the layout
    /// and from the named module.
    RemoveActivity(String, String),
}

/// Mathematical view of a [`UIServerCommand`].
pub enum UICommandView {
    AddProducer(Seq<char>, u64),
    AddActivity(Seq<char>, ActivityView),
    RemoveActivity(Seq<char>, Seq<char>),
}

impl View for UIServerCommand {
    type V = UICommandView;

    open spec fn view(&self) -> UICommandView {
        match self {
            UIServerCommand::AddProducer(module, producer) => UICommandView::AddProducer(
                module@,
                *producer,
            ),
            UIServerCommand::AddActivity(module, activity) => UICommandView::AddActivity(
                module@,
                activity@,
            ),
            UIServerCommand::RemoveActivity(module, name) => UICommandView::RemoveActivity(
                module@,
                name@,
            ),
        }
    }
}

/// The one command the filesystem watcher raises: run the reload pipeline.
pub enum BackendServerCommand {
    ReloadConfig(),
}

/// How the UI loop disposed of one command.
///
/// A producer or activity naming a nonexistent module is a broken module
/// contract: the host aborts on `ModuleNotFound`.  A duplicate or already
/// removed activity is a plausible race: the host logs it and goes on.
#[derive(Clone, Copy, PartialEq, Eq, Debug, Structural)]
pub enum UiOutcome {
    /// The command was carried out.
    Done,
    /// The named module is not in the registry; fatal by design.
    ModuleNotFound,
    /// An activity under this identifier is already registered; logged,
    /// state unchanged.
    DuplicateActivity,
    /// No activity under this name is registered with the module; logged,
    /// state unchanged.
    ActivityNotFound,
}

/// The application core: the module registry, the active layout, the one
/// current producer-runtime handle with the work scheduled on it, the
/// active configuration, and the installed stylesheet.
pub struct App {
    pub module_map: Vec<Module>,
    pub layout: LayoutManager,
    pub producers_handle: ProducerRuntimeHandle,
    pub running_tasks: Vec<ProducerTask>,
    pub config: Config,
    pub css: Option<String>,
}

/// Mathematical view of the whole application state.
#[verifier::ext_equal]
pub struct AppView {
    pub module_map: Seq<ModuleView>,
    pub layout: LayoutView,
    pub generation: u64,
    pub running_tasks: Seq<ProducerTask>,
    pub config: ConfigView,
    pub css: Option<Seq<char>>,
}

impl View for App {
    type V = AppView;

    open spec fn view(&self) -> AppView {
        AppView {
            module_map: self.module_map@.map_values(|m: Module| m@),
            layout: self.layout@,
            generation: self.producers_handle.generation,
            running_tasks: self.running_tasks@,
            config: self.config@,
            css: match self.css {
                Some(c) => Some(c@),
                None => None,
            },
        }
    }
}

impl AppView {
    /// Whether a module is loaded under `name`.
    pub open spec fn has_module(self, name: Seq<char>) -> bool {
        exists|i: int| 0 <= i < self.module_map.len() && self.module_map[i].name == name
    }

    /// Registry position of the module loaded under `name`.
    pub open spec fn module_index(self, name: Seq<char>) -> int {
        choose|i: int| 0 <= i < self.module_map.len() && self.module_map[i].name == name
    }

    /// Whether some module has an activity registered under `identifier`.
    pub open spec fn registered(self, identifier: Seq<char>) -> bool {
        exists|i: int, j: int|
            0 <= i < self.module_map.len() && 0 <= j < self.module_map[i].activities.len()
                && self.module_map[i].activities[j].identifier == identifier
    }

    /// Module identifiers are unique within the registry.
    pub open spec fn modules_distinct(self) -> bool {
        forall|i: int, j: int|
            0 <= i < j < self.module_map.len() ==> self.module_map[i].name
                != self.module_map[j].name
    }

    /// Each activity identifier is registered at most once, over all
    /// modules.
    pub open spec fn activities_unique(self) -> bool {
        forall|i1: int, j1: int, i2: int, j2: int|
            0 <= i1 < self.module_map.len() && 0 <= j1 < self.module_map[i1].activities.len() && 0
                <= i2 < self.module_map.len() && 0 <= j2
                < self.module_map[i2].activities.len() && self.module_map[i1].activities[j1].identifier
                == self.module_map[i2].activities[j2].identifier ==> i1 == i2 && j1 == j2
    }

    /// An activity is visible in the layout if and only if it is present in
    /// its owning module's activity map.
    pub open spec fn layout_matches_registry(self) -> bool {
        (forall|k: int|
            0 <= k < self.layout.activities.len() ==> self.registered(
                #[trigger] self.layout.activities[k],
            )) && (forall|i: int, j: int|
            0 <= i < self.module_map.len() && 0 <= j < self.module_map[i].activities.len()
                ==> self.layout.shows(#[trigger] self.module_map[i].activities[j].identifier))
    }

    /// Every task still scheduled runs on the current runtime generation:
    /// nothing leaks past a retired runtime's shutdown.
    pub open spec fn tasks_on_current(self) -> bool {
        forall|t: int|
            0 <= t < self.running_tasks.len() ==> (#[trigger] self.running_tasks[t]).generation
                == self.generation
    }

    /// The well-formedness invariant of the host: unique module names,
    /// globally unique activity identifiers, a duplicate-free layout that
    /// shows exactly the registered activities, and no work scheduled on a
    /// retired runtime generation.
    pub open spec fn wf(self) -> bool {
        &&& self.modules_distinct()
        &&& self.activities_unique()
        &&& self.layout.activities_distinct()
        &&& self.layout_matches_registry()
        &&& self.tasks_on_current()
    }
}

/// What one UI command does to the state, and with which outcome; the UI
/// loop processes its queue strictly in arrival order, one such step per
/// command.
pub open spec fn ui_step(s: AppView, c: UICommandView) -> (AppView, UiOutcome) {
    match c {
        UICommandView::AddProducer(module, producer) => {
            if s.has_module(module) {
                let i = s.module_index(module);
                (
                    AppView {
                        module_map: s.module_map.update(
                            i,
                            ModuleView {
                                producers: s.module_map[i].producers.push(producer),
                                ..s.module_map[i]
                            },
                        ),
                        running_tasks: s.running_tasks.push(
                            ProducerTask { producer, generation: s.generation },
                        ),
                        ..s
                    },
                    UiOutcome::Done,
                )
            } else {
                (s, UiOutcome::ModuleNotFound)
            }
        },
        UICommandView::AddActivity(module, activity) => {
            if !s.has_module(module) {
                (s, UiOutcome::ModuleNotFound)
            } else if s.registered(activity.identifier) {
                (s, UiOutcome::DuplicateActivity)
            } else {
                let i = s.module_index(module);
                (
                    AppView {
                        layout: LayoutView {
                            activities: s.layout.activities.push(activity.identifier),
                            ..s.layout
                        },
                        module_map: s.module_map.update(
                            i,
                            ModuleView {
                                activities: s.module_map[i].activities.push(
                                    activity.restyled(s.config.general_style_config),
                                ),
                                ..s.module_map[i]
                            },
                        ),
                        ..s
                    },
                    UiOutcome::Done,
                )
            }
        },
        UICommandView::RemoveActivity(module, name) => {
            if !s.has_module(module) {
                (s, UiOutcome::ModuleNotFound)
            } else {
                let i = s.module_index(module);
                if !s.module_map[i].has_activity(name) {
                    (s, UiOutcome::ActivityNotFound)
                } else {
                    let j = s.module_map[i].activity_index(name);
                    let k = choose|k: int|
                        0 <= k < s.layout.activities.len() && s.layout.activities[k] == name;
                    (
                        AppView {
                            layout: LayoutView {
                                activities: if s.layout.shows(name) {
                                    s.layout.activities.remove(k)
                                } else {
                                    s.layout.activities
                                },
                                ..s.layout
                            },
                            module_map: s.module_map.update(
                                i,
                                ModuleView {
                                    activities: s.module_map[i].activities.remove(j),
                                    ..s.module_map[i]
                                },
                            ),
                            ..s
                        },
                        UiOutcome::Done,
                    )
                }
            }
        },
    }
}

/// Every UI command preserves the well-formedness invariant: in
/// particular, after any command an activity is visible in the layout if
/// and only if it is present in its owning module's map.
pub proof fn lemma_ui_step_preserves_wf(s: AppView, c: UICommandView)
    requires
        s.wf(),
    ensures
        ui_step(s, c).0.wf(),
{
    let s2 = ui_step(s, c).0;
    match c {
        UICommandView::AddProducer(module, producer) => {
            if s.has_module(module) {
                let i = s.module_index(module);
                assert forall|x: int|
                    0 <= x < s2.module_map.len() implies s2.module_map[x].activities
                    == s.module_map[x].activities && s2.module_map[x].name
                    == s.module_map[x].name by {}
                assert(s2.wf());
            }
        },
        UICommandView::AddActivity(module, activity) => {
            if s.has_module(module) && !s.registered(activity.identifier) {
                let i = s.module_index(module);
                let id = activity.identifier;
                let styled = activity.restyled(s.config.general_style_config);
                // the new identifier is not yet shown, else it would be registered
                assert(!s.layout.shows(id));
                assert(s2.layout.activities_distinct());
                // registration after the step: everything registered before, plus `id`
                assert forall|x: Seq<char>| s2.registered(x) implies (s.registered(x) || x
                    == id) by {
                    let (i2, j2) = choose|i2: int, j2: int|
                        0 <= i2 < s2.module_map.len() && 0 <= j2
                            < s2.module_map[i2].activities.len()
                            && s2.module_map[i2].activities[j2].identifier == x;
                    if i2 != i || j2 < s.module_map[i].activities.len() {
                        assert(s.registered(x));
                    }
                }
                assert(s2.registered(id)) by {
                    assert(s2.module_map[i].activities[s.module_map[i].activities.len() as int].identifier
                        == id);
                }
                assert forall|x: Seq<char>| s.registered(x) implies s2.registered(x) by {
                    let (i2, j2) = choose|i2: int, j2: int|
                        0 <= i2 < s.module_map.len() && 0 <= j2 < s.module_map[i2].activities.len()
                            && s.module_map[i2].activities[j2].identifier == x;
                    assert(s2.module_map[i2].activities[j2].identifier == x);
                }
                assert(s2.activities_unique());
                assert forall|k: int| 0 <= k < s2.layout.activities.len() implies s2.registered(
                    #[trigger] s2.layout.activities[k],
                ) by {
                    if k < s.layout.activities.len() {
                        assert(s.registered(s.layout.activities[k]));
                    }
                }
                assert forall|i2: int, j2: int|
                    0 <= i2 < s2.module_map.len() && 0 <= j2
                        < s2.module_map[i2].activities.len() implies s2.layout.shows(
                    #[trigger] s2.module_map[i2].activities[j2].identifier,
                ) by {
                    let x = s2.module_map[i2].activities[j2].identifier;
                    if i2 != i || j2 < s.module_map[i].activities.len() {
                        assert(s.layout.shows(x));
                        let k = choose|k: int|
                            0 <= k < s.layout.activities.len() && s.layout.activities[k] == x;
                        assert(s2.layout.activities[k] == x);
                    } else {
                        assert(s2.layout.activities[s.layout.activities.len() as int] == id);
                    }
                }
                assert(s2.wf());
            }
        },
        UICommandView::RemoveActivity(module, name) => {
            if s.has_module(module) {
                let i = s.module_index(module);
                if s.module_map[i].has_activity(name) {
                    let j = s.module_map[i].activity_index(name);
                    assert(0 <= j < s.module_map[i].activities.len()
                        && s.module_map[i].activities[j].identifier == name);
                    // `name` is shown, since it is registered
                    assert(s.registered(name));
                    assert(s.layout.shows(name));
                    let k = choose|k: int|
                        0 <= k < s.layout.activities.len() && s.layout.activities[k] == name;
                    assert(0 <= k < s.layout.activities.len() && s.layout.activities[k] == name);
                    // layout after the step: everything but `name`
                    assert forall|x: Seq<char>| s2.layout.shows(x) implies (s.layout.shows(x) && x
                        != name) by {
                        let k2 = choose|k2: int|
                            0 <= k2 < s2.layout.activities.len() && s2.layout.activities[k2] == x;
                        if k2 < k {
                            assert(s.layout.activities[k2] == x);
                        } else {
                            assert(s.layout.activities[k2 + 1] == x);
                        }
                    }
                    assert forall|x: Seq<char>| s.layout.shows(x) && x != name implies
                        s2.layout.shows(x) by {
                        let k2 = choose|k2: int|
                            0 <= k2 < s.layout.activities.len() && s.layout.activities[k2] == x;
                        if k2 < k {
                            assert(s2.layout.activities[k2] == x);
                        } else {
                            assert(k2 > k);
                            assert(s2.layout.activities[k2 - 1] == x);
                        }
                    }
                    // registry after the step: everything but `name`
                    assert forall|x: Seq<char>| s2.registered(x) implies (s.registered(x) && x
                        != name) by {
                        let (i2, j2) = choose|i2: int, j2: int|
                            0 <= i2 < s2.module_map.len() && 0 <= j2
                                < s2.module_map[i2].activities.len()
                                && s2.module_map[i2].activities[j2].identifier == x;
                        if i2 != i {
                            assert(s.module_map[i2].activities[j2].identifier == x);
                        } else if j2 < j {
                            assert(s.module_map[i].activities[j2].identifier == x);
                        } else {
                            assert(s.module_map[i].activities[j2 + 1].identifier == x);
                        }
                    }
                    assert forall|x: Seq<char>| s.registered(x) && x != name implies s2.registered(
                        x,
                    ) by {
                        let (i2, j2) = choose|i2: int, j2: int|
                            0 <= i2 < s.module_map.len() && 0 <= j2
                                < s.module_map[i2].activities.len()
                                && s.module_map[i2].activities[j2].identifier == x;
                        if i2 != i {
                            assert(s2.module_map[i2].activities[j2].identifier == x);
                        } else if j2 < j {
                            assert(s2.module_map[i].activities[j2].identifier == x);
                        } else {
                            assert(j2 > j);
                            assert(s2.module_map[i].activities[j2 - 1].identifier == x);
                        }
                    }
                    assert(s2.layout.activities_distinct());
                    assert(s2.activities_unique()) by {
                        assert forall|i1: int, j1: int, i2: int, j2: int|
                            0 <= i1 < s2.module_map.len() && 0 <= j1
                                < s2.module_map[i1].activities.len() && 0 <= i2
                                < s2.module_map.len() && 0 <= j2
                                < s2.module_map[i2].activities.len()
                                && s2.module_map[i1].activities[j1].identifier
                                == s2.module_map[i2].activities[j2].identifier implies i1 == i2
                            && j1 == j2 by {
                            let a1 = if i1 == i && j1 >= j {
                                j1 + 1
                            } else {
                                j1
                            };
                            let a2 = if i2 == i && j2 >= j {
                                j2 + 1
                            } else {
                                j2
                            };
                            assert(s.module_map[i1].activities[a1].identifier
                                == s2.module_map[i1].activities[j1].identifier);
                            assert(s.module_map[i2].activities[a2].identifier
                                == s2.module_map[i2].activities[j2].identifier);
                        }
                    }
                    assert forall|k2: int| 0 <= k2 < s2.layout.activities.len() implies
                        s2.registered(#[trigger] s2.layout.activities[k2]) by {
                        let x = s2.layout.activities[k2];
                        assert(s2.layout.shows(x));
                        assert(s.layout.shows(x) && x != name);
                        assert(s.registered(x));
                    }
                    assert forall|i2: int, j2: int|
                        0 <= i2 < s2.module_map.len() && 0 <= j2
                            < s2.module_map[i2].activities.len() implies s2.layout.shows(
                        #[trigger] s2.module_map[i2].activities[j2].identifier,
                    ) by {
                        let x = s2.module_map[i2].activities[j2].identifier;
                        assert(s2.registered(x));
                        assert(s.registered(x) && x != name);
                        assert(s.layout.shows(x));
                    }
                    assert(s2.wf());
                }
            }
        },
    }
}

/// Applies the global style settings to one activity: the host drives the
/// minimal height, the minimal width and the blur radius.
pub fn update_general_configs_on_activity(config: &GeneralConfig, activity: &mut DynamicActivity)
    ensures
        final(activity)@ == old(activity)@.restyled(*config),
{
    activity.minimal_height = config.minimal_height;
    activity.minimal_width = config.minimal_width;
    activity.blur_radius_tenths = config.blur_radius_tenths;
}

impl App {
    /// Registry position of the module loaded under `name`.
    fn find_module(&self, name: &String) -> (r: Option<usize>)
        ensures
            match r {
                Some(i) => i < self@.module_map.len() && self@.module_map[i as int].name == name@,
                None => !self@.has_module(name@),
            },
    {
        let mut i: usize = 0;
        while i < self.module_map.len()
            invariant
                i <= self.module_map.len(),
                forall|k: int| 0 <= k < i ==> self@.module_map[k].name != name@,
            decreases self.module_map.len() - i,
        {
            proof {
                assert(self@.module_map[i as int] == self.module_map@[i as int]@);
            }
            if self.module_map[i].name == *name {
                return Some(i);
            }
            i += 1;
        }
        None
    }

    /// Whether some module already has an activity registered under
    /// `identifier`.
    fn is_registered(&self, identifier: &String) -> (r: bool)
        ensures
            r == self@.registered(identifier@),
    {
        let mut i: usize = 0;
        while i < self.module_map.len()
            invariant
                i <= self.module_map.len(),
                forall|k: int, j: int|
                    0 <= k < i && 0 <= j < self@.module_map[k].activities.len()
                        ==> self@.module_map[k].activities[j].identifier != identifier@,
            decreases self.module_map.len() - i,
        {
            proof {
                assert(self@.module_map[i as int] == self.module_map@[i as int]@);
            }
            let found = self.module_map[i].find_activity(identifier);
            if found.is_some() {
                proof {
                    let j = found.unwrap() as int;
                    assert(self@.module_map[i as int].activities[j].identifier == identifier@);
                }
                return true;
            }
            i += 1;
        }
        false
    }

    /// Processes one UI command, exactly as [`ui_step`] says: the state
    /// the UI loop holds after the call is `ui_step` of the state before
    /// it.  Layout insertion happens before module registration, so by the
    /// time an observer can find an activity in the module map it is
    /// already visible in the layout.
    pub fn handle_ui_command(&mut self, command: UIServerCommand) -> (outcome: UiOutcome)
        requires
            old(self)@.wf(),
        ensures
            final(self)@ == ui_step(old(self)@, command@).0,
            outcome == ui_step(old(self)@, command@).1,
            final(self)@.wf(),
    {
        proof {
            lemma_ui_step_preserves_wf(old(self)@, command@);
        }
        match command {
            UIServerCommand::AddProducer(module_id, producer) => {
                let found = self.find_module(&module_id);
                if found.is_none() {
                    return UiOutcome::ModuleNotFound;
                }
                let i = found.unwrap();
                proof {
                    assert(old(self)@.has_module(module_id@));
                    let i2 = old(self)@.module_index(module_id@);
                    assert(old(self)@.module_map[i2].name == module_id@);
                    assert(i as int == i2);
                }
                let generation = self.producers_handle.generation;
                let mut m = self.module_map.remove(i);
                m.register_producer(producer);
                self.module_map.insert(i, m);
                self.running_tasks.push(ProducerTask { producer, generation });
                proof {
                    let prev = old(self)@;
                    let stepped = ui_step(prev, UICommandView::AddProducer(module_id@, producer)).0;
                    assert(self@.module_map =~= stepped.module_map);
                    assert(self@ =~= stepped);
                }
                UiOutcome::Done
            },
            UIServerCommand::AddActivity(module_id, activity) => {
                let found = self.find_module(&module_id);
                if found.is_none() {
                    return UiOutcome::ModuleNotFound;
                }
                let i = found.unwrap();
                if self.is_registered(&activity.identifier) {
                    return UiOutcome::DuplicateActivity;
                }
                proof {
                    assert(old(self)@.has_module(module_id@));
                    let i2 = old(self)@.module_index(module_id@);
                    assert(old(self)@.module_map[i2].name == module_id@);
                    assert(i as int == i2);
                }
                // layout first, then the module map: the ordering contract
                self.layout.add_activity(activity.identifier.clone());
                let mut styled = activity;
                update_general_configs_on_activity(&self.config.general_style_config, &mut styled);
                let mut m = self.module_map.remove(i);
                m.register_activity(styled);
                self.module_map.insert(i, m);
                proof {
                    let prev = old(self)@;
                    let stepped = ui_step(prev, command@).0;
                    assert(self@.module_map =~= stepped.module_map);
                    assert(self@.layout =~= stepped.layout);
                    assert(self@ =~= stepped);
                }
                UiOutcome::Done
            },
            UIServerCommand::RemoveActivity(module_id, name) => {
                let found = self.find_module(&module_id);
                if found.is_none() {
                    return UiOutcome::ModuleNotFound;
                }
                let i = found.unwrap();
                proof {
                    assert(old(self)@.has_module(module_id@));
                    let i2 = old(self)@.module_index(module_id@);
                    assert(old(self)@.module_map[i2].name == module_id@);
                    assert(i as int == i2);
                }
                let in_module = self.module_map[i].find_activity(&name);
                if in_module.is_none() {
                    proof {
                        assert(self@.module_map[i as int] == self.module_map@[i as int]@);
                    }
                    return UiOutcome::ActivityNotFound;
                }
                let j = in_module.unwrap();
                proof {
                    let prev = old(self)@;
                    assert(prev.module_map[i as int] == self.module_map@[i as int]@);
                    assert(prev.module_map[i as int].activities[j as int].identifier == name@);
                    assert(prev.module_map[i as int].has_activity(name@));
                    let j2 = prev.module_map[i as int].activity_index(name@);
                    assert(prev.module_map[i as int].activities[j2].identifier == name@);
                    assert(j as int == j2);
                    assert(prev.registered(name@));
                    assert(prev.layout.shows(name@));
                }
                let shown = self.layout.find_activity(&name);
                proof {
                    assert(shown is Some);
                }
                let k = shown.unwrap();
                proof {
                    let prev = old(self)@;
                    let k2 = choose|k2: int|
                        0 <= k2 < prev.layout.activities.len() && prev.layout.activities[k2]
                            == name@;
                    assert(prev.layout.activities[k2] == name@);
                    assert(k as int == k2);
                }
                self.layout.remove_activity_at(k);
                let mut m = self.module_map.remove(i);
                m.unregister_activity_at(j);
                self.module_map.insert(i, m);
                proof {
                    let prev = old(self)@;
                    let stepped = ui_step(prev, command@).0;
                    assert(self@.module_map =~= stepped.module_map);
                    assert(self@.layout =~= stepped.layout);
                    assert(self@ =~= stepped);
                }
                UiOutcome::Done
            },
        }
    }

    /// Makes `parsed` the active configuration — or, when the document
    /// could not be read or parsed (`None`), leaves the previously active
    /// configuration in effect — and routes each module's opaque config
    /// block to it.  Parsing a block is the module plugin's own business; a
    /// block the plugin rejects is logged by the host and costs nothing
    /// here.
    pub fn load_configs(&mut self, parsed: Option<Config>)
        ensures
            final(self)@.config == effective_config(
                match parsed {
                    Some(c) => Some(c@),
                    None => None,
                },
                old(self)@.config,
            ),
            final(self)@.module_map.len() == old(self)@.module_map.len(),
            forall|i: int|
                0 <= i < old(self)@.module_map.len() ==> final(self)@.module_map[i] == (ModuleView {
                    config_block: routed_block(
                        final(self)@.config.module_config,
                        old(self)@.module_map[i].name,
                        old(self)@.module_map[i].config_block,
                    ),
                    ..old(self)@.module_map[i]
                }),
            final(self)@.layout == old(self)@.layout,
            final(self)@.generation == old(self)@.generation,
            final(self)@.running_tasks == old(self)@.running_tasks,
            final(self)@.css == old(self)@.css,
    {
        let ghost prev = self@;
        match parsed {
            Some(c) => {
                self.config = c;
            },
            None => {},
        }
        let ghost cfg = self@.config;
        let mut i: usize = 0;
        while i < self.module_map.len()
            invariant
                i <= self.module_map.len(),
                self@.config == cfg,
                self@.module_map.len() == prev.module_map.len(),
                forall|k: int|
                    i <= k < prev.module_map.len() ==> self@.module_map[k] == prev.module_map[k],
                forall|k: int|
                    0 <= k < i ==> self@.module_map[k] == (ModuleView {
                        config_block: routed_block(
                            cfg.module_config,
                            prev.module_map[k].name,
                            prev.module_map[k].config_block,
                        ),
                        ..prev.module_map[k]
                    }),
                self@.layout == prev.layout,
                self@.generation == prev.generation,
                self@.running_tasks == prev.running_tasks,
                self@.css == prev.css,
            decreases self.module_map.len() - i,
        {
            proof {
                assert(self@.module_map[i as int] == self.module_map@[i as int]@);
            }
            let ghost snap = self@.module_map;
            let ghost vecsnap = self.module_map@;
            let block = lookup_block(&self.config.module_config, &self.module_map[i].name);
            let mut m = self.module_map.remove(i);
            match block {
                Some(b) => {
                    m.config_block = Some(b);
                },
                None => {},
            }
            self.module_map.insert(i, m);
            proof {
                assert forall|k: int|
                    0 <= k < snap.len() && k != i implies self@.module_map[k] == snap[k] by {
                    if k < i {
                        assert(vecsnap.remove(i as int)[k] == vecsnap[k]);
                    } else {
                        assert(self.module_map@[k] == vecsnap.remove(i as int)[k - 1]);
                        assert(vecsnap.remove(i as int)[k - 1] == vecsnap[k]);
                    }
                    assert(self@.module_map[k] == self.module_map@[k]@);
                    assert(snap[k] == vecsnap[k]@);
                }
                assert(self@.module_map[i as int] =~= (ModuleView {
                    config_block: routed_block(
                        cfg.module_config,
                        prev.module_map[i as int].name,
                        prev.module_map[i as int].config_block,
                    ),
                    ..prev.module_map[i as int]
                }));
                assert forall|k: int|
                    0 <= k < i + 1 implies self@.module_map[k] == (ModuleView {
                    config_block: routed_block(
                        cfg.module_config,
                        prev.module_map[k].name,
                        prev.module_map[k].config_block,
                    ),
                    ..prev.module_map[k]
                }) by {
                    if k < i {
                        assert(self@.module_map[k] == snap[k]);
                        assert(snap[k] == (ModuleView {
                            config_block: routed_block(
                                cfg.module_config,
                                prev.module_map[k].name,
                                prev.module_map[k].config_block,
                            ),
                            ..prev.module_map[k]
                        }));
                    }
                }
            }
            i += 1;
        }
    }

    /// Routes the active configuration's block for the active layout to
    /// that layout, as the reload pipeline does; parsing it is the layout
    /// plugin's own business.  When the configuration provides no block
    /// for this layout, nothing is routed and the layout keeps what it
    /// last parsed.
    pub fn load_layout_config(&mut self)
        ensures
            final(self)@ == (AppView {
                layout: LayoutView {
                    config_block: routed_block(
                        old(self)@.config.layout_configs,
                        old(self)@.layout.name,
                        old(self)@.layout.config_block,
                    ),
                    ..old(self)@.layout
                },
                ..old(self)@
            }),
    {
        let block = lookup_block(&self.config.layout_configs, &self.layout.name);
        match block {
            Some(b) => {
                self.layout.set_config_block(b);
            },
            None => {},
        }
        proof {
            assert(self@ =~= (AppView {
                layout: LayoutView {
                    config_block: routed_block(
                        old(self)@.config.layout_configs,
                        old(self)@.layout.name,
                        old(self)@.layout.config_block,
                    ),
                    ..old(self)@.layout
                },
                ..old(self)@
            }));
        }
    }

    /// Installs a stylesheet compile result: new CSS on success, and on a
    /// compile error the previously installed stylesheet stays untouched
    /// (the host logs the error).
    pub fn apply_css_result(&mut self, result: Result<String, String>)
        ensures
            match result {
                Ok(css) => final(self)@ == (AppView { css: Some(css@), ..old(self)@ }),
                Err(_) => final(self)@ == old(self)@,
            },
    {
        match result {
            Ok(css) => {
                self.css = Some(css);
                proof {
                    assert(self@ =~= (AppView { css: self@.css, ..old(self)@ }));
                }
            },
            Err(_) => {},
        }
    }


    /// Restarts the producer runtime: the old generation's shutdown is
    /// acknowledged first (all work still scheduled on it is abandoned),
    /// then the replacement context becomes the one current handle in the
    /// same step, and every producer already registered, module by module
    /// in registry order, is replayed against the new handle.  At no
    /// observable instant are there zero or two current handles.
    pub fn restart_producer_rt(&mut self)
        requires
            old(self).producers_handle.generation < u64::MAX,
        ensures
            final(self)@ == (AppView {
                generation: (old(self)@.generation + 1) as u64,
                running_tasks: replay_tasks(
                    old(self)@.module_map,
                    (old(self)@.generation + 1) as u64,
                ),
                ..old(self)@
            }),
            old(self)@.wf() ==> final(self)@.wf(),
    {
        // the old context is signalled and its shutdown acknowledged by the
        // host before the new handle exists; its abandoned tasks go with it
        self.running_tasks = Vec::new();
        let generation = self.producers_handle.generation + 1;
        self.producers_handle = ProducerRuntimeHandle { generation };
        let ghost modules = self@.module_map;
        let mut tasks: Vec<ProducerTask> = Vec::new();
        proof {
            assert(modules.take(0) =~= Seq::<ModuleView>::empty());
            assert(tasks@ =~= replay_tasks(modules.take(0), generation));
        }
        let mut i: usize = 0;
        while i < self.module_map.len()
            invariant
                i <= self.module_map.len(),
                self@.module_map == modules,
                tasks@ == replay_tasks(modules.take(i as int), generation),
            decreases self.module_map.len() - i,
        {
            proof {
                assert(self@.module_map[i as int] == self.module_map@[i as int]@);
            }
            let ghost mv = modules[i as int];
            let ghost before = tasks@;
            let mut j: usize = 0;
            proof {
                assert(ProducerTask::tasks_of(mv, generation).take(0) =~= Seq::<
                    ProducerTask,
                >::empty());
                assert(tasks@ =~= before + ProducerTask::tasks_of(mv, generation).take(0));
            }
            while j < self.module_map[i].producers.len()
                invariant
                    i < self.module_map.len(),
                    j <= self.module_map@[i as int]@.producers.len(),
                    self@.module_map == modules,
                    mv == modules[i as int],
                    mv == self.module_map@[i as int]@,
                    tasks@ == before + ProducerTask::tasks_of(mv, generation).take(j as int),
                decreases self.module_map@[i as int]@.producers.len() - j,
            {
                let producer = self.module_map[i].producers[j];
                tasks.push(ProducerTask { producer, generation });
                proof {
                    let full = ProducerTask::tasks_of(mv, generation);
                    assert(full[j as int] == (ProducerTask { producer, generation }));
                    assert(full.take(j + 1) =~= full.take(j as int).push(full[j as int]));
                    assert(tasks@ =~= before + full.take(j + 1));
                }
                j += 1;
            }
            proof {
                let full = ProducerTask::tasks_of(mv, generation);
                assert(full.take(j as int) =~= full);
                assert(modules.take(i + 1) =~= modules.take(i as int).push(mv));
                lemma_replay_tasks_push(modules.take(i as int), mv, generation);
                assert(tasks@ =~= replay_tasks(modules.take(i + 1), generation));
            }
            i += 1;
        }
        self.running_tasks = tasks;
        proof {
            assert(modules.take(modules.len() as int) =~= modules);
            assert(self@ =~= (AppView {
                generation: (old(self)@.generation + 1) as u64,
                running_tasks: replay_tasks(
                    old(self)@.module_map,
                    (old(self)@.generation + 1) as u64,
                ),
                ..old(self)@
            }));
            if old(self)@.wf() {
                lemma_replay_tasks_generation(modules, generation);
                assert(self@.wf());
            }
        }
    }

    /// Reapplies the active global style settings to every activity of
    /// every module, as the reload pipeline does before anything slower
    /// runs.
    pub fn update_general_configs(&mut self)
        ensures
            final(self)@ == (AppView {
                module_map: restyled_modules(
                    old(self)@.module_map,
                    old(self)@.config.general_style_config,
                ),
                ..old(self)@
            }),
            old(self)@.wf() ==> final(self)@.wf(),
    {
        let ghost prev = self@;
        let ghost style = self@.config.general_style_config;
        let ghost target = restyled_modules(prev.module_map, style);
        let mut i: usize = 0;
        while i < self.module_map.len()
            invariant
                i <= self.module_map.len(),
                self@.module_map.len() == prev.module_map.len(),
                style == prev.config.general_style_config,
                target == restyled_modules(prev.module_map, style),
                forall|k: int| i <= k < prev.module_map.len() ==> self@.module_map[k] == prev.module_map[k],
                forall|k: int| 0 <= k < i ==> self@.module_map[k] == target[k],
                self@.layout == prev.layout,
                self@.generation == prev.generation,
                self@.running_tasks == prev.running_tasks,
                self@.config == prev.config,
                self@.css == prev.css,
            decreases self.module_map.len() - i,
        {
            proof {
                assert(self@.module_map[i as int] == self.module_map@[i as int]@);
            }
            let ghost snap = self@.module_map;
            let ghost vecsnap = self.module_map@;
            let ghost mv = prev.module_map[i as int];
            let mut m = self.module_map.remove(i);
            let ghost acts = mv.activities;
            let mut j: usize = 0;
            while j < m.activities.len()
                invariant
                    j <= m.activities.len(),
                    self@.config == prev.config,
                    style == prev.config.general_style_config,
                    m@.activities.len() == acts.len(),
                    m@.name == mv.name,
                    m@.producers == mv.producers,
                    m@.config_block == mv.config_block,
                    m@.initialized == mv.initialized,
                    forall|k: int| j <= k < acts.len() ==> m@.activities[k] == acts[k],
                    forall|k: int|
                        0 <= k < j ==> m@.activities[k] == restyled_activities(acts, style)[k],
                decreases m.activities.len() - j,
            {
                proof {
                    assert(m@.activities[j as int] == m.activities@[j as int]@);
                }
                let ghost asnap = m@.activities;
                let ghost avecsnap = m.activities@;
                let mut a = m.activities.remove(j);
                proof {
                    assert(a@ == asnap[j as int]);
                    assert(self@.config == prev.config);
                    assert(self.config.general_style_config == style);
                }
                update_general_configs_on_activity(&self.config.general_style_config, &mut a);
                m.activities.insert(j, a);
                proof {
                    assert forall|k: int|
                        0 <= k < asnap.len() && k != j implies m@.activities[k] == asnap[k] by {
                        if k < j {
                            assert(avecsnap.remove(j as int)[k] == avecsnap[k]);
                        } else {
                            assert(m.activities@[k] == avecsnap.remove(j as int)[k - 1]);
                            assert(avecsnap.remove(j as int)[k - 1] == avecsnap[k]);
                        }
                        assert(m@.activities[k] == m.activities@[k]@);
                        assert(asnap[k] == avecsnap[k]@);
                    }
                    assert(a@ == asnap[j as int].restyled(style));
                    assert(asnap[j as int] == acts[j as int]);
                    assert(m.activities@[j as int] == a);
                    assert(m@.activities[j as int] == m.activities@[j as int]@);
                    assert(m@.activities[j as int] == acts[j as int].restyled(style));
                    assert(restyled_activities(acts, style)[j as int] == acts[j as int].restyled(
                        style,
                    ));
                }
                j += 1;
            }
            proof {
                assert(m@.activities =~= restyled_activities(acts, style));
                assert(m@ =~= (ModuleView { activities: restyled_activities(acts, style), ..mv }));
                assert(target[i as int] == m@);
            }
            self.module_map.insert(i, m);
            proof {
                assert forall|k: int|
                    0 <= k < snap.len() && k != i implies self@.module_map[k] == snap[k] by {
                    if k < i {
                        assert(vecsnap.remove(i as int)[k] == vecsnap[k]);
                    } else {
                        assert(self.module_map@[k] == vecsnap.remove(i as int)[k - 1]);
                        assert(vecsnap.remove(i as int)[k - 1] == vecsnap[k]);
                    }
                    assert(self@.module_map[k] == self.module_map@[k]@);
                    assert(snap[k] == vecsnap[k]@);
                }
                assert(self@.module_map[i as int] == target[i as int]);
            }
            i += 1;
        }
        proof {
            assert(self@.module_map =~= target);
            assert(self@ =~= (AppView { module_map: target, ..prev }));
            if prev.wf() {
                assert forall|x: int, y: int|
                    0 <= x < prev.module_map.len() && 0 <= y
                        < prev.module_map[x].activities.len() implies (#[trigger] self@.module_map[x].activities[y]).identifier
                    == prev.module_map[x].activities[y].identifier by {
                    assert(self@.module_map[x].activities[y] == prev.module_map[x].activities[y].restyled(
                        style,
                    ));
                }
                lemma_wf_transfers(prev, self@);
            }
        }
    }

    /// Loads the modules the active configuration asks for, from the
    /// static registry of known module constructors: every known module in
    /// registry-definition order when the request holds the sentinel
    /// `"all"`, otherwise the requested names in the requested order,
    /// skipping any name the registry does not know (the host logs each
    /// skip).  Returns the loaded names in load order.
    pub fn load_modules(&mut self, available: &Vec<String>) -> (order: Vec<String>)
        requires
            old(self)@.wf(),
            old(self)@.module_map.len() == 0,
            forall|i: int, j: int|
                0 <= i < j < names_view(available@).len() ==> names_view(available@)[i]
                    != names_view(available@)[j],
        ensures
            names_view(order@) == spec_load_order(
                names_view(available@),
                old(self)@.config.loaded_modules,
            ),
            final(self)@.module_map.len() == names_view(order@).len(),
            forall|i: int|
                0 <= i < final(self)@.module_map.len() ==> final(self)@.module_map[i]
                    == (ModuleView {
                    name: names_view(order@)[i],
                    activities: Seq::empty(),
                    producers: Seq::empty(),
                    config_block: None,
                    initialized: false,
                }),
            final(self)@.layout == old(self)@.layout,
            final(self)@.generation == old(self)@.generation,
            final(self)@.running_tasks == old(self)@.running_tasks,
            final(self)@.config == old(self)@.config,
            final(self)@.css == old(self)@.css,
            final(self)@.wf(),
    {
        let ghost avail = names_view(available@);
        let ghost requested = old(self)@.config.loaded_modules;
        let mut order: Vec<String> = Vec::new();
        let sentinel = "all".to_owned();
        if contains_name(&self.config.loaded_modules, &sentinel) {
            proof {
                assert(requested.contains("all"@));
            }
            proof {
                assert(names_view(order@) =~= Seq::<Seq<char>>::empty());
                assert(avail.take(0) =~= Seq::<Seq<char>>::empty());
            }
            let mut i: usize = 0;
            while i < available.len()
                invariant
                    i <= available.len(),
                    avail == names_view(available@),
                    names_view(order@) == avail.take(i as int),
                    self@.module_map.len() == i,
                    forall|k: int|
                        0 <= k < i ==> self@.module_map[k] == (ModuleView {
                            name: avail[k],
                            activities: Seq::empty(),
                            producers: Seq::empty(),
                            config_block: None,
                            initialized: false,
                        }),
                    self@.layout == old(self)@.layout,
                    self@.generation == old(self)@.generation,
                    self@.running_tasks == old(self)@.running_tasks,
                    self@.config == old(self)@.config,
                    self@.css == old(self)@.css,
                decreases available.len() - i,
            {
                let ghost osnap = order@;
                let ghost msnap = self@.module_map;
                order.push(available[i].clone());
                self.module_map.push(Module::new(available[i].clone()));
                proof {
                    assert(avail[i as int] == available@[i as int]@);
                    assert(names_view(order@) =~= names_view(osnap).push(avail[i as int]));
                    assert(avail.take(i + 1) =~= avail.take(i as int).push(avail[i as int]));
                    assert(self@.module_map =~= msnap.push(
                        self.module_map@[msnap.len() as int]@,
                    ));
                    assert(self@.module_map[i as int] =~= (ModuleView {
                        name: avail[i as int],
                        activities: Seq::empty(),
                        producers: Seq::empty(),
                        config_block: None,
                        initialized: false,
                    }));
                }
                i += 1;
            }
            proof {
                assert(avail.take(avail.len() as int) =~= avail);
                assert(names_view(order@) == spec_load_order(avail, requested));
                assert forall|x: int, y: int|
                    0 <= x < y < self@.module_map.len() implies self@.module_map[x].name
                    != self@.module_map[y].name by {}
                assert(old(self)@.layout.activities.len() == 0) by {
                    if old(self)@.layout.activities.len() > 0 {
                        assert(old(self)@.registered(old(self)@.layout.activities[0]));
                    }
                }
                assert(self@.wf());
            }
            order
        } else {
            proof {
                assert(!requested.contains("all"@)) by {
                    if requested.contains("all"@) {
                        let k = choose|k: int|
                            0 <= k < requested.len() && requested[k] == "all"@;
                        assert(names_view(self.config.loaded_modules@)[k] == "all"@);
                        assert(names_view(self.config.loaded_modules@).contains(sentinel@));
                    }
                }
            }
            proof {
                assert(names_view(order@) =~= Seq::<Seq<char>>::empty());
                assert(requested.skip(0) =~= requested);
            }
            let mut i: usize = 0;
            while i < self.config.loaded_modules.len()
                invariant
                    i <= self.config.loaded_modules.len(),
                    avail == names_view(available@),
                    requested == names_view(self.config.loaded_modules@),
                    spec_load_order_from(avail, requested, Seq::empty()) == spec_load_order_from(
                        avail,
                        requested.skip(i as int),
                        names_view(order@),
                    ),
                    self@.module_map.len() == order@.len(),
                    forall|x: int, y: int|
                        0 <= x < y < order@.len() ==> names_view(order@)[x] != names_view(
                            order@,
                        )[y],
                    forall|k: int|
                        0 <= k < order@.len() ==> self@.module_map[k] == (ModuleView {
                            name: names_view(order@)[k],
                            activities: Seq::empty(),
                            producers: Seq::empty(),
                            config_block: None,
                            initialized: false,
                        }),
                    self@.layout == old(self)@.layout,
                    self@.generation == old(self)@.generation,
                    self@.running_tasks == old(self)@.running_tasks,
                    self@.config == old(self)@.config,
                    self@.css == old(self)@.css,
                decreases self.config.loaded_modules.len() - i,
            {
                let ghost osnap = order@;
                let ghost msnap = self@.module_map;
                let name = self.config.loaded_modules[i].clone();
                proof {
                    assert(name@ == requested[i as int]);
                    assert(requested.skip(i as int)[0] == requested[i as int]);
                    assert(requested.skip(i as int).drop_first() =~= requested.skip(i + 1));
                }
                let known = contains_name(available, &name);
                let fresh = self.find_module(&name).is_none();
                proof {
                    assert(fresh <==> !self@.has_module(name@));
                    assert(self@.has_module(name@) <==> names_view(order@).contains(name@)) by {
                        if self@.has_module(name@) {
                            let k = self@.module_index(name@);
                            assert(self@.module_map[k].name == name@);
                            assert(names_view(order@)[k] == name@);
                        }
                        if names_view(order@).contains(name@) {
                            let k = choose|k: int|
                                0 <= k < names_view(order@).len() && names_view(order@)[k]
                                    == name@;
                            assert(self@.module_map[k].name == name@);
                        }
                    }
                }
                if known && fresh {
                    order.push(name.clone());
                    self.module_map.push(Module::new(name));
                    proof {
                        assert(names_view(order@) =~= names_view(osnap).push(
                            requested[i as int],
                        ));
                        assert(self@.module_map =~= msnap.push(
                            self.module_map@[msnap.len() as int]@,
                        ));
                        assert(self@.module_map[msnap.len() as int] =~= (ModuleView {
                            name: names_view(order@)[msnap.len() as int],
                            activities: Seq::empty(),
                            producers: Seq::empty(),
                            config_block: None,
                            initialized: false,
                        }));
                    }
                }
                i += 1;
            }
            proof {
                assert(requested.skip(requested.len() as int) =~= Seq::<Seq<char>>::empty());
                assert(names_view(order@) == spec_load_order(avail, requested));
                assert forall|x: int, y: int|
                    0 <= x < y < self@.module_map.len() implies self@.module_map[x].name
                    != self@.module_map[y].name by {}
                assert(old(self)@.layout.activities.len() == 0) by {
                    if old(self)@.layout.activities.len() > 0 {
                        assert(old(self)@.registered(old(self)@.layout.activities[0]));
                    }
                }
                assert(self@.wf());
            }
            order
        }
    }

    /// Chooses and activates the layout strategy the active configuration
    /// names, falling back to the built-in simple strategy when the name
    /// is absent or unknown.  Runs at startup, before any activity is
    /// registered; switching strategies at runtime is out of scope.
    pub fn load_layout_manager(&mut self, available_layouts: &Vec<String>)
        requires
            old(self)@.wf(),
            forall|i: int|
                0 <= i < old(self)@.module_map.len()
                    ==> (#[trigger] old(self)@.module_map[i]).activities.len() == 0,
        ensures
            final(self)@.layout.name == crate::layout::spec_chosen_layout(
                names_view(available_layouts@),
                old(self)@.config.layout,
            ),
            final(self)@.layout.config_block is None,
            final(self)@.layout.activities == Seq::<Seq<char>>::empty(),
            final(self)@.module_map == old(self)@.module_map,
            final(self)@.generation == old(self)@.generation,
            final(self)@.running_tasks == old(self)@.running_tasks,
            final(self)@.config == old(self)@.config,
            final(self)@.css == old(self)@.css,
            final(self)@.wf(),
    {
        let l = crate::layout::load_layout_manager(available_layouts, &self.config.layout);
        proof {
            assert(match old(self)@.config.layout {
                Some(n) => self.config.layout is Some && self.config.layout.unwrap()@ == n,
                None => self.config.layout is None,
            });
        }
        self.layout = l;
        proof {
            assert(self@.layout.activities.len() == 0);
            assert(self@.modules_distinct());
            assert(self@.activities_unique());
            assert(self@.layout.activities_distinct());
            assert(self@.layout_matches_registry());
            assert(self@.running_tasks == old(self)@.running_tasks);
            assert(self@.generation == old(self)@.generation);
            assert forall|t: int|
                0 <= t < self@.running_tasks.len() implies (#[trigger] self@.running_tasks[t]).generation
                == self@.generation by {
                assert(old(self)@.running_tasks[t].generation == old(self)@.generation);
            }
            assert(self@.wf());
        }
    }

    /// Runs each loaded module's initialization hook, in the recorded load
    /// order: the only place module-specific startup logic runs.  The hook
    /// itself is plugin code; the registry records that it ran.  A name in
    /// `order` that is not loaded would be a broken load, fatal by design,
    /// so every name in `order` must be loaded.
    pub fn init_loaded_modules(&mut self, order: &Vec<String>)
        requires
            old(self)@.modules_distinct(),
            forall|t: int| 0 <= t < order@.len() ==> old(self)@.has_module(#[trigger] order@[t]@),
        ensures
            final(self)@.module_map.len() == old(self)@.module_map.len(),
            forall|i: int|
                0 <= i < old(self)@.module_map.len() ==> final(self)@.module_map[i] == (ModuleView {
                    initialized: old(self)@.module_map[i].initialized || names_view(
                        order@,
                    ).contains(old(self)@.module_map[i].name),
                    ..old(self)@.module_map[i]
                }),
            final(self)@.layout == old(self)@.layout,
            final(self)@.generation == old(self)@.generation,
            final(self)@.running_tasks == old(self)@.running_tasks,
            final(self)@.config == old(self)@.config,
            final(self)@.css == old(self)@.css,
            old(self)@.wf() ==> final(self)@.wf(),
    {
        let ghost prev = self@;
        let ghost onames = names_view(order@);
        let mut t: usize = 0;
        while t < order.len()
            invariant
                t <= order.len(),
                onames == names_view(order@),
                prev.modules_distinct(),
                forall|u: int| 0 <= u < order@.len() ==> prev.has_module(#[trigger] order@[u]@),
                self@.module_map.len() == prev.module_map.len(),
                forall|k: int|
                    0 <= k < prev.module_map.len() ==> self@.module_map[k] == (ModuleView {
                        initialized: prev.module_map[k].initialized || onames.take(
                            t as int,
                        ).contains(prev.module_map[k].name),
                        ..prev.module_map[k]
                    }),
                self@.layout == prev.layout,
                self@.generation == prev.generation,
                self@.running_tasks == prev.running_tasks,
                self@.config == prev.config,
                self@.css == prev.css,
            decreases order.len() - t,
        {
            proof {
                assert(order@[t as int]@ == onames[t as int]);
                assert(prev.has_module(onames[t as int]));
                let i0 = choose|i0: int|
                    0 <= i0 < prev.module_map.len() && prev.module_map[i0].name
                        == onames[t as int];
                assert(self@.module_map[i0].name == onames[t as int]);
                assert(self@.has_module(onames[t as int]));
            }
            let found = self.find_module(&order[t]);
            let i = found.unwrap();
            let ghost snap = self@.module_map;
            let ghost vecsnap = self.module_map@;
            let mut m = self.module_map.remove(i);
            m.init();
            self.module_map.insert(i, m);
            proof {
                assert forall|k: int|
                    0 <= k < snap.len() && k != i implies self@.module_map[k] == snap[k] by {
                    if k < i {
                        assert(vecsnap.remove(i as int)[k] == vecsnap[k]);
                    } else {
                        assert(self.module_map@[k] == vecsnap.remove(i as int)[k - 1]);
                        assert(vecsnap.remove(i as int)[k - 1] == vecsnap[k]);
                    }
                    assert(self@.module_map[k] == self.module_map@[k]@);
                    assert(snap[k] == vecsnap[k]@);
                }
                assert(self@.module_map[i as int] == self.module_map@[i as int]@);
                assert(self@.module_map[i as int] == (ModuleView {
                    initialized: true,
                    ..snap[i as int]
                }));
                assert(onames.take(t + 1) =~= onames.take(t as int).push(onames[t as int]));
                assert(snap[i as int].name == onames[t as int]);
                assert(snap[i as int] == (ModuleView {
                    initialized: prev.module_map[i as int].initialized || onames.take(
                        t as int,
                    ).contains(prev.module_map[i as int].name),
                    ..prev.module_map[i as int]
                }));
                assert(prev.module_map[i as int].name == onames[t as int]);
                assert forall|k: int|
                    0 <= k < prev.module_map.len() implies self@.module_map[k] == (ModuleView {
                    initialized: prev.module_map[k].initialized || onames.take(t + 1).contains(
                        prev.module_map[k].name,
                    ),
                    ..prev.module_map[k]
                }) by {
                    lemma_contains_push(
                        onames.take(t as int),
                        onames[t as int],
                        prev.module_map[k].name,
                    );
                    if k == i {
                        assert(onames.take(t + 1).contains(prev.module_map[k].name));
                        assert(self@.module_map[k] =~= (ModuleView {
                            initialized: prev.module_map[k].initialized || onames.take(
                                t + 1,
                            ).contains(prev.module_map[k].name),
                            ..prev.module_map[k]
                        }));
                    } else {
                        // distinct module names: only module `i` is named by this entry
                        assert(prev.module_map[k].name != onames[t as int]);
                        assert(self@.module_map[k] == snap[k]);
                        assert(self@.module_map[k] =~= (ModuleView {
                            initialized: prev.module_map[k].initialized || onames.take(
                                t + 1,
                            ).contains(prev.module_map[k].name),
                            ..prev.module_map[k]
                        }));
                    }
                }
            }
            t += 1;
        }
        proof {
            assert(onames.take(onames.len() as int) =~= onames);
            if prev.wf() {
                assert(self@.tasks_on_current());
                lemma_wf_transfers(prev, self@);
            }
        }
    }

    /// Runs the full reload pipeline for one watcher command, in the fixed
    /// order the backend loop guarantees: make the freshly parsed document
    /// active (keeping the previously active one when the parse failed),
    /// reapply the global style settings to every registered activity,
    /// route the layout's config block, install the stylesheet compile
    /// result (keeping the previous stylesheet on a compile error, or
    /// when no source could be read), and finally restart the producer
    /// runtime, replaying every registered producer on the new
    /// generation.  The host compiles the stylesheet beside the file
    /// read and hands the outcome in as `css_result`.
    pub fn handle_server_command(
        &mut self,
        command: BackendServerCommand,
        parsed_config: Option<Config>,
        css_result: Option<Result<String, String>>,
    )
        requires
            old(self)@.wf(),
            old(self).producers_handle.generation < u64::MAX,
        ensures
            final(self)@.wf(),
            final(self)@.config == effective_config(
                match parsed_config {
                    Some(c) => Some(c@),
                    None => None,
                },
                old(self)@.config,
            ),
            final(self)@.module_map.len() == old(self)@.module_map.len(),
            forall|i: int|
                0 <= i < old(self)@.module_map.len() ==> final(self)@.module_map[i] == (ModuleView {
                    activities: restyled_activities(
                        old(self)@.module_map[i].activities,
                        final(self)@.config.general_style_config,
                    ),
                    config_block: routed_block(
                        final(self)@.config.module_config,
                        old(self)@.module_map[i].name,
                        old(self)@.module_map[i].config_block,
                    ),
                    ..old(self)@.module_map[i]
                }),
            final(self)@.layout == (LayoutView {
                config_block: routed_block(
                    final(self)@.config.layout_configs,
                    old(self)@.layout.name,
                    old(self)@.layout.config_block,
                ),
                ..old(self)@.layout
            }),
            final(self)@.css == (match css_result {
                Some(Ok(c)) => Some(c@),
                Some(Err(_)) => old(self)@.css,
                None => old(self)@.css,
            }),
            final(self)@.generation == old(self)@.generation + 1,
            final(self)@.running_tasks == replay_tasks(
                final(self)@.module_map,
                final(self)@.generation,
            ),
    {
        match command {
            BackendServerCommand::ReloadConfig() => {
                let ghost s0 = self@;
                self.load_configs(parsed_config);
                let ghost s1 = self@;
                self.update_general_configs();
                let ghost s2 = self@;
                self.load_layout_config();
                let ghost s3 = self@;
                match css_result {
                    Some(r) => {
                        self.apply_css_result(r);
                    },
                    None => {},
                }
                let ghost s4 = self@;
                self.restart_producer_rt();
                proof {
                    let cfg = s1.config;
                    assert forall|i: int|
                        0 <= i < s0.module_map.len() implies self@.module_map[i] == (ModuleView {
                        activities: restyled_activities(
                            s0.module_map[i].activities,
                            cfg.general_style_config,
                        ),
                        config_block: routed_block(
                            cfg.module_config,
                            s0.module_map[i].name,
                            s0.module_map[i].config_block,
                        ),
                        ..s0.module_map[i]
                    }) by {
                        assert(s2.module_map[i] == (ModuleView {
                            activities: restyled_activities(
                                s1.module_map[i].activities,
                                cfg.general_style_config,
                            ),
                            ..s1.module_map[i]
                        }));
                        assert(s1.module_map[i].activities == s0.module_map[i].activities);
                        assert(self@.module_map[i] == s2.module_map[i]);
                    }
                    assert forall|i: int, j: int|
                        0 <= i < s0.module_map.len() && 0 <= j
                            < s0.module_map[i].activities.len() implies (#[trigger] self@.module_map[i].activities[j]).identifier
                        == s0.module_map[i].activities[j].identifier by {
                        assert(self@.module_map[i].activities[j]
                            == s0.module_map[i].activities[j].restyled(cfg.general_style_config));
                    }
                    lemma_replay_tasks_generation(self@.module_map, self@.generation);
                    lemma_wf_transfers(s0, self@);
                }
            },
        }
    }
}

/// The state after the UI loop has drained `commands`, strictly in
/// arrival order.
pub open spec fn run_ui(s: AppView, commands: Seq<UICommandView>) -> AppView
    decreases commands.len(),
{
    if commands.len() == 0 {
        s
    } else {
        run_ui(ui_step(s, commands[0]).0, commands.drop_first())
    }
}

/// Well-formedness survives any sequence of UI commands.
pub proof fn lemma_run_ui_preserves_wf(s: AppView, commands: Seq<UICommandView>)
    requires
        s.wf(),
    ensures
        run_ui(s, commands).wf(),
    decreases commands.len(),
{
    if commands.len() > 0 {
        lemma_ui_step_preserves_wf(s, commands[0]);
        lemma_run_ui_preserves_wf(ui_step(s, commands[0]).0, commands.drop_first());
    }
}

/// How many activities the module loaded under `name` holds.
pub open spec fn activity_count(s: AppView, name: Seq<char>) -> int {
    if s.has_module(name) {
        s.module_map[s.module_index(name)].activities.len() as int
    } else {
        0
    }
}

/// What one command contributes to the activity count of module `name`:
/// one for an add that succeeds, minus one for a remove that succeeds,
/// nothing otherwise.
pub open spec fn step_activity_delta(s: AppView, c: UICommandView, name: Seq<char>) -> int {
    match c {
        UICommandView::AddActivity(m, _) => if m == name && ui_step(s, c).1 == UiOutcome::Done {
            1
        } else {
            0
        },
        UICommandView::RemoveActivity(m, _) => if m == name && ui_step(s, c).1 == UiOutcome::Done {
            -1
        } else {
            0
        },
        UICommandView::AddProducer(_, _) => 0,
    }
}

/// Net number of successful adds minus successful removes addressed to
/// module `name` while the UI loop drains `commands` from state `s`.
pub open spec fn activity_delta(s: AppView, commands: Seq<UICommandView>, name: Seq<char>) -> int
    decreases commands.len(),
{
    if commands.len() == 0 {
        0
    } else {
        step_activity_delta(s, commands[0], name) + activity_delta(
            ui_step(s, commands[0]).0,
            commands.drop_first(),
            name,
        )
    }
}

/// One command moves the activity count of module `name` by exactly its
/// contribution.
proof fn lemma_ui_step_activity_count(s: AppView, c: UICommandView, name: Seq<char>)
    requires
        s.wf(),
    ensures
        activity_count(ui_step(s, c).0, name) == activity_count(s, name) + step_activity_delta(
            s,
            c,
            name,
        ),
{
    let s2 = ui_step(s, c).0;
    assert(s2.module_map.len() == s.module_map.len() && forall|i: int|
        0 <= i < s.module_map.len() ==> (#[trigger] s2.module_map[i]).name
            == s.module_map[i].name);
    assert(s.has_module(name) == s2.has_module(name)) by {
        if s.has_module(name) {
            let i = s.module_index(name);
            assert(s2.module_map[i].name == name);
        }
        if s2.has_module(name) {
            let i = s2.module_index(name);
            assert(s.module_map[i].name == name);
        }
    }
    if s.has_module(name) {
        let i = s.module_index(name);
        let i2 = s2.module_index(name);
        assert(s.module_map[i].name == name && s2.module_map[i2].name == name);
        assert(i == i2) by {
            assert(s.module_map[i2].name == name);
        }
        match c {
            UICommandView::AddProducer(m, _) => {
                if s.has_module(m) {
                    let im = s.module_index(m);
                    assert(s2.module_map[i].activities == s.module_map[i].activities);
                }
            },
            UICommandView::AddActivity(m, _) => {
                if s.has_module(m) && ui_step(s, c).1 == UiOutcome::Done {
                    let im = s.module_index(m);
                    if m == name {
                        assert(im == i);
                        assert(s2.module_map[i].activities.len()
                            == s.module_map[i].activities.len() + 1);
                    } else {
                        assert(im != i) by {
                            assert(s.module_map[im].name == m);
                        }
                        assert(s2.module_map[i].activities == s.module_map[i].activities);
                    }
                }
            },
            UICommandView::RemoveActivity(m, _) => {
                if s.has_module(m) && ui_step(s, c).1 == UiOutcome::Done {
                    let im = s.module_index(m);
                    if m == name {
                        assert(im == i);
                        assert(s2.module_map[i].activities.len()
                            == s.module_map[i].activities.len() - 1);
                    } else {
                        assert(im != i) by {
                            assert(s.module_map[im].name == m);
                        }
                        assert(s2.module_map[i].activities == s.module_map[i].activities);
                    }
                }
            },
        }
    }
}

/// For any sequence of UI commands, a module's activity count after the
/// sequence equals its count before, plus the adds that succeeded, minus
/// the removes that succeeded.
pub proof fn lemma_activity_count_adds_minus_removes(
    s: AppView,
    commands: Seq<UICommandView>,
    name: Seq<char>,
)
    requires
        s.wf(),
    ensures
        activity_count(run_ui(s, commands), name) == activity_count(s, name) + activity_delta(
            s,
            commands,
            name,
        ),
    decreases commands.len(),
{
    if commands.len() > 0 {
        lemma_ui_step_activity_count(s, commands[0], name);
        lemma_ui_step_preserves_wf(s, commands[0]);
        lemma_activity_count_adds_minus_removes(
            ui_step(s, commands[0]).0,
            commands.drop_first(),
            name,
        );
    }
}

/// In every well-formed state — so after any sequence of commands — an
/// activity is visible in the layout if and only if it is registered in
/// some module's activity map.
pub proof fn lemma_visible_iff_registered(s: AppView)
    requires
        s.wf(),
    ensures
        forall|id: Seq<char>| s.layout.shows(id) <==> s.registered(id),
{
    assert forall|id: Seq<char>| s.layout.shows(id) <==> s.registered(id) by {
        if s.layout.shows(id) {
            let k = choose|k: int|
                0 <= k < s.layout.activities.len() && s.layout.activities[k] == id;
            assert(s.registered(s.layout.activities[k]));
        }
        if s.registered(id) {
            let (i, j) = choose|i: int, j: int|
                0 <= i < s.module_map.len() && 0 <= j < s.module_map[i].activities.len()
                    && s.module_map[i].activities[j].identifier == id;
            assert(s.layout.shows(s.module_map[i].activities[j].identifier));
        }
    }
}

/// No UI command moves the current producer-runtime handle: the state
/// records exactly one current handle at every observable instant, and
/// only a restart replaces it — wholly, in one backend step.
pub proof fn lemma_ui_step_keeps_handle(s: AppView, c: UICommandView)
    ensures
        ui_step(s, c).0.generation == s.generation,
{
}

/// No task ever runs against a stale runtime handle: in a well-formed
/// state every scheduled task is on the one current generation, so after
/// a restart is acknowledged nothing still runs on the retired one —
/// replaying a producer on the new generation cannot duplicate work on
/// the old.
pub proof fn lemma_no_stale_tasks(s: AppView, stale: u64)
    requires
        s.wf(),
        stale != s.generation,
    ensures
        forall|t: int|
            0 <= t < s.running_tasks.len() ==> (#[trigger] s.running_tasks[t]).generation != stale,
{
}

/// A sequence of activities with the global style settings applied to each.
pub open spec fn restyled_activities(
    activities: Seq<ActivityView>,
    style: GeneralConfig,
) -> Seq<ActivityView> {
    activities.map_values(|a: ActivityView| a.restyled(style))
}

/// Every module with the global style settings applied to every one of its
/// activities.
pub open spec fn restyled_modules(modules: Seq<ModuleView>, style: GeneralConfig) -> Seq<
    ModuleView,
> {
    modules.map_values(
        |m: ModuleView| ModuleView { activities: restyled_activities(m.activities, style), ..m },
    )
}

/// Membership in a pushed sequence of names: the old members, plus the
/// pushed name.
pub proof fn lemma_contains_push(s: Seq<Seq<char>>, x: Seq<char>, y: Seq<char>)
    ensures
        s.push(x).contains(y) <==> (s.contains(y) || y == x),
{
    if s.contains(y) {
        let k = choose|k: int| 0 <= k < s.len() && s[k] == y;
        assert(s.push(x)[k] == y);
    }
    if y == x {
        assert(s.push(x)[s.len() as int] == y);
    }
    if s.push(x).contains(y) {
        let k = choose|k: int| 0 <= k < s.push(x).len() && s.push(x)[k] == y;
        if k < s.len() {
            assert(s[k] == y);
        }
    }
}

/// Well-formedness does not look at style values, config blocks, init
/// flags or the stylesheet: any state with the same module names, the same
/// activity identifiers in the same places, the same layout content, and
/// all tasks on its current generation is well-formed too.
pub proof fn lemma_wf_transfers(s1: AppView, s2: AppView)
    requires
        s1.wf(),
        s2.module_map.len() == s1.module_map.len(),
        forall|i: int|
            0 <= i < s1.module_map.len() ==> (#[trigger] s2.module_map[i]).name
                == s1.module_map[i].name,
        forall|i: int|
            0 <= i < s1.module_map.len() ==> (#[trigger] s2.module_map[i]).activities.len()
                == s1.module_map[i].activities.len(),
        forall|i: int, j: int|
            0 <= i < s1.module_map.len() && 0 <= j < s1.module_map[i].activities.len()
                ==> (#[trigger] s2.module_map[i].activities[j]).identifier
                == s1.module_map[i].activities[j].identifier,
        s2.layout.activities == s1.layout.activities,
        s2.tasks_on_current(),
    ensures
        s2.wf(),
{
    assert(s2.modules_distinct());
    assert(s2.activities_unique());
    assert(s2.layout.activities_distinct());
    assert forall|k: int| 0 <= k < s2.layout.activities.len() implies s2.registered(
        #[trigger] s2.layout.activities[k],
    ) by {
        assert(s1.registered(s1.layout.activities[k]));
        let (i, j) = choose|i: int, j: int|
            0 <= i < s1.module_map.len() && 0 <= j < s1.module_map[i].activities.len()
                && s1.module_map[i].activities[j].identifier == s1.layout.activities[k];
        assert(s2.module_map[i].activities[j].identifier == s2.layout.activities[k]);
    }
    assert forall|i: int, j: int|
        0 <= i < s2.module_map.len() && 0 <= j
            < s2.module_map[i].activities.len() implies s2.layout.shows(
        #[trigger] s2.module_map[i].activities[j].identifier,
    ) by {
        assert(s1.layout.shows(s1.module_map[i].activities[j].identifier));
    }
}

/// The requested names that the static registry knows, kept in the
/// requested order.
pub open spec fn known_names(available: Seq<Seq<char>>, requested: Seq<Seq<char>>) -> Seq<Seq<char>>
    decreases requested.len(),
{
    if requested.len() == 0 {
        Seq::empty()
    } else if available.contains(requested[0]) {
        seq![requested[0]] + known_names(available, requested.drop_first())
    } else {
        known_names(available, requested.drop_first())
    }
}

/// The order of module names that `load` produces for a requested list:
/// each requested name in turn, kept when the static registry knows it and
/// it has not been chosen yet, skipped otherwise.
pub open spec fn spec_load_order_from(
    available: Seq<Seq<char>>,
    requested: Seq<Seq<char>>,
    chosen: Seq<Seq<char>>,
) -> Seq<Seq<char>>
    decreases requested.len(),
{
    if requested.len() == 0 {
        chosen
    } else if available.contains(requested[0]) && !chosen.contains(requested[0]) {
        spec_load_order_from(available, requested.drop_first(), chosen.push(requested[0]))
    } else {
        spec_load_order_from(available, requested.drop_first(), chosen)
    }
}

/// What `load` loads: every statically known module, in registry
/// definition order, when the request holds the sentinel `"all"`; the
/// requested names otherwise.
pub open spec fn spec_load_order(available: Seq<Seq<char>>, requested: Seq<Seq<char>>) -> Seq<
    Seq<char>,
> {
    if requested.contains("all"@) {
        available
    } else {
        spec_load_order_from(available, requested, Seq::empty())
    }
}

/// Generalization of [`lemma_load_order_is_filter`] over a partial choice.
proof fn lemma_load_order_from_is_filter(
    available: Seq<Seq<char>>,
    requested: Seq<Seq<char>>,
    chosen: Seq<Seq<char>>,
)
    requires
        forall|i: int, j: int| 0 <= i < j < requested.len() ==> requested[i] != requested[j],
        forall|k: int| 0 <= k < requested.len() ==> !chosen.contains(#[trigger] requested[k]),
    ensures
        spec_load_order_from(available, requested, chosen) == chosen + known_names(
            available,
            requested,
        ),
    decreases requested.len(),
{
    if requested.len() == 0 {
        assert(chosen + known_names(available, requested) =~= chosen);
    } else {
        let h = requested[0];
        let rest = requested.drop_first();
        assert(forall|i: int, j: int| 0 <= i < j < rest.len() ==> rest[i] != rest[j]);
        assert(requested[0] == h);
        if available.contains(h) {
            assert(!chosen.contains(h));
            assert forall|k: int| 0 <= k < rest.len() implies !chosen.push(h).contains(
                #[trigger] rest[k],
            ) by {
                lemma_contains_push(chosen, h, rest[k]);
                assert(rest[k] == requested[k + 1]);
            }
            lemma_load_order_from_is_filter(available, rest, chosen.push(h));
            assert(chosen.push(h) + known_names(available, rest) =~= chosen + (seq![h]
                + known_names(available, rest)));
        } else {
            assert(forall|k: int| 0 <= k < rest.len() ==> !chosen.contains(#[trigger] rest[k]));
            lemma_load_order_from_is_filter(available, rest, chosen);
        }
    }
}

/// For any requested list without repeats (and without the `"all"`
/// sentinel), `load` returns exactly the requested names the static
/// registry knows, in the requested order, silently skipping unknown
/// names.
pub proof fn lemma_load_order_is_filter(available: Seq<Seq<char>>, requested: Seq<Seq<char>>)
    requires
        !requested.contains("all"@),
        forall|i: int, j: int| 0 <= i < j < requested.len() ==> requested[i] != requested[j],
    ensures
        spec_load_order(available, requested) == known_names(available, requested),
{
    assert(forall|k: int|
        0 <= k < requested.len() ==> !Seq::<Seq<char>>::empty().contains(#[trigger] requested[k]));
    lemma_load_order_from_is_filter(available, requested, Seq::empty());
    assert(Seq::<Seq<char>>::empty() + known_names(available, requested) =~= known_names(
        available,
        requested,
    ));
}

/// Whether one of `names` is `target`.
fn contains_name(names: &Vec<String>, target: &String) -> (r: bool)
    ensures
        r == names_view(names@).contains(target@),
{
    let ghost nv = names_view(names@);
    let mut i: usize = 0;
    while i < names.len()
        invariant
            i <= names.len(),
            nv == names_view(names@),
            forall|k: int| 0 <= k < i ==> nv[k] != target@,
        decreases names.len() - i,
    {
        proof {
            assert(nv[i as int] == names@[i as int]@);
        }
        if names[i] == *target {
            proof {
                assert(nv.contains(target@));
            }
            return true;
        }
        i += 1;
    }
    proof {
        assert forall|k: int| 0 <= k < nv.len() implies nv[k] != target@ by {}
    }
    false
}


impl Default for App {
    /// The host before startup: nothing loaded, nothing shown, the
    /// built-in layout strategy, the default configuration, runtime
    /// generation zero with nothing scheduled, no stylesheet installed.
    fn default() -> (a: App)
        ensures
            a@.module_map == Seq::<ModuleView>::empty(),
            a@.layout.name == spec_simple_layout_name(),
            a@.layout.activities == Seq::<Seq<char>>::empty(),
            a@.layout.config_block is None,
            a@.generation == 0,
            a@.running_tasks == Seq::<ProducerTask>::empty(),
            a@.config == ConfigView::spec_default(),
            a@.css is None,
            a@.wf(),
    {
        let a = App {
            module_map: Vec::new(),
            layout: LayoutManager::new(simple_layout_name().to_owned()),
            producers_handle: ProducerRuntimeHandle { generation: 0 },
            running_tasks: Vec::new(),
            config: Config::default(),
            css: None,
        };
        proof {
            assert(a@.module_map =~= Seq::<ModuleView>::empty());
            assert(a@.running_tasks =~= Seq::<ProducerTask>::empty());
        }
        a
    }
}

} // verus!
