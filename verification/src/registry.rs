//! The module registry's data: modules, their registered activities, and
//! their registered producers.
//!
//! A module is a plugin unit; what it draws and computes lives behind the
//! plugin interface outside this crate.  The registry records what the core
//! must keep consistent: the activity set of each module (identifiers plus
//! the style attributes the host applies), the producers registered so far
//! (by handle, so a restart can replay them), the module's opaque config
//! block, and whether its initialization hook has run.

use vstd::prelude::*;

use crate::config::GeneralConfig;

verus! {

/// One visual unit contributed by a module: its identifier and the
/// activity-level style attributes the host drives from the global style
/// settings.  The widget itself lives in the rendering toolkit; the host
/// only ever addresses it through this record.
pub struct DynamicActivity {
    pub identifier: String,
    pub minimal_height: u32,
    pub minimal_width: u32,
    pub blur_radius_tenths: u32,
}

/// Mathematical view of a [`DynamicActivity`].
#[verifier::ext_equal]
pub struct ActivityView {
    pub identifier: Seq<char>,
    pub minimal_height: u32,
    pub minimal_width: u32,
    pub blur_radius_tenths: u32,
}

impl View for DynamicActivity {
    type V = ActivityView;

    open spec fn view(&self) -> ActivityView {
        ActivityView {
            identifier: self.identifier@,
            minimal_height: self.minimal_height,
            minimal_width: self.minimal_width,
            blur_radius_tenths: self.blur_radius_tenths,
        }
    }
}

impl ActivityView {
    /// The same activity with the global style settings applied to it:
    /// minimal height, minimal width and blur radius all come from the
    /// global style.
    pub open spec fn restyled(self, style: GeneralConfig) -> ActivityView {
        ActivityView {
            minimal_height: style.minimal_height,
            minimal_width: style.minimal_width,
            blur_radius_tenths: style.blur_radius_tenths,
            ..self
        }
    }
}

/// A loaded module: its unique name, its registered activities and
/// producers, its parsed-config block, and whether its init hook has run.
pub struct Module {
    pub name: String,
    pub activities: Vec<DynamicActivity>,
    pub producers: Vec<u64>,
    pub config_block: Option<String>,
    pub initialized: bool,
}

/// Mathematical view of a [`Module`].
#[verifier::ext_equal]
pub struct ModuleView {
    pub name: Seq<char>,
    pub activities: Seq<ActivityView>,
    pub producers: Seq<u64>,
    pub config_block: Option<Seq<char>>,
    pub initialized: bool,
}

impl View for Module {
    type V = ModuleView;

    open spec fn view(&self) -> ModuleView {
        ModuleView {
            name: self.name@,
            activities: self.activities@.map_values(|a: DynamicActivity| a@),
            producers: self.producers@,
            config_block: match self.config_block {
                Some(b) => Some(b@),
                None => None,
            },
            initialized: self.initialized,
        }
    }
}

impl ModuleView {
    /// Index of the activity registered under `identifier`, when there is
    /// exactly one candidate to speak of.
    pub open spec fn activity_index(self, identifier: Seq<char>) -> int {
        choose|j: int|
            0 <= j < self.activities.len() && self.activities[j].identifier == identifier
    }

    /// Whether some activity is registered under `identifier`.
    pub open spec fn has_activity(self, identifier: Seq<char>) -> bool {
        exists|j: int|
            0 <= j < self.activities.len() && self.activities[j].identifier == identifier
    }

    /// Activity identifiers are unique within the module.
    pub open spec fn activities_distinct(self) -> bool {
        forall|j1: int, j2: int|
            0 <= j1 < j2 < self.activities.len() ==> self.activities[j1].identifier
                != self.activities[j2].identifier
    }
}

impl Module {
    /// A freshly constructed module: no activities, no producers, no config
    /// block, init hook not yet run.
    pub fn new(name: String) -> (m: Module)
        ensures
            m@.name == name@,
            m@.activities == Seq::<ActivityView>::empty(),
            m@.producers == Seq::<u64>::empty(),
            m@.config_block is None,
            !m@.initialized,
    {
        let m = Module {
            name,
            activities: Vec::new(),
            producers: Vec::new(),
            config_block: None,
            initialized: false,
        };
        proof {
            assert(m@.activities =~= Seq::<ActivityView>::empty());
        }
        m
    }

    /// Position of the activity registered under `identifier`, by linear
    /// search over the registration order.
    pub fn find_activity(&self, identifier: &String) -> (r: Option<usize>)
        ensures
            match r {
                Some(j) => j < self@.activities.len() && self@.activities[j as int].identifier
                    == identifier@,
                None => !self@.has_activity(identifier@),
            },
    {
        let mut j: usize = 0;
        while j < self.activities.len()
            invariant
                j <= self.activities.len(),
                forall|k: int| 0 <= k < j ==> self@.activities[k].identifier != identifier@,
            decreases self.activities.len() - j,
        {
            if self.activities[j].identifier == *identifier {
                return Some(j);
            }
            j += 1;
        }
        None
    }

    /// Registers an activity with this module; the caller has already put
    /// it into the layout.
    pub fn register_activity(&mut self, activity: DynamicActivity)
        ensures
            final(self)@ == (ModuleView {
                activities: old(self)@.activities.push(activity@),
                ..old(self)@
            }),
    {
        let ghost prev = self@;
        self.activities.push(activity);
        proof {
            assert(self@.activities =~= prev.activities.push(
                self.activities@[prev.activities.len() as int]@,
            ));
        }
    }

    /// Unregisters the activity at position `j`, preserving the order of
    /// the others.
    pub fn unregister_activity_at(&mut self, j: usize)
        requires
            j < old(self)@.activities.len(),
        ensures
            final(self)@ == (ModuleView {
                activities: old(self)@.activities.remove(j as int),
                ..old(self)@
            }),
    {
        let ghost prev = self@;
        self.activities.remove(j);
        proof {
            assert(self@.activities =~= prev.activities.remove(j as int));
        }
    }

    /// Registers one more producer, recorded by its handle so that a
    /// runtime restart can replay every producer in registration order.
    pub fn register_producer(&mut self, producer: u64)
        ensures
            final(self)@ == (ModuleView {
                producers: old(self)@.producers.push(producer),
                ..old(self)@
            }),
    {
        self.producers.push(producer);
    }

    /// Runs the module's initialization bookkeeping: the hook itself is
    /// plugin code outside this crate, and it runs exactly once, at load.
    pub fn init(&mut self)
        ensures
            final(self)@ == (ModuleView { initialized: true, ..old(self)@ }),
    {
        self.initialized = true;
    }
}

} // verus!
