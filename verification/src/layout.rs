//! The active layout manager: the pluggable strategy that arranges the
//! registered activities into one displayed container.
//!
//! The geometry itself is plugin code outside this crate; the core records
//! the strategy's name, the opaque config block last handed to it, and the
//! ordered set of activity identifiers it currently shows.  Exactly one
//! layout manager is active at a time; it is chosen by name from the static
//! set of available strategies and falls back to the built-in simple
//! strategy when the configured name is absent or unrecognized.

use vstd::prelude::*;

use crate::config::names_view;

verus! {

/// Name of the built-in layout strategy that is always available.
pub open spec fn spec_simple_layout_name() -> Seq<char> {
    "SimpleLayout"@
}

/// Exec counterpart of [`spec_simple_layout_name`].
pub fn simple_layout_name() -> (s: &'static str)
    ensures
        s@ == spec_simple_layout_name(),
{
    "SimpleLayout"
}

/// The one active layout manager: its strategy name, the config block last
/// routed to it, and the activities it currently shows, in insertion order.
pub struct LayoutManager {
    pub name: String,
    pub config_block: Option<String>,
    pub activities: Vec<String>,
}

/// Mathematical view of a [`LayoutManager`].
#[verifier::ext_equal]
pub struct LayoutView {
    pub name: Seq<char>,
    pub config_block: Option<Seq<char>>,
    pub activities: Seq<Seq<char>>,
}

impl View for LayoutManager {
    type V = LayoutView;

    open spec fn view(&self) -> LayoutView {
        LayoutView {
            name: self.name@,
            config_block: match self.config_block {
                Some(b) => Some(b@),
                None => None,
            },
            activities: self.activities@.map_values(|s: String| s@),
        }
    }
}

impl LayoutView {
    /// Whether the layout currently shows an activity under `identifier`.
    pub open spec fn shows(self, identifier: Seq<char>) -> bool {
        self.activities.contains(identifier)
    }

    /// The identifiers shown are pairwise distinct.
    pub open spec fn activities_distinct(self) -> bool {
        forall|i: int, j: int|
            0 <= i < j < self.activities.len() ==> self.activities[i] != self.activities[j]
    }
}

/// The strategy name that gets activated for a configured name: the
/// configured one when the static set of available strategies knows it, and
/// the built-in simple strategy otherwise (also when nothing is
/// configured).
pub open spec fn spec_chosen_layout(
    available: Seq<Seq<char>>,
    configured: Option<Seq<char>>,
) -> Seq<char> {
    match configured {
        Some(name) => if available.contains(name) {
            name
        } else {
            spec_simple_layout_name()
        },
        None => spec_simple_layout_name(),
    }
}

impl LayoutManager {
    /// A fresh instance of the strategy called `name`: no config block yet,
    /// showing nothing.
    pub fn new(name: String) -> (l: LayoutManager)
        ensures
            l@.name == name@,
            l@.config_block is None,
            l@.activities == Seq::<Seq<char>>::empty(),
    {
        let l = LayoutManager { name, config_block: None, activities: Vec::new() };
        proof {
            assert(l@.activities =~= Seq::<Seq<char>>::empty());
        }
        l
    }

    /// Shows one more activity, after all already shown.
    pub fn add_activity(&mut self, identifier: String)
        ensures
            final(self)@ == (LayoutView {
                activities: old(self)@.activities.push(identifier@),
                ..old(self)@
            }),
    {
        let ghost prev = self@;
        self.activities.push(identifier);
        proof {
            assert(self@.activities =~= prev.activities.push(
                self.activities@[prev.activities.len() as int]@,
            ));
        }
    }

    /// Position at which `identifier` is shown, if it is.
    pub fn find_activity(&self, identifier: &String) -> (r: Option<usize>)
        ensures
            match r {
                Some(i) => i < self@.activities.len() && self@.activities[i as int] == identifier@,
                None => !self@.shows(identifier@),
            },
    {
        let mut i: usize = 0;
        while i < self.activities.len()
            invariant
                i <= self.activities.len(),
                forall|k: int| 0 <= k < i ==> self@.activities[k] != identifier@,
            decreases self.activities.len() - i,
        {
            if self.activities[i] == *identifier {
                return Some(i);
            }
            i += 1;
        }
        proof {
            assert forall|k: int|
                0 <= k < self@.activities.len() implies self@.activities[k] != identifier@ by {}
        }
        None
    }

    /// Stops showing the activity at position `i`, keeping the order of
    /// the others.
    pub fn remove_activity_at(&mut self, i: usize)
        requires
            i < old(self)@.activities.len(),
        ensures
            final(self)@ == (LayoutView {
                activities: old(self)@.activities.remove(i as int),
                ..old(self)@
            }),
    {
        let ghost prev = self@;
        self.activities.remove(i);
        proof {
            assert(self@.activities =~= prev.activities.remove(i as int));
        }
    }

    /// Routes a config block to the strategy.  Parsing it is the plugin's
    /// own business; the core records what was routed last.
    pub fn set_config_block(&mut self, block: String)
        ensures
            final(self)@ == (LayoutView { config_block: Some(block@), ..old(self)@ }),
    {
        self.config_block = Some(block);
    }
}

/// Chooses the layout strategy to activate, per the selection policy: the
/// configured name when the static registry of strategies holds it, the
/// built-in simple strategy otherwise.
pub fn load_layout_manager(available: &Vec<String>, configured: &Option<String>) -> (l:
    LayoutManager)
    ensures
        l@.name == spec_chosen_layout(
            names_view(available@),
            match configured {
                Some(n) => Some(n@),
                None => None,
            },
        ),
        l@.config_block is None,
        l@.activities == Seq::<Seq<char>>::empty(),
{
    let ghost avail = names_view(available@);
    if configured.is_none() {
        return LayoutManager::new(simple_layout_name().to_owned());
    }
    let name: &String = configured.as_ref().unwrap();
    let mut i: usize = 0;
    while i < available.len()
        invariant
            i <= available.len(),
            avail == names_view(available@),
            configured is Some && name == configured.unwrap(),
            forall|k: int| 0 <= k < i ==> avail[k] != name@,
        decreases available.len() - i,
    {
        if available[i] == *name {
            proof {
                assert(avail[i as int] == available@[i as int]@);
                assert(avail.contains(name@));
            }
            return LayoutManager::new(name.clone());
        }
        i += 1;
    }
    proof {
        assert(!avail.contains(name@));
    }
    LayoutManager::new(simple_layout_name().to_owned())
}

} // verus!
