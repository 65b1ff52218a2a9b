//! Persisted configuration: the set of modules to load, the chosen layout,
//! global style settings, and opaque per-module / per-layout config blocks.
//!
//! The on-disk format and its parser are external collaborators: the host
//! reads and parses the file outside this crate and hands the result in as
//! an `Option<Config>` (`None` when the document could not be read or
//! parsed).  This module owns what happens with that result: at startup a
//! failed parse falls back to the default document, while during a reload a
//! failed parse leaves the previously active configuration in effect.

use vstd::prelude::*;

verus! {

/// The character sequences behind a sequence of strings; names are
/// compared through this view throughout the crate.
pub open spec fn names_view(names: Seq<String>) -> Seq<Seq<char>> {
    names.map_values(|s: String| s@)
}

/// Global style settings applied to every activity widget.
///
/// The blur radius is carried in tenths of a pixel so that the style model
/// stays on integers.
pub struct GeneralConfig {
    pub minimal_height: u32,
    pub minimal_width: u32,
    pub blur_radius_tenths: u32,
    pub enable_drag_stretch: bool,
}

/// Mathematical view of a [`GeneralConfig`]; the struct is already plain
/// data, so the view is the struct itself.
impl GeneralConfig {
    pub open spec fn spec_default() -> GeneralConfig {
        GeneralConfig {
            minimal_height: 40,
            minimal_width: 60,
            blur_radius_tenths: 60,
            enable_drag_stretch: false,
        }
    }
}

impl Default for GeneralConfig {
    /// The built-in style: height 40, width 60, blur radius 6.0 pixels,
    /// drag-stretch disabled.
    fn default() -> (c: GeneralConfig)
        ensures
            c == GeneralConfig::spec_default(),
    {
        GeneralConfig {
            minimal_height: 40,
            minimal_width: 60,
            blur_radius_tenths: 60,
            enable_drag_stretch: false,
        }
    }
}

/// An association list of opaque configuration blocks keyed by name, viewed
/// as a sequence of `(name, block)` pairs.
pub type ConfigBlocks = Vec<(String, String)>;

/// View of one block table: the sequence of `(name, block)` character
/// sequences, looked up by first match.
pub open spec fn blocks_view(blocks: ConfigBlocks) -> Seq<(Seq<char>, Seq<char>)> {
    blocks@.map_values(|p: (String, String)| (p.0@, p.1@))
}

/// First block recorded under `name`, if any.
pub open spec fn spec_lookup_block(entries: Seq<(Seq<char>, Seq<char>)>, name: Seq<char>) -> Option<
    Seq<char>,
>
    decreases entries.len(),
{
    if entries.len() == 0 {
        None
    } else if entries[0].0 == name {
        Some(entries[0].1)
    } else {
        spec_lookup_block(entries.drop_first(), name)
    }
}

/// What a reload leaves as the recorded config block of a module or
/// layout: the block the active configuration provides, or, when it
/// provides none, the block last routed — nothing is routed then, and the
/// owner keeps what it last parsed.
pub open spec fn routed_block(
    entries: Seq<(Seq<char>, Seq<char>)>,
    name: Seq<char>,
    previous: Option<Seq<char>>,
) -> Option<Seq<char>> {
    match spec_lookup_block(entries, name) {
        Some(b) => Some(b),
        None => previous,
    }
}

/// The persisted configuration document.
///
/// `loaded_modules` may hold the sentinel `"all"`, meaning every statically
/// known module; `layout` names the layout strategy to activate, falling
/// back to the built-in one when absent or unknown.  The two block tables
/// carry not-yet-validated configuration for the owning module or layout.
pub struct Config {
    pub loaded_modules: Vec<String>,
    pub layout: Option<String>,
    pub general_style_config: GeneralConfig,
    pub layout_configs: ConfigBlocks,
    pub module_config: ConfigBlocks,
}

/// Mathematical view of a [`Config`].
#[verifier::ext_equal]
pub struct ConfigView {
    pub loaded_modules: Seq<Seq<char>>,
    pub layout: Option<Seq<char>>,
    pub general_style_config: GeneralConfig,
    pub layout_configs: Seq<(Seq<char>, Seq<char>)>,
    pub module_config: Seq<(Seq<char>, Seq<char>)>,
}

impl View for Config {
    type V = ConfigView;

    open spec fn view(&self) -> ConfigView {
        ConfigView {
            loaded_modules: names_view(self.loaded_modules@),
            layout: match self.layout {
                Some(l) => Some(l@),
                None => None,
            },
            general_style_config: self.general_style_config,
            layout_configs: blocks_view(self.layout_configs),
            module_config: blocks_view(self.module_config),
        }
    }
}

impl ConfigView {
    /// The default document: all modules, the built-in layout, default
    /// style, no blocks.
    pub open spec fn spec_default() -> ConfigView {
        ConfigView {
            loaded_modules: seq!["all"@],
            layout: Some("SimpleLayout"@),
            general_style_config: GeneralConfig::spec_default(),
            layout_configs: Seq::empty(),
            module_config: Seq::empty(),
        }
    }
}

impl Default for Config {
    /// The default document substituted when no usable configuration
    /// exists: load all modules, use the built-in layout, default style.
    fn default() -> (c: Config)
        ensures
            c@ == ConfigView::spec_default(),
    {
        let loaded: Vec<String> = vec!["all".to_owned()];
        let c = Config {
            loaded_modules: loaded,
            layout: Some("SimpleLayout".to_owned()),
            general_style_config: GeneralConfig::default(),
            layout_configs: Vec::new(),
            module_config: Vec::new(),
        };
        proof {
            assert(c@.loaded_modules =~= seq!["all"@]);
            assert(c@.layout_configs =~= Seq::<(Seq<char>, Seq<char>)>::empty());
            assert(c@.module_config =~= Seq::<(Seq<char>, Seq<char>)>::empty());
            assert(c@ =~= ConfigView::spec_default());
        }
        c
    }
}

/// What the config loader hands the host at startup: the parsed document
/// when the file was readable and well-formed, and the default document
/// otherwise (the failure is logged by the caller, never propagated).
pub fn get_config(parsed: Option<Config>) -> (c: Config)
    ensures
        match parsed {
            Some(p) => c@ == p@,
            None => c@ == ConfigView::spec_default(),
        },
{
    match parsed {
        Some(p) => p,
        None => Config::default(),
    }
}

/// The configuration that is active after a reload attempt: the newly
/// parsed document when there is one, and the previously active document
/// when the parse failed.
pub open spec fn effective_config(parsed: Option<ConfigView>, current: ConfigView) -> ConfigView {
    match parsed {
        Some(p) => p,
        None => current,
    }
}

/// A reload that fails to parse never moves the active configuration: a
/// valid document, then an invalid one, then a valid one ends on the last
/// valid document, not on the built-in default.
pub proof fn lemma_config_reload_round_trip(initial: ConfigView, v1: ConfigView, v2: ConfigView)
    ensures
        effective_config(
            Some(v2),
            effective_config(None, effective_config(Some(v1), initial)),
        ) == v2,
        effective_config(None, effective_config(Some(v1), initial)) == v1,
{
}

/// Looks a block up by name, first match first, as the reload pipeline does
/// for each module and for the active layout.
pub fn lookup_block(blocks: &ConfigBlocks, name: &String) -> (r: Option<String>)
    ensures
        match r {
            Some(b) => spec_lookup_block(blocks_view(*blocks), name@) == Some(b@),
            None => spec_lookup_block(blocks_view(*blocks), name@) is None,
        },
{
    let ghost entries = blocks_view(*blocks);
    proof {
        assert(entries.skip(0) =~= entries);
    }
    let mut i: usize = 0;
    while i < blocks.len()
        invariant
            i <= blocks.len(),
            entries == blocks_view(*blocks),
            entries.len() == blocks@.len(),
            spec_lookup_block(entries, name@) == spec_lookup_block(entries.skip(i as int), name@),
            forall|j: int| 0 <= j < entries.len() ==> entries[j] == (blocks@[j].0@, blocks@[j].1@),
        decreases blocks.len() - i,
    {
        proof {
            assert(entries.skip(i as int)[0] == entries[i as int]);
            assert(entries[i as int] == (blocks@[i as int].0@, blocks@[i as int].1@));
        }
        if blocks[i].0 == *name {
            proof {
                assert(spec_lookup_block(entries.skip(i as int), name@) == Some(
                    entries[i as int].1,
                ));
            }
            return Some(blocks[i].1.clone());
        }
        proof {
            assert(entries.skip(i as int).drop_first() =~= entries.skip(i + 1));
            assert(spec_lookup_block(entries.skip(i as int), name@) == spec_lookup_block(
                entries.skip(i + 1),
                name@,
            ));
        }
        i += 1;
    }
    proof {
        assert(entries.skip(i as int) =~= Seq::<(Seq<char>, Seq<char>)>::empty());
    }
    None
}

} // verus!
