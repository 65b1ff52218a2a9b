use dynisland::app::{App, BackendServerCommand, UIServerCommand, UiOutcome};
use dynisland::config::{get_config, lookup_block, Config, GeneralConfig};
use dynisland::layout::load_layout_manager;
use dynisland::registry::DynamicActivity;
use dynisland::server_queue::ServerCommandQueue;

fn compile_scss(source: &str) -> Result<String, String> {
    grass::from_string(source.to_string(), &grass::Options::default()).map_err(|e| e.to_string())
}

fn names(list: &[&str]) -> Vec<String> {
    list.iter().map(|s| s.to_string()).collect()
}

fn activity(id: &str) -> DynamicActivity {
    DynamicActivity {
        identifier: id.to_string(),
        minimal_height: 10,
        minimal_width: 20,
        blur_radius_tenths: 30,
    }
}

fn app_with_modules(list: &[&str]) -> App {
    let mut app = App::default();
    app.config.loaded_modules = names(list);
    let order = app.load_modules(&names(list));
    assert_eq!(order.len(), list.len());
    app
}

#[test]
fn load_skips_unknown_names() {
    // loaded-modules = ["A", "B"], only "A" statically known
    let mut app = App::default();
    app.config.loaded_modules = names(&["A", "B"]);
    let order = app.load_modules(&names(&["A"]));
    assert_eq!(order, names(&["A"]));
    assert_eq!(app.module_map.len(), 1);
    assert_eq!(app.module_map[0].name, "A".to_string());
}

#[test]
fn load_keeps_requested_order() {
    let mut app = App::default();
    app.config.loaded_modules = names(&["C", "A"]);
    let order = app.load_modules(&names(&["A", "B", "C"]));
    assert_eq!(order, names(&["C", "A"]));
    assert_eq!(app.module_map[0].name, "C".to_string());
    assert_eq!(app.module_map[1].name, "A".to_string());
}

#[test]
fn load_all_sentinel_loads_every_module() {
    // the default configuration asks for "all"
    let mut app = App::default();
    let order = app.load_modules(&names(&["A", "B"]));
    assert_eq!(order, names(&["A", "B"]));
    assert_eq!(app.module_map.len(), 2);
}

#[test]
fn loaded_modules_start_empty_and_uninitialized() {
    let app = app_with_modules(&["A"]);
    assert!(app.module_map[0].activities.is_empty());
    assert!(app.module_map[0].producers.is_empty());
    assert!(app.module_map[0].config_block.is_none());
    assert!(!app.module_map[0].initialized);
}

#[test]
fn init_runs_in_recorded_order() {
    let mut app = app_with_modules(&["A", "B"]);
    let order = names(&["A", "B"]);
    app.init_loaded_modules(&order);
    assert!(app.module_map[0].initialized);
    assert!(app.module_map[1].initialized);
}

#[test]
fn add_then_remove_leaves_everything_empty() {
    // AddActivity("A", act1) then RemoveActivity("A", "act1"): both maps empty
    let mut app = app_with_modules(&["A"]);
    let out = app.handle_ui_command(UIServerCommand::AddActivity("A".to_string(), activity("act1")));
    assert_eq!(out, UiOutcome::Done);
    assert_eq!(app.layout.activities, names(&["act1"]));
    assert_eq!(app.module_map[0].activities.len(), 1);
    let out = app.handle_ui_command(UIServerCommand::RemoveActivity(
        "A".to_string(),
        "act1".to_string(),
    ));
    assert_eq!(out, UiOutcome::Done);
    assert!(app.layout.activities.is_empty());
    assert!(app.module_map[0].activities.is_empty());
}

#[test]
fn activity_count_is_adds_minus_successful_removes() {
    let mut app = app_with_modules(&["A"]);
    assert_eq!(app.handle_ui_command(UIServerCommand::AddActivity("A".to_string(), activity("x"))), UiOutcome::Done);
    assert_eq!(app.handle_ui_command(UIServerCommand::AddActivity("A".to_string(), activity("y"))), UiOutcome::Done);
    assert_eq!(app.handle_ui_command(UIServerCommand::RemoveActivity("A".to_string(), "x".to_string())), UiOutcome::Done);
    // this remove fails: "x" is already gone, so it does not count
    assert_eq!(app.handle_ui_command(UIServerCommand::RemoveActivity("A".to_string(), "x".to_string())), UiOutcome::ActivityNotFound);
    assert_eq!(app.module_map[0].activities.len(), 1);
    assert_eq!(app.layout.activities, names(&["y"]));
}

#[test]
fn activity_visible_in_layout_iff_registered() {
    let mut app = app_with_modules(&["A", "B"]);
    app.handle_ui_command(UIServerCommand::AddActivity("A".to_string(), activity("a1")));
    app.handle_ui_command(UIServerCommand::AddActivity("B".to_string(), activity("b1")));
    app.handle_ui_command(UIServerCommand::RemoveActivity("A".to_string(), "a1".to_string()));
    let mut registered: Vec<String> = Vec::new();
    for m in &app.module_map {
        for a in &m.activities {
            registered.push(a.identifier.clone());
        }
    }
    let mut shown = app.layout.activities.clone();
    registered.sort();
    shown.sort();
    assert_eq!(registered, shown);
}

#[test]
fn add_activity_applies_current_style() {
    let mut app = app_with_modules(&["A"]);
    app.config.general_style_config.minimal_height = 77;
    app.config.general_style_config.minimal_width = 88;
    app.config.general_style_config.blur_radius_tenths = 55;
    app.handle_ui_command(UIServerCommand::AddActivity("A".to_string(), activity("act1")));
    let a = &app.module_map[0].activities[0];
    assert_eq!(a.minimal_height, 77);
    assert_eq!(a.minimal_width, 88);
    assert_eq!(a.blur_radius_tenths, 55);
}

#[test]
fn add_producer_targets_missing_module() {
    // a producer naming a nonexistent module is fatal for the host
    let mut app = app_with_modules(&["A"]);
    let out = app.handle_ui_command(UIServerCommand::AddProducer("missing".to_string(), 7));
    assert_eq!(out, UiOutcome::ModuleNotFound);
    assert!(app.module_map[0].producers.is_empty());
    assert!(app.running_tasks.is_empty());
}

#[test]
fn add_producer_registers_and_invokes_once() {
    let mut app = app_with_modules(&["A"]);
    let out = app.handle_ui_command(UIServerCommand::AddProducer("A".to_string(), 7));
    assert_eq!(out, UiOutcome::Done);
    assert_eq!(app.module_map[0].producers, vec![7]);
    assert_eq!(app.running_tasks.len(), 1);
    assert_eq!(app.running_tasks[0].producer, 7);
    assert_eq!(app.running_tasks[0].generation, app.producers_handle.generation);
}

#[test]
fn duplicate_activity_is_rejected_without_change() {
    let mut app = app_with_modules(&["A", "B"]);
    assert_eq!(app.handle_ui_command(UIServerCommand::AddActivity("A".to_string(), activity("act1"))), UiOutcome::Done);
    let out = app.handle_ui_command(UIServerCommand::AddActivity("B".to_string(), activity("act1")));
    assert_eq!(out, UiOutcome::DuplicateActivity);
    assert_eq!(app.layout.activities.len(), 1);
    assert!(app.module_map[1].activities.is_empty());
}

#[test]
fn restart_replays_producers_on_new_generation_only() {
    let mut app = app_with_modules(&["A", "B"]);
    app.handle_ui_command(UIServerCommand::AddProducer("A".to_string(), 1));
    app.handle_ui_command(UIServerCommand::AddProducer("A".to_string(), 2));
    app.handle_ui_command(UIServerCommand::AddProducer("B".to_string(), 3));
    let old_generation = app.producers_handle.generation;
    app.restart_producer_rt();
    assert_eq!(app.producers_handle.generation, old_generation + 1);
    // one replayed task per registered producer, module by module in order
    let replayed: Vec<u64> = app.running_tasks.iter().map(|t| t.producer).collect();
    assert_eq!(replayed, vec![1, 2, 3]);
    // nothing is left running against the retired generation
    for t in &app.running_tasks {
        assert_eq!(t.generation, old_generation + 1);
    }
}

#[test]
fn reload_with_unparsable_config_keeps_active_one() {
    let mut app = app_with_modules(&["A"]);
    let mut v1 = Config::default();
    v1.general_style_config.minimal_height = 99;
    app.handle_server_command(BackendServerCommand::ReloadConfig(), Some(v1), None);
    assert_eq!(app.config.general_style_config.minimal_height, 99);
    // an unparsable document leaves the active configuration in effect
    app.handle_server_command(BackendServerCommand::ReloadConfig(), None, None);
    assert_eq!(app.config.general_style_config.minimal_height, 99);
    // a later valid document wins again
    let mut v2 = Config::default();
    v2.general_style_config.minimal_height = 33;
    app.handle_server_command(BackendServerCommand::ReloadConfig(), Some(v2), None);
    assert_eq!(app.config.general_style_config.minimal_height, 33);
}

#[test]
fn reload_restyles_activities_and_routes_blocks() {
    let mut app = app_with_modules(&["A"]);
    app.handle_ui_command(UIServerCommand::AddActivity("A".to_string(), activity("act1")));
    let mut cfg = Config::default();
    cfg.general_style_config.minimal_height = 123;
    cfg.module_config = vec![("A".to_string(), "block-a".to_string())];
    cfg.layout_configs = vec![("SimpleLayout".to_string(), "layout-block".to_string())];
    app.handle_server_command(BackendServerCommand::ReloadConfig(), Some(cfg), None);
    assert_eq!(app.module_map[0].activities[0].minimal_height, 123);
    assert_eq!(app.module_map[0].config_block, Some("block-a".to_string()));
    assert_eq!(app.layout.config_block, Some("layout-block".to_string()));
    // the reload also restarted the producer runtime
    assert_eq!(app.producers_handle.generation, 1);
}

#[test]
fn layout_falls_back_to_simple_strategy() {
    let l = load_layout_manager(&names(&["FancyLayout"]), &Some("Unknown".to_string()));
    assert_eq!(l.name, "SimpleLayout".to_string());
    let l = load_layout_manager(&names(&["FancyLayout"]), &None);
    assert_eq!(l.name, "SimpleLayout".to_string());
}

#[test]
fn layout_selects_configured_strategy() {
    let l = load_layout_manager(&names(&["FancyLayout"]), &Some("FancyLayout".to_string()));
    assert_eq!(l.name, "FancyLayout".to_string());
    assert!(l.activities.is_empty());
    assert!(l.config_block.is_none());
}

#[test]
fn app_load_layout_manager_uses_config() {
    let mut app = app_with_modules(&["A"]);
    app.config.layout = Some("GridLayout".to_string());
    app.load_layout_manager(&names(&["GridLayout"]));
    assert_eq!(app.layout.name, "GridLayout".to_string());
}

#[test]
fn general_config_defaults() {
    let g = GeneralConfig::default();
    assert_eq!(g.minimal_height, 40);
    assert_eq!(g.minimal_width, 60);
    assert_eq!(g.blur_radius_tenths, 60);
    assert!(!g.enable_drag_stretch);
}

#[test]
fn config_defaults() {
    let c = Config::default();
    assert_eq!(c.loaded_modules, names(&["all"]));
    assert_eq!(c.layout, Some("SimpleLayout".to_string()));
    assert!(c.layout_configs.is_empty());
    assert!(c.module_config.is_empty());
}

#[test]
fn get_config_substitutes_default_document() {
    let c = get_config(None);
    assert_eq!(c.loaded_modules, names(&["all"]));
    let mut given = Config::default();
    given.layout = Some("Other".to_string());
    let c = get_config(Some(given));
    assert_eq!(c.layout, Some("Other".to_string()));
}

#[test]
fn lookup_block_returns_first_match() {
    let blocks = vec![
        ("A".to_string(), "first".to_string()),
        ("B".to_string(), "second".to_string()),
        ("A".to_string(), "third".to_string()),
    ];
    assert_eq!(lookup_block(&blocks, &"A".to_string()), Some("first".to_string()));
    assert_eq!(lookup_block(&blocks, &"B".to_string()), Some("second".to_string()));
    assert_eq!(lookup_block(&blocks, &"C".to_string()), None);
}

#[test]
fn queued_reload_is_processed_after_not_dropped() {
    // a modify event arrives while an earlier reload is mid-processing
    let mut queue = ServerCommandQueue::new();
    queue.send(BackendServerCommand::ReloadConfig());
    let first = queue.recv();
    assert!(matches!(first, Some(BackendServerCommand::ReloadConfig())));
    // mid-processing: the watcher enqueues another request
    queue.send(BackendServerCommand::ReloadConfig());
    assert_eq!(queue.len(), 1);
    // the second request is handled after the first, by the same consumer
    let second = queue.recv();
    assert!(matches!(second, Some(BackendServerCommand::ReloadConfig())));
    assert!(queue.recv().is_none());
}

#[test]
fn css_compile_installs_stylesheet() {
    let mut app = App::default();
    let scss = "a { b { color: red; } }";
    app.apply_css_result(compile_scss(scss));
    let css = app.css.clone().expect("stylesheet should compile");
    assert!(css.contains("a b"));
    assert_ne!(css, scss.to_string());
}

#[test]
fn css_compile_failure_keeps_previous_stylesheet() {
    let mut app = App::default();
    app.apply_css_result(compile_scss("a { color: red; }"));
    let good = app.css.clone();
    assert!(good.is_some());
    app.apply_css_result(compile_scss("a { color: "));
    assert_eq!(app.css, good);
}

#[test]
fn apply_css_result_ok_and_err() {
    let mut app = App::default();
    app.apply_css_result(Ok("a{color:red}".to_string()));
    assert_eq!(app.css, Some("a{color:red}".to_string()));
    app.apply_css_result(Err("parse error".to_string()));
    assert_eq!(app.css, Some("a{color:red}".to_string()));
}

#[test]
fn reload_without_stylesheet_source_keeps_css() {
    let mut app = app_with_modules(&["A"]);
    app.apply_css_result(Ok("a{}".to_string()));
    app.handle_server_command(BackendServerCommand::ReloadConfig(), None, None);
    assert_eq!(app.css, Some("a{}".to_string()));
}

#[test]
fn reload_with_compiled_stylesheet_installs_new_css() {
    let mut app = app_with_modules(&["A"]);
    app.handle_server_command(
        BackendServerCommand::ReloadConfig(),
        None,
        Some(compile_scss("b { color: blue; }")),
    );
    assert!(app.css.clone().expect("stylesheet should compile").contains("b"));
}

#[test]
fn reload_with_failed_compile_keeps_previous_stylesheet() {
    let mut app = app_with_modules(&["A"]);
    app.apply_css_result(Ok("a{}".to_string()));
    app.handle_server_command(
        BackendServerCommand::ReloadConfig(),
        None,
        Some(compile_scss("a { color: ")),
    );
    assert_eq!(app.css, Some("a{}".to_string()));
}
