use hive::models::{HiveConfig, HiveError, ProjectConfig, RunScript, ServiceConfig};
use hive::scripts::{
    add_script, expose_command, plan_run, remove_script, run_processes, script_commands,
    set_config_value, RunPlan,
};
use indexmap::IndexMap;

fn config(scripts: Vec<(&str, RunScript)>) -> HiveConfig {
    let mut m = IndexMap::new();
    for (k, v) in scripts {
        m.insert(k.to_string(), v);
    }
    let mut services = IndexMap::new();
    services.insert("app".to_string(), ServiceConfig { port: Some(3000), command: Some("npm start".into()) });
    HiveConfig {
        project: ProjectConfig { name: "demo".into(), description: None, author: None, framework: None },
        services,
        scripts: m,
    }
}

fn single(c: &str) -> RunScript {
    RunScript::Single(c.to_string())
}

fn config_error(r: &HiveError) -> String {
    match r {
        HiveError::Config(m) => m.clone(),
        other => panic!("not a config error: {:?}", other),
    }
}

#[test]
fn config_set_known_keys() {
    let mut cfg = config(vec![]);
    assert!(set_config_value(&mut cfg, "project.name", "New".into()).is_ok());
    assert!(set_config_value(&mut cfg, "project.description", "D".into()).is_ok());
    assert!(set_config_value(&mut cfg, "project.author", "A".into()).is_ok());
    assert!(set_config_value(&mut cfg, "project.framework", "Go".into()).is_ok());
    assert_eq!(cfg.project.name, "New");
    assert_eq!(cfg.project.description, Some("D".to_string()));
    assert_eq!(cfg.project.author, Some("A".to_string()));
    assert_eq!(cfg.project.framework, Some("Go".to_string()));
}

#[test]
fn config_set_unknown_key_is_error() {
    let mut cfg = config(vec![]);
    let e = set_config_value(&mut cfg, "project.port", "1".into()).unwrap_err();
    assert_eq!(
        config_error(&e),
        "Unknown config key 'project.port'. Supported: project.name, project.description, project.author, project.framework"
    );
    assert_eq!(e.message(), "Config error: Unknown config key 'project.port'. Supported: project.name, project.description, project.author, project.framework");
    assert_eq!(cfg.project.name, "demo");
}

#[test]
fn add_then_show_script() {
    let mut cfg = config(vec![("start", single("npm start"))]);
    add_script(&mut cfg, "lint".into(), "npm run lint".into());
    assert_eq!(script_commands(&cfg, "lint").unwrap(), vec!["npm run lint".to_string()]);
    add_script(&mut cfg, "start".into(), "node .".into());
    let keys: Vec<&String> = cfg.scripts.keys().collect();
    assert_eq!(keys, vec!["start", "lint"]);
    assert_eq!(script_commands(&cfg, "start").unwrap(), vec!["node .".to_string()]);
}

#[test]
fn remove_then_show_is_error() {
    let mut cfg = config(vec![("a", single("x")), ("b", single("y")), ("c", single("z"))]);
    assert!(remove_script(&mut cfg, "b").is_ok());
    let keys: Vec<&String> = cfg.scripts.keys().collect();
    assert_eq!(keys, vec!["a", "c"]);
    let e = script_commands(&cfg, "b").unwrap_err();
    assert_eq!(config_error(&e), "Script 'b' not found");
    let e = remove_script(&mut cfg, "b").unwrap_err();
    assert_eq!(config_error(&e), "Script 'b' not found");
}

#[test]
fn show_multiple_commands() {
    let cfg = config(vec![("dev", RunScript::Multiple(vec!["a".into(), "b".into()]))]);
    assert_eq!(script_commands(&cfg, "dev").unwrap(), vec!["a".to_string(), "b".to_string()]);
}

#[test]
fn plan_run_lists() {
    let cfg = config(vec![("start", single("s"))]);
    assert!(matches!(plan_run(&cfg, None, true, false), Ok(RunPlan::List)));
    let empty = config(vec![]);
    assert!(matches!(plan_run(&empty, None, false, false), Ok(RunPlan::List)));
}

#[test]
fn plan_run_default_start_and_named() {
    let cfg = config(vec![("start", single("s")), ("dev", single("d"))]);
    match plan_run(&cfg, None, false, false) {
        Ok(RunPlan::Execute(k, RunScript::Single(c))) => {
            assert_eq!(k, "start");
            assert_eq!(c, "s");
        }
        other => panic!("unexpected {:?}", other),
    }
    match plan_run(&cfg, Some("dev".into()), false, true) {
        Ok(RunPlan::DryRun(k, RunScript::Single(c))) => {
            assert_eq!(k, "dev");
            assert_eq!(c, "d");
        }
        other => panic!("unexpected {:?}", other),
    }
}

#[test]
fn plan_run_errors() {
    let empty = config(vec![]);
    let e = plan_run(&empty, Some("x".into()), false, false).unwrap_err();
    assert_eq!(config_error(&e), "No scripts defined in .hive/config.yml");
    let cfg = config(vec![("start", single("s")), ("dev", single("d"))]);
    let e = plan_run(&cfg, Some("test".into()), false, false).unwrap_err();
    assert_eq!(
        config_error(&e),
        "Script 'test' not found.\n\n  Available: start, dev\n\n  Run `hive run --list` to see all scripts."
    );
}

#[test]
fn processes_of_scripts() {
    let ps = run_processes("start", &single("npm start")).unwrap();
    assert_eq!(ps, vec![("start".to_string(), "npm start".to_string())]);
    let multi = RunScript::Multiple(vec!["npm run dev".into(), "  ".into(), "php artisan serve".into()]);
    let ps = run_processes("dev", &multi).unwrap();
    assert_eq!(
        ps,
        vec![
            ("npm:1".to_string(), "npm run dev".to_string()),
            ("proc:2".to_string(), "  ".to_string()),
            ("php:3".to_string(), "php artisan serve".to_string()),
        ]
    );
    let e = run_processes("dev", &RunScript::Multiple(vec![])).unwrap_err();
    assert_eq!(config_error(&e), "Script 'dev' has no commands");
}

#[test]
fn expose_command_choice() {
    let cfg = config(vec![("dev", single("d")), ("start", single("s"))]);
    assert_eq!(expose_command(&cfg).unwrap(), "s");
    let cfg = config(vec![("dev", RunScript::Multiple(vec!["a".into(), "b".into()]))]);
    assert_eq!(expose_command(&cfg).unwrap(), "a");
    let e = expose_command(&config(vec![])).unwrap_err();
    assert_eq!(config_error(&e), "No scripts defined in .hive/config.yml");
    let e = expose_command(&config(vec![("x", RunScript::Multiple(vec![]))])).unwrap_err();
    assert_eq!(config_error(&e), "Script has no commands");
}
