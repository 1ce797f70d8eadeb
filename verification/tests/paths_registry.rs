use hive::models::{HiveConfig, ProjectConfig, RegistryEntry};
use hive::paths::{
    app_projects_dir, cli_projects_dir, cloudflared_bin_name, cloudflared_candidates,
    config_path, env_path, hive_dir, hive_home, home_dir, logs_dir, registry_file,
    resolve_cloudflared, run_log_path, secrets_path, tunnel_log_dir, tunnel_log_path, HivePath,
};
use hive::registry::{
    find_app_project, find_project, is_registry_file, registry_entry, registry_name, sanitize_name,
};
use indexmap::IndexMap;

fn root() -> HivePath {
    HivePath::new("/p".to_string())
}

fn parts(p: &HivePath) -> Vec<&str> {
    p.parts.iter().map(|s| s.as_str()).collect()
}

#[test]
fn hive_layout() {
    let r = root();
    assert_eq!(parts(&hive_dir(&r)), vec![".hive"]);
    assert_eq!(parts(&config_path(&r)), vec![".hive", "config.yml"]);
    assert_eq!(parts(&env_path(&r)), vec![".hive", ".env"]);
    assert_eq!(parts(&secrets_path(&r)), vec![".hive", ".secrets"]);
    assert_eq!(parts(&logs_dir(&r)), vec![".hive", "logs"]);
    assert_eq!(parts(&run_log_path(&r)), vec![".hive", "logs", "run.log"]);
    assert_eq!(parts(&tunnel_log_dir(&r)), vec![".hive", "logs", "tunnels"]);
    assert_eq!(
        parts(&tunnel_log_path(&r, "20240101_120000")),
        vec![".hive", "logs", "tunnels", "tunnel_20240101_120000.log"]
    );
    assert_eq!(config_path(&r).root, "/p");
}

#[test]
fn home_resolution() {
    assert_eq!(home_dir(Some("/h".into()), Some("/u".into())).root, "/h");
    assert_eq!(home_dir(None, Some("/u".into())).root, "/u");
    assert_eq!(home_dir(None, None).root, ".");
    let h = hive_home(Some("/h".into()), None);
    assert_eq!(parts(&h), vec![".hive"]);
    assert_eq!(parts(&cli_projects_dir(Some("/h".into()), None)), vec![".hive", ".cli", "projects"]);
    assert_eq!(parts(&app_projects_dir(None, None)), vec![".hive", "projects"]);
    assert_eq!(parts(&registry_file(&h, "my-app")), vec![".hive", "my-app.yml"]);
}

#[test]
fn cloudflared_locations() {
    assert_eq!(cloudflared_bin_name(true), "cloudflared.exe");
    assert_eq!(cloudflared_bin_name(false), "cloudflared");
    let h = hive_home(Some("/h".into()), None);
    let (a, b) = cloudflared_candidates(&h, false);
    assert_eq!(parts(&a), vec![".hive", "bin", "cloudflared"]);
    assert_eq!(parts(&b), vec![".hive", ".cli", "bin", "cloudflared"]);
    let (p, installed) = resolve_cloudflared(a, true, b, false);
    assert!(installed);
    assert_eq!(parts(&p), vec![".hive", "bin", "cloudflared"]);
    let (a, b) = cloudflared_candidates(&h, true);
    let (p, installed) = resolve_cloudflared(a, false, b, false);
    assert!(!installed);
    assert_eq!(parts(&p), vec![".hive", ".cli", "bin", "cloudflared.exe"]);
}

#[test]
fn sanitize_names_for_files() {
    assert_eq!(sanitize_name("My App!"), "my-app-");
    assert_eq!(sanitize_name("a_b-C9"), "a_b-c9");
    assert_eq!(sanitize_name("Café"), "café");
}

#[test]
fn registry_file_names() {
    assert!(is_registry_file("app.yml"));
    assert!(!is_registry_file("app.yaml"));
    assert!(!is_registry_file(".yml"));
    assert!(!is_registry_file("noext"));
    assert_eq!(registry_name("my-app.yml"), "my-app");
    assert_eq!(registry_name("a.b.yml"), "a.b");
    assert_eq!(registry_name(".yml"), ".yml");
}

fn entry(name: &str, path: &str) -> RegistryEntry {
    RegistryEntry {
        name: name.to_string(),
        description: None,
        framework: None,
        path: path.to_string(),
        port: None,
        created_at: "t".to_string(),
        author: None,
    }
}

#[test]
fn registry_entry_from_config() {
    let cfg = HiveConfig {
        project: ProjectConfig {
            name: "shop".into(),
            description: Some("d".into()),
            author: None,
            framework: Some("Laravel".into()),
        },
        services: IndexMap::new(),
        scripts: IndexMap::new(),
    };
    let e = registry_entry(&cfg, "/w/shop".into(), Some(8000), "2024".into());
    assert_eq!(e.name, "shop");
    assert_eq!(e.description, Some("d".to_string()));
    assert_eq!(e.framework, Some("Laravel".to_string()));
    assert_eq!(e.path, "/w/shop");
    assert_eq!(e.port, Some(8000));
    assert_eq!(e.created_at, "2024");
    assert_eq!(e.author, None);
}

#[test]
fn find_project_by_name_or_path() {
    let es = vec![entry("Alpha", "/w/one"), entry("Beta", "/w/ALPHA-two"), entry("gamma", "/x")];
    assert_eq!(find_project(&es, "alp"), Some(0));
    assert_eq!(find_project(&es, "two"), Some(1));
    assert_eq!(find_project(&es, "GAM"), Some(2));
    assert_eq!(find_project(&es, "zzz"), None);
    assert_eq!(find_project(&es, "Beta"), Some(1));
}

#[test]
fn find_app_project_by_name() {
    let names = vec!["Web".to_string(), "".to_string(), "website".to_string()];
    assert_eq!(find_app_project(&names, "SITE"), Some(2));
    assert_eq!(find_app_project(&names, "web"), Some(0));
    assert_eq!(find_app_project(&names, "x"), None);
}

#[test]
fn registry_file_lists_back_under_its_stem() {
    for stem in ["shop", "my-app", "a.b", "x"] {
        let file = format!("{}.yml", stem);
        assert!(is_registry_file(&file));
        assert_eq!(registry_name(&file), stem);
    }
    let dir = HivePath::new("/h".to_string());
    let f = registry_file(&dir, &sanitize_name("My Shop"));
    assert_eq!(f.parts, vec!["my-shop.yml"]);
    assert_eq!(registry_name(&f.parts[0]), "my-shop");
}
