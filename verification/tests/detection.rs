use hive::detector::{default_port, default_run_command, framework_icon};
use hive::models::Framework;
use hive::paths::HivePath;
use hive::project::{
    detect, detect_extra_services, detect_framework, dir_name, extract_from_cargo,
    extract_from_composer, extract_from_go_mod, extract_from_package_json, extract_from_pyproject,
    json_str, read_env_key, toml_str, FileProbe, ProjectScan,
};

fn none() -> FileProbe {
    FileProbe { exists: false, text: None }
}

fn file(text: &str) -> FileProbe {
    FileProbe { exists: true, text: Some(text.to_string()) }
}

fn empty_scan(dir: Option<&str>) -> ProjectScan {
    ProjectScan {
        dir_name: dir.map(|d| d.to_string()),
        artisan: none(),
        composer_json: none(),
        package_json: none(),
        manage_py: none(),
        requirements_txt: none(),
        pyproject_toml: none(),
        cargo_toml: none(),
        go_mod: none(),
        dockerfile: none(),
        docker_compose_yml: none(),
        docker_compose_yaml: none(),
        env: none(),
        env_local: none(),
        env_example: none(),
    }
}

#[test]
fn framework_defaults() {
    assert_eq!(default_port(&Framework::Laravel), 8000);
    assert_eq!(default_port(&Framework::React), 5173);
    assert_eq!(default_port(&Framework::Vue), 5173);
    assert_eq!(default_port(&Framework::Rust), 8080);
    assert_eq!(default_port(&Framework::Unknown), 3000);
    assert_eq!(default_run_command(&Framework::FastAPI), "uvicorn main:app --reload");
    assert_eq!(default_run_command(&Framework::Go), "go run .");
    assert_eq!(default_run_command(&Framework::Unknown), "echo 'No run command configured'");
    assert_eq!(framework_icon(&Framework::Rust), "🦀");
    assert_eq!(framework_icon(&Framework::Unknown), "📦");
    assert_eq!(Framework::NextJs.to_string(), "Next.js");
    assert_eq!(Framework::Node.to_string(), "Node.js");
}

#[test]
fn json_str_reads_string_fields() {
    let c = "{\n  \"name\": \"shop\",\n  \"version\" :\"1.2.0\",\n  \"private\": true,\n  \"description\": \"\"\n}";
    assert_eq!(json_str(c, "name"), Some("shop".to_string()));
    assert_eq!(json_str(c, "version"), Some("1.2.0".to_string()));
    assert_eq!(json_str(c, "private"), None);
    assert_eq!(json_str(c, "description"), None);
    assert_eq!(json_str(c, "missing"), None);
}

#[test]
fn toml_str_reads_assignments() {
    let c = "[package]\n# name = \"no\"\nname = \"tool\"\nversion=\"0.3.1\"\ndescription = \"\"\n";
    assert_eq!(toml_str(c, "name"), Some("tool".to_string()));
    assert_eq!(toml_str(c, "version"), Some("0.3.1".to_string()));
    assert_eq!(toml_str(c, "description"), None);
}

#[test]
fn env_files_searched_in_order() {
    let mut scan = empty_scan(Some("dir"));
    scan.env = file("# c\nAPP_NAME=\n");
    scan.env_local = file("APP_NAME=\"Local App\"\n");
    scan.env_example = file("APP_NAME=Example\n");
    assert_eq!(read_env_key(&scan, "APP_NAME"), Some("Local App".to_string()));
    assert_eq!(read_env_key(&scan, "OTHER"), None);
}

#[test]
fn dir_name_defaults_to_unnamed() {
    assert_eq!(dir_name(&Some("proj".to_string())), "proj");
    assert_eq!(dir_name(&None), "unnamed");
}

#[test]
fn laravel_by_artisan_or_composer() {
    let mut scan = empty_scan(Some("site"));
    scan.artisan = file("");
    assert_eq!(detect_framework(&scan), Framework::Laravel);
    let mut scan = empty_scan(Some("site"));
    scan.composer_json = file("{\"name\": \"acme/blog\", \"require\": {\"laravel/framework\": \"^10\"}}");
    assert_eq!(detect_framework(&scan), Framework::Laravel);
    let (name, version, desc) = extract_from_composer(&scan);
    assert_eq!(name, "blog");
    assert_eq!(version, None);
    assert_eq!(desc, None);
}

#[test]
fn node_frameworks_by_dependency() {
    let cases = [
        ("{\"dependencies\": {\"next\": \"14\"}}", Framework::NextJs),
        ("{\"dependencies\": {\"nuxt\": \"3\"}}", Framework::Nuxt),
        ("{\"dependencies\": {\"vue\": \"3\"}}", Framework::Vue),
        ("{\"dependencies\": {\"react\": \"18\"}}", Framework::React),
        ("{\"name\": \"plain\"}", Framework::Node),
    ];
    for (pkg, fw) in cases {
        let mut scan = empty_scan(None);
        scan.package_json = file(pkg);
        assert_eq!(detect_framework(&scan), fw);
    }
}

#[test]
fn python_frameworks() {
    let mut scan = empty_scan(None);
    scan.manage_py = file("");
    assert_eq!(detect_framework(&scan), Framework::Django);
    let mut scan = empty_scan(None);
    scan.requirements_txt = file("fastapi==0.1\n");
    assert_eq!(detect_framework(&scan), Framework::FastAPI);
    let mut scan = empty_scan(None);
    scan.requirements_txt = file("flask\n");
    assert_eq!(detect_framework(&scan), Framework::Python);
    let mut scan = empty_scan(None);
    scan.pyproject_toml = file("[project]\nname = \"svc\"\ndependencies = [\"django\"]\n");
    assert_eq!(detect_framework(&scan), Framework::Django);
    let (name, version, desc) = extract_from_pyproject(&scan);
    assert_eq!(name, "svc");
    assert_eq!(version, None);
    assert_eq!(desc, None);
}

#[test]
fn pyproject_missing_uses_dir_name() {
    let scan = empty_scan(Some("folder"));
    assert_eq!(extract_from_pyproject(&scan), ("folder".to_string(), None, None));
}

#[test]
fn rust_go_and_unknown() {
    let mut scan = empty_scan(Some("d"));
    scan.cargo_toml = file("[package]\nname = \"crab\"\nversion = \"0.1.0\"\ndescription = \"A crab\"\n");
    assert_eq!(detect_framework(&scan), Framework::Rust);
    assert_eq!(
        extract_from_cargo(&scan),
        ("crab".to_string(), Some("0.1.0".to_string()), Some("A crab".to_string()))
    );
    let mut scan = empty_scan(Some("d"));
    scan.go_mod = file("// comment\nmodule github.com/acme/gopher\n\ngo 1.22\n");
    assert_eq!(detect_framework(&scan), Framework::Go);
    assert_eq!(extract_from_go_mod(&scan), ("gopher".to_string(), None, None));
    let scan = empty_scan(Some("d"));
    assert_eq!(detect_framework(&scan), Framework::Unknown);
}

#[test]
fn package_json_name_prefers_env() {
    let mut scan = empty_scan(Some("d"));
    scan.package_json = file("{\"name\": \"pkg\", \"version\": \"2.0.0\", \"description\": \"Pkg\"}");
    assert_eq!(
        extract_from_package_json(&scan),
        ("pkg".to_string(), Some("2.0.0".to_string()), Some("Pkg".to_string()))
    );
    scan.env_example = file("APP_NAME='From Env'\n");
    assert_eq!(extract_from_package_json(&scan).0, "From Env");
}

#[test]
fn compose_services_detected() {
    let mut scan = empty_scan(None);
    scan.docker_compose_yaml = file("services:\n  db:\n    image: MariaDB\n  cache:\n    image: redis\n  web:\n    image: nginx\n");
    assert_eq!(detect_extra_services(&scan), vec!["MySQL", "Redis", "Nginx"]);
    let scan = empty_scan(None);
    assert!(detect_extra_services(&scan).is_empty());
}

#[test]
fn detect_whole_project() {
    let mut scan = empty_scan(Some("api"));
    scan.package_json = file("{\"name\": \"api\", \"dependencies\": {\"react\": \"18\"}}");
    scan.dockerfile = file("FROM node");
    scan.env = file("PORT=1\n");
    let root = HivePath { root: "/work/api".to_string(), parts: vec![] };
    let p = detect(&root, &scan);
    assert_eq!(p.framework, Framework::React);
    assert_eq!(p.name, "api");
    assert_eq!(p.meta.name, "api");
    assert!(p.meta.has_docker);
    assert!(p.meta.has_env);
    assert_eq!(p.path.root, "/work/api");
    assert!(p.meta.extra_services.is_empty());
}

#[test]
fn toml_first_non_empty_assignment() {
    let c = "name = \"\"\n  # name = \"x\"\nname=\"second\"\nname = \"third\"\n";
    assert_eq!(toml_str(c, "name"), Some("second".to_string()));
    assert_eq!(toml_str("named = \"x\"\n", "name"), None);
}
