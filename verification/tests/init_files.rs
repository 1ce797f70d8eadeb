use hive::init::{build_config, build_env_content, build_secrets_content, parse_port, patch_gitignore};
use hive::models::{Framework, RunScript};

#[test]
fn env_content_for_new_project() {
    let got = build_env_content("My App", 3000, false, "", "");
    let want = "# Hive environment variables — edit freely\n\
\n\
APP_NAME=My App\n\
APP_ENV=development\n\
APP_PORT=3000\n\
APP_DEBUG=true\n\
APP_URL=http://localhost:3000\n\
\n\
# Database\n\
DB_CONNECTION=mysql\n\
DB_HOST=127.0.0.1\n\
DB_PORT=3306\n\
DB_DATABASE=my_app\n\
DB_USERNAME=root\n\
DB_PASSWORD=\n\
\n\
# Cache / Queue\n\
CACHE_DRIVER=file\n\
QUEUE_CONNECTION=sync\n\
SESSION_DRIVER=file\n";
    assert_eq!(got, want);
}

#[test]
fn env_content_with_existing_env_description_and_author() {
    let got = build_env_content("Shop", 8000, true, "A shop", "Ann");
    assert!(got.starts_with("# Synced from your existing .env — add overrides below\n\nAPP_NAME=Shop\n"));
    assert!(got.contains("APP_PORT=8000\nAPP_DEBUG=true\nAPP_URL=http://localhost:8000\nAPP_DESCRIPTION=A shop\nAPP_AUTHOR=Ann\n\n# Database\n"));
    assert!(got.contains("DB_DATABASE=shop\n"));
    assert!(got.ends_with("SESSION_DRIVER=file\n"));
}

#[test]
fn env_content_is_read_back() {
    let got = build_env_content("Blog", 5173, false, "", "");
    assert_eq!(hive::dotenv::find_key(&got, "APP_NAME"), Some("Blog".to_string()));
    assert_eq!(hive::dotenv::find_key(&got, "APP_PORT"), Some("5173".to_string()));
    assert_eq!(hive::dotenv::find_key(&got, "DB_DATABASE"), Some("blog".to_string()));
    assert_eq!(hive::dotenv::find_key(&got, "APP_DESCRIPTION"), None);
}

#[test]
fn secrets_content_names_project() {
    let got = build_secrets_content("demo");
    assert!(got.starts_with("# Hive Secrets — demo\n# ⚠  Do NOT commit this file\n"));
    assert!(got.ends_with("\nJWT_SECRET=\nAPI_KEY=\nSTRIPE_SECRET=\nSMTP_HOST=\nSMTP_PORT=587\nSMTP_USER=\nSMTP_PASS=\n"));
    assert_eq!(hive::dotenv::find_key(&got, "SMTP_PORT"), Some("587".to_string()));
}

#[test]
fn parse_port_accepts_numbers() {
    assert_eq!(parse_port("8080", 3000), 8080);
    assert_eq!(parse_port("+42", 3000), 42);
    assert_eq!(parse_port("65535", 1), 65535);
    assert_eq!(parse_port("0", 1), 0);
}

#[test]
fn parse_port_falls_back() {
    assert_eq!(parse_port("", 3000), 3000);
    assert_eq!(parse_port("65536", 3000), 3000);
    assert_eq!(parse_port("80a", 3000), 3000);
    assert_eq!(parse_port(" 80", 3000), 3000);
    assert_eq!(parse_port("+", 3000), 3000);
    assert_eq!(parse_port("-1", 3000), 3000);
}

#[test]
fn config_with_presets_and_docker() {
    let cfg = build_config("app", "", "Bo", Framework::Laravel, 8000, "php artisan serve", true, &vec![0, 3, 9]);
    assert_eq!(cfg.project.name, "app");
    assert_eq!(cfg.project.description, None);
    assert_eq!(cfg.project.author, Some("Bo".to_string()));
    assert_eq!(cfg.project.framework, Some("Laravel".to_string()));
    let services: Vec<(&String, _)> = cfg.services.iter().collect();
    assert_eq!(services.len(), 2);
    assert_eq!(services[0].0, "app");
    assert_eq!(services[0].1.port, Some(8000));
    assert_eq!(services[0].1.command, Some("php artisan serve".to_string()));
    assert_eq!(services[1].0, "docker");
    assert_eq!(services[1].1.port, None);
    assert_eq!(services[1].1.command, Some("docker compose up -d".to_string()));
    let keys: Vec<&String> = cfg.scripts.keys().collect();
    assert_eq!(keys, vec!["start", "dev", "migrate"]);
    assert!(matches!(&cfg.scripts["start"], RunScript::Single(c) if c == "php artisan serve"));
    assert!(matches!(&cfg.scripts["dev"], RunScript::Multiple(cs) if cs == &vec!["php artisan serve".to_string(), "docker compose up".to_string()]));
    assert!(matches!(&cfg.scripts["migrate"], RunScript::Single(c) if c == "php artisan migrate"));
}

#[test]
fn config_without_docker_or_presets() {
    let cfg = build_config("web", "Site", "", Framework::NextJs, 3000, "npm run dev", false, &vec![]);
    assert_eq!(cfg.project.description, Some("Site".to_string()));
    assert_eq!(cfg.project.author, None);
    assert_eq!(cfg.project.framework, Some("Next.js".to_string()));
    assert_eq!(cfg.services.len(), 1);
    assert_eq!(cfg.scripts.len(), 1);
}

#[test]
fn config_all_presets_in_order() {
    let cfg = build_config("x", "", "", Framework::Node, 3000, "npm start", false, &vec![5, 4, 2, 1, 0]);
    let keys: Vec<&String> = cfg.scripts.keys().collect();
    assert_eq!(keys, vec!["start", "queue", "seed", "test", "build", "dev"]);
    assert!(matches!(&cfg.scripts["build"], RunScript::Single(c) if c == "npm run build"));
    assert!(matches!(&cfg.scripts["test"], RunScript::Single(c) if c == "npm test"));
    assert!(matches!(&cfg.scripts["seed"], RunScript::Single(c) if c == "php artisan db:seed"));
    assert!(matches!(&cfg.scripts["queue"], RunScript::Single(c) if c == "php artisan queue:listen"));
    assert!(matches!(&cfg.scripts["dev"], RunScript::Multiple(cs) if cs == &vec!["npm start".to_string()]));
}

#[test]
fn gitignore_created_from_nothing() {
    assert_eq!(
        patch_gitignore(""),
        Some("\n# Hive CLI\n.hive/.secrets\n.hive/logs/\n".to_string())
    );
}

#[test]
fn gitignore_gets_final_newline_and_missing_entry() {
    assert_eq!(
        patch_gitignore("target\n  .hive/.secrets  "),
        Some("target\n  .hive/.secrets  \n\n# Hive CLI\n.hive/logs/\n".to_string())
    );
}

#[test]
fn gitignore_already_complete() {
    assert_eq!(patch_gitignore("node_modules\n.hive/.secrets\r\n.hive/logs/\n"), None);
}

#[test]
fn gitignore_patch_is_idempotent() {
    for start in ["", "a", "a\n", ".hive/logs/", "x\r\n.hive/.secrets"] {
        let once = patch_gitignore(start).expect("patched");
        assert_eq!(patch_gitignore(&once), None);
    }
}

#[test]
fn env_content_reads_back_settings() {
    let got = build_env_content("Shop", 8080, false, " A \"shop\" ", "Ann");
    assert!(got.ends_with('\n'));
    assert_eq!(hive::dotenv::find_key(&got, "APP_URL"), Some("http://localhost:8080".to_string()));
    assert_eq!(hive::dotenv::find_key(&got, "APP_DESCRIPTION"), Some("A \"shop".to_string()));
    assert_eq!(hive::dotenv::find_key(&got, "APP_AUTHOR"), Some("Ann".to_string()));
    let bare = build_env_content("Shop", 8080, true, "", "");
    assert_eq!(hive::dotenv::find_key(&bare, "APP_DESCRIPTION"), None);
    assert_eq!(hive::dotenv::find_key(&bare, "APP_AUTHOR"), None);
}

#[test]
fn gitignore_patch_appends_missing_entries() {
    assert_eq!(
        patch_gitignore(".hive/logs/\nnode_modules"),
        Some(".hive/logs/\nnode_modules\n\n# Hive CLI\n.hive/.secrets\n".to_string())
    );
}

#[test]
fn env_content_non_ascii_name_reads_back() {
    let got = build_env_content("Ärger Café", 4000, false, "d", "");
    assert_eq!(hive::dotenv::find_key(&got, "APP_NAME"), Some("Ärger Café".to_string()));
    assert_eq!(hive::dotenv::find_key(&got, "DB_DATABASE"), Some("ärger_café".to_string()));
    assert_eq!(hive::dotenv::find_key(&got, "APP_DESCRIPTION"), Some("d".to_string()));
    assert_eq!(hive::dotenv::find_key(&got, "APP_AUTHOR"), None);
}
