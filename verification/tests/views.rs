use hive::doctor::{doctor_verdict, tools, version_from_output, version_from_text, DoctorVerdict};
use hive::expose::{
    download_next, DownloadAction, DownloadStep,
    download_target, download_url, extract_url, extract_url_from, extracted_binary,
    find_plain_url, local_url, tunnel_line, tunnel_log_line,
};
use hive::logs::{classify_log_line, line_count, tail_lines, LogLine};
use hive::models::{HiveConfig, HiveError, ProjectConfig, RegistryEntry, RunScript, ServiceConfig};
use hive::paths::HivePath;
use hive::projects::{
    app_details, app_project_row, cd_line, cli_project_row, details_heading, port_suffix,
    registered_details, select_project, AppProject, Selected,
};
use hive::status::{
    classify_config_line, file_status, log_status, project_details, script_names, service_rows,
    ConfigLine,
};
use indexmap::IndexMap;

#[test]
fn download_urls() {
    assert!(download_url("windows", "x86").ends_with("cloudflared-windows-amd64.exe"));
    assert!(download_url("linux", "x86_64").ends_with("cloudflared-linux-amd64"));
    assert!(download_url("linux", "i686").ends_with("cloudflared-linux-386"));
    assert!(download_url("linux", "aarch64").ends_with("cloudflared-linux-arm64"));
    assert!(download_url("linux", "arm").ends_with("cloudflared-linux-arm"));
    assert!(download_url("macos", "arm64").ends_with("cloudflared-darwin-arm64.tgz"));
    assert!(download_url("macos", "x86_64").ends_with("cloudflared-darwin-amd64.tgz"));
    assert!(download_url("freebsd", "x86_64").ends_with("cloudflared-linux-amd64"));
    assert!(download_url("linux", "riscv64").ends_with("cloudflared-linux-amd64"));
}

#[test]
fn download_targets() {
    let dest = HivePath { root: "/h".into(), parts: vec![".hive".into(), "bin".into(), "cloudflared".into()] };
    let (p, tgz) = download_target(&dest, "https://x/cloudflared-darwin-arm64.tgz");
    assert!(tgz);
    assert_eq!(p.parts, vec![".hive", "bin", "cloudflared.tgz"]);
    assert_eq!(extracted_binary(&p).parts, vec![".hive", "bin", "cloudflared"]);
    let (p, tgz) = download_target(&dest, "https://x/cloudflared-linux-amd64");
    assert!(!tgz);
    assert_eq!(p.parts, dest.parts);
}

#[test]
fn tunnel_log_format() {
    assert_eq!(local_url(8080), "http://localhost:8080");
    assert_eq!(tunnel_log_line("2024-01-01 00:00:00", "up", false), "[2024-01-01 00:00:00] [INF] up");
    assert_eq!(tunnel_log_line("t", "bad", true), "[t] [ERR] bad");
}

#[test]
fn urls_from_plain_text() {
    let line = "2024 INF |  https://calm-river-1234.trycloudflare.com  |";
    assert_eq!(extract_url(line), Some("https://calm-river-1234.trycloudflare.com".to_string()));
    assert_eq!(find_plain_url("see https://a.cfargotunnel.com, ok"), Some("https://a.cfargotunnel.com".to_string()));
    assert_eq!(find_plain_url("https://example.com/x"), None);
    assert_eq!(find_plain_url("no url here"), None);
    assert_eq!(find_plain_url("\"https://x.trycloudflare.com\""), Some("https://x.trycloudflare.com".to_string()));
}

#[test]
fn urls_from_json() {
    let line = "  {\"level\":\"info\",\"url\":\"https://abc.trycloudflare.com\"}";
    assert_eq!(extract_url(line), Some("https://abc.trycloudflare.com".to_string()));
    let other = "{\"url\":\"https://example.com\"}";
    assert_eq!(extract_url(other), Some("https://example.com".to_string()));
    let not_https = "{\"url\":\"http://x.trycloudflare.com\"}";
    assert_eq!(extract_url(not_https), None);
    assert_eq!(extract_url("{not json"), None);
    assert_eq!(
        extract_url_from("{\"u\": 1}", Some("https://given".to_string())),
        Some("https://given".to_string())
    );
    assert_eq!(extract_url_from("plain https://given", Some("https://given".to_string())), None);
}

#[test]
fn tunnel_lines() {
    let t = tunnel_line("ERR Failed to connect", true);
    assert!(t.is_err);
    assert_eq!(t.url, None);
    let t = tunnel_line("ERR Failed to connect", false);
    assert!(!t.is_err);
    let t = tunnel_line("INF https://q.trycloudflare.com", true);
    assert!(!t.is_err);
    assert_eq!(t.url, Some("https://q.trycloudflare.com".to_string()));
}

#[test]
fn log_tail() {
    assert_eq!(line_count(None), 50);
    assert_eq!(line_count(Some(5)), 5);
    let content = "a\nb\nc\nd\n";
    assert_eq!(tail_lines(content, 2), vec!["c", "d"]);
    assert_eq!(tail_lines(content, 10), vec!["a", "b", "c", "d"]);
    assert!(tail_lines(content, 0).is_empty());
    assert!(tail_lines("", 3).is_empty());
}

#[test]
fn log_line_classes() {
    assert_eq!(classify_log_line("t t [web] [stderr] x"), LogLine::Stderr);
    assert_eq!(classify_log_line("╔═══"), LogLine::Banner);
    assert_eq!(classify_log_line("something ERROR here"), LogLine::Error);
    assert_eq!(classify_log_line("warning: x"), LogLine::Warn);
    assert_eq!(
        classify_log_line("2024-01-01 10:00:00 [web] listening"),
        LogLine::Labelled {
            stamp: "2024-01-01 10:00:00".into(),
            label: "[web]".into(),
            message: " listening".into()
        }
    );
    assert_eq!(
        classify_log_line("2024-01-01 10:00:00 plain text"),
        LogLine::Stamped { stamp: "2024-01-01 10:00:00".into(), rest: "plain text".into() }
    );
    assert_eq!(
        classify_log_line("d t [open"),
        LogLine::Stamped { stamp: "d t".into(), rest: "[open".into() }
    );
    assert_eq!(classify_log_line("one two"), LogLine::Plain);
    assert_eq!(classify_log_line(""), LogLine::Plain);
}

#[test]
fn doctor_tools_and_versions() {
    let ts = tools();
    assert_eq!(ts.len(), 11);
    assert_eq!(ts[8].name, "go");
    assert_eq!(ts[8].version_flag, "version");
    assert!(ts[10].required);
    assert_eq!(ts[10].name, "git");
    assert!(ts[..10].iter().all(|t| !t.required));
    assert_eq!(version_from_text("git version 2.43.0\nmore"), Some("2.43.0".to_string()));
    assert_eq!(version_from_text("v18.2.0\n"), Some("v18.2.0".to_string()));
    assert_eq!(version_from_text("  Python 3.12.1  "), Some("3.12.1".to_string()));
    assert_eq!(version_from_text(""), None);
    assert_eq!(version_from_output(b"go version go1.22.0 linux/amd64\n"), Some("go version go1.22.0 linux/amd64".to_string()));
    assert_eq!(version_from_output(b"npm 10.2.4\n"), Some("10.2.4".to_string()));
    assert_eq!(version_from_output(b"\xff 1.0\n"), Some("1.0".to_string()));
}

#[test]
fn doctor_verdicts() {
    let mut found = vec![true; 11];
    assert_eq!(doctor_verdict(&found), DoctorVerdict::Ready("11 tools found".into()));
    found[0] = false;
    found[5] = false;
    assert_eq!(doctor_verdict(&found), DoctorVerdict::Ready("9 tools found".into()));
    found[10] = false;
    assert_eq!(doctor_verdict(&found), DoctorVerdict::MissingRequired("Missing required tools: git".into()));
}

fn app(name: Option<&str>, path: Option<&str>, kind: Option<&str>, port: Option<u64>) -> AppProject {
    AppProject {
        name: name.map(|s| s.to_string()),
        path: path.map(|s| s.to_string()),
        kind: kind.map(|s| s.to_string()),
        port,
        fields: vec![("name".into(), name.unwrap_or("").to_string()), ("port".into(), "3000".into())],
    }
}

fn entry(name: &str, path: &str) -> RegistryEntry {
    RegistryEntry {
        name: name.into(),
        description: Some("Shop front".into()),
        framework: None,
        path: path.into(),
        port: Some(8000),
        created_at: "2024-05-01T10:00:00+00:00".into(),
        author: None,
    }
}

#[test]
fn project_rows() {
    assert_eq!(port_suffix(Some(3000)), ":3000");
    assert_eq!(port_suffix(None), "");
    let r = app_project_row(&app(Some("web"), None, Some("node"), Some(3000)));
    assert_eq!((r.name.as_str(), r.tag.as_str(), r.detail.as_str(), r.path.as_str()), ("web", "[node:3000]", "", "?"));
    let r = app_project_row(&app(None, Some("/p"), None, None));
    assert_eq!((r.name.as_str(), r.tag.as_str(), r.path.as_str()), ("?", "[]", "/p"));
    let r = cli_project_row(&entry("shop", "/w/shop"));
    assert_eq!((r.name.as_str(), r.tag.as_str(), r.detail.as_str(), r.path.as_str()), ("shop", "[?:8000]", "Shop front", "/w/shop"));
}

#[test]
fn selecting_projects() {
    let entries = vec![entry("shop", "/w/shop")];
    let apps = vec![app(Some("Blog"), Some("/a/blog"), None, None), app(None, Some("/a/x"), None, None)];
    assert_eq!(select_project(&entries, &apps, "SHO").unwrap(), Selected::Registered(0));
    assert_eq!(select_project(&entries, &apps, "blo").unwrap(), Selected::App(0));
    assert_eq!(cd_line(&entries, &apps, "shop").unwrap(), "cd \"/w/shop\"");
    assert_eq!(cd_line(&entries, &apps, "blog").unwrap(), "cd \"/a/blog\"");
    match cd_line(&entries, &apps, "zzz") {
        Err(HiveError::Project(m)) => assert_eq!(m, "No project matching 'zzz'"),
        other => panic!("unexpected {:?}", other),
    }
    assert_eq!(select_project(&vec![], &apps, "").unwrap(), Selected::App(0));
}

#[test]
fn project_details_shown() {
    let e = entry("shop", "/w/shop");
    let d = registered_details(&e);
    let labels: Vec<&str> = d.iter().map(|p| p.0.as_str()).collect();
    assert_eq!(labels, vec!["       Name", "Description", "       Port", "       Path", "    Created"]);
    assert_eq!(d[2].1, "8000");
    let a = app(Some("Blog"), None, None, None);
    let d = app_details(&a);
    assert_eq!(d[0].0, format!("{:>15}", "name"));
    assert_eq!(d[1], (format!("{:>15}", "port"), "3000".to_string()));
    let entries = vec![e];
    let apps = vec![a];
    assert_eq!(details_heading(&entries, &apps, &Selected::Registered(0)), "Project: shop");
    assert_eq!(details_heading(&entries, &apps, &Selected::App(0)), "Project: Blog  (Hive App)");
}

#[test]
fn status_views() {
    let mut services = IndexMap::new();
    services.insert("app".to_string(), ServiceConfig { port: Some(3000), command: Some("npm start".into()) });
    services.insert("docker".to_string(), ServiceConfig { port: None, command: None });
    let mut scripts = IndexMap::new();
    scripts.insert("start".to_string(), RunScript::Single("npm start".into()));
    scripts.insert("dev".to_string(), RunScript::Multiple(vec![]));
    let cfg = HiveConfig {
        project: ProjectConfig { name: "demo".into(), description: None, author: Some("Ann".into()), framework: Some("Node.js".into()) },
        services,
        scripts,
    };
    let d = project_details(&cfg);
    assert_eq!(d, vec![
        ("       Name".to_string(), "demo".to_string()),
        ("     Author".to_string(), "Ann".to_string()),
        ("  Framework".to_string(), "Node.js".to_string()),
    ]);
    assert_eq!(script_names(&cfg), vec!["start", "dev"]);
    assert_eq!(service_rows(&cfg), vec![
        ("app".to_string(), ":3000".to_string(), "npm start".to_string()),
        ("docker".to_string(), String::new(), String::new()),
    ]);
    assert_eq!(file_status(true), "✦  present");
    assert_eq!(file_status(false), "✗  missing");
    assert_eq!(log_status(true, Some(120)), "✦  120 bytes");
    assert_eq!(log_status(true, None), "✦  ");
    assert_eq!(log_status(false, Some(1)), "—  no runs yet");
}

#[test]
fn config_lines() {
    assert_eq!(classify_config_line("  # note"), ConfigLine::Comment);
    assert_eq!(
        classify_config_line("  name: demo: x"),
        ConfigLine::KeyValue { key: "  name".into(), value: " demo: x".into() }
    );
    assert_eq!(classify_config_line("  - npm run dev"), ConfigLine::Plain);
    assert_eq!(classify_config_line("plain"), ConfigLine::Plain);
}

#[test]
fn download_steps() {
    assert!(matches!(download_next(DownloadStep::Curl, true, false), DownloadAction::Done));
    assert!(matches!(download_next(DownloadStep::Curl, true, true), DownloadAction::Run(DownloadStep::Extract)));
    assert!(matches!(download_next(DownloadStep::Curl, false, true), DownloadAction::Run(DownloadStep::Wget)));
    assert!(matches!(download_next(DownloadStep::Wget, true, true), DownloadAction::Run(DownloadStep::Extract)));
    match download_next(DownloadStep::Wget, false, false) {
        DownloadAction::Fail(HiveError::Process(m)) => {
            assert_eq!(m, "Could not download cloudflared. Install curl or wget, or download manually.")
        }
        other => panic!("unexpected {:?}", other),
    }
    assert!(matches!(download_next(DownloadStep::Extract, true, true), DownloadAction::Done));
    match download_next(DownloadStep::Extract, false, true) {
        DownloadAction::Fail(HiveError::Process(m)) => assert_eq!(m, "Failed to extract cloudflared archive"),
        other => panic!("unexpected {:?}", other),
    }
}
