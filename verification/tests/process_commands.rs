use hive::commands::{
    config_action, env_action, projects_action, scripts_action, secrets_action, ConfigAction,
    ConfigCommands, EnvAction, EnvCommands, ProjectsAction, ProjectsCommands, ScriptsAction,
    ScriptsCommands, SecretsAction, SecretsCommands,
};
use hive::completion::{completion_shell, install_hint, print_install_hint, shell_from_lower, Shell};
use hive::models::HiveError;
use hive::process::{color_index, log_line, process_labels, session_header, shell_words, should_stop_all};

#[test]
fn shell_words_split_and_quote() {
    assert_eq!(shell_words("npm run dev"), vec!["npm", "run", "dev"]);
    assert_eq!(shell_words("  a   b  "), vec!["a", "b"]);
    assert_eq!(shell_words("echo \"hello world\" 'x y'"), vec!["echo", "hello world", "x y"]);
    assert_eq!(shell_words("say \"it's\""), vec!["say", "it's"]);
    assert_eq!(shell_words("a\tb"), vec!["a\tb"]);
    assert!(shell_words("").is_empty());
    assert!(shell_words("\"\"").is_empty());
}

#[test]
fn labels_are_distinct() {
    let cmds = vec!["npm run dev".to_string(), "npm run worker".to_string(), "".to_string()];
    let ls = process_labels(&cmds);
    assert_eq!(ls[0].0, "npm:1");
    assert_eq!(ls[1].0, "npm:2");
    assert_eq!(ls[2].0, "proc:3");
    assert_ne!(ls[0].0, ls[1].0);
}

#[test]
fn labels_past_nine() {
    let cmds: Vec<String> = (0..12).map(|_| "x:1".to_string()).collect();
    let ls = process_labels(&cmds);
    assert_eq!(ls[0].0, "x:1:1");
    assert_eq!(ls[10].0, "x:1:11");
    assert_eq!(ls[11].0, "x:1:12");
    for i in 0..ls.len() {
        for j in 0..ls.len() {
            if i != j {
                assert_ne!(ls[i].0, ls[j].0);
            }
        }
    }
}

#[test]
fn run_log_lines() {
    assert_eq!(log_line("2024-01-01 10:00:00", "web", "ready", false), "2024-01-01 10:00:00 [web] ready\n");
    assert_eq!(log_line("t", "web", "oops", true), "t [web] [stderr] oops\n");
    assert_eq!(
        session_header("T", "dev"),
        "\n╔══════════════════════════════════════╗\n║  T — script: dev  \n╚══════════════════════════════════════╝\n"
    );
}

#[test]
fn colours_and_stopping() {
    assert_eq!(color_index(0), 0);
    assert_eq!(color_index(7), 1);
    assert!(should_stop_all(false, false));
    assert!(!should_stop_all(true, false));
    assert!(!should_stop_all(false, true));
}

#[test]
fn actions_default_to_listing() {
    assert_eq!(env_action(None), EnvAction::List);
    assert_eq!(
        env_action(Some(EnvCommands::SetValue { key: "K".into(), value: "V".into() })),
        EnvAction::SetValue("K".into(), "V".into())
    );
    assert_eq!(env_action(Some(EnvCommands::Unset { key: "K".into() })), EnvAction::Unset("K".into()));
    assert_eq!(secrets_action(None), SecretsAction::List);
    assert_eq!(secrets_action(Some(SecretsCommands::Export)), SecretsAction::Export);
    assert_eq!(secrets_action(Some(SecretsCommands::Get { key: "A".into() })), SecretsAction::Get("A".into()));
    assert_eq!(projects_action(None), ProjectsAction::List);
    assert_eq!(projects_action(Some(ProjectsCommands::Info { query: "q".into() })), ProjectsAction::Info("q".into()));
    assert_eq!(scripts_action(None), ScriptsAction::List);
    assert_eq!(
        scripts_action(Some(ScriptsCommands::Add { name: "n".into(), command: "c".into() })),
        ScriptsAction::Add("n".into(), "c".into())
    );
    assert_eq!(config_action(None), ConfigAction::Show);
    assert_eq!(
        config_action(Some(ConfigCommands::SetValue { key: "project.name".into(), value: "x".into() })),
        ConfigAction::SetValue("project.name".into(), "x".into())
    );
}

#[test]
fn completion_shells() {
    assert_eq!(completion_shell("bash").unwrap(), Shell::Bash);
    assert_eq!(completion_shell("ZSH").unwrap(), Shell::Zsh);
    assert_eq!(completion_shell("Fish").unwrap(), Shell::Fish);
    assert_eq!(completion_shell("PS").unwrap(), Shell::PowerShell);
    assert_eq!(shell_from_lower("powershell").unwrap(), Shell::PowerShell);
    match completion_shell("Tcsh") {
        Err(HiveError::Config(m)) => assert_eq!(m, "Unknown shell 'tcsh'. Supported: bash, zsh, fish, powershell"),
        other => panic!("unexpected {:?}", other),
    }
}

#[test]
fn install_hints() {
    assert_eq!(
        print_install_hint("Bash"),
        vec![
            ("→".to_string(), "Add to ~/.bashrc:".to_string()),
            (" ".to_string(), "  eval \"$(hive completion bash)\"".to_string()),
        ]
    );
    assert_eq!(install_hint("fish")[1].1, "  hive completion fish > ~/.config/fish/completions/hive.fish");
    assert!(print_install_hint("powershell").is_empty());
}

#[test]
fn plain_words_round_trip() {
    let ws = vec!["php".to_string(), "artisan".to_string(), "queue:listen".to_string()];
    assert_eq!(shell_words(&ws.join(" ")), ws);
    let one = vec!["cargo".to_string()];
    assert_eq!(shell_words(&one.join(" ")), one);
    let none: Vec<String> = vec![];
    assert_eq!(shell_words(&none.join(" ")), none);
}
