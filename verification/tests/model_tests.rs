use replcheck::model::{get_sessions, session_name_of, ConfigError, PromptMode, RawBlock};

fn strings(xs: &[&str]) -> Vec<String> {
    xs.iter().map(|x| x.to_string()).collect()
}

fn attrs(xs: &[(&str, &str)]) -> Vec<(String, String)> {
    xs.iter().map(|(k, v)| (k.to_string(), v.to_string())).collect()
}

fn block(classes: &[&str], a: &[(&str, &str)], code: &[&str]) -> RawBlock {
    RawBlock { classes: strings(classes), attrs: attrs(a), code_lines: strings(code) }
}

#[test]
fn session_name_from_classes() {
    assert_eq!(session_name_of(&strings(&["repl-demo"])).as_deref(), Some("demo"));
    assert_eq!(session_name_of(&strings(&["other", "repl-x"])).as_deref(), Some("x"));
    assert_eq!(session_name_of(&strings(&["plain"])), None);
    assert_eq!(session_name_of(&strings(&[])), None);
}

#[test]
fn one_session_one_block() {
    let blocks = vec![block(
        &["repl-s1"],
        &[("cmd", "sh"), ("prompt", "\\$ ")],
        &["$ echo hi", "hi"],
    )];
    let sessions = get_sessions(&blocks).unwrap();
    assert_eq!(sessions.len(), 1);
    assert_eq!(sessions[0].name, "s1");
    assert_eq!(sessions[0].shell_cmd, "sh");
    assert_eq!(sessions[0].blocks.len(), 1);
    assert_eq!(sessions[0].blocks[0].prompt, "\\$ ");
    assert_eq!(sessions[0].blocks[0].prompt_char, ":");
    assert_eq!(sessions[0].blocks[0].prompt_mode, PromptMode::Flexible);
    assert_eq!(sessions[0].blocks[0].expected, strings(&["$ echo hi", "hi"]));
}

#[test]
fn blocks_without_repl_class_are_skipped() {
    let blocks = vec![
        block(&["rust"], &[("cmd", "sh")], &["fn main() {}"]),
        block(&["repl-s1"], &[("cmd", "sh"), ("prompt", "> ")], &[]),
    ];
    let sessions = get_sessions(&blocks).unwrap();
    assert_eq!(sessions.len(), 1);
    assert_eq!(sessions[0].name, "s1");
}

#[test]
fn missing_cmd_is_fatal() {
    let blocks = vec![block(&["repl-s1"], &[("prompt", "> ")], &[])];
    let e = get_sessions(&blocks).unwrap_err();
    assert_eq!(e, ConfigError::MissingCmd { session: "s1".to_string() });
}

#[test]
fn missing_prompt_is_fatal() {
    let blocks = vec![block(&["repl-s1"], &[("cmd", "sh")], &[])];
    let e = get_sessions(&blocks).unwrap_err();
    assert_eq!(e, ConfigError::MissingPrompt { session: "s1".to_string() });
}

#[test]
fn bad_prompt_regex_is_fatal() {
    let blocks = vec![block(&["repl-s1"], &[("cmd", "sh"), ("prompt", "(")], &[])];
    let e = get_sessions(&blocks).unwrap_err();
    assert_eq!(
        e,
        ConfigError::BadPromptRegex { session: "s1".to_string(), pattern: "(".to_string() }
    );
}

#[test]
fn duplicate_cmd_is_fatal() {
    let blocks = vec![
        block(&["repl-s1"], &[("cmd", "sh"), ("prompt", "> ")], &[]),
        block(&["repl-s1"], &[("cmd", "bash")], &[]),
    ];
    let e = get_sessions(&blocks).unwrap_err();
    assert_eq!(
        e,
        ConfigError::DuplicateCmd { session: "s1".to_string(), cmd: "bash".to_string() }
    );
}

#[test]
fn later_blocks_inherit_prompt_settings() {
    let blocks = vec![
        block(
            &["repl-s1"],
            &[("cmd", "sh"), ("prompt", "> "), ("prompt_char", ";"), ("prompt_mode", "updatable")],
            &["> a"],
        ),
        block(&["repl-s1"], &[], &["> b"]),
        block(&["repl-s1"], &[("prompt", ">> "), ("prompt_mode", "flexible")], &[">> c"]),
    ];
    let sessions = get_sessions(&blocks).unwrap();
    assert_eq!(sessions.len(), 1);
    let s = &sessions[0];
    assert_eq!(s.blocks.len(), 3);
    assert_eq!(s.blocks[1].prompt, "> ");
    assert_eq!(s.blocks[1].prompt_char, ";");
    assert_eq!(s.blocks[1].prompt_mode, PromptMode::Updatable);
    assert_eq!(s.blocks[2].prompt, ">> ");
    assert_eq!(s.blocks[2].prompt_char, ";");
    assert_eq!(s.blocks[2].prompt_mode, PromptMode::Flexible);
}

#[test]
fn two_sessions_stay_separate() {
    let blocks = vec![
        block(&["repl-a"], &[("cmd", "sh"), ("prompt", "> ")], &[]),
        block(&["repl-b"], &[("cmd", "python"), ("prompt", ">>> ")], &[]),
        block(&["repl-a"], &[], &["> x"]),
    ];
    let sessions = get_sessions(&blocks).unwrap();
    assert_eq!(sessions.len(), 2);
    assert_eq!(sessions[0].name, "a");
    assert_eq!(sessions[0].blocks.len(), 2);
    assert_eq!(sessions[1].name, "b");
    assert_eq!(sessions[1].blocks.len(), 1);
}

#[test]
fn prompt_mode_fixed_is_recognized() {
    let blocks = vec![block(
        &["repl-s1"],
        &[("cmd", "sh"), ("prompt", "> "), ("prompt_mode", "fixed")],
        &[],
    )];
    let sessions = get_sessions(&blocks).unwrap();
    assert_eq!(sessions[0].blocks[0].prompt_mode, PromptMode::Fixed);
}

#[test]
fn unknown_prompt_mode_means_flexible() {
    let blocks = vec![block(
        &["repl-s1"],
        &[("cmd", "sh"), ("prompt", "> "), ("prompt_mode", "odd")],
        &[],
    )];
    let sessions = get_sessions(&blocks).unwrap();
    assert_eq!(sessions[0].blocks[0].prompt_mode, PromptMode::Flexible);
}

#[test]
fn split_lines_at_newlines() {
    assert_eq!(replcheck::model::split_lines("a\nb"), vec!["a", "b"]);
    assert_eq!(replcheck::model::split_lines("a\nb\n"), vec!["a", "b"]);
    assert_eq!(replcheck::model::split_lines("a\r\nb\r\n"), vec!["a", "b"]);
    assert_eq!(replcheck::model::split_lines(""), Vec::<String>::new());
    assert_eq!(replcheck::model::split_lines("\n"), vec![""]);
    assert_eq!(replcheck::model::split_lines("x"), vec!["x"]);
}

#[test]
fn join_lines_with_newlines() {
    let lines: Vec<String> = vec!["a".to_string(), "b".to_string()];
    assert_eq!(replcheck::common::join_lines(&lines), "a\nb");
    assert_eq!(replcheck::common::join_lines(&Vec::new()), "");
    assert_eq!(replcheck::common::join_lines(&vec!["x".to_string()]), "x");
}
