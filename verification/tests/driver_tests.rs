use replcheck::common::LinesCow;
use replcheck::driver::{repl_block_to_cmd_invocations, BlockRun, ExpectedPrompt, PromptRequest};
use replcheck::model::{get_sessions, PromptMode, RawBlock, ReplBlock};

fn strings(xs: &[&str]) -> Vec<String> {
    xs.iter().map(|x| x.to_string()).collect()
}

fn shell_block(mode: PromptMode, code: &[&str]) -> ReplBlock {
    ReplBlock {
        prompt: "\\$ ".to_string(),
        prompt_char: ":".to_string(),
        prompt_mode: mode,
        expected: strings(code),
    }
}

#[test]
fn lines_cow_stays_borrowed_without_owned_pushes() {
    let mut buf = LinesCow::new();
    buf.push_borrowed(&strings(&["a", "b"]));
    buf.push_borrowed(&strings(&["c"]));
    assert!(buf.maybe_owned().is_none());
}

#[test]
fn lines_cow_one_owned_push_promotes_for_good() {
    let mut buf = LinesCow::new();
    buf.push_borrowed(&strings(&["a"]));
    buf.push_owned(&strings(&["b"]));
    buf.push_borrowed(&strings(&["c"]));
    let owned = buf.maybe_owned().unwrap();
    assert_eq!(owned, strings(&["a", "b", "c"]));
}

#[test]
fn derivation_splits_on_prompt_lines() {
    let block = shell_block(PromptMode::Flexible, &["pre", "$ echo hi", "hi", "hi2"]);
    let ci = repl_block_to_cmd_invocations(&block);
    assert_eq!(ci.initial_output, strings(&["pre"]));
    assert_eq!(ci.invocations.len(), 1);
    assert_eq!(ci.invocations[0].cmd, "echo hi");
    assert_eq!(ci.invocations[0].entire_prompt_line, "$ echo hi");
    assert_eq!(ci.invocations[0].expected_output, strings(&["hi", "hi2"]));
    assert_eq!(ci.invocations[0].prompt, ExpectedPrompt::Flexible);
}

#[test]
fn derivation_trims_the_command() {
    let block = shell_block(PromptMode::Flexible, &["$   echo hi  "]);
    let ci = repl_block_to_cmd_invocations(&block);
    assert_eq!(ci.invocations[0].cmd, "echo hi");
}

#[test]
fn derivation_fixed_mode_keeps_document_prompt() {
    let block = shell_block(PromptMode::Fixed, &["$ ls"]);
    let ci = repl_block_to_cmd_invocations(&block);
    assert_eq!(ci.invocations[0].prompt, ExpectedPrompt::Fixed("$ ".to_string()));
}

#[test]
fn shell_session_verifies_unchanged() {
    // The transcript `$ echo hi` / `hi` / `$ `, fed with the output a shell
    // that echoes `hi` would produce, verifies with no update.
    let block = shell_block(PromptMode::Flexible, &["$ echo hi", "hi", "$ "]);
    let mut run = BlockRun::new(&block);

    let req = run.next_request().unwrap();
    assert_eq!(req, PromptRequest::Pattern("\\$ ".to_string()));
    let cmd = run.feed(&strings(&[]), &"$ ".to_string()).unwrap();
    assert_eq!(cmd, "echo hi");

    assert!(run.next_request().is_some());
    let cmd = run.feed(&strings(&["hi"]), &"$ ".to_string()).unwrap();
    assert_eq!(cmd, "");

    assert!(run.next_request().is_none());
    assert!(run.finish().is_none());
}

#[test]
fn shell_session_reports_wrong_output() {
    // The same transcript against a shell that prints `HI` fails, naming the
    // expected and the observed line.
    let block = shell_block(PromptMode::Flexible, &["$ echo hi", "hi", "$ "]);
    let mut run = BlockRun::new(&block);

    run.feed(&strings(&[]), &"$ ".to_string()).unwrap();
    let e = run.feed(&strings(&["HI"]), &"$ ".to_string()).unwrap_err();
    assert_eq!(e.expected.as_deref(), Some("hi"));
    assert_eq!(e.got.as_deref(), Some("HI"));
}

#[test]
fn updatable_prompt_rewrites_the_prompt_line() {
    // A numbered prompt under `updatable` mode: the observed prompt `[2]: `
    // replaces the recorded `[1]: `, the output line `4` stays.
    let blocks = vec![RawBlock {
        classes: strings(&["repl-calc"]),
        attrs: vec![
            ("cmd".to_string(), "calc".to_string()),
            ("prompt".to_string(), "\\[\\d+\\]: ".to_string()),
            ("prompt_mode".to_string(), "updatable".to_string()),
        ],
        code_lines: strings(&["[1]: 2+2", "4"]),
    }];
    let sessions = get_sessions(&blocks).unwrap();
    let mut run = BlockRun::new(&sessions[0].blocks[0]);

    let req = run.next_request().unwrap();
    assert_eq!(req, PromptRequest::Pattern("\\[\\d+\\]: ".to_string()));
    let cmd = run.feed(&strings(&[]), &"[2]: ".to_string()).unwrap();
    assert_eq!(cmd, "2+2");

    assert!(run.next_request().is_none());
    let replacement = run.finish().unwrap();
    assert_eq!(replacement, strings(&["[2]: 2+2", "4"]));
}

#[test]
fn capture_hole_in_output_rewrites_the_block() {
    let block = shell_block(PromptMode::Flexible, &["$ date", "???", "$ "]);
    let mut run = BlockRun::new(&block);

    run.feed(&strings(&[]), &"$ ".to_string()).unwrap();
    run.feed(&strings(&["Mon 1 Jan"]), &"$ ".to_string()).unwrap();
    let replacement = run.finish().unwrap();
    assert_eq!(replacement, strings(&["$ date", "Mon 1 Jan", "$ "]));
}

#[test]
fn block_without_commands_never_changes() {
    let block = shell_block(PromptMode::Flexible, &["just", "text"]);
    let mut run = BlockRun::new(&block);
    assert!(run.next_request().is_none());
    assert!(run.finish().is_none());
}

#[test]
fn failed_feed_leaves_the_run_reusable() {
    let block = shell_block(PromptMode::Flexible, &["$ echo hi", "hi", "$ "]);
    let mut run = BlockRun::new(&block);
    run.feed(&strings(&[]), &"$ ".to_string()).unwrap();
    assert!(run.feed(&strings(&["no"]), &"$ ".to_string()).is_err());
    // The run is unchanged by the failure: the same feed with the right
    // output still goes through.
    let cmd = run.feed(&strings(&["hi"]), &"$ ".to_string()).unwrap();
    assert_eq!(cmd, "");
}
