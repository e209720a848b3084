use replcheck::pattern::matchit;

fn lines(xs: &[&str]) -> Vec<String> {
    xs.iter().map(|x| x.to_string()).collect()
}

#[test]
fn exact_match() {
    let r = matchit(&lines(&["a", "b"]), &lines(&["a", "b"]));
    assert!(matches!(r, Ok(None)));
}

#[test]
fn mismatch_pinpointing() {
    let r = matchit(&lines(&["a", "b"]), &lines(&["a", "x"]));
    let e = r.unwrap_err();
    assert_eq!(e.expected.as_deref(), Some("b"));
    assert_eq!(e.got.as_deref(), Some("x"));
}

#[test]
fn missing_line_reports_end_of_input() {
    let r = matchit(&lines(&["a", "b"]), &lines(&["a"]));
    let e = r.unwrap_err();
    assert_eq!(e.expected.as_deref(), Some("b"));
    assert_eq!(e.got, None);
}

#[test]
fn skip_hole_absorbs_arbitrary_count() {
    let r = matchit(&lines(&["a", "...", "z"]), &lines(&["a", "p", "q", "z"]));
    assert!(matches!(r, Ok(None)));
}

#[test]
fn skip_hole_absorbs_zero_lines() {
    let r = matchit(&lines(&["a", "...", "z"]), &lines(&["a", "z"]));
    assert!(matches!(r, Ok(None)));
}

#[test]
fn capture_hole_rewrites() {
    let r = matchit(&lines(&["a", "???", "z"]), &lines(&["a", "p", "q", "z"]));
    let u = r.unwrap().unwrap();
    assert_eq!(u, lines(&["a", "p", "q", "z"]));
}

#[test]
fn capture_hole_of_zero_lines_still_rewrites() {
    let r = matchit(&lines(&["a", "???", "z"]), &lines(&["a", "z"]));
    let u = r.unwrap().unwrap();
    assert_eq!(u, lines(&["a", "z"]));
}

#[test]
fn minimal_consumption_tie_break() {
    let r = matchit(&lines(&["...", "b", "...", "b"]), &lines(&["b", "b", "b"]));
    assert!(matches!(r, Ok(None)));
}

#[test]
fn unconsumed_trailing_input_fails() {
    let r = matchit(&lines(&["a"]), &lines(&["a", "extra"]));
    let e = r.unwrap_err();
    assert_eq!(e.expected, None);
    assert_eq!(e.got.as_deref(), Some("extra"));
}

#[test]
fn trailing_whitespace_is_ignored() {
    let r = matchit(&lines(&["a  ", "b"]), &lines(&["a", "b\t"]));
    assert!(matches!(r, Ok(None)));
}

#[test]
fn leading_whitespace_is_significant() {
    let r = matchit(&lines(&["  a"]), &lines(&["a"]));
    let e = r.unwrap_err();
    assert_eq!(e.expected.as_deref(), Some("  a"));
    assert_eq!(e.got.as_deref(), Some("a"));
}

#[test]
fn hole_markers_may_carry_whitespace() {
    let r = matchit(&lines(&["a", "  ...  ", "z"]), &lines(&["a", "p", "z"]));
    assert!(matches!(r, Ok(None)));
}

#[test]
fn skip_markers_survive_in_capture_rewrite() {
    // The `...` line is kept verbatim in the replacement; only `???` changes.
    let r = matchit(
        &lines(&["a", "...", "m", "???", "z"]),
        &lines(&["a", "x", "m", "p", "z"]),
    );
    let u = r.unwrap().unwrap();
    assert_eq!(u, lines(&["a", "...", "m", "p", "z"]));
}

#[test]
fn capture_holes_are_lazy() {
    // The first hole takes as little as possible: "b" between the holes
    // matches the first "b" of the input.
    let r = matchit(&lines(&["???", "b", "???"]), &lines(&["b", "b", "b"]));
    let u = r.unwrap().unwrap();
    assert_eq!(u, lines(&["b", "b", "b"]));
}

#[test]
fn empty_pattern_empty_input() {
    let r = matchit(&lines(&[]), &lines(&[]));
    assert!(matches!(r, Ok(None)));
}

#[test]
fn empty_pattern_rejects_input() {
    let r = matchit(&lines(&[]), &lines(&["x"]));
    let e = r.unwrap_err();
    assert_eq!(e.expected, None);
    assert_eq!(e.got.as_deref(), Some("x"));
}

#[test]
fn lone_skip_hole_accepts_anything() {
    let r = matchit(&lines(&["..."]), &lines(&["x", "y", "z"]));
    assert!(matches!(r, Ok(None)));
}

#[test]
fn lone_capture_hole_captures_everything() {
    let r = matchit(&lines(&["???"]), &lines(&["x", "y", "z"]));
    let u = r.unwrap().unwrap();
    assert_eq!(u, lines(&["x", "y", "z"]));
}

#[test]
fn failure_reports_deepest_attempt() {
    // No split lets "z" match; the reported failure is from the last split,
    // where the hole consumed everything and "z" met the end of the input.
    let r = matchit(&lines(&["...", "z"]), &lines(&["a", "b"]));
    let e = r.unwrap_err();
    assert_eq!(e.expected.as_deref(), Some("z"));
    assert_eq!(e.got, None);
}
