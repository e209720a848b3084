//! Matching and updating of expected command output against actual output.
//!
//! Both the expected and the actual output are given as lists of lines, and
//! everything is compared modulo trailing whitespace:
//! - every line which does not trim to `...` or `???` must match exactly;
//! - a line that trims to `...` (a skip hole) matches any number of arbitrary
//!   lines and is never rewritten;
//! - a line that trims to `???` (a capture hole) matches any number of
//!   arbitrary lines and the expected lines are rewritten with the lines the
//!   hole consumed.
//!
//! Holes are lazy: each hole consumes the smallest number of lines that lets
//! the rest of the pattern match. Capture holes are resolved first, splitting
//! the pattern around them; skip holes are resolved inside the pieces.

use vstd::prelude::*;

verus! {

/// The mathematical shape of a match failure: the expected line (or end of
/// input) and the line that was found (or end of input).
pub struct MatchFailure {
    pub expected: Option<Seq<char>>,
    pub got: Option<Seq<char>>,
}

/// A failed match, pinpointing the offending line. `expected` is the expected
/// line, or `None` for "expected end of input"; `got` is the actual line, or
/// `None` for "got end of input".
#[derive(Debug, Clone, PartialEq, Eq)]
pub struct ParseError {
    pub expected: Option<String>,
    pub got: Option<String>,
}

impl View for ParseError {
    type V = MatchFailure;

    open spec fn view(&self) -> MatchFailure {
        MatchFailure { expected: self.expected.deep_view(), got: self.got.deep_view() }
    }
}

/// What `str::trim` returns: the characters with leading and trailing
/// whitespace removed. A function of the characters alone.
pub uninterp spec fn trim_of(s: Seq<char>) -> Seq<char>;

/// What `str::trim_end` returns: the characters with trailing whitespace
/// removed. A function of the characters alone.
pub uninterp spec fn trim_end_of(s: Seq<char>) -> Seq<char>;

/// Relies on str::trim: removes leading and trailing whitespace, and the
/// result depends on the characters alone.
#[verifier::external_body]
pub(crate) fn trim(s: &String) -> (r: String)
    ensures
        r@ == trim_of(s@),
{
    s.trim().to_string()
}

/// Relies on str::trim_end: removes trailing whitespace, and the result
/// depends on the characters alone.
#[verifier::external_body]
fn trim_end(s: &String) -> (r: String)
    ensures
        r@ == trim_end_of(s@),
{
    s.trim_end().to_string()
}

/// Two lines are considered equal when they agree up to trailing whitespace.
pub open spec fn line_eq(a: Seq<char>, b: Seq<char>) -> bool {
    trim_end_of(a) == trim_end_of(b)
}

/// The literal that marks a hole of the given kind.
pub open spec fn hole_marker(capture: bool) -> Seq<char> {
    if capture {
        "???"@
    } else {
        "..."@
    }
}

/// Whether `line` is a hole of the given kind: it trims to the marker.
pub open spec fn is_hole(line: Seq<char>, capture: bool) -> bool {
    trim_of(line) == hole_marker(capture)
}

/// The index of the first hole of the given kind in `expected`, or
/// `expected.len()` if there is none.
pub open spec fn find_hole(expected: Seq<Seq<char>>, capture: bool) -> nat
    decreases expected.len(),
{
    if expected.len() == 0 {
        0
    } else if is_hole(expected[0], capture) {
        0
    } else {
        1 + find_hole(expected.drop_first(), capture)
    }
}

/// Whether `expected` contains a capture hole anywhere.
pub open spec fn has_capture_hole(expected: Seq<Seq<char>>) -> bool {
    find_hole(expected, true) < expected.len()
}

/// Any index with the first-hole characterization is `find_hole`.
pub proof fn lemma_find_hole_is(expected: Seq<Seq<char>>, capture: bool, k: int)
    requires
        0 <= k <= expected.len(),
        forall|j: int| 0 <= j < k ==> !is_hole(expected[j], capture),
        k < expected.len() ==> is_hole(expected[k], capture),
    ensures
        find_hole(expected, capture) == k,
    decreases expected.len(),
{
    if expected.len() == 0 {
    } else if is_hole(expected[0], capture) {
        assert(k == 0);
    } else {
        assert(k >= 1);
        assert forall|j: int| 0 <= j < k - 1 implies !is_hole(
            expected.drop_first()[j],
            capture,
        ) by {
            assert(expected.drop_first()[j] == expected[j + 1]);
        }
        if k < expected.len() {
            assert(expected.drop_first()[k - 1] == expected[k]);
        }
        lemma_find_hole_is(expected.drop_first(), capture, k - 1);
    }
}

/// Exact line-by-line matching of `expected` against a prefix of `actual`.
/// On success the value is the unconsumed suffix of `actual`; on failure it
/// pinpoints the offending line.
pub open spec fn match_lines_spec(expected: Seq<Seq<char>>, actual: Seq<Seq<char>>) -> Result<
    Seq<Seq<char>>,
    MatchFailure,
>
    decreases expected.len(),
{
    if expected.len() == 0 {
        Ok(actual)
    } else if actual.len() == 0 {
        Err(MatchFailure { expected: Some(expected[0]), got: None })
    } else if line_eq(expected[0], actual[0]) {
        match_lines_spec(expected.drop_first(), actual.drop_first())
    } else {
        Err(MatchFailure { expected: Some(expected[0]), got: Some(actual[0]) })
    }
}

/// One-kind hole resolution, the shared shape of both passes. With `capture`
/// the pattern is split on `???` holes and the pieces go through the skip
/// pass; without it the pattern is split on `...` holes and the pieces are
/// matched exactly. With `consume_all` the match only succeeds when it
/// consumes the whole of `actual`: the piece before a hole is matched
/// without it, and the piece after the hole inherits it, so the demand lands
/// on the exact match after the last hole. On success the value is the
/// unconsumed suffix of `actual` together with the reconciled replacement
/// lines: expected lines verbatim, except that each capture hole is replaced
/// by the lines it consumed.
pub open spec fn with_holes_spec(
    capture: bool,
    consume_all: bool,
    expected: Seq<Seq<char>>,
    actual: Seq<Seq<char>>,
) -> Result<(Seq<Seq<char>>, Seq<Seq<char>>), MatchFailure>
    decreases expected.len(), (if capture { 1int } else { 0int }), 0int,
{
    let h = find_hole(expected, capture) as int;
    if h >= expected.len() {
        if capture {
            with_holes_spec(false, consume_all, expected, actual)
        } else {
            match match_lines_spec(expected, actual) {
                Ok(rest) => if consume_all && rest.len() > 0 {
                    Err(MatchFailure { expected: None, got: Some(rest[0]) })
                } else {
                    Ok((rest, expected))
                },
                Err(f) => Err(f),
            }
        }
    } else {
        let before = expected.subrange(0, h);
        let after = expected.subrange(h + 1, expected.len() as int);
        let b = if capture {
            with_holes_spec(false, false, before, actual)
        } else {
            match match_lines_spec(before, actual) {
                Ok(rest) => Ok((rest, before)),
                Err(f) => Err(f),
            }
        };
        match b {
            Ok((leftover, upd_before)) => try_splits_spec(
                capture,
                consume_all,
                upd_before,
                expected[h],
                after,
                leftover,
                0,
            ),
            Err(f) => Err(f),
        }
    }
}

/// The split search for one hole: try to give the hole `i` lines of
/// `leftover`, then `i + 1`, and so on; the first success wins, so the hole
/// consumes as few lines as possible. If every split fails, the failure is
/// the one of the last split tried. The hole contributes the lines it
/// consumed to the replacement when capturing, and its own literal line when
/// skipping.
pub open spec fn try_splits_spec(
    capture: bool,
    consume_all: bool,
    upd_before: Seq<Seq<char>>,
    hole_line: Seq<char>,
    after: Seq<Seq<char>>,
    leftover: Seq<Seq<char>>,
    i: int,
) -> Result<(Seq<Seq<char>>, Seq<Seq<char>>), MatchFailure>
    decreases after.len(), 2int, leftover.len() - i + 1,
{
    let content = if capture {
        leftover.subrange(0, i)
    } else {
        seq![hole_line]
    };
    let r = with_holes_spec(capture, consume_all, after, leftover.subrange(i, leftover.len() as int));
    match r {
        Ok((rest, upd_after)) => Ok((rest, upd_before + content + upd_after)),
        Err(f) => if i >= leftover.len() {
            Err(f)
        } else {
            try_splits_spec(capture, consume_all, upd_before, hole_line, after, leftover, i + 1)
        },
    }
}

/// The whole match of a pattern against an actual output: resolve capture
/// holes (and skip holes inside the pieces), then require that the actual
/// output is consumed completely. `Ok(None)` means the output satisfies the
/// pattern and no capture hole is present; `Ok(Some(lines))` means it is
/// satisfied and `lines` is the reconciled replacement for the whole pattern.
pub open spec fn matchit_spec(expected: Seq<Seq<char>>, actual: Seq<Seq<char>>) -> Result<
    Option<Seq<Seq<char>>>,
    MatchFailure,
> {
    match with_holes_spec(true, true, expected, actual) {
        Ok((rest, upd)) => if rest.len() > 0 {
            Err(MatchFailure { expected: None, got: Some(rest[0]) })
        } else if has_capture_hole(expected) {
            Ok(Some(upd))
        } else {
            Ok(None)
        },
        Err(f) => Err(f),
    }
}

/// Skip holes never change the document: when the skip pass succeeds, the
/// replacement it reports is the expected lines themselves, markers included.
pub proof fn lemma_skip_pass_keeps_expected(
    consume_all: bool,
    expected: Seq<Seq<char>>,
    actual: Seq<Seq<char>>,
)
    ensures
        with_holes_spec(false, consume_all, expected, actual) matches Ok(ru) ==> ru.1 == expected,
    decreases expected.len(), 0int, 0int,
{
    let h = find_hole(expected, false) as int;
    if h < expected.len() {
        let before = expected.subrange(0, h);
        let after = expected.subrange(h + 1, expected.len() as int);
        match match_lines_spec(before, actual) {
            Ok(leftover) => {
                lemma_skip_splits(consume_all, before, expected[h], after, leftover, 0);
                assert(before + seq![expected[h]] + after =~= expected);
            },
            Err(_) => {},
        }
    }
}

/// The split search of the skip pass combines the expected pieces and the
/// hole's own line, whatever split it settles on.
proof fn lemma_skip_splits(
    consume_all: bool,
    upd_before: Seq<Seq<char>>,
    hole_line: Seq<char>,
    after: Seq<Seq<char>>,
    leftover: Seq<Seq<char>>,
    i: int,
)
    requires
        0 <= i,
    ensures
        try_splits_spec(false, consume_all, upd_before, hole_line, after, leftover, i) matches Ok(
            ru,
        ) ==> ru.1 == upd_before + seq![hole_line] + after,
    decreases after.len(), 2int, leftover.len() - i + 1,
{
    lemma_skip_pass_keeps_expected(consume_all, after, leftover.subrange(i, leftover.len() as int));
    if i < leftover.len() {
        match with_holes_spec(false, consume_all, after, leftover.subrange(i, leftover.len() as int)) {
            Ok(_) => {},
            Err(_) => {
                lemma_skip_splits(consume_all, upd_before, hole_line, after, leftover, i + 1);
            },
        }
    }
}

/// A replacement is produced exactly when a capture hole is present: a
/// successful match hands back `Some` if the pattern holds a `???` line and
/// `None` if it does not.
pub proof fn lemma_update_iff_capture_hole(expected: Seq<Seq<char>>, actual: Seq<Seq<char>>)
    ensures
        matchit_spec(expected, actual) matches Ok(Some(_)) ==> has_capture_hole(expected),
        matchit_spec(expected, actual) matches Ok(None) ==> !has_capture_hole(expected),
{
}

/// The split search is lazy: if the rest of the pattern matches after the
/// hole consumes `k` lines, while every smaller count from `i` up fails, the
/// search from `i` settles on exactly `k` lines.
pub proof fn lemma_splits_lazy(
    capture: bool,
    consume_all: bool,
    upd_before: Seq<Seq<char>>,
    hole_line: Seq<char>,
    after: Seq<Seq<char>>,
    leftover: Seq<Seq<char>>,
    i: int,
    k: int,
)
    requires
        0 <= i <= k <= leftover.len(),
        with_holes_spec(capture, consume_all, after, leftover.subrange(k, leftover.len() as int))
            is Ok,
        forall|m: int|
            i <= m < k ==> !(with_holes_spec(
                capture,
                consume_all,
                after,
                leftover.subrange(m, leftover.len() as int),
            ) is Ok),
    ensures
        try_splits_spec(capture, consume_all, upd_before, hole_line, after, leftover, i) == (
        match with_holes_spec(capture, consume_all, after, leftover.subrange(k, leftover.len() as int)) {
            Ok(ru) => Ok::<(Seq<Seq<char>>, Seq<Seq<char>>), MatchFailure>(
                (
                    ru.0,
                    upd_before + (
                    if capture {
                        leftover.subrange(0, k)
                    } else {
                        seq![hole_line]
                    }) + ru.1,
                ),
            ),
            Err(f) => Err(f),
        }),
    decreases k - i,
{
    if i < k {
        lemma_splits_lazy(capture, consume_all, upd_before, hole_line, after, leftover, i + 1, k);
    }
}

/// The split search cannot fail when some split would let the rest of the
/// pattern match: finding it takes no exhaustive exploration of the other
/// holes' choices.
pub proof fn lemma_splits_succeed(
    capture: bool,
    consume_all: bool,
    upd_before: Seq<Seq<char>>,
    hole_line: Seq<char>,
    after: Seq<Seq<char>>,
    leftover: Seq<Seq<char>>,
    i: int,
    k: int,
)
    requires
        0 <= i <= k <= leftover.len(),
        with_holes_spec(capture, consume_all, after, leftover.subrange(k, leftover.len() as int))
            is Ok,
    ensures
        try_splits_spec(capture, consume_all, upd_before, hole_line, after, leftover, i) is Ok,
    decreases k - i,
{
    if !(with_holes_spec(capture, consume_all, after, leftover.subrange(i, leftover.len() as int))
        is Ok) {
        if i < k {
            lemma_splits_succeed(
                capture,
                consume_all,
                upd_before,
                hole_line,
                after,
                leftover,
                i + 1,
                k,
            );
        }
    }
}

/// Whether two lines agree up to trailing whitespace.
fn lines_equal(a: &String, b: &String) -> (r: bool)
    ensures
        r == line_eq(a@, b@),
{
    let ta = trim_end(a);
    let tb = trim_end(b);
    ta == tb
}

/// Whether `line` is a hole line of the given kind.
fn is_hole_line(line: &String, capture: bool) -> (r: bool)
    ensures
        r == is_hole(line@, capture),
{
    let t = trim(line);
    let marker = if capture {
        "???"
    } else {
        "..."
    };
    t == String::from_str(marker)
}

/// The index of the first hole line of the given kind in `expected[e0..e1]`,
/// or `e1` if there is none.
#[verifier::loop_isolation(false)]
fn find_hole_in(expected: &Vec<String>, e0: usize, e1: usize, capture: bool) -> (r: usize)
    requires
        e0 <= e1 <= expected.len(),
    ensures
        e0 <= r <= e1,
        find_hole(expected.deep_view().subrange(e0 as int, e1 as int), capture) == r - e0,
        r < e1 ==> is_hole(expected.deep_view()[r as int], capture),
        forall|j: int| e0 <= j < r ==> !is_hole(expected.deep_view()[j], capture),
{
    let ghost edv = expected.deep_view();
    let ghost sub = edv.subrange(e0 as int, e1 as int);
    let mut i: usize = e0;
    while i < e1
        invariant
            e0 <= i <= e1 <= expected.len(),
            edv == expected.deep_view(),
            forall|j: int| e0 <= j < i ==> !is_hole(edv[j], capture),
        decreases e1 - i,
    {
        if is_hole_line(&expected[i], capture) {
            proof {
                assert forall|j: int| 0 <= j < i - e0 implies !is_hole(sub[j], capture) by {
                    assert(sub[j] == edv[e0 + j]);
                }
                assert(sub[i - e0] == edv[i as int]);
                lemma_find_hole_is(sub, capture, i - e0);
            }
            return i;
        }
        proof {
            assert(edv[i as int] == expected.deep_view()[i as int]);
        }
        i += 1;
    }
    proof {
        assert forall|j: int| 0 <= j < e1 - e0 implies !is_hole(sub[j], capture) by {
            assert(sub[j] == edv[e0 + j]);
        }
        lemma_find_hole_is(sub, capture, e1 - e0);
    }
    e1
}

/// Match `expected[e0..e1]` line by line against `actual[a0..]`. On success
/// the result is the index of the first unconsumed actual line; on failure
/// the error pinpoints the offending line.
#[verifier::loop_isolation(false)]
pub fn match_lines(
    expected: &Vec<String>,
    e0: usize,
    e1: usize,
    actual: &Vec<String>,
    a0: usize,
) -> (r: Result<usize, ParseError>)
    requires
        e0 <= e1 <= expected.len(),
        a0 <= actual.len(),
    ensures
        ({
            let s = match_lines_spec(
                expected.deep_view().subrange(e0 as int, e1 as int),
                actual.deep_view().subrange(a0 as int, actual.len() as int),
            );
            match r {
                Ok(a1) => a0 <= a1 <= actual.len() && s == Ok::<Seq<Seq<char>>, MatchFailure>(
                    actual.deep_view().subrange(a1 as int, actual.len() as int),
                ),
                Err(e) => s == Err::<Seq<Seq<char>>, MatchFailure>(e@),
            }
        }),
{
    let ghost edv = expected.deep_view();
    let ghost adv = actual.deep_view();
    let ghost alen = adv.len() as int;
    let ghost goal = match_lines_spec(
        edv.subrange(e0 as int, e1 as int),
        adv.subrange(a0 as int, alen),
    );
    let mut i: usize = e0;
    let mut j: usize = a0;
    while i < e1
        invariant
            e0 <= i <= e1 <= expected.len(),
            a0 <= j <= actual.len(),
            edv == expected.deep_view(),
            adv == actual.deep_view(),
            alen == adv.len() as int,
            goal == match_lines_spec(
                edv.subrange(i as int, e1 as int),
                adv.subrange(j as int, alen),
            ),
        decreases e1 - i,
    {
        let ghost exp_sub = edv.subrange(i as int, e1 as int);
        let ghost act_sub = adv.subrange(j as int, alen);
        proof {
            assert(exp_sub.len() > 0);
            assert(exp_sub[0] == edv[i as int]);
        }
        if j == actual.len() {
            let e = ParseError { expected: Some(expected[i].clone()), got: None };
            proof {
                assert(act_sub.len() == 0);
                assert(e@ == MatchFailure { expected: Some(edv[i as int]), got: None });
            }
            return Err(e);
        }
        proof {
            assert(act_sub.len() > 0);
            assert(act_sub[0] == adv[j as int]);
        }
        if lines_equal(&expected[i], &actual[j]) {
            proof {
                assert(exp_sub.drop_first() =~= edv.subrange(i + 1, e1 as int));
                assert(act_sub.drop_first() =~= adv.subrange(j + 1, alen));
            }
            i += 1;
            j += 1;
        } else {
            let e = ParseError {
                expected: Some(expected[i].clone()),
                got: Some(actual[j].clone()),
            };
            proof {
                assert(e@ == MatchFailure {
                    expected: Some(edv[i as int]),
                    got: Some(adv[j as int]),
                });
            }
            return Err(e);
        }
    }
    proof {
        assert(edv.subrange(i as int, e1 as int).len() == 0);
    }
    Ok(j)
}

/// Resolve all holes of one kind in `expected[e0..e1]` against `actual[a0..]`,
/// the backtracking search shared by both passes. With `capture` the pattern
/// is split on `???` holes and the pieces go through the skip pass; without
/// it, on `...` holes with exact matching of the pieces. With `consume_all`
/// the match only succeeds when it consumes the whole of `actual[a0..]`. On
/// success the result is the index of the first unconsumed actual line and
/// the reconciled replacement lines.
#[verifier::loop_isolation(false)]
pub fn with_holes(
    capture: bool,
    consume_all: bool,
    expected: &Vec<String>,
    e0: usize,
    e1: usize,
    actual: &Vec<String>,
    a0: usize,
) -> (r: Result<(usize, Vec<String>), ParseError>)
    requires
        e0 <= e1 <= expected.len(),
        a0 <= actual.len(),
    ensures
        ({
            let s = with_holes_spec(
                capture,
                consume_all,
                expected.deep_view().subrange(e0 as int, e1 as int),
                actual.deep_view().subrange(a0 as int, actual.len() as int),
            );
            match r {
                Ok((a1, upd)) => a0 <= a1 <= actual.len() && s == Ok::<
                    (Seq<Seq<char>>, Seq<Seq<char>>),
                    MatchFailure,
                >(
                    (
                        actual.deep_view().subrange(a1 as int, actual.len() as int),
                        upd.deep_view(),
                    ),
                ),
                Err(e) => s == Err::<(Seq<Seq<char>>, Seq<Seq<char>>), MatchFailure>(e@),
            }
        }),
    decreases e1 - e0, (if capture { 1int } else { 0int }),
{
    let ghost edv = expected.deep_view();
    let ghost adv = actual.deep_view();
    let ghost alen = adv.len() as int;
    let ghost exp_sub = edv.subrange(e0 as int, e1 as int);
    let h = find_hole_in(expected, e0, e1, capture);
    if h == e1 {
        // No hole of this kind in the range.
        if capture {
            with_holes(false, consume_all, expected, e0, e1, actual, a0)
        } else {
            match match_lines(expected, e0, e1, actual, a0) {
                Ok(a1) => {
                    if consume_all && a1 < actual.len() {
                        proof {
                            assert(adv.subrange(a1 as int, alen)[0] == adv[a1 as int]);
                        }
                        return Err(ParseError { expected: None, got: Some(actual[a1].clone()) });
                    }
                    let upd = crate::common::copy_range(expected, e0, e1);
                    Ok((a1, upd))
                },
                Err(e) => Err(e),
            }
        }
    } else {
        let ghost before_sub = edv.subrange(e0 as int, h as int);
        let ghost after_sub = edv.subrange(h + 1, e1 as int);
        proof {
            assert(exp_sub.subrange(0, h - e0) =~= before_sub);
            assert(exp_sub.subrange(h - e0 + 1, exp_sub.len() as int) =~= after_sub);
            assert(exp_sub[h - e0] == edv[h as int]);
        }
        // Match the piece before the hole against the whole actual range.
        let bres: Result<(usize, Vec<String>), ParseError> = if capture {
            with_holes(false, false, expected, e0, h, actual, a0)
        } else {
            match match_lines(expected, e0, h, actual, a0) {
                Ok(a1) => Ok((a1, crate::common::copy_range(expected, e0, h))),
                Err(e) => Err(e),
            }
        };
        match bres {
            Err(e) => Err(e),
            Ok((amid, upd_before)) => {
                let ghost beforedv = upd_before.deep_view();
                let ghost leftover = adv.subrange(amid as int, alen);
                // Give the hole ever more lines until the rest matches.
                let mut i: usize = 0;
                loop
                    invariant
                        amid + i <= actual.len(),
                        try_splits_spec(
                            capture,
                            consume_all,
                            beforedv,
                            edv[h as int],
                            after_sub,
                            leftover,
                            0,
                        ) == try_splits_spec(
                            capture,
                            consume_all,
                            beforedv,
                            edv[h as int],
                            after_sub,
                            leftover,
                            i as int,
                        ),
                    decreases actual.len() - amid - i,
                {
                    proof {
                        assert(leftover.subrange(i as int, leftover.len() as int) =~= adv.subrange(
                            amid + i,
                            alen,
                        ));
                    }
                    let sres = with_holes(capture, consume_all, expected, h + 1, e1, actual, amid + i);
                    match sres {
                        Ok((a1, upd_after)) => {
                            let mut upd = upd_before;
                            if capture {
                                crate::common::append_range(&mut upd, actual, amid, amid + i);
                                proof {
                                    assert(adv.subrange(amid as int, amid + i) =~= leftover.subrange(
                                        0,
                                        i as int,
                                    ));
                                }
                            } else {
                                let ghost prev = upd.deep_view();
                                upd.push(expected[h].clone());
                                proof {
                                    assert forall|j: int| 0 <= j < upd.deep_view().len() implies
                                        upd.deep_view()[j] == prev.push(edv[h as int])[j] by {
                                        if j < prev.len() {
                                            assert(upd@[j].deep_view() == prev[j]);
                                        } else {
                                            assert(upd@[j].deep_view() == edv[h as int]);
                                        }
                                    }
                                    assert(upd.deep_view() =~= prev.push(edv[h as int]));
                                    assert(prev.push(edv[h as int]) =~= beforedv + seq![
                                        edv[h as int],
                                    ]);
                                }
                            }
                            crate::common::append_clones(&mut upd, &upd_after);
                            proof {
                                let content = if capture {
                                    leftover.subrange(0, i as int)
                                } else {
                                    seq![edv[h as int]]
                                };
                                assert(upd.deep_view() =~= beforedv + content
                                    + upd_after.deep_view());
                            }
                            return Ok((a1, upd));
                        },
                        Err(e) => {
                            if amid + i == actual.len() {
                                proof {
                                    assert(i as int >= leftover.len());
                                }
                                return Err(e);
                            }
                            i += 1;
                        },
                    }
                }
            },
        }
    }
}

/// Match the expected lines against the actual lines, resolving holes, and
/// require that the actual output is consumed completely. `Ok(None)` means
/// the output satisfies the pattern and no capture hole is present;
/// `Ok(Some(lines))` means it is satisfied and `lines` is the reconciled
/// replacement for the whole pattern, with each capture hole replaced by the
/// lines it consumed.
pub fn matchit(expected: &Vec<String>, actual: &Vec<String>) -> (r: Result<
    Option<Vec<String>>,
    ParseError,
>)
    ensures
        ({
            let s = matchit_spec(expected.deep_view(), actual.deep_view());
            match r {
                Ok(Some(u)) => s == Ok::<Option<Seq<Seq<char>>>, MatchFailure>(
                    Some(u.deep_view()),
                ),
                Ok(None) => s == Ok::<Option<Seq<Seq<char>>>, MatchFailure>(None),
                Err(e) => s == Err::<Option<Seq<Seq<char>>>, MatchFailure>(e@),
            }
        }),
{
    let ghost edv = expected.deep_view();
    let ghost adv = actual.deep_view();
    proof {
        assert(edv.subrange(0, expected.len() as int) =~= edv);
        assert(adv.subrange(0, actual.len() as int) =~= adv);
    }
    match with_holes(true, true, expected, 0, expected.len(), actual, 0) {
        Err(e) => Err(e),
        Ok((a1, upd)) => {
            if a1 < actual.len() {
                proof {
                    assert(adv.subrange(a1 as int, adv.len() as int)[0] == adv[a1 as int]);
                }
                Err(ParseError { expected: None, got: Some(actual[a1].clone()) })
            } else {
                proof {
                    assert(adv.subrange(a1 as int, adv.len() as int).len() == 0);
                }
                let hf = find_hole_in(expected, 0, expected.len(), true);
                if hf < expected.len() {
                    Ok(Some(upd))
                } else {
                    Ok(None)
                }
            }
        },
    }
}

} // verus!
