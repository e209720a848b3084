//! The session model: grouping the document's transcript blocks into named
//! REPL sessions.
//!
//! A code block belongs to a session when one of its classes is `repl-<name>`.
//! The first block of a session must carry a `cmd` attribute (the shell
//! command) and a `prompt` attribute (a regular expression matching the
//! prompt); later blocks of the same session may not repeat `cmd` and inherit
//! `prompt`, `prompt_char` (default `:`) and `prompt_mode` from the block
//! before them. `prompt_mode` selects how prompts are compared when the
//! session runs: `fixed` (the prompt must equal the text in the document),
//! `updatable` (the prompt must match the regex and the document is rewritten
//! with the observed prompt), and anything else means `flexible` (the prompt
//! must match the regex, nothing is rewritten).

use vstd::prelude::*;

verus! {

/// A code block as it appears in the document: its class list, its
/// attributes, and its body split into lines.
#[derive(Debug)]
pub struct RawBlock {
    pub classes: Vec<String>,
    pub attrs: Vec<(String, String)>,
    pub code_lines: Vec<String>,
}

/// The mathematical shape of a `RawBlock`.
pub struct RawBlockV {
    pub classes: Seq<Seq<char>>,
    pub attrs: Seq<(Seq<char>, Seq<char>)>,
    pub code_lines: Seq<Seq<char>>,
}

impl View for RawBlock {
    type V = RawBlockV;

    open spec fn view(&self) -> RawBlockV {
        RawBlockV {
            classes: self.classes.deep_view(),
            attrs: self.attrs.deep_view(),
            code_lines: self.code_lines.deep_view(),
        }
    }
}

impl DeepView for RawBlock {
    type V = RawBlockV;

    open spec fn deep_view(&self) -> RawBlockV {
        self.view()
    }
}

/// How the prompts of a block's invocations are compared when the session
/// runs.
#[derive(Debug, Clone, Copy, PartialEq, Eq, Structural)]
pub enum PromptMode {
    /// The prompt must equal the text in the document exactly.
    Fixed,
    /// The prompt must match the session's prompt regex; nothing is rewritten.
    Flexible,
    /// The prompt must match the regex and the observed prompt is written
    /// back into the document.
    Updatable,
}

/// One transcript unit: an effective prompt regex, the prompt character, the
/// prompt mode, and the expected lines (prompt lines included).
#[derive(Debug)]
pub struct ReplBlock {
    pub prompt: String,
    pub prompt_char: String,
    pub prompt_mode: PromptMode,
    pub expected: Vec<String>,
}

/// The mathematical shape of a `ReplBlock`.
pub struct ReplBlockV {
    pub prompt: Seq<char>,
    pub prompt_char: Seq<char>,
    pub prompt_mode: PromptMode,
    pub expected: Seq<Seq<char>>,
}

impl View for ReplBlock {
    type V = ReplBlockV;

    open spec fn view(&self) -> ReplBlockV {
        ReplBlockV {
            prompt: self.prompt@,
            prompt_char: self.prompt_char@,
            prompt_mode: self.prompt_mode,
            expected: self.expected.deep_view(),
        }
    }
}

impl DeepView for ReplBlock {
    type V = ReplBlockV;

    open spec fn deep_view(&self) -> ReplBlockV {
        self.view()
    }
}

/// All blocks belonging to one invocation of a REPL program.
#[derive(Debug)]
pub struct Session {
    pub name: String,
    pub shell_cmd: String,
    pub blocks: Vec<ReplBlock>,
}

/// The mathematical shape of a `Session`.
pub struct SessionV {
    pub name: Seq<char>,
    pub shell_cmd: Seq<char>,
    pub blocks: Seq<ReplBlockV>,
}

impl View for Session {
    type V = SessionV;

    open spec fn view(&self) -> SessionV {
        SessionV {
            name: self.name@,
            shell_cmd: self.shell_cmd@,
            blocks: self.blocks.deep_view(),
        }
    }
}

impl DeepView for Session {
    type V = SessionV;

    open spec fn deep_view(&self) -> SessionV {
        self.view()
    }
}

/// A configuration error found while grouping blocks into sessions; each one
/// names the offending session.
#[derive(Debug, Clone, PartialEq, Eq)]
pub enum ConfigError {
    /// No `cmd` attribute at the beginning of the session.
    MissingCmd { session: String },
    /// No `prompt` attribute at the beginning of the session.
    MissingPrompt { session: String },
    /// The `prompt` attribute is not a valid regular expression.
    BadPromptRegex { session: String, pattern: String },
    /// A `cmd` attribute appears a second time in the session.
    DuplicateCmd { session: String, cmd: String },
}

/// The mathematical shape of a `ConfigError`.
pub enum ConfigErrorV {
    MissingCmd { session: Seq<char> },
    MissingPrompt { session: Seq<char> },
    BadPromptRegex { session: Seq<char>, pattern: Seq<char> },
    DuplicateCmd { session: Seq<char>, cmd: Seq<char> },
}

impl View for ConfigError {
    type V = ConfigErrorV;

    open spec fn view(&self) -> ConfigErrorV {
        match self {
            ConfigError::MissingCmd { session } => ConfigErrorV::MissingCmd { session: session@ },
            ConfigError::MissingPrompt { session } => ConfigErrorV::MissingPrompt {
                session: session@,
            },
            ConfigError::BadPromptRegex { session, pattern } => ConfigErrorV::BadPromptRegex {
                session: session@,
                pattern: pattern@,
            },
            ConfigError::DuplicateCmd { session, cmd } => ConfigErrorV::DuplicateCmd {
                session: session@,
                cmd: cmd@,
            },
        }
    }
}

/// Whether `regex::Regex::new` accepts the pattern: a function of the pattern
/// text alone.
pub uninterp spec fn regex_valid(pat: Seq<char>) -> bool;

/// Relies on regex::Regex::new: whether a pattern compiles depends on the
/// pattern text alone.
#[verifier::external_body]
fn regex_compiles(pat: &String) -> (r: bool)
    ensures
        r == regex_valid(pat@),
{
    regex::Regex::new(pat).is_ok()
}

/// Whether a class name marks a REPL block: it starts with `repl-`.
pub open spec fn is_repl_class(c: Seq<char>) -> bool {
    c.len() >= 5 && c.subrange(0, 5) == "repl-"@
}

/// The session name carried by a class list: what follows `repl-` in the
/// first class that starts with it, if any.
pub open spec fn session_name_spec(classes: Seq<Seq<char>>) -> Option<Seq<char>>
    decreases classes.len(),
{
    if classes.len() == 0 {
        None
    } else if is_repl_class(classes[0]) {
        Some(classes[0].subrange(5, classes[0].len() as int))
    } else {
        session_name_spec(classes.drop_first())
    }
}

/// The value of the first attribute with the given key, if any.
pub open spec fn attr_lookup_spec(attrs: Seq<(Seq<char>, Seq<char>)>, key: Seq<char>) -> Option<
    Seq<char>,
>
    decreases attrs.len(),
{
    if attrs.len() == 0 {
        None
    } else if attrs[0].0 == key {
        Some(attrs[0].1)
    } else {
        attr_lookup_spec(attrs.drop_first(), key)
    }
}

/// The index of the first session with the given name, or `sessions.len()`
/// if there is none.
pub open spec fn find_session_spec(sessions: Seq<SessionV>, name: Seq<char>) -> nat
    decreases sessions.len(),
{
    if sessions.len() == 0 {
        0
    } else if sessions[0].name == name {
        0
    } else {
        1 + find_session_spec(sessions.drop_first(), name)
    }
}

/// Any index with the first-match characterization is `find_session_spec`.
pub proof fn lemma_find_session_is(sessions: Seq<SessionV>, name: Seq<char>, k: int)
    requires
        0 <= k <= sessions.len(),
        forall|j: int| 0 <= j < k ==> sessions[j].name != name,
        k < sessions.len() ==> sessions[k].name == name,
    ensures
        find_session_spec(sessions, name) == k,
    decreases sessions.len(),
{
    if sessions.len() == 0 {
    } else if sessions[0].name == name {
        assert(k == 0);
    } else {
        assert forall|j: int| 0 <= j < k - 1 implies sessions.drop_first()[j].name != name by {
            assert(sessions.drop_first()[j] == sessions[j + 1]);
        }
        if k < sessions.len() {
            assert(sessions.drop_first()[k - 1] == sessions[k]);
        }
        lemma_find_session_is(sessions.drop_first(), name, k - 1);
    }
}

/// The prompt mode named by an attribute value: `fixed` and `updatable` are
/// recognized, any other value means `flexible`, and an absent attribute
/// inherits.
pub open spec fn prompt_mode_spec(value: Option<Seq<char>>, inherited: PromptMode) -> PromptMode {
    match value {
        None => inherited,
        Some(s) => if s == "fixed"@ {
            PromptMode::Fixed
        } else if s == "updatable"@ {
            PromptMode::Updatable
        } else {
            PromptMode::Flexible
        },
    }
}

/// Fold one raw block into the sessions collected so far: blocks without a
/// `repl-` class are skipped; the first block of a session must carry `cmd`
/// and a valid `prompt`; later blocks may not repeat `cmd` and inherit the
/// prompt settings of the block before them.
pub open spec fn add_block_spec(acc: Seq<SessionV>, b: RawBlockV) -> Result<
    Seq<SessionV>,
    ConfigErrorV,
> {
    match session_name_spec(b.classes) {
        None => Ok(acc),
        Some(name) => {
            let cmd = attr_lookup_spec(b.attrs, "cmd"@);
            let prompt = attr_lookup_spec(b.attrs, "prompt"@);
            let pchar = attr_lookup_spec(b.attrs, "prompt_char"@);
            let pmode = attr_lookup_spec(b.attrs, "prompt_mode"@);
            let idx = find_session_spec(acc, name) as int;
            if idx == acc.len() {
                match (cmd, prompt) {
                    (None, _) => Err(ConfigErrorV::MissingCmd { session: name }),
                    (Some(_), None) => Err(ConfigErrorV::MissingPrompt { session: name }),
                    (Some(c), Some(p)) => if !regex_valid(p) {
                        Err(ConfigErrorV::BadPromptRegex { session: name, pattern: p })
                    } else {
                        Ok(
                            acc.push(
                                SessionV {
                                    name: name,
                                    shell_cmd: c,
                                    blocks: seq![
                                        ReplBlockV {
                                            prompt: p,
                                            prompt_char: match pchar {
                                                Some(x) => x,
                                                None => ":"@,
                                            },
                                            prompt_mode: prompt_mode_spec(
                                                pmode,
                                                PromptMode::Flexible,
                                            ),
                                            expected: b.code_lines,
                                        },
                                    ],
                                },
                            ),
                        )
                    },
                }
            } else {
                match cmd {
                    Some(c) => Err(ConfigErrorV::DuplicateCmd { session: name, cmd: c }),
                    None => {
                        let prev = acc[idx].blocks.last();
                        match prompt {
                            Some(p) => if !regex_valid(p) {
                                Err(ConfigErrorV::BadPromptRegex { session: name, pattern: p })
                            } else {
                                Ok(
                                    acc.update(
                                        idx,
                                        SessionV {
                                            name: acc[idx].name,
                                            shell_cmd: acc[idx].shell_cmd,
                                            blocks: acc[idx].blocks.push(
                                                ReplBlockV {
                                                    prompt: p,
                                                    prompt_char: match pchar {
                                                        Some(x) => x,
                                                        None => prev.prompt_char,
                                                    },
                                                    prompt_mode: prompt_mode_spec(
                                                        pmode,
                                                        prev.prompt_mode,
                                                    ),
                                                    expected: b.code_lines,
                                                },
                                            ),
                                        },
                                    ),
                                )
                            },
                            None => Ok(
                                acc.update(
                                    idx,
                                    SessionV {
                                        name: acc[idx].name,
                                        shell_cmd: acc[idx].shell_cmd,
                                        blocks: acc[idx].blocks.push(
                                            ReplBlockV {
                                                prompt: prev.prompt,
                                                prompt_char: match pchar {
                                                    Some(x) => x,
                                                    None => prev.prompt_char,
                                                },
                                                prompt_mode: prompt_mode_spec(
                                                    pmode,
                                                    prev.prompt_mode,
                                                ),
                                                expected: b.code_lines,
                                            },
                                        ),
                                    },
                                ),
                            ),
                        }
                    },
                }
            }
        },
    }
}

/// Fold all raw blocks, in document order, into sessions; the first
/// configuration error aborts the build.
pub open spec fn build_sessions_spec(blocks: Seq<RawBlockV>) -> Result<Seq<SessionV>, ConfigErrorV>
    decreases blocks.len(),
{
    if blocks.len() == 0 {
        Ok(Seq::<SessionV>::empty())
    } else {
        match build_sessions_spec(blocks.drop_last()) {
            Ok(acc) => add_block_spec(acc, blocks.last()),
            Err(e) => Err(e),
        }
    }
}

/// The index of the first newline character in `s`, or `s.len()` if there is
/// none.
pub open spec fn find_newline(s: Seq<char>) -> nat
    decreases s.len(),
{
    if s.len() == 0 {
        0
    } else if s[0] == '\n' {
        0
    } else {
        1 + find_newline(s.drop_first())
    }
}

/// Any index with the first-newline characterization is `find_newline`.
proof fn lemma_find_newline_is(s: Seq<char>, k: int)
    requires
        0 <= k <= s.len(),
        forall|j: int| 0 <= j < k ==> s[j] != '\n',
        k < s.len() ==> s[k] == '\n',
    ensures
        find_newline(s) == k,
    decreases s.len(),
{
    if s.len() == 0 {
    } else if s[0] == '\n' {
        assert(k == 0);
    } else {
        assert forall|j: int| 0 <= j < k - 1 implies s.drop_first()[j] != '\n' by {
            assert(s.drop_first()[j] == s[j + 1]);
        }
        if k < s.len() {
            assert(s.drop_first()[k - 1] == s[k]);
        }
        lemma_find_newline_is(s.drop_first(), k - 1);
    }
}

/// A text split into lines, the way a transcript is read: lines end at `\n`
/// or `\r\n`, the terminator is not part of the line, and a final terminator
/// opens no further line.
pub open spec fn split_lines_spec(s: Seq<char>) -> Seq<Seq<char>>
    decreases s.len(),
{
    if s.len() == 0 {
        Seq::empty()
    } else {
        let n = find_newline(s) as int;
        if n >= s.len() {
            seq![s]
        } else {
            let line = if n > 0 && s[n - 1] == '\r' {
                s.subrange(0, n - 1)
            } else {
                s.subrange(0, n)
            };
            seq![line] + split_lines_spec(s.subrange(n + 1, s.len() as int))
        }
    }
}

/// Split a block's text into lines, at `\n` or `\r\n`.
#[verifier::loop_isolation(false)]
pub fn split_lines(s: &str) -> (r: Vec<String>)
    ensures
        r.deep_view() == split_lines_spec(s@),
{
    let n = s.unicode_len();
    let mut r: Vec<String> = Vec::new();
    let mut start: usize = 0;
    let mut i: usize = 0;
    proof {
        assert(r.deep_view() =~= Seq::<Seq<char>>::empty());
        assert(s@.subrange(0, s@.len() as int) =~= s@);
    }
    while i < n
        invariant
            start <= i <= n == s@.len(),
            forall|j: int| start <= j < i ==> s@[j] != '\n',
            split_lines_spec(s@) == r.deep_view() + split_lines_spec(
                s@.subrange(start as int, s@.len() as int),
            ),
        decreases n - i,
    {
        let ghost tail = s@.subrange(start as int, s@.len() as int);
        if s.get_char(i) == '\n' {
            proof {
                assert forall|j: int| 0 <= j < i - start implies tail[j] != '\n' by {
                    assert(tail[j] == s@[start + j]);
                }
                assert(tail[i - start] == s@[i as int]);
                lemma_find_newline_is(tail, i - start);
            }
            let line_end = if i > start && s.get_char(i - 1) == '\r' {
                i - 1
            } else {
                i
            };
            let line = s.substring_char(start, line_end).to_owned();
            let ghost prev = r.deep_view();
            proof {
                if i > start && s@[i - 1] == '\r' {
                    assert(tail.subrange(0, i - start - 1) =~= s@.subrange(
                        start as int,
                        i - 1,
                    ));
                } else {
                    assert(tail.subrange(0, i - start) =~= s@.subrange(start as int, i as int));
                }
                assert(tail.subrange(i - start + 1, tail.len() as int) =~= s@.subrange(
                    i + 1,
                    s@.len() as int,
                ));
            }
            r.push(line);
            proof {
                assert(r.deep_view() =~= prev.push(line@));
                assert(prev.push(line@) =~= prev + seq![line@]);
            }
            start = i + 1;
        }
        i += 1;
    }
    let ghost tail = s@.subrange(start as int, s@.len() as int);
    if start < n {
        proof {
            assert forall|j: int| 0 <= j < tail.len() implies tail[j] != '\n' by {
                assert(tail[j] == s@[start + j]);
            }
            lemma_find_newline_is(tail, tail.len() as int);
        }
        let line = s.substring_char(start, n).to_owned();
        let ghost prev = r.deep_view();
        r.push(line);
        proof {
            assert(r.deep_view() =~= prev.push(line@));
            assert(prev.push(line@) =~= prev + seq![tail]);
            assert(split_lines_spec(tail) == seq![tail]);
        }
    } else {
        proof {
            assert(tail.len() == 0);
            assert(r.deep_view() =~= r.deep_view() + split_lines_spec(tail));
        }
    }
    r
}

/// Whether the class name starts with `repl-`.
fn is_repl_class_exec(c: &String) -> (r: bool)
    ensures
        r == is_repl_class(c@),
{
    let n = c.as_str().unicode_len();
    if n < 5 {
        return false;
    }
    let pre = c.as_str().substring_char(0, 5);
    String::from_str(pre) == String::from_str("repl-")
}

/// The session name carried by a class list, if any.
#[verifier::loop_isolation(false)]
pub fn session_name_of(classes: &Vec<String>) -> (r: Option<String>)
    ensures
        match r {
            Some(s) => session_name_spec(classes.deep_view()) == Some(s@),
            None => session_name_spec(classes.deep_view()) is None,
        },
{
    let ghost cdv = classes.deep_view();
    proof {
        assert(cdv.subrange(0, cdv.len() as int) =~= cdv);
    }
    let mut j: usize = 0;
    while j < classes.len()
        invariant
            j <= classes.len(),
            session_name_spec(cdv) == session_name_spec(cdv.subrange(j as int, cdv.len() as int)),
        decreases classes.len() - j,
    {
        let ghost sub = cdv.subrange(j as int, cdv.len() as int);
        proof {
            assert(sub[0] == cdv[j as int]);
            assert(sub.drop_first() =~= cdv.subrange(j + 1, cdv.len() as int));
        }
        let c = &classes[j];
        if is_repl_class_exec(c) {
            let n = c.as_str().unicode_len();
            let name = c.as_str().substring_char(5, n).to_owned();
            return Some(name);
        }
        j += 1;
    }
    proof {
        assert(cdv.subrange(classes.len() as int, cdv.len() as int).len() == 0);
    }
    None
}

/// The value of the first attribute with the given key, if any.
#[verifier::loop_isolation(false)]
fn attr_lookup(attrs: &Vec<(String, String)>, key: &str) -> (r: Option<String>)
    ensures
        match r {
            Some(v) => attr_lookup_spec(attrs.deep_view(), key@) == Some(v@),
            None => attr_lookup_spec(attrs.deep_view(), key@) is None,
        },
{
    let ghost adv = attrs.deep_view();
    proof {
        assert(adv.subrange(0, adv.len() as int) =~= adv);
    }
    let key_string = String::from_str(key);
    let mut j: usize = 0;
    while j < attrs.len()
        invariant
            j <= attrs.len(),
            key_string@ == key@,
            attr_lookup_spec(adv, key@) == attr_lookup_spec(
                adv.subrange(j as int, adv.len() as int),
                key@,
            ),
        decreases attrs.len() - j,
    {
        let ghost sub = adv.subrange(j as int, adv.len() as int);
        proof {
            assert(sub[0] == adv[j as int]);
            assert(sub.drop_first() =~= adv.subrange(j + 1, adv.len() as int));
        }
        if attrs[j].0 == key_string {
            return Some(attrs[j].1.clone());
        }
        j += 1;
    }
    proof {
        assert(adv.subrange(attrs.len() as int, adv.len() as int).len() == 0);
    }
    None
}

/// The index of the first session with the given name, or `sessions.len()`
/// if there is none.
#[verifier::loop_isolation(false)]
fn find_session(sessions: &Vec<Session>, name: &String) -> (r: usize)
    ensures
        r <= sessions.len(),
        find_session_spec(sessions.deep_view(), name@) == r,
        r < sessions.len() ==> sessions.deep_view()[r as int].name == name@,
{
    let ghost sdv = sessions.deep_view();
    let mut j: usize = 0;
    while j < sessions.len()
        invariant
            j <= sessions.len(),
            forall|k: int| 0 <= k < j ==> sdv[k].name != name@,
        decreases sessions.len() - j,
    {
        if sessions[j].name == *name {
            proof {
                lemma_find_session_is(sdv, name@, j as int);
            }
            return j;
        }
        j += 1;
    }
    proof {
        lemma_find_session_is(sdv, name@, sessions.len() as int);
    }
    sessions.len()
}

/// The prompt mode named by an attribute value.
fn prompt_mode_of(value: &Option<String>, inherited: PromptMode) -> (r: PromptMode)
    ensures
        r == prompt_mode_spec(value.deep_view(), inherited),
{
    match value {
        None => inherited,
        Some(s) => {
            if *s == String::from_str("fixed") {
                PromptMode::Fixed
            } else if *s == String::from_str("updatable") {
                PromptMode::Updatable
            } else {
                PromptMode::Flexible
            }
        },
    }
}

/// Group the document's raw blocks into sessions, in document order. The
/// first block of each session must carry `cmd` and a valid `prompt`; later
/// blocks may not repeat `cmd` and inherit the prompt settings of the block
/// before them. The first configuration error aborts the build.
#[verifier::loop_isolation(false)]
pub fn get_sessions(blocks: &Vec<RawBlock>) -> (r: Result<Vec<Session>, ConfigError>)
    ensures
        match r {
            Ok(ss) => build_sessions_spec(blocks.deep_view()) == Ok::<_, ConfigErrorV>(
                ss.deep_view(),
            ) && forall|k: int| 0 <= k < ss.len() ==> ss.deep_view()[k].blocks.len() > 0,
            Err(e) => build_sessions_spec(blocks.deep_view()) == Err::<Seq<SessionV>, _>(e@),
        },
{
    let ghost bdv = blocks.deep_view();
    let mut sessions: Vec<Session> = Vec::new();
    let mut i: usize = 0;
    proof {
        assert(bdv.subrange(0, 0).len() == 0);
        assert(sessions.deep_view() =~= Seq::<SessionV>::empty());
    }
    while i < blocks.len()
        invariant
            i <= blocks.len(),
            build_sessions_spec(bdv.subrange(0, i as int)) == Ok::<_, ConfigErrorV>(
                sessions.deep_view(),
            ),
            forall|k: int| 0 <= k < sessions.len() ==> sessions.deep_view()[k].blocks.len() > 0,
        decreases blocks.len() - i,
    {
        let ghost pre = bdv.subrange(0, i as int);
        let ghost pre1 = bdv.subrange(0, i + 1);
        proof {
            assert(pre1.drop_last() =~= pre);
            assert(pre1.last() == bdv[i as int]);
        }
        let block = &blocks[i];
        match add_block(&mut sessions, block) {
            Ok(()) => {},
            Err(e) => {
                proof {
                    assert(build_sessions_spec(pre1) == Err::<Seq<SessionV>, _>(e@));
                    lemma_build_prefix_err(bdv, i + 1, e@);
                }
                return Err(e);
            },
        }
        i += 1;
    }
    proof {
        assert(bdv.subrange(0, blocks.len() as int) =~= bdv);
    }
    Ok(sessions)
}

/// If a prefix of the blocks already fails to build, the whole document fails
/// with the same error.
proof fn lemma_build_prefix_err(blocks: Seq<RawBlockV>, n: int, e: ConfigErrorV)
    requires
        0 <= n <= blocks.len(),
        build_sessions_spec(blocks.subrange(0, n)) == Err::<Seq<SessionV>, _>(e),
    ensures
        build_sessions_spec(blocks) == Err::<Seq<SessionV>, _>(e),
    decreases blocks.len() - n,
{
    if n < blocks.len() {
        let pre1 = blocks.subrange(0, n + 1);
        assert(pre1.drop_last() =~= blocks.subrange(0, n));
        lemma_build_prefix_err(blocks, n + 1, e);
    } else {
        assert(blocks.subrange(0, n) =~= blocks);
    }
}

/// Fold one raw block into the sessions collected so far.
fn add_block(sessions: &mut Vec<Session>, block: &RawBlock) -> (r: Result<(), ConfigError>)
    requires
        forall|k: int|
            0 <= k < old(sessions).len() ==> old(sessions).deep_view()[k].blocks.len() > 0,
    ensures
        match r {
            Ok(()) => add_block_spec(old(sessions).deep_view(), block@) == Ok::<_, ConfigErrorV>(
                final(sessions).deep_view(),
            ),
            Err(e) => add_block_spec(old(sessions).deep_view(), block@) == Err::<
                Seq<SessionV>,
                _,
            >(e@) && final(sessions)@ == old(sessions)@,
        },
        forall|k: int|
            0 <= k < final(sessions).len() ==> final(sessions).deep_view()[k].blocks.len() > 0,
{
    let ghost sdv = sessions.deep_view();
    let name = match session_name_of(&block.classes) {
        None => {
            return Ok(());
        },
        Some(n) => n,
    };
    let cmd = attr_lookup(&block.attrs, "cmd");
    let prompt = attr_lookup(&block.attrs, "prompt");
    let pchar = attr_lookup(&block.attrs, "prompt_char");
    let pmode = attr_lookup(&block.attrs, "prompt_mode");
    let idx = find_session(sessions, &name);
    if idx == sessions.len() {
        let c = match cmd {
            None => {
                return Err(ConfigError::MissingCmd { session: name });
            },
            Some(c) => c,
        };
        let p = match prompt {
            None => {
                return Err(ConfigError::MissingPrompt { session: name });
            },
            Some(p) => p,
        };
        if !regex_compiles(&p) {
            return Err(ConfigError::BadPromptRegex { session: name, pattern: p });
        }
        let prompt_char = match pchar {
            Some(x) => x,
            None => String::from_str(":"),
        };
        let prompt_mode = prompt_mode_of(&pmode, PromptMode::Flexible);
        let mut blocks_vec: Vec<ReplBlock> = Vec::new();
        blocks_vec.push(
            ReplBlock {
                prompt: p,
                prompt_char,
                prompt_mode,
                expected: crate::common::copy_range(&block.code_lines, 0, block.code_lines.len()),
            },
        );
        let s = Session { name, shell_cmd: c, blocks: blocks_vec };
        proof {
            assert(s@.blocks =~= seq![s@.blocks[0]]);
            assert(s@.blocks[0].expected =~= block@.code_lines);
        }
        let ghost sv = s@;
        sessions.push(s);
        proof {
            assert(sessions.deep_view() =~= sdv.push(sv));
        }
        Ok(())
    } else {
        if let Some(c) = cmd {
            return Err(ConfigError::DuplicateCmd { session: name, cmd: c });
        }
        let mut s = sessions.remove(idx);
        let ghost sv_old = sdv[idx as int];
        proof {
            assert(s@ == sv_old);
        }
        let nblocks = s.blocks.len();
        let prev_prompt_char = s.blocks[nblocks - 1].prompt_char.clone();
        let prev_prompt_mode = s.blocks[nblocks - 1].prompt_mode;
        let ghost prevv = sv_old.blocks.last();
        proof {
            assert(s.blocks.deep_view()[nblocks - 1] == prevv);
        }
        let p = match prompt {
            Some(p) => {
                if !regex_compiles(&p) {
                    sessions.insert(idx, s);
                    proof {
                        assert(sessions@ =~= old(sessions)@);
                    }
                    return Err(ConfigError::BadPromptRegex { session: name, pattern: p });
                }
                p
            },
            None => s.blocks[nblocks - 1].prompt.clone(),
        };
        let prompt_char = match pchar {
            Some(x) => x,
            None => prev_prompt_char,
        };
        let prompt_mode = prompt_mode_of(&pmode, prev_prompt_mode);
        let nb = ReplBlock {
            prompt: p,
            prompt_char,
            prompt_mode,
            expected: crate::common::copy_range(&block.code_lines, 0, block.code_lines.len()),
        };
        proof {
            assert(nb@.expected =~= block@.code_lines);
        }
        let ghost nbv = nb@;
        s.blocks.push(nb);
        proof {
            assert(s@.blocks =~= sv_old.blocks.push(nbv));
        }
        let ghost sv_new = s@;
        sessions.insert(idx, s);
        proof {
            assert(sessions.deep_view() =~= sdv.update(idx as int, sv_new));
        }
        Ok(())
    }
}

} // verus!
