//! The session driver: the decisions of one block's run against a live REPL
//! process.
//!
//! A block's expected lines are first derived into command invocations: a
//! line whose beginning matches the block's prompt regex (with a nonempty
//! match) is a prompt line carrying a command; the lines between two prompt
//! lines are the expected output of the earlier command. The driver then
//! walks the invocations. For each one it asks for a wait on the prompt,
//! matches the lines read before the prompt against the pending expected
//! output, appends the reconciled lines and the prompt line to the block's
//! buffer, and hands back the command to send. Expected output after the last
//! command is kept verbatim and not matched against any further read.

use crate::common::LinesCow;
use crate::model::{PromptMode, ReplBlock};
use crate::pattern::{matchit, matchit_spec, trim, trim_of, ParseError};
use vstd::prelude::*;
use vstd::string::StringExecFns;

verus! {

/// The kind of prompt that is expected before one command.
#[derive(Debug, Clone, PartialEq, Eq)]
pub enum ExpectedPrompt {
    /// The prompt must equal exactly this string, as it appeared in the
    /// document.
    Fixed(String),
    /// The prompt must match the session's prompt regex.
    Flexible,
    /// The prompt must match the regex and the observed prompt is written
    /// back into the document.
    Updatable,
}

/// The mathematical shape of an `ExpectedPrompt`.
pub enum ExpectedPromptV {
    Fixed(Seq<char>),
    Flexible,
    Updatable,
}

impl View for ExpectedPrompt {
    type V = ExpectedPromptV;

    open spec fn view(&self) -> ExpectedPromptV {
        match self {
            ExpectedPrompt::Fixed(t) => ExpectedPromptV::Fixed(t@),
            ExpectedPrompt::Flexible => ExpectedPromptV::Flexible,
            ExpectedPrompt::Updatable => ExpectedPromptV::Updatable,
        }
    }
}

impl DeepView for ExpectedPrompt {
    type V = ExpectedPromptV;

    open spec fn deep_view(&self) -> ExpectedPromptV {
        self.view()
    }
}

/// One command to run in the REPL: its prompt kind, the command text, the
/// prompt line as it appeared in the document, and the expected output lines
/// that follow it up to the next command or the block's end.
pub struct CmdInvocation {
    pub prompt: ExpectedPrompt,
    pub cmd: String,
    pub entire_prompt_line: String,
    pub expected_output: Vec<String>,
}

/// The mathematical shape of a `CmdInvocation`.
pub struct CmdInvocationV {
    pub prompt: ExpectedPromptV,
    pub cmd: Seq<char>,
    pub entire_prompt_line: Seq<char>,
    pub expected_output: Seq<Seq<char>>,
}

impl View for CmdInvocation {
    type V = CmdInvocationV;

    open spec fn view(&self) -> CmdInvocationV {
        CmdInvocationV {
            prompt: self.prompt@,
            cmd: self.cmd@,
            entire_prompt_line: self.entire_prompt_line@,
            expected_output: self.expected_output.deep_view(),
        }
    }
}

impl DeepView for CmdInvocation {
    type V = CmdInvocationV;

    open spec fn deep_view(&self) -> CmdInvocationV {
        self.view()
    }
}

/// A block's derived invocations, with the expected output before the first
/// command.
pub struct CmdInvocations {
    pub initial_output: Vec<String>,
    pub invocations: Vec<CmdInvocation>,
}

/// The mathematical shape of `CmdInvocations`.
pub struct CmdInvocationsV {
    pub initial_output: Seq<Seq<char>>,
    pub invocations: Seq<CmdInvocationV>,
}

impl View for CmdInvocations {
    type V = CmdInvocationsV;

    open spec fn view(&self) -> CmdInvocationsV {
        CmdInvocationsV {
            initial_output: self.initial_output.deep_view(),
            invocations: self.invocations.deep_view(),
        }
    }
}

/// What `regex::Regex::find` returns for a pattern and a line: the start
/// offset of the leftmost-first match, and the line split at the match's end.
/// `None` when the pattern is invalid or nothing matches. A function of the
/// pattern and the line alone.
pub uninterp spec fn regex_find_split(pat: Seq<char>, line: Seq<char>) -> Option<
    (int, Seq<char>, Seq<char>),
>;

/// Relies on regex::Regex::new and regex::Regex::find: the leftmost-first
/// match of a pattern in a line depends on the pattern and the line alone,
/// and slicing the line at the match's end splits it into a prefix and a
/// suffix whose concatenation is the line.
#[verifier::external_body]
fn find_prompt_match(pat: &String, line: &String) -> (r: Option<(usize, String, String)>)
    ensures
        match r {
            Some(t) => regex_find_split(pat@, line@) == Some((t.0 as int, t.1@, t.2@)) && t.1@
                + t.2@ == line@,
            None => regex_find_split(pat@, line@) is None,
        },
{
    let re = match regex::Regex::new(pat) {
        Ok(re) => re,
        Err(_) => return None,
    };
    re.find(line).map(
        |m| (m.start(), line[..m.end()].to_string(), line[m.end()..].to_string()),
    )
}

/// How a prompt line splits: the prompt regex matches at the very beginning
/// of the line, with a nonempty match; the prefix is the prompt text and the
/// suffix carries the command.
pub open spec fn prompt_split(pat: Seq<char>, line: Seq<char>) -> Option<(Seq<char>, Seq<char>)> {
    match regex_find_split(pat, line) {
        Some(t) => if t.0 == 0 && t.1.len() > 0 {
            Some((t.1, t.2))
        } else {
            None
        },
        None => None,
    }
}

/// The prompt kind of one invocation, from the block's mode and the prompt
/// text in the document.
pub open spec fn expected_prompt_spec(mode: PromptMode, doc_prompt: Seq<char>) -> ExpectedPromptV {
    match mode {
        PromptMode::Fixed => ExpectedPromptV::Fixed(doc_prompt),
        PromptMode::Flexible => ExpectedPromptV::Flexible,
        PromptMode::Updatable => ExpectedPromptV::Updatable,
    }
}

/// The derivation of a block's invocations, line by line: a prompt line
/// starts a new invocation whose command is the trimmed text after the
/// prompt; any other line belongs to the output of the invocation before it,
/// or to the initial output when no command has appeared yet.
pub open spec fn invocations_spec(
    pat: Seq<char>,
    mode: PromptMode,
    lines: Seq<Seq<char>>,
) -> CmdInvocationsV
    decreases lines.len(),
{
    if lines.len() == 0 {
        CmdInvocationsV { initial_output: Seq::empty(), invocations: Seq::empty() }
    } else {
        let acc = invocations_spec(pat, mode, lines.drop_last());
        let l = lines.last();
        match prompt_split(pat, l) {
            Some(pc) => CmdInvocationsV {
                initial_output: acc.initial_output,
                invocations: acc.invocations.push(
                    CmdInvocationV {
                        prompt: expected_prompt_spec(mode, pc.0),
                        cmd: trim_of(pc.1),
                        entire_prompt_line: l,
                        expected_output: Seq::empty(),
                    },
                ),
            },
            None => if acc.invocations.len() == 0 {
                CmdInvocationsV {
                    initial_output: acc.initial_output.push(l),
                    invocations: acc.invocations,
                }
            } else {
                let k = acc.invocations.len() - 1;
                let prev = acc.invocations[k as int];
                CmdInvocationsV {
                    initial_output: acc.initial_output,
                    invocations: acc.invocations.update(
                        k as int,
                        CmdInvocationV {
                            prompt: prev.prompt,
                            cmd: prev.cmd,
                            entire_prompt_line: prev.entire_prompt_line,
                            expected_output: prev.expected_output.push(l),
                        },
                    ),
                }
            },
        }
    }
}

/// Derive a block's command invocations from its expected lines.
#[verifier::loop_isolation(false)]
pub fn repl_block_to_cmd_invocations(block: &ReplBlock) -> (r: CmdInvocations)
    ensures
        r@ == invocations_spec(block@.prompt, block@.prompt_mode, block@.expected),
{
    let ghost pat = block@.prompt;
    let ghost mode = block@.prompt_mode;
    let ghost edv = block@.expected;
    let mut initial: Vec<String> = Vec::new();
    let mut invs: Vec<CmdInvocation> = Vec::new();
    proof {
        assert(edv.subrange(0, 0).len() == 0);
        assert(initial.deep_view() =~= Seq::<Seq<char>>::empty());
        assert(invs.deep_view() =~= Seq::<CmdInvocationV>::empty());
    }
    let mut i: usize = 0;
    while i < block.expected.len()
        invariant
            i <= block.expected.len(),
            initial.deep_view() == invocations_spec(pat, mode, edv.subrange(0, i as int))
                .initial_output,
            invs.deep_view() == invocations_spec(pat, mode, edv.subrange(0, i as int)).invocations,
        decreases block.expected.len() - i,
    {
        let ghost pre = edv.subrange(0, i as int);
        let ghost pre1 = edv.subrange(0, i + 1);
        proof {
            assert(pre1.drop_last() =~= pre);
            assert(pre1.last() == edv[i as int]);
        }
        let line = &block.expected[i];
        let mut is_prompt_line = false;
        let mut prompt_text = String::new();
        let mut cmd_text = String::new();
        match find_prompt_match(&block.prompt, line) {
            Some((s, p, c)) => {
                if s == 0 && !p.as_str().is_empty() {
                    is_prompt_line = true;
                    prompt_text = p;
                    cmd_text = c;
                }
            },
            None => {},
        }
        if is_prompt_line {
            let prompt = match block.prompt_mode {
                PromptMode::Fixed => ExpectedPrompt::Fixed(prompt_text),
                PromptMode::Flexible => ExpectedPrompt::Flexible,
                PromptMode::Updatable => ExpectedPrompt::Updatable,
            };
            let inv = CmdInvocation {
                prompt,
                cmd: trim(&cmd_text),
                entire_prompt_line: line.clone(),
                expected_output: Vec::new(),
            };
            proof {
                assert(inv@.expected_output =~= Seq::<Seq<char>>::empty());
            }
            let ghost invv = inv@;
            let ghost prev_invs = invs.deep_view();
            invs.push(inv);
            proof {
                assert(invs.deep_view() =~= prev_invs.push(invv));
            }
        } else {
            match invs.pop() {
                None => {
                    let ghost prev_init = initial.deep_view();
                    initial.push(line.clone());
                    proof {
                        assert(initial.deep_view() =~= prev_init.push(edv[i as int]));
                        assert(invs.deep_view() =~= Seq::<CmdInvocationV>::empty());
                    }
                },
                Some(mut last) => {
                    let ghost prev_invs_full = invocations_spec(pat, mode, pre).invocations;
                    let ghost lastv = last@;
                    proof {
                        assert(invs.deep_view() =~= prev_invs_full.drop_last());
                        assert(lastv == prev_invs_full.last());
                    }
                    let ghost prev_out = last.expected_output.deep_view();
                    last.expected_output.push(line.clone());
                    proof {
                        assert(last.expected_output.deep_view() =~= prev_out.push(edv[i as int]));
                    }
                    let ghost newv = last@;
                    let ghost shorter = invs.deep_view();
                    invs.push(last);
                    proof {
                        assert(invs.deep_view() =~= shorter.push(newv));
                        assert(shorter.push(newv) =~= prev_invs_full.update(
                            prev_invs_full.len() - 1,
                            newv,
                        ));
                    }
                },
            }
        }
        i += 1;
    }
    proof {
        assert(edv.subrange(0, block.expected.len() as int) =~= edv);
    }
    CmdInvocations { initial_output: initial, invocations: invs }
}

/// One wait that the caller must perform against the live process before the
/// next command: either wait for this exact literal prompt text, or wait for
/// a match of this prompt regex.
#[derive(Debug, Clone, PartialEq, Eq)]
pub enum PromptRequest {
    Literal(String),
    Pattern(String),
}

/// The mathematical shape of a `PromptRequest`.
pub enum PromptRequestV {
    Literal(Seq<char>),
    Pattern(Seq<char>),
}

impl View for PromptRequest {
    type V = PromptRequestV;

    open spec fn view(&self) -> PromptRequestV {
        match self {
            PromptRequest::Literal(t) => PromptRequestV::Literal(t@),
            PromptRequest::Pattern(t) => PromptRequestV::Pattern(t@),
        }
    }
}

/// The run of one block against a live process: the derived invocations, the
/// index of the next one, the expected output still to be matched before the
/// next prompt, and the block's accumulating line buffer. The caller performs
/// the waits and sends; every decision in between is made here.
pub struct BlockRun {
    pub prompt: String,
    pub invocations: Vec<CmdInvocation>,
    pub idx: usize,
    pub pending: Vec<String>,
    pub buf: LinesCow,
}

impl BlockRun {
    /// Start the run of one block: derive its invocations; the expected
    /// output before the first command is the first thing to match.
    pub fn new(block: &ReplBlock) -> (r: BlockRun)
        ensures
            r.prompt@ == block@.prompt,
            r.idx == 0,
            r.invocations.deep_view() == invocations_spec(
                block@.prompt,
                block@.prompt_mode,
                block@.expected,
            ).invocations,
            r.pending.deep_view() == invocations_spec(
                block@.prompt,
                block@.prompt_mode,
                block@.expected,
            ).initial_output,
            r.buf.lines() == Seq::<Seq<char>>::empty(),
            !r.buf.is_owned(),
    {
        let ci = repl_block_to_cmd_invocations(block);
        BlockRun {
            prompt: block.prompt.clone(),
            invocations: ci.invocations,
            idx: 0,
            pending: ci.initial_output,
            buf: LinesCow::new(),
        }
    }

    /// The wait to perform before the next command: the document's prompt
    /// text for a fixed prompt, the block's prompt regex otherwise. `None`
    /// when every invocation has run.
    pub fn next_request(&self) -> (r: Option<PromptRequest>)
        ensures
            match r {
                None => self.idx >= self.invocations.len(),
                Some(req) => self.idx < self.invocations.len() && req@ == (
                match self.invocations.deep_view()[self.idx as int].prompt {
                    ExpectedPromptV::Fixed(t) => PromptRequestV::Literal(t),
                    ExpectedPromptV::Flexible => PromptRequestV::Pattern(self.prompt@),
                    ExpectedPromptV::Updatable => PromptRequestV::Pattern(self.prompt@),
                }),
            },
    {
        if self.idx >= self.invocations.len() {
            return None;
        }
        match &self.invocations[self.idx].prompt {
            ExpectedPrompt::Fixed(t) => Some(PromptRequest::Literal(t.clone())),
            ExpectedPrompt::Flexible => Some(PromptRequest::Pattern(self.prompt.clone())),
            ExpectedPrompt::Updatable => Some(PromptRequest::Pattern(self.prompt.clone())),
        }
    }

    /// Feed the lines read before the prompt, and the observed prompt text,
    /// into the run. On success the reconciled lines and the prompt line are
    /// appended to the block's buffer, the next expected output becomes
    /// pending, and the command to send is handed back. On a match failure
    /// the run is left unchanged and the caller abandons the session.
    pub fn feed(&mut self, read_lines: &Vec<String>, actual_prompt: &String) -> (r: Result<
        String,
        ParseError,
    >)
        requires
            old(self).idx < old(self).invocations.len(),
        ensures
            ({
                let inv = old(self).invocations.deep_view()[old(self).idx as int];
                let m = matchit_spec(old(self).pending.deep_view(), read_lines.deep_view());
                match r {
                    Err(e) => m == Err::<Option<Seq<Seq<char>>>, _>(e@) && *final(self) == *old(
                        self,
                    ),
                    Ok(cmd) => {
                        let matched: Seq<Seq<char>> = match m {
                            Ok(Some(u)) => u,
                            _ => old(self).pending.deep_view(),
                        };
                        let prompt_line: Seq<char> = match inv.prompt {
                            ExpectedPromptV::Updatable => actual_prompt@ + inv.cmd,
                            _ => inv.entire_prompt_line,
                        };
                        &&& m is Ok
                        &&& cmd@ == inv.cmd
                        &&& final(self).idx == old(self).idx + 1
                        &&& final(self).pending.deep_view() == inv.expected_output
                        &&& final(self).prompt == old(self).prompt
                        &&& final(self).invocations == old(self).invocations
                        &&& final(self).buf.lines() == old(self).buf.lines() + matched + seq![
                            prompt_line,
                        ]
                        &&& final(self).buf.is_owned() == (old(self).buf.is_owned() || m matches Ok(
                            Some(_),
                        ) || inv.prompt is Updatable)
                    },
                }
            }),
    {
        match matchit(&self.pending, read_lines) {
            Err(e) => Err(e),
            Ok(opt) => {
                match opt {
                    Some(u) => {
                        self.buf.push_owned(&u);
                    },
                    None => {
                        self.buf.push_borrowed(&self.pending);
                    },
                }
                let is_updatable = match &self.invocations[self.idx].prompt {
                    ExpectedPrompt::Updatable => true,
                    _ => false,
                };
                if is_updatable {
                    let mut prompt_line = actual_prompt.clone();
                    prompt_line.append(self.invocations[self.idx].cmd.as_str());
                    let mut one: Vec<String> = Vec::new();
                    one.push(prompt_line);
                    proof {
                        assert(one.deep_view() =~= seq![
                            actual_prompt@ + old(self).invocations.deep_view()[old(
                                self,
                            ).idx as int].cmd,
                        ]);
                    }
                    self.buf.push_owned(&one);
                } else {
                    let mut one: Vec<String> = Vec::new();
                    one.push(self.invocations[self.idx].entire_prompt_line.clone());
                    proof {
                        assert(one.deep_view() =~= seq![
                            old(self).invocations.deep_view()[old(
                                self,
                            ).idx as int].entire_prompt_line,
                        ]);
                    }
                    self.buf.push_borrowed(&one);
                }
                let out_len = self.invocations[self.idx].expected_output.len();
                self.pending = crate::common::copy_range(
                    &self.invocations[self.idx].expected_output,
                    0,
                    out_len,
                );
                proof {
                    assert(self.pending.deep_view() =~= old(self).invocations.deep_view()[old(
                        self,
                    ).idx as int].expected_output);
                }
                let cmd = self.invocations[self.idx].cmd.clone();
                self.idx = self.idx + 1;
                Ok(cmd)
            },
        }
    }

    /// Close the run: the expected output after the last command is kept
    /// verbatim. The result is the block's full replacement lines if any
    /// push promoted the buffer to owned, and `None` when nothing changed.
    pub fn finish(self) -> (r: Option<Vec<String>>)
        ensures
            match r {
                Some(v) => self.buf.is_owned() && v.deep_view() == self.buf.lines()
                    + self.pending.deep_view(),
                None => !self.buf.is_owned(),
            },
    {
        let mut buf = self.buf;
        buf.push_borrowed(&self.pending);
        buf.maybe_owned()
    }
}

} // verus!
