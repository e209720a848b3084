//! A buffer of lines that remembers whether any of its content ever had to be
//! freshly computed, or whether everything in it came verbatim from the source
//! document.

use vstd::prelude::*;

verus! {

/// An ordered sequence of lines. It starts out `Borrowed`, meaning every line
/// so far is a verbatim copy of source text; the first push of freshly
/// computed lines promotes it to `Owned`, and it never reverts. The variant
/// only records provenance: the line contents are observably the same as an
/// always-owned buffer.
#[derive(Debug)]
pub enum LinesCow {
    Borrowed(Vec<String>),
    Owned(Vec<String>),
}

impl LinesCow {
    /// The lines held, regardless of provenance.
    pub open spec fn lines(self) -> Seq<Seq<char>> {
        match self {
            LinesCow::Borrowed(v) => v.deep_view(),
            LinesCow::Owned(v) => v.deep_view(),
        }
    }

    /// Whether some pushed content was freshly computed.
    pub open spec fn is_owned(self) -> bool {
        self is Owned
    }

    /// Create a new, empty list of lines.
    pub fn new() -> (r: Self)
        ensures
            r.lines() == Seq::<Seq<char>>::empty(),
            !r.is_owned(),
    {
        let r = LinesCow::Borrowed(Vec::new());
        proof {
            assert(r.lines() =~= Seq::<Seq<char>>::empty());
        }
        r
    }

    /// Push lines taken verbatim from the source. The buffer's provenance is
    /// unchanged: a borrowed buffer stays borrowed.
    pub fn push_borrowed(&mut self, lines: &Vec<String>)
        ensures
            final(self).lines() == old(self).lines() + lines.deep_view(),
            final(self).is_owned() == old(self).is_owned(),
    {
        let mut tmp = LinesCow::Borrowed(Vec::new());
        core::mem::swap(self, &mut tmp);
        match tmp {
            LinesCow::Borrowed(mut v) => {
                append_clones(&mut v, lines);
                *self = LinesCow::Borrowed(v);
            },
            LinesCow::Owned(mut v) => {
                append_clones(&mut v, lines);
                *self = LinesCow::Owned(v);
            },
        }
    }

    /// Push freshly computed lines. The buffer is promoted to owned and stays
    /// owned from now on.
    pub fn push_owned(&mut self, lines: &Vec<String>)
        ensures
            final(self).lines() == old(self).lines() + lines.deep_view(),
            final(self).is_owned(),
    {
        let mut tmp = LinesCow::Borrowed(Vec::new());
        core::mem::swap(self, &mut tmp);
        match tmp {
            LinesCow::Borrowed(mut v) => {
                append_clones(&mut v, lines);
                *self = LinesCow::Owned(v);
            },
            LinesCow::Owned(mut v) => {
                append_clones(&mut v, lines);
                *self = LinesCow::Owned(v);
            },
        }
    }

    /// `Some(lines)` if any push promoted this buffer to owned, else `None`.
    pub fn maybe_owned(self) -> (r: Option<Vec<String>>)
        ensures
            r is Some <==> self.is_owned(),
            r matches Some(v) ==> v.deep_view() == self.lines(),
    {
        match self {
            LinesCow::Owned(v) => Some(v),
            LinesCow::Borrowed(_) => None,
        }
    }
}

/// Lines joined into one text, with a newline between each pair and none at
/// the end.
pub open spec fn join_lines_spec(lines: Seq<Seq<char>>) -> Seq<char>
    decreases lines.len(),
{
    if lines.len() == 0 {
        Seq::empty()
    } else if lines.len() == 1 {
        lines[0]
    } else {
        join_lines_spec(lines.drop_last()) + seq!['\n'] + lines.last()
    }
}

/// Join lines into one text, with a newline between each pair.
#[verifier::loop_isolation(false)]
pub fn join_lines(lines: &Vec<String>) -> (r: String)
    ensures
        r@ == join_lines_spec(lines.deep_view()),
{
    let ghost dv = lines.deep_view();
    let mut r = String::new();
    let mut i: usize = 0;
    proof {
        assert(dv.subrange(0, 0).len() == 0);
    }
    while i < lines.len()
        invariant
            i <= lines.len(),
            r@ == join_lines_spec(dv.subrange(0, i as int)),
        decreases lines.len() - i,
    {
        let ghost pre1 = dv.subrange(0, i + 1);
        proof {
            assert(pre1.drop_last() =~= dv.subrange(0, i as int));
            assert(pre1.last() == dv[i as int]);
        }
        if i > 0 {
            r.append("\n");
            proof {
                reveal_strlit("\n");
                assert("\n"@ =~= seq!['\n']);
            }
        }
        r.append(lines[i].as_str());
        i += 1;
    }
    proof {
        assert(dv.subrange(0, lines.len() as int) =~= dv);
    }
    r
}

/// Append a clone of every line of `lines[from..to]` to `v`, in order.
pub(crate) fn append_range(v: &mut Vec<String>, lines: &Vec<String>, from: usize, to: usize)
    requires
        from <= to <= lines.len(),
    ensures
        final(v).deep_view() == old(v).deep_view() + lines.deep_view().subrange(
            from as int,
            to as int,
        ),
{
    let ghost orig = v.deep_view();
    let ghost target = lines.deep_view().subrange(from as int, to as int);
    let mut i: usize = from;
    while i < to
        invariant
            from <= i <= to <= lines.len(),
            target == lines.deep_view().subrange(from as int, to as int),
            v.deep_view() =~= orig + lines.deep_view().subrange(from as int, i as int),
        decreases to - i,
    {
        let ghost prev = v.deep_view();
        v.push(lines[i].clone());
        proof {
            let dv = lines.deep_view();
            let new = v.deep_view();
            assert(new.len() == prev.len() + 1);
            assert forall|j: int| 0 <= j < new.len() implies new[j] == prev.push(dv[i as int])[j]
                by {
                if j < prev.len() {
                    assert(v@[j].deep_view() == prev[j]);
                } else {
                    assert(v@[j].deep_view() == dv[i as int]);
                }
            }
            assert(new =~= prev.push(dv[i as int]));
            assert(prev.push(dv[i as int]) =~= orig + dv.subrange(from as int, i + 1));
        }
        i += 1;
    }
}

/// A fresh vector holding a clone of every line of `lines[from..to]`.
pub(crate) fn copy_range(lines: &Vec<String>, from: usize, to: usize) -> (r: Vec<String>)
    requires
        from <= to <= lines.len(),
    ensures
        r.deep_view() == lines.deep_view().subrange(from as int, to as int),
{
    let mut r: Vec<String> = Vec::new();
    proof {
        assert(r.deep_view() =~= Seq::<Seq<char>>::empty());
    }
    append_range(&mut r, lines, from, to);
    proof {
        assert(r.deep_view() =~= lines.deep_view().subrange(from as int, to as int));
    }
    r
}

/// Append a clone of every line of `lines` to `v`, in order.
pub(crate) fn append_clones(v: &mut Vec<String>, lines: &Vec<String>)
    ensures
        final(v).deep_view() == old(v).deep_view() + lines.deep_view(),
{
    let ghost orig = v.deep_view();
    let mut i: usize = 0;
    while i < lines.len()
        invariant
            i <= lines.len(),
            v.deep_view() =~= orig + lines.deep_view().subrange(0, i as int),
        decreases lines.len() - i,
    {
        let ghost prev = v.deep_view();
        v.push(lines[i].clone());
        proof {
            let dv = lines.deep_view();
            let new = v.deep_view();
            assert(new.len() == prev.len() + 1);
            assert forall|j: int| 0 <= j < new.len() implies new[j] == prev.push(dv[i as int])[j]
                by {
                if j < prev.len() {
                    assert(v@[j].deep_view() == prev[j]);
                } else {
                    assert(v@[j].deep_view() == dv[i as int]);
                }
            }
            assert(new =~= prev.push(dv[i as int]));
            assert(prev.push(dv[i as int]) =~= orig + dv.subrange(0, i + 1));
        }
        i += 1;
    }
    proof {
        assert(lines.deep_view().subrange(0, lines.len() as int) =~= lines.deep_view());
    }
}

} // verus!
