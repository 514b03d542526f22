//! The framing of the wire protocol: one message per line, each line ended
//! by a line feed, and no line feed inside a message.

use vstd::prelude::*;

verus! {

/// The byte that ends a message.
pub const LINE_END: u8 = 10;

/// No byte of `s` is the line end.
pub open spec fn has_no_line_end(s: Seq<u8>) -> bool {
    forall|i: int| 0 <= i < s.len() ==> s[i] != LINE_END
}

/// `s` is one whole line: it ends with the line end and holds no other.
pub open spec fn is_line(s: Seq<u8>) -> bool {
    &&& s.len() > 0
    &&& s.last() == LINE_END
    &&& has_no_line_end(s.drop_last())
}

/// The lines of `lines` one after another.
pub open spec fn joined(lines: Seq<Seq<u8>>) -> Seq<u8>
    decreases lines.len(),
{
    if lines.len() == 0 {
        Seq::empty()
    } else {
        joined(lines.drop_last()) + lines.last()
    }
}

/// The contents of a vector of byte vectors.
pub open spec fn contents(lines: Seq<Vec<u8>>) -> Seq<Seq<u8>> {
    Seq::new(lines.len(), |i: int| lines[i]@)
}

/// The message followed by the line end. Where the message holds no line
/// end itself, the result is one whole line.
pub fn frame(payload: &[u8]) -> (framed: Vec<u8>)
    ensures
        framed@ == payload@.push(LINE_END),
        has_no_line_end(payload@) ==> is_line(framed@),
{
    let mut framed: Vec<u8> = Vec::new();
    let mut i: usize = 0;
    while i < payload.len()
        invariant
            i <= payload@.len(),
            framed@ == payload@.subrange(0, i as int),
        decreases payload@.len() - i,
    {
        framed.push(payload[i]);
        assert(framed@ =~= payload@.subrange(0, i + 1));
        i += 1;
    }
    assert(payload@.subrange(0, i as int) =~= payload@);
    framed.push(LINE_END);
    assert(framed@.drop_last() =~= payload@);
    framed
}

/// The bytes received on a connection that do not yet make a whole line.
pub struct LineBuffer {
    pending: Vec<u8>,
}

impl View for LineBuffer {
    type V = Seq<u8>;

    /// The bytes held back.
    closed spec fn view(&self) -> Seq<u8> {
        self.pending@
    }
}

impl LineBuffer {
    /// What is held back holds no line end: every whole line has been handed out.
    pub open spec fn well_formed(&self) -> bool {
        has_no_line_end(self@)
    }

    /// A buffer that holds nothing.
    pub fn new() -> (buffer: Self)
        ensures
            buffer.well_formed(),
            buffer@ == Seq::<u8>::empty(),
    {
        LineBuffer { pending: Vec::new() }
    }

    /// Takes in the bytes read and hands out the lines that they complete,
    /// in order and each with its line end. The lines and what is held back
    /// afterwards are, one after another, exactly what was held back before
    /// followed by `bytes`.
    pub fn feed(&mut self, bytes: &[u8]) -> (lines: Vec<Vec<u8>>)
        requires
            old(self).well_formed(),
        ensures
            final(self).well_formed(),
            forall|i: int| 0 <= i < lines@.len() ==> is_line(#[trigger] lines@[i]@),
            joined(contents(lines@)) + final(self)@ == old(self)@ + bytes@,
    {
        let mut lines: Vec<Vec<u8>> = Vec::new();
        let mut current: Vec<u8> = Vec::new();
        std::mem::swap(&mut current, &mut self.pending);
        let mut i: usize = 0;
        assert(joined(contents(lines@)) + current@ =~= old(self)@ + bytes@.subrange(0, 0));
        while i < bytes.len()
            invariant
                i <= bytes@.len(),
                has_no_line_end(current@),
                forall|k: int| 0 <= k < lines@.len() ==> is_line(#[trigger] lines@[k]@),
                joined(contents(lines@)) + current@ == old(self)@ + bytes@.subrange(0, i as int),
            decreases bytes@.len() - i,
        {
            let b = bytes[i];
            let ghost before = current@;
            let ghost done = contents(lines@);
            current.push(b);
            assert(bytes@.subrange(0, i + 1) =~= bytes@.subrange(0, i as int).push(b));
            if b == LINE_END {
                assert(current@.drop_last() =~= before);
                lines.push(current);
                current = Vec::new();
                proof {
                    let now = contents(lines@);
                    assert(now.drop_last() =~= done);
                    assert(now.last() == before.push(b));
                    assert(joined(now) + current@ =~= (joined(done) + before).push(b));
                }
            } else {
                assert(joined(done) + current@ =~= (joined(done) + before).push(b));
            }
            assert((old(self)@ + bytes@.subrange(0, i as int)).push(b) =~= old(self)@
                + bytes@.subrange(0, i + 1));
            i += 1;
        }
        assert(bytes@.subrange(0, i as int) =~= bytes@);
        self.pending = current;
        lines
    }
}

/// Every line of `lines` is one whole line.
pub open spec fn all_lines(lines: Seq<Seq<u8>>) -> bool {
    forall|i: int| 0 <= i < lines.len() ==> is_line(#[trigger] lines[i])
}

/// Whole lines, one after another, are nothing or end with the line end.
pub proof fn lemma_joined_ends_with_line_end(lines: Seq<Seq<u8>>)
    requires
        all_lines(lines),
    ensures
        lines.len() > 0 ==> joined(lines).len() > 0 && joined(lines).last() == LINE_END,
        lines.len() == 0 ==> joined(lines).len() == 0,
{
    if lines.len() > 0 {
        assert(is_line(lines.last()));
    }
}

/// A text splits in one way only into a part that is empty or ends with the
/// line end and a rest that holds no line end.
pub proof fn lemma_rest_is_unique(a1: Seq<u8>, r1: Seq<u8>, a2: Seq<u8>, r2: Seq<u8>)
    requires
        a1 + r1 == a2 + r2,
        a1.len() > 0 ==> a1.last() == LINE_END,
        a2.len() > 0 ==> a2.last() == LINE_END,
        has_no_line_end(r1),
        has_no_line_end(r2),
    ensures
        a1 == a2,
        r1 == r2,
{
    let s = a1 + r1;
    assert(s.len() == a1.len() + r1.len() && s.len() == a2.len() + r2.len());
    if a1.len() > a2.len() {
        let at = a1.len() - 1;
        assert(s[at] == a1[at]);
        assert((a2 + r2)[at] == r2[at - a2.len()]);
    }
    if a2.len() > a1.len() {
        let at = a2.len() - 1;
        assert((a2 + r2)[at] == a2[at]);
        assert(s[at] == r1[at - a1.len()]);
    }
    assert(a1 =~= s.subrange(0, a1.len() as int));
    assert(a2 =~= (a2 + r2).subrange(0, a2.len() as int));
    assert(r1 =~= s.subrange(a1.len() as int, s.len() as int));
    assert(r2 =~= (a2 + r2).subrange(a2.len() as int, s.len() as int));
}

/// Two sequences of whole lines that make the same text are the same.
pub proof fn lemma_lines_are_unique(l1: Seq<Seq<u8>>, l2: Seq<Seq<u8>>)
    requires
        all_lines(l1),
        all_lines(l2),
        joined(l1) == joined(l2),
    ensures
        l1 == l2,
    decreases l1.len(),
{
    lemma_joined_ends_with_line_end(l1);
    lemma_joined_ends_with_line_end(l2);
    if l1.len() == 0 {
        assert(l2.len() == 0);
        assert(l1 =~= l2);
    } else {
        assert(l2.len() > 0);
        let f1 = l1.drop_last();
        let f2 = l2.drop_last();
        let x1 = l1.last();
        let x2 = l2.last();
        assert(is_line(x1) && is_line(x2));
        assert(all_lines(f1)) by {
            assert forall|i: int| 0 <= i < f1.len() implies is_line(#[trigger] f1[i]) by {
                assert(f1[i] == l1[i]);
            }
        }
        assert(all_lines(f2)) by {
            assert forall|i: int| 0 <= i < f2.len() implies is_line(#[trigger] f2[i]) by {
                assert(f2[i] == l2[i]);
            }
        }
        lemma_joined_ends_with_line_end(f1);
        lemma_joined_ends_with_line_end(f2);
        let y1 = x1.drop_last();
        let y2 = x2.drop_last();
        let t = joined(l1);
        assert(t.drop_last() =~= joined(f1) + y1);
        assert(joined(l2).drop_last() =~= joined(f2) + y2);
        lemma_rest_is_unique(joined(f1), y1, joined(f2), y2);
        assert(x1 =~= y1.push(LINE_END));
        assert(x2 =~= y2.push(LINE_END));
        lemma_lines_are_unique(f1, f2);
        assert(l1 =~= f1.push(x1));
        assert(l2 =~= f2.push(x2));
    }
}

/// A text splits in one way only into whole lines and a rest without a line
/// end: what `LineBuffer::feed` hands out and holds back is determined by
/// the bytes that it has been given.
pub proof fn law_split_is_unique(l1: Seq<Seq<u8>>, r1: Seq<u8>, l2: Seq<Seq<u8>>, r2: Seq<u8>)
    requires
        all_lines(l1),
        all_lines(l2),
        has_no_line_end(r1),
        has_no_line_end(r2),
        joined(l1) + r1 == joined(l2) + r2,
    ensures
        l1 == l2,
        r1 == r2,
{
    lemma_joined_ends_with_line_end(l1);
    lemma_joined_ends_with_line_end(l2);
    lemma_rest_is_unique(joined(l1), r1, joined(l2), r2);
    lemma_lines_are_unique(l1, l2);
}

/// A framed message that holds no line end comes out of an empty buffer as
/// the one line handed out, with nothing held back.
pub proof fn law_framed_message_is_one_line(payload: Seq<u8>, lines: Seq<Seq<u8>>, rest: Seq<u8>)
    requires
        has_no_line_end(payload),
        all_lines(lines),
        has_no_line_end(rest),
        joined(lines) + rest == payload.push(LINE_END),
    ensures
        lines == seq![payload.push(LINE_END)],
        rest == Seq::<u8>::empty(),
{
    let line = payload.push(LINE_END);
    let one = seq![line];
    assert(line.drop_last() =~= payload);
    assert(is_line(line));
    assert(one.drop_last() =~= Seq::<Seq<u8>>::empty());
    assert(joined(one) =~= line) by {
        assert(joined(one.drop_last()) =~= Seq::<u8>::empty());
    }
    assert(joined(one) + Seq::<u8>::empty() =~= line);
    law_split_is_unique(lines, rest, one, Seq::<u8>::empty());
}

} // verus!
