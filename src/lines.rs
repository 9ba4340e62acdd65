use vstd::prelude::*;
use vstd::utf8::{
    is_char_boundary, is_char_boundary_iff_not_is_continuation_byte, is_continuation_byte,
    pop_first_scalar, valid_utf8, valid_utf8_split,
};

verus! {

/// The line terminator of the child's output.
pub const NEWLINE: u8 = 10;

/// Splits a byte stream into its complete lines (without terminators) and the
/// unterminated remainder, taking the stream one byte at a time.
pub open spec fn split_lines(t: Seq<u8>) -> (Seq<Seq<u8>>, Seq<u8>)
    decreases t.len(),
{
    if t.len() == 0 {
        (Seq::empty(), Seq::empty())
    } else {
        let (ls, rest) = split_lines(t.drop_last());
        if t.last() == NEWLINE {
            (ls.push(rest), Seq::empty())
        } else {
            (ls, rest.push(t.last()))
        }
    }
}

/// Each line followed by a newline, all of them one after the other.
pub open spec fn terminated(ls: Seq<Seq<u8>>) -> Seq<u8>
    decreases ls.len(),
{
    if ls.len() == 0 {
        Seq::empty()
    } else {
        terminated(ls.drop_last()) + ls.last() + seq![NEWLINE]
    }
}

/// The chunks of a stream, one after the other.
pub open spec fn concat_chunks(chunks: Seq<Seq<u8>>) -> Seq<u8>
    decreases chunks.len(),
{
    if chunks.len() == 0 {
        Seq::empty()
    } else {
        concat_chunks(chunks.drop_last()) + chunks.last()
    }
}

/// What a reassembler holding `pending` hands out, and keeps, after being fed
/// `chunks` one push at a time.
pub open spec fn feed(pending: Seq<u8>, chunks: Seq<Seq<u8>>) -> (Seq<Seq<u8>>, Seq<u8>)
    decreases chunks.len(),
{
    if chunks.len() == 0 {
        (Seq::empty(), pending)
    } else {
        let (early, kept) = feed(pending, chunks.drop_last());
        let (late, rest) = split_lines(kept + chunks.last());
        (early + late, rest)
    }
}

/// Every line of a finished stream: the complete lines, then the unterminated
/// remainder as a last line when it is not empty.
pub open spec fn all_lines(t: Seq<u8>) -> Seq<Seq<u8>> {
    let (ls, rest) = split_lines(t);
    if rest.len() == 0 {
        ls
    } else {
        ls.push(rest)
    }
}

pub open spec fn newline_free(s: Seq<u8>) -> bool {
    !s.contains(NEWLINE)
}

pub open spec fn lines_view(v: Seq<Vec<u8>>) -> Seq<Seq<u8>> {
    v.map_values(|l: Vec<u8>| l@)
}

pub proof fn lemma_split_newline_free(t: Seq<u8>)
    requires
        newline_free(t),
    ensures
        split_lines(t) == (Seq::<Seq<u8>>::empty(), t),
    decreases t.len(),
{
    if t.len() > 0 {
        assert(t.drop_last().contains(NEWLINE) ==> t.contains(NEWLINE));
        lemma_split_newline_free(t.drop_last());
        assert(t.contains(t.last()));
        assert(t.drop_last().push(t.last()) =~= t);
    }
}

pub proof fn lemma_rest_newline_free(t: Seq<u8>)
    ensures
        newline_free(split_lines(t).1),
        forall|i: int| 0 <= i < split_lines(t).0.len() ==> newline_free(#[trigger] split_lines(t).0[i]),
    decreases t.len(),
{
    if t.len() > 0 {
        lemma_rest_newline_free(t.drop_last());
        let (ls, rest) = split_lines(t.drop_last());
        if t.last() != NEWLINE {
            assert forall|j: int| 0 <= j < rest.push(t.last()).len() implies rest.push(t.last())[j]
                != NEWLINE by {
                if j < rest.len() {
                    assert(rest.contains(rest[j]));
                }
            }
        } else {
            assert(ls.push(rest).last() == rest);
        }
    }
}

/// Splitting a stream in two and splitting each part, carrying the
/// remainder of the first into the second, gives the lines of the whole.
pub proof fn lemma_split_append(a: Seq<u8>, b: Seq<u8>)
    ensures
        split_lines(a + b) == ({
            let (la, ra) = split_lines(a);
            let (lb, rb) = split_lines(ra + b);
            (la + lb, rb)
        }),
    decreases b.len(),
{
    let (la, ra) = split_lines(a);
    if b.len() == 0 {
        assert(a + b =~= a);
        assert(ra + b =~= ra);
        lemma_rest_newline_free(a);
        lemma_split_newline_free(ra);
        assert(la + Seq::<Seq<u8>>::empty() =~= la);
    } else {
        let b0 = b.drop_last();
        let x = b.last();
        lemma_split_append(a, b0);
        assert((a + b).drop_last() =~= a + b0);
        assert((ra + b).drop_last() =~= ra + b0);
        assert((a + b).last() == x);
        assert((ra + b).last() == x);
        let (lb, rb) = split_lines(ra + b0);
        assert((la + lb).push(rb) =~= la + lb.push(rb));
    }
}

/// The complete lines, each followed by a newline, and then the remainder,
/// give back the stream.
pub proof fn lemma_split_round_trip(t: Seq<u8>)
    ensures
        terminated(split_lines(t).0) + split_lines(t).1 == t,
    decreases t.len(),
{
    if t.len() > 0 {
        lemma_split_round_trip(t.drop_last());
        let (ls, rest) = split_lines(t.drop_last());
        if t.last() == NEWLINE {
            assert(ls.push(rest).drop_last() =~= ls);
        }
        assert(t.drop_last().push(t.last()) =~= t);
        assert(terminated(ls) + rest.push(t.last()) =~= (terminated(ls) + rest).push(t.last()));
        assert(terminated(ls) + rest + seq![NEWLINE] + Seq::<u8>::empty() =~= (terminated(ls)
            + rest).push(NEWLINE));
    }
}

/// Feeding a stream to a reassembler in chunks, wherever the chunk
/// boundaries fall (also inside a multi-byte character), hands out exactly
/// the lines of the whole stream and keeps its unterminated remainder; the
/// lines, each followed by a newline, and then that remainder rejoin to the
/// stream.
pub proof fn lemma_chunked_round_trip(chunks: Seq<Seq<u8>>)
    ensures
        feed(Seq::empty(), chunks) == split_lines(concat_chunks(chunks)),
        terminated(feed(Seq::empty(), chunks).0) + feed(Seq::empty(), chunks).1
            == concat_chunks(chunks),
    decreases chunks.len(),
{
    if chunks.len() > 0 {
        lemma_chunked_round_trip(chunks.drop_last());
        lemma_split_append(concat_chunks(chunks.drop_last()), chunks.last());
    }
    lemma_split_round_trip(concat_chunks(chunks));
}

/// Cutting valid UTF-8 at a newline leaves valid UTF-8 on both sides.
proof fn lemma_valid_around_newline(a: Seq<u8>, b: Seq<u8>)
    requires
        valid_utf8(a + seq![NEWLINE] + b),
    ensures
        valid_utf8(a),
        valid_utf8(b),
{
    let t = a + seq![NEWLINE] + b;
    let i = a.len() as int;
    assert(t[i] == NEWLINE);
    assert(!is_continuation_byte(t[i]));
    is_char_boundary_iff_not_is_continuation_byte(t, i);
    assert(is_char_boundary(t, i));
    valid_utf8_split(t, i);
    assert(t.subrange(0, i) =~= a);
    let nb = t.subrange(i, t.len() as int);
    assert(nb =~= seq![NEWLINE] + b);
    assert(pop_first_scalar(nb) =~= b);
}

proof fn lemma_valid_terminated(ls: Seq<Seq<u8>>, r: Seq<u8>)
    requires
        valid_utf8(terminated(ls) + r),
    ensures
        valid_utf8(r),
        forall|i: int| 0 <= i < ls.len() ==> valid_utf8(#[trigger] ls[i]),
    decreases ls.len(),
{
    if ls.len() > 0 {
        let front = terminated(ls.drop_last());
        assert(terminated(ls) + r =~= (front + ls.last()) + seq![NEWLINE] + r);
        lemma_valid_around_newline(front + ls.last(), r);
        lemma_valid_terminated(ls.drop_last(), ls.last());
        assert forall|i: int| 0 <= i < ls.len() implies valid_utf8(#[trigger] ls[i]) by {
            if i < ls.len() - 1 {
                assert(ls[i] == ls.drop_last()[i]);
            }
        }
    } else {
        assert(terminated(ls) + r =~= r);
    }
}

/// Every line of valid UTF-8 text is valid UTF-8: a newline never falls
/// inside a character.
pub proof fn lemma_lines_of_valid_text(t: Seq<u8>)
    requires
        valid_utf8(t),
    ensures
        forall|i: int| 0 <= i < all_lines(t).len() ==> valid_utf8(#[trigger] all_lines(t)[i]),
{
    lemma_split_round_trip(t);
    let (ls, rest) = split_lines(t);
    lemma_valid_terminated(ls, rest);
    if rest.len() > 0 {
        assert forall|i: int| 0 <= i < all_lines(t).len() implies valid_utf8(#[trigger] all_lines(t)[i]) by {
            if i < ls.len() {
                assert(all_lines(t)[i] == ls[i]);
            }
        }
    }
}

/// Collects a child's output into complete lines.
///
/// Bytes are kept as bytes until their line is complete, so a chunk boundary
/// that splits a multi-byte character loses nothing. The remainder never
/// holds a newline.
pub struct LineReassembler {
    pending: Vec<u8>,
}

impl View for LineReassembler {
    type V = Seq<u8>;

    closed spec fn view(&self) -> Seq<u8> {
        self.pending@
    }
}

impl LineReassembler {
    pub open spec fn wf(&self) -> bool {
        newline_free(self@)
    }

    pub fn new() -> (r: LineReassembler)
        ensures
            r@ == Seq::<u8>::empty(),
            r.wf(),
    {
        LineReassembler { pending: Vec::new() }
    }

    /// The bytes held back as the start of a line not yet complete.
    pub fn pending(&self) -> (r: &[u8])
        ensures
            r@ == self@,
    {
        self.pending.as_slice()
    }

    /// Takes a chunk of output and returns the lines it completes, in order.
    pub fn push(&mut self, chunk: &[u8]) -> (out: Vec<Vec<u8>>)
        requires
            old(self).wf(),
        ensures
            final(self).wf(),
            lines_view(out@) == split_lines(old(self)@ + chunk@).0,
            final(self)@ == split_lines(old(self)@ + chunk@).1,
    {
        let ghost start = self@;
        proof {
            lemma_split_newline_free(start);
            assert(start + chunk@.take(0) =~= start);
        }
        let mut out: Vec<Vec<u8>> = Vec::new();
        let mut i: usize = 0;
        while i < chunk.len()
            invariant
                i <= chunk@.len(),
                (lines_view(out@), self@) == split_lines(start + chunk@.take(i as int)),
            decreases chunk@.len() - i,
        {
            let b = chunk[i];
            proof {
                assert((start + chunk@.take(i + 1)).drop_last() =~= start + chunk@.take(i as int));
                assert((start + chunk@.take(i + 1)).last() == b);
            }
            if b == NEWLINE {
                let mut line: Vec<u8> = Vec::new();
                std::mem::swap(&mut line, &mut self.pending);
                out.push(line);
                assert(lines_view(out@) =~= split_lines(start + chunk@.take(i + 1)).0);
            } else {
                self.pending.push(b);
            }
            i = i + 1;
        }
        proof {
            assert(chunk@.take(i as int) =~= chunk@);
            lemma_rest_newline_free(start + chunk@);
        }
        out
    }

    /// Ends the stream: hands out the unterminated remainder as a last line,
    /// if there is one, and leaves the reassembler empty.
    pub fn finish(&mut self) -> (r: Option<Vec<u8>>)
        ensures
            final(self)@ == Seq::<u8>::empty(),
            final(self).wf(),
            old(self)@.len() == 0 ==> r is None,
            old(self)@.len() > 0 ==> (r matches Some(l) && l@ == old(self)@),
    {
        let mut line: Vec<u8> = Vec::new();
        std::mem::swap(&mut line, &mut self.pending);
        if line.len() == 0 {
            None
        } else {
            Some(line)
        }
    }
}

/// Splits a finished stream into all its lines, the unterminated remainder
/// included.
pub fn split_all(t: &[u8]) -> (r: Vec<Vec<u8>>)
    ensures
        lines_view(r@) == all_lines(t@),
{
    let mut joiner = LineReassembler::new();
    let mut r = joiner.push(t);
    proof {
        assert(Seq::<u8>::empty() + t@ =~= t@);
    }
    match joiner.finish() {
        Some(last) => {
            r.push(last);
            assert(lines_view(r@) =~= all_lines(t@));
        },
        None => {},
    }
    r
}

} // verus!
