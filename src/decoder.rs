//! Recovers frames from a byte stream in which a zero byte ends each frame.
use vstd::prelude::*;
use crate::frame::{cobs_decode, decode, FrameError};

verus! {

/// Splits `s` on zero bytes, with `cur` the partial span already seen: the
/// complete spans in order, and the bytes of the span not yet ended.
pub open spec fn split_spans(cur: Seq<u8>, s: Seq<u8>) -> (Seq<Seq<u8>>, Seq<u8>)
    decreases s.len(),
{
    if s.len() == 0 {
        (seq![], cur)
    } else if s[0] == 0 {
        let rest = split_spans(seq![], s.skip(1));
        (seq![cur] + rest.0, rest.1)
    } else {
        split_spans(cur.push(s[0]), s.skip(1))
    }
}

/// The complete (delimiter-terminated) spans of a stream, in arrival order.
pub open spec fn spans(s: Seq<u8>) -> Seq<Seq<u8>> {
    split_spans(seq![], s).0
}

/// The trailing span of a stream that no delimiter has ended yet.
pub open spec fn remainder(s: Seq<u8>) -> Seq<u8> {
    split_spans(seq![], s).1
}

/// The decoded frames of a stream, one per complete span.
pub open spec fn frames(s: Seq<u8>) -> Seq<Option<Seq<u8>>> {
    spans(s).map_values(|sp: Seq<u8>| cobs_decode(sp))
}

pub open spec fn no_zero(s: Seq<u8>) -> bool {
    forall|i: int| 0 <= i < s.len() ==> s[i] != 0
}

proof fn lemma_split_no_zero(cur: Seq<u8>, s: Seq<u8>)
    requires
        no_zero(s),
    ensures
        split_spans(cur, s) == (Seq::<Seq<u8>>::empty(), cur + s),
    decreases s.len(),
{
    if s.len() == 0 {
        assert(cur + s =~= cur);
    } else {
        assert(s[0] != 0);
        assert forall|i: int| 0 <= i < s.skip(1).len() implies s.skip(1)[i] != 0 by {
            assert(s.skip(1)[i] == s[i + 1]);
        }
        lemma_split_no_zero(cur.push(s[0]), s.skip(1));
        assert(cur.push(s[0]) + s.skip(1) =~= cur + s);
    }
}

proof fn lemma_split_at_zero(cur: Seq<u8>, s: Seq<u8>, j: int)
    requires
        0 <= j < s.len(),
        s[j] == 0,
        forall|i: int| 0 <= i < j ==> s[i] != 0,
    ensures
        split_spans(cur, s) == (
            seq![cur + s.take(j)] + split_spans(seq![], s.skip(j + 1)).0,
            split_spans(seq![], s.skip(j + 1)).1,
        ),
    decreases j,
{
    if j == 0 {
        assert(cur + s.take(0) =~= cur);
        assert(s.skip(1) =~= s.skip(j + 1));
    } else {
        assert(s[0] != 0);
        let t = s.skip(1);
        assert forall|i: int| 0 <= i < j - 1 implies t[i] != 0 by {
            assert(t[i] == s[i + 1]);
        }
        assert(t[j - 1] == s[j]);
        lemma_split_at_zero(cur.push(s[0]), t, j - 1);
        assert(cur.push(s[0]) + t.take(j - 1) =~= cur + s.take(j));
        assert(t.skip(j) =~= s.skip(j + 1));
    }
}

proof fn lemma_split_append(cur: Seq<u8>, a: Seq<u8>, b: Seq<u8>)
    ensures
        split_spans(cur, a + b) == (
            split_spans(cur, a).0 + split_spans(split_spans(cur, a).1, b).0,
            split_spans(split_spans(cur, a).1, b).1,
        ),
    decreases a.len(),
{
    if a.len() == 0 {
        assert(a + b =~= b);
        assert(seq![] + split_spans(cur, b).0 =~= split_spans(cur, b).0);
    } else {
        assert((a + b)[0] == a[0]);
        assert((a + b).skip(1) =~= a.skip(1) + b);
        if a[0] == 0 {
            lemma_split_append(seq![], a.skip(1), b);
            let r = split_spans(seq![], a.skip(1));
            let q = split_spans(r.1, b);
            assert(seq![cur] + (r.0 + q.0) =~= (seq![cur] + r.0) + q.0);
        } else {
            lemma_split_append(cur.push(a[0]), a.skip(1), b);
        }
    }
}

/// Feeding a stream in two chunks, and draining every frame after each, yields
/// the same frames in the same order, and the same unfinished span, as feeding
/// it all at once.
pub proof fn lemma_chunked_feed(a: Seq<u8>, b: Seq<u8>)
    ensures
        spans(a + b) == spans(a) + spans(remainder(a) + b),
        frames(a + b) == frames(a) + frames(remainder(a) + b),
        remainder(a + b) == remainder(remainder(a) + b),
{
    lemma_split_append(seq![], a, b);
    let r = remainder(a);
    lemma_remainder_no_zero(seq![], a);
    lemma_split_append(seq![], r, b);
    lemma_split_no_zero(seq![], r);
    assert(seq![] + r =~= r);
    assert(Seq::<Seq<u8>>::empty() + split_spans(r, b).0 =~= split_spans(r, b).0);
    let f = |sp: Seq<u8>| cobs_decode(sp);
    assert((spans(a) + spans(r + b)).map_values(f) =~= spans(a).map_values(f) + spans(r + b).map_values(f));
}

proof fn lemma_remainder_no_zero(cur: Seq<u8>, s: Seq<u8>)
    requires
        no_zero(cur),
    ensures
        no_zero(split_spans(cur, s).1),
    decreases s.len(),
{
    if s.len() > 0 {
        if s[0] == 0 {
            lemma_remainder_no_zero(seq![], s.skip(1));
        } else {
            assert forall|i: int| 0 <= i < cur.push(s[0]).len() implies cur.push(s[0])[i] != 0 by {
                if i < cur.len() {
                    assert(cur.push(s[0])[i] == cur[i]);
                }
            }
            lemma_remainder_no_zero(cur.push(s[0]), s.skip(1));
        }
    }
}

/// A growable buffer of received bytes with a cursor at the first byte not
/// yet consumed as part of a frame.
pub struct FrameDecoder {
    buf: Vec<u8>,
    pos: usize,
}

impl FrameDecoder {
    /// The bytes received and not yet consumed.
    pub closed spec fn pending(&self) -> Seq<u8> {
        self.buf@.skip(self.pos as int)
    }

    /// How many bytes the buffer holds, consumed ones included.
    pub closed spec fn buffered(&self) -> nat {
        self.buf@.len()
    }

    pub closed spec fn wf(&self) -> bool {
        self.pos <= self.buf@.len()
    }

    pub fn new() -> (r: FrameDecoder)
        ensures
            r.wf(),
            r.pending() == Seq::<u8>::empty(),
    {
        let r = FrameDecoder { buf: Vec::new(), pos: 0 };
        assert(r.pending() =~= Seq::<u8>::empty());
        r
    }

    /// Appends received bytes; returns no frames.
    pub fn feed(&mut self, bytes: &[u8])
        requires
            old(self).wf(),
        ensures
            final(self).wf(),
            final(self).pending() == old(self).pending() + bytes@,
    {
        let ghost p0 = self.pending();
        let mut i: usize = 0;
        while i < bytes.len()
            invariant
                self.wf(),
                i <= bytes@.len(),
                self.pending() == p0 + bytes@.take(i as int),
            decreases bytes@.len() - i,
        {
            let ghost b0 = self.buf@;
            self.buf.push(bytes[i]);
            assert(self.buf@.skip(self.pos as int) =~= b0.skip(self.pos as int).push(bytes@[i as int]));
            assert(bytes@.take(i + 1) =~= bytes@.take(i as int).push(bytes@[i as int]));
            i = i + 1;
        }
        assert(bytes@.take(i as int) =~= bytes@);
    }

    /// Takes the next complete frame, if a delimiter has arrived, and decodes it.
    /// A frame with malformed stuffing comes back as an error and is consumed.
    pub fn next_frame(&mut self) -> (r: Option<Result<Vec<u8>, FrameError>>)
        requires
            old(self).wf(),
        ensures
            final(self).wf(),
            r is None <==> spans(old(self).pending()).len() == 0,
            r is None ==> final(self).pending() == old(self).pending(),
            r is None ==> remainder(old(self).pending()) == old(self).pending(),
            r is Some ==> spans(final(self).pending()) == spans(old(self).pending()).skip(1),
            remainder(final(self).pending()) == remainder(old(self).pending()),
            match r {
                Some(Ok(v)) => frames(old(self).pending())[0] == Some(v@),
                Some(Err(_)) => frames(old(self).pending())[0] is None,
                None => true,
            },
    {
        let ghost p = self.pending();
        let n = self.buf.len();
        let mut j: usize = self.pos;
        while j < n && self.buf[j] != 0
            invariant
                self.wf(),
                p == self.pending(),
                n == self.buf@.len(),
                self.pos <= j <= n,
                forall|i: int| 0 <= i < j - self.pos ==> p[i] != 0,
            decreases n - j,
        {
            assert(p[j - self.pos] == self.buf@[j as int]);
            j = j + 1;
        }
        if j == n {
            proof {
                lemma_split_no_zero(seq![], p);
                assert(Seq::<u8>::empty() + p =~= p);
            }
            return None;
        }
        let ghost k = j - self.pos;
        assert(p[k] == 0);
        proof {
            lemma_split_at_zero(seq![], p, k);
            assert(Seq::<u8>::empty() + p.take(k) =~= p.take(k));
        }
        let mut span: Vec<u8> = Vec::new();
        let mut i: usize = self.pos;
        while i < j
            invariant
                self.wf(),
                p == self.pending(),
                self.pos <= i <= j,
                j < self.buf@.len(),
                k == j - self.pos,
                span@ == p.take(i - self.pos),
            decreases j - i,
        {
            assert(p[i - self.pos] == self.buf@[i as int]);
            span.push(self.buf[i]);
            assert(p.take(i + 1 - self.pos) =~= p.take(i - self.pos).push(p[i - self.pos]));
            i = i + 1;
        }
        self.pos = j + 1;
        assert(self.pending() =~= p.skip(k + 1));
        let ghost sp = spans(p);
        assert(sp[0] == p.take(k));
        assert(spans(self.pending()) =~= sp.skip(1));
        Some(decode(span.as_slice()))
    }

    /// Drops the consumed bytes from the front of the buffer, keeping the
    /// pending ones.
    pub fn compact(&mut self)
        requires
            old(self).wf(),
        ensures
            final(self).wf(),
            final(self).pending() == old(self).pending(),
            final(self).buffered() == old(self).pending().len(),
    {
        let ghost p = self.pending();
        let mut nb: Vec<u8> = Vec::new();
        let mut i: usize = self.pos;
        while i < self.buf.len()
            invariant
                self.wf(),
                p == self.pending(),
                self.pos <= i <= self.buf@.len(),
                nb@ == p.take(i - self.pos),
            decreases self.buf@.len() - i,
        {
            assert(p[i - self.pos] == self.buf@[i as int]);
            nb.push(self.buf[i]);
            assert(p.take(i + 1 - self.pos) =~= p.take(i - self.pos).push(p[i - self.pos]));
            i = i + 1;
        }
        assert(p.take(p.len() as int) =~= p);
        self.buf = nb;
        self.pos = 0;
        assert(self.pending() =~= p);
    }
}

} // verus!
