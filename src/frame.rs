//! COBS byte stuffing: frames are separated by a zero byte, and the
//! stuffing transform removes every zero from a frame's contents.
use vstd::prelude::*;

verus! {

/// Number of leading nonzero bytes of `y`.
pub open spec fn nz_prefix(y: Seq<u8>) -> nat
    decreases y.len(),
{
    if y.len() == 0 || y[0] == 0 {
        0
    } else {
        1 + nz_prefix(y.skip(1))
    }
}

/// Length of the data run that the next code byte covers (at most 254).
pub open spec fn block_len(y: Seq<u8>) -> nat {
    if nz_prefix(y) < 254 {
        nz_prefix(y)
    } else {
        254
    }
}

/// Stuffing of a sequence that ends with the implicit trailing zero.
pub open spec fn stuff(y: Seq<u8>) -> Seq<u8>
    decreases y.len(),
{
    let k = block_len(y) as int;
    if y.len() == 0 {
        seq![]
    } else if k < 254 && k < y.len() {
        seq![(k + 1) as u8] + y.take(k as int) + stuff(y.skip(k + 1))
    } else if k == 254 && y.len() > 254 {
        seq![255u8] + y.take(254) + stuff(y.skip(254))
    } else {
        seq![(k + 1) as u8] + y
    }
}

/// The COBS encoding of `x` (without the frame delimiter).
pub open spec fn cobs_encode(x: Seq<u8>) -> Seq<u8> {
    stuff(x.push(0))
}

/// Undoes the block structure; `None` when a code byte is zero or runs past the end.
pub open spec fn unstuff(e: Seq<u8>) -> Option<Seq<u8>>
    decreases e.len(),
{
    if e.len() == 0 {
        Some(seq![])
    } else if e[0] == 0 || e[0] as int > e.len() {
        None
    } else {
        let c = e[0] as int;
        match unstuff(e.skip(c)) {
            None => None,
            Some(r) => Some(e.subrange(1, c) + (if c == 255 { seq![] } else { seq![0u8] }) + r),
        }
    }
}

/// The COBS decoding of one frame; the empty frame decodes to the empty sequence.
pub open spec fn cobs_decode(e: Seq<u8>) -> Option<Seq<u8>> {
    if e.len() == 0 {
        Some(seq![])
    } else {
        match unstuff(e) {
            Some(r) => if r.len() > 0 && r.last() == 0 {
                Some(r.drop_last())
            } else {
                None
            },
            None => None,
        }
    }
}

pub open spec fn prepend(o: Seq<u8>, r: Option<Seq<u8>>) -> Option<Seq<u8>> {
    match r {
        Some(t) => Some(o + t),
        None => None,
    }
}

proof fn lemma_nz_prefix(y: Seq<u8>)
    ensures
        nz_prefix(y) <= y.len(),
        forall|i: int| 0 <= i < nz_prefix(y) ==> y[i] != 0,
        nz_prefix(y) < y.len() ==> y[nz_prefix(y) as int] == 0,
    decreases y.len(),
{
    if y.len() > 0 && y[0] != 0 {
        lemma_nz_prefix(y.skip(1));
        assert forall|i: int| 0 <= i < nz_prefix(y) implies y[i] != 0 by {
            if i > 0 {
                assert(y[i] == y.skip(1)[i - 1]);
            }
        }
    }
}

proof fn lemma_nz_prefix_at_least(y: Seq<u8>, k: int)
    requires
        0 <= k <= y.len(),
        forall|i: int| 0 <= i < k ==> y[i] != 0,
    ensures
        nz_prefix(y) >= k,
        (k == y.len() || y[k] == 0) ==> nz_prefix(y) == k,
    decreases k,
{
    if k > 0 {
        assert forall|i: int| 0 <= i < k - 1 implies y.skip(1)[i] != 0 by {
            assert(y.skip(1)[i] == y[i + 1]);
        }
        if k < y.len() {
            assert(y.skip(1)[k - 1] == y[k]);
        }
        lemma_nz_prefix_at_least(y.skip(1), k - 1);
    }
}

proof fn lemma_unstuff_stuff(y: Seq<u8>)
    requires
        y.len() > 0,
        y.last() == 0,
    ensures
        unstuff(stuff(y)) == Some(y),
    decreases y.len(),
{
    lemma_nz_prefix(y);
    let k = block_len(y) as int;
    let e = stuff(y);
    if k < 254 {
        if nz_prefix(y) == y.len() {
            assert(y[y.len() - 1] != 0);
        }
        let t = y.skip(k + 1);
        assert(e == seq![(k + 1) as u8] + y.take(k as int) + stuff(t));
        assert(e[0] == k + 1);
        assert(e.skip(k + 1) =~= stuff(t));
        assert(e.subrange(1, k + 1) =~= y.take(k as int));
        if t.len() > 0 {
            assert(t.last() == y.last());
            lemma_unstuff_stuff(t);
        }
        assert(y.take(k as int) + seq![0u8] + t =~= y);
    } else {
        if y.len() <= 254 {
            assert(y[y.len() - 1] != 0);
        }
        let t = y.skip(254);
        assert(e == seq![255u8] + y.take(254) + stuff(t));
        assert(e.skip(255) =~= stuff(t));
        assert(e.subrange(1, 255) =~= y.take(254));
        assert(t.last() == y.last());
        lemma_unstuff_stuff(t);
        assert(y.take(254) + seq![] + t =~= y);
    }
}

/// Decoding undoes encoding: `cobs_decode(cobs_encode(x)) == Some(x)` for every
/// byte sequence `x`.
pub proof fn lemma_round_trip(x: Seq<u8>)
    ensures
        cobs_decode(cobs_encode(x)) == Some(x),
{
    let y = x.push(0);
    assert(y.last() == 0);
    lemma_unstuff_stuff(y);
    assert(cobs_encode(x).len() > 0);
    assert(y.drop_last() =~= x);
}


/// A frame whose stuffing is malformed.
#[derive(Debug, Clone, Copy, PartialEq, Eq, Structural)]
pub enum FrameError {
    Malformed,
}

/// Encodes `data` with COBS; the result holds no zero byte and no delimiter.
pub fn encode(data: &[u8]) -> (r: Vec<u8>)
    requires
        data@.len() < usize::MAX - 1,
    ensures
        r@ == cobs_encode(data@),
{
    let ghost y = data@.push(0);
    let n = data.len();
    let mut out: Vec<u8> = Vec::new();
    let mut pos: usize = 0;
    assert(y.skip(0) =~= y);
    assert(out@ + stuff(y) =~= stuff(y));
    while pos <= n
        invariant
            n == data@.len(),
            y == data@.push(0),
            n < usize::MAX - 1,
            pos <= n + 1,
            out@ + stuff(y.skip(pos as int)) == stuff(y),
        decreases n + 1 - pos,
    {
        let ghost s = y.skip(pos as int);
        let mut k: usize = 0;
        while k < 254 && pos + k < n && data[pos + k] != 0
            invariant
                n == data@.len(),
                y == data@.push(0),
                s == y.skip(pos as int),
                pos <= n,
                k <= 254,
                pos + k <= n,
                forall|i: int| 0 <= i < k ==> s[i] != 0,
            decreases 254 - k,
        {
            assert(s[k as int] == data@[pos + k]);
            k = k + 1;
        }
        proof {
            if k < 254 {
                assert(s[k as int] == 0);
            }
            lemma_nz_prefix_at_least(s, k as int);
            assert(block_len(s) == k);
        }
        let ghost before = out@;
        if k < 254 {
            out.push((k + 1) as u8);
        } else {
            out.push(255u8);
        }
        let mut j: usize = 0;
        while j < k
            invariant
                n == data@.len(),
                y == data@.push(0),
                s == y.skip(pos as int),
                pos + k <= n,
                j <= k,
                out@ == before + seq![(if k < 254 { (k + 1) as u8 } else { 255u8 })] + s.take(j as int),
            decreases k - j,
        {
            assert(s[j as int] == data@[pos + j]);
            out.push(data[pos + j]);
            assert(s.take(j + 1) =~= s.take(j as int).push(s[j as int]));
            j = j + 1;
        }
        if k < 254 {
            assert(s.skip(k + 1) =~= y.skip(pos + k + 1));
            pos = pos + k + 1;
        } else {
            assert(s.skip(254) =~= y.skip(pos + 254));
            pos = pos + 254;
        }
    }
    assert(y.skip(pos as int).len() == 0);
    assert(out@ =~= stuff(y));
    out
}

/// Decodes one COBS frame (the bytes between two delimiters).
pub fn decode(frame: &[u8]) -> (r: Result<Vec<u8>, FrameError>)
    ensures
        match r {
            Ok(v) => cobs_decode(frame@) == Some(v@),
            Err(_) => cobs_decode(frame@) is None,
        },
{
    let ghost e = frame@;
    let n = frame.len();
    let mut out: Vec<u8> = Vec::new();
    if n == 0 {
        return Ok(out);
    }
    let mut pos: usize = 0;
    assert(e.skip(0) =~= e);
    proof {
        match unstuff(e) {
            Some(t) => assert(out@ + t =~= t),
            None => {},
        }
    }
    while pos < n
        invariant
            e == frame@,
            n == e.len(),
            pos <= n,
            unstuff(e) == prepend(out@, unstuff(e.skip(pos as int))),
        decreases n - pos,
    {
        let ghost s = e.skip(pos as int);
        let c = frame[pos];
        assert(s[0] == c);
        if c == 0 || c as usize > n - pos {
            return Err(FrameError::Malformed);
        }
        let ghost before = out@;
        let mut j: usize = 1;
        while j < c as usize
            invariant
                e == frame@,
                n == e.len(),
                s == e.skip(pos as int),
                pos + c <= n,
                1 <= j <= c,
                out@ == before + s.subrange(1, j as int),
            decreases c - j,
        {
            assert(s[j as int] == e[pos + j]);
            out.push(frame[pos + j]);
            assert(s.subrange(1, j + 1) =~= s.subrange(1, j as int).push(s[j as int]));
            j = j + 1;
        }
        if c != 255 {
            out.push(0u8);
        }
        proof {
            assert(s.skip(c as int) =~= e.skip(pos + c));
            let z: Seq<u8> = if c == 255 { seq![] } else { seq![0u8] };
            assert(out@ =~= before + (s.subrange(1, c as int) + z));
            match unstuff(e.skip(pos + c)) {
                Some(t) => {
                    assert(before + (s.subrange(1, c as int) + z + t) =~= out@ + t);
                },
                None => {},
            }
        }
        pos = pos + c as usize;
    }
    assert(e.skip(n as int).len() == 0);
    assert(unstuff(e) == Some(out@));
    if out.len() > 0 && out[out.len() - 1] == 0 {
        out.pop();
        Ok(out)
    } else {
        Err(FrameError::Malformed)
    }
}

} // verus!
