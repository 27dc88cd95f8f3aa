//! Diagnostic message records packed back to back in one decoded frame. A
//! record is a kind byte, a length byte, and that many payload bytes.
use vstd::prelude::*;

verus! {

pub const KIND_BOOT: u8 = 1;
pub const KIND_STDOUT: u8 = 2;
pub const KIND_STDERR: u8 = 3;

/// One diagnostic message.
#[derive(Debug, Clone, PartialEq, Eq)]
pub enum Message {
    Boot(Vec<u8>),
    Stdout(Vec<u8>),
    Stderr(Vec<u8>),
    Other(u8, Vec<u8>),
}

/// A record whose length runs past the end of its frame.
#[derive(Debug, Clone, Copy, PartialEq, Eq, Structural)]
pub enum MessageError {
    Truncated,
}

impl Message {
    /// The kind byte that this message was recorded under.
    pub open spec fn kind(&self) -> u8 {
        match self {
            Message::Boot(_) => KIND_BOOT,
            Message::Stdout(_) => KIND_STDOUT,
            Message::Stderr(_) => KIND_STDERR,
            Message::Other(t, _) => *t,
        }
    }

    pub open spec fn payload(&self) -> Seq<u8> {
        match self {
            Message::Boot(v) => v@,
            Message::Stdout(v) => v@,
            Message::Stderr(v) => v@,
            Message::Other(_, v) => v@,
        }
    }

    /// A recognised kind always gets its own variant, never `Other`.
    pub open spec fn canonical(&self) -> bool {
        match self {
            Message::Other(t, _) => *t != KIND_BOOT && *t != KIND_STDOUT && *t != KIND_STDERR,
            _ => true,
        }
    }
}

/// The records of a frame as (kind, payload), with `None` for a malformed
/// record, after which nothing more is read from the frame.
pub open spec fn records(s: Seq<u8>) -> Seq<Option<(u8, Seq<u8>)>>
    decreases s.len(),
{
    if s.len() == 0 {
        seq![]
    } else if s.len() < 2 || s[1] as int + 2 > s.len() {
        seq![None]
    } else {
        seq![Some((s[0], s.subrange(2, s[1] as int + 2)))] + records(s.skip(s[1] as int + 2))
    }
}

pub open spec fn record_of(x: Result<Message, MessageError>) -> Option<(u8, Seq<u8>)> {
    match x {
        Ok(m) => Some((m.kind(), m.payload())),
        Err(_) => None,
    }
}

fn make_message(kind: u8, payload: Vec<u8>) -> (m: Message)
    ensures
        m.kind() == kind,
        m.payload() == payload@,
        m.canonical(),
{
    if kind == KIND_BOOT {
        Message::Boot(payload)
    } else if kind == KIND_STDOUT {
        Message::Stdout(payload)
    } else if kind == KIND_STDERR {
        Message::Stderr(payload)
    } else {
        Message::Other(kind, payload)
    }
}

/// Decodes the messages of one frame, in order. A malformed record yields one
/// error and ends the frame.
pub fn decode(frame: &[u8]) -> (r: Vec<Result<Message, MessageError>>)
    ensures
        r@.len() == records(frame@).len(),
        forall|i: int| 0 <= i < r@.len() ==> record_of(#[trigger] r@[i]) == records(frame@)[i],
        forall|i: int| 0 <= i < r@.len() ==> (#[trigger] r@[i] matches Ok(m) ==> m.canonical()),
{
    let ghost e = frame@;
    let n = frame.len();
    let mut r: Vec<Result<Message, MessageError>> = Vec::new();
    let mut pos: usize = 0;
    assert(e.skip(0) =~= e);
    assert(r@.map_values(|x| record_of(x)) + records(e) =~= records(e));
    while pos < n
        invariant
            e == frame@,
            n == e.len(),
            pos <= n,
            r@.map_values(|x| record_of(x)) + records(e.skip(pos as int)) == records(e),
            forall|i: int| 0 <= i < r@.len() ==> (#[trigger] r@[i] matches Ok(m) ==> m.canonical()),
        decreases n - pos,
    {
        let ghost s = e.skip(pos as int);
        if n - pos < 2 || frame[pos + 1] as usize > n - pos - 2 {
            assert(s.len() < 2 || s[1] as int + 2 > s.len()) by {
                if s.len() >= 2 {
                    assert(s[1] == frame@[pos + 1]);
                }
            }
            let ghost r0 = r@;
            r.push(Err(MessageError::Truncated));
            assert(r@.map_values(|x| record_of(x)) =~= r0.map_values(|x| record_of(x)) + records(s));
            assert(r@.map_values(|x| record_of(x)) =~= records(e));
            return r;
        }
        let kind = frame[pos];
        let len = frame[pos + 1] as usize;
        assert(s[0] == kind && s[1] as usize == len);
        let mut payload: Vec<u8> = Vec::new();
        let mut j: usize = 0;
        while j < len
            invariant
                e == frame@,
                n == e.len(),
                s == e.skip(pos as int),
                pos + 2 + len <= n,
                j <= len,
                payload@ == s.subrange(2, j + 2),
            decreases len - j,
        {
            assert(s[j + 2] == e[pos + 2 + j]);
            payload.push(frame[pos + 2 + j]);
            assert(s.subrange(2, j + 3) =~= s.subrange(2, j + 2).push(s[j + 2]));
            j = j + 1;
        }
        let ghost r0 = r@;
        let m = make_message(kind, payload);
        r.push(Ok(m));
        assert(s.skip(len + 2) =~= e.skip(pos + 2 + len));
        assert(r@.map_values(|x| record_of(x)) =~= r0.map_values(|x| record_of(x)).push(
            Some((kind, s.subrange(2, len + 2))),
        ));
        assert(r@.map_values(|x| record_of(x)) + records(e.skip(pos + 2 + len)) =~= r0.map_values(
            |x| record_of(x),
        ) + records(s));
        pos = pos + 2 + len;
    }
    assert(e.skip(n as int).len() == 0);
    assert(r@.map_values(|x| record_of(x)) =~= records(e));
    proof {
        assert forall|i: int| 0 <= i < r@.len() implies record_of(#[trigger] r@[i]) == records(
            frame@,
        )[i] by {
            assert(r@.map_values(|x| record_of(x))[i] == record_of(r@[i]));
        }
    }
    r
}


/// The prefix that marks a boot banner on the console.
pub open spec fn boot_prefix() -> Seq<u8> {
    seq![98u8, 111u8, 111u8, 116u8, 58u8, 32u8]
}

/// What the console shows for a message: a boot banner after `boot: ` and
/// before a line end, standard output and error verbatim, and nothing for
/// other kinds.
pub open spec fn rendering(m: Message) -> Option<Seq<u8>> {
    match m {
        Message::Boot(v) => Some(boot_prefix() + v@ + seq![13u8, 10u8]),
        Message::Stdout(v) => Some(v@),
        Message::Stderr(v) => Some(v@),
        Message::Other(_, _) => None,
    }
}

pub(crate) fn append(out: &mut Vec<u8>, bytes: &Vec<u8>)
    ensures
        final(out)@ == old(out)@ + bytes@,
{
    let mut i: usize = 0;
    while i < bytes.len()
        invariant
            i <= bytes@.len(),
            out@ == old(out)@ + bytes@.take(i as int),
        decreases bytes@.len() - i,
    {
        out.push(bytes[i]);
        assert(bytes@.take(i + 1) =~= bytes@.take(i as int).push(bytes@[i as int]));
        i = i + 1;
    }
    assert(bytes@.take(i as int) =~= bytes@);
}

/// The bytes the console writes for `m`, or `None` for a kind it only logs.
pub fn render_message(m: &Message) -> (r: Option<Vec<u8>>)
    ensures
        match rendering(*m) {
            Some(s) => r matches Some(v) && v@ == s,
            None => r is None,
        },
{
    match m {
        Message::Boot(v) => {
            let mut out: Vec<u8> = vec![98u8, 111u8, 111u8, 116u8, 58u8, 32u8];
            assert(out@ =~= boot_prefix());
            append(&mut out, v);
            out.push(13u8);
            out.push(10u8);
            assert(out@ =~= boot_prefix() + v@ + seq![13u8, 10u8]);
            Some(out)
        },
        Message::Stdout(v) => Some(v.clone()),
        Message::Stderr(v) => Some(v.clone()),
        Message::Other(_, _) => None,
    }
}

} // verus!
