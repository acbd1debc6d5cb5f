use vstd::prelude::*;
use vstd::slice::slice_subrange;
use crate::dbus;

verus! {

/// A command for the browser extension.
#[derive(Clone, Copy, Debug, PartialEq, Eq, Structural)]
pub enum Command {
    Close { tab: i32 },
    CreateEmpty {},
    Refresh {},
}

/// The command the extension in browser `pid` gets for a signal, if the
/// signal is meant for it.
pub open spec fn spec_for_browser(signal: dbus::Command, pid: u32) -> Option<Command> {
    match signal {
        dbus::Command::TabClose { pid: p, tab } => if p == pid {
            Some(Command::Close { tab })
        } else {
            None
        },
        dbus::Command::TabCreateEmpty { pid: p } => if p == pid {
            Some(Command::CreateEmpty {})
        } else {
            None
        },
        dbus::Command::Refresh {} => Some(Command::Refresh {}),
    }
}

pub fn for_browser(signal: &dbus::Command, pid: u32) -> (r: Option<Command>)
    ensures
        r == spec_for_browser(*signal, pid),
{
    match signal {
        dbus::Command::TabClose { pid: p, tab } => if *p == pid {
            Some(Command::Close { tab: *tab })
        } else {
            None
        },
        dbus::Command::TabCreateEmpty { pid: p } => if *p == pid {
            Some(Command::CreateEmpty {})
        } else {
            None
        },
        dbus::Command::Refresh {} => Some(Command::Refresh {}),
    }
}

#[derive(Clone, Copy, Debug, PartialEq, Eq, Structural)]
pub enum ErrorKind {
    /// The input ended inside a frame.
    UnexpectedEof,
    /// The message is too long for a frame.
    InvalidInput,
}

/// Why a frame could not be read or written.
#[derive(Clone, Copy, Debug, PartialEq, Eq, Structural)]
pub struct FrameError {
    pub kind: ErrorKind,
}

impl FrameError {
    pub fn kind(&self) -> (r: ErrorKind)
        ensures
            r == self.kind,
    {
        self.kind
    }
}

/// The little-endian number in four bytes.
pub open spec fn spec_le_u32(b: Seq<u8>) -> int {
    b[0] as int + 256 * b[1] as int + 65536 * b[2] as int + 16777216 * b[3] as int
}

/// The four little-endian bytes of `n`.
pub open spec fn spec_le_bytes(n: u32) -> Seq<u8> {
    seq![(n % 256) as u8, ((n / 256) % 256) as u8, ((n / 65536) % 256) as u8, (n / 16777216) as u8]
}

pub fn le_u32(b: &[u8]) -> (r: u32)
    requires
        b@.len() == 4,
    ensures
        r == spec_le_u32(b@),
{
    b[0] as u32 + 256 * b[1] as u32 + 65536 * b[2] as u32 + 16777216 * b[3] as u32
}

/// Reads one frame (a little-endian `u32` length, then that many bytes) off
/// the front of `input`.
pub fn read(input: &mut &[u8]) -> (r: Result<Vec<u8>, FrameError>)
    ensures
        ({
            let s = old(input)@;
            if s.len() < 4 || s.len() < 4 + spec_le_u32(s) {
                r == Err::<Vec<u8>, FrameError>(FrameError { kind: ErrorKind::UnexpectedEof }) && final(input)@ == s
            } else {
                let end = 4 + spec_le_u32(s);
                r matches Ok(m) && m@ == s.subrange(4, end) && final(input)@ == s.subrange(end, s.len() as int)
            }
        }),
{
    let data: &[u8] = *input;
    if data.len() < 4 {
        return Err(FrameError { kind: ErrorKind::UnexpectedEof });
    }
    let len = le_u32(slice_subrange(data, 0, 4));
    assert(data@.subrange(0, 4) =~= seq![data@[0], data@[1], data@[2], data@[3]]);
    if (data.len() as u64) < 4 + len as u64 {
        return Err(FrameError { kind: ErrorKind::UnexpectedEof });
    }
    let end: usize = 4 + len as usize;
    let mut message: Vec<u8> = Vec::new();
    let mut i: usize = 4;
    while i < end
        invariant
            4 <= i <= end,
            end <= data@.len(),
            message@ == data@.subrange(4, i as int),
        decreases end - i,
    {
        message.push(data[i]);
        i += 1;
        assert(message@ =~= data@.subrange(4, i as int));
    }
    *input = slice_subrange(data, end, data.len());
    Ok(message)
}

/// Appends one frame holding `data` to `output`.
pub fn write(data: &[u8], output: &mut Vec<u8>) -> (r: Result<(), FrameError>)
    ensures
        data@.len() > u32::MAX ==> r == Err::<(), FrameError>(FrameError { kind: ErrorKind::InvalidInput })
            && final(output)@ == old(output)@,
        data@.len() <= u32::MAX ==> r == Ok::<(), FrameError>(()) && final(output)@ == old(output)@ + spec_le_bytes(
            data@.len() as u32,
        ) + data@,
{
    if data.len() as u64 > u32::MAX as u64 {
        return Err(FrameError { kind: ErrorKind::InvalidInput });
    }
    let n = data.len() as u32;
    let ghost start = output@;
    output.push((n % 256) as u8);
    output.push(((n / 256) % 256) as u8);
    output.push(((n / 65536) % 256) as u8);
    output.push((n / 16777216) as u8);
    assert(output@ =~= start + spec_le_bytes(n));
    let ghost head = output@;
    let mut i: usize = 0;
    while i < data.len()
        invariant
            0 <= i <= data@.len(),
            output@ == head + data@.subrange(0, i as int),
        decreases data@.len() - i,
    {
        output.push(data[i]);
        i += 1;
        assert(output@ =~= head + data@.subrange(0, i as int));
    }
    assert(data@.subrange(0, i as int) =~= data@);
    Ok(())
}

/// A frame written for `data` and read back gives `data`, and leaves what
/// followed it.
pub proof fn lemma_frame_round_trip(data: Seq<u8>, rest: Seq<u8>)
    requires
        data.len() <= u32::MAX,
    ensures
        ({
            let s = spec_le_bytes(data.len() as u32) + data + rest;
            &&& s.len() >= 4
            &&& spec_le_u32(s) == data.len()
            &&& s.subrange(4, 4 + data.len() as int) == data
            &&& s.subrange(4 + data.len() as int, s.len() as int) == rest
        }),
{
    let n = data.len() as u32;
    let s = spec_le_bytes(n) + data + rest;
    let b0 = n % 256;
    let b1 = (n / 256) % 256;
    let b2 = (n / 65536) % 256;
    let b3 = n / 16777216;
    assert(b0 as int + 256 * b1 as int + 65536 * b2 as int + 16777216 * b3 as int == n as int) by (bit_vector)
        requires
            b0 == n % 256,
            b1 == (n / 256) % 256,
            b2 == (n / 65536) % 256,
            b3 == n / 16777216,
    ;
    assert(s[0] == b0 as u8 && s[1] == b1 as u8 && s[2] == b2 as u8 && s[3] == b3 as u8);
    assert(s.subrange(4, 4 + data.len() as int) =~= data);
    assert(s.subrange(4 + data.len() as int, s.len() as int) =~= rest);
}

} // verus!
