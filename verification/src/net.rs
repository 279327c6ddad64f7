//! What client and server say to each other: the state of the link, the
//! login request, and the frames that messages travel in.
//!
//! A frame is a length in four bytes, most significant byte first, followed
//! by the message. The length counts its own four bytes.

use byteorder::{ByteOrder, NetworkEndian};
use vstd::prelude::*;

verus! {

/// The state of the client's link to the server.
#[derive(Debug, Copy, Clone, PartialEq, Eq, Structural)]
pub enum ConnectionStatus {
    Connected,
    Connecting,
    Disconnected,
}

/// The client's request to log in.
#[derive(Debug)]
pub struct Login {
    pub username: String,
    pub password: String,
}

impl ConnectionStatus {
    /// Whether the link is up.
    pub fn is_connected(&self) -> (b: bool)
        ensures
            b == (*self == ConnectionStatus::Connected),
    {
        match self {
            ConnectionStatus::Connected => true,
            _ => false,
        }
    }
}

/// The first of `login_names` that is the name in `login`, by its place.
pub fn find_player(login_names: &Vec<String>, login: &Login) -> (found: Option<usize>)
    ensures
        match found {
            Some(i) => i < login_names@.len() && login_names@[i as int]@ == login.username@
                && forall|j: int| 0 <= j < i ==> login_names@[j]@ != login.username@,
            None => forall|j: int| 0 <= j < login_names@.len() ==> login_names@[j]@
                != login.username@,
        },
{
    let mut i: usize = 0;
    while i < login_names.len()
        invariant
            i <= login_names@.len(),
            forall|j: int| 0 <= j < i ==> login_names@[j]@ != login.username@,
        decreases login_names@.len() - i,
    {
        if login_names[i] == login.username {
            return Some(i);
        }
        i += 1;
    }
    None
}

/// The number of bytes in front of every message.
pub const HEADER_LEN: usize = 4;

/// The number that four bytes stand for, most significant byte first.
pub open spec fn be_value(bytes: Seq<u8>) -> int {
    bytes[0] * 0x100_0000 + bytes[1] * 0x1_0000 + bytes[2] * 0x100 + bytes[3]
}

/// The four bytes that stand for `n`, most significant byte first.
pub open spec fn be_bytes(n: u32) -> Seq<u8> {
    seq![
        (n / 0x100_0000) as u8,
        (n / 0x1_0000 % 0x100) as u8,
        (n / 0x100 % 0x100) as u8,
        (n % 0x100) as u8,
    ]
}

/// The bytes of a number stand for that number.
pub proof fn lemma_be_round_trip(n: u32)
    ensures
        be_bytes(n).len() == 4,
        be_value(be_bytes(n)) == n,
{
}

/// `ByteOrder::read_u32` of `NetworkEndian`: the number that the first four
/// bytes of `buf` stand for, most significant byte first. It panics where
/// `buf` is shorter than four bytes.
#[verifier::external_body]
fn read_u32(buf: &[u8]) -> (n: u32)
    requires
        buf@.len() >= 4,
    ensures
        n == be_value(buf@),
{
    NetworkEndian::read_u32(buf)
}

/// `ByteOrder::write_u32` of `NetworkEndian`, on a buffer of four bytes: the
/// four bytes that stand for `n`, most significant byte first.
#[verifier::external_body]
fn write_u32(n: u32) -> (bytes: [u8; 4])
    ensures
        bytes@ == be_bytes(n),
{
    let mut bytes = [0u8; 4];
    NetworkEndian::write_u32(&mut bytes, n);
    bytes
}

/// The length that the frame at the start of `buffer` claims for itself.
pub open spec fn frame_len(buffer: Seq<u8>) -> int {
    be_value(buffer)
}

/// Whether `buffer` starts with a whole frame.
pub open spec fn has_frame(buffer: Seq<u8>) -> bool {
    buffer.len() >= HEADER_LEN && frame_len(buffer) <= buffer.len()
}

/// The message of the frame at the start of `buffer`: what follows the
/// header, up to the claimed length. A frame that claims to be shorter than
/// its header has an empty message.
pub open spec fn frame_message(buffer: Seq<u8>) -> Seq<u8> {
    if frame_len(buffer) <= HEADER_LEN {
        Seq::empty()
    } else {
        buffer.subrange(HEADER_LEN as int, frame_len(buffer))
    }
}

/// What follows the frame at the start of `buffer`.
pub open spec fn after_frame(buffer: Seq<u8>) -> Seq<u8> {
    buffer.subrange(frame_len(buffer), buffer.len() as int)
}

/// The frame that carries `message`.
pub open spec fn frame_of(message: Seq<u8>) -> Seq<u8> {
    be_bytes((message.len() + HEADER_LEN) as u32) + message
}

/// A frame followed by anything is read back as its message, and what
/// followed is left.
pub proof fn law_frame_round_trip(message: Seq<u8>, rest: Seq<u8>)
    requires
        message.len() + HEADER_LEN <= u32::MAX,
    ensures
        has_frame(frame_of(message) + rest),
        frame_message(frame_of(message) + rest) == message,
        after_frame(frame_of(message) + rest) == rest,
{
    let n = (message.len() + HEADER_LEN) as u32;
    let buffer = frame_of(message) + rest;
    lemma_be_round_trip(n);
    assert(buffer[0] == be_bytes(n)[0]);
    assert(buffer[1] == be_bytes(n)[1]);
    assert(buffer[2] == be_bytes(n)[2]);
    assert(buffer[3] == be_bytes(n)[3]);
    assert(frame_len(buffer) == n);
    assert(frame_message(buffer) =~= message);
    assert(after_frame(buffer) =~= rest);
}

/// Collects the bytes that arrive and cuts them into messages.
pub struct Receiver {
    buffer: Vec<u8>,
}

impl View for Receiver {
    type V = Seq<u8>;

    /// The bytes that arrived and were not consumed yet.
    closed spec fn view(&self) -> Seq<u8> {
        self.buffer@
    }
}

impl Default for Receiver {
    fn default() -> (receiver: Self)
        ensures
            receiver@ == Seq::<u8>::empty(),
    {
        Self { buffer: Vec::new() }
    }
}

impl Receiver {
    /// Takes in the first `n` bytes of `bytes`, as they were read from the
    /// stream.
    pub fn extend(&mut self, bytes: &[u8], n: usize)
        requires
            n <= bytes@.len(),
        ensures
            final(self)@ == old(self)@ + bytes@.take(n as int),
    {
        let mut i: usize = 0;
        while i < n
            invariant
                i <= n <= bytes@.len(),
                self@ == old(self)@ + bytes@.take(i as int),
            decreases n - i,
        {
            self.buffer.push(bytes[i]);
            assert(bytes@.take(i + 1) =~= bytes@.take(i as int).push(bytes@[i as int]));
            assert(self@ =~= old(self)@ + bytes@.take(i + 1));
            i += 1;
        }
    }

    /// Cuts the first frame off the buffer and returns its message, or
    /// returns nothing and leaves the buffer alone where no whole frame has
    /// arrived yet.
    pub fn consume(&mut self) -> (message: Option<Vec<u8>>)
        ensures
            has_frame(old(self)@) ==> message is Some && message.unwrap()@ == frame_message(
                old(self)@,
            ) && final(self)@ == after_frame(old(self)@),
            !has_frame(old(self)@) ==> message is None && final(self)@ == old(self)@,
    {
        if self.buffer.len() < HEADER_LEN {
            return None;
        }
        let len = read_u32(self.buffer.as_slice()) as usize;
        if len > self.buffer.len() {
            return None;
        }
        let mut message: Vec<u8> = Vec::new();
        let mut rest: Vec<u8> = Vec::new();
        let mut i: usize = 0;
        while i < self.buffer.len()
            invariant
                i <= self.buffer@.len(),
                len <= self.buffer@.len(),
                self@ == old(self)@,
                len == frame_len(self@),
                message@ == if i <= HEADER_LEN || len <= HEADER_LEN {
                    Seq::<u8>::empty()
                } else if i <= len {
                    self@.subrange(HEADER_LEN as int, i as int)
                } else {
                    self@.subrange(HEADER_LEN as int, len as int)
                },
                rest@ == if i <= len {
                    Seq::<u8>::empty()
                } else {
                    self@.subrange(len as int, i as int)
                },
            decreases self.buffer@.len() - i,
        {
            let byte = self.buffer[i];
            if i >= len {
                rest.push(byte);
            } else if i >= HEADER_LEN {
                message.push(byte);
            }
            i += 1;
        }
        self.buffer = rest;
        Some(message)
    }
}

/// The frame that carries `message`, or nothing where the message is too
/// long for its length to be written in the header.
pub fn encode(message: &[u8]) -> (frame: Result<Vec<u8>, ()>)
    ensures
        message@.len() + HEADER_LEN <= u32::MAX ==> frame is Ok && frame.unwrap()@ == frame_of(
            message@,
        ),
        message@.len() + HEADER_LEN > u32::MAX ==> frame is Err,
{
    if message.len() > (u32::MAX as usize) - HEADER_LEN {
        return Err(());
    }
    let header = write_u32((message.len() + HEADER_LEN) as u32);
    let mut frame: Vec<u8> = Vec::new();
    frame.push(header[0]);
    frame.push(header[1]);
    frame.push(header[2]);
    frame.push(header[3]);
    let mut i: usize = 0;
    while i < message.len()
        invariant
            i <= message@.len(),
            frame@ == be_bytes((message@.len() + HEADER_LEN) as u32) + message@.take(i as int),
        decreases message@.len() - i,
    {
        frame.push(message[i]);
        assert(message@.take(i + 1) =~= message@.take(i as int).push(message@[i as int]));
        i += 1;
    }
    assert(message@.take(message@.len() as int) =~= message@);
    Ok(frame)
}

} // verus!
