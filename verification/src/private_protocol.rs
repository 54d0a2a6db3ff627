//! The private update protocol's messages.
//!
//! A client asks for a byte range of a file by sending the path as a frame
//! (its length as 8 little-endian bytes, then its UTF-8 bytes) followed by the
//! range's start and end, each as 8 little-endian bytes. The server answers
//! with a signed 8-byte little-endian status, which is the length of the data
//! that follows when it is not negative.
use vstd::prelude::*;

use crate::text::{bytes_of, dec, decimal, push_str};

verus! {

/// The 8 little-endian bytes of `n`.
pub open spec fn le_bytes(n: u64) -> Seq<u8> {
    Seq::new(8, |k: int| ((n >> (8 * k) as u64) & 0xff) as u8)
}

fn push_le(out: &mut Vec<u8>, n: u64)
    ensures
        final(out)@ == old(out)@ + le_bytes(n),
{
    let ghost start = out@;
    let mut k: u64 = 0;
    while k < 8
        invariant
            k <= 8,
            out@ == start + le_bytes(n).take(k as int),
        decreases 8 - k,
    {
        let b = ((n >> (8 * k)) & 0xff) as u8;
        out.push(b);
        assert(le_bytes(n).take(k + 1) =~= le_bytes(n).take(k as int).push(b));
        k = k + 1;
    }
    assert(le_bytes(n).take(8) =~= le_bytes(n));
}

/// The request for bytes `start..end` of the file at `path`.
pub fn request_bytes(path: &str, start: u64, end: u64) -> (r: Vec<u8>)
    ensures
        r@ == le_bytes(vstd::utf8::encode_utf8(path@).len() as u64) + vstd::utf8::encode_utf8(path@)
            + le_bytes(start) + le_bytes(end),
{
    let body = bytes_of(path);
    let mut out: Vec<u8> = Vec::new();
    push_le(&mut out, body.len() as u64);
    for i in 0..body.len()
        invariant
            out@ == le_bytes(body@.len() as u64) + body@.take(i as int),
    {
        out.push(body[i]);
        assert(body@.take(i + 1) =~= body@.take(i as int).push(body@[i as int]));
    }
    assert(body@.take(body@.len() as int) =~= body@);
    push_le(&mut out, start);
    push_le(&mut out, end);
    out
}

/// The decimal form of a signed number.
pub open spec fn signed_dec(n: i64) -> Seq<char> {
    if n < 0 {
        "-"@ + dec((-n) as nat)
    } else {
        dec(n as nat)
    }
}

/// What a status answers: the length of the data that follows, or the
/// refusal of a negative status for the request of `path` (described as
/// `desc`) over protocol `index`.
pub fn response_length(status: i64, index: u32, path: &str, desc: &str) -> (r: Result<u64, String>)
    ensures
        status >= 0 ==> r == Ok::<u64, String>(status as u64),
        status < 0 ==> r is Err && r->Err_0@ == "私有协议("@ + dec(index as nat) + ")接收到的状态码 "@
            + signed_dec(status) + " 不正确: "@ + path@ + " ("@ + desc@ + ")"@,
{
    if status >= 0 {
        return Ok(status as u64);
    }
    let magnitude: u64 = ((-(status + 1)) as u64) + 1;
    let mut m = "私有协议(".to_owned();
    push_str(&mut m, decimal(index as u64).as_str());
    push_str(&mut m, ")接收到的状态码 ");
    push_str(&mut m, "-");
    push_str(&mut m, decimal(magnitude).as_str());
    push_str(&mut m, " 不正确: ");
    push_str(&mut m, path);
    push_str(&mut m, " (");
    push_str(&mut m, desc);
    push_str(&mut m, ")");
    Err(m)
}

/// How one read of a response body ended.
pub enum ReadEnd {
    /// The read completed with `Ok`, having filled this many bytes.
    Filled(u64),
    /// The read failed.
    Failed,
}

/// What a response body's reader reports for one read.
pub enum ReadReport {
    /// The read is done; the connection stays usable.
    Ready,
    /// The connection ended before the advertised length.
    EndedEarly,
    /// The read failed.
    Failed,
}

/// A response body: the bytes still to read, and whether the connection may
/// be used again.
pub struct BodyRead {
    pub remaining: u64,
    pub connection_kept: bool,
}

impl BodyRead {
    /// How many bytes the next read may take, given the free room of the buffer.
    pub fn limit(&self, room: usize) -> (r: usize)
        ensures
            r as int == if (room as int) < self.remaining {
                room as int
            } else {
                self.remaining as int
            },
    {
        if (room as u64) < self.remaining {
            room
        } else {
            self.remaining as usize
        }
    }

    /// Accounts for one read: the bytes it filled are no longer to read; an
    /// empty read before the end, or a failed one, drops the connection and
    /// ends the body.
    pub fn after_read(&mut self, end: ReadEnd) -> (r: ReadReport)
        requires
            end matches ReadEnd::Filled(n) ==> n <= old(self).remaining,
        ensures
            match end {
                ReadEnd::Filled(n) => if n == 0 && old(self).remaining != 0 {
                    &&& r is EndedEarly
                    &&& final(self).remaining == 0
                    &&& !final(self).connection_kept
                } else {
                    &&& r is Ready
                    &&& final(self).remaining == old(self).remaining - n
                    &&& final(self).connection_kept == old(self).connection_kept
                },
                ReadEnd::Failed => {
                    &&& r is Failed
                    &&& final(self).remaining == 0
                    &&& !final(self).connection_kept
                },
            },
    {
        match end {
            ReadEnd::Filled(n) => {
                self.remaining = self.remaining - n;
                if n == 0 && self.remaining != 0 {
                    self.connection_kept = false;
                    self.remaining = 0;
                    return ReadReport::EndedEarly;
                }
                ReadReport::Ready
            },
            ReadEnd::Failed => {
                self.connection_kept = false;
                self.remaining = 0;
                ReadReport::Failed
            },
        }
    }
}

} // verus!
