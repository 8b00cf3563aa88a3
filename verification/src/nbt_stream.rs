//! The byte source: a decompressed byte sequence consumed from the front,
//! with typed big-endian primitive reads.

use crate::model::{be_u16, be_u32, be_u64, enc_u16, enc_u32, enc_u64, spec_decode_string, suffix,
    DecodeRes};
use vstd::prelude::*;
use vstd::utf8::{decode_utf8, valid_utf8};

verus! {

/// Every way a decode can fail.
///
/// `UnexpectedEof` is the I/O-kind failure: the stream ended before the
/// requested bytes.  `Malformed` is a malformed encoding: an unrecognized
/// type identifier, a negative count, or text that is not valid UTF-8.
/// `BadGzip` reports input that is not a complete gzip stream.
/// `Unencodable` arises only on the write path, for a tree the format
/// cannot carry: an oversized length prefix, a list of mixed element
/// types, or an `End` tag inside a compound.
#[derive(Clone, Copy, PartialEq, Eq, Structural, Debug)]
pub enum NbtError {
    UnexpectedEof,
    Malformed,
    BadGzip,
    Unencodable,
}

/// The byte source.  It holds the decompressed bytes and a cursor; the
/// not-yet-consumed bytes are its abstract value, [`NBTRead::remaining`].
pub struct NBTRead {
    data: Vec<u8>,
    pos: usize,
}

impl NBTRead {
    /// The bytes not yet consumed.
    pub closed spec fn remaining(self) -> Seq<u8> {
        if self.pos <= self.data@.len() {
            self.data@.skip(self.pos as int)
        } else {
            Seq::empty()
        }
    }

    /// A byte source over an already-decompressed byte sequence.
    pub fn from_bytes(data: Vec<u8>) -> (r: NBTRead)
        ensures
            r.remaining() == data@,
    {
        let r = NBTRead { data, pos: 0 };
        proof {
            assert(r.remaining() =~= r.data@);
        }
        r
    }

    /// A byte source over a gzip-compressed byte sequence, decompressed
    /// once, up front.  Fails with `BadGzip` when the input is not one
    /// complete gzip stream.
    pub fn new(compressed: Vec<u8>) -> (r: Result<NBTRead, NbtError>)
        ensures
            r matches Ok(nr) ==> gunzip_of(compressed@) == Some(nr.remaining()),
            r matches Err(e) ==> e == NbtError::BadGzip && gunzip_of(compressed@) is None,
    {
        match gunzip(&compressed) {
            Ok(data) => Ok(NBTRead::from_bytes(data)),
            Err(e) => Err(e),
        }
    }

    /// Marks the source as exhausted; every decode failure is terminal.
    pub(crate) fn exhaust(&mut self)
        ensures
            final(self).remaining() == Seq::<u8>::empty(),
    {
        self.pos = self.data.len();
        proof {
            assert(self.remaining() =~= Seq::<u8>::empty());
        }
    }

    /// Reads exactly `n` bytes; fails with `UnexpectedEof`, exhausting the
    /// source, when fewer remain.
    pub fn consume_bytes(&mut self, n: usize) -> (r: Result<Vec<u8>, NbtError>)
        ensures
            n <= old(self).remaining().len() ==> {
                &&& r matches Ok(v) && v@ == old(self).remaining().take(n as int)
                &&& final(self).remaining() == old(self).remaining().skip(n as int)
            },
            n > old(self).remaining().len() ==> {
                &&& r matches Err(e) && e == NbtError::UnexpectedEof
                &&& final(self).remaining() == Seq::<u8>::empty()
            },
    {
        let avail = if self.pos <= self.data.len() {
            self.data.len() - self.pos
        } else {
            0
        };
        if n > avail {
            self.exhaust();
            return Err(NbtError::UnexpectedEof);
        }
        let ghost s0 = self.remaining();
        let mut v: Vec<u8> = Vec::new();
        let mut i: usize = 0;
        while i < n
            invariant
                i <= n,
                self.data == old(self).data,
                self.pos == old(self).pos,
                n > 0 ==> self.pos + n <= self.data@.len(),
                self.data@.len() <= usize::MAX,
                n > 0 ==> v@ == self.data@.subrange(self.pos as int, self.pos + i),
                n == 0 ==> v@ == Seq::<u8>::empty(),
            decreases n - i,
        {
            let b = self.data[self.pos + i];
            v.push(b);
            proof {
                assert(v@ =~= self.data@.subrange(self.pos as int, self.pos + i + 1));
            }
            i += 1;
        }
        self.pos = self.pos + n;
        proof {
            assert(v@ =~= old(self).remaining().take(n as int));
            assert(self.remaining() =~= old(self).remaining().skip(n as int));
        }
        Ok(v)
    }

    /// Reads one fixed-width big-endian primitive.
    pub fn consume<T: Consumable>(&mut self) -> (r: Result<T, NbtError>)
        ensures
            T::width() <= old(self).remaining().len() ==> {
                &&& r matches Ok(v) && v == T::from_be(
                    old(self).remaining().take(T::width() as int),
                )
                &&& final(self).remaining() == old(self).remaining().skip(T::width() as int)
            },
            T::width() > old(self).remaining().len() ==> {
                &&& r matches Err(e) && e == NbtError::UnexpectedEof
                &&& final(self).remaining() == Seq::<u8>::empty()
            },
    {
        T::consume(self)
    }

    /// Reads one length-prefixed string: an unsigned 16-bit byte count,
    /// then that many bytes of UTF-8 text.
    pub fn consume_string(&mut self) -> (r: Result<String, NbtError>)
        ensures
            ({
                let d = spec_decode_string(old(self).remaining());
                match r {
                    Ok(out) => {
                        &&& d matches DecodeRes::Parsed(cs, c) && out@ == cs
                        &&& d matches DecodeRes::Parsed(cs, c) ==> final(self).remaining()
                            == suffix(old(self).remaining(), c)
                    },
                    Err(e) => {
                        &&& final(self).remaining() == Seq::<u8>::empty()
                        &&& ((e == NbtError::UnexpectedEof && d is Truncated) || (
                        e == NbtError::Malformed
                            && d is Malformed))
                    },
                }
            }),
    {
        let ghost s0 = self.remaining();
        let n = match self.consume::<u16>() {
            Ok(n) => n,
            Err(e) => {
                return Err(e);
            },
        };
        proof {
            assert(s0.take(2) =~= s0.subrange(0, 2));
        }
        let bytes = match self.consume_bytes(n as usize) {
            Ok(b) => b,
            Err(e) => {
                return Err(e);
            },
        };
        proof {
            assert(bytes@ =~= s0.subrange(2, 2 + n as int));
        }
        match bytes_to_string(bytes) {
            Some(out) => {
                proof {
                    assert(self.remaining() =~= suffix(s0, 2 + n as nat));
                }
                Ok(out)
            },
            None => {
                self.exhaust();
                Err(NbtError::Malformed)
            },
        }
    }
}


/// The byte sink for the write path: encoded bytes accumulate in order.
pub struct NBTWrite {
    buf: Vec<u8>,
}

impl NBTWrite {
    /// The bytes written so far.
    pub closed spec fn written(self) -> Seq<u8> {
        self.buf@
    }

    /// An empty sink.
    pub fn new() -> (r: NBTWrite)
        ensures
            r.written() == Seq::<u8>::empty(),
    {
        NBTWrite { buf: Vec::new() }
    }

    /// Hands the accumulated bytes out.
    pub fn into_bytes(self) -> (r: Vec<u8>)
        ensures
            r@ == self.written(),
    {
        self.buf
    }

    /// Appends one byte.
    pub fn push_u8(&mut self, v: u8)
        ensures
            final(self).written() == old(self).written() + seq![v],
    {
        self.buf.push(v);
        proof {
            assert(self.written() =~= old(self).written() + seq![v]);
        }
    }

    /// Appends two bytes, big-endian.
    pub fn push_u16(&mut self, v: u16)
        ensures
            final(self).written() == old(self).written() + enc_u16(v),
    {
        self.buf.push((v / 0x100) as u8);
        self.buf.push((v % 0x100) as u8);
        proof {
            assert(self.written() =~= old(self).written() + enc_u16(v));
        }
    }

    /// Appends four bytes, big-endian.
    pub fn push_u32(&mut self, v: u32)
        ensures
            final(self).written() == old(self).written() + enc_u32(v),
    {
        self.buf.push((v / 0x1000000) as u8);
        self.buf.push(((v / 0x10000) % 0x100) as u8);
        self.buf.push(((v / 0x100) % 0x100) as u8);
        self.buf.push((v % 0x100) as u8);
        proof {
            assert(self.written() =~= old(self).written() + enc_u32(v));
        }
    }

    /// Appends eight bytes, big-endian.
    pub fn push_u64(&mut self, v: u64)
        ensures
            final(self).written() == old(self).written() + enc_u64(v),
    {
        self.buf.push((v / 0x100000000000000) as u8);
        self.buf.push(((v / 0x1000000000000) % 0x100) as u8);
        self.buf.push(((v / 0x10000000000) % 0x100) as u8);
        self.buf.push(((v / 0x100000000) % 0x100) as u8);
        self.buf.push(((v / 0x1000000) % 0x100) as u8);
        self.buf.push(((v / 0x10000) % 0x100) as u8);
        self.buf.push(((v / 0x100) % 0x100) as u8);
        self.buf.push((v % 0x100) as u8);
        proof {
            assert(self.written() =~= old(self).written() + enc_u64(v));
        }
    }

    /// Appends a run of bytes as they are.
    pub fn push_bytes(&mut self, bytes: &Vec<u8>)
        ensures
            final(self).written() == old(self).written() + bytes@,
    {
        let n = bytes.len();
        let mut i: usize = 0;
        while i < n
            invariant
                i <= n,
                n == bytes@.len(),
                self.buf@ == old(self).buf@ + bytes@.take(i as int),
            decreases n - i,
        {
            self.buf.push(bytes[i]);
            proof {
                assert(self.buf@ =~= old(self).buf@ + bytes@.take(i + 1));
            }
            i += 1;
        }
        proof {
            assert(self.written() =~= old(self).written() + bytes@);
        }
    }
}

/// What gunzip decompression yields on a byte sequence: the decompressed
/// bytes when the input is one complete gzip stream, nothing otherwise.
pub uninterp spec fn gunzip_of(s: Seq<u8>) -> Option<Seq<u8>>;

/// Relies on `flate2::read::GzDecoder` driven by `std::io::Read::read_to_end`:
/// it decompresses one complete gzip stream and fails on malformed input,
/// and the outcome is a function of the input bytes alone.
#[verifier::external_body]
fn gunzip(data: &Vec<u8>) -> (r: Result<Vec<u8>, NbtError>)
    ensures
        r matches Ok(v) ==> gunzip_of(data@) == Some(v@),
        r matches Err(e) ==> e == NbtError::BadGzip && gunzip_of(data@) is None,
{
    let mut dec = flate2::read::GzDecoder::new(&data[..]);
    let mut out: Vec<u8> = Vec::new();
    match std::io::Read::read_to_end(&mut dec, &mut out) {
        Ok(_) => Ok(out),
        Err(_) => Err(NbtError::BadGzip),
    }
}

/// Relies on `String::from_utf8`: it returns a string exactly when the
/// bytes are valid UTF-8, and the string's characters are their decoding.
#[verifier::external_body]
fn bytes_to_string(bytes: Vec<u8>) -> (r: Option<String>)
    ensures
        r is Some <==> valid_utf8(bytes@),
        r matches Some(s) ==> s@ == decode_utf8(bytes@),
{
    String::from_utf8(bytes).ok()
}

/// A fixed-width primitive that can be consumed from the byte source: it
/// occupies `width` bytes and its value is their big-endian reading.
pub trait Consumable: Sized {
    /// How many bytes the primitive occupies.
    spec fn width() -> nat;

    /// The value of `width` bytes read big-endian.
    spec fn from_be(s: Seq<u8>) -> Self;

    /// Reads one primitive; fails with `UnexpectedEof`, exhausting the
    /// source, when fewer than `width` bytes remain.
    fn consume(stream: &mut NBTRead) -> (r: Result<Self, NbtError>)
        ensures
            Self::width() <= old(stream).remaining().len() ==> {
                &&& r matches Ok(v) && v == Self::from_be(
                    old(stream).remaining().take(Self::width() as int),
                )
                &&& final(stream).remaining() == old(stream).remaining().skip(
                    Self::width() as int,
                )
            },
            Self::width() > old(stream).remaining().len() ==> {
                &&& r matches Err(e) && e == NbtError::UnexpectedEof
                &&& final(stream).remaining() == Seq::<u8>::empty()
            },
    ;
}

impl Consumable for u8 {
    open spec fn width() -> nat {
        1
    }

    open spec fn from_be(s: Seq<u8>) -> u8 {
        s[0]
    }

    fn consume(stream: &mut NBTRead) -> (r: Result<u8, NbtError>) {
        match stream.consume_bytes(1) {
            Ok(v) => Ok(v[0]),
            Err(e) => Err(e),
        }
    }
}

impl Consumable for i8 {
    open spec fn width() -> nat {
        1
    }

    open spec fn from_be(s: Seq<u8>) -> i8 {
        s[0] as i8
    }

    fn consume(stream: &mut NBTRead) -> (r: Result<i8, NbtError>) {
        match stream.consume_bytes(1) {
            Ok(v) => Ok(v[0] as i8),
            Err(e) => Err(e),
        }
    }
}

impl Consumable for u16 {
    open spec fn width() -> nat {
        2
    }

    open spec fn from_be(s: Seq<u8>) -> u16 {
        be_u16(s)
    }

    fn consume(stream: &mut NBTRead) -> (r: Result<u16, NbtError>) {
        match stream.consume_bytes(2) {
            Ok(v) => Ok((v[0] as u16) * 0x100 + (v[1] as u16)),
            Err(e) => Err(e),
        }
    }
}

impl Consumable for i16 {
    open spec fn width() -> nat {
        2
    }

    open spec fn from_be(s: Seq<u8>) -> i16 {
        be_u16(s) as i16
    }

    fn consume(stream: &mut NBTRead) -> (r: Result<i16, NbtError>) {
        match u16::consume(stream) {
            Ok(x) => Ok(x as i16),
            Err(e) => Err(e),
        }
    }
}

impl Consumable for u32 {
    open spec fn width() -> nat {
        4
    }

    open spec fn from_be(s: Seq<u8>) -> u32 {
        be_u32(s)
    }

    fn consume(stream: &mut NBTRead) -> (r: Result<u32, NbtError>) {
        match stream.consume_bytes(4) {
            Ok(v) => Ok(
                (v[0] as u32) * 0x1000000 + (v[1] as u32) * 0x10000 + (v[2] as u32) * 0x100 + (
                v[3] as u32),
            ),
            Err(e) => Err(e),
        }
    }
}

impl Consumable for i32 {
    open spec fn width() -> nat {
        4
    }

    open spec fn from_be(s: Seq<u8>) -> i32 {
        be_u32(s) as i32
    }

    fn consume(stream: &mut NBTRead) -> (r: Result<i32, NbtError>) {
        match u32::consume(stream) {
            Ok(x) => Ok(x as i32),
            Err(e) => Err(e),
        }
    }
}

impl Consumable for u64 {
    open spec fn width() -> nat {
        8
    }

    open spec fn from_be(s: Seq<u8>) -> u64 {
        be_u64(s)
    }

    fn consume(stream: &mut NBTRead) -> (r: Result<u64, NbtError>) {
        match stream.consume_bytes(8) {
            Ok(v) => Ok(
                (v[0] as u64) * 0x100000000000000 + (v[1] as u64) * 0x1000000000000 + (
                v[2] as u64) * 0x10000000000 + (v[3] as u64) * 0x100000000 + (v[4] as u64)
                    * 0x1000000 + (v[5] as u64) * 0x10000 + (v[6] as u64) * 0x100 + (v[7] as u64),
            ),
            Err(e) => Err(e),
        }
    }
}

impl Consumable for i64 {
    open spec fn width() -> nat {
        8
    }

    open spec fn from_be(s: Seq<u8>) -> i64 {
        be_u64(s) as i64
    }

    fn consume(stream: &mut NBTRead) -> (r: Result<i64, NbtError>) {
        match u64::consume(stream) {
            Ok(x) => Ok(x as i64),
            Err(e) => Err(e),
        }
    }
}

} // verus!
