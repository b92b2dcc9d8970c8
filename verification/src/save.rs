//! Save data: the buffers a save is written into and read from, and the blob
//! that carries a save to the remote store (zlib at level 9, then standard
//! base64).
use vstd::prelude::*;

use std::io::Read;
use std::io::Write;

use base64::Engine;

use crate::timer::RepeatingTimer;
use crate::timer::NANOS_PER_SEC;

verus! {

/// Name under which the remote store keeps the save.
pub const SAVE_NAME: &'static str = "sardips_save";

/// zlib compression level used for saves.
pub const SAVE_COMPRESSION_LEVEL: u32 = 9;

/// Seconds between two saves.
pub const SAVE_INTERVAL_SECS: u64 = 5;

/// What `flate2`'s zlib encoder produces for `data` at a compression level.
pub uninterp spec fn spec_zlib_compress(level: u32, data: Seq<u8>) -> Seq<u8>;

/// What `flate2`'s zlib decoder reads back from `data` (`None` where the
/// stream is not valid zlib).
pub uninterp spec fn spec_zlib_decompress(data: Seq<u8>) -> Option<Seq<u8>>;

/// The character of the standard base64 alphabet for a value below 64:
/// `A`-`Z`, `a`-`z`, `0`-`9`, `+`, `/`.
pub open spec fn base64_char(v: int) -> char {
    if v < 26 {
        (65 + v) as char
    } else if v < 52 {
        (97 + v - 26) as char
    } else if v < 62 {
        (48 + v - 52) as char
    } else if v == 62 {
        '+'
    } else {
        '/'
    }
}

/// What the standard base64 engine (with padding) makes of `data`: each
/// group of three bytes becomes four characters of six bits each, and a last
/// group of one or two bytes is padded with `=` to four characters.
pub open spec fn spec_base64_encode(data: Seq<u8>) -> Seq<char>
    decreases data.len(),
{
    let b0 = if data.len() > 0 { data[0] as int } else { 0 };
    let b1 = if data.len() > 1 { data[1] as int } else { 0 };
    let b2 = if data.len() > 2 { data[2] as int } else { 0 };
    if data.len() == 0 {
        Seq::empty()
    } else if data.len() == 1 {
        seq![base64_char(b0 / 4), base64_char((b0 % 4) * 16), '=', '=']
    } else if data.len() == 2 {
        seq![
            base64_char(b0 / 4),
            base64_char((b0 % 4) * 16 + b1 / 16),
            base64_char((b1 % 16) * 4),
            '=',
        ]
    } else {
        seq![
            base64_char(b0 / 4),
            base64_char((b0 % 4) * 16 + b1 / 16),
            base64_char((b1 % 16) * 4 + b2 / 64),
            base64_char(b2 % 64),
        ] + spec_base64_encode(data.subrange(3, data.len() as int))
    }
}

/// What the standard base64 engine decodes from `text` (`None` where it is
/// not valid padded base64).
pub uninterp spec fn spec_base64_decode(text: Seq<char>) -> Option<Seq<u8>>;

/// Length of the padded base64 text for `n` bytes.
pub open spec fn base64_len(n: int) -> int {
    4 * ((n + 2) / 3)
}

/// The bytes held by an optional buffer.
pub open spec fn opt_bytes(o: Option<Vec<u8>>) -> Option<Seq<u8>> {
    match o {
        Some(v) => Some(v@),
        None => None,
    }
}

/// Compresses bytes with `flate2::write::ZlibEncoder` at the given level,
/// writing into a `Vec`. The output is named by `spec_zlib_compress`; the
/// contract also states that zlib decoding gives the input back, that the
/// output is not empty (a zlib stream starts with a two-byte header) and
/// that, being a `Vec<u8>`, it holds at most `isize::MAX` bytes. Levels above
/// 9 are left out: the compression backends assert on them.
#[verifier::external_body]
fn zlib_compress(data: &[u8], level: u32) -> (r: Vec<u8>)
    requires
        level <= 9,
    ensures
        r@.len() > 0,
        r@ == spec_zlib_compress(level, data@),
        spec_zlib_decompress(r@) == Some(data@),
        r@.len() <= isize::MAX,
{
    let mut encoder = flate2::write::ZlibEncoder::new(Vec::new(), flate2::Compression::new(level));
    encoder.write_all(data).unwrap();
    encoder.finish().unwrap()
}

/// Decompresses a zlib stream with `flate2::read::ZlibDecoder`, reading to
/// the end; `None` where the decoder reports an error. Named by
/// `spec_zlib_decompress`.
#[verifier::external_body]
fn zlib_decompress(data: &[u8]) -> (r: Option<Vec<u8>>)
    ensures
        opt_bytes(r) == spec_zlib_decompress(data@),
{
    let mut out = Vec::new();
    match flate2::read::ZlibDecoder::new(data).read_to_end(&mut out) {
        Ok(_) => Some(out),
        Err(_) => None,
    }
}

/// Encodes bytes with `base64::prelude::BASE64_STANDARD` (see
/// `spec_base64_encode`); the contract also states the padded length and
/// that the same engine decodes the text back to the input. `encode` panics only
/// when the output length overflows `usize`, which the bound on the input
/// rules out.
#[verifier::external_body]
fn base64_encode(data: &[u8]) -> (r: String)
    requires
        data@.len() <= isize::MAX,
    ensures
        r@ == spec_base64_encode(data@),
        r@.len() == base64_len(data@.len() as int),
        spec_base64_decode(r@) == Some(data@),
{
    base64::prelude::BASE64_STANDARD.encode(data)
}

/// Decodes text with `base64::prelude::BASE64_STANDARD`; `None` where the
/// engine returns a `DecodeError`. Named by `spec_base64_decode`.
#[verifier::external_body]
fn base64_decode(text: &str) -> (r: Option<Vec<u8>>)
    ensures
        opt_bytes(r) == spec_base64_decode(text@),
{
    match base64::prelude::BASE64_STANDARD.decode(text) {
        Ok(v) => Some(v),
        Err(_) => None,
    }
}

/// The blob that carries a save: its bytes compressed, then base64.
pub open spec fn spec_save_blob(data: Seq<u8>) -> Seq<char> {
    spec_base64_encode(spec_zlib_compress(SAVE_COMPRESSION_LEVEL, data))
}

/// The save a blob carries: base64-decoded, then decompressed.
pub open spec fn spec_read_blob(blob: Seq<char>) -> Option<Seq<u8>> {
    match spec_base64_decode(blob) {
        Some(z) => spec_zlib_decompress(z),
        None => None,
    }
}

/// The body of a request that stores a save remotely.
#[derive(Debug, Default)]
pub struct SendSaveRequest {
    pub name: String,
    pub save_blob: String,
}

/// Builds the request that stores the written save: none when nothing was
/// written, else the save under its name with the bytes packed into a blob.
/// Reading that blob gives the bytes back.
pub fn build_save_request(buffer: &[u8]) -> (r: Option<SendSaveRequest>)
    ensures
        buffer@.len() == 0 <==> r is None,
        r matches Some(req) ==> {
            &&& req.name@ == SAVE_NAME@
            &&& req.save_blob@ == spec_save_blob(buffer@)
            &&& req.save_blob@.len() > 0
            &&& spec_read_blob(req.save_blob@) == Some(buffer@)
        },
{
    if buffer.len() == 0 {
        return None;
    }
    let compressed = zlib_compress(buffer, SAVE_COMPRESSION_LEVEL);
    let blob = base64_encode(compressed.as_slice());
    Some(SendSaveRequest { name: String::from_str(SAVE_NAME), save_blob: blob })
}

/// What a blob fetched from the remote store gives.
#[derive(Debug)]
pub enum LoadedSave {
    /// The store held no save (an empty blob).
    NoSave,
    /// The bytes of the save.
    Loaded(Vec<u8>),
    /// The blob is not base64 of a zlib stream.
    Corrupt,
}

/// Unpacks a blob fetched from the remote store (see `spec_read_blob`).
pub fn read_save_blob(blob: &str) -> (r: LoadedSave)
    ensures
        blob@.len() == 0 ==> r is NoSave,
        blob@.len() > 0 ==> match spec_read_blob(blob@) {
            Some(d) => r matches LoadedSave::Loaded(v) && v@ == d,
            None => r is Corrupt,
        },
{
    if blob.unicode_len() == 0 {
        return LoadedSave::NoSave;
    }
    match base64_decode(blob) {
        Some(z) => match zlib_decompress(z.as_slice()) {
            Some(d) => LoadedSave::Loaded(d),
            None => LoadedSave::Corrupt,
        },
        None => LoadedSave::Corrupt,
    }
}

/// The buffer a save is written into.
#[derive(Debug, Default)]
pub struct WriteBuffer {
    pub buffer: Vec<u8>,
}

/// A flush was asked of a buffer that still holds unsent bytes.
#[derive(Clone, Copy, Debug, PartialEq, Eq)]
pub enum FlushError {
    BufferNotEmpty,
}

impl WriteBuffer {
    /// Appends all of `buf` and reports its length as written.
    pub fn write(&mut self, buf: &[u8]) -> (n: usize)
        ensures
            n == buf@.len(),
            final(self).buffer@ == old(self).buffer@ + buf@,
    {
        let mut i: usize = 0;
        while i < buf.len()
            invariant
                0 <= i <= buf@.len(),
                self.buffer@ == old(self).buffer@ + buf@.take(i as int),
            decreases buf@.len() - i,
        {
            self.buffer.push(buf[i]);
            assert(buf@.take(i + 1) == buf@.take(i as int).push(buf@[i as int]));
            i = i + 1;
        }
        assert(buf@.take(i as int) == buf@);
        buf.len()
    }

    /// Succeeds only when the buffer is empty: written bytes leave it when the
    /// save is sent, not on a flush.
    pub fn flush(&self) -> (r: Result<(), FlushError>)
        ensures
            r is Ok <==> self.buffer@.len() == 0,
    {
        if self.buffer.len() == 0 {
            Ok(())
        } else {
            Err(FlushError::BufferNotEmpty)
        }
    }
}

/// The buffer a loaded save is read from.
#[derive(Debug, Default)]
pub struct ReadBuffer {
    pub buffer: Vec<u8>,
}

impl ReadBuffer {
    /// Moves as many leading bytes as fit into `buf` (all that remain, or
    /// `buf`'s length) and reports how many; the rest of `buf` is untouched.
    pub fn read(&mut self, buf: &mut [u8]) -> (n: usize)
        ensures
            n == if old(buf)@.len() < old(self).buffer@.len() {
                old(buf)@.len()
            } else {
                old(self).buffer@.len()
            },
            final(buf)@ == old(self).buffer@.take(n as int) + old(buf)@.skip(n as int),
            final(self).buffer@ == old(self).buffer@.skip(n as int),
    {
        let n: usize = if buf.len() < self.buffer.len() {
            buf.len()
        } else {
            self.buffer.len()
        };
        let ghost data = self.buffer@;
        let ghost orig = buf@;
        let mut i: usize = 0;
        while i < n
            invariant
                0 <= i <= n,
                n <= data.len(),
                n <= orig.len(),
                self.buffer@ == data,
                buf@.len() == orig.len(),
                forall|j: int| 0 <= j < i ==> buf@[j] == data[j],
                forall|j: int| i <= j < orig.len() ==> buf@[j] == orig[j],
            decreases n - i,
        {
            buf[i] = self.buffer[i];
            i = i + 1;
        }
        let mut rest: Vec<u8> = Vec::new();
        let mut k: usize = n;
        while k < self.buffer.len()
            invariant
                n <= k <= data.len(),
                self.buffer@ == data,
                rest@ == data.subrange(n as int, k as int),
            decreases data.len() - k,
        {
            rest.push(self.buffer[k]);
            assert(data.subrange(n as int, k + 1) == data.subrange(n as int, k as int).push(data[k as int]));
            k = k + 1;
        }
        self.buffer = rest;
        assert(buf@ == data.take(n as int) + orig.skip(n as int));
        n
    }
}

/// The timer that triggers a save every few seconds.
pub fn save_timer() -> (t: RepeatingTimer)
    ensures
        t == RepeatingTimer::new_spec((SAVE_INTERVAL_SECS * NANOS_PER_SEC) as u64),
{
    RepeatingTimer::new(SAVE_INTERVAL_SECS * NANOS_PER_SEC)
}

} // verus!
