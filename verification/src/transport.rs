//! Bounded length-prefixed transport shared by the daemon and the proxy,
//! and the handshake that checks both speak the same protocol.
//!
//! A frame is a 4-byte big-endian length followed by that many bytes, at
//! most `MAX_FRAME`. Reading and writing the bytes is the application's;
//! this module decides what they must be.
use vstd::prelude::*;
use vstd::utf8::encode_utf8;
use crate::json::{decimal, json_text, parsed_json, Json, JsonValue};
use crate::text::{bytes_of, push_all};

verus! {

pub const MAX_FRAME: usize = 1048576;

/// Current wire protocol version. Both binaries must agree; a mismatch is a
/// deployment hazard (silent protocol failure, relay restart loop).
pub const PROTOCOL_VERSION: u64 = 1;

/// The version of this crate, reported in the handshake.
pub const CRATE_VERSION: &'static str = "0.2.6";

/// `std::io::Error`, carried opaquely in a frame error.
#[verifier::external_type_specification]
#[verifier::external_body]
pub struct ExIoError(std::io::Error);

#[derive(Debug)]
pub enum FrameError {
    Io(std::io::Error),
    TooLarge,
}

/// `io::Error`'s `Display` text. Nothing is stated of it.
#[verifier::external_body]
fn io_error_text(e: &std::io::Error) -> String {
    e.to_string()
}

impl FrameError {
    /// The error's message, as its `Display` renders it.
    pub fn message(&self) -> (r: String)
        ensures
            self is TooLarge ==> r@ == "frame exceeds maximum size"@,
    {
        match self {
            FrameError::Io(e) => {
                let mut m = "transport io error: ".to_owned();
                let t = io_error_text(e);
                push_all(&mut m, t.as_str());
                m
            },
            FrameError::TooLarge => "frame exceeds maximum size".to_owned(),
        }
    }
}

/// Big-endian bytes of a 32-bit length.
pub open spec fn be32(n: u32) -> Seq<u8> {
    seq![((n >> 24u32) & 0xff) as u8, ((n >> 16u32) & 0xff) as u8, ((n >> 8u32) & 0xff) as u8, (n & 0xff) as u8]
}

/// The value of 4 big-endian bytes.
pub open spec fn be32_value(h: Seq<u8>) -> int {
    h[0] * 0x1000000 + h[1] * 0x10000 + h[2] * 0x100 + h[3]
}

/// The length prefix of a frame of `len` bytes; too large beyond
/// `MAX_FRAME`.
pub fn frame_prefix(len: usize) -> (r: Result<Vec<u8>, FrameError>)
    ensures
        match r {
            Ok(h) => len <= MAX_FRAME && h@ == be32(len as u32),
            Err(e) => len > MAX_FRAME && e is TooLarge,
        },
{
    if len > MAX_FRAME {
        return Err(FrameError::TooLarge);
    }
    let n = len as u32;
    let h = vec![((n >> 24u32) & 0xff) as u8, ((n >> 16u32) & 0xff) as u8, ((n >> 8u32) & 0xff) as u8, (n & 0xff) as u8];
    assert(h@ =~= be32(n));
    Ok(h)
}

/// The payload length announced by a frame's prefix; too large beyond
/// `MAX_FRAME`.
pub fn frame_length(header: &[u8]) -> (r: Result<usize, FrameError>)
    requires
        header.len() == 4,
    ensures
        match r {
            Ok(n) => n == be32_value(header@) && n <= MAX_FRAME,
            Err(e) => be32_value(header@) > MAX_FRAME && e is TooLarge,
        },
{
    let n: u64 = (header[0] as u64) * 0x1000000 + (header[1] as u64) * 0x10000 + (header[2] as u64) * 0x100
        + (header[3] as u64);
    if n > MAX_FRAME as u64 {
        return Err(FrameError::TooLarge);
    }
    Ok(n as usize)
}

// ── Blocking streams ────────────────────────────────────────────────────

/// `Read::read_exact`: on success the buffer, whose length is unchanged,
/// holds what the stream delivered; what that is, is the stream's.
#[verifier::external_body]
fn read_exact_into<R: std::io::Read>(r: &mut R, buf: &mut Vec<u8>) -> (res: Result<(), std::io::Error>)
    ensures
        final(buf)@.len() == old(buf)@.len(),
{
    r.read_exact(buf.as_mut_slice())
}

/// `Write::write_all`. Nothing is stated of the stream.
#[verifier::external_body]
fn write_all_bytes<W: std::io::Write>(w: &mut W, bytes: &[u8]) -> (res: Result<(), std::io::Error>) {
    w.write_all(bytes)
}

/// `Write::flush`. Nothing is stated of the stream.
#[verifier::external_body]
fn flush_stream<W: std::io::Write>(w: &mut W) -> (res: Result<(), std::io::Error>) {
    w.flush()
}

/// Reads one frame: its 4-byte prefix, then the payload it announces. A
/// payload announced beyond `MAX_FRAME` is refused before it is read.
pub fn read_frame<R: std::io::Read>(r: &mut R) -> (res: Result<Vec<u8>, FrameError>)
    ensures
        res matches Ok(b) ==> b@.len() <= MAX_FRAME,
{
    let mut h: Vec<u8> = vec![0u8, 0u8, 0u8, 0u8];
    match read_exact_into(r, &mut h) {
        Ok(()) => {},
        Err(e) => return Err(FrameError::Io(e)),
    }
    let n = frame_length(h.as_slice())?;
    let mut b: Vec<u8> = Vec::new();
    let mut k: usize = 0;
    while k < n
        invariant
            k <= n,
            b@.len() == k,
        decreases n - k,
    {
        b.push(0u8);
        k += 1;
    }
    match read_exact_into(r, &mut b) {
        Ok(()) => Ok(b),
        Err(e) => Err(FrameError::Io(e)),
    }
}

/// The bytes of a frame: the big-endian length prefix, then the payload.
pub open spec fn frame_bytes(b: Seq<u8>) -> Seq<u8> {
    be32(b.len() as u32) + b
}

/// What a reader takes from the front of `s` as one frame, as `read_frame`
/// does: the 4-byte prefix, then the payload it announces (`None` when the
/// prefix or the payload is cut short, or the announced length is beyond
/// `MAX_FRAME`), with the number of bytes consumed.
pub open spec fn frame_payload(s: Seq<u8>) -> Option<(Seq<u8>, nat)> {
    if s.len() < 4 {
        None
    } else {
        let n = be32_value(s.subrange(0, 4));
        if n > MAX_FRAME || s.len() < 4 + n {
            None
        } else {
            Some((s.subrange(4, 4 + n), (4 + n) as nat))
        }
    }
}

/// The frame of a payload within `MAX_FRAME`; too large beyond it.
pub fn encode_frame(b: &[u8]) -> (r: Result<Vec<u8>, FrameError>)
    ensures
        match r {
            Ok(f) => b@.len() <= MAX_FRAME && f@ == frame_bytes(b@),
            Err(e) => b@.len() > MAX_FRAME && e is TooLarge,
        },
{
    let mut f = frame_prefix(b.len())?;
    let ghost start = f@;
    let mut i: usize = 0;
    while i < b.len()
        invariant
            i <= b@.len(),
            f@ == start + b@.subrange(0, i as int),
        decreases b.len() - i,
    {
        f.push(b[i]);
        assert(f@ =~= start + b@.subrange(0, i + 1));
        i += 1;
    }
    assert(b@.subrange(0, b@.len() as int) =~= b@);
    Ok(f)
}

/// Writes one frame (`encode_frame`: the prefix, then the payload) and
/// flushes. A payload beyond `MAX_FRAME` is refused before anything is
/// written: the stream is left as it was.
pub fn write_frame<W: std::io::Write>(w: &mut W, b: &[u8]) -> (res: Result<(), FrameError>)
    ensures
        (res matches Err(FrameError::TooLarge)) <==> b@.len() > MAX_FRAME,
        b@.len() > MAX_FRAME ==> *final(w) == *old(w),
{
    let frame = match encode_frame(b) {
        Ok(f) => f,
        Err(e) => return Err(e),
    };
    match write_all_bytes(w, frame.as_slice()) {
        Ok(()) => {},
        Err(e) => return Err(FrameError::Io(e)),
    }
    match flush_stream(w) {
        Ok(()) => Ok(()),
        Err(e) => Err(FrameError::Io(e)),
    }
}

/// A written frame reads back as its payload: a reader taking one frame
/// from the bytes `encode_frame` produced, followed by anything, gets the
/// payload back and consumes exactly the frame.
pub proof fn lemma_frame_roundtrip_bytes(b: Seq<u8>, rest: Seq<u8>)
    requires
        b.len() <= MAX_FRAME,
    ensures
        frame_payload(frame_bytes(b) + rest) == Some((b, (4 + b.len()) as nat)),
{
    lemma_prefix_roundtrip(b.len() as u32);
    let s = frame_bytes(b) + rest;
    assert(s.subrange(0, 4) =~= be32(b.len() as u32));
    assert(s.subrange(4, 4 + b.len() as int) =~= b);
}

/// A length prefix reads back as the length it was written for.
pub proof fn lemma_prefix_roundtrip(len: u32)
    ensures
        be32_value(be32(len)) == len,
{
    let (a, b, c, d) = (
        ((len >> 24u32) & 0xff) as u8,
        ((len >> 16u32) & 0xff) as u8,
        ((len >> 8u32) & 0xff) as u8,
        (len & 0xff) as u8,
    );
    assert((a as u32) * 0x1000000 + (b as u32) * 0x10000 + (c as u32) * 0x100 + (d as u32) == len) by (bit_vector)
        requires
            a == ((len >> 24u32) & 0xff) as u8,
            b == ((len >> 16u32) & 0xff) as u8,
            c == ((len >> 8u32) & 0xff) as u8,
            d == (len & 0xff) as u8,
    ;
}

// ── Handshake ───────────────────────────────────────────────────────────

/// The hello a proxy sends, and a daemon answers with.
pub open spec fn hello_json(crate_version: Seq<char>) -> Json {
    Json::Object(
        seq![
            ("hello"@, Json::Object(
                seq![
                    ("crate_version"@, Json::Str(crate_version)),
                    ("protocol_version"@, Json::Number(decimal(PROTOCOL_VERSION as nat))),
                ],
            )),
        ],
    )
}

/// The daemon's refusal of a hello of another protocol version.
pub open spec fn hello_error_json(crate_version: Seq<char>) -> Json {
    Json::Object(
        seq![
            ("hello_error"@, Json::Object(
                seq![
                    ("crate_version"@, Json::Str(crate_version)),
                    ("protocol_version"@, Json::Number(decimal(PROTOCOL_VERSION as nat))),
                    ("reason"@, Json::Str("PROTOCOL_VERSION_MISMATCH"@)),
                ],
            )),
        ],
    )
}

fn hello_value() -> (r: JsonValue)
    ensures
        r@ == hello_json(CRATE_VERSION@),
{
    let inner = JsonValue::Object(
        vec![
            ("crate_version".to_owned(), JsonValue::string(CRATE_VERSION)),
            ("protocol_version".to_owned(), JsonValue::number_u64(PROTOCOL_VERSION)),
        ],
    );
    assert(inner@->Object_0 =~= hello_json(CRATE_VERSION@)->Object_0[0].1->Object_0);
    let r = JsonValue::Object(vec![("hello".to_owned(), inner)]);
    assert(r@->Object_0 =~= hello_json(CRATE_VERSION@)->Object_0);
    r
}

fn hello_error_value() -> (r: JsonValue)
    ensures
        r@ == hello_error_json(CRATE_VERSION@),
{
    let inner = JsonValue::Object(
        vec![
            ("crate_version".to_owned(), JsonValue::string(CRATE_VERSION)),
            ("protocol_version".to_owned(), JsonValue::number_u64(PROTOCOL_VERSION)),
            ("reason".to_owned(), JsonValue::string("PROTOCOL_VERSION_MISMATCH")),
        ],
    );
    assert(inner@->Object_0 =~= hello_error_json(CRATE_VERSION@)->Object_0[0].1->Object_0);
    let r = JsonValue::Object(vec![("hello_error".to_owned(), inner)]);
    assert(r@->Object_0 =~= hello_error_json(CRATE_VERSION@)->Object_0);
    r
}

/// The proxy's hello frame (the first frame of a connection).
pub fn hello_frame() -> (r: Vec<u8>)
    ensures
        r@ == encode_utf8(json_text(hello_json(CRATE_VERSION@))),
{
    let text = hello_value().to_json_string();
    bytes_of(text.as_str())
}

/// The protocol version a hello claims (0 when it names none).
pub open spec fn claimed_version(hello: Json) -> u64 {
    match hello.get("protocol_version"@) {
        Some(v) => match v.as_u64() {
            Some(n) => n,
            None => 0,
        },
        None => 0,
    }
}

/// The daemon's reading of a parsed first frame: not a hello (forward it
/// unchanged), a hello of this protocol (answer with our hello), or a hello
/// of another (refuse with the mismatch).
pub open spec fn hello_outcome(parsed: Result<Json, Seq<char>>) -> Option<Result<Seq<u8>, Seq<char>>> {
    match parsed {
        Err(_) => None,
        Ok(v) => match v.get("hello"@) {
            None => None,
            Some(h) => if claimed_version(h) != PROTOCOL_VERSION {
                Some(Err(json_text(hello_error_json(CRATE_VERSION@))))
            } else {
                Some(Ok(encode_utf8(json_text(hello_json(CRATE_VERSION@)))))
            },
        },
    }
}

/// Interprets a parsed first frame; see `hello_outcome`.
pub fn interpret_hello_value(parsed: Result<JsonValue, String>) -> (r: Option<Result<Vec<u8>, String>>)
    ensures
        hello_outcome(match parsed {
            Ok(v) => Ok::<Json, Seq<char>>(v@),
            Err(e) => Err::<Json, Seq<char>>(e@),
        }) == match r {
            None => None::<Result<Seq<u8>, Seq<char>>>,
            Some(Ok(b)) => Some(Ok::<Seq<u8>, Seq<char>>(b@)),
            Some(Err(e)) => Some(Err::<Seq<u8>, Seq<char>>(e@)),
        },
{
    let v = match parsed {
        Ok(v) => v,
        Err(_) => return None,
    };
    let hello = match v.get("hello") {
        Some(h) => h,
        None => return None,
    };
    let proto = match hello.get("protocol_version") {
        Some(x) => match x.as_u64() {
            Some(n) => n,
            None => 0,
        },
        None => 0,
    };
    if proto != PROTOCOL_VERSION {
        return Some(Err(hello_error_value().to_json_string()));
    }
    Some(Ok(hello_frame()))
}

/// Daemon side: interprets the first frame of a connection; see
/// `hello_outcome` over `parsed_json`.
pub fn interpret_hello(frame: &[u8]) -> (r: Option<Result<Vec<u8>, String>>)
    ensures
        hello_outcome(parsed_json(frame@)) == match r {
            None => None::<Result<Seq<u8>, Seq<char>>>,
            Some(Ok(b)) => Some(Ok::<Seq<u8>, Seq<char>>(b@)),
            Some(Err(e)) => Some(Err::<Seq<u8>, Seq<char>>(e@)),
        },
{
    interpret_hello_value(JsonValue::parse_bytes(frame))
}

/// The proxy's reading of the daemon's parsed reply: accepted on a hello,
/// refused with the daemon's reason, or an unexpected reply.
pub open spec fn hello_response_outcome(parsed: Result<Json, Seq<char>>) -> Result<(), Seq<char>> {
    match parsed {
        Err(e) => Err("not a hello response: "@ + e),
        Ok(v) => if v.get("hello"@) is Some {
            Ok(())
        } else {
            match v.get("hello_error"@) {
                Some(err) => Err("daemon rejected handshake: "@ + json_text(err)),
                None => Err("unexpected hello response shape"@),
            }
        },
    }
}

/// Interprets the daemon's parsed reply; see `hello_response_outcome`.
pub fn hello_response_value(parsed: Result<JsonValue, String>) -> (r: Result<(), String>)
    ensures
        hello_response_outcome(match parsed {
            Ok(v) => Ok::<Json, Seq<char>>(v@),
            Err(e) => Err::<Json, Seq<char>>(e@),
        }) == match r {
            Ok(()) => Ok::<(), Seq<char>>(()),
            Err(e) => Err::<(), Seq<char>>(e@),
        },
{
    let v = match parsed {
        Err(e) => {
            let mut m = "not a hello response: ".to_owned();
            push_all(&mut m, e.as_str());
            return Err(m);
        },
        Ok(v) => v,
    };
    if v.get("hello").is_some() {
        return Ok(());
    }
    match v.get("hello_error") {
        Some(err) => {
            let mut m = "daemon rejected handshake: ".to_owned();
            let t = err.to_json_string();
            push_all(&mut m, t.as_str());
            Err(m)
        },
        None => Err("unexpected hello response shape".to_owned()),
    }
}

/// Proxy side: interprets the daemon's hello reply; see
/// `hello_response_outcome` over `parsed_json`.
pub fn parse_hello_response(bytes: &[u8]) -> (r: Result<(), String>)
    ensures
        hello_response_outcome(parsed_json(bytes@)) == match r {
            Ok(()) => Ok::<(), Seq<char>>(()),
            Err(e) => Err::<(), Seq<char>>(e@),
        },
{
    hello_response_value(JsonValue::parse_bytes(bytes))
}

/// A hello of this protocol version is accepted with our hello; a hello of
/// any other version is refused with the mismatch, never accepted.
pub proof fn lemma_hello_accepted_iff_same_version(v: Json)
    requires
        v.get("hello"@) is Some,
    ensures
        hello_outcome(Ok(v)) is Some,
        (hello_outcome(Ok(v))->0 is Ok) <==> claimed_version(v.get("hello"@)->0) == PROTOCOL_VERSION,
        hello_outcome(Ok(v))->0 is Ok ==> hello_outcome(Ok(v))->0->Ok_0 == encode_utf8(json_text(hello_json(CRATE_VERSION@))),
{
}

} // verus!
