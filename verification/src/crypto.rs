//! Digests and keyed signatures over canonical JSON text.
//!
//! SHA-256 itself comes from the `sha2` crate; its result is named
//! (`sha256_digest`). Hex encoding, HMAC-SHA256 (RFC 2104) and the
//! `sha256:` / `hmac-sha256:` labelled forms are stated and proved here.
use vstd::prelude::*;
use vstd::utf8::encode_utf8;
use crate::json::{hex_digit, json_text, Json, JsonValue};

verus! {

/// The SHA-256 digest of a byte string, as `sha2` computes it.
pub uninterp spec fn sha256_digest(data: Seq<u8>) -> Seq<u8>;

/// `sha2::Sha256::digest`: the 32-byte SHA-256 digest of `data`. The
/// contract names the result and states its documented length; nothing
/// else about the hash is assumed.
#[verifier::external_body]
pub(crate) fn sha256(data: &[u8]) -> (r: Vec<u8>)
    ensures
        r@ == sha256_digest(data@),
        r@.len() == 32,
{
    <sha2::Sha256 as sha2::Digest>::digest(data).to_vec()
}

/// Lower-case hexadecimal text of a byte string (`format!("{:x}")`).
pub open spec fn hex_text(bytes: Seq<u8>) -> Seq<char>
    decreases bytes.len(),
{
    if bytes.len() == 0 {
        Seq::empty()
    } else {
        hex_text(bytes.drop_last()) + seq![
            hex_digit(bytes.last() as int / 16),
            hex_digit(bytes.last() as int % 16),
        ]
    }
}

pub open spec fn hmac_block_size() -> int {
    64
}

/// The HMAC key block: the key (hashed when longer than a block), padded
/// with zero bytes to the block size.
pub open spec fn hmac_key_block(key: Seq<u8>) -> Seq<u8> {
    let k = if key.len() > hmac_block_size() {
        sha256_digest(key)
    } else {
        key
    };
    k + Seq::new((hmac_block_size() - k.len()) as nat, |i: int| 0u8)
}

pub open spec fn xor_pad(block: Seq<u8>, pad: u8) -> Seq<u8> {
    Seq::new(block.len(), |i: int| block[i] ^ pad)
}

/// HMAC-SHA256 (RFC 2104).
pub open spec fn hmac_sha256_bytes(key: Seq<u8>, msg: Seq<u8>) -> Seq<u8> {
    let block = hmac_key_block(key);
    sha256_digest(xor_pad(block, 0x5c) + sha256_digest(xor_pad(block, 0x36) + msg))
}

/// The bytes that digests and signatures cover: the UTF-8 encoding of the
/// compact JSON text.
pub open spec fn canonical_bytes(v: Json) -> Seq<u8> {
    encode_utf8(json_text(v))
}

pub open spec fn sha256_label() -> Seq<char> {
    seq!['s', 'h', 'a', '2', '5', '6', ':']
}

pub open spec fn hmac_label() -> Seq<char> {
    seq!['h', 'm', 'a', 'c', '-', 's', 'h', 'a', '2', '5', '6', ':']
}

/// `sha256:<hex>` digest of a JSON value.
pub open spec fn digest_text(v: Json) -> Seq<char> {
    sha256_label() + hex_text(sha256_digest(canonical_bytes(v)))
}

/// `hmac-sha256:<hex>` signature of a JSON value under `key`.
pub open spec fn signature_text(v: Json, key: Seq<u8>) -> Seq<char> {
    hmac_label() + hex_text(hmac_sha256_bytes(key, canonical_bytes(v)))
}

fn hex_digit_char(n: u8) -> (c: char)
    requires
        n < 16,
    ensures
        c == hex_digit(n as int),
{
    if n < 10 {
        (48u8 + n) as char
    } else {
        (87u8 + n) as char
    }
}

/// Appends the lower-case hex text of `bytes`.
pub fn push_hex(out: &mut String, bytes: &[u8])
    ensures
        final(out)@ == old(out)@ + hex_text(bytes@),
{
    let ghost start = out@;
    let mut i: usize = 0;
    while i < bytes.len()
        invariant
            i <= bytes.len(),
            out@ == start + hex_text(bytes@.subrange(0, i as int)),
        decreases bytes.len() - i,
    {
        let b = bytes[i];
        assert(bytes@.subrange(0, i + 1).drop_last() =~= bytes@.subrange(0, i as int));
        out.push(hex_digit_char(b / 16));
        out.push(hex_digit_char(b % 16));
        assert(out@ =~= start + hex_text(bytes@.subrange(0, i + 1)));
        i += 1;
    }
    assert(bytes@.subrange(0, bytes@.len() as int) =~= bytes@);
}

/// HMAC-SHA256 of `msg` under `key`.
pub fn hmac_sha256(key: &[u8], msg: &[u8]) -> (r: Vec<u8>)
    ensures
        r@ == hmac_sha256_bytes(key@, msg@),
{
    let mut block: Vec<u8> = Vec::new();
    if key.len() > 64 {
        let h = sha256(key);
        let mut i: usize = 0;
        while i < h.len()
            invariant
                i <= h.len(),
                block@ == h@.subrange(0, i as int),
            decreases h.len() - i,
        {
            block.push(h[i]);
            i += 1;
        }
        assert(block@ =~= h@);
    } else {
        let mut i: usize = 0;
        while i < key.len()
            invariant
                i <= key.len(),
                block@ == key@.subrange(0, i as int),
            decreases key.len() - i,
        {
            block.push(key[i]);
            i += 1;
        }
        assert(block@ =~= key@);
    }
    let ghost k = block@;
    while block.len() < 64
        invariant
            k.len() <= 64,
            k.len() <= block@.len() <= 64,
            block@ == k + Seq::new((block@.len() - k.len()) as nat, |i: int| 0u8),
        decreases 64 - block.len(),
    {
        block.push(0u8);
        assert(block@ =~= k + Seq::new((block@.len() - k.len()) as nat, |i: int| 0u8));
    }
    assert(block@ =~= hmac_key_block(key@));
    let mut inner: Vec<u8> = Vec::new();
    let mut outer: Vec<u8> = Vec::new();
    let mut i: usize = 0;
    while i < 64
        invariant
            i <= 64,
            block@.len() == 64,
            inner@ == xor_pad(block@, 0x36).subrange(0, i as int),
            outer@ == xor_pad(block@, 0x5c).subrange(0, i as int),
        decreases 64 - i,
    {
        inner.push(block[i] ^ 0x36);
        outer.push(block[i] ^ 0x5c);
        assert(inner@ =~= xor_pad(block@, 0x36).subrange(0, i + 1));
        assert(outer@ =~= xor_pad(block@, 0x5c).subrange(0, i + 1));
        i += 1;
    }
    assert(inner@ =~= xor_pad(block@, 0x36));
    assert(outer@ =~= xor_pad(block@, 0x5c));
    let ghost inner_start = inner@;
    let mut j: usize = 0;
    while j < msg.len()
        invariant
            j <= msg.len(),
            inner@ == inner_start + msg@.subrange(0, j as int),
        decreases msg.len() - j,
    {
        inner.push(msg[j]);
        assert(inner@ =~= inner_start + msg@.subrange(0, j + 1));
        j += 1;
    }
    assert(msg@.subrange(0, msg@.len() as int) =~= msg@);
    let ih = sha256(inner.as_slice());
    let ghost outer_start = outer@;
    let mut m: usize = 0;
    while m < ih.len()
        invariant
            m <= ih.len(),
            outer@ == outer_start + ih@.subrange(0, m as int),
        decreases ih.len() - m,
    {
        outer.push(ih[m]);
        assert(outer@ =~= outer_start + ih@.subrange(0, m + 1));
        m += 1;
    }
    assert(ih@.subrange(0, ih@.len() as int) =~= ih@);
    sha256(outer.as_slice())
}

/// The `sha256:<hex>` digest of a JSON value's canonical text.
pub fn digest(v: &JsonValue) -> (r: String)
    ensures
        r@ == digest_text(v@),
{
    let text = v.to_json_string();
    let h = sha256(text.as_str().as_bytes());
    let mut out = String::new();
    out.push('s');
    out.push('h');
    out.push('a');
    out.push('2');
    out.push('5');
    out.push('6');
    out.push(':');
    push_hex(&mut out, h.as_slice());
    assert(out@ =~= digest_text(v@));
    out
}

/// The `hmac-sha256:<hex>` signature of a JSON value's canonical text.
pub fn sign(v: &JsonValue, key: &[u8]) -> (r: String)
    ensures
        r@ == signature_text(v@, key@),
{
    let text = v.to_json_string();
    let mac = hmac_sha256(key, text.as_str().as_bytes());
    let mut out = String::new();
    out.push('h');
    out.push('m');
    out.push('a');
    out.push('c');
    out.push('-');
    out.push('s');
    out.push('h');
    out.push('a');
    out.push('2');
    out.push('5');
    out.push('6');
    out.push(':');
    push_hex(&mut out, mac.as_slice());
    assert(out@ =~= signature_text(v@, key@));
    out
}

/// Lower-case hex SHA-256 of the UTF-8 bytes of a text.
pub open spec fn sha256_hex_text(text: Seq<char>) -> Seq<char> {
    hex_text(sha256_digest(encode_utf8(text)))
}

/// The lower-case hex SHA-256 of the UTF-8 bytes of `text`.
pub fn sha256_hex(text: &str) -> (r: String)
    ensures
        r@ == sha256_hex_text(text@),
{
    let h = sha256(text.as_bytes());
    let mut out = String::new();
    push_hex(&mut out, h.as_slice());
    assert(out@ =~= sha256_hex_text(text@));
    out
}

} // verus!
