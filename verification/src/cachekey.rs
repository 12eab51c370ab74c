//! Content-addressed cache keys: a cryptographic digest over the segment
//! text bytes and the voice parameters serialized in a fixed byte order.
//! Identical (text, parameters) pairs always produce the identical key;
//! distinct pairs produce distinct digest inputs, so two distinct inputs
//! collide only if the digest itself collides.

use vstd::prelude::*;
use vstd::string::*;
use crate::config::VoiceParams;

use sha2::Digest;

verus! {

/// What the SHA-256 digest of a byte sequence is; determined by the input
/// bytes alone.
pub uninterp spec fn sha256_of(data: Seq<u8>) -> Seq<u8>;

/// Relies on sha2's `Sha256::digest`: the SHA-256 digest of the input,
/// 32 bytes long, a function of the input bytes alone.
#[verifier::external_body]
fn sha256_digest(data: &Vec<u8>) -> (r: Vec<u8>)
    ensures
        r@ == sha256_of(data@),
        r@.len() == 32,
{
    sha2::Sha256::digest(data.as_slice()).to_vec()
}

/// Big-endian bytes of a 32-bit value.
pub open spec fn u32_be_bytes(x: u32) -> Seq<u8> {
    seq![
        ((x >> 24) & 0xff) as u8,
        ((x >> 16) & 0xff) as u8,
        ((x >> 8) & 0xff) as u8,
        (x & 0xff) as u8,
    ]
}

fn push_u32_be(dst: &mut Vec<u8>, x: u32)
    ensures
        final(dst)@ == old(dst)@ + u32_be_bytes(x),
{
    proof {
        assert((x >> 24) & 0xff < 256 && (x >> 16) & 0xff < 256 && (x >> 8) & 0xff < 256 && x
            & 0xff < 256) by (bit_vector);
    }
    dst.push(((x >> 24) & 0xff) as u8);
    dst.push(((x >> 16) & 0xff) as u8);
    dst.push(((x >> 8) & 0xff) as u8);
    dst.push((x & 0xff) as u8);
    proof {
        assert(dst@ =~= old(dst)@ + u32_be_bytes(x));
    }
}

/// The digest input: segment text bytes, then speed, pitch and sample
/// rate, each as four big-endian bytes.
pub open spec fn key_input(text: Seq<u8>, vp: VoiceParams) -> Seq<u8> {
    text + u32_be_bytes(vp.speed_centi) + u32_be_bytes(vp.pitch_centi) + u32_be_bytes(
        vp.sample_rate,
    )
}

/// One lower-case hexadecimal digit.
pub open spec fn hex_digit(d: u8) -> char {
    if d == 0 {
        '0'
    } else if d == 1 {
        '1'
    } else if d == 2 {
        '2'
    } else if d == 3 {
        '3'
    } else if d == 4 {
        '4'
    } else if d == 5 {
        '5'
    } else if d == 6 {
        '6'
    } else if d == 7 {
        '7'
    } else if d == 8 {
        '8'
    } else if d == 9 {
        '9'
    } else if d == 10 {
        'a'
    } else if d == 11 {
        'b'
    } else if d == 12 {
        'c'
    } else if d == 13 {
        'd'
    } else if d == 14 {
        'e'
    } else {
        'f'
    }
}

pub(crate) fn hex_digit_char(d: u8) -> (r: char)
    ensures
        r == hex_digit(d),
{
    if d == 0 {
        '0'
    } else if d == 1 {
        '1'
    } else if d == 2 {
        '2'
    } else if d == 3 {
        '3'
    } else if d == 4 {
        '4'
    } else if d == 5 {
        '5'
    } else if d == 6 {
        '6'
    } else if d == 7 {
        '7'
    } else if d == 8 {
        '8'
    } else if d == 9 {
        '9'
    } else if d == 10 {
        'a'
    } else if d == 11 {
        'b'
    } else if d == 12 {
        'c'
    } else if d == 13 {
        'd'
    } else if d == 14 {
        'e'
    } else {
        'f'
    }
}

/// Lower-case hexadecimal rendering: two digits for each byte.
pub open spec fn hex_of(data: Seq<u8>) -> Seq<char>
    decreases data.len(),
{
    if data.len() == 0 {
        Seq::empty()
    } else {
        seq![hex_digit(data[0] >> 4), hex_digit(data[0] & 0x0f)] + hex_of(data.skip(1))
    }
}

pub proof fn lemma_hex_of_len(data: Seq<u8>)
    ensures
        hex_of(data).len() == 2 * data.len(),
    decreases data.len(),
{
    if data.len() > 0 {
        lemma_hex_of_len(data.skip(1));
    }
}

fn to_hex(data: &Vec<u8>) -> (r: Vec<char>)
    ensures
        r@ == hex_of(data@),
{
    let n = data.len();
    let mut r: Vec<char> = Vec::new();
    let mut i: usize = 0;
    proof {
        assert(data@.skip(0) =~= data@);
    }
    while i < n
        invariant
            i <= n,
            n == data@.len(),
            r@ + hex_of(data@.skip(i as int)) =~= hex_of(data@),
        decreases n - i,
    {
        let b = data[i];
        proof {
            assert(data@.skip(i as int)[0] == data@[i as int]);
            assert(data@.skip(i as int).skip(1) =~= data@.skip(i + 1));
        }
        r.push(hex_digit_char(b >> 4));
        r.push(hex_digit_char(b & 0x0f));
        i = i + 1;
        proof {
            assert(r@ + hex_of(data@.skip(i as int)) =~= hex_of(data@));
        }
    }
    proof {
        assert(r@ =~= hex_of(data@));
    }
    r
}

/// What the cache key of a (text, voice parameters) pair is.
pub open spec fn cache_key_spec(text_bytes: Seq<u8>, vp: VoiceParams) -> Seq<char> {
    hex_of(sha256_of(key_input(text_bytes, vp)))
}

/// The content-addressed cache key for one synthesis unit: the lower-case
/// hexadecimal SHA-256 digest of the text bytes and the voice parameters
/// in fixed byte order. 64 characters long.
pub fn cache_key(text: &str, vp: &VoiceParams) -> (r: String)
    ensures
        r@ == cache_key_spec(text.spec_bytes(), *vp),
        r@.len() == 64,
{
    let mut data = text.as_bytes_vec();
    push_u32_be(&mut data, vp.speed_centi);
    push_u32_be(&mut data, vp.pitch_centi);
    push_u32_be(&mut data, vp.sample_rate);
    proof {
        assert(data@ =~= key_input(text.spec_bytes(), *vp));
    }
    let digest = sha256_digest(&data);
    let hex = to_hex(&digest);
    proof {
        lemma_hex_of_len(digest@);
    }
    let r = crate::textutil::string_of(&hex);
    r
}

/// Computing the key twice from identical inputs yields identical keys:
/// the key is a function of the text bytes and the voice parameters and of
/// nothing else.
pub proof fn lemma_cache_key_deterministic(
    t1: Seq<u8>,
    p1: VoiceParams,
    t2: Seq<u8>,
    p2: VoiceParams,
)
    requires
        t1 == t2,
        p1 == p2,
    ensures
        cache_key_spec(t1, p1) == cache_key_spec(t2, p2),
{
}

proof fn lemma_u32_be_bytes_injective(x: u32, y: u32)
    requires
        u32_be_bytes(x) == u32_be_bytes(y),
    ensures
        x == y,
{
    assert(u32_be_bytes(x)[0] == u32_be_bytes(y)[0]);
    assert(u32_be_bytes(x)[1] == u32_be_bytes(y)[1]);
    assert(u32_be_bytes(x)[2] == u32_be_bytes(y)[2]);
    assert(u32_be_bytes(x)[3] == u32_be_bytes(y)[3]);
    assert((x >> 24) & 0xff < 256 && (x >> 16) & 0xff < 256 && (x >> 8) & 0xff < 256 && x & 0xff
        < 256) by (bit_vector);
    assert((y >> 24) & 0xff < 256 && (y >> 16) & 0xff < 256 && (y >> 8) & 0xff < 256 && y & 0xff
        < 256) by (bit_vector);
    assert((x >> 24) & 0xff == (y >> 24) & 0xff);
    assert((x >> 16) & 0xff == (y >> 16) & 0xff);
    assert((x >> 8) & 0xff == (y >> 8) & 0xff);
    assert(x & 0xff == y & 0xff);
    assert(((x >> 24) & 0xff == (y >> 24) & 0xff && (x >> 16) & 0xff == (y >> 16) & 0xff && (x >> 8)
        & 0xff == (y >> 8) & 0xff && x & 0xff == y & 0xff) ==> x == y) by (bit_vector);
}

/// Changing the text or any one voice parameter changes the digest input:
/// the serialization of a (text, voice parameters) pair is injective, so
/// two distinct pairs are told apart as surely as the digest itself
/// resists collisions.
pub proof fn lemma_key_input_injective(t1: Seq<u8>, p1: VoiceParams, t2: Seq<u8>, p2: VoiceParams)
    requires
        key_input(t1, p1) == key_input(t2, p2),
    ensures
        t1 == t2,
        p1 == p2,
{
    let k1 = key_input(t1, p1);
    let k2 = key_input(t2, p2);
    assert(k1.len() == t1.len() + 12int);
    assert(k2.len() == t2.len() + 12int);
    assert(t1.len() == t2.len());
    assert(t1 =~= k1.subrange(0, t1.len() as int));
    assert(t2 =~= k2.subrange(0, t2.len() as int));
    assert(u32_be_bytes(p1.speed_centi) =~= k1.subrange(t1.len() as int, t1.len() + 4int));
    assert(u32_be_bytes(p2.speed_centi) =~= k2.subrange(t2.len() as int, t2.len() + 4int));
    assert(u32_be_bytes(p1.pitch_centi) =~= k1.subrange(t1.len() + 4int, t1.len() + 8int));
    assert(u32_be_bytes(p2.pitch_centi) =~= k2.subrange(t2.len() + 4int, t2.len() + 8int));
    assert(u32_be_bytes(p1.sample_rate) =~= k1.subrange(t1.len() + 8int, t1.len() + 12int));
    assert(u32_be_bytes(p2.sample_rate) =~= k2.subrange(t2.len() + 8int, t2.len() + 12int));
    lemma_u32_be_bytes_injective(p1.speed_centi, p2.speed_centi);
    lemma_u32_be_bytes_injective(p1.pitch_centi, p2.pitch_centi);
    lemma_u32_be_bytes_injective(p1.sample_rate, p2.sample_rate);
}

} // verus!
