//! The byte-shift stream cipher of the LX format.
//!
//! Enciphering adds one to every byte, deciphering subtracts one, both
//! wrapping modulo 256. The whole-buffer transforms live here together with
//! the [`Reader`] and [`Writer`] holders around which `std::io` adapters can
//! be built.

use vstd::prelude::*;

use vstd::string::StrSliceExecFns;

use crate::text::string_from_utf8;

verus! {

/// A byte after enciphering: shifted up by one, wrapping at 255.
pub open spec fn enciphered_byte(b: u8) -> u8 {
    (((b as int) + 1) % 256) as u8
}

/// A byte after deciphering: shifted down by one, wrapping at 0.
pub open spec fn deciphered_byte(b: u8) -> u8 {
    (((b as int) + 255) % 256) as u8
}

/// A buffer after enciphering, byte for byte.
pub open spec fn enciphered(s: Seq<u8>) -> Seq<u8> {
    s.map_values(|b: u8| enciphered_byte(b))
}

/// A buffer after deciphering, byte for byte.
pub open spec fn deciphered(s: Seq<u8>) -> Seq<u8> {
    s.map_values(|b: u8| deciphered_byte(b))
}

/// Deciphering inverts enciphering on every single byte, including the
/// wraparound at 0xFF.
pub proof fn lemma_cipher_byte_roundtrip(b: u8)
    ensures
        deciphered_byte(enciphered_byte(b)) == b,
        enciphered_byte(deciphered_byte(b)) == b,
{
}

/// Deciphering inverts enciphering on every byte sequence, and the other
/// way around.
pub proof fn lemma_cipher_roundtrip(s: Seq<u8>)
    ensures
        deciphered(enciphered(s)) == s,
        enciphered(deciphered(s)) == s,
{
    assert forall|i: int| 0 <= i < s.len() implies deciphered(enciphered(s))[i] == s[i] by {
        lemma_cipher_byte_roundtrip(s[i]);
    }
    assert forall|i: int| 0 <= i < s.len() implies enciphered(deciphered(s))[i] == s[i] by {
        lemma_cipher_byte_roundtrip(s[i]);
    }
    assert(deciphered(enciphered(s)) =~= s);
    assert(enciphered(deciphered(s)) =~= s);
}

/// Enciphers one byte.
pub fn encode_byte(b: u8) -> (r: u8)
    ensures
        r == enciphered_byte(b),
{
    b.wrapping_add(1)
}

/// Deciphers one byte.
pub fn decode_byte(b: u8) -> (r: u8)
    ensures
        r == deciphered_byte(b),
{
    b.wrapping_sub(1)
}

/// Enciphers a whole buffer.
pub fn encrypt_bytes(s: &[u8]) -> (r: Vec<u8>)
    ensures
        r@ == enciphered(s@),
{
    let mut r: Vec<u8> = Vec::new();
    let n = s.len();
    let mut i: usize = 0;
    while i < n
        invariant
            0 <= i <= n == s@.len(),
            r@ == enciphered(s@.take(i as int)),
        decreases n - i,
    {
        r.push(encode_byte(s[i]));
        proof {
            assert(r@ =~= enciphered(s@.take(i + 1)));
        }
        i = i + 1;
    }
    proof {
        assert(s@.take(n as int) =~= s@);
    }
    r
}

/// Deciphers a whole buffer.
pub fn decrypt_bytes(s: &[u8]) -> (r: Vec<u8>)
    ensures
        r@ == deciphered(s@),
{
    let mut r: Vec<u8> = Vec::new();
    let n = s.len();
    let mut i: usize = 0;
    while i < n
        invariant
            0 <= i <= n == s@.len(),
            r@ == deciphered(s@.take(i as int)),
        decreases n - i,
    {
        r.push(decode_byte(s[i]));
        proof {
            assert(r@ =~= deciphered(s@.take(i + 1)));
        }
        i = i + 1;
    }
    proof {
        assert(s@.take(n as int) =~= s@);
    }
    r
}

/// Deciphers the bytes of `s` and reads the result as text.
///
/// Fails exactly when the shifted bytes are not valid UTF-8.
pub fn decrypt(s: &str) -> (r: Result<String, std::string::FromUtf8Error>)
    ensures
        r is Ok <==> vstd::utf8::valid_utf8(deciphered(vstd::utf8::encode_utf8(s@))),
        r is Ok ==> (r->Ok_0)@ == vstd::utf8::decode_utf8(
            deciphered(vstd::utf8::encode_utf8(s@)),
        ),
{
    let bytes = s.as_bytes_vec();
    let shifted = decrypt_bytes(bytes.as_slice());
    string_from_utf8(shifted)
}

/// Enciphers the bytes of `s` and reads the result as text.
///
/// Fails exactly when the shifted bytes are not valid UTF-8.
pub fn encrypt(s: &str) -> (r: Result<String, std::string::FromUtf8Error>)
    ensures
        r is Ok <==> vstd::utf8::valid_utf8(enciphered(vstd::utf8::encode_utf8(s@))),
        r is Ok ==> (r->Ok_0)@ == vstd::utf8::decode_utf8(
            enciphered(vstd::utf8::encode_utf8(s@)),
        ),
{
    let bytes = s.as_bytes_vec();
    let shifted = encrypt_bytes(bytes.as_slice());
    string_from_utf8(shifted)
}

/// Holds a byte source whose content is to be deciphered as it is read.
///
/// The deciphering itself is [`decode_byte`] applied to every byte that
/// comes out of the source; wiring that into a `std::io::Read`
/// implementation is I/O plumbing and stays outside this crate.
pub struct Reader<R> {
    inner: R,
}

impl<R> Reader<R> {
    /// The wrapped source, for spec purposes.
    pub closed spec fn inner_spec(&self) -> &R {
        &self.inner
    }

    /// Wraps a byte source.
    pub fn new(inner: R) -> (r: Self)
        ensures
            r.inner_spec() == &inner,
    {
        Self { inner }
    }

    /// Hands the wrapped source back.
    pub fn into_inner(self) -> (r: R)
        ensures
            &r == self.inner_spec(),
    {
        self.inner
    }
}

/// Holds a byte sink whose content is to be enciphered as it is written.
///
/// The enciphering itself is [`encode_byte`] applied to every byte pushed
/// into the sink; wiring that into a `std::io::Write` implementation is I/O
/// plumbing and stays outside this crate.
pub struct Writer<W> {
    inner: W,
}

impl<W> Writer<W> {
    /// The wrapped sink, for spec purposes.
    pub closed spec fn inner_spec(&self) -> &W {
        &self.inner
    }

    /// Wraps a byte sink.
    pub fn new(inner: W) -> (r: Self)
        ensures
            r.inner_spec() == &inner,
    {
        Self { inner }
    }

    /// Hands the wrapped sink back.
    pub fn into_inner(self) -> (r: W)
        ensures
            &r == self.inner_spec(),
    {
        self.inner
    }
}

} // verus!
