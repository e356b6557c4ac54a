//! Buffers that are handed to the caller.
//!
//! A result leaves the library as an owned buffer. Whoever receives it owns
//! it alone: no buffer is shared between two results, and nothing of it stays
//! behind in the library.

use vstd::prelude::*;
use vstd::slice::slice_to_vec;
use vstd::utf8::decode_utf8;
use vstd::utf8::encode_utf8;
use vstd::utf8::valid_utf8;

use crate::error::BigNumError;
use crate::integer::integer_minimal_bytes;
use crate::integer::is_minimal;
use crate::integer::signed_value;
use crate::integer::BigInteger;

verus! {

/// An integer result as owned bytes: two's complement, most significant byte
/// first, with their count.
pub struct ByteArrayResult {
    pub data: Vec<u8>,
    pub len: usize,
}

impl ByteArrayResult {
    /// The count is that of the bytes.
    pub open spec fn wf(&self) -> bool {
        self.len == self.data@.len()
    }

    /// The integer that the bytes denote.
    pub open spec fn value(&self) -> int {
        signed_value(self.data@)
    }

    /// The bytes of the result.
    pub fn as_bytes(&self) -> (r: &[u8])
        ensures
            r@ == self.data@,
    {
        self.data.as_slice()
    }
}

impl View for ByteArrayResult {
    type V = Seq<u8>;

    open spec fn view(&self) -> Seq<u8> {
        self.data@
    }
}

/// The integer that the two's-complement bytes `data` denote. Every sequence
/// of bytes denotes one; the empty sequence denotes 0.
pub fn bytes_to_bigint(data: &[u8]) -> (r: BigInteger)
    ensures
        r@ == signed_value(data@),
        r.bytes@ == data@,
{
    BigInteger { bytes: slice_to_vec(data) }
}

/// The shortest two's-complement bytes of `n`, as a buffer for the caller.
pub fn bigint_to_byte_result(n: &BigInteger) -> (r: ByteArrayResult)
    ensures
        r.wf(),
        r.value() == n@,
        is_minimal(r@),
{
    let data = integer_minimal_bytes(n);
    let len = data.len();
    ByteArrayResult { data, len }
}

/// `std::str::from_utf8`: the text that the bytes encode, where they are
/// valid UTF-8, and nothing where they are not.
#[verifier::external_body]
fn text_of_utf8<'a>(bytes: &'a [u8]) -> (r: Option<&'a str>)
    ensures
        match r {
            Some(s) => valid_utf8(bytes@) && s@ == decode_utf8(bytes@),
            None => !valid_utf8(bytes@),
        },
{
    match std::str::from_utf8(bytes) {
        Ok(s) => Some(s),
        Err(_) => None,
    }
}

/// Reads the text that came in as bytes. `None` stands for an operand that is
/// absent; absent operands and bytes that are not valid UTF-8 are refused.
pub fn c_str_to_string(bytes: Option<&[u8]>) -> (r: Result<String, BigNumError>)
    ensures
        match r {
            Ok(s) => bytes is Some && valid_utf8(bytes->0@) && s@ == decode_utf8(bytes->0@),
            Err(e) => (bytes is None || !valid_utf8(bytes->0@)) && e
                == BigNumError::InvalidEncoding,
        },
{
    match bytes {
        None => Err(BigNumError::InvalidEncoding),
        Some(b) => match text_of_utf8(b) {
            Some(s) => Ok(s.to_owned()),
            None => Err(BigNumError::InvalidEncoding),
        },
    }
}

/// The bytes in which a text result is handed out: its UTF-8 form with a
/// zero byte to end it. A text that holds a zero byte itself cannot be handed
/// out this way and gives nothing.
pub fn string_to_c_str(s: String) -> (r: Option<Vec<u8>>)
    ensures
        match r {
            Some(out) => !encode_utf8(s@).contains(0u8) && out@ == encode_utf8(s@).push(0u8),
            None => encode_utf8(s@).contains(0u8),
        },
{
    let bytes = s.as_str().as_bytes();
    let n = bytes.len();
    let mut i: usize = 0;
    while i < n
        invariant
            i <= n,
            n == bytes@.len(),
            bytes@ == encode_utf8(s@),
            forall|j: int| 0 <= j < i ==> bytes@[j] != 0u8,
        decreases n - i,
    {
        if bytes[i] == 0 {
            return None;
        }
        i = i + 1;
    }
    let mut out = slice_to_vec(bytes);
    out.push(0);
    Some(out)
}

} // verus!
