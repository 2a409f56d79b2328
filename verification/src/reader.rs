//! Reading from an in-memory byte source.
//!
//! A source is a `&mut &[u8]`: reading hands out a prefix of the slice and
//! leaves the rest in place.

use crate::error::DecodeError;
use crate::le::{get_u32, u32_from_le};
use vstd::prelude::*;
use vstd::slice::slice_subrange;

verus! {

/// What taking `n` bytes from `input` yields: the bytes, `None` at a clean
/// end of input, or a truncation error when only a part is there.
pub open spec fn read_exact_spec(input: Seq<u8>, n: nat) -> Result<Option<Seq<u8>>, DecodeError> {
    if n <= input.len() {
        Ok(Some(input.take(n as int)))
    } else if input.len() == 0 {
        Ok(None)
    } else {
        Err(DecodeError::Truncated)
    }
}

/// What is left of `input` after taking `n` bytes from it. A failed read
/// drains the source.
pub open spec fn read_exact_rest(input: Seq<u8>, n: nat) -> Seq<u8> {
    if n <= input.len() {
        input.skip(n as int)
    } else {
        Seq::empty()
    }
}

/// The value of the result of [`read_exact`].
pub open spec fn bytes_result_view(r: Result<Option<&[u8]>, DecodeError>) -> Result<
    Option<Seq<u8>>,
    DecodeError,
> {
    match r {
        Err(e) => Err(e),
        Ok(None) => Ok(None),
        Ok(Some(bytes)) => Ok(Some(bytes@)),
    }
}

/// Takes exactly `n` bytes from the front of `src`.
///
/// Returns `None` if `src` is empty and `n` is not zero: the source ended
/// cleanly. A source that holds some bytes, but fewer than `n`, is truncated.
pub fn read_exact<'a>(src: &mut &'a [u8], n: usize) -> (r: Result<Option<&'a [u8]>, DecodeError>)
    ensures
        bytes_result_view(r) == read_exact_spec(old(src)@, n as nat),
        final(src)@ == read_exact_rest(old(src)@, n as nat),
{
    let input: &'a [u8] = *src;
    let len = input.len();
    if n <= len {
        *src = slice_subrange(input, n, len);
        Ok(Some(slice_subrange(input, 0, n)))
    } else {
        *src = slice_subrange(input, len, len);
        if len == 0 {
            Ok(None)
        } else {
            Err(DecodeError::Truncated)
        }
    }
}

/// What reading a little-endian `u32` from `input` yields. Unlike a header,
/// the integer may not be missing: an empty input is truncated too.
pub open spec fn decode_u32_spec(input: Seq<u8>) -> Result<u32, DecodeError> {
    if input.len() < 4 {
        Err(DecodeError::Truncated)
    } else {
        Ok(u32_from_le(input, 0))
    }
}

/// Reads four bytes from `reader` and interprets them as a little-endian
/// `u32`.
pub fn decode_u32(reader: &mut &[u8]) -> (r: Result<u32, DecodeError>)
    ensures
        r == decode_u32_spec(old(reader)@),
        final(reader)@ == read_exact_rest(old(reader)@, 4),
{
    match read_exact(reader, 4) {
        Ok(Some(bytes)) => Ok(get_u32(bytes, 0)),
        _ => Err(DecodeError::Truncated),
    }
}

} // verus!
