use vstd::prelude::*;
use crate::wire::{hex_digits, varint_bytes};

verus! {

/// Calls `snarkvm_utilities::has_duplicates` on the tags in order. That
/// function inserts the items one by one into a hash set and reports whether
/// some insertion met an equal item: whether two positions of the list hold
/// equal tags.
#[verifier::external_body]
pub(crate) fn has_duplicate_tags(tags: &Vec<[u8; 32]>) -> (r: bool)
    ensures
        r == !tags@.no_duplicates(),
{
    snarkvm_utilities::has_duplicates(tags.iter())
}

/// Calls `hex::encode`, which writes each byte as two characters of
/// `0123456789abcdef`, the high half first.
#[verifier::external_body]
pub(crate) fn encode_hex(bytes: &Vec<u8>) -> (r: String)
    ensures
        r@ == hex_digits(bytes@),
{
    hex::encode(bytes)
}

/// Calls `snarkvm_utilities::variable_length_integer::variable_length_integer`,
/// which gives one byte for a value up to 252 and otherwise a marker byte
/// followed by the value as a little-endian `u16`, `u32` or `u64`, the
/// narrowest that holds it.
#[verifier::external_body]
pub(crate) fn count_prefix(value: u64) -> (r: Vec<u8>)
    ensures
        r@ == varint_bytes(value),
{
    snarkvm_utilities::variable_length_integer::variable_length_integer(value)
}

/// Calls `snarkvm_utilities::variable_length_integer::read_variable_length_integer`
/// with the bytes as its reader, and hands back the count together with the
/// bytes that the reader has left. The call succeeds exactly when the bytes
/// begin with the encoding of some 64-bit value in its narrowest form, and
/// then gives that value converted to `usize`; it fails when the bytes end
/// too early or use a wider form than the value needs.
#[verifier::external_body]
pub(crate) fn read_count(bytes: &[u8]) -> (r: Option<(usize, &[u8])>)
    ensures
        match r {
            Some((count, rest)) => exists|value: u64|
                bytes@ == #[trigger] varint_bytes(value) + rest@ && count == (#[verifier::truncate] (value as usize)),
            None => forall|value: u64| !(#[trigger] varint_bytes(value)).is_prefix_of(bytes@),
        },
{
    let mut reader = bytes;
    match snarkvm_utilities::variable_length_integer::read_variable_length_integer(&mut reader) {
        Ok(count) => Some((count, reader)),
        Err(_) => None,
    }
}

} // verus!
