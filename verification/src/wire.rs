use vstd::prelude::*;
use crate::transaction::TransactionView;

verus! {

/// The `width` low bytes of `value`, the least significant first.
pub open spec fn le_bytes(value: nat, width: nat) -> Seq<u8>
    decreases width,
{
    if width == 0 {
        Seq::empty()
    } else {
        seq![(value % 256) as u8] + le_bytes(value / 256, (width - 1) as nat)
    }
}

/// The number that little-endian bytes stand for.
pub open spec fn le_value(bytes: Seq<u8>) -> nat
    decreases bytes.len(),
{
    if bytes.len() == 0 {
        0
    } else {
        bytes[0] as nat + 256 * le_value(bytes.drop_first())
    }
}

/// The variable-length encoding of a count: one byte up to 252; above that a
/// marker byte (`0xfd`, `0xfe`, `0xff`) and the value in the least number of
/// 2, 4 or 8 little-endian bytes.
pub open spec fn varint_bytes(value: u64) -> Seq<u8> {
    if value <= 252 {
        seq![value as u8]
    } else if value <= 0xffff {
        seq![0xfdu8] + le_bytes(value as nat, 2)
    } else if value <= 0xffff_ffff {
        seq![0xfeu8] + le_bytes(value as nat, 4)
    } else {
        seq![0xffu8] + le_bytes(value as nat, 8)
    }
}

/// The lowercase hexadecimal digit of a value below 16.
pub open spec fn hex_digit(nibble: int) -> char {
    if nibble < 10 {
        ((48 + nibble) as u8) as char
    } else {
        ((87 + nibble) as u8) as char
    }
}

/// The lowercase hexadecimal text of bytes: two digits for each byte, the
/// high half first.
pub open spec fn hex_digits(bytes: Seq<u8>) -> Seq<char> {
    Seq::new(
        2 * bytes.len(),
        |i: int|
            if i % 2 == 0 {
                hex_digit(bytes[i / 2] as int / 16)
            } else {
                hex_digit(bytes[i / 2] as int % 16)
            },
    )
}

/// The canonical encodings of the members, one after the other.
pub open spec fn encodings_of(txs: Seq<TransactionView>) -> Seq<u8> {
    txs.map_values(|t: TransactionView| t.encoding).flatten()
}

/// The wire form of a transaction set: the count, then each member.
pub open spec fn wire_format(txs: Seq<TransactionView>) -> Seq<u8> {
    varint_bytes(txs.len() as u64) + encodings_of(txs)
}

} // verus!
