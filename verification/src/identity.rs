//! Content identity: the 32-byte address a lineage edge is keyed by.

use vstd::prelude::*;

verus! {

/// A 32-byte content address.
#[derive(Clone, Copy, PartialEq, Eq, Hash, PartialOrd, Ord, Debug)]
pub struct ContentHash {
    bytes: [u8; 32],
}

impl View for ContentHash {
    type V = Seq<u8>;

    closed spec fn view(&self) -> Seq<u8> {
        self.bytes@
    }
}

/// The byte a two-character field of lowercase hexadecimal digits denotes,
/// high digit first; `None` when either character is not such a digit.
pub open spec fn hex_pair_value(a: char, b: char) -> Option<u8> {
    match (crate::text::lower_hex_value(a), crate::text::lower_hex_value(b)) {
        (Some(h), Some(l)) => Some((h * 16 + l) as u8),
        _ => None,
    }
}

/// Whether a text is exactly 64 lowercase hexadecimal digits.
pub open spec fn hex_address_ok(s: Seq<char>) -> bool {
    s.len() == 64 && forall|i: int| 0 <= i < 64 ==> (#[trigger] crate::text::lower_hex_value(s[i])) is Some
}

/// A text of 64 characters is a lowercase hexadecimal address exactly when
/// each of its 32 two-character fields reads as a byte.
proof fn lemma_address_ok_by_pairs(s: Seq<char>)
    requires
        s.len() == 64,
    ensures
        hex_address_ok(s) <==> forall|i: int| 0 <= i < 32 ==> (#[trigger] hex_pair_value(s[2 * i], s[2 * i + 1])) is Some,
{
    if forall|i: int| 0 <= i < 32 ==> (#[trigger] hex_pair_value(s[2 * i], s[2 * i + 1])) is Some {
        assert forall|i: int| 0 <= i < 64 implies (#[trigger] crate::text::lower_hex_value(s[i])) is Some by {
            let k = i / 2;
            assert(hex_pair_value(s[2 * k], s[2 * k + 1]) is Some);
        }
    }
    if hex_address_ok(s) {
        assert forall|i: int| 0 <= i < 32 implies (#[trigger] hex_pair_value(s[2 * i], s[2 * i + 1])) is Some by {
            assert(crate::text::lower_hex_value(s[2 * i]) is Some);
            assert(crate::text::lower_hex_value(s[2 * i + 1]) is Some);
        }
    }
}

/// The 32 bytes a parsable 64-character text denotes.
pub open spec fn hex_address_bytes(s: Seq<char>) -> Seq<u8> {
    Seq::new(32, |i: int| hex_pair_value(s[2 * i], s[2 * i + 1])->Some_0)
}

pub(crate) fn hex_pair(a: char, b: char) -> (r: Option<u8>)
    ensures
        r == hex_pair_value(a, b),
{
    match (crate::text::lower_hex_value_of(a), crate::text::lower_hex_value_of(b)) {
        (Some(h), Some(l)) => Some(h * 16 + l),
        _ => None,
    }
}

impl ContentHash {
    pub fn as_bytes(&self) -> (r: &[u8; 32])
        ensures
            r@ == self@,
    {
        &self.bytes
    }

    /// The 64-character lowercase hexadecimal address.
    pub fn to_hex(&self) -> (r: String)
        ensures
            r@ == crate::text::hex_seq(self@),
    {
        crate::text::hex_text(&self.bytes)
    }

    /// The DOTOS leaf an address is written as: its hexadecimal text.
    pub fn to_dotos(&self) -> (r: String)
        ensures
            r@ == crate::text::hex_seq(self@),
    {
        self.to_hex()
    }

    /// Read a 64-character lowercase hexadecimal address back into its 32
    /// bytes, byte `i` from characters `2i` and `2i + 1`; any other length or
    /// any other character yields `None`.
    pub fn from_hex(hex: &str) -> (r: Option<Self>)
        ensures
            r is Some <==> hex_address_ok(hex@),
            r matches Some(h) ==> h@ == hex_address_bytes(hex@),
    {
        let chars = crate::text::chars_of(hex);
        if chars.len() != 64 {
            return None;
        }
        let mut bytes: [u8; 32] = [0u8; 32];
        let mut i: usize = 0;
        while i < 32
            invariant
                i <= 32,
                chars@ == hex@,
                chars@.len() == 64,
                bytes@.len() == 32,
                forall|j: int| 0 <= j < i ==> (#[trigger] hex_pair_value(chars@[2 * j], chars@[2 * j + 1])) is Some,
                forall|j: int|
                    0 <= j < i ==> #[trigger] bytes@[j] == hex_pair_value(chars@[2 * j], chars@[2 * j + 1])->Some_0,
            decreases 32 - i,
        {
            match hex_pair(chars[2 * i], chars[2 * i + 1]) {
                Some(v) => {
                    bytes.set(i, v);
                },
                None => {
                    proof {
                        lemma_address_ok_by_pairs(hex@);
                        assert(hex_pair_value(hex@[2 * i as int], hex@[2 * i as int + 1]) is None);
                    }
                    return None;
                },
            }
            i += 1;
        }
        proof {
            lemma_address_ok_by_pairs(hex@);
        }
        let r = ContentHash { bytes };
        assert(r@ =~= hex_address_bytes(hex@));
        Some(r)
    }

    /// Identity of two addresses, byte by byte.
    pub fn same(&self, other: &Self) -> (r: bool)
        ensures
            r == (self@ == other@),
    {
        let mut i: usize = 0;
        while i < 32
            invariant
                i <= 32,
                self.bytes@.len() == 32,
                other.bytes@.len() == 32,
                self.bytes@.take(i as int) == other.bytes@.take(i as int),
            decreases 32 - i,
        {
            if self.bytes[i] != other.bytes[i] {
                assert(self.bytes@[i as int] != other.bytes@[i as int]);
                return false;
            }
            assert(self.bytes@.take(i + 1) =~= self.bytes@.take(i as int).push(self.bytes@[i as int]));
            assert(other.bytes@.take(i + 1) =~= other.bytes@.take(i as int).push(other.bytes@[i as int]));
            i += 1;
        }
        assert(self.bytes@ =~= self.bytes@.take(32));
        assert(other.bytes@ =~= other.bytes@.take(32));
        true
    }
}


/// The digit characters of a byte's two hexadecimal positions.
proof fn lemma_hex_seq_index(b: Seq<u8>, i: int)
    requires
        0 <= i < b.len(),
    ensures
        crate::text::hex_seq(b).len() == 2 * b.len(),
        crate::text::hex_seq(b)[2 * i] == crate::text::hex_digit((b[i] / 16) as nat),
        crate::text::hex_seq(b)[2 * i + 1] == crate::text::hex_digit((b[i] % 16) as nat),
    decreases b.len(),
{
    lemma_hex_seq_len(b.drop_last());
    if i < b.len() - 1 {
        lemma_hex_seq_index(b.drop_last(), i);
        assert(b.drop_last()[i] == b[i]);
    }
}

proof fn lemma_hex_seq_len(b: Seq<u8>)
    ensures
        crate::text::hex_seq(b).len() == 2 * b.len(),
    decreases b.len(),
{
    if b.len() > 0 {
        lemma_hex_seq_len(b.drop_last());
    }
}

/// A hexadecimal digit character reads back as its value.
proof fn lemma_hex_digit_value(n: nat)
    requires
        n < 16,
    ensures
        crate::text::lower_hex_value(crate::text::hex_digit(n)) == Some(n as u8),
{
}

/// Reading an address's hexadecimal text gives back the address: the text
/// of 32 bytes parses, and parses to those bytes.
pub proof fn law_hex_round_trip(bytes: Seq<u8>)
    requires
        bytes.len() == 32,
    ensures
        hex_address_ok(crate::text::hex_seq(bytes)),
        hex_address_bytes(crate::text::hex_seq(bytes)) == bytes,
{
    let s = crate::text::hex_seq(bytes);
    lemma_hex_seq_len(bytes);
    lemma_address_ok_by_pairs(s);
    assert forall|i: int| 0 <= i < 32 implies #[trigger] hex_pair_value(s[2 * i], s[2 * i + 1]) == Some(bytes[i]) by {
        lemma_hex_seq_index(bytes, i);
        let b = bytes[i];
        lemma_hex_digit_value((b / 16) as nat);
        lemma_hex_digit_value((b % 16) as nat);
        assert((b / 16) * 16 + b % 16 == b);
    }
    assert(hex_address_bytes(s) =~= bytes);
}

/// The hexadecimal text of any bytes has two lowercase digits per byte, and
/// each pair of digits reads back as its byte.
pub proof fn law_hex_text_reads_back(bytes: Seq<u8>)
    ensures
        crate::text::hex_seq(bytes).len() == 2 * bytes.len(),
        forall|k: int|
            0 <= k < 2 * bytes.len() ==> (#[trigger] crate::text::lower_hex_value(crate::text::hex_seq(bytes)[k])) is Some,
        forall|i: int|
            0 <= i < bytes.len() ==> #[trigger] hex_pair_value(
                crate::text::hex_seq(bytes)[2 * i],
                crate::text::hex_seq(bytes)[2 * i + 1],
            ) == Some(bytes[i]),
{
    let s = crate::text::hex_seq(bytes);
    lemma_hex_seq_len(bytes);
    assert forall|i: int| 0 <= i < bytes.len() implies #[trigger] hex_pair_value(s[2 * i], s[2 * i + 1]) == Some(bytes[i]) by {
        lemma_hex_seq_index(bytes, i);
        let b = bytes[i];
        lemma_hex_digit_value((b / 16) as nat);
        lemma_hex_digit_value((b % 16) as nat);
        assert((b / 16) * 16 + b % 16 == b);
    }
    assert forall|k: int| 0 <= k < 2 * bytes.len() implies (#[trigger] crate::text::lower_hex_value(s[k])) is Some by {
        let i = k / 2;
        assert(hex_pair_value(s[2 * i], s[2 * i + 1]) == Some(bytes[i]));
    }
}

} // verus!
