//! The JSON face of the block types: a flat property tree of string
//! pairs, hexadecimal field encoding, and the block codecs over it.

use vstd::prelude::*;
use vstd::string::StringExecFns;
use vstd::string::StrSliceExecFns;

use crate::blocks::{OpenBlock, OpenHashables, StateBlock, StateHashables};
use crate::numbers::{Account, Amount, BlockHash, Link, Signature};
use crate::wire::{
    be_bytes_of_u128, be_bytes_of_u64, push_u128_be, push_u64_be, u128_from_be_bytes,
    u64_from_be_bytes, vec_to_bytes32, vec_to_bytes64,
};

verus! {

/// Why a JSON read failed.
#[derive(Clone, Copy, Debug, PartialEq, Eq, Structural)]
pub enum JsonError {
    MissingField,
    BadHex,
    WrongType,
}

/// The lower-case hexadecimal digit of a value below sixteen.
pub open spec fn nibble_char(n: int) -> char {
    if n == 0 {
        '0'
    } else if n == 1 {
        '1'
    } else if n == 2 {
        '2'
    } else if n == 3 {
        '3'
    } else if n == 4 {
        '4'
    } else if n == 5 {
        '5'
    } else if n == 6 {
        '6'
    } else if n == 7 {
        '7'
    } else if n == 8 {
        '8'
    } else if n == 9 {
        '9'
    } else if n == 10 {
        'a'
    } else if n == 11 {
        'b'
    } else if n == 12 {
        'c'
    } else if n == 13 {
        'd'
    } else if n == 14 {
        'e'
    } else {
        'f'
    }
}

/// The value of a hexadecimal digit, lower or upper case; anything
/// else is negative.
pub open spec fn spec_hex_digit(c: char) -> int {
    if c == '0' {
        0
    } else if c == '1' {
        1
    } else if c == '2' {
        2
    } else if c == '3' {
        3
    } else if c == '4' {
        4
    } else if c == '5' {
        5
    } else if c == '6' {
        6
    } else if c == '7' {
        7
    } else if c == '8' {
        8
    } else if c == '9' {
        9
    } else if c == 'a' || c == 'A' {
        10
    } else if c == 'b' || c == 'B' {
        11
    } else if c == 'c' || c == 'C' {
        12
    } else if c == 'd' || c == 'D' {
        13
    } else if c == 'e' || c == 'E' {
        14
    } else if c == 'f' || c == 'F' {
        15
    } else {
        -1
    }
}

/// The lower-case hexadecimal form of a byte string, two digits a
/// byte.
pub open spec fn hex_of(bytes: Seq<u8>) -> Seq<char>
    decreases bytes.len(),
{
    if bytes.len() == 0 {
        Seq::<char>::empty()
    } else {
        hex_of(bytes.drop_last()) + seq![
            nibble_char(bytes.last() as int / 16),
            nibble_char(bytes.last() as int % 16),
        ]
    }
}

/// The one-character string of a hexadecimal digit.
fn nibble_str(n: u8) -> (r: &'static str)
    requires
        n < 16,
    ensures
        r@ == seq![nibble_char(n as int)],
{
    proof {
        reveal_strlit("0");
        reveal_strlit("1");
        reveal_strlit("2");
        reveal_strlit("3");
        reveal_strlit("4");
        reveal_strlit("5");
        reveal_strlit("6");
        reveal_strlit("7");
        reveal_strlit("8");
        reveal_strlit("9");
        reveal_strlit("a");
        reveal_strlit("b");
        reveal_strlit("c");
        reveal_strlit("d");
        reveal_strlit("e");
        reveal_strlit("f");
    }
    let r = match n {
        0 => "0",
        1 => "1",
        2 => "2",
        3 => "3",
        4 => "4",
        5 => "5",
        6 => "6",
        7 => "7",
        8 => "8",
        9 => "9",
        10 => "a",
        11 => "b",
        12 => "c",
        13 => "d",
        14 => "e",
        _ => "f",
    };
    proof {
        assert(r@ =~= seq![nibble_char(n as int)]);
    }
    r
}

/// Encodes bytes as lower-case hexadecimal.
pub fn encode_hex(bytes: &[u8]) -> (r: String)
    ensures
        r@ == hex_of(bytes@),
{
    let mut out = String::new();
    let n = bytes.len();
    let mut i: usize = 0;
    while i < n
        invariant
            i <= n,
            n == bytes@.len(),
            out@ == hex_of(bytes@.take(i as int)),
        decreases n - i,
    {
        let b = bytes[i];
        out.append(nibble_str(b / 16));
        out.append(nibble_str(b % 16));
        proof {
            assert(bytes@.take(i + 1).drop_last() =~= bytes@.take(i as int));
            assert(bytes@.take(i + 1).last() == bytes@[i as int]);
        }
        i += 1;
    }
    proof {
        assert(bytes@.take(n as int) =~= bytes@);
    }
    out
}

/// Decodes one hexadecimal digit.
fn hex_digit(c: char) -> (r: Option<u8>)
    ensures
        r is Some <==> spec_hex_digit(c) >= 0,
        r is Some ==> r.unwrap() == spec_hex_digit(c) && r.unwrap() < 16,
{
    match c {
        '0' => Some(0),
        '1' => Some(1),
        '2' => Some(2),
        '3' => Some(3),
        '4' => Some(4),
        '5' => Some(5),
        '6' => Some(6),
        '7' => Some(7),
        '8' => Some(8),
        '9' => Some(9),
        'a' => Some(10),
        'A' => Some(10),
        'b' => Some(11),
        'B' => Some(11),
        'c' => Some(12),
        'C' => Some(12),
        'd' => Some(13),
        'D' => Some(13),
        'e' => Some(14),
        'E' => Some(14),
        'f' => Some(15),
        'F' => Some(15),
        _ => None,
    }
}

/// Decodes a hexadecimal string of exactly `out_len` bytes.
pub fn decode_hex(s: &str, out_len: usize) -> (r: Option<Vec<u8>>)
    requires
        out_len <= usize::MAX / 2,
    ensures
        r is Some ==> s@.len() == 2 * out_len && r.unwrap()@.len() == out_len && (forall|j: int|
            0 <= j < out_len ==> (#[trigger] r.unwrap()@[j]) == spec_hex_digit(s@[2 * j]) * 16
                + spec_hex_digit(s@[2 * j + 1])) && (forall|k: int|
            0 <= k < s@.len() ==> spec_hex_digit(#[trigger] s@[k]) >= 0),
        r is None ==> s@.len() != 2 * out_len || exists|k: int|
            0 <= k < s@.len() && spec_hex_digit(#[trigger] s@[k]) < 0,
{
    let len = s.unicode_len();
    if len != 2 * out_len {
        return None;
    }
    let mut out: Vec<u8> = Vec::new();
    let mut j: usize = 0;
    while j < out_len
        invariant
            j <= out_len,
            out_len <= usize::MAX / 2,
            s@.len() == 2 * out_len,
            out@.len() == j,
            forall|x: int|
                0 <= x < j ==> (#[trigger] out@[x]) == spec_hex_digit(s@[2 * x]) * 16
                    + spec_hex_digit(s@[2 * x + 1]),
            forall|k: int| 0 <= k < 2 * j ==> spec_hex_digit(#[trigger] s@[k]) >= 0,
        decreases out_len - j,
    {
        let hi = match hex_digit(s.get_char(2 * j)) {
            Some(v) => v,
            None => {
                return None;
            },
        };
        let lo = match hex_digit(s.get_char(2 * j + 1)) {
            Some(v) => v,
            None => {
                return None;
            },
        };
        proof {
            assert(hi as int == spec_hex_digit(s@[2 * (j as int)]));
            assert(lo as int == spec_hex_digit(s@[2 * (j as int) + 1]));
            assert forall|k: int| 0 <= k < 2 * (j + 1) implies spec_hex_digit(
                #[trigger] s@[k],
            ) >= 0 by {
                if k == 2 * (j as int) {
                    assert(spec_hex_digit(s@[k]) == hi as int);
                } else if k == 2 * (j as int) + 1 {
                    assert(spec_hex_digit(s@[k]) == lo as int);
                }
            }
        }
        let ghost out0 = out@;
        out.push(hi * 16 + lo);
        proof {
            assert forall|x: int|
                0 <= x < j + 1 implies (#[trigger] out@[x]) == spec_hex_digit(s@[2 * x]) * 16
                + spec_hex_digit(s@[2 * x + 1]) by {
                if x == j as int {
                    assert(out@[x] == hi * 16 + lo);
                } else {
                    assert(out@[x] == out0[x]);
                }
            }
        }
        j += 1;
    }
    Some(out)
}

/// Decoding the hexadecimal form of a byte recovers it.
pub proof fn lemma_hex_digits_invert(b: u8)
    ensures
        spec_hex_digit(nibble_char(b as int / 16)) == b / 16,
        spec_hex_digit(nibble_char(b as int % 16)) == b % 16,
        spec_hex_digit(nibble_char(b as int / 16)) * 16 + spec_hex_digit(
            nibble_char(b as int % 16),
        ) == b,
{
}

/// Decoding the hexadecimal form of a byte string recovers it: the
/// JSON field codecs round-trip.
pub proof fn lemma_hex_round_trip(bytes: Seq<u8>, decoded: Seq<u8>)
    requires
        decoded.len() == bytes.len(),
        forall|j: int|
            0 <= j < bytes.len() ==> (#[trigger] decoded[j]) == spec_hex_digit(
                hex_of(bytes)[2 * j],
            ) * 16 + spec_hex_digit(hex_of(bytes)[2 * j + 1]),
    ensures
        decoded == bytes,
    decreases bytes.len(),
{
    lemma_hex_of_len(bytes);
    if bytes.len() > 0 {
        let pre = bytes.drop_last();
        lemma_hex_of_len(pre);
        assert forall|j: int| 0 <= j < pre.len() implies (#[trigger] decoded.drop_last()[j])
            == spec_hex_digit(hex_of(pre)[2 * j]) * 16 + spec_hex_digit(
            hex_of(pre)[2 * j + 1],
        ) by {
            assert(decoded.drop_last()[j] == decoded[j]);
            assert(decoded[j] == spec_hex_digit(hex_of(bytes)[2 * j]) * 16 + spec_hex_digit(
                hex_of(bytes)[2 * j + 1],
            ));
            assert(hex_of(bytes)[2 * j] == hex_of(pre)[2 * j]);
            assert(hex_of(bytes)[2 * j + 1] == hex_of(pre)[2 * j + 1]);
        }
        lemma_hex_round_trip(pre, decoded.drop_last());
        let last = bytes.last();
        lemma_hex_digits_invert(last);
        assert(hex_of(bytes)[2 * (bytes.len() - 1)] == nibble_char(last as int / 16));
        assert(hex_of(bytes)[2 * (bytes.len() - 1) + 1] == nibble_char(last as int % 16));
        assert(decoded[bytes.len() - 1] == spec_hex_digit(hex_of(bytes)[2 * (bytes.len() - 1)])
            * 16 + spec_hex_digit(hex_of(bytes)[2 * (bytes.len() - 1) + 1]));
        assert(decoded[bytes.len() - 1] == last);
        assert forall|i: int| 0 <= i < bytes.len() implies decoded[i] == bytes[i] by {
            if i < bytes.len() - 1 {
                assert(decoded[i] == decoded.drop_last()[i]);
                assert(decoded.drop_last()[i] == pre[i]);
                assert(pre[i] == bytes[i]);
            }
        }
        assert(decoded =~= bytes);
    } else {
        assert(decoded =~= bytes);
    }
}

/// A hexadecimal string holds two digits for each byte.
pub proof fn lemma_hex_of_len(bytes: Seq<u8>)
    ensures
        hex_of(bytes).len() == 2 * bytes.len(),
    decreases bytes.len(),
{
    if bytes.len() > 0 {
        lemma_hex_of_len(bytes.drop_last());
    }
}

/// A character string that is exactly the hexadecimal form of `n`
/// bytes: the right length, every character a digit.
pub open spec fn spec_is_hex(sq: Seq<char>, n: int) -> bool {
    sq.len() == 2 * n && (forall|k: int|
        0 <= k < sq.len() ==> spec_hex_digit(#[trigger] sq[k]) >= 0)
}

/// The hexadecimal form of a byte string is valid hexadecimal.
pub proof fn lemma_hex_of_is_hex(bytes: Seq<u8>)
    ensures
        spec_is_hex(hex_of(bytes), bytes.len() as int),
    decreases bytes.len(),
{
    lemma_hex_of_len(bytes);
    if bytes.len() > 0 {
        lemma_hex_of_is_hex(bytes.drop_last());
        lemma_hex_of_len(bytes.drop_last());
        assert forall|k: int|
            0 <= k < hex_of(bytes).len() implies spec_hex_digit(#[trigger] hex_of(bytes)[k])
            >= 0 by {
            if k < hex_of(bytes.drop_last()).len() {
                assert(hex_of(bytes)[k] == hex_of(bytes.drop_last())[k]);
            }
        }
    }
}

/// First value bound to a key in a flat tree of string pairs.
pub open spec fn pt_get(entries: Seq<(String, String)>, key: Seq<char>) -> Option<Seq<char>>
    decreases entries.len(),
{
    if entries.len() == 0 {
        None
    } else if entries[0].0@ == key {
        Some(entries[0].1@)
    } else {
        pt_get(entries.drop_first(), key)
    }
}

/// Scanning past non-matching keys does not change the lookup.
proof fn lemma_pt_get_skip(entries: Seq<(String, String)>, key: Seq<char>, i: int)
    requires
        0 <= i <= entries.len(),
        forall|j: int| 0 <= j < i ==> (#[trigger] entries[j]).0@ != key,
    ensures
        pt_get(entries, key) == pt_get(entries.skip(i), key),
    decreases i,
{
    if i > 0 {
        lemma_pt_get_skip(entries.drop_first(), key, i - 1);
        assert(entries.drop_first().skip(i - 1) =~= entries.skip(i));
    } else {
        assert(entries.skip(0) =~= entries);
    }
}

/// A flat tree of string properties, as the JSON face writes and reads
/// them.
pub struct PropertyTree {
    pub entries: Vec<(String, String)>,
}

impl PropertyTree {
    pub fn new() -> (r: PropertyTree)
        ensures
            r.entries@.len() == 0,
    {
        PropertyTree { entries: Vec::new() }
    }

    /// Appends a property.
    pub fn put_string(&mut self, key: &str, value: String)
        ensures
            final(self).entries@.len() == old(self).entries@.len() + 1,
            final(self).entries@.last().0@ == key@,
            final(self).entries@.last().1@ == value@,
            final(self).entries@.drop_last() == old(self).entries@,
    {
        let owned = String::from_str(key);
        self.entries.push((owned, value));
        proof {
            assert(self.entries@.drop_last() =~= old(self).entries@);
        }
    }

    /// The first value under a key.
    pub fn get_string(&self, key: &str) -> (r: Option<String>)
        ensures
            r is Some <==> pt_get(self.entries@, key@) is Some,
            r is Some ==> r.unwrap()@ == pt_get(self.entries@, key@).unwrap(),
    {
        let owned = String::from_str(key);
        let n = self.entries.len();
        let mut i: usize = 0;
        while i < n
            invariant
                i <= n,
                n == self.entries@.len(),
                owned@ == key@,
                forall|j: int| 0 <= j < i ==> (#[trigger] self.entries@[j]).0@ != key@,
            decreases n - i,
        {
            if self.entries[i].0 == owned {
                proof {
                    lemma_pt_get_skip(self.entries@, key@, i as int);
                    assert(self.entries@.skip(i as int)[0] == self.entries@[i as int]);
                }
                let value = self.entries[i].1.clone();
                proof {
                    assert(value@ == self.entries@[i as int].1@);
                }
                return Some(value);
            }
            i += 1;
        }
        proof {
            lemma_pt_get_skip(self.entries@, key@, n as int);
            assert(self.entries@.skip(n as int) =~= Seq::<(String, String)>::empty());
        }
        None
    }
}

/// Encodes a 64-bit value as sixteen hexadecimal digits, big-endian.
pub fn to_string_hex(value: u64) -> (r: String)
    ensures
        r@ == hex_of(be_bytes_of_u64(value)),
{
    let mut bytes: Vec<u8> = Vec::new();
    push_u64_be(&mut bytes, value);
    encode_hex(bytes.as_slice())
}

/// Decodes sixteen hexadecimal digits into a 64-bit value.
pub fn from_string_hex(s: &str) -> (r: Option<u64>)
    ensures
        (r is Some) == spec_is_hex(s@, 8),
        r is Some ==> forall|j: int|
            0 <= j < 8 ==> (#[trigger] be_bytes_of_u64(r.unwrap())[j]) == spec_hex_digit(
                s@[2 * j],
            ) * 16 + spec_hex_digit(s@[2 * j + 1]),
{
    let bytes = match decode_hex(s, 8) {
        Some(v) => v,
        None => {
            return None;
        },
    };
    Some(u64_from_be_bytes(bytes.as_slice()))
}

impl OpenBlock {
    /// Writes the block's fields as named hexadecimal properties;
    /// into an empty tree, each field is afterwards found under its
    /// name.
    pub fn serialize_json(&self, writer: &mut PropertyTree)
        ensures
            final(writer).entries@.len() == old(writer).entries@.len() + 6,
            old(writer).entries@.len() == 0 ==> {
                &&& pt_get(final(writer).entries@, "type"@) == Some("open"@)
                &&& pt_get(final(writer).entries@, "source"@) == Some(hex_of(self.hashables.source@))
                &&& pt_get(final(writer).entries@, "representative"@) == Some(hex_of(self.hashables.representative@))
                &&& pt_get(final(writer).entries@, "account"@) == Some(hex_of(self.hashables.account@))
                &&& pt_get(final(writer).entries@, "work"@) == Some(hex_of(be_bytes_of_u64(self.work)))
                &&& pt_get(final(writer).entries@, "signature"@) == Some(hex_of(self.signature@))
            },
    {
        writer.put_string("type", String::from_str("open"));
        let ghost e0 = writer.entries@;
        writer.put_string("source", encode_hex(self.hashables.source.as_bytes().as_slice()));
        let ghost e1 = writer.entries@;
        writer.put_string("representative", encode_hex(self.hashables.representative.as_bytes().as_slice()));
        let ghost e2 = writer.entries@;
        writer.put_string("account", encode_hex(self.hashables.account.as_bytes().as_slice()));
        let ghost e3 = writer.entries@;
        writer.put_string("work", to_string_hex(self.work));
        let ghost e4 = writer.entries@;
        writer.put_string("signature", encode_hex(self.signature.as_bytes().as_slice()));
        let ghost e5 = writer.entries@;
        proof {
            reveal_strlit("account");
            reveal_strlit("representative");
            reveal_strlit("signature");
            reveal_strlit("source");
            reveal_strlit("type");
            reveal_strlit("work");
            reveal_strlit("open");
            if old(writer).entries@.len() == 0 {
                let e = e5;
                assert(e0[0].0@ == "type"@ && e0[0].1@ == "open"@);
                assert(e1[0] == e0[0]);
                assert(e2[0] == e1[0]);
                assert(e3[0] == e2[0]);
                assert(e4[0] == e3[0]);
                assert(e5[0] == e4[0]);
                assert(e1[1].0@ == "source"@ && e1[1].1@ == hex_of(self.hashables.source@));
                assert(e2[1] == e1[1]);
                assert(e3[1] == e2[1]);
                assert(e4[1] == e3[1]);
                assert(e5[1] == e4[1]);
                assert(e2[2].0@ == "representative"@ && e2[2].1@ == hex_of(self.hashables.representative@));
                assert(e3[2] == e2[2]);
                assert(e4[2] == e3[2]);
                assert(e5[2] == e4[2]);
                assert(e3[3].0@ == "account"@ && e3[3].1@ == hex_of(self.hashables.account@));
                assert(e4[3] == e3[3]);
                assert(e5[3] == e4[3]);
                assert(e4[4].0@ == "work"@ && e4[4].1@ == hex_of(be_bytes_of_u64(self.work)));
                assert(e5[4] == e4[4]);
                assert(e5[5].0@ == "signature"@ && e5[5].1@ == hex_of(self.signature@));
                assert(e.skip(0int) =~= e);
                assert(pt_get(e, "type"@) == pt_get(e.skip(0int), "type"@));
                assert(e.skip(0int)[0] == e[0]);
                assert(pt_get(e.skip(0int), "type"@) == Some("open"@));
                assert(pt_get(e, "type"@) == Some("open"@));
                assert(pt_get(e, "source"@) == pt_get(e.skip(0int), "source"@));
                assert("type"@.len() == 4);
                assert("source"@.len() == 6);
                assert("type"@ != "source"@);
                assert(e.skip(0int)[0] == e[0]);
                assert(e.skip(0int).drop_first() =~= e.skip(1int));
                assert(pt_get(e.skip(0int), "source"@) == pt_get(e.skip(1int), "source"@));
                assert(e.skip(1int)[0] == e[1]);
                assert(pt_get(e.skip(1int), "source"@) == Some(hex_of(self.hashables.source@)));
                assert(pt_get(e, "source"@) == Some(hex_of(self.hashables.source@)));
                assert(pt_get(e, "representative"@) == pt_get(e.skip(0int), "representative"@));
                assert("type"@.len() == 4);
                assert("representative"@.len() == 14);
                assert("type"@ != "representative"@);
                assert(e.skip(0int)[0] == e[0]);
                assert(e.skip(0int).drop_first() =~= e.skip(1int));
                assert(pt_get(e.skip(0int), "representative"@) == pt_get(e.skip(1int), "representative"@));
                assert("source"@.len() == 6);
                assert("representative"@.len() == 14);
                assert("source"@ != "representative"@);
                assert(e.skip(1int)[0] == e[1]);
                assert(e.skip(1int).drop_first() =~= e.skip(2int));
                assert(pt_get(e.skip(1int), "representative"@) == pt_get(e.skip(2int), "representative"@));
                assert(e.skip(2int)[0] == e[2]);
                assert(pt_get(e.skip(2int), "representative"@) == Some(hex_of(self.hashables.representative@)));
                assert(pt_get(e, "representative"@) == Some(hex_of(self.hashables.representative@)));
                assert(pt_get(e, "account"@) == pt_get(e.skip(0int), "account"@));
                assert("type"@.len() == 4);
                assert("account"@.len() == 7);
                assert("type"@ != "account"@);
                assert(e.skip(0int)[0] == e[0]);
                assert(e.skip(0int).drop_first() =~= e.skip(1int));
                assert(pt_get(e.skip(0int), "account"@) == pt_get(e.skip(1int), "account"@));
                assert("source"@.len() == 6);
                assert("account"@.len() == 7);
                assert("source"@ != "account"@);
                assert(e.skip(1int)[0] == e[1]);
                assert(e.skip(1int).drop_first() =~= e.skip(2int));
                assert(pt_get(e.skip(1int), "account"@) == pt_get(e.skip(2int), "account"@));
                assert("representative"@.len() == 14);
                assert("account"@.len() == 7);
                assert("representative"@ != "account"@);
                assert(e.skip(2int)[0] == e[2]);
                assert(e.skip(2int).drop_first() =~= e.skip(3int));
                assert(pt_get(e.skip(2int), "account"@) == pt_get(e.skip(3int), "account"@));
                assert(e.skip(3int)[0] == e[3]);
                assert(pt_get(e.skip(3int), "account"@) == Some(hex_of(self.hashables.account@)));
                assert(pt_get(e, "account"@) == Some(hex_of(self.hashables.account@)));
                assert(pt_get(e, "work"@) == pt_get(e.skip(0int), "work"@));
                assert("type"@[0] == 't');
                assert("work"@[0] == 'w');
                assert("type"@ != "work"@);
                assert(e.skip(0int)[0] == e[0]);
                assert(e.skip(0int).drop_first() =~= e.skip(1int));
                assert(pt_get(e.skip(0int), "work"@) == pt_get(e.skip(1int), "work"@));
                assert("source"@.len() == 6);
                assert("work"@.len() == 4);
                assert("source"@ != "work"@);
                assert(e.skip(1int)[0] == e[1]);
                assert(e.skip(1int).drop_first() =~= e.skip(2int));
                assert(pt_get(e.skip(1int), "work"@) == pt_get(e.skip(2int), "work"@));
                assert("representative"@.len() == 14);
                assert("work"@.len() == 4);
                assert("representative"@ != "work"@);
                assert(e.skip(2int)[0] == e[2]);
                assert(e.skip(2int).drop_first() =~= e.skip(3int));
                assert(pt_get(e.skip(2int), "work"@) == pt_get(e.skip(3int), "work"@));
                assert("account"@.len() == 7);
                assert("work"@.len() == 4);
                assert("account"@ != "work"@);
                assert(e.skip(3int)[0] == e[3]);
                assert(e.skip(3int).drop_first() =~= e.skip(4int));
                assert(pt_get(e.skip(3int), "work"@) == pt_get(e.skip(4int), "work"@));
                assert(e.skip(4int)[0] == e[4]);
                assert(pt_get(e.skip(4int), "work"@) == Some(hex_of(be_bytes_of_u64(self.work))));
                assert(pt_get(e, "work"@) == Some(hex_of(be_bytes_of_u64(self.work))));
                assert(pt_get(e, "signature"@) == pt_get(e.skip(0int), "signature"@));
                assert("type"@.len() == 4);
                assert("signature"@.len() == 9);
                assert("type"@ != "signature"@);
                assert(e.skip(0int)[0] == e[0]);
                assert(e.skip(0int).drop_first() =~= e.skip(1int));
                assert(pt_get(e.skip(0int), "signature"@) == pt_get(e.skip(1int), "signature"@));
                assert("source"@.len() == 6);
                assert("signature"@.len() == 9);
                assert("source"@ != "signature"@);
                assert(e.skip(1int)[0] == e[1]);
                assert(e.skip(1int).drop_first() =~= e.skip(2int));
                assert(pt_get(e.skip(1int), "signature"@) == pt_get(e.skip(2int), "signature"@));
                assert("representative"@.len() == 14);
                assert("signature"@.len() == 9);
                assert("representative"@ != "signature"@);
                assert(e.skip(2int)[0] == e[2]);
                assert(e.skip(2int).drop_first() =~= e.skip(3int));
                assert(pt_get(e.skip(2int), "signature"@) == pt_get(e.skip(3int), "signature"@));
                assert("account"@.len() == 7);
                assert("signature"@.len() == 9);
                assert("account"@ != "signature"@);
                assert(e.skip(3int)[0] == e[3]);
                assert(e.skip(3int).drop_first() =~= e.skip(4int));
                assert(pt_get(e.skip(3int), "signature"@) == pt_get(e.skip(4int), "signature"@));
                assert("work"@.len() == 4);
                assert("signature"@.len() == 9);
                assert("work"@ != "signature"@);
                assert(e.skip(4int)[0] == e[4]);
                assert(e.skip(4int).drop_first() =~= e.skip(5int));
                assert(pt_get(e.skip(4int), "signature"@) == pt_get(e.skip(5int), "signature"@));
                assert(e.skip(5int)[0] == e[5]);
                assert(pt_get(e.skip(5int), "signature"@) == Some(hex_of(self.signature@)));
                assert(pt_get(e, "signature"@) == Some(hex_of(self.signature@)));
            }
        }
    }

    /// Reads a block from named hexadecimal properties: present,
    /// well-formed fields are owed a block, and a field written as
    /// the hexadecimal of a value reads back as that value.
    pub fn deserialize_json(reader: &PropertyTree) -> (r: Result<OpenBlock, JsonError>)
        ensures
            pt_get(reader.entries@, "source"@) is Some && spec_is_hex(pt_get(reader.entries@, "source"@).unwrap(), 32) && pt_get(reader.entries@, "representative"@) is Some && spec_is_hex(pt_get(reader.entries@, "representative"@).unwrap(), 32) && pt_get(reader.entries@, "account"@) is Some && spec_is_hex(pt_get(reader.entries@, "account"@).unwrap(), 32) && pt_get(reader.entries@, "work"@) is Some && spec_is_hex(pt_get(reader.entries@, "work"@).unwrap(), 8) && pt_get(reader.entries@, "signature"@) is Some && spec_is_hex(pt_get(reader.entries@, "signature"@).unwrap(), 64) ==> r is Ok,
            r is Ok ==> pt_get(reader.entries@, "source"@) is Some && pt_get(reader.entries@, "representative"@) is Some && pt_get(reader.entries@, "account"@) is Some && pt_get(reader.entries@, "work"@) is Some && pt_get(reader.entries@, "signature"@) is Some,
            r is Ok ==> (forall|bs: Seq<u8>|
                bs.len() == 32 && pt_get(reader.entries@, "source"@) == Some(
                    #[trigger] hex_of(bs),
                ) ==> r.unwrap().hashables.source@ == bs),
            r is Ok ==> (forall|bs: Seq<u8>|
                bs.len() == 32 && pt_get(reader.entries@, "representative"@) == Some(
                    #[trigger] hex_of(bs),
                ) ==> r.unwrap().hashables.representative@ == bs),
            r is Ok ==> (forall|bs: Seq<u8>|
                bs.len() == 32 && pt_get(reader.entries@, "account"@) == Some(
                    #[trigger] hex_of(bs),
                ) ==> r.unwrap().hashables.account@ == bs),
            r is Ok ==> (forall|w: u64|
                pt_get(reader.entries@, "work"@) == Some(
                    #[trigger] hex_of(be_bytes_of_u64(w)),
                ) ==> r.unwrap().work == w),
            r is Ok ==> (forall|bs: Seq<u8>|
                bs.len() == 64 && pt_get(reader.entries@, "signature"@) == Some(
                    #[trigger] hex_of(bs),
                ) ==> r.unwrap().signature@ == bs),
    {
        let source_hex = match reader.get_string("source") {
            Some(s) => s,
            None => {
                return Err(JsonError::MissingField);
            },
        };
        let source = match decode_hex(source_hex.as_str(), 32) {
            Some(v) => BlockHash::from_bytes(vec_to_bytes32(&v)),
            None => {
                return Err(JsonError::BadHex);
            },
        };
        let representative_hex = match reader.get_string("representative") {
            Some(s) => s,
            None => {
                return Err(JsonError::MissingField);
            },
        };
        let representative = match decode_hex(representative_hex.as_str(), 32) {
            Some(v) => Account::from_bytes(vec_to_bytes32(&v)),
            None => {
                return Err(JsonError::BadHex);
            },
        };
        let account_hex = match reader.get_string("account") {
            Some(s) => s,
            None => {
                return Err(JsonError::MissingField);
            },
        };
        let account = match decode_hex(account_hex.as_str(), 32) {
            Some(v) => Account::from_bytes(vec_to_bytes32(&v)),
            None => {
                return Err(JsonError::BadHex);
            },
        };
        let work_hex = match reader.get_string("work") {
            Some(s) => s,
            None => {
                return Err(JsonError::MissingField);
            },
        };
        let work = match from_string_hex(work_hex.as_str()) {
            Some(w) => w,
            None => {
                return Err(JsonError::BadHex);
            },
        };
        let signature_hex = match reader.get_string("signature") {
            Some(s) => s,
            None => {
                return Err(JsonError::MissingField);
            },
        };
        let signature = match decode_hex(signature_hex.as_str(), 64) {
            Some(v) => Signature::from_bytes(vec_to_bytes64(&v)),
            None => {
                return Err(JsonError::BadHex);
            },
        };
        let result = OpenBlock {
            work,
            signature,
            hashables: OpenHashables { source, representative, account },
        };
        proof {
            assert forall|bs: Seq<u8>|
                bs.len() == 32 && pt_get(reader.entries@, "source"@) == Some(
                    #[trigger] hex_of(bs),
                ) implies result.hashables.source@ == bs by {
                lemma_hex_of_len(bs);
                lemma_hex_round_trip(bs, result.hashables.source@);
            }
            assert forall|bs: Seq<u8>|
                bs.len() == 32 && pt_get(reader.entries@, "representative"@) == Some(
                    #[trigger] hex_of(bs),
                ) implies result.hashables.representative@ == bs by {
                lemma_hex_of_len(bs);
                lemma_hex_round_trip(bs, result.hashables.representative@);
            }
            assert forall|bs: Seq<u8>|
                bs.len() == 32 && pt_get(reader.entries@, "account"@) == Some(
                    #[trigger] hex_of(bs),
                ) implies result.hashables.account@ == bs by {
                lemma_hex_of_len(bs);
                lemma_hex_round_trip(bs, result.hashables.account@);
            }
            assert forall|w: u64|
                pt_get(reader.entries@, "work"@) == Some(
                    #[trigger] hex_of(be_bytes_of_u64(w)),
                ) implies result.work == w by {
                lemma_hex_of_len(be_bytes_of_u64(w));
                lemma_hex_round_trip(be_bytes_of_u64(w), be_bytes_of_u64(result.work));
                crate::wire::lemma_be_bytes_of_u64_injective(result.work, w);
            }
            assert forall|bs: Seq<u8>|
                bs.len() == 64 && pt_get(reader.entries@, "signature"@) == Some(
                    #[trigger] hex_of(bs),
                ) implies result.signature@ == bs by {
                lemma_hex_of_len(bs);
                lemma_hex_round_trip(bs, result.signature@);
            }
        }
        Ok(result)
    }
}

impl StateBlock {
    /// Writes the block's fields as named hexadecimal properties;
    /// into an empty tree, each field is afterwards found under its
    /// name.
    pub fn serialize_json(&self, writer: &mut PropertyTree)
        ensures
            final(writer).entries@.len() == old(writer).entries@.len() + 8,
            old(writer).entries@.len() == 0 ==> {
                &&& pt_get(final(writer).entries@, "type"@) == Some("state"@)
                &&& pt_get(final(writer).entries@, "account"@) == Some(hex_of(self.hashables.account@))
                &&& pt_get(final(writer).entries@, "previous"@) == Some(hex_of(self.hashables.previous@))
                &&& pt_get(final(writer).entries@, "representative"@) == Some(hex_of(self.hashables.representative@))
                &&& pt_get(final(writer).entries@, "balance"@) == Some(hex_of(be_bytes_of_u128(self.hashables.balance.raw)))
                &&& pt_get(final(writer).entries@, "link"@) == Some(hex_of(self.hashables.link@))
                &&& pt_get(final(writer).entries@, "signature"@) == Some(hex_of(self.signature@))
                &&& pt_get(final(writer).entries@, "work"@) == Some(hex_of(be_bytes_of_u64(self.work)))
            },
    {
        let mut balance_bytes: Vec<u8> = Vec::new();
        push_u128_be(&mut balance_bytes, self.hashables.balance.number());
        writer.put_string("type", String::from_str("state"));
        let ghost e0 = writer.entries@;
        writer.put_string("account", encode_hex(self.hashables.account.as_bytes().as_slice()));
        let ghost e1 = writer.entries@;
        writer.put_string("previous", encode_hex(self.hashables.previous.as_bytes().as_slice()));
        let ghost e2 = writer.entries@;
        writer.put_string("representative", encode_hex(self.hashables.representative.as_bytes().as_slice()));
        let ghost e3 = writer.entries@;
        writer.put_string("balance", encode_hex(balance_bytes.as_slice()));
        let ghost e4 = writer.entries@;
        writer.put_string("link", encode_hex(self.hashables.link.as_bytes().as_slice()));
        let ghost e5 = writer.entries@;
        writer.put_string("signature", encode_hex(self.signature.as_bytes().as_slice()));
        let ghost e6 = writer.entries@;
        writer.put_string("work", to_string_hex(self.work));
        let ghost e7 = writer.entries@;
        proof {
            reveal_strlit("account");
            reveal_strlit("balance");
            reveal_strlit("link");
            reveal_strlit("previous");
            reveal_strlit("representative");
            reveal_strlit("signature");
            reveal_strlit("type");
            reveal_strlit("work");
            reveal_strlit("state");
            if old(writer).entries@.len() == 0 {
                let e = e7;
                assert(e0[0].0@ == "type"@ && e0[0].1@ == "state"@);
                assert(e1[0] == e0[0]);
                assert(e2[0] == e1[0]);
                assert(e3[0] == e2[0]);
                assert(e4[0] == e3[0]);
                assert(e5[0] == e4[0]);
                assert(e6[0] == e5[0]);
                assert(e7[0] == e6[0]);
                assert(e1[1].0@ == "account"@ && e1[1].1@ == hex_of(self.hashables.account@));
                assert(e2[1] == e1[1]);
                assert(e3[1] == e2[1]);
                assert(e4[1] == e3[1]);
                assert(e5[1] == e4[1]);
                assert(e6[1] == e5[1]);
                assert(e7[1] == e6[1]);
                assert(e2[2].0@ == "previous"@ && e2[2].1@ == hex_of(self.hashables.previous@));
                assert(e3[2] == e2[2]);
                assert(e4[2] == e3[2]);
                assert(e5[2] == e4[2]);
                assert(e6[2] == e5[2]);
                assert(e7[2] == e6[2]);
                assert(e3[3].0@ == "representative"@ && e3[3].1@ == hex_of(self.hashables.representative@));
                assert(e4[3] == e3[3]);
                assert(e5[3] == e4[3]);
                assert(e6[3] == e5[3]);
                assert(e7[3] == e6[3]);
                assert(e4[4].0@ == "balance"@ && e4[4].1@ == hex_of(be_bytes_of_u128(self.hashables.balance.raw)));
                assert(e5[4] == e4[4]);
                assert(e6[4] == e5[4]);
                assert(e7[4] == e6[4]);
                assert(e5[5].0@ == "link"@ && e5[5].1@ == hex_of(self.hashables.link@));
                assert(e6[5] == e5[5]);
                assert(e7[5] == e6[5]);
                assert(e6[6].0@ == "signature"@ && e6[6].1@ == hex_of(self.signature@));
                assert(e7[6] == e6[6]);
                assert(e7[7].0@ == "work"@ && e7[7].1@ == hex_of(be_bytes_of_u64(self.work)));
                assert(e.skip(0int) =~= e);
                assert(pt_get(e, "type"@) == pt_get(e.skip(0int), "type"@));
                assert(e.skip(0int)[0] == e[0]);
                assert(pt_get(e.skip(0int), "type"@) == Some("state"@));
                assert(pt_get(e, "type"@) == Some("state"@));
                assert(pt_get(e, "account"@) == pt_get(e.skip(0int), "account"@));
                assert("type"@.len() == 4);
                assert("account"@.len() == 7);
                assert("type"@ != "account"@);
                assert(e.skip(0int)[0] == e[0]);
                assert(e.skip(0int).drop_first() =~= e.skip(1int));
                assert(pt_get(e.skip(0int), "account"@) == pt_get(e.skip(1int), "account"@));
                assert(e.skip(1int)[0] == e[1]);
                assert(pt_get(e.skip(1int), "account"@) == Some(hex_of(self.hashables.account@)));
                assert(pt_get(e, "account"@) == Some(hex_of(self.hashables.account@)));
                assert(pt_get(e, "previous"@) == pt_get(e.skip(0int), "previous"@));
                assert("type"@.len() == 4);
                assert("previous"@.len() == 8);
                assert("type"@ != "previous"@);
                assert(e.skip(0int)[0] == e[0]);
                assert(e.skip(0int).drop_first() =~= e.skip(1int));
                assert(pt_get(e.skip(0int), "previous"@) == pt_get(e.skip(1int), "previous"@));
                assert("account"@.len() == 7);
                assert("previous"@.len() == 8);
                assert("account"@ != "previous"@);
                assert(e.skip(1int)[0] == e[1]);
                assert(e.skip(1int).drop_first() =~= e.skip(2int));
                assert(pt_get(e.skip(1int), "previous"@) == pt_get(e.skip(2int), "previous"@));
                assert(e.skip(2int)[0] == e[2]);
                assert(pt_get(e.skip(2int), "previous"@) == Some(hex_of(self.hashables.previous@)));
                assert(pt_get(e, "previous"@) == Some(hex_of(self.hashables.previous@)));
                assert(pt_get(e, "representative"@) == pt_get(e.skip(0int), "representative"@));
                assert("type"@.len() == 4);
                assert("representative"@.len() == 14);
                assert("type"@ != "representative"@);
                assert(e.skip(0int)[0] == e[0]);
                assert(e.skip(0int).drop_first() =~= e.skip(1int));
                assert(pt_get(e.skip(0int), "representative"@) == pt_get(e.skip(1int), "representative"@));
                assert("account"@.len() == 7);
                assert("representative"@.len() == 14);
                assert("account"@ != "representative"@);
                assert(e.skip(1int)[0] == e[1]);
                assert(e.skip(1int).drop_first() =~= e.skip(2int));
                assert(pt_get(e.skip(1int), "representative"@) == pt_get(e.skip(2int), "representative"@));
                assert("previous"@.len() == 8);
                assert("representative"@.len() == 14);
                assert("previous"@ != "representative"@);
                assert(e.skip(2int)[0] == e[2]);
                assert(e.skip(2int).drop_first() =~= e.skip(3int));
                assert(pt_get(e.skip(2int), "representative"@) == pt_get(e.skip(3int), "representative"@));
                assert(e.skip(3int)[0] == e[3]);
                assert(pt_get(e.skip(3int), "representative"@) == Some(hex_of(self.hashables.representative@)));
                assert(pt_get(e, "representative"@) == Some(hex_of(self.hashables.representative@)));
                assert(pt_get(e, "balance"@) == pt_get(e.skip(0int), "balance"@));
                assert("type"@.len() == 4);
                assert("balance"@.len() == 7);
                assert("type"@ != "balance"@);
                assert(e.skip(0int)[0] == e[0]);
                assert(e.skip(0int).drop_first() =~= e.skip(1int));
                assert(pt_get(e.skip(0int), "balance"@) == pt_get(e.skip(1int), "balance"@));
                assert("account"@[0] == 'a');
                assert("balance"@[0] == 'b');
                assert("account"@ != "balance"@);
                assert(e.skip(1int)[0] == e[1]);
                assert(e.skip(1int).drop_first() =~= e.skip(2int));
                assert(pt_get(e.skip(1int), "balance"@) == pt_get(e.skip(2int), "balance"@));
                assert("previous"@.len() == 8);
                assert("balance"@.len() == 7);
                assert("previous"@ != "balance"@);
                assert(e.skip(2int)[0] == e[2]);
                assert(e.skip(2int).drop_first() =~= e.skip(3int));
                assert(pt_get(e.skip(2int), "balance"@) == pt_get(e.skip(3int), "balance"@));
                assert("representative"@.len() == 14);
                assert("balance"@.len() == 7);
                assert("representative"@ != "balance"@);
                assert(e.skip(3int)[0] == e[3]);
                assert(e.skip(3int).drop_first() =~= e.skip(4int));
                assert(pt_get(e.skip(3int), "balance"@) == pt_get(e.skip(4int), "balance"@));
                assert(e.skip(4int)[0] == e[4]);
                assert(pt_get(e.skip(4int), "balance"@) == Some(hex_of(be_bytes_of_u128(self.hashables.balance.raw))));
                assert(pt_get(e, "balance"@) == Some(hex_of(be_bytes_of_u128(self.hashables.balance.raw))));
                assert(pt_get(e, "link"@) == pt_get(e.skip(0int), "link"@));
                assert("type"@[0] == 't');
                assert("link"@[0] == 'l');
                assert("type"@ != "link"@);
                assert(e.skip(0int)[0] == e[0]);
                assert(e.skip(0int).drop_first() =~= e.skip(1int));
                assert(pt_get(e.skip(0int), "link"@) == pt_get(e.skip(1int), "link"@));
                assert("account"@.len() == 7);
                assert("link"@.len() == 4);
                assert("account"@ != "link"@);
                assert(e.skip(1int)[0] == e[1]);
                assert(e.skip(1int).drop_first() =~= e.skip(2int));
                assert(pt_get(e.skip(1int), "link"@) == pt_get(e.skip(2int), "link"@));
                assert("previous"@.len() == 8);
                assert("link"@.len() == 4);
                assert("previous"@ != "link"@);
                assert(e.skip(2int)[0] == e[2]);
                assert(e.skip(2int).drop_first() =~= e.skip(3int));
                assert(pt_get(e.skip(2int), "link"@) == pt_get(e.skip(3int), "link"@));
                assert("representative"@.len() == 14);
                assert("link"@.len() == 4);
                assert("representative"@ != "link"@);
                assert(e.skip(3int)[0] == e[3]);
                assert(e.skip(3int).drop_first() =~= e.skip(4int));
                assert(pt_get(e.skip(3int), "link"@) == pt_get(e.skip(4int), "link"@));
                assert("balance"@.len() == 7);
                assert("link"@.len() == 4);
                assert("balance"@ != "link"@);
                assert(e.skip(4int)[0] == e[4]);
                assert(e.skip(4int).drop_first() =~= e.skip(5int));
                assert(pt_get(e.skip(4int), "link"@) == pt_get(e.skip(5int), "link"@));
                assert(e.skip(5int)[0] == e[5]);
                assert(pt_get(e.skip(5int), "link"@) == Some(hex_of(self.hashables.link@)));
                assert(pt_get(e, "link"@) == Some(hex_of(self.hashables.link@)));
                assert(pt_get(e, "signature"@) == pt_get(e.skip(0int), "signature"@));
                assert("type"@.len() == 4);
                assert("signature"@.len() == 9);
                assert("type"@ != "signature"@);
                assert(e.skip(0int)[0] == e[0]);
                assert(e.skip(0int).drop_first() =~= e.skip(1int));
                assert(pt_get(e.skip(0int), "signature"@) == pt_get(e.skip(1int), "signature"@));
                assert("account"@.len() == 7);
                assert("signature"@.len() == 9);
                assert("account"@ != "signature"@);
                assert(e.skip(1int)[0] == e[1]);
                assert(e.skip(1int).drop_first() =~= e.skip(2int));
                assert(pt_get(e.skip(1int), "signature"@) == pt_get(e.skip(2int), "signature"@));
                assert("previous"@.len() == 8);
                assert("signature"@.len() == 9);
                assert("previous"@ != "signature"@);
                assert(e.skip(2int)[0] == e[2]);
                assert(e.skip(2int).drop_first() =~= e.skip(3int));
                assert(pt_get(e.skip(2int), "signature"@) == pt_get(e.skip(3int), "signature"@));
                assert("representative"@.len() == 14);
                assert("signature"@.len() == 9);
                assert("representative"@ != "signature"@);
                assert(e.skip(3int)[0] == e[3]);
                assert(e.skip(3int).drop_first() =~= e.skip(4int));
                assert(pt_get(e.skip(3int), "signature"@) == pt_get(e.skip(4int), "signature"@));
                assert("balance"@.len() == 7);
                assert("signature"@.len() == 9);
                assert("balance"@ != "signature"@);
                assert(e.skip(4int)[0] == e[4]);
                assert(e.skip(4int).drop_first() =~= e.skip(5int));
                assert(pt_get(e.skip(4int), "signature"@) == pt_get(e.skip(5int), "signature"@));
                assert("link"@.len() == 4);
                assert("signature"@.len() == 9);
                assert("link"@ != "signature"@);
                assert(e.skip(5int)[0] == e[5]);
                assert(e.skip(5int).drop_first() =~= e.skip(6int));
                assert(pt_get(e.skip(5int), "signature"@) == pt_get(e.skip(6int), "signature"@));
                assert(e.skip(6int)[0] == e[6]);
                assert(pt_get(e.skip(6int), "signature"@) == Some(hex_of(self.signature@)));
                assert(pt_get(e, "signature"@) == Some(hex_of(self.signature@)));
                assert(pt_get(e, "work"@) == pt_get(e.skip(0int), "work"@));
                assert("type"@[0] == 't');
                assert("work"@[0] == 'w');
                assert("type"@ != "work"@);
                assert(e.skip(0int)[0] == e[0]);
                assert(e.skip(0int).drop_first() =~= e.skip(1int));
                assert(pt_get(e.skip(0int), "work"@) == pt_get(e.skip(1int), "work"@));
                assert("account"@.len() == 7);
                assert("work"@.len() == 4);
                assert("account"@ != "work"@);
                assert(e.skip(1int)[0] == e[1]);
                assert(e.skip(1int).drop_first() =~= e.skip(2int));
                assert(pt_get(e.skip(1int), "work"@) == pt_get(e.skip(2int), "work"@));
                assert("previous"@.len() == 8);
                assert("work"@.len() == 4);
                assert("previous"@ != "work"@);
                assert(e.skip(2int)[0] == e[2]);
                assert(e.skip(2int).drop_first() =~= e.skip(3int));
                assert(pt_get(e.skip(2int), "work"@) == pt_get(e.skip(3int), "work"@));
                assert("representative"@.len() == 14);
                assert("work"@.len() == 4);
                assert("representative"@ != "work"@);
                assert(e.skip(3int)[0] == e[3]);
                assert(e.skip(3int).drop_first() =~= e.skip(4int));
                assert(pt_get(e.skip(3int), "work"@) == pt_get(e.skip(4int), "work"@));
                assert("balance"@.len() == 7);
                assert("work"@.len() == 4);
                assert("balance"@ != "work"@);
                assert(e.skip(4int)[0] == e[4]);
                assert(e.skip(4int).drop_first() =~= e.skip(5int));
                assert(pt_get(e.skip(4int), "work"@) == pt_get(e.skip(5int), "work"@));
                assert("link"@[0] == 'l');
                assert("work"@[0] == 'w');
                assert("link"@ != "work"@);
                assert(e.skip(5int)[0] == e[5]);
                assert(e.skip(5int).drop_first() =~= e.skip(6int));
                assert(pt_get(e.skip(5int), "work"@) == pt_get(e.skip(6int), "work"@));
                assert("signature"@.len() == 9);
                assert("work"@.len() == 4);
                assert("signature"@ != "work"@);
                assert(e.skip(6int)[0] == e[6]);
                assert(e.skip(6int).drop_first() =~= e.skip(7int));
                assert(pt_get(e.skip(6int), "work"@) == pt_get(e.skip(7int), "work"@));
                assert(e.skip(7int)[0] == e[7]);
                assert(pt_get(e.skip(7int), "work"@) == Some(hex_of(be_bytes_of_u64(self.work))));
                assert(pt_get(e, "work"@) == Some(hex_of(be_bytes_of_u64(self.work))));
            }
        }
    }

    /// Reads a block from named hexadecimal properties: present,
    /// well-formed fields are owed a block, and a field written as
    /// the hexadecimal of a value reads back as that value.
    pub fn deserialize_json(reader: &PropertyTree) -> (r: Result<StateBlock, JsonError>)
        ensures
            pt_get(reader.entries@, "type"@) == Some("state"@) && pt_get(reader.entries@, "account"@) is Some && spec_is_hex(pt_get(reader.entries@, "account"@).unwrap(), 32) && pt_get(reader.entries@, "previous"@) is Some && spec_is_hex(pt_get(reader.entries@, "previous"@).unwrap(), 32) && pt_get(reader.entries@, "representative"@) is Some && spec_is_hex(pt_get(reader.entries@, "representative"@).unwrap(), 32) && pt_get(reader.entries@, "balance"@) is Some && spec_is_hex(pt_get(reader.entries@, "balance"@).unwrap(), 16) && pt_get(reader.entries@, "link"@) is Some && spec_is_hex(pt_get(reader.entries@, "link"@).unwrap(), 32) && pt_get(reader.entries@, "work"@) is Some && spec_is_hex(pt_get(reader.entries@, "work"@).unwrap(), 8) && pt_get(reader.entries@, "signature"@) is Some && spec_is_hex(pt_get(reader.entries@, "signature"@).unwrap(), 64) ==> r is Ok,
            r is Ok ==> pt_get(reader.entries@, "account"@) is Some && pt_get(reader.entries@, "previous"@) is Some && pt_get(reader.entries@, "representative"@) is Some && pt_get(reader.entries@, "balance"@) is Some && pt_get(reader.entries@, "link"@) is Some && pt_get(reader.entries@, "work"@) is Some && pt_get(reader.entries@, "signature"@) is Some,
            r is Ok ==> (forall|bs: Seq<u8>|
                bs.len() == 32 && pt_get(reader.entries@, "account"@) == Some(
                    #[trigger] hex_of(bs),
                ) ==> r.unwrap().hashables.account@ == bs),
            r is Ok ==> (forall|bs: Seq<u8>|
                bs.len() == 32 && pt_get(reader.entries@, "previous"@) == Some(
                    #[trigger] hex_of(bs),
                ) ==> r.unwrap().hashables.previous@ == bs),
            r is Ok ==> (forall|bs: Seq<u8>|
                bs.len() == 32 && pt_get(reader.entries@, "representative"@) == Some(
                    #[trigger] hex_of(bs),
                ) ==> r.unwrap().hashables.representative@ == bs),
            r is Ok ==> (forall|w: u128|
                pt_get(reader.entries@, "balance"@) == Some(
                    #[trigger] hex_of(be_bytes_of_u128(w)),
                ) ==> r.unwrap().hashables.balance.raw == w),
            r is Ok ==> (forall|bs: Seq<u8>|
                bs.len() == 32 && pt_get(reader.entries@, "link"@) == Some(
                    #[trigger] hex_of(bs),
                ) ==> r.unwrap().hashables.link@ == bs),
            r is Ok ==> (forall|w: u64|
                pt_get(reader.entries@, "work"@) == Some(
                    #[trigger] hex_of(be_bytes_of_u64(w)),
                ) ==> r.unwrap().work == w),
            r is Ok ==> (forall|bs: Seq<u8>|
                bs.len() == 64 && pt_get(reader.entries@, "signature"@) == Some(
                    #[trigger] hex_of(bs),
                ) ==> r.unwrap().signature@ == bs),
    {
        let block_type = match reader.get_string("type") {
            Some(s) => s,
            None => {
                return Err(JsonError::MissingField);
            },
        };
        if !(block_type == String::from_str("state")) {
            return Err(JsonError::WrongType);
        }
        let account_hex = match reader.get_string("account") {
            Some(s) => s,
            None => {
                return Err(JsonError::MissingField);
            },
        };
        let account = match decode_hex(account_hex.as_str(), 32) {
            Some(v) => Account::from_bytes(vec_to_bytes32(&v)),
            None => {
                return Err(JsonError::BadHex);
            },
        };
        let previous_hex = match reader.get_string("previous") {
            Some(s) => s,
            None => {
                return Err(JsonError::MissingField);
            },
        };
        let previous = match decode_hex(previous_hex.as_str(), 32) {
            Some(v) => BlockHash::from_bytes(vec_to_bytes32(&v)),
            None => {
                return Err(JsonError::BadHex);
            },
        };
        let representative_hex = match reader.get_string("representative") {
            Some(s) => s,
            None => {
                return Err(JsonError::MissingField);
            },
        };
        let representative = match decode_hex(representative_hex.as_str(), 32) {
            Some(v) => Account::from_bytes(vec_to_bytes32(&v)),
            None => {
                return Err(JsonError::BadHex);
            },
        };
        let balance_hex = match reader.get_string("balance") {
            Some(s) => s,
            None => {
                return Err(JsonError::MissingField);
            },
        };
        let balance = match decode_hex(balance_hex.as_str(), 16) {
            Some(v) => Amount::raw(u128_from_be_bytes(v.as_slice())),
            None => {
                return Err(JsonError::BadHex);
            },
        };
        let link_hex = match reader.get_string("link") {
            Some(s) => s,
            None => {
                return Err(JsonError::MissingField);
            },
        };
        let link = match decode_hex(link_hex.as_str(), 32) {
            Some(v) => Link::from_bytes(vec_to_bytes32(&v)),
            None => {
                return Err(JsonError::BadHex);
            },
        };
        let work_hex = match reader.get_string("work") {
            Some(s) => s,
            None => {
                return Err(JsonError::MissingField);
            },
        };
        let work = match from_string_hex(work_hex.as_str()) {
            Some(w) => w,
            None => {
                return Err(JsonError::BadHex);
            },
        };
        let signature_hex = match reader.get_string("signature") {
            Some(s) => s,
            None => {
                return Err(JsonError::MissingField);
            },
        };
        let signature = match decode_hex(signature_hex.as_str(), 64) {
            Some(v) => Signature::from_bytes(vec_to_bytes64(&v)),
            None => {
                return Err(JsonError::BadHex);
            },
        };
        let result = StateBlock {
            work,
            signature,
            hashables: StateHashables { account, previous, representative, balance, link },
        };
        proof {
            assert forall|bs: Seq<u8>|
                bs.len() == 32 && pt_get(reader.entries@, "account"@) == Some(
                    #[trigger] hex_of(bs),
                ) implies result.hashables.account@ == bs by {
                lemma_hex_of_len(bs);
                lemma_hex_round_trip(bs, result.hashables.account@);
            }
            assert forall|bs: Seq<u8>|
                bs.len() == 32 && pt_get(reader.entries@, "previous"@) == Some(
                    #[trigger] hex_of(bs),
                ) implies result.hashables.previous@ == bs by {
                lemma_hex_of_len(bs);
                lemma_hex_round_trip(bs, result.hashables.previous@);
            }
            assert forall|bs: Seq<u8>|
                bs.len() == 32 && pt_get(reader.entries@, "representative"@) == Some(
                    #[trigger] hex_of(bs),
                ) implies result.hashables.representative@ == bs by {
                lemma_hex_of_len(bs);
                lemma_hex_round_trip(bs, result.hashables.representative@);
            }
            assert forall|w: u128|
                pt_get(reader.entries@, "balance"@) == Some(
                    #[trigger] hex_of(be_bytes_of_u128(w)),
                ) implies result.hashables.balance.raw == w by {
                lemma_hex_of_len(be_bytes_of_u128(w));
                lemma_hex_round_trip(
                    be_bytes_of_u128(w),
                    be_bytes_of_u128(result.hashables.balance.raw),
                );
                crate::wire::lemma_be_bytes_of_u128_injective(
                    result.hashables.balance.raw,
                    w,
                );
            }
            assert forall|bs: Seq<u8>|
                bs.len() == 32 && pt_get(reader.entries@, "link"@) == Some(
                    #[trigger] hex_of(bs),
                ) implies result.hashables.link@ == bs by {
                lemma_hex_of_len(bs);
                lemma_hex_round_trip(bs, result.hashables.link@);
            }
            assert forall|w: u64|
                pt_get(reader.entries@, "work"@) == Some(
                    #[trigger] hex_of(be_bytes_of_u64(w)),
                ) implies result.work == w by {
                lemma_hex_of_len(be_bytes_of_u64(w));
                lemma_hex_round_trip(be_bytes_of_u64(w), be_bytes_of_u64(result.work));
                crate::wire::lemma_be_bytes_of_u64_injective(result.work, w);
            }
            assert forall|bs: Seq<u8>|
                bs.len() == 64 && pt_get(reader.entries@, "signature"@) == Some(
                    #[trigger] hex_of(bs),
                ) implies result.signature@ == bs by {
                lemma_hex_of_len(bs);
                lemma_hex_round_trip(bs, result.signature@);
            }
        }
        Ok(result)
    }
}


/// Reading back the property tree an open block wrote yields an equal
/// block: the JSON codec round-trips.
pub proof fn lemma_open_json_round_trip(b: OpenBlock, tree: Seq<(String, String)>, parsed: OpenBlock)
    requires
        pt_get(tree, "source"@) == Some(hex_of(b.hashables.source@)),
        pt_get(tree, "representative"@) == Some(hex_of(b.hashables.representative@)),
        pt_get(tree, "account"@) == Some(hex_of(b.hashables.account@)),
        pt_get(tree, "work"@) == Some(hex_of(be_bytes_of_u64(b.work))),
        pt_get(tree, "signature"@) == Some(hex_of(b.signature@)),
        forall|bs: Seq<u8>|
            bs.len() == 32 && pt_get(tree, "source"@) == Some(#[trigger] hex_of(bs))
                ==> parsed.hashables.source@ == bs,
        forall|bs: Seq<u8>|
            bs.len() == 32 && pt_get(tree, "representative"@) == Some(#[trigger] hex_of(bs))
                ==> parsed.hashables.representative@ == bs,
        forall|bs: Seq<u8>|
            bs.len() == 32 && pt_get(tree, "account"@) == Some(#[trigger] hex_of(bs))
                ==> parsed.hashables.account@ == bs,
        forall|w: u64|
            pt_get(tree, "work"@) == Some(#[trigger] hex_of(be_bytes_of_u64(w))) ==> parsed.work
                == w,
        forall|bs: Seq<u8>|
            bs.len() == 64 && pt_get(tree, "signature"@) == Some(#[trigger] hex_of(bs))
                ==> parsed.signature@ == bs,
    ensures
        parsed.same_as(&b),
{
    assert(parsed.hashables.source@ == b.hashables.source@);
    assert(parsed.hashables.representative@ == b.hashables.representative@);
    assert(parsed.hashables.account@ == b.hashables.account@);
    assert(parsed.work == b.work);
    assert(parsed.signature@ == b.signature@);
}

/// Reading back the property tree a state block wrote yields an equal
/// block: the JSON codec round-trips.
pub proof fn lemma_state_json_round_trip(
    b: StateBlock,
    tree: Seq<(String, String)>,
    parsed: StateBlock,
)
    requires
        pt_get(tree, "account"@) == Some(hex_of(b.hashables.account@)),
        pt_get(tree, "previous"@) == Some(hex_of(b.hashables.previous@)),
        pt_get(tree, "representative"@) == Some(hex_of(b.hashables.representative@)),
        pt_get(tree, "balance"@) == Some(hex_of(be_bytes_of_u128(b.hashables.balance.raw))),
        pt_get(tree, "link"@) == Some(hex_of(b.hashables.link@)),
        pt_get(tree, "work"@) == Some(hex_of(be_bytes_of_u64(b.work))),
        pt_get(tree, "signature"@) == Some(hex_of(b.signature@)),
        forall|bs: Seq<u8>|
            bs.len() == 32 && pt_get(tree, "account"@) == Some(#[trigger] hex_of(bs))
                ==> parsed.hashables.account@ == bs,
        forall|bs: Seq<u8>|
            bs.len() == 32 && pt_get(tree, "previous"@) == Some(#[trigger] hex_of(bs))
                ==> parsed.hashables.previous@ == bs,
        forall|bs: Seq<u8>|
            bs.len() == 32 && pt_get(tree, "representative"@) == Some(#[trigger] hex_of(bs))
                ==> parsed.hashables.representative@ == bs,
        forall|w: u128|
            pt_get(tree, "balance"@) == Some(#[trigger] hex_of(be_bytes_of_u128(w)))
                ==> parsed.hashables.balance.raw == w,
        forall|bs: Seq<u8>|
            bs.len() == 32 && pt_get(tree, "link"@) == Some(#[trigger] hex_of(bs))
                ==> parsed.hashables.link@ == bs,
        forall|w: u64|
            pt_get(tree, "work"@) == Some(#[trigger] hex_of(be_bytes_of_u64(w))) ==> parsed.work
                == w,
        forall|bs: Seq<u8>|
            bs.len() == 64 && pt_get(tree, "signature"@) == Some(#[trigger] hex_of(bs))
                ==> parsed.signature@ == bs,
    ensures
        parsed.same_as(&b),
{
    assert(parsed.hashables.account@ == b.hashables.account@);
    assert(parsed.hashables.previous@ == b.hashables.previous@);
    assert(parsed.hashables.representative@ == b.hashables.representative@);
    assert(parsed.hashables.balance.raw == b.hashables.balance.raw);
    assert(parsed.hashables.link@ == b.hashables.link@);
    assert(parsed.work == b.work);
    assert(parsed.signature@ == b.signature@);
}


/// The hexadecimal values an open block writes satisfy the reader's
/// success conditions: a tree the block serialized is owed to parse.
pub proof fn lemma_open_json_parse_succeeds(b: OpenBlock, tree: Seq<(String, String)>)
    requires
        pt_get(tree, "source"@) == Some(hex_of(b.hashables.source@)),
        pt_get(tree, "representative"@) == Some(hex_of(b.hashables.representative@)),
        pt_get(tree, "account"@) == Some(hex_of(b.hashables.account@)),
        pt_get(tree, "work"@) == Some(hex_of(be_bytes_of_u64(b.work))),
        pt_get(tree, "signature"@) == Some(hex_of(b.signature@)),
    ensures
        spec_is_hex(pt_get(tree, "source"@).unwrap(), 32),
        spec_is_hex(pt_get(tree, "representative"@).unwrap(), 32),
        spec_is_hex(pt_get(tree, "account"@).unwrap(), 32),
        spec_is_hex(pt_get(tree, "work"@).unwrap(), 8),
        spec_is_hex(pt_get(tree, "signature"@).unwrap(), 64),
{
    lemma_hex_of_is_hex(b.hashables.source@);
    lemma_hex_of_is_hex(b.hashables.representative@);
    lemma_hex_of_is_hex(b.hashables.account@);
    lemma_hex_of_is_hex(be_bytes_of_u64(b.work));
    lemma_hex_of_is_hex(b.signature@);
}

/// The hexadecimal values a state block writes satisfy the reader's
/// success conditions: a tree the block serialized is owed to parse.
pub proof fn lemma_state_json_parse_succeeds(b: StateBlock, tree: Seq<(String, String)>)
    requires
        pt_get(tree, "account"@) == Some(hex_of(b.hashables.account@)),
        pt_get(tree, "previous"@) == Some(hex_of(b.hashables.previous@)),
        pt_get(tree, "representative"@) == Some(hex_of(b.hashables.representative@)),
        pt_get(tree, "balance"@) == Some(hex_of(be_bytes_of_u128(b.hashables.balance.raw))),
        pt_get(tree, "link"@) == Some(hex_of(b.hashables.link@)),
        pt_get(tree, "work"@) == Some(hex_of(be_bytes_of_u64(b.work))),
        pt_get(tree, "signature"@) == Some(hex_of(b.signature@)),
    ensures
        spec_is_hex(pt_get(tree, "account"@).unwrap(), 32),
        spec_is_hex(pt_get(tree, "previous"@).unwrap(), 32),
        spec_is_hex(pt_get(tree, "representative"@).unwrap(), 32),
        spec_is_hex(pt_get(tree, "balance"@).unwrap(), 16),
        spec_is_hex(pt_get(tree, "link"@).unwrap(), 32),
        spec_is_hex(pt_get(tree, "work"@).unwrap(), 8),
        spec_is_hex(pt_get(tree, "signature"@).unwrap(), 64),
{
    lemma_hex_of_is_hex(b.hashables.account@);
    lemma_hex_of_is_hex(b.hashables.previous@);
    lemma_hex_of_is_hex(b.hashables.representative@);
    lemma_hex_of_is_hex(be_bytes_of_u128(b.hashables.balance.raw));
    lemma_hex_of_is_hex(b.hashables.link@);
    lemma_hex_of_is_hex(be_bytes_of_u64(b.work));
    lemma_hex_of_is_hex(b.signature@);
}

} // verus!
