//! A datum: the bytes that a vertex may carry, with the conversions between
//! bytes and integers, booleans, text and hexadecimal notation.

use crate::failure::{Failure, Fault};
use crate::text::{chars_of, push_char, string_of};
use vstd::prelude::*;
use vstd::std_specs::cmp::PartialEqSpecImpl;
use vstd::string::StrSliceExecFns;
use vstd::utf8::{decode_utf8, encode_utf8, valid_utf8};

verus! {

broadcast use vstd::utf8::group_utf8_lib;

/// The eight bytes of a signed 64-bit integer, the most significant first.
pub open spec fn be_bytes(d: i64) -> Seq<u8> {
    let x = d as u64;
    seq![
        (x >> 56) as u8,
        (x >> 48) as u8,
        (x >> 40) as u8,
        (x >> 32) as u8,
        (x >> 24) as u8,
        (x >> 16) as u8,
        (x >> 8) as u8,
        x as u8,
    ]
}

/// The signed 64-bit integer that eight bytes write, the most significant first.
pub open spec fn be_int(s: Seq<u8>) -> i64
    recommends
        s.len() == 8,
{
    (((s[0] as u64) << 56) | ((s[1] as u64) << 48) | ((s[2] as u64) << 40) | ((s[3] as u64) << 32)
        | ((s[4] as u64) << 24) | ((s[5] as u64) << 16) | ((s[6] as u64) << 8) | (s[7] as u64)) as i64
}

/// The upper-case hexadecimal digit of a number below sixteen.
pub open spec fn hex_digit(n: u8) -> char
    recommends
        n < 16,
{
    if n < 10 {
        (('0' as u8) + n) as char
    } else {
        (('A' as u8) + (n - 10)) as char
    }
}

/// The bytes in hexadecimal, two upper-case digits each, with a dash between
/// neighbours.
pub open spec fn hex_join(s: Seq<u8>) -> Seq<char>
    decreases s.len(),
{
    if s.len() == 0 {
        seq![]
    } else if s.len() == 1 {
        seq![hex_digit(s[0] / 16), hex_digit(s[0] % 16)]
    } else {
        hex_join(s.drop_last()) + seq!['-', hex_digit(s.last() / 16), hex_digit(s.last() % 16)]
    }
}

/// The hexadecimal notation of a datum: two dashes where there are no bytes.
pub open spec fn hex_text(s: Seq<u8>) -> Seq<char> {
    if s.len() == 0 {
        seq!['-', '-']
    } else {
        hex_join(s)
    }
}

/// The value of a hexadecimal digit, of either case, if the character is one.
pub open spec fn hex_value(c: char) -> Option<u8> {
    if '0' <= c <= '9' {
        Some((c as u8 - '0' as u8) as u8)
    } else if 'a' <= c <= 'f' {
        Some((c as u8 - 'a' as u8 + 10) as u8)
    } else if 'A' <= c <= 'F' {
        Some((c as u8 - 'A' as u8 + 10) as u8)
    } else {
        None
    }
}

/// Whether the characters are pairs of hexadecimal digits and nothing else.
pub open spec fn is_hex(s: Seq<char>) -> bool {
    s.len() % 2 == 0 && forall|i: int| 0 <= i < s.len() ==> hex_value(#[trigger] s[i]) is Some
}

/// The bytes that pairs of hexadecimal digits write.
pub open spec fn hex_bytes(s: Seq<char>) -> Seq<u8> {
    Seq::new(
        s.len() / 2,
        |i: int| (hex_value(s[2 * i]).unwrap_or(0) * 16 + hex_value(s[2 * i + 1]).unwrap_or(0)) as u8,
    )
}

/// The characters without the dashes among them.
pub open spec fn undashed(s: Seq<char>) -> Seq<char> {
    s.filter(|c: char| c != '-')
}

/// Decodes pairs of hexadecimal digits by `hex::decode`. That function
/// takes text whose length is even and whose bytes are all digits of base
/// sixteen, of either case, and gives one byte for each pair, the first
/// digit being the upper half; it refuses every other text.
#[verifier::external_body]
fn hex_decode(text: &str) -> (r: Option<Vec<u8>>)
    ensures
        r is Some <==> is_hex(text@),
        r is Some ==> r.unwrap()@ == hex_bytes(text@),
{
    match hex::decode(text) {
        Ok(bytes) => Some(bytes),
        Err(_) => None,
    }
}

/// Decodes UTF-8 by `String::from_utf8` of the standard library, which
/// gives the text that the bytes encode and refuses bytes that are not
/// valid UTF-8.
#[verifier::external_body]
fn utf8_decode(bytes: Vec<u8>) -> (r: Option<String>)
    ensures
        r is Some <==> valid_utf8(bytes@),
        r is Some ==> r.unwrap()@ == decode_utf8(bytes@),
{
    match String::from_utf8(bytes) {
        Ok(s) => Some(s),
        Err(_) => None,
    }
}

/// The bytes of a datum; none at all means that there is no datum.
#[derive(Debug)]
pub struct Data {
    bytes: Vec<u8>,
}

impl View for Data {
    type V = Seq<u8>;

    closed spec fn view(&self) -> Seq<u8> {
        self.bytes@
    }
}

impl Clone for Data {
    fn clone(&self) -> (r: Self)
        ensures
            r@ == self@,
    {
        Data { bytes: self.bytes.clone() }
    }
}

impl PartialEq for Data {
    fn eq(&self, other: &Self) -> (r: bool) {
        if self.bytes.len() != other.bytes.len() {
            return false;
        }
        let mut i: usize = 0;
        while i < self.bytes.len()
            invariant
                self.bytes.len() == other.bytes.len(),
                i <= self.bytes.len(),
                forall|j: int| 0 <= j < i ==> self.bytes@[j] == other.bytes@[j],
            decreases self.bytes.len() - i,
        {
            if self.bytes[i] != other.bytes[i] {
                return false;
            }
            i = i + 1;
        }
        assert(self.bytes@ =~= other.bytes@);
        true
    }
}

impl PartialEqSpecImpl for Data {
    open spec fn obeys_eq_spec() -> bool {
        true
    }

    open spec fn eq_spec(&self, other: &Self) -> bool {
        self@ == other@
    }
}

impl Data {
    /// A datum without bytes.
    pub fn empty() -> (r: Self)
        ensures
            r@ == Seq::<u8>::empty(),
    {
        Data { bytes: Vec::new() }
    }

    /// A datum of the given bytes.
    pub fn from_bytes(bytes: Vec<u8>) -> (r: Self)
        ensures
            r@ == bytes@,
    {
        Data { bytes }
    }

    /// A datum from hexadecimal notation, in which dashes may stand between
    /// the digits; `None` where what is left without the dashes is not made
    /// of pairs of hexadecimal digits.
    pub fn try_from_hex(hex: &str) -> (r: Option<Self>)
        ensures
            r is Some <==> is_hex(undashed(hex@)),
            r is Some ==> r.unwrap()@ == hex_bytes(undashed(hex@)),
    {
        let chars = chars_of(hex);
        let mut kept: Vec<char> = Vec::new();
        let mut i: usize = 0;
        while i < chars.len()
            invariant
                i <= chars.len(),
                kept@ == undashed(chars@.subrange(0, i as int)),
            decreases chars.len() - i,
        {
            proof {
                let upto = chars@.subrange(0, i + 1);
                assert(upto.drop_last() =~= chars@.subrange(0, i as int));
                reveal(Seq::filter);
            }
            if chars[i] != '-' {
                kept.push(chars[i]);
            }
            i = i + 1;
        }
        assert(chars@.subrange(0, chars.len() as int) =~= chars@);
        let clean = string_of(&kept, 0, kept.len());
        assert(clean@ =~= kept@);
        match hex_decode(clean.as_str()) {
            Some(bytes) => Some(Data { bytes }),
            None => None,
        }
    }

    /// A datum from hexadecimal notation, in which dashes may stand between
    /// the digits.
    pub fn from_hex(hex: String) -> (r: Self)
        requires
            is_hex(undashed(hex@)),
        ensures
            r@ == hex_bytes(undashed(hex@)),
    {
        match Self::try_from_hex(hex.as_str()) {
            Some(d) => d,
            None => Data { bytes: Vec::new() },
        }
    }

    /// The eight bytes of an integer, the most significant first.
    pub fn from_int(d: i64) -> (r: Self)
        ensures
            r@ == be_bytes(d),
    {
        let x: u64 = #[verifier::truncate] (d as u64);
        let mut bytes: Vec<u8> = Vec::new();
        bytes.push(#[verifier::truncate] ((x >> 56) as u8));
        bytes.push(#[verifier::truncate] ((x >> 48) as u8));
        bytes.push(#[verifier::truncate] ((x >> 40) as u8));
        bytes.push(#[verifier::truncate] ((x >> 32) as u8));
        bytes.push(#[verifier::truncate] ((x >> 24) as u8));
        bytes.push(#[verifier::truncate] ((x >> 16) as u8));
        bytes.push(#[verifier::truncate] ((x >> 8) as u8));
        bytes.push(#[verifier::truncate] (x as u8));
        assert(bytes@ =~= be_bytes(d));
        Data { bytes }
    }

    /// One byte: 1 for `true`, 0 for `false`.
    pub fn from_bool(d: bool) -> (r: Self)
        ensures
            r@ == if d { seq![1u8] } else { seq![0u8] },
    {
        let mut bytes: Vec<u8> = Vec::new();
        bytes.push(if d { 1u8 } else { 0u8 });
        assert(bytes@ =~= if d { seq![1u8] } else { seq![0u8] });
        Data { bytes }
    }

    /// The UTF-8 bytes of a text.
    pub fn from_string(d: String) -> (r: Self)
        ensures
            r@ == encode_utf8(d@),
    {
        Data { bytes: d.as_str().as_bytes_vec() }
    }

    /// The UTF-8 bytes of a text.
    pub fn from_str(d: &str) -> (r: Self)
        ensures
            r@ == encode_utf8(d@),
    {
        Data { bytes: d.as_bytes_vec() }
    }

    /// Whether there are no bytes.
    pub fn is_empty(&self) -> (r: bool)
        ensures
            r == (self@.len() == 0),
    {
        self.bytes.len() == 0
    }

    /// The boolean that the first byte writes: `true` where it is 1. A datum
    /// without bytes is no boolean.
    pub fn as_bool(&self) -> (r: Result<bool, Failure>)
        ensures
            match r {
                Ok(b) => self@.len() > 0 && b == (self@[0] == 1),
                Err(e) => self@.len() == 0 && e@ == Fault::BadData,
            },
    {
        if self.bytes.len() == 0 {
            Err(Failure::BadData)
        } else {
            Ok(self.bytes[0] == 1)
        }
    }

    /// The integer that the bytes write, where there are eight of them.
    pub fn as_int(&self) -> (r: Result<i64, Failure>)
        ensures
            match r {
                Ok(d) => self@.len() == 8 && d == be_int(self@),
                Err(e) => self@.len() != 8 && e@ == Fault::BadData,
            },
    {
        if self.bytes.len() != 8 {
            return Err(Failure::BadData);
        }
        let x: u64 = ((self.bytes[0] as u64) << 56) | ((self.bytes[1] as u64) << 48) | ((
        self.bytes[2] as u64) << 40) | ((self.bytes[3] as u64) << 32) | ((self.bytes[4] as u64)
            << 24) | ((self.bytes[5] as u64) << 16) | ((self.bytes[6] as u64) << 8) | (
        self.bytes[7] as u64);
        Ok(#[verifier::truncate] (x as i64))
    }

    /// The text that the bytes encode in UTF-8, where they encode one.
    pub fn as_string(&self) -> (r: Result<String, Failure>)
        ensures
            match r {
                Ok(s) => valid_utf8(self@) && s@ == decode_utf8(self@),
                Err(e) => !valid_utf8(self@) && e@ == Fault::BadData,
            },
    {
        match utf8_decode(self.bytes.clone()) {
            Some(s) => Ok(s),
            None => Err(Failure::BadData),
        }
    }

    /// The bytes in hexadecimal notation.
    pub fn as_hex(&self) -> (r: String)
        ensures
            r@ == hex_text(self@),
    {
        let mut out = String::new();
        if self.bytes.len() == 0 {
            push_char(&mut out, '-');
            push_char(&mut out, '-');
            assert(out@ =~= hex_text(self@));
            return out;
        }
        let mut i: usize = 0;
        while i < self.bytes.len()
            invariant
                i <= self.bytes.len(),
                out@ == hex_join(self.bytes@.subrange(0, i as int)),
            decreases self.bytes.len() - i,
        {
            let b = self.bytes[i];
            proof {
                let upto = self.bytes@.subrange(0, i + 1);
                assert(upto.drop_last() =~= self.bytes@.subrange(0, i as int));
                assert(upto.last() == b);
            }
            if i > 0 {
                push_char(&mut out, '-');
            }
            push_char(&mut out, upper_digit(b / 16));
            push_char(&mut out, upper_digit(b % 16));
            i = i + 1;
            assert(out@ =~= hex_join(self.bytes@.subrange(0, i as int)));
        }
        assert(self.bytes@.subrange(0, self.bytes.len() as int) =~= self.bytes@);
        out
    }

    /// A copy of the bytes.
    pub fn as_bytes(&self) -> (r: Vec<u8>)
        ensures
            r@ == self@,
    {
        self.bytes.clone()
    }
}

/// The upper-case hexadecimal digit of a number below sixteen.
fn upper_digit(n: u8) -> (c: char)
    requires
        n < 16,
    ensures
        c == hex_digit(n),
{
    if n < 10 {
        (('0' as u8) + n) as char
    } else {
        (('A' as u8) + (n - 10)) as char
    }
}

/// An integer laid out in bytes and read back is the same integer.
pub proof fn law_int_round_trip(d: i64)
    ensures
        be_bytes(d).len() == 8,
        be_int(be_bytes(d)) == d,
{
    let x = d as u64;
    assert(((((x >> 56) as u8) as u64) << 56) | ((((x >> 48) as u8) as u64) << 48) | ((((x >> 40) as u8) as u64)
        << 40) | ((((x >> 32) as u8) as u64) << 32) | ((((x >> 24) as u8) as u64) << 24) | ((((x
        >> 16) as u8) as u64) << 16) | ((((x >> 8) as u8) as u64) << 8) | ((x as u8) as u64) == x)
        by (bit_vector);
    assert((d as u64) as i64 == d) by (bit_vector);
}

/// A text laid out in UTF-8 and decoded is the same text.
pub proof fn law_text_round_trip(s: Seq<char>)
    ensures
        valid_utf8(encode_utf8(s)),
        decode_utf8(encode_utf8(s)) == s,
{
}

} // verus!
