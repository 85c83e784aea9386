//! Characters, decimal numbers and hexadecimal digits: the small tools that
//! the locator language and the script language are read with.

use vstd::prelude::*;
use vstd::std_specs::iter::IteratorSpec;
use vstd::string::StringExecFns;

verus! {

broadcast use vstd::string::group_string_axioms;

/// Appends one character to a string, by `String::push` of the standard
/// library: the string grows by exactly this character at its end.
#[verifier::external_body]
pub(crate) fn push_char(s: &mut String, c: char)
    ensures
        final(s)@ == old(s)@.push(c),
{
    s.push(c);
}

/// The characters of a string, in order.
pub fn chars_of(s: &str) -> (r: Vec<char>)
    ensures
        r@ == s@,
{
    let mut out: Vec<char> = Vec::new();
    let mut it = s.chars();
    loop
        invariant
            it.obeys_prophetic_iter_laws(),
            it.decrease() is Some,
            out@ + it.remaining() == s@,
        ensures
            out@ == s@,
        decreases it.decrease()->0,
    {
        let ghost before = it.remaining();
        match it.next() {
            Some(c) => {
                out.push(c);
                assert(out@ + it.remaining() =~= s@) by {
                    assert(before =~= seq![c] + before.drop_first());
                }
            },
            None => {
                assert(out@ =~= s@);
                break ;
            },
        }
    }
    out
}

/// The string made of the characters from `from` up to, not including, `to`.
pub fn string_of(chars: &Vec<char>, from: usize, to: usize) -> (r: String)
    requires
        from <= to <= chars.len(),
    ensures
        r@ == chars@.subrange(from as int, to as int),
{
    let mut out = String::new();
    let mut i: usize = from;
    while i < to
        invariant
            from <= i <= to <= chars.len(),
            out@ == chars@.subrange(from as int, i as int),
        decreases to - i,
    {
        push_char(&mut out, chars[i]);
        i = i + 1;
        assert(out@ =~= chars@.subrange(from as int, i as int));
    }
    out
}

/// Whether two strings hold the same characters.
pub fn same(a: &str, b: &str) -> (r: bool)
    ensures
        r == (a@ == b@),
{
    let x = String::from_str(a);
    let y = String::from_str(b);
    x == y
}

/// The value of a decimal digit, if the character is one.
pub open spec fn digit(c: char) -> Option<nat> {
    if '0' <= c && c <= '9' {
        Some((c as nat - '0' as nat) as nat)
    } else {
        None
    }
}

/// Whether the sequence is a decimal number: one digit or more, nothing else.
pub open spec fn is_decimal(s: Seq<char>) -> bool {
    s.len() > 0 && forall|i: int| 0 <= i < s.len() ==> digit(#[trigger] s[i]) is Some
}

/// The number that a sequence of decimal digits writes.
pub open spec fn decimal(s: Seq<char>) -> nat
    decreases s.len(),
{
    if s.len() == 0 {
        0
    } else {
        decimal(s.drop_last()) * 10 + digit(s.last()).unwrap_or(0)
    }
}

/// Reads the characters from `from` up to `to` as a decimal number that
/// fits 32 bits; `None` where they are no such number.
pub fn parse_u32(chars: &Vec<char>, from: usize, to: usize) -> (r: Option<u32>)
    requires
        from <= to <= chars.len(),
    ensures
        r is Some <==> is_decimal(chars@.subrange(from as int, to as int)) && decimal(
            chars@.subrange(from as int, to as int),
        ) <= u32::MAX,
        r is Some ==> r.unwrap() == decimal(chars@.subrange(from as int, to as int)),
{
    let ghost whole = chars@.subrange(from as int, to as int);
    if from == to {
        return None;
    }
    let mut acc: u64 = 0;
    let mut i: usize = from;
    while i < to
        invariant
            from <= i <= to <= chars.len(),
            whole == chars@.subrange(from as int, to as int),
            forall|j: int| 0 <= j < i - from ==> digit(#[trigger] whole[j]) is Some,
            acc == decimal(whole.subrange(0, i - from)),
            acc <= u32::MAX,
        decreases to - i,
    {
        let c = chars[i];
        assert(c == whole[i - from]);
        if c < '0' || c > '9' {
            return None;
        }
        let d: u64 = (c as u64) - ('0' as u64);
        let next: u64 = acc * 10 + d;
        proof {
            let upto = whole.subrange(0, i + 1 - from);
            assert(upto.drop_last() =~= whole.subrange(0, i - from));
            assert(upto.last() == c);
            assert(next == decimal(upto));
            if next > u32::MAX {
                lemma_decimal_grows(whole, i + 1 - from);
            }
        }
        if next > 0xffff_ffff {
            return None;
        }
        acc = next;
        i = i + 1;
    }
    assert(whole.subrange(0, to - from) =~= whole);
    Some(acc as u32)
}

/// The decimal digits of a number, without needless zeros.
pub open spec fn digits(n: nat) -> Seq<char>
    decreases n,
{
    if n < 10 {
        seq![(('0' as nat + n) as u8) as char]
    } else {
        digits(n / 10).push((('0' as nat + n % 10) as u8) as char)
    }
}

/// The digits of a number are a decimal number, and write that number.
pub proof fn lemma_digits(n: nat)
    ensures
        is_decimal(digits(n)),
        decimal(digits(n)) == n,
        forall|i: int| 0 <= i < digits(n).len() ==> digits(n)[i] != '.',
    decreases n,
{
    if n < 10 {
        let s = digits(n);
        assert(s.drop_last() =~= Seq::<char>::empty());
        assert(decimal(s) == n) by {
            reveal_with_fuel(decimal, 2);
        }
    } else {
        lemma_digits(n / 10);
        let s = digits(n);
        assert(s.drop_last() =~= digits(n / 10));
        assert forall|i: int| 0 <= i < s.len() implies digit(#[trigger] s[i]) is Some by {
            if i < s.len() - 1 {
                assert(s[i] == digits(n / 10)[i]);
            }
        }
        assert forall|i: int| 0 <= i < s.len() implies s[i] != '.' by {
            if i < s.len() - 1 {
                assert(s[i] == digits(n / 10)[i]);
            }
        }
    }
}

/// The decimal digits of a number.
pub fn decimal_text(n: u32) -> (r: String)
    ensures
        r@ == digits(n as nat),
    decreases n,
{
    if n < 10 {
        let mut out = String::new();
        push_char(&mut out, (('0' as u8) + (n as u8)) as char);
        assert(out@ =~= digits(n as nat));
        out
    } else {
        let mut out = decimal_text(n / 10);
        push_char(&mut out, (('0' as u8) + ((n % 10) as u8)) as char);
        out
    }
}

/// A decimal number is never less than the number that a prefix of it writes.
pub proof fn lemma_decimal_grows(s: Seq<char>, n: int)
    requires
        0 <= n <= s.len(),
    ensures
        decimal(s.subrange(0, n)) <= decimal(s),
    decreases s.len() - n,
{
    if n == s.len() {
        assert(s.subrange(0, n) =~= s);
    } else {
        lemma_decimal_grows(s.drop_last(), n);
        assert(s.drop_last().subrange(0, n) =~= s.subrange(0, n));
    }
}

} // verus!
