//! The script language, letter by letter: instructions that end with a
//! semicolon, each an operation in capitals with its arguments in brackets,
//! among whitespace and comments that run from `#` to the end of the line.

use crate::text::string_of;
use vstd::prelude::*;

verus! {

/// The operations of the script language.
#[derive(Clone, Copy, Debug, PartialEq, Eq, Structural)]
pub enum Op {
    /// `ADD(v)`: a new vertex.
    Add,
    /// `BIND(v1, v2, a)`: a new edge.
    Bind,
    /// `PUT(v, hex)`: a datum.
    Put,
}

/// Whether the character is whitespace: space, tab, carriage return, new line.
pub open spec fn is_space(c: char) -> bool {
    c == ' ' || c == '\t' || c == '\r' || c == '\n'
}

/// Whether the character is a capital of the Latin alphabet.
pub open spec fn is_upper(c: char) -> bool {
    'A' <= c && c <= 'Z'
}

/// The characters without the whitespace at their two ends.
pub open spec fn trim(s: Seq<char>) -> Seq<char>
    decreases s.len(),
{
    if s.len() > 0 && is_space(s[0]) {
        trim(s.drop_first())
    } else if s.len() > 0 && is_space(s.last()) {
        trim(s.drop_last())
    } else {
        s
    }
}

/// Where the character first stands; the length where it does not occur.
pub open spec fn index_of(s: Seq<char>, c: char) -> nat
    decreases s.len(),
{
    if s.len() == 0 || s[0] == c {
        0
    } else {
        1 + index_of(s.drop_first(), c)
    }
}

/// How many capitals stand at the beginning.
pub open spec fn upper_run(s: Seq<char>) -> nat
    decreases s.len(),
{
    if s.len() == 0 || !is_upper(s[0]) {
        0
    } else {
        1 + upper_run(s.drop_first())
    }
}

/// The pieces between the commas; one more than there are commas.
pub open spec fn split(s: Seq<char>) -> Seq<Seq<char>>
    decreases s.len(),
{
    if s.len() == 0 {
        seq![Seq::empty()]
    } else if s.last() == ',' {
        split(s.drop_last()).push(Seq::empty())
    } else {
        split(s.drop_last()).drop_last().push(split(s.drop_last()).last().push(s.last()))
    }
}

/// The arguments between two brackets: the pieces between the commas,
/// without the whitespace around them, but those that are empty.
pub open spec fn arguments(s: Seq<char>) -> Seq<Seq<char>> {
    kept(split(s))
}

/// The pieces without the whitespace around them, but those that are empty.
pub open spec fn kept(pieces: Seq<Seq<char>>) -> Seq<Seq<char>> {
    pieces.map_values(|p: Seq<char>| trim(p)).filter(|p: Seq<char>| p.len() > 0)
}

/// One more piece is kept, without the whitespace around it, unless it is
/// empty then.
pub proof fn lemma_kept_push(pieces: Seq<Seq<char>>, p: Seq<char>)
    ensures
        kept(pieces.push(p)) == if trim(p).len() > 0 {
            kept(pieces).push(trim(p))
        } else {
            kept(pieces)
        },
        kept(Seq::empty()) == Seq::<Seq<char>>::empty(),
{
    let trimmed = |p: Seq<char>| trim(p);
    let more = pieces.push(p);
    assert(more.map_values(trimmed).drop_last() =~= pieces.map_values(trimmed));
    assert(more.map_values(trimmed).last() == trim(p));
    reveal(Seq::filter);
    assert(Seq::<Seq<char>>::empty().map_values(trimmed) =~= Seq::<Seq<char>>::empty());
}

/// The operation that a word names.
pub open spec fn operation(word: Seq<char>) -> Option<Op> {
    if word == seq!['A', 'D', 'D'] {
        Some(Op::Add)
    } else if word == seq!['B', 'I', 'N', 'D'] {
        Some(Op::Bind)
    } else if word == seq!['P', 'U', 'T'] {
        Some(Op::Put)
    } else {
        None
    }
}

/// The operation and the arguments of an instruction, which is the text up
/// to its semicolon: a word in capitals that names an operation, then an
/// opening bracket, the arguments, and a closing bracket, which is the
/// first one and the last character. Whitespace may stand around the word
/// and the brackets. `None` where the text is not of this form.
pub open spec fn instruction(t: Seq<char>) -> Option<(Op, Seq<Seq<char>>)> {
    let s = trim(t);
    let n = upper_run(s);
    let rest = trim(s.subrange(n as int, s.len() as int));
    if rest.len() < 2 || rest[0] != '(' || index_of(rest, ')') != rest.len() - 1 {
        None
    } else {
        match operation(s.subrange(0, n as int)) {
            Some(op) => Some((op, arguments(rest.subrange(1, rest.len() - 1)))),
            None => None,
        }
    }
}

/// The texts that a vector of strings holds.
pub open spec fn texts(v: Seq<String>) -> Seq<Seq<char>> {
    v.map_values(|s: String| s@)
}

/// What is left between two places once the whitespace at the ends is taken
/// away is what trimming leaves.
pub proof fn lemma_trim(s: Seq<char>, a: int, b: int)
    requires
        0 <= a <= b <= s.len(),
        forall|i: int| 0 <= i < a ==> is_space(s[i]),
        forall|i: int| b <= i < s.len() ==> is_space(s[i]),
        a == b || (!is_space(s[a]) && !is_space(s[b - 1])),
    ensures
        trim(s) == s.subrange(a, b),
    decreases s.len(),
{
    if s.len() > 0 && is_space(s[0]) {
        let r = s.drop_first();
        if a == 0 {
            assert(a == b);
            assert forall|i: int| 0 <= i < r.len() implies is_space(r[i]) by {
                assert(r[i] == s[i + 1]);
            }
            lemma_trim(r, 0, 0);
            assert(r.subrange(0, 0) =~= s.subrange(a, b));
        } else {
            assert forall|i: int| 0 <= i < a - 1 implies is_space(r[i]) by {
                assert(r[i] == s[i + 1]);
            }
            assert forall|i: int| b - 1 <= i < r.len() implies is_space(r[i]) by {
                assert(r[i] == s[i + 1]);
            }
            lemma_trim(r, a - 1, b - 1);
            assert(r.subrange(a - 1, b - 1) =~= s.subrange(a, b));
        }
    } else if s.len() > 0 && is_space(s.last()) {
        let r = s.drop_last();
        assert(b < s.len());
        assert forall|i: int| b <= i < r.len() implies is_space(r[i]) by {
            assert(r[i] == s[i]);
        }
        if a == b && a > 0 {
            assert(is_space(s[0]));
        }
        lemma_trim(r, a, b);
        assert(r.subrange(a, b) =~= s.subrange(a, b));
    } else {
        if s.len() > 0 {
            if a > 0 {
                assert(is_space(s[0]));
            }
            if b < s.len() {
                assert(is_space(s[s.len() - 1]));
            }
        }
        assert(s.subrange(a, b) =~= s);
    }
}

/// The place before which a character does not stand, and at which it
/// stands or the sequence ends, is where it first stands.
pub proof fn lemma_index_of(s: Seq<char>, c: char, r: int)
    requires
        0 <= r <= s.len(),
        forall|i: int| 0 <= i < r ==> s[i] != c,
        r == s.len() || s[r] == c,
    ensures
        index_of(s, c) == r,
    decreases s.len(),
{
    if s.len() > 0 && s[0] != c {
        let t = s.drop_first();
        assert forall|i: int| 0 <= i < r - 1 implies t[i] != c by {
            assert(t[i] == s[i + 1]);
        }
        lemma_index_of(t, c, r - 1);
    }
}

/// The place before which all are capitals, and at which there is none
/// or the sequence ends, is where the capitals end.
pub proof fn lemma_upper_run(s: Seq<char>, r: int)
    requires
        0 <= r <= s.len(),
        forall|i: int| 0 <= i < r ==> is_upper(s[i]),
        r == s.len() || !is_upper(s[r]),
    ensures
        upper_run(s) == r,
    decreases s.len(),
{
    if s.len() > 0 && is_upper(s[0]) {
        let t = s.drop_first();
        assert forall|i: int| 0 <= i < r - 1 implies is_upper(t[i]) by {
            assert(t[i] == s[i + 1]);
        }
        lemma_upper_run(t, r - 1);
    }
}

/// Whether the character is whitespace.
pub fn space(c: char) -> (r: bool)
    ensures
        r == is_space(c),
{
    c == ' ' || c == '\t' || c == '\r' || c == '\n'
}

/// The first place from `from` up to `to` where the character stands; `to`
/// where it does not.
pub fn seek(chars: &Vec<char>, from: usize, to: usize, c: char) -> (r: usize)
    requires
        from <= to <= chars.len(),
    ensures
        from <= r <= to,
        r < to ==> chars@[r as int] == c,
        forall|i: int| from <= i < r ==> chars@[i] != c,
        r - from == index_of(chars@.subrange(from as int, to as int), c),
{
    let mut r: usize = from;
    while r < to && chars[r] != c
        invariant
            from <= r <= to <= chars.len(),
            forall|i: int| from <= i < r ==> chars@[i] != c,
        decreases to - r,
    {
        r = r + 1;
    }
    proof {
        lemma_index_of(chars@.subrange(from as int, to as int), c, r - from);
    }
    r
}

/// The two places between which the text from `from` up to `to` stands
/// without the whitespace at its ends.
pub fn trim_range(chars: &Vec<char>, from: usize, to: usize) -> (r: (usize, usize))
    requires
        from <= to <= chars.len(),
    ensures
        from <= r.0 <= r.1 <= to,
        chars@.subrange(r.0 as int, r.1 as int) == trim(chars@.subrange(from as int, to as int)),
        r.0 < r.1 ==> !is_space(chars@[r.0 as int]) && !is_space(chars@[r.1 - 1]),
{
    let mut a: usize = from;
    while a < to && space(chars[a])
        invariant
            from <= a <= to <= chars.len(),
            forall|i: int| from <= i < a ==> is_space(chars@[i]),
        decreases to - a,
    {
        a = a + 1;
    }
    let mut b: usize = to;
    while b > a && space(chars[b - 1])
        invariant
            a <= b <= to <= chars.len(),
            forall|i: int| b <= i < to ==> is_space(chars@[i]),
        decreases b - a,
    {
        b = b - 1;
    }
    proof {
        let s = chars@.subrange(from as int, to as int);
        lemma_trim(s, a - from, b - from);
        assert(s.subrange(a - from, b - from) =~= chars@.subrange(a as int, b as int));
    }
    (a, b)
}

/// The arguments that stand from `from` up to `to`.
pub fn read_arguments(chars: &Vec<char>, from: usize, to: usize) -> (r: Vec<String>)
    requires
        from <= to <= chars.len(),
    ensures
        texts(r@) == arguments(chars@.subrange(from as int, to as int)),
{
    let mut out: Vec<String> = Vec::new();
    let mut start: usize = from;
    let mut i: usize = from;
    let ghost pieces: Seq<Seq<char>> = Seq::empty();
    proof {
        lemma_kept_push(pieces, Seq::empty());
        assert(texts(out@) =~= kept(pieces));
        assert(chars@.subrange(from as int, from as int) =~= Seq::<char>::empty());
        assert(pieces.push(Seq::<char>::empty()) =~= seq![Seq::<char>::empty()]);
    }
    while i < to
        invariant
            from <= start <= i <= to <= chars.len(),
            split(chars@.subrange(from as int, i as int)) == pieces.push(
                chars@.subrange(start as int, i as int),
            ),
            texts(out@) == kept(pieces),
        decreases to - i,
    {
        proof {
            let upto = chars@.subrange(from as int, i + 1);
            assert(upto.drop_last() =~= chars@.subrange(from as int, i as int));
            assert(upto.last() == chars@[i as int]);
            assert(pieces.push(chars@.subrange(start as int, i as int)).drop_last() =~= pieces);
        }
        if chars[i] == ',' {
            let (a, b) = trim_range(chars, start, i);
            let ghost piece = chars@.subrange(start as int, i as int);
            let ghost before = out@;
            if a < b {
                out.push(string_of(chars, a, b));
            }
            proof {
                lemma_kept_push(pieces, piece);
                if a < b {
                    assert(texts(out@) =~= texts(before).push(trim(piece)));
                }
                pieces = pieces.push(piece);
                assert(chars@.subrange(i + 1, i + 1) =~= Seq::<char>::empty());
            }
            start = i + 1;
        } else {
            proof {
                assert(chars@.subrange(start as int, i as int).push(chars@[i as int])
                    =~= chars@.subrange(start as int, i + 1));
            }
        }
        i = i + 1;
    }
    let (a, b) = trim_range(chars, start, to);
    let ghost piece = chars@.subrange(start as int, to as int);
    let ghost before = out@;
    if a < b {
        out.push(string_of(chars, a, b));
    }
    proof {
        lemma_kept_push(pieces, piece);
        if a < b {
            assert(texts(out@) =~= texts(before).push(trim(piece)));
        }
    }
    out
}

/// The operation that the capitals from `from` up to `to` name.
fn read_operation(chars: &Vec<char>, from: usize, to: usize) -> (r: Option<Op>)
    requires
        from <= to <= chars.len(),
    ensures
        r == operation(chars@.subrange(from as int, to as int)),
{
    let ghost word = chars@.subrange(from as int, to as int);
    if to - from == 3 && chars[from] == 'A' && chars[from + 1] == 'D' && chars[from + 2] == 'D' {
        assert(word =~= seq!['A', 'D', 'D']);
        Some(Op::Add)
    } else if to - from == 4 && chars[from] == 'B' && chars[from + 1] == 'I' && chars[from + 2]
        == 'N' && chars[from + 3] == 'D' {
        assert(word =~= seq!['B', 'I', 'N', 'D']);
        assert(seq!['A', 'D', 'D'].len() == 3);
        Some(Op::Bind)
    } else if to - from == 3 && chars[from] == 'P' && chars[from + 1] == 'U' && chars[from + 2]
        == 'T' {
        assert(word =~= seq!['P', 'U', 'T']);
        assert(seq!['A', 'D', 'D'][0] == 'A');
        assert(seq!['B', 'I', 'N', 'D'].len() == 4);
        Some(Op::Put)
    } else {
        proof {
            assert(seq!['A', 'D', 'D'].len() == 3);
            assert(seq!['B', 'I', 'N', 'D'].len() == 4);
            assert(seq!['P', 'U', 'T'].len() == 3);
            if word == seq!['A', 'D', 'D'] {
                assert(word[0] == 'A' && word[1] == 'D' && word[2] == 'D');
            }
            if word == seq!['B', 'I', 'N', 'D'] {
                assert(word[0] == 'B' && word[1] == 'I' && word[2] == 'N' && word[3] == 'D');
            }
            if word == seq!['P', 'U', 'T'] {
                assert(word[0] == 'P' && word[1] == 'U' && word[2] == 'T');
            }
        }
        None
    }
}

/// The operation and the arguments of the instruction that stands from
/// `from` up to `to`.
pub fn read_instruction(chars: &Vec<char>, from: usize, to: usize) -> (r: Option<(Op, Vec<String>)>)
    requires
        from <= to <= chars.len(),
    ensures
        match r {
            Some((op, args)) => instruction(chars@.subrange(from as int, to as int)) == Some(
                (op, texts(args@)),
            ),
            None => instruction(chars@.subrange(from as int, to as int)) is None,
        },
{
    let (a, b) = trim_range(chars, from, to);
    let ghost s = chars@.subrange(a as int, b as int);
    let mut k: usize = a;
    while k < b && chars[k] >= 'A' && chars[k] <= 'Z'
        invariant
            a <= k <= b <= chars.len(),
            forall|i: int| a <= i < k ==> is_upper(chars@[i]),
        decreases b - k,
    {
        k = k + 1;
    }
    proof {
        lemma_upper_run(s, k - a);
        assert(s.subrange(k - a, s.len() as int) =~= chars@.subrange(k as int, b as int));
        assert(s.subrange(0, k - a) =~= chars@.subrange(a as int, k as int));
    }
    let (c, d) = trim_range(chars, k, b);
    let ghost rest = chars@.subrange(c as int, d as int);
    if d - c < 2 || chars[c] != '(' {
        return None;
    }
    let close = seek(chars, c, d, ')');
    if close != d - 1 {
        return None;
    }
    let op = match read_operation(chars, a, k) {
        Some(op) => op,
        None => {
            return None;
        },
    };
    let args = read_arguments(chars, c + 1, close);
    proof {
        assert(rest.subrange(1, rest.len() - 1) =~= chars@.subrange(c + 1, close as int));
    }
    Some((op, args))
}

} // verus!
