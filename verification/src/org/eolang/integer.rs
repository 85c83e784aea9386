//! The atoms of integers. Each reads the integer at `ρ` of the vertex it
//! is called at and the integer at `α0`, and leaves a vertex that stands
//! for what the two come to.

use crate::data::{be_bytes, be_int};
use crate::failure::{Failure, Fault};
use crate::labels::rho;
use crate::rules::{Outcome, Reading};
use crate::scripts::copy_of_int;
use crate::store::Graph;
use crate::text::{decimal_text, digits, lemma_digits, push_char};
use crate::universe::{Atom, Universe};
use vstd::prelude::*;
use vstd::string::StringExecFns;

verus! {

/// What an atom of integers does with its two integers.
#[derive(Clone, Copy, Debug, PartialEq, Eq, Structural)]
pub enum Arith {
    /// The sum.
    Plus,
    /// The product.
    Times,
    /// The quotient, rounded towards zero.
    Div,
}

/// The label of the first argument: `α0`.
pub open spec fn alpha0() -> Seq<char> {
    seq!['α', '0']
}

/// The locator of an attribute of a vertex: `ν`, the number of the vertex,
/// a dot and the label.
pub open spec fn attribute(v: u32, a: Seq<char>) -> Seq<char> {
    seq!['ν'] + digits(v as nat) + seq!['.'] + a
}

/// The quotient of two integers, rounded towards zero.
pub open spec fn quotient(x: int, y: int) -> int
    recommends
        y != 0,
{
    let ax = if x < 0 {
        -x
    } else {
        x
    };
    let ay = if y < 0 {
        -y
    } else {
        y
    };
    if (x < 0) == (y < 0) {
        ax / ay
    } else {
        -(ax / ay)
    }
}

/// What two integers come to, where that is an integer of 64 bits.
pub open spec fn combined(op: Arith, x: i64, y: i64) -> Result<i64, Fault> {
    match op {
        Arith::Plus => if i64::MIN <= x + y <= i64::MAX {
            Ok((x + y) as i64)
        } else {
            Err(Fault::Overflow)
        },
        Arith::Times => if i64::MIN <= x * y <= i64::MAX {
            Ok((x * y) as i64)
        } else {
            Err(Fault::Overflow)
        },
        Arith::Div => if y == 0 {
            Err(Fault::DivisionByZero)
        } else if i64::MIN <= quotient(x as int, y as int) <= i64::MAX {
            Ok(quotient(x as int, y as int) as i64)
        } else {
            Err(Fault::Overflow)
        },
    }
}

/// What an atom of integers comes to at a vertex: the integers at `ρ` and
/// at `α0` are dataized, in that order, and a vertex is made that carries
/// what they come to.
pub open spec fn computed(g: Graph, atoms: Set<Seq<char>>, v: u32, depth: nat, op: Arith)
    -> Outcome {
    match g.dataize(atoms, attribute(v, rho()), depth) {
        Reading::Bytes(g1, b1) => if b1.len() != 8 {
            Outcome::Failed(g1, Fault::BadData)
        } else {
            match g1.dataize(atoms, attribute(v, alpha0()), depth) {
                Reading::Bytes(g2, b2) => if b2.len() != 8 {
                    Outcome::Failed(g2, Fault::BadData)
                } else {
                    match combined(op, be_int(b1), be_int(b2)) {
                        Ok(z) => g2.carry(be_bytes(z)),
                        Err(f) => Outcome::Failed(g2, f),
                    }
                },
                Reading::Failed(g2, f) => Outcome::Failed(g2, f),
                Reading::Native(g, at, name) => Outcome::Native(g, at, name),
            }
        },
        Reading::Failed(g1, f) => Outcome::Failed(g1, f),
        Reading::Native(g, at, name) => Outcome::Native(g, at, name),
    }
}

/// The locator of an attribute of a vertex resolves to what the step by
/// the label comes to from that vertex, which has to exist.
pub proof fn law_attribute_locator(
    g: Graph,
    atoms: Set<Seq<char>>,
    v: u32,
    a: Seq<char>,
    depth: nat,
)
    requires
        !g.is_empty(),
        a.len() > 0,
        forall|i: int| 0 <= i < a.len() ==> a[i] != '.',
    ensures
        g.find(atoms, attribute(v, a), depth) == match g.jump(v) {
            Outcome::Done(g1, v1) => g1.step(atoms, v1, a, depth),
            other => other,
        },
{
    let k = seq!['ν'] + digits(v as nat);
    lemma_digits(v as nat);
    assert(k.subrange(1, k.len() as int) =~= digits(v as nat));
    assert forall|i: int| 0 <= i < k.len() implies k[i] != '.' by {
        if i > 0 {
            assert(k[i] == digits(v as nat)[i - 1]);
        }
    }
    crate::laws::lemma_tokens_single(k);
    crate::laws::lemma_tokens_then(k, a);
    assert(attribute(v, a) =~= k + seq!['.'] + a);
    let start = Outcome::Done(g, 0);
    crate::rules::lemma_walk_push(atoms, start, seq![k], a, depth);
    crate::rules::lemma_walk_push(atoms, start, Seq::empty(), k, depth);
    assert(Seq::<Seq<char>>::empty().push(k) =~= seq![k]);
    assert(k[0] == 'ν');
    assert(k != crate::labels::root() && k != crate::labels::root_ascii());
}

/// What two integers come to.
pub fn combine(op: Arith, x: i64, y: i64) -> (r: Result<i64, Failure>)
    ensures
        match r {
            Ok(z) => combined(op, x, y) == Ok::<i64, Fault>(z),
            Err(e) => combined(op, x, y) == Err::<i64, Fault>(e@),
        },
{
    match op {
        Arith::Plus => match x.checked_add(y) {
            Some(z) => Ok(z),
            None => Err(Failure::Overflow),
        },
        Arith::Times => match x.checked_mul(y) {
            Some(z) => Ok(z),
            None => Err(Failure::Overflow),
        },
        Arith::Div => {
            if y == 0 {
                return Err(Failure::DivisionByZero);
            }
            let ax: u64 = if x < 0 {
                (-(x as i128)) as u64
            } else {
                x as u64
            };
            let ay: u64 = if y < 0 {
                (-(y as i128)) as u64
            } else {
                y as u64
            };
            let q: u64 = ax / ay;
            if (x < 0) == (y < 0) {
                if q > 0x7fff_ffff_ffff_ffff {
                    Err(Failure::Overflow)
                } else {
                    Ok(q as i64)
                }
            } else {
                Ok((-(q as i128)) as i64)
            }
        },
    }
}

/// The locator of an attribute of a vertex.
pub fn attribute_of(v: u32, a: &str) -> (r: String)
    ensures
        r@ == attribute(v, a@),
{
    let mut out = String::new();
    push_char(&mut out, 'ν');
    out.append(decimal_text(v).as_str());
    push_char(&mut out, '.');
    out.append(a);
    assert(out@ =~= attribute(v, a@));
    out
}

/// Runs an atom of integers at a vertex.
pub fn binary<A: Atom + Copy>(uni: &mut Universe<A>, v: u32, op: Arith) -> (r: Result<
    u32,
    Failure,
>)
    requires
        old(uni).inv(),
    ensures
        final(uni).follows(
            old(uni),
            computed(old(uni)@, old(uni).names(), v, old(uni).depth(), op),
            r,
        ),
        final(uni).depth() == old(uni).depth(),
{
    proof {
        reveal_strlit("α0");
    }
    assert("α0"@ =~= alpha0());
    let subject = attribute_of(v, crate::labels::rho_str());
    let x = match uni.dataize(subject.as_str()) {
        Ok(d) => match d.as_int() {
            Ok(x) => x,
            Err(e) => {
                return Err(e);
            },
        },
        Err(e) => {
            return Err(e);
        },
    };
    let argument = attribute_of(v, "α0");
    let y = match uni.dataize(argument.as_str()) {
        Ok(d) => match d.as_int() {
            Ok(y) => y,
            Err(e) => {
                return Err(e);
            },
        },
        Err(e) => {
            return Err(e);
        },
    };
    let z = match combine(op, x, y) {
        Ok(z) => z,
        Err(e) => {
            return Err(e);
        },
    };
    copy_of_int(uni, z)
}

/// The sum of the integer at `ρ` and the integer at `α0`.
pub fn int_plus<A: Atom + Copy>(uni: &mut Universe<A>, v: u32) -> (r: Result<u32, Failure>)
    requires
        old(uni).inv(),
    ensures
        final(uni).follows(
            old(uni),
            computed(old(uni)@, old(uni).names(), v, old(uni).depth(), Arith::Plus),
            r,
        ),
        final(uni).depth() == old(uni).depth(),
{
    binary(uni, v, Arith::Plus)
}

/// The product of the integer at `ρ` and the integer at `α0`.
pub fn int_times<A: Atom + Copy>(uni: &mut Universe<A>, v: u32) -> (r: Result<u32, Failure>)
    requires
        old(uni).inv(),
    ensures
        final(uni).follows(
            old(uni),
            computed(old(uni)@, old(uni).names(), v, old(uni).depth(), Arith::Times),
            r,
        ),
        final(uni).depth() == old(uni).depth(),
{
    binary(uni, v, Arith::Times)
}

/// The quotient of the integer at `ρ` by the integer at `α0`, rounded
/// towards zero.
pub fn int_div<A: Atom + Copy>(uni: &mut Universe<A>, v: u32) -> (r: Result<u32, Failure>)
    requires
        old(uni).inv(),
    ensures
        final(uni).follows(
            old(uni),
            computed(old(uni)@, old(uni).names(), v, old(uni).depth(), Arith::Div),
            r,
        ),
        final(uni).depth() == old(uni).depth(),
{
    binary(uni, v, Arith::Div)
}

} // verus!
