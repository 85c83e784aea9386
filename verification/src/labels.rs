//! The labels with a fixed meaning, and the words of the locator language.

use vstd::prelude::*;

verus! {

/// `Δ`: the target carries the bytes of the vertex.
pub open spec fn delta() -> Seq<char> {
    seq!['Δ']
}

/// `λ`: the target carries the name of an atom.
pub open spec fn lambda() -> Seq<char> {
    seq!['λ']
}

/// `π`: the vertex is a copy of the target.
pub open spec fn pi() -> Seq<char> {
    seq!['π']
}

/// `φ`: what the vertex lacks is looked for at the target.
pub open spec fn phi() -> Seq<char> {
    seq!['φ']
}

/// `γ`: as `φ`, and what is found is remembered at the vertex.
pub open spec fn gamma() -> Seq<char> {
    seq!['γ']
}

/// `ρ`: back to the context of a copy.
pub open spec fn rho() -> Seq<char> {
    seq!['ρ']
}

/// `σ`: back to the surrounding object.
pub open spec fn sigma() -> Seq<char> {
    seq!['σ']
}

/// `ψ`: the context that dispatch recalls.
pub open spec fn psi() -> Seq<char> {
    seq!['ψ']
}

/// `ξ`: the current object.
pub open spec fn xi() -> Seq<char> {
    seq!['ξ']
}

/// `ε`: dispatch follows the edge without copying.
pub open spec fn epsilon() -> Seq<char> {
    seq!['ε']
}

/// `β`: the attribute is named by the only edge of the target.
pub open spec fn beta() -> Seq<char> {
    seq!['β']
}

/// `Φ`: the root, in a locator.
pub open spec fn root() -> Seq<char> {
    seq!['Φ']
}

/// `Q`: the root, in a locator.
pub open spec fn root_ascii() -> Seq<char> {
    seq!['Q']
}

/// `$`: the current vertex, in a locator.
pub open spec fn here() -> Seq<char> {
    seq!['$']
}

/// Whether the label is one of the three that lead back: `ρ`, `σ`, `ψ`.
pub open spec fn leads_back(a: Seq<char>) -> bool {
    a == rho() || a == sigma() || a == psi()
}

/// The label `Δ`.
pub fn delta_str() -> (s: &'static str)
    ensures
        s@ == delta(),
{
    proof {
        reveal_strlit("Δ");
    }
    assert("Δ"@ =~= delta());
    "Δ"
}

/// The label `λ`.
pub fn lambda_str() -> (s: &'static str)
    ensures
        s@ == lambda(),
{
    proof {
        reveal_strlit("λ");
    }
    assert("λ"@ =~= lambda());
    "λ"
}

/// The label `π`.
pub fn pi_str() -> (s: &'static str)
    ensures
        s@ == pi(),
{
    proof {
        reveal_strlit("π");
    }
    assert("π"@ =~= pi());
    "π"
}

/// The label `φ`.
pub fn phi_str() -> (s: &'static str)
    ensures
        s@ == phi(),
{
    proof {
        reveal_strlit("φ");
    }
    assert("φ"@ =~= phi());
    "φ"
}

/// The label `γ`.
pub fn gamma_str() -> (s: &'static str)
    ensures
        s@ == gamma(),
{
    proof {
        reveal_strlit("γ");
    }
    assert("γ"@ =~= gamma());
    "γ"
}

/// The label `ρ`.
pub fn rho_str() -> (s: &'static str)
    ensures
        s@ == rho(),
{
    proof {
        reveal_strlit("ρ");
    }
    assert("ρ"@ =~= rho());
    "ρ"
}

/// The label `σ`.
pub fn sigma_str() -> (s: &'static str)
    ensures
        s@ == sigma(),
{
    proof {
        reveal_strlit("σ");
    }
    assert("σ"@ =~= sigma());
    "σ"
}

/// The label `ψ`.
pub fn psi_str() -> (s: &'static str)
    ensures
        s@ == psi(),
{
    proof {
        reveal_strlit("ψ");
    }
    assert("ψ"@ =~= psi());
    "ψ"
}

/// The label `ξ`.
pub fn xi_str() -> (s: &'static str)
    ensures
        s@ == xi(),
{
    proof {
        reveal_strlit("ξ");
    }
    assert("ξ"@ =~= xi());
    "ξ"
}

/// The label `ε`.
pub fn epsilon_str() -> (s: &'static str)
    ensures
        s@ == epsilon(),
{
    proof {
        reveal_strlit("ε");
    }
    assert("ε"@ =~= epsilon());
    "ε"
}

/// The label `β`.
pub fn beta_str() -> (s: &'static str)
    ensures
        s@ == beta(),
{
    proof {
        reveal_strlit("β");
    }
    assert("β"@ =~= beta());
    "β"
}

/// The label `Φ`.
pub fn root_str() -> (s: &'static str)
    ensures
        s@ == root(),
{
    proof {
        reveal_strlit("Φ");
    }
    assert("Φ"@ =~= root());
    "Φ"
}

/// The label `Q`.
pub fn root_ascii_str() -> (s: &'static str)
    ensures
        s@ == root_ascii(),
{
    proof {
        reveal_strlit("Q");
    }
    assert("Q"@ =~= root_ascii());
    "Q"
}

/// The label `$`.
pub fn here_str() -> (s: &'static str)
    ensures
        s@ == here(),
{
    proof {
        reveal_strlit("$");
    }
    assert("$"@ =~= here());
    "$"
}

} // verus!
