//! The generic per-type encode/decode capability. Every element type a
//! typed tuple can hold satisfies this one contract; the per-arity
//! marshalling operations are generic over it and compose it, element by
//! element, with the leaf shape operations.

use crate::term::{get_atom, get_int, make_atom, make_int, Env, SpecTerm, Term, TermError};
use vstd::prelude::*;

verus! {

/// The arena of `newer` still holds every term of `older`, unchanged and
/// in place: encoding only ever appends to an environment.
pub open spec fn env_extends(newer: Seq<SpecTerm>, older: Seq<SpecTerm>) -> bool {
    older.len() <= newer.len() && forall|i: int|
        0 <= i < older.len() ==> newer[i] == #[trigger] older[i]
}

/// A type whose values can cross the boundary: encoded into a term of an
/// environment, and decoded back out of one. `is_rep` says which terms are
/// encodings of which values; `spec_decode` says which value, if any, a
/// term reads back as. The two proof obligations tie the operations
/// together: encodings survive later allocations, and whatever was encoded
/// decodes to the value it came from.
pub trait Codec: Sized {
    /// The term in arena slot `idx` of `env` is an encoding of `self`.
    spec fn is_rep(&self, env: Seq<SpecTerm>, idx: int) -> bool;

    /// The value, if any, that the term in arena slot `idx` decodes to.
    spec fn spec_decode(env: Seq<SpecTerm>, idx: int) -> Option<Self>;

    /// An encoding stays an encoding when the arena grows.
    proof fn lemma_rep_stable(&self, older: Seq<SpecTerm>, newer: Seq<SpecTerm>, idx: int)
        requires
            self.is_rep(older, idx),
            env_extends(newer, older),
        ensures
            self.is_rep(newer, idx),
    ;

    /// Round trip: an encoding of a value decodes back to that value.
    proof fn lemma_rep_decodes(&self, env: Seq<SpecTerm>, idx: int)
        requires
            self.is_rep(env, idx),
        ensures
            Self::spec_decode(env, idx) == Some(*self),
    ;

    /// Allocate a term of `env` encoding `self` and hand back its handle.
    /// Encoding never fails; it only appends to the arena.
    fn encode(&self, env: &mut Env) -> (t: Term)
        requires
            old(env).wf(),
        ensures
            final(env).wf(),
            final(env).spec_id() == old(env).spec_id(),
            env_extends(final(env)@, old(env)@),
            t.valid_in(final(env)),
            self.is_rep(final(env)@, t.spec_idx()),
    ;

    /// Read a value of this type back out of the term `t`. Succeeds, with
    /// the one value the term decodes to, exactly when the term decodes at
    /// all; every failure is the unified bad-argument condition.
    fn decode(env: &Env, t: Term) -> (r: Result<Self, TermError>)
        requires
            env.wf(),
            t.valid_in(env),
        ensures
            match r {
                Ok(v) => Self::spec_decode(env@, t.spec_idx()) == Some(v),
                Err(e) => Self::spec_decode(env@, t.spec_idx()) is None && e == TermError::BadArg,
            },
    ;
}

/// Round trip, stated once over every codec type at once: a value encoded
/// into the arena decodes back to itself.
pub proof fn lemma_encode_decode<T: Codec>(v: T, env: Seq<SpecTerm>, idx: int)
    requires
        v.is_rep(env, idx),
    ensures
        T::spec_decode(env, idx) == Some(v),
{
    v.lemma_rep_decodes(env, idx);
}

/// Integers cross the boundary as integer terms.
impl Codec for i64 {
    open spec fn is_rep(&self, env: Seq<SpecTerm>, idx: int) -> bool {
        0 <= idx < env.len() && env[idx] == SpecTerm::Int(*self as int)
    }

    open spec fn spec_decode(env: Seq<SpecTerm>, idx: int) -> Option<i64> {
        if 0 <= idx < env.len() {
            match env[idx] {
                SpecTerm::Int(n) => if i64::MIN <= n <= i64::MAX {
                    Some(n as i64)
                } else {
                    None
                },
                _ => None,
            }
        } else {
            None
        }
    }

    proof fn lemma_rep_stable(&self, older: Seq<SpecTerm>, newer: Seq<SpecTerm>, idx: int) {
    }

    proof fn lemma_rep_decodes(&self, env: Seq<SpecTerm>, idx: int) {
    }

    fn encode(&self, env: &mut Env) -> (t: Term) {
        make_int(env, *self)
    }

    fn decode(env: &Env, t: Term) -> (r: Result<i64, TermError>) {
        get_int(env, t)
    }
}

/// Booleans cross the boundary as the two atoms the runtime reserves for
/// truth values: slot 1 of the atom table for true, slot 0 for false.
impl Codec for bool {
    open spec fn is_rep(&self, env: Seq<SpecTerm>, idx: int) -> bool {
        0 <= idx < env.len() && env[idx] == SpecTerm::Atom(
            if *self {
                1nat
            } else {
                0nat
            },
        )
    }

    open spec fn spec_decode(env: Seq<SpecTerm>, idx: int) -> Option<bool> {
        if 0 <= idx < env.len() {
            match env[idx] {
                SpecTerm::Atom(a) => if a == 1 {
                    Some(true)
                } else if a == 0 {
                    Some(false)
                } else {
                    None
                },
                _ => None,
            }
        } else {
            None
        }
    }

    proof fn lemma_rep_stable(&self, older: Seq<SpecTerm>, newer: Seq<SpecTerm>, idx: int) {
    }

    proof fn lemma_rep_decodes(&self, env: Seq<SpecTerm>, idx: int) {
    }

    fn encode(&self, env: &mut Env) -> (t: Term) {
        make_atom(
            env,
            if *self {
                1
            } else {
                0
            },
        )
    }

    fn decode(env: &Env, t: Term) -> (r: Result<bool, TermError>) {
        match get_atom(env, t) {
            Ok(a) => if a == 1 {
                Ok(true)
            } else if a == 0 {
                Ok(false)
            } else {
                Err(TermError::BadArg)
            },
            Err(e) => Err(e),
        }
    }
}

} // verus!
