//! Marshalling between opaque term handles and fixed-arity typed tuples.
//!
//! One side is a runtime that keeps every value as an untyped, tagged term
//! living in an environment; the other side is native code that wants
//! statically typed, fixed-arity aggregates. The `term` module models the
//! environment and its term arena together with the leaf shape operations
//! (`make_tuple`, `get_tuple`).

mod arity;
mod codec;
mod term;

pub use arity::{
    lemma_decode0_exact, lemma_decode1_exact, lemma_decode2_exact, lemma_decode3_exact,
    lemma_decode4_exact, lemma_decode5_exact, lemma_decode6_exact, lemma_decode7_exact,
    lemma_empty_tuple_identity,
};
pub use codec::{env_extends, lemma_encode_decode, Codec};
pub use term::{
    env_wf, get_atom, get_int, get_tuple, lemma_compose_decompose, lemma_round_trip_handles,
    lemma_term_eq, make_atom, make_int, make_list, make_tuple, term_children, tuple_indices, Env,
    SpecTerm, Term, TermError,
};
