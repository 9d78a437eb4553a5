//! The arity-generic typed marshalling template, instantiated once per
//! supported arity. Each instantiation encodes a fixed-arity heterogeneous
//! native tuple element by element and composes the element terms with the
//! leaf shape operation, and decodes by decomposing, checking the element
//! count against the arity, and decoding each element at its position,
//! short-circuiting on the first failure. The supported arities form a
//! closed set, zero through seven; further arities are further
//! instantiations of the same template.

use crate::codec::{env_extends, Codec};
use crate::term::{get_tuple, make_tuple, tuple_indices, Env, SpecTerm, Term, TermError};
use vstd::prelude::*;

verus! {

/// The zero-arity tuple crosses the boundary as the canonical empty tuple
/// term.
impl Codec for () {
    open spec fn is_rep(&self, env: Seq<SpecTerm>, idx: int) -> bool {
        &&& 0 <= idx < env.len()
        &&& env[idx] matches SpecTerm::Tuple(ixs)
        &&& ixs.len() == 0
    }

    open spec fn spec_decode(env: Seq<SpecTerm>, idx: int) -> Option<()> {
        if 0 <= idx < env.len() {
            match env[idx] {
                SpecTerm::Tuple(ixs) => if ixs.len() == 0 {
                    Some(())
                } else {
                    None
                },
                _ => None,
            }
        } else {
            None
        }
    }

    proof fn lemma_rep_stable(&self, older: Seq<SpecTerm>, newer: Seq<SpecTerm>, idx: int) {
        assert(newer[idx] == older[idx]);
    }

    proof fn lemma_rep_decodes(&self, env: Seq<SpecTerm>, idx: int) {
    }

    fn encode(&self, env: &mut Env) -> (t: Term) {
        let elems: Vec<Term> = Vec::new();
        let t = make_tuple(env, elems.as_slice());
        proof {
            assert(elems@.map(|_k: int, tm: Term| tm.spec_idx()) =~= Seq::<int>::empty());
        }
        t
    }

    fn decode(env: &Env, t: Term) -> (r: Result<(), TermError>) {
        let elems = match get_tuple(env, t) {
            Ok(v) => v,
            Err(e) => {
                return Err(e);
            },
        };
        if elems.len() != 0 {
            return Err(TermError::BadArg);
        }
        Ok(())
    }
}

/// A one-element tuple is a genuine single-element sequence, distinct from
/// its bare element: it crosses the boundary as a tuple term of arity one.
impl<A: Codec> Codec for (A,) {
    open spec fn is_rep(&self, env: Seq<SpecTerm>, idx: int) -> bool {
        &&& 0 <= idx < env.len()
        &&& env[idx] matches SpecTerm::Tuple(ixs)
        &&& ixs.len() == 1
        &&& self.0.is_rep(env, ixs[0])
    }

    open spec fn spec_decode(env: Seq<SpecTerm>, idx: int) -> Option<(A,)> {
        if 0 <= idx < env.len() {
            match env[idx] {
                SpecTerm::Tuple(ixs) => if ixs.len() == 1 {
                    match A::spec_decode(env, ixs[0]) {
                        Some(a) => Some((a,)),
                        _ => None,
                    }
                } else {
                    None
                },
                _ => None,
            }
        } else {
            None
        }
    }

    proof fn lemma_rep_stable(&self, older: Seq<SpecTerm>, newer: Seq<SpecTerm>, idx: int) {
        let ixs = older[idx]->Tuple_0;
        self.0.lemma_rep_stable(older, newer, ixs[0]);
        assert(newer[idx] == older[idx]);
    }

    proof fn lemma_rep_decodes(&self, env: Seq<SpecTerm>, idx: int) {
        let ixs = env[idx]->Tuple_0;
        self.0.lemma_rep_decodes(env, ixs[0]);
        assert((self.0,) == *self);
    }

    fn encode(&self, env: &mut Env) -> (t: Term) {
        let t0 = self.0.encode(env);
        let ghost e0 = env@;
        let mut elems: Vec<Term> = Vec::new();
        elems.push(t0);
        let t = make_tuple(env, elems.as_slice());
        proof {
            assert(env_extends(env@, e0));
            self.0.lemma_rep_stable(e0, env@, t0.spec_idx());
            let ixs = elems@.map(|_k: int, tm: Term| tm.spec_idx());
            assert(ixs[0] == t0.spec_idx());
        }
        t
    }

    fn decode(env: &Env, t: Term) -> (r: Result<(A,), TermError>) {
        let elems = match get_tuple(env, t) {
            Ok(v) => v,
            Err(e) => {
                return Err(e);
            },
        };
        if elems.len() != 1 {
            return Err(TermError::BadArg);
        }
        let a = match A::decode(env, elems[0]) {
            Ok(a) => a,
            Err(e) => {
                return Err(e);
            },
        };
        Ok((a,))
    }
}

/// The pair instantiation of the marshalling template.
impl<A: Codec, B: Codec> Codec for (A, B) {
    open spec fn is_rep(&self, env: Seq<SpecTerm>, idx: int) -> bool {
        &&& 0 <= idx < env.len()
        &&& env[idx] matches SpecTerm::Tuple(ixs)
        &&& ixs.len() == 2
        &&& self.0.is_rep(env, ixs[0])
        &&& self.1.is_rep(env, ixs[1])
    }

    open spec fn spec_decode(env: Seq<SpecTerm>, idx: int) -> Option<(A, B)> {
        if 0 <= idx < env.len() {
            match env[idx] {
                SpecTerm::Tuple(ixs) => if ixs.len() == 2 {
                    match (A::spec_decode(env, ixs[0]), B::spec_decode(env, ixs[1])) {
                        (Some(a), Some(b)) => Some((a, b)),
                        _ => None,
                    }
                } else {
                    None
                },
                _ => None,
            }
        } else {
            None
        }
    }

    proof fn lemma_rep_stable(&self, older: Seq<SpecTerm>, newer: Seq<SpecTerm>, idx: int) {
        let ixs = older[idx]->Tuple_0;
        self.0.lemma_rep_stable(older, newer, ixs[0]);
        self.1.lemma_rep_stable(older, newer, ixs[1]);
        assert(newer[idx] == older[idx]);
    }

    proof fn lemma_rep_decodes(&self, env: Seq<SpecTerm>, idx: int) {
        let ixs = env[idx]->Tuple_0;
        self.0.lemma_rep_decodes(env, ixs[0]);
        self.1.lemma_rep_decodes(env, ixs[1]);
        assert((self.0, self.1) == *self);
    }

    fn encode(&self, env: &mut Env) -> (t: Term) {
        let t0 = self.0.encode(env);
        let ghost e0 = env@;
        let t1 = self.1.encode(env);
        let ghost e1 = env@;
        let mut elems: Vec<Term> = Vec::new();
        elems.push(t0);
        elems.push(t1);
        let t = make_tuple(env, elems.as_slice());
        proof {
            assert(env_extends(env@, e1));
            assert(env_extends(env@, e0));
            self.0.lemma_rep_stable(e0, env@, t0.spec_idx());
            self.1.lemma_rep_stable(e1, env@, t1.spec_idx());
            let ixs = elems@.map(|_k: int, tm: Term| tm.spec_idx());
            assert(ixs[0] == t0.spec_idx());
            assert(ixs[1] == t1.spec_idx());
        }
        t
    }

    fn decode(env: &Env, t: Term) -> (r: Result<(A, B), TermError>) {
        let elems = match get_tuple(env, t) {
            Ok(v) => v,
            Err(e) => {
                return Err(e);
            },
        };
        if elems.len() != 2 {
            return Err(TermError::BadArg);
        }
        let a = match A::decode(env, elems[0]) {
            Ok(a) => a,
            Err(e) => {
                return Err(e);
            },
        };
        let b = match B::decode(env, elems[1]) {
            Ok(b) => b,
            Err(e) => {
                return Err(e);
            },
        };
        Ok((a, b))
    }
}

/// The three-element instantiation of the marshalling template.
impl<A: Codec, B: Codec, C: Codec> Codec for (A, B, C) {
    open spec fn is_rep(&self, env: Seq<SpecTerm>, idx: int) -> bool {
        &&& 0 <= idx < env.len()
        &&& env[idx] matches SpecTerm::Tuple(ixs)
        &&& ixs.len() == 3
        &&& self.0.is_rep(env, ixs[0])
        &&& self.1.is_rep(env, ixs[1])
        &&& self.2.is_rep(env, ixs[2])
    }

    open spec fn spec_decode(env: Seq<SpecTerm>, idx: int) -> Option<(A, B, C)> {
        if 0 <= idx < env.len() {
            match env[idx] {
                SpecTerm::Tuple(ixs) => if ixs.len() == 3 {
                    match (A::spec_decode(env, ixs[0]), B::spec_decode(env, ixs[1]), C::spec_decode(env, ixs[2])) {
                        (Some(a), Some(b), Some(c)) => Some((a, b, c)),
                        _ => None,
                    }
                } else {
                    None
                },
                _ => None,
            }
        } else {
            None
        }
    }

    proof fn lemma_rep_stable(&self, older: Seq<SpecTerm>, newer: Seq<SpecTerm>, idx: int) {
        let ixs = older[idx]->Tuple_0;
        self.0.lemma_rep_stable(older, newer, ixs[0]);
        self.1.lemma_rep_stable(older, newer, ixs[1]);
        self.2.lemma_rep_stable(older, newer, ixs[2]);
        assert(newer[idx] == older[idx]);
    }

    proof fn lemma_rep_decodes(&self, env: Seq<SpecTerm>, idx: int) {
        let ixs = env[idx]->Tuple_0;
        self.0.lemma_rep_decodes(env, ixs[0]);
        self.1.lemma_rep_decodes(env, ixs[1]);
        self.2.lemma_rep_decodes(env, ixs[2]);
        assert((self.0, self.1, self.2) == *self);
    }

    fn encode(&self, env: &mut Env) -> (t: Term) {
        let t0 = self.0.encode(env);
        let ghost e0 = env@;
        let t1 = self.1.encode(env);
        let ghost e1 = env@;
        let t2 = self.2.encode(env);
        let ghost e2 = env@;
        let mut elems: Vec<Term> = Vec::new();
        elems.push(t0);
        elems.push(t1);
        elems.push(t2);
        let t = make_tuple(env, elems.as_slice());
        proof {
            assert(env_extends(env@, e2));
            assert(env_extends(env@, e1));
            assert(env_extends(env@, e0));
            self.0.lemma_rep_stable(e0, env@, t0.spec_idx());
            self.1.lemma_rep_stable(e1, env@, t1.spec_idx());
            self.2.lemma_rep_stable(e2, env@, t2.spec_idx());
            let ixs = elems@.map(|_k: int, tm: Term| tm.spec_idx());
            assert(ixs[0] == t0.spec_idx());
            assert(ixs[1] == t1.spec_idx());
            assert(ixs[2] == t2.spec_idx());
        }
        t
    }

    fn decode(env: &Env, t: Term) -> (r: Result<(A, B, C), TermError>) {
        let elems = match get_tuple(env, t) {
            Ok(v) => v,
            Err(e) => {
                return Err(e);
            },
        };
        if elems.len() != 3 {
            return Err(TermError::BadArg);
        }
        let a = match A::decode(env, elems[0]) {
            Ok(a) => a,
            Err(e) => {
                return Err(e);
            },
        };
        let b = match B::decode(env, elems[1]) {
            Ok(b) => b,
            Err(e) => {
                return Err(e);
            },
        };
        let c = match C::decode(env, elems[2]) {
            Ok(c) => c,
            Err(e) => {
                return Err(e);
            },
        };
        Ok((a, b, c))
    }
}

/// The four-element instantiation of the marshalling template.
impl<A: Codec, B: Codec, C: Codec, D: Codec> Codec for (A, B, C, D) {
    open spec fn is_rep(&self, env: Seq<SpecTerm>, idx: int) -> bool {
        &&& 0 <= idx < env.len()
        &&& env[idx] matches SpecTerm::Tuple(ixs)
        &&& ixs.len() == 4
        &&& self.0.is_rep(env, ixs[0])
        &&& self.1.is_rep(env, ixs[1])
        &&& self.2.is_rep(env, ixs[2])
        &&& self.3.is_rep(env, ixs[3])
    }

    open spec fn spec_decode(env: Seq<SpecTerm>, idx: int) -> Option<(A, B, C, D)> {
        if 0 <= idx < env.len() {
            match env[idx] {
                SpecTerm::Tuple(ixs) => if ixs.len() == 4 {
                    match (A::spec_decode(env, ixs[0]), B::spec_decode(env, ixs[1]), C::spec_decode(env, ixs[2]), D::spec_decode(env, ixs[3])) {
                        (Some(a), Some(b), Some(c), Some(d)) => Some((a, b, c, d)),
                        _ => None,
                    }
                } else {
                    None
                },
                _ => None,
            }
        } else {
            None
        }
    }

    proof fn lemma_rep_stable(&self, older: Seq<SpecTerm>, newer: Seq<SpecTerm>, idx: int) {
        let ixs = older[idx]->Tuple_0;
        self.0.lemma_rep_stable(older, newer, ixs[0]);
        self.1.lemma_rep_stable(older, newer, ixs[1]);
        self.2.lemma_rep_stable(older, newer, ixs[2]);
        self.3.lemma_rep_stable(older, newer, ixs[3]);
        assert(newer[idx] == older[idx]);
    }

    proof fn lemma_rep_decodes(&self, env: Seq<SpecTerm>, idx: int) {
        let ixs = env[idx]->Tuple_0;
        self.0.lemma_rep_decodes(env, ixs[0]);
        self.1.lemma_rep_decodes(env, ixs[1]);
        self.2.lemma_rep_decodes(env, ixs[2]);
        self.3.lemma_rep_decodes(env, ixs[3]);
        assert((self.0, self.1, self.2, self.3) == *self);
    }

    fn encode(&self, env: &mut Env) -> (t: Term) {
        let t0 = self.0.encode(env);
        let ghost e0 = env@;
        let t1 = self.1.encode(env);
        let ghost e1 = env@;
        let t2 = self.2.encode(env);
        let ghost e2 = env@;
        let t3 = self.3.encode(env);
        let ghost e3 = env@;
        let mut elems: Vec<Term> = Vec::new();
        elems.push(t0);
        elems.push(t1);
        elems.push(t2);
        elems.push(t3);
        let t = make_tuple(env, elems.as_slice());
        proof {
            assert(env_extends(env@, e3));
            assert(env_extends(env@, e2));
            assert(env_extends(env@, e1));
            assert(env_extends(env@, e0));
            self.0.lemma_rep_stable(e0, env@, t0.spec_idx());
            self.1.lemma_rep_stable(e1, env@, t1.spec_idx());
            self.2.lemma_rep_stable(e2, env@, t2.spec_idx());
            self.3.lemma_rep_stable(e3, env@, t3.spec_idx());
            let ixs = elems@.map(|_k: int, tm: Term| tm.spec_idx());
            assert(ixs[0] == t0.spec_idx());
            assert(ixs[1] == t1.spec_idx());
            assert(ixs[2] == t2.spec_idx());
            assert(ixs[3] == t3.spec_idx());
        }
        t
    }

    fn decode(env: &Env, t: Term) -> (r: Result<(A, B, C, D), TermError>) {
        let elems = match get_tuple(env, t) {
            Ok(v) => v,
            Err(e) => {
                return Err(e);
            },
        };
        if elems.len() != 4 {
            return Err(TermError::BadArg);
        }
        let a = match A::decode(env, elems[0]) {
            Ok(a) => a,
            Err(e) => {
                return Err(e);
            },
        };
        let b = match B::decode(env, elems[1]) {
            Ok(b) => b,
            Err(e) => {
                return Err(e);
            },
        };
        let c = match C::decode(env, elems[2]) {
            Ok(c) => c,
            Err(e) => {
                return Err(e);
            },
        };
        let d = match D::decode(env, elems[3]) {
            Ok(d) => d,
            Err(e) => {
                return Err(e);
            },
        };
        Ok((a, b, c, d))
    }
}

/// The five-element instantiation of the marshalling template.
impl<A: Codec, B: Codec, C: Codec, D: Codec, E: Codec> Codec for (A, B, C, D, E) {
    open spec fn is_rep(&self, env: Seq<SpecTerm>, idx: int) -> bool {
        &&& 0 <= idx < env.len()
        &&& env[idx] matches SpecTerm::Tuple(ixs)
        &&& ixs.len() == 5
        &&& self.0.is_rep(env, ixs[0])
        &&& self.1.is_rep(env, ixs[1])
        &&& self.2.is_rep(env, ixs[2])
        &&& self.3.is_rep(env, ixs[3])
        &&& self.4.is_rep(env, ixs[4])
    }

    open spec fn spec_decode(env: Seq<SpecTerm>, idx: int) -> Option<(A, B, C, D, E)> {
        if 0 <= idx < env.len() {
            match env[idx] {
                SpecTerm::Tuple(ixs) => if ixs.len() == 5 {
                    match (A::spec_decode(env, ixs[0]), B::spec_decode(env, ixs[1]), C::spec_decode(env, ixs[2]), D::spec_decode(env, ixs[3]), E::spec_decode(env, ixs[4])) {
                        (Some(a), Some(b), Some(c), Some(d), Some(e)) => Some((a, b, c, d, e)),
                        _ => None,
                    }
                } else {
                    None
                },
                _ => None,
            }
        } else {
            None
        }
    }

    proof fn lemma_rep_stable(&self, older: Seq<SpecTerm>, newer: Seq<SpecTerm>, idx: int) {
        let ixs = older[idx]->Tuple_0;
        self.0.lemma_rep_stable(older, newer, ixs[0]);
        self.1.lemma_rep_stable(older, newer, ixs[1]);
        self.2.lemma_rep_stable(older, newer, ixs[2]);
        self.3.lemma_rep_stable(older, newer, ixs[3]);
        self.4.lemma_rep_stable(older, newer, ixs[4]);
        assert(newer[idx] == older[idx]);
    }

    proof fn lemma_rep_decodes(&self, env: Seq<SpecTerm>, idx: int) {
        let ixs = env[idx]->Tuple_0;
        self.0.lemma_rep_decodes(env, ixs[0]);
        self.1.lemma_rep_decodes(env, ixs[1]);
        self.2.lemma_rep_decodes(env, ixs[2]);
        self.3.lemma_rep_decodes(env, ixs[3]);
        self.4.lemma_rep_decodes(env, ixs[4]);
        assert((self.0, self.1, self.2, self.3, self.4) == *self);
    }

    fn encode(&self, env: &mut Env) -> (t: Term) {
        let t0 = self.0.encode(env);
        let ghost e0 = env@;
        let t1 = self.1.encode(env);
        let ghost e1 = env@;
        let t2 = self.2.encode(env);
        let ghost e2 = env@;
        let t3 = self.3.encode(env);
        let ghost e3 = env@;
        let t4 = self.4.encode(env);
        let ghost e4 = env@;
        let mut elems: Vec<Term> = Vec::new();
        elems.push(t0);
        elems.push(t1);
        elems.push(t2);
        elems.push(t3);
        elems.push(t4);
        let t = make_tuple(env, elems.as_slice());
        proof {
            assert(env_extends(env@, e4));
            assert(env_extends(env@, e3));
            assert(env_extends(env@, e2));
            assert(env_extends(env@, e1));
            assert(env_extends(env@, e0));
            self.0.lemma_rep_stable(e0, env@, t0.spec_idx());
            self.1.lemma_rep_stable(e1, env@, t1.spec_idx());
            self.2.lemma_rep_stable(e2, env@, t2.spec_idx());
            self.3.lemma_rep_stable(e3, env@, t3.spec_idx());
            self.4.lemma_rep_stable(e4, env@, t4.spec_idx());
            let ixs = elems@.map(|_k: int, tm: Term| tm.spec_idx());
            assert(ixs[0] == t0.spec_idx());
            assert(ixs[1] == t1.spec_idx());
            assert(ixs[2] == t2.spec_idx());
            assert(ixs[3] == t3.spec_idx());
            assert(ixs[4] == t4.spec_idx());
        }
        t
    }

    fn decode(env: &Env, t: Term) -> (r: Result<(A, B, C, D, E), TermError>) {
        let elems = match get_tuple(env, t) {
            Ok(v) => v,
            Err(e) => {
                return Err(e);
            },
        };
        if elems.len() != 5 {
            return Err(TermError::BadArg);
        }
        let a = match A::decode(env, elems[0]) {
            Ok(a) => a,
            Err(e) => {
                return Err(e);
            },
        };
        let b = match B::decode(env, elems[1]) {
            Ok(b) => b,
            Err(e) => {
                return Err(e);
            },
        };
        let c = match C::decode(env, elems[2]) {
            Ok(c) => c,
            Err(e) => {
                return Err(e);
            },
        };
        let d = match D::decode(env, elems[3]) {
            Ok(d) => d,
            Err(e) => {
                return Err(e);
            },
        };
        let e = match E::decode(env, elems[4]) {
            Ok(e) => e,
            Err(e) => {
                return Err(e);
            },
        };
        Ok((a, b, c, d, e))
    }
}

/// The six-element instantiation of the marshalling template.
impl<A: Codec, B: Codec, C: Codec, D: Codec, E: Codec, F: Codec> Codec for (A, B, C, D, E, F) {
    open spec fn is_rep(&self, env: Seq<SpecTerm>, idx: int) -> bool {
        &&& 0 <= idx < env.len()
        &&& env[idx] matches SpecTerm::Tuple(ixs)
        &&& ixs.len() == 6
        &&& self.0.is_rep(env, ixs[0])
        &&& self.1.is_rep(env, ixs[1])
        &&& self.2.is_rep(env, ixs[2])
        &&& self.3.is_rep(env, ixs[3])
        &&& self.4.is_rep(env, ixs[4])
        &&& self.5.is_rep(env, ixs[5])
    }

    open spec fn spec_decode(env: Seq<SpecTerm>, idx: int) -> Option<(A, B, C, D, E, F)> {
        if 0 <= idx < env.len() {
            match env[idx] {
                SpecTerm::Tuple(ixs) => if ixs.len() == 6 {
                    match (A::spec_decode(env, ixs[0]), B::spec_decode(env, ixs[1]), C::spec_decode(env, ixs[2]), D::spec_decode(env, ixs[3]), E::spec_decode(env, ixs[4]), F::spec_decode(env, ixs[5])) {
                        (Some(a), Some(b), Some(c), Some(d), Some(e), Some(f)) => Some((a, b, c, d, e, f)),
                        _ => None,
                    }
                } else {
                    None
                },
                _ => None,
            }
        } else {
            None
        }
    }

    proof fn lemma_rep_stable(&self, older: Seq<SpecTerm>, newer: Seq<SpecTerm>, idx: int) {
        let ixs = older[idx]->Tuple_0;
        self.0.lemma_rep_stable(older, newer, ixs[0]);
        self.1.lemma_rep_stable(older, newer, ixs[1]);
        self.2.lemma_rep_stable(older, newer, ixs[2]);
        self.3.lemma_rep_stable(older, newer, ixs[3]);
        self.4.lemma_rep_stable(older, newer, ixs[4]);
        self.5.lemma_rep_stable(older, newer, ixs[5]);
        assert(newer[idx] == older[idx]);
    }

    proof fn lemma_rep_decodes(&self, env: Seq<SpecTerm>, idx: int) {
        let ixs = env[idx]->Tuple_0;
        self.0.lemma_rep_decodes(env, ixs[0]);
        self.1.lemma_rep_decodes(env, ixs[1]);
        self.2.lemma_rep_decodes(env, ixs[2]);
        self.3.lemma_rep_decodes(env, ixs[3]);
        self.4.lemma_rep_decodes(env, ixs[4]);
        self.5.lemma_rep_decodes(env, ixs[5]);
        assert((self.0, self.1, self.2, self.3, self.4, self.5) == *self);
    }

    fn encode(&self, env: &mut Env) -> (t: Term) {
        let t0 = self.0.encode(env);
        let ghost e0 = env@;
        let t1 = self.1.encode(env);
        let ghost e1 = env@;
        let t2 = self.2.encode(env);
        let ghost e2 = env@;
        let t3 = self.3.encode(env);
        let ghost e3 = env@;
        let t4 = self.4.encode(env);
        let ghost e4 = env@;
        let t5 = self.5.encode(env);
        let ghost e5 = env@;
        let mut elems: Vec<Term> = Vec::new();
        elems.push(t0);
        elems.push(t1);
        elems.push(t2);
        elems.push(t3);
        elems.push(t4);
        elems.push(t5);
        let t = make_tuple(env, elems.as_slice());
        proof {
            assert(env_extends(env@, e5));
            assert(env_extends(env@, e4));
            assert(env_extends(env@, e3));
            assert(env_extends(env@, e2));
            assert(env_extends(env@, e1));
            assert(env_extends(env@, e0));
            self.0.lemma_rep_stable(e0, env@, t0.spec_idx());
            self.1.lemma_rep_stable(e1, env@, t1.spec_idx());
            self.2.lemma_rep_stable(e2, env@, t2.spec_idx());
            self.3.lemma_rep_stable(e3, env@, t3.spec_idx());
            self.4.lemma_rep_stable(e4, env@, t4.spec_idx());
            self.5.lemma_rep_stable(e5, env@, t5.spec_idx());
            let ixs = elems@.map(|_k: int, tm: Term| tm.spec_idx());
            assert(ixs[0] == t0.spec_idx());
            assert(ixs[1] == t1.spec_idx());
            assert(ixs[2] == t2.spec_idx());
            assert(ixs[3] == t3.spec_idx());
            assert(ixs[4] == t4.spec_idx());
            assert(ixs[5] == t5.spec_idx());
        }
        t
    }

    fn decode(env: &Env, t: Term) -> (r: Result<(A, B, C, D, E, F), TermError>) {
        let elems = match get_tuple(env, t) {
            Ok(v) => v,
            Err(e) => {
                return Err(e);
            },
        };
        if elems.len() != 6 {
            return Err(TermError::BadArg);
        }
        let a = match A::decode(env, elems[0]) {
            Ok(a) => a,
            Err(e) => {
                return Err(e);
            },
        };
        let b = match B::decode(env, elems[1]) {
            Ok(b) => b,
            Err(e) => {
                return Err(e);
            },
        };
        let c = match C::decode(env, elems[2]) {
            Ok(c) => c,
            Err(e) => {
                return Err(e);
            },
        };
        let d = match D::decode(env, elems[3]) {
            Ok(d) => d,
            Err(e) => {
                return Err(e);
            },
        };
        let e = match E::decode(env, elems[4]) {
            Ok(e) => e,
            Err(e) => {
                return Err(e);
            },
        };
        let f = match F::decode(env, elems[5]) {
            Ok(f) => f,
            Err(e) => {
                return Err(e);
            },
        };
        Ok((a, b, c, d, e, f))
    }
}

/// The seven-element instantiation of the marshalling template.
impl<A: Codec, B: Codec, C: Codec, D: Codec, E: Codec, F: Codec, G: Codec> Codec for (A, B, C, D, E, F, G) {
    open spec fn is_rep(&self, env: Seq<SpecTerm>, idx: int) -> bool {
        &&& 0 <= idx < env.len()
        &&& env[idx] matches SpecTerm::Tuple(ixs)
        &&& ixs.len() == 7
        &&& self.0.is_rep(env, ixs[0])
        &&& self.1.is_rep(env, ixs[1])
        &&& self.2.is_rep(env, ixs[2])
        &&& self.3.is_rep(env, ixs[3])
        &&& self.4.is_rep(env, ixs[4])
        &&& self.5.is_rep(env, ixs[5])
        &&& self.6.is_rep(env, ixs[6])
    }

    open spec fn spec_decode(env: Seq<SpecTerm>, idx: int) -> Option<(A, B, C, D, E, F, G)> {
        if 0 <= idx < env.len() {
            match env[idx] {
                SpecTerm::Tuple(ixs) => if ixs.len() == 7 {
                    match (A::spec_decode(env, ixs[0]), B::spec_decode(env, ixs[1]), C::spec_decode(env, ixs[2]), D::spec_decode(env, ixs[3]), E::spec_decode(env, ixs[4]), F::spec_decode(env, ixs[5]), G::spec_decode(env, ixs[6])) {
                        (Some(a), Some(b), Some(c), Some(d), Some(e), Some(f), Some(g)) => Some((a, b, c, d, e, f, g)),
                        _ => None,
                    }
                } else {
                    None
                },
                _ => None,
            }
        } else {
            None
        }
    }

    proof fn lemma_rep_stable(&self, older: Seq<SpecTerm>, newer: Seq<SpecTerm>, idx: int) {
        let ixs = older[idx]->Tuple_0;
        self.0.lemma_rep_stable(older, newer, ixs[0]);
        self.1.lemma_rep_stable(older, newer, ixs[1]);
        self.2.lemma_rep_stable(older, newer, ixs[2]);
        self.3.lemma_rep_stable(older, newer, ixs[3]);
        self.4.lemma_rep_stable(older, newer, ixs[4]);
        self.5.lemma_rep_stable(older, newer, ixs[5]);
        self.6.lemma_rep_stable(older, newer, ixs[6]);
        assert(newer[idx] == older[idx]);
    }

    proof fn lemma_rep_decodes(&self, env: Seq<SpecTerm>, idx: int) {
        let ixs = env[idx]->Tuple_0;
        self.0.lemma_rep_decodes(env, ixs[0]);
        self.1.lemma_rep_decodes(env, ixs[1]);
        self.2.lemma_rep_decodes(env, ixs[2]);
        self.3.lemma_rep_decodes(env, ixs[3]);
        self.4.lemma_rep_decodes(env, ixs[4]);
        self.5.lemma_rep_decodes(env, ixs[5]);
        self.6.lemma_rep_decodes(env, ixs[6]);
        assert((self.0, self.1, self.2, self.3, self.4, self.5, self.6) == *self);
    }

    fn encode(&self, env: &mut Env) -> (t: Term) {
        let t0 = self.0.encode(env);
        let ghost e0 = env@;
        let t1 = self.1.encode(env);
        let ghost e1 = env@;
        let t2 = self.2.encode(env);
        let ghost e2 = env@;
        let t3 = self.3.encode(env);
        let ghost e3 = env@;
        let t4 = self.4.encode(env);
        let ghost e4 = env@;
        let t5 = self.5.encode(env);
        let ghost e5 = env@;
        let t6 = self.6.encode(env);
        let ghost e6 = env@;
        let mut elems: Vec<Term> = Vec::new();
        elems.push(t0);
        elems.push(t1);
        elems.push(t2);
        elems.push(t3);
        elems.push(t4);
        elems.push(t5);
        elems.push(t6);
        let t = make_tuple(env, elems.as_slice());
        proof {
            assert(env_extends(env@, e6));
            assert(env_extends(env@, e5));
            assert(env_extends(env@, e4));
            assert(env_extends(env@, e3));
            assert(env_extends(env@, e2));
            assert(env_extends(env@, e1));
            assert(env_extends(env@, e0));
            self.0.lemma_rep_stable(e0, env@, t0.spec_idx());
            self.1.lemma_rep_stable(e1, env@, t1.spec_idx());
            self.2.lemma_rep_stable(e2, env@, t2.spec_idx());
            self.3.lemma_rep_stable(e3, env@, t3.spec_idx());
            self.4.lemma_rep_stable(e4, env@, t4.spec_idx());
            self.5.lemma_rep_stable(e5, env@, t5.spec_idx());
            self.6.lemma_rep_stable(e6, env@, t6.spec_idx());
            let ixs = elems@.map(|_k: int, tm: Term| tm.spec_idx());
            assert(ixs[0] == t0.spec_idx());
            assert(ixs[1] == t1.spec_idx());
            assert(ixs[2] == t2.spec_idx());
            assert(ixs[3] == t3.spec_idx());
            assert(ixs[4] == t4.spec_idx());
            assert(ixs[5] == t5.spec_idx());
            assert(ixs[6] == t6.spec_idx());
        }
        t
    }

    fn decode(env: &Env, t: Term) -> (r: Result<(A, B, C, D, E, F, G), TermError>) {
        let elems = match get_tuple(env, t) {
            Ok(v) => v,
            Err(e) => {
                return Err(e);
            },
        };
        if elems.len() != 7 {
            return Err(TermError::BadArg);
        }
        let a = match A::decode(env, elems[0]) {
            Ok(a) => a,
            Err(e) => {
                return Err(e);
            },
        };
        let b = match B::decode(env, elems[1]) {
            Ok(b) => b,
            Err(e) => {
                return Err(e);
            },
        };
        let c = match C::decode(env, elems[2]) {
            Ok(c) => c,
            Err(e) => {
                return Err(e);
            },
        };
        let d = match D::decode(env, elems[3]) {
            Ok(d) => d,
            Err(e) => {
                return Err(e);
            },
        };
        let e = match E::decode(env, elems[4]) {
            Ok(e) => e,
            Err(e) => {
                return Err(e);
            },
        };
        let f = match F::decode(env, elems[5]) {
            Ok(f) => f,
            Err(e) => {
                return Err(e);
            },
        };
        let g = match G::decode(env, elems[6]) {
            Ok(g) => g,
            Err(e) => {
                return Err(e);
            },
        };
        Ok((a, b, c, d, e, f, g))
    }
}

/// The encoding of the empty tuple always decomposes back into the empty
/// element list.
pub proof fn lemma_empty_tuple_identity(u: (), env: Seq<SpecTerm>, idx: int)
    requires
        u.is_rep(env, idx),
    ensures
        tuple_indices(env, idx) == Some(Seq::<int>::empty()),
{
    let ixs = env[idx]->Tuple_0;
    assert(ixs =~= Seq::<int>::empty());
}

/// Typed decode at arity zero succeeds exactly on the empty tuple term: a
/// term of any other shape, a tuple of any other arity included, is
/// rejected.
pub proof fn lemma_decode0_exact(env: Seq<SpecTerm>, idx: int)
    ensures
        <() as Codec>::spec_decode(env, idx) is Some <==> ({
            &&& 0 <= idx < env.len()
            &&& tuple_indices(env, idx) matches Some(ixs)
            &&& ixs.len() == 0
        }),
{
}

/// Typed decode at arity one succeeds exactly on a tuple term of arity one
/// whose element decodes: any other shape or arity is rejected, and a
/// failing element fails the whole tuple.
pub proof fn lemma_decode1_exact<A: Codec>(env: Seq<SpecTerm>, idx: int)
    ensures
        <(A,) as Codec>::spec_decode(env, idx) is Some <==> ({
            &&& 0 <= idx < env.len()
            &&& tuple_indices(env, idx) matches Some(ixs)
            &&& ixs.len() == 1
            &&& A::spec_decode(env, ixs[0]) is Some
        }),
{
}

/// Typed decode at arity two succeeds exactly on a tuple term of arity two
/// whose every element decodes at its position: any other shape or arity
/// is rejected, and one failing element fails the whole tuple, whatever
/// the other elements hold.
pub proof fn lemma_decode2_exact<A: Codec, B: Codec>(env: Seq<SpecTerm>, idx: int)
    ensures
        <(A, B) as Codec>::spec_decode(env, idx) is Some <==> ({
            &&& 0 <= idx < env.len()
            &&& tuple_indices(env, idx) matches Some(ixs)
            &&& ixs.len() == 2
            &&& A::spec_decode(env, ixs[0]) is Some
            &&& B::spec_decode(env, ixs[1]) is Some
        }),
{
}

/// Typed decode at arity three succeeds exactly on a tuple term of that
/// arity whose every element decodes at its position: any other shape or
/// arity is rejected, and one failing element fails the whole tuple,
/// whatever the other elements hold.
pub proof fn lemma_decode3_exact<A: Codec, B: Codec, C: Codec>(env: Seq<SpecTerm>, idx: int)
    ensures
        <(A, B, C) as Codec>::spec_decode(env, idx) is Some <==> ({
            &&& 0 <= idx < env.len()
            &&& tuple_indices(env, idx) matches Some(ixs)
            &&& ixs.len() == 3
            &&& A::spec_decode(env, ixs[0]) is Some
            &&& B::spec_decode(env, ixs[1]) is Some
            &&& C::spec_decode(env, ixs[2]) is Some
        }),
{
}

/// Typed decode at arity four succeeds exactly on a tuple term of that
/// arity whose every element decodes at its position: any other shape or
/// arity is rejected, and one failing element fails the whole tuple,
/// whatever the other elements hold.
pub proof fn lemma_decode4_exact<A: Codec, B: Codec, C: Codec, D: Codec>(env: Seq<SpecTerm>, idx: int)
    ensures
        <(A, B, C, D) as Codec>::spec_decode(env, idx) is Some <==> ({
            &&& 0 <= idx < env.len()
            &&& tuple_indices(env, idx) matches Some(ixs)
            &&& ixs.len() == 4
            &&& A::spec_decode(env, ixs[0]) is Some
            &&& B::spec_decode(env, ixs[1]) is Some
            &&& C::spec_decode(env, ixs[2]) is Some
            &&& D::spec_decode(env, ixs[3]) is Some
        }),
{
}

/// Typed decode at arity five succeeds exactly on a tuple term of that
/// arity whose every element decodes at its position: any other shape or
/// arity is rejected, and one failing element fails the whole tuple,
/// whatever the other elements hold.
pub proof fn lemma_decode5_exact<A: Codec, B: Codec, C: Codec, D: Codec, E: Codec>(env: Seq<SpecTerm>, idx: int)
    ensures
        <(A, B, C, D, E) as Codec>::spec_decode(env, idx) is Some <==> ({
            &&& 0 <= idx < env.len()
            &&& tuple_indices(env, idx) matches Some(ixs)
            &&& ixs.len() == 5
            &&& A::spec_decode(env, ixs[0]) is Some
            &&& B::spec_decode(env, ixs[1]) is Some
            &&& C::spec_decode(env, ixs[2]) is Some
            &&& D::spec_decode(env, ixs[3]) is Some
            &&& E::spec_decode(env, ixs[4]) is Some
        }),
{
}

/// Typed decode at arity six succeeds exactly on a tuple term of that
/// arity whose every element decodes at its position: any other shape or
/// arity is rejected, and one failing element fails the whole tuple,
/// whatever the other elements hold.
pub proof fn lemma_decode6_exact<A: Codec, B: Codec, C: Codec, D: Codec, E: Codec, F: Codec>(env: Seq<SpecTerm>, idx: int)
    ensures
        <(A, B, C, D, E, F) as Codec>::spec_decode(env, idx) is Some <==> ({
            &&& 0 <= idx < env.len()
            &&& tuple_indices(env, idx) matches Some(ixs)
            &&& ixs.len() == 6
            &&& A::spec_decode(env, ixs[0]) is Some
            &&& B::spec_decode(env, ixs[1]) is Some
            &&& C::spec_decode(env, ixs[2]) is Some
            &&& D::spec_decode(env, ixs[3]) is Some
            &&& E::spec_decode(env, ixs[4]) is Some
            &&& F::spec_decode(env, ixs[5]) is Some
        }),
{
}

/// Typed decode at arity seven succeeds exactly on a tuple term of that
/// arity whose every element decodes at its position: any other shape or
/// arity is rejected, and one failing element fails the whole tuple,
/// whatever the other elements hold.
pub proof fn lemma_decode7_exact<A: Codec, B: Codec, C: Codec, D: Codec, E: Codec, F: Codec, G: Codec>(env: Seq<SpecTerm>, idx: int)
    ensures
        <(A, B, C, D, E, F, G) as Codec>::spec_decode(env, idx) is Some <==> ({
            &&& 0 <= idx < env.len()
            &&& tuple_indices(env, idx) matches Some(ixs)
            &&& ixs.len() == 7
            &&& A::spec_decode(env, ixs[0]) is Some
            &&& B::spec_decode(env, ixs[1]) is Some
            &&& C::spec_decode(env, ixs[2]) is Some
            &&& D::spec_decode(env, ixs[3]) is Some
            &&& E::spec_decode(env, ixs[4]) is Some
            &&& F::spec_decode(env, ixs[5]) is Some
            &&& G::spec_decode(env, ixs[6]) is Some
        }),
{
}

} // verus!
