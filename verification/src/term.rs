//! The term model: an environment owning an arena of tagged terms, opaque
//! handles into that arena, and the leaf shape operations that compose an
//! ordered list of handles into a tuple term and decompose a tuple term
//! back into its ordered element handles.

use vstd::prelude::*;

verus! {

/// A term as specifications see it. Composite terms name their elements by
/// arena slot, in order.
#[verifier::ext_equal]
pub enum SpecTerm {
    /// A signed machine integer.
    Int(int),
    /// An atom, named by its index in the runtime's atom table.
    Atom(nat),
    /// A fixed-arity ordered aggregate of other terms, by arena slot.
    Tuple(Seq<int>),
    /// An ordered list of other terms, by arena slot.
    List(Seq<int>),
}

/// The arena slots a term refers to: the elements of a tuple or list,
/// nothing for a scalar.
pub open spec fn term_children(t: SpecTerm) -> Seq<int> {
    match t {
        SpecTerm::Tuple(ixs) => ixs,
        SpecTerm::List(ixs) => ixs,
        _ => Seq::empty(),
    }
}

/// Every slot an arena term refers to lies inside the arena.
pub open spec fn env_wf(env: Seq<SpecTerm>) -> bool {
    forall|i: int, k: int|
        0 <= i < env.len() && 0 <= k < term_children(env[i]).len()
            ==> 0 <= #[trigger] term_children(env[i])[k] < env.len()
}

/// The element slots of the term at `i`, when that term is a tuple.
pub open spec fn tuple_indices(env: Seq<SpecTerm>, i: int) -> Option<Seq<int>> {
    match env[i] {
        SpecTerm::Tuple(ixs) => Some(ixs),
        _ => None,
    }
}

/// The one failure this layer reports: the term did not have the requested
/// shape. A term that is no tuple at all and a tuple of the wrong arity
/// both fold into this single condition, as do element-level decode
/// failures propagated from the per-type capability.
#[derive(Clone, Copy, PartialEq, Eq, Debug)]
pub enum TermError {
    /// The argument's shape or type did not match what was requested.
    BadArg,
}

/// The stored form of one arena term.
enum TermData {
    Int(i64),
    Atom(u64),
    Tuple(Vec<usize>),
    List(Vec<usize>),
}

/// A sequence of stored arena slots, as the slot numbers it names.
spec fn slots_view(ixs: Seq<usize>) -> Seq<int> {
    ixs.map(|_k: int, x: usize| x as int)
}

impl View for TermData {
    type V = SpecTerm;

    closed spec fn view(&self) -> SpecTerm {
        match self {
            TermData::Int(v) => SpecTerm::Int(*v as int),
            TermData::Atom(a) => SpecTerm::Atom(*a as nat),
            TermData::Tuple(ixs) => SpecTerm::Tuple(slots_view(ixs@)),
            TermData::List(ixs) => SpecTerm::List(slots_view(ixs@)),
        }
    }
}

/// An opaque handle to one term of one environment. It carries no type
/// information: the shape of the term it names is discovered only by
/// inspecting it through the environment.
#[derive(Clone, Copy, PartialEq, Eq, Structural, Debug)]
pub struct Term {
    env_id: u64,
    idx: usize,
}

impl Term {
    /// The environment this handle belongs to.
    pub closed spec fn spec_env_id(&self) -> u64 {
        self.env_id
    }

    /// The arena slot this handle names.
    pub closed spec fn spec_idx(&self) -> int {
        self.idx as int
    }

    /// The handle names a slot of this environment's arena. Every operation
    /// demands this of the handles it is given: a handle may not be used
    /// with an environment other than its own.
    pub open spec fn valid_in(&self, env: &Env) -> bool {
        self.spec_env_id() == env.spec_id() && 0 <= self.spec_idx() < env@.len()
    }
}

/// An environment: the scope that owns an arena of terms. All handles a
/// single operation consumes or produces belong to one environment.
pub struct Env {
    id: u64,
    terms: Vec<TermData>,
}

impl View for Env {
    type V = Seq<SpecTerm>;

    closed spec fn view(&self) -> Seq<SpecTerm> {
        self.terms@.map(|_k: int, td: TermData| td@)
    }
}

impl Env {
    /// The identity distinguishing this environment from every other.
    pub closed spec fn spec_id(&self) -> u64 {
        self.id
    }

    /// The arena never refers outside itself.
    pub open spec fn wf(&self) -> bool {
        env_wf(self@)
    }

    /// A fresh, empty environment under the given identity.
    pub fn new(id: u64) -> (e: Env)
        ensures
            e.wf(),
            e@ == Seq::<SpecTerm>::empty(),
            e.spec_id() == id,
    {
        let e = Env { id, terms: Vec::new() };
        proof {
            assert(e@ =~= Seq::<SpecTerm>::empty());
        }
        e
    }
}

/// Append one term to the arena and hand back its handle.
fn push_term(env: &mut Env, d: TermData) -> (t: Term)
    requires
        old(env).wf(),
        forall|k: int|
            0 <= k < term_children(d@).len() ==> 0 <= #[trigger] term_children(d@)[k] < old(
                env,
            )@.len(),
    ensures
        final(env).wf(),
        final(env).spec_id() == old(env).spec_id(),
        final(env)@ == old(env)@.push(d@),
        t.spec_env_id() == old(env).spec_id(),
        t.spec_idx() == old(env)@.len(),
        t.valid_in(final(env)),
{
    let t = Term { env_id: env.id, idx: env.terms.len() };
    let ghost pushed = d@;
    env.terms.push(d);
    proof {
        assert(env@ =~= old(env)@.push(pushed));
        assert forall|i: int, k: int|
            0 <= i < env@.len() && 0 <= k < term_children(env@[i]).len() implies 0 <= #[trigger]
            term_children(env@[i])[k] < env@.len() by {
            if i < old(env)@.len() {
                assert(env@[i] == old(env)@[i]);
                assert(0 <= term_children(old(env)@[i])[k] < old(env)@.len());
            } else {
                assert(env@[i] == pushed);
            }
        }
    }
    t
}

/// Allocate an integer term.
pub fn make_int(env: &mut Env, v: i64) -> (t: Term)
    requires
        old(env).wf(),
    ensures
        final(env).wf(),
        final(env).spec_id() == old(env).spec_id(),
        final(env)@ == old(env)@.push(SpecTerm::Int(v as int)),
        t.spec_env_id() == old(env).spec_id(),
        t.spec_idx() == old(env)@.len(),
        t.valid_in(final(env)),
{
    push_term(env, TermData::Int(v))
}

/// Allocate an atom term for the atom-table index `a`.
pub fn make_atom(env: &mut Env, a: u64) -> (t: Term)
    requires
        old(env).wf(),
    ensures
        final(env).wf(),
        final(env).spec_id() == old(env).spec_id(),
        final(env)@ == old(env)@.push(SpecTerm::Atom(a as nat)),
        t.spec_env_id() == old(env).spec_id(),
        t.spec_idx() == old(env)@.len(),
        t.valid_in(final(env)),
{
    push_term(env, TermData::Atom(a))
}

/// Read an integer term back. Fails on a term of any other shape.
pub fn get_int(env: &Env, term: Term) -> (r: Result<i64, TermError>)
    requires
        term.valid_in(env),
    ensures
        match r {
            Ok(v) => env@[term.spec_idx()] == SpecTerm::Int(v as int),
            Err(e) => !(env@[term.spec_idx()] is Int) && e == TermError::BadArg,
        },
{
    match &env.terms[term.idx] {
        TermData::Int(v) => Ok(*v),
        _ => Err(TermError::BadArg),
    }
}

/// Read an atom term's atom-table index back. Fails on a term of any other
/// shape.
pub fn get_atom(env: &Env, term: Term) -> (r: Result<u64, TermError>)
    requires
        term.valid_in(env),
    ensures
        match r {
            Ok(a) => env@[term.spec_idx()] == SpecTerm::Atom(a as nat),
            Err(e) => !(env@[term.spec_idx()] is Atom) && e == TermError::BadArg,
        },
{
    match &env.terms[term.idx] {
        TermData::Atom(a) => Ok(*a),
        _ => Err(TermError::BadArg),
    }
}

/// The arena slots a sequence of handles names, in order.
fn indices_of(terms: &[Term]) -> (ixs: Vec<usize>)
    ensures
        ixs@.len() == terms@.len(),
        forall|k: int| 0 <= k < terms@.len() ==> #[trigger] ixs@[k] as int == terms@[k].spec_idx(),
{
    let n = terms.len();
    let mut ixs: Vec<usize> = Vec::new();
    let mut k: usize = 0;
    while k < n
        invariant
            n == terms@.len(),
            k <= n,
            ixs@.len() == k,
            forall|j: int| 0 <= j < k ==> #[trigger] ixs@[j] as int == terms@[j].spec_idx(),
        decreases n - k,
    {
        ixs.push(terms[k].idx);
        k += 1;
    }
    ixs
}

/// Compose an ordered sequence of handles, all of this environment, into a
/// single new tuple term. Order is preserved exactly: position `i` of the
/// input becomes position `i` of the tuple. The empty sequence yields the
/// canonical empty tuple. Composition never fails; it allocates one new
/// term and leaves the input handles untouched.
pub fn make_tuple(env: &mut Env, terms: &[Term]) -> (t: Term)
    requires
        old(env).wf(),
        forall|k: int| 0 <= k < terms@.len() ==> #[trigger] terms@[k].valid_in(old(env)),
    ensures
        final(env).wf(),
        final(env).spec_id() == old(env).spec_id(),
        final(env)@ == old(env)@.push(
            SpecTerm::Tuple(terms@.map(|_k: int, tm: Term| tm.spec_idx())),
        ),
        t.spec_env_id() == old(env).spec_id(),
        t.spec_idx() == old(env)@.len(),
        t.valid_in(final(env)),
{
    let ixs = indices_of(terms);
    proof {
        assert(slots_view(ixs@) =~= terms@.map(|_k: int, tm: Term| tm.spec_idx()));
        assert forall|k: int| 0 <= k < slots_view(ixs@).len() implies 0 <= #[trigger] slots_view(
            ixs@,
        )[k] < env@.len() by {
            assert(slots_view(ixs@)[k] == ixs@[k] as int);
            assert(terms@[k].valid_in(env));
        }
    }
    push_term(env, TermData::Tuple(ixs))
}

/// Compose an ordered sequence of handles, all of this environment, into a
/// single new list term.
pub fn make_list(env: &mut Env, terms: &[Term]) -> (t: Term)
    requires
        old(env).wf(),
        forall|k: int| 0 <= k < terms@.len() ==> #[trigger] terms@[k].valid_in(old(env)),
    ensures
        final(env).wf(),
        final(env).spec_id() == old(env).spec_id(),
        final(env)@ == old(env)@.push(
            SpecTerm::List(terms@.map(|_k: int, tm: Term| tm.spec_idx())),
        ),
        t.spec_env_id() == old(env).spec_id(),
        t.spec_idx() == old(env)@.len(),
        t.valid_in(final(env)),
{
    let ixs = indices_of(terms);
    proof {
        assert(slots_view(ixs@) =~= terms@.map(|_k: int, tm: Term| tm.spec_idx()));
        assert forall|k: int| 0 <= k < slots_view(ixs@).len() implies 0 <= #[trigger] slots_view(
            ixs@,
        )[k] < env@.len() by {
            assert(slots_view(ixs@)[k] == ixs@[k] as int);
            assert(terms@[k].valid_in(env));
        }
    }
    push_term(env, TermData::List(ixs))
}

/// Decompose a tuple term into its ordered element handles. Succeeds
/// exactly on tuple terms, returning one handle per element in tuple
/// order, the empty tuple giving the empty list; any other shape fails
/// with `BadArg` and no partial result.
pub fn get_tuple(env: &Env, term: Term) -> (r: Result<Vec<Term>, TermError>)
    requires
        env.wf(),
        term.valid_in(env),
    ensures
        match r {
            Ok(elems) => tuple_indices(env@, term.spec_idx()) matches Some(ixs)
                && elems@.len() == ixs.len() && forall|k: int|
                0 <= k < ixs.len() ==> (#[trigger] elems@[k]).spec_env_id() == env.spec_id()
                    && elems@[k].spec_idx() == ixs[k] && elems@[k].valid_in(env),
            Err(e) => tuple_indices(env@, term.spec_idx()) is None && e == TermError::BadArg,
        },
{
    match &env.terms[term.idx] {
        TermData::Tuple(ixs) => {
            proof {
                assert(env@[term.spec_idx()] == SpecTerm::Tuple(slots_view(ixs@)));
            }
            let ghost slots = term_children(env@[term.spec_idx()]);
            let n = ixs.len();
            let mut elems: Vec<Term> = Vec::new();
            let mut k: usize = 0;
            while k < n
                invariant
                    env.wf(),
                    term.valid_in(env),
                    env@[term.spec_idx()] is Tuple,
                    slots == term_children(env@[term.spec_idx()]),
                    n == slots.len(),
                    slots_view(ixs@) == slots,
                    k <= n,
                    elems@.len() == k,
                    forall|j: int|
                        0 <= j < k ==> (#[trigger] elems@[j]).spec_env_id() == env.spec_id()
                            && elems@[j].spec_idx() == slots[j],
                decreases n - k,
            {
                proof {
                    assert(0 <= slots[k as int] < env@.len());
                }
                elems.push(Term { env_id: env.id, idx: ixs[k] });
                k += 1;
            }
            Ok(elems)
        },
        _ => Err(TermError::BadArg),
    }
}

/// Two handles are the same exactly when they name the same environment
/// and the same arena slot.
pub proof fn lemma_term_eq(a: Term, b: Term)
    ensures
        (a == b) <==> (a.spec_env_id() == b.spec_env_id() && a.spec_idx() == b.spec_idx()),
{
}

/// Round trip on shape, slot level: decomposing the tuple just composed
/// from the slots `idxs` gives back exactly `idxs`, in order, whatever the
/// arena held before.
pub proof fn lemma_compose_decompose(env: Seq<SpecTerm>, idxs: Seq<int>)
    ensures
        tuple_indices(env.push(SpecTerm::Tuple(idxs)), env.len() as int) == Some(idxs),
{
}

/// Round trip on shape, handle level: element handles that name the same
/// environment and, position by position, the same slots as the composed
/// handles are those handles themselves.
pub proof fn lemma_round_trip_handles(terms: Seq<Term>, elems: Seq<Term>, eid: u64)
    requires
        elems.len() == terms.len(),
        forall|k: int| 0 <= k < terms.len() ==> (#[trigger] terms[k]).spec_env_id() == eid,
        forall|k: int|
            0 <= k < elems.len() ==> (#[trigger] elems[k]).spec_env_id() == eid
                && elems[k].spec_idx() == terms[k].spec_idx(),
    ensures
        elems == terms,
{
    assert forall|k: int| 0 <= k < elems.len() implies elems[k] == terms[k] by {
        lemma_term_eq(elems[k], terms[k]);
    }
    assert(elems =~= terms);
}

} // verus!
