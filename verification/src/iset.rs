//! Trusted interface to `indexmap::IndexSet<String>`, the insertion-ordered
//! set used for parameter lists, local-variable slots and the extern-symbol
//! table. The abstract contents are named by [`iset_elems`]: the elements in
//! insertion order, as sequences of characters. An `IndexSet` holds no two
//! equal elements, so the sequence of an actual set never repeats a value;
//! the contracts below only state how each operation transforms it.
use vstd::prelude::*;

use indexmap::IndexSet;

verus! {

#[verifier::external_type_specification]
#[verifier::external_body]
#[verifier::reject_recursive_types(T)]
#[verifier::reject_recursive_types(S)]
pub struct ExIndexSet<T, S>(IndexSet<T, S>);

/// The contents of the set, in insertion order.
pub uninterp spec fn iset_elems(s: IndexSet<String>) -> Seq<Seq<char>>;

/// Index of the first occurrence of `x` in `es` (meaningful when present).
pub open spec fn first_idx(es: Seq<Seq<char>>, x: Seq<char>) -> int
    decreases es.len(),
{
    if es.len() == 0 {
        0
    } else if es[0] == x {
        0
    } else {
        1 + first_idx(es.drop_first(), x)
    }
}

pub proof fn lemma_first_idx(es: Seq<Seq<char>>, x: Seq<char>)
    requires
        es.contains(x),
    ensures
        0 <= first_idx(es, x) < es.len(),
        es[first_idx(es, x)] == x,
        forall|j: int| 0 <= j < first_idx(es, x) ==> es[j] != x,
    decreases es.len(),
{
    if es.len() > 0 && es[0] != x {
        assert(es.drop_first().contains(x)) by {
            let i = choose|i: int| 0 <= i < es.len() && es[i] == x;
            assert(es.drop_first()[i - 1] == x);
        }
        lemma_first_idx(es.drop_first(), x);
        assert forall|j: int| 0 <= j < first_idx(es, x) implies es[j] != x by {
            if j > 0 {
                assert(es.drop_first()[j - 1] == es[j]);
            }
        }
    }
}


/// An index that holds `x` with nothing equal before it is the first index.
pub proof fn lemma_first_idx_unique(es: Seq<Seq<char>>, x: Seq<char>, i: int)
    requires
        0 <= i < es.len(),
        es[i] == x,
        forall|j: int| 0 <= j < i ==> es[j] != x,
    ensures
        es.contains(x),
        first_idx(es, x) == i,
{
    assert(es.contains(x)) by {
        assert(es[i] == x);
    }
    lemma_first_idx(es, x);
}

/// Relies on `IndexSet::new`: creates an empty set.
#[verifier::external_body]
pub fn iset_new() -> (s: IndexSet<String>)
    ensures
        iset_elems(s) == Seq::<Seq<char>>::empty(),
{
    IndexSet::new()
}

/// Relies on `IndexSet::len`: the number of elements.
#[verifier::external_body]
pub fn iset_len(s: &IndexSet<String>) -> (n: usize)
    ensures
        n == iset_elems(*s).len(),
{
    s.len()
}

/// Relies on `IndexSet::insert`: appends a new element at the end, or leaves
/// the set unchanged (returning `false`) when an equal element is present.
#[verifier::external_body]
pub fn iset_insert(s: &mut IndexSet<String>, v: String) -> (r: bool)
    ensures
        ({
            let es = iset_elems(*old(s));
            if es.contains(v@) {
                iset_elems(*final(s)) == es && r == false
            } else {
                iset_elems(*final(s)) == es.push(v@) && r == true
            }
        }),
{
    s.insert(v)
}

/// Relies on `IndexSet::get_index_of`: the index of the element equal to `v`,
/// if present.
#[verifier::external_body]
pub fn iset_get_index_of(s: &IndexSet<String>, v: &str) -> (r: Option<usize>)
    ensures
        ({
            let es = iset_elems(*s);
            match r {
                Some(i) => i < es.len() && es[i as int] == v@ && forall|j: int|
                    0 <= j < i ==> es[j] != v@,
                None => !es.contains(v@),
            }
        }),
{
    s.get_index_of(v)
}

/// Relies on `IndexSet::get_index`: the element at `i`, in insertion order,
/// or `None` past the end.
#[verifier::external_body]
pub fn iset_get(s: &IndexSet<String>, i: usize) -> (r: Option<&String>)
    ensures
        ({
            let es = iset_elems(*s);
            match r {
                Some(x) => i < es.len() && x@ == es[i as int],
                None => i >= es.len(),
            }
        }),
{
    s.get_index(i)
}

/// Relies on `IndexSet::shift_remove`: removes the element equal to `v`,
/// shifting later elements down and preserving their order; `false` when no
/// such element exists.
#[verifier::external_body]
pub fn iset_shift_remove(s: &mut IndexSet<String>, v: &str) -> (r: bool)
    ensures
        ({
            let es = iset_elems(*old(s));
            if es.contains(v@) {
                iset_elems(*final(s)) == es.remove(first_idx(es, v@)) && r == true
            } else {
                iset_elems(*final(s)) == es && r == false
            }
        }),
{
    s.shift_remove(v)
}

/// Relies on `Clone for IndexSet`: the clone holds equal elements in the
/// same order.
#[verifier::external_body]
pub fn iset_clone(s: &IndexSet<String>) -> (r: IndexSet<String>)
    ensures
        iset_elems(r) == iset_elems(*s),
{
    s.clone()
}

} // verus!
