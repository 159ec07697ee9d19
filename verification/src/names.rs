//! An insertion-ordered set of names, kept in an `indexmap::IndexSet`.
//!
//! Verus does not look inside the set. What it holds is given the name
//! [`names_of`], and each method that the library calls is wrapped in a
//! function whose contract is stated over that name and taken on trust.

use indexmap::IndexSet;
use vstd::prelude::*;

verus! {

/// Makes `indexmap::IndexSet` known to Verus, as a type that it cannot look
/// into.
#[verifier::external_type_specification]
#[verifier::external_body]
#[verifier::reject_recursive_types(T)]
#[verifier::reject_recursive_types(S)]
pub struct ExIndexSet<T, S>(IndexSet<T, S>);

/// The names in a set, in the order in which they were first inserted.
pub uninterp spec fn names_of(set: IndexSet<String>) -> Seq<Seq<char>>;

/// `IndexSet::new` makes a set that holds nothing.
#[verifier::external_body]
pub(crate) fn new_names() -> (set: IndexSet<String>)
    ensures
        names_of(set) == Seq::<Seq<char>>::empty(),
{
    IndexSet::new()
}

/// `IndexSet::get_index_of` finds the position of a name: the index at which
/// an equal name is held, or `None` where the set holds none.
#[verifier::external_body]
pub(crate) fn position(set: &IndexSet<String>, name: &str) -> (found: Option<usize>)
    ensures
        match found {
            Some(i) => i < names_of(*set).len() && names_of(*set)[i as int] == name@,
            None => !names_of(*set).contains(name@),
        },
{
    set.get_index_of(name)
}

/// `IndexSet::get_index` hands out the name at an index, or `None` where the
/// index is not below the length.
#[verifier::external_body]
pub(crate) fn name_at(set: &IndexSet<String>, index: usize) -> (found: Option<&String>)
    ensures
        match found {
            Some(name) => index < names_of(*set).len() && name@ == names_of(*set)[index as int],
            None => index >= names_of(*set).len(),
        },
{
    set.get_index(index)
}

/// `IndexSet::insert_full` adds a name at the end unless an equal one is
/// held already, in which case the set is left as it was. It returns the
/// index of the name and whether it was added.
#[verifier::external_body]
pub(crate) fn insert_name(set: &mut IndexSet<String>, name: String) -> (placed: (usize, bool))
    ensures
        placed.1 == !names_of(*old(set)).contains(name@),
        placed.1 ==> names_of(*final(set)) == names_of(*old(set)).push(name@) && placed.0
            == names_of(*old(set)).len(),
        !placed.1 ==> names_of(*final(set)) == names_of(*old(set)) && placed.0 < names_of(
            *old(set),
        ).len() && names_of(*old(set))[placed.0 as int] == name@,
{
    set.insert_full(name)
}

} // verus!
