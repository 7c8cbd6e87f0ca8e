//! The order of grouping keys against the order that `Ord` gives integer
//! triples, which is the order in which a `BTreeMap` walks its keys.
use vstd::prelude::*;
use vstd::std_specs::cmp::OrdSpec;
use crate::grouping::{Key3, key_lt};

verus! {

/// One key comes before another exactly when `Ord` on the integer triples
/// puts it first: the first components decide, then the second ones, then
/// the third ones.
pub proof fn lemma_key_order_is_tuple_order(a: Key3, b: Key3)
    ensures
        key_lt(a, b) <==> a.cmp_spec(&b) == core::cmp::Ordering::Less,
        key_lt(a, b) <==> (a.0 < b.0 || (a.0 == b.0 && (a.1 < b.1 || (a.1 == b.1 && a.2 < b.2)))),
{
}

} // verus!
