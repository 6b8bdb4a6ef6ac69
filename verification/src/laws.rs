//! The guarantees the store gives across calls, stated and proved over the
//! same namespace model that the store's own contracts use: `rated` is the
//! effect one successful rating has on a namespace, and `rating_of` is
//! what a read returns.

use vstd::prelude::*;

use crate::store::blocks_rating;
use crate::store::rated;
use crate::store::rating_of;
use crate::store::SlotModel;
use crate::store::StoreModel;

verus! {

/// Write-then-read: after a rating by `caller` for `name`, a read of
/// `(name, caller)` returns exactly the written rating.
pub proof fn law_write_then_read(pre: StoreModel, name: Seq<u8>, caller: Seq<u8>, rating: u8)
    ensures
        rating_of(rated(pre, name, caller, rating), name, caller) == Some(rating),
{
}

/// Overwrite: two successive ratings by one caller for one name leave the
/// second value — never a merge of the two.
pub proof fn law_overwrite(pre: StoreModel, name: Seq<u8>, caller: Seq<u8>, r1: u8, r2: u8)
    ensures
        rating_of(rated(rated(pre, name, caller, r1), name, caller, r2), name, caller) == Some(r2),
{
}

/// Cross-entity isolation: a rating for one name changes nothing stored
/// under any other name, for any caller.
pub proof fn law_cross_entity(
    pre: StoreModel,
    name: Seq<u8>,
    other: Seq<u8>,
    caller: Seq<u8>,
    reader: Seq<u8>,
    rating: u8,
)
    requires
        other != name,
    ensures
        rating_of(rated(pre, name, caller, rating), other, reader) == rating_of(pre, other, reader),
{
}

/// Cross-caller isolation: ratings by two distinct callers for one name
/// both persist, each under its own caller key.
pub proof fn law_cross_caller(
    pre: StoreModel,
    name: Seq<u8>,
    c1: Seq<u8>,
    c2: Seq<u8>,
    r1: u8,
    r2: u8,
)
    requires
        c1 != c2,
    ensures
        rating_of(rated(rated(pre, name, c1, r1), name, c2, r2), name, c1) == Some(r1),
        rating_of(rated(rated(pre, name, c1, r1), name, c2, r2), name, c2) == Some(r2),
{
}

/// First write creates the namespace: for a name never rated before,
/// nothing blocks the rating — `rate` then returns `Ok` — and afterwards
/// the name is bound to a per-caller map holding the new rating.
pub proof fn law_first_write_creates(pre: StoreModel, name: Seq<u8>, caller: Seq<u8>, rating: u8)
    requires
        !pre.contains_key(name),
    ensures
        !blocks_rating(pre, name),
        rated(pre, name, caller, rating).contains_key(name),
        rated(pre, name, caller, rating)[name] is Ratings,
        rating_of(rated(pre, name, caller, rating), name, caller) == Some(rating),
{
}

} // verus!
