use vstd::prelude::*;

use std::cmp::Ordering;
use vstd::std_specs::cmp::{PartialOrdSpec, PartialOrdSpecImpl};

use crate::account::Account;

verus! {

/// Accounts are ordered by the id of their owner alone.
impl PartialOrd for Account {
    fn partial_cmp(&self, other: &Account) -> (r: Option<Ordering>)
        ensures
            r == Some(Ordering::Less) <==> self@.id < other@.id,
            r == Some(Ordering::Equal) <==> self@.id == other@.id,
            r == Some(Ordering::Greater) <==> self@.id > other@.id,
    {
        let mine = self.get_id();
        let theirs = other.get_id();
        if mine == theirs {
            Some(Ordering::Equal)
        } else if mine < theirs {
            Some(Ordering::Less)
        } else {
            Some(Ordering::Greater)
        }
    }
}

impl PartialOrdSpecImpl for Account {
    open spec fn obeys_partial_cmp_spec() -> bool {
        true
    }

    open spec fn partial_cmp_spec(&self, other: &Account) -> Option<Ordering> {
        if self@.id == other@.id {
            Some(Ordering::Equal)
        } else if self@.id < other@.id {
            Some(Ordering::Less)
        } else {
            Some(Ordering::Greater)
        }
    }
}

/// Accounts compare as their owners' ids do, as numbers: less exactly when
/// the first id is smaller, equal exactly when the ids are equal, greater
/// exactly when the first id is larger; an answer is always given.
pub proof fn lemma_accounts_compare_by_id(a: Account, b: Account)
    ensures
        PartialOrdSpec::partial_cmp_spec(&a, &b) is Some,
        PartialOrdSpec::partial_cmp_spec(&a, &b) == Some(Ordering::Less) <==> a@.id < b@.id,
        PartialOrdSpec::partial_cmp_spec(&a, &b) == Some(Ordering::Equal) <==> a@.id == b@.id,
        PartialOrdSpec::partial_cmp_spec(&a, &b) == Some(Ordering::Greater) <==> a@.id > b@.id,
{
}

} // verus!
