//! Standard comparison traits for PEP-440 versions, following PEP-440
//! precedence and equivalence.

use vstd::prelude::*;

use core::cmp::Ordering;
use vstd::std_specs::cmp::{PartialEqSpecImpl, PartialOrdSpecImpl};

use crate::version::pep440::{pep440_equiv, pep440_order, Pep440Version};

verus! {

impl PartialEq for Pep440Version {
    fn eq(&self, other: &Self) -> (r: bool) {
        self.equivalent(other)
    }
}

impl PartialEqSpecImpl for Pep440Version {
    open spec fn obeys_eq_spec() -> bool {
        true
    }

    open spec fn eq_spec(&self, other: &Self) -> bool {
        pep440_equiv(self@, other@)
    }
}

impl Eq for Pep440Version {

}

/// The `Ordering` that a -1/0/1 precedence value stands for.
pub open spec fn ordering_of(c: int) -> Ordering {
    if c < 0 {
        Ordering::Less
    } else if c > 0 {
        Ordering::Greater
    } else {
        Ordering::Equal
    }
}

impl PartialOrd for Pep440Version {
    fn partial_cmp(&self, other: &Self) -> (r: Option<Ordering>) {
        let c = self.compare(other);
        if c < 0 {
            Some(Ordering::Less)
        } else if c > 0 {
            Some(Ordering::Greater)
        } else {
            Some(Ordering::Equal)
        }
    }
}

impl PartialOrdSpecImpl for Pep440Version {
    open spec fn obeys_partial_cmp_spec() -> bool {
        true
    }

    open spec fn partial_cmp_spec(&self, other: &Self) -> Option<Ordering> {
        Some(ordering_of(pep440_order(self@, other@)))
    }
}

} // verus!
