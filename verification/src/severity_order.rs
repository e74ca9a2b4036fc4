//! The order of severities, from `Info` to `Critical`, and of confidences, from `Low`
//! to `Certain`, by rank.
use vstd::prelude::*;
use vstd::std_specs::cmp::PartialOrdSpec;
use core::cmp::Ordering;

use crate::findings::{Confidence, Severity};

verus! {

/// The order of two ranks.
pub open spec fn rank_order(a: u8, b: u8) -> Ordering {
    if a < b {
        Ordering::Less
    } else if a == b {
        Ordering::Equal
    } else {
        Ordering::Greater
    }
}

impl PartialOrd for Severity {
    fn partial_cmp(&self, other: &Severity) -> (r: Option<Ordering>) {
        let a = self.rank();
        let b = other.rank();
        if a < b {
            Some(Ordering::Less)
        } else if a == b {
            Some(Ordering::Equal)
        } else {
            Some(Ordering::Greater)
        }
    }
}

impl vstd::std_specs::cmp::PartialOrdSpecImpl for Severity {
    open spec fn obeys_partial_cmp_spec() -> bool {
        true
    }

    open spec fn partial_cmp_spec(&self, other: &Severity) -> Option<Ordering> {
        Some(rank_order(self.spec_rank(), other.spec_rank()))
    }
}

/// Severities are compared by rank (`Info` 0 up to `Critical` 4), and two severities
/// of the same rank are the same severity.
pub proof fn lemma_severity_order_matches_rank(a: Severity, b: Severity)
    ensures
        a.partial_cmp_spec(&b) == Some(rank_order(a.spec_rank(), b.spec_rank())),
        (a.partial_cmp_spec(&b) == Some(Ordering::Equal)) <==> a == b,
        (a.partial_cmp_spec(&b) == Some(Ordering::Less)) <==> b.partial_cmp_spec(&a) == Some(Ordering::Greater),
{
}

impl PartialOrd for Confidence {
    fn partial_cmp(&self, other: &Confidence) -> (r: Option<Ordering>) {
        let a = self.rank();
        let b = other.rank();
        if a < b {
            Some(Ordering::Less)
        } else if a == b {
            Some(Ordering::Equal)
        } else {
            Some(Ordering::Greater)
        }
    }
}

impl vstd::std_specs::cmp::PartialOrdSpecImpl for Confidence {
    open spec fn obeys_partial_cmp_spec() -> bool {
        true
    }

    open spec fn partial_cmp_spec(&self, other: &Confidence) -> Option<Ordering> {
        Some(rank_order(self.spec_rank(), other.spec_rank()))
    }
}

/// Confidences are compared by rank (`Low` 0 up to `Certain` 3), and two confidences
/// of the same rank are the same confidence.
pub proof fn lemma_confidence_order_matches_rank(a: Confidence, b: Confidence)
    ensures
        a.partial_cmp_spec(&b) == Some(rank_order(a.spec_rank(), b.spec_rank())),
        (a.partial_cmp_spec(&b) == Some(Ordering::Equal)) <==> a == b,
        (a.partial_cmp_spec(&b) == Some(Ordering::Less)) <==> b.partial_cmp_spec(&a) == Some(Ordering::Greater),
{
}

} // verus!
