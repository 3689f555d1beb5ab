//! Classification of a commit's continuous-integration outcome from the
//! conclusions of its individual check runs.

use vstd::prelude::*;

verus! {

/// A commit qualifies when every one of its check runs concluded with the
/// literal success classification. An empty run list is vacuously successful.
pub open spec fn all_success(conclusions: Seq<String>) -> bool {
    forall|i: int| 0 <= i < conclusions.len() ==> conclusions[i]@ == "success"@
}

/// Aggregate the conclusions of a commit's check runs into the binary CI
/// outcome: true exactly when every run concluded "success". A commit with
/// zero check runs is classified as successful.
pub fn all_checks_successful(conclusions: &Vec<String>) -> (r: bool)
    ensures
        r == all_success(conclusions@),
        conclusions@.len() == 0 ==> r,
{
    let success: String = "success".to_owned();
    let mut i: usize = 0;
    while i < conclusions.len()
        invariant
            0 <= i <= conclusions@.len(),
            success@ == "success"@,
            forall|j: int| 0 <= j < i ==> conclusions@[j]@ == "success"@,
        decreases conclusions@.len() - i,
    {
        let matches_success: bool = conclusions[i] == success;
        if !matches_success {
            assert(conclusions@[i as int]@ != "success"@);
            return false;
        }
        i = i + 1;
    }
    true
}

} // verus!
