//! Verification certificates: which symbols are to be certified, given what
//! the verifier has found.

use crate::name_set::NameSet;
use crate::reconcile::Plan;
use crate::reconcile::create_set;
use crate::reconcile::delete_set;
use crate::reconcile::plan;
use vstd::prelude::*;

verus! {

/// What a verification run asks of the certificate store.
#[derive(Clone, Debug, PartialEq, Eq)]
pub struct VerifyPlan {
    /// The tracked symbols that were verified.
    pub verified_in_structure: NameSet,
    /// The tracked symbols whose verification failed.
    pub failed_in_structure: NameSet,
    /// The certificates to create and to delete.
    pub plan: Plan,
}

/// Plans the changes to the verification certificates.
///
/// A tracked symbol that was verified is to be certified. The certificate of
/// a tracked symbol whose verification failed is to go, unless the symbol was
/// also reported as verified. Certificates of symbols that are not tracked, or
/// of which the verifier reports nothing, are left alone.
pub fn run(
    verified: &NameSet,
    failed: &NameSet,
    structure_names: &NameSet,
    existing_certs: &NameSet,
) -> (r: VerifyPlan)
    requires
        verified.wf(),
        failed.wf(),
        structure_names.wf(),
        existing_certs.wf(),
    ensures
        r.verified_in_structure.wf(),
        r.failed_in_structure.wf(),
        r.plan.to_create.wf(),
        r.plan.to_delete.wf(),
        r.verified_in_structure@ == verified@.intersect(structure_names@),
        r.failed_in_structure@ == failed@.intersect(structure_names@),
        r.plan.to_create@ == create_set(verified@.intersect(structure_names@), existing_certs@),
        r.plan.to_delete@ == delete_set(
            verified@.intersect(structure_names@),
            existing_certs@,
            failed@.intersect(structure_names@),
        ),
{
    let verified_in_structure = verified.intersection(structure_names);
    let failed_in_structure = failed.intersection(structure_names);
    let p = plan(&verified_in_structure, existing_certs, &failed_in_structure);
    VerifyPlan { verified_in_structure, failed_in_structure, plan: p }
}

/// Where no symbol is reported both as verified and as failed, the
/// certificates to delete are those of the tracked symbols whose verification
/// failed.
pub proof fn lemma_deletes_failed(
    verified: Set<Seq<char>>,
    failed: Set<Seq<char>>,
    names: Set<Seq<char>>,
    existing: Set<Seq<char>>,
)
    requires
        verified.disjoint(failed),
    ensures
        delete_set(verified.intersect(names), existing, failed.intersect(names))
            == failed.intersect(names).intersect(existing),
{
    assert(delete_set(verified.intersect(names), existing, failed.intersect(names))
        =~= failed.intersect(names).intersect(existing));
}

} // verus!
