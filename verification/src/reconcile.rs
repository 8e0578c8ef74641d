//! The reconciler: the certificates to create and to delete so that the
//! certificate store agrees with the current status of the tracked symbols.

use crate::certs::cert_file_name;
use crate::certs::cert_file_of;
use crate::name_set::NameSet;
use vstd::prelude::*;

verus! {

/// The symbols that need a certificate and have none.
pub open spec fn create_set(target: Set<Seq<char>>, existing: Set<Seq<char>>) -> Set<Seq<char>> {
    target.difference(existing)
}

/// The symbols whose certificate has to go: those of the universe that have a
/// certificate and are no target. A certificate of a symbol outside the
/// universe is never touched.
pub open spec fn delete_set(
    target: Set<Seq<char>>,
    existing: Set<Seq<char>>,
    universe: Set<Seq<char>>,
) -> Set<Seq<char>> {
    existing.difference(target).intersect(universe)
}

/// The certified symbols after a plan has been carried out in full.
pub open spec fn reconciled(
    target: Set<Seq<char>>,
    existing: Set<Seq<char>>,
    universe: Set<Seq<char>>,
) -> Set<Seq<char>> {
    existing.union(create_set(target, existing)).difference(delete_set(target, existing, universe))
}

/// What is to be done to the certificate store.
#[derive(Clone, Debug, PartialEq, Eq)]
pub struct Plan {
    /// The symbols to certify, in ascending order.
    pub to_create: NameSet,
    /// The symbols whose certificate is to be deleted, in ascending order.
    pub to_delete: NameSet,
}

/// Plans the changes that bring the certificate store into agreement with
/// the target: a certificate is created for every target symbol that has
/// none, and the certificate of every symbol of the universe that is no
/// target is deleted.
pub fn plan(target: &NameSet, existing: &NameSet, universe: &NameSet) -> (p: Plan)
    requires
        target.wf(),
        existing.wf(),
        universe.wf(),
    ensures
        p.to_create.wf(),
        p.to_delete.wf(),
        p.to_create@ == create_set(target@, existing@),
        p.to_delete@ == delete_set(target@, existing@, universe@),
{
    let to_create = target.difference(existing);
    let stale = existing.difference(target);
    let to_delete = stale.intersection(universe);
    Plan { to_create, to_delete }
}

/// Running the reconciler again on what a first run has left behind, with the
/// same target and universe, plans nothing.
pub proof fn lemma_reconcile_idempotent(
    target: Set<Seq<char>>,
    existing: Set<Seq<char>>,
    universe: Set<Seq<char>>,
)
    ensures
        create_set(target, reconciled(target, existing, universe)) == Set::<Seq<char>>::empty(),
        delete_set(target, reconciled(target, existing, universe), universe) == Set::<
            Seq<char>,
        >::empty(),
{
    let after = reconciled(target, existing, universe);
    assert(create_set(target, after) =~= Set::<Seq<char>>::empty());
    assert(delete_set(target, after, universe) =~= Set::<Seq<char>>::empty());
}

/// A plan does no more than it must: nothing is created that exists, nothing
/// is both created and deleted, nothing is deleted that is a target or lies
/// outside the universe, and a certificate that is neither created nor
/// deleted stays as it is.
pub proof fn lemma_plan_minimal(
    target: Set<Seq<char>>,
    existing: Set<Seq<char>>,
    universe: Set<Seq<char>>,
)
    ensures
        create_set(target, existing).disjoint(existing),
        create_set(target, existing).disjoint(delete_set(target, existing, universe)),
        delete_set(target, existing, universe).subset_of(existing),
        delete_set(target, existing, universe).disjoint(target),
        delete_set(target, existing, universe).subset_of(universe),
        existing.intersect(target).subset_of(reconciled(target, existing, universe)),
        existing.difference(universe).subset_of(reconciled(target, existing, universe)),
        target.subset_of(reconciled(target, existing, universe)),
{
}

/// Where every target lies in the universe and every certified symbol too,
/// the reconciled store certifies exactly the targets.
pub proof fn lemma_reconciled_is_target(
    target: Set<Seq<char>>,
    existing: Set<Seq<char>>,
    universe: Set<Seq<char>>,
)
    requires
        existing.subset_of(universe),
    ensures
        reconciled(target, existing, universe) == target,
{
    assert(reconciled(target, existing, universe) =~= target);
}

/// The number of certificates after a plan has been carried out in full is
/// the number before it, plus the number of certificates created, minus the
/// number of certificates deleted.
pub proof fn lemma_reconciled_size(
    target: Set<Seq<char>>,
    existing: Set<Seq<char>>,
    universe: Set<Seq<char>>,
)
    requires
        target.finite(),
        existing.finite(),
    ensures
        reconciled(target, existing, universe).finite(),
        reconciled(target, existing, universe).len() == existing.len() + create_set(
            target,
            existing,
        ).len() - delete_set(target, existing, universe).len(),
        delete_set(target, existing, universe).len() <= existing.len(),
{
    let creates = create_set(target, existing);
    let deletes = delete_set(target, existing, universe);
    let grown = existing.union(creates);
    vstd::set_lib::lemma_len_subset(creates, target);
    vstd::set_lib::lemma_len_subset(deletes, existing);
    vstd::set_lib::lemma_set_disjoint_lens(existing, creates);
    assert(existing.disjoint(creates));
    assert(existing + creates == grown);
    vstd::set_lib::lemma_set_union_finite_iff(existing, creates);
    vstd::set_lib::lemma_set_difference_len(grown, deletes);
    assert(grown.intersect(deletes) =~= deletes);
    vstd::set_lib::lemma_len_subset(reconciled(target, existing, universe), grown);
}

/// What is done to one certificate.
#[derive(Clone, Copy, Debug, PartialEq, Eq, Structural)]
pub enum Action {
    /// The certificate is written.
    Created,
    /// The certificate is removed.
    Deleted,
}

/// One change to the certificate store.
#[derive(Clone, Debug, PartialEq, Eq)]
pub struct Change {
    /// The symbol whose certificate changes.
    pub symbol_id: String,
    /// The name of the certificate file in the certificate directory.
    pub cert_file: String,
    /// What is done to the certificate.
    pub action: Action,
}

/// A change as plain values: symbol, certificate file, action.
pub type ChangeView = (Seq<char>, Seq<char>, Action);

impl View for Change {
    type V = ChangeView;

    open spec fn view(&self) -> ChangeView {
        (self.symbol_id@, self.cert_file@, self.action)
    }
}

/// The changes that a vector holds, each as plain values.
pub open spec fn changes_view(v: Seq<Change>) -> Seq<ChangeView> {
    Seq::new(v.len(), |i: int| v[i]@)
}

/// The change that does `action` to the certificate of `name`.
pub open spec fn change_of(name: Seq<char>, action: Action) -> ChangeView {
    (name, cert_file_of(name), action)
}

/// The changes of a plan in the order in which they are carried out: first
/// the certificates to create, then those to delete, each group in ascending
/// order of the symbols.
pub open spec fn ordered_changes(to_create: Seq<Seq<char>>, to_delete: Seq<Seq<char>>) -> Seq<
    ChangeView,
> {
    Seq::new(
        to_create.len() + to_delete.len(),
        |i: int|
            if i < to_create.len() {
                change_of(to_create[i], Action::Created)
            } else {
                change_of(to_delete[i - to_create.len()], Action::Deleted)
            },
    )
}

impl Plan {
    /// Whether the plan has nothing to do.
    pub fn is_empty(&self) -> (b: bool)
        ensures
            b == (self.to_create.listing().len() == 0 && self.to_delete.listing().len() == 0),
    {
        self.to_create.len() == 0 && self.to_delete.len() == 0
    }

    /// The changes of the plan in the order in which they are carried out.
    pub fn changes(&self) -> (list: Vec<Change>)
        ensures
            changes_view(list@) == ordered_changes(
                self.to_create.listing(),
                self.to_delete.listing(),
            ),
    {
        let ghost creates = self.to_create.listing();
        let ghost deletes = self.to_delete.listing();
        let ghost all = ordered_changes(creates, deletes);
        let mut list: Vec<Change> = Vec::new();
        let mut i: usize = 0;
        while i < self.to_create.len()
            invariant
                i <= creates.len(),
                creates == self.to_create.listing(),
                deletes == self.to_delete.listing(),
                all == ordered_changes(creates, deletes),
                list@.len() == i,
                forall|k: int| 0 <= k < i ==> (#[trigger] list@[k])@ == all[k],
            decreases creates.len() - i,
        {
            let name = self.to_create.get(i);
            list.push(
                Change {
                    symbol_id: name.clone(),
                    cert_file: cert_file_name(name.as_str()),
                    action: Action::Created,
                },
            );
            i = i + 1;
        }
        let mut j: usize = 0;
        while j < self.to_delete.len()
            invariant
                j <= deletes.len(),
                creates == self.to_create.listing(),
                deletes == self.to_delete.listing(),
                all == ordered_changes(creates, deletes),
                list@.len() == creates.len() + j,
                forall|k: int| 0 <= k < list@.len() ==> (#[trigger] list@[k])@ == all[k],
            decreases deletes.len() - j,
        {
            let name = self.to_delete.get(j);
            list.push(
                Change {
                    symbol_id: name.clone(),
                    cert_file: cert_file_name(name.as_str()),
                    action: Action::Deleted,
                },
            );
            j = j + 1;
        }
        assert(changes_view(list@) =~= all);
        list
    }
}

/// The certified symbols after one change, which was applied or has failed.
/// A change that failed leaves the store as it was.
pub open spec fn after_change(certs: Set<Seq<char>>, change: ChangeView, applied: bool) -> Set<
    Seq<char>,
> {
    if !applied {
        certs
    } else {
        match change.2 {
            Action::Created => certs.insert(change.0),
            Action::Deleted => certs.remove(change.0),
        }
    }
}

/// Records in the set of certified symbols what became of one change.
pub fn record(certs: &mut NameSet, change: &Change, applied: bool)
    requires
        old(certs).wf(),
    ensures
        final(certs).wf(),
        final(certs)@ == after_change(old(certs)@, change@, applied),
{
    if applied {
        match change.action {
            Action::Created => {
                certs.insert(change.symbol_id.clone());
            },
            Action::Deleted => {
                certs.remove(change.symbol_id.as_str());
            },
        }
    }
}

/// The certified symbols after the first `upto` changes, each applied or not
/// as `applied` says.
pub open spec fn after_changes(
    certs: Set<Seq<char>>,
    changes: Seq<ChangeView>,
    applied: Seq<bool>,
    upto: int,
) -> Set<Seq<char>>
    decreases upto,
{
    if upto <= 0 {
        certs
    } else {
        after_change(
            after_changes(certs, changes, applied, upto - 1),
            changes[upto - 1],
            applied[upto - 1],
        )
    }
}

/// How many of the first `upto` changes do `action` and were applied.
pub open spec fn applied_count(
    changes: Seq<ChangeView>,
    applied: Seq<bool>,
    action: Action,
    upto: int,
) -> nat
    decreases upto,
{
    if upto <= 0 {
        0
    } else {
        let rest = applied_count(changes, applied, action, upto - 1);
        if applied[upto - 1] && changes[upto - 1].2 == action {
            rest + 1
        } else {
            rest
        }
    }
}

/// How many of the first `upto` changes were not applied.
pub open spec fn failed_count(applied: Seq<bool>, upto: int) -> nat
    decreases upto,
{
    if upto <= 0 {
        0
    } else {
        let rest = failed_count(applied, upto - 1);
        if applied[upto - 1] {
            rest
        } else {
            rest + 1
        }
    }
}

/// What the store holds after the first `upto` changes of a plan, all of
/// them applied: while certificates are created, the store grows by them;
/// after that it shrinks by the certificates that are deleted.
proof fn lemma_applying_prefix(
    existing: Set<Seq<char>>,
    creates: Seq<Seq<char>>,
    deletes: Seq<Seq<char>>,
    applied: Seq<bool>,
    upto: int,
)
    requires
        0 <= upto <= creates.len() + deletes.len(),
        applied.len() == creates.len() + deletes.len(),
        forall|i: int| 0 <= i < applied.len() ==> applied[i],
    ensures
        after_changes(existing, ordered_changes(creates, deletes), applied, upto) == (if upto
            <= creates.len() {
            existing.union(creates.take(upto).to_set())
        } else {
            existing.union(creates.to_set()).difference(
                deletes.take(upto - creates.len()).to_set(),
            )
        }),
    decreases upto,
{
    let all = ordered_changes(creates, deletes);
    if upto == 0 {
        assert(creates.take(0).to_set() =~= Set::<Seq<char>>::empty());
        assert(existing.union(creates.take(0).to_set()) =~= existing);
    } else {
        lemma_applying_prefix(existing, creates, deletes, applied, upto - 1);
        let before = after_changes(existing, all, applied, upto - 1);
        let k = upto - 1;
        assert(applied[k]);
        if upto <= creates.len() {
            assert(all[k] == change_of(creates[k], Action::Created));
            creates.take(k).lemma_push_to_set_commute(creates[k]);
            assert(creates.take(upto) =~= creates.take(k).push(creates[k]));
            assert(before.insert(creates[k]) =~= existing.union(creates.take(upto).to_set()));
        } else {
            let j = k - creates.len();
            assert(all[k] == change_of(deletes[j], Action::Deleted));
            deletes.take(j).lemma_push_to_set_commute(deletes[j]);
            assert(deletes.take(j + 1) =~= deletes.take(j).push(deletes[j]));
            if j == 0 {
                assert(creates.take(creates.len() as int) =~= creates);
                assert(deletes.take(0).to_set() =~= Set::<Seq<char>>::empty());
            }
            assert(before == existing.union(creates.to_set()).difference(
                deletes.take(j).to_set(),
            ));
            assert(before.remove(deletes[j]) =~= existing.union(creates.to_set()).difference(
                deletes.take(j + 1).to_set(),
            ));
        }
    }
}

/// Carrying out every change of a plan, in the order of the plan, leaves the
/// store reconciled.
pub proof fn lemma_applying_plan(
    target: Set<Seq<char>>,
    existing: Set<Seq<char>>,
    universe: Set<Seq<char>>,
    creates: Seq<Seq<char>>,
    deletes: Seq<Seq<char>>,
    applied: Seq<bool>,
)
    requires
        creates.to_set() == create_set(target, existing),
        deletes.to_set() == delete_set(target, existing, universe),
        applied.len() == creates.len() + deletes.len(),
        forall|i: int| 0 <= i < applied.len() ==> applied[i],
    ensures
        after_changes(
            existing,
            ordered_changes(creates, deletes),
            applied,
            (creates.len() + deletes.len()) as int,
        ) == reconciled(target, existing, universe),
{
    let n = creates.len() + deletes.len();
    lemma_applying_prefix(existing, creates, deletes, applied, n as int);
    assert(creates.take(creates.len() as int) =~= creates);
    assert(deletes.take(deletes.len() as int) =~= deletes);
    if deletes.len() == 0 {
        assert(deletes.to_set() =~= Set::<Seq<char>>::empty());
        assert(existing.union(creates.to_set()) =~= reconciled(target, existing, universe));
    }
}

/// The figures of a reconciliation.
#[derive(Clone, Copy, Debug, PartialEq, Eq, Structural)]
pub struct Summary {
    /// The number of changes that were planned.
    pub planned: usize,
    /// The number of certificates that were created.
    pub created: usize,
    /// The number of certificates that were deleted.
    pub deleted: usize,
    /// The number of changes that failed.
    pub failed: usize,
    /// The number of certificates before the reconciliation.
    pub before: usize,
    /// The number of certificates after it.
    pub after: usize,
}

/// Settles a reconciliation: records in the set of certified symbols every
/// change that was applied, and counts what was planned, what was done and
/// what has failed. `applied` says of each change, in the order of `changes`,
/// whether it was carried out.
pub fn settle(certs: &mut NameSet, changes: &Vec<Change>, applied: &Vec<bool>) -> (summary: Summary)
    requires
        old(certs).wf(),
        applied@.len() == changes@.len(),
    ensures
        final(certs).wf(),
        final(certs)@ == after_changes(
            old(certs)@,
            changes_view(changes@),
            applied@,
            changes@.len() as int,
        ),
        summary.planned == changes@.len(),
        summary.created == applied_count(
            changes_view(changes@),
            applied@,
            Action::Created,
            changes@.len() as int,
        ),
        summary.deleted == applied_count(
            changes_view(changes@),
            applied@,
            Action::Deleted,
            changes@.len() as int,
        ),
        summary.failed == failed_count(applied@, changes@.len() as int),
        summary.created + summary.deleted + summary.failed == summary.planned,
        summary.before == old(certs).listing().len(),
        summary.after == final(certs).listing().len(),
{
    let ghost start = certs@;
    let ghost all = changes_view(changes@);
    let before = certs.len();
    let mut created: usize = 0;
    let mut deleted: usize = 0;
    let mut failed: usize = 0;
    let mut i: usize = 0;
    while i < changes.len()
        invariant
            i <= changes@.len(),
            applied@.len() == changes@.len(),
            all == changes_view(changes@),
            certs.wf(),
            certs@ == after_changes(start, all, applied@, i as int),
            created == applied_count(all, applied@, Action::Created, i as int),
            deleted == applied_count(all, applied@, Action::Deleted, i as int),
            failed == failed_count(applied@, i as int),
            created + deleted + failed == i,
        decreases changes@.len() - i,
    {
        let change = &changes[i];
        let done = applied[i];
        assert(all[i as int] == change@);
        record(certs, change, done);
        if !done {
            failed = failed + 1;
        } else {
            match change.action {
                Action::Created => {
                    created = created + 1;
                },
                Action::Deleted => {
                    deleted = deleted + 1;
                },
            }
        }
        i = i + 1;
    }
    Summary { planned: changes.len(), created, deleted, failed, before, after: certs.len() }
}

} // verus!
