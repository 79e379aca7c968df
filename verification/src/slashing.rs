use vstd::prelude::*;
use crate::blockchain::Blockchain;
use crate::coin::Coin;
use crate::error::InherentError;
use crate::evidence::{
    answered_by,
    asked,
    resolve,
    ForkProof,
    SlotRecord,
    SlotTable,
    ViewChanges,
};
use crate::inherent::{inherent_views, Inherent, InherentType, InherentView};
use crate::keys::{Address, CompressedPublicKey};
use crate::slashed_slot::SlashedSlot;

verus! {

/// The slash inherent for the slot of `record`, for an offence at block
/// `event_block`.
pub open spec fn slash_for(
    registry: Address,
    record: SlotRecord,
    event_block: u32,
) -> InherentView {
    InherentView::slash(
        registry,
        SlashedSlot {
            slot: record.slot,
            validator_key: record.validator_key,
            event_block,
        }.spec_serialize(),
    )
}

/// The producer that a fork proof accuses, if the table knows it.
pub open spec fn accused(slots: Seq<SlotRecord>, fork_proof: ForkProof) -> Option<SlotRecord> {
    resolve(slots, fork_proof.header1.block_number, fork_proof.header1.view_number)
}

/// Whether the table knows the producer that each fork proof accuses.
pub open spec fn fork_proofs_resolved(slots: Seq<SlotRecord>, fork_proofs: Seq<ForkProof>) -> bool {
    forall|i: int|
        0 <= i < fork_proofs.len() ==> (#[trigger] accused(slots, fork_proofs[i])) is Some
}

/// The producer of the `i`-th view that was given up, if the table knows it.
pub open spec fn skipped(slots: Seq<SlotRecord>, view_changes: ViewChanges, i: int) -> Option<
    SlotRecord,
> {
    resolve(slots, view_changes.block_number, (view_changes.first_view_number + i) as u32)
}

/// Whether the table knows the producer of each view that was given up.
pub open spec fn view_changes_resolved(slots: Seq<SlotRecord>, view_changes: ViewChanges) -> bool {
    forall|i: int|
        0 <= i < view_changes.span() ==> (#[trigger] skipped(slots, view_changes, i)) is Some
}

/// One slash inherent for each fork proof, in order.
pub open spec fn fork_proof_inherents(
    registry: Address,
    slots: Seq<SlotRecord>,
    fork_proofs: Seq<ForkProof>,
) -> Seq<InherentView> {
    Seq::new(
        fork_proofs.len(),
        |i: int|
            slash_for(
                registry,
                accused(slots, fork_proofs[i])->0,
                fork_proofs[i].header1.block_number,
            ),
    )
}

/// One slash inherent for each view that was given up, in order.
pub open spec fn view_change_inherents(
    registry: Address,
    slots: Seq<SlotRecord>,
    view_changes: ViewChanges,
) -> Seq<InherentView> {
    Seq::new(
        view_changes.span() as nat,
        |i: int| slash_for(registry, skipped(slots, view_changes, i)->0, view_changes.block_number),
    )
}

impl Blockchain {
    /// What `inherent_from_fork_proof` gives: the fault `NoValidatorRegistry`
    /// where the network has no registry, else `SlotNotFound` where the table
    /// does not know the accused, else the slash inherent.
    pub open spec fn spec_inherent_from_fork_proof(
        &self,
        fork_proof: ForkProof,
        slots: Seq<SlotRecord>,
    ) -> Result<InherentView, InherentError> {
        if self.network.validator_registry is None {
            Err(InherentError::NoValidatorRegistry)
        } else if accused(slots, fork_proof) is None {
            Err(InherentError::SlotNotFound)
        } else {
            Ok(
                slash_for(
                    self.network.validator_registry->0,
                    accused(slots, fork_proof)->0,
                    fork_proof.header1.block_number,
                ),
            )
        }
    }

    /// What `inherents_from_view_changes` gives: the fault
    /// `NoValidatorRegistry` where the network has no registry, else
    /// `SlotNotFound` where the table does not know the producer of a view
    /// that was given up, else one slash inherent for each such view.
    pub open spec fn spec_inherents_from_view_changes(
        &self,
        view_changes: ViewChanges,
        slots: Seq<SlotRecord>,
    ) -> Result<Seq<InherentView>, InherentError> {
        if self.network.validator_registry is None {
            Err(InherentError::NoValidatorRegistry)
        } else if !view_changes_resolved(slots, view_changes) {
            Err(InherentError::SlotNotFound)
        } else {
            Ok(view_change_inherents(self.network.validator_registry->0, slots, view_changes))
        }
    }

    /// What `create_slash_inherents` gives: nothing where there is no
    /// evidence; else the fault `NoValidatorRegistry` where the network has no
    /// registry, else `SlotNotFound` where the table does not know a producer
    /// that the evidence names; else the inherents of the fork proofs followed
    /// by those of the view changes.
    pub open spec fn spec_create_slash_inherents(
        &self,
        fork_proofs: Seq<ForkProof>,
        view_changes: Option<ViewChanges>,
        slots: Seq<SlotRecord>,
    ) -> Result<Seq<InherentView>, InherentError> {
        if fork_proofs.len() == 0 && view_changes is None {
            Ok(Seq::empty())
        } else if self.network.validator_registry is None {
            Err(InherentError::NoValidatorRegistry)
        } else if !fork_proofs_resolved(slots, fork_proofs) || (view_changes is Some
            && !view_changes_resolved(slots, view_changes->0)) {
            Err(InherentError::SlotNotFound)
        } else {
            let registry = self.network.validator_registry->0;
            Ok(
                fork_proof_inherents(registry, slots, fork_proofs) + if view_changes is Some {
                    view_change_inherents(registry, slots, view_changes->0)
                } else {
                    Seq::empty()
                },
            )
        }
    }

    /// The slash inherents for the given evidence, which was verified before:
    /// one for each fork proof, then one for each view that was given up.
    /// `slots` says who was to produce at the positions that the evidence names.
    pub fn create_slash_inherents(
        &self,
        fork_proofs: &[ForkProof],
        view_changes: &Option<ViewChanges>,
        slots: &SlotTable,
    ) -> (r: Result<Vec<Inherent>, InherentError>)
        ensures
            match r {
                Ok(list) => self.spec_create_slash_inherents(fork_proofs@, *view_changes, slots@)
                    == Ok::<Seq<InherentView>, InherentError>(inherent_views(list@)),
                Err(fault) => self.spec_create_slash_inherents(fork_proofs@, *view_changes, slots@)
                    == Err::<Seq<InherentView>, InherentError>(fault),
            },
            r matches Ok(list) ==> list.len() == fork_proofs.len() + match *view_changes {
                Some(changes) => changes.span(),
                None => 0,
            },
    {
        let mut inherents: Vec<Inherent> = Vec::new();
        let mut i: usize = 0;
        while i < fork_proofs.len()
            invariant
                i <= fork_proofs.len(),
                inherents.len() == i,
                i > 0 ==> self.network.validator_registry is Some,
                forall|j: int| 0 <= j < i ==> (#[trigger] accused(slots@, fork_proofs[j])) is Some,
                forall|j: int|
                    0 <= j < i ==> (#[trigger] inherents[j])@ == slash_for(
                        self.network.validator_registry->0,
                        accused(slots@, fork_proofs[j])->0,
                        fork_proofs[j].header1.block_number,
                    ),
            decreases fork_proofs.len() - i,
        {
            match self.inherent_from_fork_proof(&fork_proofs[i], slots) {
                Ok(inherent) => {
                    inherents.push(inherent);
                },
                Err(fault) => {
                    return Err(fault);
                },
            }
            i += 1;
        }
        match view_changes {
            Some(changes) => {
                let mut more = match self.inherents_from_view_changes(changes, slots) {
                    Ok(more) => more,
                    Err(fault) => {
                        return Err(fault);
                    },
                };
                let ghost first = inherents@;
                let ghost second = more@;
                inherents.append(&mut more);
                proof {
                    let registry = self.network.validator_registry->0;
                    assert(inherent_views(first) =~= fork_proof_inherents(
                        registry,
                        slots@,
                        fork_proofs@,
                    ));
                    assert(inherent_views(inherents@) =~= inherent_views(first) + inherent_views(
                        second,
                    ));
                }
            },
            None => {
                proof {
                    if fork_proofs.len() > 0 {
                        let registry = self.network.validator_registry->0;
                        assert(inherent_views(inherents@) =~= fork_proof_inherents(
                            registry,
                            slots@,
                            fork_proofs@,
                        ) + Seq::empty());
                    } else {
                        assert(inherent_views(inherents@) =~= Seq::empty());
                    }
                }
            },
        }
        Ok(inherents)
    }

    /// The slash inherent for a fork proof, which was verified before.
    /// `slots` says who was to produce at the position that the proof names.
    pub fn inherent_from_fork_proof(&self, fork_proof: &ForkProof, slots: &SlotTable) -> (r: Result<
        Inherent,
        InherentError,
    >)
        ensures
            match r {
                Ok(inherent) => self.spec_inherent_from_fork_proof(*fork_proof, slots@) == Ok::<
                    InherentView,
                    InherentError,
                >(inherent@),
                Err(fault) => self.spec_inherent_from_fork_proof(*fork_proof, slots@) == Err::<
                    InherentView,
                    InherentError,
                >(fault),
            },
    {
        let validator_registry = match self.network.validator_registry_address() {
            Some(address) => address,
            None => {
                return Err(InherentError::NoValidatorRegistry);
            },
        };
        let record = match slots.get_slot_at(
            fork_proof.header1.block_number,
            fork_proof.header1.view_number,
        ) {
            Some(record) => record,
            None => {
                return Err(InherentError::SlotNotFound);
            },
        };
        let slot = SlashedSlot {
            slot: record.slot,
            validator_key: record.validator_key,
            event_block: fork_proof.header1.block_number,
        };
        Ok(
            Inherent {
                ty: InherentType::Slash,
                target: validator_registry,
                value: Coin::zero(),
                data: slot.serialize_to_vec(),
            },
        )
    }

    /// The slash inherents for the views that were given up at one block, one
    /// for each view from the first up to, but not including, the last.
    /// `slots` says who was to produce in each of those views.
    pub fn inherents_from_view_changes(&self, view_changes: &ViewChanges, slots: &SlotTable) -> (r:
        Result<Vec<Inherent>, InherentError>)
        ensures
            match r {
                Ok(list) => self.spec_inherents_from_view_changes(*view_changes, slots@) == Ok::<
                    Seq<InherentView>,
                    InherentError,
                >(inherent_views(list@)),
                Err(fault) => self.spec_inherents_from_view_changes(*view_changes, slots@) == Err::<
                    Seq<InherentView>,
                    InherentError,
                >(fault),
            },
            r matches Ok(list) ==> list.len() == view_changes.span(),
    {
        let validator_registry = match self.network.validator_registry_address() {
            Some(address) => address,
            None => {
                return Err(InherentError::NoValidatorRegistry);
            },
        };
        let mut inherents: Vec<Inherent> = Vec::new();
        let mut view_number: u32 = view_changes.first_view_number;
        while view_number < view_changes.last_view_number
            invariant
                self.network.validator_registry == Some(validator_registry),
                view_changes.first_view_number <= view_number,
                view_number <= view_changes.last_view_number || view_number
                    == view_changes.first_view_number,
                inherents.len() == view_number - view_changes.first_view_number,
                forall|j: int|
                    0 <= j < inherents.len() ==> (#[trigger] skipped(slots@, *view_changes, j))
                        is Some,
                forall|j: int|
                    0 <= j < inherents.len() ==> (#[trigger] inherents[j])@ == slash_for(
                        validator_registry,
                        skipped(slots@, *view_changes, j)->0,
                        view_changes.block_number,
                    ),
            decreases view_changes.last_view_number - view_number,
        {
            let ghost j = view_number - view_changes.first_view_number;
            let record = match slots.get_slot_at(view_changes.block_number, view_number) {
                Some(record) => record,
                None => {
                    return Err(InherentError::SlotNotFound);
                },
            };
            assert(skipped(slots@, *view_changes, j) == Some(record));
            let slot = SlashedSlot {
                slot: record.slot,
                validator_key: record.validator_key,
                event_block: view_changes.block_number,
            };
            inherents.push(
                Inherent {
                    ty: InherentType::Slash,
                    target: validator_registry,
                    value: Coin::zero(),
                    data: slot.serialize_to_vec(),
                },
            );
            view_number += 1;
        }
        assert(inherent_views(inherents@) =~= view_change_inherents(
            validator_registry,
            slots@,
            *view_changes,
        ));
        Ok(inherents)
    }

    /// Whether `result` is what `create_slash_inherents` may return for the
    /// given evidence.
    pub open spec fn slash_result(
        &self,
        fork_proofs: Seq<ForkProof>,
        view_changes: Option<ViewChanges>,
        slots: Seq<SlotRecord>,
        result: Result<Vec<Inherent>, InherentError>,
    ) -> bool {
        match result {
            Ok(list) => self.spec_create_slash_inherents(fork_proofs, view_changes, slots) == Ok::<
                Seq<InherentView>,
                InherentError,
            >(inherent_views(list@)),
            Err(fault) => self.spec_create_slash_inherents(fork_proofs, view_changes, slots)
                == Err::<Seq<InherentView>, InherentError>(fault),
        }
    }

    /// Determinism: the slash inherents are a function of the evidence and of
    /// the producers. Two results for the same evidence hold the same
    /// inherents, one by one, and two faults are the same fault.
    pub proof fn lemma_slash_deterministic(
        &self,
        fork_proofs: Seq<ForkProof>,
        view_changes: Option<ViewChanges>,
        slots: Seq<SlotRecord>,
        result1: Result<Vec<Inherent>, InherentError>,
        result2: Result<Vec<Inherent>, InherentError>,
    )
        requires
            self.slash_result(fork_proofs, view_changes, slots, result1),
            self.slash_result(fork_proofs, view_changes, slots, result2),
        ensures
            result1 is Ok <==> result2 is Ok,
            result1 is Err ==> result1->Err_0 == result2->Err_0,
            result1 is Ok ==> {
                &&& result1->Ok_0.len() == result2->Ok_0.len()
                &&& forall|i: int|
                    0 <= i < result1->Ok_0.len() ==> (#[trigger] result1->Ok_0[i])@
                        == result2->Ok_0[i]@
            },
    {
        if result1 is Ok {
            let list1 = result1->Ok_0;
            let list2 = result2->Ok_0;
            assert(inherent_views(list1@) == inherent_views(list2@));
            assert forall|i: int| 0 <= i < list1.len() implies (#[trigger] list1[i])@
                == list2[i]@ by {
                assert(inherent_views(list1@)[i] == inherent_views(list2@)[i]);
            }
        }
    }

    /// The number of slash inherents: one for each fork proof and one for
    /// each view that was given up.
    pub proof fn lemma_slash_count(
        &self,
        fork_proofs: Seq<ForkProof>,
        view_changes: Option<ViewChanges>,
        slots: Seq<SlotRecord>,
    )
        requires
            self.spec_create_slash_inherents(fork_proofs, view_changes, slots) is Ok,
        ensures
            self.spec_create_slash_inherents(fork_proofs, view_changes, slots)->Ok_0.len()
                == fork_proofs.len() + match view_changes {
                Some(changes) => changes.span(),
                None => 0,
            },
            view_changes matches Some(changes) ==> changes.first_view_number
                <= changes.last_view_number ==> self.spec_create_slash_inherents(
                fork_proofs,
                view_changes,
                slots,
            )->Ok_0.len() == fork_proofs.len() + (changes.last_view_number
                - changes.first_view_number),
    {
    }

    /// Whether the table holds what the resolver answered for the evidence:
    /// each record is an answer of the resolver, and for each position that
    /// the evidence names the table has a record or the resolver knew none.
    pub open spec fn table_for<R: Fn(u32, u32) -> Option<(CompressedPublicKey, u16)>>(
        resolver: R,
        fork_proofs: Seq<ForkProof>,
        view_changes: Option<ViewChanges>,
        slots: Seq<SlotRecord>,
    ) -> bool {
        &&& answered_by(resolver, slots)
        &&& forall|i: int|
            0 <= i < fork_proofs.len() ==> asked(
                resolver,
                slots,
                (#[trigger] fork_proofs[i]).header1.block_number,
                fork_proofs[i].header1.view_number,
            )
        &&& view_changes matches Some(changes) ==> forall|view_number: u32|
            changes.gave_up(view_number) ==> #[trigger] asked(
                resolver,
                slots,
                changes.block_number,
                view_number,
            )
    }

    /// The slash inherents for the given evidence, with the resolver asked on
    /// the way who was to produce at each position that the evidence names.
    /// The result is that of `create_slash_inherents` for the table of the
    /// resolver's answers.
    pub fn create_slash_inherents_with<R: Fn(u32, u32) -> Option<(CompressedPublicKey, u16)>>(
        &self,
        fork_proofs: &[ForkProof],
        view_changes: &Option<ViewChanges>,
        resolver: R,
    ) -> (r: Result<Vec<Inherent>, InherentError>)
        requires
            forall|block_number: u32, view_number: u32|
                call_requires(resolver, (block_number, view_number)),
        ensures
            exists|slots: Seq<SlotRecord>|
                {
                    &&& #[trigger] Self::table_for(resolver, fork_proofs@, *view_changes, slots)
                    &&& self.slash_result(fork_proofs@, *view_changes, slots, r)
                },
            r matches Ok(list) ==> list.len() == fork_proofs.len() + match *view_changes {
                Some(changes) => changes.span(),
                None => 0,
            },
    {
        let slots = SlotTable::for_evidence(fork_proofs, view_changes, resolver);
        let r = self.create_slash_inherents(fork_proofs, view_changes, &slots);
        assert(Self::table_for(resolver, fork_proofs@, *view_changes, slots@));
        r
    }
}

} // verus!
