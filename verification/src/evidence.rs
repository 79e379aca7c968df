use vstd::prelude::*;
use crate::keys::CompressedPublicKey;

verus! {

/// The header of a micro block, as far as slashing depends on it.
#[derive(Clone, Copy, Debug, PartialEq, Eq, Hash)]
pub struct MicroHeader {
    pub block_number: u32,
    pub view_number: u32,
}

/// The proof that a validator produced two blocks at one position: the two
/// headers, which name the same block number and view number.
#[derive(Clone, Copy, Debug, PartialEq, Eq, Hash)]
pub struct ForkProof {
    pub header1: MicroHeader,
    pub header2: MicroHeader,
}

/// The views that were given up at one block: from `first_view_number` up to,
/// but not including, `last_view_number`, at which the block was produced.
#[derive(Clone, Copy, Debug, PartialEq, Eq, Hash)]
pub struct ViewChanges {
    pub block_number: u32,
    pub first_view_number: u32,
    pub last_view_number: u32,
}

impl ViewChanges {
    /// Whether the view is one of those that were given up.
    pub open spec fn gave_up(self, view_number: u32) -> bool {
        self.first_view_number <= view_number < self.last_view_number
    }

    /// The number of views that were given up.
    pub open spec fn span(self) -> int {
        if self.last_view_number > self.first_view_number {
            self.last_view_number - self.first_view_number
        } else {
            0
        }
    }
}

/// Who was to produce the block at one position: the slot and the key of the
/// validator that held it.
#[derive(Clone, Copy, Debug, PartialEq, Eq, Hash)]
pub struct SlotRecord {
    pub block_number: u32,
    pub view_number: u32,
    pub validator_key: CompressedPublicKey,
    pub slot: u16,
}

/// The producers of a range of the chain, position by position. Of two
/// records for one position the earlier one counts.
#[derive(Clone, Debug, PartialEq, Eq)]
pub struct SlotTable {
    pub records: Vec<SlotRecord>,
}

impl View for SlotTable {
    type V = Seq<SlotRecord>;

    open spec fn view(&self) -> Seq<SlotRecord> {
        self.records@
    }
}

/// The first record from index `from` on that is for the given position.
pub open spec fn resolve_from(
    records: Seq<SlotRecord>,
    block_number: u32,
    view_number: u32,
    from: int,
) -> Option<SlotRecord>
    decreases records.len() - from,
{
    if from < 0 || from >= records.len() {
        None
    } else if records[from].block_number == block_number && records[from].view_number
        == view_number {
        Some(records[from])
    } else {
        resolve_from(records, block_number, view_number, from + 1)
    }
}

/// The record for the given position, if the table has one.
pub open spec fn resolve(records: Seq<SlotRecord>, block_number: u32, view_number: u32) -> Option<
    SlotRecord,
> {
    resolve_from(records, block_number, view_number, 0)
}

impl SlotTable {
    /// The producer of the block at `block_number` in view `view_number`, if
    /// the table knows it.
    pub fn get_slot_at(&self, block_number: u32, view_number: u32) -> (r: Option<SlotRecord>)
        ensures
            r == resolve(self@, block_number, view_number),
    {
        let mut i: usize = 0;
        while i < self.records.len()
            invariant
                i <= self.records.len(),
                resolve(self@, block_number, view_number) == resolve_from(
                    self@,
                    block_number,
                    view_number,
                    i as int,
                ),
            decreases self.records.len() - i,
        {
            let record = self.records[i];
            if record.block_number == block_number && record.view_number == view_number {
                return Some(record);
            }
            i += 1;
        }
        None
    }
}

/// A record that the table has for a position stays the record for it when
/// more records are added at the end.
proof fn lemma_resolve_from_push(
    records: Seq<SlotRecord>,
    record: SlotRecord,
    block_number: u32,
    view_number: u32,
    from: int,
)
    requires
        0 <= from,
        resolve_from(records, block_number, view_number, from) is Some,
    ensures
        resolve_from(records.push(record), block_number, view_number, from) == resolve_from(
            records,
            block_number,
            view_number,
            from,
        ),
    decreases records.len() - from,
{
    if from < records.len() {
        let here = records[from];
        assert(records.push(record)[from] == here);
        if !(here.block_number == block_number && here.view_number == view_number) {
            lemma_resolve_from_push(records, record, block_number, view_number, from + 1);
        }
    }
}

/// A record that is added at the end is found, unless an earlier one is.
proof fn lemma_resolve_from_last(records: Seq<SlotRecord>, record: SlotRecord, from: int)
    requires
        0 <= from <= records.len(),
    ensures
        resolve_from(records.push(record), record.block_number, record.view_number, from)
            is Some,
    decreases records.len() - from,
{
    let more = records.push(record);
    if from < records.len() {
        let here = more[from];
        if !(here.block_number == record.block_number && here.view_number
            == record.view_number) {
            lemma_resolve_from_last(records, record, from + 1);
        }
    } else {
        assert(more[from] == record);
    }
}

/// Whether the table knows the position or the resolver, when asked for it,
/// may say that it knows none.
pub open spec fn asked<R: Fn(u32, u32) -> Option<(CompressedPublicKey, u16)>>(
    resolver: R,
    records: Seq<SlotRecord>,
    block_number: u32,
    view_number: u32,
) -> bool {
    resolve(records, block_number, view_number) is Some || call_ensures(
        resolver,
        (block_number, view_number),
        None::<(CompressedPublicKey, u16)>,
    )
}

/// Whether each record is an answer that the resolver may give for the
/// record's position.
pub open spec fn answered_by<R: Fn(u32, u32) -> Option<(CompressedPublicKey, u16)>>(
    resolver: R,
    records: Seq<SlotRecord>,
) -> bool {
    forall|i: int|
        0 <= i < records.len() ==> call_ensures(
            resolver,
            ((#[trigger] records[i]).block_number, records[i].view_number),
            Some((records[i].validator_key, records[i].slot)),
        )
}

impl SlotTable {
    /// Asks the resolver for one position and keeps what it answers.
    fn ask<R: Fn(u32, u32) -> Option<(CompressedPublicKey, u16)>>(
        &mut self,
        resolver: &R,
        block_number: u32,
        view_number: u32,
    )
        requires
            call_requires(*resolver, (block_number, view_number)),
            answered_by(*resolver, old(self)@),
        ensures
            answered_by(*resolver, final(self)@),
            asked(*resolver, final(self)@, block_number, view_number),
            forall|b: u32, v: u32|
                asked(*resolver, old(self)@, b, v) ==> asked(*resolver, final(self)@, b, v),
    {
        match resolver(block_number, view_number) {
            Some((validator_key, slot)) => {
                let record = SlotRecord { block_number, view_number, validator_key, slot };
                proof {
                    lemma_resolve_from_last(self@, record, 0);
                    assert forall|b: u32, v: u32| asked(*resolver, self@, b, v) implies asked(
                        *resolver,
                        self@.push(record),
                        b,
                        v,
                    ) by {
                        if resolve(self@, b, v) is Some {
                            lemma_resolve_from_push(self@, record, b, v, 0);
                        }
                    }
                }
                self.records.push(record);
            },
            None => {},
        }
    }

    /// The table of the producers at the positions that the evidence names:
    /// the resolver is asked for the position of each fork proof, in order,
    /// and then for each view that was given up. Each record of the table is
    /// an answer of the resolver, and a position that the table lacks is one
    /// for which the resolver knew no producer.
    pub fn for_evidence<R: Fn(u32, u32) -> Option<(CompressedPublicKey, u16)>>(
        fork_proofs: &[ForkProof],
        view_changes: &Option<ViewChanges>,
        resolver: R,
    ) -> (table: SlotTable)
        requires
            forall|block_number: u32, view_number: u32|
                call_requires(resolver, (block_number, view_number)),
        ensures
            answered_by(resolver, table@),
            forall|i: int|
                0 <= i < fork_proofs.len() ==> asked(
                    resolver,
                    table@,
                    (#[trigger] fork_proofs[i]).header1.block_number,
                    fork_proofs[i].header1.view_number,
                ),
            view_changes matches Some(changes) ==> forall|view_number: u32|
                changes.gave_up(view_number) ==> #[trigger] asked(
                    resolver,
                    table@,
                    changes.block_number,
                    view_number,
                ),
    {
        let mut table = SlotTable { records: Vec::new() };
        let mut i: usize = 0;
        while i < fork_proofs.len()
            invariant
                forall|block_number: u32, view_number: u32|
                    call_requires(resolver, (block_number, view_number)),
                i <= fork_proofs.len(),
                answered_by(resolver, table@),
                forall|j: int|
                    0 <= j < i ==> asked(
                        resolver,
                        table@,
                        (#[trigger] fork_proofs[j]).header1.block_number,
                        fork_proofs[j].header1.view_number,
                    ),
            decreases fork_proofs.len() - i,
        {
            let header = fork_proofs[i].header1;
            table.ask(&resolver, header.block_number, header.view_number);
            i += 1;
        }
        if let Some(changes) = view_changes {
            let mut view_number: u32 = changes.first_view_number;
            while view_number < changes.last_view_number
                invariant
                    forall|block_number: u32, view_number: u32|
                        call_requires(resolver, (block_number, view_number)),
                    *view_changes == Some(*changes),
                    changes.first_view_number <= view_number,
                    answered_by(resolver, table@),
                    forall|j: int|
                        0 <= j < fork_proofs.len() ==> asked(
                            resolver,
                            table@,
                            (#[trigger] fork_proofs[j]).header1.block_number,
                            fork_proofs[j].header1.view_number,
                        ),
                    forall|v: u32|
                        changes.first_view_number <= v < view_number ==> #[trigger] asked(
                            resolver,
                            table@,
                            changes.block_number,
                            v,
                        ),
                decreases changes.last_view_number - view_number,
            {
                table.ask(&resolver, changes.block_number, view_number);
                view_number += 1;
            }
        }
        table
    }
}

} // verus!
