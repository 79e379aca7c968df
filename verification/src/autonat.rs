use vstd::prelude::*;

verus! {

/// What is known of how a node can be reached from outside.
#[derive(Clone, Copy, Debug, PartialEq, Eq, Structural, Hash)]
pub enum NatStatus {
    /// The node can be reached at one of its addresses.
    Public,
    /// The node cannot be reached at any of its addresses.
    Private,
    /// Nothing is known yet.
    Unknown,
}

impl Default for NatStatus {
    fn default() -> (s: NatStatus)
        ensures
            s == NatStatus::Unknown,
    {
        NatStatus::Unknown
    }
}

/// What a change of the node's status is worth telling.
#[derive(Clone, Copy, Debug, PartialEq, Eq, Structural, Hash)]
pub enum NatNotice {
    /// No address of the node can be reached: a warning.
    Unreachable,
    /// An address of the node can be reached now: the old status is given.
    Reachable { old: NatStatus },
}

/// The status that follows from the addresses: public where an address is
/// confirmed, else private where every listen address is private, else
/// unknown.
pub open spec fn status_of(listen: Map<Seq<u8>, NatStatus>, confirmed: Set<Seq<u8>>) -> NatStatus {
    if exists|address: Seq<u8>| confirmed.contains(address) {
        NatStatus::Public
    } else if forall|address: Seq<u8>|
        listen.dom().contains(address) ==> #[trigger] listen[address] == NatStatus::Private {
        NatStatus::Private
    } else {
        NatStatus::Unknown
    }
}

/// What is told when the status goes from `old` to `new`: nothing where it
/// stays, a warning where it becomes private, the news where it becomes
/// public, and nothing where it becomes unknown.
pub open spec fn notice_of(old: NatStatus, new: NatStatus) -> Option<NatNotice> {
    if old == new {
        None
    } else if new == NatStatus::Private {
        Some(NatNotice::Unreachable)
    } else if new == NatStatus::Public {
        Some(NatNotice::Reachable { old })
    } else {
        None
    }
}

/// Whether one of the addresses is `address`.
spec fn lists(addresses: Seq<Vec<u8>>, address: Seq<u8>) -> bool {
    exists|i: int| 0 <= i < addresses.len() && (#[trigger] addresses[i])@ == address
}

/// No address is listed twice.
spec fn distinct(addresses: Seq<Vec<u8>>) -> bool {
    forall|i: int, j: int|
        0 <= i < j < addresses.len() ==> (#[trigger] addresses[i])@ != (#[trigger] addresses[j])@
}

/// The place of `address` among the addresses.
spec fn place_of(addresses: Seq<Vec<u8>>, address: Seq<u8>) -> int {
    choose|i: int| 0 <= i < addresses.len() && (#[trigger] addresses[i])@ == address
}

/// The set of the addresses.
spec fn address_set(addresses: Seq<Vec<u8>>) -> Set<Seq<u8>> {
    Set::new(|address: Seq<u8>| lists(addresses, address))
}

/// The map from each address to the status that stands at its place.
spec fn address_map(addresses: Seq<Vec<u8>>, statuses: Seq<NatStatus>) -> Map<
    Seq<u8>,
    NatStatus,
> {
    Map::new(
        |address: Seq<u8>| lists(addresses, address),
        |address: Seq<u8>| statuses[place_of(addresses, address)],
    )
}

/// The addresses of a node as a mathematical value.
pub struct NatStateView {
    /// The addresses that the node listens on, each with its status.
    pub listen: Map<Seq<u8>, NatStatus>,
    /// The addresses at which the node was reached.
    pub confirmed: Set<Seq<u8>>,
    /// The status of the node.
    pub status: NatStatus,
}

/// The addresses that a node listens on with what is known of each, and the
/// status of the node that follows from them. An address is the bytes of a
/// multiaddress.
#[derive(Debug)]
pub struct NatState {
    confirmed_addresses: Vec<Vec<u8>>,
    listen_addresses: Vec<Vec<u8>>,
    listen_statuses: Vec<NatStatus>,
    status: NatStatus,
}

/// Whether two addresses are the same bytes.
fn same_address(a: &Vec<u8>, b: &Vec<u8>) -> (same: bool)
    ensures
        same == (a@ == b@),
{
    if a.len() != b.len() {
        return false;
    }
    let mut i: usize = 0;
    while i < a.len()
        invariant
            a.len() == b.len(),
            i <= a.len(),
            forall|j: int| 0 <= j < i ==> a[j] == b[j],
        decreases a.len() - i,
    {
        if a[i] != b[i] {
            return false;
        }
        i += 1;
    }
    assert(a@ =~= b@);
    true
}

/// The place of `address` among the addresses, if it is listed.
fn find(addresses: &Vec<Vec<u8>>, address: &Vec<u8>) -> (r: Option<usize>)
    ensures
        r is Some <==> lists(addresses@, address@),
        r matches Some(i) ==> i < addresses.len() && addresses[i as int]@ == address@,
{
    let mut i: usize = 0;
    while i < addresses.len()
        invariant
            i <= addresses.len(),
            forall|j: int| 0 <= j < i ==> (#[trigger] addresses[j])@ != address@,
        decreases addresses.len() - i,
    {
        if same_address(&addresses[i], address) {
            return Some(i);
        }
        i += 1;
    }
    None
}

/// Taking the address at place `i` away leaves the other addresses, still
/// distinct.
proof fn lemma_remove(addresses: Seq<Vec<u8>>, i: int)
    requires
        distinct(addresses),
        0 <= i < addresses.len(),
    ensures
        distinct(addresses.remove(i)),
        address_set(addresses.remove(i)) == address_set(addresses).remove(addresses[i]@),
{
    let rest = addresses.remove(i);
    assert forall|address: Seq<u8>| address_set(rest).contains(address) == address_set(
        addresses,
    ).remove(addresses[i]@).contains(address) by {
        if lists(addresses, address) && address != addresses[i]@ {
            let a0 = choose|a: int|
                0 <= a < addresses.len() && (#[trigger] addresses[a])@ == address;
            let a = if a0 < i { a0 } else { a0 - 1 };
            assert(rest[a]@ == address);
        }
    }
}

/// Adding an address that is not listed leaves the addresses distinct.
proof fn lemma_push(addresses: Seq<Vec<u8>>, address: Vec<u8>)
    requires
        distinct(addresses),
        !lists(addresses, address@),
    ensures
        distinct(addresses.push(address)),
        address_set(addresses.push(address)) == address_set(addresses).insert(address@),
{
    let more = addresses.push(address);
    assert forall|other: Seq<u8>| address_set(more).contains(other) == address_set(
        addresses,
    ).insert(address@).contains(other) by {
        if lists(addresses, other) {
            let a = choose|a: int| 0 <= a < addresses.len() && (#[trigger] addresses[a])@ == other;
            assert(more[a] == addresses[a]);
        }
        if other == address@ {
            assert(more[addresses.len() as int]@ == other);
        }
    }
}

impl View for NatState {
    type V = NatStateView;

    closed spec fn view(&self) -> NatStateView {
        NatStateView {
            listen: address_map(self.listen_addresses@, self.listen_statuses@),
            confirmed: address_set(self.confirmed_addresses@),
            status: self.status,
        }
    }
}

impl Default for NatState {
    /// A node without addresses, of which nothing is known.
    fn default() -> (state: NatState)
        ensures
            state.wf(),
            state@.listen == Map::<Seq<u8>, NatStatus>::empty(),
            state@.confirmed == Set::<Seq<u8>>::empty(),
            state@.status == NatStatus::Unknown,
    {
        NatState::new()
    }
}

impl NatState {
    /// The state is sound: no address is kept twice. Every state that `new`
    /// gave and the methods changed is sound.
    pub closed spec fn wf(&self) -> bool {
        &&& distinct(self.confirmed_addresses@)
        &&& distinct(self.listen_addresses@)
        &&& self.listen_addresses.len() == self.listen_statuses.len()
    }

    /// A node without addresses, of which nothing is known.
    pub fn new() -> (state: NatState)
        ensures
            state.wf(),
            state@.listen == Map::<Seq<u8>, NatStatus>::empty(),
            state@.confirmed == Set::<Seq<u8>>::empty(),
            state@.status == NatStatus::Unknown,
    {
        let state = NatState {
            confirmed_addresses: Vec::new(),
            listen_addresses: Vec::new(),
            listen_statuses: Vec::new(),
            status: NatStatus::Unknown,
        };
        state
    }

    /// The status of the node.
    pub fn status(&self) -> (s: NatStatus)
        ensures
            s == self@.status,
    {
        self.status
    }

    /// What is known of a listen address, or `None` where the node does not
    /// listen on it.
    pub fn listen_address_status(&self, address: &Vec<u8>) -> (r: Option<NatStatus>)
        requires
            self.wf(),
        ensures
            r == if self@.listen.dom().contains(address@) {
                Some(self@.listen[address@])
            } else {
                None
            },
    {
        match find(&self.listen_addresses, address) {
            Some(i) => {
                Some(self.listen_statuses[i])
            },
            None => None,
        }
    }

    /// Whether the node was reached at the address.
    pub fn is_confirmed(&self, address: &Vec<u8>) -> (r: bool)
        ensures
            r == self@.confirmed.contains(address@),
    {
        find(&self.confirmed_addresses, address).is_some()
    }

    /// Takes `address` among the listen addresses, with nothing known of it.
    /// What was known of it before is forgotten. The status of the node
    /// stays as it is.
    pub fn add_listen_address(&mut self, address: Vec<u8>)
        requires
            old(self).wf(),
        ensures
            final(self).wf(),
            final(self)@.listen == old(self)@.listen.insert(address@, NatStatus::Unknown),
            final(self)@.confirmed == old(self)@.confirmed,
            final(self)@.status == old(self)@.status,
    {
        match find(&self.listen_addresses, &address) {
            Some(i) => {
                self.listen_statuses.set(i, NatStatus::Unknown);
            },
            None => {
                proof {
                    lemma_push(self.listen_addresses@, address);
                }
                self.listen_addresses.push(address);
                self.listen_statuses.push(NatStatus::Unknown);
            },
        }
    }

    /// Forgets a listen address, also as a confirmed one, and works out the
    /// status of the node anew. Gives what the change of status is worth
    /// telling.
    pub fn remove_listen_address(&mut self, address: &Vec<u8>) -> (notice: Option<NatNotice>)
        requires
            old(self).wf(),
        ensures
            final(self).wf(),
            final(self)@.listen == old(self)@.listen.remove(address@),
            final(self)@.confirmed == old(self)@.confirmed.remove(address@),
            final(self)@.status == status_of(final(self)@.listen, final(self)@.confirmed),
            notice == notice_of(old(self)@.status, final(self)@.status),
    {
        if let Some(i) = find(&self.listen_addresses, address) {
            proof {
                lemma_remove(self.listen_addresses@, i as int);
            }
            self.listen_addresses.remove(i);
            self.listen_statuses.remove(i);
        }
        self.forget_confirmed(address);
        self.update_state()
    }

    /// Sets what is known of a listen address, confirms the address where it
    /// is public and takes the confirmation back where it is not, and works
    /// out the status of the node anew. Gives what the change of status is
    /// worth telling. Nothing happens where the node does not listen on the
    /// address.
    pub fn set_listen_address_nat_status(
        &mut self,
        address: Vec<u8>,
        nat_status: NatStatus,
    ) -> (notice: Option<NatNotice>)
        requires
            old(self).wf(),
        ensures
            final(self).wf(),
            !old(self)@.listen.dom().contains(address@) ==> final(self)@ == old(self)@ && notice
                is None,
            old(self)@.listen.dom().contains(address@) ==> {
                &&& final(self)@.listen == old(self)@.listen.insert(address@, nat_status)
                &&& final(self)@.confirmed == if nat_status == NatStatus::Public {
                    old(self)@.confirmed.insert(address@)
                } else {
                    old(self)@.confirmed.remove(address@)
                }
                &&& final(self)@.status == status_of(final(self)@.listen, final(self)@.confirmed)
                &&& notice == notice_of(old(self)@.status, final(self)@.status)
            },
    {
        match find(&self.listen_addresses, &address) {
            Some(i) => {
                self.listen_statuses.set(i, nat_status);
                if nat_status == NatStatus::Public {
                    self.confirm(address);
                } else {
                    self.forget_confirmed(&address);
                }
                self.update_state()
            },
            None => None,
        }
    }

    /// Takes note that the node was reached at a listen address: the address
    /// is public and confirmed, and the status of the node is worked out
    /// anew. Gives what the change of status is worth telling. Nothing
    /// happens where the node does not listen on the address.
    pub fn add_confirmed_address(&mut self, address: Vec<u8>) -> (notice: Option<NatNotice>)
        requires
            old(self).wf(),
        ensures
            final(self).wf(),
            !old(self)@.listen.dom().contains(address@) ==> final(self)@ == old(self)@ && notice
                is None,
            old(self)@.listen.dom().contains(address@) ==> {
                &&& final(self)@.listen == old(self)@.listen.insert(address@, NatStatus::Public)
                &&& final(self)@.confirmed == old(self)@.confirmed.insert(address@)
                &&& final(self)@.status == NatStatus::Public
                &&& final(self)@.status == status_of(final(self)@.listen, final(self)@.confirmed)
                &&& notice == notice_of(old(self)@.status, NatStatus::Public)
            },
    {
        match find(&self.listen_addresses, &address) {
            Some(i) => {
                self.listen_statuses.set(i, NatStatus::Public);
                self.confirm(address);
                assert(self@.confirmed.contains(address@));
                self.update_state()
            },
            None => None,
        }
    }

    /// Takes note that the node was not reached at a listen address: the
    /// address is private and no longer confirmed, and the status of the node
    /// is worked out anew. Gives what the change of status is worth telling.
    /// Nothing happens where the node does not listen on the address.
    pub fn remove_confirmed_address(&mut self, address: &Vec<u8>) -> (notice: Option<NatNotice>)
        requires
            old(self).wf(),
        ensures
            final(self).wf(),
            !old(self)@.listen.dom().contains(address@) ==> final(self)@ == old(self)@ && notice
                is None,
            old(self)@.listen.dom().contains(address@) ==> {
                &&& final(self)@.listen == old(self)@.listen.insert(address@, NatStatus::Private)
                &&& final(self)@.confirmed == old(self)@.confirmed.remove(address@)
                &&& final(self)@.status == status_of(final(self)@.listen, final(self)@.confirmed)
                &&& notice == notice_of(old(self)@.status, final(self)@.status)
            },
    {
        match find(&self.listen_addresses, address) {
            Some(i) => {
                self.listen_statuses.set(i, NatStatus::Private);
                self.forget_confirmed(address);
                self.update_state()
            },
            None => None,
        }
    }

    /// Takes `address` among the confirmed addresses.
    fn confirm(&mut self, address: Vec<u8>)
        requires
            old(self).wf(),
        ensures
            final(self).wf(),
            final(self)@.listen == old(self)@.listen,
            final(self)@.confirmed == old(self)@.confirmed.insert(address@),
            final(self)@.status == old(self)@.status,
    {
        if find(&self.confirmed_addresses, &address).is_none() {
            proof {
                lemma_push(self.confirmed_addresses@, address);
            }
            self.confirmed_addresses.push(address);
        }
    }

    /// Takes `address` away from the confirmed addresses.
    fn forget_confirmed(&mut self, address: &Vec<u8>)
        requires
            old(self).wf(),
        ensures
            final(self).wf(),
            final(self)@.listen == old(self)@.listen,
            final(self)@.confirmed == old(self)@.confirmed.remove(address@),
            final(self)@.status == old(self)@.status,
    {
        if let Some(i) = find(&self.confirmed_addresses, address) {
            proof {
                lemma_remove(self.confirmed_addresses@, i as int);
            }
            self.confirmed_addresses.remove(i);
        }
    }

    /// Works out the status of the node from its addresses and gives what
    /// the change is worth telling.
    fn update_state(&mut self) -> (notice: Option<NatNotice>)
        requires
            old(self).wf(),
        ensures
            final(self).wf(),
            final(self)@.listen == old(self)@.listen,
            final(self)@.confirmed == old(self)@.confirmed,
            final(self)@.status == status_of(old(self)@.listen, old(self)@.confirmed),
            notice == notice_of(old(self)@.status, final(self)@.status),
    {
        let old_nat_status = self.status;
        if self.confirmed_addresses.len() > 0 {
            assert(self@.confirmed.contains(self.confirmed_addresses[0]@));
            self.status = NatStatus::Public;
        } else if self.all_private() {
            self.status = NatStatus::Private;
        } else {
            self.status = NatStatus::Unknown;
        }
        Self::handle_new_status(old_nat_status, self.status)
    }

    /// Whether every listen address is private.
    fn all_private(&self) -> (r: bool)
        requires
            self.wf(),
        ensures
            r == forall|address: Seq<u8>|
                self@.listen.dom().contains(address) ==> #[trigger] self@.listen[address]
                    == NatStatus::Private,
    {
        let mut i: usize = 0;
        while i < self.listen_statuses.len()
            invariant
                self.wf(),
                i <= self.listen_statuses.len(),
                forall|j: int| 0 <= j < i ==> self.listen_statuses[j] == NatStatus::Private,
            decreases self.listen_statuses.len() - i,
        {
            if self.listen_statuses[i] != NatStatus::Private {
                proof {
                    let address = self.listen_addresses[i as int]@;
                    assert(self@.listen[address] != NatStatus::Private);
                }
                return false;
            }
            i += 1;
        }
        true
    }

    /// What is told when the status of the node goes from `old_nat_status` to
    /// `new_nat_status`.
    pub fn handle_new_status(old_nat_status: NatStatus, new_nat_status: NatStatus) -> (notice:
        Option<NatNotice>)
        ensures
            notice == notice_of(old_nat_status, new_nat_status),
    {
        if old_nat_status == new_nat_status {
            None
        } else if new_nat_status == NatStatus::Private {
            Some(NatNotice::Unreachable)
        } else if new_nat_status == NatStatus::Public {
            Some(NatNotice::Reachable { old: old_nat_status })
        } else {
            None
        }
    }
}

} // verus!
