//! The set of backends, and how discovery changes it.
//!
//! The registry holds one snapshot, the current one. A reader takes a copy of
//! it and works on the copy; a change builds a new snapshot and puts it in
//! the place of the current one, so no snapshot that a reader holds ever
//! changes.

use crate::error::SlyError;
use crate::fallback::TcpProxyFallback;
use crate::select::as_place;
use crate::target::SocketAddress;
use vstd::prelude::*;

verus! {

/// Whether some backend in `backends` is known by `identity`.
pub open spec fn has_backend(backends: Seq<TcpProxyFallback>, identity: SocketAddress) -> bool {
    exists|i: int| 0 <= i < backends.len() && (#[trigger] backends[i]).identity() == identity
}

/// Whether `place` is the first place in `backends` of a backend known by
/// `identity`.
pub open spec fn first_place(
    backends: Seq<TcpProxyFallback>,
    identity: SocketAddress,
    place: int,
) -> bool {
    &&& 0 <= place < backends.len()
    &&& backends[place].identity() == identity
    &&& forall|k: int| 0 <= k < place ==> (#[trigger] backends[k]).identity() != identity
}

/// The first place in `backends` of a backend known by `identity`.
pub open spec fn place_of(backends: Seq<TcpProxyFallback>, identity: SocketAddress) -> Option<
    int,
> {
    if exists|place: int| first_place(backends, identity, place) {
        Some(choose|place: int| first_place(backends, identity, place))
    } else {
        None
    }
}

/// There is one first place at most.
pub proof fn lemma_place_of(backends: Seq<TcpProxyFallback>, identity: SocketAddress, place: int)
    requires
        first_place(backends, identity, place),
    ensures
        place_of(backends, identity) == Some(place),
        has_backend(backends, identity),
{
    let chosen = choose|chosen: int| first_place(backends, identity, chosen);
    if chosen < place {
        assert(backends[chosen].identity() != identity);
    } else if place < chosen {
        assert(backends[place].identity() != identity);
    }
}

/// Where no backend is known by `identity`, it has no place.
pub proof fn lemma_no_place(backends: Seq<TcpProxyFallback>, identity: SocketAddress)
    requires
        !has_backend(backends, identity),
    ensures
        place_of(backends, identity) is None,
{
    if exists|place: int| first_place(backends, identity, place) {
        let place = choose|place: int| first_place(backends, identity, place);
        assert(backends[place].identity() == identity);
    }
}

/// Whether no two backends in `backends` are known by the same address.
pub open spec fn distinct_identities(backends: Seq<TcpProxyFallback>) -> bool {
    forall|i: int, j: int|
        0 <= i < j < backends.len() ==> (#[trigger] backends[i]).identity() != (
        #[trigger] backends[j]).identity()
}

/// The backends of `members` that `removed` does not name, in their order.
pub open spec fn retained(members: Seq<TcpProxyFallback>, removed: Seq<SocketAddress>) -> Seq<
    TcpProxyFallback,
>
    decreases members.len(),
{
    if members.len() == 0 {
        Seq::empty()
    } else {
        let before = retained(members.drop_last(), removed);
        if removed.contains(members.last().identity()) {
            before
        } else {
            before.push(members.last())
        }
    }
}

/// `base`, followed by the backends of `added` that are new to it and that
/// `removed` does not name, in their order. Of two added backends with one
/// identity the first stands.
pub open spec fn absorbed(
    base: Seq<TcpProxyFallback>,
    added: Seq<TcpProxyFallback>,
    removed: Seq<SocketAddress>,
) -> Seq<TcpProxyFallback>
    decreases added.len(),
{
    if added.len() == 0 {
        base
    } else {
        let before = absorbed(base, added.drop_last(), removed);
        let backend = added.last();
        if removed.contains(backend.identity()) || has_backend(before, backend.identity()) {
            before
        } else {
            before.push(backend)
        }
    }
}

/// The members after a change: those that were there, and those added,
/// without those removed.
pub open spec fn merged(
    members: Seq<TcpProxyFallback>,
    added: Seq<TcpProxyFallback>,
    removed: Seq<SocketAddress>,
) -> Seq<TcpProxyFallback> {
    absorbed(retained(members, removed), added, removed)
}

/// What `retained` keeps: the members that are not named, each as it was.
pub proof fn lemma_retained(members: Seq<TcpProxyFallback>, removed: Seq<SocketAddress>)
    ensures
        retained(members, removed).len() <= members.len(),
        forall|k: int|
            0 <= k < retained(members, removed).len() ==> members.contains(
                #[trigger] retained(members, removed)[k],
            ) && !removed.contains(retained(members, removed)[k].identity()),
        forall|i: int|
            0 <= i < members.len() && !removed.contains((#[trigger] members[i]).identity())
                ==> retained(members, removed).contains(members[i]),
        distinct_identities(members) ==> distinct_identities(retained(members, removed)),
    decreases members.len(),
{
    if members.len() > 0 {
        let front = members.drop_last();
        let before = retained(front, removed);
        let kept = retained(members, removed);
        lemma_retained(front, removed);
        assert forall|k: int| 0 <= k < kept.len() implies members.contains(#[trigger] kept[k])
            && !removed.contains(kept[k].identity()) by {
            if k < before.len() {
                let at = choose|at: int| 0 <= at < front.len() && front[at] == before[k];
                assert(members[at] == kept[k]);
            } else {
                assert(members[members.len() - 1] == kept[k]);
            }
        }
        assert forall|i: int|
            0 <= i < members.len() && !removed.contains(
                (#[trigger] members[i]).identity(),
            ) implies kept.contains(members[i]) by {
            if i < front.len() {
                assert(front[i] == members[i]);
                let at = choose|at: int| 0 <= at < before.len() && before[at] == front[i];
                assert(kept[at] == members[i]);
            } else {
                assert(kept[kept.len() - 1] == members[i]);
            }
        }
        if distinct_identities(members) {
            assert(distinct_identities(front)) by {
                assert forall|i: int, j: int| 0 <= i < j < front.len() implies (
                #[trigger] front[i]).identity() != (#[trigger] front[j]).identity() by {
                    assert(front[i] == members[i] && front[j] == members[j]);
                }
            }
            assert forall|i: int, j: int| 0 <= i < j < kept.len() implies (
            #[trigger] kept[i]).identity() != (#[trigger] kept[j]).identity() by {
                if j == before.len() {
                    let at = choose|at: int| 0 <= at < front.len() && front[at] == before[i];
                    assert(members[at] == kept[i]);
                    assert(members[members.len() - 1] == kept[j]);
                }
            }
        }
    }
}

/// What `absorbed` yields: `base` stays at the front as it is, and what
/// follows comes from `added`.
pub proof fn lemma_absorbed(
    base: Seq<TcpProxyFallback>,
    added: Seq<TcpProxyFallback>,
    removed: Seq<SocketAddress>,
)
    ensures
        base.len() <= absorbed(base, added, removed).len() <= base.len() + added.len(),
        forall|k: int| 0 <= k < base.len() ==> absorbed(base, added, removed)[k] == base[k],
        forall|k: int|
            base.len() <= k < absorbed(base, added, removed).len() ==> added.contains(
                #[trigger] absorbed(base, added, removed)[k],
            ) && !removed.contains(absorbed(base, added, removed)[k].identity()),
        forall|i: int|
            0 <= i < added.len() && !removed.contains((#[trigger] added[i]).identity())
                ==> has_backend(absorbed(base, added, removed), added[i].identity()),
        distinct_identities(base) ==> distinct_identities(absorbed(base, added, removed)),
    decreases added.len(),
{
    if added.len() > 0 {
        let front = added.drop_last();
        let before = absorbed(base, front, removed);
        let all = absorbed(base, added, removed);
        lemma_absorbed(base, front, removed);
        assert forall|k: int| base.len() <= k < all.len() implies added.contains(
            #[trigger] all[k],
        ) && !removed.contains(all[k].identity()) by {
            if k < before.len() {
                let at = choose|at: int| 0 <= at < front.len() && front[at] == before[k];
                assert(added[at] == all[k]);
            } else {
                assert(added[added.len() - 1] == all[k]);
            }
        }
        assert forall|i: int|
            0 <= i < added.len() && !removed.contains(
                (#[trigger] added[i]).identity(),
            ) implies has_backend(all, added[i].identity()) by {
            if i < front.len() {
                assert(front[i] == added[i]);
                let at = choose|at: int|
                    0 <= at < before.len() && (#[trigger] before[at]).identity()
                        == front[i].identity();
                assert(all[at].identity() == added[i].identity());
            } else if has_backend(before, added[i].identity()) {
                let at = choose|at: int|
                    0 <= at < before.len() && (#[trigger] before[at]).identity()
                        == added[i].identity();
                assert(all[at].identity() == added[i].identity());
            } else {
                assert(all[all.len() - 1].identity() == added[i].identity());
            }
        }
        if distinct_identities(base) {
            assert forall|i: int, j: int| 0 <= i < j < all.len() implies (
            #[trigger] all[i]).identity() != (#[trigger] all[j]).identity() by {
                if j == before.len() {
                    assert(before[i].identity() != added.last().identity());
                }
            }
        }
    }
}

/// The members after a change are the union of the old and the added
/// members without the removed ones: a backend is a member after the change
/// exactly if it is not removed and was a member or is added. No two members
/// share an identity, and the members that stay keep their places at the
/// front, in their order.
pub proof fn lemma_merged(
    members: Seq<TcpProxyFallback>,
    added: Seq<TcpProxyFallback>,
    removed: Seq<SocketAddress>,
)
    requires
        distinct_identities(members),
    ensures
        distinct_identities(merged(members, added, removed)),
        forall|identity: SocketAddress|
            has_backend(merged(members, added, removed), identity) <==> !removed.contains(identity)
                && (has_backend(members, identity) || has_backend(added, identity)),
        retained(members, removed).is_prefix_of(merged(members, added, removed)),
{
    let kept = retained(members, removed);
    let all = merged(members, added, removed);
    lemma_retained(members, removed);
    lemma_absorbed(kept, added, removed);
    assert(kept =~= all.subrange(0, kept.len() as int));
    assert forall|identity: SocketAddress| has_backend(all, identity) implies !removed.contains(
        identity,
    ) && (has_backend(members, identity) || has_backend(added, identity)) by {
        let k = choose|k: int| 0 <= k < all.len() && (#[trigger] all[k]).identity() == identity;
        if k < kept.len() {
            assert(all[k] == kept[k]);
            let at = choose|at: int| 0 <= at < members.len() && members[at] == kept[k];
            assert(members[at].identity() == identity);
        } else {
            let at = choose|at: int| 0 <= at < added.len() && added[at] == all[k];
            assert(added[at].identity() == identity);
        }
    }
    assert forall|identity: SocketAddress|
        !removed.contains(identity) && (has_backend(members, identity) || has_backend(
            added,
            identity,
        )) implies has_backend(all, identity) by {
        if has_backend(members, identity) {
            let at = choose|at: int|
                0 <= at < members.len() && (#[trigger] members[at]).identity() == identity;
            let k = choose|k: int| 0 <= k < kept.len() && kept[k] == members[at];
            assert(all[k].identity() == identity);
        } else {
            let at = choose|at: int|
                0 <= at < added.len() && (#[trigger] added[at]).identity() == identity;
            assert(has_backend(all, added[at].identity()));
        }
    }
}

/// Whether `addresses` holds `address`.
pub fn lists_address(addresses: &Vec<SocketAddress>, address: SocketAddress) -> (yes: bool)
    ensures
        yes == addresses@.contains(address),
{
    let mut i: usize = 0;
    while i < addresses.len()
        invariant
            i <= addresses.len(),
            forall|k: int| 0 <= k < i ==> addresses@[k] != address,
        decreases addresses.len() - i,
    {
        if addresses[i] == address {
            return true;
        }
        i += 1;
    }
    false
}

/// The place of the backend known by `identity`, if there is one.
pub fn find_backend(backends: &Vec<TcpProxyFallback>, identity: SocketAddress) -> (place: Option<
    usize,
>)
    ensures
        match place {
            Some(i) => first_place(backends@, identity, i as int),
            None => !has_backend(backends@, identity),
        },
        place is Some == has_backend(backends@, identity),
        as_place(place) == place_of(backends@, identity),
{
    let mut i: usize = 0;
    while i < backends.len()
        invariant
            i <= backends.len(),
            forall|k: int| 0 <= k < i ==> (#[trigger] backends@[k]).identity() != identity,
        decreases backends.len() - i,
    {
        if backends[i].target_addr == identity {
            proof {
                lemma_place_of(backends@, identity, i as int);
            }
            return Some(i);
        }
        i += 1;
    }
    proof {
        lemma_no_place(backends@, identity);
    }
    None
}

/// What discovery reports: backends that have come, and the identities of
/// backends that have gone.
#[derive(Debug, PartialEq, Eq)]
pub struct DiscoveryDelta {
    pub added: Vec<TcpProxyFallback>,
    pub removed: Vec<SocketAddress>,
}

/// The backends at one point in time.
#[derive(Debug)]
pub struct RegistrySnapshot {
    version: u64,
    backends: Vec<TcpProxyFallback>,
}

/// A snapshot as a value: its version and its backends in their order.
pub struct SnapshotView {
    pub version: u64,
    pub backends: Seq<TcpProxyFallback>,
}

impl View for RegistrySnapshot {
    type V = SnapshotView;

    closed spec fn view(&self) -> SnapshotView {
        SnapshotView { version: self.version, backends: self.backends@ }
    }
}

impl SnapshotView {
    /// What holds of every snapshot: it has a backend, and no two of its
    /// backends share an identity.
    pub open spec fn well_formed(self) -> bool {
        self.backends.len() > 0 && distinct_identities(self.backends)
    }
}

impl RegistrySnapshot {
    pub fn version(&self) -> (version: u64)
        ensures
            version == self@.version,
    {
        self.version
    }

    pub fn len(&self) -> (len: usize)
        ensures
            len == self@.backends.len(),
    {
        self.backends.len()
    }

    pub fn get(&self, index: usize) -> (backend: TcpProxyFallback)
        requires
            index < self@.backends.len(),
        ensures
            backend == self@.backends[index as int],
    {
        self.backends[index]
    }

    /// The place of the backend known by `identity`, if the snapshot has it.
    pub fn position(&self, identity: SocketAddress) -> (place: Option<usize>)
        ensures
            as_place(place) == place_of(self@.backends, identity),
            place is Some == has_backend(self@.backends, identity),
            place matches Some(i) ==> i < self@.backends.len() && self@.backends[i as int].identity()
                == identity,
    {
        find_backend(&self.backends, identity)
    }

    /// A copy of the snapshot.
    pub fn duplicate(&self) -> (copy: RegistrySnapshot)
        ensures
            copy@ == self@,
    {
        let mut backends: Vec<TcpProxyFallback> = Vec::new();
        let mut i: usize = 0;
        while i < self.backends.len()
            invariant
                i <= self.backends.len(),
                backends@ == self.backends@.take(i as int),
            decreases self.backends.len() - i,
        {
            backends.push(self.backends[i]);
            i += 1;
        }
        assert(self.backends@.take(self.backends.len() as int) == self.backends@);
        RegistrySnapshot { version: self.version, backends }
    }
}

/// The members after a change, computed.
pub fn merge(
    members: &Vec<TcpProxyFallback>,
    added: &Vec<TcpProxyFallback>,
    removed: &Vec<SocketAddress>,
) -> (all: Vec<TcpProxyFallback>)
    ensures
        all@ == merged(members@, added@, removed@),
{
    let mut all: Vec<TcpProxyFallback> = Vec::new();
    let mut i: usize = 0;
    while i < members.len()
        invariant
            i <= members.len(),
            all@ == retained(members@.take(i as int), removed@),
        decreases members.len() - i,
    {
        assert(members@.take(i + 1).drop_last() == members@.take(i as int));
        if !lists_address(removed, members[i].target_addr) {
            all.push(members[i]);
        }
        i += 1;
    }
    assert(members@.take(members.len() as int) == members@);
    let ghost kept = all@;
    let mut j: usize = 0;
    while j < added.len()
        invariant
            j <= added.len(),
            all@ == absorbed(kept, added@.take(j as int), removed@),
        decreases added.len() - j,
    {
        assert(added@.take(j + 1).drop_last() == added@.take(j as int));
        let backend = added[j];
        if !lists_address(removed, backend.target_addr) {
            if find_backend(&all, backend.target_addr).is_none() {
                all.push(backend);
            }
        }
        j += 1;
    }
    assert(added@.take(added.len() as int) == added@);
    all
}

/// The set of backends as it stands, with the number of its version.
#[derive(Debug)]
pub struct Registry {
    current: RegistrySnapshot,
}

impl View for Registry {
    type V = SnapshotView;

    /// The current snapshot.
    closed spec fn view(&self) -> SnapshotView {
        self.current@
    }
}

/// The version that follows `version`. Versions count up and stop at the
/// largest number there is.
pub open spec fn next_version(version: u64) -> u64 {
    if version < u64::MAX {
        (version + 1) as u64
    } else {
        version
    }
}

/// The registry after a change. A change that would leave no backend is not
/// made.
pub open spec fn applied(
    current: SnapshotView,
    added: Seq<TcpProxyFallback>,
    removed: Seq<SocketAddress>,
) -> SnapshotView {
    if merged(current.backends, added, removed).len() == 0 {
        current
    } else {
        SnapshotView {
            version: next_version(current.version),
            backends: merged(current.backends, added, removed),
        }
    }
}

impl Registry {
    /// A registry of `initial`, in its order; of two backends with one
    /// identity the first stands. Fails where `initial` is empty.
    pub fn new(initial: Vec<TcpProxyFallback>) -> (made: Result<Registry, SlyError>)
        ensures
            initial@.len() == 0 <==> made is Err,
            made matches Err(error) ==> error == SlyError::RegistryEmpty,
            made matches Ok(registry) ==> registry@.well_formed() && registry@
                == (SnapshotView {
                version: 0,
                backends: merged(Seq::empty(), initial@, Seq::empty()),
            }),
    {
        if initial.len() == 0 {
            return Err(SlyError::RegistryEmpty);
        }
        let none: Vec<TcpProxyFallback> = Vec::new();
        let nothing: Vec<SocketAddress> = Vec::new();
        let backends = merge(&none, &initial, &nothing);
        proof {
            lemma_merged(none@, initial@, nothing@);
            assert(has_backend(initial@, initial@[0].identity()));
            assert(has_backend(backends@, initial@[0].identity()));
        }
        Ok(Registry { current: RegistrySnapshot { version: 0, backends } })
    }

    /// The current snapshot, as a copy that no later change touches.
    pub fn snapshot(&self) -> (snapshot: RegistrySnapshot)
        ensures
            snapshot@ == self@,
    {
        self.current.duplicate()
    }

    /// Puts the change into effect: builds the new snapshot and makes it the
    /// current one. Answers whether it did; it does not where the change
    /// would leave no backend.
    pub fn apply(&mut self, delta: &DiscoveryDelta) -> (published: bool)
        requires
            old(self)@.well_formed(),
        ensures
            final(self)@ == applied(old(self)@, delta.added@, delta.removed@),
            final(self)@.well_formed(),
            published == (merged(old(self)@.backends, delta.added@, delta.removed@).len() > 0),
    {
        let backends = merge(&self.current.backends, &delta.added, &delta.removed);
        proof {
            lemma_merged(self.current.backends@, delta.added@, delta.removed@);
        }
        if backends.len() == 0 {
            false
        } else {
            let version = if self.current.version < u64::MAX {
                self.current.version + 1
            } else {
                self.current.version
            };
            self.current = RegistrySnapshot { version, backends };
            true
        }
    }
}

} // verus!
