//! The peers of this node, from the catalog.

use vstd::prelude::*;
use vstd::string::*;

use crate::client::{
    catalog_change, catalog_listing, CatalogServiceEntry, ConsulClient, POLL_GRACE_SECS,
};
use crate::error::ClusterError;
use crate::http::{HttpRequest, Sent};
use crate::text::{
    comes_before, decimal, decimal_reads_back, push_decimal, same_text, text_before,
    text_before_irreflexive, text_before_total, text_before_transitive, texts, unsigned_64,
};
use crate::time::{
    jitter_picks_any_millisecond_within_a_fifth, jitter_stays_within_a_fifth, jittered, jittered_by,
    Duration, NANOS_PER_SEC,
};

verus! {

/// How a peer is.
#[derive(Clone, Copy, Debug, PartialEq, Eq, Structural)]
pub enum PeerHealth {
    Healthy,
}

/// A peer of this node.
#[derive(Debug)]
pub struct ClusterPeer {
    pub node_id: String,
    pub address: String,
    pub last_seen: String,
    pub health: PeerHealth,
    pub roles: Vec<String>,
}

/// A [`ClusterPeer`] in the model.
pub struct PeerModel {
    pub node_id: Seq<char>,
    pub address: Seq<char>,
    pub last_seen: Seq<char>,
    pub health: PeerHealth,
    pub roles: Seq<Seq<char>>,
}

impl View for ClusterPeer {
    type V = PeerModel;

    open spec fn view(&self) -> PeerModel {
        PeerModel {
            node_id: self.node_id@,
            address: self.address@,
            last_seen: self.last_seen@,
            health: self.health,
            roles: texts(self.roles@),
        }
    }
}

/// Where an instance of a service listens.
pub open spec fn endpoint(entry: CatalogServiceEntry) -> Seq<char> {
    entry.address@ + ":"@ + decimal(entry.service_port as nat)
}

/// A healthy peer without roles.
pub open spec fn healthy_peer(node_id: Seq<char>, address: Seq<char>, last_seen: Seq<char>) -> PeerModel {
    PeerModel { node_id, address, last_seen, health: PeerHealth::Healthy, roles: Seq::empty() }
}

fn endpoint_of(entry: &CatalogServiceEntry) -> (r: String)
    ensures
        r@ == endpoint(*entry),
{
    let mut text = entry.address.clone();
    text.append(":");
    push_decimal(&mut text, entry.service_port as u64);
    text
}

fn peer(node_id: String, address: String, last_seen: String) -> (r: ClusterPeer)
    ensures
        r@ == healthy_peer(node_id@, address@, last_seen@),
{
    let roles: Vec<String> = Vec::new();
    assert(texts(roles@) =~= Seq::<Seq<char>>::empty());
    ClusterPeer { node_id, address, last_seen, health: PeerHealth::Healthy, roles }
}

/// Peers in the model.
pub open spec fn peer_models(peers: Seq<ClusterPeer>) -> Seq<PeerModel> {
    peers.map_values(|p: ClusterPeer| p@)
}

/// The peers that a listing of the catalog shows, one for each instance: none where the listing
/// failed.
pub open spec fn peers_shown(sent: Sent<Vec<CatalogServiceEntry>>, last_seen: Seq<char>) -> Seq<PeerModel> {
    match catalog_listing(sent) {
        Ok(entries) => entries@.map_values(
            |e: CatalogServiceEntry| healthy_peer(e.service_id@, endpoint(e), last_seen),
        ),
        Err(_) => Seq::empty(),
    }
}

/// The peers that a listing of the catalog shows, as they were seen at the instant `last_seen`.
pub fn peers_from_listing(sent: Sent<Vec<CatalogServiceEntry>>, last_seen: &str) -> (r: Vec<
    ClusterPeer,
>)
    ensures
        peer_models(r@) == peers_shown(sent, last_seen@),
{
    let mut peers: Vec<ClusterPeer> = Vec::new();
    match ConsulClient::catalog_service_reply(sent) {
        Ok(entries) => {
            let mut i: usize = 0;
            while i < entries.len()
                invariant
                    i <= entries.len(),
                    peers@.len() == i,
                    forall|j: int|
                        0 <= j < i ==> #[trigger] peers@[j]@ == healthy_peer(
                            entries@[j].service_id@,
                            endpoint(entries@[j]),
                            last_seen@,
                        ),
                decreases entries.len() - i,
            {
                let entry = &entries[i];
                peers.push(peer(entry.service_id.clone(), endpoint_of(entry), last_seen.to_owned()));
                i += 1;
            }
        },
        Err(_) => {},
    }
    assert(peer_models(peers@) =~= peers_shown(sent, last_seen@));
    peers
}

/// A change among the peers.
pub enum PeerChange {
    Joined { node_id: String, address: String },
    Left { node_id: String },
}

/// A [`PeerChange`] in the model.
pub enum ChangeModel {
    Joined(Seq<char>, Seq<char>),
    Left(Seq<char>),
}

impl View for PeerChange {
    type V = ChangeModel;

    open spec fn view(&self) -> ChangeModel {
        match self {
            PeerChange::Joined { node_id, address } => ChangeModel::Joined(node_id@, address@),
            PeerChange::Left { node_id } => ChangeModel::Left(node_id@),
        }
    }
}

/// What a watcher of the peers is told.
#[derive(Debug)]
pub enum PeerEvent {
    Joined { peer: ClusterPeer },
    Left { node_id: String },
}

impl PeerChange {
    /// Tells of the change, at the instant `last_seen`.
    pub fn announce(self, last_seen: String) -> (r: PeerEvent)
        ensures
            match self@ {
                ChangeModel::Joined(node_id, address) => r matches PeerEvent::Joined { peer }
                    && peer@ == healthy_peer(node_id, address, last_seen@),
                ChangeModel::Left(id) => r matches PeerEvent::Left { node_id } && node_id@ == id,
            },
    {
        match self {
            PeerChange::Joined { node_id, address } => PeerEvent::Joined {
                peer: peer(node_id, address, last_seen),
            },
            PeerChange::Left { node_id } => PeerEvent::Left { node_id },
        }
    }
}

/// Whether strings stand in their order, each once.
pub open spec fn ascending(ids: Seq<Seq<char>>) -> bool {
    forall|i: int, j: int|
        0 <= i < j < ids.len() ==> text_before(#[trigger] ids[i], #[trigger] ids[j])
}

/// The service ids in a listing. An instance without one does not count.
pub open spec fn ids_in(entries: Seq<CatalogServiceEntry>) -> Set<Seq<char>> {
    Set::new(
        |id: Seq<char>|
            id.len() > 0 && exists|i: int|
                0 <= i < entries.len() && (#[trigger] entries[i]).service_id@ == id,
    )
}

/// Who has joined: the instances in a listing that were not known, in the order of the listing.
pub open spec fn joined(entries: Seq<CatalogServiceEntry>, known: Seq<Seq<char>>) -> Seq<ChangeModel>
    decreases entries.len(),
{
    if entries.len() == 0 {
        Seq::empty()
    } else {
        let before = joined(entries.drop_last(), known);
        let entry = entries.last();
        if entry.service_id@.len() == 0 || known.contains(entry.service_id@) {
            before
        } else {
            before.push(ChangeModel::Joined(entry.service_id@, endpoint(entry)))
        }
    }
}

/// Who has left: those who were known and are not in the listing, in their order.
pub open spec fn left(known: Seq<Seq<char>>, present: Set<Seq<char>>) -> Seq<ChangeModel>
    decreases known.len(),
{
    if known.len() == 0 {
        Seq::empty()
    } else {
        let before = left(known.drop_last(), present);
        if present.contains(known.last()) {
            before
        } else {
            before.push(ChangeModel::Left(known.last()))
        }
    }
}

/// Changes in the model.
pub open spec fn change_models(changes: Seq<PeerChange>) -> Seq<ChangeModel> {
    changes.map_values(|c: PeerChange| c@)
}

fn holds(ids: &Vec<String>, id: &str) -> (r: bool)
    ensures
        r == texts(ids@).contains(id@),
{
    let mut i: usize = 0;
    while i < ids.len()
        invariant
            i <= ids.len(),
            forall|j: int| 0 <= j < i ==> (#[trigger] texts(ids@)[j]) != id@,
        decreases ids.len() - i,
    {
        if same_text(ids[i].as_str(), id) {
            assert(texts(ids@)[i as int] == id@);
            return true;
        }
        assert(texts(ids@)[i as int] == ids@[i as int]@);
        i += 1;
    }
    false
}

fn insert_sorted(ids: &mut Vec<String>, id: &str)
    requires
        ascending(texts(old(ids)@)),
    ensures
        ascending(texts(final(ids)@)),
        texts(final(ids)@).to_set() == texts(old(ids)@).to_set().insert(id@),
{
    let ghost before = texts(ids@);
    let mut i: usize = 0;
    while i < ids.len() && comes_before(ids[i].as_str(), id)
        invariant
            i <= ids.len(),
            before == texts(ids@),
            forall|j: int| 0 <= j < i ==> text_before(#[trigger] before[j], id@),
        decreases ids.len() - i,
    {
        assert(before[i as int] == ids@[i as int]@);
        i += 1;
    }
    if i < ids.len() && same_text(ids[i].as_str(), id) {
        proof {
            assert(before[i as int] == id@);
            assert(before.to_set().insert(id@) =~= before.to_set());
        }
        return;
    }
    proof {
        assert forall|j: int| i <= j < before.len() implies text_before(
            id@,
            #[trigger] before[j],
        ) by {
            assert(before[i as int] == ids@[i as int]@);
            text_before_total(id@, before[i as int]);
            if j > i {
                text_before_transitive(id@, before[i as int], before[j]);
            }
        }
    }
    ids.insert(i, id.to_owned());
    proof {
        let after = texts(ids@);
        assert(after =~= before.insert(i as int, id@));
        assert forall|a: int, b: int| 0 <= a < b < after.len() implies text_before(
            #[trigger] after[a],
            #[trigger] after[b],
        ) by {
            let x = if a < i { a } else { a - 1 };
            let y = if b < i { b } else { b - 1 };
            if a != i && b != i {
                assert(after[a] == before[x]);
                assert(after[b] == before[y]);
            } else if a == i {
                assert(after[b] == before[y]);
            } else {
                assert(after[a] == before[x]);
            }
        }
        assert forall|x: Seq<char>| after.to_set().contains(x) == before.to_set().insert(
            id@,
        ).contains(x) by {
            if after.contains(x) {
                let k = choose|k: int| 0 <= k < after.len() && after[k] == x;
                if k < i {
                    assert(before[k] == x);
                } else if k > i {
                    assert(before[k - 1] == x);
                }
            }
            if before.contains(x) {
                let k = choose|k: int| 0 <= k < before.len() && before[k] == x;
                if k < i {
                    assert(after[k] == x);
                } else {
                    assert(after[k + 1] == x);
                }
            }
            assert(after[i as int] == id@);
        }
        assert(after.to_set() =~= before.to_set().insert(id@));
    }
}

fn sorted_ids(entries: &Vec<CatalogServiceEntry>) -> (r: Vec<String>)
    ensures
        ascending(texts(r@)),
        texts(r@).to_set() == ids_in(entries@),
{
    let mut ids: Vec<String> = Vec::new();
    let mut i: usize = 0;
    proof {
        assert(texts(ids@).to_set() =~= ids_in(entries@.take(0)));
    }
    while i < entries.len()
        invariant
            i <= entries.len(),
            ascending(texts(ids@)),
            texts(ids@).to_set() == ids_in(entries@.take(i as int)),
        decreases entries.len() - i,
    {
        let id = entries[i].service_id.as_str();
        if !id.is_empty() {
            insert_sorted(&mut ids, id);
        }
        proof {
            let small = entries@.take(i as int);
            let large = entries@.take(i + 1);
            assert(large[i as int] == entries@[i as int]);
            assert forall|x: Seq<char>| ids_in(large).contains(x) == (ids_in(small).contains(x) || (
            x.len() > 0 && x == id@)) by {
                if ids_in(large).contains(x) {
                    let k = choose|k: int|
                        0 <= k < large.len() && (#[trigger] large[k]).service_id@ == x;
                    if k < i {
                        assert(small[k] == large[k]);
                    }
                }
                if ids_in(small).contains(x) {
                    let k = choose|k: int|
                        0 <= k < small.len() && (#[trigger] small[k]).service_id@ == x;
                    assert(large[k] == small[k]);
                }
            }
            assert(texts(ids@).to_set() =~= ids_in(large));
        }
        i += 1;
    }
    assert(entries@.take(i as int) =~= entries@);
    ids
}

/// A watch on the peers: who was there at the last look, and the index to go on from.
pub struct PeerWatch {
    service_name: String,
    wait_seconds: u64,
    index: u64,
    known: Vec<String>,
}

/// A [`PeerWatch`] in the model.
pub struct WatchModel {
    pub service_name: Seq<char>,
    pub wait_seconds: u64,
    pub index: u64,
    /// Who was there at the last look, in their order.
    pub known: Seq<Seq<char>>,
}

impl View for PeerWatch {
    type V = WatchModel;

    closed spec fn view(&self) -> WatchModel {
        WatchModel {
            service_name: self.service_name@,
            wait_seconds: self.wait_seconds,
            index: self.index,
            known: texts(self.known@),
        }
    }
}

impl WatchModel {
    /// Whether a poll that ends in `sent` leaves the watch as `after` and tells of `changes`. A poll
    /// that failed changes nothing and tells of nothing.
    pub open spec fn goes_on(
        self,
        sent: Sent<Vec<CatalogServiceEntry>>,
        after: WatchModel,
        changes: Seq<ChangeModel>,
    ) -> bool {
        match catalog_change(sent, self.index) {
            Ok((entries, new_index)) => {
                &&& changes == joined(entries@, self.known) + left(self.known, ids_in(entries@))
                &&& ascending(self.known)
                &&& ascending(after.known)
                &&& after.known.to_set() == ids_in(entries@)
                &&& after.index == new_index
                &&& after.service_name == self.service_name
                &&& after.wait_seconds == self.wait_seconds
            },
            Err(_) => after == self && changes == Seq::<ChangeModel>::empty(),
        }
    }
}

/// The pause after a poll that failed, in seconds, before it is jittered.
pub const POLL_BACKOFF_SECS: u64 = 5;

/// A poll that failed: why, and how long to wait before the next one.
#[derive(Debug)]
pub struct PollFailure {
    pub error: ClusterError,
    pub pause: Duration,
}

impl PollFailure {
    /// Whether the pause is the jittered one that follows on a failure.
    pub open spec fn is_backoff(self) -> bool {
        exists|entropy: u64|
            entropy < NANOS_PER_SEC && self.pause@ == #[trigger] jittered_by(
                (POLL_BACKOFF_SECS * NANOS_PER_SEC) as nat,
                entropy,
            )
    }
}

/// The pause after a poll that failed: about five seconds.
pub fn poll_backoff() -> (r: Duration)
    ensures
        exists|entropy: u64|
            entropy < NANOS_PER_SEC && r@ == #[trigger] jittered_by(
                (POLL_BACKOFF_SECS * NANOS_PER_SEC) as nat,
                entropy,
            ),
        4 * NANOS_PER_SEC <= r@ <= 6 * NANOS_PER_SEC,
{
    let base = Duration::from_secs(POLL_BACKOFF_SECS);
    let pause = jittered(base);
    proof {
        let entropy = choose|entropy: u64|
            entropy < NANOS_PER_SEC && pause@ == #[trigger] jittered_by(base@, entropy);
        jitter_stays_within_a_fifth(base@, entropy);
        assert(pause@ == jittered_by((POLL_BACKOFF_SECS * NANOS_PER_SEC) as nat, entropy));
    }
    pause
}

impl PeerWatch {
    #[verifier::type_invariant]
    spec fn in_order(self) -> bool {
        ascending(texts(self.known@))
    }

    /// A watch that has not looked yet.
    pub fn new(service_name: String, wait_seconds: u64) -> (r: PeerWatch)
        ensures
            r@.service_name == service_name@,
            r@.wait_seconds == wait_seconds,
            r@.index == 0,
            r@.known == Seq::<Seq<char>>::empty(),
    {
        let known: Vec<String> = Vec::new();
        assert(texts(known@) =~= Seq::<Seq<char>>::empty());
        PeerWatch { service_name, wait_seconds, index: 0, known }
    }

    /// The index that the next poll goes on from.
    pub fn index(&self) -> (r: u64)
        ensures
            r == self@.index,
    {
        self.index
    }

    /// The next poll.
    pub fn poll(&self, client: &ConsulClient) -> (r: HttpRequest)
        requires
            self@.wait_seconds + POLL_GRACE_SECS <= u64::MAX,
        ensures
            r@ == client@.catalog_service_blocking(
                self@.service_name,
                self@.index,
                self@.wait_seconds,
            ),
    {
        client.catalog_service_blocking(self.service_name.as_str(), self.index, self.wait_seconds)
    }

    /// Takes in a listing of the catalog: who has joined since the last look, then who has left.
    pub fn observe(&mut self, entries: &Vec<CatalogServiceEntry>, new_index: u64) -> (r: Vec<
        PeerChange,
    >)
        ensures
            change_models(r@) == joined(entries@, old(self)@.known) + left(
                old(self)@.known,
                ids_in(entries@),
            ),
            ascending(old(self)@.known),
            ascending(final(self)@.known),
            final(self)@.known.to_set() == ids_in(entries@),
            final(self)@.index == new_index,
            final(self)@.service_name == old(self)@.service_name,
            final(self)@.wait_seconds == old(self)@.wait_seconds,
    {
        proof {
            use_type_invariant(&*self);
        }
        let current = sorted_ids(entries);
        let ghost known = texts(self.known@);
        let mut changes: Vec<PeerChange> = Vec::new();
        assert(change_models(changes@) =~= joined(entries@.take(0), known));
        let mut i: usize = 0;
        while i < entries.len()
            invariant
                i <= entries.len(),
                known == texts(self.known@),
                change_models(changes@) == joined(entries@.take(i as int), known),
            decreases entries.len() - i,
        {
            let entry = &entries[i];
            proof {
                let next = entries@.take(i + 1);
                assert(next.drop_last() =~= entries@.take(i as int));
                assert(next.last() == entries@[i as int]);
            }
            if !entry.service_id.as_str().is_empty() && !holds(
                &self.known,
                entry.service_id.as_str(),
            ) {
                let ghost before = changes@;
                changes.push(
                    PeerChange::Joined {
                        node_id: entry.service_id.clone(),
                        address: endpoint_of(entry),
                    },
                );
                assert(change_models(changes@) =~= change_models(before).push(changes@.last()@));
            }
            i += 1;
        }
        assert(entries@.take(i as int) =~= entries@);
        let ghost come = joined(entries@, known);
        let ghost present = ids_in(entries@);
        assert(change_models(changes@) =~= come + left(known.take(0), present));
        let mut k: usize = 0;
        while k < self.known.len()
            invariant
                k <= self.known.len(),
                known == texts(self.known@),
                present == texts(current@).to_set(),
                change_models(changes@) == come + left(known.take(k as int), present),
            decreases self.known.len() - k,
        {
            proof {
                let next = known.take(k + 1);
                assert(next.drop_last() =~= known.take(k as int));
                assert(next.last() == self.known@[k as int]@);
            }
            if !holds(&current, self.known[k].as_str()) {
                let ghost before = changes@;
                changes.push(PeerChange::Left { node_id: self.known[k].clone() });
                assert(change_models(changes@) =~= change_models(before).push(changes@.last()@));
                assert(change_models(changes@) =~= come + left(known.take(k + 1), present));
            }
            k += 1;
        }
        assert(known.take(k as int) =~= known);
        self.known = current;
        self.index = new_index;
        changes
    }

    /// Takes in what came of a poll: the changes that it shows. A poll that failed changes nothing,
    /// and is tried again after a pause.
    pub fn poll_reply(&mut self, sent: Sent<Vec<CatalogServiceEntry>>) -> (r: Result<
        Vec<PeerChange>,
        PollFailure,
    >)
        ensures
            match r {
                Ok(changes) => catalog_change(sent, old(self)@.index) is Ok && old(self)@.goes_on(
                    sent,
                    final(self)@,
                    change_models(changes@),
                ),
                Err(failure) => catalog_change(sent, old(self)@.index) == Err::<
                    (Vec<CatalogServiceEntry>, u64),
                    _,
                >(failure.error@) && failure.is_backoff() && old(self)@.goes_on(
                    sent,
                    final(self)@,
                    Seq::empty(),
                ),
            },
    {
        match ConsulClient::catalog_service_blocking_reply(sent, self.index) {
            Ok((entries, new_index)) => Ok(self.observe(&entries, new_index)),
            Err(error) => Err(PollFailure { error, pause: poll_backoff() }),
        }
    }
}

/// Whether some changes tell that `id` has joined.
pub open spec fn tells_joined(changes: Seq<ChangeModel>, id: Seq<char>) -> bool {
    exists|i: int|
        0 <= i < changes.len() && (#[trigger] changes[i]) is Joined && changes[i]->Joined_0 == id
}

/// Who is told to have joined is in the listing and was not known, and everyone of whom that holds
/// is told to have joined.
pub proof fn joined_are_the_newcomers(
    entries: Seq<CatalogServiceEntry>,
    known: Seq<Seq<char>>,
    id: Seq<char>,
)
    ensures
        tells_joined(joined(entries, known), id) == (ids_in(entries).contains(id)
            && !known.contains(id)),
        forall|i: int|
            0 <= i < joined(entries, known).len() ==> (#[trigger] joined(entries, known)[i]) is Joined,
    decreases entries.len(),
{
    let all = joined(entries, known);
    if entries.len() > 0 {
        let rest = entries.drop_last();
        let entry = entries.last();
        let before = joined(rest, known);
        joined_are_the_newcomers(rest, known, id);
        lemma_ids_grow(entries, id);
        if entry.service_id@.len() == 0 || known.contains(entry.service_id@) {
            assert(all == before);
        } else {
            let new = ChangeModel::Joined(entry.service_id@, endpoint(entry));
            assert(all == before.push(new));
            assert(all[before.len() as int] == new);
            assert(forall|i: int| 0 <= i < before.len() ==> #[trigger] all[i] == before[i]);
            assert(tells_joined(all, id) == (tells_joined(before, id) || entry.service_id@ == id)) by {
                if tells_joined(all, id) {
                    let k = choose|k: int|
                        0 <= k < all.len() && (#[trigger] all[k]) is Joined && all[k]->Joined_0 == id;
                    if k < before.len() {
                        assert(before[k] == all[k]);
                    }
                }
                if tells_joined(before, id) {
                    let k = choose|k: int|
                        0 <= k < before.len() && (#[trigger] before[k]) is Joined
                            && before[k]->Joined_0 == id;
                    assert(all[k] == before[k]);
                }
            }
        }
    }
}

/// Who is told to have left was known and is not in the listing, and everyone of whom that holds is
/// told to have left.
pub proof fn left_are_the_missing(known: Seq<Seq<char>>, present: Set<Seq<char>>, id: Seq<char>)
    ensures
        left(known, present).contains(ChangeModel::Left(id)) == (known.contains(id)
            && !present.contains(id)),
        forall|c: ChangeModel| #[trigger] left(known, present).contains(c) ==> c is Left,
    decreases known.len(),
{
    let all = left(known, present);
    if known.len() > 0 {
        let rest = known.drop_last();
        let last = known.last();
        let before = left(rest, present);
        left_are_the_missing(rest, present, id);
        assert(known.contains(id) == (rest.contains(id) || last == id)) by {
            if known.contains(id) {
                let k = choose|k: int| 0 <= k < known.len() && known[k] == id;
                if k < rest.len() {
                    assert(rest[k] == id);
                }
            }
            if rest.contains(id) {
                let k = choose|k: int| 0 <= k < rest.len() && rest[k] == id;
                assert(known[k] == id);
            }
            assert(known[known.len() - 1] == last);
        }
        if !present.contains(last) {
            assert(all == before.push(ChangeModel::Left(last)));
            assert forall|c: ChangeModel| #[trigger] all.contains(c) implies before.contains(c) || c
                == ChangeModel::Left(last) by {
                let k = choose|k: int| 0 <= k < all.len() && all[k] == c;
                if k < before.len() {
                    assert(before[k] == c);
                }
            }
            assert forall|c: ChangeModel| before.contains(c) implies #[trigger] all.contains(c) by {
                let k = choose|k: int| 0 <= k < before.len() && before[k] == c;
                assert(all[k] == c);
            }
            assert(all[before.len() as int] == ChangeModel::Left(last));
        }
    }
}

/// Looking again at the same instances tells of no change.
pub proof fn an_unchanged_catalog_is_silent(entries: Seq<CatalogServiceEntry>, known: Seq<Seq<char>>)
    requires
        known.to_set() == ids_in(entries),
    ensures
        joined(entries, known) + left(known, ids_in(entries)) == Seq::<ChangeModel>::empty(),
{
    let come = joined(entries, known);
    let gone = left(known, ids_in(entries));
    if come.len() > 0 {
        let id = come[0]->Joined_0;
        joined_are_the_newcomers(entries, known, id);
        assert(come[0] is Joined);
        assert(known.to_set().contains(id));
        assert(false);
    }
    if gone.len() > 0 {
        let c = gone[0];
        assert(gone.contains(c));
        left_are_the_missing(known, ids_in(entries), Seq::empty());
        let id = c->Left_0;
        assert(gone.contains(ChangeModel::Left(id)));
        left_are_the_missing(known, ids_in(entries), id);
        assert(known.to_set().contains(id));
        assert(false);
    }
    assert(come + gone =~= Seq::<ChangeModel>::empty());
}

/// There is one way to put the members of a set in their order: what a watch knows is determined by
/// the last listing.
pub proof fn ascending_is_unique(a: Seq<Seq<char>>, b: Seq<Seq<char>>)
    requires
        ascending(a),
        ascending(b),
        a.to_set() == b.to_set(),
    ensures
        a == b,
    decreases a.len(),
{
    if a.len() == 0 || b.len() == 0 {
        if a.len() > 0 {
            assert(a.to_set().contains(a[0]));
            assert(b.contains(a[0]));
        }
        if b.len() > 0 {
            assert(b.to_set().contains(b[0]));
            assert(a.contains(b[0]));
        }
        assert(a =~= b);
    } else {
        assert(a.to_set().contains(a[0]));
        assert(b.to_set().contains(b[0]));
        let j = choose|j: int| 0 <= j < b.len() && b[j] == a[0];
        let i = choose|i: int| 0 <= i < a.len() && a[i] == b[0];
        if j > 0 {
            assert(text_before(b[0], b[j]));
            if i > 0 {
                assert(text_before(a[0], a[i]));
                text_before_transitive(a[0], b[0], a[0]);
            }
            text_before_irreflexive(a[0]);
        }
        assert(a[0] == b[0]);
        let x = a.drop_first();
        let y = b.drop_first();
        assert forall|id: Seq<char>| x.to_set().contains(id) == y.to_set().contains(id) by {
            if x.contains(id) {
                let k = choose|k: int| 0 <= k < x.len() && x[k] == id;
                assert(a[k + 1] == id);
                assert(text_before(a[0], a[k + 1]));
                text_before_irreflexive(a[0]);
                assert(b.to_set().contains(id)) by {
                    assert(a.to_set().contains(id));
                }
                let m = choose|m: int| 0 <= m < b.len() && b[m] == id;
                assert(y[m - 1] == id);
            }
            if y.contains(id) {
                let k = choose|k: int| 0 <= k < y.len() && y[k] == id;
                assert(b[k + 1] == id);
                assert(text_before(b[0], b[k + 1]));
                text_before_irreflexive(b[0]);
                assert(a.to_set().contains(id)) by {
                    assert(b.to_set().contains(id));
                }
                let m = choose|m: int| 0 <= m < a.len() && a[m] == id;
                assert(x[m - 1] == id);
            }
        }
        assert(x.to_set() =~= y.to_set());
        assert(ascending(x)) by {
            assert forall|p: int, q: int| 0 <= p < q < x.len() implies text_before(
                #[trigger] x[p],
                #[trigger] x[q],
            ) by {
                assert(x[p] == a[p + 1]);
                assert(x[q] == a[q + 1]);
            }
        }
        assert(ascending(y)) by {
            assert forall|p: int, q: int| 0 <= p < q < y.len() implies text_before(
                #[trigger] y[p],
                #[trigger] y[q],
            ) by {
                assert(y[p] == b[p + 1]);
                assert(y[q] == b[q + 1]);
            }
        }
        ascending_is_unique(x, y);
        assert(a =~= seq![a[0]] + x);
        assert(b =~= seq![b[0]] + y);
    }
}

/// Who is there after some changes, told from who was there before.
pub open spec fn replayed(present: Set<Seq<char>>, changes: Seq<ChangeModel>) -> Set<Seq<char>>
    decreases changes.len(),
{
    if changes.len() == 0 {
        present
    } else {
        let before = replayed(present, changes.drop_last());
        match changes.last() {
            ChangeModel::Joined(id, _) => before.insert(id),
            ChangeModel::Left(id) => before.remove(id),
        }
    }
}

/// Whether some changes make sense one after the other: nobody joins who is there, and nobody leaves
/// who is not.
pub open spec fn orderly(present: Set<Seq<char>>, changes: Seq<ChangeModel>) -> bool
    decreases changes.len(),
{
    changes.len() == 0 || {
        let before = replayed(present, changes.drop_last());
        &&& orderly(present, changes.drop_last())
        &&& match changes.last() {
            ChangeModel::Joined(id, _) => !before.contains(id),
            ChangeModel::Left(id) => before.contains(id),
        }
    }
}

/// Whether no service id stands twice in a listing.
pub open spec fn distinct_ids(entries: Seq<CatalogServiceEntry>) -> bool {
    forall|i: int, j: int|
        0 <= i < j < entries.len() && (#[trigger] entries[i]).service_id@.len() > 0
            ==> entries[i].service_id@ != (#[trigger] entries[j]).service_id@
}

proof fn lemma_replay_splits(present: Set<Seq<char>>, a: Seq<ChangeModel>, b: Seq<ChangeModel>)
    ensures
        replayed(present, a + b) == replayed(replayed(present, a), b),
        orderly(present, a + b) == (orderly(present, a) && orderly(replayed(present, a), b)),
    decreases b.len(),
{
    if b.len() == 0 {
        assert(a + b =~= a);
    } else {
        assert((a + b).drop_last() =~= a + b.drop_last());
        assert((a + b).last() == b.last());
        lemma_replay_splits(present, a, b.drop_last());
    }
}

proof fn lemma_ids_grow(entries: Seq<CatalogServiceEntry>, id: Seq<char>)
    requires
        entries.len() > 0,
    ensures
        ids_in(entries).contains(id) == (ids_in(entries.drop_last()).contains(id) || (id.len() > 0
            && entries.last().service_id@ == id)),
{
    let rest = entries.drop_last();
    if ids_in(entries).contains(id) {
        let k = choose|k: int| 0 <= k < entries.len() && (#[trigger] entries[k]).service_id@ == id;
        if k < rest.len() {
            assert(rest[k] == entries[k]);
        }
    }
    if ids_in(rest).contains(id) {
        let k = choose|k: int| 0 <= k < rest.len() && (#[trigger] rest[k]).service_id@ == id;
        assert(entries[k] == rest[k]);
    }
    assert(entries[entries.len() - 1] == entries.last());
}

proof fn lemma_replay_joined(entries: Seq<CatalogServiceEntry>, known: Seq<Seq<char>>)
    ensures
        replayed(known.to_set(), joined(entries, known)) == known.to_set().union(ids_in(entries)),
        distinct_ids(entries) ==> orderly(known.to_set(), joined(entries, known)),
    decreases entries.len(),
{
    let present = known.to_set();
    let changes = joined(entries, known);
    if entries.len() == 0 {
        assert(present.union(ids_in(entries)) =~= present);
    } else {
        let rest = entries.drop_last();
        let id = entries.last().service_id@;
        let before = joined(rest, known);
        lemma_replay_joined(rest, known);
        assert forall|x: Seq<char>|
            present.union(ids_in(entries)).contains(x) == (present.union(ids_in(rest)).contains(x) || (
            x.len() > 0 && x == id)) by {
            lemma_ids_grow(entries, x);
        }
        if id.len() == 0 || known.contains(id) {
            assert(present.union(ids_in(entries)) =~= present.union(ids_in(rest)));
        } else {
            assert(changes.drop_last() =~= before);
            assert(present.union(ids_in(entries)) =~= present.union(ids_in(rest)).insert(id));
        }
        if distinct_ids(entries) {
            assert forall|i: int, j: int|
                0 <= i < j < rest.len() && (#[trigger] rest[i]).service_id@.len()
                    > 0 implies rest[i].service_id@ != (#[trigger] rest[j]).service_id@ by {
                assert(rest[i] == entries[i] && rest[j] == entries[j]);
            }
            if ids_in(rest).contains(id) {
                let k = choose|k: int|
                    0 <= k < rest.len() && (#[trigger] rest[k]).service_id@ == id;
                assert(entries[k] == rest[k]);
                assert(entries[entries.len() - 1].service_id@ == id);
                assert(false);
            }
        }
    }
}

proof fn lemma_replay_left(present: Set<Seq<char>>, known: Seq<Seq<char>>, current: Set<Seq<char>>)
    requires
        known.to_set().subset_of(present),
        known.no_duplicates(),
    ensures
        forall|x: Seq<char>| #[trigger]
            replayed(present, left(known, current)).contains(x) == (present.contains(x) && (
            current.contains(x) || !known.contains(x))),
        orderly(present, left(known, current)),
    decreases known.len(),
{
    if known.len() > 0 {
        let rest = known.drop_last();
        let last = known.last();
        assert(known[known.len() - 1] == last);
        assert forall|x: Seq<char>| rest.contains(x) implies known.contains(x) by {
            let k = choose|k: int| 0 <= k < rest.len() && rest[k] == x;
            assert(known[k] == x);
        }
        assert forall|x: Seq<char>| known.contains(x) implies rest.contains(x) || x == last by {
            let k = choose|k: int| 0 <= k < known.len() && known[k] == x;
            if k < rest.len() {
                assert(rest[k] == x);
            }
        }
        assert forall|x: Seq<char>| rest.to_set().contains(x) implies present.contains(x) by {
            assert(known.to_set().contains(x));
        }
        if rest.contains(last) {
            let k = choose|k: int| 0 <= k < rest.len() && rest[k] == last;
            assert(known[k] == known[known.len() - 1]);
        }
        lemma_replay_left(present, rest, current);
        assert(known.to_set().contains(last));
        let after = replayed(present, left(known, current));
        let before = replayed(present, left(rest, current));
        if !current.contains(last) {
            assert(left(known, current).drop_last() =~= left(rest, current));
            assert(after == before.remove(last));
        }
        assert forall|x: Seq<char>| #[trigger] after.contains(x) == (present.contains(x) && (
        current.contains(x) || !known.contains(x))) by {
            assert(before.contains(x) == (present.contains(x) && (current.contains(x)
                || !rest.contains(x))));
        }
    }
}

/// Replaying the changes of a poll on who was known gives who is listed. Where no service id stands
/// twice in the listing, nobody joins who is there, and nobody leaves who is not.
pub proof fn changes_lead_to_the_listing(entries: Seq<CatalogServiceEntry>, known: Seq<Seq<char>>)
    requires
        ascending(known),
    ensures
        replayed(known.to_set(), joined(entries, known) + left(known, ids_in(entries))) == ids_in(
            entries,
        ),
        distinct_ids(entries) ==> orderly(
            known.to_set(),
            joined(entries, known) + left(known, ids_in(entries)),
        ),
{
    let come = joined(entries, known);
    let gone = left(known, ids_in(entries));
    lemma_replay_joined(entries, known);
    lemma_replay_splits(known.to_set(), come, gone);
    assert forall|i: int, j: int| 0 <= i < known.len() && 0 <= j < known.len() && i != j implies known[i]
        != known[j] by {
        text_before_irreflexive(known[i]);
        if i < j {
            assert(text_before(known[i], known[j]));
        } else {
            assert(text_before(known[j], known[i]));
        }
    }
    let there = known.to_set().union(ids_in(entries));
    lemma_replay_left(there, known, ids_in(entries));
    assert forall|x: Seq<char>| replayed(there, gone).contains(x) == ids_in(entries).contains(x) by {
        assert(known.to_set().contains(x) == known.contains(x));
    }
    assert(replayed(there, gone) =~= ids_in(entries));
}

/// All the changes that some polls tell of, one after the other.
pub open spec fn all_changes(told: Seq<Seq<ChangeModel>>) -> Seq<ChangeModel>
    decreases told.len(),
{
    if told.len() == 0 {
        Seq::empty()
    } else {
        all_changes(told.drop_last()) + told.last()
    }
}

/// Whether a watch goes through `watches` as its polls end in `sent`, and tells of `told`.
pub open spec fn watches_through(
    watches: Seq<WatchModel>,
    sent: Seq<Sent<Vec<CatalogServiceEntry>>>,
    told: Seq<Seq<ChangeModel>>,
) -> bool {
    &&& watches.len() == sent.len() + 1
    &&& told.len() == sent.len()
    &&& forall|i: int|
        0 <= i < sent.len() ==> (#[trigger] watches[i]).goes_on(sent[i], watches[i + 1], told[i])
}

/// Whether no service id stands twice in what a poll lists, if it lists anything.
pub open spec fn lists_distinct_ids(sent: Sent<Vec<CatalogServiceEntry>>) -> bool {
    catalog_change(sent, 0) matches Ok((entries, _)) ==> distinct_ids(entries@)
}

/// The ids that the last of some polls to succeed has listed; none where none has.
pub open spec fn last_listed(sent: Seq<Sent<Vec<CatalogServiceEntry>>>) -> Set<Seq<char>>
    decreases sent.len(),
{
    if sent.len() == 0 {
        Set::empty()
    } else {
        match catalog_change(sent.last(), 0) {
            Ok((entries, _)) => ids_in(entries@),
            Err(_) => last_listed(sent.drop_last()),
        }
    }
}

/// Over all polls of a watch, replaying what it told from nobody on gives exactly who was listed
/// last, whatever polls failed between. Where no service id stands twice in a listing, nobody joins
/// who is there, and nobody leaves who is not.
pub proof fn a_watch_keeps_track_of_the_catalog(
    watches: Seq<WatchModel>,
    sent: Seq<Sent<Vec<CatalogServiceEntry>>>,
    told: Seq<Seq<ChangeModel>>,
)
    requires
        watches_through(watches, sent, told),
        watches[0].known == Seq::<Seq<char>>::empty(),
    ensures
        replayed(Set::empty(), all_changes(told)) == last_listed(sent),
        watches.last().known.to_set() == last_listed(sent),
        (forall|i: int| 0 <= i < sent.len() ==> lists_distinct_ids(#[trigger] sent[i])) ==> orderly(
            Set::empty(),
            all_changes(told),
        ),
    decreases sent.len(),
{
    if sent.len() == 0 {
        assert(watches[0].known.to_set() =~= Set::<Seq<char>>::empty());
    } else {
        let n = sent.len() - 1;
        let watches0 = watches.drop_last();
        let sent0 = sent.drop_last();
        let told0 = told.drop_last();
        assert forall|i: int| 0 <= i < sent0.len() implies (#[trigger] watches0[i]).goes_on(
            sent0[i],
            watches0[i + 1],
            told0[i],
        ) by {
            assert(watches[i].goes_on(sent[i], watches[i + 1], told[i]));
        }
        a_watch_keeps_track_of_the_catalog(watches0, sent0, told0);
        assert(watches[n].goes_on(sent[n], watches[n + 1], told[n]));
        let before = watches[n];
        assert(watches0.last() == before);
        lemma_replay_splits(Set::empty(), all_changes(told0), told[n]);
        match catalog_change(sent[n], before.index) {
            Ok((entries, _)) => {
                changes_lead_to_the_listing(entries@, before.known);
            },
            Err(_) => {
                assert(all_changes(told0) + told[n] =~= all_changes(told0));
            },
        }
        if forall|i: int| 0 <= i < sent.len() ==> lists_distinct_ids(#[trigger] sent[i]) {
            assert forall|i: int| 0 <= i < sent0.len() implies lists_distinct_ids(
                #[trigger] sent0[i],
            ) by {
                assert(sent0[i] == sent[i]);
            }
            assert(lists_distinct_ids(sent[n]));
        }
    }
}

/// Whether `text` writes where something listens: the address, a colon, and a numeral that reads back
/// as the port.
pub open spec fn writes_endpoint(text: Seq<char>, address: Seq<char>, port: u16) -> bool {
    &&& text.len() > address.len()
    &&& text.subrange(0, address.len() as int) == address
    &&& text[address.len() as int] == ':'
    &&& unsigned_64(text.skip(address.len() as int + 1)) == Some(port as u64)
}

/// The endpoint of an instance is written by its address, a colon and its whole port; so instances with
/// different ports at one address have different endpoints.
pub proof fn an_endpoint_tells_address_and_port(a: CatalogServiceEntry, b: CatalogServiceEntry)
    ensures
        writes_endpoint(endpoint(a), a.address@, a.service_port),
        a.address@ == b.address@ && a.service_port != b.service_port ==> endpoint(a) != endpoint(b),
        endpoint(a).skip(a.address@.len() as int + 1) == decimal(a.service_port as nat),
{
    lemma_endpoint(a);
    lemma_endpoint(b);
}

proof fn lemma_endpoint(entry: CatalogServiceEntry)
    ensures
        writes_endpoint(endpoint(entry), entry.address@, entry.service_port),
        endpoint(entry).skip(entry.address@.len() as int + 1) == decimal(entry.service_port as nat),
{
    reveal_strlit(":");
    decimal_reads_back(entry.service_port as u64);
    let text = endpoint(entry);
    let n = entry.address@.len() as int;
    assert(text.subrange(0, n) =~= entry.address@);
    assert(text.skip(n + 1) =~= decimal(entry.service_port as nat));
}

/// Every peer that a listing shows is an instance of the catalog, in its order: with its service id,
/// its address and port, the instant of the listing, healthy, and without roles. No instance is left
/// out; nothing is shown where the catalog could not be read.
pub proof fn peers_are_the_instances(sent: Sent<Vec<CatalogServiceEntry>>, last_seen: Seq<char>, i: int)
    ensures
        catalog_listing(sent) is Err ==> peers_shown(sent, last_seen).len() == 0,
        catalog_listing(sent) matches Ok(entries) ==> {
            let peers = peers_shown(sent, last_seen);
            &&& peers.len() == entries@.len()
            &&& 0 <= i < peers.len() ==> {
                &&& peers[i].node_id == entries@[i].service_id@
                &&& writes_endpoint(peers[i].address, entries@[i].address@, entries@[i].service_port)
                &&& peers[i].last_seen == last_seen
                &&& peers[i].health == PeerHealth::Healthy
                &&& peers[i].roles.len() == 0
            }
        },
{
    if let Ok(entries) = catalog_listing(sent) {
        if 0 <= i < entries@.len() {
            lemma_endpoint(entries@[i]);
        }
    }
}

/// Each change of a joining tells of an instance of the listing, with its service id, its address and
/// its port; the change is that of the instance at the place that is returned.
pub proof fn who_joins_is_told_with_address_and_port(
    entries: Seq<CatalogServiceEntry>,
    known: Seq<Seq<char>>,
    i: int,
) -> (k: int)
    requires
        0 <= i < joined(entries, known).len(),
    ensures
        0 <= k < entries.len(),
        joined(entries, known)[i] is Joined,
        joined(entries, known)[i]->Joined_0 == entries[k].service_id@,
        writes_endpoint(
            joined(entries, known)[i]->Joined_1,
            entries[k].address@,
            entries[k].service_port,
        ),
    decreases entries.len(),
{
    let rest = entries.drop_last();
    let before = joined(rest, known);
    if i < before.len() {
        let k = who_joins_is_told_with_address_and_port(rest, known, i);
        assert(entries[k] == rest[k]);
        assert(joined(entries, known)[i] == before[i]);
        k
    } else {
        lemma_endpoint(entries.last());
        entries.len() - 1
    }
}

/// The changes of a listing are taken instance by instance, in the order of the listing: one for each
/// instance with an id that was not known, none for any other. Those who left are taken in their order,
/// one for each who is not listed.
pub proof fn changes_are_taken_one_by_one(
    a: Seq<CatalogServiceEntry>,
    b: Seq<CatalogServiceEntry>,
    entry: CatalogServiceEntry,
    known: Seq<Seq<char>>,
    more: Seq<Seq<char>>,
    id: Seq<char>,
    present: Set<Seq<char>>,
)
    ensures
        joined(a + b, known) == joined(a, known) + joined(b, known),
        joined(seq![entry], known) == if entry.service_id@.len() > 0 && !known.contains(
            entry.service_id@,
        ) {
            seq![ChangeModel::Joined(entry.service_id@, endpoint(entry))]
        } else {
            Seq::empty()
        },
        left(known + more, present) == left(known, present) + left(more, present),
        left(seq![id], present) == if present.contains(id) {
            Seq::empty()
        } else {
            seq![ChangeModel::Left(id)]
        },
{
    lemma_joined_splits(a, b, known);
    lemma_left_splits(known, more, present);
    let one = seq![entry];
    assert(one.drop_last() =~= Seq::<CatalogServiceEntry>::empty());
    assert(joined(one.drop_last(), known) =~= Seq::<ChangeModel>::empty());
    assert(one.last() == entry);
    let new = ChangeModel::Joined(entry.service_id@, endpoint(entry));
    assert(Seq::<ChangeModel>::empty().push(new) =~= seq![new]);
    let gone = seq![id];
    assert(gone.drop_last() =~= Seq::<Seq<char>>::empty());
    assert(left(gone.drop_last(), present) =~= Seq::<ChangeModel>::empty());
    assert(gone.last() == id);
    assert(Seq::<ChangeModel>::empty().push(ChangeModel::Left(id)) =~= seq![ChangeModel::Left(id)]);
}

proof fn lemma_joined_splits(
    a: Seq<CatalogServiceEntry>,
    b: Seq<CatalogServiceEntry>,
    known: Seq<Seq<char>>,
)
    ensures
        joined(a + b, known) == joined(a, known) + joined(b, known),
    decreases b.len(),
{
    if b.len() == 0 {
        assert(a + b =~= a);
        assert(joined(a, known) + joined(b, known) =~= joined(a, known));
    } else {
        assert((a + b).drop_last() =~= a + b.drop_last());
        assert((a + b).last() == b.last());
        lemma_joined_splits(a, b.drop_last(), known);
        assert(joined(a + b, known) =~= joined(a, known) + joined(b, known));
    }
}

proof fn lemma_left_splits(a: Seq<Seq<char>>, b: Seq<Seq<char>>, present: Set<Seq<char>>)
    ensures
        left(a + b, present) == left(a, present) + left(b, present),
    decreases b.len(),
{
    if b.len() == 0 {
        assert(a + b =~= a);
        assert(left(a, present) + left(b, present) =~= left(a, present));
    } else {
        assert((a + b).drop_last() =~= a + b.drop_last());
        assert((a + b).last() == b.last());
        lemma_left_splits(a, b.drop_last(), present);
        assert(left(a + b, present) =~= left(a, present) + left(b, present));
    }
}

/// The ids of a listing are those of its instances, but for the empty one.
pub proof fn ids_are_those_of_the_instances(entries: Seq<CatalogServiceEntry>, i: int, id: Seq<char>)
    ensures
        0 <= i < entries.len() && entries[i].service_id@.len() > 0 ==> ids_in(entries).contains(
            entries[i].service_id@,
        ),
        !ids_in(entries).contains(Seq::empty()),
        ids_in(entries).contains(id) ==> exists|k: int|
            0 <= k < entries.len() && (#[trigger] entries[k]).service_id@ == id,
{
}

/// A poll that succeeded moves a watch to the index that came with it and to who is listed; one that
/// failed leaves it as it was and tells of nothing. What is watched stays.
pub proof fn a_poll_moves_a_watch_on(
    watch: WatchModel,
    sent: Sent<Vec<CatalogServiceEntry>>,
    after: WatchModel,
    changes: Seq<ChangeModel>,
)
    requires
        watch.goes_on(sent, after, changes),
    ensures
        after.service_name == watch.service_name,
        after.wait_seconds == watch.wait_seconds,
        catalog_change(sent, watch.index) matches Ok((entries, index)) ==> {
            &&& after.index == index
            &&& ascending(after.known)
            &&& forall|id: Seq<char>| #[trigger]
                after.known.contains(id) <==> ids_in(entries@).contains(id)
            &&& changes == joined(entries@, watch.known) + left(watch.known, ids_in(entries@))
        },
        catalog_change(sent, watch.index) is Err ==> after == watch && changes.len() == 0,
{
    if let Ok((entries, index)) = catalog_change(sent, watch.index) {
        assert forall|id: Seq<char>| #[trigger] after.known.contains(id) <==> ids_in(
            entries@,
        ).contains(id) by {
            assert(after.known.to_set().contains(id) == after.known.contains(id));
        }
    }
}

/// The pause after a poll that failed lies between four and six seconds.
pub proof fn a_failed_poll_is_tried_again_in_about_five_seconds(failure: PollFailure)
    requires
        failure.is_backoff(),
    ensures
        4_000_000_000 <= failure.pause@ <= 6_000_000_000,
        failure.pause@ % 1_000_000 == 0,
{
    let entropy = choose|entropy: u64|
        entropy < NANOS_PER_SEC && failure.pause@ == #[trigger] jittered_by(
            (POLL_BACKOFF_SECS * NANOS_PER_SEC) as nat,
            entropy,
        );
    jitter_stays_within_a_fifth(5_000_000_000, entropy);
    let _ = jitter_picks_any_millisecond_within_a_fifth(5_000_000_000, entropy, 0);
}

/// Peers and changes in the model are the peers and the changes, one by one.
pub proof fn peers_and_changes_keep_what_they_tell(
    peers: Seq<ClusterPeer>,
    changes: Seq<PeerChange>,
    i: int,
    id: String,
    address: String,
)
    ensures
        peer_models(peers).len() == peers.len(),
        0 <= i < peers.len() ==> {
            &&& peer_models(peers)[i].node_id == peers[i].node_id@
            &&& peer_models(peers)[i].address == peers[i].address@
            &&& peer_models(peers)[i].last_seen == peers[i].last_seen@
            &&& peer_models(peers)[i].health == peers[i].health
            &&& peer_models(peers)[i].roles.len() == peers[i].roles@.len()
        },
        change_models(changes).len() == changes.len(),
        0 <= i < changes.len() ==> change_models(changes)[i] == changes[i]@,
        (PeerChange::Joined { node_id: id, address })@ == ChangeModel::Joined(id@, address@),
        (PeerChange::Left { node_id: id })@ == ChangeModel::Left(id@),
{
}

/// Strings that ascend each come before all that follow, so none stands twice.
pub proof fn what_ascends_stands_once_and_in_order(ids: Seq<Seq<char>>, i: int, j: int)
    requires
        0 <= i < j < ids.len(),
    ensures
        ascending(ids) ==> text_before(ids[i], ids[j]) && ids[i] != ids[j],
        !text_before(ids[i], ids[j]) ==> !ascending(ids),
{
    text_before_irreflexive(ids[i]);
}

} // verus!
