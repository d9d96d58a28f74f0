//! What holds of a key that several replicas claim or read at once.
//!
//! Consul takes the requests on a key one by one. A write or a removal that goes by a version takes
//! effect if the key has that version when the request arrives. Every write gives the key a version
//! that is greater than any it had, before a removal too. Requests of different claims and readers
//! arrive in any order.

use vstd::prelude::*;

use crate::client::{
    carried, value_found, value_written, versions_have_urls_of_their_own, KvValueEntry,
};
use crate::envelope::{unwrapped, unwrapping_undoes_wrapping, wrapped};
use crate::error::Fault;
use crate::http::{text_of, BodyModel, RequestModel, Sent};
use crate::kv::{
    after_claiming_write, after_look, after_second_look, got, is_live, reaping, ClaimStepModel,
    EntryModel, KvModel, StepModel,
};

verus! {

/// What Consul holds under a key. Version zero stands for a key that does not exist.
pub struct KeyState {
    pub version: u64,
    /// The greatest version that the key ever had.
    pub newest: u64,
    pub bytes: Seq<u8>,
}

impl KeyState {
    /// Whether a look at the key that ended in `sent` shows this.
    pub open spec fn is_shown_by(self, sent: Sent<Vec<KvValueEntry>>) -> bool {
        if self.version == 0 {
            value_found(sent) == Ok::<Option<KvValueEntry>, Fault>(None)
        } else {
            value_found(sent) matches Ok(Some(entry)) && entry.modify_index == self.version
                && carried(text_of(entry.value_b64)) == self.bytes
        }
    }

    /// Whether the key exists and is past its expiry at `now_ms`.
    pub open spec fn is_past(self, now_ms: u64) -> bool {
        self.version != 0 && (unwrapped(self.bytes) matches Some((_, expires)) && !is_live(
            expires,
            now_ms,
        ))
    }

    /// Whether the key counts as absent at `now_ms`.
    pub open spec fn is_free(self, now_ms: u64) -> bool {
        self.version == 0 || self.is_past(now_ms)
    }

    /// Whether a request on the key goes by the version that the key has.
    pub open spec fn admits(self, kv: KvModel, key: Seq<char>, request: RequestModel) -> bool {
        request.url == kv.client.cas_url(kv.full_key(key), self.version)
    }

    /// The key after a write that goes by a version, where it takes effect with `new_version`.
    pub open spec fn written(
        self,
        kv: KvModel,
        key: Seq<char>,
        request: RequestModel,
        new_version: u64,
    ) -> KeyState {
        if self.admits(kv, key, request) {
            KeyState { version: new_version, newest: new_version, bytes: request.body->Bytes_0 }
        } else {
            self
        }
    }

    /// The key after a removal that goes by a version.
    pub open spec fn removed(self, kv: KvModel, key: Seq<char>, request: RequestModel) -> KeyState {
        if self.admits(kv, key, request) {
            KeyState { version: 0, newest: self.newest, bytes: Seq::empty() }
        } else {
            self
        }
    }
}

/// A value that is past its expiry goes when it is next read: the reader sees nothing and asks for
/// its removal, which leaves no key. What is not past its expiry is not removed, and neither is what
/// somebody wrote between the look and the removal.
pub proof fn an_expired_value_goes_when_it_is_read(
    kv: KvModel,
    key: Seq<char>,
    held: KeyState,
    later: KeyState,
    sent: Sent<Vec<KvValueEntry>>,
    now_ms: u64,
)
    requires
        held.is_shown_by(sent),
    ensures
        held.is_past(now_ms) ==> got(sent, now_ms) == Ok::<Option<EntryModel>, Fault>(None) && (reaping(
            kv,
            key,
            sent,
            now_ms,
        ) matches Some(request) && held.removed(kv, key, request).version == 0),
        !held.is_past(now_ms) ==> reaping(kv, key, sent, now_ms) is None,
        later.version != held.version ==> (reaping(kv, key, sent, now_ms) matches Some(request)
            ==> later.removed(kv, key, request) == later),
{
    versions_have_urls_of_their_own(kv.client, kv.full_key(key), held.version, later.version);
}

/// What is claimed for a key.
pub struct ClaimModel {
    pub value: Seq<u8>,
    pub expires: Option<u64>,
}

impl ClaimModel {
    /// The write of this claim that goes by a version.
    pub open spec fn write(self, kv: KvModel, key: Seq<char>, version: u64) -> RequestModel {
        kv.write(key, self.value, self.expires, Some(version))
    }
}

/// Where a claim stands.
pub enum ClaimPhase {
    /// It is about to create the key.
    Creating,
    /// It is about to look at the key that stood in its way.
    Looking,
    /// It is about to overwrite the key.
    Reclaiming(RequestModel),
    /// It is about to look at the key that it could not overwrite.
    LookingAgain,
    /// It is about to send its last write.
    Writing(RequestModel),
    /// It has ended.
    Ended(Result<bool, Fault>),
}

/// Where a claim stands after its first write.
pub open spec fn phase_after_create(step: StepModel) -> ClaimPhase {
    match step {
        StepModel::Settled(r) => ClaimPhase::Ended(r),
        StepModel::Ask(_) => ClaimPhase::Looking,
    }
}

/// Where a claim stands after its look at the key.
pub open spec fn phase_after_look(step: ClaimStepModel) -> ClaimPhase {
    match step {
        ClaimStepModel::Settled(r) => ClaimPhase::Ended(r),
        ClaimStepModel::Create(request) => ClaimPhase::Writing(request),
        ClaimStepModel::Reclaim(request) => ClaimPhase::Reclaiming(request),
    }
}

/// Where a claim stands after overwriting the key.
pub open spec fn phase_after_reclaim(step: StepModel) -> ClaimPhase {
    match step {
        StepModel::Settled(r) => ClaimPhase::Ended(r),
        StepModel::Ask(_) => ClaimPhase::LookingAgain,
    }
}

/// Where a claim stands after its second look at the key.
pub open spec fn phase_after_second_look(step: StepModel) -> ClaimPhase {
    match step {
        StepModel::Settled(r) => ClaimPhase::Ended(r),
        StepModel::Ask(request) => ClaimPhase::Writing(request),
    }
}

/// A request on the key that arrives, and what answers it.
pub enum Arrival {
    /// A write of the claim `who`, which gives the key a new version if it takes effect.
    Write { who: int, sent: Sent<String>, new_version: u64 },
    /// A look of the claim `who`, which it judges at `now_ms`.
    Look { who: int, sent: Sent<Vec<KvValueEntry>>, now_ms: u64 },
    /// A look of a reader, who judges it at `now_ms`.
    Read { sent: Sent<Vec<KvValueEntry>>, now_ms: u64 },
    /// A removal that a reader has asked for.
    Removal { request: RequestModel },
}

/// A key, where each of the claims on it stands, and the removals that readers have asked for.
pub struct Contest {
    pub key: KeyState,
    pub phases: Seq<ClaimPhase>,
    pub removals: Set<RequestModel>,
}

/// Whether Consul answers a write so, and what becomes of the key.
pub open spec fn write_arrives(
    kv: KvModel,
    key: Seq<char>,
    request: RequestModel,
    before: KeyState,
    sent: Sent<String>,
    new_version: u64,
    after: KeyState,
) -> bool {
    &&& value_written(sent) == Ok::<bool, Fault>(before.admits(kv, key, request))
    &&& new_version > before.newest
    &&& after == before.written(kv, key, request, new_version)
}

impl Contest {
    /// Whether a write of the claim `who` leads from this contest to `after`.
    pub open spec fn write_leads(
        self,
        kv: KvModel,
        key: Seq<char>,
        claims: Seq<ClaimModel>,
        who: int,
        sent: Sent<String>,
        new_version: u64,
        after: Contest,
    ) -> bool {
        &&& 0 <= who < claims.len()
        &&& after.removals == self.removals
        &&& match self.phases[who] {
            ClaimPhase::Creating => {
                &&& write_arrives(
                    kv,
                    key,
                    claims[who].write(kv, key, 0),
                    self.key,
                    sent,
                    new_version,
                    after.key,
                )
                &&& after.phases == self.phases.update(
                    who,
                    phase_after_create(after_claiming_write(kv, key, sent)),
                )
            },
            ClaimPhase::Reclaiming(request) => {
                &&& write_arrives(kv, key, request, self.key, sent, new_version, after.key)
                &&& after.phases == self.phases.update(
                    who,
                    phase_after_reclaim(after_claiming_write(kv, key, sent)),
                )
            },
            ClaimPhase::Writing(request) => {
                &&& write_arrives(kv, key, request, self.key, sent, new_version, after.key)
                &&& after.phases == self.phases.update(
                    who,
                    ClaimPhase::Ended(value_written(sent)),
                )
            },
            _ => false,
        }
    }

    /// Whether a look of the claim `who` leads from this contest to `after`.
    pub open spec fn look_leads(
        self,
        kv: KvModel,
        key: Seq<char>,
        claims: Seq<ClaimModel>,
        who: int,
        sent: Sent<Vec<KvValueEntry>>,
        now_ms: u64,
        after: Contest,
    ) -> bool {
        &&& 0 <= who < claims.len()
        &&& self.key.is_shown_by(sent)
        &&& after.key == self.key
        &&& after.removals == self.removals
        &&& match self.phases[who] {
            ClaimPhase::Looking => after.phases == self.phases.update(
                who,
                phase_after_look(
                    after_look(kv, key, claims[who].value, claims[who].expires, sent, now_ms),
                ),
            ),
            ClaimPhase::LookingAgain => after.phases == self.phases.update(
                who,
                phase_after_second_look(
                    after_second_look(kv, key, claims[who].value, claims[who].expires, sent),
                ),
            ),
            _ => false,
        }
    }

    /// Whether a request that arrives leads from this contest to `after`. A removal may arrive at any
    /// time after it was asked for.
    pub open spec fn leads(
        self,
        kv: KvModel,
        key: Seq<char>,
        claims: Seq<ClaimModel>,
        arrival: Arrival,
        after: Contest,
    ) -> bool {
        match arrival {
            Arrival::Write { who, sent, new_version } => self.write_leads(
                kv,
                key,
                claims,
                who,
                sent,
                new_version,
                after,
            ),
            Arrival::Look { who, sent, now_ms } => self.look_leads(
                kv,
                key,
                claims,
                who,
                sent,
                now_ms,
                after,
            ),
            Arrival::Read { sent, now_ms } => {
                &&& self.key.is_shown_by(sent)
                &&& after.key == self.key
                &&& after.phases == self.phases
                &&& after.removals == match reaping(kv, key, sent, now_ms) {
                    Some(request) => self.removals.insert(request),
                    None => self.removals,
                }
            },
            Arrival::Removal { request } => {
                &&& self.removals.contains(request)
                &&& after.key == self.key.removed(kv, key, request)
                &&& after.phases == self.phases
                &&& after.removals == self.removals
            },
        }
    }

    /// Whether all removals go by the version that the key had at the start.
    spec fn removes_only(self, kv: KvModel, key: Seq<char>, start: KeyState) -> bool {
        forall|request: RequestModel| #[trigger]
            self.removals.contains(request) ==> start.version != 0 && request
                == kv.client.kv_delete_value_at(kv.full_key(key), start.version)
    }

    /// Whether nobody has won yet: the key is as it was, or was removed.
    spec fn is_open(self, kv: KvModel, key: Seq<char>, claims: Seq<ClaimModel>, start: KeyState) -> bool {
        let gone = start.version != 0 && self.key.version == 0;
        &&& self.phases.len() == claims.len()
        &&& self.key == start || gone
        &&& self.key.newest == start.newest
        &&& self.removes_only(kv, key, start)
        &&& forall|i: int|
            0 <= i < claims.len() ==> {
                ||| #[trigger] self.phases[i] == ClaimPhase::Creating
                ||| start.version != 0 && self.phases[i] == ClaimPhase::Looking
                ||| start.version != 0 && self.phases[i] == ClaimPhase::Reclaiming(
                    claims[i].write(kv, key, start.version),
                )
                ||| gone && self.phases[i] == ClaimPhase::LookingAgain
                ||| gone && self.phases[i] == ClaimPhase::Writing(claims[i].write(kv, key, 0))
            }
    }

    /// Whether the claim `winner` has won: the key holds its value, and nobody else can win.
    spec fn is_won(
        self,
        kv: KvModel,
        key: Seq<char>,
        claims: Seq<ClaimModel>,
        start: KeyState,
        winner: int,
    ) -> bool {
        &&& self.phases.len() == claims.len()
        &&& 0 <= winner < claims.len()
        &&& self.key.version > start.newest
        &&& self.key.bytes == wrapped(claims[winner].value, claims[winner].expires)
        &&& self.removes_only(kv, key, start)
        &&& self.phases[winner] == ClaimPhase::Ended(Ok(true))
        &&& forall|i: int|
            0 <= i < claims.len() && i != winner ==> {
                ||| #[trigger] self.phases[i] == ClaimPhase::Creating
                ||| self.phases[i] == ClaimPhase::Looking
                ||| self.phases[i] == ClaimPhase::Reclaiming(
                    claims[i].write(kv, key, start.version),
                )
                ||| self.phases[i] == ClaimPhase::LookingAgain
                ||| self.phases[i] == ClaimPhase::Writing(claims[i].write(kv, key, 0))
                ||| self.phases[i] == ClaimPhase::Ended(Ok(false))
            }
    }
}

/// Whether a contest goes through `states` as `arrivals` arrive.
pub open spec fn contest_runs(
    kv: KvModel,
    key: Seq<char>,
    claims: Seq<ClaimModel>,
    states: Seq<Contest>,
    arrivals: Seq<Arrival>,
) -> bool {
    &&& states.len() == arrivals.len() + 1
    &&& forall|i: int|
        0 <= i < arrivals.len() ==> (#[trigger] states[i]).leads(
            kv,
            key,
            claims,
            arrivals[i],
            states[i + 1],
        )
}

/// Whether at the time of a look the key as it was at the start counts as absent, and what is claimed
/// for it has not expired.
pub open spec fn is_timely(arrival: Arrival, start: KeyState, claims: Seq<ClaimModel>) -> bool {
    let at = match arrival {
        Arrival::Look { now_ms, .. } => Some(now_ms),
        Arrival::Read { now_ms, .. } => Some(now_ms),
        _ => None,
    };
    at matches Some(now_ms) ==> {
        &&& start.is_free(now_ms)
        &&& forall|i: int| 0 <= i < claims.len() ==> is_live((#[trigger] claims[i]).expires, now_ms)
    }
}

proof fn lemma_arrival(
    kv: KvModel,
    key: Seq<char>,
    claims: Seq<ClaimModel>,
    start: KeyState,
    before: Contest,
    arrival: Arrival,
    after: Contest,
    winner: Option<int>,
) -> (r: Option<int>)
    requires
        start.version <= start.newest,
        before.leads(kv, key, claims, arrival, after),
        is_timely(arrival, start, claims),
        match winner {
            Some(w) => before.is_won(kv, key, claims, start, w),
            None => before.is_open(kv, key, claims, start),
        },
    ensures
        match r {
            Some(w) => after.is_won(kv, key, claims, start, w),
            None => after.is_open(kv, key, claims, start),
        },
{
    let full = kv.full_key(key);
    let version = before.key.version;
    versions_have_urls_of_their_own(kv.client, full, 0, version);
    versions_have_urls_of_their_own(kv.client, full, start.version, version);
    if let Some(w) = winner {
        unwrapping_undoes_wrapping(claims[w].value, claims[w].expires);
    }
    let mover = match arrival {
        Arrival::Write { who, .. } => Some(who),
        Arrival::Look { who, .. } => Some(who),
        _ => None,
    };
    if let Some(who) = mover {
        let claim = claims[who];
        let create = claim.write(kv, key, 0);
        let reclaim = claim.write(kv, key, start.version);
        assert(create.url == kv.client.cas_url(full, 0));
        assert(reclaim.url == kv.client.cas_url(full, start.version));
        assert(create.body == BodyModel::Bytes(wrapped(claim.value, claim.expires)));
        assert(reclaim.body == BodyModel::Bytes(wrapped(claim.value, claim.expires)));
        assert forall|i: int| 0 <= i < claims.len() && i != who implies #[trigger] after.phases[i]
            == before.phases[i] by {}
        match winner {
            Some(w) => {
                assert(who != w);
                assert(after.phases[w] == before.phases[w]);
                Some(w)
            },
            None => if after.key.version > start.newest {
                Some(who)
            } else {
                None
            },
        }
    } else {
        winner
    }
}

proof fn lemma_run(
    kv: KvModel,
    key: Seq<char>,
    claims: Seq<ClaimModel>,
    states: Seq<Contest>,
    arrivals: Seq<Arrival>,
    n: int,
) -> (r: Option<int>)
    requires
        contest_runs(kv, key, claims, states, arrivals),
        states[0].is_open(kv, key, claims, states[0].key),
        states[0].key.version <= states[0].key.newest,
        forall|i: int|
            0 <= i < arrivals.len() ==> is_timely(#[trigger] arrivals[i], states[0].key, claims),
        0 <= n < states.len(),
    ensures
        match r {
            Some(w) => states[n].is_won(kv, key, claims, states[0].key, w),
            None => states[n].is_open(kv, key, claims, states[0].key),
        },
    decreases n,
{
    if n == 0 {
        None
    } else {
        let winner = lemma_run(kv, key, claims, states, arrivals, n - 1);
        assert(states[n - 1].leads(kv, key, claims, arrivals[n - 1], states[n]));
        assert(is_timely(arrivals[n - 1], states[0].key, claims));
        lemma_arrival(
            kv,
            key,
            claims,
            states[0].key,
            states[n - 1],
            arrivals[n - 1],
            states[n],
            winner,
        )
    }
}

/// Of all claims on a key that counts as absent, made at once, exactly one is won, and a read then
/// gives the value of the winner: in whatever order their requests arrive, and whatever readers look
/// at the key meanwhile and remove what has expired.
pub proof fn of_all_claims_one_is_won(
    kv: KvModel,
    key: Seq<char>,
    claims: Seq<ClaimModel>,
    states: Seq<Contest>,
    arrivals: Seq<Arrival>,
) -> (winner: int)
    requires
        claims.len() > 0,
        contest_runs(kv, key, claims, states, arrivals),
        states[0].phases == Seq::new(claims.len(), |i: int| ClaimPhase::Creating),
        states[0].removals == Set::<RequestModel>::empty(),
        states[0].key.version <= states[0].key.newest,
        forall|i: int|
            0 <= i < arrivals.len() ==> is_timely(#[trigger] arrivals[i], states[0].key, claims),
        forall|i: int| 0 <= i < claims.len() ==> (#[trigger] states.last().phases[i]) is Ended,
    ensures
        0 <= winner < claims.len(),
        states.last().phases[winner] == ClaimPhase::Ended(Ok(true)),
        forall|i: int|
            0 <= i < claims.len() && i != winner ==> #[trigger] states.last().phases[i]
                == ClaimPhase::Ended(Ok(false)),
        forall|sent: Sent<Vec<KvValueEntry>>, now_ms: u64|
            states.last().key.is_shown_by(sent) && is_live(claims[winner].expires, now_ms)
                ==> #[trigger] got(sent, now_ms) == Ok::<_, Fault>(
                Some(
                    EntryModel {
                        bytes: claims[winner].value,
                        expires_at: claims[winner].expires,
                    },
                ),
            ),
{
    let n = states.len() - 1;
    let found = lemma_run(kv, key, claims, states, arrivals, n);
    assert(states.last().phases[0] is Ended);
    let winner = found->0;
    unwrapping_undoes_wrapping(claims[winner].value, claims[winner].expires);
    assert forall|i: int| 0 <= i < claims.len() && i != winner implies #[trigger] states.last().phases[i]
        == ClaimPhase::Ended(Ok(false)) by {
        assert(states.last().phases[i] is Ended);
    }
    winner
}

} // verus!
