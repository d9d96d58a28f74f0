//! The life of a lease: leadership of a role, or a named lock.
//!
//! A lease is a Consul session that holds a key. To acquire it is to create a session, to acquire
//! the key for it, and to read the key back for its `LockIndex`, the per-key counter that serves as
//! the fencing token. A session that does not end up holding the key with a token is destroyed. The
//! lease is kept by renewing the session; to release it is to release the key and to destroy the
//! session.
//!
//! [`advance`](LeaseBid::advance) is the state machine of an acquisition: it takes the state and what
//! came of the last request, and gives the next request or the end.

use vstd::prelude::*;
use vstd::slice::*;
use vstd::string::*;
use vstd::utf8::*;

use crate::client::{ClientModel, ConsulClient, KvEntry, SessionBehavior};
use crate::error::{outcome, ClusterError, Fault};
use crate::http::{HttpRequest, RequestModel};
use crate::text::{blank, is_blank};
use crate::time::{
    instant_text, jitter, jitter_stays_within_a_fifth, jittered, jittered_by, reading_of, rfc3339_from,
    Duration, MAX_SPAN_NANOS, NANOS_PER_MILLI, NANOS_PER_SEC,
};

verus! {

/// The shortest TTL of a Consul session, in seconds.
pub const MIN_SESSION_SECS: u64 = 10;

/// What a lease is asked for with.
pub struct LeaseBid {
    name: String,
    key: String,
    node_id: String,
    ttl_secs: u64,
}

/// A [`LeaseBid`] in the model.
pub struct BidModel {
    pub name: Seq<char>,
    pub key: Seq<char>,
    pub node_id: Seq<char>,
    pub ttl_secs: u64,
}

impl View for LeaseBid {
    type V = BidModel;

    closed spec fn view(&self) -> BidModel {
        BidModel {
            name: self.name@,
            key: self.key@,
            node_id: self.node_id@,
            ttl_secs: self.ttl_secs,
        }
    }
}

/// The seconds that a session for a lease of that TTL lives: whole ones, and no fewer than Consul
/// allows.
pub open spec fn session_secs(ttl: nat) -> nat {
    let secs = ttl / NANOS_PER_SEC as nat;
    if secs < MIN_SESSION_SECS {
        MIN_SESSION_SECS as nat
    } else {
        secs
    }
}

/// Where an acquisition stands: what the last request was for.
pub enum AcquireState {
    /// The session is being created.
    Creating,
    /// The key is being acquired for the session.
    Acquiring { session_id: String },
    /// The key is being read back.
    ReadingBack { session_id: String },
    /// The session is being destroyed because another one holds the key.
    Declining,
    /// The session is being destroyed because there is no token.
    Abandoning,
}

/// An [`AcquireState`] in the model.
pub enum StateModel {
    Creating,
    Acquiring(Seq<char>),
    ReadingBack(Seq<char>),
    Declining,
    Abandoning,
}

impl View for AcquireState {
    type V = StateModel;

    open spec fn view(&self) -> StateModel {
        match self {
            AcquireState::Creating => StateModel::Creating,
            AcquireState::Acquiring { session_id } => StateModel::Acquiring(session_id@),
            AcquireState::ReadingBack { session_id } => StateModel::ReadingBack(session_id@),
            AcquireState::Declining => StateModel::Declining,
            AcquireState::Abandoning => StateModel::Abandoning,
        }
    }
}

/// What came of the last request of an acquisition.
pub enum AcquireEvent {
    /// The id of the session.
    SessionCreated(Result<String, ClusterError>),
    /// Whether the key was acquired.
    KeyAcquired(Result<bool, ClusterError>),
    /// The state of the key.
    KeyRead(Result<Option<KvEntry>, ClusterError>),
    /// The session is destroyed, or not.
    SessionDestroyed(Result<(), ClusterError>),
}

/// What follows in an acquisition.
pub enum AcquireAction {
    /// A request, and where the acquisition then stands.
    Send(AcquireState, HttpRequest),
    /// The lease is held, with that token.
    Granted { session_id: String, lock_index: u64 },
    /// Another session holds the key.
    Declined,
    /// The lease could not be acquired.
    Failed(ClusterError),
}

/// An [`AcquireAction`] in the model.
pub enum ActionModel {
    Send(StateModel, RequestModel),
    Granted { session_id: Seq<char>, lock_index: u64 },
    Declined,
    Failed(Fault),
}

impl View for AcquireAction {
    type V = ActionModel;

    open spec fn view(&self) -> ActionModel {
        match self {
            AcquireAction::Send(state, request) => ActionModel::Send(state@, request@),
            AcquireAction::Granted { session_id, lock_index } => ActionModel::Granted {
                session_id: session_id@,
                lock_index: *lock_index,
            },
            AcquireAction::Declined => ActionModel::Declined,
            AcquireAction::Failed(e) => ActionModel::Failed(e@),
        }
    }
}

/// Whether `event` is an answer to the request that `state` waits on.
pub open spec fn awaits(state: StateModel, event: AcquireEvent) -> bool {
    match state {
        StateModel::Creating => event is SessionCreated,
        StateModel::Acquiring(_) => event is KeyAcquired,
        StateModel::ReadingBack(_) => event is KeyRead,
        StateModel::Declining => event is SessionDestroyed,
        StateModel::Abandoning => event is SessionDestroyed,
    }
}

/// The token that a key which was read back gives, if it gives one. Zero is none: it would not
/// outrank anything.
pub open spec fn token_of(read: Result<Option<KvEntry>, ClusterError>) -> Option<u64> {
    match read {
        Ok(Some(entry)) => if entry.lock_index > 0 {
            Some(entry.lock_index)
        } else {
            None
        },
        _ => None,
    }
}

impl BidModel {
    /// How long the lease lives without being renewed, in nanoseconds.
    pub open spec fn ttl_nanos(self) -> nat {
        (self.ttl_secs * NANOS_PER_SEC) as nat
    }

    /// The error of an acquisition that found no token.
    pub open spec fn tokenless(self) -> Fault {
        Fault::BackendUnavailable("consul lease '"@ + self.name + TOKENLESS@)
    }

    /// The first request of an acquisition.
    pub open spec fn opening(self, client: ClientModel) -> RequestModel {
        client.session_create(self.name, self.ttl_secs, SessionBehavior::Release)
    }

    /// What follows in an acquisition.
    pub open spec fn next(self, client: ClientModel, state: StateModel, event: AcquireEvent) -> ActionModel {
        match (state, event) {
            (StateModel::Creating, AcquireEvent::SessionCreated(created)) => match created {
                Ok(id) => ActionModel::Send(
                    StateModel::Acquiring(id@),
                    client.kv_acquire(self.key, id@, encode_utf8(self.node_id)),
                ),
                Err(e) => ActionModel::Failed(e@),
            },
            (StateModel::Acquiring(id), AcquireEvent::KeyAcquired(acquired)) => match acquired {
                Ok(true) => ActionModel::Send(
                    StateModel::ReadingBack(id),
                    client.kv_get_value(self.key),
                ),
                Ok(false) => ActionModel::Send(StateModel::Declining, client.session_destroy(id)),
                Err(e) => ActionModel::Failed(e@),
            },
            (StateModel::ReadingBack(id), AcquireEvent::KeyRead(read)) => match token_of(read) {
                Some(token) => ActionModel::Granted { session_id: id, lock_index: token },
                None => ActionModel::Send(StateModel::Abandoning, client.session_destroy(id)),
            },
            (StateModel::Declining, AcquireEvent::SessionDestroyed(_)) => ActionModel::Declined,
            _ => ActionModel::Failed(self.tokenless()),
        }
    }
}

/// What the error of an acquisition without a token says after the name of the lease.
pub const TOKENLESS: &'static str =
    "': acquired but could not read back a valid LockIndex for the fencing token; released the session to avoid handing out an unsafe token-0 lease";

impl LeaseBid {
    /// Asks for the lease `name` on `key`. A name must have something in it; the TTL is cut to whole
    /// seconds and raised to what Consul allows.
    pub fn new(name: String, key: String, node_id: String, ttl: Duration) -> (r: Result<
        LeaseBid,
        ClusterError,
    >)
        ensures
            match r {
                Ok(bid) => !is_blank(name@) && bid@.name == name@ && bid@.key == key@ && bid@.node_id
                    == node_id@ && bid@.ttl_secs == session_secs(ttl@),
                Err(e) => is_blank(name@) && e@ == Fault::InvalidReference(
                    "lease name must not be empty"@,
                ),
            },
    {
        if blank(name.as_str()) {
            return Err(
                ClusterError::InvalidReference { message: "lease name must not be empty".to_owned() },
            );
        }
        let secs: u64 = ttl.as_secs();
        let ttl_secs: u64 = if secs < MIN_SESSION_SECS {
            MIN_SESSION_SECS
        } else {
            secs
        };
        Ok(LeaseBid { name, key, node_id, ttl_secs })
    }

    /// How long the lease lives without being renewed.
    pub fn ttl(&self) -> (r: Duration)
        ensures
            r@ == self@.ttl_nanos(),
    {
        Duration::from_secs(self.ttl_secs)
    }

    /// The key that the lease is on.
    pub fn key(&self) -> (r: String)
        ensures
            r@ == self@.key,
    {
        self.key.clone()
    }

    /// Begins an acquisition.
    pub fn open(&self, client: &ConsulClient) -> (r: (AcquireState, HttpRequest))
        ensures
            r.0@ == StateModel::Creating,
            r.1@ == self@.opening(client@),
    {
        (
            AcquireState::Creating,
            client.session_create(self.name.as_str(), self.ttl_secs, SessionBehavior::Release),
        )
    }

    fn tokenless(&self) -> (e: ClusterError)
        ensures
            e@ == self@.tokenless(),
    {
        let mut reason = "consul lease '".to_owned();
        reason.append(self.name.as_str());
        reason.append(TOKENLESS);
        ClusterError::BackendUnavailable { reason }
    }

    /// Goes on with an acquisition: what follows from where it stands and from what came of the last
    /// request.
    pub fn advance(&self, client: &ConsulClient, state: AcquireState, event: AcquireEvent) -> (r:
        AcquireAction)
        requires
            awaits(state@, event),
        ensures
            r@ == self@.next(client@, state@, event),
            r matches AcquireAction::Granted { lock_index, .. } ==> lock_index > 0,
            match (state@, event) {
                (StateModel::ReadingBack(id), AcquireEvent::KeyRead(Ok(Some(entry)))) =>
                entry.lock_index >= 1 ==> r@ == (ActionModel::Granted {
                    session_id: id,
                    lock_index: entry.lock_index,
                }),
                _ => true,
            },
    {
        match (state, event) {
            (AcquireState::Creating, AcquireEvent::SessionCreated(created)) => match created {
                Ok(session_id) => {
                    let value = slice_to_vec(self.node_id.as_str().as_bytes());
                    let request = client.kv_acquire(self.key.as_str(), session_id.as_str(), value);
                    AcquireAction::Send(AcquireState::Acquiring { session_id }, request)
                },
                Err(e) => AcquireAction::Failed(e),
            },
            (AcquireState::Acquiring { session_id }, AcquireEvent::KeyAcquired(acquired)) =>
            match acquired {
                Ok(true) => {
                    let request = client.kv_read(self.key.as_str());
                    AcquireAction::Send(AcquireState::ReadingBack { session_id }, request)
                },
                Ok(false) => AcquireAction::Send(
                    AcquireState::Declining,
                    client.session_destroy(session_id.as_str()),
                ),
                Err(e) => AcquireAction::Failed(e),
            },
            (AcquireState::ReadingBack { session_id }, AcquireEvent::KeyRead(read)) => {
                let token: Option<u64> = match read {
                    Ok(Some(entry)) => if entry.lock_index > 0 {
                        Some(entry.lock_index)
                    } else {
                        None
                    },
                    _ => None,
                };
                match token {
                    Some(lock_index) => AcquireAction::Granted { session_id, lock_index },
                    None => AcquireAction::Send(
                        AcquireState::Abandoning,
                        client.session_destroy(session_id.as_str()),
                    ),
                }
            },
            (AcquireState::Declining, AcquireEvent::SessionDestroyed(_)) => AcquireAction::Declined,
            _ => AcquireAction::Failed(self.tokenless()),
        }
    }
}

/// What Consul would answer to each request of an acquisition.
pub struct Answers {
    pub created: Result<String, ClusterError>,
    pub acquired: Result<bool, ClusterError>,
    pub read: Result<Option<KvEntry>, ClusterError>,
    pub destroyed: Result<(), ClusterError>,
}

impl Answers {
    /// The answer to the request that a state waits on.
    pub open spec fn event(self, state: StateModel) -> AcquireEvent {
        match state {
            StateModel::Creating => AcquireEvent::SessionCreated(self.created),
            StateModel::Acquiring(_) => AcquireEvent::KeyAcquired(self.acquired),
            StateModel::ReadingBack(_) => AcquireEvent::KeyRead(self.read),
            StateModel::Declining => AcquireEvent::SessionDestroyed(self.destroyed),
            StateModel::Abandoning => AcquireEvent::SessionDestroyed(self.destroyed),
        }
    }
}

impl BidModel {
    /// The requests that follow from a state on, and how the acquisition ends, if it does so within
    /// that many steps.
    pub open spec fn run_from(self, client: ClientModel, state: StateModel, answers: Answers, steps: nat) -> (
        Seq<RequestModel>,
        ActionModel,
    )
        decreases steps,
    {
        let action = self.next(client, state, answers.event(state));
        match action {
            ActionModel::Send(after, request) => if steps == 0 {
                (Seq::empty(), action)
            } else {
                let (requests, end) = self.run_from(client, after, answers, (steps - 1) as nat);
                (seq![request] + requests, end)
            },
            _ => (Seq::empty(), action),
        }
    }

    /// All requests of an acquisition, and how it ends.
    pub open spec fn run(self, client: ClientModel, answers: Answers) -> (Seq<RequestModel>, ActionModel) {
        let (requests, end) = self.run_from(client, StateModel::Creating, answers, 3);
        (seq![self.opening(client)] + requests, end)
    }
}

/// An acquisition ends, and how: it fails without a session; it fails where the key could not be
/// asked for; it is declined where another session holds the key; it fails where no token is read
/// back; else the lease is granted with the token that was read back. The session that was created
/// is destroyed where the acquisition is declined or finds no token, and is kept where the lease is
/// granted.
pub proof fn acquisition_runs_to_its_end(bid: BidModel, client: ClientModel, answers: Answers)
    ensures
        ({
            let (requests, end) = bid.run(client, answers);
            let create = bid.opening(client);
            match answers.created {
                Err(e) => requests == seq![create] && end == ActionModel::Failed(e@),
                Ok(id) => {
                    let acquire = client.kv_acquire(bid.key, id@, encode_utf8(bid.node_id));
                    let read_back = client.kv_get_value(bid.key);
                    let destroy = client.session_destroy(id@);
                    match answers.acquired {
                        Err(e) => requests == seq![create, acquire] && end == ActionModel::Failed(e@),
                        Ok(false) => requests == seq![create, acquire, destroy] && end
                            == ActionModel::Declined,
                        Ok(true) => match token_of(answers.read) {
                            None => requests == seq![create, acquire, read_back, destroy] && end
                                == ActionModel::Failed(bid.tokenless()),
                            Some(token) => requests == seq![create, acquire, read_back] && end == (
                            ActionModel::Granted { session_id: id@, lock_index: token }),
                        },
                    }
                },
            }
        }),
{
    reveal_with_fuel(BidModel::run_from, 4);
    let (requests, end) = bid.run(client, answers);
    let create = bid.opening(client);
    match answers.created {
        Err(e) => {
            assert(requests =~= seq![create]);
        },
        Ok(id) => {
            let acquire = client.kv_acquire(bid.key, id@, encode_utf8(bid.node_id));
            let read_back = client.kv_get_value(bid.key);
            let destroy = client.session_destroy(id@);
            match answers.acquired {
                Err(e) => {
                    assert(requests =~= seq![create, acquire]);
                },
                Ok(false) => {
                    assert(requests =~= seq![create, acquire, destroy]);
                },
                Ok(true) => match token_of(answers.read) {
                    None => {
                        assert(requests =~= seq![create, acquire, read_back, destroy]);
                    },
                    Some(token) => {
                        assert(requests =~= seq![create, acquire, read_back]);
                    },
                },
            }
        },
    }
}

/// No lease is granted with a token of zero, and its token is the one that Consul counts.
pub proof fn granted_tokens_fence(bid: BidModel, client: ClientModel, answers: Answers)
    ensures
        bid.run(client, answers).1 matches ActionModel::Granted { lock_index, .. } ==> lock_index > 0
            && (answers.read matches Ok(Some(entry)) && entry.lock_index == lock_index),
{
    acquisition_runs_to_its_end(bid, client, answers);
}

/// A lease that is held.
pub struct LeaseState {
    session_id: String,
    lock_key: String,
    lock_index: u64,
    ttl: Duration,
    expires_at: String,
    released: bool,
}

/// A [`LeaseState`] in the model.
#[verifier::ext_equal]
pub struct LeaseModel {
    pub session_id: Seq<char>,
    pub lock_key: Seq<char>,
    /// The fencing token.
    pub lock_index: u64,
    /// How long the lease lives without being renewed, in nanoseconds.
    pub ttl: nat,
    /// When the lease is thought to expire; Consul does not say.
    pub expires_at: Seq<char>,
    pub released: bool,
}

impl View for LeaseState {
    type V = LeaseModel;

    closed spec fn view(&self) -> LeaseModel {
        LeaseModel {
            session_id: self.session_id@,
            lock_key: self.lock_key@,
            lock_index: self.lock_index,
            ttl: self.ttl@,
            expires_at: self.expires_at@,
            released: self.released,
        }
    }
}

impl LeaseModel {
    /// The requests that give the lease back: the key, then the session.
    pub open spec fn farewell(self, client: ClientModel) -> (RequestModel, RequestModel) {
        (client.kv_release(self.lock_key, self.session_id), client.session_destroy(self.session_id))
    }
}

impl LeaseState {
    #[verifier::type_invariant]
    spec fn fenced(self) -> bool {
        self.lock_index > 0
    }

    /// The lease that an acquisition was granted, at that reading of the clock. It is thought to
    /// expire its TTL later; there is none where that instant cannot be written.
    pub fn granted_at(bid: &LeaseBid, session_id: String, lock_index: u64, now: Option<Duration>) -> (r:
        Option<LeaseState>)
        requires
            lock_index > 0,
        ensures
            match instant_text(reading_of(now), bid@.ttl_nanos()) {
                Some(expires_at) => r matches Some(lease) && lease@ == (LeaseModel {
                    session_id: session_id@,
                    lock_key: bid@.key,
                    lock_index,
                    ttl: bid@.ttl_nanos(),
                    expires_at,
                    released: false,
                }),
                None => r is None,
            },
    {
        match rfc3339_from(now, bid.ttl()) {
            Some(expires_at) => Some(
                LeaseState {
                    session_id,
                    lock_key: bid.key(),
                    lock_index,
                    ttl: bid.ttl(),
                    expires_at,
                    released: false,
                },
            ),
            None => None,
        }
    }

    /// The fencing token. It is never zero.
    pub fn fencing_token(&self) -> (r: u64)
        ensures
            r == self@.lock_index,
            r > 0,
    {
        proof {
            use_type_invariant(self);
        }
        self.lock_index
    }

    /// When the lease is thought to expire.
    pub fn expires_at(&self) -> (r: String)
        ensures
            r@ == self@.expires_at,
    {
        self.expires_at.clone()
    }

    /// Whether the lease was released.
    pub fn is_released(&self) -> (r: bool)
        ensures
            r == self@.released,
    {
        self.released
    }

    /// How long the lease lives without being renewed.
    pub fn ttl(&self) -> (r: Duration)
        ensures
            r@ == self@.ttl,
    {
        self.ttl
    }

    /// Begins to renew the lease. A lease that was released has expired.
    pub fn renew_state(&self, client: &ConsulClient) -> (r: Result<HttpRequest, ClusterError>)
        ensures
            match r {
                Ok(request) => !self@.released && request@ == client@.session_renew(
                    self@.session_id,
                ),
                Err(e) => self@.released && e@ == Fault::LeaseExpired,
            },
    {
        if self.released {
            return Err(ClusterError::LeaseExpired);
        }
        Ok(client.session_renew(self.session_id.as_str()))
    }

    /// Ends a renewal, given what came of it, at that reading of the clock. A lease that was renewed
    /// is thought to expire its TTL later; nothing comes of a renewal whose instant cannot be
    /// written.
    pub fn renewed_at(&mut self, result: Result<(), ClusterError>, now: Option<Duration>) -> (r: Option<
        Result<(), ClusterError>,
    >)
        ensures
            match result {
                Ok(_) => match instant_text(reading_of(now), old(self)@.ttl) {
                    Some(expires_at) => r == Some(result) && final(self)@ == after_renewal(
                        old(self)@,
                        expires_at,
                    ),
                    None => r is None && final(self)@ == old(self)@,
                },
                Err(_) => r == Some(result) && final(self)@ == old(self)@,
            },
    {
        proof {
            use_type_invariant(&*self);
        }
        match result {
            Ok(done) => match rfc3339_from(now, self.ttl) {
                Some(expires_at) => {
                    self.expires_at = expires_at;
                    Some(Ok(done))
                },
                None => None,
            },
            Err(e) => Some(Err(e)),
        }
    }

    /// Releases the lease: the requests that give it back, unless it was released before.
    pub fn release_state(&mut self, client: &ConsulClient) -> (r: Option<(HttpRequest, HttpRequest)>)
        ensures
            final(self)@ == after_release(old(self)@),
            match r {
                Some((release, destroy)) => !old(self)@.released && (release@, destroy@) == old(
                    self,
                )@.farewell(client@),
                None => old(self)@.released,
            },
    {
        proof {
            use_type_invariant(&*self);
        }
        if self.released {
            return None;
        }
        self.released = true;
        Some(
            (
                client.kv_release(self.lock_key.as_str(), self.session_id.as_str()),
                client.session_destroy(self.session_id.as_str()),
            ),
        )
    }

    /// What the background renewal does next. After a pause it renews the lease, unless the lease was
    /// released. It goes on after a renewal that succeeded; at the first one that did not it stops.
    pub fn background_renewal(&self, client: &ConsulClient, event: RenewalEvent) -> (r: RenewalAction)
        ensures
            r@ == renewal_next(self@, client@, event),
    {
        match event {
            RenewalEvent::PauseOver => match self.renew_state(client) {
                Ok(request) => RenewalAction::Send(request),
                Err(_) => RenewalAction::Stop,
            },
            RenewalEvent::Renewed(result) => match result {
                Ok(_) => RenewalAction::Pause,
                Err(_) => RenewalAction::Stop,
            },
        }
    }
}

/// What happened to the background renewal of a lease.
pub enum RenewalEvent {
    /// A pause is over.
    PauseOver,
    /// A renewal has ended.
    Renewed(Result<(), ClusterError>),
}

/// What the background renewal of a lease does next.
pub enum RenewalAction {
    /// Renews the lease.
    Send(HttpRequest),
    /// Pauses.
    Pause,
    /// Stops.
    Stop,
}

/// A [`RenewalAction`] in the model.
pub enum RenewalModel {
    Send(RequestModel),
    Pause,
    Stop,
}

impl View for RenewalAction {
    type V = RenewalModel;

    open spec fn view(&self) -> RenewalModel {
        match self {
            RenewalAction::Send(request) => RenewalModel::Send(request@),
            RenewalAction::Pause => RenewalModel::Pause,
            RenewalAction::Stop => RenewalModel::Stop,
        }
    }
}

/// What the background renewal of a lease does next.
pub open spec fn renewal_next(lease: LeaseModel, client: ClientModel, event: RenewalEvent) -> RenewalModel {
    match event {
        RenewalEvent::PauseOver => if lease.released {
            RenewalModel::Stop
        } else {
            RenewalModel::Send(client.session_renew(lease.session_id))
        },
        RenewalEvent::Renewed(Ok(_)) => RenewalModel::Pause,
        RenewalEvent::Renewed(Err(_)) => RenewalModel::Stop,
    }
}

/// How many renewals are asked for in the background, given how each would end and whether the lease
/// is found released before each.
pub open spec fn renewals_made(
    lease: LeaseModel,
    client: ClientModel,
    released: Seq<bool>,
    ends: Seq<Result<(), ClusterError>>,
) -> nat
    decreases ends.len(),
{
    if ends.len() == 0 || released.len() == 0 {
        0
    } else {
        let found = LeaseModel { released: released[0], ..lease };
        match renewal_next(found, client, RenewalEvent::PauseOver) {
            RenewalModel::Send(_) => 1 + match renewal_next(
                found,
                client,
                RenewalEvent::Renewed(ends[0]),
            ) {
                RenewalModel::Pause => renewals_made(
                    lease,
                    client,
                    released.drop_first(),
                    ends.drop_first(),
                ),
                _ => 0,
            },
            _ => 0,
        }
    }
}

/// The background renewal goes on as long as the lease is not released and its renewals succeed: the
/// first renewal that fails is its last one, and a released lease is not renewed.
pub proof fn renewal_goes_on_until_released_or_failed(
    lease: LeaseModel,
    client: ClientModel,
    released: Seq<bool>,
    ends: Seq<Result<(), ClusterError>>,
    n: int,
)
    requires
        0 <= n < released.len(),
        n < ends.len(),
        forall|i: int| 0 <= i < n ==> !#[trigger] released[i],
        forall|i: int| 0 <= i < n ==> #[trigger] ends[i] is Ok,
        released[n] || ends[n] is Err,
    ensures
        renewals_made(lease, client, released, ends) == if released[n] {
            n
        } else {
            n + 1
        },
    decreases n,
{
    if n > 0 {
        let rest = released.drop_first();
        let others = ends.drop_first();
        assert(!released[0] && ends[0] is Ok);
        assert(forall|i: int| 0 <= i < n - 1 ==> rest[i] == #[trigger] released[i + 1]);
        assert forall|i: int| 0 <= i < n - 1 implies !#[trigger] rest[i] by {
            assert(!released[i + 1]);
        }
        assert forall|i: int| 0 <= i < n - 1 implies #[trigger] others[i] is Ok by {
            assert(ends[i + 1] is Ok);
        }
        renewal_goes_on_until_released_or_failed(lease, client, rest, others, n - 1);
    }
}

/// The model of a lease after a release.
pub open spec fn after_release(lease: LeaseModel) -> LeaseModel {
    LeaseModel { released: true, ..lease }
}

/// The model of a lease after a renewal that succeeded.
pub open spec fn after_renewal(lease: LeaseModel, expires_at: Seq<char>) -> LeaseModel {
    LeaseModel { expires_at, ..lease }
}

/// Releasing a lease twice is releasing it once, and neither releasing nor renewing changes whose
/// lease it is, its key, its TTL or its token.
pub proof fn release_is_idempotent_and_keeps_the_token(lease: LeaseModel, expires_at: Seq<char>)
    ensures
        after_release(after_release(lease)) == after_release(lease),
        after_release(lease).lock_index == lease.lock_index,
        after_release(lease).session_id == lease.session_id,
        after_release(lease).lock_key == lease.lock_key,
        after_release(lease).ttl == lease.ttl,
        after_renewal(lease, expires_at).lock_index == lease.lock_index,
        after_renewal(lease, expires_at).session_id == lease.session_id,
        after_renewal(lease, expires_at).lock_key == lease.lock_key,
        after_renewal(lease, expires_at).ttl == lease.ttl,
        after_renewal(lease, expires_at).released == lease.released,
{
}

/// The percentage of a TTL that a renewal keeps in reserve: within one and ninety-nine.
pub open spec fn reserve_percent(percent: u32) -> nat {
    if percent < 1 {
        1
    } else if percent > 99 {
        99
    } else {
        percent as nat
    }
}

/// The part of a TTL that is not kept in reserve, rounded down to a nanosecond, and no longer than a
/// hundredth of the longest span.
pub open spec fn unreserved_part(ttl: nat, percent: u32) -> nat {
    let product = ttl * (100 - reserve_percent(percent)) as nat;
    if product <= MAX_SPAN_NANOS {
        product / 100
    } else {
        MAX_SPAN_NANOS as nat / 100
    }
}

/// The pause before a renewal: the part of the TTL that is not kept in reserve, and at least one
/// second.
pub open spec fn renewal_pause(ttl: nat, percent: u32) -> nat {
    let part = unreserved_part(ttl, percent);
    if part < NANOS_PER_SEC {
        NANOS_PER_SEC as nat
    } else {
        part
    }
}

/// The pause before each renewal of a lease, so that the given percentage of its TTL is still to
/// spare, but at least one second. The percentage is taken to lie within one and ninety-nine.
pub fn renewal_sleep(ttl: Duration, renew_before_expiry_percent: u32) -> (r: Duration)
    ensures
        r@ == renewal_pause(ttl@, renew_before_expiry_percent),
        r@ >= NANOS_PER_SEC,
{
    let pct: u32 = if renew_before_expiry_percent < 1 {
        1
    } else if renew_before_expiry_percent > 99 {
        99
    } else {
        renew_before_expiry_percent
    };
    let pause = ttl.saturating_mul(100 - pct).div(100);
    if pause.as_secs() < 1 {
        Duration::from_secs(1)
    } else {
        pause
    }
}

/// A lease that was granted is renewed before it expires, and its renewal does not spin: the pause
/// is shorter than the TTL, at least a hundredth of it and at least a second. It is exactly the part
/// of the TTL that is not kept in reserve where that is a second or more, unless the TTL is so long
/// that its multiples exceed the longest span.
pub proof fn renewal_comes_before_expiry(ttl_secs: u64, percent: u32)
    requires
        ttl_secs >= MIN_SESSION_SECS,
    ensures
        NANOS_PER_SEC <= renewal_pause((ttl_secs * NANOS_PER_SEC) as nat, percent) < ttl_secs
            * NANOS_PER_SEC,
        100 * renewal_pause((ttl_secs * NANOS_PER_SEC) as nat, percent) >= ttl_secs * NANOS_PER_SEC,
        ttl_secs * 99 <= u64::MAX && ttl_secs * (100 - reserve_percent(percent)) >= 100 ==> 100
            * renewal_pause((ttl_secs * NANOS_PER_SEC) as nat, percent) == ttl_secs * NANOS_PER_SEC * (
        100 - reserve_percent(percent)),
{
    let ttl = (ttl_secs * NANOS_PER_SEC) as nat;
    let rest = (100 - reserve_percent(percent)) as nat;
    assert(ttl * rest <= ttl * 99) by (nonlinear_arith)
        requires
            rest <= 99,
    ;
    assert(ttl * rest >= ttl) by (nonlinear_arith)
        requires
            rest >= 1,
    ;
    assert(ttl * rest == (ttl_secs * rest * 10_000_000) * 100) by (nonlinear_arith)
        requires
            ttl == ttl_secs * 1_000_000_000,
    ;
}

/// The TTL of a lease that is asked for in milliseconds; zero counts as one.
pub fn lease_ttl_from_ms(ttl_ms: u64) -> (r: Duration)
    ensures
        r@ == if ttl_ms == 0 {
            NANOS_PER_MILLI as nat
        } else {
            (ttl_ms * NANOS_PER_MILLI) as nat
        },
{
    if ttl_ms == 0 {
        Duration::from_millis(1)
    } else {
        Duration::from_millis(ttl_ms)
    }
}

/// The first pause between two attempts to acquire a lease, in milliseconds.
pub const FIRST_RETRY_MS: u64 = 200;

/// The longest pause between two attempts to acquire a lease, in milliseconds.
pub const LAST_RETRY_MS: u64 = 800;

/// The pauses between the attempts of a caller who waits until the holder lets go. Its view is the
/// next pause before it is jittered.
pub struct RetryPause {
    next: Duration,
}

impl View for RetryPause {
    type V = nat;

    closed spec fn view(&self) -> nat {
        self.next@
    }
}

/// The pause that follows on another one: twice as long, up to the longest.
pub open spec fn longer_pause(pause: nat) -> nat {
    if pause * 2 <= LAST_RETRY_MS * NANOS_PER_MILLI {
        pause * 2
    } else {
        (LAST_RETRY_MS * NANOS_PER_MILLI) as nat
    }
}

impl RetryPause {
    /// The pauses from the first one on.
    pub fn new() -> (r: RetryPause)
        ensures
            r@ == FIRST_RETRY_MS * NANOS_PER_MILLI,
    {
        RetryPause { next: Duration::from_millis(FIRST_RETRY_MS) }
    }

    /// The next pause, spread by what `entropy` picks.
    pub fn take_by(&mut self, entropy: u64) -> (r: Duration)
        ensures
            r@ == jittered_by(old(self)@, entropy),
            final(self)@ == longer_pause(old(self)@),
    {
        let pause = self.next;
        self.lengthen();
        jitter(pause, entropy)
    }

    /// The next pause, spread by the clock.
    pub fn take(&mut self) -> (r: Duration)
        ensures
            exists|entropy: u64|
                entropy < NANOS_PER_SEC && r@ == #[trigger] jittered_by(old(self)@, entropy),
            4 * old(self)@ <= 5 * r@ <= 6 * old(self)@,
            final(self)@ == longer_pause(old(self)@),
    {
        let pause = self.next;
        self.lengthen();
        jittered(pause)
    }

    fn lengthen(&mut self)
        ensures
            final(self)@ == longer_pause(old(self)@),
    {
        self.next = self.next.saturating_mul(2).min(Duration::from_millis(LAST_RETRY_MS));
    }

    /// What a caller who waits does after an attempt, where `entropy` spreads the pause: an attempt
    /// that was declined is followed by a pause and another one, any other ends the call.
    pub fn after_attempt_by<L>(&mut self, end: Result<Option<L>, ClusterError>, entropy: u64) -> (r:
        NextAttempt<L>)
        ensures
            next_attempt_model(r) == attempt_follows(end, jittered_by(old(self)@, entropy)),
            final(self)@ == if end matches Ok(None) {
                longer_pause(old(self)@)
            } else {
                old(self)@
            },
    {
        match end {
            Ok(Some(lease)) => NextAttempt::Done(Ok(lease)),
            Ok(None) => NextAttempt::Again(self.take_by(entropy)),
            Err(e) => NextAttempt::Done(Err(e)),
        }
    }

    /// What a caller who waits does after an attempt, where the clock spreads the pause.
    pub fn after_attempt<L>(&mut self, end: Result<Option<L>, ClusterError>) -> (r: NextAttempt<L>)
        ensures
            exists|entropy: u64|
                entropy < NANOS_PER_SEC && next_attempt_model(r) == attempt_follows(
                    end,
                    #[trigger] jittered_by(old(self)@, entropy),
                ),
            final(self)@ == if end matches Ok(None) {
                longer_pause(old(self)@)
            } else {
                old(self)@
            },
    {
        let ghost base = self@;
        match end {
            Ok(Some(lease)) => {
                assert(attempt_follows(end, jittered_by(base, 0)) == AttemptModel::<L>::Done(Ok(lease)));
                NextAttempt::Done(Ok(lease))
            },
            Ok(None) => NextAttempt::Again(self.take()),
            Err(e) => {
                assert(attempt_follows(end, jittered_by(base, 0)) == AttemptModel::<L>::Done(Err(e@)));
                NextAttempt::Done(Err(e))
            },
        }
    }
}

/// What a caller who waits for a lease does after an attempt.
pub enum NextAttempt<L> {
    /// The call ends so.
    Done(Result<L, ClusterError>),
    /// Another attempt follows after a pause.
    Again(Duration),
}

/// A [`NextAttempt`] in the model.
pub enum AttemptModel<L> {
    Done(Result<L, Fault>),
    Again(nat),
}

/// A [`NextAttempt`] in the model.
pub open spec fn next_attempt_model<L>(next: NextAttempt<L>) -> AttemptModel<L> {
    match next {
        NextAttempt::Done(r) => AttemptModel::Done(outcome(r)),
        NextAttempt::Again(pause) => AttemptModel::Again(pause@),
    }
}

/// What follows on an attempt that ended so, where the next pause is `pause`.
pub open spec fn attempt_follows<L>(end: Result<Option<L>, ClusterError>, pause: nat) -> AttemptModel<L> {
    match end {
        Ok(Some(lease)) => AttemptModel::Done(Ok(lease)),
        Ok(None) => AttemptModel::Again(pause),
        Err(e) => AttemptModel::Done(Err(e@)),
    }
}

/// The pause before the attempt `n`, counted from zero, before it is jittered.
pub open spec fn retry_pause(n: nat) -> nat
    decreases n,
{
    if n == 0 {
        (FIRST_RETRY_MS * NANOS_PER_MILLI) as nat
    } else {
        longer_pause(retry_pause((n - 1) as nat))
    }
}

/// The pauses are 200 ms, 400 ms, and 800 ms from then on, before they are jittered.
pub proof fn retry_pauses_level_off(n: nat)
    ensures
        retry_pause(n) == if n == 0 {
            200 * NANOS_PER_MILLI
        } else if n == 1 {
            400 * NANOS_PER_MILLI
        } else {
            800 * NANOS_PER_MILLI
        },
    decreases n,
{
    if n > 0 {
        retry_pauses_level_off((n - 1) as nat);
    }
}

/// The pauses that a caller makes from a base pause on, and how the call ends, if it does, given how
/// each attempt ends and what spreads each pause.
pub open spec fn waiting<L>(
    base: nat,
    ends: Seq<Result<Option<L>, ClusterError>>,
    entropies: Seq<u64>,
) -> (Seq<nat>, Option<Result<L, Fault>>)
    decreases ends.len(),
{
    if ends.len() == 0 || entropies.len() == 0 {
        (Seq::empty(), None)
    } else {
        match attempt_follows(ends[0], jittered_by(base, entropies[0])) {
            AttemptModel::Done(r) => (Seq::empty(), Some(r)),
            AttemptModel::Again(pause) => {
                let (pauses, end) = waiting(
                    longer_pause(base),
                    ends.drop_first(),
                    entropies.drop_first(),
                );
                (seq![pause] + pauses, end)
            },
        }
    }
}

/// The pause that follows `n` others on a base pause, before it is jittered.
pub open spec fn pause_after(base: nat, n: nat) -> nat
    decreases n,
{
    if n == 0 {
        base
    } else {
        pause_after(longer_pause(base), (n - 1) as nat)
    }
}

proof fn lemma_pause_after(m: nat, n: nat)
    ensures
        pause_after(retry_pause(m), n) == retry_pause(m + n),
    decreases n,
{
    if n > 0 {
        lemma_pause_after(m + 1, (n - 1) as nat);
    }
}

proof fn lemma_waiting<L>(
    base: nat,
    ends: Seq<Result<Option<L>, ClusterError>>,
    entropies: Seq<u64>,
    k: nat,
)
    requires
        k < ends.len() == entropies.len(),
        forall|i: int| 0 <= i < k ==> (#[trigger] ends[i]) == Ok::<Option<L>, ClusterError>(None),
        ends[k as int] != Ok::<Option<L>, ClusterError>(None),
    ensures
        waiting(base, ends, entropies).0.len() == k,
        forall|i: int|
            0 <= i < k ==> #[trigger] waiting(base, ends, entropies).0[i] == jittered_by(
                pause_after(base, i as nat),
                entropies[i],
            ),
        waiting(base, ends, entropies).1 == Some(
            match ends[k as int] {
                Ok(lease) => Ok(lease->0),
                Err(e) => Err(e@),
            },
        ),
    decreases k,
{
    if k > 0 {
        assert(ends[0] == Ok::<Option<L>, ClusterError>(None));
        let rest = ends.drop_first();
        let others = entropies.drop_first();
        assert forall|i: int| 0 <= i < k - 1 implies (#[trigger] rest[i]) == Ok::<
            Option<L>,
            ClusterError,
        >(None) by {
            assert(rest[i] == ends[i + 1]);
        }
        assert(rest[k - 1] == ends[k as int]);
        lemma_waiting(longer_pause(base), rest, others, (k - 1) as nat);
        let all = waiting(base, ends, entropies).0;
        let later = waiting(longer_pause(base), rest, others).0;
        assert(all == seq![jittered_by(base, entropies[0])] + later);
        assert forall|i: int| 0 <= i < k implies #[trigger] all[i] == jittered_by(
            pause_after(base, i as nat),
            entropies[i],
        ) by {
            if i > 0 {
                assert(all[i] == later[i - 1]);
                assert(others[i - 1] == entropies[i]);
            }
        }
    }
}

/// Being declined never ends a call that waits: after `k` attempts that were declined the next one
/// ends it, with the lease or the failure that it ended in. The `k` pauses between are 200 ms,
/// 400 ms, and 800 ms from then on, each off by no more than a fifth.
pub proof fn a_caller_waits_until_granted_or_failed<L>(
    ends: Seq<Result<Option<L>, ClusterError>>,
    entropies: Seq<u64>,
    k: nat,
)
    requires
        k < ends.len() == entropies.len(),
        forall|i: int| 0 <= i < k ==> (#[trigger] ends[i]) == Ok::<Option<L>, ClusterError>(None),
        ends[k as int] != Ok::<Option<L>, ClusterError>(None),
    ensures
        ({
            let (pauses, end) = waiting(retry_pause(0), ends, entropies);
            &&& pauses.len() == k
            &&& forall|i: int|
                0 <= i < k ==> #[trigger] pauses[i] == jittered_by(
                    retry_pause(i as nat),
                    entropies[i],
                ) && 4 * retry_pause(i as nat) <= 5 * pauses[i] <= 6 * retry_pause(i as nat)
            &&& end == Some(
                match ends[k as int] {
                    Ok(lease) => Ok(lease->0),
                    Err(e) => Err(e@),
                },
            )
        }),
{
    lemma_waiting(retry_pause(0), ends, entropies, k);
    let pauses = waiting(retry_pause(0), ends, entropies).0;
    assert forall|i: int| 0 <= i < k implies #[trigger] pauses[i] == jittered_by(
        retry_pause(i as nat),
        entropies[i],
    ) && 4 * retry_pause(i as nat) <= 5 * pauses[i] <= 6 * retry_pause(i as nat) by {
        lemma_pause_after(0, i as nat);
        retry_pauses_level_off(i as nat);
        jitter_stays_within_a_fifth(retry_pause(i as nat), entropies[i]);
    }
}

/// A lease is granted whenever its session is created, its key is acquired and the key reads back with
/// a counter of one or more, and its token is that very counter. Without such a counter the session is
/// destroyed and the acquisition fails; where the key is held by another session, the session is
/// destroyed and the acquisition is declined.
pub proof fn a_counter_of_one_or_more_is_the_token(
    bid: BidModel,
    client: ClientModel,
    answers: Answers,
    id: String,
    entry: KvEntry,
)
    requires
        answers.created == Ok::<String, ClusterError>(id),
    ensures
        ({
            let (requests, end) = bid.run(client, answers);
            let create = client.session_create(bid.name, bid.ttl_secs, SessionBehavior::Release);
            let acquire = client.kv_acquire(bid.key, id@, encode_utf8(bid.node_id));
            let look = client.kv_get_value(bid.key);
            let destroy = client.session_destroy(id@);
            let tokenless = Fault::BackendUnavailable("consul lease '"@ + bid.name + TOKENLESS@);
            let acquired = answers.acquired == Ok::<bool, ClusterError>(true);
            let read_back = answers.read == Ok::<Option<KvEntry>, ClusterError>(Some(entry));
            &&& acquired && read_back && entry.lock_index >= 1 ==> end == (ActionModel::Granted {
                session_id: id@,
                lock_index: entry.lock_index,
            }) && requests == seq![create, acquire, look]
            &&& acquired && read_back && entry.lock_index == 0 ==> end == ActionModel::Failed(tokenless)
                && requests == seq![create, acquire, look, destroy]
            &&& acquired && (answers.read is Err || answers.read == Ok::<
                Option<KvEntry>,
                ClusterError,
            >(None)) ==> end == ActionModel::Failed(tokenless) && requests == seq![
                create,
                acquire,
                look,
                destroy,
            ]
            &&& answers.acquired == Ok::<bool, ClusterError>(false) ==> end == ActionModel::Declined
                && requests == seq![create, acquire, destroy]
            &&& answers.acquired matches Err(e) ==> end == ActionModel::Failed(e@) && requests == seq![
                create,
                acquire,
            ]
        }),
{
    acquisition_runs_to_its_end(bid, client, answers);
}

/// An acquisition fails at once where no session could be created.
pub proof fn no_session_is_no_lease(bid: BidModel, client: ClientModel, answers: Answers, e: ClusterError)
    requires
        answers.created == Err::<String, ClusterError>(e),
    ensures
        bid.run(client, answers) == (
            seq![client.session_create(bid.name, bid.ttl_secs, SessionBehavior::Release)],
            ActionModel::Failed(e@),
        ),
{
    acquisition_runs_to_its_end(bid, client, answers);
}

/// A session lives for the whole seconds of the TTL, and for ten where that is more.
pub proof fn a_session_lives_for_whole_seconds(ttl: nat, secs: nat)
    requires
        secs * 1_000_000_000 <= ttl < (secs + 1) * 1_000_000_000,
    ensures
        secs >= 10 ==> session_secs(ttl) == secs,
        secs < 10 ==> session_secs(ttl) == 10,
{
}

/// A lease lives for the seconds of its session.
pub proof fn a_lease_lives_as_long_as_its_session(bid: BidModel)
    ensures
        bid.ttl_nanos() == bid.ttl_secs * 1_000_000_000,
{
}

/// The pause before a renewal is the TTL less the percentage that is kept in reserve, rounded down to
/// a nanosecond, wherever that is a second or more; else it is a second. A percentage below one counts
/// as one, and one above ninety-nine as ninety-nine. Where the TTL is so long that its multiples exceed
/// the longest span, that span takes their place.
pub proof fn a_renewal_leaves_the_reserve(ttl: nat, percent: u32)
    ensures
        percent == 0 ==> renewal_pause(ttl, percent) == renewal_pause(ttl, 1),
        percent > 99 ==> renewal_pause(ttl, percent) == renewal_pause(ttl, 99),
        1 <= percent <= 99 ==> {
            let product = ttl * (100 - percent);
            let pause = renewal_pause(ttl, percent);
            &&& pause >= 1_000_000_000
            &&& product < 100_000_000_000 ==> pause == 1_000_000_000
            &&& 100_000_000_000 <= product <= 18_446_744_073_709_551_615_999_999_999 ==> 100 * pause
                <= product < 100 * pause + 100
            &&& product > 18_446_744_073_709_551_615_999_999_999 ==> 100 * pause
                <= 18_446_744_073_709_551_615_999_999_999 < 100 * pause + 100
        },
{
}

/// Releasing a lease marks it as released and changes nothing else of it; renewing it changes when it
/// is thought to expire and nothing else of it.
pub proof fn a_lease_changes_in_one_thing(lease: LeaseModel, expires_at: Seq<char>)
    ensures
        after_release(lease) == (LeaseModel {
            session_id: lease.session_id,
            lock_key: lease.lock_key,
            lock_index: lease.lock_index,
            ttl: lease.ttl,
            expires_at: lease.expires_at,
            released: true,
        }),
        after_renewal(lease, expires_at) == (LeaseModel {
            session_id: lease.session_id,
            lock_key: lease.lock_key,
            lock_index: lease.lock_index,
            ttl: lease.ttl,
            expires_at,
            released: lease.released,
        }),
{
}

/// A lease is given back by releasing its key for its session, then destroying the session.
pub proof fn a_lease_is_given_back_whole(lease: LeaseModel, client: ClientModel)
    ensures
        lease.farewell(client).0 == client.kv_release(lease.lock_key, lease.session_id),
        lease.farewell(client).1 == client.session_destroy(lease.session_id),
{
}

/// The background renewal renews the session of the lease after every pause until the lease is
/// released; it pauses after a renewal that succeeded and stops after one that failed, however it
/// failed.
pub proof fn the_background_renewal_keeps_the_session(
    lease: LeaseModel,
    client: ClientModel,
    done: (),
    e: ClusterError,
)
    ensures
        !lease.released ==> renewal_next(lease, client, RenewalEvent::PauseOver) == RenewalModel::Send(
            client.session_renew(lease.session_id),
        ),
        lease.released ==> renewal_next(lease, client, RenewalEvent::PauseOver) == RenewalModel::Stop,
        renewal_next(lease, client, RenewalEvent::Renewed(Ok(done))) == RenewalModel::Pause,
        renewal_next(lease, client, RenewalEvent::Renewed(Err(e))) == RenewalModel::Stop,
{
}

/// What follows on an attempt keeps the lease or the failure that it ended in.
pub proof fn an_attempt_ends_the_call_unless_declined<L>(lease: L, e: ClusterError, pause: nat)
    ensures
        attempt_follows(Ok::<Option<L>, ClusterError>(Some(lease)), pause) == AttemptModel::Done(
            Ok::<L, Fault>(lease),
        ),
        attempt_follows(Ok::<Option<L>, ClusterError>(None), pause) == AttemptModel::<L>::Again(pause),
        attempt_follows(Err::<Option<L>, ClusterError>(e), pause) == AttemptModel::<L>::Done(
            Err::<L, Fault>(e@),
        ),
{
}

/// A pause is followed by one twice as long, or of 800 ms where that would be longer.
pub proof fn a_pause_doubles_up_to_a_limit(pause: nat)
    ensures
        pause <= 400_000_000 ==> longer_pause(pause) == 2 * pause,
        pause > 400_000_000 ==> longer_pause(pause) == 800_000_000,
{
}

/// The states and the actions of an acquisition keep, in the model, what they carry.
pub proof fn states_and_actions_keep_what_they_carry(
    id: String,
    lock_index: u64,
    state: AcquireState,
    request: HttpRequest,
    e: ClusterError,
)
    ensures
        AcquireState::Creating@ == StateModel::Creating,
        (AcquireState::Acquiring { session_id: id })@ == StateModel::Acquiring(id@),
        (AcquireState::ReadingBack { session_id: id })@ == StateModel::ReadingBack(id@),
        AcquireState::Declining@ == StateModel::Declining,
        AcquireState::Abandoning@ == StateModel::Abandoning,
        AcquireAction::Send(state, request)@ == ActionModel::Send(state@, request@),
        (AcquireAction::Granted { session_id: id, lock_index })@ == (ActionModel::Granted {
            session_id: id@,
            lock_index,
        }),
        AcquireAction::Declined@ == ActionModel::Declined,
        AcquireAction::Failed(e)@ == ActionModel::Failed(e@),
        RenewalAction::Send(request)@ == RenewalModel::Send(request@),
        RenewalAction::Pause@ == RenewalModel::Pause,
        RenewalAction::Stop@ == RenewalModel::Stop,
{
}

/// What follows on an attempt keeps, in the model, the result or the pause.
pub proof fn next_attempts_keep_what_they_carry<L>(r: Result<L, ClusterError>, pause: Duration)
    ensures
        next_attempt_model(NextAttempt::Done(r)) == AttemptModel::Done(outcome(r)),
        next_attempt_model(NextAttempt::<L>::Again(pause)) == AttemptModel::<L>::Again(pause@),
{
}

} // verus!
