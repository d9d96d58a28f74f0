//! The durable key/value store, on top of Consul KV.
//!
//! | Operation       | Consul KV |
//! |---|---|
//! | `get`           | `GET /v1/kv/<key>`; an expired value counts as absent |
//! | `put`           | `PUT /v1/kv/<key>`; the last writer wins |
//! | `put_if_absent` | `PUT /v1/kv/<key>?cas=0`; one winner |
//! | `delete`        | `GET` for existence, then `DELETE /v1/kv/<key>` |
//! | `list_prefix`   | `GET /v1/kv/<prefix>?recurse` |
//! | `expire`        | `GET` for value and version, then `PUT ?cas=<version>` |
//!
//! Consul KV has no TTL for a key. Each value is stored in an envelope with an absolute expiry, and a
//! key that is past its expiry counts as absent wherever it is read. Nothing reaps it by itself: it
//! stays in Consul until it is next read, overwritten or deleted. Whoever reads it asks for its
//! removal, at the version that was read; `put_if_absent` claims it by a write that goes by its
//! version, and creates the key where such a removal came first.
//!
//! An operation that asks Consul more than once is cut into steps: each takes the reply to the last
//! request, and gives the next request or the result.

use vstd::prelude::*;
use vstd::string::*;

use crate::client::{
    base64_bytes, carried, value_deleted, value_found, value_written, values_listed, ClientModel,
    ConsulClient, KvValueEntry,
};
use crate::envelope::{contents, decode, encode, unwrapped, unwrapping_undoes_wrapping, wrapped};
use crate::error::{outcome, ClusterError, Fault};
use crate::http::{
    is_success, succeeded, text_of, BodyModel, HttpRequest, RequestModel, Sent,
};
use crate::text::has_prefix;
use crate::time::{
    an_expiry_lies_the_ttl_ahead, expires_at, expiry_after, now_unix_ms, Duration,
};

verus! {

/// A value that was read, and when it expires, in Unix milliseconds.
#[derive(Clone, Debug)]
pub struct Entry {
    pub bytes: Vec<u8>,
    pub expires_at: Option<u64>,
}

/// An [`Entry`] in the model.
pub struct EntryModel {
    pub bytes: Seq<u8>,
    pub expires_at: Option<u64>,
}

impl View for Entry {
    type V = EntryModel;

    open spec fn view(&self) -> EntryModel {
        EntryModel { bytes: self.bytes@, expires_at: self.expires_at }
    }
}

/// An optional entry in the model.
pub open spec fn entry_of(o: Option<Entry>) -> Option<EntryModel> {
    match o {
        Some(entry) => Some(entry@),
        None => None,
    }
}

/// Whether something with that expiry is still there at `now_ms`.
pub open spec fn is_live(expires: Option<u64>, now_ms: u64) -> bool {
    match expires {
        Some(ms) => ms > now_ms,
        None => true,
    }
}

/// What a reader sees at `now_ms` of a value with an expiry.
pub open spec fn seen(value: Seq<u8>, expires: Option<u64>, now_ms: u64) -> Option<EntryModel> {
    if is_live(expires, now_ms) {
        Some(EntryModel { bytes: value, expires_at: expires })
    } else {
        None
    }
}

/// The entry that a reader sees at `now_ms` of a value with an expiry: none once it has expired.
pub fn entry_at(value: Vec<u8>, expires_at_unix_ms: Option<u64>, now_ms: u64) -> (r: Option<Entry>)
    ensures
        entry_of(r) == seen(value@, expires_at_unix_ms, now_ms),
{
    match expires_at_unix_ms {
        Some(ms) => if ms <= now_ms {
            None
        } else {
            Some(Entry { bytes: value, expires_at: Some(ms) })
        },
        None => Some(Entry { bytes: value, expires_at: None }),
    }
}

/// The entry that a reader sees now of a value with an expiry: none once it has expired.
pub fn entry_from_decoded(value: Vec<u8>, expires_at_unix_ms: Option<u64>) -> (r: Option<Entry>)
    ensures
        exists|now_ms: u64| entry_of(r) == #[trigger] seen(value@, expires_at_unix_ms, now_ms),
        expires_at_unix_ms is None ==> r is Some,
        expires_at_unix_ms == Some(0u64) ==> r is None,
{
    let now_ms: u64 = now_unix_ms();
    entry_at(value, expires_at_unix_ms, now_ms)
}

/// The value and the expiry that a key holds. Nothing where a foreign writer wrote it.
pub open spec fn stored(entry: KvValueEntry) -> Option<(Seq<u8>, Option<u64>)> {
    unwrapped(carried(text_of(entry.value_b64)))
}

/// What a reader sees of a key at `now_ms`.
pub open spec fn visible(entry: KvValueEntry, now_ms: u64) -> Option<EntryModel> {
    match stored(entry) {
        Some((value, expires)) => seen(value, expires, now_ms),
        None => None,
    }
}

/// Whether a key is past its expiry at `now_ms`. A value without an expiry is not, nor is one that
/// a foreign writer wrote.
pub open spec fn is_expired(entry: KvValueEntry, now_ms: u64) -> bool {
    stored(entry) matches Some((_, expires)) && !is_live(expires, now_ms)
}

fn stored_in(entry: &KvValueEntry) -> (r: Option<(Vec<u8>, Option<u64>)>)
    ensures
        contents(r) == stored(*entry),
{
    let bytes = entry.decoded_value();
    decode(bytes.as_slice())
}

fn visible_in(entry: &KvValueEntry, now_ms: u64) -> (r: Option<Entry>)
    ensures
        entry_of(r) == visible(*entry, now_ms),
{
    match stored_in(entry) {
        Some((value, expires)) => entry_at(value, expires, now_ms),
        None => None,
    }
}

/// When a value with that TTL, written at `now_ms`, expires.
pub open spec fn expiry_of(ttl: Option<Duration>, now_ms: u64) -> Option<u64> {
    match ttl {
        Some(ttl) => Some(expiry_after(now_ms, ttl@)),
        None => None,
    }
}

fn expiry_for(ttl: Option<Duration>, now_ms: u64) -> (r: Option<u64>)
    ensures
        r == expiry_of(ttl, now_ms),
{
    match ttl {
        Some(ttl) => Some(expires_at(now_ms, ttl)),
        None => None,
    }
}

/// A step of an operation that writes on a condition.
pub enum Step {
    /// The operation is done; whether it had an effect.
    Settled(Result<bool, ClusterError>),
    /// Consul is to be asked first.
    Ask(HttpRequest),
}

/// A [`Step`] in the model.
pub enum StepModel {
    Settled(Result<bool, Fault>),
    Ask(RequestModel),
}

impl View for Step {
    type V = StepModel;

    open spec fn view(&self) -> StepModel {
        match self {
            Step::Settled(r) => StepModel::Settled(outcome(*r)),
            Step::Ask(request) => StepModel::Ask(request@),
        }
    }
}

/// A step of a claim after the look at the key that stood in its way.
pub enum ClaimStep {
    /// The claim is done; whether it was won.
    Settled(Result<bool, ClusterError>),
    /// The key is to be created.
    Create(HttpRequest),
    /// The key is to be overwritten at the version that was seen.
    Reclaim(HttpRequest),
}

/// A [`ClaimStep`] in the model.
pub enum ClaimStepModel {
    Settled(Result<bool, Fault>),
    Create(RequestModel),
    Reclaim(RequestModel),
}

impl View for ClaimStep {
    type V = ClaimStepModel;

    open spec fn view(&self) -> ClaimStepModel {
        match self {
            ClaimStep::Settled(r) => ClaimStepModel::Settled(outcome(*r)),
            ClaimStep::Create(request) => ClaimStepModel::Create(request@),
            ClaimStep::Reclaim(request) => ClaimStepModel::Reclaim(request@),
        }
    }
}

/// The key/value store of one deployment. Its keys begin with the prefix of the deployment and
/// `kv/`, clear of the keys of leases.
pub struct ConsulKv {
    client: ConsulClient,
    key_prefix: String,
}

/// A [`ConsulKv`] in the model.
pub struct KvModel {
    pub client: ClientModel,
    pub key_prefix: Seq<char>,
}

impl View for ConsulKv {
    type V = KvModel;

    closed spec fn view(&self) -> KvModel {
        KvModel { client: self.client@, key_prefix: self.key_prefix@ }
    }
}

impl Clone for ConsulKv {
    fn clone(&self) -> (r: ConsulKv)
        ensures
            r@ == self@,
    {
        ConsulKv { client: self.client.clone(), key_prefix: self.key_prefix.clone() }
    }
}

impl KvModel {
    /// The key in Consul that stands for `key`.
    pub open spec fn full_key(self, key: Seq<char>) -> Seq<char> {
        self.key_prefix + key
    }

    /// The key that a key in Consul stands for.
    pub open spec fn logical_key(self, full: Seq<char>) -> Seq<char> {
        if self.key_prefix.is_prefix_of(full) {
            full.skip(self.key_prefix.len() as int)
        } else {
            full
        }
    }

    /// The request that asks for what a key holds.
    pub open spec fn ask(self, key: Seq<char>) -> RequestModel {
        self.client.kv_get_value(self.full_key(key))
    }

    /// The request that writes a value, whatever the key holds or only at a version.
    pub open spec fn write(
        self,
        key: Seq<char>,
        value: Seq<u8>,
        expires: Option<u64>,
        cas: Option<u64>,
    ) -> RequestModel {
        self.client.kv_put_value(self.full_key(key), wrapped(value, expires), cas)
    }
}

/// What [`ConsulKv::get`] gives.
pub open spec fn got(sent: Sent<Vec<KvValueEntry>>, now_ms: u64) -> Result<Option<EntryModel>, Fault> {
    match value_found(sent) {
        Ok(Some(entry)) => Ok(visible(entry, now_ms)),
        Ok(None) => Ok(None),
        Err(e) => Err(e),
    }
}

/// The removal of a key that was found past its expiry, at the version that was seen.
pub open spec fn reaping(
    kv: KvModel,
    key: Seq<char>,
    sent: Sent<Vec<KvValueEntry>>,
    now_ms: u64,
) -> Option<RequestModel> {
    match value_found(sent) {
        Ok(Some(entry)) => if is_expired(entry, now_ms) {
            Some(kv.client.kv_delete_value_at(kv.full_key(key), entry.modify_index))
        } else {
            None
        },
        _ => None,
    }
}

/// The removals of the entries of a listing that are past their expiry, each at the version that was
/// seen.
pub open spec fn reapings(kv: KvModel, entries: Seq<KvValueEntry>, now_ms: u64) -> Seq<RequestModel>
    decreases entries.len(),
{
    if entries.len() == 0 {
        Seq::empty()
    } else {
        let before = reapings(kv, entries.drop_last(), now_ms);
        let entry = entries.last();
        if is_expired(entry, now_ms) {
            before.push(kv.client.kv_delete_value_at(entry.key@, entry.modify_index))
        } else {
            before
        }
    }
}

/// Requests in the model.
pub open spec fn request_models(requests: Seq<HttpRequest>) -> Seq<RequestModel> {
    requests.map_values(|request: HttpRequest| request@)
}

fn expired_in(entry: &KvValueEntry, now_ms: u64) -> (r: bool)
    ensures
        r == is_expired(*entry, now_ms),
{
    match stored_in(entry) {
        Some((_, Some(ms))) => ms <= now_ms,
        _ => false,
    }
}

fn listed_in(sent: &Sent<Vec<KvValueEntry>>) -> (r: Option<&Vec<KvValueEntry>>)
    ensures
        match *sent {
            Ok(reply) => if is_success(reply.status) && reply.body is Ok {
                r == Some(&reply.body->Ok_0)
            } else {
                r is None
            },
            Err(_) => r is None,
        },
{
    match sent {
        Ok(reply) => if succeeded(reply.status) {
            match &reply.body {
                Ok(entries) => Some(entries),
                Err(_) => None,
            }
        } else {
            None
        },
        Err(_) => None,
    }
}

/// What comes of a write of [`ConsulKv::put_if_absent`] that may yet be followed by another: where it
/// took effect the claim is won, else what the key holds is to be looked at.
pub open spec fn after_claiming_write(kv: KvModel, key: Seq<char>, sent: Sent<String>) -> StepModel {
    match value_written(sent) {
        Ok(true) => StepModel::Settled(Ok(true)),
        Ok(false) => StepModel::Ask(kv.ask(key)),
        Err(e) => StepModel::Settled(Err(e)),
    }
}

/// What comes of looking at a key that was not created: a key that has gone meanwhile is created
/// again, an expired one is overwritten at the version that was seen, any other is left alone.
pub open spec fn after_look(
    kv: KvModel,
    key: Seq<char>,
    value: Seq<u8>,
    expires: Option<u64>,
    sent: Sent<Vec<KvValueEntry>>,
    now_ms: u64,
) -> ClaimStepModel {
    match value_found(sent) {
        Ok(None) => ClaimStepModel::Create(kv.write(key, value, expires, Some(0))),
        Ok(Some(entry)) => if is_expired(entry, now_ms) {
            ClaimStepModel::Reclaim(kv.write(key, value, expires, Some(entry.modify_index)))
        } else {
            ClaimStepModel::Settled(Ok(false))
        },
        Err(e) => ClaimStepModel::Settled(Err(e)),
    }
}

/// What comes of looking at a key that could not be overwritten: one that a reader has removed is
/// created, any other is left alone.
pub open spec fn after_second_look(
    kv: KvModel,
    key: Seq<char>,
    value: Seq<u8>,
    expires: Option<u64>,
    sent: Sent<Vec<KvValueEntry>>,
) -> StepModel {
    match value_found(sent) {
        Ok(None) => StepModel::Ask(kv.write(key, value, expires, Some(0))),
        Ok(Some(_)) => StepModel::Settled(Ok(false)),
        Err(e) => StepModel::Settled(Err(e)),
    }
}

/// Whether a key that is to be deleted was there.
pub open spec fn was_there(sent: Sent<Vec<KvValueEntry>>, now_ms: u64) -> Result<bool, Fault> {
    match got(sent, now_ms) {
        Ok(entry) => Ok(entry is Some),
        Err(e) => Err(e),
    }
}

/// What comes of looking at a key whose expiry is to change: it is written anew at the version that
/// was seen, unless there is nothing to be seen of it.
pub open spec fn after_expire_look(
    kv: KvModel,
    key: Seq<char>,
    ttl: Option<Duration>,
    sent: Sent<Vec<KvValueEntry>>,
    now_ms: u64,
) -> StepModel {
    match value_found(sent) {
        Ok(Some(entry)) => match visible(entry, now_ms) {
            Some(seen) => StepModel::Ask(
                kv.write(key, seen.bytes, expiry_of(ttl, now_ms), Some(entry.modify_index)),
            ),
            None => StepModel::Settled(Ok(false)),
        },
        Ok(None) => StepModel::Settled(Ok(false)),
        Err(e) => StepModel::Settled(Err(e)),
    }
}

/// What is visible among some entries at `now_ms`, in their order.
pub open spec fn all_visible(kv: KvModel, entries: Seq<KvValueEntry>, now_ms: u64) -> Seq<
    (Seq<char>, EntryModel),
>
    decreases entries.len(),
{
    if entries.len() == 0 {
        Seq::empty()
    } else {
        let before = all_visible(kv, entries.drop_last(), now_ms);
        match visible(entries.last(), now_ms) {
            Some(entry) => before.push((kv.logical_key(entries.last().key@), entry)),
            None => before,
        }
    }
}

/// How many entries a listing with that limit holds at most. A limit of zero still lets one through.
pub open spec fn effective_limit(limit: usize) -> nat {
    if limit == 0 {
        1
    } else {
        limit as nat
    }
}

/// The first entries of a listing, up to its limit.
pub open spec fn limited<T>(items: Seq<T>, limit: usize) -> Seq<T> {
    if items.len() <= effective_limit(limit) {
        items
    } else {
        items.take(effective_limit(limit) as int)
    }
}

/// What [`ConsulKv::list_prefix`] gives.
pub open spec fn listed(
    kv: KvModel,
    sent: Sent<Vec<KvValueEntry>>,
    limit: usize,
    now_ms: u64,
) -> Result<Seq<(Seq<char>, EntryModel)>, Fault> {
    match values_listed(sent) {
        Ok(entries) => Ok(limited(all_visible(kv, entries, now_ms), limit)),
        Err(e) => Err(e),
    }
}

/// A listing in the model.
pub open spec fn listing(items: Seq<(String, Entry)>) -> Seq<(Seq<char>, EntryModel)> {
    items.map_values(|item: (String, Entry)| (item.0@, item.1@))
}

impl ConsulKv {
    /// The store of the deployment whose keys begin with `kv_prefix`.
    pub fn new(client: ConsulClient, kv_prefix: &str) -> (r: ConsulKv)
        ensures
            r@.client == client@,
            r@.key_prefix == kv_prefix@ + "kv/"@,
    {
        let mut key_prefix = kv_prefix.to_owned();
        key_prefix.append("kv/");
        ConsulKv { client, key_prefix }
    }

    /// What all keys of the store begin with.
    pub fn key_prefix(&self) -> (r: &str)
        ensures
            r@ == self@.key_prefix,
    {
        self.key_prefix.as_str()
    }

    /// The key in Consul that stands for `key`.
    pub fn full_key(&self, key: &str) -> (r: String)
        ensures
            r@ == self@.full_key(key@),
    {
        let mut full = self.key_prefix.clone();
        full.append(key);
        full
    }

    /// The key that a key in Consul stands for.
    pub fn logical_key(&self, full: &str) -> (r: String)
        ensures
            r@ == self@.logical_key(full@),
    {
        if has_prefix(full, self.key_prefix.as_str()) {
            let from: usize = self.key_prefix.as_str().unicode_len();
            let to: usize = full.unicode_len();
            let rest = full.substring_char(from, to);
            assert(rest@ =~= full@.skip(from as int));
            rest.to_owned()
        } else {
            full.to_owned()
        }
    }

    /// Asks for the value of a key.
    pub fn get(&self, key: &str) -> (r: HttpRequest)
        ensures
            r@ == self@.ask(key@),
    {
        self.client.kv_get_value(self.full_key(key).as_str())
    }

    /// Goes on with any operation after a look at a key: asks for the removal of what was found past
    /// its expiry, unless somebody writes the key meanwhile. Whether the removal takes effect makes
    /// no difference to the operation.
    pub fn reap(&self, key: &str, sent: &Sent<Vec<KvValueEntry>>, now_ms: u64) -> (r: Option<
        HttpRequest,
    >)
        ensures
            match r {
                Some(request) => reaping(self@, key@, *sent, now_ms) == Some(request@),
                None => reaping(self@, key@, *sent, now_ms) is None,
            },
    {
        match listed_in(sent) {
            Some(entries) => if entries.len() > 0 && expired_in(&entries[0], now_ms) {
                Some(
                    self.client.kv_delete_value_at(
                        self.full_key(key).as_str(),
                        entries[0].modify_index,
                    ),
                )
            } else {
                None
            },
            None => None,
        }
    }

    /// Goes on with [`Self::list_prefix`] after the listing: asks for the removal of what was found
    /// past its expiry.
    pub fn reap_listed(&self, sent: &Sent<Vec<KvValueEntry>>, now_ms: u64) -> (r: Vec<HttpRequest>)
        ensures
            request_models(r@) == match values_listed(*sent) {
                Ok(entries) => reapings(self@, entries, now_ms),
                Err(_) => Seq::empty(),
            },
    {
        let mut requests: Vec<HttpRequest> = Vec::new();
        assert(request_models(requests@) =~= Seq::<RequestModel>::empty());
        match listed_in(sent) {
            Some(entries) => {
                let mut i: usize = 0;
                assert(entries@.take(0) =~= Seq::<KvValueEntry>::empty());
                while i < entries.len()
                    invariant
                        i <= entries.len(),
                        request_models(requests@) == reapings(
                            self@,
                            entries@.take(i as int),
                            now_ms,
                        ),
                    decreases entries.len() - i,
                {
                    let entry = &entries[i];
                    proof {
                        let next = entries@.take(i + 1);
                        assert(next.drop_last() =~= entries@.take(i as int));
                        assert(next.last() == entries@[i as int]);
                    }
                    if expired_in(entry, now_ms) {
                        let ghost before = requests@;
                        requests.push(
                            self.client.kv_delete_value_at(entry.key.as_str(), entry.modify_index),
                        );
                        assert(request_models(requests@) =~= request_models(before).push(
                            requests@.last()@,
                        ));
                    }
                    i += 1;
                }
                assert(entries@.take(i as int) =~= entries@);
            },
            None => {},
        }
        requests
    }

    /// Reads the reply to [`Self::get`]: what is visible of the key at `now_ms`. What has expired is
    /// then removed: see [`Self::reap`].
    pub fn get_reply(sent: Sent<Vec<KvValueEntry>>, now_ms: u64) -> (r: Result<
        Option<Entry>,
        ClusterError,
    >)
        ensures
            match r {
                Ok(entry) => got(sent, now_ms) == Ok::<_, Fault>(entry_of(entry)),
                Err(e) => got(sent, now_ms) == Err::<Option<EntryModel>, _>(e@),
            },
    {
        match ConsulClient::kv_get_value_reply(sent) {
            Ok(Some(entry)) => Ok(visible_in(&entry, now_ms)),
            Ok(None) => Ok(None),
            Err(e) => Err(e),
        }
    }

    /// Writes a value, which expires a TTL after `now_ms` if it has one. The last writer wins.
    pub fn put(&self, key: &str, value: &[u8], ttl: Option<Duration>, now_ms: u64) -> (r: HttpRequest)
        ensures
            r@ == self@.write(key@, value@, expiry_of(ttl, now_ms), None),
    {
        let wrapped_value = encode(value, expiry_for(ttl, now_ms));
        self.client.kv_put_value(self.full_key(key).as_str(), wrapped_value, None)
    }

    /// Reads the reply to [`Self::put`].
    pub fn put_reply(sent: Sent<String>) -> (r: Result<(), ClusterError>)
        ensures
            outcome(r) == match value_written(sent) {
                Ok(_) => Ok(()),
                Err(e) => Err(e),
            },
    {
        match ConsulClient::kv_put_value_reply(sent) {
            Ok(_) => Ok(()),
            Err(e) => Err(e),
        }
    }

    /// Begins to claim a key that nobody holds: a write that takes effect only where the key does
    /// not exist, so that of all who try at once one wins. `expires` is the expiry of the value; it
    /// stays the same through all steps of the claim.
    pub fn put_if_absent(&self, key: &str, value: &[u8], expires: Option<u64>) -> (r: HttpRequest)
        ensures
            r@ == self@.write(key@, value@, expires, Some(0)),
    {
        self.client.kv_put_value(self.full_key(key).as_str(), encode(value, expires), Some(0))
    }

    /// When a value with that TTL, written at `now_ms`, expires.
    pub fn expiry(ttl: Option<Duration>, now_ms: u64) -> (r: Option<u64>)
        ensures
            r == expiry_of(ttl, now_ms),
    {
        expiry_for(ttl, now_ms)
    }

    /// Goes on with [`Self::put_if_absent`] after its first write.
    pub fn put_if_absent_created(&self, key: &str, sent: Sent<String>) -> (r: Step)
        ensures
            r@ == after_claiming_write(self@, key@, sent),
    {
        match ConsulClient::kv_put_value_reply(sent) {
            Ok(true) => Step::Settled(Ok(true)),
            Ok(false) => Step::Ask(self.get(key)),
            Err(e) => Step::Settled(Err(e)),
        }
    }

    /// Goes on with [`Self::put_if_absent`] after a look at the key that stood in its way. Creating
    /// the key is then the last write, and [`Self::put_if_absent_reply`] reads the reply;
    /// [`Self::put_if_absent_reclaimed`] goes on after overwriting it.
    pub fn put_if_absent_looked(
        &self,
        key: &str,
        value: &[u8],
        expires: Option<u64>,
        sent: Sent<Vec<KvValueEntry>>,
        now_ms: u64,
    ) -> (r: ClaimStep)
        ensures
            r@ == after_look(self@, key@, value@, expires, sent, now_ms),
    {
        match ConsulClient::kv_get_value_reply(sent) {
            Ok(None) => ClaimStep::Create(self.put_if_absent(key, value, expires)),
            Ok(Some(entry)) => if expired_in(&entry, now_ms) {
                ClaimStep::Reclaim(
                    self.client.kv_put_value(
                        self.full_key(key).as_str(),
                        encode(value, expires),
                        Some(entry.modify_index),
                    ),
                )
            } else {
                ClaimStep::Settled(Ok(false))
            },
            Err(e) => ClaimStep::Settled(Err(e)),
        }
    }

    /// Goes on with [`Self::put_if_absent`] after overwriting an expired key. Where that had no
    /// effect, somebody else has claimed the key, or a reader has removed it: what is asked for is
    /// another look.
    pub fn put_if_absent_reclaimed(&self, key: &str, sent: Sent<String>) -> (r: Step)
        ensures
            r@ == after_claiming_write(self@, key@, sent),
    {
        self.put_if_absent_created(key, sent)
    }

    /// Goes on with [`Self::put_if_absent`] after the look at a key that could not be overwritten.
    /// What is asked for is the last write: [`Self::put_if_absent_reply`] reads the reply.
    pub fn put_if_absent_looked_again(
        &self,
        key: &str,
        value: &[u8],
        expires: Option<u64>,
        sent: Sent<Vec<KvValueEntry>>,
    ) -> (r: Step)
        ensures
            r@ == after_second_look(self@, key@, value@, expires, sent),
    {
        match ConsulClient::kv_get_value_reply(sent) {
            Ok(None) => Step::Ask(self.put_if_absent(key, value, expires)),
            Ok(Some(_)) => Step::Settled(Ok(false)),
            Err(e) => Step::Settled(Err(e)),
        }
    }

    /// Reads the reply to the last write of [`Self::put_if_absent`]: whether it won.
    pub fn put_if_absent_reply(sent: Sent<String>) -> (r: Result<bool, ClusterError>)
        ensures
            outcome(r) == value_written(sent),
    {
        ConsulClient::kv_put_value_reply(sent)
    }

    /// Begins to delete a key. Consul does not say whether a deleted key existed, so it is looked at
    /// first.
    pub fn delete(&self, key: &str) -> (r: HttpRequest)
        ensures
            r@ == self@.ask(key@),
    {
        self.get(key)
    }

    /// Goes on with [`Self::delete`] after the look at the key: whether it was there, and the
    /// request that deletes it in any case. A key that has expired was not there.
    pub fn delete_looked(&self, key: &str, sent: Sent<Vec<KvValueEntry>>, now_ms: u64) -> (r: Result<
        (bool, HttpRequest),
        ClusterError,
    >)
        ensures
            match r {
                Ok((existed, request)) => was_there(sent, now_ms) == Ok::<_, Fault>(existed)
                    && existed == (got(sent, now_ms) matches Ok(Some(_)))
                    && request@ == self@.client.kv_delete_value(self@.full_key(key@)),
                Err(e) => was_there(sent, now_ms) == Err::<bool, _>(e@),
            },
    {
        match Self::get_reply(sent, now_ms) {
            Ok(entry) => Ok(
                (entry.is_some(), self.client.kv_delete_value(self.full_key(key).as_str())),
            ),
            Err(e) => Err(e),
        }
    }

    /// Ends [`Self::delete`]: whether the key was there, as the look at it told.
    pub fn delete_reply(existed: bool, sent: Sent<()>) -> (r: Result<bool, ClusterError>)
        ensures
            outcome(r) == match value_deleted(sent) {
                Ok(_) => Ok(existed),
                Err(e) => Err(e),
            },
    {
        match ConsulClient::kv_delete_value_reply(sent) {
            Ok(_) => Ok(existed),
            Err(e) => Err(e),
        }
    }

    /// Asks for the keys that begin with a prefix.
    pub fn list_prefix(&self, prefix: &str) -> (r: HttpRequest)
        ensures
            r@ == self@.client.kv_list_recurse(self@.full_key(prefix@)),
    {
        self.client.kv_list_recurse(self.full_key(prefix).as_str())
    }

    /// Reads the reply to [`Self::list_prefix`]: what is visible at `now_ms`, in the order of Consul,
    /// up to the limit.
    pub fn list_prefix_reply(&self, sent: Sent<Vec<KvValueEntry>>, limit: usize, now_ms: u64) -> (r:
        Result<Vec<(String, Entry)>, ClusterError>)
        ensures
            match r {
                Ok(items) => listed(self@, sent, limit, now_ms) == Ok::<_, Fault>(listing(items@)),
                Err(e) => listed(self@, sent, limit, now_ms) == Err::<
                    Seq<(Seq<char>, EntryModel)>,
                    _,
                >(e@),
            },
    {
        let entries = match ConsulClient::kv_list_recurse_reply(sent) {
            Ok(entries) => entries,
            Err(e) => {
                return Err(e);
            },
        };
        let ghost all = all_visible(self@, entries@, now_ms);
        let mut out: Vec<(String, Entry)> = Vec::new();
        let mut i: usize = 0;
        assert(listing(out@) =~= all_visible(self@, entries@.take(0), now_ms));
        while i < entries.len()
            invariant
                i <= entries.len(),
                all == all_visible(self@, entries@, now_ms),
                values_listed(sent) == Ok::<_, Fault>(entries@),
                listing(out@) == all_visible(self@, entries@.take(i as int), now_ms),
                i > 0 ==> out@.len() < effective_limit(limit),
                i == 0 ==> out@.len() == 0,
            decreases entries.len() - i,
        {
            let entry = &entries[i];
            proof {
                let next = entries@.take(i + 1);
                assert(next.drop_last() =~= entries@.take(i as int));
                assert(next.last() == entries@[i as int]);
                lemma_visible_grows(self@, entries@, now_ms, i + 1);
            }
            match visible_in(entry, now_ms) {
                Some(found) => {
                    let ghost before = out@;
                    out.push((self.logical_key(entry.key.as_str()), found));
                    assert(listing(out@) =~= listing(before).push(
                        (out@.last().0@, out@.last().1@),
                    ));
                    if out.len() >= limit {
                        proof {
                            let n = out@.len();
                            assert(n == effective_limit(limit));
                            assert(listing(out@) =~= all.take(n as int));
                            if all.len() <= n {
                                assert(all.take(n as int) =~= all);
                            }
                        }
                        return Ok(out);
                    }
                },
                None => {},
            }
            i += 1;
        }
        assert(entries@.take(i as int) =~= entries@);
        Ok(out)
    }

    /// Begins to change the expiry of a key: looks at it.
    pub fn expire(&self, key: &str) -> (r: HttpRequest)
        ensures
            r@ == self@.ask(key@),
    {
        self.get(key)
    }

    /// Goes on with [`Self::expire`] after the look at the key: the same value with the new expiry,
    /// to be written only if nobody wrote meanwhile. [`Self::expire_reply`] reads the reply.
    pub fn expire_looked(
        &self,
        key: &str,
        ttl: Option<Duration>,
        sent: Sent<Vec<KvValueEntry>>,
        now_ms: u64,
    ) -> (r: Step)
        ensures
            r@ == after_expire_look(self@, key@, ttl, sent, now_ms),
    {
        match ConsulClient::kv_get_value_reply(sent) {
            Ok(Some(entry)) => match visible_in(&entry, now_ms) {
                Some(found) => {
                    let wrapped_value = encode(found.bytes.as_slice(), expiry_for(ttl, now_ms));
                    Step::Ask(
                        self.client.kv_put_value(
                            self.full_key(key).as_str(),
                            wrapped_value,
                            Some(entry.modify_index),
                        ),
                    )
                },
                None => Step::Settled(Ok(false)),
            },
            Ok(None) => Step::Settled(Ok(false)),
            Err(e) => Step::Settled(Err(e)),
        }
    }

    /// Reads the reply to the write of [`Self::expire`]: whether the expiry was changed.
    pub fn expire_reply(sent: Sent<String>) -> (r: Result<bool, ClusterError>)
        ensures
            outcome(r) == value_written(sent),
    {
        ConsulClient::kv_put_value_reply(sent)
    }
}

proof fn lemma_visible_grows(kv: KvModel, entries: Seq<KvValueEntry>, now_ms: u64, n: int)
    requires
        0 <= n <= entries.len(),
    ensures
        all_visible(kv, entries.take(n), now_ms).is_prefix_of(all_visible(kv, entries, now_ms)),
    decreases entries.len(),
{
    if n == entries.len() {
        assert(entries.take(n) =~= entries);
    } else {
        lemma_visible_grows(kv, entries.drop_last(), now_ms, n);
        assert(entries.drop_last().take(n) =~= entries.take(n));
        let small = all_visible(kv, entries.take(n), now_ms);
        let mid = all_visible(kv, entries.drop_last(), now_ms);
        let large = all_visible(kv, entries, now_ms);
        assert(mid.is_prefix_of(large)) by {
            assert(mid =~= large.subrange(0, mid.len() as int));
        }
        assert(small =~= large.subrange(0, small.len() as int)) by {
            assert(small == mid.subrange(0, small.len() as int));
            assert(forall|i: int| 0 <= i < small.len() ==> small[i] == #[trigger] mid[i]);
        }
    }
}

/// The key that a key in Consul stands for is the one that it was made from.
pub proof fn logical_key_undoes_full_key(kv: KvModel, key: Seq<char>)
    ensures
        kv.logical_key(kv.full_key(key)) == key,
{
    let full = kv.full_key(key);
    assert(kv.key_prefix =~= full.subrange(0, kv.key_prefix.len() as int));
    assert(full.skip(kv.key_prefix.len() as int) =~= key);
}

/// A read gives back what a write wrote. Where Consul holds under a key the bytes that a write sent,
/// a reader sees the value and the expiry that were written, until it expires; then nothing.
pub proof fn read_gives_back_what_was_written(
    kv: KvModel,
    key: Seq<char>,
    value: Seq<u8>,
    expires: Option<u64>,
    cas: Option<u64>,
    sent: Sent<Vec<KvValueEntry>>,
    entry: KvValueEntry,
    now_ms: u64,
)
    requires
        value_found(sent) == Ok::<_, Fault>(Some(entry)),
        kv.write(key, value, expires, cas).body == BodyModel::Bytes(
            carried(text_of(entry.value_b64)),
        ),
    ensures
        got(sent, now_ms) == Ok::<_, Fault>(
            if is_live(expires, now_ms) {
                Some(EntryModel { bytes: value, expires_at: expires })
            } else {
                None
            },
        ),
{
    unwrapping_undoes_wrapping(value, expires);
}

/// A key that has expired is absent wherever it is read: a reader sees nothing, deleting it reports
/// that it was not there, its expiry cannot be changed, no listing shows it, and a claim may take
/// it, at the version that was seen.
pub proof fn an_expired_key_is_absent(
    kv: KvModel,
    key: Seq<char>,
    value: Seq<u8>,
    expires: Option<u64>,
    ttl: Option<Duration>,
    sent: Sent<Vec<KvValueEntry>>,
    entry: KvValueEntry,
    others: Seq<KvValueEntry>,
    now_ms: u64,
)
    requires
        value_found(sent) == Ok::<_, Fault>(Some(entry)),
        is_expired(entry, now_ms),
    ensures
        got(sent, now_ms) == Ok::<Option<EntryModel>, Fault>(None),
        was_there(sent, now_ms) == Ok::<bool, Fault>(false),
        after_expire_look(kv, key, ttl, sent, now_ms) == StepModel::Settled(Ok(false)),
        all_visible(kv, others.push(entry), now_ms) == all_visible(kv, others, now_ms),
        after_look(kv, key, value, expires, sent, now_ms) == ClaimStepModel::Reclaim(
            kv.write(key, value, expires, Some(entry.modify_index)),
        ),
{
    assert(others.push(entry).drop_last() =~= others);
}

/// A claim never overwrites a key that has not expired, nor one that a foreign writer wrote.
pub proof fn a_claim_spares_what_has_not_expired(
    kv: KvModel,
    key: Seq<char>,
    value: Seq<u8>,
    expires: Option<u64>,
    sent: Sent<Vec<KvValueEntry>>,
    entry: KvValueEntry,
    now_ms: u64,
)
    requires
        value_found(sent) == Ok::<_, Fault>(Some(entry)),
        visible(entry, now_ms) is Some || stored(entry) is None,
    ensures
        after_look(kv, key, value, expires, sent, now_ms) == ClaimStepModel::Settled(Ok(false)),
        after_second_look(kv, key, value, expires, sent) == StepModel::Settled(Ok(false)),
{
}

/// What has expired stays so.
pub proof fn expiry_is_final(entry: KvValueEntry, now_ms: u64, later_ms: u64)
    requires
        now_ms <= later_ms,
    ensures
        is_expired(entry, now_ms) ==> is_expired(entry, later_ms),
        visible(entry, later_ms) is Some ==> visible(entry, later_ms) == visible(entry, now_ms),
{
}

/// Changing the expiry of a key keeps its value: what is then written is the value that was seen,
/// with the new expiry.
pub proof fn expire_keeps_the_value(
    kv: KvModel,
    key: Seq<char>,
    ttl: Option<Duration>,
    sent: Sent<Vec<KvValueEntry>>,
    entry: KvValueEntry,
    now_ms: u64,
)
    requires
        value_found(sent) == Ok::<_, Fault>(Some(entry)),
        visible(entry, now_ms) is Some,
    ensures
        after_expire_look(kv, key, ttl, sent, now_ms) == StepModel::Ask(
            kv.write(
                key,
                visible(entry, now_ms)->0.bytes,
                expiry_of(ttl, now_ms),
                Some(entry.modify_index),
            ),
        ),
{
}

/// What a whole claim comes to, given the replies to its writes and its looks at the key, so far as it
/// comes to them.
pub open spec fn claimed(
    kv: KvModel,
    key: Seq<char>,
    value: Seq<u8>,
    expires: Option<u64>,
    first: Sent<String>,
    look: Sent<Vec<KvValueEntry>>,
    now_ms: u64,
    second: Sent<String>,
    again: Sent<Vec<KvValueEntry>>,
    last: Sent<String>,
) -> Result<bool, Fault> {
    match after_claiming_write(kv, key, first) {
        StepModel::Settled(r) => r,
        StepModel::Ask(_) => match after_look(kv, key, value, expires, look, now_ms) {
            ClaimStepModel::Settled(r) => r,
            ClaimStepModel::Create(_) => value_written(second),
            ClaimStepModel::Reclaim(_) => match after_claiming_write(kv, key, second) {
                StepModel::Settled(r) => r,
                StepModel::Ask(_) => match after_second_look(kv, key, value, expires, again) {
                    StepModel::Settled(r) => r,
                    StepModel::Ask(_) => value_written(last),
                },
            },
        },
    }
}

/// Whether a write took effect.
pub open spec fn took_effect(sent: Sent<String>) -> bool {
    value_written(sent) == Ok::<bool, Fault>(true)
}

/// Whether a write was refused because of the version of the key.
pub open spec fn was_refused(sent: Sent<String>) -> bool {
    value_written(sent) == Ok::<bool, Fault>(false)
}

/// A claim is won exactly if a write of its own took effect: the first one; the second one where the
/// key had gone or had expired; or the last one where the key had expired and was then removed.
pub proof fn a_claim_is_won_by_its_own_write(
    kv: KvModel,
    key: Seq<char>,
    value: Seq<u8>,
    expires: Option<u64>,
    first: Sent<String>,
    look: Sent<Vec<KvValueEntry>>,
    now_ms: u64,
    second: Sent<String>,
    again: Sent<Vec<KvValueEntry>>,
    last: Sent<String>,
)
    ensures
        claimed(kv, key, value, expires, first, look, now_ms, second, again, last) == Ok::<bool, Fault>(
            true,
        ) <==> {
            ||| took_effect(first)
            ||| was_refused(first) && (value_found(look) matches Ok(found) && (found matches Some(entry)
                ==> is_expired(entry, now_ms))) && took_effect(second)
            ||| was_refused(first) && (value_found(look) matches Ok(Some(entry)) && is_expired(
                entry,
                now_ms,
            )) && was_refused(second) && value_found(again) == Ok::<Option<KvValueEntry>, Fault>(None)
                && took_effect(last)
        },
{
}

/// How many of some writes take effect that all go by the version `cas` and reach a key of that
/// version one after the other. Version zero stands for a key that does not exist. A write takes
/// effect if the key has the version that it goes by, and gives the key the next of the new versions.
pub open spec fn effective_writes(version: u64, cas: u64, new_versions: Seq<u64>) -> nat
    decreases new_versions.len(),
{
    if new_versions.len() == 0 {
        0
    } else if version == cas {
        1 + effective_writes(new_versions[0], cas, new_versions.drop_first())
    } else {
        effective_writes(version, cas, new_versions.drop_first())
    }
}

/// A contended write has exactly one winner: of all writes that go by the version that the key has,
/// one takes effect, since Consul never gives a key a version again. Where the key has another
/// version, none does.
pub proof fn a_contended_write_has_one_winner(version: u64, cas: u64, new_versions: Seq<u64>)
    requires
        new_versions.len() > 0,
        forall|i: int| 0 <= i < new_versions.len() ==> #[trigger] new_versions[i] != cas,
    ensures
        effective_writes(version, cas, new_versions) == if version == cas {
            1nat
        } else {
            0
        },
    decreases new_versions.len(),
{
    let rest = new_versions.drop_first();
    assert(forall|i: int| 0 <= i < rest.len() ==> rest[i] == #[trigger] new_versions[i + 1]);
    assert forall|i: int| 0 <= i < rest.len() implies #[trigger] rest[i] != cas by {
        assert(rest[i] == new_versions[i + 1]);
    }
    if rest.len() > 0 {
        a_contended_write_has_one_winner(new_versions[0], cas, rest);
        a_contended_write_has_one_winner(version, cas, rest);
    } else {
        assert(effective_writes(new_versions[0], cas, rest) == 0);
        assert(effective_writes(version, cas, rest) == 0);
    }
    assert(new_versions[0] != cas);
}

/// A listing shows every visible entry under its key, and nothing else.
pub proof fn a_listing_shows_the_visible(
    kv: KvModel,
    entries: Seq<KvValueEntry>,
    now_ms: u64,
    key: Seq<char>,
    seen: EntryModel,
)
    ensures
        all_visible(kv, entries, now_ms).contains((key, seen)) == exists|i: int|
            0 <= i < entries.len() && visible(#[trigger] entries[i], now_ms) == Some(seen)
                && kv.logical_key(entries[i].key@) == key,
    decreases entries.len(),
{
    let all = all_visible(kv, entries, now_ms);
    if entries.len() > 0 {
        let rest = entries.drop_last();
        let last = entries.last();
        let before = all_visible(kv, rest, now_ms);
        a_listing_shows_the_visible(kv, rest, now_ms, key, seen);
        assert(entries[entries.len() - 1] == last);
        assert(forall|i: int| 0 <= i < rest.len() ==> rest[i] == #[trigger] entries[i]);
        if before.contains((key, seen)) {
            let k = choose|k: int| 0 <= k < before.len() && before[k] == (key, seen);
            assert(all[k] == (key, seen));
            let i = choose|i: int|
                0 <= i < rest.len() && visible(#[trigger] rest[i], now_ms) == Some(seen)
                    && kv.logical_key(rest[i].key@) == key;
            assert(entries[i] == rest[i]);
        }
        if all.contains((key, seen)) {
            let k = choose|k: int| 0 <= k < all.len() && all[k] == (key, seen);
            if k < before.len() {
                assert(before[k] == (key, seen));
            }
        }
        if visible(last, now_ms) == Some(seen) && kv.logical_key(last.key@) == key {
            assert(all[before.len() as int] == (key, seen));
        }
        if exists|i: int|
            0 <= i < entries.len() && visible(#[trigger] entries[i], now_ms) == Some(seen)
                && kv.logical_key(entries[i].key@) == key {
            let i = choose|i: int|
                0 <= i < entries.len() && visible(#[trigger] entries[i], now_ms) == Some(seen)
                    && kv.logical_key(entries[i].key@) == key;
            if i < rest.len() {
                assert(rest[i] == entries[i]);
                assert(before.contains((key, seen)));
            }
        }
    }
}

/// Whether a reply of success shows `entry` as what a key holds.
pub open spec fn shows(sent: Sent<Vec<KvValueEntry>>, entry: KvValueEntry) -> bool {
    sent matches Ok(reply) && reply.status / 100 == 2 && (reply.body matches Ok(entries)
        && entries@.len() > 0 && entries@[0] == entry)
}

/// Whether a reply tells that there is no such key.
pub open spec fn shows_nothing(sent: Sent<Vec<KvValueEntry>>) -> bool {
    sent matches Ok(reply) && (reply.status == 404 || (reply.status / 100 == 2 && (
    reply.body matches Ok(entries) && entries@.len() == 0)))
}

/// Whether the text of an entry stands for `bytes`.
pub open spec fn holds_bytes(entry: KvValueEntry, bytes: Seq<u8>) -> bool {
    entry.value_b64 matches Some(text) && base64_bytes(text@) == Some(bytes)
}

/// What a reader sees of an entry that holds a value in its envelope: the value, whole, with its
/// expiry, at every instant before the expiry and at none from then on; always without an expiry.
/// What is in no envelope of this store is not seen, and does not expire.
pub proof fn an_entry_is_seen_until_it_expires(
    entry: KvValueEntry,
    value: Seq<u8>,
    ms: u64,
    foreign: Seq<u8>,
    now_ms: u64,
)
    ensures
        holds_bytes(entry, wrapped(value, None)) ==> visible(entry, now_ms) == Some(
            EntryModel { bytes: value, expires_at: None },
        ) && !is_expired(entry, now_ms),
        holds_bytes(entry, wrapped(value, Some(ms))) && now_ms < ms ==> visible(entry, now_ms) == Some(
            EntryModel { bytes: value, expires_at: Some(ms) },
        ) && !is_expired(entry, now_ms),
        holds_bytes(entry, wrapped(value, Some(ms))) && now_ms >= ms ==> visible(entry, now_ms) is None
            && is_expired(entry, now_ms),
        holds_bytes(entry, foreign) && unwrapped(foreign) is None ==> visible(entry, now_ms) is None
            && !is_expired(entry, now_ms),
        entry.value_b64 is None ==> visible(entry, now_ms) is None && !is_expired(entry, now_ms),
{
    unwrapping_undoes_wrapping(value, None);
    unwrapping_undoes_wrapping(value, Some(ms));
}

/// An entry in the model keeps its bytes and its expiry, one by one and in a listing.
pub proof fn entries_keep_bytes_and_expiry(entry: Entry, items: Seq<(String, Entry)>, i: int)
    requires
        0 <= i < items.len(),
    ensures
        entry_of(None) is None,
        entry_of(Some(entry)) == Some(
            EntryModel { bytes: entry.bytes@, expires_at: entry.expires_at },
        ),
        listing(items).len() == items.len(),
        listing(items)[i].0 == items[i].0@,
        listing(items)[i].1.bytes == items[i].1.bytes@,
        listing(items)[i].1.expires_at == items[i].1.expires_at,
{
}

/// A value of any length is read back whole: where the text that Consul gives for a key stands for the
/// body of a write, a reader gets the value and the expiry that were written, before the expiry, and
/// nothing from then on.
pub proof fn a_written_value_is_read_back_whole(
    kv: KvModel,
    key: Seq<char>,
    value: Seq<u8>,
    expires: Option<u64>,
    cas: Option<u64>,
    body: Seq<u8>,
    sent: Sent<Vec<KvValueEntry>>,
    entry: KvValueEntry,
    now_ms: u64,
)
    requires
        kv.write(key, value, expires, cas).body == BodyModel::Bytes(body),
        shows(sent, entry),
        holds_bytes(entry, body),
    ensures
        got(sent, now_ms) == Ok::<_, Fault>(
            match expires {
                None => Some(EntryModel { bytes: value, expires_at: None }),
                Some(ms) => if now_ms < ms {
                    Some(EntryModel { bytes: value, expires_at: Some(ms) })
                } else {
                    None
                },
            },
        ),
{
    unwrapping_undoes_wrapping(value, expires);
}

/// A read finds nothing where there is no such key, and fails with what Consul failed with.
pub proof fn a_read_fails_as_consul_does(sent: Sent<Vec<KvValueEntry>>, now_ms: u64)
    ensures
        shows_nothing(sent) ==> got(sent, now_ms) == Ok::<Option<EntryModel>, Fault>(None),
        value_found(sent) matches Err(e) ==> got(sent, now_ms) == Err::<Option<EntryModel>, Fault>(e),
        got(sent, now_ms) is Err ==> value_found(sent) is Err,
{
}

/// A TTL lasts exactly as long as it says: a value that is written at `now_ms` with a TTL of `ms` whole
/// milliseconds is seen at every instant before `now_ms + ms`, and at none from then on. Without a TTL
/// it is seen always, and one beyond 64 bits ends with them.
pub proof fn a_ttl_lasts_exactly_as_long(
    kv: KvModel,
    key: Seq<char>,
    value: Seq<u8>,
    ttl: Duration,
    ms: nat,
    now_ms: u64,
    cas: Option<u64>,
    body: Seq<u8>,
    forever: Seq<u8>,
    sent: Sent<Vec<KvValueEntry>>,
    entry: KvValueEntry,
    later_ms: u64,
)
    requires
        ms * 1_000_000 <= ttl@ < (ms + 1) * 1_000_000,
        kv.write(key, value, expiry_of(Some(ttl), now_ms), cas).body == BodyModel::Bytes(body),
        kv.write(key, value, expiry_of(None, now_ms), cas).body == BodyModel::Bytes(forever),
        shows(sent, entry),
    ensures
        holds_bytes(entry, body) && now_ms + ms <= 0xffff_ffff_ffff_ffff ==> got(sent, later_ms) == Ok::<
            _,
            Fault,
        >(
            if later_ms < now_ms + ms {
                Some(EntryModel { bytes: value, expires_at: Some((now_ms + ms) as u64) })
            } else {
                None
            },
        ),
        holds_bytes(entry, body) && now_ms + ms > 0xffff_ffff_ffff_ffff ==> got(sent, later_ms) == Ok::<
            _,
            Fault,
        >(
            if later_ms < 0xffff_ffff_ffff_ffff {
                Some(EntryModel { bytes: value, expires_at: Some(0xffff_ffff_ffff_ffff) })
            } else {
                None
            },
        ),
        holds_bytes(entry, forever) ==> got(sent, later_ms) == Ok::<_, Fault>(
            Some(EntryModel { bytes: value, expires_at: None }),
        ),
{
    an_expiry_lies_the_ttl_ahead(now_ms, ttl@, ms);
    unwrapping_undoes_wrapping(value, expiry_of(Some(ttl), now_ms));
    unwrapping_undoes_wrapping(value, None);
}

/// A deletion reports that the key was there exactly where a read of the same reply at the same instant
/// shows an entry, with an expiry or without; it fails where that read fails. So it is told of every
/// value that has no expiry or whose expiry lies ahead, and of nothing else.
pub proof fn a_deletion_reports_what_a_read_shows(
    sent: Sent<Vec<KvValueEntry>>,
    entry: KvValueEntry,
    value: Seq<u8>,
    ms: u64,
    foreign: Seq<u8>,
    now_ms: u64,
)
    ensures
        was_there(sent, now_ms) == Ok::<bool, Fault>(true) <==> (got(sent, now_ms) matches Ok(Some(_))),
        was_there(sent, now_ms) == Ok::<bool, Fault>(false) <==> (got(sent, now_ms) matches Ok(None)),
        got(sent, now_ms) matches Err(e) ==> was_there(sent, now_ms) == Err::<bool, Fault>(e),
        shows(sent, entry) && holds_bytes(entry, wrapped(value, None)) ==> was_there(sent, now_ms) == Ok::<
            bool,
            Fault,
        >(true),
        shows(sent, entry) && holds_bytes(entry, wrapped(value, Some(ms))) ==> was_there(sent, now_ms)
            == Ok::<bool, Fault>(now_ms < ms),
        shows(sent, entry) && holds_bytes(entry, foreign) && unwrapped(foreign) is None ==> was_there(
            sent,
            now_ms,
        ) == Ok::<bool, Fault>(false),
        shows_nothing(sent) ==> was_there(sent, now_ms) == Ok::<bool, Fault>(false),
{
    an_entry_is_seen_until_it_expires(entry, value, ms, foreign, now_ms);
}

/// Changing the expiry of a key writes the value that it holds, whole, with the expiry that the new TTL
/// gives, and goes by the version that was seen. There is nothing to change where the key is absent,
/// has expired or holds what is not of this store.
pub proof fn a_change_of_expiry_writes_the_same_value(
    kv: KvModel,
    key: Seq<char>,
    ttl: Duration,
    ms: nat,
    sent: Sent<Vec<KvValueEntry>>,
    entry: KvValueEntry,
    value: Seq<u8>,
    expires: Option<u64>,
    foreign: Seq<u8>,
    now_ms: u64,
)
    requires
        ms * 1_000_000 <= ttl@ < (ms + 1) * 1_000_000,
        now_ms + ms <= 0xffff_ffff_ffff_ffff,
    ensures
        shows(sent, entry) && holds_bytes(entry, wrapped(value, expires)) && (expires matches Some(at)
            ==> now_ms < at) ==> {
            &&& after_expire_look(kv, key, Some(ttl), sent, now_ms) == StepModel::Ask(
                kv.client.kv_put_value(
                    kv.key_prefix + key,
                    wrapped(value, Some((now_ms + ms) as u64)),
                    Some(entry.modify_index),
                ),
            )
            &&& after_expire_look(kv, key, None, sent, now_ms) == StepModel::Ask(
                kv.client.kv_put_value(
                    kv.key_prefix + key,
                    wrapped(value, None),
                    Some(entry.modify_index),
                ),
            )
        },
        shows(sent, entry) && holds_bytes(entry, wrapped(value, expires)) && (expires matches Some(at)
            && now_ms >= at) ==> after_expire_look(kv, key, Some(ttl), sent, now_ms)
            == StepModel::Settled(Ok(false)),
        shows(sent, entry) && holds_bytes(entry, foreign) && unwrapped(foreign) is None
            ==> after_expire_look(kv, key, Some(ttl), sent, now_ms) == StepModel::Settled(Ok(false)),
        shows_nothing(sent) ==> after_expire_look(kv, key, Some(ttl), sent, now_ms)
            == StepModel::Settled(Ok(false)),
        value_found(sent) matches Err(e) ==> after_expire_look(kv, key, Some(ttl), sent, now_ms)
            == StepModel::Settled(Err(e)),
{
    an_expiry_lies_the_ttl_ahead(now_ms, ttl@, ms);
    unwrapping_undoes_wrapping(value, expires);
}

/// A write sends the value in its envelope to the key of the store, whatever the key holds or only at a
/// version; a look asks for that key.
pub proof fn writes_and_looks_go_to_the_key_of_the_store(
    kv: KvModel,
    key: Seq<char>,
    value: Seq<u8>,
    expires: Option<u64>,
    cas: Option<u64>,
)
    ensures
        kv.full_key(key) == kv.key_prefix + key,
        kv.ask(key) == kv.client.kv_get_value(kv.key_prefix + key),
        kv.write(key, value, expires, cas) == kv.client.kv_put_value(
            kv.key_prefix + key,
            wrapped(value, expires),
            cas,
        ),
        unwrapped(wrapped(value, expires)) == Some((value, expires)),
{
    unwrapping_undoes_wrapping(value, expires);
}

/// A key that is not one of the store stands for itself.
pub proof fn other_keys_stand_for_themselves(kv: KvModel, full: Seq<char>)
    requires
        full.len() < kv.key_prefix.len() || full.subrange(0, kv.key_prefix.len() as int)
            != kv.key_prefix,
    ensures
        kv.logical_key(full) == full,
{
}

/// A claim goes on as Consul answers: it is won by a write that took effect and looks at the key after
/// one that did not.
pub proof fn a_claim_goes_on_after_a_write(kv: KvModel, key: Seq<char>, sent: Sent<String>)
    ensures
        value_written(sent) == Ok::<bool, Fault>(true) <==> after_claiming_write(kv, key, sent)
            == StepModel::Settled(Ok(true)),
        value_written(sent) == Ok::<bool, Fault>(false) <==> after_claiming_write(kv, key, sent)
            == StepModel::Ask(kv.client.kv_get_value(kv.key_prefix + key)),
        value_written(sent) matches Err(e) ==> after_claiming_write(kv, key, sent)
            == StepModel::Settled(Err(e)),
{
}

/// A claim goes by what it saw: it creates a key that is absent, overwrites one that has expired at the
/// version that was seen, and gives up on any other. What it writes is its value, whole, with its
/// expiry.
pub proof fn a_claim_goes_by_what_it_saw(
    kv: KvModel,
    key: Seq<char>,
    value: Seq<u8>,
    expires: Option<u64>,
    sent: Sent<Vec<KvValueEntry>>,
    entry: KvValueEntry,
    held: Seq<u8>,
    ms: u64,
    foreign: Seq<u8>,
    now_ms: u64,
)
    ensures
        ({
            let step = after_look(kv, key, value, expires, sent, now_ms);
            let again = after_second_look(kv, key, value, expires, sent);
            let bytes = wrapped(value, expires);
            &&& shows_nothing(sent) ==> step == ClaimStepModel::Create(
                kv.client.kv_put_value(kv.key_prefix + key, bytes, Some(0)),
            ) && again == StepModel::Ask(
                kv.client.kv_put_value(kv.key_prefix + key, bytes, Some(0)),
            )
            &&& shows(sent, entry) && holds_bytes(entry, wrapped(held, Some(ms))) ==> step == if now_ms
                >= ms {
                ClaimStepModel::Reclaim(
                    kv.client.kv_put_value(kv.key_prefix + key, bytes, Some(entry.modify_index)),
                )
            } else {
                ClaimStepModel::Settled(Ok(false))
            }
            &&& shows(sent, entry) && holds_bytes(entry, wrapped(held, None)) ==> step
                == ClaimStepModel::Settled(Ok(false))
            &&& shows(sent, entry) && holds_bytes(entry, foreign) && unwrapped(foreign) is None ==> step
                == ClaimStepModel::Settled(Ok(false))
            &&& shows(sent, entry) ==> again == StepModel::Settled(Ok(false))
            &&& value_found(sent) matches Err(e) ==> step == ClaimStepModel::Settled(Err(e)) && again
                == StepModel::Settled(Err(e))
        }),
{
    an_entry_is_seen_until_it_expires(entry, held, ms, foreign, now_ms);
}

/// What is read past its expiry is removed at the version that was seen, one by one and in a listing;
/// nothing else is.
pub proof fn what_is_read_past_its_expiry_is_removed(
    kv: KvModel,
    key: Seq<char>,
    sent: Sent<Vec<KvValueEntry>>,
    entry: KvValueEntry,
    value: Seq<u8>,
    ms: u64,
    foreign: Seq<u8>,
    now_ms: u64,
)
    ensures
        shows(sent, entry) && holds_bytes(entry, wrapped(value, Some(ms))) ==> reaping(
            kv,
            key,
            sent,
            now_ms,
        ) == if now_ms >= ms {
            Some(kv.client.kv_delete_value_at(kv.key_prefix + key, entry.modify_index))
        } else {
            None
        },
        shows(sent, entry) && (holds_bytes(entry, wrapped(value, None)) || (holds_bytes(entry, foreign)
            && unwrapped(foreign) is None)) ==> reaping(kv, key, sent, now_ms) is None,
        shows_nothing(sent) || value_found(sent) is Err ==> reaping(kv, key, sent, now_ms) is None,
        holds_bytes(entry, wrapped(value, Some(ms))) ==> reapings(kv, seq![entry], now_ms) == if now_ms
            >= ms {
            seq![kv.client.kv_delete_value_at(entry.key@, entry.modify_index)]
        } else {
            Seq::empty()
        },
        holds_bytes(entry, wrapped(value, None)) || (holds_bytes(entry, foreign) && unwrapped(foreign)
            is None) ==> reapings(kv, seq![entry], now_ms) == Seq::<RequestModel>::empty(),
{
    an_entry_is_seen_until_it_expires(entry, value, ms, foreign, now_ms);
    let one = seq![entry];
    assert(one.drop_last() =~= Seq::<KvValueEntry>::empty());
    assert(reapings(kv, one.drop_last(), now_ms) =~= Seq::<RequestModel>::empty());
    assert(one.last() == entry);
    let removal = kv.client.kv_delete_value_at(entry.key@, entry.modify_index);
    assert(Seq::<RequestModel>::empty().push(removal) =~= seq![removal]);
}

/// A listing is taken entry by entry, in the order of Consul: each visible entry under the key that it
/// was stored by, whole, and nothing for any other. The removals that follow are taken so too.
pub proof fn a_listing_is_taken_entry_by_entry(
    kv: KvModel,
    a: Seq<KvValueEntry>,
    b: Seq<KvValueEntry>,
    now_ms: u64,
)
    ensures
        all_visible(kv, a + b, now_ms) == all_visible(kv, a, now_ms) + all_visible(kv, b, now_ms),
        reapings(kv, a + b, now_ms) == reapings(kv, a, now_ms) + reapings(kv, b, now_ms),
    decreases b.len(),
{
    if b.len() == 0 {
        assert(a + b =~= a);
        assert(all_visible(kv, a, now_ms) + all_visible(kv, b, now_ms) =~= all_visible(kv, a, now_ms));
        assert(reapings(kv, a, now_ms) + reapings(kv, b, now_ms) =~= reapings(kv, a, now_ms));
    } else {
        assert((a + b).drop_last() =~= a + b.drop_last());
        assert((a + b).last() == b.last());
        a_listing_is_taken_entry_by_entry(kv, a, b.drop_last(), now_ms);
        assert(all_visible(kv, a + b, now_ms) =~= all_visible(kv, a, now_ms) + all_visible(
            kv,
            b,
            now_ms,
        ));
        assert(reapings(kv, a + b, now_ms) =~= reapings(kv, a, now_ms) + reapings(kv, b, now_ms));
    }
}

/// What a listing shows of one entry that was stored under `key`.
pub proof fn a_listing_shows_an_entry_as_a_read_does(
    kv: KvModel,
    key: Seq<char>,
    entry: KvValueEntry,
    value: Seq<u8>,
    ms: u64,
    foreign: Seq<u8>,
    now_ms: u64,
)
    requires
        entry.key@ == kv.key_prefix + key,
    ensures
        holds_bytes(entry, wrapped(value, None)) ==> all_visible(kv, seq![entry], now_ms) == seq![
            (key, EntryModel { bytes: value, expires_at: None }),
        ],
        holds_bytes(entry, wrapped(value, Some(ms))) ==> all_visible(kv, seq![entry], now_ms) == if now_ms
            < ms {
            seq![(key, EntryModel { bytes: value, expires_at: Some(ms) })]
        } else {
            Seq::empty()
        },
        holds_bytes(entry, foreign) && unwrapped(foreign) is None ==> all_visible(
            kv,
            seq![entry],
            now_ms,
        ) == Seq::<(Seq<char>, EntryModel)>::empty(),
{
    an_entry_is_seen_until_it_expires(entry, value, ms, foreign, now_ms);
    logical_key_undoes_full_key(kv, key);
    let one = seq![entry];
    assert(one.drop_last() =~= Seq::<KvValueEntry>::empty());
    assert(all_visible(kv, one.drop_last(), now_ms) =~= Seq::<(Seq<char>, EntryModel)>::empty());
    assert(one.last() == entry);
    if let Some(seen) = visible(entry, now_ms) {
        assert(Seq::<(Seq<char>, EntryModel)>::empty().push((key, seen)) =~= seq![(key, seen)]);
    }
}

/// A limit keeps the first entries, as many as it says, all of them where there are fewer, and one
/// where it says none.
pub proof fn a_limit_keeps_the_first<T>(items: Seq<T>, limit: usize, i: int)
    ensures
        items.len() <= limit ==> limited(items, limit) == items,
        items.len() > limit > 0 ==> limited(items, limit).len() == limit,
        limit == 0 && items.len() > 0 ==> limited(items, limit).len() == 1,
        items.len() == 0 ==> limited(items, limit).len() == 0,
        0 <= i < limited(items, limit).len() ==> limited(items, limit)[i] == items[i],
{
}

/// A listing is what is visible of all that Consul lists, up to the limit; it fails as Consul does.
pub proof fn a_listing_lists_what_consul_lists(
    kv: KvModel,
    sent: Sent<Vec<KvValueEntry>>,
    limit: usize,
    now_ms: u64,
)
    ensures
        values_listed(sent) matches Ok(entries) ==> listed(kv, sent, limit, now_ms) == Ok::<_, Fault>(
            limited(all_visible(kv, entries, now_ms), limit),
        ),
        values_listed(sent) matches Err(e) ==> listed(kv, sent, limit, now_ms) == Err::<
            Seq<(Seq<char>, EntryModel)>,
            Fault,
        >(e),
{
}

/// Requests in the model are the requests, one by one.
pub proof fn request_models_are_the_requests(requests: Seq<HttpRequest>, i: int)
    requires
        0 <= i < requests.len(),
    ensures
        request_models(requests).len() == requests.len(),
        request_models(requests)[i] == requests[i]@,
{
}

/// The steps of an operation keep, in the model, what they carry.
pub proof fn steps_keep_what_they_carry(r: Result<bool, ClusterError>, request: HttpRequest)
    ensures
        Step::Settled(r)@ == StepModel::Settled(outcome(r)),
        Step::Ask(request)@ == StepModel::Ask(request@),
        ClaimStep::Settled(r)@ == ClaimStepModel::Settled(outcome(r)),
        ClaimStep::Create(request)@ == ClaimStepModel::Create(request@),
        ClaimStep::Reclaim(request)@ == ClaimStepModel::Reclaim(request@),
{
}

} // verus!
