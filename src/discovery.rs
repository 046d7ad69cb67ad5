//! The discovery protocol: building and signing this node's announcement,
//! checking the announcements of others, and keeping the peer directory
//! that they fill.

use vstd::prelude::*;
use crate::framing::{append_list, append_text, append_u64, be64, framed_list, framed_text};
use crate::registry::{
    is_selection, is_stale, list_match, opt_deref, opt_text, stale_cutoff, upsert_model, upsert_succeeds,
    same_content, stamped, valid_record, RegistryError, ServerInfoMap, ServerRegistry,
};
use crate::signing::{
    base64_of, ed25519_keypair_accepted, keypair_matches, public_key_text, sign_message, signature_text,
    signature_valid, verify_signature,
};
use crate::types::{ServerAnnouncement, ServerCapacity, ServerInfo, ServerStatus};

verus! {

/// Topic on which every node announces itself.
pub const DISCOVERY_TOPIC: &'static str = "matrix.discovery";

/// Seconds between two announcements of this node.
pub const ANNOUNCE_INTERVAL_SECS: u64 = 300;

/// Seconds between two polls of the discovery topic.
pub const DISCOVERY_POLL_INTERVAL_SECS: u64 = 60;

/// Extra seconds to wait after a failed poll of the discovery topic.
pub const DISCOVERY_RETRY_BACKOFF_SECS: u64 = 30;

/// Directory size of a service built with `new`.
pub const DEFAULT_MAX_SERVERS: usize = 1000;

/// Why an announcement was not stored.
#[derive(Clone, Copy, Debug, PartialEq, Eq, Structural)]
pub enum AnnounceError {
    /// The signature does not verify under the signer's key.
    SignatureInvalid,
    /// The directory refused the record.
    Refused(RegistryError),
}

/// The RFC 3339 text (UTC) of an instant given in seconds since the Unix epoch.
pub uninterp spec fn rfc3339_of(secs: int) -> Seq<char>;

/// Whether an instant, in seconds since the Unix epoch, lies in the
/// calendar range that has an RFC 3339 form.
pub uninterp spec fn rfc3339_defined(secs: int) -> bool;

/// Relies on chrono's `DateTime::from_timestamp` and `to_rfc3339`: the
/// RFC 3339 text of an instant, which depends on the instant alone; `None`
/// exactly when the instant is out of chrono's date range.
#[verifier::external_body]
pub(crate) fn rfc3339_text(secs: i64) -> (r: Option<String>)
    ensures
        r is Some <==> rfc3339_defined(secs as int),
        r matches Some(s) ==> s@ == rfc3339_of(secs as int),
{
    match chrono::DateTime::<chrono::Utc>::from_timestamp(secs, 0) {
        Some(t) => Some(t.to_rfc3339()),
        None => None,
    }
}

/// The bytes that an announcement's signature covers: every field but the
/// signature, framed.
pub open spec fn announcement_body(a: ServerAnnouncement) -> Seq<u8> {
    framed_text(a.server_name@) + framed_text(a.mycelium_address@) + framed_text(a.public_key@) + be64(
        a.capabilities@.len(),
    ) + framed_list(a.capabilities@) + be64(a.capacity.max_users as nat) + be64(
        a.capacity.current_users as nat,
    ) + seq![if a.capacity.available { 1u8 } else { 0u8 }] + framed_text(a.timestamp@)
}

/// The key that an announcement must be signed with: the key already on
/// record for that name if there is one, else the key it carries.
pub open spec fn signer_key(dir: Map<Seq<char>, ServerInfo>, a: ServerAnnouncement) -> Seq<char> {
    if dir.contains_key(a.server_name@) {
        dir[a.server_name@].public_key@
    } else {
        a.public_key@
    }
}

/// The directory record that an accepted announcement becomes, received at
/// `now`.
pub open spec fn record_of(a: ServerAnnouncement, now: i64) -> ServerInfo {
    ServerInfo {
        server_name: a.server_name,
        mycelium_address: a.mycelium_address,
        public_key: a.public_key,
        capabilities: a.capabilities,
        capacity: a.capacity,
        last_seen: now,
        status: ServerStatus::Online,
    }
}

/// The capacity this node reports: the user count read from the homeserver
/// (capped at `u32::MAX`), or 0 when it could not be read, and available
/// while below the maximum.
pub fn capacity_report(max_users: u32, user_count: Option<u64>) -> (r: ServerCapacity)
    ensures
        r.max_users == max_users,
        r.current_users == match user_count {
            Some(n) => if n > u32::MAX { u32::MAX as int } else { n as int },
            None => 0,
        },
        r.available == (r.current_users < max_users),
{
    let current_users: u32 = match user_count {
        Some(n) => if n > u32::MAX as u64 { u32::MAX } else { n as u32 },
        None => 0,
    };
    ServerCapacity { max_users, current_users, available: current_users < max_users }
}

/// The capability tags this node announces.
pub fn announced_capabilities() -> (r: Vec<String>)
    ensures
        r@.len() == 2,
        r@[0]@ == "matrix_federation"@,
        r@[1]@ == "tf_connect_auth"@,
{
    let mut caps: Vec<String> = Vec::new();
    caps.push("matrix_federation".to_owned());
    caps.push("tf_connect_auth".to_owned());
    caps
}

/// The bytes that an announcement's signature covers.
pub fn announcement_signing_bytes(a: &ServerAnnouncement) -> (r: Vec<u8>)
    ensures
        r@ == announcement_body(*a),
{
    let mut out: Vec<u8> = Vec::new();
    append_text(&mut out, a.server_name.as_str());
    append_text(&mut out, a.mycelium_address.as_str());
    append_text(&mut out, a.public_key.as_str());
    append_u64(&mut out, a.capabilities.len() as u64);
    append_list(&mut out, &a.capabilities);
    append_u64(&mut out, a.capacity.max_users as u64);
    append_u64(&mut out, a.capacity.current_users as u64);
    out.push(if a.capacity.available { 1u8 } else { 0u8 });
    append_text(&mut out, a.timestamp.as_str());
    assert(out@ =~= announcement_body(*a));
    out
}

/// Whether the announcement's signature verifies under the base64
/// `public_key`.
pub fn verify_server_announcement(a: &ServerAnnouncement, public_key: &str) -> (r: bool)
    ensures
        r == signature_valid(announcement_body(*a), a.signature@, public_key@),
{
    let body = announcement_signing_bytes(a);
    verify_signature(body.as_slice(), a.signature.as_str(), public_key)
}

/// This node's announcement, signed with `keypair` (64 bytes: secret half,
/// then public half), stamped `now`. `None` exactly when the keypair cannot
/// sign or `now` has no calendar form. With a matched keypair the
/// announcement verifies under the key it carries.
pub fn build_announcement(
    server_name: String,
    mycelium_address: String,
    keypair: &[u8],
    capacity: ServerCapacity,
    now: i64,
) -> (r: Option<ServerAnnouncement>)
    ensures
        r is Some <==> (keypair@.len() == 64 && ed25519_keypair_accepted(keypair@) && rfc3339_defined(
            now as int,
        )),
        r matches Some(a) ==> (keypair_matches(keypair@) ==> signature_valid(
            announcement_body(a),
            a.signature@,
            a.public_key@,
        )),
        r matches Some(a) ==> {
            &&& a.server_name == server_name
            &&& a.mycelium_address == mycelium_address
            &&& a.public_key@ == base64_of(keypair@.subrange(32, 64))
            &&& a.capabilities@.len() == 2
            &&& a.capabilities@[0]@ == "matrix_federation"@
            &&& a.capabilities@[1]@ == "tf_connect_auth"@
            &&& a.capacity == capacity
            &&& a.timestamp@ == rfc3339_of(now as int)
            &&& signature_text(keypair@, announcement_body(a)) == Some(a.signature@)
        },
{
    if keypair.len() != 64 {
        return None;
    }
    let timestamp = match rfc3339_text(now) {
        Some(t) => t,
        None => return None,
    };
    let mut a = ServerAnnouncement {
        server_name,
        mycelium_address,
        public_key: public_key_text(keypair),
        capabilities: announced_capabilities(),
        capacity,
        timestamp,
        signature: String::new(),
    };
    let body = announcement_signing_bytes(&a);
    match sign_message(keypair, body.as_slice()) {
        Some(sig) => {
            a.signature = sig;
            assert(announcement_body(a) == body@);
            Some(a)
        },
        None => None,
    }
}

/// Seconds the discovery poll loop waits before its next poll.
pub fn discovery_poll_delay(poll_succeeded: bool) -> (r: u64)
    ensures
        r == if poll_succeeded {
            DISCOVERY_POLL_INTERVAL_SECS as int
        } else {
            DISCOVERY_POLL_INTERVAL_SECS + DISCOVERY_RETRY_BACKOFF_SECS
        },
{
    if poll_succeeded {
        DISCOVERY_POLL_INTERVAL_SECS
    } else {
        DISCOVERY_POLL_INTERVAL_SECS + DISCOVERY_RETRY_BACKOFF_SECS
    }
}

/// The directory and its record count after an announcement received at
/// `now`: stored as a write when it verifies, ignored otherwise.
pub open spec fn announce_model(m: ServerInfoMap, len: nat, max: nat, a: ServerAnnouncement, now: i64) -> (ServerInfoMap, nat) {
    if announcement_accepted(m, a) {
        upsert_model(m, len, max, record_of(a, now))
    } else {
        (m, len)
    }
}

/// Whether an announcement is verified and then stored.
pub open spec fn announce_stores(m: ServerInfoMap, len: nat, max: nat, a: ServerAnnouncement, now: i64) -> bool {
    announcement_accepted(m, a) && upsert_succeeds(m, len, max, record_of(a, now))
}

/// The directory, its record count and the number of announcements
/// stored, after a batch handled in order.
pub open spec fn announce_all(m: ServerInfoMap, len: nat, max: nat, anns: Seq<ServerAnnouncement>, now: i64) -> (ServerInfoMap, nat, nat)
    decreases anns.len(),
{
    if anns.len() == 0 {
        (m, len, 0)
    } else {
        let prev = announce_all(m, len, max, anns.drop_last(), now);
        let next = announce_model(prev.0, prev.1, max, anns.last(), now);
        (next.0, next.1, prev.2 + if announce_stores(prev.0, prev.1, max, anns.last(), now) { 1nat } else { 0nat })
    }
}

/// An announcement that verifies under its signer's key (see `signer_key`).
pub open spec fn announcement_accepted(dir: Map<Seq<char>, ServerInfo>, a: ServerAnnouncement) -> bool {
    signature_valid(announcement_body(a), a.signature@, signer_key(dir, a))
}

/// The peer directory of a relay node, filled from verified announcements.
pub struct DiscoveryService {
    servers: ServerRegistry,
}

impl View for DiscoveryService {
    type V = Map<Seq<char>, ServerInfo>;

    closed spec fn view(&self) -> Map<Seq<char>, ServerInfo> {
        self.servers@
    }
}

impl DiscoveryService {
    pub closed spec fn wf(&self) -> bool {
        self.servers.wf()
    }

    /// The directory behind this service.
    pub closed spec fn registry(&self) -> ServerRegistry {
        self.servers
    }

    /// An empty directory of at most `DEFAULT_MAX_SERVERS` peers.
    pub fn new() -> (r: Self)
        ensures
            r.wf(),
            r@ == Map::<Seq<char>, ServerInfo>::empty(),
            r.registry().max_size() == DEFAULT_MAX_SERVERS,
            r.registry().records().len() == 0,
    {
        DiscoveryService { servers: ServerRegistry::new(DEFAULT_MAX_SERVERS) }
    }

    /// An empty directory of at most `max_servers` peers.
    pub fn with_max_servers(max_servers: usize) -> (r: Self)
        ensures
            r.wf(),
            r@ == Map::<Seq<char>, ServerInfo>::empty(),
            r.registry().max_size() == max_servers,
            r.registry().records().len() == 0,
    {
        DiscoveryService { servers: ServerRegistry::new(max_servers) }
    }

    /// The service's view is its directory's view.
    pub proof fn lemma_view_is_directory(&self)
        ensures
            self@ == self.registry()@,
            self.wf() == self.registry().wf(),
    {
    }

    /// The directory itself, for reads.
    pub fn directory(&self) -> (r: &ServerRegistry)
        ensures
            *r == self.registry(),
            self.wf() ==> r.wf(),
    {
        &self.servers
    }

    /// Stores the peer that `announcement` describes as online, seen at
    /// `now` (the receipt time, read by the caller), replacing any earlier
    /// record of that name; `last_seen` never moves backward. Returns
    /// whether a record of that name existed.
    pub fn add_server(&mut self, announcement: ServerAnnouncement, now: i64) -> (r: Result<bool, RegistryError>)
        requires
            old(self).wf(),
        ensures
            final(self).wf(),
            final(self).registry().max_size() == old(self).registry().max_size(),
            (final(self)@, final(self).registry().records().len()) == upsert_model(
                old(self)@,
                old(self).registry().records().len(),
                old(self).registry().max_size(),
                record_of(announcement, now),
            ),
            r is Ok <==> upsert_succeeds(
                old(self)@,
                old(self).registry().records().len(),
                old(self).registry().max_size(),
                record_of(announcement, now),
            ),
            match r {
                Ok(existed) => {
                    &&& existed == old(self)@.contains_key(announcement.server_name@)
                    &&& final(self)@ == old(self)@.insert(
                        announcement.server_name@,
                        stamped(old(self)@, record_of(announcement, now)),
                    )
                },
                Err(RegistryError::ValidationError) => !valid_record(record_of(announcement, now))
                    && final(self)@ == old(self)@,
                Err(RegistryError::CapacityExceeded) => {
                    &&& valid_record(record_of(announcement, now))
                    &&& !old(self)@.contains_key(announcement.server_name@)
                    &&& old(self).registry().records().len() >= old(self).registry().max_size()
                    &&& final(self)@ == old(self)@
                },
                Err(RegistryError::NotFound) => false,
            },
    {
        let record = into_record(announcement, now);
        self.servers.upsert(record)
    }

    /// Checks an announcement received at `now` and, when its signature
    /// verifies under the signer's key, stores it as `add_server` does.
    /// An announcement that does not verify leaves the directory unchanged.
    pub fn process_server_announcement(&mut self, announcement: ServerAnnouncement, now: i64) -> (r: Result<bool, AnnounceError>)
        requires
            old(self).wf(),
        ensures
            final(self).wf(),
            final(self).registry().max_size() == old(self).registry().max_size(),
            (final(self)@, final(self).registry().records().len()) == announce_model(
                old(self)@,
                old(self).registry().records().len(),
                old(self).registry().max_size(),
                announcement,
                now,
            ),
            r is Ok <==> announce_stores(
                old(self)@,
                old(self).registry().records().len(),
                old(self).registry().max_size(),
                announcement,
                now,
            ),
            !announcement_accepted(old(self)@, announcement) ==> r == Err::<bool, AnnounceError>(AnnounceError::SignatureInvalid),
            r == Err::<bool, AnnounceError>(AnnounceError::SignatureInvalid) ==> !announcement_accepted(old(self)@, announcement),
            match r {
                Ok(existed) => {
                    &&& existed == old(self)@.contains_key(announcement.server_name@)
                    &&& final(self)@ == old(self)@.insert(
                        announcement.server_name@,
                        stamped(old(self)@, record_of(announcement, now)),
                    )
                },
                Err(AnnounceError::Refused(RegistryError::ValidationError)) => !valid_record(record_of(announcement, now))
                    && final(self)@ == old(self)@,
                Err(AnnounceError::Refused(RegistryError::CapacityExceeded)) => {
                    &&& valid_record(record_of(announcement, now))
                    &&& !old(self)@.contains_key(announcement.server_name@)
                    &&& old(self).registry().records().len() >= old(self).registry().max_size()
                    &&& final(self)@ == old(self)@
                },
                Err(AnnounceError::Refused(RegistryError::NotFound)) => false,
                Err(AnnounceError::SignatureInvalid) => final(self)@ == old(self)@,
            },
    {
        let valid = match self.servers.get(announcement.server_name.as_str()) {
            Some(known) => verify_server_announcement(&announcement, known.public_key.as_str()),
            None => verify_server_announcement(&announcement, announcement.public_key.as_str()),
        };
        if !valid {
            return Err(AnnounceError::SignatureInvalid);
        }
        match self.add_server(announcement, now) {
            Ok(existed) => Ok(existed),
            Err(e) => Err(AnnounceError::Refused(e)),
        }
    }

    /// Handles one poll's batch of decoded announcements, all received at
    /// `now`, in order. Each that verifies is stored; the others are
    /// dropped without stopping the batch. Returns how many were stored.
    /// No record is removed, and every record that is new or changed is
    /// the record of a batch announcement that verified.
    pub fn process_announcements(&mut self, announcements: Vec<ServerAnnouncement>, now: i64) -> (r: usize)
        requires
            old(self).wf(),
        ensures
            final(self).wf(),
            final(self).registry().max_size() == old(self).registry().max_size(),
            r <= announcements@.len(),
            ({
                let out = announce_all(
                    old(self)@,
                    old(self).registry().records().len(),
                    old(self).registry().max_size(),
                    announcements@,
                    now,
                );
                final(self)@ == out.0 && final(self).registry().records().len() == out.1 && r == out.2
            }),
            forall|k: Seq<char>| #[trigger] old(self)@.contains_key(k) ==> final(self)@.contains_key(k),
            forall|k: Seq<char>|
                #[trigger] final(self)@.contains_key(k) && !(old(self)@.contains_key(k) && final(self)@[k] == old(self)@[k])
                    ==> exists|i: int|
                    0 <= i < announcements@.len() && (#[trigger] announcements@[i]).server_name@ == k
                        && same_content(final(self)@[k], record_of(announcements@[i], now)),
    {
        let ghost d0 = self@;
        let ghost len0 = self.registry().records().len();
        let ghost max0 = self.registry().max_size();
        let ghost anns = announcements@;
        let mut batch = announcements;
        let n = batch.len();
        let mut stored: usize = 0;
        let mut i: usize = 0;
        while i < n
            invariant
                n == anns.len(),
                0 <= i <= n,
                batch@ == anns.subrange(i as int, n as int),
                stored <= i,
                ({
                    let out = announce_all(
                        d0,
                        len0,
                        max0,
                        anns.take(i as int),
                        now,
                    );
                    self@ == out.0 && self.registry().records().len() == out.1 && stored == out.2
                }),
                max0 == self.registry().max_size(),
                self.wf(),
                self.registry().max_size() == old(self).registry().max_size(),
                forall|k: Seq<char>| #[trigger] d0.contains_key(k) ==> self@.contains_key(k),
                forall|k: Seq<char>|
                    #[trigger] self@.contains_key(k) && !(d0.contains_key(k) && self@[k] == d0[k]) ==> exists|j: int|
                        0 <= j < i && (#[trigger] anns[j]).server_name@ == k && same_content(self@[k], record_of(anns[j], now)),
            decreases n - i,
        {
            let a = batch.remove(0);
            proof {
                assert(a == anns[i as int]);
                assert(batch@ =~= anns.subrange(i + 1, n as int));
                assert(anns.take(i + 1).drop_last() =~= anns.take(i as int));
                assert(anns.take(i + 1).last() == a);
            }
            let ghost d1 = self@;
            let res = self.process_server_announcement(a, now);
            proof {
                assert forall|k: Seq<char>|
                    #[trigger] self@.contains_key(k) && !(d0.contains_key(k) && self@[k] == d0[k]) implies exists|j: int|
                        0 <= j < i + 1 && (#[trigger] anns[j]).server_name@ == k && same_content(self@[k], record_of(anns[j], now)) by {
                    if k == a.server_name@ && res is Ok {
                        assert(anns[i as int].server_name@ == k);
                    } else {
                        assert(d1.contains_key(k) && self@[k] == d1[k]);
                        let j = choose|j: int|
                            0 <= j < i && (#[trigger] anns[j]).server_name@ == k && same_content(d1[k], record_of(anns[j], now));
                    }
                }
            }
            if res.is_ok() {
                stored = stored + 1;
            }
            i = i + 1;
        }
        proof {
            assert(anns.take(n as int) =~= anns);
        }
        stored
    }

    /// The peers that report themselves available.
    pub fn get_available_servers(&self) -> (r: Vec<&ServerInfo>)
        requires
            self.wf(),
        ensures
            forall|i: int|
                0 <= i < r@.len() ==> {
                    &&& self@.contains_key((#[trigger] r@[i]).server_name@)
                    &&& self@[r@[i].server_name@] == *r@[i]
                    &&& r@[i].capacity.available
                },
            forall|k: Seq<char>|
                #[trigger] self@.contains_key(k) && self@[k].capacity.available ==> exists|i: int|
                    0 <= i < r@.len() && (#[trigger] r@[i]).server_name@ == k,
            forall|i: int, j: int|
                0 <= i < r@.len() && 0 <= j < r@.len() && i != j ==> (#[trigger] r@[i]).server_name@
                    != (#[trigger] r@[j]).server_name@,
    {
        let r = self.servers.list(true, None);
        proof {
            assert forall|k: Seq<char>| #[trigger] self@.contains_key(k) && self@[k].capacity.available implies exists|i: int|
                0 <= i < r@.len() && (#[trigger] r@[i]).server_name@ == k by {
                assert(list_match(self@[k], true, opt_text(None)));
            }
            assert forall|i: int| 0 <= i < r@.len() implies (#[trigger] r@[i]).capacity.available by {
                assert(list_match(*r@[i], true, opt_text(None)));
            }
        }
        r
    }

    /// The record named `server_name`, if any.
    pub fn get_server(&self, server_name: &str) -> (r: Option<&ServerInfo>)
        requires
            self.wf(),
        ensures
            match r {
                Some(s) => self@.contains_key(server_name@) && self@[server_name@] == *s,
                None => !self@.contains_key(server_name@),
            },
    {
        self.servers.get(server_name)
    }

    /// The least loaded selectable peer, ties going to the smallest name
    /// (see `ServerRegistry::select_server`).
    pub fn select_server_for_user(&self) -> (r: Option<&ServerInfo>)
        requires
            self.wf(),
        ensures
            is_selection(self@, None, opt_deref(r)),
    {
        self.servers.select_server(None)
    }

    /// Evicts every peer last seen before `now` (read by the caller) minus
    /// `max_age_minutes`; returns how many were evicted, which is the number
    /// of stale records.
    pub fn cleanup_stale_servers(&mut self, now: i64, max_age_minutes: i64) -> (r: usize)
        requires
            old(self).wf(),
        ensures
            final(self).wf(),
            final(self).registry().max_size() == old(self).registry().max_size(),
            r == old(self).registry().records().len() - final(self).registry().records().len(),
            r == old(self).registry().records().filter(
                |x: ServerInfo| is_stale(x, stale_cutoff(now, max_age_minutes)),
            ).len(),
            forall|k: Seq<char>|
                #[trigger] final(self)@.contains_key(k) <==> old(self)@.contains_key(k) && !is_stale(
                    old(self)@[k],
                    stale_cutoff(now, max_age_minutes),
                ),
            forall|k: Seq<char>| #[trigger] final(self)@.contains_key(k) ==> final(self)@[k] == old(self)@[k],
    {
        self.servers.cleanup_stale_servers(now, max_age_minutes)
    }
}

fn into_record(a: ServerAnnouncement, now: i64) -> (r: ServerInfo)
    ensures
        r == record_of(a, now),
{
    ServerInfo {
        server_name: a.server_name,
        mycelium_address: a.mycelium_address,
        public_key: a.public_key,
        capabilities: a.capabilities,
        capacity: a.capacity,
        last_seen: now,
        status: ServerStatus::Online,
    }
}

} // verus!
