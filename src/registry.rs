//! The peer directory: a last-write-wins map from server name to record,
//! bounded by a configured maximum size.

use vstd::prelude::*;
use crate::types::{contains_capability, has_capability, ServerInfo, ServerStatus};

verus! {

/// Why the directory refused a request.
#[derive(Clone, Copy, Debug, PartialEq, Eq, Structural)]
pub enum RegistryError {
    /// The record has an empty name or an empty transport address.
    ValidationError,
    /// The directory is full and the record names a new peer.
    CapacityExceeded,
    /// No record has the requested name.
    NotFound,
}

/// A directory as a map from name to record.
pub type ServerInfoMap = Map<Seq<char>, ServerInfo>;

/// No two records share a name.
pub open spec fn names_unique(s: Seq<ServerInfo>) -> bool {
    forall|i: int, j: int|
        0 <= i < s.len() && 0 <= j < s.len() && i != j ==> (#[trigger] s[i]).server_name@
            != (#[trigger] s[j]).server_name@
}

/// Some record of `s` has the name `k`.
pub open spec fn has_name(s: Seq<ServerInfo>, k: Seq<char>) -> bool {
    exists|i: int| 0 <= i < s.len() && (#[trigger] s[i]).server_name@ == k
}

/// The directory as a map from name to record.
pub open spec fn map_of(s: Seq<ServerInfo>) -> Map<Seq<char>, ServerInfo> {
    Map::new(
        |k: Seq<char>| has_name(s, k),
        |k: Seq<char>| s[choose|i: int| 0 <= i < s.len() && (#[trigger] s[i]).server_name@ == k],
    )
}

/// A record that a write may store: non-empty name and transport address.
pub open spec fn valid_record(r: ServerInfo) -> bool {
    r.server_name@.len() > 0 && r.mycelium_address@.len() > 0
}

/// A record older than `cutoff` (seconds since the epoch).
pub open spec fn is_stale(r: ServerInfo, cutoff: int) -> bool {
    (r.last_seen as int) < cutoff
}

/// The cutoff of an eviction pass: `now` minus the threshold in minutes.
pub open spec fn stale_cutoff(now: i64, threshold_minutes: i64) -> int {
    now as int - threshold_minutes as int * 60
}

/// A record that `list` returns for the given filter.
pub open spec fn list_match(r: ServerInfo, available_only: bool, capability: Option<Seq<char>>) -> bool {
    (!available_only || r.capacity.available) && match capability {
        Some(c) => has_capability(r.capabilities@, c),
        None => true,
    }
}

/// Byte-wise lexicographic order: `a` sorts strictly before `b`.
pub open spec fn bytes_before(a: Seq<u8>, b: Seq<u8>) -> bool
    decreases a.len(),
{
    if b.len() == 0 {
        false
    } else if a.len() == 0 {
        true
    } else if a[0] != b[0] {
        a[0] < b[0]
    } else {
        bytes_before(a.drop_first(), b.drop_first())
    }
}

/// Names are ordered by their UTF-8 bytes, as Rust orders strings.
pub open spec fn name_before(a: Seq<char>, b: Seq<char>) -> bool {
    bytes_before(vstd::utf8::encode_utf8(a), vstd::utf8::encode_utf8(b))
}

/// A record that selection may pick: online, available, and carrying the
/// requested capability if one is given.
pub open spec fn selectable(r: ServerInfo, capability: Option<Seq<char>>) -> bool {
    &&& r.status == ServerStatus::Online
    &&& r.capacity.available
    &&& match capability {
        Some(c) => has_capability(r.capabilities@, c),
        None => true,
    }
}

/// `a` is preferred to `b`: fewer current users, then the smaller name.
pub open spec fn preferred(a: ServerInfo, b: ServerInfo) -> bool {
    a.capacity.current_users < b.capacity.current_users || (a.capacity.current_users
        == b.capacity.current_users && name_before(a.server_name@, b.server_name@))
}

/// Compares two names byte-wise.
pub fn name_less(a: &str, b: &str) -> (r: bool)
    ensures
        r == name_before(a@, b@),
{
    let x = a.as_bytes();
    let y = b.as_bytes();
    let ghost xs = x@;
    let ghost ys = y@;
    let mut i: usize = 0;
    assert(xs.skip(0) =~= xs);
    assert(ys.skip(0) =~= ys);
    while i < x.len() && i < y.len() && x[i] == y[i]
        invariant
            xs == x@,
            ys == y@,
            0 <= i <= xs.len(),
            i <= ys.len(),
            bytes_before(xs, ys) == bytes_before(xs.skip(i as int), ys.skip(i as int)),
        decreases xs.len() - i,
    {
        proof {
            assert(xs.skip(i as int).drop_first() =~= xs.skip(i + 1));
            assert(ys.skip(i as int).drop_first() =~= ys.skip(i + 1));
        }
        i = i + 1;
    }
    if i < y.len() {
        if i < x.len() {
            x[i] < y[i]
        } else {
            true
        }
    } else {
        false
    }
}

pub proof fn lemma_bytes_before_asym(a: Seq<u8>, b: Seq<u8>)
    ensures
        bytes_before(a, b) ==> !bytes_before(b, a),
    decreases a.len(),
{
    if a.len() > 0 && b.len() > 0 && a[0] == b[0] {
        lemma_bytes_before_asym(a.drop_first(), b.drop_first());
    }
}

pub proof fn lemma_bytes_before_trans(a: Seq<u8>, b: Seq<u8>, c: Seq<u8>)
    ensures
        bytes_before(a, b) && bytes_before(b, c) ==> bytes_before(a, c),
    decreases a.len(),
{
    if a.len() > 0 && b.len() > 0 && c.len() > 0 {
        lemma_bytes_before_trans(a.drop_first(), b.drop_first(), c.drop_first());
    }
}

/// Two different byte strings are ordered one way or the other.
pub proof fn lemma_bytes_before_total(a: Seq<u8>, b: Seq<u8>)
    ensures
        a != b ==> bytes_before(a, b) || bytes_before(b, a),
    decreases a.len(),
{
    if a.len() > 0 && b.len() > 0 && a[0] == b[0] {
        lemma_bytes_before_total(a.drop_first(), b.drop_first());
        if a.drop_first() == b.drop_first() {
            assert(a =~= seq![a[0]] + a.drop_first());
            assert(b =~= seq![b[0]] + b.drop_first());
        }
    } else if a.len() == 0 && b.len() == 0 {
        assert(a =~= b);
    }
}

/// Different names are ordered one way or the other.
pub proof fn lemma_name_before_total(a: Seq<char>, b: Seq<char>)
    ensures
        a != b ==> name_before(a, b) || name_before(b, a),
        !(name_before(a, b) && name_before(b, a)),
{
    lemma_bytes_before_asym(vstd::utf8::encode_utf8(a), vstd::utf8::encode_utf8(b));
    if a != b {
        vstd::utf8::encode_utf8_decode_utf8(a);
        vstd::utf8::encode_utf8_decode_utf8(b);
        lemma_bytes_before_total(vstd::utf8::encode_utf8(a), vstd::utf8::encode_utf8(b));
    }
}

/// The text of an optional borrowed string.
pub open spec fn opt_text(c: Option<&String>) -> Option<Seq<char>> {
    match c {
        Some(s) => Some(s@),
        None => None,
    }
}

/// `r` is what selection over the directory `m` returns: `None` when no
/// record is selectable, else the selectable record preferred to every
/// other selectable one.
pub open spec fn is_selection(m: Map<Seq<char>, ServerInfo>, capability: Option<Seq<char>>, r: Option<ServerInfo>) -> bool {
    match r {
        None => forall|k: Seq<char>| #[trigger] m.contains_key(k) ==> !selectable(m[k], capability),
        Some(s) => {
            &&& m.contains_key(s.server_name@)
            &&& m[s.server_name@] == s
            &&& selectable(s, capability)
            &&& forall|k: Seq<char>|
                #[trigger] m.contains_key(k) && k != s.server_name@ && selectable(m[k], capability) ==> preferred(s, m[k])
        },
    }
}

/// The value behind an optional borrow.
pub open spec fn opt_deref(r: Option<&ServerInfo>) -> Option<ServerInfo> {
    match r {
        Some(s) => Some(*s),
        None => None,
    }
}

/// Number of records that are online.
pub open spec fn count_online(s: Seq<ServerInfo>) -> nat
    decreases s.len(),
{
    if s.len() == 0 {
        0
    } else {
        count_online(s.drop_last()) + if s.last().status == ServerStatus::Online { 1nat } else { 0nat }
    }
}

/// Number of records that report themselves available.
pub open spec fn count_available(s: Seq<ServerInfo>) -> nat
    decreases s.len(),
{
    if s.len() == 0 {
        0
    } else {
        count_available(s.drop_last()) + if s.last().capacity.available { 1nat } else { 0nat }
    }
}

/// Sum of the reported maximum user counts.
pub open spec fn total_capacity(s: Seq<ServerInfo>) -> nat
    decreases s.len(),
{
    if s.len() == 0 {
        0
    } else {
        total_capacity(s.drop_last()) + s.last().capacity.max_users as nat
    }
}

/// Sum of the reported current user counts.
pub open spec fn total_users(s: Seq<ServerInfo>) -> nat
    decreases s.len(),
{
    if s.len() == 0 {
        0
    } else {
        total_users(s.drop_last()) + s.last().capacity.current_users as nat
    }
}

/// Users as a share of capacity, in percent rounded half up; 0 without
/// capacity.
pub open spec fn utilization(users: nat, capacity: nat) -> nat {
    if capacity == 0 {
        0
    } else {
        (200 * users + capacity) / (2 * capacity)
    }
}

/// Aggregate counts over the directory.
#[derive(Clone, Copy, Debug, PartialEq, Eq, Structural)]
pub struct ServerStats {
    pub total_servers: usize,
    pub online_servers: usize,
    pub available_servers: usize,
    pub total_capacity: u128,
    pub total_users: u128,
    pub utilization_percent: u128,
}

/// `a` and `b` agree on every field but `last_seen`.
pub open spec fn same_content(a: ServerInfo, b: ServerInfo) -> bool {
    &&& a.server_name == b.server_name
    &&& a.mycelium_address == b.mycelium_address
    &&& a.public_key == b.public_key
    &&& a.capabilities == b.capabilities
    &&& a.capacity == b.capacity
    &&& a.status == b.status
}

/// The record that a write of `rec` stores into `m`: `rec` itself, except
/// that `last_seen` never moves backward from the record it replaces.
pub open spec fn stamped(m: ServerInfoMap, rec: ServerInfo) -> ServerInfo {
    if m.contains_key(rec.server_name@) && m[rec.server_name@].last_seen > rec.last_seen {
        ServerInfo { last_seen: m[rec.server_name@].last_seen, ..rec }
    } else {
        rec
    }
}

/// Whether a write of `rec` succeeds on a directory `m` of `len` records
/// bounded by `max`.
pub open spec fn upsert_succeeds(m: Map<Seq<char>, ServerInfo>, len: nat, max: nat, rec: ServerInfo) -> bool {
    valid_record(rec) && (m.contains_key(rec.server_name@) || len < max)
}

/// The directory and its record count after a write of `rec`: the record
/// replaces or adds the entry of its name when the write succeeds, and
/// nothing changes when it is refused.
pub open spec fn upsert_model(m: Map<Seq<char>, ServerInfo>, len: nat, max: nat, rec: ServerInfo) -> (Map<Seq<char>, ServerInfo>, nat) {
    if upsert_succeeds(m, len, max, rec) {
        (m.insert(rec.server_name@, stamped(m, rec)), if m.contains_key(rec.server_name@) { len } else { len + 1 })
    } else {
        (m, len)
    }
}

/// A directory filled by writing `records` in order, starting from `m`
/// with `len` records, bounded by `max`.
pub open spec fn upsert_all(m: Map<Seq<char>, ServerInfo>, len: nat, max: nat, records: Seq<ServerInfo>) -> (Map<Seq<char>, ServerInfo>, nat)
    decreases records.len(),
{
    if records.len() == 0 {
        (m, len)
    } else {
        let prev = upsert_all(m, len, max, records.drop_last());
        upsert_model(prev.0, prev.1, max, records.last())
    }
}

pub proof fn lemma_preferred_trans(a: ServerInfo, b: ServerInfo, c: ServerInfo)
    requires
        preferred(a, b),
        preferred(b, c),
    ensures
        preferred(a, c),
{
    lemma_bytes_before_trans(
        vstd::utf8::encode_utf8(a.server_name@),
        vstd::utf8::encode_utf8(b.server_name@),
        vstd::utf8::encode_utf8(c.server_name@),
    );
}

/// Of two records with different names, one is preferred to the other, and
/// never both.
pub proof fn lemma_preferred_total(a: ServerInfo, b: ServerInfo)
    requires
        a.server_name@ != b.server_name@,
    ensures
        preferred(a, b) || preferred(b, a),
        !(preferred(a, b) && preferred(b, a)),
{
    lemma_name_before_total(a.server_name@, b.server_name@);
}

fn is_selectable(r: &ServerInfo, capability: Option<&String>) -> (b: bool)
    ensures
        b == selectable(*r, opt_text(capability)),
{
    if r.status != ServerStatus::Online || !r.capacity.available {
        return false;
    }
    match capability {
        Some(c) => contains_capability(&r.capabilities, c),
        None => true,
    }
}

fn is_listed(r: &ServerInfo, available_only: bool, capability: Option<&String>) -> (b: bool)
    ensures
        b == list_match(*r, available_only, opt_text(capability)),
{
    if available_only && !r.capacity.available {
        return false;
    }
    match capability {
        Some(c) => contains_capability(&r.capabilities, c),
        None => true,
    }
}

fn is_preferred(a: &ServerInfo, b: &ServerInfo) -> (r: bool)
    ensures
        r == preferred(*a, *b),
{
    a.capacity.current_users < b.capacity.current_users || (a.capacity.current_users
        == b.capacity.current_users && name_less(a.server_name.as_str(), b.server_name.as_str()))
}

pub proof fn lemma_map_of_index(s: Seq<ServerInfo>, i: int)
    requires
        names_unique(s),
        0 <= i < s.len(),
    ensures
        map_of(s).contains_key(s[i].server_name@),
        map_of(s)[s[i].server_name@] == s[i],
{
    let k = s[i].server_name@;
    assert(has_name(s, k));
    let j = choose|j: int| 0 <= j < s.len() && (#[trigger] s[j]).server_name@ == k;
    assert(s[j].server_name@ == k);
}

pub proof fn lemma_map_of_key(s: Seq<ServerInfo>, k: Seq<char>) -> (i: int)
    requires
        names_unique(s),
        map_of(s).contains_key(k),
    ensures
        0 <= i < s.len(),
        s[i].server_name@ == k,
        map_of(s)[k] == s[i],
{
    let i = choose|i: int| 0 <= i < s.len() && (#[trigger] s[i]).server_name@ == k;
    lemma_map_of_index(s, i);
    i
}


/// Writing `e1[i]` (a rewrite, or an append when `i` is the old length)
/// inserts that record into the map view.
proof fn lemma_rewrite_map(e0: Seq<ServerInfo>, e1: Seq<ServerInfo>, i: int)
    requires
        names_unique(e0),
        names_unique(e1),
        0 <= i <= e0.len(),
        i < e1.len(),
        e1.len() == if i == e0.len() { e0.len() + 1 } else { e0.len() },
        i < e0.len() ==> e0[i].server_name@ == e1[i].server_name@,
        forall|a: int| 0 <= a < e0.len() && a != i ==> e1[a] == e0[a],
    ensures
        map_of(e1) == map_of(e0).insert(e1[i].server_name@, e1[i]),
{
    let k = e1[i].server_name@;
    lemma_map_of_index(e1, i);
    assert(map_of(e1) =~= map_of(e0).insert(k, e1[i])) by {
        assert forall|q: Seq<char>| #[trigger] map_of(e1).contains_key(q) && q != k implies map_of(e0).contains_key(q)
            && map_of(e1)[q] == map_of(e0)[q] by {
            let a = lemma_map_of_key(e1, q);
            assert(a != i);
            assert(e1[a] == e0[a]);
            lemma_map_of_index(e0, a);
        }
        assert forall|q: Seq<char>| #[trigger] map_of(e0).contains_key(q) && q != k implies map_of(e1).contains_key(q) by {
            let a = lemma_map_of_key(e0, q);
            if a == i {
                assert(e0[i].server_name@ == k);
            }
            assert(e1[a] == e0[a]);
            lemma_map_of_index(e1, a);
        }
    }
}

/// The directory of known peers. Names are unique and the number of records
/// never exceeds the maximum given at construction.
pub struct ServerRegistry {
    entries: Vec<ServerInfo>,
    max_servers: usize,
}

impl View for ServerRegistry {
    type V = Map<Seq<char>, ServerInfo>;

    closed spec fn view(&self) -> Map<Seq<char>, ServerInfo> {
        map_of(self.entries@)
    }
}

impl ServerRegistry {
    /// The records, in an order that is fixed between writes.
    pub closed spec fn records(&self) -> Seq<ServerInfo> {
        self.entries@
    }

    /// The configured maximum number of records.
    pub closed spec fn max_size(&self) -> nat {
        self.max_servers as nat
    }

    pub closed spec fn wf(&self) -> bool {
        names_unique(self.entries@) && self.entries@.len() <= self.max_servers
    }

    /// One record per name: no two records share a name, the map view is
    /// the records keyed by name, and their number is within the maximum.
    pub proof fn law_one_record_per_name(&self)
        requires
            self.wf(),
        ensures
            names_unique(self.records()),
            self@ == map_of(self.records()),
            self.records().len() <= self.max_size(),
    {
    }

    /// An empty directory that holds at most `max_servers` records.
    pub fn new(max_servers: usize) -> (r: Self)
        ensures
            r.wf(),
            r@ == Map::<Seq<char>, ServerInfo>::empty(),
            r.records().len() == 0,
            r.max_size() == max_servers,
    {
        let r = ServerRegistry { entries: Vec::new(), max_servers };
        assert(r@ =~= Map::<Seq<char>, ServerInfo>::empty());
        r
    }

    /// Number of records.
    pub fn len(&self) -> (r: usize)
        ensures
            r == self.records().len(),
    {
        self.entries.len()
    }

    /// The configured maximum number of records.
    pub fn max_servers(&self) -> (r: usize)
        ensures
            r == self.max_size(),
    {
        self.max_servers
    }

    /// The records, for iteration and snapshots.
    pub fn records_vec(&self) -> (r: &Vec<ServerInfo>)
        ensures
            r@ == self.records(),
    {
        &self.entries
    }

    /// Stores `record` under its name, replacing any earlier record of that
    /// name wholesale, except that `last_seen` keeps the later of the two
    /// times. Returns whether a record of that name existed.
    /// A record with an empty name or address is refused; so is a new name
    /// once the directory is full, while an existing name may always be
    /// rewritten.
    pub fn upsert(&mut self, record: ServerInfo) -> (r: Result<bool, RegistryError>)
        requires
            old(self).wf(),
        ensures
            final(self).wf(),
            final(self).max_size() == old(self).max_size(),
            (final(self)@, final(self).records().len()) == upsert_model(
                old(self)@,
                old(self).records().len(),
                old(self).max_size(),
                record,
            ),
            r is Ok <==> upsert_succeeds(old(self)@, old(self).records().len(), old(self).max_size(), record),
            match r {
                Ok(existed) => {
                    &&& valid_record(record)
                    &&& existed == old(self)@.contains_key(record.server_name@)
                    &&& final(self)@ == old(self)@.insert(record.server_name@, stamped(old(self)@, record))
                },
                Err(RegistryError::ValidationError) => {
                    &&& !valid_record(record)
                    &&& final(self)@ == old(self)@
                    &&& final(self).records() == old(self).records()
                },
                Err(RegistryError::CapacityExceeded) => {
                    &&& valid_record(record)
                    &&& !old(self)@.contains_key(record.server_name@)
                    &&& old(self).records().len() >= old(self).max_size()
                    &&& final(self)@ == old(self)@
                    &&& final(self).records() == old(self).records()
                },
                Err(RegistryError::NotFound) => false,
            },
    {
        if record.server_name.as_str().is_empty() || record.mycelium_address.as_str().is_empty() {
            return Err(RegistryError::ValidationError);
        }
        let ghost e0 = self.entries@;
        let ghost k = record.server_name@;
        match self.find(&record.server_name) {
            Some(i) => {
                proof {
                    lemma_map_of_index(e0, i as int);
                }
                let ghost given = record;
                let mut record = record;
                if self.entries[i].last_seen > record.last_seen {
                    record.last_seen = self.entries[i].last_seen;
                }
                assert(record == stamped(map_of(e0), given));
                self.entries.set(i, record);
                proof {
                    let e1 = self.entries@;
                    assert(e1 == e0.update(i as int, record));
                    assert(names_unique(e1)) by {
                        assert forall|a: int, b: int|
                            0 <= a < e1.len() && 0 <= b < e1.len() && a != b implies (#[trigger] e1[a]).server_name@
                                != (#[trigger] e1[b]).server_name@ by {
                            if a != i && b != i {
                                assert(e0[a] == e1[a] && e0[b] == e1[b]);
                            } else if a == i {
                                assert(e0[b] == e1[b]);
                                assert(e0[i as int].server_name@ != e0[b].server_name@);
                            } else {
                                assert(e0[a] == e1[a]);
                                assert(e0[i as int].server_name@ != e0[a].server_name@);
                            }
                        }
                    }
                    lemma_rewrite_map(e0, e1, i as int);
                }
                Ok(true)
            },
            None => {
                if self.entries.len() >= self.max_servers {
                    proof {
                        if map_of(e0).contains_key(k) {
                            lemma_map_of_key(e0, k);
                        }
                    }
                    return Err(RegistryError::CapacityExceeded);
                }
                proof {
                    if map_of(e0).contains_key(k) {
                        lemma_map_of_key(e0, k);
                    }
                }
                self.entries.push(record);
                proof {
                    let e1 = self.entries@;
                    assert(e1 == e0.push(record));
                    assert(names_unique(e1)) by {
                        assert forall|a: int, b: int|
                            0 <= a < e1.len() && 0 <= b < e1.len() && a != b implies (#[trigger] e1[a]).server_name@
                                != (#[trigger] e1[b]).server_name@ by {
                            if a < e0.len() && b < e0.len() {
                                assert(e0[a] == e1[a] && e0[b] == e1[b]);
                            } else if a < e0.len() {
                                assert(e0[a] == e1[a]);
                            } else {
                                assert(e0[b] == e1[b]);
                            }
                        }
                    }
                    lemma_rewrite_map(e0, e1, e0.len() as int);
                }
                Ok(false)
            },
        }
    }

    /// Removes the record named `name`; returns whether there was one.
    pub fn remove(&mut self, name: &str) -> (r: bool)
        requires
            old(self).wf(),
        ensures
            final(self).wf(),
            final(self).max_size() == old(self).max_size(),
            r == old(self)@.contains_key(name@),
            final(self)@ == old(self)@.remove(name@),
    {
        let key = name.to_owned();
        let ghost e0 = self.entries@;
        match self.find(&key) {
            Some(i) => {
                proof {
                    lemma_map_of_index(e0, i as int);
                }
                self.entries.remove(i);
                proof {
                    let e1 = self.entries@;
                    assert(e1 == e0.remove(i as int));
                    assert(forall|a: int| 0 <= a < e1.len() ==> #[trigger] e1[a] == e0[if a < i { a } else { a + 1 }]);
                    assert(names_unique(e1)) by {
                        assert forall|a: int, b: int|
                            0 <= a < e1.len() && 0 <= b < e1.len() && a != b implies (#[trigger] e1[a]).server_name@
                                != (#[trigger] e1[b]).server_name@ by {
                            let a0 = if a < i { a } else { a + 1 };
                            let b0 = if b < i { b } else { b + 1 };
                            assert(e0[a0].server_name@ != e0[b0].server_name@);
                        }
                    }
                    assert(map_of(e1) =~= map_of(e0).remove(name@)) by {
                        assert forall|k: Seq<char>| #[trigger] map_of(e1).contains_key(k) implies map_of(e0).contains_key(k) && k != name@
                            && map_of(e1)[k] == map_of(e0)[k] by {
                            let a = lemma_map_of_key(e1, k);
                            let a0 = if a < i { a } else { a + 1 };
                            assert(e0[a0] == e1[a]);
                            lemma_map_of_index(e0, a0);
                            assert(a0 != i);
                        }
                        assert forall|k: Seq<char>| #[trigger] map_of(e0).contains_key(k) && k != name@ implies map_of(e1).contains_key(k) by {
                            let a0 = lemma_map_of_key(e0, k);
                            assert(a0 != i);
                            let a = if a0 < i { a0 } else { a0 - 1 };
                            assert(e1[a] == e0[a0]);
                            lemma_map_of_index(e1, a);
                        }
                    }
                }
                true
            },
            None => {
                proof {
                    if map_of(e0).contains_key(name@) {
                        lemma_map_of_key(e0, name@);
                    }
                    assert(map_of(e0) =~= map_of(e0).remove(name@));
                }
                false
            },
        }
    }

    /// The record named `name`, if any.
    pub fn get(&self, name: &str) -> (r: Option<&ServerInfo>)
        requires
            self.wf(),
        ensures
            match r {
                Some(s) => self@.contains_key(name@) && self@[name@] == *s,
                None => !self@.contains_key(name@),
            },
    {
        let key = name.to_owned();
        match self.find(&key) {
            Some(i) => {
                proof {
                    lemma_map_of_index(self.entries@, i as int);
                }
                Some(&self.entries[i])
            },
            None => {
                proof {
                    if self@.contains_key(name@) {
                        lemma_map_of_key(self.entries@, name@);
                    }
                }
                None
            },
        }
    }

    /// Every record that passes the filter, each once, in no promised order.
    /// `available_only` keeps records that report themselves available;
    /// `capability` keeps records that carry that tag.
    pub fn list(&self, available_only: bool, capability: Option<&String>) -> (r: Vec<&ServerInfo>)
        requires
            self.wf(),
        ensures
            forall|i: int|
                0 <= i < r@.len() ==> {
                    &&& self@.contains_key((#[trigger] r@[i]).server_name@)
                    &&& self@[r@[i].server_name@] == *r@[i]
                    &&& list_match(*r@[i], available_only, opt_text(capability))
                },
            forall|k: Seq<char>|
                #[trigger] self@.contains_key(k) && list_match(self@[k], available_only, opt_text(capability))
                    ==> exists|i: int| 0 <= i < r@.len() && (#[trigger] r@[i]).server_name@ == k,
            forall|i: int, j: int|
                0 <= i < r@.len() && 0 <= j < r@.len() && i != j ==> (#[trigger] r@[i]).server_name@
                    != (#[trigger] r@[j]).server_name@,
    {
        let ghost e = self.entries@;
        let ghost cap = opt_text(capability);
        let mut out: Vec<&ServerInfo> = Vec::new();
        let ghost mut src: Seq<int> = Seq::empty();
        let mut i: usize = 0;
        while i < self.entries.len()
            invariant
                e == self.entries@,
                cap == opt_text(capability),
                names_unique(e),
                0 <= i <= e.len(),
                src.len() == out@.len(),
                forall|a: int|
                    0 <= a < out@.len() ==> 0 <= #[trigger] src[a] < i && *out@[a] == e[src[a]] && list_match(
                        e[src[a]],
                        available_only,
                        cap,
                    ),
                forall|j: int|
                    0 <= j < i && list_match(#[trigger] e[j], available_only, cap) ==> exists|a: int|
                        0 <= a < out@.len() && (#[trigger] out@[a]).server_name@ == e[j].server_name@,
                forall|a: int, b: int|
                    0 <= a < out@.len() && 0 <= b < out@.len() && a != b ==> (#[trigger] out@[a]).server_name@
                        != (#[trigger] out@[b]).server_name@,
            decreases e.len() - i,
        {
            let rec = &self.entries[i];
            if is_listed(rec, available_only, capability) {
                let ghost o0 = out@;
                let ghost s0 = src;
                out.push(rec);
                proof {
                    src = src.push(i as int);
                    assert(out@[o0.len() as int] == e[i as int]);
                    assert forall|a: int| 0 <= a < o0.len() implies out@[a].server_name@ != e[i as int].server_name@ by {
                        assert(out@[a] == o0[a]);
                        assert(src[a] == s0[a]);
                        assert(e[s0[a]].server_name@ != e[i as int].server_name@);
                    }
                    assert forall|a: int| 0 <= a < out@.len() implies 0 <= #[trigger] src[a] < i + 1 && *out@[a] == e[src[a]]
                        && list_match(e[src[a]], available_only, cap) by {
                        if a < o0.len() {
                            assert(out@[a] == o0[a]);
                            assert(src[a] == s0[a]);
                        }
                    }
                    assert forall|j: int| 0 <= j < i + 1 && list_match(#[trigger] e[j], available_only, cap) implies exists|a: int|
                        0 <= a < out@.len() && (#[trigger] out@[a]).server_name@ == e[j].server_name@ by {
                        if j < i {
                            let a = choose|a: int| 0 <= a < o0.len() && (#[trigger] o0[a]).server_name@ == e[j].server_name@;
                            assert(out@[a] == o0[a]);
                        } else {
                            assert(out@[o0.len() as int].server_name@ == e[j].server_name@);
                        }
                    }
                }
            }
            i = i + 1;
        }
        proof {
            assert forall|a: int| 0 <= a < out@.len() implies {
                &&& self@.contains_key((#[trigger] out@[a]).server_name@)
                &&& self@[out@[a].server_name@] == *out@[a]
                &&& list_match(*out@[a], available_only, cap)
            } by {
                lemma_map_of_index(e, src[a]);
            }
            assert forall|k: Seq<char>| #[trigger] self@.contains_key(k) && list_match(self@[k], available_only, cap)
                implies exists|a: int| 0 <= a < out@.len() && (#[trigger] out@[a]).server_name@ == k by {
                let j = lemma_map_of_key(e, k);
                assert(list_match(e[j], available_only, cap));
            }
        }
        out
    }

    /// Picks the peer to route to: among records that are online, available
    /// and carry `capability` (if given), the one with the fewest current
    /// users, ties going to the smallest name. `None` when there is no such
    /// record.
    pub fn select_server(&self, capability: Option<&String>) -> (r: Option<&ServerInfo>)
        requires
            self.wf(),
        ensures
            is_selection(self@, opt_text(capability), opt_deref(r)),
    {
        let ghost e = self.entries@;
        let ghost cap = opt_text(capability);
        let mut best: Option<usize> = None;
        let mut i: usize = 0;
        while i < self.entries.len()
            invariant
                e == self.entries@,
                cap == opt_text(capability),
                names_unique(e),
                0 <= i <= e.len(),
                match best {
                    None => forall|j: int| 0 <= j < i ==> !selectable(#[trigger] e[j], cap),
                    Some(b) => {
                        &&& b < i
                        &&& selectable(e[b as int], cap)
                        &&& forall|j: int| 0 <= j < i && j != b && selectable(#[trigger] e[j], cap) ==> preferred(e[b as int], e[j])
                    },
                },
            decreases e.len() - i,
        {
            let rec = &self.entries[i];
            if is_selectable(rec, capability) {
                match best {
                    None => {
                        best = Some(i);
                    },
                    Some(b) => {
                        proof {
                            assert(e[i as int].server_name@ != e[b as int].server_name@);
                            lemma_preferred_total(e[i as int], e[b as int]);
                        }
                        if is_preferred(rec, &self.entries[b]) {
                            proof {
                                assert forall|j: int| 0 <= j < i + 1 && j != i && selectable(#[trigger] e[j], cap) implies preferred(e[i as int], e[j]) by {
                                    if j != b {
                                        lemma_preferred_trans(e[i as int], e[b as int], e[j]);
                                    }
                                }
                            }
                            best = Some(i);
                        }
                    },
                }
            }
            i = i + 1;
        }
        match best {
            None => {
                proof {
                    assert forall|k: Seq<char>| #[trigger] self@.contains_key(k) implies !selectable(self@[k], cap) by {
                        lemma_map_of_key(e, k);
                    }
                }
                None
            },
            Some(b) => {
                proof {
                    lemma_map_of_index(e, b as int);
                    assert forall|k: Seq<char>|
                        #[trigger] self@.contains_key(k) && k != e[b as int].server_name@ && selectable(self@[k], cap)
                        implies preferred(e[b as int], self@[k]) by {
                        let j = lemma_map_of_key(e, k);
                    }
                }
                Some(&self.entries[b])
            },
        }
    }

    /// Evicts every record whose `last_seen` is before `now` minus
    /// `threshold_minutes`, keeps the others untouched, and returns how many
    /// were evicted.
    pub fn cleanup_stale_servers(&mut self, now: i64, threshold_minutes: i64) -> (r: usize)
        requires
            old(self).wf(),
        ensures
            final(self).wf(),
            final(self).max_size() == old(self).max_size(),
            final(self).records() == old(self).records().filter(
                |x: ServerInfo| !is_stale(x, stale_cutoff(now, threshold_minutes)),
            ),
            r == old(self).records().len() - final(self).records().len(),
            r == old(self).records().filter(|x: ServerInfo| is_stale(x, stale_cutoff(now, threshold_minutes))).len(),
            forall|k: Seq<char>|
                #[trigger] final(self)@.contains_key(k) <==> old(self)@.contains_key(k) && !is_stale(
                    old(self)@[k],
                    stale_cutoff(now, threshold_minutes),
                ),
            forall|k: Seq<char>| #[trigger] final(self)@.contains_key(k) ==> final(self)@[k] == old(self)@[k],
    {
        let ghost e0 = self.entries@;
        let ghost cutoff = stale_cutoff(now, threshold_minutes);
        let ghost keep = |x: ServerInfo| !is_stale(x, cutoff);
        let ghost gone = |x: ServerInfo| is_stale(x, cutoff);
        let cut: i128 = now as i128 - threshold_minutes as i128 * 60;
        let n = self.entries.len();
        let max = self.max_servers;
        let mut kept: Vec<ServerInfo> = Vec::new();
        let mut removed: usize = 0;
        let mut i: usize = 0;
        while i < n
            invariant
                n == e0.len(),
                max == old(self).max_servers,
                self.max_servers == max,
                names_unique(e0),
                e0.len() <= self.max_servers,
                cut == cutoff,
                cutoff == stale_cutoff(now, threshold_minutes),
                keep == (|x: ServerInfo| !is_stale(x, cutoff)),
                gone == (|x: ServerInfo| is_stale(x, cutoff)),
                removed == e0.take(i as int).filter(gone).len(),
                0 <= i <= n,
                self.entries@ == e0.subrange(i as int, n as int),
                kept@ == e0.take(i as int).filter(keep),
                removed + kept@.len() == i,
                forall|a: int| 0 <= a < kept@.len() ==> exists|j: int| 0 <= j < i && #[trigger] kept@[a] == e0[j],
                forall|j: int| 0 <= j < i && keep(#[trigger] e0[j]) ==> exists|a: int| 0 <= a < kept@.len() && kept@[a] == e0[j],
                names_unique(kept@),
            decreases n - i,
        {
            let rec = self.entries.remove(0);
            proof {
                assert(rec == e0[i as int]);
                assert(self.entries@ =~= e0.subrange(i + 1, n as int));
                assert(e0.take(i + 1) =~= e0.take(i as int).push(rec));
                e0.take(i as int).lemma_filter_push(rec, keep);
                e0.take(i as int).lemma_filter_push(rec, gone);
            }
            if (rec.last_seen as i128) < cut {
                proof {
                    assert(!keep(rec));
                }
                removed = removed + 1;
            } else {
                let ghost k0 = kept@;
                assert(keep(rec));
                kept.push(rec);
                proof {
                    assert forall|a: int| 0 <= a < k0.len() implies kept@[a].server_name@ != rec.server_name@ by {
                        assert(kept@[a] == k0[a]);
                        let j = choose|j: int| 0 <= j < i && #[trigger] k0[a] == e0[j];
                    }
                    assert forall|a: int| 0 <= a < kept@.len() implies exists|j: int| 0 <= j < i + 1 && #[trigger] kept@[a] == e0[j] by {
                        if a < k0.len() {
                            assert(kept@[a] == k0[a]);
                        } else {
                            assert(kept@[a] == e0[i as int]);
                        }
                    }
                    assert forall|j: int| 0 <= j < i + 1 && keep(#[trigger] e0[j]) implies exists|a: int| 0 <= a < kept@.len() && kept@[a] == e0[j] by {
                        if j < i {
                            let a = choose|a: int| 0 <= a < k0.len() && k0[a] == e0[j];
                            assert(kept@[a] == k0[a]);
                        } else {
                            assert(kept@[k0.len() as int] == e0[j]);
                        }
                    }
                }
            }
            i = i + 1;
        }
        proof {
            assert(e0.take(n as int) =~= e0);
            e0.lemma_filter_len(keep);
        }
        self.entries = kept;
        proof {
            let e1 = self.entries@;
            assert forall|k: Seq<char>| #[trigger] map_of(e1).contains_key(k) implies map_of(e0).contains_key(k)
                && keep(map_of(e0)[k]) && map_of(e1)[k] == map_of(e0)[k] by {
                let a = lemma_map_of_key(e1, k);
                let j = choose|j: int| 0 <= j < n && #[trigger] e1[a] == e0[j];
                lemma_map_of_index(e0, j);
                e0.lemma_filter_pred(keep, a);
            }
            assert forall|k: Seq<char>| #[trigger] map_of(e0).contains_key(k) && keep(map_of(e0)[k]) implies map_of(e1).contains_key(k) by {
                let j = lemma_map_of_key(e0, k);
                let a = choose|a: int| 0 <= a < e1.len() && e1[a] == e0[j];
                lemma_map_of_index(e1, a);
            }
        }
        removed
    }

    /// Counts and sums over all records.
    pub fn stats(&self) -> (r: ServerStats)
        ensures
            r.total_servers == self.records().len(),
            r.online_servers == count_online(self.records()),
            r.available_servers == count_available(self.records()),
            r.total_capacity == total_capacity(self.records()),
            r.total_users == total_users(self.records()),
            r.utilization_percent == utilization(total_users(self.records()), total_capacity(self.records())),
    {
        let ghost e = self.entries@;
        let mut online: usize = 0;
        let mut available: usize = 0;
        let mut capacity: u128 = 0;
        let mut users: u128 = 0;
        let mut i: usize = 0;
        while i < self.entries.len()
            invariant
                e == self.entries@,
                0 <= i <= e.len(),
                online == count_online(e.take(i as int)),
                available == count_available(e.take(i as int)),
                capacity == total_capacity(e.take(i as int)),
                users == total_users(e.take(i as int)),
                online <= i,
                available <= i,
                capacity <= i * 0xffff_ffff,
                users <= i * 0xffff_ffff,
            decreases e.len() - i,
        {
            let rec = &self.entries[i];
            proof {
                assert(e.take(i + 1).drop_last() =~= e.take(i as int));
                assert(e.take(i + 1).last() == e[i as int]);
            }
            if rec.status == ServerStatus::Online {
                online = online + 1;
            }
            if rec.capacity.available {
                available = available + 1;
            }
            capacity = capacity + rec.capacity.max_users as u128;
            users = users + rec.capacity.current_users as u128;
            i = i + 1;
            proof {
                assert(capacity <= i * 0xffff_ffff) by (nonlinear_arith)
                    requires
                        capacity <= (i - 1) * 0xffff_ffff + 0xffff_ffff,
                ;
                assert(users <= i * 0xffff_ffff) by (nonlinear_arith)
                    requires
                        users <= (i - 1) * 0xffff_ffff + 0xffff_ffff,
                ;
            }
        }
        proof {
            assert(e.take(i as int) =~= e);
        }
        let percent: u128 = if capacity == 0 {
            0
        } else {
            (200 * users + capacity) / (2 * capacity)
        };
        ServerStats {
            total_servers: self.entries.len(),
            online_servers: online,
            available_servers: available,
            total_capacity: capacity,
            total_users: users,
            utilization_percent: percent,
        }
    }

    fn find(&self, name: &String) -> (r: Option<usize>)
        requires
            self.wf(),
        ensures
            match r {
                Some(i) => i < self.entries@.len() && self.entries@[i as int].server_name@ == name@,
                None => !has_name(self.entries@, name@),
            },
    {
        let mut i: usize = 0;
        while i < self.entries.len()
            invariant
                0 <= i <= self.entries@.len(),
                forall|j: int| 0 <= j < i ==> (#[trigger] self.entries@[j]).server_name@ != name@,
            decreases self.entries@.len() - i,
        {
            if self.entries[i].server_name == *name {
                return Some(i);
            }
            i = i + 1;
        }
        None
    }
}

} // verus!
