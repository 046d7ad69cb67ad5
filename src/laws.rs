//! Properties that relate several operations, proved over the models that
//! the operations' contracts use.

use vstd::prelude::*;
use crate::persistence::{loaded_records, retained};
use crate::registry::{
    is_selection, lemma_preferred_total, same_content, stamped, upsert_model, upsert_succeeds, valid_record,
    ServerInfoMap,
};
use crate::relay::envelope_accepted;
use crate::types::{MyceliumMessage, ServerInfo};

verus! {

/// Last write wins: take directory states `states[0..=n]` where each step
/// `states[i] -> states[i + 1]` is a successful write of `writes[i]`, as
/// `ServerRegistry::upsert`, `DiscoveryService::add_server` and
/// `DiscoveryService::process_server_announcement` state it, all of one name. Then the last state
/// holds exactly one record under that name, with the content of the last
/// write and a `last_seen` no earlier than that write's nor than the record
/// the sequence started from; when the write times do not go down, the
/// record is exactly the last write. Every other name keeps its record.
pub proof fn law_last_write_wins(states: Seq<ServerInfoMap>, writes: Seq<ServerInfo>, name: Seq<char>)
    requires
        writes.len() > 0,
        states.len() == writes.len() + 1,
        forall|i: int|
            0 <= i < writes.len() ==> (#[trigger] writes[i]).server_name@ == name && states[i + 1]
                == states[i].insert(name, stamped(states[i], writes[i])),
    ensures
        states.last().contains_key(name),
        same_content(states.last()[name], writes.last()),
        states.last()[name].last_seen >= writes.last().last_seen,
        states[0].contains_key(name) ==> states.last()[name].last_seen >= states[0][name].last_seen,
        (forall|i: int| 0 <= i < writes.len() - 1 ==> #[trigger] writes[i].last_seen <= writes[i + 1].last_seen) && (
        states[0].contains_key(name) ==> states[0][name].last_seen <= writes[0].last_seen) ==> states.last()[name]
            == writes.last(),
        states.last().dom() == states[0].dom().insert(name),
        forall|k: Seq<char>| k != name && #[trigger] states[0].contains_key(k) ==> states.last()[k] == states[0][k],
    decreases writes.len(),
{
    let n = writes.len() as int;
    let w = writes[n - 1];
    let prev = states[n - 1];
    assert(states.last() == states[n]);
    assert(states[n] == prev.insert(name, stamped(prev, w)));
    if n == 1 {
        assert(states.last().dom() =~= states[0].dom().insert(name));
    } else {
        let ws = writes.drop_last();
        let ss = states.drop_last();
        assert forall|i: int| 0 <= i < ws.len() implies (#[trigger] ws[i]).server_name@ == name && ss[i + 1]
            == ss[i].insert(name, stamped(ss[i], ws[i])) by {
            assert(ws[i] == writes[i]);
            assert(ss[i] == states[i] && ss[i + 1] == states[i + 1]);
        }
        law_last_write_wins(ss, ws, name);
        if (forall|i: int| 0 <= i < writes.len() - 1 ==> #[trigger] writes[i].last_seen <= writes[i + 1].last_seen) {
            assert forall|i: int| 0 <= i < ws.len() - 1 implies #[trigger] ws[i].last_seen <= ws[i + 1].last_seen by {
                assert(writes[i].last_seen <= writes[i + 1].last_seen);
            }
            assert(ws.last() == writes[n - 2]);
            assert(writes[n - 2].last_seen <= writes[n - 1].last_seen);
        }
        assert(ss.last() == prev);
        assert(ss[0] == states[0]);
        assert(states.last().dom() =~= states[0].dom().insert(name));
    }
}

/// A full directory refuses a valid write exactly when it names a new peer,
/// and a refused write changes nothing; rewriting a known name succeeds.
pub proof fn law_full_directory_refuses_only_new_names(m: ServerInfoMap, len: nat, max: nat, record: ServerInfo)
    requires
        valid_record(record),
        len == max,
    ensures
        upsert_succeeds(m, len, max, record) <==> m.contains_key(record.server_name@),
        !m.contains_key(record.server_name@) ==> upsert_model(m, len, max, record) == (m, len),
        m.contains_key(record.server_name@) ==> upsert_model(m, len, max, record) == (
            m.insert(record.server_name@, stamped(m, record)),
            len,
        ),
{
}

/// Selection over a directory where no record reports itself available
/// (an empty directory included) finds nothing.
pub proof fn law_select_none_when_none_available(
    m: Map<Seq<char>, ServerInfo>,
    capability: Option<Seq<char>>,
    r: Option<ServerInfo>,
)
    requires
        is_selection(m, capability, r),
        forall|k: Seq<char>| #[trigger] m.contains_key(k) ==> !m[k].capacity.available,
    ensures
        r is None,
{
    if r is Some {
        let s = r->0;
        assert(m.contains_key(s.server_name@));
    }
}

/// Selection is deterministic: on one directory and filter there is only
/// one possible answer.
pub proof fn law_selection_deterministic(
    m: Map<Seq<char>, ServerInfo>,
    capability: Option<Seq<char>>,
    r1: Option<ServerInfo>,
    r2: Option<ServerInfo>,
)
    requires
        is_selection(m, capability, r1),
        is_selection(m, capability, r2),
    ensures
        r1 == r2,
{
    match (r1, r2) {
        (Some(a), Some(b)) => {
            if a.server_name@ != b.server_name@ {
                assert(m.contains_key(b.server_name@));
                assert(m.contains_key(a.server_name@));
                lemma_preferred_total(a, b);
            }
        },
        (Some(a), None) => {
            assert(m.contains_key(a.server_name@));
        },
        (None, Some(b)) => {
            assert(m.contains_key(b.server_name@));
        },
        (None, None) => {},
    }
}

/// Save then load: the records loaded from a snapshot of `records` are
/// exactly those seen within the retention window, in their saved order.
pub proof fn law_save_load_round_trip(records: Seq<ServerInfo>, now: i64, retention_hours: i64)
    ensures
        forall|x: ServerInfo|
            #[trigger] loaded_records(Some(records), now, retention_hours).contains(x) <==> records.contains(x)
                && retained(x, now, retention_hours),
        loaded_records(Some(records), now, retention_hours) == records.filter(
            |x: ServerInfo| retained(x, now, retention_hours),
        ),
{
    let keep = |x: ServerInfo| retained(x, now, retention_hours);
    assert forall|x: ServerInfo|
        #[trigger] loaded_records(Some(records), now, retention_hours).contains(x) <==> records.contains(x) && retained(x, now, retention_hours) by {
        let f = records.filter(keep);
        if f.contains(x) {
            records.lemma_filter_contains_rev(keep, x);
            let j = choose|j: int| 0 <= j < f.len() && f[j] == x;
            records.lemma_filter_pred(keep, j);
        }
        if records.contains(x) && keep(x) {
            let i = choose|i: int| 0 <= i < records.len() && records[i] == x;
            records.lemma_filter_contains(keep, i);
        }
    }
}

/// A snapshot that is missing or does not parse loads as an empty directory.
pub proof fn law_unreadable_snapshot_loads_empty(now: i64, retention_hours: i64)
    ensures
        loaded_records(None, now, retention_hours).len() == 0,
{
}

/// Only accepted envelopes are forwarded: every payload forwarded from a
/// batch is the payload of an envelope of that batch that verifies under
/// its sender's key on record; with no such envelope nothing is forwarded.
pub proof fn law_only_accepted_envelopes_forwarded(dir: Map<Seq<char>, ServerInfo>, messages: Seq<MyceliumMessage>)
    ensures
        ({
            let fwd = messages.filter(|m: MyceliumMessage| envelope_accepted(dir, m)).map_values(
                |m: MyceliumMessage| m.payload,
            );
            &&& forall|j: int|
                0 <= j < fwd.len() ==> exists|i: int|
                    0 <= i < messages.len() && envelope_accepted(dir, #[trigger] messages[i]) && #[trigger] fwd[j]
                        == messages[i].payload
            &&& (forall|i: int| 0 <= i < messages.len() ==> !envelope_accepted(dir, #[trigger] messages[i]))
                ==> fwd.len() == 0
        }),
{
    let ok = |m: MyceliumMessage| envelope_accepted(dir, m);
    let f = messages.filter(ok);
    let fwd = f.map_values(|m: MyceliumMessage| m.payload);
    assert forall|j: int| 0 <= j < fwd.len() implies exists|i: int|
        0 <= i < messages.len() && envelope_accepted(dir, #[trigger] messages[i]) && #[trigger] fwd[j] == messages[i].payload by {
        assert(f.contains(f[j]));
        messages.lemma_filter_contains_rev(ok, f[j]);
        messages.lemma_filter_pred(ok, j);
        let i = choose|i: int| 0 <= i < messages.len() && messages[i] == f[j];
        assert(fwd[j] == f[j].payload);
    }
    if forall|i: int| 0 <= i < messages.len() ==> !envelope_accepted(dir, #[trigger] messages[i]) {
        if f.len() > 0 {
            assert(f.contains(f[0]));
            messages.lemma_filter_contains_rev(ok, f[0]);
            messages.lemma_filter_pred(ok, 0);
            let i = choose|i: int| 0 <= i < messages.len() && messages[i] == f[0];
        }
    }
}

} // verus!
