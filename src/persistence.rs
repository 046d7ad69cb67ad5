//! Durable snapshots of the directory: what a snapshot holds, and what a
//! load hands back (fresh records only; nothing when the file is missing
//! or unreadable). Reading and writing files is the caller's part.

use vstd::prelude::*;
use crate::registry::{upsert_all, ServerInfoMap, ServerRegistry};
use crate::types::ServerInfo;

verus! {

/// Format version written into every snapshot.
pub const SNAPSHOT_FORMAT_VERSION: &'static str = "1";

/// Default load-time retention window, in hours.
pub const DEFAULT_RETENTION_HOURS: i64 = 24;

/// The persisted state: the records, the format version and the save time
/// (seconds since the epoch).
#[derive(Clone, Debug)]
pub struct Snapshot {
    pub records: Vec<ServerInfo>,
    pub format_version: String,
    pub saved_at: i64,
}

/// The records that a load hands to the directory, and how many were
/// dropped as older than the retention window.
#[derive(Clone, Debug)]
pub struct LoadedServers {
    pub records: Vec<ServerInfo>,
    pub dropped: usize,
}

/// Where and how often the directory is checkpointed. Without a path,
/// persistence is off.
pub struct PersistenceManager {
    file_path: Option<String>,
    save_interval_seconds: u64,
}

/// A record is kept at load when it was seen after `now` minus the window.
pub open spec fn retained(r: ServerInfo, now: i64, retention_hours: i64) -> bool {
    (r.last_seen as int) > now as int - retention_hours as int * 3600
}

/// What a load yields from a snapshot's records (`None`: no file, or a file
/// that did not parse).
pub open spec fn loaded_records(parsed: Option<Seq<ServerInfo>>, now: i64, retention_hours: i64) -> Seq<ServerInfo> {
    match parsed {
        Some(records) => records.filter(|r: ServerInfo| retained(r, now, retention_hours)),
        None => Seq::empty(),
    }
}

impl PersistenceManager {
    pub fn new(file_path: Option<String>, save_interval_seconds: u64) -> (r: Self)
        ensures
            r.file_path() == file_path,
            r.save_interval() == save_interval_seconds,
    {
        PersistenceManager { file_path, save_interval_seconds }
    }

    pub closed spec fn file_path(&self) -> Option<String> {
        self.file_path
    }

    pub closed spec fn save_interval(&self) -> u64 {
        self.save_interval_seconds
    }

    /// The snapshot file, if persistence is on.
    pub fn path(&self) -> (r: &Option<String>)
        ensures
            *r == self.file_path(),
    {
        &self.file_path
    }

    /// Seconds between two checkpoints.
    pub fn save_interval_seconds(&self) -> (r: u64)
        ensures
            r == self.save_interval(),
    {
        self.save_interval_seconds
    }

    /// The snapshot that a save at `saved_at` writes.
    pub fn make_snapshot(records: Vec<ServerInfo>, saved_at: i64) -> (r: Snapshot)
        ensures
            r.records@ == records@,
            r.format_version@ == SNAPSHOT_FORMAT_VERSION@,
            r.saved_at == saved_at,
    {
        Snapshot { records, format_version: SNAPSHOT_FORMAT_VERSION.to_owned(), saved_at }
    }

    /// Keeps the records seen within the retention window, in order, and
    /// counts the others.
    pub fn retain_fresh(records: Vec<ServerInfo>, now: i64, retention_hours: i64) -> (r: LoadedServers)
        ensures
            r.records@ == records@.filter(|x: ServerInfo| retained(x, now, retention_hours)),
            r.dropped == records@.len() - r.records@.len(),
    {
        let ghost src = records@;
        let ghost keep = |x: ServerInfo| retained(x, now, retention_hours);
        let cutoff: i128 = now as i128 - retention_hours as i128 * 3600;
        let mut batch = records;
        let n = batch.len();
        let mut kept: Vec<ServerInfo> = Vec::new();
        let mut dropped: usize = 0;
        let mut i: usize = 0;
        while i < n
            invariant
                n == src.len(),
                keep == (|x: ServerInfo| retained(x, now, retention_hours)),
                cutoff == now as int - retention_hours as int * 3600,
                0 <= i <= n,
                batch@ == src.subrange(i as int, n as int),
                kept@ == src.take(i as int).filter(keep),
                dropped + kept@.len() == i,
            decreases n - i,
        {
            let rec = batch.remove(0);
            proof {
                assert(rec == src[i as int]);
                assert(batch@ =~= src.subrange(i + 1, n as int));
                assert(src.take(i + 1) =~= src.take(i as int).push(rec));
                src.take(i as int).lemma_filter_push(rec, keep);
            }
            if (rec.last_seen as i128) > cutoff {
                proof {
                    assert(keep(rec));
                }
                kept.push(rec);
            } else {
                proof {
                    assert(!keep(rec));
                }
                dropped = dropped + 1;
            }
            i = i + 1;
        }
        proof {
            assert(src.take(n as int) =~= src);
        }
        LoadedServers { records: kept, dropped }
    }

    /// What a load hands back: from a parsed snapshot, its fresh records;
    /// from a missing or unreadable file (`None`), nothing.
    pub fn load_outcome(parsed: Option<Snapshot>, now: i64, retention_hours: i64) -> (r: LoadedServers)
        ensures
            r.records@ == loaded_records(
                match parsed {
                    Some(s) => Some(s.records@),
                    None => None,
                },
                now,
                retention_hours,
            ),
            r.dropped == match parsed {
                Some(s) => s.records@.len() - r.records@.len(),
                None => 0,
            },
    {
        match parsed {
            Some(s) => Self::retain_fresh(s.records, now, retention_hours),
            None => LoadedServers { records: Vec::new(), dropped: 0 },
        }
    }

    /// A directory of at most `max_servers` records filled from loaded
    /// records, as a sequence of writes in order; records that a write
    /// refuses are left out.
    pub fn restore(records: Vec<ServerInfo>, max_servers: usize) -> (r: ServerRegistry)
        ensures
            r.wf(),
            r.max_size() == max_servers,
            (r@, r.records().len()) == upsert_all(ServerInfoMap::empty(), 0, max_servers as nat, records@),
    {
        let ghost src = records@;
        let mut batch = records;
        let n = batch.len();
        let mut reg = ServerRegistry::new(max_servers);
        let mut i: usize = 0;
        while i < n
            invariant
                n == src.len(),
                0 <= i <= n,
                batch@ == src.subrange(i as int, n as int),
                reg.wf(),
                reg.max_size() == max_servers,
                (reg@, reg.records().len()) == upsert_all(ServerInfoMap::empty(), 0, max_servers as nat, src.take(i as int)),
            decreases n - i,
        {
            let rec = batch.remove(0);
            proof {
                assert(rec == src[i as int]);
                assert(batch@ =~= src.subrange(i + 1, n as int));
                assert(src.take(i + 1).drop_last() =~= src.take(i as int));
                assert(src.take(i + 1).last() == rec);
            }
            let _ = reg.upsert(rec);
            i = i + 1;
        }
        proof {
            assert(src.take(n as int) =~= src);
        }
        reg
    }
}

} // verus!
