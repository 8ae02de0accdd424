//! Interpreting the probes of a database health check: which journal mode
//! counts as write-ahead logging, which pragma value means foreign keys
//! are on, and when the vector table is considered present.

use vstd::prelude::*;

verus! {

/// The health of the embedded database, as the interactive application
/// reports it.
#[derive(Clone, Copy, Debug, PartialEq, Eq, Structural)]
pub struct DatabaseHealth {
    pub connected: bool,
    pub sqlite_vec_loaded: bool,
    pub wal_mode: bool,
    pub foreign_keys_enabled: bool,
}

impl Default for DatabaseHealth {
    /// Everything off until probed.
    fn default() -> (r: DatabaseHealth)
        ensures
            !r.connected && !r.sqlite_vec_loaded && !r.wal_mode && !r.foreign_keys_enabled,
    {
        DatabaseHealth {
            connected: false,
            sqlite_vec_loaded: false,
            wal_mode: false,
            foreign_keys_enabled: false,
        }
    }
}

/// The health of the embedded database, as the maintenance commands
/// report it.
#[derive(Clone, Copy, Debug, PartialEq, Eq, Structural)]
pub struct HealthStatus {
    pub connected: bool,
    pub sqlite_vec_loaded: bool,
    pub wal_mode: bool,
    pub foreign_keys_enabled: bool,
}

/// Interpret the raw probe results of a health check: the journal mode
/// must read exactly `wal`, the foreign-key pragma must read one, and the
/// vector-table probe must have answered affirmatively. A probe that
/// failed (`None`) counts as off.
pub fn assemble_health(
    connected: bool,
    journal_mode: Option<String>,
    foreign_keys: Option<i32>,
    vec_check: Option<bool>,
) -> (h: HealthStatus)
    ensures
        h.connected == connected,
        h.wal_mode == (journal_mode matches Some(m) && m@ == "wal"@),
        h.foreign_keys_enabled == (foreign_keys matches Some(v) && v == 1),
        h.sqlite_vec_loaded == (vec_check matches Some(true)),
{
    let wal_mode = match &journal_mode {
        Some(m) => {
            let wal = String::from_str("wal");
            m.eq(&wal)
        },
        None => false,
    };
    let foreign_keys_enabled = match foreign_keys {
        Some(v) => v == 1,
        None => false,
    };
    let sqlite_vec_loaded = match vec_check {
        Some(b) => b,
        None => false,
    };
    HealthStatus { connected, sqlite_vec_loaded, wal_mode, foreign_keys_enabled }
}

/// The same interpretation for the application-facing report; the vector
/// store counts as loaded when its probe query succeeded at all.
pub fn assemble_database_health(
    connected: bool,
    journal_mode: Option<String>,
    foreign_keys: Option<i32>,
    vec_probe_succeeded: bool,
) -> (h: DatabaseHealth)
    ensures
        h.connected == connected,
        h.wal_mode == (journal_mode matches Some(m) && m@ == "wal"@),
        h.foreign_keys_enabled == (foreign_keys matches Some(v) && v == 1),
        h.sqlite_vec_loaded == vec_probe_succeeded,
{
    let wal_mode = match &journal_mode {
        Some(m) => {
            let wal = String::from_str("wal");
            m.eq(&wal)
        },
        None => false,
    };
    let foreign_keys_enabled = match foreign_keys {
        Some(v) => v == 1,
        None => false,
    };
    DatabaseHealth {
        connected,
        sqlite_vec_loaded: vec_probe_succeeded,
        wal_mode,
        foreign_keys_enabled,
    }
}

/// Whether every probe passed, which decides the tone of the report.
pub fn all_healthy(h: &HealthStatus) -> (r: bool)
    ensures
        r == (h.connected && h.sqlite_vec_loaded && h.wal_mode && h.foreign_keys_enabled),
{
    h.connected && h.sqlite_vec_loaded && h.wal_mode && h.foreign_keys_enabled
}

} // verus!
