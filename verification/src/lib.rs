//! Workstation-side agent core for an orchestration platform: contract
//! enforcement over watched paths, a durable local store model with a
//! write-ahead sync queue, a sync client with idempotent submission and a
//! retry spool, filesystem-watcher decision logic with debouncing and commit
//! inference, offline-change reconciliation, and a watch supervisor.
//!
//! All state transitions and parsers live here with verified contracts; the
//! surrounding process (native watcher threads, HTTP, SQLite persistence,
//! the desktop shell) drives them from outside.

pub mod contract;
pub mod db;
pub mod ids;
pub mod oauth;
pub mod offline;
pub mod resolver;
pub mod session;
pub mod strutil;
pub mod supervisor;
pub mod sync;
pub mod watch;
