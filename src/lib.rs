//! Keeps the Steam and Xbox copies of a Deep Rock Galactic save in step.
//!
//! The library holds the decisions of the sync engine: which files are save
//! files, which save is newer, when a backup is redundant and which old
//! backups are evicted. The caller performs the file system work and hands the
//! library plain values.
use notify_debouncer_mini::notify::Error as NotifyError;
use vstd::prelude::*;

pub mod backup;
pub mod logger;
pub mod saves;
pub mod sync;

verus! {

/// Relies on `notify::Error`, carried through unread.
#[verifier::external_type_specification]
#[verifier::external_body]
pub struct ExNotifyError(NotifyError);

/// All the ways in which the sync service can fail.
#[derive(Debug)]
pub enum Error {
    /// The retention limit was zero; it must be at least one.
    MaxBackups,
    /// The home directory could not be found.
    HomeDir,
    /// Locating saves or preparing backups failed.
    Save(saves::SaveError),
    /// A file system watch could not be set up or torn down.
    Watch(NotifyError),
}

} // verus!
