use vstd::prelude::*;

verus! {

/// How the bot obtains its login session at startup.
#[derive(Debug, Clone, Copy, PartialEq, Eq, Structural)]
pub enum SessionPlan {
    /// A saved session exists: restore it, keeping the device that the
    /// crypto store belongs to.
    Restore,
    /// No saved session: log in with the password, which creates a new
    /// device, and save the new session.
    FreshLogin,
}

/// Chooses between restoring the saved session and a fresh login.
/// A saved session is always restored: a fresh login would mint a new
/// device that does not match the existing crypto store.
pub fn session_plan(session_file_exists: bool) -> (plan: SessionPlan)
    ensures
        plan == (if session_file_exists { SessionPlan::Restore } else { SessionPlan::FreshLogin }),
{
    if session_file_exists {
        SessionPlan::Restore
    } else {
        SessionPlan::FreshLogin
    }
}

/// What happens to the historical room-key export at startup.
#[derive(Debug, Clone, Copy, PartialEq, Eq, Structural)]
pub enum KeyImportPlan {
    /// There is no export file: nothing is imported.
    NoExportFile,
    /// The file exists but no passphrase was configured: the import is skipped.
    NoPassphrase,
    /// Import the room keys from the file with the passphrase.
    Import,
}

/// Chooses whether to import the room-key export: only when the file exists
/// and the passphrase is not empty. A missing file is reported first.
pub fn key_import_plan(export_file_exists: bool, passphrase: &str) -> (plan: KeyImportPlan)
    ensures
        plan == (if !export_file_exists {
            KeyImportPlan::NoExportFile
        } else if passphrase@.len() == 0 {
            KeyImportPlan::NoPassphrase
        } else {
            KeyImportPlan::Import
        }),
{
    if !export_file_exists {
        KeyImportPlan::NoExportFile
    } else if passphrase.is_empty() {
        KeyImportPlan::NoPassphrase
    } else {
        KeyImportPlan::Import
    }
}

} // verus!
