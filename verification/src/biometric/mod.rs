//! Optional biometric unlock for wallets.
//!
//! Callers operate strictly on domain-level operations (`enable`, `disable`,
//! `prompt_unlock`, `migrate`, `forget`, `is_supported`, `is_enabled`). This
//! platform has no biometric flow, so the storage and prompt backend is the
//! unsupported stub. Passphrases cross this module as the text or bytes of
//! the secret; holding them in a secret box is the caller's part.
use vstd::prelude::*;

pub mod error;
pub mod unsupported;

pub use error::BiometricError;
use unsupported as auth;
use unsupported as storage;

verus! {

/// True when the current device can perform biometric (or device-passcode)
/// authentication.
pub fn is_supported() -> (supported: bool)
    ensures
        !supported,
{
    auth::is_supported()
}

/// True when the user has enrolled `wallet_name` for biometric unlock.
pub fn is_enabled(wallet_name: &str) -> (enabled: Result<bool, BiometricError>)
    ensures
        enabled == Ok::<bool, BiometricError>(false),
{
    if !is_supported() {
        return Ok(false);
    }
    storage::has(wallet_name)
}

/// Remove the stored passphrase for `wallet_name`. No-op if it doesn't exist.
pub fn disable(wallet_name: &str) -> (result: Result<(), BiometricError>)
    ensures
        result is Ok,
{
    storage::delete(wallet_name)
}

/// Best-effort cleanup used when a wallet is deleted from disk. Errors are
/// swallowed because the wallet is already gone.
pub fn forget(wallet_name: &str) {
    let _ = storage::delete(wallet_name);
}

/// Persist `passphrase` so future calls to [`prompt_unlock`] can recover it
/// after biometric authentication. Overwrites any prior entry.
pub fn enable(wallet_name: &str, passphrase: &str) -> (result: Result<(), BiometricError>)
    ensures
        result matches Err(BiometricError::NotSupported),
{
    if !is_supported() {
        return Err(BiometricError::NotSupported);
    }
    storage::store(wallet_name, passphrase.as_bytes())
}

/// Whether two wallet names are the same text.
fn same_name(a: &str, b: &str) -> (same: bool)
    ensures
        same == (a@ == b@),
{
    let n = a.unicode_len();
    if n != b.unicode_len() {
        return false;
    }
    let mut i: usize = 0;
    while i < n
        invariant
            i <= n,
            n == a@.len(),
            n == b@.len(),
            forall|k: int| 0 <= k < i ==> a@[k] == b@[k],
        decreases n - i,
    {
        if a.get_char(i) != b.get_char(i) {
            return false;
        }
        i = i + 1;
    }
    proof {
        assert(a@ =~= b@);
    }
    true
}

/// Move the stored passphrase from `from` to `to` after a wallet rename.
/// No-op if the wallet wasn't enrolled. The caller provides the passphrase
/// (already in memory thanks to the active session), so no extra biometric
/// prompt is needed.
pub fn migrate(from: &str, to: &str, passphrase: &str) -> (result: Result<(), BiometricError>)
    ensures
        result is Ok,
{
    if same_name(from, to) {
        return Ok(());
    }
    match storage::has(from) {
        Ok(true) => {},
        _ => return Ok(()),
    }
    match storage::store(to, passphrase.as_bytes()) {
        Ok(()) => {},
        Err(e) => return Err(e),
    }
    let _ = storage::delete(from);
    Ok(())
}

/// Run the biometric prompt and, on success, recover the bytes of the
/// passphrase stored for `wallet_name`. The prompt and the read are fused so
/// that the secret is never read without first proving user presence.
pub fn prompt_unlock(wallet_name: &str) -> (stored: Result<Vec<u8>, BiometricError>)
    ensures
        stored matches Err(BiometricError::NotSupported),
{
    if !is_supported() {
        return Err(BiometricError::NotSupported);
    }
    let mut reason = "unlock wallet ".to_owned();
    reason.append(wallet_name);
    match auth::prompt(reason.as_str()) {
        Ok(()) => {},
        Err(e) => return Err(e),
    }
    storage::read(wallet_name)
}

/// `cancel` in any mix of cases starts at position `i` of the text.
pub open spec fn cancel_at(s: Seq<char>, i: int) -> bool {
    &&& 0 <= i && i + 6 <= s.len()
    &&& s[i] == 'c' || s[i] == 'C'
    &&& s[i + 1] == 'a' || s[i + 1] == 'A'
    &&& s[i + 2] == 'n' || s[i + 2] == 'N'
    &&& s[i + 3] == 'c' || s[i + 3] == 'C'
    &&& s[i + 4] == 'e' || s[i + 4] == 'E'
    &&& s[i + 5] == 'l' || s[i + 5] == 'L'
}

/// The text mentions a cancellation: it holds `cancel` in any case.
pub open spec fn mentions_cancel(s: Seq<char>) -> bool {
    exists|i: int| #[trigger] cancel_at(s, i)
}

/// Whether the text mentions a cancellation, in any case.
fn says_cancel(s: &str) -> (found: bool)
    ensures
        found == mentions_cancel(s@),
{
    let n = s.unicode_len();
    if n < 6 {
        return false;
    }
    let mut i: usize = 0;
    while i <= n - 6
        invariant
            n == s@.len(),
            6 <= n,
            i <= n - 5,
            forall|j: int| 0 <= j < i ==> !cancel_at(s@, j),
        decreases n - i,
    {
        let c0 = s.get_char(i);
        let c1 = s.get_char(i + 1);
        let c2 = s.get_char(i + 2);
        let c3 = s.get_char(i + 3);
        let c4 = s.get_char(i + 4);
        let c5 = s.get_char(i + 5);
        if (c0 == 'c' || c0 == 'C') && (c1 == 'a' || c1 == 'A') && (c2 == 'n' || c2 == 'N') && (c3 == 'c' || c3
            == 'C') && (c4 == 'e' || c4 == 'E') && (c5 == 'l' || c5 == 'L') {
            assert(cancel_at(s@, i as int));
            return true;
        }
        i = i + 1;
    }
    proof {
        assert forall|j: int| !cancel_at(s@, j) by {
            if 0 <= j < i {
            }
        }
    }
    false
}

/// What a finished biometric prompt means: success unlocks; a failure whose
/// message (or "Authentication failed" when the system gives none) mentions
/// a cancellation is the user's cancelling, any other is the backend's
/// error with that message. Upper-case ASCII letters are the only
/// characters that lower-case to the letters of `cancel`.
pub fn prompt_outcome(success: bool, message: Option<String>) -> (outcome: Result<(), BiometricError>)
    ensures
        success ==> outcome is Ok,
        !success ==> {
            let msg = match message {
                Some(m) => m@,
                None => "Authentication failed"@,
            };
            if mentions_cancel(msg) {
                outcome matches Err(BiometricError::UserCancelled)
            } else {
                outcome matches Err(BiometricError::Backend(b)) && b@ == msg
            }
        },
{
    if success {
        return Ok(());
    }
    let msg = match message {
        Some(m) => m,
        None => "Authentication failed".to_owned(),
    };
    if says_cancel(msg.as_str()) {
        Err(BiometricError::UserCancelled)
    } else {
        Err(BiometricError::Backend(msg))
    }
}

} // verus!
