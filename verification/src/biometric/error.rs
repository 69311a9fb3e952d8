use vstd::prelude::*;

verus! {

#[derive(Debug)]
pub enum BiometricError {
    NotSupported,
    NotConfigured,
    UserCancelled,
    CorruptedSecret,
    Backend(String),
}

/// The text shown for an error.
pub open spec fn error_message(e: BiometricError) -> Seq<char> {
    match e {
        BiometricError::NotSupported => "Biometric unlock is not supported on this platform"@,
        BiometricError::NotConfigured => "Biometric unlock is not configured for this wallet"@,
        BiometricError::UserCancelled => "Biometric authentication cancelled"@,
        BiometricError::CorruptedSecret => "Stored passphrase is corrupted"@,
        BiometricError::Backend(msg) => msg@,
    }
}

impl BiometricError {
    /// The text shown for the error, as its `Display` renders it.
    pub fn to_string(&self) -> (s: String)
        ensures
            s@ == error_message(*self),
    {
        match self {
            BiometricError::NotSupported => {
                "Biometric unlock is not supported on this platform".to_owned()
            },
            BiometricError::NotConfigured => {
                "Biometric unlock is not configured for this wallet".to_owned()
            },
            BiometricError::UserCancelled => "Biometric authentication cancelled".to_owned(),
            BiometricError::CorruptedSecret => "Stored passphrase is corrupted".to_owned(),
            BiometricError::Backend(msg) => msg.clone(),
        }
    }
}

} // verus!
