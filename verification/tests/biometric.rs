use satellion::biometric::unsupported;
use satellion::biometric::{self, BiometricError};

#[test]
fn unsupported_platform_reports_nothing_enrolled() {
    assert!(!biometric::is_supported());
    assert!(matches!(biometric::is_enabled("wallet"), Ok(false)));
    assert!(biometric::disable("wallet").is_ok());
    biometric::forget("wallet");
}

#[test]
fn unsupported_backend_refuses_storage() {
    assert!(matches!(unsupported::store("w", b"secret"), Err(BiometricError::NotSupported)));
    assert!(matches!(unsupported::read("w"), Err(BiometricError::NotSupported)));
    assert!(matches!(unsupported::has("w"), Ok(false)));
    assert!(matches!(unsupported::prompt("unlock"), Err(BiometricError::NotSupported)));
}

#[test]
fn error_messages() {
    assert_eq!(
        BiometricError::NotSupported.to_string(),
        "Biometric unlock is not supported on this platform"
    );
    assert_eq!(BiometricError::UserCancelled.to_string(), "Biometric authentication cancelled");
    assert_eq!(BiometricError::Backend("boom".to_string()).to_string(), "boom");
}

#[test]
fn enabling_is_refused_without_a_biometric_backend() {
    assert!(matches!(biometric::enable("wallet", "hunter2"), Err(BiometricError::NotSupported)));
}

#[test]
fn unlocking_is_refused_without_a_biometric_backend() {
    assert!(matches!(biometric::prompt_unlock("wallet"), Err(BiometricError::NotSupported)));
}

#[test]
fn migrating_an_unenrolled_wallet_does_nothing() {
    assert!(biometric::migrate("old", "new", "hunter2").is_ok());
    assert!(biometric::migrate("same", "same", "hunter2").is_ok());
    assert!(matches!(biometric::is_enabled("new"), Ok(false)));
}

#[test]
fn prompt_outcomes_tell_cancelling_from_failing() {
    assert!(biometric::prompt_outcome(true, None).is_ok());
    assert!(matches!(
        biometric::prompt_outcome(false, Some("Authentication Canceled by user.".to_string())),
        Err(BiometricError::UserCancelled)
    ));
    assert!(matches!(
        biometric::prompt_outcome(false, Some("CANCEL".to_string())),
        Err(BiometricError::UserCancelled)
    ));
    match biometric::prompt_outcome(false, Some("Biometry is locked out.".to_string())) {
        Err(BiometricError::Backend(m)) => assert_eq!(m, "Biometry is locked out."),
        _ => panic!("expected a backend error"),
    }
    match biometric::prompt_outcome(false, None) {
        Err(BiometricError::Backend(m)) => assert_eq!(m, "Authentication failed"),
        _ => panic!("expected a backend error"),
    }
    assert!(matches!(
        biometric::prompt_outcome(false, Some("cance l".to_string())),
        Err(BiometricError::Backend(_))
    ));
}
