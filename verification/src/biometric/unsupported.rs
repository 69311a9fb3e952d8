//! Stub backend for platforms without a supported biometric flow.
use vstd::prelude::*;

use super::BiometricError;

verus! {

pub fn is_supported() -> (supported: bool)
    ensures
        !supported,
{
    false
}

pub fn store(_account: &str, _passphrase: &[u8]) -> (result: Result<(), BiometricError>)
    ensures
        result matches Err(BiometricError::NotSupported),
{
    Err(BiometricError::NotSupported)
}

pub fn read(_account: &str) -> (result: Result<Vec<u8>, BiometricError>)
    ensures
        result matches Err(BiometricError::NotSupported),
{
    Err(BiometricError::NotSupported)
}

pub fn delete(_account: &str) -> (result: Result<(), BiometricError>)
    ensures
        result is Ok,
{
    Ok(())
}

pub fn has(_account: &str) -> (result: Result<bool, BiometricError>)
    ensures
        result == Ok::<bool, BiometricError>(false),
{
    Ok(false)
}

pub fn prompt(_reason: &str) -> (result: Result<(), BiometricError>)
    ensures
        result matches Err(BiometricError::NotSupported),
{
    Err(BiometricError::NotSupported)
}

} // verus!
