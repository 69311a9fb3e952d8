//! The signing key of an Ethereum account, derived from the wallet's
//! mnemonic by alloy.
use vstd::prelude::*;

verus! {

/// What alloy's `MnemonicBuilder` gives for an English mnemonic, a password
/// and a derivation path: the address of the signer it builds, or the text
/// of its error.
pub uninterp spec fn mnemonic_signer(phrase: Seq<char>, password: Seq<char>, path: Seq<char>) -> Result<
    Seq<u8>,
    Seq<char>,
>;

/// Builds a signer with `alloy_signer_local::MnemonicBuilder::<English>`
/// from the phrase, the derivation path and the password, and gives the
/// signer's address; on failure, the `Display` text of the error. Which
/// address, or which error, is the name `mnemonic_signer` of the three
/// texts: the derivation is deterministic.
#[verifier::external_body]
pub(crate) fn signer_address(phrase: &str, password: &str, path: &str) -> (address: Result<[u8; 20], String>)
    ensures
        address matches Ok(a) ==> (mnemonic_signer(phrase@, password@, path@) matches Ok(x) && x == a@),
        address matches Err(e) ==> (mnemonic_signer(phrase@, password@, path@) matches Err(t) && t == e@),
{
    let builder = alloy_signer_local::MnemonicBuilder::<alloy_signer_local::coins_bip39::English>::default();
    let builder = match builder.phrase(phrase).derivation_path(path) {
        Ok(builder) => builder,
        Err(e) => return Err(e.to_string()),
    };
    match builder.password(password).build() {
        Ok(signer) => Ok(signer.address().into_array()),
        Err(e) => Err(e.to_string()),
    }
}

} // verus!
