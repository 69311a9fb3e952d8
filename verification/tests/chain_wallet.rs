use satellion::chain_trait::{SecureKey, ZeroizableKey};
use satellion::chain_wallet::{ensure_zeroized_drop, ChainWallet};

struct MockWallet;

struct MockPrk;

impl ZeroizableKey for MockPrk {}

impl SecureKey for MockPrk {
    type Material = [u8; 4];

    fn expose(&self) -> &Self::Material {
        &[1, 2, 3, 4]
    }
}

struct MockUnlock {
    address: String,
}

impl ChainWallet for MockWallet {
    type Prk = MockPrk;
    type UnlockResult = MockUnlock;

    fn unlock(&self, _prk: &Self::Prk) -> Result<Self::UnlockResult, String> {
        Ok(MockUnlock { address: "0xmock".to_string() })
    }
}

#[test]
fn test_chain_wallet_trait() {
    let wallet = MockWallet;
    let prk = MockPrk;
    let result = wallet.unlock(&prk).unwrap();
    assert_eq!(result.address, "0xmock");
}

#[test]
fn zeroizable_keys_are_accepted() {
    let prk = MockPrk;
    ensure_zeroized_drop(&prk);
    assert_eq!(prk.expose(), &[1, 2, 3, 4]);
}
