use jotty_core::keys::{KeyStore, MockKeyStore, AI_ACCOUNT, ACCOUNT, SERVICE};

#[test]
fn mock_keystore_roundtrip() {
    let mut ks = MockKeyStore::default();
    assert_eq!(ks.get().unwrap(), None);
    ks.set("ck_abc").unwrap();
    assert_eq!(ks.get().unwrap().as_deref(), Some("ck_abc"));
    ks.delete().unwrap();
    assert_eq!(ks.get().unwrap(), None);
}

#[test]
fn mock_keystore_overwrites_and_deletes_idempotently() {
    let mut ks = MockKeyStore::new();
    ks.set("a").unwrap();
    ks.set("b").unwrap();
    assert_eq!(ks.get().unwrap().as_deref(), Some("b"));
    ks.delete().unwrap();
    ks.delete().unwrap();
    assert_eq!(ks.get().unwrap(), None);
}

#[test]
fn key_store_accounts() {
    assert_eq!(SERVICE, "jotty-desktop");
    assert_eq!(ACCOUNT, "api-key");
    assert_eq!(AI_ACCOUNT, "openwebui-key");
}
