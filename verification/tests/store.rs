use nous::api::kv_ns;
use nous::api::store::{entry_key_of, kv_key};

#[test]
fn store_keys_round_trip() {
    let full = kv_key(kv_ns::DAOS, "dao-1");
    assert_eq!(full, "api:daos:dao-1");
    assert_eq!(entry_key_of(&full, kv_ns::DAOS), "dao-1");
}

#[test]
fn foreign_keys_are_kept_whole() {
    assert_eq!(entry_key_of("api:wallets:did:a", kv_ns::DAOS), "api:wallets:did:a");
    assert_eq!(entry_key_of("api", kv_ns::DAOS), "api");
}
