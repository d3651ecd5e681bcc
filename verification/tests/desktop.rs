use nous::desktop::{node_status, wallet_balances};

#[test]
fn node_status_has_all_modules() {
    let status = node_status("0.1.0");
    assert_eq!(status.modules.len(), 8);
    assert!(!status.did.is_empty());
    assert_eq!(status.modules[4].name, "Payments");
    assert_eq!(status.modules[4].status, "standby");
}

#[test]
fn wallet_balances_default() {
    let balances = wallet_balances();
    assert_eq!(balances.len(), 3);
    assert_eq!(balances[0].token, "ETH");
    assert_eq!(balances[1].usd_value, None);
}
