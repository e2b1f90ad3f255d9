use nsclient::vault::{match_vault_service_accounts, VaultServiceAccounts};

#[test]
fn default_alone_renders_with_trailing_comma() {
    let v = match_vault_service_accounts(None, &vec![]);
    assert_eq!(v.service_accounts_string(), "default,");
    assert_eq!(VaultServiceAccounts::default().service_accounts_string(), "default,");
}

#[test]
fn raw_list_then_default_addition() {
    let v = match_vault_service_accounts(Some("a, b"), &vec!["default".to_string()]);
    assert_eq!(v.service_accounts_string(), "default,a,b");
}

#[test]
fn raw_list_without_default() {
    let v = match_vault_service_accounts(Some(" x ,y,x"), &vec![]);
    assert_eq!(v.service_accounts_string(), "x,y,x");
    assert!(!v.includes_default());
}

#[test]
fn raw_default_sets_flag() {
    let v = match_vault_service_accounts(Some("default, svc"), &vec![]);
    assert_eq!(v.service_accounts_string(), "default,svc");
}

#[test]
fn additions_after_default() {
    let v = match_vault_service_accounts(None, &vec!["s1".to_string(), "s2".to_string()]);
    assert_eq!(v.service_accounts_string(), "default,s1,s2");
}

#[test]
fn nothing_renders_empty() {
    let v = VaultServiceAccounts::new_no_default();
    assert_eq!(v.service_accounts_string(), "");
    assert!(v.is_empty());
    let mut w = VaultServiceAccounts::new_no_default();
    w.extend(vec!["only".to_string()]);
    assert_eq!(w.service_accounts_string(), "only");
    assert!(!w.is_empty());
}

#[test]
fn raw_pieces_lose_unicode_white_space() {
    let v = match_vault_service_accounts(Some("\u{a0}a\t,\u{3000}b \n"), &vec![]);
    assert_eq!(v.service_accounts_string(), "a,b");
}
