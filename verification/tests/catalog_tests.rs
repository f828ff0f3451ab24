use cognito_login::catalog::load_projects_from_env;

fn pair(k: &str, v: &str) -> (String, String) {
    (k.to_string(), v.to_string())
}

#[test]
fn fully_configured_project_is_discovered() {
    let env = vec![
        pair("X_REGION", "us-east-1"),
        pair("X_POOL_ID", "pool-1"),
        pair("X_CLIENT_ID", "client-1"),
    ];
    let catalog = load_projects_from_env(&env);
    assert_eq!(catalog.len(), 1);
    assert_eq!(catalog[0].name, "X");
    assert_eq!(catalog[0].region, "us-east-1");
    assert_eq!(catalog[0].pool_id, "pool-1");
    assert_eq!(catalog[0].client_id, "client-1");
    assert!(catalog[0].default_accounts.is_none());
}

#[test]
fn missing_pool_id_excludes_project() {
    let env = vec![pair("X_REGION", "us-east-1"), pair("X_CLIENT_ID", "client-1")];
    let catalog = load_projects_from_env(&env);
    assert_eq!(catalog.len(), 0);
}

#[test]
fn missing_client_id_excludes_project() {
    let env = vec![pair("X_REGION", "us-east-1"), pair("X_POOL_ID", "pool-1")];
    let catalog = load_projects_from_env(&env);
    assert_eq!(catalog.len(), 0);
}

#[test]
fn unrelated_keys_are_ignored() {
    let env = vec![
        pair("PATH", "/usr/bin"),
        pair("A_REGION", "eu-west-1"),
        pair("A_POOL_ID", "p"),
        pair("A_CLIENT_ID", "c"),
        pair("HOME", "/root"),
    ];
    let catalog = load_projects_from_env(&env);
    assert_eq!(catalog.len(), 1);
    assert_eq!(catalog[0].name, "A");
}

#[test]
fn two_projects_in_scan_order() {
    let env = vec![
        pair("B_REGION", "us-west-2"),
        pair("B_POOL_ID", "bp"),
        pair("B_CLIENT_ID", "bc"),
        pair("A_REGION", "eu-west-1"),
        pair("A_POOL_ID", "ap"),
        pair("A_CLIENT_ID", "ac"),
    ];
    let catalog = load_projects_from_env(&env);
    assert_eq!(catalog.len(), 2);
    assert_eq!(catalog[0].name, "B");
    assert_eq!(catalog[1].name, "A");
}

#[test]
fn structured_accounts_are_attached() {
    let env = vec![
        pair("X_REGION", "us-east-1"),
        pair("X_POOL_ID", "p"),
        pair("X_CLIENT_ID", "c"),
        pair("X_DEFAULT_ACCOUNTS", "[{\"username\":\"u\",\"password\":\"w\"}]"),
    ];
    let catalog = load_projects_from_env(&env);
    assert_eq!(catalog.len(), 1);
    let accounts = catalog[0].default_accounts.as_ref().expect("accounts should parse");
    assert_eq!(accounts.len(), 1);
    assert_eq!(accounts[0].username, "u");
    assert_eq!(accounts[0].password, "w");
}

#[test]
fn custom_accounts_are_attached() {
    let env = vec![
        pair("X_REGION", "us-east-1"),
        pair("X_POOL_ID", "p"),
        pair("X_CLIENT_ID", "c"),
        pair("X_DEFAULT_ACCOUNTS", "[{username:u1,password:w1},{username:u2,password:w2}]"),
    ];
    let catalog = load_projects_from_env(&env);
    let accounts = catalog[0].default_accounts.as_ref().expect("accounts should parse");
    assert_eq!(accounts.len(), 2);
    assert_eq!(accounts[1].username, "u2");
}

#[test]
fn unparsable_accounts_degrade_to_none() {
    let env = vec![
        pair("X_REGION", "us-east-1"),
        pair("X_POOL_ID", "p"),
        pair("X_CLIENT_ID", "c"),
        pair("X_DEFAULT_ACCOUNTS", "[{username:u1}]"),
    ];
    let catalog = load_projects_from_env(&env);
    assert_eq!(catalog.len(), 1);
    assert!(catalog[0].default_accounts.is_none());
}

#[test]
fn empty_accounts_value_degrades_to_none() {
    let env = vec![
        pair("X_REGION", "us-east-1"),
        pair("X_POOL_ID", "p"),
        pair("X_CLIENT_ID", "c"),
        pair("X_DEFAULT_ACCOUNTS", ""),
    ];
    let catalog = load_projects_from_env(&env);
    assert_eq!(catalog.len(), 1);
    assert!(catalog[0].default_accounts.is_none());
}
