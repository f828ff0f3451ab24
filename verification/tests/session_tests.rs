use cognito_login::session::{
    available_environments, build_auth_config, continue_ends_session, env_file_name, initial_state,
    resolve_credential_choice, resolve_menu_choice, step, AuthOutcome, CredentialChoice,
    Environment, Event, MenuChoice, RangePolicy, SessionError, SessionState, TokenBundle,
};
use cognito_login::catalog::ProjectConfig;

fn pair(k: &str, v: &str) -> (String, String) {
    (k.to_string(), v.to_string())
}

#[test]
fn environment_menu_composition() {
    assert_eq!(available_environments(false, false), vec![Environment::Development]);
    assert_eq!(
        available_environments(true, false),
        vec![Environment::Development, Environment::Staging]
    );
    assert_eq!(
        available_environments(false, true),
        vec![Environment::Development, Environment::Production]
    );
    assert_eq!(
        available_environments(true, true),
        vec![Environment::Development, Environment::Staging, Environment::Production]
    );
}

#[test]
fn environment_file_names() {
    assert_eq!(env_file_name(Environment::Development), ".env");
    assert_eq!(env_file_name(Environment::Staging), ".env.staging");
    assert_eq!(env_file_name(Environment::Production), ".env.production");
}

#[test]
fn menu_choice_resolution() {
    assert_eq!(resolve_menu_choice("2", 3, RangePolicy::Reprompt), MenuChoice::Chosen(1));
    assert_eq!(resolve_menu_choice(" 2 ", 3, RangePolicy::Reprompt), MenuChoice::Chosen(1));
    assert_eq!(resolve_menu_choice("+2", 3, RangePolicy::Reprompt), MenuChoice::Chosen(1));
    assert_eq!(resolve_menu_choice("5", 3, RangePolicy::Reprompt), MenuChoice::AskAgain);
    assert_eq!(resolve_menu_choice("0", 3, RangePolicy::Reprompt), MenuChoice::AskAgain);
    assert_eq!(resolve_menu_choice("5", 3, RangePolicy::Fatal), MenuChoice::AbortOutOfRange);
    assert_eq!(resolve_menu_choice("abc", 3, RangePolicy::Reprompt), MenuChoice::AbortInvalid);
    assert_eq!(resolve_menu_choice("", 3, RangePolicy::Reprompt), MenuChoice::AbortInvalid);
    // A number too large for the machine reads as invalid.
    assert_eq!(
        resolve_menu_choice("99999999999999999999999999", 3, RangePolicy::Reprompt),
        MenuChoice::AbortInvalid
    );
}

#[test]
fn credential_menu_one_past_count_is_manual_entry() {
    assert_eq!(resolve_credential_choice("3", 2), CredentialChoice::EnterManually);
    assert_eq!(resolve_credential_choice("1", 0), CredentialChoice::EnterManually);
    assert_eq!(resolve_credential_choice("6", 5), CredentialChoice::EnterManually);
    assert_eq!(resolve_credential_choice("2", 2), CredentialChoice::UseAccount(1));
    assert_eq!(resolve_credential_choice("4", 2), CredentialChoice::AskAgain);
    assert_eq!(resolve_credential_choice("0", 2), CredentialChoice::AskAgain);
    assert_eq!(resolve_credential_choice("x", 2), CredentialChoice::AbortInvalid);
}

#[test]
fn continue_prompt_is_case_insensitive_no() {
    assert!(continue_ends_session("no"));
    assert!(continue_ends_session("NO"));
    assert!(continue_ends_session("No"));
    assert!(continue_ends_session("nO"));
    assert!(continue_ends_session(" no \n"));
    assert!(!continue_ends_session(""));
    assert!(!continue_ends_session("yes"));
    assert!(!continue_ends_session("nope"));
    assert!(!continue_ends_session("n o"));
}

#[test]
fn token_bundle_defaults() {
    let bundle = TokenBundle {
        id_token: None,
        access_token: Some("acc".to_string()),
        refresh_token: None,
        expires_in: None,
    };
    let (id, access, refresh, expires) = bundle.resolved();
    assert_eq!(id, "");
    assert_eq!(access, "acc");
    assert_eq!(refresh, "");
    assert_eq!(expires, 0);
}

#[test]
fn auth_config_requires_recognized_region() {
    let good = ProjectConfig {
        name: "X".to_string(),
        region: "us-east-1".to_string(),
        pool_id: "p".to_string(),
        client_id: "c".to_string(),
        default_accounts: None,
    };
    let auth = build_auth_config(&good).expect("us-east-1 is recognized");
    assert_eq!(auth.pool_id, "p");
    assert_eq!(auth.client_id, "c");
    assert_eq!(auth.region, "us-east-1");

    let bad = ProjectConfig {
        name: "X".to_string(),
        region: "nowhere-9".to_string(),
        pool_id: "p".to_string(),
        client_id: "c".to_string(),
        default_accounts: None,
    };
    assert!(build_auth_config(&bad).is_none());
}

#[test]
fn missing_base_env_file_is_fatal() {
    let state = initial_state(false);
    assert!(matches!(
        state,
        SessionState::Failed { error: SessionError::MissingEnvFile }
    ));
    assert!(matches!(initial_state(true), SessionState::Begin));
}

#[test]
fn full_session_walkthrough() {
    // Begin: only development is available.
    let state = step(
        SessionState::Begin,
        Event::Start { staging_available: false, production_available: false },
    );
    let state = match state {
        SessionState::SelectEnvironment { ref options } => {
            assert_eq!(options, &vec![Environment::Development]);
            state
        },
        _ => panic!("expected the environment menu"),
    };

    // An out-of-range environment choice re-prompts in place.
    let state = step(state, Event::Line { input: "7".to_string() });
    let state = match state {
        SessionState::SelectEnvironment { ref options } => {
            assert_eq!(options.len(), 1);
            state
        },
        _ => panic!("expected the environment menu again"),
    };

    // A valid choice loads the development catalog.
    let state = step(state, Event::Line { input: "1".to_string() });
    assert!(matches!(
        state,
        SessionState::LoadCatalog { environment: Environment::Development }
    ));

    // A snapshot with one fully configured project and two accounts.
    let env = vec![
        pair("X_REGION", "us-east-1"),
        pair("X_POOL_ID", "p"),
        pair("X_CLIENT_ID", "c"),
        pair(
            "X_DEFAULT_ACCOUNTS",
            "[{\"username\":\"u1\",\"password\":\"w1\"},{\"username\":\"u2\",\"password\":\"w2\"}]",
        ),
    ];
    let state = step(state, Event::Snapshot { env });
    let state = match state {
        SessionState::SelectProject { ref catalog } => {
            assert_eq!(catalog.len(), 1);
            assert_eq!(catalog[0].name, "X");
            state
        },
        _ => panic!("expected the project menu"),
    };

    // Selecting the project leads to the credential menu.
    let state = step(state, Event::Line { input: "1".to_string() });
    let state = match state {
        SessionState::SelectCredentials { ref auth, ref accounts } => {
            assert_eq!(auth.pool_id, "p");
            assert_eq!(auth.client_id, "c");
            assert_eq!(auth.region, "us-east-1");
            assert_eq!(accounts.len(), 2);
            assert_eq!(accounts[1].username, "u2");
            state
        },
        _ => panic!("expected the credential menu"),
    };

    // Choosing the second account starts authentication with its pair.
    let state = step(state, Event::Line { input: "2".to_string() });
    let state = match state {
        SessionState::Authenticate { ref username, ref password, .. } => {
            assert_eq!(username, "u2");
            assert_eq!(password, "w2");
            state
        },
        _ => panic!("expected authentication"),
    };

    // A failed attempt is reported, never fatal.
    let state = step(
        state,
        Event::Outcome { outcome: AuthOutcome::Failure("denied".to_string()) },
    );
    assert!(matches!(state, SessionState::ReportResult { .. }));
    let state = step(state, Event::Reported);
    assert!(matches!(state, SessionState::ContinueOrQuit));

    // Anything but "no" restarts; "no" ends the session.
    let state = step(state, Event::Line { input: "yes".to_string() });
    assert!(matches!(state, SessionState::Begin));
    let state = step(SessionState::ContinueOrQuit, Event::Line { input: "No".to_string() });
    assert!(matches!(state, SessionState::Done));
}

#[test]
fn credential_menu_routes_one_past_count_to_manual_entry() {
    let env = vec![
        pair("X_REGION", "us-east-1"),
        pair("X_POOL_ID", "p"),
        pair("X_CLIENT_ID", "c"),
        pair("X_DEFAULT_ACCOUNTS", "[{\"username\":\"u1\",\"password\":\"w1\"}]"),
    ];
    let state = step(
        SessionState::LoadCatalog { environment: Environment::Development },
        Event::Snapshot { env },
    );
    let state = step(state, Event::Line { input: "1".to_string() });
    assert!(matches!(state, SessionState::SelectCredentials { .. }));
    // One account, so "2" is the trailing manual-entry option.
    let state = step(state, Event::Line { input: "2".to_string() });
    let state = match state {
        SessionState::EnterCredentials { ref auth } => {
            assert_eq!(auth.pool_id, "p");
            state
        },
        _ => panic!("expected manual credential entry"),
    };
    // Manually entered credentials carry into authentication, the
    // username trimmed as a prompt reply, the password untouched.
    let state = step(
        state,
        Event::Credentials { username: " me \n".to_string(), password: " secret ".to_string() },
    );
    match state {
        SessionState::Authenticate { ref username, ref password, .. } => {
            assert_eq!(username, "me");
            assert_eq!(password, " secret ");
        },
        _ => panic!("expected authentication"),
    }
}

#[test]
fn fatal_paths_of_the_machine() {
    // Non-numeric input at the environment prompt is fatal.
    let state = step(
        SessionState::Begin,
        Event::Start { staging_available: false, production_available: false },
    );
    let state = step(state, Event::Line { input: "first".to_string() });
    assert!(matches!(
        state,
        SessionState::Failed { error: SessionError::InvalidInput }
    ));

    // An empty catalog is fatal.
    let state = step(
        SessionState::LoadCatalog { environment: Environment::Development },
        Event::Snapshot { env: vec![pair("X_REGION", "us-east-1")] },
    );
    assert!(matches!(
        state,
        SessionState::Failed { error: SessionError::NoProjects }
    ));

    // An out-of-range project choice is fatal, unlike the other prompts.
    let env = vec![
        pair("X_REGION", "us-east-1"),
        pair("X_POOL_ID", "p"),
        pair("X_CLIENT_ID", "c"),
    ];
    let state = step(
        SessionState::LoadCatalog { environment: Environment::Development },
        Event::Snapshot { env: env.clone() },
    );
    let state = step(state, Event::Line { input: "2".to_string() });
    assert!(matches!(
        state,
        SessionState::Failed { error: SessionError::InvalidProjectSelection }
    ));

    // A project whose region the provider does not recognize is fatal.
    let env = vec![
        pair("X_REGION", "middle-earth-1"),
        pair("X_POOL_ID", "p"),
        pair("X_CLIENT_ID", "c"),
    ];
    let state = step(
        SessionState::LoadCatalog { environment: Environment::Development },
        Event::Snapshot { env },
    );
    let state = step(state, Event::Line { input: "1".to_string() });
    assert!(matches!(
        state,
        SessionState::Failed { error: SessionError::UnrecognizedRegion }
    ));
}
