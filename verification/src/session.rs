//! The interactive session: environment options, per-prompt choice
//! resolution with an explicit out-of-range policy, the continue/quit
//! decision, the per-attempt authentication configuration, and the
//! session state machine that sequences them.

use vstd::prelude::*;
use crate::accounts::{accounts_view, DefaultAccount};
use crate::catalog::{catalog_view, env_view, spec_catalog, ProjectConfig};
use crate::text::{
    chars_of, parse_usize_exec, spec_parse_usize, spec_trim, string_from_chars, trim_exec,
};

verus! {

/// A selectable environment.
#[derive(Clone, Copy, PartialEq, Eq, Debug, Structural)]
pub enum Environment {
    Development,
    Staging,
    Production,
}

/// The environment menu: development always, staging and production only
/// where their configuration sources are available.
pub open spec fn spec_env_options(staging: bool, production: bool) -> Seq<Environment> {
    seq![Environment::Development] + (if staging {
        seq![Environment::Staging]
    } else {
        Seq::<Environment>::empty()
    }) + (if production {
        seq![Environment::Production]
    } else {
        Seq::<Environment>::empty()
    })
}

/// Builds the environment menu.
pub fn available_environments(staging: bool, production: bool) -> (r: Vec<Environment>)
    ensures
        r@ == spec_env_options(staging, production),
{
    let mut r: Vec<Environment> = Vec::new();
    r.push(Environment::Development);
    if staging {
        r.push(Environment::Staging);
    }
    if production {
        r.push(Environment::Production);
    }
    proof {
        assert(r@ =~= spec_env_options(staging, production));
    }
    r
}

/// The configuration file each environment loads.
pub open spec fn spec_env_file(e: Environment) -> Seq<char> {
    match e {
        Environment::Development => ".env"@,
        Environment::Staging => ".env.staging"@,
        Environment::Production => ".env.production"@,
    }
}

/// The configuration file name of an environment.
pub fn env_file_name(e: Environment) -> (r: String)
    ensures
        r@ == spec_env_file(e),
{
    match e {
        Environment::Development => ".env".to_owned(),
        Environment::Staging => ".env.staging".to_owned(),
        Environment::Production => ".env.production".to_owned(),
    }
}

/// The policy of a numeric prompt for a numeric but out-of-range choice:
/// ask the same prompt again, or abort the whole program.
#[derive(Clone, Copy, PartialEq, Eq, Debug, Structural)]
pub enum RangePolicy {
    Reprompt,
    Fatal,
}

/// The outcome of one line read at a numeric menu prompt.
#[derive(Clone, Copy, PartialEq, Eq, Debug, Structural)]
pub enum MenuChoice {
    /// A valid 1-based choice, as a 0-based index.
    Chosen(usize),
    /// Numeric but out of range, under the re-prompt policy.
    AskAgain,
    /// Not a number: fatal at every numeric prompt.
    AbortInvalid,
    /// Numeric but out of range, under the fatal policy.
    AbortOutOfRange,
}

/// The outcome of one line at a menu of `count` options: the trimmed line
/// must read as a number; `1..=count` selects, anything else out of range
/// goes by the prompt's policy.
pub open spec fn spec_resolve_menu(line: Seq<char>, count: nat, policy: RangePolicy) -> MenuChoice {
    match spec_parse_usize(spec_trim(line)) {
        None => MenuChoice::AbortInvalid,
        Some(v) => if 1 <= v && v <= count {
            MenuChoice::Chosen((v - 1) as usize)
        } else {
            match policy {
                RangePolicy::Reprompt => MenuChoice::AskAgain,
                RangePolicy::Fatal => MenuChoice::AbortOutOfRange,
            }
        },
    }
}

/// Resolves one line read at a numeric menu prompt of `count` options.
pub fn resolve_menu_choice(line: &str, count: usize, policy: RangePolicy) -> (r: MenuChoice)
    ensures
        r == spec_resolve_menu(line@, count as nat, policy),
{
    let cs = chars_of(line);
    let t = trim_exec(&cs);
    match parse_usize_exec(&t) {
        None => MenuChoice::AbortInvalid,
        Some(v) => {
            if 1 <= v && v <= count {
                MenuChoice::Chosen(v - 1)
            } else {
                match policy {
                    RangePolicy::Reprompt => MenuChoice::AskAgain,
                    RangePolicy::Fatal => MenuChoice::AbortOutOfRange,
                }
            }
        },
    }
}

/// The outcome of one line read at the credential menu.
#[derive(Clone, Copy, PartialEq, Eq, Debug, Structural)]
pub enum CredentialChoice {
    /// One of the listed default accounts, as a 0-based index.
    UseAccount(usize),
    /// The extra trailing option: enter credentials manually.
    EnterManually,
    /// Numeric but out of range: this prompt asks again.
    AskAgain,
    /// Not a number: fatal.
    AbortInvalid,
}

/// The outcome of one line at the credential menu over `count` accounts:
/// `1..=count` selects an account, `count + 1` is manual entry, any other
/// number asks again, and a non-number aborts.
pub open spec fn spec_resolve_credential(line: Seq<char>, count: nat) -> CredentialChoice {
    match spec_parse_usize(spec_trim(line)) {
        None => CredentialChoice::AbortInvalid,
        Some(v) => if 1 <= v && v <= count {
            CredentialChoice::UseAccount((v - 1) as usize)
        } else if v == count + 1 {
            CredentialChoice::EnterManually
        } else {
            CredentialChoice::AskAgain
        },
    }
}

/// Resolves one line read at the credential menu over `count` accounts.
pub fn resolve_credential_choice(line: &str, count: usize) -> (r: CredentialChoice)
    ensures
        r == spec_resolve_credential(line@, count as nat),
        spec_parse_usize(spec_trim(line@)) == Some(count as nat + 1) ==> r
            == CredentialChoice::EnterManually,
{
    let cs = chars_of(line);
    let t = trim_exec(&cs);
    match parse_usize_exec(&t) {
        None => CredentialChoice::AbortInvalid,
        Some(v) => {
            if 1 <= v && v <= count {
                CredentialChoice::UseAccount(v - 1)
            } else if v > count && v - 1 == count {
                CredentialChoice::EnterManually
            } else {
                CredentialChoice::AskAgain
            }
        },
    }
}

/// Exactly the case-insensitive literal `no`, after trimming, is a quit.
pub open spec fn spec_is_no(line: Seq<char>) -> bool {
    let t = spec_trim(line);
    t.len() == 2 && (t[0] == 'n' || t[0] == 'N') && (t[1] == 'o' || t[1] == 'O')
}

/// Whether one line at the continue prompt ends the session: exactly the
/// case-insensitive literal `no` does; any other text, empty included,
/// restarts environment selection.
pub fn continue_ends_session(line: &str) -> (r: bool)
    ensures
        r == spec_is_no(line@),
{
    let cs = chars_of(line);
    let t = trim_exec(&cs);
    t.len() == 2 && (t[0] == 'n' || t[0] == 'N') && (t[1] == 'o' || t[1] == 'O')
}

/// Names whether the identity provider's region parser recognizes `s`:
/// membership in a fixed set of region identifiers, compared after
/// lowercasing, a function of the characters alone.
pub uninterp spec fn region_recognized(s: Seq<char>) -> bool;

/// Relies on `rusoto_core::Region`'s `FromStr` impl: it recognizes a
/// fixed list of region names, lowercased, and rejects everything else.
#[verifier::external_body]
fn region_parses(s: &str) -> (r: bool)
    ensures
        r == region_recognized(s@),
{
    s.parse::<rusoto_core::Region>().is_ok()
}

/// The mathematical model of a per-attempt authentication configuration.
#[verifier::ext_equal]
pub struct AuthView {
    pub pool_id: Seq<char>,
    pub client_id: Seq<char>,
    pub region: Seq<char>,
}

/// The coordinates of one authentication attempt, built from the selected
/// project and discarded after the call; its region is recognized.
pub struct AuthConfig {
    pub pool_id: String,
    pub client_id: String,
    pub region: String,
}

impl View for AuthConfig {
    type V = AuthView;

    open spec fn view(&self) -> AuthView {
        AuthView { pool_id: self.pool_id@, client_id: self.client_id@, region: self.region@ }
    }
}

impl AuthConfig {
    /// The region names a recognized region value.
    pub open spec fn wf(&self) -> bool {
        region_recognized(self.region@)
    }
}

/// Builds the authentication configuration of the selected project, or
/// nothing where its region is not a recognized region identifier.
pub fn build_auth_config(p: &ProjectConfig) -> (r: Option<AuthConfig>)
    ensures
        match r {
            Some(a) => region_recognized(p.region@) && a.wf() && a@.pool_id == p.pool_id@
                && a@.client_id == p.client_id@ && a@.region == p.region@,
            None => !region_recognized(p.region@),
        },
{
    if region_parses(p.region.as_str()) {
        Some(
            AuthConfig {
                pool_id: p.pool_id.clone(),
                client_id: p.client_id.clone(),
                region: p.region.clone(),
            },
        )
    } else {
        None
    }
}

/// The token bundle an authentication attempt may return; each field is
/// optional in the provider's response.
pub struct TokenBundle {
    pub id_token: Option<String>,
    pub access_token: Option<String>,
    pub refresh_token: Option<String>,
    pub expires_in: Option<i64>,
}

impl TokenBundle {
    /// The tokens with each omitted field defaulted: an empty string, or
    /// zero seconds.
    pub fn resolved(&self) -> (r: (String, String, String, i64))
        ensures
            r.0@ == (match self.id_token {
                Some(s) => s@,
                None => Seq::<char>::empty(),
            }),
            r.1@ == (match self.access_token {
                Some(s) => s@,
                None => Seq::<char>::empty(),
            }),
            r.2@ == (match self.refresh_token {
                Some(s) => s@,
                None => Seq::<char>::empty(),
            }),
            r.3 == (match self.expires_in {
                Some(v) => v,
                None => 0i64,
            }),
    {
        let id = match &self.id_token {
            Some(s) => s.clone(),
            None => String::new(),
        };
        let access = match &self.access_token {
            Some(s) => s.clone(),
            None => String::new(),
        };
        let refresh = match &self.refresh_token {
            Some(s) => s.clone(),
            None => String::new(),
        };
        let expires: i64 = match &self.expires_in {
            Some(v) => *v,
            None => 0,
        };
        (id, access, refresh, expires)
    }
}

/// What one authentication attempt came to: a token bundle, a response
/// with no authentication result, or a provider error detail.
pub enum AuthOutcome {
    Tokens(TokenBundle),
    NoResult,
    Failure(String),
}

/// A fatal session error: each aborts the whole program.
#[derive(Clone, Copy, PartialEq, Eq, Debug, Structural)]
pub enum SessionError {
    /// The base environment file is missing at startup.
    MissingEnvFile,
    /// Non-numeric input at a numeric prompt.
    InvalidInput,
    /// The loaded environment yields an empty project catalog.
    NoProjects,
    /// A numeric but out-of-range project choice.
    InvalidProjectSelection,
    /// The selected project's region is not a recognized region value.
    UnrecognizedRegion,
}

/// One state of the session's strictly sequential state machine.
pub enum SessionState {
    /// About to probe which environment sources are available.
    Begin,
    /// Presenting the environment menu.
    SelectEnvironment { options: Vec<Environment> },
    /// Loading the chosen environment and its project catalog.
    LoadCatalog { environment: Environment },
    /// Presenting the project menu.
    SelectProject { catalog: Vec<ProjectConfig> },
    /// Presenting the credential menu of the selected project.
    SelectCredentials { auth: AuthConfig, accounts: Vec<DefaultAccount> },
    /// Reading a username and a password by hand.
    EnterCredentials { auth: AuthConfig },
    /// Performing the authentication call.
    Authenticate { auth: AuthConfig, username: String, password: String },
    /// Reporting what the attempt came to.
    ReportResult { outcome: AuthOutcome },
    /// Asking whether to start over or quit.
    ContinueOrQuit,
    /// The session ended on request.
    Done,
    /// The session aborted.
    Failed { error: SessionError },
}

/// One event the surrounding program hands the state machine.
pub enum Event {
    /// Which optional environment sources are available.
    Start { staging_available: bool, production_available: bool },
    /// One line read at the current prompt.
    Line { input: String },
    /// The environment snapshot after loading the chosen source.
    Snapshot { env: Vec<(String, String)> },
    /// A username and a password entered by hand.
    Credentials { username: String, password: String },
    /// What the authentication call returned.
    Outcome { outcome: AuthOutcome },
    /// The report was printed.
    Reported,
}

/// The event each state awaits; terminal states await none.
pub open spec fn event_matches(state: SessionState, event: Event) -> bool {
    match (state, event) {
        (SessionState::Begin, Event::Start { .. }) => true,
        (SessionState::SelectEnvironment { .. }, Event::Line { .. }) => true,
        (SessionState::LoadCatalog { .. }, Event::Snapshot { .. }) => true,
        (SessionState::SelectProject { .. }, Event::Line { .. }) => true,
        (SessionState::SelectCredentials { .. }, Event::Line { .. }) => true,
        (SessionState::EnterCredentials { .. }, Event::Credentials { .. }) => true,
        (SessionState::Authenticate { .. }, Event::Outcome { .. }) => true,
        (SessionState::ReportResult { .. }, Event::Reported) => true,
        (SessionState::ContinueOrQuit, Event::Line { .. }) => true,
        _ => false,
    }
}

/// The session's transition relation: what the next state must be for
/// each state and event.
pub open spec fn spec_step(state: SessionState, event: Event, next: SessionState) -> bool {
    match (state, event) {
        (SessionState::Begin, Event::Start { staging_available, production_available }) => next
            matches SessionState::SelectEnvironment { options } && options@ == spec_env_options(
            staging_available,
            production_available,
        ),
        (SessionState::SelectEnvironment { options }, Event::Line { input }) => match
            spec_resolve_menu(input@, options@.len() as nat, RangePolicy::Reprompt) {
            MenuChoice::Chosen(i) => i < options@.len() && (next matches
            SessionState::LoadCatalog { environment } && environment == options@[i as int]),
            MenuChoice::AskAgain => next matches SessionState::SelectEnvironment { options: o2 }
                && o2@ == options@,
            MenuChoice::AbortInvalid => next == (SessionState::Failed {
                error: SessionError::InvalidInput,
            }),
            MenuChoice::AbortOutOfRange => false,
        },
        (SessionState::LoadCatalog { .. }, Event::Snapshot { env }) => {
            let cat = spec_catalog(env_view(env@));
            if cat.len() == 0 {
                next == (SessionState::Failed { error: SessionError::NoProjects })
            } else {
                next matches SessionState::SelectProject { catalog } && catalog_view(catalog@)
                    == cat
            }
        },
        (SessionState::SelectProject { catalog }, Event::Line { input }) => match
            spec_resolve_menu(input@, catalog@.len() as nat, RangePolicy::Fatal) {
            MenuChoice::Chosen(i) => i < catalog@.len() && {
                let p = catalog@[i as int]@;
                if !region_recognized(p.region) {
                    next == (SessionState::Failed { error: SessionError::UnrecognizedRegion })
                } else {
                    match p.default_accounts {
                        Some(accs) => next matches SessionState::SelectCredentials {
                            auth,
                            accounts,
                        } && auth@.pool_id == p.pool_id && auth@.client_id == p.client_id
                            && auth@.region == p.region && accounts_view(accounts@) == accs,
                        None => next matches SessionState::EnterCredentials { auth }
                            && auth@.pool_id == p.pool_id && auth@.client_id == p.client_id
                            && auth@.region == p.region,
                    }
                }
            },
            MenuChoice::AskAgain => false,
            MenuChoice::AbortInvalid => next == (SessionState::Failed {
                error: SessionError::InvalidInput,
            }),
            MenuChoice::AbortOutOfRange => next == (SessionState::Failed {
                error: SessionError::InvalidProjectSelection,
            }),
        },
        (SessionState::SelectCredentials { auth, accounts }, Event::Line { input }) => match
            spec_resolve_credential(input@, accounts@.len() as nat) {
            CredentialChoice::UseAccount(i) => i < accounts@.len() && (next matches
            SessionState::Authenticate { auth: a2, username, password } && a2@ == auth@ && username@
                == accounts@[i as int]@.0 && password@ == accounts@[i as int]@.1),
            CredentialChoice::EnterManually => next matches SessionState::EnterCredentials {
                auth: a2,
            } && a2@ == auth@,
            CredentialChoice::AskAgain => next matches SessionState::SelectCredentials {
                auth: a2,
                accounts: acc2,
            } && a2@ == auth@ && accounts_view(acc2@) == accounts_view(accounts@),
            CredentialChoice::AbortInvalid => next == (SessionState::Failed {
                error: SessionError::InvalidInput,
            }),
        },
        (SessionState::EnterCredentials { auth }, Event::Credentials { username, password }) => next
            matches SessionState::Authenticate { auth: a2, username: u2, password: p2 } && a2@
            == auth@ && u2@ == spec_trim(username@) && p2@ == password@,
        (SessionState::Authenticate { .. }, Event::Outcome { outcome }) => next matches
            SessionState::ReportResult { outcome: o2 } && o2 == outcome,
        (SessionState::ReportResult { .. }, Event::Reported) => next == SessionState::ContinueOrQuit,
        (SessionState::ContinueOrQuit, Event::Line { input }) => if spec_is_no(input@) {
            next == SessionState::Done
        } else {
            next == SessionState::Begin
        },
        _ => false,
    }
}

/// The state a session starts in: ready to begin, or failed outright
/// where the base environment file is absent.
pub fn initial_state(base_env_exists: bool) -> (r: SessionState)
    ensures
        base_env_exists ==> r == SessionState::Begin,
        !base_env_exists ==> r == (SessionState::Failed { error: SessionError::MissingEnvFile }),
{
    if base_env_exists {
        SessionState::Begin
    } else {
        SessionState::Failed { error: SessionError::MissingEnvFile }
    }
}

/// A copy of a default-account list with the same accounts.
fn clone_accounts(v: &Vec<DefaultAccount>) -> (r: Vec<DefaultAccount>)
    ensures
        accounts_view(r@) == accounts_view(v@),
{
    let mut r: Vec<DefaultAccount> = Vec::new();
    let n: usize = v.len();
    let mut i: usize = 0;
    while i < n
        invariant
            i <= n,
            n == v@.len(),
            accounts_view(r@) == accounts_view(v@).take(i as int),
        decreases n - i,
    {
        let ghost prev = r@;
        let a = v[i].clone_account();
        let ghost av = a@;
        r.push(a);
        proof {
            assert(r@ == prev.push(r@[prev.len() as int]));
            assert(accounts_view(r@) =~= accounts_view(prev).push(av));
            assert(accounts_view(v@).take(i + 1) =~= accounts_view(v@).take(i as int).push(av));
        }
        i = i + 1;
    }
    proof {
        assert(accounts_view(v@).take(n as int) =~= accounts_view(v@));
    }
    r
}

/// Performs one transition of the session state machine: hands the
/// current state the event it awaits and yields the next state, as the
/// transition relation prescribes.
pub fn step(state: SessionState, event: Event) -> (next: SessionState)
    requires
        event_matches(state, event),
    ensures
        spec_step(state, event, next),
{
    match (state, event) {
        (SessionState::Begin, Event::Start { staging_available, production_available }) => {
            SessionState::SelectEnvironment {
                options: available_environments(staging_available, production_available),
            }
        },
        (SessionState::SelectEnvironment { options }, Event::Line { input }) => {
            match resolve_menu_choice(input.as_str(), options.len(), RangePolicy::Reprompt) {
                MenuChoice::Chosen(i) => SessionState::LoadCatalog { environment: options[i] },
                MenuChoice::AskAgain => SessionState::SelectEnvironment { options },
                MenuChoice::AbortInvalid => SessionState::Failed {
                    error: SessionError::InvalidInput,
                },
                MenuChoice::AbortOutOfRange => vstd::pervasive::unreached(),
            }
        },
        (SessionState::LoadCatalog { environment: _ }, Event::Snapshot { env }) => {
            let catalog = crate::catalog::load_projects_from_env(&env);
            if catalog.len() == 0 {
                SessionState::Failed { error: SessionError::NoProjects }
            } else {
                SessionState::SelectProject { catalog }
            }
        },
        (SessionState::SelectProject { catalog }, Event::Line { input }) => {
            match resolve_menu_choice(input.as_str(), catalog.len(), RangePolicy::Fatal) {
                MenuChoice::Chosen(i) => {
                    let p = &catalog[i];
                    match build_auth_config(p) {
                        None => SessionState::Failed { error: SessionError::UnrecognizedRegion },
                        Some(auth) => {
                            match &p.default_accounts {
                                Some(accs) => SessionState::SelectCredentials {
                                    auth,
                                    accounts: clone_accounts(accs),
                                },
                                None => SessionState::EnterCredentials { auth },
                            }
                        },
                    }
                },
                MenuChoice::AskAgain => vstd::pervasive::unreached(),
                MenuChoice::AbortInvalid => SessionState::Failed {
                    error: SessionError::InvalidInput,
                },
                MenuChoice::AbortOutOfRange => SessionState::Failed {
                    error: SessionError::InvalidProjectSelection,
                },
            }
        },
        (SessionState::SelectCredentials { auth, accounts }, Event::Line { input }) => {
            match resolve_credential_choice(input.as_str(), accounts.len()) {
                CredentialChoice::UseAccount(i) => {
                    let username = accounts[i].username.clone();
                    let password = accounts[i].password.clone();
                    SessionState::Authenticate { auth, username, password }
                },
                CredentialChoice::EnterManually => SessionState::EnterCredentials { auth },
                CredentialChoice::AskAgain => SessionState::SelectCredentials { auth, accounts },
                CredentialChoice::AbortInvalid => SessionState::Failed {
                    error: SessionError::InvalidInput,
                },
            }
        },
        (SessionState::EnterCredentials { auth }, Event::Credentials { username, password }) => {
            let uc = chars_of(username.as_str());
            let ut = trim_exec(&uc);
            SessionState::Authenticate {
                auth,
                username: string_from_chars(&ut),
                password,
            }
        },
        (SessionState::Authenticate { .. }, Event::Outcome { outcome }) => {
            SessionState::ReportResult { outcome }
        },
        (SessionState::ReportResult { .. }, Event::Reported) => SessionState::ContinueOrQuit,
        (SessionState::ContinueOrQuit, Event::Line { input }) => {
            if continue_ends_session(input.as_str()) {
                SessionState::Done
            } else {
                SessionState::Begin
            }
        },
        _ => vstd::pervasive::unreached(),
    }
}

} // verus!
