//! Project discovery: scans an immutable environment snapshot for
//! `<NAME>_REGION` keys, confirms the required sibling keys, and builds
//! one typed configuration record per fully configured project.

use vstd::prelude::*;
use crate::accounts::{opt_accounts_view, parse_account_list, spec_account_list, DefaultAccount};
use crate::text::{chars_eq, chars_of, string_from_chars, subvec};

verus! {

/// A named set of identity-provider coordinates plus optional pre-filled
/// accounts, derived from a clustered group of environment variables
/// sharing a prefix.
pub struct ProjectConfig {
    pub name: String,
    pub region: String,
    pub pool_id: String,
    pub client_id: String,
    pub default_accounts: Option<Vec<DefaultAccount>>,
}

/// The mathematical model of a project configuration.
#[verifier::ext_equal]
pub struct ProjectView {
    pub name: Seq<char>,
    pub region: Seq<char>,
    pub pool_id: Seq<char>,
    pub client_id: Seq<char>,
    pub default_accounts: Option<Seq<(Seq<char>, Seq<char>)>>,
}

impl View for ProjectConfig {
    type V = ProjectView;

    open spec fn view(&self) -> ProjectView {
        ProjectView {
            name: self.name@,
            region: self.region@,
            pool_id: self.pool_id@,
            client_id: self.client_id@,
            default_accounts: opt_accounts_view(self.default_accounts),
        }
    }
}

/// The views of a sequence of project configurations.
pub open spec fn catalog_view(c: Seq<ProjectConfig>) -> Seq<ProjectView> {
    c.map_values(|p: ProjectConfig| p@)
}

/// The views of an environment snapshot's key/value pairs.
pub open spec fn env_view(e: Seq<(String, String)>) -> Seq<(Seq<char>, Seq<char>)> {
    e.map_values(|p: (String, String)| (p.0@, p.1@))
}

/// The suffix that marks a project-name candidate.
pub open spec fn region_suffix() -> Seq<char> {
    seq!['_', 'R', 'E', 'G', 'I', 'O', 'N']
}

/// The suffix of the required pool-id key.
pub open spec fn pool_suffix() -> Seq<char> {
    seq!['_', 'P', 'O', 'O', 'L', '_', 'I', 'D']
}

/// The suffix of the required client-id key.
pub open spec fn client_suffix() -> Seq<char> {
    seq!['_', 'C', 'L', 'I', 'E', 'N', 'T', '_', 'I', 'D']
}

/// The suffix of the optional account-list key.
pub open spec fn accounts_suffix() -> Seq<char> {
    seq![
        '_',
        'D',
        'E',
        'F',
        'A',
        'U',
        'L',
        'T',
        '_',
        'A',
        'C',
        'C',
        'O',
        'U',
        'N',
        'T',
        'S',
    ]
}

/// `s` ends with `suffix`.
pub open spec fn ends_with(s: Seq<char>, suffix: Seq<char>) -> bool {
    s.len() >= suffix.len() && s.skip(s.len() - suffix.len()) == suffix
}

/// Whether `s` ends with `suffix`.
pub fn ends_with_exec(s: &Vec<char>, suffix: &Vec<char>) -> (r: bool)
    ensures
        r == ends_with(s@, suffix@),
{
    if s.len() < suffix.len() {
        return false;
    }
    let tail = subvec(s, s.len() - suffix.len(), s.len());
    proof {
        assert(tail@ =~= s@.skip(s@.len() - suffix@.len()));
    }
    chars_eq(&tail, suffix)
}

/// The value of the first pair whose key is `key`, if any.
pub open spec fn lookup_first(env: Seq<(Seq<char>, Seq<char>)>, key: Seq<char>) -> Option<
    Seq<char>,
>
    decreases env.len(),
{
    if env.len() == 0 {
        None
    } else if env[0].0 == key {
        Some(env[0].1)
    } else {
        lookup_first(env.drop_first(), key)
    }
}

/// Looks up the value of the first pair whose key is `key`.
pub fn lookup_first_exec(env: &Vec<(String, String)>, key: &Vec<char>) -> (r: Option<String>)
    ensures
        match r {
            Some(v) => lookup_first(env_view(env@), key@) == Some(v@),
            None => lookup_first(env_view(env@), key@) is None,
        },
{
    let n: usize = env.len();
    let mut i: usize = 0;
    proof {
        assert(env_view(env@).skip(0) =~= env_view(env@));
    }
    while i < n
        invariant
            i <= n,
            n == env@.len(),
            lookup_first(env_view(env@), key@) == lookup_first(env_view(env@).skip(i as int), key@),
        decreases n - i,
    {
        proof {
            assert(env_view(env@).skip(i as int)[0] == (env@[i as int].0@, env@[i as int].1@));
        }
        let kc = chars_of(&env[i].0);
        if chars_eq(&kc, key) {
            return Some(env[i].1.clone());
        }
        proof {
            assert(env_view(env@).skip(i as int).drop_first() =~= env_view(env@).skip(i + 1));
        }
        i = i + 1;
    }
    proof {
        assert(env_view(env@).skip(n as int).len() == 0);
    }
    None
}

/// Some entry of `c` bears the name `name`.
pub open spec fn has_name(c: Seq<ProjectView>, name: Seq<char>) -> bool {
    exists|j: int| 0 <= j < c.len() && c[j].name == name
}

/// Whether some built entry bears the name `name`.
fn has_name_exec(out: &Vec<ProjectConfig>, name: &Vec<char>) -> (r: bool)
    ensures
        r == has_name(catalog_view(out@), name@),
{
    let n: usize = out.len();
    let mut j: usize = 0;
    while j < n
        invariant
            j <= n,
            n == out@.len(),
            forall|m: int| 0 <= m < j ==> catalog_view(out@)[m].name != name@,
        decreases n - j,
    {
        let nc = chars_of(&out[j].name);
        if chars_eq(&nc, name) {
            assert(catalog_view(out@)[j as int].name == name@);
            return true;
        }
        j = j + 1;
    }
    false
}

/// The optional account list of project `name`: the raw value of its
/// account-list key, where present and non-empty, run through the account
/// list parser; a parse failure yields no accounts, not an error.
pub open spec fn accounts_of(env: Seq<(Seq<char>, Seq<char>)>, name: Seq<char>) -> Option<
    Seq<(Seq<char>, Seq<char>)>,
> {
    match lookup_first(env, name + accounts_suffix()) {
        None => None,
        Some(raw) => if raw.len() == 0 {
            None
        } else {
            spec_account_list(raw)
        },
    }
}

/// The configuration record that project `name` takes from `env`.
pub open spec fn entry_for(env: Seq<(Seq<char>, Seq<char>)>, name: Seq<char>) -> ProjectView {
    ProjectView {
        name: name,
        region: lookup_first(env, name + region_suffix()).unwrap(),
        pool_id: lookup_first(env, name + pool_suffix()).unwrap(),
        client_id: lookup_first(env, name + client_suffix()).unwrap(),
        default_accounts: accounts_of(env, name),
    }
}

/// The catalog built from the first `n` pairs of `env`: each key ending in
/// the region suffix names a candidate; a candidate already seen is
/// collapsed; a candidate whose pool-id or client-id key is absent is
/// silently dropped.
pub open spec fn catalog_upto(env: Seq<(Seq<char>, Seq<char>)>, n: int) -> Seq<ProjectView>
    decreases n,
{
    if n <= 0 {
        Seq::empty()
    } else {
        let prev = catalog_upto(env, n - 1);
        let k = env[n - 1].0;
        let v = env[n - 1].1;
        if ends_with(k, region_suffix()) {
            let nm = k.take(k.len() - region_suffix().len());
            if !has_name(prev, nm) {
                match (lookup_first(env, nm + pool_suffix()), lookup_first(
                    env,
                    nm + client_suffix(),
                )) {
                    (Some(p), Some(c)) => prev.push(
                        ProjectView {
                            name: nm,
                            region: v,
                            pool_id: p,
                            client_id: c,
                            default_accounts: accounts_of(env, nm),
                        },
                    ),
                    _ => prev,
                }
            } else {
                prev
            }
        } else {
            prev
        }
    }
}

/// The project catalog discovered in an environment snapshot.
pub open spec fn spec_catalog(env: Seq<(Seq<char>, Seq<char>)>) -> Seq<ProjectView> {
    catalog_upto(env, env.len() as int)
}

fn region_suffix_exec() -> (r: Vec<char>)
    ensures
        r@ == region_suffix(),
{
    let mut v: Vec<char> = Vec::new();
    v.push('_');
    v.push('R');
    v.push('E');
    v.push('G');
    v.push('I');
    v.push('O');
    v.push('N');
    proof {
        assert(v@ =~= region_suffix());
    }
    v
}

fn pool_suffix_exec() -> (r: Vec<char>)
    ensures
        r@ == pool_suffix(),
{
    let mut v: Vec<char> = Vec::new();
    v.push('_');
    v.push('P');
    v.push('O');
    v.push('O');
    v.push('L');
    v.push('_');
    v.push('I');
    v.push('D');
    proof {
        assert(v@ =~= pool_suffix());
    }
    v
}

fn client_suffix_exec() -> (r: Vec<char>)
    ensures
        r@ == client_suffix(),
{
    let mut v: Vec<char> = Vec::new();
    v.push('_');
    v.push('C');
    v.push('L');
    v.push('I');
    v.push('E');
    v.push('N');
    v.push('T');
    v.push('_');
    v.push('I');
    v.push('D');
    proof {
        assert(v@ =~= client_suffix());
    }
    v
}

fn accounts_suffix_exec() -> (r: Vec<char>)
    ensures
        r@ == accounts_suffix(),
{
    let mut v: Vec<char> = Vec::new();
    v.push('_');
    v.push('D');
    v.push('E');
    v.push('F');
    v.push('A');
    v.push('U');
    v.push('L');
    v.push('T');
    v.push('_');
    v.push('A');
    v.push('C');
    v.push('C');
    v.push('O');
    v.push('U');
    v.push('N');
    v.push('T');
    v.push('S');
    proof {
        assert(v@ =~= accounts_suffix());
    }
    v
}

/// `name` followed by `suffix`, as one key.
fn concat_key(name: &Vec<char>, suffix: Vec<char>) -> (r: Vec<char>)
    ensures
        r@ == name@ + suffix@,
{
    let mut r = subvec(name, 0, name.len());
    let mut s = suffix;
    proof {
        assert(r@ =~= name@);
    }
    r.append(&mut s);
    r
}

/// Builds the project catalog from an environment snapshot: every key
/// ending in `_REGION` names a candidate project; the candidate becomes a
/// catalog entry exactly where both its `_POOL_ID` and `_CLIENT_ID` keys
/// are present; its `_DEFAULT_ACCOUNTS` value, where present and
/// non-empty, is parsed into default accounts, a failure leaving the entry
/// without them.
pub fn load_projects_from_env(env: &Vec<(String, String)>) -> (r: Vec<ProjectConfig>)
    ensures
        catalog_view(r@) == spec_catalog(env_view(env@)),
{
    let ghost ev = env_view(env@);
    let n: usize = env.len();
    let mut out: Vec<ProjectConfig> = Vec::new();
    let mut i: usize = 0;
    while i < n
        invariant
            i <= n,
            n == env@.len(),
            ev == env_view(env@),
            catalog_view(out@) == catalog_upto(ev, i as int),
        decreases n - i,
    {
        proof {
            assert(ev[i as int] == (env@[i as int].0@, env@[i as int].1@));
        }
        let kc = chars_of(&env[i].0);
        let rsuf = region_suffix_exec();
        if ends_with_exec(&kc, &rsuf) {
            let name = subvec(&kc, 0, kc.len() - rsuf.len());
            proof {
                assert(name@ =~= ev[i as int].0.take(
                    ev[i as int].0.len() - region_suffix().len(),
                ));
            }
            if !has_name_exec(&out, &name) {
                let pool_key = concat_key(&name, pool_suffix_exec());
                let client_key = concat_key(&name, client_suffix_exec());
                let pool = lookup_first_exec(env, &pool_key);
                let client = lookup_first_exec(env, &client_key);
                match (pool, client) {
                    (Some(p), Some(c)) => {
                        let accounts_key = concat_key(&name, accounts_suffix_exec());
                        let default_accounts: Option<Vec<DefaultAccount>> = match
                            lookup_first_exec(env, &accounts_key) {
                            None => None,
                            Some(raw) => {
                                let raw_chars = chars_of(raw.as_str());
                                if raw_chars.len() == 0 {
                                    None
                                } else {
                                    parse_account_list(raw.as_str())
                                }
                            },
                        };
                        let entry = ProjectConfig {
                            name: string_from_chars(&name),
                            region: env[i].1.clone(),
                            pool_id: p,
                            client_id: c,
                            default_accounts,
                        };
                        let ghost ventry = entry@;
                        let ghost prev = out@;
                        out.push(entry);
                        proof {
                            assert(out@ == prev.push(out@[prev.len() as int]));
                            assert(ventry.default_accounts == accounts_of(ev, name@));
                            assert(catalog_view(out@) =~= catalog_view(prev).push(ventry));
                            assert(catalog_upto(ev, i + 1) == catalog_upto(ev, i as int).push(
                                ventry,
                            ));
                        }
                    },
                    _ => {
                        proof {
                            assert(catalog_upto(ev, i + 1) == catalog_upto(ev, i as int));
                        }
                    },
                }
            } else {
                proof {
                    assert(catalog_upto(ev, i + 1) == catalog_upto(ev, i as int));
                }
            }
        } else {
            proof {
                assert(catalog_upto(ev, i + 1) == catalog_upto(ev, i as int));
            }
        }
        i = i + 1;
    }
    out
}

proof fn lemma_append_cancel(a: Seq<char>, b: Seq<char>, s: Seq<char>)
    requires
        a + s == b + s,
    ensures
        a == b,
{
    assert((a + s).len() == (b + s).len());
    assert(a =~= (a + s).take(a.len() as int));
    assert(b =~= (b + s).take(b.len() as int));
}

proof fn lemma_ends_with_append(a: Seq<char>, s: Seq<char>)
    ensures
        ends_with(a + s, s),
        (a + s).take((a + s).len() - s.len()) == a,
{
    assert((a + s).skip((a + s).len() - s.len()) =~= s);
    assert((a + s).take((a + s).len() - s.len()) =~= a);
}

proof fn lemma_lookup_first_at(env: Seq<(Seq<char>, Seq<char>)>, key: Seq<char>, m: int)
    requires
        0 <= m < env.len(),
        env[m].0 == key,
        forall|i: int| 0 <= i < m ==> env[i].0 != key,
    ensures
        lookup_first(env, key) == Some(env[m].1),
    decreases m,
{
    if m == 0 {
    } else {
        assert(env[0].0 != key);
        lemma_lookup_first_at(env.drop_first(), key, m - 1);
        assert(env.drop_first()[m - 1] == env[m]);
    }
}

proof fn lemma_lookup_first_index(env: Seq<(Seq<char>, Seq<char>)>, key: Seq<char>)
    requires
        lookup_first(env, key) is Some,
    ensures
        exists|i: int| 0 <= i < env.len() && (#[trigger] env[i]).0 == key,
    decreases env.len(),
{
    if env.len() > 0 && env[0].0 != key {
        lemma_lookup_first_index(env.drop_first(), key);
        let i0 = choose|i: int| 0 <= i < env.drop_first().len() && (#[trigger] env.drop_first()[i]).0
            == key;
        assert(env[i0 + 1].0 == key);
    }
}

/// The shape of every catalog prefix: each entry is the record its name
/// takes from the environment, names are distinct, and a name is present
/// exactly where a region key for it stands among the first `n` pairs and
/// both required sibling keys resolve.
proof fn lemma_catalog_upto_props(env: Seq<(Seq<char>, Seq<char>)>, n: int)
    requires
        0 <= n <= env.len(),
    ensures
        forall|j: int| 0 <= j < catalog_upto(env, n).len() ==> #[trigger] catalog_upto(env, n)[j]
            == entry_for(env, catalog_upto(env, n)[j].name),
        forall|j1: int, j2: int|
            0 <= j1 < j2 < catalog_upto(env, n).len() ==> (#[trigger] catalog_upto(env, n)[j1]).name
                != (#[trigger] catalog_upto(env, n)[j2]).name,
        forall|name: Seq<char>| #[trigger] has_name(catalog_upto(env, n), name) <==> ((exists|
            i: int,
        | 0 <= i < n && (#[trigger] env[i]).0 == name + region_suffix()) && lookup_first(
            env,
            name + pool_suffix(),
        ) is Some && lookup_first(env, name + client_suffix()) is Some),
    decreases n,
{
    if n <= 0 {
        assert forall|name: Seq<char>| !has_name(catalog_upto(env, 0), name) by {}
    } else {
        lemma_catalog_upto_props(env, n - 1);
        let prev = catalog_upto(env, n - 1);
        let cur = catalog_upto(env, n);
        let k = env[n - 1].0;
        let v = env[n - 1].1;
        if ends_with(k, region_suffix()) {
            let nm = k.take(k.len() - region_suffix().len());
            assert(nm + region_suffix() =~= k);
            if !has_name(prev, nm) {
                match (lookup_first(env, nm + pool_suffix()), lookup_first(
                    env,
                    nm + client_suffix(),
                )) {
                    (Some(p), Some(c)) => {
                        // The pair at `n - 1` is the first with this key:
                        // an earlier one would already have put the name
                        // into the catalog.
                        assert forall|i: int| 0 <= i < n - 1 implies (#[trigger] env[i]).0 != k by {
                            if env[i].0 == k {
                                assert(has_name(prev, nm));
                            }
                        }
                        lemma_lookup_first_at(env, k, n - 1);
                        let e = cur.last();
                        assert(cur == prev.push(e));
                        assert(e == entry_for(env, nm)) by {
                            assert(lookup_first(env, nm + region_suffix()) == Some(v));
                        }
                        assert forall|j: int| 0 <= j < cur.len() implies #[trigger] cur[j]
                            == entry_for(env, cur[j].name) by {
                            if j < prev.len() {
                                assert(cur[j] == prev[j]);
                            }
                        }
                        assert forall|name: Seq<char>| #[trigger] has_name(cur, name) <==> ((exists|
                            i: int,
                        | 0 <= i < n && (#[trigger] env[i]).0 == name + region_suffix())
                            && lookup_first(env, name + pool_suffix()) is Some && lookup_first(
                            env,
                            name + client_suffix(),
                        ) is Some) by {
                            if name == nm {
                                assert(cur[cur.len() - 1].name == name);
                                assert(has_name(cur, name));
                                assert(env[n - 1].0 == name + region_suffix());
                            } else {
                                if has_name(cur, name) {
                                    let j = choose|j: int|
                                        0 <= j < cur.len() && cur[j].name == name;
                                    assert(cur[j] == prev[j]);
                                    assert(has_name(prev, name));
                                }
                                if has_name(prev, name) {
                                    let j = choose|j: int|
                                        0 <= j < prev.len() && prev[j].name == name;
                                    assert(cur[j].name == name);
                                    assert(has_name(cur, name));
                                }
                                if exists|i: int|
                                    0 <= i < n && (#[trigger] env[i]).0 == name + region_suffix() {
                                    let i = choose|i: int|
                                        0 <= i < n && (#[trigger] env[i]).0 == name
                                            + region_suffix();
                                    if i == n - 1 {
                                        lemma_append_cancel(name, nm, region_suffix());
                                        assert(false);
                                    }
                                }
                            }
                        }
                    },
                    _ => {
                        assert(cur == prev);
                        lemma_step_same(env, n, nm);
                    },
                }
            } else {
                assert(cur == prev);
                lemma_step_same(env, n, nm);
            }
        } else {
            assert(cur == prev);
            assert forall|name: Seq<char>| #[trigger] has_name(cur, name) <==> ((exists|i: int|
                0 <= i < n && (#[trigger] env[i]).0 == name + region_suffix()) && lookup_first(
                env,
                name + pool_suffix(),
            ) is Some && lookup_first(env, name + client_suffix()) is Some) by {
                if exists|i: int| 0 <= i < n && (#[trigger] env[i]).0 == name + region_suffix() {
                    let i = choose|i: int|
                        0 <= i < n && (#[trigger] env[i]).0 == name + region_suffix();
                    if i == n - 1 {
                        lemma_ends_with_append(name, region_suffix());
                        assert(false);
                    }
                }
            }
        }
    }
}

/// An environment snapshot holding a region, a pool-id and a client-id
/// key for `name` yields a catalog with exactly one entry named `name`,
/// and that entry carries those three values.
pub proof fn lemma_project_discovered(
    env: Seq<(Seq<char>, Seq<char>)>,
    name: Seq<char>,
    region: Seq<char>,
    pool: Seq<char>,
    client: Seq<char>,
)
    requires
        lookup_first(env, name + region_suffix()) == Some(region),
        lookup_first(env, name + pool_suffix()) == Some(pool),
        lookup_first(env, name + client_suffix()) == Some(client),
    ensures
        has_name(spec_catalog(env), name),
        forall|j1: int, j2: int|
            0 <= j1 < j2 < spec_catalog(env).len() ==> !((#[trigger] spec_catalog(env)[j1]).name
                == name && (#[trigger] spec_catalog(env)[j2]).name == name),
        forall|j: int|
            0 <= j < spec_catalog(env).len() && (#[trigger] spec_catalog(env)[j]).name == name
                ==> spec_catalog(env)[j].region == region && spec_catalog(env)[j].pool_id == pool
                && spec_catalog(env)[j].client_id == client && spec_catalog(env)[j]
                == entry_for(env, name),
{
    lemma_catalog_upto_props(env, env.len() as int);
    lemma_lookup_first_index(env, name + region_suffix());
}

/// A project whose pool-id or client-id key is absent stands nowhere in
/// the catalog, whatever its region key holds.
pub proof fn lemma_project_excluded(env: Seq<(Seq<char>, Seq<char>)>, name: Seq<char>)
    requires
        lookup_first(env, name + pool_suffix()) is None || lookup_first(
            env,
            name + client_suffix(),
        ) is None,
    ensures
        !has_name(spec_catalog(env), name),
{
    lemma_catalog_upto_props(env, env.len() as int);
}

/// In the step cases where the catalog does not change, carries the
/// presence condition from `n - 1` to `n`: the new pair's key is the
/// region key of `nm` alone.
proof fn lemma_step_same(env: Seq<(Seq<char>, Seq<char>)>, n: int, nm: Seq<char>)
    requires
        0 < n <= env.len(),
        env[n - 1].0 == nm + region_suffix(),
        has_name(catalog_upto(env, n - 1), nm) || lookup_first(env, nm + pool_suffix()) is None
            || lookup_first(env, nm + client_suffix()) is None,
        forall|name: Seq<char>| #[trigger] has_name(catalog_upto(env, n - 1), name) <==> ((exists|
            i: int,
        | 0 <= i < n - 1 && (#[trigger] env[i]).0 == name + region_suffix()) && lookup_first(
            env,
            name + pool_suffix(),
        ) is Some && lookup_first(env, name + client_suffix()) is Some),
        catalog_upto(env, n) == catalog_upto(env, n - 1),
    ensures
        forall|name: Seq<char>| #[trigger] has_name(catalog_upto(env, n), name) <==> ((exists|
            i: int,
        | 0 <= i < n && (#[trigger] env[i]).0 == name + region_suffix()) && lookup_first(
            env,
            name + pool_suffix(),
        ) is Some && lookup_first(env, name + client_suffix()) is Some),
{
    let cur = catalog_upto(env, n);
    assert forall|name: Seq<char>| #[trigger] has_name(cur, name) <==> ((exists|i: int|
        0 <= i < n && (#[trigger] env[i]).0 == name + region_suffix()) && lookup_first(
        env,
        name + pool_suffix(),
    ) is Some && lookup_first(env, name + client_suffix()) is Some) by {
        if name == nm {
            if lookup_first(env, name + pool_suffix()) is Some && lookup_first(
                env,
                name + client_suffix(),
            ) is Some {
                assert(has_name(catalog_upto(env, n - 1), nm));
                assert(env[n - 1].0 == name + region_suffix());
            }
        } else {
            if exists|i: int| 0 <= i < n && (#[trigger] env[i]).0 == name + region_suffix() {
                let i = choose|i: int|
                    0 <= i < n && (#[trigger] env[i]).0 == name + region_suffix();
                if i == n - 1 {
                    lemma_append_cancel(name, nm, region_suffix());
                    assert(false);
                }
            }
        }
    }
}

} // verus!
