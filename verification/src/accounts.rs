//! Account-list parsing: a structured JSON decode with a fallback to a
//! permissive custom format, all-or-nothing per list.

use vstd::prelude::*;
use crate::text::{
    chars_of, split_on, split_on_exec, split_once_at, split_once_exec, string_from_chars, subvec,
    views_of,
};

verus! {

/// A pre-configured username/password pair offered as a quick-select
/// option instead of manual entry.
pub struct DefaultAccount {
    pub username: String,
    pub password: String,
}

impl View for DefaultAccount {
    type V = (Seq<char>, Seq<char>);

    open spec fn view(&self) -> (Seq<char>, Seq<char>) {
        (self.username@, self.password@)
    }
}

impl DefaultAccount {
    /// A copy of this account with the same username and password.
    pub fn clone_account(&self) -> (r: DefaultAccount)
        ensures
            r@ == self@,
    {
        DefaultAccount { username: self.username.clone(), password: self.password.clone() }
    }
}

/// The views of a sequence of accounts.
pub open spec fn accounts_view(v: Seq<DefaultAccount>) -> Seq<(Seq<char>, Seq<char>)> {
    v.map_values(|a: DefaultAccount| a@)
}

/// The views of an optional sequence of accounts.
pub open spec fn opt_accounts_view(r: Option<Vec<DefaultAccount>>) -> Option<
    Seq<(Seq<char>, Seq<char>)>,
> {
    match r {
        Some(v) => Some(accounts_view(v@)),
        None => None,
    }
}

/// `s` without one leading `c`, where present.
pub open spec fn strip_lead(s: Seq<char>, c: char) -> Seq<char> {
    if s.len() > 0 && s[0] == c {
        s.skip(1)
    } else {
        s
    }
}

/// `s` without one trailing `c`, where present.
pub open spec fn strip_trail(s: Seq<char>, c: char) -> Seq<char> {
    if s.len() > 0 && s.last() == c {
        s.take(s.len() - 1)
    } else {
        s
    }
}

/// A value without one layer of surrounding double quotes.
pub open spec fn strip_quotes(s: Seq<char>) -> Seq<char> {
    strip_trail(strip_lead(s, '"'), '"')
}

/// `s` without one leading `lead` and one trailing `trail`, where present.
pub fn strip_pair_exec(s: &Vec<char>, lead: char, trail: char) -> (r: Vec<char>)
    ensures
        r@ == strip_trail(strip_lead(s@, lead), trail),
{
    let n: usize = s.len();
    let lo: usize = if n > 0 && s[0] == lead {
        1
    } else {
        0
    };
    let mid = subvec(s, lo, n);
    proof {
        assert(mid@ =~= strip_lead(s@, lead));
    }
    let m: usize = mid.len();
    let hi: usize = if m > 0 && mid[m - 1] == trail {
        m - 1
    } else {
        m
    };
    let r = subvec(&mid, 0, hi);
    proof {
        assert(r@ =~= strip_trail(mid@, trail));
    }
    r
}

/// The key of the `username` field.
pub open spec fn username_key() -> Seq<char> {
    seq!['u', 's', 'e', 'r', 'n', 'a', 'm', 'e']
}

/// The key of the `password` field.
pub open spec fn password_key() -> Seq<char> {
    seq!['p', 'a', 's', 's', 'w', 'o', 'r', 'd']
}

/// The value of the last field named `key`, if any.
pub open spec fn lookup_last(fields: Seq<(Seq<char>, Seq<char>)>, key: Seq<char>) -> Option<
    Seq<char>,
>
    decreases fields.len(),
{
    if fields.len() == 0 {
        None
    } else if fields.last().0 == key {
        Some(fields.last().1)
    } else {
        lookup_last(fields.drop_last(), key)
    }
}

/// Looks up the value of the last field named `key`.
pub fn lookup_last_exec(fields: &Vec<(Vec<char>, Vec<char>)>, key: &Vec<char>) -> (r: Option<
    Vec<char>,
>)
    ensures
        match r {
            Some(v) => lookup_last(fields_view(fields@), key@) == Some(v@),
            None => lookup_last(fields_view(fields@), key@) is None,
        },
{
    let mut i: usize = fields.len();
    proof {
        assert(fields_view(fields@).take(i as int) =~= fields_view(fields@));
    }
    while i > 0
        invariant
            i <= fields@.len(),
            lookup_last(fields_view(fields@), key@) == lookup_last(
                fields_view(fields@).take(i as int),
                key@,
            ),
        decreases i,
    {
        i = i - 1;
        proof {
            assert(fields_view(fields@).take(i + 1).drop_last() =~= fields_view(fields@).take(
                i as int,
            ));
            assert(fields_view(fields@).take(i + 1).last() == (fields@[i as int].0@,
            fields@[i as int].1@));
        }
        if crate::text::chars_eq(&fields[i].0, key) {
            let v = subvec(&fields[i].1, 0, fields[i].1.len());
            proof {
                assert(v@ =~= fields@[i as int].1@);
            }
            return Some(v);
        }
    }
    proof {
        assert(fields_view(fields@).take(0) =~= Seq::<(Seq<char>, Seq<char>)>::empty());
    }
    None
}

/// The views of a sequence of field pairs.
pub open spec fn fields_view(v: Seq<(Vec<char>, Vec<char>)>) -> Seq<(Seq<char>, Seq<char>)> {
    v.map_values(|p: (Vec<char>, Vec<char>)| (p.0@, p.1@))
}

/// The key/value fields read from the fragments of one chunk: each
/// fragment is split at its first `:`; a fragment with no `:` is dropped.
pub open spec fn fields_of(frags: Seq<Seq<char>>) -> Seq<(Seq<char>, Seq<char>)>
    decreases frags.len(),
{
    if frags.len() == 0 {
        Seq::empty()
    } else {
        fields_of(frags.drop_last()) + (match split_once_at(frags.last(), ':') {
            Some(kv) => seq![kv],
            None => Seq::<(Seq<char>, Seq<char>)>::empty(),
        })
    }
}

/// Reads the key/value fields of one chunk's fragments.
pub fn fields_of_exec(frags: &Vec<Vec<char>>) -> (r: Vec<(Vec<char>, Vec<char>)>)
    ensures
        fields_view(r@) == fields_of(views_of(frags@)),
{
    let mut r: Vec<(Vec<char>, Vec<char>)> = Vec::new();
    let n: usize = frags.len();
    let mut i: usize = 0;
    while i < n
        invariant
            i <= n,
            n == frags@.len(),
            fields_view(r@) == fields_of(views_of(frags@).take(i as int)),
        decreases n - i,
    {
        proof {
            assert(views_of(frags@).take(i + 1).drop_last() =~= views_of(frags@).take(i as int));
            assert(views_of(frags@).take(i + 1).last() == frags@[i as int]@);
        }
        match split_once_exec(&frags[i], ':') {
            Some(kv) => {
                r.push(kv);
                proof {
                    assert(fields_view(r@) =~= fields_of(views_of(frags@).take(i + 1)));
                }
            },
            None => {
                proof {
                    assert(fields_view(r@) =~= fields_of(views_of(frags@).take(i + 1)));
                }
            },
        }
        i = i + 1;
    }
    proof {
        assert(views_of(frags@).take(n as int) =~= views_of(frags@));
    }
    r
}

/// One account read from one custom-format chunk: the chunk without its
/// braces is split on `,` into fragments, the fragments into fields, and
/// both the `username` and the `password` field must be present; their
/// values lose one layer of surrounding quotes.
pub open spec fn parse_chunk(chunk: Seq<char>) -> Option<(Seq<char>, Seq<char>)> {
    let inner = strip_trail(strip_lead(chunk, '{'), '}');
    let fields = fields_of(split_on(inner, seq![',']));
    match (lookup_last(fields, username_key()), lookup_last(fields, password_key())) {
        (Some(u), Some(p)) => Some((strip_quotes(u), strip_quotes(p))),
        _ => None,
    }
}

/// Reads one account from one custom-format chunk.
pub fn parse_chunk_exec(chunk: &Vec<char>) -> (r: Option<DefaultAccount>)
    ensures
        match r {
            Some(a) => parse_chunk(chunk@) == Some(a@),
            None => parse_chunk(chunk@) is None,
        },
{
    let inner = strip_pair_exec(chunk, '{', '}');
    let mut comma: Vec<char> = Vec::new();
    comma.push(',');
    proof {
        assert(comma@ =~= seq![',']);
    }
    let frags = split_on_exec(&inner, &comma);
    let fields = fields_of_exec(&frags);
    let mut ukey: Vec<char> = Vec::new();
    ukey.push('u');
    ukey.push('s');
    ukey.push('e');
    ukey.push('r');
    ukey.push('n');
    ukey.push('a');
    ukey.push('m');
    ukey.push('e');
    proof {
        assert(ukey@ =~= username_key());
    }
    let mut pkey: Vec<char> = Vec::new();
    pkey.push('p');
    pkey.push('a');
    pkey.push('s');
    pkey.push('s');
    pkey.push('w');
    pkey.push('o');
    pkey.push('r');
    pkey.push('d');
    proof {
        assert(pkey@ =~= password_key());
    }
    let u = lookup_last_exec(&fields, &ukey);
    let p = lookup_last_exec(&fields, &pkey);
    match (u, p) {
        (Some(uv), Some(pv)) => {
            let uq = strip_pair_exec(&uv, '"', '"');
            let pq = strip_pair_exec(&pv, '"', '"');
            Some(
                DefaultAccount {
                    username: string_from_chars(&uq),
                    password: string_from_chars(&pq),
                },
            )
        },
        _ => None,
    }
}

/// The accounts read from all chunks, or nothing where any chunk fails:
/// no partial lists.
pub open spec fn parse_chunks(chunks: Seq<Seq<char>>) -> Option<Seq<(Seq<char>, Seq<char>)>>
    decreases chunks.len(),
{
    if chunks.len() == 0 {
        Some(Seq::empty())
    } else {
        match (parse_chunks(chunks.drop_last()), parse_chunk(chunks.last())) {
            (Some(rest), Some(a)) => Some(rest.push(a)),
            _ => None,
        }
    }
}

/// A failed prefix fails the whole chunk list.
proof fn lemma_parse_chunks_prefix_none(chunks: Seq<Seq<char>>, j: int)
    requires
        0 <= j <= chunks.len(),
        parse_chunks(chunks.take(j)) is None,
    ensures
        parse_chunks(chunks) is None,
    decreases chunks.len() - j,
{
    if j == chunks.len() {
        assert(chunks.take(j) =~= chunks);
    } else {
        assert(chunks.take(j + 1).drop_last() =~= chunks.take(j));
        lemma_parse_chunks_prefix_none(chunks, j + 1);
    }
}

/// The separator token `},{` between custom-format chunks.
pub open spec fn chunk_sep() -> Seq<char> {
    seq!['}', ',', '{']
}

/// The chunks of a custom-format account list: the input without one
/// leading `[` and one trailing `]`, split on the literal token `},{`.
pub open spec fn custom_chunks(input: Seq<char>) -> Seq<Seq<char>> {
    split_on(strip_trail(strip_lead(input, '['), ']'), chunk_sep())
}

/// The accounts read from `input` in the permissive custom format, or
/// nothing where the parse fails.
pub open spec fn spec_parse_custom(input: Seq<char>) -> Option<Seq<(Seq<char>, Seq<char>)>> {
    parse_chunks(custom_chunks(input))
}

/// Reads an account list in the permissive custom format
/// `[{key:value,...},{...}]`: one leading `[` and one trailing `]` are
/// stripped, the rest is split on the literal token `},{`, and each chunk
/// must yield both a `username` and a `password`; any failing chunk fails
/// the whole list.
pub fn parse_custom_format(input: &str) -> (r: Option<Vec<DefaultAccount>>)
    ensures
        opt_accounts_view(r) == spec_parse_custom(input@),
{
    let cs = chars_of(input);
    let inner = strip_pair_exec(&cs, '[', ']');
    let mut sep: Vec<char> = Vec::new();
    sep.push('}');
    sep.push(',');
    sep.push('{');
    proof {
        assert(sep@ =~= chunk_sep());
    }
    let chunks = split_on_exec(&inner, &sep);
    let ghost chunk_views = custom_chunks(input@);
    proof {
        assert(views_of(chunks@) == chunk_views);
    }
    let n: usize = chunks.len();
    let mut out: Vec<DefaultAccount> = Vec::new();
    let mut i: usize = 0;
    while i < n
        invariant
            i <= n,
            n == chunks@.len(),
            chunk_views == views_of(chunks@),
            chunk_views == custom_chunks(input@),
            parse_chunks(chunk_views.take(i as int)) == Some(accounts_view(out@)),
        decreases n - i,
    {
        proof {
            assert(chunk_views.take(i + 1).drop_last() =~= chunk_views.take(i as int));
            assert(chunk_views.take(i + 1).last() == chunks@[i as int]@);
        }
        match parse_chunk_exec(&chunks[i]) {
            Some(a) => {
                let ghost prev = out@;
                let ghost av = a@;
                out.push(a);
                proof {
                    assert(out@ == prev.push(out@[prev.len() as int]));
                    assert(accounts_view(out@) =~= accounts_view(prev).push(av));
                }
            },
            None => {
                proof {
                    lemma_parse_chunks_prefix_none(chunk_views, i + 1);
                }
                return None;
            },
        }
        i = i + 1;
    }
    proof {
        assert(chunk_views.take(n as int) =~= chunk_views);
    }
    Some(out)
}

/// What the structured JSON decode of an account-list string returns: the
/// array of objects, each object its fields in decode order, a field value
/// that is not a JSON string marked absent; or nothing where the string is
/// not such an array.
pub uninterp spec fn json_object_array(s: Seq<char>) -> Option<
    Seq<Seq<(Seq<char>, Option<Seq<char>>)>>,
>;

/// The views of a sequence of decoded JSON objects.
pub open spec fn objs_view(v: Seq<Vec<(String, Option<String>)>>) -> Seq<
    Seq<(Seq<char>, Option<Seq<char>>)>,
> {
    v.map_values(
        |o: Vec<(String, Option<String>)>|
            o@.map_values(
                |p: (String, Option<String>)|
                    (
                        p.0@,
                        match p.1 {
                            Some(t) => Some(t@),
                            None => None,
                        },
                    ),
            ),
    )
}

/// Relies on `serde_json::from_str`: decoding a JSON array of objects
/// whose values it reads, a result that depends on the input characters
/// alone.
#[verifier::external_body]
fn json_decode_objects(s: &str) -> (r: Option<Vec<Vec<(String, Option<String>)>>>)
    ensures
        match r {
            Some(objs) => json_object_array(s@) == Some(objs_view(objs@)),
            None => json_object_array(s@) is None,
        },
{
    let to_field = |(k, v): (String, serde_json::Value)| match v {
        serde_json::Value::String(t) => (k, Some(t)),
        _ => (k, None),
    };
    match serde_json::from_str::<Vec<std::collections::BTreeMap<String, serde_json::Value>>>(s) {
        Ok(objs) => Some(objs.into_iter().map(|m| m.into_iter().map(to_field).collect()).collect()),
        Err(_) => None,
    }
}

/// The value of the last field named `key` of one decoded JSON object,
/// where that value is a JSON string.
pub open spec fn json_lookup(obj: Seq<(Seq<char>, Option<Seq<char>>)>, key: Seq<char>) -> Option<
    Option<Seq<char>>,
>
    decreases obj.len(),
{
    if obj.len() == 0 {
        None
    } else if obj.last().0 == key {
        Some(obj.last().1)
    } else {
        json_lookup(obj.drop_last(), key)
    }
}

/// One account read from one decoded JSON object: both the `username` and
/// the `password` field must be present and hold strings.
pub open spec fn extract_account(obj: Seq<(Seq<char>, Option<Seq<char>>)>) -> Option<
    (Seq<char>, Seq<char>),
> {
    match (json_lookup(obj, username_key()), json_lookup(obj, password_key())) {
        (Some(Some(u)), Some(Some(p))) => Some((u, p)),
        _ => None,
    }
}

/// The accounts read from all decoded JSON objects, or nothing where any
/// object fails: no partial lists.
pub open spec fn extract_accounts(objs: Seq<Seq<(Seq<char>, Option<Seq<char>>)>>) -> Option<
    Seq<(Seq<char>, Seq<char>)>,
>
    decreases objs.len(),
{
    if objs.len() == 0 {
        Some(Seq::empty())
    } else {
        match (extract_accounts(objs.drop_last()), extract_account(objs.last())) {
            (Some(rest), Some(a)) => Some(rest.push(a)),
            _ => None,
        }
    }
}

/// A failed prefix fails the whole object list.
proof fn lemma_extract_prefix_none(objs: Seq<Seq<(Seq<char>, Option<Seq<char>>)>>, j: int)
    requires
        0 <= j <= objs.len(),
        extract_accounts(objs.take(j)) is None,
    ensures
        extract_accounts(objs) is None,
    decreases objs.len() - j,
{
    if j == objs.len() {
        assert(objs.take(j) =~= objs);
    } else {
        assert(objs.take(j + 1).drop_last() =~= objs.take(j));
        lemma_extract_prefix_none(objs, j + 1);
    }
}

/// Looks up the string value of the last field named `key` of one decoded
/// JSON object.
fn json_lookup_exec(obj: &Vec<(String, Option<String>)>, key: &Vec<char>) -> (r: Option<
    Option<String>,
>)
    ensures
        match r {
            Some(Some(v)) => json_lookup(obj_view(obj@), key@) == Some(Some(v@)),
            Some(None) => json_lookup(obj_view(obj@), key@) == Some(None::<Seq<char>>),
            None => json_lookup(obj_view(obj@), key@) is None,
        },
{
    let mut i: usize = obj.len();
    proof {
        assert(obj_view(obj@).take(i as int) =~= obj_view(obj@));
    }
    while i > 0
        invariant
            i <= obj@.len(),
            json_lookup(obj_view(obj@), key@) == json_lookup(obj_view(obj@).take(i as int), key@),
        decreases i,
    {
        i = i - 1;
        proof {
            assert(obj_view(obj@).take(i + 1).drop_last() =~= obj_view(obj@).take(i as int));
            assert(obj_view(obj@).take(i + 1).last() == obj_view(obj@)[i as int]);
        }
        let k = chars_of(&obj[i].0);
        if crate::text::chars_eq(&k, key) {
            match &obj[i].1 {
                Some(v) => {
                    return Some(Some(v.clone()));
                },
                None => {
                    return Some(None);
                },
            }
        }
    }
    proof {
        assert(obj_view(obj@).take(0) =~= Seq::<(Seq<char>, Option<Seq<char>>)>::empty());
    }
    None
}

/// The view of one decoded JSON object.
pub open spec fn obj_view(o: Seq<(String, Option<String>)>) -> Seq<
    (Seq<char>, Option<Seq<char>>),
> {
    o.map_values(
        |p: (String, Option<String>)|
            (
                p.0@,
                match p.1 {
                    Some(t) => Some(t@),
                    None => None,
                },
            ),
    )
}

/// Reads the accounts of all decoded JSON objects, all or nothing.
fn extract_accounts_exec(objs: &Vec<Vec<(String, Option<String>)>>) -> (r: Option<
    Vec<DefaultAccount>,
>)
    ensures
        opt_accounts_view(r) == extract_accounts(objs_view(objs@)),
{
    let mut ukey: Vec<char> = Vec::new();
    ukey.push('u');
    ukey.push('s');
    ukey.push('e');
    ukey.push('r');
    ukey.push('n');
    ukey.push('a');
    ukey.push('m');
    ukey.push('e');
    proof {
        assert(ukey@ =~= username_key());
    }
    let mut pkey: Vec<char> = Vec::new();
    pkey.push('p');
    pkey.push('a');
    pkey.push('s');
    pkey.push('s');
    pkey.push('w');
    pkey.push('o');
    pkey.push('r');
    pkey.push('d');
    proof {
        assert(pkey@ =~= password_key());
    }
    let ghost ov = objs_view(objs@);
    let n: usize = objs.len();
    let mut out: Vec<DefaultAccount> = Vec::new();
    let mut i: usize = 0;
    while i < n
        invariant
            i <= n,
            n == objs@.len(),
            ov == objs_view(objs@),
            ukey@ == username_key(),
            pkey@ == password_key(),
            extract_accounts(ov.take(i as int)) == Some(accounts_view(out@)),
        decreases n - i,
    {
        proof {
            assert(ov.take(i + 1).drop_last() =~= ov.take(i as int));
            assert(ov.take(i + 1).last() == ov[i as int]);
            assert(ov[i as int] =~= obj_view(objs@[i as int]@));
        }
        let u = json_lookup_exec(&objs[i], &ukey);
        let p = json_lookup_exec(&objs[i], &pkey);
        match (u, p) {
            (Some(Some(uv)), Some(Some(pv))) => {
                let a = DefaultAccount { username: uv, password: pv };
                let ghost prev = out@;
                let ghost av = a@;
                out.push(a);
                proof {
                    assert(out@ == prev.push(out@[prev.len() as int]));
                    assert(accounts_view(out@) =~= accounts_view(prev).push(av));
                }
            },
            _ => {
                proof {
                    lemma_extract_prefix_none(ov, i + 1);
                }
                return None;
            },
        }
        i = i + 1;
    }
    proof {
        assert(ov.take(n as int) =~= ov);
    }
    Some(out)
}

/// The accounts read from a raw account-list value: the structured JSON
/// decode is tried first and wins where it yields accounts; otherwise the
/// permissive custom format is tried; where both fail, nothing.
pub open spec fn spec_account_list(raw: Seq<char>) -> Option<Seq<(Seq<char>, Seq<char>)>> {
    let json = match json_object_array(raw) {
        Some(objs) => extract_accounts(objs),
        None => None,
    };
    match json {
        Some(a) => Some(a),
        None => spec_parse_custom(raw),
    }
}

/// Reads a raw account-list value: first as structured JSON, then, where
/// that fails, in the permissive custom format.
pub fn parse_account_list(raw: &str) -> (r: Option<Vec<DefaultAccount>>)
    ensures
        opt_accounts_view(r) == spec_account_list(raw@),
{
    match json_decode_objects(raw) {
        Some(objs) => {
            match extract_accounts_exec(&objs) {
                Some(v) => Some(v),
                None => parse_custom_format(raw),
            }
        },
        None => parse_custom_format(raw),
    }
}

/// The fallback order of the two formats is a contract: the structured
/// decode is always tried first and wins wherever it yields accounts; the
/// permissive custom format decides only where the structured path fails.
pub proof fn lemma_structured_format_wins(raw: Seq<char>)
    ensures
        (json_object_array(raw) matches Some(objs) && extract_accounts(objs) is Some)
            ==> spec_account_list(raw) == extract_accounts(json_object_array(raw).unwrap()),
        (json_object_array(raw) is None || extract_accounts(
            json_object_array(raw).unwrap(),
        ) is None) ==> spec_account_list(raw) == spec_parse_custom(raw),
{
}

/// A custom-format chunk whose fields hold no `password` key fails the
/// whole custom-format parse: no partial lists.
pub proof fn lemma_missing_password_fails(input: Seq<char>, i: int)
    requires
        0 <= i < custom_chunks(input).len(),
        lookup_last(
            fields_of(
                split_on(
                    strip_trail(strip_lead(custom_chunks(input)[i], '{'), '}'),
                    seq![','],
                ),
            ),
            password_key(),
        ) is None,
    ensures
        spec_parse_custom(input) is None,
{
    let chunks = custom_chunks(input);
    assert(parse_chunk(chunks[i]) is None);
    assert(chunks.take(i + 1).drop_last() =~= chunks.take(i));
    assert(chunks.take(i + 1).last() == chunks[i]);
    lemma_parse_chunks_prefix_none(chunks, i + 1);
}

} // verus!
