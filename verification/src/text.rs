//! Character-sequence utilities: conversions between `String` and
//! `Vec<char>`, slicing, searching, splitting, trimming, and decimal
//! parsing, each specified over `Seq<char>`.

use vstd::prelude::*;

verus! {

/// Relies on `str::chars` (via `collect`): the characters of a string
/// slice, in order, are exactly its view.
#[verifier::external_body]
pub fn chars_of(s: &str) -> (r: Vec<char>)
    ensures
        r@ == s@,
{
    s.chars().collect()
}

/// Relies on `<String as FromIterator<char>>` (via `collect`): the string
/// built from a sequence of characters holds exactly those characters.
#[verifier::external_body]
pub fn string_from_chars(v: &Vec<char>) -> (r: String)
    ensures
        r@ == v@,
{
    v.iter().collect()
}

/// Equality of two character vectors, decided element by element.
pub fn chars_eq(a: &Vec<char>, b: &Vec<char>) -> (r: bool)
    ensures
        r == (a@ == b@),
{
    if a.len() != b.len() {
        assert(a@ != b@);
        return false;
    }
    let mut i: usize = 0;
    while i < a.len()
        invariant
            i <= a@.len(),
            a@.len() == b@.len(),
            forall|j: int| 0 <= j < i ==> a@[j] == b@[j],
        decreases a@.len() - i,
    {
        if a[i] != b[i] {
            return false;
        }
        i = i + 1;
    }
    assert(a@ =~= b@);
    true
}

/// The contiguous slice of `s` from `lo` (inclusive) to `hi` (exclusive).
pub fn subvec(s: &Vec<char>, lo: usize, hi: usize) -> (r: Vec<char>)
    requires
        lo <= hi <= s@.len(),
    ensures
        r@ == s@.subrange(lo as int, hi as int),
{
    let mut r: Vec<char> = Vec::new();
    let mut i: usize = lo;
    while i < hi
        invariant
            lo <= i <= hi <= s@.len(),
            r@ == s@.subrange(lo as int, i as int),
        decreases hi - i,
    {
        r.push(s[i]);
        proof {
            assert(s@.subrange(lo as int, i + 1 as int) =~= s@.subrange(lo as int, i as int).push(
                s@[i as int],
            ));
        }
        i = i + 1;
    }
    r
}

/// The separator `sep` occurs in `s` at position `i`.
pub open spec fn is_match(s: Seq<char>, sep: Seq<char>, i: int) -> bool {
    0 <= i && i + sep.len() <= s.len() && s.subrange(i, i + sep.len()) == sep
}

/// Whether `sep` occurs in `s` at position `k`, decided character by
/// character.
pub fn match_at(s: &Vec<char>, sep: &Vec<char>, k: usize) -> (r: bool)
    requires
        k + sep@.len() <= s@.len(),
    ensures
        r == is_match(s@, sep@, k as int),
{
    let n: usize = s.len();
    let mut j: usize = 0;
    while j < sep.len()
        invariant
            j <= sep@.len(),
            k + sep@.len() <= s@.len(),
            s@.len() == n,
            forall|m: int| 0 <= m < j ==> s@[k + m] == sep@[m],
        decreases sep@.len() - j,
    {
        if s[k + j] != sep[j] {
            assert(s@.subrange(k as int, k + sep@.len()) != sep@) by {
                assert(s@.subrange(k as int, k + sep@.len())[j as int] == s@[k + j]);
            }
            return false;
        }
        j = j + 1;
    }
    assert(s@.subrange(k as int, k + sep@.len()) =~= sep@);
    true
}

/// The position of the first occurrence of `sep` in `s`, if any.
pub fn find_first(s: &Vec<char>, sep: &Vec<char>) -> (r: Option<usize>)
    requires
        sep@.len() >= 1,
    ensures
        match r {
            Some(k) => is_match(s@, sep@, k as int) && forall|i: int|
                0 <= i < k ==> !is_match(s@, sep@, i),
            None => forall|i: int| !is_match(s@, sep@, i),
        },
{
    if s.len() < sep.len() {
        return None;
    }
    let last_start: usize = s.len() - sep.len();
    let mut k: usize = 0;
    while k <= last_start
        invariant
            sep@.len() >= 1,
            s@.len() <= usize::MAX,
            last_start == s@.len() - sep@.len(),
            k <= last_start + 1,
            forall|i: int| 0 <= i < k ==> !is_match(s@, sep@, i),
        decreases last_start + 1 - k,
    {
        if match_at(s, sep, k) {
            return Some(k);
        }
        k = k + 1;
    }
    None
}

/// The pieces of `s` split on every non-overlapping, leftmost-first
/// occurrence of the separator `sep`; a sequence of at least one piece.
pub open spec fn split_on(s: Seq<char>, sep: Seq<char>) -> Seq<Seq<char>>
    decreases s.len(),
{
    if sep.len() == 0 || s.len() < sep.len() {
        seq![s]
    } else if s.subrange(0, sep.len() as int) == sep {
        seq![Seq::<char>::empty()] + split_on(s.skip(sep.len() as int), sep)
    } else {
        let rest = split_on(s.skip(1), sep);
        seq![seq![s[0]] + rest[0]] + rest.skip(1)
    }
}

/// Where `sep` occurs nowhere in `s`, the split is the single piece `s`.
pub proof fn lemma_split_no_sep(s: Seq<char>, sep: Seq<char>)
    requires
        sep.len() >= 1,
        forall|i: int| !is_match(s, sep, i),
    ensures
        split_on(s, sep) == seq![s],
    decreases s.len(),
{
    if s.len() < sep.len() {
    } else {
        assert(!is_match(s, sep, 0));
        assert(s.subrange(0, sep.len() as int) != sep);
        assert forall|i: int| !is_match(s.skip(1), sep, i) by {
            if is_match(s.skip(1), sep, i) {
                assert(s.skip(1).subrange(i, i + sep.len()) =~= s.subrange(i + 1, i + 1 + sep.len()));
                assert(is_match(s, sep, i + 1));
            }
        }
        lemma_split_no_sep(s.skip(1), sep);
        let rest = split_on(s.skip(1), sep);
        assert(rest == seq![s.skip(1)]);
        assert(seq![s[0]] + rest[0] =~= s);
        assert(seq![seq![s[0]] + rest[0]] + rest.skip(1) =~= seq![s]);
    }
}

/// Where the first occurrence of `sep` in `s` is at `k`, the split is the
/// prefix before `k` followed by the split of what stands after the
/// separator.
pub proof fn lemma_split_first_sep(s: Seq<char>, sep: Seq<char>, k: int)
    requires
        sep.len() >= 1,
        is_match(s, sep, k),
        forall|i: int| 0 <= i < k ==> !is_match(s, sep, i),
    ensures
        split_on(s, sep) == seq![s.take(k)] + split_on(s.skip(k + sep.len()), sep),
    decreases s.len(),
{
    if k == 0 {
        assert(s.subrange(0, sep.len() as int) == sep);
        assert(s.take(0) =~= Seq::<char>::empty());
        assert(seq![Seq::<char>::empty()] + split_on(s.skip(sep.len() as int), sep) =~= seq![
            s.take(0),
        ] + split_on(s.skip(k + sep.len()), sep));
    } else {
        assert(!is_match(s, sep, 0));
        assert(s.len() >= sep.len());
        assert(s.subrange(0, sep.len() as int) != sep);
        assert(is_match(s.skip(1), sep, k - 1)) by {
            assert(s.skip(1).subrange(k - 1, k - 1 + sep.len()) =~= s.subrange(k, k + sep.len()));
        }
        assert forall|i: int| 0 <= i < k - 1 implies !is_match(s.skip(1), sep, i) by {
            if is_match(s.skip(1), sep, i) {
                assert(s.skip(1).subrange(i, i + sep.len()) =~= s.subrange(i + 1, i + 1 + sep.len()));
                assert(is_match(s, sep, i + 1));
            }
        }
        lemma_split_first_sep(s.skip(1), sep, k - 1);
        let rest = split_on(s.skip(1), sep);
        let tail = split_on(s.skip(1).skip(k - 1 + sep.len()), sep);
        assert(rest == seq![s.skip(1).take(k - 1)] + tail);
        assert(s.skip(1).skip(k - 1 + sep.len()) =~= s.skip(k + sep.len()));
        assert(rest[0] == s.skip(1).take(k - 1));
        assert(seq![s[0]] + rest[0] =~= s.take(k));
        assert(rest.skip(1) =~= tail);
        assert(seq![seq![s[0]] + rest[0]] + rest.skip(1) =~= seq![s.take(k)] + split_on(
            s.skip(k + sep.len()),
            sep,
        ));
    }
}

/// The views of a sequence of character vectors.
pub open spec fn views_of(r: Seq<Vec<char>>) -> Seq<Seq<char>> {
    r.map_values(|v: Vec<char>| v@)
}

/// Splits `s` on every leftmost-first occurrence of `sep`.
pub fn split_on_exec(s: &Vec<char>, sep: &Vec<char>) -> (r: Vec<Vec<char>>)
    requires
        sep@.len() >= 1,
    ensures
        views_of(r@) == split_on(s@, sep@),
    decreases s@.len(),
{
    match find_first(s, sep) {
        None => {
            proof {
                lemma_split_no_sep(s@, sep@);
            }
            let mut r: Vec<Vec<char>> = Vec::new();
            r.push(subvec(s, 0, s.len()));
            proof {
                assert(s@.subrange(0, s@.len() as int) =~= s@);
                assert(views_of(r@) =~= seq![s@]);
            }
            r
        },
        Some(k) => {
            proof {
                lemma_split_first_sep(s@, sep@, k as int);
            }
            let n: usize = s.len();
            assert(k + sep@.len() <= n);
            let head = subvec(s, 0, k);
            let tail = subvec(s, k + sep.len(), s.len());
            let mut rest = split_on_exec(&tail, sep);
            let mut r: Vec<Vec<char>> = Vec::new();
            r.push(head);
            r.append(&mut rest);
            proof {
                assert(tail@ =~= s@.skip(k + sep@.len()));
                assert(head@ =~= s@.take(k as int));
                assert(views_of(r@) =~= seq![s@.take(k as int)] + split_on(
                    s@.skip(k + sep@.len()),
                    sep@,
                ));
            }
            r
        },
    }
}

/// The split of `s` at the first occurrence of the character `c`: the part
/// before it and the part after it, or nothing where `c` does not occur.
pub open spec fn split_once_at(s: Seq<char>, c: char) -> Option<(Seq<char>, Seq<char>)>
    decreases s.len(),
{
    if s.len() == 0 {
        None
    } else if s[0] == c {
        Some((Seq::<char>::empty(), s.skip(1)))
    } else {
        match split_once_at(s.skip(1), c) {
            None => None,
            Some(kv) => Some((seq![s[0]] + kv.0, kv.1)),
        }
    }
}

/// Where `c` occurs nowhere in `s`, the split at `c` is nothing.
pub proof fn lemma_split_once_none(s: Seq<char>, c: char)
    requires
        forall|i: int| 0 <= i < s.len() ==> s[i] != c,
    ensures
        split_once_at(s, c) is None,
    decreases s.len(),
{
    if s.len() > 0 {
        lemma_split_once_none(s.skip(1), c);
    }
}

/// Where the first occurrence of `c` in `s` is at `k`, the split at `c` is
/// the prefix before `k` and the suffix after `k`.
pub proof fn lemma_split_once_at(s: Seq<char>, c: char, k: int)
    requires
        0 <= k < s.len(),
        s[k] == c,
        forall|i: int| 0 <= i < k ==> s[i] != c,
    ensures
        split_once_at(s, c) == Some((s.take(k), s.skip(k + 1))),
    decreases s.len(),
{
    if k == 0 {
        assert(s.take(0) =~= Seq::<char>::empty());
    } else {
        lemma_split_once_at(s.skip(1), c, k - 1);
        assert(s.skip(1).take(k - 1) =~= s.take(k).skip(1));
        assert(seq![s[0]] + s.skip(1).take(k - 1) =~= s.take(k));
        assert(s.skip(1).skip(k - 1 + 1) =~= s.skip(k + 1));
    }
}

/// Splits `s` at its first occurrence of the character `c`.
pub fn split_once_exec(s: &Vec<char>, c: char) -> (r: Option<(Vec<char>, Vec<char>)>)
    ensures
        match r {
            Some(kv) => split_once_at(s@, c) == Some((kv.0@, kv.1@)),
            None => split_once_at(s@, c) is None,
        },
{
    let mut k: usize = 0;
    while k < s.len()
        invariant
            k <= s@.len(),
            forall|i: int| 0 <= i < k ==> s@[i] != c,
        decreases s@.len() - k,
    {
        if s[k] == c {
            proof {
                lemma_split_once_at(s@, c, k as int);
            }
            let before = subvec(s, 0, k);
            let after = subvec(s, k + 1, s.len());
            proof {
                assert(before@ =~= s@.take(k as int));
                assert(after@ =~= s@.skip(k + 1));
            }
            return Some((before, after));
        }
        k = k + 1;
    }
    proof {
        lemma_split_once_none(s@, c);
    }
    None
}

/// A whitespace character: the Unicode `White_Space` set.
pub open spec fn is_ws(c: char) -> bool {
    c == '\u{0009}' || c == '\u{000A}' || c == '\u{000B}' || c == '\u{000C}' || c == '\u{000D}'
        || c == '\u{0020}' || c == '\u{0085}' || c == '\u{00A0}' || c == '\u{1680}' || c
        == '\u{2000}' || c == '\u{2001}' || c == '\u{2002}' || c == '\u{2003}' || c == '\u{2004}'
        || c == '\u{2005}' || c == '\u{2006}' || c == '\u{2007}' || c == '\u{2008}' || c
        == '\u{2009}' || c == '\u{200A}' || c == '\u{2028}' || c == '\u{2029}' || c == '\u{202F}'
        || c == '\u{205F}' || c == '\u{3000}'
}

/// `s` without its leading whitespace.
pub open spec fn trim_front(s: Seq<char>) -> Seq<char>
    decreases s.len(),
{
    if s.len() > 0 && is_ws(s[0]) {
        trim_front(s.skip(1))
    } else {
        s
    }
}

/// `s` without its trailing whitespace.
pub open spec fn trim_back(s: Seq<char>) -> Seq<char>
    decreases s.len(),
{
    if s.len() > 0 && is_ws(s.last()) {
        trim_back(s.take(s.len() - 1))
    } else {
        s
    }
}

/// `s` without its leading and trailing whitespace.
pub open spec fn spec_trim(s: Seq<char>) -> Seq<char> {
    trim_back(trim_front(s))
}

proof fn lemma_trim_front_prefix(s: Seq<char>, lo: int)
    requires
        0 <= lo <= s.len(),
        forall|i: int| 0 <= i < lo ==> is_ws(s[i]),
        lo == s.len() || !is_ws(s[lo]),
    ensures
        trim_front(s) == s.skip(lo),
    decreases lo,
{
    if lo == 0 {
        assert(s.skip(0) =~= s);
    } else {
        assert(is_ws(s[0]));
        assert forall|i: int| 0 <= i < lo - 1 implies is_ws(s.skip(1)[i]) by {
            assert(s.skip(1)[i] == s[i + 1]);
        }
        assert(lo - 1 == s.skip(1).len() || !is_ws(s.skip(1)[lo - 1]));
        lemma_trim_front_prefix(s.skip(1), lo - 1);
        assert(s.skip(1).skip(lo - 1) =~= s.skip(lo));
    }
}

proof fn lemma_trim_back_suffix(s: Seq<char>, hi: int)
    requires
        0 <= hi <= s.len(),
        forall|i: int| hi <= i < s.len() ==> is_ws(s[i]),
        hi == 0 || !is_ws(s[hi - 1]),
    ensures
        trim_back(s) == s.take(hi),
    decreases s.len(),
{
    if hi == s.len() {
        assert(s.take(hi) =~= s);
    } else {
        assert(is_ws(s.last()));
        let t = s.take(s.len() - 1);
        assert forall|i: int| hi <= i < t.len() implies is_ws(t[i]) by {
            assert(t[i] == s[i]);
        }
        lemma_trim_back_suffix(t, hi);
        assert(t.take(hi) =~= s.take(hi));
    }
}

/// Whether `c` is a whitespace character.
pub fn is_ws_exec(c: char) -> (r: bool)
    ensures
        r == is_ws(c),
{
    c == '\u{0009}' || c == '\u{000A}' || c == '\u{000B}' || c == '\u{000C}' || c == '\u{000D}'
        || c == '\u{0020}' || c == '\u{0085}' || c == '\u{00A0}' || c == '\u{1680}' || (c
        >= '\u{2000}' && c <= '\u{200A}') || c == '\u{2028}' || c == '\u{2029}' || c == '\u{202F}'
        || c == '\u{205F}' || c == '\u{3000}'
}

/// `s` without its leading and trailing whitespace.
pub fn trim_exec(s: &Vec<char>) -> (r: Vec<char>)
    ensures
        r@ == spec_trim(s@),
{
    let n: usize = s.len();
    let mut lo: usize = 0;
    while lo < n && is_ws_exec(s[lo])
        invariant
            lo <= n,
            n == s@.len(),
            forall|i: int| 0 <= i < lo ==> is_ws(s@[i]),
        decreases n - lo,
    {
        lo = lo + 1;
    }
    proof {
        lemma_trim_front_prefix(s@, lo as int);
    }
    let mut hi: usize = n;
    while hi > lo && is_ws_exec(s[hi - 1])
        invariant
            lo <= hi <= n,
            n == s@.len(),
            forall|i: int| hi <= i < n ==> is_ws(s@[i]),
        decreases hi,
    {
        hi = hi - 1;
    }
    let r = subvec(s, lo, hi);
    proof {
        let f = s@.skip(lo as int);
        assert forall|i: int| hi - lo <= i < f.len() implies is_ws(f[i]) by {
            assert(f[i] == s@[i + lo]);
        }
        if hi - lo > 0 {
            assert(f[hi - lo - 1] == s@[hi - 1]);
            assert(!is_ws(f[hi - lo - 1]));
        }
        lemma_trim_back_suffix(f, hi - lo);
        assert(f.take(hi - lo) =~= s@.subrange(lo as int, hi as int));
    }
    r
}

/// The numeric value of a decimal digit character; ten for any other
/// character.
pub open spec fn digit_of(c: char) -> nat {
    if c == '0' {
        0
    } else if c == '1' {
        1
    } else if c == '2' {
        2
    } else if c == '3' {
        3
    } else if c == '4' {
        4
    } else if c == '5' {
        5
    } else if c == '6' {
        6
    } else if c == '7' {
        7
    } else if c == '8' {
        8
    } else if c == '9' {
        9
    } else {
        10
    }
}

/// Whether `c` is a decimal digit.
pub open spec fn is_digit(c: char) -> bool {
    digit_of(c) < 10
}

/// The numeric value of a sequence of decimal digit characters.
pub open spec fn digits_val(s: Seq<char>) -> nat
    decreases s.len(),
{
    if s.len() == 0 {
        0
    } else {
        digits_val(s.take(s.len() - 1)) * 10 + digit_of(s.last())
    }
}

/// The numeric value of a decimal digit character, or nothing.
pub fn digit_of_exec(c: char) -> (r: Option<usize>)
    ensures
        match r {
            Some(d) => is_digit(c) && d as nat == digit_of(c),
            None => !is_digit(c),
        },
{
    match c {
        '0' => Some(0),
        '1' => Some(1),
        '2' => Some(2),
        '3' => Some(3),
        '4' => Some(4),
        '5' => Some(5),
        '6' => Some(6),
        '7' => Some(7),
        '8' => Some(8),
        '9' => Some(9),
        _ => None,
    }
}

/// Every character of `s` is a decimal digit.
pub open spec fn all_digits(s: Seq<char>) -> bool {
    forall|i: int| 0 <= i < s.len() ==> is_digit(s[i])
}

/// The value read from `s` as an unsigned decimal number: one optional
/// leading `+`, then one or more digits, the whole fitting in `usize`;
/// anything else reads as nothing.
pub open spec fn spec_parse_usize(s: Seq<char>) -> Option<nat> {
    let t = if s.len() > 0 && s[0] == '+' {
        s.skip(1)
    } else {
        s
    };
    if t.len() > 0 && all_digits(t) && digits_val(t) <= usize::MAX as nat {
        Some(digits_val(t))
    } else {
        None
    }
}

proof fn lemma_digits_val_monotone(s: Seq<char>, j: int)
    requires
        0 <= j <= s.len(),
    ensures
        digits_val(s) >= digits_val(s.take(j)),
    decreases s.len() - j,
{
    if j < s.len() {
        lemma_digits_val_monotone(s, j + 1);
        let t = s.take(j + 1);
        assert(t.take(t.len() - 1) =~= s.take(j));
        assert(digits_val(t) == digits_val(s.take(j)) * 10 + digit_of(t.last()));
    } else {
        assert(s.take(j) =~= s);
    }
}

/// Reads `s` as an unsigned decimal number.
pub fn parse_usize_exec(s: &Vec<char>) -> (r: Option<usize>)
    ensures
        match r {
            Some(v) => spec_parse_usize(s@) == Some(v as nat),
            None => spec_parse_usize(s@) is None,
        },
{
    let n: usize = s.len();
    let start: usize = if n > 0 && s[0] == '+' {
        1
    } else {
        0
    };
    let ghost t = if s@.len() > 0 && s@[0] == '+' {
        s@.skip(1)
    } else {
        s@
    };
    proof {
        assert(t =~= s@.subrange(start as int, n as int));
    }
    if start == n {
        return None;
    }
    let mut acc: usize = 0;
    let mut i: usize = start;
    while i < n
        invariant
            start <= i <= n,
            n == s@.len(),
            t == s@.subrange(start as int, n as int),
            t == (if s@.len() > 0 && s@[0] == '+' {
                s@.skip(1)
            } else {
                s@
            }),
            forall|j: int| start <= j < i ==> is_digit(s@[j]),
            acc as nat == digits_val(t.take(i - start)),
        decreases n - i,
    {
        let c = s[i];
        let d: usize = match digit_of_exec(c) {
            Some(d) => d,
            None => {
                proof {
                    assert(t[i - start] == s@[i as int]);
                    assert(!is_digit(t[i - start]));
                    assert(!all_digits(t));
                    assert(spec_parse_usize(s@) is None);
                }
                return None;
            },
        };
        proof {
            assert(t.take(i + 1 - start).take(i - start) =~= t.take(i - start));
            assert(t.take(i + 1 - start).last() == s@[i as int]);
        }
        if acc > (usize::MAX - d) / 10 {
            proof {
                assert(digits_val(t.take(i + 1 - start)) == acc * 10 + d);
                assert(acc * 10 + d > usize::MAX as nat) by (nonlinear_arith)
                    requires
                        acc > (usize::MAX - d) / 10,
                        d <= 9,
                ;
                lemma_digits_val_monotone(t, i + 1 - start);
                assert(t.take(t.len() as int) =~= t);
                assert(digits_val(t) > usize::MAX as nat);
                assert(spec_parse_usize(s@) is None);
            }
            return None;
        }
        assert(acc * 10 + d <= usize::MAX) by (nonlinear_arith)
            requires
                acc <= (usize::MAX - d) / 10,
                d <= 9,
        ;
        acc = acc * 10 + d;
        i = i + 1;
    }
    proof {
        assert(t.take(n - start) =~= t);
        assert forall|j: int| 0 <= j < t.len() implies is_digit(t[j]) by {
            assert(t[j] == s@[j + start]);
        }
        assert(all_digits(t));
    }
    Some(acc)
}

} // verus!
