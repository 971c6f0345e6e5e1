//! Version strings in the output of version commands.

use vstd::prelude::*;
use crate::text::{
    ascii_digit, chars_of, is_ascii_digit, is_unicode_whitespace, is_version_char, leading_run,
    lemma_leading_run_exact, opt_view, string_of, trailing_run, trim_bounds, trim_class, trim_ws,
    unicode_whitespace, version_char, ws_tokens, CharClass,
};

verus! {

/// A version token: trimmed of characters that cannot belong to a version,
/// stripped of one leading `v`, and accepted only when it is nonempty, holds a
/// `.` and a digit, and has nothing but version characters left.
pub open spec fn spec_normalize_version_token(token: Seq<char>) -> Option<Seq<char>> {
    let a = trim_class(token, CharClass::NonVersion);
    let b = if a.len() > 0 && a[0] == 'v' {
        a.drop_first()
    } else {
        a
    };
    if b.len() == 0 || !b.contains('.') {
        None
    } else if !all_version_chars(b) {
        None
    } else if !has_ascii_digit(b) {
        None
    } else {
        Some(b)
    }
}

/// Every character may belong to a version.
pub open spec fn all_version_chars(s: Seq<char>) -> bool {
    forall|i: int| 0 <= i < s.len() ==> is_version_char(#[trigger] s[i])
}

/// Some character is an ASCII digit.
pub open spec fn has_ascii_digit(s: Seq<char>) -> bool {
    exists|i: int| 0 <= i < s.len() && is_ascii_digit(#[trigger] s[i])
}

/// The first token that normalizes to a version.
pub open spec fn first_version_in(tokens: Seq<Seq<char>>) -> Option<Seq<char>>
    decreases tokens.len(),
{
    if tokens.len() == 0 {
        None
    } else {
        match spec_normalize_version_token(tokens[0]) {
            Some(v) => Some(v),
            None => first_version_in(tokens.drop_first()),
        }
    }
}

/// The version found in command output: the first whitespace-separated word
/// that normalizes to a version, else the whole trimmed text normalized.
pub open spec fn spec_extract_version(raw: Seq<char>) -> Option<Seq<char>> {
    match first_version_in(ws_tokens(raw)) {
        Some(v) => Some(v),
        None => spec_normalize_version_token(trim_ws(raw)),
    }
}

/// `normalize_version_token` on `v[start..end]`.
fn normalize_range(v: &Vec<char>, start: usize, end: usize) -> (r: Option<String>)
    requires
        start <= end <= v@.len(),
    ensures
        opt_view(r) == spec_normalize_version_token(v@.subrange(start as int, end as int)),
{
    let ghost t = v@.subrange(start as int, end as int);
    let mut w: Vec<char> = Vec::new();
    let mut i = start;
    while i < end
        invariant
            start <= i <= end <= v@.len(),
            w@ == v@.subrange(start as int, i as int),
        decreases end - i,
    {
        w.push(v[i]);
        i = i + 1;
    }
    assert(w@ == t);
    let (a0, b) = trim_bounds(&w, CharClass::NonVersion);
    let ghost trimmed = trim_class(t, CharClass::NonVersion);
    let mut a = a0;
    if a < b && w[a] == 'v' {
        a = a + 1;
        assert(w@.subrange(a as int, b as int) == trimmed.drop_first());
    }
    let ghost cand = w@.subrange(a as int, b as int);
    assert(cand == (if trimmed.len() > 0 && trimmed[0] == 'v' {
        trimmed.drop_first()
    } else {
        trimmed
    }));
    if a == b {
        return None;
    }
    let mut has_dot = false;
    let mut all_ok = true;
    let mut has_digit = false;
    let mut j = a;
    while j < b
        invariant
            a <= j <= b <= w@.len(),
            cand == w@.subrange(a as int, b as int),
            a < b,
            w@ == t,
            trimmed == trim_class(t, CharClass::NonVersion),
            cand == (if trimmed.len() > 0 && trimmed[0] == 'v' {
                trimmed.drop_first()
            } else {
                trimmed
            }),
            has_dot <==> exists|k: int| a <= k < j && w@[k] == '.',
            all_ok <==> forall|k: int| a <= k < j ==> is_version_char(#[trigger] w@[k]),
            has_digit <==> exists|k: int| a <= k < j && is_ascii_digit(#[trigger] w@[k]),
        decreases b - j,
    {
        let c = w[j];
        if c == '.' {
            has_dot = true;
        }
        if !version_char(c) {
            all_ok = false;
        }
        if ascii_digit(c) {
            has_digit = true;
        }
        j = j + 1;
    }
    proof {
        if has_dot {
            let k = choose|k: int| a <= k < b && w@[k] == '.';
            assert(cand[k - a] == '.');
        }
        if cand.contains('.') {
            let k = choose|k: int| 0 <= k < cand.len() && cand[k] == '.';
            assert(w@[k + a] == '.');
        }
        if !all_ok {
            let k = choose|k: int| a <= k < b && !is_version_char(#[trigger] w@[k]);
            assert(!is_version_char(cand[k - a]));
        }
        if all_ok {
            assert forall|i: int| 0 <= i < cand.len() implies is_version_char(#[trigger] cand[i]) by {
                assert(cand[i] == w@[i + a]);
            }
        }
        if has_digit {
            let k = choose|k: int| a <= k < b && is_ascii_digit(#[trigger] w@[k]);
            assert(is_ascii_digit(cand[k - a]));
        }
        if exists|i: int| 0 <= i < cand.len() && is_ascii_digit(#[trigger] cand[i]) {
            let k = choose|i: int| 0 <= i < cand.len() && is_ascii_digit(#[trigger] cand[i]);
            assert(is_ascii_digit(w@[k + a]));
        }
        assert(has_dot <==> cand.contains('.'));
        assert(all_ok <==> all_version_chars(cand));
        assert(has_digit <==> has_ascii_digit(cand));
    }
    if !has_dot || !all_ok || !has_digit {
        return None;
    }
    Some(string_of(&w, a, b))
}

/// Normalizes one word of version output to a bare version string such as
/// `0.34.1`, or `None` when the word is not a version.
pub fn normalize_version_token(token: &str) -> (r: Option<String>)
    ensures
        opt_view(r) == spec_normalize_version_token(token@),
{
    let v = chars_of(token);
    assert(v@.subrange(0, v@.len() as int) == v@);
    normalize_range(&v, 0, v.len())
}

/// Looking for the first version in `a + b` looks through `a` first.
pub proof fn lemma_first_version_in_concat(a: Seq<Seq<char>>, b: Seq<Seq<char>>)
    ensures
        first_version_in(a + b) == (match first_version_in(a) {
            Some(v) => Some(v),
            None => first_version_in(b),
        }),
    decreases a.len(),
{
    if a.len() > 0 {
        assert((a + b).drop_first() == a.drop_first() + b);
        assert((a + b)[0] == a[0]);
        lemma_first_version_in_concat(a.drop_first(), b);
    } else {
        assert(a + b == b);
    }
}

proof fn lemma_ws_tokens_skip_space(s: Seq<char>, i: int)
    requires
        0 <= i < s.len(),
        is_unicode_whitespace(s[i]),
    ensures
        ws_tokens(s.skip(i)) == ws_tokens(s.skip(i + 1)),
{
    assert(s.skip(i).drop_first() == s.skip(i + 1));
}

proof fn lemma_ws_tokens_word(s: Seq<char>, i: int, j: int)
    requires
        0 <= i < j <= s.len(),
        forall|k: int| i <= k < j ==> !is_unicode_whitespace(#[trigger] s[k]),
        j == s.len() || is_unicode_whitespace(s[j]),
    ensures
        ws_tokens(s.skip(i)) == seq![s.subrange(i, j)] + ws_tokens(s.skip(j)),
{
    let r = s.skip(i);
    assert forall|k: int| 0 <= k < j - i implies CharClass::NonWhitespace.holds(#[trigger] r[k]) by {
        assert(r[k] == s[k + i]);
    }
    if j < s.len() {
        assert(r[j - i] == s[j]);
    }
    lemma_leading_run_exact(r, CharClass::NonWhitespace, j - i);
    assert(r[0] == s[i]);
    assert(r.take(j - i) == s.subrange(i, j));
    assert(r.skip(j - i) == s.skip(j));
}

/// Finds the version in the output of a version command: the first
/// whitespace-separated word that normalizes to a version, else the whole
/// trimmed output normalized.
pub fn extract_version(raw: &str) -> (r: Option<String>)
    ensures
        opt_view(r) == spec_extract_version(raw@),
{
    let v = chars_of(raw);
    let n = v.len();
    let mut i: usize = 0;
    let ghost mut done: Seq<Seq<char>> = seq![];
    assert(v@.skip(0) == v@);
    while i < n
        invariant
            i <= n == v@.len(),
            v@ == raw@,
            ws_tokens(v@) == done + ws_tokens(v@.skip(i as int)),
            first_version_in(done) is None,
        decreases n - i,
    {
        if unicode_whitespace(v[i]) {
            proof {
                lemma_ws_tokens_skip_space(v@, i as int);
            }
            i = i + 1;
        } else {
            let mut j = i + 1;
            while j < n && !unicode_whitespace(v[j])
                invariant
                    i < j <= n == v@.len(),
                    forall|k: int| i <= k < j ==> !is_unicode_whitespace(#[trigger] v@[k]),
                decreases n - j,
            {
                j = j + 1;
            }
            let ghost tok = v@.subrange(i as int, j as int);
            proof {
                lemma_ws_tokens_word(v@, i as int, j as int);
                assert(done + (seq![tok] + ws_tokens(v@.skip(j as int))) == (done + seq![tok])
                    + ws_tokens(v@.skip(j as int)));
                assert(done.push(tok) == done + seq![tok]);
                lemma_first_version_in_concat(done, seq![tok]);
                lemma_first_version_in_concat(done + seq![tok], ws_tokens(v@.skip(j as int)));
                assert(seq![tok].drop_first() == Seq::<Seq<char>>::empty());
                assert(seq![tok][0] == tok);
                assert(first_version_in(Seq::<Seq<char>>::empty()) is None);
                assert(first_version_in(seq![tok]) == spec_normalize_version_token(tok));
            }
            let r = normalize_range(&v, i, j);
            if r.is_some() {
                return r;
            }
            proof {
                done = done.push(v@.subrange(i as int, j as int));
            }
            i = j;
        }
    }
    proof {
        assert(v@.skip(n as int) == Seq::<char>::empty());
        assert(done + Seq::<Seq<char>>::empty() == done);
    }
    let (a, b) = trim_bounds(&v, CharClass::Whitespace);
    normalize_range(&v, a, b)
}

/// `tokens` holding a word that normalizes to a version has a first one.
proof fn lemma_first_version_in_some(tokens: Seq<Seq<char>>, k: int)
    requires
        0 <= k < tokens.len(),
        spec_normalize_version_token(tokens[k]) is Some,
    ensures
        first_version_in(tokens) is Some,
    decreases k,
{
    if k > 0 && spec_normalize_version_token(tokens[0]) is None {
        assert(tokens.drop_first()[k - 1] == tokens[k]);
        lemma_first_version_in_some(tokens.drop_first(), k - 1);
    }
}

/// A maximal run of non-whitespace characters is one of the words.
proof fn lemma_ws_tokens_contains_run(s: Seq<char>, i0: int, j0: int)
    requires
        0 <= i0 < j0 <= s.len(),
        forall|k: int| i0 <= k < j0 ==> !is_unicode_whitespace(#[trigger] s[k]),
        i0 == 0 || is_unicode_whitespace(s[i0 - 1]),
        j0 == s.len() || is_unicode_whitespace(s[j0]),
    ensures
        ws_tokens(s).contains(s.subrange(i0, j0)),
    decreases s.len(),
{
    if is_unicode_whitespace(s[0]) {
        let t = s.drop_first();
        assert forall|k: int| i0 - 1 <= k < j0 - 1 implies !is_unicode_whitespace(#[trigger] t[k]) by {
            assert(t[k] == s[k + 1]);
        }
        if i0 - 1 > 0 {
            assert(t[i0 - 2] == s[i0 - 1]);
        }
        if j0 - 1 < t.len() {
            assert(t[j0 - 1] == s[j0]);
        }
        lemma_ws_tokens_contains_run(t, i0 - 1, j0 - 1);
        assert(t.subrange(i0 - 1, j0 - 1) == s.subrange(i0, j0));
    } else {
        let k = leading_run(s, CharClass::NonWhitespace);
        crate::text::lemma_leading_run_bound(s, CharClass::NonWhitespace);
        let rest = s.skip(k as int);
        assert(ws_tokens(s) == seq![s.take(k as int)] + ws_tokens(rest));
        if i0 == 0 {
            assert forall|m: int| 0 <= m < j0 implies CharClass::NonWhitespace.holds(#[trigger] s[m]) by {
            }
            lemma_leading_run_exact(s, CharClass::NonWhitespace, j0);
            assert(s.take(k as int) == s.subrange(i0, j0));
            assert((seq![s.take(k as int)] + ws_tokens(rest))[0] == s.subrange(i0, j0));
        } else {
            if i0 - 1 < k {
                assert(CharClass::NonWhitespace.holds(s[i0 - 1]));
                assert(false);
            }
            assert forall|m: int| i0 - k <= m < j0 - k implies !is_unicode_whitespace(#[trigger] rest[m]) by {
                assert(rest[m] == s[m + k]);
            }
            if i0 - k - 1 >= 0 {
                assert(rest[i0 - k - 1] == s[i0 - 1]);
            }
            if j0 - k < rest.len() {
                assert(rest[j0 - k] == s[j0]);
            }
            lemma_ws_tokens_contains_run(rest, i0 - k, j0 - k);
            assert(rest.subrange(i0 - k, j0 - k) == s.subrange(i0, j0));
            let idx = choose|x: int| 0 <= x < ws_tokens(rest).len() && ws_tokens(rest)[x] == s.subrange(i0, j0);
            assert((seq![s.take(k as int)] + ws_tokens(rest))[idx + 1] == s.subrange(i0, j0));
        }
    }
}

/// Normalizing depends on a token only through its version-trimmed form.
proof fn lemma_normalize_by_trim(a: Seq<char>, b: Seq<char>)
    requires
        trim_class(a, CharClass::NonVersion) == trim_class(b, CharClass::NonVersion),
    ensures
        spec_normalize_version_token(a) == spec_normalize_version_token(b),
{
}

/// Some word normalizes whenever the first version among the words exists.
proof fn lemma_first_version_in_witness(tokens: Seq<Seq<char>>)
    requires
        first_version_in(tokens) is Some,
    ensures
        exists|k: int| 0 <= k < tokens.len() && (#[trigger] spec_normalize_version_token(tokens[k])) is Some,
    decreases tokens.len(),
{
    if spec_normalize_version_token(tokens[0]) is None {
        lemma_first_version_in_witness(tokens.drop_first());
        let k = choose|k: int|
            0 <= k < tokens.drop_first().len() && (#[trigger] spec_normalize_version_token(
                tokens.drop_first()[k],
            )) is Some;
        assert(tokens[k + 1] == tokens.drop_first()[k]);
    } else {
        assert(spec_normalize_version_token(tokens[0]) is Some);
    }
}

/// Inside the trimmed output `raw[p..q)`, a stretch `raw[i..j)` of version
/// characters with nothing but non-version characters between it and the
/// ends is the version-trimmed form of the word that holds it.
#[verifier::rlimit(30)]
proof fn lemma_word_around(raw: Seq<char>, p: int, q: int, i: int, j: int)
    requires
        0 <= p <= i < j <= q <= raw.len(),
        forall|m: int| 0 <= m < p ==> is_unicode_whitespace(#[trigger] raw[m]),
        forall|m: int| q <= m < raw.len() ==> is_unicode_whitespace(#[trigger] raw[m]),
        forall|m: int| p <= m < i ==> CharClass::NonVersion.holds(#[trigger] raw[m]),
        forall|m: int| j <= m < q ==> CharClass::NonVersion.holds(#[trigger] raw[m]),
        forall|m: int| i <= m < j ==> is_version_char(#[trigger] raw[m]),
    ensures
        exists|x: int|
            0 <= x < ws_tokens(raw).len() && trim_class(#[trigger] ws_tokens(raw)[x], CharClass::NonVersion)
                == raw.subrange(i, j),
{
    let before = raw.take(i);
    crate::text::lemma_trailing_run_bound(before, CharClass::NonWhitespace);
    let tb = trailing_run(before, CharClass::NonWhitespace) as int;
    let i0 = i - tb;
    let after = raw.skip(j);
    crate::text::lemma_leading_run_bound(after, CharClass::NonWhitespace);
    let la = leading_run(after, CharClass::NonWhitespace) as int;
    let j0 = j + la;
    assert forall|m: int| i0 <= m < i implies CharClass::NonVersion.holds(#[trigger] raw[m]) by {
        assert(raw[m] == before[m]);
        assert(CharClass::NonWhitespace.holds(before[m]));
        if m < p {
            assert(is_unicode_whitespace(raw[m]));
        }
    }
    assert forall|m: int| j <= m < j0 implies CharClass::NonVersion.holds(#[trigger] raw[m]) by {
        assert(raw[m] == after[m - j]);
        assert(CharClass::NonWhitespace.holds(after[m - j]));
        if m >= q {
            assert(is_unicode_whitespace(raw[m]));
        }
    }
    assert forall|m: int| i0 <= m < j0 implies !is_unicode_whitespace(#[trigger] raw[m]) by {
        if m < i {
            assert(raw[m] == before[m]);
            assert(CharClass::NonWhitespace.holds(before[m]));
        } else if m >= j {
            assert(raw[m] == after[m - j]);
            assert(CharClass::NonWhitespace.holds(after[m - j]));
        } else {
            assert(is_version_char(raw[m]));
        }
    }
    if i0 > 0 {
        assert(raw[i0 - 1] == before[before.len() - 1 - tb]);
    }
    if j0 < raw.len() {
        assert(raw[j0] == after[la]);
    }
    lemma_ws_tokens_contains_run(raw, i0, j0);
    let tok = raw.subrange(i0, j0);
    assert forall|m: int| 0 <= m < i - i0 implies CharClass::NonVersion.holds(#[trigger] tok[m]) by {
        assert(tok[m] == raw[m + i0]);
    }
    assert(tok[i - i0] == raw[i]);
    assert(is_version_char(raw[i]));
    lemma_leading_run_exact(tok, CharClass::NonVersion, i - i0);
    assert forall|m: int| tok.len() - (j0 - j) <= m < tok.len() implies CharClass::NonVersion.holds(
        #[trigger] tok[m],
    ) by {
        assert(tok[m] == raw[m + i0]);
    }
    assert(tok[tok.len() - 1 - (j0 - j)] == raw[j - 1]);
    assert(is_version_char(raw[j - 1]));
    crate::text::lemma_trailing_run_exact(tok, CharClass::NonVersion, j0 - j);
    assert(trim_class(tok, CharClass::NonVersion) == raw.subrange(i, j));
    let x = choose|x: int| 0 <= x < ws_tokens(raw).len() && ws_tokens(raw)[x] == tok;
    assert(trim_class(ws_tokens(raw)[x], CharClass::NonVersion) == raw.subrange(i, j));
}

/// When the whole trimmed output normalizes to a version, so does one of
/// its words.
#[verifier::rlimit(30)]
proof fn lemma_trimmed_version_is_a_word(raw: Seq<char>)
    requires
        spec_normalize_version_token(trim_ws(raw)) is Some,
    ensures
        exists|k: int|
            0 <= k < ws_tokens(raw).len() && (#[trigger] spec_normalize_version_token(
                ws_tokens(raw)[k],
            )) is Some,
{
    let t = trim_ws(raw);
    crate::text::lemma_leading_run_bound(raw, CharClass::Whitespace);
    crate::text::lemma_trailing_run_bound(raw, CharClass::Whitespace);
    let p = leading_run(raw, CharClass::Whitespace) as int;
    let q = raw.len() - trailing_run(raw, CharClass::Whitespace);
    assert(p < raw.len());
    assert(t == raw.subrange(p, q));
    let a = trim_class(t, CharClass::NonVersion);
    crate::text::lemma_leading_run_bound(t, CharClass::NonVersion);
    crate::text::lemma_trailing_run_bound(t, CharClass::NonVersion);
    let l = leading_run(t, CharClass::NonVersion) as int;
    let r = t.len() - trailing_run(t, CharClass::NonVersion);
    assert(l < t.len());
    assert(a == t.subrange(l, r));
    let b = spec_normalize_version_token(t)->0;
    assert(all_version_chars(b));
    assert forall|m: int| 0 <= m < a.len() implies is_version_char(#[trigger] a[m]) by {
        if a.len() > 0 && a[0] == 'v' {
            if m > 0 {
                assert(a[m] == b[m - 1]);
            }
        } else {
            assert(a[m] == b[m]);
        }
    }
    assert forall|m: int| p <= m < p + l implies CharClass::NonVersion.holds(#[trigger] raw[m]) by {
        assert(raw[m] == t[m - p]);
    }
    assert forall|m: int| p + r <= m < q implies CharClass::NonVersion.holds(#[trigger] raw[m]) by {
        assert(raw[m] == t[m - p]);
    }
    assert forall|m: int| p + l <= m < p + r implies is_version_char(#[trigger] raw[m]) by {
        assert(raw[m] == a[m - p - l]);
    }
    assert forall|m: int| 0 <= m < p implies is_unicode_whitespace(#[trigger] raw[m]) by {
        assert(CharClass::Whitespace.holds(raw[m]));
    }
    assert forall|m: int| q <= m < raw.len() implies is_unicode_whitespace(#[trigger] raw[m]) by {
        assert(CharClass::Whitespace.holds(raw[m]));
    }
    lemma_word_around(raw, p, q, p + l, p + r);
    assert(raw.subrange(p + l, p + r) == a);
    let x = choose|x: int|
        0 <= x < ws_tokens(raw).len() && trim_class(#[trigger] ws_tokens(raw)[x], CharClass::NonVersion)
            == raw.subrange(p + l, p + r);
    lemma_normalize_by_trim(ws_tokens(raw)[x], t);
}

/// The whole trimmed output is tried only after its words, and adds
/// nothing: a version is found exactly when some whitespace-separated word
/// of the output normalizes to a version.
pub proof fn law_version_comes_from_a_word(raw: Seq<char>)
    ensures
        spec_extract_version(raw) is Some <==> exists|k: int|
            0 <= k < ws_tokens(raw).len() && (#[trigger] spec_normalize_version_token(
                ws_tokens(raw)[k],
            )) is Some,
{
    let tokens = ws_tokens(raw);
    if exists|k: int| 0 <= k < tokens.len() && (#[trigger] spec_normalize_version_token(tokens[k])) is Some {
        let k = choose|k: int| 0 <= k < tokens.len() && (#[trigger] spec_normalize_version_token(tokens[k])) is Some;
        lemma_first_version_in_some(tokens, k);
    }
    if first_version_in(tokens) is Some {
        lemma_first_version_in_witness(tokens);
    }
    if first_version_in(tokens) is None && spec_normalize_version_token(trim_ws(raw)) is Some {
        lemma_trimmed_version_is_a_word(raw);
    }
}

/// The first word that normalizes is the one found: for the words of a
/// list, when `tokens[k]` normalizes and no earlier word does,
/// `first_version_in` is the normalization of `tokens[k]`.
proof fn lemma_first_version_in_at(tokens: Seq<Seq<char>>, k: int)
    requires
        0 <= k < tokens.len(),
        spec_normalize_version_token(tokens[k]) is Some,
        forall|j: int| 0 <= j < k ==> (#[trigger] spec_normalize_version_token(tokens[j])) is None,
    ensures
        first_version_in(tokens) == spec_normalize_version_token(tokens[k]),
    decreases k,
{
    if k > 0 {
        assert(spec_normalize_version_token(tokens[0]) is None);
        let t = tokens.drop_first();
        assert(t[k - 1] == tokens[k]);
        assert forall|j: int| 0 <= j < k - 1 implies (#[trigger] spec_normalize_version_token(t[j])) is None by {
            assert(t[j] == tokens[j + 1]);
        }
        lemma_first_version_in_at(t, k - 1);
    }
}

/// The version found in command output is the normalization of its first
/// whitespace-separated word that normalizes to a version: whole, with
/// nothing after its first `-` or anywhere else cut off.
pub proof fn law_extract_version_is_first_version_word(raw: Seq<char>, k: int)
    requires
        0 <= k < ws_tokens(raw).len(),
        spec_normalize_version_token(ws_tokens(raw)[k]) is Some,
        forall|j: int| 0 <= j < k ==> (#[trigger] spec_normalize_version_token(ws_tokens(raw)[j])) is None,
    ensures
        spec_extract_version(raw) == spec_normalize_version_token(ws_tokens(raw)[k]),
{
    lemma_first_version_in_at(ws_tokens(raw), k);
}

/// A normalized version is a stretch of the word itself: `token[a..b)`,
/// made only of version characters and holding a `.` and a digit, with
/// nothing but non-version characters around it, except one `v` just in
/// front of it.
pub proof fn law_normalized_version_is_a_stretch_of_the_word(token: Seq<char>)
    ensures
        spec_normalize_version_token(token) matches Some(v) ==> exists|a: int, b: int|
            0 <= a <= b <= token.len() && v == #[trigger] token.subrange(a, b) && (forall|m: int|
                0 <= m < a ==> !is_version_char(#[trigger] token[m]) || (m == a - 1 && token[m]
                    == 'v')) && (forall|m: int| b <= m < token.len() ==> !is_version_char(
                #[trigger] token[m],
            )) && all_version_chars(v) && v.contains('.') && has_ascii_digit(v),
{
    if let Some(v) = spec_normalize_version_token(token) {
        crate::text::lemma_leading_run_bound(token, CharClass::NonVersion);
        crate::text::lemma_trailing_run_bound(token, CharClass::NonVersion);
        let l = leading_run(token, CharClass::NonVersion) as int;
        let tr = trailing_run(token, CharClass::NonVersion) as int;
        let t = trim_class(token, CharClass::NonVersion);
        assert(l < token.len());
        assert(!CharClass::NonVersion.holds(token[l]));
        assert(token.len() - tr > l);
        let r = token.len() - tr;
        assert(t == token.subrange(l, r));
        if t.len() > 0 && t[0] == 'v' {
            assert(v == token.subrange(l + 1, r));
            assert(token[l] == 'v');
            assert forall|m: int| 0 <= m < l + 1 implies !is_version_char(#[trigger] token[m]) || (m
                == l + 1 - 1 && token[m] == 'v') by {
                if m < l {
                    assert(CharClass::NonVersion.holds(token[m]));
                }
            }
            assert forall|m: int| r <= m < token.len() implies !is_version_char(#[trigger] token[m]) by {
                assert(CharClass::NonVersion.holds(token[m]));
            }
            assert(v == token.subrange(l + 1, r));
        } else {
            assert(v == token.subrange(l, r));
            assert forall|m: int| 0 <= m < l implies !is_version_char(#[trigger] token[m]) || (m == l
                - 1 && token[m] == 'v') by {
                assert(CharClass::NonVersion.holds(token[m]));
            }
            assert forall|m: int| r <= m < token.len() implies !is_version_char(#[trigger] token[m]) by {
                assert(CharClass::NonVersion.holds(token[m]));
            }
            assert(v == token.subrange(l, r));
        }
    }
}

/// Trimming `pre + w + post` of non-version characters leaves `w`, when
/// `pre` and `post` hold none and `w` is a nonempty run of version
/// characters.
proof fn lemma_trim_around(pre: Seq<char>, w: Seq<char>, post: Seq<char>)
    requires
        w.len() > 0,
        all_version_chars(w),
        forall|m: int| 0 <= m < pre.len() ==> !is_version_char(#[trigger] pre[m]),
        forall|m: int| 0 <= m < post.len() ==> !is_version_char(#[trigger] post[m]),
    ensures
        trim_class(pre + w + post, CharClass::NonVersion) == w,
{
    let s = pre + w + post;
    assert forall|j: int| 0 <= j < pre.len() implies CharClass::NonVersion.holds(#[trigger] s[j]) by {
        assert(s[j] == pre[j]);
    }
    assert(s[pre.len() as int] == w[0]);
    assert(is_version_char(w[0]));
    lemma_leading_run_exact(s, CharClass::NonVersion, pre.len() as int);
    assert forall|j: int| s.len() - post.len() <= j < s.len() implies CharClass::NonVersion.holds(
        #[trigger] s[j],
    ) by {
        assert(s[j] == post[j - pre.len() - w.len()]);
    }
    assert(s[s.len() - 1 - post.len()] == w[w.len() - 1]);
    assert(is_version_char(w[w.len() - 1]));
    crate::text::lemma_trailing_run_exact(s, CharClass::NonVersion, post.len() as int);
    assert(s.subrange(pre.len() as int, s.len() - post.len()) == w);
}

/// Every version-shaped stretch is accepted whole: a run `w` of version
/// characters holding a `.` and a digit, with only non-version characters
/// around it, normalizes to exactly `w` (to `w` without its first
/// character when that is a `v`), and so does `v` followed by `w`.
pub proof fn law_version_shaped_word_normalizes_whole(pre: Seq<char>, w: Seq<char>, post: Seq<char>)
    requires
        all_version_chars(w),
        w.contains('.'),
        has_ascii_digit(w),
        forall|m: int| 0 <= m < pre.len() ==> !is_version_char(#[trigger] pre[m]),
        forall|m: int| 0 <= m < post.len() ==> !is_version_char(#[trigger] post[m]),
    ensures
        w[0] != 'v' ==> spec_normalize_version_token(pre + w + post) == Some(w),
        spec_normalize_version_token(pre + seq!['v'] + w + post) == Some(w),
{
    lemma_trim_around(pre, w, post);
    let vw = seq!['v'] + w;
    assert forall|i: int| 0 <= i < vw.len() implies is_version_char(#[trigger] vw[i]) by {
        if i > 0 {
            assert(vw[i] == w[i - 1]);
        }
    }
    lemma_trim_around(pre, vw, post);
    assert(pre + seq!['v'] + w + post == pre + vw + post);
    assert(vw.drop_first() == w);
}

/// Leading whitespace adds no word.
proof fn lemma_ws_tokens_skip_spaces(s: Seq<char>, p: int)
    requires
        0 <= p <= s.len(),
        forall|m: int| 0 <= m < p ==> is_unicode_whitespace(#[trigger] s[m]),
    ensures
        ws_tokens(s) == ws_tokens(s.skip(p)),
    decreases p,
{
    if p == 0 {
        assert(s.skip(0) == s);
    } else {
        lemma_ws_tokens_skip_spaces(s, p - 1);
        lemma_ws_tokens_skip_space(s, p - 1);
    }
}

/// The words of a text come in order: whitespace alone holds no word, and
/// after leading whitespace a whole run of non-whitespace characters is the
/// first word, followed by the words of the rest.
pub proof fn law_words_in_order(pre: Seq<char>, w: Seq<char>, rest: Seq<char>)
    requires
        forall|m: int| 0 <= m < pre.len() ==> is_unicode_whitespace(#[trigger] pre[m]),
        w.len() > 0,
        forall|m: int| 0 <= m < w.len() ==> !is_unicode_whitespace(#[trigger] w[m]),
        rest.len() == 0 || is_unicode_whitespace(rest[0]),
    ensures
        ws_tokens(pre) == Seq::<Seq<char>>::empty(),
        ws_tokens(pre + w + rest) == seq![w] + ws_tokens(rest),
{
    lemma_ws_tokens_skip_spaces(pre, pre.len() as int);
    assert(pre.skip(pre.len() as int) == Seq::<char>::empty());
    let s = pre + w + rest;
    let p = pre.len() as int;
    let q = p + w.len();
    assert forall|m: int| 0 <= m < p implies is_unicode_whitespace(#[trigger] s[m]) by {
        assert(s[m] == pre[m]);
    }
    lemma_ws_tokens_skip_spaces(s, p);
    assert forall|m: int| p <= m < q implies !is_unicode_whitespace(#[trigger] s[m]) by {
        assert(s[m] == w[m - p]);
    }
    if q < s.len() {
        assert(s[q] == rest[0]);
    }
    lemma_ws_tokens_word(s, p, q);
    assert(s.subrange(p, q) == w);
    assert(s.skip(q) == rest);
}

} // verus!
