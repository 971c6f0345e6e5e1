//! Character classes, trimming, whitespace splitting and string building.

use vstd::prelude::*;
use vstd::utf8::{decode_utf8, valid_utf8};

verus! {

/// ASCII letters and digits (`char::is_ascii_alphanumeric`).
pub open spec fn is_ascii_alnum(c: char) -> bool {
    ('0' <= c <= '9') || ('a' <= c <= 'z') || ('A' <= c <= 'Z')
}

/// ASCII digits (`char::is_ascii_digit`).
pub open spec fn is_ascii_digit(c: char) -> bool {
    '0' <= c <= '9'
}

/// The Unicode `White_Space` property, which is what `char::is_whitespace`,
/// `str::trim` and `str::split_whitespace` go by.
pub open spec fn is_unicode_whitespace(c: char) -> bool {
    let u = c as u32;
    ||| 0x09 <= u <= 0x0D
    ||| u == 0x20
    ||| u == 0x85
    ||| u == 0xA0
    ||| u == 0x1680
    ||| 0x2000 <= u <= 0x200A
    ||| u == 0x2028
    ||| u == 0x2029
    ||| u == 0x202F
    ||| u == 0x205F
    ||| u == 0x3000
}

/// Characters that may appear in a version token: ASCII letters and digits,
/// `.`, `-` and `_`.
pub open spec fn is_version_char(c: char) -> bool {
    is_ascii_alnum(c) || c == '.' || c == '-' || c == '_'
}

pub fn ascii_alnum(c: char) -> (b: bool)
    ensures
        b == is_ascii_alnum(c),
{
    ('0' <= c && c <= '9') || ('a' <= c && c <= 'z') || ('A' <= c && c <= 'Z')
}

pub fn ascii_digit(c: char) -> (b: bool)
    ensures
        b == is_ascii_digit(c),
{
    '0' <= c && c <= '9'
}

pub fn unicode_whitespace(c: char) -> (b: bool)
    ensures
        b == is_unicode_whitespace(c),
{
    let u = c as u32;
    (0x09 <= u && u <= 0x0D) || u == 0x20 || u == 0x85 || u == 0xA0 || u == 0x1680 || (0x2000
        <= u && u <= 0x200A) || u == 0x2028 || u == 0x2029 || u == 0x202F || u == 0x205F || u
        == 0x3000
}

pub fn version_char(c: char) -> (b: bool)
    ensures
        b == is_version_char(c),
{
    ascii_alnum(c) || c == '.' || c == '-' || c == '_'
}

/// The classes of characters that the parsers strip or split on.
#[derive(Clone, Copy, PartialEq, Eq, Debug)]
pub enum CharClass {
    /// `char::is_whitespace`.
    Whitespace,
    /// Anything but whitespace.
    NonWhitespace,
    /// Anything that cannot appear in a version token.
    NonVersion,
    /// The colon `:`.
    Colon,
}

impl CharClass {
    pub open spec fn holds(self, c: char) -> bool {
        match self {
            CharClass::Whitespace => is_unicode_whitespace(c),
            CharClass::NonWhitespace => !is_unicode_whitespace(c),
            CharClass::NonVersion => !is_version_char(c),
            CharClass::Colon => c == ':',
        }
    }

    pub fn test(&self, c: char) -> (b: bool)
        ensures
            b == self.holds(c),
    {
        match self {
            CharClass::Whitespace => unicode_whitespace(c),
            CharClass::NonWhitespace => !unicode_whitespace(c),
            CharClass::NonVersion => !version_char(c),
            CharClass::Colon => c == ':',
        }
    }
}

/// Length of the longest prefix of `s` made of characters of `class`.
pub open spec fn leading_run(s: Seq<char>, class: CharClass) -> nat
    decreases s.len(),
{
    if s.len() == 0 {
        0
    } else if class.holds(s[0]) {
        1 + leading_run(s.drop_first(), class)
    } else {
        0
    }
}

/// Length of the longest suffix of `s` made of characters of `class`.
pub open spec fn trailing_run(s: Seq<char>, class: CharClass) -> nat
    decreases s.len(),
{
    if s.len() == 0 {
        0
    } else if class.holds(s.last()) {
        1 + trailing_run(s.drop_last(), class)
    } else {
        0
    }
}

/// `s` with every leading and trailing character of `class` removed
/// (`str::trim_matches`; `str::trim` for whitespace).
pub open spec fn trim_class(s: Seq<char>, class: CharClass) -> Seq<char> {
    let a = leading_run(s, class);
    if a >= s.len() {
        Seq::empty()
    } else {
        s.subrange(a as int, s.len() - trailing_run(s, class))
    }
}

/// `str::trim`.
pub open spec fn trim_ws(s: Seq<char>) -> Seq<char> {
    trim_class(s, CharClass::Whitespace)
}

/// The whitespace-separated words of `s`, in order (`str::split_whitespace`).
pub open spec fn ws_tokens(s: Seq<char>) -> Seq<Seq<char>>
    decreases s.len(),
{
    if s.len() == 0 {
        seq![]
    } else if is_unicode_whitespace(s[0]) {
        ws_tokens(s.drop_first())
    } else {
        let k = leading_run(s, CharClass::NonWhitespace);
        proof {
            lemma_leading_run_bound(s, CharClass::NonWhitespace);
        }
        seq![s.take(k as int)] + ws_tokens(s.skip(k as int))
    }
}

pub proof fn lemma_leading_run_bound(s: Seq<char>, class: CharClass)
    ensures
        leading_run(s, class) <= s.len(),
        s.len() > 0 && class.holds(s[0]) ==> leading_run(s, class) >= 1,
        forall|j: int| 0 <= j < leading_run(s, class) ==> class.holds(#[trigger] s[j]),
        leading_run(s, class) < s.len() ==> !class.holds(s[leading_run(s, class) as int]),
    decreases s.len(),
{
    if s.len() > 0 && class.holds(s[0]) {
        lemma_leading_run_bound(s.drop_first(), class);
        assert forall|j: int| 0 <= j < leading_run(s, class) implies class.holds(#[trigger] s[j]) by {
            if j > 0 {
                assert(s[j] == s.drop_first()[j - 1]);
            }
        }
    }
}

pub proof fn lemma_trailing_run_bound(s: Seq<char>, class: CharClass)
    ensures
        trailing_run(s, class) <= s.len(),
        forall|j: int|
            s.len() - trailing_run(s, class) <= j < s.len() ==> class.holds(#[trigger] s[j]),
        trailing_run(s, class) < s.len() ==> !class.holds(
            s[s.len() - 1 - trailing_run(s, class)],
        ),
    decreases s.len(),
{
    if s.len() > 0 && class.holds(s.last()) {
        lemma_trailing_run_bound(s.drop_last(), class);
        assert forall|j: int|
            s.len() - trailing_run(s, class) <= j < s.len() implies class.holds(
            #[trigger] s[j],
        ) by {
            if j < s.len() - 1 {
                assert(s[j] == s.drop_last()[j]);
            }
        }
    }
}

/// A prefix of exactly `i` class characters followed by a non-class
/// character (or the end) is the leading run.
pub proof fn lemma_leading_run_exact(s: Seq<char>, class: CharClass, i: int)
    requires
        0 <= i <= s.len(),
        forall|j: int| 0 <= j < i ==> class.holds(#[trigger] s[j]),
        i == s.len() || !class.holds(s[i]),
    ensures
        leading_run(s, class) == i,
    decreases i,
{
    if i > 0 {
        let t = s.drop_first();
        assert forall|j: int| 0 <= j < i - 1 implies class.holds(#[trigger] t[j]) by {
            assert(t[j] == s[j + 1]);
        }
        if i < s.len() {
            assert(t[i - 1] == s[i]);
        }
        lemma_leading_run_exact(t, class, i - 1);
    }
}

pub proof fn lemma_trailing_run_exact(s: Seq<char>, class: CharClass, i: int)
    requires
        0 <= i <= s.len(),
        forall|j: int| s.len() - i <= j < s.len() ==> class.holds(#[trigger] s[j]),
        i == s.len() || !class.holds(s[s.len() - 1 - i]),
    ensures
        trailing_run(s, class) == i,
    decreases i,
{
    if i > 0 {
        let t = s.drop_last();
        assert forall|j: int| t.len() - (i - 1) <= j < t.len() implies class.holds(
            #[trigger] t[j],
        ) by {
            assert(t[j] == s[j]);
        }
        if i < s.len() {
            assert(t[t.len() - 1 - (i - 1)] == s[s.len() - 1 - i]);
        }
        assert(class.holds(s[s.len() - 1]));
        lemma_trailing_run_exact(t, class, i - 1);
    }
}

/// The bounds `(start, end)` such that `v[start..end]` is `v` trimmed of
/// `class` at both ends.
pub fn trim_bounds(v: &Vec<char>, class: CharClass) -> (r: (usize, usize))
    ensures
        r.0 <= r.1 <= v@.len(),
        v@.subrange(r.0 as int, r.1 as int) == trim_class(v@, class),
{
    let n = v.len();
    let mut a: usize = 0;
    while a < n && class.test(v[a])
        invariant
            a <= n == v@.len(),
            forall|j: int| 0 <= j < a ==> class.holds(#[trigger] v@[j]),
        decreases n - a,
    {
        a = a + 1;
    }
    proof {
        lemma_leading_run_exact(v@, class, a as int);
    }
    if a == n {
        return (n, n);
    }
    let mut t: usize = 0;
    while t < n - a && class.test(v[n - 1 - t])
        invariant
            a < n == v@.len(),
            t <= n - a,
            forall|j: int| n - t <= j < n ==> class.holds(#[trigger] v@[j]),
        decreases n - a - t,
    {
        t = t + 1;
    }
    proof {
        if t == n - a {
            assert(!class.holds(v@[a as int]));
            assert(false);
        }
        lemma_trailing_run_exact(v@, class, t as int);
    }
    (a, n - t)
}

/// Appends one character; `String::push`.
#[verifier::external_body]
pub(crate) fn push_char(s: &mut String, c: char)
    ensures
        final(s)@ == old(s)@.push(c),
{
    s.push(c);
}

/// The characters of a string slice, in order.
pub fn chars_of(s: &str) -> (v: Vec<char>)
    ensures
        v@ == s@,
{
    let mut v: Vec<char> = Vec::new();
    for c in it: s.chars()
        invariant
            v@ == it.seq().take(it.index() as int),
            it.seq() == s@,
    {
        v.push(c);
    }
    v
}

/// A string made of `v[start..end]`.
pub fn string_of(v: &Vec<char>, start: usize, end: usize) -> (s: String)
    requires
        start <= end <= v@.len(),
    ensures
        s@ == v@.subrange(start as int, end as int),
{
    let mut s = String::new();
    let mut i = start;
    while i < end
        invariant
            start <= i <= end <= v@.len(),
            s@ == v@.subrange(start as int, i as int),
        decreases end - i,
    {
        push_char(&mut s, v[i]);
        i = i + 1;
        assert(s@ == v@.subrange(start as int, i as int));
    }
    s
}

/// The trimmed text of a string (`str::trim`).
pub fn trim(s: &str) -> (r: String)
    ensures
        r@ == trim_ws(s@),
{
    let v = chars_of(s);
    let (a, b) = trim_bounds(&v, CharClass::Whitespace);
    string_of(&v, a, b)
}

/// Appends a string slice.
pub fn push_str(s: &mut String, t: &str)
    ensures
        final(s)@ == old(s)@ + t@,
{
    s.append(t);
}

/// Index of the first `sep` in `s`, or `s.len()` when there is none.
pub open spec fn index_of(s: Seq<char>, sep: char) -> nat
    decreases s.len(),
{
    if s.len() == 0 {
        0
    } else if s[0] == sep {
        0
    } else {
        1 + index_of(s.drop_first(), sep)
    }
}

pub proof fn lemma_index_of(s: Seq<char>, sep: char)
    ensures
        index_of(s, sep) <= s.len(),
        forall|j: int| 0 <= j < index_of(s, sep) ==> #[trigger] s[j] != sep,
        index_of(s, sep) < s.len() ==> s[index_of(s, sep) as int] == sep,
    decreases s.len(),
{
    if s.len() > 0 && s[0] != sep {
        lemma_index_of(s.drop_first(), sep);
        assert forall|j: int| 0 <= j < index_of(s, sep) implies #[trigger] s[j] != sep by {
            if j > 0 {
                assert(s[j] == s.drop_first()[j - 1]);
            }
        }
    }
}

pub proof fn lemma_index_of_exact(s: Seq<char>, sep: char, i: int)
    requires
        0 <= i <= s.len(),
        forall|j: int| 0 <= j < i ==> #[trigger] s[j] != sep,
        i == s.len() || s[i] == sep,
    ensures
        index_of(s, sep) == i,
    decreases i,
{
    if i > 0 {
        let t = s.drop_first();
        assert forall|j: int| 0 <= j < i - 1 implies #[trigger] t[j] != sep by {
            assert(t[j] == s[j + 1]);
        }
        if i < s.len() {
            assert(t[i - 1] == s[i]);
        }
        lemma_index_of_exact(t, sep, i - 1);
    }
}

/// The pieces of `s` between occurrences of `sep`, empty pieces included
/// (`str::split` with a character).
pub open spec fn split_on(s: Seq<char>, sep: char) -> Seq<Seq<char>>
    decreases s.len(),
{
    let i = index_of(s, sep);
    proof {
        lemma_index_of(s, sep);
    }
    if i >= s.len() {
        seq![s]
    } else {
        seq![s.take(i as int)] + split_on(s.skip(i as int + 1), sep)
    }
}

/// The views of a list of strings.
pub open spec fn views(v: Seq<String>) -> Seq<Seq<char>> {
    v.map_values(|s: String| s@)
}

/// Splits `v[start..]` at every `sep`.
pub fn split_chars(v: &Vec<char>, start: usize, sep: char) -> (parts: Vec<String>)
    requires
        start <= v@.len(),
    ensures
        views(parts@) == split_on(v@.skip(start as int), sep),
{
    let n = v.len();
    let mut parts: Vec<String> = Vec::new();
    let mut from = start;
    let mut i = start;
    while i < n
        invariant
            start <= from <= i <= n == v@.len(),
            split_on(v@.skip(start as int), sep) == views(parts@) + split_on(v@.skip(from as int), sep),
            forall|j: int| from <= j < i ==> #[trigger] v@[j] != sep,
        decreases n - i,
    {
        if v[i] == sep {
            let ghost rest = v@.skip(from as int);
            proof {
                assert forall|j: int| 0 <= j < i - from implies #[trigger] rest[j] != sep by {
                    assert(rest[j] == v@[j + from]);
                }
                assert(rest[i - from] == v@[i as int]);
                lemma_index_of_exact(rest, sep, i - from);
                assert(rest.take(i - from) == v@.subrange(from as int, i as int));
                assert(rest.skip(i - from + 1) == v@.skip(i + 1));
            }
            let piece = string_of(v, from, i);
            let ghost before = parts@;
            parts.push(piece);
            proof {
                assert(views(parts@) == views(before).push(piece@));
                assert(views(before) + (seq![piece@] + split_on(v@.skip(i + 1), sep)) == views(
                    parts@,
                ) + split_on(v@.skip(i + 1), sep));
            }
            from = i + 1;
        }
        i = i + 1;
    }
    let ghost rest = v@.skip(from as int);
    proof {
        assert forall|j: int| 0 <= j < rest.len() implies #[trigger] rest[j] != sep by {
            assert(rest[j] == v@[j + from]);
        }
        lemma_index_of_exact(rest, sep, rest.len() as int);
        assert(rest == v@.subrange(from as int, n as int));
    }
    let last = string_of(v, from, n);
    let ghost before = parts@;
    parts.push(last);
    assert(views(parts@) == views(before).push(last@));
    assert(views(before) + seq![last@] == views(parts@));
    parts
}

/// `parts` joined with `sep` between neighbours (`[T]::join`).
pub open spec fn join_with(parts: Seq<Seq<char>>, sep: Seq<char>) -> Seq<char>
    decreases parts.len(),
{
    if parts.len() == 0 {
        seq![]
    } else if parts.len() == 1 {
        parts[0]
    } else {
        join_with(parts.drop_last(), sep) + sep + parts.last()
    }
}

/// Joining two nonempty lists is joining each and putting `sep` between.
pub proof fn lemma_join_with_concat(a: Seq<Seq<char>>, b: Seq<Seq<char>>, sep: Seq<char>)
    requires
        a.len() > 0,
        b.len() > 0,
    ensures
        join_with(a + b, sep) == join_with(a, sep) + sep + join_with(b, sep),
    decreases b.len(),
{
    let ab = a + b;
    if b.len() == 1 {
        assert(ab.drop_last() == a);
        assert(ab.last() == b[0]);
    } else {
        assert(ab.drop_last() == a + b.drop_last());
        assert(ab.last() == b.last());
        lemma_join_with_concat(a, b.drop_last(), sep);
        assert(join_with(a, sep) + sep + join_with(b.drop_last(), sep) + sep + b.last() == join_with(a, sep)
            + sep + (join_with(b.drop_last(), sep) + sep + b.last()));
    }
}

/// Splitting at `sep` gives at least one piece, and no piece holds `sep`.
pub proof fn lemma_split_on_pieces(s: Seq<char>, sep: char)
    ensures
        split_on(s, sep).len() > 0,
        forall|k: int| 0 <= k < split_on(s, sep).len() ==> !(#[trigger] split_on(s, sep)[k]).contains(sep),
    decreases s.len(),
{
    lemma_index_of(s, sep);
    let i = index_of(s, sep);
    if i >= s.len() {
        assert(split_on(s, sep) == seq![s]);
        assert forall|k: int| 0 <= k < 1 implies !(#[trigger] split_on(s, sep)[k]).contains(sep) by {
            if s.contains(sep) {
                let j = choose|j: int| 0 <= j < s.len() && s[j] == sep;
                assert(s[j] != sep);
            }
        }
    } else {
        let rest = s.skip(i as int + 1);
        lemma_split_on_pieces(rest, sep);
        let first = s.take(i as int);
        assert(split_on(s, sep) == seq![first] + split_on(rest, sep));
        assert forall|k: int| 0 <= k < split_on(s, sep).len() implies !(#[trigger] split_on(s, sep)[k]).contains(sep) by {
            if k == 0 {
                assert(split_on(s, sep)[0] == first);
                if first.contains(sep) {
                    let j = choose|j: int| 0 <= j < first.len() && first[j] == sep;
                    assert(s[j] == first[j]);
                }
            } else {
                assert(split_on(s, sep)[k] == split_on(rest, sep)[k - 1]);
            }
        }
    }
}

/// Joining the pieces of a split with the separator gives the text back.
pub proof fn lemma_join_split(s: Seq<char>, sep: char)
    ensures
        join_with(split_on(s, sep), seq![sep]) == s,
    decreases s.len(),
{
    lemma_index_of(s, sep);
    let i = index_of(s, sep);
    if i < s.len() {
        let rest = s.skip(i as int + 1);
        lemma_join_split(rest, sep);
        lemma_split_on_pieces(rest, sep);
        let first = s.take(i as int);
        assert(split_on(s, sep) == seq![first] + split_on(rest, sep));
        lemma_join_with_concat(seq![first], split_on(rest, sep), seq![sep]);
        assert(join_with(seq![first], seq![sep]) == first);
        assert(first + seq![sep] + rest == s);
    }
}

/// Joins `parts[from..]` with `sep`.
pub fn join_strings(parts: &Vec<String>, from: usize, sep: &str) -> (r: String)
    requires
        from <= parts@.len(),
    ensures
        r@ == join_with(views(parts@).skip(from as int), sep@),
{
    let mut r = String::new();
    let mut i = from;
    let ghost all = views(parts@).skip(from as int);
    assert(all.take(0) == Seq::<Seq<char>>::empty());
    while i < parts.len()
        invariant
            from <= i <= parts@.len(),
            all == views(parts@).skip(from as int),
            r@ == join_with(all.take(i - from), sep@),
        decreases parts@.len() - i,
    {
        assert(all.take(i + 1 - from).drop_last() == all.take(i - from));
        assert(all.take(i + 1 - from).last() == parts@[i as int]@);
        if i > from {
            push_str(&mut r, sep);
        } else {
            assert(all.take(1) == seq![parts@[i as int]@]);
        }
        push_str(&mut r, parts[i].as_str());
        i = i + 1;
    }
    assert(all.take(parts@.len() - from) == all);
    r
}

/// What `String::from_utf8_lossy` makes of a byte sequence.
pub uninterp spec fn utf8_lossy(bytes: Seq<u8>) -> Seq<char>;

/// The text that bytes decode to: the UTF-8 decoding when they are valid
/// UTF-8, otherwise what `String::from_utf8_lossy` makes of them.
pub open spec fn utf8_text(bytes: Seq<u8>) -> Seq<char> {
    if valid_utf8(bytes) {
        decode_utf8(bytes)
    } else {
        utf8_lossy(bytes)
    }
}

/// `String::from_utf8_lossy`: decodes UTF-8, putting U+FFFD in place of
/// every invalid sequence. Its result is named `utf8_lossy`; the facts
/// stated of it are the documented ones: valid UTF-8 decodes unchanged, and
/// the text of invalid input holds the replacement character. Where each
/// replacement stands and how many there are is left unsaid.
#[verifier::external_body]
pub(crate) fn lossy_string(bytes: &[u8]) -> (s: String)
    ensures
        s@ == utf8_lossy(bytes@),
        valid_utf8(bytes@) ==> s@ == decode_utf8(bytes@),
        !valid_utf8(bytes@) ==> s@.contains('\u{FFFD}'),
{
    String::from_utf8_lossy(bytes).into_owned()
}

/// The view of an optional string.
pub open spec fn opt_view(o: Option<String>) -> Option<Seq<char>> {
    match o {
        Some(s) => Some(s@),
        None => None,
    }
}

/// The view of an optional string slice.
pub open spec fn opt_str(o: Option<&str>) -> Option<Seq<char>> {
    match o {
        Some(s) => Some(s@),
        None => None,
    }
}

/// The decimal digit character for `d < 10`.
pub open spec fn digit_char(d: nat) -> char {
    if d == 0 { '0' }
    else if d == 1 { '1' }
    else if d == 2 { '2' }
    else if d == 3 { '3' }
    else if d == 4 { '4' }
    else if d == 5 { '5' }
    else if d == 6 { '6' }
    else if d == 7 { '7' }
    else if d == 8 { '8' }
    else { '9' }
}

/// The decimal representation of `n`, as `{}` prints an unsigned integer.
pub open spec fn spec_decimal(n: nat) -> Seq<char>
    decreases n,
{
    if n < 10 {
        seq![digit_char(n)]
    } else {
        spec_decimal(n / 10).push(digit_char(n % 10))
    }
}

pub proof fn lemma_decimal_digits(n: nat)
    ensures
        spec_decimal(n).len() >= 1,
        forall|i: int| 0 <= i < spec_decimal(n).len() ==> is_ascii_digit(#[trigger] spec_decimal(n)[i]),
    decreases n,
{
    if n >= 10 {
        lemma_decimal_digits(n / 10);
        let p = spec_decimal(n / 10);
        assert forall|i: int| 0 <= i < spec_decimal(n).len() implies is_ascii_digit(#[trigger] spec_decimal(n)[i]) by {
            if i < p.len() {
                assert(spec_decimal(n)[i] == p[i]);
            }
        }
    }
}

fn digit(d: u128) -> (c: char)
    requires
        d < 10,
    ensures
        c == digit_char(d as nat),
{
    if d == 0 { '0' }
    else if d == 1 { '1' }
    else if d == 2 { '2' }
    else if d == 3 { '3' }
    else if d == 4 { '4' }
    else if d == 5 { '5' }
    else if d == 6 { '6' }
    else if d == 7 { '7' }
    else if d == 8 { '8' }
    else { '9' }
}

/// Appends the decimal representation of `n`.
pub fn push_decimal(s: &mut String, n: u128)
    ensures
        final(s)@ == old(s)@ + spec_decimal(n as nat),
{
    let mut m = n;
    let mut rev: Vec<char> = Vec::new();
    while m >= 10
        invariant
            spec_decimal(n as nat) == spec_decimal(m as nat) + rev@.reverse(),
        decreases m,
    {
        let d = digit(m % 10);
        proof {
            assert(rev@.push(d).reverse() =~= seq![d] + rev@.reverse());
            assert(spec_decimal(m as nat) == spec_decimal((m / 10) as nat).push(d));
            assert(spec_decimal((m / 10) as nat).push(d) + rev@.reverse() =~= spec_decimal(
                (m / 10) as nat,
            ) + rev@.push(d).reverse());
        }
        rev.push(d);
        m = m / 10;
    }
    let last = digit(m);
    assert(spec_decimal(m as nat) == seq![last]);
    let ghost start = s@;
    push_char(s, last);
    let mut i = rev.len();
    while i > 0
        invariant
            i <= rev@.len(),
            spec_decimal(n as nat) == seq![last] + rev@.reverse(),
            s@ == start + seq![last] + rev@.subrange(i as int, rev@.len() as int).reverse(),
        decreases i,
    {
        i = i - 1;
        let c = rev[i];
        proof {
            assert(rev@.subrange(i as int, rev@.len() as int).reverse() =~= rev@.subrange(
                i + 1,
                rev@.len() as int,
            ).reverse().push(c));
        }
        push_char(s, c);
    }
    assert(rev@.subrange(0, rev@.len() as int) == rev@);
}

} // verus!
