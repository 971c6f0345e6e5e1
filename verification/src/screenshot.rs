//! Screenshot helpers: PNG header inspection, `file://` URI decoding,
//! portal request naming and the data URL of a captured image.

use vstd::prelude::*;
use vstd::utf8::{encode_scalar, encode_utf8, has_width_1_encoding, valid_utf8};
use base64::Engine;
use crate::text::{
    lemma_decimal_digits, push_decimal, spec_decimal, lossy_string, utf8_text, chars_of, is_ascii_alnum, leading_run, lemma_leading_run_exact, push_char,
    push_str, string_of, CharClass,
};

verus! {

/// A captured screenshot, ready to hand to a client as a data URL.
#[derive(Debug, Clone)]
pub struct ScreenshotCapture {
    pub mime_type: String,
    pub data_url: String,
    pub source: String,
    pub width: u32,
    pub height: u32,
}

/// Why a byte buffer is not a usable PNG.
#[derive(Debug, Clone, Copy, PartialEq, Eq)]
pub enum PngError {
    /// Too short, wrong signature, or the first chunk is not `IHDR`.
    NotPng,
    /// The `IHDR` chunk gives a zero width or height.
    InvalidDimensions { width: u32, height: u32 },
}

/// The eight-byte PNG file signature `\x89PNG\r\n\x1a\n`.
pub open spec fn png_signature() -> Seq<u8> {
    seq![0x89u8, 0x50u8, 0x4Eu8, 0x47u8, 0x0Du8, 0x0Au8, 0x1Au8, 0x0Au8]
}

/// The chunk type `IHDR`.
pub open spec fn ihdr_tag() -> Seq<u8> {
    seq![0x49u8, 0x48u8, 0x44u8, 0x52u8]
}

/// The big-endian 32-bit number in `b[at..at + 4]`.
pub open spec fn be_u32_at(b: Seq<u8>, at: int) -> int {
    b[at] * 0x100_0000 + b[at + 1] * 0x1_0000 + b[at + 2] * 0x100 + b[at + 3]
}

/// The buffer starts like a PNG whose first chunk is `IHDR`.
pub open spec fn has_png_header(b: Seq<u8>) -> bool {
    &&& b.len() >= 24
    &&& b.subrange(0, 8) == png_signature()
    &&& b.subrange(12, 16) == ihdr_tag()
}

/// Width and height read from the `IHDR` chunk, or why they cannot be.
pub open spec fn spec_png_dimensions(b: Seq<u8>) -> Result<(u32, u32), PngError> {
    if !has_png_header(b) {
        Err(PngError::NotPng)
    } else {
        let w = be_u32_at(b, 16) as u32;
        let h = be_u32_at(b, 20) as u32;
        if w == 0 || h == 0 {
            Err(PngError::InvalidDimensions { width: w, height: h })
        } else {
            Ok((w, h))
        }
    }
}

fn read_be_u32(b: &[u8], at: usize) -> (r: u32)
    requires
        at + 4 <= b@.len(),
    ensures
        r as int == be_u32_at(b@, at as int),
{
    (b[at] as u32) * 0x100_0000 + (b[at + 1] as u32) * 0x1_0000 + (b[at + 2] as u32) * 0x100 + (
    b[at + 3] as u32)
}

/// Reads the image size from the `IHDR` chunk that must follow the PNG
/// signature; a zero width or height is rejected.
pub fn png_dimensions(bytes: &[u8]) -> (r: Result<(u32, u32), PngError>)
    ensures
        r == spec_png_dimensions(bytes@),
{
    let sig: [u8; 8] = [0x89, 0x50, 0x4E, 0x47, 0x0D, 0x0A, 0x1A, 0x0A];
    let tag: [u8; 4] = [0x49, 0x48, 0x44, 0x52];
    assert(sig@ == png_signature());
    assert(tag@ == ihdr_tag());
    if bytes.len() < 24 {
        return Err(PngError::NotPng);
    }
    let mut i: usize = 0;
    while i < 8
        invariant
            i <= 8,
            bytes@.len() >= 24,
            sig@ == png_signature(),
            forall|k: int| 0 <= k < i ==> bytes@[k] == sig@[k],
        decreases 8 - i,
    {
        if bytes[i] != sig[i] {
            assert(bytes@.subrange(0, 8)[i as int] != png_signature()[i as int]);
            return Err(PngError::NotPng);
        }
        i = i + 1;
    }
    assert(bytes@.subrange(0, 8) == png_signature());
    let mut j: usize = 0;
    while j < 4
        invariant
            j <= 4,
            bytes@.len() >= 24,
            tag@ == ihdr_tag(),
            forall|k: int| 0 <= k < j ==> bytes@[12 + k] == tag@[k],
        decreases 4 - j,
    {
        if bytes[12 + j] != tag[j] {
            assert(bytes@.subrange(12, 16)[j as int] != ihdr_tag()[j as int]);
            return Err(PngError::NotPng);
        }
        j = j + 1;
    }
    assert(bytes@.subrange(12, 16) == ihdr_tag());
    let width = read_be_u32(bytes, 16);
    let height = read_be_u32(bytes, 20);
    if width == 0 || height == 0 {
        return Err(PngError::InvalidDimensions { width, height });
    }
    Ok((width, height))
}

/// The value of an ASCII hexadecimal digit.
pub open spec fn hex_digit_value(b: u8) -> Option<u8> {
    if 0x30 <= b <= 0x39 {
        Some((b - 0x30) as u8)
    } else if 0x61 <= b <= 0x66 {
        Some((b - 0x61 + 10) as u8)
    } else if 0x41 <= b <= 0x46 {
        Some((b - 0x41 + 10) as u8)
    } else {
        None
    }
}

/// The byte that the two characters after a `%` stand for, as
/// `u8::from_str_radix(_, 16)` reads them: two hex digits, or a `+` sign and
/// one hex digit.
pub open spec fn spec_hex_pair(hi: u8, lo: u8) -> Option<u8> {
    if hi == 0x2B {
        hex_digit_value(lo)
    } else {
        match (hex_digit_value(hi), hex_digit_value(lo)) {
            (Some(h), Some(l)) => Some((h * 16 + l) as u8),
            _ => None,
        }
    }
}

/// Percent-decoding of a byte sequence: `%` followed by two characters that
/// read as a hexadecimal byte becomes that byte; every other byte is kept.
pub open spec fn percent_decoded(b: Seq<u8>) -> Seq<u8>
    decreases b.len(),
{
    if b.len() == 0 {
        seq![]
    } else if b[0] == 0x25 && b.len() >= 3 && spec_hex_pair(b[1], b[2]) is Some {
        seq![spec_hex_pair(b[1], b[2])->0] + percent_decoded(b.skip(3))
    } else {
        seq![b[0]] + percent_decoded(b.drop_first())
    }
}

fn hex_value(b: u8) -> (r: Option<u8>)
    ensures
        r == hex_digit_value(b),
{
    if 0x30 <= b && b <= 0x39 {
        Some(b - 0x30)
    } else if 0x61 <= b && b <= 0x66 {
        Some(b - 0x61 + 10)
    } else if 0x41 <= b && b <= 0x46 {
        Some(b - 0x41 + 10)
    } else {
        None
    }
}

fn hex_pair(hi: u8, lo: u8) -> (r: Option<u8>)
    ensures
        r == spec_hex_pair(hi, lo),
{
    if hi == 0x2B {
        hex_value(lo)
    } else {
        match (hex_value(hi), hex_value(lo)) {
            (Some(h), Some(l)) => Some(h * 16 + l),
            _ => None,
        }
    }
}

/// Percent-decodes the bytes of `b`.
pub fn percent_decode_bytes(b: &[u8]) -> (out: Vec<u8>)
    ensures
        out@ == percent_decoded(b@),
{
    let n = b.len();
    let mut out: Vec<u8> = Vec::new();
    let mut i: usize = 0;
    assert(b@.skip(0) == b@);
    while i < n
        invariant
            i <= n == b@.len(),
            percent_decoded(b@) == out@ + percent_decoded(b@.skip(i as int)),
        decreases n - i,
    {
        let ghost rest = b@.skip(i as int);
        assert(rest[0] == b@[i as int]);
        if b[i] == 0x25 && 2 < n - i {
            assert(rest[1] == b@[i + 1]);
            assert(rest[2] == b@[i + 2]);
            if let Some(byte) = hex_pair(b[i + 1], b[i + 2]) {
                assert(rest.skip(3) == b@.skip(i + 3));
                out.push(byte);
                i = i + 3;
                continue;
            }
        }
        assert(rest.drop_first() == b@.skip(i + 1));
        out.push(b[i]);
        i = i + 1;
    }
    assert(b@.skip(n as int) == Seq::<u8>::empty());
    assert(out@ + Seq::<u8>::empty() == out@);
    out
}

/// Decodes `%XX` escapes in the UTF-8 bytes of `value`; the result is read
/// back as UTF-8 with invalid sequences replaced.
pub fn percent_decode(value: &str) -> (r: String)
    ensures
        r@ == utf8_text(percent_decoded(encode_utf8(value@))),
        !valid_utf8(percent_decoded(encode_utf8(value@))) ==> r@.contains('\u{FFFD}'),
{
    let decoded = percent_decode_bytes(value.as_bytes());
    lossy_string(decoded.as_slice())
}

/// A URI that names no local file.
#[derive(Debug, Clone, PartialEq, Eq)]
pub enum UriError {
    /// The URI does not start with `file://`; it is kept for the message.
    Unsupported { uri: String },
}

/// The scheme prefix `file://`.
pub open spec fn file_scheme() -> Seq<char> {
    seq!['f', 'i', 'l', 'e', ':', '/', '/']
}

/// The local path that a `file://` URI names: the rest of the URI,
/// percent-decoded.
pub open spec fn spec_file_uri_path(uri: Seq<char>) -> Option<Seq<char>> {
    if uri.len() >= 7 && uri.take(7) == file_scheme() {
        Some(utf8_text(percent_decoded(encode_utf8(uri.skip(7)))))
    } else {
        None
    }
}

/// The path of a `file://` URI, with percent escapes decoded; any other
/// URI is refused.
pub fn file_uri_to_path(uri: &str) -> (r: Result<String, UriError>)
    ensures
        match r {
            Ok(p) => spec_file_uri_path(uri@) == Some(p@),
            Err(UriError::Unsupported { uri: u }) => spec_file_uri_path(uri@) is None && u@ == uri@,
        },
{
    let v = chars_of(uri);
    let scheme: [char; 7] = ['f', 'i', 'l', 'e', ':', '/', '/'];
    assert(scheme@ == file_scheme());
    if v.len() < 7 {
        return Err(UriError::Unsupported { uri: string_of(&v, 0, v.len()) });
    }
    let mut i: usize = 0;
    while i < 7
        invariant
            i <= 7 <= v@.len(),
            v@ == uri@,
            scheme@ == file_scheme(),
            forall|k: int| 0 <= k < i ==> v@[k] == scheme@[k],
        decreases 7 - i,
    {
        if v[i] != scheme[i] {
            assert(v@.take(7)[i as int] != file_scheme()[i as int]);
            return Err(UriError::Unsupported { uri: string_of(&v, 0, v.len()) });
        }
        i = i + 1;
    }
    assert(v@.take(7) == file_scheme());
    let rest = string_of(&v, 7, v.len());
    assert(rest@ == uri@.skip(7));
    Ok(percent_decode(rest.as_str()))
}

proof fn lemma_encode_scalar_no_percent(c: char)
    requires
        c != '%',
    ensures
        forall|k: int|
            0 <= k < encode_scalar(c as u32).len() ==> #[trigger] encode_scalar(c as u32)[k] != 0x25u8,
{
    let v = c as u32;
    assert(v != 0x25u32);
    if has_width_1_encoding(v) {
        assert((v & 0x7Fu32) as u8 != 0x25u8) by (bit_vector)
            requires
                v <= 0x7Fu32,
                v != 0x25u32,
        ;
    } else {
        assert((0xC0u8 | ((v >> 6u32) & 0x1Fu32) as u8) != 0x25u8) by (bit_vector);
        assert((0xE0u8 | ((v >> 12u32) & 0x0Fu32) as u8) != 0x25u8) by (bit_vector);
        assert((0xF0u8 | ((v >> 18u32) & 0x7u32) as u8) != 0x25u8) by (bit_vector);
        assert((0x80u8 | (v & 0x3Fu32) as u8) != 0x25u8) by (bit_vector);
        assert((0x80u8 | ((v >> 6u32) & 0x3Fu32) as u8) != 0x25u8) by (bit_vector);
        assert((0x80u8 | ((v >> 12u32) & 0x3Fu32) as u8) != 0x25u8) by (bit_vector);
    }
}

proof fn lemma_encode_utf8_no_percent(s: Seq<char>)
    requires
        !s.contains('%'),
    ensures
        forall|k: int| 0 <= k < encode_utf8(s).len() ==> #[trigger] encode_utf8(s)[k] != 0x25u8,
    decreases s.len(),
{
    if s.len() > 0 {
        assert(s[0] != '%');
        lemma_encode_scalar_no_percent(s[0]);
        assert(!s.drop_first().contains('%')) by {
            if s.drop_first().contains('%') {
                let k = choose|k: int| 0 <= k < s.drop_first().len() && s.drop_first()[k] == '%';
                assert(s[k + 1] == '%');
            }
        }
        lemma_encode_utf8_no_percent(s.drop_first());
        let head = encode_scalar(s[0] as u32);
        let tail = encode_utf8(s.drop_first());
        assert(encode_utf8(s) == head + tail);
        assert forall|k: int| 0 <= k < encode_utf8(s).len() implies #[trigger] encode_utf8(s)[k] != 0x25u8 by {
            if k < head.len() {
                assert(encode_utf8(s)[k] == head[k]);
            } else {
                assert(encode_utf8(s)[k] == tail[k - head.len()]);
            }
        }
    }
}

proof fn lemma_percent_decoded_plain(b: Seq<u8>)
    requires
        forall|k: int| 0 <= k < b.len() ==> #[trigger] b[k] != 0x25u8,
    ensures
        percent_decoded(b) == b,
    decreases b.len(),
{
    if b.len() > 0 {
        assert(b[0] != 0x25u8);
        assert forall|k: int| 0 <= k < b.drop_first().len() implies #[trigger] b.drop_first()[k] != 0x25u8 by {
            assert(b.drop_first()[k] == b[k + 1]);
        }
        lemma_percent_decoded_plain(b.drop_first());
        assert(seq![b[0]] + b.drop_first() == b);
    }
}

/// A `file://` URI without percent escapes names exactly the path written
/// after the scheme.
pub proof fn law_plain_file_uri(path: Seq<char>)
    requires
        !path.contains('%'),
    ensures
        spec_file_uri_path(file_scheme() + path) == Some(path),
{
    let uri = file_scheme() + path;
    assert(uri.take(7) == file_scheme());
    assert(uri.skip(7) == path);
    lemma_encode_utf8_no_percent(path);
    lemma_percent_decoded_plain(encode_utf8(path));
    vstd::utf8::encode_utf8_valid_utf8(path);
    vstd::utf8::encode_utf8_decode_utf8(path);
}

/// `-` made `_`.
pub open spec fn dash_to_underscore(c: char) -> char {
    if c == '-' {
        '_'
    } else {
        c
    }
}

/// `.` made `_`.
pub open spec fn dot_to_underscore(c: char) -> char {
    if c == '.' {
        '_'
    } else {
        c
    }
}

/// The prefix of every portal request token.
pub open spec fn token_prefix() -> Seq<char> {
    seq!['c', 'o', 'd', 'e', 'x', '_']
}

/// A character that may appear in a D-Bus object path element.
pub open spec fn is_portal_safe(c: char) -> bool {
    is_ascii_alnum(c) || c == '_'
}

/// `codex_` and the suffix with its dashes made underscores.
pub open spec fn spec_request_token(suffix: Seq<char>) -> Seq<char> {
    token_prefix() + suffix.map_values(|c: char| dash_to_underscore(c))
}

/// The suffix that makes temporary names unique: the process id and the
/// time in nanoseconds, in decimal, joined by a dash.
pub open spec fn spec_unique_suffix(pid: nat, nanos: nat) -> Seq<char> {
    spec_decimal(pid) + seq!['-'] + spec_decimal(nanos)
}

/// The unique suffix for a process id and a time in nanoseconds since the
/// Unix epoch.
pub fn unique_suffix(pid: u32, nanos: u128) -> (r: String)
    ensures
        r@ == spec_unique_suffix(pid as nat, nanos as nat),
        forall|i: int| 0 <= i < r@.len() ==> is_ascii_alnum(#[trigger] r@[i]) || r@[i] == '-',
{
    let mut r = String::new();
    push_decimal(&mut r, pid as u128);
    push_char(&mut r, '-');
    push_decimal(&mut r, nanos);
    proof {
        lemma_decimal_digits(pid as nat);
        lemma_decimal_digits(nanos as nat);
        let a = spec_decimal(pid as nat);
        let b = spec_decimal(nanos as nat);
        assert forall|i: int| 0 <= i < r@.len() implies is_ascii_alnum(#[trigger] r@[i]) || r@[i] == '-' by {
            if i < a.len() {
                assert(r@[i] == a[i]);
            } else if i > a.len() {
                assert(r@[i] == b[i - a.len() - 1]);
            }
        }
    }
    r
}

/// Every portal request token is safe in an object path, whatever the
/// process id and the time it was made at.
pub proof fn law_request_token_portal_safe(pid: nat, nanos: nat)
    ensures
        spec_request_token(spec_unique_suffix(pid, nanos)).take(6) == token_prefix(),
        forall|j: int|
            0 <= j < spec_request_token(spec_unique_suffix(pid, nanos)).len() ==> is_portal_safe(
                #[trigger] spec_request_token(spec_unique_suffix(pid, nanos))[j],
            ),
{
    lemma_decimal_digits(pid);
    lemma_decimal_digits(nanos);
    let a = spec_decimal(pid);
    let b = spec_decimal(nanos);
    let s = spec_unique_suffix(pid, nanos);
    let t = spec_request_token(s);
    assert(t.take(6) == token_prefix());
    assert forall|j: int| 0 <= j < t.len() implies is_portal_safe(#[trigger] t[j]) by {
        if j >= 6 {
            let i = j - 6;
            assert(t[j] == dash_to_underscore(s[i]));
            if i < a.len() {
                assert(s[i] == a[i]);
            } else if i > a.len() {
                assert(s[i] == b[i - a.len() - 1]);
            }
        }
    }
}

/// The handle token for an XDG portal request: `codex_` followed by the
/// unique suffix with its dashes made underscores. A suffix made of ASCII
/// letters, digits and dashes gives a token that is safe in an object path.
pub fn request_token(suffix: &str) -> (r: String)
    ensures
        r@ == spec_request_token(suffix@),
        r@.take(6) == token_prefix(),
        (forall|i: int| 0 <= i < suffix@.len() ==> is_ascii_alnum(#[trigger] suffix@[i]) || suffix@[i] == '-')
            ==> (forall|j: int| 0 <= j < r@.len() ==> is_portal_safe(#[trigger] r@[j])),
{
    let v = chars_of(suffix);
    let mut r = String::new();
    push_char(&mut r, 'c');
    push_char(&mut r, 'o');
    push_char(&mut r, 'd');
    push_char(&mut r, 'e');
    push_char(&mut r, 'x');
    push_char(&mut r, '_');
    assert(r@ == token_prefix());
    let ghost mapped = suffix@.map_values(|c: char| dash_to_underscore(c));
    let mut i: usize = 0;
    while i < v.len()
        invariant
            i <= v@.len(),
            v@ == suffix@,
            mapped == suffix@.map_values(|c: char| dash_to_underscore(c)),
            r@ == token_prefix() + mapped.take(i as int),
        decreases v@.len() - i,
    {
        let c = v[i];
        if c == '-' {
            push_char(&mut r, '_');
        } else {
            push_char(&mut r, c);
        }
        assert(mapped.take(i + 1) == mapped.take(i as int).push(mapped[i as int]));
        i = i + 1;
    }
    assert(mapped.take(v@.len() as int) == mapped);
    assert(r@.take(6) == token_prefix());
    r
}

/// The object path of the portal request that a sender with the given
/// unique bus name makes with the given token: the name loses its leading
/// colons and has its dots made underscores.
pub open spec fn spec_portal_request_path(unique_name: Seq<char>, token: Seq<char>) -> Seq<char> {
    let name = unique_name.skip(leading_run(unique_name, CharClass::Colon) as int);
    "/org/freedesktop/portal/desktop/request/"@ + name.map_values(|c: char| dot_to_underscore(c))
        + seq!['/'] + token
}

/// The request object path on which the portal answers a screenshot call.
pub fn portal_request_path(unique_name: &str, token: &str) -> (r: String)
    ensures
        r@ == spec_portal_request_path(unique_name@, token@),
{
    let v = chars_of(unique_name);
    let mut a: usize = 0;
    while a < v.len() && v[a] == ':'
        invariant
            a <= v@.len(),
            forall|j: int| 0 <= j < a ==> CharClass::Colon.holds(#[trigger] v@[j]),
        decreases v@.len() - a,
    {
        a = a + 1;
    }
    proof {
        lemma_leading_run_exact(v@, CharClass::Colon, a as int);
    }
    let ghost name = v@.skip(a as int);
    let ghost mapped = name.map_values(|c: char| dot_to_underscore(c));
    let mut r = String::new();
    push_str(&mut r, "/org/freedesktop/portal/desktop/request/");
    let ghost base = r@;
    let mut i = a;
    while i < v.len()
        invariant
            a <= i <= v@.len(),
            name == v@.skip(a as int),
            mapped == name.map_values(|c: char| dot_to_underscore(c)),
            r@ == base + mapped.take(i - a),
        decreases v@.len() - i,
    {
        let c = v[i];
        if c == '.' {
            push_char(&mut r, '_');
        } else {
            push_char(&mut r, c);
        }
        assert(mapped.take(i + 1 - a) == mapped.take(i - a).push(mapped[i - a]));
        i = i + 1;
    }
    assert(mapped.take(v@.len() - a) == mapped);
    push_char(&mut r, '/');
    push_str(&mut r, token);
    r
}

/// The file name of a temporary screenshot written for `source`.
pub fn temp_png_file_name(source: &str, suffix: &str) -> (r: String)
    ensures
        r@ == "codex-computer-use-"@ + source@ + seq!['-'] + suffix@ + ".png"@,
{
    let mut r = String::new();
    push_str(&mut r, "codex-computer-use-");
    push_str(&mut r, source);
    push_char(&mut r, '-');
    push_str(&mut r, suffix);
    push_str(&mut r, ".png");
    r
}

/// The character of a six-bit value in the standard base64 alphabet:
/// `A`-`Z`, `a`-`z`, `0`-`9`, `+` and `/`.
pub open spec fn base64_digit(v: int) -> char {
    if v < 26 {
        (65 + v) as char
    } else if v < 52 {
        (97 + v - 26) as char
    } else if v < 62 {
        (48 + v - 52) as char
    } else if v == 62 {
        '+'
    } else {
        '/'
    }
}

/// Standard base64 with padding: each group of three bytes becomes four
/// characters of six bits each, high bits first; a final group of one or two
/// bytes is filled with zero bits and padded with `=` to four characters.
pub open spec fn base64_standard(bytes: Seq<u8>) -> Seq<char>
    decreases bytes.len(),
{
    if bytes.len() == 0 {
        seq![]
    } else if bytes.len() == 1 {
        let b0 = bytes[0] as int;
        seq![base64_digit(b0 / 4), base64_digit((b0 % 4) * 16), '=', '=']
    } else if bytes.len() == 2 {
        let b0 = bytes[0] as int;
        let b1 = bytes[1] as int;
        seq![
            base64_digit(b0 / 4),
            base64_digit((b0 % 4) * 16 + b1 / 16),
            base64_digit((b1 % 16) * 4),
            '=',
        ]
    } else {
        let b0 = bytes[0] as int;
        let b1 = bytes[1] as int;
        let b2 = bytes[2] as int;
        seq![
            base64_digit(b0 / 4),
            base64_digit((b0 % 4) * 16 + b1 / 16),
            base64_digit((b1 % 16) * 4 + b2 / 64),
            base64_digit(b2 % 64),
        ] + base64_standard(bytes.skip(3))
    }
}

/// The length of padded base64 output for `n` input bytes.
pub open spec fn base64_padded_len(n: nat) -> nat {
    4 * ((n + 2) / 3)
}

/// Padded base64 text has four characters for every started group of three
/// bytes.
pub proof fn lemma_base64_len(bytes: Seq<u8>)
    ensures
        base64_standard(bytes).len() == base64_padded_len(bytes.len()),
    decreases bytes.len(),
{
    if bytes.len() >= 3 {
        lemma_base64_len(bytes.skip(3));
    }
}

/// `base64::engine::general_purpose::STANDARD.encode`: the standard
/// alphabet with `=` padding, as `base64_standard` states it. The crate
/// panics when the output length does not fit in `usize`, which `requires`
/// rules out.
#[verifier::external_body]
fn encode_base64_standard(bytes: &[u8]) -> (s: String)
    requires
        base64_padded_len(bytes@.len()) <= usize::MAX,
    ensures
        s@ == base64_standard(bytes@),
{
    base64::engine::general_purpose::STANDARD.encode(bytes)
}

/// Why a screenshot file cannot be turned into a capture.
#[derive(Debug, Clone, Copy, PartialEq, Eq)]
pub enum CaptureError {
    /// The file holds no bytes.
    EmptyFile,
    /// The file is not a PNG with a usable size.
    Png(PngError),
}

/// The data URL prefix of a base64-encoded PNG.
pub open spec fn png_data_url_prefix() -> Seq<char> {
    "data:image/png;base64,"@
}

/// The capture holds a PNG of the given size, taken by `source`, whose
/// base64 text is `encoded`.
pub open spec fn is_png_capture(
    c: ScreenshotCapture,
    encoded: Seq<char>,
    source: Seq<char>,
    width: u32,
    height: u32,
) -> bool {
    &&& c.mime_type@ == "image/png"@
    &&& c.data_url@ == png_data_url_prefix() + encoded
    &&& c.source@ == source
    &&& c.width == width
    &&& c.height == height
}

/// Builds the capture record of a PNG whose base64 text is `encoded`.
pub fn screenshot_capture(encoded: &str, source: &str, width: u32, height: u32) -> (c:
    ScreenshotCapture)
    ensures
        is_png_capture(c, encoded@, source@, width, height),
{
    let mut mime_type = String::new();
    push_str(&mut mime_type, "image/png");
    let mut data_url = String::new();
    push_str(&mut data_url, "data:image/png;base64,");
    push_str(&mut data_url, encoded);
    let mut src = String::new();
    push_str(&mut src, source);
    ScreenshotCapture { mime_type, data_url, source: src, width, height }
}

/// Turns the bytes of a screenshot file into a capture: an empty file or
/// one that is not a PNG of nonzero size is refused; otherwise the image is
/// embedded as a base64 data URL with its size from the `IHDR` chunk.
pub fn capture_from_png(bytes: &[u8], source: &str) -> (r: Result<ScreenshotCapture, CaptureError>)
    requires
        base64_padded_len(bytes@.len()) <= usize::MAX,
    ensures
        bytes@.len() == 0 ==> r == Err::<ScreenshotCapture, CaptureError>(CaptureError::EmptyFile),
        bytes@.len() > 0 ==> match spec_png_dimensions(bytes@) {
            Err(e) => r == Err::<ScreenshotCapture, CaptureError>(CaptureError::Png(e)),
            Ok((w, h)) => r is Ok && is_png_capture(r->Ok_0, base64_standard(bytes@), source@, w, h),
        },
{
    if bytes.len() == 0 {
        return Err(CaptureError::EmptyFile);
    }
    match png_dimensions(bytes) {
        Err(e) => Err(CaptureError::Png(e)),
        Ok((width, height)) => {
            let encoded = encode_base64_standard(bytes);
            Ok(screenshot_capture(encoded.as_str(), source, width, height))
        },
    }
}

/// The message of a screenshot file that cannot be used.
pub open spec fn spec_capture_error_message(e: CaptureError, path: Seq<char>) -> Seq<char> {
    match e {
        CaptureError::EmptyFile => "screenshot file was empty: "@ + path,
        CaptureError::Png(PngError::NotPng) => "screenshot file was not a valid PNG"@,
        CaptureError::Png(PngError::InvalidDimensions { width, height }) =>
            "screenshot PNG had invalid dimensions "@ + spec_decimal(width as nat) + seq!['x']
                + spec_decimal(height as nat),
    }
}

pub fn capture_error_message(e: CaptureError, path: &str) -> (r: String)
    ensures
        r@ == spec_capture_error_message(e, path@),
{
    let mut r = String::new();
    match e {
        CaptureError::EmptyFile => {
            push_str(&mut r, "screenshot file was empty: ");
            push_str(&mut r, path);
        },
        CaptureError::Png(PngError::NotPng) => {
            push_str(&mut r, "screenshot file was not a valid PNG");
        },
        CaptureError::Png(PngError::InvalidDimensions { width, height }) => {
            push_str(&mut r, "screenshot PNG had invalid dimensions ");
            push_decimal(&mut r, width as u128);
            push_char(&mut r, 'x');
            push_decimal(&mut r, height as u128);
        },
    }
    r
}

/// The error of a screenshot that neither GNOME Shell nor the portal could
/// take, with both reasons.
pub fn capture_failure_message(gnome_error: &str, portal_error: &str) -> (r: String)
    ensures
        r@ == "GNOME Shell screenshot failed: "@ + gnome_error@ + "; XDG portal screenshot failed: "@
            + portal_error@,
{
    let mut r = String::new();
    push_str(&mut r, "GNOME Shell screenshot failed: ");
    push_str(&mut r, gnome_error);
    push_str(&mut r, "; XDG portal screenshot failed: ");
    push_str(&mut r, portal_error);
    r
}

} // verus!
