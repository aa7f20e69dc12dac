//! Text as UTF-8 bytes: the `std` conversions between bytes and strings,
//! and `str::trim`.

use vstd::prelude::*;
use vstd::utf8::{valid_utf8, decode_utf8, encode_scalar};
use vstd::string::{StrSliceExecFns, StringExecFns};

verus! {

/// What `String::from_utf8_lossy` returns for `bytes`: the decoded text,
/// each ill-formed subsequence replaced by U+FFFD.
pub uninterp spec fn lossy_text(bytes: Seq<u8>) -> Seq<char>;

/// Calls `std::str::from_utf8(bytes).ok()`: the text that `bytes` encode,
/// when they are valid UTF-8.
#[verifier::external_body]
pub(crate) fn str_from_utf8(bytes: &[u8]) -> (r: Option<&str>)
    ensures
        r is Some <==> valid_utf8(bytes@),
        r matches Some(s) ==> s@ == decode_utf8(bytes@),
{
    std::str::from_utf8(bytes).ok()
}

/// Calls `String::from_utf8(bytes)`: the text that `bytes` encode when
/// they are valid UTF-8. Otherwise the conversion error becomes an
/// `InvalidData` I/O error with the message `"{context}: {error}"`; nothing
/// is stated of that error value.
#[verifier::external_body]
pub(crate) fn string_from_utf8(bytes: Vec<u8>, context: &str) -> (r: std::io::Result<String>)
    ensures
        r is Ok <==> valid_utf8(bytes@),
        r matches Ok(s) ==> s@ == decode_utf8(bytes@),
{
    match String::from_utf8(bytes) {
        Ok(s) => Ok(s),
        Err(err) => Err(std::io::Error::new(std::io::ErrorKind::InvalidData, format!("{context}: {err}"))),
    }
}

/// Calls `String::from_utf8_lossy(bytes)`: the decoded text, each
/// ill-formed subsequence replaced by U+FFFD. For valid UTF-8 that is the
/// decoding; the replacement rules are not stated, only named.
#[verifier::external_body]
pub(crate) fn utf8_lossy(bytes: &[u8]) -> (s: String)
    ensures
        s@ == lossy_text(bytes@),
        valid_utf8(bytes@) ==> s@ == decode_utf8(bytes@),
{
    String::from_utf8_lossy(bytes).into_owned()
}

/// Calls `char::encode_utf8`: the UTF-8 encoding of `c`.
#[verifier::external_body]
pub(crate) fn char_utf8(c: char) -> (r: Vec<u8>)
    ensures
        r@ == encode_scalar(c as u32),
{
    let mut buf = [0u8; 4];
    c.encode_utf8(&mut buf).as_bytes().to_vec()
}

/// `a` followed by `b`.
pub fn join_bytes(a: &[u8], b: &[u8]) -> (r: Vec<u8>)
    ensures
        r@ == a@ + b@,
{
    let mut r = vstd::slice::slice_to_vec(a);
    let mut i: usize = 0;
    while i < b.len()
        invariant
            i <= b@.len(),
            r@ == a@ + b@.take(i as int),
        decreases b@.len() - i,
    {
        r.push(b[i]);
        assert(b@.take(i + 1) =~= b@.take(i as int).push(b@[i as int]));
        i += 1;
    }
    assert(b@.take(i as int) =~= b@);
    r
}

/// `char::is_whitespace`: the Unicode `White_Space` property.
pub open spec fn is_whitespace(c: char) -> bool {
    let u = c as u32;
    ||| 0x09 <= u <= 0x0d
    ||| u == 0x20
    ||| u == 0x85
    ||| u == 0xa0
    ||| u == 0x1680
    ||| 0x2000 <= u <= 0x200a
    ||| u == 0x2028
    ||| u == 0x2029
    ||| u == 0x202f
    ||| u == 0x205f
    ||| u == 0x3000
}

/// `s` without its leading whitespace.
pub open spec fn trim_start(s: Seq<char>) -> Seq<char>
    decreases s.len(),
{
    if s.len() > 0 && is_whitespace(s[0]) {
        trim_start(s.drop_first())
    } else {
        s
    }
}

/// `s` without its trailing whitespace.
pub open spec fn trim_end(s: Seq<char>) -> Seq<char>
    decreases s.len(),
{
    if s.len() > 0 && is_whitespace(s.last()) {
        trim_end(s.drop_last())
    } else {
        s
    }
}

/// `s` without leading and trailing whitespace.
pub open spec fn spec_trim(s: Seq<char>) -> Seq<char> {
    trim_end(trim_start(s))
}

/// What `trim_start` leaves is empty or starts with a non-whitespace
/// character.
proof fn lemma_trim_start_first(s: Seq<char>)
    ensures
        trim_start(s).len() > 0 ==> !is_whitespace(trim_start(s)[0]),
    decreases s.len(),
{
    if s.len() > 0 && is_whitespace(s[0]) {
        lemma_trim_start_first(s.drop_first());
    }
}

/// What `trim_end` leaves is a prefix of `s`, empty or ending with a
/// non-whitespace character.
proof fn lemma_trim_end_prefix(s: Seq<char>)
    ensures
        trim_end(s).len() <= s.len(),
        trim_end(s) == s.take(trim_end(s).len() as int),
        trim_end(s).len() > 0 ==> !is_whitespace(trim_end(s).last()),
    decreases s.len(),
{
    if s.len() > 0 && is_whitespace(s.last()) {
        lemma_trim_end_prefix(s.drop_last());
        let t = trim_end(s.drop_last());
        assert(s.drop_last().take(t.len() as int) =~= s.take(t.len() as int));
    } else {
        assert(s.take(s.len() as int) =~= s);
    }
}

/// Trimming twice is trimming once.
pub proof fn lemma_trim_idempotent(s: Seq<char>)
    ensures
        spec_trim(spec_trim(s)) == spec_trim(s),
{
    let w = trim_start(s);
    let y = trim_end(w);
    lemma_trim_start_first(s);
    lemma_trim_end_prefix(w);
    if y.len() > 0 {
        assert(y[0] == w[0]);
    }
    assert(trim_start(y) == y);
    assert(trim_end(y) == y);
}

/// Calls `str::trim`: `s` without leading and trailing whitespace, as
/// `char::is_whitespace` defines it.
#[verifier::external_body]
pub(crate) fn trim(s: &str) -> (r: &str)
    ensures
        r@ == spec_trim(s@),
{
    s.trim()
}

/// Whether two texts are the same characters.
pub fn str_equals(a: &str, b: &str) -> (r: bool)
    ensures
        r == (a@ == b@),
{
    let n = a.unicode_len();
    if n != b.unicode_len() {
        return false;
    }
    let mut i: usize = 0;
    while i < n
        invariant
            n == a@.len(),
            n == b@.len(),
            i <= n,
            forall|j: int| 0 <= j < i ==> a@[j] == b@[j],
        decreases n - i,
    {
        if a.get_char(i) != b.get_char(i) {
            return false;
        }
        i += 1;
    }
    assert(a@ =~= b@);
    true
}

/// The character of a decimal digit.
pub open spec fn digit_char(d: nat) -> char {
    if d == 0 {
        '0'
    } else if d == 1 {
        '1'
    } else if d == 2 {
        '2'
    } else if d == 3 {
        '3'
    } else if d == 4 {
        '4'
    } else if d == 5 {
        '5'
    } else if d == 6 {
        '6'
    } else if d == 7 {
        '7'
    } else if d == 8 {
        '8'
    } else {
        '9'
    }
}

/// The decimal representation of `n`, as `{}` formats an integer.
pub open spec fn decimal(n: nat) -> Seq<char>
    decreases n,
{
    if n < 10 {
        seq![digit_char(n)]
    } else {
        decimal(n / 10).push(digit_char(n % 10))
    }
}

/// The text of one decimal digit.
fn digit_str(d: u8) -> (s: &'static str)
    requires
        d < 10,
    ensures
        s@ == seq![digit_char(d as nat)],
{
    proof {
        reveal_strlit("0");
        reveal_strlit("1");
        reveal_strlit("2");
        reveal_strlit("3");
        reveal_strlit("4");
        reveal_strlit("5");
        reveal_strlit("6");
        reveal_strlit("7");
        reveal_strlit("8");
        reveal_strlit("9");
    }
    if d == 0 {
        "0"
    } else if d == 1 {
        "1"
    } else if d == 2 {
        "2"
    } else if d == 3 {
        "3"
    } else if d == 4 {
        "4"
    } else if d == 5 {
        "5"
    } else if d == 6 {
        "6"
    } else if d == 7 {
        "7"
    } else if d == 8 {
        "8"
    } else {
        "9"
    }
}

/// Appends the decimal representation of `n` to `s`.
pub fn push_decimal(s: &mut String, n: u128)
    ensures
        final(s)@ == old(s)@ + decimal(n as nat),
    decreases n,
{
    if n >= 10 {
        push_decimal(s, n / 10);
    }
    let d = (n % 10) as u8;
    s.append(digit_str(d));
    assert(n >= 10 ==> decimal(n as nat) == decimal((n / 10) as nat).push(digit_char((n % 10) as nat)));
}

/// The decimal representation of `v`, with a leading `-` when negative.
pub open spec fn signed_decimal(v: int) -> Seq<char> {
    if v < 0 {
        seq!['-'] + decimal((-v) as nat)
    } else {
        decimal(v as nat)
    }
}

/// The message for a header field that must be positive:
/// `"{field} must be positive, got {value}"`.
pub fn non_positive_message(field: &str, value: i64) -> (s: String)
    ensures
        s@ == field@ + " must be positive, got "@ + signed_decimal(value as int),
{
    let mut s = String::from_str(field);
    s.append(" must be positive, got ");
    push_signed_decimal(&mut s, value);
    s
}

/// Appends the decimal representation of `v`, with `-` when negative.
pub fn push_signed_decimal(s: &mut String, v: i64)
    ensures
        final(s)@ == old(s)@ + signed_decimal(v as int),
{
    proof {
        reveal_strlit("-");
    }
    if v < 0 {
        s.append("-");
        let magnitude: u128 = (0i128 - v as i128) as u128;
        push_decimal(s, magnitude);
    } else {
        push_decimal(s, v as u128);
    }
}

/// The message for a token id outside the vocabulary:
/// `"token out of range in tokenizer: {token}"`.
pub fn token_out_of_range_message(token: usize) -> (s: String)
    ensures
        s@ == "token out of range in tokenizer: "@ + decimal(token as nat),
{
    let mut s = String::from_str("token out of range in tokenizer: ");
    push_decimal(&mut s, token as u128);
    s
}

/// The code of a character with ASCII upper case letters lowered.
pub open spec fn lower_code(c: char) -> u32 {
    if 65 <= c as u32 <= 90 {
        (c as u32 + 32) as u32
    } else {
        c as u32
    }
}

/// Whether `a`, with ASCII letters lowered, is the text `lower`.
pub open spec fn ascii_lower_eq(a: Seq<char>, lower: Seq<char>) -> bool {
    &&& a.len() == lower.len()
    &&& forall|i: int| 0 <= i < a.len() ==> lower_code(#[trigger] a[i]) == lower[i] as u32
}

/// Whether `a.to_ascii_lowercase() == lower`.
pub fn ascii_lower_equals(a: &str, lower: &str) -> (r: bool)
    ensures
        r == ascii_lower_eq(a@, lower@),
{
    let n = a.unicode_len();
    if n != lower.unicode_len() {
        return false;
    }
    let mut i: usize = 0;
    while i < n
        invariant
            n == a@.len(),
            n == lower@.len(),
            i <= n,
            forall|j: int| 0 <= j < i ==> lower_code(#[trigger] a@[j]) == lower@[j] as u32,
        decreases n - i,
    {
        let c = a.get_char(i) as u32;
        let code = if 65 <= c && c <= 90 {
            c + 32
        } else {
            c
        };
        if code != lower.get_char(i) as u32 {
            return false;
        }
        i += 1;
    }
    true
}

} // verus!
