//! Character and byte-level text helpers shared by the encoders.

use vstd::prelude::*;
use vstd::string::*;
use vstd::std_specs::iter::IteratorSpec;
use vstd::utf8::*;

verus! {

broadcast use vstd::string::group_string_axioms;

/// Appends one character to `s` (`String::push`).
#[verifier::external_body]
pub(crate) fn push_char(s: &mut String, c: char)
    ensures
        final(s)@ == old(s)@.push(c),
{
    s.push(c);
}

/// The characters of `s`, in order.
pub fn chars_of(s: &str) -> (out: Vec<char>)
    ensures
        out@ == s@,
{
    let mut out: Vec<char> = Vec::new();
    for c in it: s.chars()
        invariant
            it.seq() == s@,
            out@ == s@.take(it.index() as int),
    {
        out.push(c);
    }
    assert(out@ == s@);
    out
}

/// The ASCII decimal digit for `d` (`d < 10`).
pub open spec fn digit_char(d: nat) -> char {
    ((48 + d) as u8) as char
}

/// Decimal representation of `n`, most significant digit first, without
/// leading zeros (`0` is `"0"`).
pub open spec fn decimal(n: nat) -> Seq<char>
    decreases n,
{
    if n < 10 {
        seq![digit_char(n)]
    } else {
        decimal(n / 10).push(digit_char(n % 10))
    }
}

/// Appends the decimal representation of `n` to `s`.
pub fn push_decimal(s: &mut String, n: u128)
    ensures
        final(s)@ == old(s)@ + decimal(n as nat),
    decreases n,
{
    if n >= 10 {
        push_decimal(s, n / 10);
    }
    let d: u8 = (n % 10) as u8;
    push_char(s, (48u8 + d) as char);
    proof {
        assert(final(s)@ == old(s)@ + decimal(n as nat));
    }
}

/// The decimal representation of `n` as a new string.
pub fn u64_to_decimal(n: u64) -> (out: String)
    ensures
        out@ == decimal(n as nat),
{
    let mut out = String::new();
    push_decimal(&mut out, n as u128);
    assert(out@ =~= decimal(n as nat));
    out
}

/// Decimal representation of a signed integer, with a leading `-` when
/// negative.
pub open spec fn signed_decimal(n: int) -> Seq<char> {
    if n < 0 {
        seq!['-'] + decimal((-n) as nat)
    } else {
        decimal(n as nat)
    }
}

/// Appends the decimal representation of the signed `n` to `s`.
pub fn push_signed_decimal(s: &mut String, n: i64)
    ensures
        final(s)@ == old(s)@ + signed_decimal(n as int),
{
    if n < 0 {
        push_char(s, '-');
        let magnitude: u128 = (0i128 - n as i128) as u128;
        push_decimal(s, magnitude);
        proof {
            assert(final(s)@ =~= old(s)@ + signed_decimal(n as int));
        }
    } else {
        push_decimal(s, n as u128);
    }
}

/// Lower-case hexadecimal digit for `d < 16`.
pub open spec fn hex_lower(d: nat) -> char {
    if d < 10 {
        digit_char(d)
    } else {
        ((87 + d) as u8) as char
    }
}

/// Upper-case hexadecimal digit for `d < 16`.
pub open spec fn hex_upper(d: nat) -> char {
    if d < 10 {
        digit_char(d)
    } else {
        ((55 + d) as u8) as char
    }
}

/// The JSON string escape of one character: quote, backslash and the
/// control characters are escaped, everything else is kept as it is.
pub open spec fn json_escape_char(c: char) -> Seq<char> {
    if c == '"' {
        seq!['\\', '"']
    } else if c == '\\' {
        seq!['\\', '\\']
    } else if c == '\u{8}' {
        seq!['\\', 'b']
    } else if c == '\u{c}' {
        seq!['\\', 'f']
    } else if c == '\n' {
        seq!['\\', 'n']
    } else if c == '\r' {
        seq!['\\', 'r']
    } else if c == '\t' {
        seq!['\\', 't']
    } else if (c as u32) < 0x20 {
        seq!['\\', 'u', '0', '0', hex_lower((c as u32) as nat / 16), hex_lower((c as u32) as nat % 16)]
    } else {
        seq![c]
    }
}

/// The JSON string escape of a character sequence, without the quotes.
pub open spec fn json_escape_chars(s: Seq<char>) -> Seq<char>
    decreases s.len(),
{
    if s.len() == 0 {
        Seq::empty()
    } else {
        json_escape_chars(s.drop_last()) + json_escape_char(s.last())
    }
}

/// A JSON string literal holding `s`: the escape of `s` between quotes.
pub open spec fn json_string(s: Seq<char>) -> Seq<char> {
    seq!['"'] + json_escape_chars(s) + seq!['"']
}

fn push_json_escape_char(out: &mut String, c: char)
    ensures
        final(out)@ == old(out)@ + json_escape_char(c),
{
    if c == '"' {
        push_char(out, '\\');
        push_char(out, '"');
    } else if c == '\\' {
        push_char(out, '\\');
        push_char(out, '\\');
    } else if c == '\u{8}' {
        push_char(out, '\\');
        push_char(out, 'b');
    } else if c == '\u{c}' {
        push_char(out, '\\');
        push_char(out, 'f');
    } else if c == '\n' {
        push_char(out, '\\');
        push_char(out, 'n');
    } else if c == '\r' {
        push_char(out, '\\');
        push_char(out, 'r');
    } else if c == '\t' {
        push_char(out, '\\');
        push_char(out, 't');
    } else if (c as u32) < 0x20 {
        let v: u32 = c as u32;
        let hi: u8 = (v / 16) as u8;
        let lo: u8 = (v % 16) as u8;
        push_char(out, '\\');
        push_char(out, 'u');
        push_char(out, '0');
        push_char(out, '0');
        push_char(out, (48u8 + hi) as char);
        if lo < 10 {
            push_char(out, (48u8 + lo) as char);
        } else {
            push_char(out, (87u8 + lo) as char);
        }
    } else {
        push_char(out, c);
    }
    proof {
        assert(final(out)@ =~= old(out)@ + json_escape_char(c));
    }
}

/// Appends the JSON escape of `s` (without quotes) to `out`.
pub(crate) fn push_json_escaped(out: &mut String, s: &str)
    ensures
        final(out)@ == old(out)@ + json_escape_chars(s@),
{
    let chars = chars_of(s);
    let ghost start = out@;
    let mut i: usize = 0;
    while i < chars.len()
        invariant
            i <= chars@.len(),
            chars@ == s@,
            out@ == start + json_escape_chars(chars@.take(i as int)),
        decreases chars@.len() - i,
    {
        push_json_escape_char(out, chars[i]);
        proof {
            assert(chars@.take(i + 1).drop_last() =~= chars@.take(i as int));
        }
        i += 1;
    }
    assert(chars@.take(i as int) =~= chars@);
}

/// `c` with ASCII upper-case letters mapped to lower case.
pub open spec fn ascii_lower(c: char) -> char {
    if 'A' <= c && c <= 'Z' {
        ((c as u32) + 32) as char
    } else {
        c
    }
}

/// Equal when ASCII letters are compared without regard to case.
pub open spec fn eq_ignore_ascii_case_spec(a: Seq<char>, b: Seq<char>) -> bool {
    a.len() == b.len() && forall|i: int| 0 <= i < a.len() ==> ascii_lower(#[trigger] a[i])
        == ascii_lower(b[i])
}

fn lower_char(c: char) -> (r: char)
    ensures
        r == ascii_lower(c),
{
    if 'A' <= c && c <= 'Z' {
        ((c as u32) + 32) as u8 as char
    } else {
        c
    }
}

/// Compares two strings, ASCII letters without regard to case.
pub fn eq_ignore_ascii_case(a: &str, b: &str) -> (r: bool)
    ensures
        r == eq_ignore_ascii_case_spec(a@, b@),
{
    let ac = chars_of(a);
    let bc = chars_of(b);
    if ac.len() != bc.len() {
        return false;
    }
    let mut i: usize = 0;
    while i < ac.len()
        invariant
            ac@ == a@,
            bc@ == b@,
            ac@.len() == bc@.len(),
            i <= ac@.len(),
            forall|k: int| 0 <= k < i ==> ascii_lower(#[trigger] a@[k]) == ascii_lower(b@[k]),
        decreases ac@.len() - i,
    {
        if lower_char(ac[i]) != lower_char(bc[i]) {
            return false;
        }
        i += 1;
    }
    true
}

/// How `{:?}` shows the string `s`: quoted, with `str::escape_debug`'s
/// escapes.
pub uninterp spec fn str_debug_text(s: Seq<char>) -> Seq<char>;

/// `<str as Debug>::fmt`, through `format!("{:?}")`.
#[verifier::external_body]
pub(crate) fn str_debug(s: &str) -> (r: String)
    ensures
        r@ == str_debug_text(s@),
{
    format!("{:?}", s)
}

/// `s` without leading and trailing white space (`str::trim`).
pub uninterp spec fn trim_text(s: Seq<char>) -> Seq<char>;

/// `str::trim`: the slice of `s` without leading and trailing white space.
#[verifier::external_body]
pub(crate) fn trim_str(s: &str) -> (r: &str)
    ensures
        r@ == trim_text(s@),
{
    s.trim()
}

/// The characters of `s` before its first `sep` (all of `s` without one).
pub open spec fn before_first(s: Seq<char>, sep: char) -> Seq<char>
    decreases s.len(),
{
    if s.len() == 0 {
        s
    } else if s[0] == sep {
        Seq::empty()
    } else {
        seq![s[0]] + before_first(s.drop_first(), sep)
    }
}

/// A new string of the characters of `s` before its first `sep`.
pub fn prefix_before(s: &str, sep: char) -> (r: String)
    ensures
        r@ == before_first(s@, sep),
{
    let cs = chars_of(s);
    let mut out = String::new();
    let mut i: usize = 0;
    proof {
        assert(cs@.skip(0) =~= s@);
        assert(out@ =~= Seq::<char>::empty());
        assert(out@ + before_first(s@, sep) =~= before_first(s@, sep));
    }
    while i < cs.len() && cs[i] != sep
        invariant
            cs@ == s@,
            i <= cs@.len(),
            out@ == cs@.take(i as int),
            before_first(s@, sep) == out@ + before_first(cs@.skip(i as int), sep),
        decreases cs@.len() - i,
    {
        let c = cs[i];
        push_char(&mut out, c);
        proof {
            assert(cs@.skip(i as int).drop_first() =~= cs@.skip(i + 1));
            assert(out@ =~= cs@.take(i + 1));
            assert(out@ + before_first(cs@.skip(i + 1), sep) =~= cs@.take(i as int) + (seq![c]
                + before_first(cs@.skip(i + 1), sep)));
        }
        i += 1;
    }
    proof {
        if i < cs@.len() {
            assert(cs@.skip(i as int)[0] == sep);
        } else {
            assert(cs@.skip(i as int) =~= Seq::<char>::empty());
        }
        assert(out@ + Seq::<char>::empty() =~= out@);
    }
    out
}

/// Index of the first `x` in `b`.
pub open spec fn find_first(b: Seq<u8>, x: u8) -> Option<int>
    decreases b.len(),
{
    if b.len() == 0 {
        None
    } else if b[0] == x {
        Some(0)
    } else {
        match find_first(b.drop_first(), x) {
            Some(i) => Some(i + 1),
            None => None,
        }
    }
}

/// Index of the last `x` in `b`.
pub open spec fn find_last(b: Seq<u8>, x: u8) -> Option<int>
    decreases b.len(),
{
    if b.len() == 0 {
        None
    } else if b.last() == x {
        Some(b.len() - 1)
    } else {
        find_last(b.drop_last(), x)
    }
}

pub proof fn lemma_find_first(b: Seq<u8>, x: u8)
    ensures
        match find_first(b, x) {
            Some(i) => 0 <= i < b.len() && b[i] == x && forall|j: int| 0 <= j < i ==> b[j] != x,
            None => forall|j: int| 0 <= j < b.len() ==> b[j] != x,
        },
    decreases b.len(),
{
    if b.len() > 0 && b[0] != x {
        lemma_find_first(b.drop_first(), x);
        assert forall|j: int| 1 <= j < b.len() implies b[j] == b.drop_first()[j - 1] by {}
    }
}

pub proof fn lemma_find_last(b: Seq<u8>, x: u8)
    ensures
        match find_last(b, x) {
            Some(i) => 0 <= i < b.len() && b[i] == x && forall|j: int| i < j < b.len() ==> b[j] != x,
            None => forall|j: int| 0 <= j < b.len() ==> b[j] != x,
        },
    decreases b.len(),
{
    if b.len() > 0 && b.last() != x {
        lemma_find_last(b.drop_last(), x);
        assert forall|j: int| 0 <= j < b.len() - 1 implies b[j] == b.drop_last()[j] by {}
    }
}

/// Index of the first `x` in `bytes` (from `from` on), as `find_first`
/// gives it.
pub fn index_of_first(bytes: &[u8], x: u8) -> (r: Option<usize>)
    ensures
        match find_first(bytes@, x) {
            Some(i) => r matches Some(k) && k as int == i,
            None => r is None,
        },
        r matches Some(k) ==> k < bytes.len(),
{
    let mut i: usize = 0;
    while i < bytes.len()
        invariant
            i <= bytes@.len(),
            forall|j: int| 0 <= j < i ==> bytes@[j] != x,
        decreases bytes@.len() - i,
    {
        if bytes[i] == x {
            proof {
                lemma_find_first(bytes@, x);
                match find_first(bytes@, x) {
                    Some(k) => {
                        if k < i {
                        } else if k > i {
                        }
                    },
                    None => {},
                }
            }
            return Some(i);
        }
        i += 1;
    }
    proof {
        lemma_find_first(bytes@, x);
    }
    None
}

/// Index of the last `x` in `bytes`, as `find_last` gives it.
pub fn index_of_last(bytes: &[u8], x: u8) -> (r: Option<usize>)
    ensures
        match find_last(bytes@, x) {
            Some(i) => r matches Some(k) && k as int == i,
            None => r is None,
        },
        r matches Some(k) ==> k < bytes.len(),
{
    let mut i: usize = bytes.len();
    while i > 0
        invariant
            i <= bytes@.len(),
            forall|j: int| i <= j < bytes@.len() ==> bytes@[j] != x,
        decreases i,
    {
        if bytes[i - 1] == x {
            proof {
                lemma_find_last(bytes@, x);
            }
            return Some(i - 1);
        }
        i -= 1;
    }
    proof {
        lemma_find_last(bytes@, x);
    }
    None
}

pub proof fn lemma_ascii_char_boundary(b: Seq<u8>, i: int)
    requires
        valid_utf8(b),
        0 <= i < b.len(),
        b[i] < 128,
    ensures
        is_char_boundary(b, i),
{
    is_char_boundary_iff_not_is_continuation_byte(b, i);
}

pub proof fn lemma_boundary_after_leading_ascii(b: Seq<u8>)
    requires
        valid_utf8(b),
        b.len() >= 1,
        b[0] < 128,
    ensures
        is_char_boundary(b, 1),
{
    reveal_with_fuel(is_char_boundary, 2);
}

/// The parts of `s` before and after the ASCII byte at `i`.
pub fn split_around<'a>(s: &'a str, i: usize) -> (r: (&'a str, &'a str))
    requires
        i < s.spec_bytes().len(),
        s.spec_bytes()[i as int] < 128,
    ensures
        r.0.spec_bytes() == s.spec_bytes().subrange(0, i as int),
        r.1.spec_bytes() == s.spec_bytes().subrange(i + 1, s.spec_bytes().len() as int),
{
    proof {
        encode_utf8_valid_utf8(s@);
        lemma_ascii_char_boundary(s.spec_bytes(), i as int);
    }
    let (pre, rest) = s.split_at(i);
    proof {
        encode_utf8_valid_utf8(rest@);
        lemma_boundary_after_leading_ascii(rest.spec_bytes());
    }
    let (_sep, post) = rest.split_at(1);
    proof {
        assert(post.spec_bytes() =~= s.spec_bytes().subrange(i + 1, s.spec_bytes().len() as int));
    }
    (pre, post)
}

/// The part of `s` before the ASCII byte at `i`.
pub fn prefix_until<'a>(s: &'a str, i: usize) -> (r: &'a str)
    requires
        i <= s.spec_bytes().len(),
        i < s.spec_bytes().len() ==> s.spec_bytes()[i as int] < 128,
    ensures
        r.spec_bytes() == s.spec_bytes().subrange(0, i as int),
{
    proof {
        encode_utf8_valid_utf8(s@);
        if i < s.spec_bytes().len() {
            lemma_ascii_char_boundary(s.spec_bytes(), i as int);
        } else {
            is_char_boundary_start_end_of_seq(s.spec_bytes());
        }
    }
    let (pre, _rest) = s.split_at(i);
    pre
}

/// Lexicographic order of character sequences, by code point: the order
/// of `String`s (UTF-8 preserves it).
pub open spec fn lex_lt(a: Seq<char>, b: Seq<char>) -> bool
    decreases a.len(),
{
    if a.len() == 0 {
        b.len() > 0
    } else if b.len() == 0 {
        false
    } else if a[0] != b[0] {
        (a[0] as u32) < (b[0] as u32)
    } else {
        lex_lt(a.drop_first(), b.drop_first())
    }
}

pub proof fn lemma_lex_trichotomy(a: Seq<char>, b: Seq<char>)
    ensures
        lex_lt(a, b) || lex_lt(b, a) || a == b,
        !(lex_lt(a, b) && lex_lt(b, a)),
        !lex_lt(a, a),
    decreases a.len(),
{
    if a.len() > 0 && b.len() > 0 && a[0] == b[0] {
        lemma_lex_trichotomy(a.drop_first(), b.drop_first());
        if a.drop_first() == b.drop_first() {
            assert forall|k: int| 0 <= k < a.len() implies a[k] == b[k] by {
                if k > 0 {
                    assert(a[k] == a.drop_first()[k - 1]);
                    assert(b[k] == b.drop_first()[k - 1]);
                }
            }
            assert(a =~= b);
        }
    } else if a.len() == 0 && b.len() == 0 {
        assert(a =~= b);
    } else if a.len() > 0 && b.len() > 0 {
        char_u32_cast(a[0], a[0] as u32);
        char_u32_cast(b[0], b[0] as u32);
    }
    if a.len() > 0 {
        lemma_lex_trichotomy(a.drop_first(), a.drop_first());
    }
}

pub proof fn lemma_lex_transitive(a: Seq<char>, b: Seq<char>, c: Seq<char>)
    requires
        lex_lt(a, b),
        lex_lt(b, c),
    ensures
        lex_lt(a, c),
    decreases a.len(),
{
    if a.len() > 0 && b.len() > 0 && c.len() > 0 && a[0] == b[0] && b[0] == c[0] {
        lemma_lex_transitive(a.drop_first(), b.drop_first(), c.drop_first());
    }
}

/// Whether `a` comes before `b` in `lex_lt` order.
pub fn str_lt(a: &str, b: &str) -> (r: bool)
    ensures
        r == lex_lt(a@, b@),
{
    let ac = chars_of(a);
    let bc = chars_of(b);
    let mut i: usize = 0;
    assert(a@.skip(0) =~= a@);
    assert(b@.skip(0) =~= b@);
    while i < ac.len() && i < bc.len() && ac[i] == bc[i]
        invariant
            ac@ == a@,
            bc@ == b@,
            i <= ac@.len(),
            i <= bc@.len(),
            lex_lt(a@, b@) == lex_lt(a@.skip(i as int), b@.skip(i as int)),
        decreases ac@.len() - i,
    {
        proof {
            assert(a@.skip(i as int).drop_first() =~= a@.skip(i + 1));
            assert(b@.skip(i as int).drop_first() =~= b@.skip(i + 1));
        }
        i += 1;
    }
    if i == ac.len() {
        i < bc.len()
    } else if i == bc.len() {
        false
    } else {
        (ac[i] as u32) < (bc[i] as u32)
    }
}

/// Whether `a` and `b` hold the same characters.
pub fn str_eq(a: &str, b: &str) -> (r: bool)
    ensures
        r == (a@ == b@),
{
    let ac = chars_of(a);
    let bc = chars_of(b);
    if ac.len() != bc.len() {
        return false;
    }
    let mut i: usize = 0;
    while i < ac.len()
        invariant
            ac@ == a@,
            bc@ == b@,
            ac@.len() == bc@.len(),
            i <= ac@.len(),
            forall|k: int| 0 <= k < i ==> a@[k] == b@[k],
        decreases ac@.len() - i,
    {
        if ac[i] != bc[i] {
            return false;
        }
        i += 1;
    }
    assert(a@ =~= b@);
    true
}

/// Whether `c` occurs in `s`.
pub fn contains_char(s: &str, c: char) -> (r: bool)
    ensures
        r == s@.contains(c),
{
    let cs = chars_of(s);
    let mut i: usize = 0;
    while i < cs.len()
        invariant
            cs@ == s@,
            i <= cs@.len(),
            forall|k: int| 0 <= k < i ==> s@[k] != c,
        decreases cs@.len() - i,
    {
        if cs[i] == c {
            assert(s@[i as int] == c);
            return true;
        }
        i += 1;
    }
    false
}

/// Whether `s` begins with `prefix`.
pub fn starts_with(s: &str, prefix: &str) -> (r: bool)
    ensures
        r == (prefix@.len() <= s@.len() && s@.take(prefix@.len() as int) == prefix@),
{
    let sc = chars_of(s);
    let pc = chars_of(prefix);
    if pc.len() > sc.len() {
        return false;
    }
    let mut i: usize = 0;
    while i < pc.len()
        invariant
            sc@ == s@,
            pc@ == prefix@,
            pc@.len() <= sc@.len(),
            i <= pc@.len(),
            forall|k: int| 0 <= k < i ==> s@[k] == prefix@[k],
        decreases pc@.len() - i,
    {
        if sc[i] != pc[i] {
            proof {
                assert(s@.take(prefix@.len() as int)[i as int] != prefix@[i as int]);
            }
            return false;
        }
        i += 1;
    }
    assert(s@.take(prefix@.len() as int) =~= prefix@);
    true
}

/// `String::from_utf8`: the text of `bytes` when they are valid UTF-8.
#[verifier::external_body]
pub(crate) fn utf8_text(bytes: Vec<u8>) -> (r: Option<String>)
    ensures
        r is Some <==> valid_utf8(bytes@),
        r matches Some(s) ==> encode_utf8(s@) == bytes@,
{
    String::from_utf8(bytes).ok()
}

/// `std::str::from_utf8`: `bytes` read as text when they are valid UTF-8.
#[verifier::external_body]
pub(crate) fn utf8_str(bytes: &[u8]) -> (r: Option<&str>)
    ensures
        r is Some <==> valid_utf8(bytes@),
        r matches Some(s) ==> s.spec_bytes() == bytes@,
{
    std::str::from_utf8(bytes).ok()
}

/// Octal representation of `n`, most significant digit first, without
/// leading zeros (`0` is `"0"`).
pub open spec fn octal_text(n: nat) -> Seq<char>
    decreases n,
{
    if n < 8 {
        seq![digit_char(n)]
    } else {
        octal_text(n / 8).push(digit_char(n % 8))
    }
}

/// Appends the octal representation of `n` to `s`.
pub fn push_octal(s: &mut String, n: u32)
    ensures
        final(s)@ == old(s)@ + octal_text(n as nat),
    decreases n,
{
    if n >= 8 {
        push_octal(s, n / 8);
    }
    let d: u8 = (n % 8) as u8;
    push_char(s, (48u8 + d) as char);
    proof {
        assert(final(s)@ =~= old(s)@ + octal_text(n as nat));
    }
}

/// The digits of an unsigned integer's text: what follows an optional
/// leading `+`.
pub open spec fn unsigned_digits(s: Seq<char>) -> Seq<char> {
    if s.len() > 0 && s[0] == '+' {
        s.drop_first()
    } else {
        s
    }
}

/// What `from_str` of an unsigned integer type whose largest value is
/// `max` reads from `s`: an optional `+`, then one or more ASCII digits and
/// nothing else, of a value that fits.
pub open spec fn unsigned_from_str(s: Seq<char>, max: nat) -> Option<nat> {
    let d = unsigned_digits(s);
    if d.len() > 0 && all_digits(d) && digits_value(d) <= max {
        Some(digits_value(d))
    } else {
        None
    }
}

/// The value `u32::from_str` parses from `s`, if it parses.
pub open spec fn u32_from_str(s: Seq<char>) -> Option<u32> {
    match unsigned_from_str(s, u32::MAX as nat) {
        Some(v) => Some(v as u32),
        None => None,
    }
}

/// `str::parse::<u32>`, its error dropped.
#[verifier::external_body]
pub(crate) fn parse_u32(s: &str) -> (r: Option<u32>)
    ensures
        r == u32_from_str(s@),
{
    s.parse::<u32>().ok()
}

/// The value `u16::from_str` parses from `s`, if it parses.
pub open spec fn u16_from_str(s: Seq<char>) -> Option<u16> {
    match unsigned_from_str(s, u16::MAX as nat) {
        Some(v) => Some(v as u16),
        None => None,
    }
}

/// Are all characters ASCII decimal digits?
pub open spec fn all_digits(s: Seq<char>) -> bool {
    forall|i: int| 0 <= i < s.len() ==> '0' <= #[trigger] s[i] && s[i] <= '9'
}

/// The value of a run of decimal digits.
pub open spec fn digits_value(s: Seq<char>) -> nat
    decreases s.len(),
{
    if s.len() == 0 {
        0
    } else {
        digits_value(s.drop_last()) * 10 + ((s.last() as u32) - 48) as nat
    }
}

/// What `u16::from_str` gives for `s`: a non-empty run of decimal digits
/// whose value fits parses to that value; other text as `u16_from_str`
/// says (where a leading `+` is also taken).
pub open spec fn parsed_u16(s: Seq<char>) -> Option<u16> {
    if s.len() > 0 && all_digits(s) && digits_value(s) <= u16::MAX {
        Some(digits_value(s) as u16)
    } else {
        u16_from_str(s)
    }
}

/// `str::parse::<u16>`, its error dropped.
#[verifier::external_body]
pub(crate) fn parse_u16(s: &str) -> (r: Option<u16>)
    ensures
        r == parsed_u16(s@),
        !(s@.len() > 0 && all_digits(s@) && digits_value(s@) <= u16::MAX) ==> r == u16_from_str(
            s@,
        ),
{
    s.parse::<u16>().ok()
}

/// What `std::str::from_utf8` reports for bytes that are not UTF-8 (its
/// error's `Display`).
pub uninterp spec fn utf8_error_text(bytes: Seq<u8>) -> Seq<char>;

/// `std::str::from_utf8`, keeping its error's text.
#[verifier::external_body]
pub(crate) fn utf8_str_or_error(bytes: &[u8]) -> (r: Result<&str, String>)
    ensures
        r is Ok <==> valid_utf8(bytes@),
        r matches Ok(s) ==> s.spec_bytes() == bytes@,
        r matches Err(m) ==> m@ == utf8_error_text(bytes@),
{
    std::str::from_utf8(bytes).map_err(|e| e.to_string())
}

/// The pieces of `b` between newline bytes, in order (the last piece may
/// be empty).
pub open spec fn newline_segments(b: Seq<u8>) -> Seq<Seq<u8>>
    decreases b.len(),
{
    match find_first(b, 10) {
        None => seq![b],
        Some(i) => {
            if 0 <= i < b.len() {
                seq![b.take(i)] + newline_segments(b.subrange(i + 1, b.len() as int))
            } else {
                seq![b]
            }
        },
    }
}

/// `b` without its trailing carriage returns.
pub open spec fn strip_trailing_cr(b: Seq<u8>) -> Seq<u8>
    decreases b.len(),
{
    if b.len() > 0 && b.last() == 13 {
        strip_trailing_cr(b.drop_last())
    } else {
        b
    }
}

/// `s` without its trailing carriage returns (`trim_end_matches('\r')`).
pub fn trim_trailing_cr(s: &str) -> (r: &str)
    ensures
        r.spec_bytes() == strip_trailing_cr(s.spec_bytes()),
{
    let bytes = s.as_bytes();
    let mut end: usize = bytes.len();
    assert(bytes@.take(end as int) =~= bytes@);
    while end > 0 && bytes[end - 1] == 13
        invariant
            end <= bytes@.len(),
            bytes@ == s.spec_bytes(),
            forall|k: int| end <= k < bytes@.len() ==> bytes@[k] == 13,
            strip_trailing_cr(bytes@) == strip_trailing_cr(bytes@.take(end as int)),
        decreases end,
    {
        proof {
            assert(bytes@.take(end as int).drop_last() =~= bytes@.take(end - 1));
        }
        end -= 1;
    }
    proof {
        if end > 0 {
            assert(bytes@.take(end as int).last() == bytes@[end - 1]);
        }
    }
    let r = prefix_until_any(s, end);
    r
}

/// The part of `s` before byte `end`, where `end` is a character boundary
/// because a byte below 128 (or the end) follows.
fn prefix_until_any(s: &str, end: usize) -> (r: &str)
    requires
        end <= s.spec_bytes().len(),
        end < s.spec_bytes().len() ==> s.spec_bytes()[end as int] < 128,
    ensures
        r.spec_bytes() == s.spec_bytes().take(end as int),
{
    let r = prefix_until(s, end);
    assert(s.spec_bytes().take(end as int) =~= s.spec_bytes().subrange(0, end as int));
    r
}

/// Splits `s` at its newlines.
pub fn split_newlines(s: &str) -> (r: Vec<&str>)
    ensures
        r@.map_values(|x: &str| x.spec_bytes()) == newline_segments(s.spec_bytes()),
{
    let mut out: Vec<&str> = Vec::new();
    let mut rest: &str = s;
    proof {
        assert(out@.map_values(|x: &str| x.spec_bytes()) + newline_segments(rest.spec_bytes())
            =~= newline_segments(s.spec_bytes()));
    }
    loop
        invariant
            out@.map_values(|x: &str| x.spec_bytes()) + newline_segments(rest.spec_bytes())
                == newline_segments(s.spec_bytes()),
        decreases rest.spec_bytes().len(),
    {
        let bytes = rest.as_bytes();
        proof {
            lemma_find_first(bytes@, 10);
        }
        match index_of_first(bytes, 10) {
            None => {
                let ghost prev = out@;
                out.push(rest);
                proof {
                    assert(newline_segments(rest.spec_bytes()) == seq![rest.spec_bytes()]);
                    assert(out@.map_values(|x: &str| x.spec_bytes()) =~= prev.map_values(
                        |x: &str| x.spec_bytes(),
                    ) + newline_segments(rest.spec_bytes()));
                }
                return out;
            },
            Some(i) => {
                let (seg, after) = split_around(rest, i);
                let ghost prev = out@;
                let ghost rb = rest.spec_bytes();
                out.push(seg);
                proof {
                    assert(seg.spec_bytes() =~= rb.take(i as int));
                    assert(newline_segments(rb) == seq![rb.take(i as int)] + newline_segments(
                        rb.subrange(i + 1, rb.len() as int),
                    ));
                    assert(out@.map_values(|x: &str| x.spec_bytes()) =~= prev.map_values(
                        |x: &str| x.spec_bytes(),
                    ).push(seg.spec_bytes()));
                    assert(out@.map_values(|x: &str| x.spec_bytes()) + newline_segments(
                        after.spec_bytes(),
                    ) =~= prev.map_values(|x: &str| x.spec_bytes()) + newline_segments(rb));
                }
                rest = after;
            },
        }
    }
}

proof fn lemma_digit_char_value(d: nat)
    requires
        d < 10,
    ensures
        (digit_char(d) as u32) == 48 + d,
        '0' <= digit_char(d) && digit_char(d) <= '9',
{
    let b: u8 = (48 + d) as u8;
    assert(b as nat == 48 + d);
    assert((b as char) as u32 == b as u32);
}

/// The decimal text of a number reads back as that number.
pub proof fn lemma_decimal_digits(n: nat)
    ensures
        decimal(n).len() > 0,
        all_digits(decimal(n)),
        digits_value(decimal(n)) == n,
    decreases n,
{
    lemma_digit_char_value(n % 10);
    if n < 10 {
        let d = decimal(n);
        assert(d.drop_last() =~= Seq::<char>::empty());
        assert(d.last() == digit_char(n));
        assert(digits_value(d) == digits_value(d.drop_last()) * 10 + ((d.last() as u32) - 48) as nat);
    }
    if n >= 10 {
        lemma_decimal_digits(n / 10);
        let d = decimal(n);
        assert(d.drop_last() =~= decimal(n / 10));
        assert(d.last() == digit_char(n % 10));
        vstd::arithmetic::div_mod::lemma_fundamental_div_mod(n as int, 10);
        assert(digits_value(d) == digits_value(decimal(n / 10)) * 10 + ((d.last() as u32) - 48) as nat);
        assert(digits_value(d) == (n / 10) * 10 + n % 10);
        assert forall|i: int| 0 <= i < d.len() implies '0' <= #[trigger] d[i] && d[i] <= '9' by {
            if i < d.len() - 1 {
                assert(d[i] == decimal(n / 10)[i]);
            }
        }
    }
}

} // verus!
