//! Parsing of JSON text: the mathematical definition of what a text parses
//! to and a verified reader that returns exactly that value.
//!
//! The grammar read here is JSON with two restrictions that keep every value
//! representable: numbers must be integers of at most 38 digits, and `\u`
//! escapes must denote ASCII characters.

use vstd::prelude::*;

use crate::json_text::{digit_val, is_digit_char, is_ws_char, json_int_bound, wf_json};
use crate::json_value::{Json, JsonValue, view_members, view_seq};
use crate::json_text::string_of_chars;

verus! {

/// A hexadecimal digit.
pub open spec fn is_hex_char(c: char) -> bool {
    is_digit_char(c) || ('a' as u32 <= c as u32 <= 'f' as u32) || ('A' as u32 <= c as u32
        <= 'F' as u32)
}

/// The numeric value of a hexadecimal digit.
pub open spec fn hex_val(c: char) -> int {
    if is_digit_char(c) {
        digit_val(c)
    } else if 'a' as u32 <= c as u32 <= 'f' as u32 {
        c as u32 - 'a' as u32 + 10
    } else {
        c as u32 - 'A' as u32 + 10
    }
}

/// The character with an ASCII code.
pub open spec fn ascii_char(code: int) -> char {
    (code as u8) as char
}

/// The first position at or after `i` holding no whitespace.
pub open spec fn skip_ws(s: Seq<char>, i: int) -> int
    decreases s.len() - i,
{
    if 0 <= i < s.len() && is_ws_char(s[i]) {
        skip_ws(s, i + 1)
    } else {
        i
    }
}

pub proof fn lemma_skip_ws(s: Seq<char>, i: int)
    requires
        0 <= i <= s.len(),
    ensures
        i <= skip_ws(s, i) <= s.len(),
        skip_ws(s, i) < s.len() ==> !is_ws_char(s[skip_ws(s, i)]),
    decreases s.len() - i,
{
    if i < s.len() && is_ws_char(s[i]) {
        lemma_skip_ws(s, i + 1);
    }
}

/// One escape sequence, read just after its backslash. `\u` escapes are
/// accepted for ASCII code points only.
pub open spec fn parse_esc(s: Seq<char>, i: int) -> Option<(char, int)> {
    if i < 0 || i >= s.len() {
        None
    } else if s[i] == '"' {
        Some(('"', i + 1))
    } else if s[i] == '\\' {
        Some(('\\', i + 1))
    } else if s[i] == '/' {
        Some(('/', i + 1))
    } else if s[i] == 'b' {
        Some(('\u{8}', i + 1))
    } else if s[i] == 'f' {
        Some(('\u{c}', i + 1))
    } else if s[i] == 'n' {
        Some(('\n', i + 1))
    } else if s[i] == 'r' {
        Some(('\r', i + 1))
    } else if s[i] == 't' {
        Some(('\t', i + 1))
    } else if s[i] == 'u' {
        if i + 5 <= s.len() && is_hex_char(s[i + 1]) && is_hex_char(s[i + 2]) && is_hex_char(
            s[i + 3],
        ) && is_hex_char(s[i + 4]) {
            let code = hex_val(s[i + 1]) * 4096 + hex_val(s[i + 2]) * 256 + hex_val(s[i + 3]) * 16
                + hex_val(s[i + 4]);
            if code < 128 {
                Some((ascii_char(code), i + 5))
            } else {
                None
            }
        } else {
            None
        }
    } else {
        None
    }
}

/// The body of a string literal starting at `i` (just after the opening
/// quote), up to and including the closing quote.
pub open spec fn parse_str_body(s: Seq<char>, i: int) -> Option<(Seq<char>, int)>
    decreases s.len() - i,
{
    if i < 0 || i >= s.len() {
        None
    } else if s[i] == '"' {
        Some((Seq::empty(), i + 1))
    } else if s[i] == '\\' {
        match parse_esc(s, i + 1) {
            None => None,
            Some((c, j)) => if j <= i + 1 {
                None
            } else {
                match parse_str_body(s, j) {
                    None => None,
                    Some((t, k)) => Some((seq![c] + t, k)),
                }
            },
        }
    } else if (s[i] as u32) < 32 {
        None
    } else {
        match parse_str_body(s, i + 1) {
            None => None,
            Some((t, k)) => Some((seq![s[i]] + t, k)),
        }
    }
}

/// The end of the run of decimal digits starting at `i`.
pub open spec fn digit_run_end(s: Seq<char>, i: int) -> int
    decreases s.len() - i,
{
    if 0 <= i < s.len() && is_digit_char(s[i]) {
        digit_run_end(s, i + 1)
    } else {
        i
    }
}

pub proof fn lemma_digit_run_end(s: Seq<char>, i: int)
    requires
        0 <= i <= s.len(),
    ensures
        i <= digit_run_end(s, i) <= s.len(),
        forall|m: int| i <= m < digit_run_end(s, i) ==> is_digit_char(#[trigger] s[m]),
        digit_run_end(s, i) < s.len() ==> !is_digit_char(s[digit_run_end(s, i)]),
    decreases s.len() - i,
{
    if i < s.len() && is_digit_char(s[i]) {
        lemma_digit_run_end(s, i + 1);
    }
}

/// The value of the decimal digits `s[i..j]`.
pub open spec fn digits_val(s: Seq<char>, i: int, j: int) -> int
    decreases j - i,
{
    if i >= j {
        0
    } else {
        digits_val(s, i, j - 1) * 10 + digit_val(s[j - 1])
    }
}

/// Powers of ten.
pub open spec fn pow10(k: int) -> int
    decreases k,
{
    if k <= 0 {
        1
    } else {
        10 * pow10(k - 1)
    }
}

pub proof fn lemma_pow10_pos(k: int)
    ensures
        pow10(k) >= 1,
    decreases k,
{
    if k > 0 {
        lemma_pow10_pos(k - 1);
    }
}

pub proof fn lemma_pow10_le(a: int, b: int)
    requires
        a <= b,
    ensures
        pow10(a) <= pow10(b),
    decreases b - a,
{
    if a < b {
        lemma_pow10_le(a, b - 1);
        lemma_pow10_pos(b - 1);
    }
}

pub proof fn lemma_digits_val_bound(s: Seq<char>, i: int, j: int)
    requires
        i <= j,
        forall|m: int| i <= m < j ==> is_digit_char(#[trigger] s[m]),
    ensures
        0 <= digits_val(s, i, j) < pow10(j - i),
    decreases j - i,
{
    if i < j {
        lemma_digits_val_bound(s, i, j - 1);
    }
}

/// An unsigned integer starting at `i`: a digit run of at most 38 digits with
/// no leading zero, not followed by a fraction or exponent.
pub open spec fn parse_uint(s: Seq<char>, i: int) -> Option<(int, int)> {
    let j = digit_run_end(s, i);
    if j == i {
        None
    } else if j - i > 38 {
        None
    } else if s[i] == '0' && j - i > 1 {
        None
    } else if j < s.len() && (s[j] == '.' || s[j] == 'e' || s[j] == 'E') {
        None
    } else {
        Some((digits_val(s, i, j), j))
    }
}

/// A number starting at `i`: an unsigned integer with an optional sign.
pub open spec fn parse_number(s: Seq<char>, i: int) -> Option<(int, int)> {
    if 0 <= i < s.len() && s[i] == '-' {
        match parse_uint(s, i + 1) {
            None => None,
            Some((n, j)) => Some((-n, j)),
        }
    } else {
        parse_uint(s, i)
    }
}

/// A JSON value starting at `i`, leading whitespace skipped; yields the value
/// and the position just after it.
pub open spec fn parse_value(s: Seq<char>, i: int) -> Option<(Json, int)>
    decreases s.len() - i, 2int,
{
    let j = skip_ws(s, i);
    if j < i || j >= s.len() {
        None
    } else if s[j] == 'n' {
        if j + 4 <= s.len() && s[j + 1] == 'u' && s[j + 2] == 'l' && s[j + 3] == 'l' {
            Some((Json::Null, j + 4))
        } else {
            None
        }
    } else if s[j] == 't' {
        if j + 4 <= s.len() && s[j + 1] == 'r' && s[j + 2] == 'u' && s[j + 3] == 'e' {
            Some((Json::Bool(true), j + 4))
        } else {
            None
        }
    } else if s[j] == 'f' {
        if j + 5 <= s.len() && s[j + 1] == 'a' && s[j + 2] == 'l' && s[j + 3] == 's' && s[j + 4]
            == 'e' {
            Some((Json::Bool(false), j + 5))
        } else {
            None
        }
    } else if s[j] == '"' {
        match parse_str_body(s, j + 1) {
            None => None,
            Some((t, k)) => Some((Json::Text(t), k)),
        }
    } else if s[j] == '-' || is_digit_char(s[j]) {
        match parse_number(s, j) {
            None => None,
            Some((n, k)) => Some((Json::Int(n), k)),
        }
    } else if s[j] == '[' {
        let j2 = skip_ws(s, j + 1);
        if j2 >= s.len() {
            None
        } else if s[j2] == ']' {
            Some((Json::Array(Seq::empty()), j2 + 1))
        } else {
            match parse_elems(s, j + 1) {
                None => None,
                Some((a, k)) => Some((Json::Array(a), k)),
            }
        }
    } else if s[j] == '{' {
        let j2 = skip_ws(s, j + 1);
        if j2 >= s.len() {
            None
        } else if s[j2] == '}' {
            Some((Json::Object(Seq::empty()), j2 + 1))
        } else {
            match parse_members(s, j + 1) {
                None => None,
                Some((m, k)) => Some((Json::Object(m), k)),
            }
        }
    } else {
        None
    }
}

/// One or more array elements starting at `i`, up to and including the
/// closing bracket.
pub open spec fn parse_elems(s: Seq<char>, i: int) -> Option<(Seq<Json>, int)>
    decreases s.len() - i, 3int,
{
    match parse_value(s, i) {
        None => None,
        Some((v, k)) => {
            let j = skip_ws(s, k);
            if j < i + 1 || j >= s.len() {
                None
            } else if s[j] == ']' {
                Some((seq![v], j + 1))
            } else if s[j] == ',' {
                match parse_elems(s, j + 1) {
                    None => None,
                    Some((rest, k2)) => Some((seq![v] + rest, k2)),
                }
            } else {
                None
            }
        },
    }
}

/// One or more object members starting at `i`, up to and including the
/// closing brace.
pub open spec fn parse_members(s: Seq<char>, i: int) -> Option<(Seq<(Seq<char>, Json)>, int)>
    decreases s.len() - i, 3int,
{
    let j = skip_ws(s, i);
    if j < i || j >= s.len() {
        None
    } else if s[j] != '"' {
        None
    } else {
        match parse_str_body(s, j + 1) {
            None => None,
            Some((key, k)) => {
                let j2 = skip_ws(s, k);
                if j2 < i || j2 >= s.len() {
                    None
                } else if s[j2] != ':' {
                    None
                } else {
                    match parse_value(s, j2 + 1) {
                        None => None,
                        Some((v, k2)) => {
                            let j3 = skip_ws(s, k2);
                            if j3 < i + 1 || j3 >= s.len() {
                                None
                            } else if s[j3] == '}' {
                                Some((seq![(key, v)], j3 + 1))
                            } else if s[j3] == ',' {
                                match parse_members(s, j3 + 1) {
                                    None => None,
                                    Some((rest, k3)) => Some((seq![(key, v)] + rest, k3)),
                                }
                            } else {
                                None
                            }
                        },
                    }
                }
            },
        }
    }
}

/// What a whole text parses to: one value with nothing but whitespace after
/// it.
pub open spec fn parse_json_spec(s: Seq<char>) -> Option<Json> {
    match parse_value(s, 0) {
        None => None,
        Some((v, k)) => if skip_ws(s, k) == s.len() {
            Some(v)
        } else {
            None
        },
    }
}

proof fn lemma_parse_uint_range(s: Seq<char>, i: int)
    requires
        0 <= i <= s.len(),
    ensures
        parse_uint(s, i) matches Some(p) ==> 0 <= p.0 < json_int_bound(),
{
    lemma_digit_run_end(s, i);
    let j = digit_run_end(s, i);
    if parse_uint(s, i) is Some {
        lemma_digits_val_bound(s, i, j);
        lemma_pow10_le(j - i, 38);
        lemma_pow10_38();
    }
}

/// Every value the parser yields is well formed: in particular, every number
/// read is small enough for its own text to be read back.
pub proof fn lemma_parse_value_wf(s: Seq<char>, i: int)
    requires
        0 <= i <= s.len(),
    ensures
        parse_value(s, i) matches Some(p) ==> wf_json(p.0),
    decreases s.len() - i, 2int,
{
    let j = skip_ws(s, i);
    lemma_skip_ws(s, i);
    if j < i || j >= s.len() {
    } else if s[j] == '-' || is_digit_char(s[j]) {
        if s[j] == '-' {
            lemma_parse_uint_range(s, j + 1);
        } else {
            lemma_parse_uint_range(s, j);
        }
    } else if s[j] == '[' {
        let j2 = skip_ws(s, j + 1);
        lemma_skip_ws(s, j + 1);
        if j2 < s.len() && s[j2] != ']' {
            lemma_parse_elems_wf(s, j + 1);
        }
    } else if s[j] == '{' {
        let j2 = skip_ws(s, j + 1);
        lemma_skip_ws(s, j + 1);
        if j2 < s.len() && s[j2] != '}' {
            lemma_parse_members_wf(s, j + 1);
        }
    }
}

proof fn lemma_parse_elems_wf(s: Seq<char>, i: int)
    requires
        0 <= i <= s.len(),
    ensures
        parse_elems(s, i) matches Some(p) ==> forall|k: int|
            0 <= k < p.0.len() ==> wf_json(#[trigger] p.0[k]),
    decreases s.len() - i, 3int,
{
    lemma_parse_value_wf(s, i);
    match parse_value(s, i) {
        None => {},
        Some((v, k)) => {
            let j = skip_ws(s, k);
            if j < i + 1 || j >= s.len() {
            } else if s[j] == ']' {
            } else if s[j] == ',' {
                lemma_parse_elems_wf(s, j + 1);
                match parse_elems(s, j + 1) {
                    None => {},
                    Some((rest, _)) => {
                        assert(forall|k: int|
                            0 <= k < rest.len() ==> (seq![v] + rest)[k + 1] == rest[k]);
                    },
                }
            }
        },
    }
}

proof fn lemma_parse_members_wf(s: Seq<char>, i: int)
    requires
        0 <= i <= s.len(),
    ensures
        parse_members(s, i) matches Some(p) ==> forall|k: int|
            0 <= k < p.0.len() ==> wf_json(#[trigger] p.0[k].1),
    decreases s.len() - i, 3int,
{
    let j = skip_ws(s, i);
    lemma_skip_ws(s, i);
    if j < i || j >= s.len() || s[j] != '"' {
    } else {
        match parse_str_body(s, j + 1) {
            None => {},
            Some((key, k)) => {
                let j2 = skip_ws(s, k);
                if j2 < i || j2 >= s.len() || s[j2] != ':' {
                } else {
                    lemma_parse_value_wf(s, j2 + 1);
                    match parse_value(s, j2 + 1) {
                        None => {},
                        Some((v, k2)) => {
                            let j3 = skip_ws(s, k2);
                            if j3 < i + 1 || j3 >= s.len() {
                            } else if s[j3] == '}' {
                            } else if s[j3] == ',' {
                                lemma_parse_members_wf(s, j3 + 1);
                                match parse_members(s, j3 + 1) {
                                    None => {},
                                    Some((rest, _)) => {
                                        assert(forall|m: int|
                                            0 <= m < rest.len() ==> (seq![(key, v)] + rest)[m + 1]
                                                == rest[m]);
                                    },
                                }
                            }
                        },
                    }
                }
            },
        }
    }
}

/// The exact text a failed unsigned-number read carries, by failure class.
pub open spec fn uint_error_message(s: Seq<char>, i: int) -> Seq<char> {
    let j = digit_run_end(s, i);
    if j == i {
        "expected a number"@
    } else if j - i > 38 {
        "number out of range"@
    } else if s[i] == '0' && j - i > 1 {
        "number with a leading zero"@
    } else {
        "float numbers are not supported"@
    }
}

/// The exact text a failed number read carries, sign included.
pub open spec fn number_error_message(s: Seq<char>, i: int) -> Seq<char> {
    if 0 <= i < s.len() && s[i] == '-' {
        uint_error_message(s, i + 1)
    } else {
        uint_error_message(s, i)
    }
}

/// The texts the reader's failures carry, in full: truncated input is
/// reported as `EOF while parsing …`, everything else names the offending
/// construct.
pub open spec fn parse_error_message(s: Seq<char>) -> bool {
    ||| s == "EOF while parsing a string"@
    ||| s == "EOF while parsing a value"@
    ||| s == "EOF while parsing a list"@
    ||| s == "EOF while parsing an object"@
    ||| s == "invalid escape in string"@
    ||| s == "unsupported escape in string"@
    ||| s == "control character in string"@
    ||| s == "expected a number"@
    ||| s == "number out of range"@
    ||| s == "number with a leading zero"@
    ||| s == "float numbers are not supported"@
    ||| s == "expected a value"@
    ||| s == "expected `,` or `]` in a list"@
    ||| s == "expected a string key in an object"@
    ||| s == "expected `:` in an object"@
    ||| s == "expected `,` or `}` in an object"@
    ||| s == "trailing characters"@
}

/// Ties a whole-text read failure to its class: after a successful value
/// nothing but whitespace may follow; truncated input is reported as the
/// EOF message of the construct it opens; a leading number that cannot be
/// read carries its number failure text.
pub open spec fn parse_json_error(s: Seq<char>, m: Seq<char>) -> bool {
    &&& parse_error_message(m)
    &&& (parse_value(s, 0) is Some ==> m == "trailing characters"@)
    &&& (skip_ws(s, 0) >= s.len() ==> m == "EOF while parsing a value"@)
    &&& ({
        let j = skip_ws(s, 0);
        j < s.len() ==> {
            &&& (s[j] == '[' && skip_ws(s, j + 1) >= s.len() ==> m == "EOF while parsing a list"@)
            &&& (s[j] == '{' && skip_ws(s, j + 1) >= s.len() ==> m
                == "EOF while parsing an object"@)
            &&& ((s[j] == '-' || is_digit_char(s[j])) && parse_value(s, 0) is None ==> m
                == number_error_message(s, j))
        }
    })
}

fn is_ws_x(c: char) -> (r: bool)
    ensures
        r == is_ws_char(c),
{
    c == ' ' || c == '\t' || c == '\n' || c == '\r'
}

fn is_digit_x(c: char) -> (r: bool)
    ensures
        r == is_digit_char(c),
{
    let cu = c as u32;
    48 <= cu && cu <= 57
}

fn is_hex_x(c: char) -> (r: bool)
    ensures
        r == is_hex_char(c),
{
    let cu = c as u32;
    (48 <= cu && cu <= 57) || (97 <= cu && cu <= 102) || (65 <= cu && cu <= 70)
}

fn hex_val_x(c: char) -> (r: u32)
    requires
        is_hex_char(c),
    ensures
        r as int == hex_val(c),
        r < 16,
{
    let cu = c as u32;
    if 48 <= cu && cu <= 57 {
        cu - 48
    } else if 97 <= cu && cu <= 102 {
        cu - 97 + 10
    } else {
        cu - 65 + 10
    }
}

fn skip_ws_x(s: &Vec<char>, i: usize) -> (r: usize)
    requires
        i <= s@.len(),
    ensures
        r as int == skip_ws(s@, i as int),
        i <= r <= s@.len(),
{
    let mut j: usize = i;
    while j < s.len() && is_ws_x(s[j])
        invariant
            i <= j <= s@.len(),
            skip_ws(s@, i as int) == skip_ws(s@, j as int),
        decreases s@.len() - j,
    {
        proof {
            assert(skip_ws(s@, j as int) == skip_ws(s@, j as int + 1));
        }
        j = j + 1;
    }
    j
}

fn parse_esc_x(s: &Vec<char>, i: usize) -> (r: Result<(char, usize), String>)
    requires
        i <= s@.len(),
    ensures
        match r {
            Ok(p) => parse_esc(s@, i as int) == Some((p.0, p.1 as int)) && i < p.1 <= s@.len(),
            Err(m) => parse_esc(s@, i as int) is None && parse_error_message(m@),
        },
{
    if i >= s.len() {
        return Err("EOF while parsing a string".to_owned());
    }
    let c = s[i];
    if c == '"' {
        Ok(('"', i + 1))
    } else if c == '\\' {
        Ok(('\\', i + 1))
    } else if c == '/' {
        Ok(('/', i + 1))
    } else if c == 'b' {
        Ok(('\u{8}', i + 1))
    } else if c == 'f' {
        Ok(('\u{c}', i + 1))
    } else if c == 'n' {
        Ok(('\n', i + 1))
    } else if c == 'r' {
        Ok(('\r', i + 1))
    } else if c == 't' {
        Ok(('\t', i + 1))
    } else if c == 'u' {
        if s.len() - i >= 5 && is_hex_x(s[i + 1]) && is_hex_x(s[i + 2]) && is_hex_x(s[i + 3])
            && is_hex_x(s[i + 4]) {
            let code: u32 = hex_val_x(s[i + 1]) * 4096 + hex_val_x(s[i + 2]) * 256 + hex_val_x(
                s[i + 3],
            ) * 16 + hex_val_x(s[i + 4]);
            if code < 128 {
                let ch: char = (code as u8) as char;
                assert(ch == ascii_char(code as int));
                Ok((ch, i + 5))
            } else {
                Err("unsupported escape in string".to_owned())
            }
        } else {
            Err("invalid escape in string".to_owned())
        }
    } else {
        Err("invalid escape in string".to_owned())
    }
}

fn parse_str_body_x(s: &Vec<char>, i: usize) -> (r: Result<(Vec<char>, usize), String>)
    requires
        i <= s@.len(),
    ensures
        match r {
            Ok(p) => parse_str_body(s@, i as int) == Some((p.0@, p.1 as int)) && i < p.1
                <= s@.len(),
            Err(m) => parse_str_body(s@, i as int) is None && parse_error_message(m@),
        },
{
    let mut acc: Vec<char> = Vec::new();
    let mut j: usize = i;
    loop
        invariant
            i <= j <= s@.len(),
            forall|t: Seq<char>, k: int|
                parse_str_body(s@, j as int) == Some::<(Seq<char>, int)>((t, k)) ==> parse_str_body(
                    s@,
                    i as int,
                ) == Some::<(Seq<char>, int)>((acc@ + t, k)),
            parse_str_body(s@, j as int) is None ==> parse_str_body(s@, i as int) is None,
        decreases s@.len() - j,
    {
        if j >= s.len() {
            return Err("EOF while parsing a string".to_owned());
        }
        let c = s[j];
        if c == '"' {
            proof {
                assert(parse_str_body(s@, j as int) == Some::<(Seq<char>, int)>(
                    (Seq::empty(), j as int + 1),
                ));
                assert(acc@ + Seq::<char>::empty() =~= acc@);
            }
            return Ok((acc, j + 1));
        } else if c == '\\' {
            match parse_esc_x(s, j + 1) {
                Err(e) => {
                    return Err(e);
                },
                Ok((ec, j2)) => {
                    if j2 <= j + 1 {
                        return Err("invalid escape in string".to_owned());
                    }
                    let ghost pre = acc@;
                    acc.push(ec);
                    proof {
                        assert forall|t: Seq<char>, k: int|
                            parse_str_body(s@, j2 as int) == Some::<(Seq<char>, int)>(
                                (t, k),
                            ) implies parse_str_body(s@, i as int) == Some::<(Seq<char>, int)>(
                            (acc@ + t, k),
                        ) by {
                            assert(parse_str_body(s@, j as int) == Some::<(Seq<char>, int)>(
                                (seq![ec] + t, k),
                            ));
                            assert(pre + (seq![ec] + t) =~= acc@ + t);
                        }
                    }
                    j = j2;
                },
            }
        } else if (c as u32) < 32 {
            return Err("control character in string".to_owned());
        } else {
            let ghost pre = acc@;
            acc.push(c);
            proof {
                assert forall|t: Seq<char>, k: int|
                    parse_str_body(s@, j as int + 1) == Some::<(Seq<char>, int)>(
                        (t, k),
                    ) implies parse_str_body(s@, i as int) == Some::<(Seq<char>, int)>(
                    (acc@ + t, k),
                ) by {
                    assert(parse_str_body(s@, j as int) == Some::<(Seq<char>, int)>(
                        (seq![c] + t, k),
                    ));
                    assert(pre + (seq![c] + t) =~= acc@ + t);
                }
            }
            j = j + 1;
        }
    }
}

fn parse_uint_x(s: &Vec<char>, i: usize) -> (r: Result<(i128, usize), String>)
    requires
        i <= s@.len(),
    ensures
        match r {
            Ok(p) => parse_uint(s@, i as int) == Some((p.0 as int, p.1 as int)) && i < p.1
                <= s@.len() && 0 <= p.0 < 100000000000000000000000000000000000000i128,
            Err(m) => parse_uint(s@, i as int) is None && parse_error_message(m@) && m@
                == uint_error_message(s@, i as int),
        },
{
    let mut j: usize = i;
    while j < s.len() && is_digit_x(s[j])
        invariant
            i <= j <= s@.len(),
            digit_run_end(s@, i as int) == digit_run_end(s@, j as int),
        decreases s@.len() - j,
    {
        proof {
            assert(digit_run_end(s@, j as int) == digit_run_end(s@, j as int + 1));
        }
        j = j + 1;
    }
    assert(j as int == digit_run_end(s@, i as int));
    proof {
        lemma_digit_run_end(s@, i as int);
    }
    if j == i {
        return Err("expected a number".to_owned());
    }
    if j - i > 38 {
        return Err("number out of range".to_owned());
    }
    if s[i] == '0' && j - i > 1 {
        return Err("number with a leading zero".to_owned());
    }
    if j < s.len() && (s[j] == '.' || s[j] == 'e' || s[j] == 'E') {
        return Err("float numbers are not supported".to_owned());
    }
    proof {
        lemma_pow10_38();
    }
    let mut acc: i128 = 0;
    let mut k: usize = i;
    while k < j
        invariant
            i <= k <= j <= s@.len(),
            j - i <= 38,
            forall|m: int| i <= m < j ==> is_digit_char(#[trigger] s@[m]),
            acc as int == digits_val(s@, i as int, k as int),
            pow10(38) == 100000000000000000000000000000000000000,
        decreases j - k,
    {
        proof {
            lemma_digits_val_bound(s@, i as int, k as int);
            lemma_pow10_le(k as int - i as int, 37);
        }
        let c = s[k];
        let d: u32 = (c as u32) - 48;
        acc = acc * 10 + (d as i128);
        k = k + 1;
    }
    proof {
        lemma_digits_val_bound(s@, i as int, j as int);
        lemma_pow10_le(j as int - i as int, 38);
    }
    Ok((acc, j))
}

pub proof fn lemma_pow10_38()
    ensures
        pow10(38) == 100000000000000000000000000000000000000,
{
    reveal_with_fuel(pow10, 40);
}

fn parse_number_x(s: &Vec<char>, i: usize) -> (r: Result<(i128, usize), String>)
    requires
        i <= s@.len(),
    ensures
        match r {
            Ok(p) => parse_number(s@, i as int) == Some((p.0 as int, p.1 as int)) && i < p.1
                <= s@.len(),
            Err(m) => parse_number(s@, i as int) is None && parse_error_message(m@) && m@
                == number_error_message(s@, i as int),
        },
{
    if i < s.len() && s[i] == '-' {
        match parse_uint_x(s, i + 1) {
            Err(e) => Err(e),
            Ok((n, j)) => Ok((-n, j)),
        }
    } else {
        parse_uint_x(s, i)
    }
}

/// Reads the JSON value starting at `i`; returns the value and the position
/// just after it.
pub fn parse_value_x(s: &Vec<char>, i: usize) -> (r: Result<(JsonValue, usize), String>)
    requires
        i <= s@.len(),
    ensures
        match r {
            Ok(p) => parse_value(s@, i as int) == Some((p.0@, p.1 as int)) && i < p.1 <= s@.len(),
            Err(m) => parse_value(s@, i as int) is None && parse_error_message(m@) && (skip_ws(
                s@,
                i as int,
            ) >= s@.len() ==> m@ == "EOF while parsing a value"@) && ({
                let j = skip_ws(s@, i as int);
                j < s@.len() ==> {
                    &&& (s@[j] == '[' && skip_ws(s@, j + 1) >= s@.len() ==> m@
                        == "EOF while parsing a list"@)
                    &&& (s@[j] == '{' && skip_ws(s@, j + 1) >= s@.len() ==> m@
                        == "EOF while parsing an object"@)
                    &&& ((s@[j] == '-' || is_digit_char(s@[j])) ==> m@ == number_error_message(
                        s@,
                        j,
                    ))
                }
            }),
        },
    decreases s@.len() - i, 2int,
{
    let j = skip_ws_x(s, i);
    if j >= s.len() {
        return Err("EOF while parsing a value".to_owned());
    }
    let c = s[j];
    if c == 'n' {
        if s.len() - j >= 4 && s[j + 1] == 'u' && s[j + 2] == 'l' && s[j + 3] == 'l' {
            Ok((JsonValue::Null, j + 4))
        } else {
            Err("expected a value".to_owned())
        }
    } else if c == 't' {
        if s.len() - j >= 4 && s[j + 1] == 'r' && s[j + 2] == 'u' && s[j + 3] == 'e' {
            Ok((JsonValue::Bool(true), j + 4))
        } else {
            Err("expected a value".to_owned())
        }
    } else if c == 'f' {
        if s.len() - j >= 5 && s[j + 1] == 'a' && s[j + 2] == 'l' && s[j + 3] == 's' && s[j + 4]
            == 'e' {
            Ok((JsonValue::Bool(false), j + 5))
        } else {
            Err("expected a value".to_owned())
        }
    } else if c == '"' {
        match parse_str_body_x(s, j + 1) {
            Err(e) => Err(e),
            Ok((t, k)) => {
                let st = string_of_chars(&t);
                Ok((JsonValue::Text(st), k))
            },
        }
    } else if c == '-' || is_digit_x(c) {
        match parse_number_x(s, j) {
            Err(e) => Err(e),
            Ok((n, k)) => Ok((JsonValue::Int(n), k)),
        }
    } else if c == '[' {
        let j2 = skip_ws_x(s, j + 1);
        if j2 >= s.len() {
            Err("EOF while parsing a list".to_owned())
        } else if s[j2] == ']' {
            let out: Vec<JsonValue> = Vec::new();
            proof {
                assert(view_seq(out@) =~= Seq::<Json>::empty());
            }
            Ok((JsonValue::Array(out), j2 + 1))
        } else {
            match parse_elems_x(s, j + 1) {
                Err(e) => Err(e),
                Ok((a, k)) => Ok((JsonValue::Array(a), k)),
            }
        }
    } else if c == '{' {
        let j2 = skip_ws_x(s, j + 1);
        if j2 >= s.len() {
            Err("EOF while parsing an object".to_owned())
        } else if s[j2] == '}' {
            let out: Vec<(String, JsonValue)> = Vec::new();
            proof {
                assert(view_members(out@) =~= Seq::<(Seq<char>, Json)>::empty());
            }
            Ok((JsonValue::Object(out), j2 + 1))
        } else {
            match parse_members_x(s, j + 1) {
                Err(e) => Err(e),
                Ok((m, k)) => Ok((JsonValue::Object(m), k)),
            }
        }
    } else {
        Err("expected a value".to_owned())
    }
}

fn parse_elems_x(s: &Vec<char>, i: usize) -> (r: Result<(Vec<JsonValue>, usize), String>)
    requires
        i <= s@.len(),
    ensures
        match r {
            Ok(p) => parse_elems(s@, i as int) == Some((view_seq(p.0@), p.1 as int)) && i < p.1
                <= s@.len(),
            Err(m) => parse_elems(s@, i as int) is None && parse_error_message(m@),
        },
    decreases s@.len() - i, 3int,
{
    match parse_value_x(s, i) {
        Err(e) => Err(e),
        Ok((v, k)) => {
            let j = skip_ws_x(s, k);
            if j < i + 1 {
                Err("EOF while parsing a list".to_owned())
            } else if j >= s.len() {
                Err("EOF while parsing a list".to_owned())
            } else if s[j] == ']' {
                let mut out: Vec<JsonValue> = Vec::new();
                out.push(v);
                proof {
                    crate::json_value::lemma_view_seq_cons(v, Seq::empty());
                    assert(seq![v] + Seq::<JsonValue>::empty() =~= out@);
                    assert(seq![v@] + view_seq(Seq::<JsonValue>::empty()) =~= seq![v@]);
                }
                Ok((out, j + 1))
            } else if s[j] == ',' {
                match parse_elems_x(s, j + 1) {
                    Err(e) => Err(e),
                    Ok((mut rest, k2)) => {
                        let ghost pre = rest@;
                        rest.insert(0, v);
                        proof {
                            crate::json_value::lemma_view_seq_cons(v, pre);
                            assert(seq![v] + pre =~= rest@);
                        }
                        Ok((rest, k2))
                    },
                }
            } else {
                Err("expected `,` or `]` in a list".to_owned())
            }
        },
    }
}

fn parse_members_x(s: &Vec<char>, i: usize) -> (r: Result<(Vec<(String, JsonValue)>, usize), String>)
    requires
        i <= s@.len(),
    ensures
        match r {
            Ok(p) => parse_members(s@, i as int) == Some((view_members(p.0@), p.1 as int)) && i
                < p.1 <= s@.len(),
            Err(m) => parse_members(s@, i as int) is None && parse_error_message(m@),
        },
    decreases s@.len() - i, 3int,
{
    let j = skip_ws_x(s, i);
    if j >= s.len() {
        return Err("EOF while parsing an object".to_owned());
    }
    if s[j] != '"' {
        return Err("expected a string key in an object".to_owned());
    }
    match parse_str_body_x(s, j + 1) {
        Err(e) => Err(e),
        Ok((kt, k)) => {
            let key = string_of_chars(&kt);
            let j2 = skip_ws_x(s, k);
            if j2 >= s.len() {
                Err("EOF while parsing an object".to_owned())
            } else if s[j2] != ':' {
                Err("expected `:` in an object".to_owned())
            } else {
                match parse_value_x(s, j2 + 1) {
                    Err(e) => Err(e),
                    Ok((v, k2)) => {
                        let j3 = skip_ws_x(s, k2);
                        if j3 < i + 1 {
                            Err("EOF while parsing an object".to_owned())
                        } else if j3 >= s.len() {
                            Err("EOF while parsing an object".to_owned())
                        } else if s[j3] == '}' {
                            let mut out: Vec<(String, JsonValue)> = Vec::new();
                            proof {
                                crate::json_value::lemma_view_members_cons(key, v, Seq::empty());
                            }
                            let ghost gkey = key@;
                            let ghost gv = v@;
                            out.push((key, v));
                            proof {
                                assert(seq![(out@[0].0, out@[0].1)] + Seq::<(
                                    String,
                                    JsonValue,
                                )>::empty() =~= out@);
                                assert(seq![(gkey, gv)] + view_members(Seq::<(
                                    String,
                                    JsonValue,
                                )>::empty()) =~= seq![(gkey, gv)]);
                            }
                            Ok((out, j3 + 1))
                        } else if s[j3] == ',' {
                            match parse_members_x(s, j3 + 1) {
                                Err(e) => Err(e),
                                Ok((mut rest, k3)) => {
                                    let ghost pre = rest@;
                                    proof {
                                        crate::json_value::lemma_view_members_cons(key, v, pre);
                                    }
                                    rest.insert(0, (key, v));
                                    proof {
                                        assert(seq![(rest@[0].0, rest@[0].1)] + pre =~= rest@);
                                    }
                                    Ok((rest, k3))
                                },
                            }
                        } else {
                            Err("expected `,` or `}` in an object".to_owned())
                        }
                    },
                }
            }
        },
    }
}

/// Reads a whole JSON text: one value, with nothing but whitespace around it.
pub fn parse_json(s: &str) -> (r: Result<JsonValue, String>)
    ensures
        match r {
            Ok(v) => parse_json_spec(s@) == Some(v@) && wf_json(v@),
            Err(m) => parse_json_spec(s@) is None && parse_json_error(s@, m@),
        },
{
    let cs = crate::json_text::chars_of(s);
    match parse_value_x(&cs, 0) {
        Err(e) => Err(e),
        Ok((v, k)) => {
            let j = skip_ws_x(&cs, k);
            if j == cs.len() {
                proof {
                    lemma_parse_value_wf(cs@, 0);
                }
                Ok(v)
            } else {
                proof {
                    lemma_skip_ws(cs@, 0);
                    let j0 = skip_ws(cs@, 0);
                    assert(parse_value(cs@, 0) is Some);
                    if j0 >= cs@.len() {
                        assert(parse_value(cs@, 0) is None);
                    }
                    if j0 < cs@.len() && cs@[j0] == '[' && skip_ws(cs@, j0 + 1) >= cs@.len() {
                        assert(parse_value(cs@, 0) is None);
                    }
                    if j0 < cs@.len() && cs@[j0] == '{' && skip_ws(cs@, j0 + 1) >= cs@.len() {
                        assert(parse_value(cs@, 0) is None);
                    }
                }
                Err("trailing characters".to_owned())
            }
        },
    }
}

} // verus!
