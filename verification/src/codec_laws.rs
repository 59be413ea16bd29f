//! The codec law: a value's text parses back to that value.

use vstd::prelude::*;

use crate::json_value::Json;
use crate::json_text::{
    arr_text, dec_int, dec_nat, dec_rec, digit_char, digit_val, esc_char, esc_str, hex_char,
    is_digit_char, is_ws_char, json_int_bound, json_text, obj_text, quoted, wf_json,
};
use crate::json_parse::{
    ascii_char, digit_run_end, digits_val, hex_val, is_hex_char, parse_elems, parse_esc,
    parse_json_spec, parse_members, parse_number, parse_str_body, parse_uint, parse_value, pow10,
    skip_ws, lemma_pow10_pos,
};

verus! {

/// A character that would extend a number if it followed one.
pub open spec fn num_cont_char(c: char) -> bool {
    is_digit_char(c) || c == '.' || c == 'e' || c == 'E'
}

proof fn lemma_sub_index(s: Seq<char>, i: int, t: Seq<char>, k: int)
    requires
        0 <= i,
        i + t.len() <= s.len(),
        s.subrange(i, i + t.len()) == t,
        0 <= k < t.len(),
    ensures
        s[i + k] == t[k],
{
    assert(s.subrange(i, i + t.len())[k] == s[i + k]);
}

proof fn lemma_sub_sub(s: Seq<char>, i: int, t: Seq<char>, a: int, b: int)
    requires
        0 <= i,
        i + t.len() <= s.len(),
        s.subrange(i, i + t.len()) == t,
        0 <= a <= b <= t.len(),
    ensures
        s.subrange(i + a, i + b) == t.subrange(a, b),
{
    assert forall|k: int| 0 <= k < b - a implies s.subrange(i + a, i + b)[k] == t.subrange(a, b)[k]
        by {
        assert(s.subrange(i, i + t.len())[a + k] == s[i + a + k]);
    }
    assert(s.subrange(i + a, i + b) =~= t.subrange(a, b));
}

proof fn lemma_skip_ws_here(s: Seq<char>, i: int)
    requires
        0 <= i,
        i >= s.len() || !is_ws_char(s[i]),
    ensures
        skip_ws(s, i) == i,
{
}

proof fn lemma_dec_rec_digits(n: int)
    requires
        n >= 1,
    ensures
        dec_rec(n).len() >= 1,
        dec_rec(n)[0] != '0',
        forall|k: int| 0 <= k < dec_rec(n).len() ==> is_digit_char(#[trigger] dec_rec(n)[k]),
    decreases n,
{
    reveal_with_fuel(dec_rec, 3);
    if n < 10 {
        assert(dec_rec(n) =~= seq![digit_char(n)]);
    } else {
        lemma_dec_rec_digits(n / 10);
        assert(dec_rec(n) == dec_rec(n / 10).push(digit_char(n % 10)));
        assert(dec_rec(n)[0] == dec_rec(n / 10)[0]);
        assert forall|k: int| 0 <= k < dec_rec(n).len() implies is_digit_char(
            #[trigger] dec_rec(n)[k],
        ) by {
            if k < dec_rec(n).len() - 1 {
                assert(dec_rec(n)[k] == dec_rec(n / 10)[k]);
            }
        }
    }
}

proof fn lemma_dec_rec_len(n: int, k: int)
    requires
        1 <= n,
        n < pow10(k),
    ensures
        1 <= dec_rec(n).len() <= k,
    decreases k,
{
    if n < 10 {
        assert(dec_rec(n) == dec_rec(n / 10).push(digit_char(n % 10)));
        assert(dec_rec(n / 10) =~= Seq::<char>::empty());
        lemma_pow10_pos(k - 1);
        assert(k >= 1);
    } else {
        assert(pow10(k) == 10 * pow10(k - 1));
        lemma_dec_rec_len(n / 10, k - 1);
    }
}

proof fn lemma_digits_of_dec_rec(n: int, s: Seq<char>, i: int)
    requires
        n >= 0,
        0 <= i,
        i + dec_rec(n).len() <= s.len(),
        s.subrange(i, i + dec_rec(n).len()) == dec_rec(n),
    ensures
        digits_val(s, i, i + dec_rec(n).len()) == n,
    decreases n,
{
    if n == 0 {
        assert(dec_rec(0).len() == 0);
    } else {
        let t = dec_rec(n);
        let tp = dec_rec(n / 10);
        assert(t == tp.push(digit_char(n % 10)));
        lemma_sub_sub(s, i, t, 0, tp.len() as int);
        assert(t.subrange(0, tp.len() as int) =~= tp);
        lemma_digits_of_dec_rec(n / 10, s, i);
        lemma_sub_index(s, i, t, t.len() - 1);
        assert(t[t.len() - 1] == digit_char(n % 10));
        assert(digit_val(digit_char(n % 10)) == n % 10);
        assert(digits_val(s, i, i + t.len()) == digits_val(s, i, i + t.len() - 1) * 10 + digit_val(
            s[i + t.len() - 1],
        ));
        assert(digits_val(s, i, i + t.len()) == (n / 10) * 10 + n % 10);
        assert((n / 10) * 10 + n % 10 == n) by (nonlinear_arith);
    }
}

proof fn lemma_digit_run_exact(s: Seq<char>, i: int, j: int)
    requires
        0 <= i <= j <= s.len(),
        forall|m: int| i <= m < j ==> is_digit_char(#[trigger] s[m]),
        j == s.len() || !is_digit_char(s[j]),
    ensures
        digit_run_end(s, i) == j,
    decreases j - i,
{
    if i < j {
        lemma_digit_run_exact(s, i + 1, j);
    }
}

/// The decimal text of an in-range integer parses back to that integer.
proof fn lemma_parse_dec(n: int, s: Seq<char>, i: int)
    requires
        -json_int_bound() < n < json_int_bound(),
        0 <= i,
        i + dec_int(n).len() <= s.len(),
        s.subrange(i, i + dec_int(n).len()) == dec_int(n),
        i + dec_int(n).len() == s.len() || !num_cont_char(s[i + dec_int(n).len()]),
    ensures
        parse_number(s, i) == Some((n, i + dec_int(n).len())),
{
    crate::json_parse::lemma_pow10_38();
    if n < 0 {
        let t = dec_int(n);
        let m = -n;
        lemma_sub_index(s, i, t, 0);
        assert(t[0] == '-');
        lemma_sub_sub(s, i, t, 1, t.len() as int);
        assert(t.subrange(1, t.len() as int) =~= dec_nat(m));
        lemma_parse_uint_at(m, s, i + 1);
        assert(parse_number(s, i) == Some((n, i + t.len())));
    } else {
        lemma_parse_uint_at(n, s, i);
        let t = dec_nat(n);
        lemma_sub_index(s, i, t, 0);
        if n == 0 {
            assert(t[0] == '0');
            assert(!(s[i] == '-'));
        } else {
            lemma_dec_rec_digits(n);
            assert(is_digit_char(t[0]));
            assert(!(s[i] == '-'));
        }
        assert(parse_number(s, i) == parse_uint(s, i));
    }
}

/// The decimal digits of a non-negative in-range integer parse back to it.
proof fn lemma_parse_uint_at(n: int, s: Seq<char>, i: int)
    requires
        0 <= n < json_int_bound(),
        pow10(38) == json_int_bound(),
        0 <= i,
        i + dec_nat(n).len() <= s.len(),
        s.subrange(i, i + dec_nat(n).len()) == dec_nat(n),
        i + dec_nat(n).len() == s.len() || !num_cont_char(s[i + dec_nat(n).len()]),
    ensures
        parse_uint(s, i) == Some((n, i + dec_nat(n).len())),
{
    let t = dec_nat(n);
    let j = i + t.len();
    if n == 0 {
        assert(t =~= seq!['0']);
        lemma_sub_index(s, i, t, 0);
        assert(s[i] == '0');
        assert(forall|m: int| i <= m < j ==> is_digit_char(#[trigger] s[m]));
        lemma_digit_run_exact(s, i, j);
        assert(digits_val(s, i, j) == digits_val(s, i, i) * 10 + digit_val(s[i]));
        assert(digits_val(s, i, j) == 0);
    } else {
        lemma_dec_rec_digits(n);
        assert forall|m: int| i <= m < j implies is_digit_char(#[trigger] s[m]) by {
            lemma_sub_index(s, i, t, m - i);
        }
        lemma_digit_run_exact(s, i, j);
        lemma_dec_rec_len(n, 38);
        lemma_sub_index(s, i, t, 0);
        assert(s[i] == t[0]);
        assert(t[0] != '0');
        lemma_digits_of_dec_rec(n, s, i);
    }
}

proof fn lemma_ascii_char_id(c: char)
    requires
        (c as u32) < 128,
    ensures
        ascii_char(c as u32 as int) == c,
{
}

proof fn lemma_hex_char_props(d: int)
    requires
        0 <= d < 16,
    ensures
        is_hex_char(hex_char(d)),
        hex_val(hex_char(d)) == d,
{
}

/// The escaped body of a string literal parses back to the original string.
proof fn lemma_parse_esc_str(t: Seq<char>, s: Seq<char>, i: int)
    requires
        0 <= i,
        i + esc_str(t).len() + 1 <= s.len(),
        s.subrange(i, i + esc_str(t).len()) == esc_str(t),
        s[i + esc_str(t).len()] == '"',
    ensures
        parse_str_body(s, i) == Some((t, i + esc_str(t).len() + 1)),
    decreases t.len(),
{
    if t.len() == 0 {
        assert(esc_str(t).len() == 0);
        assert(parse_str_body(s, i) == Some((Seq::<char>::empty(), i + 1)));
        assert(t =~= Seq::<char>::empty());
    } else {
        let c = t[0];
        let e0 = esc_char(c);
        let rest = t.drop_first();
        let full = esc_str(t);
        assert(full == e0 + esc_str(rest));
        let l0 = e0.len() as int;
        lemma_sub_sub(s, i, full, l0, full.len() as int);
        assert(full.subrange(l0, full.len() as int) =~= esc_str(rest));
        lemma_parse_esc_str(rest, s, i + l0);
        assert(seq![c] + rest =~= t);
        if c == '"' {
            lemma_sub_index(s, i, full, 0);
            lemma_sub_index(s, i, full, 1);
            assert(s[i] == '\\' && s[i + 1] == '"');
            assert(parse_esc(s, i + 1) == Some(('"', i + 2)));
            assert(parse_str_body(s, i) == Some((t, i + full.len() + 1)));
        } else if c == '\\' {
            lemma_sub_index(s, i, full, 0);
            lemma_sub_index(s, i, full, 1);
            assert(s[i] == '\\' && s[i + 1] == '\\');
            assert(parse_esc(s, i + 1) == Some(('\\', i + 2)));
            assert(parse_str_body(s, i) == Some((t, i + full.len() + 1)));
        } else if (c as u32) < 32 {
            let cu = c as u32 as int;
            lemma_sub_index(s, i, full, 0);
            lemma_sub_index(s, i, full, 1);
            lemma_sub_index(s, i, full, 2);
            lemma_sub_index(s, i, full, 3);
            lemma_sub_index(s, i, full, 4);
            lemma_sub_index(s, i, full, 5);
            assert(s[i] == '\\' && s[i + 1] == 'u' && s[i + 2] == '0' && s[i + 3] == '0');
            assert(s[i + 4] == hex_char(cu / 16) && s[i + 5] == hex_char(cu % 16));
            lemma_hex_char_props(cu / 16);
            lemma_hex_char_props(cu % 16);
            assert(hex_val(s[i + 2]) == 0 && hex_val(s[i + 3]) == 0);
            let code = hex_val(s[i + 2]) * 4096 + hex_val(s[i + 3]) * 256 + hex_val(s[i + 4]) * 16
                + hex_val(s[i + 5]);
            assert(code == (cu / 16) * 16 + cu % 16);
            assert(code == cu) by (nonlinear_arith)
                requires
                    code == (cu / 16) * 16 + cu % 16,
                    0 <= cu < 32,
            ;
            lemma_ascii_char_id(c);
            assert(ascii_char(code) == c);
            assert(parse_esc(s, i + 1) == Some((c, i + 6)));
            assert(parse_str_body(s, i) == Some((t, i + full.len() + 1)));
        } else {
            lemma_sub_index(s, i, full, 0);
            assert(s[i] == c);
            assert(parse_str_body(s, i) == Some((t, i + full.len() + 1)));
        }
    }
}

/// The first character a value's text can start with: never whitespace and
/// never a closing or separating token.
proof fn lemma_json_text_first(j: Json)
    ensures
        json_text(j).len() >= 1,
        !is_ws_char(json_text(j)[0]),
        json_text(j)[0] != ']',
        json_text(j)[0] != '}',
        json_text(j)[0] != ',',
        json_text(j)[0] != ':',
{
    match j {
        Json::Int(n) => {
            if n < 0 {
                assert(json_text(j)[0] == '-');
            } else if n == 0 {
                assert(json_text(j)[0] == '0');
            } else {
                lemma_dec_rec_digits(n);
                assert(is_digit_char(json_text(j)[0]));
            }
        },
        _ => {},
    }
}

/// The text of a well-formed value parses back to exactly that value.
#[verifier::rlimit(80)]
pub proof fn lemma_parse_print(j: Json, s: Seq<char>, i: int)
    requires
        wf_json(j),
        0 <= i,
        i + json_text(j).len() <= s.len(),
        s.subrange(i, i + json_text(j).len()) == json_text(j),
        i + json_text(j).len() == s.len() || !num_cont_char(s[i + json_text(j).len()]),
    ensures
        parse_value(s, i) == Some((j, i + json_text(j).len())),
    decreases j,
{
    let t = json_text(j);
    lemma_json_text_first(j);
    lemma_sub_index(s, i, t, 0);
    lemma_skip_ws_here(s, i);
    assert(skip_ws(s, i) == i);
    match j {
        Json::Null => {
            lemma_sub_index(s, i, t, 1);
            lemma_sub_index(s, i, t, 2);
            lemma_sub_index(s, i, t, 3);
            assert(parse_value(s, i) == Some((j, i + 4)));
        },
        Json::Bool(b) => {
            lemma_sub_index(s, i, t, 1);
            lemma_sub_index(s, i, t, 2);
            lemma_sub_index(s, i, t, 3);
            if !b {
                lemma_sub_index(s, i, t, 4);
            }
            assert(parse_value(s, i) == Some((j, i + t.len())));
        },
        Json::Int(n) => {
            lemma_parse_dec(n, s, i);
            if n < 0 {
                assert(s[i] == '-');
            } else if n == 0 {
                assert(s[i] == '0');
            } else {
                lemma_dec_rec_digits(n);
                assert(is_digit_char(s[i]));
            }
            assert(parse_value(s, i) == Some((j, i + t.len())));
        },
        Json::Text(body) => {
            assert(t == quoted(body));
            assert(s[i] == '"');
            lemma_sub_sub(s, i, t, 1, 1 + esc_str(body).len() as int);
            assert(t.subrange(1, 1 + esc_str(body).len() as int) =~= esc_str(body));
            lemma_sub_index(s, i, t, t.len() - 1);
            assert(s[i + 1 + esc_str(body).len() as int] == '"');
            lemma_parse_esc_str(body, s, i + 1);
            assert(parse_value(s, i) == Some((j, i + t.len())));
        },
        Json::Array(a) => {
            assert(s[i] == '[');
            lemma_sub_index(s, i, t, t.len() - 1);
            assert(s[i + t.len() - 1] == ']');
            if a.len() == 0 {
                assert(arr_text(a).len() == 0);
                assert(a =~= Seq::<Json>::empty());
                assert(t.len() == 2);
                lemma_skip_ws_here(s, i + 1);
                assert(parse_value(s, i) == Some((j, i + 2)));
            } else {
                lemma_sub_sub(s, i, t, 1, 1 + arr_text(a).len() as int);
                assert(t.subrange(1, 1 + arr_text(a).len() as int) =~= arr_text(a));
                lemma_json_text_first(a[0]);
                assert(arr_text(a)[0] == json_text(a[0])[0]);
                lemma_sub_index(s, i, t, 1);
                assert(s[i + 1] == json_text(a[0])[0]);
                lemma_skip_ws_here(s, i + 1);
                assert(skip_ws(s, i + 1) == i + 1);
                lemma_parse_print_elems(a, s, i + 1);
                assert(parse_value(s, i) == Some((j, i + t.len())));
            }
        },
        Json::Object(m) => {
            assert(s[i] == '{');
            lemma_sub_index(s, i, t, t.len() - 1);
            assert(s[i + t.len() - 1] == '}');
            if m.len() == 0 {
                assert(obj_text(m).len() == 0);
                assert(m =~= Seq::<(Seq<char>, Json)>::empty());
                assert(t.len() == 2);
                lemma_skip_ws_here(s, i + 1);
                assert(parse_value(s, i) == Some((j, i + 2)));
            } else {
                lemma_sub_sub(s, i, t, 1, 1 + obj_text(m).len() as int);
                assert(t.subrange(1, 1 + obj_text(m).len() as int) =~= obj_text(m));
                assert(obj_text(m)[0] == '"');
                lemma_sub_index(s, i, t, 1);
                assert(s[i + 1] == '"');
                lemma_skip_ws_here(s, i + 1);
                lemma_parse_print_members(m, s, i + 1);
                assert(parse_value(s, i) == Some((j, i + t.len())));
            }
        },
    }
}

proof fn lemma_parse_print_elems(a: Seq<Json>, s: Seq<char>, i: int)
    requires
        a.len() >= 1,
        forall|k: int| 0 <= k < a.len() ==> wf_json(#[trigger] a[k]),
        0 <= i,
        i + arr_text(a).len() + 1 <= s.len(),
        s.subrange(i, i + arr_text(a).len()) == arr_text(a),
        s[i + arr_text(a).len()] == ']',
    ensures
        parse_elems(s, i) == Some((a, i + arr_text(a).len() + 1)),
    decreases a,
{
    let t0 = json_text(a[0]);
    let l0 = t0.len() as int;
    lemma_json_text_first(a[0]);
    if a.len() == 1 {
        assert(arr_text(a) == t0);
        lemma_parse_print(a[0], s, i);
        lemma_skip_ws_here(s, i + l0);
        assert(skip_ws(s, i + l0) == i + l0);
        assert(parse_elems(s, i) == Some((seq![a[0]], i + l0 + 1)));
        assert(seq![a[0]] =~= a);
    } else {
        let rest = a.drop_first();
        assert(arr_text(a) == t0 + seq![','] + arr_text(rest));
        lemma_sub_sub(s, i, arr_text(a), 0, l0);
        assert(arr_text(a).subrange(0, l0) =~= t0);
        lemma_sub_index(s, i, arr_text(a), l0);
        assert(s[i + l0] == ',');
        lemma_parse_print(a[0], s, i);
        lemma_skip_ws_here(s, i + l0);
        lemma_sub_sub(s, i, arr_text(a), l0 + 1, arr_text(a).len() as int);
        assert(arr_text(a).subrange(l0 + 1, arr_text(a).len() as int) =~= arr_text(rest));
        lemma_parse_print_elems(rest, s, i + l0 + 1);
        assert(parse_elems(s, i + l0 + 1) == Some((rest, i + arr_text(a).len() + 1)));
        assert(parse_elems(s, i) == Some((seq![a[0]] + rest, i + arr_text(a).len() + 1)));
        assert(seq![a[0]] + rest =~= a);
    }
}

proof fn lemma_parse_print_members(m: Seq<(Seq<char>, Json)>, s: Seq<char>, i: int)
    requires
        m.len() >= 1,
        forall|k: int| 0 <= k < m.len() ==> wf_json(#[trigger] m[k].1),
        0 <= i,
        i + obj_text(m).len() + 1 <= s.len(),
        s.subrange(i, i + obj_text(m).len()) == obj_text(m),
        s[i + obj_text(m).len()] == '}',
    ensures
        parse_members(s, i) == Some((m, i + obj_text(m).len() + 1)),
    decreases m,
{
    let key = m[0].0;
    let v = m[0].1;
    let kq = quoted(key);
    let lk = kq.len() as int;
    let tv = json_text(v);
    let lv = tv.len() as int;
    let full = obj_text(m);
    lemma_json_text_first(v);
    // the key string literal
    lemma_sub_index(s, i, full, 0);
    assert(full[0] == '"');
    assert(s[i] == '"');
    lemma_skip_ws_here(s, i);
    lemma_sub_sub(s, i, full, 1, 1 + esc_str(key).len() as int);
    assert(full.subrange(1, 1 + esc_str(key).len() as int) =~= esc_str(key));
    lemma_sub_index(s, i, full, lk - 1);
    assert(full[lk - 1] == '"');
    lemma_parse_esc_str(key, s, i + 1);
    assert(parse_str_body(s, i + 1) == Some((key, i + lk)));
    // the colon
    lemma_sub_index(s, i, full, lk);
    assert(full[lk] == ':');
    assert(s[i + lk] == ':');
    lemma_skip_ws_here(s, i + lk);
    // the value
    lemma_sub_sub(s, i, full, lk + 1, lk + 1 + lv);
    assert(full.subrange(lk + 1, lk + 1 + lv) =~= tv);
    if m.len() == 1 {
        assert(full == kq + seq![':'] + tv);
        lemma_parse_print(v, s, i + lk + 1);
        lemma_skip_ws_here(s, i + lk + 1 + lv);
        assert(s[i + lk + 1 + lv] == '}');
        assert(parse_members(s, i) == Some((seq![(key, v)], i + full.len() + 1)));
        assert(seq![(key, v)] =~= m);
    } else {
        let rest = m.drop_first();
        assert(full == kq + seq![':'] + tv + seq![','] + obj_text(rest));
        lemma_sub_index(s, i, full, lk + 1 + lv);
        assert(full[lk + 1 + lv] == ',');
        assert(s[i + lk + 1 + lv] == ',');
        lemma_parse_print(v, s, i + lk + 1);
        lemma_skip_ws_here(s, i + lk + 1 + lv);
        lemma_sub_sub(s, i, full, lk + 1 + lv + 1, full.len() as int);
        assert(full.subrange(lk + 1 + lv + 1, full.len() as int) =~= obj_text(rest));
        lemma_parse_print_members(rest, s, i + lk + 1 + lv + 1);
        assert(parse_members(s, i) == Some((seq![(key, v)] + rest, i + full.len() + 1)));
        assert(seq![(key, v)] + rest =~= m);
    }
}

/// The codec round trip at the level of texts: the text of any well-formed
/// value parses back to exactly that value.
pub proof fn lemma_json_round_trip(j: Json)
    requires
        wf_json(j),
    ensures
        parse_json_spec(json_text(j)) == Some(j),
{
    let s = json_text(j);
    assert(s.subrange(0, s.len() as int) =~= s);
    lemma_parse_print(j, s, 0);
    lemma_skip_ws_here(s, s.len() as int);
}

} // verus!
