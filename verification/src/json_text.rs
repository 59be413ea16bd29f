//! Serialization of JSON values to text: the mathematical definition of the
//! emitted text and a verified writer that produces exactly that text.

use vstd::prelude::*;
use vstd::std_specs::iter::IteratorSpec;

use crate::json_value::{
    Json, JsonValue, lemma_view_members_index, lemma_view_members_len, lemma_view_seq_index,
    lemma_view_seq_len, view_members, view_seq,
};

verus! {

/// JSON whitespace.
pub open spec fn is_ws_char(c: char) -> bool {
    c == ' ' || c == '\t' || c == '\n' || c == '\r'
}

/// A decimal digit.
pub open spec fn is_digit_char(c: char) -> bool {
    '0' as u32 <= c as u32 <= '9' as u32
}

/// The numeric value of a decimal digit.
pub open spec fn digit_val(c: char) -> int {
    c as u32 - '0' as u32
}

/// The decimal digit for a value in 0..10.
pub open spec fn digit_char(d: int) -> char {
    if d == 0 { '0' }
    else if d == 1 { '1' }
    else if d == 2 { '2' }
    else if d == 3 { '3' }
    else if d == 4 { '4' }
    else if d == 5 { '5' }
    else if d == 6 { '6' }
    else if d == 7 { '7' }
    else if d == 8 { '8' }
    else { '9' }
}

/// The lower-case hexadecimal digit for a value in 0..16.
pub open spec fn hex_char(d: int) -> char {
    if d < 10 { digit_char(d) }
    else if d == 10 { 'a' }
    else if d == 11 { 'b' }
    else if d == 12 { 'c' }
    else if d == 13 { 'd' }
    else if d == 14 { 'e' }
    else { 'f' }
}

/// The digits of a positive integer, most significant first; empty for 0.
pub open spec fn dec_rec(n: int) -> Seq<char>
    decreases n,
{
    if n <= 0 {
        Seq::empty()
    } else {
        dec_rec(n / 10).push(digit_char(n % 10))
    }
}

/// The decimal text of a non-negative integer.
pub open spec fn dec_nat(n: int) -> Seq<char> {
    if n == 0 {
        seq!['0']
    } else {
        dec_rec(n)
    }
}

/// The decimal text of an integer, with a leading minus sign when negative.
pub open spec fn dec_int(n: int) -> Seq<char> {
    if n < 0 {
        seq!['-'] + dec_nat(-n)
    } else {
        dec_nat(n)
    }
}

/// How one character is written inside a JSON string literal: quotes and
/// backslashes get a backslash escape, control characters a `\u00XX` escape,
/// and every other character stands for itself.
pub open spec fn esc_char(c: char) -> Seq<char> {
    if c == '"' {
        seq!['\\', '"']
    } else if c == '\\' {
        seq!['\\', '\\']
    } else if (c as u32) < 32 {
        seq!['\\', 'u', '0', '0', hex_char((c as u32) as int / 16), hex_char((c as u32) as int % 16)]
    } else {
        seq![c]
    }
}

/// The escaped body of a JSON string literal.
pub open spec fn esc_str(s: Seq<char>) -> Seq<char>
    decreases s.len(),
{
    if s.len() == 0 {
        Seq::empty()
    } else {
        esc_char(s[0]) + esc_str(s.drop_first())
    }
}

/// A JSON string literal: the escaped body between double quotes.
pub open spec fn quoted(s: Seq<char>) -> Seq<char> {
    seq!['"'] + esc_str(s) + seq!['"']
}

/// The text of an array body: the elements' texts separated by commas.
pub open spec fn arr_text(a: Seq<Json>) -> Seq<char>
    decreases a,
{
    if a.len() == 0 {
        Seq::empty()
    } else if a.len() == 1 {
        json_text(a[0])
    } else {
        json_text(a[0]) + seq![','] + arr_text(a.drop_first())
    }
}

/// The text of an object body: `"key":value` members separated by commas.
pub open spec fn obj_text(m: Seq<(Seq<char>, Json)>) -> Seq<char>
    decreases m,
{
    if m.len() == 0 {
        Seq::empty()
    } else if m.len() == 1 {
        quoted(m[0].0) + seq![':'] + json_text(m[0].1)
    } else {
        quoted(m[0].0) + seq![':'] + json_text(m[0].1) + seq![','] + obj_text(m.drop_first())
    }
}

/// The compact text of a JSON value: no whitespace, object members in order.
pub open spec fn json_text(j: Json) -> Seq<char>
    decreases j,
{
    match j {
        Json::Null => seq!['n', 'u', 'l', 'l'],
        Json::Bool(b) => if b {
            seq!['t', 'r', 'u', 'e']
        } else {
            seq!['f', 'a', 'l', 's', 'e']
        },
        Json::Int(n) => dec_int(n),
        Json::Text(s) => quoted(s),
        Json::Array(a) => seq!['['] + arr_text(a) + seq![']'],
        Json::Object(m) => seq!['{'] + obj_text(m) + seq!['}'],
    }
}

/// The largest number magnitude the parser accepts: anything below fits in 38
/// decimal digits, so parsing can never overflow an `i128`.
pub open spec fn json_int_bound() -> int {
    100000000000000000000000000000000000000
}

/// A value is well formed when every number it holds is small enough for its
/// text to be read back.
pub open spec fn wf_json(j: Json) -> bool
    decreases j,
{
    match j {
        Json::Int(n) => -json_int_bound() < n < json_int_bound(),
        Json::Array(a) => forall|i: int| 0 <= i < a.len() ==> wf_json(#[trigger] a[i]),
        Json::Object(m) => forall|i: int| 0 <= i < m.len() ==> wf_json(#[trigger] m[i].1),
        _ => true,
    }
}

/// The characters of a string slice, in order, gathered by walking its
/// character iterator.
pub fn chars_of(s: &str) -> (r: Vec<char>)
    ensures
        r@ == s@,
{
    broadcast use vstd::string::next_postcondition;
    broadcast use vstd::string::axiom_spec_iter;

    let mut it = s.chars();
    let mut out: Vec<char> = Vec::new();
    assert(it.remaining() == s@);
    loop
        invariant
            it.obeys_prophetic_iter_laws(),
            it.decrease() is Some,
            out@ + it.remaining() == s@,
        decreases it.decrease()->0,
    {
        let ghost pre = out@;
        match it.next() {
            None => {
                proof {
                    assert(out@ + it.remaining() =~= out@);
                }
                return out;
            },
            Some(c) => {
                out.push(c);
                proof {
                    assert(out@ + it.remaining() =~= pre + (seq![c] + it.remaining()));
                }
            },
        }
    }
}

/// Relies on `String`'s `FromIterator<char>`: collecting characters builds the
/// string of exactly those characters, in order.
#[verifier::external_body]
pub fn string_of_chars(v: &Vec<char>) -> (r: String)
    ensures
        r@ == v@,
{
    v.iter().collect()
}

/// The decimal digit for `d`.
pub fn digit_char_exec(d: u128) -> (c: char)
    requires
        d < 10,
    ensures
        c == digit_char(d as int),
{
    match d {
        0 => '0',
        1 => '1',
        2 => '2',
        3 => '3',
        4 => '4',
        5 => '5',
        6 => '6',
        7 => '7',
        8 => '8',
        _ => '9',
    }
}

/// The lower-case hexadecimal digit for `d`.
pub fn hex_char_exec(d: u32) -> (c: char)
    requires
        d < 16,
    ensures
        c == hex_char(d as int),
{
    match d {
        0 => '0',
        1 => '1',
        2 => '2',
        3 => '3',
        4 => '4',
        5 => '5',
        6 => '6',
        7 => '7',
        8 => '8',
        9 => '9',
        10 => 'a',
        11 => 'b',
        12 => 'c',
        13 => 'd',
        14 => 'e',
        _ => 'f',
    }
}

/// Appends the decimal digits of `n` to `out`.
pub fn push_dec_u128(out: &mut Vec<char>, n: u128)
    ensures
        final(out)@ == old(out)@ + dec_nat(n as int),
{
    if n == 0 {
        out.push('0');
        assert(out@ =~= old(out)@ + dec_nat(n as int));
        return ;
    }
    let mut rev: Vec<char> = Vec::new();
    let mut m: u128 = n;
    while m > 0
        invariant
            dec_rec(n as int) == dec_rec(m as int) + rev@.reverse(),
        decreases m,
    {
        let ghost pre = rev@;
        let d: u128 = m % 10;
        rev.push(digit_char_exec(d));
        proof {
            assert(rev@.reverse() =~= seq![digit_char(d as int)] + pre.reverse());
            assert(dec_rec(m as int) == dec_rec(m as int / 10).push(digit_char(m as int % 10)));
            assert(dec_rec(m as int / 10) + rev@.reverse() =~= dec_rec(m as int) + pre.reverse());
        }
        m = m / 10;
    }
    assert(dec_rec(n as int) =~= rev@.reverse());
    let ghost start = out@;
    let mut k: usize = 0;
    while k < rev.len()
        invariant
            k <= rev.len(),
            out@ == start + rev@.reverse().take(k as int),
        decreases rev.len() - k,
    {
        let c = rev[rev.len() - 1 - k];
        out.push(c);
        proof {
            assert(out@ =~= start + rev@.reverse().take(k as int + 1));
        }
        k = k + 1;
    }
    assert(out@ =~= start + dec_nat(n as int));
}

/// Appends the decimal text of `n`, sign included, to `out`.
pub fn push_dec_i128(out: &mut Vec<char>, n: i128)
    ensures
        final(out)@ == old(out)@ + dec_int(n as int),
{
    if n < 0 {
        out.push('-');
        let m: u128 = if n == i128::MIN {
            170141183460469231731687303715884105728u128
        } else {
            (-n) as u128
        };
        assert(m as int == -(n as int));
        let ghost mid = out@;
        push_dec_u128(out, m);
        assert(out@ =~= old(out)@ + dec_int(n as int));
    } else {
        push_dec_u128(out, n as u128);
        assert(out@ =~= old(out)@ + dec_int(n as int));
    }
}

proof fn lemma_esc_str_push(s: Seq<char>, c: char)
    ensures
        esc_str(s.push(c)) == esc_str(s) + esc_char(c),
    decreases s.len(),
{
    reveal_with_fuel(esc_str, 3);
    if s.len() == 0 {
        assert(s.push(c)[0] == c);
        assert(s.push(c).drop_first() =~= Seq::<char>::empty());
        assert(esc_str(s.push(c)) =~= esc_str(s) + esc_char(c));
    } else {
        let t = s.push(c);
        assert(t.len() == s.len() + 1);
        assert(t[0] == s[0]);
        assert(t.drop_first() =~= s.drop_first().push(c));
        lemma_esc_str_push(s.drop_first(), c);
        assert(esc_str(t) == esc_char(t[0]) + esc_str(t.drop_first()));
        assert(esc_str(s) == esc_char(s[0]) + esc_str(s.drop_first()));
        assert(esc_str(s.push(c)) =~= esc_str(s) + esc_char(c));
    }
}

/// Appends the escaped body of a string literal for `s` to `out`.
pub fn push_escaped(out: &mut Vec<char>, s: &str)
    ensures
        final(out)@ == old(out)@ + esc_str(s@),
{
    let cs = chars_of(s);
    let ghost start = out@;
    let mut i: usize = 0;
    while i < cs.len()
        invariant
            i <= cs.len(),
            cs@ == s@,
            out@ == start + esc_str(s@.take(i as int)),
        decreases cs.len() - i,
    {
        let c = cs[i];
        let cu: u32 = c as u32;
        if c == '"' {
            out.push('\\');
            out.push('"');
        } else if c == '\\' {
            out.push('\\');
            out.push('\\');
        } else if cu < 32 {
            out.push('\\');
            out.push('u');
            out.push('0');
            out.push('0');
            out.push(hex_char_exec(cu / 16));
            out.push(hex_char_exec(cu % 16));
        } else {
            out.push(c);
        }
        proof {
            assert(s@.take(i as int + 1) =~= s@.take(i as int).push(s@[i as int]));
            lemma_esc_str_push(s@.take(i as int), s@[i as int]);
            assert(out@ =~= start + esc_str(s@.take(i as int + 1)));
        }
        i = i + 1;
    }
    assert(s@.take(cs.len() as int) =~= s@);
}

proof fn lemma_arr_text_push(a: Seq<Json>, x: Json)
    requires
        a.len() >= 1,
    ensures
        arr_text(a.push(x)) == arr_text(a) + seq![','] + json_text(x),
    decreases a.len(),
{
    if a.len() == 1 {
        assert(a.push(x).drop_first() =~= seq![x]);
        assert(arr_text(seq![x]) == json_text(x));
        assert(arr_text(a.push(x)) =~= arr_text(a) + seq![','] + json_text(x));
    } else {
        assert(a.push(x).drop_first() =~= a.drop_first().push(x));
        lemma_arr_text_push(a.drop_first(), x);
        assert(arr_text(a.push(x)) =~= arr_text(a) + seq![','] + json_text(x));
    }
}

proof fn lemma_obj_text_push(m: Seq<(Seq<char>, Json)>, k: Seq<char>, v: Json)
    requires
        m.len() >= 1,
    ensures
        obj_text(m.push((k, v))) == obj_text(m) + seq![','] + quoted(k) + seq![':'] + json_text(v),
    decreases m.len(),
{
    if m.len() == 1 {
        let t = m.push((k, v));
        assert(t.len() == 2);
        assert(t[0] == m[0]);
        assert(t.drop_first() =~= seq![(k, v)]);
        assert(seq![(k, v)].len() == 1 && seq![(k, v)][0] == (k, v));
        assert(obj_text(seq![(k, v)]) == quoted(k) + seq![':'] + json_text(v));
        assert(obj_text(t) == quoted(t[0].0) + seq![':'] + json_text(t[0].1) + seq![',']
            + obj_text(t.drop_first()));
        assert(obj_text(m.push((k, v))) =~= obj_text(m) + seq![','] + quoted(k) + seq![':']
            + json_text(v));
    } else {
        assert(m.push((k, v))[0] == m[0]);
        assert(m.push((k, v)).drop_first() =~= m.drop_first().push((k, v)));
        lemma_obj_text_push(m.drop_first(), k, v);
        assert(obj_text(m.push((k, v))) =~= obj_text(m) + seq![','] + quoted(k) + seq![':']
            + json_text(v));
    }
}

/// Appends the compact JSON text of `v` to `out`.
pub fn write_json(v: &JsonValue, out: &mut Vec<char>)
    ensures
        final(out)@ == old(out)@ + json_text(v@),
    decreases v,
{
    match v {
        JsonValue::Null => {
            out.push('n');
            out.push('u');
            out.push('l');
            out.push('l');
            assert(out@ =~= old(out)@ + json_text(v@));
        },
        JsonValue::Bool(b) => {
            if *b {
                out.push('t');
                out.push('r');
                out.push('u');
                out.push('e');
            } else {
                out.push('f');
                out.push('a');
                out.push('l');
                out.push('s');
                out.push('e');
            }
            assert(out@ =~= old(out)@ + json_text(v@));
        },
        JsonValue::Int(n) => {
            push_dec_i128(out, *n);
        },
        JsonValue::Text(s) => {
            out.push('"');
            push_escaped(out, s.as_str());
            out.push('"');
            assert(out@ =~= old(out)@ + quoted(s@));
        },
        JsonValue::Array(a) => {
            out.push('[');
            let ghost start = out@;
            let mut i: usize = 0;
            while i < a.len()
                invariant
                    i <= a.len(),
                    v == JsonValue::Array(*a),
                    out@ == start + arr_text(view_seq(a@).take(i as int)),
                decreases a.len() - i,
            {
                proof {
                    lemma_view_seq_index(a@, i as int);
                    assert(decreases_to!(*v => v->Array_0));
                    assert(decreases_to!(v->Array_0 => v->Array_0@));
                    assert(decreases_to!(v->Array_0@ => v->Array_0@[i as int]));
                    assert(decreases_to!(*v => a@[i as int]));
                }
                if i > 0 {
                    out.push(',');
                    let ghost mid = out@;
                    write_json(&a[i], out);
                    proof {
                        assert(view_seq(a@).take(i as int + 1) =~= view_seq(a@).take(
                            i as int,
                        ).push(a@[i as int]@));
                        lemma_arr_text_push(view_seq(a@).take(i as int), a@[i as int]@);
                        assert(out@ =~= start + arr_text(view_seq(a@).take(i as int + 1)));
                    }
                } else {
                    write_json(&a[i], out);
                    proof {
                        assert(view_seq(a@).take(1) =~= seq![a@[0]@]);
                        assert(arr_text(seq![a@[0]@]) == json_text(a@[0]@));
                        assert(out@ =~= start + arr_text(view_seq(a@).take(i as int + 1)));
                    }
                }
                i = i + 1;
            }
            out.push(']');
            proof {
                lemma_view_seq_len(a@);
                assert(view_seq(a@).take(a@.len() as int) =~= view_seq(a@));
                assert(out@ =~= old(out)@ + json_text(v@));
            }
        },
        JsonValue::Object(m) => {
            out.push('{');
            let ghost start = out@;
            let mut i: usize = 0;
            while i < m.len()
                invariant
                    i <= m.len(),
                    v == JsonValue::Object(*m),
                    out@ == start + obj_text(view_members(m@).take(i as int)),
                decreases m.len() - i,
            {
                proof {
                    lemma_view_members_index(m@, i as int);
                    assert(decreases_to!(*v => v->Object_0));
                    assert(decreases_to!(v->Object_0 => v->Object_0@));
                    assert(decreases_to!(v->Object_0@ => v->Object_0@[i as int]));
                    assert(decreases_to!(m@[i as int] => m@[i as int].1));
                    assert(decreases_to!(*v => m@[i as int].1));
                }
                if i > 0 {
                    out.push(',');
                }
                out.push('"');
                push_escaped(out, m[i].0.as_str());
                out.push('"');
                out.push(':');
                write_json(&m[i].1, out);
                proof {
                    let ms = view_members(m@);
                    assert(ms.take(i as int + 1) =~= ms.take(i as int).push(
                        (m@[i as int].0@, m@[i as int].1@),
                    ));
                    if i > 0 {
                        lemma_obj_text_push(ms.take(i as int), m@[i as int].0@, m@[i as int].1@);
                    } else {
                        assert(ms.take(1) =~= seq![(m@[0].0@, m@[0].1@)]);
                    }
                    assert(out@ =~= start + obj_text(ms.take(i as int + 1)));
                }
                i = i + 1;
            }
            out.push('}');
            proof {
                lemma_view_members_len(m@);
                assert(view_members(m@).take(m@.len() as int) =~= view_members(m@));
                assert(out@ =~= old(out)@ + json_text(v@));
            }
        },
    }
}

/// The compact JSON text of `v`, as a string.
pub fn json_to_text(v: &JsonValue) -> (r: String)
    ensures
        r@ == json_text(v@),
{
    let mut out: Vec<char> = Vec::new();
    write_json(v, &mut out);
    string_of_chars(&out)
}

} // verus!
