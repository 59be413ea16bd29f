//! The JSON value model: an executable tree of JSON values holding integer
//! numbers, and its mathematical view.

use vstd::prelude::*;

verus! {

/// Mathematical model of a JSON value. Strings are sequences of characters,
/// numbers are unbounded integers, and an object is the sequence of its
/// members in order of appearance.
pub enum Json {
    Null,
    Bool(bool),
    Int(int),
    Text(Seq<char>),
    Array(Seq<Json>),
    Object(Seq<(Seq<char>, Json)>),
}

/// An executable JSON value. Numbers are restricted to integers that fit in
/// `i128`; fractional and oversized numbers are not representable and are
/// rejected by the parser.
#[derive(Debug, PartialEq, Eq)]
pub enum JsonValue {
    Null,
    Bool(bool),
    Int(i128),
    Text(String),
    Array(Vec<JsonValue>),
    Object(Vec<(String, JsonValue)>),
}

/// The view of a sequence of executable JSON values.
pub open spec fn view_seq(s: Seq<JsonValue>) -> Seq<Json>
    decreases s,
{
    if s.len() == 0 {
        Seq::empty()
    } else {
        view_seq(s.drop_last()).push(s.last()@)
    }
}

/// The view of a sequence of executable JSON object members.
pub open spec fn view_members(s: Seq<(String, JsonValue)>) -> Seq<(Seq<char>, Json)>
    decreases s,
{
    if s.len() == 0 {
        Seq::empty()
    } else {
        view_members(s.drop_last()).push((s.last().0@, s.last().1@))
    }
}

impl View for JsonValue {
    type V = Json;

    open spec fn view(&self) -> Json
        decreases self,
    {
        match self {
            JsonValue::Null => Json::Null,
            JsonValue::Bool(b) => Json::Bool(*b),
            JsonValue::Int(n) => Json::Int(*n as int),
            JsonValue::Text(s) => Json::Text(s@),
            JsonValue::Array(a) => Json::Array(view_seq(a@)),
            JsonValue::Object(m) => Json::Object(view_members(m@)),
        }
    }
}

pub proof fn lemma_view_seq_len(s: Seq<JsonValue>)
    ensures
        view_seq(s).len() == s.len(),
    decreases s,
{
    if s.len() > 0 {
        lemma_view_seq_len(s.drop_last());
        assert(view_seq(s) == view_seq(s.drop_last()).push(s.last()@));
    } else {
        assert(view_seq(s) == Seq::<Json>::empty());
    }
}

pub proof fn lemma_view_seq_index(s: Seq<JsonValue>, i: int)
    requires
        0 <= i < s.len(),
    ensures
        view_seq(s).len() == s.len(),
        view_seq(s)[i] == s[i]@,
    decreases s,
{
    lemma_view_seq_len(s);
    assert(view_seq(s) == view_seq(s.drop_last()).push(s.last()@));
    if i < s.len() - 1 {
        lemma_view_seq_index(s.drop_last(), i);
    }
}

pub proof fn lemma_view_members_len(s: Seq<(String, JsonValue)>)
    ensures
        view_members(s).len() == s.len(),
    decreases s,
{
    if s.len() > 0 {
        lemma_view_members_len(s.drop_last());
        assert(view_members(s) == view_members(s.drop_last()).push((s.last().0@, s.last().1@)));
    } else {
        assert(view_members(s) == Seq::<(Seq<char>, Json)>::empty());
    }
}

pub proof fn lemma_view_members_index(s: Seq<(String, JsonValue)>, i: int)
    requires
        0 <= i < s.len(),
    ensures
        view_members(s).len() == s.len(),
        view_members(s)[i] == (s[i].0@, s[i].1@),
    decreases s,
{
    lemma_view_members_len(s);
    assert(view_members(s) == view_members(s.drop_last()).push((s.last().0@, s.last().1@)));
    if i < s.len() - 1 {
        lemma_view_members_index(s.drop_last(), i);
    }
}

pub proof fn lemma_view_seq_push(t: Seq<JsonValue>, x: JsonValue)
    ensures
        view_seq(t.push(x)) == view_seq(t).push(x@),
{
    assert(t.push(x).drop_last() =~= t);
    assert(t.push(x).last() == x);
}

pub proof fn lemma_view_members_push(t: Seq<(String, JsonValue)>, k: String, v: JsonValue)
    ensures
        view_members(t.push((k, v))) == view_members(t).push((k@, v@)),
{
    assert(t.push((k, v)).drop_last() =~= t);
    assert(t.push((k, v)).last() == (k, v));
}

/// A copy of a JSON value, equal to the original in the model.
pub fn clone_json(v: &JsonValue) -> (r: JsonValue)
    ensures
        r@ == v@,
    decreases v,
{
    match v {
        JsonValue::Null => JsonValue::Null,
        JsonValue::Bool(b) => JsonValue::Bool(*b),
        JsonValue::Int(n) => JsonValue::Int(*n),
        JsonValue::Text(s) => JsonValue::Text(s.clone()),
        JsonValue::Array(a) => {
            let mut out: Vec<JsonValue> = Vec::new();
            let mut i: usize = 0;
            while i < a.len()
                invariant
                    i <= a@.len(),
                    v == JsonValue::Array(*a),
                    view_seq(out@) == view_seq(a@.take(i as int)),
                decreases a@.len() - i,
            {
                proof {
                    lemma_view_seq_index(a@, i as int);
                    assert(decreases_to!(*v => v->Array_0));
                    assert(decreases_to!(v->Array_0 => v->Array_0@));
                    assert(decreases_to!(v->Array_0@ => v->Array_0@[i as int]));
                    assert(decreases_to!(*v => a@[i as int]));
                }
                let c = clone_json(&a[i]);
                let ghost pre = out@;
                out.push(c);
                proof {
                    assert(out@ =~= pre.push(c));
                    lemma_view_seq_push(pre, c);
                    assert(a@.take(i as int + 1) =~= a@.take(i as int).push(a@[i as int]));
                    lemma_view_seq_push(a@.take(i as int), a@[i as int]);
                }
                i = i + 1;
            }
            proof {
                assert(a@.take(a@.len() as int) =~= a@);
            }
            JsonValue::Array(out)
        },
        JsonValue::Object(m) => {
            let mut out: Vec<(String, JsonValue)> = Vec::new();
            let mut i: usize = 0;
            while i < m.len()
                invariant
                    i <= m@.len(),
                    v == JsonValue::Object(*m),
                    view_members(out@) == view_members(m@.take(i as int)),
                decreases m@.len() - i,
            {
                proof {
                    lemma_view_members_index(m@, i as int);
                    assert(decreases_to!(*v => v->Object_0));
                    assert(decreases_to!(v->Object_0 => v->Object_0@));
                    assert(decreases_to!(v->Object_0@ => v->Object_0@[i as int]));
                    assert(decreases_to!(m@[i as int] => m@[i as int].1));
                    assert(decreases_to!(*v => m@[i as int].1));
                }
                let ck = m[i].0.clone();
                let cv = clone_json(&m[i].1);
                let ghost pre = out@;
                out.push((ck, cv));
                proof {
                    assert(out@ =~= pre.push((ck, cv)));
                    lemma_view_members_push(pre, ck, cv);
                    assert(m@.take(i as int + 1) =~= m@.take(i as int).push(m@[i as int]));
                    lemma_view_members_push(
                        m@.take(i as int),
                        m@[i as int].0,
                        m@[i as int].1,
                    );
                }
                i = i + 1;
            }
            proof {
                assert(m@.take(m@.len() as int) =~= m@);
            }
            JsonValue::Object(out)
        },
    }
}

impl Clone for JsonValue {
    /// A copy of this value, equal to the original in the model.
    fn clone(&self) -> (r: Self)
        ensures
            r@ == self@,
    {
        clone_json(self)
    }
}

pub proof fn lemma_view_seq_cons(x: JsonValue, t: Seq<JsonValue>)
    ensures
        view_seq(seq![x] + t) == seq![x@] + view_seq(t),
{
    let u = seq![x] + t;
    lemma_view_seq_len(u);
    lemma_view_seq_len(t);
    assert forall|i: int| 0 <= i < u.len() implies view_seq(u)[i] == (seq![x@] + view_seq(t))[i] by {
        lemma_view_seq_index(u, i);
        if i > 0 {
            lemma_view_seq_index(t, i - 1);
        }
    }
    assert(view_seq(seq![x] + t) =~= seq![x@] + view_seq(t));
}

pub proof fn lemma_view_members_cons(k: String, v: JsonValue, t: Seq<(String, JsonValue)>)
    ensures
        view_members(seq![(k, v)] + t) == seq![(k@, v@)] + view_members(t),
{
    let u = seq![(k, v)] + t;
    lemma_view_members_len(u);
    lemma_view_members_len(t);
    assert forall|i: int| 0 <= i < u.len() implies view_members(u)[i] == (seq![(k@, v@)]
        + view_members(t))[i] by {
        lemma_view_members_index(u, i);
        if i > 0 {
            lemma_view_members_index(t, i - 1);
        }
    }
    assert(view_members(seq![(k, v)] + t) =~= seq![(k@, v@)] + view_members(t));
}

} // verus!
