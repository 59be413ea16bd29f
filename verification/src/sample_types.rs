//! Sample typed parameters, as handler code would define them: a point with
//! two integer fields and its JSON form.

use vstd::prelude::*;

use crate::json_value::{view_members, Json, JsonValue};
use crate::jsonrpc_common::{obj_get, obj_lookup};
use crate::method_types::{FromJson, ToJson};

verus! {

/// A sample parameter type: a point on the plane.
#[derive(Debug, Clone, PartialEq, Eq, Structural)]
pub struct Point {
    pub x: i32,
    pub y: i32,
}

/// A sample parameter value.
pub fn new_sample_params(x: i32, y: i32) -> (r: Point)
    ensures
        r == (Point { x, y }),
{
    Point { x, y }
}

/// The fields of a `Point`, as its JSON form names them.
pub enum PointField {
    X,
    Y,
}

impl PointField {
    /// Reads a field name.
    pub fn from_name(name: &String) -> (r: Result<PointField, String>)
        ensures
            match r {
                Ok(f) => (f is X && name@ == "x"@) || (f is Y && name@ == "y"@),
                Err(m) => name@ != "x"@ && name@ != "y"@ && m@ == "expected x or y"@,
            },
    {
        if *name == "x".to_owned() {
            Ok(PointField::X)
        } else if *name == "y".to_owned() {
            Ok(PointField::Y)
        } else {
            Err("expected x or y".to_owned())
        }
    }
}

impl View for Point {
    type V = Point;

    open spec fn view(&self) -> Point {
        *self
    }
}

impl ToJson for Point {
    open spec fn json_of(v: Point) -> Json {
        Json::Object(seq![("x"@, Json::Int(v.x as int)), ("y"@, Json::Int(v.y as int))])
    }

    fn to_json(&self) -> (r: JsonValue) {
        let mut m: Vec<(String, JsonValue)> = Vec::new();
        m.push(("x".to_owned(), JsonValue::Int(self.x as i128)));
        m.push(("y".to_owned(), JsonValue::Int(self.y as i128)));
        proof {
            let ms = m@;
            crate::json_value::lemma_view_members_len(ms);
            assert forall|k: int| 0 <= k < ms.len() implies view_members(ms)[k] == (
            ms[k].0@,
            ms[k].1@,
            ) by {
                crate::json_value::lemma_view_members_index(ms, k);
            }
            assert(view_members(ms) =~= Self::json_of(self@)->Object_0);
        }
        JsonValue::Object(m)
    }
}

impl FromJson for Point {
    /// A point is an object whose every key names a point field; the values
    /// last bound to `x` and `y` are taken, and any other key makes the
    /// whole decode fail.
    open spec fn of_json(j: Json) -> Option<Point> {
        match j {
            Json::Object(m) => if forall|k: int|
                0 <= k < m.len() ==> ((#[trigger] m[k]).0 == "x"@ || m[k].0 == "y"@) {
                match (obj_lookup(m, "x"@), obj_lookup(m, "y"@)) {
                    (Some(Json::Int(x)), Some(Json::Int(y))) => if i32::MIN <= x <= i32::MAX
                        && i32::MIN <= y <= i32::MAX {
                        Some(Point { x: x as i32, y: y as i32 })
                    } else {
                        None
                    },
                    _ => None,
                }
            } else {
                None
            },
            _ => None,
        }
    }

    fn from_json(v: &JsonValue) -> (r: Result<Point, String>) {
        let m = match v {
            JsonValue::Object(m) => m,
            _ => {
                return Err("invalid type: expected a point".to_owned());
            },
        };
        let ghost ms = view_members(m@);
        let mut i: usize = 0;
        while i < m.len()
            invariant
                i <= m@.len(),
                ms == view_members(m@),
                v@ == Json::Object(ms),
                forall|k: int| 0 <= k < i ==> ((#[trigger] ms[k]).0 == "x"@ || ms[k].0 == "y"@),
            decreases m@.len() - i,
        {
            proof {
                crate::json_value::lemma_view_members_index(m@, i as int);
            }
            match PointField::from_name(&m[i].0) {
                Ok(_) => {},
                Err(e) => {
                    proof {
                        crate::json_value::lemma_view_members_len(m@);
                        assert(ms[i as int].0 == m@[i as int].0@);
                        assert(!((ms[i as int]).0 == "x"@ || ms[i as int].0 == "y"@));
                        assert(!(forall|k: int|
                            0 <= k < ms.len() ==> ((#[trigger] ms[k]).0 == "x"@ || ms[k].0
                                == "y"@)));
                        assert(v@ == Json::Object(ms));
                        assert(Self::of_json(v@) is None);
                    }
                    return Err(e);
                },
            }
            i = i + 1;
        }
        proof {
            crate::json_value::lemma_view_members_len(m@);
        }
        let x_key = "x".to_owned();
        let x: i32 = match obj_get(m, &x_key) {
            Some(JsonValue::Int(x)) => {
                if -0x8000_0000i128 <= *x && *x <= 0x7fff_ffffi128 {
                    *x as i32
                } else {
                    return Err("invalid value: integer out of range for `x`".to_owned());
                }
            },
            _ => {
                return Err("missing field `x`".to_owned());
            },
        };
        let y_key = "y".to_owned();
        let y: i32 = match obj_get(m, &y_key) {
            Some(JsonValue::Int(y)) => {
                if -0x8000_0000i128 <= *y && *y <= 0x7fff_ffffi128 {
                    *y as i32
                } else {
                    return Err("invalid value: integer out of range for `y`".to_owned());
                }
            },
            _ => {
                return Err("missing field `y`".to_owned());
            },
        };
        Ok(Point { x, y })
    }
}

} // verus!
