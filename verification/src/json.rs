//! The JSON values the pipeline reads, modelled as a datatype of the crate.
//!
//! The remote source answers with JSON documents; the logic here only ever
//! looks at null, unsigned integers, strings, arrays and objects, so the
//! datatype holds exactly those, with one opaque variant for any number that
//! has no unsigned-integer representation. Whatever parses the transport's
//! bytes converts into this type before the pipeline runs.

use vstd::prelude::*;

use crate::text::str_eq;

verus! {

/// A JSON value.
#[derive(Debug)]
pub enum Json {
    Null,
    Bool(bool),
    /// A number representable as an unsigned integer.
    UInt(u64),
    /// A number with no unsigned-integer representation; nothing reads it.
    OtherNum,
    Str(String),
    Arr(Vec<Json>),
    Obj(Vec<(String, Json)>),
}

/// First value bound to `key` among an object's pairs.
pub open spec fn spec_obj_get(pairs: Seq<(String, Json)>, key: Seq<char>) -> Option<Json>
    decreases pairs.len(),
{
    if pairs.len() == 0 {
        None
    } else if pairs[0].0@ == key {
        Some(pairs[0].1)
    } else {
        spec_obj_get(pairs.drop_first(), key)
    }
}

impl Json {
    /// The value bound to `key` if this is an object with such a binding.
    pub open spec fn spec_get(self, key: Seq<char>) -> Option<Json> {
        match self {
            Json::Obj(pairs) => spec_obj_get(pairs@, key),
            _ => None,
        }
    }

    /// Looks a key up in an object; `None` for a missing key or a non-object.
    pub fn get<'a>(&'a self, key: &str) -> (r: Option<&'a Json>)
        ensures
            match r {
                Some(v) => self.spec_get(key@) == Some(*v),
                None => self.spec_get(key@) is None,
            },
    {
        match self {
            Json::Obj(pairs) => {
                let n = pairs.len();
                proof {
                    assert(pairs@.skip(0) =~= pairs@);
                }
                for i in 0..n
                    invariant
                        n == pairs@.len(),
                        self.spec_get(key@) == spec_obj_get(pairs@, key@),
                        spec_obj_get(pairs@, key@) == spec_obj_get(
                            pairs@.skip(i as int),
                            key@,
                        ),
                {
                    proof {
                        assert(pairs@.skip(i as int)[0] == pairs@[i as int]);
                    }
                    if str_eq(pairs[i].0.as_str(), key) {
                        proof {
                            assert(spec_obj_get(pairs@.skip(i as int), key@) == Some(
                                pairs@[i as int].1,
                            ));
                        }
                        return Some(&pairs[i].1);
                    }
                    proof {
                        assert(pairs@.skip(i as int).drop_first() =~= pairs@.skip(i + 1));
                    }
                }
                None
            },
            _ => None,
        }
    }
}

/// Dismantles an object's pairs, handing back the first value bound to each
/// of three distinct keys; every other pair is dropped.
pub fn obj_take3(pairs: Vec<(String, Json)>, k0: &str, k1: &str, k2: &str) -> (r: (
    Option<Json>,
    Option<Json>,
    Option<Json>,
))
    requires
        k0@ != k1@,
        k0@ != k2@,
        k1@ != k2@,
        k0@.len() > 0,
        k1@.len() > 0,
        k2@.len() > 0,
    ensures
        r.0 == spec_obj_get(pairs@, k0@),
        r.1 == spec_obj_get(pairs@, k1@),
        r.2 == spec_obj_get(pairs@, k2@),
{
    proof {
        reveal_strlit("");
    }
    let (s0, s1, s2, _) = obj_take4(pairs, k0, k1, k2, "");
    (s0, s1, s2)
}

/// Dismantles an object's pairs, handing back the first value bound to each
/// of four distinct keys; every other pair is dropped.
#[verifier::loop_isolation(false)]
pub fn obj_take4(pairs: Vec<(String, Json)>, k0: &str, k1: &str, k2: &str, k3: &str) -> (r: (
    Option<Json>,
    Option<Json>,
    Option<Json>,
    Option<Json>,
))
    requires
        k0@ != k1@,
        k0@ != k2@,
        k0@ != k3@,
        k1@ != k2@,
        k1@ != k3@,
        k2@ != k3@,
    ensures
        r.0 == spec_obj_get(pairs@, k0@),
        r.1 == spec_obj_get(pairs@, k1@),
        r.2 == spec_obj_get(pairs@, k2@),
        r.3 == spec_obj_get(pairs@, k3@),
{
    let ghost orig = pairs@;
    let mut rest = pairs;
    let mut s0: Option<Json> = None;
    let mut s1: Option<Json> = None;
    let mut s2: Option<Json> = None;
    let mut s3: Option<Json> = None;
    let ghost mut i: int = 0;
    proof {
        assert(rest@ =~= orig.skip(0));
    }
    while rest.len() > 0
        invariant
            0 <= i <= orig.len(),
            rest@ =~= orig.skip(i),
            match s0 {
                None => spec_obj_get(orig, k0@) == spec_obj_get(orig.skip(i), k0@),
                Some(v) => spec_obj_get(orig, k0@) == Some(v),
            },
            match s1 {
                None => spec_obj_get(orig, k1@) == spec_obj_get(orig.skip(i), k1@),
                Some(v) => spec_obj_get(orig, k1@) == Some(v),
            },
            match s2 {
                None => spec_obj_get(orig, k2@) == spec_obj_get(orig.skip(i), k2@),
                Some(v) => spec_obj_get(orig, k2@) == Some(v),
            },
            match s3 {
                None => spec_obj_get(orig, k3@) == spec_obj_get(orig.skip(i), k3@),
                Some(v) => spec_obj_get(orig, k3@) == Some(v),
            },
        decreases rest.len(),
    {
        let (key, val) = rest.remove(0);
        let m0 = str_eq(key.as_str(), k0);
        let m1 = str_eq(key.as_str(), k1);
        let m2 = str_eq(key.as_str(), k2);
        let m3 = str_eq(key.as_str(), k3);
        proof {
            assert(key == orig[i].0);
            assert(val == orig[i].1);
            assert(rest@ =~= orig.skip(i + 1));
            assert(orig.skip(i)[0] == orig[i]);
            assert(orig.skip(i).drop_first() =~= orig.skip(i + 1));
            if !m0 {
                assert(spec_obj_get(orig.skip(i), k0@) == spec_obj_get(orig.skip(i + 1), k0@));
            } else {
                assert(spec_obj_get(orig.skip(i), k0@) == Some(orig[i].1));
            }
            if !m1 {
                assert(spec_obj_get(orig.skip(i), k1@) == spec_obj_get(orig.skip(i + 1), k1@));
            } else {
                assert(spec_obj_get(orig.skip(i), k1@) == Some(orig[i].1));
            }
            if !m2 {
                assert(spec_obj_get(orig.skip(i), k2@) == spec_obj_get(orig.skip(i + 1), k2@));
            } else {
                assert(spec_obj_get(orig.skip(i), k2@) == Some(orig[i].1));
            }
            if !m3 {
                assert(spec_obj_get(orig.skip(i), k3@) == spec_obj_get(orig.skip(i + 1), k3@));
            } else {
                assert(spec_obj_get(orig.skip(i), k3@) == Some(orig[i].1));
            }
        }
        if s0.is_none() && m0 {
            s0 = Some(val);
        } else if s1.is_none() && m1 {
            s1 = Some(val);
        } else if s2.is_none() && m2 {
            s2 = Some(val);
        } else if s3.is_none() && m3 {
            s3 = Some(val);
        }
        proof {
            i = i + 1;
        }
    }
    proof {
        assert(orig.skip(i) =~= Seq::<(String, Json)>::empty());
    }
    (s0, s1, s2, s3)
}

} // verus!
