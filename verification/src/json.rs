//! The JSON value model that the lockfile parser, the cache codec and the
//! registry-response decoders work on. Object members keep their document
//! order; numbers carry their value only when it is a 64-bit integer, which is
//! all this library ever reads of a number.

use vstd::prelude::*;

use crate::strutil::str_eq;

verus! {

/// A JSON document, shaped for what this library consumes.
pub enum JsonValue {
    Null,
    Bool(bool),
    /// A number with an exact 64-bit integer value.
    Int(i64),
    /// Any other number; its value is not consumed.
    OtherNum,
    Str(String),
    Arr(Vec<JsonValue>),
    Obj(Vec<(String, JsonValue)>),
}

/// The value under the first member of `fields` named `key`, as
/// `serde_json::Map::get` finds it on maps with unique keys.
pub open spec fn spec_obj_get(fields: Seq<(String, JsonValue)>, key: Seq<char>) -> Option<
    JsonValue,
>
    decreases fields.len(),
{
    if fields.len() == 0 {
        None
    } else if fields[0].0@ == key {
        Some(fields[0].1)
    } else {
        spec_obj_get(fields.drop_first(), key)
    }
}

/// The value under `key` when `v` is an object holding it.
pub open spec fn spec_get(v: JsonValue, key: Seq<char>) -> Option<JsonValue> {
    match v {
        JsonValue::Obj(fields) => spec_obj_get(fields@, key),
        _ => None,
    }
}

/// The string content of `v`, when it is a string.
pub open spec fn spec_as_str(v: JsonValue) -> Option<Seq<char>> {
    match v {
        JsonValue::Str(s) => Some(s@),
        _ => None,
    }
}

impl JsonValue {
    /// The member of an object named `key`; nothing on any other shape.
    pub fn get<'a>(&'a self, key: &str) -> (r: Option<&'a JsonValue>)
        ensures
            match r {
                Some(v) => spec_get(*self, key@) == Some(*v),
                None => spec_get(*self, key@) is None,
            },
    {
        match self {
            JsonValue::Obj(fields) => {
                let ghost all = fields@;
                let mut i: usize = 0;
                proof {
                    assert(all.subrange(0, all.len() as int) =~= all);
                    assert(spec_get(*self, key@) == spec_obj_get(all, key@));
                }
                while i < fields.len()
                    invariant
                        i <= all.len(),
                        all == fields@,
                        spec_get(*self, key@) == spec_obj_get(all, key@),
                        spec_obj_get(all, key@) == spec_obj_get(
                            all.subrange(i as int, all.len() as int),
                            key@,
                        ),
                    decreases all.len() - i,
                {
                    proof {
                        assert(all.subrange(i as int, all.len() as int)[0] == all[i as int]);
                        assert(all.subrange(i as int, all.len() as int).drop_first()
                            =~= all.subrange(i + 1 as int, all.len() as int));
                    }
                    let entry = &fields[i];
                    if str_eq(entry.0.as_str(), key) {
                        proof {
                            assert(all[i as int].0@ == key@);
                            assert(spec_obj_get(all.subrange(i as int, all.len() as int), key@)
                                == Some(all[i as int].1));
                        }
                        return Some(&entry.1);
                    }
                    i = i + 1;
                }
                None
            },
            _ => None,
        }
    }

    /// The content of a string value.
    pub fn as_str_opt<'a>(&'a self) -> (r: Option<&'a String>)
        ensures
            match r {
                Some(s) => spec_as_str(*self) == Some(s@),
                None => spec_as_str(*self) is None,
            },
    {
        match self {
            JsonValue::Str(s) => Some(s),
            _ => None,
        }
    }
}

/// The pieces joined left to right with `", "` between them.
pub open spec fn spec_join_comma(parts: Seq<Seq<char>>) -> Seq<char> {
    if parts.len() == 0 {
        Seq::empty()
    } else {
        spec_join_rest(parts[0], parts.drop_first())
    }
}

pub open spec fn spec_join_rest(acc: Seq<char>, rest: Seq<Seq<char>>) -> Seq<char>
    decreases rest.len(),
{
    if rest.len() == 0 {
        acc
    } else {
        spec_join_rest(acc + seq![',', ' '] + rest[0], rest.drop_first())
    }
}

/// The non-empty license texts that the items of a license array
/// contribute, in order; items of no license shape, and items whose
/// extraction is empty, contribute nothing.
pub open spec fn spec_extract_list(items: Seq<JsonValue>) -> Seq<Seq<char>>
    decreases items,
{
    if items.len() == 0 {
        Seq::empty()
    } else {
        let rest = spec_extract_list(items.drop_last());
        match spec_extract_license(items.last()) {
            Some(l) => if l.len() > 0 {
                rest.push(l)
            } else {
                rest
            },
            None => rest,
        }
    }
}

/// The license text a JSON license field denotes: a string as it stands, an
/// array's non-empty extractions joined with `", "` (none of them meaning no
/// license), an object through its `type` member, nothing otherwise.
pub open spec fn spec_extract_license(v: JsonValue) -> Option<Seq<char>>
    decreases v,
{
    match v {
        JsonValue::Str(s) => Some(s@),
        JsonValue::Arr(items) => {
            let merged = spec_extract_list(items@);
            if merged.len() == 0 {
                None
            } else {
                Some(spec_join_comma(merged))
            }
        },
        JsonValue::Obj(fields) => match spec_obj_get(fields@, seq!['t', 'y', 'p', 'e']) {
            Some(t) => spec_as_str(t),
            None => None,
        },
        _ => None,
    }
}

/// `spec_join_comma` on strings.
pub fn join_comma(parts: &Vec<String>) -> (r: String)
    ensures
        r@ == spec_join_comma(parts.deep_view()),
{
    let ghost all = parts.deep_view();
    if parts.len() == 0 {
        return String::new();
    }
    let mut r: String = parts[0].clone();
    let sep = ", ";
    proof {
        reveal_strlit(", ");
        assert(sep@ =~= seq![',', ' ']);
        assert(all[0] == parts@[0]@);
        assert(all.subrange(1, all.len() as int) =~= all.drop_first());
    }
    let mut i: usize = 1;
    while i < parts.len()
        invariant
            1 <= i <= all.len(),
            all == parts.deep_view(),
            all.len() == parts@.len(),
            sep@ == seq![',', ' '],
            spec_join_comma(all) == spec_join_rest(
                r@,
                all.subrange(i as int, all.len() as int),
            ),
        decreases all.len() - i,
    {
        proof {
            assert(all.subrange(i as int, all.len() as int)[0] == all[i as int]);
            assert(all[i as int] == parts@[i as int]@);
            assert(all.subrange(i as int, all.len() as int).drop_first() =~= all.subrange(
                i + 1 as int,
                all.len() as int,
            ));
        }
        r.append(sep);
        r.append(parts[i].as_str());
        i = i + 1;
    }
    proof {
        assert(all.subrange(all.len() as int, all.len() as int).len() == 0);
    }
    r
}

/// `spec_extract_license` on a value: the license-field normalization shared
/// by the lockfile parser and the registry decoders.
pub fn extract_license(v: &JsonValue) -> (r: Option<String>)
    ensures
        r.deep_view() == spec_extract_license(*v),
    decreases *v,
{
    match v {
        JsonValue::Str(s) => Some(s.clone()),
        JsonValue::Arr(items) => {
            let ghost all = items@;
            let mut merged: Vec<String> = Vec::new();
            let mut i: usize = 0;
            proof {
                assert(all.subrange(0, 0) =~= Seq::<JsonValue>::empty());
                assert(merged.deep_view() =~~= spec_extract_list(all.subrange(0, 0)));
                assert(decreases_to!(*v => all));
            }
            while i < items.len()
                invariant
                    i <= all.len(),
                    all == items@,
                    decreases_to!(*v => all),
                    merged.deep_view() == spec_extract_list(all.subrange(0, i as int)),
                decreases all.len() - i,
            {
                let ghost prev = merged.deep_view();
                proof {
                    assert(decreases_to!(all => all[i as int]));
                    assert(all.subrange(0, i + 1 as int).drop_last() =~= all.subrange(
                        0,
                        i as int,
                    ));
                    assert(all.subrange(0, i + 1 as int).last() == all[i as int]);
                }
                match extract_license(&items[i]) {
                    Some(l) => {
                        if !l.as_str().is_empty() {
                            merged.push(l);
                            proof {
                                assert(merged.deep_view() =~~= prev.push(
                                    spec_extract_license(all[i as int])->Some_0,
                                ));
                            }
                        }
                    },
                    None => {},
                }
                i = i + 1;
            }
            proof {
                assert(all.subrange(0, all.len() as int) =~= all);
            }
            if merged.len() == 0 {
                proof {
                    assert(merged.deep_view().len() == 0);
                }
                None
            } else {
                Some(join_comma(&merged))
            }
        },
        JsonValue::Obj(_) => {
            match v.get("type") {
                Some(t) => {
                    proof {
                        reveal_strlit("type");
                        assert("type"@ =~= seq!['t', 'y', 'p', 'e']);
                    }
                    match t.as_str_opt() {
                        Some(s) => Some(s.clone()),
                        None => None,
                    }
                },
                None => {
                    proof {
                        reveal_strlit("type");
                        assert("type"@ =~= seq!['t', 'y', 'p', 'e']);
                    }
                    None
                },
            }
        },
        _ => None,
    }
}

} // verus!
