//! Members of JSON objects: required and optional texts, instants.

use vstd::prelude::*;
use crate::json;
use crate::json::{Json, Object, Tree};
use crate::text;
use crate::time;
use crate::time::Timestamp;

verus! {

/// The contents of an optional value.
pub open spec fn opt_tree(v: Option<Json>) -> Option<Tree> {
    match v {
        Some(j) => Some(j@),
        None => None,
    }
}

/// A copy of an optional value.
pub fn clone_opt(v: &Option<Json>) -> (r: Option<Json>)
    ensures
        opt_tree(r) == opt_tree(*v),
{
    match v {
        Some(j) => Some(j.clone()),
        None => None,
    }
}

/// A copy of a list of values.
pub fn clone_list(v: &Vec<Json>) -> (r: Vec<Json>)
    ensures
        json::trees(r@) == json::trees(v@),
{
    let mut out: Vec<Json> = Vec::new();
    let mut i: usize = 0;
    while i < v.len()
        invariant
            i <= v@.len(),
            out@.len() == i,
            forall|j: int| 0 <= j < i ==> json::tree(#[trigger] out@[j]) == json::tree(v@[j]),
        decreases v@.len() - i,
    {
        out.push(v[i].clone());
        i = i + 1;
    }
    assert(json::trees(out@) =~= json::trees(v@));
    out
}

/// A copy of an optional text.
pub fn clone_text(v: &Option<String>) -> (r: Option<String>)
    ensures
        text::opt_view(r) == text::opt_view(*v),
{
    match v {
        Some(s) => Some(s.clone()),
        None => None,
    }
}

/// The member `key`, where it is present and not `null`.
pub open spec fn present(m: Map<Seq<char>, Tree>, key: Seq<char>) -> Option<Tree> {
    match json::member(m, key) {
        Some(t) => if t == Tree::Null {
            None
        } else {
            Some(t)
        },
        None => None,
    }
}

/// Reads the member `key`, where it is present and not `null`.
pub fn read_present<'a>(o: &'a Object, key: &str) -> (r: Option<&'a Json>)
    ensures
        match r {
            Some(v) => present(o@, key@) == Some(v@),
            None => present(o@, key@) is None,
        },
{
    match o.get(key) {
        Some(v) => if v.is_null() {
            None
        } else {
            Some(v)
        },
        None => None,
    }
}

/// The member `key` as a text that is not empty; absent or `null` is none.
pub open spec fn text_opt(m: Map<Seq<char>, Tree>, key: Seq<char>) -> Result<
    Option<Seq<char>>,
    Seq<char>,
> {
    match present(m, key) {
        None => Ok(None),
        Some(Tree::Str(s)) => if s.len() > 0 {
            Ok(Some(s))
        } else {
            Err("`"@ + key + "` must be a non-empty string"@)
        },
        Some(_) => Err("`"@ + key + "` must be a non-empty string"@),
    }
}

/// Reads the member `key` as an optional text.
pub fn read_text_opt(o: &Object, key: &str) -> (r: Result<Option<String>, String>)
    ensures
        match r {
            Ok(s) => text_opt(o@, key@) == Ok::<Option<Seq<char>>, Seq<char>>(text::opt_view(s)),
            Err(e) => text_opt(o@, key@) == Err::<Option<Seq<char>>, Seq<char>>(e@),
        },
{
    match read_present(o, key) {
        None => Ok(None),
        Some(v) => {
            if let Some(s) = v.as_str() {
                if !s.is_empty() {
                    return Ok(Some(s.to_owned()));
                }
            }
            Err(text::cat3("`", key, "` must be a non-empty string"))
        },
    }
}

/// The member `key` as a text that is there and not empty.
pub open spec fn text_req(m: Map<Seq<char>, Tree>, key: Seq<char>) -> Result<Seq<char>, Seq<char>> {
    match json::member(m, key) {
        Some(Tree::Str(s)) => if s.len() > 0 {
            Ok(s)
        } else {
            Err("missing `"@ + key + "`"@)
        },
        _ => Err("missing `"@ + key + "`"@),
    }
}

/// Reads the member `key` as a required text.
pub fn read_text_req(o: &Object, key: &str) -> (r: Result<String, String>)
    ensures
        match r {
            Ok(s) => text_req(o@, key@) == Ok::<Seq<char>, Seq<char>>(s@),
            Err(e) => text_req(o@, key@) == Err::<Seq<char>, Seq<char>>(e@),
        },
{
    if let Some(v) = o.get(key) {
        if let Some(s) = v.as_str() {
            if !s.is_empty() {
                return Ok(s.to_owned());
            }
        }
    }
    Err(text::cat3("missing `", key, "`"))
}

/// The member `key` as an instant; absent or `null` is none.
pub open spec fn stamp_opt(m: Map<Seq<char>, Tree>, key: Seq<char>) -> Result<
    Option<Timestamp>,
    Seq<char>,
> {
    match present(m, key) {
        None => Ok(None),
        Some(Tree::Str(s)) => match time::parsed(s) {
            Some(t) => Ok(Some(Timestamp { secs: t as i64 })),
            None => Err(time::parse_error(s)),
        },
        Some(_) => Err("`"@ + key + "` must be an RFC 3339 string"@),
    }
}

/// Reads the member `key` as an optional instant.
pub fn read_stamp_opt(o: &Object, key: &str) -> (r: Result<Option<Timestamp>, String>)
    ensures
        match r {
            Ok(t) => stamp_opt(o@, key@) == Ok::<Option<Timestamp>, Seq<char>>(t),
            Err(e) => stamp_opt(o@, key@) == Err::<Option<Timestamp>, Seq<char>>(e@),
        },
{
    match read_present(o, key) {
        None => Ok(None),
        Some(v) => match v.as_str() {
            Some(s) => match Timestamp::parse(s) {
                Ok(t) => Ok(Some(t)),
                Err(e) => Err(e),
            },
            None => Err(text::cat3("`", key, "` must be an RFC 3339 string")),
        },
    }
}

/// An optional instant in canonical notation.
pub open spec fn stamp_tree(t: Option<Timestamp>) -> Option<Tree> {
    match t {
        Some(x) => Some(Tree::Str(time::stamp_text(x.secs as int))),
        None => None,
    }
}

/// Sets the member `key` to an instant, if there is one.
pub fn put_stamp(o: &mut Object, key: &str, t: Option<Timestamp>)
    ensures
        final(o)@ == json::put_opt(old(o)@, key@, stamp_tree(t)),
{
    if let Some(x) = t {
        o.put(key, Json::Str(x.to_string()));
    }
}

/// Sets the member `key` to a value, if there is one.
pub fn put_json(o: &mut Object, key: &str, v: &Option<Json>)
    ensures
        final(o)@ == json::put_opt(old(o)@, key@, opt_tree(*v)),
{
    if let Some(x) = v {
        o.put(key, x.clone());
    }
}

} // verus!
