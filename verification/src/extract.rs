//! Field extraction from response bodies: a declarative field path is
//! evaluated against a parsed JSON document, and the raw text of every match
//! is collected. For a list of paths the result is path-major: all matches of
//! the first path, then all matches of the second, and so on. The JSON
//! reading itself is delegated to serde_json behind trusted wrappers.
//!
//! A JSON value is modelled by its canonical compact text (what serde_json's
//! Display prints), which determines the value exactly; each wrapped
//! operation's result is a named function of that text, so every read is
//! deterministic and the extraction as a whole has an exact contract.
use crate::errors::{ZkError, ZkErrorCode};
use vstd::prelude::*;

verus! {

#[verifier::external_type_specification]
#[verifier::external_body]
pub struct ExValue(serde_json::Value);

/// The canonical compact JSON text of a value: what serde_json's Display
/// prints. Two values with the same canonical text are the same document.
pub uninterp spec fn value_text(v: serde_json::Value) -> Seq<u8>;

/// What parsing bytes as JSON yields: the canonical text of the parsed
/// document, or nothing where the bytes are not a JSON document.
pub uninterp spec fn parse_text(s: Seq<u8>) -> Option<Seq<u8>>;

/// What looking a key up in a document yields: the canonical text of the
/// value under that key of a JSON object, or nothing.
pub uninterp spec fn key_field(doc: Seq<u8>, key: Seq<char>) -> Option<Seq<u8>>;

/// What looking an index up in a document yields: the canonical text of that
/// element of a JSON array, or nothing.
pub uninterp spec fn index_field(doc: Seq<u8>, i: int) -> Option<Seq<u8>>;

/// What reading a document as a JSON string yields: the string's bytes, or
/// nothing where the document is not a string.
pub uninterp spec fn str_content(doc: Seq<u8>) -> Option<Seq<u8>>;

/// What reading a document as a JSON array yields: the canonical texts of
/// its elements in order, or nothing where the document is not an array.
pub uninterp spec fn items_of(doc: Seq<u8>) -> Option<Seq<Seq<u8>>>;

/// Relies on serde_json::from_slice: parses bytes as one JSON document. It
/// returns `Err` (never panics) on malformed or too deeply nested input.
#[verifier::external_body]
pub fn json_parse(s: &[u8]) -> (r: Result<serde_json::Value, Vec<u8>>)
    ensures
        r is Ok <==> parse_text(s@) is Some,
        r matches Ok(v) ==> parse_text(s@) == Some(value_text(v)),
{
    match serde_json::from_slice(s) {
        Ok(v) => Ok(v),
        Err(e) => Err(e.to_string().into_bytes()),
    }
}

/// Relies on serde_json::Value::get: looks a key up in a JSON object.
#[verifier::external_body]
pub fn json_get<'a>(v: &'a serde_json::Value, key: &str) -> (r: Option<&'a serde_json::Value>)
    ensures
        match r {
            Some(x) => key_field(value_text(*v), key@) == Some(value_text(*x)),
            None => key_field(value_text(*v), key@) is None,
        },
{
    v.get(key)
}

/// Relies on serde_json::Value::get: looks an index up in a JSON array.
#[verifier::external_body]
pub fn json_get_index<'a>(v: &'a serde_json::Value, i: usize) -> (r: Option<
    &'a serde_json::Value,
>)
    ensures
        match r {
            Some(x) => index_field(value_text(*v), i as int) == Some(value_text(*x)),
            None => index_field(value_text(*v), i as int) is None,
        },
{
    v.get(i)
}

/// Relies on serde_json::Value::as_str: the bytes of a JSON string value.
#[verifier::external_body]
pub fn json_as_str(v: &serde_json::Value) -> (r: Option<Vec<u8>>)
    ensures
        match r {
            Some(b) => str_content(value_text(*v)) == Some(b@),
            None => str_content(value_text(*v)) is None,
        },
{
    v.as_str().map(|s| s.as_bytes().to_vec())
}

/// Relies on serde_json::Value::as_array: the elements of a JSON array.
#[verifier::external_body]
pub fn json_items<'a>(v: &'a serde_json::Value) -> (r: Option<Vec<&'a serde_json::Value>>)
    ensures
        match r {
            Some(items) => items_of(value_text(*v)) matches Some(m) && m.len() == items@.len()
                && forall|i: int| 0 <= i < m.len() ==> m[i] == value_text(*#[trigger] items@[i]),
            None => items_of(value_text(*v)) is None,
        },
{
    v.as_array().map(|a| a.iter().collect())
}

/// Relies on serde_json's Display for Value: the canonical compact JSON text
/// of a value (string values keep their surrounding quotes).
#[verifier::external_body]
pub fn json_text(v: &serde_json::Value) -> (r: Vec<u8>)
    ensures
        r@ == value_text(*v),
{
    v.to_string().into_bytes()
}

/// A field path over a response body: one top-level field, a field of every
/// element of the top-level array, or a field of every element of an array
/// under a named key.
pub enum PathExpr {
    Field(String),
    EachField(String),
    KeyEachField(String, String),
}

/// The matches of a one-field path: the named field of the document, if any.
pub open spec fn field_matches(doc: Seq<u8>, name: Seq<char>) -> Seq<Seq<u8>> {
    match key_field(doc, name) {
        Some(t) => seq![t],
        None => Seq::empty(),
    }
}

/// The matches of a per-element path over the first `k` array elements:
/// the named field of each element that has it, in element order.
pub open spec fn each_field_matches_upto(
    items: Seq<Seq<u8>>,
    name: Seq<char>,
    k: int,
) -> Seq<Seq<u8>>
    decreases k,
{
    if k <= 0 {
        Seq::empty()
    } else {
        let prev = each_field_matches_upto(items, name, k - 1);
        match key_field(items[k - 1], name) {
            Some(t) => prev.push(t),
            None => prev,
        }
    }
}

/// The matches of a per-element path: the named field of every element of
/// the document, taken as an array (none where it is not one).
pub open spec fn each_field_matches(doc: Seq<u8>, name: Seq<char>) -> Seq<Seq<u8>> {
    match items_of(doc) {
        Some(items) => each_field_matches_upto(items, name, items.len() as int),
        None => Seq::empty(),
    }
}

/// The matches of a per-element path under a named key.
pub open spec fn key_each_matches(doc: Seq<u8>, key: Seq<char>, name: Seq<char>) -> Seq<Seq<u8>> {
    match key_field(doc, key) {
        Some(sub) => each_field_matches(sub, name),
        None => Seq::empty(),
    }
}

/// The matches of one path against a document.
pub open spec fn path_matches(doc: Seq<u8>, path: PathExpr) -> Seq<Seq<u8>> {
    match path {
        PathExpr::Field(name) => field_matches(doc, name@),
        PathExpr::EachField(name) => each_field_matches(doc, name@),
        PathExpr::KeyEachField(key, name) => key_each_matches(doc, key@, name@),
    }
}

/// The matches of the first `p` paths, path-major: all matches of the first
/// path, then all matches of the second, and so on.
pub open spec fn paths_matches_upto(doc: Seq<u8>, paths: Seq<PathExpr>, p: int) -> Seq<Seq<u8>>
    decreases p,
{
    if p <= 0 {
        Seq::empty()
    } else {
        paths_matches_upto(doc, paths, p - 1) + path_matches(doc, paths[p - 1])
    }
}

/// What extracting a list of paths from a body yields: nothing where the
/// body is not a JSON document, and otherwise the path-major match list.
pub open spec fn spec_extract(body: Seq<u8>, paths: Seq<PathExpr>) -> Option<Seq<Seq<u8>>> {
    match parse_text(body) {
        Some(doc) => Some(paths_matches_upto(doc, paths, paths.len() as int)),
        None => None,
    }
}

/// Collects the raw text of every match of one path, in document order.
#[verifier::loop_isolation(false)]
fn collect_path(doc: &serde_json::Value, path: &PathExpr, out: &mut Vec<Vec<u8>>)
    ensures
        crate::text::views(final(out)@) == crate::text::views(old(out)@) + path_matches(
            value_text(*doc),
            *path,
        ),
{
    match path {
        PathExpr::Field(name) => {
            match json_get(doc, name.as_str()) {
                Some(x) => {
                    out.push(json_text(x));
                    proof {
                        assert(crate::text::views(out@) =~= crate::text::views(old(out)@)
                            + path_matches(value_text(*doc), *path));
                    }
                },
                None => {
                    proof {
                        assert(crate::text::views(out@) =~= crate::text::views(old(out)@)
                            + path_matches(value_text(*doc), *path));
                    }
                },
            }
        },
        PathExpr::EachField(name) => {
            collect_each(doc, name, out);
        },
        PathExpr::KeyEachField(key, name) => {
            match json_get(doc, key.as_str()) {
                Some(sub) => {
                    collect_each(sub, name, out);
                },
                None => {
                    proof {
                        assert(crate::text::views(out@) =~= crate::text::views(old(out)@)
                            + path_matches(value_text(*doc), *path));
                    }
                },
            }
        },
    }
}

/// Collects the named field of every element of an array document.
#[verifier::loop_isolation(false)]
fn collect_each(doc: &serde_json::Value, name: &String, out: &mut Vec<Vec<u8>>)
    ensures
        crate::text::views(final(out)@) == crate::text::views(old(out)@) + each_field_matches(
            value_text(*doc),
            name@,
        ),
{
    match json_items(doc) {
        Some(items) => {
            let ghost m = items_of(value_text(*doc)).unwrap();
            let mut i: usize = 0;
            proof {
                assert(crate::text::views(out@) =~= crate::text::views(old(out)@)
                    + each_field_matches_upto(m, name@, 0));
            }
            while i < items.len()
                invariant
                    i <= items@.len(),
                    crate::text::views(out@) == crate::text::views(old(out)@)
                        + each_field_matches_upto(m, name@, i as int),
                decreases items@.len() - i,
            {
                proof {
                    assert(m[i as int] == value_text(*items@[i as int]));
                }
                match json_get(items[i], name.as_str()) {
                    Some(x) => {
                        let ghost prev = crate::text::views(out@);
                        out.push(json_text(x));
                        proof {
                            assert(key_field(m[i as int], name@) == Some(value_text(*x)));
                            assert(each_field_matches_upto(m, name@, i + 1)
                                == each_field_matches_upto(m, name@, i as int).push(
                                value_text(*x),
                            ));
                            assert(crate::text::views(out@) =~= prev.push(value_text(*x)));
                            assert(prev.push(value_text(*x)) =~= crate::text::views(old(out)@)
                                + each_field_matches_upto(m, name@, i + 1));
                        }
                    },
                    None => {
                        proof {
                            assert(crate::text::views(out@) =~= crate::text::views(old(out)@)
                                + each_field_matches_upto(m, name@, i + 1));
                        }
                    },
                }
                i += 1;
            }
        },
        None => {
            proof {
                assert(crate::text::views(out@) =~= crate::text::views(old(out)@)
                    + each_field_matches(value_text(*doc), name@));
            }
        },
    }
}

/// Extracts the matches of every path from a response body, path-major.
/// It fails, with ExtractionFailure's kind, exactly when the body is not a
/// JSON document.
#[verifier::loop_isolation(false)]
pub fn extract_values(body: &[u8], paths: &Vec<PathExpr>) -> (r: Result<Vec<Vec<u8>>, ZkError>)
    ensures
        r is Ok <==> parse_text(body@) is Some,
        r matches Ok(vals) ==> Some(crate::text::views(vals@)) == spec_extract(body@, paths@),
        r matches Err(e) ==> e.kind == ZkErrorCode::GetJsonValueFail,
{
    let doc = match json_parse(body) {
        Ok(d) => d,
        Err(detail) => {
            return Err(ZkError::with_detail(ZkErrorCode::GetJsonValueFail, detail));
        },
    };
    let mut out: Vec<Vec<u8>> = Vec::new();
    let mut p: usize = 0;
    proof {
        assert(crate::text::views(out@) =~= paths_matches_upto(value_text(doc), paths@, 0));
    }
    while p < paths.len()
        invariant
            p <= paths@.len(),
            crate::text::views(out@) == paths_matches_upto(value_text(doc), paths@, p as int),
        decreases paths@.len() - p,
    {
        collect_path(&doc, &paths[p], &mut out);
        p += 1;
    }
    Ok(out)
}

} // verus!
