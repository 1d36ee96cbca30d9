//! JSON and YAML documents as the serde crates read and write them, seen
//! through plain values: whether a text parses, what a JSON pointer finds,
//! what kind of node sits at a key path, and the text after one key is set.
//! The trees themselves stay inside the serde crates; the library decides
//! which paths to read and which keys to set. Also JSON text for values the
//! library writes.
use vstd::prelude::*;
use crate::dsh::Node;
use crate::text::{hex_char_lower, lit, string_of};

verus! {

pub open spec fn opt_view(o: Option<&str>) -> Option<Seq<char>> {
    match o {
        Some(s) => Some(s@),
        None => None,
    }
}

pub open spec fn result_view(r: Result<String, String>) -> Result<Seq<char>, Seq<char>> {
    match r {
        Ok(t) => Ok(t@),
        Err(e) => Err(e@),
    }
}

// ---------------------------------------------------------------- JSON

/// `serde_json::from_str::<Value>(text)` succeeds.
pub uninterp spec fn json_parses(text: Seq<char>) -> bool;

/// The unsigned integer at JSON pointer `ptr` of `text` (`Value::pointer`,
/// then `as_u64`), if `text` parses and holds one there.
pub uninterp spec fn json_u64_at(text: Seq<char>, ptr: Seq<char>) -> Option<u64>;

/// The boolean at JSON pointer `ptr` of `text` (`as_bool`).
pub uninterp spec fn json_bool_at(text: Seq<char>, ptr: Seq<char>) -> Option<bool>;

/// The string at JSON pointer `ptr` of `text` (`as_str`).
pub uninterp spec fn json_str_at(text: Seq<char>, ptr: Seq<char>) -> Option<Seq<char>>;

/// The length of the array at JSON pointer `ptr` of `text` (`as_array`).
pub uninterp spec fn json_len_at(text: Seq<char>, ptr: Seq<char>) -> Option<usize>;

/// Whether JSON pointer `ptr` of `text` finds a value (of any kind).
pub uninterp spec fn json_has(text: Seq<char>, ptr: Seq<char>) -> bool;

/// The kind of `text`'s root (no `key`) or of its member `key`, or the
/// parser's message when `text` is not JSON.
pub uninterp spec fn json_node(text: Seq<char>, key: Option<Seq<char>>) -> Result<Node, Seq<char>>;

/// `text` with `key` set to the JSON `value` in the object at the root (no
/// `parent`) or at member `parent`, printed by `to_string_pretty`; or the
/// crate's message when a text does not parse, or there is no object there.
pub uninterp spec fn json_set(
    text: Seq<char>,
    parent: Option<Seq<char>>,
    key: Seq<char>,
    value: Seq<char>,
) -> Result<Seq<char>, Seq<char>>;

/// `serde_json::from_str::<Value>`, whether it succeeds.
#[verifier::external_body]
pub(crate) fn json_valid(text: &str) -> (b: bool)
    ensures
        b == json_parses(text@),
{
    serde_json::from_str::<serde_json::Value>(text).is_ok()
}

/// `serde_json::from_str::<Value>`, then `Value::pointer` and `as_u64`.
#[verifier::external_body]
pub(crate) fn json_u64(text: &str, ptr: &str) -> (r: Option<u64>)
    ensures
        r == json_u64_at(text@, ptr@),
{
    serde_json::from_str::<serde_json::Value>(text).ok()?.pointer(ptr)?.as_u64()
}

/// `serde_json::from_str::<Value>`, then `Value::pointer` and `as_bool`.
#[verifier::external_body]
pub(crate) fn json_bool(text: &str, ptr: &str) -> (r: Option<bool>)
    ensures
        r == json_bool_at(text@, ptr@),
{
    serde_json::from_str::<serde_json::Value>(text).ok()?.pointer(ptr)?.as_bool()
}

/// `serde_json::from_str::<Value>`, then `Value::pointer` and `as_str`.
#[verifier::external_body]
pub(crate) fn json_str(text: &str, ptr: &str) -> (r: Option<String>)
    ensures
        match r {
            Some(s) => json_str_at(text@, ptr@) == Some(s@),
            None => json_str_at(text@, ptr@) is None,
        },
{
    serde_json::from_str::<serde_json::Value>(text).ok()?.pointer(ptr)?.as_str().map(String::from)
}

/// `serde_json::from_str::<Value>`, then `Value::pointer` and the length of
/// `as_array`.
#[verifier::external_body]
pub(crate) fn json_len(text: &str, ptr: &str) -> (r: Option<usize>)
    ensures
        r == json_len_at(text@, ptr@),
{
    serde_json::from_str::<serde_json::Value>(text).ok()?.pointer(ptr)?.as_array().map(Vec::len)
}

/// `serde_json::from_str::<Value>`, then whether `Value::pointer` finds a
/// value.
#[verifier::external_body]
pub(crate) fn json_found(text: &str, ptr: &str) -> (b: bool)
    ensures
        b == json_has(text@, ptr@),
{
    serde_json::from_str::<serde_json::Value>(text).is_ok_and(|v| v.pointer(ptr).is_some())
}

/// `serde_json::from_str::<Value>`, then `Value::get` of `key` (when
/// given), told apart by variant.
#[verifier::external_body]
pub(crate) fn json_kind(text: &str, key: Option<&str>) -> (r: Result<Node, String>)
    ensures
        match r {
            Ok(n) => json_node(text@, opt_view(key)) == Ok::<Node, Seq<char>>(n),
            Err(e) => json_node(text@, opt_view(key)) == Err::<Node, Seq<char>>(e@),
        },
{
    let root: serde_json::Value = serde_json::from_str(text).map_err(|e| e.to_string())?;
    let node = match key {
        Some(k) => root.get(k),
        None => Some(&root),
    };
    Ok(match node {
        None => Node::Absent,
        Some(serde_json::Value::Null) => Node::Null,
        Some(serde_json::Value::Object(_)) => Node::Table,
        Some(_) => Node::Other,
    })
}

/// `serde_json::from_str::<Value>` of both texts, `Map::insert` of `key` in
/// the object at the root or at `parent` (`Value::get_mut`), then
/// `to_string_pretty`.
#[verifier::external_body]
pub(crate) fn json_set_key(text: &str, parent: Option<&str>, key: &str, value: &str) -> (r: Result<
    String,
    String,
>)
    ensures
        result_view(r) == json_set(text@, opt_view(parent), key@, value@),
{
    let mut root: serde_json::Value = serde_json::from_str(text).map_err(|e| e.to_string())?;
    let v: serde_json::Value = serde_json::from_str(value).map_err(|e| e.to_string())?;
    let node = match parent {
        Some(p) => root.get_mut(p),
        None => Some(&mut root),
    };
    let Some(serde_json::Value::Object(m)) = node else {
        return Err(String::from("not an object"));
    };
    m.insert(key.to_string(), v);
    serde_json::to_string_pretty(&root).map_err(|e| e.to_string())
}

// ---------------------------------------------------------------- YAML

/// The kind of the node of YAML `text` at its root, at key `outer`, or at
/// `outer` then `inner` (`Value::get`; null by `is_null`, a mapping by
/// variant); or the parser's message when `text` is not YAML.
pub uninterp spec fn yaml_node(text: Seq<char>, outer: Option<Seq<char>>, inner: Option<Seq<char>>) -> Result<
    Node,
    Seq<char>,
>;

/// YAML `text` with `key` set to the JSON `value` (as a YAML value) in the
/// mapping at the root, at `outer`, or at `outer` then `inner`, printed by
/// `serde_yaml_ng::to_string`; or the crates' message when a text does not
/// parse or there is no mapping there.
pub uninterp spec fn yaml_set(
    text: Seq<char>,
    outer: Option<Seq<char>>,
    inner: Option<Seq<char>>,
    key: Seq<char>,
    value: Seq<char>,
) -> Result<Seq<char>, Seq<char>>;

/// `serde_yaml_ng::from_str::<Value>`, then `Value::get` of `outer` and
/// `inner` (when given), told apart by `is_null` and variant.
#[verifier::external_body]
pub(crate) fn yaml_kind(text: &str, outer: Option<&str>, inner: Option<&str>) -> (r: Result<Node, String>)
    ensures
        match r {
            Ok(n) => yaml_node(text@, opt_view(outer), opt_view(inner)) == Ok::<Node, Seq<char>>(n),
            Err(e) => yaml_node(text@, opt_view(outer), opt_view(inner)) == Err::<Node, Seq<char>>(e@),
        },
{
    let root: serde_yaml_ng::Value = serde_yaml_ng::from_str(text).map_err(|e| e.to_string())?;
    let a = match outer {
        Some(k) => root.get(k),
        None => Some(&root),
    };
    let b = match inner {
        Some(k) => a.and_then(|x| x.get(k)),
        None => a,
    };
    Ok(match b {
        None => Node::Absent,
        Some(v) if v.is_null() => Node::Null,
        Some(serde_yaml_ng::Value::Mapping(_)) => Node::Table,
        Some(_) => Node::Other,
    })
}

/// `serde_yaml_ng::from_str::<Value>` of `text` and of the JSON `value`,
/// `Mapping::insert` of `key` in the mapping at the root, at `outer` or at
/// `outer` then `inner` (`Value::get_mut`), then `serde_yaml_ng::to_string`.
#[verifier::external_body]
pub(crate) fn yaml_set_key(
    text: &str,
    outer: Option<&str>,
    inner: Option<&str>,
    key: &str,
    value: &str,
) -> (r: Result<String, String>)
    ensures
        result_view(r) == yaml_set(text@, opt_view(outer), opt_view(inner), key@, value@),
{
    let mut root: serde_yaml_ng::Value = serde_yaml_ng::from_str(text).map_err(|e| e.to_string())?;
    let v: serde_yaml_ng::Value = serde_yaml_ng::from_str(value).map_err(|e| e.to_string())?;
    let a = match outer {
        Some(k) => root.get_mut(k),
        None => Some(&mut root),
    };
    let b = match inner {
        Some(k) => a.and_then(|x| x.get_mut(k)),
        None => a,
    };
    let Some(serde_yaml_ng::Value::Mapping(m)) = b else {
        return Err(String::from("not a mapping"));
    };
    m.insert(serde_yaml_ng::Value::String(key.to_string()), v);
    serde_yaml_ng::to_string(&root).map_err(|e| e.to_string())
}

// ---------------------------------------------------------------- JSON text

/// How a character stands inside a JSON string: `"` and `\` escaped,
/// control characters as `\u00XX`, anything else as itself.
pub open spec fn json_char(c: char) -> Seq<char> {
    if c == '"' {
        seq!['\\', '"']
    } else if c == '\\' {
        seq!['\\', '\\']
    } else if (c as u32) < 0x20 {
        seq!['\\', 'u', '0', '0', hex_char_lower(((c as u32) / 16) as nat), hex_char_lower(((c as u32) % 16) as nat)]
    } else {
        seq![c]
    }
}

pub open spec fn json_chars(s: Seq<char>) -> Seq<char>
    decreases s.len(),
{
    if s.len() == 0 {
        seq![]
    } else {
        json_chars(s.drop_last()) + json_char(s.last())
    }
}

/// `s` as a JSON string literal.
pub open spec fn json_string(s: Seq<char>) -> Seq<char> {
    seq!['"'] + json_chars(s) + seq!['"']
}

fn push_json_char(out: &mut Vec<char>, c: char)
    ensures
        final(out)@ == old(out)@ + json_char(c),
{
    if c == '"' {
        out.push('\\');
        out.push('"');
    } else if c == '\\' {
        out.push('\\');
        out.push('\\');
    } else if (c as u32) < 0x20 {
        let u = c as u32;
        let hi = if u >= 16 {
            '1'
        } else {
            '0'
        };
        let d = (u % 16) as u8;
        let lo = if d < 10 {
            (48u8 + d) as char
        } else {
            (97u8 + (d - 10)) as char
        };
        proof {
            assert(hi == hex_char_lower((u / 16) as nat));
            assert(lo == hex_char_lower((u % 16) as nat));
        }
        out.push('\\');
        out.push('u');
        out.push('0');
        out.push('0');
        out.push(hi);
        out.push(lo);
    } else {
        out.push(c);
    }
    assert(out@ =~= old(out)@ + json_char(c));
}

/// Appends `s` as a JSON string literal.
pub fn push_json_string(out: &mut Vec<char>, s: &str)
    ensures
        final(out)@ == old(out)@ + json_string(s@),
{
    let cs = lit(s);
    let ghost start = out@;
    out.push('"');
    let mut i: usize = 0;
    while i < cs.len()
        invariant
            i <= cs@.len(),
            cs@ == s@,
            out@ == start + seq!['"'] + json_chars(cs@.take(i as int)),
        decreases cs@.len() - i,
    {
        assert(cs@.take(i + 1).drop_last() =~= cs@.take(i as int));
        push_json_char(out, cs[i]);
        i += 1;
    }
    assert(cs@.take(cs@.len() as int) =~= cs@);
    out.push('"');
    assert(out@ =~= start + json_string(s@));
}

/// `s` as a JSON string literal.
pub fn json_string_of(s: &str) -> (t: String)
    ensures
        t@ == json_string(s@),
{
    let mut v: Vec<char> = Vec::new();
    push_json_string(&mut v, s);
    assert(v@ =~= json_string(s@));
    string_of(&v)
}

} // verus!
