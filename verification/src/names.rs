//! Identifiers, environment variable names and paths of the configuration.
use vstd::prelude::*;
use crate::codes::{Diagnostic, BrokerErrorCode};
use crate::text::{string_of, contains_char, utf8_len};

verus! {

pub open spec fn is_ascii_alpha(c: char) -> bool {
    ('a' <= c && c <= 'z') || ('A' <= c && c <= 'Z')
}

pub open spec fn is_ascii_alnum(c: char) -> bool {
    is_ascii_alpha(c) || ('0' <= c && c <= '9')
}

/// A character of a tool name or target ID.
pub open spec fn is_id_char(c: char) -> bool {
    is_ascii_alnum(c) || c == '_' || c == '-' || c == '.'
}

/// A tool name or target ID: 1 to 128 ASCII letters, digits, `_`, `-` or `.`.
pub open spec fn id_ok(s: Seq<char>) -> bool {
    &&& 1 <= s.len() <= 128
    &&& forall|i: int| 0 <= i < s.len() ==> is_id_char(#[trigger] s[i])
}

fn id_char(c: char) -> (r: bool)
    ensures
        r == is_id_char(c),
{
    ('a' <= c && c <= 'z') || ('A' <= c && c <= 'Z') || ('0' <= c && c <= '9') || c == '_' || c == '-' || c == '.'
}

/// Checks a tool name or target ID.
pub fn validate_id(id: &str, path: &str) -> (r: Result<(), Diagnostic>)
    ensures
        r is Ok <==> id_ok(id@),
        r matches Err(d) ==> d.code == BrokerErrorCode::InvalidArguments && d.path@ == path@
            && d.message@ == "must be 1..128 ASCII identifier characters"@,
{
    let mut n: usize = 0;
    for c in it: id.chars()
        invariant
            it.seq() == id@,
            n == it.index(),
            n <= 128,
            forall|i: int| 0 <= i < n ==> is_id_char(#[trigger] id@[i]),
    {
        if n >= 128 || !id_char(c) {
            return Err(Diagnostic::invalid(path, "must be 1..128 ASCII identifier characters"));
        }
        n += 1;
    }
    if n == 0 {
        return Err(Diagnostic::invalid(path, "must be 1..128 ASCII identifier characters"));
    }
    Ok(())
}

/// An environment variable name: an ASCII letter or `_`, then ASCII letters,
/// digits or `_`.
pub open spec fn env_name_ok(s: Seq<char>) -> bool {
    &&& s.len() >= 1
    &&& (is_ascii_alpha(s[0]) || s[0] == '_')
    &&& forall|i: int| 1 <= i < s.len() ==> (is_ascii_alnum(#[trigger] s[i]) || s[i] == '_')
}

/// Checks an environment variable name.
pub fn validate_env_name(name: &str, path: &str) -> (r: Result<(), Diagnostic>)
    ensures
        r is Ok <==> env_name_ok(name@),
        r matches Err(d) ==> d.code == BrokerErrorCode::InvalidArguments && d.path@ == path@
            && d.message@ == "invalid environment variable name"@,
{
    let mut first = true;
    for c in it: name.chars()
        invariant
            it.seq() == name@,
            first == (it.index() == 0),
            !first ==> (is_ascii_alpha(name@[0]) || name@[0] == '_'),
            forall|i: int| 1 <= i < it.index() ==> (is_ascii_alnum(#[trigger] name@[i]) || name@[i] == '_'),
    {
        let ok = if first {
            ('a' <= c && c <= 'z') || ('A' <= c && c <= 'Z') || c == '_'
        } else {
            ('a' <= c && c <= 'z') || ('A' <= c && c <= 'Z') || ('0' <= c && c <= '9') || c == '_'
        };
        if !ok {
            return Err(Diagnostic::invalid(path, "invalid environment variable name"));
        }
        first = false;
    }
    if first {
        return Err(Diagnostic::invalid(path, "invalid environment variable name"));
    }
    Ok(())
}

/// A non-empty absolute path without NUL.
pub open spec fn absolute_path_ok(s: Seq<char>) -> bool {
    &&& s.len() >= 1
    &&& s[0] == '/'
    &&& !s.contains('\0')
}

/// Checks an absolute path and copies it.
pub fn absolute_path(value: &str, path: &str) -> (r: Result<String, Diagnostic>)
    ensures
        r is Ok <==> absolute_path_ok(value@),
        r matches Ok(p) ==> p@ == value@,
        r matches Err(d) ==> d.code == BrokerErrorCode::InvalidArguments && d.path@ == path@
            && d.message@ == "must be a non-empty absolute path without NUL"@,
{
    let mut first: Option<char> = None;
    for c in it: value.chars()
        invariant
            it.seq() == value@,
            it.index() == 0 <==> first is None,
            first matches Some(f) ==> f == value@[0],
    {
        if first.is_none() {
            first = Some(c);
        }
    }
    let starts = match first {
        Some(c) => c == '/',
        None => false,
    };
    if !starts || contains_char(value, '\0') {
        return Err(Diagnostic::invalid(path, "must be a non-empty absolute path without NUL"));
    }
    Ok(string_of(value))
}

/// An upstream tool name: 1 to 128 bytes of UTF-8 without NUL.
pub open spec fn mcp_tool_name_ok(s: Seq<char>) -> bool {
    &&& s.len() >= 1
    &&& utf8_len(s) <= 128
    &&& !s.contains('\0')
}

/// Checks an upstream tool name and copies it.
pub fn validate_mcp_tool_name(value: &str, path: &str) -> (r: Result<String, Diagnostic>)
    ensures
        r is Ok <==> mcp_tool_name_ok(value@),
        r matches Ok(p) ==> p@ == value@,
        r matches Err(d) ==> d.code == BrokerErrorCode::InvalidArguments && d.path@ == path@
            && d.message@ == "upstream tool name must be 1..128 bytes without NUL"@,
{
    if value.is_empty() || value.len() > 128 || contains_char(value, '\0') {
        return Err(Diagnostic::invalid(path, "upstream tool name must be 1..128 bytes without NUL"));
    }
    Ok(string_of(value))
}

} // verus!
