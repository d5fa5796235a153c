//! CSS selectors: the probe script evaluated in the page while waiting for
//! one, the decision taken after each probe, and what a query that matched
//! nothing is answered.
use vstd::prelude::*;
use vstd::string::StringExecFns;
use crate::text::{decimal, push_decimal, push_str};

verus! {

/// A JSON serialization error.
#[verifier::external_type_specification]
#[verifier::external_body]
pub struct ExJsonError(serde_json::Error);

/// The lowercase hexadecimal digit for `d < 16`.
pub open spec fn hex_digit(d: nat) -> char {
    if d < 10 {
        ((48 + d) as u32) as char
    } else {
        ((87 + d) as u32) as char
    }
}

/// How `serde_json` writes one character inside a JSON string: quote and
/// backslash escaped, the five control characters with short escapes
/// written so, other control characters as `\u00XX` in lowercase hex, and
/// everything else as it is.
pub open spec fn json_escape_char(c: char) -> Seq<char> {
    let u = c as u32;
    if c == '"' {
        seq!['\\', '"']
    } else if c == '\\' {
        seq!['\\', '\\']
    } else if u == 8 {
        seq!['\\', 'b']
    } else if u == 9 {
        seq!['\\', 't']
    } else if u == 10 {
        seq!['\\', 'n']
    } else if u == 12 {
        seq!['\\', 'f']
    } else if u == 13 {
        seq!['\\', 'r']
    } else if u < 32 {
        seq!['\\', 'u', '0', '0', hex_digit((u / 16) as nat), hex_digit((u % 16) as nat)]
    } else {
        seq![c]
    }
}

/// The escaped characters of `s`.
pub open spec fn json_escaped(s: Seq<char>) -> Seq<char>
    decreases s.len(),
{
    if s.len() == 0 {
        Seq::empty()
    } else {
        json_escaped(s.drop_last()) + json_escape_char(s.last())
    }
}

/// The JSON string literal of `s`.
pub open spec fn json_string_literal(s: Seq<char>) -> Seq<char> {
    seq!['"'] + json_escaped(s) + seq!['"']
}

/// `serde_json::to_string` of a string slice: the quoted string with
/// `serde_json`'s escapes. It succeeds: a string is written into an
/// in-memory `Vec<u8>`, and the only errors on that path are the writer's,
/// which a `Vec` never returns.
#[verifier::external_body]
fn json_quote(s: &str) -> (r: Result<String, serde_json::Error>)
    ensures
        r is Ok,
        r matches Ok(j) ==> j@ == json_string_literal(s@),
{
    serde_json::to_string(s)
}

/// The script that tells whether an element matches `selector`.
pub open spec fn probe_script(selector: Seq<char>) -> Seq<char> {
    "document.querySelector("@ + json_string_literal(selector) + ") !== null"@
}

/// The probe script around an already quoted selector literal.
pub fn probe_script_for(quoted: &str) -> (s: String)
    ensures
        s@ == "document.querySelector("@ + quoted@ + ") !== null"@,
{
    let mut s = String::from_str("document.querySelector(");
    push_str(&mut s, quoted);
    push_str(&mut s, ") !== null");
    s
}

/// The script evaluated in the page to test for the selector: the selector
/// goes in as a JSON string literal. Quoting a string never fails, so the
/// result is always `Ok`.
pub fn wait_probe_script(selector: &str) -> (r: Result<String, serde_json::Error>)
    ensures
        r is Ok,
        r matches Ok(s) ==> s@ == probe_script(selector@),
{
    let quoted = json_quote(selector)?;
    Ok(probe_script_for(quoted.as_str()))
}

/// What to do after a probe.
#[derive(Debug, Clone, Copy, PartialEq, Eq, Structural)]
pub enum WaitStep {
    /// The element is there.
    Found,
    /// The deadline passed without it.
    TimedOut,
    /// Sleep and probe again.
    Poll,
}

/// After a probe: done when the element was found, failed when the deadline
/// has passed, otherwise poll again.
pub fn wait_step(found: bool, deadline_passed: bool) -> (s: WaitStep)
    ensures
        s == if found {
            WaitStep::Found
        } else if deadline_passed {
            WaitStep::TimedOut
        } else {
            WaitStep::Poll
        },
{
    if found {
        WaitStep::Found
    } else if deadline_passed {
        WaitStep::TimedOut
    } else {
        WaitStep::Poll
    }
}

/// The error reported when the selector never matched before the deadline.
pub open spec fn wait_timeout_text(selector: Seq<char>, timeout_ms: nat) -> Seq<char> {
    "Timeout waiting for selector '"@ + selector + "' after "@ + decimal(timeout_ms) + "ms"@
}

/// The error text for `WaitStep::TimedOut`.
pub fn wait_timeout_message(selector: &str, timeout_ms: u64) -> (m: String)
    ensures
        m@ == wait_timeout_text(selector@, timeout_ms as nat),
{
    let mut m = String::new();
    push_str(&mut m, "Timeout waiting for selector '");
    push_str(&mut m, selector);
    push_str(&mut m, "' after ");
    push_decimal(&mut m, timeout_ms);
    push_str(&mut m, "ms");
    assert(m@ =~= wait_timeout_text(selector@, timeout_ms as nat));
    m
}

/// The error for a selector that matched no element.
pub open spec fn no_match_text(selector: Seq<char>) -> Seq<char> {
    "No element matching selector '"@ + selector + "'"@
}

/// The element found by a DOM query: the browser answers node id 0 when
/// nothing matched, which is an error naming the selector.
pub fn matched_node(node_id: i64, selector: &str) -> (r: Result<i64, String>)
    ensures
        match r {
            Ok(id) => node_id != 0 && id == node_id,
            Err(m) => node_id == 0 && m@ == no_match_text(selector@),
        },
{
    if node_id == 0 {
        let mut m = String::new();
        push_str(&mut m, "No element matching selector '");
        push_str(&mut m, selector);
        push_str(&mut m, "'");
        assert(m@ =~= no_match_text(selector@));
        return Err(m);
    }
    Ok(node_id)
}

} // verus!
