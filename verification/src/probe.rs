//! The local HTTP exchanges with the running proxy: the health probe and the
//! refresh request, and how their answers are read.
use vstd::prelude::*;

use crate::clash::health_ok;
use crate::clash::health_response_ok;
use crate::port_owners::{lines_of, split_lines};
use crate::projects::{json_parses, parse_json_value};
use crate::text::{
    chars_of, has_prefix, is_err_with, joined, matches_at, occurs_at, owned, push_decimal,
    string_from_chars, sub_chars, trim, trim_bounds, decimal, contains, contains_seq,
};

verus! {

broadcast use vstd::string::group_string_axioms;

// ---------------------------------------------------------------------------
// Requests
// ---------------------------------------------------------------------------
/// The health probe sent to the proxy on `port`.
pub open spec fn health_request_text(port: u16) -> Seq<char> {
    "GET /health HTTP/1.1\r\nHost: 127.0.0.1:"@ + decimal(port as nat)
        + "\r\nConnection: close\r\n\r\n"@
}

/// The health probe for the proxy on `port`.
pub fn health_request(port: u16) -> (s: String)
    ensures
        s@ == health_request_text(port),
{
    let mut s = owned("GET /health HTTP/1.1\r\nHost: 127.0.0.1:");
    push_decimal(&mut s, port as u64);
    s.append("\r\nConnection: close\r\n\r\n");
    s
}

/// The empty-bodied POST of `path` sent to the proxy on `port`.
pub open spec fn post_request_text(port: u16, path: Seq<char>) -> Seq<char> {
    "POST "@ + path + " HTTP/1.1\r\nHost: 127.0.0.1:"@ + decimal(port as nat)
        + "\r\nContent-Length: 0\r\nConnection: close\r\n\r\n"@
}

/// An empty-bodied POST of `path` for the proxy on `port`.
pub fn post_request(port: u16, path: &str) -> (s: String)
    ensures
        s@ == post_request_text(port, path@),
{
    let mut s = owned("POST ");
    s.append(path);
    s.append(" HTTP/1.1\r\nHost: 127.0.0.1:");
    push_decimal(&mut s, port as u64);
    s.append("\r\nContent-Length: 0\r\nConnection: close\r\n\r\n");
    proof {
        assert(s@ =~= post_request_text(port, path@));
    }
    s
}

/// The message when nothing answers on `port`.
pub open spec fn not_listening_text(port: u16) -> Seq<char> {
    "端口 "@ + decimal(port as nat) + " 未监听到服务"@
}

/// The message when nothing answers on `port`.
pub fn not_listening_message(port: u16) -> (s: String)
    ensures
        s@ == not_listening_text(port),
{
    let mut s = owned("端口 ");
    push_decimal(&mut s, port as u64);
    s.append(" 未监听到服务");
    s
}

/// The verdict on a health probe's answer.
pub fn health_outcome(resp: &str) -> (r: Result<(), String>)
    ensures
        health_ok(resp@) ==> r is Ok,
        !health_ok(resp@) ==> is_err_with(r, "服务响应不符合预期"@),
{
    if health_response_ok(resp) {
        Ok(())
    } else {
        Err(owned("服务响应不符合预期"))
    }
}

// ---------------------------------------------------------------------------
// Reading an HTTP answer
// ---------------------------------------------------------------------------
/// The first position at or after `i` where `p` occurs in `s`.
pub open spec fn occurrence_from(s: Seq<char>, p: Seq<char>, i: int) -> Option<int>
    decreases s.len() + 1 - i,
{
    if i < 0 || i + p.len() > s.len() {
        None
    } else if occurs_at(s, p, i) {
        Some(i)
    } else {
        occurrence_from(s, p, i + 1)
    }
}

/// The second piece of `s` split at `sep` (`str::split(sep).nth(1)`): what lies
/// between the first occurrence of `sep` and the next (or the end).
pub open spec fn second_piece(s: Seq<char>, sep: Seq<char>) -> Option<Seq<char>> {
    match occurrence_from(s, sep, 0) {
        None => None,
        Some(i) => {
            let rest = s.skip(i + sep.len());
            match occurrence_from(rest, sep, 0) {
                Some(j) => Some(rest.take(j)),
                None => Some(rest),
            }
        },
    }
}

/// The body of an HTTP answer: after the blank line ending the head (CRLF or
/// bare LF), trimmed; empty when there is none.
pub open spec fn response_body(resp: Seq<char>) -> Seq<char> {
    trim(
        match second_piece(resp, "\r\n\r\n"@) {
            Some(b) => b,
            None => match second_piece(resp, "\n\n"@) {
                Some(b) => b,
                None => Seq::empty(),
            },
        },
    )
}

/// The first line of an HTTP answer (its status line), or "unknown".
pub open spec fn status_line(resp: Seq<char>) -> Seq<char> {
    if split_lines(resp).len() > 0 {
        split_lines(resp)[0]
    } else {
        "unknown"@
    }
}

proof fn lemma_occurrence_found(s: Seq<char>, p: Seq<char>, i: int)
    ensures
        occurrence_from(s, p, i) matches Some(k) ==> i <= k && occurs_at(s, p, k),
    decreases s.len() + 1 - i,
{
    if !(i < 0 || i + p.len() > s.len()) && !occurs_at(s, p, i) {
        lemma_occurrence_found(s, p, i + 1);
    }
}

/// The first position at or after `from` where `p` occurs in `v`.
fn find_from(v: &Vec<char>, p: &Vec<char>, from: usize) -> (r: Option<usize>)
    requires
        p@.len() > 0,
    ensures
        match r {
            Some(i) => occurrence_from(v@, p@, from as int) == Some(i as int),
            None => occurrence_from(v@, p@, from as int) is None,
        },
    decreases v@.len() - from,
{
    if from > v.len() || p.len() > v.len() - from {
        return None;
    }
    if matches_at(v, p, from) {
        return Some(from);
    }
    find_from(v, p, from + 1)
}

/// The second piece of `v` split at `sep`.
fn second_piece_of(v: &Vec<char>, sep: &Vec<char>) -> (r: Option<Vec<char>>)
    requires
        sep@.len() > 0,
    ensures
        match r {
            Some(b) => second_piece(v@, sep@) == Some(b@),
            None => second_piece(v@, sep@) is None,
        },
{
    match find_from(v, sep, 0) {
        None => None,
        Some(i) => {
            proof {
                lemma_occurrence_found(v@, sep@, 0);
                assert(occurrence_from(v@, sep@, 0) == Some(i as int));
                assert(occurs_at(v@, sep@, i as int));
                assert(i + sep@.len() <= v@.len());
                assert(sep@.len() == sep.len());
                assert(v@.len() == v.len());
            }
            let start = i + sep.len();
            let rest = sub_chars(v, start, v.len());
            assert(rest@ =~= v@.skip(start as int));
            match find_from(&rest, sep, 0) {
                Some(j) => {
                    proof {
                        lemma_occurrence_found(rest@, sep@, 0);
                    }
                    let piece = sub_chars(&rest, 0, j);
                    assert(piece@ =~= rest@.take(j as int));
                    Some(piece)
                },
                None => Some(rest),
            }
        },
    }
}

/// The body of an HTTP answer (see `response_body`).
pub fn body_of(resp: &str) -> (s: String)
    ensures
        s@ == response_body(resp@),
{
    let v = chars_of(resp);
    proof {
        reveal_strlit("\r\n\r\n");
        reveal_strlit("\n\n");
    }
    let piece = match second_piece_of(&v, &chars_of("\r\n\r\n")) {
        Some(b) => b,
        None => match second_piece_of(&v, &chars_of("\n\n")) {
            Some(b) => b,
            None => Vec::new(),
        },
    };
    let (lo, hi) = trim_bounds(&piece);
    string_from_chars(&sub_chars(&piece, lo, hi))
}

/// The message prefix of an answer that is not HTTP 200.
pub open spec fn http_error_prefix() -> Seq<char> {
    "HTTP 错误: "@
}

/// The message prefix of a body that is not JSON.
pub open spec fn bad_json_prefix() -> Seq<char> {
    "解析响应失败: "@
}

/// Reads the proxy's answer to a POST: an answer without `200 OK` is an error
/// naming its status line; otherwise its body must parse as JSON.
pub fn read_json_response(resp: &str) -> (r: Result<serde_json::Value, String>)
    ensures
        !contains_seq(resp@, "200 OK"@) ==> is_err_with(r, http_error_prefix() + status_line(resp@)),
        contains_seq(resp@, "200 OK"@) ==> (r is Ok <==> json_parses(response_body(resp@))),
        contains_seq(resp@, "200 OK"@) ==> (r matches Err(e) ==> has_prefix(e@, bad_json_prefix())),
{
    let body = body_of(resp);
    let v = chars_of(resp);
    if !contains(&v, &chars_of("200 OK")) {
        let lines = lines_of(&v);
        let first = if lines.len() > 0 {
            proof {
                assert(lines@.map_values(|l: Vec<char>| l@)[0] == lines@[0]@);
            }
            string_from_chars(&lines[0])
        } else {
            owned("unknown")
        };
        return Err(joined("HTTP 错误: ", first.as_str()));
    }
    match parse_json_value(body.as_str()) {
        Ok(value) => Ok(value),
        Err(e) => {
            let m = joined("解析响应失败: ", e.as_str());
            assert(m@.take(bad_json_prefix().len() as int) =~= bad_json_prefix());
            Err(m)
        },
    }
}

} // verus!
