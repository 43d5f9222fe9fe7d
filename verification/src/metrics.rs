//! The Prometheus exporter's request handling: which requests get the
//! metrics and what the response head says. The listener and the metric
//! values live with the front end.

use vstd::prelude::*;

use crate::text::{
    append, chars_of, dec_text, lemma_split_nonempty, lines, owned, split_chars, split_lines,
    split_on, split_words, string_of, u64_text, views, words,
};

verus! {

/// The response to any request for another path.
pub const NOT_FOUND_RESPONSE: &'static str =
    "HTTP/1.1 404 Not Found\r\nContent-Length: 0\r\nConnection: close\r\n\r\n";

/// The path a request asks for: the second word of its first line, without
/// any query; empty when there is none.
pub open spec fn spec_request_target(req: Seq<char>) -> Seq<char> {
    let ls = lines(req);
    if ls.len() == 0 {
        Seq::empty()
    } else {
        let ws = words(ls[0]);
        if ws.len() < 2 {
            Seq::empty()
        } else {
            split_on(ws[1], '?')[0]
        }
    }
}

/// The path a request asks for.
pub fn request_target(req: &str) -> (t: String)
    ensures
        t@ == spec_request_target(req@),
{
    let cs = chars_of(req);
    let ls = split_lines(&cs);
    if ls.len() == 0 {
        return String::new();
    }
    assert(views(ls@)[0] == ls@[0]@);
    let ws = split_words(&ls[0]);
    if ws.len() < 2 {
        return String::new();
    }
    assert(views(ws@)[1] == ws@[1]@);
    let parts = split_chars(&ws[1], '?');
    proof {
        lemma_split_nonempty(ws@[1]@, '?');
    }
    assert(views(parts@)[0] == parts@[0]@);
    string_of(&parts[0])
}

/// Whether a request asks for the metrics at `path`.
pub fn wants_metrics(req: &str, path: &str) -> (b: bool)
    ensures
        b == (spec_request_target(req@) == path@),
{
    let t = request_target(req);
    crate::text::str_eq(t.as_str(), path)
}

/// The head of the response that carries `len` bytes of metrics of type
/// `content_type`.
pub open spec fn ok_head_text(content_type: Seq<char>, len: nat) -> Seq<char> {
    "HTTP/1.1 200 OK\r\nContent-Type: "@ + content_type + "\r\nContent-Length: "@ + dec_text(len)
        + "\r\nConnection: close\r\n\r\n"@
}

pub fn ok_head(content_type: &str, len: usize) -> (h: String)
    ensures
        h@ == ok_head_text(content_type@, len as nat),
{
    let mut h = owned("HTTP/1.1 200 OK\r\nContent-Type: ");
    append(&mut h, content_type);
    append(&mut h, "\r\nContent-Length: ");
    append(&mut h, u64_text(len as u64).as_str());
    append(&mut h, "\r\nConnection: close\r\n\r\n");
    h
}

} // verus!
