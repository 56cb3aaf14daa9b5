//! Web serving decisions: which bundled files answer a path, how websocket errors are
//! classed, and how view errors become HTTP answers.
use vstd::prelude::*;

use crate::text::{
    ascii_lower_seq, chars_of, contains_chars, contains_seq, lower_chars, push_chars, string_of,
    string_push, trim_chars, trimmed,
};
use crate::views::ViewManagerError;

verus! {

/// Whether a websocket error message tells of the peer going away: it contains, without
/// regard to ASCII case, "connection reset without closing handshake", "connection reset
/// by peer", "broken pipe" or "connection closed".
pub open spec fn expected_disconnect(message: Seq<char>) -> bool {
    let m = ascii_lower_seq(message);
    ||| contains_seq(m, "connection reset without closing handshake"@)
    ||| contains_seq(m, "connection reset by peer"@)
    ||| contains_seq(m, "broken pipe"@)
    ||| contains_seq(m, "connection closed"@)
}

/// Whether `message` tells of the peer going away (see `expected_disconnect`).
pub fn is_expected_disconnect_error(message: &str) -> (r: bool)
    ensures
        r == expected_disconnect(message@),
{
    let v = chars_of(message);
    let m = lower_chars(v.as_slice());
    let a = chars_of("connection reset without closing handshake");
    let b = chars_of("connection reset by peer");
    let c = chars_of("broken pipe");
    let d = chars_of("connection closed");
    contains_chars(m.as_slice(), a.as_slice()) || contains_chars(m.as_slice(), b.as_slice())
        || contains_chars(m.as_slice(), c.as_slice()) || contains_chars(m.as_slice(), d.as_slice())
}

/// `s` without the '/' characters it starts with.
pub open spec fn trim_start_slashes(s: Seq<char>) -> Seq<char>
    decreases s.len(),
{
    if s.len() > 0 && s[0] == '/' {
        trim_start_slashes(s.drop_first())
    } else {
        s
    }
}

/// The file path a request path stands for: without leading '/' and surrounding white
/// space, "index.html" when nothing is left.
pub open spec fn static_path(path: Seq<char>) -> Seq<char> {
    let n = trimmed(trim_start_slashes(path));
    if n.len() == 0 {
        "index.html"@
    } else {
        n
    }
}

/// The files tried for a request path, in order: the path itself; then its index page
/// ("{path}index.html" when it ends with '/', "{path}/index.html" otherwise); then, when
/// it has no '.', "{path}.html".
pub open spec fn static_candidates(path: Seq<char>) -> Seq<Seq<char>> {
    let n = static_path(path);
    let index = if n.len() > 0 && n.last() == '/' {
        n + "index.html"@
    } else {
        n + "/index.html"@
    };
    if n.contains('.') {
        seq![n, index]
    } else {
        seq![n, index, n + ".html"@]
    }
}

/// How a request path is served: the files to try in order, and whether, when none
/// exists, the application's index page is served (only for paths without '.'; a
/// missing asset is answered 404 instead).
pub struct StaticPlan {
    pub candidates: Vec<String>,
    pub spa_fallback: bool,
}

fn trim_leading_slashes(v: &Vec<char>) -> (r: Vec<char>)
    ensures
        r@ == trim_start_slashes(v@),
{
    let mut k: usize = 0;
    proof {
        assert(v@.skip(0) =~= v@);
    }
    while k < v.len() && v[k] == '/'
        invariant
            k <= v.len(),
            trim_start_slashes(v@) == trim_start_slashes(v@.skip(k as int)),
        decreases v.len() - k,
    {
        proof {
            assert(v@.skip(k as int).drop_first() =~= v@.skip(k + 1));
        }
        k += 1;
    }
    let mut r: Vec<char> = Vec::new();
    let mut i: usize = k;
    while i < v.len()
        invariant
            k <= i <= v.len(),
            r@ == v@.subrange(k as int, i as int),
        decreases v.len() - i,
    {
        r.push(v[i]);
        proof {
            assert(v@.subrange(k as int, i + 1) =~= v@.subrange(k as int, i as int).push(v@[i as int]));
        }
        i += 1;
    }
    proof {
        assert(v@.subrange(k as int, v@.len() as int) =~= v@.skip(k as int));
    }
    r
}

fn has_dot(v: &Vec<char>) -> (r: bool)
    ensures
        r == v@.contains('.'),
{
    let mut i: usize = 0;
    while i < v.len()
        invariant
            i <= v.len(),
            forall|j: int| 0 <= j < i ==> v@[j] != '.',
        decreases v.len() - i,
    {
        if v[i] == '.' {
            proof {
                assert(v@[i as int] == '.');
            }
            return true;
        }
        i += 1;
    }
    false
}

/// The files to try for request path `path` (see `static_candidates`).
pub fn static_plan(path: &str) -> (p: StaticPlan)
    ensures
        p.candidates@.len() == static_candidates(path@).len(),
        forall|i: int| 0 <= i < p.candidates@.len() ==> (#[trigger] p.candidates@[i])@
            == static_candidates(path@)[i],
        p.spa_fallback == !static_path(path@).contains('.'),
{
    let v = chars_of(path);
    let s = trim_leading_slashes(&v);
    let t = trim_chars(s.as_slice());
    let n: Vec<char> = if t.len() == 0 {
        let x = chars_of("index.html");
        x
    } else {
        t
    };
    let first = string_of(n.as_slice());
    let mut index = string_of(n.as_slice());
    if n.len() > 0 && n[n.len() - 1] == '/' {
        let x = chars_of("index.html");
        push_chars(&mut index, x.as_slice());
    } else {
        let x = chars_of("/index.html");
        push_chars(&mut index, x.as_slice());
    }
    let dotted = has_dot(&n);
    let mut candidates: Vec<String> = Vec::new();
    candidates.push(first);
    candidates.push(index);
    if !dotted {
        let mut html = string_of(n.as_slice());
        let x = chars_of(".html");
        push_chars(&mut html, x.as_slice());
        candidates.push(html);
    }
    StaticPlan { candidates, spa_fallback: !dotted }
}

/// The status code and message a view error is answered with.
pub open spec fn view_error_answer(e: ViewManagerError) -> (u16, Seq<char>) {
    match e {
        ViewManagerError::NotFound => (404, "View not found"@),
        ViewManagerError::DuplicateName(n) => (409, "View name \""@ + n@ + "\" already exists"@),
        ViewManagerError::Validation(m) => (400, m@),
        ViewManagerError::Database(m) => (500, "Database error: "@ + m@),
    }
}

/// The HTTP status and message for a view error (see `view_error_answer`).
pub fn map_view_error(e: ViewManagerError) -> (r: (u16, String))
    ensures
        (r.0, r.1@) == view_error_answer(e),
{
    match e {
        ViewManagerError::NotFound => (404, "View not found".to_owned()),
        ViewManagerError::DuplicateName(n) => {
            let mut m = "View name \"".to_owned();
            let v = chars_of(n.as_str());
            push_chars(&mut m, v.as_slice());
            let t = chars_of("\" already exists");
            push_chars(&mut m, t.as_slice());
            (409, m)
        },
        ViewManagerError::Validation(m) => (400, m),
        ViewManagerError::Database(d) => {
            let mut m = "Database error: ".to_owned();
            let v = chars_of(d.as_str());
            push_chars(&mut m, v.as_slice());
            (500, m)
        },
    }
}

/// The error a failed write of view `name` becomes: a unique-constraint violation whose
/// message names the "views.name" column (without regard to ASCII case) is a duplicate
/// name; anything else is a database error with the database's text.
pub fn unique_violation_error(violation: Option<&str>, db_error: String, name: &str) -> (e: ViewManagerError)
    ensures
        match violation {
            Some(m) => if contains_seq(ascii_lower_seq(m@), "views.name"@) {
                e matches ViewManagerError::DuplicateName(n) && n@ == name@
            } else {
                e == ViewManagerError::Database(db_error)
            },
            None => e == ViewManagerError::Database(db_error),
        },
{
    match violation {
        Some(m) => {
            let v = chars_of(m);
            let l = lower_chars(v.as_slice());
            let p = chars_of("views.name");
            if contains_chars(l.as_slice(), p.as_slice()) {
                ViewManagerError::DuplicateName(name.to_owned())
            } else {
                ViewManagerError::Database(db_error)
            }
        },
        None => ViewManagerError::Database(db_error),
    }
}

/// The text a view error is shown with: the message of `view_error_answer`.
pub fn view_error_message(e: ViewManagerError) -> (m: String)
    ensures
        m@ == view_error_answer(e).1,
{
    map_view_error(e).1
}

/// A frame read from a websocket.
pub enum Frame {
    Binary,
    Text,
    Ping,
    Close,
    Other,
}

/// What reading from a websocket gave.
pub enum Incoming {
    Frame(Frame),
    /// A read error, by its message.
    ReadError(String),
    /// The stream ended.
    Ended,
}

/// What a websocket session does with what it read.
pub enum WsAction {
    /// Decode the frame as a command, run it, and answer in a frame of the same kind;
    /// `as_json` tells a text frame from a binary one.
    Execute { as_json: bool },
    /// Answer a ping with a pong carrying the same payload.
    Pong,
    /// Ignore the frame.
    Skip,
    /// End the session; `expected` tells a peer going away from a fault.
    Stop { expected: bool },
}

/// The session's answer to what it read: commands in binary and text frames are run,
/// pings answered, close frames, read errors and the end of the stream end the session,
/// anything else is ignored.
pub fn on_incoming(i: &Incoming) -> (a: WsAction)
    ensures
        match i {
            Incoming::Frame(Frame::Binary) => a == WsAction::Execute { as_json: false },
            Incoming::Frame(Frame::Text) => a == WsAction::Execute { as_json: true },
            Incoming::Frame(Frame::Ping) => a == WsAction::Pong,
            Incoming::Frame(Frame::Close) => a == WsAction::Stop { expected: true },
            Incoming::Frame(Frame::Other) => a == WsAction::Skip,
            Incoming::ReadError(m) => a == WsAction::Stop { expected: expected_disconnect(m@) },
            Incoming::Ended => a == WsAction::Stop { expected: true },
        },
{
    match i {
        Incoming::Frame(Frame::Binary) => WsAction::Execute { as_json: false },
        Incoming::Frame(Frame::Text) => WsAction::Execute { as_json: true },
        Incoming::Frame(Frame::Ping) => WsAction::Pong,
        Incoming::Frame(Frame::Close) => WsAction::Stop { expected: true },
        Incoming::Frame(Frame::Other) => WsAction::Skip,
        Incoming::ReadError(m) => WsAction::Stop { expected: is_expected_disconnect_error(m.as_str()) },
        Incoming::Ended => WsAction::Stop { expected: true },
    }
}

} // verus!
