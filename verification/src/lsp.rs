//! The language server's protocol rules: which messages are answered in
//! which session state and how, the exit code, positions in UTF-16 code
//! units against byte offsets, and the identifier under the cursor.
use vstd::prelude::*;

use crate::text::push_str;

verus! {

// ---------------------------------------------------------------------------
// Session state.
// ---------------------------------------------------------------------------

/// Where a session stands.
#[derive(Debug, Clone, Copy, PartialEq, Eq, Structural)]
pub struct Session {
    /// `initialize` was answered.
    pub initialized: bool,
    /// `shutdown` was answered.
    pub shutdown: bool,
    /// `exit` arrived.
    pub exited: bool,
}

/// What to do with one message.
#[derive(Debug, Clone, PartialEq, Eq)]
pub enum Route {
    /// Nothing is written back.
    Ignore,
    /// Answer with the server's capabilities.
    Capabilities,
    /// Answer with a `null` result.
    NullResult,
    /// Answer with a JSON-RPC error.
    Error { code: i64, message: String },
    /// Hand the message to its handler.
    Handle(Handler),
}

/// The handlers of document messages.
#[derive(Debug, Clone, Copy, PartialEq, Eq, Structural)]
pub enum Handler {
    DidOpen,
    DidChange,
    DidClose,
    DocumentSymbol,
    Hover,
    Definition,
}

/// A route as plain values: the error code and text where there is one.
pub enum RouteView {
    Ignore,
    Capabilities,
    NullResult,
    Error(i64, Seq<char>),
    Handle(Handler),
}

pub open spec fn route_view(r: Route) -> RouteView {
    match r {
        Route::Ignore => RouteView::Ignore,
        Route::Capabilities => RouteView::Capabilities,
        Route::NullResult => RouteView::NullResult,
        Route::Error { code, message } => RouteView::Error(code, message@),
        Route::Handle(h) => RouteView::Handle(h),
    }
}

/// The handler of a method of an initialized, running session.
pub open spec fn handler_of(method: Seq<char>) -> Option<Handler> {
    if method == "textDocument/didOpen"@ {
        Some(Handler::DidOpen)
    } else if method == "textDocument/didChange"@ {
        Some(Handler::DidChange)
    } else if method == "textDocument/didClose"@ {
        Some(Handler::DidClose)
    } else if method == "textDocument/documentSymbol"@ {
        Some(Handler::DocumentSymbol)
    } else if method == "textDocument/hover"@ {
        Some(Handler::Hover)
    } else if method == "textDocument/definition"@ {
        Some(Handler::Definition)
    } else {
        None
    }
}

/// The next session state and the route of a message with `method`, which
/// is a request when it carries an id (`request`) and a notification else:
/// `exit` ends the session; before `initialize` only `initialize` is
/// answered and requests are refused; after `shutdown` requests are
/// invalid; otherwise each method goes to its handler, and unknown
/// requests are refused.
pub open spec fn next(s: Session, method: Seq<char>, request: bool) -> (Session, RouteView) {
    if method == "exit"@ {
        (Session { exited: true, ..s }, RouteView::Ignore)
    } else if !s.initialized {
        if method == "initialize"@ {
            (Session { initialized: true, ..s }, RouteView::Capabilities)
        } else if request {
            (s, RouteView::Error(-32002i64, "Server not initialized"@))
        } else {
            (s, RouteView::Ignore)
        }
    } else if s.shutdown {
        if request {
            (s, RouteView::Error(-32600i64, "Invalid Request"@))
        } else {
            (s, RouteView::Ignore)
        }
    } else if method == "initialize"@ {
        (s, RouteView::Capabilities)
    } else if method == "initialized"@ {
        (s, RouteView::Ignore)
    } else if method == "shutdown"@ {
        (Session { shutdown: true, ..s }, RouteView::NullResult)
    } else if handler_of(method) is Some {
        (s, RouteView::Handle(handler_of(method)->0))
    } else if request {
        (s, RouteView::Error(-32601i64, "Method not found"@))
    } else {
        (s, RouteView::Ignore)
    }
}

fn is(method: &str, name: &str) -> (r: bool)
    ensures
        r == (method@ == name@),
{
    crate::text::str_eq(method, name)
}

fn error(code: i64, text: &str) -> (r: Route)
    ensures
        route_view(r) == RouteView::Error(code, text@),
{
    let mut message = String::new();
    push_str(&mut message, text);
    Route::Error { code, message }
}

fn handler(method: &str) -> (r: Option<Handler>)
    ensures
        r == handler_of(method@),
{
    if is(method, "textDocument/didOpen") {
        Some(Handler::DidOpen)
    } else if is(method, "textDocument/didChange") {
        Some(Handler::DidChange)
    } else if is(method, "textDocument/didClose") {
        Some(Handler::DidClose)
    } else if is(method, "textDocument/documentSymbol") {
        Some(Handler::DocumentSymbol)
    } else if is(method, "textDocument/hover") {
        Some(Handler::Hover)
    } else if is(method, "textDocument/definition") {
        Some(Handler::Definition)
    } else {
        None
    }
}

/// Takes one message of `method` (a request when `request`): updates the
/// session and says what to write back.
pub fn route(session: &mut Session, method: &str, request: bool) -> (r: Route)
    ensures
        (*final(session), route_view(r)) == next(*old(session), method@, request),
{
    if is(method, "exit") {
        session.exited = true;
        return Route::Ignore;
    }
    if !session.initialized {
        if is(method, "initialize") {
            session.initialized = true;
            return Route::Capabilities;
        }
        return if request {
            error(-32002, "Server not initialized")
        } else {
            Route::Ignore
        };
    }
    if session.shutdown {
        return if request {
            error(-32600, "Invalid Request")
        } else {
            Route::Ignore
        };
    }
    if is(method, "initialize") {
        return Route::Capabilities;
    }
    if is(method, "initialized") {
        return Route::Ignore;
    }
    if is(method, "shutdown") {
        session.shutdown = true;
        return Route::NullResult;
    }
    match handler(method) {
        Some(h) => Route::Handle(h),
        None => if request {
            error(-32601, "Method not found")
        } else {
            Route::Ignore
        },
    }
}

/// A new session: not initialized, not shut down, not exited.
pub fn new_session() -> (r: Session)
    ensures
        r == (Session { initialized: false, shutdown: false, exited: false }),
{
    Session { initialized: false, shutdown: false, exited: false }
}

/// The session ended in failure: `exit` came without `shutdown` before it.
pub fn exit_failure(session: &Session) -> (r: bool)
    ensures
        r == (session.exited && !session.shutdown),
{
    session.exited && !session.shutdown
}

/// A change to an open document takes effect only with a newer version.
pub fn change_applies(current: u64, version: u64) -> (r: bool)
    ensures
        r == (version > current),
{
    version > current
}

// ---------------------------------------------------------------------------
// Positions.
// ---------------------------------------------------------------------------

/// `char::len_utf8`: the bytes of `c` in UTF-8.
pub open spec fn utf8_len(c: char) -> nat {
    if (c as u32) < 0x80 {
        1
    } else if (c as u32) < 0x800 {
        2
    } else if (c as u32) < 0x10000 {
        3
    } else {
        4
    }
}

/// `char::len_utf16`: the UTF-16 code units of `c`.
pub open spec fn utf16_len(c: char) -> nat {
    if (c as u32) < 0x10000 {
        1
    } else {
        2
    }
}

/// The UTF-16 code units of `s`.
pub open spec fn utf16_units(s: Seq<char>) -> nat
    decreases s.len(),
{
    if s.len() == 0 {
        0
    } else {
        utf16_units(s.drop_last()) + utf16_len(s.last())
    }
}

/// The UTF-8 bytes of `s`.
pub open spec fn utf8_bytes(s: Seq<char>) -> nat
    decreases s.len(),
{
    if s.len() == 0 {
        0
    } else {
        utf8_bytes(s.drop_last()) + utf8_len(s.last())
    }
}

fn char_utf8_len(c: char) -> (r: usize)
    ensures
        r == utf8_len(c),
{
    let v = c as u32;
    if v < 0x80 {
        1
    } else if v < 0x800 {
        2
    } else if v < 0x10000 {
        3
    } else {
        4
    }
}

fn char_utf16_len(c: char) -> (r: usize)
    ensures
        r == utf16_len(c),
{
    if (c as u32) < 0x10000 {
        1
    } else {
        2
    }
}

proof fn lemma_units_bound(s: Seq<char>)
    ensures
        utf16_units(s) <= 2 * s.len(),
        utf8_bytes(s) <= 4 * s.len(),
    decreases s.len(),
{
    if s.len() > 0 {
        lemma_units_bound(s.drop_last());
    }
}

/// The column of the end of `before` (the text of a line up to a
/// position) in UTF-16 code units, as LSP counts columns.
pub fn utf16_column(before: &str) -> (r: usize)
    requires
        2 * before@.len() <= usize::MAX,
    ensures
        r == utf16_units(before@),
{
    let chars = crate::text::chars_of(before);
    let mut n: usize = 0;
    let mut i: usize = 0;
    while i < chars.len()
        invariant
            chars@ == before@,
            2 * chars@.len() <= usize::MAX,
            i <= chars@.len(),
            n == utf16_units(chars@.take(i as int)),
        decreases chars@.len() - i,
    {
        proof {
            assert(chars@.take(i + 1).drop_last() =~= chars@.take(i as int));
            lemma_units_bound(chars@.take(i as int));
        }
        n = n + char_utf16_len(chars[i]);
        i = i + 1;
    }
    assert(chars@.take(chars@.len() as int) =~= chars@);
    n
}

/// The number of leading characters of `s` taken before the UTF-16 count
/// reaches `character` (a character is taken while the count stays below).
pub open spec fn chars_before_column(s: Seq<char>, character: nat, i: nat) -> nat
    decreases s.len() - i,
{
    if i >= s.len() || utf16_units(s.take(i as int)) >= character {
        i
    } else {
        chars_before_column(s, character, i + 1)
    }
}

/// The byte offset of LSP position (`line_start`'s line, `character`): the
/// line's start plus the UTF-8 bytes of the characters before the column.
pub fn column_offset(line: &str, line_start: usize, character: u64) -> (r: usize)
    requires
        line_start + 4 * line@.len() <= usize::MAX,
    ensures
        r == line_start + utf8_bytes(line@.take(chars_before_column(line@, character as nat, 0) as int)),
{
    let chars = crate::text::chars_of(line);
    let mut byte: usize = line_start;
    let mut units: u64 = 0;
    let mut i: usize = 0;
    while i < chars.len()
        invariant
            chars@ == line@,
            line_start + 4 * chars@.len() <= usize::MAX,
            i <= chars@.len(),
            units == utf16_units(chars@.take(i as int)),
            byte == line_start + utf8_bytes(chars@.take(i as int)),
            chars_before_column(chars@, character as nat, 0) == chars_before_column(chars@, character as nat, i as nat),
        decreases chars@.len() - i,
    {
        if units >= character {
            return byte;
        }
        proof {
            assert(chars@.take(i + 1).drop_last() =~= chars@.take(i as int));
            lemma_units_bound(chars@.take(i + 1));
        }
        units = units + char_utf16_len(chars[i]) as u64;
        byte = byte + char_utf8_len(chars[i]);
        i = i + 1;
    }
    assert(chars@.take(chars@.len() as int) =~= chars@);
    byte
}

// ---------------------------------------------------------------------------
// The identifier under the cursor.
// ---------------------------------------------------------------------------

/// A token of a document: its identifier text if it is one, and its byte
/// span.
#[derive(Debug, Clone)]
pub struct TokenSpan {
    pub identifier: Option<String>,
    pub start: usize,
    pub end: usize,
}

/// Token `t` is an identifier that covers `offset`: inside it, or (when
/// `at_end`) just after its last byte.
pub open spec fn covers(t: TokenSpan, offset: usize, at_end: bool) -> bool {
    t.identifier is Some && if at_end {
        t.start < offset && offset == t.end
    } else {
        t.start <= offset && offset < t.end
    }
}

/// The first token of `tokens` from `i` on that covers `offset`.
pub open spec fn first_covering(tokens: Seq<TokenSpan>, offset: usize, at_end: bool, i: int) -> Option<int>
    decreases tokens.len() - i,
{
    if i < 0 || i >= tokens.len() {
        None
    } else if covers(tokens[i], offset, at_end) {
        Some(i)
    } else {
        first_covering(tokens, offset, at_end, i + 1)
    }
}

/// The token under the cursor at `offset`: the first identifier that
/// contains the offset, else the first one that ends exactly at it.
pub open spec fn identifier_index(tokens: Seq<TokenSpan>, offset: usize) -> Option<int> {
    if first_covering(tokens, offset, false, 0) is Some {
        first_covering(tokens, offset, false, 0)
    } else {
        first_covering(tokens, offset, true, 0)
    }
}

proof fn lemma_first_covering(tokens: Seq<TokenSpan>, offset: usize, at_end: bool, i: int)
    ensures
        first_covering(tokens, offset, at_end, i) matches Some(k) ==> 0 <= k < tokens.len() && covers(
            tokens[k],
            offset,
            at_end,
        ),
    decreases tokens.len() - i,
{
    if 0 <= i < tokens.len() && !covers(tokens[i], offset, at_end) {
        lemma_first_covering(tokens, offset, at_end, i + 1);
    }
}

fn find_covering(tokens: &Vec<TokenSpan>, offset: usize, at_end: bool) -> (r: Option<usize>)
    ensures
        r matches Some(i) ==> first_covering(tokens@, offset, at_end, 0) == Some(i as int),
        r is None ==> first_covering(tokens@, offset, at_end, 0) is None,
{
    let mut i: usize = 0;
    while i < tokens.len()
        invariant
            i <= tokens@.len(),
            first_covering(tokens@, offset, at_end, 0) == first_covering(tokens@, offset, at_end, i as int),
        decreases tokens@.len() - i,
    {
        let t = &tokens[i];
        let hit = t.identifier.is_some() && if at_end {
            t.start < offset && offset == t.end
        } else {
            t.start <= offset && offset < t.end
        };
        if hit {
            return Some(i);
        }
        i = i + 1;
    }
    None
}

/// The identifier under the cursor at byte `offset`, with its span.
pub fn identifier_at(tokens: &Vec<TokenSpan>, offset: usize) -> (r: Option<(String, usize, usize)>)
    ensures
        r is Some <==> identifier_index(tokens@, offset) is Some,
        r matches Some((name, start, end)) ==> {
            let t = tokens@[identifier_index(tokens@, offset)->0];
            name@ == t.identifier->0@ && start == t.start && end == t.end
        },
{
    proof {
        lemma_first_covering(tokens@, offset, false, 0);
        lemma_first_covering(tokens@, offset, true, 0);
    }
    let found = match find_covering(tokens, offset, false) {
        Some(i) => Some(i),
        None => find_covering(tokens, offset, true),
    };
    match found {
        Some(i) => {
            let t = &tokens[i];
            match &t.identifier {
                Some(name) => {
                    let mut copy = String::new();
                    push_str(&mut copy, name.as_str());
                    Some((copy, t.start, t.end))
                },
                None => None,
            }
        },
        None => None,
    }
}


/// In a running session (initialized, not shut down) each document method
/// goes to the handler of the same name, for requests and notifications
/// alike, and leaves the session as it is.
pub proof fn methods_reach_their_handlers(s: Session, request: bool)
    requires
        s.initialized,
        !s.shutdown,
    ensures
        next(s, "textDocument/didOpen"@, request) == (s, RouteView::Handle(Handler::DidOpen)),
        next(s, "textDocument/didChange"@, request) == (s, RouteView::Handle(Handler::DidChange)),
        next(s, "textDocument/didClose"@, request) == (s, RouteView::Handle(Handler::DidClose)),
        next(s, "textDocument/documentSymbol"@, request) == (s, RouteView::Handle(Handler::DocumentSymbol)),
        next(s, "textDocument/hover"@, request) == (s, RouteView::Handle(Handler::Hover)),
        next(s, "textDocument/definition"@, request) == (s, RouteView::Handle(Handler::Definition)),
{
    reveal_strlit("exit");
    reveal_strlit("initialize");
    reveal_strlit("initialized");
    reveal_strlit("shutdown");
    reveal_strlit("textDocument/didOpen");
    reveal_strlit("textDocument/didChange");
    reveal_strlit("textDocument/didClose");
    reveal_strlit("textDocument/documentSymbol");
    reveal_strlit("textDocument/hover");
    reveal_strlit("textDocument/definition");

    assert("exit"@.len() != "initialize"@.len());
    assert("exit"@.len() != "initialized"@.len());
    assert("exit"@.len() != "shutdown"@.len());
    assert("exit"@.len() != "textDocument/didOpen"@.len());
    assert("exit"@.len() != "textDocument/didChange"@.len());
    assert("exit"@.len() != "textDocument/didClose"@.len());
    assert("exit"@.len() != "textDocument/documentSymbol"@.len());
    assert("exit"@.len() != "textDocument/hover"@.len());
    assert("exit"@.len() != "textDocument/definition"@.len());
    assert("initialize"@.len() != "initialized"@.len());
    assert("initialize"@.len() != "shutdown"@.len());
    assert("initialize"@.len() != "textDocument/didOpen"@.len());
    assert("initialize"@.len() != "textDocument/didChange"@.len());
    assert("initialize"@.len() != "textDocument/didClose"@.len());
    assert("initialize"@.len() != "textDocument/documentSymbol"@.len());
    assert("initialize"@.len() != "textDocument/hover"@.len());
    assert("initialize"@.len() != "textDocument/definition"@.len());
    assert("initialized"@.len() != "shutdown"@.len());
    assert("initialized"@.len() != "textDocument/didOpen"@.len());
    assert("initialized"@.len() != "textDocument/didChange"@.len());
    assert("initialized"@.len() != "textDocument/didClose"@.len());
    assert("initialized"@.len() != "textDocument/documentSymbol"@.len());
    assert("initialized"@.len() != "textDocument/hover"@.len());
    assert("initialized"@.len() != "textDocument/definition"@.len());
    assert("shutdown"@.len() != "textDocument/didOpen"@.len());
    assert("shutdown"@.len() != "textDocument/didChange"@.len());
    assert("shutdown"@.len() != "textDocument/didClose"@.len());
    assert("shutdown"@.len() != "textDocument/documentSymbol"@.len());
    assert("shutdown"@.len() != "textDocument/hover"@.len());
    assert("shutdown"@.len() != "textDocument/definition"@.len());
    assert("textDocument/didOpen"@.len() != "textDocument/didChange"@.len());
    assert("textDocument/didOpen"@.len() != "textDocument/didClose"@.len());
    assert("textDocument/didOpen"@.len() != "textDocument/documentSymbol"@.len());
    assert("textDocument/didOpen"@.len() != "textDocument/hover"@.len());
    assert("textDocument/didOpen"@.len() != "textDocument/definition"@.len());
    assert("textDocument/didChange"@.len() != "textDocument/didClose"@.len());
    assert("textDocument/didChange"@.len() != "textDocument/documentSymbol"@.len());
    assert("textDocument/didChange"@.len() != "textDocument/hover"@.len());
    assert("textDocument/didChange"@.len() != "textDocument/definition"@.len());
    assert("textDocument/didClose"@.len() != "textDocument/documentSymbol"@.len());
    assert("textDocument/didClose"@.len() != "textDocument/hover"@.len());
    assert("textDocument/didClose"@.len() != "textDocument/definition"@.len());
    assert("textDocument/documentSymbol"@.len() != "textDocument/hover"@.len());
    assert("textDocument/documentSymbol"@.len() != "textDocument/definition"@.len());
    assert("textDocument/hover"@.len() != "textDocument/definition"@.len());
}


/// The session protocol on its fixed messages: `exit` always ends the
/// session; before `initialize` only `initialize` is answered (with the
/// capabilities) and any other request gets error -32002; after `shutdown`
/// every request gets error -32600; in a running session `shutdown` is
/// answered with a null result and marks the session shut down, and a
/// request for an unknown method gets error -32601. Notifications that are
/// not answered are ignored.
pub proof fn session_protocol(s: Session, request: bool)
    ensures
        next(s, "exit"@, request) == (Session { exited: true, ..s }, RouteView::Ignore),
        !s.initialized ==> next(s, "initialize"@, request) == (
            Session { initialized: true, ..s },
            RouteView::Capabilities,
        ),
        !s.initialized ==> next(s, "textDocument/hover"@, true) == (
            s,
            RouteView::Error(-32002i64, "Server not initialized"@),
        ),
        !s.initialized ==> next(s, "textDocument/hover"@, false) == (s, RouteView::Ignore),
        s.initialized && s.shutdown ==> next(s, "textDocument/hover"@, true) == (
            s,
            RouteView::Error(-32600i64, "Invalid Request"@),
        ),
        s.initialized && s.shutdown ==> next(s, "textDocument/hover"@, false) == (s, RouteView::Ignore),
        s.initialized && !s.shutdown ==> next(s, "shutdown"@, request) == (
            Session { shutdown: true, ..s },
            RouteView::NullResult,
        ),
        s.initialized && !s.shutdown ==> next(s, "initialize"@, request) == (s, RouteView::Capabilities),
        s.initialized && !s.shutdown ==> next(s, "initialized"@, request) == (s, RouteView::Ignore),
        s.initialized && !s.shutdown ==> next(s, "workspace/symbol"@, true) == (
            s,
            RouteView::Error(-32601i64, "Method not found"@),
        ),
        s.initialized && !s.shutdown ==> next(s, "workspace/symbol"@, false) == (s, RouteView::Ignore),
{
    reveal_strlit("exit");
    reveal_strlit("initialize");
    reveal_strlit("initialized");
    reveal_strlit("shutdown");
    reveal_strlit("textDocument/hover");
    reveal_strlit("workspace/symbol");
    reveal_strlit("textDocument/didOpen");
    reveal_strlit("textDocument/didChange");
    reveal_strlit("textDocument/didClose");
    reveal_strlit("textDocument/documentSymbol");
    reveal_strlit("textDocument/definition");
    assert("exit"@.len() != "initialize"@.len());
    assert("exit"@.len() != "shutdown"@.len());
    assert("exit"@.len() != "initialized"@.len());
    assert("exit"@.len() != "textDocument/hover"@.len());
    assert("exit"@.len() != "workspace/symbol"@.len());
    assert("initialize"@.len() != "textDocument/hover"@.len());
    assert("initialize"@.len() != "shutdown"@.len());
    assert("initialize"@.len() != "initialized"@.len());
    assert("initialize"@.len() != "workspace/symbol"@.len());
    assert("initialized"@.len() != "shutdown"@.len());
    assert("initialized"@.len() != "workspace/symbol"@.len());
    assert("shutdown"@.len() != "workspace/symbol"@.len());
    assert("workspace/symbol"@.len() != "textDocument/didOpen"@.len());
    assert("workspace/symbol"@.len() != "textDocument/didChange"@.len());
    assert("workspace/symbol"@.len() != "textDocument/didClose"@.len());
    assert("workspace/symbol"@.len() != "textDocument/documentSymbol"@.len());
    assert("workspace/symbol"@.len() != "textDocument/hover"@.len());
    assert("workspace/symbol"@.len() != "textDocument/definition"@.len());
}

/// How characters are counted: ASCII takes one UTF-8 byte, and a
/// character takes two UTF-16 units exactly when it takes four UTF-8 bytes
/// (it lies beyond the Basic Multilingual Plane, at or above U+10000);
/// every other character takes one unit. So a text never has more UTF-16
/// units than UTF-8 bytes.
pub proof fn encodings_agree(c: char, s: Seq<char>)
    ensures
        utf8_len(c) == 1 <==> (c as u32) < 128,
        1 <= utf8_len(c) <= 4,
        utf16_len(c) == 2 <==> utf8_len(c) == 4,
        utf16_len(c) == 1 <==> (c as u32) < 65536,
        utf16_units(s) <= utf8_bytes(s),
    decreases s.len(),
{
    if s.len() > 0 {
        encodings_agree(c, s.drop_last());
        encodings_agree(s.last(), s.drop_last());
    }
}

proof fn lemma_covering_found(tokens: Seq<TokenSpan>, offset: usize, at_end: bool, i: int, j: int)
    requires
        0 <= i <= j < tokens.len(),
        covers(tokens[j], offset, at_end),
    ensures
        first_covering(tokens, offset, at_end, i) is Some,
    decreases j - i,
{
    if !covers(tokens[i], offset, at_end) {
        lemma_covering_found(tokens, offset, at_end, i + 1, j);
    }
}

/// The identifier under the cursor: what is found is an identifier token
/// that holds the offset or ends right at it; one that holds the offset is
/// found whenever there is one, and then it is found in preference to one
/// that merely ends there; nothing is found only when no identifier holds
/// the offset or ends at it.
pub proof fn cursor_finds_the_identifier_under_it(tokens: Seq<TokenSpan>, offset: usize)
    ensures
        identifier_index(tokens, offset) matches Some(k) ==> 0 <= k < tokens.len() && tokens[k].identifier is Some
            && tokens[k].start <= offset <= tokens[k].end && tokens[k].start < tokens[k].end,
        (exists|i: int|
            0 <= i < tokens.len() && (#[trigger] tokens[i]).identifier is Some && tokens[i].start <= offset
                < tokens[i].end) ==> (identifier_index(tokens, offset) matches Some(k) && tokens[k].start <= offset
            < tokens[k].end),
        identifier_index(tokens, offset) is None ==> forall|i: int|
            0 <= i < tokens.len() && (#[trigger] tokens[i]).identifier is Some ==> !(tokens[i].start <= offset
                <= tokens[i].end && tokens[i].start < tokens[i].end),
{
    lemma_first_covering(tokens, offset, false, 0);
    lemma_first_covering(tokens, offset, true, 0);
    if exists|i: int|
        0 <= i < tokens.len() && (#[trigger] tokens[i]).identifier is Some && tokens[i].start <= offset
            < tokens[i].end {
        let i = choose|i: int|
            0 <= i < tokens.len() && (#[trigger] tokens[i]).identifier is Some && tokens[i].start <= offset
                < tokens[i].end;
        assert(covers(tokens[i], offset, false));
        lemma_covering_found(tokens, offset, false, 0, i);
    }
    if identifier_index(tokens, offset) is None {
        assert forall|i: int|
            0 <= i < tokens.len() && (#[trigger] tokens[i]).identifier is Some implies !(tokens[i].start <= offset
                <= tokens[i].end && tokens[i].start < tokens[i].end) by {
            if tokens[i].start <= offset <= tokens[i].end && tokens[i].start < tokens[i].end {
                if offset < tokens[i].end {
                    assert(covers(tokens[i], offset, false));
                    lemma_covering_found(tokens, offset, false, 0, i);
                } else {
                    assert(covers(tokens[i], offset, true));
                    lemma_covering_found(tokens, offset, true, 0, i);
                }
            }
        }
    }
}

} // verus!
