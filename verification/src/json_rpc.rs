//! JSON-RPC as the language servers speak it: numbered requests, notifications, the
//! `Content-Length` framing, what a response comes to, and the requests still waiting for
//! their response.
use vstd::prelude::*;
use crate::text::starts_with;
use crate::auth::strip_all_prefixes;

verus! {

/// The decimal digit for `d`.
pub open spec fn digit_char(d: nat) -> char {
    if d == 0 {
        '0'
    } else if d == 1 {
        '1'
    } else if d == 2 {
        '2'
    } else if d == 3 {
        '3'
    } else if d == 4 {
        '4'
    } else if d == 5 {
        '5'
    } else if d == 6 {
        '6'
    } else if d == 7 {
        '7'
    } else if d == 8 {
        '8'
    } else {
        '9'
    }
}

/// The decimal notation of `n`, without leading zeros.
pub open spec fn decimal(n: nat) -> Seq<char>
    decreases n,
{
    if n < 10 {
        seq![digit_char(n)]
    } else {
        decimal(n / 10).push(digit_char(n % 10))
    }
}

fn digit(d: u64) -> (c: char)
    requires
        d < 10,
    ensures
        c == digit_char(d as nat),
{
    if d == 0 {
        '0'
    } else if d == 1 {
        '1'
    } else if d == 2 {
        '2'
    } else if d == 3 {
        '3'
    } else if d == 4 {
        '4'
    } else if d == 5 {
        '5'
    } else if d == 6 {
        '6'
    } else if d == 7 {
        '7'
    } else if d == 8 {
        '8'
    } else {
        '9'
    }
}

/// Appends the decimal notation of `n` to `s`.
pub fn push_decimal(s: &mut String, n: u64)
    ensures
        final(s)@ == old(s)@ + decimal(n as nat),
    decreases n,
{
    if n >= 10 {
        push_decimal(s, n / 10);
    }
    s.push(digit(n % 10));
    proof {
        if n >= 10 {
            assert(old(s)@ + decimal(n as nat) =~= (old(s)@ + decimal((n / 10) as nat)).push(digit_char((n % 10) as nat)));
        } else {
            assert(decimal(n as nat) =~= seq![digit_char(n as nat)]);
        }
    }
}

/// The lower-case hexadecimal digit for `d` (below 16).
pub open spec fn hex_digit(d: u32) -> char {
    if d < 10 {
        digit_char(d as nat)
    } else if d == 10 {
        'a'
    } else if d == 11 {
        'b'
    } else if d == 12 {
        'c'
    } else if d == 13 {
        'd'
    } else if d == 14 {
        'e'
    } else {
        'f'
    }
}

/// How a character is written inside a JSON string: a quote and a backslash after a
/// backslash; backspace, tab, line feed, form feed and carriage return by their short
/// escapes; the other control characters below 0x20 as `\u00` and two lower-case hex
/// digits; every other character as itself.
pub open spec fn json_escape(c: char) -> Seq<char> {
    if c == '"' {
        seq!['\\', '"']
    } else if c == '\\' {
        seq!['\\', '\\']
    } else if c == '\u{8}' {
        seq!['\\', 'b']
    } else if c == '\t' {
        seq!['\\', 't']
    } else if c == '\n' {
        seq!['\\', 'n']
    } else if c == '\u{c}' {
        seq!['\\', 'f']
    } else if c == '\r' {
        seq!['\\', 'r']
    } else if (c as u32) < 0x20 {
        seq!['\\', 'u', '0', '0', hex_digit((c as u32) / 16), hex_digit((c as u32) % 16)]
    } else {
        seq![c]
    }
}

/// The characters of a text, each written as inside a JSON string.
pub open spec fn json_escaped(s: Seq<char>) -> Seq<char>
    decreases s.len(),
{
    if s.len() == 0 {
        seq![]
    } else {
        json_escaped(s.drop_last()) + json_escape(s.last())
    }
}

/// A text as a JSON string literal: in quotes, escaped; what `serde_json::to_string` writes
/// for a string.
pub open spec fn json_string_literal(s: Seq<char>) -> Seq<char> {
    seq!['"'] + json_escaped(s) + seq!['"']
}

fn hex_digit_exec(d: u32) -> (r: char)
    requires
        d < 16,
    ensures
        r == hex_digit(d),
{
    if d < 10 {
        digit(d as u64)
    } else if d == 10 {
        'a'
    } else if d == 11 {
        'b'
    } else if d == 12 {
        'c'
    } else if d == 13 {
        'd'
    } else if d == 14 {
        'e'
    } else {
        'f'
    }
}

/// Appends a character as it is written inside a JSON string.
fn push_escaped(out: &mut String, c: char)
    ensures
        final(out)@ == old(out)@ + json_escape(c),
{
    let code: u32 = c as u32;
    if c == '"' {
        out.push('\\');
        out.push('"');
    } else if c == '\\' {
        out.push('\\');
        out.push('\\');
    } else if c == '\u{8}' {
        out.push('\\');
        out.push('b');
    } else if c == '\t' {
        out.push('\\');
        out.push('t');
    } else if c == '\n' {
        out.push('\\');
        out.push('n');
    } else if c == '\u{c}' {
        out.push('\\');
        out.push('f');
    } else if c == '\r' {
        out.push('\\');
        out.push('r');
    } else if code < 0x20 {
        out.push('\\');
        out.push('u');
        out.push('0');
        out.push('0');
        out.push(hex_digit_exec(code / 16));
        out.push(hex_digit_exec(code % 16));
    } else {
        out.push(c);
    }
    proof {
        assert(final(out)@ =~= old(out)@ + json_escape(c));
    }
}

/// Writes a text as a JSON string literal.
fn json_quote(s: &str) -> (r: String)
    ensures
        r@ == json_string_literal(s@),
{
    let chars = crate::text::chars_of(s);
    let mut out = String::new();
    out.push('"');
    let mut i: usize = 0;
    while i < chars.len()
        invariant
            i <= chars@.len(),
            chars@ == s@,
            out@ == seq!['"'] + json_escaped(chars@.take(i as int)),
        decreases chars@.len() - i,
    {
        let ghost before = out@;
        push_escaped(&mut out, chars[i]);
        proof {
            assert(chars@.take(i + 1).drop_last() =~= chars@.take(i as int));
            assert(chars@.take(i + 1).last() == chars@[i as int]);
            assert(out@ =~= seq!['"'] + json_escaped(chars@.take(i + 1)));
        }
        i = i + 1;
    }
    out.push('"');
    assert(chars@.take(chars@.len() as int) =~= chars@);
    out
}

/// The text of a request: id, protocol version, method and parameters (`null` when there
/// are none), the keys in sorted order, as `serde_json` writes an object.
pub open spec fn request_text(id: u64, method: Seq<char>, params: Option<Seq<char>>) -> Seq<char> {
    "{\"id\":"@ + decimal(id as nat) + ",\"jsonrpc\":\"2.0\",\"method\":"@ + json_string_literal(method)
        + ",\"params\":"@ + match params {
        Some(p) => p,
        None => "null"@,
    } + "}"@
}

/// The text of a notification: protocol version, method and parameters.
pub open spec fn notification_text(method: Seq<char>, params: Seq<char>) -> Seq<char> {
    "{\"jsonrpc\":\"2.0\",\"method\":"@ + json_string_literal(method) + ",\"params\":"@ + params + "}"@
}

/// The text of an empty success response to request `id`, the keys in sorted order.
pub open spec fn success_response_text(id: u64) -> Seq<char> {
    "{\"id\":"@ + decimal(id as nat) + ",\"jsonrpc\":\"2.0\",\"result\":null}"@
}

/// A message framed for the wire: the `Content-Length` header with the body's length in
/// UTF-8 bytes, a blank line, and the body.
pub open spec fn framed_text(body: Seq<char>, byte_len: nat) -> Seq<char> {
    "Content-Length: "@ + decimal(byte_len) + "\r\n\r\n"@ + body
}

/// Frames a message for the wire.
pub fn frame_message(body: &str) -> (r: String)
    ensures
        r@ == framed_text(body@, body.len() as nat),
{
    let mut r = String::new();
    r.append("Content-Length: ");
    push_decimal(&mut r, body.len() as u64);
    r.append("\r\n\r\n");
    r.append(body);
    r
}

/// Numbers the requests sent to a server.
pub struct JsonRpcHandler {
    id_counter: u64,
}

impl JsonRpcHandler {
    /// The id the next request gets.
    pub closed spec fn next_id(&self) -> u64 {
        self.id_counter
    }

    /// A handler whose first request gets id 0.
    pub fn new() -> (r: Self)
        ensures
            r.next_id() == 0,
    {
        JsonRpcHandler { id_counter: 0 }
    }

    /// A request with the next id, and that id; the counter moves on by one, wrapping after
    /// the largest `u64`. `params` is the JSON text of the parameters.
    pub fn create_request(&mut self, method: &str, params: Option<String>) -> (r: (u64, String))
        ensures
            r.0 == old(self).next_id(),
            final(self).next_id() == if old(self).next_id() == u64::MAX {
                0
            } else {
                (old(self).next_id() + 1) as u64
            },
            r.1@ == request_text(r.0, method@, match params {
                Some(p) => Some(p@),
                None => None,
            }),
    {
        let id = self.id_counter;
        self.id_counter = if id == u64::MAX {
            0
        } else {
            id + 1
        };
        let mut s = String::new();
        s.append("{\"id\":");
        push_decimal(&mut s, id);
        s.append(",\"jsonrpc\":\"2.0\",\"method\":");
        let q = json_quote(method);
        s.append(q.as_str());
        s.append(",\"params\":");
        match &params {
            Some(p) => s.append(p.as_str()),
            None => s.append("null"),
        }
        s.append("}");
        (id, s)
    }

    /// A notification of the method with the parameters' JSON text.
    pub fn create_notification(&self, method: &str, params: &str) -> (r: String)
        ensures
            r@ == notification_text(method@, params@),
    {
        let mut s = String::new();
        s.append("{\"jsonrpc\":\"2.0\",\"method\":");
        let q = json_quote(method);
        s.append(q.as_str());
        s.append(",\"params\":");
        s.append(params);
        s.append("}");
        s
    }

    /// An empty success response to request `id`.
    pub fn create_success_response(&self, id: u64) -> (r: String)
        ensures
            r@ == success_response_text(id),
    {
        let mut s = String::new();
        s.append("{\"id\":");
        push_decimal(&mut s, id);
        s.append(",\"jsonrpc\":\"2.0\",\"result\":null}");
        s
    }
}

/// The error a server answers with.
#[derive(Debug, PartialEq, Eq)]
pub struct JsonRpcError {
    pub code: i32,
    pub message: String,
    /// The JSON text of the error's data, when there is any.
    pub data: Option<String>,
}

impl Clone for JsonRpcError {
    fn clone(&self) -> (r: Self)
        ensures
            r == *self,
    {
        let data = match &self.data {
            Some(d) => Some(d.clone()),
            None => None,
        };
        JsonRpcError { code: self.code, message: self.message.clone(), data }
    }
}

/// A message from a server: a response (with an id), a request or a notification. Values
/// are kept as JSON text.
#[derive(Debug, PartialEq, Eq)]
pub struct JsonRpcMessage {
    pub jsonrpc: String,
    pub id: Option<u64>,
    pub method: Option<String>,
    pub params: Option<String>,
    pub result: Option<String>,
    pub error: Option<JsonRpcError>,
}

/// The message of a log notification.
#[derive(Debug)]
pub struct InnerMessage {
    pub message: String,
    /// The message's type, as the server names it.
    pub message_type: String,
}

/// What a response comes to: its result; for an error whose message starts with `KeyError`
/// an empty list; for another error that error; `null` when it holds neither.
pub open spec fn response_outcome_spec(m: JsonRpcMessage) -> Result<Seq<char>, JsonRpcError> {
    match m.result {
        Some(r) => Ok(r@),
        None => match m.error {
            Some(e) => if e.message@.len() >= 8 && e.message@.subrange(0, 8) == "KeyError"@ {
                Ok("[]"@)
            } else {
                Err(e)
            },
            None => Ok("null"@),
        },
    }
}

/// What a response comes to, as JSON text or the server's error.
pub fn response_outcome(m: &JsonRpcMessage) -> (r: Result<String, JsonRpcError>)
    ensures
        match (r, response_outcome_spec(*m)) {
            (Ok(a), Ok(b)) => a@ == b,
            (Err(a), Err(b)) => a == b,
            _ => false,
        },
{
    match &m.result {
        Some(res) => Ok(res.clone()),
        None => match &m.error {
            Some(e) => {
                if starts_with(e.message.as_str(), "KeyError") {
                    proof {
                        reveal_strlit("KeyError");
                    }
                    let mut s = String::new();
                    s.append("[]");
                    Ok(s)
                } else {
                    proof {
                        reveal_strlit("KeyError");
                    }
                    Err(e.clone())
                }
            },
            None => {
                let mut s = String::new();
                s.append("null");
                Ok(s)
            },
        },
    }
}

/// A message is the awaited response: it has an id and is not a log message.
pub open spec fn is_awaited_response_spec(m: JsonRpcMessage) -> bool {
    m.id is Some && !(m.method matches Some(meth) && meth@ == "window/logMessage"@)
}

/// Whether a message ends the wait for a response; log messages and messages without an id
/// are passed over.
pub fn is_awaited_response(m: &JsonRpcMessage) -> (r: bool)
    ensures
        r == is_awaited_response_spec(*m),
{
    let is_log = match &m.method {
        Some(meth) => crate::text::str_eq(meth.as_str(), "window/logMessage"),
        None => false,
    };
    !is_log && m.id.is_some()
}

/// A notification that some request waits for: its method and the JSON text of its
/// parameters.
#[derive(Debug)]
pub struct ExpectedMessageKey {
    pub method: String,
    pub params: String,
}

/// The requests waiting for their response, by id, and the notifications waited for, by
/// key; each with the channel on which its answer is handed over.
pub struct PendingRequests<T> {
    request_channels: Vec<(u64, T)>,
    notification_channels: Vec<(ExpectedMessageKey, T)>,
}

/// The map a list of distinct ids stands for.
pub open spec fn id_map<T>(v: Seq<(u64, T)>) -> Map<u64, T> {
    Map::new(
        |id: u64| exists|i: int| 0 <= i < v.len() && (#[trigger] v[i]).0 == id,
        |id: u64| v[choose|i: int| 0 <= i < v.len() && (#[trigger] v[i]).0 == id].1,
    )
}

/// The map a list of distinct keys stands for, by their method and parameters.
pub open spec fn key_map<T>(v: Seq<(ExpectedMessageKey, T)>) -> Map<(Seq<char>, Seq<char>), T> {
    Map::new(
        |k: (Seq<char>, Seq<char>)| exists|i: int| 0 <= i < v.len() && (#[trigger] v[i]).0.method@ == k.0 && v[i].0.params@ == k.1,
        |k: (Seq<char>, Seq<char>)|
            v[choose|i: int| 0 <= i < v.len() && (#[trigger] v[i]).0.method@ == k.0 && v[i].0.params@ == k.1].1,
    )
}

/// The view of a key.
pub open spec fn key_view_of(k: ExpectedMessageKey) -> (Seq<char>, Seq<char>) {
    (k.method@, k.params@)
}

impl<T> PendingRequests<T> {
    /// No id and no key occurs twice.
    pub closed spec fn wf(&self) -> bool {
        &&& forall|i: int, j: int|
            0 <= i < j < self.request_channels@.len() ==> (#[trigger] self.request_channels@[i]).0
                != (#[trigger] self.request_channels@[j]).0
        &&& forall|i: int, j: int|
            0 <= i < j < self.notification_channels@.len() ==> key_view_of(
                (#[trigger] self.notification_channels@[i]).0,
            ) != key_view_of((#[trigger] self.notification_channels@[j]).0)
    }

    /// The requests waiting, by id.
    pub closed spec fn requests(&self) -> Map<u64, T> {
        id_map(self.request_channels@)
    }

    /// The notifications waited for, by key.
    pub closed spec fn notifications(&self) -> Map<(Seq<char>, Seq<char>), T> {
        key_map(self.notification_channels@)
    }

    /// Nothing waits.
    pub fn new() -> (r: Self)
        ensures
            r.wf(),
            r.requests() == Map::<u64, T>::empty(),
            r.notifications() == Map::<(Seq<char>, Seq<char>), T>::empty(),
    {
        let r = PendingRequests { request_channels: Vec::new(), notification_channels: Vec::new() };
        assert(r.requests() =~= Map::<u64, T>::empty());
        assert(r.notifications() =~= Map::<(Seq<char>, Seq<char>), T>::empty());
        r
    }

    fn find_request(&self, id: u64) -> (r: Option<usize>)
        requires
            self.wf(),
        ensures
            r matches Some(i) ==> i < self.request_channels@.len() && self.request_channels@[i as int].0 == id,
            r is None ==> !self.requests().dom().contains(id),
    {
        let mut i: usize = 0;
        while i < self.request_channels.len()
            invariant
                i <= self.request_channels@.len(),
                forall|k: int| 0 <= k < i ==> (#[trigger] self.request_channels@[k]).0 != id,
            decreases self.request_channels@.len() - i,
        {
            if self.request_channels[i].0 == id {
                return Some(i);
            }
            i = i + 1;
        }
        None
    }

    /// Records that request `id` waits, with the channel for its response; a request with
    /// the same id waits no longer.
    pub fn add_request(&mut self, id: u64, sender: T)
        requires
            old(self).wf(),
        ensures
            final(self).wf(),
            final(self).requests() == old(self).requests().insert(id, sender),
            final(self).notifications() == old(self).notifications(),
    {
        let _ = self.remove_request(id);
        let ghost before = self.request_channels@;
        self.request_channels.push((id, sender));
        proof {
            let after = self.request_channels@;
            let n = before.len();
            assert forall|i: int, j: int| 0 <= i < j < after.len() implies (#[trigger] after[i]).0 != (#[trigger] after[j]).0 by {
                assert(after[i] == before[i]);
                if j < n {
                    assert(after[j] == before[j]);
                } else {
                    assert(!id_map(before).dom().contains(id));
                }
            }
            assert(id_map(after) =~= id_map(before).insert(id, sender)) by {
                assert forall|k: u64| id_map(after).dom().contains(k) == (id_map(before).dom().contains(k) || k == id) by {
                    if id_map(before).dom().contains(k) {
                        let j = choose|j: int| 0 <= j < before.len() && (#[trigger] before[j]).0 == k;
                        assert(after[j] == before[j]);
                    }
                    if id_map(after).dom().contains(k) {
                        let j = choose|j: int| 0 <= j < after.len() && (#[trigger] after[j]).0 == k;
                        if j < n {
                            assert(after[j] == before[j]);
                        }
                    }
                    if k == id {
                        assert(after[n as int].0 == id);
                    }
                }
                assert forall|k: u64| #[trigger] id_map(after).dom().contains(k) implies id_map(after)[k]
                    == id_map(before).insert(id, sender)[k] by {
                    let j = choose|j: int| 0 <= j < after.len() && (#[trigger] after[j]).0 == k;
                    if k == id {
                        if j < n {
                            assert(after[j] == before[j]);
                        }
                    } else {
                        assert(j < n);
                        assert(after[j] == before[j]);
                        let j2 = choose|j2: int| 0 <= j2 < before.len() && (#[trigger] before[j2]).0 == k;
                        assert(j2 == j);
                    }
                }
            }
        }
    }

    /// Takes out the channel of request `id`, when it waits.
    pub fn remove_request(&mut self, id: u64) -> (r: Option<T>)
        requires
            old(self).wf(),
        ensures
            final(self).wf(),
            r is Some <==> old(self).requests().dom().contains(id),
            r matches Some(s) ==> s == old(self).requests()[id],
            final(self).requests() == old(self).requests().remove(id),
            final(self).notifications() == old(self).notifications(),
    {
        match self.find_request(id) {
            None => {
                assert(self.requests() =~= self.requests().remove(id));
                None
            },
            Some(i) => {
                let ghost before = self.request_channels@;
                proof {
                    let j = choose|j: int| 0 <= j < before.len() && (#[trigger] before[j]).0 == id;
                    assert(before[i as int].0 == id);
                    assert(j == i as int);
                }
                let (_, s) = self.request_channels.swap_remove(i);
                proof {
                    let after = self.request_channels@;
                    let n = before.len();
                    // the last entry took the place of entry `i`
                    assert forall|a: int| 0 <= a < after.len() implies #[trigger] after[a] == if a == i as int {
                        before[n - 1]
                    } else {
                        before[a]
                    } by {}
                    assert forall|a: int, b: int| 0 <= a < b < after.len() implies (#[trigger] after[a]).0 != (#[trigger] after[b]).0 by {
                        if a == i as int {
                            assert(after[a] == before[n - 1]);
                            assert(after[b] == before[b]);
                        } else if b == i as int {
                            assert(after[b] == before[n - 1]);
                            assert(after[a] == before[a]);
                        } else {
                            assert(after[a] == before[a] && after[b] == before[b]);
                        }
                    }
                    assert(id_map(after) =~= id_map(before).remove(id)) by {
                        assert forall|k: u64| id_map(after).dom().contains(k) == (id_map(before).dom().contains(k) && k != id) by {
                            if id_map(after).dom().contains(k) {
                                let j = choose|j: int| 0 <= j < after.len() && (#[trigger] after[j]).0 == k;
                                if j == i as int {
                                    assert(after[j] == before[n - 1]);
                                    assert(before[n - 1].0 != before[i as int].0);
                                } else {
                                    assert(after[j] == before[j]);
                                }
                            }
                            if id_map(before).dom().contains(k) && k != id {
                                let j = choose|j: int| 0 <= j < before.len() && (#[trigger] before[j]).0 == k;
                                if j == n - 1 {
                                    assert(after[i as int] == before[n - 1]);
                                } else {
                                    assert(j != i as int);
                                    assert(after[j] == before[j]);
                                }
                            }
                        }
                        assert forall|k: u64| #[trigger] id_map(after).dom().contains(k) implies id_map(after)[k]
                            == id_map(before).remove(id)[k] by {
                            let j = choose|j: int| 0 <= j < after.len() && (#[trigger] after[j]).0 == k;
                            let j2 = choose|j2: int| 0 <= j2 < before.len() && (#[trigger] before[j2]).0 == k;
                            if j == i as int {
                                assert(after[j] == before[n - 1]);
                                assert(j2 == n - 1);
                            } else {
                                assert(after[j] == before[j]);
                                assert(j2 == j);
                            }
                        }
                    }
                }
                Some(s)
            },
        }
    }

    fn find_notification(&self, key: &ExpectedMessageKey) -> (r: Option<usize>)
        requires
            self.wf(),
        ensures
            r matches Some(i) ==> i < self.notification_channels@.len() && key_view_of(
                self.notification_channels@[i as int].0,
            ) == key_view_of(*key),
            r is None ==> !self.notifications().dom().contains(key_view_of(*key)),
    {
        let mut i: usize = 0;
        while i < self.notification_channels.len()
            invariant
                i <= self.notification_channels@.len(),
                forall|k: int|
                    0 <= k < i ==> key_view_of((#[trigger] self.notification_channels@[k]).0) != key_view_of(*key),
            decreases self.notification_channels@.len() - i,
        {
            let k = &self.notification_channels[i].0;
            if crate::text::str_eq(k.method.as_str(), key.method.as_str()) && crate::text::str_eq(
                k.params.as_str(),
                key.params.as_str(),
            ) {
                return Some(i);
            }
            i = i + 1;
        }
        None
    }

    /// Records that a notification is waited for, with the channel for it; an earlier wait
    /// for the same notification ends.
    pub fn add_notification(&mut self, expected_message: ExpectedMessageKey, sender: T)
        requires
            old(self).wf(),
        ensures
            final(self).wf(),
            final(self).notifications() == old(self).notifications().insert(key_view_of(expected_message), sender),
            final(self).requests() == old(self).requests(),
    {
        let _ = self.remove_notification(&expected_message);
        let ghost before = self.notification_channels@;
        let ghost kv = key_view_of(expected_message);
        self.notification_channels.push((expected_message, sender));
        proof {
            let after = self.notification_channels@;
            let n = before.len();
            assert forall|i: int, j: int| 0 <= i < j < after.len() implies key_view_of((#[trigger] after[i]).0)
                != key_view_of((#[trigger] after[j]).0) by {
                assert(after[i] == before[i]);
                if j < n {
                    assert(after[j] == before[j]);
                } else {
                    assert(!key_map(before).dom().contains(kv));
                }
            }
            assert(key_map(after) =~= key_map(before).insert(kv, sender)) by {
                assert forall|k: (Seq<char>, Seq<char>)| key_map(after).dom().contains(k) == (key_map(before).dom().contains(k)
                    || k == kv) by {
                    if key_map(before).dom().contains(k) {
                        let j = choose|j: int| 0 <= j < before.len() && (#[trigger] before[j]).0.method@ == k.0 && before[j].0.params@ == k.1;
                        assert(after[j] == before[j]);
                    }
                    if key_map(after).dom().contains(k) {
                        let j = choose|j: int| 0 <= j < after.len() && (#[trigger] after[j]).0.method@ == k.0 && after[j].0.params@ == k.1;
                        if j < n {
                            assert(after[j] == before[j]);
                        } else {
                            assert(key_view_of(after[j].0) == k);
                        }
                    }
                    if k == kv {
                        assert(after[n as int].0.method@ == k.0 && after[n as int].0.params@ == k.1);
                    }
                }
                assert forall|k: (Seq<char>, Seq<char>)| #[trigger] key_map(after).dom().contains(k) implies key_map(after)[k]
                    == key_map(before).insert(kv, sender)[k] by {
                    let j = choose|j: int| 0 <= j < after.len() && (#[trigger] after[j]).0.method@ == k.0 && after[j].0.params@ == k.1;
                    if k == kv {
                        assert(key_view_of(after[n as int].0) == kv);
                        if j != n {
                            assert(key_view_of(after[j].0) == kv);
                            assert(false);
                        }
                    } else {
                        if j == n {
                            assert(key_view_of(after[j].0) == kv);
                        }
                        assert(j < n);
                        assert(after[j] == before[j]);
                        let j2 = choose|j2: int| 0 <= j2 < before.len() && (#[trigger] before[j2]).0.method@ == k.0 && before[j2].0.params@ == k.1;
                        assert(key_view_of(before[j2].0) == key_view_of(before[j].0));
                        assert(j2 == j);
                    }
                }
            }
        }
    }

    /// Takes out the channel of a notification waited for, when there is one.
    pub fn remove_notification(&mut self, pattern: &ExpectedMessageKey) -> (r: Option<T>)
        requires
            old(self).wf(),
        ensures
            final(self).wf(),
            r is Some <==> old(self).notifications().dom().contains(key_view_of(*pattern)),
            r matches Some(s) ==> s == old(self).notifications()[key_view_of(*pattern)],
            final(self).notifications() == old(self).notifications().remove(key_view_of(*pattern)),
            final(self).requests() == old(self).requests(),
    {
        let ghost kv = key_view_of(*pattern);
        match self.find_notification(pattern) {
            None => {
                assert(self.notifications() =~= self.notifications().remove(kv));
                None
            },
            Some(i) => {
                let ghost before = self.notification_channels@;
                proof {
                    let j = choose|j: int| 0 <= j < before.len() && (#[trigger] before[j]).0.method@ == kv.0 && before[j].0.params@ == kv.1;
                    assert(key_view_of(before[j].0) == key_view_of(before[i as int].0));
                    assert(j == i as int);
                }
                let (_, s) = self.notification_channels.swap_remove(i);
                proof {
                    let after = self.notification_channels@;
                    let n = before.len();
                    assert forall|a: int| 0 <= a < after.len() implies #[trigger] after[a] == if a == i as int {
                        before[n - 1]
                    } else {
                        before[a]
                    } by {}
                    assert forall|a: int, b: int| 0 <= a < b < after.len() implies key_view_of((#[trigger] after[a]).0)
                        != key_view_of((#[trigger] after[b]).0) by {
                        if a == i as int {
                            assert(after[a] == before[n - 1]);
                            assert(after[b] == before[b]);
                        } else if b == i as int {
                            assert(after[b] == before[n - 1]);
                            assert(after[a] == before[a]);
                        } else {
                            assert(after[a] == before[a] && after[b] == before[b]);
                        }
                    }
                    assert(key_map(after) =~= key_map(before).remove(kv)) by {
                        assert forall|k: (Seq<char>, Seq<char>)| key_map(after).dom().contains(k) == (key_map(before).dom().contains(k)
                            && k != kv) by {
                            if key_map(after).dom().contains(k) {
                                let j = choose|j: int| 0 <= j < after.len() && (#[trigger] after[j]).0.method@ == k.0 && after[j].0.params@ == k.1;
                                if j == i as int {
                                    assert(after[j] == before[n - 1]);
                                    assert(key_view_of(before[n - 1].0) != key_view_of(before[i as int].0));
                                } else {
                                    assert(after[j] == before[j]);
                                    assert(key_view_of(before[j].0) != key_view_of(before[i as int].0));
                                }
                            }
                            if key_map(before).dom().contains(k) && k != kv {
                                let j = choose|j: int| 0 <= j < before.len() && (#[trigger] before[j]).0.method@ == k.0 && before[j].0.params@ == k.1;
                                if j == n - 1 {
                                    assert(after[i as int] == before[n - 1]);
                                } else {
                                    assert(j != i as int);
                                    assert(after[j] == before[j]);
                                }
                            }
                        }
                        assert forall|k: (Seq<char>, Seq<char>)| #[trigger] key_map(after).dom().contains(k) implies key_map(after)[k]
                            == key_map(before).remove(kv)[k] by {
                            let j = choose|j: int| 0 <= j < after.len() && (#[trigger] after[j]).0.method@ == k.0 && after[j].0.params@ == k.1;
                            let j2 = choose|j2: int| 0 <= j2 < before.len() && (#[trigger] before[j2]).0.method@ == k.0 && before[j2].0.params@ == k.1;
                            if j == i as int {
                                assert(after[j] == before[n - 1]);
                                assert(key_view_of(before[j2].0) == key_view_of(before[n - 1].0));
                                assert(j2 == n - 1);
                            } else {
                                assert(after[j] == before[j]);
                                assert(key_view_of(before[j2].0) == key_view_of(before[j].0));
                                assert(j2 == j);
                            }
                        }
                    }
                }
                Some(s)
            },
        }
    }
}

/// A response reaches the request that waits for it, and no other: removing the request
/// with the id that was added gives back the channel added with it.
pub proof fn law_pending_round_trip<T>(p0: PendingRequests<T>, p1: PendingRequests<T>, id: u64, sender: T)
    requires
        p1.requests() == p0.requests().insert(id, sender),
    ensures
        p1.requests().dom().contains(id),
        p1.requests()[id] == sender,
        p1.requests().remove(id) == p0.requests().remove(id),
{
    assert(p1.requests().remove(id) =~= p0.requests().remove(id));
}

/// Requests are numbered in call order from zero: starting from a new handler, the `i`-th
/// request made (each call moving the handler on as `create_request` does) gets id `i`, for
/// as many requests as there are `u64` values.
pub proof fn law_request_ids_count_up(states: Seq<JsonRpcHandler>, ids: Seq<u64>)
    requires
        states.len() == ids.len() + 1,
        ids.len() <= u64::MAX as nat + 1,
        states[0].next_id() == 0,
        forall|i: int|
            0 <= i < ids.len() ==> #[trigger] ids[i] == states[i].next_id() && states[i + 1].next_id() == if states[i].next_id()
                == u64::MAX {
                0
            } else {
                (states[i].next_id() + 1) as u64
            },
    ensures
        forall|i: int| 0 <= i < ids.len() ==> #[trigger] ids[i] == i,
    decreases ids.len(),
{
    if ids.len() > 0 {
        let n = ids.len() - 1;
        law_request_ids_count_up(states.take(n + 1), ids.take(n));
        assert forall|i: int| 0 <= i < ids.len() implies #[trigger] ids[i] == i by {
            if i < n {
                assert(ids.take(n)[i] == ids[i]);
            } else if n > 0 {
                assert(ids.take(n)[n - 1] == ids[n - 1]);
                assert(ids[n - 1] == states[n - 1].next_id());
            }
        }
    }
}

/// Request ids are fresh: the ids the handler hands out one after another differ, as long as
/// fewer requests than there are `u64` values are made.
pub proof fn law_request_ids_differ(h0: JsonRpcHandler, h1: JsonRpcHandler, id0: u64, id1: u64)
    requires
        id0 == h0.next_id(),
        h1.next_id() == if h0.next_id() == u64::MAX {
            0
        } else {
            (h0.next_id() + 1) as u64
        },
        id1 == h1.next_id(),
    ensures
        id0 != id1,
{
}

/// The text with white space taken off both ends, as `str::trim` gives it.
pub open spec fn trim_spec(s: Seq<char>) -> Seq<char>
    decreases s.len(),
{
    if s.len() > 0 && crate::compile_commands::is_white_space(s[0]) {
        trim_spec(s.drop_first())
    } else if s.len() > 0 && crate::compile_commands::is_white_space(s.last()) {
        trim_spec(s.drop_last())
    } else {
        s
    }
}

/// What a line of a message's header leads to.
#[derive(Debug, PartialEq, Eq, Structural)]
pub enum HeaderStep {
    /// The header is over: read a body of this many bytes.
    ReadBody(usize),
    /// The length of the body.
    Length(usize),
    /// A length that does not parse.
    BadLength,
    /// Another line, passed over.
    Skip,
}

/// The header prefix that gives the body's length.
pub open spec fn length_prefix() -> Seq<char> {
    "Content-Length: "@
}

/// What a header line leads to, given the length read so far: a blank line after a length
/// ends the header; a `Content-Length: ` line gives the length (its rest, trimmed, read as a
/// number); other lines are passed over.
pub open spec fn header_step_spec(line: Seq<char>, content_length: Option<usize>) -> HeaderStep {
    if trim_spec(line).len() == 0 && content_length is Some {
        HeaderStep::ReadBody(content_length->0)
    } else if crate::tags::has_prefix(line, length_prefix()) {
        match crate::tags::parse_usize_spec(trim_spec(strip_all_prefixes(line, length_prefix()))) {
            Some(n) => HeaderStep::Length(n),
            None => HeaderStep::BadLength,
        }
    } else {
        HeaderStep::Skip
    }
}

fn trim_chars(s: &Vec<char>) -> (r: Vec<char>)
    ensures
        r@ == trim_spec(s@),
{
    let mut start: usize = 0;
    let mut end: usize = s.len();
    assert(s@.subrange(0, s@.len() as int) =~= s@);
    while start < end && crate::compile_commands::is_white_space_exec(s[start])
        invariant
            start <= end == s@.len(),
            trim_spec(s@) == trim_spec(s@.subrange(start as int, end as int)),
        decreases end - start,
    {
        let ghost cur = s@.subrange(start as int, end as int);
        assert(cur.drop_first() =~= s@.subrange(start + 1, end as int));
        start = start + 1;
    }
    while start < end && crate::compile_commands::is_white_space_exec(s[end - 1])
        invariant
            start <= end <= s@.len(),
            trim_spec(s@) == trim_spec(s@.subrange(start as int, end as int)),
            start < end ==> !crate::compile_commands::is_white_space(s@[start as int]),
        decreases end - start,
    {
        let ghost cur = s@.subrange(start as int, end as int);
        assert(cur.drop_last() =~= s@.subrange(start as int, end - 1));
        assert(cur[0] == s@[start as int]);
        end = end - 1;
    }
    let mut r: Vec<char> = Vec::new();
    let mut i: usize = start;
    while i < end
        invariant
            start <= i <= end <= s@.len(),
            r@ == s@.subrange(start as int, i as int),
        decreases end - i,
    {
        r.push(s[i]);
        assert(s@.subrange(start as int, i + 1) =~= s@.subrange(start as int, i as int).push(s@[i as int]));
        i = i + 1;
    }
    proof {
        let cur = s@.subrange(start as int, end as int);
        if cur.len() > 0 {
            assert(cur[0] == s@[start as int]);
            assert(cur.last() == s@[end - 1]);
        }
        assert(trim_spec(cur) == cur);
    }
    r
}

/// What a header line of a server's message leads to.
pub fn header_step(line: &str, content_length: Option<usize>) -> (r: HeaderStep)
    ensures
        r == header_step_spec(line@, content_length),
{
    let chars = crate::text::chars_of(line);
    let trimmed = trim_chars(&chars);
    if trimmed.len() == 0 && content_length.is_some() {
        return HeaderStep::ReadBody(content_length.unwrap());
    }
    let prefix = crate::text::chars_of("Content-Length: ");
    let empty: Vec<char> = Vec::new();
    assert(chars@.subrange(0, chars@.len() as int) =~= chars@);
    if crate::tags::has_prefix_exec(&chars, &prefix) {
        let rest = crate::tags::trim_matches_both(&chars, &prefix, &empty);
        proof {
            let t = strip_all_prefixes(line@, length_prefix());
            assert(empty@.len() == 0);
            assert(crate::tags::strip_all_suffixes(t, empty@) == t);
        }
        let number = trim_chars(&rest);
        match crate::tags::parse_usize(&number) {
            Some(n) => HeaderStep::Length(n),
            None => HeaderStep::BadLength,
        }
    } else {
        HeaderStep::Skip
    }
}

/// The channel to a server's process: send a framed message, receive the body of the next
/// message.
pub trait Process {
    /// Sends the text to the server.
    fn send(&mut self, data: &str) -> Result<(), String>;

    /// Receives the body of the next message from the server.
    fn receive(&mut self) -> Result<String, String>;
}

/// Hands a message from the server to the request waiting for it: a message with an id
/// takes the channel of the request with that id out of the pending requests; other
/// messages reach no request.
pub fn route_message<T>(pending: &mut PendingRequests<T>, message: &JsonRpcMessage) -> (r: Option<T>)
    requires
        old(pending).wf(),
    ensures
        final(pending).wf(),
        match message.id {
            Some(id) => (r is Some <==> old(pending).requests().dom().contains(id)) && (r matches Some(s) ==> s
                == old(pending).requests()[id]) && final(pending).requests() == old(pending).requests().remove(id),
            None => r is None && final(pending).requests() == old(pending).requests(),
        },
        final(pending).notifications() == old(pending).notifications(),
{
    match message.id {
        Some(id) => pending.remove_request(id),
        None => None,
    }
}

} // verus!
