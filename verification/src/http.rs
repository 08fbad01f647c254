//! HTTP requests for the HTTP server scenario, and the plan of network
//! operations a test case stands for.
use vstd::prelude::*;

use crate::text::push_char;

verus! {

/// Longest path rendered into a request, in bytes of the raw path.
pub const MAX_PATH_LEN: usize = 128;

/// Longest body sent in a well-formed request.
pub const MAX_BODY: usize = 8192;

/// Longest raw ("chaos") message sent.
pub const MAX_CHAOS: usize = 8192;

/// Most actions a test case may hold; longer ones are not run.
pub const MAX_ACTIONS: usize = 128;

/// The upper-case hexadecimal digit of a nibble.
pub open spec fn spec_nibble_to_hex(n: u8) -> char {
    if n <= 9 {
        ((48 + n) as u8) as char
    } else if n <= 15 {
        ((65 + (n - 10)) as u8) as char
    } else {
        '0'
    }
}

/// Upper-case hex digit of `n`; values above 15 give `'0'`.
pub fn nibble_to_hex(n: u8) -> (c: char)
    ensures
        c == spec_nibble_to_hex(n),
{
    if n <= 9 {
        (48u8 + n) as char
    } else if n <= 15 {
        (65u8 + (n - 10)) as char
    } else {
        '0'
    }
}

#[derive(Clone, Copy, PartialEq, Eq, Debug)]
pub enum Method {
    Get,
    Post,
    Put,
    Delete,
}

impl Method {
    pub open spec fn spec_as_str(self) -> Seq<char> {
        match self {
            Method::Get => "GET"@,
            Method::Post => "POST"@,
            Method::Put => "PUT"@,
            Method::Delete => "DELETE"@,
        }
    }

    pub open spec fn spec_can_have_body(self) -> bool {
        self is Post || self is Put
    }

    pub fn as_str(self) -> (r: &'static str)
        ensures
            r@ == self.spec_as_str(),
    {
        match self {
            Method::Get => "GET",
            Method::Post => "POST",
            Method::Put => "PUT",
            Method::Delete => "DELETE",
        }
    }

    /// Only POST and PUT requests carry a body.
    pub fn can_have_body(self) -> (r: bool)
        ensures
            r == self.spec_can_have_body(),
    {
        match self {
            Method::Post | Method::Put => true,
            _ => false,
        }
    }
}

/// Bytes kept as they are in a rendered path: the unreserved characters and
/// a few common URL delimiters.
pub open spec fn is_path_safe(b: u8) -> bool {
    (65 <= b <= 90) || (97 <= b <= 122) || (48 <= b <= 57) || b == 45 || b == 95 || b == 46 || b
        == 126 || b == 47 || b == 63 || b == 38 || b == 61 || b == 37 || b == 43 || b == 58
}

/// How one byte of a raw path is rendered: itself when safe, otherwise
/// percent-encoded with upper-case hex digits.
pub open spec fn render_path_byte(b: u8) -> Seq<char> {
    if is_path_safe(b) {
        seq![b as char]
    } else {
        seq!['%', spec_nibble_to_hex(b / 16), spec_nibble_to_hex(b % 16)]
    }
}

pub open spec fn render_path_bytes(raw: Seq<u8>) -> Seq<char>
    decreases raw.len(),
{
    if raw.len() == 0 {
        Seq::empty()
    } else {
        render_path_bytes(raw.drop_last()) + render_path_byte(raw.last())
    }
}

/// The rendered path: a slash, then the first `MAX_PATH_LEN` raw bytes.
pub open spec fn spec_render_path(raw: Seq<u8>) -> Seq<char> {
    seq!['/'] + render_path_bytes(
        if raw.len() > MAX_PATH_LEN {
            raw.take(MAX_PATH_LEN as int)
        } else {
            raw
        },
    )
}

/// A request path made from raw bytes.
pub struct Path<'a> {
    pub raw: &'a [u8],
}

impl<'a> Path<'a> {
    /// The path as it appears in a request line: it starts with `/`, keeps
    /// URL-safe bytes and percent-encodes the others, so that no whitespace or
    /// control character can break the request line.
    pub fn render(&self) -> (r: String)
        ensures
            r@ == spec_render_path(self.raw@),
    {
        let mut out = String::new();
        push_char(&mut out, '/');
        let n = if self.raw.len() > MAX_PATH_LEN {
            MAX_PATH_LEN
        } else {
            self.raw.len()
        };
        let ghost kept = if self.raw@.len() > MAX_PATH_LEN {
            self.raw@.take(MAX_PATH_LEN as int)
        } else {
            self.raw@
        };
        assert(kept.len() == n);
        let mut i: usize = 0;
        while i < n
            invariant
                n == kept.len(),
                n <= self.raw@.len(),
                forall|k: int| 0 <= k < n ==> kept[k] == self.raw@[k],
                i <= n,
                out@ == seq!['/'] + render_path_bytes(kept.take(i as int)),
            decreases n - i,
        {
            let b = self.raw[i];
            assert(kept.take(i + 1).drop_last() =~= kept.take(i as int));
            if (65 <= b && b <= 90) || (97 <= b && b <= 122) || (48 <= b && b <= 57) || b == 45 || b
                == 95 || b == 46 || b == 126 || b == 47 || b == 63 || b == 38 || b == 61 || b == 37
                || b == 43 || b == 58 {
                push_char(&mut out, b as char);
            } else {
                assert((b >> 4) & 0xF == b / 16 && b & 0xF == b % 16) by (bit_vector);
                push_char(&mut out, '%');
                push_char(&mut out, nibble_to_hex((b >> 4) & 0xF));
                push_char(&mut out, nibble_to_hex(b & 0xF));
            }
            i = i + 1;
        }
        assert(kept.take(n as int) =~= kept);
        out
    }
}

/// A visible ASCII character: neither white space nor a control character.
pub open spec fn is_visible_ascii(c: char) -> bool {
    0x21 <= (c as int) <= 0x7e
}

proof fn lemma_hex_visible(n: u8)
    ensures
        is_visible_ascii(spec_nibble_to_hex(n)),
{
}

proof fn lemma_render_bytes_visible(raw: Seq<u8>)
    ensures
        forall|i: int| 0 <= i < render_path_bytes(raw).len() ==> is_visible_ascii(
            #[trigger] render_path_bytes(raw)[i],
        ),
    decreases raw.len(),
{
    if raw.len() > 0 {
        lemma_render_bytes_visible(raw.drop_last());
        let b = raw.last();
        lemma_hex_visible(b / 16);
        lemma_hex_visible(b % 16);
        let prev = render_path_bytes(raw.drop_last());
        let last = render_path_byte(b);
        assert forall|i: int| 0 <= i < render_path_bytes(raw).len() implies is_visible_ascii(
            #[trigger] render_path_bytes(raw)[i],
        ) by {
            if i >= prev.len() {
                assert(render_path_bytes(raw)[i] == last[i - prev.len()]);
            } else {
                assert(render_path_bytes(raw)[i] == prev[i]);
            }
        }
    }
}

/// A rendered path holds only visible ASCII characters, so it can never break
/// the request line with white space or control characters.
pub proof fn lemma_rendered_path_is_visible(raw: Seq<u8>)
    ensures
        forall|i: int| 0 <= i < spec_render_path(raw).len() ==> is_visible_ascii(
            #[trigger] spec_render_path(raw)[i],
        ),
{
    let kept = if raw.len() > MAX_PATH_LEN {
        raw.take(MAX_PATH_LEN as int)
    } else {
        raw
    };
    lemma_render_bytes_visible(kept);
    assert forall|i: int| 0 <= i < spec_render_path(raw).len() implies is_visible_ascii(
        #[trigger] spec_render_path(raw)[i],
    ) by {
        if i > 0 {
            assert(spec_render_path(raw)[i] == render_path_bytes(kept)[i - 1]);
        }
    }
}

/// Decimal digits of `n`, without leading zeros.
pub open spec fn decimal(n: nat) -> Seq<char>
    decreases n,
{
    if n < 10 {
        seq![((48 + n) as u8) as char]
    } else {
        decimal(n / 10) + seq![((48 + n % 10) as u8) as char]
    }
}

/// The decimal representation of `n`.
pub fn usize_to_decimal(n: usize) -> (r: String)
    ensures
        r@ == decimal(n as nat),
    decreases n,
{
    if n < 10 {
        let mut r = String::new();
        push_char(&mut r, (48u8 + n as u8) as char);
        assert(r@ =~= decimal(n as nat));
        r
    } else {
        let mut r = usize_to_decimal(n / 10);
        push_char(&mut r, (48u8 + (n % 10) as u8) as char);
        r
    }
}

/// Appends `bytes` to `v`.
fn append_bytes(v: &mut Vec<u8>, bytes: &[u8])
    ensures
        final(v)@ == old(v)@ + bytes@,
{
    let ghost before = v@;
    let mut i: usize = 0;
    while i < bytes.len()
        invariant
            i <= bytes@.len(),
            v@ == before + bytes@.take(i as int),
        decreases bytes@.len() - i,
    {
        v.push(bytes[i]);
        assert(bytes@.take(i + 1) =~= bytes@.take(i as int).push(bytes@[i as int]));
        i = i + 1;
    }
    assert(bytes@.take(bytes@.len() as int) =~= bytes@);
}

/// The first `limit` bytes of `s`, or all of them when there are fewer.
pub open spec fn truncated(s: Seq<u8>, limit: int) -> Seq<u8> {
    if s.len() > limit {
        s.take(limit)
    } else {
        s
    }
}

/// The request line and the fixed headers.
pub open spec fn request_head(method: Method, raw_path: Seq<u8>) -> Seq<char> {
    method.spec_as_str() + " "@ + spec_render_path(raw_path)
        + " HTTP/1.1\r\nHost: localhost\r\nConnection: keep-alive\r\n"@
}

/// A well-formed HTTP/1.1 request, as UTF-8 bytes. Methods that carry a body
/// get a JSON content type, the body's length and the body (cut to
/// `MAX_BODY` bytes); the others end after the headers.
pub open spec fn spec_wellformed_request(method: Method, raw_path: Seq<u8>, body: Seq<u8>) -> Seq<u8> {
    let body = truncated(body, MAX_BODY as int);
    if method.spec_can_have_body() {
        vstd::utf8::encode_utf8(request_head(method, raw_path)) + vstd::utf8::encode_utf8(
            "Content-Type: application/json\r\nContent-Length: "@ + decimal(body.len()) + "\r\n\r\n"@,
        ) + body
    } else {
        vstd::utf8::encode_utf8(request_head(method, raw_path)) + vstd::utf8::encode_utf8("\r\n"@)
    }
}

pub fn build_wellformed_request(method: Method, path: &Path<'_>, body: &[u8]) -> (r: Vec<u8>)
    ensures
        r@ == spec_wellformed_request(method, path.raw@, body@),
{
    let body_len = if body.len() > MAX_BODY {
        MAX_BODY
    } else {
        body.len()
    };
    let mut head = String::from_str(method.as_str());
    head.append(" ");
    let rendered = path.render();
    head.append(rendered.as_str());
    head.append(" HTTP/1.1\r\nHost: localhost\r\nConnection: keep-alive\r\n");
    let mut req: Vec<u8> = Vec::new();
    append_bytes(&mut req, head.as_str().as_bytes());
    if method.can_have_body() {
        let mut headers = String::from_str("Content-Type: application/json\r\nContent-Length: ");
        let len_text = usize_to_decimal(body_len);
        headers.append(len_text.as_str());
        headers.append("\r\n\r\n");
        append_bytes(&mut req, headers.as_str().as_bytes());
        let ghost before = req@;
        let mut i: usize = 0;
        while i < body_len
            invariant
                body_len <= body@.len(),
                i <= body_len,
                req@ == before + body@.take(i as int),
            decreases body_len - i,
        {
            req.push(body[i]);
            assert(body@.take(i + 1) =~= body@.take(i as int).push(body@[i as int]));
            i = i + 1;
        }
        assert(truncated(body@, MAX_BODY as int) =~= body@.take(body_len as int));
        assert(headers@ =~= "Content-Type: application/json\r\nContent-Length: "@ + decimal(
            body_len as nat,
        ) + "\r\n\r\n"@);
    } else {
        let end = String::from_str("\r\n");
        append_bytes(&mut req, end.as_str().as_bytes());
    }
    assert(head@ =~= request_head(method, path.raw@));
    req
}

/// One message of a test case: either raw bytes or a well-formed request.
pub struct HttpMessage<'a> {
    pub is_chaos: bool,
    pub method: Method,
    pub path: Path<'a>,
    pub body: &'a [u8],
    pub chaos_data: &'a [u8],
}

/// The bytes sent for a message.
pub open spec fn spec_request(msg: HttpMessage<'_>) -> Seq<u8> {
    if msg.is_chaos {
        truncated(msg.chaos_data@, MAX_CHAOS as int)
    } else {
        spec_wellformed_request(msg.method, msg.path.raw@, msg.body@)
    }
}

pub fn build_request(msg: &HttpMessage<'_>) -> (r: Vec<u8>)
    ensures
        r@ == spec_request(*msg),
{
    if msg.is_chaos {
        let n = if msg.chaos_data.len() > MAX_CHAOS {
            MAX_CHAOS
        } else {
            msg.chaos_data.len()
        };
        let mut out: Vec<u8> = Vec::new();
        let mut i: usize = 0;
        while i < n
            invariant
                n <= msg.chaos_data@.len(),
                i <= n,
                out@ == msg.chaos_data@.take(i as int),
            decreases n - i,
        {
            out.push(msg.chaos_data[i]);
            assert(msg.chaos_data@.take(i + 1) =~= msg.chaos_data@.take(i as int).push(
                msg.chaos_data@[i as int],
            ));
            i = i + 1;
        }
        assert(truncated(msg.chaos_data@, MAX_CHAOS as int) =~= msg.chaos_data@.take(n as int));
        out
    } else {
        build_wellformed_request(msg.method, &msg.path, msg.body)
    }
}

/// One step of a test case.
pub enum Action<'a> {
    Connect,
    SendMessage { connection_id: u8, message: HttpMessage<'a> },
    Disconnect { connection_id: u8 },
}

/// A test case: a series of actions against the HTTP server.
pub struct TestCase<'a> {
    pub actions: Vec<Action<'a>>,
}

/// A network operation on the list of open connections. Slots index that
/// list; closing a slot moves the last connection into it.
#[derive(Debug, PartialEq, Eq)]
pub enum NetOp {
    Connect,
    Send { slot: usize, request: Vec<u8> },
    Close { slot: usize },
}

/// What a network operation stands for.
pub enum NetStep {
    Connect,
    Send(int, Seq<u8>),
    Close(int),
}

impl NetOp {
    pub open spec fn step(&self) -> NetStep {
        match self {
            NetOp::Connect => NetStep::Connect,
            NetOp::Send { slot, request } => NetStep::Send(*slot as int, request@),
            NetOp::Close { slot } => NetStep::Close(*slot as int),
        }
    }
}

pub open spec fn steps(ops: Seq<NetOp>) -> Seq<NetStep> {
    ops.map_values(|op: NetOp| op.step())
}

/// The network operations for `actions` when `open` connections are open:
/// a connect opens one more; a message is sent on, and a disconnect closes,
/// the connection the id picks modulo the number open; both are skipped when
/// none is open.
pub open spec fn plan_steps(actions: Seq<Action<'_>>, open: nat) -> Seq<NetStep>
    decreases actions.len(),
{
    if actions.len() == 0 {
        Seq::empty()
    } else {
        let rest = actions.drop_first();
        match actions[0] {
            Action::Connect => seq![NetStep::Connect] + plan_steps(rest, open + 1),
            Action::SendMessage { connection_id, message } => if open == 0 {
                plan_steps(rest, open)
            } else {
                seq![NetStep::Send(connection_id as int % open as int, spec_request(message))]
                    + plan_steps(rest, open)
            },
            Action::Disconnect { connection_id } => if open == 0 {
                plan_steps(rest, open)
            } else {
                seq![NetStep::Close(connection_id as int % open as int)] + plan_steps(
                    rest,
                    (open - 1) as nat,
                )
            },
        }
    }
}

/// Every send and close names a connection that is open at that point.
pub open spec fn steps_in_range(steps: Seq<NetStep>, open: nat) -> bool
    decreases steps.len(),
{
    if steps.len() == 0 {
        true
    } else {
        let rest = steps.drop_first();
        match steps[0] {
            NetStep::Connect => steps_in_range(rest, open + 1),
            NetStep::Send(slot, _) => 0 <= slot < open && steps_in_range(rest, open),
            NetStep::Close(slot) => 0 <= slot < open && steps_in_range(rest, (open - 1) as nat),
        }
    }
}

/// The planned operations only ever send on, or close, an open connection.
pub proof fn lemma_plan_in_range(actions: Seq<Action<'_>>, open: nat)
    ensures
        steps_in_range(plan_steps(actions, open), open),
    decreases actions.len(),
{
    if actions.len() > 0 {
        let rest = actions.drop_first();
        let plan = plan_steps(actions, open);
        match actions[0] {
            Action::Connect => {
                lemma_plan_in_range(rest, open + 1);
                assert(plan.drop_first() =~= plan_steps(rest, open + 1));
            },
            Action::SendMessage { connection_id, message } => {
                lemma_plan_in_range(rest, open);
                if open > 0 {
                    assert(plan.drop_first() =~= plan_steps(rest, open));
                }
            },
            Action::Disconnect { connection_id } => {
                if open > 0 {
                    lemma_plan_in_range(rest, (open - 1) as nat);
                    assert(plan.drop_first() =~= plan_steps(rest, (open - 1) as nat));
                } else {
                    lemma_plan_in_range(rest, open);
                }
            },
        }
    }
}

proof fn lemma_plan_step(actions: Seq<Action<'_>>, i: int, open: nat)
    requires
        0 <= i < actions.len(),
    ensures
        plan_steps(actions.skip(i), open) == match actions[i] {
            Action::Connect => seq![NetStep::Connect] + plan_steps(actions.skip(i + 1), open + 1),
            Action::SendMessage { connection_id, message } => if open == 0 {
                plan_steps(actions.skip(i + 1), open)
            } else {
                seq![NetStep::Send(connection_id as int % open as int, spec_request(message))]
                    + plan_steps(actions.skip(i + 1), open)
            },
            Action::Disconnect { connection_id } => if open == 0 {
                plan_steps(actions.skip(i + 1), open)
            } else {
                seq![NetStep::Close(connection_id as int % open as int)] + plan_steps(
                    actions.skip(i + 1),
                    (open - 1) as nat,
                )
            },
        },
{
    assert(actions.skip(i).drop_first() =~= actions.skip(i + 1));
    assert(actions.skip(i)[0] == actions[i]);
}

fn push_op(ops: &mut Vec<NetOp>, op: NetOp)
    ensures
        steps(final(ops)@) == steps(old(ops)@).push(op.step()),
{
    let ghost before = ops@;
    ops.push(op);
    assert(steps(ops@) =~= steps(before).push(op.step()));
}

/// The network operations a test case stands for, or `None` when it holds
/// more than `MAX_ACTIONS` actions (network actions are slow; such test cases
/// are not run).
pub fn plan_test_case(input: &TestCase<'_>) -> (r: Option<Vec<NetOp>>)
    ensures
        r is None <==> input.actions@.len() > MAX_ACTIONS,
        r matches Some(ops) ==> steps(ops@) == plan_steps(input.actions@, 0),
{
    let actions = &input.actions;
    if actions.len() > MAX_ACTIONS {
        return None;
    }
    let mut ops: Vec<NetOp> = Vec::new();
    let mut open: usize = 0;
    let mut i: usize = 0;
    assert(actions@.skip(0) =~= actions@);
    while i < actions.len()
        invariant
            actions@.len() <= MAX_ACTIONS,
            i <= actions@.len(),
            open <= i,
            plan_steps(actions@, 0) == steps(ops@) + plan_steps(actions@.skip(i as int), open as nat),
        decreases actions@.len() - i,
    {
        proof {
            lemma_plan_step(actions@, i as int, open as nat);
        }
        match &actions[i] {
            Action::Connect => {
                push_op(&mut ops, NetOp::Connect);
                open = open + 1;
            },
            Action::SendMessage { connection_id, message } => {
                if open > 0 {
                    let slot = (*connection_id as usize) % open;
                    push_op(&mut ops, NetOp::Send { slot, request: build_request(message) });
                }
            },
            Action::Disconnect { connection_id } => {
                if open > 0 {
                    let slot = (*connection_id as usize) % open;
                    push_op(&mut ops, NetOp::Close { slot });
                    open = open - 1;
                }
            },
        }
        i = i + 1;
    }
    assert(actions@.skip(i as int) =~= Seq::<Action>::empty());
    Some(ops)
}

} // verus!
