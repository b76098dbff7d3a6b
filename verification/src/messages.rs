//! The wire protocol: inbound command frames and outbound reply frames.
//!
//! A client sends one JSON object per frame, `{"request": <op>, "content":
//! <string|null>}`, with opcode `0` = send message, `1` = list rooms, `2` =
//! set name, `3` = join room.  The server answers with `{"request": <int>,
//! "message": <string|null>, "room_list": [..]|null, "error": <string>}`,
//! where `error` is the literal `"none"` on success.  The grammar of both
//! shapes is defined here as specification functions, and the executable
//! codec is proved against them.  Frames are read in their canonical member
//! order, `request` first; anything else is malformed, and malformed frames
//! are ignored rather than fatal.

use vstd::prelude::*;

verus! {

/// A decoded client command.
#[derive(Debug)]
pub enum Command {
    /// Ask for the names of the rooms that currently exist (opcode 1).
    ListRooms,
    /// Set the display name used to prefix chat messages (opcode 2).
    SetName(String),
    /// Join a room, leaving the current one (opcode 3).
    JoinRoom(String),
    /// Relay a chat message to the current room (opcode 0).
    ChatMsg(String),
}

/// Spec-level image of a command.
pub enum CommandView {
    ListRooms,
    SetName(Seq<char>),
    JoinRoom(Seq<char>),
    ChatMsg(Seq<char>),
}

impl View for Command {
    type V = CommandView;

    open spec fn view(&self) -> CommandView {
        match self {
            Command::ListRooms => CommandView::ListRooms,
            Command::SetName(s) => CommandView::SetName(s@),
            Command::JoinRoom(s) => CommandView::JoinRoom(s@),
            Command::ChatMsg(s) => CommandView::ChatMsg(s@),
        }
    }
}

/// Why an inbound frame produced no command.
#[derive(Clone, Copy, Debug, PartialEq, Eq, Structural)]
pub enum DecodeError {
    /// Not a well-formed frame.  Ignored; the connection stays open.
    Malformed,
    /// A well-formed frame with an opcode this protocol does not know.
    /// Ignored, no reply.
    UnknownRequest,
    /// The named opcode needs `content`, and the frame had none: answered
    /// with an error reply frame.
    MissingContent(u64),
}

/// One inbound frame.
#[derive(Debug)]
pub struct CommandRequest {
    pub payload: Command,
}

/// The frame grammar treats space, tab and line breaks as blank.
pub open spec fn is_ws(c: char) -> bool {
    c == ' ' || c == '\t' || c == '\n' || c == '\r'
}

/// Index of the first non-blank character at or after `i`.
pub open spec fn skip_ws(s: Seq<char>, i: int) -> int
    decreases s.len() - i,
{
    if 0 <= i < s.len() && is_ws(s[i]) {
        skip_ws(s, i + 1)
    } else {
        i
    }
}

/// `lit` occurs in `s` at position `i`.
pub open spec fn has_lit(s: Seq<char>, i: int, lit: Seq<char>) -> bool {
    0 <= i && i + lit.len() <= s.len() && s.subrange(i, i + lit.len()) == lit
}

/// A decimal digit.
pub open spec fn is_digit(c: char) -> bool {
    '0' <= c && c <= '9'
}

/// The value of one decimal digit.
pub open spec fn digit_val(c: char) -> nat {
    (c as int - '0' as int) as nat
}

/// Index right after the run of digits starting at `i`.
pub open spec fn digits_end(s: Seq<char>, i: int) -> int
    decreases s.len() - i,
{
    if 0 <= i < s.len() && is_digit(s[i]) {
        digits_end(s, i + 1)
    } else {
        i
    }
}

/// The value of a sequence of decimal digits.
pub open spec fn digits_val(d: Seq<char>) -> nat
    decreases d.len(),
{
    if d.len() == 0 {
        0
    } else {
        digits_val(d.drop_last()) * 10 + digit_val(d.last())
    }
}

/// Scan the decimal number starting at `i`: its value and the index after it.
pub open spec fn scan_number(s: Seq<char>, i: int) -> Option<(nat, int)> {
    if 0 <= i < s.len() && is_digit(s[i]) {
        Some((digits_val(s.subrange(i, digits_end(s, i))), digits_end(s, i)))
    } else {
        None
    }
}

/// Scan a JSON string body starting right after the opening quote.  The
/// escapes `\"` and `\\` are understood; any other use of `\` is malformed.
/// Returns the decoded text and the index right after the closing quote.
pub open spec fn scan_string(s: Seq<char>, i: int) -> Option<(Seq<char>, int)>
    decreases s.len() - i,
{
    if i < 0 || i >= s.len() {
        None
    } else if s[i] == '"' {
        Some((Seq::empty(), i + 1))
    } else if s[i] == '\\' {
        if i + 1 < s.len() && (s[i + 1] == '"' || s[i + 1] == '\\') {
            match scan_string(s, i + 2) {
                Some((t, j)) => Some((seq![s[i + 1]] + t, j)),
                None => None,
            }
        } else {
            None
        }
    } else {
        match scan_string(s, i + 1) {
            Some((t, j)) => Some((seq![s[i]] + t, j)),
            None => None,
        }
    }
}

/// The command an opcode and an optional content decode to.
pub open spec fn finish(op: nat, content: Option<Seq<char>>) -> Result<CommandView, DecodeError> {
    if op == 0 {
        match content {
            Some(t) => Ok(CommandView::ChatMsg(t)),
            None => Err(DecodeError::MissingContent(0)),
        }
    } else if op == 1 {
        Ok(CommandView::ListRooms)
    } else if op == 2 {
        match content {
            Some(t) => Ok(CommandView::SetName(t)),
            None => Err(DecodeError::MissingContent(2)),
        }
    } else if op == 3 {
        match content {
            Some(t) => Ok(CommandView::JoinRoom(t)),
            None => Err(DecodeError::MissingContent(3)),
        }
    } else {
        Err(DecodeError::UnknownRequest)
    }
}

/// The frame is complete at `i` up to blanks and the closing brace.
pub open spec fn close_frame(s: Seq<char>, i: int, op: nat, content: Option<Seq<char>>) -> Result<
    CommandView,
    DecodeError,
> {
    if has_lit(s, i, "}"@) && skip_ws(s, i + 1) == s.len() {
        finish(op, content)
    } else {
        Err(DecodeError::Malformed)
    }
}

/// What may follow the opcode: the end of the object, or a `content` member.
pub open spec fn parse_tail(s: Seq<char>, i: int, op: nat) -> Result<CommandView, DecodeError> {
    if has_lit(s, i, "}"@) && skip_ws(s, i + 1) == s.len() {
        finish(op, None)
    } else if has_lit(s, i, ","@) {
        let i1 = skip_ws(s, i + 1);
        if !has_lit(s, i1, "\"content\""@) {
            Err(DecodeError::Malformed)
        } else {
            let i2 = skip_ws(s, i1 + "\"content\""@.len());
            if !has_lit(s, i2, ":"@) {
                Err(DecodeError::Malformed)
            } else {
                let i3 = skip_ws(s, i2 + 1);
                if has_lit(s, i3, "null"@) {
                    close_frame(s, skip_ws(s, i3 + 4), op, None)
                } else if has_lit(s, i3, "\""@) {
                    match scan_string(s, i3 + 1) {
                        Some((t, j)) => close_frame(s, skip_ws(s, j), op, Some(t)),
                        None => Err(DecodeError::Malformed),
                    }
                } else {
                    Err(DecodeError::Malformed)
                }
            }
        }
    } else {
        Err(DecodeError::Malformed)
    }
}

/// The meaning of one inbound text frame: the command it carries, or why it
/// carries none.
pub open spec fn parse_frame(s: Seq<char>) -> Result<CommandView, DecodeError> {
    let i0 = skip_ws(s, 0);
    if !has_lit(s, i0, "{"@) {
        Err(DecodeError::Malformed)
    } else {
        let i1 = skip_ws(s, i0 + 1);
        if !has_lit(s, i1, "\"request\""@) {
            Err(DecodeError::Malformed)
        } else {
            let i2 = skip_ws(s, i1 + "\"request\""@.len());
            if !has_lit(s, i2, ":"@) {
                Err(DecodeError::Malformed)
            } else {
                let i3 = skip_ws(s, i2 + 1);
                match scan_number(s, i3) {
                    Some((op, i4)) => parse_tail(s, skip_ws(s, i4), op),
                    None => Err(DecodeError::Malformed),
                }
            }
        }
    }
}

/// Skipping blanks, executably.
fn skip_ws_x(s: &str, i: usize) -> (j: usize)
    requires
        i <= s@.len(),
    ensures
        j as int == skip_ws(s@, i as int),
        i <= j <= s@.len(),
{
    let n = s.unicode_len();
    let mut cur = i;
    loop
        invariant
            i <= cur <= n,
            n == s@.len(),
            skip_ws(s@, i as int) == skip_ws(s@, cur as int),
        ensures
            skip_ws(s@, i as int) == cur as int,
        decreases n - cur,
    {
        if cur >= n {
            break;
        }
        let c = s.get_char(cur);
        if !(c == ' ' || c == '\t' || c == '\n' || c == '\r') {
            break;
        }
        cur = cur + 1;
    }
    cur
}

/// Literal match, executably.
fn lit_at(s: &str, i: usize, lit: &str) -> (b: bool)
    requires
        i <= s@.len(),
    ensures
        b == has_lit(s@, i as int, lit@),
{
    let n = s.unicode_len();
    let m = lit.unicode_len();
    if m > n - i {
        return false;
    }
    let mut k: usize = 0;
    while k < m
        invariant
            0 <= k <= m,
            i + m <= n,
            n == s@.len(),
            m == lit@.len(),
            forall|l: int| 0 <= l < k ==> s@[i + l] == lit@[l],
        decreases m - k,
    {
        if s.get_char(i + k) != lit.get_char(k) {
            proof {
                if has_lit(s@, i as int, lit@) {
                    assert(s@.subrange(i as int, i + lit@.len())[k as int] == lit@[k as int]);
                    assert(false);
                }
            }
            return false;
        }
        k = k + 1;
    }
    proof {
        assert(s@.subrange(i as int, i + lit@.len()) =~= lit@);
    }
    true
}

/// Decimal scan, executably.  Opcodes above 3 all mean the same thing to the
/// protocol, so the value is clamped to 4 instead of being computed in full.
fn scan_number_x(s: &str, i: usize) -> (r: Option<(u64, usize)>)
    requires
        i <= s@.len(),
    ensures
        r is Some <==> scan_number(s@, i as int) is Some,
        r matches Some(p) ==> scan_number(s@, i as int) matches Some(q) && p.1 as int == q.1
            && p.0 as nat == (if q.0 > 3 {
            4nat
        } else {
            q.0
        }) && p.1 <= s@.len(),
{
    let n = s.unicode_len();
    if i >= n {
        return None;
    }
    let c0 = s.get_char(i);
    if !(c0 >= '0' && c0 <= '9') {
        return None;
    }
    let mut cur = i;
    let mut m: u64 = 0;
    loop
        invariant
            i <= cur <= n,
            n == s@.len(),
            digits_end(s@, i as int) == digits_end(s@, cur as int),
            m as nat == (if digits_val(s@.subrange(i as int, cur as int)) > 3 {
                4nat
            } else {
                digits_val(s@.subrange(i as int, cur as int))
            }),
        ensures
            i <= cur <= n,
            digits_end(s@, i as int) == cur as int,
            m as nat == (if digits_val(s@.subrange(i as int, cur as int)) > 3 {
                4nat
            } else {
                digits_val(s@.subrange(i as int, cur as int))
            }),
        decreases n - cur,
    {
        if cur >= n {
            break;
        }
        let c = s.get_char(cur);
        if !(c >= '0' && c <= '9') {
            break;
        }
        let d = (c as u32 - '0' as u32) as u64;
        proof {
            assert(s@.subrange(i as int, cur + 1).drop_last() =~= s@.subrange(
                i as int,
                cur as int,
            ));
            assert(s@.subrange(i as int, cur + 1).last() == s@[cur as int]);
            assert(digit_val(s@[cur as int]) == d as nat);
        }
        if m > 3 {
            m = 4;
        } else {
            let t = m * 10 + d;
            if t > 3 {
                m = 4;
            } else {
                m = t;
            }
        }
        cur = cur + 1;
    }
    Some((m, cur))
}

/// JSON string scan, executably.  The decoded text is assembled from
/// substrings of the input and the two characters an escape can stand for.
fn scan_string_x(s: &str, i: usize) -> (r: Option<(String, usize)>)
    requires
        i <= s@.len(),
    ensures
        r is Some <==> scan_string(s@, i as int) is Some,
        r matches Some(p) ==> scan_string(s@, i as int) matches Some(q) && p.0@ == q.0
            && p.1 as int == q.1 && p.1 <= s@.len(),
{
    let n = s.unicode_len();
    let mut out = String::new();
    let mut seg: usize = i;
    let mut cur: usize = i;
    loop
        invariant
            i <= seg <= cur <= n,
            n == s@.len(),
            match scan_string(s@, cur as int) {
                Some(q) => scan_string(s@, i as int) == Some::<(Seq<char>, int)>(
                    (out@ + s@.subrange(seg as int, cur as int) + q.0, q.1),
                ),
                None => scan_string(s@, i as int) is None,
            },
        decreases n - cur,
    {
        if cur >= n {
            return None;
        }
        let c = s.get_char(cur);
        if c == '"' {
            let tail = s.substring_char(seg, cur);
            out.append(tail);
            proof {
                assert(scan_string(s@, cur as int) == Some::<(Seq<char>, int)>(
                    (Seq::empty(), cur + 1),
                ));
                assert(out@ + s@.subrange(cur as int, cur as int) + Seq::<char>::empty() =~= out@);
                assert(s@.subrange(seg as int, cur as int) + Seq::<char>::empty() =~= s@.subrange(
                    seg as int,
                    cur as int,
                ));
            }
            return Some((out, cur + 1));
        }
        if c == '\\' {
            if cur + 1 >= n {
                return None;
            }
            let e = s.get_char(cur + 1);
            if e == '"' || e == '\\' {
                let ghost before = out@;
                let tail = s.substring_char(seg, cur);
                out.append(tail);
                if e == '"' {
                    out.append("\"");
                    proof {
                        reveal_strlit("\"");
                        assert(out@ =~= before + s@.subrange(seg as int, cur as int) + seq![e]);
                    }
                } else {
                    out.append("\\");
                    proof {
                        reveal_strlit("\\");
                        assert(out@ =~= before + s@.subrange(seg as int, cur as int) + seq![e]);
                    }
                }
                proof {
                    assert forall|q: (Seq<char>, int)|
                        scan_string(s@, cur + 2) == Some::<(Seq<char>, int)>(q) implies scan_string(
                        s@,
                        cur as int,
                    ) == Some::<(Seq<char>, int)>((seq![e] + q.0, q.1)) by {}
                    assert forall|q: (Seq<char>, int)|
                        scan_string(s@, cur + 2) == Some::<(Seq<char>, int)>(q) implies out@
                        + s@.subrange(cur + 2, cur + 2) + q.0 =~= before + s@.subrange(
                        seg as int,
                        cur as int,
                    ) + (seq![e] + q.0) by {}
                }
                cur = cur + 2;
                seg = cur;
            } else {
                return None;
            }
        } else {
            proof {
                assert(s@.subrange(seg as int, cur + 1) =~= s@.subrange(seg as int, cur as int)
                    + seq![s@[cur as int]]);
                assert forall|q: (Seq<char>, int)|
                    scan_string(s@, cur + 1) == Some::<(Seq<char>, int)>(q) implies out@
                    + s@.subrange(seg as int, cur + 1) + q.0 =~= out@ + s@.subrange(
                    seg as int,
                    cur as int,
                ) + (seq![s@[cur as int]] + q.0) by {}
            }
            cur = cur + 1;
        }
    }
}

/// Spec view of an optional text value.
pub open spec fn opt_seq(o: Option<String>) -> Option<Seq<char>> {
    match o {
        Some(s) => Some(s@),
        None => None,
    }
}

/// Opcodes above 3 are all the same to `finish`.
proof fn lemma_finish_class(op1: nat, op2: nat)
    requires
        op1 == op2 || (op1 > 3 && op2 > 3),
    ensures
        forall|c: Option<Seq<char>>| #[trigger] finish(op1, c) == finish(op2, c),
{
}

/// Opcodes above 3 are all the same to the rest of the frame.
proof fn lemma_tail_class(s: Seq<char>, i: int, op1: nat, op2: nat)
    requires
        op1 == op2 || (op1 > 3 && op2 > 3),
    ensures
        parse_tail(s, i, op1) == parse_tail(s, i, op2),
{
    lemma_finish_class(op1, op2);
}

/// Opcode dispatch, executably.
fn finish_x(m: u64, content: Option<String>) -> (r: Result<CommandRequest, DecodeError>)
    ensures
        r is Ok <==> finish(m as nat, opt_seq(content)) is Ok,
        r matches Ok(req) ==> finish(m as nat, opt_seq(content)) == Ok::<CommandView, DecodeError>(
            req.payload@,
        ),
        r matches Err(e) ==> finish(m as nat, opt_seq(content)) == Err::<CommandView, DecodeError>(
            e,
        ),
{
    if m == 0 {
        match content {
            Some(t) => Ok(CommandRequest { payload: Command::ChatMsg(t) }),
            None => Err(DecodeError::MissingContent(0)),
        }
    } else if m == 1 {
        Ok(CommandRequest { payload: Command::ListRooms })
    } else if m == 2 {
        match content {
            Some(t) => Ok(CommandRequest { payload: Command::SetName(t) }),
            None => Err(DecodeError::MissingContent(2)),
        }
    } else if m == 3 {
        match content {
            Some(t) => Ok(CommandRequest { payload: Command::JoinRoom(t) }),
            None => Err(DecodeError::MissingContent(3)),
        }
    } else {
        Err(DecodeError::UnknownRequest)
    }
}

/// End of frame, executably.
fn close_x(s: &str, ic: usize, m: u64, content: Option<String>) -> (r: Result<
    CommandRequest,
    DecodeError,
>)
    requires
        ic <= s@.len(),
    ensures
        r is Ok <==> close_frame(s@, ic as int, m as nat, opt_seq(content)) is Ok,
        r matches Ok(req) ==> close_frame(s@, ic as int, m as nat, opt_seq(content)) == Ok::<
            CommandView,
            DecodeError,
        >(req.payload@),
        r matches Err(e) ==> close_frame(s@, ic as int, m as nat, opt_seq(content)) == Err::<
            CommandView,
            DecodeError,
        >(e),
{
    proof {
        reveal_strlit("}");
    }
    let n = s.unicode_len();
    if lit_at(s, ic, "}") {
        let e = skip_ws_x(s, ic + 1);
        if e == n {
            return finish_x(m, content);
        }
    }
    Err(DecodeError::Malformed)
}

/// Everything after the opcode, executably.
fn tail_x(s: &str, i: usize, m: u64) -> (r: Result<CommandRequest, DecodeError>)
    requires
        i <= s@.len(),
    ensures
        r is Ok <==> parse_tail(s@, i as int, m as nat) is Ok,
        r matches Ok(req) ==> parse_tail(s@, i as int, m as nat) == Ok::<CommandView, DecodeError>(
            req.payload@,
        ),
        r matches Err(e) ==> parse_tail(s@, i as int, m as nat) == Err::<CommandView, DecodeError>(
            e,
        ),
{
    proof {
        reveal_strlit("}");
        reveal_strlit(",");
        reveal_strlit("\"content\"");
        reveal_strlit(":");
        reveal_strlit("null");
        reveal_strlit("\"");
    }
    let n = s.unicode_len();
    if lit_at(s, i, "}") {
        let e = skip_ws_x(s, i + 1);
        if e == n {
            return finish_x(m, None);
        }
        proof {
            if has_lit(s@, i as int, ","@) {
                assert(s@.subrange(i as int, i + 1) == "}"@);
                assert(s@.subrange(i as int, i + 1) == ","@);
                assert(s@.subrange(i as int, i + 1)[0] == '}');
                assert(s@.subrange(i as int, i + 1)[0] == ',');
                assert(false);
            }
        }
        return Err(DecodeError::Malformed);
    }
    if !lit_at(s, i, ",") {
        return Err(DecodeError::Malformed);
    }
    let i1 = skip_ws_x(s, i + 1);
    if !lit_at(s, i1, "\"content\"") {
        return Err(DecodeError::Malformed);
    }
    let i2 = skip_ws_x(s, i1 + 9);
    if !lit_at(s, i2, ":") {
        return Err(DecodeError::Malformed);
    }
    let i3 = skip_ws_x(s, i2 + 1);
    if lit_at(s, i3, "null") {
        let ic = skip_ws_x(s, i3 + 4);
        return close_x(s, ic, m, None);
    }
    if lit_at(s, i3, "\"") {
        match scan_string_x(s, i3 + 1) {
            Some((t, j)) => {
                let ic = skip_ws_x(s, j);
                return close_x(s, ic, m, Some(t));
            },
            None => {
                return Err(DecodeError::Malformed);
            },
        }
    }
    Err(DecodeError::Malformed)
}

impl CommandRequest {
    /// Decode one inbound text frame: the command it carries, under
    /// `parse_frame`, or the reason it carries none.
    pub fn from_str(text: &String) -> (r: Result<CommandRequest, DecodeError>)
        ensures
            r is Ok <==> parse_frame(text@) is Ok,
            r matches Ok(req) ==> parse_frame(text@) == Ok::<CommandView, DecodeError>(
                req.payload@,
            ),
            r matches Err(e) ==> parse_frame(text@) == Err::<CommandView, DecodeError>(e),
    {
        proof {
            reveal_strlit("{");
            reveal_strlit("\"request\"");
            reveal_strlit(":");
        }
        let s = text.as_str();
        let n = s.unicode_len();
        let i0 = skip_ws_x(s, 0);
        if !lit_at(s, i0, "{") {
            return Err(DecodeError::Malformed);
        }
        let i1 = skip_ws_x(s, i0 + 1);
        if !lit_at(s, i1, "\"request\"") {
            return Err(DecodeError::Malformed);
        }
        let i2 = skip_ws_x(s, i1 + 9);
        if !lit_at(s, i2, ":") {
            return Err(DecodeError::Malformed);
        }
        let i3 = skip_ws_x(s, i2 + 1);
        match scan_number_x(s, i3) {
            None => Err(DecodeError::Malformed),
            Some((m, i4)) => {
                let i5 = skip_ws_x(s, i4);
                let ghost q = choose|q: (nat, int)|
                    scan_number(s@, i3 as int) == Some::<(nat, int)>(q);
                proof {
                    lemma_tail_class(s@, i5 as int, m as nat, q.0);
                    assert(parse_frame(text@) == parse_tail(s@, i5 as int, q.0));
                }
                tail_x(s, i5, m)
            },
        }
    }
}

/// What a reply frame answers with.
pub enum ResponsePayload {
    /// A relayed chat message, delivered to every member of the room
    /// (answers opcode 0).
    ChatMsg(String),
    /// The names of the rooms that currently exist (answers opcode 1).
    AvailableRooms(Vec<String>),
    /// Confirmation that the display name was set (answers opcode 2).
    NameSet(String),
    /// Confirmation that the room was joined (answers opcode 3).
    JoinedRoom(String),
    /// No payload: an error reply for the named opcode.
    Rejected(u64),
}

/// Spec-level image of a reply payload.
pub enum ResponsePayloadView {
    ChatMsg(Seq<char>),
    AvailableRooms(Seq<Seq<char>>),
    NameSet(Seq<char>),
    JoinedRoom(Seq<char>),
    Rejected(u64),
}

impl View for ResponsePayload {
    type V = ResponsePayloadView;

    open spec fn view(&self) -> ResponsePayloadView {
        match self {
            ResponsePayload::ChatMsg(m) => ResponsePayloadView::ChatMsg(m@),
            ResponsePayload::AvailableRooms(r) => ResponsePayloadView::AvailableRooms(
                r.deep_view(),
            ),
            ResponsePayload::NameSet(n) => ResponsePayloadView::NameSet(n@),
            ResponsePayload::JoinedRoom(n) => ResponsePayloadView::JoinedRoom(n@),
            ResponsePayload::Rejected(op) => ResponsePayloadView::Rejected(*op),
        }
    }
}

/// One outbound reply frame.
pub struct CommandResponse {
    payload: ResponsePayload,
    error: Option<String>,
}

/// Spec-level image of a reply frame.
pub struct CommandResponseView {
    pub payload: ResponsePayloadView,
    pub error: Option<Seq<char>>,
}

impl View for CommandResponse {
    type V = CommandResponseView;

    closed spec fn view(&self) -> CommandResponseView {
        CommandResponseView { payload: self.payload@, error: opt_seq(self.error) }
    }
}

/// The opcode a reply payload answers.
pub open spec fn code_of(p: ResponsePayloadView) -> u64 {
    match p {
        ResponsePayloadView::ChatMsg(_) => 0,
        ResponsePayloadView::AvailableRooms(_) => 1,
        ResponsePayloadView::NameSet(_) => 2,
        ResponsePayloadView::JoinedRoom(_) => 3,
        ResponsePayloadView::Rejected(op) => op,
    }
}

/// The decimal digit `d`, as a character; defined for `d < 10`.
pub open spec fn digit_char(d: nat) -> char {
    if d == 0 {
        '0'
    } else if d == 1 {
        '1'
    } else if d == 2 {
        '2'
    } else if d == 3 {
        '3'
    } else if d == 4 {
        '4'
    } else if d == 5 {
        '5'
    } else if d == 6 {
        '6'
    } else if d == 7 {
        '7'
    } else if d == 8 {
        '8'
    } else {
        '9'
    }
}

/// The decimal rendering of `n`, most significant digit first.
pub open spec fn dec_str(n: nat) -> Seq<char>
    decreases n,
{
    if n < 10 {
        seq![digit_char(n)]
    } else {
        dec_str(n / 10) + seq![digit_char(n % 10)]
    }
}

/// How one character is written inside a JSON string.
pub open spec fn escape_char(c: char) -> Seq<char> {
    if c == '"' {
        seq!['\\', '"']
    } else if c == '\\' {
        seq!['\\', '\\']
    } else {
        seq![c]
    }
}

/// A text, as written inside a JSON string.
pub open spec fn json_escape(s: Seq<char>) -> Seq<char>
    decreases s.len(),
{
    if s.len() == 0 {
        Seq::empty()
    } else {
        json_escape(s.drop_last()) + escape_char(s.last())
    }
}

/// A JSON string: the text between quotes, escaped.
pub open spec fn quoted(s: Seq<char>) -> Seq<char> {
    seq!['"'] + json_escape(s) + seq!['"']
}

/// The comma-separated items of a room list.
pub open spec fn rooms_items(rooms: Seq<Seq<char>>) -> Seq<char>
    decreases rooms.len(),
{
    if rooms.len() == 0 {
        Seq::empty()
    } else if rooms.len() == 1 {
        quoted(rooms[0])
    } else {
        rooms_items(rooms.drop_last()) + seq![','] + quoted(rooms.last())
    }
}

/// A JSON array of room names.
pub open spec fn rooms_json(rooms: Seq<Seq<char>>) -> Seq<char> {
    seq!['['] + rooms_items(rooms) + seq![']']
}

/// The `message` member of a reply.
pub open spec fn message_json(p: ResponsePayloadView) -> Seq<char> {
    match p {
        ResponsePayloadView::ChatMsg(m) => quoted(m),
        ResponsePayloadView::NameSet(n) => quoted(n),
        ResponsePayloadView::JoinedRoom(n) => quoted(n),
        ResponsePayloadView::AvailableRooms(_) => "null"@,
        ResponsePayloadView::Rejected(_) => "null"@,
    }
}

/// The `room_list` member of a reply.
pub open spec fn room_list_json(p: ResponsePayloadView) -> Seq<char> {
    match p {
        ResponsePayloadView::AvailableRooms(r) => rooms_json(r),
        _ => "null"@,
    }
}

/// The `error` member of a reply: the literal `"none"` on success.
pub open spec fn error_json(e: Option<Seq<char>>) -> Seq<char> {
    match e {
        Some(t) => quoted(t),
        None => quoted("none"@),
    }
}

/// The exact text of one reply frame.
pub open spec fn response_text(r: CommandResponseView) -> Seq<char> {
    "{\"request\":"@ + dec_str(code_of(r.payload) as nat) + ",\"message\":"@ + message_json(
        r.payload,
    ) + ",\"room_list\":"@ + room_list_json(r.payload) + ",\"error\":"@ + error_json(r.error)
        + "}"@
}

/// One decimal digit, as a borrowed piece of text.
fn digit_str(d: u64) -> (r: &'static str)
    requires
        d < 10,
    ensures
        r@ == seq![digit_char(d as nat)],
{
    let r = if d == 0 {
        "0"
    } else if d == 1 {
        "1"
    } else if d == 2 {
        "2"
    } else if d == 3 {
        "3"
    } else if d == 4 {
        "4"
    } else if d == 5 {
        "5"
    } else if d == 6 {
        "6"
    } else if d == 7 {
        "7"
    } else if d == 8 {
        "8"
    } else {
        "9"
    };
    proof {
        reveal_strlit("0");
        reveal_strlit("1");
        reveal_strlit("2");
        reveal_strlit("3");
        reveal_strlit("4");
        reveal_strlit("5");
        reveal_strlit("6");
        reveal_strlit("7");
        reveal_strlit("8");
        reveal_strlit("9");
        assert(r@ =~= seq![digit_char(d as nat)]);
    }
    r
}

/// Append the decimal rendering of `n`.
fn push_dec(out: &mut String, n: u64)
    ensures
        final(out)@ == old(out)@ + dec_str(n as nat),
    decreases n,
{
    if n >= 10 {
        push_dec(out, n / 10);
        let d = digit_str(n % 10);
        out.append(d);
        proof {
            assert(final(out)@ =~= old(out)@ + dec_str(n as nat));
        }
    } else {
        let d = digit_str(n);
        out.append(d);
    }
}

/// Append `s` with JSON string escaping.
fn push_escaped(out: &mut String, s: &String)
    ensures
        final(out)@ == old(out)@ + json_escape(s@),
{
    let st = s.as_str();
    let n = st.unicode_len();
    let mut i: usize = 0;
    while i < n
        invariant
            i <= n,
            n == s@.len(),
            st@ == s@,
            out@ == old(out)@ + json_escape(s@.take(i as int)),
        decreases n - i,
    {
        proof {
            assert(s@.take(i + 1).drop_last() =~= s@.take(i as int));
            assert(s@.take(i + 1).last() == s@[i as int]);
        }
        let c = st.get_char(i);
        if c == '"' {
            out.append("\\\"");
            proof {
                reveal_strlit("\\\"");
                assert("\\\""@ =~= escape_char(c));
            }
        } else if c == '\\' {
            out.append("\\\\");
            proof {
                reveal_strlit("\\\\");
                assert("\\\\"@ =~= escape_char(c));
            }
        } else {
            let piece = st.substring_char(i, i + 1);
            out.append(piece);
            proof {
                assert(piece@ =~= escape_char(c));
            }
        }
        proof {
            assert(out@ =~= old(out)@ + json_escape(s@.take(i + 1)));
        }
        i = i + 1;
    }
    proof {
        assert(s@.take(n as int) =~= s@);
    }
}

/// Append `s` as a JSON string, quotes and escapes included.
fn push_quoted(out: &mut String, s: &String)
    ensures
        final(out)@ == old(out)@ + quoted(s@),
{
    out.append("\"");
    proof {
        reveal_strlit("\"");
        assert(out@ =~= old(out)@ + seq!['"']);
    }
    push_escaped(out, s);
    out.append("\"");
    proof {
        assert(final(out)@ =~= old(out)@ + quoted(s@));
    }
}

/// Append a JSON array holding the room names.
fn push_rooms(out: &mut String, rooms: &Vec<String>)
    ensures
        final(out)@ == old(out)@ + rooms_json(rooms.deep_view()),
{
    let ghost d = rooms.deep_view();
    out.append("[");
    proof {
        reveal_strlit("[");
        assert(d.take(0) =~= Seq::<Seq<char>>::empty());
        assert(out@ =~= old(out)@ + seq!['['] + rooms_items(d.take(0)));
    }
    let mut k: usize = 0;
    while k < rooms.len()
        invariant
            k <= rooms@.len(),
            d == rooms.deep_view(),
            d.len() == rooms@.len(),
            forall|l: int| 0 <= l < d.len() ==> d[l] == (#[trigger] rooms@[l])@,
            out@ == old(out)@ + seq!['['] + rooms_items(d.take(k as int)),
        decreases rooms@.len() - k,
    {
        proof {
            assert(d.take(k + 1).drop_last() =~= d.take(k as int));
            assert(d.take(k + 1).last() == d[k as int]);
        }
        if k > 0 {
            out.append(",");
            proof {
                reveal_strlit(",");
            }
        }
        push_quoted(out, &rooms[k]);
        proof {
            assert(d[k as int] == rooms@[k as int]@);
            assert(out@ =~= old(out)@ + seq!['['] + rooms_items(d.take(k + 1)));
        }
        k = k + 1;
    }
    out.append("]");
    proof {
        reveal_strlit("]");
        assert(d.take(d.len() as int) =~= d);
        assert(final(out)@ =~= old(out)@ + rooms_json(d));
    }
}

impl CommandResponse {
    /// A reply frame from its payload; pass `None` for a successful reply,
    /// whose `error` member is then the literal `"none"`.
    pub fn new(payload: ResponsePayload, error: Option<String>) -> (r: CommandResponse)
        ensures
            r@.payload == payload@,
            r@.error == opt_seq(error),
    {
        CommandResponse { payload, error }
    }

    /// The opcode this reply answers.
    fn request_code(&self) -> (c: u64)
        ensures
            c == code_of(self@.payload),
    {
        match &self.payload {
            ResponsePayload::ChatMsg(_) => 0,
            ResponsePayload::AvailableRooms(_) => 1,
            ResponsePayload::NameSet(_) => 2,
            ResponsePayload::JoinedRoom(_) => 3,
            ResponsePayload::Rejected(op) => *op,
        }
    }

    /// The exact frame text, under `response_text`.
    pub fn stringify(&self) -> (r: String)
        ensures
            r@ == response_text(self@),
    {
        let mut out = String::new();
        out.append("{\"request\":");
        let code = self.request_code();
        push_dec(&mut out, code);
        out.append(",\"message\":");
        match &self.payload {
            ResponsePayload::ChatMsg(m) => push_quoted(&mut out, m),
            ResponsePayload::NameSet(nm) => push_quoted(&mut out, nm),
            ResponsePayload::JoinedRoom(nm) => push_quoted(&mut out, nm),
            ResponsePayload::AvailableRooms(_) => out.append("null"),
            ResponsePayload::Rejected(_) => out.append("null"),
        }
        out.append(",\"room_list\":");
        match &self.payload {
            ResponsePayload::AvailableRooms(rooms) => push_rooms(&mut out, rooms),
            ResponsePayload::ChatMsg(_) => out.append("null"),
            ResponsePayload::NameSet(_) => out.append("null"),
            ResponsePayload::JoinedRoom(_) => out.append("null"),
            ResponsePayload::Rejected(_) => out.append("null"),
        }
        out.append(",\"error\":");
        match &self.error {
            Some(e) => push_quoted(&mut out, e),
            None => {
                let none_text = String::from_str("none");
                push_quoted(&mut out, &none_text);
            },
        }
        out.append("}");
        proof {
            assert(out@ =~= response_text(self@));
        }
        out
    }
}

} // verus!
