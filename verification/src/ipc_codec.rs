//! The control-socket wire format.
//!
//! A request is one line holding a JSON-encoded command; a response is a
//! JSON value.  The encoder writes the compact tagged form with fields in
//! their declared order.  The decoder accepts exactly that canonical shape,
//! with whitespace allowed around the whole value and, inside string
//! literals, the escapes `\" \\ \/ \b \f \n \r \t` and `\uXXXX`
//! for code points below 0x80; reordered fields, whitespace between tokens
//! and higher `\u` escapes are not read.  Both ends of the socket are this
//! crate, and the bundled client always sends the canonical form.

use vstd::prelude::*;
use vstd::string::*;

use crate::ipc_command::{CommandModel, IpcCommand, view_opt_string};
use crate::ipc_response::{IpcResponse, ResponseModel};
use crate::text;

verus! {

pub open spec fn hex_digit_char(d: int) -> char {
    if d < 10 {
        text::digit_char(d)
    } else if d == 10 {
        'a'
    } else if d == 11 {
        'b'
    } else if d == 12 {
        'c'
    } else if d == 13 {
        'd'
    } else if d == 14 {
        'e'
    } else {
        'f'
    }
}

/// How one character appears inside a JSON string literal.
pub open spec fn esc_char(c: char) -> Seq<char> {
    if c == '"' {
        seq!['\\', '"']
    } else if c == '\\' {
        seq!['\\', '\\']
    } else if c == '\u{8}' {
        seq!['\\', 'b']
    } else if c == '\t' {
        seq!['\\', 't']
    } else if c == '\n' {
        seq!['\\', 'n']
    } else if c == '\u{c}' {
        seq!['\\', 'f']
    } else if c == '\r' {
        seq!['\\', 'r']
    } else if (c as u32) < 0x20 {
        seq![
            '\\',
            'u',
            '0',
            '0',
            hex_digit_char(c as u32 as int / 16),
            hex_digit_char(c as u32 as int % 16),
        ]
    } else {
        seq![c]
    }
}

pub open spec fn esc_str(s: Seq<char>) -> Seq<char>
    decreases s.len(),
{
    if s.len() == 0 {
        Seq::empty()
    } else {
        esc_str(s.drop_last()) + esc_char(s.last())
    }
}

/// A JSON string literal: quoted, escaped content.
pub open spec fn quote(s: Seq<char>) -> Seq<char> {
    seq!['"'] + esc_str(s) + seq!['"']
}

/// `null` or a string literal.
pub open spec fn enc_opt_str(o: Option<Seq<char>>) -> Seq<char> {
    match o {
        None => "null"@,
        Some(s) => quote(s),
    }
}

/// The encoding of a command.
pub open spec fn enc_command(m: CommandModel) -> Seq<char> {
    match m {
        CommandModel::Restart { process_name, directory } => "{\"Restart\":{\"process_name\":"@
            + enc_opt_str(process_name) + ",\"directory\":"@ + quote(directory) + "}}"@,
        CommandModel::Connect { process_name, directory } => "{\"Connect\":{\"process_name\":"@
            + enc_opt_str(process_name) + ",\"directory\":"@ + quote(directory) + "}}"@,
        CommandModel::Stop { app_name, directory } => "{\"Stop\":{\"app_name\":"@ + enc_opt_str(
            app_name,
        ) + ",\"directory\":"@ + quote(directory) + "}}"@,
        CommandModel::Ping => "\"Ping\""@,
    }
}

/// The encoding of a response.
pub open spec fn enc_response(m: ResponseModel) -> Seq<char> {
    match m {
        ResponseModel::NotFound(s) => "{\"NotFound\":"@ + quote(s) + "}"@,
        ResponseModel::ConnectionDetails { app_name, tmux_socket, tmux_session } => (
        "{\"ConnectionDetails\":{\"app_name\":"@ + quote(app_name) + ",\"tmux_socket\":"@ + quote(
            tmux_socket,
        ) + ",\"tmux_session\":"@ + quote(tmux_session) + "}}"@),
        ResponseModel::Status(s) => "{\"Status\":"@ + quote(s) + "}"@,
    }
}

fn hex_exec(d: u32) -> (c: char)
    requires
        d < 16,
    ensures
        c == hex_digit_char(d as int),
{
    if d == 0 {
        '0'
    } else if d == 1 {
        '1'
    } else if d == 2 {
        '2'
    } else if d == 3 {
        '3'
    } else if d == 4 {
        '4'
    } else if d == 5 {
        '5'
    } else if d == 6 {
        '6'
    } else if d == 7 {
        '7'
    } else if d == 8 {
        '8'
    } else if d == 9 {
        '9'
    } else if d == 10 {
        'a'
    } else if d == 11 {
        'b'
    } else if d == 12 {
        'c'
    } else if d == 13 {
        'd'
    } else if d == 14 {
        'e'
    } else {
        'f'
    }
}

/// Append the escaped form of `s`.
fn push_escaped(dst: &mut Vec<char>, s: &str)
    ensures
        final(dst)@ == old(dst)@ + esc_str(s@),
{
    let n: usize = s.unicode_len();
    let mut i: usize = 0;
    proof {
        assert(s@.subrange(0, 0) =~= Seq::<char>::empty());
        assert(dst@ =~= old(dst)@ + esc_str(s@.subrange(0, 0)));
    }
    while i < n
        invariant
            i <= n,
            n == s@.len(),
            dst@ == old(dst)@ + esc_str(s@.subrange(0, i as int)),
        decreases n - i,
    {
        let c = s.get_char(i);
        let ghost pre = s@.subrange(0, i as int);
        if c == '"' {
            dst.push('\\');
            dst.push('"');
        } else if c == '\\' {
            dst.push('\\');
            dst.push('\\');
        } else if c == '\u{8}' {
            dst.push('\\');
            dst.push('b');
        } else if c == '\t' {
            dst.push('\\');
            dst.push('t');
        } else if c == '\n' {
            dst.push('\\');
            dst.push('n');
        } else if c == '\u{c}' {
            dst.push('\\');
            dst.push('f');
        } else if c == '\r' {
            dst.push('\\');
            dst.push('r');
        } else if (c as u32) < 0x20 {
            dst.push('\\');
            dst.push('u');
            dst.push('0');
            dst.push('0');
            dst.push(hex_exec((c as u32) / 16));
            dst.push(hex_exec((c as u32) % 16));
        } else {
            dst.push(c);
        }
        i = i + 1;
        proof {
            assert(s@.subrange(0, i as int).drop_last() =~= pre);
            assert(s@.subrange(0, i as int).last() == c);
            assert(dst@ =~= old(dst)@ + (esc_str(pre) + esc_char(c)));
        }
    }
    proof {
        assert(s@.subrange(0, n as int) =~= s@);
    }
}

/// Append a JSON string literal.
fn push_quoted(dst: &mut Vec<char>, s: &str)
    ensures
        final(dst)@ == old(dst)@ + quote(s@),
{
    dst.push('"');
    push_escaped(dst, s);
    dst.push('"');
    proof {
        assert(dst@ =~= old(dst)@ + quote(s@));
    }
}

/// Append `null` or a JSON string literal.
fn push_opt_quoted(dst: &mut Vec<char>, o: &Option<String>)
    ensures
        final(dst)@ == old(dst)@ + enc_opt_str(
            match o {
                Some(s) => Some(s@),
                None => None,
            },
        ),
{
    match o {
        None => text::append_str(dst, "null"),
        Some(s) => push_quoted(dst, s.as_str()),
    }
}

/// Encode a command for the wire.
pub fn encode_command(c: &IpcCommand) -> (r: String)
    ensures
        r@ == enc_command(c@),
{
    let mut v: Vec<char> = Vec::new();
    match c {
        IpcCommand::Restart { process_name, directory } => {
            text::append_str(&mut v, "{\"Restart\":{\"process_name\":");
            push_opt_quoted(&mut v, process_name);
            text::append_str(&mut v, ",\"directory\":");
            push_quoted(&mut v, directory.as_str());
            text::append_str(&mut v, "}}");
            proof {
                assert(v@ =~= enc_command(c@));
            }
        },
        IpcCommand::Connect { process_name, directory } => {
            text::append_str(&mut v, "{\"Connect\":{\"process_name\":");
            push_opt_quoted(&mut v, process_name);
            text::append_str(&mut v, ",\"directory\":");
            push_quoted(&mut v, directory.as_str());
            text::append_str(&mut v, "}}");
            proof {
                assert(v@ =~= enc_command(c@));
            }
        },
        IpcCommand::Stop { app_name, directory } => {
            text::append_str(&mut v, "{\"Stop\":{\"app_name\":");
            push_opt_quoted(&mut v, app_name);
            text::append_str(&mut v, ",\"directory\":");
            push_quoted(&mut v, directory.as_str());
            text::append_str(&mut v, "}}");
            proof {
                assert(v@ =~= enc_command(c@));
            }
        },
        IpcCommand::Ping => {
            text::append_str(&mut v, "\"Ping\"");
            proof {
                assert(v@ =~= enc_command(c@));
            }
        },
    }
    text::string_of(&v)
}

/// Encode a response for the wire.
pub fn encode_response(resp: &IpcResponse) -> (r: String)
    ensures
        r@ == enc_response(resp@),
{
    let mut v: Vec<char> = Vec::new();
    match resp {
        IpcResponse::NotFound(m) => {
            text::append_str(&mut v, "{\"NotFound\":");
            push_quoted(&mut v, m.as_str());
            text::append_str(&mut v, "}");
            proof {
                assert(v@ =~= enc_response(resp@));
            }
        },
        IpcResponse::ConnectionDetails { app_name, tmux_socket, tmux_session } => {
            text::append_str(&mut v, "{\"ConnectionDetails\":{\"app_name\":");
            push_quoted(&mut v, app_name.as_str());
            text::append_str(&mut v, ",\"tmux_socket\":");
            push_quoted(&mut v, tmux_socket.as_str());
            text::append_str(&mut v, ",\"tmux_session\":");
            push_quoted(&mut v, tmux_session.as_str());
            text::append_str(&mut v, "}}");
            proof {
                assert(v@ =~= enc_response(resp@));
            }
        },
        IpcResponse::Status(m) => {
            text::append_str(&mut v, "{\"Status\":");
            push_quoted(&mut v, m.as_str());
            text::append_str(&mut v, "}");
            proof {
                assert(v@ =~= enc_response(resp@));
            }
        },
    }
    text::string_of(&v)
}

// ---- the decoder ----

pub open spec fn is_ws(c: char) -> bool {
    c == ' ' || c == '\t' || c == '\n' || c == '\r'
}

pub open spec fn skip_ws_rem(s: Seq<char>) -> Seq<char>
    decreases s.len(),
{
    if s.len() > 0 && is_ws(s[0]) {
        skip_ws_rem(s.drop_first())
    } else {
        s
    }
}

pub open spec fn all_ws(s: Seq<char>) -> bool {
    forall|i: int| 0 <= i < s.len() ==> is_ws(s[i])
}

pub open spec fn is_hex(c: char) -> bool {
    ('0' <= c && c <= '9') || ('a' <= c && c <= 'f') || ('A' <= c && c <= 'F')
}

pub open spec fn hex_val(c: char) -> int {
    if '0' <= c && c <= '9' {
        c as int - '0' as int
    } else if 'a' <= c && c <= 'f' {
        10 + c as int - 'a' as int
    } else {
        10 + c as int - 'A' as int
    }
}

/// What a backslash escape denotes, apart from `\u`.
pub open spec fn unescape1(e: char) -> Option<char> {
    if e == '"' {
        Some('"')
    } else if e == '\\' {
        Some('\\')
    } else if e == '/' {
        Some('/')
    } else if e == 'b' {
        Some('\u{8}')
    } else if e == 'f' {
        Some('\u{c}')
    } else if e == 'n' {
        Some('\n')
    } else if e == 'r' {
        Some('\r')
    } else if e == 't' {
        Some('\t')
    } else {
        None
    }
}

pub open spec fn prepend_parse(c: char, x: Option<(Seq<char>, Seq<char>)>) -> Option<
    (Seq<char>, Seq<char>),
> {
    match x {
        Some(p) => Some((seq![c] + p.0, p.1)),
        None => None,
    }
}

/// Parse the inside of a string literal, after the opening quote; yields the
/// decoded content and the remainder after the closing quote.
pub open spec fn parse_jstr_body(s: Seq<char>) -> Option<(Seq<char>, Seq<char>)>
    decreases s.len(),
{
    if s.len() == 0 {
        None
    } else if s[0] == '"' {
        Some((Seq::empty(), s.drop_first()))
    } else if s[0] == '\\' {
        if s.len() < 2 {
            None
        } else if s[1] == 'u' {
            if s.len() >= 6 && is_hex(s[2]) && is_hex(s[3]) && is_hex(s[4]) && is_hex(s[5])
                && hex_val(s[2]) * 4096 + hex_val(s[3]) * 256 + hex_val(s[4]) * 16 + hex_val(s[5])
                < 0x80 {
                prepend_parse(
                    ((hex_val(s[2]) * 4096 + hex_val(s[3]) * 256 + hex_val(s[4]) * 16 + hex_val(
                        s[5],
                    )) as u8) as char,
                    parse_jstr_body(s.subrange(6, s.len() as int)),
                )
            } else {
                None
            }
        } else {
            match unescape1(s[1]) {
                Some(c) => prepend_parse(c, parse_jstr_body(s.subrange(2, s.len() as int))),
                None => None,
            }
        }
    } else if (s[0] as u32) < 0x20 {
        None
    } else {
        prepend_parse(s[0], parse_jstr_body(s.drop_first()))
    }
}

/// Parse a whole string literal.
pub open spec fn parse_jstr(s: Seq<char>) -> Option<(Seq<char>, Seq<char>)> {
    if s.len() > 0 && s[0] == '"' {
        parse_jstr_body(s.drop_first())
    } else {
        None
    }
}

/// Parse `null` or a string literal.
pub open spec fn parse_opt_str(s: Seq<char>) -> Option<(Option<Seq<char>>, Seq<char>)> {
    if text::spec_starts_with(s, "null"@) {
        Some((None, s.subrange(4, s.len() as int)))
    } else {
        match parse_jstr(s) {
            Some(p) => Some((Some(p.0), p.1)),
            None => None,
        }
    }
}

pub open spec fn expect_lit(s: Seq<char>, lit: Seq<char>) -> Option<Seq<char>> {
    if text::spec_starts_with(s, lit) {
        Some(s.subrange(lit.len() as int, s.len() as int))
    } else {
        None
    }
}

/// Parse `<opt>,"directory":<string>}}` followed by whitespace only.
pub open spec fn dec_body(s: Seq<char>) -> Option<(Option<Seq<char>>, Seq<char>)> {
    match parse_opt_str(s) {
        None => None,
        Some((o, r1)) => match expect_lit(r1, ",\"directory\":"@) {
            None => None,
            Some(r2) => match parse_jstr(r2) {
                None => None,
                Some((d, r3)) => match expect_lit(r3, "}}"@) {
                    None => None,
                    Some(r4) => if all_ws(r4) {
                        Some((o, d))
                    } else {
                        None
                    },
                },
            },
        },
    }
}

/// What a line of the wire denotes as a command, if anything.
pub open spec fn dec_command(s: Seq<char>) -> Option<CommandModel> {
    let t = skip_ws_rem(s);
    if t.len() == 0 {
        None
    } else if t[0] == '"' {
        match parse_jstr(t) {
            Some((name, rem)) => if name == "Ping"@ && all_ws(rem) {
                Some(CommandModel::Ping)
            } else {
                None
            },
            None => None,
        }
    } else if text::spec_starts_with(t, "{\"Restart\":{\"process_name\":"@) {
        match dec_body(t.subrange(27, t.len() as int)) {
            Some((o, d)) => Some(CommandModel::Restart { process_name: o, directory: d }),
            None => None,
        }
    } else if text::spec_starts_with(t, "{\"Connect\":{\"process_name\":"@) {
        match dec_body(t.subrange(27, t.len() as int)) {
            Some((o, d)) => Some(CommandModel::Connect { process_name: o, directory: d }),
            None => None,
        }
    } else if text::spec_starts_with(t, "{\"Stop\":{\"app_name\":"@) {
        match dec_body(t.subrange(20, t.len() as int)) {
            Some((o, d)) => Some(CommandModel::Stop { app_name: o, directory: d }),
            None => None,
        }
    } else {
        None
    }
}

/// Parse `<string>}` followed by whitespace only.
pub open spec fn dec_one_str(s: Seq<char>) -> Option<Seq<char>> {
    match parse_jstr(s) {
        None => None,
        Some((m, r1)) => match expect_lit(r1, "}"@) {
            None => None,
            Some(r2) => if all_ws(r2) {
                Some(m)
            } else {
                None
            },
        },
    }
}

/// Parse `<string>,"tmux_socket":<string>,"tmux_session":<string>}}`.
pub open spec fn dec_conn_body(s: Seq<char>) -> Option<(Seq<char>, Seq<char>, Seq<char>)> {
    match parse_jstr(s) {
        None => None,
        Some((a, r1)) => match expect_lit(r1, ",\"tmux_socket\":"@) {
            None => None,
            Some(r2) => match parse_jstr(r2) {
                None => None,
                Some((b, r3)) => match expect_lit(r3, ",\"tmux_session\":"@) {
                    None => None,
                    Some(r4) => match parse_jstr(r4) {
                        None => None,
                        Some((c, r5)) => match expect_lit(r5, "}}"@) {
                            None => None,
                            Some(r6) => if all_ws(r6) {
                                Some((a, b, c))
                            } else {
                                None
                            },
                        },
                    },
                },
            },
        },
    }
}

pub open spec fn tail_from(s: Seq<char>, i: int) -> Seq<char> {
    s.subrange(i, s.len() as int)
}

pub open spec fn wrap_acc(acc: Seq<char>, x: Option<(Seq<char>, Seq<char>)>) -> Option<
    (Seq<char>, Seq<char>),
> {
    match x {
        Some(p) => Some((acc + p.0, p.1)),
        None => None,
    }
}

proof fn lemma_wrap_prepend(acc: Seq<char>, c: char, x: Option<(Seq<char>, Seq<char>)>)
    ensures
        wrap_acc(acc, prepend_parse(c, x)) == wrap_acc(acc.push(c), x),
{
    match x {
        Some(p) => {
            assert(acc + (seq![c] + p.0) =~= acc.push(c) + p.0);
        },
        None => {},
    }
}

/// Skip whitespace from position `i`.
fn eat_ws(v: &Vec<char>, i: usize) -> (r: usize)
    requires
        i <= v@.len(),
    ensures
        i <= r <= v@.len(),
        skip_ws_rem(tail_from(v@, i as int)) == tail_from(v@, r as int),
{
    let mut r: usize = i;
    while r < v.len() && (v[r] == ' ' || v[r] == '\t' || v[r] == '\n' || v[r] == '\r')
        invariant
            i <= r <= v@.len(),
            skip_ws_rem(tail_from(v@, i as int)) == skip_ws_rem(tail_from(v@, r as int)),
        decreases v@.len() - r,
    {
        proof {
            assert(tail_from(v@, r as int)[0] == v@[r as int]);
            assert(tail_from(v@, r as int).drop_first() =~= tail_from(v@, (r + 1) as int));
        }
        r = r + 1;
    }
    proof {
        if r < v@.len() {
            assert(tail_from(v@, r as int)[0] == v@[r as int]);
        }
    }
    r
}

/// Is everything from `i` on whitespace?
fn ws_only_from(v: &Vec<char>, i: usize) -> (r: bool)
    requires
        i <= v@.len(),
    ensures
        r == all_ws(tail_from(v@, i as int)),
{
    let mut k: usize = i;
    while k < v.len()
        invariant
            i <= k <= v@.len(),
            forall|j: int| i <= j < k ==> is_ws(v@[j]),
        decreases v@.len() - k,
    {
        let c = v[k];
        if !(c == ' ' || c == '\t' || c == '\n' || c == '\r') {
            proof {
                assert(tail_from(v@, i as int)[k - i] == v@[k as int]);
            }
            return false;
        }
        k = k + 1;
    }
    proof {
        assert forall|j: int| 0 <= j < tail_from(v@, i as int).len() implies is_ws(
            tail_from(v@, i as int)[j],
        ) by {
            assert(tail_from(v@, i as int)[j] == v@[i + j]);
        }
    }
    true
}

/// Consume the exact literal at position `i`.
fn eat_lit(v: &Vec<char>, i: usize, lit: &str) -> (r: Option<usize>)
    requires
        i <= v@.len(),
    ensures
        (match r {
            Some(j) => text::spec_starts_with(tail_from(v@, i as int), lit@) && j == i + lit@.len()
                && j <= v@.len(),
            None => !text::spec_starts_with(tail_from(v@, i as int), lit@),
        }),
{
    let n: usize = lit.unicode_len();
    if n > v.len() - i {
        return None;
    }
    let end: usize = i + n;
    let mut k: usize = i;
    while k < end
        invariant
            i <= k <= end,
            end == i + n,
            n == lit@.len(),
            end <= v@.len(),
            forall|j: int| 0 <= j < k - i ==> v@[i + j] == lit@[j],
        decreases end - k,
    {
        if v[k] != lit.get_char(k - i) {
            proof {
                assert(tail_from(v@, i as int).subrange(0, n as int)[k - i] == v@[k as int]);
            }
            return None;
        }
        k = k + 1;
    }
    proof {
        assert(tail_from(v@, i as int).subrange(0, n as int) =~= lit@);
    }
    Some(end)
}

fn hex_val_exec(c: char) -> (r: Option<u32>)
    ensures
        (match r {
            Some(d) => is_hex(c) && d as int == hex_val(c) && d < 16,
            None => !is_hex(c),
        }),
{
    if '0' <= c && c <= '9' {
        Some(c as u32 - '0' as u32)
    } else if 'a' <= c && c <= 'f' {
        Some(10 + (c as u32 - 'a' as u32))
    } else if 'A' <= c && c <= 'F' {
        Some(10 + (c as u32 - 'A' as u32))
    } else {
        None
    }
}

/// Parse a string literal starting at `i`; yields its decoded content and
/// the position after the closing quote.
fn parse_string_at(v: &Vec<char>, i: usize) -> (r: Option<(Vec<char>, usize)>)
    requires
        i <= v@.len(),
    ensures
        (match r {
            Some(p) => parse_jstr(tail_from(v@, i as int)) == Some(
                (p.0@, tail_from(v@, p.1 as int)),
            ) && i < p.1 <= v@.len(),
            None => parse_jstr(tail_from(v@, i as int)) is None,
        }),
{
    if i >= v.len() {
        return None;
    }
    if v[i] != '"' {
        proof {
            assert(tail_from(v@, i as int)[0] == v@[i as int]);
        }
        return None;
    }
    proof {
        assert(tail_from(v@, i as int)[0] == v@[i as int]);
        assert(tail_from(v@, i as int).drop_first() =~= tail_from(v@, (i + 1) as int));
    }
    let ghost start = tail_from(v@, (i + 1) as int);
    let mut acc: Vec<char> = Vec::new();
    let mut cur: usize = i + 1;
    proof {
        let x = parse_jstr_body(start);
        match x {
            Some(p) => {
                assert(Seq::<char>::empty() + p.0 =~= p.0);
            },
            None => {},
        }
        assert(wrap_acc(acc@, x) == x);
    }
    while cur < v.len()
        invariant
            i + 1 <= cur <= v@.len(),
            start == tail_from(v@, (i + 1) as int),
            parse_jstr(tail_from(v@, i as int)) == parse_jstr_body(start),
            parse_jstr_body(start) == wrap_acc(acc@, parse_jstr_body(tail_from(v@, cur as int))),
        decreases v@.len() - cur,
    {
        let ghost t = tail_from(v@, cur as int);
        proof {
            assert(t[0] == v@[cur as int]);
            assert(t.drop_first() =~= tail_from(v@, (cur + 1) as int));
        }
        let c = v[cur];
        if c == '"' {
            proof {
                assert(acc@ + Seq::<char>::empty() =~= acc@);
            }
            return Some((acc, cur + 1));
        } else if c == '\\' {
            if cur + 1 >= v.len() {
                proof {
                    assert(t.len() < 2);
                }
                return None;
            }
            let e = v[cur + 1];
            proof {
                assert(t[1] == v@[cur + 1]);
            }
            if e == 'u' {
                if v.len() - cur < 6 {
                    proof {
                        assert(t.len() < 6);
                    }
                    return None;
                }
                proof {
                    assert(t[2] == v@[cur + 2]);
                    assert(t[3] == v@[cur + 3]);
                    assert(t[4] == v@[cur + 4]);
                    assert(t[5] == v@[cur + 5]);
                    assert(t.subrange(6, t.len() as int) =~= tail_from(v@, (cur + 6) as int));
                }
                let d2 = match hex_val_exec(v[cur + 2]) {
                    Some(d) => d,
                    None => {
                        return None;
                    },
                };
                let d3 = match hex_val_exec(v[cur + 3]) {
                    Some(d) => d,
                    None => {
                        return None;
                    },
                };
                let d4 = match hex_val_exec(v[cur + 4]) {
                    Some(d) => d,
                    None => {
                        return None;
                    },
                };
                let d5 = match hex_val_exec(v[cur + 5]) {
                    Some(d) => d,
                    None => {
                        return None;
                    },
                };
                let val: u32 = d2 * 4096 + d3 * 256 + d4 * 16 + d5;
                if val >= 0x80 {
                    return None;
                }
                let dc = (val as u8) as char;
                proof {
                    lemma_wrap_prepend(acc@, dc, parse_jstr_body(tail_from(v@, (cur + 6) as int)));
                }
                acc.push(dc);
                cur = cur + 6;
            } else {
                let dc: char = if e == '"' {
                    '"'
                } else if e == '\\' {
                    '\\'
                } else if e == '/' {
                    '/'
                } else if e == 'b' {
                    '\u{8}'
                } else if e == 'f' {
                    '\u{c}'
                } else if e == 'n' {
                    '\n'
                } else if e == 'r' {
                    '\r'
                } else if e == 't' {
                    '\t'
                } else {
                    return None;
                };
                proof {
                    assert(unescape1(e) == Some(dc));
                    assert(t.subrange(2, t.len() as int) =~= tail_from(v@, (cur + 2) as int));
                    lemma_wrap_prepend(acc@, dc, parse_jstr_body(tail_from(v@, (cur + 2) as int)));
                }
                acc.push(dc);
                cur = cur + 2;
            }
        } else if (c as u32) < 0x20 {
            return None;
        } else {
            proof {
                lemma_wrap_prepend(acc@, c, parse_jstr_body(tail_from(v@, (cur + 1) as int)));
            }
            acc.push(c);
            cur = cur + 1;
        }
    }
    proof {
        assert(tail_from(v@, cur as int).len() == 0);
    }
    None
}

/// Parse `null` or a string literal at `i`.
fn parse_opt_at(v: &Vec<char>, i: usize) -> (r: Option<(Option<Vec<char>>, usize)>)
    requires
        i <= v@.len(),
    ensures
        (match r {
            Some(p) => parse_opt_str(tail_from(v@, i as int)) == Some(
                (
                    match p.0 {
                        Some(t) => Some(t@),
                        None => None,
                    },
                    tail_from(v@, p.1 as int),
                ),
            ) && i <= p.1 <= v@.len(),
            None => parse_opt_str(tail_from(v@, i as int)) is None,
        }),
{
    match eat_lit(v, i, "null") {
        Some(j) => {
            proof {
                reveal_strlit("null");
                assert(tail_from(v@, i as int).subrange(4, tail_from(v@, i as int).len() as int)
                    =~= tail_from(v@, j as int));
            }
            Some((None, j))
        },
        None => {
            match parse_string_at(v, i) {
                Some((t, j)) => Some((Some(t), j)),
                None => None,
            }
        },
    }
}

/// Parse `<opt>,"directory":<string>}}<ws>` at `i`.
fn parse_body_at(v: &Vec<char>, i: usize) -> (r: Option<(Option<String>, String)>)
    requires
        i <= v@.len(),
    ensures
        (match r {
            Some(p) => dec_body(tail_from(v@, i as int)) == Some((view_opt_string(p.0), p.1@)),
            None => dec_body(tail_from(v@, i as int)) is None,
        }),
{
    let (o, j) = match parse_opt_at(v, i) {
        Some(p) => p,
        None => {
            return None;
        },
    };
    let j2 = match eat_lit(v, j, ",\"directory\":") {
        Some(j2) => j2,
        None => {
            return None;
        },
    };
    proof {
        reveal_strlit(",\"directory\":");
        assert(tail_from(v@, j as int).subrange(13, tail_from(v@, j as int).len() as int)
            =~= tail_from(v@, j2 as int));
    }
    let (d, j3) = match parse_string_at(v, j2) {
        Some(p) => p,
        None => {
            return None;
        },
    };
    let j4 = match eat_lit(v, j3, "}}") {
        Some(j4) => j4,
        None => {
            return None;
        },
    };
    proof {
        reveal_strlit("}}");
        assert(tail_from(v@, j3 as int).subrange(2, tail_from(v@, j3 as int).len() as int)
            =~= tail_from(v@, j4 as int));
    }
    if ws_only_from(v, j4) {
        let name = match o {
            Some(t) => Some(text::string_of(&t)),
            None => None,
        };
        Some((name, text::string_of(&d)))
    } else {
        None
    }
}

/// Decode one line of the wire into a command.
pub fn decode_command(s: &str) -> (r: Option<IpcCommand>)
    ensures
        (match r {
            Some(c) => dec_command(s@) == Some(c@),
            None => dec_command(s@) is None,
        }),
{
    let v = text::chars_of(s);
    proof {
        assert(tail_from(v@, 0) =~= s@);
    }
    let i = eat_ws(&v, 0);
    let ghost t = skip_ws_rem(s@);
    if i >= v.len() {
        return None;
    }
    if v[i] == '"' {
        proof {
            assert(t[0] == v@[i as int]);
        }
        match parse_string_at(&v, i) {
            Some((content, j)) => {
                if text::str_eq_chars("Ping", &content) && ws_only_from(&v, j) {
                    Some(IpcCommand::Ping)
                } else {
                    None
                }
            },
            None => None,
        }
    } else {
        proof {
            assert(t[0] == v@[i as int]);
        }
        if let Some(j) = eat_lit(&v, i, "{\"Restart\":{\"process_name\":") {
            proof {
                reveal_strlit("{\"Restart\":{\"process_name\":");
                assert(t.subrange(27, t.len() as int) =~= tail_from(v@, j as int));
            }
            match parse_body_at(&v, j) {
                Some((o, d)) => Some(IpcCommand::Restart { process_name: o, directory: d }),
                None => None,
            }
        } else if let Some(j) = eat_lit(&v, i, "{\"Connect\":{\"process_name\":") {
            proof {
                reveal_strlit("{\"Connect\":{\"process_name\":");
                assert(t.subrange(27, t.len() as int) =~= tail_from(v@, j as int));
            }
            match parse_body_at(&v, j) {
                Some((o, d)) => Some(IpcCommand::Connect { process_name: o, directory: d }),
                None => None,
            }
        } else if let Some(j) = eat_lit(&v, i, "{\"Stop\":{\"app_name\":") {
            proof {
                reveal_strlit("{\"Stop\":{\"app_name\":");
                assert(t.subrange(20, t.len() as int) =~= tail_from(v@, j as int));
            }
            match parse_body_at(&v, j) {
                Some((o, d)) => Some(IpcCommand::Stop { app_name: o, directory: d }),
                None => None,
            }
        } else {
            None
        }
    }
}

/// Parse `<string>}<ws>` at `i`.
fn parse_one_str_at(v: &Vec<char>, i: usize) -> (r: Option<String>)
    requires
        i <= v@.len(),
    ensures
        (match r {
            Some(m) => dec_one_str(tail_from(v@, i as int)) == Some(m@),
            None => dec_one_str(tail_from(v@, i as int)) is None,
        }),
{
    let (m, j) = match parse_string_at(v, i) {
        Some(p) => p,
        None => {
            return None;
        },
    };
    let j2 = match eat_lit(v, j, "}") {
        Some(j2) => j2,
        None => {
            return None;
        },
    };
    proof {
        reveal_strlit("}");
        assert(tail_from(v@, j as int).subrange(1, tail_from(v@, j as int).len() as int)
            =~= tail_from(v@, j2 as int));
    }
    if ws_only_from(v, j2) {
        Some(text::string_of(&m))
    } else {
        None
    }
}

/// Decode a reply of the wire into a response.
#[verifier::rlimit(80)]
pub fn decode_response(s: &str) -> (r: Option<IpcResponse>)
    ensures
        (match r {
            Some(m) => dec_response(s@) == Some(m@),
            None => dec_response(s@) is None,
        }),
{
    let v = text::chars_of(s);
    proof {
        assert(tail_from(v@, 0) =~= s@);
    }
    let i = eat_ws(&v, 0);
    let ghost t = skip_ws_rem(s@);
    if let Some(j) = eat_lit(&v, i, "{\"NotFound\":") {
        proof {
            reveal_strlit("{\"NotFound\":");
            assert(t.subrange(12, t.len() as int) =~= tail_from(v@, j as int));
        }
        match parse_one_str_at(&v, j) {
            Some(m) => Some(IpcResponse::NotFound(m)),
            None => None,
        }
    } else if let Some(j) = eat_lit(&v, i, "{\"Status\":") {
        proof {
            reveal_strlit("{\"Status\":");
            assert(t.subrange(10, t.len() as int) =~= tail_from(v@, j as int));
        }
        match parse_one_str_at(&v, j) {
            Some(m) => Some(IpcResponse::Status(m)),
            None => None,
        }
    } else if let Some(j) = eat_lit(&v, i, "{\"ConnectionDetails\":{\"app_name\":") {
        proof {
            reveal_strlit("{\"ConnectionDetails\":{\"app_name\":");
            assert(t.subrange(33, t.len() as int) =~= tail_from(v@, j as int));
        }
        let (a, j1) = match parse_string_at(&v, j) {
            Some(p) => p,
            None => {
                return None;
            },
        };
        let j2 = match eat_lit(&v, j1, ",\"tmux_socket\":") {
            Some(x) => x,
            None => {
                return None;
            },
        };
        proof {
            reveal_strlit(",\"tmux_socket\":");
            assert(tail_from(v@, j1 as int).subrange(15, tail_from(v@, j1 as int).len() as int)
                =~= tail_from(v@, j2 as int));
        }
        let (b, j3) = match parse_string_at(&v, j2) {
            Some(p) => p,
            None => {
                return None;
            },
        };
        let j4 = match eat_lit(&v, j3, ",\"tmux_session\":") {
            Some(x) => x,
            None => {
                return None;
            },
        };
        proof {
            reveal_strlit(",\"tmux_session\":");
            assert(tail_from(v@, j3 as int).subrange(16, tail_from(v@, j3 as int).len() as int)
                =~= tail_from(v@, j4 as int));
        }
        let (c, j5) = match parse_string_at(&v, j4) {
            Some(p) => p,
            None => {
                return None;
            },
        };
        let j6 = match eat_lit(&v, j5, "}}") {
            Some(x) => x,
            None => {
                return None;
            },
        };
        proof {
            reveal_strlit("}}");
            assert(tail_from(v@, j5 as int).subrange(2, tail_from(v@, j5 as int).len() as int)
                =~= tail_from(v@, j6 as int));
        }
        if ws_only_from(&v, j6) {
            Some(
                IpcResponse::ConnectionDetails {
                    app_name: text::string_of(&a),
                    tmux_socket: text::string_of(&b),
                    tmux_session: text::string_of(&c),
                },
            )
        } else {
            None
        }
    } else {
        None
    }
}

/// What a reply of the wire denotes as a response, if anything.
pub open spec fn dec_response(s: Seq<char>) -> Option<ResponseModel> {
    let t = skip_ws_rem(s);
    if text::spec_starts_with(t, "{\"NotFound\":"@) {
        match dec_one_str(t.subrange(12, t.len() as int)) {
            Some(m) => Some(ResponseModel::NotFound(m)),
            None => None,
        }
    } else if text::spec_starts_with(t, "{\"Status\":"@) {
        match dec_one_str(t.subrange(10, t.len() as int)) {
            Some(m) => Some(ResponseModel::Status(m)),
            None => None,
        }
    } else if text::spec_starts_with(t, "{\"ConnectionDetails\":{\"app_name\":"@) {
        match dec_conn_body(t.subrange(33, t.len() as int)) {
            Some((a, b, c)) => Some(
                ResponseModel::ConnectionDetails {
                    app_name: a,
                    tmux_socket: b,
                    tmux_session: c,
                },
            ),
            None => None,
        }
    } else {
        None
    }
}


// ---- the codec round trip ----

proof fn lemma_esc_str_front(s: Seq<char>)
    ensures
        esc_str(s) == (if s.len() == 0 {
            Seq::<char>::empty()
        } else {
            esc_char(s[0]) + esc_str(s.drop_first())
        }),
    decreases s.len(),
{
    if s.len() == 0 {
    } else if s.len() == 1 {
        assert(s.drop_last() =~= Seq::<char>::empty());
        assert(s.drop_first() =~= Seq::<char>::empty());
        assert(Seq::<char>::empty() + esc_char(s[0]) =~= esc_char(s[0]) + esc_str(
            s.drop_first(),
        ));
    } else {
        let dl = s.drop_last();
        lemma_esc_str_front(dl);
        assert(s.drop_first().drop_last() =~= dl.drop_first());
        assert(s.drop_first().len() > 0);
        assert(s.drop_first().last() == s.last());
        assert(esc_str(s.drop_first()) == esc_str(dl.drop_first()) + esc_char(s.last()));
        assert(esc_str(s) == (esc_char(s[0]) + esc_str(dl.drop_first())) + esc_char(s.last()));
        assert((esc_char(s[0]) + esc_str(dl.drop_first())) + esc_char(s.last()) =~= esc_char(
            s[0],
        ) + (esc_str(dl.drop_first()) + esc_char(s.last())));
    }
}

/// A string of ordinary characters is its own escaped form.
proof fn lemma_esc_str_plain(s: Seq<char>)
    requires
        forall|j: int|
            0 <= j < s.len() ==> s[j] != '"' && s[j] != '\\' && (#[trigger] s[j]) as u32 >= 0x20,
    ensures
        esc_str(s) == s,
    decreases s.len(),
{
    if s.len() > 0 {
        assert(forall|j: int| 0 <= j < s.len() - 1 ==> s.drop_last()[j] == s[j]);
        lemma_esc_str_plain(s.drop_last());
        assert(esc_char(s.last()) =~= seq![s.last()]);
        assert(s.drop_last() + seq![s.last()] =~= s);
    }
}

/// Parsing undoes escaping: the body parser consumes the escaped content up
/// to the closing quote and yields the original string.
#[verifier::rlimit(100)]
proof fn lemma_parse_esc_body(content: Seq<char>, rest: Seq<char>)
    ensures
        parse_jstr_body(esc_str(content) + seq!['"'] + rest) == Some((content, rest)),
    decreases content.len(),
{
    lemma_esc_str_front(content);
    if content.len() == 0 {
        let buf = esc_str(content) + seq!['"'] + rest;
        assert(buf =~= seq!['"'] + rest);
        assert(buf[0] == '"');
        assert(buf.drop_first() =~= rest);
    } else {
        let c = content[0];
        let tail_content = content.drop_first();
        lemma_parse_esc_body(tail_content, rest);
        let inner = esc_str(tail_content) + seq!['"'] + rest;
        let buf = esc_str(content) + seq!['"'] + rest;
        assert(buf =~= esc_char(c) + inner);
        assert(seq![c] + tail_content =~= content);
        if c == '"' {
            assert(buf[0] == '\\' && buf[1] == '"' && buf.len() >= 2);
            assert(buf.subrange(2, buf.len() as int) =~= inner);
        } else if c == '\\' {
            assert(buf[0] == '\\' && buf[1] == '\\' && buf.len() >= 2);
            assert(buf.subrange(2, buf.len() as int) =~= inner);
        } else if c == '\u{8}' {
            assert(buf[0] == '\\' && buf[1] == 'b' && buf.len() >= 2);
            assert(buf.subrange(2, buf.len() as int) =~= inner);
        } else if c == '\t' {
            assert(buf[0] == '\\' && buf[1] == 't' && buf.len() >= 2);
            assert(buf.subrange(2, buf.len() as int) =~= inner);
        } else if c == '\n' {
            assert(buf[0] == '\\' && buf[1] == 'n' && buf.len() >= 2);
            assert(buf.subrange(2, buf.len() as int) =~= inner);
        } else if c == '\u{c}' {
            assert(buf[0] == '\\' && buf[1] == 'f' && buf.len() >= 2);
            assert(buf.subrange(2, buf.len() as int) =~= inner);
        } else if c == '\r' {
            assert(buf[0] == '\\' && buf[1] == 'r' && buf.len() >= 2);
            assert(buf.subrange(2, buf.len() as int) =~= inner);
        } else if (c as u32) < 0x20 {
            let cu = c as u32 as int;
            assert(buf[0] == '\\' && buf[1] == 'u' && buf[2] == '0' && buf[3] == '0');
            assert(buf[4] == hex_digit_char(cu / 16));
            assert(buf[5] == hex_digit_char(cu % 16));
            assert(buf.len() >= 6);
            assert(is_hex('0') && hex_val('0') == 0);
            assert(cu / 16 < 2);
            assert(is_hex(hex_digit_char(cu / 16)) && hex_val(hex_digit_char(cu / 16)) == cu
                / 16);
            assert(is_hex(hex_digit_char(cu % 16)) && hex_val(hex_digit_char(cu % 16)) == cu
                % 16);
            let val = hex_val(buf[2]) * 4096 + hex_val(buf[3]) * 256 + hex_val(buf[4]) * 16
                + hex_val(buf[5]);
            assert(val == cu);
            assert(val < 0x80);
            let cprime = (val as u8) as char;
            assert(cprime as u32 == c as u32);
            vstd::utf8::char_u32_cast(cprime, cprime as u32);
            vstd::utf8::char_u32_cast(c, c as u32);
            assert(cprime == c);
            assert(buf.subrange(6, buf.len() as int) =~= inner);
        } else {
            assert(buf[0] == c);
            assert(buf.drop_first() =~= inner);
        }
    }
}

/// A quoted string parses back to its content, leaving the rest untouched.
proof fn lemma_parse_quote(content: Seq<char>, rest: Seq<char>)
    ensures
        parse_jstr(quote(content) + rest) == Some((content, rest)),
{
    let buf = quote(content) + rest;
    assert(buf[0] == '"');
    assert(buf.len() > 0);
    assert(buf.drop_first() =~= esc_str(content) + seq!['"'] + rest);
    lemma_parse_esc_body(content, rest);
}

/// `null` or a quoted string parses back to the same option.
proof fn lemma_parse_opt(o: Option<Seq<char>>, rest: Seq<char>)
    ensures
        parse_opt_str(enc_opt_str(o) + rest) == Some((o, rest)),
{
    reveal_strlit("null");
    let buf = enc_opt_str(o) + rest;
    match o {
        None => {
            assert(buf.subrange(0, 4) =~= "null"@);
            assert(text::spec_starts_with(buf, "null"@));
            assert(buf.subrange(4, buf.len() as int) =~= rest);
        },
        Some(s) => {
            assert(buf[0] == '"');
            assert(!text::spec_starts_with(buf, "null"@)) by {
                if text::spec_starts_with(buf, "null"@) {
                    assert(buf.subrange(0, 4)[0] == buf[0]);
                }
            }
            lemma_parse_quote(s, rest);
        },
    }
}

/// The two-field body of a command decodes to the encoded fields.
proof fn lemma_dec_body_enc(o: Option<Seq<char>>, d: Seq<char>)
    ensures
        dec_body(enc_opt_str(o) + ",\"directory\":"@ + quote(d) + "}}"@) == Some((o, d)),
{
    reveal_strlit(",\"directory\":");
    reveal_strlit("}}");
    let mid = ",\"directory\":"@;
    let close = "}}"@;
    let tail1 = mid + quote(d) + close;
    let buf = enc_opt_str(o) + mid + quote(d) + close;
    assert(buf =~= enc_opt_str(o) + tail1);
    lemma_parse_opt(o, tail1);
    assert(tail1.subrange(0, 13) =~= mid);
    assert(text::spec_starts_with(tail1, mid));
    let rem2 = tail1.subrange(13, tail1.len() as int);
    assert(rem2 =~= quote(d) + close);
    lemma_parse_quote(d, close);
    assert(close.subrange(0, 2) =~= close);
    assert(text::spec_starts_with(close, close));
    assert(close.subrange(2, 2) =~= Seq::<char>::empty());
    assert(all_ws(close.subrange(2, 2)));
}

/// Control commands survive the wire: decoding an encoded command gives the
/// command back, for every variant and every string content.
#[verifier::rlimit(100)]
pub proof fn lemma_command_round_trip(m: CommandModel)
    ensures
        dec_command(enc_command(m)) == Some(m),
{
    reveal_strlit("\"Ping\"");
    reveal_strlit("Ping");
    reveal_strlit("{\"Restart\":{\"process_name\":");
    reveal_strlit("{\"Connect\":{\"process_name\":");
    reveal_strlit("{\"Stop\":{\"app_name\":");
    let rp = "{\"Restart\":{\"process_name\":"@;
    let cp = "{\"Connect\":{\"process_name\":"@;
    let sp = "{\"Stop\":{\"app_name\":"@;
    match m {
        CommandModel::Ping => {
            let s = "\"Ping\""@;
            assert(s[0] == '"');
            assert(!is_ws(s[0]));
            assert(skip_ws_rem(s) == s);
            lemma_esc_str_plain("Ping"@);
            assert(s =~= quote("Ping"@) + Seq::<char>::empty());
            lemma_parse_quote("Ping"@, Seq::<char>::empty());
            assert(all_ws(Seq::<char>::empty()));
        },
        CommandModel::Restart { process_name, directory } => {
            let s = enc_command(m);
            assert(s[0] == rp[0]);
            assert(s[0] == '{');
            assert(!is_ws(s[0]));
            assert(skip_ws_rem(s) == s);
            assert(s[0] != '"');
            assert(s.subrange(0, 27) =~= rp);
            assert(text::spec_starts_with(s, rp));
            assert(s.subrange(27, s.len() as int) =~= enc_opt_str(process_name)
                + ",\"directory\":"@ + quote(directory) + "}}"@);
            lemma_dec_body_enc(process_name, directory);
        },
        CommandModel::Connect { process_name, directory } => {
            let s = enc_command(m);
            assert(s[0] == cp[0]);
            assert(s[0] == '{');
            assert(!is_ws(s[0]));
            assert(skip_ws_rem(s) == s);
            assert(s[0] != '"');
            assert(s[2] == cp[2]);
            assert(!text::spec_starts_with(s, rp)) by {
                if text::spec_starts_with(s, rp) {
                    assert(s.subrange(0, 27)[2] == s[2]);
                }
            }
            assert(s.subrange(0, 27) =~= cp);
            assert(text::spec_starts_with(s, cp));
            assert(s.subrange(27, s.len() as int) =~= enc_opt_str(process_name)
                + ",\"directory\":"@ + quote(directory) + "}}"@);
            lemma_dec_body_enc(process_name, directory);
        },
        CommandModel::Stop { app_name, directory } => {
            let s = enc_command(m);
            assert(s[0] == sp[0]);
            assert(s[0] == '{');
            assert(!is_ws(s[0]));
            assert(skip_ws_rem(s) == s);
            assert(s[0] != '"');
            assert(s[2] == sp[2]);
            assert(!text::spec_starts_with(s, rp)) by {
                if text::spec_starts_with(s, rp) {
                    assert(s.subrange(0, 27)[2] == s[2]);
                }
            }
            assert(!text::spec_starts_with(s, cp)) by {
                if text::spec_starts_with(s, cp) {
                    assert(s.subrange(0, 27)[2] == s[2]);
                }
            }
            assert(s.subrange(0, 20) =~= sp);
            assert(text::spec_starts_with(s, sp));
            assert(s.subrange(20, s.len() as int) =~= enc_opt_str(app_name) + ",\"directory\":"@
                + quote(directory) + "}}"@);
            lemma_dec_body_enc(app_name, directory);
        },
    }
}

/// A one-string response body decodes to the encoded string.
proof fn lemma_dec_one_enc(msg: Seq<char>)
    ensures
        dec_one_str(quote(msg) + "}"@) == Some(msg),
{
    reveal_strlit("}");
    let close = "}"@;
    lemma_parse_quote(msg, close);
    assert(close.subrange(0, 1) =~= close);
    assert(text::spec_starts_with(close, close));
    assert(close.subrange(1, 1) =~= Seq::<char>::empty());
    assert(all_ws(close.subrange(1, 1)));
}

/// The three-string connection body decodes to the encoded strings.
proof fn lemma_dec_conn_enc(a: Seq<char>, b: Seq<char>, c: Seq<char>)
    ensures
        dec_conn_body(
            quote(a) + ",\"tmux_socket\":"@ + quote(b) + ",\"tmux_session\":"@ + quote(c)
                + "}}"@,
        ) == Some((a, b, c)),
{
    reveal_strlit(",\"tmux_socket\":");
    reveal_strlit(",\"tmux_session\":");
    reveal_strlit("}}");
    let sock = ",\"tmux_socket\":"@;
    let sess = ",\"tmux_session\":"@;
    let close = "}}"@;
    let buf = quote(a) + sock + quote(b) + sess + quote(c) + close;
    let rest1 = sock + quote(b) + sess + quote(c) + close;
    assert(buf =~= quote(a) + rest1);
    lemma_parse_quote(a, rest1);
    assert(rest1.subrange(0, 15) =~= sock);
    assert(text::spec_starts_with(rest1, sock));
    let rest2 = rest1.subrange(15, rest1.len() as int);
    assert(rest2 =~= quote(b) + (sess + quote(c) + close));
    lemma_parse_quote(b, sess + quote(c) + close);
    let rest3 = sess + quote(c) + close;
    assert(rest3.subrange(0, 16) =~= sess);
    assert(text::spec_starts_with(rest3, sess));
    let rest4 = rest3.subrange(16, rest3.len() as int);
    assert(rest4 =~= quote(c) + close);
    lemma_parse_quote(c, close);
    assert(close.subrange(0, 2) =~= close);
    assert(text::spec_starts_with(close, close));
    assert(close.subrange(2, 2) =~= Seq::<char>::empty());
    assert(all_ws(close.subrange(2, 2)));
}

/// Control responses survive the wire: decoding an encoded response gives
/// the response back, for every variant and every string content.
#[verifier::rlimit(100)]
pub proof fn lemma_response_round_trip(m: ResponseModel)
    ensures
        dec_response(enc_response(m)) == Some(m),
{
    reveal_strlit("{\"NotFound\":");
    reveal_strlit("{\"Status\":");
    reveal_strlit("{\"ConnectionDetails\":{\"app_name\":");
    let np = "{\"NotFound\":"@;
    let tp = "{\"Status\":"@;
    let dp = "{\"ConnectionDetails\":{\"app_name\":"@;
    match m {
        ResponseModel::NotFound(msg) => {
            let s = enc_response(m);
            assert(s[0] == np[0]);
            assert(!is_ws(s[0]));
            assert(skip_ws_rem(s) == s);
            assert(s.subrange(0, 12) =~= np);
            assert(text::spec_starts_with(s, np));
            assert(s.subrange(12, s.len() as int) =~= quote(msg) + "}"@);
            lemma_dec_one_enc(msg);
        },
        ResponseModel::Status(msg) => {
            let s = enc_response(m);
            assert(s[0] == tp[0]);
            assert(!is_ws(s[0]));
            assert(skip_ws_rem(s) == s);
            assert(s[2] == tp[2]);
            assert(!text::spec_starts_with(s, np)) by {
                if text::spec_starts_with(s, np) {
                    assert(s.subrange(0, 12)[2] == s[2]);
                }
            }
            assert(s.subrange(0, 10) =~= tp);
            assert(text::spec_starts_with(s, tp));
            assert(s.subrange(10, s.len() as int) =~= quote(msg) + "}"@);
            lemma_dec_one_enc(msg);
        },
        ResponseModel::ConnectionDetails { app_name, tmux_socket, tmux_session } => {
            let s = enc_response(m);
            assert(s[0] == dp[0]);
            assert(!is_ws(s[0]));
            assert(skip_ws_rem(s) == s);
            assert(s[2] == dp[2]);
            assert(!text::spec_starts_with(s, np)) by {
                if text::spec_starts_with(s, np) {
                    assert(s.subrange(0, 12)[2] == s[2]);
                }
            }
            assert(!text::spec_starts_with(s, tp)) by {
                if text::spec_starts_with(s, tp) {
                    assert(s.subrange(0, 10)[2] == s[2]);
                }
            }
            assert(s.subrange(0, 33) =~= dp);
            assert(text::spec_starts_with(s, dp));
            assert(s.subrange(33, s.len() as int) =~= quote(app_name) + ",\"tmux_socket\":"@
                + quote(tmux_socket) + ",\"tmux_session\":"@ + quote(tmux_session) + "}}"@);
            lemma_dec_conn_enc(app_name, tmux_socket, tmux_session);
        },
    }
}

} // verus!
