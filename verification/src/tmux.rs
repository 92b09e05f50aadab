//! Argument vectors for driving the terminal multiplexer, and the parsing
//! of its replies.  Spawning the commands is the runtime's job.

use vstd::prelude::*;
use vstd::string::*;

use crate::text;

verus! {

/// The options every tmux invocation starts with: our own server socket and
/// no configuration file.
pub fn base_args(socket_name: &str) -> (r: Vec<String>)
    ensures
        r@.len() == 4,
        r@[0]@ == "-L"@,
        r@[1]@ == socket_name@,
        r@[2]@ == "-f"@,
        r@[3]@ == "/dev/null"@,
{
    let mut r: Vec<String> = Vec::new();
    r.push(String::from_str("-L"));
    r.push(String::from_str(socket_name));
    r.push(String::from_str("-f"));
    r.push(String::from_str("/dev/null"));
    r
}

/// `respawn-window -t <session> <shell args>`.
pub fn respawn_window_args(session_name: &str, shell_args: &Vec<String>) -> (r: Vec<String>)
    ensures
        r@.len() == 3 + shell_args@.len(),
        r@[0]@ == "respawn-window"@,
        r@[1]@ == "-t"@,
        r@[2]@ == session_name@,
        forall|k: int| 0 <= k < shell_args@.len() ==> r@[3 + k] == shell_args@[k],
{
    let mut r: Vec<String> = Vec::new();
    r.push(String::from_str("respawn-window"));
    r.push(String::from_str("-t"));
    r.push(String::from_str(session_name));
    let mut i: usize = 0;
    while i < shell_args.len()
        invariant
            i <= shell_args@.len(),
            r@.len() == 3 + i,
            r@[0]@ == "respawn-window"@,
            r@[1]@ == "-t"@,
            r@[2]@ == session_name@,
            forall|k: int| 0 <= k < i ==> r@[3 + k] == shell_args@[k],
        decreases shell_args@.len() - i,
    {
        r.push(shell_args[i].clone());
        i = i + 1;
    }
    r
}

/// `kill-session -t <session>`.
pub fn kill_session_args(session_name: &str) -> (r: Vec<String>)
    ensures
        r@.len() == 3,
        r@[0]@ == "kill-session"@,
        r@[1]@ == "-t"@,
        r@[2]@ == session_name@,
{
    let mut r: Vec<String> = Vec::new();
    r.push(String::from_str("kill-session"));
    r.push(String::from_str("-t"));
    r.push(String::from_str(session_name));
    r
}

/// `list-sessions -F '#{session_name}|#{pane_pid}'`.
pub fn list_sessions_args() -> (r: Vec<String>)
    ensures
        r@.len() == 3,
        r@[0]@ == "list-sessions"@,
        r@[1]@ == "-F"@,
        r@[2]@ == "#{session_name}|#{pane_pid}"@,
{
    let mut r: Vec<String> = Vec::new();
    r.push(String::from_str("list-sessions"));
    r.push(String::from_str("-F"));
    r.push(String::from_str("#{session_name}|#{pane_pid}"));
    r
}

/// `pipe-pane 'cat >> <fifo>'`.
pub fn pipe_pane_args(fifo_path: &str) -> (r: Vec<String>)
    ensures
        r@.len() == 2,
        r@[0]@ == "pipe-pane"@,
        r@[1]@ == "cat >> "@ + fifo_path@,
{
    let mut r: Vec<String> = Vec::new();
    r.push(String::from_str("pipe-pane"));
    let mut v = text::chars_of("cat >> ");
    text::append_str(&mut v, fifo_path);
    r.push(text::string_of(&v));
    r
}

/// `new-session -s <session> -d -P -F '#{pane_pid}' <shell args>` plus the
/// session options: keep dead panes, mouse support, and a detach key.
pub fn new_session_args(session_name: &str, shell_args: &Vec<String>) -> (r: Vec<String>)
    ensures
        r@.len() == 7 + shell_args@.len() + 17,
        r@[0]@ == "new-session"@,
        r@[1]@ == "-s"@,
        r@[2]@ == session_name@,
        r@[3]@ == "-d"@,
        r@[4]@ == "-P"@,
        r@[5]@ == "-F"@,
        r@[6]@ == "#{pane_pid}"@,
        forall|k: int| 0 <= k < shell_args@.len() ==> r@[7 + k] == shell_args@[k],
        ({
            let n = 7 + shell_args@.len() as int;
            r@[n]@ == ";"@ && r@[n + 1]@ == "set"@ && r@[n + 2]@ == "remain-on-exit"@ && r@[n
                + 3]@ == "on"@ && r@[n + 4]@ == ";"@ && r@[n + 5]@ == "set"@ && r@[n + 6]@
                == "mouse"@ && r@[n + 7]@ == "on"@ && r@[n + 8]@ == ";"@ && r@[n + 9]@ == "set"@
                && r@[n + 10]@ == "status-right"@ && r@[n + 11]@ == "Press C-x to disconnect"@
                && r@[n + 12]@ == ";"@ && r@[n + 13]@ == "bind-key"@ && r@[n + 14]@ == "-n"@
                && r@[n + 15]@ == "C-x"@ && r@[n + 16]@ == "detach-client"@
        }),
{
    let mut r: Vec<String> = Vec::new();
    r.push(String::from_str("new-session"));
    r.push(String::from_str("-s"));
    r.push(String::from_str(session_name));
    r.push(String::from_str("-d"));
    r.push(String::from_str("-P"));
    r.push(String::from_str("-F"));
    r.push(String::from_str("#{pane_pid}"));
    let mut i: usize = 0;
    while i < shell_args.len()
        invariant
            i <= shell_args@.len(),
            r@.len() == 7 + i,
            r@[0]@ == "new-session"@,
            r@[1]@ == "-s"@,
            r@[2]@ == session_name@,
            r@[3]@ == "-d"@,
            r@[4]@ == "-P"@,
            r@[5]@ == "-F"@,
            r@[6]@ == "#{pane_pid}"@,
            forall|k: int| 0 <= k < i ==> r@[7 + k] == shell_args@[k],
        decreases shell_args@.len() - i,
    {
        r.push(shell_args[i].clone());
        i = i + 1;
    }
    r.push(String::from_str(";"));
    r.push(String::from_str("set"));
    r.push(String::from_str("remain-on-exit"));
    r.push(String::from_str("on"));
    r.push(String::from_str(";"));
    r.push(String::from_str("set"));
    r.push(String::from_str("mouse"));
    r.push(String::from_str("on"));
    r.push(String::from_str(";"));
    r.push(String::from_str("set"));
    r.push(String::from_str("status-right"));
    r.push(String::from_str("Press C-x to disconnect"));
    r.push(String::from_str(";"));
    r.push(String::from_str("bind-key"));
    r.push(String::from_str("-n"));
    r.push(String::from_str("C-x"));
    r.push(String::from_str("detach-client"));
    r
}

pub fn kill_server_args() -> (r: Vec<String>)
    ensures
        r@.len() == 1,
        r@[0]@ == "kill-server"@,
{
    let mut r: Vec<String> = Vec::new();
    r.push(String::from_str("kill-server"));
    r
}

/// Position of the first `|` in a line, or its length.
pub open spec fn first_bar(s: Seq<char>) -> int
    decreases s.len(),
{
    if s.len() == 0 {
        0
    } else if s[0] == '|' {
        0
    } else {
        1 + first_bar(s.drop_first())
    }
}

proof fn lemma_first_bar_is(s: Seq<char>, k: int)
    requires
        0 <= k <= s.len(),
        forall|j: int| 0 <= j < k ==> s[j] != '|',
        k < s.len() ==> s[k] == '|',
    ensures
        first_bar(s) == k,
    decreases k,
{
    if s.len() == 0 {
    } else if s[0] == '|' {
        assert(k == 0);
    } else {
        assert(k > 0);
        lemma_first_bar_is(s.drop_first(), k - 1);
    }
}

/// What one `list-sessions` line contributes: the pane PID text when the
/// line names the wanted session.
pub open spec fn pid_of_line(l: Seq<char>, session: Seq<char>) -> Option<Seq<char>> {
    let i = first_bar(l);
    if i == l.len() {
        None
    } else if l.subrange(0, i as int) == session {
        Some(l.subrange(i + 1 as int, l.len() as int))
    } else {
        None
    }
}

/// The pane PID text of the first line naming the session.
pub open spec fn pid_rec(cur: Seq<char>, s: Seq<char>, session: Seq<char>) -> Option<Seq<char>>
    decreases s.len(),
{
    if s.len() == 0 {
        if cur.len() == 0 {
            None
        } else {
            pid_of_line(cur, session)
        }
    } else if s[0] == '\n' {
        match pid_of_line(crate::procfile::strip_cr(cur), session) {
            Some(p) => Some(p),
            None => pid_rec(Seq::empty(), s.drop_first(), session),
        }
    } else {
        pid_rec(cur.push(s[0]), s.drop_first(), session)
    }
}

/// The pane PID text that `list-sessions` reports for a session.
pub open spec fn spec_session_pid_text(out: Seq<char>, session: Seq<char>) -> Option<Seq<char>> {
    pid_rec(Seq::empty(), out, session)
}

/// Stepping over one whole line at a time agrees with the character-wise
/// definition.
proof fn lemma_pid_rec_line(cur: Seq<char>, rem: Seq<char>, session: Seq<char>, d: int)
    requires
        0 <= d <= rem.len(),
        forall|j: int| 0 <= j < d ==> rem[j] != '\n',
        d < rem.len() ==> rem[d] == '\n',
    ensures
        pid_rec(cur, rem, session) == (if d == rem.len() {
            if cur.len() + rem.len() == 0 {
                None
            } else {
                pid_of_line(cur + rem, session)
            }
        } else {
            match pid_of_line(crate::procfile::strip_cr(cur + rem.subrange(0, d)), session) {
                Some(p) => Some(p),
                None => pid_rec(Seq::empty(), rem.subrange(d + 1, rem.len() as int), session),
            }
        }),
    decreases d,
{
    if d == 0 {
        if rem.len() == 0 {
            assert(cur + rem =~= cur);
        } else {
            assert(rem[0] == '\n');
            assert(cur + rem.subrange(0, 0) =~= cur);
            assert(rem.drop_first() =~= rem.subrange(1, rem.len() as int));
        }
    } else {
        assert(rem[0] != '\n');
        let cur2 = cur.push(rem[0]);
        let rem2 = rem.drop_first();
        lemma_pid_rec_line(cur2, rem2, session, d - 1);
        assert(cur2 + rem2 =~= cur + rem);
        if d < rem.len() {
            assert(cur2 + rem2.subrange(0, d - 1) =~= cur + rem.subrange(0, d));
            assert(rem2.subrange(d, rem2.len() as int) =~= rem.subrange(d + 1, rem.len() as int));
        }
    }
}

/// Parse one `session|pid` line spanning `v[from..to)`.
fn line_pid(v: &Vec<char>, from: usize, to: usize, session: &str) -> (r: Option<Vec<char>>)
    requires
        from <= to <= v@.len(),
    ensures
        (match r {
            Some(t) => pid_of_line(v@.subrange(from as int, to as int), session@) == Some(t@),
            None => pid_of_line(v@.subrange(from as int, to as int), session@) is None,
        }),
{
    let ghost l = v@.subrange(from as int, to as int);
    match text::find_char_before(v, '|', from, to) {
        None => {
            proof {
                lemma_first_bar_is(l, l.len() as int);
            }
            None
        },
        Some(bi) => {
            proof {
                lemma_first_bar_is(l, bi - from);
                assert(l.subrange(0, (bi - from) as int) =~= v@.subrange(from as int, bi as int));
                assert(l.subrange(bi - from + 1, l.len() as int) =~= v@.subrange(
                    bi + 1 as int,
                    to as int,
                ));
            }
            let name = text::substring_chars(v, from, bi);
            if text::str_eq_chars(session, &name) {
                Some(text::substring_chars(v, bi + 1, to))
            } else {
                None
            }
        },
    }
}

/// Find the pane PID that `list-sessions` printed for a session.  `None`
/// comes back when no line names the session or its PID field is not a
/// number that fits.
pub fn find_session_pid(output: &str, session_name: &str) -> (r: Option<u32>)
    ensures
        (match r {
            Some(x) => (match spec_session_pid_text(output@, session_name@) {
                Some(txt) => txt.len() > 0 && text::all_digits(txt) && x as int == text::dec_val(
                    txt,
                ),
                None => false,
            }),
            None => (match spec_session_pid_text(output@, session_name@) {
                Some(txt) => txt.len() == 0 || !text::all_digits(txt) || text::dec_val(txt)
                    > u32::MAX as int,
                None => true,
            }),
        }),
{
    let v = text::chars_of(output);
    let mut pos: usize = 0;
    proof {
        assert(v@.subrange(0, v@.len() as int) =~= v@);
    }
    while pos < v.len()
        invariant
            pos <= v@.len(),
            v@ == output@,
            spec_session_pid_text(output@, session_name@) == pid_rec(
                Seq::empty(),
                v@.subrange(pos as int, v@.len() as int),
                session_name@,
            ),
        decreases v@.len() - pos,
    {
        let ghost rem = v@.subrange(pos as int, v@.len() as int);
        match text::find_char(&v, '\n', pos) {
            None => {
                proof {
                    lemma_pid_rec_line(Seq::empty(), rem, session_name@, rem.len() as int);
                    assert(Seq::<char>::empty() + rem =~= rem);
                }
                let to = v.len();
                let line = line_pid(&v, pos, to, session_name);
                match line {
                    Some(t) => {
                        return text::parse_u32(&t);
                    },
                    None => {
                        return None;
                    },
                }
            },
            Some(e) => {
                proof {
                    lemma_pid_rec_line(Seq::empty(), rem, session_name@, e - pos);
                    assert(Seq::<char>::empty() + rem.subrange(0, e - pos) =~= v@.subrange(
                        pos as int,
                        e as int,
                    ));
                    assert(rem.subrange(e - pos + 1, rem.len() as int) =~= v@.subrange(
                        e + 1 as int,
                        v@.len() as int,
                    ));
                }
                let line_end = if e > pos && v[e - 1] == '\r' {
                    e - 1
                } else {
                    e
                };
                proof {
                    assert(crate::procfile::strip_cr(v@.subrange(pos as int, e as int))
                        =~= v@.subrange(pos as int, line_end as int));
                }
                match line_pid(&v, pos, line_end, session_name) {
                    Some(t) => {
                        return text::parse_u32(&t);
                    },
                    None => {
                        pos = e + 1;
                    },
                }
            },
        }
    }
    proof {
        assert(v@.subrange(pos as int, v@.len() as int).len() == 0);
    }
    None
}

} // verus!
