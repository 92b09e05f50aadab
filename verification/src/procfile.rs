//! Procfile parsing.
//!
//! A Procfile line is `name: command` where the name is made of ASCII
//! letters, digits, `_` and `-`.  Lines of any other shape are dropped, and
//! a repeated name keeps the command given last.  Opening the file is the
//! caller's job; the parser works on its text.

use vstd::prelude::*;
use vstd::string::*;

use crate::text;

verus! {

pub open spec fn is_name_char(c: char) -> bool {
    ('a' <= c && c <= 'z') || ('A' <= c && c <= 'Z') || ('0' <= c && c <= '9') || c == '_' || c
        == '-'
}

pub open spec fn spec_valid_command(s: Seq<char>) -> bool {
    forall|i: int| 0 <= i < s.len() ==> is_name_char(s[i])
}

/// Is every character allowed in a process name?
pub fn valid_command(command: &str) -> (r: bool)
    ensures
        r == spec_valid_command(command@),
{
    let n: usize = command.unicode_len();
    let mut i: usize = 0;
    while i < n
        invariant
            i <= n,
            n == command@.len(),
            forall|j: int| 0 <= j < i ==> is_name_char(command@[j]),
        decreases n - i,
    {
        let c = command.get_char(i);
        let ok = ('a' <= c && c <= 'z') || ('A' <= c && c <= 'Z') || ('0' <= c && c <= '9') || c
            == '_' || c == '-';
        if !ok {
            return false;
        }
        i = i + 1;
    }
    true
}

pub open spec fn is_blank(c: char) -> bool {
    c == ' ' || c == '\t'
}

pub open spec fn trim_left(s: Seq<char>) -> Seq<char>
    decreases s.len(),
{
    if s.len() > 0 && is_blank(s[0]) {
        trim_left(s.drop_first())
    } else {
        s
    }
}

pub open spec fn trim_right(s: Seq<char>) -> Seq<char>
    decreases s.len(),
{
    if s.len() > 0 && is_blank(s.last()) {
        trim_right(s.drop_last())
    } else {
        s
    }
}

/// Both-ends trim over blanks.
pub open spec fn trim(s: Seq<char>) -> Seq<char> {
    trim_right(trim_left(s))
}

proof fn lemma_trim_left_range(s: Seq<char>, k: int)
    requires
        0 <= k <= s.len(),
        forall|j: int| 0 <= j < k ==> is_blank(s[j]),
        k < s.len() ==> !is_blank(s[k]),
    ensures
        trim_left(s) == s.subrange(k, s.len() as int),
    decreases k,
{
    if k == 0 {
        assert(s.subrange(0, s.len() as int) =~= s);
    } else {
        assert(is_blank(s[0]));
        lemma_trim_left_range(s.drop_first(), k - 1);
        assert(s.drop_first().subrange(k - 1, s.drop_first().len() as int) =~= s.subrange(
            k,
            s.len() as int,
        ));
    }
}

proof fn lemma_trim_right_range(s: Seq<char>, k: int)
    requires
        0 <= k <= s.len(),
        forall|j: int| k <= j < s.len() ==> is_blank(s[j]),
        k > 0 ==> !is_blank(s[k - 1]),
    ensures
        trim_right(s) == s.subrange(0, k),
    decreases s.len(),
{
    if k == s.len() {
        if s.len() > 0 {
            assert(s.subrange(0, s.len() as int) =~= s);
        } else {
            assert(s.subrange(0, 0) =~= s);
        }
    } else {
        assert(is_blank(s.last()));
        lemma_trim_right_range(s.drop_last(), k);
        assert(s.drop_last().subrange(0, k) =~= s.subrange(0, k));
    }
}

/// Trim a vector slice `[from, to)` into a fresh vector.
pub fn trim_chars(v: &Vec<char>, from: usize, to: usize) -> (r: Vec<char>)
    requires
        from <= to <= v@.len(),
    ensures
        r@ == trim(v@.subrange(from as int, to as int)),
{
    let ghost s = v@.subrange(from as int, to as int);
    let mut lo: usize = from;
    while lo < to && (v[lo] == ' ' || v[lo] == '\t')
        invariant
            from <= lo <= to <= v@.len(),
            forall|j: int| from <= j < lo ==> is_blank(v@[j]),
        decreases to - lo,
    {
        lo = lo + 1;
    }
    let mut hi: usize = to;
    while hi > lo && (v[hi - 1] == ' ' || v[hi - 1] == '\t')
        invariant
            lo <= hi <= to <= v@.len(),
            forall|j: int| hi <= j < to ==> is_blank(v@[j]),
        decreases hi,
    {
        hi = hi - 1;
    }
    let r = text::substring_chars(v, lo, hi);
    proof {
        lemma_trim_left_range(s, lo - from);
        let t = s.subrange(lo - from, s.len() as int);
        lemma_trim_right_range(t, hi - lo);
        assert(t.subrange(0, hi - lo) =~= v@.subrange(lo as int, hi as int));
    }
    r
}

/// Does some entry carry this name?
pub open spec fn has_key(es: Seq<(Seq<char>, Seq<char>)>, n: Seq<char>) -> bool {
    exists|i: int| 0 <= i < es.len() && (#[trigger] es[i]).0 == n
}

/// Insert or overwrite one labelled command, keeping first-seen order.
pub open spec fn upsert(
    es: Seq<(Seq<char>, Seq<char>)>,
    n: Seq<char>,
    c: Seq<char>,
) -> Seq<(Seq<char>, Seq<char>)> {
    if has_key(es, n) {
        Seq::new(
            es.len(),
            |i: int|
                if es[i].0 == n {
                    (n, c)
                } else {
                    es[i]
                },
        )
    } else {
        es.push((n, c))
    }
}

/// What one line contributes: its name and trimmed command, if well-formed.
pub open spec fn line_entry(l: Seq<char>) -> Option<(Seq<char>, Seq<char>)> {
    let i = first_colon(l);
    if i == l.len() {
        None
    } else {
        let name = l.subrange(0, i as int);
        let cmd = l.subrange(i + 1 as int, l.len() as int);
        if name.len() > 0 && spec_valid_command(name) {
            Some((name, trim(cmd)))
        } else {
            None
        }
    }
}

pub open spec fn first_colon(s: Seq<char>) -> int
    decreases s.len(),
{
    if s.len() == 0 {
        0
    } else if s[0] == ':' {
        0
    } else {
        1 + first_colon(s.drop_first())
    }
}

proof fn lemma_first_colon_is(s: Seq<char>, k: int)
    requires
        0 <= k <= s.len(),
        forall|j: int| 0 <= j < k ==> s[j] != ':',
        k < s.len() ==> s[k] == ':',
    ensures
        first_colon(s) == k,
    decreases k,
{
    if s.len() == 0 {
    } else if s[0] == ':' {
        assert(k == 0);
    } else {
        assert(k > 0);
        lemma_first_colon_is(s.drop_first(), k - 1);
    }
}

pub open spec fn apply_line(
    es: Seq<(Seq<char>, Seq<char>)>,
    l: Seq<char>,
) -> Seq<(Seq<char>, Seq<char>)> {
    match line_entry(l) {
        None => es,
        Some(p) => upsert(es, p.0, p.1),
    }
}

pub open spec fn strip_cr(l: Seq<char>) -> Seq<char> {
    if l.len() > 0 && l.last() == '\r' {
        l.drop_last()
    } else {
        l
    }
}

/// Entries accumulated over `s`, with `cur` the line being read.  Mirrors a
/// buffered reader's `lines`: `\n` ends a line and a `\r` just before it is
/// dropped; the final line needs no terminator, but a terminated text adds
/// no empty final line.
pub open spec fn entries_rec(
    base: Seq<(Seq<char>, Seq<char>)>,
    cur: Seq<char>,
    s: Seq<char>,
) -> Seq<(Seq<char>, Seq<char>)>
    decreases s.len(),
{
    if s.len() == 0 {
        if cur.len() == 0 {
            base
        } else {
            apply_line(base, cur)
        }
    } else if s[0] == '\n' {
        entries_rec(apply_line(base, strip_cr(cur)), Seq::empty(), s.drop_first())
    } else {
        entries_rec(base, cur.push(s[0]), s.drop_first())
    }
}

/// The labelled commands a Procfile text defines.
pub open spec fn procfile_entries(text: Seq<char>) -> Seq<(Seq<char>, Seq<char>)> {
    entries_rec(Seq::empty(), Seq::empty(), text)
}

/// Stepping over one whole line at a time agrees with the character-wise
/// definition.
proof fn lemma_entries_rec_line(
    base: Seq<(Seq<char>, Seq<char>)>,
    cur: Seq<char>,
    rem: Seq<char>,
    d: int,
)
    requires
        0 <= d <= rem.len(),
        forall|j: int| 0 <= j < d ==> rem[j] != '\n',
        d < rem.len() ==> rem[d] == '\n',
    ensures
        entries_rec(base, cur, rem) == (if d == rem.len() {
            if cur.len() + rem.len() == 0 {
                base
            } else {
                apply_line(base, cur + rem)
            }
        } else {
            entries_rec(
                apply_line(base, strip_cr(cur + rem.subrange(0, d))),
                Seq::empty(),
                rem.subrange(d + 1, rem.len() as int),
            )
        }),
    decreases d,
{
    if d == 0 {
        if rem.len() == 0 {
            assert(cur + rem =~= cur);
            if cur.len() > 0 {
                assert(entries_rec(base, cur, rem) == apply_line(base, cur + rem));
            }
        } else {
            assert(rem[0] == '\n');
            assert(cur + rem.subrange(0, 0) =~= cur);
            assert(rem.drop_first() =~= rem.subrange(1, rem.len() as int));
        }
    } else {
        assert(rem[0] != '\n');
        let cur2 = cur.push(rem[0]);
        let rem2 = rem.drop_first();
        lemma_entries_rec_line(base, cur2, rem2, d - 1);
        assert(cur2 + rem2 =~= cur + rem);
        if d < rem.len() {
            assert(cur2 + rem2.subrange(0, d - 1) =~= cur + rem.subrange(0, d));
            assert(rem2.subrange(d - 1, rem2.len() as int) =~= rem.subrange(d, rem.len() as int));
            assert(rem2.subrange(d, rem2.len() as int) =~= rem.subrange(d + 1, rem.len() as int));
        }
    }
}

/// Is every character of the vector allowed in a process name?
fn valid_name_chars(v: &Vec<char>) -> (r: bool)
    ensures
        r == spec_valid_command(v@),
{
    let mut i: usize = 0;
    while i < v.len()
        invariant
            i <= v@.len(),
            forall|j: int| 0 <= j < i ==> is_name_char(v@[j]),
        decreases v@.len() - i,
    {
        let c = v[i];
        let good = ('a' <= c && c <= 'z') || ('A' <= c && c <= 'Z') || ('0' <= c && c <= '9') || c
            == '_' || c == '-';
        if !good {
            return false;
        }
        i = i + 1;
    }
    true
}

/// Replace the value under `name`, or add the pair at the end.
pub(crate) fn upsert_pairs(
    es: Vec<(String, String)>,
    name: &Vec<char>,
    cmd: &Vec<char>,
) -> (r: Vec<(String, String)>)
    ensures
        r.deep_view() == upsert(es.deep_view(), name@, cmd@),
{
    let ghost old_es = es.deep_view();
    let mut idx: Option<usize> = None;
    let mut i: usize = 0;
    while i < es.len()
        invariant
            i <= es@.len(),
            old_es == es.deep_view(),
            match idx {
                Some(k) => k < i && old_es[k as int].0 == name@ && forall|j: int|
                    0 <= j < k ==> old_es[j].0 != name@,
                None => forall|j: int| 0 <= j < i ==> old_es[j].0 != name@,
            },
        decreases es@.len() - i,
    {
        if idx.is_none() && text::str_eq_chars(es[i].0.as_str(), name) {
            idx = Some(i);
        }
        i = i + 1;
    }
    match idx {
        None => {
            let mut es = es;
            es.push((text::string_of(name), text::string_of(cmd)));
            proof {
                assert(!has_key(old_es, name@));
                assert(es.deep_view() =~~= upsert(old_es, name@, cmd@));
            }
            es
        },
        Some(_) => {
            let mut r: Vec<(String, String)> = Vec::new();
            let mut j: usize = 0;
            while j < es.len()
                invariant
                    j <= es@.len(),
                    old_es == es.deep_view(),
                    es@.len() == old_es.len(),
                    has_key(old_es, name@),
                    r@.len() == j,
                    r.deep_view() =~~= upsert(old_es, name@, cmd@).subrange(0, j as int),
                decreases es@.len() - j,
            {
                if text::str_eq_chars(es[j].0.as_str(), name) {
                    r.push((text::string_of(name), text::string_of(cmd)));
                } else {
                    r.push((es[j].0.clone(), es[j].1.clone()));
                }
                j = j + 1;
                proof {
                    assert(r.deep_view() =~~= upsert(old_es, name@, cmd@).subrange(0, j as int));
                }
            }
            proof {
                assert(r.deep_view() =~~= upsert(old_es, name@, cmd@));
            }
            r
        },
    }
}

/// Parse one line spanning `v[from..to)` into the accumulated entries.
fn apply_line_exec(
    es: Vec<(String, String)>,
    v: &Vec<char>,
    from: usize,
    to: usize,
) -> (r: Vec<(String, String)>)
    requires
        from <= to <= v@.len(),
    ensures
        r.deep_view() == apply_line(es.deep_view(), v@.subrange(from as int, to as int)),
{
    let ghost l = v@.subrange(from as int, to as int);
    match text::find_char_before(v, ':', from, to) {
        None => {
            proof {
                lemma_first_colon_is(l, l.len() as int);
            }
            es
        },
        Some(ci) => {
            proof {
                lemma_first_colon_is(l, ci - from);
            }
            let name = text::substring_chars(v, from, ci);
            if name.len() > 0 && valid_name_chars(&name) {
                let cmd = trim_chars(v, ci + 1, to);
                proof {
                    assert(l.subrange(0, (ci - from) as int) =~= v@.subrange(
                        from as int,
                        ci as int,
                    ));
                    assert(l.subrange(ci - from + 1, l.len() as int) =~= v@.subrange(
                        ci + 1 as int,
                        to as int,
                    ));
                }
                upsert_pairs(es, &name, &cmd)
            } else {
                proof {
                    assert(l.subrange(0, (ci - from) as int) =~= v@.subrange(
                        from as int,
                        ci as int,
                    ));
                }
                es
            }
        },
    }
}

/// Parse a whole Procfile text into its labelled commands.
pub fn parse_procfile(text: &str) -> (r: Vec<(String, String)>)
    ensures
        r.deep_view() == procfile_entries(text@),
{
    let v = text::chars_of(text);
    let mut es: Vec<(String, String)> = Vec::new();
    let mut pos: usize = 0;
    proof {
        assert(v@.subrange(0, v@.len() as int) =~= v@);
        assert(es.deep_view() =~~= Seq::<(Seq<char>, Seq<char>)>::empty());
    }
    while pos < v.len()
        invariant
            pos <= v@.len(),
            v@ == text@,
            procfile_entries(text@) == entries_rec(
                es.deep_view(),
                Seq::empty(),
                v@.subrange(pos as int, v@.len() as int),
            ),
        decreases v@.len() - pos,
    {
        let ghost rem = v@.subrange(pos as int, v@.len() as int);
        match text::find_char(&v, '\n', pos) {
            None => {
                // final, unterminated line
                proof {
                    lemma_entries_rec_line(es.deep_view(), Seq::empty(), rem, rem.len() as int);
                    assert(Seq::<char>::empty() + rem =~= rem);
                    assert(rem =~= v@.subrange(pos as int, v@.len() as int));
                }
                let to = v.len();
                es = apply_line_exec(es, &v, pos, to);
                pos = v.len();
                proof {
                    assert(v@.subrange(pos as int, v@.len() as int).len() == 0);
                }
            },
            Some(e) => {
                proof {
                    lemma_entries_rec_line(es.deep_view(), Seq::empty(), rem, e - pos);
                    assert(Seq::<char>::empty() + rem.subrange(0, e - pos) =~= v@.subrange(
                        pos as int,
                        e as int,
                    ));
                    assert(rem.subrange(e - pos + 1, rem.len() as int) =~= v@.subrange(
                        e + 1 as int,
                        v@.len() as int,
                    ));
                }
                let line_end = if e > pos && v[e - 1] == '\r' {
                    e - 1
                } else {
                    e
                };
                proof {
                    assert(strip_cr(v@.subrange(pos as int, e as int)) =~= v@.subrange(
                        pos as int,
                        line_end as int,
                    ));
                }
                es = apply_line_exec(es, &v, pos, line_end);
                pos = e + 1;
            },
        }
    }
    proof {
        assert(v@.subrange(pos as int, v@.len() as int).len() == 0);
    }
    es
}


/// A Procfile text spelling out the given labelled commands, one
/// `name: command` line each.
pub open spec fn render_lines(pairs: Seq<(Seq<char>, Seq<char>)>) -> Seq<char>
    decreases pairs.len(),
{
    if pairs.len() == 0 {
        Seq::empty()
    } else {
        (pairs[0].0 + ": "@ + pairs[0].1 + "\n"@) + render_lines(pairs.drop_first())
    }
}

/// The entries a rendered Procfile produces: each pair, with the command
/// trimmed.
pub open spec fn trimmed_pairs(pairs: Seq<(Seq<char>, Seq<char>)>) -> Seq<
    (Seq<char>, Seq<char>),
> {
    Seq::new(pairs.len(), |i: int| (pairs[i].0, trim(pairs[i].1)))
}

proof fn lemma_parse_rendered(base: Seq<(Seq<char>, Seq<char>)>, pairs: Seq<(Seq<char>, Seq<char>)>)
    requires
        forall|i: int|
            0 <= i < pairs.len() ==> spec_valid_command((#[trigger] pairs[i]).0) && pairs[i].0.len()
                > 0,
        forall|i: int, j: int|
            0 <= i < pairs.len() && 0 <= j < pairs[i].1.len() ==> #[trigger] pairs[i].1[j]
                != '\n' && pairs[i].1[j] != '\r',
        forall|i: int, j: int|
            0 <= i < j < pairs.len() ==> (#[trigger] pairs[i]).0 != (#[trigger] pairs[j]).0,
        forall|i: int, k: int|
            0 <= i < pairs.len() && 0 <= k < base.len() ==> (#[trigger] pairs[i]).0 != (
            #[trigger] base[k]).0,
    ensures
        entries_rec(base, Seq::empty(), render_lines(pairs)) == base + trimmed_pairs(pairs),
    decreases pairs.len(),
{
    reveal_strlit(": ");
    reveal_strlit("\n");
    if pairs.len() == 0 {
        assert(base + trimmed_pairs(pairs) =~= base);
    } else {
        let p0 = pairs[0];
        let line = p0.0 + ": "@ + p0.1;
        let rem = render_lines(pairs);
        let rest = render_lines(pairs.drop_first());
        let d = line.len() as int;
        assert(rem =~= line + "\n"@ + rest);
        assert(rem[d] == '\n');
        assert forall|j: int| 0 <= j < d implies rem[j] != '\n' by {
            if j < p0.0.len() {
                assert(rem[j] == p0.0[j]);
                assert(is_name_char(p0.0[j]));
            } else if j < p0.0.len() + 2 {
                assert(rem[j] == ": "@[j - p0.0.len()]);
            } else {
                assert(rem[j] == p0.1[j - p0.0.len() - 2]);
            }
        }
        lemma_entries_rec_line(base, Seq::empty(), rem, d);
        assert(Seq::<char>::empty() + rem.subrange(0, d) =~= line);
        assert(rem.subrange(d + 1, rem.len() as int) =~= rest);
        assert(strip_cr(line) == line) by {
            if line.len() > 0 && line.last() == '\r' {
                if p0.1.len() == 0 {
                    assert(line.last() == ": "@[1]);
                } else {
                    assert(line.last() == p0.1[p0.1.len() - 1]);
                }
            }
        }
        // the line parses to its name and trimmed command
        assert forall|j: int| 0 <= j < p0.0.len() implies line[j] != ':' by {
            assert(line[j] == p0.0[j]);
            assert(is_name_char(p0.0[j]));
        }
        assert(line[p0.0.len() as int] == ':');
        lemma_first_colon_is(line, p0.0.len() as int);
        assert(line.subrange(0, p0.0.len() as int) =~= p0.0);
        let cmd = line.subrange(p0.0.len() as int + 1, line.len() as int);
        assert(cmd =~= seq![' '] + p0.1);
        assert(cmd.drop_first() =~= p0.1);
        assert(trim_left(cmd) == trim_left(p0.1));
        assert(line_entry(line) == Some((p0.0, trim(p0.1))));
        assert(!has_key(base, p0.0));
        let base2 = base.push((p0.0, trim(p0.1)));
        assert(apply_line(base, line) == base2);
        assert(forall|i: int|
            0 <= i < pairs.drop_first().len() ==> spec_valid_command(
                (#[trigger] pairs.drop_first()[i]).0,
            ) && pairs.drop_first()[i].0.len() > 0);
        assert forall|i: int, j: int|
            0 <= i < pairs.drop_first().len() && 0 <= j < pairs.drop_first()[i].1.len()
            implies #[trigger] pairs.drop_first()[i].1[j] != '\n'
            && pairs.drop_first()[i].1[j] != '\r' by {
            assert(pairs.drop_first()[i] == pairs[i + 1]);
            assert(pairs[i + 1].1[j] != '\n' && pairs[i + 1].1[j] != '\r');
        }
        assert forall|i: int, j: int|
            0 <= i < j < pairs.drop_first().len() implies (#[trigger] pairs.drop_first()[i]).0 != (
            #[trigger] pairs.drop_first()[j]).0 by {
            assert(pairs.drop_first()[i] == pairs[i + 1]);
            assert(pairs.drop_first()[j] == pairs[j + 1]);
        }
        assert forall|i: int, k: int|
            0 <= i < pairs.drop_first().len() && 0 <= k < base2.len() implies (
            #[trigger] pairs.drop_first()[i]).0 != (#[trigger] base2[k]).0 by {
            assert(pairs.drop_first()[i] == pairs[i + 1]);
            if k < base.len() {
                assert(base2[k] == base[k]);
            } else {
                assert(base2[k].0 == p0.0);
            }
        }
        lemma_parse_rendered(base2, pairs.drop_first());
        assert(base2 + trimmed_pairs(pairs.drop_first()) =~= base + trimmed_pairs(pairs)) by {
            assert(forall|i: int|
                0 <= i < pairs.drop_first().len() ==> #[trigger] trimmed_pairs(
                    pairs.drop_first(),
                )[i] == trimmed_pairs(pairs)[i + 1]);
        }
    }
}

/// A text made of well-formed `name: command` lines parses to exactly those
/// pairs, commands trimmed: the Procfile parser inverts rendering.
pub proof fn lemma_procfile_round_trip(pairs: Seq<(Seq<char>, Seq<char>)>)
    requires
        forall|i: int|
            0 <= i < pairs.len() ==> spec_valid_command((#[trigger] pairs[i]).0) && pairs[i].0.len()
                > 0,
        forall|i: int, j: int|
            0 <= i < pairs.len() && 0 <= j < pairs[i].1.len() ==> #[trigger] pairs[i].1[j]
                != '\n' && pairs[i].1[j] != '\r',
        forall|i: int, j: int|
            0 <= i < j < pairs.len() ==> (#[trigger] pairs[i]).0 != (#[trigger] pairs[j]).0,
    ensures
        procfile_entries(render_lines(pairs)) == trimmed_pairs(pairs),
{
    lemma_parse_rendered(Seq::empty(), pairs);
    assert(Seq::<(Seq<char>, Seq<char>)>::empty() + trimmed_pairs(pairs) =~= trimmed_pairs(
        pairs,
    ));
}

} // verus!
