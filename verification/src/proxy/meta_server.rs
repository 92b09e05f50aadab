//! The reserved meta endpoints under `/__oxidux__/`.

use vstd::prelude::*;
use vstd::string::*;

use crate::app::App;
use crate::text;

verus! {

/// Which meta endpoint a path names.
#[derive(Clone, Copy, Debug, PartialEq, Eq, Structural)]
pub enum MetaAction {
    /// Plain-text listing of each process and its state.
    Status,
    /// The server-sent-events log stream.
    LogStream,
    /// Anything else: a plain 404.
    NotFound,
}

/// Is the path reserved for the meta endpoints?
pub fn is_meta_request(path: &str) -> (r: bool)
    ensures
        r == text::spec_starts_with(path@, "/__oxidux__/"@),
{
    text::starts_with_str(path, "/__oxidux__/")
}

/// The action segment: what stands between the prefix and the next slash.
pub open spec fn spec_action_segment(path: Seq<char>) -> Seq<char> {
    if exists|i: int| 12 <= i < path.len() && path[i] == '/' {
        let i = choose|i: int|
            12 <= i < path.len() && #[trigger] path[i] == '/' && forall|j: int|
                12 <= j < i ==> path[j] != '/';
        path.subrange(12, i)
    } else {
        path.subrange(12, path.len() as int)
    }
}

pub open spec fn spec_meta_action(path: Seq<char>) -> MetaAction {
    if spec_action_segment(path) == "status"@ {
        MetaAction::Status
    } else if spec_action_segment(path) == "logstream"@ {
        MetaAction::LogStream
    } else {
        MetaAction::NotFound
    }
}

/// Dispatch a reserved path to its endpoint.
pub fn meta_action(path: &str) -> (r: MetaAction)
    requires
        text::spec_starts_with(path@, "/__oxidux__/"@),
    ensures
        r == spec_meta_action(path@),
{
    proof {
        reveal_strlit("/__oxidux__/");
    }
    let v = text::chars_of(path);
    let seg = match text::find_char(&v, '/', 12) {
        Some(i) => {
            proof {
                let w = choose|w: int|
                    12 <= w < v@.len() && #[trigger] v@[w] == '/' && forall|j: int|
                        12 <= j < w ==> v@[j] != '/';
                assert(w == i as int);
            }
            text::substring_chars(&v, 12, i)
        },
        None => {
            proof {
                assert(!(exists|i: int| 12 <= i < v@.len() && v@[i] == '/'));
            }
            text::substring_chars(&v, 12, v.len())
        },
    };
    if text::str_eq_chars("status", &seg) {
        MetaAction::Status
    } else if text::str_eq_chars("logstream", &seg) {
        MetaAction::LogStream
    } else {
        MetaAction::NotFound
    }
}

/// One status line per process.
pub open spec fn status_rows(ps: Seq<crate::process::Process>) -> Seq<char>
    decreases ps.len(),
{
    if ps.len() == 0 {
        Seq::empty()
    } else {
        status_rows(ps.drop_last()) + ps.last().spec_name() + ": "@
            + ps.last().state.spec_describe() + "\n"@
    }
}

/// The plain-text status page of an app.
pub fn status_response(app: &App) -> (r: String)
    ensures
        r@ == status_rows(app.processes@),
{
    let mut v: Vec<char> = Vec::new();
    let mut i: usize = 0;
    proof {
        assert(v@ =~= status_rows(app.processes@.subrange(0, 0)));
    }
    while i < app.processes.len()
        invariant
            i <= app.processes@.len(),
            v@ == status_rows(app.processes@.subrange(0, i as int)),
        decreases app.processes@.len() - i,
    {
        let p = &app.processes[i];
        let name = p.name();
        text::append_str(&mut v, name.as_str());
        text::append_str(&mut v, ": ");
        let state = p.run_state().describe();
        text::append_str(&mut v, state.as_str());
        text::append_str(&mut v, "\n");
        i = i + 1;
        proof {
            assert(app.processes@.subrange(0, i as int).drop_last() =~= app.processes@.subrange(
                0,
                i - 1,
            ));
            assert(app.processes@.subrange(0, i as int).last() == app.processes@[i - 1]);
            assert(v@ =~= status_rows(app.processes@.subrange(0, i - 1)) + app.processes@[i
                - 1].spec_name() + ": "@ + app.processes@[i - 1].state.spec_describe() + "\n"@);
        }
    }
    proof {
        assert(app.processes@.subrange(0, app.processes@.len() as int) =~= app.processes@);
    }
    text::string_of(&v)
}

/// The 404 body of an unknown meta path.
pub fn not_found_response() -> (r: String)
    ensures
        r@ == "Not Found"@,
{
    String::from_str("Not Found")
}

/// One server-sent event carrying a log line.
pub fn sse_event(process_name: &str, line: &str) -> (r: String)
    ensures
        r@ == "data: "@ + process_name@ + ": "@ + line@ + "\n\n"@,
{
    let mut v = text::chars_of("data: ");
    text::append_str(&mut v, process_name);
    text::append_str(&mut v, ": ");
    text::append_str(&mut v, line);
    text::append_str(&mut v, "\n\n");
    proof {
        assert(v@ =~= "data: "@ + process_name@ + ": "@ + line@ + "\n\n"@);
    }
    text::string_of(&v)
}

} // verus!
