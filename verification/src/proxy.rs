//! The proxy front-end's routing decisions.
//!
//! The HTTP listener outside the core extracts the host and URI, resolves
//! the app, asks here what to do, and performs the forwarding.

use vstd::prelude::*;
use vstd::string::*;

use crate::app::App;
use crate::config::Config;
use crate::procfile;
use crate::process_manager::ProcessManager;
use crate::text;

pub mod autostart_response;
pub mod host_missing;
pub mod meta_server;

verus! {

/// The bind address of the plain HTTP listener.
pub fn build_address(config: &Config) -> (r: String)
    ensures
        r@ == "127.0.0.1:"@ + text::dec_str(config.general.proxy_port as nat),
{
    let mut v = text::chars_of("127.0.0.1:");
    text::append_dec_u64(&mut v, config.general.proxy_port as u64);
    text::string_of(&v)
}

/// The path-and-query part of a request target: what follows the authority
/// of an absolute `http` target, or the target itself in origin form.
pub open spec fn spec_path_and_query(u: Seq<char>) -> Seq<char> {
    if text::spec_starts_with(u, "http://"@) {
        spec_path_from(u, 7)
    } else if text::spec_starts_with(u, "https://"@) {
        spec_path_from(u, 8)
    } else {
        u
    }
}

/// The suffix of `u` from its first `/` at or after `k`, else `/`.
pub open spec fn spec_path_from(u: Seq<char>, k: int) -> Seq<char> {
    if exists|i: int| k <= i < u.len() && u[i] == '/' {
        let i = choose|i: int|
            k <= i < u.len() && #[trigger] u[i] == '/' && forall|j: int|
                k <= j < i ==> u[j] != '/';
        u.subrange(i, u.len() as int)
    } else {
        "/"@
    }
}

fn path_from(v: &Vec<char>, k: usize) -> (r: Vec<char>)
    requires
        k <= v@.len(),
    ensures
        r@ == spec_path_from(v@, k as int),
{
    match text::find_char(v, '/', k) {
        Some(i) => {
            proof {
                assert(forall|j: int| k <= j < i ==> v@[j] != '/');
                let w = choose|w: int|
                    k <= w < v@.len() && #[trigger] v@[w] == '/' && forall|j: int|
                        k <= j < w ==> v@[j] != '/';
                assert(w == i as int);
            }
            text::substring_chars(v, i, v.len())
        },
        None => {
            proof {
                assert(!(exists|i: int| k <= i < v@.len() && v@[i] == '/'));
            }
            text::chars_of("/")
        },
    }
}

/// The upstream target for a request: plain HTTP to localhost on the app's
/// port, keeping the request's path and query.
pub fn app_url(port: u16, request_uri: &str) -> (r: String)
    ensures
        r@ == "http://localhost:"@ + text::dec_str(port as nat) + spec_path_and_query(
            request_uri@,
        ),
{
    let v = text::chars_of(request_uri);
    let paq = if text::starts_with_str(request_uri, "http://") {
        proof {
            reveal_strlit("http://");
        }
        path_from(&v, 7)
    } else if text::starts_with_str(request_uri, "https://") {
        proof {
            reveal_strlit("https://");
        }
        path_from(&v, 8)
    } else {
        v
    };
    let mut out = text::chars_of("http://localhost:");
    text::append_dec_u64(&mut out, port as u64);
    let ghost mid = out@;
    let mut i: usize = 0;
    while i < paq.len()
        invariant
            i <= paq@.len(),
            out@ =~= mid + paq@.subrange(0, i as int),
        decreases paq@.len() - i,
    {
        out.push(paq[i]);
        i = i + 1;
    }
    proof {
        assert(out@ =~= "http://localhost:"@ + text::dec_str(port as nat) + spec_path_and_query(
            request_uri@,
        ));
    }
    text::string_of(&out)
}

/// Merge header overrides over a request's headers: an override replaces
/// the entry with its name, or is appended.
pub open spec fn merged_headers(
    base: Seq<(Seq<char>, Seq<char>)>,
    overrides: Seq<(Seq<char>, Seq<char>)>,
) -> Seq<(Seq<char>, Seq<char>)>
    decreases overrides.len(),
{
    if overrides.len() == 0 {
        base
    } else {
        procfile::upsert(
            merged_headers(base, overrides.drop_last()),
            overrides.last().0,
            overrides.last().1,
        )
    }
}

pub fn merge_headers(
    base: &Vec<(String, String)>,
    overrides: &Vec<(String, String)>,
) -> (r: Vec<(String, String)>)
    ensures
        r.deep_view() == merged_headers(base.deep_view(), overrides.deep_view()),
{
    let mut r = crate::config::clone_pairs(base);
    let mut i: usize = 0;
    proof {
        assert(overrides.deep_view().subrange(0, 0) =~= Seq::<(Seq<char>, Seq<char>)>::empty());
    }
    while i < overrides.len()
        invariant
            i <= overrides@.len(),
            r.deep_view() == merged_headers(
                base.deep_view(),
                overrides.deep_view().subrange(0, i as int),
            ),
        decreases overrides@.len() - i,
    {
        let name = text::chars_of(overrides[i].0.as_str());
        let value = text::chars_of(overrides[i].1.as_str());
        r = procfile::upsert_pairs(r, &name, &value);
        i = i + 1;
        proof {
            assert(overrides.deep_view().subrange(0, i as int).drop_last()
                =~= overrides.deep_view().subrange(0, i - 1));
            assert(overrides.deep_view()[i - 1] == (overrides@[i - 1].0@, overrides@[i - 1].1@));
        }
    }
    proof {
        assert(overrides.deep_view().subrange(0, overrides.deep_view().len() as int)
            =~= overrides.deep_view());
    }
    r
}

/// The plain-text body returned when the upstream fails while the app runs.
pub fn error_message() -> (r: String)
    ensures
        r@ == "No response from server"@,
{
    String::from_str("No response from server")
}

/// What to serve when the upstream refused the connection.
#[derive(Clone, Copy, Debug, PartialEq, Eq, Structural)]
pub enum UpstreamFallback {
    /// The app is running: return the short plain-text error body.
    ErrorText,
    /// The app is not running: fire a start and serve the autostart page.
    StartAndRetry,
}

/// Decide the fallback for an upstream error.
pub fn upstream_fallback(app_running: bool) -> (r: UpstreamFallback)
    ensures
        r == (if app_running {
            UpstreamFallback::ErrorText
        } else {
            UpstreamFallback::StartAndRetry
        }),
{
    if app_running {
        UpstreamFallback::ErrorText
    } else {
        UpstreamFallback::StartAndRetry
    }
}

/// Where one request goes.
#[derive(Debug)]
pub enum RequestPlan {
    /// No app answers to the host: serve the app listing.
    MissingHost(String),
    /// A reserved path: serve the meta endpoint.
    Meta(meta_server::MetaAction),
    /// Forward upstream with the app's header overrides merged in.
    Forward { url: String, header_overrides: Vec<(String, String)> },
}

/// Decide one request, given the resolved app.  A forwarded request touches
/// the app's idle stamp.
pub fn plan_request(
    manager: &mut ProcessManager,
    app_index: Option<usize>,
    host: &str,
    request_uri: &str,
    now: u64,
) -> (r: RequestPlan)
    requires
        (match app_index {
            Some(i) => i < old(manager).apps@.len(),
            None => true,
        }),
    ensures
        (match app_index {
            None => *final(manager) == *old(manager) && (match r {
                RequestPlan::MissingHost(body) => body@ == host_missing::missing_host_body(
                    host@,
                    old(manager).apps@,
                ),
                _ => false,
            }),
            Some(i) => {
                let app = old(manager).apps@[i as int];
                if text::spec_starts_with(spec_path_and_query(request_uri@), "/__oxidux__/"@) {
                    *final(manager) == *old(manager) && (match r {
                        RequestPlan::Meta(action) => action == meta_server::spec_meta_action(
                            spec_path_and_query(request_uri@),
                        ),
                        _ => false,
                    })
                } else {
                    &&& final(manager).apps@.len() == old(manager).apps@.len()
                    &&& final(manager).apps@[i as int].last_hit == (if now > app.last_hit {
                        now
                    } else {
                        app.last_hit
                    })
                    &&& (forall|k: int|
                        0 <= k < old(manager).apps@.len() && k != i
                            ==> #[trigger] final(manager).apps@[k] == old(manager).apps@[k])
                    &&& final(manager).apps@[i as int] == (App {
                        last_hit: final(manager).apps@[i as int].last_hit,
                        ..app
                    })
                    &&& final(manager).next_port == old(manager).next_port
                    &&& final(manager).config == old(manager).config
                    &&& (match r {
                        RequestPlan::Forward { url, header_overrides } => url@
                            == "http://localhost:"@ + text::dec_str(app.port as nat)
                            + spec_path_and_query(request_uri@) && header_overrides.deep_view()
                            == app.headers.deep_view(),
                        _ => false,
                    })
                }
            },
        }),
{
    match app_index {
        None => RequestPlan::MissingHost(host_missing::missing_host_response(host, manager)),
        Some(i) => {
            let v = text::chars_of(request_uri);
            let paq = if text::starts_with_str(request_uri, "http://") {
                proof {
                    reveal_strlit("http://");
                }
                path_from(&v, 7)
            } else if text::starts_with_str(request_uri, "https://") {
                proof {
                    reveal_strlit("https://");
                }
                path_from(&v, 8)
            } else {
                v
            };
            let paq_str = text::string_of(&paq);
            if meta_server::is_meta_request(paq_str.as_str()) {
                RequestPlan::Meta(meta_server::meta_action(paq_str.as_str()))
            } else {
                let port = manager.apps[i].port;
                let headers = crate::config::clone_pairs(&manager.apps[i].headers);
                manager.apps[i].touch(now);
                RequestPlan::Forward { url: app_url(port, request_uri), header_overrides: headers }
            }
        },
    }
}

} // verus!
