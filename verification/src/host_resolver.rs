//! Mapping an inbound hostname to an app.
//!
//! The candidate app name is the second-to-last dot-separated label of the
//! host — `app` from both `app.test` and `sub.app.test` — or the whole host
//! when it has no dot.  Reloading configurations from disk happens outside
//! the core; the lookup over what was read is here.

use vstd::prelude::*;
use vstd::string::*;

use crate::app::App;
use crate::config;
use crate::process_manager::ProcessManager;
use crate::text;

verus! {

/// Position of the last `.` strictly before `end`, or `-1`.
pub open spec fn last_dot_before(h: Seq<char>, end: int) -> int
    decreases end,
{
    if end <= 0 {
        -1
    } else if h[end - 1] == '.' {
        end - 1
    } else {
        last_dot_before(h, end - 1)
    }
}

/// The candidate app name of a hostname: the label between the last two
/// dots, the part before the only dot, or the whole host.
pub open spec fn spec_canonical_host(h: Seq<char>) -> Seq<char> {
    let l = last_dot_before(h, h.len() as int);
    if l < 0 {
        h
    } else {
        h.subrange(last_dot_before(h, l) + 1, l)
    }
}

pub proof fn lemma_last_dot_is(h: Seq<char>, end: int, k: int)
    requires
        -1 <= k < end,
        end <= h.len(),
        k >= 0 ==> h[k] == '.',
        forall|j: int| k < j < end ==> h[j] != '.',
    ensures
        last_dot_before(h, end) == k,
    decreases end,
{
    if end > 0 {
        if end - 1 == k {
        } else {
            assert(h[end - 1] != '.');
            lemma_last_dot_is(h, end - 1, k);
        }
    }
}

/// Compute the candidate app name of a host.
pub fn canonical_host(host: &str) -> (r: String)
    ensures
        r@ == spec_canonical_host(host@),
{
    let v = text::chars_of(host);
    let n: usize = v.len();
    match rfind_dot_before(&v, n) {
        None => {
            proof {
                lemma_last_dot_is(v@, n as int, -1);
            }
            String::from_str(host)
        },
        Some(l) => {
            proof {
                lemma_last_dot_is(v@, n as int, l as int);
            }
            match rfind_dot_before(&v, l) {
                None => {
                    proof {
                        lemma_last_dot_is(v@, l as int, -1);
                    }
                    let needle = text::substring_chars(&v, 0, l);
                    text::string_of(&needle)
                },
                Some(p) => {
                    proof {
                        lemma_last_dot_is(v@, l as int, p as int);
                    }
                    let needle = text::substring_chars(&v, p + 1, l);
                    text::string_of(&needle)
                },
            }
        },
    }
}

/// Last `.` strictly before `end`, scanning backwards.
fn rfind_dot_before(v: &Vec<char>, end: usize) -> (r: Option<usize>)
    requires
        end <= v@.len(),
    ensures
        match r {
            Some(k) => k < end && v@[k as int] == '.' && forall|j: int|
                k < j < end ==> v@[j] != '.',
            None => forall|j: int| 0 <= j < end ==> v@[j] != '.',
        },
{
    let mut i: usize = end;
    while i > 0
        invariant
            i <= end <= v@.len(),
            forall|j: int| i <= j < end ==> v@[j] != '.',
        decreases i,
    {
        i = i - 1;
        if v[i] == '.' {
            return Some(i);
        }
    }
    None
}

/// Does the candidate name of `host` appear among `domains`?
pub fn matches_domains(host: &str, domains: &Vec<String>) -> (r: bool)
    ensures
        r == (exists|i: int|
            0 <= i < domains@.len() && (#[trigger] domains@[i])@ == spec_canonical_host(host@)),
{
    let needle = canonical_host(host);
    let mut i: usize = 0;
    while i < domains.len()
        invariant
            i <= domains@.len(),
            needle@ == spec_canonical_host(host@),
            forall|j: int| 0 <= j < i ==> (#[trigger] domains@[j])@ != spec_canonical_host(host@),
        decreases domains@.len() - i,
    {
        if text::str_eq(domains[i].as_str(), needle.as_str()) {
            return true;
        }
        i = i + 1;
    }
    false
}

/// Does this app answer to the candidate name?
pub open spec fn app_matches_host(a: App, h: Seq<char>) -> bool {
    exists|i: int|
        0 <= i < a.spec_domains().len() && #[trigger] a.spec_domains()[i] == spec_canonical_host(h)
}

fn app_matches(a: &App, needle: &Vec<char>, Ghost(h): Ghost<Seq<char>>) -> (r: bool)
    requires
        needle@ == spec_canonical_host(h),
    ensures
        r == app_matches_host(*a, h),
{
    if text::str_eq_chars(a.name.as_str(), needle) {
        proof {
            assert(a.spec_domains()[0] == spec_canonical_host(h));
        }
        return true;
    }
    let mut i: usize = 0;
    while i < a.aliases.len()
        invariant
            i <= a.aliases@.len(),
            needle@ == spec_canonical_host(h),
            a.name@ != needle@,
            forall|j: int| 0 <= j < i ==> (#[trigger] a.aliases@[j])@ != needle@,
        decreases a.aliases@.len() - i,
    {
        if text::str_eq_chars(a.aliases[i].as_str(), needle) {
            proof {
                assert(a.spec_domains()[i + 1] == a.aliases.deep_view()[i as int]);
                assert(a.aliases.deep_view()[i as int] == a.aliases@[i as int]@);
            }
            return true;
        }
        i = i + 1;
    }
    proof {
        assert forall|k: int|
            0 <= k < a.spec_domains().len() implies #[trigger] a.spec_domains()[k]
            != spec_canonical_host(h) by {
            if k > 0 {
                assert(a.spec_domains()[k] == a.aliases.deep_view()[k - 1]);
                assert(a.aliases.deep_view()[k - 1] == a.aliases@[k - 1]@);
            }
        }
    }
    false
}

/// Index of the first app answering to the host's candidate name.
pub open spec fn first_app_for_host(apps: Seq<App>, h: Seq<char>) -> int
    decreases apps.len(),
{
    if apps.len() == 0 {
        0
    } else if app_matches_host(apps[0], h) {
        0
    } else {
        1 + first_app_for_host(apps.drop_first(), h)
    }
}

pub proof fn lemma_first_app_for_host_is(apps: Seq<App>, h: Seq<char>, k: int)
    requires
        0 <= k <= apps.len(),
        forall|j: int| 0 <= j < k ==> !app_matches_host(#[trigger] apps[j], h),
        k < apps.len() ==> app_matches_host(apps[k], h),
    ensures
        first_app_for_host(apps, h) == k,
    decreases k,
{
    if apps.len() == 0 {
    } else if app_matches_host(apps[0], h) {
        assert(k == 0);
    } else {
        assert(k > 0);
        lemma_first_app_for_host_is(apps.drop_first(), h, k - 1);
    }
}

/// Find the registered app answering to the host, if any.
pub fn resolve_registered(manager: &ProcessManager, host: &str) -> (r: Option<usize>)
    ensures
        (match r {
            Some(i) => i == first_app_for_host(manager.apps@, host@) && i < manager.apps@.len()
                && app_matches_host(manager.apps@[i as int], host@),
            None => first_app_for_host(manager.apps@, host@) == manager.apps@.len(),
        }),
{
    let needle = text::chars_of(canonical_host(host).as_str());
    let mut i: usize = 0;
    while i < manager.apps.len()
        invariant
            i <= manager.apps@.len(),
            needle@ == spec_canonical_host(host@),
            forall|j: int| 0 <= j < i ==> !app_matches_host(#[trigger] manager.apps@[j], host@),
        decreases manager.apps@.len() - i,
    {
        if app_matches(&manager.apps[i], &needle, Ghost(host@)) {
            proof {
                lemma_first_app_for_host_is(manager.apps@, host@, i as int);
            }
            return Some(i);
        }
        i = i + 1;
    }
    proof {
        lemma_first_app_for_host_is(manager.apps@, host@, manager.apps@.len() as int);
    }
    None
}

/// Does this configuration record answer to the candidate name?
pub open spec fn config_matches_host(c: config::App, h: Seq<char>) -> bool {
    exists|i: int|
        0 <= i < c.spec_domains().len() && #[trigger] c.spec_domains()[i] == spec_canonical_host(h)
}

/// Index of the first configuration answering to the host's candidate name.
pub open spec fn first_config_for_host(cs: Seq<config::App>, h: Seq<char>) -> int
    decreases cs.len(),
{
    if cs.len() == 0 {
        0
    } else if config_matches_host(cs[0], h) {
        0
    } else {
        1 + first_config_for_host(cs.drop_first(), h)
    }
}

pub proof fn lemma_first_config_for_host_is(cs: Seq<config::App>, h: Seq<char>, k: int)
    requires
        0 <= k <= cs.len(),
        forall|j: int| 0 <= j < k ==> !config_matches_host(#[trigger] cs[j], h),
        k < cs.len() ==> config_matches_host(cs[k], h),
    ensures
        first_config_for_host(cs, h) == k,
    decreases k,
{
    if cs.len() == 0 {
    } else if config_matches_host(cs[0], h) {
        assert(k == 0);
    } else {
        assert(k > 0);
        lemma_first_config_for_host_is(cs.drop_first(), h, k - 1);
    }
}

/// Find the first configuration answering to the host, if any.  The caller
/// reads the configurations from disk, and on a hit registers the app with
/// `ProcessManager::add_app`.
pub fn find_config_for_host(configs: &Vec<config::App>, host: &str) -> (r: Option<usize>)
    ensures
        (match r {
            Some(i) => i == first_config_for_host(configs@, host@) && i < configs@.len()
                && config_matches_host(configs@[i as int], host@),
            None => first_config_for_host(configs@, host@) == configs@.len(),
        }),
{
    let needle = text::chars_of(canonical_host(host).as_str());
    let mut i: usize = 0;
    while i < configs.len()
        invariant
            i <= configs@.len(),
            needle@ == spec_canonical_host(host@),
            forall|j: int| 0 <= j < i ==> !config_matches_host(#[trigger] configs@[j], host@),
        decreases configs@.len() - i,
    {
        let c = &configs[i];
        if text::str_eq_chars(c.name.as_str(), &needle) {
            proof {
                assert(c.spec_domains()[0] == spec_canonical_host(host@));
                lemma_first_config_for_host_is(configs@, host@, i as int);
            }
            return Some(i);
        }
        let mut k: usize = 0;
        let mut found = false;
        while k < c.aliases.len()
            invariant
                k <= c.aliases@.len(),
                needle@ == spec_canonical_host(host@),
                found ==> config_matches_host(*c, host@),
                !found ==> forall|j: int| 0 <= j < k ==> (#[trigger] c.aliases@[j])@ != needle@,
            decreases c.aliases@.len() - k,
        {
            if !found && text::str_eq_chars(c.aliases[k].as_str(), &needle) {
                proof {
                    assert(c.spec_domains()[k + 1] == c.aliases.deep_view()[k as int]);
                    assert(c.aliases.deep_view()[k as int] == c.aliases@[k as int]@);
                }
                found = true;
            }
            k = k + 1;
        }
        if found {
            proof {
                lemma_first_config_for_host_is(configs@, host@, i as int);
            }
            return Some(i);
        }
        proof {
            assert forall|m: int|
                0 <= m < c.spec_domains().len() implies #[trigger] c.spec_domains()[m]
                != spec_canonical_host(host@) by {
                if m > 0 {
                    assert(c.spec_domains()[m] == c.aliases.deep_view()[m - 1]);
                    assert(c.aliases.deep_view()[m - 1] == c.aliases@[m - 1]@);
                }
            }
        }
        i = i + 1;
    }
    proof {
        lemma_first_config_for_host_is(configs@, host@, configs@.len() as int);
    }
    None
}

/// Hostname canonicalization reaches the app label: any host of the shape
/// `x.y.name.tld` — with dot-free `x`, `y`, `name` and `tld` — canonicalizes
/// to `name`, and so does the plain `name.tld`.  Subdomains therefore route
/// to the same app.
pub proof fn lemma_canonical_host_routes(
    x: Seq<char>,
    y: Seq<char>,
    name: Seq<char>,
    tld: Seq<char>,
)
    requires
        forall|j: int| 0 <= j < x.len() ==> x[j] != '.',
        forall|j: int| 0 <= j < y.len() ==> y[j] != '.',
        forall|j: int| 0 <= j < name.len() ==> name[j] != '.',
        forall|j: int| 0 <= j < tld.len() ==> tld[j] != '.',
    ensures
        spec_canonical_host(x + "."@ + y + "."@ + name + "."@ + tld) == name,
        spec_canonical_host(name + "."@ + tld) == name,
{
    reveal_strlit(".");
    let dot = "."@;
    let h = x + dot + y + dot + name + dot + tld;
    let q = x + dot + y;
    let p = q + dot + name;
    assert(h =~= p + dot + tld);
    assert(p[q.len() as int] == '.');
    assert forall|j: int| q.len() < j < p.len() implies h[j] != '.' by {
        assert(h[j] == name[j - q.len() - 1]);
    }
    assert(h[p.len() as int] == '.');
    assert forall|j: int| p.len() < j < h.len() implies h[j] != '.' by {
        assert(h[j] == tld[j - p.len() - 1]);
    }
    lemma_last_dot_is(h, h.len() as int, p.len() as int);
    lemma_last_dot_is(h, p.len() as int, q.len() as int);
    assert(h.subrange(q.len() as int + 1, p.len() as int) =~= name);

    let g = name + dot + tld;
    assert(g[name.len() as int] == '.');
    assert forall|j: int| name.len() < j < g.len() implies g[j] != '.' by {
        assert(g[j] == tld[j - name.len() - 1]);
    }
    assert forall|j: int| 0 <= j < name.len() implies g[j] != '.' by {
        assert(g[j] == name[j]);
    }
    lemma_last_dot_is(g, g.len() as int, name.len() as int);
    lemma_last_dot_is(g, name.len() as int, -1);
    assert(g.subrange(0, name.len() as int) =~= name);
}

} // verus!
