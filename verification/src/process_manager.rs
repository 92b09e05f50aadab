//! The app registry: the process-wide set of running apps, the port
//! allocator, and the idle sweep.
//!
//! The runtime keeps one `ProcessManager` behind a reader/writer lock; every
//! mutation below is serialized by that lock.

use vstd::prelude::*;
use vstd::string::*;

use crate::app::App;
use crate::app;
use crate::config::Config;
use crate::config;
use crate::process::{Process, ProcessEvent, RunState};
use crate::process;
use crate::text;

verus! {

/// First port handed out by the allocator.
pub const PORT_START: u16 = 7500;

pub struct ProcessManager {
    /// Registered apps, in arrival order.
    pub apps: Vec<App>,
    /// The configuration the registry was booted with.
    pub config: Config,
    /// Next port the allocator will hand out; only ever grows.
    pub next_port: u16,
}

/// Index of the first app carrying this name, or the length.
pub open spec fn first_named(apps: Seq<App>, name: Seq<char>) -> int
    decreases apps.len(),
{
    if apps.len() == 0 {
        0
    } else if apps[0].name@ == name {
        0
    } else {
        1 + first_named(apps.drop_first(), name)
    }
}

pub proof fn lemma_first_named_is(apps: Seq<App>, name: Seq<char>, k: int)
    requires
        0 <= k <= apps.len(),
        forall|j: int| 0 <= j < k ==> (#[trigger] apps[j]).name@ != name,
        k < apps.len() ==> apps[k].name@ == name,
    ensures
        first_named(apps, name) == k,
    decreases k,
{
    if apps.len() == 0 {
    } else if apps[0].name@ == name {
        assert(k == 0);
    } else {
        assert(k > 0);
        lemma_first_named_is(apps.drop_first(), name, k - 1);
    }
}

/// Index of the first app whose directory is a prefix of `dir`.
pub open spec fn first_for_dir(apps: Seq<App>, dir: Seq<char>) -> int
    decreases apps.len(),
{
    if apps.len() == 0 {
        0
    } else if text::spec_starts_with(dir, apps[0].directory@) {
        0
    } else {
        1 + first_for_dir(apps.drop_first(), dir)
    }
}

pub proof fn lemma_first_for_dir_is(apps: Seq<App>, dir: Seq<char>, k: int)
    requires
        0 <= k <= apps.len(),
        forall|j: int|
            0 <= j < k ==> !text::spec_starts_with(dir, (#[trigger] apps[j]).directory@),
        k < apps.len() ==> text::spec_starts_with(dir, apps[k].directory@),
    ensures
        first_for_dir(apps, dir) == k,
    decreases k,
{
    if apps.len() == 0 {
    } else if text::spec_starts_with(dir, apps[0].directory@) {
        assert(k == 0);
    } else {
        assert(k > 0);
        lemma_first_for_dir_is(apps.drop_first(), dir, k - 1);
    }
}

/// The apps of `s` that are not named `name`, in order.
pub open spec fn drop_named(s: Seq<App>, name: Seq<char>) -> Seq<App>
    decreases s.len(),
{
    if s.len() == 0 {
        s
    } else if s[0].name@ == name {
        drop_named(s.drop_first(), name)
    } else {
        seq![s[0]] + drop_named(s.drop_first(), name)
    }
}

/// No app named `name` survives `drop_named`, and every survivor comes from
/// the original sequence.
pub proof fn lemma_drop_named_props(s: Seq<App>, name: Seq<char>)
    ensures
        forall|k: int|
            0 <= k < drop_named(s, name).len() ==> (#[trigger] drop_named(s, name)[k]).name@
                != name,
        forall|k: int|
            0 <= k < drop_named(s, name).len() ==> exists|j: int|
                0 <= j < s.len() && #[trigger] drop_named(s, name)[k] == s[j],
    decreases s.len(),
{
    if s.len() > 0 {
        lemma_drop_named_props(s.drop_first(), name);
        let rest = drop_named(s.drop_first(), name);
        assert forall|k: int|
            0 <= k < drop_named(s, name).len() implies exists|j: int|
            0 <= j < s.len() && #[trigger] drop_named(s, name)[k] == s[j] by {
            if s[0].name@ == name {
                let j0 = choose|j: int| 0 <= j < s.drop_first().len() && rest[k] == s.drop_first()[j];
                assert(drop_named(s, name)[k] == s[j0 + 1]);
            } else {
                if k == 0 {
                    assert(drop_named(s, name)[0] == s[0]);
                } else {
                    let j0 = choose|j: int|
                        0 <= j < s.drop_first().len() && rest[k - 1] == s.drop_first()[j];
                    assert(drop_named(s, name)[k] == s[j0 + 1]);
                }
            }
        }
    }
}

/// Is an app idle at `now`, given the idle threshold?
pub open spec fn is_idle(a: App, now: u64, timeout: u64) -> bool {
    now as int - a.last_hit as int > timeout as int
}

/// The apps of `s` still fresh at `now`, in order.
pub open spec fn drop_idle(s: Seq<App>, now: u64, timeout: u64) -> Seq<App>
    decreases s.len(),
{
    if s.len() == 0 {
        s
    } else if is_idle(s[0], now, timeout) {
        drop_idle(s.drop_first(), now, timeout)
    } else {
        seq![s[0]] + drop_idle(s.drop_first(), now, timeout)
    }
}

/// Nothing idle survives the sweep, and every survivor comes from the
/// original sequence.
pub proof fn lemma_drop_idle_props(s: Seq<App>, now: u64, timeout: u64)
    ensures
        forall|k: int|
            0 <= k < drop_idle(s, now, timeout).len() ==> !is_idle(
                #[trigger] drop_idle(s, now, timeout)[k],
                now,
                timeout,
            ),
        forall|k: int|
            0 <= k < drop_idle(s, now, timeout).len() ==> exists|j: int|
                0 <= j < s.len() && #[trigger] drop_idle(s, now, timeout)[k] == s[j],
    decreases s.len(),
{
    if s.len() > 0 {
        lemma_drop_idle_props(s.drop_first(), now, timeout);
        let rest = drop_idle(s.drop_first(), now, timeout);
        assert forall|k: int|
            0 <= k < drop_idle(s, now, timeout).len() implies exists|j: int|
            0 <= j < s.len() && #[trigger] drop_idle(s, now, timeout)[k] == s[j] by {
            if is_idle(s[0], now, timeout) {
                let j0 = choose|j: int| 0 <= j < s.drop_first().len() && rest[k] == s.drop_first()[j];
                assert(drop_idle(s, now, timeout)[k] == s[j0 + 1]);
            } else {
                if k == 0 {
                    assert(drop_idle(s, now, timeout)[0] == s[0]);
                } else {
                    let j0 = choose|j: int|
                        0 <= j < s.drop_first().len() && rest[k - 1] == s.drop_first()[j];
                    assert(drop_idle(s, now, timeout)[k] == s[j0 + 1]);
                }
            }
        }
    }
}

/// Dropping apps by name keeps ports pairwise distinct and below the
/// cursor.
pub proof fn lemma_drop_named_keeps_ports(s: Seq<App>, name: Seq<char>, cursor: u16)
    requires
        ports_distinct(s),
        bounded_ports(s, cursor),
    ensures
        ports_distinct(drop_named(s, name)),
        bounded_ports(drop_named(s, name), cursor),
    decreases s.len(),
{
    if s.len() > 0 {
        let t = s.drop_first();
        assert(forall|i: int| 0 <= i < t.len() ==> #[trigger] t[i] == s[i + 1]);
        lemma_drop_named_keeps_ports(t, name, cursor);
        lemma_drop_named_props(t, name);
        let rest = drop_named(t, name);
        if s[0].name@ != name {
            assert forall|i: int, j: int|
                0 <= i < j < drop_named(s, name).len() implies (#[trigger] drop_named(s, name)[
                i
            ]).port != (#[trigger] drop_named(s, name)[j]).port by {
                if i == 0 {
                    assert(drop_named(s, name)[j] == rest[j - 1]);
                    let w = choose|w: int| 0 <= w < t.len() && rest[j - 1] == t[w];
                    assert(s[0].port != s[w + 1].port);
                } else {
                    assert(drop_named(s, name)[i] == rest[i - 1]);
                    assert(drop_named(s, name)[j] == rest[j - 1]);
                }
            }
            assert forall|i: int|
                0 <= i < drop_named(s, name).len() implies (#[trigger] drop_named(s, name)[
                i
            ]).port < cursor by {
                if i > 0 {
                    assert(drop_named(s, name)[i] == rest[i - 1]);
                }
            }
        }
    }
}

/// Dropping idle apps keeps ports pairwise distinct and below the cursor.
pub proof fn lemma_drop_idle_keeps_ports(s: Seq<App>, now: u64, timeout: u64, cursor: u16)
    requires
        ports_distinct(s),
        bounded_ports(s, cursor),
    ensures
        ports_distinct(drop_idle(s, now, timeout)),
        bounded_ports(drop_idle(s, now, timeout), cursor),
    decreases s.len(),
{
    if s.len() > 0 {
        let t = s.drop_first();
        assert(forall|i: int| 0 <= i < t.len() ==> #[trigger] t[i] == s[i + 1]);
        lemma_drop_idle_keeps_ports(t, now, timeout, cursor);
        lemma_drop_idle_props(t, now, timeout);
        let rest = drop_idle(t, now, timeout);
        if !is_idle(s[0], now, timeout) {
            assert forall|i: int, j: int|
                0 <= i < j < drop_idle(s, now, timeout).len() implies (#[trigger] drop_idle(
                s,
                now,
                timeout,
            )[i]).port != (#[trigger] drop_idle(s, now, timeout)[j]).port by {
                if i == 0 {
                    assert(drop_idle(s, now, timeout)[j] == rest[j - 1]);
                    let w = choose|w: int| 0 <= w < t.len() && rest[j - 1] == t[w];
                    assert(s[0].port != s[w + 1].port);
                } else {
                    assert(drop_idle(s, now, timeout)[i] == rest[i - 1]);
                    assert(drop_idle(s, now, timeout)[j] == rest[j - 1]);
                }
            }
            assert forall|i: int|
                0 <= i < drop_idle(s, now, timeout).len() implies (#[trigger] drop_idle(
                s,
                now,
                timeout,
            )[i]).port < cursor by {
                if i > 0 {
                    assert(drop_idle(s, now, timeout)[i] == rest[i - 1]);
                }
            }
        }
    }
}

/// PIDs of every live process of every app, in order.
pub open spec fn all_live_pids(apps: Seq<App>) -> Seq<i32>
    decreases apps.len(),
{
    if apps.len() == 0 {
        Seq::empty()
    } else {
        all_live_pids(apps.drop_last()) + app::spec_live_pids(apps.last().processes@)
    }
}

/// Every port in use is below the allocation cursor.
pub open spec fn bounded_ports(apps: Seq<App>, next_port: u16) -> bool {
    forall|i: int| 0 <= i < apps.len() ==> (#[trigger] apps[i]).port < next_port
}

/// No two apps share a port.
pub open spec fn ports_distinct(apps: Seq<App>) -> bool {
    forall|i: int, j: int|
        0 <= i < j < apps.len() ==> (#[trigger] apps[i]).port != (#[trigger] apps[j]).port
}

/// Does some registered app hold this port?
pub open spec fn port_in_use(apps: Seq<App>, p: u16) -> bool {
    exists|i: int| 0 <= i < apps.len() && (#[trigger] apps[i]).port == p
}

/// Where the allocation cursor stands after one registration: past the
/// assigned port, so no later automatic allocation can collide with it.
pub open spec fn spec_next_cursor(cur: u16, fixed: Option<u16>) -> u16 {
    match fixed {
        None => (cur + 1) as u16,
        Some(p) => if p >= cur {
            if p == u16::MAX {
                u16::MAX
            } else {
                (p + 1) as u16
            }
        } else {
            (cur + 1) as u16
        },
    }
}

/// PIDs of the live processes of the idle apps, in order.
pub open spec fn idle_live_pids(s: Seq<App>, now: u64, timeout: u64) -> Seq<i32>
    decreases s.len(),
{
    if s.len() == 0 {
        Seq::empty()
    } else if is_idle(s[0], now, timeout) {
        app::spec_live_pids(s[0].processes@) + idle_live_pids(s.drop_first(), now, timeout)
    } else {
        idle_live_pids(s.drop_first(), now, timeout)
    }
}

impl ProcessManager {
    /// A fresh registry around the given configuration.
    pub fn new(config: Config) -> (r: ProcessManager)
        ensures
            r.apps@.len() == 0,
            r.next_port == PORT_START,
            r.config == config,
    {
        ProcessManager { apps: Vec::new(), config, next_port: PORT_START }
    }

    pub fn config(&self) -> (r: &Config)
        ensures
            r == self.config,
    {
        &self.config
    }

    pub open spec fn spec_next_port(self) -> u16 {
        self.next_port
    }

    pub open spec fn spec_config(self) -> Config {
        self.config
    }

    /// First app carrying this name.
    pub fn find_app_by_name(&self, app_name: &str) -> (r: Option<&App>)
        ensures
            (match r {
                Some(a) => first_named(self.apps@, app_name@) < self.apps@.len() && *a
                    == self.apps@[first_named(self.apps@, app_name@)],
                None => first_named(self.apps@, app_name@) == self.apps@.len(),
            }),
    {
        let mut i: usize = 0;
        while i < self.apps.len()
            invariant
                i <= self.apps@.len(),
                forall|j: int| 0 <= j < i ==> (#[trigger] self.apps@[j]).name@ != app_name@,
            decreases self.apps@.len() - i,
        {
            if text::str_eq(self.apps[i].name.as_str(), app_name) {
                proof {
                    lemma_first_named_is(self.apps@, app_name@, i as int);
                }
                return Some(&self.apps[i]);
            }
            i = i + 1;
        }
        proof {
            lemma_first_named_is(self.apps@, app_name@, self.apps@.len() as int);
        }
        None
    }

    /// First app whose directory is a prefix of the given one.
    pub fn find_app_for_directory(&self, directory: &str) -> (r: Option<&App>)
        ensures
            (match r {
                Some(a) => first_for_dir(self.apps@, directory@) < self.apps@.len() && *a
                    == self.apps@[first_for_dir(self.apps@, directory@)],
                None => first_for_dir(self.apps@, directory@) == self.apps@.len(),
            }),
    {
        let mut i: usize = 0;
        while i < self.apps.len()
            invariant
                i <= self.apps@.len(),
                forall|j: int|
                    0 <= j < i ==> !text::spec_starts_with(
                        directory@,
                        (#[trigger] self.apps@[j]).directory@,
                    ),
            decreases self.apps@.len() - i,
        {
            if text::starts_with_str(directory, self.apps[i].directory.as_str()) {
                proof {
                    lemma_first_for_dir_is(self.apps@, directory@, i as int);
                }
                return Some(&self.apps[i]);
            }
            i = i + 1;
        }
        proof {
            lemma_first_for_dir_is(self.apps@, directory@, self.apps@.len() as int);
        }
        None
    }

    /// Index forms of the two lookups, for callers that go on to mutate.
    pub fn find_index_by_name(&self, app_name: &str) -> (r: Option<usize>)
        ensures
            (match r {
                Some(i) => i == first_named(self.apps@, app_name@) && i < self.apps@.len()
                    && self.apps@[i as int].name@ == app_name@,
                None => first_named(self.apps@, app_name@) == self.apps@.len(),
            }),
    {
        let mut i: usize = 0;
        while i < self.apps.len()
            invariant
                i <= self.apps@.len(),
                forall|j: int| 0 <= j < i ==> (#[trigger] self.apps@[j]).name@ != app_name@,
            decreases self.apps@.len() - i,
        {
            if text::str_eq(self.apps[i].name.as_str(), app_name) {
                proof {
                    lemma_first_named_is(self.apps@, app_name@, i as int);
                }
                return Some(i);
            }
            i = i + 1;
        }
        proof {
            lemma_first_named_is(self.apps@, app_name@, self.apps@.len() as int);
        }
        None
    }

    pub fn find_index_for_directory(&self, directory: &str) -> (r: Option<usize>)
        ensures
            (match r {
                Some(i) => i == first_for_dir(self.apps@, directory@) && i < self.apps@.len()
                    && text::spec_starts_with(directory@, self.apps@[i as int].directory@),
                None => first_for_dir(self.apps@, directory@) == self.apps@.len(),
            }),
    {
        let mut i: usize = 0;
        while i < self.apps.len()
            invariant
                i <= self.apps@.len(),
                forall|j: int|
                    0 <= j < i ==> !text::spec_starts_with(
                        directory@,
                        (#[trigger] self.apps@[j]).directory@,
                    ),
            decreases self.apps@.len() - i,
        {
            if text::starts_with_str(directory, self.apps[i].directory.as_str()) {
                proof {
                    lemma_first_for_dir_is(self.apps@, directory@, i as int);
                }
                return Some(i);
            }
            i = i + 1;
        }
        proof {
            lemma_first_for_dir_is(self.apps@, directory@, self.apps@.len() as int);
        }
        None
    }

    /// Register one more app.  Its port is the configured one, or the next
    /// free slot of the monotone allocator; the cursor then moves past the
    /// assigned port, so released ports are never handed out again and a
    /// fixed port cannot collide with a later automatic one.
    pub fn add_app(
        &mut self,
        new_app: config::App,
        procfile_text: Option<&str>,
        now: u64,
    ) -> (idx: usize)
        requires
            old(self).next_port < u16::MAX,
        ensures
            idx == old(self).apps@.len(),
            final(self).apps@.len() == old(self).apps@.len() + 1,
            final(self).apps@.subrange(0, idx as int) == old(self).apps@,
            final(self).next_port == spec_next_cursor(old(self).next_port, new_app.port),
            final(self).config == old(self).config,
            ({
                let a = final(self).apps@.last();
                a.name@ == new_app.name@ && a.port == (match new_app.port {
                    Some(p) => p,
                    None => old(self).next_port,
                }) && a.tld@ == old(self).config.general.domain@ && a.last_hit == now
                    && a.aliases.deep_view() == new_app.aliases.deep_view()
                    && a.headers.deep_view() == new_app.headers.deep_view()
                    && a.processes@.len() == config::spec_commands(
                    new_app.command_config,
                    config::view_opt_str(procfile_text),
                ).len() && (forall|i: int|
                    0 <= i < a.processes@.len() ==> {
                        let entry = config::spec_commands(
                            new_app.command_config,
                            config::view_opt_str(procfile_text),
                        )[i];
                        (#[trigger] a.processes@[i]).process_name@ == entry.0
                            && a.processes@[i].command@ == entry.1 && a.processes@[i].port == a.port
                            && a.processes@[i].state == RunState::Stopped
                    })
            }),
            ports_distinct(old(self).apps@) && bounded_ports(old(self).apps@, old(self).next_port)
                && (match new_app.port {
                Some(p) => p < u16::MAX && !port_in_use(old(self).apps@, p),
                None => true,
            }) ==> ports_distinct(final(self).apps@) && bounded_ports(
                final(self).apps@,
                final(self).next_port,
            ),
    {
        let domain = self.config.general.domain.clone();
        let new_record = App::from_config(&new_app, self.next_port, domain, procfile_text, now);
        let assigned = new_record.port;
        if assigned == u16::MAX {
            self.next_port = u16::MAX;
        } else if assigned >= self.next_port {
            self.next_port = assigned + 1;
        } else {
            self.next_port = self.next_port + 1;
        }
        let idx = self.apps.len();
        self.apps.push(new_record);
        proof {
            assert(final(self).apps@.subrange(0, idx as int) =~= old(self).apps@);
            let pre = old(self).apps@;
            let post = self.apps@;
            let cur = old(self).next_port;
            if ports_distinct(pre) && bounded_ports(pre, cur) && (match new_app.port {
                Some(p) => p < u16::MAX && !port_in_use(pre, p),
                None => true,
            }) {
                assert forall|i: int, j: int| 0 <= i < j < post.len() implies (
                #[trigger] post[i]).port != (#[trigger] post[j]).port by {
                    if j < pre.len() {
                        assert(post[i] == pre[i] && post[j] == pre[j]);
                    } else {
                        assert(post[j].port == assigned);
                        assert(post[i] == pre[i]);
                        match new_app.port {
                            Some(p) => {
                                assert(!port_in_use(pre, p));
                                assert(pre[i].port != p);
                            },
                            None => {
                                assert(pre[i].port < cur);
                            },
                        }
                    }
                }
                assert forall|i: int| 0 <= i < post.len() implies (#[trigger] post[i]).port
                    < self.next_port by {
                    if i < pre.len() {
                        assert(post[i] == pre[i]);
                        assert(pre[i].port < cur);
                    } else {
                        assert(post[i].port == assigned);
                    }
                }
            }
        }
        idx
    }

    /// Drop every app carrying this name.  The caller is responsible for
    /// having stopped it first.
    pub fn remove_app_by_name(&mut self, app_name: &str)
        ensures
            final(self).apps@ == drop_named(old(self).apps@, app_name@),
            final(self).next_port == old(self).next_port,
            final(self).config == old(self).config,
            ports_distinct(old(self).apps@) && bounded_ports(old(self).apps@, old(self).next_port)
                ==> ports_distinct(final(self).apps@) && bounded_ports(
                final(self).apps@,
                final(self).next_port,
            ),
    {
        let ghost orig = self.apps@;
        let orig_len: usize = self.apps.len();
        let mut i: usize = 0;
        let mut removed: usize = 0;
        proof {
            assert(orig.subrange(0, orig.len() as int) =~= orig);
            assert(self.apps@.subrange(0, 0) =~= Seq::<App>::empty());
            assert(Seq::<App>::empty() + drop_named(orig, app_name@) =~= drop_named(
                orig,
                app_name@,
            ));
        }
        while i < self.apps.len()
            invariant
                i <= self.apps@.len(),
                orig.len() == orig_len,
                removed <= orig.len(),
                i + removed <= orig.len(),
                self.apps@.len() + removed == orig.len(),
                self.apps@.subrange(i as int, self.apps@.len() as int) == orig.subrange(
                    (i + removed) as int,
                    orig.len() as int,
                ),
                drop_named(orig, app_name@) == self.apps@.subrange(0, i as int) + drop_named(
                    orig.subrange((i + removed) as int, orig.len() as int),
                    app_name@,
                ),
                self.config == old(self).config,
                self.next_port == old(self).next_port,
            decreases self.apps@.len() - i,
        {
            let ghost pre = self.apps@;
            let ghost tail = orig.subrange((i + removed) as int, orig.len() as int);
            proof {
                assert(pre[i as int] == tail[0]);
                assert(tail.drop_first() =~= orig.subrange(
                    (i + removed + 1) as int,
                    orig.len() as int,
                ));
            }
            if text::str_eq(self.apps[i].name.as_str(), app_name) {
                self.apps.remove(i);
                removed = removed + 1;
                proof {
                    assert(self.apps@.subrange(i as int, self.apps@.len() as int) =~= pre.subrange(
                        (i + 1) as int,
                        pre.len() as int,
                    ));
                    assert(self.apps@.subrange(0, i as int) =~= pre.subrange(0, i as int));
                }
            } else {
                proof {
                    assert(seq![tail[0]] + drop_named(tail.drop_first(), app_name@) == drop_named(
                        tail,
                        app_name@,
                    ));
                    assert(pre.subrange(0, (i + 1) as int) =~= pre.subrange(0, i as int) + seq![
                        pre[i as int],
                    ]);
                    assert(pre.subrange(0, i as int) + seq![tail[0]] + drop_named(
                        tail.drop_first(),
                        app_name@,
                    ) =~= pre.subrange(0, (i + 1) as int) + drop_named(
                        tail.drop_first(),
                        app_name@,
                    ));
                }
                i = i + 1;
            }
        }
        proof {
            assert(self.apps@.subrange(0, i as int) =~= self.apps@);
            assert(orig.subrange((i + removed) as int, orig.len() as int).len() == 0);
            assert(drop_named(orig, app_name@) =~= self.apps@);
            if ports_distinct(orig) && bounded_ports(orig, old(self).next_port) {
                lemma_drop_named_keeps_ports(orig, app_name@, old(self).next_port);
            }
        }
    }

    /// Ask every process of every app to stop.  Afterwards nothing is
    /// `Running`; the returned PIDs must each get SIGINT.
    pub fn stop_all(&mut self) -> (signals: Vec<i32>)
        ensures
            final(self).apps@.len() == old(self).apps@.len(),
            forall|i: int, j: int|
                0 <= i < final(self).apps@.len() && 0 <= j < (#[trigger] final(self).apps@[i]).processes@.len()
                    ==> !((#[trigger] final(self).apps@[i].processes@[j]).state matches RunState::Running(_)),
            signals@ == all_live_pids(old(self).apps@),
            forall|i: int|
                0 <= i < old(self).apps@.len() ==> #[trigger] final(self).apps@[i] == (App {
                    processes: final(self).apps@[i].processes,
                    ..old(self).apps@[i]
                }),
            final(self).next_port == old(self).next_port,
            final(self).config == old(self).config,
    {
        let mut signals: Vec<i32> = Vec::new();
        let mut i: usize = 0;
        proof {
            assert(old(self).apps@.subrange(0, 0) =~= Seq::<App>::empty());
        }
        while i < self.apps.len()
            invariant
                i <= self.apps@.len(),
                self.apps@.len() == old(self).apps@.len(),
                forall|a: int, j: int|
                    0 <= a < i && 0 <= j < (#[trigger] self.apps@[a]).processes@.len() ==> !((
                    #[trigger] self.apps@[a].processes@[j]).state matches RunState::Running(_)),
                forall|a: int|
                    i <= a < self.apps@.len() ==> #[trigger] self.apps@[a] == old(self).apps@[a],
                forall|a: int|
                    0 <= a < i ==> #[trigger] self.apps@[a] == (App {
                        processes: self.apps@[a].processes,
                        ..old(self).apps@[a]
                    }),
                signals@ == all_live_pids(old(self).apps@.subrange(0, i as int)),
                self.config == old(self).config,
                self.next_port == old(self).next_port,
            decreases self.apps@.len() - i,
        {
            let mut more = self.apps[i].stop();
            signals.append(&mut more);
            i = i + 1;
            proof {
                assert(old(self).apps@.subrange(0, i as int).drop_last() =~= old(
                    self,
                ).apps@.subrange(0, i - 1));
                assert(old(self).apps@.subrange(0, i as int).last() == old(self).apps@[i - 1]);
            }
        }
        proof {
            assert(old(self).apps@.subrange(0, old(self).apps@.len() as int) =~= old(self).apps@);
        }
        signals
    }

    /// Drop every app record.  The runtime calls this once every process has
    /// reported non-running after `stop_all`.
    pub fn clear_apps(&mut self)
        ensures
            final(self).apps@.len() == 0,
            final(self).next_port == old(self).next_port,
            final(self).config == old(self).config,
    {
        self.apps.clear();
    }

    /// Stop and drop every app whose last hit is older than the idle
    /// threshold; fresh apps stay, in order.  The returned PIDs are exactly
    /// the live PIDs of the dropped apps; each must get SIGINT with the
    /// escalating kill armed.
    pub fn sweep_idle(&mut self, now: u64) -> (signals: Vec<i32>)
        ensures
            final(self).apps@ == drop_idle(
                old(self).apps@,
                now,
                old(self).config.general.idle_timeout_secs,
            ),
            signals@ == idle_live_pids(
                old(self).apps@,
                now,
                old(self).config.general.idle_timeout_secs,
            ),
            final(self).next_port == old(self).next_port,
            final(self).config == old(self).config,
            ports_distinct(old(self).apps@) && bounded_ports(old(self).apps@, old(self).next_port)
                ==> ports_distinct(final(self).apps@) && bounded_ports(
                final(self).apps@,
                final(self).next_port,
            ),
    {
        let timeout = self.config.general.idle_timeout_secs;
        let ghost orig = self.apps@;
        let orig_len: usize = self.apps.len();
        let mut signals: Vec<i32> = Vec::new();
        let mut i: usize = 0;
        let mut removed: usize = 0;
        proof {
            assert(orig.subrange(0, orig.len() as int) =~= orig);
            assert(self.apps@.subrange(0, 0) =~= Seq::<App>::empty());
            assert(Seq::<App>::empty() + drop_idle(orig, now, timeout) =~= drop_idle(
                orig,
                now,
                timeout,
            ));
            assert(Seq::<i32>::empty() + idle_live_pids(orig, now, timeout) =~= idle_live_pids(
                orig,
                now,
                timeout,
            ));
        }
        while i < self.apps.len()
            invariant
                i <= self.apps@.len(),
                orig.len() == orig_len,
                removed <= orig.len(),
                i + removed <= orig.len(),
                self.apps@.len() + removed == orig.len(),
                timeout == old(self).config.general.idle_timeout_secs,
                self.apps@.subrange(i as int, self.apps@.len() as int) == orig.subrange(
                    (i + removed) as int,
                    orig.len() as int,
                ),
                drop_idle(orig, now, timeout) == self.apps@.subrange(0, i as int) + drop_idle(
                    orig.subrange((i + removed) as int, orig.len() as int),
                    now,
                    timeout,
                ),
                idle_live_pids(orig, now, timeout) == signals@ + idle_live_pids(
                    orig.subrange((i + removed) as int, orig.len() as int),
                    now,
                    timeout,
                ),
                self.config == old(self).config,
                self.next_port == old(self).next_port,
            decreases self.apps@.len() - i,
        {
            let ghost pre = self.apps@;
            let ghost tail = orig.subrange((i + removed) as int, orig.len() as int);
            proof {
                assert(pre[i as int] == tail[0]);
                assert(tail.drop_first() =~= orig.subrange(
                    (i + removed + 1) as int,
                    orig.len() as int,
                ));
            }
            let lh = self.apps[i].last_hit();
            if now >= lh && now - lh > timeout {
                let ghost signals_pre = signals@;
                let mut more = self.apps[i].stop();
                signals.append(&mut more);
                let ghost mid = self.apps@;
                self.apps.remove(i);
                removed = removed + 1;
                proof {
                    assert(is_idle(tail[0], now, timeout));
                    assert(idle_live_pids(tail, now, timeout) == app::spec_live_pids(
                        tail[0].processes@,
                    ) + idle_live_pids(tail.drop_first(), now, timeout));
                    assert(signals_pre + (app::spec_live_pids(tail[0].processes@)
                        + idle_live_pids(tail.drop_first(), now, timeout)) =~= signals@
                        + idle_live_pids(tail.drop_first(), now, timeout));
                    assert(self.apps@.subrange(i as int, self.apps@.len() as int) =~= mid.subrange(
                        (i + 1) as int,
                        mid.len() as int,
                    ));
                    assert(mid.subrange((i + 1) as int, mid.len() as int) =~= pre.subrange(
                        (i + 1) as int,
                        pre.len() as int,
                    ));
                    assert(self.apps@.subrange(0, i as int) =~= pre.subrange(0, i as int));
                }
            } else {
                proof {
                    assert(!is_idle(tail[0], now, timeout));
                    assert(seq![tail[0]] + drop_idle(tail.drop_first(), now, timeout) == drop_idle(
                        tail,
                        now,
                        timeout,
                    ));
                    assert(pre.subrange(0, (i + 1) as int) =~= pre.subrange(0, i as int) + seq![
                        pre[i as int],
                    ]);
                    assert(pre.subrange(0, i as int) + seq![tail[0]] + drop_idle(
                        tail.drop_first(),
                        now,
                        timeout,
                    ) =~= pre.subrange(0, (i + 1) as int) + drop_idle(
                        tail.drop_first(),
                        now,
                        timeout,
                    ));
                }
                i = i + 1;
            }
        }
        proof {
            assert(self.apps@.subrange(0, i as int) =~= self.apps@);
            assert(orig.subrange((i + removed) as int, orig.len() as int).len() == 0);
            assert(drop_idle(orig, now, old(self).config.general.idle_timeout_secs)
                =~= self.apps@);
            assert(idle_live_pids(orig, now, old(self).config.general.idle_timeout_secs)
                =~= signals@);
            if ports_distinct(orig) && bounded_ports(orig, old(self).next_port) {
                lemma_drop_idle_keeps_ports(orig, now, timeout, old(self).next_port);
            }
        }
        signals
    }
}

/// Registering an app under a fresh name makes it findable under that name:
/// the lookup lands exactly on the record that was appended.
pub proof fn lemma_find_after_add(apps: Seq<App>, a: App)
    requires
        forall|j: int| 0 <= j < apps.len() ==> (#[trigger] apps[j]).name@ != a.name@,
    ensures
        first_named(apps.push(a), a.name@) == apps.len(),
        apps.push(a)[first_named(apps.push(a), a.name@)] == a,
{
    assert forall|j: int| 0 <= j < apps.len() implies (#[trigger] apps.push(a)[j]).name@
        != a.name@ by {
        assert(apps.push(a)[j] == apps[j]);
    }
    lemma_first_named_is(apps.push(a), a.name@, apps.len() as int);
}

/// A port allocation below the cursor keeps all ports pairwise distinct:
/// appending an app whose port no one holds preserves distinctness, and the
/// freshly allocated cursor port is held by no one.
pub proof fn lemma_add_app_ports_distinct(apps: Seq<App>, a: App, next_port: u16)
    requires
        ports_distinct(apps),
        bounded_ports(apps, next_port),
        a.port >= next_port,
    ensures
        ports_distinct(apps.push(a)),
        bounded_ports(apps.push(a), (a.port + 1) as u16) || a.port == u16::MAX,
{
    let s = apps.push(a);
    assert forall|i: int, j: int| 0 <= i < j < s.len() implies (#[trigger] s[i]).port != (
    #[trigger] s[j]).port by {
        if j < apps.len() {
            assert(s[i] == apps[i] && s[j] == apps[j]);
        } else {
            assert(s[j] == a && s[i] == apps[i]);
        }
    }
    if a.port < u16::MAX {
        assert forall|i: int| 0 <= i < s.len() implies (#[trigger] s[i]).port < a.port + 1 by {
            if i < apps.len() {
                assert(s[i] == apps[i]);
            }
        }
    }
}

/// The monotone allocator never re-issues a released port: any port that was
/// in use stays below the cursor, and the next automatic allocation is the
/// cursor itself.
pub proof fn lemma_removed_port_not_reused(p: u16, next_port: u16)
    requires
        p < next_port,
    ensures
        p != next_port,
{
}

/// Shutting down stops everything: a stop request leaves no process
/// `Running`, and once its exit is then observed the process is `Stopped`.
pub proof fn lemma_shutdown_stops_every_process(s: RunState)
    ensures
        !(process::step(s, ProcessEvent::StopRequest) matches RunState::Running(_)),
        process::step(
            process::step(s, ProcessEvent::StopRequest),
            ProcessEvent::Exit,
        ) == RunState::Stopped,
{
}

} // verus!
