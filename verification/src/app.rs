//! A running app: one record per hostname, owning its processes.

use vstd::prelude::*;
use vstd::string::*;

use crate::config;
use crate::process::{Process, ProcessEvent, RunState, StopOutcome};
use crate::process;
use crate::text;

verus! {

/// The label that marks an app's primary process.
pub open spec fn default_process_label() -> Seq<char> {
    "web"@
}

/// One registered app and its supervised processes.
#[derive(Clone, Debug)]
pub struct App {
    /// App name; the primary hostname label and unique identifier.
    pub name: String,
    /// Port the app's server binds to.
    pub port: u16,
    /// Expanded working directory.
    pub directory: String,
    pub command_config: config::CommandConfig,
    /// Headers merged over proxied requests.
    pub headers: Vec<(String, String)>,
    /// The app's processes, in configuration order.
    pub processes: Vec<Process>,
    /// Domain suffix used for display.
    pub tld: String,
    /// Alternate hostname labels.
    pub aliases: Vec<String>,
    /// The last time a request touched the app, in seconds on the server's
    /// monotonic clock.
    pub last_hit: u64,
}

/// PIDs of the processes that were live in `ps`, in order.
pub open spec fn spec_live_pids(ps: Seq<Process>) -> Seq<i32>
    decreases ps.len(),
{
    if ps.len() == 0 {
        Seq::empty()
    } else {
        spec_live_pids(ps.drop_last()) + (match ps.last().state.spec_pid() {
            Some(p) => seq![p],
            None => Seq::<i32>::empty(),
        })
    }
}

impl App {
    /// Build the record for one configured app.  The caller supplies the
    /// allocated port, the display suffix, the Procfile text where the
    /// configuration asks for one, and the clock reading for the first hit.
    pub fn from_config(
        app_config: &config::App,
        auto_port: u16,
        tld: String,
        procfile_text: Option<&str>,
        now: u64,
    ) -> (r: App)
        ensures
            r.name@ == app_config.name@,
            r.port == (match app_config.port {
                Some(p) => p,
                None => auto_port,
            }),
            r.tld@ == tld@,
            r.headers.deep_view() == app_config.headers.deep_view(),
            r.aliases.deep_view() == app_config.aliases.deep_view(),
            r.last_hit == now,
            r.processes@.len() == config::spec_commands(
                app_config.command_config,
                config::view_opt_str(procfile_text),
            ).len(),
            forall|i: int|
                0 <= i < r.processes@.len() ==> {
                    let entry = config::spec_commands(
                        app_config.command_config,
                        config::view_opt_str(procfile_text),
                    )[i];
                    (#[trigger] r.processes@[i]).process_name@ == entry.0
                        && r.processes@[i].command@ == entry.1 && r.processes@[i].port == r.port
                        && r.processes@[i].app_name@ == app_config.name@
                        && r.processes@[i].state == RunState::Stopped
                },
    {
        let port = match app_config.port {
            Some(p) => p,
            None => auto_port,
        };
        let commands = app_config.commands(procfile_text);
        let ghost entries = config::spec_commands(
            app_config.command_config,
            config::view_opt_str(procfile_text),
        );
        let mut processes: Vec<Process> = Vec::new();
        let mut i: usize = 0;
        while i < commands.len()
            invariant
                i <= commands@.len(),
                commands.deep_view() == entries,
                commands@.len() == entries.len(),
                processes@.len() == i,
                forall|j: int|
                    0 <= j < i ==> (#[trigger] processes@[j]).process_name@ == entries[j].0
                        && processes@[j].command@ == entries[j].1 && processes@[j].port == port
                        && processes@[j].app_name@ == app_config.name@ && processes@[j].state
                        == RunState::Stopped,
            decreases commands@.len() - i,
        {
            let entry = &commands[i];
            proof {
                assert(commands.deep_view()[i as int] == (commands@[i as int].0@, commands@[
                    i as int
                ].1@));
            }
            processes.push(
                Process::from_config(app_config, entry.0.clone(), entry.1.clone(), port),
            );
            i = i + 1;
        }
        App {
            name: app_config.name.clone(),
            port,
            directory: app_config.full_path(),
            command_config: app_config.command_config.clone(),
            headers: config::clone_pairs(&app_config.headers),
            processes,
            tld,
            aliases: app_config.aliases_clone(),
            last_hit: now,
        }
    }

    pub fn directory(&self) -> (r: &str)
        ensures
            r@ == self.directory@,
    {
        self.directory.as_str()
    }

    pub fn name(&self) -> (r: &str)
        ensures
            r@ == self.name@,
    {
        self.name.as_str()
    }

    pub fn port(&self) -> (r: u16)
        ensures
            r == self.port,
    {
        self.port
    }

    pub fn tld(&self) -> (r: &str)
        ensures
            r@ == self.tld@,
    {
        self.tld.as_str()
    }

    pub fn headers(&self) -> (r: &Vec<(String, String)>)
        ensures
            r == self.headers,
    {
        &self.headers
    }

    /// Every hostname label this app answers to: its name, then its aliases.
    pub open spec fn spec_domains(self) -> Seq<Seq<char>> {
        seq![self.name@] + self.aliases.deep_view()
    }

    pub fn domains(&self) -> (r: Vec<String>)
        ensures
            r.deep_view() == self.spec_domains(),
    {
        let mut r: Vec<String> = Vec::new();
        r.push(self.name.clone());
        let mut i: usize = 0;
        while i < self.aliases.len()
            invariant
                i <= self.aliases@.len(),
                r@.len() == i + 1,
                r@[0]@ == self.name@,
                forall|j: int| 1 <= j < i + 1 ==> r@[j] == self.aliases@[j - 1],
            decreases self.aliases@.len() - i,
        {
            r.push(self.aliases[i].clone());
            i = i + 1;
        }
        proof {
            assert forall|j: int|
                0 <= j < r.deep_view().len() implies r.deep_view()[j] == self.spec_domains()[j] by {
                assert(r.deep_view()[j] == r@[j].deep_view());
                if j > 0 {
                    assert(self.aliases.deep_view()[j - 1] == self.aliases@[j - 1].deep_view());
                }
            }
            assert(r.deep_view() =~~= self.spec_domains());
        }
        r
    }

    /// Ask every process to start.  The runtime launches whichever moved to
    /// `Starting`.
    pub fn start(&mut self)
        ensures
            final(self).processes@.len() == old(self).processes@.len(),
            forall|i: int|
                0 <= i < old(self).processes@.len() ==> #[trigger] final(self).processes@[i] == (
                Process {
                    state: process::step(
                        old(self).processes@[i].state,
                        ProcessEvent::StartRequest,
                    ),
                    ..old(self).processes@[i]
                }),
            *final(self) == (App { processes: final(self).processes, ..*old(self) }),
    {
        let mut i: usize = 0;
        while i < self.processes.len()
            invariant
                i <= self.processes@.len(),
                self.processes@.len() == old(self).processes@.len(),
                forall|j: int|
                    i <= j < self.processes@.len() ==> #[trigger] self.processes@[j] == old(
                        self,
                    ).processes@[j],
                forall|j: int|
                    0 <= j < i ==> #[trigger] self.processes@[j] == (Process {
                        state: process::step(
                            old(self).processes@[j].state,
                            ProcessEvent::StartRequest,
                        ),
                        ..old(self).processes@[j]
                    }),
                *self == (App { processes: self.processes, ..*old(self) }),
            decreases self.processes@.len() - i,
        {
            let outcome = self.processes[i].start();
            i = i + 1;
        }
    }

    /// Ask every process to stop; the returned PIDs must each get SIGINT at
    /// the process-group level, with the escalating kill armed.
    pub fn stop(&mut self) -> (signals: Vec<i32>)
        ensures
            final(self).processes@.len() == old(self).processes@.len(),
            forall|i: int|
                0 <= i < old(self).processes@.len() ==> #[trigger] final(self).processes@[i] == (
                Process {
                    state: process::step(old(self).processes@[i].state, ProcessEvent::StopRequest),
                    ..old(self).processes@[i]
                }),
            *final(self) == (App { processes: final(self).processes, ..*old(self) }),
            signals@ == spec_live_pids(old(self).processes@),
    {
        let mut signals: Vec<i32> = Vec::new();
        let mut i: usize = 0;
        proof {
            assert(old(self).processes@.subrange(0, 0) =~= Seq::<Process>::empty());
        }
        while i < self.processes.len()
            invariant
                i <= self.processes@.len(),
                self.processes@.len() == old(self).processes@.len(),
                forall|j: int|
                    i <= j < self.processes@.len() ==> #[trigger] self.processes@[j] == old(
                        self,
                    ).processes@[j],
                forall|j: int|
                    0 <= j < i ==> #[trigger] self.processes@[j] == (Process {
                        state: process::step(
                            old(self).processes@[j].state,
                            ProcessEvent::StopRequest,
                        ),
                        ..old(self).processes@[j]
                    }),
                *self == (App { processes: self.processes, ..*old(self) }),
                signals@ == spec_live_pids(old(self).processes@.subrange(0, i as int)),
            decreases self.processes@.len() - i,
        {
            let outcome = self.processes[i].stop();
            match outcome {
                StopOutcome::SignalInt(pid) => signals.push(pid),
                StopOutcome::Ignored => (),
            }
            i = i + 1;
            proof {
                assert(old(self).processes@.subrange(0, i as int).drop_last() =~= old(
                    self,
                ).processes@.subrange(0, i - 1));
            }
        }
        proof {
            assert(old(self).processes@.subrange(0, old(self).processes@.len() as int) =~= old(
                self,
            ).processes@);
        }
        signals
    }

    /// Is any process of the app running?
    pub open spec fn spec_is_running(self) -> bool {
        exists|i: int|
            0 <= i < self.processes@.len() && (#[trigger] self.processes@[i].state) matches
                RunState::Running(_)
    }

    pub fn is_running(&self) -> (r: bool)
        ensures
            r == self.spec_is_running(),
    {
        let mut i: usize = 0;
        while i < self.processes.len()
            invariant
                i <= self.processes@.len(),
                forall|j: int|
                    0 <= j < i ==> !((#[trigger] self.processes@[j].state) matches
                        RunState::Running(_)),
            decreases self.processes@.len() - i,
        {
            if self.processes[i].is_running() {
                return true;
            }
            i = i + 1;
        }
        false
    }

    /// The first process carrying this label, exactly as `find_process_index`
    /// selects it.
    pub fn find_process(&self, name: &str) -> (r: Option<&Process>)
        ensures
            (match r {
                Some(p) => first_proc_named(self.processes@, name@) < self.processes@.len() && *p
                    == self.processes@[first_proc_named(self.processes@, name@)],
                None => first_proc_named(self.processes@, name@) == self.processes@.len(),
            }),
    {
        match self.find_process_index(name) {
            Some(i) => Some(&self.processes[i]),
            None => None,
        }
    }

    /// The process labelled `web` if one exists, else the first; `None`
    /// exactly when the app has no processes.
    pub fn default_process(&self) -> (r: Option<&Process>)
        ensures
            (match r {
                Some(p) => self.processes@.len() > 0 && *p == self.processes@[
                    if first_proc_named(self.processes@, default_process_label())
                        < self.processes@.len() {
                        first_proc_named(self.processes@, default_process_label())
                    } else {
                        0
                    }
                ],
                None => self.processes@.len() == 0,
            }),
    {
        match self.default_process_index() {
            Some(i) => Some(&self.processes[i]),
            None => None,
        }
    }

    pub fn last_hit(&self) -> (r: u64)
        ensures
            r == self.last_hit,
    {
        self.last_hit
    }

    /// Record a hit.  The stamp never moves backwards, whatever clock
    /// reading comes in.
    pub fn touch(&mut self, now: u64)
        ensures
            final(self).last_hit >= old(self).last_hit,
            final(self).last_hit >= now,
            final(self).last_hit == (if now > old(self).last_hit {
                now
            } else {
                old(self).last_hit
            }),
            *final(self) == (App { last_hit: final(self).last_hit, ..*old(self) }),
    {
        if now > self.last_hit {
            self.last_hit = now;
        }
    }
}


/// Index of the first process carrying this label, or the length.
pub open spec fn first_proc_named(ps: Seq<Process>, name: Seq<char>) -> int
    decreases ps.len(),
{
    if ps.len() == 0 {
        0
    } else if ps[0].process_name@ == name {
        0
    } else {
        1 + first_proc_named(ps.drop_first(), name)
    }
}

pub proof fn lemma_first_proc_named_is(ps: Seq<Process>, name: Seq<char>, k: int)
    requires
        0 <= k <= ps.len(),
        forall|j: int| 0 <= j < k ==> (#[trigger] ps[j]).process_name@ != name,
        k < ps.len() ==> ps[k].process_name@ == name,
    ensures
        first_proc_named(ps, name) == k,
    decreases k,
{
    if ps.len() == 0 {
    } else if ps[0].process_name@ == name {
        assert(k == 0);
    } else {
        assert(k > 0);
        lemma_first_proc_named_is(ps.drop_first(), name, k - 1);
    }
}

impl App {
    /// Index form of `find_process`.
    pub fn find_process_index(&self, name: &str) -> (r: Option<usize>)
        ensures
            (match r {
                Some(i) => i == first_proc_named(self.processes@, name@) && i
                    < self.processes@.len(),
                None => first_proc_named(self.processes@, name@) == self.processes@.len(),
            }),
    {
        let mut i: usize = 0;
        while i < self.processes.len()
            invariant
                i <= self.processes@.len(),
                forall|j: int|
                    0 <= j < i ==> (#[trigger] self.processes@[j]).process_name@ != name@,
            decreases self.processes@.len() - i,
        {
            if text::str_eq(self.processes[i].process_name.as_str(), name) {
                proof {
                    lemma_first_proc_named_is(self.processes@, name@, i as int);
                }
                return Some(i);
            }
            i = i + 1;
        }
        proof {
            lemma_first_proc_named_is(self.processes@, name@, self.processes@.len() as int);
        }
        None
    }

    /// Index of the default process: the one labelled `web`, else the first.
    pub fn default_process_index(&self) -> (r: Option<usize>)
        ensures
            (match r {
                Some(i) => i < self.processes@.len() && (if first_proc_named(
                    self.processes@,
                    default_process_label(),
                ) < self.processes@.len() {
                    i == first_proc_named(self.processes@, default_process_label())
                } else {
                    i == 0
                }),
                None => self.processes@.len() == 0,
            }),
    {
        match self.find_process_index("web") {
            Some(i) => Some(i),
            None => {
                if self.processes.len() > 0 {
                    Some(0)
                } else {
                    None
                }
            },
        }
    }
}

} // verus!
