//! Per-process lifecycle state machine.
//!
//! A `Process` owns one supervised shell command.  The runtime around the
//! library launches tmux sessions, watches PIDs and delivers signals; every
//! decision about what to do next is taken here, as a function of the
//! recorded state and the event that happened.

use vstd::prelude::*;
use vstd::string::*;

use crate::config;
use crate::text;

verus! {

/// Lifecycle of one supervised process.  A PID is only held in the three
/// live states.
#[derive(Clone, Copy, Debug, PartialEq, Eq, Structural)]
pub enum RunState {
    /// No live child.
    Stopped,
    /// Start request received, but PID not yet known.
    Starting,
    /// Child alive with a known PID.
    Running(i32),
    /// SIGINT sent, waiting for the exit to be observed.
    Terminating(i32),
    /// Same as `Terminating`, but a fresh start is queued for afterwards.
    Restarting(i32),
}

/// The events the runtime can deliver to a process record.
pub enum ProcessEvent {
    StartRequest,
    PidLearned(u32),
    StartFailure,
    StopRequest,
    RestartRequest,
    Exit,
}

/// What the runtime must do after a state change.
#[derive(Clone, Copy, Debug, PartialEq, Eq, Structural)]
pub enum StopOutcome {
    /// Request arrived in a state with no live child: nothing to do.
    Ignored,
    /// Send SIGINT to the process group and arm the escalating kill.
    SignalInt(i32),
}

#[derive(Clone, Copy, Debug, PartialEq, Eq, Structural)]
pub enum RestartOutcome {
    /// Request arrived while starting or already restarting: nothing to do.
    Ignored,
    /// The process was stopped: launch it.
    StartNow,
    /// Send SIGINT to the process group and arm the escalating kill.
    SignalInt(i32),
}

impl RunState {
    /// PID recorded in the state, if any.
    pub open spec fn spec_pid(self) -> Option<i32> {
        match self {
            RunState::Running(p) => Some(p),
            RunState::Terminating(p) => Some(p),
            RunState::Restarting(p) => Some(p),
            _ => None,
        }
    }
}

/// The transition function: every state change of a process follows it.
pub open spec fn step(s: RunState, e: ProcessEvent) -> RunState {
    match e {
        ProcessEvent::StartRequest => if s == RunState::Stopped {
            RunState::Starting
        } else {
            s
        },
        ProcessEvent::PidLearned(pid) => if s == RunState::Starting {
            RunState::Running(pid as i32)
        } else {
            s
        },
        ProcessEvent::StartFailure => RunState::Stopped,
        ProcessEvent::StopRequest => match s {
            RunState::Running(p) => RunState::Terminating(p),
            RunState::Terminating(p) => RunState::Terminating(p),
            RunState::Restarting(p) => RunState::Terminating(p),
            _ => s,
        },
        ProcessEvent::RestartRequest => match s {
            RunState::Stopped => RunState::Starting,
            RunState::Running(p) => RunState::Restarting(p),
            RunState::Terminating(p) => RunState::Restarting(p),
            _ => s,
        },
        ProcessEvent::Exit => match s {
            RunState::Restarting(_) => RunState::Starting,
            _ => RunState::Stopped,
        },
    }
}

/// State after a whole sequence of events.
pub open spec fn run_events(s: RunState, events: Seq<ProcessEvent>) -> RunState
    decreases events.len(),
{
    if events.len() == 0 {
        s
    } else {
        step(run_events(s, events.drop_last()), events.last())
    }
}

/// Transitions of one process form a single linear history: the state after
/// any sequence of events is a function of the initial state and that
/// sequence alone, and each new event acts on the state the previous ones
/// produced.  The per-process lock serializes the events; this law says the
/// serialized order fully determines what every observer sees.
pub proof fn lemma_transitions_linear(s: RunState, events: Seq<ProcessEvent>, e: ProcessEvent)
    ensures
        run_events(s, events.push(e)) == step(run_events(s, events), e),
{
    assert(events.push(e).drop_last() =~= events);
}

/// One supervised shell command and its recorded state.
#[derive(Clone, Debug)]
pub struct Process {
    pub app_name: String,
    pub process_name: String,
    pub port: u16,
    pub command: String,
    pub directory: String,
    pub state: RunState,
}

/// Is every `$` in the path followed by an ASCII character (or nothing)?
/// `shellexpand::full` slices the text two bytes past a `$` that starts a
/// variable name, so a multi-byte character right after a `$` makes the
/// call panic; such paths are left unexpanded.
pub open spec fn dollar_ascii(s: Seq<char>) -> bool {
    forall|i: int| 0 <= i && i + 1 < s.len() && s[i] == '$' ==> ((#[trigger] s[i + 1]) as u32)
        < 0x80
}

fn dollar_ascii_check(path: &str) -> (r: bool)
    ensures
        r == dollar_ascii(path@),
{
    let v = text::chars_of(path);
    let mut i: usize = 1;
    while i < v.len()
        invariant
            v@ == path@,
            i >= 1,
            forall|j: int|
                0 <= j && j + 1 < i && v@[j] == '$' ==> ((#[trigger] v@[j + 1]) as u32) < 0x80,
        decreases v@.len() - i,
    {
        if v[i - 1] == '$' && (v[i] as u32) >= 0x80 {
            proof {
                assert(path@[i - 1] == '$');
                assert(((path@[(i - 1) + 1]) as u32) >= 0x80);
            }
            return false;
        }
        i = i + 1;
    }
    true
}

/// Relies on `shellexpand::full`: expands `~` and `$VAR` in a path using the
/// process environment, and returns the input unchanged when it holds
/// neither a leading tilde nor a dollar sign; on a lookup error the input is
/// returned as it came.  The precondition keeps out the inputs on which the
/// call's byte-indexed slicing panics: a `$` followed by a character outside
/// ASCII.
#[verifier::external_body]
fn expand_path_raw(input_path: &str) -> (r: String)
    requires
        dollar_ascii(input_path@),
    ensures
        !text::contains_char(input_path@, '$') && !(input_path@.len() > 0 && input_path@[0]
            == '~') ==> r@ == input_path@,
{
    match shellexpand::full(input_path) {
        Ok(expanded_path) => expanded_path.to_string(),
        Err(_) => input_path.to_string(),
    }
}

/// Expand `~` and `$VAR` in a path; a path the expander cannot take safely
/// comes back unchanged.
pub(crate) fn expand_path(input_path: &str) -> (r: String)
    ensures
        !text::contains_char(input_path@, '$') && !(input_path@.len() > 0 && input_path@[0]
            == '~') ==> r@ == input_path@,
{
    if dollar_ascii_check(input_path) {
        expand_path_raw(input_path)
    } else {
        String::from_str(input_path)
    }
}

impl Process {
    /// Build the record for one labelled command of an app.
    pub fn from_config(
        app_config: &config::App,
        process_name: String,
        command: String,
        port: u16,
    ) -> (r: Process)
        ensures
            r.app_name@ == app_config.name@,
            r.process_name@ == process_name@,
            r.port == port,
            r.command@ == command@,
            r.state == RunState::Stopped,
            !text::contains_char(app_config.directory@, '$') && !(app_config.directory@.len() > 0
                && app_config.directory@[0] == '~') ==> r.directory@ == app_config.directory@,
    {
        Process {
            app_name: app_config.name.clone(),
            process_name,
            port,
            command,
            directory: expand_path(app_config.directory.as_str()),
            state: RunState::Stopped,
        }
    }

    pub fn app_name(&self) -> (r: String)
        ensures
            r@ == self.app_name@,
    {
        self.app_name.clone()
    }

    pub fn process_name(&self) -> (r: String)
        ensures
            r@ == self.process_name@,
    {
        self.process_name.clone()
    }

    pub fn port(&self) -> (r: u16)
        ensures
            r == self.port,
    {
        self.port
    }

    pub fn directory(&self) -> (r: String)
        ensures
            r@ == self.directory@,
    {
        self.directory.clone()
    }

    pub open spec fn spec_name(self) -> Seq<char> {
        self.app_name@ + "/"@ + self.process_name@
    }

    /// Qualified name, also the tmux session the process runs in.
    pub fn name(&self) -> (r: String)
        ensures
            r@ == self.spec_name(),
    {
        let mut v = text::chars_of(self.app_name.as_str());
        v.push('/');
        let ghost mid = v@;
        text::append_str(&mut v, self.process_name.as_str());
        proof {
            assert(mid =~= self.app_name@ + "/"@) by {
                reveal_strlit("/");
            }
        }
        text::string_of(&v)
    }

    pub fn tmux_session(&self) -> (r: String)
        ensures
            r@ == self.spec_name(),
    {
        self.name()
    }

    pub fn run_state(&self) -> (r: RunState)
        ensures
            r == self.state,
    {
        self.state
    }

    pub fn is_running(&self) -> (r: bool)
        ensures
            r == (self.state matches RunState::Running(_)),
    {
        match self.state {
            RunState::Running(_) => true,
            _ => false,
        }
    }

    pub fn pid(&self) -> (r: Option<i32>)
        ensures
            r == self.state.spec_pid(),
    {
        match self.state {
            RunState::Running(p) => Some(p),
            RunState::Terminating(p) => Some(p),
            RunState::Restarting(p) => Some(p),
            _ => None,
        }
    }

    /// Accept a start request.  Only a stopped process may start; any other
    /// state is left untouched and the caller gets the diagnostic.
    pub fn start(&mut self) -> (r: Result<(), String>)
        ensures
            final(self).state == step(old(self).state, ProcessEvent::StartRequest),
            *final(self) == (Process { state: final(self).state, ..*old(self) }),
            (r is Ok) <==> old(self).state == RunState::Stopped,
            (match r {
                Err(m) => m@ == "Ignoring start request - process is not stopped"@,
                Ok(_) => true,
            }),
    {
        match self.state {
            RunState::Stopped => {
                self.state = RunState::Starting;
                Ok(())
            },
            _ => Err(String::from_str("Ignoring start request - process is not stopped")),
        }
    }

    /// Record the PID the multiplexer reported: a starting process is now
    /// running.  In any other state the report is stale and is ignored, so a
    /// late PID cannot resurrect a stopped record.
    pub fn set_pid(&mut self, pid: u32)
        ensures
            final(self).state == step(old(self).state, ProcessEvent::PidLearned(pid)),
            *final(self) == (Process { state: final(self).state, ..*old(self) }),
    {
        match self.state {
            RunState::Starting => {
                self.state = RunState::Running(pid as i32);
            },
            _ => (),
        }
    }

    /// A launch attempt failed: fall back to stopped.
    pub fn start_failed(&mut self)
        ensures
            final(self).state == step(old(self).state, ProcessEvent::StartFailure),
            *final(self) == (Process { state: final(self).state, ..*old(self) }),
    {
        self.state = RunState::Stopped;
    }

    /// Accept a stop request.  Live states move to `Terminating` and the
    /// caller must signal the process group; otherwise nothing happens.
    pub fn stop(&mut self) -> (r: StopOutcome)
        ensures
            final(self).state == step(old(self).state, ProcessEvent::StopRequest),
            *final(self) == (Process { state: final(self).state, ..*old(self) }),
            r == (match old(self).state.spec_pid() {
                Some(p) => StopOutcome::SignalInt(p),
                None => StopOutcome::Ignored,
            }),
    {
        match self.state {
            RunState::Running(pid) => {
                self.state = RunState::Terminating(pid);
                StopOutcome::SignalInt(pid)
            },
            RunState::Terminating(pid) => {
                self.state = RunState::Terminating(pid);
                StopOutcome::SignalInt(pid)
            },
            RunState::Restarting(pid) => {
                self.state = RunState::Terminating(pid);
                StopOutcome::SignalInt(pid)
            },
            _ => StopOutcome::Ignored,
        }
    }

    /// Accept a restart request.
    pub fn restart(&mut self) -> (r: RestartOutcome)
        ensures
            final(self).state == step(old(self).state, ProcessEvent::RestartRequest),
            *final(self) == (Process { state: final(self).state, ..*old(self) }),
            r == (match old(self).state {
                RunState::Stopped => RestartOutcome::StartNow,
                RunState::Running(p) => RestartOutcome::SignalInt(p),
                RunState::Terminating(p) => RestartOutcome::SignalInt(p),
                _ => RestartOutcome::Ignored,
            }),
    {
        match self.state {
            RunState::Stopped => {
                self.state = RunState::Starting;
                RestartOutcome::StartNow
            },
            RunState::Running(pid) => {
                self.state = RunState::Restarting(pid);
                RestartOutcome::SignalInt(pid)
            },
            RunState::Terminating(pid) => {
                self.state = RunState::Restarting(pid);
                RestartOutcome::SignalInt(pid)
            },
            _ => RestartOutcome::Ignored,
        }
    }

    /// The child is gone.  A queued restart turns into a fresh start, which
    /// the caller must launch when `true` comes back.
    pub fn process_died(&mut self) -> (restart: bool)
        ensures
            final(self).state == step(old(self).state, ProcessEvent::Exit),
            *final(self) == (Process { state: final(self).state, ..*old(self) }),
            restart == (old(self).state matches RunState::Restarting(_)),
    {
        match self.state {
            RunState::Restarting(_) => {
                self.state = RunState::Starting;
                true
            },
            _ => {
                self.state = RunState::Stopped;
                false
            },
        }
    }

    /// The shell invocation handed to tmux: a login-interactive shell that
    /// changes into the working directory, exports the port, and execs the
    /// command.
    pub open spec fn spec_full_command(self) -> Seq<char> {
        "exec bash -c 'cd "@ + self.directory@ + "; export PORT="@ + text::dec_str(
            self.port as nat,
        ) + "; "@ + self.command@ + "'"@
    }

    /// Argument vector for launching the process, given the user's shell.
    pub fn shell_args(&self, shell: String) -> (r: Vec<String>)
        ensures
            r@.len() == 5,
            r@[0]@ == shell@,
            r@[1]@ == "-l"@,
            r@[2]@ == "-i"@,
            r@[3]@ == "-c"@,
            r@[4]@ == self.spec_full_command(),
    {
        let mut full: Vec<char> = Vec::new();
        text::append_str(&mut full, "exec bash -c 'cd ");
        text::append_str(&mut full, self.directory.as_str());
        text::append_str(&mut full, "; export PORT=");
        text::append_dec_u64(&mut full, self.port as u64);
        text::append_str(&mut full, "; ");
        text::append_str(&mut full, self.command.as_str());
        text::append_str(&mut full, "'");
        let mut r: Vec<String> = Vec::new();
        r.push(shell);
        r.push(String::from_str("-l"));
        r.push(String::from_str("-i"));
        r.push(String::from_str("-c"));
        r.push(text::string_of(&full));
        r
    }
}

impl RunState {
    /// The state as printed on the status page.
    pub open spec fn spec_describe(self) -> Seq<char> {
        match self {
            RunState::Stopped => "Stopped"@,
            RunState::Starting => "Starting"@,
            RunState::Running(p) => "Running("@ + text::int_str(p as int) + ")"@,
            RunState::Terminating(p) => "Terminating("@ + text::int_str(p as int) + ")"@,
            RunState::Restarting(p) => "Restarting("@ + text::int_str(p as int) + ")"@,
        }
    }

    pub fn describe(&self) -> (r: String)
        ensures
            r@ == self.spec_describe(),
    {
        match self {
            RunState::Stopped => String::from_str("Stopped"),
            RunState::Starting => String::from_str("Starting"),
            RunState::Running(p) => {
                let mut v = text::chars_of("Running(");
                text::append_dec_i32(&mut v, *p);
                v.push(')');
                proof {
                    assert(v@ =~= "Running("@ + text::int_str(*p as int) + ")"@) by {
                        reveal_strlit(")");
                    }
                }
                text::string_of(&v)
            },
            RunState::Terminating(p) => {
                let mut v = text::chars_of("Terminating(");
                text::append_dec_i32(&mut v, *p);
                v.push(')');
                proof {
                    assert(v@ =~= "Terminating("@ + text::int_str(*p as int) + ")"@) by {
                        reveal_strlit(")");
                    }
                }
                text::string_of(&v)
            },
            RunState::Restarting(p) => {
                let mut v = text::chars_of("Restarting(");
                text::append_dec_i32(&mut v, *p);
                v.push(')');
                proof {
                    assert(v@ =~= "Restarting("@ + text::int_str(*p as int) + ")"@) by {
                        reveal_strlit(")");
                    }
                }
                text::string_of(&v)
            },
        }
    }
}

/// The escalating kill decision: when the grace period has elapsed, SIGKILL
/// is sent exactly when the process is still winding down under the same PID
/// the killer was armed with.
pub fn kill_timeout_check(state: &RunState, armed_pid: i32) -> (kill: bool)
    ensures
        kill <==> (state.spec_pid() == Some(armed_pid) && !(state matches RunState::Running(_))),
{
    match state {
        RunState::Terminating(p) => *p == armed_pid,
        RunState::Restarting(p) => *p == armed_pid,
        _ => false,
    }
}

/// Signals go to the process group: the negated PID.
pub fn negate_pid(pid: i32) -> (r: i32)
    requires
        pid != i32::MIN,
    ensures
        r == -pid,
{
    -pid
}

} // verus!
