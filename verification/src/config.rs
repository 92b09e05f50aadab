//! Server and per-app configuration records.
//!
//! Reading the TOML files from disk is the loader's job outside the verified
//! core; these types carry the values it produces.

use vstd::prelude::*;
use vstd::string::*;

use crate::procfile;
use crate::process;
use crate::text;

verus! {

pub fn default_proxy_port() -> (r: u16)
    ensures
        r == 0,
{
    0
}

pub fn default_dns_port() -> (r: u16)
    ensures
        r == 6153,
{
    6153
}

pub fn default_domain() -> (r: String)
    ensures
        r@ == "test"@,
{
    String::from_str("test")
}

pub fn default_idle_timeout_secs() -> (r: u64)
    ensures
        r == 3600,
{
    3600
}

/// Global settings of the proxy server.
#[derive(Clone, Debug)]
pub struct ProxyConfig {
    /// Port the HTTP front-end listens on; 0 asks for an ephemeral port.
    pub proxy_port: u16,
    /// Port of the companion DNS responder.
    pub dns_port: u16,
    /// Top-level domain the apps are served under.
    pub domain: String,
    /// Directory holding app configuration, the control socket and FIFOs.
    /// The loader outside the core resolves it; empty until then.
    pub config_dir: String,
    /// Apps idle for longer than this many seconds are stopped.
    pub idle_timeout_secs: u64,
}

impl Default for ProxyConfig {
    fn default() -> (r: ProxyConfig)
        ensures
            r.proxy_port == 0,
            r.dns_port == 6153,
            r.domain@ == "test"@,
            r.config_dir@ == Seq::<char>::empty(),
            r.idle_timeout_secs == 3600,
    {
        ProxyConfig {
            proxy_port: 0,
            dns_port: default_dns_port(),
            domain: default_domain(),
            config_dir: String::new(),
            idle_timeout_secs: default_idle_timeout_secs(),
        }
    }
}

/// Whole configuration handed to the server.
#[derive(Clone, Debug)]
pub struct Config {
    pub general: ProxyConfig,
}

impl Default for Config {
    fn default() -> (r: Config)
        ensures
            r.general.proxy_port == 0,
            r.general.dns_port == 6153,
            r.general.domain@ == "test"@,
            r.general.config_dir@ == Seq::<char>::empty(),
            r.general.idle_timeout_secs == 3600,
    {
        Config { general: ProxyConfig::default() }
    }
}

/// How an app's processes are specified.
#[derive(Clone, Debug)]
pub enum CommandConfig {
    /// One shell command, labelled `app`.
    Command(String),
    /// Explicit labelled commands.
    Commands(Vec<(String, String)>),
    /// Read the labelled commands from the app's Procfile.
    Procfile,
}

impl Default for CommandConfig {
    fn default() -> (r: CommandConfig)
        ensures
            (r matches CommandConfig::Procfile),
    {
        CommandConfig::Procfile
    }
}

pub open spec fn view_opt_str(o: Option<&str>) -> Option<Seq<char>> {
    match o {
        Some(s) => Some(s@),
        None => None,
    }
}

/// The labelled commands a command configuration describes, given the text
/// of the app's Procfile where one was found.
pub open spec fn spec_commands(c: CommandConfig, procfile: Option<Seq<char>>) -> Seq<
    (Seq<char>, Seq<char>),
> {
    match c {
        CommandConfig::Command(s) => seq![("app"@, s@)],
        CommandConfig::Commands(m) => m.deep_view(),
        CommandConfig::Procfile => match procfile {
            Some(t) => procfile::procfile_entries(t),
            None => Seq::<(Seq<char>, Seq<char>)>::empty(),
        },
    }
}

/// Copy a vector of string pairs, preserving contents.
pub(crate) fn clone_pairs(v: &Vec<(String, String)>) -> (r: Vec<(String, String)>)
    ensures
        r.deep_view() == v.deep_view(),
{
    let mut r: Vec<(String, String)> = Vec::new();
    let mut i: usize = 0;
    while i < v.len()
        invariant
            i <= v@.len(),
            r.deep_view() =~~= v.deep_view().subrange(0, i as int),
        decreases v@.len() - i,
    {
        let pair = &v[i];
        r.push((pair.0.clone(), pair.1.clone()));
        i = i + 1;
    }
    proof {
        assert(r.deep_view() =~~= v.deep_view());
    }
    r
}

impl CommandConfig {
    /// The labelled commands this configuration describes.  For the
    /// `Procfile` form the caller reads the file in the app's directory and
    /// hands its text over; `None` means no Procfile was found.
    pub fn commands(&self, procfile_text: Option<&str>) -> (r: Vec<(String, String)>)
        ensures
            r.deep_view() == spec_commands(*self, view_opt_str(procfile_text)),
    {
        match self {
            CommandConfig::Command(command) => {
                let mut r: Vec<(String, String)> = Vec::new();
                r.push((String::from_str("app"), command.clone()));
                proof {
                    assert(r.deep_view() =~~= seq![("app"@, command@)]);
                }
                r
            },
            CommandConfig::Commands(map) => clone_pairs(map),
            CommandConfig::Procfile => match procfile_text {
                Some(t) => procfile::parse_procfile(t),
                None => {
                    let r: Vec<(String, String)> = Vec::new();
                    proof {
                        assert(r.deep_view() =~~= Seq::<(Seq<char>, Seq<char>)>::empty());
                    }
                    r
                },
            },
        }
    }
}

/// One app's configuration record.
#[derive(Clone, Debug)]
pub struct App {
    /// Primary name; also the primary hostname label.
    pub name: String,
    /// Working directory, possibly still holding `~` or `$VAR`.
    pub directory: String,
    /// Fixed upstream port; `None` asks the registry to allocate one.
    pub port: Option<u16>,
    /// Header overrides injected on proxied requests.
    pub headers: Vec<(String, String)>,
    pub command_config: CommandConfig,
    /// Alternate hostname labels.
    pub aliases: Vec<String>,
}

impl Default for App {
    fn default() -> (r: App)
        ensures
            r.name@ == Seq::<char>::empty(),
            r.directory@ == Seq::<char>::empty(),
            (r.port is None),
            r.headers.deep_view() == Seq::<(Seq<char>, Seq<char>)>::empty(),
            (r.command_config matches CommandConfig::Procfile),
            r.aliases.deep_view() == Seq::<Seq<char>>::empty(),
    {
        let r = App {
            name: String::new(),
            directory: String::new(),
            port: None,
            headers: Vec::new(),
            command_config: CommandConfig::Procfile,
            aliases: Vec::new(),
        };
        proof {
            assert(r.headers.deep_view() =~~= Seq::<(Seq<char>, Seq<char>)>::empty());
            assert(r.aliases.deep_view() =~~= Seq::<Seq<char>>::empty());
        }
        r
    }
}

impl App {
    /// The configured directory with `~` and `$VAR` expanded.
    pub fn full_path(&self) -> (r: String)
        ensures
            !text::contains_char(self.directory@, '$') && !(self.directory@.len() > 0
                && self.directory@[0] == '~') ==> r@ == self.directory@,
    {
        process::expand_path(self.directory.as_str())
    }

    /// The labelled commands of this app; see `CommandConfig::commands`.
    pub fn commands(&self, procfile_text: Option<&str>) -> (r: Vec<(String, String)>)
        ensures
            r.deep_view() == spec_commands(self.command_config, view_opt_str(procfile_text)),
    {
        self.command_config.commands(procfile_text)
    }

    /// Copy of the alias list.
    pub fn aliases_clone(&self) -> (r: Vec<String>)
        ensures
            r.deep_view() == self.aliases.deep_view(),
    {
        let mut r: Vec<String> = Vec::new();
        let mut i: usize = 0;
        while i < self.aliases.len()
            invariant
                i <= self.aliases@.len(),
                r@.len() == i,
                forall|j: int| 0 <= j < i ==> r@[j] == self.aliases@[j],
            decreases self.aliases@.len() - i,
        {
            r.push(self.aliases[i].clone());
            i = i + 1;
        }
        proof {
            assert forall|j: int|
                0 <= j < r.deep_view().len() implies r.deep_view()[j]
                == self.aliases.deep_view()[j] by {
                assert(r.deep_view()[j] == r@[j].deep_view());
                assert(self.aliases.deep_view()[j] == self.aliases@[j].deep_view());
            }
            assert(r.deep_view() =~~= self.aliases.deep_view());
        }
        r
    }

    /// Every hostname label this app answers to: its name, then its aliases.
    pub open spec fn spec_domains(self) -> Seq<Seq<char>> {
        seq![self.name@] + self.aliases.deep_view()
    }

    pub fn domains(&self) -> (r: Vec<String>)
        ensures
            r.deep_view() == self.spec_domains(),
    {
        let mut r: Vec<String> = Vec::new();
        r.push(self.name.clone());
        let mut i: usize = 0;
        while i < self.aliases.len()
            invariant
                i <= self.aliases@.len(),
                r@.len() == i + 1,
                r@[0]@ == self.name@,
                forall|j: int| 1 <= j < i + 1 ==> r@[j] == self.aliases@[j - 1],
            decreases self.aliases@.len() - i,
        {
            r.push(self.aliases[i].clone());
            i = i + 1;
        }
        proof {
            assert forall|j: int|
                0 <= j < r.deep_view().len() implies r.deep_view()[j] == self.spec_domains()[j] by {
                assert(r.deep_view()[j] == r@[j].deep_view());
                if j > 0 {
                    assert(self.aliases.deep_view()[j - 1] == self.aliases@[j - 1].deep_view());
                }
            }
            assert(r.deep_view() =~~= self.spec_domains());
        }
        r
    }
}

/// Name of the control socket file inside the configuration directory.
pub fn socket_path(config_dir: &str) -> (r: String)
    ensures
        r@ == config_dir@ + "/oxidux.sock"@,
{
    let mut s = String::from_str(config_dir);
    s.append("/oxidux.sock");
    s
}

/// Name of the tmux server socket every supervised session runs on.
pub fn tmux_socket() -> (r: String)
    ensures
        r@ == "oxidux"@,
{
    String::from_str("oxidux")
}

} // verus!
