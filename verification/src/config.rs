//! The agent's configuration: its settings, their defaults, and what makes it valid.

use crate::auto_uuid::{place_uuid, replace_auto_gen};
use crate::outside::{around_value, random_uuid, toml_string_at, uuid_to_text};
use crate::text::{equal_ignoring_case, to_decimal, trimmed};
use vstd::hash_set::StringHashSet;
use vstd::prelude::*;

verus! {

/// The time a WebSocket connection may take, in milliseconds, where none is configured.
pub const DEFAULT_CONNECT_TIMEOUT_MS: u64 = 1000;

/// The NTP server where none is configured.
pub const DEFAULT_NTP_SERVER: &'static str = "time.pool.aliyun.com";

/// The interval between dynamic reports, and between their summaries, in milliseconds, where none
/// is configured.
pub const DEFAULT_REPORT_INTERVAL_MS: u64 = 1000;

/// The settings of an agent.
#[derive(Debug, Clone)]
pub struct AgentConfig {
    /// The log level.
    pub log_level: Option<String>,
    /// The interval between dynamic reports, in milliseconds.
    pub dynamic_report_interval_ms: Option<u64>,
    /// The interval between summaries of dynamic reports, in milliseconds. It divides the interval
    /// between dynamic reports.
    pub dynamic_summary_report_interval_ms: Option<u64>,
    /// The interval between static reports, in milliseconds.
    pub static_report_interval_ms: Option<u64>,
    /// The UUID of the agent, as a number.
    pub agent_uuid: u128,
    /// The time a WebSocket connection may take, in milliseconds.
    pub connect_timeout_ms: Option<u64>,
    /// How many characters of a command's output are kept.
    pub exec_max_character: Option<usize>,
    /// The shell that terminals run.
    pub terminal_shell: Option<String>,
    /// Where the agent learns its IP address.
    pub ip_provider: Option<IpProvider>,
    /// The NTP server.
    pub ntp_server: Option<String>,
    /// The servers that the agent connects to.
    pub server: Option<Vec<Server>>,
}

/// A server that the agent connects to, and what it may ask of the agent.
#[derive(Debug, Clone)]
pub struct Server {
    /// The name, known to the agent only.
    pub name: String,
    /// The UUID by which the server is recognised.
    pub server_uuid: String,
    /// The token that authenticates the agent.
    pub token: String,
    /// The WebSocket address.
    pub ws_url: String,
    pub allow_task: Option<bool>,
    pub allow_icmp_ping: Option<bool>,
    pub allow_tcp_ping: Option<bool>,
    pub allow_http_ping: Option<bool>,
    pub allow_web_shell: Option<bool>,
    /// Dangerous.
    pub allow_read_config: Option<bool>,
    /// Dangerous.
    pub allow_edit_config: Option<bool>,
    /// Dangerous.
    pub allow_execute: Option<bool>,
    /// Dangerous.
    pub allow_http_request: Option<bool>,
    pub allow_ip: Option<bool>,
    pub allow_version: Option<bool>,
}

/// A service that tells the agent its IP address.
#[derive(Debug, Clone)]
pub enum IpProvider {
    IpInfo,
    Cloudflare,
}

/// The configuration that the agent shares between its tasks.
pub enum SharedConfig<'a> {
    /// It was not set yet.
    Uninitialized,
    /// A task failed while it held the lock.
    Poisoned,
    Ready(&'a AgentConfig),
}

/// Why a configuration is refused.
#[derive(Debug, Clone)]
pub enum ConfigError {
    /// The file is no TOML document that holds a configuration.
    Toml(String),
    ZeroConnectTimeout,
    /// Two servers have this name.
    DuplicateServerName(String),
    ZeroSummaryInterval,
    /// The interval between dynamic reports is no multiple of that between summaries.
    IntervalNotMultiple(u64, u64),
}

/// `ConfigError` with texts in place of strings.
pub enum ConfigProblem {
    Toml(Seq<char>),
    ZeroConnectTimeout,
    DuplicateServerName(Seq<char>),
    ZeroSummaryInterval,
    IntervalNotMultiple(u64, u64),
}

impl View for ConfigError {
    type V = ConfigProblem;

    open spec fn view(&self) -> ConfigProblem {
        match self {
            ConfigError::Toml(message) => ConfigProblem::Toml(message@),
            ConfigError::ZeroConnectTimeout => ConfigProblem::ZeroConnectTimeout,
            ConfigError::DuplicateServerName(name) => ConfigProblem::DuplicateServerName(name@),
            ConfigError::ZeroSummaryInterval => ConfigProblem::ZeroSummaryInterval,
            ConfigError::IntervalNotMultiple(dynamic, summary) => {
                ConfigProblem::IntervalNotMultiple(*dynamic, *summary)
            },
        }
    }
}

/// What is said of a refused configuration.
pub open spec fn problem_text(problem: ConfigProblem) -> Seq<char> {
    match problem {
        ConfigProblem::Toml(message) => message,
        ConfigProblem::ZeroConnectTimeout => "connect_timeout_ms must be greater than 0"@,
        ConfigProblem::DuplicateServerName(name) => "Duplicate server name '"@ + name
            + "' in config"@,
        ConfigProblem::ZeroSummaryInterval => {
            "dynamic_summary_report_interval_ms must be greater than 0"@
        },
        ConfigProblem::IntervalNotMultiple(dynamic, summary) => "dynamic_report_interval_ms ("@
            + crate::text::decimal(dynamic as nat)
            + ") must be an integer multiple of dynamic_summary_report_interval_ms ("@
            + crate::text::decimal(summary as nat) + ")"@,
    }
}

impl ConfigError {
    /// What is said of the refused configuration.
    pub fn message(&self) -> (r: String)
        ensures
            r@ == problem_text(self@),
            match self {
                ConfigError::Toml(message) => r@ == message@,
                ConfigError::ZeroConnectTimeout => r@
                    == "connect_timeout_ms must be greater than 0"@,
                ConfigError::DuplicateServerName(name) => r@ == "Duplicate server name '"@ + name@
                    + "' in config"@,
                ConfigError::ZeroSummaryInterval => r@
                    == "dynamic_summary_report_interval_ms must be greater than 0"@,
                ConfigError::IntervalNotMultiple(dynamic, summary) => r@
                    == "dynamic_report_interval_ms ("@ + crate::text::decimal(*dynamic as nat)
                    + ") must be an integer multiple of dynamic_summary_report_interval_ms ("@
                    + crate::text::decimal(*summary as nat) + ")"@,
            },
    {
        match self {
            ConfigError::Toml(message) => message.clone(),
            ConfigError::ZeroConnectTimeout => {
                "connect_timeout_ms must be greater than 0".to_owned()
            },
            ConfigError::DuplicateServerName(name) => {
                let mut r: String = "Duplicate server name '".to_owned();
                r.append(name);
                r.append("' in config");
                r
            },
            ConfigError::ZeroSummaryInterval => {
                "dynamic_summary_report_interval_ms must be greater than 0".to_owned()
            },
            ConfigError::IntervalNotMultiple(dynamic, summary) => {
                let mut r: String = "dynamic_report_interval_ms (".to_owned();
                r.append(&to_decimal(*dynamic));
                r.append(
                    ") must be an integer multiple of dynamic_summary_report_interval_ms (",
                );
                r.append(&to_decimal(*summary));
                r.append(")");
                r
            },
        }
    }
}

/// A setting without white space at its ends, where anything is left of it.
pub open spec fn trimmed_setting(setting: Option<String>) -> Option<Seq<char>> {
    match setting {
        Some(s) => if crate::text::trim(s@).len() > 0 {
            Some(crate::text::trim(s@))
        } else {
            None
        },
        None => None,
    }
}

/// The value of a setting, or a default.
pub open spec fn setting_or(setting: Option<u64>, default_value: u64) -> u64 {
    match setting {
        Some(v) => v,
        None => default_value,
    }
}

/// The first name that stands earlier in `names` already.
pub open spec fn first_duplicate(names: Seq<Seq<char>>) -> Option<Seq<char>>
    decreases names.len(),
{
    if names.len() == 0 {
        None
    } else {
        match first_duplicate(names.drop_last()) {
            Some(name) => Some(name),
            None => if names.drop_last().contains(names.last()) {
                Some(names.last())
            } else {
                None
            },
        }
    }
}

/// The names of servers.
pub open spec fn names_of(servers: Seq<Server>) -> Seq<Seq<char>> {
    servers.map_values(|s: Server| s.name@)
}

/// Whether a document's `agent_uuid` asks for a generated UUID.
pub open spec fn wants_uuid(entry: Option<Seq<char>>) -> bool {
    match entry {
        Some(s) => crate::text::same_ignoring_case(s, "auto_gen"@),
        None => false,
    }
}

/// Whether the `agent_uuid` of a document asks for a generated UUID.
pub fn wants_generated_uuid(entry: &Option<String>) -> (r: bool)
    ensures
        r == wants_uuid(crate::outside::option_text(*entry)),
        *entry is None ==> !r,
        *entry matches Some(s) ==> r == crate::text::same_ignoring_case(s@, "auto_gen"@),
{
    match entry {
        Some(s) => equal_ignoring_case(s, "auto_gen"),
        None => false,
    }
}

/// Whether `text` is what becomes of a file that asks for a UUID when `uuid` is drawn: it reads as
/// that UUID; it is the file with the lines that ask rewritten, where that does so, and otherwise
/// the file with the UUID in the place of the value.
pub open spec fn generated(content: Seq<char>, uuid: Seq<char>, text: Seq<char>) -> bool {
    &&& crate::outside::toml_string(text, "agent_uuid"@) == Ok::<Option<Seq<char>>, Seq<char>>(
        Some(uuid),
    )
    &&& Some(text) == crate::auto_uuid::placed(
        content,
        uuid,
        crate::outside::toml_string(crate::auto_uuid::rewritten(content, uuid), "agent_uuid"@),
        crate::outside::toml_around(content, "agent_uuid"@),
    )
}

/// What becomes of a configuration file before it is read.
pub enum PreparedConfig {
    /// It is read as it is.
    Unchanged,
    /// It is overwritten by this text, which is then read.
    Rewritten(String),
}

/// A trimmed setting, where anything is left of it.
fn configured(setting: &Option<String>) -> (r: Option<&str>)
    ensures
        match r {
            Some(s) => trimmed_setting(*setting) == Some(s@),
            None => trimmed_setting(*setting) is None,
        },
{
    match setting {
        Some(s) => {
            let t: &str = trimmed(s);
            if t.is_empty() {
                None
            } else {
                Some(t)
            }
        },
        None => None,
    }
}

impl AgentConfig {
    /// The names of the configured servers, in their order.
    pub open spec fn server_names(&self) -> Seq<Seq<char>> {
        match self.server {
            Some(servers) => names_of(servers@),
            None => seq![],
        }
    }

    /// The interval between dynamic reports.
    pub open spec fn dynamic_interval(&self) -> u64 {
        setting_or(self.dynamic_report_interval_ms, DEFAULT_REPORT_INTERVAL_MS)
    }

    /// The interval between summaries of dynamic reports.
    pub open spec fn summary_interval(&self) -> u64 {
        setting_or(self.dynamic_summary_report_interval_ms, DEFAULT_REPORT_INTERVAL_MS)
    }

    /// The first thing that is wrong with the configuration.
    pub open spec fn problem(&self) -> Option<ConfigProblem> {
        if self.connect_timeout_ms == Some(0u64) {
            Some(ConfigProblem::ZeroConnectTimeout)
        } else if first_duplicate(self.server_names()) is Some {
            Some(ConfigProblem::DuplicateServerName(first_duplicate(self.server_names())->0))
        } else if self.summary_interval() == 0 {
            Some(ConfigProblem::ZeroSummaryInterval)
        } else if self.dynamic_interval() % self.summary_interval() != 0 {
            Some(
                ConfigProblem::IntervalNotMultiple(
                    self.dynamic_interval(),
                    self.summary_interval(),
                ),
            )
        } else {
            None
        }
    }

    /// The time a WebSocket connection may take, in milliseconds.
    #[must_use]
    pub fn resolved_connect_timeout_ms(&self) -> (r: u64)
        ensures
            r == setting_or(self.connect_timeout_ms, DEFAULT_CONNECT_TIMEOUT_MS),
            self.connect_timeout_ms is Some ==> r == self.connect_timeout_ms->0,
            self.connect_timeout_ms is None ==> r == 1000,
    {
        match self.connect_timeout_ms {
            Some(ms) => ms,
            None => DEFAULT_CONNECT_TIMEOUT_MS,
        }
    }

    /// The NTP server, without white space at its ends; the default where none is left.
    #[must_use]
    pub fn resolved_ntp_server(&self) -> (r: &str)
        ensures
            r@ == match trimmed_setting(self.ntp_server) {
                Some(server) => server,
                None => DEFAULT_NTP_SERVER@,
            },
            self.ntp_server is None ==> r@ == "time.pool.aliyun.com"@,
            self.ntp_server matches Some(setting) ==> {
                &&& crate::text::trim(setting@).len() == 0 ==> r@ == "time.pool.aliyun.com"@
                &&& crate::text::trim(setting@).len() > 0 ==> r@ == crate::text::trim(setting@)
            },
    {
        match configured(&self.ntp_server) {
            Some(server) => server,
            None => DEFAULT_NTP_SERVER,
        }
    }

    /// The shell that terminals run, without white space at its ends, where one is configured.
    #[must_use]
    pub fn resolved_terminal_shell(&self) -> (r: Option<&str>)
        ensures
            match r {
                Some(s) => trimmed_setting(self.terminal_shell) == Some(s@),
                None => trimmed_setting(self.terminal_shell) is None,
            },
            self.terminal_shell is None ==> r is None,
            self.terminal_shell matches Some(setting) ==> {
                &&& crate::text::trim(setting@).len() == 0 ==> r is None
                &&& crate::text::trim(setting@).len() > 0 ==> (r matches Some(shell) && shell@
                    == crate::text::trim(setting@))
            },
    {
        configured(&self.terminal_shell)
    }

    /// What becomes of a configuration file before it is read. Where its `agent_uuid` is
    /// `auto_gen`, in any case, a random UUID of version 4 takes the place of the placeholder, and
    /// the new file reads as that UUID; in a tidy file nothing else changes. A file whose
    /// `agent_uuid` is something else stays as it is, above all one that holds a UUID.
    pub fn prepare_config(content: &str) -> (r: Result<PreparedConfig, ConfigError>)
        ensures
            match crate::outside::toml_string(content@, "agent_uuid"@) {
                Err(message) => r matches Err(ConfigError::Toml(m)) && m@ == message,
                Ok(entry) => if wants_uuid(entry) {
                    r matches Ok(PreparedConfig::Rewritten(text)) && exists|value: u128| #[trigger]
                        crate::outside::is_version_4(value) && generated(
                            content@,
                            crate::outside::uuid_text(value),
                            text@,
                        ) && forall|index: int, placeholder: Seq<char>| #[trigger]
                            crate::auto_uuid::tidy_entry(content@, index, placeholder) ==> text@
                                == crate::auto_uuid::rewritten(
                                content@,
                                crate::outside::uuid_text(value),
                            )
                } else {
                    r == Ok::<PreparedConfig, ConfigError>(PreparedConfig::Unchanged)
                },
            },
            match crate::outside::toml_string(content@, "agent_uuid"@) {
                Err(_) => r is Err,
                Ok(None) => r == Ok::<PreparedConfig, ConfigError>(PreparedConfig::Unchanged),
                Ok(Some(entry)) => {
                    &&& !crate::text::same_ignoring_case(entry, "auto_gen"@) ==> r == Ok::<
                        PreparedConfig,
                        ConfigError,
                    >(PreparedConfig::Unchanged)
                    &&& crate::text::same_ignoring_case(entry, "auto_gen"@) ==> (r matches Ok(
                        PreparedConfig::Rewritten(text),
                    ) && exists|value: u128| #[trigger]
                        crate::outside::is_version_4(value) && {
                            let uuid = crate::outside::uuid_text(value);
                            let rewrite = crate::auto_uuid::rewritten(content@, uuid);
                            &&& crate::outside::toml_string(text@, "agent_uuid"@) == Ok::<
                                Option<Seq<char>>,
                                Seq<char>,
                            >(Some(uuid))
                            &&& crate::outside::toml_string(rewrite, "agent_uuid"@) == Ok::<
                                Option<Seq<char>>,
                                Seq<char>,
                            >(Some(uuid)) ==> {
                                let old_lines = crate::text::lines(content@);
                                let new_lines = crate::text::lines(text@);
                                &&& text@ == rewrite
                                &&& new_lines.len() == old_lines.len()
                                &&& forall|i: int|
                                    0 <= i < old_lines.len() && !crate::auto_uuid::asks(
                                        #[trigger] old_lines[i],
                                    ) ==> {
                                        ||| new_lines[i] == old_lines[i]
                                        ||| new_lines[i].push('\r') == old_lines[i]
                                    }
                            }
                            &&& crate::outside::toml_string(rewrite, "agent_uuid"@) != Ok::<
                                Option<Seq<char>>,
                                Seq<char>,
                            >(Some(uuid)) ==> (crate::outside::toml_around(
                                content@,
                                "agent_uuid"@,
                            ) matches Some((before, after)) && {
                                &&& text@ == before + seq!['"'] + uuid + seq!['"'] + after
                                &&& before.is_prefix_of(content@)
                                &&& after.is_suffix_of(content@)
                                &&& before.len() + after.len() <= content@.len()
                            })
                        })
                },
            },
            forall|value: u128|
                crate::outside::toml_string(content@, "agent_uuid"@) == Ok::<
                    Option<Seq<char>>,
                    Seq<char>,
                >(Some(#[trigger] crate::outside::uuid_text(value))) ==> r == Ok::<
                    PreparedConfig,
                    ConfigError,
                >(PreparedConfig::Unchanged),
            forall|index: int, value: Seq<char>|
                (#[trigger] crate::outside::root_entry(content@, "agent_uuid"@, index, value)
                    && !crate::text::same_ignoring_case(value, "auto_gen"@)) ==> {
                    r is Err || r == Ok::<PreparedConfig, ConfigError>(PreparedConfig::Unchanged)
                },
    {
        proof {
            assert forall|value: u128| !crate::text::same_ignoring_case(
                #[trigger] crate::outside::uuid_text(value),
                "auto_gen"@,
            ) by {
                crate::auto_uuid::lemma_uuid_is_plain(value);
            }
        }
        let entry: Option<String> = match toml_string_at(content, "agent_uuid") {
            Ok(entry) => entry,
            Err(message) => {
                return Err(ConfigError::Toml(message));
            },
        };
        if !wants_generated_uuid(&entry) {
            return Ok(PreparedConfig::Unchanged);
        }
        let value: u128 = random_uuid();
        let uuid: String = uuid_to_text(value);
        let rewrite: String = replace_auto_gen(content, &uuid);
        let read: Result<Option<String>, String> = toml_string_at(&rewrite, "agent_uuid");
        let around: Option<(String, String)> = around_value(content, "agent_uuid");
        let placed: Option<String> = place_uuid(content, &uuid, &read, &around);
        proof {
            let pieces = crate::outside::around_texts(around)->0;
            crate::auto_uuid::lemma_uuid_is_plain(value);
            crate::auto_uuid::law_rewritten_does_not_ask(content@, value);
            let old_lines = crate::text::lines(content@);
            let new_lines = crate::text::lines(rewrite@);
            assert forall|i: int|
                0 <= i < old_lines.len() && !crate::auto_uuid::asks(
                    #[trigger] old_lines[i],
                ) implies {
                ||| new_lines[i] == old_lines[i]
                ||| new_lines[i].push('\r') == old_lines[i]
            } by {
                assert(new_lines[i] == crate::text::without_return(old_lines[i]));
                if old_lines[i].len() > 0 && old_lines[i].last() == '\r' {
                    assert(new_lines[i].push('\r') =~= old_lines[i]);
                }
            }
            assert(crate::outside::reads_between(pieces, "agent_uuid"@, uuid@));
            assert forall|index: int, placeholder: Seq<char>| #[trigger]
                crate::auto_uuid::tidy_entry(content@, index, placeholder) implies
                crate::auto_uuid::rewritten(content@, uuid@) == crate::outside::quoted_between(
                pieces,
                uuid@,
            ) by {
                crate::auto_uuid::law_tidy_file_rewritten(content@, index, placeholder, uuid@);
            }
        }
        match placed {
            Some(text) => {
                assert(crate::outside::is_version_4(value) && generated(content@, uuid@, text@));
                Ok(PreparedConfig::Rewritten(text))
            },
            None => {
                // The value was read, so what stands around it was found.
                assert(false);
                Ok(PreparedConfig::Unchanged)
            },
        }
    }

    /// Whether the configuration can be used; if not, the first thing that is wrong with it.
    pub fn validate(&self) -> (r: Result<(), ConfigError>)
        ensures
            match r {
                Ok(()) => self.problem() is None,
                Err(e) => self.problem() == Some(e@),
            },
            r is Err && (r->Err_0 is ZeroConnectTimeout) <==> self.connect_timeout_ms == Some(0u64),
            r is Ok || r->Err_0 is ZeroSummaryInterval || r->Err_0 is IntervalNotMultiple ==> {
                &&& self.connect_timeout_ms != Some(0u64)
                &&& self.server matches Some(servers) ==> forall|i: int, j: int|
                    #![trigger servers@[i], servers@[j]]
                    0 <= i < j < servers@.len() ==> servers@[i].name@ != servers@[j].name@
            },
            match r {
                Ok(()) => {
                    &&& self.dynamic_summary_report_interval_ms != Some(0u64)
                    &&& (match self.dynamic_report_interval_ms {
                        Some(dynamic) => dynamic,
                        None => 1000,
                    }) % (match self.dynamic_summary_report_interval_ms {
                        Some(summary) => summary,
                        None => 1000,
                    }) == 0
                },
                Err(ConfigError::Toml(_)) => false,
                Err(ConfigError::ZeroConnectTimeout) => true,
                Err(ConfigError::DuplicateServerName(name)) => {
                    &&& self.connect_timeout_ms != Some(0u64)
                    &&& self.server matches Some(servers) && exists|i: int, j: int|
                        #![trigger servers@[i], servers@[j]]
                        {
                            &&& 0 <= i < j < servers@.len()
                            &&& servers@[i].name@ == name@
                            &&& servers@[j].name@ == name@
                            &&& forall|k: int, l: int|
                                #![trigger servers@[k], servers@[l]]
                                0 <= k < l < j ==> servers@[k].name@ != servers@[l].name@
                        }
                },
                Err(ConfigError::ZeroSummaryInterval) => self.dynamic_summary_report_interval_ms
                    == Some(0u64),
                Err(ConfigError::IntervalNotMultiple(dynamic, summary)) => {
                    &&& dynamic == match self.dynamic_report_interval_ms {
                        Some(ms) => ms,
                        None => 1000,
                    }
                    &&& summary == match self.dynamic_summary_report_interval_ms {
                        Some(ms) => ms,
                        None => 1000,
                    }
                    &&& summary > 0
                    &&& dynamic % summary != 0
                },
            },
    {
        if let Some(ms) = self.connect_timeout_ms {
            if ms == 0 {
                return Err(ConfigError::ZeroConnectTimeout);
            }
        }
        if let Some(servers) = &self.server {
            if let Some(name) = find_duplicate(servers) {
                return Err(ConfigError::DuplicateServerName(name));
            }
        }
        let dynamic_interval: u64 = match self.dynamic_report_interval_ms {
            Some(ms) => ms,
            None => DEFAULT_REPORT_INTERVAL_MS,
        };
        let summary_interval: u64 = match self.dynamic_summary_report_interval_ms {
            Some(ms) => ms,
            None => DEFAULT_REPORT_INTERVAL_MS,
        };
        if summary_interval == 0 {
            return Err(ConfigError::ZeroSummaryInterval);
        }
        if dynamic_interval % summary_interval != 0 {
            return Err(ConfigError::IntervalNotMultiple(dynamic_interval, summary_interval));
        }
        Ok(())
    }
}

/// The first server name that an earlier server has already.
fn find_duplicate(servers: &Vec<Server>) -> (r: Option<String>)
    ensures
        match r {
            Some(name) => first_duplicate(names_of(servers@)) == Some(name@),
            None => first_duplicate(names_of(servers@)) is None,
        },
        match r {
            Some(name) => exists|i: int, j: int|
                #![trigger servers@[i], servers@[j]]
                {
                    &&& 0 <= i < j < servers@.len()
                    &&& servers@[i].name@ == name@
                    &&& servers@[j].name@ == name@
                    &&& forall|k: int, l: int|
                        #![trigger servers@[k], servers@[l]]
                        0 <= k < l < j ==> servers@[k].name@ != servers@[l].name@
                },
            None => forall|i: int, j: int|
                #![trigger servers@[i], servers@[j]]
                0 <= i < j < servers@.len() ==> servers@[i].name@ != servers@[j].name@,
        },
{
    let mut seen: StringHashSet = StringHashSet::with_capacity(servers.len());
    let ghost names = names_of(servers@);
    assert(names.take(0) =~= seq![]);
    let mut i: usize = 0;
    while i < servers.len()
        invariant
            i <= servers@.len(),
            names == names_of(servers@),
            forall|n: Seq<char>| #[trigger] seen@.contains(n) == names.take(i as int).contains(n),
            first_duplicate(names.take(i as int)) is None,
        decreases servers@.len() - i,
    {
        let name: String = servers[i].name.clone();
        let ghost before = seen@;
        let fresh: bool = seen.insert(name);
        proof {
            let old_names = names.take(i as int);
            let new_names = names.take(i + 1);
            assert(names[i as int] == name@);
            assert(new_names.drop_last() =~= old_names);
            assert(new_names.last() == name@);
            assert(fresh == !old_names.contains(name@));
            assert forall|n: Seq<char>| #[trigger] seen@.contains(n) == new_names.contains(n) by {
                assert(before.contains(n) == old_names.contains(n));
                if old_names.contains(n) {
                    let j = choose|j: int| 0 <= j < old_names.len() && old_names[j] == n;
                    assert(new_names[j] == n);
                }
                if new_names.contains(n) && n != name@ {
                    let j = choose|j: int| 0 <= j < new_names.len() && new_names[j] == n;
                    assert(old_names[j] == n);
                }
                assert(new_names[i as int] == name@);
            }
            if !fresh {
                lemma_first_duplicate_stays(names, i + 1);
            }
        }
        if !fresh {
            proof {
                lemma_first_duplicate_server(servers@);
            }
            return Some(servers[i].name.clone());
        }
        i = i + 1;
    }
    proof {
        assert(names.take(i as int) =~= names);
        lemma_first_duplicate_server(servers@);
    }
    None
}

/// A duplicate among the first names is the first duplicate of all.
proof fn lemma_first_duplicate_stays(names: Seq<Seq<char>>, n: int)
    requires
        0 <= n <= names.len(),
        first_duplicate(names.take(n)) is Some,
    ensures
        first_duplicate(names) == first_duplicate(names.take(n)),
    decreases names.len(),
{
    if n < names.len() {
        assert(names.drop_last().take(n) =~= names.take(n));
        lemma_first_duplicate_stays(names.drop_last(), n);
    } else {
        assert(names.take(n) =~= names);
    }
}

/// The first duplicate is a name that stands twice, and no name stands twice before its second place.
proof fn lemma_first_duplicate(names: Seq<Seq<char>>)
    ensures
        match first_duplicate(names) {
            Some(name) => exists|i: int, j: int|
                #![trigger names[i], names[j]]
                {
                    &&& 0 <= i < j < names.len()
                    &&& names[i] == name
                    &&& names[j] == name
                    &&& forall|k: int, l: int|
                        #![trigger names[k], names[l]]
                        0 <= k < l < j ==> names[k] != names[l]
                },
            None => forall|i: int, j: int|
                #![trigger names[i], names[j]]
                0 <= i < j < names.len() ==> names[i] != names[j],
        },
    decreases names.len(),
{
    if names.len() > 0 {
        let rest = names.drop_last();
        let last = names.len() - 1;
        lemma_first_duplicate(rest);
        match first_duplicate(rest) {
            Some(name) => {
                let (i, j) = choose|i: int, j: int|
                    #![trigger rest[i], rest[j]]
                    {
                        &&& 0 <= i < j < rest.len()
                        &&& rest[i] == name
                        &&& rest[j] == name
                        &&& forall|k: int, l: int|
                            #![trigger rest[k], rest[l]]
                            0 <= k < l < j ==> rest[k] != rest[l]
                    };
                assert(names[i] == name && names[j] == name);
                assert forall|k: int, l: int|
                    #![trigger names[k], names[l]]
                    0 <= k < l < j implies names[k] != names[l] by {
                    assert(rest[k] != rest[l]);
                }
            },
            None => {
                assert forall|k: int, l: int|
                    #![trigger names[k], names[l]]
                    0 <= k < l < last implies names[k] != names[l] by {
                    assert(rest[k] != rest[l]);
                }
                if rest.contains(names.last()) {
                    let i = choose|i: int| 0 <= i < rest.len() && rest[i] == names.last();
                    assert(names[i] == names.last() && names[last] == names.last());
                } else {
                    assert forall|i: int, j: int|
                        #![trigger names[i], names[j]]
                        0 <= i < j < names.len() implies names[i] != names[j] by {
                        assert(rest.contains(rest[i]));
                        assert(rest[i] == names[i]);
                    }
                }
            },
        }
    }
}

/// The first duplicate name of servers belongs to two of them, and before the second no two have one
/// name.
proof fn lemma_first_duplicate_server(servers: Seq<Server>)
    ensures
        match first_duplicate(names_of(servers)) {
            Some(name) => exists|i: int, j: int|
                #![trigger servers[i], servers[j]]
                {
                    &&& 0 <= i < j < servers.len()
                    &&& servers[i].name@ == name
                    &&& servers[j].name@ == name
                    &&& forall|k: int, l: int|
                        #![trigger servers[k], servers[l]]
                        0 <= k < l < j ==> servers[k].name@ != servers[l].name@
                },
            None => forall|i: int, j: int|
                #![trigger servers[i], servers[j]]
                0 <= i < j < servers.len() ==> servers[i].name@ != servers[j].name@,
        },
{
    let names = names_of(servers);
    lemma_first_duplicate(names);
    assert forall|i: int| 0 <= i < servers.len() implies names[i] == #[trigger] servers[
        i
    ].name@ by {}
    if let Some(name) = first_duplicate(names) {
        let (i, j) = choose|i: int, j: int|
            #![trigger names[i], names[j]]
            {
                &&& 0 <= i < j < names.len()
                &&& names[i] == name
                &&& names[j] == name
                &&& forall|k: int, l: int|
                    #![trigger names[k], names[l]]
                    0 <= k < l < j ==> names[k] != names[l]
            };
        assert(servers[i].name@ == name && servers[j].name@ == name);
        assert forall|k: int, l: int|
            #![trigger servers[k], servers[l]]
            0 <= k < l < j implies servers[k].name@ != servers[l].name@ by {
            assert(names[k] != names[l]);
        }
    } else {
        assert forall|i: int, j: int|
            #![trigger servers[i], servers[j]]
            0 <= i < j < servers.len() implies servers[i].name@ != servers[j].name@ by {
            assert(names[i] != names[j]);
        }
    }
}

/// Names hold no duplicate exactly if they are all different.
proof fn lemma_no_duplicate(names: Seq<Seq<char>>)
    ensures
        first_duplicate(names) is None <==> names.no_duplicates(),
    decreases names.len(),
{
    if names.len() > 0 {
        let rest = names.drop_last();
        lemma_no_duplicate(rest);
        if first_duplicate(names) is None {
            assert forall|i: int, j: int|
                0 <= i < names.len() && 0 <= j < names.len() && i != j implies names[i]
                != names[j] by {
                assert(i < rest.len() ==> rest[i] == names[i]);
                assert(j < rest.len() ==> rest[j] == names[j]);
                if j == rest.len() {
                    assert(rest.contains(rest[i]));
                } else if i == rest.len() {
                    assert(rest.contains(rest[j]));
                }
            }
        }
        if names.no_duplicates() {
            assert forall|i: int, j: int|
                0 <= i < rest.len() && 0 <= j < rest.len() && i != j implies rest[i] != rest[j] by {
                assert(names[i] != names[j]);
            }
            if rest.contains(names.last()) {
                let i = choose|i: int| 0 <= i < rest.len() && rest[i] == names.last();
                assert(names[i] == names[names.len() - 1]);
            }
        }
    }
}

/// A configuration is valid exactly if its connection timeout is not 0, its servers have different
/// names, and its interval between dynamic reports is a whole number of intervals between
/// summaries, which are not 0.
pub proof fn law_valid_config(config: AgentConfig)
    ensures
        config.problem() is None <==> {
            &&& config.connect_timeout_ms != Some(0u64)
            &&& config.server_names().no_duplicates()
            &&& config.summary_interval() > 0
            &&& exists|n: int|
                #![trigger n * config.summary_interval()]
                config.dynamic_interval() == n * config.summary_interval()
        },
{
    lemma_no_duplicate(config.server_names());
    let d = config.dynamic_interval() as int;
    let s = config.summary_interval() as int;
    if s > 0 {
        vstd::arithmetic::div_mod::lemma_fundamental_div_mod(d, s);
        if d % s == 0 {
            assert(d == (d / s) * s) by (nonlinear_arith)
                requires
                    d == s * (d / s) + d % s,
                    d % s == 0,
            ;
            assert(config.dynamic_interval() == (d / s) * config.summary_interval());
        }
        if exists|n: int|
            #![trigger n * config.summary_interval()]
            config.dynamic_interval() == n * config.summary_interval() {
            let n = choose|n: int|
                #![trigger n * config.summary_interval()]
                config.dynamic_interval() == n * config.summary_interval();
            vstd::arithmetic::div_mod::lemma_mod_multiples_basic(n, s);
        }
    }
}

/// The resolved connection timeout of a valid configuration is not 0.
pub proof fn law_valid_timeout(config: AgentConfig)
    requires
        config.problem() is None,
    ensures
        setting_or(config.connect_timeout_ms, DEFAULT_CONNECT_TIMEOUT_MS) > 0,
{
}

/// A trimmed setting is not empty, neither begins nor ends in white space, and is what trimming it
/// again gives.
pub proof fn law_trimmed_setting(setting: Option<String>)
    ensures
        match trimmed_setting(setting) {
            Some(s) => {
                &&& s.len() > 0
                &&& !crate::text::white_space(s[0])
                &&& !crate::text::white_space(s.last())
                &&& crate::text::trim(s) == s
            },
            None => true,
        },
{
    if let Some(setting) = setting {
        crate::text::lemma_trim_start(setting@);
        crate::text::lemma_trim_end(crate::text::trim_start(setting@));
    }
}

/// A setting that is there is taken as it is, and only where there is none the default is.
pub proof fn law_setting_or(value: u64, default_value: u64)
    ensures
        setting_or(Some(value), default_value) == value,
        setting_or(None, default_value) == default_value,
{
}

/// A setting counts as what trimming leaves of it, and as none where that is nothing.
pub proof fn law_setting_is_trimmed(setting: String)
    ensures
        trimmed_setting(None) is None,
        crate::text::trim(setting@).len() == 0 ==> trimmed_setting(Some(setting)) is None,
        crate::text::trim(setting@).len() > 0 ==> trimmed_setting(Some(setting)) == Some(
            crate::text::trim(setting@),
        ),
{
}

/// Of two servers with one name, wherever they stand in the list, a configuration with a connection
/// timeout that is not 0 is refused with a duplicate name; and it is refused so only where there are
/// two such servers.
pub proof fn law_server_names_differ(config: AgentConfig, i: int, j: int)
    requires
        config.connect_timeout_ms != Some(0u64),
        config.server is Some,
        0 <= i < j < (config.server->0)@.len(),
        (config.server->0)@[i].name@ == (config.server->0)@[j].name@,
    ensures
        config.problem() matches Some(ConfigProblem::DuplicateServerName(name)) && exists|k: int|
            0 <= k <= j && #[trigger] (config.server->0)@[k].name@ == name,
{
    let servers = (config.server->0)@;
    let names = config.server_names();
    assert(names[i] == servers[i].name@ && names[j] == servers[j].name@);
    lemma_first_duplicate(names);
    assert(names[i] == names[j]);
    let name = first_duplicate(names)->0;
    let (k, l) = choose|k: int, l: int|
        #![trigger names[k], names[l]]
        {
            &&& 0 <= k < l < names.len()
            &&& names[k] == name
            &&& names[l] == name
            &&& forall|a: int, b: int|
                #![trigger names[a], names[b]]
                0 <= a < b < l ==> names[a] != names[b]
        };
    assert(l <= j);
    assert(servers[k].name@ == name);
}

/// A configuration whose problem is none is valid in each point: the connection timeout is not 0, no
/// two servers of the list have one name, and the interval between dynamic reports, 1000 where none
/// is set, is a multiple of that between summaries, 1000 where none is set and never 0.
pub proof fn law_valid_in_each_point(config: AgentConfig)
    ensures
        config.problem() is None <==> {
            &&& config.connect_timeout_ms != Some(0u64)
            &&& config.server matches Some(servers) ==> forall|i: int, j: int|
                #![trigger servers@[i], servers@[j]]
                0 <= i < j < servers@.len() ==> servers@[i].name@ != servers@[j].name@
            &&& config.dynamic_summary_report_interval_ms != Some(0u64)
            &&& (match config.dynamic_report_interval_ms {
                Some(dynamic) => dynamic,
                None => 1000,
            }) % (match config.dynamic_summary_report_interval_ms {
                Some(summary) => summary,
                None => 1000,
            }) == 0
        },
{
    let names = config.server_names();
    lemma_first_duplicate(names);
    if let Some(servers) = config.server {
        assert forall|i: int| 0 <= i < servers@.len() implies names[i] == #[trigger] servers@[
            i
        ].name@ by {}
        if forall|i: int, j: int|
            #![trigger servers@[i], servers@[j]]
            0 <= i < j < servers@.len() ==> servers@[i].name@ != servers@[j].name@ {
            assert forall|i: int, j: int|
                #![trigger names[i], names[j]]
                0 <= i < j < names.len() implies names[i] != names[j] by {
                assert(servers@[i].name@ != servers@[j].name@);
            }
        }
        if first_duplicate(names) is None {
            assert forall|i: int, j: int|
                #![trigger servers@[i], servers@[j]]
                0 <= i < j < servers@.len() implies servers@[i].name@ != servers@[j].name@ by {
                assert(names[i] != names[j]);
            }
        }
    }
}

/// A file asks for a UUID exactly if its entry is a string that is `auto_gen` but for case.
pub proof fn law_wants_uuid(entry: Seq<char>)
    ensures
        !wants_uuid(None),
        wants_uuid(Some(entry)) <==> crate::text::same_ignoring_case(entry, "auto_gen"@),
{
}

/// Where nothing is configured, a connection may take a second, reports and their summaries come every
/// second, and the time comes from `time.pool.aliyun.com`.
pub proof fn law_config_defaults()
    ensures
        DEFAULT_CONNECT_TIMEOUT_MS == 1000,
        DEFAULT_REPORT_INTERVAL_MS == 1000,
        DEFAULT_NTP_SERVER@ == "time.pool.aliyun.com"@,
{
}

/// What becomes of a file that asks for a UUID, tidy or not, reads as the UUID and loses nothing else:
/// either it has as many lines as before, and each line that does not ask is there in its place, but
/// for a carriage return at its end; or it is the file with the UUID in double quotes where the value
/// stood.
pub proof fn law_generated_keeps_the_rest(content: Seq<char>, value: u128, text: Seq<char>)
    requires
        generated(content, crate::outside::uuid_text(value), text),
    ensures
        crate::outside::toml_string(text, "agent_uuid"@) == Ok::<Option<Seq<char>>, Seq<char>>(
            Some(crate::outside::uuid_text(value)),
        ),
        ({
            ||| {
                let old_lines = crate::text::lines(content);
                let new_lines = crate::text::lines(text);
                &&& new_lines.len() == old_lines.len()
                &&& forall|i: int|
                    0 <= i < old_lines.len() && !crate::auto_uuid::asks(#[trigger] old_lines[i])
                        ==> new_lines[i] == old_lines[i] || new_lines[i].push('\r') == old_lines[i]
            }
            ||| crate::outside::toml_around(content, "agent_uuid"@) matches Some((before, after))
                && text == before + seq!['"'] + crate::outside::uuid_text(value) + seq!['"'] + after
        }),
{
    let uuid = crate::outside::uuid_text(value);
    let rewrite = crate::auto_uuid::rewritten(content, uuid);
    if crate::outside::toml_string(rewrite, "agent_uuid"@) == Ok::<Option<Seq<char>>, Seq<char>>(
        Some(uuid),
    ) {
        crate::auto_uuid::law_rewritten_does_not_ask(content, value);
        let old_lines = crate::text::lines(content);
        let new_lines = crate::text::lines(text);
        assert forall|i: int|
            0 <= i < old_lines.len() && !crate::auto_uuid::asks(
                #[trigger] old_lines[i],
            ) implies new_lines[i] == old_lines[i] || new_lines[i].push('\r') == old_lines[i] by {
            assert(new_lines[i] == crate::text::without_return(old_lines[i]));
            if old_lines[i].len() > 0 && old_lines[i].last() == '\r' {
                assert(new_lines[i].push('\r') =~= old_lines[i]);
            }
        }
    }
}

} // verus!
