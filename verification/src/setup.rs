//! From the command line to a run: addresses, engine, colours and mode.

use vstd::prelude::*;

use crate::engines::{EngineConfig, EngineType};
use crate::text::to_decimal;

verus! {

/// When the output is coloured.
#[derive(Copy, Clone, Debug, PartialEq, Eq, Structural)]
#[must_use]
pub enum Color {
    Auto,
    Always,
    Never,
}

impl Default for Color {
    fn default() -> (r: Color)
        ensures
            r == Color::Auto,
    {
        Color::Auto
    }
}

/// What the colour setting is to be forced to.
pub open spec fn forced_to(color: Color) -> Option<bool> {
    match color {
        Color::Always => Some(true),
        Color::Never => Some(false),
        Color::Auto => None,
    }
}

impl Color {
    /// What the colour setting of the process is to be forced to; nothing where it is to be
    /// detected.
    pub fn forced(self) -> (r: Option<bool>)
        ensures
            r == forced_to(self),
            r == match self {
                Color::Always => Some(true),
                Color::Never => Some(false),
                Color::Auto => None::<bool>,
            },
    {
        match self {
            Color::Always => Some(true),
            Color::Never => Some(false),
            Color::Auto => None,
        }
    }
}

/// Why a run cannot start.
pub enum SetupError {
    /// Not every host has its port, or not every port its host.
    HostPortMismatch { hosts: usize, ports: usize },
    /// An external engine has been chosen without the command that starts it.
    MissingCommandTemplate,
    /// The patterns match no file.
    NoTestCase,
}

/// What is said of the error.
pub open spec fn setup_error_text(error: SetupError) -> Seq<char> {
    match error {
        SetupError::HostPortMismatch { hosts, ports } => crate::text::decimal(hosts as nat)
            + " hosts are provided while "@ + crate::text::decimal(ports as nat)
            + " ports are provided"@,
        SetupError::MissingCommandTemplate =>
            "`--external-engine-command-template` is required for `--engine=external`"@,
        SetupError::NoTestCase => "no test case found"@,
    }
}

impl SetupError {
    /// What is said of the error.
    pub fn message(&self) -> (r: String)
        ensures
            r@ == setup_error_text(*self),
    {
        match self {
            SetupError::HostPortMismatch { hosts, ports } => {
                let mut r = to_decimal(*hosts as u64);
                r.append(" hosts are provided while ");
                r.append(to_decimal(*ports as u64).as_str());
                r.append(" ports are provided");
                r
            },
            SetupError::MissingCommandTemplate =>
                "`--external-engine-command-template` is required for `--engine=external`".to_owned(),
            SetupError::NoTestCase => "no test case found".to_owned(),
        }
    }
}

/// Each host with the port at the same place.
pub open spec fn paired(host: Seq<String>, port: Seq<u16>) -> Seq<(String, u16)> {
    Seq::new(host.len(), |i: int| (host[i], port[i]))
}

/// Pairs each host with the port at the same place.
pub fn pair_addrs(host: &Vec<String>, port: &Vec<u16>) -> (r: Result<
    Vec<(String, u16)>,
    SetupError,
>)
    ensures
        r matches Ok(addrs) ==> addrs@ == paired(host@, port@),
        match r {
            Ok(addrs) => host@.len() == port@.len() && addrs@ == Seq::new(
                host@.len(),
                |i: int| (host@[i], port@[i]),
            ),
            Err(error) => host@.len() != port@.len() && error == (SetupError::HostPortMismatch {
                hosts: host@.len() as usize,
                ports: port@.len() as usize,
            }),
        },
{
    if host.len() != port.len() {
        return Err(SetupError::HostPortMismatch { hosts: host.len(), ports: port.len() });
    }
    let mut addrs: Vec<(String, u16)> = Vec::new();
    let mut i: usize = 0;
    while i < host.len()
        invariant
            host@.len() == port@.len(),
            i <= host@.len(),
            addrs@ == Seq::new(i as nat, |j: int| (host@[j], port@[j])),
        decreases host@.len() - i,
    {
        addrs.push((host[i].clone(), port[i]));
        assert(addrs@ =~= Seq::new((i + 1) as nat, |j: int| (host@[j], port@[j])));
        i += 1;
    }
    Ok(addrs)
}

/// The engine with what it needs.
pub open spec fn engine_for(engine: EngineType, template: Option<String>) -> Result<
    EngineConfig,
    SetupError,
> {
    match engine {
        EngineType::Mysql => Ok(EngineConfig::MySql),
        EngineType::Postgres => Ok(EngineConfig::Postgres),
        EngineType::PostgresExtended => Ok(EngineConfig::PostgresExtended),
        EngineType::External => match template {
            Some(template) => Ok(EngineConfig::External(template)),
            None => Err(SetupError::MissingCommandTemplate),
        },
    }
}

/// The engine with what it needs; only an external engine needs a command template.
pub fn select_engine(engine: EngineType, template: Option<String>) -> (r: Result<
    EngineConfig,
    SetupError,
>)
    ensures
        r == engine_for(engine, template),
        r == match engine {
            EngineType::Mysql => Ok::<EngineConfig, SetupError>(EngineConfig::MySql),
            EngineType::Postgres => Ok(EngineConfig::Postgres),
            EngineType::PostgresExtended => Ok(EngineConfig::PostgresExtended),
            EngineType::External => match template {
                Some(template) => Ok(EngineConfig::External(template)),
                None => Err(SetupError::MissingCommandTemplate),
            },
        },
{
    match engine {
        EngineType::Mysql => Ok(EngineConfig::MySql),
        EngineType::Postgres => Ok(EngineConfig::Postgres),
        EngineType::PostgresExtended => Ok(EngineConfig::PostgresExtended),
        EngineType::External => match template {
            Some(template) => Ok(EngineConfig::External(template)),
            None => Err(SetupError::MissingCommandTemplate),
        },
    }
}

/// The addresses and the engine that the command line asks for. Addresses that do not pair up
/// are reported before an engine that lacks its command.
pub fn prepare(
    host: &Vec<String>,
    port: &Vec<u16>,
    engine: EngineType,
    template: Option<String>,
) -> (r: Result<(Vec<(String, u16)>, EngineConfig), SetupError>)
    ensures
        match r {
            Ok((addrs, config)) => {
                &&& host@.len() == port@.len()
                &&& addrs@ == Seq::new(host@.len(), |i: int| (host@[i], port@[i]))
                &&& match engine {
                    EngineType::Mysql => config == EngineConfig::MySql,
                    EngineType::Postgres => config == EngineConfig::Postgres,
                    EngineType::PostgresExtended => config == EngineConfig::PostgresExtended,
                    EngineType::External => template is Some && config == EngineConfig::External(
                        template->0,
                    ),
                }
            },
            Err(error) => if host@.len() != port@.len() {
                error == (SetupError::HostPortMismatch {
                    hosts: host@.len() as usize,
                    ports: port@.len() as usize,
                })
            } else {
                engine == EngineType::External && template is None && error
                    == SetupError::MissingCommandTemplate
            },
        },
{
    match pair_addrs(host, port) {
        Err(error) => Err(error),
        Ok(addrs) => match select_engine(engine, template) {
            Err(error) => Err(error),
            Ok(config) => Ok((addrs, config)),
        },
    }
}

/// What a run does with the test files.
pub enum RunMode {
    /// Rewrites them, with what the database gives or, where `format` is set, without
    /// running anything.
    Update { format: bool },
    /// Runs up to `jobs` of them at a time, each in a database of its own.
    Parallel { jobs: usize },
    /// Runs them one by one.
    Serial,
}

/// What to do with `files` test files.
pub open spec fn mode_for(
    files: usize,
    override_files: bool,
    format: bool,
    jobs: Option<usize>,
) -> Result<RunMode, SetupError> {
    if files == 0 {
        Err(SetupError::NoTestCase)
    } else if override_files || format {
        Ok(RunMode::Update { format })
    } else {
        match jobs {
            Some(jobs) => Ok(RunMode::Parallel { jobs }),
            None => Ok(RunMode::Serial),
        }
    }
}

/// Decides what to do with `files` test files.
pub fn run_mode(files: usize, override_files: bool, format: bool, jobs: Option<usize>) -> (r:
    Result<RunMode, SetupError>)
    ensures
        r == mode_for(files, override_files, format, jobs),
        r == (if files == 0 {
            Err::<RunMode, SetupError>(SetupError::NoTestCase)
        } else if override_files || format {
            Ok(RunMode::Update { format })
        } else {
            match jobs {
                Some(jobs) => Ok(RunMode::Parallel { jobs }),
                None => Ok(RunMode::Serial),
            }
        }),
{
    if files == 0 {
        Err(SetupError::NoTestCase)
    } else if override_files || format {
        Ok(RunMode::Update { format })
    } else {
        match jobs {
            Some(jobs) => Ok(RunMode::Parallel { jobs }),
            None => Ok(RunMode::Serial),
        }
    }
}

/// What is said of addresses that do not pair up names how many hosts and how many ports there
/// are, in this order; the other errors are told in words of their own.
pub proof fn law_setup_errors_say_what_is_wrong(error: SetupError) -> (numbers: (
    Seq<char>,
    Seq<char>,
))
    ensures
        error matches SetupError::HostPortMismatch { hosts, ports } ==> {
            &&& setup_error_text(error) == numbers.0 + " hosts are provided while "@ + numbers.1
                + " ports are provided"@
            &&& crate::text::number_of(numbers.0) == hosts
            &&& crate::text::number_of(numbers.1) == ports
        },
        error is MissingCommandTemplate ==> setup_error_text(error)
            == "`--external-engine-command-template` is required for `--engine=external`"@,
        error is NoTestCase ==> setup_error_text(error) == "no test case found"@,
{
    match error {
        SetupError::HostPortMismatch { hosts, ports } => {
            crate::text::law_numerals_read_back(hosts as nat);
            crate::text::law_numerals_read_back(ports as nat);
            (crate::text::decimal(hosts as nat), crate::text::decimal(ports as nat))
        },
        _ => (Seq::empty(), Seq::empty()),
    }
}

/// What has a bearing on what is done with the files: none without files; where they are to be
/// rewritten, whether they are only reformatted; else only how many jobs are asked for.
pub proof fn law_modes_follow_the_command_line(
    files: usize,
    override_files: bool,
    format: bool,
    jobs: Option<usize>,
    other_jobs: Option<usize>,
)
    ensures
        mode_for(files, override_files, format, jobs) is Err <==> files == 0,
        mode_for(0, override_files, format, jobs) == Err::<RunMode, SetupError>(
            SetupError::NoTestCase,
        ),
        files > 0 ==> {
            let mode = mode_for(files, override_files, format, jobs)->Ok_0;
            &&& mode is Update <==> override_files || format
            &&& mode matches RunMode::Update { format: only } ==> only == format && mode
                == mode_for(files, override_files, format, other_jobs)->Ok_0
            &&& !(mode is Update) ==> (mode is Parallel <==> jobs is Some)
            &&& mode matches RunMode::Parallel { jobs: n } ==> jobs == Some(n)
            &&& !(mode is Update) ==> (mode is Serial <==> jobs is None)
        },
{
}

/// Only an external engine depends on the command template, which it takes over as it is and
/// without which it fails; every other engine is the one that was chosen.
pub proof fn law_only_external_engines_need_a_template(
    engine: EngineType,
    template: Option<String>,
    other: Option<String>,
)
    ensures
        engine != EngineType::External ==> engine_for(engine, template) is Ok && engine_for(
            engine,
            template,
        ) == engine_for(engine, other),
        engine == EngineType::External ==> (engine_for(engine, template) is Ok <==> template is Some),
        engine == EngineType::External && template is Some ==> engine_for(engine, template)->Ok_0
            == EngineConfig::External(template->0),
        engine_for(engine, template) matches Ok(config) ==> {
            &&& config is MySql <==> engine == EngineType::Mysql
            &&& config is Postgres <==> engine == EngineType::Postgres
            &&& config is PostgresExtended <==> engine == EngineType::PostgresExtended
            &&& config is External <==> engine == EngineType::External
        },
        engine_for(engine, template) matches Err(error) ==> error is MissingCommandTemplate,
{
}

/// Every address is a host with the port at its own place, and all of them are there.
pub proof fn law_addresses_keep_their_places(host: Seq<String>, port: Seq<u16>, i: int)
    requires
        host.len() == port.len(),
        0 <= i < host.len(),
    ensures
        paired(host, port).len() == host.len(),
        paired(host, port)[i].0 == host[i],
        paired(host, port)[i].1 == port[i],
{
}

/// The colour setting is forced exactly where it is not to be detected, and on exactly where
/// colours are always wanted.
pub proof fn law_colours_are_forced_unless_detected(color: Color)
    ensures
        forced_to(color) is None <==> color == Color::Auto,
        forced_to(color) == Some(true) <==> color == Color::Always,
        forced_to(color) == Some(false) <==> color == Color::Never,
{
}

}
