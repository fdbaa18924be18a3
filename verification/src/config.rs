//! The server's command line: `-p port -x width -y height -n name1 name2 ...
//! -c clientsNb -f freq`.
use vstd::prelude::*;

use crate::text::{parse_bounded, starts_with_char, str_eq, unsigned_text};

verus! {

/// The exit status for a bad command line or a failed start.
pub const EXIT_USAGE: i32 = 84;

/// The help text.
pub const USAGE: &'static str = "USAGE: ./zappy_server -p port -x width -y height -n name1 name2 ... -c clientsNb -f freq\n\noption\t\tdescription\n-p port\t\tport number\n-x width\t\twidth of the world\n-y height\theight of the world\n-n name1 name2 ...\tname of the team\n-c clientsNb\tnumber of authorized clients per team\n-f freq\t\treciprocal of time unit for execution of actions\n";

/// A complete, valid server configuration.
#[derive(Debug, Clone, PartialEq, Eq)]
pub struct ServerConfig {
    pub port: u16,
    pub width: usize,
    pub height: usize,
    pub teams: Vec<String>,
    pub clients_per_team: usize,
    pub frequency: u32,
}

/// Why a command line was refused.
#[derive(Debug, Clone, PartialEq, Eq)]
pub enum ConfigError {
    MissingValue { flag: &'static str },
    UnknownFlag(String),
    MissingFlag(&'static str),
    InvalidValue { flag: &'static str, value: String },
    NoTeams,
    EmptyTeamName,
}

/// The value of a `ServerConfig`, with its team names taken as text.
pub struct ServerConfigView {
    pub port: u16,
    pub width: usize,
    pub height: usize,
    pub teams: Seq<Seq<char>>,
    pub clients_per_team: usize,
    pub frequency: u32,
}

/// The value of a `ConfigError`, with its texts taken as characters.
pub enum ConfigErrorView {
    MissingValue { flag: Seq<char> },
    UnknownFlag(Seq<char>),
    MissingFlag(Seq<char>),
    InvalidValue { flag: Seq<char>, value: Seq<char> },
    NoTeams,
    EmptyTeamName,
}

impl View for ServerConfig {
    type V = ServerConfigView;

    open spec fn view(&self) -> ServerConfigView {
        ServerConfigView {
            port: self.port,
            width: self.width,
            height: self.height,
            teams: self.teams@.map_values(|t: String| t@),
            clients_per_team: self.clients_per_team,
            frequency: self.frequency,
        }
    }
}

impl View for ConfigError {
    type V = ConfigErrorView;

    open spec fn view(&self) -> ConfigErrorView {
        match self {
            ConfigError::MissingValue { flag } => ConfigErrorView::MissingValue { flag: flag@ },
            ConfigError::UnknownFlag(f) => ConfigErrorView::UnknownFlag(f@),
            ConfigError::MissingFlag(f) => ConfigErrorView::MissingFlag(f@),
            ConfigError::InvalidValue { flag, value } => ConfigErrorView::InvalidValue {
                flag: flag@,
                value: value@,
            },
            ConfigError::NoTeams => ConfigErrorView::NoTeams,
            ConfigError::EmptyTeamName => ConfigErrorView::EmptyTeamName,
        }
    }
}

/// The message that a refused command line is reported with.
pub open spec fn error_message(e: ConfigErrorView) -> Seq<char> {
    match e {
        ConfigErrorView::MissingValue { flag } => "missing value for "@ + flag,
        ConfigErrorView::UnknownFlag(flag) => "unknown argument: "@ + flag,
        ConfigErrorView::MissingFlag(flag) => "missing required argument: "@ + flag,
        ConfigErrorView::InvalidValue { flag, value } => "invalid value for "@ + flag + ": "@
            + value,
        ConfigErrorView::NoTeams => "at least one team name is required after -n"@,
        ConfigErrorView::EmptyTeamName => "team name cannot be empty"@,
    }
}

impl ConfigError {
    /// The message that the error is reported with.
    pub fn message(&self) -> (m: String)
        ensures
            m@ == error_message(self@),
    {
        match self {
            ConfigError::MissingValue { flag } => {
                let mut m = String::from_str("missing value for ");
                m.append(flag);
                m
            },
            ConfigError::UnknownFlag(flag) => {
                let mut m = String::from_str("unknown argument: ");
                m.append(flag.as_str());
                m
            },
            ConfigError::MissingFlag(flag) => {
                let mut m = String::from_str("missing required argument: ");
                m.append(flag);
                m
            },
            ConfigError::InvalidValue { flag, value } => {
                let mut m = String::from_str("invalid value for ");
                m.append(flag);
                m.append(": ");
                m.append(value.as_str());
                m
            },
            ConfigError::NoTeams => String::from_str("at least one team name is required after -n"),
            ConfigError::EmptyTeamName => String::from_str("team name cannot be empty"),
        }
    }
}

/// The settings gathered so far while the command line is read.
pub struct ArgsScan {
    pub port: Option<u16>,
    pub width: Option<usize>,
    pub height: Option<usize>,
    pub teams: Seq<Seq<char>>,
    pub clients: Option<usize>,
    pub frequency: Option<u32>,
}

/// Nothing read yet.
pub open spec fn scan_start() -> ArgsScan {
    ArgsScan {
        port: None,
        width: None,
        height: None,
        teams: Seq::empty(),
        clients: None,
        frequency: None,
    }
}

/// A port number: a number from 1 to 65535.
pub open spec fn port_value(value: Seq<char>) -> Result<u16, ConfigErrorView> {
    match unsigned_text(value) {
        Some(v) => if 1 <= v <= 65535 {
            Ok(v as u16)
        } else {
            Err(ConfigErrorView::InvalidValue { flag: "-p"@, value })
        },
        None => Err(ConfigErrorView::InvalidValue { flag: "-p"@, value }),
    }
}

/// A positive number that fits in `usize`.
pub open spec fn positive_usize_value(value: Seq<char>, flag: Seq<char>) -> Result<
    usize,
    ConfigErrorView,
> {
    match unsigned_text(value) {
        Some(v) => if 1 <= v <= usize::MAX {
            Ok(v as usize)
        } else {
            Err(ConfigErrorView::InvalidValue { flag, value })
        },
        None => Err(ConfigErrorView::InvalidValue { flag, value }),
    }
}

/// A positive number that fits in `u32`.
pub open spec fn positive_u32_value(value: Seq<char>, flag: Seq<char>) -> Result<
    u32,
    ConfigErrorView,
> {
    match unsigned_text(value) {
        Some(v) => if 1 <= v <= u32::MAX {
            Ok(v as u32)
        } else {
            Err(ConfigErrorView::InvalidValue { flag, value })
        },
        None => Err(ConfigErrorView::InvalidValue { flag, value }),
    }
}

/// Whether an argument starts with `-`, which ends a list of team names.
pub open spec fn is_flag_like(arg: Seq<char>) -> bool {
    arg.len() > 0 && arg[0] == '-'
}

/// Reads `args` from position `i` on, with `st` gathered so far; the
/// frequency may be given after `-f` or after `-t`. In
/// `mode` 0 a flag is expected; in modes 1 and 2 team names are read after
/// `-n` (2 once at least one was read).
pub open spec fn scan(args: Seq<Seq<char>>, i: int, st: ArgsScan, mode: int) -> Result<
    ArgsScan,
    ConfigErrorView,
>
    decreases args.len() - i, mode,
    when 0 <= i <= args.len() && 0 <= mode <= 2
{
    if mode != 0 {
        if i < args.len() && !is_flag_like(args[i]) {
            if args[i].len() == 0 {
                Err(ConfigErrorView::EmptyTeamName)
            } else {
                scan(args, i + 1, ArgsScan { teams: st.teams.push(args[i]), ..st }, 2)
            }
        } else if mode == 1 {
            Err(ConfigErrorView::NoTeams)
        } else {
            scan(args, i, st, 0)
        }
    } else if i >= args.len() {
        Ok(st)
    } else if args[i] == "-n"@ {
        scan(args, i + 1, st, 1)
    } else if args[i] == "-p"@ || args[i] == "-x"@ || args[i] == "-y"@ || args[i] == "-c"@
        || args[i] == "-f"@ || args[i] == "-t"@ {
        if i + 1 >= args.len() {
            Err(ConfigErrorView::MissingValue { flag: args[i] })
        } else {
            let value = args[i + 1];
            if args[i] == "-p"@ {
                match port_value(value) {
                    Ok(p) => scan(args, i + 2, ArgsScan { port: Some(p), ..st }, 0),
                    Err(e) => Err(e),
                }
            } else if args[i] == "-f"@ || args[i] == "-t"@ {
                match positive_u32_value(value, args[i]) {
                    Ok(f) => scan(args, i + 2, ArgsScan { frequency: Some(f), ..st }, 0),
                    Err(e) => Err(e),
                }
            } else {
                match positive_usize_value(value, args[i]) {
                    Ok(n) => if args[i] == "-x"@ {
                        scan(args, i + 2, ArgsScan { width: Some(n), ..st }, 0)
                    } else if args[i] == "-y"@ {
                        scan(args, i + 2, ArgsScan { height: Some(n), ..st }, 0)
                    } else {
                        scan(args, i + 2, ArgsScan { clients: Some(n), ..st }, 0)
                    },
                    Err(e) => Err(e),
                }
            }
        }
    } else {
        Err(ConfigErrorView::UnknownFlag(args[i]))
    }
}

/// The configuration from what was gathered, or the first setting that is
/// missing, in the order `-p -x -y -n -c -f`.
pub open spec fn finish_scan(st: ArgsScan) -> Result<ServerConfigView, ConfigErrorView> {
    if st.port is None {
        Err(ConfigErrorView::MissingFlag("-p"@))
    } else if st.width is None {
        Err(ConfigErrorView::MissingFlag("-x"@))
    } else if st.height is None {
        Err(ConfigErrorView::MissingFlag("-y"@))
    } else if st.teams.len() == 0 {
        Err(ConfigErrorView::MissingFlag("-n"@))
    } else if st.clients is None {
        Err(ConfigErrorView::MissingFlag("-c"@))
    } else if st.frequency is None {
        Err(ConfigErrorView::MissingFlag("-f"@))
    } else {
        Ok(
            ServerConfigView {
                port: st.port->0,
                width: st.width->0,
                height: st.height->0,
                teams: st.teams,
                clients_per_team: st.clients->0,
                frequency: st.frequency->0,
            },
        )
    }
}

/// What a command line (program name first) configures, or why it is
/// refused.
pub open spec fn parse_args_spec(args: Seq<Seq<char>>) -> Result<
    ServerConfigView,
    ConfigErrorView,
> {
    if args.len() <= 1 {
        finish_scan(scan_start())
    } else {
        match scan(args, 1, scan_start(), 0) {
            Ok(st) => finish_scan(st),
            Err(e) => Err(e),
        }
    }
}

/// The texts of a list of strings.
pub open spec fn texts(v: Seq<String>) -> Seq<Seq<char>> {
    v.map_values(|t: String| t@)
}

/// The state gathered from the values read so far.
pub open spec fn scan_state(
    port: Option<u16>,
    width: Option<usize>,
    height: Option<usize>,
    teams: Seq<String>,
    clients: Option<usize>,
    frequency: Option<u32>,
) -> ArgsScan {
    ArgsScan { port, width, height, teams: texts(teams), clients, frequency }
}

/// Reads the whole command line, `args[0]` being the program's name.
pub fn parse_args(args: Vec<String>) -> (r: Result<ServerConfig, ConfigError>)
    ensures
        match (r, parse_args_spec(texts(args@))) {
            (Ok(c), Ok(v)) => c@ == v,
            (Err(e), Err(v)) => e@ == v,
            _ => false,
        },
{
    let ghost a = texts(args@);
    let mut port: Option<u16> = None;
    let mut width: Option<usize> = None;
    let mut height: Option<usize> = None;
    let mut teams: Vec<String> = Vec::new();
    let mut clients_per_team: Option<usize> = None;
    let mut frequency: Option<u32> = None;
    assert(texts(teams@) =~= Seq::<Seq<char>>::empty());
    if args.len() > 1 {
        let mut i: usize = 1;
        while i < args.len()
            invariant
                1 <= i <= args.len(),
                a == texts(args@),
                a.len() == args@.len(),
                scan(a, 1, scan_start(), 0) == scan(
                    a,
                    i as int,
                    scan_state(port, width, height, teams@, clients_per_team, frequency),
                    0,
                ),
            decreases args.len() - i,
        {
            let ghost st = scan_state(port, width, height, teams@, clients_per_team, frequency);
            assert(a[i as int] == args@[i as int]@);
            if str_eq(args[i].as_str(), "-n") {
                assert(scan(a, i as int, st, 0) == scan(a, i + 1, st, 1));
                let ghost i_flag = i;
                i = i + 1;
                let mut found = false;
                while i < args.len() && !starts_with_char(args[i].as_str(), '-')
                    invariant
                        1 <= i <= args.len(),
                        i > i_flag,
                        a == texts(args@),
                        a.len() == args@.len(),
                        scan(a, 1, scan_start(), 0) == scan(
                            a,
                            i as int,
                            scan_state(port, width, height, teams@, clients_per_team, frequency),
                            if found {
                                2
                            } else {
                                1
                            },
                        ),
                    decreases args.len() - i,
                {
                    assert(a[i as int] == args@[i as int]@);
                    if args[i].as_str().unicode_len() == 0 {
                        return Err(ConfigError::EmptyTeamName);
                    }
                    let name = args[i].clone();
                    let ghost before = teams@;
                    teams.push(name);
                    assert(texts(teams@) =~= texts(before).push(a[i as int]));
                    found = true;
                    i = i + 1;
                }
                if i < args.len() {
                    assert(a[i as int] == args@[i as int]@);
                }
                if !found {
                    return Err(ConfigError::NoTeams);
                }
                continue ;
            } else if str_eq(args[i].as_str(), "-p") || str_eq(args[i].as_str(), "-x") || str_eq(
                args[i].as_str(),
                "-y",
            ) || str_eq(args[i].as_str(), "-c") || str_eq(args[i].as_str(), "-f") || str_eq(
                args[i].as_str(),
                "-t",
            ) {
                let flag: &'static str = if str_eq(args[i].as_str(), "-p") {
                    "-p"
                } else if str_eq(args[i].as_str(), "-x") {
                    "-x"
                } else if str_eq(args[i].as_str(), "-y") {
                    "-y"
                } else if str_eq(args[i].as_str(), "-c") {
                    "-c"
                } else if str_eq(args[i].as_str(), "-f") {
                    "-f"
                } else {
                    "-t"
                };
                assert(flag@ == a[i as int]);
                let value = match next_value(&args, &mut i, flag) {
                    Ok(v) => v,
                    Err(e) => {
                        return Err(e);
                    },
                };
                assert(value@ == a[i as int]);
                if str_eq(flag, "-p") {
                    match parse_port(value) {
                        Ok(p) => {
                            port = Some(p);
                        },
                        Err(e) => {
                            return Err(e);
                        },
                    }
                } else if str_eq(flag, "-f") || str_eq(flag, "-t") {
                    match parse_positive_u32(value, flag) {
                        Ok(f) => {
                            frequency = Some(f);
                        },
                        Err(e) => {
                            return Err(e);
                        },
                    }
                } else {
                    match parse_positive_usize(value, flag) {
                        Ok(n) => {
                            if str_eq(flag, "-x") {
                                width = Some(n);
                            } else if str_eq(flag, "-y") {
                                height = Some(n);
                            } else {
                                clients_per_team = Some(n);
                            }
                        },
                        Err(e) => {
                            return Err(e);
                        },
                    }
                }
            } else {
                return Err(ConfigError::UnknownFlag(args[i].clone()));
            }
            i = i + 1;
        }
    }
    let ghost st = scan_state(port, width, height, teams@, clients_per_team, frequency);
    let p = match port {
        Some(p) => p,
        None => {
            return Err(ConfigError::MissingFlag("-p"));
        },
    };
    let w = match width {
        Some(w) => w,
        None => {
            return Err(ConfigError::MissingFlag("-x"));
        },
    };
    let h = match height {
        Some(h) => h,
        None => {
            return Err(ConfigError::MissingFlag("-y"));
        },
    };
    if teams.len() == 0 {
        return Err(ConfigError::MissingFlag("-n"));
    }
    let c = match clients_per_team {
        Some(c) => c,
        None => {
            return Err(ConfigError::MissingFlag("-c"));
        },
    };
    let f = match frequency {
        Some(f) => f,
        None => {
            return Err(ConfigError::MissingFlag("-f"));
        },
    };
    Ok(ServerConfig { port: p, width: w, height: h, teams, clients_per_team: c, frequency: f })
}

/// Moves `index` to the value that follows a flag and returns that value.
pub fn next_value(args: &[String], index: &mut usize, flag: &'static str) -> (r: Result<
    String,
    ConfigError,
>)
    requires
        *old(index) < args@.len(),
    ensures
        *final(index) == *old(index) + 1,
        match r {
            Ok(v) => *final(index) < args@.len() && v@ == args@[*final(index) as int]@,
            Err(e) => *final(index) >= args@.len() && e@ == (ConfigErrorView::MissingValue {
                flag: flag@,
            }),
        },
{
    let n = args.len();
    *index = *index + 1;
    if *index < n {
        Ok(args[*index].clone())
    } else {
        Err(ConfigError::MissingValue { flag })
    }
}

/// Reads a port number.
pub fn parse_port(value: String) -> (r: Result<u16, ConfigError>)
    ensures
        match (r, port_value(value@)) {
            (Ok(p), Ok(q)) => p == q,
            (Err(e), Err(v)) => e@ == v,
            _ => false,
        },
{
    match parse_bounded(value.as_str(), 4294967295usize) {
        Some(port) => {
            if port == 0 || port > 65535 {
                return Err(ConfigError::InvalidValue { flag: "-p", value });
            }
            Ok(port as u16)
        },
        None => Err(ConfigError::InvalidValue { flag: "-p", value }),
    }
}

/// Reads a positive number for `flag`.
pub fn parse_positive_usize(value: String, flag: &'static str) -> (r: Result<usize, ConfigError>)
    ensures
        match (r, positive_usize_value(value@, flag@)) {
            (Ok(n), Ok(m)) => n == m,
            (Err(e), Err(v)) => e@ == v,
            _ => false,
        },
{
    match parse_bounded(value.as_str(), usize::MAX) {
        Some(n) => {
            if n == 0 {
                return Err(ConfigError::InvalidValue { flag, value });
            }
            Ok(n)
        },
        None => Err(ConfigError::InvalidValue { flag, value }),
    }
}

/// Reads a positive number that fits in `u32` for `flag`.
pub fn parse_positive_u32(value: String, flag: &'static str) -> (r: Result<u32, ConfigError>)
    ensures
        match (r, positive_u32_value(value@, flag@)) {
            (Ok(n), Ok(m)) => n == m,
            (Err(e), Err(v)) => e@ == v,
            _ => false,
        },
{
    match parse_bounded(value.as_str(), 4294967295usize) {
        Some(n) => {
            if n == 0 {
                return Err(ConfigError::InvalidValue { flag, value });
            }
            Ok(n as u32)
        },
        None => Err(ConfigError::InvalidValue { flag, value }),
    }
}

} // verus!
