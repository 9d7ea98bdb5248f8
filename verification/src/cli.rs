//! The command line.

use crate::gpu::opt_text;
use crate::text::{decimal, joined, parse_u32, same_text, texts, u32_value};
use vstd::prelude::*;

verus! {

/// The bitrate where none is given, in kilobits per second.
pub const DEFAULT_BITRATE: u32 = 50_000;

/// The framerate where none is given, in frames per second.
pub const DEFAULT_FRAMERATE: u32 = 120;

/// What the agent is started with.
#[derive(Debug, Clone, PartialEq, Eq)]
pub struct Args {
    pub display: String,
    pub server_url: String,
    /// The session's UUID, as a number.
    pub session_id: u128,
    pub agent_token: Option<String>,
    pub tls_cert_path: Option<String>,
    pub width: u32,
    pub height: u32,
    pub framerate: u32,
    pub bitrate: u32,
    pub encoder: Option<String>,
    pub max_width: u32,
    pub max_height: u32,
    pub gpu_driver: String,
    pub display_start: u32,
}

/// What a command line asks for.
#[derive(Debug, Clone, PartialEq, Eq)]
pub enum ArgsOutcome {
    /// Start with these settings.
    Run(Args),
    /// Print the version, then exit successfully.
    PrintVersion,
    /// Print the help text, then exit successfully.
    PrintHelp,
}

/// The settings of a command line, as plain values. The session may be missing.
pub struct Settings {
    pub display: Seq<char>,
    pub server_url: Seq<char>,
    pub session_id: Option<u128>,
    pub agent_token: Option<Seq<char>>,
    pub tls_cert_path: Option<Seq<char>>,
    pub width: u32,
    pub height: u32,
    pub framerate: u32,
    pub bitrate: u32,
    pub encoder: Option<Seq<char>>,
    pub max_width: u32,
    pub max_height: u32,
    pub gpu_driver: Seq<char>,
    pub display_start: u32,
}

/// The settings of an empty command line.
pub open spec fn default_settings() -> Settings {
    Settings {
        display: ":0"@,
        server_url: Seq::empty(),
        session_id: None,
        agent_token: None,
        tls_cert_path: None,
        width: 1920,
        height: 1080,
        framerate: DEFAULT_FRAMERATE,
        bitrate: DEFAULT_BITRATE,
        encoder: None,
        max_width: 3840,
        max_height: 2160,
        gpu_driver: "auto"@,
        display_start: 10,
    }
}

/// The options that take a text.
#[derive(Debug, Clone, Copy, PartialEq, Eq, Structural)]
pub enum TextOption {
    Display,
    ServerUrl,
    AgentToken,
    TlsCert,
    Encoder,
    GpuDriver,
}

/// The options that take a number.
#[derive(Debug, Clone, Copy, PartialEq, Eq, Structural)]
pub enum NumberOption {
    Width,
    Height,
    Framerate,
    Bitrate,
    MaxWidth,
    MaxHeight,
    DisplayStart,
}

/// What an argument in the place of an option is.
#[derive(Debug, Clone, Copy, PartialEq, Eq, Structural)]
pub enum Flag {
    Version,
    Help,
    SessionId,
    Text(TextOption),
    Number(NumberOption),
    Unknown,
}

/// What an argument in the place of an option is.
pub open spec fn flag_of(arg: Seq<char>) -> Flag {
    if arg == "-V"@ || arg == "--version"@ {
        Flag::Version
    } else if arg == "-h"@ || arg == "--help"@ {
        Flag::Help
    } else if arg == "--session-id"@ {
        Flag::SessionId
    } else if arg == "--display"@ {
        Flag::Text(TextOption::Display)
    } else if arg == "--server-url"@ {
        Flag::Text(TextOption::ServerUrl)
    } else if arg == "--agent-token"@ {
        Flag::Text(TextOption::AgentToken)
    } else if arg == "--tls-cert"@ {
        Flag::Text(TextOption::TlsCert)
    } else if arg == "--encoder"@ {
        Flag::Text(TextOption::Encoder)
    } else if arg == "--gpu-driver"@ {
        Flag::Text(TextOption::GpuDriver)
    } else if arg == "--width"@ {
        Flag::Number(NumberOption::Width)
    } else if arg == "--height"@ {
        Flag::Number(NumberOption::Height)
    } else if arg == "--framerate"@ {
        Flag::Number(NumberOption::Framerate)
    } else if arg == "--bitrate"@ {
        Flag::Number(NumberOption::Bitrate)
    } else if arg == "--max-width"@ {
        Flag::Number(NumberOption::MaxWidth)
    } else if arg == "--max-height"@ {
        Flag::Number(NumberOption::MaxHeight)
    } else if arg == "--display-start"@ {
        Flag::Number(NumberOption::DisplayStart)
    } else {
        Flag::Unknown
    }
}

/// The settings with a text option set.
pub open spec fn with_text(st: Settings, option: TextOption, value: Seq<char>) -> Settings {
    match option {
        TextOption::Display => Settings { display: value, ..st },
        TextOption::ServerUrl => Settings { server_url: value, ..st },
        TextOption::AgentToken => Settings { agent_token: Some(value), ..st },
        TextOption::TlsCert => Settings { tls_cert_path: Some(value), ..st },
        TextOption::Encoder => Settings { encoder: Some(value), ..st },
        TextOption::GpuDriver => Settings { gpu_driver: value, ..st },
    }
}

/// The settings with a number option set.
pub open spec fn with_number(st: Settings, option: NumberOption, value: u32) -> Settings {
    match option {
        NumberOption::Width => Settings { width: value, ..st },
        NumberOption::Height => Settings { height: value, ..st },
        NumberOption::Framerate => Settings { framerate: value, ..st },
        NumberOption::Bitrate => Settings { bitrate: value, ..st },
        NumberOption::MaxWidth => Settings { max_width: value, ..st },
        NumberOption::MaxHeight => Settings { max_height: value, ..st },
        NumberOption::DisplayStart => Settings { display_start: value, ..st },
    }
}

/// The number of a UUID in one of its textual forms, as `uuid::Uuid` reads it;
/// `None` where it refuses the text.
pub uninterp spec fn uuid_value(text: Seq<char>) -> Option<u128>;

/// `uuid::Uuid::parse_str`: the number of the UUID that a text spells; `None`
/// where it spells none. Which texts are UUIDs is named, not spelled out.
#[verifier::external_body]
fn parse_uuid(text: &str) -> (r: Option<u128>)
    ensures
        r == uuid_value(text@),
{
    uuid::Uuid::parse_str(text).ok().map(|id| id.as_u128())
}

/// How far a command line has been read.
pub enum Parsed {
    Run(Settings),
    Version,
    Help,
    Error(Seq<char>),
}

/// The settings with an option set, or why its value is refused. `session` is
/// the number of the value where it is a UUID.
pub open spec fn apply_option(
    st: Settings,
    arg: Seq<char>,
    value: Seq<char>,
    session: Option<u128>,
) -> Result<Settings, Seq<char>> {
    match flag_of(arg) {
        Flag::SessionId => match session {
            Some(id) => Ok(Settings { session_id: Some(id), ..st }),
            None => Err("Invalid session-id UUID"@),
        },
        Flag::Text(option) => Ok(with_text(st, option, value)),
        Flag::Number(option) => match u32_value(value, 10) {
            Some(n) => Ok(with_number(st, option, n)),
            None => Err("Invalid "@ + arg + " value"@),
        },
        _ => Err("Unknown argument: "@ + arg),
    }
}

/// Reads the options from the `i`-th argument on, on top of the settings `st`:
/// each takes the argument behind it as its value, and later ones win. `uuids`
/// holds the number of each argument that is a UUID.
pub open spec fn read_options(
    args: Seq<Seq<char>>,
    uuids: Seq<Option<u128>>,
    i: nat,
    st: Settings,
) -> Parsed
    decreases args.len() - i,
{
    if i >= args.len() {
        Parsed::Run(st)
    } else {
        match flag_of(args[i as int]) {
            Flag::Version => Parsed::Version,
            Flag::Help => Parsed::Help,
            Flag::Unknown => Parsed::Error("Unknown argument: "@ + args[i as int]),
            _ => if i + 1 >= args.len() {
                Parsed::Error("Missing "@ + args[i as int] + " value"@)
            } else {
                match apply_option(
                    st,
                    args[i as int],
                    args[i as int + 1],
                    uuids[i as int + 1],
                ) {
                    Ok(next) => read_options(args, uuids, i + 2, next),
                    Err(e) => Parsed::Error(e),
                }
            },
        }
    }
}

/// The settings once all options are read: the session is required, and the
/// token of the environment stands in for a missing one.
pub open spec fn finished(st: Settings, env_token: Option<Seq<char>>) -> Parsed {
    if st.session_id is None {
        Parsed::Error("--session-id is required"@)
    } else if st.agent_token is None {
        Parsed::Run(Settings { agent_token: env_token, ..st })
    } else {
        Parsed::Run(st)
    }
}

/// The settings of a whole command line, behind the program's name.
pub open spec fn command_line(
    args: Seq<Seq<char>>,
    uuids: Seq<Option<u128>>,
    env_token: Option<Seq<char>>,
) -> Parsed {
    match read_options(args, uuids, 1, default_settings()) {
        Parsed::Run(st) => finished(st, env_token),
        other => other,
    }
}

/// The settings while a command line is read.
struct Draft {
    display: String,
    server_url: String,
    session_id: Option<u128>,
    agent_token: Option<String>,
    tls_cert_path: Option<String>,
    width: u32,
    height: u32,
    framerate: u32,
    bitrate: u32,
    encoder: Option<String>,
    max_width: u32,
    max_height: u32,
    gpu_driver: String,
    display_start: u32,
}

impl View for Draft {
    type V = Settings;

    closed spec fn view(&self) -> Settings {
        Settings {
            display: self.display@,
            server_url: self.server_url@,
            session_id: self.session_id,
            agent_token: opt_text(self.agent_token),
            tls_cert_path: opt_text(self.tls_cert_path),
            width: self.width,
            height: self.height,
            framerate: self.framerate,
            bitrate: self.bitrate,
            encoder: opt_text(self.encoder),
            max_width: self.max_width,
            max_height: self.max_height,
            gpu_driver: self.gpu_driver@,
            display_start: self.display_start,
        }
    }
}

impl View for Args {
    type V = Settings;

    open spec fn view(&self) -> Settings {
        Settings {
            display: self.display@,
            server_url: self.server_url@,
            session_id: Some(self.session_id),
            agent_token: opt_text(self.agent_token),
            tls_cert_path: opt_text(self.tls_cert_path),
            width: self.width,
            height: self.height,
            framerate: self.framerate,
            bitrate: self.bitrate,
            encoder: opt_text(self.encoder),
            max_width: self.max_width,
            max_height: self.max_height,
            gpu_driver: self.gpu_driver@,
            display_start: self.display_start,
        }
    }
}

/// What an argument in the place of an option is.
fn classify_flag(arg: &str) -> (r: Flag)
    ensures
        r == flag_of(arg@),
{
    if same_text(arg, "-V") || same_text(arg, "--version") {
        Flag::Version
    } else if same_text(arg, "-h") || same_text(arg, "--help") {
        Flag::Help
    } else if same_text(arg, "--session-id") {
        Flag::SessionId
    } else if same_text(arg, "--display") {
        Flag::Text(TextOption::Display)
    } else if same_text(arg, "--server-url") {
        Flag::Text(TextOption::ServerUrl)
    } else if same_text(arg, "--agent-token") {
        Flag::Text(TextOption::AgentToken)
    } else if same_text(arg, "--tls-cert") {
        Flag::Text(TextOption::TlsCert)
    } else if same_text(arg, "--encoder") {
        Flag::Text(TextOption::Encoder)
    } else if same_text(arg, "--gpu-driver") {
        Flag::Text(TextOption::GpuDriver)
    } else if same_text(arg, "--width") {
        Flag::Number(NumberOption::Width)
    } else if same_text(arg, "--height") {
        Flag::Number(NumberOption::Height)
    } else if same_text(arg, "--framerate") {
        Flag::Number(NumberOption::Framerate)
    } else if same_text(arg, "--bitrate") {
        Flag::Number(NumberOption::Bitrate)
    } else if same_text(arg, "--max-width") {
        Flag::Number(NumberOption::MaxWidth)
    } else if same_text(arg, "--max-height") {
        Flag::Number(NumberOption::MaxHeight)
    } else if same_text(arg, "--display-start") {
        Flag::Number(NumberOption::DisplayStart)
    } else {
        Flag::Unknown
    }
}

impl Draft {
    fn new() -> (r: Self)
        ensures
            r@ == default_settings(),
    {
        Draft {
            display: ":0".to_owned(),
            server_url: String::new(),
            session_id: None,
            agent_token: None,
            tls_cert_path: None,
            width: 1920,
            height: 1080,
            framerate: DEFAULT_FRAMERATE,
            bitrate: DEFAULT_BITRATE,
            encoder: None,
            max_width: 3840,
            max_height: 2160,
            gpu_driver: "auto".to_owned(),
            display_start: 10,
        }
    }

    fn set_text(&mut self, option: TextOption, value: &str)
        ensures
            final(self)@ == with_text(old(self)@, option, value@),
    {
        let text: String = value.to_owned();
        match option {
            TextOption::Display => {
                self.display = text;
            },
            TextOption::ServerUrl => {
                self.server_url = text;
            },
            TextOption::AgentToken => {
                self.agent_token = Some(text);
            },
            TextOption::TlsCert => {
                self.tls_cert_path = Some(text);
            },
            TextOption::Encoder => {
                self.encoder = Some(text);
            },
            TextOption::GpuDriver => {
                self.gpu_driver = text;
            },
        }
    }

    fn set_number(&mut self, option: NumberOption, value: u32)
        ensures
            final(self)@ == with_number(old(self)@, option, value),
    {
        match option {
            NumberOption::Width => {
                self.width = value;
            },
            NumberOption::Height => {
                self.height = value;
            },
            NumberOption::Framerate => {
                self.framerate = value;
            },
            NumberOption::Bitrate => {
                self.bitrate = value;
            },
            NumberOption::MaxWidth => {
                self.max_width = value;
            },
            NumberOption::MaxHeight => {
                self.max_height = value;
            },
            NumberOption::DisplayStart => {
                self.display_start = value;
            },
        }
    }
}

/// Sets one option, or says why its value is refused. `session` is the number of
/// the value where it is a UUID.
fn set_option(draft: &mut Draft, arg: &str, value: &str, session: Option<u128>) -> (r: Result<
    (),
    String,
>)
    ensures
        match apply_option(old(draft)@, arg@, value@, session) {
            Ok(next) => r is Ok && final(draft)@ == next,
            Err(e) => r is Err && r->Err_0@ == e,
        },
{
    match classify_flag(arg) {
        Flag::SessionId => match session {
            Some(id) => {
                draft.session_id = Some(id);
                Ok(())
            },
            None => Err("Invalid session-id UUID".to_owned()),
        },
        Flag::Text(option) => {
            draft.set_text(option, value);
            Ok(())
        },
        Flag::Number(option) => match parse_u32(value, 10) {
            Some(n) => {
                draft.set_number(option, n);
                Ok(())
            },
            None => {
                let mut e: String = joined("Invalid ", arg);
                e.append(" value");
                Err(e)
            },
        },
        _ => Err(joined("Unknown argument: ", arg)),
    }
}

/// Whether an outcome is what was parsed.
pub open spec fn outcome_is(r: Result<ArgsOutcome, String>, parsed: Parsed) -> bool {
    match parsed {
        Parsed::Run(st) => r matches Ok(ArgsOutcome::Run(args)) && args@ == st,
        Parsed::Version => r == Ok::<ArgsOutcome, String>(ArgsOutcome::PrintVersion),
        Parsed::Help => r == Ok::<ArgsOutcome, String>(ArgsOutcome::PrintHelp),
        Parsed::Error(e) => r is Err && r->Err_0@ == e,
    }
}

fn finish(draft: Draft, env_token: Option<String>) -> (r: Result<ArgsOutcome, String>)
    ensures
        outcome_is(r, finished(draft@, opt_text(env_token))),
{
    match draft.session_id {
        Some(session_id) => {
            let agent_token: Option<String> = match draft.agent_token {
                Some(token) => Some(token),
                None => env_token,
            };
            Ok(
                ArgsOutcome::Run(
                    Args {
                        display: draft.display,
                        server_url: draft.server_url,
                        session_id,
                        agent_token,
                        tls_cert_path: draft.tls_cert_path,
                        width: draft.width,
                        height: draft.height,
                        framerate: draft.framerate,
                        bitrate: draft.bitrate,
                        encoder: draft.encoder,
                        max_width: draft.max_width,
                        max_height: draft.max_height,
                        gpu_driver: draft.gpu_driver,
                        display_start: draft.display_start,
                    },
                ),
            )
        },
        None => Err("--session-id is required".to_owned()),
    }
}

/// Parses a command line. The first argument is the program's name; `uuids`
/// holds the number of each argument that is a UUID. `env_token` is the agent
/// token of the environment, which other users cannot see as they can see
/// arguments; it is used where the command line gives none.
pub fn parse_args_with(
    args: &Vec<String>,
    uuids: &Vec<Option<u128>>,
    env_token: Option<String>,
) -> (r: Result<ArgsOutcome, String>)
    requires
        uuids@.len() == args@.len(),
    ensures
        outcome_is(r, command_line(texts(args@), uuids@, opt_text(env_token))),
{
    let ghost ts = texts(args@);
    let mut draft = Draft::new();
    let mut i: usize = 1;
    while i < args.len()
        invariant
            1 <= i,
            ts == texts(args@),
            uuids@.len() == args@.len(),
            i < args@.len() ==> i <= args.len(),
            read_options(ts, uuids@, 1, default_settings()) == read_options(
                ts,
                uuids@,
                i as nat,
                draft@,
            ),
        decreases args.len() - i,
    {
        let arg: &str = args[i].as_str();
        assert(ts[i as int] == arg@);
        match classify_flag(arg) {
            Flag::Version => {
                return Ok(ArgsOutcome::PrintVersion);
            },
            Flag::Help => {
                return Ok(ArgsOutcome::PrintHelp);
            },
            Flag::Unknown => {
                return Err(joined("Unknown argument: ", arg));
            },
            _ => {},
        }
        if args.len() - i < 2 {
            let mut e: String = joined("Missing ", arg);
            e.append(" value");
            return Err(e);
        }
        let value: &str = args[i + 1].as_str();
        assert(ts[i + 1] == value@);
        match set_option(&mut draft, arg, value, uuids[i + 1]) {
            Ok(()) => {},
            Err(e) => {
                return Err(e);
            },
        }
        if args.len() - i == 2 {
            assert(read_options(ts, uuids@, (i + 2) as nat, draft@) == Parsed::Run(draft@));
            return finish(draft, env_token);
        }
        i = i + 2;
    }
    finish(draft, env_token)
}

/// Parses a command line. The first argument is the program's name; `env_token`
/// is the agent token of the environment.
pub fn parse_args_from(args: &Vec<String>, env_token: Option<String>) -> (r: Result<
    ArgsOutcome,
    String,
>)
    ensures
        outcome_is(
            r,
            command_line(
                texts(args@),
                texts(args@).map_values(|arg: Seq<char>| uuid_value(arg)),
                opt_text(env_token),
            ),
        ),
{
    let ghost want = texts(args@).map_values(|arg: Seq<char>| uuid_value(arg));
    let mut uuids: Vec<Option<u128>> = Vec::new();
    let mut i: usize = 0;
    while i < args.len()
        invariant
            i <= args@.len(),
            want == texts(args@).map_values(|arg: Seq<char>| uuid_value(arg)),
            uuids@ == want.take(i as int),
        decreases args.len() - i,
    {
        uuids.push(parse_uuid(args[i].as_str()));
        i = i + 1;
        assert(uuids@ =~= want.take(i as int));
    }
    assert(want.take(want.len() as int) =~= want);
    parse_args_with(args, &uuids, env_token)
}

/// An option that is given again replaces what was given before.
pub proof fn later_options_win(
    st: Settings,
    arg: Seq<char>,
    first: (Seq<char>, Option<u128>),
    second: (Seq<char>, Option<u128>),
)
    requires
        apply_option(st, arg, first.0, first.1) is Ok,
    ensures
        apply_option(
            apply_option(st, arg, first.0, first.1)->Ok_0,
            arg,
            second.0,
            second.1,
        ) == apply_option(st, arg, second.0, second.1),
{
}

/// A command line of options, each with its value.
pub open spec fn args_of(program: Seq<char>, options: Seq<(Seq<char>, Seq<char>)>) -> Seq<
    Seq<char>,
> {
    Seq::new(
        1 + 2 * options.len(),
        |i: int|
            if i == 0 {
                program
            } else if i % 2 == 1 {
                options[i / 2].0
            } else {
                options[i / 2 - 1].1
            },
    )
}

/// What a command line of options is parsed to.
pub open spec fn parsed_options(
    program: Seq<char>,
    options: Seq<(Seq<char>, Seq<char>)>,
    env_token: Option<Seq<char>>,
) -> Parsed {
    let args = args_of(program, options);
    command_line(args, args.map_values(|arg: Seq<char>| uuid_value(arg)), env_token)
}

/// Whether an option is known, and its value one that it can have.
pub open spec fn is_valid_option(option: (Seq<char>, Seq<char>)) -> bool {
    match flag_of(option.0) {
        Flag::SessionId => uuid_value(option.1) is Some,
        Flag::Text(_) => true,
        Flag::Number(_) => u32_value(option.1, 10) is Some,
        _ => false,
    }
}

/// Options that are valid, each given once.
pub open spec fn are_single_options(options: Seq<(Seq<char>, Seq<char>)>) -> bool {
    &&& forall|i: int| 0 <= i < options.len() ==> is_valid_option(#[trigger] options[i])
    &&& forall|i: int, j: int|
        0 <= i < j < options.len() ==> flag_of(#[trigger] options[i].0) != flag_of(
            #[trigger] options[j].0,
        )
}

/// The order of different options does not matter.
pub proof fn option_order_does_not_matter(
    program: Seq<char>,
    first: Seq<(Seq<char>, Seq<char>)>,
    second: Seq<(Seq<char>, Seq<char>)>,
    env_token: Option<Seq<char>>,
)
    requires
        are_single_options(first),
        first.to_multiset() == second.to_multiset(),
    ensures
        parsed_options(program, first, env_token) == parsed_options(program, second, env_token),
{
    let st = default_settings();
    lemma_same_options(first, second);
    lemma_options_are_read(program, first, st, 0);
    lemma_options_are_read(program, second, st, 0);
    assert(first.skip(0) =~= first);
    assert(second.skip(0) =~= second);
    lemma_order(st, first, second);
}

/// An option that is given again further on may as well not be given.
pub proof fn earlier_options_do_not_matter(
    program: Seq<char>,
    options: Seq<(Seq<char>, Seq<char>)>,
    extra: (Seq<char>, Seq<char>),
    at: int,
    again: int,
    env_token: Option<Seq<char>>,
)
    requires
        forall|i: int| 0 <= i < options.len() ==> is_valid_option(#[trigger] options[i]),
        is_valid_option(extra),
        0 <= at <= again < options.len(),
        flag_of(extra.0) == flag_of(options[again].0),
    ensures
        parsed_options(program, options.insert(at, extra), env_token) == parsed_options(
            program,
            options,
            env_token,
        ),
{
    let st = default_settings();
    let more = options.insert(at, extra);
    assert forall|i: int| 0 <= i < more.len() implies is_valid_option(#[trigger] more[i]) by {
        if i < at {
            assert(more[i] == options[i]);
        } else if i > at {
            assert(more[i] == options[i - 1]);
        }
    }
    lemma_options_are_read(program, options, st, 0);
    lemma_options_are_read(program, more, st, 0);
    assert(options.skip(0) =~= options);
    assert(more.skip(0) =~= more);
    lemma_extra_option(st, options, extra, at, again);
}

/// The settings with a valid option set.
spec fn with_option(st: Settings, option: (Seq<char>, Seq<char>)) -> Settings {
    apply_option(st, option.0, option.1, uuid_value(option.1))->Ok_0
}

/// The settings with valid options set, one after the other.
spec fn with_options(st: Settings, options: Seq<(Seq<char>, Seq<char>)>) -> Settings
    decreases options.len(),
{
    if options.len() == 0 {
        st
    } else {
        with_options(with_option(st, options[0]), options.skip(1))
    }
}

/// A command line of valid options is read to its end.
proof fn lemma_options_are_read(
    program: Seq<char>,
    options: Seq<(Seq<char>, Seq<char>)>,
    st: Settings,
    k: nat,
)
    requires
        forall|i: int| 0 <= i < options.len() ==> is_valid_option(#[trigger] options[i]),
        k <= options.len(),
    ensures
        ({
            let args = args_of(program, options);
            let uuids = args.map_values(|arg: Seq<char>| uuid_value(arg));
            read_options(args, uuids, 1 + 2 * k, st) == Parsed::Run(
                with_options(st, options.skip(k as int)),
            )
        }),
    decreases options.len() - k,
{
    let args = args_of(program, options);
    let uuids = args.map_values(|arg: Seq<char>| uuid_value(arg));
    if k < options.len() {
        let option = options[k as int];
        let i = 1 + 2 * k as int;
        assert(i % 2 == 1 && i / 2 == k && (i + 1) % 2 == 0 && (i + 1) / 2 - 1 == k);
        assert(args[i] == option.0);
        assert(args[i + 1] == option.1);
        assert(uuids[i + 1] == uuid_value(option.1));
        assert(is_valid_option(option));
        lemma_options_are_read(program, options, with_option(st, option), k + 1);
        assert(options.skip(k as int)[0] == option);
        assert(options.skip(k as int).skip(1) =~= options.skip(k as int + 1));
    }
}

/// Two different options may be set in either order.
proof fn lemma_options_commute(
    st: Settings,
    a: (Seq<char>, Seq<char>),
    b: (Seq<char>, Seq<char>),
)
    requires
        is_valid_option(a),
        is_valid_option(b),
        flag_of(a.0) != flag_of(b.0),
    ensures
        with_option(with_option(st, a), b) == with_option(with_option(st, b), a),
{
}

/// An option that differs from all before it may as well come first.
proof fn lemma_option_to_front(st: Settings, options: Seq<(Seq<char>, Seq<char>)>, j: int)
    requires
        0 <= j < options.len(),
        forall|i: int| 0 <= i < options.len() ==> is_valid_option(#[trigger] options[i]),
        forall|i: int|
            0 <= i < j ==> flag_of((#[trigger] options[i]).0) != flag_of(options[j].0),
    ensures
        with_options(st, options) == with_options(with_option(st, options[j]), options.remove(j)),
    decreases j,
{
    let moved = options[j];
    if j == 0 {
        assert(options.remove(0) =~= options.skip(1));
    } else {
        let head = options[0];
        let rest = options.skip(1);
        assert forall|i: int| 0 <= i < rest.len() implies is_valid_option(#[trigger] rest[i]) by {
            assert(rest[i] == options[i + 1]);
        }
        assert forall|i: int| 0 <= i < j - 1 implies flag_of((#[trigger] rest[i]).0) != flag_of(
            rest[j - 1].0,
        ) by {
            assert(rest[i] == options[i + 1]);
        }
        lemma_option_to_front(with_option(st, head), rest, j - 1);
        lemma_options_commute(st, head, moved);
        assert(options.remove(j)[0] == head);
        assert(options.remove(j).skip(1) =~= rest.remove(j - 1));
    }
}

/// Lists of the same options have the same members.
proof fn lemma_same_options(
    first: Seq<(Seq<char>, Seq<char>)>,
    second: Seq<(Seq<char>, Seq<char>)>,
)
    requires
        first.to_multiset() == second.to_multiset(),
        are_single_options(first),
    ensures
        first.len() == second.len(),
        forall|i: int| 0 <= i < second.len() ==> is_valid_option(#[trigger] second[i]),
        forall|i: int| 0 <= i < first.len() ==> second.contains(#[trigger] first[i]),
{
    broadcast use vstd::seq_lib::group_to_multiset_ensures;

    assert(first.len() == first.to_multiset().len());
    assert(second.len() == second.to_multiset().len());
    assert forall|i: int| 0 <= i < second.len() implies is_valid_option(#[trigger] second[i]) by {
        assert(second.contains(second[i]));
        assert(second.to_multiset().count(second[i]) > 0);
        assert(first.contains(second[i]));
    }
    assert forall|i: int| 0 <= i < first.len() implies second.contains(#[trigger] first[i]) by {
        assert(first.contains(first[i]));
        assert(first.to_multiset().count(first[i]) > 0);
    }
}

/// Options that differ from each other may be set in any order.
proof fn lemma_order(
    st: Settings,
    first: Seq<(Seq<char>, Seq<char>)>,
    second: Seq<(Seq<char>, Seq<char>)>,
)
    requires
        are_single_options(first),
        first.to_multiset() == second.to_multiset(),
    ensures
        with_options(st, first) == with_options(st, second),
    decreases first.len(),
{
    broadcast use vstd::seq_lib::group_to_multiset_ensures;

    lemma_same_options(first, second);
    if first.len() > 0 {
        let head = first[0];
        let rest = first.skip(1);
        assert(second.contains(head));
        let j = choose|j: int| 0 <= j < second.len() && second[j] == head;
        let others = second.remove(j);
        assert(first.remove(0) =~= rest);
        assert(rest.to_multiset() =~= first.to_multiset().remove(head));
        assert(others.to_multiset() =~= second.to_multiset().remove(head));
        assert forall|i: int| 0 <= i < rest.len() implies is_valid_option(#[trigger] rest[i]) by {
            assert(rest[i] == first[i + 1]);
        }
        assert forall|i: int, k: int| 0 <= i < k < rest.len() implies flag_of(
            #[trigger] rest[i].0,
        ) != flag_of(#[trigger] rest[k].0) by {
            assert(rest[i] == first[i + 1] && rest[k] == first[k + 1]);
            assert(flag_of(first[i + 1].0) != flag_of(first[k + 1].0));
        }
        assert forall|i: int| 0 <= i < j implies flag_of((#[trigger] second[i]).0) != flag_of(
            second[j].0,
        ) by {
            assert(others[i] == second[i]);
            assert(others.contains(second[i]));
            assert(others.to_multiset().count(second[i]) > 0);
            assert(rest.contains(second[i]));
            let k = choose|k: int| 0 <= k < rest.len() && rest[k] == second[i];
            assert(rest[k] == first[k + 1]);
            assert(flag_of(first[0].0) != flag_of(first[k + 1].0));
        }
        lemma_option_to_front(st, second, j);
        lemma_order(with_option(st, head), rest, others);
    }
}

/// An option that is set again further on leaves no trace.
proof fn lemma_extra_option(
    st: Settings,
    options: Seq<(Seq<char>, Seq<char>)>,
    extra: (Seq<char>, Seq<char>),
    at: int,
    again: int,
)
    requires
        forall|i: int| 0 <= i < options.len() ==> is_valid_option(#[trigger] options[i]),
        is_valid_option(extra),
        0 <= at <= again < options.len(),
        flag_of(extra.0) == flag_of(options[again].0),
    ensures
        with_options(st, options.insert(at, extra)) == with_options(st, options),
    decreases again,
{
    reveal_with_fuel(with_options, 3);
    let more = options.insert(at, extra);
    let head = options[0];
    let rest = options.skip(1);
    assert forall|i: int| 0 <= i < rest.len() implies is_valid_option(#[trigger] rest[i]) by {
        assert(rest[i] == options[i + 1]);
    }
    if at > 0 {
        assert(rest[again - 1] == options[again]);
        lemma_extra_option(with_option(st, head), rest, extra, at - 1, again - 1);
        assert(more[0] == head);
        assert(more.skip(1) =~= rest.insert(at - 1, extra));
    } else {
        assert(more[0] == extra);
        assert(more.skip(1) =~= options);
        if flag_of(head.0) == flag_of(extra.0) {
            assert(with_option(with_option(st, extra), head) == with_option(st, head));
        } else {
            assert(rest[again - 1] == options[again]);
            lemma_extra_option(with_option(st, head), rest, extra, 0, again - 1);
            let tail = rest.insert(0, extra);
            assert(tail[0] == extra);
            assert(tail.skip(1) =~= rest);
            lemma_options_commute(st, extra, head);
        }
    }
}

/// The help text.
pub const HELP_TEXT: &'static str = "\
beam-agent - Beam Remote Desktop capture agent

USAGE:
    beam-agent [OPTIONS]

OPTIONS:
    --display <DISPLAY>          X11 display [default: :0]
    --server-url <URL>           Signaling server WebSocket URL
    --session-id <UUID>          Session identifier (required)
    --agent-token <TOKEN>        Agent authentication token (prefer BEAM_AGENT_TOKEN env)
    --tls-cert <PATH>            TLS certificate to pin for server connection
    --width <PIXELS>             Initial display width [default: 1920]
    --height <PIXELS>            Initial display height [default: 1080]
    --framerate <FPS>            Target framerate [default: 120]
    --bitrate <KBPS>             Initial video bitrate [default: 100000]
    --encoder <NAME>             Force encoder (nvh264enc, vah264enc, x264enc)
    --max-width <PIXELS>         Maximum resize width [default: 3840]
    --max-height <PIXELS>        Maximum resize height [default: 2160]
    --gpu-driver <MODE>          GPU driver: auto, nvidia, dummy [default: auto]
    --display-start <N>          Starting display number [default: 10]
    -V, --version                Print version and exit
    -h, --help                   Print this help and exit
";

/// The text of `--help`.
pub fn help_text() -> (r: String)
    ensures
        r@ == HELP_TEXT@,
{
    HELP_TEXT.to_owned()
}

/// The text of `--version`.
pub fn version_line(version: &str) -> (r: String)
    ensures
        r@ == "beam-agent "@ + version@,
{
    joined("beam-agent ", version)
}

/// Each option sets what it is named after to the value that follows it, and nothing else.
/// Numbers are decimal.
pub proof fn options_set_what_they_name(
    st: Settings,
    n: u32,
    value: Seq<char>,
    id: u128,
    session: Option<u128>,
)
    ensures
        apply_option(st, "--session-id"@, value, Some(id)) == Ok::<Settings, Seq<char>>(
            (Settings { session_id: Some(id), ..st }),
        ),
        apply_option(st, "--display"@, value, session) == Ok::<Settings, Seq<char>>(
            (Settings { display: value, ..st }),
        ),
        apply_option(st, "--server-url"@, value, session) == Ok::<Settings, Seq<char>>(
            (Settings { server_url: value, ..st }),
        ),
        apply_option(st, "--agent-token"@, value, session) == Ok::<Settings, Seq<char>>(
            (Settings { agent_token: Some(value), ..st }),
        ),
        apply_option(st, "--tls-cert"@, value, session) == Ok::<Settings, Seq<char>>(
            (Settings { tls_cert_path: Some(value), ..st }),
        ),
        apply_option(st, "--encoder"@, value, session) == Ok::<Settings, Seq<char>>(
            (Settings { encoder: Some(value), ..st }),
        ),
        apply_option(st, "--gpu-driver"@, value, session) == Ok::<Settings, Seq<char>>(
            (Settings { gpu_driver: value, ..st }),
        ),
        apply_option(st, "--width"@, decimal(n as nat), session) == Ok::<Settings, Seq<char>>(
            (Settings { width: n, ..st }),
        ),
        apply_option(st, "--height"@, decimal(n as nat), session) == Ok::<Settings, Seq<char>>(
            (Settings { height: n, ..st }),
        ),
        apply_option(st, "--framerate"@, decimal(n as nat), session) == Ok::<Settings, Seq<char>>(
            (Settings { framerate: n, ..st }),
        ),
        apply_option(st, "--bitrate"@, decimal(n as nat), session) == Ok::<Settings, Seq<char>>(
            (Settings { bitrate: n, ..st }),
        ),
        apply_option(st, "--max-width"@, decimal(n as nat), session) == Ok::<Settings, Seq<char>>(
            (Settings { max_width: n, ..st }),
        ),
        apply_option(st, "--max-height"@, decimal(n as nat), session) == Ok::<Settings, Seq<char>>(
            (Settings { max_height: n, ..st }),
        ),
        apply_option(st, "--display-start"@, decimal(n as nat), session) == Ok::<Settings, Seq<char>>(
            (Settings { display_start: n, ..st }),
        ),
        apply_option(st, "--session-id"@, value, None) is Err,
{
    crate::text::decimal_reads_back(n as nat);
    lemma_flags();
}

/// The names of the options are told apart.
proof fn lemma_flags()
    ensures
        flag_of("-V"@) == Flag::Version,
        flag_of("--version"@) == Flag::Version,
        flag_of("-h"@) == Flag::Help,
        flag_of("--help"@) == Flag::Help,
        flag_of("--session-id"@) == Flag::SessionId,
        flag_of("--display"@) == Flag::Text(TextOption::Display),
        flag_of("--server-url"@) == Flag::Text(TextOption::ServerUrl),
        flag_of("--agent-token"@) == Flag::Text(TextOption::AgentToken),
        flag_of("--tls-cert"@) == Flag::Text(TextOption::TlsCert),
        flag_of("--encoder"@) == Flag::Text(TextOption::Encoder),
        flag_of("--gpu-driver"@) == Flag::Text(TextOption::GpuDriver),
        flag_of("--width"@) == Flag::Number(NumberOption::Width),
        flag_of("--height"@) == Flag::Number(NumberOption::Height),
        flag_of("--framerate"@) == Flag::Number(NumberOption::Framerate),
        flag_of("--bitrate"@) == Flag::Number(NumberOption::Bitrate),
        flag_of("--max-width"@) == Flag::Number(NumberOption::MaxWidth),
        flag_of("--max-height"@) == Flag::Number(NumberOption::MaxHeight),
        flag_of("--display-start"@) == Flag::Number(NumberOption::DisplayStart),
{
    reveal_strlit("-V");
    reveal_strlit("--version");
    reveal_strlit("-h");
    reveal_strlit("--help");
    reveal_strlit("--session-id");
    reveal_strlit("--display");
    reveal_strlit("--server-url");
    reveal_strlit("--agent-token");
    reveal_strlit("--tls-cert");
    reveal_strlit("--encoder");
    reveal_strlit("--gpu-driver");
    reveal_strlit("--width");
    reveal_strlit("--height");
    reveal_strlit("--framerate");
    reveal_strlit("--bitrate");
    reveal_strlit("--max-width");
    reveal_strlit("--max-height");
    reveal_strlit("--display-start");
    assert("-V"@.len() == 2);
    assert("--version"@.len() == 9);
    assert("-h"@.len() == 2);
    assert("--help"@.len() == 6);
    assert("--session-id"@.len() == 12);
    assert("--display"@.len() == 9);
    assert("--server-url"@.len() == 12);
    assert("--agent-token"@.len() == 13);
    assert("--tls-cert"@.len() == 10);
    assert("--encoder"@.len() == 9);
    assert("--gpu-driver"@.len() == 12);
    assert("--width"@.len() == 7);
    assert("--height"@.len() == 8);
    assert("--framerate"@.len() == 11);
    assert("--bitrate"@.len() == 9);
    assert("--max-width"@.len() == 11);
    assert("--max-height"@.len() == 12);
    assert("--display-start"@.len() == 15);
    assert("-V"@[1] != "-h"@[1]);
    assert("--version"@[2] != "--display"@[2]);
    assert("--version"@[2] != "--encoder"@[2]);
    assert("--version"@[2] != "--bitrate"@[2]);
    assert("--session-id"@[4] != "--server-url"@[4]);
    assert("--session-id"@[2] != "--gpu-driver"@[2]);
    assert("--session-id"@[2] != "--max-height"@[2]);
    assert("--display"@[2] != "--encoder"@[2]);
    assert("--display"@[2] != "--bitrate"@[2]);
    assert("--server-url"@[2] != "--gpu-driver"@[2]);
    assert("--server-url"@[2] != "--max-height"@[2]);
    assert("--encoder"@[2] != "--bitrate"@[2]);
    assert("--gpu-driver"@[2] != "--max-height"@[2]);
    assert("--framerate"@[2] != "--max-width"@[2]);
}

/// The token of the environment is used where no option gives one, and only there.
/// Without a session there is no run.
pub proof fn options_come_before_the_environment(st: Settings, env_token: Option<Seq<char>>)
    ensures
        st.session_id is None ==> finished(st, env_token) is Error,
        st.session_id is Some && st.agent_token is Some ==> finished(st, env_token) == Parsed::Run(
            st,
        ),
        st.session_id is Some && st.agent_token is None ==> finished(st, env_token) == Parsed::Run(
            Settings { agent_token: env_token, ..st },
        ),
{
}

} // verus!
