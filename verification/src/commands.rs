use vstd::prelude::*;
use crate::language::strmap::StrMap;
use crate::language::text::text;
use crate::language::lexer::spec_tokenize;
use crate::language::parser::{parse, sp_parse, lex_error_text, input_start};
use crate::language::ast::SpecAst;
use crate::language::interpreter::{Interpreter, TlsConfig};
use crate::language::interpreter::run::{PluginHost, PluginCalls, extends};
use crate::language::interpreter::server::{ServerV, server_view, sp_interpret};

verus! {

/// The version of this library, as a check for updates reports it.
pub const CORE_VERSION: &'static str = "0.1.0";

/// A command the service receives from a client.
#[derive(Debug)]
pub enum Command {
    Ping,
    StartServer { config: ConfigSource },
    StopServer { server_id: String },
    GetServerStatus { server_id: String },
    GetAllServersStatus,
    CheckForUpdate,
}

/// What the service answers a client. `Acknowledged` is the plain
/// acknowledgement of a command the service itself carries out.
pub enum Response {
    Pong,
    Acknowledged,
    ServerStarted(ServerInfo),
    ServerStopped(String),
    ServerStatus(ServerInfo),
    UpdateAvailable(UpdateInfo),
    UpToDate(String),
    AllServersStatusReport(Vec<ServerInfo>),
    Error(CoreError),
}

/// The kind of a server.
#[derive(Debug, Clone, Copy, PartialEq, Eq)]
pub enum ServerType {
    Http,
}

/// Where a server's configuration comes from: the text of a file in the
/// route language.
#[derive(Debug)]
pub enum ConfigSource {
    CustomLangFileContent(String),
}

/// What the service knows of a running server.
#[derive(Debug)]
pub struct ServerInfo {
    pub server_id: String,
    pub server_type: ServerType,
    pub address: String,
    pub pid: Option<u32>,
    pub status: String,
}

/// A newer version and where to download it, by platform.
pub struct UpdateInfo {
    pub current_version: String,
    pub latest_version: String,
    pub download_urls: StrMap,
}

/// Why a command failed.
#[derive(Debug)]
pub enum CoreError {
    IoError(String),
    SerializationError(String),
    DeserializationError(String),
    InvalidInput(String),
    ConfigParseError(String),
    ServerStartFailed(String),
    ServerStopFailed(String),
    ServerNotFound(String),
    UpdateCheckFailed(String),
    DownloadFailed(String),
    UnsupportedOs(String),
    OperationFailed(String),
    InternalError(String),
}

/// The text of an error: its kind's title, a colon, and its message.
pub open spec fn core_error_text(e: CoreError) -> Seq<char> {
    match e {
        CoreError::IoError(s) => "IO Error: "@ + s@,
        CoreError::SerializationError(s) => "Serialization Error: "@ + s@,
        CoreError::DeserializationError(s) => "Deserialization Error: "@ + s@,
        CoreError::InvalidInput(s) => "Invalid Input: "@ + s@,
        CoreError::ConfigParseError(s) => "Config Parse Error: "@ + s@,
        CoreError::ServerStartFailed(s) => "Server Start Failed: "@ + s@,
        CoreError::ServerStopFailed(s) => "Server Stop Failed: "@ + s@,
        CoreError::ServerNotFound(s) => "Server Not Found: "@ + s@,
        CoreError::UpdateCheckFailed(s) => "Update Check Failed: "@ + s@,
        CoreError::DownloadFailed(s) => "Download Failed: "@ + s@,
        CoreError::UnsupportedOs(s) => "Unsupported OS: "@ + s@,
        CoreError::OperationFailed(s) => "Operation Failed: "@ + s@,
        CoreError::InternalError(s) => "Internal Error: "@ + s@,
    }
}

impl CoreError {
    /// The text of the error (see `core_error_text`).
    pub fn to_display_string(&self) -> (r: String)
        ensures
            r@ == core_error_text(*self),
    {
        let (title, s) = match self {
            CoreError::IoError(s) => ("IO Error: ", s),
            CoreError::SerializationError(s) => ("Serialization Error: ", s),
            CoreError::DeserializationError(s) => ("Deserialization Error: ", s),
            CoreError::InvalidInput(s) => ("Invalid Input: ", s),
            CoreError::ConfigParseError(s) => ("Config Parse Error: ", s),
            CoreError::ServerStartFailed(s) => ("Server Start Failed: ", s),
            CoreError::ServerStopFailed(s) => ("Server Stop Failed: ", s),
            CoreError::ServerNotFound(s) => ("Server Not Found: ", s),
            CoreError::UpdateCheckFailed(s) => ("Update Check Failed: ", s),
            CoreError::DownloadFailed(s) => ("Download Failed: ", s),
            CoreError::UnsupportedOs(s) => ("Unsupported OS: ", s),
            CoreError::OperationFailed(s) => ("Operation Failed: ", s),
            CoreError::InternalError(s) => ("Internal Error: ", s),
        };
        let mut out = text(title);
        out.append(s.as_str());
        out
    }
}

/// What the core makes of a command: an answer for the client, or a
/// configured server for the service to start, with its TLS settings.
pub enum CoreExecutionResult {
    CliResponse(Response),
    StartHttpServer { interpreter: Interpreter, tls_config: Option<TlsConfig> },
}

/// The view of a server with nothing configured.
pub open spec fn empty_server() -> ServerV {
    ServerV { routes: Seq::empty(), tls: None, global: None, config: None, plugins: Seq::empty() }
}

/// What parsing a configuration text gives: its syntax tree, or the text
/// of the lexing or parsing error.
pub open spec fn parsed_config(content: Seq<char>) -> Result<SpecAst, Seq<char>> {
    match spec_tokenize(content, input_start()) {
        Err(e) => Err(lex_error_text(e)),
        Ok((ts, _)) => sp_parse(ts),
    }
}

/// A copy of TLS settings.
fn copy_tls(t: &Option<TlsConfig>) -> (r: Option<TlsConfig>)
    ensures
        match (*t, r) {
            (Some(a), Some(b)) => a.enabled == b.enabled && a.cert_path@ == b.cert_path@ && a.key_path@ == b.key_path@,
            (None, None) => true,
            _ => false,
        },
{
    match t {
        Some(c) => Some(TlsConfig { enabled: c.enabled, cert_path: c.cert_path.clone(), key_path: c.key_path.clone() }),
        None => None,
    }
}

/// What starting a server from a configuration text gives (see
/// `execute_core_command`).
pub open spec fn started(content: Seq<char>, r: CoreExecutionResult, loads: Seq<Result<(), Seq<char>>>, k0: nat) -> bool {
    match parsed_config(content) {
        Err(m) => r matches CoreExecutionResult::CliResponse(Response::Error(CoreError::ConfigParseError(e)))
            && e@ == "Parsing error: "@ + m
            && loads.len() == k0,
        Ok(ast) => {
            let (u, sv) = sp_interpret(empty_server(), ast, loads, k0);
            match u {
                Ok(_) => r matches CoreExecutionResult::StartHttpServer { interpreter, tls_config }
                    && server_view(interpreter) == sv
                    && match (interpreter.tls_config, tls_config) {
                        (Some(a), Some(b)) => a.enabled == b.enabled && a.cert_path@ == b.cert_path@ && a.key_path@ == b.key_path@,
                        (None, None) => true,
                        _ => false,
                    },
                Err(m) => r matches CoreExecutionResult::CliResponse(Response::Error(CoreError::ConfigParseError(e)))
                    && e@ == "Interpretation error: "@ + m,
            }
        },
    }
}

/// Parses and interprets a configuration text (see `started`).
#[verifier::spinoff_prover]
#[verifier::rlimit(60)]
fn start_from_config<H: PluginHost>(content: &String, calls: &mut PluginCalls<H>) -> (r: CoreExecutionResult)
    requires
        content@.len() < usize::MAX,
    ensures
        final(calls).replies() == old(calls).replies(),
        extends(final(calls).loads(), old(calls).loads()),
        started(content@, r, final(calls).loads(), old(calls).loads().len()),
{
    match parse(content.as_str()) {
        Ok(ast) => {
            let mut interpreter = Interpreter::new();
            proof {
                assert(server_view(interpreter).routes =~= Seq::empty());
                assert(server_view(interpreter).plugins =~= Seq::empty());
                assert(server_view(interpreter) == empty_server());
            }
            match interpreter.interpret(&ast, calls) {
                Ok(()) => {
                    let tls_config = copy_tls(&interpreter.tls_config);
                    CoreExecutionResult::StartHttpServer { interpreter, tls_config }
                },
                Err(e) => {
                    let mut m = text("Interpretation error: ");
                    m.append(e.as_str());
                    CoreExecutionResult::CliResponse(Response::Error(CoreError::ConfigParseError(m)))
                },
            }
        },
        Err(e) => {
            proof {
                crate::language::interpreter::run::lemma_extends_refl(calls.loads());
            }
            let mut m = text("Parsing error: ");
            m.append(e.as_str());
            CoreExecutionResult::CliResponse(Response::Error(CoreError::ConfigParseError(m)))
        },
    }
}

/// Carries out a command as far as the core can: `Ping` is answered
/// `Pong`; `StartServer` parses and interprets the configuration, giving
/// the configured server, or the parsing or interpretation error as a
/// configuration error (see `started`); commands on running servers are
/// acknowledged for the service to carry out; `CheckForUpdate` answers that
/// this version is current. Plugins the configuration imports are loaded
/// through `calls`; whatever their loads report, the outcome is the one
/// `sp_interpret` gives for them.
pub fn execute_core_command<H: PluginHost>(command: Command, calls: &mut PluginCalls<H>) -> (r: CoreExecutionResult)
    requires
        command matches Command::StartServer { config: ConfigSource::CustomLangFileContent(c) } ==> c@.len() < usize::MAX,
    ensures
        final(calls).replies() == old(calls).replies(),
        extends(final(calls).loads(), old(calls).loads()),
        match command {
            Command::Ping => r matches CoreExecutionResult::CliResponse(Response::Pong),
            Command::StartServer { config: ConfigSource::CustomLangFileContent(content) } =>
                started(content@, r, final(calls).loads(), old(calls).loads().len()),
            Command::StopServer { .. } | Command::GetServerStatus { .. } | Command::GetAllServersStatus =>
                r matches CoreExecutionResult::CliResponse(Response::Acknowledged),
            Command::CheckForUpdate => r matches CoreExecutionResult::CliResponse(Response::UpToDate(v)) && v@ == CORE_VERSION@,
        },
{
    proof {
        crate::language::interpreter::run::lemma_extends_refl(calls.loads());
    }
    match command {
        Command::Ping => CoreExecutionResult::CliResponse(Response::Pong),
        Command::StartServer { config } => {
            match config {
                ConfigSource::CustomLangFileContent(content) => start_from_config(&content, calls),
            }
        },
        Command::StopServer { .. } => CoreExecutionResult::CliResponse(Response::Acknowledged),
        Command::GetServerStatus { .. } => CoreExecutionResult::CliResponse(Response::Acknowledged),
        Command::GetAllServersStatus => CoreExecutionResult::CliResponse(Response::Acknowledged),
        Command::CheckForUpdate => CoreExecutionResult::CliResponse(Response::UpToDate(text(CORE_VERSION))),
    }
}

} // verus!
