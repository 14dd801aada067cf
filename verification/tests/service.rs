use netter::commands::{execute_core_command, Command, ConfigSource, CoreError, CoreExecutionResult, Response, ServerInfo, ServerType};
use netter::language::interpreter::run::{PluginCalls, PluginHost};
use netter::service::{process_command, ServerRegistry, ServiceAction};

struct NoPlugins;

impl PluginHost for NoPlugins {
    fn dispatch(&mut self, _alias: &str, _func: &str, _args_json: &str) -> Result<String, String> {
        Err("no plugins".to_string())
    }

    fn load(&mut self, _alias: &str, _path: &str) -> Result<(), String> {
        Err("no plugins".to_string())
    }
}

fn start(src: &str) -> Command {
    Command::StartServer { config: ConfigSource::CustomLangFileContent(src.to_string()) }
}

#[test]
fn core_answers_simple_commands() {
    let mut calls = PluginCalls::new(NoPlugins);
    assert!(matches!(execute_core_command(Command::Ping, &mut calls), CoreExecutionResult::CliResponse(Response::Pong)));
    match execute_core_command(Command::CheckForUpdate, &mut calls) {
        CoreExecutionResult::CliResponse(Response::UpToDate(v)) => assert_eq!(v, "0.1.0"),
        _ => panic!("expected an up-to-date answer"),
    }
    assert!(matches!(
        execute_core_command(Command::StopServer { server_id: "x".to_string() }, &mut calls),
        CoreExecutionResult::CliResponse(Response::Acknowledged)
    ));
}

#[test]
fn core_starts_or_refuses_a_configuration() {
    let mut calls = PluginCalls::new(NoPlugins);
    match execute_core_command(start(r#"route "/a" GET { Response.send(); };"#), &mut calls) {
        CoreExecutionResult::StartHttpServer { interpreter, tls_config } => {
            assert_eq!(interpreter.routes.len(), 1);
            assert!(tls_config.is_none());
        },
        _ => panic!("expected a server to start"),
    }
    match execute_core_command(start(r#"route "/a" GET { Response.send(); }"#), &mut calls) {
        CoreExecutionResult::CliResponse(Response::Error(CoreError::ConfigParseError(e))) => assert!(e.starts_with("Parsing error: ")),
        _ => panic!("expected a parse error"),
    }
    match execute_core_command(start(r#"import "/nowhere.so" as p;"#), &mut calls) {
        CoreExecutionResult::CliResponse(Response::Error(CoreError::ConfigParseError(e))) => assert!(e.starts_with("Interpretation error: ")),
        _ => panic!("expected an interpretation error"),
    }
}

#[test]
fn service_keeps_track_of_servers() {
    let mut calls = PluginCalls::new(NoPlugins);
    let mut reg = ServerRegistry::new();
    let (r, act) = process_command(&mut reg, start(r#"route "/a" GET { Response.send(); };"#), "s1".to_string(), &mut calls);
    match r {
        Ok(Response::ServerStarted(info)) => {
            assert_eq!(info.server_id, "s1");
            assert_eq!(info.address, "127.0.0.1:9090");
            assert_eq!(info.status, "Starting");
        },
        _ => panic!("expected the server to start"),
    }
    match act {
        ServiceAction::Launch { id, address, .. } => {
            assert_eq!(id, "s1");
            assert_eq!(address, "127.0.0.1:9090");
        },
        _ => panic!("expected a launch"),
    }
    match process_command(&mut reg, Command::GetServerStatus { server_id: "s1".to_string() }, String::new(), &mut calls).0 {
        Ok(Response::ServerStatus(info)) => assert_eq!(info.status, "Running"),
        _ => panic!("expected a status"),
    }
    reg.mark_finished("s1");
    match process_command(&mut reg, Command::GetAllServersStatus, String::new(), &mut calls).0 {
        Ok(Response::AllServersStatusReport(list)) => {
            assert_eq!(list.len(), 1);
            assert_eq!(list[0].status, "Stopped (Task Finished)");
        },
        _ => panic!("expected a report"),
    }
    let (r, act) = process_command(&mut reg, Command::StopServer { server_id: "s1".to_string() }, String::new(), &mut calls);
    assert!(matches!(r, Ok(Response::ServerStopped(ref id)) if id == "s1"));
    assert!(matches!(act, ServiceAction::AbortAndSave(ref id) if id == "s1"));
    let (r, _) = process_command(&mut reg, Command::StopServer { server_id: "s1".to_string() }, String::new(), &mut calls);
    assert!(matches!(r, Err(CoreError::ServerNotFound(ref id)) if id == "s1"));

    reg.restore(ServerInfo {
        server_id: "old".to_string(),
        server_type: ServerType::Http,
        address: "127.0.0.1:9090".to_string(),
        pid: None,
        status: "Starting".to_string(),
    });
    match process_command(&mut reg, Command::GetServerStatus { server_id: "old".to_string() }, String::new(), &mut calls).0 {
        Ok(Response::ServerStatus(info)) => assert_eq!(info.status, "Loaded (Unknown State)"),
        _ => panic!("expected a status"),
    }
    let (r, act) = process_command(&mut reg, Command::StopServer { server_id: "old".to_string() }, String::new(), &mut calls);
    match r {
        Err(e) => assert_eq!(e.to_display_string(), "Operation Failed: Handle missing for old, removed."),
        _ => panic!("expected a failure"),
    }
    assert!(matches!(act, ServiceAction::Save));
    assert!(matches!(process_command(&mut reg, Command::Ping, String::new(), &mut calls).0, Ok(Response::Pong)));
}
