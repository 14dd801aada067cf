use vstd::prelude::*;
use crate::language::text::{text, str_eq};
use crate::language::interpreter::{Interpreter, TlsConfig};
use crate::language::interpreter::run::{PluginHost, PluginCalls, extends};
use crate::language::interpreter::server::{server_view, sp_interpret};
use crate::commands::{Command, ConfigSource, CoreError, CoreExecutionResult, Response, ServerInfo, ServerType};
use crate::commands::{execute_core_command, parsed_config, empty_server, CORE_VERSION};

verus! {

/// What became of the task serving a server: none is known (the server
/// was loaded from saved state), it is running, or it has finished.
#[derive(Debug, Clone, Copy, PartialEq, Eq)]
pub enum TaskState {
    Missing,
    Running,
    Finished,
}

/// The status a server's task gives it in a report.
pub open spec fn status_text(t: TaskState) -> Seq<char> {
    match t {
        TaskState::Running => "Running"@,
        TaskState::Finished => "Stopped (Task Finished)"@,
        TaskState::Missing => "Loaded (Unknown State)"@,
    }
}

/// The plain view of what the service knows of a server.
pub struct InfoV {
    pub id: Seq<char>,
    pub kind: ServerType,
    pub address: Seq<char>,
    pub pid: Option<u32>,
    pub status: Seq<char>,
}

/// The view of a server's information.
pub open spec fn info_view(i: ServerInfo) -> InfoV {
    InfoV { id: i.server_id@, kind: i.server_type, address: i.address@, pid: i.pid, status: i.status@ }
}

/// A server the service keeps: its information and its task.
pub struct RunningServer {
    pub info: ServerInfo,
    pub task: TaskState,
}

/// The servers the service keeps, each under its id, in the order they
/// came.
pub struct ServerRegistry {
    servers: Vec<(String, RunningServer)>,
}

/// An entry of the registry: an id, the server's information and its task.
pub type EntryV = (Seq<char>, InfoV, TaskState);

/// The position of the entry with id `id`.
pub open spec fn entry_index(es: Seq<EntryV>, id: Seq<char>) -> Option<int> {
    if exists|i: int| 0 <= i < es.len() && es[i].0 == id {
        Some(choose|i: int| 0 <= i < es.len() && es[i].0 == id)
    } else {
        None
    }
}

/// The information of an entry with the status its task gives it.
pub open spec fn reported(e: EntryV) -> InfoV {
    InfoV { status: status_text(e.2), ..e.1 }
}

/// The address a started server listens on.
pub open spec fn listen_address() -> Seq<char> {
    "127.0.0.1:9090"@
}

/// The entries with `(id, info, task)` put in place of the entry with
/// that id, or added after the others.
pub open spec fn put(es: Seq<EntryV>, id: Seq<char>, info: InfoV, task: TaskState) -> Seq<EntryV> {
    match entry_index(es, id) {
        Some(i) => es.update(i, (id, info, task)),
        None => es.push((id, info, task)),
    }
}

/// A server put under an id is found under it, with its information and
/// task.
pub proof fn lemma_put_then_found(es: Seq<EntryV>, id: Seq<char>, info: InfoV, task: TaskState)
    requires
        ids_unique(es),
    ensures
        ids_unique(put(es, id, info, task)),
        entry_index(put(es, id, info, task), id) matches Some(j) && put(es, id, info, task)[j] == (id, info, task),
{
    let p = put(es, id, info, task);
    match entry_index(es, id) {
        Some(i) => {
            assert(p[i] == (id, info, task));
            assert forall|a: int, b: int| 0 <= a < b < p.len() implies p[a].0 != p[b].0 by {
                assert(es[a].0 != es[b].0);
            }
        },
        None => {
            assert(p[es.len() as int] == (id, info, task));
            assert forall|a: int, b: int| 0 <= a < b < p.len() implies p[a].0 != p[b].0 by {
                if b == es.len() {
                    assert(es[a].0 != id);
                } else {
                    assert(es[a].0 != es[b].0);
                }
            }
        },
    }
    let c = choose|k: int| 0 <= k < p.len() && p[k].0 == id;
    assert(p[c].0 == id);
    let j = if entry_index(es, id) is Some { entry_index(es, id)->0 } else { es.len() as int };
    assert(c == j) by {
        if c < j {
            assert(p[c].0 != p[j].0);
        } else if c > j {
            assert(p[j].0 != p[c].0);
        }
    }
}

/// Once the entry of an id is removed, no server is found under that id.
pub proof fn lemma_removed_not_found(es: Seq<EntryV>, id: Seq<char>)
    requires
        ids_unique(es),
        entry_index(es, id) is Some,
    ensures
        entry_index(es.remove(entry_index(es, id)->0), id) is None,
{
    let i = entry_index(es, id)->0;
    let r = es.remove(i);
    if exists|k: int| 0 <= k < r.len() && r[k].0 == id {
        let k = choose|k: int| 0 <= k < r.len() && r[k].0 == id;
        let k2 = if k < i { k } else { k + 1 };
        assert(r[k] == es[k2]);
        if k2 < i {
            assert(es[k2].0 != es[i].0);
        } else {
            assert(es[i].0 != es[k2].0);
        }
    }
}

/// What the service host does after a command: nothing; abort the task of
/// a server and save the registry; save the registry; or serve a
/// configured server on an address under an id and save the registry.
pub enum ServiceAction {
    Nothing,
    AbortAndSave(String),
    Save,
    Launch { id: String, address: String, interpreter: Interpreter, tls_config: Option<TlsConfig> },
}

/// No id occurs twice.
pub open spec fn ids_unique(es: Seq<EntryV>) -> bool {
    forall|i: int, j: int| 0 <= i < j < es.len() ==> es[i].0 != es[j].0
}

impl ServerRegistry {
    /// The entries, in order.
    pub closed spec fn entries(&self) -> Seq<EntryV> {
        self.servers@.map_values(|e: (String, RunningServer)| (e.0@, info_view(e.1.info), e.1.task))
    }

    /// No id occurs twice.
    pub closed spec fn wf(&self) -> bool {
        ids_unique(self.entries())
    }

    /// No servers.
    pub fn new() -> (r: Self)
        ensures
            r.wf(),
            r.entries() == Seq::<EntryV>::empty(),
    {
        let r = ServerRegistry { servers: Vec::new() };
        assert(r.entries() =~= Seq::<EntryV>::empty());
        r
    }

    /// The position of the server with id `id`.
    fn find(&self, id: &str) -> (r: Option<usize>)
        requires
            self.wf(),
        ensures
            r matches Some(i) ==> i < self.entries().len() && entry_index(self.entries(), id@) == Some(i as int),
            r is None ==> entry_index(self.entries(), id@) is None,
    {
        let n = self.servers.len();
        let mut i: usize = 0;
        while i < n
            invariant
                i <= n,
                n == self.servers@.len(),
                self.wf(),
                forall|j: int| 0 <= j < i ==> self.entries()[j].0 != id@,
            decreases n - i,
        {
            if str_eq(self.servers[i].0.as_str(), id) {
                proof {
                    let es = self.entries();
                    assert(es[i as int].0 == id@);
                    let c = choose|k: int| 0 <= k < es.len() && es[k].0 == id@;
                    assert(c == i) by {
                        if c < i {
                            assert(es[c].0 != es[i as int].0);
                        } else if c > i {
                            assert(es[i as int].0 != es[c].0);
                        }
                    }
                }
                return Some(i);
            }
            i = i + 1;
        }
        None
    }

    /// Puts a server with the given task under its id (see `put`).
    fn put_entry(&mut self, id: String, info: ServerInfo, task: TaskState)
        requires
            old(self).wf(),
        ensures
            final(self).wf(),
            final(self).entries() == put(old(self).entries(), id@, info_view(info), task),
    {
        let ghost es = self.entries();
        let ghost iv = info_view(info);
        let ghost idv = id@;
        match self.find(id.as_str()) {
            Some(i) => {
                self.servers.set(i, (id, RunningServer { info, task }));
                proof {
                    assert(self.entries() =~= es.update(i as int, (idv, iv, task)));
                }
            },
            None => {
                self.servers.push((id, RunningServer { info, task }));
                proof {
                    assert(self.entries() =~= es.push((idv, iv, task)));
                    assert forall|a: int, b: int| 0 <= a < b < self.entries().len()
                        implies self.entries()[a].0 != self.entries()[b].0 by {
                        if b == es.len() {
                            assert(es[a].0 != idv);
                        }
                    }
                }
            },
        }
    }

    /// Keeps a server loaded from saved state, whose task is not known, in
    /// place of any with its id.
    pub fn restore(&mut self, info: ServerInfo)
        requires
            old(self).wf(),
        ensures
            final(self).wf(),
            final(self).entries() == put(old(self).entries(), info.server_id@, info_view(info), TaskState::Missing),
    {
        let id = info.server_id.clone();
        self.put_entry(id, info, TaskState::Missing);
    }

    /// Records that the task of the server with id `id` has finished.
    pub fn mark_finished(&mut self, id: &str)
        requires
            old(self).wf(),
        ensures
            final(self).wf(),
            final(self).entries() == match entry_index(old(self).entries(), id@) {
                Some(i) => old(self).entries().update(i, (old(self).entries()[i].0, old(self).entries()[i].1, TaskState::Finished)),
                None => old(self).entries(),
            },
    {
        let ghost es = self.entries();
        match self.find(id) {
            Some(i) => {
                let (k, rs) = self.servers.remove(i);
                let ghost removed = self.servers@;
                self.servers.insert(i, (k, RunningServer { info: rs.info, task: TaskState::Finished }));
                proof {
                    assert(self.entries() =~= es.update(i as int, (es[i as int].0, es[i as int].1, TaskState::Finished)));
                }
            },
            None => {},
        }
    }

    /// A copy of a server's information with the status its task gives it
    /// (see `reported`).
    fn report(&self, i: usize) -> (r: ServerInfo)
        requires
            i < self.entries().len(),
        ensures
            info_view(r) == reported(self.entries()[i as int]),
    {
        let e = &self.servers[i].1;
        let status = match e.task {
            TaskState::Running => text("Running"),
            TaskState::Finished => text("Stopped (Task Finished)"),
            TaskState::Missing => text("Loaded (Unknown State)"),
        };
        ServerInfo {
            server_id: e.info.server_id.clone(),
            server_type: e.info.server_type,
            address: e.info.address.clone(),
            pid: e.info.pid,
            status,
        }
    }

    /// The reports of all servers, in order.
    fn report_all(&self) -> (r: Vec<ServerInfo>)
        ensures
            r@.map_values(|i: ServerInfo| info_view(i)) == self.entries().map_values(|e: EntryV| reported(e)),
    {
        let mut out: Vec<ServerInfo> = Vec::new();
        let n = self.servers.len();
        let mut i: usize = 0;
        while i < n
            invariant
                i <= n,
                n == self.entries().len(),
                out@.map_values(|x: ServerInfo| info_view(x)) == self.entries().map_values(|e: EntryV| reported(e)).take(i as int),
            decreases n - i,
        {
            let x = self.report(i);
            let ghost before = out@.map_values(|x: ServerInfo| info_view(x));
            out.push(x);
            proof {
                assert(out@.map_values(|x: ServerInfo| info_view(x)) =~= before.push(info_view(x)));
                assert(self.entries().map_values(|e: EntryV| reported(e)).take(i + 1)
                    =~= self.entries().map_values(|e: EntryV| reported(e)).take(i as int).push(reported(self.entries()[i as int])));
            }
            i = i + 1;
        }
        proof {
            assert(self.entries().map_values(|e: EntryV| reported(e)).take(n as int) =~= self.entries().map_values(|e: EntryV| reported(e)));
        }
        out
    }

    /// Removes the entry at `i`.
    fn remove_at(&mut self, i: usize)
        requires
            old(self).wf(),
            i < old(self).entries().len(),
        ensures
            final(self).wf(),
            final(self).entries() == old(self).entries().remove(i as int),
    {
        let ghost es = self.entries();
        let _ = self.servers.remove(i);
        proof {
            assert(self.entries() =~= es.remove(i as int));
            assert forall|a: int, b: int| 0 <= a < b < self.entries().len()
                implies self.entries()[a].0 != self.entries()[b].0 by {
                let a2 = if a < i { a } else { a + 1 };
                let b2 = if b < i { b } else { b + 1 };
                assert(self.entries()[a] == es[a2]);
                assert(self.entries()[b] == es[b2]);
            }
        }
    }
}

/// The information of a server just started under `id`.
pub open spec fn started_info(id: Seq<char>) -> InfoV {
    InfoV { id, kind: ServerType::Http, address: listen_address(), pid: None, status: "Starting"@ }
}

/// Two commands are the same command.
pub open spec fn same_command(a: Command, b: Command) -> bool {
    match (a, b) {
        (Command::Ping, Command::Ping) => true,
        (Command::StartServer { config: ConfigSource::CustomLangFileContent(x) },
            Command::StartServer { config: ConfigSource::CustomLangFileContent(y) }) => x@ == y@,
        (Command::StopServer { server_id: x }, Command::StopServer { server_id: y }) => x@ == y@,
        (Command::GetServerStatus { server_id: x }, Command::GetServerStatus { server_id: y }) => x@ == y@,
        (Command::GetAllServersStatus, Command::GetAllServersStatus) => true,
        (Command::CheckForUpdate, Command::CheckForUpdate) => true,
        _ => false,
    }
}

/// A copy of a command.
fn copy_command(c: &Command) -> (r: Command)
    ensures
        same_command(*c, r),
{
    match c {
        Command::Ping => Command::Ping,
        Command::StartServer { config: ConfigSource::CustomLangFileContent(x) } =>
            Command::StartServer { config: ConfigSource::CustomLangFileContent(x.clone()) },
        Command::StopServer { server_id } => Command::StopServer { server_id: server_id.clone() },
        Command::GetServerStatus { server_id } => Command::GetServerStatus { server_id: server_id.clone() },
        Command::GetAllServersStatus => Command::GetAllServersStatus,
        Command::CheckForUpdate => Command::CheckForUpdate,
    }
}

/// Handles a command on behalf of the service: the core carries it out
/// first (see `execute_core_command`); stopping a server removes it and
/// has its task aborted, or reports that it had no task; a status is read
/// from the registry, each server's status given by its task; a configured
/// server is kept under `new_id`, running, and launched on the listening
/// address; anything else is answered as the core answered it. The second
/// part of the result is what the host must do.
#[verifier::rlimit(40)]
pub fn process_command<H: PluginHost>(
    registry: &mut ServerRegistry,
    command: Command,
    new_id: String,
    calls: &mut PluginCalls<H>,
) -> (r: (Result<Response, CoreError>, ServiceAction))
    requires
        old(registry).wf(),
        command matches Command::StartServer { config: ConfigSource::CustomLangFileContent(c) } ==> c@.len() < usize::MAX,
    ensures
        final(registry).wf(),
        final(calls).replies() == old(calls).replies(),
        extends(final(calls).loads(), old(calls).loads()),
        match command {
            Command::Ping => (r.0 matches Ok(Response::Pong)) && r.1 is Nothing
                && final(registry).entries() == old(registry).entries(),
            Command::CheckForUpdate => (r.0 matches Ok(Response::UpToDate(v)) && v@ == CORE_VERSION@) && r.1 is Nothing
                && final(registry).entries() == old(registry).entries(),
            Command::StopServer { server_id } => match entry_index(old(registry).entries(), server_id@) {
                None => (r.0 matches Err(CoreError::ServerNotFound(m)) && m@ == server_id@) && r.1 is Nothing
                    && final(registry).entries() == old(registry).entries(),
                Some(i) => final(registry).entries() == old(registry).entries().remove(i) && if old(registry).entries()[i].2 != TaskState::Missing {
                    (r.0 matches Ok(Response::ServerStopped(m)) && m@ == server_id@)
                        && (r.1 matches ServiceAction::AbortAndSave(a) && a@ == server_id@)
                } else {
                    (r.0 matches Err(CoreError::OperationFailed(m)) && m@ == "Handle missing for "@ + server_id@ + ", removed."@)
                        && r.1 is Save
                },
            },
            Command::GetServerStatus { server_id } => final(registry).entries() == old(registry).entries() && r.1 is Nothing
                && match entry_index(old(registry).entries(), server_id@) {
                    None => r.0 matches Err(CoreError::ServerNotFound(m)) && m@ == server_id@,
                    Some(i) => r.0 matches Ok(Response::ServerStatus(info)) && info_view(info) == reported(old(registry).entries()[i]),
                },
            Command::GetAllServersStatus => final(registry).entries() == old(registry).entries() && r.1 is Nothing
                && (r.0 matches Ok(Response::AllServersStatusReport(list))
                && list@.map_values(|x: ServerInfo| info_view(x)) == old(registry).entries().map_values(|e: EntryV| reported(e))),
            Command::StartServer { config: ConfigSource::CustomLangFileContent(content) } => match parsed_config(content@) {
                Err(m) => final(registry).entries() == old(registry).entries() && r.1 is Nothing
                    && (r.0 matches Ok(Response::Error(CoreError::ConfigParseError(e))) && e@ == "Parsing error: "@ + m),
                Ok(ast) => {
                    let (u, sv) = sp_interpret(empty_server(), ast, final(calls).loads(), old(calls).loads().len());
                    match u {
                        Ok(_) => final(registry).entries() == put(old(registry).entries(), new_id@, started_info(new_id@), TaskState::Running)
                            && (r.0 matches Ok(Response::ServerStarted(info)) && info_view(info) == started_info(new_id@))
                            && (r.1 matches ServiceAction::Launch { id, address, interpreter, tls_config }
                            && id@ == new_id@ && address@ == listen_address() && server_view(interpreter) == sv),
                        Err(m) => final(registry).entries() == old(registry).entries() && r.1 is Nothing
                            && (r.0 matches Ok(Response::Error(CoreError::ConfigParseError(e))) && e@ == "Interpretation error: "@ + m),
                    }
                },
            },
        },
{
    let cmd = copy_command(&command);
    let core = execute_core_command(command, calls);
    match core {
        CoreExecutionResult::CliResponse(core_response) => match cmd {
            Command::StopServer { server_id } => match registry.find(server_id.as_str()) {
                None => (Err(CoreError::ServerNotFound(server_id)), ServiceAction::Nothing),
                Some(i) => {
                    let had_task = match registry.servers[i].1.task {
                        TaskState::Missing => false,
                        _ => true,
                    };
                    registry.remove_at(i);
                    if had_task {
                        let id2 = server_id.clone();
                        (Ok(Response::ServerStopped(server_id)), ServiceAction::AbortAndSave(id2))
                    } else {
                        let mut m = text("Handle missing for ");
                        m.append(server_id.as_str());
                        m.append(", removed.");
                        (Err(CoreError::OperationFailed(m)), ServiceAction::Save)
                    }
                },
            },
            Command::GetServerStatus { server_id } => match registry.find(server_id.as_str()) {
                None => (Err(CoreError::ServerNotFound(server_id)), ServiceAction::Nothing),
                Some(i) => (Ok(Response::ServerStatus(registry.report(i))), ServiceAction::Nothing),
            },
            Command::GetAllServersStatus => match core_response {
                Response::Acknowledged => (Ok(Response::AllServersStatusReport(registry.report_all())), ServiceAction::Nothing),
                other => (Ok(other), ServiceAction::Nothing),
            },
            _ => (Ok(core_response), ServiceAction::Nothing),
        },
        CoreExecutionResult::StartHttpServer { interpreter, tls_config } => {
            let address = text("127.0.0.1:9090");
            let info = ServerInfo {
                server_id: new_id.clone(),
                server_type: ServerType::Http,
                address: address.clone(),
                pid: None,
                status: text("Starting"),
            };
            let kept = ServerInfo {
                server_id: new_id.clone(),
                server_type: ServerType::Http,
                address: address.clone(),
                pid: None,
                status: text("Starting"),
            };
            registry.put_entry(new_id.clone(), kept, TaskState::Running);
            (Ok(Response::ServerStarted(info)), ServiceAction::Launch { id: new_id, address, interpreter, tls_config })
        },
    }
}

} // verus!
