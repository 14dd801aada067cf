use vstd::prelude::*;
use crate::language::ast::{AstNode, SpecAst, asts_view, lemma_list_view, node_debug, node_debug_text};
use crate::language::ast_copy::duplicate_list;
use crate::language::text::{text, str_eq};
use crate::language::strmap::StrMap;
use crate::language::vm::Object;
use super::{TlsConfig, Configuration};
use super::run::{import_list, lemma_import_list_step, lemma_import_list_prefix, PluginHost, PluginCalls, extends, lemma_extends_trans, lemma_extends_refl, starts_with, strings_view, load_view};
use super::server::{TlsV, ConfigV, match_path, match_path_into, plugins_with, unit_view};
use super::server::{fresh_response, not_found};
use super::route_handler::{RouteHandler, ErrorHandler, handler_of, handler_view, route_run, env_with};
use super::evaluator::{Heard, Services, ObjectRegistry, PluginFunctions};
use super::values::{Fault, FaultV, fault_view};
use super::builtin::request::{Request, HttpBodyVariant};
use super::builtin::response::{Response, sent_headers};
use super::semantics::RespV;

verus! {

/// A route of a configured server, as plain values: its key
/// `METHOD:path`, its path, its statements and its error handler.
pub struct XRouteV {
    pub key: Seq<char>,
    pub path: Seq<char>,
    pub actions: Seq<SpecAst>,
    pub handler: Option<(Seq<char>, Seq<SpecAst>)>,
}

/// A configured server, as plain values: its routes, its TLS settings, its
/// global error handler, its `config` block and its loaded plugins.
pub struct XV {
    pub routes: Seq<XRouteV>,
    pub tls: Option<TlsV>,
    pub global: Option<(Seq<char>, Seq<SpecAst>)>,
    pub config: Option<ConfigV>,
    pub plugins: Seq<Seq<char>>,
}

/// The index of the first route with key `key`.
#[verifier::opaque]
pub open spec fn xkey_index(routes: Seq<XRouteV>, key: Seq<char>) -> Option<int> {
    if exists|i: int| 0 <= i < routes.len() && routes[i].key == key {
        Some(choose|i: int| 0 <= i < routes.len() && routes[i].key == key && forall|j: int| 0 <= j < i ==> routes[j].key != key)
    } else {
        None
    }
}

/// The routes with `r` in place of the route with its key, or after the
/// others.
pub open spec fn xroutes_insert(routes: Seq<XRouteV>, r: XRouteV) -> Seq<XRouteV> {
    match xkey_index(routes, r.key) {
        Some(i) => routes.update(i, r),
        None => routes.push(r),
    }
}

/// The statements of a body: those of a block, or the body itself.
pub open spec fn block_actions(b: SpecAst) -> Seq<SpecAst> {
    match b {
        SpecAst::Block(s) => s,
        _ => seq![b],
    }
}

/// Loads the plugins the first `i` statements import, in order, with the
/// load outcomes `loads` from the `k0`-th on; the first failure stops with
/// the host's message. Also gives the number of outcomes used.
pub open spec fn x_loads(stmts: Seq<SpecAst>, i: int, v: XV, loads: Seq<Result<(), Seq<char>>>, k0: nat) -> (Result<(), Seq<char>>, XV, nat)
    decreases i,
{
    if i <= 0 {
        (Ok(()), v, k0)
    } else {
        let (r, v1, k) = x_loads(stmts, i - 1, v, loads, k0);
        match r {
            Err(m) => (Err(m), v1, k),
            Ok(_) => match stmts[i - 1] {
                SpecAst::Import { alias, .. } => if k < loads.len() {
                    match loads[k as int] {
                        Ok(_) => (Ok(()), XV { plugins: plugins_with(v1.plugins, alias), ..v1 }, k + 1),
                        Err(e) => (Err(e), v1, k + 1),
                    }
                } else {
                    (Err(Seq::empty()), v1, k + 1)
                },
                _ => (Ok(()), v1, k),
            },
        }
    }
}

/// The route a statement describes, added; an import is passed over, any
/// other statement refused.
pub open spec fn x_node(v: XV, n: SpecAst) -> (Result<(), Seq<char>>, XV) {
    match n {
        SpecAst::Route { path, method, body, on_error } => {
            let handler = match on_error {
                None => Ok(None),
                Some(h) => match *h {
                    SpecAst::ErrorHandlerBlock { error_var, body: hb } => Ok(Some((error_var, block_actions(*hb)))),
                    _ => Err("Ожидается ErrorHandlerBlock для маршрута"@),
                },
            };
            match handler {
                Err(m) => (Err(m), v),
                Ok(h) => (Ok(()), XV {
                    routes: xroutes_insert(v.routes, XRouteV { key: method + ":"@ + path, path, actions: block_actions(*body), handler: h }),
                    ..v
                }),
            }
        },
        SpecAst::Import { .. } => (Ok(()), v),
        _ => (Err("Неожиданный тип узла в основном цикле обработки: "@ + node_debug_text(n)), v),
    }
}

/// The routes of the first `i` statements, added in order; the first
/// failure stops.
pub open spec fn x_nodes(stmts: Seq<SpecAst>, i: int, v: XV) -> (Result<(), Seq<char>>, XV)
    decreases i,
{
    if i <= 0 {
        (Ok(()), v)
    } else {
        let (r, v1) = x_nodes(stmts, i - 1, v);
        match r {
            Err(m) => (Err(m), v1),
            Ok(_) => x_node(v1, stmts[i - 1]),
        }
    }
}

/// The plugins the statements import, then their routes.
pub open spec fn x_program(v: XV, stmts: Seq<SpecAst>, loads: Seq<Result<(), Seq<char>>>, k0: nat) -> (Result<(), Seq<char>>, XV) {
    let (r, v1, _) = x_loads(stmts, stmts.len() as int, v, loads, k0);
    match r {
        Err(m) => (Err(m), v1),
        Ok(_) => x_nodes(stmts, stmts.len() as int, v1),
    }
}

/// Configures a server from a syntax tree: a program's imports and
/// routes, or a server block's TLS settings, global error handler and
/// `config` block, then its imports and routes. The first failure stops,
/// and what was set before it stays.
pub open spec fn x_execute(v: XV, ast: SpecAst, loads: Seq<Result<(), Seq<char>>>, k0: nat) -> (Result<(), Seq<char>>, XV) {
    match ast {
        SpecAst::Program(stmts) => x_program(v, stmts, loads, k0),
        SpecAst::ServerConfig { routes, tls_config, global_error_handler, config_block } => {
            let t = match tls_config {
                None => Ok(v),
                Some(n) => match *n {
                    SpecAst::TlsConfig { enabled, cert_path, key_path } => Ok(XV { tls: Some(TlsV { enabled, cert_path, key_path }), ..v }),
                    _ => Err("Ожидался узел TlsConfig внутри ServerConfig"@),
                },
            };
            match t {
                Err(m) => (Err(m), v),
                Ok(v1) => {
                    let g = match global_error_handler {
                        None => Ok(v1),
                        Some(n) => match *n {
                            SpecAst::GlobalErrorHandler { error_var, body } => Ok(XV { global: Some((error_var, block_actions(*body))), ..v1 }),
                            _ => Err("Ожидался узел GlobalErrorHandler внутри ServerConfig"@),
                        },
                    };
                    match g {
                        Err(m) => (Err(m), v1),
                        Ok(v2) => {
                            let c = match config_block {
                                None => Ok(v2),
                                Some(n) => match *n {
                                    SpecAst::ConfigBlock { config_type, host, port } => Ok(XV { config: Some(ConfigV { config_type, host, port }), ..v2 }),
                                    _ => Err("Ожидался узел ConfigBlock внутри ServerConfig"@),
                                },
                            };
                            match c {
                                Err(m) => (Err(m), v2),
                                Ok(v3) => x_program(v3, routes, loads, k0),
                            }
                        },
                    }
                },
            }
        },
        _ => (Err("Ожидается Program или ServerConfig на верхнем уровне, получено: "@ + node_debug_text(ast)), v),
    }
}

/// The plugins a configuration imports, in order: alias and path.
pub open spec fn x_imports(ast: SpecAst) -> Seq<(Seq<char>, Seq<char>)> {
    match ast {
        SpecAst::Program(stmts) => import_list(stmts),
        SpecAst::ServerConfig { routes, .. } => import_list(routes),
        _ => Seq::empty(),
    }
}

/// Whether a route answers a request with this method and path, and the
/// parameters it gives.
pub open spec fn xroute_match(r: XRouteV, method: Seq<char>, path: Seq<char>) -> Option<Map<Seq<char>, Seq<char>>> {
    let prefix = method + ":"@;
    if prefix.len() <= r.key.len() && r.key.subrange(0, prefix.len() as int) == prefix {
        match_path(r.path, path)
    } else {
        None
    }
}

/// The index of the first route that answers the request.
#[verifier::opaque]
pub open spec fn xfirst_match(routes: Seq<XRouteV>, method: Seq<char>, path: Seq<char>) -> Option<int> {
    if exists|i: int| 0 <= i < routes.len() && xroute_match(routes[i], method, path) is Some {
        Some(choose|i: int| 0 <= i < routes.len() && xroute_match(routes[i], method, path) is Some
            && forall|j: int| 0 <= j < i ==> xroute_match(routes[j], method, path) is None)
    } else {
        None
    }
}

/// The view of a response.
pub open spec fn xresp_view(r: Response) -> RespV {
    RespV {
        status: r.status,
        headers: r.headers@,
        body: match r.body {
            Some(b) => Some(b@),
            None => None,
        },
        is_sent: r.is_sent,
    }
}

/// The answer a route's unhandled error `m` gets: status 500 with the
/// message, sent as plain text.
pub open spec fn x_failed(m: Seq<char>) -> RespV {
    RespV {
        status: 500,
        headers: sent_headers(Map::empty(), true),
        body: Some("Internal Server Error: "@ + m),
        is_sent: true,
    }
}

/// Answers a request when the outside answers `hs`: the first route that
/// fits runs on a fresh response, with no response sent before it; an
/// error that no handler takes gives a 500 answer; a fault ends the
/// request. With no route, `404 Not Found`. Also gives the number of
/// answers used.
#[verifier::opaque]
pub open spec fn x_handle(v: XV, method: Seq<char>, path: Seq<char>, limit: nat, hs: Seq<Heard>, k0: nat)
    -> (Result<RespV, FaultV>, nat)
{
    match xfirst_match(v.routes, method, path) {
        None => (Ok(not_found()), k0),
        Some(j) => {
            let r = v.routes[j];
            let (out, k) = route_run(env_with(v.plugins, hs), false, limit, r.actions, r.handler, v.global, k0);
            (match out {
                Ok(None) => Ok(fresh_response()),
                Ok(Some(m)) => Ok(x_failed(m)),
                Err(f) => Err(f),
            }, k)
        },
    }
}

/// A configured server: its routes under their keys in the order the keys
/// first came, its TLS settings, its global error handler, its `config`
/// block and the aliases of its loaded plugins.
pub struct Interpreter {
    pub routes: Vec<(String, String, RouteHandler)>,
    pub tls_config: Option<TlsConfig>,
    pub global_error_handler: Option<ErrorHandler>,
    pub configuration: Option<Configuration>,
    pub plugins: Vec<String>,
}

/// The view of a route entry.
pub open spec fn xroute_view(e: (String, String, RouteHandler)) -> XRouteV {
    XRouteV { key: e.0@, path: e.1@, actions: asts_view(e.2.actions@), handler: handler_of(e.2.error_handler) }
}

/// The view of a configured server.
pub open spec fn xv(i: Interpreter) -> XV {
    XV {
        routes: i.routes@.map_values(|e: (String, String, RouteHandler)| xroute_view(e)),
        tls: match i.tls_config {
            Some(t) => Some(TlsV { enabled: t.enabled, cert_path: t.cert_path@, key_path: t.key_path@ }),
            None => None,
        },
        global: handler_of(i.global_error_handler),
        config: match i.configuration {
            Some(c) => Some(ConfigV { config_type: c.config_type@, host: c.host@, port: c.port@ }),
            None => None,
        },
        plugins: strings_view(i.plugins@),
    }
}

/// A server with nothing configured.
pub open spec fn x_empty() -> XV {
    XV { routes: Seq::empty(), tls: None, global: None, config: None, plugins: Seq::empty() }
}

/// The statements of a body, copied (see `block_actions`).
fn convert_ast_to_actions(node: &AstNode) -> (r: Vec<Box<AstNode>>)
    ensures
        asts_view(r@) == block_actions(node@),
{
    match node {
        AstNode::Block(stmts) => {
            proof {
                lemma_list_view(*stmts);
            }
            duplicate_list(stmts)
        },
        _ => {
            let mut out: Vec<Box<AstNode>> = Vec::new();
            out.push(Box::new(node.duplicate()));
            proof {
                assert(asts_view(out@) =~= seq![node@]);
            }
            out
        },
    }
}

impl Interpreter {
    /// A server with nothing configured.
    pub fn new() -> (r: Interpreter)
        ensures
            xv(r) == x_empty(),
    {
        let r = Interpreter { routes: Vec::new(), tls_config: None, global_error_handler: None, configuration: None, plugins: Vec::new() };
        proof {
            assert(xv(r).routes =~= Seq::<XRouteV>::empty());
            assert(xv(r).plugins =~= Seq::<Seq<char>>::empty());
        }
        r
    }

    /// Whether a plugin is loaded under `alias`.
    pub fn has_plugin(&self, alias: &str) -> (r: bool)
        ensures
            r == strings_view(self.plugins@).contains(alias@),
    {
        let n = self.plugins.len();
        let mut i: usize = 0;
        while i < n
            invariant
                i <= n,
                n == self.plugins@.len(),
                forall|j: int| 0 <= j < i ==> self.plugins@[j]@ != alias@,
            decreases n - i,
        {
            if str_eq(self.plugins[i].as_str(), alias) {
                assert(strings_view(self.plugins@)[i as int] == alias@);
                return true;
            }
            i = i + 1;
        }
        proof {
            if strings_view(self.plugins@).contains(alias@) {
                let j = choose|j: int| 0 <= j < strings_view(self.plugins@).len() && strings_view(self.plugins@)[j] == alias@;
                assert(self.plugins@[j]@ == alias@);
            }
        }
        false
    }

    /// The index of the first route with key `key`.
    fn route_index(&self, key: &str) -> (r: Option<usize>)
        ensures
            r matches Some(i) ==> i < self.routes@.len() && xkey_index(xv(*self).routes, key@) == Some(i as int),
            r is None ==> xkey_index(xv(*self).routes, key@) is None,
    {
        let ghost rv = xv(*self).routes;
        let n = self.routes.len();
        let mut i: usize = 0;
        while i < n
            invariant
                i <= n,
                n == self.routes@.len(),
                rv == xv(*self).routes,
                forall|j: int| 0 <= j < i ==> rv[j].key != key@,
            decreases n - i,
        {
            if str_eq(self.routes[i].0.as_str(), key) {
                proof {
                    reveal(xkey_index);
                    assert(rv[i as int].key == key@);
                    let c = choose|k: int| 0 <= k < rv.len() && rv[k].key == key@ && forall|j: int| 0 <= j < k ==> rv[j].key != key@;
                    if c < i {
                        assert(rv[c].key != key@);
                    }
                    if c > i {
                        assert(rv[i as int].key != key@);
                    }
                }
                return Some(i);
            }
            i = i + 1;
        }
        proof {
            reveal(xkey_index);
        }
        None
    }

    /// Adds a route under the key `method:path`, in place of any with that
    /// key (see `xroutes_insert`).
    pub fn add_route(&mut self, path: String, method: String, handler: RouteHandler)
        ensures
            xv(*final(self)) == (XV {
                routes: xroutes_insert(xv(*old(self)).routes, XRouteV {
                    key: method@ + ":"@ + path@,
                    path: path@,
                    actions: asts_view(handler.actions@),
                    handler: handler_of(handler.error_handler),
                }),
                ..xv(*old(self))
            }),
    {
        let ghost v0 = xv(*self);
        let mut key = method;
        key.append(":");
        key.append(path.as_str());
        let ghost entry = (key, path, handler);
        match self.route_index(key.as_str()) {
            Some(i) => {
                self.routes.set(i, (key, path, handler));
                proof {
                    assert(xv(*self).routes =~= v0.routes.update(i as int, xroute_view(entry)));
                }
            },
            None => {
                self.routes.push((key, path, handler));
                proof {
                    assert(xv(*self).routes =~= v0.routes.push(xroute_view(entry)));
                }
            },
        }
    }

    /// Sets the TLS settings.
    pub fn set_tls_config(&mut self, enabled: bool, cert_path: String, key_path: String)
        ensures
            xv(*final(self)) == (XV { tls: Some(TlsV { enabled, cert_path: cert_path@, key_path: key_path@ }), ..xv(*old(self)) }),
    {
        self.tls_config = Some(TlsConfig { enabled, cert_path, key_path });
    }

    /// Sets the global error handler.
    pub fn set_global_error_handler(&mut self, error_var: String, actions: Vec<Box<AstNode>>)
        ensures
            xv(*final(self)) == (XV { global: Some((error_var@, asts_view(actions@))), ..xv(*old(self)) }),
    {
        self.global_error_handler = Some(ErrorHandler { error_var, actions });
    }

    /// Sets the `config` block's settings.
    pub fn set_configuration(&mut self, config_type: String, host: String, port: String)
        ensures
            xv(*final(self)) == (XV { config: Some(ConfigV { config_type: config_type@, host: host@, port: port@ }), ..xv(*old(self)) }),
    {
        self.configuration = Some(Configuration { config_type, host, port });
    }

    /// Loads the plugin at `path` under `alias` through the host; on
    /// success the alias is among the loaded plugins, else the host's
    /// message is the error.
    pub fn load_plugin<H: PluginHost>(&mut self, path: &str, alias: &str, calls: &mut PluginCalls<H>) -> (r: Result<(), String>)
        ensures
            final(calls).replies() == old(calls).replies(),
            final(calls).loads() == old(calls).loads().push(load_view(r)),
            final(calls).load_requests() == old(calls).load_requests().push((alias@, path@)),
            xv(*final(self)) == match r {
                Ok(_) => XV { plugins: plugins_with(xv(*old(self)).plugins, alias@), ..xv(*old(self)) },
                Err(_) => xv(*old(self)),
            },
    {
        let outcome = calls.load(alias, path);
        match outcome {
            Ok(()) => {
                let ghost p0 = strings_view(self.plugins@);
                if !self.has_plugin(alias) {
                    self.plugins.push(text(alias));
                    proof {
                        assert(strings_view(self.plugins@) =~= p0.push(alias@));
                    }
                }
                Ok(())
            },
            Err(e) => Err(e),
        }
    }

    /// Configures the server from a syntax tree (see `x_execute`).
    pub fn interpret<H: PluginHost>(&mut self, ast: &AstNode, calls: &mut PluginCalls<H>) -> (r: Result<(), String>)
        ensures
            final(calls).replies() == old(calls).replies(),
            extends(final(calls).loads(), old(calls).loads()),
            final(calls).loads().len() - old(calls).loads().len() <= x_imports(ast@).len(),
            final(calls).load_requests() == old(calls).load_requests()
                + x_imports(ast@).take(final(calls).loads().len() - old(calls).loads().len()),
            x_execute(xv(*old(self)), ast@, final(calls).loads(), old(calls).loads().len()) == (unit_view(r), xv(*final(self))),
    {
        let executor = Executor::new();
        executor.execute_ast(ast, self, calls)
    }

    /// Runs route `i`, the first that fits the request, on a fresh
    /// response (see `x_handle`).
    #[verifier::spinoff_prover]
    #[verifier::rlimit(60)]
    fn answer_with<O: Object, G: ObjectRegistry, H: PluginFunctions>(
        &self,
        i: usize,
        Ghost(method): Ghost<Seq<char>>,
        Ghost(path): Ghost<Seq<char>>,
        params: StrMap,
        headers: StrMap,
        body: HttpBodyVariant,
        services: &mut Services<G, H>,
        loop_limit: u64,
    ) -> (r: Result<Response, Fault>)
        requires
            i < self.routes@.len(),
            xfirst_match(xv(*self).routes, method, path) == Some(i as int),
        ensures
            extends(final(services).heard(), old(services).heard()),
            r matches Ok(resp) ==> resp.headers.wf(),
            forall|hs: Seq<Heard>| #[trigger] extends(hs, final(services).heard()) ==>
                x_handle(xv(*self), method, path, loop_limit as nat, hs, old(services).heard().len()) == (match r {
                    Ok(resp) => Ok(xresp_view(resp)),
                    Err(f) => Err(fault_view(f)),
                }, final(services).heard().len()),
    {
        let ghost v = xv(*self);
        let entry = &self.routes[i];
        let mut request = Request::new(params, headers, body);
        let mut response = Response::new();
        let global = self.global_error_handler.as_ref();
        let ghost h0 = services.heard();
        let ghost r0 = response;
        let p = entry.2.execute::<O, G, H>(&mut request, &mut response, &self.plugins, services, global, loop_limit);
        proof {
            assert(v.routes[i as int] == xroute_view(*entry));
            assert(handler_view(global) == v.global);
            let route = v.routes[i as int];
            let hf = services.heard();
            lemma_extends_refl(hf);
            assert(extends(hf, services.heard()));
            assert forall|hs: Seq<Heard>| #[trigger] extends(hs, services.heard()) implies
                x_handle(v, method, path, loop_limit as nat, hs, h0.len()) == (match p {
                    Some(f) => Err::<RespV, FaultV>(fault_view(f)),
                    None => Ok(xresp_view(response)),
                }, services.heard().len()) by {
                reveal(x_handle);
                let (out, k) = route_run(env_with(v.plugins, hs), false, loop_limit as nat, route.actions, route.handler, v.global, h0.len());
                assert(k == services.heard().len());
                match out {
                    Ok(None) => {
                        assert(xresp_view(response) == fresh_response());
                    },
                    Ok(Some(m)) => {
                        assert(r0.headers@ == Map::<Seq<char>, Seq<char>>::empty());
                        assert(xresp_view(response) == x_failed(m));
                    },
                    Err(f) => {},
                }
            }
        }
        match p {
            Some(f) => Err(f),
            None => Ok(response),
        }
    }

    /// Answers a request (see `x_handle`): the parameters of the fitting
    /// route's path are added to those of the request. What the registry
    /// and the plugins answer is recorded in `services`. The error is the
    /// fault that ended the route: a panic, an endless computation, or a
    /// `while` loop still running after `loop_limit` rounds.
    #[verifier::spinoff_prover]
    #[verifier::rlimit(60)]
    pub fn handle_request<O: Object, G: ObjectRegistry, H: PluginFunctions>(
        &self,
        method: &str,
        path: &str,
        params: StrMap,
        headers: StrMap,
        body: HttpBodyVariant,
        services: &mut Services<G, H>,
        loop_limit: u64,
    ) -> (r: Result<Response, Fault>)
        requires
            params.wf(),
        ensures
            extends(final(services).heard(), old(services).heard()),
            r matches Ok(resp) ==> resp.headers.wf(),
            forall|hs: Seq<Heard>| #[trigger] extends(hs, final(services).heard()) ==>
                x_handle(xv(*self), method@, path@, loop_limit as nat, hs, old(services).heard().len()) == (match r {
                    Ok(resp) => Ok(xresp_view(resp)),
                    Err(f) => Err(fault_view(f)),
                }, final(services).heard().len()),
    {
        let ghost v = xv(*self);
        let ghost h0 = services.heard();
        proof {
            lemma_extends_refl(h0);
        }
        let mut prefix = text(method);
        prefix.append(":");
        let n = self.routes.len();
        let mut i: usize = 0;
        while i < n
            invariant
                i <= n,
                n == self.routes@.len(),
                v == xv(*self),
                prefix@ == method@ + ":"@,
                params.wf(),
                services.heard() == h0,
                h0 == old(services).heard(),
                forall|j: int| 0 <= j < i ==> xroute_match(#[trigger] v.routes[j], method@, path@) is None,
            decreases n - i,
        {
            let entry = &self.routes[i];
            proof {
                assert(v.routes[i as int] == xroute_view(*entry));
            }
            if starts_with(entry.0.as_str(), prefix.as_str()) {
                let mut merged = params.duplicate();
                if match_path_into(entry.1.as_str(), path, &mut merged) {
                    proof {
                        reveal(xfirst_match);
                        let c = choose|k: int| 0 <= k < v.routes.len() && xroute_match(v.routes[k], method@, path@) is Some
                            && forall|j: int| 0 <= j < k ==> xroute_match(v.routes[j], method@, path@) is None;
                        if c < i {
                            assert(xroute_match(v.routes[c], method@, path@) is None);
                        }
                        if c > i {
                            assert(xroute_match(v.routes[i as int], method@, path@) is None);
                        }
                        assert(xfirst_match(v.routes, method@, path@) == Some(i as int));
                    }
                    return self.answer_with::<O, G, H>(i, Ghost(method@), Ghost(path@), merged, headers, body, services, loop_limit);
                }
            }
            i = i + 1;
        }
        proof {
            reveal(xfirst_match);
        }
        let mut response = Response::new();
        response.status(404);
        response.body(text("Not Found"));
        response.send();
        proof {
            reveal(x_handle);
            assert(response.headers@ =~= not_found().headers);
        }
        Ok(response)
    }
}

/// Carries out the statements of a configuration on a server.
pub struct Executor {}

impl Executor {
    /// An executor.
    pub fn new() -> (r: Executor) {
        Executor {}
    }

    /// Loads the plugins the statements import, in order (see `x_loads`).
    #[verifier::rlimit(40)]
    fn load_imports<H: PluginHost>(&self, stmts: &Vec<Box<AstNode>>, interpreter: &mut Interpreter, calls: &mut PluginCalls<H>)
        -> (r: Result<(), String>)
        ensures
            final(calls).replies() == old(calls).replies(),
            extends(final(calls).loads(), old(calls).loads()),
            final(calls).loads().len() - old(calls).loads().len() <= import_list(asts_view(stmts@)).len(),
            final(calls).load_requests() == old(calls).load_requests()
                + import_list(asts_view(stmts@)).take(final(calls).loads().len() - old(calls).loads().len()),
            forall|ls: Seq<Result<(), Seq<char>>>| #[trigger] extends(ls, final(calls).loads()) ==> {
                let (rr, v, k) = x_loads(asts_view(stmts@), stmts@.len() as int, xv(*old(interpreter)), ls, old(calls).loads().len());
                &&& rr == unit_view(r)
                &&& v == xv(*final(interpreter))
                &&& k == final(calls).loads().len()
            },
    {
        let ghost view = asts_view(stmts@);
        let ghost v0 = xv(*interpreter);
        let ghost k0 = calls.loads().len();
        let ghost l0 = calls.loads();
        let ghost lr0 = calls.load_requests();
        proof {
            assert(asts_view(stmts@).subrange(0, 0) =~= Seq::<SpecAst>::empty());
            assert(lr0 + Seq::<(Seq<char>, Seq<char>)>::empty() =~= lr0);
            lemma_extends_refl(l0);
        }
        let n = stmts.len();
        let mut i: usize = 0;
        while i < n
            invariant
                i <= n,
                n == stmts@.len(),
                view == asts_view(stmts@),
                v0 == xv(*old(interpreter)),
                k0 == old(calls).loads().len(),
                l0 == old(calls).loads(),
                calls.replies() == old(calls).replies(),
                extends(calls.loads(), l0),
                lr0 == old(calls).load_requests(),
                calls.load_requests() == lr0 + import_list(view.subrange(0, i as int)),
                calls.loads().len() == k0 + import_list(view.subrange(0, i as int)).len(),
                forall|ls: Seq<Result<(), Seq<char>>>| #[trigger] extends(ls, calls.loads()) ==>
                    x_loads(view, i as int, v0, ls, k0) == (Ok::<(), Seq<char>>(()), xv(*interpreter), calls.loads().len()),
            decreases n - i,
        {
            let ghost l1 = calls.loads();
            let ghost v1 = xv(*interpreter);
            proof {
                lemma_import_list_step(view, i as int);
            }
            proof {
                assert(view[i as int] == crate::language::ast::ast_view(*stmts@[i as int]));
            }
            match &*stmts[i] {
                AstNode::Import { path, alias } => {
                    let outcome = interpreter.load_plugin(path.as_str(), alias.as_str(), calls);
                    proof {
                        assert(view[i as int] == (SpecAst::Import { path: path@, alias: alias@ }));
                        assert(calls.load_requests() =~= lr0 + import_list(view.subrange(0, i + 1)));
                        assert forall|j: int| 0 <= j < l1.len() implies #[trigger] calls.loads()[j] == l1[j] by {}
                        lemma_extends_trans(calls.loads(), l1, l0);
                    }
                    match outcome {
                        Ok(()) => {
                            proof {
                                assert forall|ls: Seq<Result<(), Seq<char>>>| #[trigger] extends(ls, calls.loads()) implies
                                    x_loads(view, i + 1, v0, ls, k0) == (Ok::<(), Seq<char>>(()), xv(*interpreter), calls.loads().len()) by {
                                    lemma_extends_trans(ls, calls.loads(), l1);
                                    assert(ls[l1.len() as int] == calls.loads()[l1.len() as int]);
                                }
                            }
                        },
                        Err(e) => {
                            proof {
                                assert forall|ls: Seq<Result<(), Seq<char>>>| #[trigger] extends(ls, calls.loads()) implies {
                                    let (rr, v, k) = x_loads(view, n as int, v0, ls, k0);
                                    &&& rr == Err::<(), Seq<char>>(e@)
                                    &&& v == xv(*interpreter)
                                    &&& k == calls.loads().len()
                                } by {
                                    lemma_extends_trans(ls, calls.loads(), l1);
                                    assert(ls[l1.len() as int] == calls.loads()[l1.len() as int]);
                                    lemma_x_loads_stops(view, i + 1, n as int, v0, ls, k0);
                                }
                                lemma_import_list_prefix(view, i + 1);
                            }
                            return Err(e);
                        },
                    }
                },
                _ => {},
            }
            i = i + 1;
        }
        proof {
            assert(view.subrange(0, n as int) =~= view);
            lemma_import_list_prefix(view, n as int);
        }
        Ok(())
    }

    /// Adds the routes the statements describe, in order (see `x_nodes`).
    #[verifier::rlimit(40)]
    fn execute_nodes(&self, stmts: &Vec<Box<AstNode>>, interpreter: &mut Interpreter) -> (r: Result<(), String>)
        ensures
            x_nodes(asts_view(stmts@), stmts@.len() as int, xv(*old(interpreter))) == (unit_view(r), xv(*final(interpreter))),
    {
        let ghost view = asts_view(stmts@);
        let ghost v0 = xv(*interpreter);
        let n = stmts.len();
        let mut i: usize = 0;
        while i < n
            invariant
                i <= n,
                n == stmts@.len(),
                view == asts_view(stmts@),
                v0 == xv(*old(interpreter)),
                x_nodes(view, i as int, v0) == (Ok::<(), Seq<char>>(()), xv(*interpreter)),
            decreases n - i,
        {
            let ghost before = xv(*interpreter);
            let r = self.execute_node(&stmts[i], interpreter);
            proof {
                assert(view[i as int] == crate::language::ast::ast_view(*stmts@[i as int]));
            }
            match r {
                Ok(()) => {},
                Err(m) => {
                    proof {
                        lemma_x_nodes_stops(view, i + 1, n as int, v0);
                    }
                    return Err(m);
                },
            }
            i = i + 1;
        }
        Ok(())
    }

    /// Adds the route a statement describes (see `x_node`).
    #[verifier::rlimit(30)]
    fn execute_node(&self, node: &AstNode, interpreter: &mut Interpreter) -> (r: Result<(), String>)
        ensures
            x_node(xv(*old(interpreter)), node@) == (unit_view(r), xv(*final(interpreter))),
    {
        match node {
            AstNode::Route { path, method, body, on_error } => {
                let actions = convert_ast_to_actions(body);
                let error_handler = match on_error {
                    Some(on_err) => match &**on_err {
                        AstNode::ErrorHandlerBlock { error_var, body } => {
                            let err_actions = convert_ast_to_actions(body);
                            Some(ErrorHandler { error_var: error_var.clone(), actions: err_actions })
                        },
                        _ => {
                            assert(!(crate::language::ast::ast_view(**on_err) is ErrorHandlerBlock));
                            return Err(text("Ожидается ErrorHandlerBlock для маршрута"));
                        },
                    },
                    None => None,
                };
                let route_handler = RouteHandler::new(actions, error_handler);
                interpreter.add_route(path.clone(), method.clone(), route_handler);
                Ok(())
            },
            AstNode::Import { .. } => Ok(()),
            _ => {
                let mut m = text("Неожиданный тип узла в основном цикле обработки: ");
                let d = node_debug(node);
                m.append(d.as_str());
                Err(m)
            },
        }
    }

    /// The imports, then the routes, of a list of statements (see
    /// `x_program`).
    fn execute_program<H: PluginHost>(&self, stmts: &Vec<Box<AstNode>>, interpreter: &mut Interpreter, calls: &mut PluginCalls<H>)
        -> (r: Result<(), String>)
        ensures
            final(calls).replies() == old(calls).replies(),
            extends(final(calls).loads(), old(calls).loads()),
            final(calls).loads().len() - old(calls).loads().len() <= import_list(asts_view(stmts@)).len(),
            final(calls).load_requests() == old(calls).load_requests()
                + import_list(asts_view(stmts@)).take(final(calls).loads().len() - old(calls).loads().len()),
            x_program(xv(*old(interpreter)), asts_view(stmts@), final(calls).loads(), old(calls).loads().len())
                == (unit_view(r), xv(*final(interpreter))),
    {
        let ghost v0 = xv(*interpreter);
        let ghost view = asts_view(stmts@);
        let ghost k0 = calls.loads().len();
        let loaded = self.load_imports(stmts, interpreter, calls);
        let ghost v1 = xv(*interpreter);
        proof {
            lemma_extends_refl(calls.loads());
            assert(extends(calls.loads(), calls.loads()));
            let t = x_loads(view, view.len() as int, v0, calls.loads(), k0);
            assert(t.0 == unit_view(loaded) && t.1 == v1);
        }
        match loaded {
            Ok(()) => {},
            Err(e) => {
                return Err(e);
            },
        }
        self.execute_nodes(stmts, interpreter)
    }

    /// Configures the server from a syntax tree (see `x_execute`).
    #[verifier::rlimit(40)]
    pub fn execute_ast<H: PluginHost>(&self, ast: &AstNode, interpreter: &mut Interpreter, calls: &mut PluginCalls<H>)
        -> (r: Result<(), String>)
        ensures
            final(calls).replies() == old(calls).replies(),
            extends(final(calls).loads(), old(calls).loads()),
            final(calls).loads().len() - old(calls).loads().len() <= x_imports(ast@).len(),
            final(calls).load_requests() == old(calls).load_requests()
                + x_imports(ast@).take(final(calls).loads().len() - old(calls).loads().len()),
            x_execute(xv(*old(interpreter)), ast@, final(calls).loads(), old(calls).loads().len()) == (unit_view(r), xv(*final(interpreter))),
    {
        proof {
            lemma_extends_refl(calls.loads());
            assert(x_imports(ast@).take(0) =~= Seq::<(Seq<char>, Seq<char>)>::empty());
            assert(calls.load_requests() + Seq::<(Seq<char>, Seq<char>)>::empty() =~= calls.load_requests());
        }
        match ast {
            AstNode::Program(statements) => {
                proof {
                    lemma_list_view(*statements);
                }
                self.execute_program(statements, interpreter, calls)
            },
            AstNode::ServerConfig { routes, tls_config, global_error_handler, config_block } => {
                proof {
                    assert(ast@->ServerConfig_routes =~= asts_view(routes@));
                }
                match tls_config {
                    Some(tls_node) => match &**tls_node {
                        AstNode::TlsConfig { enabled, cert_path, key_path } => {
                            interpreter.set_tls_config(*enabled, cert_path.clone(), key_path.clone());
                        },
                        _ => {
                            assert(!(crate::language::ast::ast_view(**tls_node) is TlsConfig));
                            return Err(text("Ожидался узел TlsConfig внутри ServerConfig"));
                        },
                    },
                    None => {},
                }
                match global_error_handler {
                    Some(handler_node) => match &**handler_node {
                        AstNode::GlobalErrorHandler { error_var, body } => {
                            let actions = convert_ast_to_actions(body);
                            interpreter.set_global_error_handler(error_var.clone(), actions);
                        },
                        _ => {
                            assert(!(crate::language::ast::ast_view(**handler_node) is GlobalErrorHandler));
                            return Err(text("Ожидался узел GlobalErrorHandler внутри ServerConfig"));
                        },
                    },
                    None => {},
                }
                match config_block {
                    Some(config_node) => match &**config_node {
                        AstNode::ConfigBlock { config_type, host, port } => {
                            interpreter.set_configuration(config_type.clone(), host.clone(), port.clone());
                        },
                        _ => {
                            assert(!(crate::language::ast::ast_view(**config_node) is ConfigBlock));
                            return Err(text("Ожидался узел ConfigBlock внутри ServerConfig"));
                        },
                    },
                    None => {},
                }
                self.execute_program(routes, interpreter, calls)
            },
            _ => {
                let mut m = text("Ожидается Program или ServerConfig на верхнем уровне, получено: ");
                let d = node_debug(ast);
                m.append(d.as_str());
                Err(m)
            },
        }
    }
}

/// A request that no route fits is answered `404 Not Found`, and nothing
/// outside is asked.
pub proof fn lemma_unmatched_not_found(v: XV, method: Seq<char>, path: Seq<char>, limit: nat, hs: Seq<Heard>, k0: nat)
    requires
        forall|i: int| 0 <= i < v.routes.len() ==> xroute_match(#[trigger] v.routes[i], method, path) is None,
    ensures
        x_handle(v, method, path, limit, hs, k0) == (Ok::<RespV, FaultV>(not_found()), k0),
{
    reveal(x_handle);
    reveal(xfirst_match);
}

/// A request is answered by the first route that fits it, whatever the
/// routes after it.
pub proof fn lemma_first_route_answers(v: XV, j: int, method: Seq<char>, path: Seq<char>)
    requires
        0 <= j < v.routes.len(),
        xroute_match(v.routes[j], method, path) is Some,
        forall|i: int| 0 <= i < j ==> xroute_match(#[trigger] v.routes[i], method, path) is None,
    ensures
        xfirst_match(v.routes, method, path) == Some(j),
{
    reveal(xfirst_match);
    let c = choose|k: int| 0 <= k < v.routes.len() && xroute_match(v.routes[k], method, path) is Some
        && forall|i: int| 0 <= i < k ==> xroute_match(v.routes[i], method, path) is None;
    if c < j {
        assert(xroute_match(v.routes[c], method, path) is None);
    }
    if c > j {
        assert(xroute_match(v.routes[j], method, path) is None);
    }
}

/// Once loading fails, loading further statements changes nothing.
proof fn lemma_x_loads_stops(stmts: Seq<SpecAst>, i: int, n: int, v: XV, loads: Seq<Result<(), Seq<char>>>, k0: nat)
    requires
        0 <= i <= n,
        x_loads(stmts, i, v, loads, k0).0 is Err,
    ensures
        x_loads(stmts, n, v, loads, k0) == x_loads(stmts, i, v, loads, k0),
    decreases n - i,
{
    if i < n {
        lemma_x_loads_stops(stmts, i + 1, n, v, loads, k0);
    }
}

/// Once a route fails, further statements change nothing.
proof fn lemma_x_nodes_stops(stmts: Seq<SpecAst>, i: int, n: int, v: XV)
    requires
        0 <= i <= n,
        x_nodes(stmts, i, v).0 is Err,
    ensures
        x_nodes(stmts, n, v) == x_nodes(stmts, i, v),
    decreases n - i,
{
    if i < n {
        lemma_x_nodes_stops(stmts, i + 1, n, v);
    }
}

} // verus!
