use vstd::prelude::*;
use crate::language::ast::{AstNode, SpecAst, ast_view, asts_view, lemma_list_view, node_debug, node_debug_text};
use crate::language::text::{text, str_eq};
use super::{RouteAction, SpecAction, RouteHandler, ErrorHandler, Interpreter, TlsConfig, Configuration, Request, Response};
use super::builtin::request::{HttpBodyVariant, body_encodable};
use crate::language::strmap::StrMap;
use super::{plain_actions_view};
use super::convert::{conv_block, convert_block};
use super::semantics::HandlerV;
use super::run::{import_list, lemma_import_list_step, lemma_import_list_prefix, PluginHost, PluginCalls, handler_view, extends, lemma_extends_trans, lemma_extends_refl, load_view};
use super::run::{strings_view, starts_with, res_view, resp_view, env_of, ready};
use super::semantics::{Reply, Asked, ReqV, RespV, Env, St, run_route};
use super::builtin::response::{sent_headers, add_default_content_type};

verus! {

/// A route as the server keeps it: its key (method, `:`, path), its path,
/// its actions and its own error handler.
pub struct RouteV {
    pub key: Seq<char>,
    pub path: Seq<char>,
    pub actions: Seq<SpecAction>,
    pub handler: Option<HandlerV>,
}

/// TLS settings.
pub struct TlsV {
    pub enabled: bool,
    pub cert_path: Seq<char>,
    pub key_path: Seq<char>,
}

/// The settings of a `config` block.
pub struct ConfigV {
    pub config_type: Seq<char>,
    pub host: Seq<char>,
    pub port: Seq<char>,
}

/// A configured server.
pub struct ServerV {
    pub routes: Seq<RouteV>,
    pub tls: Option<TlsV>,
    pub global: Option<HandlerV>,
    pub config: Option<ConfigV>,
    pub plugins: Seq<Seq<char>>,
}

/// The view of a route entry.
pub open spec fn route_view(r: (String, String, RouteHandler)) -> RouteV {
    RouteV {
        key: r.0@,
        path: r.1@,
        actions: plain_actions_view(r.2.actions@),
        handler: handler_view(r.2.error_handler),
    }
}

/// The view of a server.
pub open spec fn server_view(i: Interpreter) -> ServerV {
    ServerV {
        routes: i.routes@.map_values(|r: (String, String, RouteHandler)| route_view(r)),
        tls: match i.tls_config {
            Some(t) => Some(TlsV { enabled: t.enabled, cert_path: t.cert_path@, key_path: t.key_path@ }),
            None => None,
        },
        global: handler_view(i.global_error_handler),
        config: match i.configuration {
            Some(c) => Some(ConfigV { config_type: c.config_type@, host: c.host@, port: c.port@ }),
            None => None,
        },
        plugins: i.plugins(),
    }
}

/// The index of the first route with key `key`, if any.
#[verifier::opaque]
pub open spec fn key_index(routes: Seq<RouteV>, key: Seq<char>) -> Option<int> {
    if exists|i: int| 0 <= i < routes.len() && routes[i].key == key {
        Some(choose|i: int| 0 <= i < routes.len() && routes[i].key == key && forall|j: int| 0 <= j < i ==> routes[j].key != key)
    } else {
        None
    }
}

/// Adds a route: it takes the place of the route with its key, if any,
/// else it comes last.
pub open spec fn routes_insert(routes: Seq<RouteV>, r: RouteV) -> Seq<RouteV> {
    match key_index(routes, r.key) {
        Some(i) => routes.update(i, r),
        None => routes.push(r),
    }
}

/// The statements a top-level node stands for, with the server's TLS,
/// global error handler and `config` nodes.
pub open spec fn top_parts(ast: SpecAst) -> Result<(Seq<SpecAst>, Option<SpecAst>, Option<SpecAst>, Option<SpecAst>), Seq<char>> {
    match ast {
        SpecAst::Program(stmts) => Ok((stmts, None, None, None)),
        SpecAst::ServerConfig { routes, tls_config, global_error_handler, config_block } => Ok((
            routes,
            match tls_config { Some(b) => Some(*b), None => None },
            match global_error_handler { Some(b) => Some(*b), None => None },
            match config_block { Some(b) => Some(*b), None => None },
        )),
        SpecAst::Import { .. } => Ok((seq![ast], None, None, None)),
        _ => Err("Ожидается Program или ServerConfig на верхнем уровне, получено: "@ + node_debug_text(ast)),
    }
}

/// The plugins a syntax tree imports, in order: alias and path.
pub open spec fn ast_imports(ast: SpecAst) -> Seq<(Seq<char>, Seq<char>)> {
    match top_parts(ast) {
        Ok((stmts, _, _, _)) => import_list(stmts),
        Err(_) => Seq::empty(),
    }
}

/// Takes the TLS node, if any.
pub open spec fn apply_tls(v: ServerV, n: Option<SpecAst>) -> Result<ServerV, Seq<char>> {
    match n {
        None => Ok(v),
        Some(SpecAst::TlsConfig { enabled, cert_path, key_path }) => Ok(ServerV { tls: Some(TlsV { enabled, cert_path, key_path }), ..v }),
        Some(_) => Err("Ожидался узел TlsConfig внутри ServerConfig"@),
    }
}

/// Takes the global error handler node, if any.
pub open spec fn apply_global(v: ServerV, n: Option<SpecAst>) -> Result<ServerV, Seq<char>> {
    match n {
        None => Ok(v),
        Some(SpecAst::GlobalErrorHandler { error_var, body }) => match conv_block(*body) {
            Err(e) => Err(e),
            Ok(actions) => Ok(ServerV { global: Some(HandlerV { error_var, actions }), ..v }),
        },
        Some(_) => Err("Ожидался узел GlobalErrorHandler внутри ServerConfig"@),
    }
}

/// Takes the `config` node, if any.
pub open spec fn apply_config(v: ServerV, n: Option<SpecAst>) -> Result<ServerV, Seq<char>> {
    match n {
        None => Ok(v),
        Some(SpecAst::ConfigBlock { config_type, host, port }) => Ok(ServerV { config: Some(ConfigV { config_type, host, port }), ..v }),
        Some(_) => Err("Ожидался узел ConfigBlock внутри ServerConfig"@),
    }
}

/// The plugins after one more is loaded under `alias`.
pub open spec fn plugins_with(p: Seq<Seq<char>>, alias: Seq<char>) -> Seq<Seq<char>> {
    if p.contains(alias) { p } else { p.push(alias) }
}

/// Loads the plugins the first `i` statements import, in order, with the
/// load outcomes `loads` from the `k0`-th on; the first failure stops.
/// Also gives the number of outcomes used.
pub open spec fn load_prefix(
    stmts: Seq<SpecAst>,
    i: int,
    v: ServerV,
    loads: Seq<Result<(), Seq<char>>>,
    k0: nat,
) -> (Result<(), Seq<char>>, ServerV, nat)
    decreases i,
{
    if i <= 0 {
        (Ok(()), v, k0)
    } else {
        let (r, v1, k) = load_prefix(stmts, i - 1, v, loads, k0);
        match r {
            Err(m) => (Err(m), v1, k),
            Ok(_) => match stmts[i - 1] {
                SpecAst::Import { path, alias } => if k < loads.len() {
                    match loads[k as int] {
                        Ok(_) => (Ok(()), ServerV { plugins: plugins_with(v1.plugins, alias), ..v1 }, k + 1),
                        Err(e) => (
                            Err("Критическая ошибка: Не удалось загрузить плагин '"@ + alias + "' из "@ + path + ": "@ + e),
                            v1,
                            k + 1,
                        ),
                    }
                } else {
                    (Err(Seq::empty()), v1, k + 1)
                },
                _ => (Ok(()), v1, k),
            },
        }
    }
}

/// Adds the route a statement describes; other statements are passed
/// over.
pub open spec fn route_step(v: ServerV, n: SpecAst) -> (Result<(), Seq<char>>, ServerV) {
    match n {
        SpecAst::Route { path, method, body, on_error } => match conv_block(*body) {
            Err(e) => (Err("Ошибка конвертации тела маршрута "@ + method + " "@ + path + ": "@ + e), v),
            Ok(actions) => {
                let key = method + ":"@ + path;
                match on_error {
                    None => (Ok(()), ServerV { routes: routes_insert(v.routes, RouteV { key, path, actions, handler: None }), ..v }),
                    Some(h) => match *h {
                        SpecAst::ErrorHandlerBlock { error_var, body: hb } => match conv_block(*hb) {
                            Err(e) => (Err("Ошибка конвертации onError для маршрута "@ + method + " "@ + path + ": "@ + e), v),
                            Ok(ha) => (
                                Ok(()),
                                ServerV {
                                    routes: routes_insert(
                                        v.routes,
                                        RouteV { key, path, actions, handler: Some(HandlerV { error_var, actions: ha }) },
                                    ),
                                    ..v
                                },
                            ),
                        },
                        _ => (Err("Ожидался ErrorHandlerBlock для маршрута "@ + method + " "@ + path), v),
                    },
                }
            },
        },
        _ => (Ok(()), v),
    }
}

/// Adds the routes of the first `i` statements, in order; the first
/// failure stops.
pub open spec fn route_prefix(stmts: Seq<SpecAst>, i: int, v: ServerV) -> (Result<(), Seq<char>>, ServerV)
    decreases i,
{
    if i <= 0 {
        (Ok(()), v)
    } else {
        let (r, v1) = route_prefix(stmts, i - 1, v);
        match r {
            Err(m) => (Err(m), v1),
            Ok(_) => route_step(v1, stmts[i - 1]),
        }
    }
}

/// Configures a server from its statements and its TLS, global error
/// handler and `config` nodes: first the settings, then the imported
/// plugins, with the load outcomes `loads` from the `k0`-th on, then the
/// routes. The first failure stops, and what was set before it stays.
pub open spec fn sp_parts(
    v: ServerV,
    stmts: Seq<SpecAst>,
    tls: Option<SpecAst>,
    global: Option<SpecAst>,
    config: Option<SpecAst>,
    loads: Seq<Result<(), Seq<char>>>,
    k0: nat,
) -> (Result<(), Seq<char>>, ServerV) {
    match apply_tls(v, tls) {
        Err(m) => (Err(m), v),
        Ok(v1) => match apply_global(v1, global) {
            Err(m) => (Err(m), v1),
            Ok(v2) => match apply_config(v2, config) {
                Err(m) => (Err(m), v2),
                Ok(v3) => {
                    let (r4, v4, _) = load_prefix(stmts, stmts.len() as int, v3, loads, k0);
                    match r4 {
                        Err(m) => (Err(m), v4),
                        Ok(_) => route_prefix(stmts, stmts.len() as int, v4),
                    }
                },
            },
        },
    }
}

/// Configures a server from a syntax tree (see `sp_parts`).
pub open spec fn sp_interpret(v: ServerV, ast: SpecAst, loads: Seq<Result<(), Seq<char>>>, k0: nat) -> (Result<(), Seq<char>>, ServerV) {
    match top_parts(ast) {
        Err(m) => (Err(m), v),
        Ok((stmts, tls, global, config)) => sp_parts(v, stmts, tls, global, config, loads, k0),
    }
}

/// Once loading has failed, later statements change nothing.
pub proof fn lemma_load_prefix_stops(
    stmts: Seq<SpecAst>,
    i: int,
    n: int,
    v: ServerV,
    loads: Seq<Result<(), Seq<char>>>,
    k0: nat,
)
    requires
        0 <= i <= n,
        load_prefix(stmts, i, v, loads, k0).0 is Err,
    ensures
        load_prefix(stmts, n, v, loads, k0) == load_prefix(stmts, i, v, loads, k0),
    decreases n - i,
{
    if n > i {
        lemma_load_prefix_stops(stmts, i, n - 1, v, loads, k0);
    }
}

/// Once adding routes has failed, later statements change nothing.
pub proof fn lemma_route_prefix_stops(stmts: Seq<SpecAst>, i: int, n: int, v: ServerV)
    requires
        0 <= i <= n,
        route_prefix(stmts, i, v).0 is Err,
    ensures
        route_prefix(stmts, n, v) == route_prefix(stmts, i, v),
    decreases n - i,
{
    if n > i {
        lemma_route_prefix_stops(stmts, i, n - 1, v);
    }
}

/// The view of an optional node.
pub open spec fn opt_ast(o: Option<Box<AstNode>>) -> Option<SpecAst> {
    match o {
        Some(b) => Some(ast_view(*b)),
        None => None,
    }
}

/// The plain view of a result without a value.
pub open spec fn unit_view(r: Result<(), String>) -> Result<(), Seq<char>> {
    match r {
        Ok(_) => Ok(()),
        Err(m) => Err(m@),
    }
}

impl Interpreter {
    /// The index of the first route with key `key` (see `key_index`).
    fn route_index(&self, key: &str) -> (r: Option<usize>)
        ensures
            r matches Some(i) ==> i < self.routes@.len() && key_index(server_view(*self).routes, key@) == Some(i as int),
            r is None ==> key_index(server_view(*self).routes, key@) is None,
    {
        let ghost rv = server_view(*self).routes;
        let n = self.routes.len();
        let mut i: usize = 0;
        while i < n
            invariant
                i <= n,
                n == self.routes@.len(),
                rv == server_view(*self).routes,
                forall|j: int| 0 <= j < i ==> rv[j].key != key@,
            decreases n - i,
        {
            if str_eq(self.routes[i].0.as_str(), key) {
                proof {
                    reveal(key_index);
                    assert(rv[i as int].key == key@);
                    let c = choose|k: int| 0 <= k < rv.len() && rv[k].key == key@ && forall|j: int| 0 <= j < k ==> rv[j].key != key@;
                    if c < i {
                        assert(rv[c].key != key@);
                    }
                    if c > i {
                        assert(rv[i as int].key != key@);
                    }
                    assert(key_index(rv, key@) == Some(i as int));
                }
                return Some(i);
            }
            proof {
                assert(rv[i as int].key != key@);
            }
            i = i + 1;
        }
        proof {
            reveal(key_index);
        }
        None
    }

    /// Adds a route (see `routes_insert`).
    fn insert_route(&mut self, key: String, path: String, handler: RouteHandler)
        ensures
            server_view(*final(self)) == (ServerV {
                routes: routes_insert(
                    server_view(*old(self)).routes,
                    RouteV {
                        key: key@,
                        path: path@,
                        actions: plain_actions_view(handler.actions@),
                        handler: handler_view(handler.error_handler),
                    },
                ),
                ..server_view(*old(self))
            }),
    {
        let ghost entry = (key, path, handler);
        match self.route_index(key.as_str()) {
            Some(i) => {
                self.routes.set(i, (key, path, handler));
                proof {
                    assert(server_view(*self).routes =~= server_view(*old(self)).routes.update(i as int, route_view(entry)));
                }
            },
            None => {
                self.routes.push((key, path, handler));
                proof {
                    assert(server_view(*self).routes =~= server_view(*old(self)).routes.push(route_view(entry)));
                }
            },
        }
    }
}

impl Interpreter {
    /// Loads the plugins the statements import, in order (see
    /// `load_prefix`).
    #[verifier::spinoff_prover]
    #[verifier::rlimit(40)]
    fn load_plugins<H: PluginHost>(&mut self, stmts: &Vec<Box<AstNode>>, calls: &mut PluginCalls<H>) -> (r: Result<(), String>)
        ensures
            final(calls).replies() == old(calls).replies(),
            extends(final(calls).loads(), old(calls).loads()),
            final(calls).loads().len() - old(calls).loads().len() <= import_list(asts_view(stmts@)).len(),
            final(calls).load_requests() == old(calls).load_requests()
                + import_list(asts_view(stmts@)).take(final(calls).loads().len() - old(calls).loads().len()),
            forall|ls: Seq<Result<(), Seq<char>>>| #[trigger] extends(ls, final(calls).loads()) ==> {
                let (rr, v, k) = load_prefix(asts_view(stmts@), stmts@.len() as int, server_view(*old(self)), ls, old(calls).loads().len());
                &&& rr == unit_view(r)
                &&& v == server_view(*final(self))
                &&& k == final(calls).loads().len()
            },
    {
        let ghost view = asts_view(stmts@);
        let ghost v0 = server_view(*self);
        let ghost k0 = calls.loads().len();
        let ghost l0 = calls.loads();
        let ghost lr0 = calls.load_requests();
        proof {
            assert(asts_view(stmts@).subrange(0, 0) =~= Seq::<SpecAst>::empty());
            assert(lr0 + Seq::<(Seq<char>, Seq<char>)>::empty() =~= lr0);
            lemma_list_view(*stmts);
            lemma_extends_refl(l0);
        }
        let n = stmts.len();
        let mut i: usize = 0;
        while i < n
            invariant
                i <= n,
                n == stmts@.len(),
                view == asts_view(stmts@),
                v0 == server_view(*old(self)),
                k0 == old(calls).loads().len(),
                l0 == old(calls).loads(),
                calls.replies() == old(calls).replies(),
                extends(calls.loads(), l0),
                lr0 == old(calls).load_requests(),
                calls.load_requests() == lr0 + import_list(view.subrange(0, i as int)),
                calls.loads().len() == k0 + import_list(view.subrange(0, i as int)).len(),
                forall|ls: Seq<Result<(), Seq<char>>>| #[trigger] extends(ls, calls.loads()) ==>
                    load_prefix(view, i as int, v0, ls, k0) == (Ok::<(), Seq<char>>(()), server_view(*self), calls.loads().len()),
            decreases n - i,
        {
            let ghost l1 = calls.loads();
            let ghost lr1 = calls.load_requests();
            let ghost v1 = server_view(*self);
            proof {
                lemma_import_list_step(view, i as int);
            }
            match &*stmts[i] {
                AstNode::Import { path, alias } => {
                    let outcome = calls.load(alias.as_str(), path.as_str());
                    proof {
                        assert(view[i as int] == (SpecAst::Import { path: path@, alias: alias@ }));
                        assert(calls.load_requests() =~= lr0 + import_list(view.subrange(0, i + 1)));
                        assert(calls.loads()[l1.len() as int] == load_view(outcome));
                        assert forall|j: int| 0 <= j < l1.len() implies #[trigger] calls.loads()[j] == l1[j] by {}
                        lemma_extends_trans(calls.loads(), l1, l0);
                    }
                    match outcome {
                        Ok(_) => {
                            if !self.has_plugin(alias.as_str()) {
                                self.loaded_plugins.push(alias.clone());
                                proof {
                                    assert(self.plugins() =~= v1.plugins.push(alias@));
                                }
                            }
                            proof {
                                assert(server_view(*self) == ServerV { plugins: plugins_with(v1.plugins, alias@), ..v1 });
                                assert forall|ls: Seq<Result<(), Seq<char>>>| #[trigger] extends(ls, calls.loads()) implies
                                    load_prefix(view, i + 1, v0, ls, k0) == (Ok::<(), Seq<char>>(()), server_view(*self), calls.loads().len()) by {
                                    lemma_extends_trans(ls, calls.loads(), l1);
                                    assert(ls[l1.len() as int] == calls.loads()[l1.len() as int]);
                                }
                            }
                        },
                        Err(e) => {
                            let mut m = text("Критическая ошибка: Не удалось загрузить плагин '");
                            m.append(alias.as_str());
                            m.append("' из ");
                            m.append(path.as_str());
                            m.append(": ");
                            m.append(e.as_str());
                            proof {
                                assert forall|ls: Seq<Result<(), Seq<char>>>| #[trigger] extends(ls, calls.loads()) implies {
                                    let (rr, v, k) = load_prefix(view, n as int, v0, ls, k0);
                                    &&& rr == Err::<(), Seq<char>>(m@)
                                    &&& v == server_view(*self)
                                    &&& k == calls.loads().len()
                                } by {
                                    lemma_extends_trans(ls, calls.loads(), l1);
                                    assert(ls[l1.len() as int] == calls.loads()[l1.len() as int]);
                                    lemma_load_prefix_stops(view, i + 1, n as int, v0, ls, k0);
                                }
                                lemma_import_list_prefix(view, i + 1);
                            }
                            return Err(m);
                        },
                    }
                },
                _ => {
                    proof {
                        assert(!(view[i as int] is Import));
                    }
                },
            }
            i = i + 1;
        }
        proof {
            assert(view.subrange(0, n as int) =~= view);
            lemma_import_list_prefix(view, n as int);
        }
        Ok(())
    }

    /// Adds the routes the statements describe, in order (see
    /// `route_prefix`).
    #[verifier::spinoff_prover]
    #[verifier::rlimit(40)]
    fn add_routes(&mut self, stmts: &Vec<Box<AstNode>>) -> (r: Result<(), String>)
        ensures
            route_prefix(asts_view(stmts@), stmts@.len() as int, server_view(*old(self))) == (unit_view(r), server_view(*final(self))),
    {
        let ghost view = asts_view(stmts@);
        let ghost v0 = server_view(*self);
        proof {
            lemma_list_view(*stmts);
        }
        let n = stmts.len();
        let mut i: usize = 0;
        while i < n
            invariant
                i <= n,
                n == stmts@.len(),
                view == asts_view(stmts@),
                v0 == server_view(*old(self)),
                route_prefix(view, i as int, v0) == (Ok::<(), Seq<char>>(()), server_view(*self)),
            decreases n - i,
        {
            let ghost before = server_view(*self);
            let r = self.add_route_statement(&stmts[i]);
            proof {
                assert(view[i as int] == ast_view(*stmts@[i as int]));
                assert(route_prefix(view, i + 1, v0) == route_step(before, view[i as int]));
            }
            match r {
                Ok(_) => {},
                Err(m) => {
                    proof {
                        lemma_route_prefix_stops(view, i + 1, n as int, v0);
                    }
                    return Err(m);
                },
            }
            i = i + 1;
        }
        Ok(())
    }

    /// Adds the route a statement describes (see `route_step`).
    #[verifier::spinoff_prover]
    #[verifier::rlimit(40)]
    fn add_route_statement(&mut self, stmt: &AstNode) -> (r: Result<(), String>)
        ensures
            route_step(server_view(*old(self)), stmt@) == (unit_view(r), server_view(*final(self))),
    {
        match stmt {
            AstNode::Route { path, method, body, on_error } => {
                let actions = match convert_block(body) {
                    Ok(a) => a,
                    Err(e) => {
                        let mut m = text("Ошибка конвертации тела маршрута ");
                        m.append(method.as_str());
                        m.append(" ");
                        m.append(path.as_str());
                        m.append(": ");
                        m.append(e.as_str());
                        return Err(m);
                    },
                };
                let error_handler = match on_error {
                    Some(h) => match &**h {
                        AstNode::ErrorHandlerBlock { error_var, body: hb } => match convert_block(hb) {
                            Ok(ha) => {
                                proof {
                                    assert(ast_view(**h) == SpecAst::ErrorHandlerBlock { error_var: error_var@, body: Box::new(ast_view(**hb)) });
                                }
                                Some(ErrorHandler { error_var: error_var.clone(), actions: ha })
                            },
                            Err(e) => {
                                proof {
                                    assert(ast_view(**h) == SpecAst::ErrorHandlerBlock { error_var: error_var@, body: Box::new(ast_view(**hb)) });
                                }
                                let mut m = text("Ошибка конвертации onError для маршрута ");
                                m.append(method.as_str());
                                m.append(" ");
                                m.append(path.as_str());
                                m.append(": ");
                                m.append(e.as_str());
                                return Err(m);
                            },
                        },
                        _ => {
                            proof {
                                assert(!(ast_view(**h) is ErrorHandlerBlock));
                            }
                            let mut m = text("Ожидался ErrorHandlerBlock для маршрута ");
                            m.append(method.as_str());
                            m.append(" ");
                            m.append(path.as_str());
                            return Err(m);
                        },
                    },
                    None => None,
                };
                let handler = RouteHandler::new(actions, error_handler);
                self.add_route(path.clone(), method.clone(), handler);
                Ok(())
            },
            _ => Ok(()),
        }
    }

    /// Takes the server's TLS, global error handler and `config` nodes (see
    /// `apply_tls`, `apply_global`, `apply_config`).
    #[verifier::spinoff_prover]
    #[verifier::rlimit(40)]
    fn apply_settings(&mut self, tls: &Option<Box<AstNode>>, global: &Option<Box<AstNode>>, config: &Option<Box<AstNode>>) -> (r: Result<(), String>)
        ensures
            match apply_tls(server_view(*old(self)), opt_ast(*tls)) {
                Err(m) => r matches Err(e) && e@ == m && server_view(*final(self)) == server_view(*old(self)),
                Ok(v1) => match apply_global(v1, opt_ast(*global)) {
                    Err(m) => r matches Err(e) && e@ == m && server_view(*final(self)) == v1,
                    Ok(v2) => match apply_config(v2, opt_ast(*config)) {
                        Err(m) => r matches Err(e) && e@ == m && server_view(*final(self)) == v2,
                        Ok(v3) => r is Ok && server_view(*final(self)) == v3,
                    },
                },
            },
    {
        match tls {
            Some(n) => match &**n {
                AstNode::TlsConfig { enabled, cert_path, key_path } => {
                    self.tls_config = Some(TlsConfig { enabled: *enabled, cert_path: cert_path.clone(), key_path: key_path.clone() });
                },
                _ => {
                    return Err(text("Ожидался узел TlsConfig внутри ServerConfig"));
                },
            },
            None => {},
        }
        match global {
            Some(n) => match &**n {
                AstNode::GlobalErrorHandler { error_var, body } => {
                    let actions = match convert_block(body) {
                        Ok(a) => a,
                        Err(e) => {
                            return Err(e);
                        },
                    };
                    self.global_error_handler = Some(ErrorHandler { error_var: error_var.clone(), actions });
                },
                _ => {
                    return Err(text("Ожидался узел GlobalErrorHandler внутри ServerConfig"));
                },
            },
            None => {},
        }
        match config {
            Some(n) => match &**n {
                AstNode::ConfigBlock { config_type, host, port } => {
                    self.configuration = Some(Configuration { config_type: config_type.clone(), host: host.clone(), port: port.clone() });
                },
                _ => {
                    return Err(text("Ожидался узел ConfigBlock внутри ServerConfig"));
                },
            },
            None => {},
        }
        Ok(())
    }

    /// Configures the server from its statements and settings nodes (see
    /// `sp_parts`).
    #[verifier::spinoff_prover]
    #[verifier::rlimit(40)]
    fn interpret_parts<H: PluginHost>(
        &mut self,
        stmts: &Vec<Box<AstNode>>,
        tls: &Option<Box<AstNode>>,
        global: &Option<Box<AstNode>>,
        config: &Option<Box<AstNode>>,
        calls: &mut PluginCalls<H>,
    ) -> (r: Result<(), String>)
        ensures
            final(calls).replies() == old(calls).replies(),
            extends(final(calls).loads(), old(calls).loads()),
            final(calls).loads().len() - old(calls).loads().len() <= import_list(asts_view(stmts@)).len(),
            final(calls).load_requests() == old(calls).load_requests()
                + import_list(asts_view(stmts@)).take(final(calls).loads().len() - old(calls).loads().len()),
            sp_parts(server_view(*old(self)), asts_view(stmts@), opt_ast(*tls), opt_ast(*global), opt_ast(*config),
                final(calls).loads(), old(calls).loads().len()) == (unit_view(r), server_view(*final(self))),
    {
        proof {
            lemma_extends_refl(calls.loads());
            assert(import_list(asts_view(stmts@)).take(0) =~= Seq::<(Seq<char>, Seq<char>)>::empty());
            assert(calls.load_requests() + Seq::<(Seq<char>, Seq<char>)>::empty() =~= calls.load_requests());
        }
        match self.apply_settings(tls, global, config) {
            Ok(_) => {},
            Err(e) => {
                return Err(e);
            },
        }
        let loaded = self.load_plugins(stmts, calls);
        proof {
            lemma_extends_refl(calls.loads());
        }
        match loaded {
            Ok(_) => {},
            Err(e) => {
                return Err(e);
            },
        }
        self.add_routes(stmts)
    }

    /// Configures the server from a syntax tree: a program, a server
    /// configuration or a lone import (see `sp_interpret`). Plugins are
    /// loaded through `calls`, and the spec reads their outcomes from its
    /// record.
    pub fn interpret<H: PluginHost>(&mut self, ast: &AstNode, calls: &mut PluginCalls<H>) -> (r: Result<(), String>)
        ensures
            final(calls).replies() == old(calls).replies(),
            extends(final(calls).loads(), old(calls).loads()),
            final(calls).loads().len() - old(calls).loads().len() <= ast_imports(ast@).len(),
            final(calls).load_requests() == old(calls).load_requests()
                + ast_imports(ast@).take(final(calls).loads().len() - old(calls).loads().len()),
            sp_interpret(server_view(*old(self)), ast@, final(calls).loads(), old(calls).loads().len())
                == (unit_view(r), server_view(*final(self))),
    {
        proof {
            lemma_extends_refl(calls.loads());
        }
        match ast {
            AstNode::Program(stmts) => {
                proof {
                    lemma_list_view(*stmts);
                }
                let none: Option<Box<AstNode>> = None;
                self.interpret_parts(stmts, &none, &none, &none, calls)
            },
            AstNode::ServerConfig { routes, tls_config, global_error_handler, config_block } => {
                proof {
                    assert(ast@->ServerConfig_routes =~= asts_view(routes@));
                }
                self.interpret_parts(routes, tls_config, global_error_handler, config_block, calls)
            },
            AstNode::Import { path, alias } => {
                let stmts: Vec<Box<AstNode>> = vec![Box::new(AstNode::Import { path: path.clone(), alias: alias.clone() })];
                let none: Option<Box<AstNode>> = None;
                proof {
                    assert(asts_view(stmts@) =~= seq![ast@]);
                }
                self.interpret_parts(&stmts, &none, &none, &none, calls)
            },
            _ => {
                proof {
                    assert(ast_imports(ast@).take(0) =~= Seq::<(Seq<char>, Seq<char>)>::empty());
                    assert(calls.load_requests() + Seq::<(Seq<char>, Seq<char>)>::empty() =~= calls.load_requests());
                }
                let mut m = text("Ожидается Program или ServerConfig на верхнем уровне, получено: ");
                let d = node_debug(ast);
                m.append(d.as_str());
                Err(m)
            },
        }
    }
}

/// The parts of `s` between slashes, empty ones left out, when the part
/// being read so far is `cur`.
pub open spec fn segs_from(s: Seq<char>, cur: Seq<char>) -> Seq<Seq<char>>
    decreases s.len(),
{
    if s.len() == 0 {
        if cur.len() == 0 { Seq::empty() } else { seq![cur] }
    } else if s[0] == '/' {
        let rest = segs_from(s.drop_first(), Seq::empty());
        if cur.len() == 0 { rest } else { seq![cur] + rest }
    } else {
        segs_from(s.drop_first(), cur.push(s[0]))
    }
}

/// The parts of a path between slashes, empty ones left out.
pub open spec fn segments(s: Seq<char>) -> Seq<Seq<char>> {
    segs_from(s, Seq::empty())
}

/// A route path part that names a parameter: `{name}`.
pub open spec fn is_param(a: Seq<char>) -> bool {
    a.len() > 0 && a[0] == '{' && a.last() == '}'
}

/// The name of a parameter part.
pub open spec fn param_name(a: Seq<char>) -> Seq<char> {
    a.subrange(1, a.len() - 1)
}

/// Matches route path parts against request path parts of the same
/// number, in order: a parameter part takes the request part as its value,
/// any other part must be equal.
pub open spec fn match_parts(rp: Seq<Seq<char>>, qp: Seq<Seq<char>>) -> Option<Map<Seq<char>, Seq<char>>>
    decreases rp.len(),
{
    if rp.len() == 0 {
        Some(Map::empty())
    } else {
        match match_parts(rp.drop_last(), qp.drop_last()) {
            None => None,
            Some(m) => if is_param(rp.last()) {
                Some(m.insert(param_name(rp.last()), qp.last()))
            } else if rp.last() == qp.last() {
                Some(m)
            } else {
                None
            },
        }
    }
}

/// Whether a request path fits a route path, and the parameters it gives:
/// a route path with braces is matched part by part, any other must be
/// equal.
pub open spec fn match_path(route_path: Seq<char>, path: Seq<char>) -> Option<Map<Seq<char>, Seq<char>>> {
    if route_path.contains('{') && route_path.contains('}') {
        let rp = segments(route_path);
        let qp = segments(path);
        if rp.len() == qp.len() { match_parts(rp, qp) } else { None }
    } else if route_path == path {
        Some(Map::empty())
    } else {
        None
    }
}

/// Whether a route answers a request with this method and path, and the
/// parameters it gives.
pub open spec fn route_match(r: RouteV, method: Seq<char>, path: Seq<char>) -> Option<Map<Seq<char>, Seq<char>>> {
    let prefix = method + ":"@;
    if prefix.len() <= r.key.len() && r.key.subrange(0, prefix.len() as int) == prefix {
        match_path(r.path, path)
    } else {
        None
    }
}

/// The index of the first route that answers the request, if any.
#[verifier::opaque]
pub open spec fn first_match(routes: Seq<RouteV>, method: Seq<char>, path: Seq<char>) -> Option<int> {
    if exists|i: int| 0 <= i < routes.len() && route_match(routes[i], method, path) is Some {
        Some(choose|i: int| 0 <= i < routes.len() && route_match(routes[i], method, path) is Some
            && forall|j: int| 0 <= j < i ==> route_match(routes[j], method, path) is None)
    } else {
        None
    }
}

/// A new response: status 200, no headers, no body, not sent.
pub open spec fn fresh_response() -> RespV {
    RespV { status: 200, headers: Map::empty(), body: None, is_sent: false }
}

/// The answer when no route fits: `404 Not Found` as plain text.
pub open spec fn not_found() -> RespV {
    RespV {
        status: 404,
        headers: Map::empty().insert("Content-Type"@, "text/plain; charset=utf-8"@),
        body: Some("Not Found"@),
        is_sent: true,
    }
}

/// Answers a request: the first route that fits runs, with the parameters
/// of its path added to those of the request; a response with a body and
/// no content type gets the plain text type. With no route, `404`. The
/// error is the message of a panic the route asked for. Also gives what
/// the plugins' dispatchers were asked, after `asked0`.
pub open spec fn sp_handle(
    v: ServerV,
    method: Seq<char>,
    path: Seq<char>,
    req: ReqV,
    replies: Seq<Reply>,
    asked0: Seq<Asked>,
) -> (Result<RespV, Seq<char>>, Seq<Asked>) {
    match first_match(v.routes, method, path) {
        None => (Ok(not_found()), asked0),
        Some(j) => {
            let r = v.routes[j];
            let m = route_match(r, method, path)->Some_0;
            let req2 = ReqV { params: req.params.union_prefer_right(m), ..req };
            let (p, s) = run_route(
                Env { req: req2, plugins: v.plugins, replies },
                r.actions,
                r.handler,
                v.global,
                St { resp: fresh_response(), vars: Map::empty(), asked: asked0 },
            );
            match p {
                Some(msg) => (Err(msg), s.asked),
                None => (Ok(RespV { headers: sent_headers(s.resp.headers, s.resp.body is Some), ..s.resp }), s.asked),
            }
        },
    }
}

/// Whether `s` holds the character `c`.
fn has_char(s: &str, c: char) -> (r: bool)
    ensures
        r == s@.contains(c),
{
    let n = s.unicode_len();
    let mut i: usize = 0;
    while i < n
        invariant
            i <= n,
            n == s@.len(),
            forall|j: int| 0 <= j < i ==> s@[j] != c,
        decreases n - i,
    {
        if s.get_char(i) == c {
            return true;
        }
        i = i + 1;
    }
    false
}

/// The parts of a path (see `segments`).
fn segments_of(s: &str) -> (r: Vec<String>)
    ensures
        strings_view(r@) == segments(s@),
{
    let n = s.unicode_len();
    let mut out: Vec<String> = Vec::new();
    let mut cur = String::new();
    let mut i: usize = 0;
    proof {
        assert(s@.subrange(0, n as int) =~= s@);
        assert(strings_view(out@) + segs_from(s@, cur@) =~= segs_from(s@, cur@));
    }
    while i < n
        invariant
            i <= n,
            n == s@.len(),
            segments(s@) == strings_view(out@) + segs_from(s@.subrange(i as int, n as int), cur@),
        decreases n - i,
    {
        let c = s.get_char(i);
        let ghost rest = s@.subrange(i as int, n as int);
        proof {
            assert(rest[0] == c);
            assert(rest.drop_first() =~= s@.subrange(i + 1, n as int));
        }
        if c == '/' {
            if cur.unicode_len() > 0 {
                let ghost before = strings_view(out@);
                out.push(cur);
                proof {
                    assert(strings_view(out@) =~= before.push(cur@));
                    assert(strings_view(out@) + segs_from(s@.subrange(i + 1, n as int), Seq::empty())
                        =~= before + (seq![cur@] + segs_from(s@.subrange(i + 1, n as int), Seq::empty())));
                }
            }
            cur = String::new();
        } else {
            let ghost old_cur = cur@;
            cur.append(s.substring_char(i, i + 1));
            proof {
                assert(s@.subrange(i as int, i + 1) =~= seq![c]);
                assert(cur@ =~= old_cur.push(c));
            }
        }
        i = i + 1;
    }
    proof {
        assert(s@.subrange(n as int, n as int).len() == 0);
    }
    if cur.unicode_len() > 0 {
        let ghost before = strings_view(out@);
        out.push(cur);
        proof {
            assert(strings_view(out@) =~= before + seq![cur@]);
        }
    } else {
        proof {
            assert(strings_view(out@) + Seq::<Seq<char>>::empty() =~= strings_view(out@));
        }
    }
    out
}

/// Once part matching has failed, more parts do not help.
pub proof fn lemma_match_parts_stops(rp: Seq<Seq<char>>, qp: Seq<Seq<char>>, i: int, n: int)
    requires
        0 <= i <= n <= rp.len(),
        n <= qp.len(),
        match_parts(rp.take(i), qp.take(i)) is None,
    ensures
        match_parts(rp.take(n), qp.take(n)) is None,
    decreases n - i,
{
    if n > i {
        lemma_match_parts_stops(rp, qp, i, n - 1);
        assert(rp.take(n).drop_last() =~= rp.take(n - 1));
        assert(qp.take(n).drop_last() =~= qp.take(n - 1));
    }
}

/// Whether a route path part names a parameter (see `is_param`).
fn is_param_part(a: &str) -> (r: bool)
    ensures
        r == is_param(a@),
        r ==> a@.len() >= 2,
{
    let n = a.unicode_len();
    n > 0 && a.get_char(0) == '{' && a.get_char(n - 1) == '}'
}

/// Matches `path` against `route_path` (see `match_path`); on a match the
/// parameters it gives are added to `params`, else `params` stays.
pub(crate) fn match_path_into(route_path: &str, path: &str, params: &mut StrMap) -> (r: bool)
    requires
        old(params).wf(),
    ensures
        final(params).wf(),
        match match_path(route_path@, path@) {
            Some(m) => r && final(params)@ == old(params)@.union_prefer_right(m),
            None => !r && final(params)@ == old(params)@,
        },
{
    if has_char(route_path, '{') && has_char(route_path, '}') {
        let rp = segments_of(route_path);
        let qp = segments_of(path);
        let ghost rv = strings_view(rp@);
        let ghost qv = strings_view(qp@);
        if rp.len() != qp.len() {
            return false;
        }
        let n = rp.len();
        let mut merged = params.duplicate();
        let mut i: usize = 0;
        proof {
            assert(rv.take(0).len() == 0);
            assert(params@.union_prefer_right(Map::empty()) =~= params@);
        }
        while i < n
            invariant
                i <= n,
                n == rp@.len(),
                n == qp@.len(),
                rv == strings_view(rp@),
                qv == strings_view(qp@),
                rv == segments(route_path@),
                qv == segments(path@),
                route_path@.contains('{') && route_path@.contains('}'),
                merged.wf(),
                params.wf(),
                *params == *old(params),
                match_parts(rv.take(i as int), qv.take(i as int)) is Some,
                merged@ == params@.union_prefer_right(match_parts(rv.take(i as int), qv.take(i as int))->Some_0),
            decreases n - i,
        {
            let ghost m0 = match_parts(rv.take(i as int), qv.take(i as int))->Some_0;
            proof {
                assert(rv.take(i + 1).drop_last() =~= rv.take(i as int));
                assert(qv.take(i + 1).drop_last() =~= qv.take(i as int));
                assert(rv.take(i + 1).last() == rp@[i as int]@);
                assert(qv.take(i + 1).last() == qp@[i as int]@);
            }
            let a = rp[i].as_str();
            if is_param_part(a) {
                let name = a.substring_char(1, a.unicode_len() - 1);
                merged.insert(text(name), qp[i].clone());
                proof {
                    assert(merged@ =~= params@.union_prefer_right(m0.insert(param_name(rp@[i as int]@), qp@[i as int]@)));
                }
            } else if str_eq(a, qp[i].as_str()) {
            } else {
                proof {
                    assert(!is_param(rv.take(i + 1).last()));
                    assert(rv.take(i + 1).last() != qv.take(i + 1).last());
                    assert(match_parts(rv.take(i + 1), qv.take(i + 1)) is None);
                    lemma_match_parts_stops(rv, qv, i + 1, n as int);
                    assert(rv.take(n as int) =~= rv);
                    assert(qv.take(n as int) =~= qv);
                }
                return false;
            }
            i = i + 1;
        }
        proof {
            assert(rv.take(n as int) =~= rv);
            assert(qv.take(n as int) =~= qv);
        }
        *params = merged;
        true
    } else if str_eq(route_path, path) {
        proof {
            assert(params@.union_prefer_right(Map::empty()) =~= params@);
        }
        true
    } else {
        false
    }
}

/// Answers a request to the server (see `sp_handle`). Plugins are asked
/// through `calls`, and the spec reads their replies from its record. The
/// error is the message of a panic the route asked for with `!!`.
#[verifier::spinoff_prover]
#[verifier::rlimit(60)]
pub fn handle_request<H: PluginHost>(
    interpreter: &Interpreter,
    method: &str,
    path: &str,
    params: StrMap,
    headers: StrMap,
    body: HttpBodyVariant,
    calls: &mut PluginCalls<H>,
) -> (r: Result<Response, String>)
    requires
        params.wf(),
        headers.wf(),
        body_encodable(body),
    ensures
        extends(final(calls).replies(), old(calls).replies()),
        ({
            let (res, asked) = sp_handle(
                server_view(*interpreter),
                method@,
                path@,
                ReqV { params: params@, headers: headers@, body },
                final(calls).replies(),
                old(calls).asked(),
            );
            &&& asked == final(calls).asked()
            &&& match res {
                Ok(rv) => r matches Ok(resp) && resp_view(resp) == rv && resp.headers.wf(),
                Err(m) => r matches Err(e) && e@ == m,
            }
        }),
{
    let ghost sv = server_view(*interpreter);
    let ghost log0 = calls.replies();
    proof {
        lemma_extends_refl(log0);
    }
    let mut prefix = text(method);
    prefix.append(":");
    let n = interpreter.routes.len();
    let mut i: usize = 0;
    while i < n
        invariant
            i <= n,
            n == interpreter.routes@.len(),
            sv == server_view(*interpreter),
            prefix@ == method@ + ":"@,
            params.wf(),
            headers.wf(),
            body_encodable(body),
            calls.replies() == log0,
            log0 == old(calls).replies(),
            calls.asked() == old(calls).asked(),
            forall|j: int| 0 <= j < i ==> route_match(#[trigger] sv.routes[j], method@, path@) is None,
        decreases n - i,
    {
        let entry = &interpreter.routes[i];
        proof {
            assert(sv.routes[i as int] == route_view(*entry));
        }
        if starts_with(entry.0.as_str(), prefix.as_str()) {
            let mut merged = params.duplicate();
            if match_path_into(entry.1.as_str(), path, &mut merged) {
                proof {
                    reveal(first_match);
                    let c = choose|k: int| 0 <= k < sv.routes.len() && route_match(sv.routes[k], method@, path@) is Some
                        && forall|j: int| 0 <= j < k ==> route_match(sv.routes[j], method@, path@) is None;
                    if c < i {
                        assert(route_match(sv.routes[c], method@, path@) is None);
                    }
                    if c > i {
                        assert(route_match(sv.routes[i as int], method@, path@) is None);
                    }
                    assert(first_match(sv.routes, method@, path@) == Some(i as int));
                }
                let mut request = Request { params: merged, headers, body };
                let mut response = Response::new();
                proof {
                    assert(resp_view(response) == fresh_response());
                }
                let p = entry.2.execute(&mut request, &mut response, interpreter, calls);
                match p {
                    Some(m) => {
                        return Err(m);
                    },
                    None => {},
                }
                let has_body = response.body.is_some();
                add_default_content_type(&mut response.headers, has_body);
                return Ok(response);
            }
        }
        i = i + 1;
    }
    proof {
        reveal(first_match);
    }
    let mut response = Response::new();
    response.status(404);
    response.body(text("Not Found"));
    response.send();
    response.headers.insert(text("Content-Type"), text("text/plain; charset=utf-8"));
    proof {
        assert(response.headers@ =~= not_found().headers);
    }
    Ok(response)
}

impl Interpreter {
    /// Adds a route under the key `method:path` (see `routes_insert`).
    pub fn add_route(&mut self, path: String, method: String, handler: RouteHandler)
        ensures
            server_view(*final(self)) == (ServerV {
                routes: routes_insert(
                    server_view(*old(self)).routes,
                    RouteV {
                        key: method@ + ":"@ + path@,
                        path: path@,
                        actions: plain_actions_view(handler.actions@),
                        handler: handler_view(handler.error_handler),
                    },
                ),
                ..server_view(*old(self))
            }),
    {
        let mut key = method;
        key.append(":");
        key.append(path.as_str());
        self.insert_route(key, path, handler);
    }

    /// Sets the TLS settings.
    pub fn set_tls_config(&mut self, enabled: bool, cert_path: String, key_path: String)
        ensures
            server_view(*final(self)) == (ServerV {
                tls: Some(TlsV { enabled, cert_path: cert_path@, key_path: key_path@ }),
                ..server_view(*old(self))
            }),
    {
        self.tls_config = Some(TlsConfig { enabled, cert_path, key_path });
    }

    /// Sets the global error handler.
    pub fn set_global_error_handler(&mut self, error_var: String, actions: Vec<RouteAction>)
        ensures
            server_view(*final(self)) == (ServerV {
                global: Some(HandlerV { error_var: error_var@, actions: plain_actions_view(actions@) }),
                ..server_view(*old(self))
            }),
    {
        self.global_error_handler = Some(ErrorHandler { error_var, actions });
    }

    /// Sets the `config` block's settings.
    pub fn set_configuration(&mut self, config_type: String, host: String, port: String)
        ensures
            server_view(*final(self)) == (ServerV {
                config: Some(ConfigV { config_type: config_type@, host: host@, port: port@ }),
                ..server_view(*old(self))
            }),
    {
        self.configuration = Some(Configuration { config_type, host, port });
    }
}

/// No two routes share a key.
pub open spec fn keys_unique(routes: Seq<RouteV>) -> bool {
    forall|i: int, j: int| 0 <= i < j < routes.len() ==> routes[i].key != routes[j].key
}

/// Adding a route keeps the keys apart, and afterwards the route is the
/// one under its key; the other routes stay.
pub proof fn lemma_routes_insert(routes: Seq<RouteV>, r: RouteV)
    requires
        keys_unique(routes),
    ensures
        keys_unique(routes_insert(routes, r)),
        key_index(routes_insert(routes, r), r.key) matches Some(i) && routes_insert(routes, r)[i] == r,
        forall|k: Seq<char>| k != r.key ==> key_index(routes_insert(routes, r), k) == key_index(routes, k)
            && (key_index(routes, k) matches Some(i) ==> routes_insert(routes, r)[i] == routes[i]),
{
    reveal(key_index);
    let out = routes_insert(routes, r);
    match key_index(routes, r.key) {
        Some(i) => {
            assert(out == routes.update(i, r));
            assert(key_index(out, r.key) == Some(i)) by {
                let c = choose|x: int| 0 <= x < out.len() && out[x].key == r.key && forall|j: int| 0 <= j < x ==> out[j].key != r.key;
                assert(out[i].key == r.key);
                assert forall|j: int| 0 <= j < i implies out[j].key != r.key by {
                    assert(routes[j].key != r.key);
                }
                if c < i {
                    assert(routes[c].key == r.key);
                    assert(routes[i].key == r.key);
                }
                if c > i {
                    assert(out[i].key != r.key);
                }
            }
        },
        None => {
            assert(out == routes.push(r));
            assert(key_index(out, r.key) == Some(routes.len() as int)) by {
                let c = choose|x: int| 0 <= x < out.len() && out[x].key == r.key && forall|j: int| 0 <= j < x ==> out[j].key != r.key;
                assert(out[routes.len() as int].key == r.key);
                if c < routes.len() {
                    assert(routes[c].key == r.key);
                }
            }
        },
    }
    assert forall|k: Seq<char>| k != r.key implies key_index(out, k) == key_index(routes, k)
        && (key_index(routes, k) matches Some(i) ==> out[i] == routes[i]) by {
        assert forall|x: int| 0 <= x < routes.len() implies (out[x].key == k <==> routes[x].key == k) by {
            if out[x] != routes[x] {
                assert(out[x] == r);
            }
        }
        if exists|x: int| 0 <= x < routes.len() && routes[x].key == k {
            let x = choose|x: int| 0 <= x < routes.len() && routes[x].key == k;
            assert(out[x].key == k);
        }
        if exists|x: int| 0 <= x < out.len() && out[x].key == k {
            let x = choose|x: int| 0 <= x < out.len() && out[x].key == k;
            if x == routes.len() {
                assert(out[x] == r);
            }
            assert(routes[x].key == k);
        }
    }
}

/// Configuring routes keeps their keys apart.
pub proof fn lemma_route_prefix_unique(stmts: Seq<SpecAst>, i: int, v: ServerV)
    requires
        keys_unique(v.routes),
    ensures
        keys_unique(route_prefix(stmts, i, v).1.routes),
        route_prefix(stmts, i, v).1.plugins == v.plugins,
    decreases i,
{
    if i > 0 {
        lemma_route_prefix_unique(stmts, i - 1, v);
        let v1 = route_prefix(stmts, i - 1, v).1;
        match stmts[i - 1] {
            SpecAst::Route { path, method, body, on_error } => {
                let key = method + ":"@ + path;
                match conv_block(*body) {
                    Ok(actions) => {
                        lemma_routes_insert(v1.routes, RouteV { key, path, actions, handler: None });
                        match on_error {
                            Some(h) => match *h {
                                SpecAst::ErrorHandlerBlock { error_var, body: hb } => match conv_block(*hb) {
                                    Ok(ha) => {
                                        lemma_routes_insert(
                                            v1.routes,
                                            RouteV { key, path, actions, handler: Some(HandlerV { error_var, actions: ha }) },
                                        );
                                    },
                                    Err(_) => {},
                                },
                                _ => {},
                            },
                            None => {},
                        }
                    },
                    Err(_) => {},
                }
            },
            _ => {},
        }
    }
}

/// Loading plugins leaves the routes alone.
pub proof fn lemma_load_prefix_routes(stmts: Seq<SpecAst>, i: int, v: ServerV, loads: Seq<Result<(), Seq<char>>>, k0: nat)
    ensures
        load_prefix(stmts, i, v, loads, k0).1.routes == v.routes,
    decreases i,
{
    if i > 0 {
        lemma_load_prefix_routes(stmts, i - 1, v, loads, k0);
    }
}

/// However a server is configured from a syntax tree, no two of its routes
/// share a key (method and path), as in a map from keys to routes.
pub proof fn lemma_interpret_keys_unique(v: ServerV, ast: SpecAst, loads: Seq<Result<(), Seq<char>>>, k0: nat)
    requires
        keys_unique(v.routes),
    ensures
        keys_unique(sp_interpret(v, ast, loads, k0).1.routes),
{
    match top_parts(ast) {
        Err(_) => {},
        Ok((stmts, tls, global, config)) => match apply_tls(v, tls) {
            Err(_) => {},
            Ok(v1) => match apply_global(v1, global) {
                Err(_) => {},
                Ok(v2) => match apply_config(v2, config) {
                    Err(_) => {},
                    Ok(v3) => {
                        lemma_load_prefix_routes(stmts, stmts.len() as int, v3, loads, k0);
                        let v4 = load_prefix(stmts, stmts.len() as int, v3, loads, k0).1;
                        lemma_route_prefix_unique(stmts, stmts.len() as int, v4);
                    },
                },
            },
        },
    }
}

/// A request that no route fits is answered `404 Not Found`, and no plugin
/// is asked.
pub proof fn lemma_unmatched_request_not_found(
    v: ServerV,
    method: Seq<char>,
    path: Seq<char>,
    req: ReqV,
    replies: Seq<Reply>,
    asked0: Seq<Asked>,
)
    requires
        forall|i: int| 0 <= i < v.routes.len() ==> route_match(#[trigger] v.routes[i], method, path) is None,
    ensures
        sp_handle(v, method, path, req, replies, asked0) == (Ok::<RespV, Seq<char>>(not_found()), asked0),
{
    reveal(first_match);
}

/// A route path without braces fits exactly the request path equal to it,
/// and gives no parameters.
pub proof fn lemma_plain_route_path(route_path: Seq<char>, path: Seq<char>)
    requires
        !route_path.contains('{'),
    ensures
        match_path(route_path, path) == (if route_path == path { Some(Map::<Seq<char>, Seq<char>>::empty()) } else { None }),
{
}

} // verus!
