use vstd::prelude::*;
use crate::language::strmap::StrMap;
use crate::language::text::{text, str_eq, push_decimal, push_decimal_i64, push_decimal_u64, push_bool, bool_text, decimal_chars};
use crate::language::parser::parse_u16;
use crate::language::ast::SpecAst;
use crate::cesium::sdk::{utf8, utf8_char, str_bytes};
use super::{RouteAction, SpecAction, Request, Response, Interpreter, Database, RouteHandler, ErrorHandler};
use super::{action_view, actions_view, plain_actions_view, lemma_action_lists, database_get, lookup_or_empty};
use super::semantics::{Reply, Asked, Res, ReqV, RespV, Env, St, Flow, HandlerV};
use super::semantics::{json_array, first_nul, nul_error, reply_result, plugin_call, ev, ident_value, binary_value};
use super::semantics::{ev_all, call, database_call, response_call, request_call, status_value, act, acts, handler_acts, run_route};
use super::builtin::request::{body_encodable, body_text, body_base64};
use super::builtin::response::sent_headers;

verus! {

/// The plugins a server has loaded, as the host program reaches them.
pub trait PluginHost {
    /// Calls the dispatcher of the plugin loaded under `alias` with a
    /// function name and the function's arguments as a JSON array, and
    /// gives back the dispatcher's reply or what kept it from answering.
    fn dispatch(&mut self, alias: &str, func: &str, args_json: &str) -> Result<String, String>;

    /// Loads the plugin at `path` under `alias`, or says why it could not.
    fn load(&mut self, alias: &str, path: &str) -> Result<(), String>;
}

/// The plain view of a result of text.
pub open spec fn res_view(r: Result<String, String>) -> Res {
    match r {
        Ok(v) => Ok(v@),
        Err(m) => Err(m@),
    }
}

/// The plain view of a load outcome.
pub open spec fn load_view(r: Result<(), String>) -> Result<(), Seq<char>> {
    match r {
        Ok(_) => Ok(()),
        Err(m) => Err(m@),
    }
}


/// The plugins the statements import, in order: alias and path of each
/// `import`.
pub open spec fn import_list(stmts: Seq<SpecAst>) -> Seq<(Seq<char>, Seq<char>)>
    decreases stmts.len(),
{
    if stmts.len() == 0 {
        Seq::empty()
    } else {
        import_list(stmts.drop_last()) + match stmts.last() {
            SpecAst::Import { path, alias } => seq![(alias, path)],
            _ => Seq::empty(),
        }
    }
}

/// The imports of the first `i + 1` statements: those of the first `i`,
/// then that of statement `i`, if it is one.
pub proof fn lemma_import_list_step(stmts: Seq<SpecAst>, i: int)
    requires
        0 <= i < stmts.len(),
    ensures
        import_list(stmts.subrange(0, i + 1)) == import_list(stmts.subrange(0, i)) + match stmts[i] {
            SpecAst::Import { path, alias } => seq![(alias, path)],
            _ => Seq::<(Seq<char>, Seq<char>)>::empty(),
        },
{
    assert(stmts.subrange(0, i + 1).drop_last() =~= stmts.subrange(0, i));
}

/// The imports of the first `i` statements come first among those of all.
pub proof fn lemma_import_list_prefix(stmts: Seq<SpecAst>, i: int)
    requires
        0 <= i <= stmts.len(),
    ensures
        import_list(stmts.subrange(0, i)).len() <= import_list(stmts).len(),
        import_list(stmts).take(import_list(stmts.subrange(0, i)).len() as int) == import_list(stmts.subrange(0, i)),
    decreases stmts.len(),
{
    if i == stmts.len() {
        assert(stmts.subrange(0, i) =~= stmts);
        assert(import_list(stmts).take(import_list(stmts).len() as int) =~= import_list(stmts));
    } else {
        let d = stmts.drop_last();
        assert(d.subrange(0, i) =~= stmts.subrange(0, i));
        lemma_import_list_prefix(d, i);
        let a = import_list(d);
        let m = import_list(stmts.subrange(0, i)).len() as int;
        assert(import_list(stmts).take(m) =~= a.take(m));
    }
}

/// A plugin host together with the record of what its dispatchers were
/// asked and answered, and of the loads asked and how they went, in order.
pub struct PluginCalls<H> {
    host: H,
    dispatched: Ghost<Seq<(Asked, Reply)>>,
    loaded: Ghost<Seq<((Seq<char>, Seq<char>), Result<(), Seq<char>>)>>,
}

impl<H: PluginHost> PluginCalls<H> {
    /// The dispatchers' replies so far, in order.
    pub closed spec fn replies(&self) -> Seq<Reply> {
        self.dispatched@.map_values(|d: (Asked, Reply)| d.1)
    }

    /// The host the calls go to.
    pub closed spec fn the_host(&self) -> H {
        self.host
    }

    /// What the dispatchers were asked so far, in order: alias, function
    /// and arguments as JSON.
    pub closed spec fn asked(&self) -> Seq<Asked> {
        self.dispatched@.map_values(|d: (Asked, Reply)| d.0)
    }

    /// The outcomes of the loads so far, in order.
    pub closed spec fn loads(&self) -> Seq<Result<(), Seq<char>>> {
        self.loaded@.map_values(|l: ((Seq<char>, Seq<char>), Result<(), Seq<char>>)| l.1)
    }

    /// The loads asked so far, in order: alias and path.
    pub closed spec fn load_requests(&self) -> Seq<(Seq<char>, Seq<char>)> {
        self.loaded@.map_values(|l: ((Seq<char>, Seq<char>), Result<(), Seq<char>>)| l.0)
    }

    /// Each question has its reply and each load request its outcome.
    pub proof fn lemma_lengths(&self)
        ensures
            self.asked().len() == self.replies().len(),
            self.load_requests().len() == self.loads().len(),
    {
    }

    /// Starts recording the calls made to `host`.
    pub fn new(host: H) -> (r: Self)
        ensures
            r.replies() == Seq::<Reply>::empty(),
            r.asked() == Seq::<Asked>::empty(),
            r.loads() == Seq::<Result<(), Seq<char>>>::empty(),
            r.load_requests() == Seq::<(Seq<char>, Seq<char>)>::empty(),
            r.the_host() == host,
    {
        let r = PluginCalls { host, dispatched: Ghost(Seq::empty()), loaded: Ghost(Seq::empty()) };
        proof {
            assert(r.replies() =~= Seq::<Reply>::empty());
            assert(r.asked() =~= Seq::<Asked>::empty());
            assert(r.loads() =~= Seq::<Result<(), Seq<char>>>::empty());
            assert(r.load_requests() =~= Seq::<(Seq<char>, Seq<char>)>::empty());
        }
        r
    }

    /// The host.
    pub fn host(&self) -> (r: &H)
        ensures
            *r == self.the_host(),
    {
        &self.host
    }

    /// Gives the host back.
    pub fn into_host(self) -> (r: H)
        ensures
            r == self.the_host(),
    {
        self.host
    }

    /// Asks the host's dispatcher and records its reply.
    pub fn dispatch(&mut self, alias: &str, func: &str, args_json: &str) -> (r: Result<String, String>)
        ensures
            final(self).replies() == old(self).replies().push(res_view(r)),
            final(self).asked() == old(self).asked().push((alias@, func@, args_json@)),
            final(self).loads() == old(self).loads(),
            final(self).load_requests() == old(self).load_requests(),
    {
        let r = self.host.dispatch(alias, func, args_json);
        let ghost d0 = self.dispatched@;
        self.dispatched = Ghost(self.dispatched@.push(((alias@, func@, args_json@), res_view(r))));
        proof {
            assert(self.replies() =~= d0.map_values(|d: (Asked, Reply)| d.1).push(res_view(r)));
            assert(self.asked() =~= d0.map_values(|d: (Asked, Reply)| d.0).push((alias@, func@, args_json@)));
        }
        r
    }

    /// Asks the host to load a plugin and records the outcome.
    pub fn load(&mut self, alias: &str, path: &str) -> (r: Result<(), String>)
        ensures
            final(self).loads() == old(self).loads().push(load_view(r)),
            final(self).load_requests() == old(self).load_requests().push((alias@, path@)),
            final(self).replies() == old(self).replies(),
            final(self).asked() == old(self).asked(),
    {
        let r = self.host.load(alias, path);
        let ghost l0 = self.loaded@;
        self.loaded = Ghost(self.loaded@.push(((alias@, path@), load_view(r))));
        proof {
            assert(self.loads() =~= l0.map_values(|l: ((Seq<char>, Seq<char>), Result<(), Seq<char>>)| l.1).push(load_view(r)));
            assert(self.load_requests() =~= l0.map_values(|l: ((Seq<char>, Seq<char>), Result<(), Seq<char>>)| l.0).push((alias@, path@)));
        }
        r
    }
}

/// The variables of a running route.
pub struct ExecutionContext {
    pub variables: StrMap,
}

impl ExecutionContext {
    /// No variables.
    pub fn new() -> (r: ExecutionContext)
        ensures
            r.variables.wf(),
            r.variables@ == Map::<Seq<char>, Seq<char>>::empty(),
    {
        ExecutionContext { variables: StrMap::new() }
    }

    /// Sets variable `name`.
    pub fn set_variable(&mut self, name: &str, value: String)
        requires
            old(self).variables.wf(),
        ensures
            final(self).variables.wf(),
            final(self).variables@ == old(self).variables@.insert(name@, value@),
    {
        self.variables.insert(text(name), value);
    }

    /// The value of variable `name`, if it is set.
    pub fn get_variable(&self, name: &str) -> (r: Option<&String>)
        requires
            self.variables.wf(),
        ensures
            match r {
                Some(v) => self.variables@.dom().contains(name@) && v@ == self.variables@[name@],
                None => !self.variables@.dom().contains(name@),
            },
    {
        self.variables.get(name)
    }
}

/// The views of a list of strings.
pub open spec fn strings_view(v: Seq<String>) -> Seq<Seq<char>> {
    v.map_values(|s: String| s@)
}

/// The view of an optional string.
pub open spec fn opt_view(o: Option<String>) -> Option<Seq<char>> {
    match o {
        Some(s) => Some(s@),
        None => None,
    }
}

/// The view of a list of values or an error.
pub open spec fn vals_view(r: Result<Vec<String>, String>) -> Result<Seq<Seq<char>>, Seq<char>> {
    match r {
        Ok(v) => Ok(strings_view(v@)),
        Err(m) => Err(m@),
    }
}

/// The request as routes read it.
pub open spec fn req_view(r: Request) -> ReqV {
    ReqV { params: r.params@, headers: r.headers@, body: r.body }
}

/// The response as routes build it.
pub open spec fn resp_view(r: Response) -> RespV {
    RespV { status: r.status, headers: r.headers@, body: opt_view(r.body), is_sent: r.is_sent }
}

/// What stays fixed while a route runs, with the replies `replies`.
pub open spec fn env_of(req: Request, plugins: Seq<Seq<char>>, replies: Seq<Reply>) -> Env {
    Env { req: req_view(req), plugins, replies }
}

/// The running state: the response, the variables and the number of
/// replies used.
pub open spec fn st_of(resp: Response, ctx: ExecutionContext, asked: Seq<Asked>) -> St {
    St { resp: resp_view(resp), vars: ctx.variables@, asked }
}

/// `r` begins with the entries of `log`.
pub open spec fn extends<T>(r: Seq<T>, log: Seq<T>) -> bool {
    &&& log.len() <= r.len()
    &&& forall|i: int| 0 <= i < log.len() ==> #[trigger] r[i] == log[i]
}

/// Extension is transitive.
pub proof fn lemma_extends_trans<T>(a: Seq<T>, b: Seq<T>, c: Seq<T>)
    requires
        extends(a, b),
        extends(b, c),
    ensures
        extends(a, c),
{
    assert forall|i: int| 0 <= i < c.len() implies #[trigger] a[i] == c[i] by {
        assert(a[i] == b[i]);
    }
}

/// Every sequence extends itself.
pub proof fn lemma_extends_refl<T>(a: Seq<T>)
    ensures
        extends(a, a),
{
}

/// The parts of a request and a response a route works on are well
/// formed, and the request body can be encoded in base64.
pub open spec fn ready(req: Request, resp: Response, ctx: ExecutionContext) -> bool {
    &&& req.params.wf()
    &&& req.headers.wf()
    &&& body_encodable(req.body)
    &&& resp.headers.wf()
    &&& ctx.variables.wf()
}

/// The UTF-8 encoding of a concatenation is the concatenation of the
/// encodings.
pub proof fn lemma_utf8_append(a: Seq<char>, b: Seq<char>)
    ensures
        utf8(a + b) == utf8(a) + utf8(b),
    decreases b.len(),
{
    if b.len() == 0 {
        assert(a + b =~= a);
        assert(utf8(a) + utf8(b) =~= utf8(a));
    } else {
        lemma_utf8_append(a, b.drop_last());
        assert((a + b).drop_last() =~= a + b.drop_last());
        assert((a + b).last() == b.last());
        assert(utf8(a) + utf8(b) =~= (utf8(a) + utf8(b.drop_last())) + utf8_char(b.last()));
    }
}

/// The number of UTF-8 bytes of a character.
fn char_utf8_len(c: char) -> (n: usize)
    ensures
        n == utf8_char(c).len(),
{
    let v = c as u32;
    if v < 0x80 {
        1
    } else if v < 0x800 {
        2
    } else if v < 0x10000 {
        3
    } else {
        4
    }
}

/// The number of UTF-8 bytes of the first `i` characters of `s`.
fn utf8_prefix_len(s: &str, i: usize) -> (n: usize)
    requires
        i <= s@.len(),
    ensures
        n == utf8(s@.subrange(0, i as int)).len(),
{
    let bytes = str_bytes(s);
    let blen = bytes.len();
    let mut acc: usize = 0;
    let mut j: usize = 0;
    while j < i
        invariant
            j <= i,
            i <= s@.len(),
            blen == utf8(s@).len(),
            acc == utf8(s@.subrange(0, j as int)).len(),
        decreases i - j,
    {
        let c = s.get_char(j);
        proof {
            let p = s@.subrange(0, j + 1);
            assert(p.drop_last() =~= s@.subrange(0, j as int));
            assert(p.last() == c);
            lemma_utf8_append(p, s@.subrange(j + 1, s@.len() as int));
            assert(p + s@.subrange(j + 1, s@.len() as int) =~= s@);
            assert(utf8(p).len() <= blen);
        }
        acc = acc + char_utf8_len(c);
        j = j + 1;
    }
    acc
}

/// The number of UTF-8 bytes of `s`.
pub(crate) fn utf8_len(s: &str) -> (n: usize)
    ensures
        n == utf8(s@).len(),
{
    let n = utf8_prefix_len(s, s.unicode_len());
    proof {
        assert(s@.subrange(0, s@.len() as int) =~= s@);
    }
    n
}

/// The index of the first NUL character of `s` (see `first_nul`).
pub(crate) fn find_nul(s: &str) -> (r: Option<usize>)
    ensures
        r matches Some(i) ==> i < s@.len() && first_nul(s@) == Some(i as int),
        r is None ==> first_nul(s@) is None,
{
    proof {
        reveal(first_nul);
    }
    let n = s.unicode_len();
    let mut i: usize = 0;
    while i < n
        invariant
            i <= n,
            n == s@.len(),
            forall|j: int| 0 <= j < i ==> s@[j] != '\0',
        decreases n - i,
    {
        if s.get_char(i) == '\0' {
            proof {
                let c = choose|k: int| 0 <= k < s@.len() && s@[k] == '\0' && forall|j: int| 0 <= j < k ==> s@[j] != '\0';
                assert(0 <= i < s@.len() && s@[i as int] == '\0' && forall|j: int| 0 <= j < i ==> s@[j] != '\0');
                if c < i {
                    assert(s@[c] != '\0');
                }
                if c > i {
                    assert(s@[i as int] != '\0');
                }
                reveal(first_nul);
                assert(first_nul(s@) == Some(i as int));
            }
            return Some(i);
        }
        i = i + 1;
    }
    proof {
        reveal(first_nul);
    }
    None
}

/// Appends what `CString::new` reports for a NUL at character `i` of `s`
/// (see `nul_error`).
pub(crate) fn push_nul_error(out: &mut String, s: &str, i: usize)
    requires
        i <= s@.len(),
    ensures
        final(out)@ == old(out)@ + nul_error(s@, i as int),
{
    out.append("nul byte found in provided data at position: ");
    let p = utf8_prefix_len(s, i);
    push_decimal(out, p);
}

/// The JSON array of strings `serde_json::to_string` writes for `v`.
#[verifier::external_body]
pub(crate) fn json_of_strings(v: &Vec<String>) -> (r: String)
    ensures
        r@ == json_array(strings_view(v@)),
{
    match serde_json::to_string(v) {
        Ok(s) => s,
        Err(_) => String::new(),
    }
}

/// `s` begins with `p`.
pub(crate) fn starts_with(s: &str, p: &str) -> (r: bool)
    ensures
        r == (p@.len() <= s@.len() && s@.subrange(0, p@.len() as int) == p@),
{
    let n = s.unicode_len();
    let m = p.unicode_len();
    if m > n {
        return false;
    }
    let mut i: usize = 0;
    while i < m
        invariant
            i <= m,
            m <= n,
            n == s@.len(),
            m == p@.len(),
            forall|j: int| 0 <= j < i ==> s@[j] == p@[j],
        decreases m - i,
    {
        if s.get_char(i) != p.get_char(i) {
            proof {
                assert(s@.subrange(0, m as int)[i as int] != p@[i as int]);
            }
            return false;
        }
        i = i + 1;
    }
    proof {
        assert(s@.subrange(0, m as int) =~= p@);
    }
    true
}

/// What a dispatcher's raw reply means (see `reply_result`).
fn reply_result_of(alias: &str, name: &str, raw: &str) -> (r: Result<String, String>)
    ensures
        res_view(r) == reply_result(alias@, name@, raw@),
{
    proof {
        reveal_strlit("OK:");
        reveal_strlit("ERR:");
    }
    let n = raw.unicode_len();
    if starts_with(raw, "OK:") {
        Ok(text(raw.substring_char(3, n)))
    } else if starts_with(raw, "ERR:") {
        Err(text(raw.substring_char(4, n)))
    } else {
        let mut m = text("Неверный формат ответа от диспетчера плагина ");
        m.append(alias);
        m.append(" (вызов ");
        m.append(name);
        m.append("): нет префикса 'OK:' или 'ERR:'");
        Err(m)
    }
}

/// The value of a binary operation (see `binary_value`).
fn binary_result(op: &str, l: String, r: String) -> (res: Result<String, String>)
    ensures
        res_view(res) == binary_value(op@, l@, r@),
{
    if str_eq(op, "==") {
        let mut out = String::new();
        push_bool(&mut out, str_eq(l.as_str(), r.as_str()));
        Ok(out)
    } else if str_eq(op, "!=") {
        let mut out = String::new();
        push_bool(&mut out, !str_eq(l.as_str(), r.as_str()));
        Ok(out)
    } else if str_eq(op, "+") {
        let mut out = l;
        out.append(r.as_str());
        Ok(out)
    } else if str_eq(op, "+=") {
        Err(text("Оператор '+=' не может быть использован как выражение"))
    } else {
        let mut m = text("Неподдерживаемый бинарный оператор в выражении: ");
        m.append(op);
        Err(m)
    }
}

/// The value of a name (see `ident_value`).
fn identifier_value(name: &str, context: &ExecutionContext, interpreter: &Interpreter) -> (r: Result<String, String>)
    requires
        context.variables.wf(),
    ensures
        res_view(r) == ident_value(interpreter.plugins(), context.variables@, name@),
{
    match context.get_variable(name) {
        Some(v) => Ok(v.clone()),
        None => {
            if str_eq(name, "Request") || str_eq(name, "Response") || str_eq(name, "Database")
                || interpreter.has_plugin(name) {
                Ok(text(name))
            } else {
                let mut m = text("Переменная, объект или плагин '");
                m.append(name);
                m.append("' не найден");
                Err(m)
            }
        },
    }
}

impl RouteHandler {
    /// Evaluates an expression (see `ev`), whatever replies the plugins
    /// give after those recorded.
    #[verifier::spinoff_prover]
    #[verifier::rlimit(60)]
    fn evaluate_expr<H: PluginHost>(
        &self,
        expr: &RouteAction,
        request: &Request,
        response: &mut Response,
        context: &mut ExecutionContext,
        interpreter: &Interpreter,
        calls: &mut PluginCalls<H>,
    ) -> (r: Result<String, String>)
        requires
            ready(*request, *old(response), *old(context)),
        ensures
            ready(*request, *final(response), *final(context)),
            extends(final(calls).replies(), old(calls).replies()),
            forall|rs: Seq<Reply>| #[trigger] extends(rs, final(calls).replies()) ==>
                ev(env_of(*request, interpreter.plugins(), rs), expr@, st_of(*old(response), *old(context), old(calls).asked()))
                    == (res_view(r), st_of(*final(response), *final(context), final(calls).asked())),
        decreases expr, 0int, 0int,
    {
        let ghost log0 = calls.replies();
        proof {
            lemma_extends_refl(log0);
            lemma_action_lists(*expr);
        }
        match expr {
            RouteAction::StringLiteral(v) => Ok(v.clone()),
            RouteAction::NumberLiteral(n) => {
                let mut out = String::new();
                push_decimal_i64(&mut out, *n);
                Ok(out)
            },
            RouteAction::Identifier(name) => identifier_value(name.as_str(), context, interpreter),
            RouteAction::FunctionCall { object, name, args, .. } => {
                self.execute_function_call(object, name.as_str(), args, request, response, context, interpreter, calls)
            },
            RouteAction::BinaryOp { left, operator, right } => {
                let lv = match self.evaluate_expr(left, request, response, context, interpreter, calls) {
                    Ok(v) => v,
                    Err(m) => {
                        return Err(m);
                    },
                };
                let ghost log1 = calls.replies();
                let rv = match self.evaluate_expr(right, request, response, context, interpreter, calls) {
                    Ok(v) => v,
                    Err(m) => {
                        proof {
                            lemma_extends_trans(calls.replies(), log1, log0);
                            assert forall|rs: Seq<Reply>| #[trigger] extends(rs, calls.replies()) implies extends(rs, log1) by {
                                lemma_extends_trans(rs, calls.replies(), log1);
                            }
                        }
                        return Err(m);
                    },
                };
                proof {
                    lemma_extends_trans(calls.replies(), log1, log0);
                    assert forall|rs: Seq<Reply>| #[trigger] extends(rs, calls.replies()) implies extends(rs, log1) by {
                        lemma_extends_trans(rs, calls.replies(), log1);
                    }
                }
                binary_result(operator.as_str(), lv, rv)
            },
            RouteAction::PropertyAccess { object, property } => {
                let v = match self.evaluate_expr(object, request, response, context, interpreter, calls) {
                    Ok(v) => v,
                    Err(m) => {
                        return Err(m);
                    },
                };
                let mut m = text("Доступ к свойству '");
                m.append(v.as_str());
                m.append(".");
                m.append(property.as_str());
                m.append("' не реализован");
                Err(m)
            },
            RouteAction::VarDeclaration(..) => Err(text("Объявление переменной не может быть использовано как выражение")),
            RouteAction::Condition { .. } => Err(text("Условие if не может быть использовано как выражение")),
            RouteAction::Error(m) => Err(m.clone()),
        }
    }

    /// Evaluates the arguments from the `i`-th on (see `ev_all`).
    #[verifier::spinoff_prover]
    #[verifier::rlimit(40)]
    fn evaluate_args<H: PluginHost>(
        &self,
        args: &Vec<Box<RouteAction>>,
        i: usize,
        request: &Request,
        response: &mut Response,
        context: &mut ExecutionContext,
        interpreter: &Interpreter,
        calls: &mut PluginCalls<H>,
    ) -> (r: Result<Vec<String>, String>)
        requires
            ready(*request, *old(response), *old(context)),
            i <= args@.len(),
        ensures
            ready(*request, *final(response), *final(context)),
            extends(final(calls).replies(), old(calls).replies()),
            forall|rs: Seq<Reply>| #[trigger] extends(rs, final(calls).replies()) ==>
                ev_all(
                    env_of(*request, interpreter.plugins(), rs),
                    actions_view(args@).subrange(i as int, args@.len() as int),
                    st_of(*old(response), *old(context), old(calls).asked()),
                ) == (vals_view(r), st_of(*final(response), *final(context), final(calls).asked())),
        decreases args, 1int, args@.len() - i,
    {
        let ghost log0 = calls.replies();
        let ghost view = actions_view(args@);
        let ghost sub = view.subrange(i as int, args@.len() as int);
        proof {
            lemma_extends_refl(log0);
        }
        if i >= args.len() {
            let out: Vec<String> = Vec::new();
            proof {
                assert(sub.len() == 0);
                assert(strings_view(out@) =~= Seq::<Seq<char>>::empty());
            }
            return Ok(out);
        }
        proof {
            assert(decreases_to!(*args => args@));
            assert(decreases_to!(args@ => args@[i as int]));
            assert(sub[0] == view[i as int]);
            assert(sub.subrange(1, sub.len() as int) =~= view.subrange(i + 1, args@.len() as int));
        }
        let v = match self.evaluate_expr(&args[i], request, response, context, interpreter, calls) {
            Ok(v) => v,
            Err(m) => {
                return Err(m);
            },
        };
        let ghost log1 = calls.replies();
        let rest = match self.evaluate_args(args, i + 1, request, response, context, interpreter, calls) {
            Ok(v) => v,
            Err(m) => {
                proof {
                    lemma_extends_trans(calls.replies(), log1, log0);
                    assert forall|rs: Seq<Reply>| #[trigger] extends(rs, calls.replies()) implies extends(rs, log1) by {
                        lemma_extends_trans(rs, calls.replies(), log1);
                    }
                }
                return Err(m);
            },
        };
        let ghost rest_view = strings_view(rest@);
        let mut out: Vec<String> = Vec::new();
        out.push(v);
        let mut rest = rest;
        out.append(&mut rest);
        proof {
            lemma_extends_trans(calls.replies(), log1, log0);
            assert forall|rs: Seq<Reply>| #[trigger] extends(rs, calls.replies()) implies extends(rs, log1) by {
                lemma_extends_trans(rs, calls.replies(), log1);
            }
            assert(strings_view(out@) =~= seq![out@[0]@] + rest_view);
        }
        Ok(out)
    }
}

impl RouteHandler {
    /// Calls a function, a method of a built-in object or a plugin
    /// function (see `call`).
    #[verifier::spinoff_prover]
    #[verifier::rlimit(60)]
    fn execute_function_call<H: PluginHost>(
        &self,
        object: &Option<String>,
        name: &str,
        args: &Vec<Box<RouteAction>>,
        request: &Request,
        response: &mut Response,
        context: &mut ExecutionContext,
        interpreter: &Interpreter,
        calls: &mut PluginCalls<H>,
    ) -> (r: Result<String, String>)
        requires
            ready(*request, *old(response), *old(context)),
        ensures
            ready(*request, *final(response), *final(context)),
            extends(final(calls).replies(), old(calls).replies()),
            forall|rs: Seq<Reply>| #[trigger] extends(rs, final(calls).replies()) ==>
                call(env_of(*request, interpreter.plugins(), rs), opt_view(*object), name@, actions_view(args@),
                    st_of(*old(response), *old(context), old(calls).asked()))
                    == (res_view(r), st_of(*final(response), *final(context), final(calls).asked())),
        decreases args, 3int, 0int,
    {
        proof {
            lemma_extends_refl(calls.replies());
        }
        match object {
            Some(alias) => {
                if interpreter.has_plugin(alias.as_str()) {
                    return self.call_plugin(alias.as_str(), name, args, request, response, context, interpreter, calls);
                }
                if context.variables.contains_key(alias.as_str()) {
                    let mut m = text("Вызов методов у переменных ('");
                    m.append(alias.as_str());
                    m.append("') пока не поддерживается");
                    return Err(m);
                }
                if str_eq(alias.as_str(), "Database") {
                    return self.database_method(name, args, request, response, context, interpreter, calls);
                }
                if str_eq(alias.as_str(), "Response") {
                    return self.response_method(name, args, request, response, context, interpreter, calls);
                }
                if str_eq(alias.as_str(), "Request") {
                    return self.request_method(name, args, request, response, context, interpreter, calls);
                }
                let mut m = text("Объект или плагин не найден: ");
                m.append(alias.as_str());
                Err(m)
            },
            None => self.global_function(name, args, request, response, context, interpreter, calls),
        }
    }

    /// Calls function `name` of the plugin loaded under `alias` (see
    /// `plugin_call`).
    #[verifier::spinoff_prover]
    #[verifier::rlimit(60)]
    fn call_plugin<H: PluginHost>(
        &self,
        alias: &str,
        name: &str,
        args: &Vec<Box<RouteAction>>,
        request: &Request,
        response: &mut Response,
        context: &mut ExecutionContext,
        interpreter: &Interpreter,
        calls: &mut PluginCalls<H>,
    ) -> (r: Result<String, String>)
        requires
            ready(*request, *old(response), *old(context)),
            interpreter.plugins().contains(alias@),
        ensures
            ready(*request, *final(response), *final(context)),
            extends(final(calls).replies(), old(calls).replies()),
            forall|rs: Seq<Reply>| #[trigger] extends(rs, final(calls).replies()) ==>
                call(env_of(*request, interpreter.plugins(), rs), Some(alias@), name@, actions_view(args@),
                    st_of(*old(response), *old(context), old(calls).asked()))
                    == (res_view(r), st_of(*final(response), *final(context), final(calls).asked())),
        decreases args, 2int, 0int,
    {
        let ghost log0 = calls.replies();
        proof {
            lemma_extends_refl(log0);
            assert(actions_view(args@).subrange(0, args@.len() as int) =~= actions_view(args@));
        }
        let vals = match self.evaluate_args(args, 0, request, response, context, interpreter, calls) {
            Ok(v) => v,
            Err(m) => {
                return Err(m);
            },
        };
        let ghost log1 = calls.replies();
        let r = self.plugin_reply(alias, name, &vals, request, response, context, interpreter, calls);
        proof {
            lemma_extends_trans(calls.replies(), log1, log0);
            assert forall|rs: Seq<Reply>| #[trigger] extends(rs, calls.replies()) implies extends(rs, log1) by {
                lemma_extends_trans(rs, calls.replies(), log1);
            }
        }
        r
    }

    /// Hands the evaluated arguments `vals` to plugin `alias`'s function
    /// `name` (see `plugin_call`).
    #[verifier::spinoff_prover]
    #[verifier::rlimit(60)]
    fn plugin_reply<H: PluginHost>(
        &self,
        alias: &str,
        name: &str,
        vals: &Vec<String>,
        request: &Request,
        response: &Response,
        context: &ExecutionContext,
        interpreter: &Interpreter,
        calls: &mut PluginCalls<H>,
    ) -> (r: Result<String, String>)
        ensures
            extends(final(calls).replies(), old(calls).replies()),
            forall|rs: Seq<Reply>| #[trigger] extends(rs, final(calls).replies()) ==>
                plugin_call(env_of(*request, interpreter.plugins(), rs), alias@, name@, strings_view(vals@),
                    st_of(*response, *context, old(calls).asked()))
                    == (res_view(r), st_of(*response, *context, final(calls).asked())),
    {
        let ghost log1 = calls.replies();
        proof {
            lemma_extends_refl(log1);
        }
        let json = json_of_strings(vals);
        match find_nul(name) {
            Some(i) => {
                let mut m = text("Ошибка создания CString для имени функции ");
                m.append(alias);
                m.append("::");
                m.append(name);
                m.append(": ");
                push_nul_error(&mut m, name, i);
                return Err(m);
            },
            None => {},
        }
        match find_nul(json.as_str()) {
            Some(i) => {
                let mut m = text("Ошибка создания CString для аргументов ");
                m.append(alias);
                m.append("::");
                m.append(name);
                m.append(": ");
                push_nul_error(&mut m, json.as_str(), i);
                return Err(m);
            },
            None => {},
        }
        let reply = calls.dispatch(alias, name, json.as_str());
        proof {
            assert(calls.replies()[log1.len() as int] == res_view(reply));
            assert forall|i: int| 0 <= i < log1.len() implies #[trigger] calls.replies()[i] == log1[i] by {}
            assert forall|rs: Seq<Reply>| #[trigger] extends(rs, calls.replies()) implies
                rs[log1.len() as int] == res_view(reply) by {
                assert(rs[log1.len() as int] == calls.replies()[log1.len() as int]);
            }
        }
        match reply {
            Ok(raw) => reply_result_of(alias, name, raw.as_str()),
            Err(m) => Err(m),
        }
    }

    /// Calls a method of the built-in database (see `database_call`).
    #[verifier::spinoff_prover]
    #[verifier::rlimit(60)]
    fn database_method<H: PluginHost>(
        &self,
        name: &str,
        args: &Vec<Box<RouteAction>>,
        request: &Request,
        response: &mut Response,
        context: &mut ExecutionContext,
        interpreter: &Interpreter,
        calls: &mut PluginCalls<H>,
    ) -> (r: Result<String, String>)
        requires
            ready(*request, *old(response), *old(context)),
        ensures
            ready(*request, *final(response), *final(context)),
            extends(final(calls).replies(), old(calls).replies()),
            forall|rs: Seq<Reply>| #[trigger] extends(rs, final(calls).replies()) ==>
                database_call(env_of(*request, interpreter.plugins(), rs), name@, actions_view(args@),
                    st_of(*old(response), *old(context), old(calls).asked()))
                    == (res_view(r), st_of(*final(response), *final(context), final(calls).asked())),
        decreases args, 2int, 0int,
    {
        let ghost log0 = calls.replies();
        proof {
            lemma_extends_refl(log0);
            reveal_strlit("OK");
        }
        if str_eq(name, "get_all") {
            let r = Database::get_all();
            return r;
        }
        if str_eq(name, "check") {
            return match Database::check() {
                Ok(b) => {
                    let mut out = String::new();
                    push_bool(&mut out, b);
                    Ok(out)
                },
                Err(e) => Err(e),
            };
        }
        if str_eq(name, "get") {
            if args.len() == 1 {
                proof {
                    assert(decreases_to!(*args => args@));
                    assert(decreases_to!(args@ => args@[0]));
                }
                let id = match self.evaluate_expr(&args[0], request, response, context, interpreter, calls) {
                    Ok(v) => v,
                    Err(m) => {
                        return Err(m);
                    },
                };
                return Database::get(id.as_str());
            } else {
                return Err(text("Метод Database.get требует 1 аргумент"));
            }
        }
        if str_eq(name, "add") {
            if args.len() >= 3 {
                proof {
                    assert(decreases_to!(*args => args@));
                    assert(decreases_to!(args@ => args@[0]));
                    assert(decreases_to!(args@ => args@[1]));
                    assert(decreases_to!(args@ => args@[2]));
                }
                let a0 = match self.evaluate_expr(&args[0], request, response, context, interpreter, calls) {
                    Ok(v) => v,
                    Err(m) => {
                        return Err(m);
                    },
                };
                let ghost log1 = calls.replies();
                let a1 = match self.evaluate_expr(&args[1], request, response, context, interpreter, calls) {
                    Ok(v) => v,
                    Err(m) => {
                        proof {
                            lemma_extends_trans(calls.replies(), log1, log0);
                            assert forall|rs: Seq<Reply>| #[trigger] extends(rs, calls.replies()) implies extends(rs, log1) by {
                                lemma_extends_trans(rs, calls.replies(), log1);
                            }
                        }
                        return Err(m);
                    },
                };
                let ghost log2 = calls.replies();
                let a2 = match self.evaluate_expr(&args[2], request, response, context, interpreter, calls) {
                    Ok(v) => v,
                    Err(m) => {
                        proof {
                            lemma_extends_trans(calls.replies(), log2, log1);
                            lemma_extends_trans(calls.replies(), log1, log0);
                            assert forall|rs: Seq<Reply>| #[trigger] extends(rs, calls.replies()) implies
                                extends(rs, log1) && extends(rs, log2) by {
                                lemma_extends_trans(rs, calls.replies(), log2);
                                lemma_extends_trans(rs, log2, log1);
                            }
                        }
                        return Err(m);
                    },
                };
                proof {
                    lemma_extends_trans(calls.replies(), log2, log1);
                    lemma_extends_trans(calls.replies(), log1, log0);
                    assert forall|rs: Seq<Reply>| #[trigger] extends(rs, calls.replies()) implies
                        extends(rs, log1) && extends(rs, log2) by {
                        lemma_extends_trans(rs, calls.replies(), log2);
                        lemma_extends_trans(rs, log2, log1);
                    }
                }
                return match Database::add(a0.as_str(), a1.as_str(), a2.as_str()) {
                    Ok(_) => Ok(text("OK")),
                    Err(e) => Err(e),
                };
            } else {
                return Err(text("Метод Database.add требует 3 аргумента"));
            }
        }
        let mut m = text("Метод не найден: Database.");
        m.append(name);
        Err(m)
    }
}

impl RouteHandler {
    /// Calls a method of the response (see `response_call`).
    #[verifier::spinoff_prover]
    #[verifier::rlimit(60)]
    fn response_method<H: PluginHost>(
        &self,
        name: &str,
        args: &Vec<Box<RouteAction>>,
        request: &Request,
        response: &mut Response,
        context: &mut ExecutionContext,
        interpreter: &Interpreter,
        calls: &mut PluginCalls<H>,
    ) -> (r: Result<String, String>)
        requires
            ready(*request, *old(response), *old(context)),
        ensures
            ready(*request, *final(response), *final(context)),
            extends(final(calls).replies(), old(calls).replies()),
            forall|rs: Seq<Reply>| #[trigger] extends(rs, final(calls).replies()) ==>
                response_call(env_of(*request, interpreter.plugins(), rs), name@, actions_view(args@),
                    st_of(*old(response), *old(context), old(calls).asked()))
                    == (res_view(r), st_of(*final(response), *final(context), final(calls).asked())),
        decreases args, 2int, 0int,
    {
        let ghost log0 = calls.replies();
        proof {
            lemma_extends_refl(log0);
        }
        if str_eq(name, "body") {
            if args.len() == 1 {
                proof {
                    assert(decreases_to!(*args => args@));
                    assert(decreases_to!(args@ => args@[0]));
                }
                let c = match self.evaluate_expr(&args[0], request, response, context, interpreter, calls) {
                    Ok(v) => v,
                    Err(m) => {
                        return Err(m);
                    },
                };
                response.body(c.clone());
                return Ok(c);
            } else {
                return Err(text("Метод Response.body требует 1 аргумент"));
            }
        }
        if str_eq(name, "send") {
            response.send();
            return Ok(String::new());
        }
        if str_eq(name, "status") {
            if args.len() == 1 {
                proof {
                    assert(decreases_to!(*args => args@));
                    assert(decreases_to!(args@ => args@[0]));
                }
                let t = match self.evaluate_expr(&args[0], request, response, context, interpreter, calls) {
                    Ok(v) => v,
                    Err(m) => {
                        return Err(m);
                    },
                };
                return match parse_u16(t.as_str()) {
                    Some(code) => {
                        response.status(code);
                        let mut out = String::new();
                        push_decimal_u64(&mut out, code as u64);
                        Ok(out)
                    },
                    None => {
                        let mut m = text("Неверный статус код: ");
                        m.append(t.as_str());
                        Err(m)
                    },
                };
            } else {
                return Err(text("Метод Response.status требует 1 аргумент"));
            }
        }
        if str_eq(name, "headers") {
            if args.len() == 2 {
                proof {
                    assert(decreases_to!(*args => args@));
                    assert(decreases_to!(args@ => args@[0]));
                    assert(decreases_to!(args@ => args@[1]));
                }
                let hn = match self.evaluate_expr(&args[0], request, response, context, interpreter, calls) {
                    Ok(v) => v,
                    Err(m) => {
                        return Err(m);
                    },
                };
                let ghost log1 = calls.replies();
                let hv = match self.evaluate_expr(&args[1], request, response, context, interpreter, calls) {
                    Ok(v) => v,
                    Err(m) => {
                        proof {
                            lemma_extends_trans(calls.replies(), log1, log0);
                            assert forall|rs: Seq<Reply>| #[trigger] extends(rs, calls.replies()) implies extends(rs, log1) by {
                                lemma_extends_trans(rs, calls.replies(), log1);
                            }
                        }
                        return Err(m);
                    },
                };
                proof {
                    lemma_extends_trans(calls.replies(), log1, log0);
                    assert forall|rs: Seq<Reply>| #[trigger] extends(rs, calls.replies()) implies extends(rs, log1) by {
                        lemma_extends_trans(rs, calls.replies(), log1);
                    }
                }
                response.headers.insert(hn.clone(), hv.clone());
                let mut out = hn;
                out.append(": ");
                out.append(hv.as_str());
                return Ok(out);
            } else {
                return Err(text("Метод Response.headers требует 2 аргумента"));
            }
        }
        let mut m = text("Метод не найден: Response.");
        m.append(name);
        Err(m)
    }

    /// Calls a method of the request (see `request_call`).
    #[verifier::spinoff_prover]
    #[verifier::rlimit(60)]
    fn request_method<H: PluginHost>(
        &self,
        name: &str,
        args: &Vec<Box<RouteAction>>,
        request: &Request,
        response: &mut Response,
        context: &mut ExecutionContext,
        interpreter: &Interpreter,
        calls: &mut PluginCalls<H>,
    ) -> (r: Result<String, String>)
        requires
            ready(*request, *old(response), *old(context)),
        ensures
            ready(*request, *final(response), *final(context)),
            extends(final(calls).replies(), old(calls).replies()),
            forall|rs: Seq<Reply>| #[trigger] extends(rs, final(calls).replies()) ==>
                request_call(env_of(*request, interpreter.plugins(), rs), name@, actions_view(args@),
                    st_of(*old(response), *old(context), old(calls).asked()))
                    == (res_view(r), st_of(*final(response), *final(context), final(calls).asked())),
        decreases args, 2int, 0int,
    {
        proof {
            lemma_extends_refl(calls.replies());
        }
        if str_eq(name, "get_params") || str_eq(name, "get_param") {
            if args.len() == 1 {
                proof {
                    assert(decreases_to!(*args => args@));
                    assert(decreases_to!(args@ => args@[0]));
                }
                let p = match self.evaluate_expr(&args[0], request, response, context, interpreter, calls) {
                    Ok(v) => v,
                    Err(m) => {
                        return Err(m);
                    },
                };
                return Ok(request.get_params(p.as_str()));
            } else {
                return Err(text("Метод Request.get_params требует 1 аргумент"));
            }
        }
        if str_eq(name, "get_header") {
            if args.len() == 1 {
                proof {
                    assert(decreases_to!(*args => args@));
                    assert(decreases_to!(args@ => args@[0]));
                }
                let h = match self.evaluate_expr(&args[0], request, response, context, interpreter, calls) {
                    Ok(v) => v,
                    Err(m) => {
                        return Err(m);
                    },
                };
                return match request.headers.get(h.as_str()) {
                    Some(v) => Ok(v.clone()),
                    None => Ok(String::new()),
                };
            } else {
                return Err(text("Метод Request.get_header требует 1 аргумент"));
            }
        }
        if str_eq(name, "body") || str_eq(name, "text_body") {
            if args.len() == 0 {
                return Ok(request.get_body());
            } else {
                let mut m = text("Метод Request.");
                m.append(name);
                m.append(" не принимает аргументы");
                return Err(m);
            }
        }
        if str_eq(name, "body_base64") {
            if args.len() == 0 {
                return Ok(request.get_body_as_base64());
            } else {
                return Err(text("Метод Request.body_base64 не принимает аргументы"));
            }
        }
        if str_eq(name, "is_binary") {
            if args.len() == 0 {
                let mut out = String::new();
                push_bool(&mut out, request.is_body_binary());
                return Ok(out);
            } else {
                return Err(text("Метод Request.is_binary не принимает аргументов"));
            }
        }
        let mut m = text("Метод не найден: Request.");
        m.append(name);
        Err(m)
    }

    /// Calls a global function: `log_error`, `log_info` or `log_trace`
    /// (see `call`).
    #[verifier::spinoff_prover]
    #[verifier::rlimit(40)]
    fn global_function<H: PluginHost>(
        &self,
        name: &str,
        args: &Vec<Box<RouteAction>>,
        request: &Request,
        response: &mut Response,
        context: &mut ExecutionContext,
        interpreter: &Interpreter,
        calls: &mut PluginCalls<H>,
    ) -> (r: Result<String, String>)
        requires
            ready(*request, *old(response), *old(context)),
        ensures
            ready(*request, *final(response), *final(context)),
            extends(final(calls).replies(), old(calls).replies()),
            forall|rs: Seq<Reply>| #[trigger] extends(rs, final(calls).replies()) ==>
                call(env_of(*request, interpreter.plugins(), rs), None, name@, actions_view(args@),
                    st_of(*old(response), *old(context), old(calls).asked()))
                    == (res_view(r), st_of(*final(response), *final(context), final(calls).asked())),
        decreases args, 2int, 0int,
    {
        proof {
            lemma_extends_refl(calls.replies());
        }
        if str_eq(name, "log_error") || str_eq(name, "log_info") || str_eq(name, "log_trace") {
            if args.len() == 1 {
                proof {
                    assert(decreases_to!(*args => args@));
                    assert(decreases_to!(args@ => args@[0]));
                }
                return match self.evaluate_expr(&args[0], request, response, context, interpreter, calls) {
                    Ok(_) => Ok(String::new()),
                    Err(m) => Err(m),
                };
            } else {
                let mut m = text("Функция ");
                m.append(name);
                m.append(" требует 1 аргумент");
                return Err(m);
            }
        }
        let mut m = text("Глобальная функция не найдена: ");
        m.append(name);
        Err(m)
    }
}

/// How an action ended: normally, with an error, or with the panic the
/// unwrap operator `!!` asks for.
#[derive(Debug)]
pub enum Outcome {
    Done,
    Fail(String),
    Panic(String),
}

/// The plain view of an outcome.
pub open spec fn flow_view(o: Outcome) -> Flow {
    match o {
        Outcome::Done => Flow::Done,
        Outcome::Fail(m) => Flow::Fail(m@),
        Outcome::Panic(m) => Flow::Panic(m@),
    }
}

/// The plain view of an error handler.
pub open spec fn handler_view(h: Option<ErrorHandler>) -> Option<HandlerV> {
    match h {
        Some(h) => Some(HandlerV { error_var: h.error_var@, actions: plain_actions_view(h.actions@) }),
        None => None,
    }
}

impl RouteHandler {
    /// Runs an action (see `act`).
    #[verifier::spinoff_prover]
    #[verifier::rlimit(80)]
    fn execute_action<H: PluginHost>(
        &self,
        action: &RouteAction,
        request: &Request,
        response: &mut Response,
        context: &mut ExecutionContext,
        interpreter: &Interpreter,
        calls: &mut PluginCalls<H>,
    ) -> (r: Outcome)
        requires
            ready(*request, *old(response), *old(context)),
        ensures
            ready(*request, *final(response), *final(context)),
            extends(final(calls).replies(), old(calls).replies()),
            forall|rs: Seq<Reply>| #[trigger] extends(rs, final(calls).replies()) ==>
                act(env_of(*request, interpreter.plugins(), rs), action@, st_of(*old(response), *old(context), old(calls).asked()))
                    == (flow_view(r), st_of(*final(response), *final(context), final(calls).asked())),
        decreases action, 4int, 0int,
    {
        let ghost log0 = calls.replies();
        proof {
            lemma_extends_refl(log0);
            lemma_action_lists(*action);
        }
        if response.is_sent {
            return Outcome::Done;
        }
        match action {
            RouteAction::VarDeclaration(name, value) => {
                match self.evaluate_expr(value, request, response, context, interpreter, calls) {
                    Err(m) => Outcome::Fail(m),
                    Ok(x) => {
                        context.set_variable(name.as_str(), x);
                        Outcome::Done
                    },
                }
            },
            RouteAction::FunctionCall { object, name, args, try_operator, unwrap_operator } => {
                match self.execute_function_call(object, name.as_str(), args, request, response, context, interpreter, calls) {
                    Ok(_) => Outcome::Done,
                    Err(m) => {
                        if *try_operator {
                            Outcome::Fail(m)
                        } else if *unwrap_operator {
                            let mut p = text("Ошибка выполнения (unwrap !!): ");
                            p.append(m.as_str());
                            Outcome::Panic(p)
                        } else {
                            Outcome::Fail(m)
                        }
                    },
                }
            },
            RouteAction::Condition { .. } => self.execute_condition(action, request, response, context, interpreter, calls),
            RouteAction::BinaryOp { .. } => self.execute_binary(action, request, response, context, interpreter, calls),
            RouteAction::Error(m) => Outcome::Fail(m.clone()),
            _ => {
                match self.evaluate_expr(action, request, response, context, interpreter, calls) {
                    Ok(_) => Outcome::Done,
                    Err(m) => Outcome::Fail(m),
                }
            },
        }
    }

    /// Runs an `if` (see `act`).
    #[verifier::spinoff_prover]
    #[verifier::rlimit(60)]
    fn execute_condition<H: PluginHost>(
        &self,
        action: &RouteAction,
        request: &Request,
        response: &mut Response,
        context: &mut ExecutionContext,
        interpreter: &Interpreter,
        calls: &mut PluginCalls<H>,
    ) -> (r: Outcome)
        requires
            ready(*request, *old(response), *old(context)),
            !old(response).is_sent,
            action is Condition,
        ensures
            ready(*request, *final(response), *final(context)),
            extends(final(calls).replies(), old(calls).replies()),
            forall|rs: Seq<Reply>| #[trigger] extends(rs, final(calls).replies()) ==>
                act(env_of(*request, interpreter.plugins(), rs), action@, st_of(*old(response), *old(context), old(calls).asked()))
                    == (flow_view(r), st_of(*final(response), *final(context), final(calls).asked())),
        decreases action, 3int, 0int,
    {
        let ghost log0 = calls.replies();
        proof {
            lemma_extends_refl(log0);
            lemma_action_lists(*action);
        }
        match action {
            RouteAction::Condition { check, then_branch, else_branch } => {
                let v = match self.evaluate_expr(check, request, response, context, interpreter, calls) {
                    Ok(v) => v,
                    Err(m) => {
                        return Outcome::Fail(m);
                    },
                };
                let ghost log1 = calls.replies();
                let out = if str_eq(v.as_str(), "true") || str_eq(v.as_str(), "1") {
                    proof {
                        assert(actions_view(then_branch@).subrange(0, then_branch@.len() as int) =~= actions_view(then_branch@));
                    }
                    self.run_list(then_branch, 0, request, response, context, interpreter, calls)
                } else {
                    match else_branch {
                        Some(el) => {
                            proof {
                                assert(actions_view(el@).subrange(0, el@.len() as int) =~= actions_view(el@));
                            }
                            self.run_list(el, 0, request, response, context, interpreter, calls)
                        },
                        None => Outcome::Done,
                    }
                };
                proof {
                    lemma_extends_trans(calls.replies(), log1, log0);
                    assert forall|rs: Seq<Reply>| #[trigger] extends(rs, calls.replies()) implies extends(rs, log1) by {
                        lemma_extends_trans(rs, calls.replies(), log1);
                    }
                }
                out
            },
            _ => Outcome::Done,
        }
    }

    /// Runs a binary operation as a statement: `+=` appends to a variable (see `act`).
    #[verifier::spinoff_prover]
    #[verifier::rlimit(60)]
    fn execute_binary<H: PluginHost>(
        &self,
        action: &RouteAction,
        request: &Request,
        response: &mut Response,
        context: &mut ExecutionContext,
        interpreter: &Interpreter,
        calls: &mut PluginCalls<H>,
    ) -> (r: Outcome)
        requires
            ready(*request, *old(response), *old(context)),
            !old(response).is_sent,
            action is BinaryOp,
        ensures
            ready(*request, *final(response), *final(context)),
            extends(final(calls).replies(), old(calls).replies()),
            forall|rs: Seq<Reply>| #[trigger] extends(rs, final(calls).replies()) ==>
                act(env_of(*request, interpreter.plugins(), rs), action@, st_of(*old(response), *old(context), old(calls).asked()))
                    == (flow_view(r), st_of(*final(response), *final(context), final(calls).asked())),
        decreases action, 3int, 0int,
    {
        let ghost log0 = calls.replies();
        proof {
            lemma_extends_refl(log0);
            lemma_action_lists(*action);
        }
        match action {
            RouteAction::BinaryOp { left, operator, right } => {
                if str_eq(operator.as_str(), "+=") {
                    match &**left {
                        RouteAction::Identifier(var) => {
                            proof {
                                assert(action_view(**left) == SpecAction::Identifier(var@));
                            }
                            let rv = match self.evaluate_expr(right, request, response, context, interpreter, calls) {
                                Ok(v) => v,
                                Err(m) => {
                                    return Outcome::Fail(m);
                                },
                            };
                            match context.get_variable(var.as_str()) {
                                Some(cur) => {
                                    let mut nv = cur.clone();
                                    nv.append(rv.as_str());
                                    context.set_variable(var.as_str(), nv);
                                    Outcome::Done
                                },
                                None => {
                                    let mut m = text("Переменная '");
                                    m.append(var.as_str());
                                    m.append("' для '+=' не найдена");
                                    Outcome::Fail(m)
                                },
                            }
                        },
                        _ => Outcome::Fail(text("Оператор '+=' может использоваться только с идентификатором переменной слева")),
                    }
                } else {
                    match self.evaluate_expr(action, request, response, context, interpreter, calls) {
                        Ok(_) => Outcome::Done,
                        Err(m) => Outcome::Fail(m),
                    }
                }
            },
            _ => Outcome::Done,
        }
    }

    /// Runs the actions of a branch from the `i`-th on (see `acts`).
    #[verifier::spinoff_prover]
    #[verifier::rlimit(40)]
    fn run_list<H: PluginHost>(
        &self,
        list: &Vec<Box<RouteAction>>,
        i: usize,
        request: &Request,
        response: &mut Response,
        context: &mut ExecutionContext,
        interpreter: &Interpreter,
        calls: &mut PluginCalls<H>,
    ) -> (r: Outcome)
        requires
            ready(*request, *old(response), *old(context)),
            i <= list@.len(),
        ensures
            ready(*request, *final(response), *final(context)),
            extends(final(calls).replies(), old(calls).replies()),
            forall|rs: Seq<Reply>| #[trigger] extends(rs, final(calls).replies()) ==>
                acts(
                    env_of(*request, interpreter.plugins(), rs),
                    actions_view(list@).subrange(i as int, list@.len() as int),
                    st_of(*old(response), *old(context), old(calls).asked()),
                ) == (flow_view(r), st_of(*final(response), *final(context), final(calls).asked())),
        decreases list, 5int, list@.len() - i,
    {
        let ghost log0 = calls.replies();
        let ghost view = actions_view(list@);
        let ghost sub = view.subrange(i as int, list@.len() as int);
        proof {
            lemma_extends_refl(log0);
        }
        if i >= list.len() || response.is_sent {
            return Outcome::Done;
        }
        proof {
            assert(decreases_to!(*list => list@));
            assert(decreases_to!(list@ => list@[i as int]));
            assert(sub[0] == view[i as int]);
            assert(sub.subrange(1, sub.len() as int) =~= view.subrange(i + 1, list@.len() as int));
        }
        let f = self.execute_action(&list[i], request, response, context, interpreter, calls);
        match f {
            Outcome::Done => {
                let ghost log1 = calls.replies();
                let out = self.run_list(list, i + 1, request, response, context, interpreter, calls);
                proof {
                    lemma_extends_trans(calls.replies(), log1, log0);
                    assert forall|rs: Seq<Reply>| #[trigger] extends(rs, calls.replies()) implies extends(rs, log1) by {
                        lemma_extends_trans(rs, calls.replies(), log1);
                    }
                }
                out
            },
            _ => f,
        }
    }

    /// Runs a route's own actions from the `i`-th on (see `acts`).
    #[verifier::spinoff_prover]
    #[verifier::rlimit(40)]
    fn run_actions<H: PluginHost>(
        &self,
        list: &Vec<RouteAction>,
        i: usize,
        request: &Request,
        response: &mut Response,
        context: &mut ExecutionContext,
        interpreter: &Interpreter,
        calls: &mut PluginCalls<H>,
    ) -> (r: Outcome)
        requires
            ready(*request, *old(response), *old(context)),
            i <= list@.len(),
        ensures
            ready(*request, *final(response), *final(context)),
            extends(final(calls).replies(), old(calls).replies()),
            forall|rs: Seq<Reply>| #[trigger] extends(rs, final(calls).replies()) ==>
                acts(
                    env_of(*request, interpreter.plugins(), rs),
                    plain_actions_view(list@).subrange(i as int, list@.len() as int),
                    st_of(*old(response), *old(context), old(calls).asked()),
                ) == (flow_view(r), st_of(*final(response), *final(context), final(calls).asked())),
        decreases list@.len() - i,
    {
        let ghost log0 = calls.replies();
        let ghost view = plain_actions_view(list@);
        let ghost sub = view.subrange(i as int, list@.len() as int);
        proof {
            lemma_extends_refl(log0);
        }
        if i >= list.len() || response.is_sent {
            return Outcome::Done;
        }
        proof {
            assert(sub[0] == view[i as int]);
            assert(sub.subrange(1, sub.len() as int) =~= view.subrange(i + 1, list@.len() as int));
        }
        let f = self.execute_action(&list[i], request, response, context, interpreter, calls);
        match f {
            Outcome::Done => {
                let ghost log1 = calls.replies();
                let out = self.run_actions(list, i + 1, request, response, context, interpreter, calls);
                proof {
                    lemma_extends_trans(calls.replies(), log1, log0);
                    assert forall|rs: Seq<Reply>| #[trigger] extends(rs, calls.replies()) implies extends(rs, log1) by {
                        lemma_extends_trans(rs, calls.replies(), log1);
                    }
                }
                out
            },
            _ => f,
        }
    }

    /// Runs an error handler's actions from the `i`-th on (see
    /// `handler_acts`): their errors are passed over, a panic stops them.
    #[verifier::spinoff_prover]
    #[verifier::rlimit(40)]
    fn run_handler<H: PluginHost>(
        &self,
        list: &Vec<RouteAction>,
        i: usize,
        request: &Request,
        response: &mut Response,
        context: &mut ExecutionContext,
        interpreter: &Interpreter,
        calls: &mut PluginCalls<H>,
    ) -> (r: Option<String>)
        requires
            ready(*request, *old(response), *old(context)),
            i <= list@.len(),
        ensures
            ready(*request, *final(response), *final(context)),
            extends(final(calls).replies(), old(calls).replies()),
            forall|rs: Seq<Reply>| #[trigger] extends(rs, final(calls).replies()) ==>
                handler_acts(
                    env_of(*request, interpreter.plugins(), rs),
                    plain_actions_view(list@).subrange(i as int, list@.len() as int),
                    st_of(*old(response), *old(context), old(calls).asked()),
                ) == (opt_view(r), st_of(*final(response), *final(context), final(calls).asked())),
        decreases list@.len() - i,
    {
        let ghost log0 = calls.replies();
        let ghost view = plain_actions_view(list@);
        let ghost sub = view.subrange(i as int, list@.len() as int);
        proof {
            lemma_extends_refl(log0);
        }
        if i >= list.len() {
            return None;
        }
        proof {
            assert(sub[0] == view[i as int]);
            assert(sub.subrange(1, sub.len() as int) =~= view.subrange(i + 1, list@.len() as int));
        }
        let f = self.execute_action(&list[i], request, response, context, interpreter, calls);
        match f {
            Outcome::Panic(m) => Some(m),
            _ => {
                let ghost log1 = calls.replies();
                let out = self.run_handler(list, i + 1, request, response, context, interpreter, calls);
                proof {
                    lemma_extends_trans(calls.replies(), log1, log0);
                    assert forall|rs: Seq<Reply>| #[trigger] extends(rs, calls.replies()) implies extends(rs, log1) by {
                        lemma_extends_trans(rs, calls.replies(), log1);
                    }
                }
                out
            },
        }
    }
}

impl RouteHandler {
    /// Runs an error handler with the error `err` in its variable, on a
    /// copy of the route's variables (see `run_route`).
    #[verifier::spinoff_prover]
    #[verifier::rlimit(40)]
    fn handle_error<H: PluginHost>(
        &self,
        handler: &ErrorHandler,
        err: String,
        request: &Request,
        response: &mut Response,
        context: &ExecutionContext,
        interpreter: &Interpreter,
        calls: &mut PluginCalls<H>,
    ) -> (r: Option<String>)
        requires
            ready(*request, *old(response), *context),
        ensures
            final(response).headers.wf(),
            extends(final(calls).replies(), old(calls).replies()),
            forall|rs: Seq<Reply>| #[trigger] extends(rs, final(calls).replies()) ==> {
                let (p, s2) = handler_acts(
                    env_of(*request, interpreter.plugins(), rs),
                    plain_actions_view(handler.actions@),
                    St {
                        resp: resp_view(*old(response)),
                        vars: context.variables@.insert(handler.error_var@, err@),
                        asked: old(calls).asked(),
                    },
                );
                &&& opt_view(r) == p
                &&& resp_view(*final(response)) == s2.resp
                &&& final(calls).asked() == s2.asked
            },
    {
        let mut ec = ExecutionContext { variables: context.variables.duplicate() };
        ec.set_variable(handler.error_var.as_str(), err);
        proof {
            assert(plain_actions_view(handler.actions@).subrange(0, handler.actions@.len() as int)
                =~= plain_actions_view(handler.actions@));
        }
        self.run_handler(&handler.actions, 0, request, response, &mut ec, interpreter, calls)
    }

    /// Runs the route for a request (see `run_route`): its actions in
    /// order, then on an error its own error handler, or else the server's
    /// global one, or else a `500` answer with the error. The plugins'
    /// replies are those recorded in `calls` during the run. The result is
    /// the message of the panic the unwrap operator `!!` asked for, if any.
    #[verifier::spinoff_prover]
    #[verifier::rlimit(60)]
    pub fn execute<H: PluginHost>(
        &self,
        request: &mut Request,
        response: &mut Response,
        interpreter: &Interpreter,
        calls: &mut PluginCalls<H>,
    ) -> (r: Option<String>)
        requires
            old(request).params.wf(),
            old(request).headers.wf(),
            body_encodable(old(request).body),
            old(response).headers.wf(),
        ensures
            *final(request) == *old(request),
            final(response).headers.wf(),
            extends(final(calls).replies(), old(calls).replies()),
            ({
                let (p, s) = run_route(
                    env_of(*old(request), interpreter.plugins(), final(calls).replies()),
                    plain_actions_view(self.actions@),
                    handler_view(self.error_handler),
                    handler_view(interpreter.global_error_handler),
                    St { resp: resp_view(*old(response)), vars: Map::empty(), asked: old(calls).asked() },
                );
                &&& opt_view(r) == p
                &&& resp_view(*final(response)) == s.resp
                &&& final(calls).asked() == s.asked
            }),
    {
        let req: &Request = &*request;
        let mut context = ExecutionContext::new();
        let ghost log0 = calls.replies();
        proof {
            lemma_extends_refl(log0);
            assert(plain_actions_view(self.actions@).subrange(0, self.actions@.len() as int)
                =~= plain_actions_view(self.actions@));
        }
        let flow = self.run_actions(&self.actions, 0, req, response, &mut context, interpreter, calls);
        let ghost log1 = calls.replies();
        let r = match flow {
            Outcome::Done => None,
            Outcome::Panic(m) => Some(m),
            Outcome::Fail(err) => {
                match &self.error_handler {
                    Some(h) => self.handle_error(h, err, req, response, &context, interpreter, calls),
                    None => match &interpreter.global_error_handler {
                        Some(h) => self.handle_error(h, err, req, response, &context, interpreter, calls),
                        None => {
                            if !response.is_sent {
                                response.status(500);
                                let mut b = text("Internal Server Error: ");
                                b.append(err.as_str());
                                response.body(b);
                                response.send();
                            }
                            None
                        },
                    },
                }
            },
        };
        proof {
            lemma_extends_trans(calls.replies(), log1, log0);
            lemma_extends_refl(calls.replies());
            assert(extends(calls.replies(), log1));
        }
        r
    }
}

} // verus!
