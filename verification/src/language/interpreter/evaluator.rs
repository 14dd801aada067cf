use vstd::prelude::*;
use crate::language::ast::{AstNode, SpecAst, asts_view, lemma_list_view, node_debug, node_debug_text};
use crate::language::vm::{RDLTypes, RdlV, Object, FFIStatus, rdls_view, rdl_text};
use crate::language::error::{Error, ErrorKind, error_text_of};
use crate::language::text::{text, str_eq};
use super::context::{ExecutionContext, lookup};
use super::semantics::{first_nul, nul_error};
use super::run::{extends, lemma_extends_trans, lemma_extends_refl, find_nul, push_nul_error, strings_view};
use super::values::{Fault, FaultV, Ev, ev_view, fail, binary, binary_value, global_call, call_global_function};
use super::values::{access_value, access_exec, json_array_text, literal_items, array_literal_value};

verus! {

/// The objects code reaches by name, as the host keeps them.
pub trait ObjectRegistry {
    /// The names of the objects, in order.
    fn object_names(&self) -> Vec<String>;

    /// Calls method `method` of the object named `object` with `args`;
    /// `None` when no object has that name.
    fn call_object(&mut self, object: &str, method: &str, args: Vec<RDLTypes>) -> Option<Result<RDLTypes, String>>;
}

/// The functions of the loaded plugins, as the host reaches them.
pub trait PluginFunctions {
    /// Calls function `func` of the plugin loaded under `alias` with
    /// `args`: the status the plugin reported, with the text it gave, or
    /// why no answer came.
    fn call_function(&mut self, alias: &str, func: &str, args: &Vec<RDLTypes>) -> Result<(FFIStatus, String), String>;
}

/// What evaluation heard from outside: the names of the objects; an
/// object's answer (`None` when no object had the name) to a call of
/// method `method` of object `object` with arguments `args`; a plugin's
/// answer to a call of function `func` of the plugin loaded under `alias`
/// with arguments `args`. Each answer is kept with the question it answers.
pub enum Heard {
    Names(Seq<Seq<char>>),
    Object { object: Seq<char>, method: Seq<char>, args: Seq<RdlV>, answer: Option<Result<RdlV, Seq<char>>> },
    Plugin { alias: Seq<char>, func: Seq<char>, args: Seq<RdlV>, answer: Result<(bool, Seq<char>), Seq<char>> },
}

/// The plain view of an object's answer.
pub open spec fn object_answer(r: Option<Result<RDLTypes, String>>) -> Option<Result<RdlV, Seq<char>>> {
    match r {
        Some(Ok(v)) => Some(Ok(v@)),
        Some(Err(m)) => Some(Err(m@)),
        None => None,
    }
}

/// The plain view of a plugin's answer: whether it reported success, and
/// its text.
pub open spec fn plugin_answer(r: Result<(FFIStatus, String), String>) -> Result<(bool, Seq<char>), Seq<char>> {
    match r {
        Ok((status, t)) => Ok((status == FFIStatus::Success, t@)),
        Err(m) => Err(m@),
    }
}

/// The object registry and the plugin functions evaluation reaches, with
/// the record of what they answered, in order.
pub struct Services<G, H> {
    registry: G,
    functions: H,
    heard: Ghost<Seq<Heard>>,
}

impl<G: ObjectRegistry, H: PluginFunctions> Services<G, H> {
    /// What was heard so far, in order.
    pub closed spec fn heard(&self) -> Seq<Heard> {
        self.heard@
    }

    /// The object registry asked.
    pub closed spec fn the_registry(&self) -> G {
        self.registry
    }

    /// The plugin functions asked.
    pub closed spec fn the_functions(&self) -> H {
        self.functions
    }

    /// Starts recording what `registry` and `functions` answer.
    pub fn new(registry: G, functions: H) -> (r: Self)
        ensures
            r.heard() == Seq::<Heard>::empty(),
            r.the_registry() == registry,
            r.the_functions() == functions,
    {
        Services { registry, functions, heard: Ghost(Seq::empty()) }
    }

    /// The object registry.
    pub fn registry(&self) -> (r: &G)
        ensures
            *r == self.the_registry(),
    {
        &self.registry
    }

    /// The plugin functions.
    pub fn functions(&self) -> (r: &H)
        ensures
            *r == self.the_functions(),
    {
        &self.functions
    }

    /// Asks the registry for the names of its objects.
    fn names(&mut self) -> (r: Vec<String>)
        ensures
            final(self).heard() == old(self).heard().push(Heard::Names(strings_view(r@))),
    {
        let r = self.registry.object_names();
        self.heard = Ghost(self.heard@.push(Heard::Names(strings_view(r@))));
        r
    }

    /// Calls a method of a registered object.
    fn call_object(&mut self, object: &str, method: &str, args: Vec<RDLTypes>) -> (r: Option<Result<RDLTypes, String>>)
        ensures
            final(self).heard() == old(self).heard().push(
                Heard::Object { object: object@, method: method@, args: rdls_view(args@), answer: object_answer(r) },
            ),
    {
        let ghost asked = rdls_view(args@);
        let r = self.registry.call_object(object, method, args);
        self.heard = Ghost(self.heard@.push(Heard::Object { object: object@, method: method@, args: asked, answer: object_answer(r) }));
        r
    }

    /// Calls a function of a loaded plugin.
    fn call_function(&mut self, alias: &str, func: &str, args: &Vec<RDLTypes>) -> (r: Result<(FFIStatus, String), String>)
        ensures
            final(self).heard() == old(self).heard().push(
                Heard::Plugin { alias: alias@, func: func@, args: rdls_view(args@), answer: plugin_answer(r) },
            ),
    {
        let r = self.functions.call_function(alias, func, args);
        self.heard = Ghost(self.heard@.push(Heard::Plugin { alias: alias@, func: func@, args: rdls_view(args@), answer: plugin_answer(r) }));
        r
    }
}

/// What stays fixed while an expression is evaluated: the aliases of the
/// loaded plugins and everything the outside will answer, in order.
pub struct EvEnv {
    pub plugins: Seq<Seq<char>>,
    pub heard: Seq<Heard>,
}

/// The entry `k` of what was heard, if there is one.
pub open spec fn heard_at(h: Seq<Heard>, k: nat) -> Option<Heard> {
    if k < h.len() { Some(h[k as int]) } else { None }
}

/// The object names heard at `k`.
pub open spec fn heard_names(h: Seq<Heard>, k: nat) -> Seq<Seq<char>> {
    match heard_at(h, k) {
        Some(Heard::Names(ns)) => ns,
        _ => Seq::empty(),
    }
}

/// The value of a name: a variable of the innermost scope that has it,
/// else the name itself for a built-in object or a loaded plugin.
pub open spec fn ev_identifier(scopes: Seq<Map<RdlV, RdlV>>, plugins: Seq<Seq<char>>, name: Seq<char>) -> Ev {
    match lookup(scopes, RdlV::Str(name)) {
        Some(v) => Ok(v),
        None => if name == "Request"@ || name == "Response"@ || name == "Database"@ || name == "FileSystem"@
            || plugins.contains(name) {
            Ok(RdlV::Str(name))
        } else {
            fail("Variable or object '"@ + name + "' not found"@)
        },
    }
}

/// A call of function `func` of the plugin loaded under `alias` with
/// arguments `vals`, answered at `k`: a function name with a NUL is
/// refused before the plugin is asked; otherwise the plugin is asked for
/// exactly that function with those arguments, and a plugin that reports
/// success gives its text, one that reports failure an error with its
/// text. An answer to another question answers nothing (`Unasked`).
pub open spec fn plugin_outcome(h: Seq<Heard>, alias: Seq<char>, func: Seq<char>, vals: Seq<RdlV>, k: nat) -> (Ev, nat) {
    match first_nul(func) {
        Some(i) => (fail("Error creating CString for function name: "@ + nul_error(func, i)), k),
        None => (match heard_at(h, k) {
            Some(Heard::Plugin { alias: a, func: f, args, answer }) => if a == alias && f == func && args == vals {
                match answer {
                    Ok((true, t)) => Ok(RdlV::Str(t)),
                    Ok((false, t)) => fail("Plugin Error: "@ + t),
                    Err(m) => fail(m),
                }
            } else {
                Err(FaultV::Unasked)
            },
            _ => Err(FaultV::Unasked),
        }, k + 1),
    }
}

/// Where a call with evaluated arguments goes: the names of the objects
/// are asked first; a call on a named object goes to the registry (which
/// looks the object up by the function's name), one on a loaded plugin to
/// the plugin, one without an object to the global functions.
pub open spec fn dispatch(env: EvEnv, obj: Option<Seq<char>>, name: Seq<char>, vals: Seq<RdlV>, k: nat) -> (Ev, nat) {
    let names = heard_names(env.heard, k);
    let k1 = k + 1;
    match obj {
        Some(n) => if names.contains(n) {
            (match heard_at(env.heard, k1) {
                Some(Heard::Object { object, method, args, answer }) => if object == name && method == name && args == vals {
                    match answer {
                        Some(Ok(v)) => Ok(v),
                        Some(Err(m)) => fail(m),
                        None => fail("Object '"@ + n + "' not found"@),
                    }
                } else {
                    Err(FaultV::Unasked)
                },
                _ => Err(FaultV::Unasked),
            }, k1 + 1)
        } else if env.plugins.contains(n) {
            plugin_outcome(env.heard, n, name, vals, k1)
        } else {
            (fail("Object '"@ + n + "' not found"@), k1)
        },
        None => (global_call(name, vals), k1),
    }
}

/// How the operators after a call treat its error: `?` passes it on, `!!`
/// turns it into a panic with the error's text, no operator passes it on.
pub open spec fn after_call(r: Ev, try_operator: bool, unwrap_operator: bool) -> Ev {
    match r {
        Err(FaultV::Error(m)) => if !try_operator && unwrap_operator {
            Err(FaultV::Panic("Execution error (unwrap !!): "@ + error_text_of(ErrorKind::Runtime, m, None, None)))
        } else {
            r
        },
        _ => r,
    }
}

/// The value of an expression with the given scopes, the outside answers
/// used from `k` on, and how many have been used after it.
pub open spec fn ev(env: EvEnv, scopes: Seq<Map<RdlV, RdlV>>, e: SpecAst, k: nat) -> (Ev, nat)
    decreases e, 2int,
{
    match e {
        SpecAst::StringLiteral(s) => (Ok(RdlV::Str(s)), k),
        SpecAst::NumberLiteral(n) => (Ok(RdlV::Num(n)), k),
        SpecAst::Identifier(n) => (ev_identifier(scopes, env.plugins, n), k),
        SpecAst::BinaryOp { left, operator, right } => {
            let (l, k1) = ev(env, scopes, *left, k);
            match l {
                Err(f) => (Err(f), k1),
                Ok(lv) => {
                    let (r, k2) = ev(env, scopes, *right, k1);
                    match r {
                        Err(f) => (Err(f), k2),
                        Ok(rv) => (binary(operator, lv, rv), k2),
                    }
                },
            }
        },
        SpecAst::FunctionCall { .. } => ev_call(env, scopes, e, k),
        SpecAst::PropertyAccess { object, property } => {
            let (o, k1) = ev(env, scopes, *object, k);
            match o {
                Err(f) => (Err(f), k1),
                Ok(v) => (fail("Property access '"@ + rdl_text(v) + "."@ + property + "' not implemented"@), k1),
            }
        },
        SpecAst::ArrayLiteral(elems) => {
            let (r, k1) = ev_all(env, scopes, elems, k);
            match r {
                Err(f) => (Err(f), k1),
                Ok(vs) => (Ok(RdlV::Str(json_array_text(literal_items(vs)))), k1),
            }
        },
        SpecAst::ArrayAccess { array, index } => {
            let (a, k1) = ev(env, scopes, *array, k);
            match a {
                Err(f) => (Err(f), k1),
                Ok(av) => {
                    let (i, k2) = ev(env, scopes, *index, k1);
                    match i {
                        Err(f) => (Err(f), k2),
                        Ok(iv) => (access_value(av, iv), k2),
                    }
                },
            }
        },
        _ => (fail("Unsupported expression: "@ + node_debug_text(e)), k),
    }
}

/// A call: its arguments in order, then its object, then the call itself.
pub open spec fn ev_call(env: EvEnv, scopes: Seq<Map<RdlV, RdlV>>, e: SpecAst, k: nat) -> (Ev, nat)
    decreases e, 1int,
{
    match e {
        SpecAst::FunctionCall { object, name, args, try_operator, unwrap_operator } => {
            let (ra, k1) = ev_all(env, scopes, args, k);
            match ra {
                Err(f) => (Err(f), k1),
                Ok(vals) => match object {
                    None => {
                        let (r, k2) = dispatch(env, None, name, vals, k1);
                        (after_call(r, try_operator, unwrap_operator), k2)
                    },
                    Some(o) => match *o {
                        SpecAst::Identifier(n) => {
                            let (r, k2) = dispatch(env, Some(n), name, vals, k1);
                            (after_call(r, try_operator, unwrap_operator), k2)
                        },
                        _ => {
                            let (ro, k2) = ev(env, scopes, *o, k1);
                            match ro {
                                Err(f) => (Err(f), k2),
                                Ok(v) => (fail("Calling a method on a non-identifier ('"@ + rdl_text(v)
                                    + "') is not supported"@), k2),
                            }
                        },
                    },
                },
            }
        },
        _ => (fail(Seq::empty()), k),
    }
}

/// The values of expressions evaluated in order, up to the first fault.
pub open spec fn ev_all(env: EvEnv, scopes: Seq<Map<RdlV, RdlV>>, es: Seq<SpecAst>, k: nat) -> (Result<Seq<RdlV>, FaultV>, nat)
    decreases es, 0int,
{
    if es.len() == 0 {
        (Ok(Seq::empty()), k)
    } else {
        let (r0, k1) = ev(env, scopes, es[0], k);
        match r0 {
            Err(f) => (Err(f), k1),
            Ok(v) => {
                let (rr, k2) = ev_all(env, scopes, es.subrange(1, es.len() as int), k1);
                match rr {
                    Err(f) => (Err(f), k2),
                    Ok(vs) => (Ok(seq![v] + vs), k2),
                }
            },
        }
    }
}

/// Everything heard after `h1` extends what was heard before, and a
/// record that extends the latest also extends the earlier one.
proof fn lemma_chain(h2: Seq<Heard>, h1: Seq<Heard>, h0: Seq<Heard>)
    requires
        extends(h2, h1),
        extends(h1, h0),
    ensures
        extends(h2, h0),
        forall|hs: Seq<Heard>| #[trigger] extends(hs, h2) ==> extends(hs, h1),
{
    lemma_extends_trans(h2, h1, h0);
    assert forall|hs: Seq<Heard>| #[trigger] extends(hs, h2) implies extends(hs, h1) by {
        lemma_extends_trans(hs, h2, h1);
    }
}

/// The arguments of a call node have the views of its argument nodes.
proof fn lemma_call_args(n: AstNode)
    requires
        n is FunctionCall,
    ensures
        ast_args(n@) == asts_view(n->FunctionCall_args@),
{
    assert(ast_args(n@) =~= asts_view(n->FunctionCall_args@));
}

/// The arguments of a call.
pub open spec fn ast_args(e: SpecAst) -> Seq<SpecAst> {
    match e {
        SpecAst::FunctionCall { args, .. } => args,
        _ => Seq::empty(),
    }
}

/// Whether a list of texts holds `s`.
fn contains_text(v: &Vec<String>, s: &str) -> (r: bool)
    ensures
        r == strings_view(v@).contains(s@),
{
    let n = v.len();
    let mut i: usize = 0;
    while i < n
        invariant
            i <= n,
            n == v@.len(),
            forall|j: int| 0 <= j < i ==> v@[j]@ != s@,
        decreases n - i,
    {
        if str_eq(v[i].as_str(), s) {
            assert(strings_view(v@)[i as int] == s@);
            return true;
        }
        i = i + 1;
    }
    proof {
        if strings_view(v@).contains(s@) {
            let j = choose|j: int| 0 <= j < strings_view(v@).len() && strings_view(v@)[j] == s@;
            assert(v@[j]@ == s@);
        }
    }
    false
}

/// A runtime error.
fn error_with(m: String) -> (r: Result<RDLTypes, Fault>)
    ensures
        ev_view(r) == fail(m@),
{
    Err(Fault::Error(m))
}

/// Applies the operators after a call (see `after_call`).
fn after_call_exec(r: Result<RDLTypes, Fault>, try_operator: bool, unwrap_operator: bool) -> (out: Result<RDLTypes, Fault>)
    ensures
        ev_view(out) == after_call(ev_view(r), try_operator, unwrap_operator),
{
    match r {
        Err(Fault::Error(m)) => {
            if !try_operator && unwrap_operator {
                let e = Error { kind: ErrorKind::Runtime, message: m, line: None, column: None };
                let mut p = text("Execution error (unwrap !!): ");
                let t = e.to_display_string();
                p.append(t.as_str());
                Err(Fault::Panic(p))
            } else {
                Err(Fault::Error(m))
            }
        },
        _ => r,
    }
}

/// Evaluates expressions of route code against a scope of variables and
/// the loaded plugins.
pub struct Evaluator<'a, O> {
    context: &'a ExecutionContext<O>,
    plugins: &'a Vec<String>,
}

impl<'a, O: Object> Evaluator<'a, O> {
    /// The scopes the evaluator reads variables from.
    pub closed spec fn scopes(&self) -> Seq<Map<RdlV, RdlV>> {
        self.context.scopes()
    }

    /// The aliases of the loaded plugins.
    pub closed spec fn plugins(&self) -> Seq<Seq<char>> {
        strings_view(self.plugins@)
    }

    /// The scopes are well formed.
    pub closed spec fn ready(&self) -> bool {
        self.context.wf()
    }

    /// An evaluator reading `context` with the plugins `plugins` loaded.
    pub fn new(context: &'a ExecutionContext<O>, plugins: &'a Vec<String>) -> (r: Self)
        requires
            context.wf(),
        ensures
            r.ready(),
            r.scopes() == context.scopes(),
            r.plugins() == strings_view(plugins@),
    {
        Evaluator { context, plugins }
    }

    /// The environment of evaluation when the outside answers `hs`.
    pub open spec fn env(&self, hs: Seq<Heard>) -> EvEnv {
        EvEnv { plugins: self.plugins(), heard: hs }
    }

    /// The value of a name (see `ev_identifier`).
    fn evaluate_identifier(&self, name: &str) -> (r: Result<RDLTypes, Fault>)
        requires
            self.ready(),
        ensures
            ev_view(r) == ev_identifier(self.scopes(), self.plugins(), name@),
    {
        let key = RDLTypes::String(text(name));
        match self.context.get_variable(&key) {
            Some(v) => Ok(v),
            None => {
                if str_eq(name, "Request") || str_eq(name, "Response") || str_eq(name, "Database")
                    || str_eq(name, "FileSystem") || contains_text(self.plugins, name) {
                    Ok(RDLTypes::String(text(name)))
                } else {
                    let mut m = text("Variable or object '");
                    m.append(name);
                    m.append("' not found");
                    error_with(m)
                }
            },
        }
    }

    /// Calls function `func` of a loaded plugin (see `plugin_outcome`).
    fn call_plugin<G: ObjectRegistry, H: PluginFunctions>(
        &self,
        alias: &str,
        func: &str,
        vals: &Vec<RDLTypes>,
        services: &mut Services<G, H>,
    ) -> (r: Result<RDLTypes, Fault>)
        ensures
            extends(final(services).heard(), old(services).heard()),
            forall|hs: Seq<Heard>| #[trigger] extends(hs, final(services).heard()) ==>
                plugin_outcome(hs, alias@, func@, rdls_view(vals@), old(services).heard().len()) == (ev_view(r), final(services).heard().len()),
    {
        let ghost h0 = services.heard();
        proof {
            lemma_extends_refl(h0);
        }
        match find_nul(func) {
            Some(i) => {
                let mut m = text("Error creating CString for function name: ");
                push_nul_error(&mut m, func, i);
                error_with(m)
            },
            None => {
                let a = services.call_function(alias, func, vals);
                proof {
                    assert(extends(services.heard(), h0));
                    assert forall|hs: Seq<Heard>| #[trigger] extends(hs, services.heard())
                        implies heard_at(hs, h0.len()) == Some(Heard::Plugin { alias: alias@, func: func@, args: rdls_view(vals@), answer: plugin_answer(a) }) by {
                        assert(hs[h0.len() as int] == services.heard()[h0.len() as int]);
                    }
                }
                match a {
                    Ok((FFIStatus::Success, t)) => Ok(RDLTypes::String(t)),
                    Ok((FFIStatus::Failure, t)) => {
                        let mut m = text("Plugin Error: ");
                        m.append(t.as_str());
                        error_with(m)
                    },
                    Err(m) => error_with(m),
                }
            },
        }
    }

    /// Sends a call with evaluated arguments where it goes (see
    /// `dispatch`).
    #[verifier::rlimit(30)]
    fn dispatch<G: ObjectRegistry, H: PluginFunctions>(
        &self,
        obj: Option<&str>,
        name: &str,
        vals: Vec<RDLTypes>,
        services: &mut Services<G, H>,
    ) -> (r: Result<RDLTypes, Fault>)
        ensures
            extends(final(services).heard(), old(services).heard()),
            forall|hs: Seq<Heard>| #[trigger] extends(hs, final(services).heard()) ==>
                dispatch(self.env(hs), match obj { Some(n) => Some(n@), None => None }, name@, rdls_view(vals@),
                    old(services).heard().len()) == (ev_view(r), final(services).heard().len()),
    {
        let ghost h0 = services.heard();
        let names = services.names();
        let ghost h1 = services.heard();
        proof {
            lemma_extends_refl(h1);
            assert(extends(h1, h0));
            assert forall|hs: Seq<Heard>| #[trigger] extends(hs, h1)
                implies heard_names(hs, h0.len()) == strings_view(names@) by {
                assert(hs[h0.len() as int] == h1[h0.len() as int]);
            }
        }
        match obj {
            Some(n) => {
                if contains_text(&names, n) {
                    let ghost asked = rdls_view(vals@);
                    let a = services.call_object(name, name, vals);
                    proof {
                        lemma_chain(services.heard(), h1, h0);
                        assert forall|hs: Seq<Heard>| #[trigger] extends(hs, services.heard())
                            implies heard_at(hs, h1.len()) == Some(Heard::Object { object: name@, method: name@, args: asked, answer: object_answer(a) }) by {
                            assert(hs[h1.len() as int] == services.heard()[h1.len() as int]);
                        }
                    }
                    match a {
                        Some(Ok(v)) => Ok(v),
                        Some(Err(m)) => error_with(m),
                        None => {
                            let mut m = text("Object '");
                            m.append(n);
                            m.append("' not found");
                            error_with(m)
                        },
                    }
                } else if contains_text(self.plugins, n) {
                    let r = self.call_plugin(n, name, &vals, services);
                    proof {
                        lemma_chain(services.heard(), h1, h0);
                    }
                    r
                } else {
                    let mut m = text("Object '");
                    m.append(n);
                    m.append("' not found");
                    error_with(m)
                }
            },
            None => call_global_function(name, &vals),
        }
    }

    /// Evaluates `args[i..]` in order, up to the first fault.
    #[verifier::rlimit(30)]
    fn evaluate_args<G: ObjectRegistry, H: PluginFunctions>(
        &self,
        args: &Vec<Box<AstNode>>,
        i: usize,
        services: &mut Services<G, H>,
    ) -> (r: Result<Vec<RDLTypes>, Fault>)
        requires
            self.ready(),
            i <= args@.len(),
        ensures
            extends(final(services).heard(), old(services).heard()),
            forall|hs: Seq<Heard>| #[trigger] extends(hs, final(services).heard()) ==>
                ev_all(self.env(hs), self.scopes(), asts_view(args@).subrange(i as int, args@.len() as int),
                    old(services).heard().len()) == (match r {
                        Ok(v) => Ok(rdls_view(v@)),
                        Err(f) => Err(super::values::fault_view(f)),
                    }, final(services).heard().len()),
        decreases args, 0int, args@.len() - i,
    {
        let ghost h0 = services.heard();
        let ghost view = asts_view(args@);
        let ghost sub = view.subrange(i as int, args@.len() as int);
        proof {
            lemma_extends_refl(h0);
        }
        if i >= args.len() {
            let out: Vec<RDLTypes> = Vec::new();
            proof {
                assert(sub.len() == 0);
                assert(rdls_view(out@) =~= Seq::<RdlV>::empty());
            }
            return Ok(out);
        }
        proof {
            assert(decreases_to!(*args => args@));
            assert(decreases_to!(args@ => args@[i as int]));
            assert(sub[0] == view[i as int]);
            assert(sub.subrange(1, sub.len() as int) =~= view.subrange(i + 1, args@.len() as int));
        }
        let v = match self.evaluate(&args[i], services) {
            Ok(v) => v,
            Err(f) => {
                return Err(f);
            },
        };
        let ghost h1 = services.heard();
        let rest = match self.evaluate_args(args, i + 1, services) {
            Ok(v) => v,
            Err(f) => {
                proof {
                    lemma_chain(services.heard(), h1, h0);
                }
                return Err(f);
            },
        };
        let ghost rest_view = rdls_view(rest@);
        let mut out: Vec<RDLTypes> = Vec::new();
        out.push(v);
        let mut rest = rest;
        out.append(&mut rest);
        proof {
            lemma_chain(services.heard(), h1, h0);
            assert(rdls_view(out@) =~= seq![out@[0]@] + rest_view);
        }
        Ok(out)
    }

    /// Evaluates a call node (see `ev_call`).
    #[verifier::rlimit(40)]
    fn evaluate_function_call<G: ObjectRegistry, H: PluginFunctions>(
        &self,
        call: &AstNode,
        services: &mut Services<G, H>,
    ) -> (r: Result<RDLTypes, Fault>)
        requires
            self.ready(),
            call is FunctionCall,
        ensures
            extends(final(services).heard(), old(services).heard()),
            forall|hs: Seq<Heard>| #[trigger] extends(hs, final(services).heard()) ==>
                ev_call(self.env(hs), self.scopes(), call@, old(services).heard().len())
                    == (ev_view(r), final(services).heard().len()),
        decreases call, 1int, 0int,
    {
        let ghost h0 = services.heard();
        proof {
            lemma_extends_refl(h0);
            lemma_call_args(*call);
        }
        match call {
            AstNode::FunctionCall { object, name, args, try_operator, unwrap_operator } => {
                proof {
                    assert(asts_view(args@).subrange(0, args@.len() as int) =~= asts_view(args@));
                }
                let vals = match self.evaluate_args(args, 0, services) {
                    Ok(v) => v,
                    Err(f) => {
                        return Err(f);
                    },
                };
                let ghost h1 = services.heard();
                let r = match object {
                    None => self.dispatch(None, name.as_str(), vals, services),
                    Some(o) => match &**o {
                        AstNode::Identifier(n) => self.dispatch(Some(n.as_str()), name.as_str(), vals, services),
                        _ => {
                            let v = match self.evaluate(o, services) {
                                Ok(v) => v,
                                Err(f) => {
                                    proof {
                                        lemma_chain(services.heard(), h1, h0);
                                    }
                                    return Err(f);
                                },
                            };
                            proof {
                                lemma_chain(services.heard(), h1, h0);
                            }
                            let mut m = text("Calling a method on a non-identifier ('");
                            let t = v.to_display_string();
                            m.append(t.as_str());
                            m.append("') is not supported");
                            return error_with(m);
                        },
                    },
                };
                proof {
                    lemma_chain(services.heard(), h1, h0);
                }
                after_call_exec(r, *try_operator, *unwrap_operator)
            },
            _ => error_with(String::new()),
        }
    }

    /// Evaluates an expression (see `ev`): the outside answers it uses are
    /// recorded in `services`, and whatever they go on to answer, the
    /// result is the one `ev` gives.
    #[verifier::rlimit(40)]
    pub fn evaluate<G: ObjectRegistry, H: PluginFunctions>(
        &self,
        expr: &AstNode,
        services: &mut Services<G, H>,
    ) -> (r: Result<RDLTypes, Fault>)
        requires
            self.ready(),
        ensures
            extends(final(services).heard(), old(services).heard()),
            forall|hs: Seq<Heard>| #[trigger] extends(hs, final(services).heard()) ==>
                ev(self.env(hs), self.scopes(), expr@, old(services).heard().len())
                    == (ev_view(r), final(services).heard().len()),
        decreases expr, 2int, 0int,
    {
        let ghost h0 = services.heard();
        proof {
            lemma_extends_refl(h0);
        }
        match expr {
            AstNode::StringLiteral(s) => Ok(RDLTypes::String(s.clone())),
            AstNode::NumberLiteral(n) => Ok(RDLTypes::Number(*n)),
            AstNode::Identifier(name) => self.evaluate_identifier(name.as_str()),
            AstNode::BinaryOp { left, operator, right } => {
                let lv = match self.evaluate(left, services) {
                    Ok(v) => v,
                    Err(f) => {
                        return Err(f);
                    },
                };
                let ghost h1 = services.heard();
                let rv = match self.evaluate(right, services) {
                    Ok(v) => v,
                    Err(f) => {
                        proof {
                            lemma_chain(services.heard(), h1, h0);
                        }
                        return Err(f);
                    },
                };
                proof {
                    lemma_chain(services.heard(), h1, h0);
                }
                binary_value(operator.as_str(), &lv, &rv)
            },
            AstNode::FunctionCall { .. } => self.evaluate_function_call(expr, services),
            AstNode::PropertyAccess { object, property } => {
                let v = match self.evaluate(object, services) {
                    Ok(v) => v,
                    Err(f) => {
                        return Err(f);
                    },
                };
                let mut m = text("Property access '");
                let t = v.to_display_string();
                m.append(t.as_str());
                m.append(".");
                m.append(property.as_str());
                m.append("' not implemented");
                error_with(m)
            },
            AstNode::ArrayLiteral(elems) => {
                proof {
                    lemma_list_view(*elems);
                    assert(asts_view(elems@).subrange(0, elems@.len() as int) =~= asts_view(elems@));
                }
                let vals = match self.evaluate_args(elems, 0, services) {
                    Ok(v) => v,
                    Err(f) => {
                        return Err(f);
                    },
                };
                Ok(RDLTypes::String(array_literal_value(&vals)))
            },
            AstNode::ArrayAccess { array, index } => {
                let av = match self.evaluate(array, services) {
                    Ok(v) => v,
                    Err(f) => {
                        return Err(f);
                    },
                };
                let ghost h1 = services.heard();
                let iv = match self.evaluate(index, services) {
                    Ok(v) => v,
                    Err(f) => {
                        proof {
                            lemma_chain(services.heard(), h1, h0);
                        }
                        return Err(f);
                    },
                };
                proof {
                    lemma_chain(services.heard(), h1, h0);
                }
                access_exec(&av, &iv)
            },
            _ => {
                let mut m = text("Unsupported expression: ");
                let d = node_debug(expr);
                m.append(d.as_str());
                error_with(m)
            },
        }
    }
}

} // verus!
