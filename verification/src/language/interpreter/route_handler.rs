use vstd::prelude::*;
use crate::language::ast::{AstNode, SpecAst, asts_view, lemma_list_view};
use crate::language::vm::{RDLTypes, RdlV, Object, rdl_text};
use crate::language::compiler::Opcode;
use crate::language::text::{text, str_eq, int_decimal};
use super::context::{ExecutionContext, lookup, names_unique, scope_map};
use super::run::{extends, lemma_extends_trans, lemma_extends_refl, strings_view};
use super::values::{Fault, FaultV, Ev, ev_view, fault_view, fail, checked, pow_value, loop_items, loop_items_exec};
use super::evaluator::{Heard, EvEnv, Services, Evaluator, ObjectRegistry, PluginFunctions, ev};
use super::builtin::request::Request;
use super::builtin::response::{Response, sent_headers};

verus! {

/// A handler of errors: the name the error's message is bound to and the
/// statements that run.
pub struct ErrorHandler {
    pub error_var: String,
    pub actions: Vec<Box<AstNode>>,
}

/// The plain view of a borrowed error handler.
pub open spec fn handler_view(h: Option<&ErrorHandler>) -> Option<(Seq<char>, Seq<SpecAst>)> {
    match h {
        Some(h) => Some((h.error_var@, asts_view(h.actions@))),
        None => None,
    }
}

/// The scopes with `name` set to `v` in the innermost one.
pub open spec fn set0(scopes: Seq<Map<RdlV, RdlV>>, name: RdlV, v: RdlV) -> Seq<Map<RdlV, RdlV>> {
    scopes.update(0, scopes[0].insert(name, v))
}

/// The result of a statement, seen without its value.
pub type Done = Result<(), FaultV>;

/// The result of a statement.
pub open spec fn done_view(r: Result<(), Fault>) -> Done {
    match r {
        Ok(_) => Ok(()),
        Err(f) => Err(fault_view(f)),
    }
}

/// Whether an operator assigns to its left side.
pub open spec fn is_compound(op: Seq<char>) -> bool {
    op == "+="@ || op == "-="@ || op == "*="@ || op == "/="@ || op == "^="@
}

/// The word for the operation of a compound operator that takes numbers.
pub open spec fn compound_word(op: Seq<char>) -> Seq<char> {
    if op == "-="@ {
        "вычитания"@
    } else if op == "*="@ {
        "умножения"@
    } else if op == "/="@ {
        "деления"@
    } else {
        "возведения в степень"@
    }
}

/// The refusal of a value that is not a number for a compound operator.
pub open spec fn not_convertible(v: RdlV, op: Seq<char>) -> Ev {
    fail("Невозможно преобразовать '"@ + rdl_text(v) + "' в число для "@ + compound_word(op))
}

/// A number as the text a compound operator stores.
pub open spec fn stored_text(r: Ev) -> Ev {
    match r {
        Ok(RdlV::Num(n)) => Ok(RdlV::Str(int_decimal(n as int))),
        _ => r,
    }
}

/// The new value of a variable under a compound operator: `+=` adds two
/// numbers or joins texts; `-=`, `*=`, `/=` take numbers, refuse a zero
/// divisor, and store the result as text; `^=` stores the power as a
/// number.
pub open spec fn compound_value(op: Seq<char>, cur: RdlV, rv: RdlV) -> Ev {
    if op == "+="@ {
        match (cur, rv) {
            (RdlV::Num(x), RdlV::Num(y)) => stored_text(checked(Opcode::Add, x, y)),
            _ => Ok(RdlV::Str(rdl_text(cur) + rdl_text(rv))),
        }
    } else {
        match (cur, rv) {
            (RdlV::Num(x), RdlV::Num(y)) => if op == "-="@ {
                stored_text(checked(Opcode::Sub, x, y))
            } else if op == "*="@ {
                stored_text(checked(Opcode::Mul, x, y))
            } else if op == "/="@ {
                if y == 0 { fail("Деление на ноль"@) } else { stored_text(checked(Opcode::Div, x, y)) }
            } else {
                pow_value(x, y)
            },
            (RdlV::Num(_), _) => not_convertible(rv, op),
            _ => not_convertible(cur, op),
        }
    }
}

/// A statement run on `scopes` with the outside answers from `k` on: how
/// it ended, the scopes after it (unchanged when it failed) and how many
/// answers were used. Nothing runs once the response is sent; a `while`
/// loop runs its body at most `limit` times.
pub open spec fn act(env: EvEnv, sent: bool, limit: nat, scopes: Seq<Map<RdlV, RdlV>>, a: SpecAst, k: nat)
    -> (Done, Seq<Map<RdlV, RdlV>>, nat)
    decreases a, 1int, 0int,
{
    if sent {
        (Ok(()), scopes, k)
    } else {
        match a {
            SpecAst::VarDeclaration { name, value } => {
                let (r, k1) = ev(env, scopes, *value, k);
                match r {
                    Err(f) => (Err(f), scopes, k1),
                    Ok(v) => (Ok(()), set0(scopes, RdlV::Str(name), v), k1),
                }
            },
            SpecAst::FunctionCall { try_operator, unwrap_operator, .. } => {
                let (r, k1) = ev(env, scopes, a, k);
                (match r {
                    Ok(_) => Ok(()),
                    Err(FaultV::Error(m)) => if !try_operator && unwrap_operator {
                        Err(FaultV::Panic("Ошибка выполнения (unwrap !!): "@ + m))
                    } else {
                        Err(FaultV::Error(m))
                    },
                    Err(f) => Err(f),
                }, scopes, k1)
            },
            SpecAst::IfStatement { condition, then_branch, else_branch } => {
                let (c, k1) = ev(env, scopes, *condition, k);
                match c {
                    Err(f) => (Err(f), scopes, k1),
                    Ok(cv) => if cv == RdlV::Bool(true) {
                        settle(run_body(env, sent, limit, scopes, *then_branch, k1), scopes)
                    } else {
                        match else_branch {
                            Some(e) => settle(run_body(env, sent, limit, scopes, *e, k1), scopes),
                            None => (Ok(()), scopes, k1),
                        }
                    },
                }
            },
            SpecAst::BinaryOp { left, operator, right } => if is_compound(operator) {
                match *left {
                    SpecAst::Identifier(var) => {
                        let (r, k1) = ev(env, scopes, *right, k);
                        match r {
                            Err(f) => (Err(f), scopes, k1),
                            Ok(rv) => match lookup(scopes, RdlV::Str(var)) {
                                None => (Err(FaultV::Error("Переменная '"@ + var + "' для '"@ + operator + "' не найдена"@)),
                                    scopes, k1),
                                Some(cur) => match compound_value(operator, cur, rv) {
                                    Err(f) => (Err(f), scopes, k1),
                                    Ok(nv) => (Ok(()), set0(scopes, RdlV::Str(var), nv), k1),
                                },
                            },
                        }
                    },
                    _ => (Err(FaultV::Error("Оператор '"@ + operator
                        + "' может использоваться только с идентификатором переменной слева"@)), scopes, k),
                }
            } else {
                let (r, k1) = ev(env, scopes, a, k);
                (match r {
                    Ok(_) => Ok(()),
                    Err(f) => Err(f),
                }, scopes, k1)
            },
            SpecAst::WhileLoop { .. } => settle(run_while(env, sent, limit, scopes, a, limit, k), scopes),
            SpecAst::ForLoop { iterable, .. } => {
                let (it, k1) = ev(env, scopes, *iterable, k);
                match it {
                    Err(f) => (Err(f), scopes, k1),
                    Ok(v) => match loop_items(v) {
                        Err(f) => (Err(f), scopes, k1),
                        Ok(items) => settle(run_for(env, sent, limit, scopes, a, items, k1), scopes),
                    },
                }
            },
            _ => {
                let (r, k1) = ev(env, scopes, a, k);
                (match r {
                    Ok(_) => Ok(()),
                    Err(f) => Err(f),
                }, scopes, k1)
            },
        }
    }
}

/// Keeps the scopes a run ended with when it succeeded, and `scopes`
/// when it failed.
pub open spec fn settle(r: (Done, Seq<Map<RdlV, RdlV>>, nat), scopes: Seq<Map<RdlV, RdlV>>) -> (Done, Seq<Map<RdlV, RdlV>>, nat) {
    match r.0 {
        Ok(_) => r,
        Err(f) => (Err(f), scopes, r.2),
    }
}

/// The body of a branch or a loop: the statements of a block in order, or
/// a single statement.
pub open spec fn run_body(env: EvEnv, sent: bool, limit: nat, scopes: Seq<Map<RdlV, RdlV>>, body: SpecAst, k: nat)
    -> (Done, Seq<Map<RdlV, RdlV>>, nat)
    decreases body, 2int, 0int,
{
    match body {
        SpecAst::Block(stmts) => run_list(env, sent, limit, scopes, stmts, k),
        _ => act(env, sent, limit, scopes, body, k),
    }
}

/// Statements in order, up to the first that fails.
pub open spec fn run_list(env: EvEnv, sent: bool, limit: nat, scopes: Seq<Map<RdlV, RdlV>>, stmts: Seq<SpecAst>, k: nat)
    -> (Done, Seq<Map<RdlV, RdlV>>, nat)
    decreases stmts, 0int, 0int,
{
    if stmts.len() == 0 {
        (Ok(()), scopes, k)
    } else {
        let (r, s1, k1) = act(env, sent, limit, scopes, stmts[0], k);
        match r {
            Err(f) => (Err(f), s1, k1),
            Ok(_) => run_list(env, sent, limit, s1, stmts.subrange(1, stmts.len() as int), k1),
        }
    }
}

/// A `while` loop `w` with `rounds` rounds left: while its condition is
/// `true` its body runs; a condition still `true` with no rounds left
/// stops the run.
pub open spec fn run_while(env: EvEnv, sent: bool, limit: nat, scopes: Seq<Map<RdlV, RdlV>>, w: SpecAst, rounds: nat, k: nat)
    -> (Done, Seq<Map<RdlV, RdlV>>, nat)
    decreases w, 0int, rounds,
{
    match w {
        SpecAst::WhileLoop { condition, body } => {
            let (c, k1) = ev(env, scopes, *condition, k);
            match c {
                Err(f) => (Err(f), scopes, k1),
                Ok(cv) => if cv == RdlV::Bool(true) {
                    if rounds == 0 {
                        (Err(FaultV::LoopLimit), scopes, k1)
                    } else {
                        let (r, s1, k2) = run_body(env, sent, limit, scopes, *body, k1);
                        match r {
                            Err(f) => (Err(f), s1, k2),
                            Ok(_) => run_while(env, sent, limit, s1, w, (rounds - 1) as nat, k2),
                        }
                    }
                } else {
                    (Ok(()), scopes, k1)
                },
            }
        },
        _ => (Ok(()), scopes, k),
    }
}

/// A `for` loop `f` over `items`: each item is bound to the loop's name in
/// the innermost scope, then the body runs.
pub open spec fn run_for(env: EvEnv, sent: bool, limit: nat, scopes: Seq<Map<RdlV, RdlV>>, f: SpecAst, items: Seq<RdlV>, k: nat)
    -> (Done, Seq<Map<RdlV, RdlV>>, nat)
    decreases f, 0int, items.len(),
{
    match f {
        SpecAst::ForLoop { var_name, body, .. } => if items.len() == 0 {
            (Ok(()), scopes, k)
        } else {
            let s0 = set0(scopes, RdlV::Str(var_name), items[0]);
            let (r, s1, k1) = run_body(env, sent, limit, s0, *body, k);
            match r {
                Err(e) => (Err(e), s1, k1),
                Ok(_) => run_for(env, sent, limit, s1, f, items.subrange(1, items.len() as int), k1),
            }
        },
        _ => (Ok(()), scopes, k),
    }
}

/// The statements of a route in order, up to the first that fails; once
/// the response is sent the route stops.
pub open spec fn main_run(env: EvEnv, sent: bool, limit: nat, scopes: Seq<Map<RdlV, RdlV>>, acts: Seq<SpecAst>, k: nat)
    -> (Done, Seq<Map<RdlV, RdlV>>, nat)
    decreases acts.len(),
{
    if acts.len() == 0 {
        (Ok(()), scopes, k)
    } else {
        let (r, s1, k1) = act(env, sent, limit, scopes, acts[0], k);
        match r {
            Err(f) => (Err(f), s1, k1),
            Ok(_) => if sent {
                (Ok(()), s1, k1)
            } else {
                main_run(env, sent, limit, s1, acts.subrange(1, acts.len() as int), k1)
            },
        }
    }
}

/// The statements of an error handler in order: a statement's error is
/// passed over, a panic or an endless computation ends the run; once the
/// response is sent the handler stops.
pub open spec fn handler_run(env: EvEnv, sent: bool, limit: nat, scopes: Seq<Map<RdlV, RdlV>>, acts: Seq<SpecAst>, k: nat)
    -> (Done, nat)
    decreases acts.len(),
{
    if acts.len() == 0 {
        (Ok(()), k)
    } else {
        let (r, s1, k1) = act(env, sent, limit, scopes, acts[0], k);
        match r {
            Ok(_) | Err(FaultV::Error(_)) => if sent {
                (Ok(()), k1)
            } else {
                handler_run(env, sent, limit, s1, acts.subrange(1, acts.len() as int), k1)
            },
            Err(f) => (Err(f), k1),
        }
    }
}

/// The handler that runs an error's message bound to its name.
pub open spec fn handled(env: EvEnv, sent: bool, limit: nat, scopes: Seq<Map<RdlV, RdlV>>, h: (Seq<char>, Seq<SpecAst>),
    m: Seq<char>, k: nat) -> (Result<Option<Seq<char>>, FaultV>, nat)
{
    let (hr, k2) = handler_run(env, sent, limit, set0(scopes, RdlV::Str(h.0), RdlV::Str(m)), h.1, k);
    (match hr {
        Err(f) => Err(f),
        Ok(_) => Ok(None),
    }, k2)
}

/// A route run from fresh variables: `Ok(None)` when it ends with the
/// response as its statements left it, `Ok(Some(m))` when an error with
/// message `m` reached neither the route's handler nor the global one and
/// the response was not sent, so a 500 answer goes out; `Err` for a panic,
/// an endless computation or a loop stopped at its limit.
pub open spec fn route_run(env: EvEnv, sent: bool, limit: nat, acts: Seq<SpecAst>, local: Option<(Seq<char>, Seq<SpecAst>)>,
    global: Option<(Seq<char>, Seq<SpecAst>)>, k: nat) -> (Result<Option<Seq<char>>, FaultV>, nat)
{
    let (r, s1, k1) = main_run(env, sent, limit, seq![Map::empty()], acts, k);
    match r {
        Ok(_) => (Ok(None), k1),
        Err(FaultV::Error(m)) => match local {
            Some(h) => handled(env, sent, limit, s1, h, m, k1),
            None => match global {
                Some(h) => handled(env, sent, limit, s1, h, m, k1),
                None => (if sent { Ok(None) } else { Ok(Some(m)) }, k1),
            },
        },
        Err(f) => (Err(f), k1),
    }
}

/// The handler of a route, as plain values.
pub open spec fn handler_of(h: Option<ErrorHandler>) -> Option<(Seq<char>, Seq<SpecAst>)> {
    match h {
        Some(h) => Some((h.error_var@, asts_view(h.actions@))),
        None => None,
    }
}

/// The response a route's unhandled error `m` sends: status 500 and the
/// error's message in the body.
pub open spec fn failed_response(before: Response, after: Response, m: Seq<char>) -> bool {
    &&& after.status == 500
    &&& after.body matches Some(b) && b@ == "Internal Server Error: "@ + m
    &&& after.headers.wf()
    &&& after.headers@ == sent_headers(before.headers@, true)
    &&& after.is_sent
}

/// A statement that fails leaves the variables as they were before it.
pub proof fn lemma_failed_statement_keeps_scopes(env: EvEnv, sent: bool, limit: nat, scopes: Seq<Map<RdlV, RdlV>>, a: SpecAst, k: nat)
    ensures
        act(env, sent, limit, scopes, a, k).0 is Err ==> act(env, sent, limit, scopes, a, k).1 == scopes,
{
}

/// The environment of a route with plugins `plugins` when the outside
/// answers `hs`.
pub open spec fn env_with(plugins: Seq<Seq<char>>, hs: Seq<Heard>) -> EvEnv {
    EvEnv { plugins, heard: hs }
}

/// Whether an operator assigns to its left side (see `is_compound`).
fn is_compound_exec(op: &str) -> (r: bool)
    ensures
        r == is_compound(op@),
{
    str_eq(op, "+=") || str_eq(op, "-=") || str_eq(op, "*=") || str_eq(op, "/=") || str_eq(op, "^=")
}

/// A number stored as text (see `stored_text`).
fn stored_text_exec(r: Result<RDLTypes, Fault>) -> (out: Result<RDLTypes, Fault>)
    ensures
        ev_view(out) == stored_text(ev_view(r)),
{
    match r {
        Ok(RDLTypes::Number(n)) => {
            let mut t = String::new();
            crate::language::text::push_decimal_i64(&mut t, n);
            Ok(RDLTypes::String(t))
        },
        _ => r,
    }
}

/// The refusal of a value that is not a number (see `not_convertible`).
fn not_convertible_exec(v: &RDLTypes, op: &str) -> (r: Result<RDLTypes, Fault>)
    ensures
        ev_view(r) == not_convertible(v@, op@),
{
    let mut m = text("Невозможно преобразовать '");
    let t = v.to_display_string();
    m.append(t.as_str());
    m.append("' в число для ");
    if str_eq(op, "-=") {
        m.append("вычитания");
    } else if str_eq(op, "*=") {
        m.append("умножения");
    } else if str_eq(op, "/=") {
        m.append("деления");
    } else {
        m.append("возведения в степень");
    }
    Err(Fault::Error(m))
}

/// Arithmetic on two numbers, where an overflow panics.
fn checked_value(op: Opcode, x: i64, y: i64) -> (r: Result<RDLTypes, Fault>)
    requires
        op is Add || op is Sub || op is Mul || op is Div,
    ensures
        ev_view(r) == checked(op, x, y),
{
    match crate::language::vm::arith(op, x, y) {
        Ok(v) => Ok(RDLTypes::Number(v)),
        Err(m) => Err(Fault::Panic(m)),
    }
}

/// The new value of a variable under a compound operator (see
/// `compound_value`).
fn compound_value_exec(op: &str, cur: &RDLTypes, rv: &RDLTypes) -> (r: Result<RDLTypes, Fault>)
    ensures
        ev_view(r) == compound_value(op@, cur@, rv@),
{
    if str_eq(op, "+=") {
        match (cur, rv) {
            (RDLTypes::Number(x), RDLTypes::Number(y)) => stored_text_exec(checked_value(Opcode::Add, *x, *y)),
            _ => {
                let mut t = cur.to_display_string();
                let u = rv.to_display_string();
                t.append(u.as_str());
                Ok(RDLTypes::String(t))
            },
        }
    } else {
        match (cur, rv) {
            (RDLTypes::Number(x), RDLTypes::Number(y)) => {
                if str_eq(op, "-=") {
                    stored_text_exec(checked_value(Opcode::Sub, *x, *y))
                } else if str_eq(op, "*=") {
                    stored_text_exec(checked_value(Opcode::Mul, *x, *y))
                } else if str_eq(op, "/=") {
                    if *y == 0 {
                        Err(Fault::Error(text("Деление на ноль")))
                    } else {
                        stored_text_exec(checked_value(Opcode::Div, *x, *y))
                    }
                } else {
                    super::values::pow_exec(*x, *y)
                }
            },
            (RDLTypes::Number(_), _) => not_convertible_exec(rv, op),
            _ => not_convertible_exec(cur, op),
        }
    }
}

/// The result of a statement.
fn done_of(r: Result<RDLTypes, Fault>) -> (out: Result<(), Fault>)
    ensures
        done_view(out) == match ev_view(r) {
            Ok(_) => Ok::<(), FaultV>(()),
            Err(f) => Err(f),
        },
{
    match r {
        Ok(_) => Ok(()),
        Err(f) => Err(f),
    }
}

/// Everything heard after `h1` extends what was heard before, and a
/// record that extends the latest also extends the earlier one.
proof fn lemma_chain(h2: Seq<Heard>, h1: Seq<Heard>, h0: Seq<Heard>)
    requires
        extends(h2, h1),
        extends(h1, h0),
    ensures
        extends(h2, h0),
        forall|hs: Seq<Heard>| #[trigger] extends(hs, h2) ==> extends(hs, h1),
{
    lemma_extends_trans(h2, h1, h0);
    assert forall|hs: Seq<Heard>| #[trigger] extends(hs, h2) implies extends(hs, h1) by {
        lemma_extends_trans(hs, h2, h1);
    }
}

/// The view of a node.
pub open spec fn ast_view_of(n: &AstNode) -> SpecAst {
    crate::language::ast::ast_view(*n)
}

/// Evaluates an expression against the context.
fn eval_in<O: Object, G: ObjectRegistry, H: PluginFunctions>(
    context: &ExecutionContext<O>,
    plugins: &Vec<String>,
    expr: &AstNode,
    services: &mut Services<G, H>,
) -> (r: Result<RDLTypes, Fault>)
    requires
        context.wf(),
    ensures
        extends(final(services).heard(), old(services).heard()),
        forall|hs: Seq<Heard>| #[trigger] extends(hs, final(services).heard()) ==>
            ev(env_with(strings_view(plugins@), hs), context.scopes(), expr@, old(services).heard().len())
                == (ev_view(r), final(services).heard().len()),
{
    let e = Evaluator::new(context, plugins);
    e.evaluate(expr, services)
}

/// Statements that handle errors run one after another.
pub struct RouteHandler {
    pub actions: Vec<Box<AstNode>>,
    pub error_handler: Option<ErrorHandler>,
}

impl RouteHandler {
    /// A route with its statements and its own error handler, if any.
    pub fn new(actions: Vec<Box<AstNode>>, error_handler: Option<ErrorHandler>) -> (r: RouteHandler)
        ensures
            r.actions == actions,
            r.error_handler == error_handler,
    {
        RouteHandler { actions, error_handler }
    }

    /// Runs a statement (see `act`).
    #[verifier::rlimit(60)]
    #[verifier::spinoff_prover]
    fn execute_action<O: Object, G: ObjectRegistry, H: PluginFunctions>(
        &self,
        action: &AstNode,
        response: &Response,
        context: &mut ExecutionContext<O>,
        plugins: &Vec<String>,
        services: &mut Services<G, H>,
        limit: u64,
    ) -> (r: Result<(), Fault>)
        requires
            old(context).wf(),
        ensures
            final(context).wf(),
            final(context).outer() == old(context).outer(),
            extends(final(services).heard(), old(services).heard()),
            forall|hs: Seq<Heard>| #[trigger] extends(hs, final(services).heard()) ==>
                act(env_with(strings_view(plugins@), hs), response.is_sent, limit as nat, old(context).scopes(), action@,
                    old(services).heard().len()) == (done_view(r), final(context).scopes(), final(services).heard().len()),
        decreases action, 1int, 0int,
    {
        let ghost h0 = services.heard();
        let ghost s0 = context.scopes();
        proof {
            lemma_extends_refl(h0);
            context.lemma_scopes();
        }
        if response.is_sent() {
            return Ok(());
        }
        match action {
            AstNode::VarDeclaration { name, value } => {
                let v = match eval_in(context, plugins, value, services) {
                    Ok(v) => v,
                    Err(f) => {
                        return Err(f);
                    },
                };
                let key = RDLTypes::String(name.clone());
                proof {
                    context.lemma_scopes();
                }
                context.set_variable(&key, v);
                Ok(())
            },
            AstNode::FunctionCall { try_operator, unwrap_operator, .. } => {
                let r = eval_in(context, plugins, action, services);
                match r {
                    Ok(_) => Ok(()),
                    Err(Fault::Error(m)) => {
                        if !*try_operator && *unwrap_operator {
                            let mut p = text("Ошибка выполнения (unwrap !!): ");
                            p.append(m.as_str());
                            Err(Fault::Panic(p))
                        } else {
                            Err(Fault::Error(m))
                        }
                    },
                    Err(f) => Err(f),
                }
            },
            AstNode::IfStatement { condition, then_branch, else_branch } => {
                let c = match eval_in(context, plugins, condition, services) {
                    Ok(v) => v,
                    Err(f) => {
                        return Err(f);
                    },
                };
                let ghost h1 = services.heard();
                let branch: Option<&Box<AstNode>> = if c.equals(&RDLTypes::Boolean(true)) {
                    Some(then_branch)
                } else {
                    match else_branch {
                        Some(e) => Some(e),
                        None => None,
                    }
                };
                match branch {
                    None => Ok(()),
                    Some(b) => {
                        let saved = context.snapshot();
                        let r = self.run_body(b, response, context, plugins, services, limit);
                        proof {
                            lemma_chain(services.heard(), h1, h0);
                        }
                        match r {
                            Ok(()) => Ok(()),
                            Err(f) => {
                                context.restore(saved);
                                proof {
                                    context.lemma_scopes();
                                    assert(context.scopes() =~= s0);
                                }
                                Err(f)
                            },
                        }
                    },
                }
            },
            AstNode::BinaryOp { left, operator, right } => {
                if !is_compound_exec(operator.as_str()) {
                    return done_of(eval_in(context, plugins, action, services));
                }
                let var = match &**left {
                    AstNode::Identifier(v) => {
                        assert(ast_view_of(&**left) == SpecAst::Identifier(v@));
                        v
                    },
                    _ => {
                        assert(!(ast_view_of(&**left) is Identifier));
                        let mut m = text("Оператор '");
                        m.append(operator.as_str());
                        m.append("' может использоваться только с идентификатором переменной слева");
                        return Err(Fault::Error(m));
                    },
                };
                let rv = match eval_in(context, plugins, right, services) {
                    Ok(v) => v,
                    Err(f) => {
                        return Err(f);
                    },
                };
                let key = RDLTypes::String(var.clone());
                let cur = match context.get_variable(&key) {
                    Some(c) => c,
                    None => {
                        let mut m = text("Переменная '");
                        m.append(var.as_str());
                        m.append("' для '");
                        m.append(operator.as_str());
                        m.append("' не найдена");
                        return Err(Fault::Error(m));
                    },
                };
                let nv = match compound_value_exec(operator.as_str(), &cur, &rv) {
                    Ok(v) => v,
                    Err(f) => {
                        return Err(f);
                    },
                };
                proof {
                    context.lemma_scopes();
                }
                context.set_variable(&key, nv);
                Ok(())
            },
            AstNode::WhileLoop { .. } => {
                let saved = context.snapshot();
                let r = self.run_while(action, response, context, plugins, services, limit);
                match r {
                    Ok(()) => Ok(()),
                    Err(f) => {
                        context.restore(saved);
                        proof {
                            context.lemma_scopes();
                            assert(context.scopes() =~= s0);
                        }
                        Err(f)
                    },
                }
            },
            AstNode::ForLoop { iterable, .. } => {
                let v = match eval_in(context, plugins, iterable, services) {
                    Ok(v) => v,
                    Err(f) => {
                        return Err(f);
                    },
                };
                let ghost h1 = services.heard();
                let items = match loop_items_exec(&v) {
                    Ok(items) => items,
                    Err(f) => {
                        return Err(f);
                    },
                };
                let saved = context.snapshot();
                let r = self.run_for(action, &items, response, context, plugins, services, limit);
                proof {
                    lemma_chain(services.heard(), h1, h0);
                }
                match r {
                    Ok(()) => Ok(()),
                    Err(f) => {
                        context.restore(saved);
                        proof {
                            context.lemma_scopes();
                            assert(context.scopes() =~= s0);
                        }
                        Err(f)
                    },
                }
            },
            _ => done_of(eval_in(context, plugins, action, services)),
        }
    }
}

impl RouteHandler {
    /// Runs the body of a branch or a loop (see `run_body`).
    #[verifier::rlimit(30)]
    fn run_body<O: Object, G: ObjectRegistry, H: PluginFunctions>(
        &self,
        body: &AstNode,
        response: &Response,
        context: &mut ExecutionContext<O>,
        plugins: &Vec<String>,
        services: &mut Services<G, H>,
        limit: u64,
    ) -> (r: Result<(), Fault>)
        requires
            old(context).wf(),
            !response.is_sent,
        ensures
            final(context).wf(),
            final(context).outer() == old(context).outer(),
            extends(final(services).heard(), old(services).heard()),
            forall|hs: Seq<Heard>| #[trigger] extends(hs, final(services).heard()) ==>
                run_body(env_with(strings_view(plugins@), hs), false, limit as nat, old(context).scopes(), body@,
                    old(services).heard().len()) == (done_view(r), final(context).scopes(), final(services).heard().len()),
        decreases body, 2int, 0int,
    {
        match body {
            AstNode::Block(stmts) => {
                proof {
                    lemma_list_view(*stmts);
                    assert(asts_view(stmts@).subrange(0, stmts@.len() as int) =~= asts_view(stmts@));
                }
                self.run_list(stmts, 0, response, context, plugins, services, limit)
            },
            _ => self.execute_action(body, response, context, plugins, services, limit),
        }
    }

    /// Runs `stmts[i..]` in order, up to the first that fails (see
    /// `run_list`).
    #[verifier::rlimit(30)]
    fn run_list<O: Object, G: ObjectRegistry, H: PluginFunctions>(
        &self,
        stmts: &Vec<Box<AstNode>>,
        i: usize,
        response: &Response,
        context: &mut ExecutionContext<O>,
        plugins: &Vec<String>,
        services: &mut Services<G, H>,
        limit: u64,
    ) -> (r: Result<(), Fault>)
        requires
            old(context).wf(),
            !response.is_sent,
            i <= stmts@.len(),
        ensures
            final(context).wf(),
            final(context).outer() == old(context).outer(),
            extends(final(services).heard(), old(services).heard()),
            forall|hs: Seq<Heard>| #[trigger] extends(hs, final(services).heard()) ==>
                run_list(env_with(strings_view(plugins@), hs), false, limit as nat, old(context).scopes(),
                    asts_view(stmts@).subrange(i as int, stmts@.len() as int), old(services).heard().len())
                    == (done_view(r), final(context).scopes(), final(services).heard().len()),
        decreases stmts, 0int, stmts@.len() - i,
    {
        let ghost h0 = services.heard();
        let ghost view = asts_view(stmts@);
        let ghost sub = view.subrange(i as int, stmts@.len() as int);
        proof {
            lemma_extends_refl(h0);
        }
        if i >= stmts.len() {
            return Ok(());
        }
        if response.is_sent() {
            return Ok(());
        }
        proof {
            assert(decreases_to!(*stmts => stmts@));
            assert(decreases_to!(stmts@ => stmts@[i as int]));
            assert(sub[0] == view[i as int]);
            assert(sub.subrange(1, sub.len() as int) =~= view.subrange(i + 1, stmts@.len() as int));
        }
        let r = self.execute_action(&stmts[i], response, context, plugins, services, limit);
        match r {
            Err(f) => Err(f),
            Ok(()) => {
                let ghost h1 = services.heard();
                let r2 = self.run_list(stmts, i + 1, response, context, plugins, services, limit);
                proof {
                    lemma_chain(services.heard(), h1, h0);
                }
                r2
            },
        }
    }

    /// Runs a `while` loop (see `run_while`).
    #[verifier::rlimit(60)]
    fn run_while<O: Object, G: ObjectRegistry, H: PluginFunctions>(
        &self,
        w: &AstNode,
        response: &Response,
        context: &mut ExecutionContext<O>,
        plugins: &Vec<String>,
        services: &mut Services<G, H>,
        limit: u64,
    ) -> (r: Result<(), Fault>)
        requires
            old(context).wf(),
            !response.is_sent,
            w is WhileLoop,
        ensures
            final(context).wf(),
            final(context).outer() == old(context).outer(),
            extends(final(services).heard(), old(services).heard()),
            forall|hs: Seq<Heard>| #[trigger] extends(hs, final(services).heard()) ==>
                run_while(env_with(strings_view(plugins@), hs), false, limit as nat, old(context).scopes(), w@,
                    limit as nat, old(services).heard().len()) == (done_view(r), final(context).scopes(), final(services).heard().len()),
        decreases w, 0int, 0int,
    {
        let ghost h0 = services.heard();
        let ghost s0 = context.scopes();
        let ghost outer0 = context.outer();
        let ghost pv = strings_view(plugins@);
        proof {
            lemma_extends_refl(h0);
        }
        match w {
            AstNode::WhileLoop { condition, body } => {
                let mut rounds: u64 = limit;
                loop
                    invariant
                        context.wf(),
                        context.outer() == outer0,
                        !response.is_sent,
                        pv == strings_view(plugins@),
                        *w == (AstNode::WhileLoop { condition: *condition, body: *body }),
                        h0 == old(services).heard(),
                        s0 == old(context).scopes(),
                        outer0 == old(context).outer(),
                        extends(services.heard(), h0),
                        forall|hs: Seq<Heard>| #[trigger] extends(hs, services.heard()) ==>
                            run_while(env_with(pv, hs), false, limit as nat, s0, w@, limit as nat, h0.len())
                                == run_while(env_with(pv, hs), false, limit as nat, context.scopes(), w@, rounds as nat,
                                    services.heard().len()),
                    decreases rounds,
                {
                    let ghost h1 = services.heard();
                    let ghost s1 = context.scopes();
                    proof {
                        assert(decreases_to!(*w => w->WhileLoop_body));
                    }
                    let c = match eval_in(context, plugins, condition, services) {
                        Ok(v) => v,
                        Err(f) => {
                            proof {
                                lemma_chain(services.heard(), h1, h0);
                            }
                            return Err(f);
                        },
                    };
                    let ghost h2 = services.heard();
                    if !c.equals(&RDLTypes::Boolean(true)) {
                        proof {
                            lemma_chain(services.heard(), h1, h0);
                        }
                        return Ok(());
                    }
                    if rounds == 0 {
                        proof {
                            lemma_chain(services.heard(), h1, h0);
                        }
                        return Err(Fault::LoopLimit);
                    }
                    let r = self.run_body(body, response, context, plugins, services, limit);
                    proof {
                        lemma_chain(services.heard(), h2, h1);
                        lemma_chain(services.heard(), h1, h0);
                    }
                    match r {
                        Err(f) => {
                            return Err(f);
                        },
                        Ok(()) => {},
                    }
                    rounds = rounds - 1;
                }
            },
            _ => Ok(()),
        }
    }

    /// Runs a `for` loop over `items` (see `run_for`).
    #[verifier::rlimit(60)]
    fn run_for<O: Object, G: ObjectRegistry, H: PluginFunctions>(
        &self,
        f: &AstNode,
        items: &Vec<RDLTypes>,
        response: &Response,
        context: &mut ExecutionContext<O>,
        plugins: &Vec<String>,
        services: &mut Services<G, H>,
        limit: u64,
    ) -> (r: Result<(), Fault>)
        requires
            old(context).wf(),
            !response.is_sent,
            f is ForLoop,
        ensures
            final(context).wf(),
            final(context).outer() == old(context).outer(),
            extends(final(services).heard(), old(services).heard()),
            forall|hs: Seq<Heard>| #[trigger] extends(hs, final(services).heard()) ==>
                run_for(env_with(strings_view(plugins@), hs), false, limit as nat, old(context).scopes(), f@,
                    crate::language::vm::rdls_view(items@), old(services).heard().len())
                    == (done_view(r), final(context).scopes(), final(services).heard().len()),
        decreases f, 0int, 0int,
    {
        let ghost h0 = services.heard();
        let ghost s0 = context.scopes();
        let ghost outer0 = context.outer();
        let ghost pv = strings_view(plugins@);
        let ghost all = crate::language::vm::rdls_view(items@);
        proof {
            lemma_extends_refl(h0);
        }
        match f {
            AstNode::ForLoop { var_name, iterable, body } => {
                let n = items.len();
                let mut i: usize = 0;
                proof {
                    assert(all.subrange(0, n as int) =~= all);
                }
                while i < n
                    invariant
                        i <= n,
                        n == items@.len(),
                        all == crate::language::vm::rdls_view(items@),
                        context.wf(),
                        context.outer() == outer0,
                        !response.is_sent,
                        pv == strings_view(plugins@),
                        *f == (AstNode::ForLoop { var_name: *var_name, iterable: *iterable, body: *body }),
                        h0 == old(services).heard(),
                        s0 == old(context).scopes(),
                        outer0 == old(context).outer(),
                        extends(services.heard(), h0),
                        forall|hs: Seq<Heard>| #[trigger] extends(hs, services.heard()) ==>
                            run_for(env_with(pv, hs), false, limit as nat, s0, f@, all, h0.len())
                                == run_for(env_with(pv, hs), false, limit as nat, context.scopes(), f@,
                                    all.subrange(i as int, n as int), services.heard().len()),
                    decreases n - i,
                {
                    let ghost h1 = services.heard();
                    let ghost s1 = context.scopes();
                    let ghost rest = all.subrange(i as int, n as int);
                    proof {
                        assert(decreases_to!(*f => f->ForLoop_body));
                        assert(rest[0] == items@[i as int]@);
                        assert(rest.subrange(1, rest.len() as int) =~= all.subrange(i + 1, n as int));
                        context.lemma_scopes();
                    }
                    let key = RDLTypes::String(var_name.clone());
                    context.set_variable(&key, items[i].duplicate());
                    let r = self.run_body(body, response, context, plugins, services, limit);
                    proof {
                        lemma_chain(services.heard(), h1, h0);
                    }
                    match r {
                        Err(e) => {
                            return Err(e);
                        },
                        Ok(()) => {},
                    }
                    i = i + 1;
                }
                Ok(())
            },
            _ => Ok(()),
        }
    }
}

impl RouteHandler {
    /// Runs `acts[i..]` of the route (see `main_run`).
    #[verifier::rlimit(30)]
    fn run_actions<O: Object, G: ObjectRegistry, H: PluginFunctions>(
        &self,
        i: usize,
        response: &Response,
        context: &mut ExecutionContext<O>,
        plugins: &Vec<String>,
        services: &mut Services<G, H>,
        limit: u64,
    ) -> (r: Result<(), Fault>)
        requires
            old(context).wf(),
            i <= self.actions@.len(),
        ensures
            final(context).wf(),
            final(context).outer() == old(context).outer(),
            extends(final(services).heard(), old(services).heard()),
            forall|hs: Seq<Heard>| #[trigger] extends(hs, final(services).heard()) ==>
                main_run(env_with(strings_view(plugins@), hs), response.is_sent, limit as nat, old(context).scopes(),
                    asts_view(self.actions@).subrange(i as int, self.actions@.len() as int), old(services).heard().len())
                    == (done_view(r), final(context).scopes(), final(services).heard().len()),
        decreases self.actions@.len() - i,
    {
        let ghost h0 = services.heard();
        let ghost view = asts_view(self.actions@);
        let ghost sub = view.subrange(i as int, self.actions@.len() as int);
        proof {
            lemma_extends_refl(h0);
        }
        if i >= self.actions.len() {
            return Ok(());
        }
        proof {
            assert(sub[0] == view[i as int]);
            assert(sub.subrange(1, sub.len() as int) =~= view.subrange(i + 1, self.actions@.len() as int));
        }
        let r = self.execute_action(&self.actions[i], response, context, plugins, services, limit);
        match r {
            Err(f) => Err(f),
            Ok(()) => {
                if response.is_sent() {
                    return Ok(());
                }
                let ghost h1 = services.heard();
                let r2 = self.run_actions(i + 1, response, context, plugins, services, limit);
                proof {
                    lemma_chain(services.heard(), h1, h0);
                }
                r2
            },
        }
    }

    /// Runs `acts[i..]` of an error handler (see `handler_run`).
    #[verifier::rlimit(30)]
    fn run_handler<O: Object, G: ObjectRegistry, H: PluginFunctions>(
        &self,
        acts: &Vec<Box<AstNode>>,
        i: usize,
        response: &Response,
        context: &mut ExecutionContext<O>,
        plugins: &Vec<String>,
        services: &mut Services<G, H>,
        limit: u64,
    ) -> (r: Result<(), Fault>)
        requires
            old(context).wf(),
            i <= acts@.len(),
        ensures
            final(context).wf(),
            extends(final(services).heard(), old(services).heard()),
            forall|hs: Seq<Heard>| #[trigger] extends(hs, final(services).heard()) ==>
                handler_run(env_with(strings_view(plugins@), hs), response.is_sent, limit as nat, old(context).scopes(),
                    asts_view(acts@).subrange(i as int, acts@.len() as int), old(services).heard().len())
                    == (done_view(r), final(services).heard().len()),
        decreases acts@.len() - i,
    {
        let ghost h0 = services.heard();
        let ghost view = asts_view(acts@);
        let ghost sub = view.subrange(i as int, acts@.len() as int);
        proof {
            lemma_extends_refl(h0);
        }
        if i >= acts.len() {
            return Ok(());
        }
        proof {
            assert(sub[0] == view[i as int]);
            assert(sub.subrange(1, sub.len() as int) =~= view.subrange(i + 1, acts@.len() as int));
        }
        let r = self.execute_action(&acts[i], response, context, plugins, services, limit);
        match r {
            Ok(()) | Err(Fault::Error(_)) => {
                if response.is_sent() {
                    return Ok(());
                }
                let ghost h1 = services.heard();
                let r2 = self.run_handler(acts, i + 1, response, context, plugins, services, limit);
                proof {
                    lemma_chain(services.heard(), h1, h0);
                }
                r2
            },
            Err(f) => Err(f),
        }
    }

    /// Runs error handler `h` with the error's message `m` bound to its
    /// name (see `handled`).
    fn run_error_handler<O: Object, G: ObjectRegistry, H: PluginFunctions>(
        &self,
        h: &ErrorHandler,
        m: String,
        response: &Response,
        context: &mut ExecutionContext<O>,
        plugins: &Vec<String>,
        services: &mut Services<G, H>,
        limit: u64,
    ) -> (r: Option<Fault>)
        requires
            old(context).wf(),
        ensures
            extends(final(services).heard(), old(services).heard()),
            forall|hs: Seq<Heard>| #[trigger] extends(hs, final(services).heard()) ==>
                handled(env_with(strings_view(plugins@), hs), response.is_sent, limit as nat, old(context).scopes(),
                    (h.error_var@, asts_view(h.actions@)), m@, old(services).heard().len())
                    == (match r {
                        Some(f) => Err(fault_view(f)),
                        None => Ok(None::<Seq<char>>),
                    }, final(services).heard().len()),
    {
        proof {
            context.lemma_scopes();
        }
        let key = RDLTypes::String(h.error_var.clone());
        context.set_variable(&key, RDLTypes::String(m));
        proof {
            assert(asts_view(h.actions@).subrange(0, h.actions@.len() as int) =~= asts_view(h.actions@));
        }
        match self.run_handler(&h.actions, 0, response, context, plugins, services, limit) {
            Ok(()) => None,
            Err(f) => Some(f),
        }
    }

    /// Runs the route's statements from fresh variables (see `route_run`):
    /// an error goes to the route's handler, else to the global one, else
    /// a 500 answer with the error's message goes out unless the response
    /// was sent. What the registry and the plugins answer is recorded in
    /// `services`; whatever they go on to answer, the outcome is the one
    /// `route_run` gives. The result is the fault that ended the route, if
    /// any: a panic, an endless computation, or a `while` loop still
    /// running after `loop_limit` rounds.
    #[verifier::rlimit(40)]
    pub fn execute<O: Object, G: ObjectRegistry, H: PluginFunctions>(
        &self,
        request: &mut Request,
        response: &mut Response,
        plugins: &Vec<String>,
        services: &mut Services<G, H>,
        global_error_handler: Option<&ErrorHandler>,
        loop_limit: u64,
    ) -> (r: Option<Fault>)
        requires
            old(response).headers.wf(),
        ensures
            *final(request) == *old(request),
            extends(final(services).heard(), old(services).heard()),
            forall|hs: Seq<Heard>| #[trigger] extends(hs, final(services).heard()) ==> {
                let (out, k) = route_run(env_with(strings_view(plugins@), hs), old(response).is_sent, loop_limit as nat,
                    asts_view(self.actions@), handler_of(self.error_handler), handler_view(global_error_handler),
                    old(services).heard().len());
                &&& k == final(services).heard().len()
                &&& match out {
                    Ok(None) => r is None && *final(response) == *old(response),
                    Ok(Some(m)) => r is None && failed_response(*old(response), *final(response), m),
                    Err(f) => r matches Some(g) && fault_view(g) == f,
                }
            },
    {
        let ghost h0 = services.heard();
        let mut context: ExecutionContext<O> = ExecutionContext::new();
        proof {
            assert(asts_view(self.actions@).subrange(0, self.actions@.len() as int) =~= asts_view(self.actions@));
        }
        let main = self.run_actions(0, response, &mut context, plugins, services, loop_limit);
        let ghost h1 = services.heard();
        match main {
            Ok(()) => None,
            Err(Fault::Error(m)) => {
                match &self.error_handler {
                    Some(h) => {
                        let r = self.run_error_handler(h, m, response, &mut context, plugins, services, loop_limit);
                        proof {
                            lemma_chain(services.heard(), h1, h0);
                        }
                        r
                    },
                    None => match global_error_handler {
                        Some(g) => {
                            let r = self.run_error_handler(g, m, response, &mut context, plugins, services, loop_limit);
                            proof {
                                lemma_chain(services.heard(), h1, h0);
                            }
                            r
                        },
                        None => {
                            if !response.is_sent() {
                                let mut body = text("Internal Server Error: ");
                                body.append(m.as_str());
                                response.status(500);
                                response.body(body);
                                response.send();
                            }
                            None
                        },
                    },
                }
            },
            Err(f) => Some(f),
        }
    }
}

} // verus!
