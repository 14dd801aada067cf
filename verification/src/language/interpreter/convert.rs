use vstd::prelude::*;
use crate::language::ast::{AstNode, SpecAst, ast_view, asts_view, lemma_list_view, node_debug, node_debug_text};
use crate::language::text::text;
use super::{RouteAction, SpecAction, actions_view, action_view, plain_actions_view, lemma_action_lists};

verus! {

/// The message for a node that is not an expression.
pub open spec fn refusal(n: SpecAst) -> Seq<char> {
    let kind = match n {
        SpecAst::Route { .. } => "Route"@,
        SpecAst::TlsConfig { .. } => "TlsConfig"@,
        SpecAst::ServerConfig { .. } => "ServerConfig"@,
        SpecAst::GlobalErrorHandler { .. } => "GlobalErrorHandler"@,
        SpecAst::ErrorHandlerBlock { .. } => "ErrorHandlerBlock"@,
        SpecAst::ConfigBlock { .. } => "ConfigBlock"@,
        SpecAst::Import { .. } => "Import"@,
        SpecAst::Program(_) => "Program"@,
        SpecAst::VarDeclaration { .. } => "VarDeclaration"@,
        SpecAst::IfStatement { .. } => "IfStatement"@,
        SpecAst::ArrayLiteral(_) => "ArrayLiteral"@,
        SpecAst::ArrayAccess { .. } => "ArrayAccess"@,
        SpecAst::ForLoop { .. } => "ForLoop"@,
        SpecAst::WhileLoop { .. } => "WhileLoop"@,
        _ => "Block"@,
    };
    match n {
        SpecAst::Block(_) => "Узел Block не может быть напрямую преобразован в выражение RouteAction"@,
        _ => "Узел "@ + kind + " не может быть преобразован в выражение RouteAction"@,
    }
}

/// The name an object of a call must be: an identifier.
pub open spec fn object_name(o: SpecAst) -> Result<Seq<char>, Seq<char>> {
    match o {
        SpecAst::Identifier(x) => Ok(x),
        _ => Err("Ожидается идентификатор, получено: "@ + node_debug_text(o)),
    }
}

/// An expression node as an action: literals, names, calls (whose object
/// must be a name), binary operations and property accesses.
pub open spec fn conv_expr(n: SpecAst) -> Result<SpecAction, Seq<char>>
    decreases n,
{
    match n {
        SpecAst::StringLiteral(s) => Ok(SpecAction::StringLiteral(s)),
        SpecAst::NumberLiteral(v) => Ok(SpecAction::NumberLiteral(v)),
        SpecAst::Identifier(s) => Ok(SpecAction::Identifier(s)),
        SpecAst::FunctionCall { object, name, args, try_operator, unwrap_operator } => {
            let obj = match object {
                Some(o) => match object_name(*o) {
                    Ok(x) => Ok(Some(x)),
                    Err(m) => Err(m),
                },
                None => Ok(None),
            };
            match obj {
                Err(m) => Err(m),
                Ok(ob) => match conv_list(args) {
                    Err(m) => Err(m),
                    Ok(a) => Ok(SpecAction::FunctionCall { object: ob, name, args: a, try_operator, unwrap_operator }),
                },
            }
        },
        SpecAst::BinaryOp { left, operator, right } => match conv_expr(*left) {
            Err(m) => Err(m),
            Ok(l) => match conv_expr(*right) {
                Err(m) => Err(m),
                Ok(r) => Ok(SpecAction::BinaryOp { left: Box::new(l), operator, right: Box::new(r) }),
            },
        },
        SpecAst::PropertyAccess { object, property } => match conv_expr(*object) {
            Err(m) => Err(m),
            Ok(o) => Ok(SpecAction::PropertyAccess { object: Box::new(o), property }),
        },
        _ => Err(refusal(n)),
    }
}

/// A list of expression nodes as actions; the first error stops it.
pub open spec fn conv_list(v: Seq<SpecAst>) -> Result<Seq<SpecAction>, Seq<char>>
    decreases v,
{
    if v.len() == 0 {
        Ok(Seq::empty())
    } else {
        match conv_list(v.subrange(0, v.len() - 1)) {
            Err(m) => Err(m),
            Ok(p) => match conv_expr(v[v.len() - 1]) {
                Err(m) => Err(m),
                Ok(x) => Ok(p.push(x)),
            },
        }
    }
}

/// A statement node as an action: declarations and `if` statements have
/// actions of their own, anything else is read as an expression.
pub open spec fn conv_stmt(n: SpecAst) -> Result<SpecAction, Seq<char>>
    decreases n, 0int,
{
    match n {
        SpecAst::VarDeclaration { name, value } => match conv_expr(*value) {
            Err(m) => Err(m),
            Ok(v) => Ok(SpecAction::VarDeclaration(name, Box::new(v))),
        },
        SpecAst::IfStatement { condition, then_branch, else_branch } => match conv_expr(*condition) {
            Err(m) => Err(m),
            Ok(c) => match conv_block(*then_branch) {
                Err(m) => Err(m),
                Ok(t) => match else_branch {
                    Some(e) => match conv_block(*e) {
                        Err(m) => Err(m),
                        Ok(el) => Ok(SpecAction::Condition { check: Box::new(c), then_branch: t, else_branch: Some(el) }),
                    },
                    None => Ok(SpecAction::Condition { check: Box::new(c), then_branch: t, else_branch: None }),
                },
            },
        },
        _ => conv_expr(n),
    }
}

/// A body as a list of actions: a block gives one action per statement,
/// any other node a single action.
pub open spec fn conv_block(n: SpecAst) -> Result<Seq<SpecAction>, Seq<char>>
    decreases n, 1int,
{
    match n {
        SpecAst::Block(v) => conv_stmts(v),
        _ => match conv_stmt(n) {
            Err(m) => Err(m),
            Ok(a) => Ok(seq![a]),
        },
    }
}

/// A list of statement nodes as actions; the first error stops it.
pub open spec fn conv_stmts(v: Seq<SpecAst>) -> Result<Seq<SpecAction>, Seq<char>>
    decreases v, 0int,
{
    if v.len() == 0 {
        Ok(Seq::empty())
    } else {
        match conv_stmts(v.subrange(0, v.len() - 1)) {
            Err(m) => Err(m),
            Ok(p) => match conv_stmt(v[v.len() - 1]) {
                Err(m) => Err(m),
                Ok(x) => Ok(p.push(x)),
            },
        }
    }
}

/// The message for a node that is not an expression (see `refusal`).
fn refusal_text(n: &AstNode) -> (r: String)
    ensures
        r@ == refusal(n@),
{
    let kind = match n {
        AstNode::Route { .. } => "Route",
        AstNode::TlsConfig { .. } => "TlsConfig",
        AstNode::ServerConfig { .. } => "ServerConfig",
        AstNode::GlobalErrorHandler { .. } => "GlobalErrorHandler",
        AstNode::ErrorHandlerBlock { .. } => "ErrorHandlerBlock",
        AstNode::ConfigBlock { .. } => "ConfigBlock",
        AstNode::Import { .. } => "Import",
        AstNode::Program(_) => "Program",
        AstNode::VarDeclaration { .. } => "VarDeclaration",
        AstNode::IfStatement { .. } => "IfStatement",
        AstNode::ArrayLiteral(_) => "ArrayLiteral",
        AstNode::ArrayAccess { .. } => "ArrayAccess",
        AstNode::ForLoop { .. } => "ForLoop",
        AstNode::WhileLoop { .. } => "WhileLoop",
        _ => "Block",
    };
    match n {
        AstNode::Block(_) => text("Узел Block не может быть напрямую преобразован в выражение RouteAction"),
        _ => {
            let mut m = text("Узел ");
            m.append(kind);
            m.append(" не может быть преобразован в выражение RouteAction");
            m
        },
    }
}

/// The views of converted lists, boxed or not.
proof fn lemma_boxed_view(v: Seq<Box<RouteAction>>, w: Seq<RouteAction>)
    requires
        v.len() == w.len(),
        forall|i: int| 0 <= i < v.len() ==> *v[i] == w[i],
    ensures
        actions_view(v) == plain_actions_view(w),
{
    assert(actions_view(v) =~= plain_actions_view(w));
}

/// An expression node as an action (see `conv_expr`).
pub fn convert_expression(n: &AstNode) -> (r: Result<RouteAction, String>)
    ensures
        match conv_expr(n@) {
            Ok(a) => r matches Ok(x) && x@ == a,
            Err(m) => r matches Err(e) && e@ == m,
        },
    decreases n,
{
    match n {
        AstNode::StringLiteral(s) => Ok(RouteAction::StringLiteral(s.clone())),
        AstNode::NumberLiteral(v) => Ok(RouteAction::NumberLiteral(*v)),
        AstNode::Identifier(s) => Ok(RouteAction::Identifier(s.clone())),
        AstNode::FunctionCall { object, name, args, try_operator, unwrap_operator } => {
            let obj = match object_of(object) {
                Ok(o) => o,
                Err(e) => return Err(e),
            };
            proof {
                assert(n@->FunctionCall_args =~= asts_view(args@));
            }
            let a = match convert_list(n, args) {
                Ok(a) => a,
                Err(e) => return Err(e),
            };
            let r = RouteAction::FunctionCall {
                object: obj,
                name: name.clone(),
                args: a,
                try_operator: *try_operator,
                unwrap_operator: *unwrap_operator,
            };
            proof {
                lemma_action_lists(r);
            }
            Ok(r)
        },
        AstNode::BinaryOp { left, operator, right } => {
            let l = match convert_expression(&**left) {
                Ok(x) => x,
                Err(e) => return Err(e),
            };
            let r = match convert_expression(&**right) {
                Ok(x) => x,
                Err(e) => return Err(e),
            };
            Ok(RouteAction::BinaryOp { left: Box::new(l), operator: operator.clone(), right: Box::new(r) })
        },
        AstNode::PropertyAccess { object, property } => {
            let o = match convert_expression(&**object) {
                Ok(x) => x,
                Err(e) => return Err(e),
            };
            Ok(RouteAction::PropertyAccess { object: Box::new(o), property: property.clone() })
        },
        _ => Err(refusal_text(n)),
    }
}

/// The name of a call's object, if it has one (see `object_name`).
fn object_of(object: &Option<Box<AstNode>>) -> (r: Result<Option<String>, String>)
    ensures
        match *object {
            Some(o) => match object_name(ast_view(*o)) {
                Ok(x) => r matches Ok(Some(v)) && v@ == x,
                Err(m) => r matches Err(e) && e@ == m,
            },
            None => r matches Ok(None),
        },
{
    match object {
        Some(o) => match &**o {
            AstNode::Identifier(x) => Ok(Some(x.clone())),
            other => {
                let mut m = text("Ожидается идентификатор, получено: ");
                let d = node_debug(other);
                m.append(d.as_str());
                Err(m)
            },
        },
        None => Ok(None),
    }
}

/// The arguments `args` of the call node `n` as actions (see `conv_list`).
fn convert_list(n: &AstNode, args: &Vec<Box<AstNode>>) -> (r: Result<Vec<Box<RouteAction>>, String>)
    requires
        n matches AstNode::FunctionCall { args: a, .. } && a == *args,
    ensures
        match conv_list(asts_view(args@)) {
            Ok(xs) => r matches Ok(v) && actions_view(v@) == xs,
            Err(m) => r matches Err(e) && e@ == m,
        },
    decreases n, 0int,
{
    let ghost vs = asts_view(args@);
    let mut out: Vec<Box<RouteAction>> = Vec::new();
    let mut i: usize = 0;
    assert(vs.subrange(0, 0) =~= Seq::<SpecAst>::empty());
    assert(actions_view(out@) =~= Seq::<SpecAction>::empty());
    while i < args.len()
        invariant
            i <= args@.len(),
            vs == asts_view(args@),
            n matches AstNode::FunctionCall { args: a, .. } && a == *args,
            conv_list(vs.subrange(0, i as int)) == Ok::<Seq<SpecAction>, Seq<char>>(actions_view(out@)),
        decreases args.len() - i,
    {
        proof {
            assert(decreases_to!(*n => n->FunctionCall_args));
            assert(decreases_to!(n->FunctionCall_args => n->FunctionCall_args@));
            assert(decreases_to!(n->FunctionCall_args@ => n->FunctionCall_args@[i as int]));
            let next = vs.subrange(0, i + 1);
            assert(next.subrange(0, i as int) =~= vs.subrange(0, i as int));
        }
        let x = match convert_expression(&*args[i]) {
            Ok(x) => x,
            Err(e) => {
                proof {
                    let k = i as int;
                    let next = vs.subrange(0, k + 1);
                    assert(next[next.len() - 1] == vs[k]);
                    assert(conv_list(next) is Err);
                    lemma_conv_list_err_prefix(vs, k + 1);
                }
                return Err(e);
            },
        };
        let ghost before = actions_view(out@);
        out.push(Box::new(x));
        proof {
            assert(actions_view(out@) =~= before.push(x@));
        }
        i = i + 1;
    }
    assert(vs.subrange(0, args@.len() as int) =~= vs);
    Ok(out)
}

/// An error on a prefix of a list is the error of the whole list.
proof fn lemma_conv_list_err_prefix(v: Seq<SpecAst>, k: int)
    requires
        0 <= k <= v.len(),
        conv_list(v.subrange(0, k)) is Err,
    ensures
        conv_list(v) == conv_list(v.subrange(0, k)),
    decreases v.len() - k,
{
    if k < v.len() {
        let next = v.subrange(0, k + 1);
        assert(next.subrange(0, k) =~= v.subrange(0, k));
        lemma_conv_list_err_prefix(v, k + 1);
    } else {
        assert(v.subrange(0, k) =~= v);
    }
}

/// An error on a prefix of a statement list is the error of the whole list.
proof fn lemma_conv_stmts_err_prefix(v: Seq<SpecAst>, k: int)
    requires
        0 <= k <= v.len(),
        conv_stmts(v.subrange(0, k)) is Err,
    ensures
        conv_stmts(v) == conv_stmts(v.subrange(0, k)),
    decreases v.len() - k,
{
    if k < v.len() {
        let next = v.subrange(0, k + 1);
        assert(next.subrange(0, k) =~= v.subrange(0, k));
        lemma_conv_stmts_err_prefix(v, k + 1);
    } else {
        assert(v.subrange(0, k) =~= v);
    }
}

/// Boxes each action of a list.
fn box_all(v: Vec<RouteAction>) -> (r: Vec<Box<RouteAction>>)
    ensures
        actions_view(r@) == plain_actions_view(v@),
{
    let ghost target = plain_actions_view(v@);
    let mut v = v;
    let mut rev: Vec<Box<RouteAction>> = Vec::new();
    while v.len() > 0
        invariant
            target.len() == v@.len() + rev@.len(),
            plain_actions_view(v@) == target.subrange(0, v@.len() as int),
            forall|i: int| 0 <= i < rev@.len() ==> action_view(*rev@[i]) == target[target.len() - 1 - i],
        decreases v.len(),
    {
        let ghost pv = plain_actions_view(v@);
        let x = v.pop().unwrap();
        proof {
            assert(plain_actions_view(v@) =~= pv.drop_last());
            assert(pv[pv.len() - 1] == action_view(x));
        }
        rev.push(Box::new(x));
    }
    let mut out: Vec<Box<RouteAction>> = Vec::new();
    while rev.len() > 0
        invariant
            target.len() == out@.len() + rev@.len(),
            forall|i: int| 0 <= i < rev@.len() ==> action_view(*rev@[i]) == target[target.len() - 1 - i],
            actions_view(out@) == target.subrange(0, out@.len() as int),
        decreases rev.len(),
    {
        let ghost before = out@;
        let x = rev.pop().unwrap();
        out.push(x);
        proof {
            assert(actions_view(out@) =~= target.subrange(0, out@.len() as int));
        }
    }
    assert(target.subrange(0, out@.len() as int) =~= target);
    out
}

/// A statement node as an action (see `conv_stmt`).
pub fn convert_statement(n: &AstNode) -> (r: Result<RouteAction, String>)
    ensures
        match conv_stmt(n@) {
            Ok(a) => r matches Ok(x) && x@ == a,
            Err(m) => r matches Err(e) && e@ == m,
        },
    decreases n, 0int,
{
    match n {
        AstNode::VarDeclaration { name, value } => {
            let v = match convert_expression(&**value) {
                Ok(v) => v,
                Err(e) => return Err(e),
            };
            Ok(RouteAction::VarDeclaration(name.clone(), Box::new(v)))
        },
        AstNode::IfStatement { condition, then_branch, else_branch } => {
            let c = match convert_expression(&**condition) {
                Ok(v) => v,
                Err(e) => return Err(e),
            };
            let t = match convert_block(&**then_branch) {
                Ok(v) => v,
                Err(e) => return Err(e),
            };
            let tb = box_all(t);
            let eb = match else_branch {
                Some(e) => match convert_block(&**e) {
                    Ok(v) => Some(box_all(v)),
                    Err(err) => return Err(err),
                },
                None => None,
            };
            let r = RouteAction::Condition { check: Box::new(c), then_branch: tb, else_branch: eb };
            proof {
                lemma_action_lists(r);
            }
            Ok(r)
        },
        _ => convert_expression(n),
    }
}

/// A body as a list of actions (see `conv_block`).
pub fn convert_block(n: &AstNode) -> (r: Result<Vec<RouteAction>, String>)
    ensures
        match conv_block(n@) {
            Ok(a) => r matches Ok(x) && plain_actions_view(x@) == a,
            Err(m) => r matches Err(e) && e@ == m,
        },
    decreases n, 1int,
{
    match n {
        AstNode::Block(stmts) => {
            proof {
                lemma_list_view(*stmts);
            }
            let ghost vs = asts_view(stmts@);
            let mut out: Vec<RouteAction> = Vec::new();
            let mut i: usize = 0;
            assert(vs.subrange(0, 0) =~= Seq::<SpecAst>::empty());
            assert(plain_actions_view(out@) =~= Seq::<SpecAction>::empty());
            while i < stmts.len()
                invariant
                    i <= stmts@.len(),
                    vs == asts_view(stmts@),
                    *n == AstNode::Block(*stmts),
                    conv_stmts(vs.subrange(0, i as int)) == Ok::<Seq<SpecAction>, Seq<char>>(plain_actions_view(out@)),
                decreases stmts.len() - i,
            {
                proof {
                    assert(decreases_to!(*n => n->Block_0));
                    assert(decreases_to!(n->Block_0 => n->Block_0@));
                    assert(decreases_to!(n->Block_0@ => n->Block_0@[i as int]));
                    let next = vs.subrange(0, i + 1);
                    assert(next.subrange(0, i as int) =~= vs.subrange(0, i as int));
                }
                let x = match convert_statement(&*stmts[i]) {
                    Ok(x) => x,
                    Err(e) => {
                        proof {
                            let k = i as int;
                            let next = vs.subrange(0, k + 1);
                            assert(next[next.len() - 1] == vs[k]);
                            assert(conv_stmts(next) is Err);
                            lemma_conv_stmts_err_prefix(vs, k + 1);
                            lemma_list_view(*stmts);
                        }
                        return Err(e);
                    },
                };
                let ghost before = plain_actions_view(out@);
                out.push(x);
                proof {
                    assert(plain_actions_view(out@) =~= before.push(x@));
                }
                i = i + 1;
            }
            assert(vs.subrange(0, stmts@.len() as int) =~= vs);
            Ok(out)
        },
        _ => {
            let x = match convert_statement(n) {
                Ok(x) => x,
                Err(e) => return Err(e),
            };
            let mut out: Vec<RouteAction> = Vec::new();
            out.push(x);
            assert(plain_actions_view(out@) =~= seq![x@]);
            Ok(out)
        },
    }
}

} // verus!
