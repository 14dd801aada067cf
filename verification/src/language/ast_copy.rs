use vstd::prelude::*;
use super::ast::{AstNode, SpecAst, ast_view, asts_view, lemma_list_view};

verus! {

/// The view of an optional child.
pub open spec fn opt_ast_view(o: Option<Box<AstNode>>) -> Option<Box<SpecAst>> {
    match o {
        Some(e) => Some(Box::new(ast_view(*e))),
        None => None,
    }
}

impl AstNode {
    /// A copy of the tree.
    pub fn duplicate(&self) -> (r: AstNode)
        ensures
            r@ == self@,
        decreases self, 1int,
    {
        match self {
            AstNode::Program(v) => {
                let c = duplicate_list(v);
                proof {
                    lemma_list_view(*v);
                    lemma_list_view(c);
                }
                AstNode::Program(c)
            },
            AstNode::Route { path, method, body, on_error } => AstNode::Route {
                path: path.clone(),
                method: method.clone(),
                body: Box::new(body.duplicate()),
                on_error: duplicate_opt(on_error),
            },
            AstNode::Block(v) => {
                let c = duplicate_list(v);
                proof {
                    lemma_list_view(*v);
                    lemma_list_view(c);
                }
                AstNode::Block(c)
            },
            AstNode::VarDeclaration { name, value } => AstNode::VarDeclaration { name: name.clone(), value: Box::new(value.duplicate()) },
            AstNode::FunctionCall { object, name, args, try_operator, unwrap_operator } => {
                let c = duplicate_list(args);
                let r = AstNode::FunctionCall {
                    object: duplicate_opt(object),
                    name: name.clone(),
                    args: c,
                    try_operator: *try_operator,
                    unwrap_operator: *unwrap_operator,
                };
                proof {
                    assert(r@->FunctionCall_args =~= asts_view(c@));
                    assert(self@->FunctionCall_args =~= asts_view(args@));
                }
                r
            },
            AstNode::PropertyAccess { object, property } => AstNode::PropertyAccess {
                object: Box::new(object.duplicate()),
                property: property.clone(),
            },
            AstNode::IfStatement { condition, then_branch, else_branch } => AstNode::IfStatement {
                condition: Box::new(condition.duplicate()),
                then_branch: Box::new(then_branch.duplicate()),
                else_branch: duplicate_opt(else_branch),
            },
            AstNode::StringLiteral(s) => AstNode::StringLiteral(s.clone()),
            AstNode::NumberLiteral(n) => AstNode::NumberLiteral(*n),
            AstNode::ArrayLiteral(v) => {
                let c = duplicate_list(v);
                proof {
                    lemma_list_view(*v);
                    lemma_list_view(c);
                }
                AstNode::ArrayLiteral(c)
            },
            AstNode::ArrayAccess { array, index } => AstNode::ArrayAccess {
                array: Box::new(array.duplicate()),
                index: Box::new(index.duplicate()),
            },
            AstNode::Identifier(s) => AstNode::Identifier(s.clone()),
            AstNode::BinaryOp { left, operator, right } => AstNode::BinaryOp {
                left: Box::new(left.duplicate()),
                operator: operator.clone(),
                right: Box::new(right.duplicate()),
            },
            AstNode::TlsConfig { enabled, cert_path, key_path } => AstNode::TlsConfig {
                enabled: *enabled,
                cert_path: cert_path.clone(),
                key_path: key_path.clone(),
            },
            AstNode::ServerConfig { routes, tls_config, global_error_handler, config_block } => {
                let c = duplicate_list(routes);
                let r = AstNode::ServerConfig {
                    routes: c,
                    tls_config: duplicate_opt(tls_config),
                    global_error_handler: duplicate_opt(global_error_handler),
                    config_block: duplicate_opt(config_block),
                };
                proof {
                    assert(r@->ServerConfig_routes =~= asts_view(c@));
                    assert(self@->ServerConfig_routes =~= asts_view(routes@));
                }
                r
            },
            AstNode::GlobalErrorHandler { error_var, body } => AstNode::GlobalErrorHandler {
                error_var: error_var.clone(),
                body: Box::new(body.duplicate()),
            },
            AstNode::ErrorHandlerBlock { error_var, body } => AstNode::ErrorHandlerBlock {
                error_var: error_var.clone(),
                body: Box::new(body.duplicate()),
            },
            AstNode::ConfigBlock { config_type, host, port } => AstNode::ConfigBlock {
                config_type: config_type.clone(),
                host: host.clone(),
                port: port.clone(),
            },
            AstNode::Import { path, alias } => AstNode::Import { path: path.clone(), alias: alias.clone() },
            AstNode::ForLoop { var_name, iterable, body } => AstNode::ForLoop {
                var_name: var_name.clone(),
                iterable: Box::new(iterable.duplicate()),
                body: Box::new(body.duplicate()),
            },
            AstNode::WhileLoop { condition, body } => AstNode::WhileLoop {
                condition: Box::new(condition.duplicate()),
                body: Box::new(body.duplicate()),
            },
        }
    }
}

/// A copy of an optional child.
pub fn duplicate_opt(o: &Option<Box<AstNode>>) -> (r: Option<Box<AstNode>>)
    ensures
        opt_ast_view(r) == opt_ast_view(*o),
    decreases o, 1int,
{
    match o {
        Some(e) => {
            proof {
                assert(decreases_to!(*o => o->0));
            }
            Some(Box::new(e.duplicate()))
        },
        None => None,
    }
}

/// A copy of a list of nodes.
pub fn duplicate_list(v: &Vec<Box<AstNode>>) -> (r: Vec<Box<AstNode>>)
    ensures
        asts_view(r@) == asts_view(v@),
    decreases v, 0int,
{
    let mut out: Vec<Box<AstNode>> = Vec::new();
    let n = v.len();
    let mut i: usize = 0;
    while i < n
        invariant
            i <= n,
            n == v@.len(),
            asts_view(out@) == asts_view(v@).take(i as int),
        decreases n - i,
    {
        proof {
            assert(decreases_to!(*v => v@));
            assert(decreases_to!(v@ => v@[i as int]));
        }
        let c = v[i].duplicate();
        let ghost before = asts_view(out@);
        out.push(Box::new(c));
        proof {
            assert(asts_view(out@) =~= before.push(ast_view(c)));
            assert(asts_view(v@).take(i + 1) =~= asts_view(v@).take(i as int).push(ast_view(*v@[i as int])));
        }
        i = i + 1;
    }
    proof {
        assert(asts_view(v@).take(n as int) =~= asts_view(v@));
    }
    out
}

} // verus!
