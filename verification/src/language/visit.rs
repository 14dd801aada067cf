use vstd::prelude::*;
use super::ast::{AstNode, AstVisitor, SpecAst, asts_view, ast_view, lemma_list_view, unbox_opt};

verus! {

/// The view of an optional node handed to a visitor.
pub open spec fn opt_view(o: Option<&AstNode>) -> Option<Box<SpecAst>> {
    match o {
        Some(n) => Some(Box::new(ast_view(*n))),
        None => None,
    }
}

/// A visitor with a record of the calls made on it: for each call, the
/// node it describes (the method's kind with the fields it was given) and
/// what the visitor gave back.
pub struct Visits<T, V: AstVisitor<T>> {
    visitor: V,
    log: Ghost<Seq<(SpecAst, Result<T, V::Error>)>>,
}

impl<T, V: AstVisitor<T>> Visits<T, V> {
    /// The calls made so far, in order.
    pub closed spec fn calls(&self) -> Seq<(SpecAst, Result<T, V::Error>)> {
        self.log@
    }

    /// The visitor the calls go to.
    pub closed spec fn the_visitor(&self) -> V {
        self.visitor
    }

    /// Starts recording the calls made on `visitor`.
    pub fn new(visitor: V) -> (r: Self)
        ensures
            r.calls() == Seq::<(SpecAst, Result<T, V::Error>)>::empty(),
            r.the_visitor() == visitor,
    {
        Visits { visitor, log: Ghost(Seq::empty()) }
    }

    /// The visitor.
    pub fn visitor(&self) -> (r: &V)
        ensures
            *r == self.the_visitor(),
    {
        &self.visitor
    }

    /// The visitor, once the visits are over.
    pub fn into_visitor(self) -> (r: V)
        ensures
            r == self.the_visitor(),
    {
        self.visitor
    }

    /// Calls `visit_program` and records the call.
    fn visit_program(&mut self, statements: &[Box<AstNode>]) -> (r: Result<T, V::Error>)
        ensures
            final(self).calls() == old(self).calls().push((SpecAst::Program(asts_view(statements@)), r)),
    {
        let r = self.visitor.visit_program(statements);
        proof {
            self.log@ = self.log@.push((SpecAst::Program(asts_view(statements@)), r));
        }
        r
    }

    /// Calls `visit_route` and records the call.
    fn visit_route(&mut self, path: &str, method: &str, body: &AstNode, on_error: Option<&AstNode>) -> (r: Result<T, V::Error>)
        ensures
            final(self).calls() == old(self).calls().push((SpecAst::Route { path: path@, method: method@, body: Box::new(body@), on_error: opt_view(on_error) }, r)),
    {
        let r = self.visitor.visit_route(path, method, body, on_error);
        proof {
            self.log@ = self.log@.push((SpecAst::Route { path: path@, method: method@, body: Box::new(body@), on_error: opt_view(on_error) }, r));
        }
        r
    }

    /// Calls `visit_block` and records the call.
    fn visit_block(&mut self, statements: &[Box<AstNode>]) -> (r: Result<T, V::Error>)
        ensures
            final(self).calls() == old(self).calls().push((SpecAst::Block(asts_view(statements@)), r)),
    {
        let r = self.visitor.visit_block(statements);
        proof {
            self.log@ = self.log@.push((SpecAst::Block(asts_view(statements@)), r));
        }
        r
    }

    /// Calls `visit_var_declaration` and records the call.
    fn visit_var_declaration(&mut self, name: &str, value: &AstNode) -> (r: Result<T, V::Error>)
        ensures
            final(self).calls() == old(self).calls().push((SpecAst::VarDeclaration { name: name@, value: Box::new(value@) }, r)),
    {
        let r = self.visitor.visit_var_declaration(name, value);
        proof {
            self.log@ = self.log@.push((SpecAst::VarDeclaration { name: name@, value: Box::new(value@) }, r));
        }
        r
    }

    /// Calls `visit_function_call` and records the call.
    fn visit_function_call(&mut self, object: Option<&AstNode>, name: &str, args: &[Box<AstNode>], try_op: bool, unwrap_op: bool) -> (r: Result<T, V::Error>)
        ensures
            final(self).calls() == old(self).calls().push((SpecAst::FunctionCall { object: opt_view(object), name: name@, args: asts_view(args@), try_operator: try_op, unwrap_operator: unwrap_op }, r)),
    {
        let r = self.visitor.visit_function_call(object, name, args, try_op, unwrap_op);
        proof {
            self.log@ = self.log@.push((SpecAst::FunctionCall { object: opt_view(object), name: name@, args: asts_view(args@), try_operator: try_op, unwrap_operator: unwrap_op }, r));
        }
        r
    }

    /// Calls `visit_property_access` and records the call.
    fn visit_property_access(&mut self, object: &AstNode, property: &str) -> (r: Result<T, V::Error>)
        ensures
            final(self).calls() == old(self).calls().push((SpecAst::PropertyAccess { object: Box::new(object@), property: property@ }, r)),
    {
        let r = self.visitor.visit_property_access(object, property);
        proof {
            self.log@ = self.log@.push((SpecAst::PropertyAccess { object: Box::new(object@), property: property@ }, r));
        }
        r
    }

    /// Calls `visit_if_statement` and records the call.
    fn visit_if_statement(&mut self, condition: &AstNode, then_branch: &AstNode, else_branch: Option<&AstNode>) -> (r: Result<T, V::Error>)
        ensures
            final(self).calls() == old(self).calls().push((SpecAst::IfStatement { condition: Box::new(condition@), then_branch: Box::new(then_branch@), else_branch: opt_view(else_branch) }, r)),
    {
        let r = self.visitor.visit_if_statement(condition, then_branch, else_branch);
        proof {
            self.log@ = self.log@.push((SpecAst::IfStatement { condition: Box::new(condition@), then_branch: Box::new(then_branch@), else_branch: opt_view(else_branch) }, r));
        }
        r
    }

    /// Calls `visit_string_literal` and records the call.
    fn visit_string_literal(&mut self, value: &str) -> (r: Result<T, V::Error>)
        ensures
            final(self).calls() == old(self).calls().push((SpecAst::StringLiteral(value@), r)),
    {
        let r = self.visitor.visit_string_literal(value);
        proof {
            self.log@ = self.log@.push((SpecAst::StringLiteral(value@), r));
        }
        r
    }

    /// Calls `visit_number_literal` and records the call.
    fn visit_number_literal(&mut self, value: i64) -> (r: Result<T, V::Error>)
        ensures
            final(self).calls() == old(self).calls().push((SpecAst::NumberLiteral(value), r)),
    {
        let r = self.visitor.visit_number_literal(value);
        proof {
            self.log@ = self.log@.push((SpecAst::NumberLiteral(value), r));
        }
        r
    }

    /// Calls `visit_identifier` and records the call.
    fn visit_identifier(&mut self, name: &str) -> (r: Result<T, V::Error>)
        ensures
            final(self).calls() == old(self).calls().push((SpecAst::Identifier(name@), r)),
    {
        let r = self.visitor.visit_identifier(name);
        proof {
            self.log@ = self.log@.push((SpecAst::Identifier(name@), r));
        }
        r
    }

    /// Calls `visit_binary_op` and records the call.
    fn visit_binary_op(&mut self, left: &AstNode, operator: &str, right: &AstNode) -> (r: Result<T, V::Error>)
        ensures
            final(self).calls() == old(self).calls().push((SpecAst::BinaryOp { left: Box::new(left@), operator: operator@, right: Box::new(right@) }, r)),
    {
        let r = self.visitor.visit_binary_op(left, operator, right);
        proof {
            self.log@ = self.log@.push((SpecAst::BinaryOp { left: Box::new(left@), operator: operator@, right: Box::new(right@) }, r));
        }
        r
    }

    /// Calls `visit_tls_config` and records the call.
    fn visit_tls_config(&mut self, enabled: bool, cert_path: &str, key_path: &str) -> (r: Result<T, V::Error>)
        ensures
            final(self).calls() == old(self).calls().push((SpecAst::TlsConfig { enabled, cert_path: cert_path@, key_path: key_path@ }, r)),
    {
        let r = self.visitor.visit_tls_config(enabled, cert_path, key_path);
        proof {
            self.log@ = self.log@.push((SpecAst::TlsConfig { enabled, cert_path: cert_path@, key_path: key_path@ }, r));
        }
        r
    }

    /// Calls `visit_server_config` and records the call.
    fn visit_server_config(&mut self, routes: &[Box<AstNode>], tls_config: Option<&AstNode>, global_error_handler: Option<&AstNode>, config_block: Option<&AstNode>) -> (r: Result<T, V::Error>)
        ensures
            final(self).calls() == old(self).calls().push((SpecAst::ServerConfig { routes: asts_view(routes@), tls_config: opt_view(tls_config), global_error_handler: opt_view(global_error_handler), config_block: opt_view(config_block) }, r)),
    {
        let r = self.visitor.visit_server_config(routes, tls_config, global_error_handler, config_block);
        proof {
            self.log@ = self.log@.push((SpecAst::ServerConfig { routes: asts_view(routes@), tls_config: opt_view(tls_config), global_error_handler: opt_view(global_error_handler), config_block: opt_view(config_block) }, r));
        }
        r
    }

    /// Calls `visit_global_error_handler` and records the call.
    fn visit_global_error_handler(&mut self, error_var: &str, body: &AstNode) -> (r: Result<T, V::Error>)
        ensures
            final(self).calls() == old(self).calls().push((SpecAst::GlobalErrorHandler { error_var: error_var@, body: Box::new(body@) }, r)),
    {
        let r = self.visitor.visit_global_error_handler(error_var, body);
        proof {
            self.log@ = self.log@.push((SpecAst::GlobalErrorHandler { error_var: error_var@, body: Box::new(body@) }, r));
        }
        r
    }

    /// Calls `visit_error_handler_block` and records the call.
    fn visit_error_handler_block(&mut self, error_var: &str, body: &AstNode) -> (r: Result<T, V::Error>)
        ensures
            final(self).calls() == old(self).calls().push((SpecAst::ErrorHandlerBlock { error_var: error_var@, body: Box::new(body@) }, r)),
    {
        let r = self.visitor.visit_error_handler_block(error_var, body);
        proof {
            self.log@ = self.log@.push((SpecAst::ErrorHandlerBlock { error_var: error_var@, body: Box::new(body@) }, r));
        }
        r
    }

    /// Calls `visit_config_block` and records the call.
    fn visit_config_block(&mut self, config_type: &str, host: &str, port: &str) -> (r: Result<T, V::Error>)
        ensures
            final(self).calls() == old(self).calls().push((SpecAst::ConfigBlock { config_type: config_type@, host: host@, port: port@ }, r)),
    {
        let r = self.visitor.visit_config_block(config_type, host, port);
        proof {
            self.log@ = self.log@.push((SpecAst::ConfigBlock { config_type: config_type@, host: host@, port: port@ }, r));
        }
        r
    }

    /// Calls `visit_import` and records the call.
    fn visit_import(&mut self, path: &str, alias: &str) -> (r: Result<T, V::Error>)
        ensures
            final(self).calls() == old(self).calls().push((SpecAst::Import { path: path@, alias: alias@ }, r)),
    {
        let r = self.visitor.visit_import(path, alias);
        proof {
            self.log@ = self.log@.push((SpecAst::Import { path: path@, alias: alias@ }, r));
        }
        r
    }

    /// Calls `visit_while_loop` and records the call.
    fn visit_while_loop(&mut self, condition: &AstNode, body: &AstNode) -> (r: Result<T, V::Error>)
        ensures
            final(self).calls() == old(self).calls().push((SpecAst::WhileLoop { condition: Box::new(condition@), body: Box::new(body@) }, r)),
    {
        let r = self.visitor.visit_while_loop(condition, body);
        proof {
            self.log@ = self.log@.push((SpecAst::WhileLoop { condition: Box::new(condition@), body: Box::new(body@) }, r));
        }
        r
    }

    /// Calls `visit_for_loop` and records the call.
    fn visit_for_loop(&mut self, var_name: &str, iterable: &AstNode, body: &AstNode) -> (r: Result<T, V::Error>)
        ensures
            final(self).calls() == old(self).calls().push((SpecAst::ForLoop { var_name: var_name@, iterable: Box::new(iterable@), body: Box::new(body@) }, r)),
    {
        let r = self.visitor.visit_for_loop(var_name, iterable, body);
        proof {
            self.log@ = self.log@.push((SpecAst::ForLoop { var_name: var_name@, iterable: Box::new(iterable@), body: Box::new(body@) }, r));
        }
        r
    }

    /// Calls `visit_array_literal` and records the call.
    fn visit_array_literal(&mut self, values: &[Box<AstNode>]) -> (r: Result<T, V::Error>)
        ensures
            final(self).calls() == old(self).calls().push((SpecAst::ArrayLiteral(asts_view(values@)), r)),
    {
        let r = self.visitor.visit_array_literal(values);
        proof {
            self.log@ = self.log@.push((SpecAst::ArrayLiteral(asts_view(values@)), r));
        }
        r
    }

    /// Calls `visit_array_access` and records the call.
    fn visit_array_access(&mut self, array: &AstNode, index: &AstNode) -> (r: Result<T, V::Error>)
        ensures
            final(self).calls() == old(self).calls().push((SpecAst::ArrayAccess { array: Box::new(array@), index: Box::new(index@) }, r)),
    {
        let r = self.visitor.visit_array_access(array, index);
        proof {
            self.log@ = self.log@.push((SpecAst::ArrayAccess { array: Box::new(array@), index: Box::new(index@) }, r));
        }
        r
    }
}

impl AstNode {
    /// Hands this node to the visitor method for its kind, with its fields,
    /// and gives back what that method gives: the record gains exactly one
    /// call, which describes this node.
    pub fn accept<T, V: AstVisitor<T>>(&self, visitor: &mut Visits<T, V>) -> (r: Result<T, V::Error>)
        ensures
            final(visitor).calls() == old(visitor).calls().push((self@, r)),
    {
        match self {
            AstNode::Program(statements) => {
                proof {
                    lemma_list_view(*statements);
                }
                visitor.visit_program(statements.as_slice())
            },
            AstNode::Route { path, method, body, on_error } => visitor.visit_route(
                path.as_str(),
                method.as_str(),
                &**body,
                unbox_opt(on_error),
            ),
            AstNode::Block(statements) => {
                proof {
                    lemma_list_view(*statements);
                }
                visitor.visit_block(statements.as_slice())
            },
            AstNode::VarDeclaration { name, value } => visitor.visit_var_declaration(name.as_str(), &**value),
            AstNode::FunctionCall { object, name, args, try_operator, unwrap_operator } => {
                proof {
                    assert(self@->FunctionCall_args =~= asts_view(args@));
                }
                visitor.visit_function_call(
                    unbox_opt(object),
                    name.as_str(),
                    args.as_slice(),
                    *try_operator,
                    *unwrap_operator,
                )
            },
            AstNode::PropertyAccess { object, property } => visitor.visit_property_access(&**object, property.as_str()),
            AstNode::IfStatement { condition, then_branch, else_branch } => visitor.visit_if_statement(
                &**condition,
                &**then_branch,
                unbox_opt(else_branch),
            ),
            AstNode::StringLiteral(value) => visitor.visit_string_literal(value.as_str()),
            AstNode::NumberLiteral(value) => visitor.visit_number_literal(*value),
            AstNode::Identifier(name) => visitor.visit_identifier(name.as_str()),
            AstNode::BinaryOp { left, operator, right } => visitor.visit_binary_op(&**left, operator.as_str(), &**right),
            AstNode::TlsConfig { enabled, cert_path, key_path } => visitor.visit_tls_config(
                *enabled,
                cert_path.as_str(),
                key_path.as_str(),
            ),
            AstNode::ServerConfig { routes, tls_config, global_error_handler, config_block } => {
                proof {
                    assert(self@->ServerConfig_routes =~= asts_view(routes@));
                }
                visitor.visit_server_config(
                    routes.as_slice(),
                    unbox_opt(tls_config),
                    unbox_opt(global_error_handler),
                    unbox_opt(config_block),
                )
            },
            AstNode::GlobalErrorHandler { error_var, body } => visitor.visit_global_error_handler(error_var.as_str(), &**body),
            AstNode::ErrorHandlerBlock { error_var, body } => visitor.visit_error_handler_block(error_var.as_str(), &**body),
            AstNode::ConfigBlock { config_type, host, port } => visitor.visit_config_block(
                config_type.as_str(),
                host.as_str(),
                port.as_str(),
            ),
            AstNode::Import { path, alias } => visitor.visit_import(path.as_str(), alias.as_str()),
            AstNode::WhileLoop { condition, body } => visitor.visit_while_loop(&**condition, &**body),
            AstNode::ForLoop { var_name, iterable, body } => visitor.visit_for_loop(var_name.as_str(), &**iterable, &**body),
            AstNode::ArrayLiteral(elements) => {
                proof {
                    lemma_list_view(*elements);
                }
                visitor.visit_array_literal(elements.as_slice())
            },
            AstNode::ArrayAccess { array, index } => visitor.visit_array_access(&**array, &**index),
        }
    }
}

} // verus!
