use vstd::prelude::*;
use super::text::{decimal_chars, int_decimal, bool_text, push_decimal, push_decimal_i64, push_bool};

verus! {

/// A node of the syntax tree of the route definition language.
#[allow(inconsistent_fields)]
#[derive(Debug)]
pub enum AstNode {
    /// A whole file without server settings: imports, then routes.
    Program(Vec<Box<AstNode>>),
    /// `route "<path>" <METHOD> { ... } [onError(e) { ... }];`
    Route { path: String, method: String, body: Box<AstNode>, on_error: Option<Box<AstNode>> },
    /// A braced list of statements.
    Block(Vec<Box<AstNode>>),
    /// `val <name> = <value>;`
    VarDeclaration { name: String, value: Box<AstNode> },
    /// A call of a global function, a method or a plugin function.
    FunctionCall {
        object: Option<Box<AstNode>>,
        name: String,
        args: Vec<Box<AstNode>>,
        try_operator: bool,
        unwrap_operator: bool,
    },
    /// `<object>.<property>`
    PropertyAccess { object: Box<AstNode>, property: String },
    /// `if (<condition>) { ... } [else ...]`
    IfStatement { condition: Box<AstNode>, then_branch: Box<AstNode>, else_branch: Option<Box<AstNode>> },
    /// A string literal.
    StringLiteral(String),
    /// An integer literal.
    NumberLiteral(i64),
    /// `[a, b, ...]`
    ArrayLiteral(Vec<Box<AstNode>>),
    /// `<array>[<index>]`
    ArrayAccess { array: Box<AstNode>, index: Box<AstNode> },
    /// A name.
    Identifier(String),
    /// `<left> <operator> <right>`
    BinaryOp { left: Box<AstNode>, operator: String, right: Box<AstNode> },
    /// The `tls { ... };` block.
    TlsConfig { enabled: bool, cert_path: String, key_path: String },
    /// A whole file with server settings.
    ServerConfig {
        routes: Vec<Box<AstNode>>,
        tls_config: Option<Box<AstNode>>,
        global_error_handler: Option<Box<AstNode>>,
        config_block: Option<Box<AstNode>>,
    },
    /// `global_error_handler(e) { ... };`
    GlobalErrorHandler { error_var: String, body: Box<AstNode> },
    /// `onError(e) { ... }` after a route.
    ErrorHandlerBlock { error_var: String, body: Box<AstNode> },
    /// The `config { ... };` block.
    ConfigBlock { config_type: String, host: String, port: String },
    /// `import "<path>" as <alias>;`
    Import { path: String, alias: String },
    /// `for <var> in <iterable> { ... }`
    ForLoop { var_name: String, iterable: Box<AstNode>, body: Box<AstNode> },
    /// `while <condition> { ... }`
    WhileLoop { condition: Box<AstNode>, body: Box<AstNode> },
}

/// The mathematical view of a syntax tree: strings as character sequences,
/// lists as sequences.
#[allow(inconsistent_fields)]
pub enum SpecAst {
    Program(Seq<SpecAst>),
    Route { path: Seq<char>, method: Seq<char>, body: Box<SpecAst>, on_error: Option<Box<SpecAst>> },
    Block(Seq<SpecAst>),
    VarDeclaration { name: Seq<char>, value: Box<SpecAst> },
    FunctionCall {
        object: Option<Box<SpecAst>>,
        name: Seq<char>,
        args: Seq<SpecAst>,
        try_operator: bool,
        unwrap_operator: bool,
    },
    PropertyAccess { object: Box<SpecAst>, property: Seq<char> },
    IfStatement { condition: Box<SpecAst>, then_branch: Box<SpecAst>, else_branch: Option<Box<SpecAst>> },
    StringLiteral(Seq<char>),
    NumberLiteral(i64),
    ArrayLiteral(Seq<SpecAst>),
    ArrayAccess { array: Box<SpecAst>, index: Box<SpecAst> },
    Identifier(Seq<char>),
    BinaryOp { left: Box<SpecAst>, operator: Seq<char>, right: Box<SpecAst> },
    TlsConfig { enabled: bool, cert_path: Seq<char>, key_path: Seq<char> },
    ServerConfig {
        routes: Seq<SpecAst>,
        tls_config: Option<Box<SpecAst>>,
        global_error_handler: Option<Box<SpecAst>>,
        config_block: Option<Box<SpecAst>>,
    },
    GlobalErrorHandler { error_var: Seq<char>, body: Box<SpecAst> },
    ErrorHandlerBlock { error_var: Seq<char>, body: Box<SpecAst> },
    ConfigBlock { config_type: Seq<char>, host: Seq<char>, port: Seq<char> },
    Import { path: Seq<char>, alias: Seq<char> },
    ForLoop { var_name: Seq<char>, iterable: Box<SpecAst>, body: Box<SpecAst> },
    WhileLoop { condition: Box<SpecAst>, body: Box<SpecAst> },
}

/// The view of a syntax tree.
pub open spec fn ast_view(n: AstNode) -> SpecAst
    decreases n,
{
    match n {
        AstNode::Program(v) => SpecAst::Program(
            Seq::new(v.len() as nat, |i: int| if 0 <= i < v.len() { ast_view(*v[i]) } else { SpecAst::NumberLiteral(0) }),
        ),
        AstNode::Route { path, method, body, on_error } => SpecAst::Route {
            path: path@,
            method: method@,
            body: Box::new(ast_view(*body)),
            on_error: match on_error {
                Some(e) => Some(Box::new(ast_view(*e))),
                None => None,
            },
        },
        AstNode::Block(v) => SpecAst::Block(
            Seq::new(v.len() as nat, |i: int| if 0 <= i < v.len() { ast_view(*v[i]) } else { SpecAst::NumberLiteral(0) }),
        ),
        AstNode::VarDeclaration { name, value } => SpecAst::VarDeclaration { name: name@, value: Box::new(ast_view(*value)) },
        AstNode::FunctionCall { object, name, args, try_operator, unwrap_operator } => SpecAst::FunctionCall {
            object: match object {
                Some(o) => Some(Box::new(ast_view(*o))),
                None => None,
            },
            name: name@,
            args: Seq::new(args.len() as nat, |i: int| if 0 <= i < args.len() { ast_view(*args[i]) } else { SpecAst::NumberLiteral(0) }),
            try_operator,
            unwrap_operator,
        },
        AstNode::PropertyAccess { object, property } => SpecAst::PropertyAccess {
            object: Box::new(ast_view(*object)),
            property: property@,
        },
        AstNode::IfStatement { condition, then_branch, else_branch } => SpecAst::IfStatement {
            condition: Box::new(ast_view(*condition)),
            then_branch: Box::new(ast_view(*then_branch)),
            else_branch: match else_branch {
                Some(e) => Some(Box::new(ast_view(*e))),
                None => None,
            },
        },
        AstNode::StringLiteral(s) => SpecAst::StringLiteral(s@),
        AstNode::NumberLiteral(n) => SpecAst::NumberLiteral(n),
        AstNode::ArrayLiteral(v) => SpecAst::ArrayLiteral(
            Seq::new(v.len() as nat, |i: int| if 0 <= i < v.len() { ast_view(*v[i]) } else { SpecAst::NumberLiteral(0) }),
        ),
        AstNode::ArrayAccess { array, index } => SpecAst::ArrayAccess {
            array: Box::new(ast_view(*array)),
            index: Box::new(ast_view(*index)),
        },
        AstNode::Identifier(s) => SpecAst::Identifier(s@),
        AstNode::BinaryOp { left, operator, right } => SpecAst::BinaryOp {
            left: Box::new(ast_view(*left)),
            operator: operator@,
            right: Box::new(ast_view(*right)),
        },
        AstNode::TlsConfig { enabled, cert_path, key_path } => SpecAst::TlsConfig {
            enabled,
            cert_path: cert_path@,
            key_path: key_path@,
        },
        AstNode::ServerConfig { routes, tls_config, global_error_handler, config_block } => SpecAst::ServerConfig {
            routes: Seq::new(routes.len() as nat, |i: int| if 0 <= i < routes.len() { ast_view(*routes[i]) } else { SpecAst::NumberLiteral(0) }),
            tls_config: match tls_config {
                Some(e) => Some(Box::new(ast_view(*e))),
                None => None,
            },
            global_error_handler: match global_error_handler {
                Some(e) => Some(Box::new(ast_view(*e))),
                None => None,
            },
            config_block: match config_block {
                Some(e) => Some(Box::new(ast_view(*e))),
                None => None,
            },
        },
        AstNode::GlobalErrorHandler { error_var, body } => SpecAst::GlobalErrorHandler {
            error_var: error_var@,
            body: Box::new(ast_view(*body)),
        },
        AstNode::ErrorHandlerBlock { error_var, body } => SpecAst::ErrorHandlerBlock {
            error_var: error_var@,
            body: Box::new(ast_view(*body)),
        },
        AstNode::ConfigBlock { config_type, host, port } => SpecAst::ConfigBlock {
            config_type: config_type@,
            host: host@,
            port: port@,
        },
        AstNode::Import { path, alias } => SpecAst::Import { path: path@, alias: alias@ },
        AstNode::ForLoop { var_name, iterable, body } => SpecAst::ForLoop {
            var_name: var_name@,
            iterable: Box::new(ast_view(*iterable)),
            body: Box::new(ast_view(*body)),
        },
        AstNode::WhileLoop { condition, body } => SpecAst::WhileLoop {
            condition: Box::new(ast_view(*condition)),
            body: Box::new(ast_view(*body)),
        },
    }
}

impl View for AstNode {
    type V = SpecAst;

    open spec fn view(&self) -> SpecAst {
        ast_view(*self)
    }
}

/// The views of a list of nodes.
pub open spec fn asts_view(v: Seq<Box<AstNode>>) -> Seq<SpecAst> {
    v.map_values(|b: Box<AstNode>| ast_view(*b))
}

/// The view of a list node's elements is the view of each element.
pub proof fn lemma_list_view(v: Vec<Box<AstNode>>)
    ensures
        ast_view(AstNode::Program(v)) == SpecAst::Program(asts_view(v@)),
        ast_view(AstNode::Block(v)) == SpecAst::Block(asts_view(v@)),
        ast_view(AstNode::ArrayLiteral(v)) == SpecAst::ArrayLiteral(asts_view(v@)),
{
    let a = asts_view(v@);
    let p = ast_view(AstNode::Program(v));
    let b = ast_view(AstNode::Block(v));
    let l = ast_view(AstNode::ArrayLiteral(v));
    assert(p->Program_0 =~= a);
    assert(b->Block_0 =~= a);
    assert(l->ArrayLiteral_0 =~= a);
}

/// A visitor over syntax trees: one method per kind of node.
pub trait AstVisitor<T> {
    type Error;

    fn visit_program(&mut self, statements: &[Box<AstNode>]) -> Result<T, Self::Error>;

    fn visit_route(&mut self, path: &str, method: &str, body: &AstNode, on_error: Option<&AstNode>) -> Result<T, Self::Error>;

    fn visit_block(&mut self, statements: &[Box<AstNode>]) -> Result<T, Self::Error>;

    fn visit_var_declaration(&mut self, name: &str, value: &AstNode) -> Result<T, Self::Error>;

    fn visit_function_call(
        &mut self,
        object: Option<&AstNode>,
        name: &str,
        args: &[Box<AstNode>],
        try_op: bool,
        unwrap_op: bool,
    ) -> Result<T, Self::Error>;

    fn visit_property_access(&mut self, object: &AstNode, property: &str) -> Result<T, Self::Error>;

    fn visit_if_statement(&mut self, condition: &AstNode, then_branch: &AstNode, else_branch: Option<&AstNode>) -> Result<T, Self::Error>;

    fn visit_string_literal(&mut self, value: &str) -> Result<T, Self::Error>;

    fn visit_number_literal(&mut self, value: i64) -> Result<T, Self::Error>;

    fn visit_identifier(&mut self, name: &str) -> Result<T, Self::Error>;

    fn visit_binary_op(&mut self, left: &AstNode, operator: &str, right: &AstNode) -> Result<T, Self::Error>;

    fn visit_tls_config(&mut self, enabled: bool, cert_path: &str, key_path: &str) -> Result<T, Self::Error>;

    fn visit_server_config(
        &mut self,
        routes: &[Box<AstNode>],
        tls_config: Option<&AstNode>,
        global_error_handler: Option<&AstNode>,
        config_block: Option<&AstNode>,
    ) -> Result<T, Self::Error>;

    fn visit_global_error_handler(&mut self, error_var: &str, body: &AstNode) -> Result<T, Self::Error>;

    fn visit_error_handler_block(&mut self, error_var: &str, body: &AstNode) -> Result<T, Self::Error>;

    fn visit_config_block(&mut self, config_type: &str, host: &str, port: &str) -> Result<T, Self::Error>;

    fn visit_import(&mut self, path: &str, alias: &str) -> Result<T, Self::Error>;

    fn visit_while_loop(&mut self, condition: &AstNode, body: &AstNode) -> Result<T, Self::Error>;

    fn visit_for_loop(&mut self, var_name: &str, iterable: &AstNode, body: &AstNode) -> Result<T, Self::Error>;

    fn visit_array_literal(&mut self, values: &[Box<AstNode>]) -> Result<T, Self::Error>;

    fn visit_array_access(&mut self, array: &AstNode, index: &AstNode) -> Result<T, Self::Error>;
}

/// The node inside an optional box.
pub(crate) fn unbox_opt(o: &Option<Box<AstNode>>) -> (r: Option<&AstNode>)
    ensures
        match *o {
            Some(b) => r == Some(&*b),
            None => r is None,
        },
{
    match o {
        Some(b) => Some(&**b),
        None => None,
    }
}

/// What the derived `Debug` formatting writes for a list of nodes.
pub uninterp spec fn nodes_debug_text(nodes: Seq<SpecAst>) -> Seq<char>;

/// Formats a list of nodes with their derived `Debug` formatting
/// (`format!("{:?}")`); the result is the named text of the list's view.
#[verifier::external_body]
fn nodes_debug(nodes: &Vec<Box<AstNode>>) -> (r: String)
    ensures
        r@ == nodes_debug_text(asts_view(nodes@)),
{
    format!("{:?}", nodes)
}

/// The text of a node, as the original `Display` writes it.
pub open spec fn ast_display(n: SpecAst) -> Seq<char>
    decreases n,
{
    match n {
        SpecAst::Program(v) => "Program:\n"@ + program_lines(v),
        SpecAst::Route { path, method, body, on_error } => match on_error {
            Some(e) => "Маршрут: "@ + method + " "@ + path + " "@ + ast_display(*body) + " "@ + ast_display(*e) + "\n"@,
            None => "Маршрут: "@ + method + " "@ + path + " "@ + ast_display(*body) + "\n"@,
        },
        SpecAst::Block(v) => "{\n"@ + block_lines(v) + "}"@,
        SpecAst::VarDeclaration { name, value } => "val "@ + name + " = "@ + ast_display(*value) + ";\n"@,
        SpecAst::FunctionCall { object, name, args, try_operator, unwrap_operator } => {
            let head = match object {
                Some(o) => ast_display(*o) + "."@ + name + "("@,
                None => name + "("@,
            };
            let tail = if try_operator && !unwrap_operator {
                ")?"@
            } else if !try_operator && unwrap_operator {
                ")!!"@
            } else if !try_operator && !unwrap_operator {
                ")"@
            } else {
                ")!!?"@
            };
            head + joined_args(args) + tail
        },
        SpecAst::PropertyAccess { object, property } => ast_display(*object) + "."@ + property,
        SpecAst::IfStatement { condition, then_branch, else_branch } => {
            let head = "if ("@ + ast_display(*condition) + ") "@ + ast_display(*then_branch);
            match else_branch {
                Some(e) => head + " else "@ + ast_display(*e) + "\n"@,
                None => head + "\n"@,
            }
        },
        SpecAst::StringLiteral(v) => "\""@ + v + "\""@,
        SpecAst::NumberLiteral(v) => int_decimal(v as int),
        SpecAst::ArrayLiteral(v) => "["@ + nodes_debug_text(v) + "]"@,
        SpecAst::ArrayAccess { array, index } => ast_display(*array) + "["@ + ast_display(*index) + "]"@,
        SpecAst::Identifier(v) => v,
        SpecAst::BinaryOp { left, operator, right } => ast_display(*left) + " "@ + operator + " "@ + ast_display(*right),
        SpecAst::TlsConfig { enabled, cert_path, key_path } => "TLS Configuration: {\n"@ + "  enabled: "@ + bool_text(enabled)
            + "\n"@ + "  cert_path: \""@ + cert_path + "\"\n"@ + "  key_path: \""@ + key_path + "\"\n"@ + "}\n"@,
        SpecAst::ServerConfig { routes, tls_config, global_error_handler, config_block } => {
            let a = match tls_config {
                Some(x) => "  "@ + ast_display(*x) + "\n"@,
                None => Seq::empty(),
            };
            let b = match global_error_handler {
                Some(x) => "  "@ + ast_display(*x) + "\n"@,
                None => Seq::empty(),
            };
            let c = match config_block {
                Some(x) => "  "@ + ast_display(*x) + "\n"@,
                None => Seq::empty(),
            };
            "Server Configuration: {\n"@ + a + b + c + route_lines(routes) + "}\n"@
        },
        SpecAst::GlobalErrorHandler { error_var, body } => "Global Error Handler("@ + error_var + "): {\n"@ + "   "@
            + ast_display(*body) + "\n"@ + "}\n"@,
        SpecAst::ErrorHandlerBlock { error_var, body } => "Error Handler Block("@ + error_var + "): {\n"@ + "   "@
            + ast_display(*body) + "\n"@ + "}\n"@,
        SpecAst::ConfigBlock { config_type, host, port } => "Config: {\n"@ + "   type: \""@ + config_type + "\"\n"@
            + "   host: \""@ + host + "\"\n"@ + "   port: "@ + port + "\n"@ + "}\n"@,
        SpecAst::Import { path, alias } => "import \""@ + path + "\" as "@ + alias + "\n"@,
        SpecAst::WhileLoop { condition, body } => "while "@ + ast_display(*condition) + "\n"@,
        SpecAst::ForLoop { var_name, iterable, body } => "for "@ + var_name + " in "@ + ast_display(*iterable) + "\n"@,
    }
}

/// The lines of a program: `  Маршрут <i>: <statement>` for each statement,
/// counted from 1.
pub open spec fn program_lines(v: Seq<SpecAst>) -> Seq<char>
    decreases v,
{
    if v.len() == 0 {
        Seq::empty()
    } else {
        program_lines(v.subrange(0, v.len() - 1)) + "  Маршрут "@ + decimal_chars(v.len()) + ": "@ + ast_display(v[v.len() - 1])
    }
}

/// The statements of a block, each after four spaces.
pub open spec fn block_lines(v: Seq<SpecAst>) -> Seq<char>
    decreases v,
{
    if v.len() == 0 {
        Seq::empty()
    } else {
        block_lines(v.subrange(0, v.len() - 1)) + "    "@ + ast_display(v[v.len() - 1])
    }
}

/// The routes of a server configuration, each on a line of its own after
/// two spaces.
pub open spec fn route_lines(v: Seq<SpecAst>) -> Seq<char>
    decreases v,
{
    if v.len() == 0 {
        Seq::empty()
    } else {
        route_lines(v.subrange(0, v.len() - 1)) + "  "@ + ast_display(v[v.len() - 1]) + "\n"@
    }
}

/// The arguments of a call, separated by `, `.
pub open spec fn joined_args(v: Seq<SpecAst>) -> Seq<char>
    decreases v,
{
    if v.len() == 0 {
        Seq::empty()
    } else if v.len() == 1 {
        ast_display(v[0])
    } else {
        joined_args(v.subrange(0, v.len() - 1)) + ", "@ + ast_display(v[v.len() - 1])
    }
}


impl AstNode {
    /// The text of this node (see `ast_display`).
    pub fn to_display_string(&self) -> (r: String)
        ensures
            r@ == ast_display(self@),
    {
        let mut out = String::new();
        self.write_display(&mut out);
        proof {
            assert(out@ =~= ast_display(self@));
        }
        out
    }

    /// Appends the text of this node to `out`.
    pub fn write_display(&self, out: &mut String)
        ensures
            final(out)@ == old(out)@ + ast_display(self@),
        decreases self, 1int,
    {
        match self {
            AstNode::Program(_) | AstNode::Block(_) => {
                self.write_list_node(out)
            },
            AstNode::FunctionCall { .. } | AstNode::ServerConfig { .. } => {
                self.write_call_or_server(out)
            },
            AstNode::Route { .. } | AstNode::VarDeclaration { .. } | AstNode::IfStatement { .. }
            | AstNode::GlobalErrorHandler { .. } | AstNode::ErrorHandlerBlock { .. } | AstNode::WhileLoop { .. }
            | AstNode::ForLoop { .. } => {
                self.write_statement_node(out)
            },
            _ => {
                self.write_leaf_node(out)
            },
        }
    }

    /// Appends the text of a node that holds a list to `out`.
    #[verifier::spinoff_prover]
    #[verifier::rlimit(100)]
    fn write_list_node(&self, out: &mut String)
        requires
            self is Program || self is Block,
        ensures
            final(out)@ == old(out)@ + ast_display(self@),
        decreases self, 0int,
    {
        let ghost start = out@;
        match self {
            AstNode::Program(v) => {
                proof {
                    lemma_list_view(*v);
                }
                out.append("Program:\n");
                let ghost vs = asts_view(v@);
                let ghost mid = out@;
                let mut i: usize = 0;
                while i < v.len()
                    invariant
                        i <= v.len(),
                        vs == asts_view(v@),
                        *self == AstNode::Program(*v),
                        out@ == mid + program_lines(vs.subrange(0, i as int)),
                    decreases v.len() - i,
                {
                    out.append("  Маршрут ");
                    push_decimal(out, i + 1);
                    out.append(": ");
                    proof {
                        assert(decreases_to!(*self => self->Program_0));
                        assert(decreases_to!(*v => v@));
                        assert(decreases_to!(v@ => v@[i as int]));
                    }
                    v[i].write_display(out);
                    proof {
                        assert(vs.subrange(0, i + 1).subrange(0, i as int) =~= vs.subrange(0, i as int));
                    }
                    i = i + 1;
                }
                proof {
                    assert(vs.subrange(0, v.len() as int) =~= vs);
                }
            },
            AstNode::Block(v) => {
                proof {
                    lemma_list_view(*v);
                }
                out.append("{\n");
                let ghost vs = asts_view(v@);
                let ghost mid = out@;
                let mut i: usize = 0;
                while i < v.len()
                    invariant
                        i <= v.len(),
                        vs == asts_view(v@),
                        *self == AstNode::Block(*v),
                        out@ == mid + block_lines(vs.subrange(0, i as int)),
                    decreases v.len() - i,
                {
                    out.append("    ");
                    proof {
                        assert(decreases_to!(*self => self->Block_0));
                        assert(decreases_to!(*v => v@));
                        assert(decreases_to!(v@ => v@[i as int]));
                    }
                    v[i].write_display(out);
                    proof {
                        assert(vs.subrange(0, i + 1).subrange(0, i as int) =~= vs.subrange(0, i as int));
                    }
                    i = i + 1;
                }
                proof {
                    assert(vs.subrange(0, v.len() as int) =~= vs);
                }
                out.append("}");
            },
            _ => {},
        }
        proof {
            assert(out@ =~= start + ast_display(self@));
        }
    }

    /// Appends the text of a call or of a server's settings to `out`.
    #[verifier::spinoff_prover]
    #[verifier::rlimit(100)]
    fn write_call_or_server(&self, out: &mut String)
        requires
            self is FunctionCall || self is ServerConfig,
        ensures
            final(out)@ == old(out)@ + ast_display(self@),
        decreases self, 0int,
    {
        let ghost start = out@;
        match self {
            AstNode::FunctionCall { object, name, args, try_operator, unwrap_operator } => {
                match object {
                    Some(o) => {
                        o.write_display(out);
                        out.append(".");
                    },
                    None => {},
                }
                out.append(name.as_str());
                out.append("(");
                let ghost vs = asts_view(args@);
                proof {
                    assert(self@->FunctionCall_args =~= vs);
                }
                let ghost mid = out@;
                let mut i: usize = 0;
                while i < args.len()
                    invariant
                        i <= args.len(),
                        vs == asts_view(args@),
                        *self == (AstNode::FunctionCall { object: *object, name: *name, args: *args, try_operator: *try_operator, unwrap_operator: *unwrap_operator }),
                        out@ == mid + joined_args(vs.subrange(0, i as int)),
                    decreases args.len() - i,
                {
                    if i > 0 {
                        out.append(", ");
                    }
                    proof {
                        assert(decreases_to!(*self => self->FunctionCall_args));
                        assert(decreases_to!(*args => args@));
                        assert(decreases_to!(args@ => args@[i as int]));
                    }
                    args[i].write_display(out);
                    proof {
                        assert(vs.subrange(0, i + 1).subrange(0, i as int) =~= vs.subrange(0, i as int));
                        if i == 0 {
                            assert(vs.subrange(0, 0) =~= Seq::<SpecAst>::empty());
                        }
                    }
                    i = i + 1;
                }
                proof {
                    assert(vs.subrange(0, args.len() as int) =~= vs);
                }
                if *try_operator && !*unwrap_operator {
                    out.append(")?");
                } else if !*try_operator && *unwrap_operator {
                    out.append(")!!");
                } else if !*try_operator && !*unwrap_operator {
                    out.append(")");
                } else {
                    out.append(")!!?");
                }
            },
            AstNode::ServerConfig { routes, tls_config, global_error_handler, config_block } => {
                out.append("Server Configuration: {\n");
                match tls_config {
                    Some(x) => {
                        out.append("  ");
                        x.write_display(out);
                        out.append("\n");
                    },
                    None => {},
                }
                match global_error_handler {
                    Some(x) => {
                        out.append("  ");
                        x.write_display(out);
                        out.append("\n");
                    },
                    None => {},
                }
                match config_block {
                    Some(x) => {
                        out.append("  ");
                        x.write_display(out);
                        out.append("\n");
                    },
                    None => {},
                }
                let ghost vs = asts_view(routes@);
                proof {
                    assert(self@->ServerConfig_routes =~= vs);
                }
                let ghost mid = out@;
                let mut i: usize = 0;
                while i < routes.len()
                    invariant
                        i <= routes.len(),
                        vs == asts_view(routes@),
                        *self == (AstNode::ServerConfig { routes: *routes, tls_config: *tls_config, global_error_handler: *global_error_handler, config_block: *config_block }),
                        out@ == mid + route_lines(vs.subrange(0, i as int)),
                    decreases routes.len() - i,
                {
                    out.append("  ");
                    proof {
                        assert(decreases_to!(*self => self->ServerConfig_routes));
                        assert(decreases_to!(*routes => routes@));
                        assert(decreases_to!(routes@ => routes@[i as int]));
                    }
                    routes[i].write_display(out);
                    out.append("\n");
                    proof {
                        assert(vs.subrange(0, i + 1).subrange(0, i as int) =~= vs.subrange(0, i as int));
                    }
                    i = i + 1;
                }
                proof {
                    assert(vs.subrange(0, routes.len() as int) =~= vs);
                }
                out.append("}\n");
            },
            _ => {},
        }
        proof {
            assert(out@ =~= start + ast_display(self@));
        }
    }

    /// Appends the text of a statement-like node to `out`.
    #[verifier::spinoff_prover]
    #[verifier::rlimit(100)]
    fn write_statement_node(&self, out: &mut String)
        requires
            self is Route || self is VarDeclaration || self is IfStatement || self is GlobalErrorHandler || self is ErrorHandlerBlock || self is WhileLoop || self is ForLoop,
        ensures
            final(out)@ == old(out)@ + ast_display(self@),
        decreases self, 0int,
    {
        let ghost start = out@;
        match self {
            AstNode::Route { path, method, body, on_error } => {
                out.append("Маршрут: ");
                out.append(method.as_str());
                out.append(" ");
                out.append(path.as_str());
                out.append(" ");
                body.write_display(out);
                match on_error {
                    Some(e) => {
                        out.append(" ");
                        e.write_display(out);
                    },
                    None => {},
                }
                out.append("\n");
            },
            AstNode::VarDeclaration { name, value } => {
                out.append("val ");
                out.append(name.as_str());
                out.append(" = ");
                value.write_display(out);
                out.append(";\n");
            },
            AstNode::IfStatement { condition, then_branch, else_branch } => {
                out.append("if (");
                condition.write_display(out);
                out.append(") ");
                then_branch.write_display(out);
                match else_branch {
                    Some(e) => {
                        out.append(" else ");
                        e.write_display(out);
                    },
                    None => {},
                }
                out.append("\n");
            },
            AstNode::GlobalErrorHandler { error_var, body } => {
                out.append("Global Error Handler(");
                out.append(error_var.as_str());
                out.append("): {\n");
                out.append("   ");
                body.write_display(out);
                out.append("\n");
                out.append("}\n");
            },
            AstNode::ErrorHandlerBlock { error_var, body } => {
                out.append("Error Handler Block(");
                out.append(error_var.as_str());
                out.append("): {\n");
                out.append("   ");
                body.write_display(out);
                out.append("\n");
                out.append("}\n");
            },
            AstNode::WhileLoop { condition, body } => {
                out.append("while ");
                condition.write_display(out);
                out.append("\n");
            },
            AstNode::ForLoop { var_name, iterable, body } => {
                out.append("for ");
                out.append(var_name.as_str());
                out.append(" in ");
                iterable.write_display(out);
                out.append("\n");
            },
            _ => {},
        }
        proof {
            assert(out@ =~= start + ast_display(self@));
        }
    }

    /// Appends the text of any other node to `out`.
    #[verifier::spinoff_prover]
    #[verifier::rlimit(100)]
    fn write_leaf_node(&self, out: &mut String)
        requires
            self is PropertyAccess || self is StringLiteral || self is NumberLiteral || self is ArrayLiteral || self is ArrayAccess || self is Identifier || self is BinaryOp || self is TlsConfig || self is ConfigBlock || self is Import,
        ensures
            final(out)@ == old(out)@ + ast_display(self@),
        decreases self, 0int,
    {
        let ghost start = out@;
        match self {
            AstNode::PropertyAccess { object, property } => {
                object.write_display(out);
                out.append(".");
                out.append(property.as_str());
            },
            AstNode::StringLiteral(v) => {
                out.append("\"");
                out.append(v.as_str());
                out.append("\"");
            },
            AstNode::NumberLiteral(v) => {
                push_decimal_i64(out, *v);
            },
            AstNode::ArrayLiteral(v) => {
                out.append("[");
                let d = nodes_debug(v);
                out.append(d.as_str());
                out.append("]");
                proof {
                    lemma_list_view(*v);
                }
            },
            AstNode::ArrayAccess { array, index } => {
                array.write_display(out);
                out.append("[");
                index.write_display(out);
                out.append("]");
            },
            AstNode::Identifier(v) => {
                out.append(v.as_str());
            },
            AstNode::BinaryOp { left, operator, right } => {
                left.write_display(out);
                out.append(" ");
                out.append(operator.as_str());
                out.append(" ");
                right.write_display(out);
            },
            AstNode::TlsConfig { enabled, cert_path, key_path } => {
                out.append("TLS Configuration: {\n");
                out.append("  enabled: ");
                push_bool(out, *enabled);
                out.append("\n");
                out.append("  cert_path: \"");
                out.append(cert_path.as_str());
                out.append("\"\n");
                out.append("  key_path: \"");
                out.append(key_path.as_str());
                out.append("\"\n");
                out.append("}\n");
            },
            AstNode::ConfigBlock { config_type, host, port } => {
                out.append("Config: {\n");
                out.append("   type: \"");
                out.append(config_type.as_str());
                out.append("\"\n");
                out.append("   host: \"");
                out.append(host.as_str());
                out.append("\"\n");
                out.append("   port: ");
                out.append(port.as_str());
                out.append("\n");
                out.append("}\n");
            },
            AstNode::Import { path, alias } => {
                out.append("import \"");
                out.append(path.as_str());
                out.append("\" as ");
                out.append(alias.as_str());
                out.append("\n");
            },
            _ => {},
        }
        proof {
            assert(out@ =~= start + ast_display(self@));
        }
    }
}

/// What the derived `Debug` formatting writes for a node.
pub uninterp spec fn node_debug_text(n: SpecAst) -> Seq<char>;

/// Formats a node with its derived `Debug` formatting (`format!("{:?}")`);
/// the result is the named text of its view.
#[verifier::external_body]
pub fn node_debug(n: &AstNode) -> (r: String)
    ensures
        r@ == node_debug_text(n@),
{
    format!("{:?}", n)
}

} // verus!
