pub mod builtin;
pub mod convert;
pub mod semantics;
pub mod run;
pub mod server;
pub mod context;
pub mod values;
pub mod evaluator;
pub mod route_handler;
pub mod executor;
pub mod route_table;

use vstd::prelude::*;
use crate::language::strmap::StrMap;
use crate::language::text::{text, str_eq};
use builtin::request::{HttpBodyVariant, body_text, body_base64, body_encodable, body_text_of, body_base64_of};
use builtin::response::{sent_headers, add_default_content_type};

verus! {

/// An action of a route, as the interpreter runs it.
#[derive(Debug)]
pub enum RouteAction {
    VarDeclaration(String, Box<RouteAction>),
    FunctionCall {
        object: Option<String>,
        name: String,
        args: Vec<Box<RouteAction>>,
        try_operator: bool,
        unwrap_operator: bool,
    },
    Condition {
        check: Box<RouteAction>,
        then_branch: Vec<Box<RouteAction>>,
        else_branch: Option<Vec<Box<RouteAction>>>,
    },
    StringLiteral(String),
    NumberLiteral(i64),
    Identifier(String),
    BinaryOp { left: Box<RouteAction>, operator: String, right: Box<RouteAction> },
    PropertyAccess { object: Box<RouteAction>, property: String },
    Error(String),
}

/// The mathematical view of an action.
pub enum SpecAction {
    VarDeclaration(Seq<char>, Box<SpecAction>),
    FunctionCall {
        object: Option<Seq<char>>,
        name: Seq<char>,
        args: Seq<SpecAction>,
        try_operator: bool,
        unwrap_operator: bool,
    },
    Condition { check: Box<SpecAction>, then_branch: Seq<SpecAction>, else_branch: Option<Seq<SpecAction>> },
    StringLiteral(Seq<char>),
    NumberLiteral(i64),
    Identifier(Seq<char>),
    BinaryOp { left: Box<SpecAction>, operator: Seq<char>, right: Box<SpecAction> },
    PropertyAccess { object: Box<SpecAction>, property: Seq<char> },
    Error(Seq<char>),
}

/// The view of an action.
pub open spec fn action_view(a: RouteAction) -> SpecAction
    decreases a,
{
    match a {
        RouteAction::VarDeclaration(n, v) => SpecAction::VarDeclaration(n@, Box::new(action_view(*v))),
        RouteAction::FunctionCall { object, name, args, try_operator, unwrap_operator } => SpecAction::FunctionCall {
            object: match object {
                Some(o) => Some(o@),
                None => None,
            },
            name: name@,
            args: Seq::new(args.len() as nat, |i: int| if 0 <= i < args.len() { action_view(*args[i]) } else { SpecAction::NumberLiteral(0) }),
            try_operator,
            unwrap_operator,
        },
        RouteAction::Condition { check, then_branch, else_branch } => SpecAction::Condition {
            check: Box::new(action_view(*check)),
            then_branch: Seq::new(
                then_branch.len() as nat,
                |i: int| if 0 <= i < then_branch.len() { action_view(*then_branch[i]) } else { SpecAction::NumberLiteral(0) },
            ),
            else_branch: match else_branch {
                Some(e) => Some(Seq::new(e.len() as nat, |i: int| if 0 <= i < e.len() { action_view(*e[i]) } else { SpecAction::NumberLiteral(0) })),
                None => None,
            },
        },
        RouteAction::StringLiteral(s) => SpecAction::StringLiteral(s@),
        RouteAction::NumberLiteral(n) => SpecAction::NumberLiteral(n),
        RouteAction::Identifier(s) => SpecAction::Identifier(s@),
        RouteAction::BinaryOp { left, operator, right } => SpecAction::BinaryOp {
            left: Box::new(action_view(*left)),
            operator: operator@,
            right: Box::new(action_view(*right)),
        },
        RouteAction::PropertyAccess { object, property } => SpecAction::PropertyAccess {
            object: Box::new(action_view(*object)),
            property: property@,
        },
        RouteAction::Error(s) => SpecAction::Error(s@),
    }
}

impl View for RouteAction {
    type V = SpecAction;

    open spec fn view(&self) -> SpecAction {
        action_view(*self)
    }
}

/// The views of a list of boxed actions.
pub open spec fn actions_view(v: Seq<Box<RouteAction>>) -> Seq<SpecAction> {
    v.map_values(|b: Box<RouteAction>| action_view(*b))
}

/// The views of a list of actions.
pub open spec fn plain_actions_view(v: Seq<RouteAction>) -> Seq<SpecAction> {
    v.map_values(|a: RouteAction| action_view(a))
}

/// The lists inside actions have the views of their elements.
pub proof fn lemma_action_lists(a: RouteAction)
    ensures
        a matches RouteAction::FunctionCall { args, .. } ==> action_view(a)->FunctionCall_args == actions_view(args@),
        a matches RouteAction::Condition { then_branch, .. } ==> action_view(a)->Condition_then_branch == actions_view(then_branch@),
        a matches RouteAction::Condition { else_branch: Some(e), .. } ==> action_view(a)->Condition_else_branch == Some(actions_view(e@)),
{
    match a {
        RouteAction::FunctionCall { args, .. } => {
            assert(action_view(a)->FunctionCall_args =~= actions_view(args@));
        },
        RouteAction::Condition { then_branch, else_branch, .. } => {
            assert(action_view(a)->Condition_then_branch =~= actions_view(then_branch@));
            match else_branch {
                Some(e) => {
                    assert(action_view(a)->Condition_else_branch->Some_0 =~= actions_view(e@));
                },
                None => {},
            }
        },
        _ => {},
    }
}

/// An error handler: the variable that holds the error and the actions.
pub struct ErrorHandler {
    pub error_var: String,
    pub actions: Vec<RouteAction>,
}

/// The `config` block's settings.
#[derive(Debug, Clone)]
pub struct Configuration {
    pub config_type: String,
    pub host: String,
    pub port: String,
}

/// The actions of a route and its own error handler, if any.
pub struct RouteHandler {
    pub actions: Vec<RouteAction>,
    pub error_handler: Option<ErrorHandler>,
}

impl RouteHandler {
    /// A handler with the given actions and error handler.
    pub fn new(actions: Vec<RouteAction>, error_handler: Option<ErrorHandler>) -> (r: RouteHandler)
        ensures
            r.actions == actions,
            r.error_handler == error_handler,
    {
        RouteHandler { actions, error_handler }
    }
}

/// The TLS settings of a server.
#[derive(Debug, Clone)]
pub struct TlsConfig {
    pub enabled: bool,
    pub cert_path: String,
    pub key_path: String,
}

/// A configured server: its routes (route key, path and handler, in the
/// order their keys first appeared), its TLS settings, its global error
/// handler, its `config` block and the aliases of its loaded plugins.
pub struct Interpreter {
    pub routes: Vec<(String, String, RouteHandler)>,
    pub tls_config: Option<TlsConfig>,
    pub global_error_handler: Option<ErrorHandler>,
    pub configuration: Option<Configuration>,
    pub loaded_plugins: Vec<String>,
}

impl Interpreter {
    /// The aliases of the loaded plugins.
    pub open spec fn plugins(&self) -> Seq<Seq<char>> {
        self.loaded_plugins@.map_values(|a: String| a@)
    }

    /// An interpreter with no routes, settings or plugins.
    pub fn new() -> (r: Interpreter)
        ensures
            r.routes@.len() == 0,
            r.tls_config is None,
            r.global_error_handler is None,
            r.configuration is None,
            r.loaded_plugins@.len() == 0,
    {
        Interpreter {
            routes: Vec::new(),
            tls_config: None,
            global_error_handler: None,
            configuration: None,
            loaded_plugins: Vec::new(),
        }
    }

    /// Whether a plugin is loaded under `alias`.
    pub fn has_plugin(&self, alias: &str) -> (r: bool)
        ensures
            r == self.plugins().contains(alias@),
    {
        let n = self.loaded_plugins.len();
        let mut i: usize = 0;
        while i < n
            invariant
                i <= n,
                n == self.loaded_plugins@.len(),
                forall|j: int| 0 <= j < i ==> self.loaded_plugins@[j]@ != alias@,
            decreases n - i,
        {
            if str_eq(self.loaded_plugins[i].as_str(), alias) {
                proof {
                    assert(self.plugins()[i as int] == alias@);
                }
                return true;
            }
            i = i + 1;
        }
        proof {
            if self.plugins().contains(alias@) {
                let j = choose|j: int| 0 <= j < self.plugins().len() && self.plugins()[j] == alias@;
                assert(self.loaded_plugins@[j]@ == alias@);
            }
        }
        false
    }
}

/// An HTTP request as the route interpreter sees it.
pub struct Request {
    pub params: StrMap,
    pub headers: StrMap,
    pub body: HttpBodyVariant,
}

impl Request {
    /// A request with no parameters, no headers and an empty body.
    pub fn new() -> (r: Request)
        ensures
            r.params.wf(),
            r.headers.wf(),
            r.params@ == Map::<Seq<char>, Seq<char>>::empty(),
            r.headers@ == Map::<Seq<char>, Seq<char>>::empty(),
            r.body is Empty,
    {
        Request { params: StrMap::new(), headers: StrMap::new(), body: HttpBodyVariant::Empty }
    }

    /// The value of parameter `name`, or nothing when there is none.
    pub fn get_params(&self, name: &str) -> (r: String)
        requires
            self.params.wf(),
        ensures
            r@ == lookup_or_empty(self.params@, name@),
    {
        match self.params.get(name) {
            Some(v) => v.clone(),
            None => String::new(),
        }
    }

    /// The body as text (see `body_text`).
    pub fn get_body(&self) -> (r: String)
        ensures
            r@ == body_text(self.body),
    {
        body_text_of(&self.body)
    }

    /// The body in base64 (see `body_base64`).
    pub fn get_body_as_base64(&self) -> (r: String)
        requires
            body_encodable(self.body),
        ensures
            r@ == body_base64(self.body),
    {
        body_base64_of(&self.body)
    }

    /// Whether the body is binary.
    pub fn is_body_binary(&self) -> (r: bool)
        ensures
            r == (self.body is Bytes),
    {
        match &self.body {
            HttpBodyVariant::Bytes(_) => true,
            _ => false,
        }
    }
}

/// The value of `k` in `m`, or nothing when there is none.
pub open spec fn lookup_or_empty(m: Map<Seq<char>, Seq<char>>, k: Seq<char>) -> Seq<char> {
    if m.dom().contains(k) { m[k] } else { Seq::empty() }
}

/// An HTTP response being built by a route.
pub struct Response {
    pub status: u16,
    pub headers: StrMap,
    pub body: Option<String>,
    pub is_sent: bool,
}

impl Response {
    /// A response with status 200, no headers, no body, not sent.
    pub fn new() -> (r: Response)
        ensures
            r.status == 200,
            r.headers.wf(),
            r.headers@ == Map::<Seq<char>, Seq<char>>::empty(),
            r.body is None,
            !r.is_sent,
    {
        Response { status: 200, headers: StrMap::new(), body: None, is_sent: false }
    }

    /// Sets the body.
    pub fn body(&mut self, content: String) -> (r: &mut Self)
        ensures
            r.status == old(self).status,
            r.headers == old(self).headers,
            r.body == Some(content),
            r.is_sent == old(self).is_sent,
            *final(self) == *final(r),
    {
        self.body = Some(content);
        self
    }

    /// Marks the response as sent (see `sent_headers`).
    pub fn send(&mut self)
        requires
            old(self).headers.wf(),
        ensures
            final(self).status == old(self).status,
            final(self).headers.wf(),
            final(self).headers@ == sent_headers(old(self).headers@, old(self).body is Some),
            final(self).body == old(self).body,
            final(self).is_sent,
    {
        self.is_sent = true;
        let has_body = self.body.is_some();
        add_default_content_type(&mut self.headers, has_body);
    }

    /// Sets the status.
    pub fn status(&mut self, status: u16)
        ensures
            final(self).status == status,
            final(self).headers == old(self).headers,
            final(self).body == old(self).body,
            final(self).is_sent == old(self).is_sent,
    {
        self.status = status;
    }

    /// Sets a header.
    pub fn set_header(&mut self, key: &str, value: &str) -> (r: &mut Self)
        requires
            old(self).headers.wf(),
        ensures
            r.status == old(self).status,
            r.headers.wf(),
            r.headers@ == old(self).headers@.insert(key@, value@),
            r.body == old(self).body,
            r.is_sent == old(self).is_sent,
            *final(self) == *final(r),
    {
        self.headers.insert(text(key), text(value));
        self
    }
}

/// The answer of the stand-in database to `get` for a user id: an error
/// for `0`, else a JSON object naming the user.
pub open spec fn database_get(user_id: Seq<char>) -> Result<Seq<char>, Seq<char>> {
    if user_id == "0"@ {
        Err("Пользователь с id=0 не найден"@)
    } else {
        Ok("{\"id\": "@ + user_id + ", \"name\": \"User"@ + user_id + "\"}"@)
    }
}

/// The stand-in database of the route language.
pub struct Database {}

impl Database {
    /// All users, as JSON.
    pub fn get_all() -> (r: Result<String, String>)
        ensures
            r matches Ok(s) && s@ == "[{\"id\": 1, \"name\": \"User1\"}, {\"id\": 2, \"name\": \"User2\"}]"@,
    {
        Ok(text("[{\"id\": 1, \"name\": \"User1\"}, {\"id\": 2, \"name\": \"User2\"}]"))
    }

    /// Whether the database is reachable: always.
    pub fn check() -> (r: Result<bool, String>)
        ensures
            r matches Ok(b) && b,
    {
        Ok(true)
    }

    /// The user with the given id (see `database_get`).
    pub fn get(user_id: &str) -> (r: Result<String, String>)
        ensures
            match database_get(user_id@) {
                Ok(s) => r matches Ok(v) && v@ == s,
                Err(m) => r matches Err(e) && e@ == m,
            },
    {
        proof {
            reveal_strlit("0");
        }
        if str_eq(user_id, "0") {
            Err(text("Пользователь с id=0 не найден"))
        } else {
            let mut s = text("{\"id\": ");
            s.append(user_id);
            s.append(", \"name\": \"User");
            s.append(user_id);
            s.append("\"}");
            Ok(s)
        }
    }

    /// Adds a user: always succeeds.
    pub fn add(user_id: &str, name: &str, password_hash: &str) -> (r: Result<(), String>)
        ensures
            r is Ok,
    {
        Ok(())
    }
}

} // verus!
