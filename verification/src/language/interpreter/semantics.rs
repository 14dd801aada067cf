use vstd::prelude::*;
use crate::language::text::{int_decimal, bool_text, decimal_chars, decimal_value};
use crate::language::parser::is_u16_text;
use crate::cesium::sdk::utf8;
use super::{SpecAction, database_get, lookup_or_empty};
use super::builtin::request::{HttpBodyVariant, body_text, body_base64};
use super::builtin::response::sent_headers;

verus! {

/// What a plugin's dispatcher answered: its raw reply, or an error text.
pub type Reply = Result<Seq<char>, Seq<char>>;

/// The request as routes read it.
pub struct ReqV {
    pub params: Map<Seq<char>, Seq<char>>,
    pub headers: Map<Seq<char>, Seq<char>>,
    pub body: HttpBodyVariant,
}

/// The response as routes build it.
pub struct RespV {
    pub status: u16,
    pub headers: Map<Seq<char>, Seq<char>>,
    pub body: Option<Seq<char>>,
    pub is_sent: bool,
}

/// What stays fixed while a route runs: the request, the loaded plugins
/// and the replies their dispatchers give, in the order they are asked.
pub struct Env {
    pub req: ReqV,
    pub plugins: Seq<Seq<char>>,
    pub replies: Seq<Reply>,
}

/// What a route asked a plugin's dispatcher: the plugin's alias, the
/// function's name and the JSON array of the arguments.
pub type Asked = (Seq<char>, Seq<char>, Seq<char>);

/// What changes while a route runs: the response, the variables and what
/// has been asked of the plugins' dispatchers so far, in order (the
/// `i`-th question gets the `i`-th reply).
pub struct St {
    pub resp: RespV,
    pub vars: Map<Seq<char>, Seq<char>>,
    pub asked: Seq<Asked>,
}

/// How an action ends: normally, with an error, or with the panic the
/// unwrap operator `!!` causes on an error.
pub enum Flow {
    Done,
    Fail(Seq<char>),
    Panic(Seq<char>),
}

/// The result of evaluating an expression.
pub type Res = Result<Seq<char>, Seq<char>>;

/// The JSON text of a string, escaped as `serde_json` writes it.
pub open spec fn json_char(c: char) -> Seq<char> {
    if c == '"' {
        "\\\""@
    } else if c == '\\' {
        "\\\\"@
    } else if c == '\u{8}' {
        "\\b"@
    } else if c == '\u{c}' {
        "\\f"@
    } else if c == '\n' {
        "\\n"@
    } else if c == '\r' {
        "\\r"@
    } else if c == '\t' {
        "\\t"@
    } else if (c as u32) < 0x20 {
        "\\u00"@ + seq![hex_digit((c as u32) / 16), hex_digit((c as u32) % 16)]
    } else {
        seq![c]
    }
}

/// A lowercase hexadecimal digit.
pub open spec fn hex_digit(v: u32) -> char {
    if v < 10 { (('0' as u32) + v) as char } else { (('a' as u32) + v - 10) as char }
}

/// The escaped characters of a string.
pub open spec fn json_chars(s: Seq<char>) -> Seq<char>
    decreases s.len(),
{
    if s.len() == 0 {
        Seq::empty()
    } else {
        json_chars(s.drop_last()) + json_char(s.last())
    }
}

/// The JSON text of a string.
pub open spec fn json_string(s: Seq<char>) -> Seq<char> {
    seq!['"'] + json_chars(s) + seq!['"']
}

/// The elements of a JSON array of strings, separated by commas.
pub open spec fn json_items(v: Seq<Seq<char>>) -> Seq<char>
    decreases v.len(),
{
    if v.len() == 0 {
        Seq::empty()
    } else if v.len() == 1 {
        json_string(v[0])
    } else {
        json_items(v.drop_last()) + seq![','] + json_string(v.last())
    }
}

/// The compact JSON array of strings `serde_json::to_string` writes.
pub open spec fn json_array(v: Seq<Seq<char>>) -> Seq<char> {
    seq!['['] + json_items(v) + seq![']']
}

/// The index of the first NUL character of `s`, if any.
#[verifier::opaque]
pub open spec fn first_nul(s: Seq<char>) -> Option<int> {
    if exists|i: int| 0 <= i < s.len() && s[i] == '\0' {
        Some(choose|i: int| 0 <= i < s.len() && s[i] == '\0' && forall|j: int| 0 <= j < i ==> s[j] != '\0')
    } else {
        None
    }
}

/// What `CString::new` reports for text with a NUL at character `i`: the
/// byte position of that NUL.
pub open spec fn nul_error(s: Seq<char>, i: int) -> Seq<char> {
    "nul byte found in provided data at position: "@ + decimal_chars(utf8(s.subrange(0, i)).len())
}

/// What a dispatcher's raw reply means: `OK:` before a result, `ERR:`
/// before an error; anything else is an error of the reply's format.
pub open spec fn reply_result(alias: Seq<char>, name: Seq<char>, s: Seq<char>) -> Res {
    if s.len() >= 3 && s.subrange(0, 3) == "OK:"@ {
        Ok(s.subrange(3, s.len() as int))
    } else if s.len() >= 4 && s.subrange(0, 4) == "ERR:"@ {
        Err(s.subrange(4, s.len() as int))
    } else {
        Err("Неверный формат ответа от диспетчера плагина "@ + alias + " (вызов "@ + name
            + "): нет префикса 'OK:' или 'ERR:'"@)
    }
}

/// A call of plugin `alias`'s function `name` with the evaluated
/// arguments `vals`: the name and the JSON of the arguments must be free
/// of NUL characters; then the dispatcher is asked for the alias, the name
/// and that JSON, and its next reply is used.
pub open spec fn plugin_call(e: Env, alias: Seq<char>, name: Seq<char>, vals: Seq<Seq<char>>, s: St) -> (Res, St) {
    let json = json_array(vals);
    match first_nul(name) {
        Some(i) => (Err("Ошибка создания CString для имени функции "@ + alias + "::"@ + name + ": "@ + nul_error(name, i)), s),
        None => match first_nul(json) {
            Some(i) => (Err("Ошибка создания CString для аргументов "@ + alias + "::"@ + name + ": "@ + nul_error(json, i)), s),
            None => {
                let k = s.asked.len();
                let s2 = St { asked: s.asked.push((alias, name, json)), ..s };
                if k < e.replies.len() {
                    match e.replies[k as int] {
                        Err(m) => (Err(m), s2),
                        Ok(raw) => (reply_result(alias, name, raw), s2),
                    }
                } else {
                    (Err(Seq::empty()), s2)
                }
            },
        },
    }
}

/// Evaluates an expression.
pub open spec fn ev(e: Env, a: SpecAction, s: St) -> (Res, St)
    decreases a, 0int,
{
    match a {
        SpecAction::StringLiteral(v) => (Ok(v), s),
        SpecAction::NumberLiteral(v) => (Ok(int_decimal(v as int)), s),
        SpecAction::Identifier(name) => (ident_value(e.plugins, s.vars, name), s),
        SpecAction::FunctionCall { object, name, args, .. } => call(e, object, name, args, s),
        SpecAction::BinaryOp { left, operator, right } => {
            let (l, s1) = ev(e, *left, s);
            match l {
                Err(m) => (Err(m), s1),
                Ok(lv) => {
                    let (r, s2) = ev(e, *right, s1);
                    match r {
                        Err(m) => (Err(m), s2),
                        Ok(rv) => (binary_value(operator, lv, rv), s2),
                    }
                },
            }
        },
        SpecAction::PropertyAccess { object, property } => {
            let (o, s1) = ev(e, *object, s);
            match o {
                Err(m) => (Err(m), s1),
                Ok(v) => (Err("Доступ к свойству '"@ + v + "."@ + property + "' не реализован"@), s1),
            }
        },
        SpecAction::VarDeclaration(..) => (Err("Объявление переменной не может быть использовано как выражение"@), s),
        SpecAction::Condition { .. } => (Err("Условие if не может быть использовано как выражение"@), s),
        SpecAction::Error(m) => (Err(m), s),
    }
}

/// The value of a name: a variable, a built-in object's name, a loaded
/// plugin's alias, or an error.
pub open spec fn ident_value(plugins: Seq<Seq<char>>, vars: Map<Seq<char>, Seq<char>>, name: Seq<char>) -> Res {
    if vars.dom().contains(name) {
        Ok(vars[name])
    } else if name == "Request"@ || name == "Response"@ || name == "Database"@ || plugins.contains(name) {
        Ok(name)
    } else {
        Err("Переменная, объект или плагин '"@ + name + "' не найден"@)
    }
}

/// The value of a binary operation on two values.
pub open spec fn binary_value(op: Seq<char>, l: Seq<char>, r: Seq<char>) -> Res {
    if op == "=="@ {
        Ok(bool_text(l == r))
    } else if op == "!="@ {
        Ok(bool_text(l != r))
    } else if op == "+"@ {
        Ok(l + r)
    } else if op == "+="@ {
        Err("Оператор '+=' не может быть использован как выражение"@)
    } else {
        Err("Неподдерживаемый бинарный оператор в выражении: "@ + op)
    }
}

/// Evaluates arguments from the first on; the first error stops.
pub open spec fn ev_all(e: Env, args: Seq<SpecAction>, s: St) -> (Result<Seq<Seq<char>>, Seq<char>>, St)
    decreases args, 1int,
{
    if args.len() == 0 {
        (Ok(Seq::empty()), s)
    } else {
        let (r0, s1) = ev(e, args[0], s);
        match r0 {
            Err(m) => (Err(m), s1),
            Ok(v) => {
                let (rr, s2) = ev_all(e, args.subrange(1, args.len() as int), s1);
                match rr {
                    Err(m) => (Err(m), s2),
                    Ok(vs) => (Ok(seq![v] + vs), s2),
                }
            },
        }
    }
}

/// A call of a function, a method or a plugin function.
pub open spec fn call(e: Env, object: Option<Seq<char>>, name: Seq<char>, args: Seq<SpecAction>, s: St) -> (Res, St)
    decreases args, 2int,
{
    match object {
        Some(alias) => if e.plugins.contains(alias) {
            let (r, s1) = ev_all(e, args, s);
            match r {
                Err(m) => (Err(m), s1),
                Ok(vals) => plugin_call(e, alias, name, vals, s1),
            }
        } else if s.vars.dom().contains(alias) {
            (Err("Вызов методов у переменных ('"@ + alias + "') пока не поддерживается"@), s)
        } else if alias == "Database"@ {
            database_call(e, name, args, s)
        } else if alias == "Response"@ {
            response_call(e, name, args, s)
        } else if alias == "Request"@ {
            request_call(e, name, args, s)
        } else {
            (Err("Объект или плагин не найден: "@ + alias), s)
        },
        None => if name == "log_error"@ || name == "log_info"@ || name == "log_trace"@ {
            if args.len() == 1 {
                let (r, s1) = ev(e, args[0], s);
                match r {
                    Err(m) => (Err(m), s1),
                    Ok(_) => (Ok(Seq::empty()), s1),
                }
            } else {
                (Err("Функция "@ + name + " требует 1 аргумент"@), s)
            }
        } else {
            (Err("Глобальная функция не найдена: "@ + name), s)
        },
    }
}

/// A method of the built-in database.
pub open spec fn database_call(e: Env, name: Seq<char>, args: Seq<SpecAction>, s: St) -> (Res, St)
    decreases args, 1int,
{
    if name == "get_all"@ {
        (Ok("[{\"id\": 1, \"name\": \"User1\"}, {\"id\": 2, \"name\": \"User2\"}]"@), s)
    } else if name == "check"@ {
        (Ok("true"@), s)
    } else if name == "get"@ {
        if args.len() == 1 {
            let (r, s1) = ev(e, args[0], s);
            match r {
                Err(m) => (Err(m), s1),
                Ok(id) => (database_get(id), s1),
            }
        } else {
            (Err("Метод Database.get требует 1 аргумент"@), s)
        }
    } else if name == "add"@ {
        if args.len() >= 3 {
            let (r0, s1) = ev(e, args[0], s);
            match r0 {
                Err(m) => (Err(m), s1),
                Ok(_) => {
                    let (r1, s2) = ev(e, args[1], s1);
                    match r1 {
                        Err(m) => (Err(m), s2),
                        Ok(_) => {
                            let (r2, s3) = ev(e, args[2], s2);
                            match r2 {
                                Err(m) => (Err(m), s3),
                                Ok(_) => (Ok("OK"@), s3),
                            }
                        },
                    }
                },
            }
        } else {
            (Err("Метод Database.add требует 3 аргумента"@), s)
        }
    } else {
        (Err("Метод не найден: Database."@ + name), s)
    }
}

/// The status a status text stands for, as `u16` parsing reads it.
pub open spec fn status_value(t: Seq<char>) -> u16 {
    decimal_value(crate::language::parser::sign_stripped(t)) as u16
}

/// A method of the response.
pub open spec fn response_call(e: Env, name: Seq<char>, args: Seq<SpecAction>, s: St) -> (Res, St)
    decreases args, 1int,
{
    if name == "body"@ {
        if args.len() == 1 {
            let (r, s1) = ev(e, args[0], s);
            match r {
                Err(m) => (Err(m), s1),
                Ok(c) => (Ok(c), St { resp: RespV { body: Some(c), ..s1.resp }, ..s1 }),
            }
        } else {
            (Err("Метод Response.body требует 1 аргумент"@), s)
        }
    } else if name == "send"@ {
        (
            Ok(Seq::empty()),
            St {
                resp: RespV { is_sent: true, headers: sent_headers(s.resp.headers, s.resp.body is Some), ..s.resp },
                ..s
            },
        )
    } else if name == "status"@ {
        if args.len() == 1 {
            let (r, s1) = ev(e, args[0], s);
            match r {
                Err(m) => (Err(m), s1),
                Ok(t) => if is_u16_text(t) {
                    (
                        Ok(decimal_chars(status_value(t) as nat)),
                        St { resp: RespV { status: status_value(t), ..s1.resp }, ..s1 },
                    )
                } else {
                    (Err("Неверный статус код: "@ + t), s1)
                },
            }
        } else {
            (Err("Метод Response.status требует 1 аргумент"@), s)
        }
    } else if name == "headers"@ {
        if args.len() == 2 {
            let (r0, s1) = ev(e, args[0], s);
            match r0 {
                Err(m) => (Err(m), s1),
                Ok(hn) => {
                    let (r1, s2) = ev(e, args[1], s1);
                    match r1 {
                        Err(m) => (Err(m), s2),
                        Ok(hv) => (
                            Ok(hn + ": "@ + hv),
                            St { resp: RespV { headers: s2.resp.headers.insert(hn, hv), ..s2.resp }, ..s2 },
                        ),
                    }
                },
            }
        } else {
            (Err("Метод Response.headers требует 2 аргумента"@), s)
        }
    } else {
        (Err("Метод не найден: Response."@ + name), s)
    }
}

/// A method of the request.
pub open spec fn request_call(e: Env, name: Seq<char>, args: Seq<SpecAction>, s: St) -> (Res, St)
    decreases args, 1int,
{
    if name == "get_params"@ || name == "get_param"@ {
        if args.len() == 1 {
            let (r, s1) = ev(e, args[0], s);
            match r {
                Err(m) => (Err(m), s1),
                Ok(p) => (Ok(lookup_or_empty(e.req.params, p)), s1),
            }
        } else {
            (Err("Метод Request.get_params требует 1 аргумент"@), s)
        }
    } else if name == "get_header"@ {
        if args.len() == 1 {
            let (r, s1) = ev(e, args[0], s);
            match r {
                Err(m) => (Err(m), s1),
                Ok(h) => (Ok(lookup_or_empty(e.req.headers, h)), s1),
            }
        } else {
            (Err("Метод Request.get_header требует 1 аргумент"@), s)
        }
    } else if name == "body"@ || name == "text_body"@ {
        if args.len() == 0 {
            (Ok(body_text(e.req.body)), s)
        } else {
            (Err("Метод Request."@ + name + " не принимает аргументы"@), s)
        }
    } else if name == "body_base64"@ {
        if args.len() == 0 {
            (Ok(body_base64(e.req.body)), s)
        } else {
            (Err("Метод Request.body_base64 не принимает аргументы"@), s)
        }
    } else if name == "is_binary"@ {
        if args.len() == 0 {
            (Ok(bool_text(e.req.body is Bytes)), s)
        } else {
            (Err("Метод Request.is_binary не принимает аргументов"@), s)
        }
    } else {
        (Err("Метод не найден: Request."@ + name), s)
    }
}

/// Runs an action. Nothing happens once the response has been sent.
pub open spec fn act(e: Env, a: SpecAction, s: St) -> (Flow, St)
    decreases a, 1int,
{
    if s.resp.is_sent {
        (Flow::Done, s)
    } else {
        match a {
            SpecAction::VarDeclaration(name, v) => {
                let (r, s1) = ev(e, *v, s);
                match r {
                    Err(m) => (Flow::Fail(m), s1),
                    Ok(x) => (Flow::Done, St { vars: s1.vars.insert(name, x), ..s1 }),
                }
            },
            SpecAction::FunctionCall { object, name, args, try_operator, unwrap_operator } => {
                let (r, s1) = call(e, object, name, args, s);
                match r {
                    Ok(_) => (Flow::Done, s1),
                    Err(m) => if try_operator {
                        (Flow::Fail(m), s1)
                    } else if unwrap_operator {
                        (Flow::Panic("Ошибка выполнения (unwrap !!): "@ + m), s1)
                    } else {
                        (Flow::Fail(m), s1)
                    },
                }
            },
            SpecAction::Condition { check, then_branch, else_branch } => {
                let (r, s1) = ev(e, *check, s);
                match r {
                    Err(m) => (Flow::Fail(m), s1),
                    Ok(v) => if v == "true"@ || v == "1"@ {
                        acts(e, then_branch, s1)
                    } else {
                        match else_branch {
                            Some(el) => acts(e, el, s1),
                            None => (Flow::Done, s1),
                        }
                    },
                }
            },
            SpecAction::BinaryOp { left, operator, right } => if operator == "+="@ {
                match *left {
                    SpecAction::Identifier(var) => {
                        let (r, s1) = ev(e, *right, s);
                        match r {
                            Err(m) => (Flow::Fail(m), s1),
                            Ok(rv) => if s1.vars.dom().contains(var) {
                                (Flow::Done, St { vars: s1.vars.insert(var, s1.vars[var] + rv), ..s1 })
                            } else {
                                (Flow::Fail("Переменная '"@ + var + "' для '+=' не найдена"@), s1)
                            },
                        }
                    },
                    _ => (Flow::Fail("Оператор '+=' может использоваться только с идентификатором переменной слева"@), s),
                }
            } else {
                let (r, s1) = ev(e, a, s);
                match r {
                    Err(m) => (Flow::Fail(m), s1),
                    Ok(_) => (Flow::Done, s1),
                }
            },
            SpecAction::Error(m) => (Flow::Fail(m), s),
            _ => {
                let (r, s1) = ev(e, a, s);
                match r {
                    Err(m) => (Flow::Fail(m), s1),
                    Ok(_) => (Flow::Done, s1),
                }
            },
        }
    }
}

/// Runs actions in order until one fails or panics or the response is
/// sent.
pub open spec fn acts(e: Env, list: Seq<SpecAction>, s: St) -> (Flow, St)
    decreases list, 0int,
{
    if list.len() == 0 || s.resp.is_sent {
        (Flow::Done, s)
    } else {
        let (f, s1) = act(e, list[0], s);
        match f {
            Flow::Done => acts(e, list.subrange(1, list.len() as int), s1),
            _ => (f, s1),
        }
    }
}

/// Runs an error handler's actions in order; their errors are ignored,
/// a panic stops them. The result is the panic, if any.
pub open spec fn handler_acts(e: Env, list: Seq<SpecAction>, s: St) -> (Option<Seq<char>>, St)
    decreases list.len(),
{
    if list.len() == 0 {
        (None, s)
    } else {
        let (f, s1) = act(e, list[0], s);
        match f {
            Flow::Panic(m) => (Some(m), s1),
            _ => handler_acts(e, list.subrange(1, list.len() as int), s1),
        }
    }
}

/// An error handler as the route runs it.
pub struct HandlerV {
    pub error_var: Seq<char>,
    pub actions: Seq<SpecAction>,
}

/// Runs a route: its actions, then on an error its own error handler, or
/// failing that the global one (each with the error in its variable and
/// the variables as the actions left them), or failing both a `500`
/// response with the error. The result is the panic, if any.
pub open spec fn run_route(e: Env, actions: Seq<SpecAction>, local: Option<HandlerV>, global: Option<HandlerV>, s: St) -> (Option<Seq<char>>, St) {
    let (f, s1) = acts(e, actions, s);
    match f {
        Flow::Done => (None, s1),
        Flow::Panic(m) => (Some(m), s1),
        Flow::Fail(err) => match local {
            Some(h) => {
                let (p, s2) = handler_acts(e, h.actions, St { vars: s1.vars.insert(h.error_var, err), ..s1 });
                (p, St { vars: s1.vars, ..s2 })
            },
            None => match global {
                Some(h) => {
                    let (p, s2) = handler_acts(e, h.actions, St { vars: s1.vars.insert(h.error_var, err), ..s1 });
                    (p, St { vars: s1.vars, ..s2 })
                },
                None => if s1.resp.is_sent {
                    (None, s1)
                } else {
                    let body = "Internal Server Error: "@ + err;
                    (
                        None,
                        St {
                            resp: RespV {
                                status: 500,
                                body: Some(body),
                                is_sent: true,
                                headers: sent_headers(s1.resp.headers, true),
                            },
                            ..s1
                        },
                    )
                },
            },
        },
    }
}

/// Once the response has been sent, the remaining actions of a route
/// change nothing and use no plugin reply.
pub proof fn lemma_sent_response_is_final(e: Env, list: Seq<SpecAction>, s: St)
    requires
        s.resp.is_sent,
    ensures
        acts(e, list, s) == (Flow::Done, s),
        forall|a: SpecAction| #[trigger] act(e, a, s) == (Flow::Done, s),
{
}

/// An error that neither the route's nor the global error handler takes is
/// answered `500` with the error's text, unless the response was already
/// sent.
pub proof fn lemma_unhandled_error_is_500(e: Env, actions: Seq<SpecAction>, s: St)
    requires
        acts(e, actions, s).0 is Fail,
        !acts(e, actions, s).1.resp.is_sent,
    ensures
        ({
            let err = acts(e, actions, s).0->Fail_0;
            let (p, s2) = run_route(e, actions, None, None, s);
            &&& p is None
            &&& s2.resp.status == 500
            &&& s2.resp.body == Some("Internal Server Error: "@ + err)
            &&& s2.resp.is_sent
        }),
{
}

/// A route's own error handler runs with the error in its variable and
/// takes the place of the global one.
pub proof fn lemma_route_handler_first(e: Env, actions: Seq<SpecAction>, local: HandlerV, global: Option<HandlerV>, s: St)
    requires
        acts(e, actions, s).0 is Fail,
    ensures
        ({
            let (f, s1) = acts(e, actions, s);
            let err = f->Fail_0;
            run_route(e, actions, Some(local), global, s)
                == ({
                    let (p, s2) = handler_acts(e, local.actions, St { vars: s1.vars.insert(local.error_var, err), ..s1 });
                    (p, St { vars: s1.vars, ..s2 })
                })
        }),
{
}

} // verus!
