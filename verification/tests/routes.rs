use netter::language::interpreter::builtin::request::HttpBodyVariant;
use netter::language::interpreter::run::{PluginCalls, PluginHost};
use netter::language::interpreter::server::handle_request;
use netter::language::interpreter::{Interpreter, Request, Response, RouteAction, RouteHandler};
use netter::language::parser::parse;
use netter::language::strmap::StrMap;

#[derive(Default)]
struct FakeHost {
    replies: Vec<Result<String, String>>,
    seen: Vec<(String, String, String)>,
    loaded: Vec<(String, String)>,
    refuse_load: Option<String>,
}

impl PluginHost for FakeHost {
    fn dispatch(&mut self, alias: &str, func: &str, args_json: &str) -> Result<String, String> {
        self.seen.push((alias.to_string(), func.to_string(), args_json.to_string()));
        if self.replies.is_empty() {
            Err("no reply".to_string())
        } else {
            self.replies.remove(0)
        }
    }

    fn load(&mut self, alias: &str, path: &str) -> Result<(), String> {
        match &self.refuse_load {
            Some(e) => Err(e.clone()),
            None => {
                self.loaded.push((alias.to_string(), path.to_string()));
                Ok(())
            },
        }
    }
}

fn server(src: &str, host: FakeHost) -> (Interpreter, PluginCalls<FakeHost>) {
    let ast = parse(src).expect("the source parses");
    let mut interp = Interpreter::new();
    let mut calls = PluginCalls::new(host);
    interp.interpret(&ast, &mut calls).expect("the server is configured");
    (interp, calls)
}

fn get(interp: &Interpreter, calls: &mut PluginCalls<FakeHost>, path: &str) -> Result<Response, String> {
    handle_request(interp, "GET", path, StrMap::new(), StrMap::new(), HttpBodyVariant::Empty, calls)
}

#[test]
fn route_with_parameter_answers() {
    let (interp, mut calls) = server(
        r#"route "/hello/{name}" GET { val greeting = "Hello, " + Request.get_params("name"); Response.body(greeting); Response.send(); };"#,
        FakeHost::default(),
    );
    let resp = get(&interp, &mut calls, "/hello/world").unwrap();
    assert_eq!(resp.status, 200);
    assert_eq!(resp.body, Some("Hello, world".to_string()));
    assert!(resp.is_sent);
    assert_eq!(resp.headers.get("Content-Type").map(|s| s.as_str()), Some("text/plain; charset=utf-8"));
}

#[test]
fn unknown_path_is_not_found() {
    let (interp, mut calls) = server(r#"route "/a" GET { Response.send(); };"#, FakeHost::default());
    let resp = get(&interp, &mut calls, "/b").unwrap();
    assert_eq!(resp.status, 404);
    assert_eq!(resp.body, Some("Not Found".to_string()));
    assert_eq!(resp.headers.get("Content-Type").map(|s| s.as_str()), Some("text/plain; charset=utf-8"));
}

#[test]
fn method_must_match() {
    let (interp, mut calls) = server(r#"route "/a" POST { Response.send(); };"#, FakeHost::default());
    let resp = get(&interp, &mut calls, "/a").unwrap();
    assert_eq!(resp.status, 404);
}

#[test]
fn unhandled_error_gives_500() {
    let (interp, mut calls) = server(r#"route "/u" GET { Database.get("0"); };"#, FakeHost::default());
    let resp = get(&interp, &mut calls, "/u").unwrap();
    assert_eq!(resp.status, 500);
    assert_eq!(resp.body, Some("Internal Server Error: Пользователь с id=0 не найден".to_string()));
    assert!(resp.is_sent);
}

#[test]
fn route_error_handler_gets_the_error() {
    let (interp, mut calls) = server(
        r#"route "/u" GET { Database.get("0"); } onError(e) { Response.status("400"); Response.body(e); Response.send(); };"#,
        FakeHost::default(),
    );
    let resp = get(&interp, &mut calls, "/u").unwrap();
    assert_eq!(resp.status, 400);
    assert_eq!(resp.body, Some("Пользователь с id=0 не найден".to_string()));
}

#[test]
fn global_error_handler_is_used_without_a_route_handler() {
    let (interp, mut calls) = server(
        r#"global_error_handler(err) { Response.body("global: " + err); Response.send(); };
           route "/u" GET { Missing.call(); };"#,
        FakeHost::default(),
    );
    let resp = get(&interp, &mut calls, "/u").unwrap();
    assert_eq!(resp.body, Some("global: Объект или плагин не найден: Missing".to_string()));
}

#[test]
fn unwrap_operator_asks_for_a_panic() {
    let (interp, mut calls) = server(r#"route "/u" GET { Database.get("0")!!; };"#, FakeHost::default());
    let r = get(&interp, &mut calls, "/u");
    assert_eq!(r.err(), Some("Ошибка выполнения (unwrap !!): Пользователь с id=0 не найден".to_string()));
}

#[test]
fn plugin_call_passes_json_arguments_and_reads_the_reply() {
    let host = FakeHost { replies: vec![Ok("OK:3".to_string())], ..FakeHost::default() };
    let (interp, mut calls) = server(
        r#"import "libmath.so" as math;
           route "/sum" GET { val r = math.add("1", "a\"b"); Response.body(r); Response.send(); };"#,
        host,
    );
    assert_eq!(calls.host().loaded, vec![("math".to_string(), "libmath.so".to_string())]);
    let resp = get(&interp, &mut calls, "/sum").unwrap();
    assert_eq!(resp.body, Some("3".to_string()));
    assert_eq!(calls.host().seen, vec![("math".to_string(), "add".to_string(), r#"["1","a\"b"]"#.to_string())]);
}

#[test]
fn plugin_error_reply_fails_the_route() {
    let host = FakeHost { replies: vec![Ok("ERR:bad input".to_string())], ..FakeHost::default() };
    let (interp, mut calls) = server(
        r#"import "p.so" as p; route "/x" GET { p.f(); };"#,
        host,
    );
    let resp = get(&interp, &mut calls, "/x").unwrap();
    assert_eq!(resp.body, Some("Internal Server Error: bad input".to_string()));
}

#[test]
fn plugin_reply_without_prefix_is_an_error() {
    let host = FakeHost { replies: vec![Ok("42".to_string())], ..FakeHost::default() };
    let (interp, mut calls) = server(r#"import "p.so" as p; route "/x" GET { p.f(); };"#, host);
    let resp = get(&interp, &mut calls, "/x").unwrap();
    assert_eq!(
        resp.body,
        Some("Internal Server Error: Неверный формат ответа от диспетчера плагина p (вызов f): нет префикса 'OK:' или 'ERR:'".to_string())
    );
}

#[test]
fn failed_plugin_load_stops_configuration() {
    let ast = parse(r#"import "gone.so" as g;"#).unwrap();
    let mut interp = Interpreter::new();
    let mut calls = PluginCalls::new(FakeHost { refuse_load: Some("no such file".to_string()), ..FakeHost::default() });
    let r = interp.interpret(&ast, &mut calls);
    assert_eq!(r, Err("Критическая ошибка: Не удалось загрузить плагин 'g' из gone.so: no such file".to_string()));
}

#[test]
fn invalid_status_is_an_error() {
    let (interp, mut calls) = server(
        r#"route "/s" GET { Response.status("abc"); } onError(e) { Response.body(e); Response.send(); };"#,
        FakeHost::default(),
    );
    let resp = get(&interp, &mut calls, "/s").unwrap();
    assert_eq!(resp.body, Some("Неверный статус код: abc".to_string()));
}

#[test]
fn body_in_base64() {
    let (interp, mut calls) = server(
        r#"route "/b" POST { Response.body(Request.body_base64()); Response.send(); };"#,
        FakeHost::default(),
    );
    let resp = handle_request(&interp, "POST", "/b", StrMap::new(), StrMap::new(), HttpBodyVariant::Text("hello".to_string()), &mut calls).unwrap();
    assert_eq!(resp.body, Some("aGVsbG8=".to_string()));
}

#[test]
fn later_route_with_the_same_key_replaces_the_earlier() {
    let (interp, mut calls) = server(
        r#"route "/r" GET { Response.body("one"); Response.send(); };
           route "/r" GET { Response.body("two"); Response.send(); };"#,
        FakeHost::default(),
    );
    assert_eq!(interp.routes.len(), 1);
    let resp = get(&interp, &mut calls, "/r").unwrap();
    assert_eq!(resp.body, Some("two".to_string()));
}

#[test]
fn condition_picks_a_branch() {
    let (interp, mut calls) = server(
        r#"route "/c" GET { val s = "a" + "b"; if (s == "ab") { Response.body(s); } else { Response.body("no"); } Response.send(); };"#,
        FakeHost::default(),
    );
    let resp = get(&interp, &mut calls, "/c").unwrap();
    assert_eq!(resp.body, Some("ab".to_string()));
}

#[test]
fn append_assign_extends_a_variable() {
    let s = |v: &str| Box::new(RouteAction::StringLiteral(v.to_string()));
    let actions = vec![
        RouteAction::VarDeclaration("s".to_string(), s("a")),
        RouteAction::BinaryOp { left: Box::new(RouteAction::Identifier("s".to_string())), operator: "+=".to_string(), right: s("b") },
        RouteAction::FunctionCall {
            object: Some("Response".to_string()),
            name: "body".to_string(),
            args: vec![Box::new(RouteAction::Identifier("s".to_string()))],
            try_operator: false,
            unwrap_operator: false,
        },
        RouteAction::BinaryOp { left: Box::new(RouteAction::Identifier("t".to_string())), operator: "+=".to_string(), right: s("x") },
    ];
    let handler = RouteHandler::new(actions, None);
    let interp = Interpreter::new();
    let mut calls = PluginCalls::new(FakeHost::default());
    let mut request = Request::new();
    let mut response = Response::new();
    assert_eq!(handler.execute(&mut request, &mut response, &interp, &mut calls), None);
    assert_eq!(response.status, 500);
    assert_eq!(response.body, Some("Internal Server Error: Переменная 't' для '+=' не найдена".to_string()));
}
