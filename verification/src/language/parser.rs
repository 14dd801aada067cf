use vstd::prelude::*;
use super::token::{TokenKind, TokenType, Token, SpecToken, SpecTokenType, tokens_view, kind_tag, token_kind_debug,
    kind_debug};
use super::ast::{AstNode, SpecAst, asts_view, ast_view, ast_display, lemma_list_view};
use super::text::{decimal_chars, int_decimal, text, push_decimal, push_decimal_i64};
use super::lexer::{Lexer, LexPos, LexErr, spec_tokenize, lemma_tokenize_ends_with_eof};
use super::error::{ErrorKind, error_text_of};

verus! {

/// The result of reading one piece of syntax at a position: the piece and
/// the position after it, or the text of the error.
pub type PRes<A> = Result<(A, int), Seq<char>>;

/// The token at `p` is the end of the input.
pub open spec fn at_end(t: Seq<SpecToken>, p: int) -> bool {
    t[p].kind is EOF
}

/// The token at `p` is not the end of the input and has the variant of `k`
/// (payloads are not compared). A token that is not the end of the input
/// always has one after it, since the input ends with its end token.
pub open spec fn check(t: Seq<SpecToken>, p: int, k: SpecTokenType) -> bool {
    0 <= p && p + 1 < t.len() && !at_end(t, p) && kind_tag(t[p].kind) == kind_tag(k)
}

/// What the parser appends to an error message about the token at `p`:
/// its kind, line and column.
pub open spec fn found(t: Seq<SpecToken>, p: int) -> Seq<char> {
    ", получено: "@ + token_kind_debug(t[p].kind) + ", строка: "@ + decimal_chars(t[p].line as nat) + ", колонка: "@
        + decimal_chars(t[p].column as nat)
}

/// Reads a token with the variant of `k` at `p`, or fails with `msg`
/// followed by what was found.
pub open spec fn expect(t: Seq<SpecToken>, p: int, k: SpecTokenType, msg: Seq<char>) -> Result<int, Seq<char>> {
    if check(t, p, k) {
        Ok(p + 1)
    } else {
        Err(msg + found(t, p))
    }
}

/// A string kind, for variant checks.
pub open spec fn k_string() -> SpecTokenType {
    TokenKind::String(Seq::empty())
}

/// An identifier kind, for variant checks.
pub open spec fn k_ident() -> SpecTokenType {
    TokenKind::Identifier(Seq::empty())
}

/// An HTTP method kind, for variant checks.
pub open spec fn k_method() -> SpecTokenType {
    TokenKind::HttpMethod(Seq::empty())
}

/// The text payload of a string, identifier, method or comment token.
pub open spec fn payload(k: SpecTokenType) -> Seq<char> {
    match k {
        TokenKind::String(s) => s,
        TokenKind::Identifier(s) => s,
        TokenKind::HttpMethod(s) => s,
        TokenKind::Comment(s) => s,
        _ => Seq::empty(),
    }
}

/// A literal or a name: `primary := Identifier | String | Number`.
pub open spec fn sp_primary(t: Seq<SpecToken>, p: int) -> PRes<SpecAst> {
    if check(t, p, k_ident()) {
        Ok((SpecAst::Identifier(payload(t[p].kind)), p + 1))
    } else if check(t, p, k_string()) {
        Ok((SpecAst::StringLiteral(payload(t[p].kind)), p + 1))
    } else if check(t, p, TokenKind::Number(0)) {
        Ok((SpecAst::NumberLiteral(t[p].kind->Number_0), p + 1))
    } else {
        Err("Ожидается выражение, получено "@ + token_kind_debug(t[p].kind))
    }
}

/// An expression: a comparison.
pub open spec fn sp_expression(t: Seq<SpecToken>, p: int) -> PRes<SpecAst>
    decreases t.len() - p, 5int,
{
    sp_comparison(t, p)
}

/// `comparison := additive (("==" | "!=") additive)*`, left-associative.
pub open spec fn sp_comparison(t: Seq<SpecToken>, p: int) -> PRes<SpecAst>
    decreases t.len() - p, 4int,
{
    match sp_additive(t, p) {
        Err(m) => Err(m),
        Ok((l, q)) => if q <= p || q > t.len() {
            Err(Seq::empty())
        } else {
            sp_cmp_rest(t, q, l)
        },
    }
}

/// The rest of a comparison after its left operand `l`.
pub open spec fn sp_cmp_rest(t: Seq<SpecToken>, q: int, l: SpecAst) -> PRes<SpecAst>
    decreases t.len() - q, 4int,
{
    if 0 <= q < t.len() && (check(t, q, TokenKind::DoubleEquals) || check(t, q, TokenKind::NotEquals)) {
        let op = if check(t, q, TokenKind::DoubleEquals) { "=="@ } else { "!="@ };
        match sp_additive(t, q + 1) {
            Err(m) => Err(m),
            Ok((r, q2)) => if q2 <= q || q2 > t.len() {
                Err(Seq::empty())
            } else {
                sp_cmp_rest(t, q2, SpecAst::BinaryOp { left: Box::new(l), operator: op, right: Box::new(r) })
            },
        }
    } else {
        Ok((l, q))
    }
}

/// `additive := call_chain ("+" call_chain)*`, left-associative.
pub open spec fn sp_additive(t: Seq<SpecToken>, p: int) -> PRes<SpecAst>
    decreases t.len() - p, 3int,
{
    match sp_call_chain(t, p) {
        Err(m) => Err(m),
        Ok((l, q)) => if q <= p || q > t.len() {
            Err(Seq::empty())
        } else {
            sp_add_rest(t, q, l)
        },
    }
}

/// The rest of a sum after its left operand `l`.
pub open spec fn sp_add_rest(t: Seq<SpecToken>, q: int, l: SpecAst) -> PRes<SpecAst>
    decreases t.len() - q, 3int,
{
    if 0 <= q < t.len() && check(t, q, TokenKind::Concatenation) {
        match sp_call_chain(t, q + 1) {
            Err(m) => Err(m),
            Ok((r, q2)) => if q2 <= q || q2 > t.len() {
                Err(Seq::empty())
            } else {
                sp_add_rest(t, q2, SpecAst::BinaryOp { left: Box::new(l), operator: "+"@, right: Box::new(r) })
            },
        }
    } else {
        Ok((l, q))
    }
}

/// A primary followed by any number of `.name`, `.name(args)`,
/// `Plugin::name(args)` and `name(args)` suffixes.
pub open spec fn sp_call_chain(t: Seq<SpecToken>, p: int) -> PRes<SpecAst>
    decreases t.len() - p, 2int,
{
    match sp_primary(t, p) {
        Err(m) => Err(m),
        Ok((e, q)) => if q <= p || q > t.len() {
            Err(Seq::empty())
        } else {
            sp_chain_rest(t, q, e)
        },
    }
}

/// After a call has been read at `r` (with its first markers): a `?` and
/// then a `!!` may follow; when either does, they replace the call's
/// markers. The result is the call and the position after the markers.
pub open spec fn after_call(t: Seq<SpecToken>, r: int, call: SpecAst) -> (SpecAst, int) {
    let tr = check(t, r, TokenKind::TryOperator);
    let r1 = if tr { r + 1 } else { r };
    let un = check(t, r1, TokenKind::UnwrapOperator);
    let r2 = if un { r1 + 1 } else { r1 };
    if tr || un {
        match call {
            SpecAst::FunctionCall { object, name, args, .. } => (
                SpecAst::FunctionCall { object, name, args, try_operator: tr, unwrap_operator: un },
                r2,
            ),
            _ => (call, r2),
        }
    } else {
        (call, r2)
    }
}

/// A call with its markers: reads the arguments at `a` (after the opening
/// parenthesis), then an optional `?` and an optional `!!`, then the
/// markers again (see `after_call`).
pub open spec fn sp_call_suffix(t: Seq<SpecToken>, a: int, object: Option<Box<SpecAst>>, name: Seq<char>) -> PRes<SpecAst>
    decreases t.len() - a, 7int,
{
    match sp_arguments(t, a) {
        Err(m) => Err(m),
        Ok((args, r)) => if r <= a || r > t.len() {
            Err(Seq::empty())
        } else {
            let tr = check(t, r, TokenKind::TryOperator);
            let r1 = if tr { r + 1 } else { r };
            let un = check(t, r1, TokenKind::UnwrapOperator);
            let r2 = if un { r1 + 1 } else { r1 };
            let call = SpecAst::FunctionCall { object, name, args, try_operator: tr, unwrap_operator: un };
            let (c, r3) = after_call(t, r2, call);
            Ok((c, r3))
        },
    }
}

/// The suffixes of a call chain after the expression `e` read so far.
pub open spec fn sp_chain_rest(t: Seq<SpecToken>, q: int, e: SpecAst) -> PRes<SpecAst>
    decreases t.len() - q, 2int,
{
    if !(0 <= q < t.len()) {
        Ok((e, q))
    } else if check(t, q, TokenKind::Dot) {
        match expect(t, q + 1, k_ident(), "Ожидается имя свойства после '.'"@) {
            Err(m) => Err(m),
            Ok(r) => {
                let name = payload(t[q + 1].kind);
                if check(t, r, TokenKind::LParen) {
                    match sp_call_suffix(t, r + 1, Some(Box::new(e)), name) {
                        Err(m) => Err(m),
                        Ok((c, r3)) => if r3 <= q || r3 > t.len() {
                            Err(Seq::empty())
                        } else {
                            sp_chain_rest(t, r3, c)
                        },
                    }
                } else {
                    sp_chain_rest(t, r, SpecAst::PropertyAccess { object: Box::new(e), property: name })
                }
            },
        }
    } else if check(t, q, TokenKind::DoubleColon) {
        match e {
            SpecAst::Identifier(obj) => match expect(t, q + 1, k_ident(), "Ожидается имя функции после '::'"@) {
                Err(m) => Err(m),
                Ok(r) => {
                    let name = payload(t[q + 1].kind);
                    match expect(t, r, TokenKind::LParen, "Ожидается '(' после имени функции плагина"@) {
                        Err(m) => Err(m),
                        Ok(a) => match sp_call_suffix(t, a, Some(Box::new(SpecAst::Identifier(obj))), name) {
                            Err(m) => Err(m),
                            Ok((c, r3)) => if r3 <= q || r3 > t.len() {
                                Err(Seq::empty())
                            } else {
                                sp_chain_rest(t, r3, c)
                            },
                        },
                    }
                },
            },
            _ => Err("Ожидается идентификатор перед '::', получено: "@ + ast_display(e)),
        }
    } else if check(t, q, TokenKind::LParen) {
        match e {
            SpecAst::Identifier(name) => match sp_call_suffix(t, q + 1, None, name) {
                Err(m) => Err(m),
                Ok((c, r3)) => if r3 <= q || r3 > t.len() {
                    Err(Seq::empty())
                } else {
                    sp_chain_rest(t, r3, c)
                },
            },
            _ => Ok((e, q + 1)),
        }
    } else {
        Ok((e, q))
    }
}

/// The arguments of a call after its opening parenthesis, up to and
/// including the closing one: `(expression ("," expression)*)? ")"`.
pub open spec fn sp_arguments(t: Seq<SpecToken>, p: int) -> PRes<Seq<SpecAst>>
    decreases t.len() - p, 6int,
{
    if !check(t, p, TokenKind::RParen) {
        match sp_expression(t, p) {
            Err(m) => Err(m),
            Ok((e, q)) => if q <= p || q > t.len() {
                Err(Seq::empty())
            } else {
                sp_args_rest(t, q, seq![e])
            },
        }
    } else {
        Ok((Seq::empty(), p + 1))
    }
}

/// The rest of an argument list after the arguments `acc`.
pub open spec fn sp_args_rest(t: Seq<SpecToken>, q: int, acc: Seq<SpecAst>) -> PRes<Seq<SpecAst>>
    decreases t.len() - q, 6int,
{
    if 0 <= q < t.len() && check(t, q, TokenKind::Comma) {
        match sp_expression(t, q + 1) {
            Err(m) => Err(m),
            Ok((e, q2)) => if q2 <= q || q2 > t.len() {
                Err(Seq::empty())
            } else {
                sp_args_rest(t, q2, acc.push(e))
            },
        }
    } else {
        match expect(t, q, TokenKind::RParen, "Ожидается ')' после списка аргументов"@) {
            Err(m) => Err(m),
            Ok(r) => Ok((acc, r)),
        }
    }
}

/// A block: `"{" statement* "}"`.
pub open spec fn sp_block(t: Seq<SpecToken>, p: int) -> PRes<SpecAst>
    decreases t.len() - p, 9int,
{
    if !check(t, p, TokenKind::LBrace) {
        Err("Ожидается '{'"@ + found(t, p))
    } else if check(t, p + 1, TokenKind::RBrace) {
        Ok((SpecAst::Block(Seq::empty()), p + 2))
    } else {
        sp_block_rest(t, p + 1, Seq::empty())
    }
}

/// The rest of a block after the statements `acc`.
pub open spec fn sp_block_rest(t: Seq<SpecToken>, q: int, acc: Seq<SpecAst>) -> PRes<SpecAst>
    decreases t.len() - q, 8int,
{
    if 0 <= q < t.len() && !check(t, q, TokenKind::RBrace) && !at_end(t, q) {
        match sp_statement(t, q) {
            Err(m) => Err(m),
            Ok((st, q2)) => if q2 <= q || q2 > t.len() {
                Err(Seq::empty())
            } else {
                sp_block_rest(t, q2, acc.push(st))
            },
        }
    } else if !check(t, q, TokenKind::RBrace) {
        Err("Ожидается '}' после блока кода"@ + found(t, q))
    } else {
        Ok((SpecAst::Block(acc), q + 1))
    }
}

/// A statement: a variable declaration (`val` or `var`), an `if`, or an
/// expression followed by `;`.
pub open spec fn sp_statement(t: Seq<SpecToken>, p: int) -> PRes<SpecAst>
    decreases t.len() - p, 7int,
{
    if check(t, p, TokenKind::Val) || check(t, p, TokenKind::Var) {
        sp_var_declaration(t, p + 1)
    } else if check(t, p, TokenKind::If) {
        sp_if_statement(t, p + 1, true)
    } else {
        sp_expression_statement(t, p)
    }
}

/// `name "=" expression ";"` after `val`.
pub open spec fn sp_var_declaration(t: Seq<SpecToken>, p: int) -> PRes<SpecAst> {
    match expect(t, p, k_ident(), "Ожидается имя переменной"@) {
        Err(m) => Err(m),
        Ok(p1) => match expect(t, p1, TokenKind::Equals, "Ожидается '=' после имени переменной"@) {
            Err(m) => Err(m),
            Ok(p2) => match sp_expression(t, p2) {
                Err(m) => Err(m),
                Ok((v, q)) => match expect(t, q, TokenKind::Semicolon, "Ожидается ';' после объявления переменной"@) {
                    Err(m) => Err(m),
                    Ok(r) => Ok((SpecAst::VarDeclaration { name: payload(t[p].kind), value: Box::new(v) }, r)),
                },
            },
        },
    }
}

/// An expression followed by `;`.
pub open spec fn sp_expression_statement(t: Seq<SpecToken>, p: int) -> PRes<SpecAst> {
    match sp_expression(t, p) {
        Err(m) => Err(m),
        Ok((e, q)) => match expect(t, q, TokenKind::Semicolon, "Ожидается ';' после выражения"@) {
            Err(m) => Err(m),
            Ok(r) => Ok((e, r)),
        },
    }
}

/// The head of an `if` after `if`: `"(" expression ")" block`, giving the
/// condition and the then-branch.
pub open spec fn sp_if_head(t: Seq<SpecToken>, p: int) -> PRes<(SpecAst, SpecAst)>
    decreases t.len() - p, 5int,
{
    match expect(t, p, TokenKind::LParen, "Ожидается '(' после 'if'"@) {
        Err(m) => Err(m),
        Ok(p1) => match sp_expression(t, p1) {
            Err(m) => Err(m),
            Ok((c, q)) => if q <= p || q > t.len() {
                Err(Seq::empty())
            } else {
                match expect(t, q, TokenKind::RParen, "Ожидается ')' после условия"@) {
                    Err(m) => Err(m),
                    Ok(q1) => match sp_block(t, q1) {
                        Err(m) => Err(m),
                        Ok((th, r)) => Ok(((c, th), r)),
                    },
                }
            },
        },
    }
}

/// `"(" expression ")" block ("else" ("if" if-statement | block))?` after
/// `if`; when `outer` holds and there is no `else`, a `;` must follow (an
/// `if` after `else` needs none).
pub open spec fn sp_if_statement(t: Seq<SpecToken>, p: int, outer: bool) -> PRes<SpecAst>
    decreases t.len() - p, 6int,
{
    match sp_if_head(t, p) {
        Err(m) => Err(m),
        Ok(((c, th), r)) => if r <= p || r > t.len() {
            Err(Seq::empty())
        } else {
            sp_if_tail(t, r, c, th, outer)
        },
    }
}

/// What follows the head of an `if` at `r`: an `else` branch, or (when
/// `outer` holds) the closing `;`.
pub open spec fn sp_if_tail(t: Seq<SpecToken>, r: int, c: SpecAst, th: SpecAst, outer: bool) -> PRes<SpecAst>
    decreases t.len() - r, 7int,
{
    if check(t, r, TokenKind::Else) {
        let eb = if check(t, r + 1, TokenKind::If) {
            sp_if_statement(t, r + 2, false)
        } else {
            sp_block(t, r + 1)
        };
        match eb {
            Err(m) => Err(m),
            Ok((e, r2)) => Ok((
                SpecAst::IfStatement { condition: Box::new(c), then_branch: Box::new(th), else_branch: Some(Box::new(e)) },
                r2,
            )),
        }
    } else {
        let node = SpecAst::IfStatement { condition: Box::new(c), then_branch: Box::new(th), else_branch: None };
        if outer {
            match expect(t, r, TokenKind::Semicolon, "Ожидается ';' после оператора if"@) {
                Err(m) => Err(m),
                Ok(r1) => Ok((node, r1)),
            }
        } else {
            Ok((node, r))
        }
    }
}

/// `"(" name ")" block` after `onError`.
pub open spec fn sp_error_handler(t: Seq<SpecToken>, p: int) -> PRes<SpecAst> {
    match expect(t, p, TokenKind::LParen, "Ожидается '(' после 'on_error'"@) {
        Err(m) => Err(m),
        Ok(p1) => match expect(t, p1, k_ident(), "Ожидается имя переменной"@) {
            Err(m) => Err(m),
            Ok(p2) => match expect(t, p2, TokenKind::RParen, "Ожидается ')' после имени переменной ошибки"@) {
                Err(m) => Err(m),
                Ok(p3) => match sp_block(t, p3) {
                    Err(m) => Err(m),
                    Ok((b, q)) => Ok((SpecAst::ErrorHandlerBlock { error_var: payload(t[p1].kind), body: Box::new(b) }, q)),
                },
            },
        },
    }
}

/// The head of a route: `route "<path>" METHOD`, giving the path and the
/// method.
pub open spec fn sp_route_head(t: Seq<SpecToken>, p: int) -> PRes<(Seq<char>, Seq<char>)> {
    match expect(t, p, TokenKind::Route, "Ожидается ключевое слово 'route'"@) {
        Err(m) => Err(m),
        Ok(p1) => match expect(t, p1, k_string(), "Ожидается строка пути маршрута"@) {
            Err(m) => Err(m),
            Ok(p2) => match expect(t, p2, k_method(), "Ожидается HTTP метод"@) {
                Err(m) => Err(m),
                Ok(p3) => Ok(((payload(t[p1].kind), payload(t[p2].kind)), p3)),
            },
        },
    }
}

/// `route "<path>" METHOD block ("onError" error-handler)? ";"`.
pub open spec fn sp_route(t: Seq<SpecToken>, p: int) -> PRes<SpecAst> {
    match sp_route_head(t, p) {
        Err(m) => Err(m),
        Ok(((path, method), p3)) => match sp_block(t, p3) {
            Err(m) => Err(m),
            Ok((b, q)) => {
                let h = if check(t, q, TokenKind::OnError) {
                    match sp_error_handler(t, q + 1) {
                        Err(m) => Err(m),
                        Ok((h, r)) => Ok((Some(Box::new(h)), r)),
                    }
                } else {
                    Ok((None, q))
                };
                match h {
                    Err(m) => Err(m),
                    Ok((on_error, r)) => match expect(t, r, TokenKind::Semicolon, "Ожидается ';' после блока маршрута"@) {
                        Err(m) => Err(m),
                        Ok(r1) => Ok((SpecAst::Route { path, method, body: Box::new(b), on_error }, r1)),
                    },
                }
            },
        },
    }
}

/// `import "<path>" as name ;`.
pub open spec fn sp_import(t: Seq<SpecToken>, p: int) -> PRes<SpecAst> {
    match expect(t, p, TokenKind::Import, "Ожидается ключевое слово 'import'"@) {
        Err(m) => Err(m),
        Ok(p1) => match expect(t, p1, k_string(), "Ожидается строка пути к плагину"@) {
            Err(m) => Err(m),
            Ok(p2) => match expect(t, p2, TokenKind::As, "Ожидается ключевое слово 'as' после пути"@) {
                Err(m) => Err(m),
                Ok(p3) => match expect(t, p3, k_ident(), "Ожидается псевдоним плагина"@) {
                    Err(m) => Err(m),
                    Ok(p4) => match expect(t, p4, TokenKind::Semicolon, "Ожидается ';' после импорта плагина"@) {
                        Err(m) => Err(m),
                        Ok(p5) => Ok((SpecAst::Import { path: payload(t[p1].kind), alias: payload(t[p3].kind) }, p5)),
                    },
                },
            },
        },
    }
}

/// The head of a global error handler: `global_error_handler "(" name ")"`,
/// giving the name.
pub open spec fn sp_handler_head(t: Seq<SpecToken>, p: int) -> PRes<Seq<char>> {
    match expect(t, p, TokenKind::GlobalErrorHandler, "Ожидается ключевое слово 'global_error_handler'"@) {
        Err(m) => Err(m),
        Ok(p1) => match expect(t, p1, TokenKind::LParen, "Ожидается '(' после 'global_error_handler'"@) {
            Err(m) => Err(m),
            Ok(p2) => match expect(t, p2, k_ident(), "Ожидается имя переменной"@) {
                Err(m) => Err(m),
                Ok(p3) => match expect(t, p3, TokenKind::RParen, "Ожидается ')' после имени переменной"@) {
                    Err(m) => Err(m),
                    Ok(p4) => Ok((payload(t[p2].kind), p4)),
                },
            },
        },
    }
}

/// `global_error_handler "(" name ")" block ";"`.
pub open spec fn sp_global_error_handler(t: Seq<SpecToken>, p: int) -> PRes<SpecAst> {
    match sp_handler_head(t, p) {
        Err(m) => Err(m),
        Ok((var, p4)) => match sp_block(t, p4) {
            Err(m) => Err(m),
            Ok((b, q)) => match expect(t, q, TokenKind::Semicolon, "Ожидается ';' после блока глобального обработчика ошибок"@) {
                Err(m) => Err(m),
                Ok(r) => Ok((SpecAst::GlobalErrorHandler { error_var: var, body: Box::new(b) }, r)),
            },
        },
    }
}

/// The settings of a `tls` block read so far.
pub struct TlsFields {
    pub enabled: bool,
    pub cert_path: Seq<char>,
    pub key_path: Seq<char>,
}

/// The entries of a `tls` block from `q` on, up to (not including) the
/// closing brace: `enabled = <name>;` (true only for `true`),
/// `cert_path = "<path>";`, `key_path = "<path>";`.
pub open spec fn sp_tls_fields(t: Seq<SpecToken>, q: int, f: TlsFields) -> PRes<TlsFields>
    decreases t.len() - q,
{
    if !(0 <= q < t.len()) || check(t, q, TokenKind::RBrace) || at_end(t, q) {
        Ok((f, q))
    } else if check(t, q, TokenKind::Enabled) {
        match expect(t, q + 1, TokenKind::Equals, "Ожидается '=' после 'enabled'"@) {
            Err(m) => Err(m),
            Ok(q2) => if check(t, q2, k_ident()) {
                match expect(t, q2 + 1, TokenKind::Semicolon, "Ожидается ';' после значения"@) {
                    Err(m) => Err(m),
                    Ok(q4) => sp_tls_fields(t, q4, TlsFields { enabled: payload(t[q2].kind) == "true"@, ..f }),
                }
            } else {
                Err("Ожидается булево значение (true/false) для enabled"@)
            },
        }
    } else if check(t, q, TokenKind::CertPath) {
        match expect(t, q + 1, TokenKind::Equals, "Ожидается '=' после 'cert_path'"@) {
            Err(m) => Err(m),
            Ok(q2) => if check(t, q2, k_string()) {
                match expect(t, q2 + 1, TokenKind::Semicolon, "Ожидается ';' после значения"@) {
                    Err(m) => Err(m),
                    Ok(q4) => sp_tls_fields(t, q4, TlsFields { cert_path: payload(t[q2].kind), ..f }),
                }
            } else {
                Err("Ожидается строковое значение для cert_path"@)
            },
        }
    } else if check(t, q, TokenKind::KeyPath) {
        match expect(t, q + 1, TokenKind::Equals, "Ожидается '=' после 'key_path'"@) {
            Err(m) => Err(m),
            Ok(q2) => if check(t, q2, k_string()) {
                match expect(t, q2 + 1, TokenKind::Semicolon, "Ожидается ';' после значения"@) {
                    Err(m) => Err(m),
                    Ok(q4) => sp_tls_fields(t, q4, TlsFields { key_path: payload(t[q2].kind), ..f }),
                }
            } else {
                Err("Ожидается строковое значение для key_path"@)
            },
        }
    } else {
        Err("Неизвестный ключ в TLS конфигурации: "@ + token_kind_debug(t[q].kind))
    }
}

/// `tls "{" entries "}" ";"`; unset entries are off and empty.
pub open spec fn sp_tls_config(t: Seq<SpecToken>, p: int) -> PRes<SpecAst> {
    match expect(t, p, TokenKind::Tls, "Ожидается ключевое слово 'tls'"@) {
        Err(m) => Err(m),
        Ok(p1) => match expect(t, p1, TokenKind::LBrace, "Ожидается '{' после 'tls'"@) {
            Err(m) => Err(m),
            Ok(p2) => match sp_tls_fields(t, p2, TlsFields { enabled: false, cert_path: Seq::empty(), key_path: Seq::empty() }) {
                Err(m) => Err(m),
                Ok((f, q)) => match expect(t, q, TokenKind::RBrace, "Ожидается '}' после TLS конфигурации"@) {
                    Err(m) => Err(m),
                    Ok(q1) => match expect(t, q1, TokenKind::Semicolon, "Ожидается ';' после блока TLS конфигурации"@) {
                        Err(m) => Err(m),
                        Ok(q2) => Ok((SpecAst::TlsConfig { enabled: f.enabled, cert_path: f.cert_path, key_path: f.key_path }, q2)),
                    },
                },
            },
        },
    }
}

/// The settings of a `config` block read so far.
pub struct ConfigFields {
    pub config_type: Seq<char>,
    pub host: Seq<char>,
    pub port: Seq<char>,
}

/// The value token of a `config` entry whose `=` is at `q - 1`, and the
/// position after it: the parser takes the token at `q` unless that is the
/// end of the input, in which case it takes the `=` again and stays.
pub open spec fn value_token(t: Seq<SpecToken>, q: int) -> (SpecToken, int) {
    if at_end(t, q) {
        (t[q - 1], q)
    } else {
        (t[q], q + 1)
    }
}

/// The value of a `type` or `host` entry: a string or a name.
pub open spec fn name_value(k: SpecTokenType) -> Option<Seq<char>> {
    match k {
        TokenKind::String(v) => Some(v),
        TokenKind::Identifier(v) => Some(v),
        _ => None,
    }
}

/// The value of a `port` entry: a string, a number (its decimal text) or a
/// name.
pub open spec fn port_value(k: SpecTokenType) -> Option<Seq<char>> {
    match k {
        TokenKind::String(v) => Some(v),
        TokenKind::Number(n) => Some(int_decimal(n as int)),
        TokenKind::Identifier(v) => Some(v),
        _ => None,
    }
}

/// The entries of a `config` block from `q` on, up to (not including) the
/// closing brace: `type = <value>;`, `host = <value>;`, `port = <value>;`.
pub open spec fn sp_config_fields(t: Seq<SpecToken>, q: int, f: ConfigFields) -> PRes<ConfigFields>
    decreases t.len() - q,
{
    if !(0 <= q < t.len()) || check(t, q, TokenKind::RBrace) || at_end(t, q) {
        Ok((f, q))
    } else if check(t, q, TokenKind::TypeName) {
        match expect(t, q + 1, TokenKind::Equals, "Ожидается '=' после 'type'"@) {
            Err(m) => Err(m),
            Ok(q2) => {
                let (vt, q3) = value_token(t, q2);
                match name_value(vt.kind) {
                    None => Err("Ожидается строка или идентификатор для type, получено "@ + token_kind_debug(vt.kind)),
                    Some(v) => match expect(t, q3, TokenKind::Semicolon, "Ожидается ';' после значения type"@) {
                        Err(m) => Err(m),
                        Ok(q4) => sp_config_fields(t, q4, ConfigFields { config_type: v, ..f }),
                    },
                }
            },
        }
    } else if check(t, q, TokenKind::Host) {
        match expect(t, q + 1, TokenKind::Equals, "Ожидается '=' после 'host'"@) {
            Err(m) => Err(m),
            Ok(q2) => {
                let (vt, q3) = value_token(t, q2);
                match name_value(vt.kind) {
                    None => Err("Ожидается строка или идентификатор для host, получено "@ + token_kind_debug(vt.kind)),
                    Some(v) => match expect(t, q3, TokenKind::Semicolon, "Ожидается ';' после значения host"@) {
                        Err(m) => Err(m),
                        Ok(q4) => sp_config_fields(t, q4, ConfigFields { host: v, ..f }),
                    },
                }
            },
        }
    } else if check(t, q, TokenKind::Port) {
        match expect(t, q + 1, TokenKind::Equals, "Ожидается '=' после 'port'"@) {
            Err(m) => Err(m),
            Ok(q2) => {
                let (vt, q3) = value_token(t, q2);
                match port_value(vt.kind) {
                    None => Err("Ожидается строка, число или идентификатор для port, получено "@ + token_kind_debug(vt.kind)),
                    Some(v) => match expect(t, q3, TokenKind::Semicolon, "Ожидается ';' после значения port"@) {
                        Err(m) => Err(m),
                        Ok(q4) => sp_config_fields(t, q4, ConfigFields { port: v, ..f }),
                    },
                }
            },
        }
    } else {
        Err("Неизвестный ключ в блоке 'config': "@ + token_kind_debug(t[q].kind) + " на строке "@ + decimal_chars(t[q].line as nat))
    }
}

/// `s` without a leading `+`, if it has one.
pub open spec fn sign_stripped(s: Seq<char>) -> Seq<char> {
    if s.len() > 0 && s[0] == '+' {
        s.subrange(1, s.len() as int)
    } else {
        s
    }
}

/// Every character of `d` is an ASCII digit.
pub open spec fn all_digits(d: Seq<char>) -> bool {
    forall|i: int| 0 <= i < d.len() ==> super::text::is_digit_char(#[trigger] d[i])
}

/// Whether `s` is the text of a number from 0 to 65535 as `u16` parsing
/// accepts it: an optional `+`, then one or more ASCII digits.
pub open spec fn is_u16_text(s: Seq<char>) -> bool {
    let d = sign_stripped(s);
    &&& d.len() > 0
    &&& all_digits(d)
    &&& super::text::decimal_value(d) <= 65535
}

/// `config "{" entries "}" ";"`. For `type = http` both host and port must
/// be given; a port that is given must be a number from 0 to 65535.
pub open spec fn sp_config_block(t: Seq<SpecToken>, p: int) -> PRes<SpecAst> {
    match expect(t, p, TokenKind::Config, "Ожидается ключевое слово 'config'"@) {
        Err(m) => Err(m),
        Ok(p1) => match expect(t, p1, TokenKind::LBrace, "Ожидается '{' после 'config'"@) {
            Err(m) => Err(m),
            Ok(p2) => match sp_config_fields(t, p2, ConfigFields { config_type: Seq::empty(), host: Seq::empty(), port: Seq::empty() }) {
                Err(m) => Err(m),
                Ok((f, q)) => match expect(t, q, TokenKind::RBrace, "Ожидается '}' после блока 'config'"@) {
                    Err(m) => Err(m),
                    Ok(q1) => match expect(t, q1, TokenKind::Semicolon, "Ожидается ';' после блока 'config'"@) {
                        Err(m) => Err(m),
                        Ok(q2) => if f.config_type == "http"@ && (f.host.len() == 0 || f.port.len() == 0) {
                            Err("Для type=\"http\" необходимо указать host и port в блоке 'config'"@)
                        } else if f.port.len() > 0 && !is_u16_text(f.port) {
                            Err("Значение port '"@ + f.port + "' не является допустимым числом (0-65535)"@)
                        } else {
                            Ok((SpecAst::ConfigBlock { config_type: f.config_type, host: f.host, port: f.port }, q2))
                        },
                    },
                },
            },
        },
    }
}

/// The top-level items read so far.
pub struct TopItems {
    pub tls: Option<SpecAst>,
    pub handler: Option<SpecAst>,
    pub config: Option<SpecAst>,
    pub imports: Seq<SpecAst>,
    pub routes: Seq<SpecAst>,
}

/// The file's result from its items: a server configuration when any of
/// `tls`, `global_error_handler` or `config` was given, else a program;
/// either way its statements are the imports followed by the routes.
pub open spec fn top_result(items: TopItems) -> SpecAst {
    let stmts = items.imports + items.routes;
    let bx = |o: Option<SpecAst>| match o {
        Some(n) => Some(Box::new(n)),
        None => None,
    };
    if items.tls is Some || items.handler is Some || items.config is Some {
        SpecAst::ServerConfig { routes: stmts, tls_config: bx(items.tls), global_error_handler: bx(items.handler), config_block: bx(items.config) }
    } else {
        SpecAst::Program(stmts)
    }
}

/// The top-level items from `q` to the end of the input: `tls`,
/// `global_error_handler` and `config` blocks (each at most once), routes
/// and imports.
pub open spec fn sp_items(t: Seq<SpecToken>, q: int, items: TopItems) -> Result<SpecAst, Seq<char>>
    decreases t.len() - q,
{
    if !(0 <= q < t.len()) || at_end(t, q) {
        Ok(top_result(items))
    } else if check(t, q, TokenKind::Tls) {
        if items.tls is Some {
            Err("Дублирование TLS конфигурации"@)
        } else {
            match sp_tls_config(t, q) {
                Err(m) => Err(m),
                Ok((n, r)) => if r <= q || r > t.len() { Err(Seq::empty()) } else { sp_items(t, r, TopItems { tls: Some(n), ..items }) },
            }
        }
    } else if check(t, q, TokenKind::GlobalErrorHandler) {
        if items.handler is Some {
            Err("Дублирование глобального обработчика ошибок"@)
        } else {
            match sp_global_error_handler(t, q) {
                Err(m) => Err(m),
                Ok((n, r)) => if r <= q || r > t.len() { Err(Seq::empty()) } else { sp_items(t, r, TopItems { handler: Some(n), ..items }) },
            }
        }
    } else if check(t, q, TokenKind::Route) {
        match sp_route(t, q) {
            Err(m) => Err(m),
            Ok((n, r)) => if r <= q || r > t.len() { Err(Seq::empty()) } else { sp_items(t, r, TopItems { routes: items.routes.push(n), ..items }) },
        }
    } else if check(t, q, TokenKind::Config) {
        if items.config is Some {
            Err("Дублирование блока 'config'"@)
        } else {
            match sp_config_block(t, q) {
                Err(m) => Err(m),
                Ok((n, r)) => if r <= q || r > t.len() { Err(Seq::empty()) } else { sp_items(t, r, TopItems { config: Some(n), ..items }) },
            }
        }
    } else if check(t, q, TokenKind::Import) {
        match sp_import(t, q) {
            Err(m) => Err(m),
            Ok((n, r)) => if r <= q || r > t.len() { Err(Seq::empty()) } else { sp_items(t, r, TopItems { imports: items.imports.push(n), ..items }) },
        }
    } else {
        Err("Ожидается 'route', 'tls' или 'config', получено: "@ + token_kind_debug(t[q].kind))
    }
}

/// The syntax tree of a whole token list, read from its start.
pub open spec fn sp_parse(t: Seq<SpecToken>) -> Result<SpecAst, Seq<char>> {
    sp_items(t, 0, TopItems { tls: None, handler: None, config: None, imports: Seq::empty(), routes: Seq::empty() })
}

/// Some token at or after `p` is the end of the input.
pub open spec fn eof_from(t: Seq<SpecToken>, p: int) -> bool {
    &&& 0 <= p
    &&& exists|i: int| p <= i < t.len() && (#[trigger] t[i]).kind is EOF
}

/// Before the end of the input there is always a next token, and the end
/// is still ahead of it.
proof fn lemma_eof_next(t: Seq<SpecToken>, p: int)
    requires
        eof_from(t, p),
    ensures
        p < t.len(),
        !at_end(t, p) ==> p + 1 < t.len() && eof_from(t, p + 1),
{
    let i = choose|i: int| p <= i < t.len() && (#[trigger] t[i]).kind is EOF;
    if !at_end(t, p) {
        assert(i != p);
        assert(p + 1 <= i < t.len() && t[i].kind is EOF);
    }
}

/// The view of an optional boxed node.
pub open spec fn opt_view(o: Option<Box<AstNode>>) -> Option<Box<SpecAst>> {
    match o {
        Some(b) => Some(Box::new(ast_view(*b))),
        None => None,
    }
}

/// A parser over a list of tokens, at a position in it.
pub struct Parser {
    tokens: Vec<Token>,
    current: usize,
}

impl Parser {
    /// The views of the tokens.
    pub closed spec fn toks(&self) -> Seq<SpecToken> {
        tokens_view(self.tokens@)
    }

    /// The position of the next token.
    pub closed spec fn pos(&self) -> int {
        self.current as int
    }

    /// The end of the input lies at or after the position.
    pub open spec fn wf(&self) -> bool {
        eof_from(self.toks(), self.pos())
    }

    /// A parser at the start of `tokens`.
    pub fn new(tokens: Vec<Token>) -> (r: Parser)
        ensures
            r.toks() == tokens_view(tokens@),
            r.pos() == 0,
    {
        Parser { tokens, current: 0 }
    }

    /// Whether the next token is the end of the input.
    fn is_at_end(&self) -> (r: bool)
        requires
            self.wf(),
        ensures
            r == at_end(self.toks(), self.pos()),
    {
        proof {
            lemma_eof_next(self.toks(), self.pos());
        }
        match self.tokens[self.current].token_type {
            TokenKind::EOF => true,
            _ => false,
        }
    }

    /// Whether the next token is not the end and has the variant of `k`.
    fn check(&self, k: &TokenType) -> (r: bool)
        requires
            self.wf(),
        ensures
            r == check(self.toks(), self.pos(), k@),
    {
        proof {
            lemma_eof_next(self.toks(), self.pos());
            super::token::lemma_view_keeps_tag(*k);
            super::token::lemma_view_keeps_tag(self.tokens@[self.pos()].token_type);
        }
        if self.is_at_end() {
            false
        } else {
            self.tokens[self.current].token_type.same_kind(k)
        }
    }

    /// Moves past the next token unless it is the end of the input.
    fn advance(&mut self)
        requires
            old(self).wf(),
        ensures
            final(self).wf(),
            final(self).toks() == old(self).toks(),
            final(self).pos() == (if at_end(old(self).toks(), old(self).pos()) { old(self).pos() } else { old(self).pos() + 1 }),
    {
        proof {
            lemma_eof_next(self.toks(), self.pos());
            assert(self.toks().len() == self.tokens@.len());
        }
        let n = self.tokens.len();
        if !self.is_at_end() {
            self.current = self.current + 1;
        }
    }

    /// Moves past the next token when it has the variant of `k`.
    fn match_token(&mut self, k: &TokenType) -> (r: bool)
        requires
            old(self).wf(),
        ensures
            final(self).wf(),
            final(self).toks() == old(self).toks(),
            r == check(old(self).toks(), old(self).pos(), k@),
            final(self).pos() == (if r { old(self).pos() + 1 } else { old(self).pos() }),
    {
        if self.check(k) {
            self.advance();
            true
        } else {
            false
        }
    }

    /// The text of the next token's kind.
    fn peek_debug(&self) -> (r: String)
        requires
            self.wf(),
        ensures
            r@ == token_kind_debug(self.toks()[self.pos()].kind),
    {
        proof {
            lemma_eof_next(self.toks(), self.pos());
        }
        kind_debug(&self.tokens[self.current].token_type)
    }

    /// What an error message says of the next token (see `found`).
    fn found_text(&self) -> (r: String)
        requires
            self.wf(),
        ensures
            r@ == found(self.toks(), self.pos()),
    {
        proof {
            lemma_eof_next(self.toks(), self.pos());
        }
        let tok = &self.tokens[self.current];
        let mut out = text(", получено: ");
        let d = kind_debug(&tok.token_type);
        out.append(d.as_str());
        out.append(", строка: ");
        push_decimal(&mut out, tok.line);
        out.append(", колонка: ");
        push_decimal(&mut out, tok.column);
        out
    }

    /// Reads a token with the variant of `k`, or fails with `msg` and what
    /// was found (see `expect`).
    fn expect(&mut self, k: &TokenType, msg: &str) -> (r: Result<(), String>)
        requires
            old(self).wf(),
        ensures
            final(self).wf(),
            final(self).toks() == old(self).toks(),
            match expect(old(self).toks(), old(self).pos(), k@, msg@) {
                Ok(q) => r is Ok && final(self).pos() == q,
                Err(m) => r matches Err(e) && e@ == m,
            },
    {
        if self.check(k) {
            self.advance();
            Ok(())
        } else {
            let mut m = text(msg);
            let f = self.found_text();
            m.append(f.as_str());
            Err(m)
        }
    }

    /// The text payload of the token at `i`.
    fn payload_at(&self, i: usize) -> (r: String)
        requires
            i < self.toks().len(),
        ensures
            r@ == payload(self.toks()[i as int].kind),
    {
        match &self.tokens[i].token_type {
            TokenKind::String(s) => s.clone(),
            TokenKind::Identifier(s) => s.clone(),
            TokenKind::HttpMethod(s) => s.clone(),
            TokenKind::Comment(s) => s.clone(),
            _ => String::new(),
        }
    }

    /// Reads a token with the variant of `k` and gives its text payload.
    fn expect_text(&mut self, k: &TokenType, msg: &str) -> (r: Result<String, String>)
        requires
            old(self).wf(),
        ensures
            final(self).wf(),
            final(self).toks() == old(self).toks(),
            match expect(old(self).toks(), old(self).pos(), k@, msg@) {
                Ok(q) => r matches Ok(v) && final(self).pos() == q && v@ == payload(old(self).toks()[old(self).pos()].kind),
                Err(m) => r matches Err(e) && e@ == m,
            },
    {
        let at = self.current;
        match self.expect(k, msg) {
            Ok(()) => Ok(self.payload_at(at)),
            Err(e) => Err(e),
        }
    }
}

/// The exec result `r` of reading a node at `p` agrees with the spec
/// result `s`; on success the parser moved forward to the spec's position.
pub open spec fn parsed(r: Result<AstNode, String>, s: PRes<SpecAst>, p: int, fin: int) -> bool {
    match s {
        Ok((x, q)) => r matches Ok(v) && v@ == x && fin == q && p < q,
        Err(m) => r matches Err(e) && e@ == m,
    }
}

/// Pushing a node onto a list pushes its view onto the list's view.
proof fn lemma_push_view(v: Seq<Box<AstNode>>, n: AstNode)
    ensures
        asts_view(v.push(Box::new(n))) == asts_view(v).push(n@),
{
    assert(asts_view(v.push(Box::new(n))) =~= asts_view(v).push(n@));
}

/// The view of a call node.
proof fn lemma_call_view(object: Option<Box<AstNode>>, name: String, args: Vec<Box<AstNode>>, tr: bool, un: bool)
    ensures
        ast_view(AstNode::FunctionCall { object, name, args, try_operator: tr, unwrap_operator: un })
            == (SpecAst::FunctionCall { object: opt_view(object), name: name@, args: asts_view(args@), try_operator: tr, unwrap_operator: un }),
{
    let v = ast_view(AstNode::FunctionCall { object, name, args, try_operator: tr, unwrap_operator: un });
    assert(v->FunctionCall_args =~= asts_view(args@));
}

impl Parser {
    /// A name, a string literal or a number literal.
    fn primary(&mut self) -> (r: Result<AstNode, String>)
        requires
            old(self).wf(),
        ensures
            final(self).wf(),
            final(self).toks() == old(self).toks(),
            parsed(r, sp_primary(old(self).toks(), old(self).pos()), old(self).pos(), final(self).pos()),
    {
        let at = self.current;
        if self.match_token(&TokenKind::Identifier(String::new())) {
            Ok(AstNode::Identifier(self.payload_at(at)))
        } else if self.match_token(&TokenKind::String(String::new())) {
            Ok(AstNode::StringLiteral(self.payload_at(at)))
        } else if self.match_token(&TokenKind::Number(0)) {
            match &self.tokens[at].token_type {
                TokenKind::Number(n) => Ok(AstNode::NumberLiteral(*n)),
                _ => Err(String::new()),
            }
        } else {
            let mut m = text("Ожидается выражение, получено ");
            let d = self.peek_debug();
            m.append(d.as_str());
            Err(m)
        }
    }

    /// An expression (see `sp_expression`).
    fn expression(&mut self) -> (r: Result<AstNode, String>)
        requires
            old(self).wf(),
        ensures
            final(self).wf(),
            final(self).toks() == old(self).toks(),
            parsed(r, sp_expression(old(self).toks(), old(self).pos()), old(self).pos(), final(self).pos()),
        decreases old(self).toks().len() - old(self).pos(), 5int,
    {
        self.comparison()
    }

    /// A comparison (see `sp_comparison`).
    #[verifier::spinoff_prover]
    #[verifier::rlimit(40)]
    fn comparison(&mut self) -> (r: Result<AstNode, String>)
        requires
            old(self).wf(),
        ensures
            final(self).wf(),
            final(self).toks() == old(self).toks(),
            parsed(r, sp_comparison(old(self).toks(), old(self).pos()), old(self).pos(), final(self).pos()),
        decreases old(self).toks().len() - old(self).pos(), 4int,
    {
        let ghost p0 = self.pos();
        let mut expr = match self.additive() {
            Ok(e) => e,
            Err(e) => return Err(e),
        };
        loop
            invariant
                self.wf(),
                self.toks() == old(self).toks(),
                p0 == old(self).pos(),
                p0 < self.pos(),
                sp_comparison(self.toks(), p0) == sp_cmp_rest(self.toks(), self.pos(), expr@),
            decreases self.toks().len() - self.pos(),
        {
            proof {
                lemma_eof_next(self.toks(), self.pos());
            }
            let is_eq = self.check(&TokenKind::DoubleEquals);
            let is_ne = self.check(&TokenKind::NotEquals);
            if !(is_eq || is_ne) {
                return Ok(expr);
            }
            self.advance();
            let op = if is_eq { text("==") } else { text("!=") };
            let right = match self.additive() {
                Ok(e) => e,
                Err(e) => return Err(e),
            };
            proof {
                lemma_eof_next(self.toks(), self.pos());
            }
            expr = AstNode::BinaryOp { left: Box::new(expr), operator: op, right: Box::new(right) };
        }
    }

    /// A sum (see `sp_additive`).
    #[verifier::spinoff_prover]
    #[verifier::rlimit(40)]
    fn additive(&mut self) -> (r: Result<AstNode, String>)
        requires
            old(self).wf(),
        ensures
            final(self).wf(),
            final(self).toks() == old(self).toks(),
            parsed(r, sp_additive(old(self).toks(), old(self).pos()), old(self).pos(), final(self).pos()),
        decreases old(self).toks().len() - old(self).pos(), 3int,
    {
        let ghost p0 = self.pos();
        let mut expr = match self.call_chain() {
            Ok(e) => e,
            Err(e) => return Err(e),
        };
        loop
            invariant
                self.wf(),
                self.toks() == old(self).toks(),
                p0 == old(self).pos(),
                p0 < self.pos(),
                sp_additive(self.toks(), p0) == sp_add_rest(self.toks(), self.pos(), expr@),
            decreases self.toks().len() - self.pos(),
        {
            proof {
                lemma_eof_next(self.toks(), self.pos());
            }
            if !self.match_token(&TokenKind::Concatenation) {
                return Ok(expr);
            }
            let right = match self.call_chain() {
                Ok(e) => e,
                Err(e) => return Err(e),
            };
            proof {
                lemma_eof_next(self.toks(), self.pos());
            }
            expr = AstNode::BinaryOp { left: Box::new(expr), operator: text("+"), right: Box::new(right) };
        }
    }

    /// A call chain (see `sp_call_chain`).
    #[verifier::spinoff_prover]
    #[verifier::rlimit(40)]
    fn call_chain(&mut self) -> (r: Result<AstNode, String>)
        requires
            old(self).wf(),
        ensures
            final(self).wf(),
            final(self).toks() == old(self).toks(),
            parsed(r, sp_call_chain(old(self).toks(), old(self).pos()), old(self).pos(), final(self).pos()),
        decreases old(self).toks().len() - old(self).pos(), 2int,
    {
        let ghost p0 = self.pos();
        let mut expr = match self.primary() {
            Ok(e) => e,
            Err(e) => return Err(e),
        };
        loop
            invariant
                self.wf(),
                self.toks() == old(self).toks(),
                p0 == old(self).pos(),
                p0 < self.pos(),
                sp_call_chain(self.toks(), p0) == sp_chain_rest(self.toks(), self.pos(), expr@),
            decreases self.toks().len() - self.pos(),
        {
            proof {
                lemma_eof_next(self.toks(), self.pos());
            }
            let ghost q = self.pos();
            if self.check(&TokenKind::Dot) {
                self.advance();
                let name = match self.expect_text(&TokenKind::Identifier(String::new()), "Ожидается имя свойства после '.'") {
                    Ok(n) => n,
                    Err(e) => return Err(e),
                };
                if self.check(&TokenKind::LParen) {
                    self.advance();
                    expr = match self.call_suffix(Some(Box::new(expr)), name) {
                        Ok(c) => c,
                        Err(e) => return Err(e),
                    };
                } else {
                    expr = AstNode::PropertyAccess { object: Box::new(expr), property: name };
                }
            } else if self.check(&TokenKind::DoubleColon) {
                match expr {
                    AstNode::Identifier(obj) => {
                        self.advance();
                        let name = match self.expect_text(&TokenKind::Identifier(String::new()), "Ожидается имя функции после '::'") {
                            Ok(n) => n,
                            Err(e) => return Err(e),
                        };
                        match self.expect(&TokenKind::LParen, "Ожидается '(' после имени функции плагина") {
                            Ok(()) => {},
                            Err(e) => return Err(e),
                        }
                        expr = match self.call_suffix(Some(Box::new(AstNode::Identifier(obj))), name) {
                            Ok(c) => c,
                            Err(e) => return Err(e),
                        };
                    },
                    other => {
                        let mut m = text("Ожидается идентификатор перед '::', получено: ");
                        let d = other.to_display_string();
                        m.append(d.as_str());
                        return Err(m);
                    },
                }
            } else if self.check(&TokenKind::LParen) {
                self.advance();
                match expr {
                    AstNode::Identifier(name) => {
                        expr = match self.call_suffix(None, name) {
                            Ok(c) => c,
                            Err(e) => return Err(e),
                        };
                    },
                    other => {
                        return Ok(other);
                    },
                }
            } else {
                return Ok(expr);
            }
        }
    }

    /// A call's arguments and markers after its opening parenthesis (see
    /// `sp_call_suffix`).
    #[verifier::spinoff_prover]
    #[verifier::rlimit(40)]
    fn call_suffix(&mut self, object: Option<Box<AstNode>>, name: String) -> (r: Result<AstNode, String>)
        requires
            old(self).wf(),
        ensures
            final(self).wf(),
            final(self).toks() == old(self).toks(),
            parsed(r, sp_call_suffix(old(self).toks(), old(self).pos(), opt_view(object), name@), old(self).pos(), final(self).pos()),
        decreases old(self).toks().len() - old(self).pos(), 7int,
    {
        let args = match self.arguments() {
            Ok(a) => a,
            Err(e) => return Err(e),
        };
        let tr = self.match_token(&TokenKind::TryOperator);
        let un = self.match_token(&TokenKind::UnwrapOperator);
        let tr2 = self.match_token(&TokenKind::TryOperator);
        let un2 = self.match_token(&TokenKind::UnwrapOperator);
        proof {
            lemma_eof_next(self.toks(), self.pos());
            lemma_call_view(object, name, args, tr, un);
            lemma_call_view(object, name, args, tr2, un2);
        }
        if tr2 || un2 {
            Ok(AstNode::FunctionCall { object, name, args, try_operator: tr2, unwrap_operator: un2 })
        } else {
            Ok(AstNode::FunctionCall { object, name, args, try_operator: tr, unwrap_operator: un })
        }
    }

    /// A call's arguments after its opening parenthesis, up to and
    /// including the closing one (see `sp_arguments`).
    /// A call's arguments after its opening parenthesis, up to and
    /// including the closing one (see `sp_arguments`).
    #[verifier::spinoff_prover]
    #[verifier::rlimit(40)]
    fn arguments(&mut self) -> (r: Result<Vec<Box<AstNode>>, String>)
        requires
            old(self).wf(),
        ensures
            final(self).wf(),
            final(self).toks() == old(self).toks(),
            match sp_arguments(old(self).toks(), old(self).pos()) {
                Ok((xs, q)) => r matches Ok(v) && asts_view(v@) == xs && final(self).pos() == q && old(self).pos() < q,
                Err(m) => r matches Err(e) && e@ == m,
            },
        decreases old(self).toks().len() - old(self).pos(), 6int,
    {
        if self.check(&TokenKind::RParen) {
            self.advance();
            let args: Vec<Box<AstNode>> = Vec::new();
            proof {
                assert(asts_view(args@) =~= Seq::<SpecAst>::empty());
            }
            return Ok(args);
        }
        let first = match self.expression() {
            Ok(e) => e,
            Err(e) => return Err(e),
        };
        let mut args: Vec<Box<AstNode>> = Vec::new();
        args.push(Box::new(first));
        proof {
            assert(asts_view(args@) =~= seq![first@]);
        }
        self.arguments_rest(args)
    }

    /// The rest of an argument list after the arguments `args` (see
    /// `sp_args_rest`).
    #[verifier::spinoff_prover]
    #[verifier::rlimit(40)]
    fn arguments_rest(&mut self, args: Vec<Box<AstNode>>) -> (r: Result<Vec<Box<AstNode>>, String>)
        requires
            old(self).wf(),
        ensures
            final(self).wf(),
            final(self).toks() == old(self).toks(),
            match sp_args_rest(old(self).toks(), old(self).pos(), asts_view(args@)) {
                Ok((xs, q)) => r matches Ok(v) && asts_view(v@) == xs && final(self).pos() == q && old(self).pos() < q,
                Err(m) => r matches Err(e) && e@ == m,
            },
        decreases old(self).toks().len() - old(self).pos(), 6int,
    {
        let mut args = args;
        proof {
            lemma_eof_next(self.toks(), self.pos());
        }
        if !self.match_token(&TokenKind::Comma) {
            return match self.expect(&TokenKind::RParen, "Ожидается ')' после списка аргументов") {
                Ok(()) => Ok(args),
                Err(e) => Err(e),
            };
        }
        let e = match self.expression() {
            Ok(e) => e,
            Err(e) => return Err(e),
        };
        proof {
            lemma_eof_next(self.toks(), self.pos());
            lemma_push_view(args@, e);
        }
        args.push(Box::new(e));
        self.arguments_rest(args)
    }
}

impl Parser {
    /// A block (see `sp_block`).
    #[verifier::spinoff_prover]
    #[verifier::rlimit(40)]
    fn block(&mut self) -> (r: Result<AstNode, String>)
        requires
            old(self).wf(),
        ensures
            final(self).wf(),
            final(self).toks() == old(self).toks(),
            parsed(r, sp_block(old(self).toks(), old(self).pos()), old(self).pos(), final(self).pos()),
        decreases old(self).toks().len() - old(self).pos(), 9int,
    {
        proof {
            lemma_eof_next(self.toks(), self.pos());
        }
        if !self.check(&TokenKind::LBrace) {
            let mut m = text("Ожидается '{'");
            let f = self.found_text();
            m.append(f.as_str());
            return Err(m);
        }
        self.advance();
        let stmts: Vec<Box<AstNode>> = Vec::new();
        proof {
            lemma_list_view(stmts);
            assert(asts_view(stmts@) =~= Seq::<SpecAst>::empty());
        }
        if self.check(&TokenKind::RBrace) {
            self.advance();
            return Ok(AstNode::Block(stmts));
        }
        let ghost p1 = self.pos();
        assert(check(self.toks(), p1 - 1, TokenKind::LBrace));
        assert(!check(self.toks(), p1, TokenKind::RBrace));
        assert(sp_block(self.toks(), p1 - 1) == sp_block_rest(self.toks(), p1, Seq::<SpecAst>::empty()));
        self.block_rest(stmts)
    }

    /// The rest of a block after the statements `stmts` (see
    /// `sp_block_rest`).
    #[verifier::spinoff_prover]
    #[verifier::rlimit(40)]
    fn block_rest(&mut self, stmts: Vec<Box<AstNode>>) -> (r: Result<AstNode, String>)
        requires
            old(self).wf(),
        ensures
            final(self).wf(),
            final(self).toks() == old(self).toks(),
            parsed(r, sp_block_rest(old(self).toks(), old(self).pos(), asts_view(stmts@)), old(self).pos(), final(self).pos()),
        decreases old(self).toks().len() - old(self).pos(), 8int,
    {
        let mut stmts = stmts;
        proof {
            lemma_eof_next(self.toks(), self.pos());
        }
        if !self.check(&TokenKind::RBrace) && !self.is_at_end() {
            let st = match self.statement() {
                Ok(st) => st,
                Err(e) => return Err(e),
            };
            proof {
                lemma_eof_next(self.toks(), self.pos());
                lemma_push_view(stmts@, st);
            }
            stmts.push(Box::new(st));
            self.block_rest(stmts)
        } else if !self.check(&TokenKind::RBrace) {
            let mut m = text("Ожидается '}' после блока кода");
            let f = self.found_text();
            m.append(f.as_str());
            Err(m)
        } else {
            self.advance();
            proof {
                lemma_list_view(stmts);
            }
            Ok(AstNode::Block(stmts))
        }
    }

    /// A statement (see `sp_statement`).
    #[verifier::spinoff_prover]
    #[verifier::rlimit(40)]
    fn statement(&mut self) -> (r: Result<AstNode, String>)
        requires
            old(self).wf(),
        ensures
            final(self).wf(),
            final(self).toks() == old(self).toks(),
            parsed(r, sp_statement(old(self).toks(), old(self).pos()), old(self).pos(), final(self).pos()),
        decreases old(self).toks().len() - old(self).pos(), 7int,
    {
        if self.match_token(&TokenKind::Val) || self.match_token(&TokenKind::Var) {
            self.var_declaration()
        } else if self.match_token(&TokenKind::If) {
            self.if_statement(true)
        } else {
            self.expression_statement()
        }
    }

    /// A variable declaration after `val` (see `sp_var_declaration`).
    #[verifier::spinoff_prover]
    #[verifier::rlimit(40)]
    fn var_declaration(&mut self) -> (r: Result<AstNode, String>)
        requires
            old(self).wf(),
        ensures
            final(self).wf(),
            final(self).toks() == old(self).toks(),
            parsed(r, sp_var_declaration(old(self).toks(), old(self).pos()), old(self).pos(), final(self).pos()),
    {
        let name = match self.expect_text(&TokenKind::Identifier(String::new()), "Ожидается имя переменной") {
            Ok(n) => n,
            Err(e) => return Err(e),
        };
        match self.expect(&TokenKind::Equals, "Ожидается '=' после имени переменной") {
            Ok(()) => {},
            Err(e) => return Err(e),
        }
        let value = match self.expression() {
            Ok(v) => v,
            Err(e) => return Err(e),
        };
        match self.expect(&TokenKind::Semicolon, "Ожидается ';' после объявления переменной") {
            Ok(()) => {},
            Err(e) => return Err(e),
        }
        Ok(AstNode::VarDeclaration { name, value: Box::new(value) })
    }

    /// An expression statement (see `sp_expression_statement`).
    #[verifier::spinoff_prover]
    #[verifier::rlimit(40)]
    fn expression_statement(&mut self) -> (r: Result<AstNode, String>)
        requires
            old(self).wf(),
        ensures
            final(self).wf(),
            final(self).toks() == old(self).toks(),
            parsed(r, sp_expression_statement(old(self).toks(), old(self).pos()), old(self).pos(), final(self).pos()),
    {
        let expr = match self.expression() {
            Ok(v) => v,
            Err(e) => return Err(e),
        };
        match self.expect(&TokenKind::Semicolon, "Ожидается ';' после выражения") {
            Ok(()) => Ok(expr),
            Err(e) => Err(e),
        }
    }

    /// The head of an `if` (see `sp_if_head`).
    #[verifier::spinoff_prover]
    #[verifier::rlimit(40)]
    fn if_head(&mut self) -> (r: Result<(AstNode, AstNode), String>)
        requires
            old(self).wf(),
        ensures
            final(self).wf(),
            final(self).toks() == old(self).toks(),
            match sp_if_head(old(self).toks(), old(self).pos()) {
                Ok(((c, th), q)) => r matches Ok((cv, tv)) && cv@ == c && tv@ == th && final(self).pos() == q && old(self).pos() < q,
                Err(m) => r matches Err(e) && e@ == m,
            },
        decreases old(self).toks().len() - old(self).pos(), 5int,
    {
        match self.expect(&TokenKind::LParen, "Ожидается '(' после 'if'") {
            Ok(()) => {},
            Err(e) => return Err(e),
        }
        let condition = match self.expression() {
            Ok(v) => v,
            Err(e) => return Err(e),
        };
        match self.expect(&TokenKind::RParen, "Ожидается ')' после условия") {
            Ok(()) => {},
            Err(e) => return Err(e),
        }
        let then_branch = match self.block() {
            Ok(v) => v,
            Err(e) => return Err(e),
        };
        Ok((condition, then_branch))
    }

    /// An `if` statement after `if` (see `sp_if_statement`).
    #[verifier::spinoff_prover]
    #[verifier::rlimit(40)]
    fn if_statement(&mut self, outer: bool) -> (r: Result<AstNode, String>)
        requires
            old(self).wf(),
        ensures
            final(self).wf(),
            final(self).toks() == old(self).toks(),
            parsed(r, sp_if_statement(old(self).toks(), old(self).pos(), outer), old(self).pos(), final(self).pos()),
        decreases old(self).toks().len() - old(self).pos(), 6int,
    {
        let (condition, then_branch) = match self.if_head() {
            Ok(h) => h,
            Err(e) => return Err(e),
        };
        self.if_tail(condition, then_branch, outer)
    }

    /// What follows the head of an `if` (see `sp_if_tail`).
    #[verifier::spinoff_prover]
    #[verifier::rlimit(40)]
    fn if_tail(&mut self, condition: AstNode, then_branch: AstNode, outer: bool) -> (r: Result<AstNode, String>)
        requires
            old(self).wf(),
        ensures
            final(self).wf(),
            final(self).toks() == old(self).toks(),
            match sp_if_tail(old(self).toks(), old(self).pos(), condition@, then_branch@, outer) {
                Ok((x, q)) => r matches Ok(v) && v@ == x && final(self).pos() == q && old(self).pos() <= q,
                Err(m) => r matches Err(e) && e@ == m,
            },
        decreases old(self).toks().len() - old(self).pos(), 7int,
    {
        proof {
            lemma_eof_next(self.toks(), self.pos());
        }
        if self.match_token(&TokenKind::Else) {
            let else_branch = if self.match_token(&TokenKind::If) {
                match self.if_statement(false) {
                    Ok(v) => v,
                    Err(e) => return Err(e),
                }
            } else {
                match self.block() {
                    Ok(v) => v,
                    Err(e) => return Err(e),
                }
            };
            Ok(AstNode::IfStatement {
                condition: Box::new(condition),
                then_branch: Box::new(then_branch),
                else_branch: Some(Box::new(else_branch)),
            })
        } else {
            if outer {
                match self.expect(&TokenKind::Semicolon, "Ожидается ';' после оператора if") {
                    Ok(()) => {},
                    Err(e) => return Err(e),
                }
            }
            Ok(AstNode::IfStatement { condition: Box::new(condition), then_branch: Box::new(then_branch), else_branch: None })
        }
    }

    /// An error handler after `onError` (see `sp_error_handler`).
    #[verifier::spinoff_prover]
    #[verifier::rlimit(40)]
    fn error_handler(&mut self) -> (r: Result<AstNode, String>)
        requires
            old(self).wf(),
        ensures
            final(self).wf(),
            final(self).toks() == old(self).toks(),
            parsed(r, sp_error_handler(old(self).toks(), old(self).pos()), old(self).pos(), final(self).pos()),
    {
        match self.expect(&TokenKind::LParen, "Ожидается '(' после 'on_error'") {
            Ok(()) => {},
            Err(e) => return Err(e),
        }
        let error_var = match self.expect_text(&TokenKind::Identifier(String::new()), "Ожидается имя переменной") {
            Ok(n) => n,
            Err(e) => return Err(e),
        };
        match self.expect(&TokenKind::RParen, "Ожидается ')' после имени переменной ошибки") {
            Ok(()) => {},
            Err(e) => return Err(e),
        }
        let body = match self.block() {
            Ok(v) => v,
            Err(e) => return Err(e),
        };
        Ok(AstNode::ErrorHandlerBlock { error_var, body: Box::new(body) })
    }

    /// The head of a route (see `sp_route_head`).
    #[verifier::spinoff_prover]
    #[verifier::rlimit(40)]
    fn route_head(&mut self) -> (r: Result<(String, String), String>)
        requires
            old(self).wf(),
        ensures
            final(self).wf(),
            final(self).toks() == old(self).toks(),
            match sp_route_head(old(self).toks(), old(self).pos()) {
                Ok(((pa, me), q)) => r matches Ok((pv, mv)) && pv@ == pa && mv@ == me && final(self).pos() == q && old(self).pos() < q,
                Err(m) => r matches Err(e) && e@ == m,
            },
    {
        match self.expect(&TokenKind::Route, "Ожидается ключевое слово 'route'") {
            Ok(()) => {},
            Err(e) => return Err(e),
        }
        let path = match self.expect_text(&TokenKind::String(String::new()), "Ожидается строка пути маршрута") {
            Ok(n) => n,
            Err(e) => return Err(e),
        };
        let method = match self.expect_text(&TokenKind::HttpMethod(String::new()), "Ожидается HTTP метод") {
            Ok(n) => n,
            Err(e) => return Err(e),
        };
        Ok((path, method))
    }

    /// A route (see `sp_route`).
    #[verifier::spinoff_prover]
    #[verifier::rlimit(40)]
    fn route(&mut self) -> (r: Result<AstNode, String>)
        requires
            old(self).wf(),
        ensures
            final(self).wf(),
            final(self).toks() == old(self).toks(),
            parsed(r, sp_route(old(self).toks(), old(self).pos()), old(self).pos(), final(self).pos()),
    {
        let (path, method) = match self.route_head() {
            Ok(h) => h,
            Err(e) => return Err(e),
        };
        let body = match self.block() {
            Ok(v) => v,
            Err(e) => return Err(e),
        };
        proof {
            lemma_eof_next(self.toks(), self.pos());
        }
        let on_error = if self.match_token(&TokenKind::OnError) {
            match self.error_handler() {
                Ok(h) => Some(Box::new(h)),
                Err(e) => return Err(e),
            }
        } else {
            None
        };
        match self.expect(&TokenKind::Semicolon, "Ожидается ';' после блока маршрута") {
            Ok(()) => {},
            Err(e) => return Err(e),
        }
        Ok(AstNode::Route { path, method, body: Box::new(body), on_error })
    }

    /// An import (see `sp_import`).
    #[verifier::spinoff_prover]
    #[verifier::rlimit(40)]
    fn import(&mut self) -> (r: Result<AstNode, String>)
        requires
            old(self).wf(),
        ensures
            final(self).wf(),
            final(self).toks() == old(self).toks(),
            parsed(r, sp_import(old(self).toks(), old(self).pos()), old(self).pos(), final(self).pos()),
    {
        match self.expect(&TokenKind::Import, "Ожидается ключевое слово 'import'") {
            Ok(()) => {},
            Err(e) => return Err(e),
        }
        let path = match self.expect_text(&TokenKind::String(String::new()), "Ожидается строка пути к плагину") {
            Ok(n) => n,
            Err(e) => return Err(e),
        };
        match self.expect(&TokenKind::As, "Ожидается ключевое слово 'as' после пути") {
            Ok(()) => {},
            Err(e) => return Err(e),
        }
        let alias = match self.expect_text(&TokenKind::Identifier(String::new()), "Ожидается псевдоним плагина") {
            Ok(n) => n,
            Err(e) => return Err(e),
        };
        match self.expect(&TokenKind::Semicolon, "Ожидается ';' после импорта плагина") {
            Ok(()) => {},
            Err(e) => return Err(e),
        }
        Ok(AstNode::Import { path, alias })
    }

    /// The head of a global error handler (see `sp_handler_head`).
    #[verifier::spinoff_prover]
    #[verifier::rlimit(40)]
    fn handler_head(&mut self) -> (r: Result<String, String>)
        requires
            old(self).wf(),
        ensures
            final(self).wf(),
            final(self).toks() == old(self).toks(),
            match sp_handler_head(old(self).toks(), old(self).pos()) {
                Ok((v, q)) => r matches Ok(x) && x@ == v && final(self).pos() == q && old(self).pos() < q,
                Err(m) => r matches Err(e) && e@ == m,
            },
    {
        match self.expect(&TokenKind::GlobalErrorHandler, "Ожидается ключевое слово 'global_error_handler'") {
            Ok(()) => {},
            Err(e) => return Err(e),
        }
        match self.expect(&TokenKind::LParen, "Ожидается '(' после 'global_error_handler'") {
            Ok(()) => {},
            Err(e) => return Err(e),
        }
        let error_var = match self.expect_text(&TokenKind::Identifier(String::new()), "Ожидается имя переменной") {
            Ok(n) => n,
            Err(e) => return Err(e),
        };
        match self.expect(&TokenKind::RParen, "Ожидается ')' после имени переменной") {
            Ok(()) => Ok(error_var),
            Err(e) => Err(e),
        }
    }

    /// A global error handler (see `sp_global_error_handler`).
    #[verifier::spinoff_prover]
    #[verifier::rlimit(40)]
    fn global_error_handler(&mut self) -> (r: Result<AstNode, String>)
        requires
            old(self).wf(),
        ensures
            final(self).wf(),
            final(self).toks() == old(self).toks(),
            parsed(r, sp_global_error_handler(old(self).toks(), old(self).pos()), old(self).pos(), final(self).pos()),
    {
        let error_var = match self.handler_head() {
            Ok(v) => v,
            Err(e) => return Err(e),
        };
        let body = match self.block() {
            Ok(v) => v,
            Err(e) => return Err(e),
        };
        match self.expect(&TokenKind::Semicolon, "Ожидается ';' после блока глобального обработчика ошибок") {
            Ok(()) => {},
            Err(e) => return Err(e),
        }
        Ok(AstNode::GlobalErrorHandler { error_var, body: Box::new(body) })
    }
}

/// Whether `s` is accepted by `u16` parsing (see `is_u16_text`).
pub fn is_u16_text_exec(s: &str) -> (r: bool)
    ensures
        r == is_u16_text(s@),
{
    parse_u16(s).is_some()
}

/// Reads `s` as a number from 0 to 65535 (see `is_u16_text`).
pub fn parse_u16(s: &str) -> (r: Option<u16>)
    ensures
        r is Some <==> is_u16_text(s@),
        r matches Some(v) ==> v == super::text::decimal_value(sign_stripped(s@)),
{
    let n = s.unicode_len();
    let start: usize = if n > 0 && s.get_char(0) == '+' { 1 } else { 0 };
    let ghost d = sign_stripped(s@);
    assert(d =~= s@.subrange(start as int, n as int));
    if start == n {
        return None;
    }
    let mut value: u64 = 0;
    let mut i: usize = start;
    while i < n
        invariant
            start <= i <= n,
            n == s@.len(),
            d == s@.subrange(start as int, n as int),
            d == sign_stripped(s@),
            forall|k: int| start <= k < i ==> super::text::is_digit_char(#[trigger] s@[k]),
            ({
                let pre = s@.subrange(start as int, i as int);
                &&& super::text::decimal_value(pre) <= 65535 ==> value == super::text::decimal_value(pre)
                &&& super::text::decimal_value(pre) > 65535 ==> value > 65535
                &&& value <= 655359
                &&& super::text::decimal_value(pre) >= 0
            }),
        decreases n - i,
    {
        let c = s.get_char(i);
        if !(c >= '0' && c <= '9') {
            proof {
                let k = (i - start) as int;
                assert(d[k] == s@[i as int]);
                assert(!super::text::is_digit_char(d[k]));
                assert(!all_digits(d));
            }
            return None;
        }
        let ghost pre = s@.subrange(start as int, i as int);
        let ghost pre2 = s@.subrange(start as int, i + 1);
        assert(pre2.drop_last() =~= pre);
        assert(pre2.last() == c);
        let dv = (c as u32 - '0' as u32) as u64;
        if value <= 65535 {
            value = value * 10 + dv;
        }
        i = i + 1;
    }
    assert(s@.subrange(start as int, n as int) =~= d);
    if value <= 65535 {
        Some(value as u16)
    } else {
        None
    }
}

impl Parser {
    /// The entries of a `tls` block (see `sp_tls_fields`).
    #[verifier::spinoff_prover]
    #[verifier::rlimit(40)]
    fn tls_fields(&mut self, enabled: bool, cert_path: String, key_path: String) -> (r: Result<(bool, String, String), String>)
        requires
            old(self).wf(),
        ensures
            final(self).wf(),
            final(self).toks() == old(self).toks(),
            match sp_tls_fields(old(self).toks(), old(self).pos(), TlsFields { enabled, cert_path: cert_path@, key_path: key_path@ }) {
                Ok((f, q)) => r matches Ok((e, c, k)) && e == f.enabled && c@ == f.cert_path && k@ == f.key_path && final(self).pos() == q
                    && old(self).pos() <= q,
                Err(m) => r matches Err(x) && x@ == m,
            },
        decreases old(self).toks().len() - old(self).pos(),
    {
        proof {
            lemma_eof_next(self.toks(), self.pos());
            reveal_strlit("true");
        }
        if self.check(&TokenKind::RBrace) || self.is_at_end() {
            return Ok((enabled, cert_path, key_path));
        }
        if self.match_token(&TokenKind::Enabled) {
            match self.expect(&TokenKind::Equals, "Ожидается '=' после 'enabled'") {
                Ok(()) => {},
                Err(e) => return Err(e),
            }
            proof {
                lemma_eof_next(self.toks(), self.pos());
            }
            if self.check(&TokenKind::Identifier(String::new())) {
                let at = self.current;
                self.advance();
                let v = self.payload_at(at);
                let en = super::text::str_eq(v.as_str(), "true");
                match self.expect(&TokenKind::Semicolon, "Ожидается ';' после значения") {
                    Ok(()) => {},
                    Err(e) => return Err(e),
                }
                self.tls_fields(en, cert_path, key_path)
            } else {
                Err(text("Ожидается булево значение (true/false) для enabled"))
            }
        } else if self.match_token(&TokenKind::CertPath) {
            match self.expect(&TokenKind::Equals, "Ожидается '=' после 'cert_path'") {
                Ok(()) => {},
                Err(e) => return Err(e),
            }
            proof {
                lemma_eof_next(self.toks(), self.pos());
            }
            if self.check(&TokenKind::String(String::new())) {
                let at = self.current;
                self.advance();
                let v = self.payload_at(at);
                match self.expect(&TokenKind::Semicolon, "Ожидается ';' после значения") {
                    Ok(()) => {},
                    Err(e) => return Err(e),
                }
                self.tls_fields(enabled, v, key_path)
            } else {
                Err(text("Ожидается строковое значение для cert_path"))
            }
        } else if self.match_token(&TokenKind::KeyPath) {
            match self.expect(&TokenKind::Equals, "Ожидается '=' после 'key_path'") {
                Ok(()) => {},
                Err(e) => return Err(e),
            }
            proof {
                lemma_eof_next(self.toks(), self.pos());
            }
            if self.check(&TokenKind::String(String::new())) {
                let at = self.current;
                self.advance();
                let v = self.payload_at(at);
                match self.expect(&TokenKind::Semicolon, "Ожидается ';' после значения") {
                    Ok(()) => {},
                    Err(e) => return Err(e),
                }
                self.tls_fields(enabled, cert_path, v)
            } else {
                Err(text("Ожидается строковое значение для key_path"))
            }
        } else {
            let mut m = text("Неизвестный ключ в TLS конфигурации: ");
            let d = self.peek_debug();
            m.append(d.as_str());
            Err(m)
        }
    }

    /// A `tls` block (see `sp_tls_config`).
    #[verifier::spinoff_prover]
    #[verifier::rlimit(40)]
    fn tls_config(&mut self) -> (r: Result<AstNode, String>)
        requires
            old(self).wf(),
        ensures
            final(self).wf(),
            final(self).toks() == old(self).toks(),
            parsed(r, sp_tls_config(old(self).toks(), old(self).pos()), old(self).pos(), final(self).pos()),
    {
        match self.expect(&TokenKind::Tls, "Ожидается ключевое слово 'tls'") {
            Ok(()) => {},
            Err(e) => return Err(e),
        }
        match self.expect(&TokenKind::LBrace, "Ожидается '{' после 'tls'") {
            Ok(()) => {},
            Err(e) => return Err(e),
        }
        let empty1 = String::new();
        let empty2 = String::new();
        proof {
            assert(TlsFields { enabled: false, cert_path: empty1@, key_path: empty2@ }
                == TlsFields { enabled: false, cert_path: Seq::<char>::empty(), key_path: Seq::<char>::empty() });
        }
        let (enabled, cert_path, key_path) = match self.tls_fields(false, empty1, empty2) {
            Ok(f) => f,
            Err(e) => return Err(e),
        };
        match self.expect(&TokenKind::RBrace, "Ожидается '}' после TLS конфигурации") {
            Ok(()) => {},
            Err(e) => return Err(e),
        }
        match self.expect(&TokenKind::Semicolon, "Ожидается ';' после блока TLS конфигурации") {
            Ok(()) => {},
            Err(e) => return Err(e),
        }
        Ok(AstNode::TlsConfig { enabled, cert_path, key_path })
    }
}

impl Parser {
    /// The value token of a `config` entry after its `=` (see
    /// `value_token`): its index, having moved past it.
    fn value_token_at(&mut self) -> (r: usize)
        requires
            old(self).wf(),
            old(self).pos() >= 1,
        ensures
            final(self).wf(),
            final(self).toks() == old(self).toks(),
            (final(self).toks()[r as int], final(self).pos()) == value_token(old(self).toks(), old(self).pos()),
            r < final(self).toks().len(),
    {
        proof {
            lemma_eof_next(self.toks(), self.pos());
        }
        let at = if self.is_at_end() { self.current - 1 } else { self.current };
        self.advance();
        at
    }

    /// The entries of a `config` block (see `sp_config_fields`).
    #[verifier::spinoff_prover]
    #[verifier::rlimit(40)]
    fn config_fields(&mut self, config_type: String, host: String, port: String) -> (r: Result<(String, String, String), String>)
        requires
            old(self).wf(),
        ensures
            final(self).wf(),
            final(self).toks() == old(self).toks(),
            match sp_config_fields(old(self).toks(), old(self).pos(), ConfigFields { config_type: config_type@, host: host@, port: port@ }) {
                Ok((f, q)) => r matches Ok((a, b, c)) && a@ == f.config_type && b@ == f.host && c@ == f.port
                    && final(self).pos() == q && old(self).pos() <= q,
                Err(m) => r matches Err(x) && x@ == m,
            },
        decreases old(self).toks().len() - old(self).pos(),
    {
        proof {
            lemma_eof_next(self.toks(), self.pos());
        }
        if self.check(&TokenKind::RBrace) || self.is_at_end() {
            return Ok((config_type, host, port));
        }
        if self.match_token(&TokenKind::TypeName) {
            match self.expect(&TokenKind::Equals, "Ожидается '=' после 'type'") {
                Ok(()) => {},
                Err(e) => return Err(e),
            }
            let at = self.value_token_at();
            let v = match &self.tokens[at].token_type {
                TokenKind::String(v) => v.clone(),
                TokenKind::Identifier(v) => v.clone(),
                other => {
                    let mut m = text("Ожидается строка или идентификатор для type, получено ");
                    let d = kind_debug(other);
                    m.append(d.as_str());
                    return Err(m);
                },
            };
            match self.expect(&TokenKind::Semicolon, "Ожидается ';' после значения type") {
                Ok(()) => {},
                Err(e) => return Err(e),
            }
            self.config_fields(v, host, port)
        } else if self.match_token(&TokenKind::Host) {
            match self.expect(&TokenKind::Equals, "Ожидается '=' после 'host'") {
                Ok(()) => {},
                Err(e) => return Err(e),
            }
            let at = self.value_token_at();
            let v = match &self.tokens[at].token_type {
                TokenKind::String(v) => v.clone(),
                TokenKind::Identifier(v) => v.clone(),
                other => {
                    let mut m = text("Ожидается строка или идентификатор для host, получено ");
                    let d = kind_debug(other);
                    m.append(d.as_str());
                    return Err(m);
                },
            };
            match self.expect(&TokenKind::Semicolon, "Ожидается ';' после значения host") {
                Ok(()) => {},
                Err(e) => return Err(e),
            }
            self.config_fields(config_type, v, port)
        } else if self.match_token(&TokenKind::Port) {
            match self.expect(&TokenKind::Equals, "Ожидается '=' после 'port'") {
                Ok(()) => {},
                Err(e) => return Err(e),
            }
            let at = self.value_token_at();
            let v = match &self.tokens[at].token_type {
                TokenKind::String(v) => v.clone(),
                TokenKind::Number(n) => {
                    let mut s = String::new();
                    push_decimal_i64(&mut s, *n);
                    s
                },
                TokenKind::Identifier(v) => v.clone(),
                other => {
                    let mut m = text("Ожидается строка, число или идентификатор для port, получено ");
                    let d = kind_debug(other);
                    m.append(d.as_str());
                    return Err(m);
                },
            };
            match self.expect(&TokenKind::Semicolon, "Ожидается ';' после значения port") {
                Ok(()) => {},
                Err(e) => return Err(e),
            }
            self.config_fields(config_type, host, v)
        } else {
            proof {
                lemma_eof_next(self.toks(), self.pos());
            }
            let mut m = text("Неизвестный ключ в блоке 'config': ");
            let d = self.peek_debug();
            m.append(d.as_str());
            m.append(" на строке ");
            push_decimal(&mut m, self.tokens[self.current].line);
            Err(m)
        }
    }

    /// A `config` block (see `sp_config_block`).
    #[verifier::spinoff_prover]
    #[verifier::rlimit(40)]
    fn config_block(&mut self) -> (r: Result<AstNode, String>)
        requires
            old(self).wf(),
        ensures
            final(self).wf(),
            final(self).toks() == old(self).toks(),
            parsed(r, sp_config_block(old(self).toks(), old(self).pos()), old(self).pos(), final(self).pos()),
    {
        match self.expect(&TokenKind::Config, "Ожидается ключевое слово 'config'") {
            Ok(()) => {},
            Err(e) => return Err(e),
        }
        match self.expect(&TokenKind::LBrace, "Ожидается '{' после 'config'") {
            Ok(()) => {},
            Err(e) => return Err(e),
        }
        let e1 = String::new();
        let e2 = String::new();
        let e3 = String::new();
        proof {
            assert(ConfigFields { config_type: e1@, host: e2@, port: e3@ }
                == ConfigFields { config_type: Seq::<char>::empty(), host: Seq::<char>::empty(), port: Seq::<char>::empty() });
        }
        let (config_type, host, port) = match self.config_fields(e1, e2, e3) {
            Ok(f) => f,
            Err(e) => return Err(e),
        };
        match self.expect(&TokenKind::RBrace, "Ожидается '}' после блока 'config'") {
            Ok(()) => {},
            Err(e) => return Err(e),
        }
        match self.expect(&TokenKind::Semicolon, "Ожидается ';' после блока 'config'") {
            Ok(()) => {},
            Err(e) => return Err(e),
        }
        proof {
            reveal_strlit("http");
        }
        let is_http = super::text::str_eq(config_type.as_str(), "http");
        let host_empty = host.as_str().unicode_len() == 0;
        let port_empty = port.as_str().unicode_len() == 0;
        if is_http && (host_empty || port_empty) {
            return Err(text("Для type=\"http\" необходимо указать host и port в блоке 'config'"));
        }
        if !port_empty && !is_u16_text_exec(port.as_str()) {
            let mut m = text("Значение port '");
            m.append(port.as_str());
            m.append("' не является допустимым числом (0-65535)");
            return Err(m);
        }
        Ok(AstNode::ConfigBlock { config_type, host, port })
    }

    /// The top-level items from the current position (see `sp_items`).
    #[verifier::spinoff_prover]
    #[verifier::rlimit(40)]
    fn items(
        &mut self,
        tls: Option<Box<AstNode>>,
        handler: Option<Box<AstNode>>,
        config: Option<Box<AstNode>>,
        imports: Vec<Box<AstNode>>,
        routes: Vec<Box<AstNode>>,
    ) -> (r: Result<AstNode, String>)
        requires
            old(self).wf(),
        ensures
            match sp_items(old(self).toks(), old(self).pos(), top_items_view(tls, handler, config, imports, routes)) {
                Ok(x) => r matches Ok(v) && v@ == x,
                Err(m) => r matches Err(e) && e@ == m,
            },
        decreases old(self).toks().len() - old(self).pos(),
    {
        let mut imports = imports;
        let mut routes = routes;
        proof {
            lemma_eof_next(self.toks(), self.pos());
        }
        if self.is_at_end() {
            return Ok(build_top(tls, handler, config, imports, routes));
        }
        if self.check(&TokenKind::Tls) {
            if tls.is_some() {
                return Err(text("Дублирование TLS конфигурации"));
            }
            let n = match self.tls_config() {
                Ok(n) => n,
                Err(e) => return Err(e),
            };
            proof {
                lemma_eof_next(self.toks(), self.pos());
            }
            self.items(Some(Box::new(n)), handler, config, imports, routes)
        } else if self.check(&TokenKind::GlobalErrorHandler) {
            if handler.is_some() {
                return Err(text("Дублирование глобального обработчика ошибок"));
            }
            let n = match self.global_error_handler() {
                Ok(n) => n,
                Err(e) => return Err(e),
            };
            proof {
                lemma_eof_next(self.toks(), self.pos());
            }
            self.items(tls, Some(Box::new(n)), config, imports, routes)
        } else if self.check(&TokenKind::Route) {
            let n = match self.route() {
                Ok(n) => n,
                Err(e) => return Err(e),
            };
            proof {
                lemma_eof_next(self.toks(), self.pos());
                lemma_push_view(routes@, n);
            }
            routes.push(Box::new(n));
            self.items(tls, handler, config, imports, routes)
        } else if self.check(&TokenKind::Config) {
            if config.is_some() {
                return Err(text("Дублирование блока 'config'"));
            }
            let n = match self.config_block() {
                Ok(n) => n,
                Err(e) => return Err(e),
            };
            proof {
                lemma_eof_next(self.toks(), self.pos());
            }
            self.items(tls, handler, Some(Box::new(n)), imports, routes)
        } else if self.check(&TokenKind::Import) {
            let n = match self.import() {
                Ok(n) => n,
                Err(e) => return Err(e),
            };
            proof {
                lemma_eof_next(self.toks(), self.pos());
                lemma_push_view(imports@, n);
            }
            imports.push(Box::new(n));
            self.items(tls, handler, config, imports, routes)
        } else {
            let mut m = text("Ожидается 'route', 'tls' или 'config', получено: ");
            let d = self.peek_debug();
            m.append(d.as_str());
            Err(m)
        }
    }

    /// Whether the tokens hold an end-of-input token at or after the
    /// current position, which `parse` needs.
    pub fn has_end(&self) -> (r: bool)
        ensures
            r == self.wf(),
    {
        if self.current >= self.tokens.len() {
            return false;
        }
        let mut i = self.current;
        while i < self.tokens.len()
            invariant
                self.current <= i <= self.tokens@.len(),
                self.toks().len() == self.tokens@.len(),
                forall|k: int| self.current <= k < i ==> (#[trigger] self.toks()[k]).kind !is EOF,
            decreases self.tokens.len() - i,
        {
            let is_eof = match self.tokens[i].token_type {
                TokenKind::EOF => true,
                _ => false,
            };
            if is_eof {
                assert(self.toks()[i as int].kind is EOF);
                return true;
            }
            i = i + 1;
        }
        false
    }

    /// Reads the whole file from the current position: `tls`,
    /// `global_error_handler` and `config` blocks (each at most once),
    /// routes and imports, up to the end of the input (see `sp_items`).
    pub fn parse(&mut self) -> (r: Result<AstNode, String>)
        requires
            old(self).wf(),
        ensures
            match sp_items(old(self).toks(), old(self).pos(), empty_items()) {
                Ok(x) => r matches Ok(v) && v@ == x,
                Err(m) => r matches Err(e) && e@ == m,
            },
    {
        let imports: Vec<Box<AstNode>> = Vec::new();
        let routes: Vec<Box<AstNode>> = Vec::new();
        proof {
            assert(asts_view(imports@) =~= Seq::<SpecAst>::empty());
            assert(asts_view(routes@) =~= Seq::<SpecAst>::empty());
        }
        self.items(None, None, None, imports, routes)
    }
}

/// No items read yet.
pub open spec fn empty_items() -> TopItems {
    TopItems { tls: None, handler: None, config: None, imports: Seq::empty(), routes: Seq::empty() }
}

/// The view of the exec top-level items.
pub open spec fn top_items_view(
    tls: Option<Box<AstNode>>,
    handler: Option<Box<AstNode>>,
    config: Option<Box<AstNode>>,
    imports: Vec<Box<AstNode>>,
    routes: Vec<Box<AstNode>>,
) -> TopItems {
    let un = |o: Option<Box<AstNode>>| match o {
        Some(b) => Some(ast_view(*b)),
        None => None,
    };
    TopItems { tls: un(tls), handler: un(handler), config: un(config), imports: asts_view(imports@), routes: asts_view(routes@) }
}

/// The file's node from its items (see `top_result`).
fn build_top(
    tls: Option<Box<AstNode>>,
    handler: Option<Box<AstNode>>,
    config: Option<Box<AstNode>>,
    imports: Vec<Box<AstNode>>,
    routes: Vec<Box<AstNode>>,
) -> (r: AstNode)
    ensures
        r@ == top_result(top_items_view(tls, handler, config, imports, routes)),
{
    let ghost iv = asts_view(imports@);
    let ghost rv = asts_view(routes@);
    let mut stmts = imports;
    let mut routes = routes;
    stmts.append(&mut routes);
    proof {
        assert(asts_view(stmts@) =~= iv + rv);
    }
    if tls.is_some() || handler.is_some() || config.is_some() {
        let r = AstNode::ServerConfig { routes: stmts, tls_config: tls, global_error_handler: handler, config_block: config };
        proof {
            assert(r@->ServerConfig_routes =~= iv + rv);
        }
        r
    } else {
        proof {
            lemma_list_view(stmts);
        }
        AstNode::Program(stmts)
    }
}

/// The text of a lexer error as `parse` reports it.
pub open spec fn lex_error_text(e: LexErr) -> Seq<char> {
    error_text_of(ErrorKind::Lexer, e.msg, Some(e.line as usize), Some(e.col as usize))
}

/// The start of an input: position 0, line 1, column 1.
pub open spec fn input_start() -> LexPos {
    LexPos { pos: 0, line: 1, col: 1 }
}

/// Reads a whole file: splits `input` into tokens, then reads the tokens
/// into a syntax tree. A lexer error is reported by its text (see
/// `error_text`), a parser error by its message.
pub fn parse(input: &str) -> (r: Result<AstNode, String>)
    requires
        input@.len() < usize::MAX,
    ensures
        match spec_tokenize(input@, input_start()) {
            Err(e) => r matches Err(m) && m@ == lex_error_text(e),
            Ok((ts, _)) => match sp_parse(ts) {
                Ok(a) => r matches Ok(n) && n@ == a,
                Err(m) => r matches Err(x) && x@ == m,
            },
        },
{
    let mut lexer = Lexer::new(input);
    let tokens = match lexer.tokenize() {
        Ok(t) => t,
        Err(e) => return Err(e.to_display_string()),
    };
    proof {
        lemma_tokenize_ends_with_eof(input@, input_start());
        let ts = tokens_view(tokens@);
        assert(ts[ts.len() - 1].kind is EOF);
        assert(eof_from(ts, 0));
    }
    let mut parser = Parser::new(tokens);
    parser.parse()
}

} // verus!
