use vstd::prelude::*;
use crate::language::text::int_decimal;
use crate::language::vm::{RdlV, VmV, VmOut, CallRecord, exec_op, trunc_div};
use crate::language::compiler::le_value;
use crate::utils::powi_fits;
use vstd::arithmetic::power::pow;
use crate::language::lexer::{LexPos, spec_string_body, spec_read_digits, spec_read_number, lex_advance, spec_next_token, spec_line_comment};
use crate::language::token::TokenKind;
use crate::language::text::{is_digit_char, decimal_value};
use crate::language::interpreter::server::{match_path, match_parts, segments, segs_from, is_param, param_name, RouteV, route_match};
use crate::language::interpreter::route_handler::{compound_value, act};
use crate::language::interpreter::context::{lookup, lemma_lookup_after_set};
use crate::language::interpreter::evaluator::EvEnv;
use crate::language::ast::SpecAst;
use crate::language::interpreter::values::{binary, FaultV};
use crate::language::interpreter::semantics::binary_value;

verus! {

/// Parts of the same number match exactly when every part of the route
/// that is not a parameter equals the request's part at its place.
proof fn lemma_match_parts_literals(rp: Seq<Seq<char>>, qp: Seq<Seq<char>>)
    requires
        rp.len() == qp.len(),
    ensures
        (match_parts(rp, qp) is Some) <==> (forall|i: int| 0 <= i < rp.len() ==> is_param(#[trigger] rp[i]) || rp[i] == qp[i]),
    decreases rp.len(),
{
    if rp.len() > 0 {
        let rd = rp.drop_last();
        let qd = qp.drop_last();
        lemma_match_parts_literals(rd, qd);
        if forall|i: int| 0 <= i < rp.len() ==> is_param(#[trigger] rp[i]) || rp[i] == qp[i] {
            assert forall|i: int| 0 <= i < rd.len() implies is_param(#[trigger] rd[i]) || rd[i] == qd[i] by {
                assert(rd[i] == rp[i] && qd[i] == qp[i]);
                assert(is_param(rp[i]) || rp[i] == qp[i]);
            }
            assert(is_param(rp[rp.len() - 1]) || rp[rp.len() - 1] == qp[qp.len() - 1]);
        } else {
            let i = choose|i: int| 0 <= i < rp.len() && !(is_param(#[trigger] rp[i]) || rp[i] == qp[i]);
            if i < rp.len() - 1 {
                assert(rd[i] == rp[i] && qd[i] == qp[i]);
                assert(!(is_param(rd[i]) || rd[i] == qd[i]));
            }
        }
    }
}

/// A route path with parameters (`{name}` parts) answers a request path
/// exactly when both have the same number of parts and every part of the
/// route that is not a parameter equals the request's part at the same
/// place: a request whose part differs from a literal part of the route
/// is not answered by it.
pub proof fn law_route_literal_parts_must_match(route_path: Seq<char>, path: Seq<char>)
    requires
        route_path.contains('{'),
        route_path.contains('}'),
    ensures
        (match_path(route_path, path) is Some) <==> (
            segments(route_path).len() == segments(path).len()
            && forall|i: int| 0 <= i < segments(route_path).len() && !is_param(#[trigger] segments(route_path)[i])
                ==> segments(route_path)[i] == segments(path)[i]),
{
    let rp = segments(route_path);
    let qp = segments(path);
    if rp.len() == qp.len() {
        lemma_match_parts_literals(rp, qp);
    }
}

/// Compound assignment on two numbers stores, as decimal text, the
/// current value combined with the right side in that order: `v -= y`
/// with `v` holding `x` stores `x - y`, `+=` stores `x + y`, `*=` stores
/// `x * y`, when the result fits in 64 bits; when it does not, the
/// statement panics.
pub proof fn law_compound_numbers(x: i64, y: i64)
    ensures
        i64::MIN <= x - y <= i64::MAX ==> compound_value("-="@, RdlV::Num(x), RdlV::Num(y)) == Ok::<RdlV, FaultV>(RdlV::Str(int_decimal(x - y))),
        i64::MIN <= x + y <= i64::MAX ==> compound_value("+="@, RdlV::Num(x), RdlV::Num(y)) == Ok::<RdlV, FaultV>(RdlV::Str(int_decimal(x + y))),
        i64::MIN <= x * y <= i64::MAX ==> compound_value("*="@, RdlV::Num(x), RdlV::Num(y)) == Ok::<RdlV, FaultV>(RdlV::Str(int_decimal(x * y))),
        !(i64::MIN <= x - y <= i64::MAX) ==> compound_value("-="@, RdlV::Num(x), RdlV::Num(y)) matches Err(FaultV::Panic(_)),
        !(i64::MIN <= x + y <= i64::MAX) ==> compound_value("+="@, RdlV::Num(x), RdlV::Num(y)) matches Err(FaultV::Panic(_)),
        !(i64::MIN <= x * y <= i64::MAX) ==> compound_value("*="@, RdlV::Num(x), RdlV::Num(y)) matches Err(FaultV::Panic(_)),
        compound_value("/="@, RdlV::Num(x), RdlV::Num(0)) matches Err(FaultV::Error(_)),
{
    reveal_strlit("-=");
    reveal_strlit("+=");
    reveal_strlit("*=");
    reveal_strlit("/=");
    assert("-="@ != "+="@) by {
        assert("-="@[0] != "+="@[0]);
    }
    assert("*="@ != "+="@) by {
        assert("*="@[0] != "+="@[0]);
    }
    assert("*="@ != "-="@) by {
        assert("*="@[0] != "-="@[0]);
    }
    assert("/="@ != "+="@) by {
        assert("/="@[0] != "+="@[0]);
    }
    assert("/="@ != "-="@) by {
        assert("/="@[0] != "-="@[0]);
    }
    assert("/="@ != "*="@) by {
        assert("/="@[0] != "*="@[0]);
    }
}

/// The arithmetic operators on two numbers give the sum, the difference
/// (left minus right) and the product, when it fits in 64 bits; division
/// by zero is an error.
pub proof fn law_binary_numbers(x: i64, y: i64)
    ensures
        i64::MIN <= x + y <= i64::MAX ==> binary("+"@, RdlV::Num(x), RdlV::Num(y)) == Ok::<RdlV, FaultV>(RdlV::Num((x + y) as i64)),
        i64::MIN <= x - y <= i64::MAX ==> binary("-"@, RdlV::Num(x), RdlV::Num(y)) == Ok::<RdlV, FaultV>(RdlV::Num((x - y) as i64)),
        i64::MIN <= x * y <= i64::MAX ==> binary("*"@, RdlV::Num(x), RdlV::Num(y)) == Ok::<RdlV, FaultV>(RdlV::Num((x * y) as i64)),
        binary("/"@, RdlV::Num(x), RdlV::Num(0)) matches Err(FaultV::Error(_)),
        binary("=="@, RdlV::Num(x), RdlV::Num(y)) == Ok::<RdlV, FaultV>(RdlV::Str(if x == y { "true"@ } else { "false"@ })),
        binary("!="@, RdlV::Num(x), RdlV::Num(y)) == Ok::<RdlV, FaultV>(RdlV::Str(if x != y { "true"@ } else { "false"@ })),
{
    reveal_strlit("+");
    reveal_strlit("-");
    reveal_strlit("*");
    reveal_strlit("/");
    reveal_strlit("==");
    reveal_strlit("!=");
    assert("-"@ != "=="@ && "-"@ != "!="@ && "-"@ != "+"@) by {
        assert("-"@.len() != "=="@.len() && "-"@[0] != "+"@[0]);
    }
    assert("*"@ != "=="@ && "*"@ != "!="@ && "*"@ != "+"@ && "*"@ != "-"@) by {
        assert("*"@[0] != "+"@[0] && "*"@[0] != "-"@[0]);
    }
    assert("/"@ != "=="@ && "/"@ != "!="@ && "/"@ != "+"@ && "/"@ != "-"@ && "/"@ != "*"@) by {
        assert("/"@[0] != "+"@[0] && "/"@[0] != "-"@[0] && "/"@[0] != "*"@[0]);
    }
    assert("+"@ != "=="@ && "+"@ != "!="@);
    assert("!="@ != "=="@) by {
        assert("!="@[0] != "=="@[0]);
    }
}

/// In a route of the first interpreter, `+` joins the two texts, left
/// first, and `==` / `!=` compare them.
pub proof fn law_text_operators(l: Seq<char>, r: Seq<char>)
    ensures
        binary_value("+"@, l, r) matches Ok(t) && t.len() == l.len() + r.len()
            && t.subrange(0, l.len() as int) == l && t.subrange(l.len() as int, t.len() as int) == r,
        binary_value("=="@, l, r) == Ok::<Seq<char>, Seq<char>>(if l == r { "true"@ } else { "false"@ }),
        binary_value("!="@, l, r) == Ok::<Seq<char>, Seq<char>>(if l != r { "true"@ } else { "false"@ }),
{
    reveal_strlit("+");
    reveal_strlit("==");
    reveal_strlit("!=");
    assert("+"@ != "=="@ && "+"@ != "!="@) by {
        assert("+"@.len() != "=="@.len() && "+"@.len() != "!="@.len());
    }
    assert("!="@ != "=="@) by {
        assert("!="@[0] != "=="@[0]);
    }
    assert((l + r).subrange(0, l.len() as int) =~= l);
    assert((l + r).subrange(l.len() as int, (l + r).len() as int) =~= r);
}

/// A comparison or arithmetic instruction on the two numbers at the top
/// of the stack (`a` below `b`) pops them and pushes its result, and moves
/// on: `LessEq` pushes `a <= b`, `GreaterEq` `a >= b`, `Less` `a < b`,
/// `Greater` `a > b`, `Eq` `a == b`, `NotEq` `a != b`; `Add`, `Sub` and
/// `Mul` push `a + b`, `a - b` and `a * b` when they fit in 64 bits.
pub proof fn law_vm_numbers(s: VmV, code: Seq<u8>, rs: Seq<CallRecord>, a: i64, b: i64)
    requires
        0 <= s.pc < code.len(),
        s.stack.len() >= 2,
        s.stack[s.stack.len() - 2] == RdlV::Num(a),
        s.stack[s.stack.len() - 1] == RdlV::Num(b),
    ensures
        ({
            let rest = s.stack.subrange(0, s.stack.len() - 2);
            let pushed = |v: RdlV| (VmOut::Continue, VmV { stack: rest.push(v), pc: s.pc + 1, ..s });
            &&& code[s.pc] == 0x20 ==> exec_op(s, code, rs) == pushed(RdlV::Bool(a < b))
            &&& code[s.pc] == 0x21 ==> exec_op(s, code, rs) == pushed(RdlV::Bool(a > b))
            &&& code[s.pc] == 0x22 ==> exec_op(s, code, rs) == pushed(RdlV::Bool(a <= b))
            &&& code[s.pc] == 0x23 ==> exec_op(s, code, rs) == pushed(RdlV::Bool(a >= b))
            &&& code[s.pc] == 0x03 ==> exec_op(s, code, rs) == pushed(RdlV::Bool(a == b))
            &&& code[s.pc] == 0x19 ==> exec_op(s, code, rs) == pushed(RdlV::Bool(a != b))
            &&& (code[s.pc] == 0x04 && i64::MIN <= a + b <= i64::MAX) ==> exec_op(s, code, rs) == pushed(RdlV::Num((a + b) as i64))
            &&& (code[s.pc] == 0x05 && i64::MIN <= a - b <= i64::MAX) ==> exec_op(s, code, rs) == pushed(RdlV::Num((a - b) as i64))
            &&& (code[s.pc] == 0x06 && i64::MIN <= a * b <= i64::MAX) ==> exec_op(s, code, rs) == pushed(RdlV::Num((a * b) as i64))
        }),
{
}

/// Inside a string literal, a backslash and the next character stand for
/// one character: `\n` a newline, `\r` a carriage return, `\t` a tab,
/// `\"` a quote and `\\` a backslash; a plain character stands for itself.
pub proof fn law_string_escapes(input: Seq<char>, p: LexPos)
    requires
        0 <= p.pos,
        p.pos + 1 < input.len(),
        input[p.pos] != '"',
    ensures
        spec_string_body(input, p) matches Ok((t, _)) ==> {
            &&& t.len() > 0
            &&& input[p.pos] == '\\' && input[p.pos + 1] == 'n' ==> t[0] == '\n'
            &&& input[p.pos] == '\\' && input[p.pos + 1] == 'r' ==> t[0] == '\r'
            &&& input[p.pos] == '\\' && input[p.pos + 1] == 't' ==> t[0] == '\t'
            &&& input[p.pos] == '\\' && input[p.pos + 1] == '"' ==> t[0] == '"'
            &&& input[p.pos] == '\\' && input[p.pos + 1] == '\\' ==> t[0] == '\\'
            &&& input[p.pos] != '\\' ==> t[0] == input[p.pos]
        },
{
}

/// `q` is `x / y` rounded toward zero: `x == q * y + r` with the
/// remainder `r` smaller than `y` in size and of the sign of `x`.
pub open spec fn is_trunc_quotient(x: int, y: int, q: int) -> bool {
    let r = x - q * y;
    &&& (if r < 0 { -r } else { r }) < (if y < 0 { -y } else { y })
    &&& r == 0 || (r > 0) == (x > 0)
}

/// Integer division rounds toward zero.
proof fn lemma_trunc_div(x: int, y: int)
    requires
        y != 0,
    ensures
        is_trunc_quotient(x, y, trunc_div(x, y)),
{
    let ax = if x < 0 { -x } else { x };
    let ay = if y < 0 { -y } else { y };
    let q0 = ax / ay;
    let r0 = ax % ay;
    assert(ax == q0 * ay + r0 && 0 <= r0 < ay) by (nonlinear_arith)
        requires
            ay > 0,
            ax >= 0,
            q0 == ax / ay,
            r0 == ax % ay,
    ;
    let q = trunc_div(x, y);
    if (x < 0) != (y < 0) {
        assert(q == -q0);
    } else {
        assert(q == q0);
    }
    assert(x - q * y == (if x < 0 { -r0 } else { r0 })) by (nonlinear_arith)
        requires
            ax == q0 * ay + r0,
            ax == (if x < 0 { -x } else { x }),
            ay == (if y < 0 { -y } else { y }),
            q == (if (x < 0) != (y < 0) { -q0 } else { q0 }),
    ;
}

/// A quotient rounded toward zero is no larger in size than the dividend,
/// and it fits in 64 bits but for `i64::MIN / -1`.
proof fn lemma_quotient_fits(x: int, y: int, q: int)
    requires
        y != 0,
        is_trunc_quotient(x, y, q),
        i64::MIN <= x <= i64::MAX,
        !(x == i64::MIN && y == -1),
    ensures
        i64::MIN <= q <= i64::MAX,
{
    let ax: int = if x < 0 { -x } else { x };
    let ay: int = if y < 0 { -y } else { y };
    let aq: int = if q < 0 { -q } else { q };
    let r = x - q * y;
    let ar: int = if r < 0 { -r } else { r };
    assert(aq * ay <= ax + ar) by (nonlinear_arith)
        requires
            r == x - q * y,
            ax == (if x < 0 { -x } else { x }),
            ay == (if y < 0 { -y } else { y }),
            aq == (if q < 0 { -q } else { q }),
            ar == (if r < 0 { -r } else { r }),
    ;
    assert(ar < ay);
    assert(aq <= ax) by (nonlinear_arith)
        requires
            aq * ay <= ax + ar,
            ar < ay,
            ay >= 1,
            aq >= 0,
            ax >= 0,
    ;
    if aq == ax && ax == 0x8000_0000_0000_0000 {
        assert(x == i64::MIN);
        assert(ay == 1) by (nonlinear_arith)
            requires
                aq * ay <= ax + ar,
                ar < ay,
                ay >= 1,
                aq == ax,
                ax >= 2,
        ;
        assert(y == 1);
        assert((r > 0) == (x > 0) || r == 0);
        assert(q == x);
    }
}

/// Division on two numbers gives the quotient rounded toward zero, for the
/// binary operator, for `/=` (stored as text) and for the `Div`
/// instruction; dividing `i64::MIN` by `-1` panics.
pub proof fn law_division(x: i64, y: i64, s: VmV, code: Seq<u8>, rs: Seq<CallRecord>)
    requires
        y != 0,
    ensures
        !(x == i64::MIN && y == -1) ==> (binary("/"@, RdlV::Num(x), RdlV::Num(y)) matches Ok(RdlV::Num(q))
            && is_trunc_quotient(x as int, y as int, q as int)),
        !(x == i64::MIN && y == -1) ==> exists|q: i64| is_trunc_quotient(x as int, y as int, q as int)
            && compound_value("/="@, RdlV::Num(x), RdlV::Num(y)) == Ok::<RdlV, FaultV>(RdlV::Str(int_decimal(q as int))),
        (x == i64::MIN && y == -1) ==> binary("/"@, RdlV::Num(x), RdlV::Num(y)) matches Err(FaultV::Panic(_)),
        (0 <= s.pc < code.len() && code[s.pc] == 0x07 && s.stack.len() >= 2
            && s.stack[s.stack.len() - 2] == RdlV::Num(x) && s.stack[s.stack.len() - 1] == RdlV::Num(y)
            && !(x == i64::MIN && y == -1)) ==> exists|q: i64| is_trunc_quotient(x as int, y as int, q as int)
            && exec_op(s, code, rs) == (VmOut::Continue, VmV { stack: s.stack.subrange(0, s.stack.len() - 2).push(RdlV::Num(q)), pc: s.pc + 1, ..s }),
{
    reveal_strlit("+");
    reveal_strlit("-");
    reveal_strlit("*");
    reveal_strlit("/");
    reveal_strlit("==");
    reveal_strlit("!=");
    reveal_strlit("+=");
    reveal_strlit("-=");
    reveal_strlit("*=");
    reveal_strlit("/=");
    assert("/"@ != "=="@ && "/"@ != "!="@ && "/"@ != "+"@ && "/"@ != "-"@ && "/"@ != "*"@) by {
        assert("/"@.len() != "=="@.len() && "/"@[0] != "+"@[0] && "/"@[0] != "-"@[0] && "/"@[0] != "*"@[0]);
    }
    assert("/="@ != "+="@ && "/="@ != "-="@ && "/="@ != "*="@) by {
        assert("/="@[0] != "+="@[0] && "/="@[0] != "-="@[0] && "/="@[0] != "*="@[0]);
    }
    lemma_trunc_div(x as int, y as int);
    if !(x == i64::MIN && y == -1) {
        let q = trunc_div(x as int, y as int);
        lemma_quotient_fits(x as int, y as int, q);
        let qq = q as i64;
        assert(is_trunc_quotient(x as int, y as int, qq as int));
    }
}

/// On two booleans, `&&` and `||` give the conjunction and the disjunction.
pub proof fn law_boolean_operators(x: bool, y: bool)
    ensures
        binary("&&"@, RdlV::Bool(x), RdlV::Bool(y)) == Ok::<RdlV, FaultV>(RdlV::Bool(x && y)),
        binary("||"@, RdlV::Bool(x), RdlV::Bool(y)) == Ok::<RdlV, FaultV>(RdlV::Bool(x || y)),
{
    reveal_strlit("+");
    reveal_strlit("-");
    reveal_strlit("*");
    reveal_strlit("/");
    reveal_strlit("^");
    reveal_strlit("==");
    reveal_strlit("!=");
    reveal_strlit("&&");
    reveal_strlit("||");
    assert("&&"@ != "=="@ && "&&"@ != "!="@ && "&&"@ != "+"@ && "&&"@ != "-"@ && "&&"@ != "*"@ && "&&"@ != "/"@ && "&&"@ != "^"@) by {
        assert("&&"@[0] != "=="@[0] && "&&"@[0] != "!="@[0] && "&&"@.len() != "+"@.len());
    }
    assert("||"@ != "=="@ && "||"@ != "!="@ && "||"@ != "+"@ && "||"@ != "-"@ && "||"@ != "*"@ && "||"@ != "/"@ && "||"@ != "^"@
        && "||"@ != "&&"@) by {
        assert("||"@[0] != "=="@[0] && "||"@[0] != "!="@[0] && "||"@.len() != "+"@.len() && "||"@[0] != "&&"@[0]);
    }
}

/// Raising a number to a power that is not negative gives the power, when
/// every step fits in 64 bits.
pub proof fn law_power(x: i64, n: i64)
    requires
        n >= 0,
        powi_fits(x as int, n as nat, 1),
    ensures
        binary("^"@, RdlV::Num(x), RdlV::Num(n)) == Ok::<RdlV, FaultV>(RdlV::Num(pow(x as int, n as nat) as i64)),
{
    reveal_strlit("+");
    reveal_strlit("-");
    reveal_strlit("*");
    reveal_strlit("/");
    reveal_strlit("^");
    reveal_strlit("==");
    reveal_strlit("!=");
    assert("^"@ != "=="@ && "^"@ != "!="@ && "^"@ != "+"@ && "^"@ != "-"@ && "^"@ != "*"@ && "^"@ != "/"@) by {
        assert("^"@.len() != "=="@.len() && "^"@[0] != "+"@[0] && "^"@[0] != "-"@[0] && "^"@[0] != "*"@[0] && "^"@[0] != "/"@[0]);
    }
}

/// A route answers only requests of its own method: with key
/// `method2:path2` (methods without `:`), a request with method `method`
/// is answered exactly when the methods are equal and the path fits.
pub proof fn law_route_method(r: RouteV, method: Seq<char>, method2: Seq<char>, path: Seq<char>)
    requires
        r.key == method2 + ":"@ + r.path,
        !method.contains(':'),
        !method2.contains(':'),
    ensures
        (route_match(r, method, path) is Some) <==> (method == method2 && match_path(r.path, path) is Some),
{
    reveal_strlit(":");
    let prefix = method + ":"@;
    if prefix.len() <= r.key.len() && r.key.subrange(0, prefix.len() as int) == prefix {
        assert(prefix[method.len() as int] == ':');
        assert(r.key.subrange(0, prefix.len() as int)[method.len() as int] == r.key[method.len() as int]);
        if method.len() < method2.len() {
            assert(r.key[method.len() as int] == ':');
            assert(method2[method.len() as int] == r.key[method.len() as int]);
            assert(method2.contains(':'));
        } else if method.len() > method2.len() {
            assert(r.key[method2.len() as int] == ':');
            assert(r.key.subrange(0, prefix.len() as int)[method2.len() as int] == r.key[method2.len() as int]);
            assert(prefix[method2.len() as int] == method[method2.len() as int]);
            assert(method.contains(':'));
        } else {
            assert forall|i: int| 0 <= i < method.len() implies method[i] == method2[i] by {
                assert(r.key.subrange(0, prefix.len() as int)[i] == r.key[i]);
                assert(prefix[i] == r.key[i]);
            }
            assert(method =~= method2);
        }
    }
    if method == method2 {
        assert(r.key.subrange(0, prefix.len() as int) =~= prefix);
    }
}

/// Splitting from the middle of a part: the parts of `a`, read on from
/// `cur`, then those of `b`, when a slash stands between them.
proof fn lemma_segs_split(a: Seq<char>, b: Seq<char>, cur: Seq<char>)
    ensures
        segs_from(a + seq!['/'] + b, cur) == segs_from(a, cur) + segs_from(b, Seq::empty()),
    decreases a.len(),
{
    let whole = a + seq!['/'] + b;
    if a.len() == 0 {
        assert(whole =~= seq!['/'] + b);
        assert(whole.drop_first() =~= b);
        if cur.len() == 0 {
            assert(segs_from(a, cur) =~= Seq::<Seq<char>>::empty());
            assert(segs_from(whole, cur) =~= segs_from(a, cur) + segs_from(b, Seq::empty()));
        } else {
            assert(segs_from(a, cur) =~= seq![cur]);
        }
    } else {
        assert(whole.drop_first() =~= a.drop_first() + seq!['/'] + b);
        assert(whole[0] == a[0]);
        lemma_segs_split(a.drop_first(), b, if a[0] == '/' { Seq::empty() } else { cur.push(a[0]) });
        if a[0] == '/' && cur.len() > 0 {
            assert(seq![cur] + segs_from(a.drop_first(), Seq::empty()) + segs_from(b, Seq::empty())
                =~= seq![cur] + (segs_from(a.drop_first(), Seq::empty()) + segs_from(b, Seq::empty())));
        }
    }
}

/// The parts of a run of characters without slashes read on from `cur`:
/// one part, `cur` followed by the run, unless both are empty.
proof fn lemma_segs_no_slash(s: Seq<char>, cur: Seq<char>)
    requires
        !s.contains('/'),
    ensures
        segs_from(s, cur) == (if cur.len() == 0 && s.len() == 0 { Seq::<Seq<char>>::empty() } else { seq![cur + s] }),
    decreases s.len(),
{
    if s.len() > 0 {
        assert(s[0] != '/') by {
            if s[0] == '/' {
                assert(s.contains('/'));
            }
        }
        assert(!s.drop_first().contains('/')) by {
            if s.drop_first().contains('/') {
                let i = choose|i: int| 0 <= i < s.drop_first().len() && s.drop_first()[i] == '/';
                assert(s[i + 1] == '/');
            }
        }
        lemma_segs_no_slash(s.drop_first(), cur.push(s[0]));
        assert(cur.push(s[0]) + s.drop_first() =~= cur + s);
    } else {
        assert(cur + s =~= cur);
    }
}

/// The parts of a path are the pieces between its slashes, empty pieces
/// left out: a path without slashes is one part (none when empty), and a
/// path split at a slash has the parts of each side, in order.
pub proof fn law_path_parts(a: Seq<char>, b: Seq<char>)
    ensures
        !a.contains('/') ==> segments(a) == (if a.len() == 0 { Seq::<Seq<char>>::empty() } else { seq![a] }),
        segments(a + seq!['/'] + b) == segments(a) + segments(b),
{
    if !a.contains('/') {
        lemma_segs_no_slash(a, Seq::empty());
        assert(Seq::<char>::empty() + a =~= a);
    }
    lemma_segs_split(a, b, Seq::empty());
}

/// The parameters a match gives: one for each parameter part of the route,
/// named by it, taking the request's part at its place (the last such part
/// when a name repeats), and no others.
proof fn lemma_match_parts_params(rp: Seq<Seq<char>>, qp: Seq<Seq<char>>)
    requires
        rp.len() == qp.len(),
        match_parts(rp, qp) is Some,
    ensures
        ({
            let m = match_parts(rp, qp)->Some_0;
            &&& forall|i: int| 0 <= i < rp.len() && is_param(#[trigger] rp[i])
                && (forall|j: int| i < j < rp.len() ==> !(is_param(rp[j]) && param_name(rp[j]) == param_name(rp[i])))
                ==> m.dom().contains(param_name(rp[i])) && m[param_name(rp[i])] == qp[i]
            &&& forall|k: Seq<char>| #[trigger] m.dom().contains(k) ==>
                exists|i: int| 0 <= i < rp.len() && is_param(rp[i]) && param_name(rp[i]) == k
        }),
    decreases rp.len(),
{
    if rp.len() > 0 {
        let rd = rp.drop_last();
        let qd = qp.drop_last();
        let n = rp.len() - 1;
        lemma_match_parts_params(rd, qd);
        let m0 = match_parts(rd, qd)->Some_0;
        let m = match_parts(rp, qp)->Some_0;
        assert forall|i: int| 0 <= i < rp.len() && is_param(#[trigger] rp[i])
            && (forall|j: int| i < j < rp.len() ==> !(is_param(rp[j]) && param_name(rp[j]) == param_name(rp[i])))
            implies m.dom().contains(param_name(rp[i])) && m[param_name(rp[i])] == qp[i] by {
            if i < n {
                assert(rd[i] == rp[i] && qd[i] == qp[i]);
                assert forall|j: int| i < j < rd.len() implies !(is_param(rd[j]) && param_name(rd[j]) == param_name(rd[i])) by {
                    assert(rd[j] == rp[j]);
                }
                assert(!(is_param(rp[n]) && param_name(rp[n]) == param_name(rp[i])));
            }
        }
        assert forall|k: Seq<char>| #[trigger] m.dom().contains(k) implies
            exists|i: int| 0 <= i < rp.len() && is_param(rp[i]) && param_name(rp[i]) == k by {
            if m0.dom().contains(k) {
                let i = choose|i: int| 0 <= i < rd.len() && is_param(rd[i]) && param_name(rd[i]) == k;
                assert(rd[i] == rp[i]);
            } else {
                assert(is_param(rp[n]) && param_name(rp[n]) == k);
            }
        }
    }
}

/// The parameters a route path with `{name}` parts gives a request path
/// it answers: each parameter named in the route takes the request's part
/// at its place (the last place when a name repeats); no other name is
/// set.
pub proof fn law_route_parameters(route_path: Seq<char>, path: Seq<char>)
    requires
        match_path(route_path, path) is Some,
    ensures
        ({
            let m = match_path(route_path, path)->Some_0;
            let rp = segments(route_path);
            let qp = segments(path);
            &&& route_path.contains('{') && route_path.contains('}') ==> {
                &&& forall|i: int| 0 <= i < rp.len() && is_param(#[trigger] rp[i])
                    && (forall|j: int| i < j < rp.len() ==> !(is_param(rp[j]) && param_name(rp[j]) == param_name(rp[i])))
                    ==> m.dom().contains(param_name(rp[i])) && m[param_name(rp[i])] == qp[i]
                &&& forall|k: Seq<char>| #[trigger] m.dom().contains(k) ==>
                    exists|i: int| 0 <= i < rp.len() && is_param(rp[i]) && param_name(rp[i]) == k
            }
            &&& !(route_path.contains('{') && route_path.contains('}')) ==> route_path == path && m == Map::<Seq<char>, Seq<char>>::empty()
        }),
{
    if route_path.contains('{') && route_path.contains('}') {
        lemma_match_parts_params(segments(route_path), segments(path));
    }
}

/// The body of a string literal that holds no quote and no backslash up to
/// its closing quote at `e` is exactly those characters.
pub proof fn law_plain_string(input: Seq<char>, p: LexPos, e: int)
    requires
        0 <= p.pos <= e < input.len(),
        input[e] == '"',
        forall|i: int| p.pos <= i < e ==> input[i] != '"' && input[i] != '\\',
    ensures
        spec_string_body(input, p) matches Ok((t, q)) && t == input.subrange(p.pos, e) && q.pos == e + 1,
    decreases e - p.pos,
{
    if p.pos < e {
        law_plain_string(input, lex_advance(input, p), e);
        assert(seq![input[p.pos]] + input.subrange(p.pos + 1, e) =~= input.subrange(p.pos, e));
    } else {
        assert(input.subrange(p.pos, e) =~= Seq::<char>::empty());
    }
}

/// A number is read from the longest run of digits at its start, as its
/// decimal value, when that fits in 64 bits.
pub proof fn law_read_number(input: Seq<char>, p: LexPos, e: int)
    requires
        0 <= p.pos < e <= input.len(),
        forall|i: int| p.pos <= i < e ==> is_digit_char(#[trigger] input[i]),
        e == input.len() || !is_digit_char(input[e]),
        decimal_value(input.subrange(p.pos, e)) <= i64::MAX,
    ensures
        spec_read_number(input, p) matches Ok((n, q)) && n == decimal_value(input.subrange(p.pos, e)) && q.pos == e,
{
    lemma_read_digits(input, p, e);
}

/// The run of digits at `p` ends at `e`.
proof fn lemma_read_digits(input: Seq<char>, p: LexPos, e: int)
    requires
        0 <= p.pos <= e <= input.len(),
        forall|i: int| p.pos <= i < e ==> is_digit_char(#[trigger] input[i]),
        e == input.len() || !is_digit_char(input[e]),
    ensures
        spec_read_digits(input, p).0 == input.subrange(p.pos, e),
        spec_read_digits(input, p).1.pos == e,
    decreases e - p.pos,
{
    if p.pos < e {
        lemma_read_digits(input, lex_advance(input, p), e);
        assert(seq![input[p.pos]] + input.subrange(p.pos + 1, e) =~= input.subrange(p.pos, e));
    } else {
        assert(input.subrange(p.pos, e) =~= Seq::<char>::empty());
    }
}

/// `And` and `Or` on two booleans push their conjunction and disjunction;
/// `JmpIfFalse` pops its boolean and jumps to its target when it is
/// false, else goes on after its operand.
pub proof fn law_vm_logic_and_jumps(s: VmV, code: Seq<u8>, rs: Seq<CallRecord>, x: bool, y: bool)
    requires
        0 <= s.pc < code.len(),
        s.stack.len() >= 2,
        s.stack[s.stack.len() - 2] == RdlV::Bool(x),
        s.stack[s.stack.len() - 1] == RdlV::Bool(y),
    ensures
        ({
            let rest = s.stack.subrange(0, s.stack.len() - 2);
            &&& code[s.pc] == 0x17 ==> exec_op(s, code, rs) == (VmOut::Continue, VmV { stack: rest.push(RdlV::Bool(x && y)), pc: s.pc + 1, ..s })
            &&& code[s.pc] == 0x18 ==> exec_op(s, code, rs) == (VmOut::Continue, VmV { stack: rest.push(RdlV::Bool(x || y)), pc: s.pc + 1, ..s })
            &&& (code[s.pc] == 0x14 && s.pc + 5 <= code.len() && le_value(code, s.pc + 1) <= code.len()) ==>
                exec_op(s, code, rs) == (VmOut::Continue, VmV {
                    stack: s.stack.drop_last(),
                    pc: if y { s.pc + 5 } else { le_value(code, s.pc + 1) as int },
                    ..s
                })
        }),
{
}

/// Storing the top of the stack in a variable and then loading that
/// variable puts the same value back on top: the stack is as before.
pub proof fn law_vm_store_then_load(s: VmV, code: Seq<u8>, rs: Seq<CallRecord>)
    requires
        0 <= s.pc,
        s.pc + 10 <= code.len(),
        code[s.pc] == 0x02,
        code[s.pc + 5] == 0x01,
        le_value(code, s.pc + 1) == le_value(code, s.pc + 6),
        s.stack.len() >= 1,
    ensures
        ({
            let (o1, s1) = exec_op(s, code, rs);
            let (o2, s2) = exec_op(s1, code, rs);
            &&& o1 is Continue
            &&& s1.pc == s.pc + 5
            &&& o2 is Continue
            &&& s2.stack == s.stack
            &&& s2.pc == s.pc + 10
            &&& s2.vars[le_value(code, s.pc + 1)] == s.stack.last()
        }),
{
    let (o1, s1) = exec_op(s, code, rs);
    assert(s1.vars.dom().contains(le_value(code, s.pc + 1)));
    assert(s.stack.drop_last().push(s.stack.last()) =~= s.stack);
}

/// In a route, `v -= y`, `v += y` and `v *= y` with `v` holding the number
/// `x` and `y` a number literal succeed, leave `v` holding the decimal
/// text of `x - y`, `x + y` or `x * y` (when it fits in 64 bits), and
/// leave every other name as it was; nothing outside is asked.
pub proof fn law_compound_statement(env: EvEnv, limit: nat, scopes: Seq<Map<RdlV, RdlV>>, var: Seq<char>, x: i64, y: i64,
    k: nat, other: Seq<char>)
    requires
        scopes.len() > 0,
        lookup(scopes, RdlV::Str(var)) == Some(RdlV::Num(x)),
        other != var,
    ensures
        ({
            let stmt = |op: Seq<char>| SpecAst::BinaryOp {
                left: Box::new(SpecAst::Identifier(var)),
                operator: op,
                right: Box::new(SpecAst::NumberLiteral(y)),
            };
            &&& i64::MIN <= x - y <= i64::MAX ==> ({
                let (r, s1, k1) = act(env, false, limit, scopes, stmt("-="@), k);
                &&& r is Ok && k1 == k
                &&& lookup(s1, RdlV::Str(var)) == Some(RdlV::Str(int_decimal(x - y)))
                &&& lookup(s1, RdlV::Str(other)) == lookup(scopes, RdlV::Str(other))
            })
            &&& i64::MIN <= x + y <= i64::MAX ==> ({
                let (r, s1, k1) = act(env, false, limit, scopes, stmt("+="@), k);
                &&& r is Ok && k1 == k
                &&& lookup(s1, RdlV::Str(var)) == Some(RdlV::Str(int_decimal(x + y)))
                &&& lookup(s1, RdlV::Str(other)) == lookup(scopes, RdlV::Str(other))
            })
            &&& i64::MIN <= x * y <= i64::MAX ==> ({
                let (r, s1, k1) = act(env, false, limit, scopes, stmt("*="@), k);
                &&& r is Ok && k1 == k
                &&& lookup(s1, RdlV::Str(var)) == Some(RdlV::Str(int_decimal(x * y)))
                &&& lookup(s1, RdlV::Str(other)) == lookup(scopes, RdlV::Str(other))
            })
        }),
{
    law_compound_numbers(x, y);
    reveal_strlit("+=");
    reveal_strlit("-=");
    reveal_strlit("*=");
    reveal_strlit("/=");
    reveal_strlit("^=");
    let name = RdlV::Str(var);
    assert(RdlV::Str(other) != name);
    lemma_lookup_after_set(scopes, name, RdlV::Str(int_decimal(x - y)), RdlV::Str(other));
    lemma_lookup_after_set(scopes, name, RdlV::Str(int_decimal(x + y)), RdlV::Str(other));
    lemma_lookup_after_set(scopes, name, RdlV::Str(int_decimal(x * y)), RdlV::Str(other));
}

/// The array instructions on a vector: `MakeArray c` gathers the top `c`
/// values, in stack order, into one vector; `GetByIndexFromArray` replaces
/// a vector and an index in range by the element there;
/// `RemoveByIndexFromArray` leaves the vector without that element, the
/// others in order, with the removed element on top;
/// `FindAndGetFirstElementInArray` gives the value sought when the vector
/// holds it, else `false`.
pub proof fn law_vm_arrays(s: VmV, code: Seq<u8>, rs: Seq<CallRecord>, items: Seq<RdlV>, i: i64, target: RdlV)
    requires
        0 <= s.pc < code.len(),
    ensures
        (code[s.pc] == 0x08 && s.pc + 5 <= code.len() && le_value(code, s.pc + 1) <= s.stack.len()) ==> ({
            let c = le_value(code, s.pc + 1) as int;
            let n = s.stack.len() as int;
            let (o, s2) = exec_op(s, code, rs);
            &&& o is Continue
            &&& s2.stack.len() == n - c + 1
            &&& s2.stack.subrange(0, n - c) == s.stack.subrange(0, n - c)
            &&& s2.stack[n - c] matches RdlV::Vector(v) && v.len() == c
                && forall|j: int| 0 <= j < c ==> v[j] == #[trigger] s.stack[n - c + j]
        }),
        (s.stack.len() >= 2 && s.stack[s.stack.len() - 2] == RdlV::Vector(items) && s.stack[s.stack.len() - 1] == RdlV::Num(i)
            && 0 <= i < items.len() && i <= usize::MAX) ==> ({
            let n = s.stack.len() as int;
            let rest = s.stack.subrange(0, n - 2);
            &&& code[s.pc] == 0x11 ==> exec_op(s, code, rs) == (VmOut::Continue, VmV { stack: rest.push(items[i as int]), pc: s.pc + 1, ..s })
            &&& code[s.pc] == 0x10 ==> ({
                let (o, s2) = exec_op(s, code, rs);
                &&& o is Continue
                &&& s2.stack.len() == n
                &&& s2.stack.subrange(0, n - 2) == rest
                &&& s2.stack[n - 1] == items[i as int]
                &&& s2.stack[n - 2] matches RdlV::Vector(v) && v.len() == items.len() - 1
                    && (forall|j: int| 0 <= j < i ==> v[j] == items[j])
                    && (forall|j: int| i <= j < v.len() ==> v[j] == items[j + 1])
            })
        }),
        (code[s.pc] == 0x12 && s.stack.len() >= 2 && s.stack[s.stack.len() - 2] == RdlV::Vector(items)
            && s.stack[s.stack.len() - 1] == target) ==> ({
            let (o, s2) = exec_op(s, code, rs);
            &&& o is Continue
            &&& s2.stack.last() == (if items.contains(target) { target } else { RdlV::Bool(false) })
            &&& s2.stack.drop_last() == s.stack.subrange(0, s.stack.len() - 2)
        }),
{
    let n = s.stack.len() as int;
    if code[s.pc] == 0x08 && s.pc + 5 <= code.len() && le_value(code, s.pc + 1) <= s.stack.len() {
        let c = le_value(code, s.pc + 1) as int;
        let (o, s2) = exec_op(s, code, rs);
        assert(s2.stack.subrange(0, n - c) =~= s.stack.subrange(0, n - c));
    }
    if s.stack.len() >= 2 && s.stack[n - 2] == RdlV::Vector(items) && s.stack[n - 1] == RdlV::Num(i) && 0 <= i < items.len()
        && i <= usize::MAX {
        assert((i as u64) as int == i as int);
        assert(((i as u64) as usize) as int == i as int);
        if code[s.pc] == 0x10 {
            let (o, s2) = exec_op(s, code, rs);
            assert(s2.stack.subrange(0, n - 2) =~= s.stack.subrange(0, n - 2));
        }
    }
    if code[s.pc] == 0x12 && s.stack.len() >= 2 && s.stack[n - 2] == RdlV::Vector(items) {
        let found = if items.contains(s.stack[n - 1]) { s.stack[n - 1] } else { RdlV::Bool(false) };
        assert(exec_op(s, code, rs).1.stack == s.stack.subrange(0, n - 2).push(found));
        assert(s.stack.subrange(0, n - 2).push(found).drop_last() =~= s.stack.subrange(0, n - 2));
    }
}

/// A line comment's text is everything up to the next newline (or the
/// end), which it leaves to be read next.
pub proof fn law_line_comment(input: Seq<char>, p: LexPos, e: int)
    requires
        0 <= p.pos <= e <= input.len(),
        forall|i: int| p.pos <= i < e ==> input[i] != '\n',
        e == input.len() || input[e] == '\n',
    ensures
        spec_line_comment(input, p).0 == input.subrange(p.pos, e),
        spec_line_comment(input, p).1.pos == e,
    decreases e - p.pos,
{
    if p.pos < e {
        law_line_comment(input, lex_advance(input, p), e);
        assert(seq![input[p.pos]] + input.subrange(p.pos + 1, e) =~= input.subrange(p.pos, e));
    } else {
        assert(input.subrange(p.pos, e) =~= Seq::<char>::empty());
    }
}

/// Operators of one or two characters are read whole: `==` and `=`, `!=`,
/// `+=` and `+`, `-=` and `-`, `*=` and `*`, `&&`, `||`, each as its own
/// token, the lexer standing after it.
pub proof fn law_operators(input: Seq<char>, p: LexPos)
    requires
        0 <= p.pos,
        p.pos + 1 < input.len(),
    ensures
        ({
            let c = input[p.pos];
            let d = input[p.pos + 1];
            let r = spec_next_token(input, p);
            let two = |k: TokenKind<Seq<char>>| r matches Ok((t, q)) && t.kind == k && q.pos == p.pos + 2;
            let one = |k: TokenKind<Seq<char>>| r matches Ok((t, q)) && t.kind == k && q.pos == p.pos + 1;
            &&& (c == '=' && d == '=') ==> two(TokenKind::DoubleEquals)
            &&& (c == '=' && d != '=') ==> one(TokenKind::Equals)
            &&& (c == '!' && d == '=') ==> two(TokenKind::NotEquals)
            &&& (c == '+' && d == '=') ==> two(TokenKind::PlusEqual)
            &&& (c == '+' && d != '=') ==> one(TokenKind::Concatenation)
            &&& (c == '-' && d == '=') ==> two(TokenKind::SubstructEqual)
            &&& (c == '-' && d != '=') ==> one(TokenKind::Substruct)
            &&& (c == '*' && d == '=') ==> two(TokenKind::MultiplyEqual)
            &&& (c == '*' && d != '=') ==> one(TokenKind::Multiply)
            &&& (c == '&' && d == '&') ==> two(TokenKind::LogicalAnd)
            &&& (c == '|' && d == '|') ==> two(TokenKind::LogicalOr)
        }),
{
}

/// In a route, `val v = n` with a number literal succeeds and leaves `v`
/// holding that number in the innermost scope, every other name as it was.
pub proof fn law_var_declaration(env: EvEnv, limit: nat, scopes: Seq<Map<RdlV, RdlV>>, var: Seq<char>, n: i64, k: nat,
    other: Seq<char>)
    requires
        scopes.len() > 0,
        other != var,
    ensures
        ({
            let (r, s1, k1) = act(env, false, limit, scopes,
                SpecAst::VarDeclaration { name: var, value: Box::new(SpecAst::NumberLiteral(n)) }, k);
            &&& r is Ok && k1 == k
            &&& lookup(s1, RdlV::Str(var)) == Some(RdlV::Num(n))
            &&& lookup(s1, RdlV::Str(other)) == lookup(scopes, RdlV::Str(other))
        }),
{
    lemma_lookup_after_set(scopes, RdlV::Str(var), RdlV::Num(n), RdlV::Str(other));
}

} // verus!
