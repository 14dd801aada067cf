use vstd::prelude::*;
use vstd::arithmetic::power::pow;
use serde_json::Value;
use crate::language::vm::{RDLTypes, RdlV, rdls_view, rdl_text, lemma_vector_view, arith, arith_value};
use crate::language::compiler::Opcode;
use crate::language::text::{text, str_eq, int_decimal, bool_text, decimal_chars, decimal_value, push_decimal, push_decimal_i64, push_bool};
use crate::language::parser::all_digits;
use crate::utils::{powi, powi_fits, fits_i64};
use super::semantics::json_string;

verus! {

/// How running code can go wrong: a runtime error with its message, a
/// panic with its message, a computation that never ends, or a `while`
/// loop stopped when its condition still held after the allowed number of
/// rounds.
#[derive(Debug)]
pub enum Fault {
    Error(String),
    Panic(String),
    Endless,
    LoopLimit,
}

/// The plain view of a fault.
pub enum FaultV {
    Error(Seq<char>),
    Panic(Seq<char>),
    Endless,
    LoopLimit,
    /// No run ends so: an answer from outside was read for a question
    /// that was not asked.
    Unasked,
}

/// The view of a fault.
pub open spec fn fault_view(f: Fault) -> FaultV {
    match f {
        Fault::Error(m) => FaultV::Error(m@),
        Fault::Panic(m) => FaultV::Panic(m@),
        Fault::Endless => FaultV::Endless,
        Fault::LoopLimit => FaultV::LoopLimit,
    }
}

/// The result of evaluating something: a value or a fault.
pub type Ev = Result<RdlV, FaultV>;

/// The view of an evaluation's result.
pub open spec fn ev_view(r: Result<RDLTypes, Fault>) -> Ev {
    match r {
        Ok(v) => Ok(v@),
        Err(f) => Err(fault_view(f)),
    }
}

/// A runtime error with a message.
pub open spec fn fail(m: Seq<char>) -> Ev {
    Err(FaultV::Error(m))
}

/// A JSON value as the route language reads it out of an array: a
/// string, a number that fits in `i64`, another number with its JSON text,
/// a boolean, `null`, or an array or object with its JSON text.
#[derive(Debug)]
pub enum JsonItem {
    Text(String),
    Int(i64),
    Number(String),
    Bool(bool),
    Null,
    Nested(String),
}

/// The plain view of a JSON value.
pub enum JsonV {
    Str(Seq<char>),
    Int(i64),
    Num(Seq<char>),
    Bool(bool),
    Null,
    Nested(Seq<char>),
}

/// The view of a JSON value.
pub open spec fn json_item_view(i: JsonItem) -> JsonV {
    match i {
        JsonItem::Text(s) => JsonV::Str(s@),
        JsonItem::Int(n) => JsonV::Int(n),
        JsonItem::Number(t) => JsonV::Num(t@),
        JsonItem::Bool(b) => JsonV::Bool(b),
        JsonItem::Null => JsonV::Null,
        JsonItem::Nested(t) => JsonV::Nested(t@),
    }
}

/// The views of a list of JSON values.
pub open spec fn json_items_view(v: Seq<JsonItem>) -> Seq<JsonV> {
    v.map_values(|i: JsonItem| json_item_view(i))
}

/// What `serde_json` reads out of a text as an array, if it is one.
pub uninterp spec fn json_array_of(text: Seq<char>) -> Option<Seq<JsonV>>;

/// What `serde_json` reads out of a text as a single value, if it is one.
pub uninterp spec fn json_value_of(text: Seq<char>) -> Option<JsonV>;

/// The compact JSON text `serde_json` writes for an array of values.
pub uninterp spec fn json_array_text(items: Seq<JsonV>) -> Seq<char>;

/// A value of JSON that the route language writes itself: a string, a
/// number that fits in `i64`, a boolean or `null`.
pub open spec fn is_plain(i: JsonV) -> bool {
    i is Str || i is Int || i is Bool || i is Null
}

/// The compact JSON text of such a value.
pub open spec fn plain_text(i: JsonV) -> Seq<char> {
    match i {
        JsonV::Str(s) => json_string(s),
        JsonV::Int(n) => int_decimal(n as int),
        JsonV::Bool(b) => bool_text(b),
        _ => "null"@,
    }
}

/// The texts of such values separated by commas.
pub open spec fn plain_items(v: Seq<JsonV>) -> Seq<char>
    decreases v.len(),
{
    if v.len() == 0 {
        Seq::empty()
    } else if v.len() == 1 {
        plain_text(v[0])
    } else {
        plain_items(v.drop_last()) + seq![','] + plain_text(v.last())
    }
}

/// Reads a text as a JSON array with `serde_json` (`from_str::<Vec<Value>>`),
/// each value as a `JsonItem`; the result is the named reading of the text.
#[verifier::external_body]
fn parse_json_array(text: &str) -> (r: Option<Vec<JsonItem>>)
    ensures
        match r {
            Some(v) => json_array_of(text@) == Some(json_items_view(v@)),
            None => json_array_of(text@) is None,
        },
{
    let values: Vec<Value> = serde_json::from_str(text).ok()?;
    Some(values.into_iter().map(|v| match v {
        Value::String(s) => JsonItem::Text(s),
        Value::Number(n) => n.as_i64().map_or(JsonItem::Number(n.to_string()), JsonItem::Int),
        Value::Bool(b) => JsonItem::Bool(b),
        Value::Null => JsonItem::Null,
        other => JsonItem::Nested(other.to_string()),
    }).collect())
}

/// Reads a text as one JSON value with `serde_json` (`from_str::<Value>`),
/// as a `JsonItem`; the result is the named reading of the text.
#[verifier::external_body]
fn parse_json_value(text: &str) -> (r: Option<JsonItem>)
    ensures
        match r {
            Some(v) => json_value_of(text@) == Some(json_item_view(v)),
            None => json_value_of(text@) is None,
        },
{
    match serde_json::from_str::<Value>(text).ok()? {
        Value::String(s) => Some(JsonItem::Text(s)),
        Value::Number(n) => Some(n.as_i64().map_or(JsonItem::Number(n.to_string()), JsonItem::Int)),
        Value::Bool(b) => Some(JsonItem::Bool(b)),
        Value::Null => Some(JsonItem::Null),
        other => Some(JsonItem::Nested(other.to_string())),
    }
}

/// Writes an array of values as compact JSON with `serde_json::to_string`
/// (a number or a nested value given by its text is read back from it
/// first). The result is the named text of the array; for strings, numbers
/// that fit in `i64`, booleans and `null` it is stated: the values' texts
/// between brackets, separated by commas, strings quoted and escaped; and
/// `serde_json` reads such a text back as the same values.
#[verifier::external_body]
fn write_json_array(items: &Vec<JsonItem>) -> (r: String)
    ensures
        r@ == json_array_text(json_items_view(items@)),
        (forall|i: int| 0 <= i < items@.len() ==> is_plain(#[trigger] json_items_view(items@)[i]))
            ==> r@ == seq!['['] + plain_items(json_items_view(items@)) + seq![']'],
        (forall|i: int| 0 <= i < items@.len() ==> is_plain(#[trigger] json_items_view(items@)[i]))
            ==> json_array_of(r@) == Some(json_items_view(items@)),
{
    let values: Vec<Value> = items.iter().map(|i| match i {
        JsonItem::Text(s) => Value::String(s.clone()),
        JsonItem::Int(n) => Value::from(*n),
        JsonItem::Bool(b) => Value::Bool(*b),
        JsonItem::Null => Value::Null,
        JsonItem::Number(t) | JsonItem::Nested(t) => serde_json::from_str(t).unwrap_or(Value::Null),
    }).collect();
    serde_json::to_string(&values).unwrap_or_default()
}

/// What `str::parse::<i64>` accepts: an optional `+` or `-`, then one or
/// more ASCII digits whose value, with the sign, fits in `i64`.
pub open spec fn parse_i64(s: Seq<char>) -> Option<i64> {
    let neg = s.len() > 0 && s[0] == '-';
    let digits = if s.len() > 0 && (s[0] == '-' || s[0] == '+') { s.subrange(1, s.len() as int) } else { s };
    let v = if neg { -decimal_value(digits) } else { decimal_value(digits) };
    if digits.len() > 0 && all_digits(digits) && fits_i64(v) {
        Some(v as i64)
    } else {
        None
    }
}

/// Reads a text as an `i64` with `str::parse`, as its documentation
/// states (see `parse_i64`).
#[verifier::external_body]
fn text_to_i64(s: &str) -> (r: Option<i64>)
    ensures
        r == parse_i64(s@),
{
    s.parse::<i64>().ok()
}

/// What the exponent operator gives for `a` and `n` by square-and-multiply:
/// the power when the exponent is non-negative and every product fits;
/// the overflow panic of a product that does not fit; and, for a negative
/// exponent, a loop that never ends when the base is -1, 0 or 1, since
/// halving never brings the exponent to zero, and otherwise the overflow
/// of the ever-squared base.
pub open spec fn pow_value(a: i64, n: i64) -> Ev {
    if n >= 0 {
        if powi_fits(a as int, n as nat, 1) {
            Ok(RdlV::Num(pow(a as int, n as nat) as i64))
        } else {
            Err(FaultV::Panic("attempt to multiply with overflow"@))
        }
    } else if -1 <= a <= 1 {
        Err(FaultV::Endless)
    } else {
        Err(FaultV::Panic("attempt to multiply with overflow"@))
    }
}

/// Whether square-and-multiply keeps every product inside `i64` (see
/// `powi_fits`).
fn powi_fits_exec(base: i64, exp: i64) -> (r: bool)
    requires
        exp >= 0,
    ensures
        r == powi_fits(base as int, exp as nat, 1),
{
    let ghost a0 = base as int;
    let ghost n0 = exp as nat;
    let mut a = base;
    let mut n = exp;
    let mut res: i64 = 1;
    while n != 0
        invariant
            n >= 0,
            a0 == base as int,
            n0 == exp as nat,
            powi_fits(a0, n0, 1) == powi_fits(a as int, n as nat, res as int),
        decreases n,
    {
        let r2 = if n % 2 == 1 { res.checked_mul(a) } else { Some(res) };
        let sq = a.checked_mul(a);
        match (r2, sq) {
            (Some(x), Some(y)) => {
                res = x;
                a = y;
                n = n / 2;
            },
            _ => {
                assert(!powi_fits(a as int, n as nat, res as int));
                return false;
            },
        }
    }
    true
}

/// The exponent operator (see `pow_value`).
pub(crate) fn pow_exec(a: i64, n: i64) -> (r: Result<RDLTypes, Fault>)
    ensures
        ev_view(r) == pow_value(a, n),
{
    if n >= 0 {
        if powi_fits_exec(a, n) {
            Ok(RDLTypes::Number(powi(a, n)))
        } else {
            Err(Fault::Panic(text("attempt to multiply with overflow")))
        }
    } else if -1 <= a && a <= 1 {
        Err(Fault::Endless)
    } else {
        Err(Fault::Panic(text("attempt to multiply with overflow")))
    }
}

/// The message of a value that is not a number where one is needed.
pub open spec fn not_number(v: RdlV, what: Seq<char>) -> Ev {
    fail("Can't convert '"@ + rdl_text(v) + "' into a number for "@ + what)
}

/// Arithmetic on two numbers, where an overflow panics.
pub open spec fn checked(op: Opcode, x: i64, y: i64) -> Ev {
    match arith_value(op, x, y) {
        Ok(v) => Ok(RdlV::Num(v)),
        Err(m) => Err(FaultV::Panic(m)),
    }
}

/// What a binary operator gives for two values: `==` and `!=` the text
/// of the comparison; `+` the sum of two numbers, else the texts joined;
/// `-`, `*`, `/` and `^` numbers only, `/` refusing a zero divisor; `&&`
/// and `||` booleans, where anything but `false` counts as true.
pub open spec fn binary(op: Seq<char>, l: RdlV, r: RdlV) -> Ev {
    if op == "=="@ {
        Ok(RdlV::Str(bool_text(l == r)))
    } else if op == "!="@ {
        Ok(RdlV::Str(bool_text(l != r)))
    } else if op == "+"@ {
        match (l, r) {
            (RdlV::Num(x), RdlV::Num(y)) => checked(Opcode::Add, x, y),
            _ => Ok(RdlV::Str(rdl_text(l) + rdl_text(r))),
        }
    } else if op == "-"@ || op == "*"@ || op == "/"@ || op == "^"@ {
        let what = if op == "-"@ {
            "subtraction"@
        } else if op == "*"@ {
            "multiplication"@
        } else if op == "/"@ {
            "division"@
        } else {
            "raising to a power"@
        };
        match (l, r) {
            (RdlV::Num(x), RdlV::Num(y)) => if op == "-"@ {
                checked(Opcode::Sub, x, y)
            } else if op == "*"@ {
                checked(Opcode::Mul, x, y)
            } else if op == "/"@ {
                if y == 0 { fail("Division by zero"@) } else { checked(Opcode::Div, x, y) }
            } else {
                pow_value(x, y)
            },
            (RdlV::Num(_), _) => not_number(r, what),
            _ => not_number(l, what),
        }
    } else if op == "&&"@ {
        if l == RdlV::Bool(false) { Ok(RdlV::Bool(false)) } else { Ok(RdlV::Bool(r != RdlV::Bool(false))) }
    } else if op == "||"@ {
        if l != RdlV::Bool(false) { Ok(RdlV::Bool(true)) } else { Ok(RdlV::Bool(r != RdlV::Bool(false))) }
    } else {
        fail("Not supported binary operator: "@ + op)
    }
}

/// A runtime error.
fn error_of(m: String) -> (r: Result<RDLTypes, Fault>)
    ensures
        ev_view(r) == fail(m@),
{
    Err(Fault::Error(m))
}

/// `what` for the operator `op`, one of `-`, `*`, `/`, `^`.
fn op_word(op: &str) -> (r: &'static str)
    ensures
        r@ == (if op@ == "-"@ {
            "subtraction"@
        } else if op@ == "*"@ {
            "multiplication"@
        } else if op@ == "/"@ {
            "division"@
        } else {
            "raising to a power"@
        }),
{
    if str_eq(op, "-") {
        "subtraction"
    } else if str_eq(op, "*") {
        "multiplication"
    } else if str_eq(op, "/") {
        "division"
    } else {
        "raising to a power"
    }
}

/// The refusal of a value that is not a number (see `not_number`).
fn not_number_exec(v: &RDLTypes, what: &str) -> (r: Result<RDLTypes, Fault>)
    ensures
        ev_view(r) == not_number(v@, what@),
{
    let mut m = text("Can't convert '");
    let t = v.to_display_string();
    m.append(t.as_str());
    m.append("' into a number for ");
    m.append(what);
    error_of(m)
}

/// Arithmetic on two numbers (see `checked`).
fn checked_exec(op: Opcode, x: i64, y: i64) -> (r: Result<RDLTypes, Fault>)
    requires
        op is Add || op is Sub || op is Mul || op is Div,
    ensures
        ev_view(r) == checked(op, x, y),
{
    match arith(op, x, y) {
        Ok(v) => Ok(RDLTypes::Number(v)),
        Err(m) => Err(Fault::Panic(m)),
    }
}

/// A boolean as text.
fn bool_string(b: bool) -> (r: String)
    ensures
        r@ == bool_text(b),
{
    let mut out = String::new();
    push_bool(&mut out, b);
    out
}

/// Applies a binary operator to two values (see `binary`).
pub fn binary_value(op: &str, l: &RDLTypes, r: &RDLTypes) -> (res: Result<RDLTypes, Fault>)
    ensures
        ev_view(res) == binary(op@, l@, r@),
{
    let f = RDLTypes::Boolean(false);
    if str_eq(op, "==") {
        Ok(RDLTypes::String(bool_string(l.equals(r))))
    } else if str_eq(op, "!=") {
        Ok(RDLTypes::String(bool_string(!l.equals(r))))
    } else if str_eq(op, "+") {
        match (l, r) {
            (RDLTypes::Number(x), RDLTypes::Number(y)) => checked_exec(Opcode::Add, *x, *y),
            _ => {
                let mut t = l.to_display_string();
                let u = r.to_display_string();
                t.append(u.as_str());
                Ok(RDLTypes::String(t))
            },
        }
    } else if str_eq(op, "-") || str_eq(op, "*") || str_eq(op, "/") || str_eq(op, "^") {
        let what = op_word(op);
        match (l, r) {
            (RDLTypes::Number(x), RDLTypes::Number(y)) => {
                if str_eq(op, "-") {
                    checked_exec(Opcode::Sub, *x, *y)
                } else if str_eq(op, "*") {
                    checked_exec(Opcode::Mul, *x, *y)
                } else if str_eq(op, "/") {
                    if *y == 0 {
                        error_of(text("Division by zero"))
                    } else {
                        checked_exec(Opcode::Div, *x, *y)
                    }
                } else {
                    pow_exec(*x, *y)
                }
            },
            (RDLTypes::Number(_), _) => not_number_exec(r, what),
            _ => not_number_exec(l, what),
        }
    } else if str_eq(op, "&&") {
        if l.equals(&f) {
            Ok(RDLTypes::Boolean(false))
        } else {
            Ok(RDLTypes::Boolean(!r.equals(&f)))
        }
    } else if str_eq(op, "||") {
        if !l.equals(&f) {
            Ok(RDLTypes::Boolean(true))
        } else {
            Ok(RDLTypes::Boolean(!r.equals(&f)))
        }
    } else {
        let mut m = text("Not supported binary operator: ");
        m.append(op);
        error_of(m)
    }
}

/// The text `serde_json` gives a value of an array when it is compared or
/// joined: a string itself, a number's text, a boolean's; `None` for
/// `null` and nested values.
pub open spec fn compared_text(i: JsonV) -> Option<Seq<char>> {
    match i {
        JsonV::Str(s) => Some(s),
        JsonV::Int(n) => Some(int_decimal(n as int)),
        JsonV::Num(t) => Some(t),
        JsonV::Bool(b) => Some(bool_text(b)),
        _ => None,
    }
}

/// The text a value of an array is joined with: its compared text, `null`
/// for `null` and a nested value's JSON text.
pub open spec fn joined_text(i: JsonV) -> Seq<char> {
    match i {
        JsonV::Null => "null"@,
        JsonV::Nested(t) => t,
        _ => compared_text(i)->0,
    }
}

/// Texts separated by `sep`.
pub open spec fn join_with(parts: Seq<Seq<char>>, sep: Seq<char>) -> Seq<char>
    decreases parts.len(),
{
    if parts.len() == 0 {
        Seq::empty()
    } else if parts.len() == 1 {
        parts[0]
    } else {
        join_with(parts.drop_last(), sep) + sep + parts.last()
    }
}

/// Whether `elem` is among the values of an array, compared by text; the
/// element must be a string once a value with a text is met.
pub open spec fn contains_from(items: Seq<JsonV>, elem: RdlV) -> Ev
    decreases items.len(),
{
    if items.len() == 0 {
        Ok(RdlV::Bool(false))
    } else {
        match compared_text(items[0]) {
            None => contains_from(items.drop_first(), elem),
            Some(t) => match elem {
                RdlV::Str(s) => if t == s { Ok(RdlV::Bool(true)) } else { contains_from(items.drop_first(), elem) },
                _ => fail("Error with conversion! IN TryFrom<RDLTypes> for String\n"@ + rdl_text(elem) + "\n"@),
            },
        }
    }
}

/// Every value of an array is a string, a number that fits in `i64`, a
/// boolean or `null`.
pub open spec fn all_plain(items: Seq<JsonV>) -> bool {
    forall|i: int| 0 <= i < items.len() ==> is_plain(#[trigger] items[i])
}

/// The JSON value a pushed element becomes: a number, a boolean, or the
/// element's text as a string.
pub open spec fn pushed_item(e: RdlV) -> JsonV {
    match e {
        RdlV::Num(n) => JsonV::Int(n),
        RdlV::Bool(b) => JsonV::Bool(b),
        _ => JsonV::Str(rdl_text(e)),
    }
}

/// What a global function gives for its arguments: the logging functions
/// an empty string, and the functions on JSON arrays held in text their
/// length, the array with an element pushed or the last one popped,
/// whether an element is in it, or its values joined.
pub open spec fn global_call(name: Seq<char>, args: Seq<RdlV>) -> Ev {
    if name == "log_error"@ || name == "log_info"@ || name == "log_trace"@ {
        if args.len() == 1 { Ok(RdlV::Str(Seq::empty())) } else { fail("Функция "@ + name + " требует 1 аргумент"@) }
    } else if name == "array_length"@ {
        if args.len() == 1 {
            match json_array_of(rdl_text(args[0])) {
                None => fail("Аргумент не является массивом"@),
                Some(items) => Ok(RdlV::Num(items.len() as i64)),
            }
        } else {
            fail("Функция array_length требует 1 аргумент"@)
        }
    } else if name == "array_push"@ {
        if args.len() == 2 {
            match json_array_of(rdl_text(args[0])) {
                None => fail("Первый аргумент не является массивом"@),
                Some(items) => Ok(RdlV::Str(json_array_text(items.push(pushed_item(args[1]))))),
            }
        } else {
            fail("Функция array_push требует 2 аргумента"@)
        }
    } else if name == "array_pop"@ {
        if args.len() == 1 {
            match json_array_of(rdl_text(args[0])) {
                None => fail("Аргумент не является массивом"@),
                Some(items) => if items.len() == 0 {
                    fail("Невозможно удалить элемент из пустого массива"@)
                } else {
                    Ok(RdlV::Str(json_array_text(items.drop_last())))
                },
            }
        } else {
            fail("Функция array_pop требует 1 аргумент"@)
        }
    } else if name == "array_contains"@ {
        if args.len() == 2 {
            match json_array_of(rdl_text(args[0])) {
                None => fail("Первый аргумент не является массивом"@),
                Some(items) => contains_from(items, args[1]),
            }
        } else {
            fail("Функция array_contains требует 2 аргумента"@)
        }
    } else if name == "array_join"@ {
        if args.len() == 2 {
            match json_array_of(rdl_text(args[0])) {
                None => fail("Первый аргумент не является массивом"@),
                Some(items) => Ok(RdlV::Str(join_with(items.map_values(|i: JsonV| joined_text(i)), rdl_text(args[1])))),
            }
        } else {
            fail("Функция array_join требует 2 аргумента"@)
        }
    } else {
        fail("Глобальная функция не найдена: "@ + name)
    }
}

/// The compared text of a JSON value (see `compared_text`).
fn compared_text_exec(i: &JsonItem) -> (r: Option<String>)
    ensures
        match compared_text(json_item_view(*i)) {
            Some(t) => r matches Some(x) && x@ == t,
            None => r is None,
        },
{
    match i {
        JsonItem::Text(s) => Some(s.clone()),
        JsonItem::Int(n) => {
            let mut out = String::new();
            push_decimal_i64(&mut out, *n);
            Some(out)
        },
        JsonItem::Number(t) => Some(t.clone()),
        JsonItem::Bool(b) => Some(bool_string(*b)),
        _ => None,
    }
}

/// Whether an element is among the values of an array (see
/// `contains_from`).
fn contains_exec(items: &Vec<JsonItem>, elem: &RDLTypes) -> (r: Result<RDLTypes, Fault>)
    ensures
        ev_view(r) == contains_from(json_items_view(items@), elem@),
{
    let ghost all = json_items_view(items@);
    let n = items.len();
    let mut i: usize = 0;
    assert(all.subrange(0, n as int) =~= all);
    while i < n
        invariant
            i <= n,
            n == items@.len(),
            all == json_items_view(items@),
            contains_from(all, elem@) == contains_from(all.subrange(i as int, n as int), elem@),
        decreases n - i,
    {
        let ghost rest = all.subrange(i as int, n as int);
        assert(rest[0] == json_item_view(items@[i as int]));
        assert(rest.drop_first() =~= all.subrange(i + 1, n as int));
        match compared_text_exec(&items[i]) {
            None => {},
            Some(t) => match elem {
                RDLTypes::String(s) => {
                    if str_eq(t.as_str(), s.as_str()) {
                        return Ok(RDLTypes::Boolean(true));
                    }
                },
                _ => {
                    let mut m = text("Error with conversion! IN TryFrom<RDLTypes> for String\n");
                    let et = elem.to_display_string();
                    m.append(et.as_str());
                    m.append("\n");
                    return error_of(m);
                },
            },
        }
        i = i + 1;
    }
    assert(all.subrange(n as int, n as int) =~= Seq::<JsonV>::empty());
    Ok(RDLTypes::Boolean(false))
}

/// The joined text of a JSON value (see `joined_text`).
fn joined_text_exec(i: &JsonItem) -> (r: String)
    ensures
        r@ == joined_text(json_item_view(*i)),
{
    match i {
        JsonItem::Null => text("null"),
        JsonItem::Nested(t) => t.clone(),
        _ => match compared_text_exec(i) {
            Some(t) => t,
            None => String::new(),
        },
    }
}

/// The values of an array joined by `sep` (see `join_with`).
fn join_exec(items: &Vec<JsonItem>, sep: &str) -> (r: String)
    ensures
        r@ == join_with(json_items_view(items@).map_values(|i: JsonV| joined_text(i)), sep@),
{
    let ghost parts = json_items_view(items@).map_values(|i: JsonV| joined_text(i));
    let mut out = String::new();
    let n = items.len();
    let mut i: usize = 0;
    while i < n
        invariant
            i <= n,
            n == items@.len(),
            parts == json_items_view(items@).map_values(|i: JsonV| joined_text(i)),
            out@ == join_with(parts.subrange(0, i as int), sep@),
        decreases n - i,
    {
        let t = joined_text_exec(&items[i]);
        if i > 0 {
            out.append(sep);
        }
        out.append(t.as_str());
        proof {
            let sub = parts.subrange(0, i + 1);
            assert(sub.drop_last() =~= parts.subrange(0, i as int));
            assert(sub.last() == t@);
            if i == 0 {
                assert(out@ =~= join_with(sub, sep@));
            }
        }
        i = i + 1;
    }
    assert(parts.subrange(0, n as int) =~= parts);
    out
}

/// Parses the text of a value as a JSON array, or gives the error `m`.
fn array_of(v: &RDLTypes) -> (r: Option<Vec<JsonItem>>)
    ensures
        match json_array_of(rdl_text(v@)) {
            Some(items) => r matches Some(x) && json_items_view(x@) == items,
            None => r is None,
        },
{
    let t = v.to_display_string();
    parse_json_array(t.as_str())
}

/// The JSON value a pushed element becomes (see `pushed_item`).
fn pushed_item_exec(e: &RDLTypes) -> (r: JsonItem)
    ensures
        json_item_view(r) == pushed_item(e@),
{
    match e {
        RDLTypes::Number(n) => JsonItem::Int(*n),
        RDLTypes::Boolean(b) => JsonItem::Bool(*b),
        _ => JsonItem::Text(e.to_display_string()),
    }
}

/// The refusal of a call of function `name` with the wrong number of
/// arguments; `tail` says how many it takes.
fn arity_error(name: &str, tail: &str) -> (r: Result<RDLTypes, Fault>)
    ensures
        ev_view(r) == fail("Функция "@ + name@ + tail@),
{
    let mut m = text("Функция ");
    m.append(name);
    m.append(tail);
    error_of(m)
}

/// Calls a global function (see `global_call`).
pub fn call_global_function(name: &str, args: &Vec<RDLTypes>) -> (r: Result<RDLTypes, Fault>)
    ensures
        ev_view(r) == global_call(name@, rdls_view(args@)),
        name@ == "array_push"@ && args@.len() == 2 ==> match json_array_of(rdl_text(args@[0]@)) {
            Some(items) => all_plain(items) ==> (r matches Ok(RDLTypes::String(t))
                && json_array_of(t@) == Some(items.push(pushed_item(args@[1]@)))),
            None => true,
        },
        name@ == "array_pop"@ && args@.len() == 1 ==> match json_array_of(rdl_text(args@[0]@)) {
            Some(items) => (all_plain(items) && items.len() > 0) ==> (r matches Ok(RDLTypes::String(t))
                && json_array_of(t@) == Some(items.drop_last())),
            None => true,
        },
{
    let ghost a = rdls_view(args@);
    proof {
        reveal_strlit("log_error");
        reveal_strlit("log_info");
        reveal_strlit("log_trace");
        reveal_strlit("array_length");
        reveal_strlit("array_push");
        reveal_strlit("array_pop");
        reveal_strlit("array_contains");
        reveal_strlit("array_join");
    }
    if str_eq(name, "log_error") || str_eq(name, "log_info") || str_eq(name, "log_trace") {
        assert(name@ != "array_pop"@ && name@ != "array_push"@) by {
            assert(name@[0] == 'l');
            assert("array_pop"@[0] == 'a');
            assert("array_push"@[0] == 'a');
        }
        if args.len() == 1 {
            Ok(RDLTypes::String(String::new()))
        } else {
            arity_error(name, " требует 1 аргумент")
        }
    } else if str_eq(name, "array_length") {
        assert(name@.len() == 12);
        assert(name@ != "array_pop"@);
        if args.len() != 1 {
            return error_of(text("Функция array_length требует 1 аргумент"));
        }
        match array_of(&args[0]) {
            None => error_of(text("Аргумент не является массивом")),
            Some(items) => Ok(RDLTypes::Number(items.len() as i64)),
        }
    } else if str_eq(name, "array_push") {
        if args.len() != 2 {
            return error_of(text("Функция array_push требует 2 аргумента"));
        }
        match array_of(&args[0]) {
            None => error_of(text("Первый аргумент не является массивом")),
            Some(items) => {
                let mut items = items;
                let ghost before = json_items_view(items@);
                items.push(pushed_item_exec(&args[1]));
                assert(json_items_view(items@) =~= before.push(pushed_item(a[1])));
                assert(a[1] == args@[1]@);
                proof {
                    if all_plain(before) {
                        assert forall|i: int| 0 <= i < items@.len() implies is_plain(#[trigger] json_items_view(items@)[i]) by {
                            if i < before.len() {
                                assert(json_items_view(items@)[i] == before[i]);
                            }
                        }
                    }
                }
                Ok(RDLTypes::String(write_json_array(&items)))
            },
        }
    } else if str_eq(name, "array_pop") {
        if args.len() != 1 {
            return error_of(text("Функция array_pop требует 1 аргумент"));
        }
        match array_of(&args[0]) {
            None => error_of(text("Аргумент не является массивом")),
            Some(items) => {
                if items.len() == 0 {
                    return error_of(text("Невозможно удалить элемент из пустого массива"));
                }
                let mut items = items;
                let ghost before = json_items_view(items@);
                items.pop();
                assert(json_items_view(items@) =~= before.drop_last());
                proof {
                    if all_plain(before) {
                        assert forall|i: int| 0 <= i < items@.len() implies is_plain(#[trigger] json_items_view(items@)[i]) by {
                            assert(json_items_view(items@)[i] == before[i]);
                        }
                    }
                }
                Ok(RDLTypes::String(write_json_array(&items)))
            },
        }
    } else if str_eq(name, "array_contains") {
        if args.len() != 2 {
            return error_of(text("Функция array_contains требует 2 аргумента"));
        }
        match array_of(&args[0]) {
            None => error_of(text("Первый аргумент не является массивом")),
            Some(items) => contains_exec(&items, &args[1]),
        }
    } else if str_eq(name, "array_join") {
        if args.len() != 2 {
            return error_of(text("Функция array_join требует 2 аргумента"));
        }
        match array_of(&args[0]) {
            None => error_of(text("Первый аргумент не является массивом")),
            Some(items) => {
                let sep = args[1].to_display_string();
                Ok(RDLTypes::String(join_exec(&items, sep.as_str())))
            },
        }
    } else {
        let mut m = text("Глобальная функция не найдена: ");
        m.append(name);
        error_of(m)
    }
}

/// The JSON value an item of an array literal becomes: its text is read
/// as the contents of a JSON string; a string that reads as an `i64`
/// becomes that number, any other string stays a string, and a text that
/// is not the contents of a JSON string stays as it is.
pub open spec fn literal_item(v: RdlV) -> JsonV {
    let t = rdl_text(v);
    match json_value_of(seq!['"'] + t + seq!['"']) {
        Some(JsonV::Str(s)) => match parse_i64(s) {
            Some(n) => JsonV::Int(n),
            None => JsonV::Str(s),
        },
        Some(other) => other,
        None => JsonV::Str(t),
    }
}

/// The JSON values of the items of an array literal.
pub open spec fn literal_items(vs: Seq<RdlV>) -> Seq<JsonV> {
    vs.map_values(|v: RdlV| literal_item(v))
}

/// The JSON value an item of an array literal becomes (see
/// `literal_item`).
fn literal_item_exec(v: &RDLTypes) -> (r: JsonItem)
    ensures
        json_item_view(r) == literal_item(v@),
{
    let t = v.to_display_string();
    let mut q = text("\"");
    q.append(t.as_str());
    q.append("\"");
    proof {
        reveal_strlit("\"");
        assert(q@ =~= seq!['"'] + t@ + seq!['"']);
    }
    match parse_json_value(q.as_str()) {
        Some(JsonItem::Text(s)) => match text_to_i64(s.as_str()) {
            Some(n) => JsonItem::Int(n),
            None => JsonItem::Text(s),
        },
        Some(other) => other,
        None => JsonItem::Text(t),
    }
}

/// The value of an array literal with the given items: the JSON text of
/// their JSON values.
pub fn array_literal_value(vals: &Vec<RDLTypes>) -> (r: String)
    ensures
        r@ == json_array_text(literal_items(rdls_view(vals@))),
{
    let mut items: Vec<JsonItem> = Vec::new();
    let n = vals.len();
    let mut i: usize = 0;
    while i < n
        invariant
            i <= n,
            n == vals@.len(),
            json_items_view(items@) == literal_items(rdls_view(vals@)).subrange(0, i as int),
        decreases n - i,
    {
        let ghost before = json_items_view(items@);
        let it = literal_item_exec(&vals[i]);
        assert(rdls_view(vals@)[i as int] == vals@[i as int]@);
        items.push(it);
        assert(json_items_view(items@) =~= before.push(json_item_view(it)));
        assert(json_items_view(items@) =~= literal_items(rdls_view(vals@)).subrange(0, i + 1));
        i = i + 1;
    }
    assert(literal_items(rdls_view(vals@)).subrange(0, n as int) =~= literal_items(rdls_view(vals@)));
    write_json_array(&items)
}

/// The message of `unwrap` on `None`.
pub open spec fn unwrap_none() -> Seq<char> {
    "called `Option::unwrap()` on a `None` value"@
}

/// What an element of a JSON array gives when it is read by index: a
/// string, a number that fits in `i64`, a boolean, `null` as the string
/// `null`; another number or a nested value makes the read panic.
pub open spec fn element_value(i: JsonV) -> Ev {
    match i {
        JsonV::Str(s) => Ok(RdlV::Str(s)),
        JsonV::Int(n) => Ok(RdlV::Num(n)),
        JsonV::Bool(b) => Ok(RdlV::Bool(b)),
        JsonV::Null => Ok(RdlV::Str("null"@)),
        _ => Err(FaultV::Panic(unwrap_none())),
    }
}

/// What `array[index]` gives: the text of the array value read as a JSON
/// array, the index a number taken as unsigned, and the element there.
pub open spec fn access_value(arr: RdlV, idx: RdlV) -> Ev {
    match json_array_of(rdl_text(arr)) {
        None => fail("Значение '"@ + rdl_text(arr) + "' не является массивом"@),
        Some(items) => match idx {
            RdlV::Num(n) => {
                let i = (n as u64) as usize;
                if i >= items.len() {
                    fail("Индекс "@ + decimal_chars(i as nat) + " выходит за границы массива (размер: "@
                        + decimal_chars(items.len()) + ")"@)
                } else {
                    element_value(items[i as int])
                }
            },
            _ => fail("Индекс '"@ + rdl_text(idx) + "' должен быть числом"@),
        },
    }
}

/// Reads an element of an array held in text (see `access_value`).
pub fn access_exec(arr: &RDLTypes, idx: &RDLTypes) -> (r: Result<RDLTypes, Fault>)
    ensures
        ev_view(r) == access_value(arr@, idx@),
{
    let items = match array_of(arr) {
        Some(items) => items,
        None => {
            let mut m = text("Значение '");
            let t = arr.to_display_string();
            m.append(t.as_str());
            m.append("' не является массивом");
            return error_of(m);
        },
    };
    match idx {
        RDLTypes::Number(n) => {
            let i = (*n as u64) as usize;
            if i >= items.len() {
                let mut m = text("Индекс ");
                push_decimal(&mut m, i);
                m.append(" выходит за границы массива (размер: ");
                push_decimal(&mut m, items.len());
                m.append(")");
                return error_of(m);
            }
            match &items[i] {
                JsonItem::Text(s) => Ok(RDLTypes::String(s.clone())),
                JsonItem::Int(v) => Ok(RDLTypes::Number(*v)),
                JsonItem::Bool(b) => Ok(RDLTypes::Boolean(*b)),
                JsonItem::Null => Ok(RDLTypes::String(text("null"))),
                _ => Err(Fault::Panic(text("called `Option::unwrap()` on a `None` value"))),
            }
        },
        _ => {
            let mut m = text("Индекс '");
            let t = idx.to_display_string();
            m.append(t.as_str());
            m.append("' должен быть числом");
            error_of(m)
        },
    }
}

/// The pieces of a text between commas, as `str::split(',')` gives them.
pub open spec fn split_commas(s: Seq<char>) -> Seq<Seq<char>>
    decreases s.len(),
{
    if s.len() == 0 {
        seq![Seq::empty()]
    } else {
        let prev = split_commas(s.drop_last());
        if s.last() == ',' {
            prev.push(Seq::empty())
        } else {
            prev.update(prev.len() - 1, prev.last().push(s.last()))
        }
    }
}

/// The pieces are never none.
proof fn lemma_split_nonempty(s: Seq<char>)
    ensures
        split_commas(s).len() >= 1,
    decreases s.len(),
{
    if s.len() > 0 {
        lemma_split_nonempty(s.drop_last());
    }
}

/// The value a loop item of JSON gives: like an element read by index,
/// but a nested value gives its text, and a number outside `i64` panics.
pub open spec fn loop_item(i: JsonV) -> Ev {
    match i {
        JsonV::Num(_) => Err(FaultV::Panic("explicit panic"@)),
        JsonV::Nested(t) => Ok(RdlV::Str(t)),
        _ => element_value(i),
    }
}

/// The first fault among the loop items of JSON values, if any, else
/// their values.
pub open spec fn loop_items_of(items: Seq<JsonV>) -> Result<Seq<RdlV>, FaultV>
    decreases items.len(),
{
    if items.len() == 0 {
        Ok(Seq::empty())
    } else {
        match loop_items_of(items.drop_last()) {
            Err(f) => Err(f),
            Ok(vs) => match loop_item(items.last()) {
                Err(f) => Err(f),
                Ok(v) => Ok(vs.push(v)),
            },
        }
    }
}

/// The items a `for` loop walks: the values of the iterable's text read
/// as a JSON array; else, where the text has a comma, its pieces between
/// commas; else the iterable itself.
pub open spec fn loop_items(v: RdlV) -> Result<Seq<RdlV>, FaultV> {
    let t = rdl_text(v);
    match json_array_of(t) {
        Some(items) => loop_items_of(items),
        None => if t.contains(',') {
            Ok(split_commas(t).map_values(|p: Seq<char>| RdlV::Str(p)))
        } else {
            Ok(seq![v])
        },
    }
}

/// The pieces of a text between commas, as values (see `split_commas`).
fn split_exec(s: &str) -> (r: Vec<RDLTypes>)
    ensures
        rdls_view(r@) == split_commas(s@).map_values(|p: Seq<char>| RdlV::Str(p)),
{
    let mut done: Vec<RDLTypes> = Vec::new();
    let mut cur = String::new();
    let n = s.unicode_len();
    let mut i: usize = 0;
    proof {
        assert(s@.subrange(0, 0) =~= Seq::<char>::empty());
        assert(split_commas(Seq::<char>::empty()) =~= seq![Seq::<char>::empty()]);
    }
    while i < n
        invariant
            i <= n,
            n == s@.len(),
            ({
                let sp = split_commas(s@.subrange(0, i as int));
                &&& sp.len() >= 1
                &&& rdls_view(done@) == sp.drop_last().map_values(|p: Seq<char>| RdlV::Str(p))
                &&& cur@ == sp.last()
            }),
        decreases n - i,
    {
        let c = s.get_char(i);
        let ghost pre = s@.subrange(0, i as int);
        let ghost pre2 = s@.subrange(0, i + 1);
        assert(pre2.drop_last() =~= pre);
        assert(pre2.last() == c);
        proof {
            lemma_split_nonempty(pre);
        }
        if c == ',' {
            let piece = cur;
            let ghost before = rdls_view(done@);
            done.push(RDLTypes::String(piece));
            cur = String::new();
            proof {
                let sp = split_commas(pre);
                assert(split_commas(pre2) == sp.push(Seq::<char>::empty()));
                assert(split_commas(pre2).drop_last() =~= sp);
                assert(rdls_view(done@) =~= before.push(RdlV::Str(sp.last())));
                assert(sp.drop_last().push(sp.last()) =~= sp);
                assert(sp.map_values(|p: Seq<char>| RdlV::Str(p)) =~= sp.drop_last().map_values(|p: Seq<char>| RdlV::Str(p)).push(RdlV::Str(sp.last())));
            }
        } else {
            crate::language::text::push_char(&mut cur, c);
            proof {
                let sp = split_commas(pre);
                let sp2 = split_commas(pre2);
                assert(sp2 == sp.update(sp.len() - 1, sp.last().push(c)));
                assert(sp2.drop_last() =~= sp.drop_last());
            }
        }
        i = i + 1;
    }
    assert(s@.subrange(0, n as int) =~= s@);
    let ghost before = rdls_view(done@);
    let ghost sp = split_commas(s@);
    done.push(RDLTypes::String(cur));
    proof {
        assert(rdls_view(done@) =~= before.push(RdlV::Str(sp.last())));
        assert(sp.map_values(|p: Seq<char>| RdlV::Str(p)) =~= sp.drop_last().map_values(|p: Seq<char>| RdlV::Str(p)).push(RdlV::Str(sp.last())));
    }
    done
}

/// Whether a text has a comma.
fn has_comma(s: &str) -> (r: bool)
    ensures
        r == s@.contains(','),
{
    let n = s.unicode_len();
    let mut i: usize = 0;
    while i < n
        invariant
            i <= n,
            n == s@.len(),
            forall|j: int| 0 <= j < i ==> s@[j] != ',',
        decreases n - i,
    {
        if s.get_char(i) == ',' {
            assert(s@[i as int] == ',');
            return true;
        }
        i = i + 1;
    }
    false
}

/// A fault among the first items is the fault of all of them.
proof fn lemma_loop_items_fault(items: Seq<JsonV>, k: int)
    requires
        0 <= k <= items.len(),
        loop_items_of(items.subrange(0, k)) is Err,
    ensures
        loop_items_of(items) == loop_items_of(items.subrange(0, k)),
    decreases items.len() - k,
{
    if k < items.len() {
        let sub = items.subrange(0, k + 1);
        assert(sub.drop_last() =~= items.subrange(0, k));
        lemma_loop_items_fault(items, k + 1);
    } else {
        assert(items.subrange(0, k) =~= items);
    }
}

/// The items a `for` loop walks (see `loop_items`).
pub fn loop_items_exec(v: &RDLTypes) -> (r: Result<Vec<RDLTypes>, Fault>)
    ensures
        match loop_items(v@) {
            Ok(vs) => r matches Ok(x) && rdls_view(x@) == vs,
            Err(f) => r matches Err(g) && fault_view(g) == f,
        },
{
    let t = v.to_display_string();
    match parse_json_array(t.as_str()) {
        Some(items) => {
            let ghost all = json_items_view(items@);
            let mut out: Vec<RDLTypes> = Vec::new();
            let n = items.len();
            let mut i: usize = 0;
            assert(all.subrange(0, 0) =~= Seq::<JsonV>::empty());
            assert(rdls_view(out@) =~= Seq::<RdlV>::empty());
            while i < n
                invariant
                    i <= n,
                    n == items@.len(),
                    all == json_items_view(items@),
                    json_array_of(rdl_text(v@)) == Some(all),
                    loop_items_of(all.subrange(0, i as int)) == Ok::<Seq<RdlV>, FaultV>(rdls_view(out@)),
                decreases n - i,
            {
                let ghost sub = all.subrange(0, i + 1);
                assert(sub.drop_last() =~= all.subrange(0, i as int));
                assert(sub.last() == json_item_view(items@[i as int]));
                let x = match &items[i] {
                    JsonItem::Text(s) => RDLTypes::String(s.clone()),
                    JsonItem::Int(k) => RDLTypes::Number(*k),
                    JsonItem::Bool(b) => RDLTypes::Boolean(*b),
                    JsonItem::Null => RDLTypes::String(text("null")),
                    JsonItem::Nested(s) => RDLTypes::String(s.clone()),
                    JsonItem::Number(_) => {
                        proof {
                            assert(loop_items_of(sub) == Err::<Seq<RdlV>, FaultV>(FaultV::Panic("explicit panic"@)));
                            lemma_loop_items_fault(all, (i + 1) as int);
                        }
                        return Err(Fault::Panic(text("explicit panic")));
                    },
                };
                let ghost before = rdls_view(out@);
                out.push(x);
                assert(rdls_view(out@) =~= before.push(x@));
                i = i + 1;
            }
            assert(all.subrange(0, n as int) =~= all);
            Ok(out)
        },
        None => {
            if has_comma(t.as_str()) {
                Ok(split_exec(t.as_str()))
            } else {
                let mut out: Vec<RDLTypes> = Vec::new();
                out.push(v.duplicate());
                assert(rdls_view(out@) =~= seq![v@]);
                Ok(out)
            }
        },
    }
}

} // verus!
