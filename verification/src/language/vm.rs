use vstd::prelude::*;
use crate::language::text::{text, push_decimal, push_decimal_u64, push_decimal_i64, bool_text, decimal_chars, int_decimal};
use crate::language::compiler::{Opcode, opcode_of_byte, le_value, u32_from_le};
use crate::cesium::sdk::utf8;
use crate::language::interpreter::run::{extends, lemma_extends_trans, lemma_extends_refl, utf8_len};

verus! {

/// A value of the route language's bytecode machine. An object is known by
/// the number of its handle.
#[derive(Debug)]
pub enum RDLTypes {
    String(String),
    Number(i64),
    Vector(Vec<RDLTypes>),
    Boolean(bool),
    Object(u64),
}

/// How a plugin's function reports its outcome across the plugin boundary.
#[derive(Debug, Clone, Copy, PartialEq, Eq)]
pub enum FFIStatus {
    Success,
    Failure,
}

/// The kind of a value handed across the plugin boundary.
#[derive(Debug, Clone, Copy, PartialEq, Eq)]
pub enum FFITypeTag {
    Number,
    Boolean,
    String,
    Vector,
    Object,
}

/// The mathematical view of a value.
pub enum RdlV {
    Str(Seq<char>),
    Num(i64),
    Vector(Seq<RdlV>),
    Bool(bool),
    Obj(u64),
}

/// The view of a value.
pub open spec fn rdl_view(v: RDLTypes) -> RdlV
    decreases v,
{
    match v {
        RDLTypes::String(s) => RdlV::Str(s@),
        RDLTypes::Number(n) => RdlV::Num(n),
        RDLTypes::Vector(items) => RdlV::Vector(
            Seq::new(items.len() as nat, |i: int| if 0 <= i < items.len() { rdl_view(items[i]) } else { RdlV::Num(0) }),
        ),
        RDLTypes::Boolean(b) => RdlV::Bool(b),
        RDLTypes::Object(h) => RdlV::Obj(h),
    }
}

impl View for RDLTypes {
    type V = RdlV;

    open spec fn view(&self) -> RdlV {
        rdl_view(*self)
    }
}

/// The views of a list of values.
pub open spec fn rdls_view(v: Seq<RDLTypes>) -> Seq<RdlV> {
    v.map_values(|x: RDLTypes| rdl_view(x))
}

/// The items of a vector value have the views of its elements.
pub proof fn lemma_vector_view(items: Vec<RDLTypes>)
    ensures
        rdl_view(RDLTypes::Vector(items)) == RdlV::Vector(rdls_view(items@)),
{
    assert(rdl_view(RDLTypes::Vector(items))->Vector_0 =~= rdls_view(items@));
}

/// The order of two values, where they have one.
pub enum Order {
    Less,
    Equal,
    Greater,
}

/// How two values compare: numbers by value; strings equal when equal,
/// else by their length in UTF-8 bytes, with no order between different
/// strings of one length; booleans with `false` before `true`, where two
/// `true`s are equal and two `false`s have no order; nothing else has an
/// order.
pub open spec fn rdl_order(a: RdlV, b: RdlV) -> Option<Order> {
    match (a, b) {
        (RdlV::Num(x), RdlV::Num(y)) => if x == y {
            Some(Order::Equal)
        } else if x > y {
            Some(Order::Greater)
        } else {
            Some(Order::Less)
        },
        (RdlV::Str(x), RdlV::Str(y)) => if x == y {
            Some(Order::Equal)
        } else if utf8(x).len() > utf8(y).len() {
            Some(Order::Greater)
        } else if utf8(x).len() < utf8(y).len() {
            Some(Order::Less)
        } else {
            None
        },
        (RdlV::Bool(x), RdlV::Bool(y)) => if x && y {
            Some(Order::Equal)
        } else if !x && y {
            Some(Order::Less)
        } else if x && !y {
            Some(Order::Greater)
        } else {
            None
        },
        _ => None,
    }
}

/// The value's boolean reading: a boolean, or the numbers `0` and `1`.
pub open spec fn bool_of(v: RdlV) -> Result<bool, Seq<char>> {
    match v {
        RdlV::Bool(b) => Ok(b),
        RdlV::Num(n) => if n == 0 {
            Ok(false)
        } else if n == 1 {
            Ok(true)
        } else {
            Err("Type error: Number "@ + int_decimal(n as int) + " cannot be boolean"@)
        },
        _ => Err("Can't convert this type to bool"@),
    }
}

/// What the `!` operator of values gives: a boolean itself, whether a
/// number is `1`, and `false` for anything else.
pub open spec fn not_of(v: RdlV) -> bool {
    match v {
        RdlV::Bool(b) => b,
        RdlV::Num(n) => n == 1,
        _ => false,
    }
}

/// The text of a value: a string itself, a number in decimal, `true` or
/// `false`, `[object Object]` for an object, and for a vector the texts of
/// its items between brackets, separated by a comma and a space.
pub open spec fn rdl_text(v: RdlV) -> Seq<char>
    decreases v,
{
    match v {
        RdlV::Str(s) => s,
        RdlV::Num(n) => int_decimal(n as int),
        RdlV::Bool(b) => bool_text(b),
        RdlV::Obj(_) => "[object Object]"@,
        RdlV::Vector(items) => seq!['['] + rdl_join(items) + seq![']'],
    }
}

/// The texts of values separated by a comma and a space.
pub open spec fn rdl_join(items: Seq<RdlV>) -> Seq<char>
    decreases items,
{
    if items.len() == 0 {
        Seq::empty()
    } else if items.len() == 1 {
        rdl_text(items[0])
    } else {
        rdl_join(items.drop_last()) + ", "@ + rdl_text(items.last())
    }
}

impl RDLTypes {
    /// A copy of the value.
    pub fn duplicate(&self) -> (r: RDLTypes)
        ensures
            r@ == self@,
        decreases self,
    {
        match self {
            RDLTypes::String(s) => RDLTypes::String(s.clone()),
            RDLTypes::Number(n) => RDLTypes::Number(*n),
            RDLTypes::Boolean(b) => RDLTypes::Boolean(*b),
            RDLTypes::Object(h) => RDLTypes::Object(*h),
            RDLTypes::Vector(items) => {
                let mut out: Vec<RDLTypes> = Vec::new();
                let n = items.len();
                let mut i: usize = 0;
                proof {
                    lemma_vector_view(*items);
                }
                while i < n
                    invariant
                        i <= n,
                        n == items@.len(),
                        *self == RDLTypes::Vector(*items),
                        rdls_view(out@) == rdls_view(items@).subrange(0, i as int),
                    decreases n - i,
                {
                    proof {
                        assert(decreases_to!(*self => self->Vector_0));
                        assert(decreases_to!(*items => items@));
                        assert(decreases_to!(items@ => items@[i as int]));
                    }
                    let x = items[i].duplicate();
                    let ghost before = rdls_view(out@);
                    out.push(x);
                    proof {
                        assert(rdls_view(out@) =~= before.push(x@));
                        assert(rdls_view(items@).subrange(0, i + 1) =~= rdls_view(items@).subrange(0, i as int).push(x@));
                    }
                    i = i + 1;
                }
                proof {
                    assert(rdls_view(items@).subrange(0, n as int) =~= rdls_view(items@));
                    lemma_vector_view(out);
                }
                RDLTypes::Vector(out)
            },
        }
    }

    /// Whether two values are equal: strings, numbers and booleans by
    /// value, vectors item by item, objects by handle.
    pub fn equals(&self, other: &RDLTypes) -> (r: bool)
        ensures
            r == (self@ == other@),
        decreases self,
    {
        match (self, other) {
            (RDLTypes::String(a), RDLTypes::String(b)) => crate::language::text::str_eq(a.as_str(), b.as_str()),
            (RDLTypes::Number(a), RDLTypes::Number(b)) => *a == *b,
            (RDLTypes::Boolean(a), RDLTypes::Boolean(b)) => *a == *b,
            (RDLTypes::Object(a), RDLTypes::Object(b)) => *a == *b,
            (RDLTypes::Vector(a), RDLTypes::Vector(b)) => {
                proof {
                    lemma_vector_view(*a);
                    lemma_vector_view(*b);
                }
                if a.len() != b.len() {
                    proof {
                        assert(rdls_view(a@).len() != rdls_view(b@).len());
                    }
                    return false;
                }
                let n = a.len();
                let mut i: usize = 0;
                while i < n
                    invariant
                        i <= n,
                        n == a@.len(),
                        n == b@.len(),
                        *self == RDLTypes::Vector(*a),
                        self@ == RdlV::Vector(rdls_view(a@)),
                        other@ == RdlV::Vector(rdls_view(b@)),
                        forall|j: int| 0 <= j < i ==> rdl_view(a@[j]) == rdl_view(b@[j]),
                    decreases n - i,
                {
                    proof {
                        assert(decreases_to!(*self => self->Vector_0));
                        assert(decreases_to!(*a => a@));
                        assert(decreases_to!(a@ => a@[i as int]));
                    }
                    if !a[i].equals(&b[i]) {
                        proof {
                            assert(rdls_view(a@)[i as int] != rdls_view(b@)[i as int]);
                        }
                        return false;
                    }
                    i = i + 1;
                }
                proof {
                    assert(rdls_view(a@) =~= rdls_view(b@));
                }
                true
            },
            _ => false,
        }
    }

    /// The number a value holds.
    pub fn as_i64(&self) -> (r: Result<i64, String>)
        ensures
            match self@ {
                RdlV::Num(n) => r == Ok::<i64, String>(n),
                _ => r matches Err(e) && e@ == "Can't convert this type to i64"@,
            },
    {
        match self {
            RDLTypes::Number(n) => Ok(*n),
            _ => Err(text("Can't convert this type to i64")),
        }
    }

    /// The number a value holds, as an unsigned number (its two's
    /// complement bits).
    pub fn as_u64(&self) -> (r: Result<u64, String>)
        ensures
            match self@ {
                RdlV::Num(n) => r == Ok::<u64, String>(n as u64),
                _ => r matches Err(e) && e@ == "Can't convert this type to i64"@,
            },
    {
        match self.as_i64() {
            Ok(i) => Ok(i as u64),
            Err(e) => Err(e),
        }
    }

    /// The boolean a value stands for (see `bool_of`).
    pub fn as_bool(&self) -> (r: Result<bool, String>)
        ensures
            match bool_of(self@) {
                Ok(b) => r == Ok::<bool, String>(b),
                Err(m) => r matches Err(e) && e@ == m,
            },
    {
        match self {
            RDLTypes::Boolean(b) => Ok(*b),
            RDLTypes::Number(n) => {
                if *n == 0 {
                    Ok(false)
                } else if *n == 1 {
                    Ok(true)
                } else {
                    let mut m = text("Type error: Number ");
                    push_decimal_i64(&mut m, *n);
                    m.append(" cannot be boolean");
                    Err(m)
                }
            },
            _ => Err(text("Can't convert this type to bool")),
        }
    }

    /// A copy of the items of a vector value.
    pub fn as_vec(&self) -> (r: Result<Vec<RDLTypes>, String>)
        ensures
            match self@ {
                RdlV::Vector(items) => r matches Ok(v) && rdls_view(v@) == items,
                _ => r matches Err(e) && e@ == "Can't convert this type to bool"@,
            },
    {
        match self {
            RDLTypes::Vector(_) => {
                let c = self.duplicate();
                match c {
                    RDLTypes::Vector(items) => {
                        proof {
                            lemma_vector_view(items);
                        }
                        Ok(items)
                    },
                    _ => Err(text("Can't convert this type to bool")),
                }
            },
            _ => Err(text("Can't convert this type to bool")),
        }
    }

    /// What the `!` operator gives (see `not_of`).
    pub fn not_value(&self) -> (r: bool)
        ensures
            r == not_of(self@),
    {
        match self {
            RDLTypes::Boolean(b) => *b,
            RDLTypes::Number(n) => *n == 1,
            _ => false,
        }
    }

    /// The kind a value is handed across the plugin boundary as.
    pub fn ffi_tag(&self) -> (r: FFITypeTag)
        ensures
            r == match self@ {
                RdlV::Num(_) => FFITypeTag::Number,
                RdlV::Bool(_) => FFITypeTag::Boolean,
                RdlV::Str(_) => FFITypeTag::String,
                RdlV::Vector(_) => FFITypeTag::Vector,
                RdlV::Obj(_) => FFITypeTag::Object,
            },
    {
        match self {
            RDLTypes::Number(_) => FFITypeTag::Number,
            RDLTypes::Boolean(_) => FFITypeTag::Boolean,
            RDLTypes::String(_) => FFITypeTag::String,
            RDLTypes::Vector(_) => FFITypeTag::Vector,
            RDLTypes::Object(_) => FFITypeTag::Object,
        }
    }

    /// The text of the value (see `rdl_text`).
    pub fn to_display_string(&self) -> (r: String)
        ensures
            r@ == rdl_text(self@),
        decreases self,
    {
        match self {
            RDLTypes::String(s) => {
                let t = s.clone();
                assert(self@ == RdlV::Str(s@));
                assert(rdl_text(RdlV::Str(s@)) == s@);
                assert(t@ == s@);
                assert(t@ == rdl_text(self@));
                t
            },
            RDLTypes::Number(n) => {
                let mut out = String::new();
                push_decimal_i64(&mut out, *n);
                assert(out@ =~= int_decimal(*n as int));
                out
            },
            RDLTypes::Boolean(b) => {
                let mut out = String::new();
                crate::language::text::push_bool(&mut out, *b);
                assert(out@ =~= bool_text(*b));
                out
            },
            RDLTypes::Object(_) => {
                let t = text("[object Object]");
                assert(t@ == rdl_text(self@));
                t
            },
            RDLTypes::Vector(items) => {
                proof {
                    lemma_vector_view(*items);
                }
                let mut out = text("[");
                let n = items.len();
                let mut i: usize = 0;
                proof {
                    reveal_strlit("[");
                    assert(rdls_view(items@).subrange(0, 0) =~= Seq::<RdlV>::empty());
                    assert(out@ =~= seq!['['] + rdl_join(rdls_view(items@).subrange(0, 0)));
                }
                while i < n
                    invariant
                        i <= n,
                        n == items@.len(),
                        *self == RDLTypes::Vector(*items),
                        out@ == seq!['['] + rdl_join(rdls_view(items@).subrange(0, i as int)),
                    decreases n - i,
                {
                    proof {
                        assert(decreases_to!(*self => self->Vector_0));
                        assert(decreases_to!(*items => items@));
                        assert(decreases_to!(items@ => items@[i as int]));
                    }
                    let t = items[i].to_display_string();
                    let ghost before = out@;
                    if i > 0 {
                        out.append(", ");
                    }
                    out.append(t.as_str());
                    proof {
                        let sub = rdls_view(items@).subrange(0, i + 1);
                        assert(sub.drop_last() =~= rdls_view(items@).subrange(0, i as int));
                        assert(sub.last() == rdl_view(items@[i as int]));
                        if i == 0 {
                            assert(rdls_view(items@).subrange(0, 0) =~= Seq::<RdlV>::empty());
                            assert(out@ =~= seq!['['] + rdl_join(sub));
                        } else {
                            assert(out@ =~= seq!['['] + rdl_join(sub));
                        }
                    }
                    i = i + 1;
                }
                out.append("]");
                proof {
                    reveal_strlit("]");
                    assert(rdls_view(items@).subrange(0, n as int) =~= rdls_view(items@));
                    assert(out@ =~= seq!['['] + rdl_join(rdls_view(items@)) + seq![']']);
                }
                out
            },
        }
    }

    /// How two values compare (see `rdl_order`).
    pub fn partial_compare(&self, other: &RDLTypes) -> (r: Option<Order>)
        ensures
            r == rdl_order(self@, other@),
    {
        match (self, other) {
            (RDLTypes::Number(x), RDLTypes::Number(y)) => {
                if *x == *y {
                    Some(Order::Equal)
                } else if *x > *y {
                    Some(Order::Greater)
                } else {
                    Some(Order::Less)
                }
            },
            (RDLTypes::String(x), RDLTypes::String(y)) => {
                if crate::language::text::str_eq(x.as_str(), y.as_str()) {
                    Some(Order::Equal)
                } else {
                    let lx = utf8_len(x.as_str());
                    let ly = utf8_len(y.as_str());
                    if lx > ly {
                        Some(Order::Greater)
                    } else if lx < ly {
                        Some(Order::Less)
                    } else {
                        None
                    }
                }
            },
            (RDLTypes::Boolean(x), RDLTypes::Boolean(y)) => {
                if *x && *y {
                    Some(Order::Equal)
                } else if !*x && *y {
                    Some(Order::Less)
                } else if *x && !*y {
                    Some(Order::Greater)
                } else {
                    None
                }
            },
            _ => None,
        }
    }
}

/// A method call the machine makes: the object's index, the method's
/// name and the arguments.
pub struct CallReq {
    pub object: int,
    pub method: Seq<char>,
    pub args: Seq<RdlV>,
}

/// A method call and what the object answered.
pub type CallRecord = (CallReq, Result<RdlV, Seq<char>>);

/// The state of a running process: its stack, its variables, its
/// constant strings, how many objects it has, where it is in the bytecode
/// and how many method calls it has made.
pub struct VmV {
    pub stack: Seq<RdlV>,
    pub vars: Map<u32, RdlV>,
    pub constants: Seq<Seq<char>>,
    pub objects: nat,
    pub pc: int,
    pub k: nat,
}

/// How a step of the machine ends: it goes on, the program has ended,
/// it failed with an error, or it hit an arithmetic fault that makes the
/// process panic.
pub enum VmOut {
    Continue,
    Finished,
    Fail(Seq<char>),
    Panic(Seq<char>),
}

/// An uppercase hexadecimal digit.
pub open spec fn hex_upper_digit(d: u8) -> char {
    if d < 10 { ((('0' as u8) + d) as u8) as char } else { ((('A' as u8) + d - 10) as u8) as char }
}

/// A byte as two uppercase hexadecimal digits.
pub open spec fn hex_byte(b: u8) -> Seq<char> {
    seq![hex_upper_digit(b / 16), hex_upper_digit(b % 16)]
}

/// The machine after pushing `v`.
pub open spec fn pushed(s: VmV, v: RdlV) -> VmV {
    VmV { stack: s.stack.push(v), ..s }
}

/// The two operands of a binary instruction: the value below the top, the
/// top, and the stack without them.
pub open spec fn pop_two(s: VmV, name: Seq<char>) -> Result<(RdlV, RdlV, Seq<RdlV>), Seq<char>> {
    let n = s.stack.len();
    if n == 0 {
        Err("Stack overflow: missing first argument for "@ + name)
    } else if n == 1 {
        Err("Stack overflow: missing second argument for "@ + name)
    } else {
        Ok((s.stack[n - 2], s.stack[n - 1], s.stack.subrange(0, n - 2)))
    }
}

/// Nop, Load, Store, Jmp and JmpIfFalse.
pub open spec fn op_control(op: Opcode, s: VmV, code: Seq<u8>) -> (VmOut, VmV) {
    let p = s.pc + 1;
    match op {
        Opcode::Nop => (VmOut::Continue, VmV { pc: p, ..s }),
        Opcode::Load => if p + 4 > code.len() {
            (VmOut::Fail("Malformed bytecode: missing variable index for load"@), s)
        } else {
            let idx = le_value(code, p);
            if s.vars.dom().contains(idx) {
                (VmOut::Continue, VmV { stack: s.stack.push(s.vars[idx]), pc: p + 4, ..s })
            } else {
                (VmOut::Fail("Runtime error: Variable with index "@ + decimal_chars(idx as nat) + " is not defined"@), s)
            }
        },
        Opcode::Store => if p + 4 > code.len() {
            (VmOut::Fail("Malformed bytecode: missing variable index for Store"@), s)
        } else if s.stack.len() == 0 {
            (VmOut::Fail("Stack overflow: missing value for Store"@), s)
        } else {
            let idx = le_value(code, p);
            (VmOut::Continue, VmV { stack: s.stack.drop_last(), vars: s.vars.insert(idx, s.stack.last()), pc: p + 4, ..s })
        },
        Opcode::Jmp => if p + 4 > code.len() {
            (VmOut::Fail("Malformed bytecode: missing target address for Jmp"@), s)
        } else {
            let t = le_value(code, p);
            if t > code.len() {
                (VmOut::Fail("Runtime error: Jmp target "@ + decimal_chars(t as nat) + " is out of bytecode bounds"@), s)
            } else {
                (VmOut::Continue, VmV { pc: t as int, ..s })
            }
        },
        Opcode::JmpIfFalse => if p + 4 > code.len() {
            (VmOut::Fail("Malformed bytecode: missing target address for JmpIfFalse"@), s)
        } else {
            let t = le_value(code, p);
            if t > code.len() {
                (VmOut::Fail("Runtime error: JmpIfFalse target "@ + decimal_chars(t as nat) + " is out of bounds"@), s)
            } else if s.stack.len() == 0 {
                (VmOut::Fail("Stack overflow: missing condition for JmpIfFalse"@), s)
            } else {
                match bool_of(s.stack.last()) {
                    Err(_) => (VmOut::Fail("Type error: JmpIfFalse condition must be Boolean"@), s),
                    Ok(c) => (VmOut::Continue, VmV { stack: s.stack.drop_last(), pc: if !c { t as int } else { p + 4 }, ..s }),
                }
            }
        },
        _ => (VmOut::Finished, s),
    }
}

/// MakeArray, PushToArray, GetByIndexFromArray, RemoveByIndexFromArray
/// and FindAndGetFirstElementInArray.
pub open spec fn op_array(op: Opcode, s: VmV, code: Seq<u8>) -> (VmOut, VmV) {
    let p = s.pc + 1;
    let n = s.stack.len();
    match op {
        Opcode::MakeArray => if p + 4 > code.len() {
            (VmOut::Fail("Malformed bytecode: missing count for MakeArray"@), s)
        } else {
            let count = le_value(code, p) as int;
            if n < count {
                (VmOut::Fail("Stack overflow during MakeArray"@), s)
            } else {
                (
                    VmOut::Continue,
                    VmV { stack: s.stack.subrange(0, n - count).push(RdlV::Vector(s.stack.subrange(n - count, n as int))), pc: p + 4, ..s },
                )
            }
        },
        Opcode::PushToArray => if n == 0 {
            (VmOut::Fail("Stack overflow: missing item for PushToVector"@), s)
        } else if n == 1 {
            (VmOut::Fail("Stack overflow: missing array for PushToArray"@), s)
        } else if !(s.stack[n - 2] is Vector) {
            (VmOut::Fail("Type error: PushToArray expected a Vector as the target"@), s)
        } else {
            (VmOut::Continue, VmV { stack: s.stack.subrange(0, n - 1), pc: p, ..s })
        },
        Opcode::GetByIndexFromArray => if n == 0 {
            (VmOut::Fail("Stack overflow: missing index for GetByIndexFromArray"@), s)
        } else if !(s.stack[n - 1] is Num) {
            (VmOut::Fail("Type error: index must be a Number"@), s)
        } else if n == 1 {
            (VmOut::Fail("Stack overflow: missing array for GetByIndexFromArray"@), s)
        } else {
            let idx = ((s.stack[n - 1]->Num_0 as u64) as usize) as int;
            match s.stack[n - 2] {
                RdlV::Vector(items) => if idx >= items.len() {
                    (VmOut::Fail("Index out of bounds: index is "@ + decimal_chars(idx as nat) + ", but array length is "@
                        + decimal_chars(items.len())), s)
                } else {
                    (VmOut::Continue, VmV { stack: s.stack.subrange(0, n - 2).push(items[idx]), pc: p, ..s })
                },
                _ => (VmOut::Fail("Type error: GetByIndexFromArray expected a Vector"@), s),
            }
        },
        Opcode::RemoveByIndexFromArray => if n == 0 {
            (VmOut::Fail("Stack overflow: missing index for RemoveByIndexFromArray"@), s)
        } else if !(s.stack[n - 1] is Num) {
            (VmOut::Fail("Type error: index must be a Number"@), s)
        } else if n == 1 {
            (VmOut::Fail("Stack overflow: missing array for RemoveByIndexFromArray"@), s)
        } else {
            let idx = ((s.stack[n - 1]->Num_0 as u64) as usize) as int;
            match s.stack[n - 2] {
                RdlV::Vector(items) => if idx >= items.len() {
                    (VmOut::Fail("Index out of bounds for removal from array: index "@ + decimal_chars(idx as nat) + ", length "@
                        + decimal_chars(items.len())), s)
                } else {
                    (
                        VmOut::Continue,
                        VmV { stack: s.stack.subrange(0, n - 2).push(RdlV::Vector(items.remove(idx))).push(items[idx]), pc: p, ..s },
                    )
                },
                _ => (VmOut::Fail("Type error: RemoveByIndexFromArray expected a Vector"@), s),
            }
        },
        Opcode::FindAndGetFirstElementInArray => if n == 0 {
            (VmOut::Fail("Stack overflow: missing target value for FindAndGetFirstElementInArray"@), s)
        } else if n == 1 {
            (VmOut::Fail("Stack overflow: missing array for FindAndGetFirstElementInArray"@), s)
        } else {
            match s.stack[n - 2] {
                RdlV::Vector(items) => {
                    let target = s.stack[n - 1];
                    let found = if items.contains(target) { target } else { RdlV::Bool(false) };
                    (VmOut::Continue, VmV { stack: s.stack.subrange(0, n - 2).push(found), pc: p, ..s })
                },
                _ => (VmOut::Fail("Type error: FindAndGetFirstElementInArray expected a Vector"@), s),
            }
        },
        _ => (VmOut::Finished, s),
    }
}

/// The name of a binary instruction in its error messages.
pub open spec fn op_name(op: Opcode) -> Seq<char> {
    match op {
        Opcode::And => "And"@,
        Opcode::Or => "Or"@,
        Opcode::Less => "Less"@,
        Opcode::LessEq => "LessEq"@,
        Opcode::Greater => "Greater"@,
        Opcode::GreaterEq => "GreaterEq"@,
        Opcode::NotEq => "NotEq"@,
        Opcode::Eq => "Eq"@,
        Opcode::Add => "Add"@,
        Opcode::Sub => "Sub"@,
        Opcode::Mul => "Mul"@,
        _ => "Div"@,
    }
}

/// The boolean a comparison instruction gives.
pub open spec fn compare_value(op: Opcode, a: RdlV, b: RdlV) -> bool {
    let o = rdl_order(a, b);
    match op {
        Opcode::Less => o == Some(Order::Less),
        Opcode::LessEq => o == Some(Order::Less) || o == Some(Order::Equal),
        Opcode::Greater => o == Some(Order::Greater),
        Opcode::GreaterEq => o == Some(Order::Greater) || o == Some(Order::Equal),
        Opcode::NotEq => a != b,
        _ => a == b,
    }
}

/// And, Or, the comparisons, Not, NotEq and Eq.
pub open spec fn op_logic(op: Opcode, s: VmV) -> (VmOut, VmV) {
    let p = s.pc + 1;
    if op is Not {
        if s.stack.len() == 0 {
            (VmOut::Fail("Stack overflow: missing argument for Not"@), s)
        } else {
            (VmOut::Continue, VmV { stack: s.stack.drop_last().push(RdlV::Bool(not_of(s.stack.last()))), pc: p, ..s })
        }
    } else {
        match pop_two(s, op_name(op)) {
            Err(m) => (VmOut::Fail(m), s),
            Ok((a, b, rest)) => if op is And || op is Or {
                match (bool_of(a), bool_of(b)) {
                    (Err(_), _) => (VmOut::Fail("Type error: argument A is not a Boolean"@), s),
                    (_, Err(_)) => (VmOut::Fail("Type error: argument B is not a Boolean"@), s),
                    (Ok(x), Ok(y)) => (VmOut::Continue, VmV { stack: rest.push(RdlV::Bool(if op is And { x && y } else { x || y })), pc: p, ..s }),
                }
            } else {
                (VmOut::Continue, VmV { stack: rest.push(RdlV::Bool(compare_value(op, a, b))), pc: p, ..s })
            },
        }
    }
}

/// Integer division rounding toward zero.
pub open spec fn trunc_div(x: int, y: int) -> int {
    let ax = if x < 0 { -x } else { x };
    let ay = if y < 0 { -y } else { y };
    let q = ax / ay;
    if (x < 0) != (y < 0) { -q } else { q }
}

/// The result of an arithmetic instruction on two numbers, or the panic
/// message of its fault.
pub open spec fn arith_value(op: Opcode, x: i64, y: i64) -> Result<i64, Seq<char>> {
    match op {
        Opcode::Add => if i64::MIN <= x + y <= i64::MAX { Ok((x + y) as i64) } else { Err("attempt to add with overflow"@) },
        Opcode::Sub => if i64::MIN <= x - y <= i64::MAX { Ok((x - y) as i64) } else { Err("attempt to subtract with overflow"@) },
        Opcode::Mul => if i64::MIN <= x * y <= i64::MAX { Ok((x * y) as i64) } else { Err("attempt to multiply with overflow"@) },
        _ => if y == 0 {
            Err("attempt to divide by zero"@)
        } else if x == i64::MIN && y == -1 {
            Err("attempt to divide with overflow"@)
        } else {
            Ok(trunc_div(x as int, y as int) as i64)
        },
    }
}

/// Add, Sub, Mul and Div.
pub open spec fn op_arith(op: Opcode, s: VmV) -> (VmOut, VmV) {
    let p = s.pc + 1;
    match pop_two(s, op_name(op)) {
        Err(m) => (VmOut::Fail(m), s),
        Ok((a, b, rest)) => match (a, b) {
            (RdlV::Num(x), RdlV::Num(y)) => match arith_value(op, x, y) {
                Err(m) => (VmOut::Panic(m), s),
                Ok(v) => (VmOut::Continue, VmV { stack: rest.push(RdlV::Num(v)), pc: p, ..s }),
            },
            (RdlV::Num(_), _) => (VmOut::Fail("Type error: argument B is not a Number"@), s),
            _ => (VmOut::Fail("Type error: argument A is not a Number"@), s),
        },
    }
}

/// What goes wrong before a Call instruction reaches its object, if
/// anything.
pub open spec fn call_error(s: VmV, code: Seq<u8>) -> Option<Seq<char>> {
    let p = s.pc + 1;
    if p + 12 > code.len() {
        Some("Malformed bytecode: unexpected EOF in Call instruction arguments"@)
    } else {
        let obj = le_value(code, p);
        let ci = le_value(code, p + 4);
        let argc = le_value(code, p + 8);
        if s.stack.len() < argc {
            Some("Stack underflow while taking arguments for method call"@)
        } else if ci >= s.constants.len() {
            Some("Constant string not found at index "@ + decimal_chars(ci as nat))
        } else if obj >= s.objects {
            Some("Object not found at index "@ + decimal_chars(obj as nat))
        } else {
            None
        }
    }
}

/// The method call a Call instruction makes when it reaches its object:
/// the object, the constant that names the method and the top `argc`
/// values in stack order.
pub open spec fn call_request(s: VmV, code: Seq<u8>) -> Option<CallReq> {
    if s.pc < code.len() && opcode_of_byte(code[s.pc]) == Some(Opcode::Call) && call_error(s, code) is None {
        let p = s.pc + 1;
        let argc = le_value(code, p + 8) as int;
        let n = s.stack.len();
        Some(CallReq { object: le_value(code, p) as int, method: s.constants[le_value(code, p + 4) as int], args: s.stack.subrange(n - argc, n as int) })
    } else {
        None
    }
}

/// A Call instruction, with the `s.k`-th record of `rs` as the object's
/// answer.
pub open spec fn op_call(s: VmV, code: Seq<u8>, rs: Seq<CallRecord>) -> (VmOut, VmV) {
    match call_error(s, code) {
        Some(m) => (VmOut::Fail(m), s),
        None => {
            let p = s.pc + 1;
            let argc = le_value(code, p + 8) as int;
            let n = s.stack.len();
            let rest = s.stack.subrange(0, n - argc);
            if s.k < rs.len() {
                match rs[s.k as int].1 {
                    Err(e) => (VmOut::Fail(e), VmV { k: s.k + 1, ..s }),
                    Ok(v) => (VmOut::Continue, VmV { stack: rest.push(v), pc: p + 12, k: s.k + 1, ..s }),
                }
            } else {
                (VmOut::Fail(Seq::empty()), s)
            }
        },
    }
}

/// Runs the instruction at `s.pc`, which lies within the bytecode.
pub open spec fn exec_op(s: VmV, code: Seq<u8>, rs: Seq<CallRecord>) -> (VmOut, VmV) {
    let b = code[s.pc];
    match opcode_of_byte(b) {
        None => (VmOut::Fail("Unknown or unhandled opcode: 0x"@ + hex_byte(b)), s),
        Some(op) => match op {
            Opcode::Nop | Opcode::Load | Opcode::Store | Opcode::Jmp | Opcode::JmpIfFalse => op_control(op, s, code),
            Opcode::MakeArray | Opcode::PushToArray | Opcode::GetByIndexFromArray | Opcode::RemoveByIndexFromArray
            | Opcode::FindAndGetFirstElementInArray => op_array(op, s, code),
            Opcode::Add | Opcode::Sub | Opcode::Mul | Opcode::Div => op_arith(op, s),
            Opcode::Call => op_call(s, code, rs),
            Opcode::RET => (VmOut::Finished, s),
            _ => op_logic(op, s),
        },
    }
}

/// A step: the program ends when the position leaves the bytecode; each
/// instruction counts as an operation, and going over `limit` operations
/// fails.
pub open spec fn vm_step(s: VmV, code: Seq<u8>, rs: Seq<CallRecord>, count: nat, limit: nat) -> (VmOut, VmV, nat) {
    if s.pc >= code.len() {
        (VmOut::Finished, s, count)
    } else if count >= u32::MAX {
        (VmOut::Panic("attempt to add with overflow"@), s, count)
    } else if count + 1 > limit {
        (VmOut::Fail("Runtime error: bytecode operations are out of range"@), s, count + 1)
    } else {
        let (o, s2) = exec_op(s, code, rs);
        (o, s2, count + 1)
    }
}

/// Runs the machine until it stops: the outcome, the last state and the
/// number of operations.
pub open spec fn vm_run(s: VmV, code: Seq<u8>, rs: Seq<CallRecord>, count: nat, limit: nat) -> (VmOut, VmV, nat)
    decreases limit + 1 - count,
{
    let (o, s2, c2) = vm_step(s, code, rs, count, limit);
    if o is Continue && c2 > count && count <= limit {
        vm_run(s2, code, rs, c2, limit)
    } else {
        (o, s2, c2)
    }
}

/// An object whose methods bytecode calls, as a host provides it.
pub trait Object {
    /// The name scripts know the object by.
    fn name(&self) -> String;

    /// Calls method `name` with `args`.
    fn call_method(&mut self, name: &str, args: Vec<RDLTypes>) -> Result<RDLTypes, String>;

    /// Whether the object has method `name`.
    fn method_exist(&self, name: &str) -> bool;

    /// Whether the object has property `name`.
    fn property_exist(&self, name: &str) -> bool;

    /// The value of property `name`.
    fn get_property(&self, name: &str) -> RDLTypes;
}

/// How a step of the machine ended.
#[derive(Debug)]
pub enum StepOutcome {
    Continue,
    Finished,
    Fail(String),
    Panic(String),
}

/// The plain view of a step's outcome.
pub open spec fn outcome_view(o: StepOutcome) -> VmOut {
    match o {
        StepOutcome::Continue => VmOut::Continue,
        StepOutcome::Finished => VmOut::Finished,
        StepOutcome::Fail(m) => VmOut::Fail(m@),
        StepOutcome::Panic(m) => VmOut::Panic(m@),
    }
}

/// A process of the bytecode machine: its stack, its variables, its
/// objects, its constant strings and its position in the bytecode, with
/// the record of the method calls it made.
pub struct ProcessContext<O> {
    stack: Vec<RDLTypes>,
    variables: std::collections::HashMap<u32, RDLTypes>,
    objects: Vec<O>,
    constants: Vec<String>,
    pc: usize,
    calls: Ghost<Seq<CallRecord>>,
}

impl<O: Object> ProcessContext<O> {
    /// The state of the process.
    pub closed spec fn state(&self) -> VmV {
        VmV {
            stack: rdls_view(self.stack@),
            vars: self.variables@.map_values(|v: RDLTypes| rdl_view(v)),
            constants: self.constants@.map_values(|c: String| c@),
            objects: self.objects@.len(),
            pc: self.pc as int,
            k: self.calls@.len(),
        }
    }

    /// The method calls made so far, with their answers.
    pub closed spec fn calls(&self) -> Seq<CallRecord> {
        self.calls@
    }

    /// A process with the given constant strings, an empty stack, no
    /// variables and no objects, at the start of the bytecode.
    pub fn new(constants: Vec<String>) -> (r: Self)
        ensures
            r.state() == (VmV {
                stack: Seq::empty(),
                vars: Map::empty(),
                constants: constants@.map_values(|c: String| c@),
                objects: 0,
                pc: 0,
                k: 0,
            }),
            r.calls() == Seq::<CallRecord>::empty(),
    {
        let r = ProcessContext {
            stack: Vec::new(),
            variables: std::collections::HashMap::new(),
            objects: Vec::new(),
            constants,
            pc: 0,
            calls: Ghost(Seq::empty()),
        };
        proof {
            assert(r.state().stack =~= Seq::<RdlV>::empty());
            assert(r.state().vars =~= Map::<u32, RdlV>::empty());
        }
        r
    }

    /// Adds an object; its index is the number of objects before it.
    pub fn add_object(&mut self, object: O)
        ensures
            final(self).state() == (VmV { objects: old(self).state().objects + 1, ..old(self).state() }),
            final(self).calls() == old(self).calls(),
    {
        self.objects.push(object);
    }
}

/// The plain view of an object's answer.
pub open spec fn answer_view(r: Result<RDLTypes, String>) -> Result<RdlV, Seq<char>> {
    match r {
        Ok(v) => Ok(v@),
        Err(e) => Err(e@),
    }
}

/// Whether `k` bytes from position `p` lie within `n` bytes.
fn fits(p: usize, k: usize, n: usize) -> (r: bool)
    ensures
        r == (p + k <= n),
{
    k <= n && p <= n - k
}

/// Appends a byte as two uppercase hexadecimal digits.
fn push_hex_byte(out: &mut String, b: u8)
    ensures
        final(out)@ == old(out)@ + hex_byte(b),
{
    let hi = b / 16;
    let lo = b % 16;
    let c1 = if hi < 10 { (('0' as u8) + hi) as char } else { (('A' as u8) + hi - 10) as char };
    let c2 = if lo < 10 { (('0' as u8) + lo) as char } else { (('A' as u8) + lo - 10) as char };
    crate::language::text::push_char(out, c1);
    crate::language::text::push_char(out, c2);
    proof {
        assert(old(out)@.push(c1).push(c2) =~= old(out)@ + hex_byte(b));
    }
}

impl<O: Object> ProcessContext<O> {
    /// Pops the two operands of a binary instruction (see `pop_two`).
    fn pop_operands(&mut self, name: &str) -> (r: Result<(RDLTypes, RDLTypes), String>)
        ensures
            final(self).calls() == old(self).calls(),
            match pop_two(old(self).state(), name@) {
                Ok((a, b, rest)) => r matches Ok((x, y)) && x@ == a && y@ == b
                    && final(self).state() == (VmV { stack: rest, ..old(self).state() }),
                Err(m) => r matches Err(e) && e@ == m,
            },
    {
        let ghost st = rdls_view(self.stack@);
        let b = match self.stack.pop() {
            Some(v) => v,
            None => {
                let mut m = text("Stack overflow: missing first argument for ");
                m.append(name);
                return Err(m);
            },
        };
        let a = match self.stack.pop() {
            Some(v) => v,
            None => {
                let mut m = text("Stack overflow: missing second argument for ");
                m.append(name);
                return Err(m);
            },
        };
        proof {
            let n = st.len();
            assert(rdls_view(self.stack@) =~= st.subrange(0, n - 2));
        }
        Ok((a, b))
    }

    /// Pushes a value.
    fn push_value(&mut self, v: RDLTypes)
        ensures
            final(self).calls() == old(self).calls(),
            final(self).state() == pushed(old(self).state(), v@),
    {
        let ghost st = rdls_view(self.stack@);
        self.stack.push(v);
        proof {
            assert(rdls_view(self.stack@) =~= st.push(v@));
        }
    }

    /// Runs Nop, Load, Store, Jmp or JmpIfFalse (see `op_control`).
    #[verifier::spinoff_prover]
    #[verifier::rlimit(40)]
    fn exec_control(&mut self, op: Opcode, code: &Vec<u8>) -> (r: StepOutcome)
        requires
            op is Nop || op is Load || op is Store || op is Jmp || op is JmpIfFalse,
            old(self).pc < code@.len(),
        ensures
            final(self).calls() == old(self).calls(),
            ({
                let (o, s2) = op_control(op, old(self).state(), code@);
                &&& outcome_view(r) == o
                &&& (o is Continue ==> final(self).state() == s2)
            }),
    {
        broadcast use vstd::std_specs::hash::group_hash_axioms;
        let ghost s0 = self.state();
        let n = code.len();
        let p = self.pc + 1;
        match op {
            Opcode::Nop => {
                self.pc = p;
                StepOutcome::Continue
            },
            Opcode::Load => {
                if !fits(p, 4, n) {
                    return StepOutcome::Fail(text("Malformed bytecode: missing variable index for load"));
                }
                let idx = u32_from_le(code, p);
                match self.variables.get(&idx) {
                    Some(v) => {
                        let x = v.duplicate();
                        proof {
                            assert(s0.vars.dom().contains(idx));
                            assert(x@ == s0.vars[idx]);
                        }
                        self.push_value(x);
                        self.pc = p + 4;
                        StepOutcome::Continue
                    },
                    None => {
                        let mut m = text("Runtime error: Variable with index ");
                        push_decimal_u64(&mut m, idx as u64);
                        m.append(" is not defined");
                        StepOutcome::Fail(m)
                    },
                }
            },
            Opcode::Store => {
                if !fits(p, 4, n) {
                    return StepOutcome::Fail(text("Malformed bytecode: missing variable index for Store"));
                }
                let idx = u32_from_le(code, p);
                let ghost st = rdls_view(self.stack@);
                match self.stack.pop() {
                    Some(v) => {
                        proof {
                            assert(rdls_view(self.stack@) =~= st.drop_last());
                            assert(v@ == st.last());
                        }
                        let ghost vars0 = self.variables@;
                        self.variables.insert(idx, v);
                        proof {
                            assert(self.variables@.map_values(|v: RDLTypes| rdl_view(v))
                                =~= vars0.map_values(|v: RDLTypes| rdl_view(v)).insert(idx, st.last()));
                        }
                        self.pc = p + 4;
                        StepOutcome::Continue
                    },
                    None => StepOutcome::Fail(text("Stack overflow: missing value for Store")),
                }
            },
            Opcode::Jmp => {
                if !fits(p, 4, n) {
                    return StepOutcome::Fail(text("Malformed bytecode: missing target address for Jmp"));
                }
                let t = u32_from_le(code, p);
                if (t as u64) > (n as u64) {
                    let mut m = text("Runtime error: Jmp target ");
                    push_decimal_u64(&mut m, t as u64);
                    m.append(" is out of bytecode bounds");
                    return StepOutcome::Fail(m);
                }
                self.pc = t as usize;
                StepOutcome::Continue
            },
            _ => {
                if !fits(p, 4, n) {
                    return StepOutcome::Fail(text("Malformed bytecode: missing target address for JmpIfFalse"));
                }
                let t = u32_from_le(code, p);
                if (t as u64) > (n as u64) {
                    let mut m = text("Runtime error: JmpIfFalse target ");
                    push_decimal_u64(&mut m, t as u64);
                    m.append(" is out of bounds");
                    return StepOutcome::Fail(m);
                }
                let ghost st = rdls_view(self.stack@);
                let c = match self.stack.pop() {
                    Some(v) => v,
                    None => {
                        return StepOutcome::Fail(text("Stack overflow: missing condition for JmpIfFalse"));
                    },
                };
                proof {
                    assert(rdls_view(self.stack@) =~= st.drop_last());
                    assert(c@ == st.last());
                }
                match c.as_bool() {
                    Ok(b) => {
                        if !b {
                            self.pc = t as usize;
                        } else {
                            self.pc = p + 4;
                        }
                        StepOutcome::Continue
                    },
                    Err(_) => StepOutcome::Fail(text("Type error: JmpIfFalse condition must be Boolean")),
                }
            },
        }
    }
}

impl<O: Object> ProcessContext<O> {
    /// Runs MakeArray, PushToArray, GetByIndexFromArray,
    /// RemoveByIndexFromArray or FindAndGetFirstElementInArray (see
    /// `op_array`).
    #[verifier::spinoff_prover]
    #[verifier::rlimit(60)]
    fn exec_array(&mut self, op: Opcode, code: &Vec<u8>) -> (r: StepOutcome)
        requires
            op is MakeArray || op is PushToArray || op is GetByIndexFromArray || op is RemoveByIndexFromArray
                || op is FindAndGetFirstElementInArray,
            old(self).pc < code@.len(),
        ensures
            final(self).calls() == old(self).calls(),
            ({
                let (o, s2) = op_array(op, old(self).state(), code@);
                &&& outcome_view(r) == o
                &&& (o is Continue ==> final(self).state() == s2)
            }),
    {
        let ghost s0 = self.state();
        let ghost st = rdls_view(self.stack@);
        let n = code.len();
        let p = self.pc + 1;
        let len = self.stack.len();
        match op {
            Opcode::MakeArray => {
                if !fits(p, 4, n) {
                    return StepOutcome::Fail(text("Malformed bytecode: missing count for MakeArray"));
                }
                let count = u32_from_le(code, p) as usize;
                if len < count {
                    return StepOutcome::Fail(text("Stack overflow during MakeArray"));
                }
                let items = self.stack.split_off(len - count);
                proof {
                    assert(rdls_view(self.stack@) =~= st.subrange(0, len - count));
                    assert(rdls_view(items@) =~= st.subrange(len - count, len as int));
                    lemma_vector_view(items);
                }
                self.push_value(RDLTypes::Vector(items));
                self.pc = p + 4;
                StepOutcome::Continue
            },
            Opcode::PushToArray => {
                if len == 0 {
                    return StepOutcome::Fail(text("Stack overflow: missing item for PushToVector"));
                }
                if len == 1 {
                    return StepOutcome::Fail(text("Stack overflow: missing array for PushToArray"));
                }
                let _item = self.stack.pop();
                match &self.stack[len - 2] {
                    RDLTypes::Vector(_) => {},
                    _ => {
                        return StepOutcome::Fail(text("Type error: PushToArray expected a Vector as the target"));
                    },
                }
                proof {
                    assert(rdls_view(self.stack@) =~= st.subrange(0, len - 1));
                }
                self.pc = p;
                StepOutcome::Continue
            },
            Opcode::GetByIndexFromArray => {
                if len == 0 {
                    return StepOutcome::Fail(text("Stack overflow: missing index for GetByIndexFromArray"));
                }
                let idx = match self.stack[len - 1].as_u64() {
                    Ok(i) => i as usize,
                    Err(_) => {
                        return StepOutcome::Fail(text("Type error: index must be a Number"));
                    },
                };
                if len == 1 {
                    return StepOutcome::Fail(text("Stack overflow: missing array for GetByIndexFromArray"));
                }
                let element = match &self.stack[len - 2] {
                    RDLTypes::Vector(items) => {
                        proof {
                            lemma_vector_view(*items);
                        }
                        if idx >= items.len() {
                            let mut m = text("Index out of bounds: index is ");
                            push_decimal(&mut m, idx);
                            m.append(", but array length is ");
                            push_decimal(&mut m, items.len());
                            return StepOutcome::Fail(m);
                        }
                        items[idx].duplicate()
                    },
                    _ => {
                        return StepOutcome::Fail(text("Type error: GetByIndexFromArray expected a Vector"));
                    },
                };
                self.stack.truncate(len - 2);
                proof {
                    assert(rdls_view(self.stack@) =~= st.subrange(0, len - 2));
                }
                self.push_value(element);
                self.pc = p;
                StepOutcome::Continue
            },
            Opcode::RemoveByIndexFromArray => {
                if len == 0 {
                    return StepOutcome::Fail(text("Stack overflow: missing index for RemoveByIndexFromArray"));
                }
                let idx = match self.stack[len - 1].as_u64() {
                    Ok(i) => i as usize,
                    Err(_) => {
                        return StepOutcome::Fail(text("Type error: index must be a Number"));
                    },
                };
                if len == 1 {
                    return StepOutcome::Fail(text("Stack overflow: missing array for RemoveByIndexFromArray"));
                }
                let _index = self.stack.pop();
                let arr = self.stack.pop();
                proof {
                    assert(rdls_view(self.stack@) =~= st.subrange(0, len - 2));
                }
                match arr {
                    Some(RDLTypes::Vector(items)) => {
                        proof {
                            lemma_vector_view(items);
                        }
                        if idx >= items.len() {
                            let mut m = text("Index out of bounds for removal from array: index ");
                            push_decimal(&mut m, idx);
                            m.append(", length ");
                            push_decimal(&mut m, items.len());
                            return StepOutcome::Fail(m);
                        }
                        let mut items = items;
                        let ghost iv = rdls_view(items@);
                        let removed = items.remove(idx);
                        proof {
                            assert(rdls_view(items@) =~= iv.remove(idx as int));
                            lemma_vector_view(items);
                        }
                        self.push_value(RDLTypes::Vector(items));
                        self.push_value(removed);
                        self.pc = p;
                        StepOutcome::Continue
                    },
                    _ => StepOutcome::Fail(text("Type error: RemoveByIndexFromArray expected a Vector")),
                }
            },
            _ => {
                if len == 0 {
                    return StepOutcome::Fail(text("Stack overflow: missing target value for FindAndGetFirstElementInArray"));
                }
                if len == 1 {
                    return StepOutcome::Fail(text("Stack overflow: missing array for FindAndGetFirstElementInArray"));
                }
                let target = match self.stack.pop() {
                    Some(t) => t,
                    None => {
                        return StepOutcome::Fail(text("Stack overflow: missing target value for FindAndGetFirstElementInArray"));
                    },
                };
                let arr = self.stack.pop();
                proof {
                    assert(rdls_view(self.stack@) =~= st.subrange(0, len - 2));
                    assert(target@ == st[len - 1]);
                }
                match arr {
                    Some(RDLTypes::Vector(items)) => {
                        proof {
                            lemma_vector_view(items);
                        }
                        let ghost iv = rdls_view(items@);
                        let m = items.len();
                        let mut i: usize = 0;
                        let mut found = false;
                        while i < m
                            invariant_except_break
                                !found,
                            invariant
                                i <= m,
                                m == items@.len(),
                                iv == rdls_view(items@),
                                forall|j: int| 0 <= j < i ==> iv[j] != target@,
                            ensures
                                found ==> i < m && iv[i as int] == target@,
                                !found ==> forall|j: int| 0 <= j < m ==> iv[j] != target@,
                            decreases m - i,
                        {
                            if items[i].equals(&target) {
                                found = true;
                                break;
                            }
                            i = i + 1;
                        }
                        proof {
                            if found {
                                assert(iv[i as int] == target@);
                                assert(iv.contains(target@));
                            } else {
                                assert(!iv.contains(target@));
                            }
                        }
                        if found {
                            self.push_value(target);
                        } else {
                            self.push_value(RDLTypes::Boolean(false));
                        }
                        self.pc = p;
                        StepOutcome::Continue
                    },
                    _ => StepOutcome::Fail(text("Type error: FindAndGetFirstElementInArray expected a Vector")),
                }
            },
        }
    }
}

/// The name of a binary instruction in its error messages (see
/// `op_name`).
fn op_label(op: Opcode) -> (r: &'static str)
    ensures
        r@ == op_name(op),
{
    match op {
        Opcode::And => "And",
        Opcode::Or => "Or",
        Opcode::Less => "Less",
        Opcode::LessEq => "LessEq",
        Opcode::Greater => "Greater",
        Opcode::GreaterEq => "GreaterEq",
        Opcode::NotEq => "NotEq",
        Opcode::Eq => "Eq",
        Opcode::Add => "Add",
        Opcode::Sub => "Sub",
        Opcode::Mul => "Mul",
        _ => "Div",
    }
}

/// The result of an arithmetic instruction (see `arith_value`).
pub(crate) fn arith(op: Opcode, x: i64, y: i64) -> (r: Result<i64, String>)
    requires
        op is Add || op is Sub || op is Mul || op is Div,
    ensures
        match arith_value(op, x, y) {
            Ok(v) => r == Ok::<i64, String>(v),
            Err(m) => r matches Err(e) && e@ == m,
        },
{
    let a = x as i128;
    let b = y as i128;
    match op {
        Opcode::Add => {
            let v = a + b;
            if v < i64::MIN as i128 || v > i64::MAX as i128 {
                Err(text("attempt to add with overflow"))
            } else {
                Ok(v as i64)
            }
        },
        Opcode::Sub => {
            let v = a - b;
            if v < i64::MIN as i128 || v > i64::MAX as i128 {
                Err(text("attempt to subtract with overflow"))
            } else {
                Ok(v as i64)
            }
        },
        Opcode::Mul => {
            assert(-0x8000_0000_0000_0000 <= a <= 0x7fff_ffff_ffff_ffff);
            assert(-0x8000_0000_0000_0000 <= b <= 0x7fff_ffff_ffff_ffff);
            assert(-0x4000_0000_0000_0000_0000_0000_0000_0000 <= a * b <= 0x4000_0000_0000_0000_0000_0000_0000_0000)
                by (nonlinear_arith)
                requires
                    -0x8000_0000_0000_0000 <= a <= 0x7fff_ffff_ffff_ffff,
                    -0x8000_0000_0000_0000 <= b <= 0x7fff_ffff_ffff_ffff,
            ;
            let v = a * b;
            if v < i64::MIN as i128 || v > i64::MAX as i128 {
                Err(text("attempt to multiply with overflow"))
            } else {
                Ok(v as i64)
            }
        },
        _ => {
            if y == 0 {
                return Err(text("attempt to divide by zero"));
            }
            if x == i64::MIN && y == -1 {
                return Err(text("attempt to divide with overflow"));
            }
            let ax: u64 = if x < 0 { (0 - a) as u64 } else { x as u64 };
            let ay: u64 = if y < 0 { (0 - b) as u64 } else { y as u64 };
            let q = ax / ay;
            assert(q <= ax) by (nonlinear_arith)
                requires
                    ay >= 1,
                    q == ax / ay,
            ;
            let neg = (x < 0) != (y < 0);
            proof {
                if !neg && ax == 0x8000_0000_0000_0000 {
                    assert(x == i64::MIN && y < 0);
                    if ay >= 2 {
                        assert(q <= ax / 2) by (nonlinear_arith)
                            requires
                                ay >= 2,
                                q == ax / ay,
                        ;
                    }
                }
            }
            let v: i128 = if neg { 0 - (q as i128) } else { q as i128 };
            Ok(v as i64)
        },
    }
}

impl<O: Object> ProcessContext<O> {
    /// Runs And, Or, a comparison, Not, NotEq or Eq (see `op_logic`).
    #[verifier::spinoff_prover]
    #[verifier::rlimit(40)]
    fn exec_logic(&mut self, op: Opcode) -> (r: StepOutcome)
        requires
            op is And || op is Or || op is Less || op is LessEq || op is Greater || op is GreaterEq || op is Not
                || op is NotEq || op is Eq,
            old(self).pc < usize::MAX,
        ensures
            final(self).calls() == old(self).calls(),
            ({
                let (o, s2) = op_logic(op, old(self).state());
                &&& outcome_view(r) == o
                &&& (o is Continue ==> final(self).state() == s2)
            }),
    {
        let ghost st = rdls_view(self.stack@);
        let p = self.pc + 1;
        if let Opcode::Not = op {
            let a = match self.stack.pop() {
                Some(v) => v,
                None => {
                    return StepOutcome::Fail(text("Stack overflow: missing argument for Not"));
                },
            };
            proof {
                assert(rdls_view(self.stack@) =~= st.drop_last());
            }
            let v = a.not_value();
            self.push_value(RDLTypes::Boolean(v));
            self.pc = p;
            return StepOutcome::Continue;
        }
        let (a, b) = match self.pop_operands(op_label(op)) {
            Ok(ab) => ab,
            Err(m) => {
                return StepOutcome::Fail(m);
            },
        };
        let v = match op {
            Opcode::And | Opcode::Or => {
                let x = match a.as_bool() {
                    Ok(x) => x,
                    Err(_) => {
                        return StepOutcome::Fail(text("Type error: argument A is not a Boolean"));
                    },
                };
                let y = match b.as_bool() {
                    Ok(y) => y,
                    Err(_) => {
                        return StepOutcome::Fail(text("Type error: argument B is not a Boolean"));
                    },
                };
                if let Opcode::And = op { x && y } else { x || y }
            },
            Opcode::Less => match a.partial_compare(&b) {
                Some(Order::Less) => true,
                _ => false,
            },
            Opcode::LessEq => match a.partial_compare(&b) {
                Some(Order::Less) | Some(Order::Equal) => true,
                _ => false,
            },
            Opcode::Greater => match a.partial_compare(&b) {
                Some(Order::Greater) => true,
                _ => false,
            },
            Opcode::GreaterEq => match a.partial_compare(&b) {
                Some(Order::Greater) | Some(Order::Equal) => true,
                _ => false,
            },
            Opcode::NotEq => !a.equals(&b),
            _ => a.equals(&b),
        };
        self.push_value(RDLTypes::Boolean(v));
        self.pc = p;
        StepOutcome::Continue
    }

    /// Runs Add, Sub, Mul or Div (see `op_arith`).
    #[verifier::spinoff_prover]
    #[verifier::rlimit(40)]
    fn exec_arith(&mut self, op: Opcode) -> (r: StepOutcome)
        requires
            op is Add || op is Sub || op is Mul || op is Div,
            old(self).pc < usize::MAX,
        ensures
            final(self).calls() == old(self).calls(),
            ({
                let (o, s2) = op_arith(op, old(self).state());
                &&& outcome_view(r) == o
                &&& (o is Continue ==> final(self).state() == s2)
            }),
    {
        let p = self.pc + 1;
        let (a, b) = match self.pop_operands(op_label(op)) {
            Ok(ab) => ab,
            Err(m) => {
                return StepOutcome::Fail(m);
            },
        };
        let x = match a.as_i64() {
            Ok(x) => x,
            Err(_) => {
                return StepOutcome::Fail(text("Type error: argument A is not a Number"));
            },
        };
        let y = match b.as_i64() {
            Ok(y) => y,
            Err(_) => {
                return StepOutcome::Fail(text("Type error: argument B is not a Number"));
            },
        };
        match arith(op, x, y) {
            Ok(v) => {
                self.push_value(RDLTypes::Number(v));
                self.pc = p;
                StepOutcome::Continue
            },
            Err(m) => StepOutcome::Panic(m),
        }
    }
}

impl<O: Object> ProcessContext<O> {
    /// Runs a Call instruction: the method the constant names is called on
    /// the object with the top arguments (see `op_call`, `call_request`).
    #[verifier::spinoff_prover]
    #[verifier::rlimit(60)]
    fn exec_call(&mut self, code: &Vec<u8>) -> (r: StepOutcome)
        requires
            old(self).pc < code@.len(),
            opcode_of_byte(code@[old(self).pc as int]) == Some(Opcode::Call),
        ensures
            extends(final(self).calls(), old(self).calls()),
            match call_request(old(self).state(), code@) {
                Some(req) => final(self).calls().len() == old(self).calls().len() + 1 && final(self).calls().last().0 == req,
                None => final(self).calls() == old(self).calls(),
            },
            forall|rs: Seq<CallRecord>| #[trigger] extends(rs, final(self).calls()) ==> {
                let (o, s2) = op_call(old(self).state(), code@, rs);
                &&& outcome_view(r) == o
                &&& (o is Continue ==> final(self).state() == s2)
            },
    {
        let ghost s0 = self.state();
        let ghost log0 = self.calls@;
        let ghost st = rdls_view(self.stack@);
        proof {
            lemma_extends_refl(log0);
        }
        let n = code.len();
        let p = self.pc + 1;
        if !fits(p, 12, n) {
            return StepOutcome::Fail(text("Malformed bytecode: unexpected EOF in Call instruction arguments"));
        }
        let obj = u32_from_le(code, p) as usize;
        let ci = u32_from_le(code, p + 4) as usize;
        let argc = u32_from_le(code, p + 8) as usize;
        let len = self.stack.len();
        if len < argc {
            return StepOutcome::Fail(text("Stack underflow while taking arguments for method call"));
        }
        let args = self.stack.split_off(len - argc);
        proof {
            assert(rdls_view(self.stack@) =~= st.subrange(0, len - argc));
            assert(rdls_view(args@) =~= st.subrange(len - argc, len as int));
        }
        if ci >= self.constants.len() {
            let mut m = text("Constant string not found at index ");
            push_decimal(&mut m, ci);
            return StepOutcome::Fail(m);
        }
        if obj >= self.objects.len() {
            let mut m = text("Object not found at index ");
            push_decimal(&mut m, obj);
            return StepOutcome::Fail(m);
        }
        let ghost req = CallReq { object: obj as int, method: self.constants@[ci as int]@, args: rdls_view(args@) };
        proof {
            assert(call_request(s0, code@) == Some(req));
        }
        let result = self.objects[obj].call_method(self.constants[ci].as_str(), args);
        let ghost answer = answer_view(result);
        self.calls = Ghost(self.calls@.push((req, answer)));
        proof {
            assert forall|i: int| 0 <= i < log0.len() implies #[trigger] self.calls@[i] == log0[i] by {}
            assert forall|rs: Seq<CallRecord>| #[trigger] extends(rs, self.calls@) implies rs[log0.len() as int].1 == answer by {
                assert(rs[log0.len() as int] == self.calls@[log0.len() as int]);
            }
        }
        match result {
            Ok(v) => {
                self.push_value(v);
                self.pc = p + 12;
                StepOutcome::Continue
            },
            Err(e) => StepOutcome::Fail(e),
        }
    }
}

/// The method call a step makes, if it reaches an object.
pub open spec fn step_request(s: VmV, code: Seq<u8>, count: nat, limit: nat) -> Option<CallReq> {
    if s.pc < code.len() && count < u32::MAX && count + 1 <= limit {
        call_request(s, code)
    } else {
        None
    }
}

impl<O: Object> ProcessContext<O> {
    /// Runs one step of the machine (see `vm_step`), counting it in
    /// `op_count`. The objects' answers are those recorded in the calls.
    #[verifier::spinoff_prover]
    #[verifier::rlimit(60)]
    pub fn step(&mut self, code: &Vec<u8>, op_count: &mut u32, operations_limit: u32) -> (r: StepOutcome)
        ensures
            extends(final(self).calls(), old(self).calls()),
            match step_request(old(self).state(), code@, *old(op_count) as nat, operations_limit as nat) {
                Some(req) => final(self).calls().len() == old(self).calls().len() + 1 && final(self).calls().last().0 == req,
                None => final(self).calls() == old(self).calls(),
            },
            forall|rs: Seq<CallRecord>| #[trigger] extends(rs, final(self).calls()) ==> {
                let (o, s2, c2) = vm_step(old(self).state(), code@, rs, *old(op_count) as nat, operations_limit as nat);
                &&& outcome_view(r) == o
                &&& (o is Continue || o is Finished ==> final(self).state() == s2)
                &&& (o is Continue ==> *final(op_count) == c2)
            },
    {
        proof {
            lemma_extends_refl(self.calls@);
        }
        if self.pc >= code.len() {
            return StepOutcome::Finished;
        }
        if *op_count == u32::MAX {
            return StepOutcome::Panic(text("attempt to add with overflow"));
        }
        *op_count = *op_count + 1;
        if *op_count > operations_limit {
            return StepOutcome::Fail(text("Runtime error: bytecode operations are out of range"));
        }
        let b = code[self.pc];
        match Opcode::from_byte(b) {
            None => {
                let mut m = text("Unknown or unhandled opcode: 0x");
                push_hex_byte(&mut m, b);
                StepOutcome::Fail(m)
            },
            Some(op) => match op {
                Opcode::Nop | Opcode::Load | Opcode::Store | Opcode::Jmp | Opcode::JmpIfFalse => self.exec_control(op, code),
                Opcode::MakeArray | Opcode::PushToArray | Opcode::GetByIndexFromArray | Opcode::RemoveByIndexFromArray
                | Opcode::FindAndGetFirstElementInArray => self.exec_array(op, code),
                Opcode::Add | Opcode::Sub | Opcode::Mul | Opcode::Div => self.exec_arith(op),
                Opcode::Call => self.exec_call(code),
                Opcode::RET => StepOutcome::Finished,
                _ => self.exec_logic(op),
            },
        }
    }

    /// Runs the bytecode from its start until it ends, fails or faults
    /// (see `vm_run`), with at most `operations_limit` operations. The
    /// objects' answers are those recorded in the calls.
    #[verifier::spinoff_prover]
    #[verifier::rlimit(40)]
    pub fn run(&mut self, code: &Vec<u8>, operations_limit: u32) -> (r: StepOutcome)
        ensures
            !(r is Continue),
            extends(final(self).calls(), old(self).calls()),
            ({
                let (o, s2, _) = vm_run(VmV { pc: 0, ..old(self).state() }, code@, final(self).calls(), 0, operations_limit as nat);
                &&& outcome_view(r) == o
                &&& (o is Finished ==> final(self).state() == s2)
            }),
    {
        let ghost log0 = self.calls@;
        self.pc = 0;
        let ghost s_init = self.state();
        let mut count: u32 = 0;
        proof {
            lemma_extends_refl(log0);
        }
        loop
            invariant
                s_init == (VmV { pc: 0, ..old(self).state() }),
                log0 == old(self).calls(),
                extends(self.calls(), log0),
                count <= operations_limit,
                forall|rs: Seq<CallRecord>| #[trigger] extends(rs, self.calls()) ==>
                    vm_run(s_init, code@, rs, 0, operations_limit as nat)
                        == vm_run(self.state(), code@, rs, count as nat, operations_limit as nat),
            decreases operations_limit - count,
        {
            let ghost l1 = self.calls@;
            let ghost s1 = self.state();
            let ghost c1 = count as nat;
            let o = self.step(code, &mut count, operations_limit);
            proof {
                lemma_extends_trans(self.calls@, l1, log0);
                assert forall|rs: Seq<CallRecord>| #[trigger] extends(rs, self.calls@) implies extends(rs, l1) by {
                    lemma_extends_trans(rs, self.calls@, l1);
                }
            }
            match o {
                StepOutcome::Continue => {
                    proof {
                        lemma_extends_refl(self.calls@);
                        assert(extends(self.calls@, self.calls@));
                        assert(count as nat == vm_step(s1, code@, self.calls@, c1, operations_limit as nat).2);
                        assert forall|rs: Seq<CallRecord>| #[trigger] extends(rs, self.calls@) implies
                            vm_run(s_init, code@, rs, 0, operations_limit as nat)
                                == vm_run(self.state(), code@, rs, count as nat, operations_limit as nat) by {
                            assert(extends(rs, l1));
                            assert(vm_run(s1, code@, rs, c1, operations_limit as nat)
                                == vm_run(self.state(), code@, rs, count as nat, operations_limit as nat));
                        }
                    }
                },
                _ => {
                    proof {
                        lemma_extends_refl(self.calls@);
                        assert(extends(self.calls@, l1));
                        assert(vm_run(s1, code@, self.calls@, c1, operations_limit as nat).0 == outcome_view(o));
                    }
                    return o;
                },
            }
        }
    }
}

} // verus!
