use vstd::prelude::*;

verus! {

/// The instructions of the bytecode.
#[derive(Debug, Clone, Copy, PartialEq, Eq)]
pub enum Opcode {
    Nop,
    Load,
    Store,
    Eq,
    Add,
    Sub,
    Mul,
    Div,
    MakeArray,
    PushToArray,
    RemoveByIndexFromArray,
    GetByIndexFromArray,
    FindAndGetFirstElementInArray,
    Jmp,
    JmpIfFalse,
    Call,
    Not,
    And,
    Or,
    NotEq,
    Less,
    Greater,
    LessEq,
    GreaterEq,
    RET,
}

/// The byte that encodes an instruction.
pub open spec fn opcode_byte(op: Opcode) -> u8 {
    match op {
        Opcode::Nop => 0x00,
        Opcode::Load => 0x01,
        Opcode::Store => 0x02,
        Opcode::Eq => 0x03,
        Opcode::Add => 0x04,
        Opcode::Sub => 0x05,
        Opcode::Mul => 0x06,
        Opcode::Div => 0x07,
        Opcode::MakeArray => 0x08,
        Opcode::PushToArray => 0x09,
        Opcode::RemoveByIndexFromArray => 0x10,
        Opcode::GetByIndexFromArray => 0x11,
        Opcode::FindAndGetFirstElementInArray => 0x12,
        Opcode::Jmp => 0x13,
        Opcode::JmpIfFalse => 0x14,
        Opcode::Call => 0x15,
        Opcode::Not => 0x16,
        Opcode::And => 0x17,
        Opcode::Or => 0x18,
        Opcode::NotEq => 0x19,
        Opcode::Less => 0x20,
        Opcode::Greater => 0x21,
        Opcode::LessEq => 0x22,
        Opcode::GreaterEq => 0x23,
        Opcode::RET => 0xFF,
    }
}

/// The instruction a byte encodes, if any.
pub open spec fn opcode_of_byte(b: u8) -> Option<Opcode> {
    if b == 0x00 { Some(Opcode::Nop) }
    else if b == 0x01 { Some(Opcode::Load) }
    else if b == 0x02 { Some(Opcode::Store) }
    else if b == 0x03 { Some(Opcode::Eq) }
    else if b == 0x04 { Some(Opcode::Add) }
    else if b == 0x05 { Some(Opcode::Sub) }
    else if b == 0x06 { Some(Opcode::Mul) }
    else if b == 0x07 { Some(Opcode::Div) }
    else if b == 0x08 { Some(Opcode::MakeArray) }
    else if b == 0x09 { Some(Opcode::PushToArray) }
    else if b == 0x10 { Some(Opcode::RemoveByIndexFromArray) }
    else if b == 0x11 { Some(Opcode::GetByIndexFromArray) }
    else if b == 0x12 { Some(Opcode::FindAndGetFirstElementInArray) }
    else if b == 0x13 { Some(Opcode::Jmp) }
    else if b == 0x14 { Some(Opcode::JmpIfFalse) }
    else if b == 0x15 { Some(Opcode::Call) }
    else if b == 0x16 { Some(Opcode::Not) }
    else if b == 0x17 { Some(Opcode::And) }
    else if b == 0x18 { Some(Opcode::Or) }
    else if b == 0x19 { Some(Opcode::NotEq) }
    else if b == 0x20 { Some(Opcode::Less) }
    else if b == 0x21 { Some(Opcode::Greater) }
    else if b == 0x22 { Some(Opcode::LessEq) }
    else if b == 0x23 { Some(Opcode::GreaterEq) }
    else if b == 0xFF { Some(Opcode::RET) }
    else { None }
}

/// Decoding the byte of an instruction gives the instruction back.
pub proof fn lemma_opcode_roundtrip(op: Opcode)
    ensures
        opcode_of_byte(opcode_byte(op)) == Some(op),
{
}

impl Opcode {
    /// The byte that encodes this instruction.
    pub fn byte(self) -> (r: u8)
        ensures
            r == opcode_byte(self),
    {
        match self {
            Opcode::Nop => 0x00,
            Opcode::Load => 0x01,
            Opcode::Store => 0x02,
            Opcode::Eq => 0x03,
            Opcode::Add => 0x04,
            Opcode::Sub => 0x05,
            Opcode::Mul => 0x06,
            Opcode::Div => 0x07,
            Opcode::MakeArray => 0x08,
            Opcode::PushToArray => 0x09,
            Opcode::RemoveByIndexFromArray => 0x10,
            Opcode::GetByIndexFromArray => 0x11,
            Opcode::FindAndGetFirstElementInArray => 0x12,
            Opcode::Jmp => 0x13,
            Opcode::JmpIfFalse => 0x14,
            Opcode::Call => 0x15,
            Opcode::Not => 0x16,
            Opcode::And => 0x17,
            Opcode::Or => 0x18,
            Opcode::NotEq => 0x19,
            Opcode::Less => 0x20,
            Opcode::Greater => 0x21,
            Opcode::LessEq => 0x22,
            Opcode::GreaterEq => 0x23,
            Opcode::RET => 0xFF,
        }
    }

    /// The instruction a byte encodes, if any.
    pub fn from_byte(b: u8) -> (r: Option<Opcode>)
        ensures
            r == opcode_of_byte(b),
    {
        if b == 0x00 { Some(Opcode::Nop) }
        else if b == 0x01 { Some(Opcode::Load) }
        else if b == 0x02 { Some(Opcode::Store) }
        else if b == 0x03 { Some(Opcode::Eq) }
        else if b == 0x04 { Some(Opcode::Add) }
        else if b == 0x05 { Some(Opcode::Sub) }
        else if b == 0x06 { Some(Opcode::Mul) }
        else if b == 0x07 { Some(Opcode::Div) }
        else if b == 0x08 { Some(Opcode::MakeArray) }
        else if b == 0x09 { Some(Opcode::PushToArray) }
        else if b == 0x10 { Some(Opcode::RemoveByIndexFromArray) }
        else if b == 0x11 { Some(Opcode::GetByIndexFromArray) }
        else if b == 0x12 { Some(Opcode::FindAndGetFirstElementInArray) }
        else if b == 0x13 { Some(Opcode::Jmp) }
        else if b == 0x14 { Some(Opcode::JmpIfFalse) }
        else if b == 0x15 { Some(Opcode::Call) }
        else if b == 0x16 { Some(Opcode::Not) }
        else if b == 0x17 { Some(Opcode::And) }
        else if b == 0x18 { Some(Opcode::Or) }
        else if b == 0x19 { Some(Opcode::NotEq) }
        else if b == 0x20 { Some(Opcode::Less) }
        else if b == 0x21 { Some(Opcode::Greater) }
        else if b == 0x22 { Some(Opcode::LessEq) }
        else if b == 0x23 { Some(Opcode::GreaterEq) }
        else if b == 0xFF { Some(Opcode::RET) }
        else { None }
    }
}

/// The four little-endian bytes of a `u32`.
pub open spec fn le_bytes(v: u32) -> Seq<u8> {
    seq![(v % 256) as u8, ((v / 256) % 256) as u8, ((v / 65536) % 256) as u8, ((v / 16777216) % 256) as u8]
}

/// The `u32` whose little-endian bytes are `b[i..i + 4]`.
pub open spec fn le_value(b: Seq<u8>, i: int) -> u32 {
    (b[i] + 256 * b[i + 1] + 65536 * b[i + 2] + 16777216 * b[i + 3]) as u32
}

/// Reading back the bytes of a `u32` gives the `u32`.
pub proof fn lemma_le_roundtrip(v: u32)
    ensures
        le_value(le_bytes(v), 0) == v,
{
    let b = le_bytes(v);
    assert(b[0] + 256 * b[1] + 65536 * b[2] + 16777216 * b[3] == v) by (nonlinear_arith)
        requires
            b[0] == v % 256,
            b[1] == (v / 256) % 256,
            b[2] == (v / 65536) % 256,
            b[3] == (v / 16777216) % 256,
            0 <= v < 0x1_0000_0000,
    {
    }
}

/// The four little-endian bytes of a `u32`.
pub fn u32_le_bytes(v: u32) -> (r: [u8; 4])
    ensures
        r@ == le_bytes(v),
{
    let b0 = (v & 0xff) as u8;
    let b1 = ((v >> 8u32) & 0xff) as u8;
    let b2 = ((v >> 16u32) & 0xff) as u8;
    let b3 = ((v >> 24u32) & 0xff) as u8;
    assert(v & 0xff == v % 256) by (bit_vector);
    assert((v >> 8u32) & 0xff == (v / 256) % 256) by (bit_vector);
    assert((v >> 16u32) & 0xff == (v / 65536) % 256) by (bit_vector);
    assert((v >> 24u32) & 0xff == (v / 16777216) % 256) by (bit_vector);
    let r = [b0, b1, b2, b3];
    assert(r@ =~= le_bytes(v));
    r
}

/// The `u32` whose little-endian bytes are `b[i..i + 4]`.
pub fn u32_from_le(b: &Vec<u8>, i: usize) -> (r: u32)
    requires
        i + 4 <= b@.len(),
    ensures
        r == le_value(b@, i as int),
{
    let n = b.len();
    let v = (b[i] as u32) | ((b[i + 1] as u32) << 8u32) | ((b[i + 2] as u32) << 16u32) | ((b[i + 3] as u32) << 24u32);
    let x0 = b[i] as u32;
    let x1 = b[i + 1] as u32;
    let x2 = b[i + 2] as u32;
    let x3 = b[i + 3] as u32;
    assert(x0 | (x1 << 8u32) | (x2 << 16u32) | (x3 << 24u32) == x0 + 256 * x1 + 65536 * x2 + 16777216 * x3) by (bit_vector)
        requires
            x0 < 256,
            x1 < 256,
            x2 < 256,
            x3 < 256,
    ;
    v
}

/// A jump target: an index into the builder's labels.
#[derive(Debug, Clone, Copy, PartialEq, Eq, Hash)]
pub struct Label(pub usize);

/// A 4-byte slot in the code that `link` fills with the address of a
/// label.
pub struct Relocation {
    pub instruction_addr: usize,
    pub label: Label,
}

/// Builds bytecode: the code, its string constants, labels (bound to an
/// address or not yet) and the slots that jumps leave for `link`.
pub struct BytecodeBuilder {
    pub code: Vec<u8>,
    pub constants: Vec<String>,
    labels: Vec<Option<usize>>,
    relocations: Vec<Relocation>,
}

/// The index of the first string equal to `v` in `s`, if any.
pub open spec fn first_index(s: Seq<Seq<char>>, v: Seq<char>) -> Option<int> {
    if exists|i: int| 0 <= i < s.len() && s[i] == v {
        Some(choose|i: int| 0 <= i < s.len() && s[i] == v && forall|j: int| 0 <= j < i ==> s[j] != v)
    } else {
        None
    }
}

/// The views of a list of strings.
pub open spec fn strings_view(v: Seq<String>) -> Seq<Seq<char>> {
    v.map_values(|s: String| s@)
}

/// A relocation as a pair of its slot address and label index.
pub open spec fn reloc_view(r: Relocation) -> (int, int) {
    (r.instruction_addr as int, r.label.0 as int)
}

/// Growing the code or the labels keeps the slots valid.
proof fn lemma_wf_extend(a: &BytecodeBuilder, b: &BytecodeBuilder)
    requires
        a.wf(),
        b.relocations() == a.relocations(),
        b.labels().len() >= a.labels().len(),
        b.bytes().len() >= a.bytes().len(),
    ensures
        b.wf(),
{
    assert forall|k: int| 0 <= k < b.relocations().len() implies {
        let (x, l) = #[trigger] b.relocations()[k];
        &&& 0 <= x && x + 4 <= b.code@.len()
        &&& 0 <= l < b.labels().len()
    } by {
        assert(b.relocations()[k] == a.relocations()[k]);
    }
}

impl BytecodeBuilder {
    /// The code written so far.
    pub closed spec fn bytes(&self) -> Seq<u8> {
        self.code@
    }

    /// The string constants registered so far.
    pub closed spec fn consts(&self) -> Seq<String> {
        self.constants@
    }

    /// The labels: the address each is bound to, if any.
    pub closed spec fn labels(&self) -> Seq<Option<usize>> {
        self.labels@
    }

    /// The slots to fill, each with the label whose address goes there.
    pub closed spec fn relocations(&self) -> Seq<(int, int)> {
        self.relocations@.map_values(|r: Relocation| reloc_view(r))
    }

    /// Every slot lies within the code and names an existing label.
    pub closed spec fn wf(&self) -> bool {
        forall|k: int| 0 <= k < self.relocations().len() ==> {
            let (a, l) = #[trigger] self.relocations()[k];
            &&& 0 <= a && a + 4 <= self.code@.len()
            &&& 0 <= l < self.labels().len()
        }
    }

    /// An empty builder.
    pub fn new() -> (r: BytecodeBuilder)
        ensures
            r.wf(),
            r.bytes() == Seq::<u8>::empty(),
            r.consts() == Seq::<String>::empty(),
            r.labels() == Seq::<Option<usize>>::empty(),
            r.relocations() == Seq::<(int, int)>::empty(),
    {
        let r = BytecodeBuilder { code: Vec::new(), constants: Vec::new(), labels: Vec::new(), relocations: Vec::new() };
        assert(r.relocations() =~= Seq::<(int, int)>::empty());
        r
    }

    /// The index of `value` among the constants; a new constant is
    /// appended first when it is not there yet. The index is given as a
    /// `u32`, truncated as `as u32` does.
    pub fn register_constant(&mut self, value: String) -> (r: u32)
        ensures
            final(self).bytes() == old(self).bytes(),
            final(self).labels() == old(self).labels(),
            final(self).relocations() == old(self).relocations(),
            match first_index(strings_view(old(self).consts()), value@) {
                Some(i) => final(self).consts() == old(self).consts() && r == i as u32,
                None => strings_view(final(self).consts()) == strings_view(old(self).consts()).push(value@)
                    && r == old(self).consts().len() as u32,
            },
    {
        let mut i: usize = 0;
        while i < self.constants.len()
            invariant
                i <= self.constants@.len(),
                forall|j: int| 0 <= j < i ==> (#[trigger] self.constants@[j])@ != value@,
            decreases self.constants.len() - i,
        {
            if self.constants[i] == value {
                proof {
                    let s = strings_view(self.constants@);
                    assert(s[i as int] == value@);
                    assert(forall|j: int| 0 <= j < i ==> s[j] != value@);
                    let k = choose|k: int| 0 <= k < s.len() && s[k] == value@ && forall|j: int| 0 <= j < k ==> s[j] != value@;
                    assert(k == i) by {
                        if k < i {
                            assert(s[k] != value@);
                        }
                        if k > i {
                            assert(s[i as int] != value@);
                        }
                    }
                }
                return i as u32;
            }
            i = i + 1;
        }
        proof {
            let s = strings_view(self.constants@);
            assert(forall|j: int| 0 <= j < s.len() ==> s[j] != value@);
        }
        let n = self.constants.len();
        self.constants.push(value);
        proof {
            assert(strings_view(self.constants@) =~= strings_view(old(self).consts()).push(value@));
        }
        n as u32
    }

    /// The address of the next byte to be written: the length of the code.
    pub fn current_address(&self) -> (r: usize)
        ensures
            r == self.bytes().len(),
    {
        self.code.len()
    }

    /// Appends the byte of an instruction.
    pub fn emit_op(&mut self, op: Opcode)
        requires
            old(self).wf(),
        ensures
            final(self).wf(),
            final(self).bytes() == old(self).bytes().push(opcode_byte(op)),
            final(self).consts() == old(self).consts(),
            final(self).labels() == old(self).labels(),
            final(self).relocations() == old(self).relocations(),
    {
        self.code.push(op.byte());
        proof {
            lemma_wf_extend(&*old(self), &*self);
        }
    }

    /// Appends the four little-endian bytes of `value`.
    pub fn emit_u32(&mut self, value: u32)
        requires
            old(self).wf(),
        ensures
            final(self).wf(),
            final(self).bytes() == old(self).bytes() + le_bytes(value),
            final(self).consts() == old(self).consts(),
            final(self).labels() == old(self).labels(),
            final(self).relocations() == old(self).relocations(),
    {
        let b = u32_le_bytes(value);
        self.code.push(b[0]);
        self.code.push(b[1]);
        self.code.push(b[2]);
        self.code.push(b[3]);
        assert(self.code@ =~= old(self).bytes() + le_bytes(value));
        proof {
            lemma_wf_extend(&*old(self), &*self);
        }
    }

    /// Appends an instruction with one `u32` operand.
    fn emit_op_u32(&mut self, op: Opcode, a: u32)
        requires
            old(self).wf(),
        ensures
            final(self).wf(),
            final(self).bytes() == old(self).bytes() + seq![opcode_byte(op)] + le_bytes(a),
            final(self).consts() == old(self).consts(),
            final(self).labels() == old(self).labels(),
            final(self).relocations() == old(self).relocations(),
    {
        self.emit_op(op);
        self.emit_u32(a);
        assert(old(self).bytes().push(opcode_byte(op)) =~= old(self).bytes() + seq![opcode_byte(op)]);
    }

    /// Appends an instruction with two `u32` operands.
    fn emit_op_u32_u32(&mut self, op: Opcode, a: u32, b: u32)
        requires
            old(self).wf(),
        ensures
            final(self).wf(),
            final(self).bytes() == old(self).bytes() + seq![opcode_byte(op)] + le_bytes(a) + le_bytes(b),
            final(self).consts() == old(self).consts(),
            final(self).labels() == old(self).labels(),
            final(self).relocations() == old(self).relocations(),
    {
        self.emit_op_u32(op, a);
        self.emit_u32(b);
    }

    /// Appends two `u32` operands followed by an instruction (the order
    /// the array instructions are written in).
    fn emit_u32_u32_op(&mut self, a: u32, b: u32, op: Opcode)
        requires
            old(self).wf(),
        ensures
            final(self).wf(),
            final(self).bytes() == old(self).bytes() + le_bytes(a) + le_bytes(b) + seq![opcode_byte(op)],
            final(self).consts() == old(self).consts(),
            final(self).labels() == old(self).labels(),
            final(self).relocations() == old(self).relocations(),
    {
        self.emit_u32(a);
        self.emit_u32(b);
        self.emit_op(op);
        assert((old(self).bytes() + le_bytes(a) + le_bytes(b)).push(opcode_byte(op))
            =~= old(self).bytes() + le_bytes(a) + le_bytes(b) + seq![opcode_byte(op)]);
    }

    /// Writes `Load value` (this builder writes the load instruction for a
    /// store).
    pub fn emit_store(&mut self, value: u32)
        requires
            old(self).wf(),
        ensures
            final(self).wf(),
            final(self).bytes() == old(self).bytes() + seq![opcode_byte(Opcode::Load)] + le_bytes(value),
            final(self).consts() == old(self).consts(),
            final(self).labels() == old(self).labels(),
            final(self).relocations() == old(self).relocations(),
    {
        self.emit_op_u32(Opcode::Load, value);
    }

    /// Writes `Eq a b`.
    pub fn emit_eq(&mut self, a: u32, b: u32)
        requires
            old(self).wf(),
        ensures
            final(self).wf(),
            final(self).bytes() == old(self).bytes() + seq![opcode_byte(Opcode::Eq)] + le_bytes(a) + le_bytes(b),
            final(self).consts() == old(self).consts(),
            final(self).labels() == old(self).labels(),
            final(self).relocations() == old(self).relocations(),
    {
        self.emit_op_u32_u32(Opcode::Eq, a, b);
    }

    /// Writes `Add a b`.
    pub fn emit_add(&mut self, a: u32, b: u32)
        requires
            old(self).wf(),
        ensures
            final(self).wf(),
            final(self).bytes() == old(self).bytes() + seq![opcode_byte(Opcode::Add)] + le_bytes(a) + le_bytes(b),
            final(self).consts() == old(self).consts(),
            final(self).labels() == old(self).labels(),
            final(self).relocations() == old(self).relocations(),
    {
        self.emit_op_u32_u32(Opcode::Add, a, b);
    }

    /// Writes `Sub a b`.
    pub fn emit_sub(&mut self, a: u32, b: u32)
        requires
            old(self).wf(),
        ensures
            final(self).wf(),
            final(self).bytes() == old(self).bytes() + seq![opcode_byte(Opcode::Sub)] + le_bytes(a) + le_bytes(b),
            final(self).consts() == old(self).consts(),
            final(self).labels() == old(self).labels(),
            final(self).relocations() == old(self).relocations(),
    {
        self.emit_op_u32_u32(Opcode::Sub, a, b);
    }

    /// Writes `Div a b`.
    pub fn emit_div(&mut self, a: u32, b: u32)
        requires
            old(self).wf(),
        ensures
            final(self).wf(),
            final(self).bytes() == old(self).bytes() + seq![opcode_byte(Opcode::Div)] + le_bytes(a) + le_bytes(b),
            final(self).consts() == old(self).consts(),
            final(self).labels() == old(self).labels(),
            final(self).relocations() == old(self).relocations(),
    {
        self.emit_op_u32_u32(Opcode::Div, a, b);
    }

    /// Writes `Mul a b`.
    pub fn emit_mul(&mut self, a: u32, b: u32)
        requires
            old(self).wf(),
        ensures
            final(self).wf(),
            final(self).bytes() == old(self).bytes() + seq![opcode_byte(Opcode::Mul)] + le_bytes(a) + le_bytes(b),
            final(self).consts() == old(self).consts(),
            final(self).labels() == old(self).labels(),
            final(self).relocations() == old(self).relocations(),
    {
        self.emit_op_u32_u32(Opcode::Mul, a, b);
    }

    /// A new label, not yet bound.
    pub fn make_label(&mut self) -> (r: Label)
        requires
            old(self).wf(),
        ensures
            final(self).wf(),
            r.0 == old(self).labels().len(),
            final(self).labels() == old(self).labels().push(None),
            final(self).bytes() == old(self).bytes(),
            final(self).consts() == old(self).consts(),
            final(self).relocations() == old(self).relocations(),
    {
        let label = Label(self.labels.len());
        self.labels.push(None);
        proof {
            lemma_wf_extend(&*old(self), &*self);
        }
        label
    }

    /// Binds `label` to the current address.
    pub fn bind_label(&mut self, label: Label)
        requires
            old(self).wf(),
            label.0 < old(self).labels().len(),
        ensures
            final(self).wf(),
            final(self).labels() == old(self).labels().update(label.0 as int, Some(old(self).bytes().len() as usize)),
            final(self).bytes() == old(self).bytes(),
            final(self).consts() == old(self).consts(),
            final(self).relocations() == old(self).relocations(),
    {
        let addr = self.current_address();
        self.labels.set(label.0, Some(addr));
        proof {
            lemma_wf_extend(&*old(self), &*self);
        }
    }

    /// Writes `Call obj method args_count`, the method given by the index
    /// of its name among the constants (registered if new).
    pub fn emit_call(&mut self, obj_idx: u32, method_name: &str, args_count: u32)
        requires
            old(self).wf(),
        ensures
            final(self).wf(),
            ({
                let i = match first_index(strings_view(old(self).consts()), method_name@) {
                    Some(i) => i as u32,
                    None => old(self).consts().len() as u32,
                };
                final(self).bytes() == old(self).bytes() + seq![opcode_byte(Opcode::Call)] + le_bytes(obj_idx) + le_bytes(i)
                    + le_bytes(args_count)
            }),
            match first_index(strings_view(old(self).consts()), method_name@) {
                Some(_) => final(self).consts() == old(self).consts(),
                None => strings_view(final(self).consts()) == strings_view(old(self).consts()).push(method_name@),
            },
            final(self).labels() == old(self).labels(),
            final(self).relocations() == old(self).relocations(),
    {
        let str_idx = self.register_constant(method_name.to_string());
        self.emit_op_u32_u32(Opcode::Call, obj_idx, str_idx);
        self.emit_u32(args_count);
    }

    /// Writes a jump instruction with a zero slot for `label`'s address and
    /// records the slot.
    fn emit_jump(&mut self, op: Opcode, label: Label)
        requires
            old(self).wf(),
            label.0 < old(self).labels().len(),
        ensures
            final(self).wf(),
            final(self).bytes() == old(self).bytes() + seq![opcode_byte(op)] + le_bytes(0),
            final(self).relocations() == old(self).relocations().push((old(self).bytes().len() + 1int, label.0 as int)),
            final(self).consts() == old(self).consts(),
            final(self).labels() == old(self).labels(),
    {
        self.emit_op(op);
        let target_pos = self.current_address();
        self.emit_u32(0);
        self.relocations.push(Relocation { instruction_addr: target_pos, label });
        proof {
            assert(self.relocations() =~= old(self).relocations().push((old(self).bytes().len() + 1int, label.0 as int)));
            assert forall|k: int| 0 <= k < self.relocations().len() implies {
                let (a, l) = #[trigger] self.relocations()[k];
                &&& 0 <= a && a + 4 <= self.code@.len()
                &&& 0 <= l < self.labels().len()
            } by {
                if k < old(self).relocations().len() {
                    assert(self.relocations()[k] == old(self).relocations()[k]);
                }
            }
        }
    }

    /// Writes `JmpIfFalse` to `label` (its address is filled in by `link`).
    pub fn emit_if_false(&mut self, label: Label)
        requires
            old(self).wf(),
            label.0 < old(self).labels().len(),
        ensures
            final(self).wf(),
            final(self).bytes() == old(self).bytes() + seq![opcode_byte(Opcode::JmpIfFalse)] + le_bytes(0),
            final(self).relocations() == old(self).relocations().push((old(self).bytes().len() + 1int, label.0 as int)),
            final(self).consts() == old(self).consts(),
            final(self).labels() == old(self).labels(),
    {
        self.emit_jump(Opcode::JmpIfFalse, label);
    }

    /// Writes `Jmp` to `label` (its address is filled in by `link`).
    pub fn emit_jmp(&mut self, label: Label)
        requires
            old(self).wf(),
            label.0 < old(self).labels().len(),
        ensures
            final(self).wf(),
            final(self).bytes() == old(self).bytes() + seq![opcode_byte(Opcode::Jmp)] + le_bytes(0),
            final(self).relocations() == old(self).relocations().push((old(self).bytes().len() + 1int, label.0 as int)),
            final(self).consts() == old(self).consts(),
            final(self).labels() == old(self).labels(),
    {
        self.emit_jump(Opcode::Jmp, label);
    }

    /// Jumps back to the start of a loop.
    pub fn emit_continue(&mut self, start_label: Label)
        requires
            old(self).wf(),
            start_label.0 < old(self).labels().len(),
        ensures
            final(self).wf(),
            final(self).bytes() == old(self).bytes() + seq![opcode_byte(Opcode::Jmp)] + le_bytes(0),
            final(self).relocations() == old(self).relocations().push((old(self).bytes().len() + 1int, start_label.0 as int)),
            final(self).consts() == old(self).consts(),
            final(self).labels() == old(self).labels(),
    {
        self.emit_jmp(start_label);
    }

    /// Jumps to the end of a loop.
    pub fn emit_break(&mut self, end_label: Label)
        requires
            old(self).wf(),
            end_label.0 < old(self).labels().len(),
        ensures
            final(self).wf(),
            final(self).bytes() == old(self).bytes() + seq![opcode_byte(Opcode::Jmp)] + le_bytes(0),
            final(self).relocations() == old(self).relocations().push((old(self).bytes().len() + 1int, end_label.0 as int)),
            final(self).consts() == old(self).consts(),
            final(self).labels() == old(self).labels(),
    {
        self.emit_jmp(end_label);
    }

    /// Writes `MakeArray elements_count`.
    pub fn emit_make_array(&mut self, elements_count: u32)
        requires
            old(self).wf(),
        ensures
            final(self).wf(),
            final(self).bytes() == old(self).bytes() + seq![opcode_byte(Opcode::MakeArray)] + le_bytes(elements_count),
            final(self).consts() == old(self).consts(),
            final(self).labels() == old(self).labels(),
            final(self).relocations() == old(self).relocations(),
    {
        self.emit_op_u32(Opcode::MakeArray, elements_count);
    }

    /// Writes the operands `array item`, then `PushToArray`.
    pub fn emit_push_to_array(&mut self, array: u32, item: u32)
        requires
            old(self).wf(),
        ensures
            final(self).wf(),
            final(self).bytes() == old(self).bytes() + le_bytes(array) + le_bytes(item) + seq![opcode_byte(Opcode::PushToArray)],
            final(self).consts() == old(self).consts(),
            final(self).labels() == old(self).labels(),
            final(self).relocations() == old(self).relocations(),
    {
        self.emit_u32_u32_op(array, item, Opcode::PushToArray);
    }

    /// Writes the operands `array idx`, then `GetByIndexFromArray`.
    pub fn emit_get_by_index(&mut self, array: u32, idx: u32)
        requires
            old(self).wf(),
        ensures
            final(self).wf(),
            final(self).bytes() == old(self).bytes() + le_bytes(array) + le_bytes(idx) + seq![opcode_byte(Opcode::GetByIndexFromArray)],
            final(self).consts() == old(self).consts(),
            final(self).labels() == old(self).labels(),
            final(self).relocations() == old(self).relocations(),
    {
        self.emit_u32_u32_op(array, idx, Opcode::GetByIndexFromArray);
    }

    /// Writes the operands `array idx`, then `RemoveByIndexFromArray`.
    pub fn emit_remove_by_index(&mut self, array: u32, idx: u32)
        requires
            old(self).wf(),
        ensures
            final(self).wf(),
            final(self).bytes() == old(self).bytes() + le_bytes(array) + le_bytes(idx) + seq![opcode_byte(Opcode::RemoveByIndexFromArray)],
            final(self).consts() == old(self).consts(),
            final(self).labels() == old(self).labels(),
            final(self).relocations() == old(self).relocations(),
    {
        self.emit_u32_u32_op(array, idx, Opcode::RemoveByIndexFromArray);
    }

    /// Writes the operands `array item`, then
    /// `FindAndGetFirstElementInArray`.
    pub fn emit_find_first(&mut self, array: u32, item: u32)
        requires
            old(self).wf(),
        ensures
            final(self).wf(),
            final(self).bytes() == old(self).bytes() + le_bytes(array) + le_bytes(item)
                + seq![opcode_byte(Opcode::FindAndGetFirstElementInArray)],
            final(self).consts() == old(self).consts(),
            final(self).labels() == old(self).labels(),
            final(self).relocations() == old(self).relocations(),
    {
        self.emit_u32_u32_op(array, item, Opcode::FindAndGetFirstElementInArray);
    }
}

/// `c` with the four bytes at `a` replaced by `b`.
pub open spec fn write4(c: Seq<u8>, a: int, b: Seq<u8>) -> Seq<u8> {
    c.update(a, b[0]).update(a + 1, b[1]).update(a + 2, b[2]).update(a + 3, b[3])
}

/// The code with every slot filled, in order, with the little-endian
/// address (as a `u32`) of its label.
pub open spec fn patched(code: Seq<u8>, rel: Seq<(int, int)>, labels: Seq<Option<usize>>) -> Seq<u8>
    decreases rel.len(),
{
    if rel.len() == 0 {
        code
    } else {
        let (a, l) = rel[rel.len() - 1];
        write4(patched(code, rel.subrange(0, rel.len() - 1), labels), a, le_bytes(labels[l].unwrap() as u32))
    }
}

/// Every slot's label is bound.
pub open spec fn all_bound(rel: Seq<(int, int)>, labels: Seq<Option<usize>>) -> bool {
    forall|k: int| 0 <= k < rel.len() ==> labels[(#[trigger] rel[k]).1] is Some
}

/// Every slot lies within code of length `n`.
pub open spec fn slots_within(rel: Seq<(int, int)>, n: int) -> bool {
    forall|k: int| 0 <= k < rel.len() ==> 0 <= (#[trigger] rel[k]).0 && rel[k].0 + 4 <= n
}

/// Filling slots keeps the length of the code.
pub proof fn lemma_patched_len(code: Seq<u8>, rel: Seq<(int, int)>, labels: Seq<Option<usize>>)
    requires
        slots_within(rel, code.len() as int),
    ensures
        patched(code, rel, labels).len() == code.len(),
    decreases rel.len(),
{
    if rel.len() > 0 {
        let rest = rel.subrange(0, rel.len() - 1);
        assert forall|k: int| 0 <= k < rest.len() implies 0 <= (#[trigger] rest[k]).0 && rest[k].0 + 4 <= code.len() by {
            assert(rest[k] == rel[k]);
        }
        lemma_patched_len(code, rest, labels);
        assert(0 <= rel[rel.len() - 1].0 && rel[rel.len() - 1].0 + 4 <= code.len());
    }
}

/// Linking changes no byte outside the slots: a byte that no slot covers
/// keeps its value.
pub proof fn lemma_link_keeps_other_bytes(code: Seq<u8>, rel: Seq<(int, int)>, labels: Seq<Option<usize>>, i: int)
    requires
        0 <= i < code.len(),
        slots_within(rel, code.len() as int),
        forall|k: int| 0 <= k < rel.len() ==> !((#[trigger] rel[k]).0 <= i < rel[k].0 + 4),
    ensures
        patched(code, rel, labels)[i] == code[i],
    decreases rel.len(),
{
    lemma_patched_len(code, rel, labels);
    if rel.len() > 0 {
        let rest = rel.subrange(0, rel.len() - 1);
        assert forall|k: int| 0 <= k < rest.len() implies !((#[trigger] rest[k]).0 <= i < rest[k].0 + 4) by {
            assert(rest[k] == rel[k]);
        }
        assert forall|k: int| 0 <= k < rest.len() implies 0 <= (#[trigger] rest[k]).0 && rest[k].0 + 4 <= code.len() by {
            assert(rest[k] == rel[k]);
        }
        lemma_link_keeps_other_bytes(code, rest, labels, i);
        lemma_patched_len(code, rest, labels);
        let last = rel[rel.len() - 1];
        assert(!(last.0 <= i < last.0 + 4));
    }
}

/// Linking fills the last slot with its label's address: the four bytes
/// at the slot read back as that address.
pub proof fn lemma_link_fills_last_slot(code: Seq<u8>, rel: Seq<(int, int)>, labels: Seq<Option<usize>>)
    requires
        rel.len() > 0,
        slots_within(rel, code.len() as int),
    ensures
        le_value(patched(code, rel, labels), rel[rel.len() - 1].0) == labels[rel[rel.len() - 1].1].unwrap() as u32,
{
    let (a, l) = rel[rel.len() - 1];
    let v = labels[l].unwrap() as u32;
    let rest = rel.subrange(0, rel.len() - 1);
    assert forall|k: int| 0 <= k < rest.len() implies 0 <= (#[trigger] rest[k]).0 && rest[k].0 + 4 <= code.len() by {
        assert(rest[k] == rel[k]);
    }
    lemma_patched_len(code, rest, labels);
    assert(0 <= a && a + 4 <= code.len());
    lemma_le_roundtrip(v);
    let p = patched(code, rel, labels);
    assert(p[a] == le_bytes(v)[0]);
    assert(p[a + 1] == le_bytes(v)[1]);
    assert(p[a + 2] == le_bytes(v)[2]);
    assert(p[a + 3] == le_bytes(v)[3]);
}

/// The slots of a well-formed builder lie within its code, so the laws
/// of `link` above apply to it.
pub proof fn lemma_wf_slots(b: &BytecodeBuilder)
    requires
        b.wf(),
    ensures
        slots_within(b.relocations(), b.bytes().len() as int),
{
    assert forall|k: int| 0 <= k < b.relocations().len() implies 0 <= (#[trigger] b.relocations()[k]).0
        && b.relocations()[k].0 + 4 <= b.bytes().len() by {
        let (x, l) = b.relocations()[k];
    }
}

/// `b` continues `a`: the code, the slots and the constants of `a` are
/// kept as they were, with more possibly after them, and every label `a`
/// had bound keeps its address.
pub open spec fn continues(a: BytecodeBuilder, b: BytecodeBuilder) -> bool {
    &&& a.bytes().len() <= b.bytes().len()
    &&& b.bytes().subrange(0, a.bytes().len() as int) == a.bytes()
    &&& a.relocations().len() <= b.relocations().len()
    &&& b.relocations().subrange(0, a.relocations().len() as int) == a.relocations()
    &&& a.consts().len() <= b.consts().len()
    &&& b.consts().subrange(0, a.consts().len() as int) == a.consts()
    &&& a.labels().len() <= b.labels().len()
    &&& forall|i: int| 0 <= i < a.labels().len() && (#[trigger] a.labels()[i]) is Some ==> b.labels()[i] == a.labels()[i]
}

/// Continuing is transitive.
pub proof fn lemma_continues_trans(a: BytecodeBuilder, b: BytecodeBuilder, c: BytecodeBuilder)
    requires
        continues(a, b),
        continues(b, c),
    ensures
        continues(a, c),
{
    assert(c.bytes().subrange(0, a.bytes().len() as int) =~= c.bytes().subrange(0, b.bytes().len() as int).subrange(0, a.bytes().len() as int));
    assert(c.relocations().subrange(0, a.relocations().len() as int) =~= c.relocations().subrange(0, b.relocations().len() as int).subrange(0, a.relocations().len() as int));
    assert(c.consts().subrange(0, a.consts().len() as int) =~= c.consts().subrange(0, b.consts().len() as int).subrange(0, a.consts().len() as int));
}

/// A builder continues itself.
proof fn lemma_continues_refl(a: BytecodeBuilder)
    ensures
        continues(a, a),
{
    assert(a.bytes().subrange(0, a.bytes().len() as int) =~= a.bytes());
    assert(a.relocations().subrange(0, a.relocations().len() as int) =~= a.relocations());
    assert(a.consts().subrange(0, a.consts().len() as int) =~= a.consts());
}

/// Adding a label, binding a fresh one, or appending an instruction with
/// its slot continues the builder.
proof fn lemma_continues_step(a: BytecodeBuilder, b: BytecodeBuilder)
    requires
        a.bytes().len() <= b.bytes().len(),
        b.bytes().subrange(0, a.bytes().len() as int) =~= a.bytes(),
        a.relocations().len() <= b.relocations().len(),
        b.relocations().subrange(0, a.relocations().len() as int) =~= a.relocations(),
        a.consts().len() <= b.consts().len(),
        b.consts().subrange(0, a.consts().len() as int) =~= a.consts(),
        a.labels().len() <= b.labels().len(),
        forall|i: int| 0 <= i < a.labels().len() && (#[trigger] a.labels()[i]) is Some ==> b.labels()[i] == a.labels()[i],
    ensures
        continues(a, b),
{
}

impl BytecodeBuilder {
    /// Writes a loop: a start label bound here, the body (given the start
    /// and end labels), a jump back to the start, and the end label bound
    /// after that jump. The body must keep what was written before it.
    pub fn emit_loop<F>(&mut self, body: F)
        where
            F: FnOnce(&mut Self, Label, Label),
        requires
            old(self).wf(),
            forall|b: &mut Self, s: Label, e: Label| b.wf() ==> #[trigger] body.requires((b, s, e)),
            forall|b: &mut Self, s: Label, e: Label| #[trigger] body.ensures((b, s, e), ()) ==> final(b).wf()
                && continues(*b, *final(b)),
        ensures
            final(self).wf(),
            continues(*old(self), *final(self)),
            final(self).labels()[old(self).labels().len() as int] == Some(old(self).bytes().len() as usize),
            loop_end(old(self).labels().len(), *final(self)),
    {
        let ghost b0 = *self;
        let start_label = self.make_label();
        let end_label = self.make_label();
        self.bind_label(start_label);
        let ghost b1 = *self;
        proof {
            lemma_continues_step(b0, b1);
        }
        body(self, start_label, end_label);
        let ghost m = *self;
        self.emit_jmp(start_label);
        self.bind_label(end_label);
        proof {
            let len = self.bytes().len();
            assert(len == m.bytes().len() + 5);
            assert(self.bytes().subrange(len - 5, len as int) =~= seq![opcode_byte(Opcode::Jmp)] + le_bytes(0));
            lemma_continues_trans(b0, b1, m);
            assert(m.labels()[b0.labels().len() as int] == Some(b0.bytes().len() as usize)) by {
                assert(b1.labels()[b0.labels().len() as int] is Some);
            }
            assert(self.bytes().subrange(0, m.bytes().len() as int) =~= m.bytes());
            assert(self.relocations().subrange(0, m.relocations().len() as int) =~= m.relocations());
            assert(self.bytes().subrange(0, b0.bytes().len() as int) =~= m.bytes().subrange(0, b0.bytes().len() as int));
            assert(self.relocations().subrange(0, b0.relocations().len() as int) =~= m.relocations().subrange(0, b0.relocations().len() as int));
            lemma_continues_step(b0, *self);
        }
    }

    /// Writes a while loop: a start label bound here, the condition, a
    /// `JmpIfFalse` to the end, the body (given the start and end labels),
    /// a jump back to the start, and the end label bound after that jump.
    /// The condition and the body must keep what was written before them.
    pub fn emit_while<C, B>(&mut self, condition: C, body: B)
        where
            C: FnOnce(&mut Self),
            B: FnOnce(&mut Self, Label, Label),
        requires
            old(self).wf(),
            forall|b: &mut Self| b.wf() ==> #[trigger] condition.requires((b,)),
            forall|b: &mut Self| #[trigger] condition.ensures((b,), ()) ==> final(b).wf() && continues(*b, *final(b)),
            forall|b: &mut Self, s: Label, e: Label| b.wf() ==> #[trigger] body.requires((b, s, e)),
            forall|b: &mut Self, s: Label, e: Label| #[trigger] body.ensures((b, s, e), ()) ==> final(b).wf()
                && continues(*b, *final(b)),
        ensures
            final(self).wf(),
            continues(*old(self), *final(self)),
            final(self).labels()[old(self).labels().len() as int] == Some(old(self).bytes().len() as usize),
            loop_end(old(self).labels().len(), *final(self)),
            exists|p: int, j: int| #![trigger final(self).bytes()[p], final(self).relocations()[j]]
                old(self).bytes().len() <= p && p + 10 <= final(self).bytes().len()
                && final(self).bytes()[p] == opcode_byte(Opcode::JmpIfFalse)
                && old(self).relocations().len() <= j < final(self).relocations().len() - 1
                && final(self).relocations()[j] == (p + 1, old(self).labels().len() + 1int),
    {
        let ghost b0 = *self;
        let start_label = self.make_label();
        let end_label = self.make_label();
        self.bind_label(start_label);
        let ghost b1 = *self;
        proof {
            lemma_continues_step(b0, b1);
        }
        condition(self);
        let ghost c1 = *self;
        self.emit_if_false(end_label);
        let ghost c2 = *self;
        proof {
            lemma_continues_step(c1, c2);
            lemma_continues_trans(b0, b1, c1);
            lemma_continues_trans(b0, c1, c2);
        }
        body(self, start_label, end_label);
        let ghost m = *self;
        self.emit_jmp(start_label);
        self.bind_label(end_label);
        proof {
            let len = self.bytes().len();
            assert(len == m.bytes().len() + 5);
            assert(self.bytes().subrange(len - 5, len as int) =~= seq![opcode_byte(Opcode::Jmp)] + le_bytes(0));
            lemma_continues_trans(b0, c2, m);
            assert(m.labels()[b0.labels().len() as int] == Some(b0.bytes().len() as usize)) by {
                assert(b1.labels()[b0.labels().len() as int] is Some);
            }
            assert(self.bytes().subrange(0, m.bytes().len() as int) =~= m.bytes());
            assert(self.relocations().subrange(0, m.relocations().len() as int) =~= m.relocations());
            assert(self.bytes().subrange(0, b0.bytes().len() as int) =~= m.bytes().subrange(0, b0.bytes().len() as int));
            assert(self.relocations().subrange(0, b0.relocations().len() as int) =~= m.relocations().subrange(0, b0.relocations().len() as int));
            lemma_continues_step(b0, *self);
            let p = c1.bytes().len() as int;
            let j = c1.relocations().len() as int;
            assert(c2.bytes()[p] == opcode_byte(Opcode::JmpIfFalse));
            assert(c2.relocations()[j] == (p + 1, b0.labels().len() + 1int));
            assert(m.bytes().subrange(0, c2.bytes().len() as int)[p] == c2.bytes()[p]);
            assert(m.relocations().subrange(0, c2.relocations().len() as int)[j] == c2.relocations()[j]);
            assert(self.bytes()[p] == opcode_byte(Opcode::JmpIfFalse));
            assert(self.relocations()[j] == (p + 1, b0.labels().len() + 1int));
        }
    }

    /// Fills every jump slot with the address of its label and gives the
    /// code. Each slot's label must be bound.
    pub fn link(self) -> (r: Vec<u8>)
        requires
            self.wf(),
            all_bound(self.relocations(), self.labels()),
        ensures
            r@ == patched(self.bytes(), self.relocations(), self.labels()),
    {
        let mut code = self.code;
        let mut k: usize = 0;
        let ghost rel = self.relocations();
        let ghost labels = self.labels();
        while k < self.relocations.len()
            invariant
                k <= self.relocations@.len(),
                rel == self.relocations(),
                labels == self.labels(),
                rel.len() == self.relocations@.len(),
                self.wf(),
                all_bound(rel, labels),
                code@ == patched(self.code@, rel.subrange(0, k as int), labels),
                code@.len() == self.code@.len(),
            decreases self.relocations.len() - k,
        {
            let reloc = &self.relocations[k];
            let n = code.len();
            proof {
                assert(rel[k as int] == reloc_view(*reloc));
                assert(labels[rel[k as int].1] is Some);
                let (x, l) = self.relocations()[k as int];
                assert(0 <= x && x + 4 <= self.code@.len());
                assert(0 <= l < self.labels().len());
            }
            let target_addr = match self.labels[reloc.label.0] {
                Some(a) => a,
                None => 0,
            };
            let bytes = u32_le_bytes(target_addr as u32);
            let a = reloc.instruction_addr;
            code.set(a, bytes[0]);
            code.set(a + 1, bytes[1]);
            code.set(a + 2, bytes[2]);
            code.set(a + 3, bytes[3]);
            proof {
                let next = rel.subrange(0, k + 1);
                assert(next.subrange(0, k as int) =~= rel.subrange(0, k as int));
                assert(next[next.len() - 1] == rel[k as int]);
            }
            k = k + 1;
        }
        proof {
            assert(rel.subrange(0, rel.len() as int) =~= rel);
        }
        code
    }
}

/// After writing a loop whose labels start at index `n`: the end label is
/// bound to the end of the code, which ends with a jump whose slot is the
/// last one recorded and names the start label.
pub open spec fn loop_end(n: nat, b: BytecodeBuilder) -> bool {
    let len = b.bytes().len();
    &&& b.labels().len() >= n + 2
    &&& b.labels()[n + 1int] == Some(len as usize)
    &&& len >= 5
    &&& b.bytes().subrange(len - 5, len as int) == seq![opcode_byte(Opcode::Jmp)] + le_bytes(0)
    &&& b.relocations().len() > 0
    &&& b.relocations()[b.relocations().len() - 1] == (len - 4, n as int)
}

} // verus!
