use vstd::prelude::*;
use crate::language::text::text;

verus! {

/// The name of the function a worker module exports as its entry point.
pub const ENTRYPOINT_NAME: &'static str = "_cesium_entrypoint";

/// The status of a worker run that succeeded.
pub const STATUS_SUCCESS: u32 = 0x00;

/// The status of a worker run that failed.
pub const STATUS_FAILED: u32 = 0x01;

/// The flag of a response that carries output data.
pub const FLAG_HAS_OUTPUT_DATA: u32 = 0x100;

/// The flag of a response that carries logs.
pub const FLAG_LOGS_AVAILABLE: u32 = 0x200;

/// The flag of a critical error.
pub const FLAG_CRITICAL_ERROR: u32 = 0x400;

/// The flag that asks for the worker to be reloaded.
pub const FLAG_RELOAD_REQUIRED: u32 = 0x800;

/// The flag of a worker whose memory is corrupted.
pub const FLAG_MEMORY_CORRUPTED: u32 = 0x1000;

/// The packed result of a worker run: the status and flags, or-ed
/// together, in the upper 32 bits and the response pointer in the lower
/// 32 bits.
pub open spec fn result_value(status: u32, flags: u32, response_ptr: u32) -> u64 {
    ((status | flags) as int * 0x1_0000_0000 + response_ptr as int) as u64
}

/// The flags word of a packed result: its upper 32 bits.
pub open spec fn flags_of(value: u64) -> u32 {
    (value / 0x1_0000_0000) as u32
}

/// The status of a packed result: the lowest byte of its flags word.
pub open spec fn status_of(value: u64) -> u32 {
    flags_of(value) % 256
}

/// The response pointer of a packed result: its lower 32 bits.
pub open spec fn ptr_of(value: u64) -> u32 {
    (value % 0x1_0000_0000) as u32
}

/// Packs a status, flags and a response pointer into one value.
pub fn make_result_value(status: u32, flags: u32, response_ptr: u32) -> (r: u64)
    ensures
        r == result_value(status, flags, response_ptr),
{
    let packed = (status | flags) as u64;
    let r = (packed << 32u64) | (response_ptr as u64);
    assert((packed << 32u64) | (response_ptr as u64) == packed * 0x1_0000_0000 + response_ptr as u64) by (bit_vector)
        requires
            packed < 0x1_0000_0000,
    ;
    r
}

/// The flags word and the status of a packed result, in that order.
pub fn get_flags_and_status(value: u64) -> (r: (u32, u32))
    ensures
        r.0 == flags_of(value),
        r.1 == status_of(value),
{
    let flags = (value >> 32u64) as u32;
    let status = flags & 0xFF;
    assert(value >> 32u64 == value / 0x1_0000_0000) by (bit_vector);
    assert(flags & 0xFF == flags % 256) by (bit_vector);
    (flags, status)
}

/// The response pointer of a packed result.
pub fn get_response_ptr(value: u64) -> (r: usize)
    ensures
        r == ptr_of(value),
{
    assert(value & 0xFFFFFFFF == value % 0x1_0000_0000) by (bit_vector);
    ((value & 0xFFFFFFFF) as u32) as usize
}

/// Whether `flags` has any bit of `flag` set.
pub fn has_flag(flags: u32, flag: u32) -> (r: bool)
    ensures
        r == (flags & flag != 0),
{
    (flags & flag) != 0
}

/// Unpacking a packed result gives back its parts: the flags word is the
/// or of status and flags, and the pointer is the pointer. When the status
/// fits in a byte and the flags leave the lowest byte clear, the status
/// comes back too.
pub proof fn lemma_result_value_roundtrip(status: u32, flags: u32, response_ptr: u32)
    ensures
        flags_of(result_value(status, flags, response_ptr)) == status | flags,
        ptr_of(result_value(status, flags, response_ptr)) == response_ptr,
        status < 256 && flags % 256 == 0 ==> status_of(result_value(status, flags, response_ptr)) == status,
{
    let w = status | flags;
    let v = result_value(status, flags, response_ptr);
    assert(v == w as int * 0x1_0000_0000 + response_ptr as int);
    assert(v / 0x1_0000_0000 == w);
    assert(v % 0x1_0000_0000 == response_ptr);
    if status < 256 && flags % 256 == 0 {
        assert((status | flags) % 256 == status) by (bit_vector)
            requires
                status < 256,
                flags % 256 == 0,
        ;
    }
}

/// Where a worker's response lies in its memory: the address and length
/// of its output and of its logs.
#[derive(Debug, Clone, Copy, PartialEq, Eq)]
pub struct WorkerResponseHeader {
    pub output_ptr: u32,
    pub output_len: u32,
    pub logs_ptr: u32,
    pub logs_len: u32,
}

/// The flags of a response: the given flags with the output flag set when
/// there is output and the logs flag set when there are logs.
pub open spec fn response_flags_spec(flags: u32, output_len: nat, logs_len: nat) -> u32 {
    let f1 = if output_len > 0 { flags | FLAG_HAS_OUTPUT_DATA } else { flags };
    if logs_len > 0 { f1 | FLAG_LOGS_AVAILABLE } else { f1 }
}

/// The flags of a response (see `response_flags_spec`).
pub fn response_flags(flags: u32, output_len: usize, logs_len: usize) -> (r: u32)
    ensures
        r == response_flags_spec(flags, output_len as nat, logs_len as nat),
{
    let mut f = flags;
    if output_len > 0 {
        f = f | FLAG_HAS_OUTPUT_DATA;
    }
    if logs_len > 0 {
        f = f | FLAG_LOGS_AVAILABLE;
    }
    f
}

/// The header of a response: the address and length (as `u32`) of the
/// output and of the logs, zero for a part that is empty.
pub fn response_header(output_ptr: u32, output_len: usize, logs_ptr: u32, logs_len: usize) -> (r: WorkerResponseHeader)
    ensures
        r.output_ptr == (if output_len > 0 { output_ptr } else { 0 }),
        r.output_len == (if output_len > 0 { output_len as u32 } else { 0 }),
        r.logs_ptr == (if logs_len > 0 { logs_ptr } else { 0 }),
        r.logs_len == (if logs_len > 0 { logs_len as u32 } else { 0 }),
{
    let mut h = WorkerResponseHeader { output_ptr: 0, output_len: 0, logs_ptr: 0, logs_len: 0 };
    if output_len > 0 {
        h.output_ptr = output_ptr;
        h.output_len = output_len as u32;
    }
    if logs_len > 0 {
        h.logs_ptr = logs_ptr;
        h.logs_len = logs_len as u32;
    }
    h
}

/// The packed result of a response whose header lies at `header_ptr`: the
/// status with the response's flags (see `response_flags_spec`).
pub fn prepare_response(status: u32, flags: u32, output_len: usize, logs_len: usize, header_ptr: u32) -> (r: u64)
    ensures
        r == result_value(status, response_flags_spec(flags, output_len as nat, logs_len as nat), header_ptr),
{
    let f = response_flags(flags, output_len, logs_len);
    make_result_value(status, f, header_ptr)
}

/// The result of a worker run as the host reads it.
#[derive(Debug, Clone)]
pub struct VmExecutionResult {
    pub status: u32,
    pub flags: u32,
    pub output: Vec<u8>,
    pub logs: Vec<u8>,
}

/// The UTF-8 encoding of a character.
pub open spec fn utf8_char(c: char) -> Seq<u8> {
    let v = c as u32;
    if v < 0x80 {
        seq![v as u8]
    } else if v < 0x800 {
        seq![(0xC0 + v / 64) as u8, (0x80 + v % 64) as u8]
    } else if v < 0x10000 {
        seq![(0xE0 + v / 4096) as u8, (0x80 + (v / 64) % 64) as u8, (0x80 + v % 64) as u8]
    } else {
        seq![(0xF0 + v / 262144) as u8, (0x80 + (v / 4096) % 64) as u8, (0x80 + (v / 64) % 64) as u8, (0x80 + v % 64) as u8]
    }
}

/// The UTF-8 encoding of a string.
pub open spec fn utf8(s: Seq<char>) -> Seq<u8>
    decreases s.len(),
{
    if s.len() == 0 {
        Seq::empty()
    } else {
        utf8(s.drop_last()) + utf8_char(s.last())
    }
}

/// The bytes of a string (`str::as_bytes`): a string is stored in UTF-8,
/// so they are its UTF-8 encoding.
#[verifier::external_body]
pub(crate) fn str_bytes(s: &str) -> (r: Vec<u8>)
    ensures
        r@ == utf8(s@),
{
    s.as_bytes().to_vec()
}

/// The logs of a worker run and the name its lines are tagged with.
pub struct WorkerLogStorage {
    pub worker_name: String,
    pub logs: Vec<String>,
}

/// The views of a list of strings.
pub open spec fn lines_view(v: Seq<String>) -> Seq<Seq<char>> {
    v.map_values(|s: String| s@)
}

/// Lines joined with `sep` between them.
pub open spec fn joined(lines: Seq<Seq<char>>, sep: Seq<char>) -> Seq<char>
    decreases lines.len(),
{
    if lines.len() == 0 {
        Seq::empty()
    } else if lines.len() == 1 {
        lines[0]
    } else {
        joined(lines.drop_last(), sep) + sep + lines.last()
    }
}

impl WorkerLogStorage {
    /// Storage for a worker not named yet (`unknown_worker`), with no logs.
    pub fn new() -> (r: WorkerLogStorage)
        ensures
            r.worker_name@ == "unknown_worker"@,
            r.logs@.len() == 0,
    {
        WorkerLogStorage { worker_name: text("unknown_worker"), logs: Vec::new() }
    }
}

/// Names the worker and clears its logs.
pub fn init_worker_context(storage: &mut WorkerLogStorage, name: &str)
    ensures
        final(storage).worker_name@ == name@,
        final(storage).logs@.len() == 0,
{
    storage.worker_name = text(name);
    storage.logs = Vec::new();
}

/// Appends the log line `[<worker name>] <message>`.
pub fn log_push(storage: &mut WorkerLogStorage, message: &str)
    ensures
        final(storage).worker_name == old(storage).worker_name,
        lines_view(final(storage).logs@) == lines_view(old(storage).logs@).push(
            "["@ + old(storage).worker_name@ + "] "@ + message@,
        ),
{
    let mut line = text("[");
    line.append(storage.worker_name.as_str());
    line.append("] ");
    line.append(message);
    storage.logs.push(line);
    proof {
        assert(lines_view(storage.logs@) =~= lines_view(old(storage).logs@).push(
            "["@ + old(storage).worker_name@ + "] "@ + message@,
        ));
    }
}

/// The logs as bytes: the lines joined with newlines, in UTF-8; nothing
/// when there are no logs.
pub fn collect_logs_to_bytes(storage: &WorkerLogStorage) -> (r: Vec<u8>)
    ensures
        r@ == utf8(joined(lines_view(storage.logs@), "\n"@)),
{
    if storage.logs.len() == 0 {
        proof {
            assert(lines_view(storage.logs@).len() == 0);
        }
        return Vec::new();
    }
    let ghost lines = lines_view(storage.logs@);
    let mut merged = String::new();
    let mut i: usize = 0;
    while i < storage.logs.len()
        invariant
            i <= storage.logs@.len(),
            lines == lines_view(storage.logs@),
            merged@ == joined(lines.subrange(0, i as int), "\n"@),
        decreases storage.logs.len() - i,
    {
        if i > 0 {
            merged.append("\n");
        }
        merged.append(storage.logs[i].as_str());
        proof {
            let next = lines.subrange(0, i + 1);
            assert(next.drop_last() =~= lines.subrange(0, i as int));
            if i == 0 {
                assert(lines.subrange(0, 0).len() == 0);
            }
        }
        i = i + 1;
    }
    proof {
        assert(lines.subrange(0, storage.logs@.len() as int) =~= lines);
    }
    str_bytes(merged.as_str())
}

/// The `n` low bytes of `v`, least significant first.
pub open spec fn le_seq(v: nat, n: nat) -> Seq<u8>
    decreases n,
{
    if n == 0 {
        Seq::empty()
    } else {
        seq![(v % 256) as u8] + le_seq(v / 256, (n - 1) as nat)
    }
}

/// Appends the `n` low bytes of `v`, least significant first.
pub(crate) fn push_le(out: &mut Vec<u8>, v: u64, n: usize)
    requires
        n <= 8,
    ensures
        final(out)@ == old(out)@ + le_seq(v as nat, n as nat),
{
    let mut x = v;
    let mut k: usize = 0;
    while k < n
        invariant
            k <= n,
            old(out)@ + le_seq(v as nat, n as nat) == out@ + le_seq(x as nat, (n - k) as nat),
        decreases n - k,
    {
        let b = (x & 0xff) as u8;
        assert(x & 0xff == x % 256) by (bit_vector);
        assert(x >> 8u64 == x / 256) by (bit_vector);
        proof {
            assert(le_seq(x as nat, (n - k) as nat) == seq![(x % 256) as u8] + le_seq((x / 256) as nat, (n - k - 1) as nat));
            assert(out@ + le_seq(x as nat, (n - k) as nat) =~= out@.push(b) + le_seq((x / 256) as nat, (n - k - 1) as nat));
        }
        out.push(b);
        x = x >> 8u64;
        k = k + 1;
    }
    assert(out@ + le_seq(x as nat, 0) =~= out@);
}

/// The `n` low bytes of `v` in a new vector.
pub(crate) fn le_vec(v: u64, n: usize) -> (r: Vec<u8>)
    requires
        n <= 8,
    ensures
        r@ == le_seq(v as nat, n as nat),
{
    let mut out = Vec::new();
    push_le(&mut out, v, n);
    assert(Seq::<u8>::empty() + le_seq(v as nat, n as nat) =~= le_seq(v as nat, n as nat));
    out
}

/// A value that can be written into a worker's context as bytes; numbers
/// are written little-endian.
pub trait ContextToBytes {
    /// The bytes of this value.
    fn to_bytes(&self) -> Vec<u8>;
}

impl ContextToBytes for i8 {
    fn to_bytes(&self) -> (r: Vec<u8>)
        ensures
            r@ == seq![*self as u8],
    {
        let mut v = Vec::new();
        v.push(*self as u8);
        assert(v@ =~= seq![*self as u8]);
        v
    }
}

impl ContextToBytes for u16 {
    fn to_bytes(&self) -> (r: Vec<u8>)
        ensures
            r@ == le_seq(*self as nat, 2),
    {
        le_vec(*self as u64, 2)
    }
}

impl ContextToBytes for i16 {
    fn to_bytes(&self) -> (r: Vec<u8>)
        ensures
            r@ == le_seq((*self as u16) as nat, 2),
    {
        le_vec((*self as u16) as u64, 2)
    }
}

impl ContextToBytes for u32 {
    fn to_bytes(&self) -> (r: Vec<u8>)
        ensures
            r@ == le_seq(*self as nat, 4),
    {
        le_vec(*self as u64, 4)
    }
}

impl ContextToBytes for i32 {
    fn to_bytes(&self) -> (r: Vec<u8>)
        ensures
            r@ == le_seq((*self as u32) as nat, 4),
    {
        le_vec((*self as u32) as u64, 4)
    }
}

impl ContextToBytes for u64 {
    fn to_bytes(&self) -> (r: Vec<u8>)
        ensures
            r@ == le_seq(*self as nat, 8),
    {
        le_vec(*self, 8)
    }
}

impl ContextToBytes for i64 {
    fn to_bytes(&self) -> (r: Vec<u8>)
        ensures
            r@ == le_seq((*self as u64) as nat, 8),
    {
        le_vec(*self as u64, 8)
    }
}

impl ContextToBytes for bool {
    fn to_bytes(&self) -> (r: Vec<u8>)
        ensures
            r@ == seq![if *self { 1u8 } else { 0u8 }],
    {
        let mut v = Vec::new();
        v.push(if *self { 1u8 } else { 0u8 });
        assert(v@ =~= seq![if *self { 1u8 } else { 0u8 }]);
        v
    }
}

impl ContextToBytes for String {
    fn to_bytes(&self) -> (r: Vec<u8>)
        ensures
            r@ == utf8(self@),
    {
        str_bytes(self.as_str())
    }
}

impl ContextToBytes for &str {
    fn to_bytes(&self) -> (r: Vec<u8>)
        ensures
            r@ == utf8((*self)@),
    {
        str_bytes(*self)
    }
}

/// A copy of a byte slice.
fn copy_bytes(b: &[u8]) -> (r: Vec<u8>)
    ensures
        r@ == b@,
{
    let mut out = Vec::new();
    let mut i: usize = 0;
    while i < b.len()
        invariant
            i <= b@.len(),
            out@ == b@.subrange(0, i as int),
        decreases b.len() - i,
    {
        out.push(b[i]);
        assert(out@ =~= b@.subrange(0, i + 1));
        i = i + 1;
    }
    assert(b@.subrange(0, b@.len() as int) =~= b@);
    out
}

impl ContextToBytes for Vec<u8> {
    fn to_bytes(&self) -> (r: Vec<u8>)
        ensures
            r@ == self@,
    {
        copy_bytes(self.as_slice())
    }
}

impl ContextToBytes for &[u8] {
    fn to_bytes(&self) -> (r: Vec<u8>)
        ensures
            r@ == (*self)@,
    {
        copy_bytes(*self)
    }
}

} // verus!
