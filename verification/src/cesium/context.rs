use vstd::prelude::*;
use crate::cesium::sdk::{utf8, str_bytes, le_seq, le_vec, push_le};
use crate::language::compiler::{le_value, u32_from_le};
use crate::language::text::text;

verus! {

/// `256` to the power `n`.
pub open spec fn pow256(n: nat) -> nat
    decreases n,
{
    if n == 0 { 1 } else { 256 * pow256((n - 1) as nat) }
}

/// The number whose little-endian bytes are `s`.
pub open spec fn le_num(s: Seq<u8>) -> nat
    decreases s.len(),
{
    if s.len() == 0 { 0 } else { s[0] as nat + 256 * le_num(s.drop_first()) }
}

/// The 8-byte little-endian number at position `i` of `b`.
pub open spec fn u64_at(b: Seq<u8>, i: int) -> nat {
    le_num(b.subrange(i, i + 8))
}

/// Reading back the `n` low bytes of a number below `256^n` gives it.
pub proof fn lemma_le_roundtrip_n(v: nat, n: nat)
    requires
        v < pow256(n),
    ensures
        le_num(le_seq(v, n)) == v,
    decreases n,
{
    if n > 0 {
        let p = pow256((n - 1) as nat);
        assert(v / 256 < p) by (nonlinear_arith)
            requires
                v < 256 * p,
        ;
        lemma_le_roundtrip_n(v / 256, (n - 1) as nat);
        assert(le_seq(v, n).drop_first() =~= le_seq(v / 256, (n - 1) as nat));
        assert(v == v % 256 + 256 * (v / 256)) by (nonlinear_arith);
    }
}

/// `256^8` is `2^64`.
pub proof fn lemma_pow256_8()
    ensures
        pow256(8) == 0x1_0000_0000_0000_0000,
{
    reveal_with_fuel(pow256, 9);
}

/// Reading back the 8 bytes of a `u64` gives it.
pub proof fn lemma_u64_roundtrip(v: u64)
    ensures
        le_num(le_seq(v as nat, 8)) == v,
        le_seq(v as nat, 8).len() == 8,
{
    lemma_pow256_8();
    lemma_le_roundtrip_n(v as nat, 8);
    lemma_le_seq_len(v as nat, 8);
}

/// `le_seq(v, n)` has `n` bytes.
pub proof fn lemma_le_seq_len(v: nat, n: nat)
    ensures
        le_seq(v, n).len() == n,
    decreases n,
{
    if n > 0 {
        lemma_le_seq_len(v / 256, (n - 1) as nat);
    }
}

/// Reads the 8-byte little-endian number at position `i`.
fn read_u64(b: &Vec<u8>, i: usize) -> (r: u64)
    requires
        i + 8 <= b@.len(),
    ensures
        r == u64_at(b@, i as int),
{
    let blen = b.len();
    let mut acc: u64 = 0;
    let mut k: usize = 8;
    proof {
        assert(b@.subrange(i + 8, i + 8).len() == 0);
    }
    while k > 0
        invariant
            k <= 8,
            i + 8 <= b@.len(),
            blen == b@.len(),
            acc == le_num(b@.subrange(i + k, i + 8)),
            acc < pow256((8 - k) as nat),
        decreases k,
    {
        let x = b[i + k - 1];
        proof {
            let s = b@.subrange(i + k - 1, i + 8);
            assert(s.drop_first() =~= b@.subrange(i + k, i + 8));
            assert(s[0] == x);
            lemma_pow256_8();
            let p = pow256((8 - k) as nat);
            assert(pow256((8 - k + 1) as nat) == 256 * p);
            assert(p <= pow256(7)) by {
                lemma_pow256_mono((8 - k) as nat, 7);
            }
            reveal_with_fuel(pow256, 8);
            assert(x as nat + 256 * acc < 256 * p) by (nonlinear_arith)
                requires
                    acc < p,
                    x < 256,
            ;
            assert(256 * p <= 0x1_0000_0000_0000_0000) by (nonlinear_arith)
                requires
                    p <= pow256(7),
                    pow256(7) == 0x100_0000_0000_0000,
            ;
        }
        acc = acc * 256 + x as u64;
        k = k - 1;
    }
    proof {
        assert(b@.subrange(i as int, i + 8) =~= b@.subrange(i + 0, i + 8));
    }
    acc
}

/// Powers of 256 grow with the exponent.
pub proof fn lemma_pow256_mono(a: nat, b: nat)
    requires
        a <= b,
    ensures
        pow256(a) <= pow256(b),
    decreases b,
{
    if a < b {
        lemma_pow256_mono(a, (b - 1) as nat);
        lemma_pow256_pos((b - 1) as nat);
    }
}

/// Powers of 256 are positive.
pub proof fn lemma_pow256_pos(n: nat)
    ensures
        pow256(n) >= 1,
    decreases n,
{
    if n > 0 {
        lemma_pow256_pos((n - 1) as nat);
    }
}

/// Writes `src` into `b` from position `at`.
fn write_at(b: &mut Vec<u8>, at: usize, src: &[u8])
    requires
        at + src@.len() <= old(b)@.len(),
    ensures
        final(b)@ == old(b)@.subrange(0, at as int) + src@ + old(b)@.subrange(at + src@.len(), old(b)@.len() as int),
        final(b)@.len() == old(b)@.len(),
{
    let n = src.len();
    let blen = b.len();
    let mut k: usize = 0;
    while k < n
        invariant
            k <= n,
            n == src@.len(),
            at + n <= old(b)@.len(),
            b@.len() == old(b)@.len(),
            blen == b@.len(),
            b@ == old(b)@.subrange(0, at as int) + src@.subrange(0, k as int) + old(b)@.subrange(at + k, old(b)@.len() as int),
        decreases n - k,
    {
        b.set(at + k, src[k]);
        proof {
            assert(b@ =~= old(b)@.subrange(0, at as int) + src@.subrange(0, k + 1) + old(b)@.subrange(at + k + 1, old(b)@.len() as int));
        }
        k = k + 1;
    }
    proof {
        assert(src@.subrange(0, n as int) =~= src@);
    }
}

/// Writes the 8 little-endian bytes of `v` into `b` at position `at`.
fn write_u64(b: &mut Vec<u8>, at: usize, v: u64)
    requires
        at + 8 <= old(b)@.len(),
    ensures
        final(b)@ == old(b)@.subrange(0, at as int) + le_seq(v as nat, 8) + old(b)@.subrange(at + 8, old(b)@.len() as int),
        u64_at(final(b)@, at as int) == v,
        final(b)@.len() == old(b)@.len(),
{
    let bytes = le_vec(v, 8);
    proof {
        lemma_u64_roundtrip(v);
    }
    write_at(b, at, bytes.as_slice());
    proof {
        assert(final(b)@.subrange(at as int, at + 8) =~= le_seq(v as nat, 8));
    }
}

/// Where a record's header keeps its two lengths, and how big it is.
pub struct Layout {
    pub header: nat,
    pub a_off: nat,
    pub b_off: nat,
}

/// The layout of a property record: a header of two 8-byte lengths (name,
/// value), then the name's bytes, then the value.
pub open spec fn prop_layout() -> Layout {
    Layout { header: 16, a_off: 0, b_off: 8 }
}

/// The layout of a function record with room for `n` argument slots: the
/// return pointer, `n` slots of 8 bytes, the number of arguments, the name's
/// length and the payload's length, 8 bytes each; then the name's bytes,
/// then the payload.
pub open spec fn fn_layout(n: nat) -> Layout {
    Layout { header: 32 + 8 * n, a_off: 16 + 8 * n, b_off: 24 + 8 * n }
}

/// `c` rounded up to a multiple of 8.
pub open spec fn align8(c: int) -> int {
    if c % 8 == 0 { c } else { c + 8 - c % 8 }
}

/// Whether a readable record starts at the aligned position `c`: its
/// header fits, its first length is not zero and its payload fits.
pub open spec fn record_at(b: Seq<u8>, l: Layout, c: int) -> bool {
    &&& l.header > 0
    &&& 0 <= c
    &&& c + l.header <= b.len()
    &&& u64_at(b, c + l.a_off) != 0
    &&& c + l.header + u64_at(b, c + l.a_off) + u64_at(b, c + l.b_off) <= b.len()
}

/// Where the record at `c` ends.
pub open spec fn record_end(b: Seq<u8>, l: Layout, c: int) -> int {
    c + l.header + u64_at(b, c + l.a_off) + u64_at(b, c + l.b_off)
}

/// The positions of the records a walk from `cursor` visits: each starts
/// at the next multiple of 8, and the walk stops at the first place where
/// no readable record starts.
pub open spec fn records_from(b: Seq<u8>, l: Layout, cursor: int) -> Seq<int>
    decreases (if 0 <= cursor < b.len() { b.len() - cursor } else { 0 }),
{
    let c = align8(cursor);
    if 0 <= cursor && record_at(b, l, c) {
        seq![c] + records_from(b, l, record_end(b, l, c))
    } else {
        Seq::empty()
    }
}

/// Where a walk from `cursor` stops: the multiple of 8 after the last
/// record it visits.
pub open spec fn walk_end(b: Seq<u8>, l: Layout, cursor: int) -> int
    decreases (if 0 <= cursor < b.len() { b.len() - cursor } else { 0 }),
{
    let c = align8(cursor);
    if 0 <= cursor && record_at(b, l, c) {
        walk_end(b, l, record_end(b, l, c))
    } else {
        c
    }
}

/// The layout's sizes, as a program holds them.
pub struct LayoutSizes {
    pub header: usize,
    pub a_off: usize,
    pub b_off: usize,
}

impl LayoutSizes {
    /// The layout these sizes stand for.
    pub open spec fn view(&self) -> Layout {
        Layout { header: self.header as nat, a_off: self.a_off as nat, b_off: self.b_off as nat }
    }

    /// The lengths lie within the header.
    pub open spec fn sound(&self) -> bool {
        &&& self.header > 0
        &&& self.a_off + 8 <= self.header
        &&& self.b_off + 8 <= self.header
    }
}

/// Steps a walk (see `records_from`): the record at the next multiple of
/// 8 from `cursor`, with its two lengths, or where the walk stops.
pub(crate) fn next_record(b: &Vec<u8>, l: &LayoutSizes, cursor: usize) -> (r: Result<(usize, usize, usize), usize>)
    requires
        l.sound(),
        cursor <= b@.len(),
        b@.len() + 8 <= usize::MAX,
    ensures
        match r {
            Ok((c, x, y)) => {
                &&& c == align8(cursor as int)
                &&& record_at(b@, l.view(), c as int)
                &&& x == u64_at(b@, c + l.a_off)
                &&& y == u64_at(b@, c + l.b_off)
                &&& records_from(b@, l.view(), cursor as int) == seq![c as int] + records_from(b@, l.view(), record_end(b@, l.view(), c as int))
                &&& walk_end(b@, l.view(), cursor as int) == walk_end(b@, l.view(), record_end(b@, l.view(), c as int))
                &&& record_end(b@, l.view(), c as int) == c + l.header + x + y
            },
            Err(e) => {
                &&& records_from(b@, l.view(), cursor as int) == Seq::<int>::empty()
                &&& walk_end(b@, l.view(), cursor as int) == e as int
                &&& e == align8(cursor as int)
            },
        },
{
    let n = b.len();
    let rem = cursor % 8;
    let c128: u128 = if rem != 0 { cursor as u128 + 8 - rem as u128 } else { cursor as u128 };
    proof {
        assert(c128 == align8(cursor as int));
    }
    if c128 + l.header as u128 > n as u128 {
        return Err(c128 as usize);
    }
    let c = c128 as usize;
    let x = read_u64(b, c + l.a_off);
    let y = read_u64(b, c + l.b_off);
    if x == 0 || c as u128 + l.header as u128 + x as u128 + y as u128 > n as u128 {
        return Err(c);
    }
    Ok((c, x as usize, y as usize))
}

/// The name bytes of the record at `c`.
pub open spec fn name_at(b: Seq<u8>, l: Layout, c: int) -> Seq<u8> {
    b.subrange(c + l.header, c + l.header + u64_at(b, c + l.a_off))
}

/// The payload of the record at `c` (a property's value, a function's
/// argument bytes).
pub open spec fn payload_at(b: Seq<u8>, l: Layout, c: int) -> Seq<u8> {
    b.subrange(c + l.header + u64_at(b, c + l.a_off), record_end(b, l, c))
}

/// The index, among the positions `ps`, of the first record named `name`.
pub open spec fn first_named(b: Seq<u8>, l: Layout, ps: Seq<int>, name: Seq<u8>) -> Option<int>
    decreases ps.len(),
{
    if ps.len() == 0 {
        None
    } else if name_at(b, l, ps[0]) == name {
        Some(0)
    } else {
        match first_named(b, l, ps.drop_first(), name) {
            Some(i) => Some(i + 1),
            None => None,
        }
    }
}

/// The position of the first record named `name` a walk from the start
/// visits, if any.
pub open spec fn named_record(b: Seq<u8>, l: Layout, name: Seq<u8>) -> Option<int> {
    let ps = records_from(b, l, 0);
    match first_named(b, l, ps, name) {
        Some(i) => Some(ps[i]),
        None => None,
    }
}

/// `first_named` on `prefix + rest` when no record of `prefix` has the
/// name.
proof fn lemma_first_named_skip(b: Seq<u8>, l: Layout, prefix: Seq<int>, rest: Seq<int>, name: Seq<u8>)
    requires
        forall|k: int| 0 <= k < prefix.len() ==> name_at(b, l, prefix[k]) != name,
    ensures
        first_named(b, l, prefix + rest, name) == match first_named(b, l, rest, name) {
            Some(i) => Some(i + prefix.len()),
            None => None::<int>,
        },
    decreases prefix.len(),
{
    if prefix.len() > 0 {
        assert((prefix + rest).drop_first() =~= prefix.drop_first() + rest);
        assert((prefix + rest)[0] == prefix[0]);
        lemma_first_named_skip(b, l, prefix.drop_first(), rest, name);
    } else {
        assert(prefix + rest =~= rest);
    }
}

/// Whether the bytes of `b` from `at` are those of `t`.
fn bytes_match(b: &Vec<u8>, at: usize, t: &Vec<u8>) -> (r: bool)
    requires
        at + t@.len() <= b@.len(),
    ensures
        r == (b@.subrange(at as int, at + t@.len()) == t@),
{
    let n = t.len();
    let blen = b.len();
    let mut k: usize = 0;
    while k < n
        invariant
            k <= n,
            n == t@.len(),
            blen == b@.len(),
            at + n <= b@.len(),
            forall|j: int| 0 <= j < k ==> b@[at + j] == t@[j],
        decreases n - k,
    {
        if b[at + k] != t[k] {
            proof {
                assert(b@.subrange(at as int, at + n)[k as int] != t@[k as int]);
            }
            return false;
        }
        k = k + 1;
    }
    proof {
        assert(b@.subrange(at as int, at + n) =~= t@);
    }
    true
}

/// A copy of the bytes of `b` from `from` to `to`.
pub(crate) fn copy_range(b: &Vec<u8>, from: usize, to: usize) -> (r: Vec<u8>)
    requires
        from <= to <= b@.len(),
    ensures
        r@ == b@.subrange(from as int, to as int),
{
    let mut out: Vec<u8> = Vec::new();
    let mut k: usize = from;
    while k < to
        invariant
            from <= k <= to,
            to <= b@.len(),
            out@ == b@.subrange(from as int, k as int),
        decreases to - k,
    {
        out.push(b[k]);
        proof {
            assert(out@ =~= b@.subrange(from as int, k + 1));
        }
        k = k + 1;
    }
    out
}

/// Finds the first record named `name` (see `named_record`): its
/// position and its two lengths.
fn find_named(b: &Vec<u8>, l: &LayoutSizes, name: &Vec<u8>) -> (r: Option<(usize, usize, usize)>)
    requires
        l.sound(),
        b@.len() + 8 <= usize::MAX,
    ensures
        match named_record(b@, l.view(), name@) {
            Some(c) => r matches Some((p, x, y)) && p == c && record_at(b@, l.view(), c)
                && x == u64_at(b@, c + l.a_off) && y == u64_at(b@, c + l.b_off),
            None => r is None,
        },
{
    let ghost lv = l.view();
    let ghost all = records_from(b@, lv, 0);
    let ghost mut visited: Seq<int> = Seq::empty();
    let mut cursor: usize = 0;
    proof {
        assert(all =~= visited + records_from(b@, lv, 0));
    }
    loop
        invariant
            l.sound(),
            lv == l.view(),
            b@.len() + 8 <= usize::MAX,
            cursor <= b@.len(),
            all == records_from(b@, lv, 0),
            all == visited + records_from(b@, lv, cursor as int),
            forall|k: int| 0 <= k < visited.len() ==> name_at(b@, lv, visited[k]) != name@,
            forall|k: int| 0 <= k < visited.len() ==> record_at(b@, lv, #[trigger] visited[k]),
        decreases b@.len() - cursor,
    {
        match next_record(b, l, cursor) {
            Err(_) => {
                proof {
                    assert(all =~= visited);
                    lemma_first_named_skip(b@, lv, visited, Seq::empty(), name@);
                    assert(visited + Seq::<int>::empty() =~= visited);
                }
                return None;
            },
            Ok((c, x, y)) => {
                let start = c + l.header;
                let ghost rest = records_from(b@, lv, record_end(b@, lv, c as int));
                if x == name.len() && bytes_match(b, start, name) {
                    proof {
                        assert(name_at(b@, lv, c as int) == name@);
                        lemma_first_named_skip(b@, lv, visited, seq![c as int] + rest, name@);
                        assert(visited + (seq![c as int] + rest) =~= all);
                        assert(first_named(b@, lv, seq![c as int] + rest, name@) == Some(0int));
                    }
                    return Some((c, x, y));
                }
                proof {
                    assert(name_at(b@, lv, c as int) != name@);
                    visited = visited.push(c as int);
                    assert(all =~= visited + rest);
                }
                cursor = c + l.header + x + y;
            },
        }
    }
}

/// Where a walk from the start stops (see `walk_end`).
fn end_of_records(b: &Vec<u8>, l: &LayoutSizes) -> (r: usize)
    requires
        l.sound(),
        b@.len() + 8 <= usize::MAX,
    ensures
        r == walk_end(b@, l.view(), 0),
{
    let mut cursor: usize = 0;
    loop
        invariant
            l.sound(),
            b@.len() + 8 <= usize::MAX,
            cursor <= b@.len(),
            walk_end(b@, l.view(), 0) == walk_end(b@, l.view(), cursor as int),
        decreases b@.len() - cursor,
    {
        match next_record(b, l, cursor) {
            Err(e) => {
                return e;
            },
            Ok((c, x, y)) => {
                cursor = c + l.header + x + y;
            },
        }
    }
}

/// Sets the bytes of `b` from `from` to `to` to zero.
fn zero_range(b: &mut Vec<u8>, from: usize, to: usize)
    requires
        from <= to <= old(b)@.len(),
    ensures
        final(b)@ == old(b)@.subrange(0, from as int) + Seq::new((to - from) as nat, |i: int| 0u8)
            + old(b)@.subrange(to as int, old(b)@.len() as int),
{
    let mut k: usize = from;
    let blen = b.len();
    while k < to
        invariant
            from <= k <= to,
            to <= old(b)@.len(),
            blen == b@.len(),
            b@.len() == old(b)@.len(),
            b@ == old(b)@.subrange(0, from as int) + Seq::new((k - from) as nat, |i: int| 0u8)
                + old(b)@.subrange(k as int, old(b)@.len() as int),
        decreases to - k,
    {
        b.set(k, 0);
        proof {
            assert(b@ =~= old(b)@.subrange(0, from as int) + Seq::new((k + 1 - from) as nat, |i: int| 0u8)
                + old(b)@.subrange(k + 1, old(b)@.len() as int));
        }
        k = k + 1;
    }
}

/// Whether a scan from `cursor` finds a record after an empty slot: the
/// scan moves past an empty header by the header's size and past a record
/// by its whole size. `found_empty` says an empty slot came earlier.
pub open spec fn gap_from(b: Seq<u8>, l: Layout, cursor: int, found_empty: bool) -> bool
    decreases (if 0 <= cursor <= b.len() { b.len() + 1 - cursor } else { 0 }),
{
    if l.header == 0 || !(0 <= cursor && cursor + l.header <= b.len()) {
        false
    } else {
        let c = align8(cursor);
        if c + l.header > b.len() {
            false
        } else if u64_at(b, c + l.a_off) == 0 {
            gap_from(b, l, c + l.header, true)
        } else if found_empty {
            true
        } else {
            gap_from(b, l, record_end(b, l, c), false)
        }
    }
}

/// The rebuilt buffer of a compaction that reads from `read` and writes
/// from `write` into `tmp`: an empty header is passed by the header's
/// size; a record moves to the next multiple of 8 at the write position,
/// where of its header only the first byte is carried over and its payload
/// follows. The scan stops where a record's bytes run past the buffer.
pub open spec fn compact_from(b: Seq<u8>, l: Layout, read: int, write: int, tmp: Seq<u8>) -> Seq<u8>
    decreases (if 0 <= read <= b.len() { b.len() + 1 - read } else { 0 }),
{
    if l.header == 0 || !(0 <= read && read + l.header <= b.len()) {
        tmp
    } else {
        let r = align8(read);
        if r + l.header > b.len() {
            tmp
        } else if u64_at(b, r + l.a_off) == 0 {
            compact_from(b, l, r + l.header, write, tmp)
        } else {
            let w = align8(write);
            let size = record_end(b, l, r) - r;
            if r + size > b.len() || !(0 <= w && w + size <= tmp.len()) {
                tmp
            } else {
                let t2 = tmp.update(w, b[r]);
                let t3 = t2.subrange(0, w + l.header) + b.subrange(r + l.header, r + size) + t2.subrange(w + size, t2.len() as int);
                compact_from(b, l, r + size, w + size, t3)
            }
        }
    }
}

/// What compaction makes of a buffer: when a record follows an empty slot,
/// the buffer rebuilt from zeros (see `compact_from`); otherwise the buffer
/// itself.
pub open spec fn compacted(b: Seq<u8>, l: Layout) -> Seq<u8> {
    if gap_from(b, l, 0, false) {
        compact_from(b, l, 0, 0, Seq::new(b.len(), |i: int| 0u8))
    } else {
        b
    }
}

/// Whether a scan finds a record after an empty slot (see `gap_from`).
fn has_gap(b: &Vec<u8>, l: &LayoutSizes) -> (r: bool)
    requires
        l.sound(),
        b@.len() + 8 <= usize::MAX,
    ensures
        r == gap_from(b@, l.view(), 0, false),
{
    let n = b.len();
    let mut cursor: usize = 0;
    let mut found_empty = false;
    loop
        invariant
            l.sound(),
            n == b@.len(),
            n + 8 <= usize::MAX,
            cursor <= n,
            gap_from(b@, l.view(), 0, false) == gap_from(b@, l.view(), cursor as int, found_empty),
        decreases n + 1 - cursor,
    {
        if cursor > n || l.header > n - cursor {
            return false;
        }
        let rem = cursor % 8;
        let c: usize = if rem != 0 { cursor + 8 - rem } else { cursor };
        if c > n || l.header > n - c {
            return false;
        }
        let x = read_u64(b, c + l.a_off);
        if x == 0 {
            found_empty = true;
            cursor = c + l.header;
        } else if found_empty {
            return true;
        } else {
            let y = read_u64(b, c + l.b_off);
            let end: u128 = c as u128 + l.header as u128 + x as u128 + y as u128;
            if end > n as u128 {
                proof {
                    assert(gap_from(b@, l.view(), end as int, false) == false);
                }
                return false;
            }
            cursor = end as usize;
        }
    }
}

/// Rebuilds the buffer without gaps (see `compacted`).
#[verifier::spinoff_prover]
#[verifier::rlimit(40)]
fn compact(b: &mut Vec<u8>, l: &LayoutSizes)
    requires
        l.sound(),
        old(b)@.len() + 8 <= usize::MAX,
    ensures
        final(b)@ == compacted(old(b)@, l.view()),
        final(b)@.len() == old(b)@.len(),
{
    if !has_gap(b, l) {
        return;
    }
    let n = b.len();
    let mut tmp: Vec<u8> = Vec::new();
    let mut k: usize = 0;
    while k < n
        invariant
            k <= n,
            n == b@.len(),
            tmp@ == Seq::new(k as nat, |i: int| 0u8),
        decreases n - k,
    {
        tmp.push(0);
        proof {
            assert(tmp@ =~= Seq::new((k + 1) as nat, |i: int| 0u8));
        }
        k = k + 1;
    }
    let ghost lv = l.view();
    let ghost zeros = tmp@;
    let mut read: usize = 0;
    let mut write: usize = 0;
    loop
        invariant
            l.sound(),
            lv == l.view(),
            n == b@.len(),
            n + 8 <= usize::MAX,
            tmp@.len() == n,
            read <= n,
            write <= n,
            compact_from(b@, lv, 0, 0, zeros) == compact_from(b@, lv, read as int, write as int, tmp@),
        ensures
            compact_from(b@, lv, read as int, write as int, tmp@) == tmp@,
        decreases n + 1 - read,
    {
        if read > n || l.header > n - read {
            break;
        }
        let rem = read % 8;
        let r: usize = if rem != 0 { read + 8 - rem } else { read };
        if r > n || l.header > n - r {
            break;
        }
        let x = read_u64(b, r + l.a_off);
        if x == 0 {
            read = r + l.header;
        } else {
            let y = read_u64(b, r + l.b_off);
            let size: u128 = l.header as u128 + x as u128 + y as u128;
            let wrem = write % 8;
            let w: u128 = if wrem != 0 { write as u128 + 8 - wrem as u128 } else { write as u128 };
            if r as u128 + size > n as u128 || w + size > n as u128 {
                break;
            }
            let w = w as usize;
            let size = size as usize;
            let ghost t0 = tmp@;
            let first = b[r];
            tmp.set(w, first);
            let ghost t2 = tmp@;
            let payload = copy_range(b, r + l.header, r + size);
            write_at(&mut tmp, w + l.header, payload.as_slice());
            proof {
                assert(t2 == t0.update(w as int, b@[r as int]));
                assert(tmp@ =~= t2.subrange(0, w + l.header) + b@.subrange(r + l.header, r + size)
                    + t2.subrange(w + size, t2.len() as int));
            }
            read = r + size;
            write = w + size;
        }
    }
    *b = tmp;
}

/// The header of a property record as the original layout stores it: the
/// lengths of the name and of the value.
#[derive(Debug, Clone, Copy)]
pub struct FlatProperty {
    pub name_len: usize,
    pub value_len: usize,
}

/// A property: a name and a value of raw bytes.
#[derive(Debug)]
pub struct Property {
    pub name: String,
    pub value: Vec<u8>,
}

impl Property {
    /// A property with the given name and value.
    pub fn new(name: &str, value: &[u8]) -> (r: Property)
        ensures
            r.name@ == name@,
            r.value@ == value@,
    {
        Property { name: text(name), value: bytes_of(value) }
    }
}

/// The bytes of a property record.
pub open spec fn prop_record(name: Seq<u8>, value: Seq<u8>) -> Seq<u8> {
    le_seq(name.len(), 8) + le_seq(value.len(), 8) + name + value
}

/// `b` with the bytes from `from` to `to` set to zero.
pub open spec fn zeroed(b: Seq<u8>, from: int, to: int) -> Seq<u8> {
    b.subrange(0, from) + Seq::new((to - from) as nat, |i: int| 0u8) + b.subrange(to, b.len() as int)
}

/// `b` with the bytes of `s` written from `at`.
pub open spec fn written(b: Seq<u8>, at: int, s: Seq<u8>) -> Seq<u8> {
    b.subrange(0, at) + s + b.subrange(at + s.len(), b.len() as int)
}

/// The sizes of a property record's layout.
pub(crate) fn prop_sizes() -> (r: LayoutSizes)
    ensures
        r.view() == prop_layout(),
        r.sound(),
{
    LayoutSizes { header: 16, a_off: 0, b_off: 8 }
}

/// The execution context of a worker: its properties and its functions,
/// each kept as records in a buffer of fixed size (`PROPERTY_COUNT` and
/// `FUNCTION_COUNT` bytes); a function record has room for
/// `FUNCTION_ARGS_COUNT` arguments.
pub struct WorkerContext<const PROPERTY_COUNT: usize, const FUNCTION_COUNT: usize, const FUNCTION_ARGS_COUNT: usize> {
    pub properties: Vec<u8>,
    pub functions: Vec<u8>,
}

impl<const PROPERTY_COUNT: usize, const FUNCTION_COUNT: usize, const FUNCTION_ARGS_COUNT: usize>
    WorkerContext<PROPERTY_COUNT, FUNCTION_COUNT, FUNCTION_ARGS_COUNT> {
    /// The buffers have their sizes, which leave room for a walk's
    /// rounding, and a function header fits in memory.
    pub open spec fn wf(&self) -> bool {
        &&& self.properties@.len() == PROPERTY_COUNT
        &&& self.functions@.len() == FUNCTION_COUNT
        &&& PROPERTY_COUNT + 8 <= usize::MAX
        &&& FUNCTION_COUNT + 8 <= usize::MAX
        &&& 32 + 8 * FUNCTION_ARGS_COUNT <= usize::MAX
    }

    /// A context with both buffers zeroed.
    pub fn new() -> (r: Self)
        requires
            PROPERTY_COUNT + 8 <= usize::MAX,
            FUNCTION_COUNT + 8 <= usize::MAX,
            32 + 8 * FUNCTION_ARGS_COUNT <= usize::MAX,
        ensures
            r.wf(),
            r.properties@ == Seq::new(PROPERTY_COUNT as nat, |i: int| 0u8),
            r.functions@ == Seq::new(FUNCTION_COUNT as nat, |i: int| 0u8),
    {
        WorkerContext { properties: zeros(PROPERTY_COUNT), functions: zeros(FUNCTION_COUNT) }
    }

    /// Removes the gaps deleted properties leave (see `compacted`).
    pub fn compact_properties(&mut self)
        requires
            old(self).wf(),
        ensures
            final(self).wf(),
            final(self).properties@ == compacted(old(self).properties@, prop_layout()),
            final(self).functions == old(self).functions,
    {
        let l = prop_sizes();
        compact(&mut self.properties, &l);
    }

    /// Adds a property: its record goes at the end of the records a walk
    /// from the start visits, if it fits in the buffer.
    pub fn add_property(&mut self, property: Property) -> (r: Result<(), &'static str>)
        requires
            old(self).wf(),
        ensures
            final(self).wf(),
            final(self).functions == old(self).functions,
            ({
                let e = walk_end(old(self).properties@, prop_layout(), 0);
                let rec = prop_record(utf8(property.name@), property.value@);
                if e + rec.len() <= PROPERTY_COUNT {
                    r is Ok && final(self).properties@ == written(old(self).properties@, e, rec)
                } else {
                    r matches Err(m) && m@ == "Not enough memory in properties buffer"@
                        && final(self).properties@ == old(self).properties@
                }
            }),
    {
        let l = prop_sizes();
        let e = end_of_records(&self.properties, &l);
        let name = str_bytes(property.name.as_str());
        let nl = name.len();
        let vl = property.value.len();
        let total: u128 = 16 + nl as u128 + vl as u128;
        proof {
            lemma_le_seq_len(nl as nat, 8);
            lemma_le_seq_len(vl as nat, 8);
            assert(prop_record(name@, property.value@).len() == total);
        }
        if e as u128 + total > PROPERTY_COUNT as u128 {
            return Err("Not enough memory in properties buffer");
        }
        let ghost b0 = self.properties@;
        write_u64(&mut self.properties, e, nl as u64);
        write_u64(&mut self.properties, e + 8, vl as u64);
        write_at(&mut self.properties, e + 16, name.as_slice());
        write_at(&mut self.properties, e + 16 + nl, property.value.as_slice());
        proof {
            assert(self.properties@ =~= written(b0, e as int, prop_record(name@, property.value@)));
        }
        Ok(())
    }

    /// The first property named `target_name` a walk from the start
    /// visits, if any (see `named_record`).
    pub fn read_property(&self, target_name: &str) -> (r: Option<Property>)
        requires
            self.wf(),
        ensures
            match named_record(self.properties@, prop_layout(), utf8(target_name@)) {
                Some(c) => r matches Some(p) && p.name@ == target_name@ && p.value@ == payload_at(self.properties@, prop_layout(), c),
                None => r is None,
            },
    {
        let l = prop_sizes();
        let name = str_bytes(target_name);
        match find_named(&self.properties, &l, &name) {
            Some((c, x, y)) => {
                let value = copy_range(&self.properties, c + 16 + x, c + 16 + x + y);
                Some(Property { name: text(target_name), value })
            },
            None => None,
        }
    }

    /// Overwrites the value of the first property named `target_name`;
    /// the new value must have the old one's length.
    pub fn update_value_property(&mut self, target_name: &str, value: &[u8]) -> (r: Result<bool, &'static str>)
        requires
            old(self).wf(),
        ensures
            final(self).wf(),
            final(self).functions == old(self).functions,
            match named_record(old(self).properties@, prop_layout(), utf8(target_name@)) {
                Some(c) => if u64_at(old(self).properties@, c + 8) == value@.len() {
                    r == Ok::<bool, &'static str>(true) && final(self).properties@ == written(
                        old(self).properties@,
                        c + 16 + u64_at(old(self).properties@, c),
                        value@,
                    )
                } else {
                    r matches Err(m) && m@ == "Length of new property value not equal old length!"@
                        && final(self).properties@ == old(self).properties@
                },
                None => r == Ok::<bool, &'static str>(false) && final(self).properties@ == old(self).properties@,
            },
    {
        let l = prop_sizes();
        let name = str_bytes(target_name);
        match find_named(&self.properties, &l, &name) {
            Some((c, x, y)) => {
                if y != value.len() {
                    return Err("Length of new property value not equal old length!");
                }
                write_at(&mut self.properties, c + 16 + x, value);
                Ok(true)
            },
            None => Ok(false),
        }
    }

    /// Deletes the first property named `name`: its record is zeroed and
    /// the buffer compacted (see `compacted`).
    pub fn delete_property(&mut self, name: &str) -> (r: bool)
        requires
            old(self).wf(),
        ensures
            final(self).wf(),
            final(self).functions == old(self).functions,
            match named_record(old(self).properties@, prop_layout(), utf8(name@)) {
                Some(c) => r && final(self).properties@ == compacted(
                    zeroed(old(self).properties@, c, record_end(old(self).properties@, prop_layout(), c)),
                    prop_layout(),
                ),
                None => !r && final(self).properties@ == old(self).properties@,
            },
    {
        let l = prop_sizes();
        let target = str_bytes(name);
        match find_named(&self.properties, &l, &target) {
            Some((c, x, y)) => {
                zero_range(&mut self.properties, c, c + 16 + x + y);
                self.compact_properties();
                true
            },
            None => false,
        }
    }
}

/// A copy of a byte slice.
fn bytes_of(s: &[u8]) -> (r: Vec<u8>)
    ensures
        r@ == s@,
{
    let mut out: Vec<u8> = Vec::new();
    let n = s.len();
    let mut k: usize = 0;
    while k < n
        invariant
            k <= n,
            n == s@.len(),
            out@ == s@.subrange(0, k as int),
        decreases n - k,
    {
        out.push(s[k]);
        proof {
            assert(out@ =~= s@.subrange(0, k + 1));
        }
        k = k + 1;
    }
    proof {
        assert(s@.subrange(0, n as int) =~= s@);
    }
    out
}

/// A buffer of `n` zero bytes.
fn zeros(n: usize) -> (r: Vec<u8>)
    ensures
        r@ == Seq::new(n as nat, |i: int| 0u8),
{
    let mut out: Vec<u8> = Vec::new();
    let mut k: usize = 0;
    while k < n
        invariant
            k <= n,
            out@ == Seq::new(k as nat, |i: int| 0u8),
        decreases n - k,
    {
        out.push(0);
        proof {
            assert(out@ =~= Seq::new((k + 1) as nat, |i: int| 0u8));
        }
        k = k + 1;
    }
    out
}

/// An argument's place in a function's payload: its offset and length.
#[derive(Debug, Clone, Copy)]
pub struct ArgSlice {
    pub offset: u32,
    pub len: u32,
}

/// The header of a function record as the original layout stores it.
#[derive(Debug)]
pub struct FlatFunctionSig {
    pub ret_ptr: usize,
    pub args_meta: Vec<ArgSlice>,
    pub args_count: usize,
    pub name_len: usize,
    pub args_payload_len: usize,
}

/// A stored function as read back: its name, return pointer, argument
/// slots, number of arguments and argument bytes.
#[derive(Debug)]
pub struct FunctionSig {
    pub name: String,
    pub ret_ptr: usize,
    pub args_meta: Vec<ArgSlice>,
    pub args_count: usize,
    pub args_payload: Vec<u8>,
}

/// A function to store: its name, return pointer and arguments.
#[derive(Debug)]
pub struct NewFunction {
    pub name: String,
    pub ret_ptr: usize,
    pub args: Vec<Vec<u8>>,
}

impl FunctionSig {
    /// The bytes of argument `index`, when it is one of the arguments.
    pub fn get_arg(&self, index: usize) -> (r: Option<Vec<u8>>)
        requires
            index < self.args_count ==> index < self.args_meta@.len()
                && self.args_meta@[index as int].offset + self.args_meta@[index as int].len <= self.args_payload@.len(),
        ensures
            index >= self.args_count ==> r is None,
            index < self.args_count ==> (r matches Some(v) && v@ == self.args_payload@.subrange(
                self.args_meta@[index as int].offset as int,
                self.args_meta@[index as int].offset + self.args_meta@[index as int].len,
            )),
    {
        if index >= self.args_count {
            return None;
        }
        let meta = self.args_meta[index];
        let plen = self.args_payload.len();
        let start = meta.offset as usize;
        let end = start + meta.len as usize;
        Some(copy_range(&self.args_payload, start, end))
    }
}

/// The bytes of argument slots, 4 bytes of offset then 4 of length each.
pub open spec fn meta_bytes(metas: Seq<(u32, u32)>) -> Seq<u8>
    decreases metas.len(),
{
    if metas.len() == 0 {
        Seq::empty()
    } else {
        meta_bytes(metas.drop_last()) + le_seq(metas.last().0 as nat, 4) + le_seq(metas.last().1 as nat, 4)
    }
}

/// The total length of the arguments.
pub open spec fn sum_lens(args: Seq<Seq<u8>>) -> nat
    decreases args.len(),
{
    if args.len() == 0 { 0 } else { sum_lens(args.drop_last()) + args.last().len() }
}

/// The arguments one after another.
pub open spec fn concat_all(args: Seq<Seq<u8>>) -> Seq<u8>
    decreases args.len(),
{
    if args.len() == 0 { Seq::empty() } else { concat_all(args.drop_last()) + args.last() }
}

/// The `slots` argument slots of a new function: the offset and length of
/// each argument (their low 32 bits), then empty slots.
pub open spec fn arg_metas(args: Seq<Seq<u8>>, slots: nat) -> Seq<(u32, u32)> {
    Seq::new(slots, |i: int| if i < args.len() {
        ((sum_lens(args.take(i)) % 0x1_0000_0000) as u32, (args[i].len() % 0x1_0000_0000) as u32)
    } else {
        (0u32, 0u32)
    })
}

/// The bytes of a function record.
pub open spec fn fn_record(ret: nat, metas: Seq<(u32, u32)>, argc: nat, name: Seq<u8>, payload: Seq<u8>) -> Seq<u8> {
    le_seq(ret, 8) + meta_bytes(metas) + le_seq(argc, 8) + le_seq(name.len(), 8) + le_seq(payload.len(), 8) + name + payload
}

/// The argument slots of the function record at `c`.
pub open spec fn metas_at(b: Seq<u8>, slots: nat, c: int) -> Seq<(u32, u32)> {
    Seq::new(slots, |i: int| (le_value(b, c + 8 + 8 * i), le_value(b, c + 12 + 8 * i)))
}

/// `sig` is what the function record at `c` holds (all but its name).
pub open spec fn sig_at(b: Seq<u8>, slots: nat, c: int, sig: FunctionSig) -> bool {
    let l = fn_layout(slots);
    &&& sig.ret_ptr == u64_at(b, c) as usize
    &&& sig.args_meta@.map_values(|m: ArgSlice| (m.offset, m.len)) == metas_at(b, slots, c)
    &&& sig.args_count == u64_at(b, c + 8 + 8 * slots) as usize
    &&& sig.args_payload@ == payload_at(b, l, c)
}

/// The text `String::from_utf8_lossy` makes of bytes: each maximal
/// invalid UTF-8 sequence replaced by U+FFFD, as std documents it.
pub uninterp spec fn lossy_text(bytes: Seq<u8>) -> Seq<char>;

/// The text of bytes (`String::from_utf8_lossy`, then an owned `String`):
/// the result is `lossy_text` of the bytes, and for valid UTF-8 it is the
/// text they encode.
#[verifier::external_body]
pub(crate) fn string_from_utf8(b: &[u8]) -> (r: String)
    ensures
        r@ == lossy_text(b@),
        (exists|s: Seq<char>| utf8(s) == b@) ==> utf8(r@) == b@,
{
    String::from_utf8_lossy(b).to_string()
}

/// Reads the function record at `c` (see `sig_at`).
pub(crate) fn read_sig(b: &Vec<u8>, slots: usize, c: usize, x: usize, y: usize, name: String) -> (r: FunctionSig)
    requires
        32 + 8 * slots <= usize::MAX,
        record_at(b@, fn_layout(slots as nat), c as int),
        x == u64_at(b@, c + 16 + 8 * slots),
        y == u64_at(b@, c + 24 + 8 * slots),
    ensures
        sig_at(b@, slots as nat, c as int, r),
        r.name == name,
{
    let h = 32 + 8 * slots;
    let blen = b.len();
    let ret = read_u64(b, c);
    let mut metas: Vec<ArgSlice> = Vec::new();
    let mut i: usize = 0;
    while i < slots
        invariant
            i <= slots,
            32 + 8 * slots <= usize::MAX,
            blen == b@.len(),
            c + 32 + 8 * slots <= b@.len(),
            record_at(b@, fn_layout(slots as nat), c as int),
            metas@.map_values(|m: ArgSlice| (m.offset, m.len)) == metas_at(b@, slots as nat, c as int).take(i as int),
        decreases slots - i,
    {
        let offset = u32_from_le(b, c + 8 + 8 * i);
        let len = u32_from_le(b, c + 12 + 8 * i);
        let ghost before = metas@.map_values(|m: ArgSlice| (m.offset, m.len));
        metas.push(ArgSlice { offset, len });
        proof {
            assert(metas@.map_values(|m: ArgSlice| (m.offset, m.len)) =~= before.push((offset, len)));
            assert(metas_at(b@, slots as nat, c as int).take(i + 1) =~= metas_at(b@, slots as nat, c as int).take(i as int).push((offset, len)));
        }
        i = i + 1;
    }
    proof {
        assert(metas_at(b@, slots as nat, c as int).take(slots as int) =~= metas_at(b@, slots as nat, c as int));
    }
    let argc = read_u64(b, c + 8 + 8 * slots);
    let payload = copy_range(b, c + h + x, c + h + x + y);
    FunctionSig { name, ret_ptr: ret as usize, args_meta: metas, args_count: argc as usize, args_payload: payload }
}

/// Builds the bytes of a new function's record (see `fn_record`).
fn build_fn_record(func: &NewFunction, slots: usize, name: &Vec<u8>) -> (r: Vec<u8>)
    requires
        func.args@.len() <= slots,
        32 + 8 * slots <= usize::MAX,
    ensures
        ({
            let args = func.args@.map_values(|a: Vec<u8>| a@);
            r@ == fn_record(func.ret_ptr as nat, arg_metas(args, slots as nat), args.len(), name@, concat_all(args))
        }),
{
    let ghost args = func.args@.map_values(|a: Vec<u8>| a@);
    let n = func.args.len();
    let mut rec: Vec<u8> = Vec::new();
    push_le(&mut rec, func.ret_ptr as u64, 8);
    let ghost head = rec@;
    let mut offset: u128 = 0;
    let mut i: usize = 0;
    while i < slots
        invariant
            i <= slots,
            n == args.len(),
            n <= slots,
            32 + 8 * slots <= usize::MAX,
            args == func.args@.map_values(|a: Vec<u8>| a@),
            rec@ == head + meta_bytes(arg_metas(args, slots as nat).take(i as int)),
            i <= n ==> offset == sum_lens(args.take(i as int)),
            offset <= i * 0x1_0000_0000_0000_0000,
        decreases slots - i,
    {
        let (o, l): (u32, u32) = if i < n {
            let len = func.args[i].len();
            ((offset % 0x1_0000_0000) as u32, (len as u128 % 0x1_0000_0000) as u32)
        } else {
            (0, 0)
        };
        push_le(&mut rec, o as u64, 4);
        push_le(&mut rec, l as u64, 4);
        proof {
            let m = arg_metas(args, slots as nat);
            assert(m.take(i + 1).drop_last() =~= m.take(i as int));
            assert(m.take(i + 1).last() == (o, l));
            assert(rec@ =~= head + meta_bytes(m.take(i + 1)));
        }
        if i < n {
            let len = func.args[i].len();
            proof {
                assert(args.take(i + 1).drop_last() =~= args.take(i as int));
                assert(sum_lens(args.take(i + 1)) == sum_lens(args.take(i as int)) + args[i as int].len());
                assert(offset + len <= (i + 1) * 0x1_0000_0000_0000_0000) by (nonlinear_arith)
                    requires
                        offset <= i * 0x1_0000_0000_0000_0000,
                        len < 0x1_0000_0000_0000_0000,
                ;
                assert((i + 1) * 0x1_0000_0000_0000_0000 <= 0x1_0000_0000_0000_0000_0000_0000_0000_0000) by (nonlinear_arith)
                    requires
                        i < 0x1_0000_0000_0000_0000,
                ;
            }
            offset = offset + len as u128;
        } else {
            proof {
                assert(offset <= (i + 1) * 0x1_0000_0000_0000_0000) by (nonlinear_arith)
                    requires
                        offset <= i * 0x1_0000_0000_0000_0000,
                ;
            }
        }
        i = i + 1;
    }
    proof {
        assert(arg_metas(args, slots as nat).take(slots as int) =~= arg_metas(args, slots as nat));
    }
    let ghost mid = rec@;
    push_le(&mut rec, n as u64, 8);
    push_le(&mut rec, name.len() as u64, 8);
    let ghost hdr2 = rec@;
    let mut payload: Vec<u8> = Vec::new();
    let mut k: usize = 0;
    while k < n
        invariant
            k <= n,
            n == args.len(),
            args == func.args@.map_values(|a: Vec<u8>| a@),
            payload@ == concat_all(args.take(k as int)),
        decreases n - k,
    {
        let mut piece = bytes_of(func.args[k].as_slice());
        payload.append(&mut piece);
        proof {
            assert(args.take(k + 1).drop_last() =~= args.take(k as int));
        }
        k = k + 1;
    }
    proof {
        assert(args.take(n as int) =~= args);
    }
    push_le(&mut rec, payload.len() as u64, 8);
    let mut name_copy = bytes_of(name.as_slice());
    rec.append(&mut name_copy);
    rec.append(&mut payload);
    proof {
        assert(rec@ =~= fn_record(func.ret_ptr as nat, arg_metas(args, slots as nat), args.len(), name@, concat_all(args)));
    }
    rec
}

/// The sizes of a function record's layout with `slots` argument slots.
pub(crate) fn fn_sizes(slots: usize) -> (r: LayoutSizes)
    requires
        32 + 8 * slots <= usize::MAX,
    ensures
        r.view() == fn_layout(slots as nat),
        r.sound(),
{
    LayoutSizes { header: 32 + 8 * slots, a_off: 16 + 8 * slots, b_off: 24 + 8 * slots }
}

impl<const PROPERTY_COUNT: usize, const FUNCTION_COUNT: usize, const FUNCTION_ARGS_COUNT: usize>
    WorkerContext<PROPERTY_COUNT, FUNCTION_COUNT, FUNCTION_ARGS_COUNT> {
    /// Removes the gaps deleted functions leave (see `compacted`).
    pub fn compact_functions(&mut self)
        requires
            old(self).wf(),
        ensures
            final(self).wf(),
            final(self).functions@ == compacted(old(self).functions@, fn_layout(FUNCTION_ARGS_COUNT as nat)),
            final(self).properties == old(self).properties,
    {
        let l = fn_sizes(FUNCTION_ARGS_COUNT);
        compact(&mut self.functions, &l);
    }

    /// Adds a function: at most `FUNCTION_ARGS_COUNT` arguments; its record
    /// (see `fn_record`) goes at the end of the records a walk from the
    /// start visits, if it fits in the buffer.
    #[verifier::spinoff_prover]
    #[verifier::rlimit(40)]
    pub fn add_function(&mut self, func: NewFunction) -> (r: Result<(), &'static str>)
        requires
            old(self).wf(),
        ensures
            final(self).wf(),
            final(self).properties == old(self).properties,
            func.args@.len() > FUNCTION_ARGS_COUNT ==> (r matches Err(m)
                && m@ == "Count of arguments greater then max allow (FUNCTION_ARGS_COUNT)"@
                && final(self).functions@ == old(self).functions@),
            func.args@.len() <= FUNCTION_ARGS_COUNT ==> ({
                let e = walk_end(old(self).functions@, fn_layout(FUNCTION_ARGS_COUNT as nat), 0);
                let args = func.args@.map_values(|a: Vec<u8>| a@);
                let rec = fn_record(func.ret_ptr as nat, arg_metas(args, FUNCTION_ARGS_COUNT as nat), args.len(),
                    utf8(func.name@), concat_all(args));
                if e + rec.len() <= FUNCTION_COUNT {
                    r is Ok && final(self).functions@ == written(old(self).functions@, e, rec)
                } else {
                    r matches Err(m) && m@ == "Not enough memory in buffer for write new function"@
                        && final(self).functions@ == old(self).functions@
                }
            }),
    {
        if func.args.len() > FUNCTION_ARGS_COUNT {
            return Err("Count of arguments greater then max allow (FUNCTION_ARGS_COUNT)");
        }
        let l = fn_sizes(FUNCTION_ARGS_COUNT);
        let e = end_of_records(&self.functions, &l);
        let name = str_bytes(func.name.as_str());
        let rec = build_fn_record(&func, FUNCTION_ARGS_COUNT, &name);
        if e as u128 + rec.len() as u128 > FUNCTION_COUNT as u128 {
            return Err("Not enough memory in buffer for write new function");
        }
        write_at(&mut self.functions, e, rec.as_slice());
        Ok(())
    }

    /// Every function a walk from the start visits, in order; a name is read
    /// as UTF-8 text.
    pub fn read_all_functions(&self) -> (r: Vec<FunctionSig>)
        requires
            self.wf(),
        ensures
            ({
                let ps = records_from(self.functions@, fn_layout(FUNCTION_ARGS_COUNT as nat), 0);
                &&& r@.len() == ps.len()
                &&& forall|i: int| 0 <= i < ps.len() ==> sig_at(self.functions@, FUNCTION_ARGS_COUNT as nat, ps[i], #[trigger] r@[i])
                &&& forall|i: int| 0 <= i < ps.len() ==> ((exists|s: Seq<char>| utf8(s) == name_at(self.functions@, fn_layout(FUNCTION_ARGS_COUNT as nat), ps[i]))
                    ==> utf8(#[trigger] r@[i].name@) == name_at(self.functions@, fn_layout(FUNCTION_ARGS_COUNT as nat), ps[i]))
            }),
    {
        let l = fn_sizes(FUNCTION_ARGS_COUNT);
        let ghost lv = l.view();
        let ghost b = self.functions@;
        let ghost all = records_from(b, lv, 0);
        let ghost mut visited: Seq<int> = Seq::empty();
        let mut out: Vec<FunctionSig> = Vec::new();
        let mut cursor: usize = 0;
        proof {
            assert(all =~= visited + records_from(b, lv, 0));
        }
        loop
            invariant
                l.sound(),
                lv == l.view(),
                lv == fn_layout(FUNCTION_ARGS_COUNT as nat),
                b == self.functions@,
                self.wf(),
                cursor <= b.len(),
                all == records_from(b, lv, 0),
                all == visited + records_from(b, lv, cursor as int),
                out@.len() == visited.len(),
                forall|i: int| 0 <= i < visited.len() ==> sig_at(b, FUNCTION_ARGS_COUNT as nat, visited[i], #[trigger] out@[i]),
                forall|i: int| 0 <= i < visited.len() ==> ((exists|s: Seq<char>| utf8(s) == name_at(b, lv, visited[i]))
                    ==> utf8(#[trigger] out@[i].name@) == name_at(b, lv, visited[i])),
            decreases b.len() - cursor,
        {
            match next_record(&self.functions, &l, cursor) {
                Err(_) => {
                    proof {
                        assert(all =~= visited);
                    }
                    return out;
                },
                Ok((c, x, y)) => {
                    let start = c + l.header;
                    let name_bytes = copy_range(&self.functions, start, start + x);
                    let name = string_from_utf8(name_bytes.as_slice());
                    let sig = read_sig(&self.functions, FUNCTION_ARGS_COUNT, c, x, y, name);
                    proof {
                        assert(name_bytes@ == name_at(b, lv, c as int));
                    }
                    out.push(sig);
                    proof {
                        let rest = records_from(b, lv, record_end(b, lv, c as int));
                        visited = visited.push(c as int);
                        assert(all =~= visited + rest);
                    }
                    cursor = c + l.header + x + y;
                },
            }
        }
    }

    /// The first function named `name` a walk from the start visits, if any
    /// (see `named_record`, `sig_at`).
    pub fn read_function(&self, name: &str) -> (r: Option<FunctionSig>)
        requires
            self.wf(),
        ensures
            match named_record(self.functions@, fn_layout(FUNCTION_ARGS_COUNT as nat), utf8(name@)) {
                Some(c) => r matches Some(sig) && sig.name@ == name@ && sig_at(self.functions@, FUNCTION_ARGS_COUNT as nat, c, sig),
                None => r is None,
            },
    {
        let l = fn_sizes(FUNCTION_ARGS_COUNT);
        let target = str_bytes(name);
        match find_named(&self.functions, &l, &target) {
            Some((c, x, y)) => Some(read_sig(&self.functions, FUNCTION_ARGS_COUNT, c, x, y, text(name))),
            None => None,
        }
    }

    /// Deletes the first function named `target_name`: its record is zeroed
    /// and the buffer compacted (see `compacted`).
    pub fn delete_function(&mut self, target_name: &str) -> (r: bool)
        requires
            old(self).wf(),
        ensures
            final(self).wf(),
            final(self).properties == old(self).properties,
            match named_record(old(self).functions@, fn_layout(FUNCTION_ARGS_COUNT as nat), utf8(target_name@)) {
                Some(c) => r && final(self).functions@ == compacted(
                    zeroed(old(self).functions@, c, record_end(old(self).functions@, fn_layout(FUNCTION_ARGS_COUNT as nat), c)),
                    fn_layout(FUNCTION_ARGS_COUNT as nat),
                ),
                None => !r && final(self).functions@ == old(self).functions@,
            },
    {
        let l = fn_sizes(FUNCTION_ARGS_COUNT);
        let target = str_bytes(target_name);
        match find_named(&self.functions, &l, &target) {
            Some((c, x, y)) => {
                zero_range(&mut self.functions, c, c + l.header + x + y);
                self.compact_functions();
                true
            },
            None => false,
        }
    }

    /// Sets the return pointer of the first function named `target_name`.
    pub fn update_function_ret_ptr(&mut self, target_name: &str, new_ptr: usize) -> (r: bool)
        requires
            old(self).wf(),
        ensures
            final(self).wf(),
            final(self).properties == old(self).properties,
            match named_record(old(self).functions@, fn_layout(FUNCTION_ARGS_COUNT as nat), utf8(target_name@)) {
                Some(c) => r && final(self).functions@ == written(old(self).functions@, c, le_seq(new_ptr as nat, 8)),
                None => !r && final(self).functions@ == old(self).functions@,
            },
    {
        let l = fn_sizes(FUNCTION_ARGS_COUNT);
        let target = str_bytes(target_name);
        match find_named(&self.functions, &l, &target) {
            Some((c, x, y)) => {
                proof {
                    lemma_le_seq_len(new_ptr as nat, 8);
                }
                write_u64(&mut self.functions, c, new_ptr as u64);
                true
            },
            None => false,
        }
    }

    /// Overwrites the argument bytes of the first function named
    /// `target_name`; the new bytes must have the old ones' length.
    pub fn update_function_args_payload(&mut self, target_name: &str, new_payload: &[u8]) -> (r: Result<bool, &'static str>)
        requires
            old(self).wf(),
        ensures
            final(self).wf(),
            final(self).properties == old(self).properties,
            ({
                let l = fn_layout(FUNCTION_ARGS_COUNT as nat);
                let b = old(self).functions@;
                match named_record(b, l, utf8(target_name@)) {
                    Some(c) => if u64_at(b, c + l.b_off) == new_payload@.len() {
                        r == Ok::<bool, &'static str>(true)
                            && final(self).functions@ == written(b, c + l.header + u64_at(b, c + l.a_off), new_payload@)
                    } else {
                        r matches Err(m) && m@ == "Length of new payload not equal old payload length!"@
                            && final(self).functions@ == b
                    },
                    None => r == Ok::<bool, &'static str>(false) && final(self).functions@ == b,
                }
            }),
    {
        let l = fn_sizes(FUNCTION_ARGS_COUNT);
        let target = str_bytes(target_name);
        match find_named(&self.functions, &l, &target) {
            Some((c, x, y)) => {
                if y != new_payload.len() {
                    return Err("Length of new payload not equal old payload length!");
                }
                write_at(&mut self.functions, c + l.header + x, new_payload);
                Ok(true)
            },
            None => Ok(false),
        }
    }
}

/// Rounding up to a multiple of 8 twice is rounding once, and does not go
/// down.
pub proof fn lemma_align8(c: int)
    requires
        c >= 0,
    ensures
        align8(align8(c)) == align8(c),
        c <= align8(c) <= c + 7,
        align8(c) % 8 == 0,
{
}

/// A walk stops no earlier than where it starts.
pub proof fn lemma_walk_end_after(b: Seq<u8>, l: Layout, cursor: int)
    requires
        cursor >= 0,
    ensures
        walk_end(b, l, cursor) >= cursor,
        walk_end(b, l, cursor) % 8 == 0,
    decreases (if 0 <= cursor < b.len() { b.len() - cursor } else { 0 }),
{
    lemma_align8(cursor);
    let c = align8(cursor);
    if record_at(b, l, c) {
        lemma_walk_end_after(b, l, record_end(b, l, c));
    }
}

/// The 8-byte number at `i` depends on those 8 bytes only.
pub proof fn lemma_u64_at_same(b: Seq<u8>, b2: Seq<u8>, i: int)
    requires
        0 <= i,
        i + 8 <= b.len(),
        i + 8 <= b2.len(),
        b.subrange(i, i + 8) == b2.subrange(i, i + 8),
    ensures
        u64_at(b, i) == u64_at(b2, i),
{
}

/// Writing past where a walk stops leaves the records before unchanged: a
/// walk over the new bytes visits them, with the same names, then goes on
/// from the stop.
pub proof fn lemma_walk_frame(b: Seq<u8>, b2: Seq<u8>, l: Layout, cursor: int)
    requires
        cursor >= 0,
        b.len() == b2.len(),
        l.a_off + 8 <= l.header,
        l.b_off + 8 <= l.header,
        walk_end(b, l, cursor) <= b.len(),
        b.subrange(0, walk_end(b, l, cursor)) == b2.subrange(0, walk_end(b, l, cursor)),
    ensures
        records_from(b2, l, cursor) == records_from(b, l, cursor) + records_from(b2, l, walk_end(b, l, cursor)),
        forall|k: int| 0 <= k < records_from(b, l, cursor).len() ==>
            name_at(b2, l, #[trigger] records_from(b, l, cursor)[k]) == name_at(b, l, records_from(b, l, cursor)[k]),
    decreases (if 0 <= cursor < b.len() { b.len() - cursor } else { 0 }),
{
    let e = walk_end(b, l, cursor);
    lemma_align8(cursor);
    let c = align8(cursor);
    if record_at(b, l, c) {
        let r = record_end(b, l, c);
        lemma_walk_end_after(b, l, r);
        assert(e == walk_end(b, l, r));
        assert(r <= e);
        assert(b.subrange(c + l.a_off, c + l.a_off + 8) =~= b.subrange(0, e).subrange(c + l.a_off, c + l.a_off + 8));
        assert(b2.subrange(c + l.a_off, c + l.a_off + 8) =~= b2.subrange(0, e).subrange(c + l.a_off, c + l.a_off + 8));
        assert(b.subrange(c + l.b_off, c + l.b_off + 8) =~= b.subrange(0, e).subrange(c + l.b_off, c + l.b_off + 8));
        assert(b2.subrange(c + l.b_off, c + l.b_off + 8) =~= b2.subrange(0, e).subrange(c + l.b_off, c + l.b_off + 8));
        lemma_u64_at_same(b, b2, c + l.a_off);
        lemma_u64_at_same(b, b2, c + l.b_off);
        assert(record_at(b2, l, c));
        assert(record_end(b2, l, c) == r);
        let nb = name_at(b, l, c);
        assert(name_at(b, l, c) =~= b.subrange(0, e).subrange(c + l.header, c + l.header + u64_at(b, c + l.a_off)));
        assert(name_at(b2, l, c) =~= b2.subrange(0, e).subrange(c + l.header, c + l.header + u64_at(b, c + l.a_off)));
        lemma_walk_frame(b, b2, l, r);
        let ps = records_from(b, l, cursor);
        assert(ps == seq![c] + records_from(b, l, r));
        assert(records_from(b2, l, cursor) =~= ps + records_from(b2, l, e));
        assert forall|k: int| 0 <= k < ps.len() implies name_at(b2, l, #[trigger] ps[k]) == name_at(b, l, ps[k]) by {
            if k > 0 {
                assert(ps[k] == records_from(b, l, r)[k - 1]);
            }
        }
    } else {
        assert(records_from(b, l, cursor) =~= Seq::<int>::empty());
        assert(e == c);
        assert(records_from(b2, l, cursor) == records_from(b2, l, c));
        assert(records_from(b2, l, cursor) =~= Seq::<int>::empty() + records_from(b2, l, e));
    }
}

/// When no record of `ps` has the name, the search finds none there.
proof fn lemma_first_named_none(b: Seq<u8>, l: Layout, ps: Seq<int>, name: Seq<u8>, k: int)
    requires
        first_named(b, l, ps, name) is None,
        0 <= k < ps.len(),
    ensures
        name_at(b, l, ps[k]) != name,
    decreases ps.len(),
{
    if k > 0 {
        lemma_first_named_none(b, l, ps.drop_first(), name, k - 1);
    }
}

/// After a property is added where a walk stops, a search for its name
/// finds it, with its value, when no property had that name and the name
/// is not empty.
pub proof fn lemma_add_then_read(b: Seq<u8>, name: Seq<u8>, value: Seq<u8>)
    requires
        name.len() > 0,
        name.len() < 0x1_0000_0000_0000_0000,
        value.len() < 0x1_0000_0000_0000_0000,
        named_record(b, prop_layout(), name) is None,
        walk_end(b, prop_layout(), 0) + prop_record(name, value).len() <= b.len(),
    ensures
        ({
            let e = walk_end(b, prop_layout(), 0);
            let b2 = written(b, e, prop_record(name, value));
            &&& named_record(b2, prop_layout(), name) == Some(e)
            &&& payload_at(b2, prop_layout(), e) == value
        }),
{
    let l = prop_layout();
    let e = walk_end(b, l, 0);
    let rec = prop_record(name, value);
    let b2 = written(b, e, rec);
    lemma_walk_end_after(b, l, 0);
    lemma_le_seq_len(name.len(), 8);
    lemma_le_seq_len(value.len(), 8);
    lemma_pow256_8();
    lemma_le_roundtrip_n(name.len(), 8);
    lemma_le_roundtrip_n(value.len(), 8);
    assert(b2.len() == b.len());
    assert(b.subrange(0, e) =~= b2.subrange(0, e));
    lemma_walk_frame(b, b2, l, 0);
    assert(b2.subrange(e, e + 8) =~= le_seq(name.len(), 8));
    assert(b2.subrange(e + 8, e + 16) =~= le_seq(value.len(), 8));
    assert(u64_at(b2, e) == name.len());
    assert(u64_at(b2, e + 8) == value.len());
    lemma_align8(e);
    assert(record_at(b2, l, e));
    assert(name_at(b2, l, e) =~= name);
    assert(payload_at(b2, l, e) =~= value);
    let ps = records_from(b, l, 0);
    let rest = records_from(b2, l, record_end(b2, l, e));
    assert(records_from(b2, l, e) == seq![e] + rest);
    assert(records_from(b2, l, 0) == ps + (seq![e] + rest));
    assert(first_named(b, l, ps, name) is None);
    assert forall|k: int| 0 <= k < ps.len() implies name_at(b2, l, ps[k]) != name by {
        lemma_first_named_none(b, l, ps, name, k);
        assert(name_at(b2, l, ps[k]) == name_at(b, l, ps[k]));
    }
    lemma_first_named_skip(b2, l, ps, seq![e] + rest, name);
    assert(first_named(b2, l, seq![e] + rest, name) == Some(0int));
    assert((ps + (seq![e] + rest))[ps.len() as int] == e);
}

} // verus!
