use vstd::prelude::*;
use crate::cesium::sdk::le_seq;
use super::context::{Layout, u64_at, le_num, align8, record_at, record_end, records_from, walk_end, name_at, payload_at,
    written, prop_layout, prop_record, fn_layout, fn_record, meta_bytes, lemma_align8, lemma_walk_end_after, lemma_walk_frame, lemma_u64_at_same,
    lemma_le_seq_len, lemma_le_roundtrip_n, lemma_pow256_8};

verus! {

/// From `e` on, every byte of `b` is zero.
pub open spec fn zero_from(b: Seq<u8>, e: int) -> bool {
    forall|j: int| e <= j < b.len() ==> b[j] == 0
}

/// The two lengths of the layout lie within its header.
pub open spec fn layout_ok(l: Layout) -> bool {
    &&& l.header > 0
    &&& l.a_off + 8 <= l.header
    &&& l.b_off + 8 <= l.header
}

/// `rec` is one whole record of layout `l`: its header, a name that is not
/// empty, and its payload, with the lengths its header gives.
pub open spec fn shaped(l: Layout, rec: Seq<u8>) -> bool {
    &&& rec.len() >= l.header
    &&& u64_at(rec, l.a_off as int) != 0
    &&& rec.len() == l.header + u64_at(rec, l.a_off as int) + u64_at(rec, l.b_off as int)
}

/// A buffer of `n` zero bytes after the records `recs` are added one by
/// one, each where a walk from the start stops; `None` once one does not
/// fit.
pub open spec fn filled(l: Layout, n: nat, recs: Seq<Seq<u8>>) -> Option<Seq<u8>>
    decreases recs.len(),
{
    if recs.len() == 0 {
        Some(Seq::new(n, |i: int| 0u8))
    } else {
        match filled(l, n, recs.drop_last()) {
            None => None,
            Some(b) => {
                let e = walk_end(b, l, 0);
                if e + recs.last().len() <= b.len() {
                    Some(written(b, e, recs.last()))
                } else {
                    None
                }
            },
        }
    }
}

/// Eight zero bytes read as zero.
proof fn lemma_le_num_zero(s: Seq<u8>)
    requires
        forall|j: int| 0 <= j < s.len() ==> s[j] == 0,
    ensures
        le_num(s) == 0,
    decreases s.len(),
{
    if s.len() > 0 {
        lemma_le_num_zero(s.drop_first());
    }
}

/// Over zero bytes no record starts: a walk from `c` stops at once.
proof fn lemma_walk_stops_on_zeros(b: Seq<u8>, l: Layout, c: int)
    requires
        layout_ok(l),
        c >= 0,
        zero_from(b, align8(c)),
    ensures
        records_from(b, l, c) == Seq::<int>::empty(),
        walk_end(b, l, c) == align8(c),
{
    let a = align8(c);
    lemma_align8(c);
    if a + l.header <= b.len() {
        lemma_le_num_zero(b.subrange(a + l.a_off, a + l.a_off + 8));
        assert(!record_at(b, l, a));
    }
}

/// Writing past where a walk stops leaves where the walk from the start
/// reaches the old stop unchanged: it goes on from there.
proof fn lemma_walk_end_frame(b: Seq<u8>, b2: Seq<u8>, l: Layout, cursor: int)
    requires
        cursor >= 0,
        b.len() == b2.len(),
        layout_ok(l),
        walk_end(b, l, cursor) <= b.len(),
        b.subrange(0, walk_end(b, l, cursor)) == b2.subrange(0, walk_end(b, l, cursor)),
    ensures
        walk_end(b2, l, cursor) == walk_end(b2, l, walk_end(b, l, cursor)),
    decreases (if 0 <= cursor < b.len() { b.len() - cursor } else { 0 }),
{
    let e = walk_end(b, l, cursor);
    lemma_align8(cursor);
    let c = align8(cursor);
    if record_at(b, l, c) {
        let r = record_end(b, l, c);
        lemma_walk_end_after(b, l, r);
        assert(b.subrange(c + l.a_off, c + l.a_off + 8) =~= b.subrange(0, e).subrange(c + l.a_off, c + l.a_off + 8));
        assert(b2.subrange(c + l.a_off, c + l.a_off + 8) =~= b2.subrange(0, e).subrange(c + l.a_off, c + l.a_off + 8));
        assert(b.subrange(c + l.b_off, c + l.b_off + 8) =~= b.subrange(0, e).subrange(c + l.b_off, c + l.b_off + 8));
        assert(b2.subrange(c + l.b_off, c + l.b_off + 8) =~= b2.subrange(0, e).subrange(c + l.b_off, c + l.b_off + 8));
        lemma_u64_at_same(b, b2, c + l.a_off);
        lemma_u64_at_same(b, b2, c + l.b_off);
        assert(record_at(b2, l, c));
        lemma_walk_end_frame(b, b2, l, r);
    } else {
        lemma_align8(c);
        assert(align8(c) == c);
    }
}

/// Adding one whole record where the walk stops, over zero bytes: the walk
/// then visits the old records, unchanged, and the new one, holding its
/// bytes; it stops after it, and zero bytes follow.
proof fn lemma_append_record(b: Seq<u8>, l: Layout, rec: Seq<u8>)
    requires
        layout_ok(l),
        shaped(l, rec),
        walk_end(b, l, 0) + rec.len() <= b.len(),
        zero_from(b, walk_end(b, l, 0)),
    ensures
        ({
            let e = walk_end(b, l, 0);
            let b2 = written(b, e, rec);
            &&& records_from(b2, l, 0) == records_from(b, l, 0).push(e)
            &&& forall|k: int| 0 <= k < records_from(b, l, 0).len() ==>
                b2.subrange(#[trigger] records_from(b, l, 0)[k], record_end(b, l, records_from(b, l, 0)[k]))
                    == b.subrange(records_from(b, l, 0)[k], record_end(b, l, records_from(b, l, 0)[k]))
            &&& b2.subrange(e, e + rec.len()) == rec
            &&& record_end(b2, l, e) == e + rec.len()
            &&& walk_end(b2, l, 0) == align8(e + rec.len())
            &&& zero_from(b2, walk_end(b2, l, 0))
            &&& b2.len() == b.len()
        }),
{
    let e = walk_end(b, l, 0);
    let b2 = written(b, e, rec);
    let n = rec.len() as int;
    lemma_walk_end_after(b, l, 0);
    assert(b2.len() == b.len());
    assert(b.subrange(0, e) =~= b2.subrange(0, e));
    lemma_walk_frame(b, b2, l, 0);
    lemma_walk_end_frame(b, b2, l, 0);
    lemma_align8(e);
    assert(align8(e) == e);
    assert(b2.subrange(e, e + n) =~= rec);
    assert(b2.subrange(e + l.a_off, e + l.a_off + 8) =~= rec.subrange(l.a_off as int, l.a_off + 8int));
    assert(b2.subrange(e + l.b_off, e + l.b_off + 8) =~= rec.subrange(l.b_off as int, l.b_off + 8int));
    assert(u64_at(b2, e + l.a_off) == u64_at(rec, l.a_off as int));
    assert(u64_at(b2, e + l.b_off) == u64_at(rec, l.b_off as int));
    assert(record_at(b2, l, e));
    assert(record_end(b2, l, e) == e + n);
    lemma_align8(e + n);
    assert forall|j: int| align8(e + n) <= j < b2.len() implies b2[j] == 0 by {
        assert(b2[j] == b[j]);
    }
    lemma_walk_stops_on_zeros(b2, l, e + n);
    assert(records_from(b2, l, e) == seq![e] + records_from(b2, l, e + n));
    assert(records_from(b2, l, e) =~= seq![e]);
    assert(records_from(b2, l, 0) =~= records_from(b, l, 0).push(e));
    let ps = records_from(b, l, 0);
    assert forall|k: int| 0 <= k < ps.len() implies
        b2.subrange(#[trigger] ps[k], record_end(b, l, ps[k])) == b.subrange(ps[k], record_end(b, l, ps[k])) by {
        lemma_record_before_stop(b, l, 0, k);
        assert(b2.subrange(ps[k], record_end(b, l, ps[k])) =~= b2.subrange(0, e).subrange(ps[k], record_end(b, l, ps[k])));
        assert(b.subrange(ps[k], record_end(b, l, ps[k])) =~= b.subrange(0, e).subrange(ps[k], record_end(b, l, ps[k])));
    }
}

/// Each record a walk visits lies before where it stops.
proof fn lemma_record_before_stop(b: Seq<u8>, l: Layout, cursor: int, k: int)
    requires
        cursor >= 0,
        layout_ok(l),
        0 <= k < records_from(b, l, cursor).len(),
    ensures
        0 <= records_from(b, l, cursor)[k],
        records_from(b, l, cursor)[k] <= record_end(b, l, records_from(b, l, cursor)[k]),
        record_end(b, l, records_from(b, l, cursor)[k]) <= walk_end(b, l, cursor),
        record_at(b, l, records_from(b, l, cursor)[k]),
    decreases (if 0 <= cursor < b.len() { b.len() - cursor } else { 0 }),
{
    lemma_align8(cursor);
    let c = align8(cursor);
    let r = record_end(b, l, c);
    lemma_walk_end_after(b, l, r);
    if k > 0 {
        lemma_record_before_stop(b, l, r, k - 1);
        assert(records_from(b, l, cursor)[k] == records_from(b, l, r)[k - 1]);
    }
}

/// A buffer filled with records keeps zero bytes after where the walk
/// stops, and the walk stops within it.
proof fn lemma_filled_tail(l: Layout, n: nat, recs: Seq<Seq<u8>>)
    requires
        layout_ok(l),
        forall|i: int| 0 <= i < recs.len() ==> shaped(l, #[trigger] recs[i]),
    ensures
        filled(l, n, recs) matches Some(b) ==> b.len() == n && zero_from(b, walk_end(b, l, 0)),
    decreases recs.len(),
{
    if recs.len() == 0 {
        let z = Seq::new(n, |i: int| 0u8);
        lemma_walk_stops_on_zeros(z, l, 0);
        lemma_align8(0);
    } else {
        let d = recs.drop_last();
        assert forall|i: int| 0 <= i < d.len() implies shaped(l, #[trigger] d[i]) by {
            assert(d[i] == recs[i]);
        }
        lemma_filled_tail(l, n, d);
        match filled(l, n, d) {
            None => {},
            Some(b) => {
                let e = walk_end(b, l, 0);
                lemma_walk_end_after(b, l, 0);
                if e + recs.last().len() <= b.len() {
                    lemma_append_record(b, l, recs.last());
                }
            },
        }
    }
}

/// Records added one by one to a zeroed buffer, each where the walk
/// stops, are read back by the walk complete and in order: the `k`-th
/// record the walk visits holds exactly the bytes of the `k`-th added.
pub proof fn lemma_filled_read_back(l: Layout, n: nat, recs: Seq<Seq<u8>>)
    requires
        layout_ok(l),
        forall|i: int| 0 <= i < recs.len() ==> shaped(l, #[trigger] recs[i]),
    ensures
        filled(l, n, recs) matches Some(b) ==> {
            let ps = records_from(b, l, 0);
            &&& ps.len() == recs.len()
            &&& forall|k: int| 0 <= k < ps.len() ==>
                b.subrange(#[trigger] ps[k], record_end(b, l, ps[k])) == recs[k]
        },
    decreases recs.len(),
{
    if recs.len() == 0 {
        let z = Seq::new(n, |i: int| 0u8);
        lemma_walk_stops_on_zeros(z, l, 0);
    } else {
        let d = recs.drop_last();
        assert forall|i: int| 0 <= i < d.len() implies shaped(l, #[trigger] d[i]) by {
            assert(d[i] == recs[i]);
        }
        lemma_filled_read_back(l, n, d);
        lemma_filled_tail(l, n, d);
        match filled(l, n, d) {
            None => {},
            Some(b) => {
                let e = walk_end(b, l, 0);
                let rec = recs.last();
                if e + rec.len() <= b.len() {
                    lemma_append_record(b, l, rec);
                    let b2 = written(b, e, rec);
                    let ps = records_from(b, l, 0);
                    let ps2 = records_from(b2, l, 0);
                    assert forall|k: int| 0 <= k < ps2.len() implies
                        b2.subrange(#[trigger] ps2[k], record_end(b2, l, ps2[k])) == recs[k] by {
                        if k < ps.len() {
                            assert(ps2[k] == ps[k]);
                            lemma_record_before_stop(b, l, 0, k);
                            let p = ps[k];
                            assert(b2.subrange(p + l.a_off, p + l.a_off + 8) =~= b2.subrange(p, record_end(b, l, p)).subrange(l.a_off as int, l.a_off + 8int));
                            assert(b.subrange(p + l.a_off, p + l.a_off + 8) =~= b.subrange(p, record_end(b, l, p)).subrange(l.a_off as int, l.a_off + 8int));
                            assert(b2.subrange(p + l.b_off, p + l.b_off + 8) =~= b2.subrange(p, record_end(b, l, p)).subrange(l.b_off as int, l.b_off + 8int));
                            assert(b.subrange(p + l.b_off, p + l.b_off + 8) =~= b.subrange(p, record_end(b, l, p)).subrange(l.b_off as int, l.b_off + 8int));
                            assert(record_end(b2, l, p) == record_end(b, l, p));
                            assert(recs[k] == d[k]);
                        } else {
                            assert(ps2[k] == e);
                        }
                    }
                }
            },
        }
    }
}

/// A property record with a name that is not empty is one whole record.
pub proof fn lemma_prop_record_shaped(name: Seq<u8>, value: Seq<u8>)
    requires
        0 < name.len() < 0x1_0000_0000_0000_0000,
        value.len() < 0x1_0000_0000_0000_0000,
    ensures
        shaped(prop_layout(), prop_record(name, value)),
        u64_at(prop_record(name, value), 0) == name.len(),
        u64_at(prop_record(name, value), 8) == value.len(),
{
    let rec = prop_record(name, value);
    lemma_le_seq_len(name.len(), 8);
    lemma_le_seq_len(value.len(), 8);
    lemma_pow256_8();
    lemma_le_roundtrip_n(name.len(), 8);
    lemma_le_roundtrip_n(value.len(), 8);
    assert(rec.subrange(0, 8) =~= le_seq(name.len(), 8));
    assert(rec.subrange(8, 16) =~= le_seq(value.len(), 8));
}

/// Properties added one by one to a zeroed buffer of `n` bytes, each as
/// `WorkerContext::add_property` writes it, with names that are not
/// empty: when every addition fits, a walk from the start (as
/// `PropertyIterator` and the readers take it) gives them back complete
/// and in order, each with its name and value.
pub proof fn lemma_added_properties_read_back(n: nat, items: Seq<(Seq<u8>, Seq<u8>)>)
    requires
        forall|i: int| 0 <= i < items.len() ==> 0 < (#[trigger] items[i]).0.len() < 0x1_0000_0000_0000_0000
            && items[i].1.len() < 0x1_0000_0000_0000_0000,
    ensures
        ({
            let recs = items.map_values(|it: (Seq<u8>, Seq<u8>)| prop_record(it.0, it.1));
            filled(prop_layout(), n, recs) matches Some(b) ==> {
                let ps = records_from(b, prop_layout(), 0);
                &&& ps.len() == items.len()
                &&& forall|k: int| 0 <= k < ps.len() ==> name_at(b, prop_layout(), #[trigger] ps[k]) == items[k].0
                    && payload_at(b, prop_layout(), ps[k]) == items[k].1
            }
        }),
{
    let l = prop_layout();
    let recs = items.map_values(|it: (Seq<u8>, Seq<u8>)| prop_record(it.0, it.1));
    assert forall|i: int| 0 <= i < recs.len() implies shaped(l, #[trigger] recs[i]) by {
        lemma_prop_record_shaped(items[i].0, items[i].1);
    }
    lemma_filled_read_back(l, n, recs);
    match filled(l, n, recs) {
        None => {},
        Some(b) => {
            let ps = records_from(b, l, 0);
            assert forall|k: int| 0 <= k < ps.len() implies name_at(b, l, #[trigger] ps[k]) == items[k].0
                && payload_at(b, l, ps[k]) == items[k].1 by {
                let p = ps[k];
                let rec = recs[k];
                lemma_prop_record_shaped(items[k].0, items[k].1);
                lemma_record_before_stop(b, l, 0, k);
                let seg = b.subrange(p, record_end(b, l, p));
                assert(seg == rec);
                assert(b.subrange(p, p + 8) =~= seg.subrange(0, 8));
                assert(b.subrange(p + 8, p + 16) =~= seg.subrange(8, 16));
                assert(u64_at(b, p) == items[k].0.len());
                assert(u64_at(b, p + 8) == items[k].1.len());
                assert(name_at(b, l, p) =~= rec.subrange(16, 16 + items[k].0.len() as int));
                assert(payload_at(b, l, p) =~= rec.subrange(16 + items[k].0.len() as int, rec.len() as int));
                assert(rec.subrange(16, 16 + items[k].0.len() as int) =~= items[k].0);
                assert(rec.subrange(16 + items[k].0.len() as int, rec.len() as int) =~= items[k].1);
            }
        },
    }
}

/// Argument slots take 8 bytes each.
proof fn lemma_meta_bytes_len(metas: Seq<(u32, u32)>)
    ensures
        meta_bytes(metas).len() == 8 * metas.len(),
    decreases metas.len(),
{
    if metas.len() > 0 {
        lemma_meta_bytes_len(metas.drop_last());
        lemma_le_seq_len(metas.last().0 as nat, 4);
        lemma_le_seq_len(metas.last().1 as nat, 4);
    }
}

/// A function record with `slots` argument slots and a name that is not
/// empty is one whole record of the function layout.
pub proof fn lemma_fn_record_shaped(ret: nat, metas: Seq<(u32, u32)>, argc: nat, name: Seq<u8>, payload: Seq<u8>)
    requires
        0 < name.len() < 0x1_0000_0000_0000_0000,
        payload.len() < 0x1_0000_0000_0000_0000,
    ensures
        shaped(fn_layout(metas.len()), fn_record(ret, metas, argc, name, payload)),
        name_at(fn_record(ret, metas, argc, name, payload), fn_layout(metas.len()), 0) == name,
        payload_at(fn_record(ret, metas, argc, name, payload), fn_layout(metas.len()), 0) == payload,
{
    let m: int = 8 * metas.len() as int;
    let rec = fn_record(ret, metas, argc, name, payload);
    lemma_meta_bytes_len(metas);
    lemma_le_seq_len(ret, 8);
    lemma_le_seq_len(argc, 8);
    lemma_le_seq_len(name.len(), 8);
    lemma_le_seq_len(payload.len(), 8);
    lemma_pow256_8();
    lemma_le_roundtrip_n(name.len(), 8);
    lemma_le_roundtrip_n(payload.len(), 8);
    assert(rec.subrange(16 + m, 24 + m) =~= le_seq(name.len(), 8));
    assert(rec.subrange(24 + m, 32 + m) =~= le_seq(payload.len(), 8));
    assert(name_at(rec, fn_layout(metas.len()), 0) =~= name);
    assert(payload_at(rec, fn_layout(metas.len()), 0) =~= payload);
}

/// Functions added one by one to a zeroed buffer of `n` bytes, each
/// record as `WorkerContext::add_function` writes it (see `fn_record`),
/// with `slots` argument slots and names that are not empty: when every
/// addition fits, a walk from the start (as `read_all_functions` takes
/// it) gives them back complete and in order, each record holding exactly
/// the bytes that were added, so the same return pointer, argument slots,
/// argument count, name and arguments.
pub proof fn lemma_added_functions_read_back(n: nat, slots: nat, recs: Seq<Seq<u8>>)
    requires
        forall|i: int| 0 <= i < recs.len() ==> exists|ret: nat, metas: Seq<(u32, u32)>, argc: nat, name: Seq<u8>, payload: Seq<u8>|
            metas.len() == slots && 0 < name.len() < 0x1_0000_0000_0000_0000 && payload.len() < 0x1_0000_0000_0000_0000
            && #[trigger] recs[i] == fn_record(ret, metas, argc, name, payload),
    ensures
        filled(fn_layout(slots), n, recs) matches Some(b) ==> {
            let ps = records_from(b, fn_layout(slots), 0);
            &&& ps.len() == recs.len()
            &&& forall|k: int| 0 <= k < ps.len() ==>
                b.subrange(#[trigger] ps[k], record_end(b, fn_layout(slots), ps[k])) == recs[k]
        },
{
    let l = fn_layout(slots);
    assert forall|i: int| 0 <= i < recs.len() implies shaped(l, #[trigger] recs[i]) by {
        let (ret, metas, argc, name, payload) = choose|ret: nat, metas: Seq<(u32, u32)>, argc: nat, name: Seq<u8>, payload: Seq<u8>|
            metas.len() == slots && 0 < name.len() < 0x1_0000_0000_0000_0000 && payload.len() < 0x1_0000_0000_0000_0000
            && #[trigger] recs[i] == fn_record(ret, metas, argc, name, payload);
        lemma_fn_record_shaped(ret, metas, argc, name, payload);
    }
    lemma_filled_read_back(l, n, recs);
}

} // verus!
