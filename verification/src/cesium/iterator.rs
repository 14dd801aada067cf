use vstd::prelude::*;
use crate::cesium::sdk::utf8;
use super::context::{Property, FunctionSig, Layout, prop_layout, fn_layout, records_from, record_end, name_at, payload_at, sig_at};
use super::context::{next_record, copy_range, string_from_utf8, read_sig, prop_sizes, fn_sizes};

verus! {

/// The name a record's bytes give: when they are valid UTF-8, the text
/// they encode.
pub open spec fn names_record(name: String, b: Seq<u8>, l: Layout, c: int) -> bool {
    (exists|s: Seq<char>| utf8(s) == name_at(b, l, c)) ==> utf8(name@) == name_at(b, l, c)
}

/// Walks the property records of a buffer from its start, as a walk
/// visits them (see `records_from`).
pub struct PropertyIterator<'a> {
    buffer: &'a Vec<u8>,
    cursor: usize,
}

impl<'a> PropertyIterator<'a> {
    /// The bytes walked.
    pub closed spec fn bytes(&self) -> Seq<u8> {
        self.buffer@
    }

    /// The positions of the records still to come.
    pub closed spec fn remaining(&self) -> Seq<int> {
        records_from(self.buffer@, prop_layout(), self.cursor as int)
    }

    /// The cursor stays near the buffer, whose length leaves room for a
    /// walk's rounding.
    pub closed spec fn wf(&self) -> bool {
        &&& self.buffer@.len() + 16 <= usize::MAX
        &&& self.cursor <= self.buffer@.len()
    }

    /// A walk from the start of `buffer`.
    pub fn new(buffer: &'a Vec<u8>) -> (r: Self)
        requires
            buffer@.len() + 16 <= usize::MAX,
        ensures
            r.wf(),
            r.bytes() == buffer@,
            r.remaining() == records_from(buffer@, prop_layout(), 0),
    {
        PropertyIterator { buffer, cursor: 0 }
    }

    /// The next property record, if any: its name and its value; the walk
    /// then goes on after it.
    pub fn next(&mut self) -> (r: Option<Property>)
        requires
            old(self).wf(),
        ensures
            final(self).wf(),
            final(self).bytes() == old(self).bytes(),
            match r {
                None => old(self).remaining() == Seq::<int>::empty() && final(self).remaining() == Seq::<int>::empty(),
                Some(p) => {
                    &&& old(self).remaining().len() > 0
                    &&& p.value@ == payload_at(old(self).bytes(), prop_layout(), old(self).remaining()[0])
                    &&& names_record(p.name, old(self).bytes(), prop_layout(), old(self).remaining()[0])
                    &&& final(self).remaining() == old(self).remaining().drop_first()
                },
            },
    {
        let l = prop_sizes();
        match next_record(self.buffer, &l, self.cursor) {
            Err(_) => None,
            Ok((c, x, y)) => {
                let start = c + l.header;
                let name_bytes = copy_range(self.buffer, start, start + x);
                let name = string_from_utf8(name_bytes.as_slice());
                let value = copy_range(self.buffer, start + x, start + x + y);
                self.cursor = c + l.header + x + y;
                proof {
                    assert(name_bytes@ == name_at(self.buffer@, prop_layout(), c as int));
                    assert(seq![c as int] + self.remaining() =~= old(self).remaining());
                    assert(old(self).remaining().drop_first() =~= self.remaining());
                }
                Some(Property { name, value })
            },
        }
    }
}

/// Walks the function records of a buffer whose records have room for `N`
/// arguments, from its start.
pub struct FunctionIterator<'a, const N: usize> {
    buffer: &'a Vec<u8>,
    cursor: usize,
}

impl<'a, const N: usize> FunctionIterator<'a, N> {
    /// The bytes walked.
    pub closed spec fn bytes(&self) -> Seq<u8> {
        self.buffer@
    }

    /// The positions of the records still to come.
    pub closed spec fn remaining(&self) -> Seq<int> {
        records_from(self.buffer@, fn_layout(N as nat), self.cursor as int)
    }

    /// The cursor stays within the buffer, whose length leaves room for a
    /// walk's rounding, and a record's header fits in memory.
    pub closed spec fn wf(&self) -> bool {
        &&& self.buffer@.len() + 16 <= usize::MAX
        &&& self.cursor <= self.buffer@.len()
        &&& 32 + 8 * N <= usize::MAX
    }

    /// A walk from the start of `buffer`.
    pub fn new(buffer: &'a Vec<u8>) -> (r: Self)
        requires
            buffer@.len() + 16 <= usize::MAX,
            32 + 8 * N <= usize::MAX,
        ensures
            r.wf(),
            r.bytes() == buffer@,
            r.remaining() == records_from(buffer@, fn_layout(N as nat), 0),
    {
        FunctionIterator { buffer, cursor: 0 }
    }

    /// The next function record, if any (see `sig_at`); the walk then goes
    /// on after it.
    pub fn next(&mut self) -> (r: Option<FunctionSig>)
        requires
            old(self).wf(),
        ensures
            final(self).wf(),
            final(self).bytes() == old(self).bytes(),
            match r {
                None => old(self).remaining() == Seq::<int>::empty() && final(self).remaining() == Seq::<int>::empty(),
                Some(sig) => {
                    &&& old(self).remaining().len() > 0
                    &&& sig_at(old(self).bytes(), N as nat, old(self).remaining()[0], sig)
                    &&& names_record(sig.name, old(self).bytes(), fn_layout(N as nat), old(self).remaining()[0])
                    &&& final(self).remaining() == old(self).remaining().drop_first()
                },
            },
    {
        let l = fn_sizes(N);
        match next_record(self.buffer, &l, self.cursor) {
            Err(_) => None,
            Ok((c, x, y)) => {
                let start = c + l.header;
                let name_bytes = copy_range(self.buffer, start, start + x);
                let name = string_from_utf8(name_bytes.as_slice());
                let sig = read_sig(self.buffer, N, c, x, y, name);
                self.cursor = c + l.header + x + y;
                proof {
                    assert(name_bytes@ == name_at(self.buffer@, fn_layout(N as nat), c as int));
                    assert(seq![c as int] + self.remaining() =~= old(self).remaining());
                    assert(old(self).remaining().drop_first() =~= self.remaining());
                }
                Some(sig)
            },
        }
    }
}

/// A buffer of property records that can be walked.
pub trait AsPropertyIterator {
    /// A walk over the property records from the start.
    fn with_property(&self) -> PropertyIterator<'_>;
}

impl AsPropertyIterator for Vec<u8> {
    fn with_property(&self) -> (r: PropertyIterator<'_>)
        ensures
            self@.len() + 16 <= usize::MAX ==> (r.wf() && r.bytes() == self@
                && r.remaining() == records_from(self@, prop_layout(), 0)),
    {
        PropertyIterator { buffer: self, cursor: 0 }
    }
}

/// A buffer of function records that can be walked.
pub trait AsFunction {
    /// A walk over the function records, with room for `N` arguments each,
    /// from the start.
    fn with_function<const N: usize>(&self) -> FunctionIterator<'_, N>;
}

impl AsFunction for Vec<u8> {
    fn with_function<const N: usize>(&self) -> (r: FunctionIterator<'_, N>)
        ensures
            (self@.len() + 16 <= usize::MAX && 32 + 8 * N <= usize::MAX) ==> (r.wf() && r.bytes() == self@
                && r.remaining() == records_from(self@, fn_layout(N as nat), 0)),
    {
        FunctionIterator { buffer: self, cursor: 0 }
    }
}

} // verus!
