use vstd::prelude::*;

verus! {

/// The error of a checksum store whose buffer is full.
#[derive(Debug, Copy, Clone, PartialEq, Eq)]
pub enum ChecksumError {
    OutOfRange,
}

/// One bit step of the reflected CRC-32 (IEEE) register.
pub open spec fn crc_bit(c: u32) -> u32 {
    if c & 1 == 1 { (c >> 1) ^ 0xEDB88320 } else { c >> 1 }
}

/// The register after feeding `k` more bits.
pub open spec fn crc_bits(c: u32, k: nat) -> u32
    decreases k,
{
    if k == 0 { c } else { crc_bits(crc_bit(c), (k - 1) as nat) }
}

/// The CRC-32 register after `bytes`, starting from `init`.
pub open spec fn crc_register(init: u32, bytes: Seq<u8>) -> u32
    decreases bytes.len(),
{
    if bytes.len() == 0 {
        init
    } else {
        crc_bits(crc_register(init, bytes.drop_last()) ^ (bytes.last() as u32), 8)
    }
}

/// The CRC-32 (IEEE) checksum of `bytes`: the reflected register with
/// polynomial 0xEDB88320, started at all ones and inverted at the end.
pub open spec fn crc32(bytes: Seq<u8>) -> u32 {
    !crc_register(0xFFFFFFFF, bytes)
}

/// Calls `crc32fast::hash`, the CRC-32 (IEEE) checksum of the bytes.
#[verifier::external_body]
fn crc32_hash(bytes: &[u8]) -> (r: u32)
    ensures
        r == crc32(bytes@),
{
    crc32fast::hash(bytes)
}

/// A store of checksums with room for `HASHED_SIZE` of them, and a buffer
/// of `STREAM_BUFFER_SIZE` bytes that collects data to be hashed at once.
pub struct Checksum<const HASHED_SIZE: usize, const STREAM_BUFFER_SIZE: usize> {
    hashed: Vec<u32>,
    hashed_cursor: usize,
    stream_buf: Vec<u8>,
    stream_buf_cursor: usize,
}

impl<const HASHED_SIZE: usize, const STREAM_BUFFER_SIZE: usize> Checksum<HASHED_SIZE, STREAM_BUFFER_SIZE> {
    /// The checksums stored, oldest first.
    pub closed spec fn hashes(&self) -> Seq<u32> {
        self.hashed@.subrange(0, self.hashed_cursor as int)
    }

    /// The bytes collected since the last `finalize` or `clear`.
    pub closed spec fn stream(&self) -> Seq<u8> {
        self.stream_buf@.subrange(0, self.stream_buf_cursor as int)
    }

    /// The buffers have their sizes and the cursors lie within them.
    pub closed spec fn wf(&self) -> bool {
        &&& self.hashed@.len() == HASHED_SIZE
        &&& self.stream_buf@.len() == STREAM_BUFFER_SIZE
        &&& self.hashed_cursor <= HASHED_SIZE
        &&& self.stream_buf_cursor <= STREAM_BUFFER_SIZE
    }

    /// An empty store.
    pub fn new() -> (r: Self)
        ensures
            r.wf(),
            r.hashes() == Seq::<u32>::empty(),
            r.stream() == Seq::<u8>::empty(),
    {
        let mut hashed: Vec<u32> = Vec::new();
        let mut i: usize = 0;
        while i < HASHED_SIZE
            invariant
                i <= HASHED_SIZE,
                hashed@.len() == i,
            decreases HASHED_SIZE - i,
        {
            hashed.push(0);
            i = i + 1;
        }
        let mut stream_buf: Vec<u8> = Vec::new();
        let mut j: usize = 0;
        while j < STREAM_BUFFER_SIZE
            invariant
                j <= STREAM_BUFFER_SIZE,
                stream_buf@.len() == j,
            decreases STREAM_BUFFER_SIZE - j,
        {
            stream_buf.push(0);
            j = j + 1;
        }
        let r = Checksum { hashed, hashed_cursor: 0, stream_buf, stream_buf_cursor: 0 };
        assert(r.hashes() =~= Seq::<u32>::empty());
        assert(r.stream() =~= Seq::<u8>::empty());
        r
    }

    /// Stores the checksum of `bytes` and gives it. The store must have
    /// room for it.
    pub fn hash(&mut self, bytes: &[u8]) -> (r: Result<u32, ChecksumError>)
        requires
            old(self).wf(),
            old(self).hashes().len() < HASHED_SIZE,
        ensures
            final(self).wf(),
            r == Ok::<u32, ChecksumError>(crc32(bytes@)),
            final(self).hashes() == old(self).hashes().push(crc32(bytes@)),
            final(self).stream() == old(self).stream(),
    {
        let cursor = self.hashed_cursor;
        let h = crc32_hash(bytes);
        self.hashed.set(cursor, h);
        self.hashed_cursor = cursor + 1;
        assert(self.hashes() =~= old(self).hashes().push(h));
        assert(self.stream() =~= old(self).stream());
        Ok(h)
    }

    /// Whether `hash` is among the stored checksums.
    pub fn contains_hash(&self, hash: &u32) -> (r: bool)
        requires
            self.wf(),
        ensures
            r == self.hashes().contains(*hash),
    {
        let mut i: usize = 0;
        while i < self.hashed_cursor
            invariant
                self.wf(),
                i <= self.hashed_cursor,
                forall|k: int| 0 <= k < i ==> self.hashed@[k] != *hash,
            decreases self.hashed_cursor - i,
        {
            if self.hashed[i] == *hash {
                assert(self.hashes()[i as int] == *hash);
                return true;
            }
            i = i + 1;
        }
        proof {
            if self.hashes().contains(*hash) {
                let k = choose|k: int| 0 <= k < self.hashes().len() && self.hashes()[k] == *hash;
                assert(self.hashed@[k] == *hash);
            }
        }
        false
    }

    /// Adds `bytes` to the stream buffer; when they do not fit, nothing
    /// changes and the result is `OutOfRange`.
    pub fn update(&mut self, bytes: &[u8]) -> (r: Result<(), ChecksumError>)
        requires
            old(self).wf(),
        ensures
            final(self).wf(),
            final(self).hashes() == old(self).hashes(),
            if old(self).stream().len() + bytes@.len() > STREAM_BUFFER_SIZE {
                r == Err::<(), ChecksumError>(ChecksumError::OutOfRange) && final(self).stream() == old(self).stream()
            } else {
                r is Ok && final(self).stream() == old(self).stream() + bytes@
            },
    {
        let cursor = self.stream_buf_cursor;
        if bytes.len() > STREAM_BUFFER_SIZE - cursor {
            return Err(ChecksumError::OutOfRange);
        }
        let mut i: usize = 0;
        while i < bytes.len()
            invariant
                i <= bytes@.len(),
                cursor + bytes@.len() <= STREAM_BUFFER_SIZE,
                cursor == old(self).stream_buf_cursor,
                self.stream_buf@.len() == STREAM_BUFFER_SIZE,
                self.stream_buf_cursor == cursor,
                self.hashed == old(self).hashed,
                self.hashed_cursor == old(self).hashed_cursor,
                self.stream_buf@.subrange(0, cursor as int) == old(self).stream(),
                self.stream_buf@.subrange(cursor as int, cursor + i) == bytes@.subrange(0, i as int),
            decreases bytes.len() - i,
        {
            let ghost before = self.stream_buf@;
            self.stream_buf.set(cursor + i, bytes[i]);
            assert(self.stream_buf@.subrange(0, cursor as int) =~= before.subrange(0, cursor as int));
            assert(self.stream_buf@.subrange(cursor as int, cursor + i + 1) =~= bytes@.subrange(0, i + 1));
            i = i + 1;
        }
        let n = bytes.len();
        proof {
            let sb = self.stream_buf@;
            assert(sb.subrange(0, cursor + n) =~= sb.subrange(0, cursor as int) + sb.subrange(cursor as int, cursor + n));
            assert(bytes@.subrange(0, n as int) =~= bytes@);
        }
        self.stream_buf_cursor = cursor + n;
        assert(self.stream() =~= old(self).stream() + bytes@);
        assert(self.hashes() =~= old(self).hashes());
        Ok(())
    }

    /// Stores the checksum of the bytes collected in the stream buffer,
    /// empties the buffer and gives the checksum. The store must have room
    /// for it.
    pub fn finalize(&mut self) -> (r: Result<u32, ChecksumError>)
        requires
            old(self).wf(),
            old(self).hashes().len() < HASHED_SIZE,
        ensures
            final(self).wf(),
            r == Ok::<u32, ChecksumError>(crc32(old(self).stream())),
            final(self).hashes() == old(self).hashes().push(crc32(old(self).stream())),
            final(self).stream() == Seq::<u8>::empty(),
    {
        let buf = vstd::slice::slice_subrange(self.stream_buf.as_slice(), 0, self.stream_buf_cursor);
        let h = crc32_hash(buf);
        let cursor = self.hashed_cursor;
        self.hashed.set(cursor, h);
        self.hashed_cursor = cursor + 1;
        self.stream_buf_cursor = 0;
        assert(self.hashes() =~= old(self).hashes().push(h));
        assert(self.stream() =~= Seq::<u8>::empty());
        Ok(h)
    }

    /// Forgets all checksums and the stream buffer.
    pub fn clear(&mut self)
        requires
            old(self).wf(),
        ensures
            final(self).wf(),
            final(self).hashes() == Seq::<u32>::empty(),
            final(self).stream() == Seq::<u8>::empty(),
    {
        self.hashed_cursor = 0;
        self.stream_buf_cursor = 0;
        assert(self.hashes() =~= Seq::<u32>::empty());
        assert(self.stream() =~= Seq::<u8>::empty());
    }

    /// Whether no checksum is stored.
    pub fn is_empty(&self) -> (r: bool)
        requires
            self.wf(),
        ensures
            r == (self.hashes().len() == 0),
    {
        self.hashed_cursor == 0
    }

    /// The number of checksums stored.
    pub fn len(&self) -> (r: usize)
        requires
            self.wf(),
        ensures
            r == self.hashes().len(),
    {
        self.hashed_cursor
    }

    /// The checksums stored, oldest first.
    pub fn hashed_slices(&self) -> (r: &[u32])
        requires
            self.wf(),
        ensures
            r@ == self.hashes(),
    {
        vstd::slice::slice_subrange(self.hashed.as_slice(), 0, self.hashed_cursor)
    }

    /// How many more bytes the stream buffer can take.
    pub fn stream_remaining_capacity(&self) -> (r: usize)
        requires
            self.wf(),
        ensures
            r == STREAM_BUFFER_SIZE - self.stream().len(),
    {
        STREAM_BUFFER_SIZE - self.stream_buf_cursor
    }

    /// The checksum stored at `index`, if any.
    pub fn get_hash(&self, index: usize) -> (r: Option<u32>)
        requires
            self.wf(),
        ensures
            r == (if index < self.hashes().len() { Some(self.hashes()[index as int]) } else { None::<u32> }),
    {
        if index < self.hashed_cursor {
            Some(self.hashed[index])
        } else {
            None
        }
    }

    /// Whether the checksum of `bytes` is among the stored checksums.
    pub fn contains_bytes(&self, bytes: &[u8]) -> (r: bool)
        requires
            self.wf(),
        ensures
            r == self.hashes().contains(crc32(bytes@)),
    {
        let target_hash = crc32_hash(bytes);
        self.contains_hash(&target_hash)
    }
}

/// Streaming in parts and then finalizing stores the checksum of the
/// parts joined: after `update(a)` and `update(b)` succeed on an empty
/// stream, `finalize` stores `crc32(a + b)`.
pub proof fn lemma_stream_concatenates(s0: Seq<u8>, a: Seq<u8>, b: Seq<u8>, s1: Seq<u8>, s2: Seq<u8>)
    requires
        s0 == Seq::<u8>::empty(),
        s1 == s0 + a,
        s2 == s1 + b,
    ensures
        crc32(s2) == crc32(a + b),
{
    assert(s2 =~= a + b);
}

} // verus!
