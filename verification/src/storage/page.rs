use vstd::prelude::*;

verus! {

/// Size in bytes of every database page.
pub const PAGE_SIZE: usize = 4096;

/// Page-type byte of an interior B+Tree node.
pub const PAGE_TYPE_INTERNAL: u8 = 5;

/// Page-type byte of a B+Tree leaf node.
pub const PAGE_TYPE_LEAF: u8 = 13;

/// The little-endian 16-bit value stored at `off`.
pub open spec fn le16(d: Seq<u8>, off: int) -> int {
    d[off] as int + d[off + 1] as int * 256
}

/// The little-endian 32-bit value stored at `off`.
pub open spec fn le32(d: Seq<u8>, off: int) -> int {
    d[off] as int + d[off + 1] as int * 256 + d[off + 2] as int * 65536 + d[off + 3] as int
        * 16777216
}

/// The two little-endian bytes of a 16-bit value.
pub open spec fn u16_bytes(v: int) -> Seq<u8> {
    seq![(v % 256) as u8, (v / 256 % 256) as u8]
}

/// The four little-endian bytes of a 32-bit value.
pub open spec fn u32_bytes(v: int) -> Seq<u8> {
    seq![
        (v % 256) as u8,
        (v / 256 % 256) as u8,
        (v / 65536 % 256) as u8,
        (v / 16777216 % 256) as u8,
    ]
}

/// Reading back the bytes of a 16-bit value gives the value.
pub proof fn lemma_le16_of_bytes(d: Seq<u8>, off: int, v: int)
    requires
        0 <= off,
        off + 2 <= d.len(),
        0 <= v < 65536,
        d.subrange(off, off + 2) == u16_bytes(v),
    ensures
        le16(d, off) == v,
{
    assert(d[off] == d.subrange(off, off + 2)[0]);
    assert(d[off + 1] == d.subrange(off, off + 2)[1]);
}

/// Reading back the bytes of a 32-bit value gives the value.
pub proof fn lemma_le32_of_bytes(d: Seq<u8>, off: int, v: int)
    requires
        0 <= off,
        off + 4 <= d.len(),
        0 <= v < 0x1_0000_0000,
        d.subrange(off, off + 4) == u32_bytes(v),
    ensures
        le32(d, off) == v,
{
    assert(d[off] == d.subrange(off, off + 4)[0]);
    assert(d[off + 1] == d.subrange(off, off + 4)[1]);
    assert(d[off + 2] == d.subrange(off, off + 4)[2]);
    assert(d[off + 3] == d.subrange(off, off + 4)[3]);
}

/// Only the low 16 bits of a value reach its two bytes.
pub proof fn lemma_u16_bytes_mod(v: int)
    requires
        0 <= v,
    ensures
        u16_bytes(v % 65536) == u16_bytes(v),
{
    vstd::arithmetic::div_mod::lemma_mod_breakdown(v, 256, 256);
    assert(v % 65536 == 256 * ((v / 256) % 256) + v % 256);
    assert(u16_bytes(v % 65536) =~= u16_bytes(v));
}

/// A fixed-size block of bytes as stored in the database file.
#[derive(Debug)]
pub struct Page {
    pub data: Vec<u8>,
}

impl Page {
    /// A page holds exactly `PAGE_SIZE` bytes.
    pub open spec fn wf(&self) -> bool {
        self.data@.len() == PAGE_SIZE
    }

    /// A page whose bytes are all zero.
    pub fn zeroed() -> (p: Page)
        ensures
            p.wf(),
            forall|i: int| 0 <= i < PAGE_SIZE ==> #[trigger] p.data@[i] == 0,
    {
        let mut data: Vec<u8> = Vec::with_capacity(PAGE_SIZE);
        let mut i: usize = 0;
        while i < PAGE_SIZE
            invariant
                i <= PAGE_SIZE,
                data@.len() == i,
                forall|j: int| 0 <= j < i ==> #[trigger] data@[j] == 0,
            decreases PAGE_SIZE - i,
        {
            data.push(0);
            i = i + 1;
        }
        Page { data }
    }

    /// Sets every byte of the page to zero.
    pub fn clear(&mut self)
        requires
            old(self).wf(),
        ensures
            final(self).wf(),
            forall|i: int| 0 <= i < PAGE_SIZE ==> #[trigger] final(self).data@[i] == 0,
    {
        let mut i: usize = 0;
        while i < PAGE_SIZE
            invariant
                i <= PAGE_SIZE,
                self.data@.len() == PAGE_SIZE,
                forall|j: int| 0 <= j < i ==> #[trigger] self.data@[j] == 0,
            decreases PAGE_SIZE - i,
        {
            self.data.set(i, 0);
            i = i + 1;
        }
    }

    /// The page-type byte (the first byte of the page).
    pub fn page_type(&self) -> (t: u8)
        requires
            self.wf(),
        ensures
            t == self.data@[0],
    {
        self.data[0]
    }

    /// Reads the little-endian 16-bit value at `off`.
    pub fn read_u16(&self, off: usize) -> (v: u16)
        requires
            self.wf(),
            off + 2 <= PAGE_SIZE,
        ensures
            v as int == le16(self.data@, off as int),
    {
        let lo = self.data[off] as u16;
        let hi = self.data[off + 1] as u16;
        lo + hi * 256
    }

    /// Reads the little-endian 32-bit value at `off`.
    pub fn read_u32(&self, off: usize) -> (v: u32)
        requires
            self.wf(),
            off + 4 <= PAGE_SIZE,
        ensures
            v as int == le32(self.data@, off as int),
    {
        let b0 = self.data[off] as u32;
        let b1 = self.data[off + 1] as u32;
        let b2 = self.data[off + 2] as u32;
        let b3 = self.data[off + 3] as u32;
        b0 + b1 * 256 + b2 * 65536 + b3 * 16777216
    }

    /// Copies `len` bytes starting at `off` out of the page.
    pub fn read_bytes(&self, off: usize, len: usize) -> (out: Vec<u8>)
        requires
            self.wf(),
            off + len <= PAGE_SIZE,
        ensures
            out@ == self.data@.subrange(off as int, off + len),
    {
        let mut out: Vec<u8> = Vec::with_capacity(len);
        let mut i: usize = 0;
        while i < len
            invariant
                self.wf(),
                off + len <= PAGE_SIZE,
                i <= len,
                out@ == self.data@.subrange(off as int, off + i),
            decreases len - i,
        {
            out.push(self.data[off + i]);
            i = i + 1;
            assert(out@ =~= self.data@.subrange(off as int, off + i));
        }
        out
    }

    /// Stores one byte at `off`.
    pub fn write_u8(&mut self, off: usize, v: u8)
        requires
            old(self).wf(),
            off < PAGE_SIZE,
        ensures
            final(self).data@ == old(self).data@.update(off as int, v),
    {
        self.data.set(off, v);
    }

    /// Stores a 16-bit value little-endian at `off`.
    pub fn write_u16(&mut self, off: usize, v: u16)
        requires
            old(self).wf(),
            off + 2 <= PAGE_SIZE,
        ensures
            final(self).wf(),
            final(self).data@.subrange(off as int, off + 2) == u16_bytes(v as int),
            forall|k: int|
                0 <= k < PAGE_SIZE && (k < off || k >= off + 2) ==> #[trigger] final(self).data@[k]
                    == old(self).data@[k],
    {
        let lo = (v % 256) as u8;
        let hi = (v / 256) as u8;
        self.data.set(off, lo);
        self.data.set(off + 1, hi);
        assert(self.data@.subrange(off as int, off + 2) =~= u16_bytes(v as int));
    }

    /// Stores a 32-bit value little-endian at `off`.
    pub fn write_u32(&mut self, off: usize, v: u32)
        requires
            old(self).wf(),
            off + 4 <= PAGE_SIZE,
        ensures
            final(self).wf(),
            final(self).data@.subrange(off as int, off + 4) == u32_bytes(v as int),
            forall|k: int|
                0 <= k < PAGE_SIZE && (k < off || k >= off + 4) ==> #[trigger] final(self).data@[k]
                    == old(self).data@[k],
    {
        self.data.set(off, (v % 256) as u8);
        self.data.set(off + 1, (v / 256 % 256) as u8);
        self.data.set(off + 2, (v / 65536 % 256) as u8);
        self.data.set(off + 3, (v / 16777216 % 256) as u8);
        assert(self.data@.subrange(off as int, off + 4) =~= u32_bytes(v as int));
    }

    /// Copies `bytes` into the page starting at `off`.
    pub fn write_bytes(&mut self, off: usize, bytes: &[u8])
        requires
            old(self).wf(),
            off + bytes@.len() <= PAGE_SIZE,
        ensures
            final(self).wf(),
            final(self).data@.subrange(off as int, off + bytes@.len()) == bytes@,
            forall|k: int|
                0 <= k < PAGE_SIZE && (k < off || k >= off + bytes@.len()) ==> #[trigger] final(self).data@[k]
                    == old(self).data@[k],
    {
        let n = bytes.len();
        let mut i: usize = 0;
        while i < n
            invariant
                n == bytes@.len(),
                off + n <= PAGE_SIZE,
                i <= n,
                self.wf(),
                forall|j: int| 0 <= j < i ==> #[trigger] self.data@[off + j] == bytes@[j],
                forall|k: int|
                    0 <= k < PAGE_SIZE && (k < off || k >= off + i) ==> #[trigger] self.data@[k]
                        == old(self).data@[k],
            decreases n - i,
        {
            self.data.set(off + i, bytes[i]);
            i = i + 1;
        }
        assert(self.data@.subrange(off as int, off + n) =~= bytes@) by {
            assert forall|j: int| 0 <= j < n implies self.data@.subrange(off as int, off + n)[j]
                == bytes@[j] by {
                assert(self.data@[off + j] == bytes@[j]);
            }
        }
    }
}

} // verus!
