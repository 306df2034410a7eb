//! Cursor-based decoder for a nested, self-delimiting binary container.
//!
//! A chunk is laid out as a header followed by its body: the header is the
//! chunk's name as a length-prefixed string (one length byte, then that many
//! name bytes) and the body's byte count as a little-endian `u32`; the body
//! holds the chunk's fields and child chunks. A `Reader` is bounded to one
//! chunk's body: reading past that boundary is a decode error, never a
//! panic. Entering a child chunk yields a reader bounded to the child's
//! declared extent and advances the parent's cursor past the whole child,
//! however much of it the child reader later consumes.
use vstd::prelude::*;
use vstd::slice::slice_subrange;
use vstd::slice::slice_to_vec;
use vstd::string::StringSliceAdditionalSpecFns;

verus! {

/// Failure of the container layer: a field or a child chunk header would
/// run past the current chunk's declared boundary.
#[derive(Clone, Copy, PartialEq, Eq, Structural, Debug)]
pub enum Error {
    Truncated,
}

/// The little-endian 32-bit value held by the four bytes of `s`.
pub open spec fn spec_le32(s: Seq<u8>) -> int
    recommends
        s.len() == 4,
{
    s[0] + s[1] * 0x100 + s[2] * 0x10000 + s[3] * 0x1000000
}

/// Bounded cursor over one chunk's body within a shared byte stream.
pub struct Reader<'a> {
    pub data: &'a [u8],
    pub pos: usize,
    pub end: usize,
    pub name: Vec<u8>,
}

impl<'a> Reader<'a> {
    pub open spec fn wf(&self) -> bool {
        self.pos <= self.end <= self.data@.len()
    }

    /// Everything but the cursor is unchanged.
    pub open spec fn same_frame(&self, other: &Reader<'a>) -> bool {
        &&& self.data@ == other.data@
        &&& self.end == other.end
        &&& self.name@ == other.name@
    }

    /// A reader over a whole byte stream, treated as one anonymous chunk
    /// whose body is the entire stream.
    pub fn root(data: &'a [u8]) -> (r: Reader<'a>)
        ensures
            r.wf(),
            r.data@ == data@,
            r.pos == 0,
            r.end == data@.len(),
            r.name@ == Seq::<u8>::empty(),
    {
        let end = data.len();
        Reader { data, pos: 0, end, name: Vec::new() }
    }

    /// The name tag of the chunk this reader is bounded to.
    pub fn get_name(&self) -> (r: &Vec<u8>)
        ensures
            r@ == self.name@,
    {
        &self.name
    }

    /// Whether unconsumed bytes remain before this chunk's boundary.
    pub fn has_more(&self) -> (r: bool)
        ensures
            r == (self.pos < self.end),
    {
        self.pos < self.end
    }

    /// Unconsumed bytes before the boundary.
    pub fn remaining(&self) -> (r: usize)
        requires
            self.wf(),
        ensures
            r == self.end - self.pos,
    {
        self.end - self.pos
    }

    pub fn read_u8(&mut self) -> (r: Result<u8, Error>)
        requires
            old(self).wf(),
        ensures
            final(self).wf(),
            final(self).same_frame(old(self)),
            match r {
                Ok(b) => {
                    &&& old(self).pos + 1 <= old(self).end
                    &&& b == old(self).data@[old(self).pos as int]
                    &&& final(self).pos == old(self).pos + 1
                },
                Err(e) => {
                    &&& e == Error::Truncated
                    &&& old(self).pos + 1 > old(self).end
                    &&& final(self).pos == old(self).pos
                },
            },
    {
        if self.end - self.pos < 1 {
            return Err(Error::Truncated);
        }
        let b = self.data[self.pos];
        self.pos = self.pos + 1;
        Ok(b)
    }

    pub fn read_u32(&mut self) -> (r: Result<u32, Error>)
        requires
            old(self).wf(),
        ensures
            final(self).wf(),
            final(self).same_frame(old(self)),
            match r {
                Ok(v) => {
                    &&& old(self).pos + 4 <= old(self).end
                    &&& v == spec_le32(
                        old(self).data@.subrange(old(self).pos as int, old(self).pos + 4),
                    )
                    &&& final(self).pos == old(self).pos + 4
                },
                Err(e) => {
                    &&& e == Error::Truncated
                    &&& old(self).pos + 4 > old(self).end
                    &&& final(self).pos == old(self).pos
                },
            },
    {
        if self.end - self.pos < 4 {
            return Err(Error::Truncated);
        }
        let b0 = self.data[self.pos];
        let b1 = self.data[self.pos + 1];
        let b2 = self.data[self.pos + 2];
        let b3 = self.data[self.pos + 3];
        let v: u32 = b0 as u32 + (b1 as u32) * 0x100 + (b2 as u32) * 0x10000 + (b3 as u32)
            * 0x1000000;
        proof {
            assert(old(self).data@.subrange(old(self).pos as int, old(self).pos + 4)[0] == b0);
            assert(old(self).data@.subrange(old(self).pos as int, old(self).pos + 4)[1] == b1);
            assert(old(self).data@.subrange(old(self).pos as int, old(self).pos + 4)[2] == b2);
            assert(old(self).data@.subrange(old(self).pos as int, old(self).pos + 4)[3] == b3);
        }
        self.pos = self.pos + 4;
        Ok(v)
    }

    /// Consumes the next `n` raw bytes.
    pub fn read_bytes(&mut self, n: usize) -> (r: Result<&'a [u8], Error>)
        requires
            old(self).wf(),
        ensures
            final(self).wf(),
            final(self).same_frame(old(self)),
            match r {
                Ok(b) => {
                    &&& old(self).pos + n <= old(self).end
                    &&& b@ == old(self).data@.subrange(old(self).pos as int, old(self).pos + n)
                    &&& final(self).pos == old(self).pos + n
                },
                Err(e) => {
                    &&& e == Error::Truncated
                    &&& old(self).pos + n > old(self).end
                    &&& final(self).pos == old(self).pos
                },
            },
    {
        if n > self.end - self.pos {
            return Err(Error::Truncated);
        }
        let b = slice_subrange(self.data, self.pos, self.pos + n);
        self.pos = self.pos + n;
        Ok(b)
    }

    /// Whether a length-prefixed string starting at `pos` fits before `end`.
    pub open spec fn str_fits(data: Seq<u8>, pos: int, end: int) -> bool {
        &&& pos + 1 <= end
        &&& pos + 1 + data[pos] <= end
    }

    /// The bytes of the length-prefixed string starting at `pos`.
    pub open spec fn str_at(data: Seq<u8>, pos: int) -> Seq<u8> {
        data.subrange(pos + 1, pos + 1 + data[pos])
    }

    /// Consumes a length-prefixed string (one length byte, then that many
    /// bytes) and returns its bytes.
    pub fn read_str(&mut self) -> (r: Result<&'a [u8], Error>)
        requires
            old(self).wf(),
        ensures
            final(self).wf(),
            final(self).same_frame(old(self)),
            match r {
                Ok(b) => {
                    &&& Self::str_fits(old(self).data@, old(self).pos as int, old(self).end as int)
                    &&& b@ == Self::str_at(old(self).data@, old(self).pos as int)
                    &&& final(self).pos == old(self).pos + 1 + old(self).data@[old(self).pos as int]
                },
                Err(e) => {
                    &&& e == Error::Truncated
                    &&& !Self::str_fits(old(self).data@, old(self).pos as int, old(self).end as int)
                    &&& final(self).pos == old(self).pos
                },
            },
    {
        if self.end - self.pos < 1 {
            return Err(Error::Truncated);
        }
        let l = self.data[self.pos] as usize;
        if l > self.end - self.pos - 1 {
            return Err(Error::Truncated);
        }
        let b = slice_subrange(self.data, self.pos + 1, self.pos + 1 + l);
        self.pos = self.pos + 1 + l;
        Ok(b)
    }

    /// Length of the name field of the child chunk header at `pos`.
    pub open spec fn header_name_len(data: Seq<u8>, pos: int) -> int {
        data[pos] as int
    }

    /// First byte of the child chunk's body, past its header.
    pub open spec fn body_start(data: Seq<u8>, pos: int) -> int {
        pos + 1 + Self::header_name_len(data, pos) + 4
    }

    /// Declared byte count of the child chunk's body.
    pub open spec fn header_size(data: Seq<u8>, pos: int) -> int {
        spec_le32(data.subrange(Self::body_start(data, pos) - 4, Self::body_start(data, pos)))
    }

    /// Whether a whole child chunk (header and declared body) fits between
    /// `pos` and `end`.
    pub open spec fn child_fits(data: Seq<u8>, pos: int, end: int) -> bool {
        &&& pos + 1 <= end
        &&& Self::body_start(data, pos) + Self::header_size(data, pos) <= end
    }

    /// Descends into the next child chunk: returns a reader bounded to the
    /// child's declared extent, and advances this reader's cursor past the
    /// entire child regardless of how much the child reader consumes.
    pub fn enter(&mut self) -> (r: Result<Reader<'a>, Error>)
        requires
            old(self).wf(),
        ensures
            final(self).wf(),
            final(self).same_frame(old(self)),
            match r {
                Ok(child) => {
                    &&& Self::child_fits(
                        old(self).data@,
                        old(self).pos as int,
                        old(self).end as int,
                    )
                    &&& child.wf()
                    &&& child.data@ == old(self).data@
                    &&& child.name@ == Self::str_at(old(self).data@, old(self).pos as int)
                    &&& child.pos == Self::body_start(old(self).data@, old(self).pos as int)
                    &&& child.end == child.pos + Self::header_size(
                        old(self).data@,
                        old(self).pos as int,
                    )
                    &&& final(self).pos == child.end
                    &&& final(self).pos > old(self).pos
                },
                Err(e) => {
                    &&& e == Error::Truncated
                    &&& !Self::child_fits(
                        old(self).data@,
                        old(self).pos as int,
                        old(self).end as int,
                    )
                    &&& final(self).pos == old(self).pos
                },
            },
    {
        let saved: usize = self.pos;
        let name_b = match self.read_str() {
            Ok(b) => b,
            Err(e) => {
                return Err(e);
            },
        };
        let size = match self.read_u32() {
            Ok(s) => s,
            Err(e) => {
                self.pos = saved;
                return Err(e);
            },
        };
        let body: usize = self.pos;
        if size as usize > self.end - body {
            self.pos = saved;
            return Err(Error::Truncated);
        }
        let child_end: usize = body + size as usize;
        self.pos = child_end;
        Ok(Reader { data: self.data, pos: body, end: child_end, name: slice_to_vec(name_b) })
    }
}

/// True iff the byte sequence `b` spells exactly the ASCII string `s`.
pub fn tag_eq(b: &[u8], s: &str) -> (r: bool)
    ensures
        r == (b@ == s.spec_bytes()),
{
    let sb = s.as_bytes();
    if b.len() != sb.len() {
        return false;
    }
    let n = b.len();
    let mut i: usize = 0;
    while i < n
        invariant
            n == b@.len(),
            n == sb@.len(),
            sb@ == s.spec_bytes(),
            i <= n,
            forall|j: int| 0 <= j < i ==> b@[j] == sb@[j],
        decreases n - i,
    {
        if b[i] != sb[i] {
            assert(b@ != sb@);
            return false;
        }
        i += 1;
    }
    proof {
        assert(b@ =~= sb@);
    }
    true
}

/// A fresh owned copy of a byte vector.
pub fn copy_bytes(v: &Vec<u8>) -> (r: Vec<u8>)
    ensures
        r@ == v@,
{
    slice_to_vec(v.as_slice())
}

} // verus!
