//! A byte source that knows how far it has been read.

use vstd::prelude::*;
use crate::nar::format::{spec_read_u64, NarError};

verus! {

/// The bytes of an archive and the current read position in them.
pub struct Teller {
    data: Vec<u8>,
    position: usize,
}

impl Teller {
    #[verifier::type_invariant]
    spec fn in_bounds(self) -> bool {
        self.position <= self.data.len()
    }

    /// All the bytes of the source, read or not.
    pub closed spec fn bytes(self) -> Seq<u8> {
        self.data@
    }

    /// How many bytes have been read.
    pub closed spec fn offset(self) -> int {
        self.position as int
    }

    /// The source is a vector, whose length is a machine integer.
    pub proof fn lemma_len_fits(self)
        ensures
            self.bytes().len() <= usize::MAX,
    {
        assert(self.data@.len() == self.data.len());
    }

    /// A source over `data`, with nothing read yet.
    pub fn new(data: Vec<u8>) -> (t: Teller)
        ensures
            t.bytes() == data@,
            t.offset() == 0,
    {
        Teller { data, position: 0 }
    }

    /// How many bytes have been read.
    pub fn position(&self) -> (p: u64)
        ensures
            p == self.offset(),
    {
        self.position as u64
    }

    /// How many bytes are left to read.
    pub fn remaining(&self) -> (n: usize)
        ensures
            n == self.bytes().len() - self.offset(),
    {
        proof {
            use_type_invariant(self);
        }
        self.data.len() - self.position
    }

    /// Reads an 8-byte little-endian integer.  A short read takes what was
    /// left and fails.
    pub fn read_u64_le(&mut self) -> (r: Result<u64, NarError>)
        ensures
            final(self).bytes() == old(self).bytes(),
            match r {
                Ok(v) => spec_read_u64(old(self).bytes(), old(self).offset()) == Ok::<_, NarError>(
                    (v, final(self).offset()),
                ),
                Err(e) => spec_read_u64(old(self).bytes(), old(self).offset()) == Err::<
                    (u64, int),
                    _,
                >(e) && final(self).offset() == old(self).bytes().len(),
            },
    {
        proof {
            use_type_invariant(&*self);
        }
        if self.data.len() - self.position < 8 {
            self.position = self.data.len();
            return Err(NarError::UnexpectedEof);
        }
        let p = self.position;
        let ghost field = self.data@.subrange(p as int, p + 8);
        let b0 = self.data[p] as u64;
        let b1 = self.data[p + 1] as u64;
        let b2 = self.data[p + 2] as u64;
        let b3 = self.data[p + 3] as u64;
        let b4 = self.data[p + 4] as u64;
        let b5 = self.data[p + 5] as u64;
        let b6 = self.data[p + 6] as u64;
        let b7 = self.data[p + 7] as u64;
        assert(b0 == field[0] && b1 == field[1] && b2 == field[2] && b3 == field[3] && b4
            == field[4] && b5 == field[5] && b6 == field[6] && b7 == field[7]);
        let v = b0 + 0x100 * b1 + 0x1_0000 * b2 + 0x100_0000 * b3 + 0x1_0000_0000 * b4
            + 0x100_0000_0000 * b5 + 0x1_0000_0000_0000 * b6 + 0x100_0000_0000_0000 * b7;
        self.position = p + 8;
        Ok(v)
    }

    /// Reads exactly `n` bytes.  A short read takes what was left and fails.
    pub fn read_exact(&mut self, n: usize) -> (r: Result<Vec<u8>, NarError>)
        ensures
            final(self).bytes() == old(self).bytes(),
            match r {
                Ok(v) => {
                    &&& old(self).offset() + n <= old(self).bytes().len()
                    &&& v@ == old(self).bytes().subrange(old(self).offset(), old(self).offset() + n)
                    &&& final(self).offset() == old(self).offset() + n
                },
                Err(e) => {
                    &&& old(self).offset() + n > old(self).bytes().len()
                    &&& e == NarError::UnexpectedEof
                    &&& final(self).offset() == old(self).bytes().len()
                },
            },
    {
        proof {
            use_type_invariant(&*self);
        }
        if self.data.len() - self.position < n {
            self.position = self.data.len();
            return Err(NarError::UnexpectedEof);
        }
        let start = self.position;
        let mut out: Vec<u8> = Vec::with_capacity(n);
        let mut i: usize = 0;
        while i < n
            invariant
                i <= n,
                start + n <= self.data.len(),
                out@ == self.data@.subrange(start as int, start + i),
            decreases n - i,
        {
            out.push(self.data[start + i]);
            i = i + 1;
        }
        self.position = start + n;
        Ok(out)
    }

    /// Discards bytes up to `position`.  A short read takes what was left and
    /// fails.
    pub fn skip_to(&mut self, position: u64) -> (r: Result<(), NarError>)
        requires
            position >= old(self).offset(),
        ensures
            final(self).bytes() == old(self).bytes(),
            match r {
                Ok(()) => position <= old(self).bytes().len() && final(self).offset() == position,
                Err(e) => {
                    &&& position > old(self).bytes().len()
                    &&& e == NarError::UnexpectedEof
                    &&& final(self).offset() == old(self).bytes().len()
                },
            },
    {
        proof {
            use_type_invariant(&*self);
        }
        if position > self.data.len() as u64 {
            self.position = self.data.len();
            return Err(NarError::UnexpectedEof);
        }
        self.position = position as usize;
        Ok(())
    }
}

} // verus!
