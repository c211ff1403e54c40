use crate::text::{REQUEST_LEN, is_line};
use vstd::prelude::*;

verus! {

/// Assembles one request line from bytes read one at a time, into a buffer of `REQUEST_LEN`
/// bytes: each read stores the byte at the current length and moves the length on by the
/// number of bytes read; a newline ends the line, and a NUL byte is put behind it.
pub struct LineReader {
    buffer: [u8; REQUEST_LEN],
    len: usize,
    byte: u8,
    fresh: bool,
}

impl LineReader {
    /// The buffer, the length and the last byte fit together: the last byte may stand at the
    /// length, and every byte behind it is NUL.
    pub closed spec fn wf(&self) -> bool {
        &&& self.len <= REQUEST_LEN
        &&& self.fresh ==> self.len < REQUEST_LEN
        &&& !self.fresh ==> self.byte != 10
        &&& self.len < REQUEST_LEN ==> (self.buffer@[self.len as int] == 0
            || self.buffer@[self.len as int] == self.byte)
        &&& forall|k: int| self.len < k < REQUEST_LEN ==> #[trigger] self.buffer@[k] == 0
    }

    /// The bytes of the line read so far (none when the next read starts a line).
    pub closed spec fn pending(&self) -> Seq<u8> {
        if self.fresh {
            Seq::empty()
        } else {
            self.buffer@.take(self.len as int)
        }
    }

    /// The last byte read on this line (0 when the next read starts a line).
    pub closed spec fn last(&self) -> u8 {
        if self.fresh {
            0
        } else {
            self.byte
        }
    }

    /// Whether the next read starts a new line.
    pub closed spec fn at_line_start(&self) -> bool {
        self.fresh
    }

    /// The buffer as it stands.
    pub closed spec fn contents(&self) -> Seq<u8> {
        self.buffer@
    }

    /// The byte that a read of `n` bytes delivering `b` leaves in the one-byte read buffer.
    pub open spec fn next_byte(&self, n: usize, b: u8) -> u8 {
        if n == 1 {
            b
        } else {
            self.last()
        }
    }

    /// Storing the read stays inside the buffer, and so does the NUL behind a finished line.
    pub open spec fn can_feed(&self, n: usize, b: u8) -> bool {
        &&& n <= 1
        &&& self.pending().len() < REQUEST_LEN
        &&& self.next_byte(n, b) == 10 ==> self.pending().len() + n < REQUEST_LEN
    }

    /// The buffer as a read of `n` bytes delivering `b` leaves it when that read ends the
    /// line: the bytes of the line, then NUL bytes.
    pub open spec fn line_after(&self, n: usize, b: u8) -> Seq<u8> {
        let p = if n == 1 {
            self.pending().push(b)
        } else {
            self.pending()
        };
        p + Seq::new((REQUEST_LEN - p.len()) as nat, |k: int| 0u8)
    }

    /// A reader before the first read.
    pub fn new() -> (r: Self)
        ensures
            r.wf(),
            r.at_line_start(),
            r.pending() == Seq::<u8>::empty(),
            r.last() == 0,
    {
        LineReader { buffer: [0u8; REQUEST_LEN], len: 0, byte: 0, fresh: true }
    }

    /// Whether `feed(n, b)` stays inside the buffer.
    pub fn fits(&self, n: usize, b: u8) -> (r: bool)
        requires
            self.wf(),
        ensures
            r == self.can_feed(n, b),
    {
        let len = if self.fresh {
            0
        } else {
            self.len
        };
        let byte = if n == 1 {
            b
        } else if self.fresh {
            0
        } else {
            self.byte
        };
        n <= 1 && len < REQUEST_LEN && (byte != 10 || len + n < REQUEST_LEN)
    }

    /// Takes one read of `n` bytes (0 or 1) that delivered `b`. Returns the length of the line
    /// when this read ends it; the buffer then holds the line, and the next read starts anew.
    pub fn feed(&mut self, n: usize, b: u8) -> (r: Option<usize>)
        requires
            old(self).wf(),
            old(self).can_feed(n, b),
        ensures
            final(self).wf(),
            ({
                let p = if n == 1 {
                    old(self).pending().push(b)
                } else {
                    old(self).pending()
                };
                if old(self).next_byte(n, b) == 10 {
                    &&& r == Some(p.len() as usize)
                    &&& final(self).at_line_start()
                    &&& final(self).pending() == Seq::<u8>::empty()
                    &&& final(self).last() == 0
                    &&& is_line(final(self).contents(), p.len() as int)
                    &&& final(self).contents().take(p.len() as int) == p
                    &&& final(self).contents() == old(self).line_after(n, b)
                } else {
                    &&& r is None
                    &&& !final(self).at_line_start()
                    &&& final(self).pending() == p
                    &&& final(self).last() == old(self).next_byte(n, b)
                }
            }),
    {
        if self.fresh {
            self.buffer = [0u8; REQUEST_LEN];
            self.len = 0;
            self.byte = 0;
            self.fresh = false;
            assert(self.buffer@.take(0) =~= Seq::<u8>::empty());
        }
        let ghost p0 = self.buffer@.take(self.len as int);
        if n == 1 {
            self.byte = b;
        }
        let len = self.len;
        self.buffer[len] = self.byte;
        self.len = len + n;
        if n == 1 {
            assert(self.buffer@.take(self.len as int) =~= p0.push(b));
        } else {
            assert(self.buffer@.take(self.len as int) =~= p0);
        }
        if self.byte == 10 {
            let end = self.len;
            self.buffer[end] = 0;
            self.fresh = true;
            assert(self.buffer@.take(end as int) =~= old(self).pending().push(b));
            assert(self.buffer@ =~= old(self).line_after(n, b));
            Some(end)
        } else {
            None
        }
    }

    /// The last byte read on this line (0 when the next read starts a line).
    pub fn last_byte(&self) -> (r: u8)
        ensures
            r == self.last(),
    {
        if self.fresh {
            0
        } else {
            self.byte
        }
    }

    /// The buffer that `feed(n, b)` would leave when that read ends the line.
    pub fn peek_line(&self, n: usize, b: u8) -> (r: [u8; REQUEST_LEN])
        requires
            self.wf(),
            self.can_feed(n, b),
            self.next_byte(n, b) == 10,
        ensures
            r@ == self.line_after(n, b),
    {
        let mut line = if self.fresh {
            [0u8; REQUEST_LEN]
        } else {
            self.buffer
        };
        let len = if self.fresh {
            0
        } else {
            self.len
        };
        line[len] = b;
        line[len + 1] = 0;
        assert(line@ =~= self.line_after(n, b));
        line
    }

    /// The buffer, holding the last finished line while the next read has not come.
    pub fn buffer(&self) -> (r: &[u8; REQUEST_LEN])
        ensures
            r@ == self.contents(),
    {
        &self.buffer
    }
}

/// A reader at the start of a line has nothing pending and no last byte.
pub proof fn lemma_line_start(r: LineReader)
    requires
        r.at_line_start(),
    ensures
        r.pending() == Seq::<u8>::empty(),
        r.last() == 0,
{
}

/// A read that ends the line leaves a completed line in the buffer.
pub proof fn lemma_line_after_is_line(r: LineReader, n: usize, b: u8)
    requires
        r.wf(),
        r.can_feed(n, b),
        r.next_byte(n, b) == 10,
    ensures
        n == 1,
        is_line(r.line_after(n, b), (r.pending().len() + 1) as int),
{
    let p = r.pending().push(b);
    assert(r.line_after(n, b)[p.len() - 1] == p[p.len() - 1]);
}

} // verus!
