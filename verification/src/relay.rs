use vstd::prelude::*;

verus! {

/// Size of the buffer that one read fills.
pub const CHUNK: usize = 4096;

/// What the relay asks for next.
#[derive(Clone, Copy, Debug, PartialEq, Eq, Structural)]
pub enum Step {
    /// Read up to `CHUNK` bytes from the source.
    Read,
    /// Write the first `len` bytes of the buffer to the destination.
    Write(usize),
    /// The relay is over.
    Stop,
}

/// Copies from one stream to another, one read at a time. Every read is followed by writes of
/// the whole read, each from the start of the buffer, until the bytes written add up to the
/// bytes read or a write takes none. With a limit, a running count grows after each write by
/// the bytes written so far for the current read, and no read starts once the count has
/// reached the limit; without one, only a read of nothing ends the relay.
pub struct Relay {
    limit: Option<usize>,
    current: usize,
    bytes: usize,
    chunk: usize,
    writing: bool,
    stopped: bool,
}

impl Relay {
    /// The last read fits the buffer, a write is pending only while the read is not all
    /// written, and without a limit the count stays 0.
    pub closed spec fn wf(&self) -> bool {
        &&& self.bytes <= CHUNK
        &&& self.writing ==> self.chunk < self.bytes
        &&& self.limit is None ==> self.current == 0
        &&& !(self.writing && self.stopped)
    }

    /// The limit, if any.
    pub closed spec fn limit(&self) -> Option<usize> {
        self.limit
    }

    /// The running count.
    pub closed spec fn current(&self) -> usize {
        self.current
    }

    /// Bytes of the last read.
    pub closed spec fn bytes(&self) -> usize {
        self.bytes
    }

    /// Bytes written so far for the last read.
    pub closed spec fn chunk(&self) -> usize {
        self.chunk
    }

    /// Writing out the last read.
    pub closed spec fn writing(&self) -> bool {
        self.writing
    }

    /// A read of nothing has ended the relay.
    pub closed spec fn stopped(&self) -> bool {
        self.stopped
    }

    /// The step that `next` returns.
    pub open spec fn next_step(&self) -> Step {
        if self.stopped() {
            Step::Stop
        } else if self.writing() {
            Step::Write(self.bytes())
        } else if self.limit() matches Some(t) && self.current() >= t {
            Step::Stop
        } else {
            Step::Read
        }
    }

    /// A write of `sent` bytes keeps the running count inside `usize`.
    pub open spec fn can_write(&self, sent: usize) -> bool {
        &&& sent <= self.bytes()
        &&& self.limit() is Some ==> self.current() + self.chunk() + sent <= usize::MAX
    }

    /// A relay that stops once the running count reaches `total`.
    pub fn with_limit(total: usize) -> (r: Self)
        ensures
            r.wf(),
            r.limit() == Some(total),
            r.current() == 0,
            !r.writing(),
            !r.stopped(),
    {
        Relay { limit: Some(total), current: 0, bytes: 0, chunk: 0, writing: false, stopped: false }
    }

    /// A relay that runs until a read gives nothing.
    pub fn unlimited() -> (r: Self)
        ensures
            r.wf(),
            r.limit() is None,
            r.current() == 0,
            !r.writing(),
            !r.stopped(),
    {
        Relay { limit: None, current: 0, bytes: 0, chunk: 0, writing: false, stopped: false }
    }

    /// What to do next.
    pub fn next(&self) -> (s: Step)
        requires
            self.wf(),
        ensures
            s == self.next_step(),
    {
        if self.stopped {
            Step::Stop
        } else if self.writing {
            Step::Write(self.bytes)
        } else {
            match self.limit {
                Some(t) => {
                    if self.current >= t {
                        Step::Stop
                    } else {
                        Step::Read
                    }
                },
                None => Step::Read,
            }
        }
    }

    /// A read asked for by `next` gave `n` bytes.
    pub fn read_done(&mut self, n: usize)
        requires
            old(self).wf(),
            old(self).next_step() is Read,
            n <= CHUNK,
        ensures
            final(self).wf(),
            final(self).limit() == old(self).limit(),
            final(self).current() == old(self).current(),
            n == 0 ==> final(self).stopped() && !final(self).writing(),
            n > 0 ==> {
                &&& !final(self).stopped()
                &&& final(self).writing()
                &&& final(self).bytes() == n
                &&& final(self).chunk() == 0
            },
    {
        if n == 0 {
            self.stopped = true;
        } else {
            self.bytes = n;
            self.chunk = 0;
            self.writing = true;
        }
    }

    /// Whether `write_done(sent)` may be called.
    pub fn write_fits(&self, sent: usize) -> (r: bool)
        requires
            self.wf(),
        ensures
            r == self.can_write(sent),
    {
        if sent > self.bytes {
            return false;
        }
        match self.limit {
            Some(_) => self.chunk <= usize::MAX - self.current && sent <= usize::MAX - self.current
                - self.chunk,
            None => true,
        }
    }

    /// A write asked for by `next` took `sent` bytes.
    pub fn write_done(&mut self, sent: usize)
        requires
            old(self).wf(),
            old(self).next_step() is Write,
            old(self).can_write(sent),
        ensures
            final(self).wf(),
            final(self).limit() == old(self).limit(),
            final(self).bytes() == old(self).bytes(),
            !final(self).stopped(),
            sent == 0 ==> !final(self).writing() && final(self).current() == old(self).current(),
            sent > 0 ==> {
                let chunk = old(self).chunk() + sent;
                &&& final(self).chunk() == chunk
                &&& final(self).current() == if old(self).limit() is Some {
                    old(self).current() + chunk
                } else {
                    0
                }
                &&& final(self).writing() == (chunk < old(self).bytes())
            },
    {
        if sent == 0 {
            self.writing = false;
        } else {
            self.chunk = self.chunk + sent;
            if self.limit.is_some() {
                self.current = self.current + self.chunk;
            }
            self.writing = self.chunk < self.bytes;
        }
    }
}

/// What a relay asks for: nothing once a read gave nothing; the rest of the last read while it
/// is not all written; otherwise a read, unless a limit is set and the count has reached it
/// (reaching it exactly is enough).
pub proof fn lemma_relay_steps(r: Relay)
    ensures
        r.stopped() ==> r.next_step() == Step::Stop,
        !r.stopped() && r.writing() ==> r.next_step() == Step::Write(r.bytes()),
        !r.stopped() && !r.writing() && r.limit() is None ==> r.next_step() == Step::Read,
        !r.stopped() && !r.writing() && r.limit() is Some ==> (r.next_step() == Step::Stop
            <==> r.current() >= r.limit()->Some_0),
        !r.stopped() && !r.writing() && r.limit() is Some ==> (r.next_step() == Step::Read
            <==> r.current() < r.limit()->Some_0),
{
}

/// A write can never take more than the read, and without a limit any such write is
/// allowed.
pub proof fn lemma_relay_writes(r: Relay, sent: usize)
    ensures
        sent > r.bytes() ==> !r.can_write(sent),
        sent <= r.bytes() && r.limit() is None ==> r.can_write(sent),
{
}

} // verus!
