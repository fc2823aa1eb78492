use vstd::prelude::*;

verus! {

/// The size of each log buffer of a logger made by default.
pub const DEFAULT_BUFFER_SIZE: usize = 67108864;

/// The longest log entry.
pub const MAX_LOG_LEN: usize = 512;

/// The alignment of the log buffers.
pub const MIN_BUFF_ALIGN: usize = 512;

/// The number of log buffers.
pub const LOG_BUFFER_CNT: usize = 2;

/// What the flushing side does next.
#[derive(Debug, Clone, Copy, PartialEq, Eq, Structural)]
pub enum FlushStep {
    /// The buffer being filled is not full; the log has reached this offset.
    Wait(usize),
    /// This buffer is full: write it to the log file, then call `finish_flush`.
    Flush(usize),
}

/// Where a log entry goes: a buffer, and an offset in it.
#[derive(Debug, Clone, Copy, PartialEq, Eq, Structural)]
pub struct LogSlot {
    pub buffer_id: usize,
    pub offset: usize,
}

/// The logger: log entries are appended, in the order of their slots, to two buffers used
/// in turn; a full buffer is written to the log file (`raw_file`) while the other one fills.
/// The offsets count every byte logged so far.
pub struct Logger {
    lsn: usize,
    cur_offset: usize,
    flushed_offset: usize,
    buffer_size: usize,
    should_stop: bool,
    raw_file: i32,
    buffer0: Vec<u8>,
    buffer1: Vec<u8>,
}

impl Logger {
    pub closed spec fn spec_lsn(&self) -> usize {
        self.lsn
    }

    pub closed spec fn spec_cur_offset(&self) -> usize {
        self.cur_offset
    }

    pub closed spec fn spec_flushed_offset(&self) -> usize {
        self.flushed_offset
    }

    pub closed spec fn spec_buffer_size(&self) -> usize {
        self.buffer_size
    }

    pub closed spec fn spec_should_stop(&self) -> bool {
        self.should_stop
    }

    pub closed spec fn spec_raw_file(&self) -> i32 {
        self.raw_file
    }

    /// The bytes of buffer `id`.
    pub closed spec fn spec_buffer(&self, id: int) -> Seq<u8> {
        if id == 0 {
            self.buffer0@
        } else {
            self.buffer1@
        }
    }

    /// The buffers have the logger's buffer size, and the flushed offset is a whole number
    /// of buffers, not past the log's end.
    pub open spec fn wf(&self) -> bool {
        &&& self.spec_buffer_size() > 0
        &&& self.spec_buffer(0).len() == self.spec_buffer_size()
        &&& self.spec_buffer(1).len() == self.spec_buffer_size()
        &&& self.spec_flushed_offset() <= self.spec_cur_offset()
        &&& self.spec_flushed_offset() % self.spec_buffer_size() == 0
    }

    /// The buffer that the byte at `offset` of the log goes to.
    pub open spec fn buffer_of(&self, offset: int) -> int {
        (offset / self.spec_buffer_size() as int) % LOG_BUFFER_CNT as int
    }

    /// A logger on the open log file `raw_file`, with two zeroed buffers of `buffer_size`
    /// bytes and nothing logged.
    pub fn with_file(buffer_size: usize, raw_file: i32) -> (r: Self)
        requires
            buffer_size > 0,
        ensures
            r.wf(),
            r.spec_lsn() == 0,
            r.spec_cur_offset() == 0,
            r.spec_flushed_offset() == 0,
            r.spec_buffer_size() == buffer_size,
            !r.spec_should_stop(),
            r.spec_raw_file() == raw_file,
            r.spec_buffer(0) == Seq::new(buffer_size as nat, |i: int| 0u8),
            r.spec_buffer(1) == Seq::new(buffer_size as nat, |i: int| 0u8),
    {
        let buffer0 = zeroed(buffer_size);
        let buffer1 = zeroed(buffer_size);
        Logger {
            lsn: 0,
            cur_offset: 0,
            flushed_offset: 0,
            buffer_size,
            should_stop: false,
            raw_file,
            buffer0,
            buffer1,
        }
    }

    /// Reserve a slot in the log file: the next log sequence number (the count wraps).
    pub fn acquire_lsn(&mut self) -> (r: usize)
        ensures
            r == old(self).spec_lsn(),
            final(self).spec_lsn() == (if old(self).spec_lsn() == usize::MAX {
                0
            } else {
                old(self).spec_lsn() + 1
            }),
            final(self).spec_cur_offset() == old(self).spec_cur_offset(),
            final(self).spec_flushed_offset() == old(self).spec_flushed_offset(),
            final(self).spec_buffer_size() == old(self).spec_buffer_size(),
            final(self).spec_should_stop() == old(self).spec_should_stop(),
            final(self).spec_raw_file() == old(self).spec_raw_file(),
            final(self).spec_buffer(0) == old(self).spec_buffer(0),
            final(self).spec_buffer(1) == old(self).spec_buffer(1),
    {
        let r = self.lsn;
        self.lsn = self.lsn.wrapping_add(1);
        r
    }

    /// What the flushing side does next: wait while less than a buffer is filled past the
    /// flushed offset, otherwise flush the buffer at the flushed offset. The filled part
    /// must be less than both buffers ("the logging device can't keep up" otherwise).
    pub fn flush_step(&self) -> (r: FlushStep)
        requires
            self.wf(),
            self.spec_cur_offset() - self.spec_flushed_offset() < self.spec_buffer_size()
                * LOG_BUFFER_CNT,
        ensures
            self.spec_cur_offset() - self.spec_flushed_offset() < self.spec_buffer_size() ==> r
                == FlushStep::Wait(self.spec_cur_offset()),
            self.spec_cur_offset() - self.spec_flushed_offset() >= self.spec_buffer_size() ==> r
                == FlushStep::Flush(self.buffer_of(self.spec_flushed_offset() as int) as usize),
    {
        let cur_offset = self.cur_offset;
        let flushed = self.flushed_offset;
        let distance = cur_offset - flushed;
        if distance < self.buffer_size {
            return FlushStep::Wait(cur_offset);
        }
        let buffer_id = (flushed / self.buffer_size) % LOG_BUFFER_CNT;
        FlushStep::Flush(buffer_id)
    }

    /// The buffer at the flushed offset was written: the flushed offset moves on by a
    /// buffer, and its old value comes back.
    pub fn finish_flush(&mut self) -> (r: usize)
        requires
            old(self).wf(),
            old(self).spec_cur_offset() - old(self).spec_flushed_offset() >= old(
                self,
            ).spec_buffer_size(),
        ensures
            final(self).wf(),
            r == old(self).spec_flushed_offset(),
            final(self).spec_flushed_offset() == old(self).spec_flushed_offset() + old(
                self,
            ).spec_buffer_size(),
            final(self).spec_lsn() == old(self).spec_lsn(),
            final(self).spec_cur_offset() == old(self).spec_cur_offset(),
            final(self).spec_buffer_size() == old(self).spec_buffer_size(),
            final(self).spec_should_stop() == old(self).spec_should_stop(),
            final(self).spec_raw_file() == old(self).spec_raw_file(),
            final(self).spec_buffer(0) == old(self).spec_buffer(0),
            final(self).spec_buffer(1) == old(self).spec_buffer(1),
    {
        let r = self.flushed_offset;
        self.flushed_offset = self.flushed_offset + self.buffer_size;
        proof {
            let b = self.buffer_size as int;
            assert((r as int + b) % b == 0) by {
                vstd::arithmetic::div_mod::lemma_mod_add_multiples_vanish(r as int, b);
            }
        }
        r
    }

    /// Reserves `size` bytes of the log: the slot is in the buffer of the log's end, at the
    /// end's offset within that buffer; the entry must fit the rest of that buffer.
    pub fn acquire_log_buffer(&mut self, size: usize) -> (r: LogSlot)
        requires
            old(self).wf(),
            size <= MAX_LOG_LEN,
            old(self).spec_cur_offset() + size <= usize::MAX,
            old(self).spec_cur_offset() % old(self).spec_buffer_size() + size <= old(
                self,
            ).spec_buffer_size(),
        ensures
            final(self).wf(),
            r.buffer_id == old(self).buffer_of(old(self).spec_cur_offset() as int),
            r.offset == old(self).spec_cur_offset() % old(self).spec_buffer_size(),
            r.buffer_id < LOG_BUFFER_CNT,
            r.offset + size <= old(self).spec_buffer_size(),
            final(self).spec_cur_offset() == old(self).spec_cur_offset() + size,
            final(self).spec_lsn() == old(self).spec_lsn(),
            final(self).spec_flushed_offset() == old(self).spec_flushed_offset(),
            final(self).spec_buffer_size() == old(self).spec_buffer_size(),
            final(self).spec_should_stop() == old(self).spec_should_stop(),
            final(self).spec_raw_file() == old(self).spec_raw_file(),
            final(self).spec_buffer(0) == old(self).spec_buffer(0),
            final(self).spec_buffer(1) == old(self).spec_buffer(1),
    {
        let loc = self.cur_offset;
        self.cur_offset = self.cur_offset + size;
        let offset = loc % self.buffer_size;
        let buffer_id = (loc / self.buffer_size) % LOG_BUFFER_CNT;
        LogSlot { buffer_id, offset }
    }

    /// The transaction thread appends a log entry: it goes into its slot (see
    /// `acquire_log_buffer`), and the rest of the buffers stay as they were.
    pub fn append_log(&mut self, val: &[u8])
        requires
            old(self).wf(),
            val@.len() <= MAX_LOG_LEN,
            old(self).spec_cur_offset() + val@.len() <= usize::MAX,
            old(self).spec_cur_offset() % old(self).spec_buffer_size() + val@.len() <= old(
                self,
            ).spec_buffer_size(),
        ensures
            final(self).wf(),
            final(self).spec_cur_offset() == old(self).spec_cur_offset() + val@.len(),
            ({
                let id = old(self).buffer_of(old(self).spec_cur_offset() as int);
                let off = old(self).spec_cur_offset() % old(self).spec_buffer_size();
                let buf = old(self).spec_buffer(id);
                &&& final(self).spec_buffer(id) == buf.subrange(0, off as int) + val@
                    + buf.subrange(off + val@.len(), buf.len() as int)
                &&& final(self).spec_buffer(1 - id) == old(self).spec_buffer(1 - id)
            }),
            final(self).spec_lsn() == old(self).spec_lsn(),
            final(self).spec_flushed_offset() == old(self).spec_flushed_offset(),
            final(self).spec_buffer_size() == old(self).spec_buffer_size(),
            final(self).spec_should_stop() == old(self).spec_should_stop(),
            final(self).spec_raw_file() == old(self).spec_raw_file(),
    {
        let slot = self.acquire_log_buffer(val.len());
        let ghost before = self.spec_buffer(slot.buffer_id as int);
        let ghost other = self.spec_buffer(1 - slot.buffer_id as int);
        let mut i: usize = 0;
        while i < val.len()
            invariant
                0 <= i <= val@.len(),
                slot.buffer_id < LOG_BUFFER_CNT,
                slot.offset + val@.len() <= self.buffer_size,
                self.buffer_size > 0,
                before.len() == self.buffer_size,
                self.spec_buffer(slot.buffer_id as int).len() == self.buffer_size,
                self.spec_buffer(1 - slot.buffer_id as int) == other,
                forall|j: int|
                    0 <= j < self.buffer_size ==> #[trigger] self.spec_buffer(
                        slot.buffer_id as int,
                    )[j] == if slot.offset <= j < slot.offset + i {
                        val@[j - slot.offset]
                    } else {
                        before[j]
                    },
                self.lsn == old(self).spec_lsn(),
                self.cur_offset == old(self).spec_cur_offset() + val@.len(),
                self.flushed_offset == old(self).spec_flushed_offset(),
                self.should_stop == old(self).spec_should_stop(),
                self.raw_file == old(self).spec_raw_file(),
                self.flushed_offset <= self.cur_offset,
                self.flushed_offset % self.buffer_size == 0,
            decreases val@.len() - i,
        {
            if slot.buffer_id == 0 {
                self.buffer0.set(slot.offset + i, val[i]);
            } else {
                self.buffer1.set(slot.offset + i, val[i]);
            }
            i += 1;
        }
        proof {
            let id = slot.buffer_id as int;
            let off = slot.offset as int;
            assert(self.spec_buffer(id) =~= before.subrange(0, off) + val@ + before.subrange(
                off + val@.len(),
                before.len() as int,
            ));
        }
    }

    pub fn stop_logger(&mut self)
        ensures
            final(self).spec_should_stop(),
            final(self).spec_lsn() == old(self).spec_lsn(),
            final(self).spec_cur_offset() == old(self).spec_cur_offset(),
            final(self).spec_flushed_offset() == old(self).spec_flushed_offset(),
            final(self).spec_buffer_size() == old(self).spec_buffer_size(),
            final(self).spec_raw_file() == old(self).spec_raw_file(),
            final(self).spec_buffer(0) == old(self).spec_buffer(0),
            final(self).spec_buffer(1) == old(self).spec_buffer(1),
    {
        self.should_stop = true;
    }

    /// Whether the flushing side should stop.
    pub fn should_stop(&self) -> (r: bool)
        ensures
            r == self.spec_should_stop(),
    {
        self.should_stop
    }

    pub fn lsn(&self) -> (r: usize)
        ensures
            r == self.spec_lsn(),
    {
        self.lsn
    }

    /// The offset of the log's end.
    pub fn cur_offset(&self) -> (r: usize)
        ensures
            r == self.spec_cur_offset(),
    {
        self.cur_offset
    }

    /// The offset up to which the log was written to the file.
    pub fn flushed_offset(&self) -> (r: usize)
        ensures
            r == self.spec_flushed_offset(),
    {
        self.flushed_offset
    }

    pub fn buffer_size(&self) -> (r: usize)
        ensures
            r == self.spec_buffer_size(),
    {
        self.buffer_size
    }

    /// The log file the buffers are written to.
    pub fn raw_file(&self) -> (r: i32)
        ensures
            r == self.spec_raw_file(),
    {
        self.raw_file
    }

    /// The bytes of buffer `id`.
    pub fn buffer(&self, id: usize) -> (r: &[u8])
        requires
            id < LOG_BUFFER_CNT,
        ensures
            r@ == self.spec_buffer(id as int),
    {
        if id == 0 {
            self.buffer0.as_slice()
        } else {
            self.buffer1.as_slice()
        }
    }

    /// When the flushing side waits, every full buffer has been flushed: the flushed offset
    /// is the log's end rounded down to whole buffers.
    pub proof fn lemma_wait_means_flushed(&self)
        requires
            self.wf(),
            self.spec_cur_offset() - self.spec_flushed_offset() < self.spec_buffer_size(),
        ensures
            self.spec_flushed_offset() == self.spec_cur_offset() as int / self.spec_buffer_size() as int
                * self.spec_buffer_size() as int,
    {
        let b = self.spec_buffer_size() as int;
        let f = self.spec_flushed_offset() as int;
        let c = self.spec_cur_offset() as int;
        vstd::arithmetic::div_mod::lemma_fundamental_div_mod(f, b);
        let q = f / b;
        assert(f == b * q);
        assert(c == b * q + (c - f));
        vstd::arithmetic::div_mod::lemma_fundamental_div_mod_converse(c, b, q, c - f);
        vstd::arithmetic::mul::lemma_mul_is_commutative(q, b);
    }
}

/// `n` zero bytes.
fn zeroed(n: usize) -> (r: Vec<u8>)
    ensures
        r@ == Seq::new(n as nat, |i: int| 0u8),
{
    let mut v: Vec<u8> = Vec::new();
    let mut i: usize = 0;
    while i < n
        invariant
            0 <= i <= n,
            v@ == Seq::new(i as nat, |j: int| 0u8),
        decreases n - i,
    {
        v.push(0u8);
        i += 1;
    }
    v
}

} // verus!
