//! Sequential reading from a stream of downloaded chunks. A reader asks for
//! a number of bytes at the position where the last read ended, takes chunks
//! until it has them, and keeps what is left of the last chunk for the next
//! read.

use crate::error::Error;
use vstd::prelude::*;

verus! {

/// Appends `src[from..to]` to `dst`.
fn append(dst: &mut Vec<u8>, src: &[u8], from: usize, to: usize)
    requires
        from <= to <= src@.len(),
    ensures
        final(dst)@ == old(dst)@ + src@.subrange(from as int, to as int),
{
    let mut i: usize = from;
    while i < to
        invariant
            from <= i <= to <= src@.len(),
            dst@ == old(dst)@ + src@.subrange(from as int, i as int),
        decreases to - i,
    {
        dst.push(src[i]);
        assert(dst@ =~= old(dst)@ + src@.subrange(from as int, i + 1));
        i += 1;
    }
    assert(dst@ =~= old(dst)@ + src@.subrange(from as int, to as int));
}

/// How many of `have` bytes a reader takes that still lacks `need`.
pub open spec fn taken(need: int, have: int) -> int {
    if have <= need {
        have
    } else {
        need
    }
}

/// A reader of a stream: its position, the read in progress, and the
/// bytes that came in and were not read yet.
pub struct StreamState {
    current_pos: u64,
    /// What is left of the last chunk.
    buffer: Vec<u8>,
    reading: bool,
    want: usize,
    got: Vec<u8>,
    received: Ghost<Seq<u8>>,
}

impl StreamState {
    /// What was handed in is what was read, then what is gathered, then
    /// what is pending; and a read in progress that still lacks bytes has
    /// nothing pending.
    pub closed spec fn wf(&self) -> bool {
        let used = self.current_pos + self.got@.len();
        &&& self.received@.len() == used + self.buffer@.len()
        &&& self.received@.subrange(self.current_pos as int, used) == self.got@
        &&& self.received@.skip(used) == self.buffer@
        &&& self.got@.len() <= self.want
        &&& self.reading ==> self.current_pos + self.want <= u64::MAX
        &&& self.reading && self.got@.len() < self.want ==> self.buffer@.len() == 0
        &&& !self.reading ==> self.got@.len() == 0 && self.want == 0
    }

    /// The position at which the next read must start.
    pub closed spec fn position(&self) -> u64 {
        self.current_pos
    }

    /// All bytes that were handed in so far, in their order.
    pub closed spec fn received(&self) -> Seq<u8> {
        self.received@
    }

    /// Whether a read has begun and not ended.
    pub closed spec fn reading(&self) -> bool {
        self.reading
    }

    /// The size of the read in progress.
    pub closed spec fn wanted(&self) -> usize {
        self.want
    }

    /// The bytes gathered for the read in progress.
    pub closed spec fn gathered(&self) -> Seq<u8> {
        self.got@
    }

    /// The bytes handed in and not yet read or gathered.
    pub closed spec fn pending(&self) -> Seq<u8> {
        self.buffer@
    }

    /// The bytes gathered are those that follow the position in what was
    /// handed in, and the pending bytes are the rest.
    pub proof fn lemma_layout(&self)
        requires
            self.wf(),
        ensures
            self.received().len() == self.position() + self.gathered().len()
                + self.pending().len(),
            self.gathered() == self.received().subrange(
                self.position() as int,
                self.position() + self.gathered().len(),
            ),
            self.pending() == self.received().skip(self.position() + self.gathered().len()),
            self.gathered().len() <= self.wanted(),
            !self.reading() ==> self.gathered().len() == 0,
    {
    }

    /// A stream at position 0 into which nothing was handed yet.
    pub fn new() -> (state: Self)
        ensures
            state.wf(),
            state.position() == 0,
            state.received() == Seq::<u8>::empty(),
            !state.reading(),
    {
        let state = StreamState {
            current_pos: 0,
            buffer: Vec::new(),
            reading: false,
            want: 0,
            got: Vec::new(),
            received: Ghost(Seq::empty()),
        };
        assert(state.received@.subrange(0, 0) =~= state.got@);
        assert(state.received@.skip(0) =~= state.buffer@);
        state
    }

    /// The position at which the next read must start.
    pub fn current_pos(&self) -> (pos: u64)
        ensures
            pos == self.position(),
    {
        self.current_pos
    }

    /// Begins a read of `size` bytes at `offset`. Only a read at the current
    /// position is taken; it first takes what is pending.
    pub fn begin_read(&mut self, offset: u64, size: usize) -> (res: Result<(), Error>)
        requires
            old(self).wf(),
            !old(self).reading(),
            offset + size <= u64::MAX,
        ensures
            final(self).wf(),
            final(self).position() == old(self).position(),
            final(self).received() == old(self).received(),
            offset != old(self).position() ==> res == Err::<(), Error>(
                Error::NonsequentialRead { current_pos: old(self).position(), try_offset: offset },
            ) && !final(self).reading(),
            offset == old(self).position() ==> res is Ok && final(self).reading() && final(self).wanted() == size && final(self).gathered().len() == taken(
                size as int,
                old(self).pending().len() as int,
            ),
    {
        if offset != self.current_pos {
            return Err(
                Error::NonsequentialRead { current_pos: self.current_pos, try_offset: offset },
            );
        }
        let have = self.buffer.len();
        let k = if have <= size {
            have
        } else {
            size
        };
        let mut got: Vec<u8> = Vec::new();
        let mut rest: Vec<u8> = Vec::new();
        append(&mut got, self.buffer.as_slice(), 0, k);
        append(&mut rest, self.buffer.as_slice(), k, have);
        proof {
            let used = self.current_pos + k;
            assert(self.received@.subrange(self.current_pos as int, used) =~= got@);
            assert(self.received@.skip(used) =~= rest@);
        }
        self.got = got;
        self.buffer = rest;
        self.want = size;
        self.reading = true;
        Ok(())
    }

    /// Whether the read in progress still lacks bytes.
    pub fn needs_chunk(&self) -> (more: bool)
        requires
            self.wf(),
        ensures
            more == (self.reading() && self.gathered().len() < self.wanted()),
    {
        self.reading && self.got.len() < self.want
    }

    /// Hands the next chunk of the download in. The read in progress takes
    /// what it lacks, and the rest stays pending.
    pub fn accept_chunk(&mut self, chunk: &[u8])
        requires
            old(self).wf(),
        ensures
            final(self).wf(),
            final(self).position() == old(self).position(),
            final(self).reading() == old(self).reading(),
            final(self).wanted() == old(self).wanted(),
            final(self).received() == old(self).received() + chunk@,
            final(self).gathered().len() == old(self).gathered().len() + (if old(self).pending().len() == 0 {
                taken(old(self).wanted() - old(self).gathered().len(), chunk@.len() as int)
            } else {
                0
            }),
    {
        let n = chunk.len();
        let k = if self.buffer.len() > 0 {
            0
        } else if n <= self.want - self.got.len() {
            n
        } else {
            self.want - self.got.len()
        };
        let ghost used = self.current_pos + self.got@.len();
        let ghost before = self.received@;
        append(&mut self.got, chunk, 0, k);
        append(&mut self.buffer, chunk, k, n);
        proof {
            self.received@ = before + chunk@;
            let all = self.received@;
            assert(all.subrange(self.current_pos as int, used + k) =~= self.got@);
            assert(all.skip(used + k) =~= self.buffer@);
        }
    }

    /// Ends the read in progress. It yields the bytes that follow the old
    /// position in the stream if all that were asked for have come, and
    /// fails if the download ended early. The position moves past the bytes
    /// that were gathered either way.
    pub fn end_read(&mut self, file_size: u64) -> (res: Result<Vec<u8>, Error>)
        requires
            old(self).wf(),
            old(self).reading(),
        ensures
            final(self).wf(),
            !final(self).reading(),
            final(self).received() == old(self).received(),
            final(self).pending() == old(self).pending(),
            final(self).position() == old(self).position() + old(self).gathered().len(),
            match res {
                Ok(bytes) => {
                    &&& old(self).gathered().len() == old(self).wanted()
                    &&& bytes@ == old(self).received().subrange(
                        old(self).position() as int,
                        old(self).position() + old(self).wanted(),
                    )
                },
                Err(e) => {
                    &&& old(self).gathered().len() < old(self).wanted()
                    &&& e == Error::UnexpectedEndOfDownload {
                        current_pos: final(self).position(),
                        file_size,
                    }
                },
            },
    {
        let mut bytes: Vec<u8> = Vec::new();
        std::mem::swap(&mut bytes, &mut self.got);
        let complete = bytes.len() == self.want;
        self.current_pos = self.current_pos + bytes.len() as u64;
        self.want = 0;
        self.reading = false;
        proof {
            assert(self.received@.subrange(self.current_pos as int, self.current_pos as int)
                =~= self.got@);
        }
        if complete {
            Ok(bytes)
        } else {
            Err(Error::UnexpectedEndOfDownload { current_pos: self.current_pos, file_size })
        }
    }
}

/// The bytes that consecutive reads of the given sizes yield from `source`,
/// the first of them starting at `start`, one after the other.
pub open spec fn reads_from(source: Seq<u8>, start: int, sizes: Seq<nat>) -> Seq<u8>
    decreases sizes.len(),
{
    if sizes.len() == 0 {
        Seq::empty()
    } else {
        source.subrange(start, start + sizes[0]) + reads_from(
            source,
            start + sizes[0],
            sizes.drop_first(),
        )
    }
}

/// The sum of the sizes.
pub open spec fn total(sizes: Seq<nat>) -> nat
    decreases sizes.len(),
{
    if sizes.len() == 0 {
        0
    } else {
        sizes[0] + total(sizes.drop_first())
    }
}

/// Reads that follow one another yield, put together, the stretch of the
/// source that they cover: the whole source, when they start at 0 and their
/// sizes add up to its length.
pub proof fn lemma_sequential_reads(source: Seq<u8>, start: int, sizes: Seq<nat>)
    requires
        0 <= start,
        start + total(sizes) <= source.len(),
    ensures
        reads_from(source, start, sizes) == source.subrange(start, start + total(sizes)),
        start == 0 && total(sizes) == source.len() ==> reads_from(source, start, sizes) == source,
    decreases sizes.len(),
{
    if sizes.len() == 0 {
        assert(source.subrange(start, start) =~= Seq::<u8>::empty());
    } else {
        lemma_sequential_reads(source, start + sizes[0], sizes.drop_first());
        assert(reads_from(source, start, sizes) =~= source.subrange(start, start + total(sizes)));
    }
    if start == 0 && total(sizes) == source.len() {
        assert(source.subrange(0, source.len() as int) =~= source);
    }
}

} // verus!
