use crate::error::Error;
use vstd::prelude::*;

verus! {

/// A reader over the first `size` bytes of a growing chunked file; the
/// surrounding program drives the reads and retries.
pub struct PartialChunkedFileReader<R> {
    pub inner: R,
    pub size: u64,
}

impl<R> PartialChunkedFileReader<R> {
    /// A bounded reader over an inner source.
    pub fn new(inner: R, size: u64) -> (r: PartialChunkedFileReader<R>)
        ensures
            r.size == size,
    {
        PartialChunkedFileReader { inner, size }
    }
}

/// A reader that refuses lines longer than a limit; the surrounding
/// program feeds it the chunks it read.
pub struct LineLengthLimiter<R> {
    pub inner: R,
    pub current_length: usize,
    pub limit: usize,
}

impl<R> LineLengthLimiter<R> {
    /// A limiter over an inner source, with nothing consumed yet.
    pub fn new(inner: R, limit: usize) -> (r: LineLengthLimiter<R>)
        ensures
            r.limit == limit,
            r.current_length == 0,
    {
        LineLengthLimiter { inner, limit, current_length: 0 }
    }

    /// Account one chunk of read bytes: the running line length grows
    /// until a newline is seen and restarts after the last one; a line
    /// that reaches the limit is refused.
    pub fn account(&mut self, buf: &Vec<u8>, bytes_read: usize) -> (r: Result<(), Error>)
        requires
            bytes_read <= buf@.len(),
        ensures
            final(self).inner == old(self).inner,
            final(self).limit == old(self).limit,
            match r {
                Ok(_) => {
                    let chunk = buf@.take(bytes_read as int);
                    let idx = first_newline(chunk);
                    &&& old(self).current_length + idx < old(self).limit
                    &&& final(self).current_length == if idx < chunk.len() {
                        bytes_read - idx
                    } else {
                        old(self).current_length + idx
                    }
                },
                Err(_) => {
                    let chunk = buf@.take(bytes_read as int);
                    &&& old(self).current_length + first_newline(chunk) >= old(self).limit
                    &&& final(self).current_length == old(self).current_length
                },
            },
    {
        let mut idx = bytes_read;
        let mut i: usize = 0;
        let ghost chunk = buf@.take(bytes_read as int);
        while i < bytes_read
            invariant
                i <= bytes_read,
                bytes_read <= buf@.len(),
                chunk == buf@.take(bytes_read as int),
                idx == bytes_read ==> forall|j: int| 0 <= j < i ==> chunk[j] != 10,
                idx < bytes_read ==> chunk[idx as int] == 10 && (forall|j: int|
                    0 <= j < idx ==> chunk[j] != 10),
                idx <= bytes_read,
            decreases bytes_read - i,
        {
            if idx == bytes_read && buf[i] == 10 {
                idx = i;
                proof {
                    assert(chunk[idx as int] == 10);
                }
            }
            i = i + 1;
        }
        proof {
            lemma_first_newline(chunk, idx as int);
        }
        if self.current_length >= self.limit || idx >= self.limit - self.current_length {
            return Err(Error::CustomError("Line length exceeds limit".to_owned()));
        }
        if idx < bytes_read {
            self.current_length = bytes_read - idx;
        } else {
            self.current_length = self.current_length + idx;
        }
        Ok(())
    }
}

/// The index of the first newline byte, or the chunk's length.
pub open spec fn first_newline(chunk: Seq<u8>) -> int
    decreases chunk.len(),
{
    if chunk.len() == 0 {
        0
    } else if chunk[0] == 10 {
        0
    } else {
        1 + first_newline(chunk.drop_first())
    }
}

/// A position before which no newline stands, holding a newline or the
/// chunk's end, is the first newline position.
proof fn lemma_first_newline(chunk: Seq<u8>, idx: int)
    requires
        0 <= idx <= chunk.len(),
        forall|j: int| 0 <= j < idx ==> chunk[j] != 10,
        idx < chunk.len() ==> chunk[idx] == 10,
        idx == chunk.len() || chunk[idx] == 10,
    ensures
        first_newline(chunk) == idx,
    decreases chunk.len(),
{
    if chunk.len() > 0 && chunk[0] != 10 {
        assert(idx > 0);
        assert(forall|j: int| 0 <= j < idx - 1 ==> chunk.drop_first()[j] == chunk[j + 1]);
        lemma_first_newline(chunk.drop_first(), idx - 1);
    }
}

} // verus!
