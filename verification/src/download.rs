//! The decision logic of the archive downloader: which byte ranges to
//! request, and what to do with each response.  The network itself is
//! outside this library.

use vstd::prelude::*;

verus! {

/// A downloader configuration the run must refuse.
#[derive(Clone, Copy, PartialEq, Eq, Structural, Debug)]
pub enum RangeError {
    /// The range buffer size is zero.
    ZeroBufferSize,
}

/// Yields consecutive byte ranges `[start, end]` of at most `buffer_size`
/// bytes each, covering `start ..= end` in order.
pub struct PartialRangeIter {
    /// The first byte of the next range.
    pub start: u64,
    /// The last byte to fetch, inclusive.
    pub end: u64,
    /// The largest number of bytes one range may span.
    pub buffer_size: u32,
}

impl PartialRangeIter {
    /// A range iterator over `start ..= end`; a zero buffer size is
    /// refused.
    pub fn new(start: u64, end: u64, buffer_size: u32) -> (r: Result<PartialRangeIter, RangeError>)
        ensures
            match r {
                Ok(it) => buffer_size > 0 && it.start == start && it.end == end && it.buffer_size
                    == buffer_size,
                Err(e) => buffer_size == 0 && e == RangeError::ZeroBufferSize,
            },
    {
        if buffer_size == 0 {
            Err(RangeError::ZeroBufferSize)
        } else {
            Ok(PartialRangeIter { start, end, buffer_size })
        }
    }

    /// The next byte range, inclusive on both ends: it begins where the
    /// previous one stopped and spans at most `buffer_size` bytes; `None`
    /// once the whole span is covered.
    pub fn next(&mut self) -> (r: Option<(u64, u64)>)
        requires
            old(self).end < u64::MAX,
            old(self).buffer_size > 0,
        ensures
            final(self).end == old(self).end,
            final(self).buffer_size == old(self).buffer_size,
            if old(self).start > old(self).end {
                r is None && final(self).start == old(self).start
            } else {
                ({
                    let step: int = if old(self).buffer_size as int <= old(self).end - old(
                        self,
                    ).start + 1 {
                        old(self).buffer_size as int
                    } else {
                        old(self).end - old(self).start + 1
                    };
                    &&& r == Some((old(self).start, (old(self).start + step - 1) as u64))
                    &&& final(self).start == old(self).start + step
                })
            },
    {
        if self.start > self.end {
            None
        } else {
            let prev_start = self.start;
            let span: u64 = self.end - self.start + 1;
            let step: u64 = if (self.buffer_size as u64) <= span {
                self.buffer_size as u64
            } else {
                span
            };
            self.start = self.start + step;
            Some((prev_start, self.start - 1))
        }
    }
}

/// What to do with one download response.
#[derive(Clone, Copy, PartialEq, Eq, Structural, Debug)]
pub enum DownloadAction {
    /// The response carries data: consume it.
    Proceed,
    /// The server asked for a pause of this many seconds before retrying.
    RetryAfter(u64),
    /// An unexpected response: abort the run.
    Fatal,
}

/// Decide what one response status calls for: a rate-limiting status with a
/// server-supplied delay waits and retries, one without a delay is fatal, a
/// success or partial-content status proceeds, and anything else is fatal.
pub fn classify_response(status: u16, retry_after: Option<u64>) -> (r: DownloadAction)
    ensures
        r == (if status == 429 {
            match retry_after {
                Some(secs) => DownloadAction::RetryAfter(secs),
                None => DownloadAction::Fatal,
            }
        } else if status == 200 || status == 206 {
            DownloadAction::Proceed
        } else {
            DownloadAction::Fatal
        }),
{
    if status == 429 {
        match retry_after {
            Some(secs) => DownloadAction::RetryAfter(secs),
            None => DownloadAction::Fatal,
        }
    } else if status == 200 || status == 206 {
        DownloadAction::Proceed
    } else {
        DownloadAction::Fatal
    }
}

} // verus!
