//! Where fetched bytes go.
//!
//! A backend cannot choose an offset, because a [`RangeSink`] has no way of choosing one: it is
//! created at a base offset by whoever granted the range, and the backend can only append to it.

use vstd::prelude::*;

verus! {

/// Why a write could not be accepted.
#[derive(Debug, PartialEq, Eq)]
pub enum SinkError<T = String> {
    /// The write would have gone past the granted range.
    BeyondGrant {
        /// How many bytes this sink was granted.
        grant: u64,
        /// How many have been written so far.
        already_written: u64,
        /// How many the caller tried to add.
        attempted: u64,
    },
    /// The target ran out of space, which pauses a download instead of truncating it.
    NoSpace {
        /// Where the write was attempted.
        offset: u64,
    },
    /// Underlying input or output failure.
    Io {
        /// Where the write was attempted.
        offset: u64,
        /// What the target reported.
        source: T,
    },
    /// A length or an offset does not fit in 64 bits.
    LengthOverflow,
}

impl View for SinkError<String> {
    type V = SinkError<Seq<char>>;

    open spec fn view(&self) -> SinkError<Seq<char>> {
        match *self {
            SinkError::BeyondGrant { grant, already_written, attempted } =>
                SinkError::BeyondGrant { grant, already_written, attempted },
            SinkError::NoSpace { offset } => SinkError::NoSpace { offset },
            SinkError::Io { offset, source } => SinkError::Io { offset, source: source@ },
            SinkError::LengthOverflow => SinkError::LengthOverflow,
        }
    }
}

/// An append-only window onto a download's storage, fixed at a base offset.
///
/// The type exposes no way to seek: whoever fetches bytes asks where they land with
/// [`RangeSink::place`], stores them there, and reports the outcome to [`RangeSink::accept`]. No
/// other part of the file can be addressed.
#[derive(Debug, PartialEq, Eq)]
pub struct RangeSink {
    base_offset: u64,
    written: u64,
    limit: Option<u64>,
}

/// `a + b`, or the largest 64-bit number where that does not fit.
pub open spec fn capped_sum(a: u64, b: u64) -> u64 {
    if a + b <= u64::MAX {
        (a + b) as u64
    } else {
        u64::MAX
    }
}

/// Where the next `attempted` bytes of a window would land, or why they are refused. An over-long
/// chunk is refused whole: where to cut it is the allocator's decision.
pub open spec fn placement(
    base: u64,
    written: u64,
    limit: Option<u64>,
    attempted: u64,
) -> Result<u64, SinkError<Seq<char>>> {
    match limit {
        Some(grant) if capped_sum(written, attempted) > grant => Err(
            SinkError::BeyondGrant { grant, already_written: written, attempted },
        ),
        _ => if base + written <= u64::MAX {
            Ok((base + written) as u64)
        } else {
            Err(SinkError::LengthOverflow)
        },
    }
}

impl RangeSink {
    /// The offset the window starts at.
    pub closed spec fn base(&self) -> u64 {
        self.base_offset
    }

    /// How many bytes have been appended.
    pub closed spec fn count(&self) -> u64 {
        self.written
    }

    /// The most bytes the window accepts.
    pub closed spec fn bound(&self) -> Option<u64> {
        self.limit
    }

    /// A sink that appends from `base_offset` on.
    ///
    /// `limit`, when set, is the most this sink will accept: a server that sends more than it
    /// announced must not be able to overwrite the range next to ours.
    pub fn new(base_offset: u64, limit: Option<u64>) -> (sink: Self)
        ensures
            sink.base() == base_offset,
            sink.count() == 0,
            sink.bound() == limit,
    {
        RangeSink { base_offset, written: 0, limit }
    }

    /// Moves the window over the same storage: nothing appended yet, starting at `base_offset`.
    pub fn rebase(&mut self, base_offset: u64, limit: Option<u64>)
        ensures
            final(self).base() == base_offset,
            final(self).count() == 0,
            final(self).bound() == limit,
    {
        self.base_offset = base_offset;
        self.written = 0;
        self.limit = limit;
    }

    /// Where the next `length` bytes would land, or why they are refused.
    pub fn place(&self, length: usize) -> (placed: Result<u64, SinkError>)
        ensures
            match placed {
                Ok(offset) => placement(self.base(), self.count(), self.bound(), length as u64)
                    == Ok::<u64, SinkError<Seq<char>>>(offset),
                Err(error) => placement(self.base(), self.count(), self.bound(), length as u64)
                    == Err::<u64, SinkError<Seq<char>>>(error@),
            },
    {
        let attempted: u64 = length as u64;
        if let Some(grant) = self.limit {
            if self.written.saturating_add(attempted) > grant {
                return Err(
                    SinkError::BeyondGrant { grant, already_written: self.written, attempted },
                );
            }
        }
        match self.base_offset.checked_add(self.written) {
            Some(offset) => Ok(offset),
            None => Err(SinkError::LengthOverflow),
        }
    }

    /// How many bytes have been appended.
    pub fn written(&self) -> (count: u64)
        ensures
            count == self.count(),
    {
        self.written
    }

    /// The offset the next byte will land at.
    pub fn next_offset(&self) -> (offset: u64)
        ensures
            offset == capped_sum(self.base(), self.count()),
    {
        self.base_offset.saturating_add(self.written)
    }

    /// The offset this sink started at.
    pub fn base_offset(&self) -> (offset: u64)
        ensures
            offset == self.base(),
    {
        self.base_offset
    }

    /// Take note of what became of the next `length` bytes.
    ///
    /// A chunk that the window refuses is refused whatever `stored` says. What storage reports of
    /// an admitted chunk is passed on, and only a stored chunk is counted.
    pub fn accept(&mut self, length: usize, stored: Result<(), SinkError>) -> (accepted: Result<
        (),
        SinkError,
    >)
        ensures
            final(self).base() == old(self).base(),
            final(self).bound() == old(self).bound(),
            match placement(
                old(self).base(),
                old(self).count(),
                old(self).bound(),
                length as u64,
            ) {
                Ok(_) => {
                    &&& accepted == stored
                    &&& final(self).count() == (if stored is Ok {
                        capped_sum(old(self).count(), length as u64)
                    } else {
                        old(self).count()
                    })
                },
                Err(refusal) => {
                    &&& accepted is Err
                    &&& accepted->Err_0@ == refusal
                    &&& final(self).count() == old(self).count()
                },
            },
    {
        match self.place(length) {
            Ok(_) => {},
            Err(error) => {
                return Err(error);
            },
        }
        if stored.is_ok() {
            self.written = self.written.saturating_add(length as u64);
        }
        stored
    }
}

/// Nothing is ever placed outside the grant: an admitted chunk lies between the base offset and
/// the end of the window. A grant of the largest 64-bit number is left out: the sum of two counts
/// is capped there, so such a window cannot tell an overrun.
pub proof fn law_a_sink_never_writes_past_its_grant(
    base: u64,
    written: u64,
    grant: u64,
    attempted: u64,
)
    requires
        written <= grant < u64::MAX,
        base + grant <= u64::MAX,
    ensures
        placement(base, written, Some(grant), attempted) matches Ok(offset) ==> {
            &&& offset == base + written
            &&& base <= offset
            &&& offset + attempted <= base + grant
        },
        placement(base, written, Some(grant), attempted) is Ok <==> written + attempted <= grant,
{
}

/// A sum is what it is where 64 bits hold it, and never falls below either part.
pub proof fn law_a_capped_sum_is_exact_where_it_fits(a: u64, b: u64)
    ensures
        a + b <= u64::MAX ==> capped_sum(a, b) == a + b,
        a + b > u64::MAX ==> capped_sum(a, b) == u64::MAX,
        capped_sum(a, b) >= a && capped_sum(a, b) >= b,
{
}

/// Without a limit every chunk is placed where the last one ended, as long as there is such an
/// offset; a chunk beyond a limit is refused with the limit, what was written and what was tried.
pub proof fn law_chunks_are_placed_end_to_end(
    base: u64,
    written: u64,
    grant: u64,
    first: u64,
    second: u64,
)
    ensures
        placement(base, written, None, first) is Ok <==> base + written <= u64::MAX,
        placement(base, written, None, first) matches Ok(offset) ==> offset == base + written,
        base + written + first <= u64::MAX ==> placement(
            base,
            capped_sum(written, first),
            None,
            second,
        ) == Ok::<u64, SinkError<Seq<char>>>((base + written + first) as u64),
        written + first > grant && grant < u64::MAX ==> placement(base, written, Some(grant), first)
            == Err::<u64, SinkError<Seq<char>>>(
            SinkError::BeyondGrant { grant, already_written: written, attempted: first },
        ),
{
}

} // verus!
