use vstd::prelude::*;
use vstd::slice::slice_subrange;
use crate::error::ParseError;

verus! {

/// The unsigned big-endian integer held in `data[start..end]`
/// (most-significant byte first).
pub open spec fn be_value(data: Seq<u8>, start: int, end: int) -> int
    decreases end - start,
{
    if end <= start {
        0
    } else {
        be_value(data, start, end - 1) * 256 + data[end - 1]
    }
}

pub proof fn lemma_be_value_nonneg(data: Seq<u8>, start: int, end: int)
    ensures
        be_value(data, start, end) >= 0,
    decreases end - start,
{
    if end > start {
        lemma_be_value_nonneg(data, start, end - 1);
    }
}

/// Reading more bytes can only keep or grow the decoded value.
pub proof fn lemma_be_value_mono(data: Seq<u8>, start: int, mid: int, end: int)
    requires
        mid <= end,
    ensures
        be_value(data, start, end) >= be_value(data, start, mid),
    decreases end - mid,
{
    if end > mid {
        lemma_be_value_mono(data, start, mid, end - 1);
        lemma_be_value_nonneg(data, start, end - 1);
    } else {
        lemma_be_value_nonneg(data, start, mid);
    }
}

/// Each further byte multiplies the value decoded so far by 256.
pub proof fn lemma_be_value_grows(data: Seq<u8>, start: int, mid: int, end: int)
    requires
        start <= mid < end,
    ensures
        be_value(data, start, end) >= be_value(data, start, mid) * 256,
{
    lemma_be_value_mono(data, start, mid + 1, end);
}

/// What `truncate` returns: the sized region named by the length field in
/// `data[start..end]`, or the error that region fails with.
pub open spec fn spec_truncate(data: Seq<u8>, start: int, end: int) -> Result<Seq<u8>, ParseError> {
    if !(0 <= start && start <= end && end <= data.len()) {
        Err(ParseError::TruncatedLength)
    } else if end + be_value(data, start, end) <= data.len() {
        Ok(data.subrange(end, end + be_value(data, start, end)))
    } else {
        Err(ParseError::TruncatedBody)
    }
}

/// What `drop_before` returns: the remainder of `data` after the sized
/// region that `truncate` selects.
pub open spec fn spec_drop_before(data: Seq<u8>, start: int, end: int) -> Result<
    Seq<u8>,
    ParseError,
> {
    match spec_truncate(data, start, end) {
        Ok(body) => Ok(data.subrange(end + body.len(), data.len() as int)),
        Err(e) => Err(e),
    }
}

/// Reads the bytes in `data[start..end]` as an unsigned big-endian length
/// `n` and returns the `n` bytes immediately following the length field.
///
/// Fails with `TruncatedLength` when the length field itself lies outside
/// `data`, and with `TruncatedBody` when the sized region does.
pub fn truncate<'a>(data: &'a [u8], start: usize, end: usize) -> (r: Result<&'a [u8], ParseError>)
    ensures
        (match r {
            Ok(body) => spec_truncate(data@, start as int, end as int) == Ok::<Seq<u8>, ParseError>(
                body@,
            ),
            Err(e) => spec_truncate(data@, start as int, end as int) == Err::<Seq<u8>, ParseError>(
                e,
            ),
        }),
{
    let n = data.len();
    if start > end || end > n {
        return Err(ParseError::TruncatedLength);
    }
    let mut len: usize = 0;
    let mut i: usize = start;
    while i < end
        invariant
            start <= i <= end <= n,
            n == data@.len(),
            len == be_value(data@, start as int, i as int),
        decreases end - i,
    {
        if len > usize::MAX / 256 {
            // whatever the remaining bytes hold, the decoded length already
            // exceeds any possible buffer length
            proof {
                lemma_be_value_grows(data@, start as int, i as int, end as int);
            }
            return Err(ParseError::TruncatedBody);
        }
        len = len * 256 + (data[i] as usize);
        i += 1;
    }
    if len <= n - end {
        Ok(slice_subrange(data, end, end + len))
    } else {
        Err(ParseError::TruncatedBody)
    }
}

/// Reads the same length field as `truncate`, but returns the remainder of
/// `data` after the sized region, advancing past a field whose contents are
/// not needed.
pub fn drop_before<'a>(data: &'a [u8], start: usize, end: usize) -> (r: Result<
    &'a [u8],
    ParseError,
>)
    ensures
        (match r {
            Ok(rest) => spec_drop_before(data@, start as int, end as int) == Ok::<
                Seq<u8>,
                ParseError,
            >(rest@),
            Err(e) => spec_drop_before(data@, start as int, end as int) == Err::<
                Seq<u8>,
                ParseError,
            >(e),
        }),
{
    let body = match truncate(data, start, end) {
        Ok(b) => b,
        Err(e) => return Err(e),
    };
    proof {
        // the sized region fits in `data`, so the remainder's bounds do too
        lemma_be_value_nonneg(data@, start as int, end as int);
        assert(end + be_value(data@, start as int, end as int) <= data@.len());
        assert(body@.len() == be_value(data@, start as int, end as int));
    }
    let n = data.len();
    Ok(slice_subrange(data, end + body.len(), n))
}

} // verus!
