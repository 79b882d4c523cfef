//! Byte ranges of static files.

use vstd::prelude::*;
use crate::numeric::{parse_u64, u64_of};
use crate::text::{chars_of, split_by, split_on, views};

verus! {

pub open spec fn bytes_prefix() -> Seq<char> {
    seq!['b', 'y', 't', 'e', 's', '=']
}

/// A bound of a range: absent when empty, else its value, or `default`
/// when it is not a number.
pub open spec fn bound_of(t: Seq<char>, empty: u64, default: u64) -> u64 {
    if t.len() == 0 {
        empty
    } else {
        match u64_of(t) {
            Some(v) => v,
            None => default,
        }
    }
}

/// The inclusive byte range that a `Range: bytes=start-end` header asks of a
/// file of `size` bytes. A missing or unreadable start means 0, a missing
/// end the last byte, an unreadable end the last byte too; the range must
/// start inside the file and not end before it starts, and it is cut at
/// the end of the file.
pub open spec fn range_spec(h: Seq<char>, size: u64) -> Option<(u64, u64)> {
    if size == 0 || h.len() < 6 || h.take(6) != bytes_prefix() {
        None
    } else {
        let parts = split_by(h.skip(6), '-');
        let start = bound_of(parts[0], 0, 0);
        let last = (size - 1) as u64;
        let end = if parts.len() > 1 {
            bound_of(parts[1], last, last)
        } else {
            last
        };
        if start > end || start >= size {
            None
        } else {
            Some((start, if end < last { end } else { last }))
        }
    }
}

fn bound(t: &Vec<char>, empty: u64, default: u64) -> (r: u64)
    ensures
        r == bound_of(t@, empty, default),
{
    if t.len() == 0 {
        empty
    } else {
        match parse_u64(t) {
            Some(v) => v,
            None => default,
        }
    }
}

/// Parses a `Range` header against a file size; an empty file has no range.
pub fn parse_range_header(range_header: &str, file_size: u64) -> (r: Option<(u64, u64)>)
    ensures
        r == range_spec(range_header@, file_size),
{
    let h = chars_of(range_header);
    if file_size == 0 || h.len() < 6 {
        return None;
    }
    let prefix = ['b', 'y', 't', 'e', 's', '='];
    let mut i: usize = 0;
    while i < 6
        invariant
            i <= 6,
            h@ == range_header@,
            file_size != 0,
            h@.len() >= 6,
            prefix@ == bytes_prefix(),
            forall|j: int| 0 <= j < i ==> h@[j] == bytes_prefix()[j],
        decreases 6 - i,
    {
        if h[i] != prefix[i] {
            proof {
                assert(h@.take(6)[i as int] == h@[i as int]);
                assert(prefix@[i as int] == bytes_prefix()[i as int]);
                assert(h@.take(6)[i as int] != bytes_prefix()[i as int]);
                assert(h@.take(6) != bytes_prefix());
            }
            return None;
        }
        i = i + 1;
    }
    assert(h@.take(6) =~= bytes_prefix());
    let mut rest: Vec<char> = Vec::new();
    let mut k: usize = 6;
    while k < h.len()
        invariant
            6 <= k <= h@.len(),
            rest@ == h@.subrange(6, k as int),
        decreases h@.len() - k,
    {
        rest.push(h[k]);
        k = k + 1;
    }
    assert(rest@ =~= h@.skip(6));
    let parts = split_on(&rest, '-');
    proof {
        crate::text::lemma_split_by_nonempty(rest@, '-');
        assert(views(parts@)[0] == parts@[0]@);
    }
    let start = bound(&parts[0], 0, 0);
    let last = file_size - 1;
    let end = if parts.len() > 1 {
        assert(views(parts@)[1] == parts@[1]@);
        bound(&parts[1], last, last)
    } else {
        last
    };
    if start > end || start >= file_size {
        None
    } else {
        Some((start, if end < last { end } else { last }))
    }
}

} // verus!
