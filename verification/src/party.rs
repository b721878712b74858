//! Party index translation.
//!
//! A session fixes an ordered party list and a share count per party.  The
//! cryptographic engine works on a dense, zero-based index over all shares;
//! the transport works on external party identifiers.  This module derives
//! the share-index-to-party mapping from the share counts and proves it is a
//! bijection between `[0, total_shares)` and (party, local share) pairs.

use vstd::prelude::*;

use crate::spec_total_shares;

verus! {

/// A share index outside `[0, total_shares)` cannot be attributed to a party.
#[derive(Clone, Copy, Debug, PartialEq, Eq, Structural)]
pub enum PartyLookupError {
    ShareIndexOutOfRange,
    PartyIndexOutOfRange,
}

/// The index of the first share owned by `party`: the sum of the share
/// counts of all earlier parties.
pub open spec fn spec_offset(counts: Seq<usize>, party: int) -> int
    decreases party,
{
    if party <= 0 {
        0
    } else {
        spec_offset(counts, party - 1) + counts[party - 1]
    }
}

/// The party owning `share`: the unique `p` whose share block
/// `[spec_offset(p), spec_offset(p) + counts[p])` contains `share`.
pub open spec fn spec_party_of(counts: Seq<usize>, share: int) -> int
    decreases counts.len(),
{
    if counts.len() == 0 {
        0
    } else if share < counts[0] {
        0
    } else {
        1 + spec_party_of(counts.drop_first(), share - counts[0])
    }
}

/// The position of `share` within its owner's share block.
pub open spec fn spec_local_of(counts: Seq<usize>, share: int) -> int {
    share - spec_offset(counts, spec_party_of(counts, share))
}

/// The share index of the pair (party, local share): the party's offset
/// plus the local index.  Inverse of `spec_party_of` / `spec_local_of`.
pub open spec fn spec_share_of(counts: Seq<usize>, party: int, local: int) -> int {
    spec_offset(counts, party) + local
}

/// For a party index after the first, the offset splits off the first
/// party's share count.
proof fn lemma_offset_shift(counts: Seq<usize>, party: int)
    requires
        0 <= party < counts.len(),
    ensures
        spec_offset(counts, party + 1) == counts[0] + spec_offset(counts.drop_first(), party),
    decreases party,
{
    if party > 0 {
        lemma_offset_shift(counts, party - 1);
        assert(counts.drop_first()[party - 1] == counts[party]);
    } else {
        assert(spec_offset(counts, 0) == 0);
        assert(spec_offset(counts.drop_first(), 0) == 0);
    }
}

/// The total share count equals the offset just past the last party.
proof fn lemma_total_is_offset_len(counts: Seq<usize>)
    ensures
        spec_total_shares(counts) == spec_offset(counts, counts.len() as int),
    decreases counts.len(),
{
    if counts.len() > 0 {
        lemma_total_is_offset_len(counts.drop_first());
        lemma_offset_shift(counts, counts.len() - 1);
    }
}

/// Offsets are monotone in the party index.
proof fn lemma_offset_mono(counts: Seq<usize>, p: int, q: int)
    requires
        0 <= p <= q,
    ensures
        spec_offset(counts, p) <= spec_offset(counts, q),
    decreases q - p,
{
    if p < q {
        lemma_offset_mono(counts, p, q - 1);
    }
}

/// A share block of a valid party index ends at or before the total.
proof fn lemma_block_within_total(counts: Seq<usize>, p: int)
    requires
        0 <= p < counts.len(),
    ensures
        spec_offset(counts, p) + counts[p] <= spec_total_shares(counts),
{
    lemma_total_is_offset_len(counts);
    lemma_offset_mono(counts, p + 1, counts.len() as int);
}

/// Every share index below the total falls inside its owner's share block.
proof fn lemma_party_of_range(counts: Seq<usize>, share: int)
    requires
        0 <= share < spec_total_shares(counts),
    ensures
        0 <= spec_party_of(counts, share) < counts.len(),
        spec_offset(counts, spec_party_of(counts, share)) <= share,
        share < spec_offset(counts, spec_party_of(counts, share))
            + counts[spec_party_of(counts, share)],
    decreases counts.len(),
{
    if share < counts[0] {
    } else {
        let rest = counts.drop_first();
        lemma_party_of_range(rest, share - counts[0]);
        let p = spec_party_of(rest, share - counts[0]);
        lemma_offset_shift(counts, p);
    }
}

/// The share at a party's offset plus a local index inside its block is
/// attributed back to that party.
proof fn lemma_party_of_inverse(counts: Seq<usize>, p: int, l: int)
    requires
        0 <= p < counts.len(),
        0 <= l < counts[p],
    ensures
        spec_party_of(counts, spec_offset(counts, p) + l) == p,
    decreases p,
{
    if p == 0 {
    } else {
        let rest = counts.drop_first();
        lemma_offset_shift(counts, p - 1);
        lemma_party_of_inverse(rest, p - 1, l);
        lemma_offset_mono(counts, 1, p);
    }
}

/// The Party Index Translator is a bijection: every share index below the
/// sum of the share counts resolves to a unique (party, local share) pair
/// inside the party list, and every such pair is reached by exactly one
/// share index, namely the party's offset plus the local index.
pub proof fn lemma_translator_bijection(counts: Seq<usize>)
    ensures
        forall|s: int|
            0 <= s < spec_total_shares(counts) ==> {
                &&& 0 <= #[trigger] spec_party_of(counts, s) < counts.len()
                &&& 0 <= spec_local_of(counts, s) < counts[spec_party_of(counts, s)]
                &&& spec_share_of(counts, spec_party_of(counts, s), spec_local_of(counts, s)) == s
            },
        forall|p: int, l: int|
            0 <= p < counts.len() && 0 <= l < counts[p] ==> {
                &&& 0 <= #[trigger] spec_share_of(counts, p, l) < spec_total_shares(counts)
                &&& spec_party_of(counts, spec_share_of(counts, p, l)) == p
                &&& spec_local_of(counts, spec_share_of(counts, p, l)) == l
            },
{
    assert forall|s: int| 0 <= s < spec_total_shares(counts) implies {
        &&& 0 <= #[trigger] spec_party_of(counts, s) < counts.len()
        &&& 0 <= spec_local_of(counts, s) < counts[spec_party_of(counts, s)]
        &&& spec_share_of(counts, spec_party_of(counts, s), spec_local_of(counts, s)) == s
    } by {
        lemma_party_of_range(counts, s);
    }
    assert forall|p: int, l: int| 0 <= p < counts.len() && 0 <= l < counts[p] implies {
        &&& 0 <= #[trigger] spec_share_of(counts, p, l) < spec_total_shares(counts)
        &&& spec_party_of(counts, spec_share_of(counts, p, l)) == p
        &&& spec_local_of(counts, spec_share_of(counts, p, l)) == l
    } by {
        lemma_block_within_total(counts, p);
        lemma_offset_mono(counts, 0, p);
        lemma_party_of_inverse(counts, p, l);
    }
}

/// The total number of shares in the session, or `None` when the sum does
/// not fit the machine word.
pub fn total_share_count(counts: &Vec<usize>) -> (r: Option<usize>)
    ensures
        match r {
            Some(total) => total as int == spec_total_shares(counts@),
            None => spec_total_shares(counts@) > usize::MAX,
        },
{
    let mut total: usize = 0;
    let mut i: usize = 0;
    proof {
        lemma_total_is_offset_len(counts@);
    }
    while i < counts.len()
        invariant
            i <= counts.len(),
            total as int == spec_offset(counts@, i as int),
            spec_total_shares(counts@) == spec_offset(counts@, counts@.len() as int),
        decreases counts.len() - i,
    {
        match total.checked_add(counts[i]) {
            Some(sum) => {
                total = sum;
            },
            None => {
                proof {
                    lemma_offset_mono(counts@, i + 1, counts@.len() as int);
                }
                return None;
            },
        }
        i = i + 1;
    }
    Some(total)
}

/// Resolves a share index to the external index of the party that owns it;
/// a share index at or past the total is rejected.
pub fn share_to_party_id(counts: &Vec<usize>, share: usize) -> (r: Result<
    usize,
    PartyLookupError,
>)
    ensures
        match r {
            Ok(p) => (share as int) < spec_total_shares(counts@) && (p as int) < counts@.len()
                && p as int == spec_party_of(counts@, share as int),
            Err(e) => (share as int) >= spec_total_shares(counts@) && e
                == PartyLookupError::ShareIndexOutOfRange,
        },
{
    let mut i: usize = 0;
    let mut offset: usize = 0;
    proof {
        lemma_total_is_offset_len(counts@);
    }
    while i < counts.len()
        invariant
            i <= counts.len(),
            offset as int == spec_offset(counts@, i as int),
            offset <= share,
            spec_total_shares(counts@) == spec_offset(counts@, counts@.len() as int),
        decreases counts.len() - i,
    {
        if share - offset < counts[i] {
            proof {
                lemma_party_of_inverse(counts@, i as int, share - offset);
                lemma_block_within_total(counts@, i as int);
            }
            return Ok(i);
        }
        offset = offset + counts[i];
        i = i + 1;
    }
    Err(PartyLookupError::ShareIndexOutOfRange)
}

/// Lists the share indices owned by `party`, in increasing order: the
/// party's whole share block.  A party index outside the list is rejected.
pub fn shares_of_party(counts: &Vec<usize>, party: usize) -> (r: Result<
    Vec<usize>,
    PartyLookupError,
>)
    requires
        spec_total_shares(counts@) <= usize::MAX,
    ensures
        match r {
            Ok(shares) => {
                &&& (party as int) < counts@.len()
                &&& shares@.len() == counts@[party as int]
                &&& forall|j: int|
                    0 <= j < shares@.len() ==> shares@[j] as int == spec_offset(
                        counts@,
                        party as int,
                    ) + j
            },
            Err(e) => (party as int) >= counts@.len() && e
                == PartyLookupError::PartyIndexOutOfRange,
        },
{
    if party >= counts.len() {
        return Err(PartyLookupError::PartyIndexOutOfRange);
    }
    let mut offset: usize = 0;
    let mut i: usize = 0;
    proof {
        lemma_total_is_offset_len(counts@);
        lemma_block_within_total(counts@, party as int);
    }
    while i < party
        invariant
            i <= party,
            (party as int) < counts@.len(),
            offset as int == spec_offset(counts@, i as int),
            spec_offset(counts@, party as int) + counts@[party as int] <= usize::MAX,
        decreases party - i,
    {
        proof {
            lemma_offset_mono(counts@, i + 1, party as int);
        }
        offset = offset + counts[i];
        i = i + 1;
    }
    let count = counts[party];
    let mut shares: Vec<usize> = Vec::new();
    let mut j: usize = 0;
    while j < count
        invariant
            j <= count,
            count == counts@[party as int],
            offset as int == spec_offset(counts@, party as int),
            offset + count <= usize::MAX,
            shares@.len() == j,
            forall|k: int|
                0 <= k < j ==> shares@[k] as int == spec_offset(counts@, party as int) + k,
        decreases count - j,
    {
        shares.push(offset + j);
        j = j + 1;
    }
    Ok(shares)
}

} // verus!
