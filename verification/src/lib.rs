//! Session engine for a multi-party threshold-cryptography service.
//!
//! The library drives one multi-round protocol session over an unordered,
//! unreliable message channel: it translates between external party
//! identifiers and internal share indices, fans out each round's outgoing
//! messages, classifies incoming traffic (including the out-of-band abort
//! sentinel), maps cryptographic fault outcomes to an externally reportable
//! criminal list, and guards key-share persistence with a two-phase
//! reserve/commit store.  The cryptographic engine itself is consumed as an
//! opaque per-round description; the network transport stays outside.

use vstd::prelude::*;

pub mod behaviour;
pub mod kv;
pub mod message;
pub mod numeric;
pub mod party;
pub mod protocol;

verus! {

/// Sum of the per-party share counts: the total number of shares in a session.
pub open spec fn spec_total_shares(counts: Seq<usize>) -> int
    decreases counts.len(),
{
    if counts.len() == 0 {
        0
    } else {
        counts[0] + spec_total_shares(counts.drop_first())
    }
}

} // verus!
