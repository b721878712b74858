//! Round execution for one protocol session.
//!
//! A session runs a fixed number of rounds.  Each round fans out the
//! engine's outgoing messages, reads inbound traffic until the engine has
//! everything it needs — or an abort condition ends the round — and then
//! advances the engine.  The cryptographic engine itself is opaque: it is
//! consumed as a per-round description of what it sends, how many messages
//! satisfy it, and what its round advance reports.  The transport offers no
//! native timeout, so a reserved payload — the bytes `timeout`, bare or
//! followed by the decimal round number — doubles as an explicit abort
//! signal.

use vstd::prelude::*;

use crate::message::{dispute_tag, is_traffic, Fault, MessageOut, TrafficIn};
use crate::numeric::{dec_bytes, dec_chars, usize_to_dec_bytes, usize_to_string};
use crate::party::{spec_party_of, share_to_party_id, PartyLookupError};
use crate::spec_total_shares;

verus! {

/// One share of a split secret: the scalar as 32 opaque bytes, and the
/// share index it belongs to.
#[derive(Clone, Debug, PartialEq, Eq)]
pub struct Share {
    scalar: [u8; 32],
    index: usize,
}

impl Share {
    /// The scalar bytes.
    pub closed spec fn spec_scalar(self) -> Seq<u8> {
        self.scalar@
    }

    /// The share index.
    pub closed spec fn spec_index(self) -> int {
        self.index as int
    }

    pub fn new(scalar: [u8; 32], index: usize) -> (r: Self)
        ensures
            r.spec_scalar() == scalar@,
            r.spec_index() == index as int,
    {
        Share { scalar, index }
    }

    pub fn scalar_bytes(&self) -> (r: &[u8; 32])
        ensures
            r@ == self.spec_scalar(),
    {
        &self.scalar
    }

    pub fn index(&self) -> (r: usize)
        ensures
            r as int == self.spec_index(),
    {
        self.index
    }
}

/// One disputed share in the distinguished round's side channel: the share,
/// the compressed group element it was encrypted under, and the two halves
/// of the accompanying proof.
#[derive(Clone, Debug, PartialEq, Eq)]
pub struct ShareInfoDispute {
    pub share: Share,
    pub kij: [u8; 48],
    pub proof_c: [u8; 32],
    pub proof_r: [u8; 32],
}

/// The dispute payload of the distinguished round: the complaints a party
/// raises against shares it received.
#[derive(Clone, Debug, PartialEq, Eq)]
pub struct P2pSad {
    pub vss_complaint: Vec<ShareInfoDispute>,
}

/// What the engine's round advance reports: more rounds, completion with an
/// output, completion with a fault set, or a hard failure.
#[derive(Clone, Debug, PartialEq, Eq)]
pub enum AdvanceOutcome {
    NotDone,
    DoneOutput(Vec<u8>),
    DoneFaults(Vec<Option<Fault>>),
    Failure,
}

/// One round of the opaque cryptographic engine, as data: what it sends,
/// which round it reports itself in, how many accepted messages satisfy it,
/// and what its advance reports.  The model counts every protocol message
/// from a resolved sender as accepted; an engine that rejects a message's
/// content reports that through its advance outcome.
#[derive(Clone, Debug, PartialEq, Eq)]
pub struct EngineRound {
    pub bcast_out: Option<Vec<u8>>,
    pub p2ps_out: Vec<(usize, Vec<u8>)>,
    pub engine_round: usize,
    pub expected_msgs: usize,
    pub outcome: AdvanceOutcome,
}

/// How one inbound record is handled: skipped, an abort signal for this
/// round, a stale abort signal, a protocol message from a resolved sender,
/// or a routing failure.
#[derive(Clone, Copy, Debug, PartialEq, Eq, Structural)]
pub enum IncomingAction {
    /// The record carries no data; it is skipped.
    MissingData,
    /// The abort sentinel for the current round: the round aborts at once.
    AbortRound,
    /// An abort sentinel for some other round: skipped.
    StaleTimeout,
    /// A protocol message: the resolved sender index, and whether it must
    /// be fed through the distinguished round's dispute channel.
    Deliver { from: usize, dispute: bool },
    /// The sender is not in the party list: a fatal routing error.
    UnknownSender,
}

/// The reserved sentinel prefix: the ASCII bytes of `timeout`.
pub open spec fn timeout_prefix() -> Seq<u8> {
    seq![116u8, 105u8, 109u8, 101u8, 111u8, 117u8, 116u8]
}

/// Whether a payload starts with the sentinel prefix, and so is an abort
/// signal rather than protocol data.
pub open spec fn has_timeout_prefix(p: Seq<u8>) -> bool {
    p.len() >= 7 && p.subrange(0, 7) == timeout_prefix()
}

/// The round-tagged abort sentinel: the prefix followed by the decimal
/// round number.
pub open spec fn abort_payload(round_count: usize) -> Seq<u8> {
    timeout_prefix() + dec_bytes(round_count as nat)
}

/// Whether a payload is an abort sentinel for round `round_count`: the
/// bare `timeout` bytes, or — the round-tagged variant — those bytes
/// followed by this round's decimal number.
pub open spec fn is_abort_sentinel(p: Seq<u8>, round_count: usize) -> bool {
    p == timeout_prefix() || p == abort_payload(round_count)
}

/// The first position of `uid` in the party list, or the list's length
/// when the identifier is unknown.
pub open spec fn uid_index(uids: Seq<String>, uid: Seq<char>) -> int
    decreases uids.len(),
{
    if uids.len() == 0 {
        0
    } else if uids[0]@ == uid {
        0
    } else {
        1 + uid_index(uids.drop_first(), uid)
    }
}

/// Whether some party carries the identifier `uid`.
pub open spec fn uid_known(uids: Seq<String>, uid: Seq<char>) -> bool {
    exists|i: int| 0 <= i < uids.len() && (#[trigger] uids[i])@ == uid
}

/// `uid_index` points at the first occurrence of `uid`.
proof fn lemma_uid_index_char(uids: Seq<String>, uid: Seq<char>)
    ensures
        0 <= uid_index(uids, uid) <= uids.len(),
        uid_known(uids, uid) <==> uid_index(uids, uid) < uids.len(),
        uid_index(uids, uid) < uids.len() ==> uids[uid_index(uids, uid)]@ == uid,
        forall|k: int| 0 <= k < uid_index(uids, uid) ==> (#[trigger] uids[k])@ != uid,
    decreases uids.len(),
{
    if uids.len() == 0 {
        assert(!uid_known(uids, uid));
    } else if uids[0]@ == uid {
        assert(uid_known(uids, uid));
    } else {
        let rest = uids.drop_first();
        lemma_uid_index_char(rest, uid);
        assert forall|k: int| 0 <= k < uid_index(uids, uid) implies (#[trigger] uids[k])@
            != uid by {
            if k > 0 {
                assert(rest[k - 1]@ != uid);
            }
        }
        if uid_known(uids, uid) {
            let i = choose|i: int| 0 <= i < uids.len() && (#[trigger] uids[i])@ == uid;
            assert(rest[i - 1]@ == uid);
            assert(uid_known(rest, uid));
        }
        if uid_index(rest, uid) < rest.len() {
            assert(uids[1 + uid_index(rest, uid)]@ == rest[uid_index(rest, uid)]@);
            assert(uid_known(uids, uid));
        }
    }
}

/// How one inbound record is classified for the round `round_count`.
pub open spec fn spec_classify(
    traffic: Option<TrafficIn>,
    round_count: usize,
    uids: Seq<String>,
) -> IncomingAction {
    match traffic {
        None => IncomingAction::MissingData,
        Some(t) => if has_timeout_prefix(t.payload@) {
            if is_abort_sentinel(t.payload@, round_count) {
                IncomingAction::AbortRound
            } else {
                IncomingAction::StaleTimeout
            }
        } else if !uid_known(uids, t.from_party_uid@) {
            IncomingAction::UnknownSender
        } else {
            IncomingAction::Deliver {
                from: uid_index(uids, t.from_party_uid@) as usize,
                dispute: round_count == 3,
            }
        },
    }
}

/// Whether `p` starts with the sentinel prefix.
fn check_timeout_prefix(p: &Vec<u8>) -> (r: bool)
    ensures
        r == has_timeout_prefix(p@),
{
    if p.len() < 7 {
        return false;
    }
    let r = p[0] == 116 && p[1] == 105 && p[2] == 109 && p[3] == 101 && p[4] == 111 && p[5] == 117
        && p[6] == 116;
    proof {
        if r {
            assert(p@.subrange(0, 7) =~= timeout_prefix());
        } else {
            if p@.subrange(0, 7) == timeout_prefix() {
                assert(forall|k: int| 0 <= k < 7 ==> p@.subrange(0, 7)[k] == p@[k]);
                assert(p@[0] == 116 && p@[1] == 105 && p@[2] == 109 && p@[3] == 101 && p@[4] == 111
                    && p@[5] == 117 && p@[6] == 116);
            }
        }
    }
    r
}

/// The round-tagged abort sentinel payload: `timeout` plus the decimal
/// round number.  This is what a transport-level watchdog injects to cancel
/// a round; the bare `timeout` payload aborts whatever round is running.
pub fn abort_sentinel_bytes(round_count: usize) -> (r: Vec<u8>)
    ensures
        r@ == abort_payload(round_count),
{
    let mut v: Vec<u8> = Vec::new();
    v.push(116);
    v.push(105);
    v.push(109);
    v.push(101);
    v.push(111);
    v.push(117);
    v.push(116);
    let mut suffix = usize_to_dec_bytes(round_count);
    v.append(&mut suffix);
    proof {
        assert(v@ =~= abort_payload(round_count));
    }
    v
}

/// Whether two byte strings are equal.
fn bytes_eq(a: &Vec<u8>, b: &Vec<u8>) -> (r: bool)
    ensures
        r == (a@ == b@),
{
    if a.len() != b.len() {
        return false;
    }
    let mut i: usize = 0;
    while i < a.len()
        invariant
            i <= a@.len(),
            a@.len() == b@.len(),
            forall|k: int| 0 <= k < i ==> a@[k] == b@[k],
        decreases a@.len() - i,
    {
        if a[i] != b[i] {
            return false;
        }
        i = i + 1;
    }
    proof {
        assert(a@ =~= b@);
    }
    true
}

/// Resolves an external identifier to the first party index carrying it.
fn find_party_index(party_uids: &Vec<String>, uid: &String) -> (r: Option<usize>)
    ensures
        match r {
            Some(i) => uid_known(party_uids@, uid@) && i as int == uid_index(party_uids@, uid@),
            None => !uid_known(party_uids@, uid@),
        },
{
    proof {
        lemma_uid_index_char(party_uids@, uid@);
    }
    let mut i: usize = 0;
    while i < party_uids.len()
        invariant
            i <= party_uids@.len(),
            forall|k: int| 0 <= k < i ==> (#[trigger] party_uids@[k])@ != uid@,
            0 <= uid_index(party_uids@, uid@) <= party_uids@.len(),
            uid_index(party_uids@, uid@) < party_uids@.len() ==> party_uids@[uid_index(
                party_uids@,
                uid@,
            )]@ == uid@,
            forall|k: int|
                0 <= k < uid_index(party_uids@, uid@) ==> (#[trigger] party_uids@[k])@ != uid@,
            uid_known(party_uids@, uid@) <==> uid_index(party_uids@, uid@) < party_uids@.len(),
        decreases party_uids@.len() - i,
    {
        if party_uids[i] == *uid {
            proof {
                assert(party_uids@[i as int]@ == uid@);
                assert(uid_known(party_uids@, uid@));
                let idx = uid_index(party_uids@, uid@);
                assert(idx < party_uids@.len());
                assert(party_uids@[idx]@ == uid@);
                if idx < i as int {
                    assert(false);
                }
                if idx > i as int {
                    assert(party_uids@[i as int]@ != uid@);
                    assert(false);
                }
            }
            return Some(i);
        }
        i = i + 1;
    }
    None
}

/// Classifies one inbound record for round `round_count`: data-less records
/// are skipped, the bare sentinel or this round's tagged sentinel aborts
/// the round, a sentinel tagged for another round is skipped as stale, an
/// unknown sender is fatal, and anything else is a protocol message from
/// the resolved sender — routed through the dispute channel in the
/// distinguished round.
pub fn classify_incoming(
    traffic: &Option<TrafficIn>,
    round_count: usize,
    party_uids: &Vec<String>,
) -> (a: IncomingAction)
    ensures
        a == spec_classify(*traffic, round_count, party_uids@),
{
    let t = match traffic {
        None => {
            return IncomingAction::MissingData;
        },
        Some(t) => t,
    };
    if check_timeout_prefix(&t.payload) {
        let bare = t.payload.len() == 7;
        let sentinel = abort_sentinel_bytes(round_count);
        let tagged = bytes_eq(&t.payload, &sentinel);
        proof {
            assert(timeout_prefix().len() == 7);
            if bare {
                assert(t.payload@ =~= t.payload@.subrange(0, 7));
            } else {
                assert(t.payload@ != timeout_prefix());
            }
        }
        if bare || tagged {
            IncomingAction::AbortRound
        } else {
            IncomingAction::StaleTimeout
        }
    } else {
        match find_party_index(party_uids, &t.from_party_uid) {
            Some(from) => IncomingAction::Deliver { from, dispute: round_count == 3 },
            None => IncomingAction::UnknownSender,
        }
    }
}

/// Whether every point-to-point recipient of a round resolves to a party:
/// its share index is below the session's total share count.
pub open spec fn spec_outgoing_ok(round: EngineRound, counts: Seq<usize>) -> bool {
    forall|j: int|
        0 <= j < round.p2ps_out@.len() ==> (#[trigger] round.p2ps_out@[j]).0 < spec_total_shares(
            counts,
        )
}

/// The number of messages a round's outgoing phase emits.
pub open spec fn outgoing_count(round: EngineRound) -> int {
    (if round.bcast_out is Some {
        1int
    } else {
        0int
    }) + round.p2ps_out@.len()
}

/// Whether `block` is exactly the outgoing fan-out of `round`: first the
/// broadcast, if any — tagged for the dispute side channel when the engine
/// reports its distinguished round — then one point-to-point record per
/// recipient, addressed by the recipient's party identifier, all carrying
/// the engine round as decimal tag.
pub open spec fn is_round_msgs(
    block: Seq<MessageOut>,
    round: EngineRound,
    uids: Seq<String>,
    counts: Seq<usize>,
) -> bool {
    let base: int = if round.bcast_out is Some {
        1int
    } else {
        0int
    };
    &&& block.len() == outgoing_count(round)
    &&& (round.bcast_out matches Some(b) ==> is_traffic(
        block[0],
        if round.engine_round == 2 {
            dispute_tag()
        } else {
            Seq::empty()
        },
        b@,
        true,
        dec_chars(round.engine_round as nat),
    ))
    &&& forall|j: int|
        0 <= j < round.p2ps_out@.len() ==> is_traffic(
            #[trigger] block[base + j],
            uids[spec_party_of(counts, round.p2ps_out@[j].0 as int)]@,
            round.p2ps_out@[j].1@,
            false,
            dec_chars(round.engine_round as nat),
        )
}

/// Fans out one round's outgoing messages: the broadcast, if any, then one
/// point-to-point record per recipient, each share index translated to its
/// party identifier.  A recipient share index outside the session's share
/// range is a routing error and nothing is emitted.
pub fn handle_outgoing(
    round: &EngineRound,
    party_uids: &Vec<String>,
    party_share_counts: &Vec<usize>,
) -> (r: Result<Vec<MessageOut>, PartyLookupError>)
    requires
        party_uids@.len() == party_share_counts@.len(),
    ensures
        match r {
            Ok(msgs) => spec_outgoing_ok(*round, party_share_counts@) && is_round_msgs(
                msgs@,
                *round,
                party_uids@,
                party_share_counts@,
            ),
            Err(e) => !spec_outgoing_ok(*round, party_share_counts@) && e
                == PartyLookupError::ShareIndexOutOfRange,
        },
{
    let round_str = usize_to_string(round.engine_round);
    let mut msgs: Vec<MessageOut> = Vec::new();
    if let Some(b) = &round.bcast_out {
        if round.engine_round == 2 {
            msgs.push(MessageOut::new_bcast_r3(b.as_slice(), round_str.as_str()));
        } else {
            msgs.push(MessageOut::new_bcast(b.as_slice(), round_str.as_str()));
        }
    }
    let ghost base: int = if round.bcast_out is Some {
        1int
    } else {
        0int
    };
    let mut j: usize = 0;
    while j < round.p2ps_out.len()
        invariant
            j <= round.p2ps_out@.len(),
            party_uids@.len() == party_share_counts@.len(),
            round_str@ == dec_chars(round.engine_round as nat),
            base == (if round.bcast_out is Some {
                1int
            } else {
                0int
            }),
            msgs@.len() == base + j,
            (round.bcast_out matches Some(b) ==> is_traffic(
                msgs@[0],
                if round.engine_round == 2 {
                    dispute_tag()
                } else {
                    Seq::empty()
                },
                b@,
                true,
                dec_chars(round.engine_round as nat),
            )),
            forall|k: int|
                0 <= k < j ==> is_traffic(
                    #[trigger] msgs@[base + k],
                    party_uids@[spec_party_of(
                        party_share_counts@,
                        round.p2ps_out@[k].0 as int,
                    )]@,
                    round.p2ps_out@[k].1@,
                    false,
                    dec_chars(round.engine_round as nat),
                ),
            forall|k: int|
                0 <= k < j ==> (#[trigger] round.p2ps_out@[k]).0 < spec_total_shares(
                    party_share_counts@,
                ),
        decreases round.p2ps_out@.len() - j,
    {
        let share_index = round.p2ps_out[j].0;
        let tofnd_idx = match share_to_party_id(party_share_counts, share_index) {
            Ok(p) => p,
            Err(e) => {
                return Err(e);
            },
        };
        let payload = &round.p2ps_out[j].1;
        msgs.push(
            MessageOut::new_p2p(
                party_uids[tofnd_idx].as_str(),
                payload.as_slice(),
                round_str.as_str(),
            ),
        );
        j = j + 1;
    }
    Ok(msgs)
}

/// How one round's incoming phase ends: satisfied, aborted by the round's
/// sentinel, aborted by a closed channel, or failed on an unknown sender.
#[derive(Clone, Copy, Debug, PartialEq, Eq, Structural)]
pub enum PhaseResult {
    Satisfied,
    AbortedSentinel,
    ChannelClosed,
    FailedUnknownSender,
}

/// The incoming phase of one round, starting at `pos` in the inbound
/// stream and needing `needed` accepted messages: skipped records consume
/// input, the round's sentinel or an unknown sender end the phase at once,
/// and a drained stream counts as a closed channel.  Returns the phase's
/// end and the position of the first unconsumed record.
pub open spec fn spec_incoming_phase(
    inbound: Seq<Option<TrafficIn>>,
    pos: int,
    needed: int,
    round_count: usize,
    uids: Seq<String>,
) -> (PhaseResult, int)
    decreases inbound.len() - pos,
{
    if needed <= 0 {
        (PhaseResult::Satisfied, pos)
    } else if pos < 0 || pos >= inbound.len() {
        (PhaseResult::ChannelClosed, pos)
    } else {
        match spec_classify(inbound[pos], round_count, uids) {
            IncomingAction::MissingData => spec_incoming_phase(
                inbound,
                pos + 1,
                needed,
                round_count,
                uids,
            ),
            IncomingAction::StaleTimeout => spec_incoming_phase(
                inbound,
                pos + 1,
                needed,
                round_count,
                uids,
            ),
            IncomingAction::AbortRound => (PhaseResult::AbortedSentinel, pos + 1),
            IncomingAction::UnknownSender => (PhaseResult::FailedUnknownSender, pos + 1),
            IncomingAction::Deliver { from, dispute } => spec_incoming_phase(
                inbound,
                pos + 1,
                needed - 1,
                round_count,
                uids,
            ),
        }
    }
}

/// Runs one round's incoming phase over the inbound records from `pos` on.
pub fn run_incoming_phase(
    inbound: &Vec<Option<TrafficIn>>,
    pos: usize,
    expected_msgs: usize,
    round_count: usize,
    party_uids: &Vec<String>,
) -> (r: (PhaseResult, usize))
    requires
        pos <= inbound@.len(),
    ensures
        (r.0, r.1 as int) == spec_incoming_phase(
            inbound@,
            pos as int,
            expected_msgs as int,
            round_count,
            party_uids@,
        ),
        r.1 <= inbound@.len(),
{
    let mut p = pos;
    let mut needed = expected_msgs;
    while needed > 0
        invariant
            pos <= p <= inbound@.len(),
            needed <= expected_msgs,
            spec_incoming_phase(
                inbound@,
                pos as int,
                expected_msgs as int,
                round_count,
                party_uids@,
            ) == spec_incoming_phase(
                inbound@,
                p as int,
                needed as int,
                round_count,
                party_uids@,
            ),
        decreases inbound@.len() - p, needed,
    {
        if p == inbound.len() {
            return (PhaseResult::ChannelClosed, p);
        }
        let action = classify_incoming(&inbound[p], round_count, party_uids);
        p = p + 1;
        match action {
            IncomingAction::MissingData => {},
            IncomingAction::StaleTimeout => {},
            IncomingAction::AbortRound => {
                return (PhaseResult::AbortedSentinel, p);
            },
            IncomingAction::UnknownSender => {
                return (PhaseResult::FailedUnknownSender, p);
            },
            IncomingAction::Deliver { from: _, dispute: _ } => {
                needed = needed - 1;
            },
        }
    }
    (PhaseResult::Satisfied, p)
}

/// A fatal session failure: a routing error, the engine's own failure, or
/// a protocol that never declared completion.
#[derive(Clone, Copy, Debug, PartialEq, Eq, Structural)]
pub enum SessionError {
    UnknownShareIndex { round: usize },
    UnknownSender { round: usize },
    EngineFailure { round: usize },
    ProtocolIncomplete,
}

/// Why a session aborted: the round's explicit sentinel, or the inbound
/// channel closing before the round was satisfied.
#[derive(Clone, Copy, Debug, PartialEq, Eq, Structural)]
pub enum AbortReason {
    Sentinel { round: usize },
    ChannelClosed { round: usize },
}

/// A session's terminal state: completed with an output, completed with a
/// fault set, aborted, or failed hard.  Success and faults are mutually
/// exclusive by construction.
#[derive(Clone, Debug, PartialEq, Eq)]
pub enum SessionOutcome {
    Completed(Vec<u8>),
    Faulted(Vec<Option<Fault>>),
    Aborted(AbortReason),
    Failed(SessionError),
}

/// The terminal state a session reaches, given the engine's per-round
/// behaviour and the inbound stream: rounds run in order, each one fanning
/// out, reading until satisfied or interrupted, then advancing; the first
/// terminal condition ends the session.
pub open spec fn spec_session(
    rounds: Seq<EngineRound>,
    inbound: Seq<Option<TrafficIn>>,
    uids: Seq<String>,
    counts: Seq<usize>,
    rc: usize,
    pos: int,
) -> SessionOutcome
    decreases rounds.len(),
{
    if rounds.len() == 0 {
        SessionOutcome::Failed(SessionError::ProtocolIncomplete)
    } else {
        let round = rounds[0];
        let rc1 = ((rc + 1) as usize);
        if !spec_outgoing_ok(round, counts) {
            SessionOutcome::Failed(SessionError::UnknownShareIndex { round: rc1 })
        } else {
            let ph = spec_incoming_phase(inbound, pos, round.expected_msgs as int, rc1, uids);
            match ph.0 {
                PhaseResult::ChannelClosed => SessionOutcome::Aborted(
                    AbortReason::ChannelClosed { round: rc1 },
                ),
                PhaseResult::AbortedSentinel => SessionOutcome::Aborted(
                    AbortReason::Sentinel { round: rc1 },
                ),
                PhaseResult::FailedUnknownSender => SessionOutcome::Failed(
                    SessionError::UnknownSender { round: rc1 },
                ),
                PhaseResult::Satisfied => match round.outcome {
                    AdvanceOutcome::NotDone => spec_session(
                        rounds.drop_first(),
                        inbound,
                        uids,
                        counts,
                        rc1,
                        ph.1,
                    ),
                    AdvanceOutcome::DoneOutput(o) => SessionOutcome::Completed(o),
                    AdvanceOutcome::DoneFaults(f) => SessionOutcome::Faulted(f),
                    AdvanceOutcome::Failure => SessionOutcome::Failed(
                        SessionError::EngineFailure { round: rc1 },
                    ),
                },
            }
        }
    }
}

/// Whether `msgs` is exactly what the session sends: each executed round
/// contributes its outgoing block, and the session stops contributing at
/// its terminal round.
pub open spec fn session_msgs(
    rounds: Seq<EngineRound>,
    inbound: Seq<Option<TrafficIn>>,
    uids: Seq<String>,
    counts: Seq<usize>,
    rc: usize,
    pos: int,
    msgs: Seq<MessageOut>,
) -> bool
    decreases rounds.len(),
{
    if rounds.len() == 0 {
        msgs.len() == 0
    } else {
        let round = rounds[0];
        let rc1 = ((rc + 1) as usize);
        if !spec_outgoing_ok(round, counts) {
            msgs.len() == 0
        } else {
            let base = outgoing_count(round);
            let ph = spec_incoming_phase(inbound, pos, round.expected_msgs as int, rc1, uids);
            &&& msgs.len() >= base
            &&& is_round_msgs(msgs.subrange(0, base), round, uids, counts)
            &&& match ph.0 {
                PhaseResult::Satisfied => match round.outcome {
                    AdvanceOutcome::NotDone => session_msgs(
                        rounds.drop_first(),
                        inbound,
                        uids,
                        counts,
                        rc1,
                        ph.1,
                        msgs.subrange(base, msgs.len() as int),
                    ),
                    _ => msgs.len() == base,
                },
                _ => msgs.len() == base,
            }
        }
    }
}

/// One session, driven to its terminal state.  The engine is consumed as
/// data — one `EngineRound` per round — and the inbound stream as a
/// sequence of records; the result is everything the session sent and the
/// terminal state it reached.
fn run_session(
    party: Vec<EngineRound>,
    inbound: &Vec<Option<TrafficIn>>,
    party_uids: &Vec<String>,
    party_share_counts: &Vec<usize>,
    rc: usize,
    pos: usize,
) -> (r: (Vec<MessageOut>, SessionOutcome))
    requires
        pos <= inbound@.len(),
        rc + party@.len() <= usize::MAX,
        party_uids@.len() == party_share_counts@.len(),
    ensures
        r.1 == spec_session(party@, inbound@, party_uids@, party_share_counts@, rc, pos as int),
        session_msgs(party@, inbound@, party_uids@, party_share_counts@, rc, pos as int, r.0@),
    decreases party@.len(),
{
    let ghost rounds0 = party@;
    if party.len() == 0 {
        return (Vec::new(), SessionOutcome::Failed(SessionError::ProtocolIncomplete));
    }
    let mut rest = party;
    let round = rest.remove(0);
    proof {
        assert(rest@ =~= rounds0.drop_first());
    }
    let rc1 = rc + 1;
    let mut msgs = match handle_outgoing(&round, party_uids, party_share_counts) {
        Ok(m) => m,
        Err(_) => {
            return (
                Vec::new(),
                SessionOutcome::Failed(SessionError::UnknownShareIndex { round: rc1 }),
            );
        },
    };
    let ghost base = outgoing_count(rounds0[0]);
    let (phase, pos2) = run_incoming_phase(inbound, pos, round.expected_msgs, rc1, party_uids);
    proof {
        assert(msgs@.subrange(0, base) =~= msgs@);
    }
    match phase {
        PhaseResult::ChannelClosed => (
            msgs,
            SessionOutcome::Aborted(AbortReason::ChannelClosed { round: rc1 }),
        ),
        PhaseResult::AbortedSentinel => (
            msgs,
            SessionOutcome::Aborted(AbortReason::Sentinel { round: rc1 }),
        ),
        PhaseResult::FailedUnknownSender => (
            msgs,
            SessionOutcome::Failed(SessionError::UnknownSender { round: rc1 }),
        ),
        PhaseResult::Satisfied => match round.outcome {
            AdvanceOutcome::NotDone => {
                let (mut rest_msgs, out) = run_session(
                    rest,
                    inbound,
                    party_uids,
                    party_share_counts,
                    rc1,
                    pos2,
                );
                let ghost block = msgs@;
                let ghost tail = rest_msgs@;
                msgs.append(&mut rest_msgs);
                proof {
                    assert(msgs@.subrange(0, base) =~= block);
                    assert(msgs@.subrange(base, msgs@.len() as int) =~= tail);
                }
                (msgs, out)
            },
            AdvanceOutcome::DoneOutput(o) => (msgs, SessionOutcome::Completed(o)),
            AdvanceOutcome::DoneFaults(f) => (msgs, SessionOutcome::Faulted(f)),
            AdvanceOutcome::Failure => (
                msgs,
                SessionOutcome::Failed(SessionError::EngineFailure { round: rc1 }),
            ),
        },
    }
}

/// Executes one protocol session to its terminal state: per round, fan out
/// the engine's messages, read inbound records until the engine is
/// satisfied or the round is interrupted, and advance the engine.  Returns
/// everything the session sent and the terminal state.
pub fn execute_protocol(
    party: Vec<EngineRound>,
    inbound: &Vec<Option<TrafficIn>>,
    party_uids: &Vec<String>,
    party_share_counts: &Vec<usize>,
) -> (r: (Vec<MessageOut>, SessionOutcome))
    requires
        party_uids@.len() == party_share_counts@.len(),
    ensures
        r.1 == spec_session(party@, inbound@, party_uids@, party_share_counts@, 0, 0),
        session_msgs(party@, inbound@, party_uids@, party_share_counts@, 0, 0, r.0@),
{
    let rounds_len = party.len();
    proof {
        assert(party@.len() == rounds_len);
    }
    run_session(party, inbound, party_uids, party_share_counts, 0, 0)
}

/// An incoming phase whose next `needed` records are all accepted protocol
/// messages is satisfied exactly by them.
proof fn lemma_phase_all_delivered(
    inbound: Seq<Option<TrafficIn>>,
    pos: int,
    needed: int,
    round_count: usize,
    uids: Seq<String>,
)
    requires
        0 <= pos,
        0 <= needed,
        pos + needed <= inbound.len(),
        forall|k: int|
            pos <= k < pos + needed ==> spec_classify(
                #[trigger] inbound[k],
                round_count,
                uids,
            ) is Deliver,
    ensures
        spec_incoming_phase(inbound, pos, needed, round_count, uids) == (
            PhaseResult::Satisfied,
            pos + needed,
        ),
    decreases needed,
{
    if needed > 0 {
        assert(spec_classify(inbound[pos], round_count, uids) is Deliver);
        lemma_phase_all_delivered(inbound, pos + 1, needed - 1, round_count, uids);
    }
}

/// An inbound stream that carries, for every round, exactly the accepted
/// protocol messages the round needs, starting at `pos`.
pub open spec fn honest_inbound(
    rounds: Seq<EngineRound>,
    inbound: Seq<Option<TrafficIn>>,
    uids: Seq<String>,
    rc: usize,
    pos: int,
) -> bool
    decreases rounds.len(),
{
    if rounds.len() == 0 {
        true
    } else {
        let n = rounds[0].expected_msgs as int;
        &&& 0 <= pos
        &&& pos + n <= inbound.len()
        &&& forall|k: int|
            pos <= k < pos + n ==> spec_classify(
                #[trigger] inbound[k],
                ((rc + 1) as usize),
                uids,
            ) is Deliver
        &&& honest_inbound(rounds.drop_first(), inbound, uids, ((rc + 1) as usize), pos + n)
    }
}

/// An engine script of an honest run: every recipient resolves, every
/// round but the last reports more rounds, and the last reports completion
/// with a non-empty output.
pub open spec fn honest_engine(rounds: Seq<EngineRound>, counts: Seq<usize>) -> bool {
    &&& rounds.len() > 0
    &&& forall|i: int| 0 <= i < rounds.len() ==> spec_outgoing_ok(#[trigger] rounds[i], counts)
    &&& forall|i: int|
        0 <= i < rounds.len() - 1 ==> (#[trigger] rounds[i]).outcome is NotDone
    &&& rounds.last().outcome matches AdvanceOutcome::DoneOutput(o) && o@.len() > 0
}

/// A session that receives, for every round, exactly the messages an
/// honest run of the opposite party set would send, terminates in the
/// completed state with the engine's non-empty output — and with no fault
/// set, completion and faults being mutually exclusive outcomes.
pub proof fn lemma_honest_run_completes(
    rounds: Seq<EngineRound>,
    inbound: Seq<Option<TrafficIn>>,
    uids: Seq<String>,
    counts: Seq<usize>,
    rc: usize,
    pos: int,
)
    requires
        honest_engine(rounds, counts),
        honest_inbound(rounds, inbound, uids, rc, pos),
    ensures
        spec_session(rounds, inbound, uids, counts, rc, pos) matches SessionOutcome::Completed(o)
            && o@.len() > 0 && rounds.last().outcome == AdvanceOutcome::DoneOutput(o),
    decreases rounds.len(),
{
    let round = rounds[0];
    let rc1 = ((rc + 1) as usize);
    let n = round.expected_msgs as int;
    lemma_phase_all_delivered(inbound, pos, n, rc1, uids);
    if rounds.len() == 1 {
        assert(rounds.last() == round);
    } else {
        assert(rounds[0].outcome is NotDone);
        let rest = rounds.drop_first();
        assert(honest_engine(rest, counts)) by {
            assert(forall|i: int|
                0 <= i < rest.len() ==> #[trigger] rest[i] == rounds[i + 1]);
            assert(rest.last() == rounds.last());
        }
        lemma_honest_run_completes(rest, inbound, uids, counts, rc1, pos + n);
        assert(rest.last() == rounds.last());
    }
}

/// The number of accepted protocol messages among the inbound records
/// `[pos, end)` for a round.
pub open spec fn delivered_count(
    inbound: Seq<Option<TrafficIn>>,
    pos: int,
    end: int,
    round_count: usize,
    uids: Seq<String>,
) -> int
    decreases end - pos,
{
    if pos >= end {
        0
    } else {
        (if spec_classify(inbound[pos], round_count, uids) is Deliver {
            1int
        } else {
            0int
        }) + delivered_count(inbound, pos + 1, end, round_count, uids)
    }
}

/// A record carrying the round's abort sentinel, arriving while the round
/// still waits for messages — nothing before it aborts, fails, or
/// satisfies the round — ends the incoming phase with a sentinel abort.
pub proof fn lemma_sentinel_ends_phase(
    inbound: Seq<Option<TrafficIn>>,
    pos: int,
    at: int,
    needed: int,
    round_count: usize,
    uids: Seq<String>,
)
    requires
        0 <= pos <= at < inbound.len(),
        spec_classify(inbound[at], round_count, uids) == IncomingAction::AbortRound,
        forall|k: int|
            pos <= k < at ==> match spec_classify(#[trigger] inbound[k], round_count, uids) {
                IncomingAction::MissingData => true,
                IncomingAction::StaleTimeout => true,
                IncomingAction::Deliver { from, dispute } => true,
                _ => false,
            },
        delivered_count(inbound, pos, at, round_count, uids) < needed,
    ensures
        spec_incoming_phase(inbound, pos, needed, round_count, uids) == (
            PhaseResult::AbortedSentinel,
            at + 1,
        ),
    decreases at - pos,
{
    if pos == at {
    } else {
        assert(delivered_count(inbound, pos, at, round_count, uids) >= 0) by {
            lemma_delivered_count_nonneg(inbound, pos, at, round_count, uids);
        }
        match spec_classify(inbound[pos], round_count, uids) {
            IncomingAction::Deliver { from, dispute } => {
                lemma_sentinel_ends_phase(inbound, pos + 1, at, needed - 1, round_count, uids);
            },
            _ => {
                lemma_sentinel_ends_phase(inbound, pos + 1, at, needed, round_count, uids);
            },
        }
    }
}

proof fn lemma_delivered_count_nonneg(
    inbound: Seq<Option<TrafficIn>>,
    pos: int,
    end: int,
    round_count: usize,
    uids: Seq<String>,
)
    ensures
        delivered_count(inbound, pos, end, round_count, uids) >= 0,
    decreases end - pos,
{
    if pos < end {
        lemma_delivered_count_nonneg(inbound, pos + 1, end, round_count, uids);
    }
}

/// Injecting the abort sentinel during the incoming phase of a round
/// terminates the session in the aborted state for that round, and the
/// advance phase of that round is never consulted: the terminal state is
/// the same whatever the round's advance would have reported.
pub proof fn lemma_sentinel_aborts_without_advance(
    rounds: Seq<EngineRound>,
    inbound: Seq<Option<TrafficIn>>,
    uids: Seq<String>,
    counts: Seq<usize>,
    rc: usize,
    pos: int,
    alt: AdvanceOutcome,
)
    requires
        rounds.len() > 0,
        spec_outgoing_ok(rounds[0], counts),
        spec_incoming_phase(
            inbound,
            pos,
            rounds[0].expected_msgs as int,
            ((rc + 1) as usize),
            uids,
        ).0 == PhaseResult::AbortedSentinel,
    ensures
        spec_session(rounds, inbound, uids, counts, rc, pos) == SessionOutcome::Aborted(
            AbortReason::Sentinel { round: ((rc + 1) as usize) },
        ),
        spec_session(
            rounds.update(
                0,
                EngineRound {
                    bcast_out: rounds[0].bcast_out,
                    p2ps_out: rounds[0].p2ps_out,
                    engine_round: rounds[0].engine_round,
                    expected_msgs: rounds[0].expected_msgs,
                    outcome: alt,
                },
            ),
            inbound,
            uids,
            counts,
            rc,
            pos,
        ) == spec_session(rounds, inbound, uids, counts, rc, pos),
{
    let changed = rounds.update(
        0,
        EngineRound {
            bcast_out: rounds[0].bcast_out,
            p2ps_out: rounds[0].p2ps_out,
            engine_round: rounds[0].engine_round,
            expected_msgs: rounds[0].expected_msgs,
            outcome: alt,
        },
    );
    assert(changed[0].p2ps_out == rounds[0].p2ps_out);
    assert(spec_outgoing_ok(changed[0], counts));
}

} // verus!
