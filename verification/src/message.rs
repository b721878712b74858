//! Wire message shapes and the fault reporter.
//!
//! Inbound traffic is a byte payload tagged with its sender and a broadcast
//! flag; outbound traffic adds the recipient, the round tag, and — for the
//! distinguished dispute round — a secondary in-round tag.  When a session
//! ends in a faulted state, the engine's per-share fault codes are mapped to
//! an externally visible criminal list, one entry per faulted share index,
//! in share-index order.

use vstd::prelude::*;

verus! {

/// One inbound transport record: sender identifier, payload, broadcast flag.
#[derive(Clone, Debug, PartialEq, Eq)]
pub struct TrafficIn {
    pub from_party_uid: String,
    pub payload: Vec<u8>,
    pub is_broadcast: bool,
}

/// One outbound transport record.  An empty recipient means broadcast; the
/// round number travels as a decimal string.
#[derive(Clone, Debug, PartialEq, Eq)]
pub struct TrafficOut {
    pub to_party_uid: String,
    pub payload: Vec<u8>,
    pub is_broadcast: bool,
    pub round_num: String,
}

/// A fault code reported by the cryptographic engine for one share index.
#[derive(Clone, Copy, Debug, PartialEq, Eq, Structural)]
pub enum Fault {
    MissingMessage,
    CorruptedMessage,
    ProtocolFault,
}

/// The externally visible classification of a fault.
#[derive(Clone, Copy, Debug, PartialEq, Eq, Structural)]
pub enum CrimeType {
    NonMalicious,
    Malicious,
}

/// One accused party with its fault classification.
#[derive(Clone, Debug, PartialEq, Eq)]
pub struct Criminal {
    pub party_uid: String,
    pub crime_type: CrimeType,
}

/// The ordered list of accused parties reported to the caller.
#[derive(Clone, Debug, PartialEq, Eq)]
pub struct CriminalList {
    pub criminals: Vec<Criminal>,
}

/// The engine's fault set: one slot per index, `Some` where that index
/// faulted.
pub type KeygenFaults = Vec<Option<Fault>>;

/// A completed keygen either yields an opaque output payload or a fault set.
pub type KeygenResultData = Result<Vec<u8>, KeygenFaults>;

/// The payload of a keygen-result message: the output on success, the
/// criminal list on a faulted completion.
#[derive(Clone, Debug, PartialEq, Eq)]
pub enum KeygenResultOut {
    Data(Vec<u8>),
    Criminals(CriminalList),
}

/// The body of one outbound message.
#[derive(Clone, Debug, PartialEq, Eq)]
pub enum MessageOutData {
    Traffic(TrafficOut),
    NeedRecover(bool),
    KeygenResult(Option<KeygenResultOut>),
}

/// One outbound message, mirroring the transport's message envelope.
#[derive(Clone, Debug, PartialEq, Eq)]
pub struct MessageOut {
    pub data: Option<MessageOutData>,
}

/// The secondary in-round tag of the distinguished dispute round's
/// broadcast, carried in the recipient field of a broadcast record.
pub open spec fn dispute_tag() -> Seq<char> {
    seq!['r', '3']
}

/// Whether `m` is the traffic record with the given recipient, payload,
/// broadcast flag and round tag.
pub open spec fn is_traffic(
    m: MessageOut,
    to: Seq<char>,
    payload: Seq<u8>,
    bcast: bool,
    round: Seq<char>,
) -> bool {
    match m.data {
        Some(MessageOutData::Traffic(t)) => {
            &&& t.to_party_uid@ == to
            &&& t.payload@ == payload
            &&& t.is_broadcast == bcast
            &&& t.round_num@ == round
        },
        _ => false,
    }
}

/// The classification of one fault code: a missing or corrupted message is
/// non-malicious, a protocol violation is malicious.
pub open spec fn spec_crime(f: Fault) -> CrimeType {
    match f {
        Fault::MissingMessage => CrimeType::NonMalicious,
        Fault::CorruptedMessage => CrimeType::NonMalicious,
        Fault::ProtocolFault => CrimeType::Malicious,
    }
}

/// The criminal list derived from a fault set: one entry per `Some` slot,
/// carrying the owning identifier and the classification, in index order.
pub open spec fn spec_criminals(faults: Seq<Option<Fault>>, uids: Seq<String>) -> Seq<Criminal>
    decreases faults.len(),
{
    if faults.len() == 0 {
        Seq::empty()
    } else {
        let rest = spec_criminals(faults.drop_last(), uids);
        match faults.last() {
            Some(f) => rest.push(
                Criminal { party_uid: uids[faults.len() - 1], crime_type: spec_crime(f) },
            ),
            None => rest,
        }
    }
}

/// Maps one engine fault code to its external classification.
pub fn fault_to_crime(f: &Fault) -> (r: CrimeType)
    ensures
        r == spec_crime(*f),
{
    match f {
        Fault::MissingMessage => CrimeType::NonMalicious,
        Fault::CorruptedMessage => CrimeType::NonMalicious,
        Fault::ProtocolFault => CrimeType::Malicious,
    }
}

impl CriminalList {
    /// Converts the engine's fault set into the external criminal list,
    /// preserving share-index order.
    pub fn from_tofn_faults(faults: &Vec<Option<Fault>>, uids: &Vec<String>) -> (r: Self)
        requires
            faults@.len() <= uids@.len(),
        ensures
            r.criminals@ == spec_criminals(faults@, uids@),
    {
        let mut criminals: Vec<Criminal> = Vec::new();
        let mut i: usize = 0;
        while i < faults.len()
            invariant
                i <= faults@.len() <= uids@.len(),
                criminals@ == spec_criminals(faults@.subrange(0, i as int), uids@),
            decreases faults@.len() - i,
        {
            let ghost pre = faults@.subrange(0, i as int);
            let ghost pre1 = faults@.subrange(0, i + 1);
            proof {
                assert(pre1.drop_last() =~= pre);
                assert(pre1.last() == faults@[i as int]);
            }
            match &faults[i] {
                Some(f) => {
                    criminals.push(
                        Criminal { party_uid: uids[i].clone(), crime_type: fault_to_crime(f) },
                    );
                },
                None => {},
            }
            i = i + 1;
        }
        proof {
            assert(faults@.subrange(0, faults@.len() as int) =~= faults@);
        }
        CriminalList { criminals }
    }
}

impl MessageOut {
    /// Builds one outbound traffic record.
    pub fn new_traffic(receiver_id: &str, msg: &[u8], is_broadcast: bool, round_num: &str) -> (r:
        Self)
        ensures
            is_traffic(r, receiver_id@, msg@, is_broadcast, round_num@),
    {
        MessageOut {
            data: Some(
                MessageOutData::Traffic(
                    TrafficOut {
                        to_party_uid: receiver_id.to_owned(),
                        payload: vstd::slice::slice_to_vec(msg),
                        is_broadcast,
                        round_num: round_num.to_owned(),
                    },
                ),
            ),
        }
    }

    /// Builds a round broadcast: an empty recipient marks a broadcast.
    pub fn new_bcast(bcast: &[u8], round_num: &str) -> (r: Self)
        ensures
            is_traffic(r, Seq::empty(), bcast@, true, round_num@),
    {
        proof {
            reveal_strlit("");
            assert(""@ =~= Seq::<char>::empty());
        }
        Self::new_traffic("", bcast, true, round_num)
    }

    /// Builds the distinguished round's broadcast, tagged so the receiver
    /// can tell the dispute payload from the normal round payload.
    pub fn new_bcast_r3(bcast: &[u8], round_num: &str) -> (r: Self)
        ensures
            is_traffic(r, dispute_tag(), bcast@, true, round_num@),
    {
        proof {
            reveal_strlit("r3");
            assert("r3"@ =~= dispute_tag());
        }
        Self::new_traffic("r3", bcast, true, round_num)
    }

    /// Builds a point-to-point record for one recipient.
    pub fn new_p2p(receiver_id: &str, p2p: &[u8], round_num: &str) -> (r: Self)
        ensures
            is_traffic(r, receiver_id@, p2p@, false, round_num@),
    {
        Self::new_traffic(receiver_id, p2p, false, round_num)
    }

    /// Signals that this party needs its key material recovered.
    pub fn need_recover() -> (r: Self)
        ensures
            r.data == Some(MessageOutData::NeedRecover(true)),
    {
        MessageOut { data: Some(MessageOutData::NeedRecover(true)) }
    }

    /// Wraps a completed keygen's result: the output payload on success, the
    /// criminal list derived from the fault set on a faulted completion.
    pub fn new_keygen_result(participant_uids: &Vec<String>, result: KeygenResultData) -> (r: Self)
        requires
            (result matches Err(faults) ==> faults@.len() <= participant_uids@.len()),
        ensures
            match result {
                Ok(output) => r.data == Some(
                    MessageOutData::KeygenResult(Some(KeygenResultOut::Data(output))),
                ),
                Err(faults) => match r.data {
                    Some(MessageOutData::KeygenResult(Some(KeygenResultOut::Criminals(cl)))) => cl
                        .criminals@ == spec_criminals(faults@, participant_uids@),
                    _ => false,
                },
            },
    {
        let data = match result {
            Ok(keygen_output) => KeygenResultOut::Data(keygen_output),
            Err(faults) => KeygenResultOut::Criminals(
                CriminalList::from_tofn_faults(&faults, participant_uids),
            ),
        };
        MessageOut { data: Some(MessageOutData::KeygenResult(Some(data))) }
    }
}

} // verus!
