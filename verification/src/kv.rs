//! Key-share storage with two-phase reservation.
//!
//! A key identifier must never receive two records.  Writing is therefore
//! split in two: `reserve_key` hands out a capability proving that no other
//! writer holds the identifier, and `put` consumes that capability to commit
//! the record.  A reservation may instead be dropped, releasing the
//! identifier without making anything visible.  The store's behaviour is
//! specified against a model of two components: the committed records and
//! the reserved identifiers.

use vstd::prelude::*;

verus! {

/// The persisted output of a successful keygen session: this party's opaque
/// share blobs, the session's party list and share counts, and this party's
/// own index.
#[derive(Clone, Debug, PartialEq, Eq)]
pub struct PartyInfo {
    pub shares: Vec<Vec<u8>>,
    pub party_uids: Vec<String>,
    pub share_counts: Vec<usize>,
    pub my_index: usize,
}

/// The sanitized parameters of a keygen session, as storage needs them.
#[derive(Clone, Debug, PartialEq, Eq)]
pub struct KeygenInitSanitized {
    pub new_key_uid: String,
    pub party_uids: Vec<String>,
    pub party_share_counts: Vec<usize>,
    pub my_index: usize,
}

impl PartyInfo {
    /// Bundles a session's secret shares and metadata into the record shape
    /// the store persists.
    pub fn get_party_info(
        secret_key_shares: Vec<Vec<u8>>,
        uids: Vec<String>,
        share_counts: Vec<usize>,
        tofnd_index: usize,
    ) -> (r: Self)
        ensures
            r == (PartyInfo {
                shares: secret_key_shares,
                party_uids: uids,
                share_counts: share_counts,
                my_index: tofnd_index,
            }),
    {
        PartyInfo { shares: secret_key_shares, party_uids: uids, share_counts, my_index: tofnd_index }
    }
}

/// Storage errors: reservation conflicts are recoverable and specific; a
/// `put` without a live reservation is a storage failure; `get` of an
/// unknown identifier is not found.
#[derive(Clone, Copy, Debug, PartialEq, Eq, Structural)]
pub enum KvError {
    AlreadyReserved,
    AlreadyExists,
    StorageFailure,
    NotFound,
}

/// The capability handed out by `reserve_key`: proof of exclusive,
/// temporary ownership of one key identifier.
#[derive(Debug)]
pub struct KeyReservation {
    pub key: String,
}

/// The abstract state of the store: the committed records and the
/// identifiers currently held by a live reservation.
pub struct KvModel {
    pub committed: Map<Seq<char>, PartyInfo>,
    pub reserved: Set<Seq<char>>,
}

/// A reservation is granted exactly when the identifier has neither a
/// committed record nor a live reservation.
pub open spec fn reserve_granted(m: KvModel, key: Seq<char>) -> bool {
    !m.committed.contains_key(key) && !m.reserved.contains(key)
}

/// The store after a reservation attempt: on a grant the identifier joins
/// the reserved set; a refused attempt changes nothing.
pub open spec fn reserve_next(m: KvModel, key: Seq<char>) -> KvModel {
    if reserve_granted(m, key) {
        KvModel { committed: m.committed, reserved: m.reserved.insert(key) }
    } else {
        m
    }
}

/// A record may be committed only under a live reservation.
pub open spec fn put_permitted(m: KvModel, key: Seq<char>) -> bool {
    m.reserved.contains(key)
}

/// The store after a commit attempt: under a live reservation the record
/// becomes committed and the reservation is consumed; otherwise nothing
/// changes.
pub open spec fn put_next(m: KvModel, key: Seq<char>, value: PartyInfo) -> KvModel {
    if put_permitted(m, key) {
        KvModel { committed: m.committed.insert(key, value), reserved: m.reserved.remove(key) }
    } else {
        m
    }
}

/// The store after a reservation is dropped: the identifier is released,
/// the committed records stay as they are.
pub open spec fn unreserve_next(m: KvModel, key: Seq<char>) -> KvModel {
    KvModel { committed: m.committed, reserved: m.reserved.remove(key) }
}

/// What `get` observes: the committed record, if any.
pub open spec fn get_model(m: KvModel, key: Seq<char>) -> Option<PartyInfo> {
    if m.committed.contains_key(key) {
        Some(m.committed[key])
    } else {
        None
    }
}

/// Of two reservation attempts for the same identifier, exactly one is
/// granted: after the first grant the second attempt is refused, and the
/// refusal is a reservation conflict, not an existing record — whichever
/// of the two callers runs first.
pub proof fn lemma_reserve_exclusive(m: KvModel, key: Seq<char>)
    requires
        reserve_granted(m, key),
    ensures
        !reserve_granted(reserve_next(m, key), key),
        reserve_next(m, key).committed == m.committed,
        reserve_next(m, key).reserved.contains(key),
{
}

/// A dropped reservation leaves no trace: after reserving and releasing an
/// uncommitted identifier, a commit is no longer permitted, attempting one
/// changes nothing, and a read finds nothing.
pub proof fn lemma_dropped_reservation_invisible(m: KvModel, key: Seq<char>, value: PartyInfo)
    requires
        !m.committed.contains_key(key),
    ensures
        !put_permitted(unreserve_next(reserve_next(m, key), key), key),
        put_next(unreserve_next(reserve_next(m, key), key), key, value) == unreserve_next(
            reserve_next(m, key),
            key,
        ),
        get_model(unreserve_next(reserve_next(m, key), key), key) is None,
{
}

/// Round trip: a granted reservation permits the commit, and a read after
/// the commit returns exactly the record that was written.
pub proof fn lemma_put_get_round_trip(m: KvModel, key: Seq<char>, value: PartyInfo)
    requires
        reserve_granted(m, key),
    ensures
        put_permitted(reserve_next(m, key), key),
        get_model(put_next(reserve_next(m, key), key, value), key) == Some(value),
{
}

/// The committed records, keyed by identifier, drawn from the record list.
spec fn map_of(s: Seq<(String, PartyInfo)>) -> Map<Seq<char>, PartyInfo>
    decreases s.len(),
{
    if s.len() == 0 {
        Map::empty()
    } else {
        map_of(s.drop_last()).insert(s.last().0@, s.last().1)
    }
}

/// The reserved identifiers, drawn from the reservation list.
spec fn set_of(s: Seq<String>) -> Set<Seq<char>>
    decreases s.len(),
{
    if s.len() == 0 {
        Set::empty()
    } else {
        set_of(s.drop_last()).insert(s.last()@)
    }
}

spec fn distinct_pairs(s: Seq<(String, PartyInfo)>) -> bool {
    forall|i: int, j: int| 0 <= i < j < s.len() ==> (#[trigger] s[i]).0@ != (#[trigger] s[j]).0@
}

spec fn distinct_strs(s: Seq<String>) -> bool {
    forall|i: int, j: int| 0 <= i < j < s.len() ==> (#[trigger] s[i])@ != (#[trigger] s[j])@
}

proof fn lemma_map_of_contains(s: Seq<(String, PartyInfo)>, k: Seq<char>)
    ensures
        map_of(s).contains_key(k) <==> (exists|i: int| 0 <= i < s.len() && (#[trigger] s[i]).0@
            == k),
    decreases s.len(),
{
    if s.len() > 0 {
        lemma_map_of_contains(s.drop_last(), k);
        if s.last().0@ == k {
            assert((s[s.len() - 1]).0@ == k);
        } else {
            if map_of(s).contains_key(k) {
                let i = choose|i: int|
                    0 <= i < s.drop_last().len() && (#[trigger] s.drop_last()[i]).0@ == k;
                assert((s[i]).0@ == k);
            }
            if exists|i: int| 0 <= i < s.len() && (#[trigger] s[i]).0@ == k {
                let i = choose|i: int| 0 <= i < s.len() && (#[trigger] s[i]).0@ == k;
                assert(i < s.len() - 1);
                assert((s.drop_last()[i]).0@ == k);
            }
        }
    }
}

proof fn lemma_map_of_value(s: Seq<(String, PartyInfo)>, i: int)
    requires
        distinct_pairs(s),
        0 <= i < s.len(),
    ensures
        map_of(s).contains_key(s[i].0@),
        map_of(s)[s[i].0@] == s[i].1,
    decreases s.len(),
{
    if i == s.len() - 1 {
    } else {
        assert(distinct_pairs(s.drop_last())) by {
            assert(forall|p: int, q: int|
                0 <= p < q < s.len() - 1 ==> (#[trigger] s.drop_last()[p]).0@ != (
                #[trigger] s.drop_last()[q]).0@);
        }
        assert(s.drop_last()[i] == s[i]);
        lemma_map_of_value(s.drop_last(), i);
        assert(s[i].0@ != s.last().0@);
    }
}

proof fn lemma_set_of_contains(s: Seq<String>, k: Seq<char>)
    ensures
        set_of(s).contains(k) <==> (exists|i: int| 0 <= i < s.len() && (#[trigger] s[i])@ == k),
    decreases s.len(),
{
    if s.len() > 0 {
        lemma_set_of_contains(s.drop_last(), k);
        if s.last()@ == k {
            assert((s[s.len() - 1])@ == k);
        } else {
            if set_of(s).contains(k) {
                let i = choose|i: int|
                    0 <= i < s.drop_last().len() && (#[trigger] s.drop_last()[i])@ == k;
                assert((s[i])@ == k);
            }
            if exists|i: int| 0 <= i < s.len() && (#[trigger] s[i])@ == k {
                let i = choose|i: int| 0 <= i < s.len() && (#[trigger] s[i])@ == k;
                assert(i < s.len() - 1);
                assert((s.drop_last()[i])@ == k);
            }
        }
    }
}

proof fn lemma_set_of_remove(s: Seq<String>, i: int)
    requires
        distinct_strs(s),
        0 <= i < s.len(),
    ensures
        set_of(s.remove(i)) == set_of(s).remove(s[i]@),
{
    let removed = s.remove(i);
    assert forall|k: Seq<char>| set_of(removed).contains(k) implies set_of(s).remove(
        s[i]@,
    ).contains(k) by {
        lemma_set_of_contains(removed, k);
        let j = choose|j: int| 0 <= j < removed.len() && (#[trigger] removed[j])@ == k;
        if j < i {
            assert(s[j]@ == k);
            lemma_set_of_contains(s, k);
        } else {
            assert(s[j + 1]@ == k);
            lemma_set_of_contains(s, k);
        }
    }
    assert forall|k: Seq<char>| set_of(s).remove(s[i]@).contains(k) implies set_of(
        removed,
    ).contains(k) by {
        lemma_set_of_contains(s, k);
        let j = choose|j: int| 0 <= j < s.len() && (#[trigger] s[j])@ == k;
        assert(j != i);
        if j < i {
            assert(removed[j]@ == k);
        } else {
            assert(removed[j - 1]@ == k);
        }
        lemma_set_of_contains(removed, k);
    }
    assert(set_of(removed) =~= set_of(s).remove(s[i]@));
}

/// The durable store: committed records and live reservations, with one
/// entry per identifier in each.
pub struct KvStore {
    records: Vec<(String, PartyInfo)>,
    reservations: Vec<String>,
}

impl KvStore {
    /// The committed records, keyed by identifier.
    pub closed spec fn committed(self) -> Map<Seq<char>, PartyInfo> {
        map_of(self.records@)
    }

    /// The identifiers currently held by a live reservation.
    pub closed spec fn reserved_keys(self) -> Set<Seq<char>> {
        set_of(self.reservations@)
    }

    /// The store's abstract state.
    pub open spec fn model(self) -> KvModel {
        KvModel { committed: self.committed(), reserved: self.reserved_keys() }
    }

    /// Internal shape: identifiers are unique within each list, and no
    /// identifier is both committed and reserved.
    pub closed spec fn wf(self) -> bool {
        &&& distinct_pairs(self.records@)
        &&& distinct_strs(self.reservations@)
        &&& forall|i: int, j: int|
            0 <= i < self.reservations@.len() && 0 <= j < self.records@.len() ==> (
            #[trigger] self.reservations@[i])@ != (#[trigger] self.records@[j]).0@
    }

    /// An empty store: nothing committed, nothing reserved.
    pub fn new() -> (r: Self)
        ensures
            r.wf(),
            r.model().committed == Map::<Seq<char>, PartyInfo>::empty(),
            r.model().reserved == Set::<Seq<char>>::empty(),
    {
        KvStore { records: Vec::new(), reservations: Vec::new() }
    }

    /// The position of `key` among the committed records, if any.
    fn find_record(&self, key: &String) -> (r: Option<usize>)
        ensures
            match r {
                Some(i) => i < self.records@.len() && self.records@[i as int].0@ == key@,
                None => forall|i: int|
                    0 <= i < self.records@.len() ==> (#[trigger] self.records@[i]).0@ != key@,
            },
    {
        let mut i: usize = 0;
        while i < self.records.len()
            invariant
                i <= self.records@.len(),
                forall|j: int| 0 <= j < i ==> (#[trigger] self.records@[j]).0@ != key@,
            decreases self.records@.len() - i,
        {
            if self.records[i].0 == *key {
                return Some(i);
            }
            i = i + 1;
        }
        None
    }

    /// The position of `key` among the live reservations, if any.
    fn find_reservation(&self, key: &String) -> (r: Option<usize>)
        ensures
            match r {
                Some(i) => i < self.reservations@.len() && self.reservations@[i as int]@ == key@,
                None => forall|i: int|
                    0 <= i < self.reservations@.len() ==> (#[trigger] self.reservations@[i])@
                        != key@,
            },
    {
        let mut i: usize = 0;
        while i < self.reservations.len()
            invariant
                i <= self.reservations@.len(),
                forall|j: int| 0 <= j < i ==> (#[trigger] self.reservations@[j])@ != key@,
            decreases self.reservations@.len() - i,
        {
            if self.reservations[i] == *key {
                return Some(i);
            }
            i = i + 1;
        }
        None
    }

    /// Whether a record is committed under `key`; the key-presence check.
    pub fn key_presence(&self, key: &String) -> (r: bool)
        ensures
            r == self.model().committed.contains_key(key@),
    {
        proof {
            lemma_map_of_contains(self.records@, key@);
        }
        match self.find_record(key) {
            Some(_) => true,
            None => false,
        }
    }

    /// Attempts to reserve `key` for a single writer.  Granted exactly when
    /// the identifier has neither a committed record nor a live
    /// reservation; a committed record refuses with `AlreadyExists`, a live
    /// reservation with `AlreadyReserved`.
    pub fn reserve_key(&mut self, key: String) -> (r: Result<KeyReservation, KvError>)
        requires
            old(self).wf(),
        ensures
            final(self).wf(),
            match r {
                Ok(res) => {
                    &&& reserve_granted(old(self).model(), key@)
                    &&& res.key@ == key@
                    &&& final(self).model() == reserve_next(old(self).model(), key@)
                },
                Err(e) => {
                    &&& !reserve_granted(old(self).model(), key@)
                    &&& *final(self) == *old(self)
                    &&& (e == KvError::AlreadyExists <==> old(self).model().committed.contains_key(
                        key@,
                    ))
                    &&& (e == KvError::AlreadyReserved <==> !old(
                        self,
                    ).model().committed.contains_key(key@))
                },
            },
    {
        proof {
            lemma_map_of_contains(self.records@, key@);
            lemma_set_of_contains(self.reservations@, key@);
        }
        if let Some(_) = self.find_record(&key) {
            return Err(KvError::AlreadyExists);
        }
        if let Some(_) = self.find_reservation(&key) {
            return Err(KvError::AlreadyReserved);
        }
        let ghost pre = self.reservations@;
        self.reservations.push(key.clone());
        proof {
            assert(self.reservations@.drop_last() =~= pre);
            assert(set_of(self.reservations@) =~= set_of(pre).insert(key@));
            assert forall|i: int, j: int|
                0 <= i < j < self.reservations@.len() implies (#[trigger] self.reservations@[i])@
                != (#[trigger] self.reservations@[j])@ by {
                assert(self.reservations@[i] == pre[i]);
                if j == self.reservations@.len() - 1 {
                    assert(self.reservations@[j]@ == key@);
                } else {
                    assert(self.reservations@[j] == pre[j]);
                }
            }
            assert forall|a: int, b: int|
                0 <= a < self.reservations@.len() && 0 <= b < self.records@.len() implies (
            #[trigger] self.reservations@[a])@ != (#[trigger] self.records@[b]).0@ by {
                if a == self.reservations@.len() - 1 {
                    assert(self.reservations@[a]@ == key@);
                } else {
                    assert(self.reservations@[a] == pre[a]);
                }
            }
        }
        Ok(KeyReservation { key })
    }

    /// Commits `value` under the reserved identifier, consuming the
    /// reservation.  Without a live reservation — one that was already
    /// consumed or dropped — nothing is written and the attempt fails.
    pub fn put(&mut self, reservation: KeyReservation, value: PartyInfo) -> (r: Result<
        (),
        KvError,
    >)
        requires
            old(self).wf(),
        ensures
            final(self).wf(),
            match r {
                Ok(()) => {
                    &&& put_permitted(old(self).model(), reservation.key@)
                    &&& final(self).model() == put_next(
                        old(self).model(),
                        reservation.key@,
                        value,
                    )
                },
                Err(e) => {
                    &&& e == KvError::StorageFailure
                    &&& !put_permitted(old(self).model(), reservation.key@)
                    &&& *final(self) == *old(self)
                },
            },
    {
        proof {
            lemma_set_of_contains(self.reservations@, reservation.key@);
        }
        let i = match self.find_reservation(&reservation.key) {
            Some(i) => i,
            None => {
                return Err(KvError::StorageFailure);
            },
        };
        let ghost key = reservation.key@;
        let ghost pre_res = self.reservations@;
        let ghost pre_rec = self.records@;
        self.reservations.remove(i);
        proof {
            lemma_set_of_remove(pre_res, i as int);
        }
        self.records.push((reservation.key, value));
        proof {
            assert(self.records@.drop_last() =~= pre_rec);
            assert(self.records@.last().0@ == key);
            assert(map_of(self.records@) =~= map_of(pre_rec).insert(key, value));
            assert forall|p: int, q: int|
                0 <= p < q < self.records@.len() implies (#[trigger] self.records@[p]).0@ != (
            #[trigger] self.records@[q]).0@ by {
                assert(self.records@[p] == pre_rec[p]);
                if q == self.records@.len() - 1 {
                    // the new identifier was reserved, and reserved and
                    // committed identifiers were disjoint
                    assert(self.records@[q].0@ == pre_res[i as int]@);
                    assert(pre_res[i as int]@ != pre_rec[p].0@);
                } else {
                    assert(self.records@[q] == pre_rec[q]);
                }
            }
            assert forall|p: int, q: int|
                0 <= p < q < self.reservations@.len() implies (#[trigger] self.reservations@[p])@
                != (#[trigger] self.reservations@[q])@ by {
                let p2: int = if p < i as int { p } else { p + 1 };
                let q2: int = if q < i as int { q } else { q + 1 };
                assert(self.reservations@[p] == pre_res[p2]);
                assert(self.reservations@[q] == pre_res[q2]);
            }
            assert forall|p: int, q: int|
                0 <= p < self.reservations@.len() && 0 <= q < self.records@.len() implies (
            #[trigger] self.reservations@[p])@ != (#[trigger] self.records@[q]).0@ by {
                let p2: int = if p < i as int { p } else { p + 1 };
                assert(self.reservations@[p] == pre_res[p2]);
                if q == self.records@.len() - 1 {
                    assert(self.records@[q].0@ == pre_res[i as int]@);
                    assert(pre_res[p2]@ != pre_res[i as int]@);
                } else {
                    assert(self.records@[q] == pre_rec[q]);
                }
            }
        }
        Ok(())
    }

    /// Drops a reservation without committing anything: the identifier is
    /// released for later attempts, and no record becomes visible.
    pub fn unreserve_key(&mut self, reservation: KeyReservation)
        requires
            old(self).wf(),
        ensures
            final(self).wf(),
            final(self).model() == unreserve_next(old(self).model(), reservation.key@),
    {
        proof {
            lemma_set_of_contains(self.reservations@, reservation.key@);
        }
        let i = match self.find_reservation(&reservation.key) {
            Some(i) => i,
            None => {
                proof {
                    assert(set_of(self.reservations@) =~= set_of(self.reservations@).remove(
                        reservation.key@,
                    ));
                }
                return ;
            },
        };
        let ghost pre_res = self.reservations@;
        self.reservations.remove(i);
        proof {
            lemma_set_of_remove(pre_res, i as int);
        }
    }

    /// Reads the committed record under `key`, or reports that none exists.
    pub fn get(&self, key: &String) -> (r: Result<&PartyInfo, KvError>)
        requires
            self.wf(),
        ensures
            match r {
                Ok(v) => self.model().committed.contains_key(key@) && *v
                    == self.model().committed[key@],
                Err(e) => e == KvError::NotFound && !self.model().committed.contains_key(key@),
            },
    {
        proof {
            lemma_map_of_contains(self.records@, key@);
        }
        match self.find_record(key) {
            Some(i) => {
                proof {
                    lemma_map_of_value(self.records@, i as int);
                }
                Ok(&self.records[i].1)
            },
            None => Err(KvError::NotFound),
        }
    }

    /// Persists a completed keygen session's shares: reserves the new key
    /// identifier and commits the bundled record under it.  A conflicting
    /// reservation or an existing record leaves the store unchanged and
    /// reports which of the two stood in the way.
    pub fn update_share_kv_store(
        &mut self,
        keygen_init_sanitized: KeygenInitSanitized,
        secret_key_shares: Vec<Vec<u8>>,
    ) -> (r: Result<(), KvError>)
        requires
            old(self).wf(),
        ensures
            final(self).wf(),
            ({
                let key = keygen_init_sanitized.new_key_uid@;
                let info = (PartyInfo {
                    shares: secret_key_shares,
                    party_uids: keygen_init_sanitized.party_uids,
                    share_counts: keygen_init_sanitized.party_share_counts,
                    my_index: keygen_init_sanitized.my_index,
                });
                match r {
                    Ok(()) => {
                        &&& reserve_granted(old(self).model(), key)
                        &&& final(self).model().committed == old(
                            self,
                        ).model().committed.insert(key, info)
                        &&& final(self).model().reserved == old(self).model().reserved
                    },
                    Err(e) => {
                        &&& !reserve_granted(old(self).model(), key)
                        &&& *final(self) == *old(self)
                        &&& (e == KvError::AlreadyExists <==> old(
                            self,
                        ).model().committed.contains_key(key))
                        &&& (e == KvError::AlreadyReserved <==> !old(
                            self,
                        ).model().committed.contains_key(key))
                    },
                }
            }),
    {
        let KeygenInitSanitized { new_key_uid, party_uids, party_share_counts, my_index } =
            keygen_init_sanitized;
        let ghost key = new_key_uid@;
        let ghost m0 = self.model();
        let reservation = match self.reserve_key(new_key_uid) {
            Ok(res) => res,
            Err(e) => {
                return Err(e);
            },
        };
        let kv_data = PartyInfo::get_party_info(
            secret_key_shares,
            party_uids,
            party_share_counts,
            my_index,
        );
        match self.put(reservation, kv_data) {
            Ok(()) => {
                proof {
                    assert(self.model().reserved =~= m0.reserved);
                }
                Ok(())
            },
            Err(_) => {
                // unreachable: the reservation was just granted
                proof {
                    assert(false);
                }
                Err(KvError::StorageFailure)
            },
        }
    }
}

} // verus!
