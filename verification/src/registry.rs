use vstd::prelude::*;

use crate::identity::{Identity, identity_eq, MAX_IDENTITY_BYTES};

verus! {

/// Mathematical model of one stored record.
pub ghost struct RecordModel {
    pub id: u64,
    pub owner: Seq<u8>,
    pub fingerprint: Seq<u64>,
    pub name: Seq<char>,
}

/// One registered voice-fingerprint record.
///
/// Fingerprint components are held as the 64-bit encodings in which the
/// host supplies them; the registry itself never interprets them
/// numerically, it only stores them and hands them back.
pub struct VoiceNFT {
    pub id: u64,
    pub owner: Identity,
    pub voice_fingerprint: Vec<u64>,
    pub name: String,
}

impl View for VoiceNFT {
    type V = RecordModel;

    open spec fn view(&self) -> RecordModel {
        RecordModel {
            id: self.id,
            owner: self.owner@,
            fingerprint: self.voice_fingerprint@,
            name: self.name@,
        }
    }
}

impl Clone for VoiceNFT {
    fn clone(&self) -> (r: Self)
        ensures
            r@ == self@,
    {
        let mut fingerprint: Vec<u64> = Vec::new();
        let mut i: usize = 0;
        while i < self.voice_fingerprint.len()
            invariant
                i <= self.voice_fingerprint.len(),
                fingerprint@ == self.voice_fingerprint@.take(i as int),
            decreases self.voice_fingerprint.len() - i,
        {
            fingerprint.push(self.voice_fingerprint[i]);
            i = i + 1;
            proof {
                assert(fingerprint@ =~= self.voice_fingerprint@.take(i as int));
            }
        }
        proof {
            assert(fingerprint@ =~= self.voice_fingerprint@);
        }
        VoiceNFT {
            id: self.id,
            owner: self.owner.clone(),
            voice_fingerprint: fingerprint,
            name: self.name.clone(),
        }
    }
}

/// A registration request: the name under which the caller registers, and
/// the fingerprint components in their 64-bit host encoding.
pub struct RegisterArgs {
    pub name: String,
    pub data: Vec<u64>,
}

/// The one error the registry reports: the calling owner already holds a
/// record under the requested name.
#[derive(Clone, Copy, Debug, PartialEq, Eq, Structural)]
pub enum RegistrationError {
    DuplicateRegistration,
}

impl RegistrationError {
    /// The message under which the host reports this error.
    pub fn message(&self) -> (r: String)
        ensures
            r@ == "You have already registered an NFT for this name."@,
    {
        String::from_str("You have already registered an NFT for this name.")
    }
}

/// The registry store: the authoritative, append-only sequence of records,
/// in insertion order.
pub struct State {
    pub nfts: Vec<VoiceNFT>,
}

impl View for State {
    type V = Seq<RecordModel>;

    open spec fn view(&self) -> Seq<RecordModel> {
        self.nfts@.map_values(|n: VoiceNFT| n@)
    }
}

/// Record ids form the contiguous sequence 0, 1, 2, ... in insertion order.
pub open spec fn ids_contiguous(records: Seq<RecordModel>) -> bool {
    forall|i: int| 0 <= i < records.len() ==> (#[trigger] records[i]).id == i
}

/// No owner holds two records under the same name.
pub open spec fn names_unique(records: Seq<RecordModel>) -> bool {
    forall|i: int, j: int|
        0 <= i < j < records.len() ==> !((#[trigger] records[i]).owner == (#[trigger] records[j]).owner
            && records[i].name == records[j].name)
}

/// Every stored owner identity can be rendered textually.
pub open spec fn owners_encodable(records: Seq<RecordModel>) -> bool {
    forall|i: int| 0 <= i < records.len() ==> (#[trigger] records[i]).owner.len() <= MAX_IDENTITY_BYTES
}

impl State {
    /// The store's invariant, established at construction and preserved by
    /// every registration.
    pub open spec fn wf(self) -> bool {
        &&& ids_contiguous(self@)
        &&& names_unique(self@)
        &&& owners_encodable(self@)
    }

    /// A fresh registry with no records.
    pub fn new() -> (s: State)
        ensures
            s@ == Seq::<RecordModel>::empty(),
            s.wf(),
    {
        let s = State { nfts: Vec::new() };
        proof {
            assert(s@ =~= Seq::<RecordModel>::empty());
        }
        s
    }
}

/// Some record of `records` already binds `owner` to `name`.
pub open spec fn has_record(records: Seq<RecordModel>, owner: Seq<u8>, name: Seq<char>) -> bool {
    exists|i: int|
        0 <= i < records.len() && (#[trigger] records[i]).owner == owner && records[i].name == name
}

/// The record a successful registration appends: its id is the store's
/// length at insertion time.
pub open spec fn new_record(id: u64, owner: Seq<u8>, fingerprint: Seq<u64>, name: Seq<char>) -> RecordModel {
    RecordModel { id, owner, fingerprint, name }
}

/// The record sequence after a registration attempt: unchanged on a
/// duplicate, extended by one fresh record otherwise.
pub open spec fn registered_records(
    records: Seq<RecordModel>,
    owner: Seq<u8>,
    fingerprint: Seq<u64>,
    name: Seq<char>,
) -> Seq<RecordModel> {
    if has_record(records, owner, name) {
        records
    } else {
        records.push(new_record(records.len() as u64, owner, fingerprint, name))
    }
}

fn has_duplicate(state: &State, owner: &Identity, name: &String) -> (r: bool)
    ensures
        r == has_record(state@, owner@, name@),
{
    let mut i: usize = 0;
    while i < state.nfts.len()
        invariant
            i <= state.nfts.len(),
            forall|j: int|
                0 <= j < i ==> !((#[trigger] state@[j]).owner == owner@ && state@[j].name == name@),
        decreases state.nfts.len() - i,
    {
        let n = &state.nfts[i];
        if identity_eq(&n.owner, owner) && n.name == *name {
            proof {
                assert(state@[i as int].owner == owner@ && state@[i as int].name == name@);
            }
            return true;
        }
        i = i + 1;
    }
    false
}

/// Registration: scan for a record already binding `(owner, name)`; on a
/// duplicate fail and leave the store untouched, otherwise append a record
/// whose id is the store's length and return a copy of it.
pub fn register_voice_nft(state: &mut State, owner: Identity, args: RegisterArgs) -> (r: Result<
    VoiceNFT,
    RegistrationError,
>)
    requires
        owner.encodable(),
    ensures
        r is Ok <==> !has_record(old(state)@, owner@, args.name@),
        final(state)@ == registered_records(old(state)@, owner@, args.data@, args.name@),
        r matches Ok(rec) ==> rec@ == new_record(
            old(state)@.len() as u64,
            owner@,
            args.data@,
            args.name@,
        ),
        r matches Err(e) ==> e == RegistrationError::DuplicateRegistration,
        old(state).wf() ==> final(state).wf(),
{
    if has_duplicate(state, &owner, &args.name) {
        return Err(RegistrationError::DuplicateRegistration);
    }
    let new_id = state.nfts.len() as u64;
    let record = VoiceNFT { id: new_id, owner, voice_fingerprint: args.data, name: args.name };
    let copy = record.clone();
    let ghost prior = state@;
    state.nfts.push(record);
    proof {
        assert(state@ =~= prior.push(new_record(prior.len() as u64, record.owner@, record.voice_fingerprint@, record.name@)));
        if old(state).wf() {
            let recs = state@;
            assert forall|i: int, j: int| 0 <= i < j < recs.len() implies !((#[trigger] recs[i]).owner
                == (#[trigger] recs[j]).owner && recs[i].name == recs[j].name) by {
                if j == recs.len() - 1 {
                    assert(!(recs[i].owner == record.owner@ && recs[i].name == record.name@));
                }
            }
        }
    }
    Ok(copy)
}

/// Total number of records across all owners; deliberately not filtered by
/// caller, unlike the per-owner listing.
pub fn count_all(state: &State) -> (r: u64)
    ensures
        r == state@.len(),
{
    state.nfts.len() as u64
}

/// The subsequence of `records`, in store order, owned by `caller`.
pub open spec fn owned_by(records: Seq<RecordModel>, caller: Seq<u8>) -> Seq<RecordModel> {
    records.filter(|m: RecordModel| m.owner == caller)
}

/// Per-owner listing: exactly the records whose owner equals the caller,
/// in store order.
pub fn list_nfts(state: &State, caller: &Identity) -> (r: Vec<VoiceNFT>)
    ensures
        r@.map_values(|n: VoiceNFT| n@) == owned_by(state@, caller@),
{
    let mut out: Vec<VoiceNFT> = Vec::new();
    let mut i: usize = 0;
    while i < state.nfts.len()
        invariant
            i <= state.nfts.len(),
            out@.map_values(|n: VoiceNFT| n@) == owned_by(state@.take(i as int), caller@),
        decreases state.nfts.len() - i,
    {
        let ghost pred = |m: RecordModel| m.owner == caller@;
        let ghost before = state@.take(i as int);
        let ghost after = state@.take(i + 1 as int);
        proof {
            reveal(Seq::filter);
            assert(after.drop_last() =~= before);
            assert(after.last() == state@[i as int]);
        }
        let n = &state.nfts[i];
        if identity_eq(&n.owner, caller) {
            let c = n.clone();
            out.push(c);
            proof {
                assert(out@.map_values(|n: VoiceNFT| n@) =~= before.filter(pred).push(
                    state@[i as int],
                ));
            }
        }
        i = i + 1;
    }
    proof {
        assert(state@.take(state.nfts@.len() as int) =~= state@);
    }
    out
}

/// A record already bound to `(owner, name)` forces every later
/// registration of that pair to fail: once the pair is present,
/// `has_record` holds of any store still containing the record.
pub proof fn lemma_duplicate_rejected(records: Seq<RecordModel>, k: int)
    requires
        0 <= k < records.len(),
    ensures
        has_record(records, records[k].owner, records[k].name),
{
    assert(records[k].owner == records[k].owner && records[k].name == records[k].name);
}

/// Registering `(owner, name)` twice in a row: the first attempt on a store
/// free of the pair succeeds, the second fails whatever fingerprint it
/// carries, and the second leaves the store exactly as the first left it.
pub proof fn lemma_register_twice(
    records: Seq<RecordModel>,
    owner: Seq<u8>,
    f1: Seq<u64>,
    f2: Seq<u64>,
    name: Seq<char>,
)
    requires
        !has_record(records, owner, name),
    ensures
        ({
            let after = registered_records(records, owner, f1, name);
            &&& after == records.push(new_record(records.len() as u64, owner, f1, name))
            &&& has_record(after, owner, name)
            &&& registered_records(after, owner, f2, name) == after
        }),
{
    let after = registered_records(records, owner, f1, name);
    assert(after[records.len() as int].owner == owner && after[records.len() as int].name == name);
}

/// Ids stay contiguous under any registration attempt: a failed one leaves
/// the store unchanged, a successful one appends a record whose id equals
/// the prior length.
pub proof fn lemma_ids_stay_contiguous(
    records: Seq<RecordModel>,
    owner: Seq<u8>,
    fingerprint: Seq<u64>,
    name: Seq<char>,
)
    requires
        ids_contiguous(records),
        records.len() <= u64::MAX,
    ensures
        ids_contiguous(registered_records(records, owner, fingerprint, name)),
{
    let after = registered_records(records, owner, fingerprint, name);
    if !has_record(records, owner, name) {
        assert forall|i: int| 0 <= i < after.len() implies (#[trigger] after[i]).id == i by {
            if i < records.len() {
                assert(after[i] == records[i]);
            } else {
                assert(after[i] == new_record(records.len() as u64, owner, fingerprint, name));
            }
        }
    }
}

/// The store after a whole sequence of registration attempts, each given
/// as an owner, a fingerprint and a name, applied in order.
pub open spec fn registered_all(
    records: Seq<RecordModel>,
    requests: Seq<(Seq<u8>, Seq<u64>, Seq<char>)>,
) -> Seq<RecordModel>
    decreases requests.len(),
{
    if requests.len() == 0 {
        records
    } else {
        registered_all(
            registered_records(records, requests[0].0, requests[0].1, requests[0].2),
            requests.drop_first(),
        )
    }
}

/// Over any sequence of registration attempts, successful or not, ids keep
/// forming the contiguous sequence 0, 1, 2, ... with no gaps or repeats.
pub proof fn lemma_ids_contiguous_after_any_requests(
    records: Seq<RecordModel>,
    requests: Seq<(Seq<u8>, Seq<u64>, Seq<char>)>,
)
    requires
        ids_contiguous(records),
        records.len() + requests.len() <= u64::MAX,
    ensures
        ids_contiguous(registered_all(records, requests)),
    decreases requests.len(),
{
    if requests.len() > 0 {
        let next = registered_records(records, requests[0].0, requests[0].1, requests[0].2);
        lemma_ids_stay_contiguous(records, requests[0].0, requests[0].1, requests[0].2);
        lemma_ids_contiguous_after_any_requests(next, requests.drop_first());
    }
}

/// Read-only queries are functions of the store alone: against equal
/// stores, repeated listings and counts return identical results.
pub proof fn lemma_queries_idempotent(s1: Seq<RecordModel>, s2: Seq<RecordModel>, caller: Seq<u8>)
    requires
        s1 == s2,
    ensures
        owned_by(s1, caller) == owned_by(s2, caller),
        s1.len() == s2.len(),
{
}

/// The per-owner listing is exact: every listed record is owned by the
/// caller, and every stored record owned by the caller is listed.
pub proof fn lemma_owned_by_exact(records: Seq<RecordModel>, caller: Seq<u8>)
    ensures
        forall|i: int|
            0 <= i < owned_by(records, caller).len() ==> (#[trigger] owned_by(records, caller)[i]).owner
                == caller,
        forall|j: int|
            0 <= j < records.len() && (#[trigger] records[j]).owner == caller ==> owned_by(
                records,
                caller,
            ).contains(records[j]),
{
    let pred = |m: RecordModel| m.owner == caller;
    assert forall|i: int| 0 <= i < owned_by(records, caller).len() implies (#[trigger] owned_by(
        records,
        caller,
    )[i]).owner == caller by {
        records.lemma_filter_pred(pred, i);
    }
    assert forall|j: int|
        0 <= j < records.len() && (#[trigger] records[j]).owner == caller implies owned_by(
        records,
        caller,
    ).contains(records[j]) by {
        records.lemma_filter_contains(pred, j);
    }
}

} // verus!
