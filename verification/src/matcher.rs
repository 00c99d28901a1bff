use vstd::prelude::*;
use vstd::string::*;

use crate::identity::{Identity, text_of, principal_text, MAX_IDENTITY_BYTES};
use crate::registry::{RecordModel, State, VoiceNFT};

verus! {

/// Acceptance threshold for a match: a record qualifies only when its
/// similarity to the query reaches 0.90. Similarity scores arrive as
/// order-preserving 64-bit keys (a greater key stands for a greater
/// similarity, equal keys for equal similarities); this constant is the
/// key of the 0.90 threshold in that same encoding.
pub const THRESHOLD_KEY: u64 = 0xBFECCCCCCCCCCCCD;

/// A match request: query labels, each carrying the fingerprint components
/// to resolve in their 64-bit host encoding.
pub struct MatchArgs {
    pub speaker_map: Vec<(String, Vec<u64>)>,
}

/// What the matcher's scan establishes about the first `upto` scores.
/// `None`: no score reaches the threshold. `Some(b)`: score `b` qualifies,
/// every earlier score is strictly smaller, and no later score is greater,
/// so `b` is the earliest index attaining the best qualifying score.
pub open spec fn partial_best(scores: Seq<u64>, threshold: u64, upto: int, r: Option<int>) -> bool {
    match r {
        None => forall|j: int| 0 <= j < upto ==> (#[trigger] scores[j]) < threshold,
        Some(b) => {
            &&& 0 <= b < upto
            &&& scores[b] >= threshold
            &&& forall|j: int| 0 <= j < b ==> (#[trigger] scores[j]) < scores[b]
            &&& forall|j: int| b < j < upto ==> (#[trigger] scores[j]) <= scores[b]
        },
    }
}

/// The matcher's selection policy over a full score sequence.
pub open spec fn is_best_match(scores: Seq<u64>, threshold: u64, r: Option<int>) -> bool {
    partial_best(scores, threshold, scores.len() as int, r)
}

/// The index the matcher selects: the earliest index attaining the best
/// score at or above the threshold, if any score qualifies.
pub open spec fn best_match_at(scores: Seq<u64>, threshold: u64) -> Option<int> {
    if exists|i: int| is_best_match(scores, threshold, Some(i)) {
        Some(choose|i: int| is_best_match(scores, threshold, Some(i)))
    } else {
        None
    }
}

/// The selection policy picks at most one index: the match result never
/// depends on scan order beyond the stated tie-break.
pub proof fn lemma_best_match_unique(
    scores: Seq<u64>,
    threshold: u64,
    r1: Option<int>,
    r2: Option<int>,
)
    requires
        is_best_match(scores, threshold, r1),
        is_best_match(scores, threshold, r2),
    ensures
        r1 == r2,
{
    match (r1, r2) {
        (Some(i1), Some(i2)) => {
            if i1 < i2 {
                assert(scores[i1] < scores[i2]);
                assert(scores[i2] <= scores[i1]);
            }
            if i2 < i1 {
                assert(scores[i2] < scores[i1]);
                assert(scores[i1] <= scores[i2]);
            }
        },
        (Some(i1), None) => {
            assert(scores[i1] < threshold);
        },
        (None, Some(i2)) => {
            assert(scores[i2] < threshold);
        },
        (None, None) => {},
    }
}

/// Every score sequence admits a selection satisfying the policy.
proof fn lemma_best_exists(scores: Seq<u64>, threshold: u64) -> (r: Option<int>)
    ensures
        is_best_match(scores, threshold, r),
    decreases scores.len(),
{
    if scores.len() == 0 {
        None::<int>
    } else {
        let prefix = scores.drop_last();
        let prev = lemma_best_exists(prefix, threshold);
        let last = scores.len() - 1;
        assert(forall|j: int| 0 <= j < last ==> prefix[j] == scores[j]);
        match prev {
            None => {
                if scores[last] >= threshold {
                    Some(last as int)
                } else {
                    None::<int>
                }
            },
            Some(b) => {
                if scores[last] > scores[b] {
                    Some(last as int)
                } else {
                    Some(b)
                }
            },
        }
    }
}

/// If no score reaches the threshold, the matcher selects no record.
pub proof fn lemma_below_threshold_not_found(scores: Seq<u64>, threshold: u64)
    requires
        forall|i: int| 0 <= i < scores.len() ==> (#[trigger] scores[i]) < threshold,
    ensures
        best_match_at(scores, threshold) is None,
{
    if exists|k: int| is_best_match(scores, threshold, Some(k)) {
        let k = choose|k: int| is_best_match(scores, threshold, Some(k));
        assert(scores[k] >= threshold);
    }
}

/// Any score at or above the threshold guarantees the matcher selects a
/// record: in particular, a stored fingerprint whose score against the
/// query attains the top of the key order is always found.
pub proof fn lemma_qualifying_score_found(scores: Seq<u64>, threshold: u64, i: int)
    requires
        0 <= i < scores.len(),
        scores[i] >= threshold,
    ensures
        best_match_at(scores, threshold) is Some,
{
    let r = lemma_best_exists(scores, threshold);
    match r {
        None => {
            assert(scores[i] < threshold);
        },
        Some(k) => {
            assert(is_best_match(scores, threshold, Some(k)));
        },
    }
}

/// Among records tied at the best qualifying score, the earliest-inserted
/// one wins: a later tied record is never selected.
pub proof fn lemma_tie_prefers_earliest(scores: Seq<u64>, threshold: u64, i: int, j: int)
    requires
        0 <= i < j < scores.len(),
        scores[i] == scores[j],
        scores[j] >= threshold,
    ensures
        best_match_at(scores, threshold) != Some(j),
{
    if best_match_at(scores, threshold) == Some(j) {
        assert(is_best_match(scores, threshold, Some(j)));
        assert(scores[i] < scores[j]);
    }
}

/// Maps the executable selection to its mathematical counterpart.
pub open spec fn opt_index(r: Option<usize>) -> Option<int> {
    match r {
        Some(i) => Some(i as int),
        None => None,
    }
}

/// One scan over the scores, keeping the first index whose score exceeds
/// the best so far and reaches the threshold.
pub fn best_match_index(scores: &Vec<u64>, threshold: u64) -> (r: Option<usize>)
    ensures
        opt_index(r) == best_match_at(scores@, threshold),
        is_best_match(scores@, threshold, opt_index(r)),
{
    let mut best: Option<usize> = None;
    let mut best_val: u64 = 0;
    let mut i: usize = 0;
    while i < scores.len()
        invariant
            i <= scores@.len(),
            partial_best(scores@, threshold, i as int, opt_index(best)),
            best matches Some(b) ==> best_val == scores@[b as int],
        decreases scores@.len() - i,
    {
        let s = scores[i];
        let better = match best {
            None => s >= threshold,
            Some(_) => s > best_val && s >= threshold,
        };
        if better {
            best = Some(i);
            best_val = s;
        }
        i = i + 1;
    }
    proof {
        let ri = opt_index(best);
        assert(is_best_match(scores@, threshold, ri));
        match ri {
            Some(ii) => {
                assert(exists|k: int| is_best_match(scores@, threshold, Some(k)));
                let c = choose|k: int| is_best_match(scores@, threshold, Some(k));
                lemma_best_match_unique(scores@, threshold, Some(c), Some(ii));
            },
            None => {
                if exists|k: int| is_best_match(scores@, threshold, Some(k)) {
                    let c = choose|k: int| is_best_match(scores@, threshold, Some(k));
                    lemma_best_match_unique(scores@, threshold, Some(c), None::<int>);
                }
            },
        }
    }
    best
}

/// Scan all records against one query's scores and hand back the owner and
/// name of the selected record, if any qualifies.
pub fn match_speaker_fingerprint(scores: &Vec<u64>, all_nfts: &Vec<VoiceNFT>) -> (r: Option<
    (Identity, String),
>)
    requires
        scores@.len() == all_nfts@.len(),
    ensures
        match best_match_at(scores@, THRESHOLD_KEY) {
            None => r is None,
            Some(i) => r matches Some(p) && p.0@ == all_nfts@[i]@.owner && p.1@
                == all_nfts@[i]@.name,
        },
{
    match best_match_index(scores, THRESHOLD_KEY) {
        Some(i) => {
            let n = &all_nfts[i];
            Some((n.owner.clone(), n.name.clone()))
        },
        None => None,
    }
}

/// The sentinel reported for a query that no stored record matches.
pub open spec fn not_found_sentinel() -> Seq<char> {
    "不存在"@
}

fn render_not_found() -> (r: String)
    ensures
        r@ == not_found_sentinel(),
{
    String::from_str("不存在")
}

/// The descriptor reported for a matched record: its owner's textual form
/// and its name.
pub open spec fn descriptor_of(owner: Seq<u8>, name: Seq<char>) -> Seq<char> {
    "Owner: "@ + text_of(owner) + ", Name: "@ + name
}

fn render_descriptor(owner: &Identity, name: &String) -> (r: String)
    requires
        owner@.len() <= MAX_IDENTITY_BYTES,
    ensures
        r@ == descriptor_of(owner@, name@),
{
    let mut s = String::from_str("Owner: ");
    let t = principal_text(&owner.bytes);
    s.append(t.as_str());
    s.append(", Name: ");
    s.append(name.as_str());
    proof {
        assert(s@ =~= descriptor_of(owner@, name@));
    }
    s
}

/// What the matcher reports for one query, given the store's records and
/// the query's scores against them in store order.
pub open spec fn match_reply(records: Seq<RecordModel>, scores: Seq<u64>) -> Seq<char> {
    match best_match_at(scores, THRESHOLD_KEY) {
        Some(i) => descriptor_of(records[i].owner, records[i].name),
        None => not_found_sentinel(),
    }
}

/// Resolve a batch of queries against one consistent snapshot of the
/// store. `scores` holds, for each query in request order, that query's
/// similarity keys against every record in store order; each query is
/// answered independently with a descriptor or the not-found sentinel.
#[verifier::loop_isolation(false)]
pub fn match_speakers(state: &State, args: &MatchArgs, scores: &Vec<Vec<u64>>) -> (r: Vec<
    (String, String),
>)
    requires
        state.wf(),
        scores@.len() == args.speaker_map@.len(),
        forall|q: int| 0 <= q < scores@.len() ==> (#[trigger] scores@[q])@.len() == state@.len(),
    ensures
        r@.len() == args.speaker_map@.len(),
        forall|q: int|
            0 <= q < r@.len() ==> (#[trigger] r@[q]).0@ == args.speaker_map@[q].0@ && r@[q].1@
                == match_reply(state@, scores@[q]@),
{
    let mut out: Vec<(String, String)> = Vec::new();
    let mut q: usize = 0;
    while q < args.speaker_map.len()
        invariant
            q <= args.speaker_map@.len(),
            out@.len() == q,
            forall|p: int|
                0 <= p < q ==> (#[trigger] out@[p]).0@ == args.speaker_map@[p].0@ && out@[p].1@
                    == match_reply(state@, scores@[p]@),
        decreases args.speaker_map@.len() - q,
    {
        let label = args.speaker_map[q].0.clone();
        let row = &scores[q];
        proof {
            assert(row@.len() == state.nfts@.len());
        }
        let reply = match match_speaker_fingerprint(row, &state.nfts) {
            Some(found) => {
                proof {
                    let i = best_match_at(row@, THRESHOLD_KEY)->Some_0;
                    assert(found.0@ == state@[i].owner);
                    assert(state@[i].owner.len() <= MAX_IDENTITY_BYTES);
                }
                render_descriptor(&found.0, &found.1)
            },
            None => render_not_found(),
        };
        out.push((label, reply));
        q = q + 1;
    }
    out
}

} // verus!
