use voice_registry::identity::Identity;
use voice_registry::matcher::{MatchArgs, THRESHOLD_KEY, best_match_index, match_speakers};
use voice_registry::registry::{RegisterArgs, State, register_voice_nft};

const NOT_FOUND: &str = "不存在";

/// The host-side cosine similarity over double-precision fingerprints:
/// dot product over the common prefix divided by the product of the two
/// full Euclidean norms.
fn cosine_similarity(a: &[f64], b: &[f64]) -> f64 {
    let dot: f64 = a.iter().zip(b.iter()).map(|(x, y)| x * y).sum();
    let m1: f64 = a.iter().map(|x| x * x).sum::<f64>().sqrt();
    let m2: f64 = b.iter().map(|x| x * x).sum::<f64>().sqrt();
    dot / (m1 * m2)
}

/// The host-side order-preserving encoding of a similarity into a 64-bit
/// key; a NaN similarity never qualifies, so it maps to the smallest key.
fn similarity_key(s: f64) -> u64 {
    if s.is_nan() {
        0
    } else {
        let b = s.to_bits();
        if b >> 63 == 1 { !b } else { b | (1u64 << 63) }
    }
}

fn fingerprint_bits(v: &[f64]) -> Vec<u64> {
    v.iter().map(|x| x.to_bits()).collect()
}

fn owner(bytes: &[u8]) -> Identity {
    Identity::from_bytes(bytes.to_vec())
}

fn register(s: &mut State, owner_bytes: &[u8], name: &str, fp: &[f64]) {
    register_voice_nft(
        s,
        owner(owner_bytes),
        RegisterArgs { name: name.to_string(), data: fingerprint_bits(fp) },
    )
    .expect("registration succeeds");
}

/// Runs a batch match the way the host does: decode each stored
/// fingerprint, score every query against every record in store order,
/// and hand the keys to the verified matcher.
fn run_match(s: &State, queries: &[(&str, Vec<f64>)]) -> Vec<(String, String)> {
    let stored: Vec<Vec<f64>> = s
        .nfts
        .iter()
        .map(|n| n.voice_fingerprint.iter().map(|b| f64::from_bits(*b)).collect())
        .collect();
    let scores: Vec<Vec<u64>> = queries
        .iter()
        .map(|(_, q)| stored.iter().map(|fp| similarity_key(cosine_similarity(q, fp))).collect())
        .collect();
    let args = MatchArgs {
        speaker_map: queries
            .iter()
            .map(|(label, q)| (label.to_string(), fingerprint_bits(q)))
            .collect(),
    };
    match_speakers(s, &args, &scores)
}

fn principal_text(bytes: &[u8]) -> String {
    candid::Principal::from_slice(bytes).to_text()
}

#[test]
fn test_threshold_key_is_encoding_of_090() {
    assert_eq!(similarity_key(0.90), THRESHOLD_KEY);
    assert!(similarity_key(0.91) > THRESHOLD_KEY);
    assert!(similarity_key(0.89) < THRESHOLD_KEY);
    assert!(similarity_key(1.0) > THRESHOLD_KEY);
    assert!(similarity_key(0.0) < THRESHOLD_KEY);
    assert!(similarity_key(-1.0) < THRESHOLD_KEY);
    assert!(similarity_key(f64::NAN) < THRESHOLD_KEY);
}

#[test]
fn test_best_match_index_policy() {
    assert_eq!(best_match_index(&vec![5, 9, 9, 3], 7), Some(1));
    assert_eq!(best_match_index(&vec![5, 6, 3], 7), None);
    assert_eq!(best_match_index(&vec![], 7), None);
    assert_eq!(best_match_index(&vec![7, 8, 8, 9], 7), Some(3));
}

#[test]
fn test_concrete_match_scenario() {
    let mut s = State::new();
    register(&mut s, &[1], "alice", &[1.0, 2.0, 3.0, 4.0]);
    register(&mut s, &[2], "bob", &[4.0, 3.0, 2.0, 1.0]);

    let r = run_match(&s, &[("q1", vec![1.0, 2.0, 3.0, 4.0])]);
    assert_eq!(r.len(), 1);
    assert_eq!(r[0].0, "q1");
    assert_eq!(r[0].1, format!("Owner: {}, Name: alice", principal_text(&[1])));

    let r2 = run_match(&s, &[("q2", vec![0.0, 0.0, 0.0, 1.0])]);
    assert_eq!(r2[0].1, NOT_FOUND);
}

#[test]
fn test_identical_fingerprint_always_matches() {
    let mut s = State::new();
    let v = [0.3, -1.7, 2.5];
    assert_eq!(cosine_similarity(&v, &v), 1.0);
    register(&mut s, &[9, 9], "carol", &v);
    let r = run_match(&s, &[("q", v.to_vec())]);
    assert_eq!(r[0].1, format!("Owner: {}, Name: carol", principal_text(&[9, 9])));
}

#[test]
fn test_orthogonal_vectors_not_found() {
    let mut s = State::new();
    register(&mut s, &[1], "alice", &[1.0, 0.0]);
    let r = run_match(&s, &[("q", vec![0.0, 1.0])]);
    assert_eq!(cosine_similarity(&[1.0, 0.0], &[0.0, 1.0]), 0.0);
    assert_eq!(r[0].1, NOT_FOUND);
}

#[test]
fn test_tie_names_earliest_record() {
    let mut s = State::new();
    register(&mut s, &[5], "first", &[2.0, 2.0]);
    register(&mut s, &[6], "second", &[1.0, 1.0]);
    let r = run_match(&s, &[("q", vec![3.0, 3.0])]);
    assert_eq!(r[0].1, format!("Owner: {}, Name: first", principal_text(&[5])));
}

#[test]
fn test_empty_store_not_found() {
    let s = State::new();
    let r = run_match(&s, &[("q", vec![1.0, 2.0])]);
    assert_eq!(r[0].1, NOT_FOUND);
}

#[test]
fn test_zero_magnitude_fingerprint_never_matches() {
    let mut s = State::new();
    register(&mut s, &[1], "silent", &[0.0, 0.0]);
    let r = run_match(&s, &[("q", vec![1.0, 2.0])]);
    assert!(cosine_similarity(&[1.0, 2.0], &[0.0, 0.0]).is_nan());
    assert_eq!(r[0].1, NOT_FOUND);
}

#[test]
fn test_batch_answers_every_label() {
    let mut s = State::new();
    register(&mut s, &[1], "alice", &[1.0, 0.0]);
    let r = run_match(
        &s,
        &[("hit", vec![2.0, 0.0]), ("miss", vec![0.0, 2.0])],
    );
    assert_eq!(r.len(), 2);
    assert_eq!(r[0].0, "hit");
    assert_eq!(r[0].1, format!("Owner: {}, Name: alice", principal_text(&[1])));
    assert_eq!(r[1].0, "miss");
    assert_eq!(r[1].1, NOT_FOUND);
}
