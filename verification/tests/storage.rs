use code_indexer::indexer::storage::{decode_embeddings, embeddings_well_formed, encode_embeddings};

fn bits(v: &[f32]) -> Vec<u32> {
    v.iter().map(|x| x.to_bits()).collect()
}

#[test]
fn encoding_layout() {
    let e = vec![bits(&[1.0, -2.5]), bits(&[])];
    let bytes = encode_embeddings(&e);
    let mut expected = Vec::new();
    expected.extend_from_slice(&2u32.to_le_bytes());
    expected.extend_from_slice(&1.0f32.to_le_bytes());
    expected.extend_from_slice(&(-2.5f32).to_le_bytes());
    expected.extend_from_slice(&0u32.to_le_bytes());
    assert_eq!(bytes, expected);
}

#[test]
fn embeddings_round_trip() {
    let e = vec![bits(&[0.5, 0.25, -1.0]), bits(&[3.0]), bits(&[]), bits(&[f32::MAX, 1e-30])];
    let bytes = encode_embeddings(&e);
    assert!(embeddings_well_formed(&bytes));
    let back = decode_embeddings(&bytes);
    assert_eq!(back, e);
    assert_eq!(encode_embeddings(&back), bytes);
}

#[test]
fn empty_store() {
    assert!(encode_embeddings(&Vec::new()).is_empty());
    assert!(embeddings_well_formed(&[]));
    assert!(decode_embeddings(&[]).is_empty());
}

#[test]
fn truncated_stores_are_rejected() {
    let bytes = encode_embeddings(&vec![bits(&[1.0, 2.0])]);
    for cut in 1..bytes.len() {
        assert!(!embeddings_well_formed(&bytes[..cut]), "cut at {}", cut);
    }
    assert!(!embeddings_well_formed(&[1, 0, 0, 0, 9, 9, 9]));
    assert!(!embeddings_well_formed(&[0xff, 0xff, 0xff, 0xff]));
}
