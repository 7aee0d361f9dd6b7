use attic::api::upload_path::{build_chunk_manifest, UploadPathResultKind};
use attic::hash::HashIndex;

type Chunk = (attic::hash::Hash, usize);

fn chunk(seed: &[u8], size: usize) -> Chunk {
    (attic::hash::Hash::sha256_from_bytes(seed), size)
}

fn set(hashes: Vec<attic::hash::Hash>) -> HashIndex {
    HashIndex::from_list(&hashes)
}

#[test]
fn build_chunk_manifest_all_missing_inlines_everything_except_repeats() {
    let a = chunk(b"a", 10);
    let b = chunk(b"b", 20);
    let chunks = vec![a.clone(), b.clone(), a.clone()];
    let missing = set(vec![a.0.clone(), b.0.clone()]);

    let manifest = build_chunk_manifest(&chunks, &missing);

    assert_eq!(manifest.len(), 3);
    assert_eq!(manifest[0].hash, a.0);
    assert_eq!(manifest[0].size, 10);
    assert!(manifest[0].inline);
    assert_eq!(manifest[1].hash, b.0);
    assert_eq!(manifest[1].size, 20);
    assert!(manifest[1].inline);
    // Repeated occurrence of an already-inlined hash must be a reference.
    assert_eq!(manifest[2].hash, a.0);
    assert_eq!(manifest[2].size, 10);
    assert!(!manifest[2].inline);
}

#[test]
fn build_chunk_manifest_none_missing_is_all_references() {
    let a = chunk(b"a", 10);
    let b = chunk(b"b", 20);
    let chunks = vec![a.clone(), b.clone()];
    let missing = set(vec![]);

    let manifest = build_chunk_manifest(&chunks, &missing);

    assert_eq!(manifest.len(), 2);
    assert!(manifest.iter().all(|entry| !entry.inline));
    assert_eq!(manifest[0].size, 10);
    assert_eq!(manifest[1].size, 20);
}

#[test]
fn build_chunk_manifest_repeated_missing_hash_only_first_occurrence_is_inline() {
    let a = chunk(b"a", 10);
    let b = chunk(b"b", 20);
    // a, b, a, a - only the first `a` should be inline.
    let chunks = vec![a.clone(), b.clone(), a.clone(), a.clone()];
    let missing = set(vec![a.0.clone()]);

    let manifest = build_chunk_manifest(&chunks, &missing);

    assert_eq!(manifest.len(), 4);
    assert!(manifest[0].inline);
    assert!(!manifest[1].inline); // b was never missing
    assert!(!manifest[2].inline); // repeat of a, already inlined
    assert!(!manifest[3].inline); // repeat of a, already inlined
}

#[test]
fn build_chunk_manifest_preserves_order_and_sizes() {
    let a = chunk(b"a", 111);
    let b = chunk(b"b", 222);
    let c = chunk(b"c", 333);
    let chunks = vec![c.clone(), a.clone(), b.clone()];
    let missing = set(vec![b.0.clone()]);

    let manifest = build_chunk_manifest(&chunks, &missing);

    let sizes: Vec<usize> = manifest.iter().map(|entry| entry.size).collect();
    assert_eq!(sizes, vec![333, 111, 222]);
    let hashes: Vec<&attic::hash::Hash> = manifest.iter().map(|entry| &entry.hash).collect();
    assert_eq!(hashes, vec![&c.0, &a.0, &b.0]);
}

#[test]
fn sizes_in_a_manifest_sum_to_the_nar_size() {
    let a = chunk(b"a", 10);
    let b = chunk(b"b", 20);
    let chunks = vec![a, b, a, b];
    let manifest = build_chunk_manifest(&chunks, &set(vec![b.0]));
    assert_eq!(manifest.iter().map(|entry| entry.size).sum::<usize>(), 60);
    let inline: usize = manifest.iter().filter(|e| e.inline).map(|e| e.size).sum();
    assert_eq!(inline, 20);
}

#[test]
fn an_upload_counts_as_uploaded_unless_told_otherwise() {
    assert_eq!(UploadPathResultKind::default(), UploadPathResultKind::Uploaded);
}

#[test]
fn hash_has_its_known_on_wire_form() {
    // The digest of "abc" from FIPS 180-4.
    assert_eq!(
        attic::hash::Hash::sha256_from_bytes(b"abc").to_typed_base16(),
        "sha256:ba7816bf8f01cfea414140de5dae2223b00361a396177a9cb410ff61f20015ad"
    );
}

#[test]
fn hash_index_holds_what_was_put_in() {
    let a = attic::hash::Hash::sha256_from_bytes(b"a");
    let b = attic::hash::Hash::sha256_from_bytes(b"b");
    let mut index = HashIndex::new();
    assert!(!index.contains(&a));
    assert!(index.insert(a));
    assert!(!index.insert(a));
    assert!(index.contains(&a));
    assert!(!index.contains(&b));
    assert_ne!(a, b);
    assert_eq!(a.as_bytes().len(), 32);
}
