use gw2md::error::ErrorKind;
use gw2md::fetch::{chunk_ids, merge_chunk_results, to_ids};
use gw2md::json::Json;

#[test]
fn to_ids_reads_an_integer_array() {
    let json = Json::Arr(vec![Json::UInt(3), Json::UInt(1), Json::UInt(7)]);
    let ids = to_ids(&json).unwrap();
    assert_eq!(ids, vec![3, 1, 7]);
}

#[test]
fn to_ids_rejects_a_non_array() {
    let e = to_ids(&Json::Str("nope".to_string())).unwrap_err();
    assert_eq!(e.kind, ErrorKind::Fetch);
    assert_eq!(e.message, "not an array");
}

#[test]
fn to_ids_rejects_a_non_integer_element() {
    let json = Json::Arr(vec![Json::UInt(3), Json::Str("x".to_string())]);
    let e = to_ids(&json).unwrap_err();
    assert_eq!(e.kind, ErrorKind::Fetch);
    assert_eq!(e.message, "fail to convert to ids");
}

#[test]
fn chunking_450_ids_gives_three_chunks_in_order() {
    let ids: Vec<u64> = (0..450).collect();
    let chunks = chunk_ids(&ids);
    assert_eq!(chunks.len(), 3);
    assert_eq!(chunks[0].len(), 200);
    assert_eq!(chunks[1].len(), 200);
    assert_eq!(chunks[2].len(), 50);
    let flat: Vec<u64> = chunks.into_iter().flatten().collect();
    assert_eq!(flat, ids);
}

#[test]
fn chunking_exact_multiple_has_no_short_chunk() {
    let ids: Vec<u64> = (0..400).collect();
    let chunks = chunk_ids(&ids);
    assert_eq!(chunks.len(), 2);
    assert_eq!(chunks[0].len(), 200);
    assert_eq!(chunks[1].len(), 200);
}

#[test]
fn chunking_empty_list_gives_no_chunks() {
    let chunks = chunk_ids(&Vec::new());
    assert!(chunks.is_empty());
}

#[test]
fn merged_chunks_keep_chunk_order() {
    let c1 = Json::Arr(vec![Json::UInt(1), Json::UInt(2)]);
    let c2 = Json::Arr(vec![Json::UInt(3)]);
    let c3 = Json::Arr(vec![Json::UInt(4), Json::UInt(5)]);
    let merged = merge_chunk_results(vec![c1, c2, c3]).unwrap();
    let ids = to_ids(&Json::Arr(merged)).unwrap();
    assert_eq!(ids, vec![1, 2, 3, 4, 5]);
}

#[test]
fn merge_rejects_a_non_array_chunk() {
    let e = merge_chunk_results(vec![Json::Arr(vec![]), Json::Null]).unwrap_err();
    assert_eq!(e.kind, ErrorKind::Fetch);
    assert_eq!(e.message, "chunk is not an array");
}
