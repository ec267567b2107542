use brainpile_core::fusion::{rrf_merge, SearchHit, RRF_K};
use brainpile_core::search::{check_query, fuse_recalls, ranked_hits, search_limit, type_filter_keeps};
use brainpile_core::error::ApiError;

fn hit(id: i64, rank: usize) -> SearchHit {
    SearchHit { id, rank }
}

#[test]
fn hybrid_search_orders_by_fused_score() {
    // 101: dense text rank 1 and visual-by-text rank 2; 102: lexical rank 1.
    let text = vec![hit(101, 1)];
    let visual = vec![hit(103, 1), hit(101, 2)];
    let lexical = vec![hit(102, 1)];
    let r = rrf_merge(vec![text, visual, lexical], RRF_K, 50);
    assert_eq!(r[0], 101);
    assert!(r.contains(&102));
    let pos_first = r.iter().position(|x| *x == 101).unwrap();
    let pos_second = r.iter().position(|x| *x == 102).unwrap();
    assert!(pos_first < pos_second);
}

#[test]
fn hybrid_search_scenario_two_items() {
    let r = rrf_merge(vec![vec![hit(101, 1)], vec![hit(102, 1)], vec![], vec![hit(101, 2)]], 60, 50);
    assert_eq!(r, vec![101, 102]);
}

#[test]
fn single_channel_keeps_its_order() {
    let a = vec![hit(7, 1), hit(3, 2), hit(9, 3)];
    let r = rrf_merge(vec![vec![], a, vec![]], 60, 10);
    assert_eq!(r, vec![7, 3, 9]);
}

#[test]
fn equal_scores_put_smaller_id_first() {
    let r = rrf_merge(vec![vec![hit(20, 1)], vec![hit(10, 1)]], 60, 10);
    assert_eq!(r, vec![10, 20]);
}

#[test]
fn top_n_truncates() {
    let a = vec![hit(1, 1), hit(2, 2), hit(3, 3), hit(4, 4)];
    assert_eq!(rrf_merge(vec![a], 60, 2), vec![1, 2]);
}

#[test]
fn empty_channels_fuse_to_nothing() {
    assert!(rrf_merge(vec![], 60, 50).is_empty());
    assert!(rrf_merge(vec![vec![], vec![]], 60, 50).is_empty());
}

#[test]
fn two_lower_ranks_beat_one_top_rank() {
    // 1/61 + 1/62 > 1/61 and 1/62 + 1/63 (= 0.0320) > 1/61 (= 0.0164).
    let r = rrf_merge(vec![vec![hit(1, 1), hit(2, 2)], vec![hit(3, 1), hit(2, 3)]], 60, 10);
    assert_eq!(r, vec![2, 1, 3]);
}

#[test]
fn ranked_hits_dedup_and_cap() {
    let ids: Vec<i64> = (0..150).map(|i| i % 120).collect();
    let hits = ranked_hits(&ids);
    assert_eq!(hits.len(), 100);
    assert_eq!(hits[0].id, 0);
    assert_eq!(hits[0].rank, 1);
    assert_eq!(hits[99].id, 99);
    assert_eq!(hits[99].rank, 100);
    let dup = ranked_hits(&vec![5, 5, 6]);
    assert_eq!(dup.len(), 2);
    assert_eq!(dup[1].id, 6);
    assert_eq!(dup[1].rank, 2);
}

#[test]
fn fuse_recalls_scenario() {
    let r = fuse_recalls(&vec![vec![101], vec![555, 101], vec![102]], 50);
    assert_eq!(r[0], 101);
    assert_eq!(r.len(), 3);
    assert!(r.iter().position(|x| *x == 101).unwrap() < r.iter().position(|x| *x == 102).unwrap());
}

#[test]
fn search_limit_defaults_and_caps() {
    assert_eq!(search_limit(None), 50);
    assert_eq!(search_limit(Some(7)), 7);
    assert_eq!(search_limit(Some(500)), 100);
    assert_eq!(search_limit(Some(-3)), 0);
}

#[test]
fn query_needs_text_or_image() {
    assert_eq!(check_query(false, false), Err(ApiError::BadRequest));
    assert_eq!(check_query(true, false), Ok(()));
    assert_eq!(check_query(false, true), Ok(()));
    assert_eq!(ApiError::BadRequest.status_code(), 400);
    assert_eq!(ApiError::NotFound.status_code(), 404);
    assert_eq!(ApiError::Store.status_code(), 500);
}

#[test]
fn type_filter() {
    assert!(type_filter_keeps(&None, "image"));
    assert!(type_filter_keeps(&Some("image".to_string()), "image"));
    assert!(!type_filter_keeps(&Some("video".to_string()), "image"));
}
