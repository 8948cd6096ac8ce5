use nft_pricer::overlap::{generate_token_mapping, process_assets, process_chunk, TokenTraits};

// Trait ids used across the snapshot tests: a background, heads, a body,
// familiars, a rune.
const BG_BLACK: u64 = 1;
const HEAD_ILLUMINATUS: u64 = 2;
const BODY_RAINBOW: u64 = 3;
const FAMILIAR_SPHINX: u64 = 4;
const RUNE_INFINITY: u64 = 5;
const HEAD_GREAT_OLD_ONE: u64 = 6;
const FAMILIAR_DOG: u64 = 7;
const BG_RED: u64 = 8;

fn get_assets() -> Vec<TokenTraits> {
    vec![
        TokenTraits {
            token_id: 1,
            traits: vec![BG_BLACK, HEAD_ILLUMINATUS, BODY_RAINBOW, FAMILIAR_SPHINX, RUNE_INFINITY],
        },
        TokenTraits {
            token_id: 2,
            traits: vec![BG_BLACK, HEAD_GREAT_OLD_ONE, BODY_RAINBOW, FAMILIAR_DOG, RUNE_INFINITY],
        },
        TokenTraits {
            token_id: 3,
            traits: vec![BG_RED, HEAD_GREAT_OLD_ONE, BODY_RAINBOW, FAMILIAR_DOG, RUNE_INFINITY],
        },
    ]
}

#[test]
fn test_generate_token_mapping() {
    let a = generate_token_mapping(&get_assets());
    assert!(!a.is_empty());
    // eight distinct traits occur in the snapshot
    assert_eq!(a.len(), 8);
    let body = a.iter().find(|e| e.trait_id == BODY_RAINBOW).unwrap();
    assert_eq!(body.token_ids, vec![1, 2, 3]);
    let bg_red = a.iter().find(|e| e.trait_id == BG_RED).unwrap();
    assert_eq!(bg_red.token_ids, vec![3]);
    let bg_black = a.iter().find(|e| e.trait_id == BG_BLACK).unwrap();
    assert_eq!(bg_black.token_ids, vec![1, 2]);
}

#[test]
fn test_asset_process() {
    // token 1 shares {black, rainbow, rune} with 2 and {rainbow, rune} with 3;
    // tokens 2 and 3 share four traits.
    let res = process_assets(&get_assets(), &vec![], 16);
    assert_eq!(res.len(), 3);

    assert_eq!(res[0].token_id, 1);
    assert_eq!(res[0].traits_3_combination_overlap, 1);
    assert_eq!(res[0].traits_3_combination_overlap_ids, vec![2]);
    assert_eq!(res[0].traits_4_combination_overlap, 0);
    assert_eq!(res[0].traits_5_combination_overlap, 0);

    assert_eq!(res[1].token_id, 2);
    assert_eq!(res[1].traits_3_combination_overlap, 2);
    assert_eq!(res[1].traits_3_combination_overlap_ids, vec![1, 3]);
    assert_eq!(res[1].traits_4_combination_overlap, 1);
    assert_eq!(res[1].traits_4_combination_overlap_ids, vec![3]);
    assert_eq!(res[1].traits_5_combination_overlap, 0);

    assert_eq!(res[2].token_id, 3);
    assert_eq!(res[2].traits_3_combination_overlap, 1);
    assert_eq!(res[2].traits_4_combination_overlap, 1);
    assert_eq!(res[2].traits_4_combination_overlap_ids, vec![2]);
}

#[test]
fn test_overlap_ignored_traits() {
    // ignoring the backgrounds removes them from each token's own
    // combinations: token 1 then shares only {rainbow, rune} with token 2.
    let res = process_assets(&get_assets(), &vec![BG_BLACK, BG_RED], 16);
    assert_eq!(res[0].traits_3_combination_overlap, 0);
    // tokens 2 and 3 still share {great old one, rainbow, dog, rune}
    assert_eq!(res[1].traits_3_combination_overlap, 1);
    assert_eq!(res[1].traits_3_combination_overlap_ids, vec![3]);
    assert_eq!(res[1].traits_4_combination_overlap, 1);
}

#[test]
fn test_overlap_idempotent_across_chunkings() {
    // the same snapshot processed with different chunk sizes yields
    // identical counts and id sets
    let tokens = get_assets();
    let a = process_assets(&tokens, &vec![], 1);
    let b = process_assets(&tokens, &vec![], 2);
    let c = process_assets(&tokens, &vec![], 100);
    assert_eq!(a.len(), b.len());
    for i in 0..a.len() {
        assert_eq!(a[i].token_id, b[i].token_id);
        assert_eq!(a[i].traits_3_combination_overlap, b[i].traits_3_combination_overlap);
        assert_eq!(a[i].traits_3_combination_overlap_ids, b[i].traits_3_combination_overlap_ids);
        assert_eq!(a[i].traits_4_combination_overlap_ids, c[i].traits_4_combination_overlap_ids);
        assert_eq!(a[i].traits_5_combination_overlap_ids, c[i].traits_5_combination_overlap_ids);
    }
}

#[test]
fn test_overlap_excludes_own_id() {
    // exclusion invariant: no token lists itself
    let res = process_assets(&get_assets(), &vec![], 16);
    for o in &res {
        assert!(!o.traits_3_combination_overlap_ids.contains(&o.token_id));
        assert!(!o.traits_4_combination_overlap_ids.contains(&o.token_id));
        assert!(!o.traits_5_combination_overlap_ids.contains(&o.token_id));
    }
}

#[test]
fn test_overlap_count_matches_ids() {
    // consistency invariant: each count equals the cardinality of its id set
    let res = process_assets(&get_assets(), &vec![], 16);
    for o in &res {
        let mut dedup3 = o.traits_3_combination_overlap_ids.clone();
        dedup3.sort();
        dedup3.dedup();
        assert_eq!(o.traits_3_combination_overlap as usize, dedup3.len());
        let mut dedup4 = o.traits_4_combination_overlap_ids.clone();
        dedup4.sort();
        dedup4.dedup();
        assert_eq!(o.traits_4_combination_overlap as usize, dedup4.len());
    }
}

#[test]
fn test_overlap_few_traits_empty_sets() {
    // a token with fewer than three usable traits produces empty overlap
    // sets for every size, never an error
    let tokens = vec![
        TokenTraits { token_id: 10, traits: vec![1, 2] },
        TokenTraits { token_id: 11, traits: vec![1, 2, 3, 4, 5] },
    ];
    let res = process_assets(&tokens, &vec![], 4);
    assert_eq!(res[0].traits_3_combination_overlap, 0);
    assert!(res[0].traits_3_combination_overlap_ids.is_empty());
    // the larger token still cannot find three shared traits anywhere
    assert_eq!(res[1].traits_3_combination_overlap, 0);
}

#[test]
fn test_process_chunk_range() {
    let tokens = get_assets();
    let whole = process_assets(&tokens, &vec![], 16);
    let tail = process_chunk(&tokens, &vec![], 1, 3);
    assert_eq!(tail.len(), 2);
    assert_eq!(tail[0].token_id, whole[1].token_id);
    assert_eq!(tail[0].traits_3_combination_overlap_ids, whole[1].traits_3_combination_overlap_ids);
    assert_eq!(tail[1].traits_4_combination_overlap_ids, whole[2].traits_4_combination_overlap_ids);
}

#[test]
fn test_empty_snapshot() {
    let res = process_assets(&vec![], &vec![], 8);
    assert!(res.is_empty());
    let map = generate_token_mapping(&vec![]);
    assert!(map.is_empty());
}
