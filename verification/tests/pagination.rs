use nail::pagination::{page_offset, paginate, resolve_paging};

#[test]
fn paginate_returns_the_page_slice_and_has_next() {
    let items: Vec<u64> = (0..10).collect();
    let (page, has_next) = paginate(items, 1, 4);
    assert_eq!(page, vec![0, 1, 2, 3]);
    assert!(has_next);

    let items: Vec<u64> = (0..10).collect();
    let (page, has_next) = paginate(items, 3, 4);
    assert_eq!(page, vec![8, 9]);
    assert!(!has_next);
}

#[test]
fn paginate_page_zero_behaves_like_page_one() {
    let items: Vec<u64> = (0..10).collect();
    let (page, has_next) = paginate(items, 0, 4);
    assert_eq!(page, vec![0, 1, 2, 3]);
    assert!(has_next);
}

#[test]
fn paginate_a_huge_page_is_empty_without_next() {
    let items: Vec<u64> = (0..10).collect();
    let (page, has_next) = paginate(items, u64::MAX, 4);
    assert!(page.is_empty());
    assert!(!has_next);
}

#[test]
fn paginate_an_empty_collection_has_no_next() {
    let (page, has_next) = paginate(Vec::<u64>::new(), 1, 4);
    assert!(page.is_empty());
    assert!(!has_next);
}

#[test]
fn page_offset_is_one_based() {
    assert_eq!(page_offset(1, 4), 0);
    assert_eq!(page_offset(2, 4), 4);
    assert_eq!(page_offset(0, 4), 0);
    assert_eq!(page_offset(u64::MAX, 200), u64::MAX);
}

#[test]
fn paginate_matches_the_legacy_offset_form_has_next() {
    for total in 0..=32u64 {
        for page in 1..=8u64 {
            for limit in 1..=5u64 {
                let offset = page.saturating_sub(1).saturating_mul(limit);
                let (_, has_next) = paginate((0..total).collect(), page, limit);
                let legacy = total > offset + limit;
                assert_eq!(has_next, legacy, "total={total} page={page} limit={limit}");
            }
        }
    }
}

#[test]
fn pages_tile_the_collection_exactly_once() {
    for total in 0..=12u64 {
        for limit in 1..=4u64 {
            let mut seen = Vec::new();
            let mut page = 1;
            loop {
                let (items, has_next) = paginate((0..total).collect::<Vec<u64>>(), page, limit);
                seen.extend(items);
                if !has_next {
                    break;
                }
                page += 1;
            }
            assert_eq!(seen, (0..total).collect::<Vec<u64>>());
        }
    }
}

#[test]
fn paging_defaults_and_clamps() {
    assert_eq!(resolve_paging(None, None, 8, 1024).unwrap(), (1, 8));
    assert_eq!(resolve_paging(Some(3), Some(10), 8, 1024).unwrap(), (3, 10));
    assert_eq!(resolve_paging(None, Some(500), 8, 1024).unwrap(), (1, 200));
    assert_eq!(resolve_paging(None, Some(0), 8, 1024).unwrap(), (1, 1));
    assert_eq!(resolve_paging(Some(0), None, 8, 1024).unwrap(), (1, 8));
    let error = resolve_paging(Some(1025), None, 8, 1024).unwrap_err();
    assert_eq!(error.status(), 400);
    assert_eq!(error.message(), "page exceeds max search pages");
}
