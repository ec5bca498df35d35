use nail::logs::prune_plan;

const DAY: u64 = 86_400;
const NOW: u64 = 1_700_000_000;

#[test]
fn prune_plan_removes_files_older_than_the_retention_days() {
    let modified = vec![NOW - 2 * DAY, NOW];
    assert_eq!(prune_plan(&modified, NOW, 1, 0), vec![true, false]);
}

#[test]
fn prune_plan_enforces_the_ring_size_by_removing_the_oldest_kept_files() {
    let modified = vec![NOW - 3 * DAY, NOW - 2 * DAY, NOW - DAY];
    assert_eq!(prune_plan(&modified, NOW, 0, 2), vec![true, false, false]);
    let shuffled = vec![NOW - DAY, NOW - 3 * DAY, NOW - 2 * DAY];
    assert_eq!(prune_plan(&shuffled, NOW, 0, 2), vec![false, true, false]);
}

#[test]
fn prune_plan_counts_the_ring_among_unexpired_files_only() {
    let modified = vec![NOW - 5 * DAY, NOW - DAY / 2, NOW - DAY / 5, NOW - 9 * DAY];
    assert_eq!(
        prune_plan(&modified, NOW, 1, 2),
        vec![true, false, false, true]
    );
}

#[test]
fn prune_plan_breaks_ties_by_list_order_and_keeps_everything_unbounded() {
    let modified = vec![NOW, NOW, NOW];
    assert_eq!(prune_plan(&modified, NOW, 0, 1), vec![false, true, true]);
    assert_eq!(prune_plan(&modified, NOW, 0, 0), vec![false, false, false]);
    assert_eq!(prune_plan(&Vec::new(), NOW, 3, 3), Vec::<bool>::new());
}

#[test]
fn prune_plan_keeps_files_exactly_at_the_retention_edge_and_from_the_future() {
    let modified = vec![NOW - DAY, NOW - DAY - 1, NOW + 100];
    assert_eq!(prune_plan(&modified, NOW, 1, 0), vec![false, true, false]);
}
