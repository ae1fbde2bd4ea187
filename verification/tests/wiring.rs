use argon::rack::wiring::StageLayout;
use argon::rack::{rack_layout, TunRackBuilder};

#[test]
fn stage_layout_groups_by_gcd() {
    let layout = StageLayout::new(4, 6);
    assert_eq!(layout.groups, 2);
    assert_eq!(layout.canons_per_group, 2);
    assert_eq!(layout.targets_per_group, 3);

    let layout = StageLayout::new(1, 5);
    assert_eq!(layout.groups, 1);
    assert_eq!(layout.canons_per_group, 1);
    assert_eq!(layout.targets_per_group, 5);

    let layout = StageLayout::new(3, 3);
    assert_eq!(layout.groups, 3);
    assert_eq!(layout.canons_per_group, 1);
    assert_eq!(layout.targets_per_group, 1);

    let layout = StageLayout::new(0, 3);
    assert_eq!(layout.groups, 3);
    assert_eq!(layout.canons_per_group, 0);
    assert_eq!(layout.targets_per_group, 1);

    let layout = StageLayout::new(7, 1);
    assert_eq!(layout.groups, 1);
    assert_eq!(layout.canons_per_group, 7);
    assert_eq!(layout.targets_per_group, 1);
}

#[test]
fn rack_layout_follows_the_worker_chain() {
    let stages = rack_layout(&vec![2, 3]);
    assert_eq!(stages.len(), 3);
    let counts: Vec<(usize, usize, usize)> = stages
        .iter()
        .map(|s| (s.groups, s.canons_per_group, s.targets_per_group))
        .collect();
    assert_eq!(counts, vec![(1, 1, 2), (1, 2, 3), (1, 3, 1)]);

    let stages = rack_layout(&vec![]);
    assert_eq!(stages.len(), 1);
    assert_eq!((stages[0].groups, stages[0].canons_per_group, stages[0].targets_per_group), (1, 1, 1));
}

#[test]
fn build_channels_wires_every_canon_to_every_target() {
    let (canons, targets) = TunRackBuilder::build_channels(2, 3);
    assert_eq!(canons.len(), 2);
    assert_eq!(targets.len(), 3);
    let (canons, targets) = TunRackBuilder::build_channels(0, 0);
    assert!(canons.is_empty() && targets.is_empty());
}

#[test]
fn build_stage_makes_all_groups() {
    let (canons, targets) = TunRackBuilder::build_stage(&StageLayout::new(4, 6));
    assert_eq!(canons.len(), 4);
    assert_eq!(targets.len(), 6);
}

#[test]
fn stage_feeds_within_groups() {
    // Between 4 and 6 workers: 2 groups; canons 0-1 feed targets 0-2, canons
    // 2-3 feed targets 3-5.
    let layout = StageLayout::new(4, 6);
    let feeds = |k: usize, t: usize| k / layout.canons_per_group == t / layout.targets_per_group;
    for t in 0..3 {
        assert!(feeds(0, t) && feeds(1, t) && !feeds(2, t) && !feeds(3, t));
    }
    for t in 3..6 {
        assert!(!feeds(0, t) && !feeds(1, t) && feeds(2, t) && feeds(3, t));
    }
}
