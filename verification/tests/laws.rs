use parley::bidi::reorder_by_level;
use parley::data::{ProjectedSourceBoundary, ProjectedSourceLineFill};
use parley::inline_box::FollowingSourceSpace;
use parley::inline_fragmentation::{ClonedInlineFlow, ClonedInlineOwner};

fn owner(start_id: u64, end_id: u64, start_width: i64, end_width: i64) -> ClonedInlineOwner {
    ClonedInlineOwner { start_id, end_id, start_width, end_width }
}

#[test]
fn cloned_owner_edges_nest() {
    let outer = owner(1, 2, 10, 20);
    let inner = owner(3, 4, 1, 2);
    let mut flow = ClonedInlineFlow::new();
    flow.before_edge(1, Some(outer));
    flow.after_edge(1, Some(outer));
    flow.before_edge(3, Some(inner));
    flow.after_edge(3, Some(inner));
    assert_eq!(flow.start_ids(), vec![1, 3]);
    assert_eq!(flow.end_ids(), vec![4, 2]);
    assert_eq!(flow.start_advance(), 11);
    assert_eq!(flow.end_advance(), 22);
    // Closing the inner owner restores the flow it opened in.
    flow.before_edge(4, Some(inner));
    flow.after_edge(4, Some(inner));
    assert_eq!(flow.start_ids(), vec![1]);
    assert_eq!(flow.end_ids(), vec![2]);
}

#[test]
fn intrinsic_fragment_carries_the_repeated_edges() {
    let mut flow = ClonedInlineFlow::new();
    let o = owner(7, 8, 5, 6);
    flow.after_edge(7, Some(o));
    let mut maximum = 0;
    let mut advance = 100;
    flow.finish_intrinsic_fragment(&mut maximum, &mut advance, 10);
    assert_eq!(maximum, 96);
    assert_eq!(advance, 5);
}

#[test]
fn settling_the_line_fill_twice_settles_it_once() {
    let b = ProjectedSourceBoundary::AcrossCollapsibleSpace {
        edge_byte_index: 3,
        source_byte_index: 4,
        following_source_space: FollowingSourceSpace::CollapseAfterFilledOwnerFragment,
    };
    let once = b.resolve_line_fill(ProjectedSourceLineFill::FilledMeasure);
    let twice = once.resolve_line_fill(ProjectedSourceLineFill::AvailableMeasure);
    assert_eq!(once, twice);
    assert_eq!(twice.target(), 4);
    assert!(twice.suppresses(4));
}

#[test]
fn reordering_only_permutes() {
    let levels: Vec<u8> = vec![0, 1, 1, 2, 2, 1, 0];
    let mut order: Vec<usize> = (0..levels.len()).collect();
    reorder_by_level(&mut order, &levels);
    let mut sorted = order.clone();
    sorted.sort();
    assert_eq!(sorted, (0..levels.len()).collect::<Vec<_>>());
    assert_eq!(order, vec![0, 5, 3, 4, 2, 1, 6]);
}
