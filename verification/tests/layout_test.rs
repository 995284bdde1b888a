use termpp::multiplexer::layout::{Layout, SplitDirection};

#[test]
fn new_layout_is_single_leaf() {
    let l = Layout::new(0);
    assert_eq!(l.pane_ids(), vec![0]);
    assert_eq!(l.depth(), 0);
}

#[test]
fn split_adds_new_pane() {
    let l = Layout::new(0).split(0, SplitDirection::Vertical, 1).unwrap();
    assert_eq!(l.pane_ids(), vec![0, 1]);
    assert_eq!(l.depth(), 1);
}

#[test]
fn split_blocked_at_max_depth() {
    let mut l = Layout::new(0);
    for i in 1..=Layout::MAX_DEPTH {
        let target = *l.pane_ids().last().unwrap();
        l = l.split(target, SplitDirection::Vertical, i).unwrap();
    }
    let target = *l.pane_ids().last().unwrap();
    assert!(l.split(target, SplitDirection::Vertical, 99).is_none());
}

#[test]
fn remove_pane_leaves_sibling() {
    let l = Layout::new(0).split(0, SplitDirection::Vertical, 1).unwrap();
    let l = l.remove(0).unwrap();
    assert_eq!(l.pane_ids(), vec![1]);
}

#[test]
fn cannot_remove_last_pane() {
    assert!(Layout::new(0).remove(0).is_none());
}

#[test]
fn split_of_unknown_pane_is_refused() {
    assert!(Layout::new(0).split(7, SplitDirection::Horizontal, 1).is_none());
}

#[test]
fn split_places_new_pane_after_target() {
    let l = Layout::new(0).split(0, SplitDirection::Vertical, 1).unwrap();
    let l = l.split(0, SplitDirection::Horizontal, 2).unwrap();
    assert_eq!(l.pane_ids(), vec![0, 2, 1]);
    assert_eq!(l.first_pane(), 0);
    assert_eq!(l.depth(), 2);
}

#[test]
fn split_then_remove_restores_panes() {
    let l = Layout::new(0).split(0, SplitDirection::Vertical, 1).unwrap();
    let l2 = l.split(1, SplitDirection::Horizontal, 2).unwrap();
    let back = l2.remove(2).unwrap();
    assert_eq!(back.pane_ids(), l.pane_ids());
    assert_eq!(back.depth(), l.depth());
}

#[test]
fn ratio_is_clamped_and_read_back() {
    let mut l = Layout::new(0).split(0, SplitDirection::Vertical, 1).unwrap();
    assert_eq!(l.get_ratio(0), Some(500));
    l.set_ratio(0, 950);
    assert_eq!(l.get_ratio(0), Some(900));
    l.set_ratio(0, 20);
    assert_eq!(l.get_ratio(0), Some(100));
    l.set_ratio(0, 300);
    assert_eq!(l.get_ratio(0), Some(300));
    assert_eq!(l.get_ratio(1), None);
}

#[test]
fn removing_absent_pane_keeps_layout() {
    let l = Layout::new(0).split(0, SplitDirection::Vertical, 1).unwrap();
    let same = l.remove(5).unwrap();
    assert_eq!(same.pane_ids(), vec![0, 1]);
}
