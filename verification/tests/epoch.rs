use dozer::epoch::{clone_details, Epoch, EpochManager};
use dozer::node::NodeHandle;

fn handle(id: &str) -> NodeHandle {
    NodeHandle::new(None, id.to_string())
}

#[test]
fn epoch_closes_when_all_sources_have_asked() {
    let mut manager = EpochManager::new(2);
    assert_eq!(manager.waiting(), 0);
    assert_eq!(manager.request_commit(&handle("fast"), (1, 10)), None);
    assert_eq!(manager.waiting(), 1);
    // the fast source asks again: it still counts once
    assert_eq!(manager.request_commit(&handle("fast"), (1, 25)), None);
    assert_eq!(manager.waiting(), 1);
    let closed = manager.request_commit(&handle("slow"), (1, 3));
    assert_eq!(closed, Some(Epoch::new(0, vec![(handle("fast"), (1, 25)), (handle("slow"), (1, 3))])));
    assert_eq!(manager.waiting(), 0);
}

#[test]
fn epochs_are_numbered_in_order() {
    let mut manager = EpochManager::new(1);
    assert_eq!(manager.next_epoch_id(), 0);
    for id in 0..5u64 {
        assert_eq!(manager.next_epoch_id(), id);
        let closed = manager.request_commit(&handle("only"), (0, id * 10)).unwrap();
        assert_eq!(closed.id, id);
        assert_eq!(closed.details, vec![(handle("only"), (0, id * 10))]);
    }
}

#[test]
fn a_manager_without_sources_closes_nothing() {
    let mut manager = EpochManager::new(0);
    assert_eq!(manager.request_commit(&handle("stray"), (0, 0)), None);
}

#[test]
fn epochs_are_copied_whole() {
    let epoch = Epoch::new(4, vec![(handle("a"), (1, 2)), (handle("b"), (3, 4))]);
    assert_eq!(epoch.clone(), epoch);
    assert_eq!(clone_details(&epoch.details), epoch.details);
}
