use smr_core::follower_handling::{FollowerEvent, FollowersFollowing};
use smr_core::types::{Header, StoredMessage, SystemMessage, ViewInfo};

fn view(n: usize, f: usize, primary: u32) -> ViewInfo {
    ViewInfo { n, f, primary }
}

fn wire_msg(from: u32) -> StoredMessage {
    StoredMessage { header: Header { from }, payload: vec![0xAB] }
}

fn six_followers() -> Vec<u32> {
    vec![10, 11, 12, 13, 14, 15]
}

#[test]
fn target_window_for_local_index_zero() {
    // n=4, f=1: 3 forwarding replicas, 2 per follower; 6 followers
    // give a window of floor(2*6/3) = 4, starting at index 0
    let router = FollowersFollowing::init_follower_handling(0, six_followers());
    let targets = router.targets(&view(4, 1, 3));
    assert_eq!(targets, vec![10, 11, 12, 13]);
}

#[test]
fn renumbering_closes_the_gap_left_by_the_primary() {
    // primary = 2: own ids {0, 1, 3} must take dense local indices
    // {0, 1, 2}; with 3 followers the window size is floor(2*3/3) = 2,
    // so the three windows start at 0, 1 and 2 respectively
    let v = view(4, 1, 2);
    let r0 = FollowersFollowing::init_follower_handling(0, vec![20, 21, 22]);
    let r1 = FollowersFollowing::init_follower_handling(1, vec![20, 21, 22]);
    let r3 = FollowersFollowing::init_follower_handling(3, vec![20, 21, 22]);

    assert_eq!(r0.targets(&v), vec![20, 21]);
    assert_eq!(r1.targets(&v), vec![21, 22]);
    // local index 2 wraps around the end of the follower list
    assert_eq!(r3.targets(&v), vec![22, 20]);
}

#[test]
fn every_follower_is_covered_twice_when_counts_match() {
    // with as many followers as forwarding replicas, each follower
    // must appear in exactly f+1 = 2 of the windows
    let v = view(4, 1, 2);
    let followers = vec![20u32, 21, 22];
    let mut cover = [0usize; 3];
    for own in [0u32, 1, 3] {
        let router = FollowersFollowing::init_follower_handling(own, followers.clone());
        for t in router.targets(&v) {
            let pos = followers.iter().position(|x| *x == t).unwrap();
            cover[pos] += 1;
        }
    }
    assert_eq!(cover, [2, 2, 2]);
}

#[test]
fn preprepare_scenario_end_to_end() {
    // primary=0, own id=1 (non-primary), n=4, f=1, 6 followers:
    // local index 0, first follower 0, window size 4
    let router = FollowersFollowing::init_follower_handling(1, six_followers());
    let decision = router
        .handle_preprepare_msg_rcvd(&view(4, 1, 0), wire_msg(0))
        .unwrap();

    assert_eq!(decision.targets, vec![10, 11, 12, 13]);
    // the other two followers receive nothing
    assert!(!decision.targets.contains(&14));
    assert!(!decision.targets.contains(&15));
    let SystemMessage::ForwardedProtocolMessage(inner) = decision.message;
    assert_eq!(inner, wire_msg(0));
}

#[test]
fn primary_skips_preprepare_forwarding() {
    let router = FollowersFollowing::init_follower_handling(2, six_followers());
    let decision = router.handle_preprepare_msg_rcvd(&view(4, 1, 2), wire_msg(2));
    assert!(decision.is_none());
}

#[test]
fn sparse_followers_fall_back_to_full_broadcast() {
    // fewer followers (2) than forwarding replicas (3): full broadcast
    let router = FollowersFollowing::init_follower_handling(1, vec![30, 31]);
    let decision = router
        .handle_preprepare_msg_rcvd(&view(4, 1, 0), wire_msg(0))
        .unwrap();
    assert_eq!(decision.targets, vec![30, 31]);
}

#[test]
fn own_prepare_goes_to_all_followers() {
    let router = FollowersFollowing::init_follower_handling(1, six_followers());
    let decision = router.handle_prepare_msg(wire_msg(1)).unwrap();
    assert_eq!(decision.targets, six_followers());
}

#[test]
fn foreign_prepare_is_not_forwarded() {
    let router = FollowersFollowing::init_follower_handling(1, six_followers());
    assert!(router.handle_prepare_msg(wire_msg(2)).is_none());
}

#[test]
fn own_commit_goes_to_all_followers() {
    let router = FollowersFollowing::init_follower_handling(3, six_followers());
    let decision = router.handle_commit_msg(wire_msg(3)).unwrap();
    assert_eq!(decision.targets, six_followers());
}

#[test]
fn foreign_commit_is_not_forwarded() {
    let router = FollowersFollowing::init_follower_handling(3, six_followers());
    assert!(router.handle_commit_msg(wire_msg(0)).is_none());
}

#[test]
fn view_change_event_is_forwarded_to_all_followers() {
    let router = FollowersFollowing::init_follower_handling(1, six_followers());
    let decision = router
        .handle_follower_event(FollowerEvent::ReceivedViewChangeMsg(wire_msg(2)))
        .unwrap();
    assert_eq!(decision.targets, six_followers());
    let SystemMessage::ForwardedProtocolMessage(inner) = decision.message;
    assert_eq!(inner, wire_msg(2));
}

#[test]
fn consensus_events_are_reserved_and_produce_no_broadcast() {
    let router = FollowersFollowing::init_follower_handling(1, six_followers());
    let decision = router.handle_follower_event(FollowerEvent::ReceivedConsensusMsg(
        view(4, 1, 0),
        wire_msg(0),
    ));
    assert!(decision.is_none());
}

#[test]
fn window_wraps_with_modular_indexing() {
    // n=4, f=1, 4 followers: window size floor(2*4/3) = 2; own id 3
    // with primary 0 has local index 2, so its window starts at 2 and
    // stays in bounds; own id 3 with 3 followers wraps (covered
    // above); here check a start near the end of a larger list
    let router = FollowersFollowing::init_follower_handling(3, vec![40, 41, 42, 43]);
    let targets = router.targets(&view(4, 1, 0));
    assert_eq!(targets, vec![42, 43]);
}

#[test]
fn empty_follower_list_yields_empty_broadcasts() {
    let router = FollowersFollowing::init_follower_handling(1, vec![]);
    let decision = router.handle_prepare_msg(wire_msg(1)).unwrap();
    assert!(decision.targets.is_empty());
    let decision = router
        .handle_preprepare_msg_rcvd(&view(4, 1, 0), wire_msg(0))
        .unwrap();
    assert!(decision.targets.is_empty());
}
