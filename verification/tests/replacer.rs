//! The choice of the frame to give up.
use rustdb::error::RustDBError;
use rustdb::replacer::LruKReplacer;

fn replacer(k: usize, accesses: &[usize], evictable: &[usize]) -> LruKReplacer {
    let mut replacer = LruKReplacer::new(k);
    for frame_id in accesses {
        replacer.record_access(*frame_id);
    }
    for frame_id in evictable {
        replacer.set_evictable(*frame_id, true);
    }
    replacer
}

fn drain(replacer: &mut LruKReplacer) -> Vec<usize> {
    let mut victims = Vec::new();
    while let Some(frame_id) = replacer.evict() {
        victims.push(frame_id);
    }
    victims
}

#[test]
fn nothing_is_given_up_unless_marked() {
    let mut r = replacer(2, &[1, 2], &[]);
    assert_eq!(r.evict(), None);
    r.set_evictable(2, true);
    assert_eq!(r.evict(), Some(2));
    assert_eq!(r.evict(), None);
}

#[test]
fn a_frame_that_is_not_known_cannot_be_marked() {
    let mut r = replacer(2, &[], &[4]);
    assert_eq!(r.evict(), None);
    r.record_access(4);
    assert_eq!(r.evict(), None);
}

#[test]
fn young_frames_go_first_and_oldest_first() {
    // 1 and 3 have two accesses each; 2 and 4 have one.
    let mut r = replacer(2, &[1, 2, 3, 4, 1, 3], &[1, 2, 3, 4]);
    assert_eq!(drain(&mut r), vec![2, 4, 1, 3]);
}

#[test]
fn the_second_to_last_access_counts_for_k_of_two() {
    // The accesses of 1 are the 3rd and 4th, those of 2 the 2nd and 5th.
    let mut r = replacer(2, &[1, 2, 1, 1, 2], &[1, 2]);
    assert_eq!(drain(&mut r), vec![2, 1]);
}

#[test]
fn k_of_one_and_zero_give_up_the_least_recent() {
    for k in 0..2 {
        let mut r = replacer(k, &[1, 2, 3, 1], &[1, 2, 3]);
        assert_eq!(drain(&mut r), vec![2, 3, 1]);
    }
}

#[test]
fn a_mark_can_be_taken_back() {
    let mut r = replacer(2, &[1, 2], &[1, 2]);
    r.set_evictable(1, false);
    assert_eq!(drain(&mut r), vec![2]);
}

#[test]
fn a_removed_frame_is_forgotten() {
    let mut r = replacer(2, &[1, 2], &[1, 2]);
    assert!(r.remove(1).is_ok());
    assert_eq!(drain(&mut r), vec![2]);
    assert!(r.remove(1).is_ok());
    assert!(r.remove(7).is_ok());
}

#[test]
fn a_frame_in_use_is_not_removed() {
    let mut r = replacer(2, &[1], &[]);
    assert_eq!(
        r.remove(1),
        Err(RustDBError::BufferPool("Frame is not evictable".to_string()))
    );
    r.set_evictable(1, true);
    assert_eq!(r.evict(), Some(1));
}
