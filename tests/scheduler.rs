use cloth_sim::scheduler::{workgroup_count, Dispatch, StepScheduler};

#[test]
fn no_step_before_the_interval() {
    let mut s = StepScheduler::new(10, 100);
    assert_eq!(s.advance(105), None);
    assert_eq!(s.advance(109), None);
    assert!(!s.in_flight());
    assert_eq!(s.last_step(), 100);
}

#[test]
fn step_at_exactly_the_interval() {
    let mut s = StepScheduler::new(10, 100);
    assert_eq!(s.advance(110), Some(Dispatch { read: 0, write: 1 }));
    assert!(s.in_flight());
    assert_eq!(s.last_step(), 110);
}

#[test]
fn completed_step_swaps_roles() {
    let mut s = StepScheduler::new(10, 0);
    assert_eq!(s.read_slot(), 0);
    assert_eq!(s.advance(10), Some(Dispatch { read: 0, write: 1 }));
    s.complete(true);
    assert_eq!(s.read_slot(), 1);
    assert_eq!(s.write_slot(), 0);
    assert_eq!(s.advance(20), Some(Dispatch { read: 1, write: 0 }));
    s.complete(true);
    assert_eq!(s.read_slot(), 0);
}

#[test]
fn no_second_dispatch_while_one_is_in_flight() {
    let mut s = StepScheduler::new(10, 0);
    assert!(s.advance(10).is_some());
    assert_eq!(s.advance(50), None);
    assert_eq!(s.last_step(), 10);
    s.complete(true);
    assert_eq!(s.advance(50), Some(Dispatch { read: 1, write: 0 }));
}

#[test]
fn failed_step_keeps_roles_and_waits_for_next_interval() {
    let mut s = StepScheduler::new(10, 0);
    assert!(s.advance(10).is_some());
    s.complete(false);
    assert_eq!(s.read_slot(), 0);
    assert!(!s.in_flight());
    assert_eq!(s.advance(15), None);
    assert_eq!(s.advance(20), Some(Dispatch { read: 0, write: 1 }));
}

#[test]
fn complete_without_step_changes_nothing() {
    let mut s = StepScheduler::new(10, 0);
    s.complete(true);
    assert_eq!(s.read_slot(), 0);
    assert_eq!(s.min_interval(), 10);
}

fn frames(s: &mut StepScheduler, times: &[u64]) -> usize {
    let mut n = 0;
    for &t in times {
        if s.advance(t).is_some() {
            s.complete(true);
            n += 1;
        }
    }
    n
}

#[test]
fn frames_within_one_interval_dispatch_at_most_once() {
    let mut s = StepScheduler::new(10, 0);
    assert_eq!(frames(&mut s, &[3, 6, 9, 12]), 1);
    assert_eq!(s.last_step(), 12);
    let mut s = StepScheduler::new(10, 0);
    assert_eq!(frames(&mut s, &[1, 2, 3, 4, 5, 6, 7, 8, 9]), 0);
}

#[test]
fn frames_an_interval_apart_dispatch_once_each() {
    let mut s = StepScheduler::new(10, 0);
    assert_eq!(frames(&mut s, &[10, 20, 35, 45, 60]), 5);
    assert_eq!(s.last_step(), 60);
    assert_eq!(s.read_slot(), 1);
}

#[test]
fn ten_millisecond_cadence_at_sixty_frames_per_second() {
    // Frames every 16.6 ms against a 10 ms gate: one step per frame.
    let mut s = StepScheduler::new(10_000_000, 0);
    let times: Vec<u64> = (1..=6).map(|k| k * 16_600_000).collect();
    assert_eq!(frames(&mut s, &times), 6);
    // Frames every 4 ms: one step per three frames.
    let mut s = StepScheduler::new(10_000_000, 0);
    let times: Vec<u64> = (1..=9).map(|k| k * 4_000_000).collect();
    assert_eq!(frames(&mut s, &times), 3);
}

#[test]
fn workgroup_count_rounds_up() {
    assert_eq!(workgroup_count(900, 128), 8);
    assert_eq!(workgroup_count(256, 128), 2);
    assert_eq!(workgroup_count(257, 128), 3);
    assert_eq!(workgroup_count(0, 128), 0);
    assert_eq!(workgroup_count(u32::MAX, 2), 2_147_483_648);
}
