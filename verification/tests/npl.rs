use nimble_rs::npl::{
    deadline, deadline_after, deadline_at, drain_events, fire_due_timers, later_by, remaining_ticks, ticks_of_ms, time_get, timer_step, wait_result, wait_step,
    CriticalNesting, EventFlags,
    EventQueue,
    Parker, RecursiveMutex, Semaphore, SpinParker, TimerStep, Timers, WaitStep, NPL_EINVAL,
    NPL_OK, NPL_TIMEOUT, NPL_TIME_FOREVER,
};

#[test]
fn eventq_is_fifo() {
    let mut flags = EventFlags::new();
    let mut q = EventQueue::new();
    assert!(q.is_empty());
    q.put(&mut flags, 10);
    q.put(&mut flags, 20);
    q.put(&mut flags, 30);
    assert_eq!(q.try_pop(&mut flags), Some(10));
    assert_eq!(q.try_pop(&mut flags), Some(20));
    assert_eq!(q.try_pop(&mut flags), Some(30));
    assert_eq!(q.try_pop(&mut flags), None);
    assert!(!flags.is_queued(10));
}

#[test]
fn eventq_put_queued_event_is_noop() {
    let mut flags = EventFlags::new();
    let mut q = EventQueue::new();
    q.put(&mut flags, 1);
    q.put(&mut flags, 2);
    q.put(&mut flags, 1);
    assert_eq!(q.try_pop(&mut flags), Some(1));
    assert_eq!(q.try_pop(&mut flags), Some(2));
    assert_eq!(q.try_pop(&mut flags), None);
}

#[test]
fn event_is_on_one_queue_at_a_time() {
    let mut flags = EventFlags::new();
    let mut a = EventQueue::new();
    let mut b = EventQueue::new();
    a.put(&mut flags, 7);
    b.put(&mut flags, 7);
    assert!(b.is_empty());
    // Removing it through the other queue changes nothing
    b.remove(&mut flags, 7);
    assert!(flags.is_queued(7));
    assert_eq!(a.try_pop(&mut flags), Some(7));
    b.put(&mut flags, 7);
    assert_eq!(b.try_pop(&mut flags), Some(7));
}

#[test]
fn eventq_remove_undoes_put() {
    let mut flags = EventFlags::new();
    let mut q = EventQueue::new();
    q.put(&mut flags, 1);
    q.put(&mut flags, 2);
    q.put(&mut flags, 3);
    q.remove(&mut flags, 2);
    assert!(!flags.is_queued(2));
    assert!(flags.is_queued(1) && flags.is_queued(3));
    q.remove(&mut flags, 42);
    assert_eq!(q.try_pop(&mut flags), Some(1));
    assert_eq!(q.try_pop(&mut flags), Some(3));
}

#[test]
fn eventq_poll_registers_waiter() {
    let mut flags = EventFlags::new();
    let mut q = EventQueue::new();
    assert_eq!(q.poll(&mut flags), None);
    // The waiter registered by the empty poll is woken by the next put
    assert!(q.put(&mut flags, 5));
    assert!(!q.put(&mut flags, 6));
    assert_eq!(q.poll(&mut flags), Some(5));
}

#[test]
fn eventq_get_without_wait() {
    let mut flags = EventFlags::new();
    let mut q = EventQueue::new();
    assert_eq!(q.get_now(&mut flags, 0), Some(None));
    assert_eq!(q.get_now(&mut flags, 10), None);
    q.put(&mut flags, 4);
    assert_eq!(q.get_now(&mut flags, 0), Some(Some(4)));
}

#[test]
fn deinit_queue_refuses_events() {
    let mut flags = EventFlags::new();
    let mut q = EventQueue::new();
    q.put(&mut flags, 1);
    q.deinit();
    assert!(q.is_empty());
    q.put(&mut flags, 2);
    assert!(q.is_empty());
    // The dropped event keeps its queued flag
    assert!(flags.is_queued(1));
}

#[test]
fn timers_fire_in_deadline_order() {
    let mut t = Timers::new();
    t.reset(1, 300);
    t.reset(2, 100);
    t.reset(3, 200);
    assert_eq!(t.poll_next_deadline(), Some(100));
    assert_eq!(t.fire_due(250), vec![2, 3]);
    assert!(t.is_active(1));
    assert!(!t.is_active(2));
    assert_eq!(t.poll_next_deadline(), Some(300));
    assert_eq!(t.fire_due(300), vec![1]);
    assert_eq!(t.poll_next_deadline(), None);
}

#[test]
fn timers_reset_rearms() {
    let mut t = Timers::new();
    t.reset(1, 100);
    t.reset(1, 50);
    assert_eq!(t.poll_next_deadline(), Some(50));
    assert_eq!(t.fire_due(60), vec![1]);
    assert!(t.fire_due(1000).is_empty());
}

#[test]
fn timers_stop_disarms() {
    let mut t = Timers::new();
    t.reset(7, 10);
    t.stop(7);
    assert!(!t.is_active(7));
    assert!(t.fire_due(100).is_empty());
}

#[test]
fn mutex_is_recursive_and_owned() {
    let mut m = RecursiveMutex::new();
    assert!(m.try_lock(1));
    assert!(m.try_lock(1));
    assert!(!m.try_lock(2));
    assert_eq!(m.release(2), NPL_EINVAL);
    assert_eq!(m.release(1), NPL_OK);
    assert!(!m.try_lock(2));
    assert_eq!(m.release(1), NPL_OK);
    assert!(m.try_lock(2));
    assert_eq!(m.release(1), NPL_EINVAL);
}

#[test]
fn semaphore_counts_tokens() {
    let mut s = Semaphore::new(1);
    assert_eq!(s.get_count(), 1);
    assert!(s.try_take());
    assert!(!s.try_take());
    assert_eq!(s.pend_now(0), Some(NPL_TIMEOUT));
    assert_eq!(s.pend_now(10), None);
    s.register_waiter();
    assert!(s.release());
    assert_eq!(s.pend_now(10), Some(NPL_OK));
    assert_eq!(s.get_count(), 0);
    s.release();
    s.deinit();
    assert_eq!(s.get_count(), 0);
}

#[test]
fn critical_section_nests() {
    let mut cs = CriticalNesting::new();
    assert!(cs.enter(1));
    assert!(!cs.enter(1));
    assert!(cs.is_in(1));
    assert!(!cs.is_in(2));
    assert!(!cs.exit(1));
    assert!(cs.exit(1));
    assert!(!cs.is_in(1));
}

#[test]
fn deadlines() {
    assert_eq!(deadline(NPL_TIME_FOREVER, 5), None);
    assert_eq!(deadline(100, 5), Some(105));
    assert_eq!(deadline(0, 5), Some(5));
}

#[test]
fn remaining_ticks_saturate() {
    assert_eq!(remaining_ticks(150, 100), 50);
    assert_eq!(remaining_ticks(100, 150), 0);
    assert_eq!(remaining_ticks(0x1_0000_0010, 0x8), 8);
}

#[test]
fn wait_steps() {
    assert_eq!(wait_step(true, Some(0), 100), WaitStep::Ready);
    assert_eq!(wait_step(false, Some(100), 100), WaitStep::TimedOut);
    assert_eq!(wait_step(false, Some(101), 100), WaitStep::Park);
    assert_eq!(wait_step(false, None, u64::MAX), WaitStep::Park);
    assert_eq!(wait_result(true), NPL_OK);
    assert_eq!(wait_result(false), NPL_TIMEOUT);
}

#[test]
fn timer_steps() {
    assert_eq!(timer_step(None, 5), TimerStep::Idle);
    assert_eq!(timer_step(Some(5), 5), TimerStep::Fire);
    assert_eq!(timer_step(Some(6), 5), TimerStep::SleepUntil(6));
}

#[test]
fn spin_parker_single_context() {
    let p = SpinParker;
    assert_eq!(p.ctx_id(), 1);
    p.park(Some(0));
    p.park(None);
}

#[test]
fn timers_against_the_clock() {
    let mut t = Timers::new();
    t.reset_after(1, 0);
    t.reset_after(2, 3_600_000);
    assert_eq!(t.fire_due_now(), vec![1]);
    assert!(t.is_active(2));
    assert_eq!(deadline_after(NPL_TIME_FOREVER), None);
    assert!(deadline_after(5).is_some());
    let _ = time_get();
}

#[test]
fn ticks_wrap_at_32_bits() {
    assert_eq!(ticks_of_ms(5), 5);
    assert_eq!(ticks_of_ms(0x1_0000_0007), 7);
    assert_eq!(ticks_of_ms(u64::MAX), u32::MAX);
}

#[test]
fn n_takes_need_n_releases() {
    let mut m = RecursiveMutex::new();
    for _ in 0..3 {
        assert!(m.try_lock(1));
    }
    for _ in 0..2 {
        assert_eq!(m.release(1), NPL_OK);
        assert!(!m.try_lock(2));
    }
    assert_eq!(m.release(1), NPL_OK);
    assert_eq!(m.release(1), NPL_EINVAL);
    assert!(m.try_lock(2));
}

#[test]
fn second_fire_fires_nothing() {
    let mut t = Timers::new();
    t.reset(1, 10);
    t.reset(2, 20);
    t.reset(3, 30);
    assert_eq!(t.fire_due(20), vec![1, 2]);
    assert_eq!(t.fire_due(20), Vec::<u64>::new());
    assert_eq!(t.fire_due(29), Vec::<u64>::new());
    assert!(t.is_active(3));
}

#[test]
fn deadlines_saturate() {
    assert_eq!(later_by(5, 100), 105);
    assert_eq!(later_by(5, u64::MAX - 2), u64::MAX);
    assert_eq!(deadline_at(5, 100), Some(105));
    assert_eq!(deadline_at(NPL_TIME_FOREVER, 100), None);
    assert_eq!(deadline_at(10, u64::MAX), Some(u64::MAX));
    assert!(deadline_after(1_000).unwrap() >= 1_000);
}

#[test]
fn drain_takes_every_event_in_order() {
    let mut flags = EventFlags::new();
    let mut q = EventQueue::new();
    q.put(&mut flags, 7);
    q.put(&mut flags, 3);
    q.put(&mut flags, 9);
    assert_eq!(drain_events(&mut q, &mut flags), vec![7, 3, 9]);
    assert!(q.is_empty());
    assert!(!flags.is_queued(3));
    assert_eq!(drain_events(&mut q, &mut flags), Vec::<u64>::new());
}

#[test]
fn fire_due_timers_fires_only_past_deadlines() {
    let mut t = Timers::new();
    t.reset(1, 0);
    t.reset(2, u64::MAX);
    assert_eq!(fire_due_timers(&mut t), vec![1]);
    assert!(t.is_active(2));
    assert_eq!(fire_due_timers(&mut t), Vec::<u64>::new());
}
