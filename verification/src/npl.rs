//! The state machines of the NimBLE Porting Layer (NPL): event queues,
//! callout timers, recursive owner-tracked mutexes, counting semaphores and
//! the nesting of critical sections.
//!
//! The C host sees these objects as opaque in-place storage; here each is
//! modelled by the values its operations read and write. Events and
//! callouts are named by integer ids (their addresses), deadlines are
//! millisecond tick counts, and a "waiter" is a registered waker that the
//! next change must wake.
use vstd::prelude::*;

verus! {

/// `BLE_NPL_OK`.
pub const NPL_OK: u32 = 0;

/// `BLE_NPL_INVALID_PARAM`.
pub const NPL_EINVAL: u32 = 3;

/// `BLE_NPL_TIMEOUT`.
pub const NPL_TIMEOUT: u32 = 6;

/// `BLE_NPL_TIME_FOREVER`: no deadline.
pub const NPL_TIME_FOREVER: u32 = 0xffff_ffff;

// ---------------------------------------------------------------------
// Time and waiting
// ---------------------------------------------------------------------

/// The absolute deadline of a wait of `ticks` milliseconds started at `now`:
/// none for `BLE_NPL_TIME_FOREVER`.
pub open spec fn spec_deadline(ticks: u32, now: u64) -> Option<u64> {
    if ticks == NPL_TIME_FOREVER {
        None
    } else {
        Some((now + ticks) as u64)
    }
}

/// Converts a tick count (milliseconds) into an absolute deadline from `now`.
pub fn deadline(ticks: u32, now: u64) -> (r: Option<u64>)
    requires
        ticks == NPL_TIME_FOREVER || now + ticks <= u64::MAX,
    ensures
        r == spec_deadline(ticks, now),
{
    if ticks == NPL_TIME_FOREVER {
        None
    } else {
        Some(now + ticks as u64)
    }
}

/// `embassy_time::Instant::now().as_millis()`: the milliseconds since boot.
/// Nothing is stated of the value: it is the time.
#[verifier::external_body]
fn now_ms() -> u64 {
    embassy_time::Instant::now().as_millis()
}

/// The host's 32-bit tick count for a clock reading of `ms` milliseconds:
/// the reading truncated to 32 bits (the counter wraps).
pub fn ticks_of_ms(ms: u64) -> (r: u32)
    ensures
        r == ms as u32,
{
    ms as u32
}

/// The current tick count of the host (`ble_npl_time_get`): the
/// milliseconds since boot, truncated to 32 bits by `ticks_of_ms`.
/// Nothing is stated of the value, as it is the time.
pub fn time_get() -> u32 {
    ticks_of_ms(now_ms())
}

/// `ticks` milliseconds after `now`, saturating at the end of the clock's
/// range.
pub open spec fn spec_after(ticks: u32, now: u64) -> u64 {
    if now <= u64::MAX - ticks {
        (now + ticks) as u64
    } else {
        u64::MAX
    }
}

/// The instant `ticks` milliseconds after `now`, saturating at the end of
/// the clock's range.
pub fn later_by(ticks: u32, now: u64) -> (r: u64)
    ensures
        r == spec_after(ticks, now),
{
    if now <= u64::MAX - ticks as u64 {
        now + ticks as u64
    } else {
        u64::MAX
    }
}

/// The deadline of a wait of `ticks` milliseconds started at `now`: none for
/// `BLE_NPL_TIME_FOREVER`, else `ticks` later, saturating.
pub open spec fn spec_deadline_at(ticks: u32, now: u64) -> Option<u64> {
    if ticks == NPL_TIME_FOREVER {
        None
    } else {
        Some(spec_after(ticks, now))
    }
}

/// The deadline of a wait of `ticks` milliseconds started at the clock
/// reading `now`.
pub fn deadline_at(ticks: u32, now: u64) -> (r: Option<u64>)
    ensures
        r == spec_deadline_at(ticks, now),
{
    if ticks == NPL_TIME_FOREVER {
        None
    } else {
        Some(later_by(ticks, now))
    }
}

/// The deadline of a wait of `ticks` milliseconds starting now: none for
/// `BLE_NPL_TIME_FOREVER`, and otherwise `ticks` after the current time (a
/// deadline past the end of the clock's range saturates at its end). The
/// clock reading itself is not stated.
pub fn deadline_after(ticks: u32) -> (r: Option<u64>)
    ensures
        exists|now: u64| r == spec_deadline_at(ticks, now),
{
    let now = now_ms();
    deadline_at(ticks, now)
}

/// The ticks left until a callout's deadline, as the 32-bit tick counter of
/// the host sees it: the deadline truncated to 32 bits, less `now`, or 0 once
/// it has passed.
pub fn remaining_ticks(deadline: u64, now: u32) -> (r: u32)
    ensures
        r == (if (deadline as u32) > now {
            ((deadline as u32) - now) as u32
        } else {
            0u32
        }),
{
    let d: u32 = deadline as u32;
    if d > now {
        d - now
    } else {
        0
    }
}

/// What a blocked wait does next.
#[derive(Clone, Copy, Debug, PartialEq, Eq, Structural)]
pub enum WaitStep {
    /// The condition holds: the wait succeeds.
    Ready,
    /// The deadline has passed: the wait fails.
    TimedOut,
    /// Drive the HCI pump and park until woken or the deadline.
    Park,
}

/// One round of the pump-while-pending wait loop: succeed once the condition
/// holds, time out once the deadline (if any) has been reached, and otherwise
/// keep pumping and parking.
pub fn wait_step(ready: bool, deadline: Option<u64>, now: u64) -> (r: WaitStep)
    ensures
        ready ==> r == WaitStep::Ready,
        !ready && (deadline matches Some(d) && now >= d) ==> r == WaitStep::TimedOut,
        !ready && !(deadline matches Some(d) && now >= d) ==> r == WaitStep::Park,
{
    if ready {
        WaitStep::Ready
    } else {
        match deadline {
            Some(d) => {
                if now >= d {
                    WaitStep::TimedOut
                } else {
                    WaitStep::Park
                }
            },
            None => WaitStep::Park,
        }
    }
}

/// What the timer servicing loop does next.
#[derive(Clone, Copy, Debug, PartialEq, Eq, Structural)]
pub enum TimerStep {
    /// The earliest deadline has passed: fire the due callouts.
    Fire,
    /// Sleep until this deadline (or until the set of deadlines changes).
    SleepUntil(u64),
    /// No callout is armed: sleep until one is.
    Idle,
}

/// One round of the timer servicing loop, given the earliest armed deadline.
pub fn timer_step(next: Option<u64>, now: u64) -> (r: TimerStep)
    ensures
        r == match next {
            None => TimerStep::Idle,
            Some(d) => if now >= d {
                TimerStep::Fire
            } else {
                TimerStep::SleepUntil(d)
            },
        },
{
    match next {
        None => TimerStep::Idle,
        Some(d) => {
            if now >= d {
                TimerStep::Fire
            } else {
                TimerStep::SleepUntil(d)
            }
        },
    }
}

/// The outcome of a blocking wait, as an NPL error code.
pub fn wait_result(acquired: bool) -> (r: u32)
    ensures
        r == (if acquired {
            NPL_OK
        } else {
            NPL_TIMEOUT
        }),
{
    if acquired {
        NPL_OK
    } else {
        NPL_TIMEOUT
    }
}

// ---------------------------------------------------------------------
// Event queues
// ---------------------------------------------------------------------

/// No event occurs twice.
pub open spec fn distinct(s: Seq<u64>) -> bool {
    forall|i: int, j: int| 0 <= i < j < s.len() ==> s[i] != s[j]
}

/// `s` without `ev`, wherever it stands.
pub open spec fn spec_remove(s: Seq<u64>, ev: u64) -> Seq<u64> {
    s.filter(|e: u64| e != ev)
}

/// Whether a put of `ev` is accepted: the queue is initialized and the event
/// is not queued anywhere (its queued flag is clear).
pub open spec fn spec_accepts(initialized: bool, flags: Seq<u64>, ev: u64) -> bool {
    initialized && !flags.contains(ev)
}

/// The queued flags of the events: the events queued on some queue.
pub struct EventFlags {
    queued: Vec<u64>,
}

impl EventFlags {
    /// The flagged events.
    pub closed spec fn view(&self) -> Seq<u64> {
        self.queued@
    }

    pub closed spec fn wf(&self) -> bool {
        distinct(self.queued@)
    }

    /// No event is flagged.
    pub fn new() -> (r: Self)
        ensures
            r.wf(),
            r@ == Seq::<u64>::empty(),
    {
        EventFlags { queued: Vec::new() }
    }

    /// Whether `ev` is queued (`ble_npl_event_is_queued`).
    pub fn is_queued(&self, ev: u64) -> (r: bool)
        ensures
            r == self@.contains(ev),
    {
        let mut i: usize = 0;
        while i < self.queued.len()
            invariant
                i <= self@.len(),
                forall|j: int| 0 <= j < i ==> self@[j] != ev,
            decreases self@.len() - i,
        {
            if self.queued[i] == ev {
                assert(self@[i as int] == ev);
                return true;
            }
            i = i + 1;
        }
        false
    }

    fn set(&mut self, ev: u64)
        requires
            old(self).wf(),
            !old(self)@.contains(ev),
        ensures
            final(self).wf(),
            final(self)@ == old(self)@.push(ev),
    {
        self.queued.push(ev);
    }

    fn clear(&mut self, ev: u64)
        requires
            old(self).wf(),
        ensures
            final(self).wf(),
            final(self)@ == spec_remove(old(self)@, ev),
    {
        let mut i: usize = 0;
        while i < self.queued.len()
            invariant
                i <= self@.len(),
                self == old(self),
                self.wf(),
                forall|j: int| 0 <= j < i ==> self@[j] != ev,
            decreases self@.len() - i,
        {
            if self.queued[i] == ev {
                let ghost before = self@;
                self.queued.remove(i);
                proof {
                    lemma_filter_remove_unique(before, i as int, ev);
                }
                return;
            }
            i = i + 1;
        }
        proof {
            lemma_filter_absent(self@, ev);
        }
    }
}

/// An event queue: the queued events, oldest first.
pub struct EventQueue {
    initialized: bool,
    events: Vec<u64>,
    waiter: bool,
}

impl EventQueue {
    /// The queued events, oldest first.
    pub closed spec fn view(&self) -> Seq<u64> {
        self.events@
    }

    /// Whether the queue is initialized (a deinitialized queue accepts no
    /// events).
    pub closed spec fn initialized(&self) -> bool {
        self.initialized
    }

    /// Whether a waker is registered, waiting for the next event.
    pub closed spec fn waiting(&self) -> bool {
        self.waiter
    }

    /// No event is queued twice, a deinitialized queue is empty, and every
    /// queued event is flagged queued.
    pub open spec fn wf(&self, flags: &EventFlags) -> bool {
        &&& flags.wf()
        &&& distinct(self@)
        &&& (!self.initialized() ==> self@.len() == 0)
        &&& forall|i: int| 0 <= i < self@.len() ==> flags@.contains(#[trigger] self@[i])
    }

    /// An initialized, empty queue (`ble_npl_eventq_init`).
    pub fn new() -> (r: Self)
        ensures
            r.initialized(),
            r@ == Seq::<u64>::empty(),
            !r.waiting(),
    {
        EventQueue { initialized: true, events: Vec::new(), waiter: false }
    }

    /// Tears the queue down (`ble_npl_eventq_deinit`): it drops its events
    /// (whose queued flags stay set) and accepts no more. Returns whether a
    /// registered waiter must be woken.
    pub fn deinit(&mut self) -> (woken: bool)
        ensures
            !final(self).initialized(),
            final(self)@ == Seq::<u64>::empty(),
            !final(self).waiting(),
            woken == old(self).waiting(),
    {
        self.initialized = false;
        self.events = Vec::new();
        let woken = self.waiter;
        self.waiter = false;
        woken
    }

    /// Whether no event is queued (`ble_npl_eventq_is_empty`).
    pub fn is_empty(&self) -> (r: bool)
        ensures
            r == (self@.len() == 0),
    {
        self.events.len() == 0
    }

    /// Queues `ev` at the back and flags it queued (`ble_npl_eventq_put`); an
    /// event that is queued (on any queue), or a deinitialized queue, is left
    /// as it is. Returns whether a registered waiter must be woken (it is
    /// woken, and forgotten, by every accepted event).
    pub fn put(&mut self, flags: &mut EventFlags, ev: u64) -> (woken: bool)
        requires
            old(self).wf(old(flags)),
        ensures
            final(self).wf(final(flags)),
            final(self).initialized() == old(self).initialized(),
            spec_accepts(old(self).initialized(), old(flags)@, ev) ==> final(self)@ == old(self)@.push(
                ev,
            ) && final(flags)@ == old(flags)@.push(ev),
            !spec_accepts(old(self).initialized(), old(flags)@, ev) ==> final(self)@ == old(self)@
                && final(flags)@ == old(flags)@,
            woken == (spec_accepts(old(self).initialized(), old(flags)@, ev) && old(self).waiting()),
            final(self).waiting() == (old(self).waiting() && !woken),
    {
        if flags.is_queued(ev) || !self.initialized {
            return false;
        }
        self.events.push(ev);
        flags.set(ev);
        let woken = self.waiter;
        self.waiter = false;
        proof {
            assert forall|i: int| 0 <= i < self@.len() implies flags@.contains(#[trigger] self@[i]) by {
                if i < old(self)@.len() {
                    assert(old(flags)@.contains(old(self)@[i]));
                    let k = choose|k: int| 0 <= k < old(flags)@.len() && old(flags)@[k] == old(self)@[i];
                    assert(flags@[k] == old(self)@[i]);
                } else {
                    assert(flags@[flags@.len() - 1] == ev);
                }
            }
            assert forall|i: int, j: int| 0 <= i < j < self@.len() implies self@[i] != self@[j] by {
                if j == self@.len() - 1 {
                    assert(old(flags)@.contains(self@[i]));
                }
            }
        }
        woken
    }

    /// Takes the oldest event, if any, clearing its queued flag
    /// (`ble_npl_eventq_get` without a wait).
    pub fn try_pop(&mut self, flags: &mut EventFlags) -> (r: Option<u64>)
        requires
            old(self).wf(old(flags)),
        ensures
            final(self).wf(final(flags)),
            final(self).initialized() == old(self).initialized(),
            final(self).waiting() == old(self).waiting(),
            old(self)@.len() == 0 ==> r is None && final(self)@ == old(self)@ && final(flags)@
                == old(flags)@,
            old(self)@.len() > 0 ==> r == Some(old(self)@[0]) && final(self)@ == old(
                self,
            )@.drop_first() && final(flags)@ == spec_remove(old(flags)@, old(self)@[0]),
    {
        if self.events.len() == 0 {
            None
        } else {
            let ev = self.events.remove(0);
            flags.clear(ev);
            proof {
                assert(self@ =~= old(self)@.drop_first());
                lemma_filter_keeps(old(flags)@, ev);
                assert forall|i: int| 0 <= i < self@.len() implies flags@.contains(
                    #[trigger] self@[i],
                ) by {
                    assert(self@[i] == old(self)@[i + 1]);
                    assert(old(flags)@.contains(old(self)@[i + 1]));
                    assert(old(self)@[i + 1] != ev);
                }
            }
            Some(ev)
        }
    }

    /// Polls for the oldest event, registering a waiter when there is none
    /// (the event loop of the driver).
    pub fn poll(&mut self, flags: &mut EventFlags) -> (r: Option<u64>)
        requires
            old(self).wf(old(flags)),
        ensures
            final(self).wf(final(flags)),
            final(self).initialized() == old(self).initialized(),
            old(self)@.len() == 0 ==> r is None && final(self)@ == old(self)@ && final(flags)@
                == old(flags)@ && final(self).waiting(),
            old(self)@.len() > 0 ==> r == Some(old(self)@[0]) && final(self)@ == old(
                self,
            )@.drop_first() && final(flags)@ == spec_remove(old(flags)@, old(self)@[0])
                && final(self).waiting() == old(self).waiting(),
    {
        if self.events.len() == 0 {
            self.waiter = true;
            None
        } else {
            self.try_pop(flags)
        }
    }

    /// Waits for an event (`ble_npl_eventq_get`), immediate part: the oldest
    /// event if there is one, `Some(None)` when there is none and no wait is
    /// allowed (`tmo` 0), and `None` when the caller must wait.
    pub fn get_now(&mut self, flags: &mut EventFlags, tmo: u32) -> (r: Option<Option<u64>>)
        requires
            old(self).wf(old(flags)),
        ensures
            final(self).wf(final(flags)),
            final(self).initialized() == old(self).initialized(),
            final(self).waiting() == old(self).waiting(),
            old(self)@.len() > 0 ==> r == Some(Some(old(self)@[0])) && final(self)@ == old(
                self,
            )@.drop_first() && final(flags)@ == spec_remove(old(flags)@, old(self)@[0]),
            old(self)@.len() == 0 ==> r == (if tmo == 0 {
                Some(None::<u64>)
            } else {
                None
            }) && final(self)@ == old(self)@ && final(flags)@ == old(flags)@,
    {
        match self.try_pop(flags) {
            Some(ev) => Some(Some(ev)),
            None => {
                if tmo == 0 {
                    Some(None)
                } else {
                    None
                }
            },
        }
    }

    /// Unlinks `ev` (`ble_npl_eventq_remove`): an event that is not flagged
    /// queued, or is queued on another queue, is left as it is.
    pub fn remove(&mut self, flags: &mut EventFlags, ev: u64)
        requires
            old(self).wf(old(flags)),
        ensures
            final(self).wf(final(flags)),
            final(self).initialized() == old(self).initialized(),
            final(self).waiting() == old(self).waiting(),
            old(self)@.contains(ev) ==> final(self)@ == spec_remove(old(self)@, ev) && final(flags)@
                == spec_remove(old(flags)@, ev),
            !old(self)@.contains(ev) ==> final(self)@ == old(self)@ && final(flags)@ == old(flags)@,
    {
        if !flags.is_queued(ev) {
            proof {
                if old(self)@.contains(ev) {
                    let k = choose|k: int| 0 <= k < old(self)@.len() && old(self)@[k] == ev;
                    assert(flags@.contains(old(self)@[k]));
                }
            }
            return;
        }
        let mut i: usize = 0;
        while i < self.events.len()
            invariant
                i <= self@.len(),
                self == old(self),
                flags == old(flags),
                self.wf(flags),
                forall|j: int| 0 <= j < i ==> self@[j] != ev,
            decreases self@.len() - i,
        {
            if self.events[i] == ev {
                let ghost before = self@;
                self.events.remove(i);
                flags.clear(ev);
                proof {
                    lemma_filter_remove_unique(before, i as int, ev);
                    lemma_filter_keeps(old(flags)@, ev);
                    assert(old(self)@.contains(ev));
                    assert forall|k: int| 0 <= k < self@.len() implies flags@.contains(
                        #[trigger] self@[k],
                    ) by {
                        let x = self@[k];
                        if k < i {
                            assert(x == before[k]);
                        } else {
                            assert(x == before[k + 1]);
                        }
                        assert(x != ev);
                        assert(old(flags)@.contains(x));
                    }
                }
                return;
            }
            i = i + 1;
        }
        proof {
            assert(!old(self)@.contains(ev));
        }
    }
}

proof fn lemma_filter_absent(s: Seq<u64>, ev: u64)
    requires
        forall|j: int| 0 <= j < s.len() ==> s[j] != ev,
    ensures
        spec_remove(s, ev) == s,
    decreases s.len(),
{
    reveal_with_fuel(Seq::filter, 1);
    if s.len() > 0 {
        lemma_filter_absent(s.drop_last(), ev);
        assert(s.drop_last().push(s.last()) =~= s);
    } else {
        assert(spec_remove(s, ev) =~= s);
    }
}

/// Removing `ev` keeps every other element.
proof fn lemma_filter_keeps(s: Seq<u64>, ev: u64)
    ensures
        forall|x: u64| x != ev && s.contains(x) ==> #[trigger] spec_remove(s, ev).contains(x),
        !spec_remove(s, ev).contains(ev),
{
    let pred = |e: u64| e != ev;
    assert forall|x: u64| x != ev && s.contains(x) implies #[trigger] spec_remove(s, ev).contains(x) by {
        let i = choose|i: int| 0 <= i < s.len() && s[i] == x;
        s.lemma_filter_contains(pred, i);
    }
    if spec_remove(s, ev).contains(ev) {
        let j = choose|j: int| 0 <= j < spec_remove(s, ev).len() && spec_remove(s, ev)[j] == ev;
        s.lemma_filter_pred(pred, j);
    }
}

proof fn lemma_filter_remove_unique(s: Seq<u64>, i: int, ev: u64)
    requires
        0 <= i < s.len(),
        s[i] == ev,
        distinct(s),
    ensures
        spec_remove(s, ev) == s.remove(i),
        distinct(s.remove(i)),
    decreases s.len(),
{
    reveal_with_fuel(Seq::filter, 1);
    if i == s.len() - 1 {
        assert(s.remove(i) =~= s.drop_last());
        lemma_filter_absent(s.drop_last(), ev);
    } else {
        lemma_filter_remove_unique(s.drop_last(), i, ev);
        assert(s.remove(i) =~= s.drop_last().remove(i).push(s.last()));
        assert(s.last() != ev);
    }
}

/// Queueing is first-in first-out: an accepted put adds the event behind
/// everything queued before it, and flags it queued.
pub proof fn law_put_is_fifo(q: Seq<u64>, flags: Seq<u64>, ev: u64)
    requires
        spec_accepts(true, flags, ev),
    ensures
        q.push(ev).subrange(0, q.len() as int) == q,
        q.push(ev).last() == ev,
        flags.push(ev).contains(ev),
{
    assert(q.push(ev).subrange(0, q.len() as int) =~= q);
    assert(flags.push(ev)[flags.len() as int] == ev);
}

/// An event queued anywhere cannot be put again, on any queue: an event is
/// in at most one queue at a time.
pub proof fn law_queued_event_is_refused(initialized: bool, flags: Seq<u64>, ev: u64)
    requires
        flags.contains(ev),
    ensures
        !spec_accepts(initialized, flags, ev),
{
}

/// Removing a freshly put event undoes the put, on the queue and on the
/// flags alike.
pub proof fn law_remove_undoes_put(q: Seq<u64>, flags: Seq<u64>, ev: u64)
    requires
        spec_accepts(true, flags, ev),
        forall|i: int| 0 <= i < q.len() ==> flags.contains(#[trigger] q[i]),
    ensures
        spec_remove(q.push(ev), ev) == q,
        spec_remove(flags.push(ev), ev) == flags,
{
    reveal_with_fuel(Seq::filter, 1);
    assert(q.push(ev).drop_last() =~= q);
    assert(flags.push(ev).drop_last() =~= flags);
    assert forall|j: int| 0 <= j < q.len() implies q[j] != ev by {
        assert(flags.contains(q[j]));
    }
    lemma_filter_absent(q, ev);
    assert forall|j: int| 0 <= j < flags.len() implies flags[j] != ev by {}
    lemma_filter_absent(flags, ev);
}

// ---------------------------------------------------------------------
// Callouts (timers)
// ---------------------------------------------------------------------

/// Deadlines never decrease along the list, and no callout occurs twice.
pub open spec fn timers_wf(s: Seq<(u64, u64)>) -> bool {
    &&& forall|i: int, j: int| 0 <= i < j < s.len() ==> #[trigger] s[i].1 <= #[trigger] s[j].1
    &&& forall|i: int, j: int| 0 <= i < j < s.len() ==> #[trigger] s[i].0 != #[trigger] s[j].0
}

/// Whether the callout `id` is armed.
pub open spec fn spec_active(s: Seq<(u64, u64)>, id: u64) -> bool {
    exists|i: int| 0 <= i < s.len() && #[trigger] s[i].0 == id
}

/// The list without the callout `id`.
pub open spec fn spec_unlink(s: Seq<(u64, u64)>, id: u64) -> Seq<(u64, u64)> {
    s.filter(|p: (u64, u64)| p.0 != id)
}

/// Inserting the callout `id` with `deadline` after every callout due no
/// later (so callouts due at the same time fire in arming order).
pub open spec fn spec_insert_timer(s: Seq<(u64, u64)>, id: u64, deadline: u64) -> Seq<(u64, u64)>
    decreases s.len(),
{
    if s.len() == 0 {
        seq![(id, deadline)]
    } else if s[0].1 <= deadline {
        seq![s[0]] + spec_insert_timer(s.drop_first(), id, deadline)
    } else {
        seq![(id, deadline)] + s
    }
}

/// (Re)arming the callout `id` for `deadline` (`ble_npl_callout_reset`).
pub open spec fn spec_reset(s: Seq<(u64, u64)>, id: u64, deadline: u64) -> Seq<(u64, u64)> {
    spec_insert_timer(spec_unlink(s, id), id, deadline)
}

/// How many of the earliest callouts are due at `now`.
pub open spec fn spec_due_count(s: Seq<(u64, u64)>, now: u64) -> nat
    decreases s.len(),
{
    if s.len() == 0 || s[0].1 > now {
        0
    } else {
        1 + spec_due_count(s.drop_first(), now)
    }
}

/// The set of armed callouts: the callout list, earliest deadline first.
pub struct Timers {
    entries: Vec<(u64, u64)>,
    waiter: bool,
}

proof fn lemma_unlink_absent(s: Seq<(u64, u64)>, id: u64)
    requires
        forall|j: int| 0 <= j < s.len() ==> s[j].0 != id,
    ensures
        spec_unlink(s, id) == s,
    decreases s.len(),
{
    reveal_with_fuel(Seq::filter, 1);
    if s.len() > 0 {
        lemma_unlink_absent(s.drop_last(), id);
        assert(s.drop_last().push(s.last()) =~= s);
    } else {
        assert(spec_unlink(s, id) =~= s);
    }
}

proof fn lemma_unlink_at(s: Seq<(u64, u64)>, i: int, id: u64)
    requires
        0 <= i < s.len(),
        s[i].0 == id,
        timers_wf(s),
    ensures
        spec_unlink(s, id) == s.remove(i),
        timers_wf(s.remove(i)),
    decreases s.len(),
{
    reveal_with_fuel(Seq::filter, 1);
    let r = s.remove(i);
    assert forall|a: int, b: int| 0 <= a < b < r.len() implies #[trigger] r[a].1 <= #[trigger] r[b].1 by {
        let aa = if a < i { a } else { a + 1 };
        let bb = if b < i { b } else { b + 1 };
        assert(r[a] == s[aa]);
        assert(r[b] == s[bb]);
    }
    assert forall|a: int, b: int| 0 <= a < b < r.len() implies #[trigger] r[a].0 != #[trigger] r[b].0 by {
        let aa = if a < i { a } else { a + 1 };
        let bb = if b < i { b } else { b + 1 };
        assert(r[a] == s[aa]);
        assert(r[b] == s[bb]);
    }
    if i == s.len() - 1 {
        assert(s.remove(i) =~= s.drop_last());
        lemma_unlink_absent(s.drop_last(), id);
    } else {
        let t = s.drop_last();
        assert(timers_wf(t));
        lemma_unlink_at(t, i, id);
        assert(s.remove(i) =~= t.remove(i).push(s.last()));
        assert(s.last().0 != id);
    }
}

proof fn lemma_insert_timer_at(s: Seq<(u64, u64)>, id: u64, deadline: u64, p: int)
    requires
        0 <= p <= s.len(),
        forall|j: int| 0 <= j < p ==> #[trigger] s[j].1 <= deadline,
        p < s.len() ==> s[p].1 > deadline,
    ensures
        spec_insert_timer(s, id, deadline) == s.insert(p, (id, deadline)),
    decreases s.len(),
{
    if s.len() == 0 {
        assert(s.insert(p, (id, deadline)) =~= seq![(id, deadline)]);
    } else if p == 0 {
        assert(s.insert(0, (id, deadline)) =~= seq![(id, deadline)] + s);
    } else {
        let t = s.drop_first();
        assert forall|j: int| 0 <= j < p - 1 implies #[trigger] t[j].1 <= deadline by {
            assert(t[j] == s[j + 1]);
        }
        lemma_insert_timer_at(t, id, deadline, p - 1);
        assert(s.insert(p, (id, deadline)) =~= seq![s[0]] + t.insert(p - 1, (id, deadline)));
    }
}

proof fn lemma_due_prefix(s: Seq<(u64, u64)>, now: u64, k: int)
    requires
        timers_wf(s),
        0 <= k <= s.len(),
        forall|j: int| 0 <= j < k ==> #[trigger] s[j].1 <= now,
        k < s.len() ==> s[k].1 > now,
    ensures
        spec_due_count(s, now) == k,
    decreases k,
{
    if k > 0 {
        let t = s.drop_first();
        assert forall|j: int| 0 <= j < k - 1 implies #[trigger] t[j].1 <= now by {
            assert(t[j] == s[j + 1]);
        }
        assert(timers_wf(t)) by {
            assert forall|a: int, b: int| 0 <= a < b < t.len() implies #[trigger] t[a].1 <= #[trigger] t[b].1 by {
                assert(t[a] == s[a + 1] && t[b] == s[b + 1]);
            }
            assert forall|a: int, b: int| 0 <= a < b < t.len() implies #[trigger] t[a].0 != #[trigger] t[b].0 by {
                assert(t[a] == s[a + 1] && t[b] == s[b + 1]);
            }
        }
        lemma_due_prefix(t, now, k - 1);
    } else if s.len() > 0 {
        assert(s[0].1 > now);
    }
}

impl Timers {
    /// The armed callouts as (id, deadline), earliest first.
    pub closed spec fn view(&self) -> Seq<(u64, u64)> {
        self.entries@
    }

    /// Whether a waker is registered for changes of the earliest deadline.
    pub closed spec fn waiting(&self) -> bool {
        self.waiter
    }

    /// The callout list is ordered by deadline and arms each callout at
    /// most once.
    pub open spec fn wf(&self) -> bool {
        timers_wf(self@)
    }

    /// No callout armed.
    pub fn new() -> (r: Self)
        ensures
            r.wf(),
            r@ == Seq::<(u64, u64)>::empty(),
            !r.waiting(),
    {
        Timers { entries: Vec::new(), waiter: false }
    }

    /// Whether the callout `id` is armed (`ble_npl_callout_is_active`).
    pub fn is_active(&self, id: u64) -> (r: bool)
        ensures
            r == spec_active(self@, id),
    {
        let mut i: usize = 0;
        while i < self.entries.len()
            invariant
                i <= self@.len(),
                forall|j: int| 0 <= j < i ==> self@[j].0 != id,
            decreases self@.len() - i,
        {
            if self.entries[i].0 == id {
                assert(self@[i as int].0 == id);
                return true;
            }
            i = i + 1;
        }
        false
    }

    fn unlink(&mut self, id: u64)
        requires
            old(self).wf(),
        ensures
            final(self).wf(),
            final(self).waiting() == old(self).waiting(),
            final(self)@ == spec_unlink(old(self)@, id),
    {
        let mut i: usize = 0;
        while i < self.entries.len()
            invariant
                i <= self@.len(),
                self == old(self),
                self.wf(),
                forall|j: int| 0 <= j < i ==> self@[j].0 != id,
            decreases self@.len() - i,
        {
            if self.entries[i].0 == id {
                proof {
                    lemma_unlink_at(self@, i as int, id);
                }
                self.entries.remove(i);
                return;
            }
            i = i + 1;
        }
        proof {
            lemma_unlink_absent(self@, id);
        }
    }

    /// Arms (or re-arms) the callout `id` to fire at `deadline`
    /// (`ble_npl_callout_reset`). Returns whether the registered waiter
    /// must be woken (every reset wakes, and forgets, it).
    pub fn reset(&mut self, id: u64, deadline: u64) -> (woken: bool)
        requires
            old(self).wf(),
        ensures
            final(self).wf(),
            final(self)@ == spec_reset(old(self)@, id, deadline),
            woken == old(self).waiting(),
            !final(self).waiting(),
    {
        self.unlink(id);
        let ghost u = self@;
        let mut p: usize = 0;
        while p < self.entries.len() && self.entries[p].1 <= deadline
            invariant
                p <= self@.len(),
                self@ == u,
                forall|j: int| 0 <= j < p ==> #[trigger] self@[j].1 <= deadline,
            decreases self@.len() - p,
        {
            p = p + 1;
        }
        proof {
            lemma_insert_timer_at(u, id, deadline, p as int);
            assert(forall|j: int| 0 <= j < u.len() ==> #[trigger] u[j].0 != id) by {
                reveal_with_fuel(Seq::filter, 1);
                assert forall|j: int| 0 <= j < u.len() implies #[trigger] u[j].0 != id by {
                    assert(u.contains(u[j]));
                }
            }
        }
        self.entries.insert(p, (id, deadline));
        proof {
            let r = self@;
            assert forall|a: int, b: int| 0 <= a < b < r.len() implies #[trigger] r[a].1 <= #[trigger] r[b].1 by {
                if b < p {
                } else if b == p {
                } else if a == p {
                    assert(r[b] == u[b - 1]);
                    assert(u[p as int].1 > deadline);
                } else if a < p {
                    assert(r[b] == u[b - 1]);
                } else {
                    assert(r[a] == u[a - 1] && r[b] == u[b - 1]);
                }
            }
            assert forall|a: int, b: int| 0 <= a < b < r.len() implies #[trigger] r[a].0 != #[trigger] r[b].0 by {
                if b < p {
                } else if b == p {
                    assert(r[a] == u[a]);
                } else if a == p {
                    assert(r[b] == u[b - 1]);
                } else if a < p {
                    assert(r[b] == u[b - 1]);
                } else {
                    assert(r[a] == u[a - 1] && r[b] == u[b - 1]);
                }
            }
        }
        let woken = self.waiter;
        self.waiter = false;
        woken
    }

    /// Disarms the callout `id` (`ble_npl_callout_stop`).
    pub fn stop(&mut self, id: u64)
        requires
            old(self).wf(),
        ensures
            final(self).wf(),
            final(self)@ == spec_unlink(old(self)@, id),
            final(self).waiting() == old(self).waiting(),
    {
        self.unlink(id);
    }

    /// Arms callout `id` to fire `ticks` milliseconds from now, saturating at
    /// the end of the clock's range (`ble_npl_callout_reset`). The clock
    /// reading itself is not stated.
    pub fn reset_after(&mut self, id: u64, ticks: u32) -> (woken: bool)
        requires
            old(self).wf(),
        ensures
            final(self).wf(),
            exists|now: u64| final(self)@ == spec_reset(old(self)@, id, spec_after(ticks, now)),
            woken == old(self).waiting(),
            !final(self).waiting(),
    {
        let now = now_ms();
        let d = later_by(ticks, now);
        self.reset(id, d)
    }

    /// Disarms and returns the callouts due now, earliest first
    /// (`timers_fire_due`).
    pub fn fire_due_now(&mut self) -> (fired: Vec<u64>)
        requires
            old(self).wf(),
        ensures
            final(self).wf(),
            final(self).waiting() == old(self).waiting(),
            exists|now: u64|
                {
                    &&& fired@ == old(self)@.take(spec_due_count(old(self)@, now) as int).map_values(
                        |p: (u64, u64)| p.0,
                    )
                    &&& final(self)@ == old(self)@.skip(spec_due_count(old(self)@, now) as int)
                },
    {
        let now = now_ms();
        self.fire_due(now)
    }

    /// The earliest deadline, registering the waiter for changes
    /// (`timers_poll_next_deadline`).
    pub fn poll_next_deadline(&mut self) -> (r: Option<u64>)
        requires
            old(self).wf(),
        ensures
            final(self).wf(),
            final(self)@ == old(self)@,
            final(self).waiting(),
            r == (if old(self)@.len() == 0 {
                None
            } else {
                Some(old(self)@[0].1)
            }),
    {
        self.waiter = true;
        if self.entries.len() == 0 {
            None
        } else {
            Some(self.entries[0].1)
        }
    }

    /// Disarms every callout due at `now` and returns them, earliest first
    /// (`timers_fire_due`): the caller then runs or enqueues their events.
    pub fn fire_due(&mut self, now: u64) -> (fired: Vec<u64>)
        requires
            old(self).wf(),
        ensures
            final(self).wf(),
            final(self).waiting() == old(self).waiting(),
            fired@ == old(self)@.take(spec_due_count(old(self)@, now) as int).map_values(
                |p: (u64, u64)| p.0,
            ),
            final(self)@ == old(self)@.skip(spec_due_count(old(self)@, now) as int),
    {
        let mut k: usize = 0;
        while k < self.entries.len() && self.entries[k].1 <= now
            invariant
                k <= self@.len(),
                self == old(self),
                forall|j: int| 0 <= j < k ==> #[trigger] self@[j].1 <= now,
            decreases self@.len() - k,
        {
            k = k + 1;
        }
        proof {
            lemma_due_prefix(self@, now, k as int);
        }
        let mut fired: Vec<u64> = Vec::new();
        let mut i: usize = 0;
        while i < k
            invariant
                i <= k <= self@.len(),
                self == old(self),
                fired@ == self@.take(i as int).map_values(|p: (u64, u64)| p.0),
            decreases k - i,
        {
            fired.push(self.entries[i].0);
            assert(self@.take(i + 1) =~= self@.take(i as int).push(self@[i as int]));
            assert(fired@ =~= self@.take(i + 1).map_values(|p: (u64, u64)| p.0));
            i = i + 1;
        }
        let rest = self.entries.split_off(k);
        self.entries = rest;
        proof {
            let s = old(self)@;
            let r = self@;
            assert(r =~= s.skip(k as int));
            assert forall|a: int, b: int| 0 <= a < b < r.len() implies #[trigger] r[a].1 <= #[trigger] r[b].1 by {
                assert(r[a] == s[a + k] && r[b] == s[b + k]);
            }
            assert forall|a: int, b: int| 0 <= a < b < r.len() implies #[trigger] r[a].0 != #[trigger] r[b].0 by {
                assert(r[a] == s[a + k] && r[b] == s[b + k]);
            }
        }
        fired
    }
}


proof fn lemma_insert_timer_has(s: Seq<(u64, u64)>, id: u64, deadline: u64)
    ensures
        exists|i: int|
            0 <= i < spec_insert_timer(s, id, deadline).len() && #[trigger] spec_insert_timer(
                s,
                id,
                deadline,
            )[i] == (id, deadline),
    decreases s.len(),
{
    let r = spec_insert_timer(s, id, deadline);
    if s.len() > 0 && s[0].1 <= deadline {
        lemma_insert_timer_has(s.drop_first(), id, deadline);
        let t = spec_insert_timer(s.drop_first(), id, deadline);
        let k = choose|k: int| 0 <= k < t.len() && #[trigger] t[k] == (id, deadline);
        assert(r[k + 1] == t[k]);
    } else {
        assert(r[0] == (id, deadline));
    }
}

/// After a reset the callout is armed for the new deadline.
pub proof fn law_reset_arms(s: Seq<(u64, u64)>, id: u64, deadline: u64)
    ensures
        exists|i: int|
            0 <= i < spec_reset(s, id, deadline).len() && #[trigger] spec_reset(
                s,
                id,
                deadline,
            )[i] == (id, deadline),
        spec_active(spec_reset(s, id, deadline), id),
{
    lemma_insert_timer_has(spec_unlink(s, id), id, deadline);
    let r = spec_reset(s, id, deadline);
    let i = choose|i: int| 0 <= i < r.len() && #[trigger] r[i] == (id, deadline);
    assert(r[i].0 == id);
}

/// Stopping a callout right after resetting it leaves the timers as
/// stopping it alone would.
pub proof fn law_stop_undoes_reset(s: Seq<(u64, u64)>, id: u64, deadline: u64)
    ensures
        spec_unlink(spec_reset(s, id, deadline), id) == spec_unlink(s, id),
{
    lemma_unlink_insert(spec_unlink(s, id), id, deadline);
    lemma_unlink_twice(s, id);
}

proof fn lemma_unlink_twice(s: Seq<(u64, u64)>, id: u64)
    ensures
        spec_unlink(spec_unlink(s, id), id) == spec_unlink(s, id),
{
    reveal_with_fuel(Seq::filter, 1);
    let u = spec_unlink(s, id);
    assert forall|j: int| 0 <= j < u.len() implies u[j].0 != id by {
        assert(u.contains(u[j]));
    }
    lemma_unlink_absent(u, id);
}

proof fn lemma_unlink_insert(s: Seq<(u64, u64)>, id: u64, deadline: u64)
    ensures
        spec_unlink(spec_insert_timer(s, id, deadline), id) == spec_unlink(s, id),
    decreases s.len(),
{
    reveal_with_fuel(Seq::filter, 1);
    let r = spec_insert_timer(s, id, deadline);
    if s.len() == 0 {
        assert(r.drop_last() =~= Seq::<(u64, u64)>::empty());
        assert(spec_unlink(s, id) =~= Seq::<(u64, u64)>::empty());
        assert(spec_unlink(r.drop_last(), id) =~= Seq::<(u64, u64)>::empty());
    } else if s[0].1 <= deadline {
        lemma_unlink_insert(s.drop_first(), id, deadline);
        lemma_filter_prepend(s[0], spec_insert_timer(s.drop_first(), id, deadline), id);
        lemma_filter_prepend(s[0], s.drop_first(), id);
        assert(seq![s[0]] + s.drop_first() =~= s);
    } else {
        lemma_filter_prepend((id, deadline), s, id);
    }
}

proof fn lemma_filter_prepend(x: (u64, u64), s: Seq<(u64, u64)>, id: u64)
    ensures
        spec_unlink(seq![x] + s, id) == if x.0 == id {
            spec_unlink(s, id)
        } else {
            seq![x] + spec_unlink(s, id)
        },
    decreases s.len(),
{
    reveal_with_fuel(Seq::filter, 1);
    if s.len() == 0 {
        assert((seq![x] + s).drop_last() =~= Seq::<(u64, u64)>::empty());
        assert(spec_unlink(s, id) =~= Seq::<(u64, u64)>::empty());
        assert(spec_unlink(Seq::<(u64, u64)>::empty(), id) =~= Seq::<(u64, u64)>::empty());
        if x.0 != id {
            assert(seq![x] + spec_unlink(s, id) =~= seq![x]);
            assert(Seq::<(u64, u64)>::empty().push(x) =~= seq![x]);
        }
    } else {
        lemma_filter_prepend(x, s.drop_last(), id);
        assert((seq![x] + s).drop_last() =~= seq![x] + s.drop_last());
        assert((seq![x] + s).last() == s.last());
        if x.0 == id {
        } else {
            if s.last().0 != id {
                assert(seq![x] + spec_unlink(s.drop_last(), id).push(s.last())
                    =~= (seq![x] + spec_unlink(s.drop_last(), id)).push(s.last()));
            }
        }
    }
}

/// Flags cleared for each of `evs`, in order.
pub open spec fn spec_remove_all(flags: Seq<u64>, evs: Seq<u64>) -> Seq<u64>
    decreases evs.len(),
{
    if evs.len() == 0 {
        flags
    } else {
        spec_remove(spec_remove_all(flags, evs.drop_last()), evs.last())
    }
}

/// Takes every event off the queue, oldest first, for the caller to run
/// (the test harness's `drain_events`): the queue ends empty and each taken
/// event is no longer flagged queued.
pub fn drain_events(q: &mut EventQueue, flags: &mut EventFlags) -> (taken: Vec<u64>)
    requires
        old(q).wf(old(flags)),
    ensures
        final(q).wf(final(flags)),
        final(q).initialized() == old(q).initialized(),
        final(q).waiting() == old(q).waiting(),
        taken@ == old(q)@,
        final(q)@.len() == 0,
        final(flags)@ == spec_remove_all(old(flags)@, old(q)@),
{
    let mut taken: Vec<u64> = Vec::new();
    loop
        invariant
            q.wf(flags),
            q.initialized() == old(q).initialized(),
            q.waiting() == old(q).waiting(),
            taken@ + q@ == old(q)@,
            flags@ == spec_remove_all(old(flags)@, taken@),
        ensures
            q.wf(flags),
            q.initialized() == old(q).initialized(),
            q.waiting() == old(q).waiting(),
            taken@ == old(q)@,
            q@.len() == 0,
            flags@ == spec_remove_all(old(flags)@, taken@),
        decreases q@.len(),
    {
        let ghost before = q@;
        let ghost t0 = taken@;
        match q.try_pop(flags) {
            None => {
                assert(taken@ + q@ =~= taken@);
                break;
            },
            Some(ev) => {
                taken.push(ev);
                assert(taken@.drop_last() =~= t0);
                assert(taken@ + q@ =~= t0 + before) by {
                    assert(q@ =~= before.drop_first());
                    assert(before =~= seq![before[0]] + before.drop_first());
                }
            },
        }
    }
    taken
}

/// Fires every callout due now (the test harness's `fire_due_timers`, the
/// timer service's job when nothing polls it): disarms them and returns
/// them, earliest first, for the caller to run or enqueue their events.
pub fn fire_due_timers(timers: &mut Timers) -> (fired: Vec<u64>)
    requires
        old(timers).wf(),
    ensures
        final(timers).wf(),
        final(timers).waiting() == old(timers).waiting(),
        exists|now: u64|
            {
                &&& fired@ == old(timers)@.take(spec_due_count(old(timers)@, now) as int).map_values(
                    |p: (u64, u64)| p.0,
                )
                &&& final(timers)@ == old(timers)@.skip(spec_due_count(old(timers)@, now) as int)
            },
{
    timers.fire_due_now()
}

/// Firing is idempotent: after firing the callouts due at `now`, nothing
/// left is due then, and a later firing at `later` fires nothing as long as
/// no deadline falls after `now` and no later than `later` (no reset in
/// between).
pub proof fn law_fire_due_leaves_nothing_due(s: Seq<(u64, u64)>, now: u64, later: u64)
    requires
        timers_wf(s),
        now <= later,
        forall|j: int| 0 <= j < s.len() ==> !(now < #[trigger] s[j].1 && s[j].1 <= later),
    ensures
        forall|j: int|
            0 <= j < s.skip(spec_due_count(s, now) as int).len() ==> #[trigger] s.skip(
                spec_due_count(s, now) as int,
            )[j].1 > now,
        spec_due_count(s.skip(spec_due_count(s, now) as int), now) == 0,
        spec_due_count(s.skip(spec_due_count(s, now) as int), later) == 0,
{
    law_fire_due_splits(s, now);
    let k = spec_due_count(s, now) as int;
    let r = s.skip(k);
    assert forall|j: int| 0 <= j < r.len() implies #[trigger] r[j].1 > now by {
        assert(r[j] == s[j + k]);
    }
    if r.len() > 0 {
        assert(r[0] == s[k]);
        assert(s[k].1 > later);
    }
}

/// Firing due callouts splits the list exactly at `now`: every fired
/// callout was due, and every one left is not.
pub proof fn law_fire_due_splits(s: Seq<(u64, u64)>, now: u64)
    requires
        timers_wf(s),
    ensures
        spec_due_count(s, now) <= s.len(),
        forall|j: int| 0 <= j < spec_due_count(s, now) ==> #[trigger] s[j].1 <= now,
        forall|j: int| spec_due_count(s, now) <= j < s.len() ==> #[trigger] s[j].1 > now,
    decreases s.len(),
{
    if s.len() > 0 && s[0].1 <= now {
        let t = s.drop_first();
        assert(timers_wf(t)) by {
            assert forall|a: int, b: int| 0 <= a < b < t.len() implies #[trigger] t[a].1 <= #[trigger] t[b].1 by {
                assert(t[a] == s[a + 1] && t[b] == s[b + 1]);
            }
            assert forall|a: int, b: int| 0 <= a < b < t.len() implies #[trigger] t[a].0 != #[trigger] t[b].0 by {
                assert(t[a] == s[a + 1] && t[b] == s[b + 1]);
            }
        }
        law_fire_due_splits(t, now);
        assert forall|j: int| 0 <= j < spec_due_count(s, now) implies #[trigger] s[j].1 <= now by {
            if j > 0 {
                assert(s[j] == t[j - 1]);
            }
        }
        assert forall|j: int| spec_due_count(s, now) <= j < s.len() implies #[trigger] s[j].1 > now by {
            assert(s[j] == t[j - 1]);
        }
    } else if s.len() > 0 {
        assert forall|j: int| 0 <= j < s.len() implies #[trigger] s[j].1 > now by {
            if j > 0 {
                assert(s[0].1 <= s[j].1);
            }
        }
    }
}

// ---------------------------------------------------------------------
// Mutexes (recursive, owner-tracked)
// ---------------------------------------------------------------------

/// A recursive mutex as its owner (0 when free) and hold count.
pub type MutexState = (usize, u32);

/// A mutex state is consistent: free exactly when nothing is held.
pub open spec fn mutex_wf(m: MutexState) -> bool {
    (m.0 == 0) == (m.1 == 0)
}

/// Taking the mutex for `me`: a free mutex becomes `me`'s with one hold, a
/// mutex `me` holds gains a hold, and a mutex held by another context cannot
/// be taken.
pub open spec fn spec_lock(m: MutexState, me: usize) -> Option<MutexState> {
    if m.0 == 0 {
        Some((me, 1u32))
    } else if m.0 == me {
        Some((me, (m.1 + 1) as u32))
    } else {
        None
    }
}

/// Releasing one hold of `me`: refused unless `me` holds the mutex; the last
/// hold frees it.
pub open spec fn spec_unlock(m: MutexState, me: usize) -> Option<MutexState> {
    if m.0 != me || m.1 == 0 {
        None
    } else if m.1 == 1 {
        Some((0usize, 0u32))
    } else {
        Some((me, (m.1 - 1) as u32))
    }
}

/// A recursive mutex, owned by an execution context.
pub struct RecursiveMutex {
    owner: usize,
    count: u32,
}

impl RecursiveMutex {
    /// The owner and hold count.
    pub closed spec fn view(&self) -> MutexState {
        (self.owner, self.count)
    }

    /// A free mutex (`ble_npl_mutex_init`, `ble_npl_mutex_deinit`).
    pub fn new() -> (r: Self)
        ensures
            r.view() == (0usize, 0u32),
    {
        RecursiveMutex { owner: 0, count: 0 }
    }

    /// Takes the mutex for the context `me`, if it is free or already
    /// `me`'s: the first take of `ble_npl_mutex_pend`.
    pub fn try_lock(&mut self, me: usize) -> (r: bool)
        requires
            me != 0,
            old(self).view().0 == me ==> old(self).view().1 < u32::MAX,
        ensures
            r == spec_lock(old(self).view(), me) is Some,
            final(self).view() == match spec_lock(old(self).view(), me) {
                Some(m) => m,
                None => old(self).view(),
            },
    {
        if self.owner == 0 {
            self.owner = me;
            self.count = 1;
            true
        } else if self.owner == me {
            self.count = self.count + 1;
            true
        } else {
            false
        }
    }

    /// Releases one hold of `me` (`ble_npl_mutex_release`): `EINVAL` unless
    /// `me` holds the mutex; the last release frees it.
    pub fn release(&mut self, me: usize) -> (r: u32)
        ensures
            r == (if spec_unlock(old(self).view(), me) is Some {
                NPL_OK
            } else {
                NPL_EINVAL
            }),
            final(self).view() == match spec_unlock(old(self).view(), me) {
                Some(m) => m,
                None => old(self).view(),
            },
    {
        if self.owner != me || self.count == 0 {
            NPL_EINVAL
        } else {
            self.count = self.count - 1;
            if self.count == 0 {
                self.owner = 0;
            }
            NPL_OK
        }
    }
}

/// `n` successive takes by `me`, stopping at the first refused one.
pub open spec fn spec_lock_n(m: MutexState, me: usize, n: nat) -> Option<MutexState>
    decreases n,
{
    if n == 0 {
        Some(m)
    } else {
        match spec_lock_n(m, me, (n - 1) as nat) {
            Some(m2) => spec_lock(m2, me),
            None => None,
        }
    }
}

/// `n` successive releases by `me`, stopping at the first refused one.
pub open spec fn spec_unlock_n(m: MutexState, me: usize, n: nat) -> Option<MutexState>
    decreases n,
{
    if n == 0 {
        Some(m)
    } else {
        match spec_unlock_n(m, me, (n - 1) as nat) {
            Some(m2) => spec_unlock(m2, me),
            None => None,
        }
    }
}

/// Every take and release keeps the mutex consistent (free exactly when
/// nothing is held).
pub proof fn law_mutex_steps_keep_consistent(m: MutexState, me: usize)
    requires
        mutex_wf(m),
        me != 0,
    ensures
        (m.0 == me ==> m.1 < u32::MAX) ==> (spec_lock(m, me) matches Some(m2) ==> mutex_wf(m2)),
        spec_unlock(m, me) matches Some(m2) ==> mutex_wf(m2),
{
}

proof fn lemma_lock_n(me: usize, k: nat)
    requires
        me != 0,
        k <= u32::MAX,
    ensures
        spec_lock_n((0usize, 0u32), me, k) == (if k == 0 {
            Some((0usize, 0u32))
        } else {
            Some((me, k as u32))
        }),
    decreases k,
{
    if k > 0 {
        lemma_lock_n(me, (k - 1) as nat);
    }
}

proof fn lemma_unlock_n(me: usize, n: nat, k: nat)
    requires
        me != 0,
        1 <= n <= u32::MAX,
        k <= n,
    ensures
        spec_unlock_n((me, n as u32), me, k) == (if k == n {
            Some((0usize, 0u32))
        } else {
            Some((me, (n - k) as u32))
        }),
    decreases k,
{
    if k > 0 {
        lemma_unlock_n(me, n, (k - 1) as nat);
    }
}

/// Recursion: `n` takes by one context of a free mutex all succeed and leave
/// it held `n` times; after fewer than `n` releases it is still refused to
/// every other context, and exactly `n` releases free it for them.
pub proof fn law_n_takes_need_n_releases(me: usize, other: usize, n: nat)
    requires
        me != 0,
        other != me,
        1 <= n <= u32::MAX,
    ensures
        spec_lock_n((0usize, 0u32), me, n) == Some((me, n as u32)),
        forall|k: nat|
            k < n ==> (#[trigger] spec_unlock_n((me, n as u32), me, k) matches Some(m2) && spec_lock(
                m2,
                other,
            ) is None),
        spec_unlock_n((me, n as u32), me, n) == Some((0usize, 0u32)),
        spec_lock((0usize, 0u32), other) is Some,
{
    lemma_lock_n(me, n);
    lemma_unlock_n(me, n, n);
    assert forall|k: nat| k < n implies (#[trigger] spec_unlock_n((me, n as u32), me, k) matches Some(
        m2,
    ) && spec_lock(m2, other) is None) by {
        lemma_unlock_n(me, n, k);
    }
}

/// Releasing what a successful take took gives back the mutex as it was,
/// and both keep the mutex consistent.
pub proof fn law_release_undoes_lock(m: MutexState, me: usize)
    requires
        mutex_wf(m),
        me != 0,
        m.0 == me ==> m.1 < u32::MAX,
        spec_lock(m, me) is Some,
    ensures
        mutex_wf(spec_lock(m, me).unwrap()),
        spec_unlock(spec_lock(m, me).unwrap(), me) == Some(m),
{
}

/// A mutex held by one context is refused to every other, and only its
/// owner can release it.
pub proof fn law_mutex_excludes_others(m: MutexState, me: usize)
    requires
        mutex_wf(m),
        m.0 != 0,
        m.0 != me,
    ensures
        spec_lock(m, me) is None,
        spec_unlock(m, me) is None,
{
}

// ---------------------------------------------------------------------
// Semaphores
// ---------------------------------------------------------------------

/// Adding a token.
pub open spec fn spec_sem_release(count: u16) -> u16 {
    (count + 1) as u16
}

/// Taking a token: none to take from an empty semaphore.
pub open spec fn spec_sem_take(count: u16) -> Option<u16> {
    if count > 0 {
        Some((count - 1) as u16)
    } else {
        None
    }
}

/// A counting semaphore: its tokens, and whether a waiter is registered.
pub struct Semaphore {
    count: u16,
    waiter: bool,
}

impl Semaphore {
    pub closed spec fn count(&self) -> u16 {
        self.count
    }

    pub closed spec fn waiting(&self) -> bool {
        self.waiter
    }

    /// A semaphore holding `tokens` (`ble_npl_sem_init`).
    pub fn new(tokens: u16) -> (r: Self)
        ensures
            r.count() == tokens,
            !r.waiting(),
    {
        Semaphore { count: tokens, waiter: false }
    }

    /// Drops every token and the waiter (`ble_npl_sem_deinit`).
    pub fn deinit(&mut self)
        ensures
            final(self).count() == 0,
            !final(self).waiting(),
    {
        self.count = 0;
        self.waiter = false;
    }

    /// The number of tokens (`ble_npl_sem_get_count`).
    pub fn get_count(&self) -> (r: u16)
        ensures
            r == self.count(),
    {
        self.count
    }

    /// Registers the waiter of a blocked pend.
    pub fn register_waiter(&mut self)
        ensures
            final(self).count() == old(self).count(),
            final(self).waiting(),
    {
        self.waiter = true;
    }

    /// Adds a token (`ble_npl_sem_release`); returns whether the registered
    /// waiter must be woken.
    pub fn release(&mut self) -> (woken: bool)
        requires
            old(self).count() < u16::MAX,
        ensures
            final(self).count() == spec_sem_release(old(self).count()),
            woken == old(self).waiting(),
            !final(self).waiting(),
    {
        self.count = self.count + 1;
        let woken = self.waiter;
        self.waiter = false;
        woken
    }

    /// Takes a token if there is one.
    pub fn try_take(&mut self) -> (r: bool)
        ensures
            r == spec_sem_take(old(self).count()) is Some,
            final(self).count() == match spec_sem_take(old(self).count()) {
                Some(c) => c,
                None => old(self).count(),
            },
            final(self).waiting() == old(self).waiting(),
    {
        if self.count > 0 {
            self.count = self.count - 1;
            true
        } else {
            false
        }
    }

    /// The immediate part of `ble_npl_sem_pend` with timeout `tmo`: `OK`
    /// when a token was taken, `TIMEOUT` when there is none and no wait is
    /// allowed, `None` when the caller must wait.
    pub fn pend_now(&mut self, tmo: u32) -> (r: Option<u32>)
        ensures
            old(self).count() > 0 ==> r == Some(NPL_OK) && final(self).count() == old(self).count()
                - 1,
            old(self).count() == 0 && tmo == 0 ==> r == Some(NPL_TIMEOUT),
            old(self).count() == 0 && tmo != 0 ==> r is None,
            old(self).count() == 0 ==> final(self).count() == 0,
            final(self).waiting() == old(self).waiting(),
    {
        if self.try_take() {
            Some(NPL_OK)
        } else if tmo == 0 {
            Some(NPL_TIMEOUT)
        } else {
            None
        }
    }
}

/// Taking the token a release added gives back the semaphore's count, and
/// a pend on an empty semaphore without a timeout fails at once.
pub proof fn law_take_undoes_release(count: u16)
    requires
        count < u16::MAX,
    ensures
        spec_sem_take(spec_sem_release(count)) == Some(count),
        spec_sem_take(0) is None,
{
}

// ---------------------------------------------------------------------
// Critical sections
// ---------------------------------------------------------------------

/// The nesting of the global critical section: its owner (0 when nobody
/// holds it) and the depth of the owner's nesting.
pub type NestingState = (usize, u32);

/// Entering the section as `me`: the outermost entry takes ownership at
/// depth 1, a nested one deepens it.
pub open spec fn spec_enter(n: NestingState, me: usize) -> NestingState {
    if n.0 == me {
        (me, (n.1 + 1) as u32)
    } else {
        (me, 1u32)
    }
}

/// Leaving one level: the outermost exit gives the section up.
pub open spec fn spec_exit(n: NestingState) -> NestingState {
    if n.1 == 1 {
        (0usize, 0u32)
    } else {
        (n.0, (n.1 - 1) as u32)
    }
}

/// The nesting of the global critical section by its owner.
pub struct CriticalNesting {
    owner: usize,
    depth: u32,
}

impl CriticalNesting {
    /// The owner and depth.
    pub closed spec fn view(&self) -> NestingState {
        (self.owner, self.depth)
    }

    /// Nobody inside.
    pub fn new() -> (r: Self)
        ensures
            r.view() == (0usize, 0u32),
    {
        CriticalNesting { owner: 0, depth: 0 }
    }

    /// Enters the section for `me` (`ble_npl_hw_enter_critical`); returns
    /// whether the underlying critical section must be acquired (the
    /// outermost entry).
    pub fn enter(&mut self, me: usize) -> (acquire: bool)
        requires
            me != 0,
            old(self).view().0 == me ==> old(self).view().1 < u32::MAX,
        ensures
            acquire == (old(self).view().0 != me),
            final(self).view() == spec_enter(old(self).view(), me),
    {
        if self.owner == me {
            self.depth = self.depth + 1;
            false
        } else {
            self.owner = me;
            self.depth = 1;
            true
        }
    }

    /// Leaves one level (`ble_npl_hw_exit_critical`); returns whether the
    /// underlying critical section must be released (the outermost exit).
    pub fn exit(&mut self, me: usize) -> (release: bool)
        requires
            old(self).view().0 == me,
            old(self).view().1 > 0,
        ensures
            release == (old(self).view().1 == 1),
            final(self).view() == spec_exit(old(self).view()),
    {
        self.depth = self.depth - 1;
        if self.depth == 0 {
            self.owner = 0;
            true
        } else {
            false
        }
    }

    /// Whether `me` is inside the section (`ble_npl_hw_is_in_critical`).
    pub fn is_in(&self, me: usize) -> (r: bool)
        ensures
            r == (self.view().0 == me),
    {
        self.owner == me
    }
}

/// Leaving the level just entered gives back the nesting as it was, for the
/// outermost entry (from outside the section) and for a nested one alike.
pub proof fn law_exit_undoes_enter(n: NestingState, me: usize)
    requires
        me != 0,
        (n.0 == 0) == (n.1 == 0),
        n.0 == me ==> n.1 < u32::MAX,
        n.0 == 0 || n.0 == me,
    ensures
        spec_exit(spec_enter(n, me)) == n,
{
}

// ---------------------------------------------------------------------
// Parking
// ---------------------------------------------------------------------

/// How a blocked NPL operation sleeps: the identity of the calling execution
/// context (for the ownership of mutexes and critical sections), and a way to
/// sleep until woken or until a deadline (in milliseconds) passes. A park may
/// return early, even at once: waiters re-check their condition in a loop.
pub trait Parker {
    /// The identity of the calling context: never 0, and unique among the
    /// contexts that use the driver at the same time.
    fn ctx_id(&self) -> (id: usize)
        ensures
            id != 0,
    ;

    /// Sleeps until woken or until `deadline` passes (`None`: no deadline).
    fn park(&self, deadline: Option<u64>);
}

/// `core::hint::spin_loop`: a busy-wait hint to the processor.
#[verifier::external_body]
fn spin_loop_hint() {
    core::hint::spin_loop()
}

/// The universal parker: never sleeps, turning each wait into a busy poll.
/// A single execution context.
pub struct SpinParker;

impl Parker for SpinParker {
    fn ctx_id(&self) -> (id: usize)
        ensures
            id == 1,
    {
        1
    }

    fn park(&self, deadline: Option<u64>) {
        spin_loop_hint();
    }
}

} // verus!
