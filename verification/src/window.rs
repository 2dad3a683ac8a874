//! One client's recent requests, counted over two sliding windows.

use vstd::prelude::*;
use crate::clock::{Timestamp, in_window};

verus! {

/// Requests admitted within the short window.
pub const SHORT_LIMIT: usize = 2;

/// Requests admitted within the long window.
pub const LONG_LIMIT: usize = 4;

/// The short window, one minute, in nanoseconds.
pub const SHORT_WINDOW_NANOS: i128 = 60_000_000_000;

/// The long window, twelve hours, in nanoseconds.
pub const LONG_WINDOW_NANOS: i128 = 43_200_000_000_000;

/// The recorded times that are less than `window` nanoseconds before `now`,
/// in the order in which they were recorded.
pub open spec fn recent(times: Seq<Timestamp>, now: Timestamp, window: int) -> Seq<Timestamp> {
    times.filter(in_window(now, window))
}

/// What a `RateLimitInfo` stands for: the request times that each window
/// holds, in the order in which they were recorded.
pub struct Windows {
    pub short: Seq<Timestamp>,
    pub long: Seq<Timestamp>,
}

impl Windows {
    /// No request recorded.
    pub open spec fn empty() -> Windows {
        Windows { short: Seq::empty(), long: Seq::empty() }
    }

    /// Neither window holds more than its limit.
    pub open spec fn within_limits(self) -> bool {
        self.short.len() <= SHORT_LIMIT && self.long.len() <= LONG_LIMIT
    }

    /// Both windows are empty.
    pub open spec fn is_idle(self) -> bool {
        self.short.len() == 0 && self.long.len() == 0
    }

    /// Each window without the times that have left it at `now`.
    pub open spec fn compacted(self, now: Timestamp) -> Windows {
        Windows {
            short: recent(self.short, now, SHORT_WINDOW_NANOS as int),
            long: recent(self.long, now, LONG_WINDOW_NANOS as int),
        }
    }

    /// Whether a request at `now` is let through: after compaction both
    /// windows are below their limits.
    pub open spec fn admits(self, now: Timestamp) -> bool {
        self.compacted(now).short.len() < SHORT_LIMIT && self.compacted(now).long.len()
            < LONG_LIMIT
    }

    /// The windows after a request at `now`: compacted, and with `now`
    /// recorded in both if the request was let through.
    pub open spec fn after_request(self, now: Timestamp) -> Windows {
        if self.admits(now) {
            Windows {
                short: self.compacted(now).short.push(now),
                long: self.compacted(now).long.push(now),
            }
        } else {
            self.compacted(now)
        }
    }

    /// The requests that each window still has room for at `now`.
    pub open spec fn remaining(self, now: Timestamp) -> (int, int) {
        (
            SHORT_LIMIT - self.compacted(now).short.len(),
            LONG_LIMIT - self.compacted(now).long.len(),
        )
    }
}

/// A filter that lets everything through changes nothing.
proof fn lemma_filter_keeps_all<A>(s: Seq<A>, pred: spec_fn(A) -> bool)
    requires
        forall|i: int| 0 <= i < s.len() ==> pred(#[trigger] s[i]),
    ensures
        s.filter(pred) == s,
    decreases s.len(),
{
    reveal(Seq::filter);
    if s.len() > 0 {
        let front = s.drop_last();
        assert forall|i: int| 0 <= i < front.len() implies pred(#[trigger] front[i]) by {
            assert(front[i] == s[i]);
        }
        lemma_filter_keeps_all(front, pred);
        assert(front.push(s.last()) =~= s);
    }
}

/// A filter that lets nothing through leaves nothing.
proof fn lemma_filter_keeps_none<A>(s: Seq<A>, pred: spec_fn(A) -> bool)
    requires
        forall|i: int| 0 <= i < s.len() ==> !pred(#[trigger] s[i]),
    ensures
        s.filter(pred) == Seq::<A>::empty(),
    decreases s.len(),
{
    reveal(Seq::filter);
    if s.len() > 0 {
        let front = s.drop_last();
        assert forall|i: int| 0 <= i < front.len() implies !pred(#[trigger] front[i]) by {
            assert(front[i] == s[i]);
        }
        lemma_filter_keeps_none(front, pred);
    }
}

/// Filtering by `wide` and then by `narrow` is filtering by `narrow`, where
/// `narrow` lets through only what `wide` does.
proof fn lemma_filter_twice<A>(s: Seq<A>, wide: spec_fn(A) -> bool, narrow: spec_fn(A) -> bool)
    requires
        forall|a: A| #[trigger] narrow(a) ==> wide(a),
    ensures
        s.filter(wide).filter(narrow) == s.filter(narrow),
    decreases s.len(),
{
    reveal(Seq::filter);
    if s.len() > 0 {
        let front = s.drop_last();
        lemma_filter_twice(front, wide, narrow);
        if wide(s.last()) {
            front.filter(wide).lemma_filter_push(s.last(), narrow);
        }
    }
}

/// Every time that `recent` keeps is one of `times` and lies within the
/// window; every one of `times` within the window is kept.
pub proof fn lemma_recent_members(times: Seq<Timestamp>, now: Timestamp, window: int)
    ensures
        recent(times, now, window).len() <= times.len(),
        forall|i: int|
            0 <= i < recent(times, now, window).len() ==> now@ - (#[trigger] recent(
                times,
                now,
                window,
            )[i])@ < window && times.contains(recent(times, now, window)[i]),
        forall|i: int|
            0 <= i < times.len() && now@ - (#[trigger] times[i])@ < window ==> recent(
                times,
                now,
                window,
            ).contains(times[i]),
{
    let pred = in_window(now, window);
    let kept = times.filter(pred);
    times.lemma_filter_len(pred);
    assert forall|i: int| 0 <= i < kept.len() implies now@ - (#[trigger] kept[i])@ < window
        && times.contains(kept[i]) by {
        times.lemma_filter_pred(pred, i);
        assert(kept.contains(kept[i]));
        times.lemma_filter_contains_rev(pred, kept[i]);
    }
    assert forall|i: int|
        0 <= i < times.len() && now@ - (#[trigger] times[i])@ < window implies kept.contains(
        times[i],
    ) by {
        assert(pred(times[i]));
        times.lemma_filter_contains(pred, i);
    }
}

/// The times within a window at `now`, taken from those that were within it
/// at an earlier time, are the times within it at `now`: compacting in
/// between loses nothing that a later compaction would keep.
pub proof fn lemma_recent_of_recent(
    times: Seq<Timestamp>,
    earlier: Timestamp,
    now: Timestamp,
    window: int,
)
    requires
        earlier@ <= now@,
    ensures
        recent(recent(times, earlier, window), now, window) == recent(times, now, window),
{
    lemma_filter_twice(times, in_window(earlier, window), in_window(now, window));
}

/// Times that all lie within the window are all kept.
pub proof fn lemma_recent_all(times: Seq<Timestamp>, now: Timestamp, window: int)
    requires
        forall|i: int| 0 <= i < times.len() ==> now@ - (#[trigger] times[i])@ < window,
    ensures
        recent(times, now, window) == times,
{
    lemma_filter_keeps_all(times, in_window(now, window));
}

/// Times that have all left the window are all dropped.
pub proof fn lemma_recent_none(times: Seq<Timestamp>, now: Timestamp, window: int)
    requires
        forall|i: int| 0 <= i < times.len() ==> now@ - (#[trigger] times[i])@ >= window,
    ensures
        recent(times, now, window) == Seq::<Timestamp>::empty(),
{
    lemma_filter_keeps_none(times, in_window(now, window));
}

/// Pushing a time onto a window and compacting: the time stays if it is
/// within the window.
pub proof fn lemma_recent_push(times: Seq<Timestamp>, time: Timestamp, now: Timestamp, window: int)
    ensures
        recent(times.push(time), now, window) == if now@ - time@ < window {
            recent(times, now, window).push(time)
        } else {
            recent(times, now, window)
        },
{
    times.lemma_filter_push(time, in_window(now, window));
}

/// A window that was compacted at `now` and then took `now` itself is left as
/// it is by a further compaction at `now`.
pub proof fn lemma_recent_after_push(times: Seq<Timestamp>, now: Timestamp, window: int)
    requires
        0 < window,
    ensures
        recent(recent(times, now, window).push(now), now, window) == recent(
            times,
            now,
            window,
        ).push(now),
{
    let pred = in_window(now, window);
    lemma_filter_twice(times, pred, pred);
    times.filter(pred).lemma_filter_push(now, pred);
}

impl Windows {
    /// Compacting at `earlier` and then at `now` is compacting at `now`.
    pub proof fn lemma_compacted_twice(self, earlier: Timestamp, now: Timestamp)
        requires
            earlier@ <= now@,
        ensures
            self.compacted(earlier).compacted(now) == self.compacted(now),
    {
        lemma_recent_of_recent(self.short, earlier, now, SHORT_WINDOW_NANOS as int);
        lemma_recent_of_recent(self.long, earlier, now, LONG_WINDOW_NANOS as int);
    }

    /// Compaction never adds a time.
    pub proof fn lemma_compacted_shrinks(self, now: Timestamp)
        ensures
            self.compacted(now).short.len() <= self.short.len(),
            self.compacted(now).long.len() <= self.long.len(),
            self.within_limits() ==> self.compacted(now).within_limits(),
    {
        lemma_recent_members(self.short, now, SHORT_WINDOW_NANOS as int);
        lemma_recent_members(self.long, now, LONG_WINDOW_NANOS as int);
    }

    /// What a request at `now` leaves behind: windows within their limits
    /// that a further compaction at `now` does not change and that are not
    /// empty. A request that is let through takes one from what was left in
    /// each window; a refused one takes nothing, and finds one of the two
    /// windows full.
    pub proof fn lemma_after_request(self, now: Timestamp)
        requires
            self.within_limits(),
        ensures
            self.after_request(now).within_limits(),
            self.after_request(now).compacted(now) == self.after_request(now),
            !self.after_request(now).is_idle(),
            self.admits(now) ==> self.after_request(now).remaining(now) == (
                self.remaining(now).0 - 1,
                self.remaining(now).1 - 1,
            ),
            !self.admits(now) ==> self.after_request(now).remaining(now) == self.remaining(now),
            !self.admits(now) ==> self.remaining(now).0 == 0 || self.remaining(now).1 == 0,
            0 <= self.after_request(now).remaining(now).0 <= self.remaining(now).0 <= SHORT_LIMIT,
            0 <= self.after_request(now).remaining(now).1 <= self.remaining(now).1 <= LONG_LIMIT,
    {
        self.lemma_compacted_shrinks(now);
        self.lemma_compacted_twice(now, now);
        lemma_recent_after_push(self.short, now, SHORT_WINDOW_NANOS as int);
        lemma_recent_after_push(self.long, now, LONG_WINDOW_NANOS as int);
    }
}

/// The times in `times` that are less than `window` nanoseconds before `now`.
fn keep_recent(times: &Vec<Timestamp>, now: Timestamp, window: i128) -> (kept: Vec<Timestamp>)
    ensures
        kept@ == recent(times@, now, window as int),
{
    let mut kept: Vec<Timestamp> = Vec::new();
    let mut i: usize = 0;
    while i < times.len()
        invariant
            i <= times.len(),
            kept@ == recent(times@.take(i as int), now, window as int),
        decreases times.len() - i,
    {
        proof {
            times@.lemma_take_succ_push(i as int);
            times@.take(i as int).lemma_filter_push(
                times@[i as int],
                in_window(now, window as int),
            );
        }
        if now.is_within(times[i], window) {
            kept.push(times[i]);
        }
        i = i + 1;
    }
    proof {
        times@.lemma_take_len();
    }
    kept
}

/// How many of `times` are less than `window` nanoseconds before `now`.
fn count_recent(times: &Vec<Timestamp>, now: Timestamp, window: i128) -> (count: usize)
    ensures
        count == recent(times@, now, window as int).len(),
{
    let mut count: usize = 0;
    let mut i: usize = 0;
    while i < times.len()
        invariant
            i <= times.len(),
            count <= i,
            count == recent(times@.take(i as int), now, window as int).len(),
        decreases times.len() - i,
    {
        proof {
            times@.lemma_take_succ_push(i as int);
            times@.take(i as int).lemma_filter_push(
                times@[i as int],
                in_window(now, window as int),
            );
        }
        if now.is_within(times[i], window) {
            count = count + 1;
        }
        i = i + 1;
    }
    proof {
        times@.lemma_take_len();
    }
    count
}

/// The recent requests of one client. Neither window ever holds more than
/// its limit.
#[derive(Debug)]
pub struct RateLimitInfo {
    requests_per_minute: Vec<Timestamp>,
    requests_per_12h: Vec<Timestamp>,
}

impl View for RateLimitInfo {
    type V = Windows;

    closed spec fn view(&self) -> Windows {
        Windows { short: self.requests_per_minute@, long: self.requests_per_12h@ }
    }
}

impl Clone for RateLimitInfo {
    fn clone(&self) -> (copy: Self)
        ensures
            copy@ == self@,
    {
        proof {
            use_type_invariant(self);
        }
        let short = self.requests_per_minute.clone();
        let long = self.requests_per_12h.clone();
        assert(short@ =~= self.requests_per_minute@);
        assert(long@ =~= self.requests_per_12h@);
        RateLimitInfo { requests_per_minute: short, requests_per_12h: long }
    }
}

impl RateLimitInfo {
    #[verifier::type_invariant]
    spec fn bounded(self) -> bool {
        self@.within_limits()
    }

    /// A record without requests.
    pub fn new() -> (info: Self)
        ensures
            info@ == Windows::empty(),
    {
        Self { requests_per_minute: Vec::new(), requests_per_12h: Vec::new() }
    }

    /// Drops from each window the times that have left it at `now`.
    pub fn compact(&mut self, now: Timestamp)
        ensures
            final(self)@ == old(self)@.compacted(now),
            final(self)@.within_limits(),
    {
        proof {
            use_type_invariant(&*self);
            old(self)@.short.lemma_filter_len(in_window(now, SHORT_WINDOW_NANOS as int));
            old(self)@.long.lemma_filter_len(in_window(now, LONG_WINDOW_NANOS as int));
        }
        let short = keep_recent(&self.requests_per_minute, now, SHORT_WINDOW_NANOS);
        let long = keep_recent(&self.requests_per_12h, now, LONG_WINDOW_NANOS);
        self.requests_per_minute = short;
        self.requests_per_12h = long;
    }

    /// Decides on a request made at `now`. The windows are compacted first.
    /// If either is then at its limit the request is refused and nothing is
    /// recorded; otherwise `now` is recorded in both.
    pub fn try_admit(&mut self, now: Timestamp) -> (admitted: bool)
        ensures
            admitted == old(self)@.admits(now),
            final(self)@ == old(self)@.after_request(now),
            final(self)@.within_limits(),
    {
        proof {
            use_type_invariant(&*self);
            old(self)@.short.lemma_filter_len(in_window(now, SHORT_WINDOW_NANOS as int));
            old(self)@.long.lemma_filter_len(in_window(now, LONG_WINDOW_NANOS as int));
        }
        let mut short = keep_recent(&self.requests_per_minute, now, SHORT_WINDOW_NANOS);
        let mut long = keep_recent(&self.requests_per_12h, now, LONG_WINDOW_NANOS);
        let admitted = short.len() < SHORT_LIMIT && long.len() < LONG_LIMIT;
        if admitted {
            short.push(now);
            long.push(now);
        }
        self.requests_per_minute = short;
        self.requests_per_12h = long;
        admitted
    }

    /// The requests that each window has room for at `now`: its limit less
    /// the recorded times that are still within it.
    pub fn remaining(&self, now: Timestamp) -> (left: (usize, usize))
        ensures
            left.0 == self@.remaining(now).0,
            left.1 == self@.remaining(now).1,
            left.0 <= SHORT_LIMIT,
            left.1 <= LONG_LIMIT,
    {
        proof {
            use_type_invariant(self);
            self@.short.lemma_filter_len(in_window(now, SHORT_WINDOW_NANOS as int));
            self@.long.lemma_filter_len(in_window(now, LONG_WINDOW_NANOS as int));
        }
        let short = count_recent(&self.requests_per_minute, now, SHORT_WINDOW_NANOS);
        let long = count_recent(&self.requests_per_12h, now, LONG_WINDOW_NANOS);
        (SHORT_LIMIT - short, LONG_LIMIT - long)
    }

    /// Reads the clock and decides on a request made at that time, as
    /// `try_admit` does.
    pub fn can_make_request(&mut self) -> (admitted: bool)
        ensures
            exists|now: Timestamp|
                admitted == old(self)@.admits(now) && final(self)@ == #[trigger] old(
                    self,
                )@.after_request(now),
            final(self)@.within_limits(),
    {
        let now = Timestamp::now();
        self.try_admit(now)
    }

    /// Reads the clock and returns what each window has room for at that
    /// time, as `remaining` does.
    pub fn get_remaining_requests(&self) -> (left: (usize, usize))
        ensures
            exists|now: Timestamp| #[trigger]
                self@.remaining(now) == (left.0 as int, left.1 as int),
            left.0 <= SHORT_LIMIT,
            left.1 <= LONG_LIMIT,
    {
        let now = Timestamp::now();
        self.remaining(now)
    }

    /// The times that the short window holds, in the order in which they
    /// were recorded.
    pub fn requests_per_minute(&self) -> (times: &Vec<Timestamp>)
        ensures
            times@ == self@.short,
    {
        &self.requests_per_minute
    }

    /// The times that the long window holds, in the order in which they
    /// were recorded.
    pub fn requests_per_12h(&self) -> (times: &Vec<Timestamp>)
        ensures
            times@ == self@.long,
    {
        &self.requests_per_12h
    }

    /// Whether both windows are empty.
    pub fn is_idle(&self) -> (idle: bool)
        ensures
            idle == self@.is_idle(),
    {
        self.requests_per_minute.len() == 0 && self.requests_per_12h.len() == 0
    }
}

} // verus!
