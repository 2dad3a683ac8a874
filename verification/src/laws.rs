//! What follows from the rules of admission, for every client and every
//! time, whatever was recorded before.

use vstd::prelude::*;
use crate::clock::Timestamp;
use crate::registry::{after_check, after_sweep, check_admits, check_remaining, windows_of};
use crate::window::{
    lemma_recent_all, lemma_recent_members, lemma_recent_none, lemma_recent_push, recent, Windows,
    LONG_LIMIT, LONG_WINDOW_NANOS, SHORT_LIMIT, SHORT_WINDOW_NANOS,
};

verus! {

/// Every time recorded in `windows` has left its window at `now`.
pub open spec fn aged_out(windows: Windows, now: Timestamp) -> bool {
    &&& forall|i: int|
        0 <= i < windows.short.len() ==> now@ - (#[trigger] windows.short[i])@
            >= SHORT_WINDOW_NANOS
    &&& forall|i: int|
        0 <= i < windows.long.len() ==> now@ - (#[trigger] windows.long[i])@ >= LONG_WINDOW_NANOS
}

/// A time recorded in `windows` is still within its window at `now`.
pub open spec fn has_recent(windows: Windows, now: Timestamp) -> bool {
    ||| exists|i: int|
        0 <= i < windows.short.len() && now@ - (#[trigger] windows.short[i])@
            < SHORT_WINDOW_NANOS
    ||| exists|i: int|
        0 <= i < windows.long.len() && now@ - (#[trigger] windows.long[i])@ < LONG_WINDOW_NANOS
}

/// Times recorded in the order of the clock: none is earlier than the one
/// before it.
pub open spec fn in_order(times: Seq<Timestamp>) -> bool {
    forall|i: int, j: int| 0 <= i <= j < times.len() ==> (#[trigger] times[i])@ <= (
    #[trigger] times[j])@
}

/// Windows whose times have all aged out are empty once compacted, and the
/// other way round.
pub proof fn lemma_aged_out_is_idle(windows: Windows, now: Timestamp)
    ensures
        aged_out(windows, now) <==> windows.compacted(now).is_idle(),
        aged_out(windows, now) <==> !has_recent(windows, now),
        aged_out(windows, now) ==> windows.compacted(now) == Windows::empty(),
{
    lemma_recent_members(windows.short, now, SHORT_WINDOW_NANOS as int);
    lemma_recent_members(windows.long, now, LONG_WINDOW_NANOS as int);
    if aged_out(windows, now) {
        lemma_recent_none(windows.short, now, SHORT_WINDOW_NANOS as int);
        lemma_recent_none(windows.long, now, LONG_WINDOW_NANOS as int);
    }
    if windows.compacted(now).is_idle() {
        let short = recent(windows.short, now, SHORT_WINDOW_NANOS as int);
        let long = recent(windows.long, now, LONG_WINDOW_NANOS as int);
        assert forall|i: int| 0 <= i < windows.short.len() implies now@ - (
        #[trigger] windows.short[i])@ >= SHORT_WINDOW_NANOS by {
            if now@ - windows.short[i]@ < SHORT_WINDOW_NANOS {
                assert(short.contains(windows.short[i]));
            }
        }
        assert forall|i: int| 0 <= i < windows.long.len() implies now@ - (
        #[trigger] windows.long[i])@ >= LONG_WINDOW_NANOS by {
            if now@ - windows.long[i]@ < LONG_WINDOW_NANOS {
                assert(long.contains(windows.long[i]));
            }
        }
    }
}

/// A request leaves its client recorded: the windows after a request are
/// never empty, so a check never drops the client that it decided on.
pub proof fn lemma_check_records(
    clients: Map<Seq<char>, Windows>,
    identity: Seq<char>,
    now: Timestamp,
)
    ensures
        !windows_of(clients, identity).after_request(now).is_idle(),
        after_check(clients, identity, now) == clients.insert(
            identity,
            windows_of(clients, identity).after_request(now),
        ),
{
}

/// The first check of a client that is not recorded is let through, and
/// leaves it one request in the short window and three in the long one.
pub proof fn lemma_first_check(clients: Map<Seq<char>, Windows>, identity: Seq<char>, now: Timestamp)
    requires
        !clients.contains_key(identity),
    ensures
        check_admits(clients, identity, now),
        check_remaining(clients, identity, now) == (1int, 3int),
        after_check(clients, identity, now) == clients.insert(
            identity,
            Windows { short: seq![now], long: seq![now] },
        ),
{
    let none = Seq::<Timestamp>::empty();
    lemma_recent_none(none, now, SHORT_WINDOW_NANOS as int);
    lemma_recent_none(none, now, LONG_WINDOW_NANOS as int);
    lemma_recent_all(none.push(now), now, SHORT_WINDOW_NANOS as int);
    lemma_recent_all(none.push(now), now, LONG_WINDOW_NANOS as int);
    assert(none.push(now) =~= seq![now]);
}

/// Within one minute a client gets two requests through and no more: where
/// two requests of a client were let through, a further one that comes less
/// than a minute after the first of them is refused, with nothing left in
/// the short window.
pub proof fn lemma_short_window_exhausted(
    clients: Map<Seq<char>, Windows>,
    identity: Seq<char>,
    first: Timestamp,
    second: Timestamp,
    third: Timestamp,
)
    requires
        first@ <= second@ <= third@,
        third@ - first@ < SHORT_WINDOW_NANOS,
        check_admits(clients, identity, first),
        check_admits(after_check(clients, identity, first), identity, second),
    ensures
        ({
            let later = after_check(after_check(clients, identity, first), identity, second);
            &&& !check_admits(later, identity, third)
            &&& check_remaining(later, identity, third).0 == 0
        }),
{
    let window = SHORT_WINDOW_NANOS as int;
    let start = windows_of(clients, identity);
    let one = start.after_request(first);
    let two = one.after_request(second);
    lemma_check_records(clients, identity, first);
    lemma_check_records(after_check(clients, identity, first), identity, second);
    let later = after_check(after_check(clients, identity, first), identity, second);
    assert(windows_of(later, identity) == two);
    let kept = recent(start.short, first, window);
    assert(one.short == kept.push(first));
    lemma_recent_push(kept, first, second, window);
    let none = recent(kept, second, window);
    assert(one.compacted(second).short == none.push(first));
    assert(none.len() == 0);
    assert(two.short == none.push(first).push(second));
    lemma_recent_push(none, first, third, window);
    lemma_recent_push(none.push(first), second, third, window);
    lemma_recent_members(none, third, window);
    assert(two.compacted(third).short.len() == 2);
    two.lemma_compacted_twice(third, third);
}

/// Within twelve hours a client gets four requests through and no more:
/// where four requests of a client were let through, a further one that
/// comes less than twelve hours after the first of them is refused, with
/// nothing left in the long window, whatever the short window has left.
pub proof fn lemma_long_window_exhausted(
    clients: Map<Seq<char>, Windows>,
    identity: Seq<char>,
    first: Timestamp,
    second: Timestamp,
    third: Timestamp,
    fourth: Timestamp,
    fifth: Timestamp,
)
    requires
        first@ <= second@ <= third@ <= fourth@ <= fifth@,
        fifth@ - first@ < LONG_WINDOW_NANOS,
        check_admits(clients, identity, first),
        check_admits(after_check(clients, identity, first), identity, second),
        check_admits(
            after_check(after_check(clients, identity, first), identity, second),
            identity,
            third,
        ),
        check_admits(
            after_check(
                after_check(after_check(clients, identity, first), identity, second),
                identity,
                third,
            ),
            identity,
            fourth,
        ),
    ensures
        ({
            let later = after_check(
                after_check(
                    after_check(after_check(clients, identity, first), identity, second),
                    identity,
                    third,
                ),
                identity,
                fourth,
            );
            &&& !check_admits(later, identity, fifth)
            &&& check_remaining(later, identity, fifth).1 == 0
        }),
{
    let window = LONG_WINDOW_NANOS as int;
    let start = windows_of(clients, identity);
    let clients1 = after_check(clients, identity, first);
    let clients2 = after_check(clients1, identity, second);
    let clients3 = after_check(clients2, identity, third);
    let clients4 = after_check(clients3, identity, fourth);
    lemma_check_records(clients, identity, first);
    lemma_check_records(clients1, identity, second);
    lemma_check_records(clients2, identity, third);
    lemma_check_records(clients3, identity, fourth);
    let one = start.after_request(first);
    let two = one.after_request(second);
    let three = two.after_request(third);
    let four = three.after_request(fourth);
    assert(windows_of(clients1, identity) == one);
    assert(windows_of(clients2, identity) == two);
    assert(windows_of(clients3, identity) == three);
    assert(windows_of(clients4, identity) == four);
    let kept1 = recent(start.long, first, window);
    assert(one.long == kept1.push(first));
    let kept2 = recent(kept1, second, window);
    lemma_recent_push(kept1, first, second, window);
    assert(two.long == kept2.push(first).push(second));
    let kept3 = recent(kept2, third, window);
    lemma_recent_push(kept2, first, third, window);
    lemma_recent_push(kept2.push(first), second, third, window);
    assert(three.long == kept3.push(first).push(second).push(third));
    let kept4 = recent(kept3, fourth, window);
    lemma_recent_push(kept3, first, fourth, window);
    lemma_recent_push(kept3.push(first), second, fourth, window);
    lemma_recent_push(kept3.push(first).push(second), third, fourth, window);
    assert(three.compacted(fourth).long == kept4.push(first).push(second).push(third));
    assert(kept4.len() == 0);
    assert(four.long == kept4.push(first).push(second).push(third).push(fourth));
    let kept5 = recent(kept4, fifth, window);
    lemma_recent_members(kept4, fifth, window);
    lemma_recent_push(kept4, first, fifth, window);
    lemma_recent_push(kept4.push(first), second, fifth, window);
    lemma_recent_push(kept4.push(first).push(second), third, fifth, window);
    lemma_recent_push(kept4.push(first).push(second).push(third), fourth, fifth, window);
    assert(four.compacted(fifth).long.len() == 4);
    four.lemma_compacted_twice(fifth, fifth);
}

/// Idleness restores everything: for a client whose recorded times have all
/// left their windows, a check decides, answers and records as it does for
/// a client that was never seen.
pub proof fn lemma_aged_out_is_fresh(
    clients: Map<Seq<char>, Windows>,
    identity: Seq<char>,
    now: Timestamp,
)
    requires
        clients.contains_key(identity),
        aged_out(clients[identity], now),
    ensures
        check_admits(clients, identity, now),
        check_remaining(clients, identity, now) == (1int, 3int),
        check_admits(clients, identity, now) == check_admits(
            clients.remove(identity),
            identity,
            now,
        ),
        check_remaining(clients, identity, now) == check_remaining(
            clients.remove(identity),
            identity,
            now,
        ),
        after_check(clients, identity, now) == after_check(
            clients.remove(identity),
            identity,
            now,
        ),
{
    lemma_aged_out_is_idle(clients[identity], now);
    lemma_first_check(clients.remove(identity), identity, now);
    let fresh = Windows::empty();
    assert(clients[identity].compacted(now) == fresh.compacted(now)) by {
        lemma_aged_out_is_idle(fresh, now);
    }
    assert(clients[identity].after_request(now) == fresh.after_request(now));
    assert(after_check(clients, identity, now) =~= after_check(
        clients.remove(identity),
        identity,
        now,
    ));
}

/// A sweep keeps every client that has a time within one of its windows,
/// with its windows compacted; it drops every client that has none; and it
/// records no one anew.
pub proof fn lemma_sweep_keeps_the_active(
    clients: Map<Seq<char>, Windows>,
    identity: Seq<char>,
    now: Timestamp,
)
    ensures
        clients.contains_key(identity) && has_recent(clients[identity], now) ==> after_sweep(
            clients,
            now,
        ).contains_key(identity) && after_sweep(clients, now)[identity]
            == clients[identity].compacted(now),
        clients.contains_key(identity) && aged_out(clients[identity], now) ==> !after_sweep(
            clients,
            now,
        ).contains_key(identity),
        !clients.contains_key(identity) ==> !after_sweep(clients, now).contains_key(identity),
        after_sweep(clients, now).contains_key(identity) ==> !after_sweep(
            clients,
            now,
        )[identity].is_idle(),
{
    if clients.contains_key(identity) {
        lemma_aged_out_is_idle(clients[identity], now);
    }
}

/// Two registries agree from `now` on: each client has the same times
/// within its windows at `now` in both.
pub open spec fn agree_from(
    left: Map<Seq<char>, Windows>,
    right: Map<Seq<char>, Windows>,
    now: Timestamp,
) -> bool {
    forall|identity: Seq<char>|
        (#[trigger] windows_of(left, identity)).compacted(now) == windows_of(
            right,
            identity,
        ).compacted(now)
}

/// A sweep changes nothing that a check at the time of the sweep or later
/// can see: the swept registry agrees with the one before from then on.
pub proof fn lemma_sweep_agrees(clients: Map<Seq<char>, Windows>, now: Timestamp)
    ensures
        agree_from(after_sweep(clients, now), clients, now),
{
    let swept = after_sweep(clients, now);
    assert forall|identity: Seq<char>|
        (#[trigger] windows_of(swept, identity)).compacted(now) == windows_of(
            clients,
            identity,
        ).compacted(now) by {
        let before = windows_of(clients, identity);
        before.lemma_compacted_twice(now, now);
        lemma_aged_out_is_idle(Windows::empty(), now);
        if clients.contains_key(identity) && !swept.contains_key(identity) {
            assert(before.compacted(now).short =~= Seq::<Timestamp>::empty());
            assert(before.compacted(now).long =~= Seq::<Timestamp>::empty());
        }
    }
}

/// Registries that agree from one time on agree from every later time on.
pub proof fn lemma_agreement_lasts(
    left: Map<Seq<char>, Windows>,
    right: Map<Seq<char>, Windows>,
    earlier: Timestamp,
    now: Timestamp,
)
    requires
        agree_from(left, right, earlier),
        earlier@ <= now@,
    ensures
        agree_from(left, right, now),
{
    assert forall|identity: Seq<char>|
        (#[trigger] windows_of(left, identity)).compacted(now) == windows_of(
            right,
            identity,
        ).compacted(now) by {
        windows_of(left, identity).lemma_compacted_twice(earlier, now);
        windows_of(right, identity).lemma_compacted_twice(earlier, now);
    }
}

/// On registries that agree from `now` on, a check at `now` decides and
/// answers the same, and leaves registries that agree from `now` on. With
/// `lemma_sweep_agrees` and `lemma_agreement_lasts`: no sweep changes the
/// outcome of any check that comes after it by the clock.
pub proof fn lemma_checks_agree(
    left: Map<Seq<char>, Windows>,
    right: Map<Seq<char>, Windows>,
    identity: Seq<char>,
    now: Timestamp,
)
    requires
        agree_from(left, right, now),
    ensures
        check_admits(left, identity, now) == check_admits(right, identity, now),
        check_remaining(left, identity, now) == check_remaining(right, identity, now),
        agree_from(after_check(left, identity, now), after_check(right, identity, now), now),
{
    let here = windows_of(left, identity);
    let there = windows_of(right, identity);
    assert(here.compacted(now) == there.compacted(now));
    assert(here.after_request(now) == there.after_request(now));
    lemma_check_records(left, identity, now);
    lemma_check_records(right, identity, now);
    let left_after = after_check(left, identity, now);
    let right_after = after_check(right, identity, now);
    assert forall|other: Seq<char>|
        (#[trigger] windows_of(left_after, other)).compacted(now) == windows_of(
            right_after,
            other,
        ).compacted(now) by {
        if other != identity {
            assert(windows_of(left_after, other) == windows_of(left, other));
            assert(windows_of(right_after, other) == windows_of(right, other));
        }
    }
}

/// What a client has room for at `now`: the lesser of what its two windows
/// have left.
pub open spec fn room(windows: Windows, now: Timestamp) -> int {
    if windows.remaining(now).0 <= windows.remaining(now).1 {
        windows.remaining(now).0
    } else {
        windows.remaining(now).1
    }
}

/// The windows after requests at `times`, decided one after the other.
pub open spec fn after_requests(windows: Windows, times: Seq<Timestamp>) -> Windows
    decreases times.len(),
{
    if times.len() == 0 {
        windows
    } else {
        after_requests(windows, times.drop_last()).after_request(times.last())
    }
}

/// How many of the requests at `times`, decided one after the other, are
/// let through.
pub open spec fn admitted_among(windows: Windows, times: Seq<Timestamp>) -> nat
    decreases times.len(),
{
    if times.len() == 0 {
        0
    } else if after_requests(windows, times.drop_last()).admits(times.last()) {
        admitted_among(windows, times.drop_last()) + 1
    } else {
        admitted_among(windows, times.drop_last())
    }
}

/// The registry after checks of `identity` at `times`, one after the other.
pub open spec fn after_checks(
    clients: Map<Seq<char>, Windows>,
    identity: Seq<char>,
    times: Seq<Timestamp>,
) -> Map<Seq<char>, Windows>
    decreases times.len(),
{
    if times.len() == 0 {
        clients
    } else {
        after_check(after_checks(clients, identity, times.drop_last()), identity, times.last())
    }
}

/// How many of the checks of `identity` at `times`, one after the other,
/// let the request through.
pub open spec fn admitted_checks(
    clients: Map<Seq<char>, Windows>,
    identity: Seq<char>,
    times: Seq<Timestamp>,
) -> nat
    decreases times.len(),
{
    if times.len() == 0 {
        0
    } else if check_admits(
        after_checks(clients, identity, times.drop_last()),
        identity,
        times.last(),
    ) {
        admitted_checks(clients, identity, times.drop_last()) + 1
    } else {
        admitted_checks(clients, identity, times.drop_last())
    }
}

/// Windows that hold the same times within them at two moments hold those
/// at every moment in between.
pub proof fn lemma_steady_between(
    windows: Windows,
    first: Timestamp,
    between: Timestamp,
    last: Timestamp,
)
    requires
        first@ <= between@ <= last@,
        windows.compacted(first) == windows.compacted(last),
    ensures
        windows.compacted(between) == windows.compacted(first),
{
    windows.lemma_compacted_twice(first, between);
    lemma_recent_members(windows.short, last, SHORT_WINDOW_NANOS as int);
    lemma_recent_members(windows.long, last, LONG_WINDOW_NANOS as int);
    lemma_recent_all(windows.compacted(last).short, between, SHORT_WINDOW_NANOS as int);
    lemma_recent_all(windows.compacted(last).long, between, LONG_WINDOW_NANOS as int);
}

/// A request at a time at which every recorded time is within its window:
/// compaction drops nothing, and the request is let through just where
/// both windows are below their limits.
pub proof fn lemma_request_without_loss(windows: Windows, now: Timestamp)
    requires
        forall|i: int|
            0 <= i < windows.short.len() ==> now@ - (#[trigger] windows.short[i])@
                < SHORT_WINDOW_NANOS,
        forall|i: int|
            0 <= i < windows.long.len() ==> now@ - (#[trigger] windows.long[i])@
                < LONG_WINDOW_NANOS,
    ensures
        windows.compacted(now) == windows,
        windows.admits(now) <==> windows.short.len() < SHORT_LIMIT && windows.long.len()
            < LONG_LIMIT,
        windows.admits(now) ==> windows.after_request(now) == (Windows {
            short: windows.short.push(now),
            long: windows.long.push(now),
        }),
        !windows.admits(now) ==> windows.after_request(now) == windows,
{
    lemma_recent_all(windows.short, now, SHORT_WINDOW_NANOS as int);
    lemma_recent_all(windows.long, now, LONG_WINDOW_NANOS as int);
}

/// The windows in the course of a burst: what they held within them at its
/// first request, and after that the first `through` times of the burst.
pub open spec fn during_burst(windows: Windows, times: Seq<Timestamp>, through: int) -> Windows {
    Windows {
        short: windows.compacted(times.first()).short + times.take(through),
        long: windows.compacted(times.first()).long + times.take(through),
    }
}

/// How many requests of a burst of `count` are let through where there is
/// room for `space`.
pub open spec fn let_through(count: nat, space: int) -> int {
    if count <= space {
        count as int
    } else {
        space
    }
}

proof fn lemma_burst_holds_all(windows: Windows, times: Seq<Timestamp>, through: int)
    requires
        times.len() > 0,
        in_order(times),
        times.last()@ - times.first()@ < SHORT_WINDOW_NANOS,
        windows.compacted(times.first()) == windows.compacted(times.last()),
        0 <= through < times.len(),
    ensures
        forall|i: int|
            0 <= i < during_burst(windows, times, through).short.len() ==> times.last()@ - (
            #[trigger] during_burst(windows, times, through).short[i])@ < SHORT_WINDOW_NANOS,
        forall|i: int|
            0 <= i < during_burst(windows, times, through).long.len() ==> times.last()@ - (
            #[trigger] during_burst(windows, times, through).long[i])@ < LONG_WINDOW_NANOS,
{
    let last = times.last();
    let start = windows.compacted(times.first());
    let held = during_burst(windows, times, through);
    lemma_recent_members(windows.short, last, SHORT_WINDOW_NANOS as int);
    lemma_recent_members(windows.long, last, LONG_WINDOW_NANOS as int);
    assert forall|i: int| 0 <= i < held.short.len() implies last@ - (#[trigger] held.short[i])@
        < SHORT_WINDOW_NANOS by {
        if i >= start.short.len() {
            let k = i - start.short.len();
            assert(held.short[i] == times[k]);
            assert(times[0]@ <= times[k]@);
        }
    }
    assert forall|i: int| 0 <= i < held.long.len() implies last@ - (#[trigger] held.long[i])@
        < LONG_WINDOW_NANOS by {
        if i >= start.long.len() {
            let k = i - start.long.len();
            assert(held.long[i] == times[k]);
            assert(times[0]@ <= times[k]@);
        }
    }
}

proof fn lemma_push_after_take(head: Seq<Timestamp>, times: Seq<Timestamp>, count: int)
    requires
        0 <= count < times.len(),
    ensures
        (head + times.take(count)).push(times[count]) == head + times.take(count + 1),
{
    assert((head + times.take(count)).push(times[count]) =~= head + times.take(count + 1));
}

/// The last request of a burst, where the windows before it are those of
/// `during_burst` with `held` requests let through so far.
proof fn lemma_burst_last(windows: Windows, times: Seq<Timestamp>, held: int)
    requires
        times.len() > 0,
        in_order(times),
        times.last()@ - times.first()@ < SHORT_WINDOW_NANOS,
        windows.compacted(times.first()) == windows.compacted(times.last()),
        0 <= held < times.len(),
    ensures
        ({
            let before = during_burst(windows, times, held);
            let start = windows.compacted(times.first());
            &&& before.admits(times.last()) <==> start.short.len() + held < SHORT_LIMIT
                && start.long.len() + held < LONG_LIMIT
            &&& before.admits(times.last()) && held == times.len() - 1 ==> before.after_request(
                times.last(),
            ) == during_burst(windows, times, held + 1)
            &&& !before.admits(times.last()) ==> before.after_request(times.last()) == before
        }),
{
    let last = times.last();
    let start = windows.compacted(times.first());
    let before = during_burst(windows, times, held);
    assert(before.short.len() == start.short.len() + held);
    assert(before.long.len() == start.long.len() + held);
    assert(before.compacted(last) == before && (before.admits(last) ==> before.after_request(last)
        == (Windows { short: before.short.push(last), long: before.long.push(last) }))) by {
        lemma_burst_holds_all(windows, times, held);
        lemma_request_without_loss(before, last);
    }
    if held == times.len() - 1 {
        lemma_push_after_take(start.short, times, held);
        lemma_push_after_take(start.long, times, held);
    }
}

proof fn lemma_front_of_burst(windows: Windows, times: Seq<Timestamp>)
    requires
        times.len() > 1,
        in_order(times),
        times.last()@ - times.first()@ < SHORT_WINDOW_NANOS,
        windows.compacted(times.first()) == windows.compacted(times.last()),
    ensures
        in_order(times.drop_last()),
        times.drop_last().first() == times.first(),
        times.drop_last().last()@ - times.first()@ < SHORT_WINDOW_NANOS,
        windows.compacted(times.first()) == windows.compacted(times.drop_last().last()),
        forall|through: int|
            0 <= through < times.len() ==> #[trigger] during_burst(
                windows,
                times.drop_last(),
                through,
            ) == during_burst(windows, times, through),
{
    let front = times.drop_last();
    let first = times.first();
    let last = times.last();
    assert(front.first() == first);
    assert(front.last() == times[times.len() - 2]);
    assert forall|i: int, j: int| 0 <= i <= j < front.len() implies (#[trigger] front[i])@ <= (
    #[trigger] front[j])@ by {
        assert(front[i] == times[i] && front[j] == times[j]);
    }
    assert(times[0]@ <= times[times.len() - 2]@);
    assert(times[times.len() - 2]@ <= times[times.len() - 1]@);
    lemma_steady_between(windows, first, front.last(), last);
    assert forall|through: int| 0 <= through < times.len() implies #[trigger] during_burst(
        windows,
        front,
        through,
    ) == during_burst(windows, times, through) by {
        assert(front.take(through) =~= times.take(through));
    }
}

/// A burst of requests: they come in the order of the clock within less
/// than a minute, and no recorded time leaves its window meanwhile. Then
/// as many are let through as the client had room for at the first of
/// them, and all the others are refused: the first ones are let through,
/// each is recorded once in each window, and nothing else changes but by
/// compaction.
pub proof fn lemma_burst(windows: Windows, times: Seq<Timestamp>)
    requires
        windows.within_limits(),
        times.len() > 0,
        in_order(times),
        times.last()@ - times.first()@ < SHORT_WINDOW_NANOS,
        windows.compacted(times.first()) == windows.compacted(times.last()),
    ensures
        0 <= room(windows, times.first()),
        admitted_among(windows, times) == let_through(
            times.len(),
            room(windows, times.first()),
        ),
        after_requests(windows, times.drop_last()).admits(times.last()) <==> times.len() <= room(
            windows,
            times.first(),
        ),
        after_requests(windows, times) == during_burst(
            windows,
            times,
            let_through(times.len(), room(windows, times.first())),
        ),
    decreases times.len(),
{
    let first = times.first();
    let last = times.last();
    let start = windows.compacted(first);
    let space = room(windows, first);
    let front = times.drop_last();
    windows.lemma_compacted_shrinks(first);
    if times.len() == 1 {
        assert(after_requests(windows, front) == windows);
        assert(admitted_among(windows, front) == 0);
        assert(start.short.push(first) =~= start.short + times.take(1));
        assert(start.long.push(first) =~= start.long + times.take(1));
        assert(start.short =~= start.short + times.take(0));
        assert(start.long =~= start.long + times.take(0));
    } else {
        lemma_front_of_burst(windows, times);
        lemma_burst(windows, front);
        let held = let_through(front.len(), space);
        let before = after_requests(windows, front);
        assert(before == during_burst(windows, times, held));
        lemma_burst_last(windows, times, held);
    }
}

/// Checks of one client change its windows as requests do, and let through
/// the same ones.
pub proof fn lemma_checks_are_requests(
    clients: Map<Seq<char>, Windows>,
    identity: Seq<char>,
    times: Seq<Timestamp>,
)
    ensures
        windows_of(after_checks(clients, identity, times), identity) == after_requests(
            windows_of(clients, identity),
            times,
        ),
        admitted_checks(clients, identity, times) == admitted_among(
            windows_of(clients, identity),
            times,
        ),
        forall|other: Seq<char>|
            other != identity ==> #[trigger] windows_of(
                after_checks(clients, identity, times),
                other,
            ) == windows_of(clients, other),
    decreases times.len(),
{
    if times.len() > 0 {
        let before = after_checks(clients, identity, times.drop_last());
        lemma_checks_are_requests(clients, identity, times.drop_last());
        lemma_check_records(before, identity, times.last());
        assert forall|other: Seq<char>| other != identity implies #[trigger] windows_of(
            after_checks(clients, identity, times),
            other,
        ) == windows_of(clients, other) by {
            assert(windows_of(before, other) == windows_of(clients, other));
        }
    }
}

/// Of checks of one client that come as a burst, exactly as many let the
/// request through as the client had room for at the first of them, be it
/// all of them; no order of the callers lets more through. No other client
/// is touched.
pub proof fn lemma_burst_of_checks(
    clients: Map<Seq<char>, Windows>,
    identity: Seq<char>,
    times: Seq<Timestamp>,
)
    requires
        windows_of(clients, identity).within_limits(),
        times.len() > 0,
        in_order(times),
        times.last()@ - times.first()@ < SHORT_WINDOW_NANOS,
        windows_of(clients, identity).compacted(times.first()) == windows_of(
            clients,
            identity,
        ).compacted(times.last()),
    ensures
        admitted_checks(clients, identity, times) == let_through(
            times.len(),
            room(windows_of(clients, identity), times.first()),
        ),
        admitted_checks(clients, identity, times) <= SHORT_LIMIT,
        check_admits(
            after_checks(clients, identity, times.drop_last()),
            identity,
            times.last(),
        ) <==> times.len() <= room(windows_of(clients, identity), times.first()),
{
    lemma_burst(windows_of(clients, identity), times);
    lemma_checks_are_requests(clients, identity, times);
    lemma_checks_are_requests(clients, identity, times.drop_last());
    windows_of(clients, identity).lemma_compacted_shrinks(times.first());
}

} // verus!
