//! The windows of every client that has recent requests, by identity.

use vstd::prelude::*;
use crate::clock::Timestamp;
use crate::window::{RateLimitInfo, Windows, LONG_LIMIT, SHORT_LIMIT};

verus! {

/// The windows recorded for `identity`; those of a client that is not
/// recorded are empty.
pub open spec fn windows_of(clients: Map<Seq<char>, Windows>, identity: Seq<char>) -> Windows {
    if clients.contains_key(identity) {
        clients[identity]
    } else {
        Windows::empty()
    }
}

/// Whether a request of `identity` at `now` is let through.
pub open spec fn check_admits(
    clients: Map<Seq<char>, Windows>,
    identity: Seq<char>,
    now: Timestamp,
) -> bool {
    windows_of(clients, identity).admits(now)
}

/// What is left to `identity` in each window once its request at `now` has
/// been decided.
pub open spec fn check_remaining(
    clients: Map<Seq<char>, Windows>,
    identity: Seq<char>,
    now: Timestamp,
) -> (int, int) {
    windows_of(clients, identity).after_request(now).remaining(now)
}

/// The clients after a request of `identity` at `now`: its windows are those
/// after the request, and it is recorded unless they are empty.
pub open spec fn after_check(
    clients: Map<Seq<char>, Windows>,
    identity: Seq<char>,
    now: Timestamp,
) -> Map<Seq<char>, Windows> {
    let windows = windows_of(clients, identity).after_request(now);
    if windows.is_idle() {
        clients.remove(identity)
    } else {
        clients.insert(identity, windows)
    }
}

/// The clients after a sweep at `now`: every client's windows are compacted,
/// and exactly those whose windows are then empty are gone.
pub open spec fn after_sweep(clients: Map<Seq<char>, Windows>, now: Timestamp) -> Map<
    Seq<char>,
    Windows,
> {
    Map::new(
        |identity: Seq<char>|
            clients.contains_key(identity) && !clients[identity].compacted(now).is_idle(),
        |identity: Seq<char>| clients[identity].compacted(now),
    )
}

/// `outcome` is what a check of `identity` at `now` returns on `clients`:
/// the decision, and what is left in each window after it.
pub open spec fn decides(
    outcome: (bool, (usize, usize)),
    clients: Map<Seq<char>, Windows>,
    identity: Seq<char>,
    now: Timestamp,
) -> bool {
    &&& outcome.0 == check_admits(clients, identity, now)
    &&& outcome.1.0 == check_remaining(clients, identity, now).0
    &&& outcome.1.1 == check_remaining(clients, identity, now).1
}

/// What holds of every decision, whatever the clients were: each count of
/// what is left is within its limit; a request that was let through has
/// taken one from each window; a refused one found a window with nothing
/// left.
pub open spec fn consistent(outcome: (bool, (usize, usize))) -> bool {
    &&& outcome.1.0 <= SHORT_LIMIT
    &&& outcome.1.1 <= LONG_LIMIT
    &&& outcome.0 ==> outcome.1.0 < SHORT_LIMIT && outcome.1.1 < LONG_LIMIT
    &&& !outcome.0 ==> outcome.1.0 == 0 || outcome.1.1 == 0
}

/// Every recorded client has a request on record, and no more of them than
/// the limits allow.
pub open spec fn all_active(clients: Map<Seq<char>, Windows>) -> bool {
    forall|identity: Seq<char>| #[trigger]
        clients.contains_key(identity) ==> clients[identity].within_limits()
            && !clients[identity].is_idle()
}

struct Entry {
    identity: String,
    info: RateLimitInfo,
}

spec fn recorded(entries: Seq<Entry>, identity: Seq<char>) -> bool {
    exists|i: int| 0 <= i < entries.len() && (#[trigger] entries[i]).identity@ == identity
}

spec fn place_of(entries: Seq<Entry>, identity: Seq<char>) -> int {
    choose|i: int| 0 <= i < entries.len() && (#[trigger] entries[i]).identity@ == identity
}

spec fn distinct(entries: Seq<Entry>) -> bool {
    forall|i: int, j: int|
        0 <= i < j < entries.len() ==> (#[trigger] entries[i]).identity@ != (
        #[trigger] entries[j]).identity@
}

spec fn active(entries: Seq<Entry>) -> bool {
    forall|i: int|
        0 <= i < entries.len() ==> (#[trigger] entries[i]).info@.within_limits()
            && !entries[i].info@.is_idle()
}

spec fn as_map(entries: Seq<Entry>) -> Map<Seq<char>, Windows> {
    Map::new(
        |identity: Seq<char>| recorded(entries, identity),
        |identity: Seq<char>| entries[place_of(entries, identity)].info@,
    )
}

proof fn lemma_entry_in_map(entries: Seq<Entry>, i: int)
    requires
        distinct(entries),
        0 <= i < entries.len(),
    ensures
        as_map(entries).contains_key(entries[i].identity@),
        as_map(entries)[entries[i].identity@] == entries[i].info@,
{
    let identity = entries[i].identity@;
    assert(recorded(entries, identity));
    let p = place_of(entries, identity);
    assert(entries[p].identity@ == entries[i].identity@);
}

proof fn lemma_map_of_push(entries: Seq<Entry>, entry: Entry)
    requires
        distinct(entries),
        !recorded(entries, entry.identity@),
    ensures
        distinct(entries.push(entry)),
        as_map(entries.push(entry)) == as_map(entries).insert(entry.identity@, entry.info@),
{
    let more = entries.push(entry);
    assert forall|i: int, j: int| 0 <= i < j < more.len() implies (#[trigger] more[i]).identity@
        != (#[trigger] more[j]).identity@ by {
        if j == entries.len() {
            assert(more[i] == entries[i]);
        } else {
            assert(more[i] == entries[i] && more[j] == entries[j]);
        }
    }
    let left = as_map(more);
    let right = as_map(entries).insert(entry.identity@, entry.info@);
    assert forall|identity: Seq<char>| left.contains_key(identity) <==> right.contains_key(
        identity,
    ) by {
        if recorded(more, identity) {
            let p = place_of(more, identity);
            if p < entries.len() {
                assert(entries[p].identity@ == identity);
            }
        }
        if recorded(entries, identity) {
            let p = place_of(entries, identity);
            assert(more[p].identity@ == identity);
        }
        if identity == entry.identity@ {
            assert(more[entries.len() as int].identity@ == identity);
        }
    }
    assert forall|identity: Seq<char>| left.contains_key(identity) implies left[identity]
        == right[identity] by {
        let p = place_of(more, identity);
        lemma_entry_in_map(more, p);
        if p < entries.len() {
            assert(more[p] == entries[p]);
            lemma_entry_in_map(entries, p);
        }
    }
    assert(left =~= right);
}

proof fn lemma_map_of_remove(entries: Seq<Entry>, i: int)
    requires
        distinct(entries),
        0 <= i < entries.len(),
    ensures
        distinct(entries.remove(i)),
        !recorded(entries.remove(i), entries[i].identity@),
        as_map(entries.remove(i)) == as_map(entries).remove(entries[i].identity@),
{
    let fewer = entries.remove(i);
    let gone = entries[i].identity@;
    assert forall|j: int| 0 <= j < fewer.len() implies #[trigger] fewer[j] == entries[if j < i {
        j
    } else {
        j + 1
    }] by {}
    assert forall|a: int, b: int| 0 <= a < b < fewer.len() implies (#[trigger] fewer[a]).identity@
        != (#[trigger] fewer[b]).identity@ by {
        let a0 = if a < i { a } else { a + 1 };
        let b0 = if b < i { b } else { b + 1 };
        assert(fewer[a] == entries[a0] && fewer[b] == entries[b0]);
    }
    if recorded(fewer, gone) {
        let p = place_of(fewer, gone);
        let p0 = if p < i { p } else { p + 1 };
        assert(fewer[p] == entries[p0]);
    }
    let left = as_map(fewer);
    let right = as_map(entries).remove(gone);
    assert forall|identity: Seq<char>| left.contains_key(identity) <==> right.contains_key(
        identity,
    ) by {
        if recorded(fewer, identity) {
            let p = place_of(fewer, identity);
            let p0 = if p < i { p } else { p + 1 };
            assert(fewer[p] == entries[p0]);
            assert(entries[p0].identity@ == identity);
        }
        if recorded(entries, identity) && identity != gone {
            let p = place_of(entries, identity);
            let q = if p < i { p } else { p - 1 };
            assert(fewer[q] == entries[p]);
        }
    }
    assert forall|identity: Seq<char>| left.contains_key(identity) implies left[identity]
        == right[identity] by {
        let p = place_of(fewer, identity);
        let p0 = if p < i { p } else { p + 1 };
        assert(fewer[p] == entries[p0]);
        lemma_entry_in_map(fewer, p);
        lemma_entry_in_map(entries, p0);
    }
    assert(left =~= right);
}

proof fn lemma_map_of_none()
    ensures
        as_map(Seq::<Entry>::empty()) == Map::<Seq<char>, Windows>::empty(),
        distinct(Seq::<Entry>::empty()),
        active(Seq::<Entry>::empty()),
{
    assert(as_map(Seq::<Entry>::empty()) =~= Map::<Seq<char>, Windows>::empty());
}

proof fn lemma_active_map(entries: Seq<Entry>)
    requires
        distinct(entries),
        active(entries),
    ensures
        all_active(as_map(entries)),
{
    assert forall|identity: Seq<char>| #[trigger]
        as_map(entries).contains_key(identity) implies as_map(entries)[identity].within_limits()
        && !as_map(entries)[identity].is_idle() by {
        let p = place_of(entries, identity);
        lemma_entry_in_map(entries, p);
    }
}

proof fn lemma_map_is_finite(entries: Seq<Entry>)
    requires
        distinct(entries),
    ensures
        as_map(entries).dom().finite(),
        as_map(entries).dom().len() == entries.len(),
    decreases entries.len(),
{
    if entries.len() == 0 {
        assert(entries =~= Seq::<Entry>::empty());
        lemma_map_of_none();
    } else {
        let last = entries.len() - 1;
        let rest = entries.remove(last);
        lemma_map_of_remove(entries, last);
        lemma_entry_in_map(entries, last);
        lemma_map_is_finite(rest);
        assert(as_map(entries).dom() =~= as_map(rest).dom().insert(entries[last].identity@));
    }
}

/// The place of the entry of `key`, if there is one.
fn position(entries: &Vec<Entry>, key: &String) -> (found: Option<usize>)
    ensures
        match found {
            Some(i) => i < entries.len() && entries@[i as int].identity@ == key@,
            None => !recorded(entries@, key@),
        },
{
    let mut i: usize = 0;
    while i < entries.len()
        invariant
            i <= entries.len(),
            forall|j: int| 0 <= j < i ==> (#[trigger] entries@[j]).identity@ != key@,
        decreases entries.len() - i,
    {
        if entries[i].identity == *key {
            return Some(i);
        }
        i = i + 1;
    }
    None
}

/// The clients that have recent requests, each with its windows. Its view
/// takes each recorded identity to the windows recorded for it. No recorded
/// client is without a request on record.
pub struct Registry {
    entries: Vec<Entry>,
}

impl View for Registry {
    type V = Map<Seq<char>, Windows>;

    closed spec fn view(&self) -> Map<Seq<char>, Windows> {
        as_map(self.entries@)
    }
}

impl Registry {
    #[verifier::type_invariant]
    spec fn sound(self) -> bool {
        distinct(self.entries@) && active(self.entries@)
    }

    /// A registry without clients.
    pub fn new() -> (registry: Self)
        ensures
            registry@ == Map::<Seq<char>, Windows>::empty(),
    {
        proof {
            lemma_map_of_none();
        }
        Registry { entries: Vec::new() }
    }

    /// Decides on a request of `identity` at `now` and records it if it is
    /// let through. A client that is not yet recorded starts with empty
    /// windows. Returns the decision and what is left in each window after
    /// it. A client whose windows are empty after the decision is dropped
    /// at once; as the rules of admission stand no decision leaves them
    /// empty (`lemma_check_records`).
    pub fn check(&mut self, identity: &str, now: Timestamp) -> (outcome: (bool, (usize, usize)))
        ensures
            decides(outcome, old(self)@, identity@, now),
            final(self)@ == after_check(old(self)@, identity@, now),
            all_active(old(self)@),
            all_active(final(self)@),
            consistent(outcome),
    {
        proof {
            use_type_invariant(&*self);
            lemma_map_of_none();
            lemma_active_map(self.entries@);
            windows_of(self@, identity@).lemma_after_request(now);
        }
        let key = identity.to_owned();
        let mut entries: Vec<Entry> = Vec::new();
        std::mem::swap(&mut self.entries, &mut entries);
        let ghost before = entries@;
        let mut entry = match position(&entries, &key) {
            Some(i) => {
                proof {
                    lemma_entry_in_map(before, i as int);
                    lemma_map_of_remove(before, i as int);
                }
                entries.remove(i)
            },
            None => Entry { identity: key, info: RateLimitInfo::new() },
        };
        assert(entry.info@ == windows_of(as_map(before), identity@));
        assert(!recorded(entries@, identity@));
        let admitted = entry.info.try_admit(now);
        let remaining = entry.info.remaining(now);
        if !entry.info.is_idle() {
            proof {
                lemma_map_of_push(entries@, entry);
                assert(as_map(entries@.push(entry)) =~= after_check(
                    as_map(before),
                    identity@,
                    now,
                ));
            }
            entries.push(entry);
        } else {
            assert(as_map(entries@) =~= after_check(as_map(before), identity@, now));
        }
        proof {
            lemma_active_map(entries@);
        }
        self.entries = entries;
        (admitted, remaining)
    }
    /// Compacts every client's windows at `now` and drops exactly the
    /// clients whose windows are then empty.
    pub fn sweep(&mut self, now: Timestamp)
        ensures
            final(self)@ == after_sweep(old(self)@, now),
            all_active(old(self)@),
            all_active(final(self)@),
    {
        proof {
            use_type_invariant(&*self);
            lemma_map_of_none();
        }
        proof {
            lemma_active_map(self.entries@);
        }
        let mut entries: Vec<Entry> = Vec::new();
        std::mem::swap(&mut self.entries, &mut entries);
        let ghost before = as_map(entries@);
        let mut kept: Vec<Entry> = Vec::new();
        assert(after_sweep(before, now) =~= as_map(kept@).union_prefer_right(
            after_sweep(as_map(entries@), now),
        ));
        while entries.len() > 0
            invariant
                distinct(entries@),
                distinct(kept@),
                active(kept@),
                forall|j: int|
                    0 <= j < kept@.len() ==> !recorded(entries@, (#[trigger] kept@[j]).identity@),
                after_sweep(before, now) == as_map(kept@).union_prefer_right(
                    after_sweep(as_map(entries@), now),
                ),
            decreases entries.len(),
        {
            let ghost pending = entries@;
            let ghost last = pending.len() - 1;
            let ghost held = kept@;
            let mut entry = entries.pop().unwrap();
            let ghost identity = entry.identity@;
            let ghost windows = entry.info@;
            proof {
                assert(entries@ =~= pending.remove(last));
                lemma_entry_in_map(pending, last);
                lemma_map_of_remove(pending, last);
                assert(!recorded(held, identity)) by {
                    if recorded(held, identity) {
                        let p = place_of(held, identity);
                        assert(pending[last].identity@ == held[p].identity@);
                        assert(recorded(pending, held[p].identity@));
                    }
                }
                assert forall|j: int| 0 <= j < held.len() implies !recorded(
                    entries@,
                    (#[trigger] held[j]).identity@,
                ) by {
                    if recorded(entries@, held[j].identity@) {
                        let p = place_of(entries@, held[j].identity@);
                        assert(pending[p].identity@ == held[j].identity@);
                    }
                }
            }
            entry.info.compact(now);
            if !entry.info.is_idle() {
                proof {
                    lemma_map_of_push(held, entry);
                }
                kept.push(entry);
            }
            assert(after_sweep(before, now) =~= as_map(kept@).union_prefer_right(
                after_sweep(as_map(entries@), now),
            ));
        }
        proof {
            assert(entries@ =~= Seq::<Entry>::empty());
            assert(after_sweep(before, now) =~= as_map(kept@));
            lemma_active_map(kept@);
        }
        self.entries = kept;
    }

    /// Whether `identity` is recorded.
    pub fn contains(&self, identity: &str) -> (present: bool)
        ensures
            present == self@.contains_key(identity@),
    {
        let key = identity.to_owned();
        match position(&self.entries, &key) {
            Some(i) => {
                assert(recorded(self.entries@, self.entries@[i as int].identity@));
                true
            },
            None => false,
        }
    }

    /// The number of recorded clients.
    pub fn len(&self) -> (count: usize)
        ensures
            self@.dom().finite(),
            count == self@.dom().len(),
    {
        proof {
            use_type_invariant(self);
            lemma_map_is_finite(self.entries@);
        }
        self.entries.len()
    }
}

} // verus!
