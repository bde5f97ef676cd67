//! The event loop's bookkeeping: the timers of an execution, and what the loop waits for
//! once everything that is ready has run.

use vstd::prelude::*;

use crate::time;

verus! {

/// Jobs that are due at an instant, in nanoseconds. Each instant holds one job at most.
#[derive(Debug)]
pub struct Timers<T> {
    entries: Vec<(u128, T)>,
}

/// Earlier entries are due earlier.
pub open spec fn in_order<T>(entries: Seq<(u128, T)>) -> bool {
    forall|i: int, j: int|
        0 <= i < j < entries.len() ==> (#[trigger] entries[i]).0 < (#[trigger] entries[j]).0
}

/// The entries hold this job for this instant.
pub open spec fn holds<T>(entries: Seq<(u128, T)>, at: u128, job: T) -> bool {
    entries.contains((at, job))
}

/// How many of the entries are due before `now`.
pub open spec fn due_before<T>(entries: Seq<(u128, T)>, now: u128) -> nat
    decreases entries.len(),
{
    if entries.len() == 0 || entries[0].0 >= now {
        0
    } else {
        1 + due_before(entries.skip(1), now)
    }
}

proof fn lemma_due_before<T>(entries: Seq<(u128, T)>, now: u128, k: int)
    requires
        0 <= k <= entries.len(),
        forall|i: int| 0 <= i < k ==> (#[trigger] entries[i]).0 < now,
        k < entries.len() ==> entries[k].0 >= now,
    ensures
        due_before(entries, now) == k,
    decreases k,
{
    if k > 0 {
        assert forall|i: int| 0 <= i < k - 1 implies (#[trigger] entries.skip(1)[i]).0 < now by {
            assert(entries[i + 1].0 < now);
        }
        assert(entries[0].0 < now);
        assert(k < entries.len() ==> entries.skip(1)[k - 1] == entries[k]);
        lemma_due_before(entries.skip(1), now, k - 1);
    }
}

/// Those of the entries that are kept, in order: all but those flagged to go.
pub open spec fn kept<T>(entries: Seq<(u128, T)>, keep: Seq<bool>, n: nat) -> Seq<(u128, T)>
    decreases n,
{
    if n == 0 {
        Seq::empty()
    } else if n > keep.len() || keep[n - 1] {
        kept(entries, keep, (n - 1) as nat).push(entries[n - 1])
    } else {
        kept(entries, keep, (n - 1) as nat)
    }
}

impl<T> Timers<T> {
    /// The jobs, in the order in which they are due.
    pub closed spec fn entries(self) -> Seq<(u128, T)> {
        self.entries@
    }

    #[verifier::type_invariant]
    spec fn ordered(self) -> bool {
        in_order(self.entries@)
    }

    /// No jobs.
    pub fn new() -> (timers: Self)
        ensures
            timers.entries() == Seq::<(u128, T)>::empty(),
            in_order(timers.entries()),
    {
        Timers { entries: Vec::new() }
    }

    fn take_entries(&mut self) -> (entries: Vec<(u128, T)>)
        ensures
            entries@ == old(self).entries(),
    {
        let mut empty: Timers<T> = Timers::new();
        std::mem::swap(self, &mut empty);
        empty.entries
    }

    /// Adds a job. A job that was due at the very same instant gives way to it.
    pub fn insert(&mut self, at: u128, job: T)
        ensures
            in_order(final(self).entries()),
            forall|t: u128, j: T| #[trigger]
                holds(final(self).entries(), t, j) <==> if t == at {
                    j == job
                } else {
                    holds(old(self).entries(), t, j)
                },
    {
        proof {
            use_type_invariant(&*self);
        }
        let mut entries: Vec<(u128, T)> = self.take_entries();
        let ghost before = entries@;
        let mut i: usize = 0;
        while i < entries.len() && entries[i].0 < at
            invariant
                entries@ == before,
                i <= before.len(),
                forall|j: int| 0 <= j < i ==> (#[trigger] before[j]).0 < at,
            decreases before.len() - i,
        {
            i = i + 1;
        }
        if i < entries.len() && entries[i].0 == at {
            entries.set(i, (at, job));
            proof {
                let after = entries@;
                assert(after == before.update(i as int, (at, job)));
                assert forall|t: u128, j: T| #[trigger] holds(after, t, j) <==> if t == at {
                    j == job
                } else {
                    holds(before, t, j)
                } by {
                    if holds(after, t, j) {
                        let k = choose|k: int| 0 <= k < after.len() && after[k] == (t, j);
                        if k != i {
                            assert(before[k] == (t, j));
                        }
                    }
                    if t == at && j == job {
                        assert(after[i as int] == (t, j));
                    }
                    if t != at && holds(before, t, j) {
                        let k = choose|k: int| 0 <= k < before.len() && before[k] == (t, j);
                        assert(after[k] == (t, j));
                    }
                }
            }
        } else {
            entries.insert(i, (at, job));
            proof {
                let after = entries@;
                assert(after == before.insert(i as int, (at, job)));
                assert(i < before.len() ==> before[i as int].0 > at);
                assert forall|a: int, b: int| 0 <= a < b < after.len() implies (
                #[trigger] after[a]).0 < (#[trigger] after[b]).0 by {
                    let x = if a < i {
                        a
                    } else {
                        a - 1
                    };
                    let y = if b < i {
                        b
                    } else {
                        b - 1
                    };
                    if a != i {
                        assert(after[a] == before[x]);
                    }
                    if b != i {
                        assert(after[b] == before[y]);
                    }
                    if a != i && b != i {
                        assert(before[x].0 < before[y].0);
                    } else if a == i {
                        assert(before[y].0 >= before[i as int].0);
                    } else {
                        assert(before[x].0 < at);
                    }
                }
                assert forall|t: u128, j: T| #[trigger] holds(after, t, j) <==> if t == at {
                    j == job
                } else {
                    holds(before, t, j)
                } by {
                    if holds(after, t, j) {
                        let k = choose|k: int| 0 <= k < after.len() && after[k] == (t, j);
                        if k < i {
                            assert(before[k] == (t, j));
                        } else if k > i {
                            assert(before[k - 1] == (t, j));
                            assert(before[k - 1].0 >= before[i as int].0);
                        }
                    }
                    if t == at && j == job {
                        assert(after[i as int] == (t, j));
                    }
                    if t != at && holds(before, t, j) {
                        let k = choose|k: int| 0 <= k < before.len() && before[k] == (t, j);
                        if k < i {
                            assert(after[k] == (t, j));
                        } else {
                            assert(after[k + 1] == (t, j));
                        }
                    }
                }
            }
        }
        *self = Timers { entries };
    }

    /// Takes out the jobs that are due before `now`, in the order in which they are
    /// due.
    pub fn take_due(&mut self, now: u128) -> (due: Vec<(u128, T)>)
        ensures
            ({
                let all = old(self).entries();
                let k = due_before(all, now) as int;
                &&& k <= all.len()
                &&& due@ == all.take(k)
                &&& final(self).entries() == all.skip(k)
            }),
            in_order(final(self).entries()),
            forall|i: int| 0 <= i < due@.len() ==> (#[trigger] due@[i]).0 < now,
            forall|i: int|
                0 <= i < final(self).entries().len() ==> (#[trigger] final(self).entries()[i]).0
                    >= now,
    {
        proof {
            use_type_invariant(&*self);
        }
        let mut entries: Vec<(u128, T)> = self.take_entries();
        let ghost all = entries@;
        let mut k: usize = 0;
        while k < entries.len() && entries[k].0 < now
            invariant
                entries@ == all,
                k <= all.len(),
                forall|i: int| 0 <= i < k ==> (#[trigger] all[i]).0 < now,
            decreases all.len() - k,
        {
            k = k + 1;
        }
        proof {
            lemma_due_before(all, now, k as int);
        }
        let later: Vec<(u128, T)> = entries.split_off(k);
        proof {
            assert(entries@ =~= all.take(k as int));
            assert(later@ =~= all.skip(k as int));
            assert forall|i: int| 0 <= i < later@.len() implies (
            #[trigger] later@[i]).0 >= now by {
                assert(later@[i] == all[k + i]);
                if i > 0 {
                    assert(all[k as int].0 < all[k + i].0);
                }
            }
        }
        *self = Timers { entries: later };
        entries
    }

    /// How many jobs there are.
    pub fn len(&self) -> (n: usize)
        ensures
            n == self.entries().len(),
    {
        self.entries.len()
    }

    /// The `i`-th job in the order in which they are due.
    pub fn job(&self, i: usize) -> (job: Option<&T>)
        ensures
            if i < self.entries().len() {
                job is Some && *job->0 == self.entries()[i as int].1
            } else {
                job is None
            },
    {
        if i < self.entries.len() {
            Some(&self.entries[i].1)
        } else {
            None
        }
    }

    /// Drops the jobs whose flag says so. A job without a flag is kept.
    pub fn retain(&mut self, keep: &Vec<bool>)
        ensures
            in_order(final(self).entries()),
            final(self).entries() == kept(
                old(self).entries(),
                keep@,
                old(self).entries().len(),
            ),
    {
        proof {
            use_type_invariant(&*self);
        }
        let entries: Vec<(u128, T)> = self.take_entries();
        let ghost all = entries@;
        assert(all.len() == entries.len());
        let mut left: Vec<(u128, T)> = Vec::new();
        let mut i: usize = 0;
        for entry in it: entries
            invariant
                it.seq() == all,
                i == it.index(),
                all.len() <= usize::MAX,
                in_order(all),
                left@ == kept(all, keep@, i as nat),
                in_order(left@),
                forall|a: int|
                    0 <= a < left@.len() ==> i > 0 && (#[trigger] left@[a]).0 <= all[i - 1].0,
        {
            if i >= keep.len() || keep[i] {
                left.push(entry);
            }
            proof {
                if i > 0 {
                    assert(all[i - 1].0 < all[i as int].0);
                }
            }
            assert(i < all.len());
            i = i + 1;
        }
        *self = Timers { entries: left };
    }

    /// When the next job is due, in milliseconds.
    pub fn next_due_ms(&self) -> (ms: Option<u64>)
        ensures
            match ms {
                Some(ms) => self.entries().len() > 0 && ms == millis(self.entries()[0].0),
                None => self.entries().len() == 0,
            },
    {
        if self.entries.len() == 0 {
            None
        } else {
            Some(millis_of(self.entries[0].0))
        }
    }
}

/// An instant in milliseconds, as far as 64 bits hold it.
pub open spec fn millis(nanos: u128) -> nat {
    time::low_bits(nanos as nat / time::NANOS_PER_MILLI as nat)
}

/// An instant in milliseconds.
pub fn millis_of(nanos: u128) -> (ms: u64)
    ensures
        ms == millis(nanos),
{
    time::low_half(nanos / (time::NANOS_PER_MILLI as u128))
}

/// Of two jobs the one that is due earlier runs earlier; a job never runs before it is
/// due, and one that is due later is not lost.
pub proof fn law_timers_run_when_due<T>(entries: Seq<(u128, T)>, now: u128)
    requires
        in_order(entries),
    ensures
        due_before(entries, now) <= entries.len(),
        forall|i: int|
            0 <= i < entries.len() ==> ((#[trigger] entries[i]).0 < now <==> i < due_before(
                entries,
                now,
            )),
    decreases entries.len(),
{
    if entries.len() > 0 {
        let rest = entries.skip(1);
        assert forall|i: int, j: int| 0 <= i < j < rest.len() implies (#[trigger] rest[i]).0 < (
        #[trigger] rest[j]).0 by {
            assert(entries[i + 1].0 < entries[j + 1].0);
        }
        law_timers_run_when_due(rest, now);
        assert forall|i: int| 0 <= i < entries.len() implies ((#[trigger] entries[i]).0 < now <==> i
            < due_before(entries, now)) by {
            if i > 0 {
                assert(rest[i - 1] == entries[i]);
                assert(entries[0].0 < entries[i].0);
            }
        }
    }
}

/// What the event loop does once everything that was ready has run.
#[derive(Debug, Clone, Copy, PartialEq, Eq, Structural)]
pub enum Pause {
    /// Nothing is left: the loop returns.
    Done,
    /// More synchronous work is queued: let others run, then go on.
    Yield,
    /// Wait for an asynchronous job, but for no longer than this many milliseconds.
    JobOrSleep(u64),
    /// Wait for an asynchronous job.
    Job,
    /// Wait this many milliseconds.
    Sleep(u64),
}

/// The milliseconds until something is due.
pub open spec fn until(due_ms: u64, now_ms: u64) -> u64 {
    if due_ms > now_ms {
        (due_ms - now_ms) as u64
    } else {
        0
    }
}

/// What the loop does next. Ready synchronous work (promise and generic jobs) drains on
/// the next turn. A timer that isn't due yet is *not* ready: its instant is waited for.
pub open spec fn next_pause(
    has_ready_micro: bool,
    has_async: bool,
    next_due_ms: Option<u64>,
    now_ms: u64,
) -> Pause {
    if has_ready_micro {
        Pause::Yield
    } else {
        match (has_async, next_due_ms) {
            (true, Some(due_ms)) => Pause::JobOrSleep(until(due_ms, now_ms)),
            (true, None) => Pause::Job,
            (false, Some(due_ms)) => Pause::Sleep(until(due_ms, now_ms)),
            (false, None) => Pause::Done,
        }
    }
}

/// Decides what the event loop waits for: the nearest timer or an asynchronous job,
/// whichever is first, instead of busy-polling, so that a pending timer can't peg the
/// thread that all executions share.
pub fn pause(
    has_ready_micro: bool,
    has_async: bool,
    next_due_ms: Option<u64>,
    now_ms: u64,
) -> (next: Pause)
    ensures
        next == next_pause(has_ready_micro, has_async, next_due_ms, now_ms),
{
    if has_ready_micro {
        return Pause::Yield;
    }
    let sleep_ms: Option<u64> = match next_due_ms {
        Some(due_ms) => Some(
            if due_ms > now_ms {
                due_ms - now_ms
            } else {
                0
            },
        ),
        None => None,
    };
    match (has_async, sleep_ms) {
        (true, Some(ms)) => Pause::JobOrSleep(ms),
        (true, None) => Pause::Job,
        (false, Some(ms)) => Pause::Sleep(ms),
        (false, None) => Pause::Done,
    }
}

/// The loop returns exactly when no work of any kind is left, and goes on without waiting
/// exactly when synchronous work is ready; otherwise it waits, and never past the
/// instant at which the next timer is due.
pub proof fn law_loop_neither_stops_early_nor_spins(
    has_ready_micro: bool,
    has_async: bool,
    next_due_ms: Option<u64>,
    now_ms: u64,
)
    ensures
        ({
            let next = next_pause(has_ready_micro, has_async, next_due_ms, now_ms);
            &&& next == Pause::Done <==> !has_ready_micro && !has_async && next_due_ms is None
            &&& next == Pause::Yield <==> has_ready_micro
            &&& (next matches Pause::Sleep(ms) ==> next_due_ms is Some && (now_ms < next_due_ms->0
                ==> now_ms + ms == next_due_ms->0) && (now_ms >= next_due_ms->0 ==> ms == 0))
            &&& (next matches Pause::JobOrSleep(ms) ==> next_due_ms is Some && (now_ms
                < next_due_ms->0 ==> now_ms + ms == next_due_ms->0) && (now_ms >= next_due_ms->0
                ==> ms == 0))
            &&& next == Pause::Job ==> next_due_ms is None
        }),
{
}

/// Of some jobs in order exactly those are kept that are not flagged to go, and they stay
/// in order.
pub proof fn law_jobs_are_dropped_only_where_flagged<T>(
    entries: Seq<(u128, T)>,
    keep: Seq<bool>,
    n: nat,
)
    requires
        in_order(entries),
        n <= entries.len(),
    ensures
        in_order(kept(entries, keep, n)),
        forall|i: int|
            0 <= i < n ==> (kept(entries, keep, n).contains(#[trigger] entries[i]) <==> (i
                >= keep.len() || keep[i])),
        forall|k: int|
            0 <= k < kept(entries, keep, n).len() ==> exists|i: int|
                0 <= i < n && #[trigger] entries[i] == #[trigger] kept(entries, keep, n)[k],
    decreases n,
{
    if n > 0 {
        let m = (n - 1) as nat;
        let rest = kept(entries, keep, m);
        let all = kept(entries, keep, n);
        law_jobs_are_dropped_only_where_flagged(entries, keep, m);
        assert forall|k: int| 0 <= k < rest.len() implies (#[trigger] rest[k]).0
            < entries[m as int].0 by {
            let i = choose|i: int| 0 <= i < m && #[trigger] entries[i] == rest[k];
            assert(entries[i].0 < entries[m as int].0);
        }
        assert forall|i: int| 0 <= i < n implies (all.contains(#[trigger] entries[i]) <==> (i
            >= keep.len() || keep[i])) by {
            if i < m {
                if rest.contains(entries[i]) {
                    let k = choose|k: int| 0 <= k < rest.len() && rest[k] == entries[i];
                    assert(all[k] == entries[i]);
                }
                if all.contains(entries[i]) {
                    let k = choose|k: int| 0 <= k < all.len() && all[k] == entries[i];
                    assert(entries[i].0 < entries[m as int].0);
                    assert(k < rest.len());
                    assert(rest[k] == entries[i]);
                }
            } else if i >= keep.len() || keep[i] {
                assert(all.last() == entries[i]);
            } else if rest.contains(entries[i]) {
                let k = choose|k: int| 0 <= k < rest.len() && rest[k] == entries[i];
                assert(rest[k].0 < entries[m as int].0);
            }
        }
        assert forall|k: int| 0 <= k < all.len() implies exists|i: int|
            0 <= i < n && #[trigger] entries[i] == #[trigger] all[k] by {
            if k < rest.len() {
                let i = choose|i: int| 0 <= i < m && #[trigger] entries[i] == rest[k];
                assert(entries[i] == all[k]);
            } else {
                assert(entries[m as int] == all[k]);
            }
        }
    }
}

/// The loop waits for exactly what is left: an asynchronous job where there is one, the
/// next timer where there is one, and whichever comes first where there are both.
pub proof fn law_loop_waits_for_what_is_left(
    has_async: bool,
    next_due_ms: Option<u64>,
    now_ms: u64,
)
    ensures
        ({
            let next = next_pause(false, has_async, next_due_ms, now_ms);
            &&& has_async && next_due_ms is Some <==> next is JobOrSleep
            &&& has_async && next_due_ms is None <==> next is Job
            &&& !has_async && next_due_ms is Some <==> next is Sleep
            &&& !has_async && next_due_ms is None <==> next is Done
        }),
        next_pause(true, has_async, next_due_ms, now_ms) == Pause::Yield,
{
}

/// An instant is shown in whole milliseconds: never past it, and less than one before it.
pub proof fn law_instants_are_whole_milliseconds(nanos: u128)
    requires
        nanos / 1_000_000 <= u64::MAX,
    ensures
        millis(nanos) * 1_000_000 <= nanos < (millis(nanos) + 1) * 1_000_000,
{
    time::law_low_bits_wrap_around(nanos as nat / 1_000_000);
}

/// Jobs are kept in the order of their instants, of which no two are the same.
pub proof fn law_jobs_stand_in_order_of_their_instants<T>(
    entries: Seq<(u128, T)>,
    i: int,
    j: int,
    at: u128,
    job: T,
)
    ensures
        in_order(entries) && 0 <= i < j < entries.len() ==> entries[i].0 < entries[j].0,
        holds(entries, at, job) <==> exists|k: int|
            0 <= k < entries.len() && #[trigger] entries[k] == (at, job),
{
    if holds(entries, at, job) {
        let k = choose|k: int| 0 <= k < entries.len() && entries[k] == (at, job);
        assert(entries[k] == (at, job));
    }
}

} // verus!
