//! The wait-planning half of the scheduler.
//!
//! Each cycle the scheduler reads every source's optional deadline and
//! optional waitable handle, refreshes whatever is already due, and then
//! blocks once for all handles together, bounded by the soonest future
//! deadline. The blocking wait itself is an operating-system call made by
//! the surrounding program; everything decided here — who is due, how long
//! to wait, whom to wake — is computed and verified in this module.

use vstd::prelude::*;

verus! {

/// Milliseconds from `now_ms` to a later deadline `d`, clamped into the
/// wait call's signed 32-bit timeout.
pub open spec fn clamp_wait(d: u64, now_ms: u64) -> int {
    if d - now_ms > i32::MAX {
        i32::MAX as int
    } else {
        d - now_ms
    }
}

/// The indices whose deadline has arrived (deadline at or before `now_ms`),
/// in ascending order.
pub open spec fn due_seq(dl: Seq<Option<u64>>, now_ms: u64) -> Seq<usize>
    decreases dl.len(),
{
    if dl.len() == 0 {
        Seq::empty()
    } else {
        let rest = due_seq(dl.drop_last(), now_ms);
        match dl.last() {
            Some(d) => if d <= now_ms {
                rest.push((dl.len() - 1) as usize)
            } else {
                rest
            },
            None => rest,
        }
    }
}

/// The first index holding the soonest future deadline, with its clamped
/// wait: scanning in registration order, a later source takes over only
/// with a strictly smaller wait, so ties go to the first-registered source.
pub open spec fn min_wait(dl: Seq<Option<u64>>, now_ms: u64) -> Option<(usize, int)>
    decreases dl.len(),
{
    if dl.len() == 0 {
        None
    } else {
        let prev = min_wait(dl.drop_last(), now_ms);
        let last: Option<(usize, int)> = match dl.last() {
            Some(d) => if d > now_ms {
                Some(((dl.len() - 1) as usize, clamp_wait(d, now_ms)))
            } else {
                None
            },
            None => None,
        };
        match (prev, last) {
            (None, x) => x,
            (Some(p), None) => Some(p),
            (Some(p), Some(l)) => if l.1 < p.1 {
                Some(l)
            } else {
                Some(p)
            },
        }
    }
}

/// A chosen soonest deadline is a real future deadline with a wait in the
/// wait call's range.
pub proof fn lemma_min_wait_bounds(dl: Seq<Option<u64>>, now_ms: u64)
    requires
        dl.len() <= usize::MAX,
    ensures
        match min_wait(dl, now_ms) {
            Some(p) => p.0 < dl.len() && (dl[p.0 as int] matches Some(d) && d > now_ms
                && p.1 == clamp_wait(d, now_ms)) && 0 < p.1 <= i32::MAX,
            None => true,
        },
    decreases dl.len(),
{
    if dl.len() > 0 {
        lemma_min_wait_bounds(dl.drop_last(), now_ms);
        match min_wait(dl.drop_last(), now_ms) {
            Some(p) => {
                assert(dl.drop_last()[p.0 as int] == dl[p.0 as int]);
            },
            None => {},
        }
    }
}

/// The due list holds exactly the sources whose deadline has arrived, in
/// ascending order: nobody is refreshed before its own deadline, and nobody
/// due is passed over.
pub proof fn lemma_due_seq_members(dl: Seq<Option<u64>>, now_ms: u64)
    requires
        dl.len() <= usize::MAX,
    ensures
        forall|i: int|
            0 <= i < dl.len() ==> (due_seq(dl, now_ms).contains(i as usize) <==> (
            #[trigger] dl[i] is Some && dl[i].unwrap() <= now_ms)),
        forall|a: int, b: int|
            0 <= a < b < due_seq(dl, now_ms).len() ==> #[trigger] due_seq(dl, now_ms)[a]
                < #[trigger] due_seq(dl, now_ms)[b],
        forall|j: int|
            0 <= j < due_seq(dl, now_ms).len() ==> #[trigger] due_seq(dl, now_ms)[j]
                < dl.len(),
    decreases dl.len(),
{
    if dl.len() > 0 {
        let prefix = dl.drop_last();
        lemma_due_seq_members(prefix, now_ms);
        let rest = due_seq(prefix, now_ms);
        let whole = due_seq(dl, now_ms);
        assert forall|i: int|
            0 <= i < dl.len() implies (whole.contains(i as usize) <==> (#[trigger] dl[i]
            is Some && dl[i].unwrap() <= now_ms)) by {
            if i < dl.len() - 1 {
                assert(dl[i] == prefix[i]);
                if rest.contains(i as usize) {
                    let j = choose|j: int| 0 <= j < rest.len() && rest[j] == i as usize;
                    if whole.len() > rest.len() {
                        assert(whole[j] == i as usize);
                    } else {
                        assert(whole =~= rest);
                    }
                }
                if whole.contains(i as usize) {
                    let j = choose|j: int|
                        0 <= j < whole.len() && whole[j] == i as usize;
                    if j < rest.len() {
                        assert(rest[j] == i as usize);
                    }
                }
            } else {
                if dl[i] is Some && dl[i].unwrap() <= now_ms {
                    assert(whole.last() == i as usize);
                }
                if whole.contains(i as usize) {
                    let j = choose|j: int|
                        0 <= j < whole.len() && whole[j] == i as usize;
                    if j < rest.len() {
                        assert(rest.contains(i as usize));
                        assert(prefix[i] is Some);
                    }
                }
            }
        }
    }
}

/// One cycle's plan: whom to refresh at once, and how to bound the wait.
pub struct WaitPlan {
    /// Sources whose deadline has arrived, in registration order.
    pub due: Vec<usize>,
    /// The wait bound in milliseconds, or -1 for an unbounded wait when no
    /// source has a future deadline.
    pub wait_ms: i32,
    /// The source owning the soonest future deadline; meaningful only when
    /// `wait_ms` is not -1.
    pub soonest: usize,
}

/// Plans one cycle from every source's deadline.
pub fn plan_wait(now_ms: u64, deadlines: &Vec<Option<u64>>) -> (r: WaitPlan)
    ensures
        r.due@ == due_seq(deadlines@, now_ms),
        match min_wait(deadlines@, now_ms) {
            Some(p) => r.wait_ms == p.1 && r.soonest == p.0,
            None => r.wait_ms == -1 && r.soonest == 0,
        },
{
    let n: usize = deadlines.len();
    let mut due: Vec<usize> = Vec::new();
    let mut wait_ms: i32 = -1;
    let mut soonest: usize = 0;
    let mut i: usize = 0;
    while i < n
        invariant
            i <= n == deadlines@.len(),
            due@ == due_seq(deadlines@.subrange(0, i as int), now_ms),
            match min_wait(deadlines@.subrange(0, i as int), now_ms) {
                Some(p) => wait_ms == p.1 && soonest == p.0,
                None => wait_ms == -1 && soonest == 0,
            },
        decreases n - i,
    {
        proof {
            assert(deadlines@.subrange(0, i + 1).drop_last() =~= deadlines@.subrange(0, i as int));
            assert(deadlines@.subrange(0, i + 1).last() == deadlines@[i as int]);
            lemma_min_wait_bounds(deadlines@.subrange(0, i as int), now_ms);
        }
        match deadlines[i] {
            Some(d) => {
                if d <= now_ms {
                    due.push(i);
                } else {
                    let diff_wide: u64 = d - now_ms;
                    let diff: i32 = if diff_wide > i32::MAX as u64 {
                        i32::MAX
                    } else {
                        diff_wide as i32
                    };
                    if wait_ms == -1 || diff < wait_ms {
                        wait_ms = diff;
                        soonest = i;
                    }
                }
            },
            None => {},
        }
        i = i + 1;
    }
    proof {
        assert(deadlines@.subrange(0, n as int) =~= deadlines@);
    }
    WaitPlan { due, wait_ms, soonest }
}

/// The handles of the sources that expose one, in registration order.
pub open spec fn fds_of(s: Seq<Option<i32>>) -> Seq<i32>
    decreases s.len(),
{
    if s.len() == 0 {
        Seq::empty()
    } else {
        let rest = fds_of(s.drop_last());
        match s.last() {
            Some(fd) => rest.push(fd),
            None => rest,
        }
    }
}

/// The indices of the sources that expose a handle, in registration order.
pub open spec fn fd_indices_of(s: Seq<Option<i32>>) -> Seq<usize>
    decreases s.len(),
{
    if s.len() == 0 {
        Seq::empty()
    } else {
        let rest = fd_indices_of(s.drop_last());
        match s.last() {
            Some(_) => rest.push((s.len() - 1) as usize),
            None => rest,
        }
    }
}

/// Collects the waitable handles of every source that exposes one, paired
/// position by position with the index of the owning source.
pub fn pollable_indices(fds: &Vec<Option<i32>>) -> (r: (Vec<i32>, Vec<usize>))
    ensures
        r.0@ == fds_of(fds@),
        r.1@ == fd_indices_of(fds@),
        r.0@.len() == r.1@.len(),
{
    let n: usize = fds.len();
    let mut out_fds: Vec<i32> = Vec::new();
    let mut out_idx: Vec<usize> = Vec::new();
    let mut i: usize = 0;
    while i < n
        invariant
            i <= n == fds@.len(),
            out_fds@ == fds_of(fds@.subrange(0, i as int)),
            out_idx@ == fd_indices_of(fds@.subrange(0, i as int)),
            out_fds@.len() == out_idx@.len(),
        decreases n - i,
    {
        proof {
            assert(fds@.subrange(0, i + 1).drop_last() =~= fds@.subrange(0, i as int));
            assert(fds@.subrange(0, i + 1).last() == fds@[i as int]);
        }
        match fds[i] {
            Some(fd) => {
                out_fds.push(fd);
                out_idx.push(i);
            },
            None => {},
        }
        i = i + 1;
    }
    proof {
        assert(fds@.subrange(0, n as int) =~= fds@);
    }
    (out_fds, out_idx)
}

/// The polled set pairs, position by position, each collected handle with
/// the source that owns it, and no source with a handle is left out.
pub proof fn lemma_pollable_pairing(s: Seq<Option<i32>>)
    requires
        s.len() <= usize::MAX,
    ensures
        fds_of(s).len() == fd_indices_of(s).len(),
        forall|j: int|
            0 <= j < fds_of(s).len() ==> #[trigger] fd_indices_of(s)[j] < s.len()
                && s[fd_indices_of(s)[j] as int] == Some(fds_of(s)[j]),
        forall|i: int|
            0 <= i < s.len() && #[trigger] s[i] is Some ==> fd_indices_of(s).contains(
                i as usize,
            ),
    decreases s.len(),
{
    if s.len() > 0 {
        let prefix = s.drop_last();
        lemma_pollable_pairing(prefix);
        let whole_i = fd_indices_of(s);
        let rest_i = fd_indices_of(prefix);
        assert forall|j: int|
            0 <= j < fds_of(s).len() implies #[trigger] whole_i[j] < s.len() && s[whole_i[j] as int]
            == Some(fds_of(s)[j]) by {
            if j < rest_i.len() {
                assert(whole_i[j] == rest_i[j] && fds_of(s)[j] == fds_of(prefix)[j]);
                assert(s[rest_i[j] as int] == prefix[rest_i[j] as int]);
            }
        }
        assert forall|i: int|
            0 <= i < s.len() && #[trigger] s[i] is Some implies whole_i.contains(i as usize) by {
            if i < s.len() - 1 {
                assert(prefix[i] == s[i]);
                assert(rest_i.contains(i as usize));
                let j = choose|j: int| 0 <= j < rest_i.len() && rest_i[j] == i as usize;
                assert(whole_i[j] == i as usize);
            } else {
                assert(whole_i.last() == i as usize);
            }
        }
    }
}

/// The sources to refresh after a wait: those whose handle, position by
/// position in the polled list, reported readiness.
pub open spec fn ready_of(ready: Seq<bool>, indices: Seq<usize>) -> Seq<usize>
    decreases ready.len(),
{
    if ready.len() == 0 || ready.len() != indices.len() {
        Seq::empty()
    } else {
        let rest = ready_of(ready.drop_last(), indices.drop_last());
        if ready.last() {
            rest.push(indices.last())
        } else {
            rest
        }
    }
}

/// Picks the sources whose handle reported readiness.
pub fn ready_sources(ready: &Vec<bool>, indices: &Vec<usize>) -> (r: Vec<usize>)
    requires
        ready@.len() == indices@.len(),
    ensures
        r@ == ready_of(ready@, indices@),
{
    let n: usize = ready.len();
    let mut out: Vec<usize> = Vec::new();
    let mut i: usize = 0;
    while i < n
        invariant
            i <= n == ready@.len() == indices@.len(),
            out@ == ready_of(ready@.subrange(0, i as int), indices@.subrange(0, i as int)),
        decreases n - i,
    {
        proof {
            assert(ready@.subrange(0, i + 1).drop_last() =~= ready@.subrange(0, i as int));
            assert(indices@.subrange(0, i + 1).drop_last() =~= indices@.subrange(0, i as int));
            assert(ready@.subrange(0, i + 1).last() == ready@[i as int]);
            assert(indices@.subrange(0, i + 1).last() == indices@[i as int]);
        }
        if ready[i] {
            out.push(indices[i]);
        }
        i = i + 1;
    }
    proof {
        assert(ready@.subrange(0, n as int) =~= ready@);
        assert(indices@.subrange(0, n as int) =~= indices@);
    }
    out
}

} // verus!
