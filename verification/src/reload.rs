//! When the broker loads its templates anew: on request, but never sooner
//! than a set time after the last load. A request waits until a load is due,
//! and that load uses it up.

use vstd::prelude::*;

verus! {

/// The time of the last load and the least time between two loads, both in
/// milliseconds of one steady clock, and whether a request for a load is
/// waiting.
#[derive(Debug, Clone, Copy)]
pub struct ReloadClock {
    pub last_reload: u64,
    pub min_interval: u64,
    pub pending: bool,
}

/// The least time between two loads unless another is set: 15 seconds.
pub const MIN_RELOAD_INTERVAL: u64 = 15_000;

/// What is asked at the accept of a connection: whether a reload has been
/// requested since the accept before, and the time.
pub type Accept = (bool, u64);

impl ReloadClock {
    /// Whether a load is due at `now`: one has been requested, now or
    /// earlier, and at least the least interval has passed since the last
    /// load.
    pub open spec fn due(self, requested: bool, now: u64) -> bool {
        (self.pending || requested) && now >= self.last_reload && now - self.last_reload
            >= self.min_interval
    }

    /// The clock after the accept of a connection: a load that is due uses
    /// up the request, and a request for a load that is not due waits.
    pub open spec fn after(self, a: Accept) -> ReloadClock {
        if self.due(a.0, a.1) {
            ReloadClock { last_reload: a.1, pending: false, ..self }
        } else {
            ReloadClock { pending: self.pending || a.0, ..self }
        }
    }

    /// The clock after the accepts `accepts[..k]`.
    pub open spec fn after_all(self, accepts: Seq<Accept>, k: int) -> ReloadClock
        decreases k,
    {
        if k <= 0 {
            self
        } else {
            self.after_all(accepts, k - 1).after(accepts[k - 1])
        }
    }

    /// Whether the accept `accepts[k]` loads the templates anew.
    pub open spec fn reloads_at(self, accepts: Seq<Accept>, k: int) -> bool {
        self.after_all(accepts, k).due(accepts[k].0, accepts[k].1)
    }

    /// A clock whose last load was at `now`, with no request waiting.
    pub fn new(now: u64, min_interval: u64) -> (c: ReloadClock)
        ensures
            c == (ReloadClock { last_reload: now, min_interval, pending: false }),
    {
        ReloadClock { last_reload: now, min_interval, pending: false }
    }

    /// Decides at the accept of a connection whether the templates are
    /// loaded anew. `requested` says whether a load was requested since the
    /// accept before. A load takes `now` as the time of the last load and
    /// uses up every request made so far; without a load, a request waits.
    pub fn on_accept(&mut self, requested: bool, now: u64) -> (reload: bool)
        ensures
            reload == old(self).due(requested, now),
            *final(self) == old(self).after((requested, now)),
            reload ==> !final(self).pending,
    {
        let asked = self.pending || requested;
        if asked && now >= self.last_reload && now - self.last_reload >= self.min_interval {
            self.last_reload = now;
            self.pending = false;
            true
        } else {
            self.pending = asked;
            false
        }
    }
}

/// From one load to the next at least the least interval passes, however
/// often a reload is requested: of two accepts that both load the templates
/// anew, the later comes at least the least interval after the earlier.
pub proof fn lemma_rate_limit(c: ReloadClock, accepts: Seq<Accept>, i: int, j: int)
    requires
        0 <= i < j < accepts.len(),
        c.reloads_at(accepts, i),
        c.reloads_at(accepts, j),
    ensures
        accepts[j].1 - accepts[i].1 >= c.min_interval,
{
    lemma_last_reload(c, accepts, i, j);
}

/// A load uses up the request: of two accepts that both load the templates
/// anew, the later was requested after the earlier.
pub proof fn lemma_request_used_up(c: ReloadClock, accepts: Seq<Accept>, i: int, j: int)
    requires
        0 <= i < j < accepts.len(),
        c.reloads_at(accepts, i),
        c.reloads_at(accepts, j),
    ensures
        exists|k: int| i < k <= j && (#[trigger] accepts[k]).0,
{
    if forall|k: int| i < k < j ==> !(#[trigger] accepts[k]).0 {
        lemma_nothing_waits(c, accepts, i, j);
        assert(accepts[j].0);
    } else {
        let k = choose|k: int| i < k < j && (#[trigger] accepts[k]).0;
        assert(i < k <= j && accepts[k].0);
    }
}

/// After the accept `accepts[i]` has loaded the templates, no request waits
/// as long as none is made.
proof fn lemma_nothing_waits(c: ReloadClock, accepts: Seq<Accept>, i: int, k: int)
    requires
        0 <= i < k <= accepts.len(),
        c.reloads_at(accepts, i),
        forall|m: int| i < m < k ==> !(#[trigger] accepts[m]).0,
    ensures
        !c.after_all(accepts, k).pending,
    decreases k,
{
    if k > i + 1 {
        lemma_nothing_waits(c, accepts, i, k - 1);
        assert(!accepts[k - 1].0);
    }
}

/// After the accept `accepts[i]` has loaded the templates, the last load is
/// never earlier than that accept, and the interval stays as it was.
proof fn lemma_last_reload(c: ReloadClock, accepts: Seq<Accept>, i: int, k: int)
    requires
        0 <= i < k <= accepts.len(),
        c.reloads_at(accepts, i),
    ensures
        c.after_all(accepts, k).last_reload >= accepts[i].1,
        c.after_all(accepts, k).min_interval == c.min_interval,
    decreases k,
{
    lemma_interval_kept(c, accepts, k);
    if k > i + 1 {
        lemma_last_reload(c, accepts, i, k - 1);
    }
}

proof fn lemma_interval_kept(c: ReloadClock, accepts: Seq<Accept>, k: int)
    ensures
        c.after_all(accepts, k).min_interval == c.min_interval,
    decreases k,
{
    if k > 0 {
        lemma_interval_kept(c, accepts, k - 1);
    }
}

} // verus!
