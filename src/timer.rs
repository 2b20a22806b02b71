use vstd::prelude::*;
use crate::window::{
    as_ints, history, keep_last, lemma_history_len, lemma_keep_last_push, lemma_push_sample,
    lemma_sum_subrange_le, open_window, sum, window_means,
};

verus! {

/// Severity of a log record.
#[derive(Clone, Copy, Debug, PartialEq, Eq, Structural)]
pub enum LogLevel {
    Info,
    Warn,
    Error,
}

impl LogLevel {
    /// The fixed-width tag shown in front of a record.
    pub fn tag(&self) -> (r: &'static str)
        ensures
            *self == LogLevel::Info ==> r@ == "INFO "@,
            *self == LogLevel::Warn ==> r@ == "WARN "@,
            *self == LogLevel::Error ==> r@ == "ERROR"@,
    {
        match self {
            LogLevel::Info => "INFO ",
            LogLevel::Warn => "WARN ",
            LogLevel::Error => "ERROR",
        }
    }
}

/// A log record: a level and its message.
pub struct Log {
    pub level: LogLevel,
    pub log: String,
}

/// `after` is `before` with one more record of the given level and message.
pub open spec fn appended(before: Seq<Log>, after: Seq<Log>, level: LogLevel, msg: Seq<char>) -> bool {
    &&& after.len() == before.len() + 1
    &&& after.drop_last() == before
    &&& after.last().level == level
    &&& after.last().log@ == msg
}

/// Relies on `std::time::Instant`: an opaque reading of the monotonic clock.
#[verifier::external_type_specification]
#[verifier::external_body]
pub struct ExInstant(std::time::Instant);

/// Relies on `std::time::Instant::now`: reads the monotonic clock; nothing is
/// promised about the reading.
pub assume_specification[ std::time::Instant::now ]() -> std::time::Instant;

/// Relies on `std::time::Instant::elapsed`: the time since the reading; it
/// depends on the clock, so nothing is promised about it.
pub assume_specification[ std::time::Instant::elapsed ](i: &std::time::Instant) -> core::time::Duration;

/// Relies on `core::time::Duration::as_nanos`: the whole nanoseconds of a
/// duration, which is opaque here, so nothing is promised about them.
pub assume_specification[ core::time::Duration::as_nanos ](d: &core::time::Duration) -> u128;

/// Runs `body` once and returns its result with the nanoseconds it took.
pub fn measure<T, F: FnOnce() -> T>(body: F) -> (r: (T, u128))
    requires
        body.requires(()),
    ensures
        body.ensures((), r.0),
{
    let start = std::time::Instant::now();
    let output = body();
    let nanos = start.elapsed().as_nanos();
    (output, nanos)
}

/// Times the iterations of one scope.
///
/// `W` is the number of iterations averaged into one mean, `A` the number of
/// recent means kept. The ghost sequence of samples holds every accepted
/// duration in nanoseconds, in order; every counter is a function of it.
pub struct Timer<const W: usize, const A: usize> {
    total_count: usize,
    total_time: usize,
    current_count: usize,
    current_time: usize,
    recent_averages: Vec<usize>,
    logs: Vec<Log>,
    samples: Ghost<Seq<usize>>,
}

impl<const W: usize, const A: usize> Timer<W, A> {
    /// Every duration accepted so far, oldest first.
    pub closed spec fn samples(&self) -> Seq<usize> {
        self.samples@
    }

    /// The retained window means, oldest first.
    pub closed spec fn means(&self) -> Seq<usize> {
        self.recent_averages@
    }

    /// The log records not yet drained, oldest first.
    pub closed spec fn logs(&self) -> Seq<Log> {
        self.logs@
    }

    pub closed spec fn spec_total_count(&self) -> nat {
        self.total_count as nat
    }

    pub closed spec fn spec_total_time(&self) -> nat {
        self.total_time as nat
    }

    pub closed spec fn spec_current_count(&self) -> nat {
        self.current_count as nat
    }

    pub closed spec fn spec_current_time(&self) -> nat {
        self.current_time as nat
    }

    /// The counters agree with the samples.
    pub open spec fn wf(&self) -> bool {
        let s = self.samples();
        &&& W > 0
        &&& A > 0
        &&& self.spec_total_count() == s.len()
        &&& self.spec_total_time() == sum(s)
        &&& self.spec_current_count() == (s.len() as int) % (W as int)
        &&& self.spec_current_time() == sum(open_window(s, W as nat))
        &&& as_ints(self.means()) == history(s, W as nat, A as nat)
    }

    /// A timer that has seen no iteration and holds no log.
    pub fn new() -> (r: Self)
        requires
            W > 0,
            A > 0,
        ensures
            r.wf(),
            r.samples() == Seq::<usize>::empty(),
            sum(r.samples()) == 0,
            r.logs() == Seq::<Log>::empty(),
    {
        let r = Timer {
            total_count: 0,
            total_time: 0,
            current_count: 0,
            current_time: 0,
            recent_averages: Vec::with_capacity(A),
            logs: Vec::new(),
            samples: Ghost(Seq::empty()),
        };
        proof {
            assert(as_ints(r.recent_averages@) =~= history(Seq::<usize>::empty(), W as nat, A as nat));
            assert(open_window(Seq::<usize>::empty(), W as nat) =~= Seq::<usize>::empty());
        }
        r
    }

    pub fn total_count(&self) -> (r: usize)
        ensures
            r == self.spec_total_count(),
    {
        self.total_count
    }

    pub fn total_time(&self) -> (r: usize)
        ensures
            r == self.spec_total_time(),
    {
        self.total_time
    }

    pub fn current_count(&self) -> (r: usize)
        ensures
            r == self.spec_current_count(),
    {
        self.current_count
    }

    pub fn current_time(&self) -> (r: usize)
        ensures
            r == self.spec_current_time(),
    {
        self.current_time
    }

    /// The retained window means, oldest first.
    pub fn recent_averages(&self) -> (r: &Vec<usize>)
        ensures
            r@ == self.means(),
    {
        &self.recent_averages
    }

    /// The log records not yet drained, oldest first.
    pub fn pending_logs(&self) -> (r: &Vec<Log>)
        ensures
            r@ == self.logs(),
    {
        &self.logs
    }

    /// Whether a duration of `loop_time` can be accepted without overflowing
    /// the counters.
    pub fn can_add(&self, loop_time: usize) -> (r: bool)
        requires
            self.wf(),
        ensures
            r == (self.samples().len() < usize::MAX && sum(self.samples()) + loop_time <= usize::MAX),
    {
        self.total_count < usize::MAX && loop_time <= usize::MAX - self.total_time
    }

    /// Records one iteration that took `loop_time` nanoseconds: the counters
    /// advance and, when the window fills, its mean joins the history and the
    /// oldest mean is evicted if the history is full.
    pub fn add_time(&mut self, loop_time: usize)
        requires
            old(self).wf(),
            old(self).samples().len() < usize::MAX,
            sum(old(self).samples()) + loop_time <= usize::MAX,
        ensures
            final(self).wf(),
            final(self).samples() == old(self).samples().push(loop_time),
            sum(final(self).samples()) == sum(old(self).samples()) + loop_time,
            final(self).logs() == old(self).logs(),
    {
        let ghost s = self.samples@;
        let ghost n = s.len() as int;
        proof {
            lemma_push_sample(s, W as nat, loop_time);
            vstd::arithmetic::div_mod::lemma_mod_decreases(n as nat, W as nat);
            vstd::arithmetic::div_mod::lemma_mod_pos_bound(n, W as int);
            lemma_sum_subrange_le(s, n - n % (W as int), n);
            lemma_keep_last_push(window_means(s, W as nat), A as nat, (sum(open_window(s, W as nat)) + loop_time) / (W as int));
        }
        self.total_time = self.total_time + loop_time;
        self.current_time = self.current_time + loop_time;
        self.total_count = self.total_count + 1;
        self.current_count = self.current_count + 1;
        self.samples = Ghost(s.push(loop_time));
        if self.current_count == W {
            self.current_count = 0;
            let window_time = self.current_time;
            self.current_time = 0;
            let recent_average = window_time / W;
            let ghost before = self.recent_averages@;
            if self.recent_averages.len() == A {
                self.recent_averages.remove(0);
            }
            self.recent_averages.push(recent_average);
            proof {
                let m = keep_last(window_means(s, W as nat), A as nat);
                assert(as_ints(before) == m);
                if before.len() == A {
                    assert(as_ints(self.recent_averages@) =~= m.drop_first().push(recent_average as int));
                } else {
                    assert(as_ints(self.recent_averages@) =~= m.push(recent_average as int));
                }
            }
        }
    }

    /// Records a measured duration if it fits the counters; otherwise leaves
    /// the timer as it was. Returns whether it was recorded.
    pub fn record_nanos(&mut self, nanos: u128) -> (recorded: bool)
        requires
            old(self).wf(),
        ensures
            final(self).wf(),
            final(self).logs() == old(self).logs(),
            recorded == (nanos <= usize::MAX as u128 && old(self).samples().len() < usize::MAX
                && sum(old(self).samples()) + nanos <= usize::MAX),
            recorded ==> final(self).samples() == old(self).samples().push(nanos as usize),
            !recorded ==> final(self).samples() == old(self).samples(),
    {
        if nanos <= usize::MAX as u128 && self.can_add(nanos as usize) {
            self.add_time(nanos as usize);
            true
        } else {
            false
        }
    }

    /// Runs `iter` once, timing it on the monotonic clock, records the
    /// duration, and returns what `iter` returned. A duration that would
    /// overflow the counters is not recorded.
    pub fn iteration<T, F: FnOnce() -> T>(&mut self, iter: F) -> (r: T)
        requires
            old(self).wf(),
            iter.requires(()),
        ensures
            final(self).wf(),
            iter.ensures((), r),
            final(self).logs() == old(self).logs(),
            final(self).samples() == old(self).samples() || (final(self).samples().len()
                == old(self).samples().len() + 1 && final(self).samples().drop_last()
                == old(self).samples()),
    {
        let (output, nanos) = measure(iter);
        self.record_nanos(nanos);
        output
    }

    fn push_log(&mut self, level: LogLevel, log: &str)
        requires
            old(self).wf(),
        ensures
            final(self).wf(),
            final(self).samples() == old(self).samples(),
            final(self).means() == old(self).means(),
            appended(old(self).logs(), final(self).logs(), level, log@),
    {
        self.logs.push(Log { level, log: log.to_owned() });
        proof {
            assert(self.logs@.drop_last() =~= old(self).logs@);
        }
    }

    /// Appends an `Info` record; counts, times and means are unchanged.
    pub fn info(&mut self, log: &str)
        requires
            old(self).wf(),
        ensures
            final(self).wf(),
            final(self).samples() == old(self).samples(),
            final(self).means() == old(self).means(),
            appended(old(self).logs(), final(self).logs(), LogLevel::Info, log@),
    {
        self.push_log(LogLevel::Info, log);
    }

    /// Appends an `Error` record; counts, times and means are unchanged.
    pub fn error(&mut self, log: &str)
        requires
            old(self).wf(),
        ensures
            final(self).wf(),
            final(self).samples() == old(self).samples(),
            final(self).means() == old(self).means(),
            appended(old(self).logs(), final(self).logs(), LogLevel::Error, log@),
    {
        self.push_log(LogLevel::Error, log);
    }

    /// Appends a `Warn` record; counts, times and means are unchanged.
    pub fn warn(&mut self, log: &str)
        requires
            old(self).wf(),
        ensures
            final(self).wf(),
            final(self).samples() == old(self).samples(),
            final(self).means() == old(self).means(),
            appended(old(self).logs(), final(self).logs(), LogLevel::Warn, log@),
    {
        self.push_log(LogLevel::Warn, log);
    }

    /// Hands every pending record to the caller, oldest first, and leaves none.
    pub fn take_logs(&mut self) -> (r: Vec<Log>)
        requires
            old(self).wf(),
        ensures
            final(self).wf(),
            final(self).samples() == old(self).samples(),
            final(self).means() == old(self).means(),
            r@ == old(self).logs(),
            final(self).logs() == Seq::<Log>::empty(),
    {
        let mut taken = Vec::new();
        std::mem::swap(&mut taken, &mut self.logs);
        taken
    }
}

/// After `N` accepted iterations a timer has counted `N`, holds `N mod W` of
/// them in its open window, and retains `min(N / W, A)` means.
pub proof fn lemma_iteration_counts<const W: usize, const A: usize>(t: &Timer<W, A>)
    requires
        t.wf(),
    ensures
        t.spec_total_count() == t.samples().len(),
        t.spec_current_count() == (t.samples().len() as int) % (W as int),
        t.means().len() == if (t.samples().len() as int) / (W as int) <= A {
            (t.samples().len() as int) / (W as int)
        } else {
            A as int
        },
{
    lemma_history_len(t.samples(), W as nat, A as nat);
    assert(as_ints(t.means()).len() == t.means().len());
}

/// Once a window has just completed, the newest retained mean is the sum of
/// the last `W` samples divided by `W`.
pub proof fn lemma_latest_mean<const W: usize, const A: usize>(t: &Timer<W, A>)
    requires
        t.wf(),
        t.samples().len() >= W,
        (t.samples().len() as int) % (W as int) == 0,
    ensures
        t.means().len() > 0,
        t.means().last() == sum(
            t.samples().subrange(t.samples().len() - W, t.samples().len() as int),
        ) / (W as int),
{
    let s = t.samples();
    let n = s.len() as int;
    let w = W as int;
    let q = n / w;
    vstd::arithmetic::div_mod::lemma_fundamental_div_mod(n, w);
    assert(n == q * w) by (nonlinear_arith)
        requires
            n == w * q + 0,
    ;
    assert(q >= 1) by (nonlinear_arith)
        requires
            n == q * w,
            n >= w,
            w > 0,
    ;
    assert((q - 1) * w == n - w) by (nonlinear_arith)
        requires
            n == q * w,
    ;
    let ms = window_means(s, W as nat);
    assert(ms.last() == sum(s.subrange(n - w, n)) / w);
    assert(as_ints(t.means()).len() == t.means().len());
    let h = history(s, W as nat, A as nat);
    assert(h.last() == ms.last());
    assert(as_ints(t.means())[t.means().len() - 1] == t.means().last() as int);
}

} // verus!
