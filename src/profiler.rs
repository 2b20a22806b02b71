use vstd::prelude::*;
use crate::timer::{appended, Log, LogLevel, Timer};

verus! {

/// One slot per scope, in declaration order: the scope's name and a copy of
/// its retained means.
pub type StateBuffer = Vec<(&'static str, Vec<usize>)>;

/// One slot per scope, in declaration order: the scope's name and the log
/// records drained from it so far.
pub type LogBuffer = Vec<(&'static str, Vec<Log>)>;

/// The names are pairwise distinct.
pub open spec fn distinct_names(names: Seq<&'static str>) -> bool {
    forall|i: int, j: int| 0 <= i < j < names.len() ==> names[i]@ != names[j]@
}

/// Total number of records held by a log buffer.
pub open spec fn total_records(b: Seq<(&'static str, Vec<Log>)>) -> int
    decreases b.len(),
{
    if b.len() == 0 {
        0
    } else {
        total_records(b.drop_last()) + b.last().1@.len()
    }
}

/// A fixed, ordered set of named timers that share one window size `W` and
/// one history length `A`, with a display title.
pub struct Profiler<const W: usize, const A: usize> {
    title: &'static str,
    scopes: Vec<&'static str>,
    timers: Vec<Timer<W, A>>,
}

/// The buffer has one slot per scope, named as the scopes are, in order.
pub open spec fn names_match<T>(scopes: Seq<&'static str>, b: Seq<(&'static str, T)>) -> bool {
    &&& b.len() == scopes.len()
    &&& forall|i: int| 0 <= i < b.len() ==> (#[trigger] b[i]).0@ == scopes[i]@
}

/// `b` holds, for each scope, a copy of that scope's retained means.
pub open spec fn is_snapshot<const W: usize, const A: usize>(
    scopes: Seq<&'static str>,
    timers: Seq<Timer<W, A>>,
    b: Seq<(&'static str, Vec<usize>)>,
) -> bool {
    &&& names_match(scopes, b)
    &&& forall|i: int| 0 <= i < b.len() ==> (#[trigger] b[i]).1@ == timers[i].means()
}

/// What an observer needs from a profiler with window size `W` and history
/// length `A`: its title and scopes, fresh buffers, and the snapshot and drain
/// operations.
pub trait ProfilerExt<const W: usize, const A: usize> {
    spec fn spec_title(&self) -> &'static str;

    /// The scope names, in declaration order.
    spec fn spec_scopes(&self) -> Seq<&'static str>;

    /// The timers, one per scope, in declaration order.
    spec fn timers(&self) -> Seq<Timer<W, A>>;

    spec fn wf(&self) -> bool;

    /// The display title.
    fn title(&self) -> (r: &'static str)
        ensures
            r == self.spec_title(),
    ;

    /// The scope names, in declaration order.
    fn scopes(&self) -> (r: &Vec<&'static str>)
        ensures
            r@ == self.spec_scopes(),
    ;

    /// The number of iterations averaged into one mean.
    fn window_size(&self) -> (r: usize)
        ensures
            r == W,
    ;

    /// The number of recent means each scope retains.
    fn num_averages(&self) -> (r: usize)
        ensures
            r == A,
    ;

    /// A fresh snapshot buffer: one empty slot per scope, in order, each with
    /// room for `A` means.
    fn state_buffer(&self) -> (r: StateBuffer)
        requires
            self.wf(),
        ensures
            names_match(self.spec_scopes(), r@),
            forall|i: int| 0 <= i < r@.len() ==> (#[trigger] r@[i]).1@ == Seq::<usize>::empty(),
    ;

    /// A fresh log buffer: one empty slot per scope, in order.
    fn log_buffer(&self) -> (r: LogBuffer)
        requires
            self.wf(),
        ensures
            names_match(self.spec_scopes(), r@),
            forall|i: int| 0 <= i < r@.len() ==> (#[trigger] r@[i]).1@ == Seq::<Log>::empty(),
    ;

    /// Copies each scope's retained means, in order, into its slot of
    /// `buffer`, replacing what the slot held. The profiler is unchanged.
    fn snapshot_means(&self, buffer: &mut StateBuffer)
        requires
            self.wf(),
            names_match(self.spec_scopes(), old(buffer)@),
        ensures
            is_snapshot(self.spec_scopes(), self.timers(), final(buffer)@),
    ;

    /// Moves each scope's pending log records, in order, onto the end of its
    /// slot of `buffer`, and leaves every scope without pending records.
    fn drain_logs(&mut self, buffer: &mut LogBuffer)
        requires
            old(self).wf(),
            names_match(old(self).spec_scopes(), old(buffer)@),
        ensures
            final(self).wf(),
            final(self).spec_title() == old(self).spec_title(),
            final(self).spec_scopes() == old(self).spec_scopes(),
            drained(old(self).timers(), old(buffer)@, final(self).timers(), final(buffer)@),
    ;
}

impl<const W: usize, const A: usize> ProfilerExt<W, A> for Profiler<W, A> {
    closed spec fn spec_title(&self) -> &'static str {
        self.title
    }

    closed spec fn spec_scopes(&self) -> Seq<&'static str> {
        self.scopes@
    }

    closed spec fn timers(&self) -> Seq<Timer<W, A>> {
        self.timers@
    }

    open spec fn wf(&self) -> bool {
        &&& W > 0
        &&& A > 0
        &&& self.timers().len() == self.spec_scopes().len()
        &&& distinct_names(self.spec_scopes())
        &&& forall|i: int| 0 <= i < self.timers().len() ==> #[trigger] self.timers()[i].wf()
    }

    fn title(&self) -> &'static str {
        self.title
    }

    fn scopes(&self) -> &Vec<&'static str> {
        &self.scopes
    }

    fn window_size(&self) -> usize {
        W
    }

    fn num_averages(&self) -> usize {
        A
    }

    fn state_buffer(&self) -> StateBuffer {
        let mut r: StateBuffer = Vec::new();
        let mut i: usize = 0;
        while i < self.scopes.len()
            invariant
                self.wf(),
                i <= self.scopes@.len(),
                r@.len() == i,
                forall|k: int| 0 <= k < i ==> (#[trigger] r@[k]).0@ == self.scopes@[k]@,
                forall|k: int| 0 <= k < i ==> (#[trigger] r@[k]).1@ == Seq::<usize>::empty(),
            decreases self.scopes@.len() - i,
        {
            r.push((self.scopes[i], Vec::with_capacity(A)));
            i = i + 1;
        }
        r
    }

    fn log_buffer(&self) -> LogBuffer {
        let mut r: LogBuffer = Vec::new();
        let mut i: usize = 0;
        while i < self.scopes.len()
            invariant
                self.wf(),
                i <= self.scopes@.len(),
                r@.len() == i,
                forall|k: int| 0 <= k < i ==> (#[trigger] r@[k]).0@ == self.scopes@[k]@,
                forall|k: int| 0 <= k < i ==> (#[trigger] r@[k]).1@ == Seq::<Log>::empty(),
            decreases self.scopes@.len() - i,
        {
            r.push((self.scopes[i], Vec::new()));
            i = i + 1;
        }
        r
    }

    fn snapshot_means(&self, buffer: &mut StateBuffer) {
        let mut i: usize = 0;
        while i < buffer.len()
            invariant
                self.wf(),
                names_match(self.spec_scopes(), buffer@),
                0 <= i <= buffer@.len(),
                forall|k: int| 0 <= k < i ==> (#[trigger] buffer@[k]).1@ == self.timers()[k].means(),
            decreases buffer@.len() - i,
        {
            let means = self.timers[i].recent_averages();
            let slot = &mut buffer[i].1;
            slot.clear();
            let mut j: usize = 0;
            while j < means.len()
                invariant
                    j <= means@.len(),
                    slot@ == means@.subrange(0, j as int),
                decreases means@.len() - j,
            {
                slot.push(means[j]);
                j = j + 1;
            }
            i = i + 1;
        }
    }

    fn drain_logs(&mut self, buffer: &mut LogBuffer) {
        let ghost t0 = self.timers@;
        let ghost b0 = buffer@;
        let mut i: usize = 0;
        while i < buffer.len()
            invariant
                self.wf(),
                self.spec_scopes() == old(self).spec_scopes(),
                self.spec_title() == old(self).spec_title(),
                names_match(self.spec_scopes(), buffer@),
                t0 == old(self).timers(),
                b0 == old(buffer)@,
                0 <= i <= buffer@.len(),
                b0.len() == buffer@.len(),
                self.timers().len() == t0.len(),
                forall|k: int| 0 <= k < i ==> drained_slot(#[trigger] t0[k], b0[k], self.timers()[k], buffer@[k]),
                forall|k: int| i <= k < buffer@.len() ==> #[trigger] self.timers()[k] == t0[k] && buffer@[k] == b0[k],
            decreases buffer@.len() - i,
        {
            let ghost tp = self.timers();
            let ghost bp = buffer@;
            let mut taken = self.timers[i].take_logs();
            buffer[i].1.append(&mut taken);
            proof {
                assert forall|k: int| i < k < buffer@.len() implies #[trigger] self.timers()[k] == t0[k]
                    && buffer@[k] == b0[k] by {
                    assert(self.timers()[k] == tp[k]);
                    assert(buffer@[k] == bp[k]);
                }
            }
            i = i + 1;
        }
    }
}

impl<const W: usize, const A: usize> Profiler<W, A> {
    /// Sum of the pending log records over all scopes.
    pub open spec fn pending_total(&self) -> int {
        total_pending(self.timers())
    }

    /// A profiler for the given title and scopes, each with a fresh timer.
    pub fn new(title: &'static str, scopes: Vec<&'static str>) -> (r: Self)
        requires
            W > 0,
            A > 0,
            distinct_names(scopes@),
        ensures
            r.wf(),
            r.spec_title() == title,
            r.spec_scopes() == scopes@,
            forall|i: int| 0 <= i < r.timers().len() ==> {
                &&& (#[trigger] r.timers()[i]).samples() == Seq::<usize>::empty()
                &&& r.timers()[i].logs() == Seq::<Log>::empty()
            },
            r.pending_total() == 0,
    {
        let mut timers: Vec<Timer<W, A>> = Vec::new();
        let mut i: usize = 0;
        while i < scopes.len()
            invariant
                W > 0,
                A > 0,
                i <= scopes.len(),
                timers@.len() == i,
                forall|k: int| 0 <= k < i ==> {
                    &&& (#[trigger] timers@[k]).wf()
                    &&& timers@[k].samples() == Seq::<usize>::empty()
                    &&& timers@[k].logs() == Seq::<Log>::empty()
                },
            decreases scopes.len() - i,
        {
            timers.push(Timer::new());
            i = i + 1;
        }
        proof {
            lemma_total_pending_empty(timers@);
        }
        Profiler { title, scopes, timers }
    }

    /// The timer of the scope at `scope`.
    pub fn timer(&self, scope: usize) -> (r: &Timer<W, A>)
        requires
            scope < self.timers().len(),
        ensures
            *r == self.timers()[scope as int],
    {
        &self.timers[scope]
    }

    /// Runs `iter` once under the scope at `scope`, timing it; see
    /// `Timer::iteration`.
    pub fn iteration<T, F: FnOnce() -> T>(&mut self, scope: usize, iter: F) -> (r: T)
        requires
            old(self).wf(),
            scope < old(self).timers().len(),
            iter.requires(()),
        ensures
            final(self).wf(),
            iter.ensures((), r),
            final(self).spec_title() == old(self).spec_title(),
            final(self).spec_scopes() == old(self).spec_scopes(),
            final(self).timers().len() == old(self).timers().len(),
            forall|i: int| 0 <= i < final(self).timers().len() && i != scope ==>
                #[trigger] final(self).timers()[i] == old(self).timers()[i],
            ({
                let (t0, t1) = (old(self).timers()[scope as int], final(self).timers()[scope as int]);
                &&& t1.logs() == t0.logs()
                &&& t1.samples() == t0.samples() || (t1.samples().len() == t0.samples().len() + 1
                    && t1.samples().drop_last() == t0.samples())
            }),
    {
        let (output, nanos) = crate::timer::measure(iter);
        self.record_nanos(scope, nanos);
        output
    }

    /// Records a measured duration under the scope at `scope`; see
    /// `Timer::record_nanos`.
    pub fn record_nanos(&mut self, scope: usize, nanos: u128) -> (recorded: bool)
        requires
            old(self).wf(),
            scope < old(self).timers().len(),
        ensures
            final(self).wf(),
            final(self).spec_title() == old(self).spec_title(),
            final(self).spec_scopes() == old(self).spec_scopes(),
            final(self).timers().len() == old(self).timers().len(),
            forall|i: int| 0 <= i < final(self).timers().len() && i != scope ==>
                #[trigger] final(self).timers()[i] == old(self).timers()[i],
            ({
                let (t0, t1) = (old(self).timers()[scope as int], final(self).timers()[scope as int]);
                &&& t1.logs() == t0.logs()
                &&& recorded == (nanos <= usize::MAX as u128 && t0.samples().len() < usize::MAX
                    && crate::window::sum(t0.samples()) + nanos <= usize::MAX)
                &&& recorded ==> t1.samples() == t0.samples().push(nanos as usize)
                &&& !recorded ==> t1.samples() == t0.samples()
            }),
    {
        let recorded = self.timers[scope].record_nanos(nanos);
        recorded
    }

    /// Appends a record of `level` to the scope at `scope`.
    pub fn log(&mut self, scope: usize, level: LogLevel, msg: &str)
        requires
            old(self).wf(),
            scope < old(self).timers().len(),
        ensures
            final(self).wf(),
            final(self).spec_title() == old(self).spec_title(),
            final(self).spec_scopes() == old(self).spec_scopes(),
            final(self).timers().len() == old(self).timers().len(),
            forall|i: int| 0 <= i < final(self).timers().len() && i != scope ==>
                #[trigger] final(self).timers()[i] == old(self).timers()[i],
            final(self).timers()[scope as int].samples() == old(self).timers()[scope as int].samples(),
            final(self).timers()[scope as int].means() == old(self).timers()[scope as int].means(),
            appended(
                old(self).timers()[scope as int].logs(),
                final(self).timers()[scope as int].logs(),
                level,
                msg@,
            ),
            final(self).pending_total() == old(self).pending_total() + 1,
    {
        match level {
            LogLevel::Info => self.timers[scope].info(msg),
            LogLevel::Warn => self.timers[scope].warn(msg),
            LogLevel::Error => self.timers[scope].error(msg),
        }
        proof {
            lemma_total_pending_update(old(self).timers(), scope as int, self.timers());
        }
    }
}

/// Sum of the pending log records of the timers.
pub open spec fn total_pending<const W: usize, const A: usize>(t: Seq<Timer<W, A>>) -> int
    decreases t.len(),
{
    if t.len() == 0 {
        0
    } else {
        total_pending(t.drop_last()) + t.last().logs().len()
    }
}

/// One scope after a drain: its records moved, in order, onto the slot.
pub open spec fn drained_slot<const W: usize, const A: usize>(
    t0: Timer<W, A>,
    b0: (&'static str, Vec<Log>),
    t1: Timer<W, A>,
    b1: (&'static str, Vec<Log>),
) -> bool {
    &&& t1.wf()
    &&& t1.samples() == t0.samples()
    &&& t1.means() == t0.means()
    &&& t1.logs() == Seq::<Log>::empty()
    &&& b1.0 == b0.0
    &&& b1.1@ == b0.1@ + t0.logs()
}

/// Every scope after a drain.
pub open spec fn drained<const W: usize, const A: usize>(
    t0: Seq<Timer<W, A>>,
    b0: Seq<(&'static str, Vec<Log>)>,
    t1: Seq<Timer<W, A>>,
    b1: Seq<(&'static str, Vec<Log>)>,
) -> bool {
    &&& t1.len() == t0.len()
    &&& b0.len() == t0.len()
    &&& b1.len() == t0.len()
    &&& forall|k: int| 0 <= k < t0.len() ==> drained_slot(#[trigger] t0[k], b0[k], t1[k], b1[k])
}

proof fn lemma_total_pending_update<const W: usize, const A: usize>(
    t0: Seq<Timer<W, A>>,
    k: int,
    t1: Seq<Timer<W, A>>,
)
    requires
        0 <= k < t0.len(),
        t1.len() == t0.len(),
        forall|i: int| 0 <= i < t0.len() && i != k ==> #[trigger] t1[i] == t0[i],
        t1[k].logs().len() == t0[k].logs().len() + 1,
    ensures
        total_pending(t1) == total_pending(t0) + 1,
    decreases t0.len(),
{
    if k == t0.len() - 1 {
        assert(t1.drop_last() =~= t0.drop_last());
    } else {
        lemma_total_pending_update(t0.drop_last(), k, t1.drop_last());
    }
}

proof fn lemma_total_pending_empty<const W: usize, const A: usize>(t: Seq<Timer<W, A>>)
    requires
        forall|i: int| 0 <= i < t.len() ==> (#[trigger] t[i]).logs() == Seq::<Log>::empty(),
    ensures
        total_pending(t) == 0,
    decreases t.len(),
{
    if t.len() > 0 {
        lemma_total_pending_empty(t.drop_last());
    }
}

/// Two snapshots of the same profiler state hold identical names and means.
pub proof fn lemma_snapshot_repeat<const W: usize, const A: usize>(
    p: &Profiler<W, A>,
    first: Seq<(&'static str, Vec<usize>)>,
    second: Seq<(&'static str, Vec<usize>)>,
)
    requires
        is_snapshot(p.spec_scopes(), p.timers(), first),
        is_snapshot(p.spec_scopes(), p.timers(), second),
    ensures
        first.len() == second.len(),
        forall|i: int| 0 <= i < first.len() ==> (#[trigger] first[i]).0@ == second[i].0@ && first[i].1@
            == second[i].1@,
{
}

/// A second drain with no logging in between adds nothing to the buffer.
pub proof fn lemma_drain_repeat<const W: usize, const A: usize>(
    t0: Seq<Timer<W, A>>,
    b0: Seq<(&'static str, Vec<Log>)>,
    t1: Seq<Timer<W, A>>,
    b1: Seq<(&'static str, Vec<Log>)>,
    t2: Seq<Timer<W, A>>,
    b2: Seq<(&'static str, Vec<Log>)>,
)
    requires
        drained(t0, b0, t1, b1),
        drained(t1, b1, t2, b2),
    ensures
        b2.len() == b1.len(),
        forall|i: int| 0 <= i < b1.len() ==> (#[trigger] b2[i]).1@ == b1[i].1@,
        total_pending(t2) == 0,
{
    assert forall|i: int| 0 <= i < b1.len() implies (#[trigger] b2[i]).1@ == b1[i].1@ by {
        assert(drained_slot(t0[i], b0[i], t1[i], b1[i]));
        assert(drained_slot(t1[i], b1[i], t2[i], b2[i]));
        assert(b1[i].1@ + t1[i].logs() =~= b1[i].1@);
    }
    assert forall|i: int| 0 <= i < t2.len() implies (#[trigger] t2[i]).logs() == Seq::<Log>::empty() by {
        assert(drained_slot(t1[i], b1[i], t2[i], b2[i]));
    }
    lemma_total_pending_empty(t2);
}

/// A drain moves every pending record into the buffer: the buffer gains
/// exactly as many records as were pending, each scope's in logging order.
pub proof fn lemma_drain_total<const W: usize, const A: usize>(
    t0: Seq<Timer<W, A>>,
    b0: Seq<(&'static str, Vec<Log>)>,
    t1: Seq<Timer<W, A>>,
    b1: Seq<(&'static str, Vec<Log>)>,
)
    requires
        drained(t0, b0, t1, b1),
    ensures
        total_records(b1) == total_records(b0) + total_pending(t0),
        forall|i: int| 0 <= i < b1.len() ==> (#[trigger] b1[i]).1@ == b0[i].1@ + t0[i].logs(),
    decreases t0.len(),
{
    if t0.len() > 0 {
        let n = t0.len() - 1;
        assert(drained(t0.drop_last(), b0.drop_last(), t1.drop_last(), b1.drop_last())) by {
            assert forall|k: int| 0 <= k < n implies drained_slot(
                #[trigger] t0.drop_last()[k],
                b0.drop_last()[k],
                t1.drop_last()[k],
                b1.drop_last()[k],
            ) by {
                assert(drained_slot(t0[k], b0[k], t1[k], b1[k]));
            }
        }
        lemma_drain_total(t0.drop_last(), b0.drop_last(), t1.drop_last(), b1.drop_last());
        assert(drained_slot(t0[n], b0[n], t1[n], b1[n]));
    }
}

} // verus!
