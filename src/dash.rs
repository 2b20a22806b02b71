use vstd::prelude::*;
use crate::profiler::{drained, is_snapshot, names_match, LogBuffer, ProfilerExt, StateBuffer};
use crate::timer::Log;

verus! {

/// Presses of `q` in a row that quit the dashboard.
pub const NUM_Q_TO_QUIT: u8 = 2;

/// Log records shown per scope, counted from the newest.
pub const LOG_TAIL: usize = 100;

/// The tabs of the dashboard and the selected one.
pub struct TabsState {
    titles: Vec<&'static str>,
    index: usize,
}

impl TabsState {
    pub closed spec fn spec_titles(&self) -> Seq<&'static str> {
        self.titles@
    }

    pub closed spec fn spec_index(&self) -> nat {
        self.index as nat
    }

    pub open spec fn wf(&self) -> bool {
        self.spec_index() < self.spec_titles().len()
    }

    /// Tabs with the given titles, the first one selected.
    pub fn new(titles: Vec<&'static str>) -> (r: TabsState)
        requires
            titles@.len() > 0,
        ensures
            r.wf(),
            r.spec_titles() == titles@,
            r.spec_index() == 0,
    {
        TabsState { titles, index: 0 }
    }

    /// Selects the following tab, wrapping round to the first.
    pub fn next(&mut self)
        requires
            old(self).wf(),
        ensures
            final(self).wf(),
            final(self).spec_titles() == old(self).spec_titles(),
            final(self).spec_index() == (old(self).spec_index() + 1) % old(self).spec_titles().len(),
    {
        let n = self.titles.len();
        self.index = (self.index + 1) % n;
    }

    /// Selects the preceding tab, wrapping round to the last.
    pub fn previous(&mut self)
        requires
            old(self).wf(),
        ensures
            final(self).wf(),
            final(self).spec_titles() == old(self).spec_titles(),
            final(self).spec_index() == if old(self).spec_index() > 0 {
                old(self).spec_index() - 1
            } else {
                old(self).spec_titles().len() - 1
            },
    {
        if self.index > 0 {
            self.index = self.index - 1;
        } else {
            self.index = self.titles.len() - 1;
        }
    }

    pub fn index(&self) -> (r: usize)
        ensures
            r == self.spec_index(),
    {
        self.index
    }

    pub fn titles(&self) -> (r: &Vec<&'static str>)
        ensures
            r@ == self.spec_titles(),
    {
        &self.titles
    }
}

/// With a single tab, moving left or right keeps it selected.
pub proof fn lemma_single_tab_wraps(t: TabsState)
    requires
        t.wf(),
        t.spec_titles().len() == 1,
    ensures
        t.spec_index() == 0,
        (t.spec_index() + 1) % t.spec_titles().len() == 0,
        (if t.spec_index() > 0 {
            t.spec_index() - 1
        } else {
            t.spec_titles().len() - 1
        }) == 0,
{
}

/// A key press, as far as the dashboard tells keys apart.
#[derive(Clone, Copy, Debug, PartialEq, Eq, Structural)]
pub enum Key {
    Char(char),
    Left,
    Right,
    Up,
    Down,
    Other,
}

/// What the character keys control: the run of `q` presses, whether to quit,
/// and whether the log panel is shown.
#[derive(Clone, Copy, Debug, PartialEq, Eq, Structural)]
pub struct Controls {
    pub q_counter: u8,
    pub should_quit: bool,
    pub show_log: bool,
}

/// The controls after the character key `c`: `q` counts towards quitting,
/// `l` toggles the log panel, and every key but `q` restarts the count.
pub open spec fn after_char(s: Controls, c: char) -> Controls {
    if c == 'q' {
        let q = if s.q_counter < NUM_Q_TO_QUIT {
            (s.q_counter + 1) as u8
        } else {
            s.q_counter
        };
        Controls { q_counter: q, should_quit: s.should_quit || q == NUM_Q_TO_QUIT, show_log: s.show_log }
    } else if c == 'l' {
        Controls { q_counter: 0, should_quit: s.should_quit, show_log: !s.show_log }
    } else {
        Controls { q_counter: 0, should_quit: s.should_quit, show_log: s.show_log }
    }
}

/// Two `q` presses in a row quit, whatever came before.
pub proof fn lemma_double_q_quits(s: Controls)
    requires
        s.q_counter <= NUM_Q_TO_QUIT,
    ensures
        after_char(after_char(s, 'q'), 'q').should_quit,
{
}

/// `q`, then `l`, then `q` does not quit: the `l` restarts the count.
pub proof fn lemma_interrupted_q_stays(s: Controls)
    requires
        s.q_counter == 0,
        !s.should_quit,
    ensures
        !after_char(after_char(after_char(s, 'q'), 'l'), 'q').should_quit,
{
}

/// Toggling the log panel changes only the panel flag.
pub proof fn lemma_toggle_log(s: Controls)
    ensures
        after_char(s, 'l').show_log == !s.show_log,
        after_char(after_char(s, 'l'), 'l').show_log == s.show_log,
{
}

/// The colours that the scope charts cycle through.
#[derive(Clone, Copy, Debug, PartialEq, Eq, Structural)]
pub enum Color {
    Cyan,
    Red,
    Yellow,
    Magenta,
}

pub open spec fn spec_scope_color(i: nat) -> Color {
    if i % 4 == 0 {
        Color::Cyan
    } else if i % 4 == 1 {
        Color::Red
    } else if i % 4 == 2 {
        Color::Yellow
    } else {
        Color::Magenta
    }
}

/// The chart colour of the scope at `index`.
pub fn scope_color(index: usize) -> (r: Color)
    ensures
        r == spec_scope_color(index as nat),
{
    let k = index % 4;
    if k == 0 {
        Color::Cyan
    } else if k == 1 {
        Color::Red
    } else if k == 2 {
        Color::Yellow
    } else {
        Color::Magenta
    }
}

/// Percentages of the body given to the charts and, when shown, the logs.
pub fn body_split(show_log: bool) -> (r: Vec<u16>)
    ensures
        show_log ==> r@ == seq![50u16, 50u16],
        !show_log ==> r@ == seq![100u16],
{
    if show_log {
        vec![50, 50]
    } else {
        vec![100]
    }
}

/// Equal rows, one per scope: each gets `100 / scopes` percent.
pub fn row_percentages(scopes: usize) -> (r: Vec<u16>)
    requires
        scopes > 0,
    ensures
        r@.len() == scopes,
        forall|i: int| 0 <= i < scopes ==> r@[i] == 100int / (scopes as int),
{
    proof {
        assert(100int / (scopes as int) <= 100) by (nonlinear_arith)
            requires
                scopes >= 1,
        ;
    }
    let share: u16 = (100 / scopes) as u16;
    let mut r: Vec<u16> = Vec::new();
    let mut i: usize = 0;
    while i < scopes
        invariant
            i <= scopes,
            share == 100int / (scopes as int),
            r@.len() == i,
            forall|k: int| 0 <= k < i ==> r@[k] == share,
        decreases scopes - i,
    {
        r.push(share);
        i = i + 1;
    }
    r
}

/// The marks of the history axis: `A`, `A / 2` and `0` for a history longer
/// than 50, else `A` and `0`.
pub fn x_axis_marks(num_averages: usize) -> (r: Vec<usize>)
    ensures
        num_averages > 50 ==> r@ == seq![num_averages, num_averages / 2, 0usize],
        num_averages <= 50 ==> r@ == seq![num_averages, 0usize],
{
    if num_averages > 50 {
        vec![num_averages, num_averages / 2, 0]
    } else {
        vec![num_averages, 0]
    }
}

/// The largest mean, or 0 when there is none.
pub open spec fn spec_max_mean(m: Seq<usize>) -> nat
    decreases m.len(),
{
    if m.len() == 0 {
        0
    } else {
        let rest = spec_max_mean(m.drop_last());
        if m.last() > rest {
            m.last() as nat
        } else {
            rest
        }
    }
}

/// The largest of the means, or 0 when there is none; the charts' vertical
/// range is `[0, 1.5 * max_mean]`.
pub fn max_mean(means: &Vec<usize>) -> (r: usize)
    ensures
        r == spec_max_mean(means@),
        forall|i: int| 0 <= i < means@.len() ==> means@[i] <= r,
        means@.len() > 0 ==> exists|i: int| 0 <= i < means@.len() && means@[i] == r,
        means@.len() == 0 ==> r == 0,
{
    let mut best: usize = 0;
    let mut i: usize = 0;
    while i < means.len()
        invariant
            i <= means@.len(),
            best == spec_max_mean(means@.subrange(0, i as int)),
            forall|k: int| 0 <= k < i ==> means@[k] <= best,
            i > 0 ==> exists|k: int| 0 <= k < i && means@[k] == best,
            i == 0 ==> best == 0,
        decreases means@.len() - i,
    {
        proof {
            assert(means@.subrange(0, i + 1).drop_last() =~= means@.subrange(0, i as int));
        }
        if means[i] > best {
            best = means[i];
        }
        i = i + 1;
    }
    proof {
        assert(means@.subrange(0, means@.len() as int) =~= means@);
    }
    best
}

/// The plotted points: `(index, mean)` for every mean above zero, in order;
/// a zero marks a slot not yet measured and is left out.
pub open spec fn nonzero_points(m: Seq<usize>) -> Seq<(usize, usize)>
    decreases m.len(),
{
    if m.len() == 0 {
        Seq::empty()
    } else if m.last() > 0 {
        nonzero_points(m.drop_last()).push(((m.len() - 1) as usize, m.last()))
    } else {
        nonzero_points(m.drop_last())
    }
}

/// The points of a scope's chart; see `nonzero_points`.
pub fn plot_points(means: &Vec<usize>) -> (r: Vec<(usize, usize)>)
    ensures
        r@ == nonzero_points(means@),
{
    let mut r: Vec<(usize, usize)> = Vec::new();
    let mut i: usize = 0;
    while i < means.len()
        invariant
            i <= means@.len(),
            r@ == nonzero_points(means@.subrange(0, i as int)),
        decreases means@.len() - i,
    {
        proof {
            assert(means@.subrange(0, i + 1).drop_last() =~= means@.subrange(0, i as int));
        }
        if means[i] > 0 {
            r.push((i, means[i]));
        }
        i = i + 1;
    }
    proof {
        assert(means@.subrange(0, means@.len() as int) =~= means@);
    }
    r
}

/// Where the shown tail of a scope's `len` log records starts.
pub fn log_tail_start(len: usize) -> (r: usize)
    ensures
        r == if len > LOG_TAIL {
            len - LOG_TAIL
        } else {
            0
        },
{
    len.saturating_sub(LOG_TAIL)
}

/// How long to wait for a key before the next tick is due.
pub fn poll_timeout(tick_nanos: u128, since_tick_nanos: u128) -> (r: u128)
    ensures
        r == if since_tick_nanos < tick_nanos {
            tick_nanos - since_tick_nanos
        } else {
            0
        },
{
    tick_nanos.saturating_sub(since_tick_nanos)
}

/// The dashboard's state: its copies of the profiler's means and logs, the
/// tabs, and the controls.
pub struct Dash<const W: usize, const A: usize> {
    state_buffer: StateBuffer,
    log_buffer: LogBuffer,
    tabs: TabsState,
    controls: Controls,
}

impl<const W: usize, const A: usize> Dash<W, A> {
    pub closed spec fn spec_state_buffer(&self) -> Seq<(&'static str, Vec<usize>)> {
        self.state_buffer@
    }

    pub closed spec fn spec_log_buffer(&self) -> Seq<(&'static str, Vec<Log>)> {
        self.log_buffer@
    }

    pub closed spec fn spec_tabs(&self) -> TabsState {
        self.tabs
    }

    pub closed spec fn spec_controls(&self) -> Controls {
        self.controls
    }

    pub open spec fn wf(&self) -> bool {
        &&& self.spec_tabs().wf()
        &&& self.spec_controls().q_counter <= NUM_Q_TO_QUIT
    }

    /// The buffers have one slot per scope of `p`, named in its order.
    pub open spec fn observes<P: ProfilerExt<W, A>>(&self, p: &P) -> bool {
        &&& names_match(p.spec_scopes(), self.spec_state_buffer())
        &&& names_match(p.spec_scopes(), self.spec_log_buffer())
    }

    /// A dashboard on `p`: empty buffers, one tab titled with the profiler's
    /// title, the log panel shown, and no `q` pressed.
    pub fn from_profiler<P: ProfilerExt<W, A>>(p: &P) -> (r: Self)
        requires
            p.wf(),
        ensures
            r.wf(),
            r.observes(p),
            forall|i: int| 0 <= i < r.spec_state_buffer().len() ==> (#[trigger] r.spec_state_buffer()[i]).1@ == Seq::<usize>::empty(),
            forall|i: int| 0 <= i < r.spec_log_buffer().len() ==> (#[trigger] r.spec_log_buffer()[i]).1@ == Seq::<Log>::empty(),
            r.spec_tabs().spec_titles() == seq![p.spec_title()],
            r.spec_tabs().spec_index() == 0,
            r.spec_controls() == (Controls { q_counter: 0, should_quit: false, show_log: true }),
    {
        let state_buffer = p.state_buffer();
        let log_buffer = p.log_buffer();
        let titles = vec![p.title()];
        Dash {
            state_buffer,
            log_buffer,
            tabs: TabsState::new(titles),
            controls: Controls { q_counter: 0, should_quit: false, show_log: true },
        }
    }

    /// Handles a character key; see `after_char`.
    pub fn on_key(&mut self, key: char)
        requires
            old(self).wf(),
        ensures
            final(self).wf(),
            final(self).spec_controls() == after_char(old(self).spec_controls(), key),
            final(self).spec_tabs() == old(self).spec_tabs(),
            final(self).spec_state_buffer() == old(self).spec_state_buffer(),
            final(self).spec_log_buffer() == old(self).spec_log_buffer(),
    {
        if key == 'q' {
            if self.controls.q_counter < NUM_Q_TO_QUIT {
                self.controls.q_counter = self.controls.q_counter + 1;
            }
            if self.controls.q_counter == NUM_Q_TO_QUIT {
                self.controls.should_quit = true;
            }
        } else if key == 'l' {
            self.controls.q_counter = 0;
            self.controls.show_log = !self.controls.show_log;
        } else {
            self.controls.q_counter = 0;
        }
    }

    /// Reserved; does nothing.
    pub fn on_up(&mut self)
        ensures
            *final(self) == *old(self),
    {
    }

    /// Reserved; does nothing.
    pub fn on_down(&mut self)
        ensures
            *final(self) == *old(self),
    {
    }

    /// Selects the next tab.
    pub fn on_right(&mut self)
        requires
            old(self).wf(),
        ensures
            final(self).wf(),
            final(self).spec_controls() == old(self).spec_controls(),
            final(self).spec_tabs().spec_titles() == old(self).spec_tabs().spec_titles(),
            final(self).spec_tabs().spec_index() == (old(self).spec_tabs().spec_index() + 1)
                % old(self).spec_tabs().spec_titles().len(),
            final(self).spec_state_buffer() == old(self).spec_state_buffer(),
            final(self).spec_log_buffer() == old(self).spec_log_buffer(),
    {
        self.tabs.next();
    }

    /// Selects the previous tab.
    pub fn on_left(&mut self)
        requires
            old(self).wf(),
        ensures
            final(self).wf(),
            final(self).spec_controls() == old(self).spec_controls(),
            final(self).spec_tabs().spec_titles() == old(self).spec_tabs().spec_titles(),
            final(self).spec_tabs().spec_index() == if old(self).spec_tabs().spec_index() > 0 {
                old(self).spec_tabs().spec_index() - 1
            } else {
                old(self).spec_tabs().spec_titles().len() - 1
            },
            final(self).spec_state_buffer() == old(self).spec_state_buffer(),
            final(self).spec_log_buffer() == old(self).spec_log_buffer(),
    {
        self.tabs.previous();
    }

    /// Dispatches a key press: characters to `on_key`, arrows to the tabs;
    /// other keys are ignored.
    pub fn on_event(&mut self, key: Key)
        requires
            old(self).wf(),
        ensures
            final(self).wf(),
            final(self).spec_state_buffer() == old(self).spec_state_buffer(),
            final(self).spec_log_buffer() == old(self).spec_log_buffer(),
            key is Char ==> final(self).spec_controls() == after_char(old(self).spec_controls(), key->Char_0)
                && final(self).spec_tabs() == old(self).spec_tabs(),
            !(key is Char) ==> final(self).spec_controls() == old(self).spec_controls(),
            (key is Up || key is Down || key is Other) ==> final(self).spec_tabs() == old(self).spec_tabs(),
            key is Right ==> final(self).spec_tabs().spec_index() == (old(self).spec_tabs().spec_index() + 1)
                % old(self).spec_tabs().spec_titles().len(),
            key is Left ==> final(self).spec_tabs().spec_index() == if old(self).spec_tabs().spec_index() > 0 {
                old(self).spec_tabs().spec_index() - 1
            } else {
                old(self).spec_tabs().spec_titles().len() - 1
            },
    {
        match key {
            Key::Char(c) => self.on_key(c),
            Key::Left => self.on_left(),
            Key::Right => self.on_right(),
            Key::Up => self.on_up(),
            Key::Down => self.on_down(),
            Key::Other => {},
        }
    }

    /// Copies the profiler's means into the state buffer, then drains its
    /// logs onto the log buffer.
    pub fn on_tick<P: ProfilerExt<W, A>>(&mut self, p: &mut P)
        requires
            old(self).wf(),
            old(p).wf(),
            old(self).observes(old(p)),
        ensures
            final(self).wf(),
            final(p).wf(),
            final(self).observes(final(p)),
            final(p).spec_title() == old(p).spec_title(),
            final(p).spec_scopes() == old(p).spec_scopes(),
            is_snapshot(old(p).spec_scopes(), old(p).timers(), final(self).spec_state_buffer()),
            is_snapshot(final(p).spec_scopes(), final(p).timers(), final(self).spec_state_buffer()),
            drained(old(p).timers(), old(self).spec_log_buffer(), final(p).timers(), final(self).spec_log_buffer()),
            final(self).spec_controls() == old(self).spec_controls(),
            final(self).spec_tabs() == old(self).spec_tabs(),
    {
        p.snapshot_means(&mut self.state_buffer);
        p.drain_logs(&mut self.log_buffer);
        proof {
            assert forall|i: int| 0 <= i < self.log_buffer@.len() implies (#[trigger] self.log_buffer@[i]).0@
                == p.spec_scopes()[i]@ by {
                assert(crate::profiler::drained_slot(
                    old(p).timers()[i],
                    old(self).log_buffer@[i],
                    p.timers()[i],
                    self.log_buffer@[i],
                ));
            }
            assert forall|i: int| 0 <= i < self.state_buffer@.len() implies (#[trigger] self.state_buffer@[i]).1@
                == p.timers()[i].means() by {
                assert(crate::profiler::drained_slot(
                    old(p).timers()[i],
                    old(self).log_buffer@[i],
                    p.timers()[i],
                    self.log_buffer@[i],
                ));
            }
        }
    }

    /// The means of each scope, as last copied.
    pub fn state_buffer(&self) -> (r: &StateBuffer)
        ensures
            r@ == self.spec_state_buffer(),
    {
        &self.state_buffer
    }

    /// The log records of each scope, as drained so far.
    pub fn log_buffer(&self) -> (r: &LogBuffer)
        ensures
            r@ == self.spec_log_buffer(),
    {
        &self.log_buffer
    }

    pub fn tabs(&self) -> (r: &TabsState)
        ensures
            *r == self.spec_tabs(),
    {
        &self.tabs
    }

    pub fn controls(&self) -> (r: Controls)
        ensures
            r == self.spec_controls(),
    {
        self.controls
    }

    pub fn should_quit(&self) -> (r: bool)
        ensures
            r == self.spec_controls().should_quit,
    {
        self.controls.should_quit
    }

    pub fn show_log(&self) -> (r: bool)
        ensures
            r == self.spec_controls().show_log,
    {
        self.controls.show_log
    }

    /// The split of the body for the next frame; see `body_split`.
    pub fn body_split(&self) -> (r: Vec<u16>)
        ensures
            self.spec_controls().show_log ==> r@ == seq![50u16, 50u16],
            !self.spec_controls().show_log ==> r@ == seq![100u16],
    {
        body_split(self.controls.show_log)
    }

    /// The marks of the history axis for this dashboard's `A`; see
    /// `x_axis_marks`.
    pub fn x_axis_marks(&self) -> (r: Vec<usize>)
        ensures
            A > 50 ==> r@ == seq![A, A / 2, 0usize],
            A <= 50 ==> r@ == seq![A, 0usize],
    {
        x_axis_marks(A)
    }
}

} // verus!
