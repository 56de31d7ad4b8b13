//! The application core: the stopwatch, the solve history, the grid /
//! selection navigation state and the list cursor, and the decisions for
//! each keyboard intent. The surrounding event loop performs the I/O (it
//! reads keys, the clock and the history file and draws the screen) and
//! hands this state machine plain values.

use vstd::prelude::*;
use crate::navigate::{ActiveBlock, Dir, FocusClass, Route, Screen, Tool};
use crate::persist::{history_file_bytes, history_values, parse_times, save_bytes};
use crate::stats::{ao_at, seq_sum, Time, Times};
use crate::timer::CubeTimer;

verus! {

/// Values admitted when replaying parsed durations into a history whose
/// inserted total is already `acc`: a value whose insertion would push
/// the total past `u64::MAX` is discarded, the rest are kept in order.
pub open spec fn admissible(s: Seq<u64>, acc: int) -> Seq<u64>
    decreases s.len(),
{
    if s.len() == 0 {
        Seq::empty()
    } else if acc + s[0] <= u64::MAX {
        seq![s[0]] + admissible(s.drop_first(), acc + s[0])
    } else {
        admissible(s.drop_first(), acc)
    }
}

/// When the total of the values fits the running sum, nothing is
/// discarded.
pub proof fn lemma_admissible_all(s: Seq<u64>, acc: int)
    requires
        0 <= acc,
        acc + seq_sum(s) <= u64::MAX,
    ensures
        admissible(s, acc) == s,
    decreases s.len(),
{
    if s.len() > 0 {
        crate::stats::lemma_seq_sum_split(s, 1);
        assert(s.subrange(0, 1) =~= seq![s[0]]);
        crate::stats::lemma_seq_singleton(s[0]);
        assert(s.subrange(1, s.len() as int) =~= s.drop_first());
        crate::stats::lemma_seq_sum_nonneg(s.drop_first());
        lemma_admissible_all(s.drop_first(), acc + s[0]);
        assert(seq![s[0]] + s.drop_first() =~= s);
    }
}

/// A saved history reloads whole: parsing the file written for a history
/// gives back exactly its stored raw times, and replaying them into an
/// empty history discards nothing, since their total already fitted.
/// Together with `lemma_round_trip` this pins the full save/load cycle.
pub proof fn lemma_saved_file_reloads(h: Times)
    requires
        h.wf(),
    ensures
        admissible(history_values(save_bytes(h.raw())), 0) == h.raw(),
{
    crate::persist::lemma_save_parse(h.raw());
    lemma_admissible_all(h.raw(), 0);
}

/// A keyboard intent, already separated from the key that carried it.
/// The string of a new scramble comes from the outside generator.
pub enum Intent {
    ToggleTimer,
    Quit,
    Escape,
    Confirm,
    Move(Dir),
    Delete,
    NewScramble(String),
}

/// The whole core state.
pub struct App {
    pub tick_rate: u64,
    pub timer: CubeTimer,
    pub route: Route,
    pub pos: (usize, usize),
    pub times: Times,
    pub times_state: Option<usize>,
    pub layout: Vec<Vec<ActiveBlock>>,
    pub scramble: String,
    pub active_screen: Screen,
    pub tool: Tool,
}

/// The cursor position after one step towards newer entries: an unset
/// cursor selects the first display row, the last row wraps to the
/// first; an empty history leaves the cursor alone.
pub open spec fn next_cursor(cur: Option<usize>, len: int) -> Option<usize> {
    if len == 0 {
        cur
    } else {
        match cur {
            None => Some(0usize),
            Some(i) => if i as int + 1 >= len {
                Some(0usize)
            } else {
                Some((i + 1) as usize)
            },
        }
    }
}

/// The cursor position after one step towards older entries: an unset
/// cursor selects the first display row, the first row wraps to the
/// last; an empty history leaves the cursor alone.
pub open spec fn prev_cursor(cur: Option<usize>, len: int) -> Option<usize> {
    if len == 0 {
        cur
    } else {
        match cur {
            None => Some(0usize),
            Some(i) => if i == 0 {
                Some((len - 1) as usize)
            } else {
                Some((i - 1) as usize)
            },
        }
    }
}

impl App {
    /// The grid position always names a cell of the layout matrix.
    pub open spec fn nav_wf(self) -> bool {
        &&& self.layout@.len() > 0
        &&& (forall|i: int| 0 <= i < self.layout@.len() ==> (#[trigger] self.layout@[i])@.len() > 0)
        &&& (self.pos.0 as int) < self.layout@.len()
        &&& (self.pos.1 as int) < self.layout@[self.pos.0 as int]@.len()
    }

    /// The list cursor is unset on an empty history and otherwise names a
    /// stored record.
    pub open spec fn cursor_wf(self) -> bool {
        &&& (self.times.times@.len() == 0 ==> self.times_state is None)
        &&& (self.times_state is Some ==> (self.times_state->0 as int) < self.times.times@.len())
    }

    pub open spec fn wf(self) -> bool {
        &&& self.nav_wf()
        &&& self.cursor_wf()
        &&& self.times.wf()
        &&& self.timer.wf()
    }

    /// Which highlight a panel gets: it is the entered panel, the panel
    /// the grid cursor points at, or neither.
    pub open spec fn focus_class(self, id: ActiveBlock) -> FocusClass {
        if id == self.route.active_block {
            FocusClass::Active
        } else if id == self.route.selected_block {
            FocusClass::Selected
        } else {
            FocusClass::Normal
        }
    }

    /// The grid position one step in `dir`, clamped to the layout: steps
    /// past an edge change nothing, and a step into a shorter row clamps
    /// the in-row index to that row's last cell.
    pub open spec fn grid_step(self, dir: Dir) -> (usize, usize) {
        match dir {
            Dir::Up => if self.pos.1 > 0 {
                (self.pos.0, (self.pos.1 - 1) as usize)
            } else {
                self.pos
            },
            Dir::Down => if self.pos.1 as int + 1 < self.layout@[self.pos.0 as int]@.len() {
                (self.pos.0, (self.pos.1 + 1) as usize)
            } else {
                self.pos
            },
            Dir::Right => if self.pos.0 as int + 1 < self.layout@.len() {
                let row = self.layout@[self.pos.0 as int + 1]@;
                (
                    (self.pos.0 + 1) as usize,
                    if self.pos.1 as int >= row.len() {
                        (row.len() - 1) as usize
                    } else {
                        self.pos.1
                    },
                )
            } else {
                self.pos
            },
            Dir::Left => if self.pos.0 > 0 {
                let row = self.layout@[self.pos.0 as int - 1]@;
                (
                    (self.pos.0 - 1) as usize,
                    if self.pos.1 as int >= row.len() {
                        (row.len() - 1) as usize
                    } else {
                        self.pos.1
                    },
                )
            } else {
                self.pos
            },
        }
    }

    /// The state after a movement intent. In the Home state the grid
    /// position moves and the panel at the new cell becomes selected; in
    /// the Times panel vertical movement drives the list cursor instead
    /// and horizontal movement is ignored; any other entered panel
    /// ignores movement.
    pub open spec fn after_move(self, dir: Dir) -> App {
        if self.route.active_block == ActiveBlock::Home {
            let p = self.grid_step(dir);
            App {
                pos: p,
                route: Route {
                    selected_block: self.layout@[p.0 as int]@[p.1 as int],
                    active_block: self.route.active_block,
                },
                ..self
            }
        } else if self.route.active_block == ActiveBlock::Times {
            match dir {
                Dir::Up => App {
                    times_state: prev_cursor(self.times_state, self.times.times@.len() as int),
                    ..self
                },
                Dir::Down => App {
                    times_state: next_cursor(self.times_state, self.times.times@.len() as int),
                    ..self
                },
                _ => self,
            }
        } else {
            self
        }
    }

    /// How deletion at the current list cursor relates the old and the
    /// new state. The cursor indexes the reversed (most-recent-first)
    /// display order, so display row `v` is storage index `len - v - 1`.
    /// An unset or out-of-range cursor and an empty history change
    /// nothing. After a removal the aggregates and every other record
    /// stay exactly as they were; the cursor steps to the previous
    /// display row when it pointed at the last one, and clears when the
    /// history became empty.
    pub open spec fn del_time_rel(pre: App, post: App) -> bool {
        match pre.times_state {
            None => post == pre,
            Some(v) => {
                let len = pre.times.times@.len() as int;
                if len == 0 || v as int >= len {
                    post == pre
                } else {
                    let nt = pre.times.times@.remove(len - v - 1);
                    &&& post.times.times@ == nt
                    &&& post.times.pbsingle == pre.times.pbsingle
                    &&& post.times.pbao5 == pre.times.pbao5
                    &&& post.times.pbao12 == pre.times.pbao12
                    &&& post.times.ao100 == pre.times.ao100
                    &&& post.times.ao1k == pre.times.ao1k
                    &&& post.times.rollingavg == pre.times.rollingavg
                    &&& post.times.sum == pre.times.sum
                    &&& post.times.hist@ == pre.times.hist@
                    &&& post.times.ao5s@ == pre.times.ao5s@
                    &&& post.times.ao12s@ == pre.times.ao12s@
                    &&& post.times_state == (if nt.len() == 0 {
                        None::<usize>
                    } else if v as int == nt.len() {
                        Some((v - 1) as usize)
                    } else {
                        Some(v)
                    })
                    &&& post.pos == pre.pos
                    &&& post.route == pre.route
                    &&& post.timer == pre.timer
                    &&& post.layout == pre.layout
                    &&& post.scramble == pre.scramble
                    &&& post.tick_rate == pre.tick_rate
                    &&& post.active_screen == pre.active_screen
                    &&& post.tool == pre.tool
                }
            },
        }
    }

    /// How toggling the stopwatch at `now_ms` relates the old and the new
    /// state: starting only records the instant; stopping folds the
    /// elapsed duration into the history as `insert` does.
    pub open spec fn toggle_rel(pre: App, post: App, now_ms: u64) -> bool {
        if !pre.timer.on {
            post == (App {
                timer: CubeTimer { starttime: Some(now_ms), on: true, lasttime: pre.timer.lasttime },
                ..pre
            })
        } else {
            let e = (now_ms - pre.timer.starttime->0) as u64;
            &&& post.timer == (CubeTimer { starttime: None, on: false, lasttime: e })
            &&& post.times.hist@ == pre.times.hist@.push(e)
            &&& post.times.times@ == pre.times.times@.push(
                Time {
                    time: e,
                    ao5: ao_at(pre.times.raw().push(e), 5),
                    ao12: ao_at(pre.times.raw().push(e), 12),
                },
            )
            &&& post.times.sum == pre.times.sum + e
            &&& (pre.times.fresh() ==> post.times.fresh())
            &&& post.pos == pre.pos
            &&& post.route == pre.route
            &&& post.times_state == pre.times_state
            &&& post.layout == pre.layout
            &&& post.scramble == pre.scramble
            &&& post.tick_rate == pre.tick_rate
            &&& post.active_screen == pre.active_screen
            &&& post.tool == pre.tool
        }
    }

    /// A fresh application: empty history, idle stopwatch, the Home state
    /// entered with the Times panel highlighted, the grid cursor on the
    /// Times cell of the fixed two-by-three layout.
    pub fn new(tick_rate: u64, scramble: String) -> (r: App)
        ensures
            r.wf(),
            r.times.fresh(),
            r.times.times@.len() == 0,
            r.timer == (CubeTimer { starttime: None, on: false, lasttime: 0 }),
            r.route == (Route {
                selected_block: ActiveBlock::Times,
                active_block: ActiveBlock::Home,
            }),
            r.pos == (0usize, 2usize),
            r.layout@.len() == 2,
            r.layout@[0]@ == seq![ActiveBlock::Tools, ActiveBlock::Timer, ActiveBlock::Times],
            r.layout@[1]@ == seq![ActiveBlock::Scramble, ActiveBlock::Stats, ActiveBlock::Main],
            r.times_state is None,
            r.scramble == scramble,
            r.tick_rate == tick_rate,
            r.active_screen is Default,
            r.tool is Welcome,
    {
        let mut row0: Vec<ActiveBlock> = Vec::new();
        row0.push(ActiveBlock::Tools);
        row0.push(ActiveBlock::Timer);
        row0.push(ActiveBlock::Times);
        let mut row1: Vec<ActiveBlock> = Vec::new();
        row1.push(ActiveBlock::Scramble);
        row1.push(ActiveBlock::Stats);
        row1.push(ActiveBlock::Main);
        proof {
            assert(row0@ =~= seq![ActiveBlock::Tools, ActiveBlock::Timer, ActiveBlock::Times]);
            assert(row1@ =~= seq![ActiveBlock::Scramble, ActiveBlock::Stats, ActiveBlock::Main]);
        }
        let mut layout: Vec<Vec<ActiveBlock>> = Vec::new();
        layout.push(row0);
        layout.push(row1);
        App {
            tick_rate,
            timer: CubeTimer::default(),
            route: Route::default(),
            pos: (0, 2),
            times: Times::new(),
            times_state: None,
            layout,
            scramble,
            active_screen: Screen::Default,
            tool: Tool::Welcome,
        }
    }

    /// Escape: on the help screen, back to the default screen; otherwise
    /// back to the Home state.
    pub fn esc(&mut self)
        ensures
            old(self).active_screen is Default ==> *final(self) == (App {
                route: Route {
                    selected_block: old(self).route.selected_block,
                    active_block: ActiveBlock::Home,
                },
                ..*old(self)
            }),
            old(self).active_screen is Help ==> *final(self) == (App {
                active_screen: Screen::Default,
                ..*old(self)
            }),
    {
        match self.active_screen {
            Screen::Default => self.route.esc(),
            Screen::Help => self.active_screen = Screen::Default,
        }
    }

    /// Show the help screen.
    pub fn help(&mut self)
        ensures
            *final(self) == (App { active_screen: Screen::Help, ..*old(self) }),
    {
        self.active_screen = Screen::Help;
    }

    /// The highlight class for a panel's border.
    pub fn get_border_style_from_id(&self, id: ActiveBlock) -> (r: FocusClass)
        ensures
            r == self.focus_class(id),
    {
        if id == self.route.active_block {
            FocusClass::Active
        } else if id == self.route.selected_block {
            FocusClass::Selected
        } else {
            FocusClass::Normal
        }
    }

    /// The highlight class for a panel's emphasized content; the same
    /// classification as for borders.
    pub fn get_highlight_style_from_id(&self, id: ActiveBlock) -> (r: FocusClass)
        ensures
            r == self.focus_class(id),
    {
        if id == self.route.active_block {
            FocusClass::Active
        } else if id == self.route.selected_block {
            FocusClass::Selected
        } else {
            FocusClass::Normal
        }
    }

    /// A movement intent: grid movement in the Home state, list-cursor
    /// movement while the Times panel is entered, ignored otherwise.
    pub fn mv(&mut self, dir: Dir)
        requires
            old(self).wf(),
        ensures
            final(self).wf(),
            *final(self) == old(self).after_move(dir),
    {
        match self.route.active_block {
            ActiveBlock::Home => {
                match dir {
                    Dir::Up => self.mv_up(),
                    Dir::Down => self.mv_down(),
                    Dir::Right => self.mv_right(),
                    Dir::Left => self.mv_left(),
                }
                let row = &self.layout[self.pos.0];
                let b = row[self.pos.1];
                self.route.selected_block = b;
            },
            ActiveBlock::Times => {
                match dir {
                    Dir::Up => self.previous_time(),
                    Dir::Down => self.next_time(),
                    _ => (),
                }
            },
            _ => (),
        }
    }

    fn mv_up(&mut self)
        requires
            old(self).nav_wf(),
        ensures
            *final(self) == (App { pos: old(self).grid_step(Dir::Up), ..*old(self) }),
            final(self).nav_wf(),
    {
        if self.pos.1 >= 1 {
            self.pos = (self.pos.0, self.pos.1 - 1);
        }
    }

    fn mv_down(&mut self)
        requires
            old(self).nav_wf(),
        ensures
            *final(self) == (App { pos: old(self).grid_step(Dir::Down), ..*old(self) }),
            final(self).nav_wf(),
    {
        let row_len = self.layout[self.pos.0].len();
        if self.pos.1 < row_len - 1 {
            self.pos = (self.pos.0, self.pos.1 + 1);
        }
    }

    fn mv_right(&mut self)
        requires
            old(self).nav_wf(),
        ensures
            *final(self) == (App { pos: old(self).grid_step(Dir::Right), ..*old(self) }),
            final(self).nav_wf(),
    {
        if self.pos.0 < self.layout.len() - 1 {
            let max = self.layout[self.pos.0 + 1].len() - 1;
            let col = if self.pos.1 >= max {
                max
            } else {
                self.pos.1
            };
            self.pos = (self.pos.0 + 1, col);
        }
    }

    /// Move one row towards the first; the in-row index clamps to the new
    /// row's last cell where that row is shorter.
    pub fn mv_left(&mut self)
        requires
            old(self).nav_wf(),
        ensures
            *final(self) == (App { pos: old(self).grid_step(Dir::Left), ..*old(self) }),
            final(self).nav_wf(),
    {
        if self.pos.0 >= 1 {
            let np = self.pos.0 - 1;
            let row_len = self.layout[np].len();
            let col = if self.pos.1 >= row_len {
                row_len - 1
            } else {
                self.pos.1
            };
            self.pos = (np, col);
        }
    }

    /// Step the list cursor towards newer display rows, wrapping at the
    /// end; a no-op on an empty history.
    pub fn next_time(&mut self)
        requires
            old(self).wf(),
        ensures
            final(self).wf(),
            *final(self) == (App {
                times_state: next_cursor(old(self).times_state, old(self).times.times@.len() as int),
                ..*old(self)
            }),
    {
        let len = self.times.times.len();
        if len == 0 {
            return ;
        }
        let i = match self.times_state {
            Some(i) => {
                if i >= len - 1 {
                    0
                } else {
                    i + 1
                }
            },
            None => 0,
        };
        self.times_state = Some(i);
    }

    /// Step the list cursor towards older display rows, wrapping at the
    /// start; a no-op on an empty history.
    fn previous_time(&mut self)
        requires
            old(self).wf(),
        ensures
            final(self).wf(),
            *final(self) == (App {
                times_state: prev_cursor(old(self).times_state, old(self).times.times@.len() as int),
                ..*old(self)
            }),
    {
        let len = self.times.times.len();
        if len == 0 {
            return ;
        }
        let i = match self.times_state {
            Some(i) => {
                if i == 0 {
                    len - 1
                } else {
                    i - 1
                }
            },
            None => 0,
        };
        self.times_state = Some(i);
    }

    /// A delete intent: deletes at the list cursor while the Times panel
    /// is entered, ignored otherwise.
    pub fn del(&mut self)
        requires
            old(self).wf(),
        ensures
            final(self).wf(),
            old(self).route.active_block == ActiveBlock::Times ==> App::del_time_rel(
                *old(self),
                *final(self),
            ),
            old(self).route.active_block != ActiveBlock::Times ==> *final(self) == *old(self),
    {
        match self.route.active_block {
            ActiveBlock::Times => self.del_time(),
            _ => (),
        }
    }

    fn del_time(&mut self)
        requires
            old(self).wf(),
        ensures
            final(self).wf(),
            App::del_time_rel(*old(self), *final(self)),
    {
        match self.times_state {
            Some(v) => {
                let len = self.times.times.len();
                if len == 0 || v >= len {
                    return ;
                }
                let idx = len - v - 1;
                let ghost old_raw = self.times.raw();
                self.times.times.remove(idx);
                proof {
                    assert(self.times.raw() =~= old_raw.remove(idx as int));
                    crate::stats::lemma_seq_sum_remove(old_raw, idx as int);
                    crate::stats::lemma_seq_sum_nonneg(old_raw.remove(idx as int));
                }
                if self.times.times.len() == 0 {
                    self.times_state = None;
                } else if v == self.times.times.len() {
                    self.times_state = Some(v - 1);
                }
            },
            None => (),
        }
    }

    /// Store a newly generated scramble string.
    pub fn new_scramble(&mut self, scramble: String)
        ensures
            *final(self) == (App { scramble, ..*old(self) }),
    {
        self.scramble = scramble;
    }

    /// The periodic tick callback; nothing to do in the core.
    pub fn on_tick(&self) {
        ()
    }

    /// How long the event loop may wait for the next key: the tick
    /// interval less the time already elapsed since the last tick,
    /// clamped to zero.
    pub fn tick_timeout(&self, elapsed_ms: u64) -> (r: u64)
        ensures
            r == if elapsed_ms >= self.tick_rate {
                0u64
            } else {
                (self.tick_rate - elapsed_ms) as u64
            },
    {
        if elapsed_ms >= self.tick_rate {
            0
        } else {
            self.tick_rate - elapsed_ms
        }
    }

    /// The whole history file for the stored records, ready to be
    /// written: one line per surviving record, in insertion order.
    pub fn write_times(&self) -> (r: Vec<u8>)
        ensures
            r@ == save_bytes(self.times.raw()),
    {
        history_file_bytes(&self.times.times)
    }

    /// Replay a history file into the history: parse every line, discard
    /// the lines that do not parse, and insert the values in file order
    /// exactly as if they had been entered live. A value whose insertion
    /// would overflow the running total is discarded as well.
    pub fn load_times(&mut self, data: &[u8])
        requires
            old(self).wf(),
        ensures
            final(self).wf(),
            final(self).times.hist@ == old(self).times.hist@ + admissible(
                history_values(data@),
                old(self).times.sum as int,
            ),
            final(self).times.raw() == old(self).times.raw() + admissible(
                history_values(data@),
                old(self).times.sum as int,
            ),
            old(self).times.fresh() ==> final(self).times.fresh(),
            final(self).pos == old(self).pos,
            final(self).route == old(self).route,
            final(self).times_state == old(self).times_state,
            final(self).timer == old(self).timer,
            final(self).layout == old(self).layout,
            final(self).scramble == old(self).scramble,
            final(self).tick_rate == old(self).tick_rate,
            final(self).active_screen == old(self).active_screen,
            final(self).tool == old(self).tool,
    {
        let vals = parse_times(data);
        let ghost total = admissible(vals@, old(self).times.sum as int);
        let ghost mut done: Seq<u64> = Seq::empty();
        let mut i: usize = 0;
        proof {
            assert(vals@.subrange(0, vals@.len() as int) =~= vals@);
            assert(old(self).times.hist@ + done =~= old(self).times.hist@);
            assert(old(self).times.raw() + done =~= old(self).times.raw());
            assert(done + admissible(vals@, old(self).times.sum as int) =~= total);
        }
        while i < vals.len()
            invariant
                i <= vals@.len(),
                self.wf(),
                self.times.hist@ == old(self).times.hist@ + done,
                self.times.raw() == old(self).times.raw() + done,
                total == done + admissible(
                    vals@.subrange(i as int, vals@.len() as int),
                    self.times.sum as int,
                ),
                old(self).times.fresh() ==> self.times.fresh(),
                self.pos == old(self).pos,
                self.route == old(self).route,
                self.times_state == old(self).times_state,
                self.timer == old(self).timer,
                self.layout == old(self).layout,
                self.scramble == old(self).scramble,
                self.tick_rate == old(self).tick_rate,
                self.active_screen == old(self).active_screen,
                self.tool == old(self).tool,
            decreases vals@.len() - i,
        {
            let t = vals[i];
            let ghost rest = vals@.subrange(i as int, vals@.len() as int);
            proof {
                assert(rest[0] == vals@[i as int]);
                assert(rest.drop_first() =~= vals@.subrange(i + 1, vals@.len() as int));
            }
            if t <= u64::MAX - self.times.sum {
                let ghost pre_done = done;
                self.times.insert(Time::from(t));
                proof {
                    done = done.push(t);
                    assert(self.times.hist@ =~= old(self).times.hist@ + done);
                    assert(self.times.raw() =~= old(self).times.raw() + done);
                    assert(pre_done + (seq![t] + admissible(
                        rest.drop_first(),
                        self.times.sum as int,
                    )) =~= done + admissible(rest.drop_first(), self.times.sum as int));
                }
            }
            i += 1;
        }
        proof {
            assert(vals@.subrange(i as int, vals@.len() as int).len() == 0);
            assert(done + admissible(
                vals@.subrange(i as int, vals@.len() as int),
                self.times.sum as int,
            ) =~= done);
        }
    }

    /// Apply one keyboard intent at monotonic instant `now_ms`; the
    /// result says whether the loop should quit. When the intent stops a
    /// running stopwatch, the caller's clock is monotonic and the solve
    /// must still fit the running total.
    pub fn apply_intent(&mut self, intent: Intent, now_ms: u64) -> (quit: bool)
        requires
            old(self).wf(),
            (intent is ToggleTimer && old(self).timer.on) ==> now_ms >= old(
                self,
            ).timer.starttime->0 && old(self).times.sum + (now_ms - old(
                self,
            ).timer.starttime->0) <= u64::MAX,
        ensures
            final(self).wf(),
            quit == (intent is Quit),
            intent is Quit ==> *final(self) == *old(self),
            intent is ToggleTimer ==> App::toggle_rel(*old(self), *final(self), now_ms),
            intent is Escape ==> {
                &&& (old(self).active_screen is Default ==> *final(self) == (App {
                    route: Route {
                        selected_block: old(self).route.selected_block,
                        active_block: ActiveBlock::Home,
                    },
                    ..*old(self)
                }))
                &&& (old(self).active_screen is Help ==> *final(self) == (App {
                    active_screen: Screen::Default,
                    ..*old(self)
                }))
            },
            intent is Confirm ==> *final(self) == (App {
                route: Route {
                    selected_block: old(self).route.selected_block,
                    active_block: old(self).route.selected_block,
                },
                ..*old(self)
            }),
            (match intent {
                Intent::Move(d) => *final(self) == old(self).after_move(d),
                _ => true,
            }),
            intent is Delete ==> (if old(self).route.active_block == ActiveBlock::Times {
                App::del_time_rel(*old(self), *final(self))
            } else {
                *final(self) == *old(self)
            }),
            (match intent {
                Intent::NewScramble(s) => *final(self) == (App { scramble: s, ..*old(self) }),
                _ => true,
            }),
    {
        match intent {
            Intent::ToggleTimer => {
                let r = self.timer.space_press(now_ms);
                match r {
                    Some(t) => {
                        self.times.insert(t);
                    },
                    None => (),
                }
                false
            },
            Intent::Quit => true,
            Intent::Escape => {
                self.esc();
                false
            },
            Intent::Confirm => {
                self.route.enter();
                false
            },
            Intent::Move(d) => {
                self.mv(d);
                false
            },
            Intent::Delete => {
                self.del();
                false
            },
            Intent::NewScramble(s) => {
                self.new_scramble(s);
                false
            },
        }
    }
}

} // verus!
