//! Wrap-around selection over a non-empty row of tabs, and the session that
//! key presses drive.

use vstd::prelude::*;
use vstd::arithmetic::div_mod::{lemma_add_mod_noop_right, lemma_mod_self_0, lemma_small_mod};
use crate::report::{views, CmdOutput, CmdOutputView};
use crate::text::texts;

verus! {

/// The index after `index` in a ring of `count` positions.
pub open spec fn next_index(index: int, count: int) -> int {
    (index + 1) % count
}

/// The index before `index` in a ring of `count` positions.
pub open spec fn previous_index(index: int, count: int) -> int {
    (index + count - 1) % count
}

/// The index reached from `index` by `steps` moves forward.
pub open spec fn advance(index: int, count: int, steps: nat) -> int
    decreases steps,
{
    if steps == 0 {
        index
    } else {
        next_index(advance(index, count, (steps - 1) as nat), count)
    }
}

/// Both moves stay inside the ring; a move forward wraps only from the last
/// position and a move back only from the first.
pub proof fn lemma_step_values(index: int, count: int)
    requires
        count >= 1,
        0 <= index < count,
    ensures
        next_index(index, count) == if index + 1 == count { 0 } else { index + 1 },
        previous_index(index, count) == if index == 0 { count - 1 } else { index - 1 },
{
    if index + 1 == count {
        lemma_mod_self_0(count);
    } else {
        lemma_small_mod((index + 1) as nat, count as nat);
    }
    if index == 0 {
        lemma_small_mod((count - 1) as nat, count as nat);
    } else {
        lemma_add_mod_noop_right(index - 1, count, count);
        lemma_mod_self_0(count);
        lemma_small_mod((index - 1) as nat, count as nat);
    }
}

/// Moving forward and then back, or back and then forward, ends where it began.
pub proof fn lemma_next_previous_round_trip(index: int, count: int)
    requires
        count >= 1,
        0 <= index < count,
    ensures
        0 <= next_index(index, count) < count,
        0 <= previous_index(index, count) < count,
        previous_index(next_index(index, count), count) == index,
        next_index(previous_index(index, count), count) == index,
{
    lemma_step_values(index, count);
    lemma_step_values(next_index(index, count), count);
    lemma_step_values(previous_index(index, count), count);
}

/// `steps` moves forward add `steps` to the index, modulo the ring's size.
pub proof fn lemma_advance_adds(index: int, count: int, steps: nat)
    requires
        count >= 1,
        0 <= index < count,
    ensures
        advance(index, count, steps) == (index + steps) % count,
    decreases steps,
{
    if steps == 0 {
        lemma_small_mod(index as nat, count as nat);
    } else {
        lemma_advance_adds(index, count, (steps - 1) as nat);
        lemma_add_mod_noop_right(1, index + steps - 1, count);
    }
}

/// As many moves forward as there are positions lead from the first position
/// back to it.
pub proof fn lemma_full_cycle_returns(count: int)
    requires
        count >= 1,
    ensures
        advance(0, count, count as nat) == 0,
{
    lemma_advance_adds(0, count, count as nat);
    lemma_mod_self_0(count);
}

/// The row of tabs, one for each result, and the one that is selected.
pub struct TabContents {
    cur_tab_idx: usize,
    reports: Vec<CmdOutput>,
}

/// A `TabContents` as a position in a sequence of results.
pub struct Tabs {
    pub selected: int,
    pub reports: Seq<CmdOutputView>,
}

impl Tabs {
    /// There is at least one tab, and the selected position is one of them.
    pub open spec fn valid(self) -> bool {
        0 <= self.selected < self.reports.len()
    }

    /// The row with the next tab selected.
    pub open spec fn next(self) -> Tabs {
        Tabs {
            selected: next_index(self.selected, self.reports.len() as int),
            reports: self.reports,
        }
    }

    /// The row with the previous tab selected.
    pub open spec fn previous(self) -> Tabs {
        Tabs {
            selected: previous_index(self.selected, self.reports.len() as int),
            reports: self.reports,
        }
    }

    /// The labels of the tabs: the commands' names.
    pub open spec fn titles(self) -> Seq<Seq<char>> {
        Seq::new(self.reports.len(), |i: int| self.reports[i].cmdname)
    }
}

impl View for TabContents {
    type V = Tabs;

    closed spec fn view(&self) -> Tabs {
        Tabs { selected: self.cur_tab_idx as int, reports: views(self.reports@) }
    }
}

impl TabContents {
    /// There is at least one tab, and the selected position is one of them.
    #[verifier::type_invariant]
    spec fn selection_in_range(self) -> bool {
        self.cur_tab_idx < self.reports.len()
    }

    /// A row of tabs over `reports`, the first one selected.
    pub fn new(reports: Vec<CmdOutput>) -> (tabs: TabContents)
        requires
            reports.len() >= 1,
        ensures
            tabs@ == (Tabs { selected: 0, reports: views(reports@) }),
            tabs@.valid(),
    {
        TabContents { cur_tab_idx: 0, reports }
    }

    /// Moves to the previous tab; from the first one to the last.
    pub fn previous(&mut self)
        ensures
            old(self)@.valid(),
            final(self)@ == old(self)@.previous(),
            final(self)@.valid(),
    {
        proof {
            use_type_invariant(&*self);
            lemma_step_values(self.cur_tab_idx as int, self.reports.len() as int);
        }
        if self.cur_tab_idx == 0 {
            self.cur_tab_idx = self.reports.len() - 1;
        } else {
            self.cur_tab_idx = self.cur_tab_idx - 1;
        }
    }

    /// Moves to the next tab; from the last one to the first.
    pub fn next(&mut self)
        ensures
            old(self)@.valid(),
            final(self)@ == old(self)@.next(),
            final(self)@.valid(),
    {
        proof {
            use_type_invariant(&*self);
            lemma_step_values(self.cur_tab_idx as int, self.reports.len() as int);
        }
        self.cur_tab_idx = (self.cur_tab_idx + 1) % self.reports.len();
    }

    /// The number of tabs.
    pub fn len(&self) -> (count: usize)
        ensures
            count == self@.reports.len(),
            self@.valid(),
    {
        proof {
            use_type_invariant(self);
        }
        self.reports.len()
    }

    /// The position of the selected tab.
    pub fn selected(&self) -> (index: usize)
        ensures
            index == self@.selected,
            self@.valid(),
    {
        proof {
            use_type_invariant(self);
        }
        self.cur_tab_idx
    }

    /// The labels of the tabs, in order.
    pub fn titles(&self) -> (titles: Vec<String>)
        ensures
            texts(titles@) == self@.titles(),
    {
        let mut titles: Vec<String> = Vec::new();
        let mut i: usize = 0;
        while i < self.reports.len()
            invariant
                i <= self.reports.len(),
                titles.len() == i,
                forall|k: int| 0 <= k < i ==> (#[trigger] titles[k])@ == self.reports[k].cmdname@,
            decreases self.reports.len() - i,
        {
            titles.push(self.reports[i].cmdname.clone());
            i = i + 1;
        }
        titles
    }

    /// The result under the selected tab.
    pub fn current(&self) -> (report: &CmdOutput)
        ensures
            self@.valid(),
            report@ == self@.reports[self@.selected],
    {
        proof {
            use_type_invariant(self);
        }
        &self.reports[self.cur_tab_idx]
    }

    /// The text under the selected tab.
    pub fn showtext(&self) -> (text: &str)
        ensures
            self@.valid(),
            text@ == self@.reports[self@.selected].summary,
    {
        self.current().summary.as_str()
    }
}

/// Whether the session goes on.
#[derive(Clone, Copy, Debug, PartialEq, Eq)]
pub enum AppState {
    Running,
    Quitting,
}

/// The keys that the session tells apart.
#[derive(Clone, Copy, Debug, PartialEq, Eq)]
pub enum KeyCode {
    Char(char),
    Left,
    Right,
    Esc,
    Other,
}

/// Whether a key went down, is held, or came up.
#[derive(Clone, Copy, Debug, PartialEq, Eq)]
pub enum KeyEventKind {
    Press,
    Repeat,
    Release,
}

/// What a key press asks for.
#[derive(Clone, Copy, Debug, PartialEq, Eq)]
pub enum Transition {
    Next,
    Previous,
    Quit,
}

/// What a key event asks for: only a press counts; `l` and the right arrow
/// move forward, `h` and the left arrow move back, `q` and escape quit.
pub open spec fn transition_of(code: KeyCode, kind: KeyEventKind) -> Option<Transition> {
    if kind is Press {
        match code {
            KeyCode::Char(c) => if c == 'l' {
                Some(Transition::Next)
            } else if c == 'h' {
                Some(Transition::Previous)
            } else if c == 'q' {
                Some(Transition::Quit)
            } else {
                None
            },
            KeyCode::Right => Some(Transition::Next),
            KeyCode::Left => Some(Transition::Previous),
            KeyCode::Esc => Some(Transition::Quit),
            KeyCode::Other => None,
        }
    } else {
        None
    }
}

/// Finds what a key event asks for.
pub fn transition_for(code: KeyCode, kind: KeyEventKind) -> (asked: Option<Transition>)
    ensures
        asked == transition_of(code, kind),
{
    match kind {
        KeyEventKind::Press => match code {
            KeyCode::Char(c) => if c == 'l' {
                Some(Transition::Next)
            } else if c == 'h' {
                Some(Transition::Previous)
            } else if c == 'q' {
                Some(Transition::Quit)
            } else {
                None
            },
            KeyCode::Right => Some(Transition::Next),
            KeyCode::Left => Some(Transition::Previous),
            KeyCode::Esc => Some(Transition::Quit),
            KeyCode::Other => None,
        },
        _ => None,
    }
}

/// The session: the tabs, and whether it goes on.
pub struct App {
    state: AppState,
    all_tabs: TabContents,
}

/// An `App` as its state and its tabs.
pub struct Session {
    pub state: AppState,
    pub tabs: Tabs,
}

impl Session {
    /// The session after a transition. Once it is quitting nothing changes it.
    pub open spec fn apply(self, asked: Transition) -> Session {
        if self.state is Quitting {
            self
        } else {
            match asked {
                Transition::Next => Session { state: self.state, tabs: self.tabs.next() },
                Transition::Previous => Session { state: self.state, tabs: self.tabs.previous() },
                Transition::Quit => Session { state: AppState::Quitting, tabs: self.tabs },
            }
        }
    }

    /// The session after a key event.
    pub open spec fn handle(self, code: KeyCode, kind: KeyEventKind) -> Session {
        match transition_of(code, kind) {
            Some(asked) => self.apply(asked),
            None => self,
        }
    }
}

impl View for App {
    type V = Session;

    closed spec fn view(&self) -> Session {
        Session { state: self.state, tabs: self.all_tabs@ }
    }
}

impl App {
    /// A running session over `reports`, the first tab selected.
    pub fn new(reports: Vec<CmdOutput>) -> (app: App)
        requires
            reports.len() >= 1,
        ensures
            app@ == (Session {
                state: AppState::Running,
                tabs: Tabs { selected: 0, reports: views(reports@) },
            }),
    {
        App { state: AppState::Running, all_tabs: TabContents::new(reports) }
    }

    /// A running session over `reports`, or `None` where there is nothing to
    /// show: a session needs at least one result.
    pub fn start(reports: Vec<CmdOutput>) -> (app: Option<App>)
        ensures
            app is None <==> reports.len() == 0,
            app matches Some(app) ==> app@ == (Session {
                state: AppState::Running,
                tabs: Tabs { selected: 0, reports: views(reports@) },
            }),
    {
        if reports.len() == 0 {
            None
        } else {
            Some(App::new(reports))
        }
    }

    /// Makes a transition.
    pub fn apply(&mut self, asked: Transition)
        ensures
            old(self)@.tabs.valid(),
            final(self)@ == old(self)@.apply(asked),
            final(self)@.tabs.valid(),
    {
        proof {
            use_type_invariant(&self.all_tabs);
        }
        match self.state {
            AppState::Quitting => {},
            AppState::Running => match asked {
                Transition::Next => self.all_tabs.next(),
                Transition::Previous => self.all_tabs.previous(),
                Transition::Quit => {
                    self.state = AppState::Quitting;
                },
            },
        }
    }

    /// Takes a key event and makes the transition that it asks for, if any.
    pub fn handle_events(&mut self, code: KeyCode, kind: KeyEventKind)
        ensures
            old(self)@.tabs.valid(),
            final(self)@ == old(self)@.handle(code, kind),
            final(self)@.tabs.valid(),
    {
        proof {
            use_type_invariant(&self.all_tabs);
        }
        match transition_for(code, kind) {
            Some(asked) => self.apply(asked),
            None => {},
        }
    }

    /// Whether the session goes on.
    pub fn is_running(&self) -> (running: bool)
        ensures
            running == (self@.state is Running),
    {
        match self.state {
            AppState::Running => true,
            AppState::Quitting => false,
        }
    }

    /// The tabs.
    pub fn tabs(&self) -> (tabs: &TabContents)
        ensures
            tabs@ == self@.tabs,
            self@.tabs.valid(),
    {
        proof {
            use_type_invariant(&self.all_tabs);
        }
        &self.all_tabs
    }
}

} // verus!
