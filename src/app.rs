use vstd::prelude::*;
use vstd::string::*;

use crate::git::Contribution;
use crate::share::Share;

verus! {

/// Phase of the snapshot: data still being collected, or published.
#[derive(Clone, Copy, Debug, PartialEq, Eq, Structural)]
pub enum AppState {
    Loading,
    Main,
}

/// One author's rollup across all analyzed repositories.
#[derive(Debug)]
pub struct AuthorSummary {
    pub author: String,
    pub email: String,
    pub total_commits: u64,
    pub total_lines_added: u64,
    pub total_lines_deleted: u64,
    /// The author's changed lines out of the changed lines of every repository.
    pub overall_contribution_percent: Share,
    /// Repository where the author's share is highest; empty where no share exceeds zero.
    pub preferred_repo: String,
    pub preferred_repo_percent: Share,
}

/// The shared snapshot: collected data, the collection's progress, and the
/// navigation state. Tab `t` below the number of repositories shows
/// `contributions[t]`; the last tab shows `author_summaries`.
#[derive(Debug)]
pub struct App {
    pub state: AppState,
    pub repositories: Vec<String>,
    pub contributions: Vec<Vec<Contribution>>,
    pub author_summaries: Vec<AuthorSummary>,
    pub current_tab: usize,
    pub selected_in_tab: Vec<Option<usize>>,
    pub loading_message: String,
    pub loading_progress: u8,
    pub show_help: bool,
    pub quit: bool,
}

/// Selection after moving down in a list of `n` rows.
pub open spec fn next_selection(sel: Option<usize>, n: int) -> Option<usize> {
    match sel {
        Some(i) => if i + 1 >= n {
            Some(0usize)
        } else {
            Some((i + 1) as usize)
        },
        None => if n > 0 {
            Some(0usize)
        } else {
            None
        },
    }
}

/// Selection after moving up in a list of `n` rows.
pub open spec fn previous_selection(sel: Option<usize>, n: int) -> Option<usize> {
    match sel {
        Some(i) => if i == 0 {
            Some((n - 1) as usize)
        } else {
            Some((i - 1) as usize)
        },
        None => if n > 0 {
            Some((n - 1) as usize)
        } else {
            None
        },
    }
}

/// A selection kept only where it still points into a list of `n` rows.
pub open spec fn clamped_selection(sel: Option<usize>, n: int) -> Option<usize> {
    match sel {
        Some(i) => if i < n {
            Some(i)
        } else {
            None
        },
        None => None,
    }
}

/// Progress of a collection run after `done` of `count` repositories, in percent.
pub open spec fn progress_of(done: int, count: int) -> int {
    done * 100 / count
}

impl App {
    /// Number of tabs: one per repository and the summary tab.
    pub open spec fn tab_count(&self) -> int {
        self.repositories@.len() + 1int
    }

    /// Number of rows of tab `t`.
    pub open spec fn rows_of(&self, t: int) -> int {
        if t < self.repositories@.len() {
            self.contributions@[t]@.len() as int
        } else {
            self.author_summaries@.len() as int
        }
    }

    /// One contribution list per repository, one selection per tab, the
    /// active tab among them, and every selection inside its list.
    pub open spec fn wf(&self) -> bool {
        &&& self.contributions@.len() == self.repositories@.len()
        &&& self.selected_in_tab@.len() == self.tab_count()
        &&& self.current_tab < self.tab_count()
        &&& forall|t: int|
            0 <= t < self.tab_count() ==> match #[trigger] self.selected_in_tab@[t] {
                Some(i) => i < self.rows_of(t),
                None => true,
            }
    }

    /// An empty snapshot while loading: no repositories, the summary tab
    /// active and nothing selected.
    pub fn new() -> (r: App)
        ensures
            r.wf(),
            r.state == AppState::Loading,
            r.repositories@.len() == 0,
            r.author_summaries@.len() == 0,
            r.current_tab == 0,
            r.selected_in_tab@ == seq![None::<usize>],
            r.loading_progress == 0,
            !r.show_help,
            !r.quit,
    {
        let mut selected_in_tab: Vec<Option<usize>> = Vec::new();
        selected_in_tab.push(None);
        App {
            state: AppState::Loading,
            repositories: Vec::new(),
            contributions: Vec::new(),
            author_summaries: Vec::new(),
            current_tab: 0,
            selected_in_tab,
            loading_message: String::from_str("Initializing..."),
            loading_progress: 0,
            show_help: false,
            quit: false,
        }
    }

    fn active_rows(&self) -> (n: usize)
        requires
            self.wf(),
        ensures
            n == self.rows_of(self.current_tab as int),
    {
        if self.current_tab < self.repositories.len() {
            self.contributions[self.current_tab].len()
        } else {
            self.author_summaries.len()
        }
    }

    /// Moves the selection of the active tab one row down, wrapping from the
    /// last row to the first; selects the first row where none is selected,
    /// and nothing in an empty tab.
    pub fn next(&mut self)
        requires
            old(self).wf(),
        ensures
            final(self).wf(),
            final(self).selected_in_tab@ == old(self).selected_in_tab@.update(
                old(self).current_tab as int,
                next_selection(
                    old(self).selected_in_tab@[old(self).current_tab as int],
                    old(self).rows_of(old(self).current_tab as int),
                ),
            ),
            final(self).current_tab == old(self).current_tab,
            final(self).repositories == old(self).repositories,
            final(self).contributions == old(self).contributions,
            final(self).author_summaries == old(self).author_summaries,
            final(self).state == old(self).state,
            final(self).loading_progress == old(self).loading_progress,
            final(self).show_help == old(self).show_help,
            final(self).quit == old(self).quit,
    {
        let t = self.current_tab;
        let n = self.active_rows();
        let sel = match self.selected_in_tab[t] {
            Some(i) => if i + 1 >= n {
                Some(0)
            } else {
                Some(i + 1)
            },
            None => if n > 0 {
                Some(0)
            } else {
                None
            },
        };
        self.selected_in_tab.set(t, sel);
    }

    /// Moves the selection of the active tab one row up, wrapping from the
    /// first row to the last; selects the last row where none is selected,
    /// and nothing in an empty tab.
    pub fn previous(&mut self)
        requires
            old(self).wf(),
        ensures
            final(self).wf(),
            final(self).selected_in_tab@ == old(self).selected_in_tab@.update(
                old(self).current_tab as int,
                previous_selection(
                    old(self).selected_in_tab@[old(self).current_tab as int],
                    old(self).rows_of(old(self).current_tab as int),
                ),
            ),
            final(self).current_tab == old(self).current_tab,
            final(self).repositories == old(self).repositories,
            final(self).contributions == old(self).contributions,
            final(self).author_summaries == old(self).author_summaries,
            final(self).state == old(self).state,
            final(self).loading_progress == old(self).loading_progress,
            final(self).show_help == old(self).show_help,
            final(self).quit == old(self).quit,
    {
        let t = self.current_tab;
        let n = self.active_rows();
        let sel = match self.selected_in_tab[t] {
            Some(i) => if i == 0 {
                Some(n - 1)
            } else {
                Some(i - 1)
            },
            None => if n > 0 {
                Some(n - 1)
            } else {
                None
            },
        };
        self.selected_in_tab.set(t, sel);
    }

    /// Makes the next tab active, the first after the summary tab.
    pub fn next_tab(&mut self)
        requires
            old(self).wf(),
        ensures
            final(self).wf(),
            final(self).current_tab as int == (old(self).current_tab + 1) % old(self).tab_count(),
            final(self).selected_in_tab == old(self).selected_in_tab,
            final(self).repositories == old(self).repositories,
            final(self).contributions == old(self).contributions,
            final(self).author_summaries == old(self).author_summaries,
            final(self).state == old(self).state,
            final(self).show_help == old(self).show_help,
    {
        let tab_count = self.selected_in_tab.len();
        self.current_tab = (self.current_tab + 1) % tab_count;
    }

    /// Makes the previous tab active, the summary tab before the first.
    pub fn previous_tab(&mut self)
        requires
            old(self).wf(),
        ensures
            final(self).wf(),
            final(self).current_tab as int == (old(self).current_tab + old(self).tab_count() - 1)
                % old(self).tab_count(),
            final(self).selected_in_tab == old(self).selected_in_tab,
            final(self).repositories == old(self).repositories,
            final(self).contributions == old(self).contributions,
            final(self).author_summaries == old(self).author_summaries,
            final(self).state == old(self).state,
            final(self).show_help == old(self).show_help,
    {
        let tab_count = self.selected_in_tab.len();
        let cur = self.current_tab;
        let prev = if cur == 0 {
            tab_count - 1
        } else {
            cur - 1
        };
        assert((cur + tab_count - 1) % (tab_count as int) == prev) by (nonlinear_arith)
            requires
                cur < tab_count,
                prev == if cur == 0 {
                    tab_count - 1
                } else {
                    cur - 1
                },
        ;
        self.current_tab = prev;
    }

    /// Shows the help overlay if hidden, hides it if shown.
    pub fn toggle_help(&mut self)
        requires
            old(self).wf(),
        ensures
            final(self).wf(),
            final(self).show_help == !old(self).show_help,
            final(self).current_tab == old(self).current_tab,
            final(self).selected_in_tab == old(self).selected_in_tab,
            final(self).repositories == old(self).repositories,
            final(self).contributions == old(self).contributions,
            final(self).author_summaries == old(self).author_summaries,
            final(self).state == old(self).state,
    {
        self.show_help = !self.show_help;
    }
    /// Records that `done` of `count` repositories have been analyzed: the
    /// progress becomes `done * 100 / count` percent, rounded down.
    pub fn set_progress(&mut self, done: usize, count: usize)
        requires
            old(self).wf(),
            0 < count,
            done <= count,
        ensures
            final(self).wf(),
            final(self).loading_progress as int == progress_of(done as int, count as int),
            final(self).state == old(self).state,
            final(self).current_tab == old(self).current_tab,
            final(self).selected_in_tab == old(self).selected_in_tab,
            final(self).repositories == old(self).repositories,
            final(self).contributions == old(self).contributions,
            final(self).author_summaries == old(self).author_summaries,
    {
        let p: u128 = (done as u128) * 100 / (count as u128);
        assert(p <= 100) by (nonlinear_arith)
            requires
                p == (done as int) * 100 / (count as int),
                done <= count,
                0 < count,
        ;
        self.loading_progress = p as u8;
    }

    /// Publishes the results of a collection run in one step: the ordered
    /// repositories with their contribution lists, and the author summaries.
    /// The phase becomes `Main`; each tab keeps its selection only where it
    /// still points into the tab's new list, and the active tab stays where
    /// it still exists (else the first tab becomes active).
    pub fn publish(
        &mut self,
        repositories: Vec<String>,
        contributions: Vec<Vec<Contribution>>,
        author_summaries: Vec<AuthorSummary>,
    )
        requires
            old(self).wf(),
            contributions@.len() == repositories@.len(),
            repositories@.len() < usize::MAX,
        ensures
            final(self).wf(),
            final(self).state == AppState::Main,
            final(self).repositories == repositories,
            final(self).contributions == contributions,
            final(self).author_summaries == author_summaries,
            final(self).current_tab == if old(self).current_tab < final(self).tab_count() {
                old(self).current_tab
            } else {
                0
            },
            forall|t: int|
                0 <= t < final(self).tab_count() ==> #[trigger] final(self).selected_in_tab@[t]
                    == clamped_selection(
                    if t < old(self).selected_in_tab@.len() {
                        old(self).selected_in_tab@[t]
                    } else {
                        None
                    },
                    final(self).rows_of(t),
                ),
            final(self).show_help == old(self).show_help,
            final(self).quit == old(self).quit,
    {
        let ghost old_sel = self.selected_in_tab@;
        let tab_count = repositories.len() + 1;
        self.repositories = repositories;
        self.contributions = contributions;
        self.author_summaries = author_summaries;
        let mut sel: Vec<Option<usize>> = Vec::new();
        let mut t: usize = 0;
        while t < tab_count
            invariant
                t <= tab_count == self.repositories@.len() + 1,
                self.contributions@.len() == self.repositories@.len(),
                self.selected_in_tab@ == old_sel,
                sel@.len() == t,
                forall|u: int|
                    0 <= u < t ==> #[trigger] sel@[u] == clamped_selection(
                        if u < old_sel.len() {
                            old_sel[u]
                        } else {
                            None
                        },
                        self.rows_of(u),
                    ),
            decreases tab_count - t,
        {
            let rows = if t < self.repositories.len() {
                self.contributions[t].len()
            } else {
                self.author_summaries.len()
            };
            let prev = if t < self.selected_in_tab.len() {
                self.selected_in_tab[t]
            } else {
                None
            };
            let kept = match prev {
                Some(i) => if i < rows {
                    Some(i)
                } else {
                    None
                },
                None => None,
            };
            sel.push(kept);
            t = t + 1;
        }
        self.selected_in_tab = sel;
        if self.current_tab >= tab_count {
            self.current_tab = 0;
        }
        self.state = AppState::Main;
        assert forall|u: int| 0 <= u < self.tab_count() implies match #[trigger] self.selected_in_tab@[u] {
            Some(i) => i < self.rows_of(u),
            None => true,
        } by {}
    }
}

} // verus!
