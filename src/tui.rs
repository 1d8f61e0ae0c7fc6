use vstd::prelude::*;

use crate::config::Config;
use crate::filter::{fuzzy_score, is_ranking, lemma_ranking_unique, rank_matches, skim_score};
use crate::parser::Keybinding;
use crate::text::{chars_of, push_all, string_of};
use vstd::math::min;
use vstd::arithmetic::div_mod::{
    lemma_div_is_ordered_by_denominator, lemma_fundamental_div_mod, lemma_mod_add_multiples_vanish,
    lemma_mod_bound, lemma_multiply_divide_lt, lemma_small_mod,
};

verus! {

/// The narrowest a column may be, in cells.
pub const MIN_COLUMN_WIDTH: u16 = 50;

/// Cells taken by the borders.
pub const COLUMN_MARGIN: u16 = 4;

/// A key press, as far as the browser tells keys apart.
#[derive(Debug, Clone, Copy, PartialEq, Eq, Structural)]
pub enum KeyInput {
    Char(char),
    Function(u8),
    Esc,
    Up,
    Down,
    Backspace,
    Enter,
    Other,
}

/// Whether the browser goes on after a key press.
#[derive(Debug, Clone, Copy, PartialEq, Eq, Structural)]
pub enum Flow {
    Continue,
    Quit,
}

/// The number of columns that fit in a terminal of the given width.
pub open spec fn columns_for(width: int) -> int {
    let usable = if width > COLUMN_MARGIN { width - COLUMN_MARGIN } else { 0 };
    let c = usable / (MIN_COLUMN_WIDTH as int);
    if c < 1 {
        1
    } else {
        c
    }
}

/// How many items each column holds: `len / columns`, rounded up.
pub open spec fn per_column(len: int, columns: int) -> int {
    if columns <= 0 {
        0
    } else {
        len / columns + if len % columns == 0 {
            0int
        } else {
            1int
        }
    }
}

/// The cursor of each column: only the column that holds the selection has one,
/// at the selection's row.
pub open spec fn column_cursors(selected: Option<usize>, len: int, columns: int) -> Seq<
    Option<usize>,
> {
    Seq::new(
        columns as nat,
        |c: int|
            match selected {
                Some(s) => {
                    let ipc = per_column(len, columns);
                    if ipc > 0 && c == (s as int) / ipc {
                        Some(((s as int) % ipc) as usize)
                    } else {
                        None
                    }
                },
                None => None,
            },
    )
}

/// The column cursors right after the column count changes: only the first
/// column has one, on its first row, and only when the view is not empty.
pub open spec fn reset_cursors(len: int, columns: int) -> Seq<Option<usize>> {
    Seq::new(
        columns as nat,
        |c: int|
            if c == 0 && len > 0 {
                Some(0usize)
            } else {
                None
            },
    )
}

/// The text that a query is matched against.
pub open spec fn search_line(kb: Keybinding) -> Seq<char> {
    kb.key@ + " "@ + kb.action@ + " "@ + kb.description@
}

/// The positions `0..n` in order.
pub open spec fn all_positions(n: int) -> Seq<usize> {
    Seq::new(n as nat, |i: int| i as usize)
}

/// The key types a character into the query: any character but those that
/// quit, toggle help or move.
pub open spec fn typed(key: KeyInput, help: bool) -> Option<char> {
    match key {
        KeyInput::Char(c) => if !help && c != 'q' && c != '?' && c != 'j' && c != 'k' {
            Some(c)
        } else {
            None
        },
        _ => None,
    }
}

pub open spec fn quits(key: KeyInput, help: bool) -> bool {
    !help && (key == KeyInput::Char('q') || key == KeyInput::Esc)
}

pub open spec fn toggles_help(key: KeyInput) -> bool {
    key == KeyInput::Char('?') || key == KeyInput::Function(1)
}

pub open spec fn moves_down(key: KeyInput, help: bool) -> bool {
    !help && (key == KeyInput::Down || key == KeyInput::Char('j'))
}

pub open spec fn moves_up(key: KeyInput, help: bool) -> bool {
    !help && (key == KeyInput::Up || key == KeyInput::Char('k'))
}

pub open spec fn erases(key: KeyInput, help: bool) -> bool {
    !help && key == KeyInput::Backspace
}

/// The state of the key binding browser.
pub struct App {
    pub keybindings: Vec<Keybinding>,
    /// Positions in `keybindings` of the bindings on show, in display order.
    pub filtered: Vec<usize>,
    pub search_query: String,
    /// The position in `filtered` of the selected binding.
    pub selected: Option<usize>,
    pub show_help: bool,
    pub config: Config,
    pub columns: usize,
    pub column_selection: Vec<Option<usize>>,
}

impl App {
    /// The scores of every binding against query `q`.
    pub open spec fn scores_for(&self, q: Seq<char>) -> Seq<Option<i64>> {
        Seq::new(
            self.keybindings@.len(),
            |i: int| skim_score(search_line(self.keybindings@[i]), q),
        )
    }

    /// The view that the current query asks for.
    pub open spec fn view_matches_query(&self) -> bool {
        if self.search_query@.len() == 0 {
            self.filtered@ == all_positions(self.keybindings@.len() as int)
        } else {
            is_ranking(
                self.scores_for(self.search_query@),
                self.config.ui.max_results as int,
                self.filtered@,
            )
        }
    }

    pub open spec fn wf(&self) -> bool {
        &&& forall|k: int|
            0 <= k < self.filtered@.len() ==> #[trigger] self.filtered@[k]
                < self.keybindings@.len()
        &&& 1 <= self.columns <= 1310
        &&& match self.selected {
            Some(s) => s < self.filtered@.len(),
            None => self.filtered@.len() == 0,
        }
        &&& (self.cursors_synced() || self.column_selection@ == reset_cursors(
            self.filtered@.len() as int,
            self.columns as int,
        ))
    }

    /// The column cursors follow the selection, as they do after every navigation
    /// or filter event.
    pub open spec fn cursors_synced(&self) -> bool {
        self.column_selection@ == column_cursors(
            self.selected,
            self.filtered@.len() as int,
            self.columns as int,
        )
    }

    pub open spec fn items_per_column_spec(&self) -> int {
        per_column(self.filtered@.len() as int, self.columns as int)
    }

    pub fn new(keybindings: Vec<Keybinding>, config: &Config) -> (r: Self)
        ensures
            r.wf(),
            r.keybindings@ == keybindings@,
            r.filtered@ == all_positions(keybindings@.len() as int),
            r.search_query@.len() == 0,
            r.selected == (if keybindings@.len() == 0 {
                None
            } else {
                Some(0usize)
            }),
            r.columns == 1,
            !r.show_help,
            r.view_matches_query(),
            r.cursors_synced(),
            r.config.ui.max_results == config.ui.max_results,
            r.config.ui.show_raw_command == config.ui.show_raw_command,
            r.config.ui.show_descriptions == config.ui.show_descriptions,
    {
        let n = keybindings.len();
        let filtered = Self::identity_view(n);
        let selected = if n == 0 {
            None
        } else {
            Some(0)
        };
        let mut own_config = config.clone();
        own_config.ui.max_results = config.ui.max_results;
        own_config.ui.show_raw_command = config.ui.show_raw_command;
        own_config.ui.show_descriptions = config.ui.show_descriptions;
        let mut app = App {
            keybindings,
            filtered,
            search_query: String::new(),
            selected,
            show_help: false,
            config: own_config,
            columns: 1,
            column_selection: Vec::new(),
        };
        app.update_column_selection();
        app
    }

    fn identity_view(n: usize) -> (r: Vec<usize>)
        ensures
            r@ == all_positions(n as int),
    {
        let mut r: Vec<usize> = Vec::new();
        let mut i: usize = 0;
        while i < n
            invariant
                i <= n,
                r@ == all_positions(i as int),
            decreases n - i,
        {
            r.push(i);
            proof {
                assert(r@ =~= all_positions(i + 1));
            }
            i = i + 1;
        }
        r
    }

    /// How many items each column holds.
    pub fn get_items_per_column(&self) -> (r: usize)
        requires
            self.columns >= 1,
        ensures
            r == self.items_per_column_spec(),
    {
        let len = self.filtered.len();
        let q = len / self.columns;
        if len % self.columns == 0 {
            q
        } else {
            proof {
                assert(self.columns != 1);
                lemma_div_is_ordered_by_denominator(len as int, 2, self.columns as int);
            }
            q + 1
        }
    }

    /// The column that holds the selection (0 when nothing is selected).
    pub fn get_current_column(&self) -> (r: usize)
        requires
            self.columns >= 1,
        ensures
            r as int == (match self.selected {
                Some(s) => if self.items_per_column_spec() > 0 {
                    (s as int) / self.items_per_column_spec()
                } else {
                    0
                },
                None => 0,
            }),
    {
        match self.selected {
            Some(s) => {
                let ipc = self.get_items_per_column();
                if ipc > 0 {
                    s / ipc
                } else {
                    0
                }
            },
            None => 0,
        }
    }

    /// The row of the selection in its column (0 when nothing is selected).
    pub fn get_current_row_in_column(&self) -> (r: usize)
        requires
            self.columns >= 1,
        ensures
            r as int == (match self.selected {
                Some(s) => if self.items_per_column_spec() > 0 {
                    (s as int) % self.items_per_column_spec()
                } else {
                    0
                },
                None => 0,
            }),
    {
        match self.selected {
            Some(s) => {
                let ipc = self.get_items_per_column();
                if ipc > 0 {
                    s % ipc
                } else {
                    0
                }
            },
            None => 0,
        }
    }

    /// Sets the cursor of each column from the selection.
    fn update_column_selection(&mut self)
        requires
            1 <= old(self).columns,
        ensures
            final(self).column_selection@ == column_cursors(
                old(self).selected,
                old(self).filtered@.len() as int,
                old(self).columns as int,
            ),
            final(self).keybindings == old(self).keybindings,
            final(self).filtered == old(self).filtered,
            final(self).search_query == old(self).search_query,
            final(self).selected == old(self).selected,
            final(self).show_help == old(self).show_help,
            final(self).config == old(self).config,
            final(self).columns == old(self).columns,
    {
        let current_column = self.get_current_column();
        let current_row = self.get_current_row_in_column();
        let ghost target = column_cursors(
            self.selected,
            self.filtered@.len() as int,
            self.columns as int,
        );
        let mut cols: Vec<Option<usize>> = Vec::new();
        let mut c: usize = 0;
        while c < self.columns
            invariant
                c <= self.columns,
                target == column_cursors(
                    self.selected,
                    self.filtered@.len() as int,
                    self.columns as int,
                ),
                self.selected is Some ==> self.items_per_column_spec() > 0 ==> current_column
                    == (self.selected->0 as int) / self.items_per_column_spec() && current_row
                    == (self.selected->0 as int) % self.items_per_column_spec(),
                cols@ == target.subrange(0, c as int),
            decreases self.columns - c,
        {
            if self.selected.is_some() && self.get_items_per_column() > 0 && c == current_column {
                cols.push(Some(current_row));
            } else {
                cols.push(None);
            }
            proof {
                assert(cols@ =~= target.subrange(0, c + 1));
            }
            c = c + 1;
        }
        proof {
            assert(target.subrange(0, c as int) =~= target);
        }
        self.column_selection = cols;
    }

    /// Moves the selection one down, from the last binding to the first.
    pub fn next(&mut self)
        requires
            old(self).wf(),
        ensures
            final(self).wf(),
            final(self).cursors_synced(),
            final(self).selected == (match old(self).selected {
                Some(s) => Some(((s + 1) % old(self).filtered@.len() as int) as usize),
                None => None,
            }),
            final(self).keybindings == old(self).keybindings,
            final(self).filtered == old(self).filtered,
            final(self).search_query == old(self).search_query,
            final(self).columns == old(self).columns,
            final(self).show_help == old(self).show_help,
            final(self).config == old(self).config,
    {
        if self.filtered.len() == 0 {
            proof {
                assert(reset_cursors(0, self.columns as int) =~= column_cursors(
                    None,
                    0,
                    self.columns as int,
                ));
            }
            return;
        }
        let i = match self.selected {
            Some(i) => {
                if i >= self.filtered.len() - 1 {
                    0
                } else {
                    i + 1
                }
            },
            None => 0,
        };
        proof {
            let n = self.filtered@.len() as int;
            let s = old(self).selected->0 as int;
            if s + 1 < n {
                lemma_small_mod((s + 1) as nat, n as nat);
            } else {
                assert(s + 1 == n);
                vstd::arithmetic::div_mod::lemma_mod_self_0(n);
            }
        }
        self.selected = Some(i);
        self.update_column_selection();
    }

    /// Moves the selection one up, from the first binding to the last.
    pub fn previous(&mut self)
        requires
            old(self).wf(),
        ensures
            final(self).wf(),
            final(self).cursors_synced(),
            final(self).selected == (match old(self).selected {
                Some(s) => Some(
                    ((s + old(self).filtered@.len() - 1) % old(self).filtered@.len() as int) as usize,
                ),
                None => None,
            }),
            final(self).keybindings == old(self).keybindings,
            final(self).filtered == old(self).filtered,
            final(self).search_query == old(self).search_query,
            final(self).columns == old(self).columns,
            final(self).show_help == old(self).show_help,
            final(self).config == old(self).config,
    {
        if self.filtered.len() == 0 {
            proof {
                assert(reset_cursors(0, self.columns as int) =~= column_cursors(
                    None,
                    0,
                    self.columns as int,
                ));
            }
            return;
        }
        let i = match self.selected {
            Some(i) => {
                if i == 0 {
                    self.filtered.len() - 1
                } else {
                    i - 1
                }
            },
            None => 0,
        };
        proof {
            let n = self.filtered@.len() as int;
            let s = old(self).selected->0 as int;
            if s == 0 {
                lemma_small_mod((n - 1) as nat, n as nat);
            } else {
                lemma_mod_add_multiples_vanish(s - 1, n);
                lemma_small_mod((s - 1) as nat, n as nat);
                assert(n + (s - 1) == s + n - 1);
            }
        }
        self.selected = Some(i);
        self.update_column_selection();
    }

    /// The score of every binding against the query.
    fn match_scores(&self) -> (r: Vec<Option<i64>>)
        ensures
            r@ == self.scores_for(self.search_query@),
    {
        let n = self.keybindings.len();
        let space = chars_of(" ");
        let mut r: Vec<Option<i64>> = Vec::new();
        let mut i: usize = 0;
        while i < n
            invariant
                n == self.keybindings@.len(),
                space@ == " "@,
                i <= n,
                r@ == self.scores_for(self.search_query@).subrange(0, i as int),
            decreases n - i,
        {
            let kb = &self.keybindings[i];
            let mut t = chars_of(kb.key.as_str());
            push_all(&mut t, space.as_slice());
            push_all(&mut t, chars_of(kb.action.as_str()).as_slice());
            push_all(&mut t, space.as_slice());
            push_all(&mut t, chars_of(kb.description.as_str()).as_slice());
            let line = string_of(t.as_slice());
            let score = fuzzy_score(line.as_str(), self.search_query.as_str());
            r.push(score);
            proof {
                assert(r@ =~= self.scores_for(self.search_query@).subrange(0, i + 1));
            }
            i = i + 1;
        }
        proof {
            assert(r@ =~= self.scores_for(self.search_query@));
        }
        r
    }

    /// Recomputes the view from the query: every binding, in order, for an empty
    /// query; else the matches, best first, at most `max_results` of them. The
    /// selection goes back to the first binding.
    pub fn filter_keybindings(&mut self)
        requires
            old(self).wf(),
        ensures
            final(self).wf(),
            final(self).cursors_synced(),
            final(self).view_matches_query(),
            final(self).selected == (if final(self).filtered@.len() == 0 {
                None
            } else {
                Some(0usize)
            }),
            final(self).keybindings == old(self).keybindings,
            final(self).search_query == old(self).search_query,
            final(self).config == old(self).config,
            final(self).columns == old(self).columns,
            final(self).show_help == old(self).show_help,
    {
        let q = chars_of(self.search_query.as_str());
        if q.len() == 0 {
            self.filtered = Self::identity_view(self.keybindings.len());
        } else {
            let scores = self.match_scores();
            self.filtered = rank_matches(&scores, self.config.ui.max_results);
        }
        self.selected = if self.filtered.len() == 0 {
            None
        } else {
            Some(0)
        };
        self.update_column_selection();
    }

    /// Handles one key press.
    pub fn handle_key(&mut self, key: KeyInput) -> (r: Flow)
        requires
            old(self).wf(),
            old(self).view_matches_query(),
        ensures
            final(self).wf(),
            final(self).view_matches_query(),
            r == (if quits(key, old(self).show_help) {
                Flow::Quit
            } else {
                Flow::Continue
            }),
            final(self).show_help == (if quits(key, old(self).show_help) {
                old(self).show_help
            } else if toggles_help(key) {
                !old(self).show_help
            } else if key == KeyInput::Esc {
                false
            } else {
                old(self).show_help
            }),
            final(self).search_query@ == (match typed(key, old(self).show_help) {
                Some(c) => old(self).search_query@.push(c),
                None => if erases(key, old(self).show_help) && old(self).search_query@.len() > 0 {
                    old(self).search_query@.drop_last()
                } else {
                    old(self).search_query@
                },
            }),
            moves_down(key, old(self).show_help) ==> final(self).selected == (match old(
                self,
            ).selected {
                Some(s) => Some(((s + 1) % old(self).filtered@.len() as int) as usize),
                None => None,
            }),
            moves_up(key, old(self).show_help) ==> final(self).selected == (match old(
                self,
            ).selected {
                Some(s) => Some(
                    ((s + old(self).filtered@.len() - 1) % old(self).filtered@.len() as int) as usize,
                ),
                None => None,
            }),
            (typed(key, old(self).show_help) is Some || erases(key, old(self).show_help))
                ==> final(self).selected == (if final(self).filtered@.len() == 0 {
                None
            } else {
                Some(0usize)
            }),
            !(typed(key, old(self).show_help) is Some || erases(key, old(self).show_help) || moves_down(key, old(self).show_help)
                || moves_up(key, old(self).show_help)) ==> final(self).selected == old(
                self,
            ).selected && final(self).filtered == old(self).filtered
                && final(self).column_selection == old(self).column_selection,
            (typed(key, old(self).show_help) is Some || erases(key, old(self).show_help) || moves_down(key, old(self).show_help)
                || moves_up(key, old(self).show_help)) ==> final(self).cursors_synced(),
            final(self).keybindings == old(self).keybindings,
            final(self).columns == old(self).columns,
            final(self).config == old(self).config,
            (moves_down(key, old(self).show_help) || moves_up(key, old(self).show_help))
                ==> final(self).filtered == old(self).filtered,
    {
        let help = self.show_help;
        if !help && (key == KeyInput::Char('q') || key == KeyInput::Esc) {
            return Flow::Quit;
        }
        if key == KeyInput::Char('?') || key == KeyInput::Function(1) {
            self.show_help = !help;
        } else if key == KeyInput::Esc {
            self.show_help = false;
        } else if !help {
            match key {
                KeyInput::Down | KeyInput::Char('j') => {
                    self.next();
                },
                KeyInput::Up | KeyInput::Char('k') => {
                    self.previous();
                },
                KeyInput::Char(c) => {
                    let mut q = chars_of(self.search_query.as_str());
                    q.push(c);
                    self.search_query = string_of(q.as_slice());
                    self.filter_keybindings();
                },
                KeyInput::Backspace => {
                    let mut q = chars_of(self.search_query.as_str());
                    if q.len() > 0 {
                        q.pop();
                    }
                    self.search_query = string_of(q.as_slice());
                    self.filter_keybindings();
                },
                _ => {},
            }
        }
        Flow::Continue
    }

    /// The positions in the view that column `col` shows: from the first to just
    /// before the second.
    pub fn column_range(&self, col: usize) -> (r: (usize, usize))
        requires
            self.wf(),
            col < self.columns,
        ensures
            r.0 as int == min(col * self.items_per_column_spec(), self.filtered@.len() as int),
            r.1 as int == min(
                (col + 1) * self.items_per_column_spec(),
                self.filtered@.len() as int,
            ),
    {
        let ipc = self.get_items_per_column();
        let len = self.filtered.len();
        proof {
            assert((col as int + 1) * (ipc as int) <= 1311 * 0x1_0000_0000_0000_0000) by (nonlinear_arith)
                requires
                    col < 1310,
                    0 <= ipc < 0x1_0000_0000_0000_0000,
            ;
            assert((col as int) * (ipc as int) <= (col as int + 1) * (ipc as int)) by (nonlinear_arith)
                requires
                    col >= 0,
                    ipc >= 0,
            ;
        }
        let start = (col as u128) * (ipc as u128);
        let end = (col as u128 + 1) * (ipc as u128);
        let s = if start < len as u128 {
            start as usize
        } else {
            len
        };
        let e = if end < len as u128 {
            end as usize
        } else {
            len
        };
        (s, e)
    }

    /// The status line: the selected binding's raw directive or its category and
    /// action, as configured; a notice when nothing is selected.
    pub fn status_text(&self) -> (r: String)
        requires
            self.wf(),
        ensures
            r@ == (match self.selected {
                Some(s) => {
                    let kb = self.keybindings@[self.filtered@[s as int] as int];
                    if self.config.ui.show_raw_command {
                        "Raw: "@ + kb.raw_command@
                    } else {
                        "Category: "@ + kb.category@ + " | Action: "@ + kb.action@
                    }
                },
                None => "No keybindings found"@,
            }),
    {
        match self.selected {
            Some(s) => {
                let kb = &self.keybindings[self.filtered[s]];
                let mut t: Vec<char>;
                if self.config.ui.show_raw_command {
                    t = chars_of("Raw: ");
                    push_all(&mut t, chars_of(kb.raw_command.as_str()).as_slice());
                } else {
                    t = chars_of("Category: ");
                    push_all(&mut t, chars_of(kb.category.as_str()).as_slice());
                    push_all(&mut t, chars_of(" | Action: ").as_slice());
                    push_all(&mut t, chars_of(kb.action.as_str()).as_slice());
                }
                string_of(t.as_slice())
            },
            None => String::from_str("No keybindings found"),
        }
    }

    /// Sets the number of columns from the terminal width; the selection stays,
    /// and the column cursors follow it.
    pub fn calculate_columns(&mut self, terminal_width: u16)
        requires
            old(self).wf(),
        ensures
            final(self).wf(),
            final(self).columns == columns_for(terminal_width as int),
            final(self).columns == old(self).columns ==> final(self).column_selection
                == old(self).column_selection,
            final(self).columns != old(self).columns ==> final(self).column_selection@
                == reset_cursors(final(self).filtered@.len() as int, final(self).columns as int),
            final(self).selected == old(self).selected,
            final(self).config == old(self).config,
            final(self).keybindings == old(self).keybindings,
            final(self).filtered == old(self).filtered,
            final(self).search_query == old(self).search_query,
            final(self).show_help == old(self).show_help,
    {
        let usable = if terminal_width > COLUMN_MARGIN {
            terminal_width - COLUMN_MARGIN
        } else {
            0
        };
        let c = usable / MIN_COLUMN_WIDTH;
        let new_columns = if c < 1 {
            1
        } else {
            c
        };
        if new_columns as usize != self.columns {
            self.columns = new_columns as usize;
            let nonempty = self.filtered.len() > 0;
            let ghost target = reset_cursors(self.filtered@.len() as int, self.columns as int);
            let mut cols: Vec<Option<usize>> = Vec::new();
            let mut c: usize = 0;
            while c < self.columns
                invariant
                    c <= self.columns,
                    nonempty == (self.filtered@.len() > 0),
                    target == reset_cursors(self.filtered@.len() as int, self.columns as int),
                    cols@ == target.subrange(0, c as int),
                decreases self.columns - c,
            {
                if c == 0 && nonempty {
                    cols.push(Some(0));
                } else {
                    cols.push(None);
                }
                proof {
                    assert(cols@ =~= target.subrange(0, c + 1));
                }
                c = c + 1;
            }
            proof {
                assert(target.subrange(0, c as int) =~= target);
            }
            self.column_selection = cols;
        }
    }
}

/// After a navigation or filter event (the cursors follow the selection), with a
/// binding selected, exactly one column has a cursor: the column
/// `selection / items_per_column`, and its column and row give back the selection.
pub proof fn lemma_one_column_selected(app: App)
    requires
        app.wf(),
        app.cursors_synced(),
        app.selected is Some,
    ensures
        ({
            let s = app.selected->0 as int;
            let ipc = app.items_per_column_spec();
            let col = s / ipc;
            &&& ipc > 0
            &&& 0 <= col < app.columns
            &&& forall|c: int|
                0 <= c < app.columns ==> (#[trigger] app.column_selection@[c] is Some <==> c == col)
            &&& col * ipc + app.column_selection@[col]->0 as int == s
        }),
{
    let s = app.selected->0 as int;
    let len = app.filtered@.len() as int;
    let cols = app.columns as int;
    let ipc = app.items_per_column_spec();
    lemma_fundamental_div_mod(len, cols);
    lemma_mod_bound(len, cols);
    assert(ipc * cols >= len) by (nonlinear_arith)
        requires
            len == cols * (len / cols) + len % cols,
            0 <= len % cols < cols,
            ipc == len / cols + if len % cols == 0 { 0int } else { 1int },
            cols >= 1,
    ;
    assert(ipc > 0) by (nonlinear_arith)
        requires
            ipc * cols >= len,
            len > 0,
            cols >= 1,
            ipc >= 0,
    ;
    lemma_multiply_divide_lt(s, ipc, cols);
    lemma_fundamental_div_mod(s, ipc);
    lemma_mod_bound(s, ipc);
    let col = s / ipc;
    assert(app.column_selection@[col] == Some((s % ipc) as usize));
    assert(col * ipc + s % ipc == s) by (nonlinear_arith)
        requires
            s == ipc * (s / ipc) + s % ipc,
            col == s / ipc,
    ;
}

/// Filtering is a function of the bindings, the query and the bound: two states
/// that agree on those show the same view.
pub proof fn lemma_filter_idempotent(a: App, b: App)
    requires
        a.view_matches_query(),
        b.view_matches_query(),
        a.keybindings@ == b.keybindings@,
        a.search_query@ == b.search_query@,
        a.config.ui.max_results == b.config.ui.max_results,
    ensures
        a.filtered@ == b.filtered@,
{
    if a.search_query@.len() > 0 {
        assert(a.scores_for(a.search_query@) =~= b.scores_for(b.search_query@));
        lemma_ranking_unique(
            a.scores_for(a.search_query@),
            a.config.ui.max_results as int,
            a.filtered@,
            b.filtered@,
        );
    }
}

/// The view holds at most `max_results` bindings, for a non-empty query; an empty
/// query shows every binding.
pub proof fn lemma_filter_cap(app: App)
    requires
        app.view_matches_query(),
        app.search_query@.len() > 0 || app.keybindings@.len() <= app.config.ui.max_results,
    ensures
        app.filtered@.len() <= app.config.ui.max_results,
{
}

} // verus!
