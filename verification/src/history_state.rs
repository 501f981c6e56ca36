//! Selection, filtering, and ordering state for the shell-history
//! browser. The table widget and clock-bound rendering live at the
//! edge; everything here is list logic over the aggregated commands.

use vstd::prelude::*;

use crate::clock::now_unix_millis;
use crate::history::{entry_views, CommandEntry, CommandEntryView, HistoryStats, InputMode, SortMode};
use crate::query::name_matches;
use crate::sorting::{lex_le, sort_indices_asc_str, sort_indices_desc_u64};
use crate::strutil::{contains_sub, lemma_push_contains, lower_of, lowercase};

verus! {

broadcast use vstd::seq_lib::group_to_multiset_ensures;

/// The order a sort mode asks for: most used first, most recent
/// first, or alphabetical by the case-folded command.
pub open spec fn entry_le(mode: SortMode, a: CommandEntryView, b: CommandEntryView) -> bool {
    match mode {
        SortMode::UsageCount => a.count >= b.count,
        SortMode::Timestamp => a.timestamp >= b.timestamp,
        SortMode::Alphabetical => lex_le(lower_of(a.cmd), lower_of(b.cmd)),
    }
}

/// The filtered index list is ordered as the mode asks.
pub open spec fn sorted_by_mode(
    cmds: Seq<CommandEntryView>,
    idx: Seq<usize>,
    mode: SortMode,
) -> bool {
    forall|i: int, j: int|
        0 <= i < j < idx.len() ==> entry_le(
            mode,
            cmds[#[trigger] idx[i] as int],
            cmds[#[trigger] idx[j] as int],
        )
}

/// The filtered index list holds exactly the commands the query
/// matches (all of them for an empty query), ordered as the mode asks.
pub open spec fn filter_applied(
    cmds: Seq<CommandEntryView>,
    q: Seq<char>,
    idx: Seq<usize>,
    mode: SortMode,
) -> bool {
    &&& if q.len() == 0 {
        forall|v: usize| idx.contains(v) <==> (v as int) < cmds.len()
    } else {
        forall|v: usize|
            idx.contains(v) <==> (v as int) < cmds.len() && name_matches(
                q,
                cmds[v as int].cmd,
            )
    }
    &&& sorted_by_mode(cmds, idx, mode)
}

/// Browser state over the aggregated command list.
#[derive(Debug)]
pub struct HistoryState {
    /// Every aggregated command.
    pub commands: Vec<CommandEntry>,
    /// Indices into `commands` after filtering, in display order.
    pub filtered_indices: Vec<usize>,
    /// Per-command statistics.
    pub stats: Vec<(String, HistoryStats)>,
    /// Position of the selection within the filtered list.
    pub selected_index: usize,
    pub search_query: String,
    pub input_mode: InputMode,
    pub sort_mode: SortMode,
    /// A message and the millisecond clock reading when it was set.
    pub notification: Option<(String, u64)>,
}

impl HistoryState {
    /// Every filtered index points into the command list.
    pub open spec fn inv(&self) -> bool {
        forall|k: int|
            0 <= k < self.filtered_indices@.len() ==> (#[trigger] self.filtered_indices@[
                k
            ]) < self.commands@.len()
    }

    /// A browser over the given commands, everything visible and
    /// nothing selected yet but the first row.
    pub fn new(commands: Vec<CommandEntry>, stats: Vec<(String, HistoryStats)>) -> (r:
        HistoryState)
        ensures
            r.inv(),
            r.commands == commands,
            r.stats == stats,
            r.filtered_indices@.len() == commands@.len(),
            forall|k: int|
                0 <= k < r.filtered_indices@.len() ==> (#[trigger] r.filtered_indices@[k]) == k,
            r.selected_index == 0,
            r.search_query@.len() == 0,
            r.input_mode == InputMode::Normal,
            r.sort_mode == SortMode::UsageCount,
            r.notification is None,
    {
        let n = commands.len();
        let mut filtered: Vec<usize> = Vec::new();
        let mut i: usize = 0;
        while i < n
            invariant
                0 <= i <= n,
                filtered@.len() == i,
                forall|k: int| 0 <= k < i ==> (#[trigger] filtered@[k]) == k,
            decreases n - i,
        {
            filtered.push(i);
            i = i + 1;
        }
        HistoryState {
            commands,
            filtered_indices: filtered,
            stats,
            selected_index: 0,
            search_query: String::new(),
            input_mode: InputMode::Normal,
            sort_mode: SortMode::UsageCount,
            notification: None,
        }
    }

    /// Reorders the filtered list by the current sort mode: the same
    /// indices, ordered as the mode asks.
    pub fn apply_sort(&mut self)
        requires
            old(self).inv(),
        ensures
            final(self).inv(),
            final(self).filtered_indices@.to_multiset() == old(self).filtered_indices@.to_multiset(),
            sorted_by_mode(
                entry_views(final(self).commands@),
                final(self).filtered_indices@,
                final(self).sort_mode,
            ),
            final(self).commands == old(self).commands,
            final(self).stats == old(self).stats,
            final(self).selected_index == old(self).selected_index,
            final(self).search_query == old(self).search_query,
            final(self).input_mode == old(self).input_mode,
            final(self).sort_mode == old(self).sort_mode,
            final(self).notification == old(self).notification,
    {
        let ghost cmds = entry_views(self.commands@);
        let n = self.commands.len();
        match self.sort_mode {
            SortMode::UsageCount => {
                let mut keys: Vec<u64> = Vec::new();
                let mut i: usize = 0;
                while i < n
                    invariant
                        0 <= i <= n,
                        n == self.commands@.len(),
                        cmds == entry_views(self.commands@),
                        keys@.len() == i,
                        forall|k: int|
                            0 <= k < i ==> (#[trigger] keys@[k]) as int == cmds[k].count as int,
                    decreases n - i,
                {
                    proof {
                        assert(cmds[i as int] == self.commands@[i as int]@);
                    }
                    keys.push(self.commands[i].count as u64);
                    i = i + 1;
                }
                let sorted = sort_indices_desc_u64(&self.filtered_indices, &keys);
                proof {
                    assert(sorted_by_mode(cmds, sorted@, SortMode::UsageCount));
                }
                self.filtered_indices = sorted;
            },
            SortMode::Timestamp => {
                let mut keys: Vec<u64> = Vec::new();
                let mut i: usize = 0;
                while i < n
                    invariant
                        0 <= i <= n,
                        n == self.commands@.len(),
                        cmds == entry_views(self.commands@),
                        keys@.len() == i,
                        forall|k: int|
                            0 <= k < i ==> (#[trigger] keys@[k]) as int == cmds[k].timestamp
                                + 0x8000_0000_0000_0000,
                    decreases n - i,
                {
                    proof {
                        assert(cmds[i as int] == self.commands@[i as int]@);
                    }
                    let ts = self.commands[i].timestamp;
                    let key: u64 = if ts >= 0 {
                        (ts as u64) + 0x8000_0000_0000_0000u64
                    } else {
                        // Adding the offset in the signed domain:
                        // negative timestamps land below the midpoint.
                        (ts + 0x4000_0000_0000_0000i64 + 0x4000_0000_0000_0000i64) as u64
                    };
                    keys.push(key);
                    i = i + 1;
                }
                let sorted = sort_indices_desc_u64(&self.filtered_indices, &keys);
                proof {
                    assert(sorted_by_mode(cmds, sorted@, SortMode::Timestamp));
                }
                self.filtered_indices = sorted;
            },
            SortMode::Alphabetical => {
                let mut keys: Vec<String> = Vec::new();
                let mut i: usize = 0;
                while i < n
                    invariant
                        0 <= i <= n,
                        n == self.commands@.len(),
                        cmds == entry_views(self.commands@),
                        keys@.len() == i,
                        forall|k: int| 0 <= k < i ==> (#[trigger] keys@[k])@ == lower_of(
                            cmds[k].cmd,
                        ),
                    decreases n - i,
                {
                    proof {
                        assert(cmds[i as int] == self.commands@[i as int]@);
                    }
                    keys.push(lowercase(self.commands[i].cmd.as_str()));
                    i = i + 1;
                }
                let sorted = sort_indices_asc_str(&self.filtered_indices, &keys);
                proof {
                    assert(sorted_by_mode(cmds, sorted@, SortMode::Alphabetical));
                }
                self.filtered_indices = sorted;
            },
        }
    }

    /// Rebuilds the filtered list from the search query: every command
    /// for an empty query, otherwise a case-insensitive substring
    /// match; then orders it and resets the selection.
    pub fn apply_filters(&mut self)
        ensures
            final(self).inv(),
            filter_applied(
                entry_views(final(self).commands@),
                old(self).search_query@,
                final(self).filtered_indices@,
                final(self).sort_mode,
            ),
            final(self).commands == old(self).commands,
            final(self).stats == old(self).stats,
            final(self).selected_index == 0,
            final(self).search_query == old(self).search_query,
            final(self).input_mode == old(self).input_mode,
            final(self).sort_mode == old(self).sort_mode,
            final(self).notification == old(self).notification,
    {
        let ghost cmds = entry_views(self.commands@);
        let n = self.commands.len();
        let mut filtered: Vec<usize> = Vec::new();
        if self.search_query.as_str().is_empty() {
            let mut i: usize = 0;
            while i < n
                invariant
                    0 <= i <= n,
                    n == self.commands@.len(),
                    forall|k: int| 0 <= k < filtered@.len() ==> (#[trigger] filtered@[k]) < n,
                    forall|v: usize| filtered@.contains(v) <==> (v as int) < i,
                decreases n - i,
            {
                proof {
                    lemma_push_contains(filtered@, i);
                }
                filtered.push(i);
                i = i + 1;
            }
        } else {
            let query_lower = lowercase(self.search_query.as_str());
            let mut i: usize = 0;
            while i < n
                invariant
                    0 <= i <= n,
                    n == self.commands@.len(),
                    cmds == entry_views(self.commands@),
                    query_lower@ == lower_of(old(self).search_query@),
                    self.search_query == old(self).search_query,
                    self.commands == old(self).commands,
                    forall|k: int| 0 <= k < filtered@.len() ==> (#[trigger] filtered@[k]) < n,
                    forall|v: usize|
                        filtered@.contains(v) <==> (v as int) < i && name_matches(
                            old(self).search_query@,
                            cmds[v as int].cmd,
                        ),
                decreases n - i,
            {
                proof {
                    assert(cmds[i as int] == self.commands@[i as int]@);
                }
                let name_lower = lowercase(self.commands[i].cmd.as_str());
                if contains_sub(name_lower.as_str(), query_lower.as_str()) {
                    proof {
                        lemma_push_contains(filtered@, i);
                    }
                    filtered.push(i);
                }
                i = i + 1;
            }
        }
        self.filtered_indices = filtered;
        let ghost before_sort = self.filtered_indices@;
        self.apply_sort();
        proof {
            assert forall|v: usize| #[trigger] self.filtered_indices@.contains(v)
                <==> before_sort.contains(v) by {
                assert(self.filtered_indices@.to_multiset().count(v) == before_sort.to_multiset().count(
                    v,
                ));
            }
        }
        self.selected_index = 0;
    }

    /// Replaces the search query and refilters.
    pub fn update_search(&mut self, query: String)
        ensures
            final(self).inv(),
            final(self).search_query == query,
            filter_applied(
                entry_views(final(self).commands@),
                query@,
                final(self).filtered_indices@,
                final(self).sort_mode,
            ),
            final(self).commands == old(self).commands,
            final(self).stats == old(self).stats,
            final(self).selected_index == 0,
            final(self).input_mode == old(self).input_mode,
            final(self).sort_mode == old(self).sort_mode,
            final(self).notification == old(self).notification,
    {
        self.search_query = query;
        self.apply_filters();
    }

    /// Steps to the next sort mode, reorders, and resets the
    /// selection.
    pub fn cycle_sort_mode(&mut self)
        requires
            old(self).inv(),
        ensures
            final(self).inv(),
            final(self).sort_mode == match old(self).sort_mode {
                SortMode::UsageCount => SortMode::Timestamp,
                SortMode::Timestamp => SortMode::Alphabetical,
                SortMode::Alphabetical => SortMode::UsageCount,
            },
            final(self).filtered_indices@.to_multiset() == old(self).filtered_indices@.to_multiset(),
            sorted_by_mode(
                entry_views(final(self).commands@),
                final(self).filtered_indices@,
                final(self).sort_mode,
            ),
            final(self).commands == old(self).commands,
            final(self).selected_index == 0,
    {
        self.sort_mode = self.sort_mode.next();
        self.apply_sort();
        self.selected_index = 0;
    }

    /// The selected command, when the selection and its index are in
    /// range.
    pub fn get_selected_command(&self) -> (r: Option<&CommandEntry>)
        ensures
            match r {
                Some(c) => self.selected_index < self.filtered_indices@.len()
                    && (self.filtered_indices@[self.selected_index as int] as int)
                    < self.commands@.len() && c == &self.commands@[self.filtered_indices@[
                    self.selected_index as int
                ] as int],
                None => self.selected_index >= self.filtered_indices@.len() || (
                self.filtered_indices@[self.selected_index as int] as int)
                    >= self.commands@.len(),
            },
    {
        if self.selected_index < self.filtered_indices.len() {
            let idx = self.filtered_indices[self.selected_index];
            if idx < self.commands.len() {
                Some(&self.commands[idx])
            } else {
                None
            }
        } else {
            None
        }
    }

    /// Moves the selection down one row, wrapping to the top.
    pub fn select_next(&mut self)
        ensures
            final(self).selected_index as int == if old(self).filtered_indices@.len() == 0 {
                old(self).selected_index as int
            } else {
                (old(self).selected_index + 1) as int % old(self).filtered_indices@.len() as int
            },
            final(self).filtered_indices == old(self).filtered_indices,
            final(self).commands == old(self).commands,
    {
        if self.filtered_indices.is_empty() {
            return ;
        }
        let len = self.filtered_indices.len();
        let cur = self.selected_index % len;
        proof {
            let a = old(self).selected_index as int;
            let n = len as int;
            if n > 1 {
                vstd::arithmetic::div_mod::lemma_small_mod(1nat, n as nat);
            }
            vstd::arithmetic::div_mod::lemma_add_mod_noop(a, 1, n);
            assert((a % n + 1) % n == (a + 1) % n);
        }
        self.selected_index = (cur + 1) % len;
    }

    /// Moves the selection up one row, wrapping to the bottom.
    pub fn select_previous(&mut self)
        ensures
            final(self).selected_index as int == if old(self).filtered_indices@.len() == 0 {
                old(self).selected_index as int
            } else if old(self).selected_index == 0 {
                old(self).filtered_indices@.len() - 1
            } else {
                old(self).selected_index - 1
            },
            final(self).filtered_indices == old(self).filtered_indices,
            final(self).commands == old(self).commands,
    {
        if self.filtered_indices.is_empty() {
            return ;
        }
        if self.selected_index == 0 {
            self.selected_index = self.filtered_indices.len() - 1;
        } else {
            self.selected_index = self.selected_index - 1;
        }
    }

    /// Moves the selection down a page of ten rows, stopping at the
    /// bottom.
    pub fn page_down(&mut self)
        ensures
            final(self).selected_index as int == if old(self).filtered_indices@.len() == 0 {
                old(self).selected_index as int
            } else if old(self).selected_index + 10 < old(self).filtered_indices@.len() {
                old(self).selected_index + 10
            } else {
                old(self).filtered_indices@.len() - 1
            },
            final(self).filtered_indices == old(self).filtered_indices,
            final(self).commands == old(self).commands,
    {
        if self.filtered_indices.is_empty() {
            return ;
        }
        let last = self.filtered_indices.len() - 1;
        if self.selected_index < last && last - self.selected_index > 10 {
            self.selected_index = self.selected_index + 10;
        } else {
            self.selected_index = last;
        }
    }

    /// Moves the selection up a page of ten rows, stopping at the top.
    pub fn page_up(&mut self)
        ensures
            final(self).selected_index as int == if old(self).filtered_indices@.len() == 0 {
                old(self).selected_index as int
            } else if old(self).selected_index >= 10 {
                old(self).selected_index - 10
            } else {
                0int
            },
            final(self).filtered_indices == old(self).filtered_indices,
            final(self).commands == old(self).commands,
    {
        if self.filtered_indices.is_empty() {
            return ;
        }
        if self.selected_index >= 10 {
            self.selected_index = self.selected_index - 10;
        } else {
            self.selected_index = 0;
        }
    }

    /// Jumps to the first row.
    pub fn select_first(&mut self)
        ensures
            final(self).selected_index as int == if old(self).filtered_indices@.len() == 0 {
                old(self).selected_index as int
            } else {
                0int
            },
            final(self).filtered_indices == old(self).filtered_indices,
            final(self).commands == old(self).commands,
    {
        if !self.filtered_indices.is_empty() {
            self.selected_index = 0;
        }
    }

    /// Jumps to the last row.
    pub fn select_last(&mut self)
        ensures
            final(self).selected_index as int == if old(self).filtered_indices@.len() == 0 {
                old(self).selected_index as int
            } else {
                old(self).filtered_indices@.len() - 1
            },
            final(self).filtered_indices == old(self).filtered_indices,
            final(self).commands == old(self).commands,
    {
        if !self.filtered_indices.is_empty() {
            self.selected_index = self.filtered_indices.len() - 1;
        }
    }

    /// Shows a message, stamped with the current clock reading.
    pub fn set_notification(&mut self, message: String)
        ensures
            final(self).notification is Some,
            final(self).notification->Some_0.0 == message,
            final(self).commands == old(self).commands,
            final(self).filtered_indices == old(self).filtered_indices,
            final(self).selected_index == old(self).selected_index,
    {
        let stamp = now_unix_millis();
        self.notification = Some((message, stamp));
    }

    /// Drops a notification older than three seconds; whether one is
    /// old enough depends on the clock, so the notification either
    /// stays as it was or goes away.
    pub fn clear_expired_notifications(&mut self)
        ensures
            final(self).notification == old(self).notification || final(self).notification
                is None,
            old(self).notification is None ==> final(self).notification is None,
            final(self).commands == old(self).commands,
            final(self).filtered_indices == old(self).filtered_indices,
            final(self).selected_index == old(self).selected_index,
    {
        let expired = match &self.notification {
            Some(pair) => {
                let now = now_unix_millis();
                now >= pair.1 && now - pair.1 >= 3000
            },
            None => true,
        };
        if expired {
            self.notification = None;
        }
    }

    /// How many commands there are in all.
    pub fn total_count(&self) -> (r: usize)
        ensures
            r == self.commands@.len(),
    {
        self.commands.len()
    }

    /// How many commands the filter keeps.
    pub fn filtered_count(&self) -> (r: usize)
        ensures
            r == self.filtered_indices@.len(),
    {
        self.filtered_indices.len()
    }
}

} // verus!
