//! View state for the process tracer's table display: input and view
//! modes, the sort-mode cycle, the node record a process tree is built
//! from, and the selection, filtering, and ordering state over a
//! snapshot list.

use vstd::prelude::*;

use crate::clock::now_unix_millis;
use crate::collector::{copy_vec, info_views, ProcessInfo, ProcessInfoView};
use crate::query::name_matches;
use crate::sorting::{lex_le, sort_indices_asc_str, sort_indices_desc_u64};
use crate::strutil::{contains_sub, lemma_push_contains, lower_of, lowercase};

verus! {

broadcast use vstd::seq_lib::group_to_multiset_ensures;

/// What kind of input the tracer is waiting for.
#[derive(Debug, Clone, Copy, PartialEq, Eq, Structural)]
pub enum InputMode {
    Normal,
    Search,
}

/// The column a process table is sorted by.
#[derive(Debug, Clone, Copy, PartialEq, Eq, Structural)]
pub enum SortMode {
    Cpu,
    Memory,
    Pid,
    Name,
}

impl SortMode {
    /// The next mode in the cycle:
    /// CPU, memory, pid, name, and around again.
    pub fn next(&self) -> (r: SortMode)
        ensures
            r == match self {
                SortMode::Cpu => SortMode::Memory,
                SortMode::Memory => SortMode::Pid,
                SortMode::Pid => SortMode::Name,
                SortMode::Name => SortMode::Cpu,
            },
    {
        match self {
            SortMode::Cpu => SortMode::Memory,
            SortMode::Memory => SortMode::Pid,
            SortMode::Pid => SortMode::Name,
            SortMode::Name => SortMode::Cpu,
        }
    }

    /// Display name of the mode.
    pub fn as_str(&self) -> (r: &str)
        ensures
            r@ == match self {
                SortMode::Cpu => "CPU"@,
                SortMode::Memory => "Memory"@,
                SortMode::Pid => "PID"@,
                SortMode::Name => "Name"@,
            },
    {
        match self {
            SortMode::Cpu => "CPU",
            SortMode::Memory => "Memory",
            SortMode::Pid => "PID",
            SortMode::Name => "Name",
        }
    }
}

/// Flat table or hierarchical tree.
#[derive(Debug, Clone, Copy, PartialEq, Eq, Structural)]
pub enum ViewMode {
    List,
    Tree,
}

/// One node of a process tree built over a snapshot list.
#[derive(Debug, Clone)]
pub struct ProcessTreeNode {
    /// Index of the node's process in the snapshot list.
    pub process_idx: usize,
    /// Pids of the node's children.
    pub children: Vec<u32>,
    /// Whether the node's children are shown.
    pub is_expanded: bool,
    /// Depth below the node's root, for indentation.
    pub depth: usize,
}

/// The order a sort mode asks for: busiest first, largest first,
/// lowest pid first, or by name in character-code order.
pub open spec fn proc_le(mode: SortMode, a: ProcessInfoView, b: ProcessInfoView) -> bool {
    match mode {
        SortMode::Cpu => a.cpu_centi_percent >= b.cpu_centi_percent,
        SortMode::Memory => a.memory_rss >= b.memory_rss,
        SortMode::Pid => a.pid <= b.pid,
        SortMode::Name => lex_le(a.name, b.name),
    }
}

/// The filtered index list is ordered as the mode asks.
pub open spec fn procs_sorted(
    procs: Seq<ProcessInfoView>,
    idx: Seq<usize>,
    mode: SortMode,
) -> bool {
    forall|i: int, j: int|
        0 <= i < j < idx.len() ==> proc_le(
            mode,
            procs[#[trigger] idx[i] as int],
            procs[#[trigger] idx[j] as int],
        )
}

/// The filtered index list holds exactly the processes the query
/// matches (all of them for an empty query).
pub open spec fn procs_filtered(
    procs: Seq<ProcessInfoView>,
    q: Seq<char>,
    idx: Seq<usize>,
) -> bool {
    if q.len() == 0 {
        forall|v: usize| idx.contains(v) <==> (v as int) < procs.len()
    } else {
        forall|v: usize|
            idx.contains(v) <==> (v as int) < procs.len() && name_matches(
                q,
                procs[v as int].name,
            )
    }
}

/// Table state over one collection pass's snapshot list. A new pass
/// wholly replaces it.
#[derive(Debug)]
pub struct ProcessTracerState {
    /// Every snapshot of the pass.
    pub processes: Vec<ProcessInfo>,
    /// Indices into `processes` after filtering, in display order.
    pub filtered_indices: Vec<usize>,
    /// Position of the selection within the filtered list.
    pub selected_index: usize,
    pub search_query: String,
    pub input_mode: InputMode,
    pub sort_mode: SortMode,
    pub view_mode: ViewMode,
    /// Millisecond clock reading of the last pass.
    pub last_update: u64,
    /// A message and the millisecond clock reading when it was set.
    pub notification: Option<(String, u64)>,
    /// One tree node per snapshot pid, keyed by pid.
    pub tree_nodes: Vec<(u32, ProcessTreeNode)>,
    /// Pids whose parent is not in the snapshot list.
    pub tree_roots: Vec<u32>,
    /// The rows the tree display shows, expansion applied.
    pub visible_tree_nodes: Vec<u32>,
}

impl ProcessTracerState {
    /// Every filtered index points into the snapshot list.
    pub open spec fn inv(&self) -> bool {
        forall|k: int|
            0 <= k < self.filtered_indices@.len() ==> (#[trigger] self.filtered_indices@[
                k
            ]) < self.processes@.len()
    }

    /// An empty table waiting for its first pass.
    pub fn new() -> (r: ProcessTracerState)
        ensures
            r.inv(),
            r.processes@.len() == 0,
            r.filtered_indices@.len() == 0,
            r.selected_index == 0,
            r.search_query@.len() == 0,
            r.input_mode == InputMode::Normal,
            r.sort_mode == SortMode::Cpu,
            r.view_mode == ViewMode::List,
            r.notification is None,
    {
        let stamp = now_unix_millis();
        ProcessTracerState {
            processes: Vec::new(),
            filtered_indices: Vec::new(),
            selected_index: 0,
            search_query: String::new(),
            input_mode: InputMode::Normal,
            sort_mode: SortMode::Cpu,
            view_mode: ViewMode::List,
            last_update: stamp,
            notification: None,
            tree_nodes: Vec::new(),
            tree_roots: Vec::new(),
            visible_tree_nodes: Vec::new(),
        }
    }

    /// Reorders the filtered list by the current sort mode: the same
    /// indices, ordered as the mode asks.
    pub fn apply_sort(&mut self)
        requires
            old(self).inv(),
        ensures
            final(self).inv(),
            final(self).filtered_indices@.to_multiset() == old(self).filtered_indices@.to_multiset(),
            procs_sorted(
                info_views(final(self).processes@),
                final(self).filtered_indices@,
                final(self).sort_mode,
            ),
            final(self).processes == old(self).processes,
            final(self).selected_index == old(self).selected_index,
            final(self).search_query == old(self).search_query,
            final(self).input_mode == old(self).input_mode,
            final(self).sort_mode == old(self).sort_mode,
            final(self).view_mode == old(self).view_mode,
            final(self).notification == old(self).notification,
    {
        let ghost pv = info_views(self.processes@);
        let n = self.processes.len();
        match self.sort_mode {
            SortMode::Cpu => {
                let mut keys: Vec<u64> = Vec::new();
                let mut i: usize = 0;
                while i < n
                    invariant
                        0 <= i <= n,
                        n == self.processes@.len(),
                        pv == info_views(self.processes@),
                        keys@.len() == i,
                        forall|k: int|
                            0 <= k < i ==> (#[trigger] keys@[k]) == pv[k].cpu_centi_percent,
                    decreases n - i,
                {
                    proof {
                        assert(pv[i as int] == self.processes@[i as int]@);
                    }
                    keys.push(self.processes[i].cpu_centi_percent);
                    i = i + 1;
                }
                let sorted = sort_indices_desc_u64(&self.filtered_indices, &keys);
                proof {
                    assert(procs_sorted(pv, sorted@, SortMode::Cpu));
                }
                self.filtered_indices = sorted;
            },
            SortMode::Memory => {
                let mut keys: Vec<u64> = Vec::new();
                let mut i: usize = 0;
                while i < n
                    invariant
                        0 <= i <= n,
                        n == self.processes@.len(),
                        pv == info_views(self.processes@),
                        keys@.len() == i,
                        forall|k: int| 0 <= k < i ==> (#[trigger] keys@[k]) == pv[k].memory_rss,
                    decreases n - i,
                {
                    proof {
                        assert(pv[i as int] == self.processes@[i as int]@);
                    }
                    keys.push(self.processes[i].memory_rss);
                    i = i + 1;
                }
                let sorted = sort_indices_desc_u64(&self.filtered_indices, &keys);
                proof {
                    assert(procs_sorted(pv, sorted@, SortMode::Memory));
                }
                self.filtered_indices = sorted;
            },
            SortMode::Pid => {
                let mut keys: Vec<u64> = Vec::new();
                let mut i: usize = 0;
                while i < n
                    invariant
                        0 <= i <= n,
                        n == self.processes@.len(),
                        pv == info_views(self.processes@),
                        keys@.len() == i,
                        forall|k: int|
                            0 <= k < i ==> (#[trigger] keys@[k]) as int == u64::MAX - pv[k].pid,
                    decreases n - i,
                {
                    proof {
                        assert(pv[i as int] == self.processes@[i as int]@);
                    }
                    keys.push(u64::MAX - (self.processes[i].pid as u64));
                    i = i + 1;
                }
                let sorted = sort_indices_desc_u64(&self.filtered_indices, &keys);
                proof {
                    assert(procs_sorted(pv, sorted@, SortMode::Pid));
                }
                self.filtered_indices = sorted;
            },
            SortMode::Name => {
                let mut keys: Vec<String> = Vec::new();
                let mut i: usize = 0;
                while i < n
                    invariant
                        0 <= i <= n,
                        n == self.processes@.len(),
                        pv == info_views(self.processes@),
                        keys@.len() == i,
                        forall|k: int| 0 <= k < i ==> (#[trigger] keys@[k])@ == pv[k].name,
                    decreases n - i,
                {
                    proof {
                        assert(pv[i as int] == self.processes@[i as int]@);
                    }
                    keys.push(self.processes[i].name.clone());
                    i = i + 1;
                }
                let sorted = sort_indices_asc_str(&self.filtered_indices, &keys);
                proof {
                    assert(procs_sorted(pv, sorted@, SortMode::Name));
                }
                self.filtered_indices = sorted;
            },
        }
    }

    /// Rebuilds the filtered list from the search query: every process
    /// for an empty query, otherwise a case-insensitive substring
    /// match against the name; resets the selection.
    pub fn apply_filters(&mut self)
        ensures
            final(self).inv(),
            procs_filtered(
                info_views(final(self).processes@),
                old(self).search_query@,
                final(self).filtered_indices@,
            ),
            final(self).processes == old(self).processes,
            final(self).selected_index == 0,
            final(self).search_query == old(self).search_query,
            final(self).input_mode == old(self).input_mode,
            final(self).sort_mode == old(self).sort_mode,
            final(self).view_mode == old(self).view_mode,
            final(self).notification == old(self).notification,
    {
        let ghost pv = info_views(self.processes@);
        let n = self.processes.len();
        let mut filtered: Vec<usize> = Vec::new();
        if self.search_query.as_str().is_empty() {
            let mut i: usize = 0;
            while i < n
                invariant
                    0 <= i <= n,
                    n == self.processes@.len(),
                    forall|k: int| 0 <= k < filtered@.len() ==> (#[trigger] filtered@[k]) < n,
                    forall|v: usize| filtered@.contains(v) <==> (v as int) < i,
                decreases n - i,
            {
                proof {
                    lemma_push_contains(filtered@, i);
                }
                filtered.push(i);
                i = i + 1;
            }
        } else {
            let query_lower = lowercase(self.search_query.as_str());
            let mut i: usize = 0;
            while i < n
                invariant
                    0 <= i <= n,
                    n == self.processes@.len(),
                    pv == info_views(self.processes@),
                    query_lower@ == lower_of(old(self).search_query@),
                    self.search_query == old(self).search_query,
                    self.processes == old(self).processes,
                    forall|k: int| 0 <= k < filtered@.len() ==> (#[trigger] filtered@[k]) < n,
                    forall|v: usize|
                        filtered@.contains(v) <==> (v as int) < i && name_matches(
                            old(self).search_query@,
                            pv[v as int].name,
                        ),
                decreases n - i,
            {
                proof {
                    assert(pv[i as int] == self.processes@[i as int]@);
                }
                let name_lower = lowercase(self.processes[i].name.as_str());
                if contains_sub(name_lower.as_str(), query_lower.as_str()) {
                    proof {
                        lemma_push_contains(filtered@, i);
                    }
                    filtered.push(i);
                }
                i = i + 1;
            }
        }
        self.filtered_indices = filtered;
        self.selected_index = 0;
    }

    /// Installs a fresh pass's snapshots, refilters and reorders,
    /// keeps the selection in range, and rebuilds the tree when the
    /// tree is shown.
    pub fn update_processes(&mut self, processes: Vec<ProcessInfo>)
        ensures
            final(self).inv(),
            final(self).processes == processes,
            procs_sorted(
                info_views(processes@),
                final(self).filtered_indices@,
                final(self).sort_mode,
            ),
            final(self).sort_mode == old(self).sort_mode,
            final(self).search_query == old(self).search_query,
            final(self).selected_index == 0,
            old(self).view_mode == ViewMode::Tree ==> ({
                &&& tree_shaped(info_views(processes@), node_views(final(self).tree_nodes@))
                &&& final(self).tree_roots@ == roots_of(info_views(processes@))
                &&& final(self).visible_tree_nodes@ == final(self).tree_roots@
            }),
    {
        self.processes = processes;
        self.apply_filters();
        self.apply_sort();
        if matches!(self.view_mode, ViewMode::Tree) {
            self.build_tree();
        }
    }

    /// Steps to the next sort mode and reorders.
    pub fn cycle_sort_mode(&mut self)
        requires
            old(self).inv(),
        ensures
            final(self).inv(),
            final(self).sort_mode == match old(self).sort_mode {
                SortMode::Cpu => SortMode::Memory,
                SortMode::Memory => SortMode::Pid,
                SortMode::Pid => SortMode::Name,
                SortMode::Name => SortMode::Cpu,
            },
            final(self).filtered_indices@.to_multiset() == old(self).filtered_indices@.to_multiset(),
            procs_sorted(
                info_views(final(self).processes@),
                final(self).filtered_indices@,
                final(self).sort_mode,
            ),
            final(self).processes == old(self).processes,
    {
        self.sort_mode = self.sort_mode.next();
        self.apply_sort();
    }

    /// The selected snapshot, when the selection and its index are in
    /// range.
    pub fn get_selected_process(&self) -> (r: Option<&ProcessInfo>)
        ensures
            match r {
                Some(p) => self.selected_index < self.filtered_indices@.len()
                    && (self.filtered_indices@[self.selected_index as int] as int)
                    < self.processes@.len() && p == &self.processes@[self.filtered_indices@[
                    self.selected_index as int
                ] as int],
                None => self.selected_index >= self.filtered_indices@.len() || (
                self.filtered_indices@[self.selected_index as int] as int)
                    >= self.processes@.len(),
            },
    {
        if self.selected_index < self.filtered_indices.len() {
            let idx = self.filtered_indices[self.selected_index];
            if idx < self.processes.len() {
                Some(&self.processes[idx])
            } else {
                None
            }
        } else {
            None
        }
    }

    /// Moves the selection down one row, wrapping to the top.
    pub fn select_next(&mut self)
        ensures
            final(self).selected_index as int == if old(self).filtered_indices@.len() == 0 {
                old(self).selected_index as int
            } else {
                (old(self).selected_index + 1) as int % old(self).filtered_indices@.len() as int
            },
            final(self).filtered_indices == old(self).filtered_indices,
            final(self).processes == old(self).processes,
    {
        if self.filtered_indices.is_empty() {
            return ;
        }
        let len = self.filtered_indices.len();
        let cur = self.selected_index % len;
        proof {
            let a = old(self).selected_index as int;
            let n = len as int;
            if n > 1 {
                vstd::arithmetic::div_mod::lemma_small_mod(1nat, n as nat);
            }
            vstd::arithmetic::div_mod::lemma_add_mod_noop(a, 1, n);
            assert((a % n + 1) % n == (a + 1) % n);
        }
        self.selected_index = (cur + 1) % len;
    }

    /// Moves the selection up one row, wrapping to the bottom.
    pub fn select_previous(&mut self)
        ensures
            final(self).selected_index as int == if old(self).filtered_indices@.len() == 0 {
                old(self).selected_index as int
            } else if old(self).selected_index == 0 {
                old(self).filtered_indices@.len() - 1
            } else {
                old(self).selected_index - 1
            },
            final(self).filtered_indices == old(self).filtered_indices,
            final(self).processes == old(self).processes,
    {
        if self.filtered_indices.is_empty() {
            return ;
        }
        if self.selected_index == 0 {
            self.selected_index = self.filtered_indices.len() - 1;
        } else {
            self.selected_index = self.selected_index - 1;
        }
    }

    /// Jumps to the first row.
    pub fn select_first(&mut self)
        ensures
            final(self).selected_index as int == if old(self).filtered_indices@.len() == 0 {
                old(self).selected_index as int
            } else {
                0int
            },
            final(self).filtered_indices == old(self).filtered_indices,
            final(self).processes == old(self).processes,
    {
        if !self.filtered_indices.is_empty() {
            self.selected_index = 0;
        }
    }

    /// Jumps to the last row.
    pub fn select_last(&mut self)
        ensures
            final(self).selected_index as int == if old(self).filtered_indices@.len() == 0 {
                old(self).selected_index as int
            } else {
                old(self).filtered_indices@.len() - 1
            },
            final(self).filtered_indices == old(self).filtered_indices,
            final(self).processes == old(self).processes,
    {
        if !self.filtered_indices.is_empty() {
            self.selected_index = self.filtered_indices.len() - 1;
        }
    }

    /// Moves the selection down a page of ten rows, stopping at the
    /// bottom.
    pub fn page_down(&mut self)
        ensures
            final(self).selected_index as int == if old(self).filtered_indices@.len() == 0 {
                old(self).selected_index as int
            } else if old(self).selected_index + 10 < old(self).filtered_indices@.len() {
                old(self).selected_index + 10
            } else {
                old(self).filtered_indices@.len() - 1
            },
            final(self).filtered_indices == old(self).filtered_indices,
            final(self).processes == old(self).processes,
    {
        if self.filtered_indices.is_empty() {
            return ;
        }
        let last = self.filtered_indices.len() - 1;
        if self.selected_index < last && last - self.selected_index > 10 {
            self.selected_index = self.selected_index + 10;
        } else {
            self.selected_index = last;
        }
    }

    /// Moves the selection up a page of ten rows, stopping at the top.
    pub fn page_up(&mut self)
        ensures
            final(self).selected_index as int == if old(self).filtered_indices@.len() == 0 {
                old(self).selected_index as int
            } else if old(self).selected_index >= 10 {
                old(self).selected_index - 10
            } else {
                0int
            },
            final(self).filtered_indices == old(self).filtered_indices,
            final(self).processes == old(self).processes,
    {
        if self.filtered_indices.is_empty() {
            return ;
        }
        if self.selected_index >= 10 {
            self.selected_index = self.selected_index - 10;
        } else {
            self.selected_index = 0;
        }
    }

    /// Switches between the flat list and the tree display, building
    /// the tree on the way in.
    pub fn toggle_view_mode(&mut self)
        ensures
            final(self).view_mode == match old(self).view_mode {
                ViewMode::List => ViewMode::Tree,
                ViewMode::Tree => ViewMode::List,
            },
            final(self).processes == old(self).processes,
            final(self).filtered_indices == old(self).filtered_indices,
            final(self).selected_index == old(self).selected_index,
            old(self).view_mode == ViewMode::List ==> ({
                &&& tree_shaped(
                    info_views(final(self).processes@),
                    node_views(final(self).tree_nodes@),
                )
                &&& all_collapsed(node_views(final(self).tree_nodes@))
                &&& final(self).tree_roots@ == roots_of(info_views(final(self).processes@))
                &&& final(self).visible_tree_nodes@ == final(self).tree_roots@
            }),
    {
        self.view_mode = match self.view_mode {
            ViewMode::List => {
                self.build_tree();
                ViewMode::Tree
            },
            ViewMode::Tree => ViewMode::List,
        };
    }

    /// Shows a message, stamped with the current clock reading.
    pub fn set_notification(&mut self, message: String)
        ensures
            final(self).notification is Some,
            final(self).notification->Some_0.0 == message,
            final(self).processes == old(self).processes,
            final(self).filtered_indices == old(self).filtered_indices,
            final(self).selected_index == old(self).selected_index,
    {
        let stamp = now_unix_millis();
        self.notification = Some((message, stamp));
    }

    /// Drops a notification older than three seconds; whether one is
    /// old enough depends on the clock, so the notification either
    /// stays as it was or goes away.
    pub fn clear_expired_notifications(&mut self)
        ensures
            final(self).notification == old(self).notification || final(self).notification
                is None,
            old(self).notification is None ==> final(self).notification is None,
            final(self).processes == old(self).processes,
            final(self).filtered_indices == old(self).filtered_indices,
            final(self).selected_index == old(self).selected_index,
    {
        let expired = match &self.notification {
            Some(pair) => {
                let now = now_unix_millis();
                now >= pair.1 && now - pair.1 >= 3000
            },
            None => true,
        };
        if expired {
            self.notification = None;
        }
    }

    /// How many rows the filter keeps, and how many there are in all.
    pub fn get_counts(&self) -> (r: (usize, usize))
        ensures
            r.0 == self.filtered_indices@.len(),
            r.1 == self.processes@.len(),
    {
        (self.filtered_indices.len(), self.processes.len())
    }
}

/// Mathematical image of a `ProcessTreeNode`.
pub struct ProcessTreeNodeView {
    pub process_idx: usize,
    pub children: Seq<u32>,
    pub is_expanded: bool,
    pub depth: usize,
}

impl View for ProcessTreeNode {
    type V = ProcessTreeNodeView;

    open spec fn view(&self) -> ProcessTreeNodeView {
        ProcessTreeNodeView {
            process_idx: self.process_idx,
            children: self.children@,
            is_expanded: self.is_expanded,
            depth: self.depth,
        }
    }
}

/// The views of the keyed tree nodes.
pub open spec fn node_views(v: Seq<(u32, ProcessTreeNode)>) -> Seq<(u32, ProcessTreeNodeView)> {
    v.map_values(|p: (u32, ProcessTreeNode)| (p.0, p.1@))
}

/// Some snapshot carries this pid.
pub open spec fn pid_in(pv: Seq<ProcessInfoView>, pid: u32) -> bool {
    exists|i: int| 0 <= i < pv.len() && (#[trigger] pv[i]).pid == pid
}

/// The pids whose parent is `pid`, in snapshot order.
pub open spec fn children_of(pv: Seq<ProcessInfoView>, pid: u32) -> Seq<u32> {
    pv.filter(|q: ProcessInfoView| q.ppid == pid).map_values(|q: ProcessInfoView| q.pid)
}

/// The pids whose parent is not in the snapshot list, in snapshot
/// order: the roots of the displayed forest.
pub open spec fn roots_of(pv: Seq<ProcessInfoView>) -> Seq<u32> {
    pv.filter(|q: ProcessInfoView| !pid_in(pv, q.ppid)).map_values(
        |q: ProcessInfoView| q.pid,
    )
}

/// A keyed node list ties every pid to a snapshot of that pid and to
/// exactly its children, with unique keys covering exactly the
/// snapshot pids.
pub open spec fn tree_shaped(pv: Seq<ProcessInfoView>, tv: Seq<(u32, ProcessTreeNodeView)>) -> bool {
    &&& forall|k: int, l: int| 0 <= k < l < tv.len() ==> (#[trigger] tv[k]).0 != (
    #[trigger] tv[l]).0
    &&& forall|k: int|
        0 <= k < tv.len() ==> {
            let (pid, node) = #[trigger] tv[k];
            &&& (node.process_idx as int) < pv.len()
            &&& pv[node.process_idx as int].pid == pid
            &&& node.children == children_of(pv, pid)
        }
    &&& forall|pid: u32| #[trigger] pid_in(pv, pid) <==> exists|k: int|
        0 <= k < tv.len() && (#[trigger] tv[k]).0 == pid
}

/// Every node in the list is collapsed.
pub open spec fn all_collapsed(tv: Seq<(u32, ProcessTreeNodeView)>) -> bool {
    forall|k: int| 0 <= k < tv.len() ==> !(#[trigger] tv[k]).1.is_expanded
}

/// First keyed node carrying this pid, if any.
fn find_tree_node(nodes: &Vec<(u32, ProcessTreeNode)>, pid: u32) -> (r: Option<usize>)
    ensures
        match r {
            Some(i) => i < nodes@.len() && node_views(nodes@)[i as int].0 == pid,
            None => forall|k: int|
                0 <= k < nodes@.len() ==> (#[trigger] node_views(nodes@)[k]).0 != pid,
        },
{
    let n = nodes.len();
    let mut i: usize = 0;
    while i < n
        invariant
            0 <= i <= n,
            n == nodes@.len(),
            forall|k: int| 0 <= k < i ==> (#[trigger] node_views(nodes@)[k]).0 != pid,
        decreases n - i,
    {
        proof {
            assert(node_views(nodes@)[i as int] == (nodes@[i as int].0, nodes@[i as int].1@));
        }
        if nodes[i].0 == pid {
            return Some(i);
        }
        i = i + 1;
    }
    None
}

/// Extending the snapshots by one extends pid membership by its pid.
proof fn lemma_pid_in_push(pv: Seq<ProcessInfoView>, q: ProcessInfoView, pid: u32)
    ensures
        pid_in(pv.push(q), pid) == (pid_in(pv, pid) || q.pid == pid),
{
    if pid_in(pv, pid) {
        let i = choose|i: int| 0 <= i < pv.len() && (#[trigger] pv[i]).pid == pid;
        assert(pv.push(q)[i].pid == pid);
    }
    if q.pid == pid {
        assert(pv.push(q)[pv.len() as int].pid == pid);
    }
    if pid_in(pv.push(q), pid) {
        let i = choose|i: int| 0 <= i < pv.push(q).len() && (#[trigger] pv.push(q)[i]).pid == pid;
        if i < pv.len() {
            assert(pv[i].pid == pid);
        }
    }
}

impl ProcessTracerState {
    /// Rebuilds the tree over the current snapshot list: one node per
    /// pid holding a snapshot index and exactly its children in
    /// snapshot order, every node collapsed with its depth set to its
    /// hop distance below a root (bounded against corrupted parent
    /// graphs), the roots listed in snapshot order, and the visible
    /// rows reset to the roots.
    pub fn build_tree(&mut self)
        ensures
            tree_shaped(info_views(final(self).processes@), node_views(final(self).tree_nodes@)),
            all_collapsed(node_views(final(self).tree_nodes@)),
            final(self).tree_roots@ == roots_of(info_views(final(self).processes@)),
            final(self).visible_tree_nodes@ == final(self).tree_roots@,
            final(self).processes == old(self).processes,
            final(self).filtered_indices == old(self).filtered_indices,
            final(self).selected_index == old(self).selected_index,
            final(self).view_mode == old(self).view_mode,
            final(self).sort_mode == old(self).sort_mode,
            final(self).search_query == old(self).search_query,
            final(self).input_mode == old(self).input_mode,
            final(self).notification == old(self).notification,
    {
        let ghost pv = info_views(self.processes@);
        let n = self.processes.len();
        let mut nodes: Vec<(u32, ProcessTreeNode)> = Vec::new();
        let mut i: usize = 0;
        proof {
            assert(pv.subrange(0, 0) =~= Seq::<ProcessInfoView>::empty());
        }
        while i < n
            invariant
                0 <= i <= n,
                n == self.processes@.len(),
                pv == info_views(self.processes@),
                forall|k: int, l: int|
                    0 <= k < l < node_views(nodes@).len() ==> (#[trigger] node_views(
                        nodes@,
                    )[k]).0 != (#[trigger] node_views(nodes@)[l]).0,
                forall|k: int|
                    0 <= k < node_views(nodes@).len() ==> {
                        let (pid, node) = #[trigger] node_views(nodes@)[k];
                        &&& (node.process_idx as int) < pv.len()
                        &&& pv[node.process_idx as int].pid == pid
                        &&& node.children.len() == 0
                        &&& !node.is_expanded
                    },
                forall|pid: u32|
                    #[trigger] pid_in(pv.subrange(0, i as int), pid) <==> exists|k: int|
                        0 <= k < node_views(nodes@).len() && (#[trigger] node_views(
                            nodes@,
                        )[k]).0 == pid,
            decreases n - i,
        {
            let ghost prefix = pv.subrange(0, i as int);
            let ghost q = self.processes@[i as int]@;
            proof {
                assert(pv[i as int] == q);
                assert(pv.subrange(0, i + 1) =~= prefix.push(q));
                assert forall|pid: u32| #[trigger] pid_in(prefix.push(q), pid) == (pid_in(
                    prefix,
                    pid,
                ) || q.pid == pid) by {
                    lemma_pid_in_push(prefix, q, pid);
                }
            }
            let pid = self.processes[i].pid;
            match find_tree_node(&nodes, pid) {
                Some(idx) => {
                    let ghost old_nv = node_views(nodes@);
                    let mut e = nodes.remove(idx);
                    e.1.process_idx = i;
                    let ghost before_ins = node_views(nodes@);
                    nodes.insert(idx, e);
                    proof {
                        let nv = node_views(nodes@);
                        assert((nodes@[idx as int].0, nodes@[idx as int].1@) == nv[idx as int]);
                        assert forall|k: int| 0 <= k < nv.len() implies nv[k] == if k == idx {
                            nv[idx as int]
                        } else {
                            old_nv[k]
                        } by {
                            if k < idx {
                                assert((nodes@[k].0, nodes@[k].1@) == before_ins[k]);
                            } else if k > idx {
                                assert((nodes@[k].0, nodes@[k].1@) == before_ins[k - 1]);
                            }
                        }
                        assert forall|p2: u32| #[trigger] pid_in(pv.subrange(0, i + 1), p2)
                            implies exists|k: int|
                            0 <= k < nv.len() && (#[trigger] nv[k]).0 == p2 by {
                            if pid_in(prefix, p2) {
                                let k = choose|k: int|
                                    0 <= k < old_nv.len() && (#[trigger] old_nv[k]).0 == p2;
                                assert(nv[k].0 == p2);
                            } else {
                                assert(nv[idx as int].0 == p2);
                            }
                        }
                    }
                },
                None => {
                    let node = ProcessTreeNode {
                        process_idx: i,
                        children: Vec::new(),
                        is_expanded: false,
                        depth: 0,
                    };
                    let ghost old_nv = node_views(nodes@);
                    nodes.push((pid, node));
                    proof {
                        let nv = node_views(nodes@);
                        assert(nv =~= old_nv.push((nodes@.last().0, nodes@.last().1@)));
                        assert forall|p2: u32| #[trigger] pid_in(pv.subrange(0, i + 1), p2)
                            implies exists|k: int|
                            0 <= k < nv.len() && (#[trigger] nv[k]).0 == p2 by {
                            if pid_in(prefix, p2) {
                                let k = choose|k: int|
                                    0 <= k < old_nv.len() && (#[trigger] old_nv[k]).0 == p2;
                                assert(nv[k].0 == p2);
                            } else {
                                assert(nv[nv.len() - 1].0 == p2);
                            }
                        }
                    }
                },
            }
            i = i + 1;
        }
        proof {
            assert(pv.subrange(0, i as int) =~= pv);
        }
        // Link every snapshot to its parent's node, or record a root.
        let mut roots: Vec<u32> = Vec::new();
        let mut i: usize = 0;
        proof {
            assert(pv.subrange(0, 0) =~= Seq::<ProcessInfoView>::empty());
            assert forall|k: int|
                0 <= k < node_views(nodes@).len() implies (#[trigger] node_views(
                nodes@,
            )[k]).1.children =~= children_of(pv.subrange(0, 0), node_views(nodes@)[k].0) by {
                crate::strutil::lemma_filter_none(
                    pv.subrange(0, 0),
                    |q2: ProcessInfoView| q2.ppid == node_views(nodes@)[k].0,
                );
            }
            assert(roots@ =~= pv.subrange(0, 0).filter(
                |q2: ProcessInfoView| !pid_in(pv, q2.ppid),
            ).map_values(|q2: ProcessInfoView| q2.pid)) by {
                crate::strutil::lemma_filter_none(
                    pv.subrange(0, 0),
                    |q2: ProcessInfoView| !pid_in(pv, q2.ppid),
                );
            }
        }
        while i < n
            invariant
                0 <= i <= n,
                n == self.processes@.len(),
                pv == info_views(self.processes@),
                forall|k: int, l: int|
                    0 <= k < l < node_views(nodes@).len() ==> (#[trigger] node_views(
                        nodes@,
                    )[k]).0 != (#[trigger] node_views(nodes@)[l]).0,
                forall|k: int|
                    0 <= k < node_views(nodes@).len() ==> {
                        let (pid, node) = #[trigger] node_views(nodes@)[k];
                        &&& (node.process_idx as int) < pv.len()
                        &&& pv[node.process_idx as int].pid == pid
                        &&& node.children == children_of(pv.subrange(0, i as int), pid)
                        &&& !node.is_expanded
                    },
                forall|pid: u32|
                    #[trigger] pid_in(pv, pid) <==> exists|k: int|
                        0 <= k < node_views(nodes@).len() && (#[trigger] node_views(
                            nodes@,
                        )[k]).0 == pid,
                roots@ == pv.subrange(0, i as int).filter(
                    |q2: ProcessInfoView| !pid_in(pv, q2.ppid),
                ).map_values(|q2: ProcessInfoView| q2.pid),
            decreases n - i,
        {
            let ghost prefix = pv.subrange(0, i as int);
            let ghost q = self.processes@[i as int]@;
            let ghost root_pred = |q2: ProcessInfoView| !pid_in(pv, q2.ppid);
            proof {
                assert(pv[i as int] == q);
                assert(pv.subrange(0, i + 1) =~= prefix.push(q));
                crate::strutil::lemma_filter_push(prefix, root_pred, q);
                assert forall|pid: u32| #[trigger] children_of(prefix.push(q), pid) == (
                if q.ppid == pid {
                    children_of(prefix, pid).push(q.pid)
                } else {
                    children_of(prefix, pid)
                }) by {
                    let cpred = |q2: ProcessInfoView| q2.ppid == pid;
                    crate::strutil::lemma_filter_push(prefix, cpred, q);
                    if q.ppid == pid {
                        assert(children_of(prefix.push(q), pid) =~= children_of(
                            prefix,
                            pid,
                        ).push(q.pid));
                    }
                }
            }
            let child_pid = self.processes[i].pid;
            let parent_pid = self.processes[i].ppid;
            match find_tree_node(&nodes, parent_pid) {
                Some(idx) => {
                    proof {
                        assert(pid_in(pv, q.ppid));
                        assert(!root_pred(q));
                        assert(prefix.push(q).filter(root_pred).map_values(
                            |q2: ProcessInfoView| q2.pid,
                        ) =~= prefix.filter(root_pred).map_values(|q2: ProcessInfoView| q2.pid));
                    }
                    let ghost old_nv = node_views(nodes@);
                    let mut e = nodes.remove(idx);
                    e.1.children.push(child_pid);
                    let ghost before_ins = node_views(nodes@);
                    nodes.insert(idx, e);
                    proof {
                        let nv = node_views(nodes@);
                        assert((nodes@[idx as int].0, nodes@[idx as int].1@) == nv[idx as int]);
                        assert forall|k: int| 0 <= k < nv.len() implies nv[k] == if k == idx {
                            nv[idx as int]
                        } else {
                            old_nv[k]
                        } by {
                            if k < idx {
                                assert((nodes@[k].0, nodes@[k].1@) == before_ins[k]);
                            } else if k > idx {
                                assert((nodes@[k].0, nodes@[k].1@) == before_ins[k - 1]);
                            }
                        }
                        assert(nv[idx as int].1.children =~= old_nv[idx as int].1.children.push(
                            q.pid,
                        ));
                        assert forall|p2: u32| #[trigger] pid_in(pv, p2) implies exists|k: int|
                            0 <= k < nv.len() && (#[trigger] nv[k]).0 == p2 by {
                            let k = choose|k: int|
                                0 <= k < old_nv.len() && (#[trigger] old_nv[k]).0 == p2;
                            assert(nv[k].0 == p2);
                        }
                    }
                },
                None => {
                    proof {
                        assert(!pid_in(pv, q.ppid)) by {
                            if pid_in(pv, q.ppid) {
                                let k = choose|k: int|
                                    0 <= k < node_views(nodes@).len() && (#[trigger] node_views(
                                        nodes@,
                                    )[k]).0 == q.ppid;
                                assert(false);
                            }
                        }
                        assert(root_pred(q));
                        assert(prefix.push(q).filter(root_pred).map_values(
                            |q2: ProcessInfoView| q2.pid,
                        ) =~= prefix.filter(root_pred).map_values(
                            |q2: ProcessInfoView| q2.pid,
                        ).push(q.pid));
                    }
                    roots.push(child_pid);
                },
            }
            i = i + 1;
        }
        proof {
            assert(pv.subrange(0, i as int) =~= pv);
        }
        // Assign depths from the roots down, bounded against cycles.
        let ghost base = node_views(nodes@);
        let mut stack: Vec<(u32, usize)> = Vec::new();
        let mut r: usize = 0;
        while r < roots.len()
            invariant
                0 <= r <= roots@.len(),
            decreases roots.len() - r,
        {
            stack.push((roots[r], 0));
            r = r + 1;
        }
        let mut fuel: usize = n;
        while fuel > 0 && stack.len() > 0
            invariant
                node_views(nodes@).len() == base.len(),
                forall|k: int|
                    0 <= k < base.len() ==> {
                        let (pid, node) = #[trigger] node_views(nodes@)[k];
                        &&& pid == base[k].0
                        &&& node.process_idx == base[k].1.process_idx
                        &&& node.children == base[k].1.children
                        &&& node.is_expanded == base[k].1.is_expanded
                    },
            decreases fuel,
        {
            fuel = fuel - 1;
            let (pid, depth) = match stack.pop() {
                Some(top) => top,
                None => {
                    break ;
                },
            };
            match find_tree_node(&nodes, pid) {
                Some(idx) => {
                    let ghost old_nv = node_views(nodes@);
                    let mut e = nodes.remove(idx);
                    e.1.depth = depth;
                    let children = copy_vec(&e.1.children);
                    let ghost before_ins = node_views(nodes@);
                    nodes.insert(idx, e);
                    proof {
                        let nv = node_views(nodes@);
                        assert((nodes@[idx as int].0, nodes@[idx as int].1@) == nv[idx as int]);
                        assert forall|k: int| 0 <= k < nv.len() implies nv[k] == if k == idx {
                            nv[idx as int]
                        } else {
                            old_nv[k]
                        } by {
                            if k < idx {
                                assert((nodes@[k].0, nodes@[k].1@) == before_ins[k]);
                            } else if k > idx {
                                assert((nodes@[k].0, nodes@[k].1@) == before_ins[k - 1]);
                            }
                        }
                    }
                    if depth < 100 {
                        let mut c: usize = 0;
                        while c < children.len()
                            invariant
                                0 <= c <= children@.len(),
                                depth < 100,
                                node_views(nodes@).len() == base.len(),
                                forall|k: int|
                                    0 <= k < base.len() ==> {
                                        let (pid2, node) = #[trigger] node_views(nodes@)[k];
                                        &&& pid2 == base[k].0
                                        &&& node.process_idx == base[k].1.process_idx
                                        &&& node.children == base[k].1.children
                                        &&& node.is_expanded == base[k].1.is_expanded
                                    },
                            decreases children.len() - c,
                        {
                            stack.push((children[c], depth + 1));
                            c = c + 1;
                        }
                    }
                },
                None => {},
            }
        }
        proof {
            let nv = node_views(nodes@);
            assert forall|pid: u32| #[trigger] pid_in(pv, pid) implies exists|k: int|
                0 <= k < nv.len() && (#[trigger] nv[k]).0 == pid by {
                let k = choose|k: int| 0 <= k < base.len() && (#[trigger] base[k]).0 == pid;
                assert(nv[k].0 == pid);
            }
            assert forall|pid: u32|
                (exists|k: int| 0 <= k < nv.len() && (#[trigger] nv[k]).0 == pid) implies
                #[trigger] pid_in(pv, pid) by {
                let k = choose|k: int| 0 <= k < nv.len() && (#[trigger] nv[k]).0 == pid;
                assert(base[k].0 == pid);
            }
            assert(tree_shaped(pv, nv));
        }
        self.tree_nodes = nodes;
        self.tree_roots = roots;
        self.visible_tree_nodes = copy_vec(&self.tree_roots);
    }
}

impl ProcessTracerState {
    /// Rebuilds the visible rows from the expansion state: every root
    /// in order, each followed by its subtree where expanded, the walk
    /// bounded against corrupted parent graphs. With every node
    /// collapsed the visible rows are exactly the roots.
    pub fn rebuild_visible_nodes(&mut self)
        ensures
            all_collapsed(node_views(old(self).tree_nodes@)) ==> final(self).visible_tree_nodes@
                == final(self).tree_roots@,
            final(self).tree_nodes == old(self).tree_nodes,
            final(self).tree_roots == old(self).tree_roots,
            final(self).processes == old(self).processes,
            final(self).filtered_indices == old(self).filtered_indices,
            final(self).selected_index == old(self).selected_index,
            final(self).view_mode == old(self).view_mode,
    {
        let ghost collapsed = all_collapsed(node_views(self.tree_nodes@));
        let mut visible: Vec<u32> = Vec::new();
        let nroots = self.tree_roots.len();
        let mut r: usize = 0;
        while r < nroots
            invariant
                0 <= r <= nroots,
                nroots == self.tree_roots@.len(),
                collapsed == all_collapsed(node_views(self.tree_nodes@)),
                collapsed ==> visible@ == self.tree_roots@.subrange(0, r as int),
            decreases nroots - r,
        {
            let root = self.tree_roots[r];
            let mut stack: Vec<u32> = Vec::new();
            stack.push(root);
            let mut fuel = self.tree_nodes.len();
            if fuel < usize::MAX {
                fuel = fuel + 1;
            }
            let ghost pre = visible@;
            while stack.len() > 0 && fuel > 0
                invariant
                    collapsed == all_collapsed(node_views(self.tree_nodes@)),
                    collapsed ==> (stack@ =~= seq![root] && visible@ == pre && fuel >= 1) || (
                    stack@.len() == 0 && visible@ == pre.push(root)),
                decreases fuel,
            {
                fuel = fuel - 1;
                let pid = match stack.pop() {
                    Some(p) => p,
                    None => {
                        proof {
                            assert(false);
                        }
                        root
                    },
                };
                visible.push(pid);
                match find_tree_node(&self.tree_nodes, pid) {
                    Some(idx) => {
                        proof {
                            assert(node_views(self.tree_nodes@)[idx as int] == (
                            self.tree_nodes@[idx as int].0,
                            self.tree_nodes@[idx as int].1@,
                            ));
                        }
                        if self.tree_nodes[idx].1.is_expanded {
                            // Children pushed in reverse so the walk
                            // visits them in order.
                            let kids = &self.tree_nodes[idx].1.children;
                            let mut c = kids.len();
                            while c > 0
                                invariant
                                    0 <= c <= kids@.len(),
                                    collapsed == all_collapsed(node_views(self.tree_nodes@)),
                                    !collapsed,
                                decreases c,
                            {
                                c = c - 1;
                                stack.push(kids[c]);
                            }
                        }
                    },
                    None => {},
                }
            }
            proof {
                if collapsed {
                    assert(visible@ == pre.push(root));
                    assert(pre.push(root) =~= self.tree_roots@.subrange(0, r + 1));
                }
            }
            r = r + 1;
        }
        proof {
            if collapsed {
                assert(self.tree_roots@.subrange(0, r as int) =~= self.tree_roots@);
            }
        }
        self.visible_tree_nodes = visible;
    }

    /// Toggles the expansion of the selected tree row, when the tree
    /// is shown, the selection is in range, and the row's node has
    /// children; rebuilds the visible rows and keeps the selection in
    /// range. Anything else leaves the state untouched.
    pub fn toggle_tree_expansion(&mut self)
        requires
            forall|k: int, l: int|
                0 <= k < l < node_views(old(self).tree_nodes@).len() ==> (#[trigger] node_views(
                    old(self).tree_nodes@,
                )[k]).0 != (#[trigger] node_views(old(self).tree_nodes@)[l]).0,
        ensures
            final(self).processes == old(self).processes,
            final(self).tree_roots == old(self).tree_roots,
            node_views(final(self).tree_nodes@).len() == node_views(old(self).tree_nodes@).len(),
            forall|k: int|
                0 <= k < node_views(old(self).tree_nodes@).len() ==> {
                    let (pid, node) = #[trigger] node_views(final(self).tree_nodes@)[k];
                    let (old_pid, old_node) = node_views(old(self).tree_nodes@)[k];
                    &&& pid == old_pid
                    &&& node.process_idx == old_node.process_idx
                    &&& node.children == old_node.children
                    &&& node.depth == old_node.depth
                    &&& node.is_expanded == ({
                        let hit = {
                            &&& old(self).view_mode == ViewMode::Tree
                            &&& old(self).selected_index < old(self).visible_tree_nodes@.len()
                            &&& pid == old(self).visible_tree_nodes@[
                                old(self).selected_index as int
                            ]
                            &&& old_node.children.len() > 0
                        };
                        if hit {
                            !old_node.is_expanded
                        } else {
                            old_node.is_expanded
                        }
                    })
                },
            ({
                let vlen = final(self).visible_tree_nodes@.len();
                final(self).selected_index < vlen || vlen == 0
            }),
    {
        if !matches!(self.view_mode, ViewMode::Tree) {
            proof {
                if self.selected_index >= self.visible_tree_nodes@.len() {
                    assert(self.visible_tree_nodes@.len() == 0 || self.selected_index
                        >= self.visible_tree_nodes@.len());
                }
            }
            if self.selected_index >= self.visible_tree_nodes.len()
                && self.visible_tree_nodes.len() > 0 {
                self.selected_index = self.visible_tree_nodes.len() - 1;
            }
            return ;
        }
        if self.selected_index >= self.visible_tree_nodes.len() {
            if self.visible_tree_nodes.len() > 0 {
                self.selected_index = self.visible_tree_nodes.len() - 1;
            }
            return ;
        }
        let pid = self.visible_tree_nodes[self.selected_index];
        match find_tree_node(&self.tree_nodes, pid) {
            Some(idx) => {
                proof {
                    assert(node_views(self.tree_nodes@)[idx as int] == (
                    self.tree_nodes@[idx as int].0,
                    self.tree_nodes@[idx as int].1@,
                    ));
                }
                if self.tree_nodes[idx].1.children.len() == 0 {
                    if self.selected_index >= self.visible_tree_nodes.len()
                        && self.visible_tree_nodes.len() > 0 {
                        self.selected_index = self.visible_tree_nodes.len() - 1;
                    }
                    return ;
                }
                let ghost old_nv = node_views(self.tree_nodes@);
                let mut e = self.tree_nodes.remove(idx);
                e.1.is_expanded = !e.1.is_expanded;
                let ghost before_ins = node_views(self.tree_nodes@);
                self.tree_nodes.insert(idx, e);
                proof {
                    let nv = node_views(self.tree_nodes@);
                    assert((self.tree_nodes@[idx as int].0, self.tree_nodes@[idx as int].1@)
                        == nv[idx as int]);
                    assert forall|k: int| 0 <= k < nv.len() implies nv[k] == if k == idx {
                        nv[idx as int]
                    } else {
                        old_nv[k]
                    } by {
                        if k < idx {
                            assert((self.tree_nodes@[k].0, self.tree_nodes@[k].1@)
                                == before_ins[k]);
                        } else if k > idx {
                            assert((self.tree_nodes@[k].0, self.tree_nodes@[k].1@)
                                == before_ins[k - 1]);
                        }
                    }
                }
                self.rebuild_visible_nodes();
                if self.selected_index >= self.visible_tree_nodes.len() {
                    if self.visible_tree_nodes.len() > 0 {
                        self.selected_index = self.visible_tree_nodes.len() - 1;
                    } else {
                        self.selected_index = 0;
                    }
                }
            },
            None => {
                if self.selected_index >= self.visible_tree_nodes.len()
                    && self.visible_tree_nodes.len() > 0 {
                    self.selected_index = self.visible_tree_nodes.len() - 1;
                }
            },
        }
    }

    /// The selected snapshot under the tree display: the selected
    /// visible row's node, when everything is in range; under the list
    /// display, the same as the list selection.
    pub fn get_selected_process_tree(&self) -> (r: Option<&ProcessInfo>)
        ensures
            self.view_mode == ViewMode::List ==> match r {
                Some(p) => self.selected_index < self.filtered_indices@.len()
                    && (self.filtered_indices@[self.selected_index as int] as int)
                    < self.processes@.len() && p == &self.processes@[self.filtered_indices@[
                    self.selected_index as int
                ] as int],
                None => self.selected_index >= self.filtered_indices@.len() || (
                self.filtered_indices@[self.selected_index as int] as int)
                    >= self.processes@.len(),
            },
            self.view_mode == ViewMode::Tree ==> match r {
                Some(p) => self.selected_index < self.visible_tree_nodes@.len() && exists|k: int|
                    0 <= k < node_views(self.tree_nodes@).len() && (#[trigger] node_views(
                        self.tree_nodes@,
                    )[k]).0 == self.visible_tree_nodes@[self.selected_index as int]
                        && (node_views(self.tree_nodes@)[k].1.process_idx as int)
                        < self.processes@.len() && p == &self.processes@[node_views(
                        self.tree_nodes@,
                    )[k].1.process_idx as int],
                None => true,
            },
    {
        if matches!(self.view_mode, ViewMode::Tree) {
            if self.selected_index >= self.visible_tree_nodes.len() {
                return None;
            }
            let pid = self.visible_tree_nodes[self.selected_index];
            match find_tree_node(&self.tree_nodes, pid) {
                Some(idx) => {
                    proof {
                        assert(node_views(self.tree_nodes@)[idx as int] == (
                        self.tree_nodes@[idx as int].0,
                        self.tree_nodes@[idx as int].1@,
                        ));
                    }
                    let pidx = self.tree_nodes[idx].1.process_idx;
                    if pidx < self.processes.len() {
                        Some(&self.processes[pidx])
                    } else {
                        None
                    }
                },
                None => None,
            }
        } else {
            self.get_selected_process()
        }
    }
}

} // verus!
