//! The shell-history browser's data: the line-oriented history-file
//! parser, aggregated command entries, and the sort-mode cycle.
//! Finding and reading the history file happen at the edge; parsing
//! its text is specified here line by line.

use vstd::prelude::*;

use crate::clock::now_unix_secs;
use crate::strutil::{
    append_str, is_prefix, parse_i64_dec, spec_dec_str, spec_lines, spec_parse_i64_dec,
    spec_trim, split_lines, starts_with, trim_str, u64_to_string, views_of,
};

verus! {

/// How the command list is ordered.
#[derive(Debug, Clone, Copy, PartialEq, Eq, Structural)]
pub enum SortMode {
    /// Most used first.
    UsageCount,
    /// Most recent first.
    Timestamp,
    /// Alphabetical.
    Alphabetical,
}

impl SortMode {
    /// The next mode in the cycle: usage, recency, alphabetical, and
    /// around again.
    pub fn next(&self) -> (r: SortMode)
        ensures
            r == match self {
                SortMode::UsageCount => SortMode::Timestamp,
                SortMode::Timestamp => SortMode::Alphabetical,
                SortMode::Alphabetical => SortMode::UsageCount,
            },
    {
        match self {
            SortMode::UsageCount => SortMode::Timestamp,
            SortMode::Timestamp => SortMode::Alphabetical,
            SortMode::Alphabetical => SortMode::UsageCount,
        }
    }

    /// Display name with its ordering indicator.
    pub fn display(&self) -> (r: String)
        ensures
            r@ == match self {
                SortMode::UsageCount => "Usage v"@,
                SortMode::Timestamp => "Recent v"@,
                SortMode::Alphabetical => "A-Z ^"@,
            },
    {
        match self {
            SortMode::UsageCount => "Usage v".to_owned(),
            SortMode::Timestamp => "Recent v".to_owned(),
            SortMode::Alphabetical => "A-Z ^".to_owned(),
        }
    }
}

/// What kind of input the history browser is waiting for.
#[derive(Debug, Clone, Copy, PartialEq, Eq, Structural)]
pub enum InputMode {
    Normal,
    Search,
}

/// One aggregated command in the history.
#[derive(Debug)]
pub struct CommandEntry {
    pub cmd: String,
    /// Most recent use, in seconds since the epoch.
    pub timestamp: i64,
    /// Directories the command was run in.
    pub paths: Vec<String>,
    /// How many times the command was run.
    pub count: usize,
}

/// Mathematical image of a `CommandEntry`.
pub struct CommandEntryView {
    pub cmd: Seq<char>,
    pub timestamp: i64,
    pub paths: Seq<Seq<char>>,
    pub count: usize,
}

impl View for CommandEntry {
    type V = CommandEntryView;

    open spec fn view(&self) -> CommandEntryView {
        CommandEntryView {
            cmd: self.cmd@,
            timestamp: self.timestamp,
            paths: self.paths.deep_view(),
            count: self.count,
        }
    }
}

/// First and last use of one command.
#[derive(Debug, Clone, Copy, PartialEq, Eq, Structural)]
pub struct HistoryStats {
    pub first_used: i64,
    pub last_used: i64,
    pub total_count: usize,
}

/// One raw history-file record: a command with its timestamp and the
/// paths noted under it.
#[derive(Debug)]
pub struct RawHistoryEntry {
    pub cmd: String,
    pub when: i64,
    pub paths: Vec<String>,
}

/// Mathematical image of a `RawHistoryEntry`.
pub struct RawHistoryEntryView {
    pub cmd: Seq<char>,
    pub when: i64,
    pub paths: Seq<Seq<char>>,
}

impl View for RawHistoryEntry {
    type V = RawHistoryEntryView;

    open spec fn view(&self) -> RawHistoryEntryView {
        RawHistoryEntryView { cmd: self.cmd@, when: self.when, paths: self.paths.deep_view() }
    }
}

/// The views of a sequence of raw records.
pub open spec fn raw_views(v: Seq<RawHistoryEntry>) -> Seq<RawHistoryEntryView> {
    v.map_values(|x: RawHistoryEntry| x@)
}

/// The parser's running state: the record being built, whether a
/// paths block is open, and the finished records.
pub struct FishParseState {
    pub cmd: Option<Seq<char>>,
    pub when: i64,
    pub paths: Seq<Seq<char>>,
    pub in_paths: bool,
    pub out: Seq<RawHistoryEntryView>,
}

/// The state before any line.
pub open spec fn fish_init() -> FishParseState {
    FishParseState { cmd: None, when: 0, paths: Seq::empty(), in_paths: false, out: Seq::empty() }
}

/// How one line, trimmed, advances the parser: a command line closes
/// the record being built and opens a new one; a timestamp line sets
/// the pending timestamp when it parses; a paths header opens a paths
/// block; a dash line inside one adds a path; anything else changes
/// nothing.
pub open spec fn fish_step(st: FishParseState, raw_line: Seq<char>) -> FishParseState {
    let t = spec_trim(raw_line);
    if is_prefix("- cmd: "@, t) {
        let flushed = match st.cmd {
            Some(c) => st.out.push(RawHistoryEntryView { cmd: c, when: st.when, paths: st.paths }),
            None => st.out,
        };
        let kept_paths = match st.cmd {
            Some(_) => Seq::<Seq<char>>::empty(),
            None => st.paths,
        };
        FishParseState {
            cmd: Some(t.subrange("- cmd: "@.len() as int, t.len() as int)),
            when: 0,
            paths: kept_paths,
            in_paths: false,
            out: flushed,
        }
    } else if is_prefix("when: "@, t) {
        let parsed = spec_parse_i64_dec(t.subrange("when: "@.len() as int, t.len() as int));
        FishParseState {
            when: match parsed {
                Some(v) => v,
                None => st.when,
            },
            in_paths: false,
            ..st
        }
    } else if t == "paths:"@ {
        FishParseState { in_paths: true, ..st }
    } else if st.in_paths && is_prefix("- "@, t) {
        FishParseState { paths: st.paths.push(t.subrange("- "@.len() as int, t.len() as int)), ..st }
    } else {
        st
    }
}

/// The parser run over a sequence of lines.
pub open spec fn fish_fold(st: FishParseState, lines: Seq<Seq<char>>) -> FishParseState
    decreases lines.len(),
{
    if lines.len() == 0 {
        st
    } else {
        fish_fold(fish_step(st, lines[0]), lines.subrange(1, lines.len() as int))
    }
}

/// Running the parser over one more line applies one more step.
proof fn lemma_fish_fold_push(st: FishParseState, lines: Seq<Seq<char>>, x: Seq<char>)
    ensures
        fish_fold(st, lines.push(x)) == fish_step(fish_fold(st, lines), x),
    decreases lines.len(),
{
    let p = lines.push(x);
    assert(p.len() == lines.len() + 1);
    if lines.len() == 0 {
        assert(p[0] == x);
        assert(p.subrange(1, p.len() as int) =~= Seq::<Seq<char>>::empty());
        assert(fish_fold(st, p) == fish_fold(fish_step(st, p[0]), p.subrange(1, p.len() as int)));
        assert(fish_fold(fish_step(st, x), Seq::<Seq<char>>::empty()) == fish_step(st, x));
        assert(fish_fold(st, lines) == st);
    } else {
        assert(p[0] == lines[0]);
        let rest = lines.subrange(1, lines.len() as int);
        assert(p.subrange(1, p.len() as int) =~= rest.push(x));
        assert(fish_fold(st, p) == fish_fold(fish_step(st, p[0]), p.subrange(1, p.len() as int)));
        lemma_fish_fold_push(fish_step(st, lines[0]), rest, x);
        assert(fish_fold(st, lines) == fish_fold(fish_step(st, lines[0]), rest));
    }
}

/// The records in a whole history text: the parser run over its
/// lines, with the record still open at the end closed.
pub open spec fn spec_parse_raw_entries(text: Seq<char>) -> Seq<RawHistoryEntryView> {
    let st = fish_fold(fish_init(), spec_lines(text));
    match st.cmd {
        Some(c) => st.out.push(RawHistoryEntryView { cmd: c, when: st.when, paths: st.paths }),
        None => st.out,
    }
}

/// Parses the text of a fish-shell history file into its raw records.
pub fn parse_raw_entries(content: &str) -> (r: Vec<RawHistoryEntry>)
    ensures
        raw_views(r@) == spec_parse_raw_entries(content@),
{
    let lines = split_lines(content);
    let ghost ls = spec_lines(content@);
    let mut cur_cmd: Option<String> = None;
    let mut cur_when: i64 = 0;
    let mut cur_paths: Vec<String> = Vec::new();
    let mut in_paths = false;
    let mut out: Vec<RawHistoryEntry> = Vec::new();
    let mut i: usize = 0;
    proof {
        assert(ls.subrange(0, 0) =~= Seq::<Seq<char>>::empty());
        assert(cur_paths.deep_view() =~= Seq::<Seq<char>>::empty());
        assert(raw_views(out@) =~= Seq::<RawHistoryEntryView>::empty());
    }
    while i < lines.len()
        invariant
            0 <= i <= lines@.len(),
            ls == spec_lines(content@),
            views_of(lines@) == ls,
            lines@.len() == ls.len(),
            fish_fold(fish_init(), ls.subrange(0, i as int)) == (FishParseState {
                cmd: match cur_cmd {
                    Some(ref c) => Some(c@),
                    None => None,
                },
                when: cur_when,
                paths: cur_paths.deep_view(),
                in_paths: in_paths,
                out: raw_views(out@),
            }),
        decreases lines.len() - i,
    {
        let ghost st_before = fish_fold(fish_init(), ls.subrange(0, i as int));
        proof {
            assert(lines@[i as int]@ == ls[i as int]);
            assert(ls.subrange(0, i as int).push(ls[i as int]) =~= ls.subrange(0, i + 1));
            lemma_fish_fold_push(fish_init(), ls.subrange(0, i as int), ls[i as int]);
            reveal_strlit("- cmd: ");
            reveal_strlit("when: ");
            reveal_strlit("paths:");
            reveal_strlit("- ");
        }
        let trimmed = trim_str(lines[i].as_str());
        let tn = trimmed.unicode_len();
        if starts_with(trimmed, "- cmd: ") {
            match cur_cmd {
                Some(cmd) => {
                    let entry = RawHistoryEntry { cmd, when: cur_when, paths: cur_paths };
                    let ghost old_out = out@;
                    out.push(entry);
                    proof {
                        assert(raw_views(out@) =~= raw_views(old_out).push(out@.last()@));
                    }
                    cur_paths = Vec::new();
                    proof {
                        assert(cur_paths.deep_view() =~= Seq::<Seq<char>>::empty());
                    }
                },
                None => {},
            }
            cur_cmd = Some(trimmed.substring_char(7, tn).to_owned());
            cur_when = 0;
            in_paths = false;
        } else if starts_with(trimmed, "when: ") {
            match parse_i64_dec(trimmed.substring_char(6, tn)) {
                Some(v) => {
                    cur_when = v;
                },
                None => {},
            }
            in_paths = false;
        } else if crate::strutil::str_eq(trimmed, "paths:") {
            in_paths = true;
        } else if in_paths && starts_with(trimmed, "- ") {
            let ghost old_paths = cur_paths.deep_view();
            cur_paths.push(trimmed.substring_char(2, tn).to_owned());
            proof {
                assert(cur_paths.deep_view() =~~= old_paths.push(cur_paths@.last()@));
            }
        }
        i = i + 1;
    }
    proof {
        assert(ls.subrange(0, i as int) =~= ls);
    }
    match cur_cmd {
        Some(cmd) => {
            let entry = RawHistoryEntry { cmd, when: cur_when, paths: cur_paths };
            let ghost old_out = out@;
            out.push(entry);
            proof {
                assert(raw_views(out@) =~= raw_views(old_out).push(out@.last()@));
            }
        },
        None => {},
    }
    out
}

/// Reads and aggregates a fish-shell history file found at a fixed
/// path. Locating and reading the file happen at the edge; this type
/// carries the path and owns the parsing of the file's text.
#[derive(Debug)]
pub struct FishHistoryParser {
    /// Path of the history file, as text.
    pub history_path: String,
}

impl FishHistoryParser {
    /// A parser for the history file at `path`.
    pub fn with_path(path: String) -> (r: FishHistoryParser)
        ensures
            r.history_path@ == path@,
    {
        FishHistoryParser { history_path: path }
    }

    /// Parses history-file text into its raw records.
    pub fn parse_raw_entries(&self, content: &str) -> (r: Vec<RawHistoryEntry>)
        ensures
            raw_views(r@) == spec_parse_raw_entries(content@),
    {
        parse_raw_entries(content)
    }
}

/// The age bucket text for a timestamp at clock reading `now_secs`:
/// whole days elapsed decide between today, yesterday, a count of
/// days, of weeks, of months of thirty days, or of years of 365 days.
/// A timestamp at or after the reading counts as today.
pub open spec fn spec_relative_age(now_secs: u64, timestamp: i64) -> Seq<char> {
    let days = if timestamp >= 0 && timestamp < now_secs {
        (now_secs - timestamp) / 86400
    } else {
        0
    };
    if days == 0 {
        "today"@
    } else if days == 1 {
        "yesterday"@
    } else if days < 7 {
        spec_dec_str(days) + " days ago"@
    } else if days < 30 {
        spec_dec_str(days / 7) + " weeks ago"@
    } else if days < 365 {
        spec_dec_str(days / 30) + " months ago"@
    } else {
        spec_dec_str(days / 365) + " years ago"@
    }
}

/// Renders how long ago a timestamp was, relative to the clock
/// reading `now_secs`.
pub fn relative_age(now_secs: u64, timestamp: i64) -> (r: String)
    ensures
        r@ == spec_relative_age(now_secs, timestamp),
{
    let days: u64 = if timestamp >= 0 && (timestamp as u64) < now_secs {
        (now_secs - timestamp as u64) / 86400
    } else {
        0
    };
    if days == 0 {
        "today".to_owned()
    } else if days == 1 {
        "yesterday".to_owned()
    } else if days < 7 {
        let mut s = u64_to_string(days);
        append_str(&mut s, " days ago");
        s
    } else if days < 30 {
        let mut s = u64_to_string(days / 7);
        append_str(&mut s, " weeks ago");
        s
    } else if days < 365 {
        let mut s = u64_to_string(days / 30);
        append_str(&mut s, " months ago");
        s
    } else {
        let mut s = u64_to_string(days / 365);
        append_str(&mut s, " years ago");
        s
    }
}

impl CommandEntry {
    /// Renders how long ago this entry was last used. The clock
    /// decides which bucket; whatever it reads, the text is the age
    /// bucket for that reading.
    pub fn format_timestamp(&self) -> (r: String)
        ensures
            exists|now: u64| r@ == spec_relative_age(now, self.timestamp),
    {
        let now = now_unix_secs();
        let r = relative_age(now, self.timestamp);
        proof {
            assert(r@ == spec_relative_age(now, self.timestamp));
        }
        r
    }
}

/// How many raw records carry this command.
pub open spec fn count_cmd(raw: Seq<RawHistoryEntryView>, cmd: Seq<char>) -> int {
    raw.filter(|e: RawHistoryEntryView| e.cmd == cmd).len() as int
}

/// The latest timestamp among this command's records, the smallest
/// value when it has none.
pub open spec fn max_when(raw: Seq<RawHistoryEntryView>, cmd: Seq<char>) -> int
    decreases raw.len(),
{
    if raw.len() == 0 {
        i64::MIN as int
    } else {
        let m = max_when(raw.drop_last(), cmd);
        if raw.last().cmd == cmd && raw.last().when > m {
            raw.last().when as int
        } else {
            m
        }
    }
}

/// The earliest timestamp among this command's records, the largest
/// value when it has none.
pub open spec fn min_when(raw: Seq<RawHistoryEntryView>, cmd: Seq<char>) -> int
    decreases raw.len(),
{
    if raw.len() == 0 {
        i64::MAX as int
    } else {
        let m = min_when(raw.drop_last(), cmd);
        if raw.last().cmd == cmd && raw.last().when < m {
            raw.last().when as int
        } else {
            m
        }
    }
}

/// Some record of this command notes this path.
pub open spec fn has_path(raw: Seq<RawHistoryEntryView>, cmd: Seq<char>, p: Seq<char>) -> bool {
    exists|i: int|
        0 <= i < raw.len() && #[trigger] raw[i].cmd == cmd && raw[i].paths.contains(p)
}

/// Some record carries this command.
pub open spec fn cmd_present(raw: Seq<RawHistoryEntryView>, cmd: Seq<char>) -> bool {
    exists|i: int| 0 <= i < raw.len() && #[trigger] raw[i].cmd == cmd
}

/// Strictly increasing in lexicographic order, hence duplicate-free.
pub open spec fn sorted_unique(v: Seq<Seq<char>>) -> bool {
    forall|i: int, j: int|
        0 <= i < j < v.len() ==> crate::strutil::lex_lt(#[trigger] v[i], #[trigger] v[j])
}

/// Extending the records by one changes each command's count by one
/// or not at all, and its extremes only through the new record.
proof fn lemma_group_push(raw: Seq<RawHistoryEntryView>, e: RawHistoryEntryView, cmd: Seq<char>)
    ensures
        count_cmd(raw.push(e), cmd) == count_cmd(raw, cmd) + if e.cmd == cmd {
            1int
        } else {
            0int
        },
        max_when(raw.push(e), cmd) == if e.cmd == cmd && e.when > max_when(raw, cmd) {
            e.when as int
        } else {
            max_when(raw, cmd)
        },
        min_when(raw.push(e), cmd) == if e.cmd == cmd && e.when < min_when(raw, cmd) {
            e.when as int
        } else {
            min_when(raw, cmd)
        },
        cmd_present(raw.push(e), cmd) == (cmd_present(raw, cmd) || e.cmd == cmd),
        forall|p: Seq<char>|
            #[trigger] has_path(raw.push(e), cmd, p) == (has_path(raw, cmd, p) || (e.cmd == cmd
                && e.paths.contains(p))),
{
    let pred = |x: RawHistoryEntryView| x.cmd == cmd;
    crate::strutil::lemma_filter_push(raw, pred, e);
    assert(raw.push(e).drop_last() =~= raw);
    assert(raw.push(e).last() == e);
    assert forall|p: Seq<char>|
        #[trigger] has_path(raw.push(e), cmd, p) == (has_path(raw, cmd, p) || (e.cmd == cmd
            && e.paths.contains(p))) by {
        let q = raw.push(e);
        if has_path(raw, cmd, p) {
            let i = choose|i: int| 0 <= i < raw.len() && #[trigger] raw[i].cmd == cmd
                && raw[i].paths.contains(p);
            assert(q[i].cmd == cmd && q[i].paths.contains(p));
        }
        if e.cmd == cmd && e.paths.contains(p) {
            assert(q[q.len() - 1].cmd == cmd && q[q.len() - 1].paths.contains(p));
        }
        if has_path(q, cmd, p) {
            let i = choose|i: int| 0 <= i < q.len() && #[trigger] q[i].cmd == cmd
                && q[i].paths.contains(p);
            if i < raw.len() {
                assert(raw[i].cmd == cmd && raw[i].paths.contains(p));
            }
        }
    }
    if cmd_present(raw, cmd) {
        let i = choose|i: int| 0 <= i < raw.len() && #[trigger] raw[i].cmd == cmd;
        assert(raw.push(e)[i].cmd == cmd);
    }
    if cmd_present(raw.push(e), cmd) {
        let i = choose|i: int| 0 <= i < raw.push(e).len() && #[trigger] raw.push(e)[i].cmd
            == cmd;
        if i < raw.len() {
            assert(raw[i].cmd == cmd);
        }
    }
}

/// A command no record carries has an empty count and untouched
/// extremes.
proof fn lemma_group_absent(raw: Seq<RawHistoryEntryView>, cmd: Seq<char>)
    requires
        !cmd_present(raw, cmd),
    ensures
        count_cmd(raw, cmd) == 0,
        max_when(raw, cmd) == i64::MIN as int,
        min_when(raw, cmd) == i64::MAX as int,
        forall|p: Seq<char>| !has_path(raw, cmd, p),
    decreases raw.len(),
{
    reveal(Seq::filter);
    if raw.len() > 0 {
        assert(raw[raw.len() - 1].cmd != cmd);
        assert forall|i: int| 0 <= i < raw.drop_last().len() implies #[trigger] raw.drop_last()[
            i
        ].cmd != cmd by {
            assert(raw.drop_last()[i] == raw[i]);
        }
        lemma_group_absent(raw.drop_last(), cmd);
    }
}

/// The position of the first entry not below `s`.
fn lower_bound(list: &Vec<String>, s: &str) -> (r: usize)
    ensures
        r <= list@.len(),
        forall|j: int| 0 <= j < r ==> crate::strutil::lex_lt(#[trigger] list.deep_view()[j], s@),
        r < list@.len() ==> !crate::strutil::lex_lt(list.deep_view()[r as int], s@),
{
    let n = list.len();
    let mut i: usize = 0;
    while i < n
        invariant
            0 <= i <= n,
            n == list@.len(),
            forall|j: int|
                0 <= j < i ==> crate::strutil::lex_lt(#[trigger] list.deep_view()[j], s@),
        decreases n - i,
    {
        proof {
            assert(list@[i as int]@ == list.deep_view()[i as int]);
        }
        if !crate::strutil::str_lt(list[i].as_str(), s) {
            return i;
        }
        i = i + 1;
    }
    n
}

/// Inserts a path into a sorted duplicate-free list, keeping it so;
/// a path already present is left alone.
fn insert_sorted_unique(list: &mut Vec<String>, s: String)
    requires
        sorted_unique(old(list).deep_view()),
    ensures
        sorted_unique(final(list).deep_view()),
        forall|q: Seq<char>|
            #[trigger] final(list).deep_view().contains(q) <==> (old(
                list,
            ).deep_view().contains(q) || q == s@),
{
    let ghost old_dv = list.deep_view();
    let n = list.len();
    let i = lower_bound(list, s.as_str());
    if i < n && crate::strutil::str_eq(list[i].as_str(), s.as_str()) {
        proof {
            assert(old_dv[i as int] == s@);
            assert(old_dv.contains(s@));
        }
        return ;
    }
    proof {
        if i < n {
            assert(list@[i as int]@ == old_dv[i as int]);
            crate::strutil::lemma_lex_trichotomy(old_dv[i as int], s@);
            assert(crate::strutil::lex_lt(s@, old_dv[i as int]));
        }
    }
    let ghost pre = list.deep_view();
    list.insert(i, s);
    proof {
        let dv = list.deep_view();
        assert(dv.len() == old_dv.len() + 1);
        assert forall|j: int| 0 <= j < dv.len() implies dv[j] == if j < i {
            old_dv[j]
        } else if j == i {
            s@
        } else {
            old_dv[j - 1]
        } by {
            assert(list@ == list@);
        }
        assert forall|j: int, k: int| 0 <= j < k < dv.len() implies crate::strutil::lex_lt(
            #[trigger] dv[j],
            #[trigger] dv[k],
        ) by {
            if j == i && k > i {
                if k - 1 > i {
                    crate::strutil::lemma_lex_transitive(s@, old_dv[i as int], old_dv[k - 1]);
                }
            }
        }
        assert forall|q: Seq<char>| #[trigger] dv.contains(q) implies (old_dv.contains(q) || q
            == s@) by {
            let j = choose|j: int| 0 <= j < dv.len() && dv[j] == q;
            if j < i {
                assert(old_dv[j] == q);
            } else if j > i {
                assert(old_dv[j - 1] == q);
            }
        }
        assert forall|q: Seq<char>| (old_dv.contains(q) || q == s@) implies #[trigger] dv.contains(
            q,
        ) by {
            if old_dv.contains(q) {
                let j = choose|j: int| 0 <= j < old_dv.len() && old_dv[j] == q;
                if j < i {
                    assert(dv[j] == q);
                } else {
                    assert(dv[j + 1] == q);
                }
            } else {
                assert(dv[i as int] == q);
            }
        }
    }
}

/// The views of a sequence of aggregated entries.
pub open spec fn entry_views(v: Seq<CommandEntry>) -> Seq<CommandEntryView> {
    v.map_values(|x: CommandEntry| x@)
}

/// One aggregated entry correctly summarizes its command's records:
/// the count of records, their latest timestamp, and their paths as a
/// sorted duplicate-free list.
pub open spec fn entry_summarizes(raw: Seq<RawHistoryEntryView>, x: CommandEntryView) -> bool {
    &&& x.count as int == count_cmd(raw, x.cmd)
    &&& x.timestamp as int == max_when(raw, x.cmd)
    &&& sorted_unique(x.paths)
    &&& forall|p: Seq<char>| #[trigger] x.paths.contains(p) <==> has_path(raw, x.cmd, p)
}

/// The position of the first entry with a count below `c`.
fn lower_bound_count(list: &Vec<CommandEntry>, c: usize) -> (r: usize)
    ensures
        r <= list@.len(),
        forall|j: int| 0 <= j < r ==> #[trigger] entry_views(list@)[j].count >= c,
        r < list@.len() ==> entry_views(list@)[r as int].count < c,
{
    let n = list.len();
    let mut i: usize = 0;
    while i < n
        invariant
            0 <= i <= n,
            n == list@.len(),
            forall|j: int| 0 <= j < i ==> #[trigger] entry_views(list@)[j].count >= c,
        decreases n - i,
    {
        proof {
            assert(entry_views(list@)[i as int] == list@[i as int]@);
        }
        if list[i].count < c {
            return i;
        }
        i = i + 1;
    }
    n
}

/// First aggregated entry carrying this command, if any.
fn find_entry(list: &Vec<CommandEntry>, cmd: &str) -> (r: Option<usize>)
    ensures
        match r {
            Some(i) => i < list@.len() && entry_views(list@)[i as int].cmd == cmd@,
            None => forall|k: int|
                0 <= k < list@.len() ==> #[trigger] entry_views(list@)[k].cmd != cmd@,
        },
{
    let n = list.len();
    let mut i: usize = 0;
    while i < n
        invariant
            0 <= i <= n,
            n == list@.len(),
            forall|k: int| 0 <= k < i ==> #[trigger] entry_views(list@)[k].cmd != cmd@,
        decreases n - i,
    {
        proof {
            assert(entry_views(list@)[i as int] == list@[i as int]@);
        }
        if crate::strutil::str_eq(list[i].cmd.as_str(), cmd) {
            return Some(i);
        }
        i = i + 1;
    }
    None
}

impl FishHistoryParser {
    /// Aggregates raw records into one entry per distinct command:
    /// its number of records, its latest timestamp, and the union of
    /// its paths sorted and deduplicated; the entries come most-used
    /// first. The relative order of equally used commands is not part
    /// of the contract.
    pub fn aggregate_commands(&self, raw: Vec<RawHistoryEntry>) -> (r: Vec<CommandEntry>)
        ensures
            ({
                let rv = raw_views(raw@);
                let ev = entry_views(r@);
                &&& forall|k: int, l: int| 0 <= k < l < ev.len() ==> (#[trigger] ev[k]).cmd != (
                #[trigger] ev[l]).cmd
                &&& forall|k: int| 0 <= k < ev.len() ==> entry_summarizes(rv, #[trigger] ev[k])
                &&& forall|cmd: Seq<char>|
                    #[trigger] cmd_present(rv, cmd) <==> exists|k: int|
                        0 <= k < ev.len() && (#[trigger] ev[k]).cmd == cmd
                &&& forall|k: int, l: int|
                    0 <= k < l < ev.len() ==> (#[trigger] ev[k]).count >= (#[trigger] ev[l]).count
            }),
    {
        let ghost rv = raw_views(raw@);
        let mut grouped: Vec<CommandEntry> = Vec::new();
        let mut i: usize = 0;
        proof {
            assert(rv.subrange(0, 0) =~= Seq::<RawHistoryEntryView>::empty());
        }
        while i < raw.len()
            invariant
                0 <= i <= raw@.len(),
                rv == raw_views(raw@),
                rv.len() == raw@.len(),
                forall|k: int, l: int|
                    0 <= k < l < entry_views(grouped@).len() ==> (#[trigger] entry_views(
                        grouped@,
                    )[k]).cmd != (#[trigger] entry_views(grouped@)[l]).cmd,
                forall|k: int|
                    0 <= k < entry_views(grouped@).len() ==> entry_summarizes(
                        rv.subrange(0, i as int),
                        #[trigger] entry_views(grouped@)[k],
                    ),
                forall|cmd: Seq<char>|
                    #[trigger] cmd_present(rv.subrange(0, i as int), cmd) <==> exists|k: int|
                        0 <= k < entry_views(grouped@).len() && (#[trigger] entry_views(
                            grouped@,
                        )[k]).cmd == cmd,
            decreases raw.len() - i,
        {
            let ghost prefix = rv.subrange(0, i as int);
            let ghost ev = raw@[i as int]@;
            proof {
                assert(rv[i as int] == raw@[i as int]@);
                assert(rv.subrange(0, i + 1) =~= prefix.push(ev));
                assert forall|cmd: Seq<char>|
                    #[trigger] count_cmd(prefix.push(ev), cmd) == count_cmd(prefix, cmd) + (
                if ev.cmd == cmd {
                    1int
                } else {
                    0int
                }) by {
                    lemma_group_push(prefix, ev, cmd);
                }
                assert forall|cmd: Seq<char>| #[trigger] max_when(prefix.push(ev), cmd) == (
                if ev.cmd == cmd && ev.when > max_when(prefix, cmd) {
                    ev.when as int
                } else {
                    max_when(prefix, cmd)
                }) by {
                    lemma_group_push(prefix, ev, cmd);
                }
                assert forall|cmd: Seq<char>| #[trigger] cmd_present(prefix.push(ev), cmd) == (
                cmd_present(prefix, cmd) || ev.cmd == cmd) by {
                    lemma_group_push(prefix, ev, cmd);
                }
                assert forall|cmd: Seq<char>, p: Seq<char>|
                    #[trigger] has_path(prefix.push(ev), cmd, p) == (has_path(prefix, cmd, p) || (
                ev.cmd == cmd && ev.paths.contains(p))) by {
                    lemma_group_push(prefix, ev, cmd);
                }
            }
            let entry = &raw[i];
            match find_entry(&grouped, entry.cmd.as_str()) {
                Some(idx) => {
                    let ghost old_gv = entry_views(grouped@);
                    let mut g = grouped.remove(idx);
                    proof {
                        assert(g@ == old_gv[idx as int]);
                        prefix.lemma_filter_len(
                            |x: RawHistoryEntryView| x.cmd == g@.cmd,
                        );
                    }
                    g.count = g.count + 1;
                    if entry.when > g.timestamp {
                        g.timestamp = entry.when;
                    }
                    let mut j: usize = 0;
                    let ghost before_paths = g.paths.deep_view();
                    while j < entry.paths.len()
                        invariant
                            0 <= j <= entry.paths@.len(),
                            sorted_unique(g.paths.deep_view()),
                            entry.paths.deep_view().len() == entry.paths@.len(),
                            forall|q: Seq<char>|
                                #[trigger] g.paths.deep_view().contains(q) <==> (
                                before_paths.contains(q) || entry.paths.deep_view().subrange(
                                    0,
                                    j as int,
                                ).contains(q)),
                            g@.cmd == old_gv[idx as int].cmd,
                            g@.count == old_gv[idx as int].count + 1,
                            g@.timestamp == if ev.when > old_gv[idx as int].timestamp {
                                ev.when
                            } else {
                                old_gv[idx as int].timestamp
                            },
                        decreases entry.paths@.len() - j,
                    {
                        let ghost pre_paths = g.paths.deep_view();
                        insert_sorted_unique(&mut g.paths, entry.paths[j].clone());
                        proof {
                            let sub1 = entry.paths.deep_view().subrange(0, j + 1);
                            let sub0 = entry.paths.deep_view().subrange(0, j as int);
                            assert(entry.paths.deep_view()[j as int] == entry.paths@[j as int]@);
                            assert forall|q: Seq<char>| #[trigger] sub1.contains(q) implies (
                            sub0.contains(q) || q == entry.paths@[j as int]@) by {
                                let m = choose|m: int| 0 <= m < sub1.len() && sub1[m] == q;
                                if m < j {
                                    assert(sub0[m] == q);
                                }
                            }
                            assert forall|q: Seq<char>| (sub0.contains(q) || q == entry.paths@[
                                j as int
                            ]@) implies #[trigger] sub1.contains(q) by {
                                if sub0.contains(q) {
                                    let m = choose|m: int| 0 <= m < sub0.len() && sub0[m] == q;
                                    assert(sub1[m] == q);
                                } else {
                                    assert(sub1[j as int] == q);
                                }
                            }
                        }
                        j = j + 1;
                    }
                    proof {
                        assert(entry.paths.deep_view().subrange(0, j as int) =~= entry
                            .paths
                            .deep_view());
                        assert(ev.paths == entry.paths.deep_view());
                    }
                    let ghost before_insert = entry_views(grouped@);
                    grouped.insert(idx, g);
                    proof {
                        let gv = entry_views(grouped@);
                        assert(grouped@[idx as int]@ == g@);
                        assert forall|k: int| 0 <= k < gv.len() implies gv[k] == if k == idx {
                            g@
                        } else {
                            old_gv[k]
                        } by {
                            if k < idx {
                                assert(grouped@[k]@ == before_insert[k]);
                            } else if k > idx {
                                assert(grouped@[k]@ == before_insert[k - 1]);
                            }
                        }
                        assert forall|cmd: Seq<char>|
                            #[trigger] cmd_present(rv.subrange(0, i + 1), cmd) implies exists|
                            k: int,
                        |
                            0 <= k < gv.len() && (#[trigger] gv[k]).cmd == cmd by {
                            if cmd_present(prefix, cmd) {
                                let k = choose|k: int|
                                    0 <= k < old_gv.len() && (#[trigger] old_gv[k]).cmd == cmd;
                                assert(gv[k].cmd == cmd);
                            } else {
                                assert(cmd == ev.cmd);
                                assert(gv[idx as int].cmd == cmd);
                            }
                        }
                        assert forall|k: int|
                            0 <= k < gv.len() implies entry_summarizes(
                            rv.subrange(0, i + 1),
                            #[trigger] gv[k],
                        ) by {
                            lemma_group_push(prefix, ev, gv[k].cmd);
                        }
                    }
                },
                None => {
                    proof {
                        assert(!cmd_present(prefix, ev.cmd)) by {
                            if cmd_present(prefix, ev.cmd) {
                                let k = choose|k: int|
                                    0 <= k < entry_views(grouped@).len() && (
                                    #[trigger] entry_views(grouped@)[k]).cmd == ev.cmd;
                                assert(false);
                            }
                        }
                        lemma_group_absent(prefix, ev.cmd);
                    }
                    let mut g = CommandEntry {
                        cmd: entry.cmd.clone(),
                        timestamp: entry.when,
                        paths: Vec::new(),
                        count: 1,
                    };
                    proof {
                        assert(g.paths.deep_view() =~= Seq::<Seq<char>>::empty());
                    }
                    let mut j: usize = 0;
                    while j < entry.paths.len()
                        invariant
                            0 <= j <= entry.paths@.len(),
                            sorted_unique(g.paths.deep_view()),
                            entry.paths.deep_view().len() == entry.paths@.len(),
                            forall|q: Seq<char>|
                                #[trigger] g.paths.deep_view().contains(q)
                                    <==> entry.paths.deep_view().subrange(0, j as int).contains(
                                    q,
                                ),
                            g@.cmd == ev.cmd,
                            g@.count == 1,
                            g@.timestamp == ev.when,
                        decreases entry.paths@.len() - j,
                    {
                        insert_sorted_unique(&mut g.paths, entry.paths[j].clone());
                        proof {
                            let sub1 = entry.paths.deep_view().subrange(0, j + 1);
                            let sub0 = entry.paths.deep_view().subrange(0, j as int);
                            assert(entry.paths.deep_view()[j as int] == entry.paths@[j as int]@);
                            assert forall|q: Seq<char>| #[trigger] sub1.contains(q) implies (
                            sub0.contains(q) || q == entry.paths@[j as int]@) by {
                                let m = choose|m: int| 0 <= m < sub1.len() && sub1[m] == q;
                                if m < j {
                                    assert(sub0[m] == q);
                                }
                            }
                            assert forall|q: Seq<char>| (sub0.contains(q) || q == entry.paths@[
                                j as int
                            ]@) implies #[trigger] sub1.contains(q) by {
                                if sub0.contains(q) {
                                    let m = choose|m: int| 0 <= m < sub0.len() && sub0[m] == q;
                                    assert(sub1[m] == q);
                                } else {
                                    assert(sub1[j as int] == q);
                                }
                            }
                        }
                        j = j + 1;
                    }
                    proof {
                        assert(entry.paths.deep_view().subrange(0, j as int) =~= entry
                            .paths
                            .deep_view());
                        assert(ev.paths == entry.paths.deep_view());
                    }
                    let ghost old_gv = entry_views(grouped@);
                    grouped.push(g);
                    proof {
                        let gv = entry_views(grouped@);
                        assert(gv =~= old_gv.push(grouped@.last()@));
                        assert forall|cmd: Seq<char>|
                            #[trigger] cmd_present(rv.subrange(0, i + 1), cmd) implies exists|
                            k: int,
                        |
                            0 <= k < gv.len() && (#[trigger] gv[k]).cmd == cmd by {
                            if cmd_present(prefix, cmd) {
                                let k = choose|k: int|
                                    0 <= k < old_gv.len() && (#[trigger] old_gv[k]).cmd == cmd;
                                assert(gv[k].cmd == cmd);
                            } else {
                                assert(gv[gv.len() - 1].cmd == cmd);
                            }
                        }
                        assert forall|k: int|
                            0 <= k < gv.len() implies entry_summarizes(
                            rv.subrange(0, i + 1),
                            #[trigger] gv[k],
                        ) by {
                            lemma_group_push(prefix, ev, gv[k].cmd);
                        }
                    }
                },
            }
            i = i + 1;
        }
        proof {
            assert(rv.subrange(0, i as int) =~= rv);
        }
        // Order by usage, most used first.
        let mut out: Vec<CommandEntry> = Vec::new();
        let ghost whole = rv;
        while grouped.len() > 0
            invariant
                rv == raw_views(raw@),
                forall|k: int|
                    0 <= k < entry_views(out@).len() ==> entry_summarizes(
                        rv,
                        #[trigger] entry_views(out@)[k],
                    ),
                forall|k: int|
                    0 <= k < entry_views(grouped@).len() ==> entry_summarizes(
                        rv,
                        #[trigger] entry_views(grouped@)[k],
                    ),
                forall|k: int, l: int|
                    0 <= k < l < entry_views(out@).len() ==> (#[trigger] entry_views(
                        out@,
                    )[k]).cmd != (#[trigger] entry_views(out@)[l]).cmd,
                forall|k: int, l: int|
                    0 <= k < l < entry_views(grouped@).len() ==> (#[trigger] entry_views(
                        grouped@,
                    )[k]).cmd != (#[trigger] entry_views(grouped@)[l]).cmd,
                forall|k: int, l: int|
                    0 <= k < entry_views(out@).len() && 0 <= l < entry_views(grouped@).len()
                        ==> (#[trigger] entry_views(out@)[k]).cmd != (#[trigger] entry_views(
                        grouped@,
                    )[l]).cmd,
                forall|cmd: Seq<char>|
                    #[trigger] cmd_present(rv, cmd) <==> (exists|k: int|
                        0 <= k < entry_views(out@).len() && (#[trigger] entry_views(
                            out@,
                        )[k]).cmd == cmd) || (exists|k: int|
                        0 <= k < entry_views(grouped@).len() && (#[trigger] entry_views(
                            grouped@,
                        )[k]).cmd == cmd),
                forall|k: int, l: int|
                    0 <= k < l < entry_views(out@).len() ==> (#[trigger] entry_views(
                        out@,
                    )[k]).count >= (#[trigger] entry_views(out@)[l]).count,
            decreases grouped.len(),
        {
            let ghost old_rem = entry_views(grouped@);
            let ghost old_out = entry_views(out@);
            let e = grouped.remove(0);
            proof {
                assert(e@ == old_rem[0]);
                let remv = entry_views(grouped@);
                assert forall|k: int| 0 <= k < remv.len() implies remv[k] == old_rem[k + 1] by {
                    assert(grouped@[k]@ == remv[k]);
                }
            }
            let p = lower_bound_count(&out, e.count);
            let ghost before_ins = entry_views(out@);
            out.insert(p, e);
            proof {
                let ov = entry_views(out@);
                assert(out@[p as int]@ == old_rem[0]);
                assert forall|k: int| 0 <= k < ov.len() implies ov[k] == if k == p {
                    old_rem[0]
                } else if k < p {
                    old_out[k]
                } else {
                    old_out[k - 1]
                } by {
                    if k < p {
                        assert(out@[k]@ == before_ins[k]);
                    } else if k > p {
                        assert(out@[k]@ == before_ins[k - 1]);
                    }
                }
                assert forall|cmd: Seq<char>| #[trigger] cmd_present(rv, cmd) implies ((exists|
                    k: int,
                |
                    0 <= k < ov.len() && (#[trigger] ov[k]).cmd == cmd) || (exists|k: int|
                    0 <= k < entry_views(grouped@).len() && (#[trigger] entry_views(
                        grouped@,
                    )[k]).cmd == cmd)) by {
                    let remv = entry_views(grouped@);
                    if exists|k: int| 0 <= k < old_out.len() && (#[trigger] old_out[k]).cmd
                        == cmd {
                        let k = choose|k: int|
                            0 <= k < old_out.len() && (#[trigger] old_out[k]).cmd == cmd;
                        if k < p {
                            assert(ov[k].cmd == cmd);
                        } else {
                            assert(ov[k + 1].cmd == cmd);
                        }
                    } else {
                        let k = choose|k: int|
                            0 <= k < old_rem.len() && (#[trigger] old_rem[k]).cmd == cmd;
                        if k == 0 {
                            assert(ov[p as int].cmd == cmd);
                        } else {
                            assert(remv[k - 1].cmd == cmd);
                        }
                    }
                }
            }
        }
        out
    }
}

/// The views of keyed statistics.
pub open spec fn stats_views(v: Seq<(String, HistoryStats)>) -> Seq<(Seq<char>, HistoryStats)> {
    v.map_values(|p: (String, HistoryStats)| (p.0@, p.1))
}

/// First keyed entry carrying this command, if any.
fn find_stats_entry(list: &Vec<(String, HistoryStats)>, cmd: &str) -> (r: Option<usize>)
    ensures
        match r {
            Some(i) => i < list@.len() && stats_views(list@)[i as int].0 == cmd@,
            None => forall|k: int|
                0 <= k < list@.len() ==> (#[trigger] stats_views(list@)[k]).0 != cmd@,
        },
{
    let n = list.len();
    let mut i: usize = 0;
    while i < n
        invariant
            0 <= i <= n,
            n == list@.len(),
            forall|k: int| 0 <= k < i ==> (#[trigger] stats_views(list@)[k]).0 != cmd@,
        decreases n - i,
    {
        proof {
            assert(stats_views(list@)[i as int] == (list@[i as int].0@, list@[i as int].1));
        }
        if crate::strutil::str_eq(list[i].0.as_str(), cmd) {
            return Some(i);
        }
        i = i + 1;
    }
    None
}

impl FishHistoryParser {
    /// Statistics for every distinct command among the raw records:
    /// earliest use, latest use, and how many records carry it, keyed
    /// by the command in first-seen order.
    pub fn stats_of_entries(&self, raw: &Vec<RawHistoryEntry>) -> (r: Vec<(String, HistoryStats)>)
        ensures
            ({
                let rv = raw_views(raw@);
                let sv = stats_views(r@);
                &&& forall|k: int, l: int| 0 <= k < l < sv.len() ==> (#[trigger] sv[k]).0 != (
                #[trigger] sv[l]).0
                &&& forall|k: int|
                    0 <= k < sv.len() ==> {
                        let (cmd, st) = #[trigger] sv[k];
                        st.total_count as int == count_cmd(rv, cmd) && st.first_used as int
                            == min_when(rv, cmd) && st.last_used as int == max_when(rv, cmd)
                    }
                &&& forall|cmd: Seq<char>|
                    #[trigger] cmd_present(rv, cmd) <==> exists|k: int|
                        0 <= k < sv.len() && (#[trigger] sv[k]).0 == cmd
            }),
    {
        let ghost rv = raw_views(raw@);
        let mut out: Vec<(String, HistoryStats)> = Vec::new();
        let mut i: usize = 0;
        proof {
            assert(rv.subrange(0, 0) =~= Seq::<RawHistoryEntryView>::empty());
        }
        while i < raw.len()
            invariant
                0 <= i <= raw@.len(),
                rv == raw_views(raw@),
                rv.len() == raw@.len(),
                forall|k: int, l: int|
                    0 <= k < l < stats_views(out@).len() ==> (#[trigger] stats_views(
                        out@,
                    )[k]).0 != (#[trigger] stats_views(out@)[l]).0,
                forall|k: int|
                    0 <= k < stats_views(out@).len() ==> {
                        let (cmd, st) = #[trigger] stats_views(out@)[k];
                        st.total_count as int == count_cmd(rv.subrange(0, i as int), cmd)
                            && st.first_used as int == min_when(rv.subrange(0, i as int), cmd)
                            && st.last_used as int == max_when(rv.subrange(0, i as int), cmd)
                    },
                forall|cmd: Seq<char>|
                    #[trigger] cmd_present(rv.subrange(0, i as int), cmd) <==> exists|k: int|
                        0 <= k < stats_views(out@).len() && (#[trigger] stats_views(
                            out@,
                        )[k]).0 == cmd,
            decreases raw.len() - i,
        {
            let ghost prefix = rv.subrange(0, i as int);
            let ghost ev = raw@[i as int]@;
            proof {
                assert(rv[i as int] == raw@[i as int]@);
                assert(rv.subrange(0, i + 1) =~= prefix.push(ev));
                assert forall|cmd: Seq<char>|
                    #[trigger] count_cmd(prefix.push(ev), cmd) == count_cmd(prefix, cmd) + (
                if ev.cmd == cmd {
                    1int
                } else {
                    0int
                }) by {
                    lemma_group_push(prefix, ev, cmd);
                }
                assert forall|cmd: Seq<char>| #[trigger] max_when(prefix.push(ev), cmd) == (
                if ev.cmd == cmd && ev.when > max_when(prefix, cmd) {
                    ev.when as int
                } else {
                    max_when(prefix, cmd)
                }) by {
                    lemma_group_push(prefix, ev, cmd);
                }
                assert forall|cmd: Seq<char>| #[trigger] min_when(prefix.push(ev), cmd) == (
                if ev.cmd == cmd && ev.when < min_when(prefix, cmd) {
                    ev.when as int
                } else {
                    min_when(prefix, cmd)
                }) by {
                    lemma_group_push(prefix, ev, cmd);
                }
                assert forall|cmd: Seq<char>| #[trigger] cmd_present(prefix.push(ev), cmd) == (
                cmd_present(prefix, cmd) || ev.cmd == cmd) by {
                    lemma_group_push(prefix, ev, cmd);
                }
            }
            let entry = &raw[i];
            match find_stats_entry(&out, entry.cmd.as_str()) {
                Some(idx) => {
                    let ghost old_sv = stats_views(out@);
                    let mut pair = out.remove(idx);
                    proof {
                        assert((pair.0@, pair.1) == old_sv[idx as int]);
                        prefix.lemma_filter_len(|x: RawHistoryEntryView| x.cmd == pair.0@);
                    }
                    pair.1.total_count = pair.1.total_count + 1;
                    if entry.when > pair.1.last_used {
                        pair.1.last_used = entry.when;
                    }
                    if entry.when < pair.1.first_used {
                        pair.1.first_used = entry.when;
                    }
                    let ghost before_ins = stats_views(out@);
                    out.insert(idx, pair);
                    proof {
                        let sv = stats_views(out@);
                        assert((out@[idx as int].0@, out@[idx as int].1) == sv[idx as int]);
                        assert forall|k: int| 0 <= k < sv.len() implies sv[k] == if k == idx {
                            sv[idx as int]
                        } else {
                            old_sv[k]
                        } by {
                            if k < idx {
                                assert((out@[k].0@, out@[k].1) == before_ins[k]);
                            } else if k > idx {
                                assert((out@[k].0@, out@[k].1) == before_ins[k - 1]);
                            }
                        }
                        assert forall|cmd: Seq<char>|
                            #[trigger] cmd_present(rv.subrange(0, i + 1), cmd) implies exists|
                            k: int,
                        |
                            0 <= k < sv.len() && (#[trigger] sv[k]).0 == cmd by {
                            if cmd_present(prefix, cmd) {
                                let k = choose|k: int|
                                    0 <= k < old_sv.len() && (#[trigger] old_sv[k]).0 == cmd;
                                assert(sv[k].0 == cmd);
                            } else {
                                assert(sv[idx as int].0 == cmd);
                            }
                        }
                    }
                },
                None => {
                    proof {
                        assert(!cmd_present(prefix, ev.cmd)) by {
                            if cmd_present(prefix, ev.cmd) {
                                let k = choose|k: int|
                                    0 <= k < stats_views(out@).len() && (#[trigger] stats_views(
                                        out@,
                                    )[k]).0 == ev.cmd;
                                assert(false);
                            }
                        }
                        lemma_group_absent(prefix, ev.cmd);
                    }
                    let st = HistoryStats {
                        first_used: entry.when,
                        last_used: entry.when,
                        total_count: 1,
                    };
                    let ghost old_sv = stats_views(out@);
                    out.push((entry.cmd.clone(), st));
                    proof {
                        let sv = stats_views(out@);
                        assert(sv =~= old_sv.push((out@.last().0@, out@.last().1)));
                        assert forall|cmd: Seq<char>|
                            #[trigger] cmd_present(rv.subrange(0, i + 1), cmd) implies exists|
                            k: int,
                        |
                            0 <= k < sv.len() && (#[trigger] sv[k]).0 == cmd by {
                            if cmd_present(prefix, cmd) {
                                let k = choose|k: int|
                                    0 <= k < old_sv.len() && (#[trigger] old_sv[k]).0 == cmd;
                                assert(sv[k].0 == cmd);
                            } else {
                                assert(sv[sv.len() - 1].0 == cmd);
                            }
                        }
                    }
                },
            }
            i = i + 1;
        }
        proof {
            assert(rv.subrange(0, i as int) =~= rv);
        }
        out
    }
}

} // verus!
