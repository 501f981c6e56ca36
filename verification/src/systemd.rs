//! Unit metadata parsed from the line-oriented `KEY=VALUE` output of
//! an external unit-management "show" command. Running the command is
//! the caller's business; everything computed from its output text is
//! specified here.

use vstd::prelude::*;

use crate::strutil::{
    find_ch, lemma_find_ch, spec_fields, spec_lines, spec_parse_u64_dec, split_fields,
    split_lines, split_once_char, str_eq, parse_u64_dec, views_of,
};

verus! {

/// Metadata of one managed unit.
#[derive(Debug)]
pub struct SystemdMetadata {
    pub unit_name: String,
    pub description: Option<String>,
    /// Whether the unit file is loaded, masked, or missing.
    pub load_state: String,
    /// Whether the unit is active, inactive, or failed.
    pub active_state: String,
    /// The fine-grained state: running, dead, exited.
    pub sub_state: String,
    pub main_pid: Option<u32>,
    pub exec_start: Option<String>,
    pub restart_policy: Option<String>,
    /// Units that want this one, whitespace-separated in the source.
    pub wanted_by: Vec<String>,
}

/// Mathematical image of `SystemdMetadata`.
pub struct SystemdMetadataView {
    pub unit_name: Seq<char>,
    pub description: Option<Seq<char>>,
    pub load_state: Seq<char>,
    pub active_state: Seq<char>,
    pub sub_state: Seq<char>,
    pub main_pid: Option<u32>,
    pub exec_start: Option<Seq<char>>,
    pub restart_policy: Option<Seq<char>>,
    pub wanted_by: Seq<Seq<char>>,
}

impl View for SystemdMetadata {
    type V = SystemdMetadataView;

    open spec fn view(&self) -> SystemdMetadataView {
        SystemdMetadataView {
            unit_name: self.unit_name@,
            description: match self.description {
                Some(ref s) => Some(s@),
                None => None,
            },
            load_state: self.load_state@,
            active_state: self.active_state@,
            sub_state: self.sub_state@,
            main_pid: self.main_pid,
            exec_start: match self.exec_start {
                Some(ref s) => Some(s@),
                None => None,
            },
            restart_policy: match self.restart_policy {
                Some(ref s) => Some(s@),
                None => None,
            },
            wanted_by: self.wanted_by.deep_view(),
        }
    }
}

/// The views of a vector of key-value pairs.
pub open spec fn pair_views(v: Seq<(String, String)>) -> Seq<(Seq<char>, Seq<char>)> {
    v.map_values(|p: (String, String)| (p.0@, p.1@))
}

/// The key-value pairs of a sequence of lines: each line holding an
/// `'='` contributes what stands before its first `'='` and what
/// stands after; other lines contribute nothing.
pub open spec fn spec_kv_lines(lines: Seq<Seq<char>>) -> Seq<(Seq<char>, Seq<char>)>
    decreases lines.len(),
{
    if lines.len() == 0 {
        Seq::empty()
    } else {
        let l = lines[0];
        let rest = spec_kv_lines(lines.subrange(1, lines.len() as int));
        if find_ch(l, '=', 0) < l.len() {
            seq![
                (l.subrange(0, find_ch(l, '=', 0)), l.subrange(find_ch(l, '=', 0) + 1, l.len() as int)),
            ] + rest
        } else {
            rest
        }
    }
}

/// The properties in a whole `KEY=VALUE` text.
pub open spec fn spec_kv_text(s: Seq<char>) -> Seq<(Seq<char>, Seq<char>)> {
    spec_kv_lines(spec_lines(s))
}

/// Parses line-oriented `KEY=VALUE` text into its property pairs, in
/// input order; lines without an `'='` are skipped.
pub fn parse_systemctl_output(output: &str) -> (r: Vec<(String, String)>)
    ensures
        pair_views(r@) == spec_kv_text(output@),
{
    let lines = split_lines(output);
    let ghost ls = spec_lines(output@);
    let mut out: Vec<(String, String)> = Vec::new();
    let mut i: usize = 0;
    proof {
        assert(ls.subrange(0, ls.len() as int) =~= ls);
        assert(pair_views(out@) + spec_kv_lines(ls) =~= spec_kv_lines(ls));
    }
    while i < lines.len()
        invariant
            0 <= i <= lines@.len(),
            ls == spec_lines(output@),
            views_of(lines@) == ls,
            lines@.len() == ls.len(),
            spec_kv_lines(ls) == pair_views(out@) + spec_kv_lines(
                ls.subrange(i as int, ls.len() as int),
            ),
        decreases lines.len() - i,
    {
        let ghost suffix = ls.subrange(i as int, ls.len() as int);
        proof {
            assert(suffix[0] == ls[i as int]);
            assert(lines@[i as int]@ == ls[i as int]);
            assert(suffix.subrange(1, suffix.len() as int) =~= ls.subrange(
                i + 1,
                ls.len() as int,
            ));
        }
        match split_once_char(lines[i].as_str(), '=') {
            Some(pair) => {
                let ghost old_out = out@;
                out.push(pair);
                proof {
                    assert(pair_views(out@) =~= pair_views(old_out).push(
                        (out@.last().0@, out@.last().1@),
                    ));
                    assert(spec_kv_lines(suffix) =~= seq![(out@.last().0@, out@.last().1@)]
                        + spec_kv_lines(ls.subrange(i + 1, ls.len() as int)));
                }
            },
            None => {
                proof {
                    assert(spec_kv_lines(suffix) =~= spec_kv_lines(
                        ls.subrange(i + 1, ls.len() as int),
                    ));
                }
            },
        }
        i = i + 1;
    }
    proof {
        assert(ls.subrange(i as int, ls.len() as int).len() == 0);
        assert(spec_kv_lines(ls) =~= pair_views(out@));
    }
    out
}

/// The value recorded for `key`: the last matching pair wins, as a
/// later line overwrites an earlier one.
pub open spec fn spec_prop(props: Seq<(Seq<char>, Seq<char>)>, key: Seq<char>) -> Option<
    Seq<char>,
>
    decreases props.len(),
{
    if props.len() == 0 {
        None
    } else if props.last().0 == key {
        Some(props.last().1)
    } else {
        spec_prop(props.drop_last(), key)
    }
}

/// Looks up a property by key.
pub fn lookup_prop(props: &Vec<(String, String)>, key: &str) -> (r: Option<String>)
    ensures
        match r {
            Some(v) => spec_prop(pair_views(props@), key@) == Some(v@),
            None => spec_prop(pair_views(props@), key@) is None,
        },
{
    let ghost pv = pair_views(props@);
    let mut i: usize = props.len();
    proof {
        assert(pv.subrange(0, pv.len() as int) =~= pv);
    }
    while i > 0
        invariant
            0 <= i <= props@.len(),
            pv == pair_views(props@),
            pv.len() == props@.len(),
            spec_prop(pv, key@) == spec_prop(pv.subrange(0, i as int), key@),
        decreases i,
    {
        i = i - 1;
        proof {
            let pre = pv.subrange(0, i + 1);
            assert(pre.last() == pv[i as int]);
            assert(pv[i as int] == (props@[i as int].0@, props@[i as int].1@));
            assert(pre.drop_last() =~= pv.subrange(0, i as int));
        }
        if str_eq(props[i].0.as_str(), key) {
            return Some(props[i].1.clone());
        }
    }
    proof {
        assert(pv.subrange(0, 0).len() == 0);
    }
    None
}

/// The main-pid property read as a number, absent when the property is
/// missing or unparseable.
pub open spec fn spec_main_pid(props: Seq<(Seq<char>, Seq<char>)>) -> Option<u32> {
    match spec_prop(props, "MainPID"@) {
        Some(v) => {
            if spec_parse_u64_dec(v) is Some && spec_parse_u64_dec(v)->Some_0 <= u32::MAX {
                Some(spec_parse_u64_dec(v)->Some_0 as u32)
            } else {
                None
            }
        },
        None => None,
    }
}

/// A state property, with `unknown` standing in for a missing one.
pub open spec fn spec_state_prop(props: Seq<(Seq<char>, Seq<char>)>, key: Seq<char>) -> Seq<
    char,
> {
    match spec_prop(props, key) {
        Some(v) => v,
        None => "unknown"@,
    }
}

/// Assembles unit metadata from the parsed property pairs of one
/// "show" invocation: the description and execution fields are kept
/// optional, the three state fields default to `unknown`, and the
/// wanted-by list splits on whitespace.
pub fn build_systemd_metadata(unit_name: &str, props: &Vec<(String, String)>) -> (r:
    SystemdMetadata)
    ensures
        r@.unit_name == unit_name@,
        r@.description == spec_prop(pair_views(props@), "Description"@),
        r@.load_state == spec_state_prop(pair_views(props@), "LoadState"@),
        r@.active_state == spec_state_prop(pair_views(props@), "ActiveState"@),
        r@.sub_state == spec_state_prop(pair_views(props@), "SubState"@),
        r@.main_pid == spec_main_pid(pair_views(props@)),
        r@.exec_start == spec_prop(pair_views(props@), "ExecStart"@),
        r@.restart_policy == spec_prop(pair_views(props@), "Restart"@),
        r@.wanted_by == match spec_prop(pair_views(props@), "WantedBy"@) {
            Some(v) => spec_fields(v),
            None => Seq::<Seq<char>>::empty(),
        },
{
    let description = lookup_prop(props, "Description");
    let load_state = match lookup_prop(props, "LoadState") {
        Some(v) => v,
        None => "unknown".to_owned(),
    };
    let active_state = match lookup_prop(props, "ActiveState") {
        Some(v) => v,
        None => "unknown".to_owned(),
    };
    let sub_state = match lookup_prop(props, "SubState") {
        Some(v) => v,
        None => "unknown".to_owned(),
    };
    let main_pid = match lookup_prop(props, "MainPID") {
        Some(v) => {
            match parse_u64_dec(v.as_str()) {
                Some(n) => {
                    if n <= 0xFFFF_FFFF {
                        Some(n as u32)
                    } else {
                        None
                    }
                },
                None => None,
            }
        },
        None => None,
    };
    let exec_start = lookup_prop(props, "ExecStart");
    let restart_policy = lookup_prop(props, "Restart");
    let wanted_by = match lookup_prop(props, "WantedBy") {
        Some(v) => split_fields(v.as_str()),
        None => Vec::new(),
    };
    let r = SystemdMetadata {
        unit_name: unit_name.to_owned(),
        description,
        load_state,
        active_state,
        sub_state,
        main_pid,
        exec_start,
        restart_policy,
        wanted_by,
    };
    proof {
        assert(r.wanted_by.deep_view() =~~= match spec_prop(pair_views(props@), "WantedBy"@) {
            Some(v) => spec_fields(v),
            None => Seq::<Seq<char>>::empty(),
        });
    }
    r
}

} // verus!
