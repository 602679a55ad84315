//! The line-oriented record parser.
//!
//! One log file is a stream of `Key: value` lines; blank lines separate
//! records. The parser is a small state machine folded over the line
//! sequence: the very first blank line is a leading separator and completes
//! nothing; every later blank line finalizes the record in progress and
//! starts a new one; at end of stream a record with a non-empty command
//! line is still finalized, an empty one is discarded. Identifiers are
//! assigned sequentially from a caller-supplied start.

use vstd::prelude::*;

use crate::dates::log_timestamp;
use crate::dates::parse_log_timestamp;
use crate::entry::Action;
use crate::entry::ChangeV;
use crate::entry::EntryV;
use crate::entry::HistoryEntry;
use crate::entry::PackageChange;
use crate::entry::add_change;
use crate::entry::changes_distinct;
use crate::entry::changes_view;
use crate::entry::entries_view;
use crate::entry::entry_wf;
use crate::entry::insert_change;
use crate::entry::lemma_insert_change_distinct;
use crate::errors::HistoryError;
use crate::pkg::TokV;
use crate::pkg::parse_action_tokens;
use crate::pkg::spec_scan_tokens;
use crate::pkg::toks_view;
use crate::strutil::chars_of;
use crate::strutil::chars_to_string;
use crate::strutil::range_eq_str;
use crate::strutil::subvec;

verus! {

/// A record still being accumulated: the fields seen so far.
pub struct RecBuild {
    pub command_line: String,
    pub start_date: i64,
    pub end_date: i64,
    pub affected: Vec<PackageChange>,
}

/// Mathematical value of a `RecBuild`.
pub ghost struct RecV {
    pub command_line: Seq<char>,
    pub start_date: int,
    pub end_date: int,
    pub affected: Seq<ChangeV>,
}

impl View for RecBuild {
    type V = RecV;

    open spec fn view(&self) -> RecV {
        RecV {
            command_line: self.command_line@,
            start_date: self.start_date as int,
            end_date: self.end_date as int,
            affected: changes_view(self.affected@),
        }
    }
}

impl RecBuild {
    /// A fresh record: empty command line, epoch dates, nothing affected.
    pub fn new() -> (r: RecBuild)
        ensures
            r@ == spec_rec_init(),
    {
        let r = RecBuild {
            command_line: String::new(),
            start_date: 0,
            end_date: 0,
            affected: Vec::new(),
        };
        proof {
            assert(changes_view(r.affected@) =~= Seq::<ChangeV>::empty());
        }
        r
    }
}

pub open spec fn spec_rec_init() -> RecV {
    RecV {
        command_line: Seq::empty(),
        start_date: 0,
        end_date: 0,
        affected: Seq::empty(),
    }
}

/// The whole parser state between two lines.
pub ghost struct StateV {
    pub seen_blank: bool,
    pub cur: RecV,
    pub out: Seq<EntryV>,
    pub next_id: int,
}

pub open spec fn spec_state_init(start_id: int) -> StateV {
    StateV { seen_blank: false, cur: spec_rec_init(), out: Seq::empty(), next_id: start_id }
}

/// The first position at or after `i` where `": "` starts, if any.
pub open spec fn spec_find_sep(line: Seq<char>, i: int) -> Option<int>
    decreases line.len() - i,
{
    if i < 0 || i + 1 >= line.len() {
        None
    } else if line[i] == ':' && line[i + 1] == ' ' {
        Some(i)
    } else {
        spec_find_sep(line, i + 1)
    }
}

/// The action kind a field key names, if any.
pub open spec fn spec_action_of_key(key: Seq<char>) -> Option<Action> {
    if key == "Install"@ {
        Some(Action::Install)
    } else if key == "Purge"@ {
        Some(Action::Purge)
    } else if key == "Reinstall"@ {
        Some(Action::Reinstall)
    } else if key == "Remove"@ {
        Some(Action::Remove)
    } else if key == "Upgrade"@ {
        Some(Action::Upgrade)
    } else {
        None
    }
}

/// A command line over 100 characters is cut to 94 and marked with the
/// ellipsis, so the result never exceeds 100 characters.
pub open spec fn spec_truncate_cmd(s: Seq<char>) -> Seq<char> {
    if s.len() > 100 {
        s.subrange(0, 94) + " <...>"@
    } else {
        s
    }
}

/// A literal invoking-program prefix is stripped when present.
pub open spec fn spec_strip_prefix(s: Seq<char>) -> Seq<char> {
    if s.len() >= 4 && s.subrange(0, 4) == "apt "@ {
        s.subrange(4, s.len() as int)
    } else {
        s
    }
}

/// The command line as a finalized record displays it: truncated first,
/// then prefix-stripped.
pub open spec fn spec_display_cmd(s: Seq<char>) -> Seq<char> {
    spec_strip_prefix(spec_truncate_cmd(s))
}

/// Finalizing a record assigns its identifier, shapes the command line for
/// display and counts the distinct affected triples.
pub open spec fn spec_finalize(r: RecV, id: int) -> EntryV {
    EntryV {
        id: id,
        command_line: spec_display_cmd(r.command_line),
        start_date: r.start_date,
        end_date: r.end_date,
        affected: r.affected,
        altered: r.affected.len() as int,
    }
}

/// Set-inserts every parsed token, from index `k` on, under one action.
pub open spec fn spec_insert_tokens(aff: Seq<ChangeV>, a: Action, toks: Seq<TokV>, k: int) -> Seq<
    ChangeV,
>
    decreases toks.len() - k,
{
    if k < 0 || k >= toks.len() {
        aff
    } else {
        spec_insert_tokens(
            insert_change(aff, ChangeV { action: a, arch: toks[k].arch, name: toks[k].name }),
            a,
            toks,
            k + 1,
        )
    }
}

/// One recognized field applied to the record in progress.
pub open spec fn spec_apply_field(st: StateV, key: Seq<char>, value: Seq<char>) -> Result<
    StateV,
    HistoryError,
> {
    if key == "Commandline"@ {
        Ok(
            StateV {
                cur: RecV {
                    command_line: value,
                    start_date: st.cur.start_date,
                    end_date: st.cur.end_date,
                    affected: st.cur.affected,
                },
                ..st
            },
        )
    } else if key == "Start-Date"@ {
        match log_timestamp(value) {
            Some(t) => Ok(
                StateV {
                    cur: RecV {
                        command_line: st.cur.command_line,
                        start_date: t as int,
                        end_date: st.cur.end_date,
                        affected: st.cur.affected,
                    },
                    ..st
                },
            ),
            None => Err(HistoryError::MalformedLog),
        }
    } else if key == "End-Date"@ {
        match log_timestamp(value) {
            Some(t) => Ok(
                StateV {
                    cur: RecV {
                        command_line: st.cur.command_line,
                        start_date: st.cur.start_date,
                        end_date: t as int,
                        affected: st.cur.affected,
                    },
                    ..st
                },
            ),
            None => Err(HistoryError::MalformedLog),
        }
    } else {
        match spec_action_of_key(key) {
            Some(a) => match spec_scan_tokens(value) {
                Some(toks) => Ok(
                    StateV {
                        cur: RecV {
                            command_line: st.cur.command_line,
                            start_date: st.cur.start_date,
                            end_date: st.cur.end_date,
                            affected: spec_insert_tokens(st.cur.affected, a, toks, 0),
                        },
                        ..st
                    },
                ),
                None => Err(HistoryError::MalformedPackage),
            },
            None => {
                if key == "Error"@ || key == "Requested-By"@ {
                    Ok(st)
                } else {
                    Err(HistoryError::MalformedLog)
                }
            },
        }
    }
}

/// One line applied to the parser state.
pub open spec fn spec_step(st: StateV, line: Seq<char>) -> Result<StateV, HistoryError> {
    if line.len() == 0 {
        if !st.seen_blank {
            Ok(StateV { seen_blank: true, ..st })
        } else {
            Ok(
                StateV {
                    seen_blank: true,
                    cur: spec_rec_init(),
                    out: st.out.push(spec_finalize(st.cur, st.next_id)),
                    next_id: st.next_id + 1,
                },
            )
        }
    } else {
        match spec_find_sep(line, 0) {
            None => Err(HistoryError::MalformedLog),
            Some(p) => spec_apply_field(
                st,
                line.subrange(0, p),
                line.subrange(p + 2, line.len() as int),
            ),
        }
    }
}

/// The state machine folded over the lines from index `i` on.
pub open spec fn spec_run_from(lines: Seq<Seq<char>>, i: int, st: StateV) -> Result<
    StateV,
    HistoryError,
>
    decreases lines.len() - i,
{
    if i < 0 || i >= lines.len() {
        Ok(st)
    } else {
        match spec_step(st, lines[i]) {
            Ok(st2) => spec_run_from(lines, i + 1, st2),
            Err(e) => Err(e),
        }
    }
}

/// At end of stream a record with a non-empty command line is finalized;
/// one without content is discarded.
pub open spec fn spec_finish(st: StateV) -> Seq<EntryV> {
    if st.cur.command_line.len() > 0 {
        st.out.push(spec_finalize(st.cur, st.next_id))
    } else {
        st.out
    }
}

pub open spec fn lines_view(s: Seq<String>) -> Seq<Seq<char>> {
    s.map_values(|l: String| l@)
}

/// What one file's lines parse to, with identifiers from `start_id` on.
pub open spec fn spec_parse_lines(lines: Seq<Seq<char>>, start_id: int) -> Result<
    Seq<EntryV>,
    HistoryError,
> {
    match spec_run_from(lines, 0, spec_state_init(start_id)) {
        Ok(st) => Ok(spec_finish(st)),
        Err(e) => Err(e),
    }
}

pub open spec fn logs_view(logs: Seq<Vec<String>>) -> Seq<Seq<Seq<char>>> {
    logs.map_values(|l: Vec<String>| lines_view(l@))
}

/// The line count of all files together, one separator-slot per file; it
/// bounds how many identifiers a run can consume.
pub open spec fn spec_total_lines(logs: Seq<Seq<Seq<char>>>) -> int
    decreases logs.len(),
{
    if logs.len() == 0 {
        0
    } else {
        spec_total_lines(logs.drop_last()) + logs.last().len() + 1
    }
}

/// The store built from the files in chronological order, from file `k`
/// on: each file's records are appended and the next identifier advances
/// by however many records the file yielded. A file with no completed
/// records leaves both untouched.
pub open spec fn spec_history_from(
    logs: Seq<Seq<Seq<char>>>,
    k: int,
    id: int,
    acc: Seq<EntryV>,
) -> Result<Seq<EntryV>, HistoryError>
    decreases logs.len() - k,
{
    if k < 0 || k >= logs.len() {
        Ok(acc)
    } else {
        match spec_parse_lines(logs[k], id) {
            Ok(es) => spec_history_from(logs, k + 1, id + es.len(), acc + es),
            Err(e) => Err(e),
        }
    }
}

/// The whole transaction store: all files' records, identifiers dense
/// from 1.
pub open spec fn spec_history(logs: Seq<Seq<Seq<char>>>) -> Result<Seq<EntryV>, HistoryError> {
    spec_history_from(logs, 0, 1, Seq::empty())
}

proof fn lemma_total_lines_prefix(logs: Seq<Seq<Seq<char>>>, k: int)
    requires
        0 <= k <= logs.len(),
    ensures
        spec_total_lines(logs.subrange(0, k)) <= spec_total_lines(logs),
    decreases logs.len() - k,
{
    if k == logs.len() {
        assert(logs.subrange(0, k) =~= logs);
    } else {
        lemma_total_lines_prefix(logs, k + 1);
        assert(logs.subrange(0, k + 1).drop_last() =~= logs.subrange(0, k));
        assert(logs.subrange(0, k + 1).last() == logs[k]);
    }
}

/// The store fold only reads the files at and after its index: two file
/// sequences with equal suffixes fold alike.
proof fn lemma_history_from_suffix(
    logs1: Seq<Seq<Seq<char>>>,
    k1: int,
    logs2: Seq<Seq<Seq<char>>>,
    k2: int,
    id: int,
    acc: Seq<EntryV>,
)
    requires
        0 <= k1 <= logs1.len(),
        0 <= k2 <= logs2.len(),
        logs1.len() - k1 == logs2.len() - k2,
        forall|d: int| 0 <= d < logs1.len() - k1 ==> #[trigger] logs1[k1 + d] == logs2[k2 + d],
    ensures
        spec_history_from(logs1, k1, id, acc) == spec_history_from(logs2, k2, id, acc),
    decreases logs1.len() - k1,
{
    if k1 < logs1.len() {
        assert(logs1[k1] == logs2[k2]) by {
            assert(logs1[k1 + 0] == logs2[k2 + 0]);
        }
        match spec_parse_lines(logs1[k1], id) {
            Ok(es) => {
                assert(forall|d: int|
                    0 <= d < logs1.len() - (k1 + 1) ==> #[trigger] logs1[k1 + 1 + d] == logs2[k2
                        + 1 + d]) by {
                    assert(forall|d: int|
                        0 <= d < logs1.len() - (k1 + 1) ==> #[trigger] logs1[k1 + 1 + d] == logs1[
                            k1 + (d + 1)
                        ] && logs1[k1 + (d + 1)] == logs2[k2 + (d + 1)] && logs2[k2 + (d + 1)]
                            == logs2[k2 + 1 + d]);
                }
                lemma_history_from_suffix(logs1, k1 + 1, logs2, k2 + 1, id + es.len(), acc + es);
            },
            Err(_) => {},
        }
    }
}

proof fn lemma_history_from_remove(logs: Seq<Seq<Seq<char>>>, p: int, k: int, id: int, acc: Seq<
    EntryV,
>)
    requires
        0 <= k <= p < logs.len(),
        forall|i: int|
            spec_parse_lines(logs[p], i) == Ok::<_, HistoryError>(Seq::<EntryV>::empty()),
    ensures
        spec_history_from(logs, k, id, acc) == spec_history_from(logs.remove(p), k, id, acc),
    decreases p - k,
{
    let removed = logs.remove(p);
    if k == p {
        assert(spec_parse_lines(logs[p], id) == Ok::<_, HistoryError>(Seq::<EntryV>::empty()));
        assert(acc + Seq::<EntryV>::empty() =~= acc);
        assert(spec_history_from(logs, p, id, acc) == spec_history_from(logs, p + 1, id, acc));
        assert(forall|d: int| 0 <= d < logs.len() - (p + 1) ==> #[trigger] logs[p + 1 + d] == removed[p + d]);
        lemma_history_from_suffix(logs, p + 1, removed, p, id, acc);
    } else {
        assert(removed[k] == logs[k]);
        match spec_parse_lines(logs[k], id) {
            Ok(es) => {
                lemma_history_from_remove(logs, p, k + 1, id + es.len(), acc + es);
            },
            Err(_) => {},
        }
    }
}

/// A log file that yields no completed records — for any starting
/// identifier — contributes no transactions and no identifiers: removing
/// it from the chronological file sequence leaves the reconstructed store
/// unchanged.
pub proof fn lemma_empty_log_skippable(logs: Seq<Seq<Seq<char>>>, p: int)
    requires
        0 <= p < logs.len(),
        forall|i: int|
            spec_parse_lines(logs[p], i) == Ok::<_, HistoryError>(Seq::<EntryV>::empty()),
    ensures
        spec_history(logs) == spec_history(logs.remove(p)),
{
    lemma_history_from_remove(logs, p, 0, 1, Seq::empty());
}

/// The parser-state well-formedness carried across lines: identifiers in
/// `out` are dense from `start_id`, every finished entry is well formed,
/// and the record in progress holds a set of triples.
pub open spec fn state_wf(st: StateV, start_id: int) -> bool {
    &&& st.next_id == start_id + st.out.len()
    &&& changes_distinct(st.cur.affected)
    &&& forall|k: int|
        0 <= k < st.out.len() ==> entry_wf(#[trigger] st.out[k]) && st.out[k].id == start_id + k
}

/// The first `": "` separator of a field line, by linear scan.
fn find_sep(line: &Vec<char>) -> (r: Option<usize>)
    ensures
        match r {
            Some(p) => p + 2 <= line@.len() && spec_find_sep(line@, 0) == Some(p as int),
            None => spec_find_sep(line@, 0) is None,
        },
{
    let n = line.len();
    if n == 0 {
        return None;
    }
    let mut i: usize = 0;
    while i < n - 1
        invariant
            n == line@.len(),
            n >= 1,
            i <= n,
            spec_find_sep(line@, 0) == spec_find_sep(line@, i as int),
        decreases n - i,
    {
        if line[i] == ':' && line[i + 1] == ' ' {
            return Some(i);
        }
        i += 1;
    }
    None
}

/// The action kind named by `line[0..p]`, if any.
fn action_of_key(line: &Vec<char>, p: usize) -> (r: Option<Action>)
    requires
        p <= line@.len(),
    ensures
        r == spec_action_of_key(line@.subrange(0, p as int)),
{
    if range_eq_str(line, 0, p, "Install") {
        Some(Action::Install)
    } else if range_eq_str(line, 0, p, "Purge") {
        Some(Action::Purge)
    } else if range_eq_str(line, 0, p, "Reinstall") {
        Some(Action::Reinstall)
    } else if range_eq_str(line, 0, p, "Remove") {
        Some(Action::Remove)
    } else if range_eq_str(line, 0, p, "Upgrade") {
        Some(Action::Upgrade)
    } else {
        None
    }
}

/// The command line as the finalized record will display it: truncated to
/// at most 100 characters (with the ellipsis marker) and stripped of a
/// literal `"apt "` prefix.
pub fn display_command_line(s: &String) -> (r: String)
    ensures
        r@ == spec_display_cmd(s@),
        r@.len() <= 100,
{
    proof {
        reveal_strlit(" <...>");
        reveal_strlit("apt ");
    }
    let n = s.as_str().unicode_len();
    let t: String = if n > 100 {
        let mut h = s.as_str().substring_char(0, 94).to_owned();
        h.append(" <...>");
        h
    } else {
        s.clone()
    };
    assert(t@ == spec_truncate_cmd(s@));
    assert(t@.len() <= 100);
    let tn = t.as_str().unicode_len();
    if tn >= 4 && t.as_str().get_char(0) == 'a' && t.as_str().get_char(1) == 'p'
        && t.as_str().get_char(2) == 't' && t.as_str().get_char(3) == ' ' {
        assert(t@.subrange(0, 4) =~= "apt "@);
        let r = t.as_str().substring_char(4, tn).to_owned();
        r
    } else {
        assert(t@.len() >= 4 ==> t@.subrange(0, 4) != "apt "@) by {
            if t@.len() >= 4 && t@.subrange(0, 4) == "apt "@ {
                assert(t@[0] == "apt "@[0]);
                assert(t@[1] == "apt "@[1]);
                assert(t@[2] == "apt "@[2]);
                assert(t@[3] == "apt "@[3]);
            }
        }
        t
    }
}

/// Finalizes the record in progress into a transaction entry.
fn finalize_rec(r: RecBuild, id: u32) -> (e: HistoryEntry)
    ensures
        e@ == spec_finalize(r@, id as int),
        entry_wf(e@) == changes_distinct(r@.affected),
{
    let command_line = display_command_line(&r.command_line);
    let altered = r.affected.len();
    HistoryEntry {
        id,
        command_line,
        start_date: r.start_date,
        end_date: r.end_date,
        affected: r.affected,
        altered,
    }
}

/// Parses one file's lines into its transactions, assigning identifiers
/// sequentially from `index_start`. Returns the reconstructed entries, or
/// the error the first malformed line produces; the identifiers of the
/// result are dense: entry `k` carries `index_start + k`.
pub fn entries_from_lines(lines: &Vec<String>, index_start: u32) -> (r: Result<
    Vec<HistoryEntry>,
    HistoryError,
>)
    requires
        index_start + lines@.len() + 1 <= u32::MAX,
    ensures
        match r {
            Ok(es) => {
                &&& spec_parse_lines(lines_view(lines@), index_start as int) == Ok::<
                    _,
                    HistoryError,
                >(entries_view(es@))
                &&& es@.len() <= lines@.len() + 1
                &&& forall|k: int|
                    0 <= k < es@.len() ==> entry_wf(#[trigger] entries_view(es@)[k])
                        && entries_view(es@)[k].id == index_start + k
            },
            Err(e) => spec_parse_lines(lines_view(lines@), index_start as int) == Err::<
                Seq<EntryV>,
                _,
            >(e),
        },
{
    let ghost lv = lines_view(lines@);
    let ghost init = spec_state_init(index_start as int);
    let mut seen_blank = false;
    let mut cur = RecBuild::new();
    let mut out: Vec<HistoryEntry> = Vec::new();
    let mut next_id: u32 = index_start;
    let mut i: usize = 0;
    proof {
        assert(entries_view(out@) =~= Seq::<EntryV>::empty());
    }
    while i < lines.len()
        invariant
            i <= lines@.len(),
            lv == lines_view(lines@),
            init == spec_state_init(index_start as int),
            index_start + lines@.len() + 1 <= u32::MAX,
            out@.len() <= i,
            spec_run_from(lv, 0, init) == spec_run_from(
                lv,
                i as int,
                StateV {
                    seen_blank,
                    cur: cur@,
                    out: entries_view(out@),
                    next_id: next_id as int,
                },
            ),
            state_wf(
                StateV {
                    seen_blank,
                    cur: cur@,
                    out: entries_view(out@),
                    next_id: next_id as int,
                },
                index_start as int,
            ),
        decreases lines@.len() - i,
    {
        let ghost st = StateV {
            seen_blank,
            cur: cur@,
            out: entries_view(out@),
            next_id: next_id as int,
        };
        proof {
            assert(lv[i as int] == lines@[i as int]@);
        }
        let line = &lines[i];
        if line.as_str().is_empty() {
            if !seen_blank {
                seen_blank = true;
                proof {
                    let st2 = StateV {
                        seen_blank,
                        cur: cur@,
                        out: entries_view(out@),
                        next_id: next_id as int,
                    };
                    assert(spec_step(st, lv[i as int]) == Ok::<_, HistoryError>(st2));
                }
            } else {
                let done = cur;
                cur = RecBuild::new();
                let ghost pre_out = entries_view(out@);
                let e = finalize_rec(done, next_id);
                out.push(e);
                next_id += 1;
                proof {
                    assert(entries_view(out@) =~= pre_out.push(e@));
                    let st2 = StateV {
                        seen_blank,
                        cur: cur@,
                        out: entries_view(out@),
                        next_id: next_id as int,
                    };
                    assert(spec_step(st, lv[i as int]) == Ok::<_, HistoryError>(st2));
                }
            }
        } else {
            let chars = chars_of(line.as_str());
            let n = chars.len();
            match find_sep(&chars) {
                None => {
                    proof {
                        assert(spec_step(st, lv[i as int]) == Err::<StateV, _>(
                            HistoryError::MalformedLog,
                        ));
                    }
                    return Err(HistoryError::MalformedLog);
                },
                Some(p) => {
                    let ghost key = chars@.subrange(0, p as int);
                    let ghost value = chars@.subrange(p + 2, n as int);
                    if range_eq_str(&chars, 0, p, "Commandline") {
                        cur.command_line = chars_to_string(&chars, p + 2, n);
                    } else if range_eq_str(&chars, 0, p, "Start-Date") {
                        let v = chars_to_string(&chars, p + 2, n);
                        match parse_log_timestamp(v.as_str()) {
                            Some(t) => {
                                cur.start_date = t;
                            },
                            None => {
                                return Err(HistoryError::MalformedLog);
                            },
                        }
                    } else if range_eq_str(&chars, 0, p, "End-Date") {
                        let v = chars_to_string(&chars, p + 2, n);
                        match parse_log_timestamp(v.as_str()) {
                            Some(t) => {
                                cur.end_date = t;
                            },
                            None => {
                                return Err(HistoryError::MalformedLog);
                            },
                        }
                    } else {
                        match action_of_key(&chars, p) {
                            Some(a) => {
                                let vchars = subvec(&chars, p + 2, n);
                                match parse_action_tokens(&vchars) {
                                    None => {
                                        return Err(HistoryError::MalformedPackage);
                                    },
                                    Some(toks) => {
                                        let ghost toksv = toks_view(toks@);
                                        let ghost aff0 = changes_view(cur.affected@);
                                        let mut kk: usize = 0;
                                        while kk < toks.len()
                                            invariant
                                                kk <= toks@.len(),
                                                toksv == toks_view(toks@),
                                                cur@.command_line == st.cur.command_line,
                                                cur@.start_date == st.cur.start_date,
                                                cur@.end_date == st.cur.end_date,
                                                changes_distinct(changes_view(cur.affected@)),
                                                spec_insert_tokens(aff0, a, toksv, 0)
                                                    == spec_insert_tokens(
                                                    changes_view(cur.affected@),
                                                    a,
                                                    toksv,
                                                    kk as int,
                                                ),
                                            decreases toks@.len() - kk,
                                        {
                                            let nm = toks[kk].name.clone();
                                            let ar = toks[kk].arch.clone();
                                            proof {
                                                lemma_insert_change_distinct(
                                                    changes_view(cur.affected@),
                                                    ChangeV { action: a, arch: ar@, name: nm@ },
                                                );
                                            }
                                            add_change(&mut cur.affected, a, nm, ar);
                                            kk += 1;
                                        }
                                        proof {
                                            assert(spec_scan_tokens(value) == Some(toksv));
                                            assert(changes_view(cur.affected@)
                                                == spec_insert_tokens(aff0, a, toksv, 0));
                                            assert(spec_apply_field(st, key, value) == Ok::<
                                                _,
                                                HistoryError,
                                            >(
                                                StateV {
                                                    seen_blank,
                                                    cur: cur@,
                                                    out: entries_view(out@),
                                                    next_id: next_id as int,
                                                },
                                            ));
                                        }
                                    },
                                }
                            },
                            None => {
                                if range_eq_str(&chars, 0, p, "Error") || range_eq_str(
                                    &chars,
                                    0,
                                    p,
                                    "Requested-By",
                                ) {
                                } else {
                                    return Err(HistoryError::MalformedLog);
                                }
                            },
                        }
                    }
                    proof {
                        let st2 = StateV {
                            seen_blank,
                            cur: cur@,
                            out: entries_view(out@),
                            next_id: next_id as int,
                        };
                        assert(spec_step(st, lv[i as int]) == Ok::<_, HistoryError>(st2));
                    }
                },
            }
        }
        i += 1;
    }
    let ghost st = StateV {
        seen_blank,
        cur: cur@,
        out: entries_view(out@),
        next_id: next_id as int,
    };
    proof {
        assert(spec_run_from(lv, 0, init) == Ok::<_, HistoryError>(st));
    }
    if !cur.command_line.as_str().is_empty() {
        let ghost pre_out = entries_view(out@);
        let e = finalize_rec(cur, next_id);
        out.push(e);
        proof {
            assert(entries_view(out@) =~= pre_out.push(e@));
            assert(entries_view(out@) == spec_finish(st));
        }
    } else {
        proof {
            assert(entries_view(out@) == spec_finish(st));
        }
    }
    Ok(out)
}

/// Parses every file's lines, in the chronological order the caller
/// established, into the combined transaction store. Identifiers are dense
/// across files: entry `k` of the store carries `1 + k`, whether or not
/// some file contributed no records.
pub fn history_entries(logs: &Vec<Vec<String>>) -> (r: Result<Vec<HistoryEntry>, HistoryError>)
    requires
        2 + spec_total_lines(logs_view(logs@)) <= u32::MAX,
    ensures
        match r {
            Ok(es) => {
                &&& spec_history(logs_view(logs@)) == Ok::<_, HistoryError>(entries_view(es@))
                &&& forall|k: int|
                    0 <= k < es@.len() ==> entry_wf(#[trigger] entries_view(es@)[k])
                        && entries_view(es@)[k].id == 1 + k
            },
            Err(e) => spec_history(logs_view(logs@)) == Err::<Seq<EntryV>, _>(e),
        },
{
    let ghost lgv = logs_view(logs@);
    let mut out: Vec<HistoryEntry> = Vec::new();
    let mut id: u32 = 1;
    let mut k: usize = 0;
    proof {
        assert(entries_view(out@) =~= Seq::<EntryV>::empty());
        assert(spec_total_lines(lgv.subrange(0, 0)) == 0) by {
            assert(lgv.subrange(0, 0) =~= Seq::<Seq<Seq<char>>>::empty());
        }
    }
    while k < logs.len()
        invariant
            k <= logs@.len(),
            lgv == logs_view(logs@),
            2 + spec_total_lines(lgv) <= u32::MAX,
            id == 1 + out@.len(),
            id <= 1 + spec_total_lines(lgv.subrange(0, k as int)),
            spec_history_from(lgv, 0, 1, Seq::empty()) == spec_history_from(
                lgv,
                k as int,
                id as int,
                entries_view(out@),
            ),
            forall|j: int|
                0 <= j < out@.len() ==> entry_wf(#[trigger] entries_view(out@)[j]) && entries_view(
                    out@,
                )[j].id == 1 + j,
        decreases logs@.len() - k,
    {
        proof {
            lemma_total_lines_prefix(lgv, k + 1);
            assert(lgv.subrange(0, k + 1).drop_last() =~= lgv.subrange(0, k as int));
            assert(lgv.subrange(0, k + 1).last() == lgv[k as int]);
            assert(lgv[k as int] == lines_view(logs@[k as int]@));
        }
        match entries_from_lines(&logs[k], id) {
            Ok(es) => {
                let ghost pre_out = entries_view(out@);
                let ghost esv = entries_view(es@);
                let n = es.len();
                let mut es = es;
                out.append(&mut es);
                id += n as u32;
                proof {
                    assert(entries_view(out@) =~= pre_out + esv);
                }
            },
            Err(e) => {
                return Err(e);
            },
        }
        k += 1;
    }
    proof {
        assert(spec_history_from(lgv, k as int, id as int, entries_view(out@)) == Ok::<
            _,
            HistoryError,
        >(entries_view(out@)));
    }
    Ok(out)
}

} // verus!
