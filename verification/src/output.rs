//! The plain structured records handed to a presentation layer.
//!
//! `list` shapes selected transactions into listing rows, newest first
//! unless the reverse flag asks for store order; `info` shapes them into
//! full detail views with the affected packages grouped per action;
//! `history` dispatches a subcommand name to one of the two.

use vstd::prelude::*;

use crate::entry::Action;
use crate::entry::ChangeV;
use crate::entry::EntryV;
use crate::entry::HistoryEntry;
use crate::entry::PackageChange;
use crate::entry::changes_view;
use crate::entry::entries_view;
use crate::errors::HistoryError;
use crate::pkg::PkgTok;
use crate::pkg::TokV;
use crate::pkg::toks_view;
use crate::query::matching_entries;
use crate::query::query_view;
use crate::query::ref_entries_view;
use crate::query::spec_selected;
use crate::strutil::str_eq;

verus! {

/// One row of the listing view.
pub struct ListRow {
    pub id: u32,
    pub command_line: String,
    pub start_date: i64,
    pub actions: String,
    pub altered: usize,
}

/// Mathematical value of a `ListRow`.
pub ghost struct RowV {
    pub id: int,
    pub command_line: Seq<char>,
    pub start_date: int,
    pub actions: Seq<char>,
    pub altered: int,
}

impl View for ListRow {
    type V = RowV;

    open spec fn view(&self) -> RowV {
        RowV {
            id: self.id as int,
            command_line: self.command_line@,
            start_date: self.start_date as int,
            actions: self.actions@,
            altered: self.altered as int,
        }
    }
}

pub open spec fn rows_view(s: Seq<ListRow>) -> Seq<RowV> {
    s.map_values(|r: ListRow| r@)
}

/// The affected packages of one action, for the detail view.
pub struct ActionPackages {
    pub action: Action,
    pub packages: Vec<PkgTok>,
}

/// Mathematical value of an `ActionPackages`.
pub ghost struct ActionPackagesV {
    pub action: Action,
    pub packages: Seq<TokV>,
}

impl View for ActionPackages {
    type V = ActionPackagesV;

    open spec fn view(&self) -> ActionPackagesV {
        ActionPackagesV { action: self.action, packages: toks_view(self.packages@) }
    }
}

pub open spec fn groups_view(s: Seq<ActionPackages>) -> Seq<ActionPackagesV> {
    s.map_values(|g: ActionPackages| g@)
}

/// One transaction's full detail view.
pub struct TransactionDetail {
    pub id: u32,
    pub start_date: i64,
    pub end_date: i64,
    pub duration_seconds: i128,
    pub command_line: String,
    pub affected: Vec<ActionPackages>,
}

/// Mathematical value of a `TransactionDetail`.
pub ghost struct DetailV {
    pub id: int,
    pub start_date: int,
    pub end_date: int,
    pub duration_seconds: int,
    pub command_line: Seq<char>,
    pub affected: Seq<ActionPackagesV>,
}

impl View for TransactionDetail {
    type V = DetailV;

    open spec fn view(&self) -> DetailV {
        DetailV {
            id: self.id as int,
            start_date: self.start_date as int,
            end_date: self.end_date as int,
            duration_seconds: self.duration_seconds as int,
            command_line: self.command_line@,
            affected: groups_view(self.affected@),
        }
    }
}

pub open spec fn details_view(s: Seq<TransactionDetail>) -> Seq<DetailV> {
    s.map_values(|d: TransactionDetail| d@)
}

pub open spec fn spec_action_name(a: Action) -> Seq<char> {
    match a {
        Action::Install => "Install"@,
        Action::Purge => "Purge"@,
        Action::Reinstall => "Reinstall"@,
        Action::Remove => "Remove"@,
        Action::Upgrade => "Upgrade"@,
    }
}

pub open spec fn spec_initial(a: Action) -> Seq<char> {
    match a {
        Action::Install => "I"@,
        Action::Purge => "P"@,
        Action::Reinstall => "R"@,
        Action::Remove => "R"@,
        Action::Upgrade => "U"@,
    }
}

pub open spec fn spec_has_action(aff: Seq<ChangeV>, a: Action) -> bool {
    exists|i: int| 0 <= i < aff.len() && aff[i].action == a
}

/// The distinct actions present, in the fixed enumeration order; that
/// order lists their initials alphabetically.
pub open spec fn spec_present_actions(aff: Seq<ChangeV>) -> Seq<Action> {
    (if spec_has_action(aff, Action::Install) {
        seq![Action::Install]
    } else {
        Seq::empty()
    }) + (if spec_has_action(aff, Action::Purge) {
        seq![Action::Purge]
    } else {
        Seq::empty()
    }) + (if spec_has_action(aff, Action::Reinstall) {
        seq![Action::Reinstall]
    } else {
        Seq::empty()
    }) + (if spec_has_action(aff, Action::Remove) {
        seq![Action::Remove]
    } else {
        Seq::empty()
    }) + (if spec_has_action(aff, Action::Upgrade) {
        seq![Action::Upgrade]
    } else {
        Seq::empty()
    })
}

/// The initials of the given actions, comma-joined.
pub open spec fn spec_join_initials(acts: Seq<Action>) -> Seq<char>
    decreases acts.len(),
{
    if acts.len() == 0 {
        Seq::empty()
    } else if acts.len() == 1 {
        spec_initial(acts[0])
    } else {
        spec_join_initials(acts.drop_last()) + ", "@ + spec_initial(acts.last())
    }
}

/// The action summary of a listing row: the full action word when exactly
/// one action is present, otherwise the sorted, comma-joined initials.
pub open spec fn spec_summary(aff: Seq<ChangeV>) -> Seq<char> {
    let p = spec_present_actions(aff);
    if p.len() == 1 {
        spec_action_name(p[0])
    } else {
        spec_join_initials(p)
    }
}

pub open spec fn spec_row_of(e: EntryV) -> RowV {
    RowV {
        id: e.id,
        command_line: e.command_line,
        start_date: e.start_date,
        actions: spec_summary(e.affected),
        altered: e.altered,
    }
}

/// The (name, architecture) pairs the given action altered, in stored
/// order.
pub open spec fn spec_action_packages(aff: Seq<ChangeV>, a: Action) -> Seq<TokV>
    decreases aff.len(),
{
    if aff.len() == 0 {
        Seq::empty()
    } else {
        let rest = spec_action_packages(aff.drop_last(), a);
        if aff.last().action == a {
            rest.push(TokV { name: aff.last().name, arch: aff.last().arch })
        } else {
            rest
        }
    }
}

/// The per-action grouping of the detail view, in the fixed enumeration
/// order of the present actions.
pub open spec fn spec_detail_affected(aff: Seq<ChangeV>) -> Seq<ActionPackagesV> {
    spec_present_actions(aff).map_values(
        |a: Action| ActionPackagesV { action: a, packages: spec_action_packages(aff, a) },
    )
}

pub open spec fn spec_detail_of(e: EntryV) -> DetailV {
    DetailV {
        id: e.id,
        start_date: e.start_date,
        end_date: e.end_date,
        duration_seconds: e.end_date - e.start_date,
        command_line: e.command_line,
        affected: spec_detail_affected(e.affected),
    }
}

/// The rows the listing view shows: with a query its matches, without one
/// the whole store; in store order when the reverse flag is set, newest
/// first otherwise.
pub open spec fn spec_list_rows(
    entries: Seq<EntryV>,
    query: Option<Seq<Seq<char>>>,
    reverse: bool,
) -> Seq<RowV> {
    let sel = match query {
        Some(_) => spec_selected(entries, query),
        None => entries,
    };
    let ordered = if reverse {
        sel
    } else {
        sel.reverse()
    };
    ordered.map_values(|e: EntryV| spec_row_of(e))
}

/// The detail views of the selected transactions, in store order.
pub open spec fn spec_details(entries: Seq<EntryV>, query: Option<Seq<Seq<char>>>) -> Seq<
    DetailV,
> {
    spec_selected(entries, query).map_values(|e: EntryV| spec_detail_of(e))
}

/// The full word of an action kind.
pub fn action_name(a: Action) -> (r: String)
    ensures
        r@ == spec_action_name(a),
{
    match a {
        Action::Install => "Install".to_owned(),
        Action::Purge => "Purge".to_owned(),
        Action::Reinstall => "Reinstall".to_owned(),
        Action::Remove => "Remove".to_owned(),
        Action::Upgrade => "Upgrade".to_owned(),
    }
}

fn initial_str(a: Action) -> (r: &'static str)
    ensures
        r@ == spec_initial(a),
{
    match a {
        Action::Install => "I",
        Action::Purge => "P",
        Action::Reinstall => "R",
        Action::Remove => "R",
        Action::Upgrade => "U",
    }
}

fn has_action(affected: &Vec<PackageChange>, a: Action) -> (r: bool)
    ensures
        r == spec_has_action(changes_view(affected@), a),
{
    let ghost aff = changes_view(affected@);
    let mut i: usize = 0;
    while i < affected.len()
        invariant
            i <= affected@.len(),
            aff == changes_view(affected@),
            forall|k: int| 0 <= k < i ==> aff[k].action != a,
        decreases affected@.len() - i,
    {
        if affected[i].action == a {
            assert(aff[i as int].action == a);
            return true;
        }
        assert(aff[i as int] == affected@[i as int]@);
        i += 1;
    }
    false
}

fn present_actions(affected: &Vec<PackageChange>) -> (r: Vec<Action>)
    ensures
        r@ == spec_present_actions(changes_view(affected@)),
{
    let mut r: Vec<Action> = Vec::new();
    if has_action(affected, Action::Install) {
        r.push(Action::Install);
    }
    if has_action(affected, Action::Purge) {
        r.push(Action::Purge);
    }
    if has_action(affected, Action::Reinstall) {
        r.push(Action::Reinstall);
    }
    if has_action(affected, Action::Remove) {
        r.push(Action::Remove);
    }
    if has_action(affected, Action::Upgrade) {
        r.push(Action::Upgrade);
    }
    proof {
        assert(r@ =~= spec_present_actions(changes_view(affected@)));
    }
    r
}

/// The action summary of one transaction for the listing view.
pub fn action_summary(affected: &Vec<PackageChange>) -> (r: String)
    ensures
        r@ == spec_summary(changes_view(affected@)),
{
    let p = present_actions(affected);
    if p.len() == 1 {
        return action_name(p[0]);
    }
    let mut out = String::new();
    let mut k: usize = 0;
    proof {
        assert(p@.subrange(0, 0) =~= Seq::<Action>::empty());
    }
    while k < p.len()
        invariant
            k <= p@.len(),
            out@ == spec_join_initials(p@.subrange(0, k as int)),
        decreases p@.len() - k,
    {
        if k > 0 {
            out.append(", ");
        }
        out.append(initial_str(p[k]));
        proof {
            assert(p@.subrange(0, k + 1 as int).drop_last() =~= p@.subrange(0, k as int));
            assert(p@.subrange(0, k + 1 as int).last() == p@[k as int]);
            if k == 0 {
                assert(out@ =~= spec_initial(p@[0]));
            }
        }
        k += 1;
    }
    proof {
        assert(p@.subrange(0, p@.len() as int) =~= p@);
    }
    out
}

/// The (name, architecture) pairs the given action altered in this entry.
fn packages_of_action(affected: &Vec<PackageChange>, a: Action) -> (r: Vec<PkgTok>)
    ensures
        toks_view(r@) == spec_action_packages(changes_view(affected@), a),
{
    let ghost aff = changes_view(affected@);
    let mut r: Vec<PkgTok> = Vec::new();
    let mut i: usize = 0;
    proof {
        assert(toks_view(r@) =~= Seq::<TokV>::empty());
        assert(aff.subrange(0, 0) =~= Seq::<ChangeV>::empty());
    }
    while i < affected.len()
        invariant
            i <= affected@.len(),
            aff == changes_view(affected@),
            toks_view(r@) == spec_action_packages(aff.subrange(0, i as int), a),
        decreases affected@.len() - i,
    {
        let ghost pre = toks_view(r@);
        if affected[i].action == a {
            let t = PkgTok { name: affected[i].name.clone(), arch: affected[i].arch.clone() };
            let ghost tv = t@;
            r.push(t);
            proof {
                assert(toks_view(r@) =~= pre.push(tv));
            }
        }
        proof {
            assert(aff.subrange(0, i + 1 as int).drop_last() =~= aff.subrange(0, i as int));
            assert(aff.subrange(0, i + 1 as int).last() == aff[i as int]);
        }
        i += 1;
    }
    proof {
        assert(aff.subrange(0, affected@.len() as int) =~= aff);
    }
    r
}

/// The listing row of one transaction.
fn row_of(e: &HistoryEntry) -> (r: ListRow)
    ensures
        r@ == spec_row_of(e@),
{
    ListRow {
        id: e.id,
        command_line: e.command_line.clone(),
        start_date: e.start_date,
        actions: action_summary(&e.affected),
        altered: e.altered,
    }
}

/// The detail view of one transaction, its affected packages grouped per
/// present action.
fn detail_of(e: &HistoryEntry) -> (r: TransactionDetail)
    ensures
        r@ == spec_detail_of(e@),
{
    let ghost aff = changes_view(e.affected@);
    let acts = present_actions(&e.affected);
    let mut groups: Vec<ActionPackages> = Vec::new();
    let mut k: usize = 0;
    proof {
        assert(groups_view(groups@) =~= Seq::<ActionPackagesV>::empty());
        assert(acts@.subrange(0, 0) =~= Seq::<Action>::empty());
        assert(acts@.subrange(0, 0).map_values(
            |a: Action| ActionPackagesV { action: a, packages: spec_action_packages(aff, a) },
        ) =~= Seq::<ActionPackagesV>::empty());
    }
    while k < acts.len()
        invariant
            k <= acts@.len(),
            aff == changes_view(e.affected@),
            acts@ == spec_present_actions(aff),
            groups_view(groups@) == acts@.subrange(0, k as int).map_values(
                |a: Action| ActionPackagesV { action: a, packages: spec_action_packages(aff, a) },
            ),
        decreases acts@.len() - k,
    {
        let ghost pre = groups_view(groups@);
        let a = acts[k];
        let packages = packages_of_action(&e.affected, a);
        let g = ActionPackages { action: a, packages };
        let ghost gv = g@;
        groups.push(g);
        proof {
            assert(groups_view(groups@) =~= pre.push(gv));
            assert(acts@.subrange(0, k + 1 as int).map_values(
                |x: Action| ActionPackagesV { action: x, packages: spec_action_packages(aff, x) },
            ) =~= pre.push(gv));
        }
        k += 1;
    }
    proof {
        assert(acts@.subrange(0, acts@.len() as int) =~= acts@);
    }
    let duration_seconds = e.end_date as i128 - e.start_date as i128;
    TransactionDetail {
        id: e.id,
        start_date: e.start_date,
        end_date: e.end_date,
        duration_seconds,
        command_line: e.command_line.clone(),
        affected: groups,
    }
}

fn all_refs<'a>(entries: &'a Vec<HistoryEntry>) -> (r: Vec<&'a HistoryEntry>)
    ensures
        ref_entries_view(r@) == entries_view(entries@),
{
    let mut r: Vec<&'a HistoryEntry> = Vec::new();
    let mut i: usize = 0;
    proof {
        assert(ref_entries_view(r@) =~= entries_view(entries@).subrange(0, 0));
    }
    while i < entries.len()
        invariant
            i <= entries@.len(),
            ref_entries_view(r@) == entries_view(entries@).subrange(0, i as int),
        decreases entries@.len() - i,
    {
        let ghost pre = ref_entries_view(r@);
        r.push(&entries[i]);
        proof {
            assert(ref_entries_view(r@) =~= pre.push(entries@[i as int]@));
            assert(ref_entries_view(r@) =~= entries_view(entries@).subrange(0, i + 1 as int));
        }
        i += 1;
    }
    proof {
        assert(entries_view(entries@).subrange(0, entries@.len() as int) =~= entries_view(
            entries@,
        ));
    }
    r
}

/// The listing view: with a query its matches, without one the whole
/// store; newest first by default, store order under the reverse flag.
pub fn list(entries: &Vec<HistoryEntry>, query: &Option<Vec<String>>, reverse: bool) -> (r: Vec<
    ListRow,
>)
    requires
        entries@.len() <= u32::MAX,
    ensures
        rows_view(r@) == spec_list_rows(entries_view(entries@), query_view(*query), reverse),
{
    let selected: Vec<&HistoryEntry> = if query.is_some() {
        matching_entries(entries, query)
    } else {
        all_refs(entries)
    };
    let ghost sel = ref_entries_view(selected@);
    let ghost ordered = if reverse {
        sel
    } else {
        sel.reverse()
    };
    let n = selected.len();
    let mut rows: Vec<ListRow> = Vec::new();
    let mut k: usize = 0;
    proof {
        assert(rows_view(rows@) =~= Seq::<RowV>::empty());
        assert(ordered.subrange(0, 0).map_values(|e: EntryV| spec_row_of(e)) =~= Seq::<
            RowV,
        >::empty());
    }
    while k < n
        invariant
            k <= n,
            n == selected@.len(),
            sel == ref_entries_view(selected@),
            ordered == (if reverse {
                sel
            } else {
                sel.reverse()
            }),
            ordered.len() == n,
            rows_view(rows@) == ordered.subrange(0, k as int).map_values(
                |e: EntryV| spec_row_of(e),
            ),
        decreases n - k,
    {
        let idx = if reverse {
            k
        } else {
            n - 1 - k
        };
        let ghost pre = rows_view(rows@);
        let row = row_of(selected[idx]);
        let ghost rv = row@;
        rows.push(row);
        proof {
            assert(ordered[k as int] == sel[idx as int]);
            assert(rv == spec_row_of(ordered[k as int]));
            assert(rows_view(rows@) =~= pre.push(rv));
            assert(ordered.subrange(0, k + 1 as int).map_values(|e: EntryV| spec_row_of(e))
                =~= pre.push(rv));
        }
        k += 1;
    }
    proof {
        assert(ordered.subrange(0, n as int) =~= ordered);
    }
    rows
}

/// The detail views of the queried transactions, in store order; no query
/// at all shows the single newest transaction.
pub fn info(entries: &Vec<HistoryEntry>, query: &Option<Vec<String>>) -> (r: Vec<
    TransactionDetail,
>)
    requires
        entries@.len() <= u32::MAX,
    ensures
        details_view(r@) == spec_details(entries_view(entries@), query_view(*query)),
{
    let selected = matching_entries(entries, query);
    let ghost sel = ref_entries_view(selected@);
    let mut details: Vec<TransactionDetail> = Vec::new();
    let mut k: usize = 0;
    proof {
        assert(details_view(details@) =~= Seq::<DetailV>::empty());
        assert(sel.subrange(0, 0).map_values(|e: EntryV| spec_detail_of(e)) =~= Seq::<
            DetailV,
        >::empty());
    }
    while k < selected.len()
        invariant
            k <= selected@.len(),
            sel == ref_entries_view(selected@),
            details_view(details@) == sel.subrange(0, k as int).map_values(
                |e: EntryV| spec_detail_of(e),
            ),
        decreases selected@.len() - k,
    {
        let ghost pre = details_view(details@);
        let d = detail_of(selected[k]);
        let ghost dv = d@;
        details.push(d);
        proof {
            assert(dv == spec_detail_of(sel[k as int]));
            assert(details_view(details@) =~= pre.push(dv));
            assert(sel.subrange(0, k + 1 as int).map_values(|e: EntryV| spec_detail_of(e))
                =~= pre.push(dv));
        }
        k += 1;
    }
    proof {
        assert(sel.subrange(0, selected@.len() as int) =~= sel);
    }
    details
}

/// What one invocation hands the presentation layer.
pub enum HistoryOutput {
    Listing(Vec<ListRow>),
    Details(Vec<TransactionDetail>),
}

/// Dispatches a subcommand over the store: `list` and `info` are the two
/// commands; anything else is a usage error.
pub fn history(entries: &Vec<HistoryEntry>, command: &str, query: &Option<Vec<String>>, reverse:
    bool) -> (r: Result<HistoryOutput, HistoryError>)
    requires
        entries@.len() <= u32::MAX,
    ensures
        match r {
            Ok(out) => match out {
                HistoryOutput::Listing(rows) => command@ == "list"@ && rows_view(rows@)
                    == spec_list_rows(entries_view(entries@), query_view(*query), reverse),
                HistoryOutput::Details(ds) => command@ == "info"@ && details_view(ds@)
                    == spec_details(entries_view(entries@), query_view(*query)),
            },
            Err(e) => e == HistoryError::UnknownCommand && command@ != "list"@ && command@
                != "info"@,
        },
{
    if str_eq(command, "list") {
        Ok(HistoryOutput::Listing(list(entries, query, reverse)))
    } else if str_eq(command, "info") {
        Ok(HistoryOutput::Details(info(entries, query)))
    } else {
        Err(HistoryError::UnknownCommand)
    }
}

} // verus!
