//! The transaction record and its affected-package bookkeeping.

use vstd::prelude::*;

verus! {

/// The fixed set of action kinds a history record may report.
#[derive(Clone, Copy, PartialEq, Eq, Structural, Debug)]
pub enum Action {
    Install,
    Purge,
    Reinstall,
    Remove,
    Upgrade,
}

/// One affected package: `action` altered package `name` on architecture
/// `arch`. A transaction's affected set is a deduplicated sequence of these
/// triples; it carries the action -> architecture -> package-name-set
/// mapping in flattened form, so action and architecture boundaries are
/// preserved all the way to the output.
pub struct PackageChange {
    pub action: Action,
    pub arch: String,
    pub name: String,
}

/// Mathematical value of a `PackageChange`.
pub ghost struct ChangeV {
    pub action: Action,
    pub arch: Seq<char>,
    pub name: Seq<char>,
}

impl View for PackageChange {
    type V = ChangeV;

    open spec fn view(&self) -> ChangeV {
        ChangeV { action: self.action, arch: self.arch@, name: self.name@ }
    }
}

pub open spec fn changes_view(s: Seq<PackageChange>) -> Seq<ChangeV> {
    s.map_values(|c: PackageChange| c@)
}

/// No (action, architecture, name) triple occurs twice: the sequence
/// represents a set of affected packages.
pub open spec fn changes_distinct(s: Seq<ChangeV>) -> bool {
    forall|i: int, j: int| 0 <= i < j < s.len() ==> s[i] != s[j]
}

/// Set-semantics insert: the triple is appended only when it is new.
pub open spec fn insert_change(s: Seq<ChangeV>, c: ChangeV) -> Seq<ChangeV> {
    if s.contains(c) {
        s
    } else {
        s.push(c)
    }
}

pub proof fn lemma_insert_change_distinct(s: Seq<ChangeV>, c: ChangeV)
    requires
        changes_distinct(s),
    ensures
        changes_distinct(insert_change(s, c)),
{
    if !s.contains(c) {
        assert forall|i: int, j: int| 0 <= i < j < s.push(c).len() implies s.push(c)[i] != s.push(
            c,
        )[j] by {
            if j == s.len() {
                assert(s.push(c)[i] == s[i]);
                assert(s.contains(s[i]));
            }
        }
    }
}

/// One reconstructed transaction.
///
/// `id` is assigned densely in chronological order across all log files;
/// `start_date` and `end_date` are epoch seconds; `command_line` is already
/// truncated and prefix-stripped for display; `altered` counts the distinct
/// (action, architecture, name) triples in `affected`.
pub struct HistoryEntry {
    pub id: u32,
    pub command_line: String,
    pub start_date: i64,
    pub end_date: i64,
    pub affected: Vec<PackageChange>,
    pub altered: usize,
}

/// Mathematical value of a `HistoryEntry`.
pub ghost struct EntryV {
    pub id: int,
    pub command_line: Seq<char>,
    pub start_date: int,
    pub end_date: int,
    pub affected: Seq<ChangeV>,
    pub altered: int,
}

impl View for HistoryEntry {
    type V = EntryV;

    open spec fn view(&self) -> EntryV {
        EntryV {
            id: self.id as int,
            command_line: self.command_line@,
            start_date: self.start_date as int,
            end_date: self.end_date as int,
            affected: changes_view(self.affected@),
            altered: self.altered as int,
        }
    }
}

pub open spec fn entries_view(s: Seq<HistoryEntry>) -> Seq<EntryV> {
    s.map_values(|e: HistoryEntry| e@)
}

/// A well-formed entry: the altered count equals the number of affected
/// triples, and the triples form a set.
pub open spec fn entry_wf(e: EntryV) -> bool {
    &&& e.altered == e.affected.len()
    &&& changes_distinct(e.affected)
}

/// Whether some action of the entry altered a package called `name`
/// (on any architecture).
pub open spec fn entry_has_package(e: EntryV, name: Seq<char>) -> bool {
    exists|j: int| 0 <= j < e.affected.len() && e.affected[j].name == name
}

/// Inserts the triple into the affected set unless it is already present.
pub fn add_change(affected: &mut Vec<PackageChange>, action: Action, name: String, arch: String)
    ensures
        changes_view(final(affected)@) == insert_change(
            changes_view(old(affected)@),
            ChangeV { action, arch: arch@, name: name@ },
        ),
{
    let ghost cv = ChangeV { action, arch: arch@, name: name@ };
    let ghost orig = changes_view(affected@);
    let mut i: usize = 0;
    while i < affected.len()
        invariant
            i <= affected@.len(),
            cv == (ChangeV { action, arch: arch@, name: name@ }),
            orig == changes_view(old(affected)@),
            changes_view(affected@) == orig,
            forall|k: int| 0 <= k < i ==> affected@[k]@ != cv,
        decreases affected@.len() - i,
    {
        let a = &affected[i];
        let same_action = a.action == action;
        let same_name = crate::strutil::str_eq(a.name.as_str(), name.as_str());
        let same_arch = crate::strutil::str_eq(a.arch.as_str(), arch.as_str());
        if same_action && same_name && same_arch {
            assert(orig[i as int] == cv);
            assert(orig.contains(cv));
            return ;
        }
        assert(affected@[i as int]@ != cv);
        i += 1;
    }
    assert forall|k: int| 0 <= k < orig.len() implies orig[k] != cv by {
        assert(orig[k] == affected@[k]@);
    }
    assert(!orig.contains(cv));
    let c = PackageChange { action, arch, name };
    affected.push(c);
    assert(changes_view(affected@) =~= orig.push(cv));
}

} // verus!
