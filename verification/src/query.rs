//! Selector resolution and transaction matching.
//!
//! A selector is first tried as an integer: values at most zero are
//! relative to the newest transaction (`0` the newest, `-1` the one
//! before), positive values are absolute identifiers; resolution never
//! validates bounds, an out-of-range identifier simply matches nothing. A
//! selector that is no integer is a literal package name. A transaction
//! matches when its identifier is among the resolved ones or when any of
//! its affected package names equals one of the literal names.

use vstd::prelude::*;

use crate::entry::EntryV;
use crate::entry::HistoryEntry;
use crate::entry::entries_view;
use crate::entry::entry_has_package;
use crate::strutil::chars_of;
use crate::strutil::spec_all_digits;
use crate::strutil::spec_digits_val;
use crate::strutil::spec_is_digit;
use crate::strutil::str_eq;

verus! {

/// The integer a selector spells under the rules of `i32` parsing: an
/// optional sign, then only digits, and a value within the `i32` range.
pub open spec fn spec_parse_int(s: Seq<char>) -> Option<int> {
    let neg = s.len() > 0 && s[0] == '-';
    let ds = if s.len() > 0 && (s[0] == '-' || s[0] == '+') {
        s.drop_first()
    } else {
        s
    };
    if ds.len() == 0 || !spec_all_digits(ds) {
        None
    } else {
        let v = spec_digits_val(ds);
        if neg && v <= 0x8000_0000 {
            Some(-v)
        } else if !neg && v <= 0x7fff_ffff {
            Some(v)
        } else {
            None
        }
    }
}

/// A non-positive selector counts back from the newest of `n`
/// transactions; a positive one is an absolute identifier.
pub open spec fn spec_resolve(v: int, n: int) -> int {
    if v <= 0 {
        n + v
    } else {
        v
    }
}

pub open spec fn sels_view(s: Seq<String>) -> Seq<Seq<char>> {
    s.map_values(|x: String| x@)
}

pub open spec fn ids_view(s: Seq<i64>) -> Seq<int> {
    s.map_values(|x: i64| x as int)
}

pub open spec fn ref_entries_view(s: Seq<&HistoryEntry>) -> Seq<EntryV> {
    s.map_values(|e: &HistoryEntry| e@)
}

/// The resolved identifiers of the integer selectors, in order.
pub open spec fn spec_query_ids(sels: Seq<Seq<char>>, n: int) -> Seq<int>
    decreases sels.len(),
{
    if sels.len() == 0 {
        Seq::empty()
    } else {
        let rest = spec_query_ids(sels.drop_last(), n);
        match spec_parse_int(sels.last()) {
            Some(v) => rest.push(spec_resolve(v, n)),
            None => rest,
        }
    }
}

/// The literal package names among the selectors, in order.
pub open spec fn spec_query_pkgs(sels: Seq<Seq<char>>) -> Seq<Seq<char>>
    decreases sels.len(),
{
    if sels.len() == 0 {
        Seq::empty()
    } else {
        let rest = spec_query_pkgs(sels.drop_last());
        match spec_parse_int(sels.last()) {
            Some(v) => rest,
            None => rest.push(sels.last()),
        }
    }
}

/// Whether a transaction is selected: by identifier, or by any affected
/// package name.
pub open spec fn spec_matches(e: EntryV, ids: Seq<int>, pkgs: Seq<Seq<char>>) -> bool {
    ||| ids.contains(e.id)
    ||| exists|j: int| 0 <= j < e.affected.len() && pkgs.contains(#[trigger] e.affected[j].name)
}

/// The matching transactions, in store order.
pub open spec fn spec_select(entries: Seq<EntryV>, ids: Seq<int>, pkgs: Seq<Seq<char>>) -> Seq<
    EntryV,
>
    decreases entries.len(),
{
    if entries.len() == 0 {
        Seq::empty()
    } else {
        let rest = spec_select(entries.drop_last(), ids, pkgs);
        if spec_matches(entries.last(), ids, pkgs) {
            rest.push(entries.last())
        } else {
            rest
        }
    }
}

/// What a selector list selects from the store; no selectors at all mean
/// the single newest transaction.
pub open spec fn spec_selected(entries: Seq<EntryV>, query: Option<Seq<Seq<char>>>) -> Seq<
    EntryV,
> {
    match query {
        Some(sels) => spec_select(
            entries,
            spec_query_ids(sels, entries.len() as int),
            spec_query_pkgs(sels),
        ),
        None => spec_select(entries, seq![entries.len() as int], Seq::empty()),
    }
}

pub open spec fn query_view(q: Option<Vec<String>>) -> Option<Seq<Seq<char>>> {
    match q {
        Some(sels) => Some(sels_view(sels@)),
        None => None,
    }
}

/// What the query engine selects is membership-exact: a transaction is in
/// the selection precisely when it is in the store and matches.
pub proof fn lemma_select_membership(entries: Seq<EntryV>, ids: Seq<int>, pkgs: Seq<Seq<char>>)
    ensures
        forall|e: EntryV|
            spec_select(entries, ids, pkgs).contains(e) <==> (entries.contains(e) && spec_matches(
                e,
                ids,
                pkgs,
            )),
    decreases entries.len(),
{
    if entries.len() > 0 {
        let head = entries.drop_last();
        let last = entries.last();
        lemma_select_membership(head, ids, pkgs);
        let rest = spec_select(head, ids, pkgs);
        assert forall|e: EntryV|
            spec_select(entries, ids, pkgs).contains(e) <==> (entries.contains(e) && spec_matches(
                e,
                ids,
                pkgs,
            )) by {
            if spec_matches(last, ids, pkgs) {
                assert(spec_select(entries, ids, pkgs) == rest.push(last));
                if rest.contains(e) {
                    let i = choose|i: int| 0 <= i < rest.len() && rest[i] == e;
                    assert(rest.push(last)[i] == e);
                }
                if e == last {
                    assert(rest.push(last)[rest.len() as int] == e);
                }
                if rest.push(last).contains(e) {
                    let i = choose|i: int| 0 <= i < rest.push(last).len() && rest.push(last)[i]
                        == e;
                    if i < rest.len() {
                        assert(rest[i] == e);
                    }
                }
            }
            if entries.contains(e) {
                let i = choose|i: int| 0 <= i < entries.len() && entries[i] == e;
                if i < entries.len() - 1 {
                    assert(head[i] == e);
                } else {
                    assert(e == last);
                }
            }
            if head.contains(e) {
                let i = choose|i: int| 0 <= i < head.len() && head[i] == e;
                assert(entries[i] == e);
            }
            if e == last {
                assert(entries[entries.len() - 1] == e);
            }
        }
    }
}

/// A query of a single selector that is no integer — a literal package
/// name — selects exactly the transactions whose affected index contains
/// that package name under some action and architecture.
pub proof fn lemma_package_selector(entries: Seq<EntryV>, sel: Seq<char>)
    requires
        spec_parse_int(sel) is None,
    ensures
        forall|e: EntryV|
            spec_selected(entries, Some(seq![sel])).contains(e) <==> (entries.contains(e)
                && entry_has_package(e, sel)),
{
    let sels = seq![sel];
    let n = entries.len() as int;
    assert(sels.len() == 1);
    assert(sels.last() == sel);
    assert(sels.drop_last() =~= Seq::<Seq<char>>::empty());
    assert(spec_query_ids(sels.drop_last(), n) == Seq::<int>::empty());
    assert(spec_query_ids(sels, n) == Seq::<int>::empty());
    assert(spec_query_pkgs(sels.drop_last()) == Seq::<Seq<char>>::empty());
    let pkgs = spec_query_pkgs(sels);
    assert(pkgs =~= seq![sel]);
    lemma_select_membership(entries, Seq::empty(), pkgs);
    assert(spec_query_ids(sels, entries.len() as int) =~= Seq::<int>::empty());
    assert forall|e: EntryV|
        spec_matches(e, spec_query_ids(sels, entries.len() as int), pkgs) <==> entry_has_package(
            e,
            sel,
        ) by {
        assert(!Seq::<int>::empty().contains(e.id));
        assert(forall|x: Seq<char>| pkgs.contains(x) <==> x == sel) by {
            assert(pkgs[0] == sel);
        }
        if entry_has_package(e, sel) {
            let j = choose|j: int| 0 <= j < e.affected.len() && e.affected[j].name == sel;
            assert(pkgs.contains(e.affected[j].name));
        }
    }
    assert(spec_selected(entries, Some(sels)) == spec_select(
        entries,
        spec_query_ids(sels, entries.len() as int),
        pkgs,
    ));
    assert(spec_query_ids(sels, entries.len() as int) == Seq::<int>::empty());
}

/// Parses a selector as an integer under `i32` rules; `None` means the
/// selector is a package name.
pub fn parse_selector_int(s: &str) -> (r: Option<i64>)
    ensures
        match r {
            Some(v) => spec_parse_int(s@) == Some(v as int),
            None => spec_parse_int(s@) is None,
        },
{
    let chars = chars_of(s);
    let n = chars.len();
    let signed = n > 0 && (chars[0] == '-' || chars[0] == '+');
    let neg = n > 0 && chars[0] == '-';
    let start: usize = if signed {
        1
    } else {
        0
    };
    let ghost ds = if signed {
        s@.drop_first()
    } else {
        s@
    };
    proof {
        assert(ds =~= s@.subrange(start as int, n as int));
        assert(s@.subrange(start as int, start as int) =~= Seq::<char>::empty());
    }
    if n == start {
        return None;
    }
    let mut val: u64 = 0;
    let mut j: usize = start;
    while j < n
        invariant
            start <= j <= n,
            n == chars@.len(),
            chars@ == s@,
            start <= 1,
            ds == s@.subrange(start as int, n as int),
            ds == (if s@.len() > 0 && (s@[0] == '-' || s@[0] == '+') {
                s@.drop_first()
            } else {
                s@
            }),
            forall|m: int| start <= m < j ==> spec_is_digit(#[trigger] s@[m]),
            spec_digits_val(s@.subrange(start as int, j as int)) <= 0x8000_0000 ==> val
                == spec_digits_val(s@.subrange(start as int, j as int)),
            spec_digits_val(s@.subrange(start as int, j as int)) > 0x8000_0000 ==> val
                > 0x8000_0000,
            val <= 0x8000_0000u64 * 10 + 9,
        decreases n - j,
    {
        let c = chars[j];
        if !(c as u32 >= '0' as u32 && c as u32 <= '9' as u32) {
            assert(!spec_is_digit(s@[j as int]));
            assert(ds[j - start] == s@[j as int]);
            assert(!spec_all_digits(ds));
            return None;
        }
        let d = (c as u32 - '0' as u32) as u64;
        let ghost pv = spec_digits_val(s@.subrange(start as int, j as int));
        if val > 0x8000_0000 {
            val = 0x8000_0001;
        } else {
            val = val * 10 + d;
        }
        proof {
            assert(s@.subrange(start as int, j + 1 as int).drop_last() =~= s@.subrange(
                start as int,
                j as int,
            ));
            assert(s@.subrange(start as int, j + 1 as int).last() == s@[j as int]);
            let pv2 = spec_digits_val(s@.subrange(start as int, j + 1 as int));
            assert(pv2 == pv * 10 + (s@[j as int] as u32 - '0' as u32));
            if pv > 0x8000_0000 {
                assert(pv * 10 >= pv);
                assert(pv2 > 0x8000_0000);
            }
        }
        j += 1;
    }
    proof {
        assert(s@.subrange(start as int, n as int) =~= ds);
        assert(spec_all_digits(ds));
        assert(spec_digits_val(ds) >= 0) by {
            lemma_digits_val_nonneg(ds);
        }
    }
    if neg {
        if val <= 0x8000_0000 {
            Some(-(val as i64))
        } else {
            None
        }
    } else {
        if val <= 0x7fff_ffff {
            Some(val as i64)
        } else {
            None
        }
    }
}

proof fn lemma_digits_val_nonneg(s: Seq<char>)
    requires
        spec_all_digits(s),
    ensures
        spec_digits_val(s) >= 0,
    decreases s.len(),
{
    if s.len() > 0 {
        assert(spec_all_digits(s.drop_last())) by {
            assert(forall|i: int|
                0 <= i < s.len() - 1 ==> s.drop_last()[i] == #[trigger] s[i] && spec_is_digit(
                    s[i],
                ));
        }
        lemma_digits_val_nonneg(s.drop_last());
        assert(spec_is_digit(s.last()));
    }
}

/// Resolves one integer selector against a store of `n` transactions.
pub fn resolve_selector(v: i64, n: u32) -> (r: i64)
    ensures
        r == spec_resolve(v as int, n as int),
{
    if v <= 0 {
        n as i64 + v
    } else {
        v
    }
}

/// Whether the entry's identifier is among the resolved ones.
fn id_selected(e: &HistoryEntry, ids: &Vec<i64>) -> (r: bool)
    ensures
        r == ids_view(ids@).contains(e@.id),
{
    let mut i: usize = 0;
    while i < ids.len()
        invariant
            i <= ids@.len(),
            forall|k: int| 0 <= k < i ==> ids_view(ids@)[k] != e@.id,
        decreases ids@.len() - i,
    {
        if ids[i] == e.id as i64 {
            assert(ids_view(ids@)[i as int] == e@.id);
            return true;
        }
        i += 1;
    }
    assert forall|k: int| 0 <= k < ids_view(ids@).len() implies ids_view(ids@)[k] != e@.id by {}
    false
}

/// Whether any affected package name of the entry is among the literal
/// names.
fn package_selected(e: &HistoryEntry, pkgs: &Vec<String>) -> (r: bool)
    ensures
        r == exists|j: int|
            0 <= j < e@.affected.len() && sels_view(pkgs@).contains(#[trigger] e@.affected[j].name),
{
    let mut j: usize = 0;
    while j < e.affected.len()
        invariant
            j <= e.affected@.len(),
            e@.affected.len() == e.affected@.len(),
            forall|a: int| 0 <= a < j ==> !sels_view(pkgs@).contains(#[trigger] e@.affected[a].name),
        decreases e.affected@.len() - j,
    {
        let mut p: usize = 0;
        while p < pkgs.len()
            invariant
                j < e.affected@.len(),
                e@.affected.len() == e.affected@.len(),
                p <= pkgs@.len(),
                forall|b: int| 0 <= b < p ==> sels_view(pkgs@)[b] != e@.affected[j as int].name,
            decreases pkgs@.len() - p,
        {
            if str_eq(e.affected[j].name.as_str(), pkgs[p].as_str()) {
                assert(sels_view(pkgs@)[p as int] == e@.affected[j as int].name);
                assert(sels_view(pkgs@).contains(e@.affected[j as int].name));
                return true;
            }
            p += 1;
        }
        assert forall|b: int| 0 <= b < sels_view(pkgs@).len() implies sels_view(pkgs@)[b]
            != e@.affected[j as int].name by {}
        assert(!sels_view(pkgs@).contains(e@.affected[j as int].name));
        j += 1;
    }
    false
}

/// Whether the entry matches the resolved query.
pub fn entry_matches(e: &HistoryEntry, ids: &Vec<i64>, pkgs: &Vec<String>) -> (r: bool)
    ensures
        r == spec_matches(e@, ids_view(ids@), sels_view(pkgs@)),
{
    if id_selected(e, ids) {
        return true;
    }
    package_selected(e, pkgs)
}

/// Resolves the query's selectors and returns the matching transactions in
/// store order. No query at all selects the single newest transaction.
pub fn matching_entries<'a>(entries: &'a Vec<HistoryEntry>, query: &Option<Vec<String>>) -> (r:
    Vec<&'a HistoryEntry>)
    requires
        entries@.len() <= u32::MAX,
    ensures
        ref_entries_view(r@) == spec_selected(entries_view(entries@), query_view(*query)),
{
    let n: u32 = entries.len() as u32;
    let mut ids: Vec<i64> = Vec::new();
    let mut pkgs: Vec<String> = Vec::new();
    match query {
        None => {
            ids.push(entries.len() as i64);
            proof {
                assert(ids_view(ids@) =~= seq![entries_view(entries@).len() as int]);
                assert(sels_view(pkgs@) =~= Seq::<Seq<char>>::empty());
            }
        },
        Some(sels) => {
            let ghost sv = sels_view(sels@);
            let mut i: usize = 0;
            proof {
                assert(sv.subrange(0, 0) =~= Seq::<Seq<char>>::empty());
                assert(ids_view(ids@) =~= Seq::<int>::empty());
                assert(sels_view(pkgs@) =~= Seq::<Seq<char>>::empty());
            }
            while i < sels.len()
                invariant
                    i <= sels@.len(),
                    n as int == entries@.len(),
                    sv == sels_view(sels@),
                    ids_view(ids@) == spec_query_ids(sv.subrange(0, i as int), n as int),
                    sels_view(pkgs@) == spec_query_pkgs(sv.subrange(0, i as int)),
                decreases sels@.len() - i,
            {
                let ghost pre_ids = ids_view(ids@);
                let ghost pre_pkgs = sels_view(pkgs@);
                match parse_selector_int(sels[i].as_str()) {
                    Some(v) => {
                        let rid = resolve_selector(v, n);
                        ids.push(rid);
                        proof {
                            assert(ids_view(ids@) =~= pre_ids.push(rid as int));
                        }
                    },
                    None => {
                        pkgs.push(sels[i].clone());
                        proof {
                            assert(sels_view(pkgs@) =~= pre_pkgs.push(sels@[i as int]@));
                        }
                    },
                }
                proof {
                    assert(sv.subrange(0, i + 1 as int).drop_last() =~= sv.subrange(0, i as int));
                    assert(sv.subrange(0, i + 1 as int).last() == sels@[i as int]@);
                }
                i += 1;
            }
            proof {
                assert(sv.subrange(0, sels@.len() as int) =~= sv);
            }
        },
    }
    let mut out: Vec<&'a HistoryEntry> = Vec::new();
    let mut k: usize = 0;
    let ghost ev = entries_view(entries@);
    proof {
        assert(ref_entries_view(out@) =~= Seq::<EntryV>::empty());
        assert(ev.subrange(0, 0) =~= Seq::<EntryV>::empty());
    }
    while k < entries.len()
        invariant
            k <= entries@.len(),
            ev == entries_view(entries@),
            ref_entries_view(out@) == spec_select(
                ev.subrange(0, k as int),
                ids_view(ids@),
                sels_view(pkgs@),
            ),
        decreases entries@.len() - k,
    {
        let ghost pre = ref_entries_view(out@);
        let e = &entries[k];
        if entry_matches(e, &ids, &pkgs) {
            out.push(e);
            proof {
                assert(ref_entries_view(out@) =~= pre.push(ev[k as int]));
            }
        }
        proof {
            assert(ev.subrange(0, k + 1 as int).drop_last() =~= ev.subrange(0, k as int));
            assert(ev.subrange(0, k + 1 as int).last() == ev[k as int]);
        }
        k += 1;
    }
    proof {
        assert(ev.subrange(0, entries@.len() as int) =~= ev);
    }
    out
}

} // verus!
