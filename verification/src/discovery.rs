//! Log-file discovery: which directory entries are history log files, and
//! their chronological order.
//!
//! A candidate name is either the current log, exactly `history.log`, or a
//! rotated one, `history.log.<N>.gz` with a numeric rotation suffix `N`.
//! Larger suffixes are older, and the current file is newest, so the
//! chronological (oldest-first) order is: rotated files by descending
//! suffix, then the current file last.

use vstd::prelude::*;

use crate::strutil::chars_of;
use crate::strutil::range_eq_str;
use crate::strutil::spec_all_digits;
use crate::strutil::spec_digits_val;
use crate::strutil::spec_is_digit;

verus! {

/// The unsuffixed, newest, still-written log file.
pub open spec fn spec_is_current(n: Seq<char>) -> bool {
    n == "history.log"@
}

/// The digits of a rotated name `history.log.<N>.gz`.
pub open spec fn spec_rotation_digits(n: Seq<char>) -> Seq<char> {
    n.subrange(12, n.len() - 3)
}

/// A rotated, compressed log name: the base name, a dot, at least one
/// digit, and the compression suffix.
pub open spec fn spec_is_rotated(n: Seq<char>) -> bool {
    &&& n.len() >= 16
    &&& n.subrange(0, 12) == "history.log."@
    &&& n.subrange(n.len() - 3, n.len() as int) == ".gz"@
    &&& spec_all_digits(spec_rotation_digits(n))
}

/// A name this crate reads as a history log file. A rotation number too
/// large for its counter is not a candidate.
pub open spec fn spec_is_candidate(n: Seq<char>) -> bool {
    ||| spec_is_current(n)
    ||| (spec_is_rotated(n) && spec_digits_val(spec_rotation_digits(n)) <= u32::MAX)
}

/// The sort key of a candidate: ascending key order is chronological
/// order, oldest first. Larger rotation numbers are older, the current
/// file is newest of all.
pub open spec fn spec_file_key(n: Seq<char>) -> int {
    if spec_is_current(n) {
        u32::MAX as int + 1
    } else {
        u32::MAX - spec_digits_val(spec_rotation_digits(n))
    }
}

/// The candidates among `names`, kept in their incoming order.
pub open spec fn spec_candidates(names: Seq<Seq<char>>) -> Seq<Seq<char>>
    decreases names.len(),
{
    if names.len() == 0 {
        Seq::empty()
    } else {
        let rest = spec_candidates(names.drop_last());
        if spec_is_candidate(names.last()) {
            rest.push(names.last())
        } else {
            rest
        }
    }
}

pub open spec fn names_view(names: Seq<String>) -> Seq<Seq<char>> {
    names.map_values(|n: String| n@)
}

/// Classifies one directory-entry name: `Some(key)` exactly when the name
/// is a candidate log file, with its chronological sort key.
fn classify_log_name(name: &String) -> (r: Option<u64>)
    ensures
        match r {
            Some(key) => spec_is_candidate(name@) && key == spec_file_key(name@),
            None => !spec_is_candidate(name@),
        },
{
    proof {
        reveal_strlit("history.log");
        reveal_strlit("history.log.");
        reveal_strlit(".gz");
    }
    let chars = chars_of(name.as_str());
    let n = chars.len();
    if range_eq_str(&chars, 0, n, "history.log") {
        assert(chars@.subrange(0, n as int) =~= name@);
        return Some(u32::MAX as u64 + 1);
    }
    assert(chars@.subrange(0, n as int) =~= name@);
    assert(!spec_is_current(name@));
    if n < 16 {
        return None;
    }
    if !range_eq_str(&chars, 0, 12, "history.log.") {
        return None;
    }
    if !range_eq_str(&chars, n - 3, n, ".gz") {
        return None;
    }
    let ghost digits = spec_rotation_digits(name@);
    let hi = n - 3;
    let mut val: u64 = 0;
    let mut j: usize = 12;
    proof {
        assert(name@.subrange(12, 12) =~= Seq::<char>::empty());
    }
    while j < hi
        invariant
            12 <= j <= hi,
            hi == name@.len() - 3,
            name@.len() >= 16,
            name@ == chars@,
            hi < chars@.len(),
            digits == spec_rotation_digits(name@),
            !spec_is_current(name@),
            forall|m: int| 12 <= m < j ==> spec_is_digit(#[trigger] name@[m]),
            spec_digits_val(name@.subrange(12, j as int)) <= u32::MAX ==> val == spec_digits_val(
                name@.subrange(12, j as int),
            ),
            spec_digits_val(name@.subrange(12, j as int)) > u32::MAX ==> val > u32::MAX,
            val <= u32::MAX as u64 * 10 + 9,
        decreases hi - j,
    {
        let c = chars[j];
        if !(c as u32 >= '0' as u32 && c as u32 <= '9' as u32) {
            assert(!spec_is_digit(name@[j as int]));
            assert(digits[j - 12] == name@[j as int]);
            assert(!spec_all_digits(digits));
            return None;
        }
        let d = (c as u32 - '0' as u32) as u64;
        let ghost pv = spec_digits_val(name@.subrange(12, j as int));
        let cap: u64 = u32::MAX as u64 + 1;
        if val >= cap {
            val = cap;
        } else {
            val = val * 10 + d;
        }
        proof {
            assert(name@.subrange(12, j + 1 as int).drop_last() =~= name@.subrange(12, j as int));
            assert(name@.subrange(12, j + 1 as int).last() == name@[j as int]);
            let pv2 = spec_digits_val(name@.subrange(12, j + 1 as int));
            assert(pv2 == pv * 10 + (name@[j as int] as u32 - '0' as u32));
            if pv > u32::MAX {
                assert(pv * 10 >= pv);
                assert(pv2 > u32::MAX);
            }
        }
        j += 1;
    }
    proof {
        assert(name@.subrange(12, j as int) =~= digits);
        assert(spec_all_digits(digits));
        assert(spec_is_rotated(name@));
    }
    if val > u32::MAX as u64 {
        assert(spec_digits_val(digits) > u32::MAX);
        return None;
    }
    assert(spec_digits_val(digits) <= u32::MAX);
    Some(u32::MAX as u64 - val)
}

struct Ranked {
    key: u64,
    name: String,
}

spec fn ranked_names(s: Seq<Ranked>) -> Seq<Seq<char>> {
    s.map_values(|r: Ranked| r.name@)
}

spec fn ranked_wf(s: Seq<Ranked>) -> bool {
    forall|i: int|
        0 <= i < s.len() ==> spec_is_candidate(#[trigger] s[i].name@) && s[i].key
            == spec_file_key(s[i].name@)
}

/// Keeps the candidate log-file names and returns them in chronological
/// order, oldest first: rotated files by descending rotation number, the
/// current file last. The result is a permutation of the candidates.
pub fn order_log_files(names: &Vec<String>) -> (r: Vec<String>)
    ensures
        names_view(r@).to_multiset() == spec_candidates(names_view(names@)).to_multiset(),
        forall|i: int, j: int|
            0 <= i < j < r@.len() ==> spec_file_key(#[trigger] r@[i]@) <= spec_file_key(
                #[trigger] r@[j]@,
            ),
        forall|i: int| 0 <= i < r@.len() ==> spec_is_candidate(#[trigger] r@[i]@),
{
    broadcast use vstd::seq_lib::group_to_multiset_ensures;

    let ghost nv = names_view(names@);
    let mut cands: Vec<Ranked> = Vec::new();
    let mut i: usize = 0;
    proof {
        assert(ranked_names(cands@) =~= Seq::<Seq<char>>::empty());
        assert(nv.subrange(0, 0) =~= Seq::<Seq<char>>::empty());
        assert(spec_candidates(nv.subrange(0, 0)) =~= Seq::<Seq<char>>::empty());
    }
    while i < names.len()
        invariant
            i <= names@.len(),
            nv == names_view(names@),
            ranked_names(cands@) == spec_candidates(nv.subrange(0, i as int)),
            ranked_wf(cands@),
        decreases names@.len() - i,
    {
        let ghost pre = ranked_names(cands@);
        match classify_log_name(&names[i]) {
            Some(key) => {
                cands.push(Ranked { key, name: names[i].clone() });
                proof {
                    assert(ranked_names(cands@) =~= pre.push(names@[i as int]@));
                }
            },
            None => {},
        }
        proof {
            assert(nv.subrange(0, i + 1 as int).drop_last() =~= nv.subrange(0, i as int));
            assert(nv.subrange(0, i + 1 as int).last() == names@[i as int]@);
        }
        i += 1;
    }
    proof {
        assert(nv.subrange(0, names@.len() as int) =~= nv);
    }
    let ghost all = ranked_names(cands@);
    let mut rest = cands;
    let mut sorted: Vec<Ranked> = Vec::new();
    proof {
        assert(ranked_names(sorted@) =~= Seq::<Seq<char>>::empty());
        assert(ranked_names(sorted@).to_multiset().add(ranked_names(rest@).to_multiset()) =~= all.to_multiset());
    }
    while rest.len() > 0
        invariant
            ranked_names(sorted@).to_multiset().add(ranked_names(rest@).to_multiset())
                == all.to_multiset(),
            ranked_wf(sorted@),
            ranked_wf(rest@),
            forall|a: int, b: int|
                0 <= a < b < sorted@.len() ==> sorted@[a].key <= sorted@[b].key,
            forall|a: int, b: int|
                0 <= a < sorted@.len() && 0 <= b < rest@.len() ==> sorted@[a].key <= rest@[b].key,
        decreases rest@.len(),
    {
        let mut m: usize = 0;
        let mut t: usize = 1;
        while t < rest.len()
            invariant
                m < t <= rest@.len() || (t <= rest@.len() && m < rest@.len()),
                m < rest@.len(),
                forall|b: int| 0 <= b < t ==> rest@[m as int].key <= #[trigger] rest@[b].key,
            decreases rest@.len() - t,
        {
            if rest[t].key < rest[m].key {
                m = t;
            }
            t += 1;
        }
        let ghost pre_sorted = ranked_names(sorted@);
        let ghost pre_rest = ranked_names(rest@);
        let x = rest.remove(m);
        sorted.push(x);
        proof {
            assert(ranked_names(sorted@) =~= pre_sorted.push(pre_rest[m as int]));
            assert(ranked_names(rest@) =~= pre_rest.remove(m as int));
            pre_sorted.to_multiset_ensures();
            pre_rest.to_multiset_ensures();
            assert(pre_sorted.push(pre_rest[m as int]).to_multiset() =~= pre_sorted.to_multiset()
                .insert(pre_rest[m as int]));
            assert(pre_rest.remove(m as int).to_multiset() =~= pre_rest.to_multiset().remove(
                pre_rest[m as int],
            ));
            assert(ranked_names(sorted@).to_multiset() =~= pre_sorted.to_multiset().insert(
                pre_rest[m as int],
            ));
            assert(ranked_names(rest@).to_multiset() =~= pre_rest.to_multiset().remove(
                pre_rest[m as int],
            ));
            assert(pre_rest.to_multiset().contains(pre_rest[m as int]));
            assert(ranked_names(sorted@).to_multiset().add(ranked_names(rest@).to_multiset())
                =~= all.to_multiset());
        }
    }
    let mut out: Vec<String> = Vec::new();
    let mut k: usize = 0;
    proof {
        assert(names_view(out@) =~= Seq::<Seq<char>>::empty());
        assert(ranked_names(rest@) =~= Seq::<Seq<char>>::empty());
        assert(ranked_names(sorted@).to_multiset().add(Seq::<Seq<char>>::empty().to_multiset())
            =~= ranked_names(sorted@).to_multiset());
    }
    while k < sorted.len()
        invariant
            k <= sorted@.len(),
            ranked_wf(sorted@),
            forall|a: int, b: int|
                0 <= a < b < sorted@.len() ==> sorted@[a].key <= sorted@[b].key,
            names_view(out@) == ranked_names(sorted@).subrange(0, k as int),
            forall|a: int| 0 <= a < k ==> out@[a]@ == sorted@[a].name@,
        decreases sorted@.len() - k,
    {
        let ghost pre = names_view(out@);
        out.push(sorted[k].name.clone());
        proof {
            assert(names_view(out@) =~= pre.push(sorted@[k as int].name@));
            assert(names_view(out@) =~= ranked_names(sorted@).subrange(0, k + 1 as int));
        }
        k += 1;
    }
    proof {
        assert(names_view(out@) =~= ranked_names(sorted@));
        assert(names_view(out@).to_multiset() == spec_candidates(nv).to_multiset());
        assert forall|a: int, b: int| 0 <= a < b < out@.len() implies spec_file_key(
            #[trigger] out@[a]@,
        ) <= spec_file_key(#[trigger] out@[b]@) by {
            assert(out@[a]@ == sorted@[a].name@);
            assert(out@[b]@ == sorted@[b].name@);
        }
    }
    out
}

} // verus!
