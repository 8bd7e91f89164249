//! Turning a set of selected keys into a download plan: folder prefixes that are inside
//! another selected folder, and objects inside a selected folder, are not fetched twice.
use crate::keys::{string_views, strictly_sorted, KeySet};
use crate::text::{chars_end_with, chars_starts_with, lemma_lex_asymmetric, lemma_lex_proper_prefix, lex_lt, str_chars};
use vstd::prelude::*;

verus! {

/// A key that names a folder: it ends with `/`.
pub open spec fn is_folder_key(k: Seq<char>) -> bool {
    k.len() > 0 && k.last() == '/'
}

/// The folder keys of `s`, in order.
pub open spec fn folder_keys(s: Seq<Seq<char>>) -> Seq<Seq<char>>
    decreases s.len(),
{
    if s.len() == 0 {
        Seq::empty()
    } else if is_folder_key(s.last()) {
        folder_keys(s.drop_last()).push(s.last())
    } else {
        folder_keys(s.drop_last())
    }
}

/// The object (non-folder) keys of `s`, in order.
pub open spec fn object_keys(s: Seq<Seq<char>>) -> Seq<Seq<char>>
    decreases s.len(),
{
    if s.len() == 0 {
        Seq::empty()
    } else if !is_folder_key(s.last()) {
        object_keys(s.drop_last()).push(s.last())
    } else {
        object_keys(s.drop_last())
    }
}

/// Whether one of `prefixes` begins `k`.
pub open spec fn covered_by(prefixes: Seq<Seq<char>>, k: Seq<char>) -> bool {
    exists|i: int| 0 <= i < prefixes.len() && prefixes[i].is_prefix_of(k)
}

/// The folder prefixes kept from `ps`, taken in order: a prefix is dropped when an
/// earlier kept prefix begins it.
pub open spec fn kept_prefixes(ps: Seq<Seq<char>>) -> Seq<Seq<char>>
    decreases ps.len(),
{
    if ps.len() == 0 {
        Seq::empty()
    } else {
        let kept = kept_prefixes(ps.drop_last());
        if covered_by(kept, ps.last()) {
            kept
        } else {
            kept.push(ps.last())
        }
    }
}

/// The object keys of `ks` that no prefix of `prefixes` begins, in order.
pub open spec fn uncovered_keys(ks: Seq<Seq<char>>, prefixes: Seq<Seq<char>>) -> Seq<Seq<char>>
    decreases ks.len(),
{
    if ks.len() == 0 {
        Seq::empty()
    } else if covered_by(prefixes, ks.last()) {
        uncovered_keys(ks.drop_last(), prefixes)
    } else {
        uncovered_keys(ks.drop_last(), prefixes).push(ks.last())
    }
}

/// The download plan for a selection: which folders to expand, which objects to fetch
/// directly, and how much of the selection was already covered.
#[derive(Debug)]
pub struct SelectionPlan {
    pub selected_prefix_count: usize,
    pub selected_object_count: usize,
    pub effective_prefixes: Vec<String>,
    pub effective_object_keys: Vec<String>,
    pub overlapping_prefixes_skipped: usize,
    pub covered_objects_skipped: usize,
}

/// The plan `p` is the one for the ascending selected keys `sel`.
pub open spec fn plan_for(sel: Seq<Seq<char>>, p: SelectionPlan) -> bool {
    let folders = folder_keys(sel);
    let objects = object_keys(sel);
    let kept = kept_prefixes(folders);
    let direct = uncovered_keys(objects, kept);
    &&& p.selected_prefix_count == folders.len()
    &&& p.selected_object_count == objects.len()
    &&& string_views(p.effective_prefixes@) == kept
    &&& string_views(p.effective_object_keys@) == direct
    &&& p.overlapping_prefixes_skipped == folders.len() - kept.len()
    &&& p.covered_objects_skipped == objects.len() - direct.len()
}

impl SelectionPlan {
    /// The plan for the selected keys.
    pub fn from_selected(selected: &KeySet) -> (r: Self)
        ensures
            plan_for(selected@, r),
    {
        let keys = selected.keys();
        let ghost sel = selected@;
        let mut prefixes: Vec<String> = Vec::new();
        let mut objects: Vec<String> = Vec::new();
        let mut i: usize = 0;
        while i < keys.len()
            invariant
                i <= keys.len(),
                string_views(keys@) == sel,
                string_views(prefixes@) == folder_keys(sel.take(i as int)),
                string_views(objects@) == object_keys(sel.take(i as int)),
                prefixes@.len() + objects@.len() == i,
            decreases keys.len() - i,
        {
            let k = keys[i].clone();
            let is_folder = crate::text::ends_with_char(&k, '/');
            proof {
                assert(sel.take(i + 1).drop_last() =~= sel.take(i as int));
                assert(sel.take(i + 1).last() == k@);
            }
            if is_folder {
                prefixes.push(k);
            } else {
                objects.push(k);
            }
            proof {
                assert(string_views(prefixes@) =~= folder_keys(sel.take(i + 1)));
                assert(string_views(objects@) =~= object_keys(sel.take(i + 1)));
            }
            i = i + 1;
        }
        assert(sel.take(keys.len() as int) =~= sel);
        let selected_prefix_count = prefixes.len();
        let selected_object_count = objects.len();

        let mut effective_prefixes: Vec<String> = Vec::new();
        let mut overlapping_prefixes_skipped: usize = 0;
        let ghost folders = folder_keys(sel);
        let mut j: usize = 0;
        while j < prefixes.len()
            invariant
                j <= prefixes.len() == selected_prefix_count,
                string_views(prefixes@) == folders,
                string_views(effective_prefixes@) == kept_prefixes(folders.take(j as int)),
                effective_prefixes@.len() + overlapping_prefixes_skipped == j,
            decreases prefixes.len() - j,
        {
            let p = str_chars(prefixes[j].as_str());
            let covered = Self::any_prefix_of(&effective_prefixes, &p);
            proof {
                assert(folders.take(j + 1).drop_last() =~= folders.take(j as int));
                assert(folders.take(j + 1).last() == p@);
            }
            if covered {
                overlapping_prefixes_skipped = overlapping_prefixes_skipped + 1;
            } else {
                effective_prefixes.push(prefixes[j].clone());
                assert(string_views(effective_prefixes@) =~= kept_prefixes(folders.take(j + 1)));
            }
            j = j + 1;
        }
        assert(folders.take(prefixes.len() as int) =~= folders);

        let ghost objs = object_keys(sel);
        let ghost kept = kept_prefixes(folders);
        let mut effective_object_keys: Vec<String> = Vec::new();
        let mut covered_objects_skipped: usize = 0;
        let mut m: usize = 0;
        while m < objects.len()
            invariant
                m <= objects.len() == selected_object_count,
                string_views(objects@) == objs,
                string_views(effective_prefixes@) == kept,
                string_views(effective_object_keys@) == uncovered_keys(objs.take(m as int), kept),
                effective_object_keys@.len() + covered_objects_skipped == m,
            decreases objects.len() - m,
        {
            let k = str_chars(objects[m].as_str());
            let covered = Self::any_prefix_of(&effective_prefixes, &k);
            proof {
                assert(objs.take(m + 1).drop_last() =~= objs.take(m as int));
                assert(objs.take(m + 1).last() == k@);
            }
            if covered {
                covered_objects_skipped = covered_objects_skipped + 1;
            } else {
                effective_object_keys.push(objects[m].clone());
                assert(string_views(effective_object_keys@) =~= uncovered_keys(
                    objs.take(m + 1),
                    kept,
                ));
            }
            m = m + 1;
        }
        assert(objs.take(objects.len() as int) =~= objs);
        SelectionPlan {
            selected_prefix_count,
            selected_object_count,
            effective_prefixes,
            effective_object_keys,
            overlapping_prefixes_skipped,
            covered_objects_skipped,
        }
    }

    /// Whether one of `prefixes` begins `k`.
    fn any_prefix_of(prefixes: &Vec<String>, k: &Vec<char>) -> (r: bool)
        ensures
            r == covered_by(string_views(prefixes@), k@),
    {
        let mut i: usize = 0;
        while i < prefixes.len()
            invariant
                i <= prefixes.len(),
                forall|x: int| 0 <= x < i ==> !(#[trigger] string_views(prefixes@)[x]).is_prefix_of(k@),
            decreases prefixes.len() - i,
        {
            let p = str_chars(prefixes[i].as_str());
            if chars_starts_with(k, &p) {
                assert(string_views(prefixes@)[i as int] == p@);
                return true;
            }
            i = i + 1;
        }
        false
    }
}

proof fn lemma_split_keys(s: Seq<Seq<char>>)
    ensures
        folder_keys(s).len() + object_keys(s).len() == s.len(),
        forall|x: Seq<char>| #[trigger] folder_keys(s).contains(x) ==> s.contains(x) && is_folder_key(x),
        forall|x: Seq<char>| #[trigger] object_keys(s).contains(x) ==> s.contains(x) && !is_folder_key(x),
        forall|x: Seq<char>| #[trigger] s.contains(x) ==> (is_folder_key(x) ==> folder_keys(s).contains(x)) && (!is_folder_key(x) ==> object_keys(s).contains(x)),
    decreases s.len(),
{
    if s.len() > 0 {
        let t = s.drop_last();
        lemma_split_keys(t);
        assert(s =~= t.push(s.last()));
        assert forall|x: Seq<char>| #[trigger] s.contains(x) implies (is_folder_key(x) ==> folder_keys(s).contains(x)) && (!is_folder_key(x) ==> object_keys(s).contains(x)) by {
            if x != s.last() {
                let i = choose|i: int| 0 <= i < s.len() && s[i] == x;
                assert(t[i] == x);
                assert(t.contains(x));
                if is_folder_key(x) {
                    let j = choose|j: int| 0 <= j < folder_keys(t).len() && folder_keys(t)[j] == x;
                    assert(folder_keys(s)[j] == x);
                } else {
                    let j = choose|j: int| 0 <= j < object_keys(t).len() && object_keys(t)[j] == x;
                    assert(object_keys(s)[j] == x);
                }
            } else {
                if is_folder_key(x) {
                    assert(folder_keys(s).last() == x);
                } else {
                    assert(object_keys(s).last() == x);
                }
            }
        }
        assert forall|x: Seq<char>| #[trigger] folder_keys(s).contains(x) implies s.contains(x) && is_folder_key(x) by {
            if folder_keys(s) != folder_keys(t) && x == s.last() {
            } else {
                let i = choose|i: int| 0 <= i < folder_keys(s).len() && folder_keys(s)[i] == x;
                if i < folder_keys(t).len() {
                    assert(folder_keys(t)[i] == x);
                    assert(folder_keys(t).contains(x));
                    let j = choose|j: int| 0 <= j < t.len() && t[j] == x;
                    assert(s[j] == x);
                }
            }
        }
        assert forall|x: Seq<char>| #[trigger] object_keys(s).contains(x) implies s.contains(x) && !is_folder_key(x) by {
            if object_keys(s) != object_keys(t) && x == s.last() {
            } else {
                let i = choose|i: int| 0 <= i < object_keys(s).len() && object_keys(s)[i] == x;
                if i < object_keys(t).len() {
                    assert(object_keys(t)[i] == x);
                    assert(object_keys(t).contains(x));
                    let j = choose|j: int| 0 <= j < t.len() && t[j] == x;
                    assert(s[j] == x);
                }
            }
        }
    }
}

proof fn lemma_folder_keys_sorted(s: Seq<Seq<char>>)
    requires
        strictly_sorted(s),
    ensures
        strictly_sorted(folder_keys(s)),
    decreases s.len(),
{
    if s.len() > 0 {
        let t = s.drop_last();
        assert(strictly_sorted(t));
        lemma_folder_keys_sorted(t);
        lemma_split_keys(t);
        if is_folder_key(s.last()) {
            let f = folder_keys(s);
            assert forall|i: int, j: int| 0 <= i < j < f.len() implies lex_lt(f[i], f[j]) by {
                if j == f.len() - 1 {
                    assert(folder_keys(t).contains(f[i]));
                    let k = choose|k: int| 0 <= k < t.len() && t[k] == f[i];
                    assert(s[k] == f[i]);
                }
            }
        }
    }
}

proof fn lemma_kept_prefixes(ps: Seq<Seq<char>>)
    ensures
        forall|x: Seq<char>| #[trigger] ps.contains(x) ==> covered_by(kept_prefixes(ps), x),
        forall|x: Seq<char>| #[trigger] kept_prefixes(ps).contains(x) ==> ps.contains(x),
        kept_prefixes(ps).len() <= ps.len(),
        strictly_sorted(ps) ==> forall|i: int, j: int|
            0 <= i < kept_prefixes(ps).len() && 0 <= j < kept_prefixes(ps).len() && i != j
                ==> !(#[trigger] kept_prefixes(ps)[i]).is_prefix_of(#[trigger] kept_prefixes(ps)[j]),
    decreases ps.len(),
{
    if ps.len() > 0 {
        let t = ps.drop_last();
        let last = ps.last();
        let kt = kept_prefixes(t);
        lemma_kept_prefixes(t);
        let k = kept_prefixes(ps);
        assert(ps =~= t.push(last));
        assert forall|x: Seq<char>| #[trigger] ps.contains(x) implies covered_by(k, x) by {
            if x == last {
                if !covered_by(kt, last) {
                    assert(k[k.len() - 1] == last);
                    assert(last.is_prefix_of(x));
                }
            } else {
                let i = choose|i: int| 0 <= i < ps.len() && ps[i] == x;
                assert(t[i] == x);
                assert(t.contains(x));
                assert(covered_by(kt, x));
                let j = choose|j: int| 0 <= j < kt.len() && kt[j].is_prefix_of(x);
                assert(k[j] == kt[j]);
            }
        }
        assert forall|x: Seq<char>| #[trigger] k.contains(x) implies ps.contains(x) by {
            let i = choose|i: int| 0 <= i < k.len() && k[i] == x;
            if i < kt.len() {
                assert(kt[i] == x);
                assert(kt.contains(x));
                let j = choose|j: int| 0 <= j < t.len() && t[j] == x;
                assert(ps[j] == x);
            } else {
                assert(x == last);
                assert(ps[ps.len() - 1] == x);
            }
        }
        if strictly_sorted(ps) {
            assert(strictly_sorted(t));
            if !covered_by(kt, last) {
                assert forall|i: int, j: int|
                    0 <= i < k.len() && 0 <= j < k.len() && i != j
                        implies !(#[trigger] k[i]).is_prefix_of(#[trigger] k[j]) by {
                    if i == k.len() - 1 {
                        assert(kt.contains(k[j]));
                        assert(t.contains(k[j]));
                        let m = choose|m: int| 0 <= m < t.len() && t[m] == k[j];
                        assert(lex_lt(k[j], last));
                        if last.is_prefix_of(k[j]) {
                            if last.len() < k[j].len() {
                                lemma_lex_proper_prefix(last, k[j]);
                                lemma_lex_asymmetric(k[j], last);
                            } else {
                                assert(last =~= k[j]);
                                crate::text::lemma_lex_irreflexive(last);
                            }
                        }
                    } else if j == k.len() - 1 {
                        assert(k[i] == kt[i]);
                    } else {
                        assert(k[i] == kt[i]);
                        assert(k[j] == kt[j]);
                    }
                }
            }
        }
    }
}

proof fn lemma_uncovered_keys(ks: Seq<Seq<char>>, ps: Seq<Seq<char>>)
    ensures
        forall|x: Seq<char>| #[trigger] ks.contains(x) ==> covered_by(ps, x) || uncovered_keys(ks, ps).contains(x),
        forall|x: Seq<char>| #[trigger] uncovered_keys(ks, ps).contains(x) ==> ks.contains(x) && !covered_by(ps, x),
        uncovered_keys(ks, ps).len() <= ks.len(),
    decreases ks.len(),
{
    if ks.len() > 0 {
        let t = ks.drop_last();
        lemma_uncovered_keys(t, ps);
        let u = uncovered_keys(ks, ps);
        let ut = uncovered_keys(t, ps);
        assert(ks =~= t.push(ks.last()));
        assert forall|x: Seq<char>| #[trigger] ks.contains(x) implies covered_by(ps, x) || u.contains(x) by {
            if x == ks.last() {
                if !covered_by(ps, x) {
                    assert(u[u.len() - 1] == x);
                }
            } else {
                let i = choose|i: int| 0 <= i < ks.len() && ks[i] == x;
                assert(t[i] == x);
                assert(t.contains(x));
                if ut.contains(x) {
                    let j = choose|j: int| 0 <= j < ut.len() && ut[j] == x;
                    assert(u[j] == x);
                }
            }
        }
        assert forall|x: Seq<char>| #[trigger] u.contains(x) implies ks.contains(x) && !covered_by(ps, x) by {
            let i = choose|i: int| 0 <= i < u.len() && u[i] == x;
            if i < ut.len() {
                assert(ut[i] == x);
                assert(ut.contains(x));
                let j = choose|j: int| 0 <= j < t.len() && t[j] == x;
                assert(ks[j] == x);
            } else {
                assert(ks[ks.len() - 1] == x);
            }
        }
    }
}

/// What a plan guarantees about the ascending selection `sel` it is made from:
/// every selected key is either a folder to expand, an object to fetch, or lies inside a
/// folder to expand; everything the plan fetches was selected; the folders to expand do
/// not contain one another; no direct object lies inside one of them; and the counts add up.
pub proof fn lemma_plan_covers_selection(sel: Seq<Seq<char>>)
    requires
        strictly_sorted(sel),
    ensures
        ({
            let folders = folder_keys(sel);
            let objects = object_keys(sel);
            let kept = kept_prefixes(folders);
            let direct = uncovered_keys(objects, kept);
            &&& folders.len() + objects.len() == sel.len()
            &&& kept.len() <= folders.len()
            &&& direct.len() <= objects.len()
            &&& forall|k: Seq<char>| #[trigger] sel.contains(k) ==> covered_by(kept, k) || direct.contains(k)
            &&& forall|k: Seq<char>| #[trigger] kept.contains(k) ==> sel.contains(k) && is_folder_key(k)
            &&& forall|k: Seq<char>| #[trigger] direct.contains(k) ==> sel.contains(k) && !is_folder_key(k) && !covered_by(kept, k)
            &&& forall|i: int, j: int| 0 <= i < kept.len() && 0 <= j < kept.len() && i != j
                ==> !(#[trigger] kept[i]).is_prefix_of(#[trigger] kept[j])
        }),
{
    let folders = folder_keys(sel);
    let objects = object_keys(sel);
    let kept = kept_prefixes(folders);
    lemma_split_keys(sel);
    lemma_folder_keys_sorted(sel);
    lemma_kept_prefixes(folders);
    lemma_uncovered_keys(objects, kept);
    assert forall|k: Seq<char>| #[trigger] sel.contains(k) implies covered_by(kept, k) || uncovered_keys(objects, kept).contains(k) by {
        if is_folder_key(k) {
            assert(folders.contains(k));
        } else {
            assert(objects.contains(k));
        }
    }
    assert forall|k: Seq<char>| #[trigger] kept.contains(k) implies sel.contains(k) && is_folder_key(k) by {
        assert(folders.contains(k));
    }
    assert forall|k: Seq<char>| #[trigger] uncovered_keys(objects, kept).contains(k) implies sel.contains(k) && !is_folder_key(k) && !covered_by(kept, k) by {
        assert(objects.contains(k));
    }
}

} // verus!
