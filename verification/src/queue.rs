//! The download queue: jobs, merging listed objects into one job per key, status
//! counts, and the transfer-speed and time-left estimate.
use crate::keys::{
    lemma_insert_keeps_strict, locate_key, strictly_sorted_by_key, Keyed,
};
use crate::services::s3::S3ObjectSummary;
use crate::paths::{destination_with_separator, with_separator};
use crate::system::main_separator;
use crate::system::joined_path;
use crate::text::{chars_eq_str, lemma_lex_asymmetric, lemma_lex_irreflexive, lex_lt, str_chars};
use std::path::PathBuf;
use std::time::Instant;
use vstd::prelude::*;

verus! {

/// Where a queued download stands.
#[derive(Debug, Clone, Copy, PartialEq, Eq, Structural)]
pub enum QueueJobStatus {
    Pending,
    Running,
    Done,
    Failed,
}

/// One object to download.
#[derive(Debug, Clone)]
pub struct QueueJob {
    pub key: String,
    pub local_path: PathBuf,
    pub size: u64,
    pub status: QueueJobStatus,
    pub attempts: u8,
    pub error: Option<String>,
}

impl Keyed for QueueJob {
    open spec fn key_of(&self) -> Seq<char> {
        self.key@
    }

    fn key_chars(&self) -> (r: Vec<char>) {
        str_chars(self.key.as_str())
    }
}

impl Keyed for S3ObjectSummary {
    open spec fn key_of(&self) -> Seq<char> {
        self.key@
    }

    fn key_chars(&self) -> (r: Vec<char>) {
        str_chars(self.key.as_str())
    }
}

/// Progress of the download queue. Speed is whole bytes per second; time is measured
/// from `started_at`.
#[derive(Debug, Clone)]
pub struct QueueState {
    pub done_files: u64,
    pub total_files: u64,
    pub done_bytes: u64,
    pub total_bytes: u64,
    pub speed_bytes_per_sec: u64,
    pub eta: String,
    pub summary: String,
    pub started_at: Option<Instant>,
    pub jobs: Vec<QueueJob>,
}

/// The keys of `objs`.
pub open spec fn key_set(objs: Seq<S3ObjectSummary>) -> Set<Seq<char>> {
    objs.map_values(|o: S3ObjectSummary| o.key@).to_set()
}

/// The largest size listed for key `k` (0 when the key is not listed).
pub open spec fn max_size_for(objs: Seq<S3ObjectSummary>, k: Seq<char>) -> u64
    decreases objs.len(),
{
    if objs.len() == 0 {
        0
    } else {
        let m = max_size_for(objs.drop_last(), k);
        if objs.last().key@ == k && objs.last().size > m {
            objs.last().size
        } else {
            m
        }
    }
}

/// The modification time kept for key `k`: the first one listed, unless that is `-`
/// and a later one is not.
pub open spec fn merged_modified(objs: Seq<S3ObjectSummary>, k: Seq<char>) -> Seq<char>
    decreases objs.len(),
{
    if objs.len() == 0 {
        Seq::empty()
    } else {
        let prev = objs.drop_last();
        let o = objs.last();
        if o.key@ != k {
            merged_modified(prev, k)
        } else if !key_set(prev).contains(k) {
            o.modified@
        } else if merged_modified(prev, k) == "-"@ && o.modified@ != "-"@ {
            o.modified@
        } else {
            merged_modified(prev, k)
        }
    }
}

/// `merged` holds one summary per key of `objs`, in ascending key order, with the
/// largest size and the kept modification time of that key.
pub open spec fn merged_by_key(objs: Seq<S3ObjectSummary>, merged: Seq<S3ObjectSummary>) -> bool {
    &&& strictly_sorted_by_key(merged)
    &&& merged.map_values(|o: S3ObjectSummary| o.key@).to_set() == key_set(objs)
    &&& forall|i: int| 0 <= i < merged.len() ==> (#[trigger] merged[i]).size == max_size_for(objs, merged[i].key@)
    &&& forall|i: int| 0 <= i < merged.len() ==> (#[trigger] merged[i]).modified@ == merged_modified(objs, merged[i].key@)
}

proof fn lemma_key_set_push(objs: Seq<S3ObjectSummary>, o: S3ObjectSummary)
    ensures
        key_set(objs.push(o)) == key_set(objs).insert(o.key@),
{
    assert(objs.push(o).map_values(|o: S3ObjectSummary| o.key@) =~= objs.map_values(
        |o: S3ObjectSummary| o.key@,
    ).push(o.key@));
    objs.map_values(|o: S3ObjectSummary| o.key@).lemma_push_to_set_commute(o.key@);
}

/// The summed size of the summaries.
pub open spec fn summary_total(objs: Seq<S3ObjectSummary>) -> nat
    decreases objs.len(),
{
    if objs.len() == 0 {
        0
    } else {
        summary_total(objs.drop_last()) + objs.last().size as nat
    }
}

/// The summed size once duplicate keys are merged by maximum size.
pub open spec fn merged_total(objs: Seq<S3ObjectSummary>) -> nat
    decreases objs.len(),
{
    if objs.len() == 0 {
        0
    } else {
        let prev = objs.drop_last();
        let o = objs.last();
        let m = max_size_for(prev, o.key@);
        merged_total(prev) + if o.size > m {
            (o.size - m) as nat
        } else {
            0nat
        }
    }
}

proof fn lemma_summary_total_insert(s: Seq<S3ObjectSummary>, p: int, x: S3ObjectSummary)
    requires
        0 <= p <= s.len(),
    ensures
        summary_total(s.insert(p, x)) == summary_total(s) + x.size,
    decreases s.len(),
{
    if p < s.len() {
        let t = s.drop_last();
        lemma_summary_total_insert(t, p, x);
        assert(s.insert(p, x).drop_last() =~= t.insert(p, x));
        assert(s.insert(p, x).last() == s.last());
    } else {
        assert(s.insert(p, x) =~= s.push(x));
        assert(s.push(x).drop_last() =~= s);
    }
}

proof fn lemma_summary_total_update(s: Seq<S3ObjectSummary>, p: int, x: S3ObjectSummary)
    requires
        0 <= p < s.len(),
    ensures
        summary_total(s.update(p, x)) + s[p].size == summary_total(s) + x.size,
    decreases s.len(),
{
    let t = s.drop_last();
    if p < s.len() - 1 {
        lemma_summary_total_update(t, p, x);
        assert(s.update(p, x).drop_last() =~= t.update(p, x));
    } else {
        assert(s.update(p, x).drop_last() =~= t);
    }
}

/// One summary per key, in ascending key order: sizes merged by maximum, and a missing
/// (`-`) modification time filled in from a later listing.
pub fn merge_by_key(objects: &Vec<S3ObjectSummary>) -> (r: Vec<S3ObjectSummary>)
    ensures
        merged_by_key(objects@, r@),
        summary_total(r@) == merged_total(objects@),
{
    let ghost all = objects@;
    let mut merged: Vec<S3ObjectSummary> = Vec::new();
    assert(Seq::<S3ObjectSummary>::empty().map_values(|o: S3ObjectSummary| o.key@).to_set() =~= Set::<Seq<char>>::empty());
    assert(all.take(0) =~= Seq::<S3ObjectSummary>::empty());
    let mut done: usize = 0;
    while done < objects.len()
        invariant
            done <= objects.len(),
            all == objects@,
            merged_by_key(all.take(done as int), merged@),
            summary_total(merged@) == merged_total(all.take(done as int)),
        decreases objects.len() - done,
    {
        let ghost seen = all.take(done as int);
        let o = objects[done].duplicate();
        proof {
            assert(all.take(done + 1) =~= seen.push(o));
            lemma_key_set_push(seen, o);
        }
        let k = str_chars(o.key.as_str());
        let (p, found) = locate_key(&merged, &k);
        if found {
            let ghost mold = merged@;
            let existing = merged.remove(p);
            let size = if o.size > existing.size { o.size } else { existing.size };
            let keep_new = chars_eq_str(&str_chars(existing.modified.as_str()), "-")
                && !chars_eq_str(&str_chars(o.modified.as_str()), "-");
            let modified = if keep_new { o.modified } else { existing.modified };
            let entry = S3ObjectSummary { key: existing.key, size, modified };
            merged.insert(p, entry);
            proof {
                let next = seen.push(o);
                assert(merged@ =~= mold.update(p as int, entry));
                lemma_summary_total_update(mold, p as int, entry);
                assert(next.drop_last() =~= seen);
                assert(key_set(seen).contains(o.key@)) by {
                    assert(mold[p as int].key@ == o.key@);
                    assert(mold.map_values(|o: S3ObjectSummary| o.key@)[p as int] == o.key@);
                }
                assert(merged@.map_values(|o: S3ObjectSummary| o.key@) =~= mold.map_values(
                    |o: S3ObjectSummary| o.key@,
                ));
                assert(key_set(next) =~= key_set(seen));
                assert forall|i: int, j: int| 0 <= i < j < merged@.len() implies crate::text::lex_lt(
                    merged@[i].key_of(),
                    merged@[j].key_of(),
                ) by {
                    assert(merged@[i].key_of() == mold[i].key_of());
                    assert(merged@[j].key_of() == mold[j].key_of());
                }
                assert forall|i: int| 0 <= i < merged@.len() implies (#[trigger] merged@[i]).size
                    == max_size_for(next, merged@[i].key@) by {
                    assert(next.drop_last() =~= seen);
                    if i != p {
                        assert(merged@[i] == mold[i]);
                        crate::text::lemma_lex_irreflexive(o.key@);
                        if i < p {
                            assert(crate::text::lex_lt(mold[i].key_of(), mold[p as int].key_of()));
                        } else {
                            assert(crate::text::lex_lt(mold[p as int].key_of(), mold[i].key_of()));
                        }
                        assert(mold[i].key@ != o.key@);
                    }
                }
                assert forall|i: int| 0 <= i < merged@.len() implies (#[trigger] merged@[i]).modified@
                    == merged_modified(next, merged@[i].key@) by {
                    assert(next.drop_last() =~= seen);
                    if i != p {
                        assert(merged@[i] == mold[i]);
                        crate::text::lemma_lex_irreflexive(o.key@);
                        if i < p {
                            assert(crate::text::lex_lt(mold[i].key_of(), mold[p as int].key_of()));
                        } else {
                            assert(crate::text::lex_lt(mold[p as int].key_of(), mold[i].key_of()));
                        }
                        assert(mold[i].key@ != o.key@);
                    }
                }
            }
        } else {
            let ghost mold = merged@;
            proof {
                lemma_insert_keeps_strict(mold, p as int, o);
            }
            merged.insert(p, o);
            proof {
                let next = seen.push(o);
                assert(next.drop_last() =~= seen);
                assert(!key_set(seen).contains(o.key@)) by {
                    if key_set(seen).contains(o.key@) {
                        let ks = mold.map_values(|o: S3ObjectSummary| o.key@);
                        assert(ks.to_set().contains(o.key@));
                        let i = choose|i: int| 0 <= i < ks.len() && ks[i] == o.key@;
                        assert(mold[i].key_of() == k@);
                    }
                }
                assert(merged@ =~= mold.insert(p as int, o));
                lemma_summary_total_insert(mold, p as int, o);
                lemma_max_size_absent(seen, o.key@);
                let ks = merged@.map_values(|o: S3ObjectSummary| o.key@);
                let ko = mold.map_values(|o: S3ObjectSummary| o.key@);
                assert(ks =~= ko.insert(p as int, o.key@));
                assert(ks.to_set() =~= ko.to_set().insert(o.key@)) by {
                    assert forall|x: Seq<char>| ks.to_set().contains(x) implies ko.to_set().insert(
                        o.key@,
                    ).contains(x) by {
                        let i = choose|i: int| 0 <= i < ks.len() && ks[i] == x;
                        if i < p {
                            assert(ko[i] == x);
                        } else if i > p {
                            assert(ko[i - 1] == x);
                        }
                    }
                    assert forall|x: Seq<char>| ko.to_set().insert(o.key@).contains(x) implies ks.to_set().contains(x) by {
                        if x == o.key@ {
                            assert(ks[p as int] == x);
                        } else {
                            let i = choose|i: int| 0 <= i < ko.len() && ko[i] == x;
                            if i < p {
                                assert(ks[i] == x);
                            } else {
                                assert(ks[i + 1] == x);
                            }
                        }
                    }
                }
                assert forall|i: int| 0 <= i < merged@.len() implies (#[trigger] merged@[i]).size
                    == max_size_for(next, merged@[i].key@) by {
                    if i < p {
                        assert(merged@[i] == mold[i]);
                        assert(mold[i].key_of() != k@);
                    } else if i > p {
                        assert(merged@[i] == mold[i - 1]);
                        assert(mold[i - 1].key_of() != k@);
                    } else {
                        lemma_max_size_absent(seen, o.key@);
                    }
                }
                assert forall|i: int| 0 <= i < merged@.len() implies (#[trigger] merged@[i]).modified@
                    == merged_modified(next, merged@[i].key@) by {
                    if i < p {
                        assert(merged@[i] == mold[i]);
                        assert(mold[i].key_of() != k@);
                    } else if i > p {
                        assert(merged@[i] == mold[i - 1]);
                        assert(mold[i - 1].key_of() != k@);
                    }
                }
            }
        }
        done = done + 1;
    }
    assert(all.take(objects.len() as int) =~= all);
    merged
}

proof fn lemma_max_size_absent(objs: Seq<S3ObjectSummary>, k: Seq<char>)
    requires
        !key_set(objs).contains(k),
    ensures
        max_size_for(objs, k) == 0,
    decreases objs.len(),
{
    if objs.len() > 0 {
        let prev = objs.drop_last();
        assert(objs =~= prev.push(objs.last()));
        lemma_key_set_push(prev, objs.last());
        lemma_max_size_absent(prev, k);
    }
}

/// The first summary listed for key `k`.
pub open spec fn first_with_key(objs: Seq<S3ObjectSummary>, k: Seq<char>) -> S3ObjectSummary
    decreases objs.len(),
{
    if objs.len() == 0 {
        arbitrary()
    } else if key_set(objs.drop_last()).contains(k) {
        first_with_key(objs.drop_last(), k)
    } else {
        objs.last()
    }
}

/// `firsts` holds, in ascending key order, the first summary listed for each key of `objs`.
pub open spec fn first_by_key(objs: Seq<S3ObjectSummary>, firsts: Seq<S3ObjectSummary>) -> bool {
    &&& strictly_sorted_by_key(firsts)
    &&& firsts.map_values(|o: S3ObjectSummary| o.key@).to_set() == key_set(objs)
    &&& forall|i: int| 0 <= i < firsts.len() ==> #[trigger] firsts[i] == first_with_key(objs, firsts[i].key@)
}

/// The first summary for each key, in ascending key order.
pub fn keep_first_by_key(objects: &Vec<S3ObjectSummary>) -> (r: Vec<S3ObjectSummary>)
    ensures
        first_by_key(objects@, r@),
{
    let ghost all = objects@;
    let mut firsts: Vec<S3ObjectSummary> = Vec::new();
    assert(Seq::<S3ObjectSummary>::empty().map_values(|o: S3ObjectSummary| o.key@).to_set() =~= Set::<Seq<char>>::empty());
    assert(all.take(0) =~= Seq::<S3ObjectSummary>::empty());
    let mut done: usize = 0;
    while done < objects.len()
        invariant
            done <= objects.len(),
            all == objects@,
            first_by_key(all.take(done as int), firsts@),
        decreases objects.len() - done,
    {
        let ghost seen = all.take(done as int);
        let o = objects[done].duplicate();
        proof {
            assert(all.take(done + 1) =~= seen.push(o));
            assert(all.take(done + 1).drop_last() =~= seen);
            lemma_key_set_push(seen, o);
        }
        let k = str_chars(o.key.as_str());
        let (p, found) = locate_key(&firsts, &k);
        if found {
            proof {
                let next = seen.push(o);
                assert(key_set(seen).contains(o.key@)) by {
                    assert(firsts@.map_values(|o: S3ObjectSummary| o.key@)[p as int] == o.key@);
                }
                assert(key_set(next) =~= key_set(seen));
                assert forall|i: int| 0 <= i < firsts@.len() implies #[trigger] firsts@[i] == first_with_key(next, firsts@[i].key@) by {
                    let ki = firsts@[i].key@;
                    assert(firsts@.map_values(|o: S3ObjectSummary| o.key@)[i] == ki);
                    assert(key_set(seen).contains(ki));
                }
            }
        } else {
            let ghost fold = firsts@;
            proof {
                lemma_insert_keeps_strict(fold, p as int, o);
            }
            firsts.insert(p, o);
            proof {
                let next = seen.push(o);
                assert(!key_set(seen).contains(o.key@)) by {
                    if key_set(seen).contains(o.key@) {
                        let ks = fold.map_values(|o: S3ObjectSummary| o.key@);
                        assert(ks.to_set().contains(o.key@));
                        let i = choose|i: int| 0 <= i < ks.len() && ks[i] == o.key@;
                        assert(fold[i].key_of() == k@);
                    }
                }
                assert(firsts@ =~= fold.insert(p as int, o));
                let ks = firsts@.map_values(|o: S3ObjectSummary| o.key@);
                let ko = fold.map_values(|o: S3ObjectSummary| o.key@);
                assert(ks =~= ko.insert(p as int, o.key@));
                assert(ks.to_set() =~= ko.to_set().insert(o.key@)) by {
                    assert forall|x: Seq<char>| ks.to_set().contains(x) implies ko.to_set().insert(
                        o.key@,
                    ).contains(x) by {
                        let i = choose|i: int| 0 <= i < ks.len() && ks[i] == x;
                        if i < p {
                            assert(ko[i] == x);
                        } else if i > p {
                            assert(ko[i - 1] == x);
                        }
                    }
                    assert forall|x: Seq<char>| ko.to_set().insert(o.key@).contains(x) implies ks.to_set().contains(x) by {
                        if x == o.key@ {
                            assert(ks[p as int] == x);
                        } else {
                            let i = choose|i: int| 0 <= i < ko.len() && ko[i] == x;
                            if i < p {
                                assert(ks[i] == x);
                            } else {
                                assert(ks[i + 1] == x);
                            }
                        }
                    }
                }
                assert forall|i: int| 0 <= i < firsts@.len() implies #[trigger] firsts@[i] == first_with_key(next, firsts@[i].key@) by {
                    if i < p {
                        assert(firsts@[i] == fold[i]);
                        assert(fold[i].key_of() != k@);
                        assert(ko[i] == fold[i].key@);
                        assert(key_set(seen).contains(fold[i].key@));
                    } else if i > p {
                        assert(firsts@[i] == fold[i - 1]);
                        assert(fold[i - 1].key_of() != k@);
                        assert(ko[i - 1] == fold[i - 1].key@);
                        assert(key_set(seen).contains(fold[i - 1].key@));
                    }
                }
            }
        }
        done = done + 1;
    }
    assert(all.take(objects.len() as int) =~= all);
    firsts
}

/// How many jobs have status `st`.
pub open spec fn count_status(jobs: Seq<QueueJob>, st: QueueJobStatus) -> nat
    decreases jobs.len(),
{
    if jobs.len() == 0 {
        0
    } else {
        count_status(jobs.drop_last(), st) + if jobs.last().status == st {
            1nat
        } else {
            0nat
        }
    }
}

/// Every job is counted under exactly one status.
pub proof fn lemma_status_counts_partition(jobs: Seq<QueueJob>)
    ensures
        count_status(jobs, QueueJobStatus::Pending) + count_status(jobs, QueueJobStatus::Running)
            + count_status(jobs, QueueJobStatus::Done) + count_status(jobs, QueueJobStatus::Failed)
            == jobs.len(),
    decreases jobs.len(),
{
    if jobs.len() > 0 {
        lemma_status_counts_partition(jobs.drop_last());
    }
}

proof fn lemma_count_status_bound(jobs: Seq<QueueJob>, st: QueueJobStatus)
    ensures
        count_status(jobs, st) <= jobs.len(),
    decreases jobs.len(),
{
    if jobs.len() > 0 {
        lemma_count_status_bound(jobs.drop_last(), st);
    }
}

/// How many jobs have status `st`.
pub fn count_jobs_with(jobs: &Vec<QueueJob>, st: QueueJobStatus) -> (r: usize)
    ensures
        r == count_status(jobs@, st),
{
    let mut n: usize = 0;
    let mut i: usize = 0;
    while i < jobs.len()
        invariant
            i <= jobs.len(),
            n == count_status(jobs@.take(i as int), st),
        decreases jobs.len() - i,
    {
        proof {
            assert(jobs@.take(i + 1).drop_last() =~= jobs@.take(i as int));
            lemma_count_status_bound(jobs@.take(i as int), st);
        }
        if jobs[i].status == st {
            n = n + 1;
        }
        i = i + 1;
    }
    assert(jobs@.take(jobs.len() as int) =~= jobs@);
    n
}

/// The summed size of all jobs.
pub open spec fn total_size(jobs: Seq<QueueJob>) -> nat
    decreases jobs.len(),
{
    if jobs.len() == 0 {
        0
    } else {
        total_size(jobs.drop_last()) + jobs.last().size as nat
    }
}

/// Whether a job still has bytes to move: pending or running.
pub open spec fn is_unfinished(st: QueueJobStatus) -> bool {
    st == QueueJobStatus::Pending || st == QueueJobStatus::Running
}

/// The summed size of the unfinished jobs.
pub open spec fn remaining_size(jobs: Seq<QueueJob>) -> nat
    decreases jobs.len(),
{
    if jobs.len() == 0 {
        0
    } else {
        remaining_size(jobs.drop_last()) + if is_unfinished(jobs.last().status) {
            jobs.last().size as nat
        } else {
            0nat
        }
    }
}

/// Sum of the sizes of the jobs, which must fit in `u64`.
pub fn sum_job_sizes(jobs: &Vec<QueueJob>) -> (r: u64)
    requires
        total_size(jobs@) <= u64::MAX,
    ensures
        r == total_size(jobs@),
{
    let mut n: u64 = 0;
    let mut i: usize = 0;
    while i < jobs.len()
        invariant
            i <= jobs.len(),
            total_size(jobs@) <= u64::MAX,
            n == total_size(jobs@.take(i as int)),
        decreases jobs.len() - i,
    {
        proof {
            assert(jobs@.take(i + 1).drop_last() =~= jobs@.take(i as int));
            lemma_total_size_prefix(jobs@, i as int + 1);
        }
        n = n + jobs[i].size;
        i = i + 1;
    }
    assert(jobs@.take(jobs.len() as int) =~= jobs@);
    n
}

proof fn lemma_total_size_prefix(jobs: Seq<QueueJob>, i: int)
    requires
        0 <= i <= jobs.len(),
    ensures
        total_size(jobs.take(i)) <= total_size(jobs),
    decreases jobs.len(),
{
    if i < jobs.len() {
        assert(jobs.drop_last().take(i) =~= jobs.take(i));
        lemma_total_size_prefix(jobs.drop_last(), i);
    } else {
        assert(jobs.take(i) =~= jobs);
    }
}

proof fn lemma_remaining_size_prefix(jobs: Seq<QueueJob>, i: int)
    requires
        0 <= i <= jobs.len(),
    ensures
        remaining_size(jobs.take(i)) <= remaining_size(jobs),
    decreases jobs.len(),
{
    if i < jobs.len() {
        assert(jobs.drop_last().take(i) =~= jobs.take(i));
        lemma_remaining_size_prefix(jobs.drop_last(), i);
    } else {
        assert(jobs.take(i) =~= jobs);
    }
}

/// Sum of the sizes of the unfinished jobs, which must fit in `u64`.
pub fn sum_remaining_sizes(jobs: &Vec<QueueJob>) -> (r: u64)
    requires
        remaining_size(jobs@) <= u64::MAX,
    ensures
        r == remaining_size(jobs@),
{
    let mut n: u64 = 0;
    let mut i: usize = 0;
    while i < jobs.len()
        invariant
            i <= jobs.len(),
            remaining_size(jobs@) <= u64::MAX,
            n == remaining_size(jobs@.take(i as int)),
        decreases jobs.len() - i,
    {
        proof {
            assert(jobs@.take(i + 1).drop_last() =~= jobs@.take(i as int));
            lemma_remaining_size_prefix(jobs@, i as int + 1);
        }
        if jobs[i].status == QueueJobStatus::Pending || jobs[i].status == QueueJobStatus::Running {
            n = n + jobs[i].size;
        }
        i = i + 1;
    }
    assert(jobs@.take(jobs.len() as int) =~= jobs@);
    n
}

/// Transfer speed in bytes per second after `nanos` nanoseconds, capped at `u64::MAX`.
pub open spec fn speed_for(done_bytes: nat, nanos: nat) -> nat {
    let s = done_bytes * 1_000_000_000 / nanos;
    if s > u64::MAX {
        u64::MAX as nat
    } else {
        s
    }
}

/// Seconds left for `remaining` bytes at the average speed so far, rounded up and
/// capped at `u64::MAX`.
pub open spec fn eta_seconds_for(remaining: nat, done_bytes: nat, nanos: nat) -> nat {
    let num = remaining * nanos;
    let den = done_bytes * 1_000_000_000;
    let q = if num % den == 0 {
        num / den
    } else {
        num / den + 1
    };
    if q > u64::MAX {
        u64::MAX as nat
    } else {
        q
    }
}

/// The speed and the seconds left, for `done_bytes > 0` and `nanos > 0`.
pub fn transfer_rates(done_bytes: u64, remaining: u64, nanos: u64) -> (r: (u64, u64))
    requires
        done_bytes > 0,
        nanos > 0,
    ensures
        r.0 == speed_for(done_bytes as nat, nanos as nat),
        r.1 == eta_seconds_for(remaining as nat, done_bytes as nat, nanos as nat),
{
    let d: u128 = done_bytes as u128;
    let n: u128 = nanos as u128;
    let rem: u128 = remaining as u128;
    assert(d * 1_000_000_000 <= u64::MAX * 1_000_000_000) by (nonlinear_arith)
        requires
            d <= u64::MAX,
    ;
    let scaled: u128 = d * 1_000_000_000;
    let s = scaled / n;
    let speed: u64 = if s > u64::MAX as u128 {
        u64::MAX
    } else {
        s as u64
    };
    assert(rem * n <= u64::MAX * u64::MAX) by (nonlinear_arith)
        requires
            rem <= u64::MAX,
            n <= u64::MAX,
    ;
    let num: u128 = rem * n;
    let q0 = num / scaled;
    assert(q0 <= num) by (nonlinear_arith)
        requires
            scaled >= 1,
            q0 == num / scaled,
    ;
    let q: u128 = if num % scaled == 0 {
        q0
    } else {
        q0 + 1
    };
    let eta: u64 = if q > u64::MAX as u128 {
        u64::MAX
    } else {
        q as u64
    };
    (speed, eta)
}

/// Every job is saved under `root` at its key with `/` turned into `sep`.
pub open spec fn saved_under(root: PathBuf, sep: char, jobs: Seq<QueueJob>) -> bool {
    forall|i: int| 0 <= i < jobs.len() ==> (#[trigger] jobs[i]).local_path == joined_path(
        root,
        with_separator(jobs[i].key@, sep),
    )
}

/// `jobs` are fresh jobs for `objs`: one per key in ascending key order, all saved
/// under `root` at their keys with `/` turned into the platform's one separator, with
/// the largest listed size, pending, not yet attempted and without error.
pub open spec fn jobs_for(objs: Seq<S3ObjectSummary>, root: PathBuf, jobs: Seq<QueueJob>) -> bool {
    &&& strictly_sorted_by_key(jobs)
    &&& jobs.map_values(|j: QueueJob| j.key@).to_set() == key_set(objs)
    &&& exists|sep: char| #[trigger] saved_under(root, sep, jobs)
    &&& forall|i: int| 0 <= i < jobs.len() ==> {
        let j = #[trigger] jobs[i];
        &&& j.size == max_size_for(objs, j.key@)
        &&& j.status == QueueJobStatus::Pending
        &&& j.attempts == 0
        &&& j.error is None
    }
    &&& total_size(jobs) == merged_total(objs)
}

/// Fresh jobs for the listed objects, saved under `root`.
pub fn jobs_for_objects(objects: &Vec<S3ObjectSummary>, root: &PathBuf) -> (r: Vec<QueueJob>)
    ensures
        jobs_for(objects@, *root, r@),
{
    let merged = merge_by_key(objects);
    let sep = main_separator();
    let mut jobs: Vec<QueueJob> = Vec::new();
    let mut i: usize = 0;
    while i < merged.len()
        invariant
            i <= merged@.len(),
            saved_under(*root, sep, jobs@),
            merged_by_key(objects@, merged@),
            summary_total(merged@) == merged_total(objects@),
            jobs@.len() == i,
            forall|k: int| 0 <= k < i ==> {
                let j = #[trigger] jobs@[k];
                &&& j.key == merged@[k].key
                &&& j.size == merged@[k].size
                &&& j.status == QueueJobStatus::Pending
                &&& j.attempts == 0
                &&& j.error is None
            },
            total_size(jobs@) == summary_total(merged@.take(i as int)),
        decreases merged.len() - i,
    {
        let m = &merged[i];
        let key = m.key.clone();
        let key_text = key.as_str();
        let local_path = destination_with_separator(root, key_text, sep);
        let job = QueueJob {
            key,
            local_path,
            size: m.size,
            status: QueueJobStatus::Pending,
            attempts: 0,
            error: None,
        };
        assert(job.local_path == joined_path(*root, with_separator(job.key@, sep)));
        assert(jobs@.len() == i);
        let ghost before = jobs@;
        jobs.push(job);
        proof {
            assert(jobs@.drop_last() =~= before);
            assert(jobs@[i as int] == job);
            assert(merged@.take(i + 1).drop_last() =~= merged@.take(i as int));
        }
        i = i + 1;
    }
    proof {
        assert(saved_under(*root, sep, jobs@));
        assert(merged@.take(merged@.len() as int) =~= merged@);
        assert(jobs@.map_values(|j: QueueJob| j.key@) =~= merged@.map_values(|o: S3ObjectSummary| o.key@));
        assert forall|a: int, b: int| 0 <= a < b < jobs@.len() implies crate::text::lex_lt(
            jobs@[a].key_of(),
            jobs@[b].key_of(),
        ) by {
            assert(jobs@[a].key == merged@[a].key);
            assert(jobs@[b].key == merged@[b].key);
            assert(strictly_sorted_by_key(merged@));
            assert(crate::text::lex_lt(merged@[a].key_of(), merged@[b].key_of()));
        }
    }
    jobs
}

/// Whether the merged size of the objects fits in `u64`.
pub fn queue_total_fits(objects: &Vec<S3ObjectSummary>) -> (r: bool)
    ensures
        r == (merged_total(objects@) <= u64::MAX),
{
    let merged = merge_by_key(objects);
    let mut total: u128 = 0;
    let mut i: usize = 0;
    while i < merged.len()
        invariant
            i <= merged@.len(),
            total == summary_total(merged@.take(i as int)),
            total <= i * (u64::MAX as int),
            summary_total(merged@) == merged_total(objects@),
        decreases merged.len() - i,
    {
        proof {
            assert(merged@.take(i + 1).drop_last() =~= merged@.take(i as int));
            assert(i * (u64::MAX as int) + u64::MAX == (i + 1) * (u64::MAX as int)) by (nonlinear_arith);
            assert((i + 1) * (u64::MAX as int) <= usize::MAX * (u64::MAX as int)) by (nonlinear_arith)
                requires
                    i + 1 <= usize::MAX,
            ;
            assert(usize::MAX * (u64::MAX as int) <= u64::MAX * (u64::MAX as int)) by (nonlinear_arith)
                requires
                    usize::MAX <= u64::MAX,
            ;
        }
        total = total + merged[i].size as u128;
        i = i + 1;
    }
    assert(merged@.take(merged@.len() as int) =~= merged@);
    total <= u64::MAX as u128
}

/// Whether the unfinished jobs' sizes sum to at most `u64::MAX`.
pub fn remaining_fits(jobs: &Vec<QueueJob>) -> (r: bool)
    ensures
        r == (remaining_size(jobs@) <= u64::MAX),
{
    let mut n: u64 = 0;
    let mut i: usize = 0;
    while i < jobs.len()
        invariant
            i <= jobs.len(),
            n == remaining_size(jobs@.take(i as int)),
        decreases jobs.len() - i,
    {
        proof {
            assert(jobs@.take(i + 1).drop_last() =~= jobs@.take(i as int));
            lemma_remaining_size_prefix(jobs@, i as int + 1);
        }
        if jobs[i].status == QueueJobStatus::Pending || jobs[i].status == QueueJobStatus::Running {
            match n.checked_add(jobs[i].size) {
                Some(m) => n = m,
                None => return false,
            }
        }
        i = i + 1;
    }
    assert(jobs@.take(jobs.len() as int) =~= jobs@);
    true
}

/// The key and size of each summary.
pub open spec fn key_sizes(objs: Seq<S3ObjectSummary>) -> Seq<(Seq<char>, u64)> {
    objs.map_values(|o: S3ObjectSummary| (o.key@, o.size))
}

proof fn lemma_key_sizes_drop_last(a: Seq<S3ObjectSummary>, b: Seq<S3ObjectSummary>)
    requires
        key_sizes(a) == key_sizes(b),
        a.len() > 0,
    ensures
        key_sizes(a.drop_last()) == key_sizes(b.drop_last()),
        a.last().key@ == b.last().key@,
        a.last().size == b.last().size,
{
    assert(key_sizes(a).len() == a.len());
    assert(key_sizes(b).len() == b.len());
    assert(key_sizes(a)[a.len() - 1] == key_sizes(b)[b.len() - 1]);
    assert(key_sizes(a.drop_last()) =~= key_sizes(b.drop_last())) by {
        assert forall|i: int| 0 <= i < a.len() - 1 implies key_sizes(a.drop_last())[i] == key_sizes(
            b.drop_last(),
        )[i] by {
            assert(key_sizes(a)[i] == key_sizes(b)[i]);
        }
    }
}

proof fn lemma_key_set_of_key_sizes(a: Seq<S3ObjectSummary>, b: Seq<S3ObjectSummary>)
    requires
        key_sizes(a) == key_sizes(b),
    ensures
        key_set(a) == key_set(b),
{
    assert(key_sizes(a).len() == a.len());
    assert(key_sizes(b).len() == b.len());
    assert(a.map_values(|o: S3ObjectSummary| o.key@) =~= b.map_values(|o: S3ObjectSummary| o.key@)) by {
        assert forall|i: int| 0 <= i < a.len() implies a[i].key@ == b[i].key@ by {
            assert(key_sizes(a)[i] == key_sizes(b)[i]);
        }
    }
}

/// Merging by key looks at keys and sizes only.
pub proof fn lemma_merged_total_of_key_sizes(a: Seq<S3ObjectSummary>, b: Seq<S3ObjectSummary>)
    requires
        key_sizes(a) == key_sizes(b),
    ensures
        merged_total(a) == merged_total(b),
        forall|k: Seq<char>| max_size_for(a, k) == max_size_for(b, k),
    decreases a.len(),
{
    assert(key_sizes(a).len() == a.len());
    assert(key_sizes(b).len() == b.len());
    if a.len() > 0 {
        lemma_key_sizes_drop_last(a, b);
        lemma_merged_total_of_key_sizes(a.drop_last(), b.drop_last());
        assert forall|k: Seq<char>| max_size_for(a, k) == max_size_for(b, k) by {
            assert(max_size_for(a.drop_last(), k) == max_size_for(b.drop_last(), k));
        }
    }
}

proof fn lemma_first_with_key_of_key_sizes(a: Seq<S3ObjectSummary>, b: Seq<S3ObjectSummary>, k: Seq<char>)
    requires
        key_sizes(a) == key_sizes(b),
    ensures
        first_with_key(a, k).size == first_with_key(b, k).size,
    decreases a.len(),
{
    assert(key_sizes(a).len() == a.len());
    assert(key_sizes(b).len() == b.len());
    if a.len() > 0 {
        lemma_key_sizes_drop_last(a, b);
        lemma_key_set_of_key_sizes(a.drop_last(), b.drop_last());
        lemma_first_with_key_of_key_sizes(a.drop_last(), b.drop_last(), k);
    }
}

/// Two sequences whose keys strictly increase and form the same set have the same keys
/// in the same places.
pub proof fn lemma_sorted_keys_unique(f: Seq<S3ObjectSummary>, g: Seq<S3ObjectSummary>)
    requires
        strictly_sorted_by_key(f),
        strictly_sorted_by_key(g),
        f.map_values(|o: S3ObjectSummary| o.key@).to_set() == g.map_values(|o: S3ObjectSummary| o.key@).to_set(),
    ensures
        f.map_values(|o: S3ObjectSummary| o.key@) == g.map_values(|o: S3ObjectSummary| o.key@),
    decreases f.len(),
{
    let fk = f.map_values(|o: S3ObjectSummary| o.key@);
    let gk = g.map_values(|o: S3ObjectSummary| o.key@);
    if f.len() == 0 {
        if g.len() > 0 {
            assert(gk.to_set().contains(gk[0]));
            assert(fk =~= Seq::<Seq<char>>::empty());
        }
        assert(fk =~= gk);
    } else {
        if g.len() == 0 {
            assert(fk.to_set().contains(fk[0]));
            assert(gk =~= Seq::<Seq<char>>::empty());
        }
        let a = fk[0];
        let b = gk[0];
        assert(fk.to_set().contains(a));
        assert(gk.to_set().contains(b));
        let j = choose|j: int| 0 <= j < gk.len() && gk[j] == a;
        let i = choose|i: int| 0 <= i < fk.len() && fk[i] == b;
        if a != b {
            assert(j > 0 && i > 0);
            assert(lex_lt(g[0].key_of(), g[j].key_of()));
            assert(lex_lt(f[0].key_of(), f[i].key_of()));
            lemma_lex_asymmetric(a, b);
        }
        let f1 = f.drop_first();
        let g1 = g.drop_first();
        let fk1 = f1.map_values(|o: S3ObjectSummary| o.key@);
        let gk1 = g1.map_values(|o: S3ObjectSummary| o.key@);
        assert(fk1 =~= fk.drop_first());
        assert(gk1 =~= gk.drop_first());
        assert(fk1.to_set() =~= fk.to_set().remove(a)) by {
            assert forall|x: Seq<char>| fk1.to_set().contains(x) implies x != a by {
                let t = choose|t: int| 0 <= t < fk1.len() && fk1[t] == x;
                assert(lex_lt(f[0].key_of(), f[t + 1].key_of()));
                lemma_lex_irreflexive(a);
            }
            assert forall|x: Seq<char>| fk.to_set().contains(x) && x != a implies fk1.to_set().contains(x) by {
                let t = choose|t: int| 0 <= t < fk.len() && fk[t] == x;
                assert(fk1[t - 1] == x);
            }
        }
        assert(gk1.to_set() =~= gk.to_set().remove(b)) by {
            assert forall|x: Seq<char>| gk1.to_set().contains(x) implies x != b by {
                let t = choose|t: int| 0 <= t < gk1.len() && gk1[t] == x;
                assert(lex_lt(g[0].key_of(), g[t + 1].key_of()));
                lemma_lex_irreflexive(b);
            }
            assert forall|x: Seq<char>| gk.to_set().contains(x) && x != b implies gk1.to_set().contains(x) by {
                let t = choose|t: int| 0 <= t < gk.len() && gk[t] == x;
                assert(gk1[t - 1] == x);
            }
        }
        assert(strictly_sorted_by_key(f1)) by {
            assert forall|x: int, y: int| 0 <= x < y < f1.len() implies lex_lt(f1[x].key_of(), f1[y].key_of()) by {
                assert(f1[x] == f[x + 1] && f1[y] == f[y + 1]);
            }
        }
        assert(strictly_sorted_by_key(g1)) by {
            assert forall|x: int, y: int| 0 <= x < y < g1.len() implies lex_lt(g1[x].key_of(), g1[y].key_of()) by {
                assert(g1[x] == g[x + 1] && g1[y] == g[y + 1]);
            }
        }
        lemma_sorted_keys_unique(f1, g1);
        assert(fk =~= seq![a] + fk1);
        assert(gk =~= seq![b] + gk1);
    }
}

/// Keeping the first summary per key depends only on the keys and sizes listed, as far
/// as keys and sizes go.
pub proof fn lemma_first_by_key_of_key_sizes(
    a: Seq<S3ObjectSummary>,
    b: Seq<S3ObjectSummary>,
    fa: Seq<S3ObjectSummary>,
    fb: Seq<S3ObjectSummary>,
)
    requires
        key_sizes(a) == key_sizes(b),
        first_by_key(a, fa),
        first_by_key(b, fb),
    ensures
        key_sizes(fa) == key_sizes(fb),
        merged_total(fa) == merged_total(fb),
{
    lemma_key_set_of_key_sizes(a, b);
    lemma_sorted_keys_unique(fa, fb);
    let ka = fa.map_values(|o: S3ObjectSummary| o.key@);
    let kb = fb.map_values(|o: S3ObjectSummary| o.key@);
    assert(ka.len() == fa.len() && kb.len() == fb.len());
    assert(key_sizes(fa) =~= key_sizes(fb)) by {
        assert forall|i: int| 0 <= i < fa.len() implies key_sizes(fa)[i] == key_sizes(fb)[i] by {
            assert(ka[i] == kb[i]);
            lemma_first_with_key_of_key_sizes(a, b, fa[i].key@);
        }
    }
    lemma_merged_total_of_key_sizes(fa, fb);
}

/// How many jobs are finished: done or failed.
pub open spec fn finished_count(jobs: Seq<QueueJob>) -> nat {
    count_status(jobs, QueueJobStatus::Done) + count_status(jobs, QueueJobStatus::Failed)
}

/// Replacing one job changes its status's count by what was there and what comes in.
pub proof fn lemma_count_status_update(jobs: Seq<QueueJob>, i: int, x: QueueJob, st: QueueJobStatus)
    requires
        0 <= i < jobs.len(),
    ensures
        count_status(jobs.update(i, x), st) + (if jobs[i].status == st { 1nat } else { 0nat })
            == count_status(jobs, st) + (if x.status == st { 1nat } else { 0nat }),
    decreases jobs.len(),
{
    let u = jobs.update(i, x);
    if i < jobs.len() - 1 {
        assert(u.drop_last() =~= jobs.drop_last().update(i, x));
        lemma_count_status_update(jobs.drop_last(), i, x, st);
    } else {
        assert(u.drop_last() =~= jobs.drop_last());
    }
}

/// Counts depend only on which jobs have the status.
pub proof fn lemma_count_status_pointwise(a: Seq<QueueJob>, b: Seq<QueueJob>, st: QueueJobStatus)
    requires
        a.len() == b.len(),
        forall|i: int| 0 <= i < a.len() ==> (#[trigger] a[i].status == st) == (b[i].status == st),
    ensures
        count_status(a, st) == count_status(b, st),
    decreases a.len(),
{
    if a.len() > 0 {
        assert forall|i: int| 0 <= i < a.drop_last().len() implies (#[trigger] a.drop_last()[i].status == st)
            == (b.drop_last()[i].status == st) by {
            assert(a.drop_last()[i] == a[i] && b.drop_last()[i] == b[i]);
        }
        lemma_count_status_pointwise(a.drop_last(), b.drop_last(), st);
        assert(a.last().status == st <==> b.last().status == st) by {
            assert(a[a.len() - 1].status == st <==> b[a.len() - 1].status == st);
        }
    }
}

/// At most every job is finished.
pub proof fn lemma_finished_count_bound(jobs: Seq<QueueJob>)
    ensures
        finished_count(jobs) <= jobs.len(),
{
    lemma_status_counts_partition(jobs);
}

} // verus!
