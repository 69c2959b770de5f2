//! Accuracy per judged model.

use vstd::prelude::*;
use crate::records::{EvaluationRecord, RecordView, record_views};
use crate::verdict::Verdict;
use crate::vote::{occurrences, lemma_occurrences_bound};

verus! {

/// The share of `True` verdicts among the records of one judged model.
pub struct AccuracyEntry {
    pub model_identifier: String,
    /// How many of the model's records were judged `True`.
    pub correct: usize,
    /// How many records the model has.
    pub total: usize,
    /// The judge model that gave the verdicts.
    pub judge_model_identifier: String,
}

/// What an accuracy entry holds, as plain values.
pub struct AccuracyView {
    pub model_identifier: Seq<char>,
    pub correct: nat,
    pub total: nat,
    pub judge_model_identifier: Seq<char>,
}

impl View for AccuracyEntry {
    type V = AccuracyView;

    open spec fn view(&self) -> AccuracyView {
        AccuracyView {
            model_identifier: self.model_identifier@,
            correct: self.correct as nat,
            total: self.total as nat,
            judge_model_identifier: self.judge_model_identifier@,
        }
    }
}

/// The views of a list of entries.
pub open spec fn entry_views(v: Seq<AccuracyEntry>) -> Seq<AccuracyView> {
    v.map_values(|e: AccuracyEntry| e@)
}

/// The judged model of each record.
pub open spec fn models_of(records: Seq<RecordView>) -> Seq<Seq<char>> {
    records.map_values(|r: RecordView| r.judged_model)
}

/// The distinct models of a list, in the order they first occur.
pub open spec fn distinct_models(models: Seq<Seq<char>>) -> Seq<Seq<char>>
    decreases models.len(),
{
    if models.len() == 0 {
        Seq::empty()
    } else {
        let seen = distinct_models(models.drop_last());
        if seen.contains(models.last()) {
            seen
        } else {
            seen.push(models.last())
        }
    }
}

/// How many positions hold `model` and a `True` verdict.
pub open spec fn true_count(models: Seq<Seq<char>>, verdicts: Seq<Verdict>, model: Seq<char>) -> nat
    decreases models.len(),
{
    if models.len() == 0 || verdicts.len() == 0 {
        0
    } else {
        true_count(models.drop_last(), verdicts.drop_last(), model) + if models.last() == model
            && verdicts.last() == Verdict::True {
            1nat
        } else {
            0nat
        }
    }
}

/// One entry per distinct model, in the order the models first occur, from
/// equally long lists of models and verdicts.
pub open spec fn accuracy_of(models: Seq<Seq<char>>, verdicts: Seq<Verdict>, judge: Seq<char>) -> Seq<AccuracyView> {
    let seen = distinct_models(models);
    Seq::new(
        seen.len(),
        |k: int|
            AccuracyView {
                model_identifier: seen[k],
                correct: true_count(models, verdicts, seen[k]),
                total: occurrences(models, seen[k]),
                judge_model_identifier: judge,
            },
    )
}

/// The accuracy entries for records and their verdicts, paired by position
/// (as far as both lists go).
pub open spec fn aggregate_spec(records: Seq<RecordView>, verdicts: Seq<Verdict>, judge: Seq<char>) -> Seq<AccuracyView> {
    let n = if records.len() < verdicts.len() { records.len() } else { verdicts.len() };
    accuracy_of(models_of(records).take(n as int), verdicts.take(n as int), judge)
}

proof fn lemma_distinct_unique(models: Seq<Seq<char>>)
    ensures
        forall|a: int, b: int|
            0 <= a < b < distinct_models(models).len() ==> distinct_models(models)[a]
                != distinct_models(models)[b],
    decreases models.len(),
{
    if models.len() > 0 {
        lemma_distinct_unique(models.drop_last());
        let seen = distinct_models(models.drop_last());
        let last = models.last();
        if !seen.contains(last) {
            assert forall|a: int, b: int|
                0 <= a < b < seen.len() + 1 implies seen.push(last)[a] != seen.push(last)[b] by {
                assert(seen.push(last)[a] == seen[a]);
                if b < seen.len() {
                    assert(seen.push(last)[b] == seen[b]);
                }
            }
        }
    }
}

proof fn lemma_true_count_bound(models: Seq<Seq<char>>, verdicts: Seq<Verdict>, model: Seq<char>)
    ensures
        true_count(models, verdicts, model) <= occurrences(models, model),
    decreases models.len(),
{
    if models.len() > 0 {
        if verdicts.len() > 0 {
            lemma_true_count_bound(models.drop_last(), verdicts.drop_last(), model);
        }
    }
}

proof fn lemma_absent_counts(models: Seq<Seq<char>>, verdicts: Seq<Verdict>, model: Seq<char>)
    requires
        !distinct_models(models).contains(model),
    ensures
        occurrences(models, model) == 0,
        true_count(models, verdicts, model) == 0,
    decreases models.len(),
{
    if models.len() > 0 {
        let seen = distinct_models(models.drop_last());
        if seen.contains(models.last()) {
            assert(models.last() != model);
        } else {
            assert(distinct_models(models) == seen.push(models.last()));
            assert(seen.push(models.last()).last() == models.last());
            assert(models.last() != model);
            assert forall|k: int| 0 <= k < seen.len() implies seen[k] != model by {
                assert(seen.push(models.last())[k] == seen[k]);
            }
        }
        if verdicts.len() > 0 {
            lemma_absent_counts(models.drop_last(), verdicts.drop_last(), model);
        } else {
            lemma_absent_counts(models.drop_last(), verdicts, model);
        }
    }
}

/// Where an entry for `model` is in `entries`, if there is one.
fn position_of(entries: &Vec<AccuracyEntry>, model: &String) -> (r: Option<usize>)
    ensures
        r is Some ==> r->0 < entries.len() && entries[r->0 as int].model_identifier@ == model@,
        r is None ==> forall|k: int| 0 <= k < entries.len() ==> entries[k].model_identifier@ != model@,
{
    let mut k: usize = 0;
    while k < entries.len()
        invariant
            k <= entries.len(),
            forall|j: int| 0 <= j < k ==> entries[j].model_identifier@ != model@,
        decreases entries.len() - k,
    {
        if entries[k].model_identifier == *model {
            return Some(k);
        }
        k = k + 1;
    }
    None
}

/// Groups records with their verdicts (paired by position) by judged model and
/// counts, per model, its records and those judged `True`. The entries come in
/// the order the models first occur.
pub fn aggregate(records: &Vec<EvaluationRecord>, verdicts: &Vec<Verdict>, judge_model: &String) -> (r: Vec<AccuracyEntry>)
    ensures
        entry_views(r@) == aggregate_spec(record_views(records@), verdicts@, judge_model@),
{
    let n: usize = if records.len() < verdicts.len() { records.len() } else { verdicts.len() };
    let ghost models = models_of(record_views(records@)).take(n as int);
    let ghost vs = verdicts@.take(n as int);
    let mut entries: Vec<AccuracyEntry> = Vec::new();
    let mut i: usize = 0;
    while i < n
        invariant
            i <= n,
            n <= records.len(),
            n <= verdicts.len(),
            models == models_of(record_views(records@)).take(n as int),
            vs == verdicts@.take(n as int),
            entry_views(entries@) =~= accuracy_of(models.take(i as int), vs.take(i as int), judge_model@),
        decreases n - i,
    {
        let ghost m_prev = models.take(i as int);
        let ghost v_prev = vs.take(i as int);
        let ghost m_next = models.take(i + 1);
        let ghost v_next = vs.take(i + 1);
        let ghost model = models[i as int];
        proof {
            assert(m_next.drop_last() =~= m_prev);
            assert(v_next.drop_last() =~= v_prev);
            assert(m_next.last() == model);
            assert(model == records@[i as int].judged_model@);
            assert(v_next.last() == verdicts@[i as int]);
            lemma_distinct_unique(m_prev);
            assert forall|x: Seq<char>| occurrences(m_prev, x) <= i by {
                lemma_occurrences_bound(m_prev, x);
            }
            assert forall|x: Seq<char>|
                occurrences(m_next, x) == occurrences(m_prev, x) + if model == x {
                    1nat
                } else {
                    0nat
                } by {}
            assert forall|x: Seq<char>|
                true_count(m_next, v_next, x) == true_count(m_prev, v_prev, x) + if model == x
                    && verdicts@[i as int] == Verdict::True {
                    1nat
                } else {
                    0nat
                } by {}
        }
        let is_true = verdicts[i] == Verdict::True;
        let ghost before = entry_views(entries@);
        let ghost old_entries = entries@;
        match position_of(&entries, &records[i].judged_model) {
            Some(k) => {
                let correct = entries[k].correct;
                let total = entries[k].total;
                proof {
                    assert(before.len() == entries@.len());
                    assert(accuracy_of(m_prev, v_prev, judge_model@).len() == distinct_models(m_prev).len());
                    assert(before[k as int] == entries@[k as int]@);
                    assert(before[k as int] == accuracy_of(m_prev, v_prev, judge_model@)[k as int]);
                    assert(before[k as int].model_identifier == model);
                    assert(distinct_models(m_prev)[k as int] == model);
                    assert(total as nat == occurrences(m_prev, model));
                    lemma_true_count_bound(m_prev, v_prev, model);
                    assert(correct as nat == true_count(m_prev, v_prev, model));
                }
                entries[k].total = total + 1;
                if is_true {
                    entries[k].correct = correct + 1;
                }
                proof {
                    assert(before[k as int].model_identifier == model);
                    assert(distinct_models(m_prev).contains(model));
                    assert(distinct_models(m_next) == distinct_models(m_prev));
                    assert forall|j: int| 0 <= j < entries@.len() implies entry_views(entries@)[j]
                        == accuracy_of(m_next, v_next, judge_model@)[j] by {
                        let a_prev = accuracy_of(m_prev, v_prev, judge_model@);
                        let a_next = accuracy_of(m_next, v_next, judge_model@);
                        let x = distinct_models(m_prev)[j];
                        assert(before[j] == a_prev[j]);
                        assert(a_next[j].model_identifier == x);
                        assert(a_next[j].total == occurrences(m_next, x));
                        assert(a_next[j].correct == true_count(m_next, v_next, x));
                        if j != k {
                            assert(x != model);
                            assert(entries@[j] == old_entries[j]);
                            assert(entry_views(entries@)[j] == before[j]);
                        } else {
                            assert(x == model);
                            assert(entries@[j].total == total + 1);
                            assert(entries@[j].model_identifier == old_entries[j].model_identifier);
                            assert(entries@[j].judge_model_identifier == old_entries[j].judge_model_identifier);
                        }
                    }
                    assert(entry_views(entries@) =~= accuracy_of(m_next, v_next, judge_model@));
                }
            },
            None => {
                proof {
                    assert(before.len() == old_entries.len());
                    assert(accuracy_of(m_prev, v_prev, judge_model@).len() == distinct_models(m_prev).len());
                    assert(before.len() == distinct_models(m_prev).len());
                    assert forall|k: int| 0 <= k < distinct_models(m_prev).len() implies distinct_models(
                        m_prev,
                    )[k] != model by {
                        assert(before[k] == old_entries[k]@);
                        assert(before[k].model_identifier != model);
                    }
                    lemma_absent_counts(m_prev, v_prev, model);
                    assert(distinct_models(m_next) == distinct_models(m_prev).push(model));
                }
                let entry = AccuracyEntry {
                    model_identifier: records[i].judged_model.clone(),
                    correct: if is_true { 1 } else { 0 },
                    total: 1,
                    judge_model_identifier: judge_model.clone(),
                };
                entries.push(entry);
                proof {
                    let seen = distinct_models(m_prev);
                    assert(old_entries.len() == seen.len());
                    assert forall|j: int| 0 <= j < entries@.len() implies entry_views(entries@)[j]
                        == accuracy_of(m_next, v_next, judge_model@)[j] by {
                        let a_prev = accuracy_of(m_prev, v_prev, judge_model@);
                        let a_next = accuracy_of(m_next, v_next, judge_model@);
                        if j < seen.len() {
                            let x = seen[j];
                            assert(x != model);
                            assert(seen.push(model)[j] == x);
                            assert(before[j] == a_prev[j]);
                            assert(a_next[j].model_identifier == x);
                            assert(a_next[j].total == occurrences(m_next, x));
                            assert(a_next[j].correct == true_count(m_next, v_next, x));
                            assert(entries@[j] == old_entries[j]);
                            assert(entry_views(entries@)[j] == before[j]);
                        } else {
                            assert(seen.push(model)[j] == model);
                            assert(a_next[j].total == occurrences(m_next, model));
                            assert(a_next[j].correct == true_count(m_next, v_next, model));
                        }
                    }
                    assert(entry_views(entries@) =~= accuracy_of(m_next, v_next, judge_model@));
                }
            },
        }
        i = i + 1;
    }
    proof {
        assert(models.take(n as int) =~= models);
        assert(vs.take(n as int) =~= vs);
    }
    entries
}

/// Aggregating the same records and verdicts twice gives the same entries.
pub proof fn aggregate_is_deterministic(
    records: Seq<RecordView>,
    verdicts: Seq<Verdict>,
    judge: Seq<char>,
    first: Seq<AccuracyView>,
    second: Seq<AccuracyView>,
)
    requires
        first == aggregate_spec(records, verdicts, judge),
        second == aggregate_spec(records, verdicts, judge),
    ensures
        first == second,
{
}

} // verus!
