//! Building judge prompts and turning judge replies into verdicts.

use vstd::prelude::*;
use vstd::string::StringExecFns;
use crate::records::{EvaluationRecord, RecordView};
use crate::verdict::{Verdict, classify, classify_spec};
use crate::vote::{vote, winner, pool_of};

verus! {

/// The prompt that asks the judge about one record.
pub open spec fn prompt_spec(record: RecordView, instruction: Seq<char>) -> Seq<char> {
    "Consider the question: "@ + record.question + "\nGround truth: "@ + record.ground_truth
        + "\nGenerated answer: "@ + record.generated_answer + "\n\n"@ + instruction
}

/// The verdict for one record, from the outcomes of its judge calls, or
/// `None` where the judge could not be called at all.
pub open spec fn judged_spec(outcomes: Option<Vec<Option<String>>>) -> Verdict {
    match outcomes {
        Some(calls) => classify_spec(winner(pool_of(calls@))),
        None => Verdict::Error,
    }
}

/// Builds the prompt that asks the judge about `record`.
pub fn judge_prompt(record: &EvaluationRecord, instruction: &str) -> (r: String)
    ensures
        r@ == prompt_spec(record@, instruction@),
{
    let mut p = String::from_str("Consider the question: ");
    p.append(record.question.as_str());
    p.append("\nGround truth: ");
    p.append(record.ground_truth.as_str());
    p.append("\nGenerated answer: ");
    p.append(record.generated_answer.as_str());
    p.append("\n\n");
    p.append(instruction);
    p
}

/// The prompts for a list of records, one per record, in order.
pub fn prompts(records: &Vec<EvaluationRecord>, instruction: &str) -> (r: Vec<String>)
    ensures
        r.len() == records.len(),
        forall|i: int| 0 <= i < r.len() ==> r[i]@ == prompt_spec(records[i]@, instruction@),
{
    let mut r: Vec<String> = Vec::new();
    let mut i: usize = 0;
    while i < records.len()
        invariant
            i <= records.len(),
            r.len() == i,
            forall|j: int| 0 <= j < i ==> r[j]@ == prompt_spec(records[j]@, instruction@),
        decreases records.len() - i,
    {
        r.push(judge_prompt(&records[i], instruction));
        i = i + 1;
    }
    r
}

/// The verdict for one record: the class of the winning reply over its
/// outcomes, or the failure verdict for a record that the judge never saw.
pub fn judge(outcomes: &Option<Vec<Option<String>>>) -> (r: Verdict)
    ensures
        r == judged_spec(*outcomes),
{
    match outcomes {
        Some(calls) => {
            let reply = vote(calls);
            classify(reply.as_str())
        },
        None => Verdict::Error,
    }
}

/// The verdicts for a run, one per record and in record order, from the
/// outcomes of each record's judge calls.
pub fn evaluate(outcomes: &Vec<Option<Vec<Option<String>>>>) -> (r: Vec<Verdict>)
    ensures
        r.len() == outcomes.len(),
        forall|i: int| 0 <= i < r.len() ==> r[i] == judged_spec(outcomes[i]),
{
    let mut r: Vec<Verdict> = Vec::new();
    let mut i: usize = 0;
    while i < outcomes.len()
        invariant
            i <= outcomes.len(),
            r.len() == i,
            forall|j: int| 0 <= j < i ==> r[j] == judged_spec(outcomes[j]),
        decreases outcomes.len() - i,
    {
        r.push(judge(&outcomes[i]));
        i = i + 1;
    }
    r
}

} // verus!
