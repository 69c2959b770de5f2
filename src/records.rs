//! Reference answers and the merge of generated answers with them.

use vstd::prelude::*;
use vstd::string::StringExecFns;

verus! {

/// The fewest cells a row of generated answers must hold: every column that
/// a record reads.
pub const MIN_COLUMNS: usize = 18;

/// How many retrieved contexts a record holds.
pub const CONTEXT_SLOTS: usize = 10;

/// The column of the first retrieved context.
pub const FIRST_CONTEXT_COLUMN: usize = 6;

/// The reference answer recorded for a question that has none.
pub open spec fn not_found() -> Seq<char> {
    "N/A"@
}

/// One cell of a sheet.
pub enum Cell {
    Empty,
    /// A text cell, with the bit pattern of the `f64` that its trimmed text
    /// reads as, where it reads as one.
    Text(String, Option<u64>),
    /// A number cell: its display text and the bit pattern of its `f64` value.
    Number(String, u64),
    /// Any other cell, by its display text.
    Other(String),
}

impl Cell {
    /// The cell's display text.
    pub open spec fn text_view(&self) -> Seq<char> {
        match self {
            Cell::Empty => Seq::empty(),
            Cell::Text(s, _) => s@,
            Cell::Number(s, _) => s@,
            Cell::Other(s) => s@,
        }
    }

    /// The elapsed seconds the cell holds, as `f64` bits; `0` (the bits of
    /// `0.0`) where it holds no readable number.
    pub open spec fn seconds_view(&self) -> u64 {
        match self {
            Cell::Text(_, Some(bits)) => *bits,
            Cell::Number(_, bits) => *bits,
            _ => 0,
        }
    }

    /// The cell's display text.
    pub fn text(&self) -> (r: String)
        ensures
            r@ == self.text_view(),
    {
        match self {
            Cell::Empty => String::new(),
            Cell::Text(s, _) => s.clone(),
            Cell::Number(s, _) => s.clone(),
            Cell::Other(s) => s.clone(),
        }
    }

    /// The elapsed seconds the cell holds, as `f64` bits.
    pub fn seconds_bits(&self) -> (r: u64)
        ensures
            r == self.seconds_view(),
    {
        match self {
            Cell::Text(_, Some(bits)) => *bits,
            Cell::Number(_, bits) => *bits,
            _ => 0,
        }
    }
}

/// The entries of an index, in the order they were added, as a map in which a
/// later entry for a question replaces an earlier one.
pub open spec fn map_upto(questions: Seq<String>, answers: Seq<String>, n: int) -> Map<Seq<char>, Seq<char>>
    decreases n,
{
    if n <= 0 {
        Map::empty()
    } else {
        map_upto(questions, answers, n - 1).insert(questions[n - 1]@, answers[n - 1]@)
    }
}

/// Reference answers by exact question text.
pub struct GroundTruth {
    questions: Vec<String>,
    answers: Vec<String>,
}

impl View for GroundTruth {
    type V = Map<Seq<char>, Seq<char>>;

    closed spec fn view(&self) -> Map<Seq<char>, Seq<char>> {
        map_upto(self.questions@, self.answers@, self.questions@.len() as int)
    }
}

impl GroundTruth {
    /// Each question has its answer beside it.
    pub closed spec fn wf(&self) -> bool {
        self.questions@.len() == self.answers@.len()
    }

    /// An index without entries.
    pub fn new() -> (r: GroundTruth)
        ensures
            r.wf(),
            r@ == Map::<Seq<char>, Seq<char>>::empty(),
    {
        GroundTruth { questions: Vec::new(), answers: Vec::new() }
    }

    /// Records `answer` for `question`, replacing an earlier one.
    pub fn insert(&mut self, question: String, answer: String)
        requires
            old(self).wf(),
        ensures
            final(self).wf(),
            final(self)@ == old(self)@.insert(question@, answer@),
    {
        let ghost q = question@;
        let ghost a = answer@;
        self.questions.push(question);
        self.answers.push(answer);
        proof {
            let n = self.questions@.len() as int;
            assert(map_upto(self.questions@, self.answers@, n - 1) == map_upto(
                old(self).questions@,
                old(self).answers@,
                n - 1,
            )) by {
                lemma_map_upto_prefix(
                    old(self).questions@,
                    old(self).answers@,
                    self.questions@,
                    self.answers@,
                    n - 1,
                );
            }
        }
    }

    /// The reference answer for `question`, if there is one.
    pub fn get(&self, question: &String) -> (r: Option<String>)
        requires
            self.wf(),
        ensures
            r is Some <==> self@.contains_key(question@),
            r is Some ==> r->0@ == self@[question@],
    {
        let mut j: usize = self.questions.len();
        while j > 0
            invariant
                j <= self.questions@.len(),
                self.wf(),
                self@.contains_key(question@) == map_upto(self.questions@, self.answers@, j as int).contains_key(question@),
                self@.contains_key(question@) ==> self@[question@] == map_upto(self.questions@, self.answers@, j as int)[question@],
            decreases j,
        {
            if self.questions[j - 1] == *question {
                return Some(self.answers[j - 1].clone());
            }
            j = j - 1;
        }
        None
    }
}

proof fn lemma_map_upto_prefix(
    q1: Seq<String>,
    a1: Seq<String>,
    q2: Seq<String>,
    a2: Seq<String>,
    n: int,
)
    requires
        0 <= n <= q1.len(),
        n <= a1.len(),
        n <= q2.len(),
        n <= a2.len(),
        forall|i: int| 0 <= i < n ==> q1[i] == q2[i] && a1[i] == a2[i],
    ensures
        map_upto(q1, a1, n) == map_upto(q2, a2, n),
    decreases n,
{
    if n > 0 {
        lemma_map_upto_prefix(q1, a1, q2, a2, n - 1);
    }
}

/// The texts of a row's cells.
pub open spec fn row_texts(row: Seq<Cell>) -> Seq<Seq<char>> {
    row.map_values(|c: Cell| c.text_view())
}

/// The index built from the rows of a reference sheet (header excluded):
/// each row of at least three cells maps the text of its second cell to that
/// of its third, a later row for a question replacing an earlier one.
pub open spec fn index_of_rows(rows: Seq<Seq<Cell>>) -> Map<Seq<char>, Seq<char>>
    decreases rows.len(),
{
    if rows.len() == 0 {
        Map::empty()
    } else {
        let rest = index_of_rows(rows.drop_last());
        let row = rows.last();
        if row.len() >= 3 {
            rest.insert(row[1].text_view(), row[2].text_view())
        } else {
            rest
        }
    }
}

/// One generated answer, ready to be judged.
pub struct EvaluationRecord {
    pub branch_name: String,
    pub embedding_model: String,
    pub judged_model: String,
    pub question_id: String,
    pub question: String,
    pub ground_truth: String,
    pub generated_answer: String,
    pub retrieved_contexts: Vec<String>,
    /// The elapsed seconds as the bit pattern of an `f64`.
    pub elapsed_seconds_bits: u64,
    pub date: String,
}

/// What a record holds, as plain values.
pub struct RecordView {
    pub branch_name: Seq<char>,
    pub embedding_model: Seq<char>,
    pub judged_model: Seq<char>,
    pub question_id: Seq<char>,
    pub question: Seq<char>,
    pub ground_truth: Seq<char>,
    pub generated_answer: Seq<char>,
    pub retrieved_contexts: Seq<Seq<char>>,
    pub elapsed_seconds_bits: u64,
    pub date: Seq<char>,
}

impl View for EvaluationRecord {
    type V = RecordView;

    open spec fn view(&self) -> RecordView {
        RecordView {
            branch_name: self.branch_name@,
            embedding_model: self.embedding_model@,
            judged_model: self.judged_model@,
            question_id: self.question_id@,
            question: self.question@,
            ground_truth: self.ground_truth@,
            generated_answer: self.generated_answer@,
            retrieved_contexts: self.retrieved_contexts@.map_values(|c: String| c@),
            elapsed_seconds_bits: self.elapsed_seconds_bits,
            date: self.date@,
        }
    }
}

/// The views of a list of records.
pub open spec fn record_views(v: Seq<EvaluationRecord>) -> Seq<RecordView> {
    v.map_values(|r: EvaluationRecord| r@)
}

/// The reference answer for `question`, or the not-found marker.
pub open spec fn answer_for(index: Map<Seq<char>, Seq<char>>, question: Seq<char>) -> Seq<char> {
    if index.contains_key(question) {
        index[question]
    } else {
        not_found()
    }
}

/// The record for a row of generated answers that holds every column.
pub open spec fn record_of(row: Seq<Cell>, index: Map<Seq<char>, Seq<char>>) -> RecordView {
    RecordView {
        branch_name: row[0].text_view(),
        embedding_model: row[1].text_view(),
        judged_model: row[2].text_view(),
        question_id: row[3].text_view(),
        question: row[4].text_view(),
        ground_truth: answer_for(index, row[4].text_view()),
        generated_answer: row[5].text_view(),
        retrieved_contexts: Seq::new(
            CONTEXT_SLOTS as nat,
            |k: int| row[FIRST_CONTEXT_COLUMN + k].text_view(),
        ),
        elapsed_seconds_bits: row[16].seconds_view(),
        date: row[17].text_view(),
    }
}

/// The records for rows of generated answers, in row order; a row with fewer
/// than `MIN_COLUMNS` cells gives none.
pub open spec fn merge_spec(rows: Seq<Seq<Cell>>, index: Map<Seq<char>, Seq<char>>) -> Seq<RecordView>
    decreases rows.len(),
{
    if rows.len() == 0 {
        Seq::empty()
    } else {
        let rest = merge_spec(rows.drop_last(), index);
        if rows.last().len() >= MIN_COLUMNS {
            rest.push(record_of(rows.last(), index))
        } else {
            rest
        }
    }
}

/// The rows of a sheet as sequences of cells.
pub open spec fn rows_view(rows: Seq<Vec<Cell>>) -> Seq<Seq<Cell>> {
    rows.map_values(|r: Vec<Cell>| r@)
}

/// Builds the index of reference answers from the rows of a reference sheet,
/// the header row excluded.
pub fn ground_truth_from_rows(rows: &Vec<Vec<Cell>>) -> (r: GroundTruth)
    ensures
        r.wf(),
        r@ == index_of_rows(rows_view(rows@)),
{
    let ghost all = rows_view(rows@);
    let mut index = GroundTruth::new();
    let mut i: usize = 0;
    while i < rows.len()
        invariant
            i <= rows.len(),
            all == rows_view(rows@),
            index.wf(),
            index@ == index_of_rows(all.subrange(0, i as int)),
        decreases rows.len() - i,
    {
        proof {
            assert(all.subrange(0, i + 1).drop_last() =~= all.subrange(0, i as int));
        }
        let row = &rows[i];
        if row.len() >= 3 {
            let question = row[1].text();
            let answer = row[2].text();
            index.insert(question, answer);
        }
        i = i + 1;
    }
    proof {
        assert(all.subrange(0, rows.len() as int) =~= all);
    }
    index
}

/// The record for one row of generated answers that holds every column.
pub fn record_from_row(row: &Vec<Cell>, index: &GroundTruth) -> (r: EvaluationRecord)
    requires
        row.len() >= MIN_COLUMNS,
        index.wf(),
    ensures
        r@ == record_of(row@, index@),
{
    let question = row[4].text();
    let ground_truth = match index.get(&question) {
        Some(answer) => answer,
        None => String::from_str("N/A"),
    };
    let mut contexts: Vec<String> = Vec::new();
    let mut k: usize = 0;
    while k < CONTEXT_SLOTS
        invariant
            k <= CONTEXT_SLOTS,
            row.len() >= MIN_COLUMNS,
            contexts@.map_values(|c: String| c@) =~= Seq::new(
                k as nat,
                |j: int| row@[FIRST_CONTEXT_COLUMN + j].text_view(),
            ),
        decreases CONTEXT_SLOTS - k,
    {
        let context = row[FIRST_CONTEXT_COLUMN + k].text();
        let ghost prev = contexts@;
        contexts.push(context);
        proof {
            assert(contexts@.map_values(|c: String| c@) =~= prev.map_values(|c: String| c@).push(
                context@,
            ));
        }
        k = k + 1;
    }
    EvaluationRecord {
        branch_name: row[0].text(),
        embedding_model: row[1].text(),
        judged_model: row[2].text(),
        question_id: row[3].text(),
        question,
        ground_truth,
        generated_answer: row[5].text(),
        retrieved_contexts: contexts,
        elapsed_seconds_bits: row[16].seconds_bits(),
        date: row[17].text(),
    }
}

/// Joins rows of generated answers (header excluded) with their reference
/// answers, appending the records to `out` in row order. Rows with fewer than
/// `MIN_COLUMNS` cells are dropped; a question without a reference answer gets
/// the marker `"N/A"`.
pub fn merge_into(out: &mut Vec<EvaluationRecord>, rows: &Vec<Vec<Cell>>, index: &GroundTruth)
    requires
        index.wf(),
    ensures
        record_views(final(out)@) == record_views(old(out)@) + merge_spec(rows_view(rows@), index@),
{
    let ghost all = rows_view(rows@);
    let ghost start = record_views(out@);
    let mut i: usize = 0;
    while i < rows.len()
        invariant
            i <= rows.len(),
            all == rows_view(rows@),
            index.wf(),
            record_views(out@) =~= start + merge_spec(all.subrange(0, i as int), index@),
        decreases rows.len() - i,
    {
        proof {
            assert(all.subrange(0, i + 1).drop_last() =~= all.subrange(0, i as int));
        }
        if rows[i].len() >= MIN_COLUMNS {
            let record = record_from_row(&rows[i], index);
            let ghost prev = out@;
            out.push(record);
            proof {
                assert(record_views(out@) =~= record_views(prev).push(record@));
            }
        }
        i = i + 1;
    }
    proof {
        assert(all.subrange(0, rows.len() as int) =~= all);
    }
}

/// Joins rows of generated answers (header excluded) with their reference
/// answers, in row order.
pub fn merge(rows: &Vec<Vec<Cell>>, index: &GroundTruth) -> (r: Vec<EvaluationRecord>)
    requires
        index.wf(),
    ensures
        record_views(r@) == merge_spec(rows_view(rows@), index@),
{
    let mut out: Vec<EvaluationRecord> = Vec::new();
    merge_into(&mut out, rows, index);
    proof {
        assert(record_views(Seq::<EvaluationRecord>::empty()) + merge_spec(rows_view(rows@), index@)
            =~= merge_spec(rows_view(rows@), index@));
    }
    out
}

/// Every merged record whose question has no reference answer carries the
/// marker `"N/A"` as its reference answer.
pub proof fn absent_question_gets_marker(rows: Seq<Seq<Cell>>, index: Map<Seq<char>, Seq<char>>)
    ensures
        forall|k: int|
            0 <= k < merge_spec(rows, index).len() && !index.contains_key(
                #[trigger] merge_spec(rows, index)[k].question,
            ) ==> merge_spec(rows, index)[k].ground_truth == not_found(),
    decreases rows.len(),
{
    if rows.len() > 0 {
        absent_question_gets_marker(rows.drop_last(), index);
        let rest = merge_spec(rows.drop_last(), index);
        if rows.last().len() >= MIN_COLUMNS {
            let out = rest.push(record_of(rows.last(), index));
            assert forall|k: int| 0 <= k < out.len() && !index.contains_key(
                #[trigger] out[k].question,
            ) implies out[k].ground_truth == not_found() by {
                if k < rest.len() {
                    assert(out[k] == rest[k]);
                }
            }
        }
    }
}

/// Merging never yields more records than rows, and yields fewer where some
/// row has fewer than `MIN_COLUMNS` cells.
pub proof fn short_rows_are_dropped(rows: Seq<Seq<Cell>>, index: Map<Seq<char>, Seq<char>>)
    ensures
        merge_spec(rows, index).len() <= rows.len(),
        (exists|i: int| 0 <= i < rows.len() && #[trigger] rows[i].len() < MIN_COLUMNS) ==> merge_spec(
            rows,
            index,
        ).len() < rows.len(),
    decreases rows.len(),
{
    if rows.len() > 0 {
        let front = rows.drop_last();
        short_rows_are_dropped(front, index);
        if exists|i: int| 0 <= i < rows.len() && #[trigger] rows[i].len() < MIN_COLUMNS {
            let i = choose|i: int| 0 <= i < rows.len() && #[trigger] rows[i].len() < MIN_COLUMNS;
            if i < rows.len() - 1 {
                assert(front[i] == rows[i]);
                assert(front[i].len() < MIN_COLUMNS);
            }
        }
    }
}

} // verus!
