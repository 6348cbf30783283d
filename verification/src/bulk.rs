//! Working through a directory of files: what is done with each file, step by
//! step, and how the outcomes add up.

use vstd::prelude::*;
use crate::dates::{date_from_parts, date_in, date_text};
use crate::models::{CalendarDate, SongMetadata};

verus! {

/// A date as the filename parser gives it.
#[derive(Debug, Clone, Copy, PartialEq, Eq)]
pub struct ParsedDate {
    pub day: usize,
    pub month: usize,
    pub year: usize,
}

/// What the filename parser answers for one file name.
#[derive(Debug, Clone, PartialEq, Eq)]
pub enum ParseResult {
    Parsed { title: String, date: Option<ParsedDate>, singer_id: usize },
    Error { error: String },
}

/// What became of the date in a parser's answer.
#[derive(Debug, Clone, Copy, PartialEq, Eq)]
pub enum DateReading {
    /// The answer held no date.
    Absent,
    /// The answer held this date.
    Read(CalendarDate),
    /// The answer held a day, a month and a year that are no date.
    Unreadable,
}

/// What to do with a file once the parser has answered.
#[derive(Debug, Clone, PartialEq, Eq)]
pub enum ReplyDecision {
    /// Decode the file and store it under this metadata.
    Ingest(SongMetadata),
    /// The parser could not make sense of the file name: leave the file out.
    Refuse { error: String },
    /// The parser's date is no date: the file fails.
    BadDate,
}

/// How the work on one file ended.
#[derive(Debug, Clone, Copy, PartialEq, Eq)]
pub enum FileOutcome {
    /// The file was decoded and stored.
    Ingested,
    /// The store already held a recording of this path: left out.
    AlreadySaved,
    /// The parser refused the file name: left out.
    ParserRefused,
    /// The work on the file failed.
    Failed,
}

/// Where the work on one file stands.
#[derive(Debug, Clone, PartialEq, Eq)]
pub enum TaskState {
    /// The store has been asked whether it holds a recording of `path`.
    AwaitingStore { path: String },
    /// The parser has been asked about the file's name.
    AwaitingParser { path: String },
    /// The file is being decoded and stored.
    AwaitingIngest,
    /// The work has ended.
    Done(FileOutcome),
}

/// What came back from outside.
#[derive(Debug, Clone, PartialEq, Eq)]
pub enum TaskEvent {
    StoreAnswered { already_saved: bool },
    ParserReplied { reply: ParseResult },
    IngestEnded { stored: bool },
}

/// What to do next outside.
#[derive(Debug, Clone, PartialEq, Eq)]
pub enum TaskAction {
    /// Ask the parser about the file's name.
    RunParser,
    /// Decode the file and store it under this metadata.
    Ingest(SongMetadata),
    /// Nothing more: the work has ended so.
    Finish(FileOutcome),
}

/// How many files were stored, how many failed and how many were left out.
#[derive(Debug, Clone, Copy, PartialEq, Eq)]
pub struct BulkReport {
    pub ok: usize,
    pub err: usize,
    pub skipped: usize,
}

/// The blanks that are cut from the end of the parser's output: space, tab,
/// line feed, form feed and carriage return.
pub open spec fn is_ascii_blank(b: u8) -> bool {
    b == 0x20 || b == 0x09 || b == 0x0a || b == 0x0c || b == 0x0d
}

/// `bytes` without the blanks at its end.
pub fn trim_ascii_end(bytes: &[u8]) -> (r: &[u8])
    ensures
        r@.len() <= bytes@.len(),
        r@ == bytes@.take(r@.len() as int),
        forall|i: int| r@.len() <= i < bytes@.len() ==> is_ascii_blank(#[trigger] bytes@[i]),
        r@.len() == 0 || !is_ascii_blank(r@[r@.len() - 1]),
{
    let mut end: usize = bytes.len();
    while end > 0 && (bytes[end - 1] == 0x20 || bytes[end - 1] == 0x09 || bytes[end - 1] == 0x0a
        || bytes[end - 1] == 0x0c || bytes[end - 1] == 0x0d)
        invariant
            end <= bytes@.len(),
            forall|i: int| end <= i < bytes@.len() ==> is_ascii_blank(#[trigger] bytes@[i]),
        decreases end,
    {
        end -= 1;
    }
    vstd::slice::slice_subrange(bytes, 0, end)
}

/// What becomes of the date in a parser's answer: it is written as
/// `dd/mm/yyyy` and read back as a date.
pub open spec fn reply_date(reply: ParseResult) -> DateReading {
    match reply {
        ParseResult::Parsed { title: _, date: Some(parsed), singer_id: _ } => match date_in(
            date_text(parsed.day as nat, parsed.month as nat, parsed.year as nat),
        ) {
            Some(date) => DateReading::Read(date),
            None => DateReading::Unreadable,
        },
        _ => DateReading::Absent,
    }
}

/// What to do with the file at `path` after the parser answered `reply` and
/// the answer's date was read as `date`. A singer number that does not fit
/// sixteen bits keeps its low sixteen bits.
pub open spec fn reply_decision(reply: ParseResult, date: DateReading, path: String) -> ReplyDecision {
    match reply {
        ParseResult::Error { error } => ReplyDecision::Refuse { error },
        ParseResult::Parsed { title, date: _, singer_id } => match date {
            DateReading::Unreadable => ReplyDecision::BadDate,
            DateReading::Absent => ReplyDecision::Ingest(
                SongMetadata {
                    title,
                    singer_id: singer_id as i16,
                    date_first_sung: None,
                    local_path: Some(path),
                },
            ),
            DateReading::Read(read) => ReplyDecision::Ingest(
                SongMetadata {
                    title,
                    singer_id: singer_id as i16,
                    date_first_sung: Some(read),
                    local_path: Some(path),
                },
            ),
        },
    }
}

/// The state after `event` in `state`, and what to do next. A file that the
/// store already holds ends at once; so does one that the parser refuses, and
/// one whose date is no date. An event that the state does not wait for ends
/// the work as failed; after the end nothing changes.
pub open spec fn next(state: TaskState, event: TaskEvent) -> (TaskState, TaskAction) {
    match (state, event) {
        (TaskState::Done(outcome), _) => (TaskState::Done(outcome), TaskAction::Finish(outcome)),
        (TaskState::AwaitingStore { path }, TaskEvent::StoreAnswered { already_saved }) => {
            if already_saved {
                ended(FileOutcome::AlreadySaved)
            } else {
                (TaskState::AwaitingParser { path }, TaskAction::RunParser)
            }
        },
        (TaskState::AwaitingParser { path }, TaskEvent::ParserReplied { reply }) => {
            match reply_decision(reply, reply_date(reply), path) {
                ReplyDecision::Ingest(metadata) => (
                    TaskState::AwaitingIngest,
                    TaskAction::Ingest(metadata),
                ),
                ReplyDecision::Refuse { error: _ } => ended(FileOutcome::ParserRefused),
                ReplyDecision::BadDate => ended(FileOutcome::Failed),
            }
        },
        (TaskState::AwaitingIngest, TaskEvent::IngestEnded { stored }) => {
            if stored {
                ended(FileOutcome::Ingested)
            } else {
                ended(FileOutcome::Failed)
            }
        },
        _ => ended(FileOutcome::Failed),
    }
}

/// The work has ended with `outcome`.
pub open spec fn ended(outcome: FileOutcome) -> (TaskState, TaskAction) {
    (TaskState::Done(outcome), TaskAction::Finish(outcome))
}

/// How the work on the file at `path` ends when the store answers
/// `already_saved`, the parser `reply`, and decoding and storing end with
/// `stored`: the steps of `next` taken one after another.
pub open spec fn task_outcome(
    path: String,
    already_saved: bool,
    reply: ParseResult,
    stored: bool,
) -> FileOutcome {
    let asked = next(TaskState::AwaitingStore { path }, TaskEvent::StoreAnswered { already_saved });
    match asked.1 {
        TaskAction::Finish(outcome) => outcome,
        _ => {
            let parsed = next(asked.0, TaskEvent::ParserReplied { reply });
            match parsed.1 {
                TaskAction::Finish(outcome) => outcome,
                _ => {
                    let ingested = next(parsed.0, TaskEvent::IngestEnded { stored });
                    match ingested.1 {
                        TaskAction::Finish(outcome) => outcome,
                        _ => FileOutcome::Failed,
                    }
                },
            }
        },
    }
}

/// Reads the date of a parser's answer.
pub fn read_reply_date(reply: &ParseResult) -> (r: DateReading)
    ensures
        r == reply_date(*reply),
        r matches DateReading::Read(date) ==> date.in_range(),
{
    match reply {
        ParseResult::Parsed { title: _, date: Some(parsed), singer_id: _ } => {
            match date_from_parts(parsed.day, parsed.month, parsed.year) {
                Some(date) => DateReading::Read(date),
                None => DateReading::Unreadable,
            }
        },
        _ => DateReading::Absent,
    }
}

/// Decides what to do with the file at `path` after the parser answered
/// `reply` and the answer's date was read as `date`.
pub fn decide_reply(reply: ParseResult, date: DateReading, path: String) -> (r: ReplyDecision)
    ensures
        r == reply_decision(reply, date, path),
{
    match reply {
        ParseResult::Error { error } => ReplyDecision::Refuse { error },
        ParseResult::Parsed { title, date: _, singer_id } => match date {
            DateReading::Unreadable => ReplyDecision::BadDate,
            DateReading::Absent => ReplyDecision::Ingest(
                SongMetadata::new(title, singer_id, None, path),
            ),
            DateReading::Read(read) => ReplyDecision::Ingest(
                SongMetadata::new(title, singer_id, Some(read), path),
            ),
        },
    }
}

/// Reads the date of the parser's answer and decides what to do with the file
/// at `path`.
pub fn interpret_reply(reply: ParseResult, path: String) -> (r: ReplyDecision)
    ensures
        r == reply_decision(reply, reply_date(reply), path),
{
    let date: DateReading = read_reply_date(&reply);
    decide_reply(reply, date, path)
}

/// The work on the file at `path` begins: the store is to be asked whether it
/// holds a recording of that path.
pub fn begin(path: String) -> (r: TaskState)
    ensures
        r == (TaskState::AwaitingStore { path }),
{
    TaskState::AwaitingStore { path }
}

/// Takes the work on one file one step on: from the state and what came back
/// from outside to the next state and what to do next.
pub fn step(state: TaskState, event: TaskEvent) -> (r: (TaskState, TaskAction))
    ensures
        r == next(state, event),
{
    match state {
        TaskState::Done(outcome) => (TaskState::Done(outcome), TaskAction::Finish(outcome)),
        TaskState::AwaitingStore { path } => match event {
            TaskEvent::StoreAnswered { already_saved } => {
                if already_saved {
                    finish(FileOutcome::AlreadySaved)
                } else {
                    (TaskState::AwaitingParser { path }, TaskAction::RunParser)
                }
            },
            _ => finish(FileOutcome::Failed),
        },
        TaskState::AwaitingParser { path } => match event {
            TaskEvent::ParserReplied { reply } => match interpret_reply(reply, path) {
                ReplyDecision::Ingest(metadata) => (
                    TaskState::AwaitingIngest,
                    TaskAction::Ingest(metadata),
                ),
                ReplyDecision::Refuse { error: _ } => finish(FileOutcome::ParserRefused),
                ReplyDecision::BadDate => finish(FileOutcome::Failed),
            },
            _ => finish(FileOutcome::Failed),
        },
        TaskState::AwaitingIngest => match event {
            TaskEvent::IngestEnded { stored } => {
                if stored {
                    finish(FileOutcome::Ingested)
                } else {
                    finish(FileOutcome::Failed)
                }
            },
            _ => finish(FileOutcome::Failed),
        },
    }
}

fn finish(outcome: FileOutcome) -> (r: (TaskState, TaskAction))
    ensures
        r == ended(outcome),
{
    (TaskState::Done(outcome), TaskAction::Finish(outcome))
}

/// Number of files among the first `k` that were stored.
pub open spec fn stored_upto(outcomes: Seq<FileOutcome>, k: nat) -> nat
    decreases k,
{
    if k == 0 || k > outcomes.len() {
        0
    } else {
        stored_upto(outcomes, (k - 1) as nat) + if outcomes[k - 1] == FileOutcome::Ingested {
            1nat
        } else {
            0nat
        }
    }
}

/// Number of files among the first `k` that failed.
pub open spec fn failed_upto(outcomes: Seq<FileOutcome>, k: nat) -> nat
    decreases k,
{
    if k == 0 || k > outcomes.len() {
        0
    } else {
        failed_upto(outcomes, (k - 1) as nat) + if outcomes[k - 1] == FileOutcome::Failed {
            1nat
        } else {
            0nat
        }
    }
}

/// Adds up the outcomes of a directory's files: `ok` counts the files stored,
/// `err` those that failed, `skipped` those left out.
pub fn tally(outcomes: &Vec<FileOutcome>) -> (r: BulkReport)
    ensures
        r.ok == stored_upto(outcomes@, outcomes@.len()),
        r.err == failed_upto(outcomes@, outcomes@.len()),
        r.ok + r.err + r.skipped == outcomes@.len(),
        outcomes@.len() == 0 ==> r == (BulkReport { ok: 0, err: 0, skipped: 0 }),
{
    let mut report = BulkReport { ok: 0, err: 0, skipped: 0 };
    let mut i: usize = 0;
    while i < outcomes.len()
        invariant
            i <= outcomes@.len(),
            report.ok == stored_upto(outcomes@, i as nat),
            report.err == failed_upto(outcomes@, i as nat),
            report.ok + report.err + report.skipped == i,
        decreases outcomes@.len() - i,
    {
        match outcomes[i] {
            FileOutcome::Ingested => {
                report.ok += 1;
            },
            FileOutcome::Failed => {
                report.err += 1;
            },
            _ => {
                report.skipped += 1;
            },
        }
        i += 1;
    }
    report
}

/// What holds of one file of a directory whenever it is worked on: its path,
/// what the parser answers for its name, and whether decoding and storing it
/// succeed.
#[derive(Debug, Clone, PartialEq, Eq)]
pub struct FileFacts {
    pub path: String,
    pub reply: ParseResult,
    pub stored: bool,
}

/// How the work on `file` ends when the store holds recordings of the paths
/// `store`.
pub open spec fn outcome_in(store: Set<Seq<char>>, file: FileFacts) -> FileOutcome {
    task_outcome(file.path, store.contains(file.path@), file.reply, file.stored)
}

/// The paths that the store holds after the first `k` of `files` were worked
/// on in their order, when it held `store` before.
pub open spec fn store_upto(store: Set<Seq<char>>, files: Seq<FileFacts>, k: nat) -> Set<
    Seq<char>,
>
    decreases k,
{
    if k == 0 || k > files.len() {
        store
    } else {
        let before = store_upto(store, files, (k - 1) as nat);
        if outcome_in(before, files[k - 1]) == FileOutcome::Ingested {
            before.insert(files[k - 1].path@)
        } else {
            before
        }
    }
}

/// The paths that the store holds after a pass over `files`.
pub open spec fn store_after(store: Set<Seq<char>>, files: Seq<FileFacts>) -> Set<Seq<char>> {
    store_upto(store, files, files.len())
}

/// The outcomes of a pass over `files`, one per file.
pub open spec fn pass_outcomes(store: Set<Seq<char>>, files: Seq<FileFacts>) -> Seq<FileOutcome> {
    Seq::new(files.len(), |i: int| outcome_in(store_upto(store, files, i as nat), files[i]))
}

/// A file that the store already holds is left out whatever the parser says,
/// and only a file that the store does not hold can be stored.
pub proof fn lemma_saved_file_is_left_out(path: String, reply: ParseResult, stored: bool)
    ensures
        task_outcome(path, true, reply, stored) == FileOutcome::AlreadySaved,
        task_outcome(path, false, reply, stored) != FileOutcome::AlreadySaved,
        task_outcome(path, false, reply, stored) == FileOutcome::Ingested ==> stored,
        reply is Error ==> task_outcome(path, false, reply, stored) == FileOutcome::ParserRefused,
{
}

/// A file is stored under the path for which the store was asked, and only
/// after the store has said that it holds no recording of that path.
pub proof fn lemma_ingest_keeps_path(path: String, already_saved: bool, reply: ParseResult)
    ensures
        ({
            let asked = next(
                TaskState::AwaitingStore { path },
                TaskEvent::StoreAnswered { already_saved },
            );
            let parsed = next(asked.0, TaskEvent::ParserReplied { reply });
            parsed.1 matches TaskAction::Ingest(metadata) ==> !already_saved
                && metadata.local_path == Some(path) && reply is Parsed
        }),
{
}

/// Idempotence: a second pass over the same files stores nothing. Each file
/// that the first pass stored or found saved is found saved by the second, so
/// no file is stored twice; where no file failed in the first pass, the second
/// leaves every file out.
pub proof fn lemma_second_pass_stores_nothing(store: Set<Seq<char>>, files: Seq<FileFacts>)
    ensures
        store_after(store_after(store, files), files) == store_after(store, files),
        forall|i: int|
            0 <= i < files.len() ==> #[trigger] pass_outcomes(store_after(store, files), files)[i]
                != FileOutcome::Ingested,
        forall|i: int|
            0 <= i < files.len() && (#[trigger] pass_outcomes(store, files)[i]
                == FileOutcome::Ingested || pass_outcomes(store, files)[i]
                == FileOutcome::AlreadySaved) ==> pass_outcomes(store_after(store, files), files)[i]
                == FileOutcome::AlreadySaved,
        forall|i: int|
            0 <= i < files.len() && #[trigger] pass_outcomes(store, files)[i]
                != FileOutcome::Failed ==> pass_outcomes(store_after(store, files), files)[i]
                != FileOutcome::Failed,
        stored_upto(
            pass_outcomes(store_after(store, files), files),
            files.len(),
        ) == 0,
        (forall|i: int|
            0 <= i < files.len() ==> #[trigger] pass_outcomes(store, files)[i]
                != FileOutcome::Failed) ==> failed_upto(
            pass_outcomes(store_after(store, files), files),
            files.len(),
        ) == 0,
{
    let after = store_after(store, files);
    let first = pass_outcomes(store, files);
    let second = pass_outcomes(after, files);
    lemma_settled_store(store, files, files.len());
    assert forall|i: int| 0 <= i < files.len() implies #[trigger] second[i] == outcome_in(
        after,
        files[i],
    ) by {
        lemma_settled_store(store, files, i as nat);
    }
    assert forall|i: int| 0 <= i < files.len() implies #[trigger] second[i]
        != FileOutcome::Ingested && ((first[i] == FileOutcome::Ingested || first[i]
        == FileOutcome::AlreadySaved) ==> second[i] == FileOutcome::AlreadySaved) && (first[i]
        != FileOutcome::Failed ==> second[i] != FileOutcome::Failed) by {
        lemma_store_grows(store, files, i as nat, files.len());
        lemma_store_grows(store, files, (i + 1) as nat, files.len());
        lemma_saved_file_is_left_out(files[i].path, files[i].reply, files[i].stored);
    }
    lemma_none_stored(second, files.len());
    if forall|i: int| 0 <= i < files.len() ==> #[trigger] first[i] != FileOutcome::Failed {
        lemma_none_failed(second, files.len());
    }
}

/// The store only grows during a pass.
proof fn lemma_store_grows(store: Set<Seq<char>>, files: Seq<FileFacts>, j: nat, k: nat)
    requires
        j <= k <= files.len(),
    ensures
        store_upto(store, files, j).subset_of(store_upto(store, files, k)),
    decreases k - j,
{
    if j < k {
        lemma_store_grows(store, files, j, (k - 1) as nat);
    }
}

/// After a pass, a pass over the same files leaves the store as it is.
proof fn lemma_settled_store(store: Set<Seq<char>>, files: Seq<FileFacts>, k: nat)
    requires
        k <= files.len(),
    ensures
        store_upto(store_after(store, files), files, k) == store_after(store, files),
    decreases k,
{
    if k > 0 {
        let after = store_after(store, files);
        let file = files[k - 1];
        lemma_settled_store(store, files, (k - 1) as nat);
        lemma_store_grows(store, files, (k - 1) as nat, files.len());
        lemma_store_grows(store, files, k, files.len());
        lemma_saved_file_is_left_out(file.path, file.reply, file.stored);
        if outcome_in(after, file) == FileOutcome::Ingested {
            let earlier = store_upto(store, files, (k - 1) as nat);
            assert(!after.contains(file.path@));
            assert(!earlier.contains(file.path@));
            assert(outcome_in(earlier, file) == FileOutcome::Ingested);
            assert(store_upto(store, files, k).contains(file.path@));
            assert(false);
        }
    }
}

proof fn lemma_none_stored(outcomes: Seq<FileOutcome>, k: nat)
    requires
        k <= outcomes.len(),
        forall|i: int| 0 <= i < outcomes.len() ==> #[trigger] outcomes[i] != FileOutcome::Ingested,
    ensures
        stored_upto(outcomes, k) == 0,
    decreases k,
{
    if k > 0 {
        lemma_none_stored(outcomes, (k - 1) as nat);
    }
}

proof fn lemma_none_failed(outcomes: Seq<FileOutcome>, k: nat)
    requires
        k <= outcomes.len(),
        forall|i: int| 0 <= i < outcomes.len() ==> #[trigger] outcomes[i] != FileOutcome::Failed,
    ensures
        failed_upto(outcomes, k) == 0,
    decreases k,
{
    if k > 0 {
        lemma_none_failed(outcomes, (k - 1) as nat);
    }
}

} // verus!
