use songmatch::bulk::{
    begin, decide_reply, interpret_reply, read_reply_date, step, tally, trim_ascii_end,
    BulkReport, DateReading, FileOutcome, ParseResult, ParsedDate, ReplyDecision, TaskAction,
    TaskEvent, TaskState,
};
use songmatch::models::{CalendarDate, SongMetadata};
use std::collections::HashSet;

fn parsed(title: &str, date: Option<(usize, usize, usize)>, singer_id: usize) -> ParseResult {
    ParseResult::Parsed {
        title: title.to_string(),
        date: date.map(|(day, month, year)| ParsedDate { day, month, year }),
        singer_id,
    }
}

fn refused() -> ParseResult {
    ParseResult::Error { error: "no title in name".to_string() }
}

/// Works on one file as the program does, with a set of paths for the store.
fn run_file(store: &mut HashSet<String>, path: &str, reply: ParseResult, decodes: bool) -> FileOutcome {
    let state = begin(path.to_string());
    let already_saved = store.contains(path);
    let (state, action) = step(state, TaskEvent::StoreAnswered { already_saved });
    match action {
        TaskAction::Finish(outcome) => return outcome,
        TaskAction::RunParser => {}
        TaskAction::Ingest(_) => panic!("nothing was parsed yet"),
    }
    let (state, action) = step(state, TaskEvent::ParserReplied { reply });
    let metadata = match action {
        TaskAction::Finish(outcome) => return outcome,
        TaskAction::Ingest(metadata) => metadata,
        TaskAction::RunParser => panic!("the parser has answered"),
    };
    if decodes {
        store.insert(metadata.local_path.clone().unwrap());
    }
    let (state, action) = step(state, TaskEvent::IngestEnded { stored: decodes });
    match action {
        TaskAction::Finish(outcome) => {
            assert_eq!(state, TaskState::Done(outcome));
            outcome
        }
        _ => panic!("the work has ended"),
    }
}

#[test]
fn blanks_at_the_end_are_cut() {
    assert_eq!(trim_ascii_end(b"{\"a\":1}\n"), b"{\"a\":1}");
    assert_eq!(trim_ascii_end(b"abc \t\r\n\x0c"), b"abc");
    assert_eq!(trim_ascii_end(b"  abc"), b"  abc");
    assert_eq!(trim_ascii_end(b"a b "), b"a b");
    assert_eq!(trim_ascii_end(b" \n "), b"");
    assert_eq!(trim_ascii_end(b""), b"");
    assert_eq!(trim_ascii_end(b"abc"), b"abc");
}

#[test]
fn vertical_tab_and_others_are_no_blanks() {
    assert_eq!(trim_ascii_end(b"abc\x0b"), b"abc\x0b");
    assert_eq!(trim_ascii_end(b"abc\x00"), b"abc\x00");
    assert_eq!(trim_ascii_end(b"abc\xa0"), b"abc\xa0");
    assert_eq!(trim_ascii_end(b"abc\x0b \n"), b"abc\x0b");
}

#[test]
fn trimming_agrees_with_the_standard_library() {
    for a in 0..=255u8 {
        for b in [0x20u8, 0x41, 0x0a, 0x0b] {
            let bytes = [0x41, a, b];
            assert_eq!(trim_ascii_end(&bytes), bytes.trim_ascii_end());
        }
    }
}

#[test]
fn date_of_a_reply_is_read() {
    assert_eq!(
        read_reply_date(&parsed("T", Some((1, 2, 2020)), 1)),
        DateReading::Read(CalendarDate { year: 2020, month: 2, day: 1 })
    );
    assert_eq!(read_reply_date(&parsed("T", None, 1)), DateReading::Absent);
    assert_eq!(read_reply_date(&parsed("T", Some((31, 2, 2020)), 1)), DateReading::Unreadable);
    assert_eq!(read_reply_date(&refused()), DateReading::Absent);
}

#[test]
fn parsed_reply_becomes_metadata() {
    assert_eq!(
        interpret_reply(parsed("Evening Hymn", Some((25, 12, 2021)), 3), "/a/e.flac".to_string()),
        ReplyDecision::Ingest(SongMetadata {
            title: "Evening Hymn".to_string(),
            singer_id: 3,
            date_first_sung: Some(CalendarDate { year: 2021, month: 12, day: 25 }),
            local_path: Some("/a/e.flac".to_string()),
        })
    );
}

#[test]
fn reply_without_date_becomes_metadata_without_date() {
    assert_eq!(
        interpret_reply(parsed("Evening Hymn", None, 70_000), "/a/e.flac".to_string()),
        ReplyDecision::Ingest(SongMetadata {
            title: "Evening Hymn".to_string(),
            singer_id: 4_464,
            date_first_sung: None,
            local_path: Some("/a/e.flac".to_string()),
        })
    );
}

#[test]
fn refusing_reply_is_passed_on() {
    assert_eq!(
        interpret_reply(refused(), "/a/e.flac".to_string()),
        ReplyDecision::Refuse { error: "no title in name".to_string() }
    );
}

#[test]
fn reply_with_no_date_of_the_calendar_fails() {
    assert_eq!(
        interpret_reply(parsed("T", Some((30, 2, 2021)), 3), "/a/e.flac".to_string()),
        ReplyDecision::BadDate
    );
}

#[test]
fn decision_goes_by_the_reading_it_is_given() {
    let date = CalendarDate { year: 1999, month: 1, day: 2 };
    assert_eq!(
        decide_reply(parsed("T", None, 3), DateReading::Read(date), "/p".to_string()),
        ReplyDecision::Ingest(SongMetadata {
            title: "T".to_string(),
            singer_id: 3,
            date_first_sung: Some(date),
            local_path: Some("/p".to_string()),
        })
    );
    assert_eq!(
        decide_reply(parsed("T", Some((1, 2, 2020)), 3), DateReading::Unreadable, "/p".to_string()),
        ReplyDecision::BadDate
    );
    assert_eq!(
        decide_reply(refused(), DateReading::Unreadable, "/p".to_string()),
        ReplyDecision::Refuse { error: "no title in name".to_string() }
    );
}

#[test]
fn work_begins_with_the_store() {
    assert_eq!(begin("/a".to_string()), TaskState::AwaitingStore { path: "/a".to_string() });
}

#[test]
fn saved_file_ends_at_once() {
    let (state, action) = step(begin("/a".to_string()), TaskEvent::StoreAnswered { already_saved: true });
    assert_eq!(state, TaskState::Done(FileOutcome::AlreadySaved));
    assert_eq!(action, TaskAction::Finish(FileOutcome::AlreadySaved));
}

#[test]
fn new_file_goes_to_the_parser_and_then_to_ingest() {
    let (state, action) =
        step(begin("/a".to_string()), TaskEvent::StoreAnswered { already_saved: false });
    assert_eq!(state, TaskState::AwaitingParser { path: "/a".to_string() });
    assert_eq!(action, TaskAction::RunParser);
    let (state, action) =
        step(state, TaskEvent::ParserReplied { reply: parsed("T", Some((1, 2, 2020)), 9) });
    assert_eq!(state, TaskState::AwaitingIngest);
    assert_eq!(
        action,
        TaskAction::Ingest(SongMetadata {
            title: "T".to_string(),
            singer_id: 9,
            date_first_sung: Some(CalendarDate { year: 2020, month: 2, day: 1 }),
            local_path: Some("/a".to_string()),
        })
    );
    let (state, action) = step(state, TaskEvent::IngestEnded { stored: true });
    assert_eq!(state, TaskState::Done(FileOutcome::Ingested));
    assert_eq!(action, TaskAction::Finish(FileOutcome::Ingested));
}

#[test]
fn failed_ingest_fails_the_file() {
    let (state, action) = step(TaskState::AwaitingIngest, TaskEvent::IngestEnded { stored: false });
    assert_eq!(state, TaskState::Done(FileOutcome::Failed));
    assert_eq!(action, TaskAction::Finish(FileOutcome::Failed));
}

#[test]
fn refused_name_leaves_the_file_out() {
    let (state, action) = step(
        TaskState::AwaitingParser { path: "/a".to_string() },
        TaskEvent::ParserReplied { reply: refused() },
    );
    assert_eq!(state, TaskState::Done(FileOutcome::ParserRefused));
    assert_eq!(action, TaskAction::Finish(FileOutcome::ParserRefused));
}

#[test]
fn bad_date_fails_the_file() {
    let (state, action) = step(
        TaskState::AwaitingParser { path: "/a".to_string() },
        TaskEvent::ParserReplied { reply: parsed("T", Some((31, 6, 2020)), 9) },
    );
    assert_eq!(state, TaskState::Done(FileOutcome::Failed));
    assert_eq!(action, TaskAction::Finish(FileOutcome::Failed));
}

#[test]
fn event_out_of_turn_fails_the_file() {
    for (state, event) in [
        (begin("/a".to_string()), TaskEvent::IngestEnded { stored: true }),
        (begin("/a".to_string()), TaskEvent::ParserReplied { reply: refused() }),
        (
            TaskState::AwaitingParser { path: "/a".to_string() },
            TaskEvent::StoreAnswered { already_saved: false },
        ),
        (
            TaskState::AwaitingParser { path: "/a".to_string() },
            TaskEvent::IngestEnded { stored: true },
        ),
        (TaskState::AwaitingIngest, TaskEvent::StoreAnswered { already_saved: true }),
        (TaskState::AwaitingIngest, TaskEvent::ParserReplied { reply: parsed("T", None, 1) }),
    ] {
        let (state, action) = step(state, event);
        assert_eq!(state, TaskState::Done(FileOutcome::Failed));
        assert_eq!(action, TaskAction::Finish(FileOutcome::Failed));
    }
}

#[test]
fn ended_work_stays_ended() {
    for outcome in [
        FileOutcome::Ingested,
        FileOutcome::AlreadySaved,
        FileOutcome::ParserRefused,
        FileOutcome::Failed,
    ] {
        for event in [
            TaskEvent::StoreAnswered { already_saved: false },
            TaskEvent::ParserReplied { reply: parsed("T", None, 1) },
            TaskEvent::IngestEnded { stored: true },
        ] {
            let (state, action) = step(TaskState::Done(outcome), event);
            assert_eq!(state, TaskState::Done(outcome));
            assert_eq!(action, TaskAction::Finish(outcome));
        }
    }
}

#[test]
fn outcomes_are_added_up() {
    let outcomes = vec![
        FileOutcome::Ingested,
        FileOutcome::Failed,
        FileOutcome::AlreadySaved,
        FileOutcome::Ingested,
        FileOutcome::ParserRefused,
        FileOutcome::Ingested,
    ];
    assert_eq!(tally(&outcomes), BulkReport { ok: 3, err: 1, skipped: 2 });
}

#[test]
fn empty_directory_reports_nothing() {
    assert_eq!(tally(&Vec::new()), BulkReport { ok: 0, err: 0, skipped: 0 });
}

#[test]
fn parser_error_leaves_one_file_out() {
    let mut store = HashSet::new();
    let outcomes = vec![
        run_file(&mut store, "/d/one.flac", parsed("One", None, 1), true),
        run_file(&mut store, "/d/two.flac", refused(), true),
        run_file(&mut store, "/d/three.flac", parsed("Three", Some((1, 2, 2020)), 2), true),
    ];
    assert_eq!(
        outcomes,
        vec![FileOutcome::Ingested, FileOutcome::ParserRefused, FileOutcome::Ingested]
    );
    let report = tally(&outcomes);
    assert_eq!((report.ok, report.err), (2, 0));
    assert_eq!(store.len(), 2);
}

#[test]
fn second_pass_stores_nothing() {
    let names = ["/d/a.flac", "/d/b.flac", "/d/c.flac", "/d/d.flac", "/d/e.flac"];
    let mut store = HashSet::new();
    let first: Vec<FileOutcome> =
        names.iter().map(|p| run_file(&mut store, p, parsed("T", None, 1), true)).collect();
    assert_eq!(tally(&first), BulkReport { ok: 5, err: 0, skipped: 0 });
    assert_eq!(store.len(), 5);
    let second: Vec<FileOutcome> =
        names.iter().map(|p| run_file(&mut store, p, parsed("T", None, 1), true)).collect();
    assert_eq!(second, vec![FileOutcome::AlreadySaved; 5]);
    assert_eq!(tally(&second), BulkReport { ok: 0, err: 0, skipped: 5 });
    assert_eq!(store.len(), 5);
}

#[test]
fn failed_file_is_tried_again() {
    let mut store = HashSet::new();
    assert_eq!(run_file(&mut store, "/d/a.flac", parsed("T", None, 1), false), FileOutcome::Failed);
    assert!(store.is_empty());
    assert_eq!(run_file(&mut store, "/d/a.flac", parsed("T", None, 1), true), FileOutcome::Ingested);
    assert_eq!(
        run_file(&mut store, "/d/a.flac", parsed("T", None, 1), true),
        FileOutcome::AlreadySaved
    );
}
