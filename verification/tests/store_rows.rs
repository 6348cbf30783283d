use songmatch::discovery::{discover_entry, DiscoverEntry, SongSummary};
use songmatch::models::{singers_by_id, song_from_row, CalendarDate, Singer, Song, SongMetadata, SongRow};
use std::collections::HashMap;

fn some_song(singer_id: i16) -> Song {
    Song {
        id: 42,
        metadata: SongMetadata {
            title: "Evening Hymn".to_string(),
            singer_id,
            date_first_sung: Some(CalendarDate { year: 2021, month: 12, day: 25 }),
            local_path: Some("/srv/audio/evening.flac".to_string()),
        },
    }
}

#[test]
fn metadata_keeps_what_it_is_given() {
    let date = Some(CalendarDate { year: 2020, month: 2, day: 1 });
    let metadata = SongMetadata::new("Title".to_string(), 7, date, "/a/b.flac".to_string());
    assert_eq!(
        metadata,
        SongMetadata {
            title: "Title".to_string(),
            singer_id: 7,
            date_first_sung: date,
            local_path: Some("/a/b.flac".to_string()),
        }
    );
}

#[test]
fn singer_number_keeps_its_low_sixteen_bits() {
    let of = |n: usize| SongMetadata::new(String::new(), n, None, String::new()).singer_id;
    assert_eq!(of(0), 0);
    assert_eq!(of(32_767), 32_767);
    assert_eq!(of(32_768), -32_768);
    assert_eq!(of(40_000), -25_536);
    assert_eq!(of(65_535), -1);
    assert_eq!(of(65_536), 0);
    assert_eq!(of(65_537), 1);
}

#[test]
fn found_row_becomes_a_song() {
    let row = SongRow {
        id: 42,
        title: "Evening Hymn".to_string(),
        singer_id: 3,
        date_first_sung: Some(CalendarDate { year: 2021, month: 12, day: 25 }),
        local_path: Some("/srv/audio/evening.flac".to_string()),
    };
    assert_eq!(song_from_row(42, Some(row)), Some(some_song(3)));
}

#[test]
fn song_carries_the_identifier_asked_for() {
    let row = SongRow {
        id: 1,
        title: "T".to_string(),
        singer_id: 3,
        date_first_sung: None,
        local_path: None,
    };
    let song = song_from_row(99, Some(row)).unwrap();
    assert_eq!(song.id, 99);
    assert_eq!(song.metadata.date_first_sung, None);
    assert_eq!(song.metadata.local_path, None);
}

#[test]
fn no_row_no_song() {
    assert_eq!(song_from_row(42, None), None);
}

#[test]
fn singers_are_found_by_identifier() {
    let rows = vec![(1, "Ada".to_string()), (2, "Bo".to_string()), (-7, "Cy".to_string())];
    let singers = singers_by_id(&rows);
    assert_eq!(singers.len(), 3);
    assert_eq!(singers.get(&1), Some(&Singer { id: 1, name: "Ada".to_string() }));
    assert_eq!(singers.get(&2), Some(&Singer { id: 2, name: "Bo".to_string() }));
    assert_eq!(singers.get(&-7), Some(&Singer { id: -7, name: "Cy".to_string() }));
    assert_eq!(singers.get(&3), None);
}

#[test]
fn last_row_of_a_singer_stands() {
    let rows = vec![
        (1, "Ada".to_string()),
        (2, "Bo".to_string()),
        (1, "Adele".to_string()),
        (1, "Adeline".to_string()),
    ];
    let singers = singers_by_id(&rows);
    assert_eq!(singers.len(), 2);
    assert_eq!(singers.get(&1).unwrap().name, "Adeline");
    assert_eq!(singers.get(&2).unwrap().name, "Bo");
}

#[test]
fn no_rows_no_singers() {
    assert!(singers_by_id(&Vec::new()).is_empty());
}

#[test]
fn summary_leaves_the_singer_out() {
    assert_eq!(
        SongSummary::from(some_song(3)),
        SongSummary {
            id: 42,
            title: "Evening Hymn".to_string(),
            date_sung: Some(CalendarDate { year: 2021, month: 12, day: 25 }),
            file_path: Some("/srv/audio/evening.flac".to_string()),
        }
    );
}

#[test]
fn entry_names_the_singer() {
    let mut singers = HashMap::new();
    singers.insert(3, Singer { id: 3, name: "Ada".to_string() });
    singers.insert(4, Singer { id: 4, name: "Bo".to_string() });
    assert_eq!(
        discover_entry(some_song(3), &singers, 70),
        Some(DiscoverEntry {
            song: SongSummary::from(some_song(3)),
            singer_name: "Ada".to_string(),
            score: 70,
        })
    );
}

#[test]
fn entry_of_an_unknown_singer_is_nothing() {
    let mut singers = HashMap::new();
    singers.insert(3, Singer { id: 3, name: "Ada".to_string() });
    assert_eq!(discover_entry(some_song(5), &singers, 70), None);
    assert_eq!(discover_entry(some_song(3), &HashMap::new(), 70), None);
}
