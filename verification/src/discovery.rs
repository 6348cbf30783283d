//! What discovery reports of each recording that it ranks.

use std::collections::HashMap;
use vstd::prelude::*;
use crate::models::{CalendarDate, Singer, Song};

verus! {

/// A recording as discovery reports it.
#[derive(Debug, Clone, PartialEq, Eq)]
pub struct SongSummary {
    pub id: i64,
    pub title: String,
    pub date_sung: Option<CalendarDate>,
    pub file_path: Option<String>,
}

/// One line of discovery's report: a recording, its singer's name and its score.
#[derive(Debug, Clone, PartialEq, Eq)]
pub struct DiscoverEntry {
    pub song: SongSummary,
    pub singer_name: String,
    pub score: u64,
}

/// What discovery reports of `song`: all but its singer.
pub open spec fn summary_of(song: Song) -> SongSummary {
    SongSummary {
        id: song.id,
        title: song.metadata.title,
        date_sung: song.metadata.date_first_sung,
        file_path: song.metadata.local_path,
    }
}

impl From<Song> for SongSummary {
    fn from(value: Song) -> (r: SongSummary) {
        SongSummary {
            id: value.id,
            title: value.metadata.title,
            date_sung: value.metadata.date_first_sung,
            file_path: value.metadata.local_path,
        }
    }
}

impl vstd::std_specs::convert::FromSpecImpl<Song> for SongSummary {
    open spec fn obeys_from_spec() -> bool {
        true
    }

    open spec fn from_spec(v: Song) -> SongSummary {
        summary_of(v)
    }
}

/// The report's line for `song` with the score `score`: the recording and the
/// name under which `singers` knows its singer. Nothing where `singers` does
/// not know the singer.
pub fn discover_entry(song: Song, singers: &HashMap<i16, Singer>, score: u64) -> (r: Option<
    DiscoverEntry,
>)
    ensures
        r == if singers@.contains_key(song.metadata.singer_id) {
            Some(
                DiscoverEntry {
                    song: summary_of(song),
                    singer_name: singers@[song.metadata.singer_id].name,
                    score,
                },
            )
        } else {
            None
        },
{
    broadcast use vstd::std_specs::hash::group_hash_axioms;

    match singers.get(&song.metadata.singer_id) {
        Some(singer) => {
            let singer_name: String = singer.name.clone();
            Some(DiscoverEntry { song: SongSummary::from(song), singer_name, score })
        },
        None => None,
    }
}

} // verus!
