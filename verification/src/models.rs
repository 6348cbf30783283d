//! What the store holds of a recording and of a singer.

use std::collections::HashMap;
use vstd::prelude::*;

verus! {

/// A calendar date, as year, month and day of the month.
#[derive(Debug, Clone, Copy, PartialEq, Eq)]
pub struct CalendarDate {
    pub year: i32,
    pub month: u8,
    pub day: u8,
}

impl CalendarDate {
    /// The month is one of the twelve and the day one of at most thirty-one.
    pub open spec fn in_range(&self) -> bool {
        1 <= self.month <= 12 && 1 <= self.day <= 31
    }
}

/// A singer: a lookup row that this library only reads.
#[derive(Debug, Clone, PartialEq, Eq)]
pub struct Singer {
    pub id: i16,
    pub name: String,
}

/// What is known of a recording before the store has given it an identifier.
#[derive(Debug, Clone, PartialEq, Eq)]
pub struct SongMetadata {
    pub title: String,
    pub singer_id: i16,
    pub date_first_sung: Option<CalendarDate>,
    pub local_path: Option<String>,
}

/// A stored recording.
#[derive(Debug, Clone, PartialEq, Eq)]
pub struct Song {
    pub id: i64,
    pub metadata: SongMetadata,
}

/// One row of the recordings table, as the store hands it out.
#[derive(Debug, Clone, PartialEq, Eq)]
pub struct SongRow {
    pub id: i64,
    pub title: String,
    pub singer_id: i16,
    pub date_first_sung: Option<CalendarDate>,
    pub local_path: Option<String>,
}

impl SongMetadata {
    /// The metadata of a recording read from the file at `local_path`. A singer
    /// number that does not fit sixteen bits keeps its low sixteen bits.
    pub fn new(
        title: String,
        singer_id: usize,
        date_first_sung: Option<CalendarDate>,
        local_path: String,
    ) -> (r: SongMetadata)
        ensures
            r == (SongMetadata {
                title,
                singer_id: singer_id as i16,
                date_first_sung,
                local_path: Some(local_path),
            }),
    {
        SongMetadata {
            title,
            singer_id: #[verifier::truncate]
            (singer_id as i16),
            date_first_sung,
            local_path: Some(local_path),
        }
    }
}

/// The recording that a lookup by `song_id` found, if it found a row. The
/// recording carries the identifier that was asked for.
pub fn song_from_row(song_id: i64, row: Option<SongRow>) -> (r: Option<Song>)
    ensures
        r == match row {
            Some(found) => Some(
                Song {
                    id: song_id,
                    metadata: SongMetadata {
                        title: found.title,
                        singer_id: found.singer_id,
                        date_first_sung: found.date_first_sung,
                        local_path: found.local_path,
                    },
                },
            ),
            None => None,
        },
{
    match row {
        Some(found) => Some(
            Song {
                id: song_id,
                metadata: SongMetadata {
                    title: found.title,
                    singer_id: found.singer_id,
                    date_first_sung: found.date_first_sung,
                    local_path: found.local_path,
                },
            },
        ),
        None => None,
    }
}

/// Position of the last row of `rows` that is about singer `id`.
pub open spec fn last_row_of(rows: Seq<(i16, String)>, id: i16, at: int) -> bool {
    &&& 0 <= at < rows.len()
    &&& rows[at].0 == id
    &&& forall|later: int| at < later < rows.len() ==> rows[later].0 != id
}

/// The singers by identifier. Where several rows name one identifier, the
/// last of them stands.
pub fn singers_by_id(rows: &Vec<(i16, String)>) -> (r: HashMap<i16, Singer>)
    ensures
        forall|id: i16|
            r@.contains_key(id) <==> exists|at: int| 0 <= at < rows@.len() && rows@[at].0 == id,
        forall|id: i16| #[trigger]
            r@.contains_key(id) ==> r@[id].id == id && exists|at: int|
                last_row_of(rows@, id, at) && r@[id].name == rows@[at].1,
{
    broadcast use vstd::std_specs::hash::group_hash_axioms;

    let mut singers: HashMap<i16, Singer> = HashMap::new();
    let mut i: usize = 0;
    while i < rows.len()
        invariant
            i <= rows@.len(),
            forall|id: i16|
                singers@.contains_key(id) <==> exists|at: int| 0 <= at < i && rows@[at].0 == id,
            forall|id: i16| #[trigger]
                singers@.contains_key(id) ==> singers@[id].id == id && exists|at: int|
                    last_row_of(rows@.take(i as int), id, at) && singers@[id].name == rows@[at].1,
        decreases rows@.len() - i,
    {
        let id: i16 = rows[i].0;
        let name: String = rows[i].1.clone();
        let ghost prior = singers@;
        singers.insert(id, Singer { id, name });
        proof {
            let seen = rows@.take(i as int);
            let now = rows@.take(i + 1);
            assert forall|other: i16|
                singers@.contains_key(other) <==> exists|at: int|
                    0 <= at < i + 1 && rows@[at].0 == other by {
                if other != id && singers@.contains_key(other) {
                    assert(prior.contains_key(other));
                }
                if other == id {
                    assert(rows@[i as int].0 == other);
                }
            }
            assert forall|other: i16| #[trigger] singers@.contains_key(other) implies singers@[other].id
                == other && exists|at: int|
                last_row_of(now, other, at) && singers@[other].name == rows@[at].1 by {
                if other == id {
                    assert(last_row_of(now, id, i as int));
                } else {
                    assert(prior.contains_key(other));
                    let at = choose|at: int|
                        last_row_of(seen, other, at) && prior[other].name == rows@[at].1;
                    assert(now[at] == seen[at]);
                    assert(last_row_of(now, other, at));
                }
            }
        }
        i += 1;
    }
    proof {
        assert(rows@.take(rows@.len() as int) =~= rows@);
    }
    singers
}

} // verus!
