//! The segments of a recording: one per frame, numbered from zero, each with
//! its vector and its start and end time, and the row in which each goes to
//! the store.

use vstd::prelude::*;
use vstd::string::StringExecFns;
use crate::config::SpectrogramConfig;
use crate::text::{
    decimal,
    lemma_decimal_is_digits,
    lemma_occurrences_add,
    lemma_occurrences_none,
    lemma_signed_decimal_is_plain,
    occurrences,
    push_decimal,
    push_signed_decimal,
    signed_decimal,
};
use crate::timing::{
    end_ms,
    lemma_short_stride_repeats_start,
    lemma_start_before_end,
    lemma_times_monotone,
    lemma_times_strictly_increase,
    segment_times,
    start_ms,
};
use crate::vectors::{count_values, is_value_char, is_vector_text, vector_dimension};

verus! {

/// One frame of a recording as the store holds it.
#[derive(Debug, Clone, PartialEq, Eq)]
pub struct Segment {
    pub recording_id: i64,
    pub index: usize,
    pub vector: String,
    pub start_ms: i64,
    pub end_ms: i64,
}

/// Why the frames of a recording cannot be stored.
#[derive(Debug, Clone, Copy, PartialEq, Eq)]
pub enum IngestError {
    /// The store already holds segments of the recording.
    SegmentsPresent,
    /// No time can be told at a sample rate of zero.
    ZeroSampleRate,
    /// The vector of the frame at `index` is no vector, or has not half as
    /// many values as the window has samples.
    BadVector { index: usize },
    /// The frame at `index` ends later than the store can record.
    TimeOutOfRange { index: usize },
}

/// What is wrong with frame `i` when its vector is `vector`, if anything:
/// first the vector is looked at, then the frame's end time.
pub open spec fn vector_fault(
    vector: Seq<char>,
    i: int,
    samplerate: nat,
    cfg: SpectrogramConfig,
) -> Option<IngestError> {
    if vector_dimension(vector) != Some(cfg.spec_vector_len()) {
        Some(IngestError::BadVector { index: i as usize })
    } else if end_ms(i as nat, cfg.fft_len as nat, cfg.overlap as nat, samplerate) > i64::MAX {
        Some(IngestError::TimeOutOfRange { index: i as usize })
    } else {
        None
    }
}

/// What is wrong with frame `i` of the frames with the vectors `vectors`.
pub open spec fn frame_fault(
    vectors: Seq<String>,
    i: int,
    samplerate: nat,
    cfg: SpectrogramConfig,
) -> Option<IngestError> {
    vector_fault(vectors[i]@, i, samplerate, cfg)
}

/// The segment that frame `i` of a recording becomes.
pub open spec fn segment_at(
    recording_id: i64,
    vectors: Seq<String>,
    i: int,
    samplerate: nat,
    cfg: SpectrogramConfig,
) -> Segment {
    Segment {
        recording_id,
        index: i as usize,
        vector: vectors[i],
        start_ms: start_ms(i as nat, cfg.fft_len as nat, cfg.overlap as nat, samplerate) as i64,
        end_ms: end_ms(i as nat, cfg.fft_len as nat, cfg.overlap as nat, samplerate) as i64,
    }
}

/// `segments` are the segments of the recording whose frames have the vectors
/// `vectors`: one for each frame, in the frames' order, none of them at fault.
pub open spec fn is_plan(
    segments: Seq<Segment>,
    recording_id: i64,
    vectors: Seq<String>,
    samplerate: nat,
    cfg: SpectrogramConfig,
) -> bool {
    &&& segments.len() == vectors.len()
    &&& vectors.len() <= usize::MAX
    &&& forall|i: int|
        0 <= i < segments.len() ==> #[trigger] segments[i] == segment_at(
            recording_id,
            vectors,
            i,
            samplerate,
            cfg,
        )
    &&& forall|i: int|
        0 <= i < vectors.len() ==> #[trigger] frame_fault(vectors, i, samplerate, cfg) is None
}

/// Frame `first` is at fault with `fault`, and no frame before it is at fault.
pub open spec fn is_first_fault(
    vectors: Seq<String>,
    first: int,
    samplerate: nat,
    cfg: SpectrogramConfig,
    fault: IngestError,
) -> bool {
    &&& 0 <= first < vectors.len()
    &&& frame_fault(vectors, first, samplerate, cfg) == Some(fault)
    &&& forall|i: int|
        0 <= i < first ==> #[trigger] frame_fault(vectors, i, samplerate, cfg) is None
}

/// The row of a segment: recording, index, vector, start and end, with a bar
/// between any two and a line feed at the end.
pub open spec fn row_text(segment: Segment) -> Seq<char> {
    signed_decimal(segment.recording_id as int) + seq!['|'] + decimal(segment.index as nat)
        + seq!['|'] + segment.vector@ + seq!['|'] + signed_decimal(segment.start_ms as int)
        + seq!['|'] + signed_decimal(segment.end_ms as int) + seq!['\n']
}

/// `end` is the latest end time among `segments`.
pub open spec fn is_latest_end(segments: Seq<Segment>, end: i64) -> bool {
    &&& exists|i: int| 0 <= i < segments.len() && segments[i].end_ms == end
    &&& forall|i: int| 0 <= i < segments.len() ==> (#[trigger] segments[i]).end_ms <= end
}

impl Segment {
    /// The row in which this segment goes to the store.
    pub fn row(&self) -> (r: String)
        ensures
            r@ == row_text(*self),
    {
        proof {
            reveal_strlit("|");
            reveal_strlit("\n");
        }
        let mut out: String = String::new();
        push_signed_decimal(&mut out, self.recording_id);
        out.append("|");
        push_decimal(&mut out, self.index as u64);
        out.append("|");
        out.append(self.vector.as_str());
        out.append("|");
        push_signed_decimal(&mut out, self.start_ms);
        out.append("|");
        push_signed_decimal(&mut out, self.end_ms);
        out.append("\n");
        assert(out@ =~= row_text(*self));
        out
    }
}

/// Lays out the segments of a recording, one for each of `vectors` in their
/// order. Nothing is laid out where the store already holds segments of the
/// recording, where the sample rate is zero, or where a frame is at fault:
/// the first such frame is named.
pub fn plan_segments(
    recording_id: i64,
    segments_present: i64,
    vectors: Vec<String>,
    samplerate: usize,
    cfg: &SpectrogramConfig,
) -> (r: Result<Vec<Segment>, IngestError>)
    requires
        cfg.valid(),
    ensures
        match r {
            Ok(segments) => segments_present <= 0 && samplerate > 0 && is_plan(
                segments@,
                recording_id,
                vectors@,
                samplerate as nat,
                *cfg,
            ),
            Err(IngestError::SegmentsPresent) => segments_present > 0,
            Err(IngestError::ZeroSampleRate) => segments_present <= 0 && samplerate == 0,
            Err(fault) => segments_present <= 0 && samplerate > 0 && exists|first: int|
                is_first_fault(vectors@, first, samplerate as nat, *cfg, fault),
        },
{
    broadcast use vstd::std_specs::vec::axiom_spec_into_iter;

    if segments_present > 0 {
        return Err(IngestError::SegmentsPresent);
    }
    if samplerate == 0 {
        return Err(IngestError::ZeroSampleRate);
    }
    let ghost all = vectors@;
    let total: usize = vectors.len();
    let mut segments: Vec<Segment> = Vec::new();
    for vector in it: vectors.into_iter()
        invariant
            cfg.valid(),
            segments_present <= 0,
            samplerate > 0,
            it.seq() == all,
            all.len() == total,
            segments@.len() == it.index(),
            forall|j: int|
                0 <= j < it.index() ==> #[trigger] segments@[j] == segment_at(
                    recording_id,
                    all,
                    j,
                    samplerate as nat,
                    *cfg,
                ),
            forall|j: int|
                0 <= j < it.index() ==> #[trigger] frame_fault(all, j, samplerate as nat, *cfg)
                    is None,
    {
        let index: usize = segments.len();
        assert(vector == all[index as int]);
        match plan_segment(recording_id, index, vector, samplerate, cfg) {
            Ok(segment) => {
                segments.push(segment);
            },
            Err(fault) => {
                assert(is_first_fault(all, index as int, samplerate as nat, *cfg, fault));
                return Err(fault);
            },
        }
    }
    Ok(segments)
}

/// Lays out the segment of frame `index` of a recording, whose vector is
/// `vector`. Nothing is laid out where the vector is no vector of half as many
/// values as the window has samples, or else where the frame ends later than
/// the store can record.
pub fn plan_segment(
    recording_id: i64,
    index: usize,
    vector: String,
    samplerate: usize,
    cfg: &SpectrogramConfig,
) -> (r: Result<Segment, IngestError>)
    requires
        cfg.valid(),
        samplerate > 0,
    ensures
        match r {
            Ok(segment) => vector_fault(vector@, index as int, samplerate as nat, *cfg) is None
                && segment == (Segment {
                recording_id,
                index,
                vector,
                start_ms: start_ms(
                    index as nat,
                    cfg.fft_len as nat,
                    cfg.overlap as nat,
                    samplerate as nat,
                ) as i64,
                end_ms: end_ms(
                    index as nat,
                    cfg.fft_len as nat,
                    cfg.overlap as nat,
                    samplerate as nat,
                ) as i64,
            }),
            Err(fault) => vector_fault(vector@, index as int, samplerate as nat, *cfg) == Some(
                fault,
            ),
        },
{
    let fits: bool = match count_values(vector.as_str()) {
        Some(found) => found == cfg.vector_len(),
        None => false,
    };
    if !fits {
        return Err(IngestError::BadVector { index });
    }
    match segment_times(index, samplerate, cfg) {
        Some((start, end)) => Ok(
            Segment { recording_id, index, vector, start_ms: start, end_ms: end },
        ),
        None => Err(IngestError::TimeOutOfRange { index }),
    }
}

/// The latest end time among `segments`: the length of their recording in
/// milliseconds. Nothing where there is no segment.
pub fn duration_ms(segments: &Vec<Segment>) -> (r: Option<i64>)
    ensures
        r is None <==> segments@.len() == 0,
        r matches Some(end) ==> is_latest_end(segments@, end),
{
    if segments.len() == 0 {
        return None;
    }
    let mut latest: i64 = segments[0].end_ms;
    let mut i: usize = 1;
    while i < segments.len()
        invariant
            1 <= i <= segments@.len(),
            exists|j: int| 0 <= j < i && segments@[j].end_ms == latest,
            forall|j: int| 0 <= j < i ==> (#[trigger] segments@[j]).end_ms <= latest,
        decreases segments@.len() - i,
    {
        if segments[i].end_ms > latest {
            latest = segments[i].end_ms;
        }
        i += 1;
    }
    Some(latest)
}

/// The segments of a recording are numbered from zero without a gap, belong to
/// the recording, and each holds a vector of half as many values as the window
/// has samples. Their times never run backwards.
pub proof fn lemma_plan_is_dense(
    segments: Seq<Segment>,
    recording_id: i64,
    vectors: Seq<String>,
    samplerate: nat,
    cfg: SpectrogramConfig,
)
    requires
        cfg.valid(),
        samplerate > 0,
        is_plan(segments, recording_id, vectors, samplerate, cfg),
    ensures
        forall|i: int|
            0 <= i < segments.len() ==> (#[trigger] segments[i]).index == i
                && segments[i].recording_id == recording_id && vector_dimension(
                segments[i].vector@,
            ) == Some(cfg.spec_vector_len()),
        forall|i: int|
            0 <= i < segments.len() ==> 0 <= (#[trigger] segments[i]).start_ms
                <= segments[i].end_ms,
        forall|i: int, j: int|
            0 <= i <= j < segments.len() ==> (#[trigger] segments[i]).start_ms <= (
            #[trigger] segments[j]).start_ms && segments[i].end_ms <= segments[j].end_ms,
{
    assert forall|i: int| 0 <= i < segments.len() implies (#[trigger] segments[i]).index == i
        && segments[i].recording_id == recording_id && vector_dimension(segments[i].vector@)
        == Some(cfg.spec_vector_len()) && 0 <= segments[i].start_ms <= segments[i].end_ms by {
        lemma_segment_times_fit(segments, recording_id, vectors, samplerate, cfg, i);
    }
    assert forall|i: int, j: int| 0 <= i <= j < segments.len() implies (
    #[trigger] segments[i]).start_ms <= (#[trigger] segments[j]).start_ms && segments[i].end_ms
        <= segments[j].end_ms by {
        lemma_segment_times_fit(segments, recording_id, vectors, samplerate, cfg, i);
        lemma_segment_times_fit(segments, recording_id, vectors, samplerate, cfg, j);
        lemma_times_monotone(
            i as nat,
            j as nat,
            cfg.fft_len as nat,
            cfg.overlap as nat,
            samplerate,
        );
    }
}

/// Where a stride lasts at least a millisecond, each segment of a recording
/// starts and ends strictly later than the one before it. (Where it lasts
/// less, the first two segments start in the same millisecond.)
pub proof fn lemma_plan_times_increase(
    segments: Seq<Segment>,
    recording_id: i64,
    vectors: Seq<String>,
    samplerate: nat,
    cfg: SpectrogramConfig,
)
    requires
        cfg.valid(),
        samplerate > 0,
        cfg.spec_stride() * 1000 >= samplerate || segments.len() <= 1,
        is_plan(segments, recording_id, vectors, samplerate, cfg),
    ensures
        forall|i: int, j: int|
            0 <= i < j < segments.len() ==> (#[trigger] segments[i]).start_ms < (
            #[trigger] segments[j]).start_ms && segments[i].end_ms < segments[j].end_ms,
{
    assert forall|i: int, j: int| 0 <= i < j < segments.len() implies (
    #[trigger] segments[i]).start_ms < (#[trigger] segments[j]).start_ms && segments[i].end_ms
        < segments[j].end_ms by {
        lemma_segment_times_fit(segments, recording_id, vectors, samplerate, cfg, i);
        lemma_segment_times_fit(segments, recording_id, vectors, samplerate, cfg, j);
        lemma_times_strictly_increase(
            i as nat,
            j as nat,
            cfg.fft_len as nat,
            cfg.overlap as nat,
            samplerate,
        );
    }
}

/// The length of a recording of `K >= 1` segments is the end of its last
/// segment: `floor(((K - 1) * stride + fft_len) * 1000 / samplerate)`.
pub proof fn lemma_duration_is_last_end(
    segments: Seq<Segment>,
    recording_id: i64,
    vectors: Seq<String>,
    samplerate: nat,
    cfg: SpectrogramConfig,
    end: i64,
)
    requires
        cfg.valid(),
        samplerate > 0,
        is_plan(segments, recording_id, vectors, samplerate, cfg),
        is_latest_end(segments, end),
    ensures
        segments.len() >= 1,
        end == end_ms(
            (segments.len() - 1) as nat,
            cfg.fft_len as nat,
            cfg.overlap as nat,
            samplerate,
        ),
        end == ((segments.len() - 1) * (cfg.fft_len - cfg.overlap) + cfg.fft_len) * 1000 / (
        samplerate as int),
{
    let last = segments.len() - 1;
    let at = choose|at: int| 0 <= at < segments.len() && segments[at].end_ms == end;
    lemma_plan_is_dense(segments, recording_id, vectors, samplerate, cfg);
    lemma_segment_times_fit(segments, recording_id, vectors, samplerate, cfg, last);
    assert(segments[at].end_ms <= segments[last].end_ms);
    assert(segments[last].end_ms <= end);
}

/// The row of a segment whose vector is a vector can be taken apart again: it
/// holds the four bars that part its five fields and no other, and one line
/// feed, at its end.
pub proof fn lemma_row_is_framed(segment: Segment)
    requires
        is_vector_text(segment.vector@),
    ensures
        occurrences(row_text(segment), '|') == 4,
        occurrences(row_text(segment), '\n') == 1,
        row_text(segment).last() == '\n',
{
    lemma_row_counts(segment, '|');
    lemma_row_counts(segment, '\n');
    assert(occurrences(seq!['|'], '|') == 1) by {
        assert(seq!['|'].drop_last() =~= Seq::<char>::empty());
        assert(occurrences(Seq::<char>::empty(), '|') == 0);
    }
    assert(occurrences(seq!['|'], '\n') == 0) by {
        lemma_occurrences_none(seq!['|'], '\n');
    }
    assert(occurrences(seq!['\n'], '\n') == 1) by {
        assert(seq!['\n'].drop_last() =~= Seq::<char>::empty());
        assert(occurrences(Seq::<char>::empty(), '\n') == 0);
    }
    assert(occurrences(seq!['\n'], '|') == 0) by {
        lemma_occurrences_none(seq!['\n'], '|');
    }
}

/// Every row of a recording's segments can be taken apart again.
pub proof fn lemma_planned_rows_are_framed(
    segments: Seq<Segment>,
    recording_id: i64,
    vectors: Seq<String>,
    samplerate: nat,
    cfg: SpectrogramConfig,
)
    requires
        is_plan(segments, recording_id, vectors, samplerate, cfg),
    ensures
        forall|i: int|
            0 <= i < segments.len() ==> occurrences(row_text(#[trigger] segments[i]), '|') == 4
                && occurrences(row_text(segments[i]), '\n') == 1 && row_text(segments[i]).last()
                == '\n',
{
    assert forall|i: int| 0 <= i < segments.len() implies occurrences(
        row_text(#[trigger] segments[i]),
        '|',
    ) == 4 && occurrences(row_text(segments[i]), '\n') == 1 && row_text(segments[i]).last()
        == '\n' by {
        assert(segments[i] == segment_at(recording_id, vectors, i, samplerate, cfg));
        assert(frame_fault(vectors, i, samplerate, cfg) is None);
        lemma_row_is_framed(segments[i]);
    }
}

/// A bar or a line feed stands in a row as often as in the bars and the line
/// feed that frame it: the fields hold neither.
proof fn lemma_row_counts(segment: Segment, c: char)
    requires
        is_vector_text(segment.vector@),
        c == '|' || c == '\n',
    ensures
        occurrences(row_text(segment), c) == 4 * occurrences(seq!['|'], c) + occurrences(
            seq!['\n'],
            c,
        ),
{
    let id = signed_decimal(segment.recording_id as int);
    let index = decimal(segment.index as nat);
    let vector = segment.vector@;
    let start = signed_decimal(segment.start_ms as int);
    let end = signed_decimal(segment.end_ms as int);
    let bar = seq!['|'];
    let feed = seq!['\n'];
    lemma_signed_decimal_is_plain(segment.recording_id as int);
    lemma_decimal_is_digits(segment.index as nat);
    lemma_signed_decimal_is_plain(segment.start_ms as int);
    lemma_signed_decimal_is_plain(segment.end_ms as int);
    lemma_occurrences_none(id, c);
    lemma_occurrences_none(index, c);
    lemma_occurrences_none(start, c);
    lemma_occurrences_none(end, c);
    assert forall|i: int| 0 <= i < vector.len() implies vector[i] != c by {
        if 0 < i < vector.len() - 1 {
            assert(is_value_char(vector[i]) || vector[i] == ',');
        }
    }
    lemma_occurrences_none(vector, c);
    lemma_occurrences_add(id, bar, c);
    lemma_occurrences_add(id + bar, index, c);
    lemma_occurrences_add(id + bar + index, bar, c);
    lemma_occurrences_add(id + bar + index + bar, vector, c);
    lemma_occurrences_add(id + bar + index + bar + vector, bar, c);
    lemma_occurrences_add(id + bar + index + bar + vector + bar, start, c);
    lemma_occurrences_add(id + bar + index + bar + vector + bar + start, bar, c);
    lemma_occurrences_add(id + bar + index + bar + vector + bar + start + bar, end, c);
    lemma_occurrences_add(id + bar + index + bar + vector + bar + start + bar + end, feed, c);
}

/// The segments of a recording are determined by its identifier, its frames'
/// vectors, the sample rate and the configuration: laid out twice, they are
/// the same, and so are their rows.
pub proof fn lemma_plan_is_unique(
    one: Seq<Segment>,
    other: Seq<Segment>,
    recording_id: i64,
    vectors: Seq<String>,
    samplerate: nat,
    cfg: SpectrogramConfig,
)
    requires
        is_plan(one, recording_id, vectors, samplerate, cfg),
        is_plan(other, recording_id, vectors, samplerate, cfg),
    ensures
        one == other,
        forall|i: int| 0 <= i < one.len() ==> row_text(#[trigger] one[i]) == row_text(other[i]),
{
    assert(one =~= other);
}

/// A buffer shorter than one window has no frame, and a recording without
/// frames has no segment.
pub proof fn lemma_short_buffer_has_no_segment(
    samples: nat,
    segments: Seq<Segment>,
    recording_id: i64,
    vectors: Seq<String>,
    samplerate: nat,
    cfg: SpectrogramConfig,
)
    requires
        samples < cfg.fft_len,
        vectors.len() == cfg.spec_frame_count(samples),
        is_plan(segments, recording_id, vectors, samplerate, cfg),
    ensures
        segments.len() == 0,
{
}

/// Where a stride lasts less than a millisecond, the first two segments of a
/// recording start in the same millisecond.
pub proof fn lemma_plan_times_repeat(
    segments: Seq<Segment>,
    recording_id: i64,
    vectors: Seq<String>,
    samplerate: nat,
    cfg: SpectrogramConfig,
)
    requires
        cfg.valid(),
        cfg.spec_stride() * 1000 < samplerate,
        segments.len() >= 2,
        is_plan(segments, recording_id, vectors, samplerate, cfg),
    ensures
        segments[0].start_ms == segments[1].start_ms,
{
    lemma_segment_times_fit(segments, recording_id, vectors, samplerate, cfg, 0);
    lemma_segment_times_fit(segments, recording_id, vectors, samplerate, cfg, 1);
    lemma_short_stride_repeats_start(cfg.fft_len as nat, cfg.overlap as nat, samplerate);
}

/// The times of a planned segment are the times of its frame, unclipped.
proof fn lemma_segment_times_fit(
    segments: Seq<Segment>,
    recording_id: i64,
    vectors: Seq<String>,
    samplerate: nat,
    cfg: SpectrogramConfig,
    i: int,
)
    requires
        cfg.valid(),
        samplerate > 0,
        is_plan(segments, recording_id, vectors, samplerate, cfg),
        0 <= i < segments.len(),
    ensures
        segments[i].index == i,
        segments[i].recording_id == recording_id,
        vector_dimension(segments[i].vector@) == Some(cfg.spec_vector_len()),
        segments[i].start_ms == start_ms(
            i as nat,
            cfg.fft_len as nat,
            cfg.overlap as nat,
            samplerate,
        ),
        segments[i].end_ms == end_ms(i as nat, cfg.fft_len as nat, cfg.overlap as nat, samplerate),
        0 <= segments[i].start_ms <= segments[i].end_ms,
{
    assert(segments[i] == segment_at(recording_id, vectors, i, samplerate, cfg));
    assert(frame_fault(vectors, i, samplerate, cfg) is None);
    lemma_start_before_end(i as nat, cfg.fft_len as nat, cfg.overlap as nat, samplerate);
}

} // verus!
