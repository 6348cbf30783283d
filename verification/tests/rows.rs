use songmatch::config::SpectrogramConfig;
use songmatch::segments::{duration_ms, plan_segment, plan_segments, IngestError, Segment};
use songmatch::vectors::count_values;

fn vector_of(values: usize) -> String {
    let parts: Vec<String> = (0..values).map(|i| format!("{}.5", i)).collect();
    format!("[{}]", parts.join(","))
}

#[test]
fn values_of_a_vector_are_counted() {
    assert_eq!(count_values("[]"), Some(0));
    assert_eq!(count_values("[1.0]"), Some(1));
    assert_eq!(count_values("[1.0,2.0]"), Some(2));
    assert_eq!(count_values("[1.0,2.5e-5,NaN,inf,-inf,0.0]"), Some(6));
    assert_eq!(count_values(&vector_of(640)), Some(640));
}

#[test]
fn what_is_no_vector_has_no_count() {
    for text in [
        "",
        "[",
        "]",
        "][",
        "1.0,2.0",
        "[1.0,2.0",
        "1.0,2.0]",
        "[1.0, 2.0]",
        "[ ]",
        "[,]",
        "[1.0,]",
        "[,1.0]",
        "[1.0,,2.0]",
        "[1.0|2.0]",
        "[1.0\n]",
        "[[1.0]]",
        "[1.0]]",
        "[1.0]\n",
        "[1.0\u{7f}]",
        "[1.\u{e9}]",
        "[\u{ff3b}]",
    ] {
        assert_eq!(count_values(text), None, "{:?}", text);
    }
}

#[test]
fn segments_are_numbered_and_timed() {
    let cfg = SpectrogramConfig { fft_len: 4, overlap: 2 };
    let vectors = vec!["[0.5,0.25]".to_string(), "[1.0,2.0]".to_string(), "[3.0,4.0]".to_string()];
    let segments = plan_segments(7, 0, vectors.clone(), 1000, &cfg).unwrap();
    assert_eq!(
        segments,
        vec![
            Segment {
                recording_id: 7,
                index: 0,
                vector: "[0.5,0.25]".to_string(),
                start_ms: 0,
                end_ms: 4
            },
            Segment {
                recording_id: 7,
                index: 1,
                vector: "[1.0,2.0]".to_string(),
                start_ms: 2,
                end_ms: 6
            },
            Segment {
                recording_id: 7,
                index: 2,
                vector: "[3.0,4.0]".to_string(),
                start_ms: 4,
                end_ms: 8
            },
        ]
    );
}

#[test]
fn rows_are_barred_lines() {
    let cfg = SpectrogramConfig { fft_len: 4, overlap: 2 };
    let vectors = vec!["[0.5,0.25]".to_string(), "[1.0,2.0]".to_string()];
    let segments = plan_segments(7, 0, vectors.clone(), 1000, &cfg).unwrap();
    assert_eq!(segments[0].row(), "7|0|[0.5,0.25]|0|4\n");
    assert_eq!(segments[1].row(), "7|1|[1.0,2.0]|2|6\n");
}

#[test]
fn row_of_a_negative_recording() {
    let segment = Segment {
        recording_id: -12,
        index: 1280,
        vector: "[]".to_string(),
        start_ms: -1,
        end_ms: i64::MAX,
    };
    assert_eq!(segment.row(), "-12|1280|[]|-1|9223372036854775807\n");
}

#[test]
fn three_second_recording_round_trip() {
    let cfg = SpectrogramConfig { fft_len: 1280, overlap: 320 };
    let frames = cfg.frame_count(90_000);
    assert_eq!(frames, 93);
    let vectors: Vec<String> = (0..frames).map(|_| vector_of(640)).collect();
    let segments = plan_segments(1, 0, vectors.clone(), 30_000, &cfg).unwrap();
    assert_eq!(segments.len(), 93);
    for (i, segment) in segments.iter().enumerate() {
        assert_eq!(segment.index, i);
        assert_eq!(segment.recording_id, 1);
        assert_eq!(segment.start_ms, (i as i64 * 960 * 1000) / 30_000);
        assert_eq!(segment.end_ms, ((i as i64 * 960 + 1280) * 1000) / 30_000);
        assert_eq!(count_values(&segment.vector), Some(640));
        if i > 0 {
            assert!(segment.start_ms > segments[i - 1].start_ms);
            assert!(segment.end_ms > segments[i - 1].end_ms);
        }
    }
    // floor((92 * 960 + 1280) * 1000 / 30000) = floor(2986.67)
    assert_eq!(duration_ms(&segments), Some(2986));
}

#[test]
fn no_frame_gives_no_segment() {
    let cfg = SpectrogramConfig { fft_len: 1280, overlap: 320 };
    assert_eq!(cfg.frame_count(1000), 0);
    let segments = plan_segments(5, 0, Vec::new(), 30_000, &cfg).unwrap();
    assert!(segments.is_empty());
    assert_eq!(duration_ms(&segments), None);
}

#[test]
fn planning_twice_gives_the_same_rows() {
    let cfg = SpectrogramConfig { fft_len: 6, overlap: 1 };
    let vectors: Vec<String> = (0..20).map(|_| vector_of(3)).collect();
    let one = plan_segments(9, 0, vectors.clone(), 44_100, &cfg).unwrap();
    let other = plan_segments(9, 0, vectors.clone(), 44_100, &cfg).unwrap();
    assert_eq!(one, other);
    let rows: Vec<String> = one.iter().map(|s| s.row()).collect();
    let again: Vec<String> = other.iter().map(|s| s.row()).collect();
    assert_eq!(rows, again);
}

#[test]
fn recording_with_segments_is_refused() {
    let cfg = SpectrogramConfig { fft_len: 4, overlap: 2 };
    let vectors = vec!["[0.5,0.25]".to_string()];
    assert_eq!(plan_segments(7, 1, vectors.clone(), 1000, &cfg), Err(IngestError::SegmentsPresent));
    assert_eq!(plan_segments(7, 93, Vec::new(), 0, &cfg), Err(IngestError::SegmentsPresent));
    assert!(plan_segments(7, -1, vectors.clone(), 1000, &cfg).is_ok());
}

#[test]
fn zero_sample_rate_is_refused() {
    let cfg = SpectrogramConfig { fft_len: 4, overlap: 2 };
    let vectors = vec!["[0.5,0.25]".to_string()];
    assert_eq!(plan_segments(7, 0, vectors.clone(), 0, &cfg), Err(IngestError::ZeroSampleRate));
}

#[test]
fn first_bad_vector_is_named() {
    let cfg = SpectrogramConfig { fft_len: 4, overlap: 2 };
    let vectors = vec![
        "[0.5,0.25]".to_string(),
        "[1.0]".to_string(),
        "[1.0,2.0,3.0]".to_string(),
        "nonsense".to_string(),
    ];
    assert_eq!(
        plan_segments(7, 0, vectors.clone(), 1000, &cfg),
        Err(IngestError::BadVector { index: 1 })
    );
    let spaced = vec!["[0.5, 0.25]".to_string()];
    assert_eq!(plan_segments(7, 0, spaced, 1000, &cfg), Err(IngestError::BadVector { index: 0 }));
}

#[test]
fn window_of_one_sample_has_a_vector_of_no_value() {
    let cfg = SpectrogramConfig { fft_len: 1, overlap: 0 };
    let vectors = vec!["[]".to_string(), "[]".to_string()];
    let segments = plan_segments(7, 0, vectors.clone(), 1, &cfg).unwrap();
    assert_eq!(segments[1].row(), "7|1|[]|1000|2000\n");
    let filled = vec!["[1.0]".to_string()];
    assert_eq!(plan_segments(7, 0, filled, 1, &cfg), Err(IngestError::BadVector { index: 0 }));
}

#[test]
fn vector_is_looked_at_before_the_time() {
    // the only frame would end after the last millisecond that the store can hold
    let wide = SpectrogramConfig { fft_len: usize::MAX, overlap: usize::MAX - 1 };
    let lone = vec!["[]".to_string()];
    assert_eq!(plan_segments(7, 0, lone, 1, &wide), Err(IngestError::BadVector { index: 0 }));
}

#[test]
fn duration_is_the_latest_end() {
    let make = |index: usize, end_ms: i64| Segment {
        recording_id: 1,
        index,
        vector: "[]".to_string(),
        start_ms: 0,
        end_ms,
    };
    assert_eq!(duration_ms(&vec![make(0, 42)]), Some(42));
    assert_eq!(duration_ms(&vec![make(0, 42), make(1, 74), make(2, 106)]), Some(106));
    assert_eq!(duration_ms(&vec![make(0, 9), make(1, 3), make(2, 5)]), Some(9));
    assert_eq!(duration_ms(&vec![make(0, -9), make(1, -3)]), Some(-3));
}

#[test]
fn one_frame_is_laid_out_alone() {
    let cfg = SpectrogramConfig { fft_len: 1280, overlap: 320 };
    let segment = plan_segment(4, 92, vector_of(640), 30_000, &cfg).unwrap();
    assert_eq!(
        segment,
        Segment {
            recording_id: 4,
            index: 92,
            vector: vector_of(640),
            start_ms: 2944,
            end_ms: 2986
        }
    );
}

#[test]
fn one_frame_at_fault_is_named() {
    let cfg = SpectrogramConfig { fft_len: 4, overlap: 2 };
    assert_eq!(
        plan_segment(4, 17, "[1.0]".to_string(), 1000, &cfg),
        Err(IngestError::BadVector { index: 17 })
    );
    assert_eq!(
        plan_segment(4, 17, "[1.0;2.0".to_string(), 1000, &cfg),
        Err(IngestError::BadVector { index: 17 })
    );
    let tiny = SpectrogramConfig { fft_len: 1, overlap: 0 };
    assert_eq!(
        plan_segment(4, usize::MAX - 1, "[]".to_string(), 1, &tiny),
        Err(IngestError::TimeOutOfRange { index: usize::MAX - 1 })
    );
    assert_eq!(
        plan_segment(4, 9_223_372_036_854_774, "[]".to_string(), 1, &tiny)
            .map(|s| (s.start_ms, s.end_ms)),
        Ok((9_223_372_036_854_774_000, 9_223_372_036_854_775_000))
    );
    assert_eq!(
        plan_segment(4, 9_223_372_036_854_775, "[]".to_string(), 1, &tiny),
        Err(IngestError::TimeOutOfRange { index: 9_223_372_036_854_775 })
    );
}
