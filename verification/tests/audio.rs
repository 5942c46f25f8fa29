use tutanak::audio::{chunk_wav, max_frames_for_threshold, plan_chunks, ChunkSpec, WavInfo};

fn info(sr: u32, ch: u16) -> WavInfo {
    WavInfo { sample_rate: sr, channels: ch, bits_per_sample: 16, total_frames: 0 }
}

#[test]
fn empty_audio_yields_no_chunks() {
    assert!(plan_chunks(0, 100, 10).is_empty());
}

#[test]
fn single_chunk_when_under_max() {
    let c = plan_chunks(50, 100, 10);
    assert_eq!(c, vec![ChunkSpec { start_frame: 0, end_frame: 50 }]);
}

#[test]
fn exactly_at_threshold_is_one_chunk() {
    let c = plan_chunks(100, 100, 10);
    assert_eq!(c.len(), 1);
    assert_eq!(c[0], ChunkSpec { start_frame: 0, end_frame: 100 });
}

#[test]
fn long_audio_splits_with_overlap_and_covers_everything() {
    let total = 1000;
    let max = 300;
    let overlap = 50;
    let chunks = plan_chunks(total, max, overlap);

    for c in &chunks {
        assert!(c.frames() <= max, "chunk too big: {:?}", c);
    }
    assert_eq!(chunks.first().unwrap().start_frame, 0);
    assert_eq!(chunks.last().unwrap().end_frame, total);
    for pair in chunks.windows(2) {
        let (a, b) = (pair[0], pair[1]);
        assert!(b.start_frame < a.end_frame, "gap between {:?} and {:?}", a, b);
        assert_eq!(a.end_frame - b.start_frame, overlap);
    }
}

#[test]
fn overlap_larger_than_max_still_makes_progress() {
    let chunks = plan_chunks(500, 100, 999);
    assert!(chunks.last().unwrap().end_frame == 500);
    assert!(chunks.len() < 100);
}

#[test]
fn max_frames_for_threshold_respects_size() {
    let i = info(16_000, 1);
    let f = max_frames_for_threshold(&i, 25_000_000);
    assert!(f > 12_000_000 && f < 12_500_000);
}

#[test]
fn plan_chunks_exact_windows() {
    // stride = 300 - 50 = 250: windows start at 0, 250, 500, 750.
    let c = plan_chunks(1000, 300, 50);
    assert_eq!(
        c,
        vec![
            ChunkSpec { start_frame: 0, end_frame: 300 },
            ChunkSpec { start_frame: 250, end_frame: 550 },
            ChunkSpec { start_frame: 500, end_frame: 800 },
            ChunkSpec { start_frame: 750, end_frame: 1000 },
        ]
    );
}

#[test]
fn overlap_is_capped_at_half_a_chunk() {
    // overlap 999 is capped at 50, so the stride is 50.
    let c = plan_chunks(200, 100, 999);
    assert_eq!(c[0], ChunkSpec { start_frame: 0, end_frame: 100 });
    assert_eq!(c[1], ChunkSpec { start_frame: 50, end_frame: 150 });
    assert_eq!(c.last().unwrap().end_frame, 200);
}

#[test]
fn zero_max_frames_is_clamped_to_one() {
    let c = plan_chunks(3, 0, 0);
    assert_eq!(
        c,
        vec![
            ChunkSpec { start_frame: 0, end_frame: 1 },
            ChunkSpec { start_frame: 1, end_frame: 2 },
            ChunkSpec { start_frame: 2, end_frame: 3 },
        ]
    );
}

#[test]
fn max_frames_exact_value() {
    // (25_000_000 - 1024) / 2 bytes per frame.
    assert_eq!(max_frames_for_threshold(&info(16_000, 1), 25_000_000), 12_499_488);
    // Stereo 16-bit: 4 bytes per frame.
    assert_eq!(max_frames_for_threshold(&info(16_000, 2), 5_024), 1_000);
    // More frames than a 32-bit position can hold saturate.
    assert_eq!(max_frames_for_threshold(&info(16_000, 1), (1u64 << 33) + 1024), u32::MAX);
    // A threshold below the header margin still allows one frame.
    assert_eq!(max_frames_for_threshold(&info(16_000, 1), 100), 1);
}

#[test]
fn bytes_per_frame_counts_channels() {
    assert_eq!(info(16_000, 2).bytes_per_frame(), 4);
    let eight = WavInfo { sample_rate: 8_000, channels: 1, bits_per_sample: 8, total_frames: 0 };
    assert_eq!(eight.bytes_per_frame(), 1);
}

#[test]
fn chunk_wav_encodes_the_window() {
    let i = info(16_000, 1);
    let spec = ChunkSpec { start_frame: 10, end_frame: 13 };
    let samples: Vec<i16> = vec![1, -2, 3, 4, 5];
    let bytes = chunk_wav(&i, spec, &samples).unwrap();
    // 44-byte header and three 16-bit samples.
    assert_eq!(bytes.len(), 44 + 6);
    assert_eq!(&bytes[0..4], b"RIFF");
    assert_eq!(&bytes[8..12], b"WAVE");
    assert_eq!(&bytes[44..50], &[1u8, 0, 0xfe, 0xff, 3, 0][..]);
}

#[test]
fn chunk_wav_takes_what_was_read() {
    let i = info(16_000, 1);
    let spec = ChunkSpec { start_frame: 0, end_frame: 100 };
    let samples: Vec<i16> = vec![7, 8];
    let bytes = chunk_wav(&i, spec, &samples).unwrap();
    assert_eq!(bytes.len(), 44 + 4);
}

#[test]
fn chunk_wav_refuses_unsupported_depth() {
    let i = WavInfo { sample_rate: 16_000, channels: 1, bits_per_sample: 12, total_frames: 0 };
    let spec = ChunkSpec { start_frame: 0, end_frame: 2 };
    assert!(chunk_wav(&i, spec, &[1, 2]).is_none());
}
