//! WAV facts and chunking for long recordings: how many frames fit under a
//! size threshold, how a recording is cut into overlapping windows, and the
//! standalone WAV a window is sent as.
//!
//! Chunks overlap so that no word is cut at a boundary:
//!
//!   total frames
//!   |------------------------------------------------------|
//!   [   chunk 0   ]
//!             [   chunk 1   ]
//!                       [   chunk 2   ]

use vstd::prelude::*;

verus! {

/// A half-open frame window `[start_frame, end_frame)` into a WAV recording
/// (frames are per-channel sample positions).
#[derive(Debug, Clone, Copy, PartialEq, Eq, Structural)]
pub struct ChunkSpec {
    pub start_frame: u32,
    pub end_frame: u32,
}

impl ChunkSpec {
    /// Number of frames in the window.
    pub fn frames(&self) -> (r: u32)
        requires
            self.start_frame <= self.end_frame,
        ensures
            r == self.end_frame - self.start_frame,
    {
        self.end_frame - self.start_frame
    }
}

/// Basic facts about a WAV recording, as read from its header.
#[derive(Debug, Clone, Copy, PartialEq, Eq, Structural)]
pub struct WavInfo {
    pub sample_rate: u32,
    pub channels: u16,
    pub bits_per_sample: u16,
    /// Frames per channel (total samples / channels).
    pub total_frames: u32,
}

impl WavInfo {
    /// Bytes one frame occupies: channels times whole bytes per sample.
    pub open spec fn spec_bytes_per_frame(&self) -> int {
        self.channels * (self.bits_per_sample / 8)
    }

    pub fn bytes_per_frame(&self) -> (r: u32)
        ensures
            r == self.spec_bytes_per_frame(),
    {
        let bytes: u32 = self.bits_per_sample as u32 / 8;
        assert(self.channels * bytes <= 0xffff * 0x2000) by (nonlinear_arith)
            requires
                self.channels <= 0xffff,
                bytes <= 0x2000,
        ;
        self.channels as u32 * bytes
    }
}

/// Bytes reserved for the WAV header plus slack when sizing chunks.
pub const HEADER_AND_SLACK: u64 = 1024;

/// Frames that fit in `threshold_bytes` once the header margin is taken off:
/// the largest count whose bytes stay within it, at least one, and at most
/// `u32::MAX` (a frame position is 32 bits).
pub open spec fn spec_max_frames(info: WavInfo, threshold_bytes: u64) -> u32 {
    let bpf: int = if info.spec_bytes_per_frame() < 1 { 1 } else { info.spec_bytes_per_frame() };
    let usable: int = if threshold_bytes < HEADER_AND_SLACK { 0 } else { threshold_bytes - HEADER_AND_SLACK };
    let q: int = usable / bpf;
    (if q < 1 { 1 } else if q > u32::MAX { u32::MAX as int } else { q }) as u32
}

/// Largest number of frames whose encoded WAV stays under `threshold_bytes`.
pub fn max_frames_for_threshold(info: &WavInfo, threshold_bytes: u64) -> (r: u32)
    ensures
        r == spec_max_frames(*info, threshold_bytes),
{
    let b = info.bytes_per_frame();
    let bpf: u64 = if b < 1 { 1 } else { b as u64 };
    let usable: u64 = threshold_bytes.saturating_sub(HEADER_AND_SLACK);
    let q: u64 = usable / bpf;
    let m: u64 = if q < 1 { 1 } else if q > u32::MAX as u64 { u32::MAX as u64 } else { q };
    m as u32
}

/// Chunk length actually used: at least one frame.
pub open spec fn clamp_max(max_frames: u32) -> int {
    if max_frames < 1 { 1 } else { max_frames as int }
}

/// Overlap actually used: at most half a chunk.
pub open spec fn clamp_overlap(max_frames: u32, overlap_frames: u32) -> int {
    let m = clamp_max(max_frames);
    if overlap_frames < m / 2 { overlap_frames as int } else { m / 2 }
}

/// Distance between the starts of consecutive chunks.
pub open spec fn plan_stride(max_frames: u32, overlap_frames: u32) -> int {
    clamp_max(max_frames) - clamp_overlap(max_frames, overlap_frames)
}

/// The `i`-th window of a plan: starts `i` strides in, spans one chunk length,
/// cut at the end of the audio.
pub open spec fn planned_chunk(i: int, total_frames: u32, max_frames: u32, overlap_frames: u32) -> ChunkSpec {
    let start = i * plan_stride(max_frames, overlap_frames);
    let end = start + clamp_max(max_frames);
    ChunkSpec {
        start_frame: start as u32,
        end_frame: (if end < total_frames { end } else { total_frames as int }) as u32,
    }
}

/// `chunks` is the plan for the given audio length: the windows
/// `planned_chunk(0..n)`, where the last window is the first to reach the end.
pub open spec fn is_chunk_plan(chunks: Seq<ChunkSpec>, total_frames: u32, max_frames: u32, overlap_frames: u32) -> bool {
    let stride = plan_stride(max_frames, overlap_frames);
    let m = clamp_max(max_frames);
    if total_frames == 0 {
        chunks.len() == 0
    } else {
        &&& chunks.len() >= 1
        &&& forall|i: int| 0 <= i < chunks.len() ==> #[trigger] chunks[i] == planned_chunk(i, total_frames, max_frames, overlap_frames)
        &&& forall|i: int| 0 <= i < chunks.len() - 1 ==> #[trigger] (i * stride) + m < total_frames
        &&& (chunks.len() - 1) * stride + m >= total_frames
    }
}

/// Split `total_frames` into overlapping windows no larger than `max_frames`
/// (at least one), each overlapping the previous by `overlap_frames` (at most
/// half a window).
pub fn plan_chunks(total_frames: u32, max_frames: u32, overlap_frames: u32) -> (r: Vec<ChunkSpec>)
    ensures
        is_chunk_plan(r@, total_frames, max_frames, overlap_frames),
{
    if total_frames == 0 {
        return Vec::new();
    }
    let m: u32 = if max_frames < 1 { 1 } else { max_frames };
    let overlap: u32 = if overlap_frames < m / 2 { overlap_frames } else { m / 2 };
    let ghost stride_s = plan_stride(max_frames, overlap_frames);
    let stride: u32 = m - overlap;
    assert(stride == stride_s);
    assert(stride >= 1);

    if total_frames <= m {
        let mut v: Vec<ChunkSpec> = Vec::new();
        v.push(ChunkSpec { start_frame: 0, end_frame: total_frames });
        assert(planned_chunk(0, total_frames, max_frames, overlap_frames) == v@[0]);
        return v;
    }

    let mut chunks: Vec<ChunkSpec> = Vec::new();
    let mut start: u32 = 0;
    let mut k: u32 = 0;
    loop
        invariant
            stride == plan_stride(max_frames, overlap_frames),
            m == clamp_max(max_frames),
            stride >= 1,
            m > stride - 1,
            total_frames > m,
            k == chunks.len(),
            start == k * stride,
            k <= start,
            start < total_frames,
            forall|i: int| 0 <= i < chunks.len() ==> #[trigger] chunks@[i] == planned_chunk(i, total_frames, max_frames, overlap_frames),
            forall|i: int| 0 <= i < chunks.len() ==> #[trigger] (i * stride) + m < total_frames,
        decreases total_frames - start,
    {
        let sum: u64 = start as u64 + m as u64;
        let end: u32 = if sum < total_frames as u64 { sum as u32 } else { total_frames };
        chunks.push(ChunkSpec { start_frame: start, end_frame: end });
        assert(chunks@[k as int] == planned_chunk(k as int, total_frames, max_frames, overlap_frames));
        if end >= total_frames {
            assert((chunks.len() - 1) * stride + m >= total_frames);
            assert forall|i: int| 0 <= i < chunks.len() - 1 implies #[trigger] (i * stride) + m < total_frames by {
                assert(chunks@[i] == planned_chunk(i, total_frames, max_frames, overlap_frames));
            }
            return chunks;
        }
        assert((k as int) * stride + m < total_frames);
        start = start + stride;
        assert(k < start);
        k = k + 1;
        assert(start == k * stride && k <= start) by (nonlinear_arith)
            requires start == (k - 1) * stride + stride, stride >= 1, k >= 1;
    }
}

/// Frame `f` lies in window `c`.
pub open spec fn window_holds(c: ChunkSpec, f: int) -> bool {
    c.start_frame <= f < c.end_frame
}

/// Frame `f` lies in some window of `chunks`.
pub open spec fn frame_is_covered(chunks: Seq<ChunkSpec>, f: int) -> bool {
    exists|i: int| 0 <= i < chunks.len() && #[trigger] window_holds(chunks[i], f)
}

/// Every window of a chunk plan is non-empty, no longer than the chunk length,
/// and starts inside the audio.
proof fn lemma_plan_chunk_shape(chunks: Seq<ChunkSpec>, total_frames: u32, max_frames: u32, overlap_frames: u32, i: int)
    requires
        is_chunk_plan(chunks, total_frames, max_frames, overlap_frames),
        0 <= i < chunks.len(),
    ensures
        i * plan_stride(max_frames, overlap_frames) < total_frames,
        chunks[i].start_frame == i * plan_stride(max_frames, overlap_frames),
        chunks[i].start_frame < chunks[i].end_frame,
        chunks[i].end_frame <= total_frames,
        chunks[i].end_frame - chunks[i].start_frame <= clamp_max(max_frames),
        i < chunks.len() - 1 ==> chunks[i].end_frame == chunks[i].start_frame + clamp_max(max_frames),
        plan_stride(max_frames, overlap_frames) <= clamp_max(max_frames),
        plan_stride(max_frames, overlap_frames) >= 1,
{
    let stride = plan_stride(max_frames, overlap_frames);
    let m = clamp_max(max_frames);
    assert(chunks[i] == planned_chunk(i, total_frames, max_frames, overlap_frames));
    if i < chunks.len() - 1 {
        assert((i * stride) + m < total_frames);
    } else if i > 0 {
        assert(((i - 1) * stride) + m < total_frames);
        assert(i * stride == (i - 1) * stride + stride) by (nonlinear_arith);
    } else {
        assert(i * stride == 0) by (nonlinear_arith) requires i == 0;
    }
    assert(i * stride >= 0) by (nonlinear_arith) requires i >= 0, stride >= 1;
}

/// What a chunk plan guarantees: each window holds at most one chunk length
/// (and at least one frame); the windows start at frame 0 and end at the end
/// of the audio; each window starts inside the previous one, sharing exactly
/// the (clamped) overlap with it, so that every frame of the audio lies in
/// some window; and the count is bounded by the stride.
pub proof fn lemma_chunk_plan_laws(chunks: Seq<ChunkSpec>, total_frames: u32, max_frames: u32, overlap_frames: u32)
    requires
        is_chunk_plan(chunks, total_frames, max_frames, overlap_frames),
    ensures
        total_frames == 0 <==> chunks.len() == 0,
        forall|i: int| 0 <= i < chunks.len() ==> {
            &&& #[trigger] chunks[i].start_frame < chunks[i].end_frame
            &&& chunks[i].end_frame - chunks[i].start_frame <= clamp_max(max_frames)
            &&& chunks[i].end_frame - chunks[i].start_frame <= if max_frames < 1 { 1 } else { max_frames }
        },
        chunks.len() > 0 ==> chunks[0].start_frame == 0,
        chunks.len() > 0 ==> chunks[chunks.len() - 1].end_frame == total_frames,
        forall|i: int| 0 <= i < chunks.len() - 1 ==> {
            &&& #[trigger] chunks[i + 1].start_frame <= chunks[i].end_frame
            &&& chunks[i].start_frame < chunks[i + 1].start_frame
            &&& chunks[i].end_frame - chunks[i + 1].start_frame == clamp_overlap(max_frames, overlap_frames)
        },
        forall|f: int| 0 <= f < total_frames ==> #[trigger] frame_is_covered(chunks, f),
        chunks.len() > 0 ==> (chunks.len() - 1) * plan_stride(max_frames, overlap_frames) < total_frames,
{
    let stride = plan_stride(max_frames, overlap_frames);
    let m = clamp_max(max_frames);
    let n = chunks.len();
    assert forall|i: int| 0 <= i < n implies {
        &&& #[trigger] chunks[i].start_frame < chunks[i].end_frame
        &&& chunks[i].end_frame - chunks[i].start_frame <= clamp_max(max_frames)
        &&& chunks[i].end_frame - chunks[i].start_frame <= if max_frames < 1 { 1 } else { max_frames }
    } by {
        lemma_plan_chunk_shape(chunks, total_frames, max_frames, overlap_frames, i);
    }
    if n > 0 {
        lemma_plan_chunk_shape(chunks, total_frames, max_frames, overlap_frames, 0);
        lemma_plan_chunk_shape(chunks, total_frames, max_frames, overlap_frames, n - 1);
        let last = chunks[n - 1];
        assert(last == planned_chunk(n - 1, total_frames, max_frames, overlap_frames));
        assert((n - 1) * stride + m >= total_frames);
    }
    assert forall|i: int| 0 <= i < n - 1 implies {
        &&& #[trigger] chunks[i + 1].start_frame <= chunks[i].end_frame
        &&& chunks[i].start_frame < chunks[i + 1].start_frame
        &&& chunks[i].end_frame - chunks[i + 1].start_frame == clamp_overlap(max_frames, overlap_frames)
    } by {
        lemma_plan_chunk_shape(chunks, total_frames, max_frames, overlap_frames, i);
        lemma_plan_chunk_shape(chunks, total_frames, max_frames, overlap_frames, i + 1);
        assert((i + 1) * stride == i * stride + stride) by (nonlinear_arith);
    }
    assert forall|f: int| 0 <= f < total_frames implies #[trigger] frame_is_covered(chunks, f) by {
        let i = lemma_frame_in_plan(chunks, total_frames, max_frames, overlap_frames, f, n - 1);
        assert(window_holds(chunks[i], f));
    }
}

/// The first window whose range has not been passed by frame `f` contains it
/// (searching down from window `j`, which ends after `f`).
proof fn lemma_frame_in_plan(chunks: Seq<ChunkSpec>, total_frames: u32, max_frames: u32, overlap_frames: u32, f: int, j: int) -> (i: int)
    requires
        is_chunk_plan(chunks, total_frames, max_frames, overlap_frames),
        0 <= f < total_frames,
        0 <= j < chunks.len(),
        f < chunks[j].end_frame,
    ensures
        0 <= i <= j,
        chunks[i].start_frame <= f < chunks[i].end_frame,
    decreases j,
{
    lemma_plan_chunk_shape(chunks, total_frames, max_frames, overlap_frames, j);
    let stride = plan_stride(max_frames, overlap_frames);
    if chunks[j].start_frame <= f {
        j
    } else {
        assert(j > 0) by {
            if j == 0 {
                assert(j * stride == 0) by (nonlinear_arith) requires j == 0;
            }
        }
        lemma_plan_chunk_shape(chunks, total_frames, max_frames, overlap_frames, j - 1);
        assert(j * stride == (j - 1) * stride + stride) by (nonlinear_arith);
        lemma_frame_in_plan(chunks, total_frames, max_frames, overlap_frames, f, j - 1)
    }
}


/// Bytes a sample of `bits` bits is stored in.
pub open spec fn sample_bytes(bits: u16) -> int {
    (bits + 7) / 8
}

/// The bytes of the standalone WAV file `hound` writes for integer samples
/// `samples` with the given channel count, rate and bit depth, or none when
/// it refuses them.
pub uninterp spec fn wav_bytes(channels: u16, sample_rate: u32, bits_per_sample: u16, samples: Seq<i16>) -> Option<Seq<u8>>;

/// `hound::WavWriter::new` on an in-memory cursor, `write_sample` for each
/// sample and `finalize`: the WAV file holding `samples`, or none when hound
/// refuses. The result is named, not restated. From hound's source: bit
/// depths other than 8, 16, 24 and 32 are refused; at 16 bits with one or
/// two channels and whole frames, the file is the 44-byte PCM header and two
/// bytes per sample. A zero bit depth (the refused writer, dropped, divides
/// by its zero bytes per sample), a depth above 65528 (hound rounds it up to
/// whole bytes in 16 bits), a zero rate or channel count, or sizes past 32
/// bits make hound divide by zero or overflow, so they are ruled out.
#[verifier::external_body]
fn encode_wav(channels: u16, sample_rate: u32, bits_per_sample: u16, samples: &[i16]) -> (r: Option<Vec<u8>>)
    requires
        1 <= bits_per_sample,
        bits_per_sample + 7 <= u16::MAX,
        sample_rate > 0,
        channels > 0,
        sample_rate * sample_bytes(bits_per_sample) * channels <= u32::MAX,
        samples@.len() * sample_bytes(bits_per_sample) + 60 <= u32::MAX,
    ensures
        (match wav_bytes(channels, sample_rate, bits_per_sample, samples@) {
            Some(b) => r matches Some(v) && v@ == b,
            None => r is None,
        }),
        !(bits_per_sample == 8 || bits_per_sample == 16 || bits_per_sample == 24 || bits_per_sample == 32) ==> r is None,
        (bits_per_sample == 16 && channels <= 2 && (samples@.len() as int) % (channels as int) == 0) ==> (r is Some && r->0@.len() == 44 + 2 * samples@.len()),
{
    let spec = hound::WavSpec { channels, sample_rate, bits_per_sample, sample_format: hound::SampleFormat::Int };
    let mut buf = std::io::Cursor::new(Vec::<u8>::new());
    let mut writer = match hound::WavWriter::new(&mut buf, spec) {
        Ok(w) => w,
        Err(_) => return None,
    };
    for s in samples {
        if writer.write_sample(*s).is_err() {
            return None;
        }
    }
    if writer.finalize().is_err() {
        return None;
    }
    Some(buf.into_inner())
}

/// Samples (all channels) in the window `spec` of a recording like `info`.
pub open spec fn chunk_samples(info: WavInfo, spec: ChunkSpec) -> int {
    (spec.end_frame - spec.start_frame) * info.channels
}

/// Samples a chunk is encoded from when `read` samples were read: the
/// window's, or all that were read when fewer.
pub open spec fn samples_taken(info: WavInfo, spec: ChunkSpec, read: int) -> int {
    if read < chunk_samples(info, spec) { read } else { chunk_samples(info, spec) }
}

/// The window `spec` as a standalone WAV file with the recording's format,
/// from `samples`, the recording's samples from the window's start frame on
/// (as many as were read): the first `chunk_samples` of them, or all when
/// fewer were read. None when hound refuses the format.
pub fn chunk_wav(info: &WavInfo, spec: ChunkSpec, samples: &[i16]) -> (r: Option<Vec<u8>>)
    requires
        spec.start_frame <= spec.end_frame,
        1 <= info.bits_per_sample,
        info.bits_per_sample + 7 <= u16::MAX,
        info.sample_rate > 0,
        info.channels > 0,
        info.sample_rate * sample_bytes(info.bits_per_sample) * info.channels <= u32::MAX,
        chunk_samples(*info, spec) * sample_bytes(info.bits_per_sample) + 60 <= u32::MAX,
    ensures
        ({
            let n = samples_taken(*info, spec, samples@.len() as int);
            match wav_bytes(info.channels, info.sample_rate, info.bits_per_sample, samples@.take(n)) {
                Some(b) => r matches Some(v) && v@ == b,
                None => r is None,
            }
        }),
        !(info.bits_per_sample == 8 || info.bits_per_sample == 16 || info.bits_per_sample == 24 || info.bits_per_sample == 32) ==> r is None,
        (info.bits_per_sample == 16 && info.channels <= 2 && samples_taken(*info, spec, samples@.len() as int) % (info.channels as int) == 0)
            ==> (r is Some && r->0@.len() == 44 + 2 * samples_taken(*info, spec, samples@.len() as int)),
{
    let frames = spec.frames();
    assert(frames * info.channels <= 0xffff_ffff * 0xffff) by (nonlinear_arith)
        requires frames <= 0xffff_ffff, info.channels <= 0xffff;
    let want: u64 = frames as u64 * info.channels as u64;
    let n: usize = if (samples.len() as u64) < want { samples.len() } else { want as usize };
    let ghost count = chunk_samples(*info, spec);
    assert(n <= count);
    assert(n * sample_bytes(info.bits_per_sample) <= count * sample_bytes(info.bits_per_sample)) by (nonlinear_arith)
        requires n <= count, sample_bytes(info.bits_per_sample) >= 0;
    let mut taken: Vec<i16> = Vec::new();
    let mut i: usize = 0;
    while i < n
        invariant
            i <= n <= samples@.len(),
            taken@ == samples@.take(i as int),
        decreases n - i,
    {
        taken.push(samples[i]);
        i = i + 1;
        assert(taken@ =~= samples@.take(i as int));
    }
    encode_wav(info.channels, info.sample_rate, info.bits_per_sample, taken.as_slice())
}

} // verus!
