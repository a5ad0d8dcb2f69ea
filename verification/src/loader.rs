//! From decoded audio to stems that are ready to mix.
//!
//! A stem comes out of its decoder as planes or interleaved frames at the
//! rate and channel count of its file. Before it is published it is brought
//! to the rate of the output and to stereo. A song is published only when
//! every one of its stems made it.

use crate::cache::{CachedSong, CachedSongView, CachedStem, CachedStemView, SongCache};
use crate::resampler::LinearResampler;
use crate::types::{joined, AudioError};
use std::sync::Arc;
use vstd::prelude::*;

verus! {

/// What a file says about its audio track. Any of the three may be missing.
#[derive(Debug, Clone, Copy, PartialEq, Eq, Structural)]
pub struct TrackParams {
    pub sample_rate: Option<u32>,
    pub channels: Option<u16>,
    pub total_frames: Option<u64>,
}

/// What is known of an audio track once it was accepted.
#[derive(Debug, Clone, Copy, PartialEq, Eq, Structural)]
pub struct TrackInfo {
    pub sample_rate: u32,
    pub channels: u16,
    /// Length in frames; zero where the file does not say.
    pub total_frames: u64,
}

/// Accepts a track that states its rate and its channel count.
pub fn track_info(params: TrackParams) -> (outcome: Result<TrackInfo, AudioError>)
    ensures
        match outcome {
            Ok(info) => {
                &&& params.sample_rate == Some(info.sample_rate)
                &&& params.channels == Some(info.channels)
                &&& info.total_frames == match params.total_frames {
                    Some(n) => n,
                    None => 0,
                }
            },
            Err(error) => {
                &&& error is InvalidFormat
                &&& params.sample_rate is None || params.channels is None
            },
        },
{
    let sample_rate = match params.sample_rate {
        Some(rate) => rate,
        None => {
            return Err(AudioError::InvalidFormat("Sample rate not available".to_owned()));
        },
    };
    let channels = match params.channels {
        Some(count) => count,
        None => {
            return Err(AudioError::InvalidFormat("Channel count not available".to_owned()));
        },
    };
    let total_frames = match params.total_frames {
        Some(n) => n,
        None => 0,
    };
    Ok(TrackInfo { sample_rate, channels, total_frames })
}

/// What reading the next packet of a file came to.
pub enum PacketEvent {
    /// A packet of the track with this number.
    Packet { track_id: u32 },
    /// The file asks for the decoder to be set up anew.
    ResetRequired,
    /// The file has no more packets.
    EndOfStream,
    /// Reading failed.
    ReadFailed(String),
}

/// What to do about a packet.
pub enum PacketAction {
    /// Decode it.
    Decode,
    /// It belongs to another track: read on.
    Skip,
    /// The stream is over.
    Finish,
    /// Give up.
    Fail(AudioError),
}

/// What decoding a packet came to.
pub enum DecodeEvent {
    /// The packet was decoded.
    Decoded,
    /// The packet is damaged.
    Malformed(String),
    /// The decoder failed.
    Failed(String),
}

/// What to do about a decoded packet.
pub enum DecodeAction {
    /// Hand its samples on.
    Deliver,
    /// Drop it and read on.
    Skip,
    /// Give up.
    Fail(AudioError),
}

/// The action that a packet event calls for, as a value without its texts.
pub open spec fn packet_action_kind(event: PacketEvent, track_id: u32) -> int {
    match event {
        PacketEvent::Packet { track_id: found } => if found == track_id {
            0
        } else {
            1
        },
        PacketEvent::EndOfStream => 2,
        PacketEvent::ResetRequired => 3,
        PacketEvent::ReadFailed(_) => 3,
    }
}

/// Decides what to do after a read: a packet of the wanted track is decoded,
/// one of another track is passed over, the end of the file ends the stream,
/// and anything else is fatal.
pub fn on_packet(event: PacketEvent, track_id: u32) -> (action: PacketAction)
    ensures
        match action {
            PacketAction::Decode => packet_action_kind(event, track_id) == 0,
            PacketAction::Skip => packet_action_kind(event, track_id) == 1,
            PacketAction::Finish => packet_action_kind(event, track_id) == 2,
            PacketAction::Fail(error) => {
                &&& packet_action_kind(event, track_id) == 3
                &&& error is DecodeError
                &&& event matches PacketEvent::ReadFailed(detail) ==> error->DecodeError_0@
                    == "Failed to read packet: "@ + detail@
                &&& event is ResetRequired ==> error->DecodeError_0@ == "Decoder reset required"@
            },
        },
{
    match event {
        PacketEvent::Packet { track_id: found } => {
            if found == track_id {
                PacketAction::Decode
            } else {
                PacketAction::Skip
            }
        },
        PacketEvent::EndOfStream => PacketAction::Finish,
        PacketEvent::ResetRequired => PacketAction::Fail(
            AudioError::DecodeError("Decoder reset required".to_owned()),
        ),
        PacketEvent::ReadFailed(detail) => PacketAction::Fail(
            AudioError::DecodeError(joined("Failed to read packet: ", &detail)),
        ),
    }
}

/// Decides what to do after a decode: a damaged packet is dropped and the
/// stream goes on; only a failure of the decoder itself is fatal.
pub fn on_decoded(event: DecodeEvent) -> (action: DecodeAction)
    ensures
        match action {
            DecodeAction::Deliver => event is Decoded,
            DecodeAction::Skip => event is Malformed,
            DecodeAction::Fail(error) => {
                &&& event is Failed
                &&& error is DecodeError
                &&& error->DecodeError_0@ == "Decoder error: "@ + event->Failed_0@
            },
        },
{
    match event {
        DecodeEvent::Decoded => DecodeAction::Deliver,
        DecodeEvent::Malformed(_) => DecodeAction::Skip,
        DecodeEvent::Failed(detail) => DecodeAction::Fail(
            AudioError::DecodeError(joined("Decoder error: ", &detail)),
        ),
    }
}

/// Every plane has `frames` samples.
pub open spec fn planes_aligned<T>(planes: Seq<Vec<T>>, frames: nat) -> bool {
    forall|c: int| 0 <= c < planes.len() ==> (#[trigger] planes[c])@.len() == frames
}

/// Number of frames of a set of planes: the length of the first plane.
pub open spec fn plane_frames<T>(planes: Seq<Vec<T>>) -> nat {
    if planes.len() == 0 {
        0
    } else {
        planes[0]@.len()
    }
}

/// Packs planes, one per channel, into frames: the samples of frame `f` stand
/// together, channel by channel, each as `convert` turns it into the sample
/// type of the mix. Planes of different lengths are refused, and so is a
/// result that would not fit in memory.
pub fn interleave<S: Copy, T, F: Fn(S) -> T>(planes: &Vec<Vec<S>>, convert: F) -> (outcome: Result<
    Vec<T>,
    AudioError,
>)
    requires
        forall|sample: S| call_requires(convert, (sample,)),
    ensures
        match outcome {
            Ok(samples) => {
                &&& planes_aligned(planes@, plane_frames(planes@))
                &&& samples@.len() == plane_frames(planes@) * planes@.len()
                &&& forall|f: int, c: int|
                    0 <= f < plane_frames(planes@) && 0 <= c < planes@.len() ==> call_ensures(
                        convert,
                        (planes@[c]@[f],),
                        #[trigger] samples@[f * planes@.len() + c],
                    )
            },
            Err(error) => {
                &&& error is DecodeError
                &&& !planes_aligned(planes@, plane_frames(planes@)) || plane_frames(planes@)
                    * planes@.len() > usize::MAX
            },
        },
{
    let channels = planes.len();
    if channels == 0 {
        return Ok(Vec::new());
    }
    let frames = planes[0].len();
    let mut c: usize = 1;
    while c < channels
        invariant
            1 <= c <= channels,
            channels == planes@.len(),
            frames == plane_frames(planes@),
            forall|d: int| 0 <= d < c ==> (#[trigger] planes@[d])@.len() == frames,
        decreases channels - c,
    {
        if planes[c].len() != frames {
            return Err(AudioError::DecodeError("Channel planes differ in length".to_owned()));
        }
        c += 1;
    }
    if frames.checked_mul(channels).is_none() {
        return Err(AudioError::DecodeError("Decoded audio is too long".to_owned()));
    }
    let mut samples: Vec<T> = Vec::new();
    let mut f: usize = 0;
    while f < frames
        invariant
            f <= frames,
            channels == planes@.len(),
            channels > 0,
            frames * channels <= usize::MAX,
            planes_aligned(planes@, frames as nat),
            samples@.len() == f * channels,
            forall|sample: S| call_requires(convert, (sample,)),
            forall|g: int, d: int|
                0 <= g < f && 0 <= d < channels ==> call_ensures(
                    convert,
                    (planes@[d]@[g],),
                    #[trigger] samples@[g * channels + d],
                ),
        decreases frames - f,
    {
        let ghost done = samples@;
        let mut d: usize = 0;
        while d < channels
            invariant
                d <= channels,
                f < frames,
                channels == planes@.len(),
                planes_aligned(planes@, frames as nat),
                samples@.len() == f * channels + d,
                done.len() == f * channels,
                forall|sample: S| call_requires(convert, (sample,)),
                forall|i: int| 0 <= i < done.len() ==> samples@[i] == done[i],
                forall|e: int|
                    0 <= e < d ==> call_ensures(
                        convert,
                        (planes@[e]@[f as int],),
                        #[trigger] samples@[f * channels + e],
                    ),
            decreases channels - d,
        {
            assert(planes@[d as int]@.len() == frames);
            samples.push(convert(planes[d][f]));
            d += 1;
        }
        proof {
            assert forall|g: int, e: int| 0 <= g < f + 1 && 0 <= e < channels implies call_ensures(
                convert,
                (planes@[e]@[g],),
                #[trigger] samples@[g * channels + e],
            ) by {
                if g < f {
                    assert(g * channels + e < f * channels) by (nonlinear_arith)
                        requires
                            0 <= g < f,
                            0 <= e < channels,
                    ;
                    assert(samples@[g * channels + e] == done[g * channels + e]);
                }
            }
            assert((f + 1) * channels == f * channels + channels) by (nonlinear_arith);
        }
        f += 1;
    }
    Ok(samples)
}

/// Whole frames in `len` interleaved samples of `channels` channels.
pub open spec fn whole_frames(len: nat, channels: nat) -> nat {
    if channels == 0 {
        0
    } else {
        len / channels
    }
}

/// Interleaved audio brought to stereo: for every whole frame the sample of
/// the first channel, then that of the second channel, or of the first again
/// where there is only one.
pub open spec fn stereo_of<T>(samples: Seq<T>, channels: nat) -> Seq<T> {
    Seq::new(
        2 * whole_frames(samples.len(), channels),
        |i: int|
            if i % 2 == 0 || channels == 1 {
                samples[(i / 2) * channels]
            } else {
                samples[(i / 2) * channels + 1]
            },
    )
}

/// Brings interleaved audio to stereo. A single channel is played on both
/// sides; of two or more channels the first two are kept. Samples after the
/// last whole frame are dropped. Audio without channels is refused.
pub fn normalise_to_stereo<T: Copy>(samples: &[T], channels: u16) -> (outcome: Result<
    Vec<T>,
    AudioError,
>)
    ensures
        match outcome {
            Ok(stereo) => {
                &&& channels > 0
                &&& 2 * whole_frames(samples@.len(), channels as nat) <= usize::MAX
                &&& stereo@ == stereo_of(samples@, channels as nat)
            },
            Err(error) => {
                &&& error is InvalidFormat
                &&& channels == 0 || 2 * whole_frames(samples@.len(), channels as nat)
                    > usize::MAX
            },
        },
{
    if channels == 0 {
        return Err(AudioError::InvalidFormat("Channel count is zero".to_owned()));
    }
    let width = channels as usize;
    let frames = samples.len() / width;
    if frames > usize::MAX / 2 {
        return Err(AudioError::InvalidFormat("Audio is too long".to_owned()));
    }
    assert(frames * width <= samples@.len()) by (nonlinear_arith)
        requires
            frames == samples@.len() / (width as nat),
            width > 0,
    ;
    let mut stereo: Vec<T> = Vec::new();
    let mut f: usize = 0;
    while f < frames
        invariant
            f <= frames,
            width == channels,
            width > 0,
            frames == whole_frames(samples@.len(), channels as nat),
            frames * width <= samples@.len(),
            samples@.len() <= usize::MAX,
            stereo@.len() == 2 * f,
            forall|g: int| 0 <= g < f ==> #[trigger] stereo@[2 * g] == samples@[g * channels],
            forall|g: int|
                0 <= g < f ==> #[trigger] stereo@[2 * g + 1] == if channels == 1 {
                    samples@[g * channels]
                } else {
                    samples@[g * channels + 1]
                },
        decreases frames - f,
    {
        assert(f * width + width <= frames * width && 0 <= f * width) by (nonlinear_arith)
            requires
                f < frames,
                width > 0,
        ;
        let left = samples[f * width];
        let right = if width == 1 {
            left
        } else {
            samples[f * width + 1]
        };
        stereo.push(left);
        stereo.push(right);
        f += 1;
    }
    proof {
        let wanted = stereo_of(samples@, channels as nat);
        assert forall|i: int| 0 <= i < stereo@.len() implies stereo@[i] == wanted[i] by {
            let g = i / 2;
            if i % 2 == 0 {
                assert(stereo@[2 * g] == samples@[g * channels]);
            } else {
                assert(stereo@[2 * g + 1] == if channels == 1 {
                    samples@[g * channels]
                } else {
                    samples@[g * channels + 1]
                });
            }
        }
        assert(stereo@ =~= wanted);
    }
    Ok(stereo)
}

/// What the catalog declares of a stem.
pub struct StemDescriptor {
    /// Stable identifier of the stem.
    pub stem_id: String,
    /// Declared volume, as the bit pattern of a number in `[0.0, 1.0]`.
    pub volume: u32,
    /// Declared mute flag.
    pub is_muted: bool,
}

/// The samples of a stem made from decoded audio: the audio brought to the
/// target rate with `blend` as interpolation, then to stereo.
pub open spec fn prepared<T, F: Fn(T, T, u32, u32) -> T>(
    resampler: LinearResampler,
    samples: Seq<T>,
    blend: F,
    stem_samples: Seq<T>,
) -> bool {
    exists|at_rate: Seq<T>| #[trigger]
        resampler.converts(samples, blend, at_rate) && stem_samples == stereo_of(
            at_rate,
            resampler.channels as nat,
        )
}

/// Stereo frames of a stem made from `len` samples of decoded audio.
pub open spec fn prepared_frames(resampler: LinearResampler, len: nat) -> nat {
    if resampler.is_identity() {
        whole_frames(len, resampler.channels as nat)
    } else {
        resampler.output_frames(len)
    }
}

/// Decoded audio can be made into a stem: it has channels, a conversion of
/// its rate is possible where one is needed, and the stem fits in memory.
pub open spec fn can_prepare(resampler: LinearResampler, len: nat) -> bool {
    &&& resampler.channels > 0
    &&& resampler.is_identity() || resampler.can_convert(len)
    &&& 2 * prepared_frames(resampler, len) <= usize::MAX
}

/// Brings decoded audio to the rate of the output and to stereo, and
/// publishes it as a stem. Audio that is at the target rate already is not
/// touched by the resampler.
pub fn prepare_stem<T: Copy, F: Fn(T, T, u32, u32) -> T>(
    descriptor: StemDescriptor,
    samples: Vec<T>,
    source_rate: u32,
    channels: u16,
    target_rate: u32,
    blend: F,
) -> (outcome: Result<CachedStem<T>, AudioError>)
    requires
        forall|a: T, b: T, n: u32| n < target_rate ==> call_requires(blend, (a, b, n, target_rate)),
    ensures
        match outcome {
            Ok(stem) => {
                let resampler = LinearResampler { source_rate, target_rate, channels };
                &&& can_prepare(resampler, samples@.len())
                &&& stem@.stem_id == descriptor.stem_id@
                &&& stem@.volume == descriptor.volume
                &&& stem@.is_muted == descriptor.is_muted
                &&& stem@.sample_rate == target_rate
                &&& prepared(resampler, samples@, blend, stem@.samples)
                &&& stem@.samples.len() == 2 * prepared_frames(resampler, samples@.len())
            },
            Err(error) => {
                &&& error is InvalidFormat
                &&& !can_prepare(
                    LinearResampler { source_rate, target_rate, channels },
                    samples@.len(),
                )
            },
        },
{
    let resampler = LinearResampler::new(source_rate, target_rate, channels);
    let at_rate = match resampler.process(samples.as_slice(), blend) {
        Ok(converted) => converted,
        Err(error) => {
            return Err(error);
        },
    };
    proof {
        if source_rate != target_rate {
            let frames = resampler.output_frames(samples@.len());
            assert((frames * (channels as nat)) / (channels as nat) == frames) by (nonlinear_arith)
                requires
                    channels > 0,
            ;
        }
    }
    let stereo = match normalise_to_stereo(at_rate.as_slice(), channels) {
        Ok(stereo) => stereo,
        Err(error) => {
            return Err(error);
        },
    };
    proof {
        assert(resampler.converts(samples@, blend, at_rate@));
        assert(stereo@.len() == 2 * prepared_frames(resampler, samples@.len()));
    }
    Ok(
        CachedStem {
            stem_id: descriptor.stem_id,
            samples: Arc::new(stereo),
            sample_rate: target_rate,
            volume: descriptor.volume,
            is_muted: descriptor.is_muted,
        },
    )
}

/// Loading keeps the length of a stem: from `len` samples at the source rate
/// come exactly as many stereo frames as the rates call for, which is the
/// number of input frames times the target rate over the source rate, rounded
/// up. So the count is never off by as much as a frame.
pub proof fn lemma_prepared_length(resampler: LinearResampler, len: nat)
    requires
        !resampler.is_identity(),
        resampler.source_rate > 0,
        resampler.channels > 0,
    ensures
        prepared_frames(resampler, len) * resampler.source_rate >= whole_frames(
            len,
            resampler.channels as nat,
        ) * resampler.target_rate,
        prepared_frames(resampler, len) * resampler.source_rate < whole_frames(
            len,
            resampler.channels as nat,
        ) * resampler.target_rate + resampler.source_rate,
        prepared_frames(resampler, len) == crate::resampler::frames_out(
            resampler.source_rate as nat,
            resampler.target_rate as nat,
            whole_frames(len, resampler.channels as nat),
        ),
{
    crate::resampler::lemma_frames_out_is_ceiling(
        resampler.source_rate as nat,
        resampler.target_rate as nat,
        whole_frames(len, resampler.channels as nat),
    );
}

/// Why a song could not be put together.
pub enum LoadError {
    /// The song has no stems.
    NoStems,
    /// A stem failed. Stems are counted from one.
    StemFailed { stem_number: usize, reason: String },
}

/// Index of the first stem that failed, if any did.
pub open spec fn first_failure<T>(results: Seq<Result<CachedStem<T>, String>>) -> Option<int>
    decreases results.len(),
{
    if results.len() == 0 {
        None
    } else {
        match first_failure(results.drop_last()) {
            Some(i) => Some(i),
            None => if results.last() is Err {
                Some(results.len() - 1)
            } else {
                None
            },
        }
    }
}

/// The stems of a batch in which none failed.
pub open spec fn loaded_stems<T>(results: Seq<Result<CachedStem<T>, String>>) -> Seq<
    CachedStemView<T>,
> {
    Seq::new(results.len(), |i: int| results[i]->Ok_0@)
}

/// What `first_failure` finds: a failed stem with none failed before it, or
/// nothing where none failed.
pub proof fn lemma_first_failure<T>(results: Seq<Result<CachedStem<T>, String>>)
    ensures
        match first_failure(results) {
            Some(i) => 0 <= i < results.len() && results[i] is Err && forall|j: int|
                0 <= j < i ==> results[j] is Ok,
            None => forall|j: int| 0 <= j < results.len() ==> results[j] is Ok,
        },
    decreases results.len(),
{
    if results.len() > 0 {
        let front = results.drop_last();
        lemma_first_failure(front);
        assert forall|j: int| 0 <= j < front.len() implies front[j] == results[j] by {}
        match first_failure(front) {
            Some(i) => {
                assert forall|j: int| 0 <= j < i implies results[j] is Ok by {
                    assert(front[j] is Ok);
                }
            },
            None => {
                assert forall|j: int| 0 <= j < front.len() implies results[j] is Ok by {
                    assert(front[j] is Ok);
                }
            },
        }
    }
}

/// Puts a song together from what became of its stems. The song is whole or
/// it is not there: where any stem failed, the first failure is reported and
/// nothing is kept.
pub fn assemble_song<T>(song_id: String, results: Vec<Result<CachedStem<T>, String>>) -> (outcome:
    Result<CachedSong<T>, LoadError>)
    ensures
        match outcome {
            Ok(song) => {
                &&& results@.len() > 0
                &&& first_failure(results@) is None
                &&& song@.song_id == song_id@
                &&& song@.stems == loaded_stems(results@)
            },
            Err(LoadError::NoStems) => results@.len() == 0,
            Err(LoadError::StemFailed { stem_number, reason }) => {
                &&& first_failure(results@) == Some(stem_number - 1)
                &&& reason@ == results@[stem_number - 1]->Err_0@
            },
        },
{
    if results.len() == 0 {
        return Err(LoadError::NoStems);
    }
    let ghost all = results@;
    let mut results = results;
    let mut reversed: Vec<CachedStem<T>> = Vec::new();
    let mut failure: Option<(usize, String)> = None;
    proof {
        lemma_first_failure(all);
    }
    while results.len() > 0
        invariant
            results@ == all.take(results@.len() as int),
            results@.len() <= all.len(),
            match failure {
                Some((number, reason)) => {
                    &&& results@.len() < number <= all.len()
                    &&& all[number - 1] is Err
                    &&& reason@ == all[number - 1]->Err_0@
                    &&& forall|j: int| results@.len() <= j < number - 1 ==> all[j] is Ok
                },
                None => {
                    &&& reversed@.len() == all.len() - results@.len()
                    &&& forall|j: int| results@.len() <= j < all.len() ==> all[j] is Ok
                    &&& forall|j: int|
                        0 <= j < reversed@.len() ==> (#[trigger] reversed@[j])@ == all[all.len() - 1
                            - j]->Ok_0@
                },
            },
        decreases results@.len(),
    {
        let ghost before = results@;
        let index = results.len() - 1;
        match results.pop() {
            Some(Ok(stem)) => {
                assert(before[index as int] == all[index as int]);
                match failure {
                    Some(_) => {},
                    None => {
                        reversed.push(stem);
                    },
                }
            },
            Some(Err(reason)) => {
                assert(before[index as int] == all[index as int]);
                failure = Some((index + 1, reason));
            },
            None => {},
        }
        assert(results@ =~= all.take(results@.len() as int));
    }
    match failure {
        Some((stem_number, reason)) => {
            proof {
                let found = first_failure(all)->0;
                if found < stem_number - 1 {
                    assert(all[found] is Ok);
                }
                if stem_number - 1 < found {
                    assert(all[stem_number - 1] is Ok);
                }
            }
            Err(LoadError::StemFailed { stem_number, reason })
        },
        None => {
            let mut stems: Vec<CachedStem<T>> = Vec::new();
            let ghost backwards = reversed@;
            while reversed.len() > 0
                invariant
                    reversed@ == backwards.take(reversed@.len() as int),
                    reversed@.len() <= backwards.len(),
                    backwards.len() == all.len(),
                    stems@.len() == backwards.len() - reversed@.len(),
                    forall|j: int|
                        0 <= j < backwards.len() ==> (#[trigger] backwards[j])@ == all[all.len() - 1
                            - j]->Ok_0@,
                    forall|j: int| 0 <= j < stems@.len() ==> (#[trigger] stems@[j])@ == all[j]->Ok_0@,
                decreases reversed@.len(),
            {
                let ghost before = reversed@;
                let index = reversed.len() - 1;
                match reversed.pop() {
                    Some(stem) => {
                        assert(before[index as int] == backwards[index as int]);
                        stems.push(stem);
                    },
                    None => {},
                }
                assert(reversed@ =~= backwards.take(reversed@.len() as int));
            }
            let song = CachedSong { song_id, stems };
            assert(song@.stems =~= loaded_stems(all));
            Ok(song)
        },
    }
}

/// Why a song did not get into the cache.
pub enum PublishError {
    /// The song could not be put together.
    Load(LoadError),
    /// The song is larger than the whole cache.
    TooLarge,
}

/// Puts a song together from what became of its stems and stores it in the
/// cache under its identifier. Unless every stem made it and the song fits
/// the budget of the cache, the cache is left as it was.
pub fn publish_song<T>(
    cache: &mut SongCache<T>,
    song_id: String,
    results: Vec<Result<CachedStem<T>, String>>,
) -> (outcome: Result<(), PublishError>)
    requires
        old(cache).wf(),
    ensures
        final(cache).wf(),
        match outcome {
            Ok(()) => {
                let song = CachedSongView { song_id: song_id@, stems: loaded_stems(results@) };
                &&& results@.len() > 0
                &&& first_failure(results@) is None
                &&& song.bytes() <= old(cache)@.max_bytes
                &&& final(cache)@ == old(cache)@.insert(song_id@, song)
            },
            Err(PublishError::Load(LoadError::NoStems)) => {
                &&& results@.len() == 0
                &&& final(cache)@ == old(cache)@
            },
            Err(PublishError::Load(LoadError::StemFailed { stem_number, reason })) => {
                &&& first_failure(results@) == Some(stem_number - 1)
                &&& reason@ == results@[stem_number - 1]->Err_0@
                &&& final(cache)@ == old(cache)@
            },
            Err(PublishError::TooLarge) => {
                let song = CachedSongView { song_id: song_id@, stems: loaded_stems(results@) };
                &&& results@.len() > 0
                &&& first_failure(results@) is None
                &&& song.bytes() > old(cache)@.max_bytes
                &&& final(cache)@ == old(cache)@
            },
        },
{
    let key = song_id.clone();
    let song = match assemble_song(song_id, results) {
        Ok(song) => song,
        Err(error) => {
            return Err(PublishError::Load(error));
        },
    };
    match cache.insert(key, song) {
        Ok(()) => Ok(()),
        Err(_) => Err(PublishError::TooLarge),
    }
}

/// What is reported when a stem starts or finishes loading.
pub struct StemProgress {
    /// Number of the stem, counted from one.
    pub current: usize,
    /// Number of stems of the song.
    pub total: usize,
}

/// The report for the stem at `index` of a song with `total` stems.
pub fn stem_progress(index: usize, total: usize) -> (report: Option<StemProgress>)
    ensures
        match report {
            Some(progress) => index < total && progress.current == index + 1 && progress.total
                == total,
            None => index >= total,
        },
{
    if index < total {
        Some(StemProgress { current: index + 1, total })
    } else {
        None
    }
}

} // verus!
