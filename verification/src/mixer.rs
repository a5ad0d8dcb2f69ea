//! The multi-track mixer: stem slots, per-stem controls and the transport.
//!
//! The engine holds the buffers and decides what is heard: for every block it
//! says, slot by slot, which window of which buffer goes into the mix and at
//! which gain. It does no arithmetic on samples itself, so it works for any
//! sample type.
//!
//! Positions count interleaved samples, two per stereo frame.

use crate::gain::{
    clamp_unit, clamp_unit_bits, is_unit, level_bits, level_of, INFINITY_BITS, SILENCE_BITS,
    UNITY_BITS,
};
use crate::types::{AudioError, PlaybackState, StemCapacity, MAX_STEM_SLOTS};
use std::sync::Arc;
use vstd::prelude::*;

verus! {

/// Rate assumed for the output until a device reports its own.
pub const DEFAULT_SAMPLE_RATE: u32 = 48000;

/// One stem slot, as mathematical values.
pub struct SlotView<T> {
    /// The samples assigned to the slot, if any.
    pub buffer: Option<Seq<T>>,
    /// Gain, as a bit pattern in `[0.0, 1.0]`.
    pub volume: u32,
    pub muted: bool,
    pub solo: bool,
    /// Peak of the slot's share of the last block, as a bit pattern.
    pub level: u32,
}

/// What one slot adds to a block: a window of its buffer and a gain.
pub struct ContributionView<T> {
    pub samples: Seq<T>,
    pub gain: u32,
}

/// The mathematical state of an engine.
pub struct EngineView<T> {
    pub slots: Seq<SlotView<T>>,
    pub master_volume: u32,
    pub master_level: u32,
    pub state: PlaybackState,
    /// Transport position in interleaved samples.
    pub position: u64,
    /// Rate every assigned buffer is expected to be at.
    pub sample_rate: u32,
}

impl<T> EngineView<T> {
    /// A freshly built engine: every slot empty, at unity gain, neither muted
    /// nor soloed; stopped at position zero.
    pub open spec fn initial(max_stems: nat, sample_rate: u32) -> EngineView<T> {
        EngineView {
            slots: Seq::new(
                max_stems,
                |i: int|
                    SlotView {
                        buffer: None,
                        volume: UNITY_BITS,
                        muted: false,
                        solo: false,
                        level: SILENCE_BITS,
                    },
            ),
            master_volume: UNITY_BITS,
            master_level: SILENCE_BITS,
            state: PlaybackState::Stopped,
            position: 0,
            sample_rate,
        }
    }

    /// The invariant of an engine: between one and 256 slots, every gain in
    /// `[0.0, 1.0]`, every level a magnitude, and a rate above zero.
    pub open spec fn wf(self) -> bool {
        &&& 1 <= self.slots.len() <= MAX_STEM_SLOTS
        &&& forall|i: int|
            0 <= i < self.slots.len() ==> is_unit((#[trigger] self.slots[i]).volume)
                && self.slots[i].level <= INFINITY_BITS
        &&& is_unit(self.master_volume)
        &&& self.master_level <= INFINITY_BITS
        &&& self.sample_rate > 0
    }

    /// The slot holds a buffer.
    pub open spec fn assigned(self, slot: int) -> bool {
        0 <= slot < self.slots.len() && self.slots[slot].buffer is Some
    }

    /// Some slot, assigned or not, has its solo flag set.
    pub open spec fn any_solo(self) -> bool {
        exists|j: int| 0 <= j < self.slots.len() && (#[trigger] self.slots[j]).solo
    }

    /// The slot is heard: it holds a buffer and, where any solo flag is set,
    /// its own is; where none is set, it is not muted.
    pub open spec fn audible(self, slot: int) -> bool {
        &&& self.assigned(slot)
        &&& if self.any_solo() {
            self.slots[slot].solo
        } else {
            !self.slots[slot].muted
        }
    }

    /// Length of the buffer in a slot; zero for an empty slot.
    pub open spec fn buffer_len(self, slot: int) -> nat {
        if self.assigned(slot) {
            self.slots[slot].buffer->0.len()
        } else {
            0
        }
    }

    /// What a slot adds to a block of `block_len` samples. Nothing unless the
    /// engine is playing and the slot is audible; else the window of its buffer
    /// that starts at the transport position and is as long as the block or
    /// as what is left of the buffer, whichever is shorter.
    pub open spec fn contribution(self, slot: int, block_len: nat) -> Option<ContributionView<T>> {
        if self.state == PlaybackState::Playing && self.audible(slot) {
            let buffer = self.slots[slot].buffer->0;
            let start = if self.position <= buffer.len() {
                self.position as int
            } else {
                buffer.len() as int
            };
            let count = if block_len <= buffer.len() - start {
                block_len as int
            } else {
                buffer.len() - start
            };
            Some(
                ContributionView {
                    samples: buffer.subrange(start, start + count),
                    gain: self.slots[slot].volume,
                },
            )
        } else {
            None
        }
    }

    /// Length of the longest assigned buffer, up to slot `n`.
    pub open spec fn longest_upto(self, n: int) -> nat
        decreases n,
    {
        if n <= 0 {
            0
        } else {
            let rest = self.longest_upto(n - 1);
            if self.buffer_len(n - 1) > rest {
                self.buffer_len(n - 1)
            } else {
                rest
            }
        }
    }

    /// Length of the longest assigned buffer; zero where none is assigned.
    pub open spec fn longest(self) -> nat {
        self.longest_upto(self.slots.len() as int)
    }

    /// Number of assigned slots among the first `n`.
    pub open spec fn assigned_upto(self, n: int) -> nat
        decreases n,
    {
        if n <= 0 {
            0
        } else {
            self.assigned_upto(n - 1) + if self.assigned(n - 1) {
                1nat
            } else {
                0nat
            }
        }
    }

    /// The transport has run past the end of every assigned buffer. Of an
    /// engine without buffers this holds at every position.
    pub open spec fn past_end(self) -> bool {
        forall|i: int| #[trigger] self.assigned(i) ==> self.position > self.buffer_len(i)
    }

    /// Position after a block of `block_len` samples: unchanged unless the
    /// engine is playing and has not run past every buffer; else moved on by
    /// the block, stopping at the largest position there is.
    pub open spec fn advanced(self, block_len: nat) -> u64 {
        if self.state == PlaybackState::Playing && !self.past_end() {
            if self.position + block_len <= u64::MAX {
                (self.position + block_len) as u64
            } else {
                u64::MAX
            }
        } else {
            self.position
        }
    }

    /// Position a seek to `frame` lands on: the frame, or the last frame of
    /// the longest buffer where the frame lies beyond it, in samples.
    pub open spec fn seek_target(self, frame: u64) -> u64 {
        let last = self.longest() / 2;
        if frame <= last {
            (frame * 2) as u64
        } else {
            (last * 2) as u64
        }
    }

    /// The same engine with one slot replaced; unchanged where the index
    /// names no slot.
    pub open spec fn with_slot(self, slot: int, value: SlotView<T>) -> EngineView<T> {
        if 0 <= slot < self.slots.len() {
            EngineView { slots: self.slots.update(slot, value), ..self }
        } else {
            self
        }
    }

    /// The same engine with the gain of one slot set, limited to `[0.0, 1.0]`.
    pub open spec fn with_volume(self, slot: int, volume: u32) -> EngineView<T> {
        self.with_slot(slot, SlotView { volume: clamp_unit(volume), ..self.slots[slot] })
    }

    /// The same engine with the mute flag of one slot set.
    pub open spec fn with_mute(self, slot: int, muted: bool) -> EngineView<T> {
        self.with_slot(slot, SlotView { muted, ..self.slots[slot] })
    }

    /// The same engine with the solo flag of one slot set.
    pub open spec fn with_solo(self, slot: int, solo: bool) -> EngineView<T> {
        self.with_slot(slot, SlotView { solo, ..self.slots[slot] })
    }

    /// The same engine with the meter of one slot set to a magnitude.
    pub open spec fn with_level(self, slot: int, peak: u32) -> EngineView<T> {
        self.with_slot(slot, SlotView { level: level_of(peak), ..self.slots[slot] })
    }

    /// The same engine with a buffer assigned to one slot.
    pub open spec fn with_buffer(self, slot: int, samples: Seq<T>) -> EngineView<T> {
        self.with_slot(slot, SlotView { buffer: Some(samples), ..self.slots[slot] })
    }

    /// The same engine with other slots.
    pub open spec fn with_slots(self, slots: Seq<SlotView<T>>) -> EngineView<T> {
        EngineView { slots, ..self }
    }

    /// The same engine at another position.
    pub open spec fn at(self, position: u64) -> EngineView<T> {
        EngineView { position, ..self }
    }

    /// The same engine in another transport state.
    pub open spec fn in_state(self, state: PlaybackState) -> EngineView<T> {
        EngineView { state, ..self }
    }

    /// Every slot emptied, controls kept.
    pub open spec fn emptied(self) -> Seq<SlotView<T>> {
        Seq::new(self.slots.len(), |i: int| SlotView { buffer: None, ..self.slots[i] })
    }

    /// Index of the first empty slot, if there is one.
    pub open spec fn first_free(self) -> Option<int> {
        if exists|i: int| 0 <= i < self.slots.len() && (#[trigger] self.slots[i]).buffer is None {
            Some(
                choose|i: int|
                    0 <= i < self.slots.len() && (#[trigger] self.slots[i]).buffer is None
                        && forall|j: int| 0 <= j < i ==> (#[trigger] self.slots[j]).buffer is Some,
            )
        } else {
            None
        }
    }

    /// Two engines that agree on everything but their meters.
    pub open spec fn differs_in_levels_only(self, other: EngineView<T>) -> bool {
        &&& self.slots.len() == other.slots.len()
        &&& forall|i: int|
            0 <= i < self.slots.len() ==> (#[trigger] self.slots[i]) == SlotView {
                level: self.slots[i].level,
                ..other.slots[i]
            }
        &&& self.master_volume == other.master_volume
        &&& self.state == other.state
        &&& self.position == other.position
        &&& self.sample_rate == other.sample_rate
    }

    /// Two engines that agree on everything but the mute flags of their slots.
    pub open spec fn differs_in_mutes_only(self, other: EngineView<T>) -> bool {
        &&& self.slots.len() == other.slots.len()
        &&& forall|i: int|
            0 <= i < self.slots.len() ==> (#[trigger] self.slots[i]) == SlotView {
                muted: self.slots[i].muted,
                ..other.slots[i]
            }
        &&& self.master_volume == other.master_volume
        &&& self.master_level == other.master_level
        &&& self.state == other.state
        &&& self.position == other.position
        &&& self.sample_rate == other.sample_rate
    }
}

/// What one slot adds to a block: the samples to add, in order from the start
/// of the block, and the gain to add them at.
pub struct Contribution<'a, T> {
    pub samples: &'a [T],
    pub gain: u32,
}

impl<'a, T> View for Contribution<'a, T> {
    type V = ContributionView<T>;

    open spec fn view(&self) -> ContributionView<T> {
        ContributionView { samples: self.samples@, gain: self.gain }
    }
}

/// What a meter display needs to know of the engine at one moment.
pub struct PlaybackSnapshot {
    /// Transport position in interleaved samples.
    pub position: u64,
    /// Rate the position is counted at, in frames per second.
    pub sample_rate: u32,
    pub is_playing: bool,
    /// Peak of every slot in the last block, slot by slot.
    pub levels: Vec<u32>,
    /// Peak of the whole mix in the last block.
    pub master: u32,
}

/// Milliseconds between two snapshots for a display that shows twenty a second.
pub const SNAPSHOT_INTERVAL_MS: u64 = 50;

/// The engine: a fixed number of stem slots with their controls, a master
/// gain, meters, and the transport.
pub struct MultiTrackEngine<T> {
    max_stems: usize,
    stems: Vec<Option<Arc<Vec<T>>>>,
    stem_volumes: Vec<u32>,
    stem_mutes: Vec<bool>,
    stem_solos: Vec<bool>,
    stem_levels: Vec<u32>,
    master_volume: u32,
    master_level: u32,
    playback_state: PlaybackState,
    position: u64,
    sample_rate: u32,
}

impl<T> MultiTrackEngine<T> {
    /// The five per-slot tables have one row per slot.
    pub closed spec fn tables_aligned(&self) -> bool {
        &&& self.stems@.len() == self.max_stems
        &&& self.stem_volumes@.len() == self.max_stems
        &&& self.stem_mutes@.len() == self.max_stems
        &&& self.stem_solos@.len() == self.max_stems
        &&& self.stem_levels@.len() == self.max_stems
    }

    /// The representation is consistent and meets the engine invariant.
    pub closed spec fn wf(&self) -> bool {
        &&& self.tables_aligned()
        &&& self@.wf()
    }
}

impl<T> View for MultiTrackEngine<T> {
    type V = EngineView<T>;

    closed spec fn view(&self) -> EngineView<T> {
        EngineView {
            slots: Seq::new(
                self.max_stems as nat,
                |i: int|
                    SlotView {
                        buffer: match self.stems@[i] {
                            Some(buffer) => Some(buffer@),
                            None => None,
                        },
                        volume: self.stem_volumes@[i],
                        muted: self.stem_mutes@[i],
                        solo: self.stem_solos@[i],
                        level: self.stem_levels@[i],
                    },
            ),
            master_volume: self.master_volume,
            master_level: self.master_level,
            state: self.playback_state,
            position: self.position,
            sample_rate: self.sample_rate,
        }
    }
}

impl<T> MultiTrackEngine<T> {
    /// An engine with the number of slots of a preset.
    pub fn with_capacity(capacity: StemCapacity) -> (built: Result<Self, AudioError>)
        ensures
            match built {
                Ok(engine) => {
                    &&& 1 <= capacity.slots() <= MAX_STEM_SLOTS
                    &&& engine.wf()
                    &&& engine@ == EngineView::<T>::initial(capacity.slots(), DEFAULT_SAMPLE_RATE)
                },
                Err(error) => {
                    &&& (capacity.slots() == 0 || capacity.slots() > MAX_STEM_SLOTS)
                    &&& error is DeviceInit
                },
            },
    {
        Self::new(capacity.as_usize())
    }

    /// An engine with sixteen slots.
    pub fn new_standard() -> (built: Result<Self, AudioError>)
        ensures
            built matches Ok(engine) && engine.wf() && engine@ == EngineView::<T>::initial(
                16,
                DEFAULT_SAMPLE_RATE,
            ),
    {
        Self::with_capacity(StemCapacity::Standard)
    }

    /// An engine with thirty-two slots.
    pub fn new_extended() -> (built: Result<Self, AudioError>)
        ensures
            built matches Ok(engine) && engine.wf() && engine@ == EngineView::<T>::initial(
                32,
                DEFAULT_SAMPLE_RATE,
            ),
    {
        Self::with_capacity(StemCapacity::Extended)
    }

    /// An engine with sixty-four slots.
    pub fn new_professional() -> (built: Result<Self, AudioError>)
        ensures
            built matches Ok(engine) && engine.wf() && engine@ == EngineView::<T>::initial(
                64,
                DEFAULT_SAMPLE_RATE,
            ),
    {
        Self::with_capacity(StemCapacity::Professional)
    }

    /// An engine with `max_stems` slots. A count of zero or above 256 is refused.
    pub fn new(max_stems: usize) -> (built: Result<Self, AudioError>)
        ensures
            match built {
                Ok(engine) => {
                    &&& 1 <= max_stems <= MAX_STEM_SLOTS
                    &&& engine.wf()
                    &&& engine@ == EngineView::<T>::initial(max_stems as nat, DEFAULT_SAMPLE_RATE)
                },
                Err(error) => {
                    &&& (max_stems == 0 || max_stems > MAX_STEM_SLOTS)
                    &&& error is DeviceInit
                },
            },
    {
        if max_stems == 0 {
            return Err(AudioError::DeviceInit("Maximum stems must be at least 1".to_owned()));
        }
        if max_stems > MAX_STEM_SLOTS {
            return Err(
                AudioError::DeviceInit("Maximum 256 stems supported for stability".to_owned()),
            );
        }
        let mut stems: Vec<Option<Arc<Vec<T>>>> = Vec::new();
        let mut stem_volumes: Vec<u32> = Vec::new();
        let mut stem_mutes: Vec<bool> = Vec::new();
        let mut stem_solos: Vec<bool> = Vec::new();
        let mut stem_levels: Vec<u32> = Vec::new();
        let mut i: usize = 0;
        while i < max_stems
            invariant
                i <= max_stems,
                stems.len() == i,
                stem_volumes.len() == i,
                stem_mutes.len() == i,
                stem_solos.len() == i,
                stem_levels.len() == i,
                forall|j: int| 0 <= j < i ==> (#[trigger] stems[j]) is None,
                forall|j: int| 0 <= j < i ==> (#[trigger] stem_volumes[j]) == UNITY_BITS,
                forall|j: int| 0 <= j < i ==> !(#[trigger] stem_mutes[j]),
                forall|j: int| 0 <= j < i ==> !(#[trigger] stem_solos[j]),
                forall|j: int| 0 <= j < i ==> (#[trigger] stem_levels[j]) == SILENCE_BITS,
            decreases max_stems - i,
        {
            stems.push(None);
            stem_volumes.push(UNITY_BITS);
            stem_mutes.push(false);
            stem_solos.push(false);
            stem_levels.push(SILENCE_BITS);
            i += 1;
        }
        let engine = MultiTrackEngine {
            max_stems,
            stems,
            stem_volumes,
            stem_mutes,
            stem_solos,
            stem_levels,
            master_volume: UNITY_BITS,
            master_level: SILENCE_BITS,
            playback_state: PlaybackState::Stopped,
            position: 0,
            sample_rate: DEFAULT_SAMPLE_RATE,
        };
        assert(engine@.slots =~= EngineView::<T>::initial(
            max_stems as nat,
            DEFAULT_SAMPLE_RATE,
        ).slots);
        Ok(engine)
    }

    /// Number of slots.
    pub fn max_stems(&self) -> (n: usize)
        requires
            self.wf(),
        ensures
            n == self@.slots.len(),
    {
        self.max_stems
    }

    /// Number of slots; the engine holds no buffers beyond its slots.
    pub fn buffer_pool_capacity(&self) -> (n: usize)
        requires
            self.wf(),
        ensures
            n == self@.slots.len(),
    {
        self.max_stems
    }

    /// Number of slots that hold a buffer.
    pub fn active_stems(&self) -> (n: usize)
        requires
            self.wf(),
        ensures
            n == self@.assigned_upto(self@.slots.len() as int),
            n <= self@.slots.len(),
    {
        let mut n: usize = 0;
        let mut i: usize = 0;
        while i < self.max_stems
            invariant
                i <= self.max_stems,
                self.wf(),
                n == self@.assigned_upto(i as int),
                n <= i,
            decreases self.max_stems - i,
        {
            if self.stems[i].is_some() {
                n += 1;
            }
            i += 1;
        }
        n
    }

    /// Number of slots that hold a buffer.
    pub fn stem_count(&self) -> (n: usize)
        requires
            self.wf(),
        ensures
            n == self@.assigned_upto(self@.slots.len() as int),
    {
        self.active_stems()
    }

    /// Rate the output runs at, which every assigned buffer has to be at.
    pub fn device_sample_rate(&self) -> (rate: u32)
        requires
            self.wf(),
        ensures
            rate == self@.sample_rate,
            rate > 0,
    {
        self.sample_rate
    }

    /// Takes over the rate of a newly opened output. A rate of zero is
    /// refused and nothing changes. Where the rate differs from the current
    /// one, every slot is emptied and the position goes back to zero, since
    /// the buffers were made for the old rate; the result says whether that
    /// happened.
    pub fn set_device_sample_rate(&mut self, rate: u32) -> (outcome: Result<bool, AudioError>)
        requires
            old(self).wf(),
        ensures
            final(self).wf(),
            match outcome {
                Ok(invalidated) => {
                    &&& rate > 0
                    &&& invalidated == (rate != old(self)@.sample_rate)
                    &&& !invalidated ==> final(self)@ == old(self)@
                    &&& invalidated ==> final(self)@ == (EngineView {
                        slots: old(self)@.emptied(),
                        position: 0,
                        sample_rate: rate,
                        ..old(self)@
                    })
                },
                Err(error) => rate == 0 && error is DeviceInit && final(self)@ == old(self)@,
            },
    {
        if rate == 0 {
            return Err(AudioError::DeviceInit("Output reports a sample rate of zero".to_owned()));
        }
        if rate == self.sample_rate {
            return Ok(false);
        }
        let ghost before = self@;
        self.clear_stems();
        self.sample_rate = rate;
        assert(self@.slots =~= before.emptied());
        Ok(true)
    }

    fn first_free_slot(&self) -> (found: Option<usize>)
        requires
            self.wf(),
        ensures
            match found {
                Some(i) => {
                    &&& i < self.max_stems
                    &&& self@.slots[i as int].buffer is None
                    &&& forall|j: int| 0 <= j < i ==> (#[trigger] self@.slots[j]).buffer is Some
                    &&& self@.first_free() == Some(i as int)
                },
                None => {
                    &&& forall|j: int|
                        0 <= j < self@.slots.len() ==> (#[trigger] self@.slots[j]).buffer is Some
                    &&& self@.first_free() is None
                },
            },
    {
        let mut i: usize = 0;
        while i < self.max_stems
            invariant
                i <= self.max_stems,
                self.wf(),
                forall|j: int| 0 <= j < i ==> (#[trigger] self@.slots[j]).buffer is Some,
            decreases self.max_stems - i,
        {
            if self.stems[i].is_none() {
                proof {
                    let view = self@;
                    let pick = choose|k: int|
                        0 <= k < view.slots.len() && (#[trigger] view.slots[k]).buffer is None
                            && forall|j: int|
                            0 <= j < k ==> (#[trigger] view.slots[j]).buffer is Some;
                    assert(view.slots[i as int].buffer is None);
                    if pick < i {
                        assert(view.slots[pick].buffer is Some);
                    }
                    if i < pick {
                        assert(view.slots[i as int].buffer is Some);
                    }
                }
                return Some(i);
            }
            i += 1;
        }
        None
    }

    /// Assigns a buffer to the first empty slot and says which one that is.
    /// Where every slot is taken nothing changes.
    pub fn load_stem_from_samples(&mut self, samples: Arc<Vec<T>>) -> (outcome: Result<
        usize,
        AudioError,
    >)
        requires
            old(self).wf(),
        ensures
            final(self).wf(),
            match outcome {
                Ok(slot) => {
                    &&& old(self)@.first_free() == Some(slot as int)
                    &&& slot < old(self)@.slots.len()
                    &&& old(self)@.slots[slot as int].buffer is None
                    &&& forall|j: int| 0 <= j < slot ==> old(self)@.assigned(j)
                    &&& final(self)@ == old(self)@.with_buffer(slot as int, samples@)
                },
                Err(error) => {
                    &&& error is NoSlot
                    &&& old(self)@.first_free() is None
                    &&& forall|j: int| 0 <= j < old(self)@.slots.len() ==> old(self)@.assigned(j)
                    &&& final(self)@ == old(self)@
                },
            },
    {
        match self.first_free_slot() {
            None => Err(AudioError::NoSlot),
            Some(slot) => {
                let ghost before = self@;
                self.stems.set(slot, Some(samples));
                assert(self@.slots =~= before.slots.update(
                    slot as int,
                    SlotView { buffer: Some(samples@), ..before.slots[slot as int] },
                ));
                Ok(slot)
            },
        }
    }

    /// Empties every slot and puts the position back to zero. Controls,
    /// meters and the transport state stay as they are.
    pub fn clear_stems(&mut self)
        requires
            old(self).wf(),
        ensures
            final(self).wf(),
            final(self)@ == old(self)@.with_slots(old(self)@.emptied()).at(0),
            final(self)@.assigned_upto(final(self)@.slots.len() as int) == 0,
    {
        let ghost before = self@;
        let mut i: usize = 0;
        while i < self.max_stems
            invariant
                i <= self.max_stems,
                self.wf(),
                self.max_stems == before.slots.len(),
                self@.master_volume == before.master_volume,
                self@.master_level == before.master_level,
                self@.state == before.state,
                self@.position == before.position,
                self@.sample_rate == before.sample_rate,
                forall|j: int|
                    0 <= j < i ==> (#[trigger] self@.slots[j]) == (SlotView {
                        buffer: None,
                        ..before.slots[j]
                    }),
                forall|j: int| i <= j < self.max_stems ==> (#[trigger] self@.slots[j]) == before.slots[j],
            decreases self.max_stems - i,
        {
            let ghost prev = self@;
            self.stems.set(i, None);
            assert(self@.slots =~= prev.slots.update(
                i as int,
                SlotView { buffer: None, ..prev.slots[i as int] },
            ));
            i += 1;
        }
        self.position = 0;
        proof {
            assert(self@.slots =~= before.emptied());
            lemma_none_assigned(self@, self@.slots.len() as int);
        }
    }

    /// Sets the gain of a slot, limited to `[0.0, 1.0]`. An index that names
    /// no slot is ignored.
    pub fn set_stem_volume(&mut self, stem_id: usize, volume: u32)
        requires
            old(self).wf(),
        ensures
            final(self).wf(),
            final(self)@ == old(self)@.with_volume(stem_id as int, volume),
    {
        if stem_id >= self.max_stems {
            return ;
        }
        let ghost before = self@;
        self.stem_volumes.set(stem_id, clamp_unit_bits(volume));
        assert(self@.slots =~= before.slots.update(
            stem_id as int,
            SlotView { volume: clamp_unit(volume), ..before.slots[stem_id as int] },
        ));
    }

    /// Gain of a slot; `0.0` for an index that names no slot.
    pub fn stem_volume(&self, stem_id: usize) -> (volume: u32)
        requires
            self.wf(),
        ensures
            stem_id < self@.slots.len() ==> volume == self@.slots[stem_id as int].volume,
            stem_id >= self@.slots.len() ==> volume == SILENCE_BITS,
            is_unit(volume),
    {
        if stem_id >= self.max_stems {
            return SILENCE_BITS;
        }
        assert(is_unit(self@.slots[stem_id as int].volume));
        self.stem_volumes[stem_id]
    }

    /// Sets the mute flag of a slot. An index that names no slot is ignored.
    pub fn set_stem_mute(&mut self, stem_id: usize, muted: bool)
        requires
            old(self).wf(),
        ensures
            final(self).wf(),
            final(self)@ == old(self)@.with_mute(stem_id as int, muted),
    {
        if stem_id >= self.max_stems {
            return ;
        }
        let ghost before = self@;
        self.stem_mutes.set(stem_id, muted);
        assert(self@.slots =~= before.slots.update(
            stem_id as int,
            SlotView { muted, ..before.slots[stem_id as int] },
        ));
    }

    /// Mute flag of a slot; `false` for an index that names no slot.
    pub fn is_stem_muted(&self, stem_id: usize) -> (muted: bool)
        requires
            self.wf(),
        ensures
            stem_id < self@.slots.len() ==> muted == self@.slots[stem_id as int].muted,
            stem_id >= self@.slots.len() ==> !muted,
    {
        if stem_id >= self.max_stems {
            return false;
        }
        self.stem_mutes[stem_id]
    }

    /// Sets the solo flag of a slot. An index that names no slot is ignored.
    pub fn set_stem_solo(&mut self, stem_id: usize, soloed: bool)
        requires
            old(self).wf(),
        ensures
            final(self).wf(),
            final(self)@ == old(self)@.with_solo(stem_id as int, soloed),
    {
        if stem_id >= self.max_stems {
            return ;
        }
        let ghost before = self@;
        self.stem_solos.set(stem_id, soloed);
        assert(self@.slots =~= before.slots.update(
            stem_id as int,
            SlotView { solo: soloed, ..before.slots[stem_id as int] },
        ));
    }

    /// Solo flag of a slot; `false` for an index that names no slot.
    pub fn is_stem_soloed(&self, stem_id: usize) -> (soloed: bool)
        requires
            self.wf(),
        ensures
            stem_id < self@.slots.len() ==> soloed == self@.slots[stem_id as int].solo,
            stem_id >= self@.slots.len() ==> !soloed,
    {
        if stem_id >= self.max_stems {
            return false;
        }
        self.stem_solos[stem_id]
    }

    /// Sets the master gain, limited to `[0.0, 1.0]`.
    pub fn set_master_volume(&mut self, volume: u32)
        requires
            old(self).wf(),
        ensures
            final(self).wf(),
            final(self)@ == (EngineView { master_volume: clamp_unit(volume), ..old(self)@ }),
    {
        self.master_volume = clamp_unit_bits(volume);
    }

    /// The master gain.
    pub fn master_volume(&self) -> (volume: u32)
        requires
            self.wf(),
        ensures
            volume == self@.master_volume,
            is_unit(volume),
    {
        self.master_volume
    }

    /// Starts or resumes playback from the current position.
    pub fn play(&mut self) -> (outcome: Result<(), AudioError>)
        requires
            old(self).wf(),
        ensures
            final(self).wf(),
            outcome is Ok,
            final(self)@ == old(self)@.in_state(PlaybackState::Playing),
    {
        self.playback_state = PlaybackState::Playing;
        Ok(())
    }

    /// Holds playback at the current position.
    pub fn pause(&mut self) -> (outcome: Result<(), AudioError>)
        requires
            old(self).wf(),
        ensures
            final(self).wf(),
            outcome is Ok,
            final(self)@ == old(self)@.in_state(PlaybackState::Paused),
    {
        self.playback_state = PlaybackState::Paused;
        Ok(())
    }

    /// Stops playback and puts the position back to zero.
    pub fn stop(&mut self) -> (outcome: Result<(), AudioError>)
        requires
            old(self).wf(),
        ensures
            final(self).wf(),
            outcome is Ok,
            final(self)@ == old(self)@.in_state(PlaybackState::Stopped).at(0),
    {
        self.playback_state = PlaybackState::Stopped;
        self.position = 0;
        Ok(())
    }

    /// Length of the longest assigned buffer, in samples.
    pub fn longest_stem(&self) -> (len: usize)
        requires
            self.wf(),
        ensures
            len == self@.longest(),
    {
        let mut longest: usize = 0;
        let mut i: usize = 0;
        while i < self.max_stems
            invariant
                i <= self.max_stems,
                self.wf(),
                longest == self@.longest_upto(i as int),
            decreases self.max_stems - i,
        {
            match &self.stems[i] {
                Some(buffer) => {
                    let len = buffer.len();
                    if len > longest {
                        longest = len;
                    }
                },
                None => {},
            }
            i += 1;
        }
        longest
    }

    /// Length of the loaded song in frames: that of its longest stem.
    pub fn duration_frames(&self) -> (frames: u64)
        requires
            self.wf(),
        ensures
            frames == self@.longest() / 2,
            frames * 2 <= usize::MAX,
    {
        (self.longest_stem() / 2) as u64
    }

    /// Moves the transport to a frame, or to the end of the song where the
    /// frame lies beyond it.
    pub fn seek(&mut self, frame: u64) -> (outcome: Result<(), AudioError>)
        requires
            old(self).wf(),
        ensures
            final(self).wf(),
            outcome is Ok,
            final(self)@ == old(self)@.at(old(self)@.seek_target(frame)),
            final(self)@.position <= old(self)@.longest(),
            final(self)@.position % 2 == 0,
    {
        let last = self.duration_frames();
        let target = if frame <= last {
            frame
        } else {
            last
        };
        self.position = target * 2;
        Ok(())
    }

    /// Transport position in interleaved samples.
    pub fn position(&self) -> (position: u64)
        requires
            self.wf(),
        ensures
            position == self@.position,
    {
        self.position
    }

    /// Transport position in frames.
    pub fn position_frames(&self) -> (frame: u64)
        requires
            self.wf(),
        ensures
            frame == self@.position / 2,
    {
        self.position / 2
    }

    /// Transport state.
    pub fn state(&self) -> (state: PlaybackState)
        requires
            self.wf(),
        ensures
            state == self@.state,
    {
        self.playback_state
    }

    /// Whether any slot has its solo flag set.
    pub fn any_solo(&self) -> (any: bool)
        requires
            self.wf(),
        ensures
            any == self@.any_solo(),
    {
        let mut i: usize = 0;
        while i < self.max_stems
            invariant
                i <= self.max_stems,
                self.wf(),
                forall|j: int| 0 <= j < i ==> !(#[trigger] self@.slots[j]).solo,
            decreases self.max_stems - i,
        {
            if self.stem_solos[i] {
                assert(self@.slots[i as int].solo);
                return true;
            }
            i += 1;
        }
        false
    }

    /// Whether a slot is heard; `false` for an index that names no slot.
    pub fn is_audible(&self, slot: usize) -> (audible: bool)
        requires
            self.wf(),
        ensures
            audible == self@.audible(slot as int),
    {
        if slot >= self.max_stems {
            return false;
        }
        if self.stems[slot].is_none() {
            return false;
        }
        if self.any_solo() {
            self.stem_solos[slot]
        } else {
            !self.stem_mutes[slot]
        }
    }

    /// What a slot adds to a block of `block_len` samples: nothing unless the
    /// engine is playing and the slot is audible, else the samples to add from
    /// the start of the block, and the gain to add them at.
    pub fn contribution<'a>(&'a self, slot: usize, block_len: usize) -> (part: Option<
        Contribution<'a, T>,
    >)
        requires
            self.wf(),
        ensures
            match part {
                Some(c) => self@.contribution(slot as int, block_len as nat) == Some(c@),
                None => (self@.contribution(slot as int, block_len as nat) is None),
            },
            part matches Some(c) ==> c@.samples.len() <= block_len && is_unit(c@.gain),
    {
        match self.playback_state {
            PlaybackState::Playing => {},
            _ => {
                return None;
            },
        }
        if !self.is_audible(slot) {
            return None;
        }
        match &self.stems[slot] {
            None => None,
            Some(buffer) => {
                let len = buffer.len();
                let start: usize = if self.position <= len as u64 {
                    self.position as usize
                } else {
                    len
                };
                let count: usize = if block_len <= len - start {
                    block_len
                } else {
                    len - start
                };
                let samples = vstd::slice::slice_subrange(buffer.as_slice(), start, start + count);
                assert(is_unit(self@.slots[slot as int].volume));
                Some(Contribution { samples, gain: self.stem_volumes[slot] })
            },
        }
    }

    /// Records the peak of a slot's share of the block, as a magnitude. An
    /// index that names no slot is ignored.
    pub fn set_stem_level(&mut self, stem_id: usize, peak: u32)
        requires
            old(self).wf(),
        ensures
            final(self).wf(),
            final(self)@ == old(self)@.with_level(stem_id as int, peak),
    {
        if stem_id >= self.max_stems {
            return ;
        }
        let ghost before = self@;
        self.stem_levels.set(stem_id, level_bits(peak));
        assert(self@.slots =~= before.slots.update(
            stem_id as int,
            SlotView { level: level_of(peak), ..before.slots[stem_id as int] },
        ));
    }

    /// Peak last recorded for a slot; silence for an index that names no slot.
    pub fn stem_level(&self, stem_id: usize) -> (level: u32)
        requires
            self.wf(),
        ensures
            stem_id < self@.slots.len() ==> level == self@.slots[stem_id as int].level,
            stem_id >= self@.slots.len() ==> level == SILENCE_BITS,
            level <= INFINITY_BITS,
    {
        if stem_id >= self.max_stems {
            return SILENCE_BITS;
        }
        assert(self@.slots[stem_id as int].level <= INFINITY_BITS);
        self.stem_levels[stem_id]
    }

    /// Records the peak of the whole block, as a magnitude.
    pub fn set_master_level(&mut self, peak: u32)
        requires
            old(self).wf(),
        ensures
            final(self).wf(),
            final(self)@ == (EngineView { master_level: level_of(peak), ..old(self)@ }),
    {
        self.master_level = level_bits(peak);
    }

    /// Peak last recorded for the whole block.
    pub fn master_level(&self) -> (level: u32)
        requires
            self.wf(),
        ensures
            level == self@.master_level,
            level <= INFINITY_BITS,
    {
        self.master_level
    }

    /// The position, the transport state and the meters, read together. The
    /// buffers are not touched.
    pub fn snapshot(&self) -> (shot: PlaybackSnapshot)
        requires
            self.wf(),
        ensures
            shot.position == self@.position,
            shot.sample_rate == self@.sample_rate,
            shot.is_playing == (self@.state == PlaybackState::Playing),
            shot.master == self@.master_level,
            shot.levels@.len() == self@.slots.len(),
            forall|i: int| 0 <= i < self@.slots.len() ==> shot.levels@[i] == self@.slots[i].level,
    {
        let mut levels: Vec<u32> = Vec::new();
        let mut i: usize = 0;
        while i < self.max_stems
            invariant
                i <= self.max_stems,
                self.wf(),
                levels@.len() == i,
                forall|j: int| 0 <= j < i ==> levels@[j] == self@.slots[j].level,
            decreases self.max_stems - i,
        {
            levels.push(self.stem_levels[i]);
            i += 1;
        }
        let is_playing = match self.playback_state {
            PlaybackState::Playing => true,
            _ => false,
        };
        PlaybackSnapshot {
            position: self.position,
            sample_rate: self.sample_rate,
            is_playing,
            levels,
            master: self.master_level,
        }
    }

    /// Whether the transport has run past the end of every assigned buffer.
    pub fn is_past_end(&self) -> (past: bool)
        requires
            self.wf(),
        ensures
            past == self@.past_end(),
    {
        let mut i: usize = 0;
        while i < self.max_stems
            invariant
                i <= self.max_stems,
                self.wf(),
                forall|j: int|
                    0 <= j < i && #[trigger] self@.assigned(j) ==> self@.position
                        > self@.buffer_len(j),
            decreases self.max_stems - i,
        {
            match &self.stems[i] {
                Some(buffer) => {
                    if self.position <= buffer.len() as u64 {
                        assert(self@.assigned(i as int));
                        return false;
                    }
                },
                None => {},
            }
            i += 1;
        }
        true
    }

    /// Closes a block of `block_len` samples: while playing, the position
    /// moves on by the block, unless it has already run past the end of every
    /// assigned buffer. Otherwise it stays.
    pub fn end_block(&mut self, block_len: usize)
        requires
            old(self).wf(),
        ensures
            final(self).wf(),
            final(self)@ == old(self)@.at(old(self)@.advanced(block_len as nat)),
            final(self)@.position >= old(self)@.position,
    {
        match self.playback_state {
            PlaybackState::Playing => {},
            _ => {
                return ;
            },
        }
        if self.is_past_end() {
            return ;
        }
        self.position = match self.position.checked_add(block_len as u64) {
            Some(next) => next,
            None => u64::MAX,
        };
    }
}

/// A consistent engine meets the engine invariant: it has between one and
/// 256 slots, all its gains lie in `[0.0, 1.0]`, and its meters hold magnitudes.
pub proof fn lemma_engine_invariant<T>(engine: MultiTrackEngine<T>)
    requires
        engine.wf(),
    ensures
        engine@.wf(),
{
}

/// Where no slot holds a buffer, none is counted as assigned.
pub proof fn lemma_none_assigned<T>(engine: EngineView<T>, n: int)
    requires
        0 <= n <= engine.slots.len(),
        forall|j: int| 0 <= j < engine.slots.len() ==> (#[trigger] engine.slots[j]).buffer is None,
    ensures
        engine.assigned_upto(n) == 0,
    decreases n,
{
    if n > 0 {
        lemma_none_assigned(engine, n - 1);
    }
}

/// Solo takes precedence over mute: while any solo flag is set, the slots
/// that are heard are the assigned slots with their solo flag set, and each
/// adds the same samples at the same gain, whatever the mute flags say.
pub proof fn lemma_solo_dominance<T>(a: EngineView<T>, b: EngineView<T>, block_len: nat)
    requires
        a.any_solo(),
        a.differs_in_mutes_only(b),
    ensures
        b.any_solo(),
        forall|slot: int| #[trigger] a.audible(slot) == (a.assigned(slot) && a.slots[slot].solo),
        forall|slot: int| a.audible(slot) == #[trigger] b.audible(slot),
        forall|slot: int|
            a.contribution(slot, block_len) == #[trigger] b.contribution(slot, block_len),
{
    let witness = choose|j: int| 0 <= j < a.slots.len() && (#[trigger] a.slots[j]).solo;
    assert(b.slots[witness].solo);
    assert forall|slot: int| a.audible(slot) == #[trigger] b.audible(slot) by {
        if 0 <= slot < a.slots.len() {
            assert(a.slots[slot].solo == b.slots[slot].solo);
        }
    }
    assert forall|slot: int|
        a.contribution(slot, block_len) == #[trigger] b.contribution(slot, block_len) by {
        if 0 <= slot < a.slots.len() {
            assert(a.slots[slot].buffer == b.slots[slot].buffer);
        }
        assert(a.audible(slot) == b.audible(slot));
    }
}

/// What the meters show has no bearing on what is heard or on the transport:
/// two engines that differ in their meters alone add the same samples at the
/// same gains and move on alike.
pub proof fn lemma_meters_are_not_heard<T>(a: EngineView<T>, b: EngineView<T>, block_len: nat)
    requires
        a.differs_in_levels_only(b),
    ensures
        a.any_solo() == b.any_solo(),
        forall|slot: int| a.audible(slot) == #[trigger] b.audible(slot),
        forall|slot: int|
            a.contribution(slot, block_len) == #[trigger] b.contribution(slot, block_len),
        a.past_end() == b.past_end(),
        a.advanced(block_len) == b.advanced(block_len),
{
    if a.any_solo() {
        let witness = choose|j: int| 0 <= j < a.slots.len() && (#[trigger] a.slots[j]).solo;
        assert(b.slots[witness].solo);
    }
    if b.any_solo() {
        let witness = choose|j: int| 0 <= j < b.slots.len() && (#[trigger] b.slots[j]).solo;
        assert(a.slots[witness].solo);
    }
    assert forall|slot: int| a.audible(slot) == #[trigger] b.audible(slot) by {
        if 0 <= slot < a.slots.len() {
            assert(a.slots[slot].solo == b.slots[slot].solo);
        }
    }
    assert forall|slot: int|
        a.contribution(slot, block_len) == #[trigger] b.contribution(slot, block_len) by {
        if 0 <= slot < a.slots.len() {
            assert(a.slots[slot].buffer == b.slots[slot].buffer);
        }
        assert(a.audible(slot) == b.audible(slot));
    }
    assert forall|slot: int| a.assigned(slot) == b.assigned(slot) && a.buffer_len(slot)
        == b.buffer_len(slot) by {
        if 0 <= slot < a.slots.len() {
            assert(a.slots[slot].buffer == b.slots[slot].buffer);
        }
    }
    assert(a.past_end() == b.past_end()) by {
        if a.past_end() {
            assert forall|i: int| #[trigger] b.assigned(i) implies b.position > b.buffer_len(i) by {
                assert(a.assigned(i));
            }
        }
        if b.past_end() {
            assert forall|i: int| #[trigger] a.assigned(i) implies a.position > a.buffer_len(i) by {
                assert(b.assigned(i));
            }
        }
    }
}

/// Without any solo flag, a muted slot adds nothing to the mix and an
/// assigned slot that is not muted is heard.
pub proof fn lemma_mute_silences<T>(engine: EngineView<T>, slot: int, block_len: nat)
    requires
        !engine.any_solo(),
        engine.assigned(slot),
    ensures
        engine.audible(slot) == !engine.slots[slot].muted,
        engine.slots[slot].muted ==> engine.contribution(slot, block_len) is None,
{
}

/// While the engine plays and has not run past its buffers, a block moves
/// the position on by exactly its length.
pub proof fn lemma_position_advances<T>(engine: EngineView<T>, block_len: nat)
    requires
        engine.state == PlaybackState::Playing,
        !engine.past_end(),
        engine.position + block_len <= u64::MAX,
    ensures
        engine.advanced(block_len) == engine.position + block_len,
{
}

/// While the engine does not play, a block leaves the position where it is
/// and no slot adds anything.
pub proof fn lemma_idle_block_is_silent<T>(engine: EngineView<T>, slot: int, block_len: nat)
    requires
        engine.state != PlaybackState::Playing,
    ensures
        engine.advanced(block_len) == engine.position,
        engine.contribution(slot, block_len) is None,
{
}

} // verus!
