//! The operations a front end calls: start a cached song, and steer its
//! stems by their identifiers.
//!
//! Each function takes what it works on as arguments; keeping an engine, a
//! cache and a stem map together, and guarding them, is the caller's part.

use crate::cache::{share_buffer, CachedSong, CachedStemView};
use crate::gain::{clamp_unit, clamp_unit_bits};
use crate::mixer::{EngineView, MultiTrackEngine, SlotView};
use crate::types::{AudioError, PlaybackState};
use vstd::prelude::*;

verus! {

/// Which stem sits in which slot: the identifier at place `i` is that of the
/// stem in slot `i`.
pub struct StemMap {
    ids: Vec<String>,
}

impl View for StemMap {
    type V = Seq<Seq<char>>;

    closed spec fn view(&self) -> Seq<Seq<char>> {
        Seq::new(self.ids@.len(), |i: int| self.ids@[i]@)
    }
}

/// The slot of the stem that goes by `stem_id`: the last one, should several
/// stems share the identifier.
pub open spec fn slot_of(ids: Seq<Seq<char>>, stem_id: Seq<char>) -> Option<int>
    decreases ids.len(),
{
    if ids.len() == 0 {
        None
    } else if ids.last() == stem_id {
        Some(ids.len() - 1)
    } else {
        slot_of(ids.drop_last(), stem_id)
    }
}

/// `slot_of` answers with a slot that holds the identifier, and with none
/// only where no slot holds it.
pub proof fn lemma_slot_of(ids: Seq<Seq<char>>, stem_id: Seq<char>)
    ensures
        match slot_of(ids, stem_id) {
            Some(slot) => 0 <= slot < ids.len() && ids[slot] == stem_id && forall|j: int|
                slot < j < ids.len() ==> ids[j] != stem_id,
            None => forall|j: int| 0 <= j < ids.len() ==> ids[j] != stem_id,
        },
    decreases ids.len(),
{
    if ids.len() > 0 && ids.last() != stem_id {
        let front = ids.drop_last();
        lemma_slot_of(front, stem_id);
        assert forall|j: int| 0 <= j < front.len() implies front[j] == ids[j] by {}
        match slot_of(front, stem_id) {
            Some(slot) => {
                assert forall|j: int| slot < j < ids.len() implies ids[j] != stem_id by {
                    if j < front.len() {
                        assert(front[j] == ids[j]);
                    }
                }
            },
            None => {
                assert forall|j: int| 0 <= j < ids.len() implies ids[j] != stem_id by {
                    if j < front.len() {
                        assert(front[j] == ids[j]);
                    }
                }
            },
        }
    }
}

impl StemMap {
    /// A map without any stem.
    pub fn new() -> (map: Self)
        ensures
            map@.len() == 0,
    {
        let map = StemMap { ids: Vec::new() };
        assert(map@ =~= Seq::empty());
        map
    }

    /// Number of stems in the map.
    pub fn len(&self) -> (n: usize)
        ensures
            n == self@.len(),
    {
        self.ids.len()
    }

    /// Forgets every stem.
    pub fn clear(&mut self)
        ensures
            final(self)@.len() == 0,
    {
        self.ids.clear();
    }

    /// The slot of the stem that goes by `stem_id`, if it is loaded.
    pub fn get(&self, stem_id: &str) -> (slot: Option<usize>)
        ensures
            match slot {
                Some(i) => slot_of(self@, stem_id@) == Some(i as int) && i < self@.len(),
                None => (slot_of(self@, stem_id@) is None),
            },
    {
        let key = stem_id.to_owned();
        let mut i: usize = self.ids.len();
        assert(self@.take(i as int) =~= self@);
        while i > 0
            invariant
                i <= self.ids.len(),
                key@ == stem_id@,
                slot_of(self@, stem_id@) == slot_of(self@.take(i as int), stem_id@),
            decreases i,
        {
            proof {
                let upto = self@.take(i as int);
                assert(upto.last() == self@[i - 1]);
                assert(upto.drop_last() =~= self@.take(i - 1));
            }
            if self.ids[i - 1] == key {
                return Some(i - 1);
            }
            i -= 1;
        }
        None
    }
}

/// The slots of an engine after the first `count` stems of a song went into
/// the first `count` slots, with their declared volume and mute flag, and
/// every other slot was emptied. Solo flags and meters stay.
pub open spec fn slots_loaded<T>(
    slots: Seq<SlotView<T>>,
    stems: Seq<CachedStemView<T>>,
    count: int,
) -> Seq<SlotView<T>> {
    Seq::new(
        slots.len(),
        |i: int|
            if i < count {
                SlotView {
                    buffer: Some(stems[i].samples),
                    volume: clamp_unit(stems[i].volume),
                    muted: stems[i].is_muted,
                    ..slots[i]
                }
            } else {
                SlotView { buffer: None, ..slots[i] }
            },
    )
}

/// The identifiers of the stems of a song, in order.
pub open spec fn stem_ids<T>(stems: Seq<CachedStemView<T>>) -> Seq<Seq<char>> {
    Seq::new(stems.len(), |i: int| stems[i].stem_id)
}

/// Puts a cached song on the engine and starts it: every slot is emptied, the
/// stems go into the first slots in order, each with its declared volume and
/// mute flag, the position goes back to zero and the engine plays. A song
/// with more stems than the engine has slots is refused, and the engine is
/// left as it was.
pub fn play_song<T>(engine: &mut MultiTrackEngine<T>, song: &CachedSong<T>) -> (outcome: Result<
    StemMap,
    AudioError,
>)
    requires
        old(engine).wf(),
    ensures
        final(engine).wf(),
        match outcome {
            Ok(map) => {
                &&& song@.stems.len() <= old(engine)@.slots.len()
                &&& map@ == stem_ids(song@.stems)
                &&& final(engine)@ == (EngineView {
                    slots: slots_loaded(old(engine)@.slots, song@.stems, song@.stems.len() as int),
                    state: PlaybackState::Playing,
                    position: 0,
                    ..old(engine)@
                })
            },
            Err(error) => {
                &&& error is NoSlot
                &&& song@.stems.len() > old(engine)@.slots.len()
                &&& final(engine)@ == old(engine)@
            },
        },
{
    if song.stems.len() > engine.max_stems() {
        return Err(AudioError::NoSlot);
    }
    let ghost before = engine@;
    let ghost stems = song@.stems;
    engine.clear_stems();
    assert(engine@.slots =~= slots_loaded(before.slots, stems, 0));
    let mut ids: Vec<String> = Vec::new();
    let mut i: usize = 0;
    while i < song.stems.len()
        invariant
            i <= song.stems.len(),
            song.stems.len() <= before.slots.len(),
            stems == song@.stems,
            engine.wf(),
            engine@ == before.with_slots(slots_loaded(before.slots, stems, i as int)).at(0),
            ids.len() == i,
            forall|j: int| 0 <= j < i ==> (#[trigger] ids[j])@ == stems[j].stem_id,
        decreases song.stems.len() - i,
    {
        let stem = &song.stems[i];
        let ghost start = engine@;
        assert(start.slots[i as int].buffer is None);
        assert forall|j: int| 0 <= j < i implies start.assigned(j) by {
            assert(start.slots[j].buffer is Some);
        }
        let slot = match engine.load_stem_from_samples(share_buffer(&stem.samples)) {
            Ok(slot) => slot,
            Err(_) => {
                assert(start.assigned(i as int));
                i
            },
        };
        proof {
            if slot < i {
                assert(start.assigned(slot as int));
            }
            if i < slot {
                assert(start.assigned(i as int));
            }
        }
        engine.set_stem_volume(slot, stem.volume);
        engine.set_stem_mute(slot, stem.is_muted);
        ids.push(stem.stem_id.clone());
        proof {
            assert(stems[i as int] == song.stems[i as int]@);
            assert(engine@.slots =~= slots_loaded(before.slots, stems, i + 1));
        }
        i += 1;
    }
    let played = engine.play();
    let map = StemMap { ids };
    assert(map@ =~= stem_ids(stems));
    Ok(map)
}

/// Sets the volume of the stem that goes by `stem_id`, limited to
/// `[0.0, 1.0]`, and hands back the limited value, which is the one to keep
/// as the stem's declared volume.
pub fn set_stem_volume<T>(
    engine: &mut MultiTrackEngine<T>,
    map: &StemMap,
    stem_id: &str,
    volume: u32,
) -> (outcome: Result<u32, AudioError>)
    requires
        old(engine).wf(),
    ensures
        final(engine).wf(),
        match outcome {
            Ok(stored) => {
                &&& slot_of(map@, stem_id@) is Some
                &&& stored == clamp_unit(volume)
                &&& final(engine)@ == old(engine)@.with_volume(slot_of(map@, stem_id@)->0, volume)
            },
            Err(error) => {
                &&& slot_of(map@, stem_id@) is None
                &&& error == AudioError::UnknownStem(error->UnknownStem_0)
                &&& error->UnknownStem_0@ == stem_id@
                &&& final(engine)@ == old(engine)@
            },
        },
{
    match map.get(stem_id) {
        None => Err(AudioError::UnknownStem(stem_id.to_owned())),
        Some(slot) => {
            engine.set_stem_volume(slot, volume);
            Ok(clamp_unit_bits(volume))
        },
    }
}

/// Flips the mute flag of the stem that goes by `stem_id`. The flag as it was
/// declared so far comes from the caller; the result is the new flag, which
/// is the one to keep as declared.
pub fn toggle_stem_mute<T>(
    engine: &mut MultiTrackEngine<T>,
    map: &StemMap,
    stem_id: &str,
    declared_muted: bool,
) -> (outcome: Result<bool, AudioError>)
    requires
        old(engine).wf(),
    ensures
        final(engine).wf(),
        match outcome {
            Ok(muted) => {
                &&& slot_of(map@, stem_id@) is Some
                &&& muted == !declared_muted
                &&& final(engine)@ == old(engine)@.with_mute(slot_of(map@, stem_id@)->0, muted)
            },
            Err(error) => {
                &&& slot_of(map@, stem_id@) is None
                &&& error == AudioError::UnknownStem(error->UnknownStem_0)
                &&& error->UnknownStem_0@ == stem_id@
                &&& final(engine)@ == old(engine)@
            },
        },
{
    match map.get(stem_id) {
        None => Err(AudioError::UnknownStem(stem_id.to_owned())),
        Some(slot) => {
            engine.set_stem_mute(slot, !declared_muted);
            Ok(!declared_muted)
        },
    }
}

/// Flips the solo flag of the stem that goes by `stem_id` and hands back
/// the new flag.
pub fn toggle_stem_solo<T>(engine: &mut MultiTrackEngine<T>, map: &StemMap, stem_id: &str) -> (outcome:
    Result<bool, AudioError>)
    requires
        old(engine).wf(),
    ensures
        final(engine).wf(),
        match outcome {
            Ok(soloed) => {
                let slot = slot_of(map@, stem_id@)->0;
                &&& slot_of(map@, stem_id@) is Some
                &&& soloed == !(slot < old(engine)@.slots.len() && old(engine)@.slots[slot].solo)
                &&& final(engine)@ == old(engine)@.with_solo(slot, soloed)
            },
            Err(error) => {
                &&& slot_of(map@, stem_id@) is None
                &&& error == AudioError::UnknownStem(error->UnknownStem_0)
                &&& error->UnknownStem_0@ == stem_id@
                &&& final(engine)@ == old(engine)@
            },
        },
{
    match map.get(stem_id) {
        None => Err(AudioError::UnknownStem(stem_id.to_owned())),
        Some(slot) => {
            let soloed = !engine.is_stem_soloed(slot);
            engine.set_stem_solo(slot, soloed);
            Ok(soloed)
        },
    }
}

/// Sets the master volume, limited to `[0.0, 1.0]`.
pub fn set_master_volume<T>(engine: &mut MultiTrackEngine<T>, volume: u32)
    requires
        old(engine).wf(),
    ensures
        final(engine).wf(),
        final(engine)@ == (EngineView { master_volume: clamp_unit(volume), ..old(engine)@ }),
{
    engine.set_master_volume(volume);
}

} // verus!
