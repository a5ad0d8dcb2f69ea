//! The realtime callback: one block of the mix.
//!
//! The callback fills a block with the sum of what the audible stems add at
//! the transport position, applies the master gain, meters every stem and
//! the whole, and moves the transport on. The arithmetic on samples comes
//! from three kernels that the caller supplies for its sample type: one that
//! applies a gain to a sample, one that adds two samples, and one that raises
//! a peak to the magnitude of a sample. What the block holds is stated in
//! terms of what those kernels return.

use crate::gain::{level_of, SILENCE_BITS};
use crate::mixer::{lemma_meters_are_not_heard, EngineView, MultiTrackEngine, SlotView};
use crate::types::PlaybackState;
use vstd::prelude::*;

verus! {

/// The function that a gain kernel computes: what it makes of a sample and a
/// gain.
pub open spec fn gain_function<T, A: Fn(T, u32) -> T>(amplify: A) -> spec_fn(T, u32) -> T {
    |sample: T, gain: u32| choose|result: T| call_ensures(amplify, (sample, gain), result)
}

/// The function that an adding kernel computes: what it makes of two samples.
pub open spec fn sum_function<T, S: Fn(T, T) -> T>(sum: S) -> spec_fn(T, T) -> T {
    |left: T, right: T| choose|result: T| call_ensures(sum, (left, right), result)
}

/// The function that a metering kernel computes: what it makes of a peak and
/// a sample.
pub open spec fn peak_function<T, L: Fn(u32, T) -> u32>(louder: L) -> spec_fn(u32, T) -> u32 {
    |peak: u32, sample: T| choose|result: u32| call_ensures(louder, (peak, sample), result)
}

/// The kernels take every argument, and what each returns depends on its
/// arguments alone.
pub open spec fn kernels_are_functions<
    T,
    A: Fn(T, u32) -> T,
    S: Fn(T, T) -> T,
    L: Fn(u32, T) -> u32,
>(amplify: A, sum: S, louder: L) -> bool {
    &&& forall|sample: T, gain: u32| call_requires(amplify, (sample, gain))
    &&& forall|sample: T, gain: u32, result: T|
        call_ensures(amplify, (sample, gain), result) ==> result == gain_function(amplify)(
            sample,
            gain,
        )
    &&& forall|left: T, right: T| call_requires(sum, (left, right))
    &&& forall|left: T, right: T, result: T|
        call_ensures(sum, (left, right), result) ==> result == sum_function(sum)(left, right)
    &&& forall|peak: u32, sample: T| call_requires(louder, (peak, sample))
    &&& forall|peak: u32, sample: T, result: u32|
        call_ensures(louder, (peak, sample), result) ==> result == peak_function(louder)(
            peak,
            sample,
        )
}

/// The samples of its buffer that a slot adds to a block; none for a slot
/// that adds nothing.
pub open spec fn window<T>(engine: EngineView<T>, slot: int, block_len: nat) -> Seq<T> {
    match engine.contribution(slot, block_len) {
        Some(part) => part.samples,
        None => Seq::empty(),
    }
}

/// The gain at which a slot adds its samples.
pub open spec fn gain_of<T>(engine: EngineView<T>, slot: int, block_len: nat) -> u32 {
    match engine.contribution(slot, block_len) {
        Some(part) => part.gain,
        None => SILENCE_BITS,
    }
}

/// What a slot adds to a block, sample by sample: its window with its gain
/// applied. Empty for a slot that adds nothing.
pub open spec fn shares<T>(
    engine: EngineView<T>,
    amplify: spec_fn(T, u32) -> T,
    slot: int,
    block_len: nat,
) -> Seq<T> {
    Seq::new(
        window(engine, slot, block_len).len(),
        |k: int| amplify(window(engine, slot, block_len)[k], gain_of(engine, slot, block_len)),
    )
}

/// The mix at place `k` of the block after the first `upto` slots were added
/// in order onto silence.
pub open spec fn mix_at<T>(
    engine: EngineView<T>,
    amplify: spec_fn(T, u32) -> T,
    sum: spec_fn(T, T) -> T,
    silence: T,
    block_len: nat,
    k: int,
    upto: int,
) -> T
    decreases upto,
{
    if upto <= 0 {
        silence
    } else {
        let below = mix_at(engine, amplify, sum, silence, block_len, k, upto - 1);
        let share = shares(engine, amplify, upto - 1, block_len);
        if 0 <= k < share.len() {
            sum(below, share[k])
        } else {
            below
        }
    }
}

/// The block that a playing engine puts out: at every place the mix of all
/// slots with the master gain applied.
pub open spec fn mixed_block<T>(
    engine: EngineView<T>,
    amplify: spec_fn(T, u32) -> T,
    sum: spec_fn(T, T) -> T,
    silence: T,
    block_len: nat,
) -> Seq<T> {
    Seq::new(
        block_len,
        |k: int|
            amplify(
                mix_at(engine, amplify, sum, silence, block_len, k, engine.slots.len() as int),
                engine.master_volume,
            ),
    )
}

/// The block that comes out: the mix while the engine plays, else silence.
pub open spec fn block_of<T>(
    engine: EngineView<T>,
    amplify: spec_fn(T, u32) -> T,
    sum: spec_fn(T, T) -> T,
    silence: T,
    block_len: nat,
) -> Seq<T> {
    if engine.state == PlaybackState::Playing {
        mixed_block(engine, amplify, sum, silence, block_len)
    } else {
        Seq::new(block_len, |k: int| silence)
    }
}

/// The peak of a run of samples: silence raised by each sample in turn.
pub open spec fn peak_of<T>(louder: spec_fn(u32, T) -> u32, samples: Seq<T>) -> u32
    decreases samples.len(),
{
    if samples.len() == 0 {
        SILENCE_BITS
    } else {
        louder(peak_of(louder, samples.drop_last()), samples.last())
    }
}

/// The engine after a block: every meter shows the peak of what its slot
/// added to this block, the master meter the peak of the block, and the
/// position has moved on as `advanced` says. Gains, flags, buffers and
/// the transport state are as they were.
pub open spec fn after_block<T>(
    engine: EngineView<T>,
    amplify: spec_fn(T, u32) -> T,
    sum: spec_fn(T, T) -> T,
    louder: spec_fn(u32, T) -> u32,
    silence: T,
    block_len: nat,
) -> EngineView<T> {
    EngineView {
        slots: Seq::new(
            engine.slots.len(),
            |i: int|
                SlotView {
                    level: level_of(peak_of(louder, shares(engine, amplify, i, block_len))),
                    ..engine.slots[i]
                },
        ),
        master_level: if engine.state == PlaybackState::Playing {
            level_of(peak_of(louder, mixed_block(engine, amplify, sum, silence, block_len)))
        } else {
            SILENCE_BITS
        },
        position: engine.advanced(block_len),
        ..engine
    }
}

/// Every value that `block_of` and `after_block` name as made by a kernel is
/// one that the kernel returned for the arguments named: the gain kernel for
/// every sample that a slot adds and for every place of the mix, the adding
/// kernel for every sample added onto the mix, and the metering kernel for
/// every step of every peak.
pub open spec fn kernels_ran<T, A: Fn(T, u32) -> T, S: Fn(T, T) -> T, L: Fn(u32, T) -> u32>(
    engine: EngineView<T>,
    amplify: A,
    sum: S,
    louder: L,
    silence: T,
    block_len: nat,
) -> bool {
    let slots = engine.slots.len() as int;
    let amp = gain_function(amplify);
    let plus = sum_function(sum);
    let loud = peak_function(louder);
    let mixed = mixed_block(engine, amp, plus, silence, block_len);
    &&& forall|i: int, k: int|
        0 <= i < slots && 0 <= k < shares(engine, amp, i, block_len).len() ==> call_ensures(
            amplify,
            (window(engine, i, block_len)[k], gain_of(engine, i, block_len)),
            #[trigger] shares(engine, amp, i, block_len)[k],
        )
    &&& forall|i: int, k: int|
        0 <= i < slots && 0 <= k < shares(engine, amp, i, block_len).len() ==> call_ensures(
            sum,
            (mix_at(engine, amp, plus, silence, block_len, k, i), shares(engine, amp, i, block_len)[k]),
            #[trigger] mix_at(engine, amp, plus, silence, block_len, k, i + 1),
        )
    &&& forall|i: int, n: int|
        0 <= i < slots && 0 < n <= shares(engine, amp, i, block_len).len() ==> call_ensures(
            louder,
            (
                peak_of(loud, shares(engine, amp, i, block_len).take(n - 1)),
                shares(engine, amp, i, block_len)[n - 1],
            ),
            #[trigger] peak_of(loud, shares(engine, amp, i, block_len).take(n)),
        )
    &&& engine.state == PlaybackState::Playing ==> forall|k: int|
        0 <= k < block_len ==> call_ensures(
            amplify,
            (mix_at(engine, amp, plus, silence, block_len, k, slots), engine.master_volume),
            #[trigger] mixed[k],
        )
    &&& engine.state == PlaybackState::Playing ==> forall|n: int|
        0 < n <= block_len ==> call_ensures(
            louder,
            (peak_of(loud, mixed.take(n - 1)), mixed[n - 1]),
            #[trigger] peak_of(loud, mixed.take(n)),
        )
}

impl<T: Copy> MultiTrackEngine<T> {
    /// Renders one block into `output`.
    ///
    /// While the engine does not play, the block is silence and the position
    /// stays. While it plays, the block starts as silence; slot by slot, each
    /// audible stem adds its samples from the position on, at its gain; the
    /// master gain is applied to the sum; and the position moves on by the
    /// length of the block, unless it is past the end of every stem already.
    /// Either way the meters are set anew for this block.
    pub fn audio_callback<A: Fn(T, u32) -> T, S: Fn(T, T) -> T, L: Fn(u32, T) -> u32>(
        &mut self,
        output: &mut [T],
        silence: T,
        amplify: A,
        sum: S,
        louder: L,
    )
        requires
            old(self).wf(),
            kernels_are_functions(amplify, sum, louder),
        ensures
            final(self).wf(),
            final(output)@ == block_of(
                old(self)@,
                gain_function(amplify),
                sum_function(sum),
                silence,
                old(output)@.len(),
            ),
            final(self)@ == after_block(
                old(self)@,
                gain_function(amplify),
                sum_function(sum),
                peak_function(louder),
                silence,
                old(output)@.len(),
            ),
            kernels_ran(old(self)@, amplify, sum, louder, silence, old(output)@.len()),
    {
        let ghost before = self@;
        let ghost amp = gain_function(amplify);
        let ghost plus = sum_function(sum);
        let ghost loud = peak_function(louder);
        let block_len = output.len();
        let slots = self.max_stems();
        let playing = match self.state() {
            PlaybackState::Playing => true,
            _ => false,
        };
        let mut k: usize = 0;
        while k < block_len
            invariant
                k <= block_len,
                output@.len() == block_len,
                forall|j: int| 0 <= j < k ==> output@[j] == silence,
            decreases block_len - k,
        {
            output[k] = silence;
            k += 1;
        }
        let mut slot: usize = 0;
        while slot < slots
            invariant
                slot <= slots,
                slots == before.slots.len(),
                self.wf(),
                self@.differs_in_levels_only(before),
                self@.master_level == before.master_level,
                kernels_are_functions(amplify, sum, louder),
                amp == gain_function(amplify),
                plus == sum_function(sum),
                loud == peak_function(louder),
                output@.len() == block_len,
                forall|i: int| slot <= i < slots ==> self@.slots[i] == before.slots[i],
                forall|j: int|
                    0 <= j < block_len ==> output@[j] == mix_at(
                        before,
                        amp,
                        plus,
                        silence,
                        block_len as nat,
                        j,
                        slot as int,
                    ),
                forall|i: int|
                    0 <= i < slot ==> (#[trigger] self@.slots[i]).level == level_of(
                        peak_of(loud, shares(before, amp, i, block_len as nat)),
                    ),
                forall|i: int, j: int|
                    0 <= i < slot && 0 <= j < shares(before, amp, i, block_len as nat).len()
                        ==> call_ensures(
                        amplify,
                        (
                            window(before, i, block_len as nat)[j],
                            gain_of(before, i, block_len as nat),
                        ),
                        #[trigger] shares(before, amp, i, block_len as nat)[j],
                    ),
                forall|i: int, j: int|
                    0 <= i < slot && 0 <= j < shares(before, amp, i, block_len as nat).len()
                        ==> call_ensures(
                        sum,
                        (
                            mix_at(before, amp, plus, silence, block_len as nat, j, i),
                            shares(before, amp, i, block_len as nat)[j],
                        ),
                        #[trigger] mix_at(before, amp, plus, silence, block_len as nat, j, i + 1),
                    ),
                forall|i: int, n: int|
                    0 <= i < slot && 0 < n <= shares(before, amp, i, block_len as nat).len()
                        ==> call_ensures(
                        louder,
                        (
                            peak_of(
                                loud,
                                shares(before, amp, i, block_len as nat).take(n - 1),
                            ),
                            shares(before, amp, i, block_len as nat)[n - 1],
                        ),
                        #[trigger] peak_of(
                            loud,
                            shares(before, amp, i, block_len as nat).take(n),
                        ),
                    ),
            decreases slots - slot,
        {
            let mut peak: u32 = SILENCE_BITS;
            let ghost share = shares(before, amp, slot as int, block_len as nat);
            let ghost entering = output@;
            let ghost engine = self@;
            proof {
                lemma_meters_are_not_heard(engine, before, block_len as nat);
            }
            match self.contribution(slot, block_len) {
                None => {
                    assert(share.len() == 0);
                },
                Some(part) => {
                    let count = part.samples.len();
                    let ghost start = entering;
                    let mut k: usize = 0;
                    while k < count
                        invariant
                            k <= count <= block_len,
                            count == part.samples@.len(),
                            count == share.len(),
                            before.contribution(slot as int, block_len as nat) == Some(part@),
                            share == shares(before, amp, slot as int, block_len as nat),
                            kernels_are_functions(amplify, sum, louder),
                            amp == gain_function(amplify),
                            plus == sum_function(sum),
                            loud == peak_function(louder),
                            output@.len() == block_len,
                            start.len() == block_len,
                            forall|j: int| k <= j < block_len ==> output@[j] == start[j],
                            forall|j: int|
                                0 <= j < k ==> output@[j] == plus(start[j], share[j]),
                            peak == peak_of(loud, share.take(k as int)),
                            forall|j: int|
                                0 <= j < k ==> call_ensures(
                                    amplify,
                                    (part.samples@[j], part.gain),
                                    #[trigger] share[j],
                                ),
                            forall|j: int|
                                0 <= j < k ==> call_ensures(
                                    sum,
                                    (start[j], share[j]),
                                    #[trigger] output@[j],
                                ),
                            forall|n: int|
                                0 < n <= k ==> call_ensures(
                                    louder,
                                    (peak_of(loud, share.take(n - 1)), share[n - 1]),
                                    #[trigger] peak_of(loud, share.take(n)),
                                ),
                        decreases count - k,
                    {
                        let value = amplify(part.samples[k], part.gain);
                        assert(value == share[k as int]);
                        let ghost earlier = output@;
                        output[k] = sum(output[k], value);
                        proof {
                            let upto = share.take(k + 1);
                            assert(upto.drop_last() =~= share.take(k as int));
                            assert(upto.last() == value);
                            assert forall|j: int| 0 <= j < k + 1 implies call_ensures(
                                sum,
                                (start[j], share[j]),
                                #[trigger] output@[j],
                            ) by {
                                if j < k {
                                    assert(output@[j] == earlier[j]);
                                }
                            }
                        }
                        peak = louder(peak, value);
                        k += 1;
                    }
                    assert(share.take(count as int) =~= share);
                },
            }
            assert forall|j: int| 0 <= j < block_len implies output@[j] == mix_at(
                before,
                amp,
                plus,
                silence,
                block_len as nat,
                j,
                slot + 1,
            ) by {
                let below = mix_at(before, amp, plus, silence, block_len as nat, j, slot as int);
                assert(entering[j] == below);
                assert(mix_at(before, amp, plus, silence, block_len as nat, j, slot + 1) == if 0
                    <= j < share.len() {
                    plus(below, share[j])
                } else {
                    below
                });
            }
            assert forall|j: int| 0 <= j < share.len() implies call_ensures(
                sum,
                (mix_at(before, amp, plus, silence, block_len as nat, j, slot as int), share[j]),
                #[trigger] mix_at(before, amp, plus, silence, block_len as nat, j, slot + 1),
            ) by {
                assert(entering[j] == mix_at(
                    before,
                    amp,
                    plus,
                    silence,
                    block_len as nat,
                    j,
                    slot as int,
                ));
                assert(output@[j] == mix_at(
                    before,
                    amp,
                    plus,
                    silence,
                    block_len as nat,
                    j,
                    slot + 1,
                ));
            }
            self.set_stem_level(slot, peak);
            assert(self@.slots[slot as int].level == level_of(peak));
            assert forall|i: int| 0 <= i < slot implies (#[trigger] self@.slots[i]).level == level_of(
                peak_of(loud, shares(before, amp, i, block_len as nat)),
            ) by {
                assert(self@.slots[i] == engine.slots[i]);
            }
            slot += 1;
        }
        let master = self.master_volume();
        let mut master_peak: u32 = SILENCE_BITS;
        if playing {
            let ghost mixed = mixed_block(before, amp, plus, silence, block_len as nat);
            let ghost start = output@;
            let mut k: usize = 0;
            while k < block_len
                invariant
                    k <= block_len,
                    kernels_are_functions(amplify, sum, louder),
                    amp == gain_function(amplify),
                    plus == sum_function(sum),
                    loud == peak_function(louder),
                    output@.len() == block_len,
                    start.len() == block_len,
                    mixed == mixed_block(before, amp, plus, silence, block_len as nat),
                    master == before.master_volume,
                    forall|j: int|
                        0 <= j < block_len ==> start[j] == mix_at(
                            before,
                            amp,
                            plus,
                            silence,
                            block_len as nat,
                            j,
                            before.slots.len() as int,
                        ),
                    forall|j: int| k <= j < block_len ==> output@[j] == start[j],
                    forall|j: int| 0 <= j < k ==> output@[j] == mixed[j],
                    master_peak == peak_of(loud, mixed.take(k as int)),
                    forall|j: int|
                        0 <= j < k ==> call_ensures(
                            amplify,
                            (start[j], before.master_volume),
                            #[trigger] mixed[j],
                        ),
                    forall|n: int|
                        0 < n <= k ==> call_ensures(
                            louder,
                            (peak_of(loud, mixed.take(n - 1)), mixed[n - 1]),
                            #[trigger] peak_of(loud, mixed.take(n)),
                        ),
                decreases block_len - k,
            {
                assert(output@[k as int] == start[k as int]);
                let value = amplify(output[k], master);
                output[k] = value;
                proof {
                    let upto = mixed.take(k + 1);
                    assert(upto.drop_last() =~= mixed.take(k as int));
                    assert(mixed[k as int] == value);
                    assert(upto.last() == value);
                }
                master_peak = louder(master_peak, value);
                k += 1;
            }
            assert(mixed.take(block_len as int) =~= mixed);
            assert(output@ =~= mixed);
        } else {
            proof {
                lemma_idle_mix_is_silence(
                    before,
                    amp,
                    plus,
                    silence,
                    block_len as nat,
                    slots as int,
                );
                assert(output@ =~= Seq::new(block_len as nat, |k: int| silence));
            }
        }
        proof {
            lemma_meters_are_not_heard(self@, before, block_len as nat);
        }
        self.end_block(block_len);
        self.set_master_level(master_peak);
        assert(self@.slots =~= after_block(
            before,
            amp,
            plus,
            loud,
            silence,
            block_len as nat,
        ).slots);
    }
}

/// While the engine does not play, no slot adds anything: the mix is silence
/// at every place.
pub proof fn lemma_idle_mix_is_silence<T>(
    engine: EngineView<T>,
    amplify: spec_fn(T, u32) -> T,
    sum: spec_fn(T, T) -> T,
    silence: T,
    block_len: nat,
    upto: int,
)
    requires
        engine.state != PlaybackState::Playing,
    ensures
        forall|k: int| #[trigger]
            mix_at(engine, amplify, sum, silence, block_len, k, upto) == silence,
    decreases upto,
{
    if upto > 0 {
        lemma_idle_mix_is_silence(engine, amplify, sum, silence, block_len, upto - 1);
        assert forall|k: int| #[trigger]
            mix_at(engine, amplify, sum, silence, block_len, k, upto) == silence by {
            assert(shares(engine, amplify, upto - 1, block_len).len() == 0);
            assert(mix_at(engine, amplify, sum, silence, block_len, k, upto - 1) == silence);
        }
    }
}

/// Solo takes precedence over mute in what is heard: while any solo flag is
/// set, two engines that differ in their mute flags alone put out the same
/// block and show the same meters.
pub proof fn lemma_solo_output_ignores_mutes<T>(
    a: EngineView<T>,
    b: EngineView<T>,
    amplify: spec_fn(T, u32) -> T,
    sum: spec_fn(T, T) -> T,
    louder: spec_fn(u32, T) -> u32,
    silence: T,
    block_len: nat,
)
    requires
        a.any_solo(),
        a.differs_in_mutes_only(b),
    ensures
        block_of(a, amplify, sum, silence, block_len) == block_of(
            b,
            amplify,
            sum,
            silence,
            block_len,
        ),
        after_block(a, amplify, sum, louder, silence, block_len).master_level == after_block(
            b,
            amplify,
            sum,
            louder,
            silence,
            block_len,
        ).master_level,
        forall|i: int|
            0 <= i < a.slots.len() ==> (#[trigger] after_block(
                a,
                amplify,
                sum,
                louder,
                silence,
                block_len,
            ).slots[i]).level == after_block(b, amplify, sum, louder, silence, block_len).slots[i].level,
{
    crate::mixer::lemma_solo_dominance(a, b, block_len);
    assert forall|i: int| shares(a, amplify, i, block_len) == shares(b, amplify, i, block_len) by {
        assert(a.contribution(i, block_len) == b.contribution(i, block_len));
    }
    lemma_same_shares_same_mix(a, b, amplify, sum, silence, block_len, a.slots.len() as int);
    assert(mixed_block(a, amplify, sum, silence, block_len) =~= mixed_block(
        b,
        amplify,
        sum,
        silence,
        block_len,
    ));
}

/// Two engines whose slots add the same samples mix to the same sum.
proof fn lemma_same_shares_same_mix<T>(
    a: EngineView<T>,
    b: EngineView<T>,
    amplify: spec_fn(T, u32) -> T,
    sum: spec_fn(T, T) -> T,
    silence: T,
    block_len: nat,
    upto: int,
)
    requires
        forall|i: int| shares(a, amplify, i, block_len) == shares(b, amplify, i, block_len),
    ensures
        forall|k: int|
            mix_at(a, amplify, sum, silence, block_len, k, upto) == mix_at(
                b,
                amplify,
                sum,
                silence,
                block_len,
                k,
                upto,
            ),
    decreases upto,
{
    if upto > 0 {
        lemma_same_shares_same_mix(a, b, amplify, sum, silence, block_len, upto - 1);
        assert forall|k: int|
            mix_at(a, amplify, sum, silence, block_len, k, upto) == mix_at(
                b,
                amplify,
                sum,
                silence,
                block_len,
                k,
                upto,
            ) by {
            assert(shares(a, amplify, upto - 1, block_len) == shares(
                b,
                amplify,
                upto - 1,
                block_len,
            ));
            assert(mix_at(a, amplify, sum, silence, block_len, k, upto - 1) == mix_at(
                b,
                amplify,
                sum,
                silence,
                block_len,
                k,
                upto - 1,
            ));
        }
    }
}

/// A slot that adds nothing leaves the mix as it was: a muted slot while no
/// solo flag is set, a slot without solo flag while one is set, an empty slot.
pub proof fn lemma_silent_slot_adds_nothing<T>(
    engine: EngineView<T>,
    amplify: spec_fn(T, u32) -> T,
    sum: spec_fn(T, T) -> T,
    silence: T,
    block_len: nat,
    k: int,
    slot: int,
)
    requires
        0 <= slot,
        !engine.audible(slot),
    ensures
        mix_at(engine, amplify, sum, silence, block_len, k, slot + 1) == mix_at(
            engine,
            amplify,
            sum,
            silence,
            block_len,
            k,
            slot,
        ),
{
    assert(shares(engine, amplify, slot, block_len).len() == 0);
}

} // verus!
