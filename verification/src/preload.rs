//! Order in which the songs of a setlist are brought into the cache.
//!
//! The song being played comes first, then the two after it, then the one
//! before it, then everything else in setlist order.

use crate::cache::SongCache;
use vstd::prelude::*;

verus! {

/// How urgently a song is wanted.
#[derive(Debug, Clone, Copy, PartialEq, Eq, Structural)]
pub enum PreloadPriority {
    /// The song at the current index.
    Current,
    /// One of the two songs after the current one.
    Next,
    /// The song before the current one.
    Previous,
    /// Any other song of the setlist.
    Background,
}

impl PreloadPriority {
    /// The tag that progress reports carry for this priority.
    pub open spec fn tag(self) -> Seq<char> {
        match self {
            PreloadPriority::Current => "CURRENT"@,
            PreloadPriority::Next => "NEXT"@,
            PreloadPriority::Previous => "PREVIOUS"@,
            PreloadPriority::Background => "BACKGROUND"@,
        }
    }

    /// The tag that progress reports carry for this priority.
    pub fn label(&self) -> (text: &'static str)
        ensures
            text@ == self.tag(),
    {
        match self {
            PreloadPriority::Current => "CURRENT",
            PreloadPriority::Next => "NEXT",
            PreloadPriority::Previous => "PREVIOUS",
            PreloadPriority::Background => "BACKGROUND",
        }
    }
}

/// One entry of a plan: a song, by its index in the setlist, and its priority.
#[derive(Debug, Clone, Copy, PartialEq, Eq, Structural)]
pub struct PreloadItem {
    pub index: usize,
    pub priority: PreloadPriority,
}

/// The index is the current one, one of the two after it, or the one before it.
pub open spec fn near(index: int, current: int) -> bool {
    current - 1 <= index <= current + 2
}

/// The songs that are loaded ahead of the rest, in order: the current one,
/// the two after it, the one before it; each only where the setlist has it.
pub open spec fn urgent_part(total: int, current: int) -> Seq<PreloadItem> {
    let now = if current < total {
        seq![PreloadItem { index: current as usize, priority: PreloadPriority::Current }]
    } else {
        Seq::empty()
    };
    let first = if current + 1 < total {
        seq![PreloadItem { index: (current + 1) as usize, priority: PreloadPriority::Next }]
    } else {
        Seq::empty()
    };
    let second = if current + 2 < total {
        seq![PreloadItem { index: (current + 2) as usize, priority: PreloadPriority::Next }]
    } else {
        Seq::empty()
    };
    let before = if 0 < current && current - 1 < total {
        seq![PreloadItem { index: (current - 1) as usize, priority: PreloadPriority::Previous }]
    } else {
        Seq::empty()
    };
    now + first + second + before
}

/// The songs below index `upto` that are not near the current one, in
/// setlist order.
pub open spec fn background_part(upto: int, current: int) -> Seq<PreloadItem>
    decreases upto,
{
    if upto <= 0 {
        Seq::empty()
    } else if near(upto - 1, current) {
        background_part(upto - 1, current)
    } else {
        background_part(upto - 1, current).push(
            PreloadItem { index: (upto - 1) as usize, priority: PreloadPriority::Background },
        )
    }
}

/// The whole plan for a setlist of `total` songs played at index `current`.
pub open spec fn plan_of(total: int, current: int) -> Seq<PreloadItem> {
    urgent_part(total, current) + background_part(total, current)
}

/// The index that a plan is built around: the one given, or zero where
/// none is given.
pub open spec fn current_or_first(current_song_index: Option<usize>) -> int {
    match current_song_index {
        Some(k) => k as int,
        None => 0,
    }
}

/// The plan for a setlist of `total` songs while the song at
/// `current_song_index` plays; without an index the plan is that for the
/// first song.
pub fn preload_plan(total: usize, current_song_index: Option<usize>) -> (plan: Vec<PreloadItem>)
    ensures
        plan@ == plan_of(total as int, current_or_first(current_song_index)),
        plan@.len() == total,
{
    let current: usize = match current_song_index {
        Some(k) => k,
        None => 0,
    };
    let mut plan: Vec<PreloadItem> = Vec::new();
    if current < total {
        plan.push(PreloadItem { index: current, priority: PreloadPriority::Current });
    }
    let mut offset: usize = 1;
    while offset <= 2
        invariant
            1 <= offset <= 3,
            offset == 1 ==> plan@ == if current < total {
                seq![PreloadItem { index: current, priority: PreloadPriority::Current }]
            } else {
                Seq::empty()
            },
            offset == 2 ==> plan@ == (if current < total {
                seq![PreloadItem { index: current, priority: PreloadPriority::Current }]
            } else {
                Seq::empty()
            }) + (if current + 1 < total {
                seq![PreloadItem { index: (current + 1) as usize, priority: PreloadPriority::Next }]
            } else {
                Seq::empty()
            }),
            offset == 3 ==> plan@ == (if current < total {
                seq![PreloadItem { index: current, priority: PreloadPriority::Current }]
            } else {
                Seq::empty()
            }) + (if current + 1 < total {
                seq![PreloadItem { index: (current + 1) as usize, priority: PreloadPriority::Next }]
            } else {
                Seq::empty()
            }) + (if current + 2 < total {
                seq![PreloadItem { index: (current + 2) as usize, priority: PreloadPriority::Next }]
            } else {
                Seq::empty()
            }),
        decreases 3 - offset,
    {
        let ghost so_far = plan@;
        match current.checked_add(offset) {
            Some(next) => {
                if next < total {
                    plan.push(PreloadItem { index: next, priority: PreloadPriority::Next });
                    assert(plan@ =~= so_far + seq![
                        PreloadItem { index: next, priority: PreloadPriority::Next },
                    ]);
                } else {
                    assert(plan@ =~= so_far + Seq::<PreloadItem>::empty());
                }
            },
            None => {
                assert(plan@ =~= so_far + Seq::<PreloadItem>::empty());
            },
        }
        offset += 1;
    }
    if current > 0 && current - 1 < total {
        let ghost so_far = plan@;
        plan.push(PreloadItem { index: current - 1, priority: PreloadPriority::Previous });
        assert(plan@ =~= so_far + seq![
            PreloadItem { index: (current - 1) as usize, priority: PreloadPriority::Previous },
        ]);
    } else {
        assert(plan@ =~= plan@ + Seq::<PreloadItem>::empty());
    }
    assert(plan@ == urgent_part(total as int, current as int));
    let mut index: usize = 0;
    while index < total
        invariant
            index <= total,
            plan@ == urgent_part(total as int, current as int) + background_part(
                index as int,
                current as int,
            ),
        decreases total - index,
    {
        let ghost so_far = plan@;
        let is_near = index == current || (index > current && index - current <= 2) || (current > 0
            && index == current - 1);
        assert(is_near == near(index as int, current as int));
        if !is_near {
            plan.push(PreloadItem { index, priority: PreloadPriority::Background });
            assert(plan@ =~= urgent_part(total as int, current as int) + background_part(
                index as int,
                current as int,
            ).push(PreloadItem { index, priority: PreloadPriority::Background }));
        }
        index += 1;
    }
    proof {
        lemma_plan_is_a_permutation(total as int, current as int);
    }
    plan
}

/// Number of indices below `upto` that are near `current`.
pub open spec fn near_count(upto: int, current: int) -> int {
    let low = if current > 0 {
        current - 1
    } else {
        0
    };
    if upto <= low {
        0
    } else if upto <= current + 3 {
        upto - low
    } else {
        current + 3 - low
    }
}

/// What the background part holds: the indices below `upto` that are not near
/// the current one, each once and in rising order, all tagged as background.
pub proof fn lemma_background_part(upto: int, current: int)
    requires
        0 <= upto <= usize::MAX,
        0 <= current,
    ensures
        background_part(upto, current).len() + near_count(upto, current) == upto,
        forall|p: int|
            0 <= p < background_part(upto, current).len() ==> {
                let item = #[trigger] background_part(upto, current)[p];
                &&& 0 <= item.index < upto
                &&& !near(item.index as int, current)
                &&& item.priority == PreloadPriority::Background
            },
        forall|p: int, q: int|
            0 <= p < q < background_part(upto, current).len() ==> (#[trigger] background_part(
                upto,
                current,
            )[p]).index < (#[trigger] background_part(upto, current)[q]).index,
        forall|i: int|
            0 <= i < upto && !near(i, current) ==> exists|p: int|
                0 <= p < background_part(upto, current).len() && (#[trigger] background_part(
                    upto,
                    current,
                )[p]).index == i,
    decreases upto,
{
    if upto > 0 {
        lemma_background_part(upto - 1, current);
        let shorter = background_part(upto - 1, current);
        let whole = background_part(upto, current);
        assert forall|p: int| 0 <= p < shorter.len() implies #[trigger] whole[p] == shorter[p] by {}
        assert forall|p: int| 0 <= p < whole.len() implies {
            let item = #[trigger] whole[p];
            &&& 0 <= item.index < upto
            &&& !near(item.index as int, current)
            &&& item.priority == PreloadPriority::Background
        } by {
            if p < shorter.len() {
                assert(whole[p] == shorter[p]);
            }
        }
        assert forall|p: int, q: int| 0 <= p < q < whole.len() implies (#[trigger] whole[p]).index < (
        #[trigger] whole[q]).index by {
            assert(whole[p] == shorter[p]);
            if q < shorter.len() {
                assert(whole[q] == shorter[q]);
            }
        }
        assert forall|i: int| 0 <= i < upto && !near(i, current) implies exists|p: int|
            0 <= p < whole.len() && (#[trigger] whole[p]).index == i by {
            if i == upto - 1 {
                assert(whole[whole.len() - 1].index == i);
            } else {
                let p = choose|p: int| 0 <= p < shorter.len() && (#[trigger] shorter[p]).index == i;
                assert(whole[p] == shorter[p]);
            }
        }
    }
}

/// A plan names every song of the setlist exactly once: it is as long as the
/// setlist, every entry names a song of it, and no two entries name the same.
pub proof fn lemma_plan_is_a_permutation(total: int, current: int)
    requires
        0 <= total <= usize::MAX,
        0 <= current <= usize::MAX,
    ensures
        plan_of(total, current).len() == total,
        forall|p: int|
            0 <= p < plan_of(total, current).len() ==> (#[trigger] plan_of(total, current)[p]).index
                < total,
        forall|p: int, q: int|
            0 <= p < q < plan_of(total, current).len() ==> (#[trigger] plan_of(
                total,
                current,
            )[p]).index != (#[trigger] plan_of(total, current)[q]).index,
{
    lemma_background_part(total, current);
    let urgent = urgent_part(total, current);
    let rest = background_part(total, current);
    let plan = plan_of(total, current);
    assert(urgent.len() == near_count(total, current));
    assert forall|p: int| 0 <= p < urgent.len() implies near(
        (#[trigger] urgent[p]).index as int,
        current,
    ) && urgent[p].index < total by {}
    assert forall|p: int, q: int| 0 <= p < q < urgent.len() implies (#[trigger] urgent[p]).index != (
    #[trigger] urgent[q]).index by {}
    assert forall|p: int, q: int| 0 <= p < q < plan.len() implies (#[trigger] plan[p]).index != (
    #[trigger] plan[q]).index by {
        if q < urgent.len() {
            assert(plan[p] == urgent[p] && plan[q] == urgent[q]);
        } else if p < urgent.len() {
            assert(plan[p] == urgent[p]);
            assert(plan[q] == rest[q - urgent.len()]);
        } else {
            assert(plan[p] == rest[p - urgent.len()]);
            assert(plan[q] == rest[q - urgent.len()]);
        }
    }
    assert forall|p: int| 0 <= p < plan.len() implies (#[trigger] plan[p]).index < total by {
        if p < urgent.len() {
            assert(plan[p] == urgent[p]);
        } else {
            assert(plan[p] == rest[p - urgent.len()]);
        }
    }
}

/// The plan starts with the current song where the setlist has one at that
/// index, and the songs near it come before every other song.
pub proof fn lemma_plan_order(total: int, current: int)
    requires
        0 <= total <= usize::MAX,
        0 <= current <= usize::MAX,
    ensures
        current < total ==> plan_of(total, current)[0] == (PreloadItem {
            index: current as usize,
            priority: PreloadPriority::Current,
        }),
        forall|p: int, q: int|
            0 <= p < plan_of(total, current).len() && 0 <= q < plan_of(total, current).len() && (
            #[trigger] plan_of(total, current)[p]).priority != PreloadPriority::Background && (
            #[trigger] plan_of(total, current)[q]).priority == PreloadPriority::Background ==> p
                < q,
{
    lemma_background_part(total, current);
    let urgent = urgent_part(total, current);
    let rest = background_part(total, current);
    let plan = plan_of(total, current);
    assert forall|p: int| 0 <= p < urgent.len() implies (#[trigger] urgent[p]).priority
        != PreloadPriority::Background by {}
    assert forall|p: int, q: int|
        0 <= p < plan.len() && 0 <= q < plan.len() && (#[trigger] plan[p]).priority
            != PreloadPriority::Background && (#[trigger] plan[q]).priority
            == PreloadPriority::Background implies p < q by {
        if p >= urgent.len() {
            assert(plan[p] == rest[p - urgent.len()]);
        }
        if q < urgent.len() {
            assert(plan[q] == urgent[q]);
        }
    }
}

/// One stop of a preload run: the song to bring in and what to report of it.
pub struct PreloadVisit {
    /// Index of the song in the setlist.
    pub song_index: usize,
    /// Identifier of the song.
    pub song_id: String,
    pub priority: PreloadPriority,
    /// Place of this stop in the run, counted from one.
    pub ordinal: usize,
    /// Number of stops in the whole run.
    pub total: usize,
    /// Place of the song in the setlist, counted from one.
    pub position: usize,
    /// The song is resident already, so there is nothing to load.
    pub already_cached: bool,
}

/// A walk through a setlist in plan order. The walk never stops early: what
/// became of one song has no bearing on the next.
pub struct PreloadRun {
    song_ids: Vec<String>,
    plan: Vec<PreloadItem>,
    done: usize,
}

impl PreloadRun {
    /// The run has as many stops as its setlist has songs, each stop names a
    /// song of the setlist, and the run has not gone past its end.
    pub closed spec fn wf(&self) -> bool {
        &&& self.plan@.len() == self.song_ids@.len()
        &&& self.done <= self.plan@.len()
        &&& forall|p: int| 0 <= p < self.plan@.len() ==> (#[trigger] self.plan@[p]).index
            < self.song_ids@.len()
    }

    /// Identifiers of the songs of the setlist, in setlist order.
    pub closed spec fn songs(&self) -> Seq<Seq<char>> {
        Seq::new(self.song_ids@.len(), |i: int| self.song_ids@[i]@)
    }

    /// The stops of the run, in order.
    pub closed spec fn plan(&self) -> Seq<PreloadItem> {
        self.plan@
    }

    /// Number of stops made so far.
    pub closed spec fn visited(&self) -> nat {
        self.done as nat
    }

    /// A run over the songs of a setlist, planned around the song at
    /// `current_song_index`.
    pub fn new(song_ids: Vec<String>, current_song_index: Option<usize>) -> (run: Self)
        ensures
            run.wf(),
            run.songs() == Seq::new(song_ids@.len(), |i: int| song_ids@[i]@),
            run.plan() == plan_of(song_ids@.len() as int, current_or_first(current_song_index)),
            run.visited() == 0,
    {
        let plan = preload_plan(song_ids.len(), current_song_index);
        proof {
            lemma_plan_is_a_permutation(
                song_ids@.len() as int,
                current_or_first(current_song_index),
            );
        }
        PreloadRun { song_ids, plan, done: 0 }
    }

    /// Number of stops of the whole run: one for every song of the setlist.
    pub fn len(&self) -> (n: usize)
        requires
            self.wf(),
        ensures
            n == self.plan().len(),
            n == self.songs().len(),
    {
        self.plan.len()
    }

    /// The next stop of the run, or `None` once every song was visited. The
    /// stop says whether the song is resident in `cache` already.
    pub fn next_visit<T>(&mut self, cache: &SongCache<T>) -> (visit: Option<PreloadVisit>)
        requires
            old(self).wf(),
            cache.wf(),
        ensures
            final(self).wf(),
            final(self).songs() == old(self).songs(),
            final(self).plan() == old(self).plan(),
            match visit {
                Some(stop) => {
                    let item = old(self).plan()[old(self).visited() as int];
                    &&& old(self).visited() < old(self).plan().len()
                    &&& final(self).visited() == old(self).visited() + 1
                    &&& stop.song_index == item.index
                    &&& stop.priority == item.priority
                    &&& stop.song_id@ == old(self).songs()[item.index as int]
                    &&& stop.ordinal == old(self).visited() + 1
                    &&& stop.total == old(self).plan().len()
                    &&& stop.position == item.index + 1
                    &&& stop.already_cached == cache@.contains(stop.song_id@)
                },
                None => {
                    &&& old(self).visited() == old(self).plan().len()
                    &&& final(self).visited() == old(self).visited()
                },
            },
    {
        if self.done >= self.plan.len() {
            return None;
        }
        let item = self.plan[self.done];
        let song_id = self.song_ids[item.index].clone();
        let already_cached = cache.contains(song_id.as_str());
        self.done = self.done + 1;
        Some(
            PreloadVisit {
                song_index: item.index,
                song_id,
                priority: item.priority,
                ordinal: self.done,
                total: self.plan.len(),
                position: item.index + 1,
                already_cached,
            },
        )
    }
}

} // verus!
