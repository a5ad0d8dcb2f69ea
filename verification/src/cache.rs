//! Size-bounded song cache with least-recently-used eviction.
//!
//! The cache keeps the decoded stems of whole songs resident. Its entries are
//! held in order of use, the least recently used first; every lookup and every
//! insertion moves the entry it touches to the end and stamps it with the next
//! value of a logical clock. Making room means dropping entries from the front.

use std::sync::Arc;
use vstd::prelude::*;

verus! {

/// Bytes that one decoded sample occupies.
pub const BYTES_PER_SAMPLE: usize = 4;

/// Why the cache refused an operation.
#[derive(Debug, Clone, Copy, PartialEq, Eq, Structural)]
pub enum CacheError {
    /// The song alone is larger than the whole budget.
    SizeLimitExceeded,
}

/// One decoded stem of a cached song.
pub struct CachedStem<T> {
    /// Stable identifier of the stem.
    pub stem_id: String,
    /// Interleaved samples, shared with whoever plays them.
    pub samples: Arc<Vec<T>>,
    /// Rate the samples are at.
    pub sample_rate: u32,
    /// Declared volume, as the bit pattern of a number in `[0.0, 1.0]`.
    pub volume: u32,
    /// Declared mute flag.
    pub is_muted: bool,
}

/// What a `CachedStem` holds, as mathematical values.
pub struct CachedStemView<T> {
    pub stem_id: Seq<char>,
    pub samples: Seq<T>,
    pub sample_rate: u32,
    pub volume: u32,
    pub is_muted: bool,
}

impl<T> View for CachedStem<T> {
    type V = CachedStemView<T>;

    open spec fn view(&self) -> CachedStemView<T> {
        CachedStemView {
            stem_id: self.stem_id@,
            samples: self.samples@,
            sample_rate: self.sample_rate,
            volume: self.volume,
            is_muted: self.is_muted,
        }
    }
}

/// A second handle on the same buffer.
///
/// Trusted: `Arc::clone` hands back a pointer to the very allocation it was
/// given, so the buffer behind the new handle is the buffer behind the old one.
#[verifier::external_body]
pub(crate) fn share_buffer<T>(buffer: &Arc<Vec<T>>) -> (shared: Arc<Vec<T>>)
    ensures
        shared == *buffer,
{
    Arc::clone(buffer)
}

impl<T> Clone for CachedStem<T> {
    /// Copies the descriptor and shares the sample buffer.
    fn clone(&self) -> (copy: Self)
        ensures
            copy@ == self@,
    {
        CachedStem {
            stem_id: self.stem_id.clone(),
            samples: share_buffer(&self.samples),
            sample_rate: self.sample_rate,
            volume: self.volume,
            is_muted: self.is_muted,
        }
    }
}

/// A song with all of its stems decoded.
pub struct CachedSong<T> {
    pub song_id: String,
    pub stems: Vec<CachedStem<T>>,
}

/// What a `CachedSong` holds, as mathematical values.
pub struct CachedSongView<T> {
    pub song_id: Seq<char>,
    pub stems: Seq<CachedStemView<T>>,
}

impl<T> View for CachedSong<T> {
    type V = CachedSongView<T>;

    open spec fn view(&self) -> CachedSongView<T> {
        CachedSongView {
            song_id: self.song_id@,
            stems: Seq::new(self.stems@.len(), |i: int| self.stems@[i]@),
        }
    }
}

/// Bytes taken by the samples of a run of stems.
pub open spec fn stems_bytes<T>(stems: Seq<CachedStemView<T>>) -> nat
    decreases stems.len(),
{
    if stems.len() == 0 {
        0
    } else {
        stems_bytes(stems.drop_last()) + stems.last().samples.len() * 4
    }
}

impl<T> CachedSongView<T> {
    /// Bytes taken by the song: four for every sample of every stem.
    pub open spec fn bytes(self) -> nat {
        stems_bytes(self.stems)
    }
}

impl<T> Clone for CachedSong<T> {
    /// Copies the descriptors and shares every sample buffer.
    fn clone(&self) -> (copy: Self)
        ensures
            copy@ == self@,
    {
        let mut stems: Vec<CachedStem<T>> = Vec::new();
        let mut i: usize = 0;
        while i < self.stems.len()
            invariant
                i <= self.stems.len(),
                stems.len() == i,
                forall|j: int| 0 <= j < i ==> stems[j]@ == self.stems[j]@,
            decreases self.stems.len() - i,
        {
            stems.push(self.stems[i].clone());
            i += 1;
        }
        let copy = CachedSong { song_id: self.song_id.clone(), stems };
        assert(copy@.stems =~= self@.stems);
        copy
    }
}

impl<T> CachedSong<T> {
    /// Bytes taken by the song, or `None` where the count does not fit a `usize`.
    pub fn size_bytes(&self) -> (size: Option<usize>)
        ensures
            match size {
                Some(n) => n == self@.bytes(),
                None => self@.bytes() > usize::MAX,
            },
    {
        let mut total: usize = 0;
        let mut i: usize = 0;
        while i < self.stems.len()
            invariant
                i <= self.stems.len(),
                total == stems_bytes(self@.stems.take(i as int)),
            decreases self.stems.len() - i,
        {
            proof {
                let upto = self@.stems.take(i + 1);
                assert(upto.drop_last() =~= self@.stems.take(i as int));
                assert(upto.last() == self@.stems[i as int]);
                lemma_stems_bytes_prefix(self@.stems, i + 1);
            }
            let len = self.stems[i].samples.len();
            let bytes = match len.checked_mul(BYTES_PER_SAMPLE) {
                Some(b) => b,
                None => {
                    return None;
                },
            };
            total = match total.checked_add(bytes) {
                Some(t) => t,
                None => {
                    return None;
                },
            };
            i += 1;
        }
        assert(self@.stems.take(i as int) =~= self@.stems);
        Some(total)
    }
}

/// The bytes of a prefix never exceed the bytes of the whole.
pub proof fn lemma_stems_bytes_prefix<T>(stems: Seq<CachedStemView<T>>, n: int)
    requires
        0 <= n <= stems.len(),
    ensures
        stems_bytes(stems.take(n)) <= stems_bytes(stems),
    decreases stems.len(),
{
    if n == stems.len() {
        assert(stems.take(n) =~= stems);
    } else {
        assert(stems.drop_last().take(n) =~= stems.take(n));
        lemma_stems_bytes_prefix(stems.drop_last(), n);
    }
}

/// A resident song with its bookkeeping.
pub struct CacheEntry<T> {
    /// Key the song was inserted under.
    pub song_id: String,
    pub song: CachedSong<T>,
    /// Value of the cache's logical clock when the entry was last touched.
    pub last_accessed: u64,
    /// Bytes the song counts for.
    pub size_bytes: usize,
}

/// What a `CacheEntry` holds, as mathematical values.
pub struct CacheEntryView<T> {
    pub song_id: Seq<char>,
    pub song: CachedSongView<T>,
    pub last_accessed: u64,
    pub size_bytes: nat,
}

impl<T> View for CacheEntry<T> {
    type V = CacheEntryView<T>;

    open spec fn view(&self) -> CacheEntryView<T> {
        CacheEntryView {
            song_id: self.song_id@,
            song: self.song@,
            last_accessed: self.last_accessed,
            size_bytes: self.size_bytes as nat,
        }
    }
}

/// Sum of the sizes of a run of entries.
pub open spec fn total_bytes<T>(entries: Seq<CacheEntryView<T>>) -> nat
    decreases entries.len(),
{
    if entries.len() == 0 {
        0
    } else {
        total_bytes(entries.drop_last()) + entries.last().size_bytes
    }
}

/// The clock value after `clock`; it stays at the largest value once there.
pub open spec fn next_tick(clock: u64) -> u64 {
    if clock < u64::MAX {
        (clock + 1) as u64
    } else {
        clock
    }
}

/// Position of the entry stored under `song_id`, if there is one.
pub open spec fn position_of<T>(entries: Seq<CacheEntryView<T>>, song_id: Seq<char>) -> Option<int>
    decreases entries.len(),
{
    if entries.len() == 0 {
        None
    } else if entries.last().song_id == song_id {
        Some(entries.len() - 1)
    } else {
        position_of(entries.drop_last(), song_id)
    }
}

/// The entries without the one stored under `song_id`.
pub open spec fn without<T>(entries: Seq<CacheEntryView<T>>, song_id: Seq<char>) -> Seq<
    CacheEntryView<T>,
> {
    match position_of(entries, song_id) {
        Some(i) => entries.remove(i),
        None => entries,
    }
}

/// How many of the least recently used entries have to go so that the rest
/// fits into `budget` bytes: the smallest such number.
pub open spec fn eviction_count<T>(entries: Seq<CacheEntryView<T>>, budget: int) -> nat
    decreases entries.len(),
{
    if entries.len() == 0 || total_bytes(entries) <= budget {
        0
    } else {
        1 + eviction_count(entries.skip(1), budget)
    }
}

/// The mathematical state of a cache: its entries, least recently used first,
/// its budget and its logical clock.
pub struct CacheView<T> {
    pub entries: Seq<CacheEntryView<T>>,
    pub max_bytes: nat,
    pub clock: u64,
}

impl<T> CacheView<T> {
    /// Bytes held.
    pub open spec fn current_bytes(self) -> nat {
        total_bytes(self.entries)
    }

    /// The same entries under a budget of exactly what they take.
    pub open spec fn tight(self) -> CacheView<T> {
        CacheView { max_bytes: self.current_bytes(), ..self }
    }

    /// The same entries under another budget.
    pub open spec fn with_budget(self, max_bytes: nat) -> CacheView<T> {
        CacheView { max_bytes, ..self }
    }

    /// Whether a song is stored under `song_id`.
    pub open spec fn contains(self, song_id: Seq<char>) -> bool {
        position_of(self.entries, song_id) is Some
    }

    /// The invariant of a cache. No two entries share a key; each entry counts
    /// for the bytes of its song; the entries are in order of their stamps,
    /// none of which is ahead of the clock; and the whole fits the budget.
    pub open spec fn wf(self) -> bool {
        &&& forall|i: int, j: int|
            0 <= i < j < self.entries.len() ==> self.entries[i].song_id != self.entries[j].song_id
        &&& forall|i: int|
            0 <= i < self.entries.len() ==> (#[trigger] self.entries[i]).size_bytes
                == self.entries[i].song.bytes()
        &&& forall|i: int, j: int|
            0 <= i <= j < self.entries.len() ==> self.entries[i].last_accessed
                <= self.entries[j].last_accessed
        &&& forall|i: int|
            0 <= i < self.entries.len() ==> (#[trigger] self.entries[i]).last_accessed <= self.clock
        &&& self.current_bytes() <= self.max_bytes
    }

    /// State after a lookup of `song_id`: a hit moves the entry to the most
    /// recent end with a fresh stamp; a miss changes nothing.
    pub open spec fn touch(self, song_id: Seq<char>) -> CacheView<T> {
        match position_of(self.entries, song_id) {
            Some(i) => CacheView {
                entries: self.entries.remove(i).push(
                    CacheEntryView { last_accessed: next_tick(self.clock), ..self.entries[i] },
                ),
                clock: next_tick(self.clock),
                ..self
            },
            None => self,
        }
    }

    /// State after the least recently used entries were dropped until what is
    /// left fits into `budget` bytes.
    pub open spec fn evict_to(self, budget: int) -> CacheView<T> {
        CacheView {
            entries: self.entries.skip(eviction_count(self.entries, budget) as int),
            ..self
        }
    }

    /// State after a song that fits the budget was inserted under `song_id`:
    /// first the least recently used entries go until the new song fits beside
    /// the rest, then an entry already stored under the key goes, and the new
    /// entry is added at the most recent end.
    pub open spec fn insert(self, song_id: Seq<char>, song: CachedSongView<T>) -> CacheView<T> {
        let room = self.evict_to(self.max_bytes - song.bytes());
        CacheView {
            entries: without(room.entries, song_id).push(
                CacheEntryView {
                    song_id,
                    song,
                    last_accessed: next_tick(self.clock),
                    size_bytes: song.bytes(),
                },
            ),
            clock: next_tick(self.clock),
            ..self
        }
    }

    /// State after the entry under `song_id` was removed.
    pub open spec fn remove(self, song_id: Seq<char>) -> CacheView<T> {
        CacheView { entries: without(self.entries, song_id), ..self }
    }

    /// State after everything was dropped.
    pub open spec fn clear(self) -> CacheView<T> {
        CacheView { entries: Seq::empty(), ..self }
    }

    /// State after the budget was set to `max_bytes`, with the least recently
    /// used entries dropped until the rest fits.
    pub open spec fn set_max(self, max_bytes: nat) -> CacheView<T> {
        self.with_budget(max_bytes).evict_to(max_bytes as int)
    }
}

/// Removing an entry takes its size off the total.
pub proof fn lemma_total_remove<T>(entries: Seq<CacheEntryView<T>>, i: int)
    requires
        0 <= i < entries.len(),
    ensures
        total_bytes(entries.remove(i)) + entries[i].size_bytes == total_bytes(entries),
    decreases entries.len(),
{
    if i == entries.len() - 1 {
        assert(entries.remove(i) =~= entries.drop_last());
    } else {
        assert(entries.remove(i).drop_last() =~= entries.drop_last().remove(i));
        assert(entries.remove(i).last() == entries.last());
        lemma_total_remove(entries.drop_last(), i);
    }
}

/// Adding an entry at the end adds its size to the total.
pub proof fn lemma_total_push<T>(entries: Seq<CacheEntryView<T>>, entry: CacheEntryView<T>)
    ensures
        total_bytes(entries.push(entry)) == total_bytes(entries) + entry.size_bytes,
{
    assert(entries.push(entry).drop_last() =~= entries);
}

/// `position_of` finds an index that holds the key, and fails only where no
/// entry holds it.
pub proof fn lemma_position_of<T>(entries: Seq<CacheEntryView<T>>, song_id: Seq<char>)
    ensures
        match position_of(entries, song_id) {
            Some(i) => 0 <= i < entries.len() && entries[i].song_id == song_id,
            None => forall|j: int| 0 <= j < entries.len() ==> entries[j].song_id != song_id,
        },
    decreases entries.len(),
{
    if entries.len() > 0 && entries.last().song_id != song_id {
        let front = entries.drop_last();
        lemma_position_of(front, song_id);
        if position_of(front, song_id) is None {
            assert forall|j: int| 0 <= j < entries.len() implies entries[j].song_id != song_id by {
                if j < front.len() {
                    assert(front[j] == entries[j]);
                }
            }
        }
    }
}

/// Where keys are distinct, `position_of` is the one index that holds the key.
pub proof fn lemma_position_unique<T>(entries: Seq<CacheEntryView<T>>, song_id: Seq<char>, i: int)
    requires
        0 <= i < entries.len(),
        entries[i].song_id == song_id,
        forall|a: int, b: int| 0 <= a < b < entries.len() ==> entries[a].song_id != entries[b].song_id,
    ensures
        position_of(entries, song_id) == Some(i),
{
    lemma_position_of(entries, song_id);
}

/// What `eviction_count` promises: it never exceeds the number of entries,
/// what is left fits the budget where the budget is not negative, and dropping
/// one entry fewer would not have been enough.
pub proof fn lemma_eviction_count<T>(entries: Seq<CacheEntryView<T>>, budget: int)
    ensures
        eviction_count(entries, budget) <= entries.len(),
        budget >= 0 ==> total_bytes(entries.skip(eviction_count(entries, budget) as int)) <= budget,
        eviction_count(entries, budget) > 0 ==> total_bytes(
            entries.skip(eviction_count(entries, budget) - 1),
        ) > budget,
    decreases entries.len(),
{
    if entries.len() == 0 || total_bytes(entries) <= budget {
        assert(entries.skip(0) =~= entries);
    } else {
        let rest = entries.skip(1);
        lemma_eviction_count(rest, budget);
        let k = eviction_count(rest, budget);
        assert(rest.skip(k as int) =~= entries.skip(k as int + 1));
        if k > 0 {
            assert(rest.skip(k as int - 1) =~= entries.skip(k as int));
        } else {
            assert(entries.skip(0) =~= entries);
        }
    }
}

/// The song cache: a budget of bytes and the songs that currently fill it.
pub struct SongCache<T> {
    entries: Vec<CacheEntry<T>>,
    max_size_bytes: usize,
    current_size_bytes: usize,
    clock: u64,
}

impl<T> View for SongCache<T> {
    type V = CacheView<T>;

    closed spec fn view(&self) -> CacheView<T> {
        CacheView {
            entries: Seq::new(self.entries@.len(), |i: int| self.entries@[i]@),
            max_bytes: self.max_size_bytes as nat,
            clock: self.clock,
        }
    }
}

impl<T> SongCache<T> {
    /// The representation is consistent: the running byte count is the sum of
    /// the entries' sizes, and the state meets the cache invariant.
    pub closed spec fn wf(&self) -> bool {
        &&& self@.wf()
        &&& self.current_size_bytes == self@.current_bytes()
    }

    /// An empty cache with a budget of `max_size_bytes`.
    pub fn new(max_size_bytes: usize) -> (cache: Self)
        ensures
            cache.wf(),
            cache@.entries.len() == 0,
            cache@.max_bytes == max_size_bytes,
            cache@.clock == 0,
    {
        SongCache { entries: Vec::new(), max_size_bytes, current_size_bytes: 0, clock: 0 }
    }

    fn find(&self, song_id: &String) -> (found: Option<usize>)
        requires
            self@.tight().wf(),
        ensures
            match found {
                Some(i) => position_of(self@.entries, song_id@) == Some(i as int) && i
                    < self.entries.len(),
                None => (position_of(self@.entries, song_id@) is None),
            },
    {
        let mut i: usize = 0;
        while i < self.entries.len()
            invariant
                i <= self.entries.len(),
                self@.tight().wf(),
                forall|j: int| 0 <= j < i ==> self@.entries[j].song_id != song_id@,
            decreases self.entries.len() - i,
        {
            if self.entries[i].song_id == *song_id {
                proof {
                    lemma_position_unique(self@.entries, song_id@, i as int);
                }
                return Some(i);
            }
            i += 1;
        }
        proof {
            lemma_position_of(self@.entries, song_id@);
        }
        None
    }

    /// Looks a song up. A hit marks the entry as the most recently used and
    /// hands out a copy of the song that shares its sample buffers.
    pub fn get(&mut self, song_id: &str) -> (song: Option<CachedSong<T>>)
        requires
            old(self).wf(),
        ensures
            final(self).wf(),
            final(self)@ == old(self)@.touch(song_id@),
            match song {
                Some(s) => {
                    &&& old(self)@.contains(song_id@)
                    &&& s@ == old(self)@.entries[position_of(old(self)@.entries, song_id@)->0].song
                    &&& final(self)@.entries.last().song_id == song_id@
                    &&& forall|j: int|
                        0 <= j < final(self)@.entries.len() ==> final(self)@.entries[j].last_accessed
                            <= final(self)@.entries.last().last_accessed
                },
                None => !old(self)@.contains(song_id@),
            },
    {
        let key = song_id.to_owned();
        match self.find(&key) {
            None => None,
            Some(i) => {
                let ghost before = self@;
                proof {
                    lemma_total_remove(before.entries, i as int);
                }
                let mut entry = self.entries.remove(i);
                let tick = if self.clock < u64::MAX {
                    self.clock + 1
                } else {
                    self.clock
                };
                entry.last_accessed = tick;
                self.clock = tick;
                let copy = entry.song.clone();
                self.entries.push(entry);
                proof {
                    let moved = CacheEntryView {
                        last_accessed: next_tick(before.clock),
                        ..before.entries[i as int]
                    };
                    let rest = before.entries.remove(i as int);
                    assert(self@.entries =~= rest.push(moved));
                    lemma_total_push(rest, moved);
                    lemma_position_of(before.entries, song_id@);
                    assert(self@.entries.last() == moved);
                    assert forall|j: int| 0 <= j < self@.entries.len() implies self@.entries[j].last_accessed
                        <= moved.last_accessed by {
                        if j < rest.len() {
                            assert(self@.entries[j] == rest[j]);
                        }
                    }
                }
                Some(copy)
            },
        }
    }

    fn evict_to(&mut self, budget: usize)
        requires
            old(self)@.tight().wf(),
            old(self).current_size_bytes == old(self)@.current_bytes(),
        ensures
            final(self)@ == old(self)@.evict_to(budget as int),
            final(self).current_size_bytes == final(self)@.current_bytes(),
            final(self)@.current_bytes() <= budget,
            final(self)@.tight().wf(),
    {
        let ghost before = self@;
        let ghost mut dropped: int = 0;
        proof {
            assert(before.entries.skip(0) =~= before.entries);
        }
        while self.current_size_bytes > budget && self.entries.len() > 0
            invariant
                0 <= dropped <= before.entries.len(),
                self@.entries == before.entries.skip(dropped),
                self@.max_bytes == before.max_bytes,
                self@.clock == before.clock,
                self.current_size_bytes == self@.current_bytes(),
                self@.tight().wf(),
                eviction_count(before.entries, budget as int) == dropped + eviction_count(
                    self@.entries,
                    budget as int,
                ),
            decreases self.entries.len(),
        {
            let ghost current = self@.entries;
            proof {
                lemma_total_remove(current, 0);
                assert(current.remove(0) =~= current.skip(1));
                assert(current.skip(1) =~= before.entries.skip(dropped + 1));
            }
            let gone = self.entries.remove(0);
            self.current_size_bytes = self.current_size_bytes - gone.size_bytes;
            proof {
                dropped = dropped + 1;
                assert(self@.entries =~= current.remove(0));
            }
        }
        proof {
            if self.entries.len() == 0 {
                assert(self@.entries =~= Seq::empty());
            }
        }
    }

    /// Stores a song under `song_id`, making room by dropping the least
    /// recently used entries. A song that is larger than the whole budget is
    /// refused and the cache is left as it was.
    pub fn insert(&mut self, song_id: String, song: CachedSong<T>) -> (outcome: Result<
        (),
        CacheError,
    >)
        requires
            old(self).wf(),
        ensures
            final(self).wf(),
            match outcome {
                Ok(()) => {
                    &&& song@.bytes() <= old(self)@.max_bytes
                    &&& final(self)@ == old(self)@.insert(song_id@, song@)
                    &&& final(self)@.contains(song_id@)
                    &&& final(self)@.current_bytes() <= final(self)@.max_bytes
                },
                Err(e) => {
                    &&& e == CacheError::SizeLimitExceeded
                    &&& song@.bytes() > old(self)@.max_bytes
                    &&& final(self)@ == old(self)@
                },
            },
    {
        let size = match song.size_bytes() {
            Some(n) => n,
            None => {
                return Err(CacheError::SizeLimitExceeded);
            },
        };
        if size > self.max_size_bytes {
            return Err(CacheError::SizeLimitExceeded);
        }
        let ghost before = self@;
        self.evict_to(self.max_size_bytes - size);
        let ghost room = self@;
        match self.find(&song_id) {
            None => {},
            Some(i) => {
                proof {
                    lemma_total_remove(room.entries, i as int);
                }
                let old_entry = self.entries.remove(i);
                self.current_size_bytes = self.current_size_bytes - old_entry.size_bytes;
                proof {
                    assert(self@.entries =~= room.entries.remove(i as int));
                }
            },
        }
        let ghost kept = self@.entries;
        assert(kept == without(room.entries, song_id@));
        let tick = if self.clock < u64::MAX {
            self.clock + 1
        } else {
            self.clock
        };
        let ghost added = CacheEntryView {
            song_id: song_id@,
            song: song@,
            last_accessed: next_tick(before.clock),
            size_bytes: song@.bytes(),
        };
        proof {
            lemma_total_push(kept, added);
            lemma_position_of(room.entries, song_id@);
        }
        self.clock = tick;
        self.current_size_bytes = self.current_size_bytes + size;
        self.entries.push(CacheEntry { song_id, song, last_accessed: tick, size_bytes: size });
        proof {
            assert(self@.entries =~= kept.push(added));
            lemma_position_unique(self@.entries, added.song_id, kept.len() as int);
        }
        Ok(())
    }

    /// Whether a song is stored under `song_id`. The order of use is left alone.
    pub fn contains(&self, song_id: &str) -> (present: bool)
        requires
            self.wf(),
        ensures
            present == self@.contains(song_id@),
    {
        let key = song_id.to_owned();
        self.find(&key).is_some()
    }

    /// Drops the song stored under `song_id`, if there is one.
    pub fn remove(&mut self, song_id: &str)
        requires
            old(self).wf(),
        ensures
            final(self).wf(),
            final(self)@ == old(self)@.remove(song_id@),
            !final(self)@.contains(song_id@),
    {
        let key = song_id.to_owned();
        let ghost before = self@;
        match self.find(&key) {
            None => {},
            Some(i) => {
                proof {
                    lemma_total_remove(before.entries, i as int);
                }
                let gone = self.entries.remove(i);
                self.current_size_bytes = self.current_size_bytes - gone.size_bytes;
                proof {
                    assert(self@.entries =~= before.entries.remove(i as int));
                }
            },
        }
        proof {
            lemma_position_of(before.entries, song_id@);
            lemma_position_of(self@.entries, song_id@);
        }
    }

    /// Drops every song.
    pub fn clear(&mut self)
        requires
            old(self).wf(),
        ensures
            final(self).wf(),
            final(self)@ == old(self)@.clear(),
            final(self)@.current_bytes() == 0,
    {
        self.entries.clear();
        self.current_size_bytes = 0;
        assert(self@.entries =~= Seq::empty());
    }

    /// Number of songs, bytes held, and the budget.
    pub fn stats(&self) -> (stats: (usize, usize, usize))
        requires
            self.wf(),
        ensures
            stats.0 == self@.entries.len(),
            stats.1 == self@.current_bytes(),
            stats.2 == self@.max_bytes,
            stats.1 <= stats.2,
    {
        (self.entries.len(), self.current_size_bytes, self.max_size_bytes)
    }

    /// Sets the budget, dropping the least recently used entries until what is
    /// left fits.
    pub fn set_max_size(&mut self, new_max_bytes: usize)
        requires
            old(self).wf(),
        ensures
            final(self).wf(),
            final(self)@ == old(self)@.set_max(new_max_bytes as nat),
            final(self)@.current_bytes() <= new_max_bytes,
    {
        self.max_size_bytes = new_max_bytes;
        self.evict_to(new_max_bytes);
    }
}

/// In every consistent cache the byte count that `stats` reports is the sum of
/// the sizes of the entries, each entry counts for the bytes of its song, and
/// the sum is within the budget.
pub proof fn lemma_cache_accounting<T>(cache: SongCache<T>)
    requires
        cache.wf(),
    ensures
        cache@.wf(),
        cache@.current_bytes() == total_bytes(cache@.entries),
        cache@.current_bytes() <= cache@.max_bytes,
{
}

/// Every operation of the model keeps the cache invariant: a lookup, an
/// insertion of a song that fits the budget, a removal, clearing, and a change
/// of budget.
pub proof fn lemma_operations_keep_invariant<T>(
    state: CacheView<T>,
    song_id: Seq<char>,
    song: CachedSongView<T>,
    max_bytes: nat,
)
    requires
        state.wf(),
    ensures
        state.touch(song_id).wf(),
        song.bytes() <= state.max_bytes ==> state.insert(song_id, song).wf(),
        state.remove(song_id).wf(),
        state.clear().wf(),
        state.set_max(max_bytes).wf(),
{
    lemma_touch_keeps_invariant(state, song_id);
    if song.bytes() <= state.max_bytes {
        lemma_insert_keeps_invariant(state, song_id, song);
    }
    lemma_remove_keeps_invariant(state, song_id);
    lemma_evict_keeps_invariant(state.with_budget(max_bytes), max_bytes as int);
}

/// After a lookup that hits, the song that was looked up is the most recently
/// used one: its entry stands last, and no entry has a later stamp.
pub proof fn lemma_lookup_makes_most_recent<T>(state: CacheView<T>, song_id: Seq<char>)
    requires
        state.wf(),
        state.contains(song_id),
    ensures
        state.touch(song_id).entries.len() == state.entries.len(),
        state.touch(song_id).entries.last().song_id == song_id,
        forall|j: int|
            0 <= j < state.touch(song_id).entries.len() ==> (#[trigger] state.touch(
                song_id,
            ).entries[j]).last_accessed <= state.touch(song_id).entries.last().last_accessed,
{
    lemma_position_of(state.entries, song_id);
    lemma_touch_keeps_invariant(state, song_id);
}

proof fn lemma_touch_keeps_invariant<T>(state: CacheView<T>, song_id: Seq<char>)
    requires
        state.wf(),
    ensures
        state.touch(song_id).wf(),
{
    lemma_position_of(state.entries, song_id);
    match position_of(state.entries, song_id) {
        Some(i) => {
            let moved = CacheEntryView { last_accessed: next_tick(state.clock), ..state.entries[i] };
            lemma_total_remove(state.entries, i);
            lemma_total_push(state.entries.remove(i), moved);
        },
        None => {},
    }
}

proof fn lemma_remove_keeps_invariant<T>(state: CacheView<T>, song_id: Seq<char>)
    requires
        state.wf(),
    ensures
        state.remove(song_id).wf(),
{
    lemma_position_of(state.entries, song_id);
    match position_of(state.entries, song_id) {
        Some(i) => {
            lemma_total_remove(state.entries, i);
        },
        None => {},
    }
}

/// Eviction takes the least recently used: every entry that goes was last
/// touched no later than every entry that stays, and no more entries go than
/// it takes to fit the budget.
pub proof fn lemma_eviction_takes_least_recent<T>(state: CacheView<T>, budget: int)
    requires
        state.wf(),
        0 <= budget,
    ensures
        eviction_count(state.entries, budget) <= state.entries.len(),
        state.evict_to(budget).current_bytes() <= budget,
        eviction_count(state.entries, budget) > 0 ==> total_bytes(
            state.entries.skip(eviction_count(state.entries, budget) - 1),
        ) > budget,
        forall|gone: int, kept: int|
            0 <= gone < eviction_count(state.entries, budget) <= kept < state.entries.len()
                ==> state.entries[gone].last_accessed <= state.entries[kept].last_accessed,
{
    lemma_eviction_count(state.entries, budget);
}

proof fn lemma_evict_keeps_invariant<T>(state: CacheView<T>, budget: int)
    requires
        state.tight().wf(),
        0 <= budget <= state.max_bytes,
    ensures
        state.evict_to(budget).wf(),
        state.evict_to(budget).current_bytes() <= budget,
{
    lemma_eviction_count(state.entries, budget);
}

proof fn lemma_insert_keeps_invariant<T>(
    state: CacheView<T>,
    song_id: Seq<char>,
    song: CachedSongView<T>,
)
    requires
        state.wf(),
        song.bytes() <= state.max_bytes,
    ensures
        state.insert(song_id, song).wf(),
{
    let budget = state.max_bytes - song.bytes();
    lemma_evict_keeps_invariant(state, budget);
    let room = state.evict_to(budget);
    lemma_position_of(room.entries, song_id);
    let kept = without(room.entries, song_id);
    match position_of(room.entries, song_id) {
        Some(i) => {
            lemma_total_remove(room.entries, i);
        },
        None => {},
    }
    let added = CacheEntryView {
        song_id,
        song,
        last_accessed: next_tick(state.clock),
        size_bytes: song.bytes(),
    };
    lemma_total_push(kept, added);
}

} // verus!
