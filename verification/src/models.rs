//! Records that the engine exchanges with the catalog and the settings store.

use vstd::prelude::*;

verus! {

/// An ordered list of songs for a performance.
pub struct Setlist {
    pub id: String,
    pub name: String,
    pub created_at: i64,
    pub updated_at: i64,
    pub song_ids: Vec<String>,
}

/// The identifiers of a list of songs, as texts.
pub open spec fn ids_of(song_ids: Seq<String>) -> Seq<Seq<char>> {
    Seq::new(song_ids.len(), |i: int| song_ids[i]@)
}

/// The texts without those equal to `gone`, in their old order.
pub open spec fn without_id(ids: Seq<Seq<char>>, gone: Seq<char>) -> Seq<Seq<char>>
    decreases ids.len(),
{
    if ids.len() == 0 {
        Seq::empty()
    } else if ids.last() == gone {
        without_id(ids.drop_last(), gone)
    } else {
        without_id(ids.drop_last(), gone).push(ids.last())
    }
}

impl Setlist {
    /// The songs of the setlist, in order.
    pub open spec fn songs(&self) -> Seq<Seq<char>> {
        ids_of(self.song_ids@)
    }

    /// Whether the setlist holds the song.
    pub fn contains(&self, song_id: &str) -> (found: bool)
        ensures
            found == self.songs().contains(song_id@),
    {
        let wanted = song_id.to_owned();
        let mut i: usize = 0;
        while i < self.song_ids.len()
            invariant
                i <= self.song_ids.len(),
                wanted@ == song_id@,
                forall|j: int| 0 <= j < i ==> self.songs()[j] != song_id@,
            decreases self.song_ids.len() - i,
        {
            if self.song_ids[i] == wanted {
                assert(self.songs()[i as int] == song_id@);
                return true;
            }
            i += 1;
        }
        false
    }

    /// Adds a song at the end unless the setlist holds it already. Only a
    /// setlist that changed gets the new time stamp; the result says whether
    /// it did.
    pub fn add_song(&mut self, song_id: String, now: i64) -> (added: bool)
        ensures
            added == !old(self).songs().contains(song_id@),
            added ==> final(self).songs() == old(self).songs().push(song_id@),
            added ==> final(self).updated_at == now,
            !added ==> final(self).songs() == old(self).songs(),
            !added ==> final(self).updated_at == old(self).updated_at,
            final(self).id == old(self).id,
            final(self).name == old(self).name,
            final(self).created_at == old(self).created_at,
    {
        if self.contains(song_id.as_str()) {
            return false;
        }
        self.song_ids.push(song_id);
        self.updated_at = now;
        assert(self.songs() =~= old(self).songs().push(song_id@));
        true
    }

    /// Takes a song out of the setlist, wherever it stands, and stamps the
    /// setlist with the time.
    pub fn remove_song(&mut self, song_id: &str, now: i64)
        ensures
            final(self).songs() == without_id(old(self).songs(), song_id@),
            final(self).updated_at == now,
            final(self).id == old(self).id,
            final(self).name == old(self).name,
            final(self).created_at == old(self).created_at,
    {
        let gone = song_id.to_owned();
        let mut kept: Vec<String> = Vec::new();
        let mut i: usize = 0;
        let ghost all = self.songs();
        while i < self.song_ids.len()
            invariant
                i <= self.song_ids.len(),
                gone@ == song_id@,
                all == self.songs(),
                ids_of(kept@) == without_id(all.take(i as int), song_id@),
            decreases self.song_ids.len() - i,
        {
            proof {
                let upto = all.take(i + 1);
                assert(upto.drop_last() =~= all.take(i as int));
                assert(upto.last() == all[i as int]);
            }
            if self.song_ids[i] != gone {
                let ghost before = ids_of(kept@);
                kept.push(self.song_ids[i].clone());
                assert(ids_of(kept@) =~= before.push(all[i as int]));
            }
            i += 1;
        }
        assert(all.take(i as int) =~= all);
        self.song_ids = kept;
        self.updated_at = now;
    }

    /// Replaces the order of the songs and stamps the setlist with the time.
    pub fn reorder(&mut self, song_ids: Vec<String>, now: i64)
        ensures
            final(self).song_ids == song_ids,
            final(self).updated_at == now,
            final(self).id == old(self).id,
            final(self).name == old(self).name,
            final(self).created_at == old(self).created_at,
    {
        self.song_ids = song_ids;
        self.updated_at = now;
    }
}

/// Settings of the application that bear on audio output.
pub struct AppSettings {
    pub audio_output_device: Option<String>,
    pub audio_buffer_size: i32,
    pub sample_rate: i32,
    pub theme: String,
}

impl Default for AppSettings {
    /// No chosen device, blocks of 512 frames at 48000 Hz, and the dark theme.
    fn default() -> (settings: Self)
        ensures
            settings.audio_output_device is None,
            settings.audio_buffer_size == 512,
            settings.sample_rate == 48000,
            settings.theme@ == "dark"@,
    {
        AppSettings {
            audio_output_device: None,
            audio_buffer_size: 512,
            sample_rate: 48000,
            theme: "dark".to_owned(),
        }
    }
}

/// What a list of songs can be sorted by.
#[derive(Debug, Clone, Copy, PartialEq, Eq, Structural)]
pub enum SortBy {
    Name,
    Artist,
    Tempo,
    Duration,
    DateAdded,
}

impl SortBy {
    /// The name that a front end uses for each order.
    pub open spec fn name(self) -> Seq<char> {
        match self {
            SortBy::Name => "name"@,
            SortBy::Artist => "artist"@,
            SortBy::Tempo => "tempo"@,
            SortBy::Duration => "duration"@,
            SortBy::DateAdded => "date_added"@,
        }
    }

    /// The order that goes by `name`, if the name is known. Where several
    /// orders could answer to a name, the first in the list above does.
    pub fn from_name(name: &str) -> (order: Option<SortBy>)
        ensures
            match order {
                Some(found) => found.name() == name@,
                None => forall|other: SortBy| other.name() != name@,
            },
    {
        let wanted = name.to_owned();
        if wanted == "name".to_owned() {
            Some(SortBy::Name)
        } else if wanted == "artist".to_owned() {
            Some(SortBy::Artist)
        } else if wanted == "tempo".to_owned() {
            Some(SortBy::Tempo)
        } else if wanted == "duration".to_owned() {
            Some(SortBy::Duration)
        } else if wanted == "date_added".to_owned() {
            Some(SortBy::DateAdded)
        } else {
            None
        }
    }
}

/// An audio output as it is offered for choosing.
pub struct AudioDevice {
    pub name: String,
    pub is_default: bool,
}

/// Counters of a cache, for monitoring.
#[derive(Debug, Clone, Copy, PartialEq, Eq, Structural)]
pub struct CacheStats {
    pub total_entries: usize,
    pub total_size_bytes: u64,
    pub cache_hits: u64,
    pub cache_misses: u64,
    pub evictions: u64,
}

/// Bytes in a gigabyte, as budgets of caches are stated.
pub const BYTES_PER_GB: u64 = 1000000000;

/// Gigabytes that a cache may take unless told otherwise.
pub const DEFAULT_CACHE_GB: u64 = 10;

/// Settings of a cache.
pub struct CacheSettings {
    pub enabled: bool,
    pub max_size_gb: u64,
    pub cache_location: String,
}

impl CacheSettings {
    /// The usual settings for a cache at `cache_location`: enabled, with a
    /// budget of ten gigabytes.
    pub fn at(cache_location: String) -> (settings: Self)
        ensures
            settings.enabled,
            settings.max_size_gb == DEFAULT_CACHE_GB,
            settings.cache_location == cache_location,
    {
        CacheSettings { enabled: true, max_size_gb: DEFAULT_CACHE_GB, cache_location }
    }

    /// The budget in bytes, or `None` where it does not fit in 64 bits.
    pub fn max_size_bytes(&self) -> (bytes: Option<u64>)
        ensures
            match bytes {
                Some(n) => n == self.max_size_gb * BYTES_PER_GB,
                None => self.max_size_gb * BYTES_PER_GB > u64::MAX,
            },
    {
        self.max_size_gb.checked_mul(BYTES_PER_GB)
    }
}

} // verus!
