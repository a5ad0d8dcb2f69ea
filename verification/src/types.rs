//! Plain value types shared by the whole library.

use vstd::prelude::*;
use vstd::string::StringExecFns;

verus! {

/// Transport state of the mixer.
#[derive(Debug, Clone, Copy, PartialEq, Eq, Structural)]
pub enum PlaybackState {
    Stopped,
    Playing,
    Paused,
}

/// What can go wrong in the audio path.
#[derive(Debug)]
pub enum AudioError {
    /// The engine or its output could not be set up.
    DeviceInit(String),
    /// A file could not be decoded.
    DecodeError(String),
    /// A file could not be opened or read.
    FileError(String),
    /// A transport operation failed.
    PlaybackError(String),
    /// A file is not in a format the decoder understands.
    InvalidFormat(String),
    /// Every stem slot of the engine is taken.
    NoSlot,
    /// No loaded stem goes by this identifier.
    UnknownStem(String),
}

/// Text that introduces the detail of each kind of error.
pub open spec fn error_prefix(error: AudioError) -> Seq<char> {
    match error {
        AudioError::DeviceInit(_) => "Failed to initialize audio device: "@,
        AudioError::DecodeError(_) => "Failed to decode audio file: "@,
        AudioError::FileError(_) => "Failed to open audio file: "@,
        AudioError::PlaybackError(_) => "Audio playback error: "@,
        AudioError::InvalidFormat(_) => "Invalid audio format: "@,
        AudioError::NoSlot => "No available stem slots"@,
        AudioError::UnknownStem(_) => "Stem not found in audio engine: "@,
    }
}

/// The detail an error carries; empty where it carries none.
pub open spec fn error_detail(error: AudioError) -> Seq<char> {
    match error {
        AudioError::DeviceInit(detail) => detail@,
        AudioError::DecodeError(detail) => detail@,
        AudioError::FileError(detail) => detail@,
        AudioError::PlaybackError(detail) => detail@,
        AudioError::InvalidFormat(detail) => detail@,
        AudioError::NoSlot => Seq::empty(),
        AudioError::UnknownStem(detail) => detail@,
    }
}

impl AudioError {
    /// The error as a line of text: what kind it is, then its detail.
    pub fn message(&self) -> (text: String)
        ensures
            text@ == error_prefix(*self) + error_detail(*self),
    {
        match self {
            AudioError::DeviceInit(detail) => joined("Failed to initialize audio device: ", detail),
            AudioError::DecodeError(detail) => joined("Failed to decode audio file: ", detail),
            AudioError::FileError(detail) => joined("Failed to open audio file: ", detail),
            AudioError::PlaybackError(detail) => joined("Audio playback error: ", detail),
            AudioError::InvalidFormat(detail) => joined("Invalid audio format: ", detail),
            AudioError::NoSlot => {
                let text = "No available stem slots".to_owned();
                assert(text@ + Seq::<char>::empty() =~= text@);
                text
            },
            AudioError::UnknownStem(detail) => joined("Stem not found in audio engine: ", detail),
        }
    }
}

/// The two texts one after the other.
pub(crate) fn joined(head: &str, tail: &String) -> (text: String)
    ensures
        text@ == head@ + tail@,
{
    head.to_owned().concat(tail.as_str())
}

/// Upper bound on the number of stem slots an engine may be built with.
pub const MAX_STEM_SLOTS: usize = 256;

/// Preset configurations for the number of stem slots.
#[derive(Debug, Clone, Copy, PartialEq, Eq, Structural)]
pub enum StemCapacity {
    /// Sixteen slots: enough for most backing tracks.
    Standard,
    /// Thirty-two slots: complex arrangements.
    Extended,
    /// Sixty-four slots: orchestral or large productions.
    Professional,
    /// A caller-chosen number of slots.
    Custom(usize),
}

impl StemCapacity {
    /// The number of slots this preset stands for.
    pub open spec fn slots(self) -> nat {
        match self {
            StemCapacity::Standard => 16,
            StemCapacity::Extended => 32,
            StemCapacity::Professional => 64,
            StemCapacity::Custom(n) => n as nat,
        }
    }

    /// The preset that names a slot count: one of the three fixed presets
    /// where the count is theirs, else a custom one.
    pub open spec fn preset_for(count: usize) -> StemCapacity {
        if count == 16 {
            StemCapacity::Standard
        } else if count == 32 {
            StemCapacity::Extended
        } else if count == 64 {
            StemCapacity::Professional
        } else {
            StemCapacity::Custom(count)
        }
    }

    pub fn as_usize(&self) -> (n: usize)
        ensures
            n == self.slots(),
    {
        match self {
            StemCapacity::Standard => 16,
            StemCapacity::Extended => 32,
            StemCapacity::Professional => 64,
            StemCapacity::Custom(n) => *n,
        }
    }

    pub fn from_usize(count: usize) -> (capacity: StemCapacity)
        ensures
            capacity == Self::preset_for(count),
            capacity.slots() == count,
    {
        if count == 16 {
            StemCapacity::Standard
        } else if count == 32 {
            StemCapacity::Extended
        } else if count == 64 {
            StemCapacity::Professional
        } else {
            StemCapacity::Custom(count)
        }
    }
}

} // verus!
