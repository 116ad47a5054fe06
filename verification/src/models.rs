//! The records, charts and players that the B50 is built from.
use vstd::prelude::*;

verus! {

/// The game version whose records count.
pub const SDVX_VERSION: u64 = 7;

/// One play record of a chart.
#[derive(Clone, Copy, Debug, PartialEq, Eq, Structural)]
pub struct MusicRecord {
    pub mid: u32,
    pub chart_type: u8,
    pub score: u32,
    pub clear: u8,
    pub grade: u8,
    pub volforce: u32,
}

/// A song of the music database.
#[derive(Debug)]
pub struct MusicEntry {
    pub title: String,
    pub inf_ver: Option<u8>,
    /// The level of each chart type, from novice to ultimate.
    pub levels: Vec<Option<u32>>,
}

/// A song as the specifications see it.
pub struct MusicEntryView {
    pub title: Seq<char>,
    pub inf_ver: Option<u8>,
    pub levels: Seq<Option<u32>>,
}

impl View for MusicEntry {
    type V = MusicEntryView;

    open spec fn view(&self) -> MusicEntryView {
        MusicEntryView { title: self.title@, inf_ver: self.inf_ver, levels: self.levels@ }
    }
}

/// A player profile of the save data.
#[derive(Debug)]
pub struct Profile {
    pub refid: String,
    pub name: String,
    pub sdvx_id: u64,
}

/// A player as the player list shows it.
#[derive(Debug)]
pub struct PlayerSummary {
    pub refid: String,
    pub name: String,
    pub sdvx_id: u64,
    pub score_count: usize,
}

/// The spec view of an optional string.
pub open spec fn opt_text(s: Option<String>) -> Option<Seq<char>> {
    match s {
        Some(t) => Some(t@),
        None => None,
    }
}

} // verus!
