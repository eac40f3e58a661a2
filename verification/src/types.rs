//! The playlist data that the writer emits: the `#EXTM3U` header and the
//! `#EXTINF` entries with their attributes, directives and URLs.

use vstd::prelude::*;
use crate::attr_map::AttrMap;

verus! {

/// A numeric attribute value, such as an entry's duration or EPG shift.
#[derive(Debug)]
pub enum AttrNumber {
    /// A whole number, written in decimal.
    Integer(i64),
    /// A number with a fractional part, already rendered as text
    /// (for example `3600.5`).
    Decimal(String),
}

/// The `#EXTM3U` header line's attributes.
#[derive(Debug)]
pub struct M3uHeader {
    /// `x-tvg-url`: where the EPG guide is.
    pub epg_url: Option<String>,
    /// `catchup`: the playlist-wide catch-up mode.
    pub catchup: Option<String>,
    /// `catchup-days`.
    pub catchup_days: Option<String>,
    /// `catchup-source`.
    pub catchup_source: Option<String>,
    /// Any other header attributes.
    pub extras: AttrMap,
}

/// One playlist entry: its `#EXTINF` line, the directives after it and its URLs.
#[derive(Debug)]
pub struct M3uEntry {
    /// The display name after the comma of the `#EXTINF` line.
    pub name: Option<String>,
    /// The stream URLs, in order.
    pub urls: Vec<String>,
    /// The `#EXTINF` duration; `-1` is written when absent.
    pub duration: Option<AttrNumber>,
    pub tvg_id: Option<String>,
    pub tvg_name: Option<String>,
    pub tvg_language: Option<String>,
    pub tvg_logo: Option<String>,
    pub tvg_rec: Option<String>,
    pub tvg_chno: Option<String>,
    /// `group-title` as given; `groups`, when not empty, take its place.
    pub group_title: Option<String>,
    /// The groups the entry belongs to, written as one `;`-separated `group-title`.
    pub groups: Vec<String>,
    pub tvg_url: Option<String>,
    pub timeshift: Option<String>,
    pub catchup: Option<String>,
    pub catchup_days: Option<String>,
    pub catchup_source: Option<String>,
    /// Written as `radio="true"`.
    pub is_radio: bool,
    /// `tvg-shift`: the EPG time shift.
    pub tvg_shift: Option<AttrNumber>,
    /// Written as `media="true"`.
    pub is_media: bool,
    pub media_dir: Option<String>,
    pub media_size: Option<u64>,
    pub provider_name: Option<String>,
    pub provider_type: Option<String>,
    pub provider_logo: Option<String>,
    pub provider_countries: Option<String>,
    pub provider_languages: Option<String>,
    /// Any other `#EXTINF` attributes.
    pub extras: AttrMap,
    /// `#KODIPROP:` directives.
    pub stream_properties: AttrMap,
    /// `#EXTVLCOPT:` directives.
    pub vlc_options: AttrMap,
    /// `#WEBPROP:` directives.
    pub web_properties: AttrMap,
}

/// A playlist: its header and its entries, in order.
#[derive(Debug)]
pub struct M3uPlaylist {
    pub header: M3uHeader,
    pub entries: Vec<M3uEntry>,
}

/// The entry carries something the `#EXTINF` line writes besides its
/// duration: a name, an attribute, a group, a flag or a directive.
pub open spec fn has_inline_metadata(e: M3uEntry) -> bool {
    ||| e.name is Some
    ||| e.tvg_id is Some
    ||| e.tvg_name is Some
    ||| e.tvg_language is Some
    ||| e.tvg_logo is Some
    ||| e.tvg_rec is Some
    ||| e.tvg_chno is Some
    ||| e.group_title is Some
    ||| e.groups@.len() > 0
    ||| e.tvg_url is Some
    ||| e.timeshift is Some
    ||| e.catchup is Some
    ||| e.catchup_days is Some
    ||| e.catchup_source is Some
    ||| e.is_radio
    ||| e.tvg_shift is Some
    ||| e.is_media
    ||| e.media_dir is Some
    ||| e.media_size is Some
    ||| e.provider_name is Some
    ||| e.provider_type is Some
    ||| e.provider_logo is Some
    ||| e.provider_countries is Some
    ||| e.provider_languages is Some
    ||| e.extras@.len() > 0
    ||| e.stream_properties@.len() > 0
    ||| e.vlc_options@.len() > 0
    ||| e.web_properties@.len() > 0
}

/// The entry is worth writing: it has a URL or inline metadata.
pub open spec fn retained(e: M3uEntry) -> bool {
    e.urls@.len() > 0 || has_inline_metadata(e)
}

impl M3uEntry {
    /// Whether the entry has a URL or retainable inline metadata.
    pub fn should_retain(&self) -> (keep: bool)
        ensures
            keep == retained(*self),
    {
        self.urls.len() > 0 || self.name.is_some() || self.tvg_id.is_some()
            || self.tvg_name.is_some() || self.tvg_language.is_some() || self.tvg_logo.is_some()
            || self.tvg_rec.is_some() || self.tvg_chno.is_some() || self.group_title.is_some()
            || self.groups.len() > 0 || self.tvg_url.is_some() || self.timeshift.is_some()
            || self.catchup.is_some() || self.catchup_days.is_some()
            || self.catchup_source.is_some() || self.is_radio || self.tvg_shift.is_some()
            || self.is_media || self.media_dir.is_some() || self.media_size.is_some()
            || self.provider_name.is_some() || self.provider_type.is_some()
            || self.provider_logo.is_some() || self.provider_countries.is_some()
            || self.provider_languages.is_some() || !self.extras.is_empty()
            || !self.stream_properties.is_empty() || !self.vlc_options.is_empty()
            || !self.web_properties.is_empty()
    }
}

impl Default for M3uHeader {
    fn default() -> (h: M3uHeader)
        ensures
            h.epg_url is None,
            h.catchup is None,
            h.catchup_days is None,
            h.catchup_source is None,
            h.extras@ == Map::<Seq<char>, Seq<char>>::empty(),
    {
        M3uHeader {
            epg_url: None,
            catchup: None,
            catchup_days: None,
            catchup_source: None,
            extras: AttrMap::new(),
        }
    }
}

impl Default for M3uEntry {
    fn default() -> (e: M3uEntry)
        ensures
            e.urls@.len() == 0,
            e.groups@.len() == 0,
            e.duration is None,
            e.tvg_shift is None,
            e.media_size is None,
            !e.is_radio,
            !e.is_media,
            e.extras@.len() == 0,
            e.stream_properties@.len() == 0,
            e.vlc_options@.len() == 0,
            e.web_properties@.len() == 0,
            !has_inline_metadata(e),
    {
        M3uEntry {
            name: None,
            urls: Vec::new(),
            duration: None,
            tvg_id: None,
            tvg_name: None,
            tvg_language: None,
            tvg_logo: None,
            tvg_rec: None,
            tvg_chno: None,
            group_title: None,
            groups: Vec::new(),
            tvg_url: None,
            timeshift: None,
            catchup: None,
            catchup_days: None,
            catchup_source: None,
            is_radio: false,
            tvg_shift: None,
            is_media: false,
            media_dir: None,
            media_size: None,
            provider_name: None,
            provider_type: None,
            provider_logo: None,
            provider_countries: None,
            provider_languages: None,
            extras: AttrMap::new(),
            stream_properties: AttrMap::new(),
            vlc_options: AttrMap::new(),
            web_properties: AttrMap::new(),
        }
    }
}

impl Default for M3uPlaylist {
    fn default() -> (p: M3uPlaylist)
        ensures
            p.header.epg_url is None,
            p.header.catchup is None,
            p.header.catchup_days is None,
            p.header.catchup_source is None,
            p.header.extras@ == Map::<Seq<char>, Seq<char>>::empty(),
            p.entries@.len() == 0,
    {
        M3uPlaylist { header: M3uHeader::default(), entries: Vec::new() }
    }
}

} // verus!
