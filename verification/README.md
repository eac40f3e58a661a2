# crispy_m3u

Writes M3U / M3U8 playlists for IPTV workflows and derives stable identifiers
for playlist entries. Every function of the library carries a contract that
Verus proves.

- `src/text.rs`: character and digit helpers (decimal and hex rendering, the
  byte order of strings).
- `src/id.rs`: the DJB2 hash, the base identifier of an entry (`tvg-id`, URL
  hash or name hash) and its playlist-unique form.
- `src/attr_map.rs`: `AttrMap`, a string map with no key twice, and its
  listing in ascending key order.
- `src/types.rs`: the playlist, header and entry types.
- `src/writer.rs`: the text of a playlist as spec functions, the writer, and
  laws about escaping and entry retention.
- `app/lib.rs`: conversions from floating-point durations and EPG shifts.
