//! The M3U playlist writer: the text of a playlist, stated as spec functions
//! over its parts, and the code that builds it.

use vstd::prelude::*;
use crate::attr_map::{AttrMap, Pair, sorted_listing, sorted_pairs, str_pairs};
use crate::text::{decimal_text, push_char, push_radix, radix_digits, string_with_capacity};
use crate::types::{AttrNumber, M3uEntry, M3uHeader, M3uPlaylist, retained};

verus! {

/// How one character of an attribute value is written between the quotes:
/// backslash, double quote, newline, carriage return and tab get a
/// backslash escape; every other character stands for itself.
pub open spec fn escape_char(c: char) -> Seq<char> {
    if c == '\\' {
        seq!['\\', '\\']
    } else if c == '"' {
        seq!['\\', '"']
    } else if c == '\n' {
        seq!['\\', 'n']
    } else if c == '\r' {
        seq!['\\', 'r']
    } else if c == '\t' {
        seq!['\\', 't']
    } else {
        seq![c]
    }
}

/// An attribute value with every character escaped by `escape_char`.
pub open spec fn escape_attr(v: Seq<char>) -> Seq<char>
    decreases v.len(),
{
    if v.len() == 0 {
        Seq::empty()
    } else {
        escape_attr(v.drop_last()) + escape_char(v.last())
    }
}

/// ` key="value"`, the value escaped.
pub open spec fn attr_text(key: Seq<char>, value: Seq<char>) -> Seq<char> {
    seq![' '] + key + seq!['=', '"'] + escape_attr(value) + seq!['"']
}

/// The attribute when it has a value, else nothing.
pub open spec fn opt_attr_text(key: Seq<char>, value: Option<Seq<char>>) -> Seq<char> {
    match value {
        Some(v) => attr_text(key, v),
        None => Seq::empty(),
    }
}

/// ` key="value"` with the value as it is, for numbers.
pub open spec fn raw_attr_text(key: Seq<char>, value: Seq<char>) -> Seq<char> {
    seq![' '] + key + seq!['=', '"'] + value + seq!['"']
}

/// The text of a numeric value.
pub open spec fn number_text(n: AttrNumber) -> Seq<char> {
    match n {
        AttrNumber::Integer(i) => decimal_text(i as int),
        AttrNumber::Decimal(s) => s@,
    }
}

/// The attributes of a listing of pairs, in order.
pub open spec fn attrs_text(pairs: Seq<Pair>) -> Seq<char>
    decreases pairs.len(),
{
    if pairs.len() == 0 {
        Seq::empty()
    } else {
        attrs_text(pairs.drop_last()) + attr_text(pairs.last().0, pairs.last().1)
    }
}

/// A directive line: a newline, the prefix, the key, `=` and the value.
pub open spec fn directive_text(prefix: Seq<char>, key: Seq<char>, value: Seq<char>) -> Seq<char> {
    seq!['\n'] + prefix + key + seq!['='] + value
}

/// The directive lines of a listing of pairs, in order.
pub open spec fn directives_text(prefix: Seq<char>, pairs: Seq<Pair>) -> Seq<char>
    decreases pairs.len(),
{
    if pairs.len() == 0 {
        Seq::empty()
    } else {
        directives_text(prefix, pairs.drop_last()) + directive_text(
            prefix,
            pairs.last().0,
            pairs.last().1,
        )
    }
}

/// The view of an optional string.
pub open spec fn opt_string(o: Option<String>) -> Option<Seq<char>> {
    match o {
        Some(s) => Some(s@),
        None => None,
    }
}

/// The views of a sequence of strings.
pub open spec fn strings(v: Seq<String>) -> Seq<Seq<char>> {
    v.map_values(|s: String| s@)
}

/// Escape an attribute value so that it stays inside its double quotes.
pub fn escape_attr_value(value: &str) -> (escaped: String)
    ensures
        escaped@ == escape_attr(value@),
{
    let chars = crate::text::chars_of(value);
    let mut escaped = string_with_capacity(value.len());
    let mut i: usize = 0;
    while i < chars.len()
        invariant
            i <= chars@.len(),
            chars@ == value@,
            escaped@ == escape_attr(chars@.take(i as int)),
        decreases chars@.len() - i,
    {
        let ch = chars[i];
        if ch == '\\' {
            push_char(&mut escaped, '\\');
            push_char(&mut escaped, '\\');
        } else if ch == '"' {
            push_char(&mut escaped, '\\');
            push_char(&mut escaped, '"');
        } else if ch == '\n' {
            push_char(&mut escaped, '\\');
            push_char(&mut escaped, 'n');
        } else if ch == '\r' {
            push_char(&mut escaped, '\\');
            push_char(&mut escaped, 'r');
        } else if ch == '\t' {
            push_char(&mut escaped, '\\');
            push_char(&mut escaped, 't');
        } else {
            push_char(&mut escaped, ch);
        }
        assert(chars@.take(i + 1).drop_last() =~= chars@.take(i as int));
        assert(escaped@ =~= escape_attr(chars@.take(i as int)) + escape_char(ch));
        i = i + 1;
    }
    assert(chars@.take(i as int) =~= chars@);
    escaped
}

/// Write ` key="value"` to the output.
fn write_attr(out: &mut String, key: &str, value: &str)
    ensures
        final(out)@ == old(out)@ + attr_text(key@, value@),
{
    let escaped = escape_attr_value(value);
    push_char(out, ' ');
    out.append(key);
    push_char(out, '=');
    push_char(out, '"');
    out.append(escaped.as_str());
    push_char(out, '"');
    assert(out@ =~= old(out)@ + attr_text(key@, value@));
}

/// Write an optional attribute only if it has a value.
fn write_optional_attr(out: &mut String, key: &str, value: &Option<String>)
    ensures
        final(out)@ == old(out)@ + opt_attr_text(key@, opt_string(*value)),
{
    if let Some(v) = value {
        write_attr(out, key, v.as_str());
    } else {
        assert(out@ =~= old(out)@ + Seq::<char>::empty());
    }
}

/// Write a newline, the prefix, `key`, `=` and `value`.
fn write_directive(out: &mut String, prefix: &str, key: &str, value: &str)
    ensures
        final(out)@ == old(out)@ + directive_text(prefix@, key@, value@),
{
    push_char(out, '\n');
    out.append(prefix);
    out.append(key);
    push_char(out, '=');
    out.append(value);
    assert(out@ =~= old(out)@ + directive_text(prefix@, key@, value@));
}

/// Write an integer in decimal.
fn write_int(out: &mut String, n: i64)
    ensures
        final(out)@ == old(out)@ + decimal_text(n as int),
{
    if n < 0 {
        push_char(out, '-');
        let magnitude: u64 = (0i128 - n as i128) as u64;
        push_radix(out, magnitude, 10);
        assert(out@ =~= old(out)@ + decimal_text(n as int));
    } else {
        push_radix(out, n as u64, 10);
    }
}

/// Write a numeric value.
fn write_number(out: &mut String, n: &AttrNumber)
    ensures
        final(out)@ == old(out)@ + number_text(*n),
{
    match n {
        AttrNumber::Integer(i) => write_int(out, *i),
        AttrNumber::Decimal(s) => out.append(s.as_str()),
    }
}

/// The parts joined with `sep` between neighbours.
pub open spec fn join(parts: Seq<Seq<char>>, sep: Seq<char>) -> Seq<char>
    decreases parts.len(),
{
    if parts.len() == 0 {
        Seq::empty()
    } else if parts.len() == 1 {
        parts[0]
    } else {
        join(parts.drop_last(), sep) + sep + parts.last()
    }
}

/// The `group-title` written for an entry: its groups joined with `;` when
/// it has any, else its `group_title`.
pub open spec fn group_title_value(e: M3uEntry) -> Option<Seq<char>> {
    if e.groups@.len() > 0 {
        Some(join(strings(e.groups@), seq![';']))
    } else {
        opt_string(e.group_title)
    }
}

/// Each URL on a line of its own.
pub open spec fn urls_text(urls: Seq<Seq<char>>) -> Seq<char>
    decreases urls.len(),
{
    if urls.len() == 0 {
        Seq::empty()
    } else {
        urls_text(urls.drop_last()) + seq!['\n'] + urls.last()
    }
}

/// Write the attributes of `map` in ascending key order.
fn write_attrs(out: &mut String, map: &AttrMap)
    ensures
        final(out)@ == old(out)@ + attrs_text(sorted_listing(map@)),
{
    let pairs = sorted_pairs(map);
    let ghost listing = str_pairs(pairs@);
    let mut i: usize = 0;
    assert(listing.take(0) =~= Seq::<Pair>::empty());
    assert(out@ =~= old(out)@ + attrs_text(listing.take(0)));
    while i < pairs.len()
        invariant
            i <= pairs@.len(),
            listing == str_pairs(pairs@),
            out@ == old(out)@ + attrs_text(listing.take(i as int)),
        decreases pairs@.len() - i,
    {
        let (key, value) = pairs[i];
        write_attr(out, key, value);
        assert(listing.take(i + 1).drop_last() =~= listing.take(i as int));
        assert(out@ =~= old(out)@ + attrs_text(listing.take(i + 1)));
        i = i + 1;
    }
    assert(listing.take(i as int) =~= listing);
}

/// Write the directive lines of `map` in ascending key order.
fn write_directives(out: &mut String, prefix: &str, map: &AttrMap)
    ensures
        final(out)@ == old(out)@ + directives_text(prefix@, sorted_listing(map@)),
{
    let pairs = sorted_pairs(map);
    let ghost listing = str_pairs(pairs@);
    let mut i: usize = 0;
    assert(listing.take(0) =~= Seq::<Pair>::empty());
    assert(out@ =~= old(out)@ + directives_text(prefix@, listing.take(0)));
    while i < pairs.len()
        invariant
            i <= pairs@.len(),
            listing == str_pairs(pairs@),
            out@ == old(out)@ + directives_text(prefix@, listing.take(i as int)),
        decreases pairs@.len() - i,
    {
        let (key, value) = pairs[i];
        write_directive(out, prefix, key, value);
        assert(listing.take(i + 1).drop_last() =~= listing.take(i as int));
        assert(out@ =~= old(out)@ + directives_text(prefix@, listing.take(i + 1)));
        i = i + 1;
    }
    assert(listing.take(i as int) =~= listing);
}

/// Write each URL on a line of its own.
fn write_urls(out: &mut String, urls: &Vec<String>)
    ensures
        final(out)@ == old(out)@ + urls_text(strings(urls@)),
{
    let ghost all = strings(urls@);
    let mut i: usize = 0;
    assert(all.take(0) =~= Seq::<Seq<char>>::empty());
    assert(out@ =~= old(out)@ + urls_text(all.take(0)));
    while i < urls.len()
        invariant
            i <= urls@.len(),
            all == strings(urls@),
            out@ == old(out)@ + urls_text(all.take(i as int)),
        decreases urls@.len() - i,
    {
        push_char(out, '\n');
        out.append(urls[i].as_str());
        assert(all.take(i + 1).drop_last() =~= all.take(i as int));
        assert(out@ =~= old(out)@ + urls_text(all.take(i + 1)));
        i = i + 1;
    }
    assert(all.take(i as int) =~= all);
}

/// The `group-title` to write: the groups joined with `;`, or the given title.
fn normalized_group_title(entry: &M3uEntry) -> (title: Option<String>)
    ensures
        opt_string(title) == group_title_value(*entry),
{
    if entry.groups.len() > 0 {
        let ghost parts = strings(entry.groups@);
        let mut joined = String::from_str(entry.groups[0].as_str());
        let mut i: usize = 1;
        assert(parts.take(1) =~= seq![parts[0]]);
        while i < entry.groups.len()
            invariant
                1 <= i <= entry.groups@.len(),
                parts == strings(entry.groups@),
                joined@ == join(parts.take(i as int), seq![';']),
            decreases entry.groups@.len() - i,
        {
            push_char(&mut joined, ';');
            joined.append(entry.groups[i].as_str());
            assert(parts.take(i + 1).drop_last() =~= parts.take(i as int));
            assert(joined@ =~= join(parts.take(i + 1), seq![';']));
            i = i + 1;
        }
        assert(parts.take(i as int) =~= parts);
        return Some(joined);
    }
    match &entry.group_title {
        Some(t) => Some(t.clone()),
        None => None,
    }
}

/// `key="true"` when the flag is set, else nothing.
pub open spec fn flag_text(key: Seq<char>, on: bool) -> Seq<char> {
    if on {
        attr_text(key, "true"@)
    } else {
        Seq::empty()
    }
}

/// The duration on the `#EXTINF` line: `-1` when there is none.
pub open spec fn duration_text(d: Option<AttrNumber>) -> Seq<char> {
    match d {
        Some(n) => number_text(n),
        None => seq!['-', '1'],
    }
}

/// `tvg-shift` with its number, when there is one.
pub open spec fn shift_text(shift: Option<AttrNumber>) -> Seq<char> {
    match shift {
        Some(n) => raw_attr_text("tvg-shift"@, number_text(n)),
        None => Seq::empty(),
    }
}

/// `media-size` with its number, when there is one.
pub open spec fn media_size_text(size: Option<u64>) -> Seq<char> {
    match size {
        Some(n) => raw_attr_text("media-size"@, radix_digits(n as nat, 10)),
        None => Seq::empty(),
    }
}

/// The EPG and grouping attributes of an `#EXTINF` line, in the order
/// they are written.
pub open spec fn guide_attrs_text(e: M3uEntry) -> Seq<char> {
    opt_attr_text("tvg-id"@, opt_string(e.tvg_id))
        + opt_attr_text("tvg-name"@, opt_string(e.tvg_name))
        + opt_attr_text("tvg-language"@, opt_string(e.tvg_language))
        + opt_attr_text("tvg-logo"@, opt_string(e.tvg_logo))
        + opt_attr_text("tvg-rec"@, opt_string(e.tvg_rec))
        + opt_attr_text("tvg-chno"@, opt_string(e.tvg_chno))
        + opt_attr_text("group-title"@, group_title_value(e))
        + opt_attr_text("tvg-url"@, opt_string(e.tvg_url))
        + opt_attr_text("timeshift"@, opt_string(e.timeshift))
        + opt_attr_text("catchup"@, opt_string(e.catchup))
        + opt_attr_text("catchup-days"@, opt_string(e.catchup_days))
        + opt_attr_text("catchup-source"@, opt_string(e.catchup_source))
}

/// The flag and media attributes of an `#EXTINF` line, in the order they
/// are written.
pub open spec fn media_attrs_text(e: M3uEntry) -> Seq<char> {
    flag_text("radio"@, e.is_radio)
        + shift_text(e.tvg_shift)
        + flag_text("media"@, e.is_media)
        + opt_attr_text("media-dir"@, opt_string(e.media_dir))
        + media_size_text(e.media_size)
}

/// The provider attributes of an `#EXTINF` line, in the order they are
/// written.
pub open spec fn provider_attrs_text(e: M3uEntry) -> Seq<char> {
    opt_attr_text("provider-name"@, opt_string(e.provider_name))
        + opt_attr_text("provider-type"@, opt_string(e.provider_type))
        + opt_attr_text("provider-logo"@, opt_string(e.provider_logo))
        + opt_attr_text("provider-countries"@, opt_string(e.provider_countries))
        + opt_attr_text("provider-languages"@, opt_string(e.provider_languages))
}

/// The name after the comma: the entry's name, or nothing.
pub open spec fn name_text(name: Option<String>) -> Seq<char> {
    match name {
        Some(n) => n@,
        None => Seq::empty(),
    }
}

/// The `#EXTINF` line of an entry, with the newline before it.
pub open spec fn extinf_text(e: M3uEntry) -> Seq<char> {
    "\n#EXTINF:"@ + duration_text(e.duration) + guide_attrs_text(e) + media_attrs_text(e)
        + provider_attrs_text(e) + attrs_text(sorted_listing(e.extras@)) + seq![','] + name_text(e.name)
}

/// An entry as written: its `#EXTINF` line with the duration, the known
/// attributes, the extra attributes in key order, a comma and the name;
/// then its `#KODIPROP:`, `#EXTVLCOPT:` and `#WEBPROP:` directives, each
/// group in key order; then its URLs.
pub open spec fn entry_text(e: M3uEntry) -> Seq<char> {
    extinf_text(e) + directives_text("#KODIPROP:"@, sorted_listing(e.stream_properties@))
        + directives_text("#EXTVLCOPT:"@, sorted_listing(e.vlc_options@))
        + directives_text("#WEBPROP:"@, sorted_listing(e.web_properties@))
        + urls_text(strings(e.urls@))
}

/// Write the EPG and grouping attributes of an entry.
fn write_guide_attrs(out: &mut String, entry: &M3uEntry)
    ensures
        final(out)@ == old(out)@ + guide_attrs_text(*entry),
{
    write_optional_attr(out, "tvg-id", &entry.tvg_id);
    write_optional_attr(out, "tvg-name", &entry.tvg_name);
    write_optional_attr(out, "tvg-language", &entry.tvg_language);
    write_optional_attr(out, "tvg-logo", &entry.tvg_logo);
    write_optional_attr(out, "tvg-rec", &entry.tvg_rec);
    write_optional_attr(out, "tvg-chno", &entry.tvg_chno);
    let group_title = normalized_group_title(entry);
    write_optional_attr(out, "group-title", &group_title);
    write_optional_attr(out, "tvg-url", &entry.tvg_url);
    write_optional_attr(out, "timeshift", &entry.timeshift);
    write_optional_attr(out, "catchup", &entry.catchup);
    write_optional_attr(out, "catchup-days", &entry.catchup_days);
    write_optional_attr(out, "catchup-source", &entry.catchup_source);
    assert(out@ =~= old(out)@ + guide_attrs_text(*entry));
}

/// Write the `tvg-shift` attribute, when there is a shift.
fn write_shift(out: &mut String, shift: &Option<AttrNumber>)
    ensures
        final(out)@ == old(out)@ + shift_text(*shift),
{
    if let Some(shift) = shift {
        push_char(out, ' ');
        out.append("tvg-shift");
        push_char(out, '=');
        push_char(out, '"');
        write_number(out, shift);
        push_char(out, '"');
    }
    assert(out@ =~= old(out)@ + shift_text(*shift));
}

/// Write the `media-size` attribute, when there is a size.
fn write_media_size(out: &mut String, size: Option<u64>)
    ensures
        final(out)@ == old(out)@ + media_size_text(size),
{
    if let Some(size) = size {
        push_char(out, ' ');
        out.append("media-size");
        push_char(out, '=');
        push_char(out, '"');
        push_radix(out, size, 10);
        push_char(out, '"');
    }
    assert(out@ =~= old(out)@ + media_size_text(size));
}

/// Write an attribute with the value `true` when the flag is set.
fn write_flag(out: &mut String, key: &str, on: bool)
    ensures
        final(out)@ == old(out)@ + flag_text(key@, on),
{
    if on {
        write_attr(out, key, "true");
    } else {
        assert(out@ =~= old(out)@ + flag_text(key@, on));
    }
}

/// Write the flag and media attributes of an entry.
fn write_media_attrs(out: &mut String, entry: &M3uEntry)
    ensures
        final(out)@ == old(out)@ + media_attrs_text(*entry),
{
    // Radio flag.
    write_flag(out, "radio", entry.is_radio);
    // EPG time shift.
    write_shift(out, &entry.tvg_shift);
    // VOD/media attributes.
    write_flag(out, "media", entry.is_media);
    write_optional_attr(out, "media-dir", &entry.media_dir);
    write_media_size(out, entry.media_size);
    assert(out@ =~= old(out)@ + media_attrs_text(*entry));
}

/// Write the provider attributes of an entry.
fn write_provider_attrs(out: &mut String, entry: &M3uEntry)
    ensures
        final(out)@ == old(out)@ + provider_attrs_text(*entry),
{
    write_optional_attr(out, "provider-name", &entry.provider_name);
    write_optional_attr(out, "provider-type", &entry.provider_type);
    write_optional_attr(out, "provider-logo", &entry.provider_logo);
    write_optional_attr(out, "provider-countries", &entry.provider_countries);
    write_optional_attr(out, "provider-languages", &entry.provider_languages);
    assert(out@ =~= old(out)@ + provider_attrs_text(*entry));
}

/// Write the duration of an `#EXTINF` line.
fn write_duration(out: &mut String, duration: &Option<AttrNumber>)
    ensures
        final(out)@ == old(out)@ + duration_text(*duration),
{
    match duration {
        Some(d) => write_number(out, d),
        None => {
            push_char(out, '-');
            push_char(out, '1');
            assert(out@ =~= old(out)@ + duration_text(*duration));
        },
    }
}

/// Write the comma and the entry's name.
fn write_name(out: &mut String, name: &Option<String>)
    ensures
        final(out)@ == old(out)@ + seq![','] + name_text(*name),
{
    push_char(out, ',');
    if let Some(name) = name {
        out.append(name.as_str());
    } else {
        assert(out@ =~= old(out)@ + seq![','] + name_text(None));
    }
}

/// Write the `#EXTINF` line of an entry.
fn write_extinf(out: &mut String, entry: &M3uEntry)
    ensures
        final(out)@ == old(out)@ + extinf_text(*entry),
{
    let ghost o = out@;
    out.append("\n#EXTINF:");
    // Duration (default -1 for live).
    write_duration(out, &entry.duration);
    let ghost p1 = out@;
    write_guide_attrs(out, entry);
    let ghost p2 = out@;
    write_media_attrs(out, entry);
    let ghost p3 = out@;
    // Provider attributes.
    write_provider_attrs(out, entry);
    let ghost p4 = out@;
    // Extra attributes.
    write_attrs(out, &entry.extras);
    let ghost p5 = out@;
    // Comma + channel name.
    write_name(out, &entry.name);
    proof {
        let e = *entry;
        let d = "\n#EXTINF:"@ + duration_text(e.duration);
        let g = guide_attrs_text(e);
        let m = media_attrs_text(e);
        let v = provider_attrs_text(e);
        let x = attrs_text(sorted_listing(e.extras@));
        let n = seq![','] + name_text(e.name);
        vstd::seq_lib::lemma_concat_associative(o, "\n#EXTINF:"@, duration_text(e.duration));
        vstd::seq_lib::lemma_concat_associative(o, d, g);
        vstd::seq_lib::lemma_concat_associative(o, d + g, m);
        vstd::seq_lib::lemma_concat_associative(o, d + g + m, v);
        vstd::seq_lib::lemma_concat_associative(o, d + g + m + v, x);
        vstd::seq_lib::lemma_concat_associative(o, d + g + m + v + x, seq![',']);
        vstd::seq_lib::lemma_concat_associative(o, d + g + m + v + x + seq![','], name_text(e.name));
    }
}

/// Write one entry: its `#EXTINF` line, its directives and its URLs.
fn write_entry(out: &mut String, entry: &M3uEntry)
    ensures
        final(out)@ == old(out)@ + entry_text(*entry),
{
    write_extinf(out, entry);
    write_directives(out, "#KODIPROP:", &entry.stream_properties);
    write_directives(out, "#EXTVLCOPT:", &entry.vlc_options);
    // Web properties (as #WEBPROP: lines).
    write_directives(out, "#WEBPROP:", &entry.web_properties);
    write_urls(out, &entry.urls);
    assert(out@ =~= old(out)@ + entry_text(*entry));
}

/// The header line: `#EXTM3U`, then `x-tvg-url`, `catchup`,
/// `catchup-days` and `catchup-source` where present, then the extra header
/// attributes in key order.
pub open spec fn header_text(h: M3uHeader) -> Seq<char> {
    "#EXTM3U"@ + opt_attr_text("x-tvg-url"@, opt_string(h.epg_url)) + opt_attr_text(
        "catchup"@,
        opt_string(h.catchup),
    ) + opt_attr_text("catchup-days"@, opt_string(h.catchup_days)) + opt_attr_text(
        "catchup-source"@,
        opt_string(h.catchup_source),
    ) + attrs_text(sorted_listing(h.extras@))
}

/// The text of an entry in a playlist: the entry when it is retained, else
/// nothing.
pub open spec fn kept_entry_text(e: M3uEntry) -> Seq<char> {
    if retained(e) {
        entry_text(e)
    } else {
        Seq::empty()
    }
}

/// The retained entries, in order.
pub open spec fn entries_text(entries: Seq<M3uEntry>) -> Seq<char>
    decreases entries.len(),
{
    if entries.len() == 0 {
        Seq::empty()
    } else {
        entries_text(entries.drop_last()) + kept_entry_text(entries.last())
    }
}

/// The M3U text of a playlist: its header line, then its retained entries.
pub open spec fn playlist_text(p: M3uPlaylist) -> Seq<char> {
    header_text(p.header) + entries_text(p.entries@)
}

/// Write the header line.
fn write_header(out: &mut String, header: &M3uHeader)
    ensures
        final(out)@ == old(out)@ + header_text(*header),
{
    let ghost o = out@;
    // Header line.
    out.append("#EXTM3U");
    // EPG URL header attribute.
    write_optional_attr(out, "x-tvg-url", &header.epg_url);
    write_optional_attr(out, "catchup", &header.catchup);
    write_optional_attr(out, "catchup-days", &header.catchup_days);
    write_optional_attr(out, "catchup-source", &header.catchup_source);
    // Extra header attributes.
    write_attrs(out, &header.extras);
    assert(out@ =~= o + header_text(*header));
}

/// Rough capacity estimate to minimize reallocations: about 200 bytes per
/// entry and 128 for the header, or the largest size when that overflows.
fn estimate_capacity(playlist: &M3uPlaylist) -> (capacity: usize)
    ensures
        capacity == if 200 * playlist.entries@.len() + 128 <= usize::MAX {
            200 * playlist.entries@.len() + 128
        } else {
            usize::MAX as nat
        },
{
    let n = playlist.entries.len();
    if n <= (usize::MAX - 128) / 200 {
        200 * n + 128
    } else {
        usize::MAX
    }
}

/// Write an `M3uPlaylist` to a valid M3U string.
pub fn write(playlist: &M3uPlaylist) -> (text: String)
    ensures
        text@ == playlist_text(*playlist),
{
    let mut out = string_with_capacity(estimate_capacity(playlist));
    write_header(&mut out, &playlist.header);
    let ghost head = out@;
    let ghost entries = playlist.entries@;
    let mut i: usize = 0;
    assert(entries.take(0) =~= Seq::<M3uEntry>::empty());
    assert(out@ =~= head + entries_text(entries.take(0)));
    // Channel entries.
    while i < playlist.entries.len()
        invariant
            i <= entries.len(),
            entries == playlist.entries@,
            out@ == head + entries_text(entries.take(i as int)),
        decreases entries.len() - i,
    {
        let entry = &playlist.entries[i];
        // Skip entries that have neither a URL nor retainable inline metadata.
        if entry.should_retain() {
            write_entry(&mut out, entry);
        }
        assert(entries.take(i + 1).drop_last() =~= entries.take(i as int));
        proof {
            vstd::seq_lib::lemma_concat_associative(
                head,
                entries_text(entries.take(i as int)),
                kept_entry_text(entries[i as int]),
            );
        }
        i = i + 1;
    }
    assert(entries.take(i as int) =~= entries);
    out
}

/// The character a backslash escape stands for.
pub open spec fn unescape_char(c: char) -> char {
    if c == 'n' {
        '\n'
    } else if c == 'r' {
        '\r'
    } else if c == 't' {
        '\t'
    } else {
        c
    }
}

/// Reads a quoted attribute value that starts right after its opening
/// quote: backslash escapes stand for their characters, and the first bare
/// double quote ends the value. Gives the value and the text after that
/// quote, or nothing when no quote ends it.
pub open spec fn read_quoted(s: Seq<char>) -> Option<(Seq<char>, Seq<char>)>
    decreases s.len(),
{
    if s.len() == 0 {
        None
    } else if s[0] == '"' {
        Some((Seq::empty(), s.drop_first()))
    } else if s[0] == '\\' && s.len() >= 2 {
        match read_quoted(s.skip(2)) {
            Some((v, r)) => Some((seq![unescape_char(s[1])] + v, r)),
            None => None,
        }
    } else {
        match read_quoted(s.drop_first()) {
            Some((v, r)) => Some((seq![s[0]] + v, r)),
            None => None,
        }
    }
}

/// Escaping distributes over concatenation.
pub proof fn lemma_escape_attr_concat(a: Seq<char>, b: Seq<char>)
    ensures
        escape_attr(a + b) == escape_attr(a) + escape_attr(b),
    decreases b.len(),
{
    if b.len() == 0 {
        assert(a + b =~= a);
    } else {
        lemma_escape_attr_concat(a, b.drop_last());
        assert((a + b).drop_last() =~= a + b.drop_last());
        assert(escape_attr(a + b) =~= escape_attr(a) + escape_attr(b));
    }
}

/// An escaped value, followed by the closing quote, reads back as the value,
/// and reading stops right after that quote: the writer's attribute values
/// round-trip.
pub proof fn lemma_escaped_value_reads_back(v: Seq<char>, rest: Seq<char>)
    ensures
        read_quoted(escape_attr(v) + seq!['"'] + rest) == Some((v, rest)),
    decreases v.len(),
{
    if v.len() == 0 {
        let s = escape_attr(v) + seq!['"'] + rest;
        assert(s.drop_first() =~= rest);
    } else {
        let c = v[0];
        let tail = v.drop_first();
        assert(v =~= seq![c] + tail);
        lemma_escape_attr_concat(seq![c], tail);
        assert(escape_attr(seq![c]) =~= escape_char(c)) by {
            assert(seq![c].drop_last() =~= Seq::<char>::empty());
            assert(escape_attr(seq![c].drop_last()) =~= Seq::<char>::empty());
            assert(seq![c].last() == c);
            assert(escape_attr(seq![c]) == escape_attr(seq![c].drop_last()) + escape_char(c));
        }
        lemma_escaped_value_reads_back(tail, rest);
        let after = escape_attr(tail) + seq!['"'] + rest;
        let s = escape_attr(v) + seq!['"'] + rest;
        assert(s =~= escape_char(c) + after);
        if escape_char(c).len() == 2 {
            assert(s.skip(2) =~= after);
            assert(seq![unescape_char(s[1])] + tail =~= v);
        } else {
            assert(s.drop_first() =~= after);
            assert(seq![s[0]] + tail =~= v);
        }
    }
}

/// An escaped value holds no line break, so each attribute stays on its line.
pub proof fn lemma_escaped_value_one_line(v: Seq<char>)
    ensures
        forall|i: int|
            0 <= i < escape_attr(v).len() ==> #[trigger] escape_attr(v)[i] != '\n'
                && escape_attr(v)[i] != '\r',
    decreases v.len(),
{
    if v.len() > 0 {
        lemma_escaped_value_one_line(v.drop_last());
        let e = escape_attr(v);
        let p = escape_attr(v.drop_last());
        assert forall|i: int| 0 <= i < e.len() implies #[trigger] e[i] != '\n' && e[i] != '\r' by {
            if i >= p.len() {
                assert(e[i] == escape_char(v.last())[i - p.len()]);
            } else {
                assert(e[i] == p[i]);
            }
        }
    }
}

/// Every playlist text starts with the `#EXTM3U` header tag.
pub proof fn lemma_playlist_starts_with_tag(p: M3uPlaylist)
    ensures
        "#EXTM3U"@.is_prefix_of(playlist_text(p)),
{
    let t = playlist_text(p);
    assert(t.subrange(0, "#EXTM3U"@.len() as int) =~= "#EXTM3U"@);
}

/// Entries that are not retained leave no trace: the text of the entries is
/// that of the retained ones alone.
pub proof fn lemma_only_retained_entries_written(entries: Seq<M3uEntry>)
    ensures
        entries_text(entries) == entries_text(entries.filter(|e: M3uEntry| retained(e))),
    decreases entries.len(),
{
    reveal_with_fuel(Seq::filter, 1);
    if entries.len() > 0 {
        let pred = |e: M3uEntry| retained(e);
        lemma_only_retained_entries_written(entries.drop_last());
        let sub = entries.drop_last().filter(pred);
        if retained(entries.last()) {
            assert(sub.push(entries.last()).drop_last() =~= sub);
        } else {
            assert(entries_text(entries) =~= entries_text(entries.drop_last()));
        }
    }
}

/// Escaping changes only backslash, double quote, newline, carriage return
/// and tab, each into a backslash and a letter or itself; every other
/// character, and so every value without those five, is written as it is.
pub proof fn lemma_escape_changes_only_specials(c: char, v: Seq<char>)
    ensures
        escape_char('\\') == seq!['\\', '\\'],
        escape_char('"') == seq!['\\', '"'],
        escape_char('\n') == seq!['\\', 'n'],
        escape_char('\r') == seq!['\\', 'r'],
        escape_char('\t') == seq!['\\', 't'],
        c != '\\' && c != '"' && c != '\n' && c != '\r' && c != '\t' ==> escape_char(c) == seq![c],
        (forall|i: int|
            0 <= i < v.len() ==> #[trigger] v[i] != '\\' && v[i] != '"' && v[i] != '\n' && v[i]
                != '\r' && v[i] != '\t') ==> escape_attr(v) == v,
    decreases v.len(),
{
    if v.len() > 0 {
        lemma_escape_changes_only_specials(v.last(), v.drop_last());
        if forall|i: int|
            0 <= i < v.len() ==> #[trigger] v[i] != '\\' && v[i] != '"' && v[i] != '\n' && v[i]
                != '\r' && v[i] != '\t' {
            assert(v.last() == v[v.len() - 1]);
            assert forall|i: int| 0 <= i < v.drop_last().len() implies #[trigger] v.drop_last()[i]
                != '\\' && v.drop_last()[i] != '"' && v.drop_last()[i] != '\n' && v.drop_last()[i]
                != '\r' && v.drop_last()[i] != '\t' by {
                assert(v.drop_last()[i] == v[i]);
            }
            assert(escape_attr(v) =~= v);
        }
    } else {
        assert(escape_attr(v) =~= v);
    }
}

/// The `;`-joined text of parts starts with the first part and ends with
/// the last, and is the single part itself when there is one.
pub proof fn lemma_join_ends(parts: Seq<Seq<char>>)
    requires
        parts.len() >= 1,
    ensures
        parts.len() == 1 ==> join(parts, seq![';']) == parts[0],
        parts[0].is_prefix_of(join(parts, seq![';'])),
        parts.last().is_suffix_of(join(parts, seq![';'])),
        parts.len() >= 2 ==> join(parts, seq![';'])[parts[0].len() as int] == ';',
    decreases parts.len(),
{
    let j = join(parts, seq![';']);
    if parts.len() == 1 {
        assert(j.subrange(0, parts[0].len() as int) =~= parts[0]);
        assert(j.subrange(0, j.len() as int) =~= j);
    } else {
        let r = parts.drop_last();
        lemma_join_ends(r);
        let jr = join(r, seq![';']);
        assert(j == jr + seq![';'] + parts.last());
        assert(r[0] == parts[0]);
        assert(j.subrange(0, parts[0].len() as int) =~= jr.subrange(0, parts[0].len() as int));
        assert(j.subrange(j.len() - parts.last().len(), j.len() as int) =~= parts.last());
        if r.len() == 1 {
            assert(jr == parts[0]);
            assert(j[parts[0].len() as int] == ';');
        } else {
            assert(j[parts[0].len() as int] == jr[parts[0].len() as int]);
        }
    }
}

/// The `group-title` written for an entry comes from its groups whenever it
/// has any: a single group is written as it is, several are joined with
/// `;` (starting with the first and ending with the last), and the given
/// title counts only when there are no groups.
pub proof fn lemma_group_title_from_groups(e: M3uEntry, f: M3uEntry)
    ensures
        e.groups@.len() == 0 ==> group_title_value(e) == opt_string(e.group_title),
        e.groups@.len() == 1 ==> group_title_value(e) == Some(e.groups@[0]@),
        e.groups@.len() >= 1 ==> group_title_value(e) is Some,
        e.groups@.len() >= 1 ==> e.groups@[0]@.is_prefix_of(group_title_value(e)->0),
        e.groups@.len() >= 1 ==> e.groups@.last()@.is_suffix_of(group_title_value(e)->0),
        e.groups@.len() >= 2 ==> group_title_value(e)->0[e.groups@[0]@.len() as int] == ';',
        e.groups@.len() >= 1 && strings(e.groups@) == strings(f.groups@) ==> group_title_value(e)
            == group_title_value(f),
{
    if e.groups@.len() >= 1 {
        let parts = strings(e.groups@);
        lemma_join_ends(parts);
        assert(parts[0] == e.groups@[0]@);
        assert(parts.last() == e.groups@.last()@);
    }
}

/// `piece` occurs somewhere in `text`.
pub open spec fn occurs_in(piece: Seq<char>, text: Seq<char>) -> bool {
    exists|i: int|
        0 <= i && i + piece.len() <= text.len() && #[trigger] text.subrange(i, i + piece.len())
            == piece
}

/// Text that occurs in a text occurs in it with more text after it.
pub proof fn lemma_occurs_append(piece: Seq<char>, x: Seq<char>, y: Seq<char>)
    requires
        occurs_in(piece, x),
    ensures
        occurs_in(piece, x + y),
{
    let i = choose|i: int|
        0 <= i && i + piece.len() <= x.len() && #[trigger] x.subrange(i, i + piece.len()) == piece;
    assert((x + y).subrange(i, i + piece.len()) =~= x.subrange(i, i + piece.len()));
}

/// Text that occurs in a text occurs in it with more text before it.
pub proof fn lemma_occurs_prepend(piece: Seq<char>, x: Seq<char>, y: Seq<char>)
    requires
        occurs_in(piece, y),
    ensures
        occurs_in(piece, x + y),
{
    let i = choose|i: int|
        0 <= i && i + piece.len() <= y.len() && #[trigger] y.subrange(i, i + piece.len()) == piece;
    let k = x.len() + i;
    assert((x + y).subrange(k, k + piece.len()) =~= y.subrange(i, i + piece.len()));
}

/// Whenever an entry has an EPG shift, of either kind, its text holds
/// ` tvg-shift="`, the shift's text and a closing quote.
pub proof fn lemma_shift_written(e: M3uEntry, n: AttrNumber)
    requires
        e.tvg_shift == Some(n),
    ensures
        occurs_in(
            seq![' ', 't', 'v', 'g', '-', 's', 'h', 'i', 'f', 't', '=', '"'] + match n {
                AttrNumber::Integer(i) => decimal_text(i as int),
                AttrNumber::Decimal(d) => d@,
            } + seq!['"'],
            entry_text(e),
        ),
{
    reveal_strlit("tvg-shift");
    let num = match n {
        AttrNumber::Integer(i) => decimal_text(i as int),
        AttrNumber::Decimal(d) => d@,
    };
    let piece = seq![' ', 't', 'v', 'g', '-', 's', 'h', 'i', 'f', 't', '=', '"'] + num + seq!['"'];
    let st = shift_text(e.tvg_shift);
    assert(st =~= piece);
    let z: int = 0;
    assert(st.subrange(z, z + piece.len()) =~= piece);
    assert(occurs_in(piece, st));
    // Within the media attributes.
    let radio = flag_text("radio"@, e.is_radio);
    lemma_occurs_prepend(piece, radio, st);
    let m1 = radio + st;
    let m2 = m1 + flag_text("media"@, e.is_media);
    lemma_occurs_append(piece, m1, flag_text("media"@, e.is_media));
    let m3 = m2 + opt_attr_text("media-dir"@, opt_string(e.media_dir));
    lemma_occurs_append(piece, m2, opt_attr_text("media-dir"@, opt_string(e.media_dir)));
    lemma_occurs_append(piece, m3, media_size_text(e.media_size));
    assert(occurs_in(piece, media_attrs_text(e)));
    // Within the #EXTINF line.
    let x0 = "\n#EXTINF:"@ + duration_text(e.duration) + guide_attrs_text(e);
    lemma_occurs_prepend(piece, x0, media_attrs_text(e));
    let x1 = x0 + media_attrs_text(e);
    lemma_occurs_append(piece, x1, provider_attrs_text(e));
    let x2 = x1 + provider_attrs_text(e);
    lemma_occurs_append(piece, x2, attrs_text(sorted_listing(e.extras@)));
    let x3 = x2 + attrs_text(sorted_listing(e.extras@));
    lemma_occurs_append(piece, x3, seq![',']);
    let x4 = x3 + seq![','];
    lemma_occurs_append(piece, x4, name_text(e.name));
    assert(occurs_in(piece, extinf_text(e)));
    // Within the entry.
    let d1 = directives_text("#KODIPROP:"@, sorted_listing(e.stream_properties@));
    let d2 = directives_text("#EXTVLCOPT:"@, sorted_listing(e.vlc_options@));
    let d3 = directives_text("#WEBPROP:"@, sorted_listing(e.web_properties@));
    let u = urls_text(strings(e.urls@));
    let y0 = extinf_text(e);
    lemma_occurs_append(piece, y0, d1);
    lemma_occurs_append(piece, y0 + d1, d2);
    lemma_occurs_append(piece, y0 + d1 + d2, d3);
    lemma_occurs_append(piece, y0 + d1 + d2 + d3, u);
}

} // verus!
