use std::collections::HashSet;

use crispy_m3u::attr_map::{sorted_pairs, AttrMap};
use crispy_m3u::id::{djb2_hash, generate_stable_id, generate_stable_id_base, uniquify_stable_id};
use crispy_m3u::text::{chars_of, push_radix, str_less};
use crispy_m3u::types::{AttrNumber, M3uEntry, M3uHeader, M3uPlaylist};
use crispy_m3u::writer::escape_attr_value;

fn map_of(pairs: &[(&str, &str)]) -> AttrMap {
    let mut map = AttrMap::new();
    for (key, value) in pairs {
        map.insert(key.to_string(), value.to_string());
    }
    map
}

#[test]
fn djb2_hash_exact_values() {
    assert_eq!(djb2_hash(""), 5381);
    assert_eq!(djb2_hash("hello"), 261238937);
    assert_eq!(djb2_hash("world"), 279393645);
    // Hashes the UTF-8 bytes, not the characters.
    assert_eq!(djb2_hash("é"), 5866513);
}

#[test]
fn url_and_name_hash_ids_are_exact() {
    assert_eq!(
        generate_stable_id_base(None, Some("http://example.com/s"), None),
        "url_6faafe58"
    );
    assert_eq!(generate_stable_id_base(None, None, Some("My Channel")), "name_23176fa4");
    assert_eq!(generate_stable_id_base(None, None, Some("")), "name_1505");
}

#[test]
fn empty_tvg_id_falls_back_to_url() {
    assert_eq!(
        generate_stable_id_base(Some(""), Some("http://example.com/s"), Some("x")),
        "url_6faafe58"
    );
}

#[test]
fn all_missing_gives_unknown() {
    assert_eq!(generate_stable_id_base(None, None, None), "unknown");
}

#[test]
fn sanitized_id_keeps_allowed_characters() {
    assert_eq!(generate_stable_id_base(Some("a.B_9-z"), None, None), "a.B_9-z");
    assert_eq!(generate_stable_id_base(Some("é ü"), None, None), "___");
}

#[test]
fn seeded_id_collision_gets_counter() {
    let mut seen = HashSet::new();
    seen.insert("ESPN".to_string());
    seen.insert("ESPN_2e760dad".to_string());
    seen.insert("ESPN_2e760dad_1".to_string());
    let id = uniquify_stable_id("ESPN", Some("http://example.com/espn2"), &mut seen);
    assert_eq!(id, "ESPN_2e760dad_2");
    assert!(seen.contains("ESPN_2e760dad_2"));
    assert_eq!(seen.len(), 4);
}

#[test]
fn counter_takes_the_first_free_slot() {
    let mut seen = HashSet::new();
    seen.insert("dup".to_string());
    seen.insert("dup_2".to_string());
    let id = uniquify_stable_id("dup", None, &mut seen);
    assert_eq!(id, "dup_1");
    let id = uniquify_stable_id("dup", None, &mut seen);
    assert_eq!(id, "dup_3");
}

#[test]
fn free_base_is_returned_and_recorded() {
    let mut seen = HashSet::new();
    let id = generate_stable_id(Some("ch"), None, None, &mut seen);
    assert_eq!(id, "ch");
    assert!(seen.contains("ch"));
    assert_eq!(seen.len(), 1);
}

#[test]
fn successive_ids_differ() {
    let mut seen = HashSet::new();
    let mut ids = Vec::new();
    for _ in 0..5 {
        ids.push(generate_stable_id(None, Some("http://example.com/s"), None, &mut seen));
    }
    let distinct: HashSet<&String> = ids.iter().collect();
    assert_eq!(distinct.len(), 5);
    assert_eq!(ids[2], "url_6faafe58_6faafe58_1");
}

#[test]
fn escape_attr_value_exact() {
    assert_eq!(escape_attr_value("a\"b\\c\nd\re\tf"), "a\\\"b\\\\c\\nd\\re\\tf");
    assert_eq!(escape_attr_value("plain é"), "plain é");
    assert_eq!(escape_attr_value(""), "");
}

#[test]
fn attr_map_insert_replaces_value() {
    let mut map = AttrMap::new();
    assert_eq!(map.insert("k".to_string(), "1".to_string()), None);
    assert_eq!(map.insert("j".to_string(), "2".to_string()), None);
    assert_eq!(map.insert("k".to_string(), "3".to_string()), Some("1".to_string()));
    assert_eq!(map.len(), 2);
    assert!(!map.is_empty());
    assert_eq!(sorted_pairs(&map), vec![("j", "2"), ("k", "3")]);
}

#[test]
fn sorted_pairs_follow_byte_order() {
    let map = map_of(&[("b", "1"), ("B", "2"), ("a", "3"), ("ab", "4"), ("é", "5"), ("z", "6")]);
    assert_eq!(
        sorted_pairs(&map),
        vec![("B", "2"), ("a", "3"), ("ab", "4"), ("b", "1"), ("z", "6"), ("é", "5")]
    );
}

#[test]
fn str_less_matches_rust_order() {
    let words = ["", "a", "ab", "b", "B", "é", "z", "aa"];
    for x in words {
        for y in words {
            assert_eq!(str_less(x, y), x < y, "{x:?} < {y:?}");
        }
    }
}

#[test]
fn chars_of_lists_characters() {
    assert_eq!(chars_of("aé€"), vec!['a', 'é', '€']);
}

#[test]
fn radix_rendering_exact() {
    let mut out = String::new();
    push_radix(&mut out, 0, 10);
    out.push(' ');
    push_radix(&mut out, 255, 16);
    out.push(' ');
    push_radix(&mut out, u64::MAX, 10);
    assert_eq!(out, "0 ff 18446744073709551615");
}

#[test]
fn numeric_attributes_and_flags() {
    let playlist = M3uPlaylist {
        header: M3uHeader::default(),
        entries: vec![M3uEntry {
            duration: Some(AttrNumber::Decimal("3600.5".into())),
            is_radio: true,
            tvg_shift: Some(AttrNumber::Integer(-2)),
            is_media: true,
            media_dir: Some("/films".into()),
            media_size: Some(1024),
            provider_name: Some("P".into()),
            urls: vec!["u".into()],
            ..Default::default()
        }],
    };
    assert_eq!(
        crispy_m3u::writer::write(&playlist),
        "#EXTM3U\n#EXTINF:3600.5 radio=\"true\" tvg-shift=\"-2\" media=\"true\" \
         media-dir=\"/films\" media-size=\"1024\" provider-name=\"P\",\nu"
    );
}

#[test]
fn extreme_integer_duration() {
    let playlist = M3uPlaylist {
        header: M3uHeader::default(),
        entries: vec![M3uEntry {
            duration: Some(AttrNumber::Integer(i64::MIN)),
            urls: vec!["u".into()],
            ..Default::default()
        }],
    };
    assert_eq!(crispy_m3u::writer::write(&playlist), "#EXTM3U\n#EXTINF:-9223372036854775808,\nu");
}

#[test]
fn all_known_attributes_in_order() {
    let playlist = M3uPlaylist {
        header: M3uHeader {
            epg_url: Some("e".into()),
            catchup: Some("c".into()),
            catchup_days: Some("d".into()),
            catchup_source: Some("s".into()),
            extras: map_of(&[("x", "y")]),
        },
        entries: vec![M3uEntry {
            name: Some("N".into()),
            tvg_id: Some("1".into()),
            tvg_name: Some("2".into()),
            tvg_language: Some("3".into()),
            tvg_logo: Some("4".into()),
            tvg_rec: Some("5".into()),
            tvg_chno: Some("6".into()),
            group_title: Some("ignored".into()),
            groups: vec!["g1".into(), "g2".into(), "g3".into()],
            tvg_url: Some("7".into()),
            timeshift: Some("8".into()),
            catchup: Some("9".into()),
            catchup_days: Some("10".into()),
            catchup_source: Some("11".into()),
            provider_type: Some("12".into()),
            provider_logo: Some("13".into()),
            provider_countries: Some("14".into()),
            provider_languages: Some("15".into()),
            ..Default::default()
        }],
    };
    assert_eq!(
        crispy_m3u::writer::write(&playlist),
        "#EXTM3U x-tvg-url=\"e\" catchup=\"c\" catchup-days=\"d\" catchup-source=\"s\" x=\"y\"\n\
         #EXTINF:-1 tvg-id=\"1\" tvg-name=\"2\" tvg-language=\"3\" tvg-logo=\"4\" tvg-rec=\"5\" \
         tvg-chno=\"6\" group-title=\"g1;g2;g3\" tvg-url=\"7\" timeshift=\"8\" catchup=\"9\" \
         catchup-days=\"10\" catchup-source=\"11\" provider-type=\"12\" provider-logo=\"13\" \
         provider-countries=\"14\" provider-languages=\"15\",N"
    );
}

#[test]
fn skipped_entries_leave_no_trace() {
    let keep = || M3uEntry { urls: vec!["u".into()], ..Default::default() };
    let with_skipped = M3uPlaylist {
        header: M3uHeader::default(),
        entries: vec![M3uEntry::default(), keep(), M3uEntry::default(), keep()],
    };
    let without = M3uPlaylist { header: M3uHeader::default(), entries: vec![keep(), keep()] };
    assert_eq!(crispy_m3u::writer::write(&with_skipped), crispy_m3u::writer::write(&without));
    assert_eq!(crispy_m3u::writer::write(&without), "#EXTM3U\n#EXTINF:-1,\nu\n#EXTINF:-1,\nu");
}

#[test]
fn should_retain_cases() {
    assert!(!M3uEntry::default().should_retain());
    assert!(M3uEntry { urls: vec!["u".into()], ..Default::default() }.should_retain());
    assert!(M3uEntry { name: Some("n".into()), ..Default::default() }.should_retain());
    assert!(M3uEntry { is_radio: true, ..Default::default() }.should_retain());
    assert!(M3uEntry { vlc_options: map_of(&[("a", "b")]), ..Default::default() }.should_retain());
    assert!(!M3uEntry { duration: Some(AttrNumber::Integer(5)), ..Default::default() }
        .should_retain());
}

#[test]
fn insertion_order_does_not_change_output() {
    let one = M3uPlaylist {
        header: M3uHeader { extras: map_of(&[("b", "2"), ("a", "1"), ("c", "3")]), ..Default::default() },
        entries: vec![],
    };
    let two = M3uPlaylist {
        header: M3uHeader { extras: map_of(&[("c", "3"), ("a", "1"), ("b", "2")]), ..Default::default() },
        entries: vec![],
    };
    assert_eq!(crispy_m3u::writer::write(&one), crispy_m3u::writer::write(&two));
    assert_eq!(crispy_m3u::writer::write(&one), "#EXTM3U a=\"1\" b=\"2\" c=\"3\"");
}
