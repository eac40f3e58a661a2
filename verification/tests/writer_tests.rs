use crispy_m3u::attr_map::AttrMap;
use crispy_m3u::types::{AttrNumber, M3uEntry, M3uHeader, M3uPlaylist};

fn map_of(pairs: &[(&str, &str)]) -> AttrMap {
    let mut map = AttrMap::new();
    for (key, value) in pairs {
        map.insert(key.to_string(), value.to_string());
    }
    map
}

#[test]
fn write_empty_playlist() {
    let playlist = M3uPlaylist::default();
    let output = crispy_m3u::writer::write(&playlist);
    assert_eq!(output, "#EXTM3U");
}

#[test]
fn write_header_with_epg_url() {
    let playlist = M3uPlaylist {
        header: M3uHeader {
            epg_url: Some("http://epg.com/guide.xml".into()),
            ..Default::default()
        },
        entries: vec![],
    };
    let output = crispy_m3u::writer::write(&playlist);
    assert_eq!(output, r#"#EXTM3U x-tvg-url="http://epg.com/guide.xml""#);
}

#[test]
fn write_header_catchup_defaults() {
    let playlist = M3uPlaylist {
        header: M3uHeader {
            catchup: Some("shift".into()),
            catchup_days: Some("7".into()),
            catchup_source: Some("http://example.com/{utc}".into()),
            ..Default::default()
        },
        entries: vec![],
    };

    let output = crispy_m3u::writer::write(&playlist);
    assert_eq!(
        output,
        r#"#EXTM3U catchup="shift" catchup-days="7" catchup-source="http://example.com/{utc}""#
    );
}

#[test]
fn write_single_channel() {
    let playlist = M3uPlaylist {
        header: M3uHeader::default(),
        entries: vec![M3uEntry {
            name: Some("CNN".into()),
            urls: vec!["http://example.com/cnn".into()],
            tvg_id: Some("CNN.us".into()),
            group_title: Some("News".into()),
            duration: Some(AttrNumber::Integer(-1)),
            ..Default::default()
        }],
    };
    let output = crispy_m3u::writer::write(&playlist);
    assert!(output.contains(r#"tvg-id="CNN.us""#));
    assert!(output.contains(r#"group-title="News""#));
    assert!(output.contains(",CNN\n"));
    assert!(output.contains("http://example.com/cnn"));
    assert!(output.contains("#EXTINF:-1"));
}

#[test]
fn write_skips_unidentified_entries_without_url() {
    let playlist = M3uPlaylist {
        header: M3uHeader::default(),
        entries: vec![M3uEntry {
            ..Default::default()
        }],
    };
    let output = crispy_m3u::writer::write(&playlist);
    assert_eq!(output, "#EXTM3U");
}

#[test]
fn write_preserves_identified_entries_without_url() {
    let playlist = M3uPlaylist {
        header: M3uHeader::default(),
        entries: vec![M3uEntry {
            name: Some("No URL".into()),
            tvg_id: Some("no-url".into()),
            extras: map_of(&[("Vendor-Key", "value")]),
            ..Default::default()
        }],
    };
    let output = crispy_m3u::writer::write(&playlist);

    assert!(output.contains(r#"#EXTINF:-1 tvg-id="no-url" Vendor-Key="value",No URL"#));
    assert!(!output.contains("http://"));
}

#[test]
fn write_preserves_extras_only_entries_without_url() {
    let playlist = M3uPlaylist {
        header: M3uHeader::default(),
        entries: vec![M3uEntry {
            extras: map_of(&[("Vendor-Key", "value")]),
            ..Default::default()
        }],
    };
    let output = crispy_m3u::writer::write(&playlist);

    assert_eq!(output, "#EXTM3U\n#EXTINF:-1 Vendor-Key=\"value\",");
}

#[test]
fn write_preserves_known_metadata_only_entries_without_url() {
    let playlist = M3uPlaylist {
        header: M3uHeader::default(),
        entries: vec![M3uEntry {
            group_title: Some("News".into()),
            groups: vec!["News".into()],
            ..Default::default()
        }],
    };
    let output = crispy_m3u::writer::write(&playlist);

    assert_eq!(output, "#EXTM3U\n#EXTINF:-1 group-title=\"News\",");
}

#[test]
fn write_includes_extras() {
    let playlist = M3uPlaylist {
        header: M3uHeader::default(),
        entries: vec![M3uEntry {
            name: Some("Ch".into()),
            urls: vec!["http://example.com/ch".into()],
            duration: Some(AttrNumber::Integer(-1)),
            extras: map_of(&[("custom", "value")]),
            ..Default::default()
        }],
    };
    let output = crispy_m3u::writer::write(&playlist);
    assert!(output.contains(r#"custom="value""#));
}

#[test]
fn write_default_duration_when_none() {
    let playlist = M3uPlaylist {
        header: M3uHeader::default(),
        entries: vec![M3uEntry {
            name: Some("Ch".into()),
            urls: vec!["http://example.com/ch".into()],
            ..Default::default()
        }],
    };
    let output = crispy_m3u::writer::write(&playlist);
    assert!(output.contains("#EXTINF:-1"));
}

#[test]
fn write_preserves_multi_url_and_directive_metadata_on_roundtrip() {
    let playlist = M3uPlaylist {
        header: M3uHeader::default(),
        entries: vec![M3uEntry {
            name: Some("Multi".into()),
            urls: vec![
                "http://example.com/primary".into(),
                "http://example.com/backup".into(),
            ],
            groups: vec!["News".into(), "Local".into()],
            stream_properties: map_of(&[
                ("inputstream.adaptive.manifest_type", "hls"),
                ("inputstream", "inputstream.adaptive"),
            ]),
            vlc_options: map_of(&[("http-user-agent", "VLC/3.0")]),
            web_properties: map_of(&[("web-player", "html5")]),
            ..Default::default()
        }],
    };

    let written = crispy_m3u::writer::write(&playlist);
    assert_eq!(
        written,
        "#EXTM3U\n#EXTINF:-1 group-title=\"News;Local\",Multi\n\
         #KODIPROP:inputstream=inputstream.adaptive\n\
         #KODIPROP:inputstream.adaptive.manifest_type=hls\n\
         #EXTVLCOPT:http-user-agent=VLC/3.0\n\
         #WEBPROP:web-player=html5\n\
         http://example.com/primary\n\
         http://example.com/backup"
    );
}

#[test]
fn write_escapes_attributes_and_roundtrips_original_values() {
    let playlist = M3uPlaylist {
        header: M3uHeader {
            extras: map_of(&[("description", "Header\r\nValue")]),
            ..Default::default()
        },
        entries: vec![M3uEntry {
            name: Some("Escaped".into()),
            urls: vec!["http://example.com/escaped".into()],
            tvg_name: Some("Quoted \"Name\"\nLine".into()),
            extras: map_of(&[("note", "Line 1\n\"Quoted\" \\ path")]),
            ..Default::default()
        }],
    };

    let written = crispy_m3u::writer::write(&playlist);
    assert!(written.contains(r#"description="Header\r\nValue""#));
    assert!(written.contains(r#"tvg-name="Quoted \"Name\"\nLine""#));
    assert!(written.contains(r#"note="Line 1\n\"Quoted\" \\ path""#));
}

#[test]
fn write_orders_map_backed_metadata_deterministically() {
    let playlist = M3uPlaylist {
        header: M3uHeader {
            extras: map_of(&[("z-last", "2"), ("a-first", "1")]),
            ..Default::default()
        },
        entries: vec![M3uEntry {
            name: Some("Ordered".into()),
            urls: vec!["http://example.com/ordered".into()],
            extras: map_of(&[("z-extra", "2"), ("a-extra", "1")]),
            stream_properties: map_of(&[("z-prop", "2"), ("a-prop", "1")]),
            vlc_options: map_of(&[("z-opt", "2"), ("a-opt", "1")]),
            web_properties: map_of(&[("z-web", "2"), ("a-web", "1")]),
            ..Default::default()
        }],
    };

    let written = crispy_m3u::writer::write(&playlist);
    let expected = r#"#EXTM3U a-first="1" z-last="2"
#EXTINF:-1 a-extra="1" z-extra="2",Ordered
#KODIPROP:a-prop=1
#KODIPROP:z-prop=2
#EXTVLCOPT:a-opt=1
#EXTVLCOPT:z-opt=2
#WEBPROP:a-web=1
#WEBPROP:z-web=2
http://example.com/ordered"#;

    assert_eq!(written, expected);
}
