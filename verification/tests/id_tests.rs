use std::collections::HashSet;

use crispy_m3u::id::{
    djb2_hash, generate_playlist_unique_id, generate_stable_id, generate_stable_id_base,
    uniquify_stable_id,
};

#[test]
fn djb2_hash_is_consistent() {
    let h1 = djb2_hash("hello");
    let h2 = djb2_hash("hello");
    assert_eq!(h1, h2);
    assert_ne!(djb2_hash("hello"), djb2_hash("world"));
}

#[test]
fn stable_id_prefers_tvg_id() {
    let mut seen = HashSet::new();
    let id = generate_playlist_unique_id(
        Some("CNN.us"),
        Some("http://example.com/cnn"),
        Some("CNN"),
        &mut seen,
    );
    assert_eq!(id, "CNN.us");
}

#[test]
fn stable_id_falls_back_to_url_hash() {
    let mut seen = HashSet::new();
    let id = generate_playlist_unique_id(
        None,
        Some("http://example.com/stream"),
        Some("My Channel"),
        &mut seen,
    );
    assert!(id.starts_with("url_"));
}

#[test]
fn stable_id_falls_back_to_name_hash() {
    let mut seen = HashSet::new();
    let id = generate_playlist_unique_id(None, None, Some("My Channel"), &mut seen);
    assert!(id.starts_with("name_"));
}

#[test]
fn collision_handling_appends_suffix() {
    let mut seen = HashSet::new();
    let id1 = generate_playlist_unique_id(Some("ch1"), None, None, &mut seen);
    let id2 = generate_playlist_unique_id(Some("ch1"), None, None, &mut seen);
    assert_eq!(id1, "ch1");
    assert_eq!(id2, "ch1_1");
}

#[test]
fn collision_with_url_uses_url_hash_suffix() {
    let mut seen = HashSet::new();
    let id1 = generate_playlist_unique_id(
        Some("ESPN"),
        Some("http://example.com/espn1"),
        None,
        &mut seen,
    );
    let id2 = generate_playlist_unique_id(
        Some("ESPN"),
        Some("http://example.com/espn2"),
        None,
        &mut seen,
    );
    assert_eq!(id1, "ESPN");
    assert!(id2.starts_with("ESPN_"));
    assert_ne!(id1, id2);
}

#[test]
fn url_hash_collision_appends_counter() {
    let mut seen = HashSet::new();
    let id1 = generate_playlist_unique_id(None, Some("http://example.com/s"), None, &mut seen);
    let id2 = generate_playlist_unique_id(None, Some("http://example.com/s"), None, &mut seen);
    assert_ne!(id1, id2);
    assert!(id2.starts_with(&format!("{id1}_")));
}

#[test]
fn sanitizes_special_chars_in_tvg_id() {
    let mut seen = HashSet::new();
    let id = generate_playlist_unique_id(Some("ch@1 (HD)"), None, None, &mut seen);
    assert_eq!(id, "ch_1__HD_");
}

#[test]
fn multiple_collisions_increment_counter() {
    let mut seen = HashSet::new();
    let id1 = generate_playlist_unique_id(Some("dup"), None, None, &mut seen);
    let id2 = generate_playlist_unique_id(Some("dup"), None, None, &mut seen);
    let id3 = generate_playlist_unique_id(Some("dup"), None, None, &mut seen);
    assert_eq!(id1, "dup");
    assert_eq!(id2, "dup_1");
    assert_eq!(id3, "dup_2");
}

#[test]
fn stable_id_base_is_order_independent() {
    let a = generate_stable_id_base(Some("CNN.us"), Some("http://example.com/cnn"), Some("CNN"));
    let b = generate_stable_id_base(Some("CNN.us"), Some("http://example.com/cnn"), Some("CNN"));
    assert_eq!(a, b);
    assert_eq!(a, "CNN.us");
}
