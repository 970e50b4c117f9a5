use duckwatch::storage::{
    append_chunk, append_to_favourites, append_to_playlist, cache_add_favourite, cache_remove_favourite,
    check_favourites, ensure_sd_ready, entry_name, eq_ignore_ascii_case, file_size, find_dir_name,
    flush_favourites_cache, generate_playlist, load_favourites_cache, parse_playlist_entries, path_components,
    push_decimal_u64, remove_from_playlist, render_playlist, search_song, search_top_n, split_path,
    to_short_filename, DirEntryInfo, PlaylistEntry, SdError,
};

fn b(s: &str) -> Vec<u8> {
    s.as_bytes().to_vec()
}

fn names(v: &[&str]) -> Vec<Vec<u8>> {
    v.iter().map(|s| b(s)).collect()
}

#[test]
fn card_must_be_mounted_to_be_used() {
    assert!(ensure_sd_ready(true).is_ok());
    assert!(ensure_sd_ready(false) == Err(SdError::NotInitialized));
}

#[test]
fn reading_a_file_stops_past_the_size_limit() {
    let mut buf = vec![1u8; 3_999_999];
    assert!(append_chunk(&mut buf, &[2]).is_ok());
    assert_eq!(buf.len(), 4_000_000);
    assert!(append_chunk(&mut buf, &[3]) == Err(SdError::File));
    assert_eq!(buf.len(), 4_000_001);
}

#[test]
fn paths_split_into_directory_and_name() {
    assert_eq!(split_path(b"/music//rock/song.mp3"), (b("music/rock"), b("song.mp3")));
    assert_eq!(split_path(b"song.mp3"), (b(""), b("song.mp3")));
    assert_eq!(split_path(b"/a/b/"), (b("a"), b("b")));
    assert_eq!(split_path(b""), (b(""), b("")));
}

#[test]
fn long_names_are_cut_to_eight_dot_three() {
    assert_eq!(to_short_filename(b"verylongname.jpeg"), b("verylong.jpe"));
    assert_eq!(to_short_filename(b"a.b.mp3"), b("a.b.mp3"));
    assert_eq!(to_short_filename(b"readme"), b("readme"));
    assert_eq!(to_short_filename(b"archive."), b("archive"));
}

#[test]
fn decimal_numbers_are_appended() {
    let mut out = b("n=");
    push_decimal_u64(&mut out, 0);
    push_decimal_u64(&mut out, 18_446_744_073_709_551_615);
    assert_eq!(String::from_utf8(out).unwrap(), "n=018446744073709551615");
}

#[test]
fn playlists_parse_and_render() {
    let text = b"#EXTM3U\r\n#EXTINF:-1,One\n/music/one.mp3\n\n/music/two.mp3\n#EXTINF:-1,dangling";
    let entries = parse_playlist_entries(text);
    assert_eq!(entries.len(), 2);
    assert_eq!(entries[0].tag.as_deref(), Some(&b"#EXTINF:-1,One"[..]));
    assert_eq!(entries[0].path, b("/music/one.mp3"));
    assert!(entries[1].tag.is_none());
    assert_eq!(entries[1].path, b("/music/two.mp3"));
    let rendered = render_playlist(&entries);
    assert_eq!(
        String::from_utf8(rendered.clone()).unwrap(),
        "#EXTM3U\n#EXTINF:-1,One\n/music/one.mp3\n/music/two.mp3\n"
    );
    let again = parse_playlist_entries(&rendered);
    assert_eq!(render_playlist(&again), rendered);
}

#[test]
fn playlist_editing() {
    let mut entries: Vec<PlaylistEntry> = Vec::new();
    append_to_playlist(&mut entries, b"a.mp3");
    append_to_playlist(&mut entries, b"b.mp3");
    append_to_playlist(&mut entries, b"a.mp3");
    assert_eq!(entries.len(), 3);
    assert_eq!(entries[0].tag.as_deref(), Some(&b"#EXTINF:-1,a.mp3"[..]));
    let kept = remove_from_playlist(&entries, b"a.mp3");
    assert_eq!(kept.len(), 1);
    assert_eq!(kept[0].path, b("b.mp3"));
}

#[test]
fn favourites_hold_each_song_once() {
    let mut entries: Vec<PlaylistEntry> = Vec::new();
    assert!(append_to_favourites(&mut entries, b"x.mp3"));
    assert!(!append_to_favourites(&mut entries, b"x.mp3"));
    assert_eq!(entries.len(), 1);
    let cache = load_favourites_cache(&entries);
    assert_eq!(cache, names(&["x.mp3"]));
    assert!(check_favourites(&cache, b"x.mp3"));
    assert!(!check_favourites(&cache, b"y.mp3"));
}

#[test]
fn favourites_cache_marks_changes_for_flushing() {
    let mut cache: Vec<Vec<u8>> = Vec::new();
    let mut dirty = false;
    cache_add_favourite(&mut cache, &mut dirty, b"x.mp3");
    assert!(dirty);
    assert!(flush_favourites_cache(&cache, false).is_none());
    let flushed = flush_favourites_cache(&cache, dirty).unwrap();
    assert_eq!(flushed.len(), 1);
    assert_eq!(flushed[0].path, b("x.mp3"));
    let mut clean = false;
    cache_add_favourite(&mut cache, &mut clean, b"x.mp3");
    assert!(!clean);
    assert_eq!(cache.len(), 1);
    cache_remove_favourite(&mut cache, &mut clean, b"x.mp3");
    assert!(clean);
    assert!(cache.is_empty());
}

#[test]
fn fuzzy_search_ranks_by_levenshtein_after_the_trigram_filter() {
    let songs = names(&["Hello World.mp3", "goodbye.mp3", "help.mp3", "jello.mp3", "yellow.mp3"]);
    let top = search_top_n(b"hello", &songs, 3);
    let got: Vec<(String, u8)> = top.iter().map(|(n, s)| (String::from_utf8(n.clone()).unwrap(), *s)).collect();
    assert_eq!(
        got,
        vec![("help.mp3".to_string(), 48), ("jello.mp3".to_string(), 45), ("Hello World.mp3".to_string(), 44)]
    );
    assert_eq!(search_song(b"hello", &songs), Some((b("help.mp3"), 48)));
    assert_eq!(search_song(b"hello", &Vec::new()), None);
    assert!(search_top_n(b"zzzzz", &songs, 3).is_empty());
}

#[test]
fn generated_playlist_tags_each_song_with_its_score() {
    assert!(generate_playlist(&Vec::new()) == Err(SdError::File));
    let top = vec![(b("help.mp3"), 48u8), (b("jello.mp3"), 45u8)];
    let text = generate_playlist(&top).ok().unwrap();
    assert_eq!(
        String::from_utf8(text).unwrap(),
        "#EXTM3U\n#EXTINF:-1,help.mp3 (48%)\nhelp.mp3\n#EXTINF:-1,jello.mp3 (45%)\njello.mp3\n"
    );
}

#[test]
fn directory_entries_are_named_and_found() {
    assert_eq!(entry_name(Some(b"Long Name.txt"), b"LONGNA~1", b"TXT"), b("Long Name.txt"));
    assert_eq!(entry_name(None, b"README  ", b"TXT"), b("README.TXT"));
    assert_eq!(entry_name(None, b"MUSIC   ", b"   "), b("MUSIC."));
    assert!(eq_ignore_ascii_case(b"Song.MP3", b"song.mp3"));
    assert!(!eq_ignore_ascii_case(b"song", b"songs"));
    let listing = vec![
        DirEntryInfo { name: b("Music"), is_dir: true, is_volume: false, size: 0 },
        DirEntryInfo { name: b("song.mp3"), is_dir: false, is_volume: false, size: 1234 },
        DirEntryInfo { name: b("SONG.MP3"), is_dir: false, is_volume: false, size: 99 },
    ];
    assert_eq!(file_size(&listing, b"Song.mp3").ok(), Some(1234));
    assert!(file_size(&listing, b"music") == Err(SdError::File));
    assert_eq!(find_dir_name(&listing, b"MUSIC"), Some(b("Music")));
    assert_eq!(find_dir_name(&listing, b"song.mp3"), None);
    assert_eq!(path_components(b"music/rock"), names(&["music", "rock"]));
    assert_eq!(path_components(b"/a//b"), names(&["", "a", "", "b"]));
}

#[test]
fn search_keeps_the_first_of_the_best() {
    let tie = vec![b("xyz"), b("HELLO"), b("hello")];
    assert_eq!(search_song(b"hello", &tie), Some((b("HELLO"), 100)));
    let none = vec![b("xyz"), b("abc")];
    assert_eq!(search_song(b"hello", &none), Some((b("xyz"), 0)));
}
