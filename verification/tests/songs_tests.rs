use parasync::songs::{
    DirEntryLite, FileService, ScannedSongDir, SongMeta, SongsService,
};
use parasync::textdec::{clean_json_like, decode_text_best_effort};

fn file(name: &str) -> DirEntryLite {
    DirEntryLite {
        name: name.to_string(),
        is_file: true,
        is_directory: false,
    }
}

fn dir(name: &str) -> DirEntryLite {
    DirEntryLite {
        name: name.to_string(),
        is_file: false,
        is_directory: true,
    }
}

fn meta() -> SongMeta {
    SongMeta {
        title: "Title".to_string(),
        artist: "Artist".to_string(),
        creator: "Creator".to_string(),
        cover_image_path: "cover.png".to_string(),
    }
}

#[test]
fn content_uri_detection() {
    assert!(FileService::is_content_uri("content://tree/primary"));
    assert!(!FileService::is_content_uri("file:///tmp/x"));
    assert!(!FileService::is_content_uri("content:/"));
    assert!(!FileService::is_content_uri(""));
}

#[test]
fn folder_prefix_joins_repo_and_id() {
    let p = SongsService::get_song_folder_prefix("1234", "RepoA");
    assert_eq!(p, "RepoA-1234-");
}

#[test]
fn ensure_dir_folds_the_file_layer_report() {
    assert!(SongsService::ensure_dir(None).is_ok());
    assert_eq!(
        SongsService::ensure_dir(Some("mkdir failed".to_string())).unwrap_err(),
        "mkdir failed"
    );
}

#[test]
fn delete_song_succeeds_on_absent_directory() {
    assert!(SongsService::delete_song(false, None).is_ok());
    assert!(SongsService::delete_song(true, None).is_ok());
    assert_eq!(
        SongsService::delete_song(true, Some("busy".to_string())).unwrap_err(),
        "busy"
    );
}

#[test]
fn load_song_assembles_the_record() {
    let entries = vec![
        file("MySong_Easy.rlrr"),
        file("MySong_Hard.rlrr"),
        file("cover.png"),
        dir("stems"),
    ];
    let m = meta();
    let ls = SongsService::load_song("songs", "MyDir", &entries, Some(&m)).unwrap();
    assert_eq!(ls.base_file_name, "MyDir/MySong");
    let song = ls.song.unwrap();
    assert_eq!(song.title, "Title");
    assert_eq!(song.artist, "Artist");
    assert_eq!(song.uploaded_by, "Creator");
    assert_eq!(song.cover_url.as_deref(), Some("songs/MyDir/cover.png"));
    assert_eq!(song.difficulties, vec!["Easy", "Hard"]);
    assert_eq!(song.downloads, None);
    assert_eq!(song.download_url, None);
    assert_eq!(song.id.len(), 36);
}

#[test]
fn load_song_reads_empty_difficulty_as_easy() {
    let entries = vec![file("MySong_.rlrr")];
    let m = meta();
    let ls = SongsService::load_song("songs", "D", &entries, Some(&m)).unwrap();
    let song = ls.song.unwrap();
    assert_eq!(song.difficulties, vec!["Easy"]);
}

#[test]
fn load_song_without_underscore_drops_the_first_character() {
    // the split point defaults to the front, so the stem is empty and the
    // difficulty starts after the first character
    let entries = vec![file("Chart.rlrr")];
    let m = meta();
    let ls = SongsService::load_song("songs", "D", &entries, Some(&m)).unwrap();
    assert_eq!(ls.base_file_name, "D/");
    let song = ls.song.unwrap();
    assert_eq!(song.difficulties, vec!["hart"]);
}

#[test]
fn load_song_without_charts_yields_nothing() {
    let entries = vec![file("cover.png"), dir("stems")];
    let m = meta();
    assert!(SongsService::load_song("songs", "D", &entries, Some(&m)).is_none());
    let charts = vec![file("a_Easy.rlrr")];
    assert!(SongsService::load_song("songs", "D", &charts, None).is_none());
}

#[test]
fn get_local_songs_keeps_only_chart_directories_in_order() {
    let scans = vec![
        ScannedSongDir {
            name: "First".to_string(),
            entries: vec![file("A_Easy.rlrr")],
            meta: Some(meta()),
        },
        ScannedSongDir {
            name: "NoCharts".to_string(),
            entries: vec![file("readme.txt")],
            meta: None,
        },
        ScannedSongDir {
            name: "Second".to_string(),
            entries: vec![file("B_Expert.rlrr")],
            meta: Some(meta()),
        },
    ];
    let songs = SongsService::get_local_songs("root", &scans);
    assert_eq!(songs.len(), 2);
    assert_eq!(songs[0].base_file_name, "First/A");
    assert_eq!(songs[1].base_file_name, "Second/B");
    assert_eq!(
        songs[1].song.as_ref().unwrap().difficulties,
        vec!["Expert"]
    );
}

#[test]
fn clean_strips_bom_normalizes_newlines_and_trims() {
    assert_eq!(clean_json_like("\u{feff}{\"a\":1}\r\n"), "{\"a\":1}");
    assert_eq!(clean_json_like("  x\r y "), "x\n y");
    assert_eq!(clean_json_like("a\r\nb\rc"), "a\nb\nc");
    assert_eq!(clean_json_like("\u{feff}\u{feff}json"), "json");
    assert_eq!(clean_json_like("   "), "");
}

#[test]
fn decode_honours_byte_order_marks() {
    assert_eq!(decode_text_best_effort(&vec![0xff, 0xfe, 0x61, 0x00]), "a");
    assert_eq!(decode_text_best_effort(&vec![0xfe, 0xff, 0x00, 0x62]), "b");
    assert_eq!(decode_text_best_effort(&vec![0xef, 0xbb, 0xbf, 0x63]), "c");
}

#[test]
fn decode_guesses_markless_utf16_from_zero_high_bytes() {
    assert_eq!(
        decode_text_best_effort(&vec![0x61, 0x00, 0x62, 0x00, 0x63, 0x00]),
        "abc"
    );
}

#[test]
fn decode_falls_back_to_utf8() {
    assert_eq!(decode_text_best_effort(&b"hello".to_vec()), "hello");
    assert_eq!(decode_text_best_effort(&Vec::new()), "");
}
