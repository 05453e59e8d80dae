use abp_core::chapters::{
    assemble_track_metadata, derive_chapters, pick_chapter_track, SampleInfo, TrackInfo,
};
use abp_core::covers::{cover_file_name, decide_cover_action, mime_to_extension, CoverAction};
use abp_core::ext::{get_files_by_extension, is_audio_path, is_chapter_audio_path, is_image_path};
use abp_core::folder::{author_identities, works_from_folder_tree, AuthorDir, SubWorkDir, WorkDir};
use abp_core::ids::{sanitize_album_title, string_to_id, u64_to_string};
use abp_core::registry::AuthorRegistry;
use abp_core::tags::TagDict;
use abp_core::work::work_from_fields;

fn strings(v: Vec<&str>) -> Vec<String> {
    v.into_iter().map(|s| s.to_string()).collect()
}

#[test]
fn extension_classification_is_case_insensitive() {
    assert!(is_audio_path("a/b/song.MP3"));
    assert!(is_audio_path("a/b/book.m4b"));
    assert!(!is_audio_path("a/b/cover.jpg"));
    assert!(!is_audio_path("a/b/noext"));
    assert!(is_image_path("a/b/cover.JPeG"));
    assert!(!is_image_path("a/b/track.mp3"));
    assert!(is_chapter_audio_path("x.m4a"));
    assert!(!is_chapter_audio_path("x.mp3"));
    assert!(!is_audio_path("a.mp3/"));
    assert!(!is_audio_path(".mp3"));
}

#[test]
fn files_filtered_by_extension_keep_order() {
    let files = strings(vec![
        "d/one.mp3",
        "d/cover.jpg",
        "d/two.M4B",
        "d/notes.txt",
        "d/three.wav",
    ]);
    let audio = get_files_by_extension(files.clone(), vec!["mp4", "mp3", "m4a", "m4b", "wav"]);
    assert_eq!(audio, strings(vec!["d/one.mp3", "d/two.M4B", "d/three.wav"]));
    let images = get_files_by_extension(files, vec!["jpg", "jpeg", "png"]);
    assert_eq!(images, strings(vec!["d/cover.jpg"]));
}

#[test]
fn stable_id_replaces_every_special_character() {
    assert_eq!(string_to_id("Author A".to_string()), "Author_A");
    assert_eq!(string_to_id("J.R.R. Tolkien".to_string()), "J_R_R__Tolkien");
    assert_eq!(string_to_id("".to_string()), "");
    assert_eq!(string_to_id("abc123".to_string()), "abc123");
    // Pure function: the same name always gives the same id.
    assert_eq!(
        string_to_id("O'Brien & Co".to_string()),
        string_to_id("O'Brien & Co".to_string())
    );
}

#[test]
fn album_title_sanitization_keeps_letters_digits_spaces() {
    assert_eq!(sanitize_album_title("Book One"), "Book One");
    assert_eq!(sanitize_album_title("Book: One!"), "Book One");
    assert_eq!(sanitize_album_title("¡Hola!"), "Hola");
}

#[test]
fn decimal_rendering_is_exact() {
    assert_eq!(u64_to_string(0), "0");
    assert_eq!(u64_to_string(7), "7");
    assert_eq!(u64_to_string(1234567890), "1234567890");
}

#[test]
fn registry_issues_one_creation_per_name() {
    let mut reg = AuthorRegistry::new();
    let (id1, created1) = reg.resolve_or_create("Jane Doe");
    let (id2, created2) = reg.resolve_or_create("Jane Doe");
    let (id3, created3) = reg.resolve_or_create("John Doe");
    assert_eq!(id1, "Jane_Doe");
    assert_eq!(id2, "Jane_Doe");
    assert!(created1);
    assert!(!created2);
    assert_eq!(id3, "John_Doe");
    assert!(created3);
}

#[test]
fn chapter_lengths_follow_declared_and_implicit_durations() {
    let samples = vec![
        SampleInfo { start_ms: 0, duration_ms: 1000 },
        SampleInfo { start_ms: 1000, duration_ms: 2000 },
        SampleInfo { start_ms: 3000, duration_ms: 0 },
    ];
    let chapters = derive_chapters(5000, &samples);
    assert_eq!(chapters.len(), 3);
    assert_eq!(chapters[0].title, "Chapter 0");
    assert_eq!(chapters[1].title, "Chapter 1");
    assert_eq!(chapters[2].title, "Chapter 2");
    assert_eq!(chapters[0].length_ms, 1000);
    assert_eq!(chapters[1].length_ms, 2000);
    // The final sample's implicit length is total minus its start time,
    // so the lengths sum to the file's total duration.
    assert_eq!(chapters[2].length_ms, 2000);
    let sum: u64 = chapters.iter().map(|c| c.length_ms).sum();
    assert_eq!(sum, 5000);
}

#[test]
fn chapter_track_heuristic_picks_first_untyped_track() {
    let tracks = vec![
        TrackInfo { track_id: 1, media_type_ok: true, sample_count: 10 },
        TrackInfo { track_id: 2, media_type_ok: false, sample_count: 3 },
        TrackInfo { track_id: 3, media_type_ok: false, sample_count: 4 },
    ];
    assert_eq!(pick_chapter_track(&tracks), Some(1));
    let all_typed = vec![TrackInfo { track_id: 1, media_type_ok: true, sample_count: 10 }];
    assert_eq!(pick_chapter_track(&all_typed), None);
    assert_eq!(pick_chapter_track(&vec![]), None);
}

#[test]
fn track_metadata_from_tag_and_samples() {
    let tag = TagDict {
        entries: vec![
            ("TrackTitle".to_string(), "T".to_string()),
            ("TrackArtist".to_string(), "A".to_string()),
            ("AlbumTitle".to_string(), "B".to_string()),
        ],
        pictures: vec![],
    };
    let samples = vec![SampleInfo { start_ms: 0, duration_ms: 0 }];
    let m = assemble_track_metadata("p.m4b".to_string(), &tag, 1234, Some(&samples));
    assert_eq!(m.path, "p.m4b");
    assert_eq!(m.track_title, "T");
    assert_eq!(m.track_author, "A");
    assert_eq!(m.album_title, "B");
    assert_eq!(m.duration_ms, 1234);
    assert_eq!(m.chapters.len(), 1);
    assert_eq!(m.chapters[0].title, "Chapter 0");
    assert_eq!(m.chapters[0].length_ms, 1234);

    // Without a chapter track the file is one chapter titled by its tag.
    let single = assemble_track_metadata("p.mp3".to_string(), &tag, 999, None);
    assert_eq!(single.chapters.len(), 1);
    assert_eq!(single.chapters[0].title, "T");
    assert_eq!(single.chapters[0].length_ms, 999);

    // Missing fields fall back to the empty string.
    let empty = TagDict { entries: vec![], pictures: vec![] };
    let bare = assemble_track_metadata("q.mp3".to_string(), &empty, 1, None);
    assert_eq!(bare.track_title, "");
    assert_eq!(bare.track_author, "");
    assert_eq!(bare.album_title, "");
}

#[test]
fn mime_types_map_to_extensions_with_jpg_fallback() {
    assert_eq!(mime_to_extension("image/jpeg"), ("jpg".to_string(), true));
    assert_eq!(mime_to_extension("image/png"), ("png".to_string(), true));
    assert_eq!(mime_to_extension("image/gif"), ("gif".to_string(), true));
    assert_eq!(mime_to_extension("image/bmp"), ("bmp".to_string(), true));
    assert_eq!(mime_to_extension("image/webp"), ("jpg".to_string(), false));
}

#[test]
fn cover_cache_naming_is_deterministic_and_reuses_existing() {
    let first = cover_file_name("Book: One!", "image/png");
    let second = cover_file_name("Book: One!", "image/png");
    assert_eq!(first, "Book One.png");
    // Idempotent: the same title and type always name the same file,
    // and an existing file is reused, never written a second time.
    assert_eq!(first, second);
    assert_eq!(decide_cover_action(true), CoverAction::Reuse);
    assert_eq!(decide_cover_action(false), CoverAction::Write);
}

#[test]
fn stored_fields_rebuild_a_work() {
    let w = work_from_fields(
        "works:1".to_string(),
        "B".to_string(),
        "A".to_string(),
        "".to_string(),
        "lib/A/B".to_string(),
        strings(vec!["lib/A/B/t.mp3", "lib/A/B/c.jpg", "lib/A/B/notes.txt"]),
    );
    assert_eq!(w.id, "works:1");
    assert!(w.series.is_none());
    assert_eq!(w.audio_files, strings(vec!["lib/A/B/t.mp3"]));
    assert_eq!(w.image_files, strings(vec!["lib/A/B/c.jpg"]));

    let with_series = work_from_fields(
        "works:2".to_string(),
        "B".to_string(),
        "A".to_string(),
        "S".to_string(),
        "lib/A/S/B".to_string(),
        vec![],
    );
    assert_eq!(with_series.series, Some("S".to_string()));
}

#[test]
fn folder_tree_yields_works_and_series() {
    let authors = vec![AuthorDir {
        name: "Author A".to_string(),
        works: vec![
            WorkDir {
                name: "Plain Book".to_string(),
                path: "lib/Author A/Plain Book".to_string(),
                entry_paths: strings(vec![
                    "lib/Author A/Plain Book/t.mp3",
                    "lib/Author A/Plain Book/c.jpg",
                ]),
                subdirs: vec![],
            },
            WorkDir {
                name: "Saga".to_string(),
                path: "lib/Author A/Saga".to_string(),
                entry_paths: strings(vec!["lib/Author A/Saga/Part 1"]),
                subdirs: vec![SubWorkDir {
                    name: "Part 1".to_string(),
                    path: "lib/Author A/Saga/Part 1".to_string(),
                    entry_paths: strings(vec!["lib/Author A/Saga/Part 1/t.mp3"]),
                }],
            },
        ],
    }];
    let ids = author_identities(&authors);
    assert_eq!(ids, vec![("Author A".to_string(), "Author_A".to_string())]);
    let works = works_from_folder_tree(&authors);
    assert_eq!(works.len(), 2);
    assert_eq!(works[0].name, "Plain Book");
    assert_eq!(works[0].author, "Author_A");
    assert_eq!(works[0].series, None);
    assert_eq!(works[0].audio_files, strings(vec!["lib/Author A/Plain Book/t.mp3"]));
    assert_eq!(works[0].image_files, strings(vec!["lib/Author A/Plain Book/c.jpg"]));
    assert_eq!(works[1].name, "Part 1");
    assert_eq!(works[1].series, Some("Saga".to_string()));
    assert_eq!(works[1].path, "lib/Author A/Saga/Part 1");
}
