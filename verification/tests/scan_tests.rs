use abp_core::engine::{FileInput, ScanEngine, ScanOutcome, TagSource};
use abp_core::tags::{get_tag_with_fallback, MetadataTemplate, Picture, TagDict};
use abp_core::types::Work;

fn tag_of(entries: Vec<(&str, &str)>) -> TagDict {
    TagDict {
        entries: entries
            .into_iter()
            .map(|(k, v)| (k.to_string(), v.to_string()))
            .collect(),
        pictures: vec![],
    }
}

fn input_of(path: &str, parent: &str, siblings: Vec<&str>, tag: TagSource) -> FileInput {
    FileInput {
        path: path.to_string(),
        parent_path: parent.to_string(),
        siblings: siblings.into_iter().map(|s| s.to_string()).collect(),
        tag,
    }
}

fn works_of(engine: ScanEngine) -> Vec<(String, Work)> {
    engine.into_works()
}

#[test]
fn two_tracks_merge_into_one_work() {
    let mut engine = ScanEngine::new(MetadataTemplate::default());
    let t1 = input_of(
        "lib/A/B/t1.mp3",
        "lib/A/B",
        vec!["lib/A/B/t1.mp3", "lib/A/B/t2.mp3"],
        TagSource::Found(tag_of(vec![("TrackArtist", "A"), ("AlbumTitle", "B")])),
    );
    let t2 = input_of(
        "lib/A/B/t2.mp3",
        "lib/A/B",
        vec!["lib/A/B/t1.mp3", "lib/A/B/t2.mp3"],
        TagSource::Found(tag_of(vec![("TrackArtist", "A"), ("AlbumTitle", "B")])),
    );
    assert!(matches!(engine.process_file(&t1), ScanOutcome::Accepted(_)));
    assert!(matches!(engine.process_file(&t2), ScanOutcome::Accepted(_)));
    let works = works_of(engine);
    assert_eq!(works.len(), 1);
    assert_eq!(works[0].0, "AB");
    assert_eq!(
        works[0].1.audio_files,
        vec!["lib/A/B/t1.mp3".to_string(), "lib/A/B/t2.mp3".to_string()]
    );
}

#[test]
fn merge_is_independent_of_visitation_order() {
    let a = input_of(
        "lib/x/t1.mp3",
        "lib/x",
        vec![],
        TagSource::Found(tag_of(vec![("TrackArtist", "A"), ("AlbumTitle", "B")])),
    );
    let b = input_of(
        "lib/x/t2.mp3",
        "lib/x",
        vec![],
        TagSource::Found(tag_of(vec![("TrackArtist", "A"), ("AlbumTitle", "B")])),
    );
    let mut e1 = ScanEngine::new(MetadataTemplate::default());
    e1.process_file(&a);
    e1.process_file(&b);
    let mut e2 = ScanEngine::new(MetadataTemplate::default());
    e2.process_file(&b);
    e2.process_file(&a);
    let w1 = works_of(e1);
    let w2 = works_of(e2);
    assert_eq!(w1.len(), 1);
    assert_eq!(w2.len(), 1);
    assert_eq!(w1[0].0, w2[0].0);
    // Both orders put both files in the single work for the key.
    for f in ["lib/x/t1.mp3", "lib/x/t2.mp3"] {
        assert!(w1[0].1.files.iter().any(|x| x == f));
        assert!(w2[0].1.files.iter().any(|x| x == f));
    }
}

#[test]
fn unreadable_file_is_skipped_and_run_continues() {
    let mut engine = ScanEngine::new(MetadataTemplate::default());
    let bad = input_of("lib/bad.mp3", "lib", vec![], TagSource::Unreadable);
    assert!(matches!(engine.process_file(&bad), ScanOutcome::FailedRead));
    let good = input_of(
        "lib/good.mp3",
        "lib",
        vec![],
        TagSource::Found(tag_of(vec![("TrackArtist", "A"), ("AlbumTitle", "B")])),
    );
    assert!(matches!(engine.process_file(&good), ScanOutcome::Accepted(_)));
    let works = works_of(engine);
    assert_eq!(works.len(), 1);
    assert!(works[0].1.files.iter().any(|x| x == "lib/good.mp3"));
}

#[test]
fn missing_tag_emits_failed_tag_with_path_and_run_continues() {
    let mut engine = ScanEngine::new(MetadataTemplate::default());
    let bad = input_of("lib/untagged.mp3", "lib", vec![], TagSource::Missing);
    match engine.process_file(&bad) {
        ScanOutcome::FailedTag => {}
        _ => panic!("expected a failed-tag outcome"),
    }
    assert_eq!(works_of(engine).len(), 0);
}

#[test]
fn missing_author_and_missing_album_are_local_failures() {
    let mut engine = ScanEngine::new(MetadataTemplate::default());
    let no_author = input_of(
        "lib/a.mp3",
        "lib",
        vec![],
        TagSource::Found(tag_of(vec![("AlbumTitle", "B")])),
    );
    assert!(matches!(
        engine.process_file(&no_author),
        ScanOutcome::FailedAuthor
    ));
    let no_album = input_of(
        "lib/b.mp3",
        "lib",
        vec![],
        TagSource::Found(tag_of(vec![("TrackArtist", "A")])),
    );
    match engine.process_file(&no_album) {
        ScanOutcome::FailedAlbum(author) => {
            assert_eq!(author.name, "A");
            assert_eq!(author.id, "A");
            assert!(author.created);
        }
        _ => panic!("expected a failed-album outcome"),
    }
    assert_eq!(works_of(engine).len(), 0);
}

#[test]
fn case_sensitive_keys_give_two_distinct_works() {
    let mut engine = ScanEngine::new(MetadataTemplate::default());
    let upper = input_of(
        "lib/one.mp3",
        "lib",
        vec![],
        TagSource::Found(tag_of(vec![("AlbumArtist", "A"), ("AlbumTitle", "T")])),
    );
    let lower = input_of(
        "lib/two.mp3",
        "lib",
        vec![],
        TagSource::Found(tag_of(vec![("AlbumArtist", "a"), ("AlbumTitle", "T")])),
    );
    assert!(matches!(engine.process_file(&upper), ScanOutcome::Accepted(_)));
    assert!(matches!(engine.process_file(&lower), ScanOutcome::Accepted(_)));
    let works = works_of(engine);
    assert_eq!(works.len(), 2);
    assert_eq!(works[0].0, "AT");
    assert_eq!(works[1].0, "aT");
}

#[test]
fn scenario_one_directory_with_cover_and_track() {
    let mut engine = ScanEngine::new(MetadataTemplate::default());
    let input = input_of(
        "lib/Author A/Book One/track1.mp3",
        "lib/Author A/Book One",
        vec![
            "lib/Author A/Book One/track1.mp3",
            "lib/Author A/Book One/cover.jpg",
        ],
        TagSource::Found(tag_of(vec![
            ("TrackArtist", "Author A"),
            ("AlbumTitle", "Book One"),
        ])),
    );
    match engine.process_file(&input) {
        ScanOutcome::Accepted(info) => {
            assert_eq!(info.author.name, "Author A");
            assert_eq!(info.author.id, "Author_A");
            assert!(info.author.created);
            assert_eq!(info.album_title, "Book One");
            // Sibling art present, so no cover-cache request.
            assert!(info.cover.is_none());
        }
        _ => panic!("expected the file to be accepted"),
    }
    let works = works_of(engine);
    assert_eq!(works.len(), 1);
    let work = &works[0].1;
    assert_eq!(work.name, "Book One");
    assert_eq!(work.author, "Author_A");
    assert_eq!(work.path, "lib/Author A/Book One");
    assert_eq!(
        work.image_files,
        vec!["lib/Author A/Book One/cover.jpg".to_string()]
    );
    assert_eq!(
        work.audio_files,
        vec!["lib/Author A/Book One/track1.mp3".to_string()]
    );
}

#[test]
fn embedded_front_cover_requested_once_and_attached() {
    let mut engine = ScanEngine::new(MetadataTemplate::default());
    let mut tag = tag_of(vec![("TrackArtist", "A"), ("AlbumTitle", "Book One")]);
    tag.pictures.push(Picture {
        is_front_cover: false,
        mime: "image/png".to_string(),
        data: vec![9],
    });
    tag.pictures.push(Picture {
        is_front_cover: true,
        mime: "image/png".to_string(),
        data: vec![1, 2, 3],
    });
    let input = input_of("lib/t.mp3", "lib", vec!["lib/t.mp3"], TagSource::Found(tag));
    let key;
    match engine.process_file(&input) {
        ScanOutcome::Accepted(info) => {
            let req = info.cover.expect("expected a cover request");
            assert_eq!(req.file_name, "Book One.png");
            assert_eq!(req.data, vec![1, 2, 3]);
            assert!(req.mime_known);
            key = info.key;
        }
        _ => panic!("expected the file to be accepted"),
    }
    assert_eq!(key, "ABook One");
    assert!(engine.attach_cover(&key, "cache_covers/Book One.png".to_string()));
    let works = works_of(engine);
    assert_eq!(works.len(), 1);
    assert!(works[0]
        .1
        .files
        .iter()
        .any(|f| f == "cache_covers/Book One.png"));
    assert!(works[0]
        .1
        .image_files
        .iter()
        .any(|f| f == "cache_covers/Book One.png"));
}

#[test]
fn attach_cover_refuses_audio_paths_and_unknown_keys() {
    let mut engine = ScanEngine::new(MetadataTemplate::default());
    let input = input_of(
        "lib/t.mp3",
        "lib",
        vec![],
        TagSource::Found(tag_of(vec![("TrackArtist", "A"), ("AlbumTitle", "B")])),
    );
    assert!(matches!(engine.process_file(&input), ScanOutcome::Accepted(_)));
    assert!(!engine.attach_cover("AB", "sneaky.mp3".to_string()));
    assert!(!engine.attach_cover("no such key", "x.png".to_string()));
    let works = works_of(engine);
    assert_eq!(works[0].1.files, vec!["lib/t.mp3".to_string()]);
}

#[test]
fn author_created_once_per_distinct_name() {
    let mut engine = ScanEngine::new(MetadataTemplate::default());
    let mk = |path: &str| {
        input_of(
            path,
            "lib",
            vec![],
            TagSource::Found(tag_of(vec![("TrackArtist", "Jane Doe"), ("AlbumTitle", "B")])),
        )
    };
    match engine.process_file(&mk("lib/1.mp3")) {
        ScanOutcome::Accepted(info) => {
            assert!(info.author.created);
            assert_eq!(info.author.id, "Jane_Doe");
        }
        _ => panic!("expected the file to be accepted"),
    }
    match engine.process_file(&mk("lib/2.mp3")) {
        ScanOutcome::Accepted(info) => {
            assert!(!info.author.created);
            assert_eq!(info.author.id, "Jane_Doe");
        }
        _ => panic!("expected the file to be accepted"),
    }
}

#[test]
fn field_resolution_takes_first_non_empty_candidate() {
    // Template [TrackArtist, AlbumArtist]; only AlbumArtist bound.
    let tag = tag_of(vec![("AlbumArtist", "X")]);
    let keys = vec!["TrackArtist".to_string(), "AlbumArtist".to_string()];
    assert_eq!(get_tag_with_fallback(&tag, &keys), Some("X".to_string()));

    // An empty value does not satisfy a candidate.
    let tag2 = tag_of(vec![("TrackArtist", ""), ("AlbumArtist", "Y")]);
    assert_eq!(get_tag_with_fallback(&tag2, &keys), Some("Y".to_string()));

    // Order matters: the first bound non-empty candidate wins.
    let tag3 = tag_of(vec![("AlbumArtist", "Z"), ("TrackArtist", "W")]);
    assert_eq!(get_tag_with_fallback(&tag3, &keys), Some("W".to_string()));

    // No candidate bound: not found.
    let tag4 = tag_of(vec![("Comment", "C")]);
    assert_eq!(get_tag_with_fallback(&tag4, &keys), None);
}

#[test]
fn unrecognised_mime_falls_back_to_jpg_and_flags_it() {
    let mut engine = ScanEngine::new(MetadataTemplate::default());
    let mut tag = tag_of(vec![("TrackArtist", "A"), ("AlbumTitle", "B")]);
    tag.pictures.push(Picture {
        is_front_cover: true,
        mime: "image/webp".to_string(),
        data: vec![7],
    });
    let input = input_of("lib/t.mp3", "lib", vec![], TagSource::Found(tag));
    match engine.process_file(&input) {
        ScanOutcome::Accepted(info) => {
            let req = info.cover.expect("expected a cover request");
            assert_eq!(req.file_name, "B.jpg");
            assert!(!req.mime_known);
        }
        _ => panic!("expected the file to be accepted"),
    }
}

#[test]
fn second_file_retries_cover_while_no_image_is_attached() {
    let mut engine = ScanEngine::new(MetadataTemplate::default());
    let mut tag = tag_of(vec![("TrackArtist", "A"), ("AlbumTitle", "B")]);
    tag.pictures.push(Picture {
        is_front_cover: true,
        mime: "image/png".to_string(),
        data: vec![1],
    });
    let first = input_of("lib/t1.mp3", "lib", vec![], TagSource::Found(tag.clone()));
    let second = input_of("lib/t2.mp3", "lib", vec![], TagSource::Found(tag));
    match engine.process_file(&first) {
        ScanOutcome::Accepted(info) => assert!(info.cover.is_some()),
        _ => panic!("expected the file to be accepted"),
    }
    // The first cover was never attached (say its write failed), so the
    // work's image files are still empty and the step asks again.
    match engine.process_file(&second) {
        ScanOutcome::Accepted(info) => assert!(info.cover.is_some()),
        _ => panic!("expected the file to be accepted"),
    }
}

#[test]
fn attached_cover_stops_further_cover_requests() {
    let mut engine = ScanEngine::new(MetadataTemplate::default());
    let mut tag = tag_of(vec![("TrackArtist", "A"), ("AlbumTitle", "B")]);
    tag.pictures.push(Picture {
        is_front_cover: true,
        mime: "image/png".to_string(),
        data: vec![1],
    });
    let first = input_of("lib/t1.mp3", "lib", vec![], TagSource::Found(tag.clone()));
    let second = input_of("lib/t2.mp3", "lib", vec![], TagSource::Found(tag));
    let key = match engine.process_file(&first) {
        ScanOutcome::Accepted(info) => info.key,
        _ => panic!("expected the file to be accepted"),
    };
    assert!(engine.attach_cover(&key, "cache_covers/B.png".to_string()));
    match engine.process_file(&second) {
        ScanOutcome::Accepted(info) => assert!(info.cover.is_none()),
        _ => panic!("expected the file to be accepted"),
    }
}

#[test]
fn empty_template_field_resolves_nothing() {
    let tag = tag_of(vec![("TrackArtist", "A")]);
    let keys: Vec<String> = vec![];
    assert_eq!(get_tag_with_fallback(&tag, &keys), None);
}

#[test]
fn default_template_fallback_order() {
    let t = MetadataTemplate::default();
    assert_eq!(
        t.author,
        vec!["TrackArtist", "OriginalArtist", "AlbumArtist"]
    );
    assert_eq!(
        t.title,
        vec!["AlbumTitle", "OriginalAlbumTitle", "TrackTitle"]
    );
}
