use labelel::colors::{color_for, Rgb};
use labelel::descriptor::parse_descriptor;
use labelel::errors::LoadError;
use labelel::geom::Vec2;
use labelel::paths::{file_name_of, is_image_file, labels_path, uri_of};
use labelel::project::{build_project, Segment};
use labelel::errors::SaveError;

fn v(x: i64, y: i64) -> Vec2 {
    Vec2 { x, y }
}

fn seg(cx: i64, cy: i64, w: i64, h: i64, label_id: u32) -> Segment {
    Segment { center: v(cx, cy), size: v(w, h), label_id }
}

const DESCRIPTOR: &str = "train: images\nval: images\npath: ./here\nnames:\n  0: cat\n  1: dog\n";

#[test]
fn descriptor_parses_into_plain_values() {
    let config = parse_descriptor(DESCRIPTOR.as_bytes()).expect("descriptor should parse");
    assert_eq!(config.train, b"images".to_vec());
    assert_eq!(config.val, b"images".to_vec());
    assert_eq!(config.test, None);
    assert_eq!(config.names.len(), 2);
    assert_eq!(config.names[0], (0, b"cat".to_vec()));
    assert_eq!(config.names[1], (1, b"dog".to_vec()));
}

#[test]
fn descriptor_errors_name_the_missing_piece() {
    assert!(matches!(
        parse_descriptor(b"{"),
        Err(LoadError::DescriptorUnparsable(_))
    ));
    assert!(matches!(
        parse_descriptor(b"val: images\nnames:\n  0: cat\n"),
        Err(LoadError::MissingTrain)
    ));
    assert!(matches!(
        parse_descriptor(b"train: images\nnames:\n  0: cat\n"),
        Err(LoadError::MissingVal)
    ));
    assert!(matches!(
        parse_descriptor(b"train: images\nval: images\n"),
        Err(LoadError::MissingNames)
    ));
    assert!(matches!(
        parse_descriptor(b"train: images\nval: images\nnames:\n  cat: 0\n"),
        Err(LoadError::BadNamesEntry)
    ));
}

#[test]
fn sidecar_paths_replace_the_last_images_directory() {
    assert_eq!(labels_path(b"data/images/f.png"), b"data/labels/f.txt".to_vec());
    assert_eq!(
        labels_path(b"x/images/images/f.jpg"),
        b"x/images/labels/f.txt".to_vec()
    );
    assert_eq!(labels_path(b"a/b/f.png"), b"a/b/f.txt".to_vec());
    assert_eq!(labels_path(b"f.png"), b"f.txt".to_vec());
    assert_eq!(labels_path(b"images/notes.md"), b"labels/notes.md.txt".to_vec());
}

#[test]
fn image_files_are_found_by_extension() {
    assert!(is_image_file(b"a.png"));
    assert!(is_image_file(b"a.jpg"));
    assert!(!is_image_file(b"a.jpeg"));
    assert!(!is_image_file(b"a.txt"));
    assert!(!is_image_file(b"png"));
}

#[test]
fn file_names_and_uris_derive_from_the_path() {
    assert_eq!(file_name_of(b"data/images/f.png"), b"f.png".to_vec());
    assert_eq!(file_name_of(b"f.png"), b"f.png".to_vec());
    assert_eq!(file_name_of(b"dir/"), b"".to_vec());
    assert_eq!(uri_of(b"data/f.png"), b"file://data/f.png".to_vec());
}

#[test]
fn loading_one_image_with_a_sidecar_line() {
    let config = parse_descriptor(DESCRIPTOR.as_bytes()).unwrap();
    let files = vec![(
        b"data/images/a.png".to_vec(),
        Some(b"0 0.5 0.5 0.2 0.2\n".to_vec()),
    )];
    let p = build_project(DESCRIPTOR.as_bytes().to_vec(), b"data.yaml".to_vec(), config.names, files)
        .unwrap();
    assert_eq!(p.images.len(), 1);
    assert_eq!(p.images[0].segments, vec![seg(500_000, 500_000, 200_000, 200_000, 0)]);
    assert_eq!(p.images[0].labels_file_path, b"data/labels/a.txt".to_vec());
    assert_eq!(p.image_index, 0);
    assert_eq!(p.labels.len(), 2);
    assert_eq!(p.labels[0].0, 0);
    assert_eq!(p.labels[0].1.name, b"cat".to_vec());
    assert_eq!(p.labels[0].1.color, color_for(0));
    assert_eq!(p.labels[1].1.color, Rgb { r: 0, g: 255, b: 0 });

    let saved = p.images[0].sidecar_bytes().expect("one segment to write");
    assert_eq!(saved, b"0 0.5 0.5 0.2 0.2\n".to_vec());
}

#[test]
fn loading_sorts_images_and_skips_other_files() {
    let config = parse_descriptor(DESCRIPTOR.as_bytes()).unwrap();
    let files = vec![
        (b"data/images/b.png".to_vec(), None),
        (b"data/images/readme.md".to_vec(), None),
        (b"data/images/a.jpg".to_vec(), None),
        (b"data/images/c.png".to_vec(), None),
    ];
    let p = build_project(DESCRIPTOR.as_bytes().to_vec(), b"data.yaml".to_vec(), config.names, files)
        .unwrap();
    assert_eq!(p.images.len(), 3);
    assert_eq!(p.images[0].file_name, b"a.jpg".to_vec());
    assert_eq!(p.images[1].file_name, b"b.png".to_vec());
    assert_eq!(p.images[2].file_name, b"c.png".to_vec());
    assert_eq!(p.images[0].uri, b"file://data/images/a.jpg".to_vec());
}

#[test]
fn a_malformed_sidecar_fails_the_whole_load() {
    let config = parse_descriptor(DESCRIPTOR.as_bytes()).unwrap();
    let files = vec![(
        b"data/images/a.png".to_vec(),
        Some(b"0 0.5 oops 0.2 0.2\n".to_vec()),
    )];
    let r = build_project(DESCRIPTOR.as_bytes().to_vec(), b"data.yaml".to_vec(), config.names, files);
    assert!(matches!(r, Err(LoadError::MalformedSidecarLine)));
}

#[test]
fn saving_rewrites_names_and_count_but_keeps_other_fields() {
    let config = parse_descriptor(DESCRIPTOR.as_bytes()).unwrap();
    let mut p = build_project(DESCRIPTOR.as_bytes().to_vec(), b"data.yaml".to_vec(), config.names, vec![])
        .unwrap();
    p.add_label(2, b"bird".to_vec()).unwrap();
    let bytes = p.save_descriptor_bytes().expect("descriptor should serialize");
    let text = String::from_utf8(bytes).unwrap();
    assert!(text.contains("nc: 3"));
    assert!(text.contains("cat"));
    assert!(text.contains("dog"));
    assert!(text.contains("bird"));
    assert!(text.contains("./here"));
    let reparsed: serde_yaml::Value = serde_yaml::from_str(&text).unwrap();
    assert_eq!(reparsed["names"][2].as_str(), Some("bird"));
    assert_eq!(reparsed["nc"].as_u64(), Some(3));
}

#[test]
fn images_without_segments_write_no_sidecar() {
    let config = parse_descriptor(DESCRIPTOR.as_bytes()).unwrap();
    let files = vec![(b"data/images/a.png".to_vec(), None)];
    let p = build_project(DESCRIPTOR.as_bytes().to_vec(), b"data.yaml".to_vec(), config.names, files)
        .unwrap();
    assert_eq!(p.images[0].sidecar_bytes(), None);
}

#[test]
fn an_optional_test_directory_is_carried_through() {
    let text = "train: images\nval: images\ntest: holdout\nnames:\n  0: cat\n";
    let config = parse_descriptor(text.as_bytes()).unwrap();
    assert_eq!(config.test, Some(b"holdout".to_vec()));
}

#[test]
fn duplicate_descriptor_ids_keep_the_first_entry() {
    let config = parse_descriptor(DESCRIPTOR.as_bytes()).unwrap();
    let mut names = config.names;
    names.push((0, b"copycat".to_vec()));
    let p = build_project(DESCRIPTOR.as_bytes().to_vec(), b"data.yaml".to_vec(), names, vec![]).unwrap();
    assert_eq!(p.labels.len(), 2);
    assert_eq!(p.labels[0].1.name, b"cat".to_vec());
}

#[test]
fn saving_refuses_a_descriptor_whose_root_is_not_a_mapping() {
    let config = parse_descriptor(DESCRIPTOR.as_bytes()).unwrap();
    let mut p =
        build_project(b"just a scalar".to_vec(), b"data.yaml".to_vec(), config.names, vec![])
            .unwrap();
    let r = p.save_descriptor_bytes();
    assert!(matches!(r, Err(SaveError::Descriptor(_))));
    assert_eq!(p.original_yaml, b"just a scalar".to_vec());
}

#[test]
fn saving_refuses_a_tagged_null_root() {
    let config = parse_descriptor(DESCRIPTOR.as_bytes()).unwrap();
    let mut p =
        build_project(b"!custom null".to_vec(), b"data.yaml".to_vec(), config.names, vec![])
            .unwrap();
    let r = p.save_descriptor_bytes();
    assert!(matches!(r, Err(SaveError::Descriptor(_))));
}

#[test]
fn saving_twice_composes_on_the_rewritten_document() {
    let config = parse_descriptor(DESCRIPTOR.as_bytes()).unwrap();
    let mut p = build_project(DESCRIPTOR.as_bytes().to_vec(), b"data.yaml".to_vec(), config.names, vec![])
        .unwrap();
    let first = p.save_descriptor_bytes().unwrap();
    assert_eq!(p.original_yaml, first);
    p.add_label(2, b"bird".to_vec()).unwrap();
    let second = p.save_descriptor_bytes().unwrap();
    let text = String::from_utf8(second).unwrap();
    assert!(text.contains("nc: 3"));
    assert!(text.contains("bird"));
    assert!(text.contains("./here"));
}
