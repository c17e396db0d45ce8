use meme_exif::exif::{write_job, WriteAction, WriteOutcome, WritePhase};
use meme_exif::images::find_images;
use meme_exif::report::Diagnostic;
use meme_exif::tags::{build_tag_map, get_images_vec};
use meme_exif::types::{Meme, MemeOutput, Tag};
use meme_exif::utf16::to_utf16le_string;

#[test]
fn end_to_end_scenario() {
    let tags = vec![
        Tag { id: "t1".to_string(), name: Some("funny".to_string()) },
        Tag { id: "t2".to_string(), name: None },
    ];
    let memes = vec![Meme {
        id: "m1".to_string(),
        title: "Cat".to_string(),
        description: "A cat.".to_string(),
        tags: vec!["t1".to_string(), "t2".to_string(), "t9".to_string()],
        image: "pics/cat.JPG".to_string(),
    }];
    let image_files = vec!["cat.JPG".to_string()];

    let tags_map = build_tag_map(tags);
    let (mut memes_output, tag_errors) = get_images_vec(memes, tags_map);
    assert_eq!(memes_output[0].tags, vec!["funny".to_string()]);
    assert_eq!(
        tag_errors,
        vec![
            Diagnostic::UnknownTag { id: "t2".to_string() },
            Diagnostic::UnknownTag { id: "t9".to_string() },
        ]
    );

    let image_errors = find_images(&mut memes_output, image_files);
    assert!(image_errors.is_empty());
    assert_eq!(
        memes_output,
        vec![MemeOutput {
            id: "m1".to_string(),
            title: "Cat".to_string(),
            description: "A cat.".to_string(),
            tags: vec!["funny".to_string()],
            image: "cat.JPG".to_string(),
        }]
    );

    let phase = WritePhase::new();
    let job = match phase.action(&memes_output, "images") {
        WriteAction::Write { job } => job,
        other => panic!("no write was asked for: {:?}", other),
    };
    assert_eq!(job, write_job(&memes_output[0], "images"));
    assert_eq!(job.path, "images/cat.JPG");
    assert_eq!(job.fields[0].tag, "Exif.Image.ImageDescription");
    assert_eq!(job.fields[0].value, "Cat A cat.");
    assert_eq!(job.fields[1].tag, "Exif.Image.XPTitle");
    assert_eq!(job.fields[1].value, to_utf16le_string("Cat A cat."));
    assert_eq!(job.fields[2].tag, "Exif.Image.XPKeywords");
    assert_eq!(job.fields[2].value, to_utf16le_string("funny"));
    assert_eq!(job.fields[2].value, "102 0 117 0 110 0 110 0 121 0 0 0");

    let phase = phase.advance(&memes_output, WriteOutcome::Written);
    assert_eq!(phase.action(&memes_output, "images"), WriteAction::Finish);
    assert_eq!(phase.written(), 1);
}

#[test]
fn records_without_a_usable_image_never_reach_the_writer() {
    let tags_map = build_tag_map(vec![Tag { id: "t1".to_string(), name: Some("funny".to_string()) }]);
    let meme = |id: &str, image: &str| Meme {
        id: id.to_string(),
        title: id.to_string(),
        description: String::new(),
        tags: vec!["t1".to_string()],
        image: image.to_string(),
    };
    let (mut memes_output, _) = get_images_vec(
        vec![meme("m1", "a/one.png"), meme("m2", "b/two.jpg"), meme("m3", "c/three.jpeg")],
        tags_map,
    );
    let errors = find_images(&mut memes_output, vec!["three.jpeg".to_string()]);
    assert_eq!(errors.len(), 2);
    let phase = WritePhase::new();
    match phase.action(&memes_output, "images") {
        WriteAction::Write { job } => assert_eq!(job.path, "images/three.jpeg"),
        other => panic!("no write was asked for: {:?}", other),
    }
    let phase = phase.advance(&memes_output, WriteOutcome::Skipped);
    assert_eq!(phase.action(&memes_output, "images"), WriteAction::Finish);
    assert_eq!(phase.written(), 0);
}
