use meme_exif::exif::{
    join, write_job, MetadataField, WriteAction, WriteJob, WriteOutcome, WritePhase,
    TAG_DESCRIPTION, TAG_KEYWORDS, TAG_TITLE,
};
use meme_exif::types::MemeOutput;
use meme_exif::utf16::to_utf16le_string;

fn record(title: &str, description: &str, tags: &[&str], image: &str) -> MemeOutput {
    MemeOutput {
        id: "m1".to_string(),
        title: title.to_string(),
        description: description.to_string(),
        tags: tags.iter().map(|t| t.to_string()).collect(),
        image: image.to_string(),
    }
}

fn field(tag: &str, value: &str) -> MetadataField {
    MetadataField { tag: tag.to_string(), value: value.to_string() }
}

fn three() -> Vec<MemeOutput> {
    vec![
        record("One", "first", &["a"], "one.jpg"),
        record("Two", "second", &["b"], "two.jpg"),
        record("Three", "third", &["c"], "three.jpg"),
    ]
}

#[test]
fn tag_names_are_those_of_the_metadata_format() {
    assert_eq!(TAG_DESCRIPTION, "Exif.Image.ImageDescription");
    assert_eq!(TAG_TITLE, "Exif.Image.XPTitle");
    assert_eq!(TAG_KEYWORDS, "Exif.Image.XPKeywords");
}

#[test]
fn join_puts_the_separator_between_neighbours() {
    assert_eq!(join(&vec![], ';'), "");
    assert_eq!(join(&vec!["funny".to_string()], ';'), "funny");
    assert_eq!(join(&vec!["a".to_string(), "b".to_string(), "c".to_string()], ';'), "a;b;c");
    assert_eq!(join(&vec!["".to_string(), "".to_string()], ';'), ";");
}

#[test]
fn join_does_not_mark_a_separator_inside_a_tag() {
    assert_eq!(join(&vec!["a;b".to_string(), "c".to_string()], ';'), "a;b;c");
}

#[test]
fn write_job_sets_the_three_fields_in_order() {
    let job = write_job(&record("Cat", "A cat.", &["funny", "pets"], "cat.JPG"), "/data/images");
    assert_eq!(
        job,
        WriteJob {
            path: "/data/images/cat.JPG".to_string(),
            fields: vec![
                field("Exif.Image.ImageDescription", "Cat A cat."),
                field(
                    "Exif.Image.XPTitle",
                    "67 0 97 0 116 0 32 0 65 0 32 0 99 0 97 0 116 0 46 0 0 0"
                ),
                field(
                    "Exif.Image.XPKeywords",
                    "102 0 117 0 110 0 110 0 121 0 59 0 112 0 101 0 116 0 115 0 0 0"
                ),
            ],
        }
    );
}

#[test]
fn write_job_without_tags_writes_empty_keywords() {
    let job = write_job(&record("", "", &[], "x.jpg"), "");
    assert_eq!(job.path, "/x.jpg");
    assert_eq!(job.fields[0], field(TAG_DESCRIPTION, " "));
    assert_eq!(job.fields[1], field(TAG_TITLE, "32 0 0 0"));
    assert_eq!(job.fields[2], field(TAG_KEYWORDS, "0 0"));
}

#[test]
fn write_job_keeps_the_description_as_plain_text() {
    let job = write_job(&record("Кот", "Это кот.", &["смешно"], "кот.jpg"), "dir");
    assert_eq!(job.path, "dir/кот.jpg");
    assert_eq!(job.fields[0].value, "Кот Это кот.");
    assert_eq!(job.fields[1].value, to_utf16le_string("Кот Это кот."));
    assert_eq!(job.fields[2].value, to_utf16le_string("смешно"));
}

#[test]
fn writing_a_record_again_sets_the_same_fields() {
    let record = record("Cat", "A cat.", &["funny"], "cat.JPG");
    assert_eq!(write_job(&record, "images"), write_job(&record, "images"));
    let mut renamed = record.clone();
    renamed.id = "another".to_string();
    assert_eq!(write_job(&record, "images"), write_job(&renamed, "images"));
}

#[test]
fn a_new_phase_asks_for_the_first_record() {
    let memes = three();
    let phase = WritePhase::new();
    assert_eq!(phase.next_index(), 0);
    assert_eq!(phase.written(), 0);
    assert_eq!(
        phase.action(&memes, "images"),
        WriteAction::Write { job: write_job(&memes[0], "images") }
    );
}

#[test]
fn a_phase_over_no_records_is_finished() {
    let phase = WritePhase::new();
    assert_eq!(phase.action(&Vec::new(), "images"), WriteAction::Finish);
    let phase = phase.advance(&Vec::new(), WriteOutcome::Written);
    assert_eq!(phase.next_index(), 0);
    assert_eq!(phase.written(), 0);
    assert_eq!(phase.action(&Vec::new(), "images"), WriteAction::Finish);
}

#[test]
fn the_phase_walks_the_records_in_order() {
    let memes = three();
    let mut phase = WritePhase::new();
    for i in 0..3 {
        assert_eq!(phase.next_index(), i);
        assert_eq!(phase.written(), i);
        assert_eq!(
            phase.action(&memes, "images"),
            WriteAction::Write { job: write_job(&memes[i], "images") }
        );
        phase = phase.advance(&memes, WriteOutcome::Written);
    }
    assert_eq!(phase.action(&memes, "images"), WriteAction::Finish);
    assert_eq!(phase.written(), 3);
}

#[test]
fn an_image_that_cannot_be_opened_is_passed_over() {
    let memes = three();
    let phase = WritePhase::new()
        .advance(&memes, WriteOutcome::Written)
        .advance(&memes, WriteOutcome::Skipped);
    assert_eq!(phase.next_index(), 2);
    assert_eq!(phase.written(), 1);
    assert_eq!(
        phase.action(&memes, "images"),
        WriteAction::Write { job: write_job(&memes[2], "images") }
    );
    let phase = phase.advance(&memes, WriteOutcome::Skipped);
    assert_eq!(phase.action(&memes, "images"), WriteAction::Finish);
    assert_eq!(phase.written(), 1);
}

#[test]
fn a_failed_write_ends_the_phase() {
    let memes = three();
    let phase = WritePhase::new()
        .advance(&memes, WriteOutcome::Written)
        .advance(&memes, WriteOutcome::Failed { reason: "disk full".to_string() });
    assert_eq!(phase.next_index(), 1);
    assert_eq!(phase.written(), 1);
    assert_eq!(
        phase.action(&memes, "images"),
        WriteAction::Abort { reason: "disk full".to_string() }
    );
    let phase = phase
        .advance(&memes, WriteOutcome::Written)
        .advance(&memes, WriteOutcome::Failed { reason: "again".to_string() });
    assert_eq!(phase.next_index(), 1);
    assert_eq!(phase.written(), 1);
    assert_eq!(
        phase.action(&memes, "images"),
        WriteAction::Abort { reason: "disk full".to_string() }
    );
}

#[test]
fn outcomes_after_the_last_record_change_nothing() {
    let memes = three();
    let mut phase = WritePhase::new();
    for _ in 0..5 {
        phase = phase.advance(&memes, WriteOutcome::Written);
    }
    assert_eq!(phase.next_index(), 3);
    assert_eq!(phase.written(), 3);
    let phase = phase.advance(&memes, WriteOutcome::Failed { reason: "late".to_string() });
    assert_eq!(phase.action(&memes, "images"), WriteAction::Finish);
}
