use meme_exif::report::Diagnostic;
use meme_exif::tags::{build_tag_map, get_images_vec, TagMap};
use meme_exif::types::{Meme, MemeOutput, Tag};

fn tag(id: &str, name: Option<&str>) -> Tag {
    Tag { id: id.to_string(), name: name.map(|n| n.to_string()) }
}

fn meme(id: &str, tags: &[&str]) -> Meme {
    Meme {
        id: id.to_string(),
        title: format!("title of {}", id),
        description: format!("description of {}", id),
        tags: tags.iter().map(|t| t.to_string()).collect(),
        image: format!("pics/{}.jpg", id),
    }
}

fn output(id: &str, tags: &[&str]) -> MemeOutput {
    MemeOutput {
        id: id.to_string(),
        title: format!("title of {}", id),
        description: format!("description of {}", id),
        tags: tags.iter().map(|t| t.to_string()).collect(),
        image: format!("pics/{}.jpg", id),
    }
}

fn unknown(id: &str) -> Diagnostic {
    Diagnostic::UnknownTag { id: id.to_string() }
}

#[test]
fn an_empty_map_names_nothing() {
    let map = TagMap::new();
    assert_eq!(map.get(&"t1".to_string()), None);
    assert_eq!(map.get(&"".to_string()), None);
}

#[test]
fn insert_names_a_tag() {
    let mut map = TagMap::new();
    map.insert("t1".to_string(), "funny".to_string());
    map.insert("t2".to_string(), "sad".to_string());
    assert_eq!(map.get(&"t1".to_string()), Some(&"funny".to_string()));
    assert_eq!(map.get(&"t2".to_string()), Some(&"sad".to_string()));
    assert_eq!(map.get(&"t3".to_string()), None);
    assert_eq!(map.get(&"T1".to_string()), None);
}

#[test]
fn insert_replaces_the_name_of_a_tag() {
    let mut map = TagMap::new();
    map.insert("t1".to_string(), "funny".to_string());
    map.insert("t2".to_string(), "sad".to_string());
    map.insert("t1".to_string(), "hilarious".to_string());
    assert_eq!(map.get(&"t1".to_string()), Some(&"hilarious".to_string()));
    assert_eq!(map.get(&"t2".to_string()), Some(&"sad".to_string()));
}

#[test]
fn tags_without_a_name_are_left_out_of_the_map() {
    let map = build_tag_map(vec![tag("t1", Some("funny")), tag("t2", None), tag("t3", Some(""))]);
    assert_eq!(map.get(&"t1".to_string()), Some(&"funny".to_string()));
    assert_eq!(map.get(&"t2".to_string()), None);
    assert_eq!(map.get(&"t3".to_string()), Some(&"".to_string()));
}

#[test]
fn the_last_named_tag_of_an_identifier_gives_the_name() {
    let map = build_tag_map(vec![
        tag("t1", Some("first")),
        tag("t1", Some("second")),
        tag("t1", None),
    ]);
    assert_eq!(map.get(&"t1".to_string()), Some(&"second".to_string()));
}

#[test]
fn no_tags_give_an_empty_map() {
    let map = build_tag_map(Vec::new());
    assert_eq!(map.get(&"t1".to_string()), None);
}

#[test]
fn names_stand_in_the_order_of_the_references() {
    let map = build_tag_map(vec![tag("a", Some("A")), tag("b", Some("B")), tag("c", Some("C"))]);
    let (records, errors) = get_images_vec(vec![meme("m1", &["c", "a", "b", "a"])], map);
    assert_eq!(records, vec![output("m1", &["C", "A", "B", "A"])]);
    assert!(errors.is_empty());
}

#[test]
fn unknown_references_are_left_out_and_reported() {
    let map = build_tag_map(vec![tag("a", Some("A")), tag("b", None), tag("c", Some("C"))]);
    let (records, errors) = get_images_vec(vec![meme("m1", &["x", "a", "b", "c", "y", "x"])], map);
    assert_eq!(records, vec![output("m1", &["A", "C"])]);
    assert_eq!(errors, vec![unknown("x"), unknown("b"), unknown("y"), unknown("x")]);
}

#[test]
fn a_meme_stays_when_none_of_its_tags_resolves() {
    let (records, errors) = get_images_vec(vec![meme("m1", &["x", "y"])], TagMap::new());
    assert_eq!(records, vec![output("m1", &[])]);
    assert_eq!(errors, vec![unknown("x"), unknown("y")]);
}

#[test]
fn a_meme_without_tags_stays_as_it_is() {
    let map = build_tag_map(vec![tag("a", Some("A"))]);
    let (records, errors) = get_images_vec(vec![meme("m1", &[])], map);
    assert_eq!(records, vec![output("m1", &[])]);
    assert!(errors.is_empty());
}

#[test]
fn memes_keep_their_order_and_reports_follow_it() {
    let map = build_tag_map(vec![tag("a", Some("A")), tag("b", Some("B"))]);
    let (records, errors) = get_images_vec(
        vec![meme("m1", &["a", "x"]), meme("m2", &[]), meme("m3", &["y", "b", "z"])],
        map,
    );
    assert_eq!(
        records,
        vec![output("m1", &["A"]), output("m2", &[]), output("m3", &["B"])]
    );
    assert_eq!(errors, vec![unknown("x"), unknown("y"), unknown("z")]);
}

#[test]
fn no_memes_give_no_records() {
    let map = build_tag_map(vec![tag("a", Some("A"))]);
    let (records, errors) = get_images_vec(Vec::new(), map);
    assert!(records.is_empty());
    assert!(errors.is_empty());
}

#[test]
fn names_and_reports_add_up_to_the_references() {
    let map = build_tag_map(vec![tag("a", Some("A")), tag("b", None)]);
    let (records, errors) = get_images_vec(vec![meme("m1", &["a", "b", "c", "a"])], map);
    assert_eq!(records[0].tags.len() + errors.len(), 4);
}
