//! The records that pass through the pipeline, and what each one holds.
use vstd::prelude::*;
use crate::text::texts;

verus! {

/// A tag definition: an identifier and, where the tag has one, its name.
#[derive(Debug, Clone, PartialEq, Eq)]
pub struct Tag {
    pub id: String,
    pub name: Option<String>,
}

/// What a [`Tag`] holds.
pub struct TagView {
    pub id: Seq<char>,
    pub name: Option<Seq<char>>,
}

impl View for Tag {
    type V = TagView;

    open spec fn view(&self) -> TagView {
        TagView {
            id: self.id@,
            name: match self.name {
                Some(name) => Some(name@),
                None => None,
            },
        }
    }
}

/// A meme as it was exported: its tags are identifiers, and its image is a
/// path-like reference that may differ from the name of the file on disk.
#[derive(Debug, Clone, PartialEq, Eq)]
pub struct Meme {
    pub id: String,
    pub title: String,
    pub description: String,
    pub tags: Vec<String>,
    pub image: String,
}

/// What a [`Meme`] holds.
pub struct MemeView {
    pub id: Seq<char>,
    pub title: Seq<char>,
    pub description: Seq<char>,
    pub tags: Seq<Seq<char>>,
    pub image: Seq<char>,
}

impl View for Meme {
    type V = MemeView;

    open spec fn view(&self) -> MemeView {
        MemeView {
            id: self.id@,
            title: self.title@,
            description: self.description@,
            tags: texts(self.tags@),
            image: self.image@,
        }
    }
}

/// A meme on its way to an image file: its tags are names, and its image is
/// narrowed to a bare file name as the pipeline goes on.
#[derive(Debug, Clone, PartialEq, Eq)]
pub struct MemeOutput {
    pub id: String,
    pub title: String,
    pub description: String,
    pub tags: Vec<String>,
    pub image: String,
}

/// What a [`MemeOutput`] holds.
pub struct MemeOutputView {
    pub id: Seq<char>,
    pub title: Seq<char>,
    pub description: Seq<char>,
    pub tags: Seq<Seq<char>>,
    pub image: Seq<char>,
}

impl View for MemeOutput {
    type V = MemeOutputView;

    open spec fn view(&self) -> MemeOutputView {
        MemeOutputView {
            id: self.id@,
            title: self.title@,
            description: self.description@,
            tags: texts(self.tags@),
            image: self.image@,
        }
    }
}

/// What each record of a list holds, in order.
pub open spec fn meme_views(list: Seq<Meme>) -> Seq<MemeView> {
    list.map_values(|m: Meme| m@)
}

/// What each record of a list holds, in order.
pub open spec fn output_views(list: Seq<MemeOutput>) -> Seq<MemeOutputView> {
    list.map_values(|m: MemeOutput| m@)
}

} // verus!
