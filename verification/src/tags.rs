//! Resolving the tag references of each meme to tag names.
//!
//! A [`TagMap`] holds the name of every tag that has one. A reference to a
//! tag that is not in the map is left out of the record and reported; the
//! record itself always stays.
use vstd::prelude::*;
use crate::report::{Diagnostic, DiagnosticView, diagnostic_views};
use crate::text::texts;
use crate::types::{Meme, MemeOutput, MemeOutputView, MemeView, Tag, TagView, meme_views, output_views};

verus! {

/// Whether no identifier stands twice in the list.
spec fn distinct(ids: Seq<Seq<char>>) -> bool {
    forall|i: int, j: int| 0 <= i < j < ids.len() ==> ids[i] != ids[j]
}

/// The names of tags by their identifiers.
#[derive(Debug)]
pub struct TagMap {
    ids: Vec<String>,
    names: Vec<String>,
}

impl View for TagMap {
    type V = Map<Seq<char>, Seq<char>>;

    closed spec fn view(&self) -> Map<Seq<char>, Seq<char>> {
        Map::new(
            |id: Seq<char>| texts(self.ids@).contains(id),
            |id: Seq<char>| self.names@[texts(self.ids@).index_of(id)]@,
        )
    }
}

/// In a list without repetition, an identifier is found where it stands.
proof fn lemma_index_of_distinct(ids: Seq<Seq<char>>, i: int)
    requires
        distinct(ids),
        0 <= i < ids.len(),
    ensures
        ids.contains(ids[i]),
        ids.index_of(ids[i]) == i,
{
    assert(ids[ids.index_of(ids[i])] == ids[i]);
}

impl TagMap {
    /// Each identifier stands once, with its name at the same place.
    #[verifier::type_invariant]
    spec fn well_formed(self) -> bool {
        self.ids.len() == self.names.len() && distinct(texts(self.ids@))
    }

    /// The map that names no tag.
    pub fn new() -> (map: TagMap)
        ensures
            map@ == Map::<Seq<char>, Seq<char>>::empty(),
    {
        TagMap { ids: Vec::new(), names: Vec::new() }
    }

    /// The place of `id` among the identifiers, if it is there.
    fn position(&self, id: &String) -> (at: Option<usize>)
        ensures
            match at {
                Some(i) => i < self.ids.len() && self.ids[i as int]@ == id@,
                None => !texts(self.ids@).contains(id@),
            },
    {
        let mut i: usize = 0;
        while i < self.ids.len()
            invariant
                i <= self.ids.len(),
                forall|j: int| 0 <= j < i ==> texts(self.ids@)[j] != id@,
            decreases self.ids.len() - i,
        {
            if self.ids[i] == *id {
                return Some(i);
            }
            i += 1;
        }
        None
    }

    /// The name of the tag `id`, if the map holds one.
    pub fn get(&self, id: &String) -> (name: Option<&String>)
        ensures
            match name {
                Some(name) => self@.contains_key(id@) && self@[id@] == name@,
                None => !self@.contains_key(id@),
            },
    {
        proof {
            use_type_invariant(self);
        }
        match self.position(id) {
            Some(i) => {
                proof {
                    lemma_index_of_distinct(texts(self.ids@), i as int);
                }
                Some(&self.names[i])
            },
            None => None,
        }
    }

    /// Gives the tag `id` the name `name`, in place of the name that it had,
    /// if it had one.
    pub fn insert(&mut self, id: String, name: String)
        ensures
            final(self)@ == old(self)@.insert(id@, name@),
    {
        let mut taken = TagMap::new();
        std::mem::swap(self, &mut taken);
        proof {
            use_type_invariant(&taken);
        }
        let at = taken.position(&id);
        let mut ids = taken.ids;
        let mut names = taken.names;
        let ghost before = texts(ids@);
        match at {
            Some(i) => {
                names[i] = name;
                let map = TagMap { ids, names };
                proof {
                    lemma_index_of_distinct(before, i as int);
                    assert forall|key: Seq<char>|
                        before.contains(key) && key != id@ implies before.index_of(key) != i by {
                        assert(before[before.index_of(key)] == key);
                    }
                }
                *self = map;
            },
            None => {
                ids.push(id);
                names.push(name);
                let ghost grown = texts(ids@);
                proof {
                    assert(grown == before.push(id@));
                    assert(distinct(grown));
                }
                let map = TagMap { ids, names };
                proof {
                    lemma_index_of_distinct(grown, before.len() as int);
                    assert forall|key: Seq<char>| before.contains(key) implies grown.contains(key)
                        && grown.index_of(key) == before.index_of(key) by {
                        lemma_index_of_distinct(grown, before.index_of(key));
                    }
                    assert forall|key: Seq<char>| grown.contains(key) implies before.contains(key)
                        || key == id@ by {
                        assert(grown[grown.index_of(key)] == key);
                    }
                }
                *self = map;
            },
        }
    }
}

/// What each tag of a list holds, in order.
pub open spec fn tag_views(list: Seq<Tag>) -> Seq<TagView> {
    list.map_values(|t: Tag| t@)
}

/// The names of the tags that have one, by identifier. Where an identifier
/// stands more than once, the last tag that has a name gives it.
pub open spec fn tag_names(tags: Seq<TagView>) -> Map<Seq<char>, Seq<char>>
    decreases tags.len(),
{
    if tags.len() == 0 {
        Map::empty()
    } else {
        let before = tag_names(tags.drop_last());
        match tags.last().name {
            Some(name) => before.insert(tags.last().id, name),
            None => before,
        }
    }
}

/// The names that the identifiers resolve to, in the order of the
/// identifiers; one that the map does not hold gives none.
pub open spec fn resolved_names(ids: Seq<Seq<char>>, names: Map<Seq<char>, Seq<char>>) -> Seq<
    Seq<char>,
>
    decreases ids.len(),
{
    if ids.len() == 0 {
        Seq::empty()
    } else {
        let before = resolved_names(ids.drop_last(), names);
        if names.contains_key(ids.last()) {
            before.push(names[ids.last()])
        } else {
            before
        }
    }
}

/// The identifiers that the map does not hold, in their order.
pub open spec fn unknown_ids(ids: Seq<Seq<char>>, names: Map<Seq<char>, Seq<char>>) -> Seq<
    Seq<char>,
>
    decreases ids.len(),
{
    if ids.len() == 0 {
        Seq::empty()
    } else {
        let before = unknown_ids(ids.drop_last(), names);
        if names.contains_key(ids.last()) {
            before
        } else {
            before.push(ids.last())
        }
    }
}

/// The record that a meme becomes: its tags are the names that its tag
/// references resolve to, and the rest is as it was.
pub open spec fn resolved_meme(meme: MemeView, names: Map<Seq<char>, Seq<char>>) -> MemeOutputView {
    MemeOutputView {
        id: meme.id,
        title: meme.title,
        description: meme.description,
        tags: resolved_names(meme.tags, names),
        image: meme.image,
    }
}

/// The records that the memes become, one for each, in order.
pub open spec fn resolved_memes(memes: Seq<MemeView>, names: Map<Seq<char>, Seq<char>>) -> Seq<
    MemeOutputView,
> {
    memes.map_values(|m: MemeView| resolved_meme(m, names))
}

/// The report of identifiers that resolve to no name, one diagnostic each.
pub open spec fn unknown_tag_reports(ids: Seq<Seq<char>>) -> Seq<DiagnosticView> {
    ids.map_values(|id: Seq<char>| DiagnosticView::UnknownTag { id })
}

/// The report of all references that resolve to no name: meme after meme,
/// and within a meme in the order of its references.
pub open spec fn unknown_tags(memes: Seq<MemeView>, names: Map<Seq<char>, Seq<char>>) -> Seq<
    DiagnosticView,
>
    decreases memes.len(),
{
    if memes.len() == 0 {
        Seq::empty()
    } else {
        unknown_tags(memes.drop_last(), names) + unknown_tag_reports(
            unknown_ids(memes.last().tags, names),
        )
    }
}

/// The map of the tags that have a name. A tag without a name is left out,
/// so that references to it resolve to nothing.
pub fn build_tag_map(tags: Vec<Tag>) -> (map: TagMap)
    ensures
        map@ == tag_names(tag_views(tags@)),
{
    let mut map = TagMap::new();
    for tag in it: tags
        invariant
            it.seq() == tags@,
            map@ == tag_names(tag_views(it.seq().take(it.index() as int))),
    {
        proof {
            let next = it.seq().take(it.index() + 1);
            assert(next.drop_last() == it.seq().take(it.index() as int));
            assert(tag_views(next).drop_last() == tag_views(next.drop_last()));
        }
        match tag.name {
            Some(name) => map.insert(tag.id, name),
            None => {},
        }
    }
    assert(tags@.take(tags@.len() as int) == tags@);
    map
}

/// Resolves the tag references of one meme. The names found are returned
/// in the order of the references; each reference without a name is added
/// to `errors`.
fn resolve_tags(tag_ids: Vec<String>, tags_map: &TagMap, errors: &mut Vec<Diagnostic>) -> (tags:
    Vec<String>)
    ensures
        texts(tags@) == resolved_names(texts(tag_ids@), tags_map@),
        diagnostic_views(final(errors)@) == diagnostic_views(old(errors)@) + unknown_tag_reports(
            unknown_ids(texts(tag_ids@), tags_map@),
        ),
{
    let mut tags: Vec<String> = Vec::new();
    let ghost told = diagnostic_views(errors@);
    for tag_id in it: tag_ids
        invariant
            it.seq() == tag_ids@,
            texts(tags@) == resolved_names(texts(it.seq().take(it.index() as int)), tags_map@),
            diagnostic_views(errors@) == told + unknown_tag_reports(
                unknown_ids(texts(it.seq().take(it.index() as int)), tags_map@),
            ),
    {
        let ghost reported = errors@;
        proof {
            let next = it.seq().take(it.index() + 1);
            assert(texts(next).drop_last() == texts(it.seq().take(it.index() as int)));
        }
        match tags_map.get(&tag_id) {
            Some(name) => {
                tags.push(name.clone());
            },
            None => {
                errors.push(Diagnostic::UnknownTag { id: tag_id });
                assert(diagnostic_views(errors@) == diagnostic_views(reported).push(
                    DiagnosticView::UnknownTag { id: tag_id@ },
                ));
            },
        }
    }
    assert(tag_ids@.take(tag_ids@.len() as int) == tag_ids@);
    tags
}

/// Turns each meme into the record that is written to its image: the tag
/// references are replaced by the names that they resolve to, in their
/// order. A reference that resolves to no name is left out and reported in
/// the second result; no meme is dropped for it.
pub fn get_images_vec(memes: Vec<Meme>, tags_map: TagMap) -> (result: (
    Vec<MemeOutput>,
    Vec<Diagnostic>,
))
    ensures
        output_views(result.0@) == resolved_memes(meme_views(memes@), tags_map@),
        diagnostic_views(result.1@) == unknown_tags(meme_views(memes@), tags_map@),
{
    let mut result: Vec<MemeOutput> = Vec::new();
    let mut errors: Vec<Diagnostic> = Vec::new();
    for meme in it: memes
        invariant
            it.seq() == memes@,
            output_views(result@) == resolved_memes(
                meme_views(it.seq().take(it.index() as int)),
                tags_map@,
            ),
            diagnostic_views(errors@) == unknown_tags(
                meme_views(it.seq().take(it.index() as int)),
                tags_map@,
            ),
    {
        let ghost done = result@;
        proof {
            let next = it.seq().take(it.index() + 1);
            assert(next.drop_last() == it.seq().take(it.index() as int));
            assert(meme_views(next).drop_last() == meme_views(next.drop_last()));
        }
        let tags = resolve_tags(meme.tags, &tags_map, &mut errors);
        let output = MemeOutput {
            id: meme.id,
            title: meme.title,
            description: meme.description,
            tags,
            image: meme.image,
        };
        result.push(output);
        assert(output_views(result@) == output_views(done).push(output@));
    }
    assert(memes@.take(memes@.len() as int) == memes@);
    (result, errors)
}

/// References are resolved one by one: what a list resolves to, and what
/// of it is unknown, is what its front part gives, followed by what the
/// rest gives.
pub proof fn lemma_resolution_distributes(
    front: Seq<Seq<char>>,
    rest: Seq<Seq<char>>,
    names: Map<Seq<char>, Seq<char>>,
)
    ensures
        resolved_names(front + rest, names) == resolved_names(front, names) + resolved_names(
            rest,
            names,
        ),
        unknown_ids(front + rest, names) == unknown_ids(front, names) + unknown_ids(rest, names),
    decreases rest.len(),
{
    if rest.len() > 0 {
        assert((front + rest).drop_last() == front + rest.drop_last());
        lemma_resolution_distributes(front, rest.drop_last(), names);
    }
}

/// Every reference gives either a name or a report, never both.
pub proof fn lemma_resolution_counts(ids: Seq<Seq<char>>, names: Map<Seq<char>, Seq<char>>)
    ensures
        resolved_names(ids, names).len() + unknown_ids(ids, names).len() == ids.len(),
    decreases ids.len(),
{
    if ids.len() > 0 {
        lemma_resolution_counts(ids.drop_last(), names);
    }
}

/// A reference keeps its place. The name of a reference that the map holds
/// stands among the names where the reference stood among the references
/// that the map holds: behind the names of those in front of it. A
/// reference that the map does not hold stands likewise among the unknown
/// ones, and gives no name.
pub proof fn lemma_reference_keeps_its_place(
    ids: Seq<Seq<char>>,
    names: Map<Seq<char>, Seq<char>>,
    i: int,
)
    requires
        0 <= i < ids.len(),
    ensures
        ({
            let found_before = resolved_names(ids.take(i), names).len() as int;
            let unknown_before = unknown_ids(ids.take(i), names).len() as int;
            if names.contains_key(ids[i]) {
                &&& found_before < resolved_names(ids, names).len()
                &&& resolved_names(ids, names)[found_before] == names[ids[i]]
                &&& unknown_ids(ids, names) == unknown_ids(ids.remove(i), names)
            } else {
                &&& unknown_before < unknown_ids(ids, names).len()
                &&& unknown_ids(ids, names)[unknown_before] == ids[i]
                &&& resolved_names(ids, names) == resolved_names(ids.remove(i), names)
            }
        }),
{
    let front = ids.take(i);
    let one = seq![ids[i]];
    let rest = ids.skip(i + 1);
    assert(ids == front + one + rest);
    lemma_resolution_distributes(front + one, rest, names);
    lemma_resolution_distributes(front, one, names);
    lemma_resolution_distributes(front, rest, names);
    assert(resolved_names(one.drop_last(), names) == Seq::<Seq<char>>::empty());
    assert(unknown_ids(one.drop_last(), names) == Seq::<Seq<char>>::empty());
}

/// Every name among the resolved ones is the name that the map holds for
/// one of the references.
pub proof fn lemma_resolved_are_names(
    ids: Seq<Seq<char>>,
    names: Map<Seq<char>, Seq<char>>,
    k: int,
)
    requires
        0 <= k < resolved_names(ids, names).len(),
    ensures
        exists|i: int|
            0 <= i < ids.len() && names.contains_key(#[trigger] ids[i]) && resolved_names(
                ids,
                names,
            )[k] == names[ids[i]],
    decreases ids.len(),
{
    let front = ids.drop_last();
    if k < resolved_names(front, names).len() {
        lemma_resolved_are_names(front, names, k);
        let i = choose|i: int|
            0 <= i < front.len() && names.contains_key(#[trigger] front[i]) && resolved_names(
                front,
                names,
            )[k] == names[front[i]];
        assert(ids[i] == front[i]);
    } else {
        assert(names.contains_key(ids[ids.len() - 1]));
    }
}

/// The map of tag names holds an identifier exactly if a tag with that
/// identifier has a name, and then holds the name of such a tag.
pub proof fn lemma_tag_names_come_from_tags(tags: Seq<TagView>, id: Seq<char>)
    ensures
        tag_names(tags).contains_key(id) <==> exists|i: int|
            0 <= i < tags.len() && (#[trigger] tags[i]).id == id && tags[i].name is Some,
        tag_names(tags).contains_key(id) ==> exists|i: int|
            0 <= i < tags.len() && (#[trigger] tags[i]).id == id && tags[i].name == Some(
                tag_names(tags)[id],
            ),
    decreases tags.len(),
{
    if tags.len() > 0 {
        let front = tags.drop_last();
        let last = tags.len() - 1;
        lemma_tag_names_come_from_tags(front, id);
        if !(tags[last].id == id && tags[last].name is Some) {
            if tag_names(front).contains_key(id) {
                let i = choose|i: int|
                    0 <= i < front.len() && (#[trigger] front[i]).id == id && front[i].name
                        == Some(tag_names(front)[id]);
                assert(tags[i] == front[i]);
            }
            if exists|i: int|
                0 <= i < tags.len() && (#[trigger] tags[i]).id == id && tags[i].name is Some {
                let i = choose|i: int|
                    0 <= i < tags.len() && (#[trigger] tags[i]).id == id && tags[i].name is Some;
                assert(front[i] == tags[i]);
            }
        }
    }
}

/// No meme is dropped when its tags are resolved, and each record keeps
/// the identifier, title, description and image of its meme.
pub proof fn lemma_every_meme_stays(
    memes: Seq<MemeView>,
    names: Map<Seq<char>, Seq<char>>,
    i: int,
)
    requires
        0 <= i < memes.len(),
    ensures
        resolved_memes(memes, names).len() == memes.len(),
        resolved_memes(memes, names)[i].id == memes[i].id,
        resolved_memes(memes, names)[i].title == memes[i].title,
        resolved_memes(memes, names)[i].description == memes[i].description,
        resolved_memes(memes, names)[i].image == memes[i].image,
        resolved_memes(memes, names)[i].tags == resolved_names(memes[i].tags, names),
{
}

} // verus!
