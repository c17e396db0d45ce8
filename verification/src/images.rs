//! Matching the image reference of each record against the files that
//! exist: a record stays only if its reference ends in a file name with a
//! JPEG extension that is among the files, and it then carries that bare
//! file name.
use vstd::prelude::*;
use crate::paths::{
    extension, file_name, file_name_of, is_jpeg, is_jpeg_extension, lemma_file_name_is_bare,
    lemma_jpeg_name_is_not_empty, lowered, lowered_extension_of,
};
use crate::report::{Diagnostic, DiagnosticView, diagnostic_views};
use crate::text::{contains_text, texts};
use crate::types::{MemeOutput, MemeOutputView, output_views};

verus! {

/// The file name that an image reference ends in; empty where it names none.
pub open spec fn referenced_name(image: Seq<char>) -> Seq<char> {
    match file_name(image) {
        Some(name) => name,
        None => Seq::empty(),
    }
}

/// What becomes of an image reference: the bare file name that the record
/// keeps, or the reason why the record is dropped. The extension is judged
/// first, so a file that is missing is reported only for a JPEG name.
pub open spec fn judge(image: Seq<char>, files: Seq<Seq<char>>) -> Result<
    Seq<char>,
    DiagnosticView,
> {
    let name = referenced_name(image);
    let ext = lowered(extension(name));
    if !is_jpeg(ext) {
        Err(DiagnosticView::UnsupportedExtension { file_name: name, extension: ext })
    } else if !files.contains(name) {
        Err(DiagnosticView::FileNotFound { file_name: name })
    } else {
        Ok(name)
    }
}

/// Judges one image reference against the files that exist: `Ok` with the
/// bare file name to keep, or the reason to drop the record.
pub fn match_image(image: &str, image_files: &Vec<String>) -> (verdict: Result<String, Diagnostic>)
    ensures
        match verdict {
            Ok(name) => judge(image@, texts(image_files@)) == Ok::<Seq<char>, DiagnosticView>(
                name@,
            ),
            Err(reason) => judge(image@, texts(image_files@)) == Err::<
                Seq<char>,
                DiagnosticView,
            >(reason@),
        },
{
    let file_name = match file_name_of(image) {
        Some(name) => name,
        None => String::new(),
    };
    let extension = lowered_extension_of(file_name.as_str());
    if !is_jpeg_extension(extension.as_str()) {
        Err(Diagnostic::UnsupportedExtension { file_name, extension })
    } else if !contains_text(image_files, &file_name) {
        Err(Diagnostic::FileNotFound { file_name })
    } else {
        Ok(file_name)
    }
}

/// A record with its image narrowed to `name`.
pub open spec fn with_image(meme: MemeOutputView, name: Seq<char>) -> MemeOutputView {
    MemeOutputView {
        id: meme.id,
        title: meme.title,
        description: meme.description,
        tags: meme.tags,
        image: name,
    }
}

/// The records that stay, in input order, each with its bare file name.
pub open spec fn survivors(memes: Seq<MemeOutputView>, files: Seq<Seq<char>>) -> Seq<
    MemeOutputView,
>
    decreases memes.len(),
{
    if memes.len() == 0 {
        Seq::empty()
    } else {
        let before = survivors(memes.drop_last(), files);
        match judge(memes.last().image, files) {
            Ok(name) => before.push(with_image(memes.last(), name)),
            Err(_) => before,
        }
    }
}

/// The reasons for which records are dropped, one for each, in input order.
pub open spec fn rejections(memes: Seq<MemeOutputView>, files: Seq<Seq<char>>) -> Seq<
    DiagnosticView,
>
    decreases memes.len(),
{
    if memes.len() == 0 {
        Seq::empty()
    } else {
        let before = rejections(memes.drop_last(), files);
        match judge(memes.last().image, files) {
            Ok(_) => before,
            Err(reason) => before.push(reason),
        }
    }
}

/// Keeps the records whose image reference names an existing JPEG file and
/// narrows the reference of each to the bare file name. The other records
/// are removed; the result holds the reason for each removal. Both keep the
/// input order.
pub fn find_images(memes_output: &mut Vec<MemeOutput>, image_files: Vec<String>) -> (errors: Vec<
    Diagnostic,
>)
    ensures
        output_views(final(memes_output)@) == survivors(
            output_views(old(memes_output)@),
            texts(image_files@),
        ),
        diagnostic_views(errors@) == rejections(
            output_views(old(memes_output)@),
            texts(image_files@),
        ),
{
    let mut candidates: Vec<MemeOutput> = Vec::new();
    std::mem::swap(memes_output, &mut candidates);
    let mut errors: Vec<Diagnostic> = Vec::new();
    let ghost files = texts(image_files@);
    for meme in it: candidates
        invariant
            it.seq() == old(memes_output)@,
            files == texts(image_files@),
            output_views(memes_output@) == survivors(
                output_views(it.seq().take(it.index() as int)),
                files,
            ),
            diagnostic_views(errors@) == rejections(
                output_views(it.seq().take(it.index() as int)),
                files,
            ),
    {
        proof {
            let seen = it.seq().take(it.index() as int);
            let next = it.seq().take(it.index() + 1);
            assert(output_views(next).drop_last() == output_views(seen));
        }
        let mut meme = meme;
        match match_image(meme.image.as_str(), &image_files) {
            Ok(name) => {
                meme.image = name;
                memes_output.push(meme);
            },
            Err(reason) => {
                errors.push(reason);
            },
        }
    }
    assert(old(memes_output)@.take(old(memes_output)@.len() as int) == old(memes_output)@);
    errors
}

/// Records are judged one by one: what stays of a list, and what is reported
/// of it, is what stays and is reported of its front part, followed by what
/// stays and is reported of the rest.
pub proof fn lemma_matching_distributes(
    front: Seq<MemeOutputView>,
    rest: Seq<MemeOutputView>,
    files: Seq<Seq<char>>,
)
    ensures
        survivors(front + rest, files) == survivors(front, files) + survivors(rest, files),
        rejections(front + rest, files) == rejections(front, files) + rejections(rest, files),
    decreases rest.len(),
{
    if rest.len() > 0 {
        assert((front + rest).drop_last() == front + rest.drop_last());
        lemma_matching_distributes(front, rest.drop_last(), files);
    }
}

/// Every record either stays or is reported, never both.
pub proof fn lemma_matching_counts(memes: Seq<MemeOutputView>, files: Seq<Seq<char>>)
    ensures
        survivors(memes, files).len() + rejections(memes, files).len() == memes.len(),
    decreases memes.len(),
{
    if memes.len() > 0 {
        lemma_matching_counts(memes.drop_last(), files);
    }
}

/// Each record that stays carries a bare file name with a JPEG extension
/// that is among the files: judged again, it is kept as it is.
pub proof fn lemma_survivors_are_matched(
    memes: Seq<MemeOutputView>,
    files: Seq<Seq<char>>,
    k: int,
)
    requires
        0 <= k < survivors(memes, files).len(),
    ensures
        ({
            let image = survivors(memes, files)[k].image;
            &&& file_name(image) == Some(image)
            &&& !image.contains('/')
            &&& is_jpeg(lowered(extension(image)))
            &&& files.contains(image)
            &&& judge(image, files) == Ok::<Seq<char>, DiagnosticView>(image)
        }),
    decreases memes.len(),
{
    if k < survivors(memes.drop_last(), files).len() {
        lemma_survivors_are_matched(memes.drop_last(), files, k);
    } else {
        lemma_jpeg_name_is_not_empty(referenced_name(memes.last().image));
        lemma_file_name_is_bare(memes.last().image);
    }
}

/// Each record that stays is one of the input, unchanged but for its image,
/// which is the file name that its reference ended in.
pub proof fn lemma_survivors_come_from_input(
    memes: Seq<MemeOutputView>,
    files: Seq<Seq<char>>,
    k: int,
)
    requires
        0 <= k < survivors(memes, files).len(),
    ensures
        exists|i: int|
            0 <= i < memes.len() && survivors(memes, files)[k] == with_image(
                #[trigger] memes[i],
                referenced_name(memes[i].image),
            ),
    decreases memes.len(),
{
    let front = memes.drop_last();
    if k < survivors(front, files).len() {
        lemma_survivors_come_from_input(front, files, k);
        let i = choose|i: int|
            0 <= i < front.len() && survivors(front, files)[k] == with_image(
                #[trigger] front[i],
                referenced_name(front[i].image),
            );
        assert(memes[i] == front[i]);
    } else {
        assert(survivors(memes, files)[k] == with_image(
            memes[memes.len() - 1],
            referenced_name(memes[memes.len() - 1].image),
        ));
    }
}

/// Removal is final: matching what stayed against the same files keeps all
/// of it, unchanged, and reports nothing.
pub proof fn lemma_matching_is_final(memes: Seq<MemeOutputView>, files: Seq<Seq<char>>)
    ensures
        survivors(survivors(memes, files), files) == survivors(memes, files),
        rejections(survivors(memes, files), files) == Seq::<DiagnosticView>::empty(),
    decreases memes.len(),
{
    if memes.len() > 0 {
        let before = survivors(memes.drop_last(), files);
        lemma_matching_is_final(memes.drop_last(), files);
        if let Ok(name) = judge(memes.last().image, files) {
            lemma_file_name_is_bare(memes.last().image);
            assert(before.push(with_image(memes.last(), name)).drop_last() == before);
        }
    }
}

/// A record whose reference does not end in a JPEG extension, in whatever
/// case it is written, is dropped and reported: the records that stay are
/// those that would stay without it.
pub proof fn lemma_unsupported_extension_is_dropped(
    memes: Seq<MemeOutputView>,
    files: Seq<Seq<char>>,
    i: int,
)
    requires
        0 <= i < memes.len(),
        !is_jpeg(lowered(extension(referenced_name(memes[i].image)))),
    ensures
        survivors(memes, files) == survivors(memes.remove(i), files),
        rejections(memes, files).contains(
            DiagnosticView::UnsupportedExtension {
                file_name: referenced_name(memes[i].image),
                extension: lowered(extension(referenced_name(memes[i].image))),
            },
        ),
{
    lemma_dropped_record(memes, files, i);
}

/// A record whose reference names a file that is not among the files is
/// dropped and reported, whatever its extension: the records that stay are
/// those that would stay without it.
pub proof fn lemma_missing_file_is_dropped(
    memes: Seq<MemeOutputView>,
    files: Seq<Seq<char>>,
    i: int,
)
    requires
        0 <= i < memes.len(),
        !files.contains(referenced_name(memes[i].image)),
    ensures
        survivors(memes, files) == survivors(memes.remove(i), files),
        judge(memes[i].image, files) is Err,
        rejections(memes, files).contains(judge(memes[i].image, files)->Err_0),
{
    lemma_dropped_record(memes, files, i);
}

/// A record that is judged `Err` leaves no trace among the records that
/// stay, and its reason is among those reported.
proof fn lemma_dropped_record(memes: Seq<MemeOutputView>, files: Seq<Seq<char>>, i: int)
    requires
        0 <= i < memes.len(),
        judge(memes[i].image, files) is Err,
    ensures
        survivors(memes, files) == survivors(memes.remove(i), files),
        rejections(memes, files).contains(judge(memes[i].image, files)->Err_0),
{
    let front = memes.take(i);
    let one = seq![memes[i]];
    let rest = memes.skip(i + 1);
    let reason = judge(memes[i].image, files)->Err_0;
    assert(memes == front + one + rest);
    lemma_matching_distributes(front + one, rest, files);
    lemma_matching_distributes(front, one, files);
    lemma_matching_distributes(front, rest, files);
    assert(survivors(one.drop_last(), files) == Seq::<MemeOutputView>::empty());
    assert(rejections(one.drop_last(), files) == Seq::<DiagnosticView>::empty());
    assert(rejections(memes, files)[rejections(front, files).len() as int] == reason);
}

} // verus!
