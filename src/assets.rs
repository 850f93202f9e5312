//! The delayed asset pipeline: the mailbox of asset jobs, the batches it
//! drains, and the images a note needs.
use vstd::prelude::*;

use std::sync::Arc;

use crate::emoji::LocalEmojis;
use crate::image::ImageStore;
use crate::model::{FileThumbnailMode, MFMElement, MFMString, Note, NoteFile, StateFile};

verus! {

/// How many note jobs one batch takes at most.
pub const NOTE_BATCH: usize = 4;

/// How many image and emoji jobs one batch takes at most.
pub const IMAGE_BATCH: usize = 32;

/// A job for the asset pipeline.
pub enum DelayAssets {
    /// Load every image a note needs.
    Note(Arc<Note>),
    /// Load the image of an emoji offered for reactions.
    Emoji(LocalEmojis),
    /// Load one image, by URL.
    Image(String),
    /// Use new persisted settings for later jobs.
    UpdateState(StateFile),
}

/// How many note jobs a sequence of jobs holds.
pub open spec fn note_jobs(s: Seq<DelayAssets>) -> nat
    decreases s.len(),
{
    if s.len() == 0 {
        0
    } else {
        note_jobs(s.drop_last()) + if s.last() is Note { 1nat } else { 0nat }
    }
}

/// How many other jobs a sequence of jobs holds.
pub open spec fn other_jobs(s: Seq<DelayAssets>) -> nat
    decreases s.len(),
{
    if s.len() == 0 {
        0
    } else {
        other_jobs(s.drop_last()) + if s.last() is Note { 0nat } else { 1nat }
    }
}

/// A batch within the limits.
pub open spec fn fits(s: Seq<DelayAssets>) -> bool {
    note_jobs(s) <= NOTE_BATCH && other_jobs(s) <= IMAGE_BATCH
}

/// Takes the next batch from the front of the mailbox: the longest prefix
/// with at most `NOTE_BATCH` note jobs and `IMAGE_BATCH` other jobs.
pub fn next_batch(queue: &mut Vec<DelayAssets>) -> (r: Vec<DelayAssets>)
    ensures
        r@ + final(queue)@ == old(queue)@,
        fits(r@),
        final(queue)@.len() > 0 ==> !fits(r@.push(final(queue)@[0])),
        old(queue)@.len() > 0 ==> r@.len() > 0,
{
    let mut p: usize = 0;
    let mut notes: usize = 0;
    let mut others: usize = 0;
    let mut full = false;
    while p < queue.len() && !full
        invariant
            p <= queue@.len(),
            notes == note_jobs(queue@.subrange(0, p as int)),
            others == other_jobs(queue@.subrange(0, p as int)),
            notes <= NOTE_BATCH,
            others <= IMAGE_BATCH,
            full ==> p < queue@.len() && !fits(queue@.subrange(0, p as int + 1)),
        decreases queue@.len() - p, if full { 0int } else { 1int },
    {
        let ghost next = queue@.subrange(0, p as int + 1);
        assert(next.drop_last() =~= queue@.subrange(0, p as int));
        let is_note = match &queue[p] {
            DelayAssets::Note(_) => true,
            _ => false,
        };
        if is_note {
            if notes == NOTE_BATCH {
                full = true;
            } else {
                notes = notes + 1;
                p = p + 1;
            }
        } else {
            if others == IMAGE_BATCH {
                full = true;
            } else {
                others = others + 1;
                p = p + 1;
            }
        }
    }
    let ghost all = queue@;
    let rest = queue.split_off(p);
    let mut batch = rest;
    std::mem::swap(queue, &mut batch);
    proof {
        assert(batch@ =~= all.subrange(0, p as int));
        assert(batch@ + queue@ =~= all);
        if queue@.len() > 0 {
            assert(batch@.push(queue@[0]) =~= all.subrange(0, p as int + 1));
            assert(all.subrange(0, p as int + 1).drop_last() =~= all.subrange(0, p as int));
        }
    }
    batch
}

/// The image URLs of the emoji of a rich text, in order.
pub open spec fn text_emoji_urls(r: Seq<MFMElement>) -> Seq<Seq<char>>
    decreases r.len(),
{
    if r.len() == 0 {
        Seq::empty()
    } else {
        text_emoji_urls(r.drop_last()) + match r.last() {
            MFMElement::Emoji(e, _) => seq![e.spec_image()],
            _ => Seq::empty(),
        }
    }
}

/// The image of a file that a thumbnail mode shows.
pub open spec fn file_image(f: NoteFile, mode: FileThumbnailMode) -> Option<String> {
    match mode {
        FileThumbnailMode::Thumbnail => f.img,
        FileThumbnailMode::Original => f.original_img,
        FileThumbnailMode::NoImage => None,
    }
}

/// The images of files that a thumbnail mode shows, in order.
pub open spec fn file_image_urls(files: Seq<NoteFile>, mode: FileThumbnailMode) -> Seq<Seq<char>>
    decreases files.len(),
{
    if files.len() == 0 {
        Seq::empty()
    } else {
        file_image_urls(files.drop_last(), mode) + match file_image(files.last(), mode) {
            Some(u) => seq![u@],
            None => Seq::empty(),
        }
    }
}

/// The URLs of those images not loaded yet.
pub open spec fn unloaded(urls: Seq<Seq<char>>, images: ImageStore) -> Seq<Seq<char>>
    decreases urls.len(),
{
    if urls.len() == 0 {
        Seq::empty()
    } else {
        unloaded(urls.drop_last(), images) + if images.entry(urls.last()) matches Some(e) && e.spec_loaded() {
            Seq::<Seq<char>>::empty()
        } else {
            seq![urls.last()]
        }
    }
}

/// The reaction emoji images of a note, in order.
pub open spec fn reaction_urls(n: Note) -> Seq<Seq<char>> {
    n.reactions.emojis@.map_values(|p: (crate::emoji::Emoji, u64)| p.0.spec_image())
}

/// Every image a note needs, in order: its author's instance icon, the
/// emoji of the author's name, of the text and of the reactions, the
/// attachment images the thumbnail mode shows, and the author's avatar.
pub open spec fn note_images(n: Note, mode: FileThumbnailMode) -> Seq<Seq<char>> {
    (match n.user.instance {
        Some(i) => seq![i.icon@],
        None => Seq::empty(),
    }) + text_emoji_urls(n.user.display_name.render@) + text_emoji_urls(n.text.render@) + reaction_urls(n)
        + file_image_urls(n.files@, mode) + seq![n.user.icon@]
}

/// Appends those of `urls` that are not loaded.
fn push_unloaded(urls: &Vec<String>, images: &ImageStore, out: &mut Vec<String>)
    requires
        images.wf(),
    ensures
        final(out)@.map_values(|s: String| s@) == old(out)@.map_values(|s: String| s@) + unloaded(
            urls@.map_values(|s: String| s@),
            *images,
        ),
{
    let mut i: usize = 0;
    let ghost start = out@.map_values(|s: String| s@);
    while i < urls.len()
        invariant
            images.wf(),
            i <= urls@.len(),
            out@.map_values(|s: String| s@) == start + unloaded(urls@.subrange(0, i as int).map_values(|s: String| s@), *images),
        decreases urls@.len() - i,
    {
        let ghost pre = urls@.subrange(0, i as int).map_values(|s: String| s@);
        let ghost next = urls@.subrange(0, i as int + 1).map_values(|s: String| s@);
        assert(next.drop_last() =~= pre);
        assert(next.last() == urls@[i as int]@);
        let ghost before = out@;
        if !images.is_loaded(urls[i].as_str()) {
            out.push(urls[i].clone());
            assert(out@.map_values(|s: String| s@) =~= before.map_values(|s: String| s@).push(urls@[i as int]@));
        }
        assert(out@.map_values(|s: String| s@) =~= start + unloaded(next, *images));
        i = i + 1;
    }
    assert(urls@.subrange(0, i as int) =~= urls@);
}

impl MFMString {
    /// The image URLs of the emoji of the text, in order.
    pub fn emojis(&self) -> (r: Vec<String>)
        ensures
            r@.map_values(|s: String| s@) == text_emoji_urls(self.render@),
    {
        let mut r: Vec<String> = Vec::new();
        let mut i: usize = 0;
        while i < self.render.len()
            invariant
                i <= self.render@.len(),
                r@.map_values(|s: String| s@) == text_emoji_urls(self.render@.subrange(0, i as int)),
            decreases self.render@.len() - i,
        {
            let ghost next = self.render@.subrange(0, i as int + 1);
            assert(next.drop_last() =~= self.render@.subrange(0, i as int));
            let ghost before = r@;
            match &self.render[i] {
                MFMElement::Emoji(e, _) => {
                    r.push(e.url_image().to_owned());
                    assert(r@.map_values(|s: String| s@) =~= before.map_values(|s: String| s@).push(e.spec_image()));
                },
                _ => {},
            }
            assert(r@.map_values(|s: String| s@) =~= text_emoji_urls(next));
            i = i + 1;
        }
        assert(self.render@.subrange(0, i as int) =~= self.render@);
        r
    }
}

/// The placeholder keys of files, in order.
pub open spec fn file_placeholders(files: Seq<NoteFile>) -> Seq<Seq<char>>
    decreases files.len(),
{
    if files.len() == 0 {
        Seq::empty()
    } else {
        file_placeholders(files.drop_last()) + match files.last().blurhash {
            Some(k) => seq![k@],
            None => Seq::empty(),
        }
    }
}

/// Every image a note shows in any thumbnail mode, and its placeholders.
pub open spec fn note_all_images(n: Note) -> Seq<Seq<char>> {
    note_images(n, FileThumbnailMode::Thumbnail) + note_images(n, FileThumbnailMode::Original) + file_placeholders(n.files@)
}

fn placeholders(files: &Vec<NoteFile>) -> (r: Vec<String>)
    ensures
        r@.map_values(|s: String| s@) == file_placeholders(files@),
{
    let mut r: Vec<String> = Vec::new();
    let mut i: usize = 0;
    while i < files.len()
        invariant
            i <= files@.len(),
            r@.map_values(|s: String| s@) == file_placeholders(files@.subrange(0, i as int)),
        decreases files@.len() - i,
    {
        let ghost next = files@.subrange(0, i as int + 1);
        assert(next.drop_last() =~= files@.subrange(0, i as int));
        let ghost before = r@;
        match &files[i].blurhash {
            Some(k) => {
                r.push(k.clone());
                assert(r@.map_values(|s: String| s@) =~= before.map_values(|s: String| s@).push(k@));
            },
            None => {},
        }
        assert(r@.map_values(|s: String| s@) =~= file_placeholders(next));
        i = i + 1;
    }
    assert(files@.subrange(0, i as int) =~= files@);
    r
}

/// Every image a note needs in a thumbnail mode, loaded or not, in the
/// order of `note_images`.
pub fn note_image_urls(note: &Note, mode: FileThumbnailMode) -> (r: Vec<String>)
    ensures
        r@.map_values(|s: String| s@) == note_images(*note, mode),
{
    let mut out: Vec<String> = Vec::new();
    match &note.user.instance {
        Some(i) => out.push(i.icon.clone()),
        None => {},
    }
    let ghost g0 = out@.map_values(|s: String| s@);
    let mut names = note.user.display_name.emojis();
    let ghost g1 = names@.map_values(|s: String| s@);
    let mut texts = note.text.emojis();
    let ghost g2 = texts@.map_values(|s: String| s@);
    let mut reactions = note.reactions.emojis();
    let ghost g3 = reactions@.map_values(|s: String| s@);
    let mut files = file_urls(&note.files, mode);
    let ghost g4 = files@.map_values(|s: String| s@);
    let mut last: Vec<String> = Vec::new();
    last.push(note.user.icon.clone());
    let ghost g5 = last@.map_values(|s: String| s@);
    let ghost o0 = out@;
    let ghost v1 = names@;
    let ghost v2 = texts@;
    let ghost v3 = reactions@;
    let ghost v4 = files@;
    let ghost v5 = last@;
    out.append(&mut names);
    out.append(&mut texts);
    out.append(&mut reactions);
    out.append(&mut files);
    out.append(&mut last);
    proof {
        assert(out@ =~= o0 + v1 + v2 + v3 + v4 + v5);
        assert(g0 =~= match note.user.instance {
            Some(i) => seq![i.icon@],
            None => Seq::<Seq<char>>::empty(),
        });
        assert(g3 =~= reaction_urls(*note));
        assert(g5 =~= seq![note.user.icon@]);
        assert(out@.map_values(|s: String| s@) =~= g0 + g1 + g2 + g3 + g4 + g5);
    }
    out
}

/// Every image a note shows in any thumbnail mode, and its placeholders.
pub fn note_all_image_urls(note: &Note) -> (r: Vec<String>)
    ensures
        r@.map_values(|s: String| s@) == note_all_images(*note),
{
    let mut a = note_image_urls(note, FileThumbnailMode::Thumbnail);
    let ghost va = a@;
    let mut b = note_image_urls(note, FileThumbnailMode::Original);
    let ghost vb = b@;
    let mut c = placeholders(&note.files);
    let ghost vc = c@;
    a.append(&mut b);
    a.append(&mut c);
    assert(a@ =~= va + vb + vc);
    assert(a@.map_values(|s: String| s@) =~= va.map_values(|s: String| s@) + vb.map_values(|s: String| s@) + vc.map_values(|s: String| s@));
    a
}

fn file_urls(files: &Vec<NoteFile>, mode: FileThumbnailMode) -> (r: Vec<String>)
    ensures
        r@.map_values(|s: String| s@) == file_image_urls(files@, mode),
{
    let mut r: Vec<String> = Vec::new();
    let mut i: usize = 0;
    while i < files.len()
        invariant
            i <= files@.len(),
            r@.map_values(|s: String| s@) == file_image_urls(files@.subrange(0, i as int), mode),
        decreases files@.len() - i,
    {
        let ghost next = files@.subrange(0, i as int + 1);
        assert(next.drop_last() =~= files@.subrange(0, i as int));
        let ghost before = r@;
        let img = match mode {
            FileThumbnailMode::Thumbnail => &files[i].img,
            FileThumbnailMode::Original => &files[i].original_img,
            FileThumbnailMode::NoImage => &None,
        };
        match img {
            Some(u) => {
                r.push(u.clone());
                assert(r@.map_values(|s: String| s@) =~= before.map_values(|s: String| s@).push(u@));
            },
            None => {},
        }
        assert(r@.map_values(|s: String| s@) =~= file_image_urls(next, mode));
        i = i + 1;
    }
    assert(files@.subrange(0, i as int) =~= files@);
    r
}

proof fn lemma_unloaded_append(a: Seq<Seq<char>>, b: Seq<Seq<char>>, images: ImageStore)
    ensures
        unloaded(a + b, images) == unloaded(a, images) + unloaded(b, images),
    decreases b.len(),
{
    if b.len() == 0 {
        assert(a + b =~= a);
        assert(unloaded(a, images) + unloaded(b, images) =~= unloaded(a, images));
    } else {
        assert((a + b).drop_last() =~= a + b.drop_last());
        lemma_unloaded_append(a, b.drop_last(), images);
        assert(unloaded(a + b, images) =~= unloaded(a, images) + unloaded(b, images));
    }
}

/// The images a note needs that are not loaded yet, in the order of
/// `note_images`: the jobs its asset resolution starts. An image already
/// loaded is never asked for again.
pub fn note_asset_urls(note: &Note, mode: FileThumbnailMode, images: &ImageStore) -> (r: Vec<String>)
    requires
        images.wf(),
    ensures
        r@.map_values(|s: String| s@) == unloaded(note_images(*note, mode), *images),
{
    let mut first: Vec<String> = Vec::new();
    match &note.user.instance {
        Some(i) => first.push(i.icon.clone()),
        None => {},
    }
    let names = note.user.display_name.emojis();
    let texts = note.text.emojis();
    let reactions = note.reactions.emojis();
    let files = file_urls(&note.files, mode);
    let mut last: Vec<String> = Vec::new();
    last.push(note.user.icon.clone());
    let mut out: Vec<String> = Vec::new();
    let ghost g0 = first@.map_values(|s: String| s@);
    let ghost g1 = names@.map_values(|s: String| s@);
    let ghost g2 = texts@.map_values(|s: String| s@);
    let ghost g3 = reactions@.map_values(|s: String| s@);
    let ghost g4 = files@.map_values(|s: String| s@);
    let ghost g5 = last@.map_values(|s: String| s@);
    proof {
        assert(g0 =~= match note.user.instance {
            Some(i) => seq![i.icon@],
            None => Seq::<Seq<char>>::empty(),
        });
        assert(g3 =~= reaction_urls(*note));
        assert(g5 =~= seq![note.user.icon@]);
        assert(out@.map_values(|s: String| s@) =~= Seq::<Seq<char>>::empty());
    }
    push_unloaded(&first, images, &mut out);
    push_unloaded(&names, images, &mut out);
    push_unloaded(&texts, images, &mut out);
    push_unloaded(&reactions, images, &mut out);
    push_unloaded(&files, images, &mut out);
    push_unloaded(&last, images, &mut out);
    proof {
        lemma_unloaded_append(g0, g1, *images);
        lemma_unloaded_append(g0 + g1, g2, *images);
        lemma_unloaded_append(g0 + g1 + g2, g3, *images);
        lemma_unloaded_append(g0 + g1 + g2 + g3, g4, *images);
        lemma_unloaded_append(g0 + g1 + g2 + g3 + g4, g5, *images);
        assert(note_images(*note, mode) =~= g0 + g1 + g2 + g3 + g4 + g5);
        assert(out@.map_values(|s: String| s@) =~= unloaded(g0, *images) + unloaded(g1, *images) + unloaded(g2, *images)
            + unloaded(g3, *images) + unloaded(g4, *images) + unloaded(g5, *images));
    }
    out
}

/// The images a note job needs: those of the quoted note, then those of the note.
pub fn note_job_urls(note: &Note, mode: FileThumbnailMode, images: &ImageStore) -> (r: Vec<String>)
    requires
        images.wf(),
    ensures
        r@.map_values(|s: String| s@) == (match note.quote {
            Some(q) => unloaded(note_images(*q, mode), *images),
            None => Seq::empty(),
        }) + unloaded(note_images(*note, mode), *images),
{
    let mut out = match &note.quote {
        Some(q) => note_asset_urls(q, mode, images),
        None => Vec::new(),
    };
    let ghost a = out@;
    let mut own = note_asset_urls(note, mode, images);
    let ghost b = own@;
    out.append(&mut own);
    proof {
        assert(out@ =~= a + b);
        assert(out@.map_values(|s: String| s@) =~= a.map_values(|s: String| s@) + b.map_values(|s: String| s@));
    }
    out
}

} // verus!
