//! The entity cache: raw payloads resolved into shared domain objects, at
//! most one per remote identifier, and the sweep that reclaims the entries
//! that nothing observes any more.
use vstd::prelude::*;

use std::sync::Arc;

use crate::emoji::{encode_url, proxy_url, EmojiCache};
use crate::image::{Frame, ImageStore, DUMMY_PNG};
use crate::mfm::EmojiPattern;
use crate::model::{
    FediverseInstance, MFMString, Note, NoteFile, RawFile, RawInstance, RawNote, RawUser, Reactions,
    UserProfile, Visibility,
};
use crate::reactions::{fingerprint, reactions_hash};
use crate::table::{find_key, has_key, lemma_index_of, lemma_push_fresh, unique_keys, value_of, views};
use crate::text::{chars_of, push_char, push_str};

verus! {

/// The instant an RFC 3339 timestamp denotes, in seconds since the epoch,
/// where the text is one.
pub uninterp spec fn rfc3339_seconds(s: Seq<char>) -> Option<i64>;

/// Relies on `chrono::DateTime::parse_from_rfc3339` and `timestamp`: the
/// instant of a well-formed timestamp, nothing for any other text.
#[verifier::external_body]
fn parse_created_at(s: &str) -> (r: Option<i64>)
    ensures
        r == rfc3339_seconds(s@),
{
    chrono::DateTime::parse_from_rfc3339(s).ok().map(|t| t.timestamp())
}

/// The value of a base-83 digit of the blurhash alphabet; 0 for any other
/// character, which the decoder skips.
pub open spec fn base83(c: char) -> nat {
    if '0' <= c && c <= '9' { (c as nat - '0' as nat) as nat }
    else if 'A' <= c && c <= 'Z' { (c as nat - 'A' as nat + 10) as nat }
    else if 'a' <= c && c <= 'z' { (c as nat - 'a' as nat + 36) as nat }
    else if c == '#' { 62 } else if c == '$' { 63 } else if c == '%' { 64 } else if c == '*' { 65 }
    else if c == '+' { 66 } else if c == ',' { 67 } else if c == '-' { 68 } else if c == '.' { 69 }
    else if c == ':' { 70 } else if c == ';' { 71 } else if c == '=' { 72 } else if c == '?' { 73 }
    else if c == '@' { 74 } else if c == '[' { 75 } else if c == ']' { 76 } else if c == '^' { 77 }
    else if c == '_' { 78 } else if c == '{' { 79 } else if c == '|' { 80 } else if c == '}' { 81 }
    else if c == '~' { 82 } else { 0 }
}

/// A blurhash decodes: at least six characters, and as many as its first
/// digit announces, 4 + 2 * nx * ny, with nx and ny the component counts.
pub open spec fn blurhash_ok(h: Seq<char>) -> bool {
    h.len() >= 6 && h.len() == 4 + 2 * (base83(h[0]) % 9 + 1) * (base83(h[0]) / 9 + 1)
}

/// Relies on `blurhash_wasm::decode`: an ASCII hash of the announced length
/// decodes into four bytes per pixel of the requested size; any other
/// length fails. The pixel values come from floating-point arithmetic and
/// are not stated.
#[verifier::external_body]
fn decode_blurhash(hash: &str, width: usize, height: usize) -> (r: Option<Vec<u8>>)
    requires
        forall|i: int| 0 <= i < hash@.len() ==> (#[trigger] hash@[i] as u32) < 128,
        width * height * 4 <= usize::MAX,
    ensures
        r is Some <==> blurhash_ok(hash@),
        r matches Some(p) ==> p@.len() == width * height * 4,
{
    blurhash_wasm::decode(hash, width, height).ok()
}

/// `s` starts with `p`.
pub open spec fn starts_with(s: Seq<char>, p: Seq<char>) -> bool {
    s.len() >= p.len() && s.subrange(0, p.len() as int) == p
}

/// Whether a MIME type names an image.
pub open spec fn is_image_type(mime: Option<String>) -> bool {
    match mime {
        Some(m) => starts_with(m@, "image/"@),
        None => false,
    }
}

fn starts_with_exec(s: &str, p: &str) -> (r: bool)
    ensures
        r == starts_with(s@, p@),
{
    let a = chars_of(s);
    let b = chars_of(p);
    if b.len() > a.len() {
        return false;
    }
    let mut i: usize = 0;
    while i < b.len()
        invariant
            a@ == s@,
            b@ == p@,
            b@.len() <= a@.len(),
            i <= b@.len(),
            forall|j: int| 0 <= j < i ==> a@[j] == b@[j],
        decreases b@.len() - i,
    {
        if a[i] != b[i] {
            assert(a@.subrange(0, b@.len() as int)[i as int] != b@[i as int]);
            return false;
        }
        i = i + 1;
    }
    assert(a@.subrange(0, b@.len() as int) =~= b@);
    true
}

/// The size at which a placeholder is decoded: a tenth of the image, at
/// least one pixel.
pub open spec fn placeholder_side(n: u32) -> nat {
    if n / 10 >= 1 {
        (n / 10) as nat
    } else {
        1
    }
}

/// The key of the placeholder image decoded from a blurhash.
pub open spec fn blurhash_key(hash: Seq<char>) -> Seq<char> {
    "blurhash://"@ + hash
}

/// Whether a raw file gets a placeholder: it has a blurhash, a width and a
/// height, the hash is ASCII, the pixels fit in memory, and it decodes.
pub open spec fn has_placeholder(f: RawFile) -> bool {
    match (f.blurhash, f.properties) {
        (Some(h), Some(p)) => match (p.width, p.height) {
            (Some(w), Some(hh)) => (forall|i: int| 0 <= i < h@.len() ==> (#[trigger] h@[i] as u32) < 128)
                && placeholder_side(w) * placeholder_side(hh) * 4 <= usize::MAX
                && blurhash_ok(h@),
            _ => false,
        },
        _ => false,
    }
}

impl NoteFile {
    /// The file as the domain keeps it: the thumbnail and the original URL
    /// where it is an image, and a placeholder decoded from its blurhash,
    /// which goes into the image store at once.
    pub fn from_raw(value: &RawFile, images: &mut ImageStore) -> (r: NoteFile)
        requires
            old(images).wf(),
        ensures
            final(images).wf(),
            r.img == (if is_image_type(value.mime_type) { value.thumbnail_url } else { None }),
            r.original_img == (if is_image_type(value.mime_type) { value.url } else { None }),
            r.original_url == value.url,
            r.is_sensitive == value.is_sensitive,
            !r.show_sensitive,
            r.blurhash is Some <==> has_placeholder(*value),
            r.blurhash matches Some(k) ==> k@ == blurhash_key(value.blurhash->0@)
                && (final(images).entry(k@) matches Some(e) && e.spec_loaded()),
    {
        let image = match &value.mime_type {
            Some(m) => {
                proof {
                    reveal_strlit("image/");
                }
                starts_with_exec(m.as_str(), "image/")
            },
            None => false,
        };
        let (img, original_img) = if image {
            (value.thumbnail_url.clone(), value.url.clone())
        } else {
            (None, None)
        };
        let blurhash = match (&value.blurhash, &value.properties) {
            (Some(hash), Some(props)) => match (props.width, props.height) {
                (Some(w), Some(h)) => Self::placeholder(hash.as_str(), w, h, images),
                _ => None,
            },
            _ => None,
        };
        NoteFile { img, original_img, original_url: value.url.clone(), blurhash, is_sensitive: value.is_sensitive, show_sensitive: false }
    }

    fn placeholder(hash: &str, w: u32, h: u32, images: &mut ImageStore) -> (r: Option<String>)
        requires
            old(images).wf(),
        ensures
            final(images).wf(),
            r is Some <==> (forall|i: int| 0 <= i < hash@.len() ==> (#[trigger] hash@[i] as u32) < 128)
                && placeholder_side(w) * placeholder_side(h) * 4 <= usize::MAX
                && blurhash_ok(hash@),
            r matches Some(k) ==> k@ == blurhash_key(hash@) && (final(images).entry(k@) matches Some(e) && e.spec_loaded()),
    {
        let cs = chars_of(hash);
        let mut i: usize = 0;
        while i < cs.len()
            invariant
                images.wf(),
                cs@ == hash@,
                i <= cs@.len(),
                forall|j: int| 0 <= j < i ==> (#[trigger] cs@[j] as u32) < 128,
            decreases cs@.len() - i,
        {
            if (cs[i] as u32) >= 128 {
                return None;
            }
            i = i + 1;
        }
        let width: u32 = if w / 10 >= 1 { w / 10 } else { 1 };
        let height: u32 = if h / 10 >= 1 { h / 10 } else { 1 };
        let area = match (width as usize).checked_mul(height as usize) {
            Some(a) => a,
            None => {
                return None;
            },
        };
        match area.checked_mul(4) {
            Some(_) => {},
            None => {
                return None;
            },
        }
        let pixels = decode_blurhash(hash, width as usize, height as usize);
        match pixels {
            Some(p) => {
                let mut key = String::new();
                push_str(&mut key, "blurhash://");
                push_str(&mut key, hash);
                let frame = Frame { width, height, rgba: p };
                let mut frames: Vec<(u32, Frame)> = Vec::new();
                frames.push((0, frame));
                let k2 = key.clone();
                images.insert_frames(key, frames);
                Some(k2)
            },
            None => None,
        }
    }
}

/// The value of a hexadecimal digit, either case.
pub open spec fn hex_digit_value(c: char) -> Option<nat> {
    if '0' <= c && c <= '9' {
        Some((c as nat - '0' as nat) as nat)
    } else if 'a' <= c && c <= 'f' {
        Some((c as nat - 'a' as nat + 10) as nat)
    } else if 'A' <= c && c <= 'F' {
        Some((c as nat - 'A' as nat + 10) as nat)
    } else {
        None
    }
}

/// The byte that two hexadecimal digits write.
pub open spec fn hex_pair(a: char, b: char) -> Option<u8> {
    match (hex_digit_value(a), hex_digit_value(b)) {
        (Some(x), Some(y)) => Some((x * 16 + y) as u8),
        _ => None,
    }
}

/// The colour of a theme: opaque black where none is given, the opaque
/// colour of a text that starts `#rrggbb`, transparent black otherwise.
pub open spec fn theme_color_of(t: Option<Seq<char>>) -> (u8, u8, u8, u8) {
    match t {
        None => (0, 0, 0, 255),
        Some(s) => if s.len() >= 7 && hex_pair(s[1], s[2]) is Some && hex_pair(s[3], s[4]) is Some && hex_pair(s[5], s[6]) is Some {
            (hex_pair(s[1], s[2])->0, hex_pair(s[3], s[4])->0, hex_pair(s[5], s[6])->0, 255)
        } else {
            (0, 0, 0, 0)
        },
    }
}

/// Two hexadecimal digits as a byte.
fn hex_byte(a: char, b: char) -> (r: Option<u8>)
    ensures
        r == hex_pair(a, b),
{
    let x = hex_value(a);
    let y = hex_value(b);
    match (x, y) {
        (Some(x), Some(y)) => Some(x * 16 + y),
        _ => None,
    }
}

fn hex_value(c: char) -> (r: Option<u8>)
    ensures
        r matches Some(v) ==> v < 16 && hex_digit_value(c) == Some(v as nat),
        r is None ==> hex_digit_value(c) is None,
{
    if '0' <= c && c <= '9' {
        Some((c as u32 - '0' as u32) as u8)
    } else if 'a' <= c && c <= 'f' {
        Some((c as u32 - 'a' as u32 + 10) as u8)
    } else if 'A' <= c && c <= 'F' {
        Some((c as u32 - 'A' as u32 + 10) as u8)
    } else {
        None
    }
}

/// The colour of a `#rrggbb` text, opaque; transparent black for any other text.
fn parse_theme_color(s: &str) -> (r: (u8, u8, u8, u8))
    ensures
        r == theme_color_of(Some(s@)),
{
    let cs = chars_of(s);
    if cs.len() < 7 {
        return (0, 0, 0, 0);
    }
    match (hex_byte(cs[1], cs[2]), hex_byte(cs[3], cs[4]), hex_byte(cs[5], cs[6])) {
        (Some(r), Some(g), Some(b)) => (r, g, b, 255),
        _ => (0, 0, 0, 0),
    }
}

impl FediverseInstance {
    /// An instance from its raw metadata: its name, its theme colour, and
    /// its icon (the favicon, else the icon) fetched through the media
    /// proxy, or the placeholder where it has none. The host is left empty.
    pub fn new(value: &RawInstance, media_proxy: &str) -> (r: FediverseInstance)
        ensures
            r.host@.len() == 0,
            r.theme_color == theme_color_of(
                match value.theme_color {
                    Some(t) => Some(t@),
                    None => None,
                },
            ),
            r.display_name@ == match value.name {
                Some(n) => n@,
                None => Seq::empty(),
            },
            r.icon@ == match (value.favicon_url, value.icon_url) {
                (Some(f), _) => proxy_url(media_proxy@, f@),
                (None, Some(i)) => proxy_url(media_proxy@, i@),
                (None, None) => DUMMY_PNG@,
            },
    {
        let theme_color = match &value.theme_color {
            Some(t) => parse_theme_color(t.as_str()),
            None => (0, 0, 0, 255),
        };
        let icon_url: Option<&String> = match &value.favicon_url {
            Some(f) => Some(f),
            None => match &value.icon_url {
                Some(i) => Some(i),
                None => None,
            },
        };
        let icon = match icon_url {
            Some(u) => {
                let mut s = String::new();
                push_str(&mut s, media_proxy);
                push_str(&mut s, "/emoji.webp?url=");
                let enc = encode_url(u.as_str());
                push_str(&mut s, enc.as_str());
                push_str(&mut s, "&emoji=1");
                assert(s@ =~= proxy_url(media_proxy@, u@));
                s
            },
            None => DUMMY_PNG.to_owned(),
        };
        let display_name = match &value.name {
            Some(n) => n.clone(),
            None => String::new(),
        };
        FediverseInstance { host: String::new(), display_name, theme_color, icon }
    }
}

/// What loading a user does to the instance cache: where the user has a
/// host and instance metadata, the instance is the one cached under the
/// host, made and cached only where there was none, and no other entry
/// changes; otherwise the user has no instance and the cache stays.
pub open spec fn instance_resolved(c0: EntityCache, user: RawUser, c1: EntityCache, inst: Option<Arc<FediverseInstance>>) -> bool {
    match (user.host, user.instance) {
        (Some(h), Some(_)) => {
            &&& inst is Some
            &&& c1.instance_of(h@) == inst
            &&& (c0.instance_of(h@) is Some ==> inst == c0.instance_of(h@) && c1.instance_table() == c0.instance_table())
            &&& (c0.instance_of(h@) is None ==> inst->0.host@ == h@)
            &&& forall|k: Seq<char>| k != h@ ==> #[trigger] c1.instance_of(k) == c0.instance_of(k)
        },
        _ => inst is None && c1.instance_table() == c0.instance_table(),
    }
}

/// The avatar URL of a user that gives none: the local instance's avatar
/// endpoint for `@user` or `@user@host`.
pub open spec fn default_avatar(local_instance: Seq<char>, username: Seq<char>, host: Option<String>) -> Seq<char> {
    local_instance + "/avatar/@"@ + username + match host {
        Some(h) => seq!['@'] + h@,
        None => Seq::empty(),
    }
}

/// The caches of the synchronizer: notes, users and instances as shared
/// handles, files by remote id, emoji, and images by URL.
pub struct EntityCache {
    notes: Vec<(String, Arc<Note>)>,
    users: Vec<(String, Arc<UserProfile>)>,
    instances: Vec<(String, Arc<FediverseInstance>)>,
    files: Vec<(String, NoteFile)>,
    emoji: EmojiCache,
    images: ImageStore,
    pattern: Option<EmojiPattern>,
}

/// The entry of `k` in a table, where it has one.
pub open spec fn lookup<V>(m: Seq<(String, V)>, k: Seq<char>) -> Option<V> {
    if has_key(m, k) {
        Some(value_of(m, k))
    } else {
        None
    }
}

/// The cached note `raw` would hit: same identifier, same fingerprint.
pub open spec fn is_hit(c: EntityCache, raw: RawNote) -> bool {
    c.note_of(raw.id@) matches Some(n) && n.reactions.hash == fingerprint(raw.reactions@)
}

/// Whether a payload that misses the cache makes a note: it renotes a note
/// or has text, its timestamp is well formed, and so is that of a quoted
/// note the cache does not hold.
pub open spec fn makes_note(c: EntityCache, raw: RawNote) -> bool {
    &&& (raw.renote is Some || raw.text is Some)
    &&& rfc3339_seconds(raw.created_at@) is Some
    &&& match raw.renote {
        Some(q) => c.note_of(q.id@) is Some || rfc3339_seconds(q.created_at@) is Some,
        None => true,
    }
}

/// What resolving a raw note does: a hit returns the cached note and changes
/// nothing; a payload that makes no note returns nothing and changes
/// nothing; any other builds the note (and the quoted note, unless cached),
/// which replaces the cached entry of its identifier.
pub open spec fn resolve_spec(c0: EntityCache, raw: RawNote, c1: EntityCache, r: Option<(Arc<Note>, bool)>) -> bool {
    &&& c1.wf()
    &&& is_hit(c0, raw) ==> r == Some((c0.note_of(raw.id@)->0, true)) && c1 == c0
    &&& !is_hit(c0, raw) && !makes_note(c0, raw) ==> r is None && c1 == c0
    &&& !is_hit(c0, raw) && makes_note(c0, raw) ==> (r matches Some((n, hit)) && !hit
        && n.id@ == raw.id@
        && n.reactions.hash == fingerprint(raw.reactions@)
        && Some(n.created_at) == rfc3339_seconds(raw.created_at@)
        && n.quote.is_some() == raw.renote.is_some()
        && (n.quote matches Some(q) ==> q.id@ == raw.renote->0.id@ && (q.id@ != raw.id@ ==> c1.note_of(q.id@) == Some(q)))
        && c1.note_of(raw.id@) == Some(n)
        && forall|k: Seq<char>| k != raw.id@ && (raw.renote matches Some(q) ==> k != q.id@) ==> #[trigger] c1.note_of(k) == c0.note_of(k))
}

/// The note ids that a cached note quotes.
pub open spec fn quotes(m: Seq<(String, Arc<Note>)>, k: Seq<char>) -> bool {
    exists|j: int| 0 <= j < m.len() && (#[trigger] m[j].1.quote matches Some(q) && q.id@ == k)
}

/// One pass of the note sweep keeps a note that a live note is, or that a
/// cached note quotes.
pub open spec fn note_survives(m: Seq<(String, Arc<Note>)>, live: Seq<Seq<char>>, k: Seq<char>) -> bool {
    live.contains(k) || quotes(m, k)
}

impl EntityCache {
    pub closed spec fn wf(&self) -> bool {
        &&& unique_keys(self.notes@)
        &&& unique_keys(self.users@)
        &&& unique_keys(self.instances@)
        &&& unique_keys(self.files@)
        &&& forall|i: int| 0 <= i < self.notes@.len() ==> (#[trigger] self.notes@[i]).1.id@ == self.notes@[i].0@
        &&& self.emoji.wf()
        &&& self.images.wf()
    }

    pub closed spec fn note_table(&self) -> Seq<(String, Arc<Note>)> {
        self.notes@
    }

    pub closed spec fn user_table(&self) -> Seq<(String, Arc<UserProfile>)> {
        self.users@
    }

    pub closed spec fn instance_table(&self) -> Seq<(String, Arc<FediverseInstance>)> {
        self.instances@
    }

    pub closed spec fn file_table(&self) -> Seq<(String, NoteFile)> {
        self.files@
    }

    pub closed spec fn spec_images(&self) -> ImageStore {
        self.images
    }

    pub closed spec fn spec_emoji(&self) -> EmojiCache {
        self.emoji
    }

    pub open spec fn note_of(&self, k: Seq<char>) -> Option<Arc<Note>> {
        lookup(self.note_table(), k)
    }

    pub open spec fn user_of(&self, k: Seq<char>) -> Option<Arc<UserProfile>> {
        lookup(self.user_table(), k)
    }

    pub open spec fn instance_of(&self, k: Seq<char>) -> Option<Arc<FediverseInstance>> {
        lookup(self.instance_table(), k)
    }

    pub open spec fn file_of(&self, k: Seq<char>) -> Option<NoteFile> {
        lookup(self.file_table(), k)
    }

    /// Empty caches around an emoji cache.
    pub fn new(emoji: EmojiCache, pattern: Option<EmojiPattern>) -> (r: Self)
        requires
            emoji.wf(),
        ensures
            r.wf(),
            forall|k: Seq<char>| #[trigger] r.note_of(k) is None,
    {
        EntityCache {
            notes: Vec::new(),
            users: Vec::new(),
            instances: Vec::new(),
            files: Vec::new(),
            emoji,
            images: ImageStore::new(),
            pattern,
        }
    }

    pub fn emoji(&self) -> (r: &EmojiCache)
        ensures
            *r == self.spec_emoji(),
    {
        &self.emoji
    }

    pub fn images(&self) -> (r: &ImageStore)
        ensures
            *r == self.spec_images(),
    {
        &self.images
    }

    pub fn images_mut(&mut self) -> (r: &mut ImageStore)
        requires
            old(self).wf(),
        ensures
            *r == old(self).spec_images(),
            final(r).wf() ==> final(self).wf(),
            final(self).note_table() == old(self).note_table(),
            final(self).user_table() == old(self).user_table(),
            final(self).spec_images() == *final(r),
    {
        &mut self.images
    }

    /// An emoji with its image, through the emoji cache (see `EmojiCache::load`).
    pub fn load_emoji(&mut self, id: crate::emoji::EmojiId, url: &str) -> (r: crate::emoji::Emoji)
        requires
            old(self).wf(),
        ensures
            final(self).wf(),
            final(self).note_table() == old(self).note_table(),
            r.spec_id() == id,
            old(self).spec_emoji().image_of(crate::emoji::emoji_key(id)) matches Some(u) ==> r.spec_image() == u,
            old(self).spec_emoji().image_of(crate::emoji::emoji_key(id)) is None ==> r.spec_image() == proxy_url(old(self).spec_emoji().spec_media_proxy(), url@),
    {
        self.emoji.load(id, url)
    }

    /// The cached note of an identifier.
    pub fn get_note(&self, id: &str) -> (r: Option<Arc<Note>>)
        requires
            self.wf(),
        ensures
            r == self.note_of(id@),
    {
        match find_key(&self.notes, id) {
            Some(i) => {
                proof {
                    lemma_index_of(self.notes@, i as int);
                }
                Some(self.notes[i].1.clone())
            },
            None => None,
        }
    }

    /// The home instance of a user, from the cache or made and cached.
    fn resolve_instance(&mut self, host: &String, raw: &RawInstance) -> (r: Arc<FediverseInstance>)
        requires
            old(self).wf(),
        ensures
            final(self).wf(),
            final(self).note_table() == old(self).note_table(),
            final(self).user_table() == old(self).user_table(),
            final(self).spec_emoji() == old(self).spec_emoji(),
            final(self).spec_images() == old(self).spec_images(),
            r.host@ == host@ || old(self).instance_of(host@) == Some(r),
            final(self).instance_of(host@) == Some(r),
            old(self).instance_of(host@) matches Some(i) ==> r == i && final(self).instance_table() == old(self).instance_table(),
            forall|k: Seq<char>| k != host@ ==> #[trigger] final(self).instance_of(k) == old(self).instance_of(k),
    {
        match find_key(&self.instances, host.as_str()) {
            Some(i) => {
                proof {
                    lemma_index_of(self.instances@, i as int);
                }
                self.instances[i].1.clone()
            },
            None => {
                let mut f = FediverseInstance::new(raw, self.emoji.media_proxy());
                f.host = host.clone();
                let f = Arc::new(f);
                let e = (host.clone(), f.clone());
                proof {
                    lemma_push_fresh(self.instances@, e);
                }
                self.instances.push(e);
                f
            },
        }
    }

    /// A user from its payload: its home instance through the instance
    /// cache, its avatar (or the local default avatar URL) and its display
    /// name with its emoji.
    fn load_user(&mut self, user: &RawUser) -> (r: UserProfile)
        requires
            old(self).wf(),
        ensures
            final(self).wf(),
            final(self).note_table() == old(self).note_table(),
            final(self).user_table() == old(self).user_table(),
            instance_resolved(*old(self), *user, *final(self), r.instance),
            final(self).spec_images() == old(self).spec_images(),
            r.id@ == user.id@,
            r.username@ == user.username@,
            r.instance is Some <==> (user.host is Some && user.instance is Some),
            r.icon@ == match user.avatar_url {
                Some(a) => a@,
                None => default_avatar(old(self).spec_emoji().spec_local_instance(), user.username@, user.host),
            },
    {
        let instance = match (&user.host, &user.instance) {
            (Some(host), Some(inst)) => Some(self.resolve_instance(host, inst)),
            _ => None,
        };
        let icon = match &user.avatar_url {
            Some(a) => a.clone(),
            None => {
                let mut s = String::new();
                push_str(&mut s, self.emoji.local_instance());
                push_str(&mut s, "/avatar/@");
                push_str(&mut s, user.username.as_str());
                match &user.host {
                    Some(h) => {
                        push_char(&mut s, '@');
                        push_str(&mut s, h.as_str());
                    },
                    None => {},
                }
                proof {
                    assert(s@ =~= default_avatar(old(self).spec_emoji().spec_local_instance(), user.username@, user.host));
                }
                s
            },
        };
        let name = match &user.name {
            Some(n) => n.clone(),
            None => user.username.clone(),
        };
        let inst_ref: Option<&FediverseInstance> = match &instance {
            Some(a) => Some(&**a),
            None => None,
        };
        let ghost mid = *self;
        let display_name = MFMString::new(name, user.emojis.as_ref(), inst_ref, &mut self.emoji, self.pattern.as_ref());
        assert(self.instance_table() == mid.instance_table());
        assert(forall|k: Seq<char>| #[trigger] self.instance_of(k) == mid.instance_of(k));
        UserProfile { id: user.id.clone(), username: user.username.clone(), display_name, instance, icon }
    }

    /// The user of a payload, from the cache or loaded and cached.
    pub fn resolve_user(&mut self, user: &RawUser) -> (r: Arc<UserProfile>)
        requires
            old(self).wf(),
        ensures
            final(self).wf(),
            final(self).note_table() == old(self).note_table(),
            final(self).spec_images() == old(self).spec_images(),
            old(self).user_of(user.id@) matches Some(u) ==> r == u,
            r.id@ == user.id@ || old(self).user_of(user.id@) == Some(r),
            final(self).user_of(user.id@) == Some(r),
            forall|k: Seq<char>| k != user.id@ ==> #[trigger] final(self).user_of(k) == old(self).user_of(k),
    {
        match find_key(&self.users, user.id.as_str()) {
            Some(i) => {
                proof {
                    lemma_index_of(self.users@, i as int);
                }
                self.users[i].1.clone()
            },
            None => {
                let u = Arc::new(self.load_user(user));
                let e = (user.id.clone(), u.clone());
                proof {
                    lemma_push_fresh(self.users@, e);
                }
                self.users.push(e);
                u
            },
        }
    }

    /// The files of a payload, each from the file cache or made and cached.
    pub fn resolve_files(&mut self, note: &RawNote) -> (r: Vec<NoteFile>)
        requires
            old(self).wf(),
        ensures
            final(self).wf(),
            final(self).note_table() == old(self).note_table(),
            final(self).user_table() == old(self).user_table(),
            r@.len() == note.files@.len(),
            forall|i: int| 0 <= i < r@.len() ==> final(self).file_of(#[trigger] note.files@[i].id@) == Some(r@[i]),
    {
        let mut out: Vec<NoteFile> = Vec::new();
        let mut i: usize = 0;
        while i < note.files.len()
            invariant
                self.wf(),
                self.note_table() == old(self).note_table(),
                self.user_table() == old(self).user_table(),
                i <= note.files@.len(),
                out@.len() == i,
                forall|j: int| 0 <= j < i ==> self.file_of(#[trigger] note.files@[j].id@) == Some(out@[j]),
            decreases note.files@.len() - i,
        {
            let f = &note.files[i];
            match find_key(&self.files, f.id.as_str()) {
                Some(k) => {
                    proof {
                        lemma_index_of(self.files@, k as int);
                    }
                    out.push(self.files[k].1.duplicate());
                },
                None => {
                    let nf = NoteFile::from_raw(f, &mut self.images);
                    let e = (f.id.clone(), nf.duplicate());
                    proof {
                        lemma_push_fresh(self.files@, e);
                    }
                    self.files.push(e);
                    out.push(nf);
                },
            }
            i = i + 1;
        }
        out
    }
}

impl UserProfile {
    /// A user from its payload, its home instance through the instance cache
    /// and its display name through the emoji cache (see `EntityCache::resolve_user`
    /// for the cached form).
    pub fn load(user: &RawUser, cache: &mut EntityCache) -> (r: UserProfile)
        requires
            old(cache).wf(),
        ensures
            final(cache).wf(),
            final(cache).note_table() == old(cache).note_table(),
            final(cache).user_table() == old(cache).user_table(),
            instance_resolved(*old(cache), *user, *final(cache), r.instance),
            r.id@ == user.id@,
            r.username@ == user.username@,
            r.instance is Some <==> (user.host is Some && user.instance is Some),
            r.icon@ == match user.avatar_url {
                Some(a) => a@,
                None => default_avatar(old(cache).spec_emoji().spec_local_instance(), user.username@, user.host),
            },
    {
        cache.load_user(user)
    }
}

impl NoteFile {
    /// A copy of this file.
    pub fn duplicate(&self) -> (r: NoteFile)
        ensures
            r == *self,
    {
        NoteFile {
            img: copy_opt(&self.img),
            original_img: copy_opt(&self.original_img),
            original_url: copy_opt(&self.original_url),
            blurhash: copy_opt(&self.blurhash),
            is_sensitive: self.is_sensitive,
            show_sensitive: self.show_sensitive,
        }
    }
}

fn copy_opt(s: &Option<String>) -> (r: Option<String>)
    ensures
        r == *s,
{
    match s {
        Some(t) => Some(t.clone()),
        None => None,
    }
}

impl EntityCache {
    /// A note built from its payload: its author through the user cache,
    /// its reactions through the emoji cache, its files through the file
    /// cache, and its text and content warning parsed.
    fn build_note(&mut self, raw: &RawNote, quote: Option<Arc<Note>>, created_at: i64) -> (r: Note)
        requires
            old(self).wf(),
        ensures
            final(self).wf(),
            final(self).note_table() == old(self).note_table(),
            r.id@ == raw.id@,
            r.reactions.hash == fingerprint(raw.reactions@),
            r.created_at == created_at,
            r.quote == quote,
    {
        let user = self.resolve_user(&raw.user);
        let reactions = Reactions::load(raw, &mut self.emoji);
        let files = self.resolve_files(raw);
        let inst_ref: Option<&FediverseInstance> = match &user.instance {
            Some(a) => Some(&**a),
            None => None,
        };
        let body = match &raw.text {
            Some(t) => t.clone(),
            None => String::new(),
        };
        let text = MFMString::new(body, raw.emojis.as_ref(), inst_ref, &mut self.emoji, self.pattern.as_ref());
        let cw_raw = match &raw.cw {
            Some(c) => Some(c.clone()),
            None => None,
        };
        let cw = MFMString::new_opt(cw_raw, raw.emojis.as_ref(), inst_ref, &mut self.emoji, self.pattern.as_ref());
        Note {
            id: raw.id.clone(),
            user,
            quote,
            text,
            visibility: Visibility::from_name(raw.visibility.as_str()),
            reactions,
            files,
            cw,
            created_at,
        }
    }

    /// Puts a note under its identifier, in place of any note cached there.
    fn insert_note(&mut self, n: Arc<Note>)
        requires
            old(self).wf(),
        ensures
            final(self).wf(),
            final(self).note_of(n.id@) == Some(n),
            forall|k: Seq<char>| k != n.id@ ==> #[trigger] final(self).note_of(k) == old(self).note_of(k),
            final(self).user_table() == old(self).user_table(),
    {
        match find_key(&self.notes, n.id.as_str()) {
            Some(i) => {
                let ghost old_notes = self.notes@;
                let key = n.id.clone();
                self.notes.set(i, (key, n));
                proof {
                    let m = self.notes@;
                    assert forall|a: int, b: int| 0 <= a < m.len() && 0 <= b < m.len() && #[trigger] m[a].0@ == #[trigger] m[b].0@ implies a == b by {
                        assert(old_notes[a].0@ == old_notes[b].0@);
                    }
                    lemma_index_of(m, i as int);
                    assert forall|k: Seq<char>| k != n.id@ implies #[trigger] lookup(m, k) == lookup(old_notes, k) by {
                        if has_key(old_notes, k) {
                            let j = crate::table::index_of(old_notes, k);
                            lemma_index_of(old_notes, j);
                            assert(m[j] == old_notes[j]);
                            lemma_index_of(m, j);
                        }
                        if has_key(m, k) {
                            let j = choose|j: int| 0 <= j < m.len() && #[trigger] m[j].0@ == k;
                            assert(old_notes[j].0@ == k);
                        }
                    }
                }
            },
            None => {
                let e = (n.id.clone(), n);
                proof {
                    lemma_push_fresh(self.notes@, e);
                }
                self.notes.push(e);
            },
        }
    }

    /// Resolves a raw note (see `resolve_spec`): the cached note where its
    /// fingerprint is unchanged, otherwise a rebuilt one, which replaces the
    /// cached entry; `true` marks a cache hit.
    pub fn resolve_note(&mut self, raw: &RawNote) -> (r: Option<(Arc<Note>, bool)>)
        requires
            old(self).wf(),
        ensures
            resolve_spec(*old(self), *raw, *final(self), r),
    {
        let ghost s0 = *self;
        let hash = reactions_hash(raw);
        match find_key(&self.notes, raw.id.as_str()) {
            Some(i) => {
                proof {
                    lemma_index_of(self.notes@, i as int);
                }
                if self.notes[i].1.reactions.hash == hash {
                    return Some((self.notes[i].1.clone(), true));
                }
            },
            None => {},
        }
        if raw.renote.is_none() && raw.text.is_none() {
            return None;
        }
        let created_at = match parse_created_at(raw.created_at.as_str()) {
            Some(t) => t,
            None => {
                return None;
            },
        };
        let quote = match &raw.renote {
            Some(q) => {
                match find_key(&self.notes, q.id.as_str()) {
                    Some(j) => {
                        proof {
                            lemma_index_of(self.notes@, j as int);
                        }
                        Some(self.notes[j].1.clone())
                    },
                    None => {
                        let qt = match parse_created_at(q.created_at.as_str()) {
                            Some(t) => t,
                            None => {
                                return None;
                            },
                        };
                        let qn = Arc::new(self.build_note(&**q, None, qt));
                        self.insert_note(qn.clone());
                        Some(qn)
                    },
                }
            },
            None => None,
        };
        let ghost s1 = *self;
        assert(forall|k: Seq<char>| (raw.renote matches Some(q) ==> k != q.id@) ==> #[trigger] s1.note_of(k) == s0.note_of(k));
        let n = Arc::new(self.build_note(raw, quote, created_at));
        let ghost s2 = *self;
        assert(forall|k: Seq<char>| #[trigger] s2.note_of(k) == s1.note_of(k));
        self.insert_note(n.clone());
        assert(forall|k: Seq<char>| k != raw.id@ && (raw.renote matches Some(q) ==> k != q.id@) ==> #[trigger] self.note_of(k) == s0.note_of(k)) by {
            assert forall|k: Seq<char>| k != raw.id@ && (raw.renote matches Some(q) ==> k != q.id@) implies #[trigger] self.note_of(k) == s0.note_of(k) by {
                assert(self.note_of(k) == s2.note_of(k));
                assert(s2.note_of(k) == s1.note_of(k));
                assert(s1.note_of(k) == s0.note_of(k));
            }
        }
        Some((n, false))
    }
}

/// A note whose fingerprint is unchanged since it was last resolved is a
/// cache hit: the second resolution returns the very object of the first
/// and changes nothing, so nothing is rebuilt.
pub proof fn lemma_unchanged_fingerprint_is_hit(
    c0: EntityCache,
    raw1: RawNote,
    c1: EntityCache,
    r1: Option<(Arc<Note>, bool)>,
    raw2: RawNote,
    c2: EntityCache,
    r2: Option<(Arc<Note>, bool)>,
)
    requires
        resolve_spec(c0, raw1, c1, r1),
        resolve_spec(c1, raw2, c2, r2),
        raw2.id@ == raw1.id@,
        fingerprint(raw2.reactions@) == fingerprint(raw1.reactions@),
        r1 is Some,
    ensures
        r2 == Some(((r1->0).0, true)),
        c2 == c1,
{
    assert(is_hit(c1, raw2));
}

/// How many entries a sweep removed from each cache.
#[derive(Clone, Copy, Debug, PartialEq, Eq)]
pub struct SweepReport {
    pub notes: usize,
    pub files: usize,
    pub users: usize,
    pub instances: usize,
    pub emoji: usize,
}

/// How many note passes a sweep makes at most, so that a quoted note whose
/// last quoting note goes is caught in the same sweep.
pub const NOTE_PASSES: usize = 3;

/// The note that `n` quotes stays where it was cached.
pub open spec fn quote_kept(c0: EntityCache, c1: EntityCache, n: Arc<Note>) -> bool {
    match n.quote {
        Some(q) => c0.note_of(q.id@) is Some ==> c1.note_of(q.id@) == c0.note_of(q.id@),
        None => true,
    }
}

/// The author of `n` stays where it was cached.
pub open spec fn author_kept(c0: EntityCache, c1: EntityCache, n: Arc<Note>) -> bool {
    c0.user_of(n.user.id@) is Some ==> c1.user_of(n.user.id@) == c0.user_of(n.user.id@)
}

/// The home instance of `u` stays where it was cached.
pub open spec fn home_kept(c0: EntityCache, c1: EntityCache, u: Arc<UserProfile>) -> bool {
    match u.instance {
        Some(i) => c0.instance_of(i.host@) is Some ==> c1.instance_of(i.host@) == c0.instance_of(i.host@),
        None => true,
    }
}

/// Every cached image file that `n` shows stays.
pub open spec fn files_kept(c0: EntityCache, c1: EntityCache, n: Arc<Note>) -> bool {
    forall|f: int, fk: Seq<char>|
        0 <= f < n.files@.len() && n.files@[f].img is Some && #[trigger] c0.file_of(fk) is Some
            && c0.file_of(fk)->0.img == (#[trigger] n.files@[f]).img ==> c1.file_of(fk) == c0.file_of(fk)
}

/// Some cached note has the user `k` as author.
pub open spec fn user_used(m: Seq<(String, Arc<Note>)>, k: Seq<char>) -> bool {
    exists|j: int| 0 <= j < m.len() && (#[trigger] m[j]).1.user.id@ == k
}

/// Some cached user has the instance `k` as home.
pub open spec fn instance_used(m: Seq<(String, Arc<UserProfile>)>, k: Seq<char>) -> bool {
    exists|j: int| 0 <= j < m.len() && (#[trigger] m[j]).1.instance is Some && m[j].1.instance->0.host@ == k
}

/// The image of a cached file is used by a kept note.
pub open spec fn image_in_use(m: Seq<(String, Arc<Note>)>, url: Seq<char>) -> bool {
    exists|j: int, f: int| 0 <= j < m.len() && 0 <= f < m[j].1.files@.len() && (#[trigger] m[j].1.files@[f]).img is Some
        && m[j].1.files@[f].img->0@ == url
}

/// The emoji keys of the emoji pieces of a rich text, in order.
pub open spec fn text_emoji_keys(r: Seq<crate::model::MFMElement>) -> Seq<Seq<char>>
    decreases r.len(),
{
    if r.len() == 0 {
        Seq::empty()
    } else {
        text_emoji_keys(r.drop_last()) + match r.last() {
            crate::model::MFMElement::Emoji(e, _) => seq![crate::emoji::emoji_key(e.spec_id())],
            _ => Seq::empty(),
        }
    }
}

/// The emoji keys a note uses: its reactions, its text, its content warning
/// and its author's name.
pub open spec fn note_emoji_keys(n: Note) -> Seq<Seq<char>> {
    n.reactions.emojis@.map_values(|p: (crate::emoji::Emoji, u64)| crate::emoji::emoji_key(p.0.spec_id()))
        + text_emoji_keys(n.text.render@) + match n.cw {
        Some(c) => text_emoji_keys(c.render@),
        None => Seq::empty(),
    } + text_emoji_keys(n.user.display_name.render@)
}

/// Some cached note uses the emoji key `k`.
pub open spec fn emoji_key_used(c: EntityCache, k: Seq<char>) -> bool {
    exists|j: Seq<char>| #[trigger] c.note_of(j) is Some && note_emoji_keys(*(c.note_of(j)->0)).contains(k)
}

/// An image that a kept entity uses: one that `extra` names, one a cached
/// note shows (see `note_all_images`), or the image of a cached emoji.
pub open spec fn image_used(c: EntityCache, extra: Seq<Seq<char>>, u: Seq<char>) -> bool {
    ||| extra.contains(u)
    ||| exists|k: Seq<char>| #[trigger] c.note_of(k) is Some && crate::assets::note_all_images(*(c.note_of(k)->0)).contains(u)
    ||| exists|k: Seq<char>| #[trigger] c.spec_emoji().image_of(k) == Some(u)
}

/// One pass of the note sweep from table `m0` to table `m1`.
pub open spec fn notes_step(m0: Seq<(String, Arc<Note>)>, live: Seq<Seq<char>>, m1: Seq<(String, Arc<Note>)>) -> bool {
    forall|k: Seq<char>| #[trigger] lookup(m1, k) == if lookup(m0, k) is Some && note_survives(m0, live, k) {
        lookup(m0, k)
    } else {
        None
    }
}

/// The note sweep: passes `ps` (`ps[0]` the old table, the last the new
/// one), at least one and at most `NOTE_PASSES`, each a `notes_step`;
/// it stops early only after a pass that removed nothing.
pub open spec fn notes_swept(
    m0: Seq<(String, Arc<Note>)>,
    live: Seq<Seq<char>>,
    m1: Seq<(String, Arc<Note>)>,
    ps: Seq<Seq<(String, Arc<Note>)>>,
) -> bool {
    &&& 2 <= ps.len() <= NOTE_PASSES + 1
    &&& ps[0] == m0
    &&& ps.last() == m1
    &&& forall|i: int| 0 <= i < ps.len() - 1 ==> notes_step(#[trigger] ps[i], live, ps[i + 1])
    &&& forall|i: int| 0 <= i < ps.len() - 2 ==> (#[trigger] ps[i + 1]).len() < ps[i].len()
    &&& ps.len() < NOTE_PASSES + 1 ==> ps.last().len() == ps[ps.len() - 2].len()
}

proof fn lemma_image_used_same(c1: EntityCache, c2: EntityCache, extra: Seq<Seq<char>>, u: Seq<char>)
    requires
        c1.note_table() == c2.note_table(),
        c1.spec_emoji() == c2.spec_emoji(),
    ensures
        image_used(c1, extra, u) == image_used(c2, extra, u),
{
    if exists|k: Seq<char>| #[trigger] c1.note_of(k) is Some && crate::assets::note_all_images(*(c1.note_of(k)->0)).contains(u) {
        let k = choose|k: Seq<char>| #[trigger] c1.note_of(k) is Some && crate::assets::note_all_images(*(c1.note_of(k)->0)).contains(u);
        assert(c2.note_of(k) == c1.note_of(k));
    }
    if exists|k: Seq<char>| #[trigger] c2.note_of(k) is Some && crate::assets::note_all_images(*(c2.note_of(k)->0)).contains(u) {
        let k = choose|k: Seq<char>| #[trigger] c2.note_of(k) is Some && crate::assets::note_all_images(*(c2.note_of(k)->0)).contains(u);
        assert(c2.note_of(k) == c1.note_of(k));
    }
    if exists|k: Seq<char>| #[trigger] c1.spec_emoji().image_of(k) == Some(u) {
        let k = choose|k: Seq<char>| #[trigger] c1.spec_emoji().image_of(k) == Some(u);
        assert(c2.spec_emoji().image_of(k) == Some(u));
    }
    if exists|k: Seq<char>| #[trigger] c2.spec_emoji().image_of(k) == Some(u) {
        let k = choose|k: Seq<char>| #[trigger] c2.spec_emoji().image_of(k) == Some(u);
        assert(c1.spec_emoji().image_of(k) == Some(u));
    }
}

proof fn lemma_emoji_key_used_same(c1: EntityCache, c2: EntityCache, k: Seq<char>)
    requires
        c1.note_table() == c2.note_table(),
    ensures
        emoji_key_used(c1, k) == emoji_key_used(c2, k),
{
    if emoji_key_used(c1, k) {
        let j = choose|j: Seq<char>| #[trigger] c1.note_of(j) is Some && note_emoji_keys(*(c1.note_of(j)->0)).contains(k);
        assert(c2.note_of(j) == c1.note_of(j));
    }
    if emoji_key_used(c2, k) {
        let j = choose|j: Seq<char>| #[trigger] c2.note_of(j) is Some && note_emoji_keys(*(c2.note_of(j)->0)).contains(k);
        assert(c2.note_of(j) == c1.note_of(j));
    }
}

/// What a sweep does (see `EntityCache::sweep`): from `c0` with live notes
/// `live` and named images `extra` to `c1`, with report `r`.
pub open spec fn sweep_spec(c0: EntityCache, live: Seq<Seq<char>>, extra: Seq<Seq<char>>, c1: EntityCache, r: SweepReport) -> bool {
    &&& forall|k: Seq<char>| live.contains(k) && c0.note_of(k) is Some
            ==> #[trigger] c1.note_of(k) == c0.note_of(k)
    &&& forall|k: Seq<char>| #[trigger] c1.note_of(k) is Some ==> c1.note_of(k) == c0.note_of(k)
    &&& forall|k: Seq<char>| #[trigger] c1.note_of(k) is Some ==> quote_kept(c0, c1, c1.note_of(k)->0)
    &&& forall|k: Seq<char>| #[trigger] c1.note_of(k) is Some ==> author_kept(c0, c1, c1.note_of(k)->0)
    &&& forall|k: Seq<char>| #[trigger] c1.note_of(k) is Some ==> files_kept(c0, c1, c1.note_of(k)->0)
    &&& forall|k: Seq<char>| #[trigger] c1.user_of(k) is Some ==> c1.user_of(k) == c0.user_of(k)
    &&& forall|k: Seq<char>| #[trigger] c1.user_of(k) is Some ==> home_kept(c0, c1, c1.user_of(k)->0)
    &&& forall|k: Seq<char>| #[trigger] c1.note_of(k) is Some ==> note_images_kept(c0, c1, c1.note_of(k)->0)
    &&& forall|u: Seq<char>| #[trigger] c0.spec_images().entry(u) matches Some(e) && (e.spec_loading() || extra.contains(u))
            ==> c1.spec_images().entry(u) == c0.spec_images().entry(u)
    &&& exists|ps: Seq<Seq<(String, Arc<Note>)>>| #[trigger] notes_swept(c0.note_table(), live, c1.note_table(), ps)
    &&& forall|k: Seq<char>| #[trigger] c1.user_of(k) == if c0.user_of(k) is Some && user_used(c1.note_table(), k) {
            c0.user_of(k)
        } else {
            None
        }
    &&& forall|k: Seq<char>| #[trigger] c1.instance_of(k) == if c0.instance_of(k) is Some && instance_used(c1.user_table(), k) {
            c0.instance_of(k)
        } else {
            None
        }
    &&& forall|k: Seq<char>| #[trigger] c1.file_of(k) == if c0.file_of(k) matches Some(e)
            && file_survives(e, c1.note_table(), c0.spec_images()) {
            c0.file_of(k)
        } else {
            None
        }
    &&& forall|k: Seq<char>| #[trigger] c1.spec_emoji().image_of(k) == if c0.spec_emoji().image_of(k) is Some
            && !emoji_key_used(c1, k) && (c0.spec_images().entry(c0.spec_emoji().image_of(k)->0) matches Some(e)
            && e.spec_loaded()) {
            None
        } else {
            c0.spec_emoji().image_of(k)
        }
    &&& forall|u: Seq<char>| #[trigger] c1.spec_images().entry(u) == if c0.spec_images().entry(u) matches Some(e)
            && (e.spec_loading() || image_used(c1, extra, u)) {
            c0.spec_images().entry(u)
        } else {
            None
        }
    &&& r.notes == c0.note_table().len() - c1.note_table().len()
    &&& r.users == c0.user_table().len() - c1.user_table().len()
    &&& r.instances == c0.instance_table().len() - c1.instance_table().len()
    &&& r.files == c0.file_table().len() - c1.file_table().len()
    &&& r.emoji == c0.spec_emoji().spec_map().len() - c1.spec_emoji().spec_map().len()
}

/// Every image that note `n` shows and that was in the store stays.
pub open spec fn note_images_kept(c0: EntityCache, c1: EntityCache, n: Arc<Note>) -> bool {
    forall|u: Seq<char>| crate::assets::note_all_images(*n).contains(u) && #[trigger] c0.spec_images().entry(u) is Some
        ==> c1.spec_images().entry(u) == c0.spec_images().entry(u)
}

/// Whether a file entry survives: it is an image, and its image is still
/// loading or is used by a kept note.
pub open spec fn file_survives(e: NoteFile, m: Seq<(String, Arc<Note>)>, images: ImageStore) -> bool {
    match e.img {
        Some(u) => !(images.entry(u@) matches Some(i) && i.spec_loaded()) || image_in_use(m, u@),
        None => false,
    }
}

impl EntityCache {
    /// One pass of the note sweep: keeps the live notes and the notes that a
    /// cached note quotes; the rest goes. Returns how many went.
    fn sweep_notes_pass(&mut self, live: &Vec<String>) -> (removed: usize)
        requires
            old(self).wf(),
        ensures
            final(self).wf(),
            final(self).user_table() == old(self).user_table(),
            final(self).instance_table() == old(self).instance_table(),
            final(self).file_table() == old(self).file_table(),
            final(self).spec_images() == old(self).spec_images(),
            final(self).spec_emoji() == old(self).spec_emoji(),
            removed == old(self).note_table().len() - final(self).note_table().len(),
            forall|k: Seq<char>| #[trigger] final(self).note_of(k) == if old(self).note_of(k) is Some
                && note_survives(old(self).note_table(), views(live@), k) {
                old(self).note_of(k)
            } else {
                None
            },
    {
        let ghost lv = views(live@);
        let ghost m = self.notes@;
        let mut keep: Vec<bool> = Vec::new();
        let n = self.notes.len();
        let mut i: usize = 0;
        while i < n
            invariant
                n == m.len(),
                m == self.notes@,
                lv == views(live@),
                i <= n,
                keep@.len() == i,
                forall|a: int| 0 <= a < i ==> #[trigger] keep@[a] == note_survives(m, lv, m[a].0@),
            decreases n - i,
        {
            let key = self.notes[i].0.as_str();
            let mut k = crate::table::contains_str(live, key);
            proof {
                if k {
                    let j = choose|j: int| 0 <= j < live@.len() && #[trigger] live@[j]@ == key@;
                    assert(lv[j] == key@);
                }
                if lv.contains(key@) {
                    let j = choose|j: int| 0 <= j < lv.len() && lv[j] == key@;
                    assert(live@[j]@ == key@);
                }
            }
            let mut j: usize = 0;
            let mut quoted = false;
            while j < n
                invariant
                    n == m.len(),
                    m == self.notes@,
                    i < n,
                    key@ == m[i as int].0@,
                    j <= n,
                    quoted == exists|b: int| 0 <= b < j && (#[trigger] m[b].1.quote matches Some(q) && q.id@ == key@),
                decreases n - j,
            {
                match &self.notes[j].1.quote {
                    Some(q) => {
                        if crate::text::str_eq(q.id.as_str(), key) {
                            quoted = true;
                        }
                    },
                    None => {},
                }
                j = j + 1;
            }
            keep.push(k || quoted);
            i = i + 1;
        }
        let before = self.notes.len();
        crate::table::retain_marked(&mut self.notes, &keep);
        proof {
            let f = self.notes@;
            assert forall|a: int| 0 <= a < f.len() implies (#[trigger] f[a]).1.id@ == f[a].0@ by {
                lemma_index_of(f, a);
                let b = crate::table::index_of(m, f[a].0@);
                lemma_index_of(m, b);
            }
            assert forall|k: Seq<char>| #[trigger] lookup(f, k) == if lookup(m, k) is Some && note_survives(m, lv, k) {
                lookup(m, k)
            } else {
                None
            } by {
                if has_key(m, k) {
                    let b = crate::table::index_of(m, k);
                    lemma_index_of(m, b);
                }
            }
        }
        before - self.notes.len()
    }

    /// The emoji keys that the cached notes use (see `note_emoji_keys`).
    fn emoji_in_use(&self) -> (r: Vec<String>)
        requires
            self.wf(),
        ensures
            forall|k: Seq<char>| #[trigger] views(r@).contains(k) <==> emoji_key_used(*self, k),
    {
        let mut r: Vec<String> = Vec::new();
        let mut i: usize = 0;
        while i < self.notes.len()
            invariant
                self.wf(),
                i <= self.notes@.len(),
                forall|k: Seq<char>| #[trigger] views(r@).contains(k) <==> exists|j: int| 0 <= j < i && note_emoji_keys(*self.notes@[j].1).contains(k),
            decreases self.notes@.len() - i,
        {
            let mut more = note_emoji_key_list(&self.notes[i].1);
            let ghost before = r@;
            let ghost added = more@;
            r.append(&mut more);
            proof {
                assert(r@ =~= before + added);
                assert(views(r@) =~= views(before) + views(added));
                assert forall|k: Seq<char>| #[trigger] views(r@).contains(k) <==> exists|j: int| 0 <= j < i + 1 && note_emoji_keys(*self.notes@[j].1).contains(k) by {
                    if views(r@).contains(k) {
                        let x = choose|x: int| 0 <= x < views(r@).len() && views(r@)[x] == k;
                        if x < before.len() {
                            assert(views(before)[x] == k);
                            assert(views(before).contains(k));
                        } else {
                            assert(views(added)[x - before.len()] == k);
                        }
                    }
                    if exists|j: int| 0 <= j < i + 1 && note_emoji_keys(*self.notes@[j].1).contains(k) {
                        let j = choose|j: int| 0 <= j < i + 1 && note_emoji_keys(*self.notes@[j].1).contains(k);
                        if j < i {
                            assert(views(before).contains(k));
                            let x = choose|x: int| 0 <= x < views(before).len() && views(before)[x] == k;
                            assert(views(r@)[x] == views(before)[x]);
                        } else {
                            let x = choose|x: int| 0 <= x < views(added).len() && views(added)[x] == k;
                            assert(views(r@)[before.len() + x] == k);
                        }
                    }
                }
            }
            i = i + 1;
        }
        proof {
            assert forall|k: Seq<char>| #[trigger] views(r@).contains(k) <==> emoji_key_used(*self, k) by {
                if views(r@).contains(k) {
                    let j = choose|j: int| 0 <= j < self.notes@.len() && note_emoji_keys(*self.notes@[j].1).contains(k);
                    lemma_index_of(self.notes@, j);
                    assert(self.note_of(self.notes@[j].0@) is Some);
                }
                if emoji_key_used(*self, k) {
                    let n = choose|n: Seq<char>| #[trigger] self.note_of(n) is Some && note_emoji_keys(*(self.note_of(n)->0)).contains(k);
                    let j = crate::table::index_of(self.notes@, n);
                    lemma_index_of(self.notes@, j);
                }
            }
        }
        r
    }

    /// The images that kept entities use: every image of every cached note
    /// in either thumbnail mode with its placeholders, the images of the
    /// cached emoji, and those `extra` names.
    fn images_in_use(&self, extra: &Vec<String>) -> (r: Vec<String>)
        requires
            self.wf(),
        ensures
            forall|k: Seq<char>, u: Seq<char>| #[trigger] self.note_of(k) is Some && crate::assets::note_all_images(
                *(self.note_of(k)->0),
            ).contains(u) ==> #[trigger] views(r@).contains(u),
            forall|k: Seq<char>| #[trigger] self.spec_emoji().image_of(k) is Some ==> views(r@).contains(
                self.spec_emoji().image_of(k)->0,
            ),
            forall|u: Seq<char>| #[trigger] views(extra@).contains(u) ==> views(r@).contains(u),
            forall|u: Seq<char>| #[trigger] views(r@).contains(u) ==> image_used(*self, views(extra@), u),
    {
        let mut r: Vec<String> = extra.clone();
        let ghost e0 = r@;
        assert(views(r@) =~= views(extra@));
        let mut i: usize = 0;
        while i < self.notes.len()
            invariant
                self.wf(),
                i <= self.notes@.len(),
                forall|u: Seq<char>| #[trigger] views(extra@).contains(u) ==> views(r@).contains(u),
                forall|j: int, u: Seq<char>| 0 <= j < i && #[trigger] crate::assets::note_all_images(*self.notes@[j].1).contains(u)
                    ==> views(r@).contains(u),
                forall|u: Seq<char>| #[trigger] views(r@).contains(u) ==> views(extra@).contains(u) || exists|j: int|
                    0 <= j < i && crate::assets::note_all_images(*self.notes@[j].1).contains(u),
            decreases self.notes@.len() - i,
        {
            let mut more = crate::assets::note_all_image_urls(&self.notes[i].1);
            let ghost before = r@;
            let ghost added = more@;
            r.append(&mut more);
            proof {
                assert(r@ =~= before + added);
                assert(views(r@) =~= views(before) + views(added));
                assert forall|u: Seq<char>| views(before).contains(u) implies views(r@).contains(u) by {
                    let j = choose|j: int| 0 <= j < views(before).len() && views(before)[j] == u;
                    assert(views(r@)[j] == u);
                }
                assert forall|u: Seq<char>| views(added).contains(u) implies views(r@).contains(u) by {
                    let j = choose|j: int| 0 <= j < views(added).len() && views(added)[j] == u;
                    assert(views(r@)[before.len() + j] == u);
                }
                assert forall|u: Seq<char>| #[trigger] views(r@).contains(u) implies views(extra@).contains(u) || exists|j: int|
                    0 <= j < i + 1 && crate::assets::note_all_images(*self.notes@[j].1).contains(u) by {
                    let x = choose|x: int| 0 <= x < views(r@).len() && views(r@)[x] == u;
                    if x < before.len() {
                        assert(views(before)[x] == u);
                        assert(views(before).contains(u));
                    } else {
                        assert(views(added) == crate::assets::note_all_images(*self.notes@[i as int].1));
                        assert(views(added)[x - before.len()] == u);
                        assert(crate::assets::note_all_images(*self.notes@[i as int].1).contains(u));
                    }
                }
            }
            i = i + 1;
        }
        let mut em = self.emoji.image_urls();
        let ghost before = r@;
        let ghost added = em@;
        r.append(&mut em);
        proof {
            assert(r@ =~= before + added);
            assert(views(r@) =~= views(before) + views(added));
            assert forall|u: Seq<char>| views(before).contains(u) implies views(r@).contains(u) by {
                let j = choose|j: int| 0 <= j < views(before).len() && views(before)[j] == u;
                assert(views(r@)[j] == u);
            }
            assert forall|u: Seq<char>| views(added).contains(u) implies views(r@).contains(u) by {
                let j = choose|j: int| 0 <= j < views(added).len() && views(added)[j] == u;
                assert(views(r@)[before.len() + j] == u);
            }
            assert forall|k: Seq<char>, u: Seq<char>| #[trigger] self.note_of(k) is Some && crate::assets::note_all_images(
                *(self.note_of(k)->0),
            ).contains(u) implies #[trigger] views(r@).contains(u) by {
                let j = crate::table::index_of(self.notes@, k);
                lemma_index_of(self.notes@, j);
            }
            assert forall|u: Seq<char>| #[trigger] views(r@).contains(u) implies image_used(*self, views(extra@), u) by {
                let x = choose|x: int| 0 <= x < views(r@).len() && views(r@)[x] == u;
                if x < before.len() {
                    assert(views(before)[x] == u);
                    assert(views(before).contains(u));
                    if !views(extra@).contains(u) {
                        let j = choose|j: int| 0 <= j < self.notes@.len() && crate::assets::note_all_images(*self.notes@[j].1).contains(u);
                        lemma_index_of(self.notes@, j);
                        assert(self.note_of(self.notes@[j].0@) is Some);
                    }
                } else {
                    assert(views(added)[x - before.len()] == u);
                    assert(views(added).contains(u));
                }
            }
        }
        r
    }

    /// Sweeps the caches. Notes go in up to three passes (see
    /// `sweep_notes_pass`); then users that no kept note has as author,
    /// instances that no kept user has as home, files that are not images,
    /// or whose image has loaded and no kept note shows, emoji whose image
    /// has loaded and no kept note uses, and images that are not loading and
    /// that no kept note or emoji uses and `extra` does not name.
    ///
    /// Nothing reachable from the live notes goes: a live note stays, and so
    /// do the note a kept note quotes, its author, the author's instance,
    /// the cached image files it shows and every image it shows.
    pub fn sweep(&mut self, live: &Vec<String>, extra: &Vec<String>) -> (r: SweepReport)
        requires
            old(self).wf(),
        ensures
            final(self).wf(),
            sweep_spec(*old(self), views(live@), views(extra@), *final(self), r),
    {
        let ghost s0 = *self;
        let ghost lv = views(live@);
        let mut notes_removed: usize = 0;
        let mut pass: usize = 0;
        let mut done = false;
        let total = self.notes.len();
        let ghost mut ps: Seq<Seq<(String, Arc<Note>)>> = seq![s0.note_table()];
        while pass < NOTE_PASSES && !done
            invariant
                self.wf(),
                ps.len() == pass + 1,
                ps[0] == s0.note_table(),
                ps.last() == self.note_table(),
                forall|i: int| 0 <= i < ps.len() - 1 ==> notes_step(#[trigger] ps[i], lv, ps[i + 1]),
                forall|i: int| 0 <= i < ps.len() - 2 ==> (#[trigger] ps[i + 1]).len() < ps[i].len(),
                pass > 0 && !done ==> ps.last().len() < ps[ps.len() - 2].len(),
                done ==> pass > 0 && ps.last().len() == ps[ps.len() - 2].len(),
                pass <= NOTE_PASSES,
                total == s0.note_table().len(),
                lv == views(live@),
                self.user_table() == s0.user_table(),
                self.instance_table() == s0.instance_table(),
                self.file_table() == s0.file_table(),
                self.spec_images() == s0.spec_images(),
                self.spec_emoji() == s0.spec_emoji(),
                notes_removed + self.note_table().len() == s0.note_table().len(),
                forall|k: Seq<char>| lv.contains(k) && s0.note_of(k) is Some ==> #[trigger] self.note_of(k) == s0.note_of(k),
                forall|k: Seq<char>| #[trigger] self.note_of(k) is Some ==> self.note_of(k) == s0.note_of(k),
                forall|k: Seq<char>| #[trigger] self.note_of(k) is Some ==> quote_kept(s0, *self, self.note_of(k)->0),
            decreases NOTE_PASSES - pass,
        {
            let ghost cur = *self;
            let removed = self.sweep_notes_pass(live);
            proof {
                let old_ps = ps;
                ps = ps.push(self.note_table());
                assert(notes_step(old_ps.last(), lv, self.note_table())) by {
                    assert forall|k: Seq<char>| #[trigger] lookup(self.note_table(), k) == if lookup(cur.note_table(), k) is Some
                        && note_survives(cur.note_table(), lv, k) {
                        lookup(cur.note_table(), k)
                    } else {
                        None
                    } by {
                        assert(self.note_of(k) == lookup(self.note_table(), k));
                    }
                }
                assert forall|i: int| 0 <= i < ps.len() - 1 implies notes_step(#[trigger] ps[i], lv, ps[i + 1]) by {
                    if i < old_ps.len() - 1 {
                        assert(ps[i] == old_ps[i] && ps[i + 1] == old_ps[i + 1]);
                    }
                }
                assert forall|i: int| 0 <= i < ps.len() - 2 implies (#[trigger] ps[i + 1]).len() < ps[i].len() by {
                    assert(ps[i] == old_ps[i] && ps[i + 1] == old_ps[i + 1]);
                }
            }
            proof {
                assert forall|k: Seq<char>| #[trigger] self.note_of(k) is Some implies quote_kept(s0, *self, self.note_of(k)->0) by {
                    let n = self.note_of(k)->0;
                    if n.quote is Some {
                        let q = n.quote->0;
                        if s0.note_of(q.id@) is Some {
                            assert(cur.note_of(k) == Some(n));
                            assert(quote_kept(s0, cur, n));
                            assert(cur.note_of(q.id@) == s0.note_of(q.id@));
                            let b = crate::table::index_of(cur.note_table(), k);
                            lemma_index_of(cur.note_table(), b);
                            assert(quotes(cur.note_table(), q.id@));
                        }
                    }
                }
            }
            notes_removed = notes_removed + removed;
            if removed == 0 {
                done = true;
            }
            pass = pass + 1;
        }
        let ghost s1 = *self;
        proof {
            assert(notes_swept(s0.note_table(), views(live@), s1.note_table(), ps));
        }
        let users_removed = self.sweep_users();
        let ghost s2 = *self;
        let instances_removed = self.sweep_instances();
        let ghost s3 = *self;
        let files_removed = self.sweep_files();
        let ghost s4 = *self;
        let in_use = self.emoji_in_use();
        let emoji_removed = self.emoji.trim(&in_use, &self.images);
        let ghost s5 = *self;
        let keep = self.images_in_use(extra);
        self.images.retain(&keep);
        proof {
            assert(s5.note_table() == s1.note_table());
            assert(s5.spec_images() == s0.spec_images());
            assert forall|k: Seq<char>| #[trigger] self.note_of(k) is Some implies note_images_kept(s0, *self, self.note_of(k)->0) by {
                let n = self.note_of(k)->0;
                assert(s5.note_of(k) == self.note_of(k));
                assert forall|u: Seq<char>| crate::assets::note_all_images(*n).contains(u) && #[trigger] s0.spec_images().entry(u) is Some
                    implies self.spec_images().entry(u) == s0.spec_images().entry(u) by {
                    assert(views(keep@).contains(u));
                }
            }
            assert(self.note_table() == s5.note_table());
            assert(self.spec_emoji() == s5.spec_emoji());
            assert forall|u: Seq<char>| #[trigger] self.spec_images().entry(u) == if s0.spec_images().entry(u) matches Some(e)
                && (e.spec_loading() || image_used(*self, views(extra@), u)) {
                s0.spec_images().entry(u)
            } else {
                None
            } by {
                assert(views(keep@).contains(u) == image_used(s5, views(extra@), u)) by {
                    if image_used(s5, views(extra@), u) {
                        if exists|k: Seq<char>| #[trigger] s5.note_of(k) is Some && crate::assets::note_all_images(*(s5.note_of(k)->0)).contains(u) {
                            let k = choose|k: Seq<char>| #[trigger] s5.note_of(k) is Some && crate::assets::note_all_images(*(s5.note_of(k)->0)).contains(u);
                            assert(views(keep@).contains(u));
                        }
                        if exists|k: Seq<char>| #[trigger] s5.spec_emoji().image_of(k) == Some(u) {
                            let k = choose|k: Seq<char>| #[trigger] s5.spec_emoji().image_of(k) == Some(u);
                            assert(s5.spec_emoji().image_of(k) is Some);
                        }
                    }
                }
                lemma_image_used_same(s5, *self, views(extra@), u);
            }
            assert forall|k: Seq<char>| #[trigger] self.spec_emoji().image_of(k) == if s0.spec_emoji().image_of(k) is Some
                && !emoji_key_used(*self, k) && (s0.spec_images().entry(s0.spec_emoji().image_of(k)->0) matches Some(e)
                && e.spec_loaded()) {
                None
            } else {
                s0.spec_emoji().image_of(k)
            } by {
                assert(self.spec_emoji() == s5.spec_emoji());
                lemma_emoji_key_used_same(s4, *self, k);
                assert(views(in_use@).contains(k) == emoji_key_used(s4, k));
                assert(s4.spec_emoji() == s0.spec_emoji());
                if s0.spec_emoji().image_of(k) is Some {
                    let j = crate::table::index_of(s0.spec_emoji().spec_map(), k);
                    lemma_index_of(s0.spec_emoji().spec_map(), j);
                    assert(crate::emoji::value_pair(s0.spec_emoji().spec_map(), k).0@ == k);
                }
            }
            assert forall|u: Seq<char>| #[trigger] s0.spec_images().entry(u) matches Some(e) && (e.spec_loading() || views(extra@).contains(u))
                implies self.spec_images().entry(u) == s0.spec_images().entry(u) by {
                if views(extra@).contains(u) {
                    assert(views(keep@).contains(u));
                }
            }
            assert(self.note_table() == s1.note_table());
            assert(self.user_table() == s2.user_table());
            assert(s3.user_table() == s2.user_table());
            assert(s2.note_table() == s1.note_table());
            assert(s1.user_table() == s0.user_table());
            assert(s2.instance_table() == s1.instance_table());
            assert(self.instance_table() == s3.instance_table());
            assert(s3.file_table() == s0.file_table());
            assert(self.file_table() == s4.file_table());
            assert forall|k: Seq<char>| views(live@).contains(k) && s0.note_of(k) is Some implies #[trigger] self.note_of(k) == s0.note_of(k) by {
                assert(s1.note_of(k) == s0.note_of(k));
            }
            assert forall|k: Seq<char>| #[trigger] self.user_of(k) == if s0.user_of(k) is Some && user_used(self.note_table(), k) {
                s0.user_of(k)
            } else {
                None
            } by {
                assert(s2.user_of(k) == self.user_of(k));
            }
            assert forall|k: Seq<char>| #[trigger] self.instance_of(k) == if s0.instance_of(k) is Some && instance_used(self.user_table(), k) {
                s0.instance_of(k)
            } else {
                None
            } by {
                assert(s3.instance_of(k) == self.instance_of(k));
            }
            assert forall|k: Seq<char>| #[trigger] self.file_of(k) == if s0.file_of(k) matches Some(e)
                && file_survives(e, self.note_table(), s0.spec_images()) {
                s0.file_of(k)
            } else {
                None
            } by {
                assert(s4.file_of(k) == self.file_of(k));
            }
            assert forall|k: Seq<char>| #[trigger] self.user_of(k) is Some implies self.user_of(k) == s0.user_of(k) by {
                assert(s2.user_of(k) == self.user_of(k));
            }
            assert forall|k: Seq<char>| #[trigger] self.note_of(k) is Some implies self.note_of(k) == s0.note_of(k) by {
                assert(s1.note_of(k) == self.note_of(k));
            }
            assert forall|k: Seq<char>| #[trigger] self.note_of(k) is Some implies quote_kept(s0, *self, self.note_of(k)->0) by {
                assert(s1.note_of(k) == self.note_of(k));
                assert(quote_kept(s0, s1, s1.note_of(k)->0));
                let n = self.note_of(k)->0;
                if n.quote is Some {
                    assert(s1.note_of(n.quote->0.id@) == self.note_of(n.quote->0.id@));
                }
            }
            assert forall|k: Seq<char>| #[trigger] self.note_of(k) is Some implies author_kept(s0, *self, self.note_of(k)->0) by {
                let n = self.note_of(k)->0;
                let b = crate::table::index_of(s1.note_table(), k);
                lemma_index_of(s1.note_table(), b);
                assert(user_used(s1.note_table(), n.user.id@));
                assert(s2.user_of(n.user.id@) == s1.user_of(n.user.id@));
            }
            assert forall|k: Seq<char>| #[trigger] self.user_of(k) is Some implies home_kept(s0, *self, self.user_of(k)->0) by {
                let u = self.user_of(k)->0;
                let b = crate::table::index_of(s2.user_table(), k);
                lemma_index_of(s2.user_table(), b);
                if u.instance is Some {
                    assert(instance_used(s2.user_table(), u.instance->0.host@));
                    assert(s3.instance_of(u.instance->0.host@) == s2.instance_of(u.instance->0.host@));
                }
            }
            assert forall|k: Seq<char>| #[trigger] self.note_of(k) is Some implies files_kept(s0, *self, self.note_of(k)->0) by {
                let n = self.note_of(k)->0;
                let b = crate::table::index_of(s1.note_table(), k);
                lemma_index_of(s1.note_table(), b);
                assert(s3.note_table()[b].1 == n);
                assert forall|f: int, fk: Seq<char>|
                    0 <= f < n.files@.len() && n.files@[f].img is Some && #[trigger] s0.file_of(fk) is Some
                        && s0.file_of(fk)->0.img == (#[trigger] n.files@[f]).img implies self.file_of(fk) == s0.file_of(fk) by {
                    assert(s3.note_table()[b].1.files@[f] == n.files@[f]);
                    assert(image_in_use(s3.note_table(), n.files@[f].img->0@));
                    assert(s3.file_of(fk) == s0.file_of(fk));
                    assert(file_survives(s3.file_of(fk)->0, s3.note_table(), s3.spec_images()));
                    assert(s4.file_of(fk) == s3.file_of(fk));
                }
            }
        }
        SweepReport {
            notes: notes_removed,
            files: files_removed,
            users: users_removed,
            instances: instances_removed,
            emoji: emoji_removed,
        }
    }

    /// Drops the users that no cached note has as author.
    fn sweep_users(&mut self) -> (removed: usize)
        requires
            old(self).wf(),
        ensures
            final(self).wf(),
            final(self).note_table() == old(self).note_table(),
            final(self).instance_table() == old(self).instance_table(),
            final(self).file_table() == old(self).file_table(),
            final(self).spec_images() == old(self).spec_images(),
            final(self).spec_emoji() == old(self).spec_emoji(),
            removed == old(self).user_table().len() - final(self).user_table().len(),
            forall|k: Seq<char>| #[trigger] final(self).user_of(k) == if old(self).user_of(k) is Some
                && user_used(old(self).note_table(), k) {
                old(self).user_of(k)
            } else {
                None
            },
    {
        let ghost m = self.users@;
        let mut keep: Vec<bool> = Vec::new();
        let n = self.users.len();
        let mut i: usize = 0;
        while i < n
            invariant
                n == m.len(),
                m == self.users@,
                i <= n,
                keep@.len() == i,
                forall|a: int| 0 <= a < i ==> #[trigger] keep@[a] == user_used(self.notes@, m[a].0@),
            decreases n - i,
        {
            let key = self.users[i].0.as_str();
            let mut j: usize = 0;
            let mut used = false;
            while j < self.notes.len()
                invariant
                    i < n,
                    n == m.len(),
                    m == self.users@,
                    key@ == m[i as int].0@,
                    j <= self.notes@.len(),
                    used == exists|b: int| 0 <= b < j && (#[trigger] self.notes@[b]).1.user.id@ == key@,
                decreases self.notes@.len() - j,
            {
                if crate::text::str_eq(self.notes[j].1.user.id.as_str(), key) {
                    used = true;
                }
                j = j + 1;
            }
            keep.push(used);
            i = i + 1;
        }
        let before = self.users.len();
        crate::table::retain_marked(&mut self.users, &keep);
        proof {
            assert forall|k: Seq<char>| #[trigger] lookup(self.users@, k) == if lookup(m, k) is Some
                && user_used(self.notes@, k) {
                lookup(m, k)
            } else {
                None
            } by {
                if has_key(m, k) {
                    let b = crate::table::index_of(m, k);
                    lemma_index_of(m, b);
                }
            }
        }
        before - self.users.len()
    }

    /// Drops the instances that no cached user has as home.
    fn sweep_instances(&mut self) -> (removed: usize)
        requires
            old(self).wf(),
        ensures
            final(self).wf(),
            final(self).note_table() == old(self).note_table(),
            final(self).user_table() == old(self).user_table(),
            final(self).file_table() == old(self).file_table(),
            final(self).spec_images() == old(self).spec_images(),
            final(self).spec_emoji() == old(self).spec_emoji(),
            removed == old(self).instance_table().len() - final(self).instance_table().len(),
            forall|k: Seq<char>| #[trigger] final(self).instance_of(k) == if old(self).instance_of(k) is Some
                && instance_used(old(self).user_table(), k) {
                old(self).instance_of(k)
            } else {
                None
            },
    {
        let ghost m = self.instances@;
        let mut keep: Vec<bool> = Vec::new();
        let n = self.instances.len();
        let mut i: usize = 0;
        while i < n
            invariant
                n == m.len(),
                m == self.instances@,
                i <= n,
                keep@.len() == i,
                forall|a: int| 0 <= a < i ==> #[trigger] keep@[a] == instance_used(self.users@, m[a].0@),
            decreases n - i,
        {
            let key = self.instances[i].0.as_str();
            let mut j: usize = 0;
            let mut used = false;
            while j < self.users.len()
                invariant
                    i < n,
                    n == m.len(),
                    m == self.instances@,
                    key@ == m[i as int].0@,
                    j <= self.users@.len(),
                    used == exists|b: int| 0 <= b < j && (#[trigger] self.users@[b]).1.instance is Some && self.users@[b].1.instance->0.host@ == key@,
                decreases self.users@.len() - j,
            {
                match &self.users[j].1.instance {
                    Some(x) => {
                        if crate::text::str_eq(x.host.as_str(), key) {
                            used = true;
                        }
                    },
                    None => {},
                }
                j = j + 1;
            }
            keep.push(used);
            i = i + 1;
        }
        let before = self.instances.len();
        crate::table::retain_marked(&mut self.instances, &keep);
        proof {
            assert forall|k: Seq<char>| #[trigger] lookup(self.instances@, k) == if lookup(m, k) is Some
                && instance_used(self.users@, k) {
                lookup(m, k)
            } else {
                None
            } by {
                if has_key(m, k) {
                    let b = crate::table::index_of(m, k);
                    lemma_index_of(m, b);
                }
            }
        }
        before - self.instances.len()
    }

    /// Drops the file entries that are not images, and those whose image
    /// has loaded and that no cached note shows.
    fn sweep_files(&mut self) -> (removed: usize)
        requires
            old(self).wf(),
        ensures
            final(self).wf(),
            final(self).note_table() == old(self).note_table(),
            final(self).user_table() == old(self).user_table(),
            final(self).instance_table() == old(self).instance_table(),
            final(self).spec_images() == old(self).spec_images(),
            final(self).spec_emoji() == old(self).spec_emoji(),
            removed == old(self).file_table().len() - final(self).file_table().len(),
            forall|k: Seq<char>| #[trigger] final(self).file_of(k) == if old(self).file_of(k) matches Some(e)
                && file_survives(e, old(self).note_table(), old(self).spec_images()) {
                old(self).file_of(k)
            } else {
                None
            },
    {
        let ghost m = self.files@;
        let mut keep: Vec<bool> = Vec::new();
        let n = self.files.len();
        let mut i: usize = 0;
        while i < n
            invariant
                self.wf(),
                n == m.len(),
                m == self.files@,
                i <= n,
                keep@.len() == i,
                forall|a: int| 0 <= a < i ==> #[trigger] keep@[a] == file_survives(m[a].1, self.notes@, self.images),
            decreases n - i,
        {
            let survives = match &self.files[i].1.img {
                None => false,
                Some(u) => {
                    if !self.images.is_loaded(u.as_str()) {
                        true
                    } else {
                        self.shows_image(u.as_str())
                    }
                },
            };
            keep.push(survives);
            i = i + 1;
        }
        let before = self.files.len();
        crate::table::retain_marked(&mut self.files, &keep);
        proof {
            assert forall|k: Seq<char>| #[trigger] lookup(self.files@, k) == if lookup(m, k) matches Some(e)
                && file_survives(e, self.notes@, self.images) {
                lookup(m, k)
            } else {
                None
            } by {
                if has_key(m, k) {
                    let b = crate::table::index_of(m, k);
                    lemma_index_of(m, b);
                }
            }
        }
        before - self.files.len()
    }

    /// Whether a cached note shows the image `url` among its files.
    fn shows_image(&self, url: &str) -> (r: bool)
        ensures
            r == image_in_use(self.notes@, url@),
    {
        let mut j: usize = 0;
        while j < self.notes.len()
            invariant
                j <= self.notes@.len(),
                forall|b: int, f: int| 0 <= b < j && 0 <= f < self.notes@[b].1.files@.len() ==> !((#[trigger] self.notes@[b].1.files@[f]).img is Some && self.notes@[b].1.files@[f].img->0@ == url@),
            decreases self.notes@.len() - j,
        {
            let files = &self.notes[j].1.files;
            let mut f: usize = 0;
            while f < files.len()
                invariant
                    j < self.notes@.len(),
                    *files == self.notes@[j as int].1.files,
                    f <= files@.len(),
                    forall|g: int| 0 <= g < f ==> !((#[trigger] files@[g]).img is Some && files@[g].img->0@ == url@),
                decreases files@.len() - f,
            {
                match &files[f].img {
                    Some(u) => {
                        if crate::text::str_eq(u.as_str(), url) {
                            return true;
                        }
                    },
                    None => {},
                }
                f = f + 1;
            }
            j = j + 1;
        }
        false
    }
}

/// The emoji keys of a rich text, in order.
fn text_key_list(t: &MFMString) -> (r: Vec<String>)
    ensures
        views(r@) == text_emoji_keys(t.render@),
{
    let mut r: Vec<String> = Vec::new();
    let mut i: usize = 0;
    while i < t.render.len()
        invariant
            i <= t.render@.len(),
            views(r@) == text_emoji_keys(t.render@.subrange(0, i as int)),
        decreases t.render@.len() - i,
    {
        let ghost next = t.render@.subrange(0, i as int + 1);
        assert(next.drop_last() =~= t.render@.subrange(0, i as int));
        let ghost before = r@;
        match &t.render[i] {
            crate::model::MFMElement::Emoji(e, _) => {
                r.push(e.id_raw().id());
                assert(views(r@) =~= views(before).push(crate::emoji::emoji_key(e.spec_id())));
            },
            _ => {},
        }
        assert(views(r@) =~= text_emoji_keys(next));
        i = i + 1;
    }
    assert(t.render@.subrange(0, i as int) =~= t.render@);
    r
}

/// The emoji keys a note uses (see `note_emoji_keys`).
fn note_emoji_key_list(n: &Note) -> (r: Vec<String>)
    ensures
        views(r@) == note_emoji_keys(*n),
{
    let mut r: Vec<String> = Vec::new();
    let mut j: usize = 0;
    while j < n.reactions.emojis.len()
        invariant
            j <= n.reactions.emojis@.len(),
            r@.len() == j,
            forall|x: int| 0 <= x < j ==> #[trigger] r@[x]@ == crate::emoji::emoji_key(n.reactions.emojis@[x].0.spec_id()),
        decreases n.reactions.emojis@.len() - j,
    {
        r.push(n.reactions.emojis[j].0.id_raw().id());
        j = j + 1;
    }
    let ghost g0 = r@;
    assert(views(g0) =~= n.reactions.emojis@.map_values(|p: (crate::emoji::Emoji, u64)| crate::emoji::emoji_key(p.0.spec_id())));
    let mut t = text_key_list(&n.text);
    let ghost g1 = t@;
    let mut c = match &n.cw {
        Some(c) => text_key_list(c),
        None => Vec::new(),
    };
    let ghost g2 = c@;
    let mut d = text_key_list(&n.user.display_name);
    let ghost g3 = d@;
    r.append(&mut t);
    r.append(&mut c);
    r.append(&mut d);
    proof {
        assert(r@ =~= g0 + g1 + g2 + g3);
        assert(views(g2) =~= match n.cw {
            Some(c) => text_emoji_keys(c.render@),
            None => Seq::<Seq<char>>::empty(),
        });
        assert(views(r@) =~= views(g0) + views(g1) + views(g2) + views(g3));
    }
    r
}

} // verus!
