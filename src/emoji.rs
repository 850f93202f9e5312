//! Emoji identities (Unicode, remote custom, local custom) and the cache
//! that maps each emoji to the one image shared by all its uses.
use vstd::prelude::*;

use std::io::Read;

use crate::image::ImageStore;
use crate::table::{find_key, has_key, lemma_index_of, lemma_push_fresh, unique_keys, value_of};
use crate::text::{
    char_from_u32, chars_of, decimal, decimal_string, is_scalar_value, push_char, push_str,
    slice_string,
};

verus! {

/// A Unicode emoji, by its code point.
#[derive(Clone, Copy, Debug, PartialEq, Eq)]
pub struct UnicodeEmoji(pub u32);

/// Which emoji: a Unicode one, a custom one of a remote instance
/// (`name@host`), or a custom one of the local instance.
#[derive(Clone, Debug)]
pub enum EmojiId {
    Unicode(UnicodeEmoji),
    Remote(String),
    Local(String),
}

/// An emoji that the local instance offers as a reaction: a Unicode one, or
/// a local custom one with its image URL.
#[derive(Clone, Debug)]
pub enum LocalEmojis {
    Unicode(UnicodeEmoji),
    InstanceLocal(String, String),
}

/// An emoji as it appears in a text or a reaction, with the URL of its image.
#[derive(Clone, Debug)]
pub struct Emoji {
    id: EmojiId,
    img: String,
}

/// The emoji images of the process, keyed by emoji, and the local
/// instance's table of custom emoji.
#[derive(Clone, Debug)]
pub struct EmojiCache {
    media_proxy: String,
    local_instance: String,
    map: Vec<(String, String)>,
    local_emojis: Vec<(String, String)>,
}

pub open spec fn hex_digit(d: nat) -> char {
    if d < 10 {
        crate::text::digit_char(d)
    } else if d == 10 {
        'a'
    } else if d == 11 {
        'b'
    } else if d == 12 {
        'c'
    } else if d == 13 {
        'd'
    } else if d == 14 {
        'e'
    } else {
        'f'
    }
}

/// Two lowercase hexadecimal digits for each byte, in order.
pub open spec fn hex_of(b: Seq<u8>) -> Seq<char>
    decreases b.len(),
{
    if b.len() == 0 {
        Seq::empty()
    } else {
        hex_of(b.drop_last()) + seq![hex_digit(b.last() as nat / 16), hex_digit(b.last() as nat % 16)]
    }
}

/// The four bytes of `c`, most significant first.
pub open spec fn be_bytes(c: u32) -> Seq<u8> {
    seq![
        (c as nat / 0x1000000) as u8,
        (c as nat / 0x10000 % 0x100) as u8,
        (c as nat / 0x100 % 0x100) as u8,
        (c as nat % 0x100) as u8,
    ]
}

/// `s` without its leading `'0'`s.
pub open spec fn strip_zeros(s: Seq<char>) -> Seq<char>
    decreases s.len(),
{
    if s.len() > 0 && s[0] == '0' {
        strip_zeros(s.drop_first())
    } else {
        s
    }
}

/// The identifier of a Unicode emoji: its code point in lowercase
/// hexadecimal, without leading zeros.
pub open spec fn codepoint_id(c: u32) -> Seq<char> {
    strip_zeros(hex_of(be_bytes(c)))
}

/// The key under which the cache keeps an emoji.
pub open spec fn emoji_key(id: EmojiId) -> Seq<char> {
    match id {
        EmojiId::Unicode(e) => decimal(e.0 as nat),
        EmojiId::Remote(s) => s@,
        EmojiId::Local(s) => s@,
    }
}

/// The media proxy URL through which an emoji image at `url` is fetched.
pub open spec fn proxy_url(media_proxy: Seq<char>, url: Seq<char>) -> Seq<char> {
    media_proxy + "/emoji.webp?url="@ + url_encoded(url) + "&emoji=1"@
}

/// The URL of the image of a Unicode emoji on the local instance.
pub open spec fn twemoji_url(local_instance: Seq<char>, id: Seq<char>) -> Seq<char> {
    local_instance + "/twemoji/"@ + id + ".svg"@
}

/// `s` percent-encoded for a query component.
pub uninterp spec fn url_encoded(s: Seq<char>) -> Seq<char>;

/// Relies on `hex::encode`: two lowercase digits per byte.
#[verifier::external_body]
fn encode_hex(b: &Vec<u8>) -> (r: String)
    ensures
        r@ == hex_of(b@),
{
    hex::encode(b)
}

/// Relies on `urlencoding::encode`: the percent-encoding of the text,
/// which depends on the text alone.
#[verifier::external_body]
pub(crate) fn encode_url(s: &str) -> (r: String)
    ensures
        r@ == url_encoded(s@),
{
    urlencoding::encode(s).into_owned()
}

proof fn lemma_strip_zeros(s: Seq<char>, k: int)
    requires
        0 <= k <= s.len(),
        forall|j: int| 0 <= j < k ==> s[j] == '0',
        k == s.len() || s[k] != '0',
    ensures
        strip_zeros(s) == s.subrange(k, s.len() as int),
    decreases k,
{
    if k == 0 {
        assert(s.subrange(0, s.len() as int) =~= s);
    } else {
        let t = s.drop_first();
        assert forall|j: int| 0 <= j < k - 1 implies t[j] == '0' by {
            assert(t[j] == s[j + 1]);
        }
        lemma_strip_zeros(t, k - 1);
        assert(t.subrange(k - 1, t.len() as int) =~= s.subrange(k, s.len() as int));
    }
}

/// The lowercase hexadecimal identifier of a code point, without leading zeros.
pub fn codepoint_hex(c: u32) -> (r: String)
    ensures
        r@ == codepoint_id(c),
{
    let mut b: Vec<u8> = Vec::new();
    b.push((c / 0x1000000) as u8);
    b.push((c / 0x10000 % 0x100) as u8);
    b.push((c / 0x100 % 0x100) as u8);
    b.push((c % 0x100) as u8);
    assert(b@ =~= be_bytes(c));
    let h = encode_hex(&b);
    let cs = chars_of(h.as_str());
    let mut k: usize = 0;
    while k < cs.len() && cs[k] == '0'
        invariant
            k <= cs@.len(),
            forall|j: int| 0 <= j < k ==> cs@[j] == '0',
        decreases cs@.len() - k,
    {
        k = k + 1;
    }
    proof {
        lemma_strip_zeros(cs@, k as int);
    }
    slice_string(&cs, k, cs.len())
}

/// The bytes a gzip stream decompresses to, up to the first error.
pub uninterp spec fn gunzipped(b: Seq<u8>) -> Seq<u8>;

/// Relies on `flate2::read::GzDecoder` read to the end: the decompressed
/// bytes, those read before an error included.
#[verifier::external_body]
fn gunzip(b: &Vec<u8>) -> (r: Vec<u8>)
    ensures
        r@ == gunzipped(b@),
{
    let mut out = Vec::new();
    let _ = flate2::read::GzDecoder::new(b.as_slice()).read_to_end(&mut out);
    out
}

/// The big-endian `u32` at offset `i`.
pub open spec fn be_u32_at(b: Seq<u8>, i: int) -> u32 {
    (b[i] as nat * 0x1000000 + b[i + 1] as nat * 0x10000 + b[i + 2] as nat * 0x100 + b[i + 3] as nat) as u32
}

/// The code points of a table of big-endian `u32`s, after the first
/// (a byte-order mark); a trailing partial value is ignored.
pub open spec fn table_codepoints(b: Seq<u8>) -> Seq<u32> {
    Seq::new(if b.len() / 4 >= 1 { (b.len() / 4 - 1) as nat } else { 0 }, |k: int| be_u32_at(b, 4 * (k + 1)))
}

impl UnicodeEmoji {
    /// The Unicode emoji of a gzip-compressed table of big-endian UTF-32
    /// code points whose first entry is a byte-order mark.
    pub fn load_all(gz: &Vec<u8>) -> (r: Vec<UnicodeEmoji>)
        ensures
            r@.len() == table_codepoints(gunzipped(gz@)).len(),
            forall|k: int| 0 <= k < r@.len() ==> #[trigger] r@[k].0 == table_codepoints(gunzipped(gz@))[k],
    {
        let b = gunzip(gz);
        let n = b.len() / 4;
        assert(b@.len() == b.len());
        let mut r: Vec<UnicodeEmoji> = Vec::new();
        let mut k: usize = 1;
        while k < n
            invariant
                b@ == gunzipped(gz@),
                b@.len() <= usize::MAX,
                n == b@.len() / 4,
                k >= 1,
                n >= 1 ==> k <= n,
                n == 0 ==> k == 1,
                r@.len() == k - 1,
                forall|j: int| 0 <= j < r@.len() ==> #[trigger] r@[j].0 == be_u32_at(b@, 4 * (j + 1)),
            decreases n - k,
        {
            assert(4 * k + 3 < b@.len()) by (nonlinear_arith)
                requires
                    k < n,
                    n == b@.len() / 4,
            ;
            let i = 4 * k;
            let v: u32 = (b[i] as u32) * 0x1000000 + (b[i + 1] as u32) * 0x10000 + (b[i + 2] as u32) * 0x100 + (b[i + 3] as u32);
            r.push(UnicodeEmoji(v));
            k = k + 1;
        }
        proof {
            let t = table_codepoints(b@);
            assert(r@.len() == t.len());
            assert forall|j: int| 0 <= j < r@.len() implies #[trigger] r@[j].0 == t[j] by {
            }
        }
        r
    }

    pub fn to_id(&self) -> (r: String)
        ensures
            r@ == codepoint_id(self.0),
    {
        codepoint_hex(self.0)
    }
}

impl EmojiId {
    /// The key of this emoji: the decimal code point of a Unicode emoji, the
    /// name of a custom one.
    pub fn id(&self) -> (r: String)
        ensures
            r@ == emoji_key(*self),
    {
        match self {
            EmojiId::Unicode(e) => decimal_string(e.0 as u64),
            EmojiId::Remote(id) => id.clone(),
            EmojiId::Local(id) => id.clone(),
        }
    }
}

impl Emoji {
    pub closed spec fn spec_id(&self) -> EmojiId {
        self.id
    }

    pub closed spec fn spec_image(&self) -> Seq<char> {
        self.img@
    }

    pub fn id_raw(&self) -> (r: &EmojiId)
        ensures
            *r == self.spec_id(),
    {
        &self.id
    }

    /// The URL of the image of this emoji, the key of the image store.
    pub fn url_image(&self) -> (r: &str)
        ensures
            r@ == self.spec_image(),
    {
        self.img.as_str()
    }
}

/// What a reaction with this emoji sends: the one character of a Unicode
/// emoji (nothing where its code point is no character), or the name of a
/// custom one between colons.
pub open spec fn is_reaction_text(e: LocalEmojis, t: Seq<char>) -> bool {
    match e {
        LocalEmojis::Unicode(u) => if is_scalar_value(u.0) {
            t.len() == 1 && t[0] as u32 == u.0
        } else {
            t.len() == 0
        },
        LocalEmojis::InstanceLocal(id, _) => t == seq![':'] + id@ + seq![':'],
    }
}

impl LocalEmojis {
    pub fn into_id(self) -> (r: EmojiId)
        ensures
            r == match self {
                LocalEmojis::Unicode(e) => EmojiId::Unicode(e),
                LocalEmojis::InstanceLocal(id, _) => EmojiId::Local(id),
            },
    {
        match self {
            LocalEmojis::Unicode(e) => EmojiId::Unicode(e),
            LocalEmojis::InstanceLocal(id, _url) => EmojiId::Local(id),
        }
    }

    /// The identifier shown for this emoji: the hexadecimal code point, or the name.
    pub fn to_id_string(&self) -> (r: String)
        ensures
            r@ == match *self {
                LocalEmojis::Unicode(e) => codepoint_id(e.0),
                LocalEmojis::InstanceLocal(id, _) => id@,
            },
    {
        match self {
            LocalEmojis::Unicode(e) => e.to_id(),
            LocalEmojis::InstanceLocal(id, _url) => id.clone(),
        }
    }

    /// The identifier and the image URL of this emoji.
    pub fn to_id_url(&self, cache: &EmojiCache) -> (r: (String, String))
        ensures
            match *self {
                LocalEmojis::Unicode(e) => r.0@ == codepoint_id(e.0) && r.1@ == twemoji_url(cache.spec_local_instance(), codepoint_id(e.0)),
                LocalEmojis::InstanceLocal(id, url) => r.0@ == id@ && r.1@ == url@,
            },
    {
        match self {
            LocalEmojis::Unicode(e) => {
                let id = e.to_id();
                let url = twemoji(cache.local_instance.as_str(), id.as_str());
                (id, url)
            },
            LocalEmojis::InstanceLocal(id, url) => (id.clone(), url.clone()),
        }
    }

    /// The text that a reaction with this emoji sends: the character itself,
    /// or the name between colons.
    pub fn reaction(&self) -> (r: String)
        ensures
            is_reaction_text(*self, r@),
    {
        match self {
            LocalEmojis::Unicode(e) => {
                let mut s = String::new();
                match char_from_u32(e.0) {
                    Some(c) => {
                        push_char(&mut s, c);
                    },
                    None => {},
                }
                s
            },
            LocalEmojis::InstanceLocal(id, _) => {
                let mut s = String::new();
                push_char(&mut s, ':');
                push_str(&mut s, id.as_str());
                push_char(&mut s, ':');
                assert(s@ =~= seq![':'] + id@ + seq![':']);
                s
            },
        }
    }

    /// The offerable emoji for an emoji identity: a Unicode one as it is, a
    /// local custom one where the local table knows it; a remote one never.
    pub fn from_id(id: EmojiId, cache: &EmojiCache) -> (r: Option<Self>)
        requires
            cache.wf(),
        ensures
            match id {
                EmojiId::Unicode(c) => r == Some(LocalEmojis::Unicode(c)),
                EmojiId::Remote(_) => r is None,
                EmojiId::Local(name) => if has_key(cache.spec_local_emojis(), name@) {
                    r matches Some(LocalEmojis::InstanceLocal(n, u)) && n == name && u == value_of(cache.spec_local_emojis(), name@)
                } else {
                    r is None
                },
            },
    {
        match id {
            EmojiId::Unicode(c) => Some(LocalEmojis::Unicode(c)),
            EmojiId::Remote(_) => None,
            EmojiId::Local(name) => {
                match find_key(&cache.local_emojis, name.as_str()) {
                    Some(i) => {
                        proof {
                            lemma_index_of(cache.local_emojis@, i as int);
                        }
                        Some(LocalEmojis::InstanceLocal(name, cache.local_emojis[i].1.clone()))
                    },
                    None => None,
                }
            },
        }
    }
}

/// The URL of a Unicode emoji's image on the local instance.
fn twemoji(local_instance: &str, id: &str) -> (r: String)
    ensures
        r@ == twemoji_url(local_instance@, id@),
{
    let mut s = String::new();
    push_str(&mut s, local_instance);
    push_str(&mut s, "/twemoji/");
    push_str(&mut s, id);
    push_str(&mut s, ".svg");
    assert(s@ =~= twemoji_url(local_instance@, id@));
    s
}

/// The identifier and the image URL of the Unicode emoji that starts `text`,
/// where the text is not empty.
pub fn unicode_to_emoji(text: &str, local_instance: &str) -> (r: Option<(UnicodeEmoji, String)>)
    ensures
        text@.len() == 0 ==> r is None,
        text@.len() > 0 ==> (r matches Some((e, url)) && e.0 == text@[0] as u32 && url@ == twemoji_url(
            local_instance@,
            codepoint_id(text@[0] as u32),
        )),
{
    let cs = chars_of(text);
    if cs.len() == 0 {
        return None;
    }
    let c = cs[0] as u32;
    let id = codepoint_hex(c);
    Some((UnicodeEmoji(c), twemoji(local_instance, id.as_str())))
}

impl EmojiCache {
    pub closed spec fn spec_local_instance(&self) -> Seq<char> {
        self.local_instance@
    }

    /// The local instance's custom emoji: name and image URL.
    pub closed spec fn spec_local_emojis(&self) -> Seq<(String, String)> {
        self.local_emojis@
    }

    pub fn local_emojis(&self) -> (r: &Vec<(String, String)>)
        ensures
            r@ == self.spec_local_emojis(),
    {
        &self.local_emojis
    }

    pub closed spec fn spec_media_proxy(&self) -> Seq<char> {
        self.media_proxy@
    }

    /// The image URL kept for each emoji key.
    pub closed spec fn spec_map(&self) -> Seq<(String, String)> {
        self.map@
    }

    pub open spec fn wf(&self) -> bool {
        &&& unique_keys(self.spec_map())
        &&& unique_keys(self.spec_local_emojis())
    }

    /// The image URL of the emoji with key `k`, where the cache has one.
    pub open spec fn image_of(&self, k: Seq<char>) -> Option<Seq<char>> {
        if has_key(self.spec_map(), k) {
            Some(value_of(self.spec_map(), k)@)
        } else {
            None
        }
    }

    /// An empty cache for an instance, its media proxy and its local custom emoji.
    pub fn new(media_proxy: String, local_instance: String, local_emojis: Vec<(String, String)>) -> (r: Self)
        requires
            unique_keys(local_emojis@),
        ensures
            r.wf(),
            r.spec_media_proxy() == media_proxy@,
            r.spec_local_instance() == local_instance@,
            r.spec_local_emojis() == local_emojis@,
            r.spec_map().len() == 0,
    {
        EmojiCache { media_proxy, local_instance, map: Vec::new(), local_emojis }
    }

    pub fn media_proxy(&self) -> (r: &str)
        ensures
            r@ == self.spec_media_proxy(),
    {
        self.media_proxy.as_str()
    }

    pub fn local_instance(&self) -> (r: &str)
        ensures
            r@ == self.spec_local_instance(),
    {
        self.local_instance.as_str()
    }

    /// The image URLs of the cached emoji.
    pub fn image_urls(&self) -> (r: Vec<String>)
        requires
            self.wf(),
        ensures
            forall|k: Seq<char>| #[trigger] self.image_of(k) is Some ==> crate::table::views(r@).contains(self.image_of(k)->0),
            forall|u: Seq<char>| #[trigger] crate::table::views(r@).contains(u) ==> exists|k: Seq<char>| #[trigger] self.image_of(k) == Some(u),
    {
        let mut r: Vec<String> = Vec::new();
        let mut i: usize = 0;
        while i < self.map.len()
            invariant
                self.wf(),
                i <= self.map@.len(),
                r@.len() == i,
                forall|j: int| 0 <= j < i ==> #[trigger] r@[j]@ == self.map@[j].1@,
            decreases self.map@.len() - i,
        {
            r.push(self.map[i].1.clone());
            i = i + 1;
        }
        proof {
            assert forall|k: Seq<char>| #[trigger] self.image_of(k) is Some implies crate::table::views(r@).contains(self.image_of(k)->0) by {
                let j = crate::table::index_of(self.map@, k);
                lemma_index_of(self.map@, j);
                assert(crate::table::views(r@)[j] == self.map@[j].1@);
            }
            assert forall|u: Seq<char>| #[trigger] crate::table::views(r@).contains(u) implies exists|k: Seq<char>| #[trigger] self.image_of(k) == Some(u) by {
                let j = choose|j: int| 0 <= j < crate::table::views(r@).len() && crate::table::views(r@)[j] == u;
                lemma_index_of(self.map@, j);
                assert(self.image_of(self.map@[j].0@) == Some(u));
            }
        }
        r
    }

    /// The image URL of an emoji, where it was loaded before.
    pub fn get(&self, id: &EmojiId) -> (r: Option<String>)
        requires
            self.wf(),
        ensures
            match r {
                Some(u) => self.image_of(emoji_key(*id)) == Some(u@),
                None => self.image_of(emoji_key(*id)) is None,
            },
    {
        let k = id.id();
        match find_key(&self.map, k.as_str()) {
            Some(i) => {
                proof {
                    lemma_index_of(self.map@, i as int);
                }
                Some(self.map[i].1.clone())
            },
            None => None,
        }
    }

    /// The emoji with its image: the one the cache holds for this emoji, or
    /// else a new one fetched from `url` through the media proxy, which the
    /// cache keeps from now on.
    pub fn load(&mut self, id: EmojiId, url: &str) -> (r: Emoji)
        requires
            old(self).wf(),
        ensures
            final(self).wf(),
            r.spec_id() == id,
            final(self).spec_media_proxy() == old(self).spec_media_proxy(),
            final(self).spec_local_instance() == old(self).spec_local_instance(),
            final(self).spec_local_emojis() == old(self).spec_local_emojis(),
            old(self).image_of(emoji_key(id)) matches Some(u) ==> r.spec_image() == u && final(self).spec_map() == old(self).spec_map(),
            old(self).image_of(emoji_key(id)) is None ==> r.spec_image() == proxy_url(old(self).spec_media_proxy(), url@),
            final(self).image_of(emoji_key(id)) == Some(r.spec_image()),
            forall|k: Seq<char>| k != emoji_key(id) ==> #[trigger] final(self).image_of(k) == old(self).image_of(k),
    {
        let k = id.id();
        match find_key(&self.map, k.as_str()) {
            Some(i) => {
                proof {
                    lemma_index_of(self.map@, i as int);
                }
                Emoji { id, img: self.map[i].1.clone() }
            },
            None => {
                let mut img = String::new();
                push_str(&mut img, self.media_proxy.as_str());
                push_str(&mut img, "/emoji.webp?url=");
                let enc = encode_url(url);
                push_str(&mut img, enc.as_str());
                push_str(&mut img, "&emoji=1");
                assert(img@ =~= proxy_url(self.media_proxy@, url@));
                let entry = (k, img.clone());
                proof {
                    lemma_push_fresh(self.map@, entry);
                }
                self.map.push(entry);
                Emoji { id, img }
            },
        }
    }

    /// Drops the emoji whose image has finished loading and that no live
    /// note uses (`in_use` holds the keys of those that are used). An emoji
    /// whose image is still loading stays. Returns how many were dropped.
    pub fn trim(&mut self, in_use: &Vec<String>, images: &ImageStore) -> (r: usize)
        requires
            old(self).wf(),
            images.wf(),
        ensures
            final(self).wf(),
            final(self).spec_media_proxy() == old(self).spec_media_proxy(),
            final(self).spec_local_instance() == old(self).spec_local_instance(),
            final(self).spec_local_emojis() == old(self).spec_local_emojis(),
            r == old(self).spec_map().len() - final(self).spec_map().len(),
            forall|k: Seq<char>| #[trigger] final(self).image_of(k) == if old(self).image_of(k) is Some
                && Self::dropped(value_pair(old(self).spec_map(), k), in_use@.map_values(|s: String| s@), *images) {
                None
            } else {
                old(self).image_of(k)
            },
    {
        let ghost in_use_keys = in_use@.map_values(|s: String| s@);
        let mut kept: Vec<(String, String)> = Vec::new();
        let mut i: usize = 0;
        let n = self.map.len();
        while i < n
            invariant
                n == old(self).map@.len(),
                self.map == old(self).map,
                self.wf(),
                images.wf(),
                in_use_keys == in_use@.map_values(|s: String| s@),
                i <= n,
                unique_keys(kept@),
                kept@.len() <= i,
                forall|j: int| 0 <= j < kept@.len() ==> exists|m: int| 0 <= m < i && #[trigger] kept@[j] == self.map@[m],
                forall|m: int| 0 <= m < i ==> (#[trigger] has_key(kept@, self.map@[m].0@)) == !Self::dropped(self.map@[m], in_use_keys, *images),
                forall|m: int| 0 <= m < i && has_key(kept@, self.map@[m].0@) ==> value_of(kept@, self.map@[m].0@) == self.map@[m].1,
                forall|k: Seq<char>| has_key(kept@, k) ==> exists|m: int| 0 <= m < i && #[trigger] self.map@[m].0@ == k,
            decreases n - i,
        {
            let used = crate::table::contains_str(in_use, self.map[i].0.as_str());
            let loaded = images.is_loaded(self.map[i].1.as_str());
            proof {
                assert(used == in_use_keys.contains(self.map@[i as int].0@)) by {
                    if used {
                        let j = choose|j: int| 0 <= j < in_use@.len() && #[trigger] in_use@[j]@ == self.map@[i as int].0@;
                        assert(in_use_keys[j] == self.map@[i as int].0@);
                    }
                    if in_use_keys.contains(self.map@[i as int].0@) {
                        let j = choose|j: int| 0 <= j < in_use_keys.len() && in_use_keys[j] == self.map@[i as int].0@;
                        assert(in_use_keys.len() == in_use@.len());
                        assert(in_use@[j]@ == self.map@[i as int].0@);
                    }
                }
            }
            if used || !loaded {
                let e = (self.map[i].0.clone(), self.map[i].1.clone());
                proof {
                    assert(!has_key(kept@, e.0@)) by {
                        if has_key(kept@, e.0@) {
                            let m = choose|m: int| 0 <= m < i && #[trigger] self.map@[m].0@ == e.0@;
                            assert(m != i);
                        }
                    }
                    lemma_push_fresh(kept@, e);
                    assert forall|m: int| 0 <= m < i + 1 implies (#[trigger] has_key(kept@.push(e), self.map@[m].0@)) == !Self::dropped(self.map@[m], in_use_keys, *images) by {
                        if m < i {
                            assert(self.map@[m].0@ != e.0@);
                        }
                    }
                    assert forall|j: int| 0 <= j < kept@.push(e).len() implies exists|m: int| 0 <= m < i + 1 && #[trigger] kept@.push(e)[j] == self.map@[m] by {
                        if j == kept@.len() {
                            assert(kept@.push(e)[j] == self.map@[i as int]);
                        } else {
                            assert(kept@.push(e)[j] == kept@[j]);
                        }
                    }
                    assert forall|k: Seq<char>| has_key(kept@.push(e), k) implies exists|m: int| 0 <= m < i + 1 && #[trigger] self.map@[m].0@ == k by {
                        if k == e.0@ {
                            assert(self.map@[i as int].0@ == k);
                        }
                    }
                    assert forall|m: int| 0 <= m < i + 1 && has_key(kept@.push(e), self.map@[m].0@) implies value_of(kept@.push(e), self.map@[m].0@) == self.map@[m].1 by {
                        if m < i {
                            assert(self.map@[m].0@ != e.0@);
                        }
                    }
                }
                kept.push(e);
            } else {
                proof {
                    assert forall|k: Seq<char>| has_key(kept@, k) implies exists|m: int| 0 <= m < i + 1 && #[trigger] self.map@[m].0@ == k by {
                        let m = choose|m: int| 0 <= m < i && #[trigger] self.map@[m].0@ == k;
                        assert(self.map@[m].0@ == k);
                    }
                    assert forall|j: int| 0 <= j < kept@.len() implies exists|m: int| 0 <= m < i + 1 && #[trigger] kept@[j] == self.map@[m] by {
                        let m = choose|m: int| 0 <= m < i && #[trigger] kept@[j] == self.map@[m];
                        assert(kept@[j] == self.map@[m]);
                    }
                    assert(has_key(kept@, self.map@[i as int].0@) == false) by {
                        if has_key(kept@, self.map@[i as int].0@) {
                            let m = choose|m: int| 0 <= m < i && #[trigger] self.map@[m].0@ == self.map@[i as int].0@;
                            assert(m != i);
                        }
                    }
                }
            }
            i = i + 1;
        }
        let removed = n - kept.len();
        proof {
            assert forall|k: Seq<char>| #[trigger] has_key(kept@, k) == (old(self).image_of(k) is Some
                && !Self::dropped(value_pair(old(self).map@, k), in_use_keys, *images)) by {
                if has_key(kept@, k) {
                    let m = choose|m: int| 0 <= m < n && #[trigger] self.map@[m].0@ == k;
                    lemma_index_of(self.map@, m);
                }
                if has_key(self.map@, k) {
                    let m = choose|m: int| 0 <= m < n && #[trigger] self.map@[m].0@ == k;
                    lemma_index_of(self.map@, m);
                }
            }
            assert forall|k: Seq<char>| has_key(kept@, k) implies value_of(kept@, k) == value_of(old(self).map@, k) by {
                let m = choose|m: int| 0 <= m < n && #[trigger] self.map@[m].0@ == k;
                lemma_index_of(self.map@, m);
            }
        }
        self.map = kept;
        removed
    }

    /// An entry is dropped when its image has finished loading and no live
    /// note uses its emoji.
    pub open spec fn dropped(e: (String, String), in_use: Seq<Seq<char>>, images: ImageStore) -> bool {
        !in_use.contains(e.0@) && (images.entry(e.1@) matches Some(img) && img.spec_loaded())
    }
}

/// The entry of `k`.
pub open spec fn value_pair(m: Seq<(String, String)>, k: Seq<char>) -> (String, String) {
    m[crate::table::index_of(m, k)]
}

} // verus!
