//! Rich text: the split of a note's text into plain text, links and emoji.
use vstd::prelude::*;

use crate::emoji::{EmojiCache, EmojiId, UnicodeEmoji};
use crate::model::{FediverseInstance, MFMElement, MFMString};
use crate::text::{chars_of, push_char, push_str, slice_string};

verus! {

#[verifier::external_type_specification]
#[verifier::external_body]
pub struct ExRegex(regex::Regex);

/// Whether a character has the Unicode `Emoji` property.
pub uninterp spec fn has_emoji_property(c: char) -> bool;

/// The compiled pattern that recognises characters with the Unicode
/// `Emoji` property.
pub struct EmojiPattern {
    re: regex::Regex,
}

impl EmojiPattern {
    /// Relies on `regex::Regex::new` with the pattern `\p{Emoji}`, which
    /// compiles (the `Emoji` property is in regex's Unicode tables); the
    /// result only serves `is_emoji`.
    #[verifier::external_body]
    pub fn new() -> (r: Option<EmojiPattern>)
        ensures
            r is Some,
    {
        regex::Regex::new(r"\p{Emoji}").ok().map(|re| EmojiPattern { re })
    }

    /// Relies on `regex::Regex::is_match`: the pattern matches a one-character
    /// text exactly when the character has the `Emoji` property.
    #[verifier::external_body]
    pub fn is_emoji(&self, c: char) -> (r: bool)
        ensures
            r == has_emoji_property(c),
    {
        let mut buf = [0u8; 4];
        self.re.is_match(c.encode_utf8(&mut buf))
    }
}

/// A character allowed in a link after its scheme.
pub open spec fn is_link_char(c: char) -> bool {
    ('0' <= c && c <= '9') || ('A' <= c && c <= 'Z') || ('a' <= c && c <= 'z') || c == '_'
        || c == '.' || c == '/' || c == '?' || c == '&' || c == '=' || c == '%' || c == '#' || c == '-'
        || c == '+' || c == '!' || c == ':' || c == ',' || c == '@'
}

/// How many link characters follow position `i`.
pub open spec fn link_run(s: Seq<char>, i: int) -> nat
    decreases s.len() - i,
{
    if 0 <= i < s.len() && is_link_char(s[i]) {
        1 + link_run(s, i + 1)
    } else {
        0
    }
}

/// `p` occurs in `s` at position `i`.
pub open spec fn occurs_at(s: Seq<char>, p: Seq<char>, i: int) -> bool {
    0 <= i && i + p.len() <= s.len() && s.subrange(i, i + p.len()) == p
}

/// The length of the link that starts at `i`: `https://` or `http://`
/// followed by at least one link character, as long as possible; 0 where
/// no link starts there.
pub open spec fn link_at(s: Seq<char>, i: int) -> nat {
    if occurs_at(s, "https://"@, i) && link_run(s, i + 8) > 0 {
        8 + link_run(s, i + 8)
    } else if occurs_at(s, "http://"@, i) && link_run(s, i + 7) > 0 {
        7 + link_run(s, i + 7)
    } else {
        0
    }
}

fn is_link_char_exec(c: char) -> (r: bool)
    ensures
        r == is_link_char(c),
{
    ('0' <= c && c <= '9') || ('A' <= c && c <= 'Z') || ('a' <= c && c <= 'z') || c == '_'
        || c == '.' || c == '/' || c == '?' || c == '&' || c == '=' || c == '%' || c == '#' || c == '-'
        || c == '+' || c == '!' || c == ':' || c == ',' || c == '@'
}

fn run_from(s: &Vec<char>, i: usize) -> (r: usize)
    requires
        i <= s@.len(),
    ensures
        r == link_run(s@, i as int),
        i + r <= s@.len(),
{
    let mut j: usize = i;
    while j < s.len() && is_link_char_exec(s[j])
        invariant
            i <= j <= s@.len(),
            forall|m: int| i <= m < j ==> is_link_char(#[trigger] s@[m]),
            link_run(s@, i as int) == (j - i) + link_run(s@, j as int),
        decreases s@.len() - j,
    {
        j = j + 1;
    }
    j - i
}

fn occurs_at_exec(s: &Vec<char>, p: &Vec<char>, i: usize) -> (r: bool)
    requires
        i <= s@.len(),
    ensures
        r == occurs_at(s@, p@, i as int),
{
    if p.len() > s.len() - i {
        return false;
    }
    let mut k: usize = 0;
    while k < p.len()
        invariant
            s@.len() <= usize::MAX,
            i + p@.len() <= s@.len(),
            k <= p@.len(),
            forall|m: int| 0 <= m < k ==> s@[i + m] == p@[m],
        decreases p@.len() - k,
    {
        if s[i + k] != p[k] {
            assert(s@.subrange(i as int, i + p@.len())[k as int] != p@[k as int]);
            return false;
        }
        k = k + 1;
    }
    assert(s@.subrange(i as int, i + p@.len()) =~= p@);
    true
}

/// The length of the link that starts at `i`.
pub fn link_len(s: &Vec<char>, i: usize) -> (r: usize)
    requires
        i <= s@.len(),
    ensures
        r == link_at(s@, i as int),
        i + r <= s@.len(),
{
    let https = chars_of("https://");
    let http = chars_of("http://");
    proof {
        reveal_strlit("https://");
        reveal_strlit("http://");
    }
    assert(s@.len() == s.len());
    if occurs_at_exec(s, &https, i) {
        let n = run_from(s, i + 8);
        if n > 0 {
            return 8 + n;
        }
    }
    if occurs_at_exec(s, &http, i) {
        let n = run_from(s, i + 7);
        if n > 0 {
            return 7 + n;
        }
    }
    0
}

/// The text of a piece.
pub open spec fn piece_text(e: MFMElement) -> Seq<char> {
    match e {
        MFMElement::Text(t) => t@,
        MFMElement::Url(u) => u@,
        MFMElement::Emoji(_, src) => src@,
    }
}

/// The links among pieces, in order.
pub open spec fn text_links(r: Seq<MFMElement>) -> Seq<Seq<char>>
    decreases r.len(),
{
    if r.len() == 0 {
        Seq::empty()
    } else {
        text_links(r.drop_last()) + match r.last() {
            MFMElement::Url(u) => seq![u@],
            _ => Seq::empty(),
        }
    }
}

/// The texts of pieces, one after the other.
pub open spec fn joined(p: Seq<MFMElement>) -> Seq<char>
    decreases p.len(),
{
    if p.len() == 0 {
        Seq::empty()
    } else {
        joined(p.drop_last()) + piece_text(p.last())
    }
}

/// Where piece `k` starts.
pub open spec fn piece_start(p: Seq<MFMElement>, k: int) -> int {
    joined(p.subrange(0, k)).len() as int
}

/// Piece `k` is well placed in `s`: a link piece is non-empty and is the
/// whole link that starts where it stands; a text piece is non-empty and no
/// link starts inside it; there is no emoji piece.
pub open spec fn piece_ok(s: Seq<char>, p: Seq<MFMElement>, k: int) -> bool {
    match p[k] {
        MFMElement::Url(u) => u@.len() > 0 && link_at(s, piece_start(p, k)) == u@.len(),
        MFMElement::Text(t) => t@.len() > 0 && forall|m: int|
            piece_start(p, k) <= m < piece_start(p, k) + t@.len() ==> #[trigger] link_at(s, m) == 0,
        MFMElement::Emoji(_, _) => false,
    }
}

/// The split of `s` into text and links: the pieces spell `s`, each is well
/// placed, and no two text pieces are adjacent.
pub open spec fn is_link_split(s: Seq<char>, p: Seq<MFMElement>) -> bool {
    &&& joined(p) == s
    &&& forall|k: int| 0 <= k < p.len() ==> #[trigger] piece_ok(s, p, k)
    &&& forall|k: int| 0 <= k < p.len() - 1 ==> !(#[trigger] p[k] is Text && p[k + 1] is Text)
}

proof fn lemma_joined_append(a: Seq<MFMElement>, b: Seq<MFMElement>)
    ensures
        joined(a + b) == joined(a) + joined(b),
    decreases b.len(),
{
    if b.len() == 0 {
        assert(a + b =~= a);
        assert(joined(a) + joined(b) =~= joined(a));
    } else {
        assert((a + b).drop_last() =~= a + b.drop_last());
        lemma_joined_append(a, b.drop_last());
        assert(joined(a + b) =~= joined(a) + joined(b));
    }
}

proof fn lemma_joined_push(p: Seq<MFMElement>, e: MFMElement)
    ensures
        joined(p.push(e)) == joined(p) + piece_text(e),
        p.push(e).subrange(0, p.len() as int) == p,
{
    assert(p.push(e).drop_last() =~= p);
    assert(p.push(e).subrange(0, p.len() as int) =~= p);
}

/// Appending a well-placed piece keeps the earlier pieces well placed.
proof fn lemma_push_piece(s: Seq<char>, p: Seq<MFMElement>, e: MFMElement)
    requires
        forall|k: int| 0 <= k < p.len() ==> #[trigger] piece_ok(s, p, k),
        piece_ok(s, p.push(e), p.len() as int),
    ensures
        forall|k: int| 0 <= k < p.len() + 1 ==> #[trigger] piece_ok(s, p.push(e), k),
{
    let q = p.push(e);
    assert forall|k: int| 0 <= k < p.len() + 1 implies #[trigger] piece_ok(s, q, k) by {
        if k < p.len() {
            assert(q.subrange(0, k) =~= p.subrange(0, k));
            assert(q[k] == p[k]);
            assert(piece_ok(s, p, k));
        }
    }
}

/// Splits `s` into text and links.
fn link_split(s: &Vec<char>) -> (r: Vec<MFMElement>)
    ensures
        is_link_split(s@, r@),
{
    let mut out: Vec<MFMElement> = Vec::new();
    let mut start: usize = 0;
    let mut i: usize = 0;
    assert(s@.len() == s.len());
    assert(joined(out@) =~= s@.subrange(0, 0));
    while i < s.len()
        invariant
            s@.len() <= usize::MAX,
            start <= i <= s@.len(),
            joined(out@) == s@.subrange(0, start as int),
            forall|k: int| 0 <= k < out@.len() ==> #[trigger] piece_ok(s@, out@, k),
            forall|k: int| 0 <= k < out@.len() - 1 ==> !(#[trigger] out@[k] is Text && out@[k + 1] is Text),
            out@.len() == 0 || out@.last() is Url,
            forall|m: int| start <= m < i ==> #[trigger] link_at(s@, m) == 0,
        decreases s@.len() - i,
    {
        let n = link_len(s, i);
        if n > 0 {
            if start < i {
                let t = slice_string(s, start, i);
                let ghost o = out@;
                let e = MFMElement::Text(t);
                proof {
                    lemma_joined_push(o, e);
                    assert(piece_start(o.push(e), o.len() as int) == start);
                    lemma_push_piece(s@, o, e);
                    assert(s@.subrange(0, start as int) + s@.subrange(start as int, i as int) =~= s@.subrange(0, i as int));
                }
                out.push(e);
            }
            let u = slice_string(s, i, i + n);
            let ghost o = out@;
            let e = MFMElement::Url(u);
            proof {
                lemma_joined_push(o, e);
                if start < i {
                } else {
                    assert(start == i);
                }
                assert(joined(o) == s@.subrange(0, i as int));
                assert(piece_start(o.push(e), o.len() as int) == i);
                lemma_push_piece(s@, o, e);
                assert(s@.subrange(0, i as int) + s@.subrange(i as int, i + n) =~= s@.subrange(0, i + n));
            }
            out.push(e);
            i = i + n;
            start = i;
        } else {
            i = i + 1;
        }
    }
    if start < s.len() {
        let t = slice_string(s, start, s.len());
        let ghost o = out@;
        let e = MFMElement::Text(t);
        proof {
            lemma_joined_push(o, e);
            assert(piece_start(o.push(e), o.len() as int) == start);
            lemma_push_piece(s@, o, e);
            assert(s@.subrange(0, start as int) + s@.subrange(start as int, s@.len() as int) =~= s@);
        }
        out.push(e);
    } else {
        assert(s@.subrange(0, start as int) =~= s@);
    }
    out
}

/// Appends the text and links of `s[from..to]`, links matched within that
/// stretch alone.
fn push_pieces(s: &Vec<char>, from: usize, to: usize, out: &mut Vec<MFMElement>)
    requires
        from <= to <= s@.len(),
    ensures
        exists|p: Seq<MFMElement>| is_link_split(s@.subrange(from as int, to as int), p) && final(out)@ == old(out)@ + p,
{
    let mut seg: Vec<char> = Vec::new();
    let mut i: usize = from;
    while i < to
        invariant
            from <= i <= to <= s@.len(),
            seg@ == s@.subrange(from as int, i as int),
        decreases to - i,
    {
        seg.push(s[i]);
        i = i + 1;
        assert(seg@ =~= s@.subrange(from as int, i as int));
    }
    let mut pieces = link_split(&seg);
    let ghost p = pieces@;
    let ghost o = out@;
    out.append(&mut pieces);
    assert(out@ == o + p);
}

/// One emoji found in a text: where it starts, how many characters it
/// covers, which emoji and the URL of its image.
struct Found {
    at: usize,
    len: usize,
    id: EmojiId,
    url: String,
}

/// The first occurrence of `p` in `s` at or after `from`.
fn find_from(s: &Vec<char>, p: &Vec<char>, from: usize) -> (r: Option<usize>)
    requires
        from <= s@.len(),
    ensures
        r matches Some(i) ==> from <= i && occurs_at(s@, p@, i as int),
        r is None ==> forall|i: int| from <= i <= s@.len() ==> !occurs_at(s@, p@, i),
{
    let mut i: usize = from;
    while i <= s.len()
        invariant
            from <= i <= s@.len() + 1,
            forall|j: int| from <= j < i ==> !occurs_at(s@, p@, j),
        decreases s@.len() + 1 - i,
    {
        if occurs_at_exec(s, p, i) {
            return Some(i);
        }
        if i == s.len() {
            return None;
        }
        i = i + 1;
    }
    None
}

/// `:name:`.
pub open spec fn colon_wrapped(name: Seq<char>) -> Seq<char> {
    seq![':'] + name + seq![':']
}

/// `name` is a table name completed by `suffix`, written `:name:` in `s`.
pub open spec fn custom_in_text(s: Seq<char>, table: Seq<(String, String)>, suffix: Seq<char>, name: Seq<char>) -> bool {
    exists|t: int, i: int| 0 <= t < table.len() && name == table[t].0@ + suffix && #[trigger] occurs_at(s, colon_wrapped(table[t].0@), i)
}

/// A character of `s` beyond ASCII with the `Emoji` property has this code point.
pub open spec fn unicode_in_text(s: Seq<char>, c: u32) -> bool {
    exists|i: int| 0 <= i < s.len() && #[trigger] (s[i] as u32) == c && c >= 0x80 && has_emoji_property(s[i])
}

/// An emoji piece of a text: a Unicode emoji of the text, or a custom emoji
/// of the table written `:name:` in the text, local or remote as `remote` says.
pub open spec fn emoji_in_text(s: Seq<char>, table: Seq<(String, String)>, suffix: Seq<char>, remote: bool, id: EmojiId) -> bool {
    match id {
        EmojiId::Unicode(u) => unicode_in_text(s, u.0),
        EmojiId::Local(n) => !remote && custom_in_text(s, table, suffix, n@),
        EmojiId::Remote(n) => remote && custom_in_text(s, table, suffix, n@),
    }
}

/// A found emoji lies in the text and is one of its emoji.
spec fn found_ok(s: Seq<char>, table: Seq<(String, String)>, suffix: Seq<char>, remote: bool, f: Found) -> bool {
    f.at + f.len <= s.len() && emoji_in_text(s, table, suffix, remote, f.id)
}

/// Finds the custom emoji of a table that a text names as `:name:`, every
/// occurrence of each, left to right; names get `suffix` appended.
fn find_custom(s: &Vec<char>, table: &Vec<(String, String)>, suffix: &str, remote: bool, found: &mut Vec<Found>)
    requires
        forall|k: int| 0 <= k < old(found)@.len() ==> found_ok(s@, table@, suffix@, remote, #[trigger] old(found)@[k]),
    ensures
        forall|k: int| 0 <= k < final(found)@.len() ==> found_ok(s@, table@, suffix@, remote, #[trigger] final(found)@[k]),
        final(found)@.len() == old(found)@.len() ==> forall|t: int, i: int|
            0 <= t < table@.len() ==> !#[trigger] occurs_at(s@, colon_wrapped(table@[t].0@), i),
{
    let mut t: usize = 0;
    let n0 = found.len();
    while t < table.len()
        invariant
            n0 == old(found)@.len(),
            found@.len() >= n0,
            forall|k: int| 0 <= k < found@.len() ==> found_ok(s@, table@, suffix@, remote, #[trigger] found@[k]),
            found@.len() == n0 ==> forall|u: int, i: int| 0 <= u < t ==> !#[trigger] occurs_at(s@, colon_wrapped(table@[u].0@), i),
        decreases table@.len() - t,
    {
        let mut key = String::new();
        push_char(&mut key, ':');
        push_str(&mut key, table[t].0.as_str());
        push_char(&mut key, ':');
        let pat = chars_of(key.as_str());
        assert(pat@ =~= colon_wrapped(table@[t as int].0@));
        let mut from: usize = 0;
        let mut done = false;
        while from <= s.len() && !done
            invariant
                t < table@.len(),
                n0 == old(found)@.len(),
                found@.len() >= n0,
                pat@ == colon_wrapped(table@[t as int].0@),
                forall|k: int| 0 <= k < found@.len() ==> found_ok(s@, table@, suffix@, remote, #[trigger] found@[k]),
                found@.len() == n0 ==> forall|u: int, i: int| 0 <= u < t ==> !#[trigger] occurs_at(s@, colon_wrapped(table@[u].0@), i),
                found@.len() == n0 ==> from == 0,
                found@.len() == n0 && done ==> forall|i: int| 0 <= i <= s@.len() ==> !#[trigger] occurs_at(s@, pat@, i),
            decreases s@.len() + 1 - from, if done { 0int } else { 1int },
        {
            match find_from(s, &pat, from) {
                Some(i) => {
                    let mut name = String::new();
                    push_str(&mut name, table[t].0.as_str());
                    push_str(&mut name, suffix);
                    let id = if remote { EmojiId::Remote(name) } else { EmojiId::Local(name) };
                    let url = table[t].1.clone();
                    assert(occurs_at(s@, colon_wrapped(table@[t as int].0@), i as int));
                    found.push(Found { at: i, len: pat.len(), id, url });
                    if pat.len() == 0 {
                        done = true;
                    } else {
                        from = i + pat.len();
                    }
                },
                None => {
                    done = true;
                },
            }
        }
        proof {
            if found@.len() == n0 {
                assert forall|u: int, i: int| 0 <= u < t + 1 implies !#[trigger] occurs_at(s@, colon_wrapped(table@[u].0@), i) by {
                    if u == t && 0 <= i <= s@.len() {
                        assert(!occurs_at(s@, pat@, i));
                    }
                }
            }
        }
        t = t + 1;
    }
}

/// A copy of an emoji identity.
fn copy_id(id: &EmojiId) -> (r: EmojiId)
    ensures
        r == *id,
{
    match id {
        EmojiId::Unicode(u) => EmojiId::Unicode(*u),
        EmojiId::Remote(n) => EmojiId::Remote(n.clone()),
        EmojiId::Local(n) => EmojiId::Local(n.clone()),
    }
}

/// The emoji table a text is parsed with: the local table where no instance
/// is given, else the table given, or none.
pub open spec fn table_for(
    known: Option<&Vec<(String, String)>>,
    instance: Option<&FediverseInstance>,
    cache: EmojiCache,
) -> Seq<(String, String)> {
    match instance {
        None => cache.spec_local_emojis(),
        Some(_) => match known {
            Some(t) => t@,
            None => Seq::empty(),
        },
    }
}

/// The suffix of custom emoji names: nothing locally, `@host` for a remote instance.
pub open spec fn suffix_for(instance: Option<&FediverseInstance>) -> Seq<char> {
    match instance {
        Some(i) => seq!['@'] + i.host@,
        None => Seq::empty(),
    }
}

/// A text names no emoji: no custom emoji of the table as `:name:`, and no
/// character beyond ASCII with the `Emoji` property.
pub open spec fn names_no_emoji(s: Seq<char>, table: Seq<(String, String)>) -> bool {
    &&& forall|t: int, i: int| 0 <= t < table.len() ==> !#[trigger] occurs_at(s, colon_wrapped(table[t].0@), i)
    &&& forall|i: int| 0 <= i < s.len() ==> !((#[trigger] s[i] as u32) >= 0x80 && has_emoji_property(s[i]))
}

impl MFMString {
    /// Parses a text into pieces: custom emoji written `:name:` that the
    /// emoji table knows (the local table where no instance is given, the
    /// given table for a remote instance, whose host then completes each
    /// name), Unicode emoji beyond ASCII, links and plain text between them.
    /// Each emoji is loaded through the emoji cache. Every emoji piece is an
    /// emoji of the text, and the pieces, each emoji standing for the text it
    /// replaces, spell the text; a match that overlaps an earlier one stays
    /// text. A text with no emoji is split into text and links.
    pub fn new(
        raw: String,
        known_emojis: Option<&Vec<(String, String)>>,
        instance: Option<&FediverseInstance>,
        cache: &mut EmojiCache,
        pattern: Option<&EmojiPattern>,
    ) -> (r: MFMString)
        requires
            old(cache).wf(),
        ensures
            final(cache).wf(),
            final(cache).spec_local_emojis() == old(cache).spec_local_emojis(),
            final(cache).spec_media_proxy() == old(cache).spec_media_proxy(),
            final(cache).spec_local_instance() == old(cache).spec_local_instance(),
            r.raw@ == raw@,
            forall|k: int| 0 <= k < r.render@.len() && (#[trigger] r.render@[k]) is Emoji ==> emoji_in_text(
                raw@,
                table_for(known_emojis, instance, *old(cache)),
                suffix_for(instance),
                instance is Some,
                r.render@[k]->Emoji_0.spec_id(),
            ),
            joined(r.render@) == raw@,
            names_no_emoji(raw@, table_for(known_emojis, instance, *old(cache))) ==> is_link_split(raw@, r.render@),
    {
        let s = chars_of(raw.as_str());
        let ghost table: Seq<(String, String)> = table_for(known_emojis, instance, *old(cache));
        let ghost remote = instance is Some;
        let mut suffix = String::new();
        let mut found: Vec<Found> = Vec::new();
        match instance {
            None => {
                let local = cache.local_emojis();
                find_custom(&s, local, "", false, &mut found);
                proof {
                    reveal_strlit("");
                    assert(suffix@ =~= Seq::<char>::empty());
                }
            },
            Some(inst) => {
                push_char(&mut suffix, '@');
                push_str(&mut suffix, inst.host());
                match known_emojis {
                    Some(t) => find_custom(&s, t, suffix.as_str(), true, &mut found),
                    None => {},
                }
            },
        }
        let ghost sfx = suffix@;
        assert(sfx == suffix_for(instance));
        let customs = found.len();
        let mut any_unicode = false;
        match pattern {
            Some(p) => {
                let mut i: usize = 0;
                while i < s.len()
                    invariant
                        s@ == raw@,
                        i <= s@.len(),
                        forall|k: int| 0 <= k < found@.len() ==> found_ok(s@, table, sfx, remote, #[trigger] found@[k]),
                        found@.len() >= customs,
                        !any_unicode ==> found@.len() == customs,
                        !any_unicode ==> forall|j: int| 0 <= j < i ==> !((#[trigger] s@[j] as u32) >= 0x80 && has_emoji_property(s@[j])),
                    decreases s@.len() - i,
                {
                    let c = s[i];
                    if (c as u32) >= 0x80 && p.is_emoji(c) {
                        let id = crate::emoji::codepoint_hex(c as u32);
                        let mut url = String::new();
                        push_str(&mut url, cache.local_instance());
                        push_str(&mut url, "/twemoji/");
                        push_str(&mut url, id.as_str());
                        push_str(&mut url, ".svg");
                        assert(unicode_in_text(s@, c as u32));
                        found.push(Found { at: i, len: 1, id: EmojiId::Unicode(UnicodeEmoji(c as u32)), url });
                        any_unicode = true;
                    }
                    i = i + 1;
                }
            },
            None => {},
        }
        // Stable insertion sort by position.
        let mut sorted: Vec<Found> = Vec::new();
        while found.len() > 0
            invariant
                forall|k: int| 0 <= k < found@.len() ==> found_ok(s@, table, sfx, remote, #[trigger] found@[k]),
                forall|k: int| 0 <= k < sorted@.len() ==> found_ok(s@, table, sfx, remote, #[trigger] sorted@[k]),
            decreases found@.len(),
        {
            let ghost before = found@;
            let f = found.remove(0);
            assert(f == before[0]);
            assert(found_ok(s@, table, sfx, remote, f));
            let mut p: usize = sorted.len();
            while p > 0 && sorted[p - 1].at > f.at
                invariant
                    p <= sorted@.len(),
                decreases p,
            {
                p = p - 1;
            }
            let ghost old_sorted = sorted@;
            sorted.insert(p, f);
            assert forall|k: int| 0 <= k < sorted@.len() implies found_ok(s@, table, sfx, remote, #[trigger] sorted@[k]) by {
                if k < p {
                    assert(sorted@[k] == old_sorted[k]);
                } else if k > p {
                    assert(sorted@[k] == old_sorted[k - 1]);
                }
            }
            assert forall|k: int| 0 <= k < found@.len() implies found_ok(s@, table, sfx, remote, #[trigger] found@[k]) by {
                assert(found@[k] == before[k + 1]);
            }
        }
        let mut render: Vec<MFMElement> = Vec::new();
        let mut offset: usize = 0;
        let mut k: usize = 0;
        assert(s@.len() == s.len());
        while k < sorted.len()
            invariant
                s@ == raw@,
                s@.len() <= usize::MAX,
                sorted@.len() == 0 ==> render@.len() == 0 && offset == 0,
                offset <= s@.len(),
                joined(render@) == s@.subrange(0, offset as int),
                forall|m: int| 0 <= m < sorted@.len() ==> found_ok(s@, table, sfx, remote, #[trigger] sorted@[m]),
                forall|m: int| 0 <= m < render@.len() && (#[trigger] render@[m]) is Emoji ==> emoji_in_text(
                    s@,
                    table,
                    sfx,
                    remote,
                    render@[m]->Emoji_0.spec_id(),
                ),
                cache.wf(),
                cache.spec_local_emojis() == old(cache).spec_local_emojis(),
                cache.spec_media_proxy() == old(cache).spec_media_proxy(),
                cache.spec_local_instance() == old(cache).spec_local_instance(),
            decreases sorted@.len() - k,
        {
            assert(found_ok(s@, table, sfx, remote, sorted@[k as int]));
            let at = sorted[k].at;
            let len = sorted[k].len;
            if at >= offset {
                if offset < at {
                    let ghost before = render@;
                    push_pieces(&s, offset, at, &mut render);
                    proof {
                        let p = choose|p: Seq<MFMElement>| is_link_split(s@.subrange(offset as int, at as int), p) && render@ == before + p;
                        lemma_joined_append(before, p);
                        assert(s@.subrange(0, offset as int) + s@.subrange(offset as int, at as int) =~= s@.subrange(0, at as int));
                        assert forall|m: int| 0 <= m < render@.len() && (#[trigger] render@[m]) is Emoji implies emoji_in_text(
                            s@,
                            table,
                            sfx,
                            remote,
                            render@[m]->Emoji_0.spec_id(),
                        ) by {
                            if m >= before.len() {
                                assert(render@[m] == p[m - before.len()]);
                                assert(piece_ok(s@.subrange(offset as int, at as int), p, m - before.len()));
                            } else {
                                assert(render@[m] == before[m]);
                            }
                        }
                    }
                }
                let src = slice_string(&s, at, at + len);
                let e = cache.load(copy_id(&sorted[k].id), sorted[k].url.as_str());
                let ghost before = render@;
                let piece = MFMElement::Emoji(e, src);
                render.push(piece);
                proof {
                    lemma_joined_push(before, piece);
                    assert(s@.subrange(0, at as int) + s@.subrange(at as int, at + len) =~= s@.subrange(0, at + len));
                }
                assert forall|m: int| 0 <= m < render@.len() && (#[trigger] render@[m]) is Emoji implies emoji_in_text(
                    s@,
                    table,
                    sfx,
                    remote,
                    render@[m]->Emoji_0.spec_id(),
                ) by {
                    if m < before.len() {
                        assert(render@[m] == before[m]);
                    }
                }
                offset = at + len;
            }
            k = k + 1;
        }
        if offset < s.len() {
            let ghost before = render@;
            push_pieces(&s, offset, s.len(), &mut render);
            proof {
                let p = choose|p: Seq<MFMElement>| is_link_split(s@.subrange(offset as int, s@.len() as int), p) && render@ == before + p;
                lemma_joined_append(before, p);
                assert(s@.subrange(0, offset as int) + s@.subrange(offset as int, s@.len() as int) =~= s@);
                assert forall|m: int| 0 <= m < render@.len() && (#[trigger] render@[m]) is Emoji implies emoji_in_text(
                    s@,
                    table,
                    sfx,
                    remote,
                    render@[m]->Emoji_0.spec_id(),
                ) by {
                    if m >= before.len() {
                        assert(render@[m] == p[m - before.len()]);
                        assert(piece_ok(s@.subrange(offset as int, s@.len() as int), p, m - before.len()));
                    } else {
                        assert(render@[m] == before[m]);
                    }
                }
                if sorted@.len() == 0 {
                    assert(render@ =~= p);
                    assert(s@.subrange(0, s@.len() as int) =~= s@);
                }
            }
        } else {
            assert(s@.subrange(0, offset as int) =~= s@);
        }
        proof {
            if names_no_emoji(raw@, table) && sorted@.len() != 0 {
                let f = sorted@[0];
                assert(found_ok(s@, table, sfx, remote, f));
                match f.id {
                    EmojiId::Unicode(u) => {
                        let i = choose|i: int| 0 <= i < s@.len() && #[trigger] (s@[i] as u32) == u.0 && u.0 >= 0x80 && has_emoji_property(s@[i]);
                        assert(!((s@[i] as u32) >= 0x80 && has_emoji_property(s@[i])));
                    },
                    EmojiId::Local(n) => {
                        let (t, i) = choose|t: int, i: int| 0 <= t < table.len() && n@ == table[t].0@ + sfx && #[trigger] occurs_at(s@, colon_wrapped(table[t].0@), i);
                        assert(!occurs_at(s@, colon_wrapped(table[t].0@), i));
                    },
                    EmojiId::Remote(n) => {
                        let (t, i) = choose|t: int, i: int| 0 <= t < table.len() && n@ == table[t].0@ + sfx && #[trigger] occurs_at(s@, colon_wrapped(table[t].0@), i);
                        assert(!occurs_at(s@, colon_wrapped(table[t].0@), i));
                    },
                }
            }
        }
        MFMString { raw, render }
    }

    /// Parses the text where there is one.
    pub fn new_opt(
        raw: Option<String>,
        known_emojis: Option<&Vec<(String, String)>>,
        instance: Option<&FediverseInstance>,
        cache: &mut EmojiCache,
        pattern: Option<&EmojiPattern>,
    ) -> (r: Option<MFMString>)
        requires
            old(cache).wf(),
        ensures
            final(cache).wf(),
            final(cache).spec_local_emojis() == old(cache).spec_local_emojis(),
            final(cache).spec_media_proxy() == old(cache).spec_media_proxy(),
            final(cache).spec_local_instance() == old(cache).spec_local_instance(),
            raw is None ==> r is None,
            raw matches Some(t) ==> (r matches Some(m) && m.raw@ == t@),
    {
        match raw {
            Some(t) => Some(Self::new(t, known_emojis, instance, cache, pattern)),
            None => None,
        }
    }

    /// The links of the text, in order.
    pub fn urls(&self) -> (r: Vec<String>)
        ensures
            r@.map_values(|s: String| s@) == text_links(self.render@),
    {
        let mut r: Vec<String> = Vec::new();
        let mut i: usize = 0;
        while i < self.render.len()
            invariant
                i <= self.render@.len(),
                r@.map_values(|s: String| s@) == text_links(self.render@.subrange(0, i as int)),
            decreases self.render@.len() - i,
        {
            let ghost next = self.render@.subrange(0, i as int + 1);
            assert(next.drop_last() =~= self.render@.subrange(0, i as int));
            let ghost before = r@;
            match &self.render[i] {
                MFMElement::Url(u) => {
                    r.push(u.clone());
                    assert(r@.map_values(|s: String| s@) =~= before.map_values(|s: String| s@).push(u@));
                },
                _ => {},
            }
            assert(r@.map_values(|s: String| s@) =~= text_links(next));
            i = i + 1;
        }
        assert(self.render@.subrange(0, i as int) =~= self.render@);
        r
    }
}

/// Splits a text into plain text and links (see `is_link_split`).
pub fn split_links(text: &str) -> (r: Vec<MFMElement>)
    ensures
        is_link_split(text@, r@),
{
    let s = chars_of(text);
    link_split(&s)
}

} // verus!
