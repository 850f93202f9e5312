//! Reaction fingerprints and the resolution of a note's reactions into emoji.
use vstd::prelude::*;

use std::hash::{Hash, Hasher};

use crate::emoji::{emoji_key, unicode_to_emoji, Emoji, EmojiCache, EmojiId};
use crate::model::{RawNote, Reactions};
use crate::table::{find_key, has_key};
use crate::text::{chars_of, decimal, slice_string};

verus! {

/// The digest that std's default hasher gives for one string.
pub uninterp spec fn name_digest(name: Seq<char>) -> u64;

/// Relies on `std::collections::hash_map::DefaultHasher`: a hasher made by
/// `new`, fed one string and finished; every such hasher gives the same
/// digest for the same string.
#[verifier::external_body]
fn digest_name(name: &str) -> (r: u64)
    ensures
        r == name_digest(name@),
{
    let mut hasher = std::collections::hash_map::DefaultHasher::new();
    name.hash(&mut hasher);
    hasher.finish()
}

/// What one reaction adds to the fingerprint: the digest of its name and its count.
pub open spec fn contribution(p: (String, u64)) -> nat {
    name_digest(p.0@) as nat + p.1 as nat
}

/// The contributions of a reaction list, summed.
pub open spec fn contribution_sum(r: Seq<(String, u64)>) -> nat
    decreases r.len(),
{
    if r.len() == 0 {
        0
    } else {
        contribution_sum(r.drop_last()) + contribution(r.last())
    }
}

/// The fingerprint of a reaction list: for each reaction the digest of its
/// name plus its count, all summed modulo 2^64.
pub open spec fn fingerprint(r: Seq<(String, u64)>) -> u64 {
    (contribution_sum(r) % 0x1_0000_0000_0000_0000) as u64
}

proof fn lemma_sum_remove(r: Seq<(String, u64)>, j: int)
    requires
        0 <= j < r.len(),
    ensures
        contribution_sum(r) == contribution_sum(r.remove(j)) + contribution(r[j]),
    decreases r.len(),
{
    if j == r.len() - 1 {
        assert(r.remove(j) =~= r.drop_last());
    } else {
        lemma_sum_remove(r.drop_last(), j);
        assert(r.remove(j).drop_last() =~= r.drop_last().remove(j));
        assert(r.remove(j).last() == r.last());
    }
}

/// The fingerprint does not depend on the order of the reactions: two lists
/// with the same reactions and counts, in any order, have the same one.
pub proof fn lemma_fingerprint_order_free(a: Seq<(String, u64)>, b: Seq<(String, u64)>)
    requires
        a.to_multiset() == b.to_multiset(),
    ensures
        fingerprint(a) == fingerprint(b),
    decreases a.len(),
{
    lemma_sum_order_free(a, b);
}

proof fn lemma_sum_order_free(a: Seq<(String, u64)>, b: Seq<(String, u64)>)
    requires
        a.to_multiset() == b.to_multiset(),
    ensures
        contribution_sum(a) == contribution_sum(b),
    decreases a.len(),
{
    broadcast use vstd::seq_lib::group_to_multiset_ensures;
    if a.len() == 0 {
        assert(b.to_multiset().len() == 0);
        assert(b.len() == 0);
    } else {
        let x = a.last();
        assert(a.drop_last().push(x) =~= a);
        assert(a.to_multiset().count(x) > 0);
        assert(b.contains(x));
        let j = choose|j: int| 0 <= j < b.len() && b[j] == x;
        assert(b.remove(j).to_multiset() =~= b.to_multiset().remove(x));
        assert(a.drop_last().to_multiset() =~= a.to_multiset().remove(x));
        lemma_sum_order_free(a.drop_last(), b.remove(j));
        lemma_sum_remove(b, j);
    }
}

/// The reaction fingerprint of a raw note.
pub fn reactions_hash(note: &RawNote) -> (r: u64)
    ensures
        r == fingerprint(note.reactions@),
{
    let mut sum: u64 = 0;
    let mut i: usize = 0;
    while i < note.reactions.len()
        invariant
            i <= note.reactions@.len(),
            sum as nat == contribution_sum(note.reactions@.subrange(0, i as int)) % 0x1_0000_0000_0000_0000,
        decreases note.reactions@.len() - i,
    {
        let ghost pre = note.reactions@.subrange(0, i as int);
        let ghost next = note.reactions@.subrange(0, i as int + 1);
        assert(next.drop_last() =~= pre);
        let d = digest_name(note.reactions[i].0.as_str());
        let c = note.reactions[i].1;
        proof {
            let m: int = 0x1_0000_0000_0000_0000;
            vstd::arithmetic::div_mod::lemma_add_mod_noop(contribution_sum(pre) as int, d as int, m);
            vstd::arithmetic::div_mod::lemma_small_mod(d as nat, m as nat);
            vstd::arithmetic::div_mod::lemma_add_mod_noop(contribution_sum(pre) as int + d as int, c as int, m);
            vstd::arithmetic::div_mod::lemma_small_mod(c as nat, m as nat);
            vstd::arithmetic::div_mod::lemma_small_mod(((contribution_sum(pre) + d as nat) % (m as nat)) as nat, m as nat);
        }
        sum = sum.wrapping_add(d).wrapping_add(c);
        i = i + 1;
    }
    assert(note.reactions@.subrange(0, i as int) =~= note.reactions@);
    sum
}

/// `s` ends with `suffix`.
pub open spec fn ends_with(s: Seq<char>, suffix: Seq<char>) -> bool {
    s.len() >= suffix.len() && s.subrange(s.len() - suffix.len(), s.len() as int) == suffix
}

/// A reaction with a custom emoji of the local instance: `:name@.:`.
pub open spec fn is_local_reaction(k: Seq<char>) -> bool {
    ends_with(k, seq!['@', '.', ':'])
}

/// A reaction with a custom emoji of another instance: `:name@host:`.
pub open spec fn is_remote_reaction(k: Seq<char>) -> bool {
    !is_local_reaction(k) && k.contains('@')
}

/// Which kind of emoji identity.
#[derive(PartialEq, Eq)]
pub enum EmojiKind {
    Unicode,
    Local,
    Remote,
}

/// The kind of an emoji identity.
pub open spec fn kind_of(id: EmojiId) -> EmojiKind {
    match id {
        EmojiId::Unicode(_) => EmojiKind::Unicode,
        EmojiId::Local(_) => EmojiKind::Local,
        EmojiId::Remote(_) => EmojiKind::Remote,
    }
}

/// The emoji identity (kind and key) that a reaction resolves to, where it resolves: a local
/// custom emoji that the local table knows, a remote one that the note's
/// own table knows, or the first character of any other reaction.
pub open spec fn reaction_emoji_key(
    k: Seq<char>,
    local: Seq<(String, String)>,
    remote: Seq<(String, String)>,
) -> Option<(EmojiKind, Seq<char>)> {
    if is_local_reaction(k) {
        if k.len() >= 4 && has_key(local, k.subrange(1, k.len() - 3)) {
            Some((EmojiKind::Local, k.subrange(1, k.len() - 3)))
        } else {
            None
        }
    } else if is_remote_reaction(k) {
        if k.len() >= 2 && has_key(remote, k.subrange(1, k.len() - 1)) {
            Some((EmojiKind::Remote, k.subrange(1, k.len() - 1)))
        } else {
            None
        }
    } else if k.len() > 0 {
        Some((EmojiKind::Unicode, decimal(k[0] as u32 as nat)))
    } else {
        None
    }
}

/// The resolvable reactions of a list, as (emoji kind, emoji key, count), in order.
pub open spec fn resolved_reactions(
    r: Seq<(String, u64)>,
    local: Seq<(String, String)>,
    remote: Seq<(String, String)>,
) -> Seq<(EmojiKind, Seq<char>, u64)>
    decreases r.len(),
{
    if r.len() == 0 {
        Seq::empty()
    } else {
        let rest = resolved_reactions(r.drop_last(), local, remote);
        match reaction_emoji_key(r.last().0@, local, remote) {
            Some((kind, k)) => rest.push((kind, k, r.last().1)),
            None => rest,
        }
    }
}

/// A reaction list as (emoji kind, emoji key, count).
pub open spec fn keyed(e: Seq<(Emoji, u64)>) -> Seq<(EmojiKind, Seq<char>, u64)> {
    e.map_values(|p: (Emoji, u64)| (kind_of(p.0.spec_id()), emoji_key(p.0.spec_id()), p.1))
}

/// Counts never increase along the list.
pub open spec fn sorted_by_count(e: Seq<(Emoji, u64)>) -> bool {
    forall|i: int, j: int| 0 <= i < j < e.len() ==> #[trigger] e[i].1 >= #[trigger] e[j].1
}

/// Which emoji a reaction names, with its image URL, where it resolves.
fn resolve_reaction(k: &str, cache: &EmojiCache, note: &RawNote) -> (r: Option<(EmojiId, String)>)
    requires
        cache.wf(),
    ensures
        match reaction_emoji_key(k@, cache.spec_local_emojis(), note.reaction_emojis@) {
            Some((kind, key)) => r matches Some((id, _)) && emoji_key(id) == key && kind_of(id) == kind,
            None => r is None,
        },
{
    let cs = chars_of(k);
    let n = cs.len();
    let local = n >= 3 && cs[n - 3] == '@' && cs[n - 2] == '.' && cs[n - 1] == ':';
    proof {
        reveal_strlit("@.:");
        if n >= 3 {
            if local {
                assert(cs@.subrange(n - 3, n as int) =~= seq!['@', '.', ':']);
            } else {
                assert(cs@.subrange(n - 3, n as int)[0] == cs@[n - 3]);
                assert(cs@.subrange(n - 3, n as int)[1] == cs@[n - 2]);
                assert(cs@.subrange(n - 3, n as int)[2] == cs@[n - 1]);
            }
        }
    }
    if local {
        if n < 4 {
            return None;
        }
        let name = slice_string(&cs, 1, n - 3);
        match find_key(cache.local_emojis(), name.as_str()) {
            Some(i) => {
                let url = cache.local_emojis()[i].1.clone();
                Some((EmojiId::Local(name), url))
            },
            None => None,
        }
    } else {
        let mut at = false;
        let mut j: usize = 0;
        while j < n
            invariant
                n == cs@.len(),
                j <= n,
                at == (exists|m: int| 0 <= m < j && cs@[m] == '@'),
            decreases n - j,
        {
            if cs[j] == '@' {
                at = true;
            }
            j = j + 1;
        }
        proof {
            if at {
                let m = choose|m: int| 0 <= m < n && cs@[m] == '@';
                assert(k@.contains('@')) by {
                    assert(k@[m] == '@');
                }
            } else {
                assert(!k@.contains('@'));
            }
        }
        if at {
            if n < 2 {
                return None;
            }
            let name = slice_string(&cs, 1, n - 1);
            match find_key(&note.reaction_emojis, name.as_str()) {
                Some(i) => {
                    let url = note.reaction_emojis[i].1.clone();
                    Some((EmojiId::Remote(name), url))
                },
                None => None,
            }
        } else {
            match unicode_to_emoji(k, cache.local_instance()) {
                Some((e, url)) => Some((EmojiId::Unicode(e), url)),
                None => None,
            }
        }
    }
}

impl Reactions {
    /// Resolves the reactions of a note into emoji, loading each through the
    /// emoji cache, and orders them by count, highest first. Reactions that name no known emoji
    /// are left out. The fingerprint covers every reaction of the note.
    pub fn load(note: &RawNote, cache: &mut EmojiCache) -> (r: Reactions)
        requires
            old(cache).wf(),
        ensures
            final(cache).wf(),
            final(cache).spec_local_emojis() == old(cache).spec_local_emojis(),
            final(cache).spec_media_proxy() == old(cache).spec_media_proxy(),
            final(cache).spec_local_instance() == old(cache).spec_local_instance(),
            r.hash == fingerprint(note.reactions@),
            sorted_by_count(r.emojis@),
            keyed(r.emojis@).to_multiset() == resolved_reactions(
                note.reactions@,
                old(cache).spec_local_emojis(),
                note.reaction_emojis@,
            ).to_multiset(),
            r.emojis@.len() == resolved_reactions(
                note.reactions@,
                old(cache).spec_local_emojis(),
                note.reaction_emojis@,
            ).len(),
    {
        let ghost local = cache.spec_local_emojis();
        let ghost remote = note.reaction_emojis@;
        let mut out: Vec<(Emoji, u64)> = Vec::new();
        let mut i: usize = 0;
        assert(keyed(out@) =~= resolved_reactions(note.reactions@.subrange(0, 0), local, remote));
        while i < note.reactions.len()
            invariant
                i <= note.reactions@.len(),
                cache.wf(),
                cache.spec_local_emojis() == local,
                cache.spec_media_proxy() == old(cache).spec_media_proxy(),
                cache.spec_local_instance() == old(cache).spec_local_instance(),
                local == old(cache).spec_local_emojis(),
                remote == note.reaction_emojis@,
                sorted_by_count(out@),
                keyed(out@).to_multiset() == resolved_reactions(note.reactions@.subrange(0, i as int), local, remote).to_multiset(),
                out@.len() == resolved_reactions(note.reactions@.subrange(0, i as int), local, remote).len(),
            decreases note.reactions@.len() - i,
        {
            let ghost pre = note.reactions@.subrange(0, i as int);
            let ghost next = note.reactions@.subrange(0, i as int + 1);
            assert(next.drop_last() =~= pre);
            assert(next.last() == note.reactions@[i as int]);
            let count = note.reactions[i].1;
            match resolve_reaction(note.reactions[i].0.as_str(), cache, note) {
                Some((id, url)) => {
                    let emoji = cache.load(id, url.as_str());
                    let mut p: usize = 0;
                    while p < out.len() && out[p].1 >= count
                        invariant
                            p <= out@.len(),
                            forall|m: int| 0 <= m < p ==> #[trigger] out@[m].1 >= count,
                        decreases out@.len() - p,
                    {
                        p = p + 1;
                    }
                    let ghost old_out = out@;
                    let ghost item = (emoji, count);
                    out.insert(p, (emoji, count));
                    proof {
                        assert(out@ == old_out.insert(p as int, item));
                        assert(keyed(out@) =~= keyed(old_out).insert(p as int, (kind_of(item.0.spec_id()), emoji_key(item.0.spec_id()), count)));
                        vstd::seq_lib::to_multiset_insert(keyed(old_out), p as int, (kind_of(item.0.spec_id()), emoji_key(item.0.spec_id()), count));
                        vstd::seq_lib::to_multiset_build(
                            resolved_reactions(pre, local, remote),
                            (kind_of(item.0.spec_id()), emoji_key(item.0.spec_id()), count),
                        );
                        assert forall|a: int, b: int| 0 <= a < b < out@.len() implies #[trigger] out@[a].1 >= #[trigger] out@[b].1 by {
                            if b < p {
                                assert(out@[a] == old_out[a] && out@[b] == old_out[b]);
                            } else if b == p {
                                assert(out@[a] == old_out[a]);
                            } else if a < p {
                                assert(out@[a] == old_out[a] && out@[b] == old_out[b - 1]);
                                assert(old_out[b - 1].1 <= old_out[p as int].1);
                            } else if a == p {
                                assert(out@[b] == old_out[b - 1]);
                                assert(old_out[p as int].1 < count);
                            } else {
                                assert(out@[a] == old_out[a - 1] && out@[b] == old_out[b - 1]);
                            }
                        }
                    }
                },
                None => {},
            }
            i = i + 1;
        }
        assert(note.reactions@.subrange(0, i as int) =~= note.reactions@);
        let hash = reactions_hash(note);
        Reactions { emojis: out, hash }
    }

    /// The image URLs of the reaction emoji, in order.
    pub fn emojis(&self) -> (r: Vec<String>)
        ensures
            r@.len() == self.emojis@.len(),
            forall|i: int| 0 <= i < r@.len() ==> #[trigger] r@[i]@ == self.emojis@[i].0.spec_image(),
    {
        let mut r: Vec<String> = Vec::new();
        let mut i: usize = 0;
        while i < self.emojis.len()
            invariant
                i <= self.emojis@.len(),
                r@.len() == i,
                forall|j: int| 0 <= j < i ==> #[trigger] r@[j]@ == self.emojis@[j].0.spec_image(),
            decreases self.emojis@.len() - i,
        {
            r.push(self.emojis[i].0.url_image().to_owned());
            i = i + 1;
        }
        r
    }
}

} // verus!
