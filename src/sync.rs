//! The timeline synchronizer's decisions: what a fetch adds to the
//! timeline, when the caches are swept, and the notes it makes itself.
use vstd::prelude::*;

use std::sync::Arc;

use crate::cache::{resolve_spec, sweep_spec, EntityCache, SweepReport};
use crate::table::views;
use crate::emoji::EmojiCache;
use crate::image::DUMMY_PNG;
use crate::model::{ConfigFile, MFMString, Note, RawNote, Reactions, UserProfile, Visibility};
use crate::reactions::{fingerprint, reactions_hash};
use crate::text::{decimal, push_decimal, push_str, str_eq};

verus! {

/// How many notes rebuilt since the last sweep make a sweep due.
pub const SWEEP_EVERY: u64 = 15;

/// The fingerprint of the last known note with identifier `id`.
pub open spec fn known_hash(known: Seq<Arc<Note>>, id: Seq<char>) -> Option<u64>
    decreases known.len(),
{
    if known.len() == 0 {
        None
    } else if known.last().id@ == id {
        Some(known.last().reactions.hash)
    } else {
        known_hash(known.drop_last(), id)
    }
}

/// A fetched note that the caller already shows with the same fingerprint.
pub open spec fn is_unchanged(n: RawNote, known: Seq<Arc<Note>>) -> bool {
    known_hash(known, n.id@) == Some(fingerprint(n.reactions@))
}

/// The notes of a fetch (newest first) to hand on: oldest first, without
/// those the caller shows unchanged.
pub open spec fn reconciled(fetched: Seq<RawNote>, known: Seq<Arc<Note>>) -> Seq<RawNote>
    decreases fetched.len(),
{
    if fetched.len() == 0 {
        Seq::empty()
    } else {
        let rest = reconciled(fetched.drop_first(), known);
        if is_unchanged(fetched[0], known) {
            rest
        } else {
            rest.push(fetched[0])
        }
    }
}

fn known_hash_exec(known: &Vec<Arc<Note>>, id: &str) -> (r: Option<u64>)
    ensures
        r == known_hash(known@, id@),
{
    let mut i: usize = known.len();
    assert(known@.subrange(0, i as int) =~= known@);
    while i > 0
        invariant
            i <= known@.len(),
            known_hash(known@, id@) == known_hash(known@.subrange(0, i as int), id@),
        decreases i,
    {
        let ghost pre = known@.subrange(0, i as int);
        assert(pre.drop_last() =~= known@.subrange(0, i - 1));
        if str_eq(known[i - 1].id.as_str(), id) {
            return Some(known[i - 1].reactions.hash);
        }
        i = i - 1;
    }
    None
}

/// Reconciles a fetched page (newest first) with the notes the caller
/// shows: the result is oldest first and leaves out each note whose
/// identifier and fingerprint match the last known note of that identifier.
pub fn reconcile(fetched: Vec<RawNote>, known: &Vec<Arc<Note>>) -> (r: Vec<RawNote>)
    ensures
        r@ == reconciled(fetched@, known@),
{
    let ghost f = fetched@;
    let mut rest = fetched;
    let mut out: Vec<RawNote> = Vec::new();
    assert(f.subrange(f.len() as int, f.len() as int) =~= Seq::<RawNote>::empty());
    while rest.len() > 0
        invariant
            rest@.len() <= f.len(),
            rest@ == f.subrange(0, rest@.len() as int),
            out@ == reconciled(f.subrange(rest@.len() as int, f.len() as int), known@),
        decreases rest@.len(),
    {
        let ghost k = rest@.len() as int;
        let ghost before = rest@;
        let n = rest.pop().unwrap();
        assert(n == before.last());
        assert(before.last() == f[k - 1]);
        assert(f.subrange(k - 1, f.len() as int).drop_first() =~= f.subrange(k, f.len() as int));
        assert(f.subrange(k - 1, f.len() as int)[0] == n);
        let hash = reactions_hash(&n);
        let unchanged = match known_hash_exec(known, n.id.as_str()) {
            Some(h) => h == hash,
            None => false,
        };
        if !unchanged {
            out.push(n);
        }
        assert(rest@ =~= f.subrange(0, rest@.len() as int));
    }
    assert(f.subrange(0, f.len() as int) =~= f);
    out
}

/// The notes made by a run of resolutions, in order.
pub open spec fn made(rs: Seq<Option<(Arc<Note>, bool)>>) -> Seq<(Arc<Note>, bool)>
    decreases rs.len(),
{
    if rs.len() == 0 {
        Seq::empty()
    } else {
        match rs.last() {
            Some(x) => made(rs.drop_last()).push(x),
            None => made(rs.drop_last()),
        }
    }
}

/// Resolving `raws` in order takes the cache from `c0` through the states
/// `cs` (`c0` first, `c1` last) with the results `rs`, one `resolve_spec`
/// step per raw note.
pub open spec fn ingest_spec(
    c0: EntityCache,
    raws: Seq<RawNote>,
    cs: Seq<EntityCache>,
    rs: Seq<Option<(Arc<Note>, bool)>>,
    c1: EntityCache,
) -> bool
    decreases raws.len(),
{
    &&& cs.len() == raws.len() + 1
    &&& rs.len() == raws.len()
    &&& cs[0] == c0
    &&& cs.last() == c1
    &&& raws.len() > 0 ==> ingest_spec(c0, raws.drop_last(), cs.drop_last(), rs.drop_last(), cs[raws.len() - 1])
        && resolve_spec(cs[raws.len() - 1], raws.last(), c1, rs.last())
}

/// What the configuration lets the synchronizer do.
#[derive(Clone, Copy, Debug, PartialEq, Eq)]
pub enum ConfigCheck {
    /// No access token: report it once and stop.
    MissingToken,
    /// No instance URL: report it once and stop.
    MissingInstance,
    Ready,
}

/// Checks the configuration: the token first, then the instance.
pub fn check_config(config: &ConfigFile) -> (r: ConfigCheck)
    ensures
        config.token is None ==> r == ConfigCheck::MissingToken,
        config.token is Some && config.instance is None ==> r == ConfigCheck::MissingInstance,
        config.token is Some && config.instance is Some ==> r == ConfigCheck::Ready,
{
    if config.token.is_none() {
        ConfigCheck::MissingToken
    } else if config.instance.is_none() {
        ConfigCheck::MissingInstance
    } else {
        ConfigCheck::Ready
    }
}

/// The user-visible text for a configuration problem.
pub fn config_message(c: ConfigCheck) -> (r: String)
    ensures
        c == ConfigCheck::MissingToken ==> r@ == "token が指定されていません"@,
        c == ConfigCheck::MissingInstance ==> r@ == "instance が指定されていません"@,
        c == ConfigCheck::Ready ==> r@.len() == 0,
{
    match c {
        ConfigCheck::MissingToken => "token が指定されていません".to_owned(),
        ConfigCheck::MissingInstance => "instance が指定されていません".to_owned(),
        ConfigCheck::Ready => String::new(),
    }
}

/// Whether animated images keep all their frames.
pub fn animation_enabled(config: &ConfigFile) -> (r: bool)
    ensures
        r == match config.is_animation {
            Some(a) => a,
            None => crate::model::DEFAULT_ANIMATION,
        },
{
    match config.is_animation {
        Some(a) => a,
        None => crate::model::DEFAULT_ANIMATION,
    }
}

/// The synchronizer: the caches, and how many notes were rebuilt since the
/// last sweep.
pub struct Synchronizer {
    cache: EntityCache,
    rebuilt: u64,
}

impl Synchronizer {
    pub closed spec fn spec_cache(&self) -> EntityCache {
        self.cache
    }

    pub closed spec fn spec_rebuilt(&self) -> u64 {
        self.rebuilt
    }

    pub open spec fn wf(&self) -> bool {
        self.spec_cache().wf()
    }

    pub fn new(emoji: EmojiCache, pattern: Option<crate::mfm::EmojiPattern>) -> (r: Self)
        requires
            emoji.wf(),
        ensures
            r.wf(),
            r.spec_rebuilt() == 0,
    {
        Synchronizer { cache: EntityCache::new(emoji, pattern), rebuilt: 0 }
    }

    pub fn cache(&self) -> (r: &EntityCache)
        ensures
            *r == self.spec_cache(),
    {
        &self.cache
    }

    pub fn cache_mut(&mut self) -> (r: &mut EntityCache)
        ensures
            *r == old(self).spec_cache(),
            final(self).spec_cache() == *final(r),
            final(self).spec_rebuilt() == old(self).spec_rebuilt(),
    {
        &mut self.cache
    }

    /// Takes in one raw note: resolves it through the cache (see
    /// `resolve_spec`). The caller shows the note and, unless it was a cache
    /// hit, has its assets loaded. A rebuilt note counts towards the next sweep.
    pub fn ingest(&mut self, raw: &RawNote) -> (r: Option<(Arc<Note>, bool)>)
        requires
            old(self).wf(),
        ensures
            final(self).wf(),
            resolve_spec(old(self).spec_cache(), *raw, final(self).spec_cache(), r),
            final(self).spec_rebuilt() == if r matches Some((_, false)) {
                if old(self).spec_rebuilt() < u64::MAX { (old(self).spec_rebuilt() + 1) as u64 } else { u64::MAX }
            } else {
                old(self).spec_rebuilt()
            },
    {
        let r = self.cache.resolve_note(raw);
        match &r {
            Some((_, false)) => {
                self.rebuilt = self.rebuilt.saturating_add(1);
            },
            _ => {},
        }
        r
    }

    /// Takes in a page of raw notes in order (see `ingest_spec`): each goes
    /// through the cache in turn, and the notes they make come back in the
    /// same order, each marked as a cache hit or not.
    pub fn ingest_all(&mut self, raws: &Vec<RawNote>) -> (r: Vec<(Arc<Note>, bool)>)
        requires
            old(self).wf(),
        ensures
            final(self).wf(),
            exists|cs: Seq<EntityCache>, rs: Seq<Option<(Arc<Note>, bool)>>|
                #[trigger] ingest_spec(old(self).spec_cache(), raws@, cs, rs, final(self).spec_cache()) && r@ == made(rs),
    {
        let mut out: Vec<(Arc<Note>, bool)> = Vec::new();
        let mut i: usize = 0;
        let ghost mut cs: Seq<EntityCache> = seq![self.spec_cache()];
        let ghost mut rs: Seq<Option<(Arc<Note>, bool)>> = Seq::empty();
        while i < raws.len()
            invariant
                self.wf(),
                i <= raws@.len(),
                ingest_spec(old(self).spec_cache(), raws@.subrange(0, i as int), cs, rs, self.spec_cache()),
                out@ == made(rs),
            decreases raws@.len() - i,
        {
            let ghost before = self.spec_cache();
            let x = self.ingest(&raws[i]);
            proof {
                let ncs = cs.push(self.spec_cache());
                let nrs = rs.push(x);
                assert(raws@.subrange(0, i as int + 1).drop_last() =~= raws@.subrange(0, i as int));
                assert(ncs.drop_last() =~= cs);
                assert(nrs.drop_last() =~= rs);
                assert(nrs.last() == x);
                cs = ncs;
                rs = nrs;
            }
            match x {
                Some(n) => out.push(n),
                None => {},
            }
            proof {
                assert(out@ =~= made(rs));
            }
            i = i + 1;
        }
        assert(raws@.subrange(0, i as int) =~= raws@);
        out
    }

    /// Whether enough notes were rebuilt for a sweep.
    pub fn sweep_due(&self) -> (r: bool)
        ensures
            r == (self.spec_rebuilt() >= SWEEP_EVERY),
    {
        self.rebuilt >= SWEEP_EVERY
    }

    /// Sweeps the caches where a sweep is due, keeping what the live notes
    /// reach and the images `extra` names (see `EntityCache::sweep`), and
    /// starts counting again.
    pub fn sweep_if_due(&mut self, live: &Vec<String>, extra: &Vec<String>) -> (r: Option<SweepReport>)
        requires
            old(self).wf(),
        ensures
            final(self).wf(),
            old(self).spec_rebuilt() < SWEEP_EVERY ==> r is None && final(self).spec_cache() == old(self).spec_cache()
                && final(self).spec_rebuilt() == old(self).spec_rebuilt(),
            old(self).spec_rebuilt() >= SWEEP_EVERY ==> r is Some && final(self).spec_rebuilt() == 0
                && sweep_spec(old(self).spec_cache(), views(live@), views(extra@), final(self).spec_cache(), r->0),
    {
        if self.rebuilt < SWEEP_EVERY {
            return None;
        }
        self.rebuilt = 0;
        Some(self.cache.sweep(live, extra))
    }
}

/// The unit and the count of an age label, for an age in seconds.
pub open spec fn age_parts(secs: int) -> (int, Seq<char>) {
    if secs > 31104000 {
        (secs / 31104000int, "年前"@)
    } else if secs > 2592000 {
        (secs / 2592000int, "ヶ月前"@)
    } else if secs > 604800 {
        (secs / 604800int, "週間前"@)
    } else if secs > 86400 {
        (secs / 86400int, "日前"@)
    } else if secs > 3600 {
        (secs / 3600int, "時間前"@)
    } else if secs > 60 {
        (secs / 60int, "分前"@)
    } else {
        (secs, "秒前"@)
    }
}

/// The decimal form of an integer, with a minus sign when negative.
pub open spec fn signed_decimal(n: int) -> Seq<char> {
    if n < 0 {
        seq!['-'] + decimal((-n) as nat)
    } else {
        decimal(n as nat)
    }
}

/// How long ago something happened, `secs` seconds ago: the count of the
/// largest unit it exceeds (years of 360 days, months of 30 days, weeks,
/// days, hours, minutes), or the seconds themselves.
pub fn age_label(secs: i64) -> (r: String)
    ensures
        r@ == signed_decimal(age_parts(secs as int).0) + age_parts(secs as int).1,
{
    let (n, unit): (i64, &str) = if secs > 12 * 30 * 24 * 60 * 60 {
        (secs / (12 * 30 * 24 * 60 * 60), "年前")
    } else if secs > 30 * 24 * 60 * 60 {
        (secs / (30 * 24 * 60 * 60), "ヶ月前")
    } else if secs > 7 * 24 * 60 * 60 {
        (secs / (7 * 24 * 60 * 60), "週間前")
    } else if secs > 24 * 60 * 60 {
        (secs / (24 * 60 * 60), "日前")
    } else if secs > 60 * 60 {
        (secs / (60 * 60), "時間前")
    } else if secs > 60 {
        (secs / 60, "分前")
    } else {
        (secs, "秒前")
    };
    let mut s = String::new();
    if n < 0 {
        crate::text::push_char(&mut s, '-');
        let m: u64 = if n == i64::MIN { 0x8000_0000_0000_0000 } else { (-n) as u64 };
        push_decimal(&mut s, m);
    } else {
        push_decimal(&mut s, n as u64);
    }
    push_str(&mut s, unit);
    assert(s@ =~= signed_decimal(age_parts(secs as int).0) + age_parts(secs as int).1);
    s
}

/// Relies on `std::time::SystemTime::now` read through chrono's
/// `DateTime<Utc>::from(SystemTime)` and `timestamp`: the current time in
/// seconds since the epoch (negative before it); nothing is known of its value.
#[verifier::external_body]
pub fn now_seconds() -> (r: i64) {
    chrono::DateTime::<chrono::Utc>::from(std::time::SystemTime::now()).timestamp()
}

/// The age label of something made at `created` as seen at `now`: empty
/// where the age does not fit in an `i64`.
pub open spec fn label_at(created: i64, now: i64) -> Seq<char> {
    if i64::MIN <= now - created <= i64::MAX {
        signed_decimal(age_parts(now - created).0) + age_parts(now - created).1
    } else {
        Seq::empty()
    }
}

impl Note {
    /// How long ago the note was made, at time `now` (seconds since the
    /// epoch); empty where the age does not fit in an `i64`.
    pub fn created_at_label_at(&self, now: i64) -> (r: String)
        ensures
            r@ == label_at(self.created_at, now),
    {
        match now.checked_sub(self.created_at) {
            Some(d) => age_label(d),
            None => String::new(),
        }
    }

    /// How long ago the note was made, at the current time.
    pub fn created_at_label(&self) -> (r: String)
        ensures
            exists|now: i64| #[trigger] label_at(self.created_at, now) == r@,
    {
        let now = now_seconds();
        self.created_at_label_at(now)
    }

    /// A note that the client itself shows: public, with no reactions, no
    /// files and no quote, from the system user with display name `name`,
    /// made at `now` under identifier `id` (a fresh random identifier in
    /// practice, which the caller draws).
    pub fn system_message(text: String, name: String, id: String, now: i64) -> (r: Note)
        ensures
            r.id@ == id@,
            r.text.raw@ == text@,
            r.user.display_name.raw@ == name@,
            r.user.id@ == "system"@,
            r.user.username@ == "system"@,
            r.user.icon@ == DUMMY_PNG@,
            r.user.instance is None,
            r.visibility == Visibility::Public,
            r.quote is None,
            r.files@.len() == 0,
            r.reactions.emojis@.len() == 0,
            r.reactions.hash == 0,
            r.cw is None,
            r.created_at == now,
    {
        let mut cache = EmojiCache::new(String::new(), "localhost".to_owned(), Vec::new());
        let display_name = MFMString::new(name, None, None, &mut cache, None);
        let body = MFMString::new(text, None, None, &mut cache, None);
        let user = UserProfile {
            id: "system".to_owned(),
            username: "system".to_owned(),
            display_name,
            instance: None,
            icon: DUMMY_PNG.to_owned(),
        };
        Note {
            id,
            user: Arc::new(user),
            quote: None,
            text: body,
            visibility: Visibility::Public,
            reactions: Reactions { emojis: Vec::new(), hash: 0 },
            files: Vec::new(),
            cw: None,
            created_at: now,
        }
    }
}

} // verus!
