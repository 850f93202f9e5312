use std::io::Write;
use std::sync::Arc;

use yojo_art::assets::{next_batch, note_asset_urls, DelayAssets};
use yojo_art::emoji::{codepoint_hex, unicode_to_emoji, EmojiCache, EmojiId, LocalEmojis, UnicodeEmoji};
use yojo_art::image::{should_persist, Frame, GpuFrame, ImageStore, LoadStep, UrlImage};
use yojo_art::mfm::{split_links, EmojiPattern};
use yojo_art::model::{FileThumbnailMode, MFMElement, MFMString, MisskeyChannel, Note, RawNote, RawUser, StateFile, TimeLine};
use yojo_art::reactions::reactions_hash;
use yojo_art::model::Reactions;
use yojo_art::stream::{connect_frame, disconnect_frame, Route, StreamAction, StreamState};
use yojo_art::sync::{age_label, check_config, ConfigCheck, Synchronizer};
use yojo_art::text::{decimal_string, parse_u32};
use yojo_art::timeline::TimelineView;
use yojo_art::model::ConfigFile;

fn emoji_cache() -> EmojiCache {
    EmojiCache::new(
        "https://proxy.example".to_owned(),
        "https://local.example".to_owned(),
        vec![("blob".to_owned(), "https://local.example/blob.png".to_owned())],
    )
}

fn note(id: &str, hash_seed: u64) -> Arc<Note> {
    let mut n = Note::system_message("text".to_owned(), "name".to_owned(), id.to_owned(), 0);
    n.reactions = Reactions { emojis: vec![], hash: hash_seed };
    Arc::new(n)
}

fn raw_with_reactions(reactions: Vec<(&str, u64)>, remote: Vec<(&str, &str)>) -> RawNote {
    RawNote {
        id: "n".to_owned(),
        text: Some("t".to_owned()),
        created_at: "2024-01-01T00:00:00Z".to_owned(),
        cw: None,
        emojis: None,
        file_ids: vec![],
        files: vec![],
        local_only: None,
        reaction_emojis: remote.into_iter().map(|(a, b)| (a.to_owned(), b.to_owned())).collect(),
        reactions: reactions.into_iter().map(|(k, v)| (k.to_owned(), v)).collect(),
        renote_count: 0,
        renote: None,
        replies_count: 0,
        remote_uri: None,
        user: RawUser {
            avatar_blurhash: None,
            avatar_url: None,
            emojis: None,
            host: None,
            id: "u".to_owned(),
            name: None,
            username: "u".to_owned(),
            online_status: None,
            instance: None,
            is_bot: None,
            is_cat: None,
            is_fox: None,
        },
        visibility: "home".to_owned(),
        user_id: None,
    }
}

#[test]
fn reactions_resolve_and_sort_by_count() {
    let mut cache = emoji_cache();
    let raw = raw_with_reactions(vec![("❤", 3), (":blob@.:", 5), (":gone@.:", 9), ("👍", 7)], vec![]);
    let r = Reactions::load(&raw, &mut cache);
    let counts: Vec<u64> = r.emojis.iter().map(|(_, c)| *c).collect();
    assert_eq!(counts, vec![7, 5, 3]);
    let keys: Vec<String> = r.emojis.iter().map(|(e, _)| e.id_raw().id()).collect();
    assert_eq!(keys, vec!["128077".to_owned(), "blob".to_owned(), "10084".to_owned()]);
    assert!(matches!(r.emojis[1].0.id_raw(), EmojiId::Local(n) if n == "blob"));
    assert!(matches!(r.emojis[2].0.id_raw(), EmojiId::Unicode(UnicodeEmoji(0x2764))));
    assert_eq!(r.hash, reactions_hash(&raw));
}

#[test]
fn reactions_heart_and_local_blob_both_resolve() {
    let mut cache = emoji_cache();
    let raw = raw_with_reactions(vec![("❤", 3), (":blob@.:", 3)], vec![]);
    let r = Reactions::load(&raw, &mut cache);
    assert_eq!(r.emojis.len(), 2);
    assert!(r.emojis[0].1 >= r.emojis[1].1);
    assert_eq!(r.emojis[0].0.id_raw().id(), "10084");
    assert_eq!(
        r.emojis[0].0.url_image(),
        "https://proxy.example/emoji.webp?url=https%3A%2F%2Flocal.example%2Ftwemoji%2F2764.svg&emoji=1"
    );
}

#[test]
fn remote_reaction_needs_the_notes_table() {
    let mut cache = emoji_cache();
    let raw = raw_with_reactions(vec![(":cat@far.example:", 2), (":dog@far.example:", 1)], vec![("cat@far.example", "https://far.example/cat.png")]);
    let r = Reactions::load(&raw, &mut cache);
    assert_eq!(r.emojis.len(), 1);
    assert_eq!(r.emojis[0].0.id_raw().id(), "cat@far.example");
}

#[test]
fn emoji_ids_and_urls() {
    assert_eq!(UnicodeEmoji(0x2764).to_id(), "2764");
    assert_eq!(UnicodeEmoji(0x1F600).to_id(), "1f600");
    assert_eq!(codepoint_hex(0), "");
    assert_eq!(EmojiId::Unicode(UnicodeEmoji(0x2764)).id(), "10084");
    assert_eq!(EmojiId::Remote("a@b".to_owned()).id(), "a@b");
    let (e, url) = unicode_to_emoji("😀x", "https://local.example").unwrap();
    assert_eq!(e, UnicodeEmoji(0x1F600));
    assert_eq!(url, "https://local.example/twemoji/1f600.svg");
    assert!(unicode_to_emoji("", "x").is_none());
    let cache = emoji_cache();
    let (id, url) = LocalEmojis::Unicode(UnicodeEmoji(0x2764)).to_id_url(&cache);
    assert_eq!((id.as_str(), url.as_str()), ("2764", "https://local.example/twemoji/2764.svg"));
    assert_eq!(LocalEmojis::Unicode(UnicodeEmoji(0x2764)).reaction(), "❤");
    assert_eq!(LocalEmojis::Unicode(UnicodeEmoji(0xD800)).reaction(), "");
    assert_eq!(LocalEmojis::InstanceLocal("blob".to_owned(), "u".to_owned()).reaction(), ":blob:");
    assert_eq!(LocalEmojis::InstanceLocal("blob".to_owned(), "u".to_owned()).to_id_string(), "blob");
    assert!(LocalEmojis::from_id(EmojiId::Local("blob".to_owned()), &cache).is_some());
    assert!(LocalEmojis::from_id(EmojiId::Local("none".to_owned()), &cache).is_none());
    assert!(LocalEmojis::from_id(EmojiId::Remote("a@b".to_owned()), &cache).is_none());
}

#[test]
fn emoji_cache_loads_each_emoji_once() {
    let mut cache = emoji_cache();
    let a = cache.load(EmojiId::Local("blob".to_owned()), "https://local.example/blob.png");
    assert_eq!(a.url_image(), "https://proxy.example/emoji.webp?url=https%3A%2F%2Flocal.example%2Fblob.png&emoji=1");
    let b = cache.load(EmojiId::Local("blob".to_owned()), "https://elsewhere.example/other.png");
    assert_eq!(a.url_image(), b.url_image());
    assert_eq!(cache.get(&EmojiId::Local("blob".to_owned())).as_deref(), Some(a.url_image()));
    let mut images = ImageStore::new();
    assert_eq!(cache.trim(&vec![], &images), 0);
    images.finish(a.url_image(), None);
    assert_eq!(cache.trim(&vec!["blob".to_owned()], &images), 0);
    assert_eq!(cache.trim(&vec![], &images), 1);
    assert!(cache.get(&EmojiId::Local("blob".to_owned())).is_none());
}

#[test]
fn immutable_half_megabyte_is_cached_on_disk() {
    assert!(should_persist(Some("public, max-age=31536000, immutable"), 500 * 1024));
    assert!(!should_persist(Some("public, max-age=60"), 500 * 1024));
    assert!(!should_persist(Some("immutable"), 1024 * 1024));
    assert!(!should_persist(None, 10));
}

#[test]
fn second_fetch_is_served_from_disk() {
    let url = "https://cdn.example/a.webp";
    let mut disk: std::collections::HashMap<String, usize> = std::collections::HashMap::new();
    let mut network_calls = 0;
    let mut first = ImageStore::new();
    match first.request(url) {
        LoadStep::Fetch(name) => {
            assert!(!disk.contains_key(&name));
            network_calls += 1;
            if should_persist(Some("max-age=31536000, immutable"), 500 * 1024) {
                disk.insert(name, 500 * 1024);
            }
        },
        LoadStep::Skip => panic!("a new image is fetched"),
    }
    first.finish(url, None);
    // A later session asks for the same URL: same cache file name, found on disk.
    let mut second = ImageStore::new();
    match second.request(url) {
        LoadStep::Fetch(name) => assert!(disk.contains_key(&name)),
        LoadStep::Skip => panic!("a new session starts the load"),
    }
    assert_eq!(network_calls, 1);
}

#[test]
fn request_twice_fetches_once() {
    let mut store = ImageStore::new();
    assert!(matches!(store.request("https://x.example/i.png"), LoadStep::Fetch(_)));
    assert_eq!(store.request("https://x.example/i.png"), LoadStep::Skip);
    store.finish("https://x.example/i.png", None);
    assert!(store.is_loaded("https://x.example/i.png"));
    assert_eq!(store.request("https://x.example/i.png"), LoadStep::Skip);
    assert_eq!(store.request("local://dummy.png"), LoadStep::Skip);
    assert!(store.is_loaded("local://dummy.png"));
}

fn frame() -> Frame {
    Frame { width: 1, height: 1, rgba: vec![0, 0, 0, 255] }
}

fn gpu(ts: u32, handle: u64) -> GpuFrame {
    GpuFrame { timestamp: ts, handle, width: 2, height: 3 }
}

#[test]
fn frame_selection_follows_the_clock() {
    let mut img = UrlImage::from_url("u".to_owned());
    assert_eq!(img.get(5), None);
    img.set_gpu(vec![gpu(0, 10), gpu(100, 11), gpu(200, 12), gpu(300, 13)]);
    assert_eq!(img.get(0), Some(10));
    assert_eq!(img.get(150), Some(11));
    assert_eq!(img.get(200), Some(12));
    assert_eq!(img.get(299), Some(12));
    assert_eq!(img.get(450), Some(11));
    assert_eq!(img.get(450), img.get(450));
    assert_eq!(img.size(), Some((2, 3)));
    img.set_gpu(vec![gpu(0, 7)]);
    assert_eq!(img.get(12345), Some(7));
    img.set_gpu(vec![gpu(50, 1), gpu(100, 2)]);
    assert_eq!(img.get(10), Some(2));
}

#[test]
fn upload_keeps_first_frame_without_animation() {
    let mut img = UrlImage::with_frames("u".to_owned(), vec![(0, frame()), (40, frame()), (80, frame())]);
    assert!(img.loaded());
    let all = img.take_for_upload(true).unwrap();
    assert_eq!(all.len(), 3);
    let mut img = UrlImage::with_frames("u".to_owned(), vec![(0, frame()), (40, frame())]);
    let one = img.take_for_upload(false).unwrap();
    assert_eq!(one.len(), 1);
    assert!(img.take_for_upload(true).is_none());
    let mut empty = UrlImage::with_frames("u".to_owned(), vec![]);
    assert!(empty.take_for_upload(true).is_none());
    let mut img = UrlImage::from_url("u".to_owned());
    img.set_gpu(vec![gpu(0, 1)]);
    img.unload();
    assert_eq!(img.get(0), None);
}

#[test]
fn links_split_from_text() {
    let parts = split_links("see https://a.example/x?y=1 and http:// end");
    let shown: Vec<String> = parts
        .iter()
        .map(|p| match p {
            MFMElement::Text(t) => format!("T:{}", t),
            MFMElement::Url(u) => format!("U:{}", u),
            MFMElement::Emoji(..) => "E".to_owned(),
        })
        .collect();
    assert_eq!(shown, vec!["T:see ", "U:https://a.example/x?y=1", "T: and http:// end"]);
}

#[test]
fn rich_text_finds_custom_and_unicode_emoji() {
    let mut cache = emoji_cache();
    let pattern = EmojiPattern::new();
    let m = MFMString::new("hi :blob: 😀 https://a.example".to_owned(), None, None, &mut cache, pattern.as_ref());
    assert_eq!(m.raw, "hi :blob: 😀 https://a.example");
    let kinds: Vec<&str> = m
        .render
        .iter()
        .map(|p| match p {
            MFMElement::Text(_) => "T",
            MFMElement::Url(_) => "U",
            MFMElement::Emoji(..) => "E",
        })
        .collect();
    assert_eq!(kinds, vec!["T", "E", "T", "E", "T", "U"]);
    let spelled: String = m
        .render
        .iter()
        .map(|p| match p {
            MFMElement::Text(t) => t.clone(),
            MFMElement::Url(u) => u.clone(),
            MFMElement::Emoji(_, src) => src.clone(),
        })
        .collect();
    assert_eq!(spelled, m.raw);
    assert_eq!(m.urls(), vec!["https://a.example".to_owned()]);
    assert_eq!(m.emojis().len(), 2);
    assert!(!m.is_empty());
}

#[test]
fn batches_respect_limits() {
    let mut q: Vec<DelayAssets> = Vec::new();
    for i in 0..6 {
        q.push(DelayAssets::Note(note(&format!("n{}", i), 0)));
    }
    q.push(DelayAssets::Image("x".to_owned()));
    let b = next_batch(&mut q);
    assert_eq!(b.len(), 4);
    assert_eq!(q.len(), 3);
    let mut q: Vec<DelayAssets> = (0..40).map(|i| DelayAssets::Image(format!("{}", i))).collect();
    q.insert(0, DelayAssets::UpdateState(StateFile::default()));
    let b = next_batch(&mut q);
    assert_eq!(b.len(), 32);
    assert_eq!(q.len(), 9);
}

#[test]
fn note_assets_skip_loaded_images() {
    let n = note("a", 0);
    let mut images = ImageStore::new();
    let urls = note_asset_urls(&n, FileThumbnailMode::Thumbnail, &images);
    assert_eq!(urls, vec!["local://dummy.png".to_owned()]);
    images.request("local://dummy.png");
    assert!(note_asset_urls(&n, FileThumbnailMode::Thumbnail, &images).is_empty());
}

#[test]
fn timeline_replaces_by_id() {
    let mut tl = TimelineView::new();
    assert!(tl.receive(note("a", 1)));
    assert!(tl.receive(note("b", 1)));
    let newer = note("a", 2);
    assert!(!tl.receive(newer.clone()));
    assert_eq!(tl.notes().len(), 2);
    assert!(Arc::ptr_eq(&tl.notes()[0], &newer));
    assert_eq!(tl.live_ids(), vec!["a".to_owned(), "b".to_owned()]);
}

#[test]
fn timeline_keeps_thirty_newest() {
    let mut tl = TimelineView::new();
    for i in 0..31 {
        tl.receive(note(&format!("n{}", i), 0));
    }
    assert_eq!(tl.notes().len(), 30);
    assert_eq!(tl.notes()[0].id, "n1");
}

#[test]
fn stream_frames_and_channels() {
    assert_eq!(
        connect_frame(MisskeyChannel::HomeTimeline, 3),
        "{\"type\":\"connect\",\"body\":{\"channel\":\"homeTimeline\",\"id\":\"3\",\"params\":{\"withRenotes\":true,\"withCats\":false}}}"
    );
    assert_eq!(disconnect_frame(12), "{\"type\":\"disconnect\",\"body\":{\"id\":\"12\"}}");
    let mut s = StreamState::new();
    assert_eq!(
        s.on_request(Some(MisskeyChannel::from_timeline(TimeLine::Home))),
        vec![StreamAction::Connect, StreamAction::Open(MisskeyChannel::HomeTimeline, 0)]
    );
    assert_eq!(
        s.on_request(Some(MisskeyChannel::GlobalTimeline)),
        vec![StreamAction::Open(MisskeyChannel::GlobalTimeline, 1), StreamAction::Close(0)]
    );
    assert_eq!(s.route("channel", "1", "note"), Route::Note(1));
    assert_eq!(s.route("channel", "0", "note"), Route::UnknownChannel(0));
    assert_eq!(s.route("channel", "1", "follow"), Route::Ignore);
    assert_eq!(s.route("channel", "x1", "note"), Route::Ignore);
    assert_eq!(s.route("connected", "1", "note"), Route::Ignore);
    assert_eq!(s.on_request(None), vec![StreamAction::Close(1)]);
    assert_eq!(s.on_request(None), vec![]);
    assert_eq!(
        s.on_request(Some(MisskeyChannel::HomeTimeline)),
        vec![StreamAction::Open(MisskeyChannel::HomeTimeline, 2)]
    );
    assert_eq!(s.close_connection(), vec![StreamAction::Close(2), StreamAction::CloseConnection]);
    assert_eq!(s.close_connection(), vec![]);
}

#[test]
fn streaming_note_replaces_shown_note() {
    let mut s = StreamState::new();
    s.on_request(Some(MisskeyChannel::HomeTimeline));
    let mut tl = TimelineView::new();
    tl.receive(note("a", 1));
    assert_eq!(s.route("channel", "0", "note"), Route::Note(0));
    assert!(!tl.receive(note("a", 2)));
    assert_eq!(tl.notes().len(), 1);
    assert_eq!(tl.notes()[0].reactions.hash, 2);
}

#[test]
fn numbers_and_labels() {
    assert_eq!(decimal_string(0), "0");
    assert_eq!(decimal_string(1234567890), "1234567890");
    assert_eq!(parse_u32("42"), Some(42));
    assert_eq!(parse_u32("4294967295"), Some(u32::MAX));
    assert_eq!(parse_u32("4294967296"), None);
    assert_eq!(parse_u32(""), None);
    assert_eq!(parse_u32("+1"), None);
    assert_eq!(age_label(30), "30秒前");
    assert_eq!(age_label(300), "5分前");
    assert_eq!(age_label(7200), "2時間前");
    assert_eq!(age_label(3 * 86400), "3日前");
    assert_eq!(age_label(15 * 86400), "2週間前");
    assert_eq!(age_label(65 * 86400), "2ヶ月前");
    assert_eq!(age_label(800 * 86400), "2年前");
    assert_eq!(age_label(-5), "-5秒前");
    let n = note("a", 0);
    assert_eq!(n.created_at_label_at(61), "1分前");
}

#[test]
fn config_is_checked_token_first() {
    let mut c = ConfigFile::default();
    assert_eq!(check_config(&c), ConfigCheck::MissingToken);
    c.token = Some("t".to_owned());
    assert_eq!(check_config(&c), ConfigCheck::MissingInstance);
    c.instance = Some("https://i.example".to_owned());
    assert_eq!(check_config(&c), ConfigCheck::Ready);
}

#[test]
fn synchronizer_sweeps_after_fifteen_rebuilds() {
    let mut s = Synchronizer::new(emoji_cache(), None);
    let mut raws = Vec::new();
    for i in 0..15 {
        let mut r = raw_with_reactions(vec![], vec![]);
        r.id = format!("n{}", i);
        raws.push(r);
    }
    let out = s.ingest_all(&raws);
    assert_eq!(out.len(), 15);
    assert!(out.iter().all(|(_, hit)| !hit));
    assert!(s.sweep_due());
    let again = s.ingest_all(&raws);
    assert!(again.iter().all(|(_, hit)| *hit));
    let report = s.sweep_if_due(&vec!["n0".to_owned()], &vec![]).unwrap();
    assert_eq!(report.notes, 14);
    assert!(!s.sweep_due());
    assert!(s.sweep_if_due(&vec![], &vec![]).is_none());
}

#[test]
fn system_message_is_public_and_plain() {
    let n = Note::system_message("hello".to_owned(), "sys".to_owned(), "m1".to_owned(), 42);
    assert_eq!(n.user.id, "system");
    assert_eq!(n.created_at, 42);
    assert!(n.reactions.emojis.is_empty() && n.reactions.hash == 0 && n.files.is_empty() && n.cw.is_none());
    assert_eq!(n.text.raw, "hello");
    assert_eq!(n.user.display_name.raw, "sys");
    assert!(n.quote.is_none());
    assert!(n.can_renote());
    assert_eq!(TimeLine::Global.endpoint(), "global-timeline");
    assert_eq!(MisskeyChannel::GlobalTimeline.id(), "globalTimeline");
}

#[test]
fn renote_points_at_quote_of_plain_renote() {
    let plain = note("a", 0);
    assert_eq!(plain.renote_target(), Some("a".to_owned()));
    let mut empty = Note::system_message(String::new(), "n".to_owned(), "r".to_owned(), 0);
    assert_eq!(empty.renote_target(), None);
    empty.quote = Some(note("q", 0));
    assert_eq!(empty.renote_target(), Some("q".to_owned()));
}

#[test]
fn emoji_table_reads_code_points_after_the_mark() {
    let mut enc = flate2::write::GzEncoder::new(Vec::new(), flate2::Compression::default());
    enc.write_all(&[0, 0, 0xFE, 0xFF, 0, 0, 0x27, 0x64, 0, 1, 0xF6, 0x00, 0, 0]).unwrap();
    let gz = enc.finish().unwrap();
    let all = UnicodeEmoji::load_all(&gz);
    assert_eq!(all, vec![UnicodeEmoji(0x2764), UnicodeEmoji(0x1F600)]);
    assert!(UnicodeEmoji::load_all(&vec![1, 2, 3]).is_empty());
}

#[test]
fn preview_images_are_thumbnail_then_icon() {
    let s = yojo_art::model::Summaly {
        url: "https://a.example".to_owned(),
        title: None,
        sitename: None,
        description: None,
        icon: Some("https://a.example/i.png".to_owned()),
        thumbnail: Some("https://a.example/t.png".to_owned()),
    };
    assert_eq!(s.images(), vec!["https://a.example/t.png".to_owned(), "https://a.example/i.png".to_owned()]);
}
