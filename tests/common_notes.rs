use std::sync::Arc;

use yojo_art::cache::{EntityCache, SweepReport};
use yojo_art::emoji::EmojiCache;
use yojo_art::model::{RawFile, RawFileProperties, RawInstance, RawNote, RawUser, Visibility};
use yojo_art::reactions::reactions_hash;
use yojo_art::sync::{config_message, reconcile, ConfigCheck};

fn user(id: &str) -> RawUser {
    RawUser {
        avatar_blurhash: None,
        avatar_url: Some(format!("https://cdn.example/{}.png", id)),
        emojis: None,
        host: None,
        id: id.to_owned(),
        name: Some(format!("name {}", id)),
        username: id.to_owned(),
        online_status: None,
        instance: None,
        is_bot: None,
        is_cat: None,
        is_fox: None,
    }
}

fn raw(id: &str, text: Option<&str>, reactions: Vec<(&str, u64)>) -> RawNote {
    RawNote {
        id: id.to_owned(),
        text: text.map(|t| t.to_owned()),
        created_at: "2024-05-13T19:43:44.344Z".to_owned(),
        cw: None,
        emojis: None,
        file_ids: vec![],
        files: vec![],
        local_only: None,
        reaction_emojis: vec![],
        reactions: reactions.into_iter().map(|(k, v)| (k.to_owned(), v)).collect(),
        renote_count: 0,
        renote: None,
        replies_count: 0,
        remote_uri: None,
        user: user("u1"),
        visibility: "public".to_owned(),
        user_id: None,
    }
}

fn cache() -> EntityCache {
    let emoji = EmojiCache::new(
        "https://proxy.example".to_owned(),
        "https://local.example".to_owned(),
        vec![("blob".to_owned(), "https://local.example/blob.png".to_owned())],
    );
    EntityCache::new(emoji, None)
}

#[test]
fn unchanged_fingerprint_is_a_cache_hit() {
    let mut c = cache();
    let a = raw("A", Some("hello"), vec![("❤", 3)]);
    let (first, hit1) = c.resolve_note(&a).unwrap();
    assert!(!hit1);
    let again = raw("A", Some("hello, edited text"), vec![("❤", 3)]);
    let (second, hit2) = c.resolve_note(&again).unwrap();
    assert!(hit2);
    assert!(Arc::ptr_eq(&first, &second));
    assert_eq!(second.text.raw, "hello");
}

#[test]
fn changed_reactions_rebuild_the_note() {
    let mut c = cache();
    let (first, _) = c.resolve_note(&raw("A", Some("hello"), vec![("❤", 3)])).unwrap();
    let (second, hit) = c.resolve_note(&raw("A", Some("hello"), vec![("❤", 4)])).unwrap();
    assert!(!hit);
    assert!(!Arc::ptr_eq(&first, &second));
    assert_eq!(c.get_note("A").unwrap().reactions.hash, second.reactions.hash);
}

#[test]
fn note_without_text_or_renote_is_dropped() {
    let mut c = cache();
    assert!(c.resolve_note(&raw("A", None, vec![])).is_none());
    assert!(c.get_note("A").is_none());
}

#[test]
fn bad_timestamp_is_dropped() {
    let mut c = cache();
    let mut r = raw("A", Some("x"), vec![]);
    r.created_at = "yesterday".to_owned();
    assert!(c.resolve_note(&r).is_none());
}

#[test]
fn created_at_is_parsed_to_seconds() {
    let mut c = cache();
    let mut r = raw("A", Some("x"), vec![]);
    r.created_at = "1970-01-01T00:01:40Z".to_owned();
    let (n, _) = c.resolve_note(&r).unwrap();
    assert_eq!(n.created_at, 100);
}

#[test]
fn renote_resolves_quote_through_the_cache() {
    let mut c = cache();
    let mut r = raw("B", None, vec![]);
    r.renote = Some(Box::new(raw("Q", Some("quoted"), vec![])));
    let (n, _) = c.resolve_note(&r).unwrap();
    let q = n.quote.as_ref().unwrap();
    assert_eq!(q.id, "Q");
    assert!(Arc::ptr_eq(q, &c.get_note("Q").unwrap()));
    assert!(n.is_simple_renote());
    assert!(n.can_renote());
}

#[test]
fn fetch_emits_only_changed_notes_oldest_first() {
    let mut c = cache();
    let a = raw("A", Some("a"), vec![("❤", 1)]);
    let (known_a, _) = c.resolve_note(&a).unwrap();
    // The server sends the newest first: B is newer than A.
    let fetched = vec![raw("B", Some("b"), vec![]), raw("A", Some("a"), vec![("❤", 1)])];
    let out = reconcile(fetched, &vec![known_a]);
    assert_eq!(out.len(), 1);
    assert_eq!(out[0].id, "B");
}

#[test]
fn fetch_keeps_known_note_whose_reactions_changed() {
    let mut c = cache();
    let (known_a, _) = c.resolve_note(&raw("A", Some("a"), vec![("❤", 1)])).unwrap();
    let fetched = vec![raw("B", Some("b"), vec![]), raw("A", Some("a"), vec![("❤", 2)])];
    let out = reconcile(fetched, &vec![known_a]);
    let ids: Vec<&str> = out.iter().map(|n| n.id.as_str()).collect();
    assert_eq!(ids, vec!["A", "B"]);
}

#[test]
fn fingerprint_is_digest_plus_counts() {
    let a = raw("A", Some("a"), vec![("❤", 3)]);
    let b = raw("A", Some("a"), vec![("❤", 5)]);
    assert_eq!(reactions_hash(&b).wrapping_sub(reactions_hash(&a)), 2);
    assert_eq!(reactions_hash(&a), reactions_hash(&raw("Z", None, vec![("❤", 3)])));
}

#[test]
fn sweep_keeps_live_notes_and_what_they_reach() {
    let mut c = cache();
    let mut r = raw("B", Some("with quote"), vec![]);
    r.renote = Some(Box::new(raw("Q", Some("quoted"), vec![])));
    r.user = user("u2");
    c.resolve_note(&r).unwrap();
    c.resolve_note(&raw("C", Some("old"), vec![])).unwrap();
    let report: SweepReport = c.sweep(&vec!["B".to_owned()], &vec![]);
    assert!(c.get_note("B").is_some());
    assert!(c.get_note("Q").is_some());
    assert!(c.get_note("C").is_none());
    assert_eq!(report.notes, 1);
    assert_eq!(report.users, 0);
}

#[test]
fn sweep_cascades_to_unquoted_notes() {
    let mut c = cache();
    let mut r = raw("B", Some("with quote"), vec![]);
    r.renote = Some(Box::new(raw("Q", Some("quoted"), vec![])));
    c.resolve_note(&r).unwrap();
    let report = c.sweep(&vec![], &vec![]);
    assert!(c.get_note("B").is_none());
    assert!(c.get_note("Q").is_none());
    assert_eq!(report.notes, 2);
    assert_eq!(report.users, 1);
}

#[test]
fn user_instance_is_shared_and_avatar_defaults() {
    let mut c = cache();
    let mut u = user("u9");
    u.avatar_url = None;
    u.host = Some("remote.example".to_owned());
    u.instance = Some(RawInstance {
        favicon_url: None,
        icon_url: None,
        name: Some("Remote".to_owned()),
        software_name: None,
        software_version: None,
        theme_color: Some("#ff8000".to_owned()),
    });
    let p = c.resolve_user(&u);
    assert_eq!(p.icon, "https://local.example/avatar/@u9@remote.example");
    let inst = p.instance.as_ref().unwrap();
    assert_eq!(inst.host(), "remote.example");
    assert_eq!(inst.display_name(), "Remote");
    assert_eq!(inst.theme_color(), (255, 128, 0, 255));
    assert_eq!(inst.icon, "local://dummy.png");
    let again = c.resolve_user(&u);
    assert!(Arc::ptr_eq(&p, &again));
}

#[test]
fn image_files_keep_urls_and_placeholder() {
    let mut c = cache();
    let mut r = raw("F", Some("pic"), vec![]);
    r.files = vec![RawFile {
        id: "f1".to_owned(),
        blurhash: Some("LEHV6nWB2yk8pyo0adR*.7kCMdnj".to_owned()),
        comment: None,
        created_at: String::new(),
        folder_id: None,
        is_sensitive: true,
        md5: None,
        name: None,
        properties: Some(RawFileProperties { width: Some(40), height: Some(30) }),
        size: 1,
        thumbnail_url: Some("https://t.example/1.webp".to_owned()),
        url: Some("https://o.example/1.jpg".to_owned()),
        mime_type: Some("image/jpeg".to_owned()),
        user_id: None,
    }];
    let (n, _) = c.resolve_note(&r).unwrap();
    let f = &n.files[0];
    assert!(f.is_image());
    assert_eq!(f.img.as_deref(), Some("https://t.example/1.webp"));
    assert_eq!(f.original_img.as_deref(), Some("https://o.example/1.jpg"));
    assert!(f.is_sensitive);
    let key = f.blurhash.clone().unwrap();
    assert_eq!(key, "blurhash://LEHV6nWB2yk8pyo0adR*.7kCMdnj");
    assert!(c.images().is_loaded(&key));
}

#[test]
fn non_image_file_has_no_image() {
    let mut c = cache();
    let mut r = raw("F", Some("clip"), vec![]);
    r.files = vec![RawFile {
        id: "f2".to_owned(),
        blurhash: None,
        comment: None,
        created_at: String::new(),
        folder_id: None,
        is_sensitive: false,
        md5: None,
        name: None,
        properties: None,
        size: 1,
        thumbnail_url: Some("https://t.example/2.webp".to_owned()),
        url: Some("https://o.example/2.mp4".to_owned()),
        mime_type: Some("video/mp4".to_owned()),
        user_id: None,
    }];
    let (n, _) = c.resolve_note(&r).unwrap();
    assert!(!n.files[0].is_image());
    assert_eq!(n.files[0].original_url.as_deref(), Some("https://o.example/2.mp4"));
    let report = c.sweep(&vec!["F".to_owned()], &vec![]);
    assert_eq!(report.files, 1);
}

#[test]
fn visibility_names_round_trip() {
    for v in [Visibility::Public, Visibility::Home, Visibility::Followers, Visibility::Specified] {
        assert_eq!(Visibility::from_name(&v.name()), v);
    }
    assert_eq!(Visibility::from_name("anything"), Visibility::Specified);
}

#[test]
fn user_profile_load_builds_without_caching() {
    let mut c = cache();
    let mut u = user("u5");
    u.avatar_url = None;
    let p = yojo_art::model::UserProfile::load(&u, &mut c);
    assert_eq!(p.icon, "https://local.example/avatar/@u5");
    assert_eq!(p.display_name.raw, "name u5");
    assert!(p.instance.is_none());
}

#[test]
fn theme_colours_parse_or_fall_back() {
    let mut c = cache();
    let colour = |c: &mut EntityCache, t: Option<&str>, host: &str| {
        let mut u = user(host);
        u.host = Some(host.to_owned());
        u.instance = Some(RawInstance {
            favicon_url: Some("https://i.example/f.ico".to_owned()),
            icon_url: None,
            name: None,
            software_name: None,
            software_version: None,
            theme_color: t.map(|s| s.to_owned()),
        });
        let p = c.resolve_user(&u);
        let inst = p.instance.as_ref().unwrap();
        (inst.theme_color(), inst.icon.clone(), inst.display_name().to_owned())
    };
    let (col, icon, name) = colour(&mut c, None, "a.example");
    assert_eq!(col, (0, 0, 0, 255));
    assert_eq!(icon, "https://proxy.example/emoji.webp?url=https%3A%2F%2Fi.example%2Ff.ico&emoji=1");
    assert_eq!(name, "");
    assert_eq!(colour(&mut c, Some("#fff"), "b.example").0, (0, 0, 0, 0));
    assert_eq!(colour(&mut c, Some("#0A0b0C"), "c.example").0, (10, 11, 12, 255));
    assert_eq!(colour(&mut c, Some("#zz0000"), "d.example").0, (0, 0, 0, 0));
}

#[test]
fn configuration_messages() {
    use_config_messages();
}

fn use_config_messages() {
    assert_eq!(config_message(ConfigCheck::MissingToken), "token が指定されていません");
    assert_eq!(config_message(ConfigCheck::MissingInstance), "instance が指定されていません");
    assert_eq!(config_message(ConfigCheck::Ready), "");
}

#[test]
fn sweep_drops_unused_loaded_images_only() {
    let mut c = cache();
    c.resolve_note(&raw("A", Some("a"), vec![])).unwrap();
    let avatar = "https://cdn.example/u1.png";
    c.images_mut().request(avatar);
    c.images_mut().finish(avatar, None);
    c.images_mut().request("https://stale.example/x.png");
    c.images_mut().finish("https://stale.example/x.png", None);
    c.images_mut().request("https://busy.example/y.png");
    c.images_mut().request("https://preview.example/z.png");
    c.images_mut().finish("https://preview.example/z.png", None);
    c.sweep(&vec!["A".to_owned()], &vec!["https://preview.example/z.png".to_owned()]);
    assert!(c.images().is_loaded(avatar));
    assert!(!c.images().is_loaded("https://stale.example/x.png"));
    assert_eq!(c.images_mut().request("https://busy.example/y.png"), yojo_art::image::LoadStep::Skip);
    assert!(c.images().is_loaded("https://preview.example/z.png"));
}

#[test]
fn fingerprint_ignores_reaction_order() {
    let a = raw("A", Some("a"), vec![("❤", 3), (":blob@.:", 2)]);
    let b = raw("A", Some("a"), vec![(":blob@.:", 2), ("❤", 3)]);
    assert_eq!(reactions_hash(&a), reactions_hash(&b));
}

#[test]
fn files_start_hidden_and_can_be_shown() {
    let mut c = cache();
    let mut r = raw("S", Some("s"), vec![]);
    r.files = vec![RawFile {
        id: "f9".to_owned(),
        blurhash: None,
        comment: None,
        created_at: String::new(),
        folder_id: None,
        is_sensitive: true,
        md5: None,
        name: None,
        properties: None,
        size: 1,
        thumbnail_url: Some("https://t.example/9.webp".to_owned()),
        url: None,
        mime_type: Some("image/png".to_owned()),
        user_id: None,
    }];
    let (n, _) = c.resolve_note(&r).unwrap();
    let mut f = n.files[0].clone();
    assert!(!f.show_sensitive);
    assert!(!f.shown(false));
    assert!(f.shown(true));
    f.mark_shown();
    assert!(f.shown(false));
}

#[test]
fn sweep_report_counts_what_went() {
    let mut c = cache();
    c.resolve_note(&raw("A", Some("a"), vec![("❤", 1)])).unwrap();
    c.resolve_note(&raw("B", Some("b"), vec![])).unwrap();
    let report = c.sweep(&vec![], &vec![]);
    assert_eq!(report.notes, 2);
    assert_eq!(report.users, 1);
    assert!(c.get_note("A").is_none() && c.get_note("B").is_none());
}
