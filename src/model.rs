//! The raw payloads of the server API and the domain objects built from them.
use vstd::prelude::*;

use std::sync::Arc;

use crate::emoji::Emoji;
use crate::text::str_eq;

verus! {

/// Who may see a note.
#[derive(Clone, Copy, Debug, PartialEq, Eq, Default)]
pub enum Visibility {
    #[default]
    Public,
    Home,
    Followers,
    Specified,
}

/// Which attachment image a note shows: the thumbnail, none, or the original.
#[derive(Clone, Copy, Debug, PartialEq, Eq, Default)]
pub enum FileThumbnailMode {
    #[default]
    Thumbnail,
    NoImage,
    Original,
}

/// A timeline of the server.
#[derive(Clone, Copy, Debug, PartialEq, Eq, Default)]
pub enum TimeLine {
    Global,
    #[default]
    Home,
}

/// A streaming channel kind.
#[derive(Clone, Copy, Debug, PartialEq, Eq)]
pub enum MisskeyChannel {
    GlobalTimeline,
    HomeTimeline,
}

/// The settings that persist between sessions.
#[derive(Clone, Debug, Default)]
pub struct StateFile {
    pub timeline: TimeLine,
    pub until_id: Option<String>,
    pub nsfw_always_show: bool,
    pub auto_old_timeline: bool,
    pub file_thumbnail_mode: FileThumbnailMode,
    pub default_renote_visibility: Visibility,
}

/// The configuration: access token, instance URL, animation switch, top margin.
#[derive(Clone, Debug, Default)]
pub struct ConfigFile {
    pub token: Option<String>,
    pub instance: Option<String>,
    pub is_animation: Option<bool>,
    pub top: Option<u32>,
}

/// Whether animated images play where the configuration does not say.
pub const DEFAULT_ANIMATION: bool = true;

/// The user-facing strings of the interface.
#[derive(Clone, Debug, Default)]
pub struct LocaleFile {
    pub show_nsfw: String,
    pub show_cw: String,
    pub renote: String,
    pub appname: String,
    pub close_license: String,
    pub show_license: String,
    pub websocket: String,
    pub nsfw_always_show: String,
    pub open_settings: String,
    pub close_settings: String,
    pub load_old_timeline: String,
    pub auto_old_timeline: String,
    pub add_reaction: String,
    pub reload: String,
    pub open_in_browser: String,
    pub summaly_default_title: String,
    pub summaly_default_description: String,
    pub summaly_default_sitename: String,
    pub thumbnail_mode: String,
    pub default_thumbnail_img: String,
    pub always_original_img: String,
    pub no_thumbnail_img: String,
    pub visibility_public: String,
    pub visibility_home: String,
    pub visibility_followers: String,
    pub visibility_specified: String,
    pub send_renote: String,
    pub default_renote_visibility: String,
}

/// A request to the synchronizer: a timeline fetch, or the refresh of one note.
pub enum LoadSrc {
    TimeLine(TLOption),
    Note(String),
}

/// A timeline fetch: how many notes, which timeline, the notes the caller
/// shows already, and whether to stream.
pub struct TLOption {
    pub limit: u8,
    pub tl: TimeLine,
    pub known_notes: Vec<Arc<Note>>,
    pub websocket: bool,
}

/// Size properties of a raw file.
#[derive(Clone, Debug, Default)]
pub struct RawFileProperties {
    pub width: Option<u32>,
    pub height: Option<u32>,
}

/// Instance metadata of a remote user.
#[derive(Clone, Debug, Default)]
pub struct RawInstance {
    pub favicon_url: Option<String>,
    pub icon_url: Option<String>,
    pub name: Option<String>,
    pub software_name: Option<String>,
    pub software_version: Option<String>,
    pub theme_color: Option<String>,
}

/// A user as the server sends it.
#[derive(Clone, Debug, Default)]
pub struct RawUser {
    pub avatar_blurhash: Option<String>,
    pub avatar_url: Option<String>,
    pub emojis: Option<Vec<(String, String)>>,
    pub host: Option<String>,
    pub id: String,
    pub name: Option<String>,
    pub username: String,
    pub online_status: Option<String>,
    pub instance: Option<RawInstance>,
    pub is_bot: Option<bool>,
    pub is_cat: Option<bool>,
    pub is_fox: Option<bool>,
}

/// An attached file as the server sends it.
#[derive(Clone, Debug, Default)]
pub struct RawFile {
    pub id: String,
    pub blurhash: Option<String>,
    pub comment: Option<String>,
    pub created_at: String,
    pub folder_id: Option<String>,
    pub is_sensitive: bool,
    pub md5: Option<String>,
    pub name: Option<String>,
    pub properties: Option<RawFileProperties>,
    pub size: u64,
    pub thumbnail_url: Option<String>,
    pub url: Option<String>,
    pub mime_type: Option<String>,
    pub user_id: Option<String>,
}

/// A note as the server sends it. Reactions are (reaction, count) pairs
/// with distinct reactions; the emoji tables are (name, URL) pairs.
#[derive(Debug)]
pub struct RawNote {
    pub id: String,
    pub text: Option<String>,
    pub created_at: String,
    pub cw: Option<String>,
    pub emojis: Option<Vec<(String, String)>>,
    pub file_ids: Vec<String>,
    pub files: Vec<RawFile>,
    pub local_only: Option<bool>,
    pub reaction_emojis: Vec<(String, String)>,
    pub reactions: Vec<(String, u64)>,
    pub renote_count: u64,
    pub renote: Option<Box<RawNote>>,
    pub replies_count: u64,
    pub remote_uri: Option<String>,
    pub user: RawUser,
    pub visibility: String,
    pub user_id: Option<String>,
}

/// A piece of rich text: plain text, an emoji, or a link.
#[derive(Debug)]
pub enum MFMElement {
    Text(String),
    /// An emoji, with the text it stands for.
    Emoji(Emoji, String),
    Url(String),
}

/// Rich text: the raw text and the pieces it renders as.
#[derive(Debug)]
pub struct MFMString {
    pub raw: String,
    pub render: Vec<MFMElement>,
}

/// Link-preview metadata of a URL: the canonical URL, title, site name,
/// description, and the URLs of the site icon and the thumbnail.
#[derive(Clone, Debug, Default)]
pub struct Summaly {
    pub url: String,
    pub title: Option<String>,
    pub sitename: Option<String>,
    pub description: Option<String>,
    pub icon: Option<String>,
    pub thumbnail: Option<String>,
}

/// The images a link preview shows: its thumbnail, then its icon.
pub open spec fn summaly_images(s: Summaly) -> Seq<Seq<char>> {
    (match s.thumbnail {
        Some(t) => seq![t@],
        None => Seq::empty(),
    }) + match s.icon {
        Some(i) => seq![i@],
        None => Seq::empty(),
    }
}

impl Summaly {
    /// The images to load once the metadata has arrived.
    pub fn images(&self) -> (r: Vec<String>)
        ensures
            r@.map_values(|s: String| s@) == summaly_images(*self),
    {
        let mut r: Vec<String> = Vec::new();
        match &self.thumbnail {
            Some(t) => r.push(t.clone()),
            None => {},
        }
        let ghost mid = r@;
        match &self.icon {
            Some(i) => r.push(i.clone()),
            None => {},
        }
        assert(r@.map_values(|s: String| s@) =~= summaly_images(*self));
        r
    }
}

/// A remote instance: host, name, theme colour (red, green, blue, alpha)
/// and the URL of its icon.
#[derive(Debug)]
pub struct FediverseInstance {
    pub host: String,
    pub display_name: String,
    pub theme_color: (u8, u8, u8, u8),
    pub icon: String,
}

/// A user: identifier, user name, display name, home instance, avatar URL.
#[derive(Debug)]
pub struct UserProfile {
    pub id: String,
    pub username: String,
    pub display_name: MFMString,
    pub instance: Option<Arc<FediverseInstance>>,
    pub icon: String,
}

/// An attached file: the image URLs to show (thumbnail and original, for
/// images only), the original URL, the key of a placeholder decoded from
/// its blurhash, whether it is marked sensitive, and whether the viewer
/// revealed it in this session.
#[derive(Clone, Debug)]
pub struct NoteFile {
    pub img: Option<String>,
    pub original_img: Option<String>,
    pub original_url: Option<String>,
    pub blurhash: Option<String>,
    pub is_sensitive: bool,
    pub show_sensitive: bool,
}

/// The reactions of a note, by count, highest first, and the fingerprint of
/// its reactions.
#[derive(Debug)]
pub struct Reactions {
    pub emojis: Vec<(Emoji, u64)>,
    pub hash: u64,
}

/// A note: identifier, author, quoted note, text, visibility, reactions,
/// attachments, content warning and creation time (seconds since the epoch).
#[derive(Debug)]
pub struct Note {
    pub id: String,
    pub user: Arc<UserProfile>,
    pub quote: Option<Arc<Note>>,
    pub text: MFMString,
    pub visibility: Visibility,
    pub reactions: Reactions,
    pub files: Vec<NoteFile>,
    pub cw: Option<MFMString>,
    pub created_at: i64,
}

/// Two notes count as the same version when identifier, reaction
/// fingerprint, presence of a quote and creation time agree.
pub open spec fn same_version(a: Note, b: Note) -> bool {
    &&& a.id@ == b.id@
    &&& a.reactions.hash == b.reactions.hash
    &&& a.quote.is_some() == b.quote.is_some()
    &&& a.created_at == b.created_at
}

impl PartialEq for Note {
    fn eq(&self, other: &Note) -> (r: bool)
        ensures
            r == same_version(*self, *other),
    {
        self.id == other.id && self.reactions.hash == other.reactions.hash && self.quote.is_some()
            == other.quote.is_some() && self.created_at == other.created_at
    }
}

impl vstd::std_specs::cmp::PartialEqSpecImpl for Note {
    open spec fn obeys_eq_spec() -> bool {
        true
    }

    open spec fn eq_spec(&self, other: &Note) -> bool {
        same_version(*self, *other)
    }
}

/// A note that carries no text and no files of its own: a plain renote.
pub open spec fn spec_is_simple_renote(n: Note) -> bool {
    n.text.raw@.len() == 0 && n.files@.len() == 0
}

/// Whether a note can be renoted: a plain renote as its quoted note can be
/// (and not at all without one), any other note when it is public or home.
pub open spec fn spec_can_renote(n: Note) -> bool
    decreases n,
{
    if spec_is_simple_renote(n) {
        match n.quote {
            Some(q) => spec_can_renote(*q),
            None => false,
        }
    } else {
        n.visibility == Visibility::Public || n.visibility == Visibility::Home
    }
}

impl Note {
    pub fn is_simple_renote(&self) -> (r: bool)
        ensures
            r == spec_is_simple_renote(*self),
    {
        self.text.raw.as_str().is_empty() && self.files.len() == 0
    }

    pub fn can_renote(&self) -> (r: bool)
        ensures
            r == spec_can_renote(*self),
        decreases *self,
    {
        if self.is_simple_renote() {
            match &self.quote {
                Some(q) => {
                    let q: &Note = q;
                    q.can_renote()
                },
                None => false,
            }
        } else {
            match self.visibility {
                Visibility::Public | Visibility::Home => true,
                _ => false,
            }
        }
    }
}

/// The note a renote of `n` points at: the quoted note of a note without
/// text, `n` itself otherwise; a note without text and without a quote has none.
pub open spec fn spec_renote_target(n: Note) -> Option<Seq<char>> {
    if n.text.raw@.len() == 0 {
        match n.quote {
            Some(q) => Some(q.id@),
            None => None,
        }
    } else {
        Some(n.id@)
    }
}

impl Note {
    /// The identifier a renote of this note sends (see `spec_renote_target`).
    pub fn renote_target(&self) -> (r: Option<String>)
        ensures
            match r {
                Some(id) => spec_renote_target(*self) == Some(id@),
                None => spec_renote_target(*self) is None,
            },
    {
        if self.text.raw.as_str().is_empty() {
            match &self.quote {
                Some(q) => Some(q.id.clone()),
                None => None,
            }
        } else {
            Some(self.id.clone())
        }
    }
}

impl NoteFile {
    /// Marks the file revealed for the rest of the session.
    pub fn mark_shown(&mut self)
        ensures
            final(self).show_sensitive,
            final(self).img == old(self).img,
            final(self).original_img == old(self).original_img,
            final(self).original_url == old(self).original_url,
            final(self).blurhash == old(self).blurhash,
            final(self).is_sensitive == old(self).is_sensitive,
    {
        self.show_sensitive = true;
    }

    /// Whether the file is shown: not sensitive, revealed, or every
    /// sensitive file is shown by setting.
    pub fn shown(&self, always_show: bool) -> (r: bool)
        ensures
            r == (!self.is_sensitive || self.show_sensitive || always_show),
    {
        !self.is_sensitive || self.show_sensitive || always_show
    }

    pub fn is_image(&self) -> (r: bool)
        ensures
            r == self.img.is_some(),
    {
        self.img.is_some()
    }
}

impl MFMString {
    /// Whether there is nothing to show.
    pub fn is_empty(&self) -> (r: bool)
        ensures
            r == (self.raw@.len() == 0 || self.render@.len() == 0),
    {
        self.raw.as_str().is_empty() || self.render.len() == 0
    }
}

impl FediverseInstance {
    pub fn host(&self) -> (r: &str)
        ensures
            r@ == self.host@,
    {
        self.host.as_str()
    }

    pub fn display_name(&self) -> (r: &str)
        ensures
            r@ == self.display_name@,
    {
        self.display_name.as_str()
    }

    pub fn theme_color(&self) -> (r: (u8, u8, u8, u8))
        ensures
            r == self.theme_color,
    {
        self.theme_color
    }
}

/// The name of a visibility in the API.
pub open spec fn visibility_name(v: Visibility) -> Seq<char> {
    match v {
        Visibility::Public => "public"@,
        Visibility::Home => "home"@,
        Visibility::Followers => "followers"@,
        Visibility::Specified => "specified"@,
    }
}

impl Visibility {
    /// The visibility an API name stands for; an unknown name is `Specified`.
    pub fn from_name(s: &str) -> (r: Visibility)
        ensures
            s@ == "public"@ ==> r == Visibility::Public,
            s@ == "home"@ ==> r == Visibility::Home,
            s@ == "followers"@ ==> r == Visibility::Followers,
            s@ != "public"@ && s@ != "home"@ && s@ != "followers"@ ==> r == Visibility::Specified,
    {
        proof {
            reveal_strlit("public");
            reveal_strlit("home");
            reveal_strlit("followers");
            assert("public"@.len() == 6 && "home"@.len() == 4 && "followers"@.len() == 9);
        }
        if str_eq(s, "public") {
            Visibility::Public
        } else if str_eq(s, "home") {
            Visibility::Home
        } else if str_eq(s, "followers") {
            Visibility::Followers
        } else {
            Visibility::Specified
        }
    }

    /// The API name of this visibility.
    pub fn name(&self) -> (r: String)
        ensures
            r@ == visibility_name(*self),
    {
        let s = match self {
            Visibility::Public => "public",
            Visibility::Home => "home",
            Visibility::Followers => "followers",
            Visibility::Specified => "specified",
        };
        s.to_owned()
    }
}

/// The endpoint name of a timeline.
pub open spec fn timeline_endpoint(t: TimeLine) -> Seq<char> {
    match t {
        TimeLine::Global => "global-timeline"@,
        TimeLine::Home => "timeline"@,
    }
}

/// The streaming channel name of a channel kind.
pub open spec fn channel_name(c: MisskeyChannel) -> Seq<char> {
    match c {
        MisskeyChannel::GlobalTimeline => "globalTimeline"@,
        MisskeyChannel::HomeTimeline => "homeTimeline"@,
    }
}

impl TimeLine {
    /// The endpoint of this timeline under `/api/notes/`.
    pub fn endpoint(&self) -> (r: String)
        ensures
            r@ == timeline_endpoint(*self),
    {
        let s = match self {
            TimeLine::Global => "global-timeline",
            TimeLine::Home => "timeline",
        };
        s.to_owned()
    }
}

impl MisskeyChannel {
    pub fn id(&self) -> (r: &'static str)
        ensures
            r@ == channel_name(*self),
    {
        match self {
            MisskeyChannel::GlobalTimeline => "globalTimeline",
            MisskeyChannel::HomeTimeline => "homeTimeline",
        }
    }

    /// The channel that streams a timeline.
    pub fn from_timeline(t: TimeLine) -> (r: MisskeyChannel)
        ensures
            t == TimeLine::Global ==> r == MisskeyChannel::GlobalTimeline,
            t == TimeLine::Home ==> r == MisskeyChannel::HomeTimeline,
    {
        match t {
            TimeLine::Global => MisskeyChannel::GlobalTimeline,
            TimeLine::Home => MisskeyChannel::HomeTimeline,
        }
    }
}

} // verus!
