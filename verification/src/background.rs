//! The launcher background: which pictures the launcher API offers for the
//! game, and which of the stored pictures are out of date.
use vstd::prelude::*;

use crate::json::{
    field, json_field, json_list, json_of_bytes, json_text, list_of, parse_json, text_of, Json,
};
use crate::wine_overrides::str_eq_ignore_ascii_case;
use crate::text::{
    after_last, before_first, chars_of, eq_ignore_ascii_case, find_char, find_last_char_end,
    range_eq_ignore_ascii_case, starts_with, str_eq, str_starts_with,
};

verus! {

/// One picture of the background: where to download it and the MD5 hash that
/// its name carries.
#[derive(Debug, Clone)]
pub struct Background {
    pub uri: String,
    pub hash: String,
}

/// The pictures that make up the launcher background.
#[derive(Debug, Clone)]
pub enum BackgroundSpec {
    Normal { background: Background },
    Video { background: Background, video: Background, overlay: Background },
}

/// Why no background could be chosen from the launcher API's answer.
#[derive(Debug, Clone, PartialEq, Eq)]
pub enum BackgroundError {
    /// The answer holds no list of games.
    GamesNotListed,
    /// No game of the list is this launcher's game.
    GameNotFound,
    /// The chosen background lacks the URL of one of its pictures.
    MissingPictureUrl,
    /// The launcher API's answer is not JSON; the message of the JSON error.
    InvalidJson(String),
}

/// The pictures of an API background entry.
#[derive(Debug, Clone, Copy, PartialEq, Eq, Structural)]
pub enum PictureKey {
    Background,
    Video,
    Theme,
}

/// The files in which the launcher stores the pictures of the background.
#[derive(Debug, Clone, Copy, PartialEq, Eq, Structural)]
pub enum BackgroundFile {
    Background,
    Overlay,
    Video,
}

/// The contents of the stored picture files, where they exist.
#[derive(Debug, Clone)]
pub struct StoredPictures {
    pub background: Option<Vec<u8>>,
    pub overlay: Option<Vec<u8>>,
    pub video: Option<Vec<u8>>,
}

/// The URI of a background's main picture, and for an animated background
/// those of its video and of its overlay.
pub type PictureUris = (Seq<char>, Option<(Seq<char>, Seq<char>)>);

/// The hash in a picture URI: the file name (after the last `/`) up to its
/// first `_`.
pub open spec fn img_hash(uri: Seq<char>) -> Seq<char> {
    before_first(after_last(uri, '/'), '_')
}

impl Background {
    /// The hash is the one that the URI carries.
    pub open spec fn wf(self) -> bool {
        self.hash@ == img_hash(self.uri@)
    }
}

impl BackgroundSpec {
    /// The main background picture.
    pub open spec fn main_picture(self) -> Background {
        match self {
            BackgroundSpec::Normal { background } => background,
            BackgroundSpec::Video { background, .. } => background,
        }
    }

    /// The URI of the main picture, and for an animated background those of
    /// its video and of its overlay.
    pub open spec fn uris(self) -> PictureUris {
        match self {
            BackgroundSpec::Normal { background } => (background.uri@, None),
            BackgroundSpec::Video { background, video, overlay } => (
                background.uri@,
                Some((video.uri@, overlay.uri@)),
            ),
        }
    }

    /// Every picture carries the hash of its URI.
    pub open spec fn wf(self) -> bool {
        match self {
            BackgroundSpec::Normal { background } => background.wf(),
            BackgroundSpec::Video { background, video, overlay } => background.wf() && video.wf()
                && overlay.wf(),
        }
    }
}

/// The game is this launcher's: its `game.biz` name begins with `nap_`.
pub open spec fn is_launcher_game(game: Json) -> bool {
    match json_text(json_field(json_field(game, "game"@), "biz"@)) {
        Some(biz) => starts_with(biz, "nap_"@),
        None => false,
    }
}

/// The position of the first game that is this launcher's, if any.
pub open spec fn first_launcher_game(games: Seq<Json>) -> Option<int>
    decreases games.len(),
{
    if games.len() == 0 {
        None
    } else {
        match first_launcher_game(games.drop_last()) {
            Some(i) => Some(i),
            None => if is_launcher_game(games.last()) {
                Some(games.len() - 1)
            } else {
                None
            },
        }
    }
}

/// The game's newest background entry: the last of its `backgrounds` list.
pub open spec fn latest_background(game: Json) -> Option<Json> {
    match json_list(json_field(game, "backgrounds"@)) {
        Some(list) => if list.len() > 0 {
            Some(list.last())
        } else {
            None
        },
        None => None,
    }
}

/// The key of a picture in a background entry.
pub open spec fn picture_key(key: PictureKey) -> Seq<char> {
    match key {
        PictureKey::Background => "background"@,
        PictureKey::Video => "video"@,
        PictureKey::Theme => "theme"@,
    }
}

/// The URL of a picture of a background entry: `entry[key]["url"]`.
pub open spec fn picture_url(info: Option<Json>, key: PictureKey) -> Option<Seq<char>> {
    match info {
        Some(b) => json_text(json_field(json_field(b, picture_key(key)), "url"@)),
        None => None,
    }
}

/// The background entry is animated: its `type` is `BACKGROUND_TYPE_VIDEO`.
pub open spec fn is_video(info: Option<Json>) -> bool {
    match info {
        Some(b) => json_text(json_field(b, "type"@)) == Some("BACKGROUND_TYPE_VIDEO"@),
        None => false,
    }
}

/// The background that the launcher API's answer offers, by the URIs of its
/// pictures (see `BackgroundSpec::uris`), or why there is none: among the
/// games of `data.game_info_list`, the first whose `game.biz` begins with
/// `nap_`; its newest background entry; an animated one also has a video and
/// an overlay (its `theme`).
pub open spec fn offered_background(api: Json) -> Result<PictureUris, BackgroundError> {
    match json_list(json_field(json_field(api, "data"@), "game_info_list"@)) {
        None => Err(BackgroundError::GamesNotListed),
        Some(games) => match first_launcher_game(games) {
            None => Err(BackgroundError::GameNotFound),
            Some(i) => {
                let info = latest_background(games[i]);
                match picture_url(info, PictureKey::Background) {
                    None => Err(BackgroundError::MissingPictureUrl),
                    Some(bg) => if is_video(info) {
                        match (
                            picture_url(info, PictureKey::Video),
                            picture_url(info, PictureKey::Theme),
                        ) {
                            (Some(video), Some(theme)) => Ok((bg, Some((video, theme)))),
                            _ => Err(BackgroundError::MissingPictureUrl),
                        }
                    } else {
                        Ok((bg, None))
                    },
                }
            },
        },
    }
}

/// `first_launcher_game` is the first position of a game of this launcher,
/// and `None` exactly where there is none.
pub proof fn lemma_first_launcher_game(games: Seq<Json>)
    ensures
        match first_launcher_game(games) {
            Some(i) => 0 <= i < games.len() && is_launcher_game(games[i]) && forall|j: int|
                0 <= j < i ==> !is_launcher_game(#[trigger] games[j]),
            None => forall|j: int| 0 <= j < games.len() ==> !is_launcher_game(#[trigger] games[j]),
        },
    decreases games.len(),
{
    if games.len() > 0 {
        lemma_first_launcher_game(games.drop_last());
        assert forall|j: int| 0 <= j < games.len() - 1 implies #[trigger] games[j]
            == games.drop_last()[j] by {}
    }
}

/// The launcher API address for the launcher's language: the Chinese API for
/// the language `zh`, else the global API with the language `formatted_lang`.
pub open spec fn api_uri(language: Seq<char>, formatted_lang: Seq<char>) -> Seq<char> {
    if language == "zh"@ {
        "https://hyp-api.mihoyo.com/hyp/hyp-connect/api/getAllGameBasicInfo?launcher_id=jGHBHlcOq1"@
    } else {
        "https://sg-hyp-api.hoyoverse.com/hyp/hyp-connect/api/getAllGameBasicInfo?launcher_id=VYTpXlbWo8&language="@
            + formatted_lang
    }
}

/// The launcher API address, as `api_uri` states, for the language subtag
/// `language` of the launcher's language and its formatted tag `formatted_lang`.
pub fn get_uri(language: &str, formatted_lang: &str) -> (r: String)
    ensures
        r@ == api_uri(language@, formatted_lang@),
{
    if str_eq(language, "zh") {
        "https://hyp-api.mihoyo.com/hyp/hyp-connect/api/getAllGameBasicInfo?launcher_id=jGHBHlcOq1".to_owned()
    } else {
        let mut uri = "https://sg-hyp-api.hoyoverse.com/hyp/hyp-connect/api/getAllGameBasicInfo?launcher_id=VYTpXlbWo8&language=".to_owned();
        uri.append(formatted_lang);
        uri
    }
}

/// The hash that the picture URI `uri` carries, as `img_hash` states.
pub fn get_img_hash_from_uri(uri: &str) -> (r: String)
    ensures
        r@ == img_hash(uri@),
{
    let v = chars_of(uri);
    let n = v.len();
    let start = find_last_char_end(&v, 0, n, '/');
    let end = find_char(&v, start, n, '_');
    assert(v@.subrange(0, n as int) =~= v@);
    uri.substring_char(start, end).to_owned()
}

impl Background {
    /// The picture at `uri`, with the hash that the URI carries.
    pub fn from_uri(uri: String) -> (r: Self)
        ensures
            r.uri@ == uri@,
            r.wf(),
    {
        let hash = get_img_hash_from_uri(uri.as_str());
        Background { uri, hash }
    }
}

/// The URL of a picture of a background entry, as `picture_url` states.
fn picture_url_of(info: Option<&Json>, key: PictureKey) -> (r: Result<String, BackgroundError>)
    ensures
        match r {
            Ok(u) => picture_url(
                match info {
                    Some(b) => Some(*b),
                    None => None,
                },
                key,
            ) == Some(u@),
            Err(e) => e == BackgroundError::MissingPictureUrl && picture_url(
                match info {
                    Some(b) => Some(*b),
                    None => None,
                },
                key,
            ) is None,
        },
{
    if info.is_none() {
        return Err(BackgroundError::MissingPictureUrl);
    }
    let name = match key {
        PictureKey::Background => "background",
        PictureKey::Video => "video",
        PictureKey::Theme => "theme",
    };
    match text_of(field(field(info, name), "url")) {
        Some(u) => Ok(u.to_owned()),
        None => Err(BackgroundError::MissingPictureUrl),
    }
}

impl BackgroundError {
    /// The message that describes the error.
    pub fn message(&self) -> (r: &str)
        ensures
            r@ == match self {
                BackgroundError::GamesNotListed => "Failed to list games in the backgrounds API"@,
                BackgroundError::GameNotFound => "Failed to find the game in the backgrounds API"@,
                BackgroundError::MissingPictureUrl => "Failed to get background picture url"@,
                BackgroundError::InvalidJson(m) => m@,
            },
    {
        match self {
            BackgroundError::GamesNotListed => "Failed to list games in the backgrounds API",
            BackgroundError::GameNotFound => "Failed to find the game in the backgrounds API",
            BackgroundError::MissingPictureUrl => "Failed to get background picture url",
            BackgroundError::InvalidJson(m) => m.as_str(),
        }
    }
}

impl BackgroundSpec {
    /// The background that the launcher API's answer `api` offers, as
    /// `offered_background` states, each picture with the hash of its URI.
    pub fn from_json(api: &Json) -> (r: Result<Self, BackgroundError>)
        ensures
            match r {
                Ok(spec) => offered_background(*api) == Ok::<PictureUris, BackgroundError>(
                    spec.uris(),
                ) && spec.wf(),
                Err(e) => offered_background(*api) == Err::<PictureUris, BackgroundError>(e),
            },
    {
        let games = match list_of(field(field(Some(api), "data"), "game_info_list")) {
            Some(games) => games,
            None => return Err(BackgroundError::GamesNotListed),
        };
        let mut i: usize = 0;
        while i < games.len()
            invariant
                i <= games@.len(),
                forall|j: int| 0 <= j < i ==> !is_launcher_game(#[trigger] games@[j]),
            ensures
                i <= games@.len(),
                forall|j: int| 0 <= j < i ==> !is_launcher_game(#[trigger] games@[j]),
                i < games@.len() ==> is_launcher_game(games@[i as int]),
            decreases games@.len() - i,
        {
            let is_game = match text_of(field(field(Some(&games[i]), "game"), "biz")) {
                Some(biz) => str_starts_with(biz, "nap_"),
                None => false,
            };
            if is_game {
                break;
            }
            i = i + 1;
        }
        proof {
            lemma_first_launcher_game(games@);
        }
        if i == games.len() {
            return Err(BackgroundError::GameNotFound);
        }
        assert(first_launcher_game(games@) == Some(i as int));
        let info: Option<&Json> = match list_of(field(Some(&games[i]), "backgrounds")) {
            Some(list) => if list.len() > 0 {
                Some(&list[list.len() - 1])
            } else {
                None
            },
            None => None,
        };
        assert(latest_background(games@[i as int]) == match info {
            Some(b) => Some(*b),
            None => None::<Json>,
        });
        let background_uri = picture_url_of(info, PictureKey::Background)?;
        let background = Background::from_uri(background_uri);
        let video_kind = match text_of(field(info, "type")) {
            Some(k) => str_eq(k, "BACKGROUND_TYPE_VIDEO"),
            None => false,
        };
        if video_kind {
            let video_uri = picture_url_of(info, PictureKey::Video)?;
            let video = Background::from_uri(video_uri);
            let overlay_uri = picture_url_of(info, PictureKey::Theme)?;
            let overlay = Background::from_uri(overlay_uri);
            Ok(BackgroundSpec::Video { background, video, overlay })
        } else {
            Ok(BackgroundSpec::Normal { background })
        }
    }

    /// The background that the launcher API's answer `body` offers: as
    /// `from_json` states for the JSON document it holds, and `InvalidJson`
    /// with the JSON error's message where it holds none.
    pub fn background_info_from_body(body: &[u8]) -> (r: Result<Self, BackgroundError>)
        ensures
            match json_of_bytes(body@) {
                Ok(api) => match r {
                    Ok(spec) => offered_background(api) == Ok::<PictureUris, BackgroundError>(
                        spec.uris(),
                    ) && spec.wf(),
                    Err(e) => offered_background(api) == Err::<PictureUris, BackgroundError>(e),
                },
                Err(m) => r matches Err(BackgroundError::InvalidJson(s)) && s@ == m,
            },
    {
        match parse_json(body) {
            Ok(api) => BackgroundSpec::from_json(&api),
            Err(m) => Err(BackgroundError::InvalidJson(m)),
        }
    }

    /// The main background picture.
    pub fn background(&self) -> (r: &Background)
        ensures
            *r == self.main_picture(),
    {
        match self {
            BackgroundSpec::Normal { background } => background,
            BackgroundSpec::Video { background, .. } => background,
        }
    }
}

/// The MD5 digest of `data`.
pub uninterp spec fn md5_digest(data: Seq<u8>) -> Seq<u8>;

/// `md5::Md5::digest` (through `md5::Digest`): the MD5 digest of `data`,
/// which is 16 bytes long. What the digest is, is left to the name
/// `md5_digest`.
#[verifier::external_body]
fn md5(data: &[u8]) -> (r: Vec<u8>)
    ensures
        r@ == md5_digest(data@),
        r@.len() == 16,
{
    <md5::Md5 as md5::Digest>::digest(data).to_vec()
}

/// The lower-case hexadecimal digits.
pub open spec fn hex_digits() -> Seq<char> {
    seq!['0', '1', '2', '3', '4', '5', '6', '7', '8', '9', 'a', 'b', 'c', 'd', 'e', 'f']
}

/// `bytes` written in lower-case hexadecimal, two digits per byte, as the
/// `{:x}` format writes a digest.
pub open spec fn hex_lower(bytes: Seq<u8>) -> Seq<char>
    decreases bytes.len(),
{
    if bytes.len() == 0 {
        Seq::empty()
    } else {
        hex_lower(bytes.drop_last()) + seq![
            hex_digits()[(bytes.last() / 16) as int],
            hex_digits()[(bytes.last() % 16) as int],
        ]
    }
}

/// `bytes` in lower-case hexadecimal, as `hex_lower` states.
fn hex_lower_chars(bytes: &[u8]) -> (r: Vec<char>)
    ensures
        r@ == hex_lower(bytes@),
{
    let digits: [char; 16] = [
        '0', '1', '2', '3', '4', '5', '6', '7', '8', '9', 'a', 'b', 'c', 'd', 'e', 'f',
    ];
    assert(digits@ =~= hex_digits());
    let mut r: Vec<char> = Vec::new();
    let mut i: usize = 0;
    assert(bytes@.take(0) =~= Seq::<u8>::empty());
    while i < bytes.len()
        invariant
            i <= bytes@.len(),
            digits@ == hex_digits(),
            r@ == hex_lower(bytes@.take(i as int)),
        decreases bytes@.len() - i,
    {
        let b = bytes[i];
        r.push(digits[(b / 16) as usize]);
        r.push(digits[(b % 16) as usize]);
        assert(bytes@.take(i + 1).drop_last() =~= bytes@.take(i as int));
        assert(r@ =~= hex_lower(bytes@.take(i + 1)));
        i = i + 1;
    }
    assert(bytes@.take(bytes@.len() as int) =~= bytes@);
    r
}

/// The stored picture is the one with hash `expected_hash`: the file exists
/// and the hexadecimal form of its MD5 digest equals the hash up to ASCII case.
pub open spec fn is_current(stored: Option<Seq<u8>>, expected_hash: Seq<char>) -> bool {
    match stored {
        Some(contents) => eq_ignore_ascii_case(hex_lower(md5_digest(contents)), expected_hash),
        None => false,
    }
}

/// Whether the stored picture file, with the contents `stored` where it
/// exists, is the picture with hash `expected_hash`, as `is_current` states.
pub fn check_img_file(stored: Option<&[u8]>, expected_hash: &str) -> (r: bool)
    ensures
        r == is_current(
            match stored {
                Some(c) => Some(c@),
                None => None,
            },
            expected_hash@,
        ),
{
    let contents = match stored {
        Some(c) => c,
        None => return false,
    };
    let digest = md5(contents);
    digest_matches(digest.as_slice(), expected_hash)
}

/// Whether the digest, written in hexadecimal, is `expected_hash` up to
/// ASCII case.
pub fn digest_matches(digest: &[u8], expected_hash: &str) -> (r: bool)
    ensures
        r == eq_ignore_ascii_case(hex_lower(digest@), expected_hash@),
{
    let hex = hex_lower_chars(digest);
    let expected = chars_of(expected_hash);
    assert(hex@.subrange(0, hex@.len() as int) =~= hex@);
    assert(expected@.subrange(0, expected@.len() as int) =~= expected@);
    range_eq_ignore_ascii_case(&hex, 0, hex.len(), &expected, 0, expected.len())
}

/// The contents of a stored file, where it exists.
pub open spec fn stored_contents(file: Option<Vec<u8>>) -> Option<Seq<u8>> {
    match file {
        Some(c) => Some(c@),
        None => None,
    }
}

/// The files to download, in order, so that the stored pictures match the
/// background: each file whose stored picture is not current; the main
/// picture first, then for an animated background the overlay and the video.
pub open spec fn download_plan(spec: BackgroundSpec, stored: StoredPictures) -> Seq<BackgroundFile> {
    let main = if is_current(stored_contents(stored.background), spec.main_picture().hash@) {
        Seq::empty()
    } else {
        seq![BackgroundFile::Background]
    };
    match spec {
        BackgroundSpec::Normal { .. } => main,
        BackgroundSpec::Video { video, overlay, .. } => main + (if is_current(
            stored_contents(stored.overlay),
            overlay.hash@,
        ) {
            Seq::empty()
        } else {
            seq![BackgroundFile::Overlay]
        }) + (if is_current(stored_contents(stored.video), video.hash@) {
            Seq::empty()
        } else {
            seq![BackgroundFile::Video]
        }),
    }
}

/// The contents of a stored file as a slice, where it exists.
fn stored_slice(file: &Option<Vec<u8>>) -> (r: Option<&[u8]>)
    ensures
        match r {
            Some(c) => stored_contents(*file) == Some(c@),
            None => stored_contents(*file) is None,
        },
{
    match file {
        Some(c) => Some(c.as_slice()),
        None => None,
    }
}

impl Background {
    /// Whether this picture has to be downloaded (and the background made
    /// anew), given the contents of the file it is stored in where that
    /// exists: it has to where the stored picture is not current.
    pub fn download(&self, stored: Option<&[u8]>) -> (r: bool)
        ensures
            r == !is_current(
                match stored {
                    Some(c) => Some(c@),
                    None => None,
                },
                self.hash@,
            ),
    {
        !check_img_file(stored, self.hash.as_str())
    }
}

impl BackgroundSpec {
    /// The files to download so that the stored pictures match this
    /// background, as `download_plan` states; the background has to be made
    /// anew exactly where the list is not empty.
    pub fn download(&self, stored: &StoredPictures) -> (r: Vec<BackgroundFile>)
        ensures
            r@ == download_plan(*self, *stored),
    {
        let mut plan: Vec<BackgroundFile> = Vec::new();
        if self.background().download(stored_slice(&stored.background)) {
            plan.push(BackgroundFile::Background);
        }
        match self {
            BackgroundSpec::Normal { .. } => {},
            BackgroundSpec::Video { video, overlay, .. } => {
                if overlay.download(stored_slice(&stored.overlay)) {
                    plan.push(BackgroundFile::Overlay);
                }
                if video.download(stored_slice(&stored.video)) {
                    plan.push(BackgroundFile::Video);
                }
                assert(plan@ =~= download_plan(*self, *stored));
            },
        }
        plan
    }
}

/// An image format that GdkPixbuf can load: its name, if it has one, and its
/// file name extensions.
#[derive(Debug, Clone)]
pub struct PixbufFormatInfo {
    pub name: Option<String>,
    pub extensions: Vec<String>,
}

/// The format is WebP: its name or one of its extensions is `webp`, in any
/// ASCII case.
pub open spec fn is_webp_format(format: PixbufFormatInfo) -> bool {
    ||| (match format.name {
        Some(n) => eq_ignore_ascii_case(n@, "webp"@),
        None => false,
    })
    ||| exists|j: int|
        0 <= j < format.extensions@.len() && eq_ignore_ascii_case(
            #[trigger] format.extensions@[j]@,
            "webp"@,
        )
}

/// Whether one of the formats that GdkPixbuf can load is WebP, as
/// `is_webp_format` states.
pub fn gtk_webp_image_supported(formats: &[PixbufFormatInfo]) -> (r: bool)
    ensures
        r == exists|i: int| 0 <= i < formats@.len() && is_webp_format(#[trigger] formats@[i]),
{
    let mut i: usize = 0;
    while i < formats.len()
        invariant
            i <= formats@.len(),
            forall|k: int| 0 <= k < i ==> !is_webp_format(#[trigger] formats@[k]),
        decreases formats@.len() - i,
    {
        let format = &formats[i];
        let named = match &format.name {
            Some(n) => str_eq_ignore_ascii_case(n.as_str(), "webp"),
            None => false,
        };
        if named {
            assert(is_webp_format(formats@[i as int]));
            return true;
        }
        let mut j: usize = 0;
        while j < format.extensions.len()
            invariant
                i < formats@.len(),
                *format == formats@[i as int],
                j <= format.extensions@.len(),
                forall|k: int|
                    0 <= k < j ==> !eq_ignore_ascii_case(
                        #[trigger] format.extensions@[k]@,
                        "webp"@,
                    ),
            decreases format.extensions@.len() - j,
        {
            if str_eq_ignore_ascii_case(format.extensions[j].as_str(), "webp") {
                assert(is_webp_format(formats@[i as int]));
                return true;
            }
            j = j + 1;
        }
        assert(!is_webp_format(formats@[i as int]));
        i = i + 1;
    }
    false
}

/// The lower-case hexadecimal digits are the ASCII digits `0`-`9` and the
/// letters `a`-`f`, in order of value.
proof fn lemma_hex_digits()
    ensures
        forall|d: int|
            0 <= d < 16 ==> (#[trigger] hex_digits()[d]) as u32 == if d < 10 {
                48 + d
            } else {
                87 + d
            },
{
    let h = hex_digits();
    assert(h[0] as u32 == 48);
    assert(h[1] as u32 == 49);
    assert(h[2] as u32 == 50);
    assert(h[3] as u32 == 51);
    assert(h[4] as u32 == 52);
    assert(h[5] as u32 == 53);
    assert(h[6] as u32 == 54);
    assert(h[7] as u32 == 55);
    assert(h[8] as u32 == 56);
    assert(h[9] as u32 == 57);
    assert(h[10] as u32 == 97);
    assert(h[11] as u32 == 98);
    assert(h[12] as u32 == 99);
    assert(h[13] as u32 == 100);
    assert(h[14] as u32 == 101);
    assert(h[15] as u32 == 102);
}

/// Law: the hexadecimal form of bytes is standard lower-case hexadecimal:
/// two characters per byte, the first for its high four bits and the second
/// for its low four bits, each the ASCII digit `0`-`9` or letter `a`-`f` whose
/// value it is.
pub proof fn law_hex_lower(bytes: Seq<u8>)
    ensures
        hex_lower(bytes).len() == 2 * bytes.len(),
        forall|i: int|
            0 <= i < bytes.len() ==> {
                let hi = (#[trigger] bytes[i]) / 16;
                let lo = bytes[i] % 16;
                &&& hex_lower(bytes)[2 * i] as u32 == if hi < 10 {
                    48 + hi
                } else {
                    87 + hi
                }
                &&& hex_lower(bytes)[2 * i + 1] as u32 == if lo < 10 {
                    48 + lo
                } else {
                    87 + lo
                }
            },
    decreases bytes.len(),
{
    lemma_hex_digits();
    if bytes.len() > 0 {
        let init = bytes.drop_last();
        law_hex_lower(init);
        let b = bytes.last();
        let h = hex_lower(bytes);
        let p = hex_lower(init);
        assert(h == p + seq![hex_digits()[(b / 16) as int], hex_digits()[(b % 16) as int]]);
        assert forall|i: int| 0 <= i < bytes.len() implies {
            let hi = (#[trigger] bytes[i]) / 16;
            let lo = bytes[i] % 16;
            &&& h[2 * i] as u32 == if hi < 10 {
                48 + hi
            } else {
                87 + hi
            }
            &&& h[2 * i + 1] as u32 == if lo < 10 {
                48 + lo
            } else {
                87 + lo
            }
        } by {
            if i < bytes.len() - 1 {
                assert(bytes[i] == init[i]);
                assert(h[2 * i] == p[2 * i]);
                assert(h[2 * i + 1] == p[2 * i + 1]);
            } else {
                assert(bytes[i] == b);
                assert(h[2 * i] == hex_digits()[(b / 16) as int]);
                assert(h[2 * i + 1] == hex_digits()[(b % 16) as int]);
            }
        }
    }
}

/// Law: the newest background entry of the chosen game gives an animated
/// background exactly where its `type` is the string
/// `BACKGROUND_TYPE_VIDEO`; an entry of any other type, whatever else it
/// holds, gives the plain background of its `background.url`.
pub proof fn law_video_exactly_for_video_type(api: Json)
    ensures
        ({
            let games = json_list(json_field(json_field(api, "data"@), "game_info_list"@));
            match games {
                Some(list) => match first_launcher_game(list) {
                    Some(i) => match latest_background(list[i]) {
                        Some(entry) => {
                            let video_type = json_text(json_field(entry, "type"@)) == Some(
                                "BACKGROUND_TYPE_VIDEO"@,
                            );
                            let bg = json_text(json_field(json_field(entry, "background"@), "url"@));
                            &&& (offered_background(api) matches Ok(uris) ==> (uris.1 is Some
                                <==> video_type))
                            &&& (!video_type && bg is Some ==> offered_background(api) == Ok::<
                                PictureUris,
                                BackgroundError,
                            >((bg->0, None)))
                        },
                        None => true,
                    },
                    None => true,
                },
                None => true,
            }
        }),
{
}

} // verus!
