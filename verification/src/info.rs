//! The metadata record of a container and the chain that decodes it.

use base64::engine::general_purpose::STANDARD;
use base64::Engine;
use std::string::FromUtf8Error;
use vstd::prelude::*;
use vstd::slice::{slice_subrange, slice_to_vec};
use vstd::utf8::{decode_utf8, valid_utf8};

use crate::decrypt::{decrypt, decrypted, masked, unmask, INFO_KEY};
use crate::error::Errors;
use crate::json::{
    find, items_view, json_parsed, lemma_items_view, member, members_view, parse_json, Json,
    JsonView,
};

verus! {

/// Value XOR-ed into every byte of the metadata block.
pub const INFO_MASK: u8 = 0x63;

/// Number of bytes in front of the base64 text in the unmasked metadata block.
pub const INFO_TAG: usize = 22;

/// Number of bytes in front of the JSON text in the decrypted metadata.
pub const INFO_PREFIX: usize = 6;

/// The music information.
#[derive(Clone, Debug, PartialEq, Eq)]
pub struct NcmInfo {
    /// The name of the music.
    pub name: String,
    /// The id of the music.
    pub id: u64,
    /// The album of the music, an url.
    pub album: String,
    /// The artists of the music: of each the name and then the id.
    pub artist: Vec<(String, u64)>,
    /// The bit rate of the music.
    pub bitrate: u64,
    /// The duration of the music.
    pub duration: u64,
    /// The format of the music, such as `mp3` or `flac`.
    pub format: String,
    /// The id of the music video.
    pub mv_id: Option<u64>,
    /// The aliases of the music.
    pub alias: Option<Vec<String>>,
}

/// A metadata record as a mathematical value.
pub struct NcmInfoView {
    pub name: Seq<char>,
    pub id: u64,
    pub album: Seq<char>,
    pub artist: Seq<(Seq<char>, u64)>,
    pub bitrate: u64,
    pub duration: u64,
    pub format: Seq<char>,
    pub mv_id: Option<u64>,
    pub alias: Option<Seq<Seq<char>>>,
}

/// The artists with each name as a sequence of characters.
pub open spec fn artists_view(artists: Seq<(String, u64)>) -> Seq<(Seq<char>, u64)> {
    Seq::new(artists.len(), |i: int| (artists[i].0@, artists[i].1))
}

/// The texts as sequences of characters.
pub open spec fn texts_view(texts: Seq<String>) -> Seq<Seq<char>> {
    Seq::new(texts.len(), |i: int| texts[i]@)
}

impl View for NcmInfo {
    type V = NcmInfoView;

    open spec fn view(&self) -> NcmInfoView {
        NcmInfoView {
            name: self.name@,
            id: self.id,
            album: self.album@,
            artist: artists_view(self.artist@),
            bitrate: self.bitrate,
            duration: self.duration,
            format: self.format@,
            mv_id: self.mv_id,
            alias: match self.alias {
                Some(texts) => Some(texts_view(texts@)),
                None => None,
            },
        }
    }
}

/// The text that a JSON string holds.
pub open spec fn as_text(json: JsonView) -> Option<Seq<char>> {
    match json {
        JsonView::Text(text) => Some(text),
        _ => None,
    }
}

/// The number that a JSON number holds, where it fits a `u64`.
pub open spec fn as_number(json: JsonView) -> Option<u64> {
    match json {
        JsonView::Number(Some(number)) => Some(number),
        _ => None,
    }
}

/// The artist that an array of exactly a name and an id holds.
pub open spec fn as_artist(json: JsonView) -> Option<(Seq<char>, u64)> {
    match json {
        JsonView::Array(pair) => if pair.len() == 2 && as_text(pair[0]).is_some() && as_number(
            pair[1],
        ).is_some() {
            Some((as_text(pair[0]).unwrap(), as_number(pair[1]).unwrap()))
        } else {
            None
        },
        _ => None,
    }
}

/// The artists that an array of artists holds.
pub open spec fn as_artists(json: JsonView) -> Option<Seq<(Seq<char>, u64)>> {
    match json {
        JsonView::Array(items) => if forall|i: int|
            0 <= i < items.len() ==> as_artist(#[trigger] items[i]).is_some() {
            Some(Seq::new(items.len(), |i: int| as_artist(items[i]).unwrap()))
        } else {
            None
        },
        _ => None,
    }
}

/// The texts that an array of strings holds.
pub open spec fn as_texts(json: JsonView) -> Option<Seq<Seq<char>>> {
    match json {
        JsonView::Array(items) => if forall|i: int|
            0 <= i < items.len() ==> as_text(#[trigger] items[i]).is_some() {
            Some(Seq::new(items.len(), |i: int| as_text(items[i]).unwrap()))
        } else {
            None
        },
        _ => None,
    }
}

/// The text of the member called `name`, which must be there.
pub open spec fn required_text(members: Seq<(Seq<char>, JsonView)>, name: Seq<char>) -> Option<
    Seq<char>,
> {
    match member(members, name) {
        Some(json) => as_text(json),
        None => None,
    }
}

/// The number of the member called `name`, which must be there.
pub open spec fn required_number(members: Seq<(Seq<char>, JsonView)>, name: Seq<char>) -> Option<
    u64,
> {
    match member(members, name) {
        Some(json) => as_number(json),
        None => None,
    }
}

/// The artists of the member called `name`, which must be there.
pub open spec fn required_artists(members: Seq<(Seq<char>, JsonView)>, name: Seq<char>) -> Option<
    Seq<(Seq<char>, u64)>,
> {
    match member(members, name) {
        Some(json) => as_artists(json),
        None => None,
    }
}

/// The number of the member called `name`, which may be missing or `null`;
/// the outer `None` says that the member holds something else.
pub open spec fn optional_number(members: Seq<(Seq<char>, JsonView)>, name: Seq<char>) -> Option<
    Option<u64>,
> {
    match member(members, name) {
        None => Some(None),
        Some(JsonView::Null) => Some(None),
        Some(json) => match as_number(json) {
            Some(number) => Some(Some(number)),
            None => None,
        },
    }
}

/// The texts of the member called `name`, which may be missing or `null`;
/// the outer `None` says that the member holds something else.
pub open spec fn optional_texts(members: Seq<(Seq<char>, JsonView)>, name: Seq<char>) -> Option<
    Option<Seq<Seq<char>>>,
> {
    match member(members, name) {
        None => Some(None),
        Some(JsonView::Null) => Some(None),
        Some(json) => match as_texts(json) {
            Some(texts) => Some(Some(texts)),
            None => None,
        },
    }
}

/// The metadata record that a JSON value holds: an object whose members
/// `musicName`, `musicId`, `album`, `artist`, `bitrate`, `duration` and
/// `format` are there and of the right kind, and whose members `mvId` and
/// `alias`, where they are there and not `null`, are of the right kind too.
/// Other members are passed over.
pub open spec fn record_of(json: JsonView) -> Option<NcmInfoView> {
    match json {
        JsonView::Object(members) => {
            let name = required_text(members, "musicName"@);
            let id = required_number(members, "musicId"@);
            let album = required_text(members, "album"@);
            let artist = required_artists(members, "artist"@);
            let bitrate = required_number(members, "bitrate"@);
            let duration = required_number(members, "duration"@);
            let format = required_text(members, "format"@);
            let mv_id = optional_number(members, "mvId"@);
            let alias = optional_texts(members, "alias"@);
            if name.is_some() && id.is_some() && album.is_some() && artist.is_some()
                && bitrate.is_some() && duration.is_some() && format.is_some() && mv_id.is_some()
                && alias.is_some() {
                Some(
                    NcmInfoView {
                        name: name.unwrap(),
                        id: id.unwrap(),
                        album: album.unwrap(),
                        artist: artist.unwrap(),
                        bitrate: bitrate.unwrap(),
                        duration: duration.unwrap(),
                        format: format.unwrap(),
                        mv_id: mv_id.unwrap(),
                        alias: alias.unwrap(),
                    },
                )
            } else {
                None
            }
        },
        _ => None,
    }
}

/// Whether `result` is the record `expected`, or the decode error where
/// there is no record.
pub open spec fn yields(result: Result<NcmInfo, Errors>, expected: Option<NcmInfoView>) -> bool {
    match result {
        Ok(info) => expected == Some(info@),
        Err(e) => e == Errors::InfoDecodeError && expected.is_none(),
    }
}

fn text_of(json: &Json) -> (r: Option<String>)
    ensures
        match r {
            Some(text) => as_text(json@) == Some(text@),
            None => as_text(json@).is_none(),
        },
{
    match json {
        Json::Text(text) => Some(text.clone()),
        _ => None,
    }
}

fn number_of(json: &Json) -> (r: Option<u64>)
    ensures
        r == as_number(json@),
{
    match json {
        Json::Number(Some(number)) => Some(*number),
        _ => None,
    }
}

fn artist_of(json: &Json) -> (r: Option<(String, u64)>)
    ensures
        match r {
            Some(artist) => as_artist(json@) == Some((artist.0@, artist.1)),
            None => as_artist(json@).is_none(),
        },
{
    match json {
        Json::Array(pair) => {
            proof {
                lemma_items_view(pair@);
            }
            if pair.len() != 2 {
                return None;
            }
            let name = match text_of(&pair[0]) {
                Some(name) => name,
                None => {
                    return None;
                },
            };
            match number_of(&pair[1]) {
                Some(id) => Some((name, id)),
                None => None,
            }
        },
        _ => None,
    }
}

fn artists_of(json: &Json) -> (r: Option<Vec<(String, u64)>>)
    ensures
        match r {
            Some(artists) => as_artists(json@) == Some(artists_view(artists@)),
            None => as_artists(json@).is_none(),
        },
{
    match json {
        Json::Array(items) => {
            let ghost views = items_view(items@);
            proof {
                lemma_items_view(items@);
            }
            let mut artists: Vec<(String, u64)> = Vec::new();
            let mut i: usize = 0;
            while i < items.len()
                invariant
                    i <= items@.len(),
                    json@ == JsonView::Array(views),
                    views.len() == items@.len(),
                    forall|k: int| 0 <= k < views.len() ==> #[trigger] views[k] == items@[k]@,
                    artists@.len() == i,
                    forall|k: int|
                        0 <= k < i ==> as_artist(#[trigger] views[k]) == Some(
                            (artists@[k].0@, artists@[k].1),
                        ),
                decreases items@.len() - i,
            {
                match artist_of(&items[i]) {
                    Some(artist) => {
                        artists.push(artist);
                    },
                    None => {
                        assert(as_artist(views[i as int]).is_none());
                        return None;
                    },
                }
                i += 1;
            }
            assert(artists_view(artists@) =~= Seq::new(
                views.len(),
                |i: int| as_artist(views[i]).unwrap(),
            ));
            Some(artists)
        },
        _ => None,
    }
}

fn texts_of(json: &Json) -> (r: Option<Vec<String>>)
    ensures
        match r {
            Some(texts) => as_texts(json@) == Some(texts_view(texts@)),
            None => as_texts(json@).is_none(),
        },
{
    match json {
        Json::Array(items) => {
            let ghost views = items_view(items@);
            proof {
                lemma_items_view(items@);
            }
            let mut texts: Vec<String> = Vec::new();
            let mut i: usize = 0;
            while i < items.len()
                invariant
                    i <= items@.len(),
                    json@ == JsonView::Array(views),
                    views.len() == items@.len(),
                    forall|k: int| 0 <= k < views.len() ==> #[trigger] views[k] == items@[k]@,
                    texts@.len() == i,
                    forall|k: int| 0 <= k < i ==> as_text(#[trigger] views[k]) == Some(texts@[k]@),
                decreases items@.len() - i,
            {
                match text_of(&items[i]) {
                    Some(text) => {
                        texts.push(text);
                    },
                    None => {
                        assert(as_text(views[i as int]).is_none());
                        return None;
                    },
                }
                i += 1;
            }
            assert(texts_view(texts@) =~= Seq::new(views.len(), |i: int| as_text(views[i]).unwrap()));
            Some(texts)
        },
        _ => None,
    }
}

fn text_member(members: &Vec<(String, Json)>, name: &str) -> (r: Option<String>)
    ensures
        match r {
            Some(text) => required_text(members_view(members@), name@) == Some(text@),
            None => required_text(members_view(members@), name@).is_none(),
        },
{
    match find(members, name) {
        Some(json) => text_of(json),
        None => None,
    }
}

fn number_member(members: &Vec<(String, Json)>, name: &str) -> (r: Option<u64>)
    ensures
        r == required_number(members_view(members@), name@),
{
    match find(members, name) {
        Some(json) => number_of(json),
        None => None,
    }
}

fn artists_member(members: &Vec<(String, Json)>, name: &str) -> (r: Option<Vec<(String, u64)>>)
    ensures
        match r {
            Some(artists) => required_artists(members_view(members@), name@) == Some(
                artists_view(artists@),
            ),
            None => required_artists(members_view(members@), name@).is_none(),
        },
{
    match find(members, name) {
        Some(json) => artists_of(json),
        None => None,
    }
}

fn optional_number_member(members: &Vec<(String, Json)>, name: &str) -> (r: Option<Option<u64>>)
    ensures
        r == optional_number(members_view(members@), name@),
{
    match find(members, name) {
        None => Some(None),
        Some(Json::Null) => Some(None),
        Some(json) => match number_of(json) {
            Some(number) => Some(Some(number)),
            None => None,
        },
    }
}

fn optional_texts_member(members: &Vec<(String, Json)>, name: &str) -> (r: Option<
    Option<Vec<String>>,
>)
    ensures
        match r {
            Some(Some(texts)) => optional_texts(members_view(members@), name@) == Some(
                Some(texts_view(texts@)),
            ),
            Some(None) => optional_texts(members_view(members@), name@) == Some(
                None::<Seq<Seq<char>>>,
            ),
            None => optional_texts(members_view(members@), name@).is_none(),
        },
{
    match find(members, name) {
        None => Some(None),
        Some(Json::Null) => Some(None),
        Some(json) => match texts_of(json) {
            Some(texts) => Some(Some(texts)),
            None => None,
        },
    }
}

impl NcmInfo {
    /// Reads the metadata record out of a JSON value.
    pub fn from_json(json: &Json) -> (r: Result<NcmInfo, Errors>)
        ensures
            yields(r, record_of(json@)),
    {
        let members = match json {
            Json::Object(members) => members,
            _ => {
                return Err(Errors::InfoDecodeError);
            },
        };
        let name = match text_member(members, "musicName") {
            Some(name) => name,
            None => {
                return Err(Errors::InfoDecodeError);
            },
        };
        let id = match number_member(members, "musicId") {
            Some(id) => id,
            None => {
                return Err(Errors::InfoDecodeError);
            },
        };
        let album = match text_member(members, "album") {
            Some(album) => album,
            None => {
                return Err(Errors::InfoDecodeError);
            },
        };
        let artist = match artists_member(members, "artist") {
            Some(artist) => artist,
            None => {
                return Err(Errors::InfoDecodeError);
            },
        };
        let bitrate = match number_member(members, "bitrate") {
            Some(bitrate) => bitrate,
            None => {
                return Err(Errors::InfoDecodeError);
            },
        };
        let duration = match number_member(members, "duration") {
            Some(duration) => duration,
            None => {
                return Err(Errors::InfoDecodeError);
            },
        };
        let format = match text_member(members, "format") {
            Some(format) => format,
            None => {
                return Err(Errors::InfoDecodeError);
            },
        };
        let mv_id = match optional_number_member(members, "mvId") {
            Some(mv_id) => mv_id,
            None => {
                return Err(Errors::InfoDecodeError);
            },
        };
        let alias = match optional_texts_member(members, "alias") {
            Some(alias) => alias,
            None => {
                return Err(Errors::InfoDecodeError);
            },
        };
        Ok(NcmInfo { name, id, album, artist, bitrate, duration, format, mv_id, alias })
    }
}

/// The error of `String::from_utf8`, of which nothing is read.
#[verifier::external_type_specification]
#[verifier::external_body]
pub struct ExFromUtf8Error(FromUtf8Error);

/// The error of `base64`, of which nothing is read.
#[verifier::external_type_specification]
#[verifier::external_body]
pub struct ExDecodeError(base64::DecodeError);

/// `String::from_utf8` accepts exactly the byte sequences that are UTF-8,
/// and the string it makes of one holds the characters that the bytes
/// encode.
pub assume_specification[ String::from_utf8 ](bytes: Vec<u8>) -> (r: Result<
    String,
    FromUtf8Error,
>)
    ensures
        match r {
            Ok(text) => valid_utf8(bytes@) && text@ == decode_utf8(bytes@),
            Err(_) => !valid_utf8(bytes@),
        },
;

/// The bytes that the standard base64 alphabet, with padding, makes of
/// `text`; `None` where `text` is not such base64.
pub uninterp spec fn base64_decoded(text: Seq<u8>) -> Option<Seq<u8>>;

/// Decodes `text` with `Engine::decode` of the `base64` crate, on its
/// engine `STANDARD`. The contract only gives the outcome its name: which
/// texts are base64, and what each of them holds, is for `base64` to say.
#[verifier::external_body]
fn base64_decode(text: &[u8]) -> (r: Result<Vec<u8>, base64::DecodeError>)
    ensures
        match r {
            Ok(bytes) => base64_decoded(text@) == Some(bytes@),
            Err(_) => base64_decoded(text@).is_none(),
        },
{
    STANDARD.decode(text)
}

/// The record that the bytes of a JSON text hold: the bytes are UTF-8, the
/// text is JSON, and the JSON value holds a record.
pub open spec fn info_of_text(text: Seq<u8>) -> Option<NcmInfoView> {
    if valid_utf8(text) {
        match json_parsed(decode_utf8(text)) {
            Some(json) => record_of(json),
            None => None,
        }
    } else {
        None
    }
}

/// The record that encrypted metadata holds: the JSON text is what follows
/// the first 6 bytes of the plaintext under the info key.
pub open spec fn info_of_cipher(cipher: Seq<u8>) -> Option<NcmInfoView> {
    match decrypted(cipher, INFO_KEY@) {
        Some(plain) => if plain.len() >= INFO_PREFIX {
            info_of_text(plain.skip(INFO_PREFIX as int))
        } else {
            None
        },
        None => None,
    }
}

/// The record that a metadata block holds: the encrypted metadata is the
/// base64 text that follows the first 22 bytes of the unmasked block.
pub open spec fn info_of_block(block: Seq<u8>) -> Option<NcmInfoView> {
    let unmasked = masked(block, INFO_MASK);
    if unmasked.len() >= INFO_TAG {
        match base64_decoded(unmasked.skip(INFO_TAG as int)) {
            Some(cipher) => info_of_cipher(cipher),
            None => None,
        }
    } else {
        None
    }
}

/// A metadata block whose text is not base64 holds no record, so decoding
/// it fails with `InfoDecodeError`.
pub proof fn lemma_malformed_base64_is_rejected(block: Seq<u8>)
    requires
        masked(block, INFO_MASK).len() < INFO_TAG || base64_decoded(
            masked(block, INFO_MASK).skip(INFO_TAG as int),
        ).is_none(),
    ensures
        info_of_block(block).is_none(),
{
}

/// A metadata block whose plaintext, behind its first 6 bytes, is not UTF-8
/// holds no record, so decoding it fails with `InfoDecodeError`.
pub proof fn lemma_invalid_utf8_is_rejected(block: Seq<u8>, cipher: Seq<u8>, plain: Seq<u8>)
    requires
        masked(block, INFO_MASK).len() >= INFO_TAG,
        base64_decoded(masked(block, INFO_MASK).skip(INFO_TAG as int)) == Some(cipher),
        decrypted(cipher, INFO_KEY@) == Some(plain),
        plain.len() < INFO_PREFIX || !valid_utf8(plain.skip(INFO_PREFIX as int)),
    ensures
        info_of_block(block).is_none(),
{
}

/// Reads the metadata record out of the bytes of a JSON text.
pub fn parse_info(text: Vec<u8>) -> (r: Result<NcmInfo, Errors>)
    ensures
        yields(r, info_of_text(text@)),
{
    let info_str = match String::from_utf8(text) {
        Ok(info_str) => info_str,
        Err(_) => {
            return Err(Errors::InfoDecodeError);
        },
    };
    match parse_json(info_str.as_str()) {
        Ok(json) => NcmInfo::from_json(&json),
        Err(_) => Err(Errors::InfoDecodeError),
    }
}

/// Decrypts metadata and reads the record out of it.
pub fn decrypt_info(cipher: &[u8]) -> (r: Result<NcmInfo, Errors>)
    ensures
        yields(r, info_of_cipher(cipher@)),
{
    let info_data = match decrypt(cipher, &INFO_KEY) {
        Ok(info_data) => info_data,
        Err(_) => {
            return Err(Errors::InfoDecodeError);
        },
    };
    if info_data.len() < INFO_PREFIX {
        return Err(Errors::InfoDecodeError);
    }
    let text = slice_to_vec(slice_subrange(info_data.as_slice(), INFO_PREFIX, info_data.len()));
    parse_info(text)
}

/// Decodes the bytes of a metadata block into the record they hold.
pub fn decode_info(block: &[u8]) -> (r: Result<NcmInfo, Errors>)
    ensures
        yields(r, info_of_block(block@)),
{
    let info_tmp = unmask(block, INFO_MASK);
    if info_tmp.len() < INFO_TAG {
        return Err(Errors::InfoDecodeError);
    }
    match base64_decode(slice_subrange(info_tmp.as_slice(), INFO_TAG, info_tmp.len())) {
        Ok(cipher) => decrypt_info(cipher.as_slice()),
        Err(_) => Err(Errors::InfoDecodeError),
    }
}

} // verus!
