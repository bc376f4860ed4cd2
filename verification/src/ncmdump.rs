//! The container: its layout, the handle that indexes it, and the extraction
//! of the key, the cover image and the audio payload.

use vstd::prelude::*;

use crate::decrypt::{
    build_key_box, decrypt, decrypt_audio, decrypted, key_box_of, keystream_xor, masked, unmask,
    HEADER_KEY,
};
use crate::error::Errors;
use crate::info::{decode_info, info_of_block, NcmInfo, NcmInfoView};
use crate::reader::Reader;

verus! {

/// The eight bytes that every container begins with: the integer
/// `0x4d41_4446_4e45_5443`, least significant byte first.
pub const MAGIC: [u8; 8] = [0x43, 0x54, 0x45, 0x4e, 0x46, 0x44, 0x41, 0x4d];

/// Number of bytes of the header: the magic bytes and two reserved bytes.
pub const HEADER_SIZE: u64 = 10;

/// Number of bytes of a length field.
pub const LENGTH_SIZE: u64 = 4;

/// Number of bytes between the metadata block and the length field of the
/// image block, which are not interpreted.
pub const GAP_SIZE: u64 = 9;

/// Value XOR-ed into every byte of the key block.
pub const KEY_MASK: u8 = 0x64;

/// Number of bytes in front of the raw key in the decrypted key block.
pub const KEY_PREFIX: usize = 17;

/// Where a section begins in the source and how many bytes it has.
pub struct Section {
    pub start: int,
    pub length: int,
}

/// The three sections that a container's length fields describe. The audio
/// payload follows the image block and reaches to the end of the source.
pub struct Layout {
    pub key: Section,
    pub info: Section,
    pub image: Section,
}

/// What a handle stands for: all bytes of the source and the layout that was
/// read from them.
pub struct Container {
    pub bytes: Seq<u8>,
    pub layout: Layout,
}

/// Whether `buffer` begins with the magic bytes.
pub open spec fn is_magic(buffer: Seq<u8>) -> bool {
    buffer.len() >= 8 && buffer.take(8) == MAGIC@
}

/// The number that four bytes hold, least significant byte first.
pub open spec fn le_u32(field: Seq<u8>) -> int {
    field[0] + field[1] * 0x100 + field[2] * 0x1_0000 + field[3] * 0x100_0000
}

/// The number that eight bytes hold, least significant byte first.
pub open spec fn le_u64(field: Seq<u8>) -> int {
    le_u32(field.subrange(0, 4)) + le_u32(field.subrange(4, 8)) * 0x1_0000_0000
}

/// The length field of four bytes that begins at `at`.
pub open spec fn length_field(bytes: Seq<u8>, at: int) -> int {
    le_u32(bytes.subrange(at, at + 4))
}

/// The layout of the container that begins at `origin` in `bytes`, or the
/// reason why there is none. Each length field must lie within the source;
/// the blocks themselves, and the nine bytes of the gap, need not.
pub open spec fn parse_layout(bytes: Seq<u8>, origin: int) -> Result<Layout, Errors> {
    let key_at = origin + HEADER_SIZE;
    let key = Section { start: key_at + LENGTH_SIZE, length: length_field(bytes, key_at) };
    let info_at = key.start + key.length;
    let info = Section { start: info_at + LENGTH_SIZE, length: length_field(bytes, info_at) };
    let image_at = info.start + info.length + GAP_SIZE;
    let image = Section { start: image_at + LENGTH_SIZE, length: length_field(bytes, image_at) };
    if origin + HEADER_SIZE > bytes.len() || bytes.subrange(origin, origin + 8) != MAGIC@ {
        Err(Errors::InvalidFileType)
    } else if key.start > bytes.len() {
        Err(Errors::InvalidKeyLength)
    } else if info.start > bytes.len() {
        Err(Errors::InvalidInfoLength)
    } else if image.start > bytes.len() {
        Err(Errors::InvalidImageLength)
    } else {
        Ok(Layout { key, info, image })
    }
}

/// The bytes of `section`, which must lie within `bytes` as a whole.
pub open spec fn section_bytes(bytes: Seq<u8>, section: Section) -> Result<Seq<u8>, Errors> {
    if 0 <= section.start && 0 <= section.length && section.start + section.length
        <= bytes.len() {
        Ok(bytes.subrange(section.start, section.start + section.length))
    } else {
        Err(Errors::UnexpectedEof)
    }
}

/// The raw key that a key block holds: the block is unmasked and decrypted
/// under the header key, and the raw key is what follows the first 17 bytes
/// of the plaintext.
pub open spec fn key_of_block(block: Seq<u8>) -> Result<Seq<u8>, Errors> {
    match decrypted(masked(block, KEY_MASK), HEADER_KEY@) {
        Some(plain) => if plain.len() >= KEY_PREFIX {
            Ok(plain.skip(KEY_PREFIX as int))
        } else {
            Err(Errors::DecryptError)
        },
        None => Err(Errors::DecryptError),
    }
}

impl Container {
    /// What holds of every container that was opened: each section begins
    /// within the source, right behind its length field, and each length
    /// fits 32 bits. The sections themselves may reach past the end.
    pub open spec fn well_formed(self) -> bool {
        let Layout { key, info, image } = self.layout;
        &&& HEADER_SIZE + LENGTH_SIZE <= key.start
        &&& info.start == key.start + key.length + LENGTH_SIZE
        &&& image.start == info.start + info.length + GAP_SIZE + LENGTH_SIZE
        &&& image.start <= self.bytes.len()
        &&& 0 <= key.length <= u32::MAX
        &&& 0 <= info.length <= u32::MAX
        &&& 0 <= image.length <= u32::MAX
    }

    /// The raw key of the container.
    pub open spec fn key(self) -> Result<Seq<u8>, Errors> {
        match section_bytes(self.bytes, self.layout.key) {
            Ok(block) => key_of_block(block),
            Err(e) => Err(e),
        }
    }

    /// The metadata record of the container.
    pub open spec fn info(self) -> Result<NcmInfoView, Errors> {
        match section_bytes(self.bytes, self.layout.info) {
            Ok(block) => match info_of_block(block) {
                Some(info) => Ok(info),
                None => Err(Errors::InfoDecodeError),
            },
            Err(e) => Err(e),
        }
    }

    /// The cover image: the bytes of the image block as they are.
    pub open spec fn image(self) -> Result<Seq<u8>, Errors> {
        section_bytes(self.bytes, self.layout.image)
    }

    /// Where the audio payload begins.
    pub open spec fn audio_start(self) -> int {
        self.layout.image.start + self.layout.image.length
    }

    /// The audio stream: what follows the image block, decrypted under the
    /// key box of the raw key. An empty raw key has no key box.
    pub open spec fn audio(self) -> Result<Seq<u8>, Errors> {
        if self.audio_start() < 0 || self.audio_start() > self.bytes.len() {
            Err(Errors::UnexpectedEof)
        } else {
            match self.key() {
                Ok(raw_key) => if raw_key.len() > 0 {
                    Ok(keystream_xor(self.bytes.skip(self.audio_start()), key_box_of(raw_key)))
                } else {
                    Err(Errors::DecryptError)
                },
                Err(e) => Err(e),
            }
        }
    }
}

/// A buffer begins with the magic bytes exactly if its first eight bytes,
/// least significant byte first, hold the number `0x4d41_4446_4e45_5443`.
pub proof fn lemma_magic_number(buffer: Seq<u8>)
    requires
        buffer.len() >= 8,
    ensures
        is_magic(buffer) <==> le_u64(buffer.take(8)) == 0x4d41_4446_4e45_5443,
{
    let head = buffer.take(8);
    if le_u64(head) == 0x4d41_4446_4e45_5443 {
        assert(head =~= MAGIC@);
    }
}

/// A source that has fewer than ten bytes from `origin` on, or whose first
/// eight bytes there are not the magic bytes, holds no container: opening it
/// fails with `InvalidFileType`.
pub proof fn lemma_unmarked_source_is_rejected(bytes: Seq<u8>, origin: int)
    requires
        0 <= origin,
        bytes.len() - origin < 10 || bytes.subrange(origin, origin + 8) != MAGIC@,
    ensures
        parse_layout(bytes, origin) == Err::<Layout, Errors>(Errors::InvalidFileType),
{
}

/// The layout that is read from a source is well formed, and its key block
/// begins 14 bytes behind the start of the container.
pub proof fn lemma_layout_is_well_formed(bytes: Seq<u8>, origin: int)
    requires
        0 <= origin,
        parse_layout(bytes, origin) is Ok,
    ensures
        (Container { bytes, layout: parse_layout(bytes, origin)->Ok_0 }).well_formed(),
        parse_layout(bytes, origin)->Ok_0.key.start == origin + 14,
{
}

/// What the extractors return is decided by the bytes of the source and by
/// the layout: two handles that agree in both give the same key, the same
/// record, the same image and the same audio, wherever their sources are
/// positioned. Every extractor leaves both as they were, so a second call
/// returns what the first one did.
pub proof fn lemma_extraction_is_repeatable(first: Ncmdump, second: Ncmdump)
    requires
        first@ == second@,
    ensures
        first@.key() == second@.key(),
        first@.info() == second@.info(),
        first@.image() == second@.image(),
        first@.audio() == second@.audio(),
{
}

/// Whether `result` is `expected`, byte for byte or error for error.
pub open spec fn gives(result: Result<Vec<u8>, Errors>, expected: Result<Seq<u8>, Errors>) -> bool {
    match result {
        Ok(bytes) => expected == Ok::<Seq<u8>, Errors>(bytes@),
        Err(e) => expected == Err::<Seq<u8>, Errors>(e),
    }
}

/// Recovers the raw key from the bytes of a key block.
pub fn decode_key(block: &[u8]) -> (r: Result<Vec<u8>, Errors>)
    ensures
        gives(r, key_of_block(block@)),
{
    let key_buffer = unmask(block, KEY_MASK);
    let mut plain = match decrypt(key_buffer.as_slice(), &HEADER_KEY) {
        Ok(plain) => plain,
        Err(e) => {
            return Err(e);
        },
    };
    if plain.len() < KEY_PREFIX {
        return Err(Errors::DecryptError);
    }
    let raw_key = plain.split_off(KEY_PREFIX);
    Ok(raw_key)
}

/// A container that has been opened: the source and the place of each
/// section in it.
#[derive(Debug)]
pub struct Ncmdump {
    reader: Reader,
    key: (u64, u64),
    info: (u64, u64),
    image: (u64, u64),
}

impl View for Ncmdump {
    type V = Container;

    closed spec fn view(&self) -> Container {
        Container {
            bytes: self.reader.bytes(),
            layout: Layout {
                key: Section { start: self.key.0 as int, length: self.key.1 as int },
                info: Section { start: self.info.0 as int, length: self.info.1 as int },
                image: Section { start: self.image.0 as int, length: self.image.1 as int },
            },
        }
    }
}

impl Ncmdump {
    /// Tells whether `buffer` begins with the magic bytes of a container.
    pub fn check_format(buffer: &[u8]) -> (r: Result<bool, Errors>)
        ensures
            r == Ok::<bool, Errors>(is_magic(buffer@)),
    {
        if buffer.len() < 8 {
            return Ok(false);
        }
        let mut i: usize = 0;
        while i < 8
            invariant
                i <= 8,
                buffer@.len() >= 8,
                forall|k: int| 0 <= k < i ==> buffer@[k] == MAGIC@[k],
            decreases 8 - i,
        {
            if buffer[i] != MAGIC[i] {
                assert(buffer@.take(8)[i as int] != MAGIC@[i as int]);
                return Ok(false);
            }
            i += 1;
        }
        assert(buffer@.take(8) =~= MAGIC@);
        Ok(true)
    }

    /// Reads a length field: four bytes, least significant byte first.
    pub fn get_length(buffer: &[u8]) -> (r: Result<u64, Errors>)
        ensures
            match r {
                Ok(length) => buffer@.len() == 4 && length == le_u32(buffer@),
                Err(e) => buffer@.len() != 4 && e == Errors::InvalidLengthField,
            },
    {
        if buffer.len() != 4 {
            return Err(Errors::InvalidLengthField);
        }
        let length = buffer[0] as u64 + buffer[1] as u64 * 0x100 + buffer[2] as u64 * 0x1_0000
            + buffer[3] as u64 * 0x100_0000;
        Ok(length)
    }

    /// Opens the container that begins at the position of `reader`: checks
    /// the header and reads the three length fields, without reading the
    /// blocks between them.
    pub fn from_reader(reader: Reader) -> (r: Result<Ncmdump, Errors>)
        ensures
            match r {
                Ok(handle) => handle@.bytes == reader.bytes() && handle@.well_formed()
                    && parse_layout(reader.bytes(), reader.position()) == Ok::<Layout, Errors>(
                    handle@.layout,
                ),
                Err(e) => parse_layout(reader.bytes(), reader.position()) == Err::<Layout, Errors>(
                    e,
                ),
            },
            reader.bytes().len() - reader.position() < 10 || reader.bytes().subrange(
                reader.position(),
                reader.position() + 8,
            ) != MAGIC@ ==> r is Err && r->Err_0 == Errors::InvalidFileType,
    {
        let ghost bytes = reader.bytes();
        let ghost origin = reader.position();
        proof {
            reader.lemma_fits_usize();
        }
        let mut reader = reader;
        let format = reader.read(HEADER_SIZE);
        if format.len() != 10 {
            return Err(Errors::InvalidFileType);
        }
        assert(format@.take(8) =~= bytes.subrange(origin, origin + 8));
        match Self::check_format(format.as_slice()) {
            Ok(true) => {},
            _ => {
                return Err(Errors::InvalidFileType);
            },
        }
        let key_length_buffer = reader.read(LENGTH_SIZE);
        if key_length_buffer.len() != 4 {
            return Err(Errors::InvalidKeyLength);
        }
        let key_start = reader.stream_position();
        let key_length = match Self::get_length(key_length_buffer.as_slice()) {
            Ok(length) => length,
            Err(e) => {
                return Err(e);
            },
        };
        if !reader.skip(key_length) {
            return Err(Errors::InvalidInfoLength);
        }
        let info_length_buffer = reader.read(LENGTH_SIZE);
        if info_length_buffer.len() != 4 {
            return Err(Errors::InvalidInfoLength);
        }
        let info_start = reader.stream_position();
        let info_length = match Self::get_length(info_length_buffer.as_slice()) {
            Ok(length) => length,
            Err(e) => {
                return Err(e);
            },
        };
        if !reader.skip(info_length) {
            return Err(Errors::InvalidImageLength);
        }
        if !reader.skip(GAP_SIZE) {
            return Err(Errors::InvalidImageLength);
        }
        let image_length_buffer = reader.read(LENGTH_SIZE);
        if image_length_buffer.len() != 4 {
            return Err(Errors::InvalidImageLength);
        }
        let image_start = reader.stream_position();
        let image_length = match Self::get_length(image_length_buffer.as_slice()) {
            Ok(length) => length,
            Err(e) => {
                return Err(e);
            },
        };
        Ok(
            Ncmdump {
                reader,
                key: (key_start, key_length),
                info: (info_start, info_length),
                image: (image_start, image_length),
            },
        )
    }

    /// Reads the `length` bytes that begin at `start`.
    fn get_bytes(&mut self, start: u64, length: u64) -> (r: Result<Vec<u8>, Errors>)
        ensures
            final(self)@ == old(self)@,
            gives(
                r,
                section_bytes(
                    old(self)@.bytes,
                    (Section { start: start as int, length: length as int }),
                ),
            ),
    {
        if !self.reader.seek(start) {
            return Err(Errors::UnexpectedEof);
        }
        let bytes = self.reader.read(length);
        if bytes.len() as u64 != length {
            return Err(Errors::UnexpectedEof);
        }
        Ok(bytes)
    }

    /// Recovers the raw key, from which the key box of the audio payload is
    /// built.
    pub fn get_key(&mut self) -> (r: Result<Vec<u8>, Errors>)
        ensures
            final(self)@ == old(self)@,
            gives(r, old(self)@.key()),
    {
        let (start, length) = self.key;
        let block = match self.get_bytes(start, length) {
            Ok(block) => block,
            Err(e) => {
                return Err(e);
            },
        };
        decode_key(block.as_slice())
    }

    /// Decodes the metadata block into the record it holds.
    pub fn get_info(&mut self) -> (r: Result<NcmInfo, Errors>)
        ensures
            final(self)@ == old(self)@,
            match r {
                Ok(info) => old(self)@.info() == Ok::<NcmInfoView, Errors>(info@),
                Err(e) => old(self)@.info() == Err::<NcmInfoView, Errors>(e),
            },
    {
        let (start, length) = self.info;
        let block = match self.get_bytes(start, length) {
            Ok(block) => block,
            Err(e) => {
                return Err(e);
            },
        };
        decode_info(block.as_slice())
    }

    /// Returns the bytes of the cover image, which may be none.
    pub fn get_image(&mut self) -> (r: Result<Vec<u8>, Errors>)
        ensures
            final(self)@ == old(self)@,
            gives(r, old(self)@.image()),
    {
        let (start, length) = self.image;
        self.get_bytes(start, length)
    }

    /// Decrypts the audio payload.
    pub fn get_data(&mut self) -> (r: Result<Vec<u8>, Errors>)
        ensures
            final(self)@ == old(self)@,
            gives(r, old(self)@.audio()),
    {
        proof {
            self.reader.lemma_fits_usize();
        }
        let start = match self.image.0.checked_add(self.image.1) {
            Some(start) => start,
            None => {
                return Err(Errors::UnexpectedEof);
            },
        };
        if !self.reader.seek(start) {
            return Err(Errors::UnexpectedEof);
        }
        let data = self.reader.read_to_end();
        let key = match self.get_key() {
            Ok(key) => key,
            Err(e) => {
                return Err(e);
            },
        };
        if key.len() == 0 {
            return Err(Errors::DecryptError);
        }
        let key_box = build_key_box(key.as_slice());
        Ok(decrypt_audio(data.as_slice(), &key_box))
    }
}

} // verus!
