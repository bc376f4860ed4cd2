use aes::cipher::generic_array::GenericArray;
use aes::cipher::{BlockEncrypt, KeyInit};
use aes::Aes128;
use base64::engine::general_purpose::STANDARD;
use base64::Engine;
use ncmdump::decrypt::{HEADER_KEY, INFO_KEY};
use ncmdump::{Errors, NcmInfo, Ncmdump, Reader};

const KEY: [u8; 96] = [
    0x31, 0x31, 0x38, 0x31, 0x39, 0x38, 0x30, 0x33, 0x33, 0x32, 0x38, 0x35, 0x45, 0x37, 0x66,
    0x54, 0x34, 0x39, 0x78, 0x37, 0x64, 0x6f, 0x66, 0x39, 0x4f, 0x4b, 0x43, 0x67, 0x67, 0x39,
    0x63, 0x64, 0x76, 0x68, 0x45, 0x75, 0x65, 0x7a, 0x79, 0x33, 0x69, 0x5a, 0x43, 0x4c, 0x31,
    0x6e, 0x46, 0x76, 0x42, 0x46, 0x64, 0x31, 0x54, 0x34, 0x75, 0x53, 0x6b, 0x74, 0x41, 0x4a,
    0x4b, 0x6d, 0x77, 0x5a, 0x58, 0x73, 0x69, 0x6a, 0x50, 0x62, 0x69, 0x6a, 0x6c, 0x69, 0x69,
    0x6f, 0x6e, 0x56, 0x55, 0x58, 0x58, 0x67, 0x39, 0x70, 0x6c, 0x54, 0x62, 0x58, 0x45, 0x63,
    0x6c, 0x41, 0x45, 0x39, 0x4c, 0x62,
];

const INFO: &str = r#"{"musicId":1305366556,"musicName":"寒鸦少年","artist":[["华晨宇",861777]],"albumId":72967318,"album":"寒鸦少年","albumPicDocId":"109951163520285464","albumPic":"https://p4.music.126.net/a.jpg","bitrate":923378,"mp3DocId":"a8ab7a4a7a7a3d6d","duration":315146,"mvId":0,"alias":["电视剧《斗破苍穹》主题曲"],"transNames":[],"format":"flac"}"#;

const IMAGE_HEAD: [u8; 16] = [
    0xff, 0xd8, 0xff, 0xe0, 0x00, 0x10, 0x4a, 0x46, 0x49, 0x46, 0x00, 0x01, 0x01, 0x01, 0x00, 0x48,
];

const IMAGE_TAIL: [u8; 16] = [
    0x20, 0x20, 0x20, 0x20, 0x20, 0x20, 0x20, 0x20, 0x20, 0x20, 0x20, 0x20, 0x20, 0x20, 0xff, 0xd9,
];

const AUDIO_HEAD: [u8; 16] = [
    0x66, 0x4c, 0x61, 0x43, 0x00, 0x00, 0x00, 0x22, 0x12, 0x00, 0x12, 0x00, 0x00, 0x01, 0x01, 0x00,
];

const AUDIO_TAIL: [u8; 16] = [
    0x8b, 0x25, 0x88, 0x08, 0x4b, 0x49, 0x89, 0xc2, 0xba, 0xe3, 0xda, 0x88, 0x48, 0xc1, 0x09, 0x7b,
];

fn encrypt_ecb(plain: &[u8], key: &[u8; 16]) -> Vec<u8> {
    let pad = 16 - plain.len() % 16;
    let mut padded = plain.to_vec();
    padded.resize(plain.len() + pad, pad as u8);
    let cipher = Aes128::new(GenericArray::from_slice(key));
    let mut out = Vec::new();
    for chunk in padded.chunks(16) {
        let mut block = GenericArray::clone_from_slice(chunk);
        cipher.encrypt_block(&mut block);
        out.extend_from_slice(&block);
    }
    out
}

fn key_block(raw_key: &[u8]) -> Vec<u8> {
    let mut plain = b"neteasecloudmusic".to_vec();
    plain.extend_from_slice(raw_key);
    encrypt_ecb(&plain, &HEADER_KEY).iter().map(|b| b ^ 0x64).collect()
}

fn info_block(json: &[u8]) -> Vec<u8> {
    let mut plain = b"music:".to_vec();
    plain.extend_from_slice(json);
    let mut text = b"163 key(Don't modify):".to_vec();
    text.extend_from_slice(STANDARD.encode(encrypt_ecb(&plain, &INFO_KEY)).as_bytes());
    text.iter().map(|b| b ^ 0x63).collect()
}

fn keystream(raw_key: &[u8], payload: &[u8]) -> Vec<u8> {
    let mut table: Vec<usize> = (0..256).collect();
    let mut j = 0;
    for i in 0..256 {
        j = (j + table[i] + raw_key[i % raw_key.len()] as usize) & 0xff;
        table.swap(i, j);
    }
    payload
        .iter()
        .enumerate()
        .map(|(p, byte)| {
            let j = (p + 1) & 0xff;
            byte ^ table[(table[j] + table[(table[j] + j) & 0xff]) & 0xff] as u8
        })
        .collect()
}

fn filled(head: &[u8], tail: &[u8], len: usize) -> Vec<u8> {
    let mut bytes: Vec<u8> = (0..len).map(|i| (i * 31 + 11) as u8).collect();
    bytes[..head.len()].copy_from_slice(head);
    bytes[len - tail.len()..].copy_from_slice(tail);
    bytes
}

fn container(key: &[u8], info: &[u8], image: &[u8], audio: &[u8]) -> Vec<u8> {
    let mut bytes = b"CTENFDAM".to_vec();
    bytes.extend_from_slice(&[0x01, 0x70]);
    bytes.extend_from_slice(&(key.len() as u32).to_le_bytes());
    bytes.extend_from_slice(key);
    bytes.extend_from_slice(&(info.len() as u32).to_le_bytes());
    bytes.extend_from_slice(info);
    bytes.extend_from_slice(&[0xde, 0xad, 0xbe, 0xef, 0x01, 0, 0, 0, 0]);
    bytes.extend_from_slice(&(image.len() as u32).to_le_bytes());
    bytes.extend_from_slice(image);
    bytes.extend_from_slice(audio);
    bytes
}

fn sample_image() -> Vec<u8> {
    filled(&IMAGE_HEAD, &IMAGE_TAIL, 39009)
}

fn sample_audio() -> Vec<u8> {
    filled(&AUDIO_HEAD, &AUDIO_TAIL, 61440)
}

fn sample_container() -> Vec<u8> {
    container(
        &key_block(&KEY),
        &info_block(INFO.as_bytes()),
        &sample_image(),
        &keystream(&KEY, &sample_audio()),
    )
}

fn open(bytes: Vec<u8>) -> Ncmdump {
    Ncmdump::from_reader(Reader::new(bytes)).unwrap()
}

fn open_error(bytes: Vec<u8>) -> Errors {
    match Ncmdump::from_reader(Reader::new(bytes)) {
        Ok(_) => panic!("the source was opened"),
        Err(e) => e,
    }
}

fn sample_info() -> NcmInfo {
    NcmInfo {
        name: "寒鸦少年".to_string(),
        id: 1305366556,
        album: "寒鸦少年".to_string(),
        artist: vec![("华晨宇".into(), 861777)],
        bitrate: 923378,
        duration: 315146,
        format: "flac".to_string(),
        mv_id: Some(0),
        alias: Some(vec!["电视剧《斗破苍穹》主题曲".into()]),
    }
}

#[test]
fn test_create_dump_ok() {
    let reader = Reader::new(sample_container());
    let _ = Ncmdump::from_reader(reader).unwrap();
}

#[test]
fn test_get_key_ok() {
    let reader = Reader::new(sample_container());
    let mut ncm = Ncmdump::from_reader(reader).unwrap();
    let key = ncm.get_key().unwrap();

    assert_eq!(key[..], KEY[..]);
}

#[test]
fn test_get_info_ok() {
    let reader = Reader::new(sample_container());
    let mut ncm = Ncmdump::from_reader(reader).unwrap();
    let info = ncm.get_info().unwrap();

    assert_eq!(
        info,
        NcmInfo {
            name: "寒鸦少年".to_string(),
            id: 1305366556,
            album: "寒鸦少年".to_string(),
            artist: vec![("华晨宇".into(), 861777)],
            bitrate: 923378,
            duration: 315146,
            format: "flac".to_string(),
            mv_id: Some(0),
            alias: Some(vec!["电视剧《斗破苍穹》主题曲".into()]),
        },
    );
}

#[test]
fn test_get_image_ok() {
    let reader = Reader::new(sample_container());
    let mut ncm = Ncmdump::from_reader(reader).unwrap();
    let image = ncm.get_image().unwrap();
    let length = image.len();

    println!("length = {}, image: {:x?}", length, image);

    assert_eq!(length, 39009);
    assert_eq!(
        image[..16],
        [
            0xff, 0xd8, 0xff, 0xe0, 0x00, 0x10, 0x4a, 0x46, 0x49, 0x46, 0x00, 0x01, 0x01, 0x01,
            0x00, 0x48,
        ],
    );
    assert_eq!(
        image[38993..],
        [
            0x20, 0x20, 0x20, 0x20, 0x20, 0x20, 0x20, 0x20, 0x20, 0x20, 0x20, 0x20, 0x20, 0x20,
            0xff, 0xd9,
        ],
    );
}

#[test]
fn test_get_data_ok() {
    let reader = Reader::new(sample_container());
    let mut ncm = Ncmdump::from_reader(reader).unwrap();
    let data = ncm.get_data().unwrap();
    let length = data.len();
    println!("length = {}, image: {:x?}", length, data);

    assert_eq!(length, 61440);
    assert_eq!(
        data[..16],
        [
            0x66, 0x4c, 0x61, 0x43, 0x00, 0x00, 0x00, 0x22, 0x12, 0x00, 0x12, 0x00, 0x00, 0x01,
            0x01, 0x00,
        ],
    );
    assert_eq!(
        data[61424..],
        [
            0x8b, 0x25, 0x88, 0x08, 0x4b, 0x49, 0x89, 0xc2, 0xba, 0xe3, 0xda, 0x88, 0x48, 0xc1,
            0x09, 0x7b,
        ],
    );
}

#[test]
fn extraction_returns_the_whole_sections() {
    let mut ncm = open(sample_container());
    assert_eq!(ncm.get_image().unwrap(), sample_image());
    assert_eq!(ncm.get_data().unwrap(), sample_audio());
    assert_eq!(ncm.get_info().unwrap(), sample_info());
}

#[test]
fn extraction_is_repeatable_in_any_order() {
    let mut ncm = open(sample_container());
    let data = ncm.get_data();
    let key = ncm.get_key();
    let image = ncm.get_image();
    let info = ncm.get_info();
    assert_eq!(ncm.get_info(), info);
    assert_eq!(ncm.get_image(), image);
    assert_eq!(ncm.get_key(), key);
    assert_eq!(ncm.get_key(), key);
    assert_eq!(ncm.get_data(), data);
    assert_eq!(ncm.get_image(), image);
    let mut again = open(sample_container());
    assert_eq!(again.get_key(), key);
    assert_eq!(again.get_info(), info);
}

#[test]
fn short_source_is_no_container() {
    let whole = sample_container();
    for len in 0..10 {
        assert_eq!(open_error(whole[..len].to_vec()), Errors::InvalidFileType);
    }
}

#[test]
fn source_without_magic_is_no_container() {
    for at in 0..8 {
        let mut bytes = sample_container();
        bytes[at] ^= 0x01;
        assert_eq!(open_error(bytes), Errors::InvalidFileType);
    }
    assert_eq!(open_error(vec![0u8; 4096]), Errors::InvalidFileType);
    let mut reversed = sample_container();
    reversed[..8].reverse();
    assert_eq!(open_error(reversed), Errors::InvalidFileType);
}

#[test]
fn reserved_bytes_and_gap_are_not_interpreted() {
    let mut bytes = sample_container();
    bytes[8] = 0xff;
    bytes[9] = 0x00;
    let gap = 10 + 4 + key_block(&KEY).len() + 4 + info_block(INFO.as_bytes()).len();
    for at in gap..gap + 9 {
        bytes[at] = 0x5a;
    }
    let mut ncm = open(bytes);
    assert_eq!(ncm.get_key().unwrap(), KEY);
    assert_eq!(ncm.get_info().unwrap(), sample_info());
    assert_eq!(ncm.get_data().unwrap(), sample_audio());
}

#[test]
fn source_that_ends_in_a_length_field() {
    let whole = sample_container();
    let key_len = key_block(&KEY).len();
    let info_len = info_block(INFO.as_bytes()).len();
    for len in 10..14 {
        assert_eq!(open_error(whole[..len].to_vec()), Errors::InvalidKeyLength);
    }
    let info_at = 14 + key_len;
    for len in [14, 15, info_at - 1, info_at, info_at + 3] {
        assert_eq!(open_error(whole[..len].to_vec()), Errors::InvalidInfoLength);
    }
    let image_at = info_at + 4 + info_len + 9;
    for len in [info_at + 4, info_at + 5, image_at - 9, image_at - 1, image_at, image_at + 3] {
        assert_eq!(open_error(whole[..len].to_vec()), Errors::InvalidImageLength);
    }
    assert!(Ncmdump::from_reader(Reader::new(whole[..image_at + 4].to_vec())).is_ok());
}

#[test]
fn length_that_reaches_past_the_source() {
    let mut bytes = b"CTENFDAM".to_vec();
    bytes.extend_from_slice(&[0, 0]);
    bytes.extend_from_slice(&[0xff, 0xff, 0xff, 0xff]);
    bytes.extend_from_slice(&[0u8; 64]);
    assert_eq!(open_error(bytes), Errors::InvalidInfoLength);
}

#[test]
fn truncated_sections_are_errors() {
    let whole = sample_container();
    let key_len = key_block(&KEY).len();
    let info_len = info_block(INFO.as_bytes()).len();
    let image_start = 14 + key_len + 4 + info_len + 9 + 4;

    let mut ncm = open(whole[..image_start + 39008].to_vec());
    assert_eq!(ncm.get_image(), Err(Errors::UnexpectedEof));
    assert_eq!(ncm.get_data(), Err(Errors::UnexpectedEof));
    assert_eq!(ncm.get_key().unwrap(), KEY);
    assert_eq!(ncm.get_info().unwrap(), sample_info());

    let mut ncm = open(whole[..image_start].to_vec());
    assert_eq!(ncm.get_image(), Err(Errors::UnexpectedEof));
    assert_eq!(ncm.get_data(), Err(Errors::UnexpectedEof));

    let mut ncm = open(whole[..image_start + 39009].to_vec());
    assert_eq!(ncm.get_image().unwrap(), sample_image());
    assert_eq!(ncm.get_data(), Ok(vec![]));
}

#[test]
fn empty_image_is_valid() {
    let audio = keystream(&KEY, b"fLaC and more");
    let bytes = container(&key_block(&KEY), &info_block(INFO.as_bytes()), &[], &audio);
    let mut ncm = open(bytes);
    assert_eq!(ncm.get_image(), Ok(vec![]));
    assert_eq!(ncm.get_data().unwrap(), b"fLaC and more");
}

#[test]
fn container_need_not_begin_the_source() {
    let mut bytes = vec![0xaa; 5];
    bytes.extend(sample_container());
    let mut reader = Reader::new(bytes);
    assert!(reader.seek(5));
    let mut ncm = Ncmdump::from_reader(reader).unwrap();
    assert_eq!(ncm.get_key().unwrap(), KEY);
    assert_eq!(ncm.get_image().unwrap(), sample_image());
    assert_eq!(ncm.get_data().unwrap(), sample_audio());
    assert_eq!(ncm.get_info().unwrap(), sample_info());
}

#[test]
fn key_of_other_lengths() {
    for len in [1usize, 15, 16, 31, 200] {
        let raw_key: Vec<u8> = (0..len).map(|i| (i * 5 + 1) as u8).collect();
        let audio = keystream(&raw_key, b"some audio");
        let bytes = container(&key_block(&raw_key), &info_block(INFO.as_bytes()), &[1, 2], &audio);
        let mut ncm = open(bytes);
        assert_eq!(ncm.get_key().unwrap(), raw_key);
        assert_eq!(ncm.get_data().unwrap(), b"some audio");
    }
}

#[test]
fn empty_key_has_no_key_box() {
    let bytes = container(&key_block(&[]), &info_block(INFO.as_bytes()), &[1, 2], b"audio");
    let mut ncm = open(bytes);
    assert_eq!(ncm.get_key(), Ok(vec![]));
    assert_eq!(ncm.get_data(), Err(Errors::DecryptError));
    assert_eq!(ncm.get_image(), Ok(vec![1, 2]));
}

#[test]
fn key_block_that_does_not_decrypt() {
    let info = info_block(INFO.as_bytes());
    let short: Vec<u8> =
        encrypt_ecb(b"neteasecloudmusi", &HEADER_KEY).iter().map(|b| b ^ 0x64).collect();
    let mut unmasked = key_block(&KEY);
    for byte in unmasked.iter_mut() {
        *byte ^= 0x64;
    }
    let mut broken = key_block(&KEY);
    let last = broken.len() - 1;
    broken[last] ^= 0x80;
    for block in [vec![], vec![0x64; 15], vec![0x64; 17], short, unmasked, broken] {
        let mut ncm = open(container(&block, &info, &[1, 2], b"audio"));
        assert_eq!(ncm.get_key(), Err(Errors::DecryptError));
        assert_eq!(ncm.get_data(), Err(Errors::DecryptError));
        assert_eq!(ncm.get_info().unwrap(), sample_info());
    }
}

#[test]
fn info_block_that_does_not_decode() {
    let key = key_block(&KEY);
    let good = info_block(INFO.as_bytes());
    let mut bad_base64 = good.clone();
    bad_base64[30] = b'*' ^ 0x63;
    let mut bad_length = good.clone();
    bad_length.pop();
    let not_utf8 = info_block(&[b'{', 0xff, 0xfe, b'}']);
    let not_json = info_block(b"music name");
    let no_record = info_block(br#"{"musicName":"a"}"#);
    for block in [vec![], good[..21].to_vec(), good[..22].to_vec(), bad_base64, bad_length, not_utf8, not_json, no_record] {
        let mut ncm = open(container(&key, &block, &[1, 2], b"audio"));
        assert_eq!(ncm.get_info(), Err(Errors::InfoDecodeError));
        assert_eq!(ncm.get_key().unwrap(), KEY);
    }
}

#[test]
fn check_format_compares_eight_bytes() {
    assert_eq!(Ncmdump::check_format(b"CTENFDAM\x01\x70"), Ok(true));
    assert_eq!(Ncmdump::check_format(b"CTENFDAM"), Ok(true));
    assert_eq!(Ncmdump::check_format(&0x4d41_4446_4e45_5443u64.to_le_bytes()), Ok(true));
    assert_eq!(Ncmdump::check_format(b"CTENFDA"), Ok(false));
    assert_eq!(Ncmdump::check_format(b""), Ok(false));
    assert_eq!(Ncmdump::check_format(b"MADFNETC\x01\x70"), Ok(false));
    assert_eq!(Ncmdump::check_format(b"CTENFDAN\x01\x70"), Ok(false));
}

#[test]
fn get_length_reads_least_significant_byte_first() {
    assert_eq!(Ncmdump::get_length(&[0x78, 0x56, 0x34, 0x12]), Ok(0x1234_5678));
    assert_eq!(Ncmdump::get_length(&[0x80, 0, 0, 0]), Ok(128));
    assert_eq!(Ncmdump::get_length(&[0, 0, 0, 0]), Ok(0));
    assert_eq!(Ncmdump::get_length(&[0xff, 0xff, 0xff, 0xff]), Ok(0xffff_ffff));
    assert_eq!(Ncmdump::get_length(&[1, 2, 3]), Err(Errors::InvalidLengthField));
    assert_eq!(Ncmdump::get_length(&[1, 2, 3, 4, 5]), Err(Errors::InvalidLengthField));
    assert_eq!(Ncmdump::get_length(&[]), Err(Errors::InvalidLengthField));
}
