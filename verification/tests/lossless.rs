use ncmdump::errors::Error;
use ncmdump::lossless::{fill_tag, inject, keep_blocks, make_tag, splice};
use ncmdump::metadata::{finish_payload, inject_metadata, TrackMetadata, MAX_COVER_SIZE};

fn sample() -> TrackMetadata {
    TrackMetadata {
        title: String::from("Song"),
        artists: vec![(String::from("Ann"), 1), (String::from("Bob"), 2)],
        album: String::from("Album"),
        duration: 215000,
        cover: Some(vec![0xFF, 0xD8, 0xFF, 0xE0, 1, 2, 3]),
    }
}

fn audio() -> Vec<u8> {
    vec![0xFF, 0xF8, 0xC9, 0x18, 0, 1, 2, 3, 4, 5, 6, 7, 8, 9]
}

fn lossless_payload(tag: &mut metaflac::Tag) -> Vec<u8> {
    let mut info = metaflac::block::StreamInfo::new();
    info.min_block_size = 4096;
    info.max_block_size = 4096;
    info.sample_rate = 44100;
    info.num_channels = 2;
    info.bits_per_sample = 16;
    info.total_samples = 1000;
    info.md5 = vec![0; 16];
    tag.set_streaminfo(info);
    let mut payload = Vec::new();
    tag.write_to(&mut payload).unwrap();
    payload.extend_from_slice(&audio());
    payload
}

fn values(tag: &metaflac::Tag, key: &str) -> Vec<String> {
    match tag.get_vorbis(key) {
        Some(found) => found.map(String::from).collect(),
        None => Vec::new(),
    }
}

#[test]
fn test_lossless_make_tag() {
    let tag = make_tag(&sample());
    assert_eq!(values(&tag, "TITLE"), vec!["Song"]);
    assert_eq!(values(&tag, "ARTIST"), vec!["Ann,Bob"]);
    assert_eq!(values(&tag, "ALBUM"), vec!["Album"]);
    assert_eq!(values(&tag, "LENGTH"), vec!["215000"]);
    assert_eq!(tag.vorbis_comments().unwrap().comments.len(), 4);
    assert_eq!(tag.pictures().count(), 1);
    assert_eq!(tag.blocks().count(), 2);
    let mut plain = sample();
    plain.cover = None;
    let tag = make_tag(&plain);
    assert_eq!(tag.pictures().count(), 0);
    assert_eq!(tag.blocks().count(), 1);
}

#[test]
fn test_lossless_fill_tag() {
    let mut tag = metaflac::Tag::new();
    fill_tag(&mut tag, &sample());
    assert_eq!(values(&tag, "TITLE"), vec!["Song"]);
    assert_eq!(values(&tag, "ARTIST"), vec!["Ann,Bob"]);
    assert_eq!(values(&tag, "ALBUM"), vec!["Album"]);
    assert_eq!(values(&tag, "LENGTH"), vec!["215000"]);
    assert_eq!(tag.vorbis_comments().unwrap().comments.len(), 4);
    let pictures: Vec<&metaflac::block::Picture> = tag.pictures().collect();
    assert_eq!(pictures.len(), 1);
    assert_eq!(pictures[0].mime_type, "image/jpeg");
    assert_eq!(
        pictures[0].picture_type,
        metaflac::block::PictureType::CoverFront
    );
    assert_eq!(pictures[0].data, vec![0xFF, 0xD8, 0xFF, 0xE0, 1, 2, 3]);
}

#[test]
fn test_lossless_fill_tag_replaces_and_keeps() {
    let mut tag = metaflac::Tag::new();
    tag.set_vorbis("TITLE", vec!["Old", "Older"]);
    tag.set_vorbis("GENRE", vec!["Jazz"]);
    tag.add_picture(
        "image/png",
        metaflac::block::PictureType::CoverFront,
        vec![1],
    );
    tag.add_picture("image/png", metaflac::block::PictureType::Artist, vec![2]);
    fill_tag(&mut tag, &sample());
    assert_eq!(values(&tag, "TITLE"), vec!["Song"]);
    assert_eq!(values(&tag, "GENRE"), vec!["Jazz"]);
    let pictures: Vec<&metaflac::block::Picture> = tag.pictures().collect();
    assert_eq!(pictures.len(), 2);
    assert_eq!(pictures[0].picture_type, metaflac::block::PictureType::Artist);
    assert_eq!(pictures[0].data, vec![2]);
    assert_eq!(
        pictures[1].picture_type,
        metaflac::block::PictureType::CoverFront
    );
    assert_eq!(pictures[1].mime_type, "image/jpeg");
}

#[test]
fn test_lossless_fill_tag_without_cover() {
    let mut metadata = sample();
    metadata.cover = None;
    let mut tag = metaflac::Tag::new();
    tag.add_picture(
        "image/png",
        metaflac::block::PictureType::CoverFront,
        vec![1],
    );
    fill_tag(&mut tag, &metadata);
    assert_eq!(values(&tag, "TITLE"), vec!["Song"]);
    let pictures: Vec<&metaflac::block::Picture> = tag.pictures().collect();
    assert_eq!(pictures.len(), 1);
    assert_eq!(pictures[0].data, vec![1]);
}

fn framed() -> Vec<u8> {
    let mut payload = b"fLaC".to_vec();
    payload.extend_from_slice(&[0x00, 0, 0, 2, 0xA1, 0xA2]);
    payload.extend_from_slice(&[0x04, 0, 0, 1, 0xB1]);
    payload.extend_from_slice(&[0x06, 0, 0, 5, 0, 0, 0, 4, 0xC1]);
    payload.extend_from_slice(&[0x86, 0, 0, 5, 0, 0, 0, 3, 0xD1]);
    payload.extend_from_slice(&[0xFF, 0xF8, 0x01]);
    payload
}

#[test]
fn test_keep_blocks() {
    let payload = framed();
    assert_eq!(
        keep_blocks(&payload, true),
        Some((
            vec![0x00, 0, 0, 2, 0xA1, 0xA2, 0x06, 0, 0, 5, 0, 0, 0, 4, 0xC1],
            33
        ))
    );
    assert_eq!(
        keep_blocks(&payload, false),
        Some((
            vec![
                0x00, 0, 0, 2, 0xA1, 0xA2, 0x06, 0, 0, 5, 0, 0, 0, 4, 0xC1, 0x06, 0, 0, 5, 0, 0,
                0, 3, 0xD1
            ],
            33
        ))
    );
}

#[test]
fn test_keep_blocks_of_broken_framing() {
    let payload = framed();
    assert_eq!(keep_blocks(&payload[..32], true), None);
    assert_eq!(keep_blocks(&payload[..24], true), None);
    assert_eq!(keep_blocks(&payload[..7], true), None);
    assert_eq!(keep_blocks(&payload[..4], true), None);
    assert_eq!(keep_blocks(&[], true), None);
    assert!(keep_blocks(&payload[..33], true).is_some());
    let mut unending = payload.clone();
    unending[24] = 0x06;
    assert_eq!(keep_blocks(&unending, false), None);
    let mut long = payload.clone();
    long[25] = 0xFF;
    assert_eq!(keep_blocks(&long, false), None);
}

#[test]
fn test_keep_blocks_with_a_long_block() {
    let mut payload = b"fLaC".to_vec();
    payload.extend_from_slice(&[0x81, 0x01, 0x00, 0x02]);
    payload.extend(std::iter::repeat(7).take(0x1_0002));
    payload.extend_from_slice(&[9, 9]);
    let (kept, end) = keep_blocks(&payload, true).unwrap();
    assert_eq!(end, 8 + 0x1_0002);
    assert_eq!(kept.len(), 4 + 0x1_0002);
    assert_eq!(&kept[..5], &[0x01, 0x01, 0x00, 0x02, 7]);
}

#[test]
fn test_splice() {
    let payload = framed();
    let fresh = vec![0x66, 0x4C, 0x61, 0x43, 0x84, 0, 0, 1, 0xE1];
    assert_eq!(
        splice(&payload, true, fresh.clone()),
        Ok(vec![
            0x66, 0x4C, 0x61, 0x43, 0x00, 0, 0, 2, 0xA1, 0xA2, 0x06, 0, 0, 5, 0, 0, 0, 4, 0xC1,
            0x84, 0, 0, 1, 0xE1, 0xFF, 0xF8, 0x01
        ])
    );
    assert_eq!(splice(&payload, true, Vec::new()), Err(Error::Metadata));
    assert_eq!(
        splice(&payload, true, vec![0x66, 0x4C, 0x61]),
        Err(Error::Metadata)
    );
    assert_eq!(
        splice(&payload, true, vec![0x49, 0x44, 0x33, 0x04, 0x84, 0, 0, 0]),
        Err(Error::Metadata)
    );
    assert_eq!(
        splice(&payload, false, vec![0x66, 0x4C, 0x61, 0x43]).map(|bytes| bytes.len()),
        Ok(payload.len() - 5)
    );
    assert_eq!(
        splice(&payload[..30], true, fresh),
        Err(Error::Metadata)
    );
}

#[test]
fn test_inject_into_lossless_payload() {
    let payload = lossless_payload(&mut metaflac::Tag::new());
    let written = inject(&payload, &sample()).unwrap();
    assert_ne!(written, payload);
    assert!(written.starts_with(b"fLaC"));
    assert!(written.ends_with(&audio()));
    let tag = metaflac::Tag::read_from(&mut std::io::Cursor::new(&written)).unwrap();
    assert_eq!(values(&tag, "TITLE"), vec!["Song"]);
    assert_eq!(values(&tag, "ARTIST"), vec!["Ann,Bob"]);
    assert_eq!(values(&tag, "ALBUM"), vec!["Album"]);
    assert_eq!(values(&tag, "LENGTH"), vec!["215000"]);
    assert_eq!(tag.pictures().count(), 1);
    assert!(tag.get_streaminfo().is_some());
    assert_eq!(
        metaflac::Tag::skip_metadata(&mut std::io::Cursor::new(&written)),
        audio()
    );
    assert_eq!(inject_metadata(&payload, &sample()).unwrap().len(), written.len());
}

#[test]
fn test_inject_into_lossless_payload_with_comments() {
    let mut old = metaflac::Tag::new();
    old.set_vorbis("GENRE", vec!["Jazz"]);
    old.set_vorbis("TITLE", vec!["Old"]);
    let payload = lossless_payload(&mut old);
    let written = inject(&payload, &sample()).unwrap();
    assert!(written.ends_with(&audio()));
    let tag = metaflac::Tag::read_from(&mut std::io::Cursor::new(&written)).unwrap();
    assert_eq!(values(&tag, "TITLE"), vec!["Song"]);
    assert_eq!(values(&tag, "GENRE"), Vec::<String>::new());
    assert_eq!(
        tag.get_blocks(metaflac::BlockType::VorbisComment).count(),
        1
    );
    assert_eq!(tag.get_blocks(metaflac::BlockType::StreamInfo).count(), 1);
}

#[test]
fn test_inject_into_lossless_payload_with_pictures() {
    let mut old = metaflac::Tag::new();
    old.add_picture(
        "image/png",
        metaflac::block::PictureType::CoverFront,
        vec![1],
    );
    old.add_picture("image/png", metaflac::block::PictureType::Artist, vec![2]);
    let payload = lossless_payload(&mut old);
    let written = inject(&payload, &sample()).unwrap();
    let tag = metaflac::Tag::read_from(&mut std::io::Cursor::new(&written)).unwrap();
    let pictures: Vec<&metaflac::block::Picture> = tag.pictures().collect();
    assert_eq!(pictures.len(), 2);
    assert_eq!(pictures[0].data, vec![2]);
    assert_eq!(pictures[1].data, vec![0xFF, 0xD8, 0xFF, 0xE0, 1, 2, 3]);

    let mut plain = sample();
    plain.cover = None;
    let written = inject(&payload, &plain).unwrap();
    let tag = metaflac::Tag::read_from(&mut std::io::Cursor::new(&written)).unwrap();
    let pictures: Vec<&metaflac::block::Picture> = tag.pictures().collect();
    assert_eq!(pictures.len(), 2);
    assert_eq!(pictures[0].data, vec![1]);
    assert_eq!(pictures[1].data, vec![2]);
    assert_eq!(values(&tag, "ALBUM"), vec!["Album"]);
}

#[test]
fn test_inject_refuses_a_cover_too_large() {
    let payload = lossless_payload(&mut metaflac::Tag::new());
    let mut metadata = sample();
    metadata.cover = Some(vec![0; MAX_COVER_SIZE + 1]);
    assert_eq!(inject(&payload, &metadata), Err(Error::Metadata));
    metadata.cover = Some(vec![0; MAX_COVER_SIZE]);
    let written = inject(&payload, &metadata).unwrap();
    let tag = metaflac::Tag::read_from(&mut std::io::Cursor::new(&written)).unwrap();
    assert_eq!(tag.pictures().next().unwrap().data.len(), MAX_COVER_SIZE);
    assert_eq!(
        metaflac::Tag::skip_metadata(&mut std::io::Cursor::new(&written)),
        audio()
    );
}

#[test]
fn test_lossless_inject_refuses_other_payloads() {
    assert_eq!(inject(&[], &sample()), Err(Error::Format));
    assert_eq!(
        inject(&[0x49, 0x44, 0x33, 0x04, 0, 0, 0, 0, 0, 0], &sample()),
        Err(Error::Format)
    );
    let broken = vec![0x66, 0x4C, 0x61, 0x43, 0, 0, 0, 0x22];
    assert_eq!(inject(&broken, &sample()), Err(Error::Metadata));
    assert_eq!(
        inject(&[0x66, 0x4C, 0x61, 0x43], &sample()),
        Err(Error::Metadata)
    );
}

#[test]
fn test_finish_lossless_payload() {
    let payload = lossless_payload(&mut metaflac::Tag::new());
    let metadata = sample();
    let (bytes, dropped) = finish_payload(payload.clone(), Some(&metadata));
    assert_eq!(dropped, None);
    assert!(bytes.len() > payload.len());
    assert!(bytes.ends_with(&audio()));
    assert_eq!(finish_payload(payload.clone(), None), (payload, None));
}

#[test]
fn test_inject_into_damaged_lossless_payloads() {
    let mut old = metaflac::Tag::new();
    old.set_vorbis("TITLE", vec!["Old"]);
    old.add_picture(
        "image/png",
        metaflac::block::PictureType::CoverFront,
        vec![1, 2, 3],
    );
    let payload = lossless_payload(&mut old);
    let metadata = sample();
    for cut in 0..payload.len() {
        let written = inject(&payload[..cut], &metadata);
        if cut < 4 {
            assert_eq!(written, Err(Error::Format));
        } else if let Ok(bytes) = written {
            assert!(bytes.starts_with(b"fLaC"));
        }
    }
    for place in 4..payload.len() {
        for value in [0x00, 0x04, 0x06, 0x7F, 0x80, 0x84, 0xFF] {
            let mut damaged = payload.clone();
            damaged[place] = value;
            if let Ok(bytes) = inject(&damaged, &metadata) {
                assert!(bytes.starts_with(b"fLaC"));
            }
        }
    }
}

#[test]
fn test_lossless_inject_is_owed_where_the_payload_takes_it() {
    let payload = lossless_payload(&mut metaflac::Tag::new());
    let mut metadata = sample();
    assert!(metadata.fits());
    assert!(keep_blocks(&payload, true).is_some());
    assert!(inject(&payload, &metadata).is_ok());
    metadata.duration = (1 << 32) + 7;
    let written = inject(&payload, &metadata).unwrap();
    let tag = metaflac::Tag::read_from(&mut std::io::Cursor::new(&written)).unwrap();
    assert_eq!(values(&tag, "LENGTH"), vec!["7"]);
    assert_eq!(inject(&payload[..payload.len() - 20], &metadata), Err(Error::Metadata));
}
