use std::path::PathBuf;

use ncmdump::errors::Error;
use ncmdump::format::{has_prefix, Codec, FileType};
use ncmdump::item::WorkItem;
use ncmdump::qmcdump::QmcDump;

#[test]
fn test_detect_ncm() {
    let head = [0x43, 0x54, 0x45, 0x4E, 0x46, 0x44, 0x41, 0x4D];
    assert_eq!(FileType::detect(&head), FileType::Ncm);
    let longer = [0x43, 0x54, 0x45, 0x4E, 0x46, 0x44, 0x41, 0x4D, 0x01, 0x02];
    assert_eq!(FileType::detect(&longer), FileType::Ncm);
    let off = [0x43, 0x54, 0x45, 0x4E, 0x46, 0x44, 0x41, 0x4E];
    assert_eq!(FileType::detect(&off), FileType::Other);
}

#[test]
fn test_detect_qmc() {
    let lossless = [0xA5, 0x06, 0xB7, 0x89, 0, 0, 0, 0];
    assert_eq!(FileType::detect(&lossless), FileType::Qmc);
    let lossy = [0x8A, 0x0E, 0xE5, 0x77, 1, 2, 3, 4];
    assert_eq!(FileType::detect(&lossy), FileType::Qmc);
    let neither = [0xA5, 0x06, 0xB7, 0x88, 0, 0, 0, 0];
    assert_eq!(FileType::detect(&neither), FileType::Other);
}

#[test]
fn test_detect_short_head() {
    assert_eq!(FileType::detect(&[]), FileType::Other);
    assert_eq!(FileType::detect(&[0xA5, 0x06, 0xB7, 0x89]), FileType::Other);
    assert_eq!(
        FileType::detect(&[0x43, 0x54, 0x45, 0x4E, 0x46, 0x44, 0x41]),
        FileType::Other
    );
    assert_eq!(FileType::detect(&[0x8A, 0x0E, 0xE5, 0, 0, 0, 0]), FileType::Other);
}

#[test]
fn test_is_supported() {
    assert!(FileType::Ncm.is_supported());
    assert!(FileType::Qmc.is_supported());
    assert!(!FileType::Other.is_supported());
}

#[test]
fn test_detect_codec() {
    assert_eq!(Codec::detect(&[0x66, 0x4C, 0x61, 0x43]), Ok(Codec::Flac));
    assert_eq!(Codec::detect(&[0x49, 0x44, 0x33, 0x04]), Ok(Codec::Mp3));
    assert_eq!(Codec::detect(&[0x49, 0x44, 0x33, 0xFF, 0x00]), Ok(Codec::Mp3));
    assert_eq!(Codec::detect(&[0x66, 0x4C, 0x61, 0x44]), Err(Error::Format));
    assert_eq!(Codec::detect(&[0x00, 0x00, 0x00, 0x00]), Err(Error::Format));
}

#[test]
fn test_detect_codec_short_head() {
    assert_eq!(Codec::detect(&[]), Err(Error::Format));
    assert_eq!(Codec::detect(&[0x49, 0x44, 0x33]), Err(Error::Format));
    assert_eq!(Codec::detect(&[0x66, 0x4C, 0x61]), Err(Error::Format));
}

#[test]
fn test_extension() {
    assert_eq!(Codec::Flac.extension(), "flac");
    assert_eq!(Codec::Mp3.extension(), "mp3");
}

#[test]
fn test_has_prefix() {
    assert!(has_prefix(&[1, 2, 3], &[1, 2]));
    assert!(has_prefix(&[1, 2, 3], &[1, 2, 3]));
    assert!(has_prefix(&[1, 2, 3], &[]));
    assert!(!has_prefix(&[1, 2, 3], &[1, 3]));
    assert!(!has_prefix(&[1, 2], &[1, 2, 3]));
    assert!(!has_prefix(&[], &[1]));
}

#[test]
fn test_qmc_streams_decrypt_to_known_codecs() {
    let lossless = vec![0xA5, 0x06, 0xB7, 0x89, 9, 9, 9, 9, 9];
    assert_eq!(FileType::detect(&lossless), FileType::Qmc);
    let plain = QmcDump::from_reader(lossless).unwrap().get_data().unwrap();
    assert_eq!(Codec::detect(&plain), Ok(Codec::Flac));

    let lossy = vec![0x8A, 0x0E, 0xE5, 0x00, 9, 9, 9, 9];
    assert_eq!(FileType::detect(&lossy), FileType::Qmc);
    let plain = QmcDump::from_reader(lossy).unwrap().get_data().unwrap();
    assert_eq!(Codec::detect(&plain), Ok(Codec::Mp3));
}

#[test]
fn test_work_item() {
    let head = [0xA5, 0x06, 0xB7, 0x89, 0, 0, 0, 0];
    let item = WorkItem::new(
        PathBuf::from("music/song.qmcflac"),
        String::from("song.qmcflac"),
        &head,
        4096,
    );
    assert_eq!(item.get_name(), "song.qmcflac");
    assert_eq!(item.get_path(), &PathBuf::from("music/song.qmcflac"));
    assert_eq!(item.get_format(), FileType::Qmc);
    assert_eq!(item.get_size(), 4096);

    let short = WorkItem::new(PathBuf::from("x"), String::from("x"), &head[..7], 7);
    assert_eq!(short.get_format(), FileType::Other);
}
