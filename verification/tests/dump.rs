use ncmdump::dump::{bytes_to_write, open_mode, Action, Dump, Event, OpenMode, Stage};
use ncmdump::metadata::{inject_metadata, TrackMetadata};
use ncmdump::errors::{Error, Policy};
use ncmdump::format::{Codec, FileType};

#[test]
fn test_open_mode() {
    assert_eq!(open_mode(false, false), Ok(OpenMode::Create));
    assert_eq!(open_mode(false, true), Ok(OpenMode::Create));
    assert_eq!(open_mode(true, true), Ok(OpenMode::Truncate));
    assert_eq!(open_mode(true, false), Err(Error::Exists));
}

#[test]
fn test_unknown_container_is_given_up_at_once() {
    let (mut dump, action) = Dump::new(FileType::Other, false);
    assert_eq!(action, Action::Fail(Error::Format));
    assert_eq!(dump.stage(), Stage::Failed);
    assert_eq!(dump.step(Event::Head(vec![0x66, 0x4C, 0x61, 0x43])), Action::Stop);
    assert_eq!(dump.stage(), Stage::Failed);
}

#[test]
fn test_qmc_file_is_copied_through() {
    let (mut dump, action) = Dump::new(FileType::Qmc, false);
    assert_eq!(action, Action::ReadHead);
    assert_eq!(dump.stage(), Stage::Sniffing);
    assert_eq!(
        dump.step(Event::Head(vec![0x66, 0x4C, 0x61, 0x43])),
        Action::Probe(Codec::Flac)
    );
    assert_eq!(dump.stage(), Stage::Probing(Codec::Flac));
    assert_eq!(
        dump.step(Event::Probed { exists: false }),
        Action::Open(OpenMode::Create)
    );
    assert_eq!(dump.stage(), Stage::Copying(Codec::Flac));
    assert_eq!(dump.step(Event::Chunk(vec![1, 2, 3])), Action::Read { done: 3 });
    assert_eq!(dump.step(Event::Chunk(vec![4])), Action::Read { done: 1 });
    assert_eq!(
        dump.step(Event::Chunk(vec![])),
        Action::Write {
            payload: vec![0x66, 0x4C, 0x61, 0x43, 1, 2, 3, 4],
            tagged: false
        }
    );
    assert_eq!(dump.stage(), Stage::Done);
    assert_eq!(dump.step(Event::Chunk(vec![5])), Action::Stop);
    assert_eq!(dump.stage(), Stage::Done);
}

#[test]
fn test_ncm_file_is_tagged() {
    let (mut dump, action) = Dump::new(FileType::Ncm, true);
    assert_eq!(action, Action::ReadHead);
    assert_eq!(
        dump.step(Event::Head(vec![0x49, 0x44, 0x33, 0x03])),
        Action::Probe(Codec::Mp3)
    );
    assert_eq!(
        dump.step(Event::Probed { exists: true }),
        Action::Open(OpenMode::Truncate)
    );
    assert_eq!(
        dump.step(Event::Chunk(vec![])),
        Action::Write {
            payload: vec![0x49, 0x44, 0x33, 0x03],
            tagged: true
        }
    );
}

#[test]
fn test_unknown_payload_is_refused_before_any_output() {
    let (mut dump, _) = Dump::new(FileType::Qmc, true);
    assert_eq!(
        dump.step(Event::Head(vec![0x00, 0x01, 0x02, 0x03])),
        Action::Fail(Error::Format)
    );
    assert_eq!(dump.stage(), Stage::Failed);
    assert_eq!(dump.step(Event::Probed { exists: false }), Action::Stop);
    assert_eq!(dump.step(Event::Chunk(vec![1])), Action::Stop);
    assert_eq!(dump.step(Event::Chunk(vec![])), Action::Stop);
}

#[test]
fn test_short_head_is_refused() {
    let (mut dump, _) = Dump::new(FileType::Qmc, false);
    assert_eq!(
        dump.step(Event::Head(vec![0x66, 0x4C, 0x61])),
        Action::Fail(Error::Format)
    );
    let (mut dump, _) = Dump::new(FileType::Ncm, false);
    assert_eq!(dump.step(Event::Head(vec![])), Action::Fail(Error::Format));
}

#[test]
fn test_existing_output_is_kept_without_overwrite() {
    let (mut dump, _) = Dump::new(FileType::Qmc, false);
    dump.step(Event::Head(vec![0x66, 0x4C, 0x61, 0x43]));
    assert_eq!(
        dump.step(Event::Probed { exists: true }),
        Action::Fail(Error::Exists)
    );
    assert_eq!(dump.stage(), Stage::Failed);
    assert_eq!(dump.step(Event::Chunk(vec![1, 2])), Action::Stop);
    assert_eq!(dump.step(Event::Chunk(vec![])), Action::Stop);
}

#[test]
fn test_existing_output_is_replaced_with_overwrite() {
    let (mut dump, _) = Dump::new(FileType::Qmc, true);
    dump.step(Event::Head(vec![0x66, 0x4C, 0x61, 0x43]));
    assert_eq!(
        dump.step(Event::Probed { exists: true }),
        Action::Open(OpenMode::Truncate)
    );
    assert_eq!(dump.stage(), Stage::Copying(Codec::Flac));
}

#[test]
fn test_outside_failure_gives_the_file_up() {
    let (mut dump, _) = Dump::new(FileType::Qmc, false);
    dump.step(Event::Head(vec![0x66, 0x4C, 0x61, 0x43]));
    dump.step(Event::Probed { exists: false });
    dump.step(Event::Chunk(vec![1, 2, 3]));
    assert_eq!(
        dump.step(Event::Broken(Error::Unknow)),
        Action::Fail(Error::Unknow)
    );
    assert_eq!(dump.stage(), Stage::Failed);
    assert_eq!(dump.step(Event::Chunk(vec![])), Action::Stop);

    let (mut dump, _) = Dump::new(FileType::Ncm, false);
    assert_eq!(
        dump.step(Event::Broken(Error::Dump(String::from("bad key")))),
        Action::Fail(Error::Dump(String::from("bad key")))
    );
}

#[test]
fn test_event_out_of_turn_gives_the_file_up() {
    let (mut dump, _) = Dump::new(FileType::Qmc, false);
    assert_eq!(
        dump.step(Event::Chunk(vec![1, 2, 3])),
        Action::Fail(Error::Unknow)
    );
    assert_eq!(dump.stage(), Stage::Failed);

    let (mut dump, _) = Dump::new(FileType::Qmc, false);
    dump.step(Event::Head(vec![0x66, 0x4C, 0x61, 0x43]));
    assert_eq!(
        dump.step(Event::Head(vec![0x66, 0x4C, 0x61, 0x43])),
        Action::Fail(Error::Unknow)
    );

    let (mut dump, _) = Dump::new(FileType::Qmc, false);
    dump.step(Event::Head(vec![0x66, 0x4C, 0x61, 0x43]));
    dump.step(Event::Probed { exists: false });
    assert_eq!(
        dump.step(Event::Probed { exists: false }),
        Action::Fail(Error::Unknow)
    );
}

#[test]
fn test_one_bad_file_among_good_ones() {
    let heads: Vec<Vec<u8>> = vec![
        vec![0x66, 0x4C, 0x61, 0x43],
        vec![0x49, 0x44, 0x33, 0x04],
        vec![0xDE, 0xAD, 0xBE, 0xEF],
        vec![0x66, 0x4C, 0x61, 0x43],
    ];
    let mut written = 0;
    let mut failures = Vec::new();
    for head in heads {
        let (mut dump, _) = Dump::new(FileType::Qmc, false);
        let mut action = dump.step(Event::Head(head));
        loop {
            action = match action {
                Action::Probe(_) => dump.step(Event::Probed { exists: false }),
                Action::Open(_) => dump.step(Event::Chunk(vec![7, 7])),
                Action::Read { .. } => dump.step(Event::Chunk(vec![])),
                Action::Write { .. } => {
                    written += 1;
                    break;
                }
                Action::Fail(error) => {
                    assert_eq!(error.policy(), Policy::SkipItem);
                    failures.push(error);
                    break;
                }
                other => panic!("{:?}", other),
            };
        }
    }
    assert_eq!(written, 3);
    assert_eq!(failures, vec![Error::Format]);
}

#[test]
fn test_bytes_to_write() {
    let metadata = TrackMetadata {
        title: String::from("Song"),
        artists: vec![(String::from("Ann"), 1)],
        album: String::from("Album"),
        duration: 1000,
        cover: None,
    };
    let payload = vec![0x49, 0x44, 0x33, 0x04, 0, 0, 0, 0, 0, 0, 0xFF, 0xFB, 1, 2];
    assert_eq!(
        bytes_to_write(payload.clone(), false, Some(&metadata)),
        (payload.clone(), None)
    );
    assert_eq!(
        bytes_to_write(payload.clone(), true, None),
        (payload.clone(), None)
    );
    let tagged = inject_metadata(&payload, &metadata).unwrap();
    assert!(tagged.ends_with(&[0xFF, 0xFB, 1, 2]));
    assert_eq!(
        bytes_to_write(payload.clone(), true, Some(&metadata)),
        (tagged, None)
    );
    let unknown = vec![1, 2, 3, 4, 5];
    assert_eq!(
        bytes_to_write(unknown.clone(), true, Some(&metadata)),
        (unknown, Some(Error::Format))
    );
}
