use ncmdump::errors::{Error, Policy};

#[test]
fn test_messages() {
    assert_eq!(Error::Unknow.message(), "Unknow error");
    assert_eq!(
        Error::Path(String::from("a/b")).message(),
        "Can't resolve the path: a/b"
    );
    assert_eq!(Error::Format.message(), "Invalid file format");
    assert_eq!(Error::NoTarget.message(), "No target can be converted");
    assert_eq!(Error::Metadata.message(), "Can't get file's metadata");
    assert_eq!(
        Error::Worker.message(),
        "Worker can't less than 0 and more than 8"
    );
    assert_eq!(Error::Dump(String::from("bad key")).message(), "Dump err: bad key");
    assert_eq!(Error::Exists.message(), "Output file already exists");
}

#[test]
fn test_policy_of_each_error() {
    assert_eq!(Error::NoTarget.policy(), Policy::AbortRun);
    assert_eq!(Error::Worker.policy(), Policy::AbortRun);
    assert_eq!(Error::Metadata.policy(), Policy::DropMetadata);
    assert_eq!(Error::Unknow.policy(), Policy::SkipItem);
    assert_eq!(Error::Path(String::new()).policy(), Policy::SkipItem);
    assert_eq!(Error::Format.policy(), Policy::SkipItem);
    assert_eq!(Error::Dump(String::new()).policy(), Policy::SkipItem);
    assert_eq!(Error::Exists.policy(), Policy::SkipItem);
}
