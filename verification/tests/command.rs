use std::path::PathBuf;

use ncmdump::command::{Command, OutputDir, TargetKind, TargetPlan};
use ncmdump::errors::Error;

#[test]
fn test_empty_input_files_err() {
    let command = Command {
        targets: vec![],
        worker: 1,
        ..Default::default()
    };
    let result = command.invalid();
    assert!(result.is_err_and(|err| err == Error::NoTarget));
}

#[test]
fn test_invalid_worker_ok() {
    let works = [1, 2, 3, 4, 5, 6, 7, 8];
    for worker in works {
        let command = Command {
            targets: vec![PathBuf::new()],
            worker,
            ..Default::default()
        };
        let result = command.invalid();
        assert!(result.is_ok());
    }
}

#[test]
fn test_invalid_worker_err() {
    let works = [0, 9, 10, 15, 100, 199];
    for worker in works {
        let command = Command {
            targets: vec![PathBuf::new()],
            worker,
            ..Default::default()
        };
        let result = command.invalid();
        assert!(result.is_err_and(|err| err == Error::Worker));
    }
}

#[test]
fn test_worker_is_checked_before_targets() {
    let command = Command {
        targets: vec![],
        worker: 0,
        ..Default::default()
    };
    assert_eq!(command.invalid(), Err(Error::Worker));
    let command = Command {
        targets: vec![],
        worker: usize::MAX,
        ..Default::default()
    };
    assert_eq!(command.invalid(), Err(Error::Worker));
}

#[test]
fn test_default_command() {
    let command = Command::default();
    assert!(command.targets.is_empty());
    assert_eq!(command.output, None);
    assert!(!command.overwrite);
    assert!(!command.recursive);
    assert!(!command.verbose);
    assert_eq!(command.worker, 0);
}

#[test]
fn test_max_depth() {
    let flat = Command::default();
    assert_eq!(flat.max_depth(), 1);
    let deep = Command {
        recursive: true,
        ..Default::default()
    };
    assert_eq!(deep.max_depth(), 8);
}

#[test]
fn test_plan_of_each_kind() {
    let flat = Command::default();
    let deep = Command {
        recursive: true,
        ..Default::default()
    };
    assert_eq!(flat.plan(TargetKind::Missing), Ok(TargetPlan::Skip));
    assert_eq!(flat.plan(TargetKind::File), Ok(TargetPlan::Take));
    assert_eq!(
        flat.plan(TargetKind::Dir),
        Ok(TargetPlan::Walk {
            min_depth: 1,
            max_depth: 1
        })
    );
    assert_eq!(
        deep.plan(TargetKind::Dir),
        Ok(TargetPlan::Walk {
            min_depth: 1,
            max_depth: 8
        })
    );
    assert_eq!(
        deep.plan(TargetKind::Other),
        Err(Error::Path(String::from("Unsupport target type")))
    );
}

#[test]
fn test_output_dir() {
    let beside = Command::default();
    match beside.output_dir(Some(PathBuf::from("music")), "\"music/a.ncm\"") {
        Ok(OutputDir::Beside(path)) => assert_eq!(path, PathBuf::from("music")),
        other => panic!("{:?}", other),
    }
    match beside.output_dir(None, "\"\"") {
        Err(Error::Path(reason)) => {
            assert_eq!(reason, "Can't get output dir for target: \"\"")
        }
        other => panic!("{:?}", other),
    }
    let given = Command {
        output: Some(String::from("out")),
        ..Default::default()
    };
    match given.output_dir(Some(PathBuf::from("music")), "\"music/a.ncm\"") {
        Ok(OutputDir::Given(path)) => assert_eq!(path, "out"),
        other => panic!("{:?}", other),
    }
    match given.output_dir(None, "\"\"") {
        Ok(OutputDir::Given(path)) => assert_eq!(path, "out"),
        other => panic!("{:?}", other),
    }
}
