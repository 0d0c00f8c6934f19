use squishy::errors::SquishError;
use squishy::filesystem::{CreateAction, CreateEvent, FileCreator};

#[test]
fn fallback_resolves_in_second_candidate() {
    // first candidate not writable and creation disallowed, second writable
    let creator = FileCreator::new("out.txt", "d1").with_fallback("d2");
    let (mut run, first) = creator.begin();
    assert_eq!(first, CreateAction::ProbeDir { index: 0 });
    let next = run.advance(CreateEvent::Probed { writable: false });
    assert_eq!(next, CreateAction::ProbeDir { index: 1 });
    let next = run.advance(CreateEvent::Probed { writable: true });
    assert_eq!(next, CreateAction::OpenFile { index: 1 });
    let next = run.advance(CreateEvent::Opened { ok: true });
    assert_eq!(next, CreateAction::Done { index: 1 });
    assert_eq!(run.creator().dir_at(1).as_str(), "d2");
    assert_eq!(run.creator().filename().as_str(), "out.txt");
}

#[test]
fn writable_first_candidate_wins_at_once() {
    let creator = FileCreator::new("out.txt", "d1").with_fallback("d2");
    let (mut run, first) = creator.begin();
    assert_eq!(first, CreateAction::ProbeDir { index: 0 });
    assert_eq!(
        run.advance(CreateEvent::Probed { writable: true }),
        CreateAction::OpenFile { index: 0 }
    );
    assert_eq!(
        run.advance(CreateEvent::Opened { ok: true }),
        CreateAction::Done { index: 0 }
    );
}

#[test]
fn exhausted_chain_gives_up() {
    let creator = FileCreator::new("out.txt", "only");
    let (mut run, _) = creator.begin();
    let next = run.advance(CreateEvent::Probed { writable: false });
    assert_eq!(next, CreateAction::GiveUp);
    let err = run.creator().exhausted_error();
    assert!(matches!(err, SquishError::FileCreationExhausted { .. }));
    assert_eq!(err.message(), "Failed to create file: out.txt");
}

#[test]
fn creation_allowed_probes_again_after_making_dirs() {
    let creator = FileCreator::new("out.txt", "d1").allow_create_dirs(true);
    let (mut run, _) = creator.begin();
    assert_eq!(
        run.advance(CreateEvent::Probed { writable: false }),
        CreateAction::MakeDirs { index: 0 }
    );
    assert_eq!(
        run.advance(CreateEvent::MadeDirs { ok: true }),
        CreateAction::ProbeDir { index: 0 }
    );
    assert_eq!(
        run.advance(CreateEvent::Probed { writable: true }),
        CreateAction::OpenFile { index: 0 }
    );
    assert_eq!(
        run.advance(CreateEvent::Opened { ok: true }),
        CreateAction::Done { index: 0 }
    );
}

#[test]
fn failed_creation_skips_to_next_candidate() {
    let creator =
        FileCreator::new("out.txt", "d1").with_fallback("d2").allow_create_dirs(true);
    let (mut run, _) = creator.begin();
    assert_eq!(
        run.advance(CreateEvent::Probed { writable: false }),
        CreateAction::MakeDirs { index: 0 }
    );
    assert_eq!(
        run.advance(CreateEvent::MadeDirs { ok: false }),
        CreateAction::ProbeDir { index: 1 }
    );
}

#[test]
fn still_unwritable_after_creation_skips() {
    let creator = FileCreator::new("out.txt", "d1").allow_create_dirs(true);
    let (mut run, _) = creator.begin();
    assert_eq!(
        run.advance(CreateEvent::Probed { writable: false }),
        CreateAction::MakeDirs { index: 0 }
    );
    assert_eq!(
        run.advance(CreateEvent::MadeDirs { ok: true }),
        CreateAction::ProbeDir { index: 0 }
    );
    // the second probe of the same candidate does not create again
    assert_eq!(
        run.advance(CreateEvent::Probed { writable: false }),
        CreateAction::GiveUp
    );
}

#[test]
fn failed_open_skips_to_next_candidate() {
    let creator = FileCreator::new("out.txt", "d1").with_fallback("d2");
    let (mut run, _) = creator.begin();
    assert_eq!(
        run.advance(CreateEvent::Probed { writable: true }),
        CreateAction::OpenFile { index: 0 }
    );
    assert_eq!(
        run.advance(CreateEvent::Opened { ok: false }),
        CreateAction::ProbeDir { index: 1 }
    );
}

#[test]
fn with_fallback_skips_duplicate_directories() {
    let creator = FileCreator::new("out.txt", "d1")
        .with_fallback("d1")
        .with_fallback("d2")
        .with_fallback("d2");
    assert_eq!(creator.candidate_count(), 2);
    assert_eq!(creator.dir_at(0).as_str(), "d1");
    assert_eq!(creator.dir_at(1).as_str(), "d2");
}

#[test]
fn truncation_flag_is_recorded() {
    let creator = FileCreator::new("out.txt", "d1");
    assert!(!creator.truncates());
    let creator = creator.allow_truncate_file(true);
    assert!(creator.truncates());
}

#[test]
fn error_messages_name_their_subject() {
    let scan_err = SquishError::ScanError { message: "boom".to_string() };
    assert_eq!(scan_err.message(), "boom");
    let missing = SquishError::MissingOutputDirectory { out: "a/b.txt".to_string() };
    assert_eq!(missing.message(), "No such file or directory: a/b.txt");
    let exhausted =
        SquishError::FileCreationExhausted { filename: "squishy.txt".to_string() };
    assert_eq!(exhausted.message(), "Failed to create file: squishy.txt");
}
