use probe::{
    add_count, find_entry, inode_entry, inode_linked, pid_entry, ArenaContext, DirAction, DirEvent,
    EmitError, IntError, Level, ParseDir, ParseTid, ParseTopLevel, ProbeError, TidAction, TidEvent,
    TopAction, TopEvent, DATA_SUBDIR, OPS_SUBDIR, OPTIONS_FILE,
};
use std::mem::size_of;

const HEADER: usize = 4 * size_of::<usize>();

fn arena(instantiation: usize, base: usize, body: &[u8]) -> Vec<u8> {
    let mut bytes = Vec::new();
    for word in [instantiation, base, HEADER + body.len(), HEADER + body.len()] {
        bytes.extend_from_slice(&word.to_ne_bytes());
    }
    bytes.extend_from_slice(body);
    bytes
}

fn failed() -> String {
    "it failed".to_string()
}

/// The contexts of an error from the outermost to the innermost, and what is in them.
fn unwrap(e: ProbeError) -> (Vec<&'static str>, ProbeError) {
    let mut contexts = Vec::new();
    let mut e = e;
    while let ProbeError::Context { context, inner } = e {
        contexts.push(context);
        e = *inner;
    }
    (contexts, e)
}

fn io_contexts(e: ProbeError) -> Vec<&'static str> {
    let (contexts, inner) = unwrap(e);
    assert!(matches!(inner, ProbeError::IoError(reason) if reason == "it failed"));
    contexts
}

/// The bytes from the address in the record on.
fn decode_op(record: &[u8], ctx: &ArenaContext) -> Result<Vec<u8>, ProbeError> {
    match ctx.try_get_slice(record[0] as usize) {
        Some(slice) => Ok(slice.to_vec()),
        None => Err(ProbeError::MissingValue("dangling pointer")),
    }
}

fn names(list: &[&str]) -> Vec<Result<Vec<u8>, String>> {
    list.iter().map(|name| Ok(name.as_bytes().to_vec())).collect()
}

fn step(state: &mut ParseTid<Vec<u8>>, event: TidEvent) -> TidAction<Vec<u8>> {
    state.step(event, &decode_op)
}

/// The transcription of a TID directory up to the listing of the directory.
fn listing_tid() -> ParseTid<Vec<u8>> {
    let (mut state, action) = ParseTid::start(b"pids/1/0/12", 1);
    assert!(matches!(action, TidAction::CreateOutput(name) if name == "12"));
    assert!(matches!(step(&mut state, TidEvent::OutputCreated(Ok(()))), TidAction::ListTid));
    state
}

/// The transcription of a TID directory up to the listing of the data files.
fn listing_data() -> ParseTid<Vec<u8>> {
    let mut state = listing_tid();
    let action = step(&mut state, TidEvent::Listed(Ok(names(&["ops", "data"]))));
    assert!(matches!(action, TidAction::ListSubdir(1)));
    state
}

/// The transcription of a TID directory up to the listing of the ops files.
fn listing_ops() -> ParseTid<Vec<u8>> {
    let mut state = listing_data();
    let action = step(&mut state, TidEvent::Listed(Ok(names(&["d/4.dat"]))));
    assert!(matches!(action, TidAction::ReadFile(path) if path == b"d/4.dat"));
    let action = step(&mut state, TidEvent::FileRead(Ok(arena(4, 100, b"xyz"))));
    assert!(matches!(action, TidAction::ListSubdir(0)));
    state
}

/// The transcription of a TID directory while it reads its only ops file.
fn reading_ops() -> ParseTid<Vec<u8>> {
    let mut state = listing_ops();
    let action = step(&mut state, TidEvent::Listed(Ok(names(&["o/0.dat"]))));
    assert!(matches!(action, TidAction::ReadFile(_)));
    state
}

fn tid_error(action: TidAction<Vec<u8>>) -> ProbeError {
    match action {
        TidAction::Done(Err(e)) => e,
        _ => panic!("no error"),
    }
}

fn at(offset: usize) -> u8 {
    (100 + HEADER + offset) as u8
}

#[test]
fn a_tid_directory() {
    let mut state = listing_ops();
    let action = step(&mut state, TidEvent::Listed(Ok(names(&["o/0.dat", "o/7.dat", "o/1.dat"]))));
    assert!(matches!(action, TidAction::ReadFile(path) if path == b"o/0.dat"));
    let action = step(&mut state, TidEvent::FileRead(Ok(arena(0, 0, &[at(0), at(1)]))));
    assert!(matches!(action, TidAction::Emit(op) if op == b"xyz"));
    let action = step(&mut state, TidEvent::Emitted(Ok(())));
    assert!(matches!(action, TidAction::Emit(op) if op == b"yz"));
    let action = step(&mut state, TidEvent::Emitted(Ok(())));
    assert!(matches!(action, TidAction::ReadFile(path) if path == b"o/7.dat"));
    let action = step(&mut state, TidEvent::FileRead(Ok(arena(7, 0, &[]))));
    assert!(matches!(action, TidAction::ReadFile(path) if path == b"o/1.dat"));
    let action = step(&mut state, TidEvent::FileRead(Ok(arena(1, 0, &[at(2)]))));
    assert!(matches!(action, TidAction::Emit(op) if op == b"z"));
    let action = step(&mut state, TidEvent::Emitted(Ok(())));
    assert!(matches!(action, TidAction::Done(Ok(3))));
}

#[test]
fn a_tid_directory_without_files() {
    let mut state = listing_data();
    let action = step(&mut state, TidEvent::Listed(Ok(vec![])));
    assert!(matches!(action, TidAction::ListSubdir(0)));
    let action = step(&mut state, TidEvent::Listed(Ok(vec![])));
    assert!(matches!(action, TidAction::Done(Ok(0))));
}

#[test]
fn a_tid_directory_with_a_bad_name() {
    let (_, action) = ParseTid::<Vec<u8>>::start(b"pids/1/0/main", 1);
    let (contexts, inner) = unwrap(tid_error(action));
    assert_eq!(contexts, ["Error parsing numeric tid"]);
    assert!(matches!(inner, ProbeError::ParseIntError(IntError::InvalidDigit)));
}

#[test]
fn a_tid_directory_that_cannot_be_read_or_written() {
    let (mut state, _) = ParseTid::start(b"1", 1);
    let action = step(&mut state, TidEvent::OutputCreated(Err(failed())));
    assert_eq!(io_contexts(tid_error(action)), ["Failed to create TID output file"]);

    let action = step(&mut listing_tid(), TidEvent::Listed(Err(failed())));
    assert_eq!(io_contexts(tid_error(action)), ["Error reading record TID directory"]);

    let action = step(&mut listing_data(), TidEvent::Listed(Err(failed())));
    assert_eq!(io_contexts(tid_error(action)), ["Error opening record TID directory"]);

    let mut entries = names(&["d/4.dat"]);
    entries.push(Err(failed()));
    entries.push(Err("later".to_string()));
    let action = step(&mut listing_ops(), TidEvent::Listed(Ok(entries)));
    assert_eq!(
        io_contexts(tid_error(action)),
        ["Error reading DirEntry from record TID subdirectory"]
    );

    let action = step(&mut reading_ops(), TidEvent::FileRead(Err(failed())));
    assert_eq!(io_contexts(tid_error(action)), ["Failed to read file from ops directory"]);
}

#[test]
fn missing_subdirectories() {
    let mut entries = names(&["ops"]);
    entries.push(Err(failed()));
    let action = step(&mut listing_tid(), TidEvent::Listed(Ok(entries)));
    assert!(matches!(
        tid_error(action),
        ProbeError::MissingValue("Missing data directory from TID directory")
    ));

    let mut state = listing_tid();
    let action = step(&mut state, TidEvent::Listed(Ok(names(&["data"]))));
    assert!(matches!(action, TidAction::ListSubdir(0)));
    let action = step(&mut state, TidEvent::Listed(Ok(vec![])));
    assert!(matches!(
        tid_error(action),
        ProbeError::MissingValue("Missing ops directory from TID directory")
    ));
}

#[test]
fn malformed_data_files() {
    let mut state = listing_data();
    step(&mut state, TidEvent::Listed(Ok(names(&["d/4.dat"]))));
    let action = step(&mut state, TidEvent::FileRead(Err(failed())));
    assert_eq!(io_contexts(tid_error(action)), ["Failed to read file from data directory"]);

    let mut state = listing_data();
    step(&mut state, TidEvent::Listed(Ok(names(&["d/x.dat"]))));
    let action = step(&mut state, TidEvent::FileRead(Ok(vec![])));
    let (contexts, inner) = unwrap(tid_error(action));
    assert_eq!(contexts, ["Error parsing numeric data/$n.dat"]);
    assert!(matches!(inner, ProbeError::ParseIntError(IntError::InvalidDigit)));

    let mut state = listing_data();
    step(&mut state, TidEvent::Listed(Ok(names(&["d/4.dat"]))));
    let action = step(&mut state, TidEvent::FileRead(Ok(arena(5, 0, &[]))));
    let (contexts, inner) = unwrap(tid_error(action));
    assert_eq!(contexts, ["Failed to create ArenaHeader for DataArena"]);
    assert!(matches!(inner, ProbeError::ArenaError(_)));
}

#[test]
fn malformed_ops_files() {
    let mut state = listing_ops();
    step(&mut state, TidEvent::Listed(Ok(names(&["o/.dat"]))));
    let action = step(&mut state, TidEvent::FileRead(Ok(vec![])));
    assert_eq!(unwrap(tid_error(action)).0, ["Error parsing numeric ops/$n.dat"]);

    let action = step(&mut reading_ops(), TidEvent::FileRead(Ok(vec![])));
    assert_eq!(
        unwrap(tid_error(action)).0,
        ["Error constructing OpsArena", "Failed to create ArenaHeader for OpsArena"]
    );

    let action = step(&mut reading_ops(), TidEvent::FileRead(Ok(arena(0, 0, &[at(0), 99]))));
    let (contexts, inner) = unwrap(tid_error(action));
    assert_eq!(contexts, ["Error decoding OpsArena", "Failed to decode arena ops"]);
    assert!(matches!(inner, ProbeError::MissingValue("dangling pointer")));
}

#[test]
fn ops_that_cannot_be_written() {
    let emitting = || {
        let mut state = reading_ops();
        let action = step(&mut state, TidEvent::FileRead(Ok(arena(0, 0, &[at(0)]))));
        assert!(matches!(action, TidAction::Emit(_)));
        state
    };
    let action = step(&mut emitting(), TidEvent::Emitted(Err(EmitError::Serialize(failed()))));
    let (contexts, inner) = unwrap(tid_error(action));
    assert_eq!(contexts, ["Unable to serialize Op"]);
    assert!(matches!(inner, ProbeError::SerializeError(_)));

    let action = step(&mut emitting(), TidEvent::Emitted(Err(EmitError::Write(failed()))));
    assert_eq!(io_contexts(tid_error(action)), ["Failed to write serialized Op to tempfile"]);

    let action = step(&mut emitting(), TidEvent::Emitted(Err(EmitError::Newline(failed()))));
    assert_eq!(
        io_contexts(tid_error(action)),
        ["Failed to write newline deliminator to tempfile"]
    );
}

#[test]
fn the_last_of_several_entries_is_found() {
    let mut listing = names(&["ops", "data", "ops", "operations"]);
    listing.push(Err("ops".to_string()));
    assert_eq!(find_entry(&listing, OPS_SUBDIR), Some(2));
    assert_eq!(find_entry(&listing, DATA_SUBDIR), Some(1));
    assert_eq!(find_entry(&listing, "op"), None);
}

fn dir_error(action: DirAction) -> ProbeError {
    match action {
        DirAction::Done(Err(e)) => e,
        _ => panic!("no error"),
    }
}

fn reading_dir(level: Level) -> ParseDir {
    let (mut state, action) = ParseDir::start(level, b"record/pids/0042");
    assert!(matches!(action, DirAction::CreateOutput(name) if name == "42"));
    assert!(matches!(state.step(DirEvent::Created(Ok(()))), DirAction::Open));
    assert!(matches!(state.step(DirEvent::Opened(Ok(()))), DirAction::NextEntry));
    state
}

#[test]
fn a_directory_counts_its_subdirectories() {
    let mut state = reading_dir(Level::Pid);
    for n in [3, 0, 5] {
        let action = state.step(DirEvent::Entry(Some(Ok(b"sub".to_vec()))));
        assert!(matches!(action, DirAction::Descend(path) if path == b"sub"));
        assert!(matches!(state.step(DirEvent::Transcribed(Ok(n))), DirAction::NextEntry));
    }
    assert!(matches!(state.step(DirEvent::Entry(None)), DirAction::Done(Ok(8))));
}

#[test]
fn the_first_failing_subdirectory_ends_a_directory() {
    let mut state = reading_dir(Level::ExecEpoch);
    state.step(DirEvent::Entry(Some(Ok(b"sub".to_vec()))));
    let action = state.step(DirEvent::Transcribed(Err(ProbeError::UnreachableCode)));
    assert!(matches!(dir_error(action), ProbeError::UnreachableCode));
}

#[test]
fn failures_in_a_directory() {
    let contexts = [
        (
            Level::Pid,
            [
                "Error parsing numeric pid",
                "Failed to create PID directory",
                "Error opening PID directory",
                "Error reading DirEntry from PID directory",
            ],
        ),
        (
            Level::ExecEpoch,
            [
                "Error parsing numeric epoch",
                "Failed to create ExecEpoch output directory",
                "Error opening ExecEpoch directory",
                "Error reading DirEntry from ExecEpoch directory",
            ],
        ),
    ];
    for (level, expected) in contexts {
        let (_, action) = ParseDir::start(level, b"..");
        let (got, inner) = unwrap(dir_error(action));
        assert_eq!(got, [expected[0]]);
        assert!(matches!(inner, ProbeError::MissingValue("File has no stem")));

        let (mut state, _) = ParseDir::start(level, b"1");
        let action = state.step(DirEvent::Created(Err(failed())));
        assert_eq!(io_contexts(dir_error(action)), [expected[1]]);

        let (mut state, _) = ParseDir::start(level, b"1");
        state.step(DirEvent::Created(Ok(())));
        let action = state.step(DirEvent::Opened(Err(failed())));
        assert_eq!(io_contexts(dir_error(action)), [expected[2]]);

        let action = reading_dir(level).step(DirEvent::Entry(Some(Err(failed()))));
        assert_eq!(io_contexts(dir_error(action)), [expected[3]]);
    }
}

#[test]
fn counts_add_up_in_groups_and_in_any_order() {
    let fold = |parts: &[usize]| {
        parts.iter().try_fold(0, |acc, n| add_count(acc, Ok(*n))).unwrap()
    };
    assert_eq!(fold(&[1, 2, 3, 4]), 10);
    assert_eq!(add_count(fold(&[1, 2]), Ok(fold(&[3, 4]))).unwrap(), 10);
    assert_eq!(fold(&[4, 2, 3, 1]), 10);
    assert!(matches!(
        add_count(1, Err(ProbeError::UnreachableCode)),
        Err(ProbeError::UnreachableCode)
    ));
}

fn top_error(action: TopAction) -> ProbeError {
    match action {
        TopAction::Done(Err(e)) => e,
        _ => panic!("no error"),
    }
}

#[test]
fn a_record() {
    let (mut state, action) = ParseTopLevel::start();
    assert!(matches!(action, TopAction::ReadContext));
    let action = state.step(TopEvent::ContextRead(Ok(vec![1, 2])));
    assert!(matches!(action, TopAction::WriteOptions(bytes) if bytes == [1, 2]));
    assert!(matches!(state.step(TopEvent::Performed(Ok(()))), TopAction::CreatePids));
    assert!(matches!(state.step(TopEvent::Performed(Ok(()))), TopAction::OpenPids));
    assert!(matches!(state.step(TopEvent::Performed(Ok(()))), TopAction::TranscribePids));
    assert!(matches!(state.step(TopEvent::Counted(Ok(17))), TopAction::CreateInodes));
    assert!(matches!(state.step(TopEvent::Performed(Ok(()))), TopAction::OpenInodes));
    assert!(matches!(state.step(TopEvent::Performed(Ok(()))), TopAction::LinkInodes));
    assert!(matches!(state.step(TopEvent::Counted(Ok(4))), TopAction::Done(Ok(17))));
    assert_eq!(OPTIONS_FILE, "options.json");
}

#[test]
fn failures_in_a_record() {
    let (mut state, _) = ParseTopLevel::start();
    let action = state.step(TopEvent::ContextRead(Err(failed())));
    assert!(matches!(top_error(action), ProbeError::UnreachableCode));

    let (mut state, _) = ParseTopLevel::start();
    state.step(TopEvent::ContextRead(Ok(vec![])));
    let action = state.step(TopEvent::Performed(Err(failed())));
    assert!(matches!(top_error(action), ProbeError::UnreachableCode));

    let expected = ["Failed to create pids directory", "Error opening record directory"];
    for done in 0..2 {
        let (mut state, _) = ParseTopLevel::start();
        state.step(TopEvent::ContextRead(Ok(vec![])));
        state.step(TopEvent::Performed(Ok(())));
        for _ in 0..done {
            state.step(TopEvent::Performed(Ok(())));
        }
        let action = state.step(TopEvent::Performed(Err(failed())));
        assert_eq!(io_contexts(top_error(action)), [expected[done]]);
    }

    let expected = ["Failed to create inodes directory", "Error opening inodes directory"];
    for done in 0..2 {
        let (mut state, _) = ParseTopLevel::start();
        state.step(TopEvent::ContextRead(Ok(vec![])));
        for _ in 0..3 {
            state.step(TopEvent::Performed(Ok(())));
        }
        state.step(TopEvent::Counted(Ok(1)));
        for _ in 0..done {
            state.step(TopEvent::Performed(Ok(())));
        }
        let action = state.step(TopEvent::Performed(Err(failed())));
        assert_eq!(io_contexts(top_error(action)), [expected[done]]);
    }
}

#[test]
fn entries_of_a_record() {
    assert_eq!(pid_entry(Ok(b"pids/1".to_vec())).unwrap(), b"pids/1");
    assert_eq!(
        io_contexts(pid_entry(Err(failed())).unwrap_err()),
        ["Error reading DirEntry from record directory"]
    );
    assert_eq!(inode_entry(Ok(b"1-2".to_vec())).unwrap(), b"1-2");
    assert_eq!(
        io_contexts(inode_entry(Err(failed())).unwrap_err()),
        ["Error reading from inodes directory"]
    );
    assert_eq!(inode_linked(Ok(())).unwrap(), 1);
    assert_eq!(
        io_contexts(inode_linked(Err(failed())).unwrap_err()),
        ["Error hardlinking inode"]
    );
}
