use session_deltas::deltas::{read, store, write_with, Delta};
use session_deltas::error::EngineError;
use session_deltas::log_format::encode_log;
use session_deltas::operations::Operation;
use session_deltas::projects::{parent_of, Project};
use session_deltas::sessions::Session;
use session_deltas::storage::{Step, Storage};
use tempfile::tempdir;

const NOW_MS: u128 = 1_700_000_000_000;

fn empty_repository() -> (git2::Repository, Project) {
    let path = tempdir().unwrap().keep().to_str().unwrap().to_string();
    let repo = git2::Repository::init(&path).unwrap();
    (repo, Project::from_path(path))
}

fn commit(repo: &git2::Repository, message: &str) -> git2::Oid {
    let tree = repo.find_tree(repo.index().unwrap().write_tree().unwrap()).unwrap();
    let sig = git2::Signature::now("test", "test@email.com").unwrap();
    let parents: Vec<git2::Commit> = match repo.head() {
        Ok(head) => vec![head.peel_to_commit().unwrap()],
        Err(_) => vec![],
    };
    let parents: Vec<&git2::Commit> = parents.iter().collect();
    repo.commit(Some("HEAD"), &sig, &sig, message, &tree, &parents).unwrap()
}

fn repository_with_commit() -> (git2::Repository, Project) {
    let (repo, project) = empty_repository();
    commit(&repo, "initial commit");
    (repo, project)
}

fn hello() -> Vec<Delta> {
    vec![Delta {
        operations: vec![Operation::Insert((0, "Hello, world!".to_string()))],
        timestamp_ms: 0,
    }]
}

fn sample_session() -> Session {
    Session { id: "ab".to_string(), start_timestamp_ms: 258, anchor: "cd".to_string() }
}

fn sample_session_bytes() -> Vec<u8> {
    let mut bytes = vec![0x53, 0x45, 0x53, 0x31];
    bytes.extend_from_slice(&[2, 0, 0, 0, 0, 0, 0, 0, 0x61, 0x62]);
    bytes.extend_from_slice(&[2, 1, 0, 0, 0, 0, 0, 0, 0, 0, 0, 0, 0, 0, 0, 0]);
    bytes.extend_from_slice(&[2, 0, 0, 0, 0, 0, 0, 0, 0x63, 0x64]);
    bytes
}

#[test]
fn project_paths() {
    let project = Project::from_path("/work/repo".to_string());
    assert_eq!(project.root_path(), "/work/repo");
    assert_eq!(project.session_path(), "/work/repo/.git/gb/session");
    assert_eq!(project.session_marker_path(), "/work/repo/.git/gb/session/meta");
    assert_eq!(project.scratch_file_path(), "/work/repo/.git/gb/session/tmp");
    assert_eq!(project.deltas_path(), "/work/repo/.git/gb/session/deltas");
    assert_eq!(
        project.deltas_path_for("src/main.rs"),
        "/work/repo/.git/gb/session/deltas/src/main.rs"
    );
    assert_eq!(project.clone(), project);
}

#[test]
fn parent_is_what_stands_before_the_last_slash() {
    assert_eq!(parent_of("/a/b/c.txt"), "/a/b");
    assert_eq!(parent_of("a/b"), "a");
    assert_eq!(parent_of("/a"), "");
    assert_eq!(parent_of("a/"), "a");
    assert_eq!(parent_of("a"), "");
    assert_eq!(parent_of(""), "");
    assert_eq!(parent_of("/日本/語"), "/日本");
}

#[test]
fn session_encode_gives_the_stored_form() {
    assert_eq!(sample_session().encode(), sample_session_bytes());
}

#[test]
fn session_decode_reads_the_stored_form() {
    assert_eq!(Session::decode(&sample_session_bytes()), Ok(sample_session()));
}

#[test]
fn session_decode_inverts_encode() {
    let session = Session {
        id: "ünïcode".to_string(),
        start_timestamp_ms: u128::MAX,
        anchor: String::new(),
    };
    assert_eq!(Session::decode(&session.encode()), Ok(session));
}

#[test]
fn session_decode_rejects_everything_else() {
    let bytes = sample_session_bytes();
    for cut in 0..bytes.len() {
        assert_eq!(Session::decode(&bytes[..cut]), Err(EngineError::CorruptLog), "cut at {}", cut);
    }
    let mut longer = bytes.clone();
    longer.push(0);
    assert_eq!(Session::decode(&longer), Err(EngineError::CorruptLog));
    assert_eq!(Session::decode(&encode_log(&hello())), Err(EngineError::CorruptLog));
    assert_eq!(Session::decode("invalid".as_bytes()), Err(EngineError::CorruptLog));
}

#[test]
fn anchored_session_takes_its_id_from_the_anchor() {
    let session = Session::anchored("0123".to_string(), 5);
    assert_eq!(
        session,
        Session { id: "0123".to_string(), start_timestamp_ms: 5, anchor: "0123".to_string() }
    );
    assert_eq!(session.clone(), session);
}

#[test]
fn from_head_is_anchored_to_the_head_commit() {
    let (repo, project) = empty_repository();
    let first = commit(&repo, "first");
    let session = Session::from_head(&repo, &project, NOW_MS).unwrap();
    assert_eq!(session.anchor, first.to_string());
    assert_eq!(session.anchor.len(), 40);
    assert!(session.anchor.chars().all(|c| c.is_ascii_digit() || ('a'..='f').contains(&c)));
    assert_eq!(session.id, session.anchor);
    assert_eq!(session.start_timestamp_ms, NOW_MS);

    let second = commit(&repo, "second");
    assert_ne!(first, second);
    let session = Session::from_head(&repo, &project, NOW_MS + 1).unwrap();
    assert_eq!(session.anchor, second.to_string());
    assert_eq!(session.start_timestamp_ms, NOW_MS + 1);
}

#[test]
fn from_head_does_not_depend_on_the_time_for_its_id() {
    let (repo, project) = repository_with_commit();
    let early = Session::from_head(&repo, &project, 1).unwrap();
    let late = Session::from_head(&repo, &project, 2).unwrap();
    assert_eq!(early.id, late.id);
    assert_ne!(early, late);
}

#[test]
fn from_head_without_a_commit_is_an_io_error() {
    let (repo, project) = empty_repository();
    assert_eq!(Session::from_head(&repo, &project, NOW_MS), Err(EngineError::Io));
}

#[test]
fn from_head_stores_nothing() {
    let (repo, project) = repository_with_commit();
    let storage = Storage::new();
    Session::from_head(&repo, &project, NOW_MS).unwrap();
    assert_eq!(Session::current(&repo, &project, &storage), Ok(None));
}

#[test]
fn current_without_a_marker_is_none() {
    let (repo, project) = repository_with_commit();
    let storage = Storage::new();
    assert_eq!(Session::current(&repo, &project, &storage), Ok(None));
    assert_eq!(Session::current(&repo, &project, &storage), Ok(None));
}

#[test]
fn current_reads_the_marker() {
    let (repo, project) = repository_with_commit();
    let mut storage = Storage::new();
    storage.load(project.session_marker_path(), sample_session_bytes());
    assert_eq!(Session::current(&repo, &project, &storage), Ok(Some(sample_session())));
}

#[test]
fn current_with_a_corrupt_marker_is_an_error() {
    let (repo, project) = repository_with_commit();
    let mut storage = Storage::new();
    storage.load(project.session_marker_path(), "invalid".as_bytes().to_vec());
    assert_eq!(Session::current(&repo, &project, &storage), Err(EngineError::CorruptLog));
}

#[test]
fn activate_queues_an_atomic_replacement_of_the_marker() {
    let project = Project::from_path("/p".to_string());
    let mut storage = Storage::new();
    sample_session().activate(&project, &mut storage);
    assert_eq!(
        storage.take_pending(),
        vec![
            Step::EnsureDir("/p/.git/gb/session".to_string()),
            Step::WriteFile("/p/.git/gb/session/tmp".to_string(), sample_session_bytes()),
            Step::Rename(
                "/p/.git/gb/session/tmp".to_string(),
                "/p/.git/gb/session/meta".to_string()
            ),
        ]
    );
    assert_eq!(storage.get("/p/.git/gb/session/meta"), Some(&sample_session_bytes()));
    assert_eq!(storage.get("/p/.git/gb/session/tmp"), None);
}

#[test]
fn ensure_current_creates_a_session_once() {
    let (repo, project) = repository_with_commit();
    let mut storage = Storage::new();
    let first = Session::ensure_current(&repo, &project, &mut storage, NOW_MS).unwrap();
    assert_eq!(first.start_timestamp_ms, NOW_MS);
    assert_eq!(storage.take_pending().len(), 3);
    assert_eq!(Session::current(&repo, &project, &storage), Ok(Some(first.clone())));

    commit(&repo, "later");
    let second = Session::ensure_current(&repo, &project, &mut storage, NOW_MS + 9).unwrap();
    assert_eq!(second, first);
    assert_eq!(storage.take_pending(), vec![]);
}

#[test]
fn ensure_current_returns_the_active_session_without_asking_the_repository() {
    let (repo, project) = empty_repository();
    let mut storage = Storage::new();
    storage.load(project.session_marker_path(), sample_session_bytes());
    assert_eq!(
        Session::ensure_current(&repo, &project, &mut storage, NOW_MS),
        Ok(sample_session())
    );
    assert_eq!(storage.take_pending(), vec![]);
}

#[test]
fn ensure_current_fails_without_a_head_and_touches_nothing() {
    let (repo, project) = empty_repository();
    let mut storage = Storage::new();
    assert_eq!(
        Session::ensure_current(&repo, &project, &mut storage, NOW_MS),
        Err(EngineError::Io)
    );
    assert_eq!(storage.take_pending(), vec![]);
    assert_eq!(Session::current(&repo, &project, &storage), Ok(None));
}

#[test]
fn ensure_current_with_each_answer() {
    let project = Project::from_path("/p".to_string());

    let mut storage = Storage::new();
    let opened =
        Session::ensure_current_with(Ok(sample_session()), &project, &mut storage).unwrap();
    assert_eq!(opened, sample_session());
    assert_eq!(storage.get("/p/.git/gb/session/meta"), Some(&sample_session_bytes()));

    let other = Session::anchored("ef".to_string(), 1);
    assert_eq!(
        Session::ensure_current_with(Ok(other), &project, &mut storage),
        Ok(sample_session())
    );
    assert_eq!(
        Session::ensure_current_with(Err(EngineError::Io), &project, &mut storage),
        Ok(sample_session())
    );
    assert_eq!(storage.take_pending().len(), 3);

    let mut storage = Storage::new();
    assert_eq!(
        Session::ensure_current_with(Err(EngineError::Io), &project, &mut storage),
        Err(EngineError::Io)
    );
    assert_eq!(storage.take_pending(), vec![]);

    let mut storage = Storage::new();
    storage.load(project.session_marker_path(), vec![1, 2, 3]);
    assert_eq!(
        Session::ensure_current_with(Ok(sample_session()), &project, &mut storage),
        Err(EngineError::CorruptLog)
    );
    assert_eq!(storage.take_pending(), vec![]);
    assert_eq!(storage.get("/p/.git/gb/session/meta"), Some(&vec![1, 2, 3]));
}

#[test]
fn write_queues_the_marker_and_then_the_log() {
    let project = Project::from_path("/p".to_string());
    let mut storage = Storage::new();
    let result = write_with(Ok(sample_session()), &project, &mut storage, "src/a.txt", &hello());
    assert_eq!(result, Ok(()));
    assert_eq!(
        storage.take_pending(),
        vec![
            Step::EnsureDir("/p/.git/gb/session".to_string()),
            Step::WriteFile("/p/.git/gb/session/tmp".to_string(), sample_session_bytes()),
            Step::Rename(
                "/p/.git/gb/session/tmp".to_string(),
                "/p/.git/gb/session/meta".to_string()
            ),
            Step::EnsureDir("/p/.git/gb/session/deltas/src".to_string()),
            Step::WriteFile("/p/.git/gb/session/tmp".to_string(), encode_log(&hello())),
            Step::Rename(
                "/p/.git/gb/session/tmp".to_string(),
                "/p/.git/gb/session/deltas/src/a.txt".to_string()
            ),
        ]
    );
    assert_eq!(read(&project, &storage, "src/a.txt"), Ok(Some(hello())));
}

#[test]
fn second_write_queues_only_the_log() {
    let project = Project::from_path("/p".to_string());
    let mut storage = Storage::new();
    write_with(Ok(sample_session()), &project, &mut storage, "a.txt", &hello()).unwrap();
    storage.take_pending();
    let result = write_with(Err(EngineError::Io), &project, &mut storage, "a.txt", &vec![]);
    assert_eq!(result, Ok(()));
    assert_eq!(
        storage.take_pending(),
        vec![
            Step::EnsureDir("/p/.git/gb/session/deltas".to_string()),
            Step::WriteFile("/p/.git/gb/session/tmp".to_string(), encode_log(&vec![])),
            Step::Rename(
                "/p/.git/gb/session/tmp".to_string(),
                "/p/.git/gb/session/deltas/a.txt".to_string()
            ),
        ]
    );
    assert_eq!(read(&project, &storage, "a.txt"), Ok(Some(vec![])));
}

#[test]
fn failed_write_leaves_the_old_log_readable() {
    let project = Project::from_path("/p".to_string());
    let mut storage = Storage::new();
    storage.load(project.deltas_path_for("a.txt"), encode_log(&hello()));

    let result = write_with(Err(EngineError::Io), &project, &mut storage, "a.txt", &vec![]);
    assert_eq!(result, Err(EngineError::Io));
    assert_eq!(storage.take_pending(), vec![]);
    assert_eq!(read(&project, &storage, "a.txt"), Ok(Some(hello())));

    storage.load(project.session_marker_path(), vec![0]);
    let result = write_with(Ok(sample_session()), &project, &mut storage, "a.txt", &vec![]);
    assert_eq!(result, Err(EngineError::CorruptLog));
    assert_eq!(storage.take_pending(), vec![]);
    assert_eq!(read(&project, &storage, "a.txt"), Ok(Some(hello())));
}

#[test]
fn write_does_not_replace_the_session() {
    let (repo, project) = repository_with_commit();
    let mut storage = Storage::new();
    session_deltas::deltas::write(&repo, &project, &mut storage, "a.txt", &hello(), NOW_MS)
        .unwrap();
    let first = Session::current(&repo, &project, &storage).unwrap().unwrap();

    commit(&repo, "later");
    session_deltas::deltas::write(&repo, &project, &mut storage, "a.txt", &hello(), NOW_MS + 1)
        .unwrap();
    let second = Session::current(&repo, &project, &storage).unwrap().unwrap();
    assert_eq!(first, second);
    assert_eq!(second.start_timestamp_ms, NOW_MS);
}

#[test]
fn write_without_a_head_is_an_io_error() {
    let (repo, project) = empty_repository();
    let mut storage = Storage::new();
    let result =
        session_deltas::deltas::write(&repo, &project, &mut storage, "a.txt", &hello(), NOW_MS);
    assert_eq!(result, Err(EngineError::Io));
    assert_eq!(read(&project, &storage, "a.txt"), Ok(None));
    assert_eq!(storage.take_pending(), vec![]);
}

#[test]
fn write_replaces_the_whole_log() {
    let project = Project::from_path("/p".to_string());
    let mut storage = Storage::new();
    let longer = vec![hello()[0].clone(), Delta { operations: vec![], timestamp_ms: 4 }];
    store(&project, &mut storage, "a.txt", &longer);
    assert_eq!(read(&project, &storage, "a.txt"), Ok(Some(longer)));
    store(&project, &mut storage, "a.txt", &hello());
    assert_eq!(read(&project, &storage, "a.txt"), Ok(Some(hello())));
}

#[test]
fn logs_of_different_files_do_not_touch() {
    let project = Project::from_path("/p".to_string());
    let mut storage = Storage::new();
    store(&project, &mut storage, "a.txt", &hello());
    store(&project, &mut storage, "b.txt", &vec![]);
    assert_eq!(read(&project, &storage, "a.txt"), Ok(Some(hello())));
    assert_eq!(read(&project, &storage, "b.txt"), Ok(Some(vec![])));
    assert_eq!(read(&project, &storage, "c.txt"), Ok(None));
    assert_eq!(read(&project, &storage, "meta"), Ok(None));
}

#[test]
fn read_twice_gives_the_same() {
    let project = Project::from_path("/p".to_string());
    let mut storage = Storage::new();
    assert_eq!(read(&project, &storage, "a.txt"), read(&project, &storage, "a.txt"));
    store(&project, &mut storage, "a.txt", &hello());
    assert_eq!(read(&project, &storage, "a.txt"), read(&project, &storage, "a.txt"));
    storage.load(project.deltas_path_for("b.txt"), vec![1]);
    let first = read(&project, &storage, "b.txt");
    assert_eq!(first, Err(EngineError::CorruptLog));
    assert_eq!(first, read(&project, &storage, "b.txt"));
}

#[test]
fn a_reader_sees_the_old_log_or_the_new_one() {
    let project = Project::from_path("/p".to_string());
    let mut disk = Storage::new();
    disk.load(project.deltas_path_for("a.txt"), encode_log(&hello()));
    let mut engine = Storage::new();
    engine.load(project.deltas_path_for("a.txt"), encode_log(&hello()));

    let newer: Vec<Delta> = vec![];
    write_with(Ok(sample_session()), &project, &mut engine, "a.txt", &newer).unwrap();
    let steps = engine.take_pending();
    assert_eq!(steps.len(), 6);

    let mut seen_new = false;
    for step in steps {
        disk.perform(step);
        let found = read(&project, &disk, "a.txt").unwrap().unwrap();
        if found == newer {
            seen_new = true;
        } else {
            assert!(!seen_new);
            assert_eq!(found, hello());
        }
    }
    assert!(seen_new);
    assert_eq!(read(&project, &disk, "a.txt"), read(&project, &engine, "a.txt"));
    assert_eq!(disk.get("/p/.git/gb/session/meta"), engine.get("/p/.git/gb/session/meta"));
    assert_eq!(disk.get("/p/.git/gb/session/tmp"), None);
}
