//! What holds of the engine as a whole: how reading, writing and the session
//! lifecycle go together.
use crate::deltas::{stored_log, with_log, written, DeltaView};
use crate::error::EngineError;
use crate::log_format::{
    lemma_parse_log_bytes, lemma_parse_log_canonical, log_bytes, log_encodable, parse_log,
};
use crate::projects::{
    lemma_paths_distinct, log_path, marker_path, parent_path, scratch_path, session_dir,
};
use crate::sessions::{
    activated, current_session, ensured, lemma_parse_session_bytes, lemma_parse_session_canonical,
    session_at, session_bytes, session_encodable, SessionView,
};
use crate::storage::{
    lemma_perform_all_concat, lemma_replace_steps, perform_all, replace_steps, replaced, StepView,
    StorageView,
};
use vstd::prelude::*;

verus! {

/// No two logs have the same stored form.
pub proof fn lemma_log_bytes_injective(first: Seq<DeltaView>, second: Seq<DeltaView>)
    requires
        log_encodable(first),
        log_encodable(second),
        log_bytes(first) == log_bytes(second),
    ensures
        first == second,
{
    lemma_parse_log_bytes(first);
    lemma_parse_log_bytes(second);
}

/// No two sessions have the same stored form.
pub proof fn lemma_session_bytes_injective(first: SessionView, second: SessionView)
    requires
        session_encodable(first),
        session_encodable(second),
        session_bytes(first) == session_bytes(second),
    ensures
        first == second,
{
    lemma_parse_session_bytes(first);
    lemma_parse_session_bytes(second);
}

/// The stored log of a file is `deltas` exactly where the file's log path
/// holds the stored form of `deltas`.
pub proof fn lemma_stored_log_is_decoding(
    files: Map<Seq<char>, Seq<u8>>,
    root: Seq<char>,
    file_path: Seq<char>,
    deltas: Seq<DeltaView>,
)
    ensures
        stored_log(files, root, file_path) == Ok::<Option<Seq<DeltaView>>, EngineError>(
            Some(deltas),
        ) <==> {
            &&& files.contains_key(log_path(root, file_path))
            &&& log_encodable(deltas)
            &&& files[log_path(root, file_path)] == log_bytes(deltas)
        },
{
    let path = log_path(root, file_path);
    if files.contains_key(path) {
        if parse_log(files[path]) is Some {
            lemma_parse_log_canonical(files[path]);
        }
        if log_encodable(deltas) && files[path] == log_bytes(deltas) {
            lemma_parse_log_bytes(deltas);
        }
    }
}

/// Absence is not an error: a file for which nothing was ever stored has no
/// log, and reading it is `Ok(None)`.
pub proof fn lemma_absent_log_reads_none(
    files: Map<Seq<char>, Seq<u8>>,
    root: Seq<char>,
    file_path: Seq<char>,
)
    requires
        !files.contains_key(log_path(root, file_path)),
    ensures
        stored_log(files, root, file_path) == Ok::<Option<Seq<DeltaView>>, EngineError>(None),
{
}

/// Corruption is detected: where the log's path holds bytes that are the
/// stored form of no log, reading is [`EngineError::CorruptLog`], never an
/// empty log and never `None`.
pub proof fn lemma_foreign_bytes_read_corrupt(
    files: Map<Seq<char>, Seq<u8>>,
    root: Seq<char>,
    file_path: Seq<char>,
    bytes: Seq<u8>,
)
    requires
        forall|log: Seq<DeltaView>| log_encodable(log) ==> #[trigger] log_bytes(log) != bytes,
    ensures
        stored_log(files.insert(log_path(root, file_path), bytes), root, file_path) == Err::<
            Option<Seq<DeltaView>>,
            EngineError,
        >(EngineError::CorruptLog),
{
    if parse_log(bytes) is Some {
        lemma_parse_log_canonical(bytes);
    }
}

/// A write succeeds exactly where a session is active, or none is and the
/// repository could name its `HEAD`; otherwise it fails with the error of the
/// marker or of the repository, and the storage is exactly as it was.
pub proof fn lemma_write_outcome(
    storage: StorageView,
    root: Seq<char>,
    candidate: Result<SessionView, EngineError>,
    file_path: Seq<char>,
    deltas: Seq<DeltaView>,
)
    ensures
        written(storage, root, candidate, file_path, deltas).1 == (match current_session(
            storage.files,
            root,
        ) {
            Ok(Some(_)) => Ok::<(), EngineError>(()),
            Ok(None) => match candidate {
                Ok(_) => Ok(()),
                Err(e) => Err(e),
            },
            Err(e) => Err(e),
        }),
        written(storage, root, candidate, file_path, deltas).1 is Err ==> written(
            storage,
            root,
            candidate,
            file_path,
            deltas,
        ).0 == storage,
{
}

/// Round trip: after a write that succeeded, reading the same file gives
/// exactly the deltas that were written, in their order, with their
/// operations and timestamps.
pub proof fn lemma_write_then_read(
    storage: StorageView,
    root: Seq<char>,
    candidate: Result<SessionView, EngineError>,
    file_path: Seq<char>,
    deltas: Seq<DeltaView>,
)
    requires
        log_encodable(deltas),
        written(storage, root, candidate, file_path, deltas).1 is Ok,
    ensures
        stored_log(written(storage, root, candidate, file_path, deltas).0.files, root, file_path)
            == Ok::<Option<Seq<DeltaView>>, EngineError>(Some(deltas)),
{
    lemma_parse_log_bytes(deltas);
}

/// A write replaces: after two writes to one file, reading gives the deltas
/// of the second, whatever the first stored.
pub proof fn lemma_last_write_wins(
    storage: StorageView,
    root: Seq<char>,
    file_path: Seq<char>,
    first: Seq<DeltaView>,
    second: Seq<DeltaView>,
)
    requires
        log_encodable(second),
    ensures
        stored_log(
            with_log(with_log(storage, root, file_path, first), root, file_path, second).files,
            root,
            file_path,
        ) == Ok::<Option<Seq<DeltaView>>, EngineError>(Some(second)),
{
    lemma_parse_log_bytes(second);
}

/// A write to one file leaves the log of every other file as it was.
pub proof fn lemma_write_keeps_other_logs(
    storage: StorageView,
    root: Seq<char>,
    candidate: Result<SessionView, EngineError>,
    file_path: Seq<char>,
    deltas: Seq<DeltaView>,
    other: Seq<char>,
)
    requires
        other != file_path,
    ensures
        stored_log(written(storage, root, candidate, file_path, deltas).0.files, root, other)
            == stored_log(storage.files, root, other),
{
    lemma_paths_distinct(root, file_path, other);
    lemma_paths_distinct(root, other, file_path);
}

/// A write creates a session: where none is active and the repository names
/// its `HEAD`, the session that the repository's answer describes is the
/// active one after the write.
pub proof fn lemma_write_creates_session(
    storage: StorageView,
    root: Seq<char>,
    session: SessionView,
    file_path: Seq<char>,
    deltas: Seq<DeltaView>,
)
    requires
        session_encodable(session),
        current_session(storage.files, root) == Ok::<Option<SessionView>, EngineError>(None),
    ensures
        written(storage, root, Ok(session), file_path, deltas).1 is Ok,
        current_session(written(storage, root, Ok(session), file_path, deltas).0.files, root)
            == Ok::<Option<SessionView>, EngineError>(Some(session)),
{
    lemma_paths_distinct(root, file_path, file_path);
    lemma_parse_session_bytes(session);
}

/// A write does not duplicate a session: where one is active, it is still the
/// active one after the write, unchanged, whatever the repository would have
/// answered.
pub proof fn lemma_write_keeps_session(
    storage: StorageView,
    root: Seq<char>,
    session: SessionView,
    candidate: Result<SessionView, EngineError>,
    file_path: Seq<char>,
    deltas: Seq<DeltaView>,
)
    requires
        current_session(storage.files, root) == Ok::<Option<SessionView>, EngineError>(
            Some(session),
        ),
    ensures
        written(storage, root, candidate, file_path, deltas).1 is Ok,
        current_session(written(storage, root, candidate, file_path, deltas).0.files, root)
            == Ok::<Option<SessionView>, EngineError>(Some(session)),
{
    lemma_paths_distinct(root, file_path, file_path);
}

/// The session that a write opens is the one that the repository's `HEAD`
/// gave before the write: where no session is active and `HEAD` names the
/// commit `anchor`, the session active after a write at time `later_ms` has
/// the id of the session described at time `earlier_ms`, and a second write
/// does not replace it.
pub proof fn lemma_session_id_survives_writes(
    storage: StorageView,
    root: Seq<char>,
    anchor: Seq<char>,
    earlier_ms: nat,
    later_ms: nat,
    again: Result<SessionView, EngineError>,
    file_path: Seq<char>,
    deltas: Seq<DeltaView>,
)
    requires
        session_encodable(session_at(anchor, later_ms)),
        current_session(storage.files, root) == Ok::<Option<SessionView>, EngineError>(None),
    ensures
        ({
            let once = written(
                storage,
                root,
                Ok(session_at(anchor, later_ms)),
                file_path,
                deltas,
            ).0;
            let twice = written(once, root, again, file_path, deltas).0;
            &&& current_session(once.files, root) == Ok::<Option<SessionView>, EngineError>(
                Some(session_at(anchor, later_ms)),
            )
            &&& current_session(twice.files, root) == current_session(once.files, root)
            &&& session_at(anchor, later_ms).id == session_at(anchor, earlier_ms).id
        }),
{
    let opened = session_at(anchor, later_ms);
    lemma_write_creates_session(storage, root, opened, file_path, deltas);
    let once = written(storage, root, Ok(opened), file_path, deltas).0;
    lemma_write_keeps_session(once, root, opened, again, file_path, deltas);
}

/// Check-then-create is idempotent: once a session is active, asking again
/// returns it and touches nothing, whatever the repository would answer.
pub proof fn lemma_ensure_current_is_idempotent(
    storage: StorageView,
    root: Seq<char>,
    first: Result<SessionView, EngineError>,
    second: Result<SessionView, EngineError>,
)
    requires
        ensured(storage, root, first).1 is Ok,
        first is Ok ==> session_encodable(first->Ok_0),
    ensures
        ensured(ensured(storage, root, first).0, root, second) == ensured(storage, root, first),
{
    lemma_paths_distinct(root, root, root);
    match current_session(storage.files, root) {
        Ok(None) => {
            lemma_parse_session_bytes(first->Ok_0);
        },
        _ => {},
    }
}

/// Reading is repeatable: two reads of one file with no write between them
/// give the same result, and the steps that wait for the disk play no part.
pub proof fn lemma_read_is_repeatable(
    storage: StorageView,
    later: StorageView,
    root: Seq<char>,
    file_path: Seq<char>,
    first: Result<Option<Seq<DeltaView>>, EngineError>,
    second: Result<Option<Seq<DeltaView>>, EngineError>,
)
    requires
        later.files == storage.files,
        first == stored_log(storage.files, root, file_path),
        second == stored_log(later.files, root, file_path),
    ensures
        first == second,
{
}

/// The queue tells the whole story: a write only adds steps to the end of
/// the queue, and performing the added steps on the files as they were gives
/// the files as the engine sees them afterwards.
pub proof fn lemma_written_files_follow_steps(
    storage: StorageView,
    root: Seq<char>,
    candidate: Result<SessionView, EngineError>,
    file_path: Seq<char>,
    deltas: Seq<DeltaView>,
)
    ensures
        ({
            let after = written(storage, root, candidate, file_path, deltas).0;
            let kept = storage.pending.len() as int;
            &&& kept <= after.pending.len()
            &&& after.pending.take(kept) == storage.pending
            &&& after.files == perform_all(storage.files, after.pending.skip(kept))
        }),
{
    let after = written(storage, root, candidate, file_path, deltas).0;
    let kept = storage.pending.len() as int;
    let target = log_path(root, file_path);
    let log_steps = replace_steps(
        parent_path(target),
        scratch_path(root),
        target,
        log_bytes(deltas),
    );
    let marker_steps = replace_steps(
        session_dir(root),
        scratch_path(root),
        marker_path(root),
        session_bytes(candidate->Ok_0),
    );
    if written(storage, root, candidate, file_path, deltas).1 is Err {
    } else if current_session(storage.files, root) == Ok::<Option<SessionView>, EngineError>(None) {
        let opened = activated(storage, root, candidate->Ok_0);
        assert(after.pending.skip(kept) =~= marker_steps + log_steps);
        lemma_perform_all_concat(storage.files, marker_steps, log_steps);
        lemma_replace_steps(
            storage.files,
            session_dir(root),
            scratch_path(root),
            marker_path(root),
            session_bytes(candidate->Ok_0),
        );
        lemma_replace_steps(
            opened.files,
            parent_path(target),
            scratch_path(root),
            target,
            log_bytes(deltas),
        );
    } else {
        assert(after.pending.skip(kept) =~= log_steps);
        lemma_replace_steps(
            storage.files,
            parent_path(target),
            scratch_path(root),
            target,
            log_bytes(deltas),
        );
    }
}

/// A write is atomic for readers: however many of the steps that a write
/// has queued have reached the disk, a reader of the file finds the log as it
/// was before the write or the log that was written, never anything else.
pub proof fn lemma_write_is_atomic_for_readers(
    storage: StorageView,
    root: Seq<char>,
    candidate: Result<SessionView, EngineError>,
    file_path: Seq<char>,
    deltas: Seq<DeltaView>,
    done: int,
)
    requires
        log_encodable(deltas),
        0 <= done <= written(storage, root, candidate, file_path, deltas).0.pending.len()
            - storage.pending.len(),
    ensures
        ({
            let after = written(storage, root, candidate, file_path, deltas).0;
            let added = after.pending.skip(storage.pending.len() as int);
            let seen = stored_log(perform_all(storage.files, added.take(done)), root, file_path);
            ||| seen == stored_log(storage.files, root, file_path)
            ||| seen == Ok::<Option<Seq<DeltaView>>, EngineError>(Some(deltas))
        }),
{
    let after = written(storage, root, candidate, file_path, deltas).0;
    let added = after.pending.skip(storage.pending.len() as int);
    let target = log_path(root, file_path);
    let scratch = scratch_path(root);
    let marker = marker_path(root);
    let log_steps = replace_steps(parent_path(target), scratch, target, log_bytes(deltas));
    lemma_paths_distinct(root, file_path, file_path);
    lemma_parse_log_bytes(deltas);
    if written(storage, root, candidate, file_path, deltas).1 is Err {
        assert(added.take(done) =~= Seq::<StepView>::empty());
    } else if current_session(storage.files, root) == Ok::<Option<SessionView>, EngineError>(None) {
        let session = candidate->Ok_0;
        let marker_steps = replace_steps(session_dir(root), scratch, marker, session_bytes(session));
        assert(added =~= marker_steps + log_steps);
        if done <= 3 {
            assert(added.take(done) =~= marker_steps.take(done));
            lemma_replacement_is_atomic(
                storage.files,
                session_dir(root),
                scratch,
                marker,
                session_bytes(session),
                done,
                target,
            );
        } else {
            let opened = replaced(storage.files, scratch, marker, session_bytes(session));
            assert(added.take(done) =~= marker_steps + log_steps.take(done - 3));
            lemma_perform_all_concat(storage.files, marker_steps, log_steps.take(done - 3));
            lemma_replace_steps(
                storage.files,
                session_dir(root),
                scratch,
                marker,
                session_bytes(session),
            );
            lemma_replacement_is_atomic(
                opened,
                parent_path(target),
                scratch,
                target,
                log_bytes(deltas),
                done - 3,
                marker,
            );
        }
    } else {
        assert(added =~= log_steps);
        lemma_replacement_is_atomic(
            storage.files,
            parent_path(target),
            scratch,
            target,
            log_bytes(deltas),
            done,
            marker,
        );
    }
}

/// A replacement is atomic: after any number of its steps, the target holds
/// what it held before or the new bytes in full, and a file that is neither
/// the target nor the scratch file is as it was.
pub proof fn lemma_replacement_is_atomic(
    files: Map<Seq<char>, Seq<u8>>,
    dir: Seq<char>,
    scratch: Seq<char>,
    target: Seq<char>,
    bytes: Seq<u8>,
    done: int,
    other: Seq<char>,
)
    requires
        scratch != target,
        0 <= done <= 3,
        other != scratch,
        other != target,
    ensures
        ({
            let now = perform_all(files, replace_steps(dir, scratch, target, bytes).take(done));
            &&& now.contains_key(target) ==> (files.contains_key(target) && now[target]
                == files[target]) || now[target] == bytes
            &&& !now.contains_key(target) ==> !files.contains_key(target)
            &&& now.contains_key(other) == files.contains_key(other)
            &&& now.contains_key(other) ==> now[other] == files[other]
            &&& done == 3 ==> now == replaced(files, scratch, target, bytes)
        }),
{
    let steps = replace_steps(dir, scratch, target, bytes);
    let some = steps.take(done);
    let written = files.insert(scratch, bytes);
    if done == 1 {
        assert(perform_all(files, some.drop_first()) == files);
    } else if done == 2 {
        let one = some.drop_first();
        assert(perform_all(written, one.drop_first()) == written);
        assert(perform_all(files, one) == written);
    } else if done == 3 {
        assert(some =~= steps);
        lemma_replace_steps(files, dir, scratch, target, bytes);
    }
}

} // verus!
