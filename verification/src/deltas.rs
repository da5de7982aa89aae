//! Deltas, their replay, and the log of deltas that is kept for each tracked
//! file of a project.
use crate::error::EngineError;
use crate::log_format::{decode_log, encode_log, log_bytes, log_encodable, parse_log};
use crate::operations::{apply, apply_operations, views, Operation, OperationView};
use crate::projects::{log_path, parent_of, parent_path, scratch_path, Project};
use crate::sessions::{
    ensured, from_head_allows, session_encodable, session_view, Session, SessionView,
};
use crate::storage::{replace_steps, replaced, Storage, StorageView};
use vstd::prelude::*;
use vstd::string::*;

verus! {

/// The operations that were applied to a file's text at one moment, in the
/// order in which they were applied.
#[derive(Debug, PartialEq, Eq)]
pub struct Delta {
    pub operations: Vec<Operation>,
    /// Milliseconds since the Unix epoch.
    pub timestamp_ms: u128,
}

/// The mathematical value of a [`Delta`].
pub struct DeltaView {
    pub operations: Seq<OperationView>,
    pub timestamp_ms: nat,
}

impl View for Delta {
    type V = DeltaView;

    open spec fn view(&self) -> DeltaView {
        DeltaView { operations: views(self.operations@), timestamp_ms: self.timestamp_ms as nat }
    }
}

impl Clone for Delta {
    fn clone(&self) -> (copy: Self)
        ensures
            copy@ == self@,
    {
        let mut operations: Vec<Operation> = Vec::new();
        let mut i: usize = 0;
        while i < self.operations.len()
            invariant
                i <= self.operations.len(),
                operations@ == self.operations@.take(i as int),
            decreases self.operations.len() - i,
        {
            operations.push(self.operations[i].clone());
            i += 1;
        }
        assert(operations@ =~= self.operations@);
        Delta { operations, timestamp_ms: self.timestamp_ms }
    }
}

/// All operations of the deltas, in delta order and, within a delta, in
/// operation order.
pub open spec fn all_operations(deltas: Seq<DeltaView>) -> Seq<OperationView>
    decreases deltas.len(),
{
    if deltas.len() == 0 {
        Seq::empty()
    } else {
        deltas[0].operations + all_operations(deltas.drop_first())
    }
}

/// The text that the deltas lead to from `text`, or `None` where one of their
/// operations points outside the text it meets.
pub open spec fn replay_deltas(text: Seq<char>, deltas: Seq<DeltaView>) -> Option<Seq<char>> {
    apply_operations(text, all_operations(deltas))
}

/// The operations of `first + second` are those of `first`, then those of `second`.
pub proof fn lemma_all_operations_concat(first: Seq<DeltaView>, second: Seq<DeltaView>)
    ensures
        all_operations(first + second) == all_operations(first) + all_operations(second),
    decreases first.len(),
{
    if first.len() > 0 {
        assert((first + second).drop_first() =~= first.drop_first() + second);
        lemma_all_operations_concat(first.drop_first(), second);
    }
}

/// Replaying a log is replaying any prefix of it and then, from the text that
/// the prefix leads to, the rest.
pub proof fn lemma_replay_prefix(text: Seq<char>, deltas: Seq<DeltaView>, count: int)
    requires
        0 <= count <= deltas.len(),
    ensures
        replay_deltas(text, deltas) == match replay_deltas(text, deltas.take(count)) {
            Some(middle) => replay_deltas(middle, deltas.skip(count)),
            None => None,
        },
{
    assert(deltas =~= deltas.take(count) + deltas.skip(count));
    lemma_all_operations_concat(deltas.take(count), deltas.skip(count));
    crate::operations::lemma_apply_operations_concat(
        text,
        all_operations(deltas.take(count)),
        all_operations(deltas.skip(count)),
    );
}

/// Reconstructs the text that the deltas lead to from `base_text`: the
/// operations are applied in delta order and, within a delta, in operation
/// order. Fails with [`EngineError::OutOfRange`] where one of them points outside
/// the text it meets. Touches nothing but its arguments.
pub fn replay(base_text: &str, deltas: &Vec<Delta>) -> (result: Result<String, EngineError>)
    ensures
        match result {
            Ok(text) => replay_deltas(base_text@, views(deltas@)) == Some(text@),
            Err(e) => e == EngineError::OutOfRange && replay_deltas(
                base_text@,
                views(deltas@),
            ) is None,
        },
{
    let mut text = String::from_str(base_text);
    let mut i: usize = 0;
    assert(views(deltas@).skip(0) =~= views(deltas@));
    while i < deltas.len()
        invariant
            i <= deltas.len(),
            replay_deltas(base_text@, views(deltas@)) == replay_deltas(
                text@,
                views(deltas@).skip(i as int),
            ),
        decreases deltas.len() - i,
    {
        let ghost rest = views(deltas@).skip(i as int);
        proof {
            assert(rest.drop_first() =~= views(deltas@).skip(i + 1));
            crate::operations::lemma_apply_operations_concat(
                text@,
                rest[0].operations,
                all_operations(rest.drop_first()),
            );
        }
        match apply(text.as_str(), &deltas[i].operations) {
            Ok(next) => {
                text = next;
            },
            Err(e) => {
                return Err(e);
            },
        }
        i += 1;
    }
    Ok(text)
}

/// The log that the files hold for a tracked file: `Ok(None)` where nothing
/// was ever written for it, [`EngineError::CorruptLog`] where what is stored is
/// not the stored form of any log.
pub open spec fn stored_log(
    files: Map<Seq<char>, Seq<u8>>,
    root: Seq<char>,
    file_path: Seq<char>,
) -> Result<Option<Seq<DeltaView>>, EngineError> {
    if !files.contains_key(log_path(root, file_path)) {
        Ok(None)
    } else {
        match parse_log(files[log_path(root, file_path)]) {
            Some(deltas) => Ok(Some(deltas)),
            None => Err(EngineError::CorruptLog),
        }
    }
}

/// The views of what [`read`] returns.
pub open spec fn log_view(found: Result<Option<Vec<Delta>>, EngineError>) -> Result<
    Option<Seq<DeltaView>>,
    EngineError,
> {
    match found {
        Ok(Some(deltas)) => Ok(Some(views(deltas@))),
        Ok(None) => Ok(None),
        Err(e) => Err(e),
    }
}

/// The storage once `deltas` has become the whole log of a tracked file: the
/// log's file is replaced in one atomic step, after its directory was made
/// sure of.
pub open spec fn with_log(
    storage: StorageView,
    root: Seq<char>,
    file_path: Seq<char>,
    deltas: Seq<DeltaView>,
) -> StorageView {
    let target = log_path(root, file_path);
    StorageView {
        files: replaced(storage.files, scratch_path(root), target, log_bytes(deltas)),
        pending: storage.pending + replace_steps(
            parent_path(target),
            scratch_path(root),
            target,
            log_bytes(deltas),
        ),
    }
}

/// What a write does, given what the repository answers if it is asked for a
/// new session: the storage afterwards and the result. The log is stored
/// under the session that [`ensured`] gives; where that fails, the write fails
/// with the same error and the storage is as it was.
pub open spec fn written(
    storage: StorageView,
    root: Seq<char>,
    candidate: Result<SessionView, EngineError>,
    file_path: Seq<char>,
    deltas: Seq<DeltaView>,
) -> (StorageView, Result<(), EngineError>) {
    match ensured(storage, root, candidate).1 {
        Ok(_) => (with_log(ensured(storage, root, candidate).0, root, file_path, deltas), Ok(())),
        Err(e) => (storage, Err(e)),
    }
}

/// Loads the log of the tracked file `file_path`.
///
/// Returns `Ok(None)` where no log was written yet, the log where one is
/// stored, and [`EngineError::CorruptLog`] where something is stored that is
/// not a log: unreadable is never taken for empty.
pub fn read(project: &Project, storage: &Storage, file_path: &str) -> (found: Result<
    Option<Vec<Delta>>,
    EngineError,
>)
    ensures
        log_view(found) == stored_log(storage@.files, project.path@, file_path@),
        !storage@.files.contains_key(log_path(project.path@, file_path@)) ==> found is Ok
            && found.unwrap() is None,
        storage@.files.contains_key(log_path(project.path@, file_path@)) ==> match found {
            Ok(Some(deltas)) => log_bytes(views(deltas@)) == storage@.files[log_path(
                project.path@,
                file_path@,
            )],
            Ok(None) => false,
            Err(e) => e == EngineError::CorruptLog && forall|log: Seq<DeltaView>|
                log_encodable(log) ==> #[trigger] log_bytes(log) != storage@.files[log_path(
                    project.path@,
                    file_path@,
                )],
        },
{
    let path = project.deltas_path_for(file_path);
    match storage.get(path.as_str()) {
        None => Ok(None),
        Some(bytes) => match decode_log(bytes.as_slice()) {
            Ok(deltas) => Ok(Some(deltas)),
            Err(e) => Err(e),
        },
    }
}

/// Makes `deltas` the whole log of the tracked file `file_path`, whatever the
/// log held before.
pub fn store(project: &Project, storage: &mut Storage, file_path: &str, deltas: &Vec<Delta>)
    ensures
        log_encodable(views(deltas@)),
        final(storage)@ == with_log(old(storage)@, project.path@, file_path@, views(deltas@)),
{
    let target = project.deltas_path_for(file_path);
    let dir = parent_of(target.as_str());
    storage.replace(dir, project.scratch_file_path(), target, encode_log(deltas));
}

/// A write with the repository's answer in hand: see [`written`].
pub fn write_with(
    candidate: Result<Session, EngineError>,
    project: &Project,
    storage: &mut Storage,
    file_path: &str,
    deltas: &Vec<Delta>,
) -> (result: Result<(), EngineError>)
    ensures
        final(storage)@ == written(
            old(storage)@,
            project.path@,
            session_view(candidate),
            file_path@,
            views(deltas@),
        ).0,
        result == written(
            old(storage)@,
            project.path@,
            session_view(candidate),
            file_path@,
            views(deltas@),
        ).1,
        result is Ok ==> log_encodable(views(deltas@)) && session_encodable(
            ensured(old(storage)@, project.path@, session_view(candidate)).1->Ok_0,
        ),
{
    match Session::ensure_current_with(candidate, project, storage) {
        Ok(_) => {
            store(project, storage, file_path, deltas);
            Ok(())
        },
        Err(e) => Err(e),
    }
}

/// Stores `deltas` as the whole log of the tracked file `file_path`, under
/// the session that is active; where none is, one is opened at the
/// repository's `HEAD` first. The log that was there is replaced, not
/// extended: the caller passes the complete log.
///
/// Whatever the repository answers, the outcome is that of [`written`] for an
/// answer that [`from_head_allows`]; the repository is asked only where no
/// session is active. A failed write leaves the storage as it was.
pub fn write(
    repo: &git2::Repository,
    project: &Project,
    storage: &mut Storage,
    file_path: &str,
    deltas: &Vec<Delta>,
    now_ms: u128,
) -> (result: Result<(), EngineError>)
    ensures
        exists|candidate: Result<SessionView, EngineError>|
            {
                &&& from_head_allows(candidate, now_ms as nat)
                &&& final(storage)@ == (#[trigger] written(
                    old(storage)@,
                    project.path@,
                    candidate,
                    file_path@,
                    views(deltas@),
                )).0
                &&& result == written(
                    old(storage)@,
                    project.path@,
                    candidate,
                    file_path@,
                    views(deltas@),
                ).1
            },
        result is Ok ==> log_encodable(views(deltas@)),
{
    let session = Session::ensure_current(repo, project, storage, now_ms);
    let ghost candidate = choose|candidate: Result<SessionView, EngineError>|
        {
            &&& from_head_allows(candidate, now_ms as nat)
            &&& storage@ == (#[trigger] ensured(old(storage)@, project.path@, candidate)).0
            &&& session_view(session) == ensured(old(storage)@, project.path@, candidate).1
        };
    match session {
        Ok(_) => {
            store(project, storage, file_path, deltas);
            assert(storage@ == written(
                old(storage)@,
                project.path@,
                candidate,
                file_path@,
                views(deltas@),
            ).0);
            Ok(())
        },
        Err(e) => {
            assert(storage@ == written(
                old(storage)@,
                project.path@,
                candidate,
                file_path@,
                views(deltas@),
            ).0);
            Err(e)
        },
    }
}

} // verus!
