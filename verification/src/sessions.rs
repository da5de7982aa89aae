//! Sessions: bounded periods of editing, each anchored to the commit that was
//! the repository's `HEAD` when it began. At most one is active in a project.
use crate::error::EngineError;
use crate::projects::{marker_path, scratch_path, session_dir, Project};
use crate::repository::{id_text, is_hex_digit, is_object_name, reference_id};
use crate::storage::{replace_steps, replaced, Storage, StorageView};
use crate::wire::{
    lemma_parse_text_bytes, lemma_parse_text_canonical, lemma_parse_u128_bytes,
    lemma_parse_u128_canonical, parse_text, parse_u128, put_text, put_u128, take_text, take_u128,
    text_bytes, text_encodable, word128_bytes,
};
use vstd::prelude::*;
use vstd::utf8::{is_ascii_chars, is_ascii_chars_encode_utf8};

verus! {

/// One period of editing.
#[derive(Debug, PartialEq, Eq)]
pub struct Session {
    /// Stable for as long as the session is active. It is derived from the
    /// anchor alone, so a session opened later at the same commit has the
    /// same id.
    pub id: String,
    /// When the session began, in milliseconds since the Unix epoch.
    pub start_timestamp_ms: u128,
    /// The name of the commit that `HEAD` stood for when the session began.
    pub anchor: String,
}

/// The mathematical value of a [`Session`].
pub struct SessionView {
    pub id: Seq<char>,
    pub start_timestamp_ms: nat,
    pub anchor: Seq<char>,
}

impl View for Session {
    type V = SessionView;

    open spec fn view(&self) -> SessionView {
        SessionView {
            id: self.id@,
            start_timestamp_ms: self.start_timestamp_ms as nat,
            anchor: self.anchor@,
        }
    }
}

impl Clone for Session {
    fn clone(&self) -> (copy: Self)
        ensures
            copy == *self,
    {
        Session {
            id: self.id.clone(),
            start_timestamp_ms: self.start_timestamp_ms,
            anchor: self.anchor.clone(),
        }
    }
}

/// The session that begins at time `now_ms` on the commit named `anchor`.
pub open spec fn session_at(anchor: Seq<char>, now_ms: nat) -> SessionView {
    SessionView { id: anchor, start_timestamp_ms: now_ms, anchor }
}

/// The four bytes that open every stored session marker.
pub open spec fn session_magic() -> Seq<u8> {
    seq![0x53u8, 0x45u8, 0x53u8, 0x31u8]
}

/// Whether the session's numbers fit the widths of the stored form. Every
/// session that is held in memory does.
pub open spec fn session_encodable(session: SessionView) -> bool {
    &&& text_encodable(session.id)
    &&& session.start_timestamp_ms <= u128::MAX
    &&& text_encodable(session.anchor)
}

/// A session marker as stored: the magic bytes, the id, the start, the anchor.
pub open spec fn session_bytes(session: SessionView) -> Seq<u8> {
    session_magic() + text_bytes(session.id) + word128_bytes(session.start_timestamp_ms as u128)
        + text_bytes(session.anchor)
}

/// Reads a whole stored session marker: nothing may follow the anchor.
pub open spec fn parse_session(s: Seq<u8>) -> Option<SessionView> {
    if s.len() >= 4 && s.take(4) == session_magic() {
        match parse_text(s.skip(4)) {
            Some((id, after_id)) => match parse_u128(after_id) {
                Some((start, after_start)) => match parse_text(after_start) {
                    Some((anchor, rest)) => if rest.len() == 0 {
                        Some(SessionView { id, start_timestamp_ms: start as nat, anchor })
                    } else {
                        None
                    },
                    None => None,
                },
                None => None,
            },
            None => None,
        }
    } else {
        None
    }
}

/// Reading the stored form of a session gives the session back.
pub proof fn lemma_parse_session_bytes(session: SessionView)
    requires
        session_encodable(session),
    ensures
        parse_session(session_bytes(session)) == Some(session),
{
    let s = session_bytes(session);
    let start = session.start_timestamp_ms as u128;
    let none = Seq::<u8>::empty();
    assert(s.take(4) =~= session_magic());
    assert(s.skip(4) =~= text_bytes(session.id) + (word128_bytes(start) + (text_bytes(
        session.anchor,
    ) + none)));
    lemma_parse_text_bytes(session.id, word128_bytes(start) + (text_bytes(session.anchor) + none));
    lemma_parse_u128_bytes(start, text_bytes(session.anchor) + none);
    lemma_parse_text_bytes(session.anchor, none);
}

/// Whatever is read as a session is the stored form of that session.
pub proof fn lemma_parse_session_canonical(s: Seq<u8>)
    requires
        parse_session(s) is Some,
    ensures
        session_encodable(parse_session(s).unwrap()),
        s == session_bytes(parse_session(s).unwrap()),
{
    lemma_parse_text_canonical(s.skip(4));
    let after_id = parse_text(s.skip(4)).unwrap().1;
    lemma_parse_u128_canonical(after_id);
    let after_start = parse_u128(after_id).unwrap().1;
    lemma_parse_text_canonical(after_start);
    assert(s =~= s.take(4) + s.skip(4));
}

/// The session that the files mark as active: `Ok(None)` where there is no
/// marker, [`EngineError::CorruptLog`] where the marker is not the stored form of
/// any session.
pub open spec fn current_session(files: Map<Seq<char>, Seq<u8>>, root: Seq<char>) -> Result<
    Option<SessionView>,
    EngineError,
> {
    if !files.contains_key(marker_path(root)) {
        Ok(None)
    } else {
        match parse_session(files[marker_path(root)]) {
            Some(session) => Ok(Some(session)),
            None => Err(EngineError::CorruptLog),
        }
    }
}

/// The storage once `session` has been made the active one.
pub open spec fn activated(storage: StorageView, root: Seq<char>, session: SessionView)
    -> StorageView {
    StorageView {
        files: replaced(
            storage.files,
            scratch_path(root),
            marker_path(root),
            session_bytes(session),
        ),
        pending: storage.pending + replace_steps(
            session_dir(root),
            scratch_path(root),
            marker_path(root),
            session_bytes(session),
        ),
    }
}

/// What the repository may have answered when it was asked for a new session
/// at time `now_ms`: a session at one of its commits, or [`EngineError::Io`].
pub open spec fn from_head_allows(candidate: Result<SessionView, EngineError>, now_ms: nat)
    -> bool {
    match candidate {
        Ok(session) => is_object_name(session.anchor) && session == session_at(
            session.anchor,
            now_ms,
        ),
        Err(e) => e == EngineError::Io,
    }
}

/// A session that the repository's `HEAD` gave has a stored form.
pub proof fn lemma_head_session_encodable(session: SessionView, now_ms: nat)
    requires
        from_head_allows(Ok(session), now_ms),
        now_ms <= u128::MAX,
    ensures
        session_encodable(session),
{
    assert forall|i: int| 0 <= i < session.anchor.len() implies '\0'
        <= #[trigger] session.anchor[i] <= '\u{7f}' by {
        assert(is_hex_digit(session.anchor[i]));
    }
    is_ascii_chars_encode_utf8(session.anchor);
}

/// The session that the files mark as active has a stored form: the marker
/// holds it.
pub proof fn lemma_current_session_encodable(files: Map<Seq<char>, Seq<u8>>, root: Seq<char>)
    requires
        current_session(files, root) is Ok,
        current_session(files, root)->Ok_0 is Some,
    ensures
        session_encodable(current_session(files, root)->Ok_0->Some_0),
        files[marker_path(root)] == session_bytes(current_session(files, root)->Ok_0->Some_0),
{
    lemma_parse_session_canonical(files[marker_path(root)]);
}

/// Check, then create if absent: the session that is active afterwards, and
/// the storage afterwards. An active session is returned as it is and nothing
/// is touched; where none is active, the candidate becomes the active one; an
/// unreadable marker and a failed candidate are errors and touch nothing.
pub open spec fn ensured(
    storage: StorageView,
    root: Seq<char>,
    candidate: Result<SessionView, EngineError>,
) -> (StorageView, Result<SessionView, EngineError>) {
    match current_session(storage.files, root) {
        Err(e) => (storage, Err(e)),
        Ok(Some(session)) => (storage, Ok(session)),
        Ok(None) => match candidate {
            Ok(session) => (activated(storage, root, session), Ok(session)),
            Err(e) => (storage, Err(e)),
        },
    }
}

/// The views of what [`Session::current`] returns.
pub open spec fn lookup_view(found: Result<Option<Session>, EngineError>) -> Result<
    Option<SessionView>,
    EngineError,
> {
    match found {
        Ok(Some(session)) => Ok(Some(session@)),
        Ok(None) => Ok(None),
        Err(e) => Err(e),
    }
}

/// The view of a session or an error.
pub open spec fn session_view(found: Result<Session, EngineError>) -> Result<
    SessionView,
    EngineError,
> {
    match found {
        Ok(session) => Ok(session@),
        Err(e) => Err(e),
    }
}

impl Session {
    /// The session that begins at time `now_ms` on the commit named `anchor`.
    pub fn anchored(anchor: String, now_ms: u128) -> (session: Session)
        ensures
            session@ == session_at(anchor@, now_ms as nat),
    {
        Session { id: anchor.clone(), start_timestamp_ms: now_ms, anchor }
    }

    /// The stored form of the session.
    pub fn encode(&self) -> (bytes: Vec<u8>)
        ensures
            session_encodable(self@),
            bytes@ == session_bytes(self@),
    {
        let mut out: Vec<u8> = Vec::new();
        out.push(0x53u8);
        out.push(0x45u8);
        out.push(0x53u8);
        out.push(0x31u8);
        put_text(&mut out, self.id.as_str());
        put_u128(&mut out, self.start_timestamp_ms);
        put_text(&mut out, self.anchor.as_str());
        out
    }

    /// Reads a whole stored session marker, as [`parse_session`] does.
    fn parse(bytes: &[u8]) -> (read: Option<Session>)
        ensures
            match parse_session(bytes@) {
                Some(session) => read is Some && read.unwrap()@ == session,
                None => read is None,
            },
    {
        if bytes.len() < 4 {
            return None;
        }
        if bytes[0] != 0x53u8 || bytes[1] != 0x45u8 || bytes[2] != 0x53u8 || bytes[3] != 0x31u8 {
            return None;
        }
        assert(bytes@.take(4) =~= session_magic());
        let (id, after_id) = match take_text(bytes, 4) {
            Some(found) => found,
            None => {
                return None;
            },
        };
        let (start_timestamp_ms, after_start) = match take_u128(bytes, after_id) {
            Some(found) => found,
            None => {
                return None;
            },
        };
        match take_text(bytes, after_start) {
            Some((anchor, end)) => {
                if end == bytes.len() {
                    Some(Session { id, start_timestamp_ms, anchor })
                } else {
                    None
                }
            },
            None => None,
        }
    }

    /// Reads a stored session marker back. Succeeds exactly on the byte
    /// strings that are the stored form of a session, and then returns that
    /// session; every other byte string is [`EngineError::CorruptLog`].
    pub fn decode(bytes: &[u8]) -> (result: Result<Session, EngineError>)
        ensures
            match result {
                Ok(session) => session_encodable(session@) && session_bytes(session@) == bytes@,
                Err(e) => e == EngineError::CorruptLog && forall|other: SessionView|
                    session_encodable(other) ==> #[trigger] session_bytes(other) != bytes@,
            },
            session_view(result) == match parse_session(bytes@) {
                Some(session) => Ok::<SessionView, EngineError>(session),
                None => Err(EngineError::CorruptLog),
            },
    {
        match Session::parse(bytes) {
            Some(session) => {
                proof {
                    lemma_parse_session_canonical(bytes@);
                }
                Ok(session)
            },
            None => {
                assert forall|other: SessionView| session_encodable(other) implies
                    #[trigger] session_bytes(other) != bytes@ by {
                    if session_bytes(other) == bytes@ {
                        lemma_parse_session_bytes(other);
                    }
                }
                Err(EngineError::CorruptLog)
            },
        }
    }

    /// The session that is active in the project, if there is one. Creates
    /// none and changes nothing.
    pub fn current(_repo: &git2::Repository, project: &Project, storage: &Storage) -> (found:
        Result<Option<Session>, EngineError>)
        ensures
            lookup_view(found) == current_session(storage@.files, project.path@),
    {
        let marker = project.session_marker_path();
        match storage.get(marker.as_str()) {
            None => Ok(None),
            Some(bytes) => match Session::decode(bytes.as_slice()) {
                Ok(session) => Ok(Some(session)),
                Err(e) => Err(e),
            },
        }
    }

    /// Describes a new session, anchored to the commit that `HEAD` stands for
    /// and beginning at `now_ms`. Stores nothing and marks nothing active.
    /// Fails with [`EngineError::Io`] where the repository names no such commit.
    pub fn from_head(repo: &git2::Repository, _project: &Project, now_ms: u128) -> (session:
        Result<Session, EngineError>)
        ensures
            from_head_allows(session_view(session), now_ms as nat),
    {
        match reference_id(repo, "HEAD") {
            Ok(id) => Ok(Session::anchored(id_text(&id), now_ms)),
            Err(_) => Err(EngineError::Io),
        }
    }

    /// Makes this session the active one: its marker replaces whatever the
    /// marker's path held.
    pub fn activate(&self, project: &Project, storage: &mut Storage)
        ensures
            session_encodable(self@),
            final(storage)@ == activated(old(storage)@, project.path@, self@),
    {
        storage.replace(
            project.session_path(),
            project.scratch_file_path(),
            project.session_marker_path(),
            self.encode(),
        );
    }

    /// Check, then create if absent, with the repository's answer in hand:
    /// see [`ensured`].
    pub fn ensure_current_with(
        candidate: Result<Session, EngineError>,
        project: &Project,
        storage: &mut Storage,
    ) -> (session: Result<Session, EngineError>)
        ensures
            final(storage)@ == ensured(old(storage)@, project.path@, session_view(candidate)).0,
            session_view(session) == ensured(
                old(storage)@,
                project.path@,
                session_view(candidate),
            ).1,
            session is Ok ==> session_encodable(session.unwrap()@),
    {
        let marker = project.session_marker_path();
        let found = match storage.get(marker.as_str()) {
            None => Ok(None),
            Some(bytes) => match Session::decode(bytes.as_slice()) {
                Ok(session) => Ok(Some(session)),
                Err(e) => Err(e),
            },
        };
        match found {
            Err(e) => Err(e),
            Ok(Some(session)) => Ok(session),
            Ok(None) => match candidate {
                Ok(session) => {
                    session.activate(project, storage);
                    Ok(session)
                },
                Err(e) => Err(e),
            },
        }
    }

    /// The session that is active in the project; where none is, a new one
    /// from the repository's `HEAD` is made the active one. Whatever the
    /// repository answers, the outcome is that of [`ensured`] for an answer
    /// that [`from_head_allows`]; the repository is asked only where no
    /// session is active.
    pub fn ensure_current(
        repo: &git2::Repository,
        project: &Project,
        storage: &mut Storage,
        now_ms: u128,
    ) -> (session: Result<Session, EngineError>)
        ensures
            exists|candidate: Result<SessionView, EngineError>|
                {
                    &&& from_head_allows(candidate, now_ms as nat)
                    &&& final(storage)@ == (#[trigger] ensured(
                        old(storage)@,
                        project.path@,
                        candidate,
                    )).0
                    &&& session_view(session) == ensured(old(storage)@, project.path@, candidate).1
                },
            session is Ok ==> session_encodable(session.unwrap()@),
    {
        match Session::current(repo, project, storage) {
            Ok(None) => {
                let candidate = Session::from_head(repo, project, now_ms);
                let ghost answer = session_view(candidate);
                let session = Session::ensure_current_with(candidate, project, storage);
                session
            },
            Ok(Some(session)) => {
                let ghost answer = Err::<SessionView, EngineError>(EngineError::Io);
                assert(storage@ == ensured(old(storage)@, project.path@, answer).0);
                proof {
                    lemma_current_session_encodable(storage@.files, project.path@);
                }
                Ok(session)
            },
            Err(e) => {
                let ghost answer = Err::<SessionView, EngineError>(EngineError::Io);
                assert(storage@ == ensured(old(storage)@, project.path@, answer).0);
                Err(e)
            },
        }
    }
}

} // verus!
