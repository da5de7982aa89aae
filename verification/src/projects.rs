//! Where a project keeps what the engine stores.
use vstd::prelude::*;
use vstd::string::*;

verus! {

/// A tracked working copy, known by the path of its root.
#[derive(Debug, PartialEq, Eq)]
pub struct Project {
    pub path: String,
}

impl Clone for Project {
    fn clone(&self) -> (copy: Self)
        ensures
            copy == *self,
    {
        Project { path: self.path.clone() }
    }
}

/// The directory of the session that is active, below the project's root.
pub open spec fn session_dir(root: Seq<char>) -> Seq<char> {
    root + "/.git/gb/session"@
}

/// The file that marks a session as active and describes it.
pub open spec fn marker_path(root: Seq<char>) -> Seq<char> {
    session_dir(root) + "/meta"@
}

/// The file into which new contents are written before they replace a target.
pub open spec fn scratch_path(root: Seq<char>) -> Seq<char> {
    session_dir(root) + "/tmp"@
}

/// The directory of the active session's logs.
pub open spec fn deltas_dir(root: Seq<char>) -> Seq<char> {
    session_dir(root) + "/deltas"@
}

/// The log of one tracked file.
pub open spec fn log_path(root: Seq<char>, file_path: Seq<char>) -> Seq<char> {
    deltas_dir(root) + "/"@ + file_path
}

/// The path without its last component: all that stands before the last `/`,
/// or nothing where there is no `/`.
pub open spec fn parent_path(path: Seq<char>) -> Seq<char>
    decreases path.len(),
{
    if path.len() == 0 {
        path
    } else if path.last() == '/' {
        path.drop_last()
    } else {
        parent_path(path.drop_last())
    }
}

/// The marker, the scratch file and the logs never share a path, and two
/// tracked files never share a log.
pub proof fn lemma_paths_distinct(root: Seq<char>, file_path: Seq<char>, other: Seq<char>)
    ensures
        marker_path(root) != scratch_path(root),
        marker_path(root) != log_path(root, file_path),
        scratch_path(root) != log_path(root, file_path),
        file_path != other ==> log_path(root, file_path) != log_path(root, other),
{
    reveal_strlit("/.git/gb/session");
    reveal_strlit("/meta");
    reveal_strlit("/tmp");
    reveal_strlit("/deltas");
    reveal_strlit("/");
    let at: int = session_dir(root).len() as int + 1;
    assert(scratch_path(root)[at] == 't');
    assert(log_path(root, file_path)[at] == 'd');
    if file_path != other && log_path(root, file_path) == log_path(root, other) {
        let prefix = deltas_dir(root) + "/"@;
        assert(file_path =~= log_path(root, file_path).skip(prefix.len() as int));
        assert(other =~= log_path(root, other).skip(prefix.len() as int));
    }
}

/// Finds the directory that holds `path`.
pub fn parent_of(path: &str) -> (dir: String)
    ensures
        dir@ == parent_path(path@),
{
    let len: usize = path.unicode_len();
    let mut end: usize = len;
    assert(path@.take(end as int) =~= path@);
    while end > 0
        invariant
            end <= len,
            len == path@.len(),
            parent_path(path@) == parent_path(path@.take(end as int)),
        decreases end,
    {
        let ghost head = path@.take(end as int);
        assert(head.drop_last() =~= path@.take(end - 1));
        if path.get_char(end - 1) == '/' {
            return String::from_str(path.substring_char(0, end - 1));
        }
        end -= 1;
    }
    String::new()
}

impl Project {
    /// The project rooted at `path`.
    pub fn from_path(path: String) -> (project: Project)
        ensures
            project.path == path,
    {
        Project { path }
    }

    /// The path of the project's root.
    pub fn root_path(&self) -> (path: &String)
        ensures
            path == self.path,
    {
        &self.path
    }

    /// The directory of the active session.
    pub fn session_path(&self) -> (path: String)
        ensures
            path@ == session_dir(self.path@),
    {
        let mut path = self.path.clone();
        path.append("/.git/gb/session");
        path
    }

    /// The file that marks a session as active.
    pub fn session_marker_path(&self) -> (path: String)
        ensures
            path@ == marker_path(self.path@),
    {
        let mut path = self.session_path();
        path.append("/meta");
        path
    }

    /// The file into which new contents are written first.
    pub fn scratch_file_path(&self) -> (path: String)
        ensures
            path@ == scratch_path(self.path@),
    {
        let mut path = self.session_path();
        path.append("/tmp");
        path
    }

    /// The directory of the active session's logs.
    pub fn deltas_path(&self) -> (path: String)
        ensures
            path@ == deltas_dir(self.path@),
    {
        let mut path = self.session_path();
        path.append("/deltas");
        path
    }

    /// Where the log of the tracked file `file_path` is stored.
    pub fn deltas_path_for(&self, file_path: &str) -> (path: String)
        ensures
            path@ == log_path(self.path@, file_path@),
    {
        let mut path = self.deltas_path();
        path.append("/");
        path.append(file_path);
        path
    }
}

} // verus!
