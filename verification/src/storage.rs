//! The engine's picture of a project's stored files, and the steps by which
//! the disk is brought to match it.
//!
//! The engine never touches the disk. Its caller loads what the disk holds
//! into a [`Storage`], lets the engine work on it, and then performs on the
//! disk, in order, the steps that the engine has queued.
use crate::operations::views;
use vstd::prelude::*;
use vstd::slice::*;
use vstd::string::*;

verus! {

/// One change of the disk.
#[derive(Debug, PartialEq, Eq)]
pub enum Step {
    /// Create the directory, and those above it, unless they exist.
    EnsureDir(String),
    /// Write the bytes to the file at the path, replacing what it held.
    WriteFile(String, Vec<u8>),
    /// Move the file at the first path to the second in one atomic step,
    /// replacing what the second held.
    Rename(String, String),
}

/// The mathematical value of a [`Step`].
pub enum StepView {
    EnsureDir(Seq<char>),
    WriteFile(Seq<char>, Seq<u8>),
    Rename(Seq<char>, Seq<char>),
}

impl View for Step {
    type V = StepView;

    open spec fn view(&self) -> StepView {
        match *self {
            Step::EnsureDir(dir) => StepView::EnsureDir(dir@),
            Step::WriteFile(path, bytes) => StepView::WriteFile(path@, bytes@),
            Step::Rename(from, to) => StepView::Rename(from@, to@),
        }
    }
}

/// The files after one step. Directories hold no contents, so creating one
/// changes no file; moving a file that does not exist changes nothing.
pub open spec fn perform(files: Map<Seq<char>, Seq<u8>>, step: StepView) -> Map<
    Seq<char>,
    Seq<u8>,
> {
    match step {
        StepView::EnsureDir(_) => files,
        StepView::WriteFile(path, bytes) => files.insert(path, bytes),
        StepView::Rename(from, to) => if files.contains_key(from) {
            files.remove(from).insert(to, files[from])
        } else {
            files
        },
    }
}

/// The files after the steps, performed in order.
pub open spec fn perform_all(files: Map<Seq<char>, Seq<u8>>, steps: Seq<StepView>) -> Map<
    Seq<char>,
    Seq<u8>,
>
    decreases steps.len(),
{
    if steps.len() == 0 {
        files
    } else {
        perform_all(perform(files, steps[0]), steps.drop_first())
    }
}

/// The steps that replace the file at `target` by `bytes` without ever
/// leaving it half written: make sure that its directory `dir` exists, write
/// the bytes to `scratch`, move `scratch` over `target`.
pub open spec fn replace_steps(
    dir: Seq<char>,
    scratch: Seq<char>,
    target: Seq<char>,
    bytes: Seq<u8>,
) -> Seq<StepView> {
    seq![
        StepView::EnsureDir(dir),
        StepView::WriteFile(scratch, bytes),
        StepView::Rename(scratch, target),
    ]
}

/// The files after a replacement: `target` holds `bytes`, the scratch file is
/// gone, every other file is as it was.
pub open spec fn replaced(
    files: Map<Seq<char>, Seq<u8>>,
    scratch: Seq<char>,
    target: Seq<char>,
    bytes: Seq<u8>,
) -> Map<Seq<char>, Seq<u8>> {
    files.remove(scratch).insert(target, bytes)
}

/// Performing the steps of a replacement gives the replaced files.
pub proof fn lemma_replace_steps(
    files: Map<Seq<char>, Seq<u8>>,
    dir: Seq<char>,
    scratch: Seq<char>,
    target: Seq<char>,
    bytes: Seq<u8>,
)
    ensures
        perform_all(files, replace_steps(dir, scratch, target, bytes)) == replaced(
            files,
            scratch,
            target,
            bytes,
        ),
{
    let steps = replace_steps(dir, scratch, target, bytes);
    let one = steps.drop_first();
    let two = one.drop_first();
    let three = two.drop_first();
    let written = files.insert(scratch, bytes);
    assert(perform_all(perform(written, two[0]), three) == perform(written, two[0]));
    assert(perform_all(files, one) == perform_all(written, two));
}

/// Performing `first + second` is performing `first`, then `second`.
pub proof fn lemma_perform_all_concat(
    files: Map<Seq<char>, Seq<u8>>,
    first: Seq<StepView>,
    second: Seq<StepView>,
)
    ensures
        perform_all(files, first + second) == perform_all(perform_all(files, first), second),
    decreases first.len(),
{
    if first.len() > 0 {
        assert((first + second).drop_first() =~= first.drop_first() + second);
        lemma_perform_all_concat(perform(files, first[0]), first.drop_first(), second);
    }
}

/// What is known of one path: its contents, or that no file is there.
struct Entry {
    path: String,
    contents: Option<Vec<u8>>,
}

/// The files that a list of entries describes: for each path, what its last
/// entry says.
spec fn files_of(entries: Seq<Entry>) -> Map<Seq<char>, Seq<u8>>
    decreases entries.len(),
{
    if entries.len() == 0 {
        Map::empty()
    } else {
        let last = entries.last();
        let before = files_of(entries.drop_last());
        match last.contents {
            Some(bytes) => before.insert(last.path@, bytes@),
            None => before.remove(last.path@),
        }
    }
}

/// The files of a project as the engine sees them, and the steps that the
/// engine has decided on and the disk has not seen yet.
pub struct Storage {
    entries: Vec<Entry>,
    pending: Vec<Step>,
}

/// The mathematical value of a [`Storage`].
pub struct StorageView {
    /// The contents of every file, by its path.
    pub files: Map<Seq<char>, Seq<u8>>,
    /// The steps that wait to be performed on the disk, oldest first.
    pub pending: Seq<StepView>,
}

impl View for Storage {
    type V = StorageView;

    closed spec fn view(&self) -> StorageView {
        StorageView { files: files_of(self.entries@), pending: views(self.pending@) }
    }
}

impl Storage {
    /// A storage without files and without pending steps.
    pub fn new() -> (storage: Storage)
        ensures
            storage@.files == Map::<Seq<char>, Seq<u8>>::empty(),
            storage@.pending == Seq::<StepView>::empty(),
    {
        Storage { entries: Vec::new(), pending: Vec::new() }
    }

    /// Takes note that the disk holds `bytes` at `path`. Queues no step.
    pub fn load(&mut self, path: String, bytes: Vec<u8>)
        ensures
            final(self)@.files == old(self)@.files.insert(path@, bytes@),
            final(self)@.pending == old(self)@.pending,
    {
        self.entries.push(Entry { path, contents: Some(bytes) });
        assert(self.entries@.drop_last() =~= old(self).entries@);
    }

    /// The contents of the file at `path`, or `None` where there is no file.
    pub fn get(&self, path: &str) -> (contents: Option<&Vec<u8>>)
        ensures
            match contents {
                Some(bytes) => self@.files.contains_key(path@) && self@.files[path@] == bytes@,
                None => !self@.files.contains_key(path@),
            },
    {
        let wanted = String::from_str(path);
        let mut i: usize = self.entries.len();
        assert(self.entries@.take(i as int) =~= self.entries@);
        while i > 0
            invariant
                i <= self.entries.len(),
                wanted@ == path@,
                files_of(self.entries@).contains_key(path@) == files_of(
                    self.entries@.take(i as int),
                ).contains_key(path@),
                files_of(self.entries@).contains_key(path@) ==> files_of(self.entries@)[path@]
                    == files_of(self.entries@.take(i as int))[path@],
            decreases i,
        {
            let ghost head = self.entries@.take(i as int);
            assert(head.drop_last() =~= self.entries@.take(i - 1));
            let entry = &self.entries[i - 1];
            if entry.path == wanted {
                return match &entry.contents {
                    Some(bytes) => Some(bytes),
                    None => None,
                };
            }
            i -= 1;
        }
        None
    }

    /// Performs one step on the files and queues it for the disk.
    pub fn perform(&mut self, step: Step)
        ensures
            final(self)@.files == perform(old(self)@.files, step@),
            final(self)@.pending == old(self)@.pending.push(step@),
    {
        let ghost before = self.entries@;
        match &step {
            Step::EnsureDir(_) => {},
            Step::WriteFile(path, bytes) => {
                let entry = Entry {
                    path: path.clone(),
                    contents: Some(slice_to_vec(bytes.as_slice())),
                };
                self.entries.push(entry);
                assert(self.entries@.drop_last() =~= before);
            },
            Step::Rename(from, to) => {
                let moved = match self.get(from.as_str()) {
                    Some(bytes) => Some(slice_to_vec(bytes.as_slice())),
                    None => None,
                };
                match moved {
                    Some(bytes) => {
                        self.entries.push(Entry { path: from.clone(), contents: None });
                        assert(self.entries@.drop_last() =~= before);
                        let ghost middle = self.entries@;
                        self.entries.push(Entry { path: to.clone(), contents: Some(bytes) });
                        assert(self.entries@.drop_last() =~= middle);
                        assert(files_of(middle) =~= files_of(before).remove(from@));
                    },
                    None => {},
                }
            },
        }
        self.pending.push(step);
    }

    /// Replaces the file at `target` by `bytes`: queues and performs the
    /// steps of [`replace_steps`].
    pub fn replace(&mut self, dir: String, scratch: String, target: String, bytes: Vec<u8>)
        ensures
            final(self)@.files == replaced(old(self)@.files, scratch@, target@, bytes@),
            final(self)@.pending == old(self)@.pending + replace_steps(
                dir@,
                scratch@,
                target@,
                bytes@,
            ),
    {
        let from = scratch.clone();
        self.perform(Step::EnsureDir(dir));
        self.perform(Step::WriteFile(scratch, bytes));
        self.perform(Step::Rename(from, target));
    }

    /// Hands out the pending steps, oldest first, and forgets them: the
    /// caller performs them on the disk.
    pub fn take_pending(&mut self) -> (steps: Vec<Step>)
        ensures
            views(steps@) == old(self)@.pending,
            final(self)@.pending == Seq::<StepView>::empty(),
            final(self)@.files == old(self)@.files,
    {
        let mut steps: Vec<Step> = Vec::new();
        std::mem::swap(&mut self.pending, &mut steps);
        steps
    }
}

} // verus!
