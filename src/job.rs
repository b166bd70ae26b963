//! Recursive download, upload and delete as step machines. A job keeps a
//! stack of pending tasks; the caller performs the task on top, reports its
//! outcome, and the job decides what comes next. A directory is created
//! before anything is written into it, and removed only after everything
//! found inside it.
use vstd::prelude::*;
use crate::entry::RawEntry;
use crate::error::{ErrorKind, OpError};
use crate::ordering::{creation_ordered, folders_first, removal_ordered};
use crate::path::{
    ancestor_dirs, ancestors, base_name, child_name, entry_name, file_name, forward_slashes, join,
    joined, parent, parent_dir, to_forward_slashes,
};

verus! {

/// Which recursive operation a job carries out.
#[derive(Clone, Copy, Debug, PartialEq, Eq, Structural)]
pub enum Mode {
    Download,
    Upload,
    Delete,
}

/// One primitive operation for the caller to perform.
#[derive(Clone, Copy, Debug, PartialEq, Eq, Structural)]
pub enum Action {
    /// Stat the remote node `src`.
    StatRemote,
    /// Read the remote directory `src`.
    ReadRemoteDir,
    /// Create the local directory `src` and its missing ancestors.
    MakeLocalDirs,
    /// Copy the remote file `src` to the local file `dst`.
    Download,
    /// Find out whether the local node `src` is a directory.
    StatLocal,
    /// Read the local directory `src`.
    ReadLocalDir,
    /// Create the remote directory `src`; any failure is ignored.
    MakeRemoteDir,
    /// Copy the local file `src` to the remote file `dst`.
    Upload,
    /// Remove the remote file `src`.
    Unlink,
    /// Remove the remote directory `src`, which is empty by then.
    RemoveRemoteDir,
}

/// An action with its paths; `dst` is empty where the action has none.
#[derive(Debug)]
pub struct Task {
    pub action: Action,
    pub src: String,
    pub dst: String,
}

pub struct TaskView {
    pub action: Action,
    pub src: Seq<char>,
    pub dst: Seq<char>,
}

impl View for Task {
    type V = TaskView;

    open spec fn view(&self) -> TaskView {
        TaskView { action: self.action, src: self.src@, dst: self.dst@ }
    }
}

/// What a stat found.
#[derive(Clone, Copy, Debug, PartialEq, Eq, Structural)]
pub enum NodeKind {
    File,
    Dir,
    /// Neither a file nor a directory (a link or a special node).
    Other,
}

/// The outcome of performing a task.
#[derive(Debug)]
pub enum Outcome {
    /// The operation succeeded.
    Done,
    /// A stat succeeded and found this.
    Kind(NodeKind),
    /// A directory read succeeded with these children.
    Children(Vec<RawEntry>),
    /// The operation failed.
    Failed(OpError),
}

pub open spec fn task(action: Action, src: Seq<char>, dst: Seq<char>) -> TaskView {
    TaskView { action, src, dst }
}

pub open spec fn views(s: Seq<Task>) -> Seq<TaskView> {
    s.map_values(|t: Task| t@)
}

pub open spec fn is_stat(a: Action) -> bool {
    a == Action::StatRemote || a == Action::StatLocal
}

pub open spec fn is_read(a: Action) -> bool {
    a == Action::ReadRemoteDir || a == Action::ReadLocalDir
}

/// Tasks that create `dirs` in order, the first one on top of the stack.
pub open spec fn make_remote_dirs(dirs: Seq<Seq<char>>) -> Seq<TaskView> {
    Seq::new(dirs.len(), |i: int| task(Action::MakeRemoteDir, dirs[dirs.len() - 1 - i], seq![]))
}

/// The tasks that replace a stat of `t` that found `k`, last on top.
pub open spec fn kind_tasks(mode: Mode, t: TaskView, k: NodeKind) -> Seq<TaskView> {
    match mode {
        Mode::Download => if k == NodeKind::Dir {
            seq![task(Action::ReadRemoteDir, t.src, t.dst), task(Action::MakeLocalDirs, t.dst, seq![])]
        } else {
            seq![
                task(Action::Download, t.src, t.dst),
                task(Action::MakeLocalDirs, parent_dir(t.dst), seq![]),
            ]
        },
        Mode::Upload => if k == NodeKind::Dir {
            seq![task(Action::ReadLocalDir, t.src, t.dst)] + make_remote_dirs(ancestors(t.dst))
        } else {
            seq![task(Action::Upload, t.src, t.dst)] + make_remote_dirs(
                ancestors(parent_dir(t.dst)),
            )
        },
        Mode::Delete => if k == NodeKind::Dir {
            seq![task(Action::RemoveRemoteDir, t.src, seq![]), task(Action::ReadRemoteDir, t.src, seq![])]
        } else {
            seq![task(Action::Unlink, t.src, seq![])]
        },
    }
}

/// The tasks for the child `name` of the directory read by `t`.
pub open spec fn child_tasks(mode: Mode, t: TaskView, name: Seq<char>, is_dir: bool) -> Seq<
    TaskView,
> {
    match mode {
        Mode::Download => seq![task(Action::StatRemote, joined(t.src, name), joined(t.dst, name))],
        Mode::Upload => seq![task(Action::StatLocal, joined(t.src, name), joined(t.dst, name))],
        Mode::Delete => if is_dir {
            seq![
                task(Action::RemoveRemoteDir, joined(t.src, name), seq![]),
                task(Action::ReadRemoteDir, joined(t.src, name), seq![]),
            ]
        } else {
            seq![task(Action::Unlink, joined(t.src, name), seq![])]
        },
    }
}

/// The tasks for all children in `kids` that name an entry (`.` and `..`
/// are skipped), in order.
pub open spec fn children_tasks(mode: Mode, t: TaskView, kids: Seq<RawEntry>) -> Seq<TaskView>
    decreases kids.len(),
{
    if kids.len() == 0 {
        seq![]
    } else {
        let prev = children_tasks(mode, t, kids.drop_last());
        match entry_name(kids.last().path@) {
            Some(n) => prev + child_tasks(mode, t, n, kids.last().is_dir),
            None => prev,
        }
    }
}

pub struct JobView {
    pub mode: Mode,
    pub stack: Seq<TaskView>,
    pub failure: Option<(ErrorKind, Seq<char>)>,
}

/// The job that has stopped on a failure.
pub open spec fn failed_with(mode: Mode, kind: ErrorKind, message: Seq<char>) -> JobView {
    JobView { mode, stack: seq![], failure: Some((kind, message)) }
}

/// The message of a job that got an outcome that does not fit its task.
pub open spec fn mismatch_message() -> Seq<char> {
    "outcome does not fit the task"@
}

/// The job after the outcome `o` of its top task. A failed or finished job
/// stays as it is. A failed remote directory creation is ignored, so that
/// directories that already exist do not stop an upload; any other failure
/// stops the job with that error.
pub open spec fn stepped(v: JobView, o: Outcome) -> JobView {
    if v.failure is Some || v.stack.len() == 0 {
        v
    } else {
        let t = v.stack.last();
        let rest = v.stack.drop_last();
        if t.action == Action::MakeRemoteDir {
            JobView { stack: rest, ..v }
        } else {
            match o {
                Outcome::Failed(e) => failed_with(v.mode, e.kind, e.message@),
                Outcome::Kind(k) => if is_stat(t.action) {
                    JobView { stack: rest + kind_tasks(v.mode, t, k), ..v }
                } else {
                    failed_with(v.mode, ErrorKind::InvalidArgument, mismatch_message())
                },
                Outcome::Children(kids) => if is_read(t.action) {
                    JobView { stack: rest + children_tasks(v.mode, t, kids@), ..v }
                } else {
                    failed_with(v.mode, ErrorKind::InvalidArgument, mismatch_message())
                },
                Outcome::Done => if !is_stat(t.action) && !is_read(t.action) {
                    JobView { stack: rest, ..v }
                } else {
                    failed_with(v.mode, ErrorKind::InvalidArgument, mismatch_message())
                },
            }
        }
    }
}

/// A recursive operation in progress.
#[derive(Debug)]
pub struct Job {
    mode: Mode,
    stack: Vec<Task>,
    failure: Option<OpError>,
}

impl View for Job {
    type V = JobView;

    closed spec fn view(&self) -> JobView {
        JobView {
            mode: self.mode,
            stack: views(self.stack@),
            failure: match self.failure {
                Some(e) => Some((e.kind, e.message@)),
                None => None,
            },
        }
    }
}

fn new_task(action: Action, src: String, dst: String) -> (r: Task)
    ensures
        r@ == task(action, src@, dst@),
{
    Task { action, src, dst }
}

fn push_task(stack: &mut Vec<Task>, t: Task)
    ensures
        views(final(stack)@) == views(old(stack)@).push(t@),
{
    stack.push(t);
    assert(views(stack@) =~= views(old(stack)@).push(t@));
}

/// Pushes a creation task for each of `dirs`, the first one last.
fn push_remote_dirs(stack: &mut Vec<Task>, dirs: Vec<String>)
    ensures
        views(final(stack)@) == views(old(stack)@) + make_remote_dirs(
            dirs@.map_values(|s: String| s@),
        ),
{
    let ghost d = dirs@.map_values(|s: String| s@);
    let ghost start = views(stack@);
    let mut dirs = dirs;
    let n = dirs.len();
    while dirs.len() > 0
        invariant
            dirs@.len() <= n == d.len(),
            forall|i: int| 0 <= i < dirs@.len() ==> #[trigger] dirs@[i]@ == d[i],
            views(stack@) == start + make_remote_dirs(d).take(n - dirs@.len()),
        decreases dirs@.len(),
    {
        let k = dirs.len();
        let ghost before = views(stack@);
        let last = dirs.pop().unwrap();
        assert(last@ == d[k - 1]);
        push_task(stack, new_task(Action::MakeRemoteDir, last, String::new()));
        assert(make_remote_dirs(d).take(n - (k - 1)) =~= make_remote_dirs(d).take(n - k).push(
            task(Action::MakeRemoteDir, d[k - 1], seq![]),
        ));
    }
    assert(make_remote_dirs(d).take(n as int) =~= make_remote_dirs(d));
}

/// Pushes the tasks that replace a stat of `t` that found `k`.
fn push_kind_tasks(stack: &mut Vec<Task>, mode: Mode, t: Task, k: NodeKind)
    ensures
        views(final(stack)@) == views(old(stack)@) + kind_tasks(mode, t@, k),
{
    let ghost tv = t@;
    let ghost start = views(stack@);
    match mode {
        Mode::Download => {
            if k == NodeKind::Dir {
                let dirs = t.dst.clone();
                push_task(stack, new_task(Action::ReadRemoteDir, t.src, t.dst));
                push_task(stack, new_task(Action::MakeLocalDirs, dirs, String::new()));
            } else {
                let dirs = parent(t.dst.as_str());
                push_task(stack, new_task(Action::Download, t.src, t.dst));
                push_task(stack, new_task(Action::MakeLocalDirs, dirs, String::new()));
            }
        },
        Mode::Upload => {
            let dirs = if k == NodeKind::Dir {
                ancestor_dirs(t.dst.as_str())
            } else {
                ancestor_dirs(parent(t.dst.as_str()).as_str())
            };
            let a = if k == NodeKind::Dir {
                Action::ReadLocalDir
            } else {
                Action::Upload
            };
            push_task(stack, new_task(a, t.src, t.dst));
            push_remote_dirs(stack, dirs);
        },
        Mode::Delete => {
            if k == NodeKind::Dir {
                let again = t.src.clone();
                push_task(stack, new_task(Action::RemoveRemoteDir, t.src, String::new()));
                push_task(stack, new_task(Action::ReadRemoteDir, again, String::new()));
            } else {
                push_task(stack, new_task(Action::Unlink, t.src, String::new()));
            }
        },
    }
    assert(views(stack@) =~= start + kind_tasks(mode, tv, k));
}

/// Pushes the tasks for the children in `kids` of the directory read by `t`.
fn push_children(stack: &mut Vec<Task>, mode: Mode, t: &Task, kids: &Vec<RawEntry>)
    ensures
        views(final(stack)@) == views(old(stack)@) + children_tasks(mode, t@, kids@),
{
    let ghost start = views(stack@);
    let mut i: usize = 0;
    assert(kids@.take(0) =~= Seq::<RawEntry>::empty());
    assert(start + children_tasks(mode, t@, kids@.take(0)) =~= start);
    while i < kids.len()
        invariant
            i <= kids@.len(),
            views(stack@) == start + children_tasks(mode, t@, kids@.take(i as int)),
        decreases kids@.len() - i,
    {
        let ghost before = views(stack@);
        proof {
            assert(kids@.take(i + 1).drop_last() =~= kids@.take(i as int));
        }
        let kid = &kids[i];
        match child_name(kid.path.as_str()) {
            Some(name) => {
                let src = join(t.src.as_str(), name.as_str());
                match mode {
                    Mode::Download => {
                        let dst = join(t.dst.as_str(), name.as_str());
                        push_task(stack, new_task(Action::StatRemote, src, dst));
                    },
                    Mode::Upload => {
                        let dst = join(t.dst.as_str(), name.as_str());
                        push_task(stack, new_task(Action::StatLocal, src, dst));
                    },
                    Mode::Delete => {
                        if kid.is_dir {
                            let again = src.clone();
                            push_task(stack, new_task(Action::RemoveRemoteDir, src, String::new()));
                            push_task(stack, new_task(Action::ReadRemoteDir, again, String::new()));
                        } else {
                            push_task(stack, new_task(Action::Unlink, src, String::new()));
                        }
                    },
                }
                assert(views(stack@) =~= before + child_tasks(mode, t@, name@, kid.is_dir));
            },
            None => {},
        }
        i = i + 1;
    }
    assert(kids@.take(kids@.len() as int) =~= kids@);
}

impl Job {
    /// A job that copies the remote node `remote_root` into `local_base`,
    /// under its own final name. A root with no final component (such as
    /// `/`) is refused with `InvalidArgument`.
    pub fn download(remote_root: &str, local_base: &str) -> (r: Result<Job, OpError>)
        ensures
            r is Err <==> base_name(remote_root@) is None,
            r is Err ==> r->Err_0.kind == ErrorKind::InvalidArgument,
            r is Err ==> r->Err_0.message@ == "Invalid remote path"@,
            r is Ok ==> r->Ok_0@ == (JobView {
                mode: Mode::Download,
                stack: seq![
                    task(
                        Action::StatRemote,
                        remote_root@,
                        joined(local_base@, base_name(remote_root@)->0),
                    ),
                ],
                failure: None,
            }),
            r is Ok ==> creation_ordered(r->Ok_0@.stack),
    {
        proof {
            reveal(creation_ordered);
        }
        match file_name(remote_root) {
            Some(name) => {
                let dst = join(local_base, name.as_str());
                let mut stack: Vec<Task> = Vec::new();
                assert(views(stack@) =~= Seq::<TaskView>::empty());
                push_task(&mut stack, new_task(Action::StatRemote, remote_root.to_owned(), dst));
                assert(views(stack@) =~= seq![
                    task(Action::StatRemote, remote_root@, joined(local_base@, name@)),
                ]);
                Ok(Job { mode: Mode::Download, stack, failure: None })
            },
            None => Err(OpError::new(ErrorKind::InvalidArgument, "Invalid remote path")),
        }
    }

    /// A job that copies the local node `local_root` to the remote path
    /// `remote_base`, written with forward slashes.
    pub fn upload(local_root: &str, remote_base: &str) -> (r: Job)
        ensures
            r@ == (JobView {
                mode: Mode::Upload,
                stack: seq![task(Action::StatLocal, local_root@, forward_slashes(remote_base@))],
                failure: None,
            }),
            folders_first(r@.stack),
    {
        proof {
            reveal(folders_first);
        }
        let dst = to_forward_slashes(remote_base);
        let mut stack: Vec<Task> = Vec::new();
        assert(views(stack@) =~= Seq::<TaskView>::empty());
        push_task(&mut stack, new_task(Action::StatLocal, local_root.to_owned(), dst));
        assert(views(stack@) =~= seq![
            task(Action::StatLocal, local_root@, forward_slashes(remote_base@)),
        ]);
        Job { mode: Mode::Upload, stack, failure: None }
    }

    /// A job that removes the remote node `path` and, for a directory,
    /// everything below it.
    pub fn delete(path: &str) -> (r: Job)
        ensures
            r@ == (JobView {
                mode: Mode::Delete,
                stack: seq![task(Action::StatRemote, path@, seq![])],
                failure: None,
            }),
            removal_ordered(r@.stack),
    {
        let mut stack: Vec<Task> = Vec::new();
        assert(views(stack@) =~= Seq::<TaskView>::empty());
        push_task(&mut stack, new_task(Action::StatRemote, path.to_owned(), String::new()));
        assert(views(stack@) =~= seq![task(Action::StatRemote, path@, seq![])]);
        proof {
            reveal(removal_ordered);
        }
        Job { mode: Mode::Delete, stack, failure: None }
    }

    /// The task to perform next; `None` once the job has finished or failed.
    pub fn next_task(&self) -> (r: Option<&Task>)
        ensures
            r is None <==> (self@.failure is Some || self@.stack.len() == 0),
            r is Some ==> r->0@ == self@.stack.last(),
    {
        if self.failure.is_some() || self.stack.len() == 0 {
            None
        } else {
            let t = &self.stack[self.stack.len() - 1];
            assert(t@ == views(self.stack@)[self.stack@.len() - 1]);
            Some(t)
        }
    }

    /// Whether the job has nothing left to do.
    pub fn is_finished(&self) -> (r: bool)
        ensures
            r == (self@.failure is Some || self@.stack.len() == 0),
    {
        self.failure.is_some() || self.stack.len() == 0
    }

    /// Takes in the outcome of the task on top.
    pub fn advance(&mut self, outcome: Outcome)
        ensures
            final(self)@ == stepped(old(self)@, outcome),
    {
        if self.failure.is_some() || self.stack.len() == 0 {
            return;
        }
        let ghost before = self@;
        let t = self.stack.pop().unwrap();
        proof {
            assert(views(self.stack@) =~= before.stack.drop_last());
            assert(t@ == before.stack.last());
        }
        if t.action == Action::MakeRemoteDir {
            return;
        }
        let stat = t.action == Action::StatRemote || t.action == Action::StatLocal;
        let read = t.action == Action::ReadRemoteDir || t.action == Action::ReadLocalDir;
        match outcome {
            Outcome::Failed(e) => {
                self.stack = Vec::new();
                self.failure = Some(e);
                assert(views(self.stack@) =~= Seq::<TaskView>::empty());
            },
            Outcome::Kind(k) => {
                if stat {
                    push_kind_tasks(&mut self.stack, self.mode, t, k);
                } else {
                    self.fail_mismatch();
                }
            },
            Outcome::Children(kids) => {
                if read {
                    push_children(&mut self.stack, self.mode, &t, &kids);
                } else {
                    self.fail_mismatch();
                }
            },
            Outcome::Done => {
                if stat || read {
                    self.fail_mismatch();
                }
            },
        }
    }

    fn fail_mismatch(&mut self)
        ensures
            final(self)@ == failed_with(
                old(self)@.mode,
                ErrorKind::InvalidArgument,
                mismatch_message(),
            ),
    {
        self.stack = Vec::new();
        self.failure = Some(
            OpError::new(ErrorKind::InvalidArgument, "outcome does not fit the task"),
        );
        assert(views(self.stack@) =~= Seq::<TaskView>::empty());
    }

    /// How the job ended: `Ok` when every task succeeded, else the failure
    /// that stopped it.
    pub fn into_result(self) -> (r: Result<(), OpError>)
        requires
            self@.failure is Some || self@.stack.len() == 0,
        ensures
            r is Ok <==> self@.failure is None,
            r is Err ==> self@.failure == Some((r->Err_0.kind, r->Err_0.message@)),
    {
        match self.failure {
            Some(e) => Err(e),
            None => Ok(()),
        }
    }
}


/// A failed remote directory creation never stops a job: it has the same
/// effect as a successful one. Uploading a tree whose directories already
/// exist therefore goes on as the first upload did.
pub proof fn lemma_make_dir_failure_ignored(v: JobView, e: OpError)
    requires
        v.stack.len() > 0,
        v.stack.last().action == Action::MakeRemoteDir,
    ensures
        stepped(v, Outcome::Failed(e)) == stepped(v, Outcome::Done),
        v.failure is None ==> stepped(v, Outcome::Failed(e)).failure is None,
{
}

} // verus!
