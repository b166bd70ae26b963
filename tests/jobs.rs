use std::collections::BTreeMap;

use sftp_bridge::entry::{list_entries, RawEntry};
use sftp_bridge::error::{ErrorKind, OpError};
use sftp_bridge::job::{Action, Job, NodeKind, Outcome};

#[derive(Clone, Debug, PartialEq)]
enum Node {
    File(Vec<u8>),
    Dir,
}

type Tree = BTreeMap<String, Node>;

/// A remote and a local tree held in memory; the root `/` of each always
/// exists.
struct Sim {
    remote: Tree,
    local: Tree,
    log: Vec<(Action, String)>,
}

fn parent_of(p: &str) -> String {
    let t = p.trim_end_matches('/');
    match t.rfind('/') {
        Some(0) | None => "/".to_string(),
        Some(i) => t[..i].to_string(),
    }
}

fn is_dir(t: &Tree, p: &str) -> bool {
    p == "/" || t.get(p) == Some(&Node::Dir)
}

fn children(t: &Tree, dir: &str) -> Vec<RawEntry> {
    let mut out = vec![
        RawEntry { path: format!("{}/.", dir), is_dir: true, size: None },
        RawEntry { path: format!("{}/..", dir), is_dir: true, size: None },
    ];
    for (k, v) in t {
        if k != dir && parent_of(k) == dir {
            let size = match v {
                Node::File(b) => Some(b.len() as u64),
                Node::Dir => None,
            };
            out.push(RawEntry { path: k.clone(), is_dir: *v == Node::Dir, size });
        }
    }
    out
}

fn fail(kind: ErrorKind, m: &str) -> Outcome {
    Outcome::Failed(OpError::new(kind, m))
}

fn stat(t: &Tree, p: &str, missing: ErrorKind) -> Outcome {
    if is_dir(t, p) {
        return Outcome::Kind(NodeKind::Dir);
    }
    match t.get(p) {
        Some(Node::File(_)) => Outcome::Kind(NodeKind::File),
        _ => fail(missing, "no such file"),
    }
}

impl Sim {
    fn new() -> Sim {
        Sim { remote: Tree::new(), local: Tree::new(), log: Vec::new() }
    }

    fn perform(&mut self, a: Action, src: &str, dst: &str) -> Outcome {
        self.log.push((a, src.to_string()));
        match a {
            Action::StatRemote => stat(&self.remote, src, ErrorKind::RemoteNotFound),
            Action::StatLocal => stat(&self.local, src, ErrorKind::Io),
            Action::ReadRemoteDir => Outcome::Children(children(&self.remote, src)),
            Action::ReadLocalDir => Outcome::Children(children(&self.local, src)),
            Action::MakeLocalDirs => {
                let mut cur = String::new();
                for c in src.split('/').filter(|c| !c.is_empty()) {
                    cur = format!("{}/{}", cur, c);
                    if let Some(Node::File(_)) = self.local.get(&cur) {
                        return fail(ErrorKind::Io, "file in the way");
                    }
                    self.local.insert(cur.clone(), Node::Dir);
                }
                Outcome::Done
            }
            Action::Download => {
                assert!(is_dir(&self.local, &parent_of(dst)), "parent of {} missing", dst);
                match self.remote.get(src) {
                    Some(Node::File(b)) => {
                        let b = b.clone();
                        self.local.insert(dst.to_string(), Node::File(b));
                        Outcome::Done
                    }
                    _ => fail(ErrorKind::RemoteOp, "cannot open"),
                }
            }
            Action::MakeRemoteDir => {
                if self.remote.contains_key(src) || src == "/" {
                    return fail(ErrorKind::RemoteOp, "already exists");
                }
                if !is_dir(&self.remote, &parent_of(src)) {
                    return fail(ErrorKind::RemoteOp, "no parent");
                }
                self.remote.insert(src.to_string(), Node::Dir);
                Outcome::Done
            }
            Action::Upload => {
                if !is_dir(&self.remote, &parent_of(dst)) {
                    return fail(ErrorKind::RemoteOp, "no parent");
                }
                match self.local.get(src) {
                    Some(Node::File(b)) => {
                        let b = b.clone();
                        self.remote.insert(dst.to_string(), Node::File(b));
                        Outcome::Done
                    }
                    _ => fail(ErrorKind::Io, "cannot open"),
                }
            }
            Action::Unlink => match self.remote.get(src) {
                Some(Node::File(_)) => {
                    self.remote.remove(src);
                    Outcome::Done
                }
                _ => fail(ErrorKind::RemoteOp, "not a file"),
            },
            Action::RemoveRemoteDir => {
                if self.remote.get(src) != Some(&Node::Dir) {
                    return fail(ErrorKind::RemoteOp, "not a directory");
                }
                if self.remote.keys().any(|k| k != src && parent_of(k) == src) {
                    return fail(ErrorKind::RemoteOp, "directory not empty");
                }
                self.remote.remove(src);
                Outcome::Done
            }
        }
    }

    fn run(&mut self, mut job: Job) -> Result<(), OpError> {
        loop {
            let (a, src, dst) = match job.next_task() {
                None => break,
                Some(t) => (t.action, t.src.clone(), t.dst.clone()),
            };
            let o = self.perform(a, &src, &dst);
            job.advance(o);
        }
        job.into_result()
    }
}

fn put(t: &mut Tree, p: &str, n: Node) {
    t.insert(p.to_string(), n);
}

fn sample_local(sim: &mut Sim) {
    put(&mut sim.local, "/src", Node::Dir);
    put(&mut sim.local, "/src/a.txt", Node::File(b"alpha".to_vec()));
    put(&mut sim.local, "/src/sub", Node::Dir);
    put(&mut sim.local, "/src/sub/b.txt", Node::File(b"beta".to_vec()));
    put(&mut sim.local, "/src/sub/deep", Node::Dir);
    put(&mut sim.local, "/src/sub/deep/c.bin", Node::File(vec![0, 1, 2, 255]));
    put(&mut sim.local, "/src/empty", Node::Dir);
}

fn subtree(t: &Tree, root: &str) -> Vec<(String, Node)> {
    t.iter()
        .filter(|(k, _)| k.starts_with(&format!("{}/", root)))
        .map(|(k, v)| (k[root.len()..].to_string(), v.clone()))
        .collect()
}

#[test]
fn upload_then_download_reproduces_tree() {
    let mut sim = Sim::new();
    sample_local(&mut sim);
    assert!(sim.run(Job::upload("/src", "/remote/dest")).is_ok());
    assert_eq!(subtree(&sim.remote, "/remote/dest"), subtree(&sim.local, "/src"));
    let job = Job::download("/remote/dest", "/back").unwrap();
    assert!(sim.run(job).is_ok());
    assert_eq!(subtree(&sim.local, "/back/dest"), subtree(&sim.local, "/src"));
}

#[test]
fn upload_twice_succeeds_with_same_content() {
    let mut sim = Sim::new();
    sample_local(&mut sim);
    assert!(sim.run(Job::upload("/src", "/remote/dest")).is_ok());
    let first = sim.remote.clone();
    assert!(sim.run(Job::upload("/src", "/remote/dest")).is_ok());
    assert_eq!(sim.remote, first);
}

#[test]
fn upload_with_backslashes_in_remote_base() {
    let mut sim = Sim::new();
    put(&mut sim.local, "/f.txt", Node::File(b"x".to_vec()));
    assert!(sim.run(Job::upload("/f.txt", "\\in\\f.txt")).is_ok());
    assert_eq!(sim.remote.get("/in/f.txt"), Some(&Node::File(b"x".to_vec())));
}

#[test]
fn delete_directory_removes_all_descendants() {
    let mut sim = Sim::new();
    sample_local(&mut sim);
    assert!(sim.run(Job::upload("/src", "/top/dir")).is_ok());
    put(&mut sim.remote, "/top/keep.txt", Node::File(b"k".to_vec()));
    assert!(sim.run(Job::delete("/top/dir")).is_ok());
    assert!(subtree(&sim.remote, "/top/dir").is_empty());
    let names: Vec<String> =
        list_entries(&children(&sim.remote, "/top")).into_iter().map(|e| e.name).collect();
    assert_eq!(names, vec!["keep.txt".to_string()]);
}

#[test]
fn delete_removes_children_before_their_directory() {
    let mut sim = Sim::new();
    put(&mut sim.remote, "/d", Node::Dir);
    put(&mut sim.remote, "/d/f", Node::File(vec![1]));
    put(&mut sim.remote, "/d/s", Node::Dir);
    put(&mut sim.remote, "/d/s/g", Node::File(vec![2]));
    assert!(sim.run(Job::delete("/d")).is_ok());
    let pos = |a: Action, p: &str| sim.log.iter().position(|(x, y)| *x == a && y == p).unwrap();
    assert!(pos(Action::Unlink, "/d/s/g") < pos(Action::RemoveRemoteDir, "/d/s"));
    assert!(pos(Action::RemoveRemoteDir, "/d/s") < pos(Action::RemoveRemoteDir, "/d"));
    assert!(pos(Action::Unlink, "/d/f") < pos(Action::RemoveRemoteDir, "/d"));
    assert!(sim.remote.is_empty());
}

#[test]
fn delete_plain_file_removes_only_it() {
    let mut sim = Sim::new();
    put(&mut sim.remote, "/a.txt", Node::File(vec![1]));
    put(&mut sim.remote, "/b.txt", Node::File(vec![2]));
    assert!(sim.run(Job::delete("/a.txt")).is_ok());
    assert_eq!(sim.remote.len(), 1);
    assert!(sim.remote.contains_key("/b.txt"));
}

#[test]
fn delete_missing_path_fails() {
    let mut sim = Sim::new();
    let e = sim.run(Job::delete("/nothing")).unwrap_err();
    assert_eq!(e.kind, ErrorKind::RemoteNotFound);
}

#[test]
fn download_of_root_is_refused() {
    let e = Job::download("/", "/tmp").unwrap_err();
    assert_eq!(e.kind, ErrorKind::InvalidArgument);
    assert_eq!(e.message, "Invalid remote path");
    assert_eq!(Job::download("", "/tmp").unwrap_err().kind, ErrorKind::InvalidArgument);
}

#[test]
fn download_targets_base_and_name() {
    let job = Job::download("/data/report.txt", "/home/me").unwrap();
    let t = job.next_task().unwrap();
    assert_eq!(t.action, Action::StatRemote);
    assert_eq!(t.src, "/data/report.txt");
    assert_eq!(t.dst, "/home/me/report.txt");
}

#[test]
fn download_of_missing_file_fails_without_writing() {
    let mut sim = Sim::new();
    let e = sim.run(Job::download("/gone.txt", "/out").unwrap()).unwrap_err();
    assert_eq!(e.kind, ErrorKind::RemoteNotFound);
    assert!(sim.local.is_empty());
}

#[test]
fn download_single_file_creates_parent() {
    let mut sim = Sim::new();
    put(&mut sim.remote, "/r", Node::Dir);
    put(&mut sim.remote, "/r/x.bin", Node::File(vec![9; 10]));
    assert!(sim.run(Job::download("/r/x.bin", "/new/place").unwrap()).is_ok());
    assert_eq!(sim.local.get("/new/place/x.bin"), Some(&Node::File(vec![9; 10])));
}

#[test]
fn first_failure_stops_the_job() {
    let mut job = Job::delete("/d");
    job.advance(Outcome::Kind(NodeKind::Dir));
    job.advance(Outcome::Failed(OpError::new(ErrorKind::RemoteOp, "denied")));
    assert!(job.is_finished());
    assert!(job.next_task().is_none());
    let e = job.into_result().unwrap_err();
    assert_eq!(e.kind, ErrorKind::RemoteOp);
    assert_eq!(e.message, "denied");
}

#[test]
fn make_dir_failure_is_ignored() {
    let mut job = Job::upload("/f", "/a/f");
    job.advance(Outcome::Kind(NodeKind::File));
    let t = job.next_task().unwrap();
    assert_eq!((t.action, t.src.as_str()), (Action::MakeRemoteDir, "/a"));
    job.advance(Outcome::Failed(OpError::new(ErrorKind::RemoteOp, "exists")));
    let t = job.next_task().unwrap();
    assert_eq!((t.action, t.src.as_str(), t.dst.as_str()), (Action::Upload, "/f", "/a/f"));
    job.advance(Outcome::Done);
    assert!(job.into_result().is_ok());
}

#[test]
fn mismatched_outcome_fails() {
    let mut job = Job::delete("/x");
    job.advance(Outcome::Done);
    assert_eq!(job.into_result().unwrap_err().kind, ErrorKind::InvalidArgument);
}

#[test]
fn other_node_kind_is_unlinked() {
    let mut job = Job::delete("/link");
    job.advance(Outcome::Kind(NodeKind::Other));
    let t = job.next_task().unwrap();
    assert_eq!((t.action, t.src.as_str()), (Action::Unlink, "/link"));
}
