//! Why a recursive delete removes a directory only after everything found
//! inside it: the task stack of a delete job keeps an order that every step
//! preserves.
use vstd::prelude::*;
use crate::entry::RawEntry;
use crate::job::{
    children_tasks, make_remote_dirs, stepped, task, Action, JobView, Mode, Outcome, TaskView,
};
use crate::path::{
    after_last_sep, ancestors, entry_name, is_normal, joined, parent_dir, trim_seps,
};

verus! {

/// `q` lies strictly inside the directory `p`.
pub open spec fn below(q: Seq<char>, p: Seq<char>) -> bool {
    &&& p.len() < q.len()
    &&& q.take(p.len() as int) == p
    &&& (p.len() == 0 || p.last() == '/' || q[p.len() as int] == '/')
}

/// `q` is `p` itself or lies inside it.
pub open spec fn at_or_below(q: Seq<char>, p: Seq<char>) -> bool {
    q == p || below(q, p)
}

pub open spec fn is_delete_action(a: Action) -> bool {
    a == Action::StatRemote || a == Action::ReadRemoteDir || a == Action::Unlink || a
        == Action::RemoveRemoteDir
}

/// The order of a delete job's stack (top last): no task under a
/// directory's removal concerns that directory or anything inside it; each
/// directory read sits right on top of the removal of the same directory;
/// only the bottom task can be a stat.
#[verifier::opaque]
pub open spec fn removal_ordered(s: Seq<TaskView>) -> bool {
    &&& forall|k: int| 0 <= k < s.len() ==> is_delete_action(#[trigger] s[k].action)
    &&& forall|i: int, j: int|
        0 <= j < i < s.len() && (#[trigger] s[i]).action == Action::RemoveRemoteDir
            ==> !at_or_below((#[trigger] s[j]).src, s[i].src)
    &&& (s.len() > 0 ==> s[0].action != Action::ReadRemoteDir)
    &&& forall|k: int|
        0 <= k && k + 1 < s.len() && (#[trigger] s[k + 1]).action == Action::ReadRemoteDir
            ==> s[k] == task(Action::RemoveRemoteDir, s[k + 1].src, seq![])
    &&& forall|k: int| 0 < k < s.len() ==> (#[trigger] s[k]).action != Action::StatRemote
}

proof fn lemma_ordered_empty()
    ensures
        removal_ordered(seq![]),
{
    reveal(removal_ordered);
}

proof fn lemma_ordered_drop_last(s: Seq<TaskView>)
    requires
        removal_ordered(s),
        s.len() > 0,
    ensures
        removal_ordered(s.drop_last()),
        forall|k: int| 0 <= k < s.len() ==> is_delete_action(#[trigger] s[k].action),
        forall|k: int| 0 < k < s.len() ==> (#[trigger] s[k]).action != Action::StatRemote,
        s.last().action == Action::ReadRemoteDir ==> s.len() > 1 && s[s.len() - 2] == task(
            Action::RemoveRemoteDir,
            s.last().src,
            seq![],
        ),
        forall|i: int, j: int|
            0 <= j < i < s.len() && (#[trigger] s[i]).action == Action::RemoveRemoteDir
                ==> !at_or_below((#[trigger] s[j]).src, s[i].src),
{
    reveal(removal_ordered);
    let r = s.drop_last();
    assert forall|i: int, j: int|
        0 <= j < i < r.len() && (#[trigger] r[i]).action == Action::RemoveRemoteDir implies !at_or_below(
        (#[trigger] r[j]).src,
        r[i].src,
    ) by {
        assert(r[i] == s[i] && r[j] == s[j]);
    }
    assert forall|k: int|
        0 <= k && k + 1 < r.len() && (#[trigger] r[k + 1]).action
            == Action::ReadRemoteDir implies r[k] == task(
        Action::RemoveRemoteDir,
        r[k + 1].src,
        seq![],
    ) by {
        assert(r[k + 1] == s[k + 1] && r[k] == s[k]);
    }
    assert forall|k: int| 0 <= k < r.len() implies is_delete_action(#[trigger] r[k].action) by {
        assert(r[k] == s[k]);
    }
    assert forall|k: int| 0 < k < r.len() implies (#[trigger] r[k]).action
        != Action::StatRemote by {
        assert(r[k] == s[k]);
    }
    if s.len() > 0 {
        assert(r.len() > 0 ==> r[0] == s[0]);
    }
    if s.last().action == Action::ReadRemoteDir {
        let k = s.len() - 2;
        assert(s[k + 1] == s.last());
    }
}

proof fn lemma_ordered_push(s: Seq<TaskView>, x: TaskView)
    requires
        removal_ordered(s),
        is_delete_action(x.action),
        x.action != Action::StatRemote || s.len() == 0,
        x.action == Action::RemoveRemoteDir ==> forall|j: int|
            0 <= j < s.len() ==> !at_or_below(#[trigger] s[j].src, x.src),
        x.action == Action::ReadRemoteDir ==> s.len() > 0 && s.last() == task(
            Action::RemoveRemoteDir,
            x.src,
            seq![],
        ),
    ensures
        removal_ordered(s.push(x)),
{
    reveal(removal_ordered);
    let r = s.push(x);
    assert forall|i: int, j: int|
        0 <= j < i < r.len() && (#[trigger] r[i]).action == Action::RemoveRemoteDir implies !at_or_below(
        (#[trigger] r[j]).src,
        r[i].src,
    ) by {
        assert(r[j] == s[j]);
        if i < s.len() {
            assert(r[i] == s[i]);
        }
    }
    assert forall|k: int|
        0 <= k && k + 1 < r.len() && (#[trigger] r[k + 1]).action
            == Action::ReadRemoteDir implies r[k] == task(
        Action::RemoveRemoteDir,
        r[k + 1].src,
        seq![],
    ) by {
        assert(r[k] == s[k]);
        if k + 1 < s.len() {
            assert(r[k + 1] == s[k + 1]);
        }
    }
    assert forall|k: int| 0 <= k < r.len() implies is_delete_action(#[trigger] r[k].action) by {
        if k < s.len() {
            assert(r[k] == s[k]);
        }
    }
    assert forall|k: int| 0 < k < r.len() implies (#[trigger] r[k]).action
        != Action::StatRemote by {
        if k < s.len() {
            assert(r[k] == s[k]);
        }
    }
    if s.len() > 0 {
        assert(r[0] == s[0]);
    }
}

/// A directory read names each entry at most once.
pub open spec fn names_distinct(kids: Seq<RawEntry>) -> bool {
    forall|a: int, b: int|
        0 <= a < b < kids.len() && entry_name((#[trigger] kids[a]).path@) is Some && entry_name(
            (#[trigger] kids[b]).path@,
        ) is Some ==> entry_name(kids[a].path@) != entry_name(kids[b].path@)
}

/// `src` is the path of a child, named in `kids`, of the directory `p`.
pub open spec fn from_kid(src: Seq<char>, p: Seq<char>, kids: Seq<RawEntry>) -> bool {
    exists|a: int|
        0 <= a < kids.len() && entry_name((#[trigger] kids[a]).path@) is Some && src == joined(
            p,
            entry_name(kids[a].path@)->0,
        )
}

proof fn lemma_entry_name_no_sep(p: Seq<char>)
    requires
        entry_name(p) is Some,
    ensures
        is_normal(entry_name(p)->0),
        forall|i: int|
            0 <= i < entry_name(p)->0.len() ==> #[trigger] entry_name(p)->0[i] != '/',
{
    let t = trim_seps(p);
    lemma_after_last_sep_range(t);
    assert forall|i: int| 0 <= i < entry_name(p)->0.len() implies #[trigger] entry_name(p)->0[i]
        != '/' by {
        assert(entry_name(p)->0[i] == t[after_last_sep(t) + i]);
    }
}

proof fn lemma_after_last_sep_range(p: Seq<char>)
    ensures
        0 <= after_last_sep(p) <= p.len(),
        forall|i: int| after_last_sep(p) <= i < p.len() ==> p[i] != '/',
    decreases p.len(),
{
    if p.len() > 0 && p.last() != '/' {
        lemma_after_last_sep_range(p.drop_last());
        assert forall|i: int| after_last_sep(p) <= i < p.len() implies p[i] != '/' by {
            if i < p.len() - 1 {
                assert(p[i] == p.drop_last()[i]);
            }
        }
    }
}

/// The text that `joined(p, _)` puts before the name.
pub open spec fn join_prefix(p: Seq<char>) -> Seq<char> {
    if p.len() == 0 {
        seq![]
    } else if p.last() == '/' {
        p
    } else {
        p + seq!['/']
    }
}

proof fn lemma_joined_is_prefix_plus_name(p: Seq<char>, n: Seq<char>)
    ensures
        joined(p, n) =~= join_prefix(p) + n,
{
}

proof fn lemma_child_below(p: Seq<char>, n: Seq<char>)
    requires
        n.len() > 0,
    ensures
        below(joined(p, n), p),
{
    let s = join_prefix(p);
    lemma_joined_is_prefix_plus_name(p, n);
    assert((s + n).take(p.len() as int) =~= p);
    if p.len() > 0 && p.last() != '/' {
        assert((s + n)[p.len() as int] == '/');
    }
}

proof fn lemma_below_trans(q: Seq<char>, c: Seq<char>, p: Seq<char>)
    requires
        at_or_below(q, c),
        below(c, p),
    ensures
        below(q, p),
{
    if q != c {
        assert(q.take(p.len() as int) =~= c.take(c.len() as int).take(p.len() as int));
        assert(c.take(c.len() as int) =~= c);
        assert(c.take(p.len() as int) == p);
        if !(p.len() == 0 || p.last() == '/') {
            assert(q[p.len() as int] == q.take(c.len() as int)[p.len() as int]);
        }
    }
}

proof fn lemma_siblings_apart(p: Seq<char>, m: Seq<char>, n: Seq<char>)
    requires
        m != n,
        n.len() > 0,
        forall|i: int| 0 <= i < m.len() ==> m[i] != '/',
        forall|i: int| 0 <= i < n.len() ==> n[i] != '/',
    ensures
        !at_or_below(joined(p, m), joined(p, n)),
{
    let s = join_prefix(p);
    lemma_joined_is_prefix_plus_name(p, m);
    lemma_joined_is_prefix_plus_name(p, n);
    if joined(p, m) == joined(p, n) {
        assert((s + m).subrange(s.len() as int, (s + m).len() as int) =~= m);
        assert((s + n).subrange(s.len() as int, (s + n).len() as int) =~= n);
    }
    if below(joined(p, m), joined(p, n)) {
        let k = (s + n).len() as int;
        assert((s + n).last() == n.last());
        assert((s + m)[k] == m[n.len() as int]);
    }
}

/// Pushes the tasks for one more child `n` of `t.src`, given that the
/// tasks already above the removal of `t.src` are for its other children.
#[verifier::spinoff_prover]
proof fn lemma_push_child(
    rest: Seq<TaskView>,
    prev: Seq<TaskView>,
    t: TaskView,
    kids: Seq<RawEntry>,
    kid: RawEntry,
)
    requires
        removal_ordered(prev),
        rest.len() > 0,
        prev.len() >= rest.len(),
        prev.take(rest.len() as int) == rest,
        rest.last() == task(Action::RemoveRemoteDir, t.src, seq![]),
        forall|j: int| 0 <= j < rest.len() - 1 ==> !at_or_below(#[trigger] rest[j].src, t.src),
        forall|j: int| rest.len() <= j < prev.len() ==> from_kid(#[trigger] prev[j].src, t.src, kids),
        entry_name(kid.path@) is Some,
        forall|a: int|
            0 <= a < kids.len() && entry_name((#[trigger] kids[a]).path@) is Some ==> entry_name(
                kids[a].path@,
            ) != entry_name(kid.path@),
    ensures
        removal_ordered(prev + crate::job::child_tasks(Mode::Delete, t, entry_name(kid.path@)->0, kid.is_dir)),
{
    let p = t.src;
    let n = entry_name(kid.path@)->0;
    let c = joined(p, n);
    lemma_entry_name_no_sep(kid.path@);
    lemma_child_below(p, n);
    assert forall|j: int| 0 <= j < prev.len() implies !at_or_below(#[trigger] prev[j].src, c) by {
        if j < rest.len() - 1 {
            assert(prev[j] == prev.take(rest.len() as int)[j]);
            if at_or_below(prev[j].src, c) {
                lemma_below_trans(prev[j].src, c, p);
            }
        } else if j == rest.len() - 1 {
            assert(prev[j] == prev.take(rest.len() as int)[j]);
        } else {
            assert(from_kid(prev[j].src, p, kids));
            let a = choose|a: int|
                0 <= a < kids.len() && entry_name((#[trigger] kids[a]).path@) is Some && prev[j].src
                    == joined(p, entry_name(kids[a].path@)->0);
            lemma_entry_name_no_sep(kids[a].path@);
            lemma_siblings_apart(p, entry_name(kids[a].path@)->0, n);
        }
    }
    if kid.is_dir {
        let x = task(Action::RemoveRemoteDir, c, seq![]);
        lemma_ordered_push(prev, x);
        lemma_ordered_push(prev.push(x), task(Action::ReadRemoteDir, c, seq![]));
        assert(prev + crate::job::child_tasks(Mode::Delete, t, n, true) =~= prev.push(x).push(
            task(Action::ReadRemoteDir, c, seq![]),
        ));
    } else {
        lemma_ordered_push(prev, task(Action::Unlink, c, seq![]));
        assert(prev + crate::job::child_tasks(Mode::Delete, t, n, false) =~= prev.push(
            task(Action::Unlink, c, seq![]),
        ));
    }
}

#[verifier::spinoff_prover]
proof fn lemma_children_ordered(rest: Seq<TaskView>, t: TaskView, kids: Seq<RawEntry>)
    requires
        removal_ordered(rest),
        rest.len() > 0,
        rest.last() == task(Action::RemoveRemoteDir, t.src, seq![]),
        forall|j: int| 0 <= j < rest.len() - 1 ==> !at_or_below(#[trigger] rest[j].src, t.src),
        names_distinct(kids),
    ensures
        removal_ordered(rest + children_tasks(Mode::Delete, t, kids)),
        forall|j: int|
            rest.len() <= j < (rest + children_tasks(Mode::Delete, t, kids)).len() ==> from_kid(
                #[trigger] (rest + children_tasks(Mode::Delete, t, kids))[j].src,
                t.src,
                kids,
            ),
    decreases kids.len(),
{
    let p = t.src;
    if kids.len() == 0 {
        assert(rest + children_tasks(Mode::Delete, t, kids) =~= rest);
    } else {
        let init = kids.drop_last();
        assert forall|a: int, b: int|
            0 <= a < b < init.len() && entry_name((#[trigger] init[a]).path@) is Some && entry_name(
                (#[trigger] init[b]).path@,
            ) is Some implies entry_name(init[a].path@) != entry_name(init[b].path@) by {
            assert(init[a] == kids[a] && init[b] == kids[b]);
        }
        lemma_children_ordered(rest, t, init);
        let prev = rest + children_tasks(Mode::Delete, t, init);
        let next = rest + children_tasks(Mode::Delete, t, kids);
        assert(prev.take(rest.len() as int) =~= rest);
        let last = kids.len() - 1;
        assert(kids[last] == kids.last());
        match entry_name(kids.last().path@) {
            None => {
                assert(next =~= prev);
                assert forall|j: int| rest.len() <= j < next.len() implies from_kid(
                    #[trigger] next[j].src,
                    p,
                    kids,
                ) by {
                    assert(from_kid(prev[j].src, p, init));
                    let a = choose|a: int|
                        0 <= a < init.len() && entry_name((#[trigger] init[a]).path@) is Some
                            && prev[j].src == joined(p, entry_name(init[a].path@)->0);
                    assert(kids[a] == init[a]);
                }
            },
            Some(n) => {
                assert forall|a: int|
                    0 <= a < init.len() && entry_name((#[trigger] init[a]).path@) is Some implies entry_name(
                    init[a].path@,
                ) != entry_name(kids.last().path@) by {
                    assert(init[a] == kids[a]);
                }
                lemma_push_child(rest, prev, t, init, kids.last());
                let added = crate::job::child_tasks(Mode::Delete, t, n, kids.last().is_dir);
                assert(next =~= prev + added);
                assert forall|j: int| rest.len() <= j < next.len() implies from_kid(
                    #[trigger] next[j].src,
                    p,
                    kids,
                ) by {
                    if j < prev.len() {
                        assert(next[j] == prev[j]);
                        assert(from_kid(prev[j].src, p, init));
                        let a = choose|a: int|
                            0 <= a < init.len() && entry_name((#[trigger] init[a]).path@) is Some
                                && prev[j].src == joined(p, entry_name(init[a].path@)->0);
                        assert(kids[a] == init[a]);
                    } else {
                        assert(next[j].src == joined(p, n));
                        assert(entry_name(kids[last].path@) is Some);
                    }
                }
            },
        }
    }
}

/// A delete job keeps its order through every step, whatever the outcome,
/// as long as a directory read names each entry at most once. So a
/// directory is removed only once nothing inside it that was found is left
/// to handle: children before their parent.
#[verifier::spinoff_prover]
pub proof fn lemma_delete_keeps_order(v: JobView, o: Outcome)
    requires
        v.mode == Mode::Delete,
        removal_ordered(v.stack),
        o matches Outcome::Children(kids) ==> names_distinct(kids@),
    ensures
        removal_ordered(stepped(v, o).stack),
{
    lemma_ordered_empty();
    if v.failure is None && v.stack.len() > 0 {
        let s = v.stack;
        let rest = s.drop_last();
        let top = s.last();
        lemma_ordered_drop_last(s);
        assert(top == s[s.len() - 1]);
        if top.action == Action::StatRemote && o is Kind {
            assert(rest.len() == 0);
            let k = o->Kind_0;
            if k == crate::job::NodeKind::Dir {
                let x = task(Action::RemoveRemoteDir, top.src, seq![]);
                lemma_ordered_push(rest, x);
                lemma_ordered_push(rest.push(x), task(Action::ReadRemoteDir, top.src, seq![]));
                assert(stepped(v, o).stack =~= rest.push(x).push(
                    task(Action::ReadRemoteDir, top.src, seq![]),
                ));
            } else {
                lemma_ordered_push(rest, task(Action::Unlink, top.src, seq![]));
                assert(stepped(v, o).stack =~= rest.push(task(Action::Unlink, top.src, seq![])));
            }
        } else if top.action == Action::ReadRemoteDir && o is Children {
            let k = s.len() - 1;
            assert(rest.last() == s[k - 1]);
            assert forall|j: int| 0 <= j < rest.len() - 1 implies !at_or_below(
                #[trigger] rest[j].src,
                top.src,
            ) by {
                assert(rest[j] == s[j]);
                assert(s[k - 1].action == Action::RemoveRemoteDir);
                assert(!at_or_below(s[j].src, s[k - 1].src));
            }
            lemma_children_ordered(rest, top, o->Children_0@);
        }
    }
}


pub open spec fn is_download_action(a: Action) -> bool {
    a == Action::StatRemote || a == Action::ReadRemoteDir || a == Action::MakeLocalDirs || a
        == Action::Download
}

/// The local folder task that must sit right above `t` in a download job:
/// the folder receiving a copied file, or the copy of a directory about to
/// be read.
pub open spec fn folder_for(t: TaskView) -> TaskView {
    if t.action == Action::Download {
        task(Action::MakeLocalDirs, parent_dir(t.dst), seq![])
    } else {
        task(Action::MakeLocalDirs, t.dst, seq![])
    }
}

pub open spec fn needs_folder(a: Action) -> bool {
    a == Action::Download || a == Action::ReadRemoteDir
}

/// The order of a download job's stack (top last): every file copy and
/// every directory read sits right under the creation of the local folder
/// it fills, so that folder is made just before it.
#[verifier::opaque]
pub open spec fn creation_ordered(s: Seq<TaskView>) -> bool {
    &&& forall|k: int| 0 <= k < s.len() ==> is_download_action(#[trigger] s[k].action)
    &&& forall|k: int|
        0 <= k && k + 1 < s.len() && needs_folder(s[k].action) ==> #[trigger] s[k + 1]
            == folder_for(s[k])
}

proof fn lemma_created_empty()
    ensures
        creation_ordered(seq![]),
{
    reveal(creation_ordered);
}

proof fn lemma_created_drop_last(s: Seq<TaskView>)
    requires
        creation_ordered(s),
        s.len() > 0,
    ensures
        creation_ordered(s.drop_last()),
        is_download_action(s.last().action),
        s.len() > 1 && needs_folder(s[s.len() - 2].action) ==> s.last() == folder_for(
            s[s.len() - 2],
        ),
{
    reveal(creation_ordered);
    let r = s.drop_last();
    assert forall|k: int|
        0 <= k && k + 1 < r.len() && needs_folder(r[k].action) implies #[trigger] r[k + 1]
        == folder_for(r[k]) by {
        assert(r[k + 1] == s[k + 1] && r[k] == s[k]);
    }
    assert forall|k: int| 0 <= k < r.len() implies is_download_action(#[trigger] r[k].action) by {
        assert(r[k] == s[k]);
    }
    assert(s[s.len() - 1] == s.last());
    if s.len() > 1 {
        let k = s.len() - 2;
        assert(s[k + 1] == s.last());
    }
}

proof fn lemma_created_push(s: Seq<TaskView>, x: TaskView)
    requires
        creation_ordered(s),
        is_download_action(x.action),
        s.len() > 0 && needs_folder(s.last().action) ==> x == folder_for(s.last()),
    ensures
        creation_ordered(s.push(x)),
{
    reveal(creation_ordered);
    let r = s.push(x);
    assert forall|k: int|
        0 <= k && k + 1 < r.len() && needs_folder(r[k].action) implies #[trigger] r[k + 1]
        == folder_for(r[k]) by {
        assert(r[k] == s[k]);
        if k + 1 < s.len() {
            assert(r[k + 1] == s[k + 1]);
        } else {
            assert(s[k] == s.last());
        }
    }
    assert forall|k: int| 0 <= k < r.len() implies is_download_action(#[trigger] r[k].action) by {
        if k < s.len() {
            assert(r[k] == s[k]);
        }
    }
}

proof fn lemma_download_children(rest: Seq<TaskView>, t: TaskView, kids: Seq<RawEntry>)
    requires
        creation_ordered(rest),
        rest.len() > 0 ==> !needs_folder(rest.last().action),
    ensures
        creation_ordered(rest + children_tasks(Mode::Download, t, kids)),
        (rest + children_tasks(Mode::Download, t, kids)).len() > 0 ==> !needs_folder(
            (rest + children_tasks(Mode::Download, t, kids)).last().action,
        ),
    decreases kids.len(),
{
    if kids.len() == 0 {
        assert(rest + children_tasks(Mode::Download, t, kids) =~= rest);
    } else {
        let init = kids.drop_last();
        lemma_download_children(rest, t, init);
        let prev = rest + children_tasks(Mode::Download, t, init);
        match entry_name(kids.last().path@) {
            None => {
                assert(rest + children_tasks(Mode::Download, t, kids) =~= prev);
            },
            Some(n) => {
                let x = task(Action::StatRemote, joined(t.src, n), joined(t.dst, n));
                lemma_created_push(prev, x);
                assert(rest + children_tasks(Mode::Download, t, kids) =~= prev.push(x));
            },
        }
    }
}

/// A download job keeps its order through every step, whatever the
/// outcome: a local folder is created right before a file is copied into
/// it, and right before the remote directory it copies is read.
#[verifier::spinoff_prover]
pub proof fn lemma_download_keeps_order(v: JobView, o: Outcome)
    requires
        v.mode == Mode::Download,
        creation_ordered(v.stack),
    ensures
        creation_ordered(stepped(v, o).stack),
{
    lemma_created_empty();
    if v.failure is None && v.stack.len() > 0 {
        let s = v.stack;
        let rest = s.drop_last();
        let top = s.last();
        lemma_created_drop_last(s);
        if rest.len() > 0 {
            assert(rest.last() == s[s.len() - 2]);
        }
        if top.action == Action::StatRemote && o is Kind {
            if o->Kind_0 == crate::job::NodeKind::Dir {
                let x = task(Action::ReadRemoteDir, top.src, top.dst);
                lemma_created_push(rest, x);
                lemma_created_push(rest.push(x), folder_for(x));
                assert(stepped(v, o).stack =~= rest.push(x).push(folder_for(x)));
            } else {
                let x = task(Action::Download, top.src, top.dst);
                lemma_created_push(rest, x);
                lemma_created_push(rest.push(x), folder_for(x));
                assert(stepped(v, o).stack =~= rest.push(x).push(folder_for(x)));
            }
        } else if top.action == Action::ReadRemoteDir && o is Children {
            lemma_download_children(rest, top, o->Children_0@);
        }
    }
}


pub open spec fn is_upload_action(a: Action) -> bool {
    a == Action::StatLocal || a == Action::ReadLocalDir || a == Action::MakeRemoteDir || a
        == Action::Upload
}

pub open spec fn needs_remote_folders(a: Action) -> bool {
    a == Action::Upload || a == Action::ReadLocalDir
}

/// The remote folders, root first, that must exist before `t`: those
/// leading to the folder that receives an uploaded file, or to the copy of
/// a local directory about to be read.
pub open spec fn folders_needed(t: TaskView) -> Seq<Seq<char>> {
    if t.action == Action::Upload {
        ancestors(parent_dir(t.dst))
    } else {
        ancestors(t.dst)
    }
}

/// The order of an upload job's stack (top last): above every file upload
/// and every local directory read stand only the creations of the remote
/// folders it needs that are still to be made, the one nearest the root on
/// top. So each of them is made, root first, before the upload or read.
#[verifier::opaque]
pub open spec fn folders_first(s: Seq<TaskView>) -> bool {
    &&& forall|k: int| 0 <= k < s.len() ==> is_upload_action(#[trigger] s[k].action)
    &&& forall|k: int|
        0 <= k < s.len() && needs_remote_folders((#[trigger] s[k]).action) ==> {
            &&& s.len() - k - 1 <= folders_needed(s[k]).len()
            &&& s.subrange(k + 1, s.len() as int) == make_remote_dirs(folders_needed(s[k])).take(
                s.len() - k - 1,
            )
        }
}

proof fn lemma_folders_plain(s: Seq<TaskView>)
    requires
        forall|k: int| 0 <= k < s.len() ==> is_upload_action(#[trigger] s[k].action),
        forall|k: int| 0 <= k < s.len() ==> !needs_remote_folders(#[trigger] s[k].action),
    ensures
        folders_first(s),
{
    reveal(folders_first);
}

proof fn lemma_folders_drop_last(s: Seq<TaskView>)
    requires
        folders_first(s),
        s.len() > 0,
    ensures
        folders_first(s.drop_last()),
        forall|k: int| 0 <= k < s.len() ==> is_upload_action(#[trigger] s[k].action),
        s.last().action != Action::MakeRemoteDir ==> forall|k: int|
            0 <= k < s.len() - 1 ==> !needs_remote_folders(#[trigger] s[k].action),
{
    reveal(folders_first);
    let r = s.drop_last();
    assert forall|k: int| 0 <= k < r.len() implies is_upload_action(#[trigger] r[k].action) by {
        assert(r[k] == s[k]);
    }
    assert forall|k: int|
        0 <= k < r.len() && needs_remote_folders((#[trigger] r[k]).action) implies {
        &&& r.len() - k - 1 <= folders_needed(r[k]).len()
        &&& r.subrange(k + 1, r.len() as int) == make_remote_dirs(folders_needed(r[k])).take(
            r.len() - k - 1,
        )
    } by {
        assert(r[k] == s[k]);
        let m = make_remote_dirs(folders_needed(s[k]));
        assert(r.subrange(k + 1, r.len() as int) =~= s.subrange(k + 1, s.len() as int).drop_last());
        assert(m.take(s.len() - k - 1).drop_last() =~= m.take(r.len() - k - 1));
    }
    if s.last().action != Action::MakeRemoteDir {
        assert forall|k: int| 0 <= k < s.len() - 1 implies !needs_remote_folders(
            #[trigger] s[k].action,
        ) by {
            if needs_remote_folders(s[k].action) {
                let m = make_remote_dirs(folders_needed(s[k]));
                let j = s.len() - k - 2;
                assert(s.subrange(k + 1, s.len() as int)[j] == s.last());
                assert(m.take(s.len() - k - 1)[j] == m[j]);
            }
        }
    }
}

proof fn lemma_folders_after_stat(rest: Seq<TaskView>, x: TaskView)
    requires
        forall|k: int| 0 <= k < rest.len() ==> is_upload_action(#[trigger] rest[k].action),
        forall|k: int| 0 <= k < rest.len() ==> !needs_remote_folders(#[trigger] rest[k].action),
        needs_remote_folders(x.action),
    ensures
        folders_first(rest.push(x) + make_remote_dirs(folders_needed(x))),
{
    reveal(folders_first);
    let m = make_remote_dirs(folders_needed(x));
    let s = rest.push(x) + m;
    let at = rest.len() as int;
    assert forall|k: int| 0 <= k < s.len() implies is_upload_action(#[trigger] s[k].action) by {
        if k < at {
            assert(s[k] == rest[k]);
        } else if k > at {
            assert(s[k] == m[k - at - 1]);
        }
    }
    assert forall|k: int|
        0 <= k < s.len() && needs_remote_folders((#[trigger] s[k]).action) implies {
        &&& s.len() - k - 1 <= folders_needed(s[k]).len()
        &&& s.subrange(k + 1, s.len() as int) == make_remote_dirs(folders_needed(s[k])).take(
            s.len() - k - 1,
        )
    } by {
        if k < at {
            assert(s[k] == rest[k]);
        } else if k > at {
            assert(s[k] == m[k - at - 1]);
        } else {
            assert(s[k] == x);
            assert(s.subrange(k + 1, s.len() as int) =~= m);
            assert(m.take(m.len() as int) =~= m);
        }
    }
}

proof fn lemma_upload_children_stats(t: TaskView, kids: Seq<RawEntry>)
    ensures
        forall|i: int|
            0 <= i < children_tasks(Mode::Upload, t, kids).len() ==> (#[trigger] children_tasks(
                Mode::Upload,
                t,
                kids,
            )[i]).action == Action::StatLocal,
    decreases kids.len(),
{
    if kids.len() > 0 {
        lemma_upload_children_stats(t, kids.drop_last());
    }
}

/// An upload job keeps its order through every step, whatever the outcome:
/// the remote folders a file or a directory copy needs are each created,
/// root first, right before it is written.
#[verifier::spinoff_prover]
pub proof fn lemma_upload_keeps_order(v: JobView, o: Outcome)
    requires
        v.mode == Mode::Upload,
        folders_first(v.stack),
    ensures
        folders_first(stepped(v, o).stack),
{
    lemma_folders_plain(seq![]);
    if v.failure is None && v.stack.len() > 0 {
        let s = v.stack;
        let rest = s.drop_last();
        let top = s.last();
        lemma_folders_drop_last(s);
        if top.action != Action::MakeRemoteDir {
            assert forall|k: int| 0 <= k < rest.len() implies !needs_remote_folders(
                #[trigger] rest[k].action,
            ) && is_upload_action(rest[k].action) by {
                assert(rest[k] == s[k]);
            }
        }
        assert(top == s[s.len() - 1]);
        if top.action == Action::StatLocal && o is Kind {
            let a = if o->Kind_0 == crate::job::NodeKind::Dir {
                Action::ReadLocalDir
            } else {
                Action::Upload
            };
            let x = task(a, top.src, top.dst);
            lemma_folders_after_stat(rest, x);
            assert(stepped(v, o).stack =~= rest.push(x) + make_remote_dirs(folders_needed(x)));
        } else if top.action == Action::ReadLocalDir && o is Children {
            let kids = o->Children_0@;
            let c = children_tasks(Mode::Upload, top, kids);
            lemma_upload_children_stats(top, kids);
            let w = rest + c;
            assert forall|k: int| 0 <= k < w.len() implies is_upload_action(
                #[trigger] w[k].action,
            ) && !needs_remote_folders(w[k].action) by {
                if k < rest.len() {
                    assert(w[k] == rest[k]);
                } else {
                    assert(w[k] == c[k - rest.len()]);
                }
            }
            lemma_folders_plain(w);
        }
    }
}

} // verus!
