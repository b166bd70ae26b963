//! Remote path grammar: `/` separates components, trailing separators and
//! trailing `.` components are ignored, and `.` / `..` never name an entry.
use vstd::prelude::*;
use crate::error::{ErrorKind, OpError};

verus! {

/// Whether `p` ends in a separator or in a `.` component after a separator.
pub open spec fn ends_in_filler(p: Seq<char>) -> bool {
    p.len() > 0 && (p.last() == '/' || (p.len() >= 2 && p.last() == '.' && p[p.len() - 2] == '/'))
}

/// `p` with every trailing separator and trailing `.` component removed.
pub open spec fn trim_trailing(p: Seq<char>) -> Seq<char>
    decreases p.len(),
{
    if ends_in_filler(p) {
        trim_trailing(p.drop_last())
    } else {
        p
    }
}

/// `p` with every trailing separator removed.
pub open spec fn trim_seps(p: Seq<char>) -> Seq<char>
    decreases p.len(),
{
    if p.len() > 0 && p.last() == '/' {
        trim_seps(p.drop_last())
    } else {
        p
    }
}

/// The index just past the last separator of `p`, or 0 when it has none.
pub open spec fn after_last_sep(p: Seq<char>) -> int
    decreases p.len(),
{
    if p.len() == 0 {
        0
    } else if p.last() == '/' {
        p.len() as int
    } else {
        after_last_sep(p.drop_last())
    }
}

/// The pseudo-entries `.` and `..`.
pub open spec fn is_dot_name(n: Seq<char>) -> bool {
    n == seq!['.'] || n == seq!['.', '.']
}

/// A component that names an entry: not empty, not `.` nor `..`.
pub open spec fn is_normal(n: Seq<char>) -> bool {
    n.len() > 0 && !is_dot_name(n)
}

/// The text after the last separator, once trailing separators are dropped.
pub open spec fn last_segment(p: Seq<char>) -> Seq<char> {
    let t = trim_trailing(p);
    t.subrange(after_last_sep(t), t.len() as int)
}

/// The name that the path `p` of a directory read's child gives it: the
/// text after its last separator, taken as it stands, if it names an entry.
/// A `.` or `..` child has none.
pub open spec fn entry_name(p: Seq<char>) -> Option<Seq<char>> {
    let t = trim_seps(p);
    let s = t.subrange(after_last_sep(t), t.len() as int);
    if is_normal(s) {
        Some(s)
    } else {
        None
    }
}

/// The final component of `p`, if it names an entry.
pub open spec fn base_name(p: Seq<char>) -> Option<Seq<char>> {
    let s = last_segment(p);
    if is_normal(s) {
        Some(s)
    } else {
        None
    }
}

/// The directory holding `p`; the root when `p` has no parent segment.
pub open spec fn parent_dir(p: Seq<char>) -> Seq<char> {
    let t = trim_trailing(p);
    let d = trim_trailing(t.take(after_last_sep(t)));
    if d.len() == 0 {
        seq!['/']
    } else {
        d
    }
}

/// `name` placed inside `base`, with exactly one separator between them.
pub open spec fn joined(base: Seq<char>, name: Seq<char>) -> Seq<char> {
    if base.len() == 0 {
        name
    } else if base.last() == '/' {
        base + name
    } else {
        base + seq!['/'] + name
    }
}

/// `p` split at every separator (empty pieces included).
pub open spec fn segments(p: Seq<char>) -> Seq<Seq<char>>
    decreases p.len(),
{
    if p.len() == 0 {
        seq![Seq::empty()]
    } else {
        let s = segments(p.drop_last());
        if p.last() == '/' {
            s.push(Seq::empty())
        } else {
            s.update(s.len() - 1, s.last().push(p.last()))
        }
    }
}

/// The last directory of a chain, or the root for an empty chain.
pub open spec fn chain_end(c: Seq<Seq<char>>) -> Seq<char> {
    if c.len() == 0 {
        seq!['/']
    } else {
        c.last()
    }
}

/// The absolute directories that lead down through the normal components of
/// `ss`: each one is the previous one joined with the next component.
pub open spec fn dir_chain(ss: Seq<Seq<char>>) -> Seq<Seq<char>>
    decreases ss.len(),
{
    if ss.len() == 0 {
        seq![]
    } else {
        let prev = dir_chain(ss.drop_last());
        if is_normal(ss.last()) {
            prev.push(joined(chain_end(prev), ss.last()))
        } else {
            prev
        }
    }
}

/// Every directory that must exist, from the root down, for `p` to exist.
pub open spec fn ancestors(p: Seq<char>) -> Seq<Seq<char>> {
    dir_chain(segments(p))
}

/// `p` with each backslash turned into a forward slash.
pub open spec fn forward_slashes(p: Seq<char>) -> Seq<char> {
    Seq::new(p.len(), |i: int| if p[i] == '\\' { '/' } else { p[i] })
}

/// Whether `n` holds a forward or backward slash.
pub open spec fn has_separator(n: Seq<char>) -> bool {
    exists|i: int| 0 <= i < n.len() && (n[i] == '/' || n[i] == '\\')
}

proof fn lemma_trim_is_prefix(p: Seq<char>)
    ensures
        trim_trailing(p).len() <= p.len(),
        trim_trailing(p) == p.take(trim_trailing(p).len() as int),
    decreases p.len(),
{
    if ends_in_filler(p) {
        lemma_trim_is_prefix(p.drop_last());
        assert(p.drop_last().take(trim_trailing(p).len() as int) =~= p.take(
            trim_trailing(p).len() as int,
        ));
    } else {
        assert(p == p.take(p.len() as int));
    }
}

/// Whether the first `k` characters of `p` end in a separator or a `.`
/// component.
fn ends_in_filler_at(p: &str, k: usize) -> (r: bool)
    requires
        k <= p@.len(),
    ensures
        r == ends_in_filler(p@.take(k as int)),
{
    if k == 0 {
        false
    } else {
        let c = p.get_char(k - 1);
        c == '/' || (k >= 2 && c == '.' && p.get_char(k - 2) == '/')
    }
}

/// Length of `trim_trailing` of the first `len` characters of `p`.
fn trimmed_len(p: &str, len: usize) -> (r: usize)
    requires
        len <= p@.len(),
    ensures
        r == trim_trailing(p@.take(len as int)).len(),
{
    let mut k: usize = len;
    while ends_in_filler_at(p, k)
        invariant
            k <= len <= p@.len(),
            trim_trailing(p@.take(len as int)) == trim_trailing(p@.take(k as int)),
        decreases k,
    {
        assert(p@.take(k as int).drop_last() =~= p@.take(k - 1));
        k = k - 1;
    }
    assert(trim_trailing(p@.take(k as int)) == p@.take(k as int));
    k
}

proof fn lemma_trim_seps_is_prefix(p: Seq<char>)
    ensures
        trim_seps(p).len() <= p.len(),
        trim_seps(p) == p.take(trim_seps(p).len() as int),
    decreases p.len(),
{
    if p.len() > 0 && p.last() == '/' {
        lemma_trim_seps_is_prefix(p.drop_last());
        assert(p.drop_last().take(trim_seps(p).len() as int) =~= p.take(
            trim_seps(p).len() as int,
        ));
    } else {
        assert(p == p.take(p.len() as int));
    }
}

/// Length of `p` once its trailing separators are removed.
fn seps_trimmed_len(p: &str) -> (r: usize)
    ensures
        r == trim_seps(p@).len(),
{
    let len = p.unicode_len();
    let mut k: usize = len;
    assert(p@.take(len as int) =~= p@);
    while k > 0 && p.get_char(k - 1) == '/'
        invariant
            k <= len == p@.len(),
            trim_seps(p@) == trim_seps(p@.take(k as int)),
        decreases k,
    {
        assert(p@.take(k as int).drop_last() =~= p@.take(k - 1));
        k = k - 1;
    }
    assert(trim_seps(p@.take(k as int)) == p@.take(k as int));
    k
}

/// `after_last_sep` of the first `len` characters of `p`.
fn sep_end(p: &str, len: usize) -> (r: usize)
    requires
        len <= p@.len(),
    ensures
        r == after_last_sep(p@.take(len as int)),
        r <= len,
{
    let mut k: usize = len;
    while k > 0 && p.get_char(k - 1) != '/'
        invariant
            k <= len <= p@.len(),
            after_last_sep(p@.take(len as int)) == after_last_sep(p@.take(k as int)),
        decreases k,
    {
        assert(p@.take(k as int).drop_last() =~= p@.take(k - 1));
        k = k - 1;
    }
    k
}

/// Whether `s` is `.` or `..`.
pub fn is_dot_entry(s: &str) -> (r: bool)
    ensures
        r == is_dot_name(s@),
{
    let n = s.unicode_len();
    if n == 1 {
        let r = s.get_char(0) == '.';
        assert(r ==> s@ =~= seq!['.']);
        r
    } else if n == 2 {
        let r = s.get_char(0) == '.' && s.get_char(1) == '.';
        assert(r ==> s@ =~= seq!['.', '.']);
        r
    } else {
        false
    }
}

/// The name of a directory read's child from its path; `None` for `.`,
/// `..` and a path with nothing after its last separator.
pub fn child_name(p: &str) -> (r: Option<String>)
    ensures
        r is Some <==> entry_name(p@) is Some,
        r is Some ==> r->0@ == entry_name(p@)->0,
{
    let t = seps_trimmed_len(p);
    proof {
        lemma_trim_seps_is_prefix(p@);
    }
    let s = sep_end(p, t);
    let seg = p.substring_char(s, t);
    assert(seg@ =~= trim_seps(p@).subrange(after_last_sep(trim_seps(p@)), t as int));
    if seg.unicode_len() == 0 || is_dot_entry(seg) {
        None
    } else {
        Some(seg.to_owned())
    }
}

/// The final component of `p`; `None` when `p` ends in no entry name (the
/// root, an empty path, `.` or `..`).
pub fn file_name(p: &str) -> (r: Option<String>)
    ensures
        r is Some <==> base_name(p@) is Some,
        r is Some ==> r->0@ == base_name(p@)->0,
{
    let n = p.unicode_len();
    let t = trimmed_len(p, n);
    proof {
        assert(p@.take(n as int) =~= p@);
        lemma_trim_is_prefix(p@);
    }
    let s = sep_end(p, t);
    let seg = p.substring_char(s, t);
    assert(seg@ =~= last_segment(p@));
    if seg.unicode_len() == 0 || is_dot_entry(seg) {
        None
    } else {
        Some(seg.to_owned())
    }
}

/// The directory that holds `p`, or `/` when `p` has no parent segment.
pub fn parent(p: &str) -> (r: String)
    ensures
        r@ == parent_dir(p@),
{
    let n = p.unicode_len();
    let t = trimmed_len(p, n);
    proof {
        assert(p@.take(n as int) =~= p@);
        lemma_trim_is_prefix(p@);
    }
    let s = sep_end(p, t);
    let d = trimmed_len(p, s);
    proof {
        let tt = trim_trailing(p@);
        assert(tt.take(s as int) =~= p@.take(s as int));
        lemma_trim_is_prefix(p@.take(s as int));
    }
    if d == 0 {
        proof {
            reveal_strlit("/");
        }
        String::from_str("/")
    } else {
        let r = p.substring_char(0, d).to_owned();
        assert(r@ =~= trim_trailing(p@.take(s as int)));
        r
    }
}

/// `name` placed inside `base`.
pub fn join(base: &str, name: &str) -> (r: String)
    ensures
        r@ == joined(base@, name@),
{
    let n = base.unicode_len();
    if n == 0 {
        name.to_owned()
    } else if base.get_char(n - 1) == '/' {
        let mut r = base.to_owned();
        r.append(name);
        r
    } else {
        proof {
            reveal_strlit("/");
        }
        let mut r = base.to_owned();
        r.append("/");
        r.append(name);
        r
    }
}

/// Whether `n` holds a forward or backward slash.
pub fn contains_separator(n: &str) -> (r: bool)
    ensures
        r == has_separator(n@),
{
    let len = n.unicode_len();
    let mut i: usize = 0;
    while i < len
        invariant
            i <= len == n@.len(),
            forall|j: int| 0 <= j < i ==> n@[j] != '/' && n@[j] != '\\',
        decreases len - i,
    {
        let c = n.get_char(i);
        if c == '/' || c == '\\' {
            return true;
        }
        i = i + 1;
    }
    false
}

/// `p` with each backslash turned into a forward slash.
pub fn to_forward_slashes(p: &str) -> (r: String)
    ensures
        r@ == forward_slashes(p@),
{
    let len = p.unicode_len();
    let mut r = String::new();
    let mut i: usize = 0;
    while i < len
        invariant
            i <= len == p@.len(),
            r@ =~= Seq::new(i as nat, |j: int| if p@[j] == '\\' { '/' } else { p@[j] }),
        decreases len - i,
    {
        let ghost before = r@;
        if p.get_char(i) == '\\' {
            r.append("/");
            proof {
                reveal_strlit("/");
            }
            assert(r@ =~= before.push('/'));
        } else {
            let one = p.substring_char(i, i + 1);
            r.append(one);
            assert(one@ =~= seq![p@[i as int]]);
            assert(r@ =~= before.push(p@[i as int]));
        }
        i = i + 1;
    }
    r
}

/// Extends a directory chain by one path segment, if it is a normal one.
fn extend_chain(out: &mut Vec<String>, cur: &mut String, seg: &str, Ghost(done): Ghost<Seq<Seq<char>>>)
    requires
        old(out)@.map_values(|s: String| s@) == dir_chain(done),
        old(cur)@ == chain_end(dir_chain(done)),
    ensures
        final(out)@.map_values(|s: String| s@) == dir_chain(done.push(seg@)),
        final(cur)@ == chain_end(dir_chain(done.push(seg@))),
{
    assert(done.push(seg@).drop_last() =~= done);
    if seg.unicode_len() > 0 && !is_dot_entry(seg) {
        let next = join(cur.as_str(), seg);
        *cur = next.clone();
        out.push(next);
        assert(out@.map_values(|s: String| s@) =~= dir_chain(done.push(seg@)));
    }
}

/// Every directory from the root down that must exist for `p` to exist:
/// `/a`, `/a/b`, ... for the normal components `a`, `b`, ... of `p`.
pub fn ancestor_dirs(p: &str) -> (r: Vec<String>)
    ensures
        r@.map_values(|s: String| s@) == ancestors(p@),
{
    proof {
        reveal_strlit("/");
    }
    let len = p.unicode_len();
    let mut out: Vec<String> = Vec::new();
    let mut cur = String::from_str("/");
    let mut start: usize = 0;
    let mut i: usize = 0;
    let ghost mut done: Seq<Seq<char>> = seq![];
    assert(p@.take(0) =~= Seq::<char>::empty());
    assert(out@.map_values(|s: String| s@) =~= dir_chain(done));
    while i < len
        invariant
            start <= i <= len == p@.len(),
            segments(p@.take(i as int)) == done.push(p@.subrange(start as int, i as int)),
            out@.map_values(|s: String| s@) == dir_chain(done),
            cur@ == chain_end(dir_chain(done)),
        decreases len - i,
    {
        proof {
            assert(p@.take(i + 1).drop_last() =~= p@.take(i as int));
        }
        if p.get_char(i) == '/' {
            let seg = p.substring_char(start, i);
            extend_chain(&mut out, &mut cur, seg, Ghost(done));
            proof {
                done = done.push(seg@);
                assert(p@.subrange(i + 1, i + 1) =~= Seq::<char>::empty());
            }
            start = i + 1;
        } else {
            proof {
                assert(p@.subrange(start as int, i as int).push(p@[i as int]) =~= p@.subrange(
                    start as int,
                    i + 1,
                ));
                assert(done.push(p@.subrange(start as int, i as int)).update(
                    done.len() as int,
                    p@.subrange(start as int, i + 1),
                ) =~= done.push(p@.subrange(start as int, i + 1)));
            }
        }
        i = i + 1;
    }
    let seg = p.substring_char(start, len);
    assert(p@.take(len as int) =~= p@);
    extend_chain(&mut out, &mut cur, seg, Ghost(done));
    out
}

/// The path that renaming `path` to `new_name` leads to: `new_name` in the
/// directory that holds `path`. A new name holding a slash or a backslash
/// would move the entry elsewhere and is refused with `InvalidArgument`.
pub fn rename_target(path: &str, new_name: &str) -> (r: Result<String, OpError>)
    ensures
        r is Err <==> has_separator(new_name@),
        r is Err ==> r->Err_0.kind == ErrorKind::InvalidArgument,
        r is Err ==> r->Err_0.message@ == "Invalid new name: cannot contain '/' or '\\'"@,
        r is Ok ==> r->Ok_0@ == joined(parent_dir(path@), new_name@),
{
    if contains_separator(new_name) {
        Err(OpError::new(ErrorKind::InvalidArgument, "Invalid new name: cannot contain '/' or '\\'"))
    } else {
        let dir = parent(path);
        Ok(join(dir.as_str(), new_name))
    }
}

proof fn lemma_after_last_sep_suffix(s: Seq<char>, n: Seq<char>)
    requires
        s.len() == 0 || s.last() == '/',
        forall|i: int| 0 <= i < n.len() ==> n[i] != '/',
    ensures
        after_last_sep(s + n) == s.len(),
    decreases n.len(),
{
    if n.len() == 0 {
        assert(s + n =~= s);
        if s.len() > 0 {
            assert(after_last_sep(s) == s.len());
        }
    } else {
        assert((s + n).drop_last() =~= s + n.drop_last());
        lemma_after_last_sep_suffix(s, n.drop_last());
    }
}

/// A name without separators, placed in any directory, is found again as
/// the name of that child: the entries a transfer creates keep the names of
/// the entries they copy.
pub proof fn lemma_joined_keeps_name(base: Seq<char>, name: Seq<char>)
    requires
        is_normal(name),
        forall|i: int| 0 <= i < name.len() ==> name[i] != '/',
    ensures
        entry_name(joined(base, name)) == Some(name),
{
    let j = joined(base, name);
    let s = if base.len() == 0 {
        Seq::<char>::empty()
    } else if base.last() == '/' {
        base
    } else {
        base + seq!['/']
    };
    assert(j =~= s + name);
    assert(j.last() == name.last());
    assert(trim_seps(j) == j);
    lemma_after_last_sep_suffix(s, name);
    assert(j.subrange(s.len() as int, j.len() as int) =~= name);
}

} // verus!
