//! Remote directory entries and one-level listings.
use vstd::prelude::*;
use crate::path::{child_name, entry_name, is_dot_name};

verus! {

/// The kind of a listed entry.
#[derive(Clone, Copy, Debug, PartialEq, Eq, Structural)]
pub enum EntryKind {
    File,
    Dir,
}

/// One child as a directory read reports it: its full path, whether it is a
/// directory, and the size the remote side gave, if any.
#[derive(Clone, Debug)]
pub struct RawEntry {
    pub path: String,
    pub is_dir: bool,
    pub size: Option<u64>,
}

/// One listed entry: its kind, its name, and its size for files only.
#[derive(Clone, Debug)]
pub struct Entry {
    pub kind: EntryKind,
    pub name: String,
    pub size: Option<u64>,
}

pub struct EntryView {
    pub kind: EntryKind,
    pub name: Seq<char>,
    pub size: Option<u64>,
}

impl View for Entry {
    type V = EntryView;

    open spec fn view(&self) -> EntryView {
        EntryView { kind: self.kind, name: self.name@, size: self.size }
    }
}

/// The entry a listing shows for `raw`: none for `.`, `..` and paths with no
/// final component; a directory without size; a file with the size the
/// directory read reported, if it reported one.
pub open spec fn listed(raw: RawEntry) -> Option<EntryView> {
    match entry_name(raw.path@) {
        Some(n) => Some(
            EntryView {
                kind: if raw.is_dir { EntryKind::Dir } else { EntryKind::File },
                name: n,
                size: if raw.is_dir { None } else { raw.size },
            },
        ),
        None => None,
    }
}

/// The listing of `raws`, in their order.
pub open spec fn listing(raws: Seq<RawEntry>) -> Seq<EntryView>
    decreases raws.len(),
{
    if raws.len() == 0 {
        seq![]
    } else {
        let prev = listing(raws.drop_last());
        match listed(raws.last()) {
            Some(e) => prev.push(e),
            None => prev,
        }
    }
}

proof fn lemma_listing_entries(raws: Seq<RawEntry>)
    ensures
        forall|i: int|
            0 <= i < listing(raws).len() ==> {
                let e = #[trigger] listing(raws)[i];
                &&& e.name.len() > 0
                &&& !is_dot_name(e.name)
                &&& (e.kind == EntryKind::Dir ==> e.size is None)
            },
    decreases raws.len(),
{
    if raws.len() > 0 {
        lemma_listing_entries(raws.drop_last());
    }
}

/// The entry shown for one raw child, if any.
pub fn entry_of(raw: &RawEntry) -> (r: Option<Entry>)
    ensures
        r is Some <==> listed(*raw) is Some,
        r is Some ==> r->0@ == listed(*raw)->0,
{
    match child_name(raw.path.as_str()) {
        Some(name) => {
            let size = if raw.is_dir {
                None
            } else {
                raw.size
            };
            let kind = if raw.is_dir {
                EntryKind::Dir
            } else {
                EntryKind::File
            };
            Some(Entry { kind, name, size })
        },
        None => None,
    }
}

/// The entries of one directory read, in order, without `.` and `..`.
pub fn list_entries(raws: &Vec<RawEntry>) -> (r: Vec<Entry>)
    ensures
        r@.map_values(|e: Entry| e@) == listing(raws@),
        forall|i: int|
            0 <= i < r@.len() ==> {
                &&& !is_dot_name(#[trigger] r@[i].name@)
                &&& r@[i].name@.len() > 0
                &&& (r@[i].kind == EntryKind::Dir ==> r@[i].size is None)
            },
{
    let mut out: Vec<Entry> = Vec::new();
    let mut i: usize = 0;
    while i < raws.len()
        invariant
            i <= raws@.len(),
            out@.map_values(|e: Entry| e@) == listing(raws@.take(i as int)),
        decreases raws@.len() - i,
    {
        proof {
            assert(raws@.take(i + 1).drop_last() =~= raws@.take(i as int));
        }
        match entry_of(&raws[i]) {
            Some(e) => {
                out.push(e);
                assert(out@.map_values(|e: Entry| e@) =~= listing(raws@.take(i + 1)));
            },
            None => {},
        }
        i = i + 1;
    }
    proof {
        assert(raws@.take(raws@.len() as int) =~= raws@);
        lemma_listing_entries(raws@);
        assert forall|i: int| 0 <= i < out@.len() implies {
            &&& !is_dot_name(#[trigger] out@[i].name@)
            &&& out@[i].name@.len() > 0
            &&& (out@[i].kind == EntryKind::Dir ==> out@[i].size is None)
        } by {
            assert(out@.map_values(|e: Entry| e@)[i] == out@[i]@);
        }
    }
    out
}

} // verus!
