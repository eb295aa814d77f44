//! One child of a listed directory, and the normal form of its path.

use crate::text::{chars_of, joined, replace_char, replaced, slice, starts_with};
use vstd::prelude::*;

verus! {

/// One child of a directory as a listing reported it. A value of this type is
/// a record of what was observed: nothing here looks at the file system.
#[derive(Debug, PartialEq, Eq)]
pub struct Entry {
    /// The path of the child, as the listing gave it.
    pub path: String,
    /// Its file name: the last component of the path.
    pub name: String,
    /// Whether it is a directory.
    pub is_dir: bool,
}

/// What an [`Entry`] holds, as mathematical values.
pub struct EntryView {
    pub path: Seq<char>,
    pub name: Seq<char>,
    pub is_dir: bool,
}

impl View for Entry {
    type V = EntryView;

    open spec fn view(&self) -> EntryView {
        EntryView { path: self.path@, name: self.name@, is_dir: self.is_dir }
    }
}

impl Entry {
    /// An entry with the given path, file name and kind.
    pub fn new(path: &str, name: &str, is_dir: bool) -> (entry: Entry)
        ensures
            entry@ == (EntryView { path: path@, name: name@, is_dir }),
    {
        Entry { path: path.to_owned(), name: name.to_owned(), is_dir }
    }

}

impl Clone for Entry {
    fn clone(&self) -> (copy: Entry)
        ensures
            copy@ == self@,
    {
        Entry { path: self.path.clone(), name: self.name.clone(), is_dir: self.is_dir }
    }
}

/// The views of a list of entries, in order.
pub open spec fn entry_views(entries: Seq<Entry>) -> Seq<EntryView> {
    entries.map_values(|e: Entry| e@)
}

/// A copy of a list of entries.
pub fn copy_entries(entries: &[Entry]) -> (copy: Vec<Entry>)
    ensures
        entry_views(copy@) == entry_views(entries@),
{
    let mut copy: Vec<Entry> = Vec::new();
    let mut k: usize = 0;
    while k < entries.len()
        invariant
            k <= entries.len(),
            copy.len() == k,
            forall|j: int| 0 <= j < k ==> (#[trigger] copy@[j])@ == entries@[j]@,
        decreases entries.len() - k,
    {
        copy.push(entries[k].clone());
        k += 1;
    }
    copy
}

/// The two characters `./`.
pub open spec fn dot_slash() -> Seq<char> {
    seq!['.', '/']
}

/// The normal form of a path, against which every pattern is tested:
/// backslashes become forward slashes, and one leading `./` is dropped.
pub open spec fn normalize(path: Seq<char>) -> Seq<char> {
    let forward = replace_char(path, '\\', '/');
    if dot_slash().is_prefix_of(forward) {
        forward.skip(2)
    } else {
        forward
    }
}

/// The normal form of an entry's path, with a slash behind it where the
/// entry is a directory.
pub open spec fn slashed(entry: EntryView) -> Seq<char> {
    if entry.is_dir {
        normalize(entry.path).push('/')
    } else {
        normalize(entry.path)
    }
}

/// Whether the entry is hidden by convention: its name begins with a dot.
pub open spec fn is_hidden(entry: EntryView) -> bool {
    entry.name.len() > 0 && entry.name[0] == '.'
}

/// Brings a path into its normal form.
pub fn normalized(path: &[char]) -> (out: Vec<char>)
    ensures
        out@ == normalize(path@),
{
    let forward = replaced(path, '\\', '/');
    let lead: [char; 2] = ['.', '/'];
    if starts_with(forward.as_slice(), lead.as_slice()) {
        let kept = slice(forward.as_slice(), 2, forward.len());
        kept
    } else {
        forward
    }
}

/// An entry made ready for matching: its texts as characters, its path in
/// normal form, once bare and once as `slashed` gives it.
pub struct Candidate {
    pub path: Vec<char>,
    pub slashed: Vec<char>,
    pub name: Vec<char>,
    pub is_dir: bool,
}

/// What a [`Candidate`] holds, as mathematical values.
pub struct CandidateView {
    pub path: Seq<char>,
    pub slashed: Seq<char>,
    pub name: Seq<char>,
    pub is_dir: bool,
}

impl View for Candidate {
    type V = CandidateView;

    open spec fn view(&self) -> CandidateView {
        CandidateView {
            path: self.path@,
            slashed: self.slashed@,
            name: self.name@,
            is_dir: self.is_dir,
        }
    }
}

/// The candidate that stands for `entry` when patterns are tested.
pub open spec fn candidate_of(entry: EntryView) -> CandidateView {
    CandidateView {
        path: normalize(entry.path),
        slashed: slashed(entry),
        name: entry.name,
        is_dir: entry.is_dir,
    }
}

impl Candidate {
    /// Makes an entry ready for matching.
    pub fn of(entry: &Entry) -> (candidate: Candidate)
        ensures
            candidate@ == candidate_of(entry@),
    {
        let raw = chars_of(entry.path.as_str());
        let path = normalized(raw.as_slice());
        let slash: [char; 1] = ['/'];
        let slashed = if entry.is_dir {
            let with = joined(path.as_slice(), slash.as_slice());
            assert(with@ == path@.push('/'));
            with
        } else {
            let same = slice(path.as_slice(), 0, path.len());
            assert(same@ == path@);
            same
        };
        let name = chars_of(entry.name.as_str());
        Candidate { path, slashed, name, is_dir: entry.is_dir }
    }

    /// Whether the entry's name begins with a dot.
    pub fn hidden(&self) -> (r: bool)
        ensures
            r == (self@.name.len() > 0 && self@.name[0] == '.'),
    {
        self.name.len() > 0 && self.name[0] == '.'
    }
}

} // verus!
