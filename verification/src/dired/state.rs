//! The state of a dired buffer.

use crate::seqs::models;
use crate::strings::{copy, opt_view};
use vstd::prelude::*;

verus! {

/// One entry of a directory listing.
#[derive(Debug)]
pub struct Entry {
    pub name: String,
    pub path: String,
    pub is_dir: bool,
    /// ' ' none, '*' marked, 'D' flagged for deletion.
    pub mark: char,
    // ls -la metadata (zeroed when the entry cannot be stat'ed).
    pub mode: u32,
    pub nlink: u64,
    pub owner: String,
    pub group: String,
    pub size: u64,
    /// Modification time, seconds since the epoch.
    pub mtime: i64,
}

/// What an entry holds.
#[verifier::ext_equal]
pub struct EntryModel {
    pub name: Seq<char>,
    pub path: Seq<char>,
    pub is_dir: bool,
    pub mark: char,
    pub mode: u32,
    pub nlink: u64,
    pub owner: Seq<char>,
    pub group: Seq<char>,
    pub size: u64,
    pub mtime: i64,
}

impl View for Entry {
    type V = EntryModel;

    open spec fn view(&self) -> EntryModel {
        EntryModel {
            name: self.name@,
            path: self.path@,
            is_dir: self.is_dir,
            mark: self.mark,
            mode: self.mode,
            nlink: self.nlink,
            owner: self.owner@,
            group: self.group@,
            size: self.size,
            mtime: self.mtime,
        }
    }
}

impl Entry {
    /// A copy of the entry.
    pub fn copy(&self) -> (r: Self)
        ensures
            r@ == self@,
    {
        Entry {
            name: copy(self.name.as_str()),
            path: copy(self.path.as_str()),
            is_dir: self.is_dir,
            mark: self.mark,
            mode: self.mode,
            nlink: self.nlink,
            owner: copy(self.owner.as_str()),
            group: copy(self.group.as_str()),
            size: self.size,
            mtime: self.mtime,
        }
    }
}

/// What a dired buffer lists.
#[derive(Debug)]
pub struct DiredState {
    pub dir: String,
    pub entries: Vec<Entry>,
    pub show_hidden: bool,
    /// Column where the file name starts on every listing line; depends on
    /// the metadata column widths, so it is recomputed with the text.
    pub name_col: usize,
    /// wgrep snapshot: for each buffer line, the path it named when editing
    /// began (None for the header line).
    pub wgrep: Option<Vec<Option<String>>>,
}

/// The paths of a wgrep snapshot, line by line.
pub open spec fn snapshot(s: Seq<Option<String>>) -> Seq<Option<Seq<char>>> {
    Seq::new(s.len(), |i: int| opt_view(s[i]))
}

/// What a dired buffer lists.
#[verifier::ext_equal]
pub struct DiredModel {
    pub dir: Seq<char>,
    pub entries: Seq<EntryModel>,
    pub show_hidden: bool,
    pub name_col: int,
    pub wgrep: Option<Seq<Option<Seq<char>>>>,
}

impl View for DiredState {
    type V = DiredModel;

    open spec fn view(&self) -> DiredModel {
        DiredModel {
            dir: self.dir@,
            entries: models(self.entries@),
            show_hidden: self.show_hidden,
            name_col: self.name_col as int,
            wgrep: match self.wgrep {
                Some(s) => Some(snapshot(s@)),
                None => None,
            },
        }
    }
}

} // verus!
