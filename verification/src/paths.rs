//! Paths, as the strings that they are written as.

use crate::assoc::lookup;
use crate::buffer::{Mode, ModeModel};
use crate::editor::{cur_buf, wf, Editor, EditorModel};
use crate::strings::{cat2, copy, from_chars, has_prefix, starts_with, to_chars};
use crate::value::{SchemeVal, ValModel};
use std::path::Path;
use vstd::prelude::*;

verus! {

/// What `std::path::Path::parent` gives: the path without its last component.
pub uninterp spec fn parent_of(path: Seq<char>) -> Option<Seq<char>>;

/// What `std::path::Path::file_name` gives: the last component of the path.
pub uninterp spec fn file_name_of(path: Seq<char>) -> Option<Seq<char>>;

/// What `std::path::Path::extension` gives: what follows the last dot of the
/// file name.
pub uninterp spec fn extension_of(path: Seq<char>) -> Option<Seq<char>>;

/// `std::path::Path::parent`; its result is named, and nothing more is
/// claimed of it.
#[verifier::external_body]
pub(crate) fn path_parent(path: &str) -> (r: Option<String>)
    ensures
        crate::strings::opt_view(r) == parent_of(path@),
{
    Path::new(path).parent().map(|p| p.display().to_string())
}

/// `std::path::Path::file_name`; its result is named, and nothing more is
/// claimed of it.
#[verifier::external_body]
pub(crate) fn path_file_name(path: &str) -> (r: Option<String>)
    ensures
        crate::strings::opt_view(r) == file_name_of(path@),
{
    Path::new(path).file_name().map(|n| n.to_string_lossy().into_owned())
}

/// `std::path::Path::extension`; its result is named, and nothing more is
/// claimed of it.
#[verifier::external_body]
pub(crate) fn path_extension(path: &str) -> (r: Option<String>)
    ensures
        crate::strings::opt_view(r) == extension_of(path@),
{
    Path::new(path).extension().map(|e| e.to_string_lossy().into_owned())
}

/// Whether a path starts at the root.
pub open spec fn is_rooted(path: Seq<char>) -> bool {
    path.len() > 0 && path[0] == '/'
}

/// A path below a directory: with one separator between the two, and the path
/// alone where it starts at the root.
pub open spec fn joined(dir: Seq<char>, path: Seq<char>) -> Seq<char> {
    if is_rooted(path) || dir.len() == 0 {
        path
    } else if dir.last() == '/' {
        dir + path
    } else {
        dir + seq!['/'] + path
    }
}

/// A path below a directory.
pub fn join(dir: &str, path: &str) -> (r: String)
    ensures
        r@ == joined(dir@, path@),
{
    let p = to_chars(path);
    let d = to_chars(dir);
    if (p.len() > 0 && p[0] == '/') || d.len() == 0 {
        copy(path)
    } else if d[d.len() - 1] == '/' {
        cat2(dir, path)
    } else {
        let mut r = copy(dir);
        r.push('/');
        r.push_str(path);
        assert(r@ =~= joined(dir@, path@));
        r
    }
}

/// The path with a leading `~/` replaced by the home directory.
pub open spec fn at_home(path: Seq<char>, home: Option<Seq<char>>) -> Seq<char> {
    match home {
        Some(h) => if has_prefix(path, "~/"@) {
            joined(h, path.skip(2))
        } else {
            path
        },
        None => path,
    }
}

fn expand_home(path: &str, home: &Option<String>) -> (r: String)
    ensures
        r@ == at_home(path@, crate::strings::opt_view(*home)),
{
    match home {
        Some(h) => {
            if starts_with(path, "~/") {
                proof {
                    reveal_strlit("~/");
                }
                let v = to_chars(path);
                let rest = from_chars(&v, 2, v.len());
                assert(rest@ =~= path@.skip(2));
                join(h.as_str(), rest.as_str())
            } else {
                copy(path)
            }
        },
        None => copy(path),
    }
}

/// The directory that relative prompts start from: the one that the buffer
/// lists, else the one of its file, else the working directory.
pub open spec fn dir_of(e: EditorModel) -> Seq<char> {
    let b = cur_buf(e);
    match lookup(b.locals, "dired-directory"@) {
        Some(ValModel::Str(s)) => s,
        _ => match b.mode {
            ModeModel::Dired(d) => d.dir,
            ModeModel::Fundamental => match b.path {
                Some(p) => match parent_of(p) {
                    Some(q) => q,
                    None => e.cwd,
                },
                None => e.cwd,
            },
        },
    }
}

/// The path that an entered path stands for.
pub open spec fn resolved(e: EditorModel, input: Seq<char>) -> Seq<char> {
    let p = at_home(input, e.home);
    if is_rooted(p) {
        p
    } else {
        joined(dir_of(e), p)
    }
}

/// A directory as a prompt starts with it: with a `/` at its end.
pub open spec fn as_prefill(dir: Seq<char>) -> Seq<char> {
    if dir.len() > 0 && dir.last() == '/' {
        dir
    } else {
        dir.push('/')
    }
}

impl Editor {
    /// Directory to base relative prompts on: the current buffer's file or
    /// dired directory, else the process's working directory.
    pub fn default_dir(&self) -> (r: String)
        requires
            wf(self@),
        ensures
            r@ == dir_of(self@),
    {
        let buf = self.cur_buffer();
        if let Some(SchemeVal::Str(s)) = buf.locals.get("dired-directory") {
            return copy(s.as_str());
        }
        if let Mode::Dired(d) = &buf.mode {
            return copy(d.dir.as_str());
        }
        if let Some(p) = &buf.path {
            if let Some(parent) = path_parent(p.as_str()) {
                return parent;
            }
        }
        copy(self.cwd.as_str())
    }

    /// The path that an entered path stands for.
    pub fn resolve_path(&self, input: &str) -> (r: String)
        requires
            wf(self@),
        ensures
            r@ == resolved(self@, input@),
    {
        let p = expand_home(input, &self.home);
        let rooted = {
            let v = to_chars(p.as_str());
            v.len() > 0 && v[0] == '/'
        };
        if rooted {
            p
        } else {
            let dir = self.default_dir();
            join(dir.as_str(), p.as_str())
        }
    }

    /// The default directory, with a `/` at its end.
    pub fn prefill(&self) -> (r: String)
        requires
            wf(self@),
        ensures
            r@ == as_prefill(dir_of(self@)),
    {
        let mut dir = self.default_dir();
        let v = to_chars(dir.as_str());
        if !(v.len() > 0 && v[v.len() - 1] == '/') {
            dir.push('/');
        }
        dir
    }
}

// ---- laws ------------------------------------------------------------------

/// A path that starts at the root stands for itself, whatever the buffer.
pub proof fn law_rooted_path_kept(e: EditorModel, input: Seq<char>)
    requires
        is_rooted(input),
    ensures
        resolved(e, input) == input,
{
    reveal_strlit("~/");
    if has_prefix(input, "~/"@) {
        assert(input.take(2)[0] == input[0]);
        assert("~/"@[0] == '~');
    }
}

/// A relative path is below the default directory.
pub proof fn law_relative_path_joined(e: EditorModel, input: Seq<char>)
    requires
        !is_rooted(input),
        !has_prefix(input, "~/"@),
    ensures
        resolved(e, input) == joined(dir_of(e), input),
{
}

} // verus!
