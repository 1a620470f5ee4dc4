//! Text buffers: a rope plus file association, modification state, the mark,
//! the undo log and the major mode. All positions are char indices.
//!
//! `mode_name` is read for the mode-line string, `local_map` names the
//! buffer-local keymap (if any), and `locals` holds the extension language's
//! buffer-local variables.

use crate::assoc::Assoc;
use crate::dired::state::{DiredModel, DiredState};
use crate::lines::{
    clip, end_at, lemma_line_around, lemma_line_begin, lemma_line_ends, lemma_line_of_bound,
    line_begin, line_count, line_of, max, min, start_at,
};
use crate::rope::{rope_remove, rope_slice, rope_string, rope_text};
use crate::strings::{copy, opt_view};
use crate::treesit::{dirtied, named_spans, SyntaxModel, SyntaxState};
use crate::undo::{
    bounded, changed, changed_all, law_group_is_changes, law_replay_restores,
    lemma_recorded_no_boundary, lemma_replayable_prefix, lemma_replayed_len, newest_group,
    recorded, recorded_all, replayable, replayed, reverted_point, without_group, Change, Edit,
    UndoLog, UndoRecord,
};
use crate::value::{SchemeVal, ValModel};
use ropey::Rope;
use vstd::prelude::*;

verus! {

pub type BufferId = usize;

/// The major mode of a buffer, as far as the native core knows it.
#[derive(Debug)]
pub enum Mode {
    Fundamental,
    Dired(DiredState),
}

/// What a major mode holds.
pub enum ModeModel {
    Fundamental,
    Dired(DiredModel),
}

impl View for Mode {
    type V = ModeModel;

    open spec fn view(&self) -> ModeModel {
        match self {
            Mode::Fundamental => ModeModel::Fundamental,
            Mode::Dired(d) => ModeModel::Dired(d@),
        }
    }
}

pub struct Buffer {
    pub id: BufferId,
    pub name: String,
    pub rope: Rope,
    pub path: Option<String>,
    pub modified: bool,
    pub read_only: bool,
    /// The mark (C-SPC). `mark_active` distinguishes a live region.
    pub mark: Option<usize>,
    pub mark_active: bool,
    /// Mode-line display name.
    pub mode_name: String,
    /// Name of this buffer's active keymap in the editor's keymaps, if any.
    pub local_map: Option<String>,
    /// Buffer-local storage of the extension language.
    pub locals: Assoc<SchemeVal>,
    /// Tree-sitter highlight state.
    pub syntax: Option<SyntaxState>,
    /// Color spans placed by the extension language: (char_start, char_end,
    /// face name). They do not shift with edits, and are dropped whenever
    /// `set_text` regenerates the content.
    pub face_spans: Vec<(usize, usize, String)>,
    pub undo: UndoLog,
    /// Point to restore when the buffer is next shown in a window.
    pub last_point: usize,
    pub mode: Mode,
}

/// What a buffer holds.
#[verifier::ext_equal]
pub struct BufferModel {
    pub id: usize,
    pub name: Seq<char>,
    pub text: Seq<char>,
    pub path: Option<Seq<char>>,
    pub modified: bool,
    pub read_only: bool,
    pub mark: Option<usize>,
    pub mark_active: bool,
    pub mode_name: Seq<char>,
    pub local_map: Option<Seq<char>>,
    pub locals: Seq<(Seq<char>, ValModel)>,
    pub syntax: Option<SyntaxModel>,
    pub face_spans: Seq<(int, int, Seq<char>)>,
    pub undo: Seq<Edit>,
    pub last_point: usize,
    pub mode: ModeModel,
}

impl View for Buffer {
    type V = BufferModel;

    open spec fn view(&self) -> BufferModel {
        BufferModel {
            id: self.id,
            name: self.name@,
            text: rope_text(self.rope),
            path: opt_view(self.path),
            modified: self.modified,
            read_only: self.read_only,
            mark: self.mark,
            mark_active: self.mark_active,
            mode_name: self.mode_name@,
            local_map: opt_view(self.local_map),
            locals: self.locals@,
            syntax: match self.syntax {
                Some(s) => Some(s@),
                None => None,
            },
            face_spans: named_spans(self.face_spans@),
            undo: self.undo@,
            last_point: self.last_point,
            mode: self.mode@,
        }
    }
}

/// A buffer as it is made: the given text, no file, no mark, nothing to undo.
pub open spec fn fresh(id: usize, name: Seq<char>, text: Seq<char>) -> BufferModel {
    BufferModel {
        id,
        name,
        text,
        path: None,
        modified: false,
        read_only: false,
        mark: None,
        mark_active: false,
        mode_name: "Fundamental"@,
        local_map: None,
        locals: Seq::empty(),
        syntax: None,
        face_spans: Seq::empty(),
        undo: Seq::empty(),
        last_point: 0,
        mode: ModeModel::Fundamental,
    }
}

/// A buffer after one recorded change of its text.
pub open spec fn edited(b: BufferModel, c: Change) -> BufferModel {
    BufferModel {
        text: changed(b.text, c),
        modified: true,
        mark_active: false,
        syntax: dirtied(b.syntax),
        undo: b.undo.push(recorded(b.text, c)),
        ..b
    }
}

/// A buffer after `text` is inserted at `at`; nothing happens for no text.
pub open spec fn inserted(b: BufferModel, at: int, text: Seq<char>) -> BufferModel {
    if text.len() == 0 {
        b
    } else {
        edited(b, Change::Insert { at: clip(b.text, at), text })
    }
}

/// A buffer after its chars from `start` to `end` are removed; nothing
/// happens where that range holds nothing of the text.
pub open spec fn removed(b: BufferModel, start: int, end: int) -> BufferModel {
    if start < clip(b.text, end) {
        edited(b, Change::Remove { from: start, to: clip(b.text, end) })
    } else {
        b
    }
}

/// The chars of `t` from `start` to `end`, as far as they lie in it.
pub open spec fn part(t: Seq<char>, start: int, end: int) -> Seq<char> {
    if start < clip(t, end) {
        t.subrange(start, clip(t, end))
    } else {
        Seq::empty()
    }
}

/// A buffer whose whole text is replaced by generated text.
pub open spec fn regenerated(b: BufferModel, text: Seq<char>) -> BufferModel {
    BufferModel {
        text,
        modified: false,
        face_spans: Seq::empty(),
        syntax: dirtied(b.syntax),
        ..b
    }
}

/// A buffer with generated text added at its end.
pub open spec fn appended(b: BufferModel, text: Seq<char>) -> BufferModel {
    if text.len() == 0 {
        b
    } else {
        BufferModel { text: b.text + text, syntax: dirtied(b.syntax), ..b }
    }
}

/// A buffer after its newest undo group is reverted; without a group only the
/// boundaries at the end of the log go.
pub open spec fn undone(b: BufferModel) -> BufferModel {
    let group = newest_group(b.undo);
    if group.len() == 0 {
        BufferModel { undo: without_group(b.undo), ..b }
    } else {
        BufferModel {
            text: replayed(b.text, group),
            modified: true,
            syntax: dirtied(b.syntax),
            undo: without_group(b.undo),
            ..b
        }
    }
}

/// Whether the newest undo group lies inside the text, record by record.
pub open spec fn can_undo(b: BufferModel) -> bool {
    replayable(b.text.len() as int, newest_group(b.undo))
}

/// The live region between mark and point, ordered.
pub open spec fn region_of(b: BufferModel, point: int) -> Option<(int, int)> {
    match b.mark {
        Some(m) => if b.mark_active {
            Some((min(m as int, point), max(m as int, point)))
        } else {
            None
        },
        None => None,
    }
}

impl Buffer {
    /// A buffer that holds `text`.
    pub fn new(id: BufferId, name: &str, text: &str) -> (b: Self)
        ensures
            b@ == fresh(id, name@, text@),
    {
        let b = Buffer {
            id,
            name: copy(name),
            rope: Rope::from_str(text),
            path: None,
            modified: false,
            read_only: false,
            mark: None,
            mark_active: false,
            mode_name: copy("Fundamental"),
            local_map: None,
            locals: Assoc::new(),
            syntax: None,
            face_spans: Vec::new(),
            undo: UndoLog::default(),
            last_point: 0,
            mode: Mode::Fundamental,
        };
        assert(b@ =~= fresh(id, name@, text@));
        b
    }

    pub fn len_chars(&self) -> (n: usize)
        ensures
            n == self@.text.len(),
    {
        self.rope.len_chars()
    }

    pub fn len_lines(&self) -> (n: usize)
        ensures
            n == line_count(self@.text),
            n >= 1,
    {
        proof {
            lemma_line_of_bound(self@.text, self@.text.len() as int);
        }
        self.rope.len_lines()
    }

    /// No incremental reparse: any edit just asks for a full rehighlight next
    /// time the buffer is drawn.
    fn mark_syntax_dirty(&mut self)
        ensures
            final(self)@ == (BufferModel { syntax: dirtied(old(self)@.syntax), ..old(self)@ }),
    {
        if let Some(s) = &mut self.syntax {
            s.mark_dirty();
        }
        assert(self@ =~= (BufferModel { syntax: dirtied(old(self)@.syntax), ..old(self)@ }));
    }

    /// Insert `text` at char index `at`, recording undo and clamping `at`.
    pub fn insert(&mut self, at: usize, text: &str)
        ensures
            final(self)@ == inserted(old(self)@, at as int, text@),
    {
        if text.is_empty() {
            return;
        }
        let n: usize = self.len_chars();
        let at: usize = if at < n {
            at
        } else {
            n
        };
        self.rope.insert(at, text);
        self.modified = true;
        self.mark_active = false;
        self.mark_syntax_dirty();
        let len: usize = text.unicode_len();
        self.undo.record(UndoRecord::Insert { at, len });
        assert(self@ =~= inserted(old(self)@, at as int, text@));
    }

    /// Remove chars in `[start, end)`, recording undo. Returns the removed
    /// text.
    pub fn remove(&mut self, start: usize, end: usize) -> (text: String)
        ensures
            final(self)@ == removed(old(self)@, start as int, end as int),
            text@ == part(old(self)@.text, start as int, end as int),
    {
        let n: usize = self.len_chars();
        let end: usize = if end < n {
            end
        } else {
            n
        };
        if start >= end {
            return String::new();
        }
        let text = rope_slice(&self.rope, start, end);
        rope_remove(&mut self.rope, start, end);
        self.modified = true;
        self.mark_active = false;
        self.mark_syntax_dirty();
        self.undo.record(UndoRecord::Delete { at: start, text: copy(text.as_str()) });
        assert(self@ =~= removed(old(self)@, start as int, end as int));
        text
    }

    /// Replace the whole buffer (a mode regenerating its listing): no undo
    /// entries, and `modified` becomes false since generated text is not
    /// user-authored.
    pub fn set_text(&mut self, text: &str)
        ensures
            final(self)@ == regenerated(old(self)@, text@),
    {
        self.rope = Rope::from_str(text);
        self.modified = false;
        self.face_spans = Vec::new();
        self.mark_syntax_dirty();
        assert(self@ =~= regenerated(old(self)@, text@));
    }

    /// Append generated text at end of buffer, the streaming counterpart of
    /// `set_text`: no undo entries, `modified` untouched, read-only ignored.
    /// Returns the char lengths before and after.
    pub fn append_generated(&mut self, text: &str) -> (r: (usize, usize))
        ensures
            final(self)@ == appended(old(self)@, text@),
            r.0 == old(self)@.text.len(),
            r.1 == final(self)@.text.len(),
    {
        let old_len: usize = self.len_chars();
        if text.is_empty() {
            return (old_len, old_len);
        }
        self.rope.insert(old_len, text);
        self.mark_syntax_dirty();
        assert(self@ =~= appended(old(self)@, text@));
        (old_len, self.len_chars())
    }

    /// Revert one undo group. Returns the char position to move point to, or
    /// None when there was nothing to undo.
    pub fn undo_group(&mut self) -> (point: Option<usize>)
        requires
            can_undo(old(self)@),
        ensures
            final(self)@ == undone(old(self)@),
            match point {
                Some(p) => newest_group(old(self)@.undo).len() > 0 && reverted_point(
                    newest_group(old(self)@.undo).last(),
                ) == Some(p as int),
                None => newest_group(old(self)@.undo).len() == 0,
            },
    {
        let ghost before = self@;
        let group = self.undo.pop_group();
        let ghost g = newest_group(before.undo);
        if group.len() == 0 {
            assert(g.len() == 0);
            assert(self@ =~= undone(before));
            return None;
        }
        let mut point: Option<usize> = None;
        let mut i: usize = 0;
        assert(g.take(0) =~= Seq::<Edit>::empty());
        while i < group.len()
            invariant
                i <= group@.len(),
                g == crate::undo::edits(group@),
                forall|k: int| 0 <= k < group@.len() ==> !(#[trigger] group@[k] is Boundary),
                replayable(before.text.len() as int, g),
                self@ == (BufferModel {
                    text: replayed(before.text, g.take(i as int)),
                    undo: without_group(before.undo),
                    ..before
                }),
                i == 0 ==> point is None,
                i > 0 ==> point is Some && reverted_point(g[i - 1]) == Some(point->0 as int),
            decreases group@.len() - i,
        {
            proof {
                lemma_replayable_prefix(before.text.len() as int, g, i + 1);
                lemma_replayable_prefix(before.text.len() as int, g, i as int);
                lemma_replayed_len(before.text, g.take(i as int));
                assert(g.take(i + 1).drop_last() =~= g.take(i as int));
                assert(g.take(i + 1).last() == g[i as int]);
                assert(g[i as int] == group@[i as int]@);
            }
            let ghost t0 = self@.text;
            match &group[i] {
                UndoRecord::Insert { at, len } => {
                    let n: usize = self.rope.len_chars();
                    let end: usize = if *len <= n - *at {
                        *at + *len
                    } else {
                        n
                    };
                    rope_remove(&mut self.rope, *at, end);
                    assert(self@.text =~= crate::undo::reverted(t0, g[i as int]));
                    point = Some(*at);
                },
                UndoRecord::Delete { at, text } => {
                    self.rope.insert(*at, text.as_str());
                    let n: usize = self.rope.len_chars();
                    let len: usize = text.as_str().unicode_len();
                    assert(self@.text =~= crate::undo::reverted(t0, g[i as int]));
                    assert(*at + len <= n);
                    point = Some(*at + len);
                },
                UndoRecord::Boundary => {},
            }
            i = i + 1;
        }
        assert(g.take(g.len() as int) =~= g);
        self.modified = true;
        self.mark_syntax_dirty();
        assert(self@ =~= undone(before));
        point
    }

    /// Char index of the first char of the line containing `pos`.
    pub fn line_start(&self, pos: usize) -> (r: usize)
        ensures
            r == start_at(self@.text, clip(self@.text, pos as int)),
            r <= self@.text.len(),
            r <= pos,
    {
        let line: usize = self.char_to_line(pos);
        proof {
            lemma_line_around(self@.text, clip(self@.text, pos as int));
        }
        self.rope.line_to_char(line)
    }

    /// Char index just before the newline of the line containing `pos` (or
    /// end of buffer on the last line).
    pub fn line_end(&self, pos: usize) -> (r: usize)
        ensures
            r == end_at(self@.text, clip(self@.text, pos as int)),
            r <= self@.text.len(),
            r >= clip(self@.text, pos as int),
    {
        let ghost t = self@.text;
        let ghost p = clip(t, pos as int);
        let line: usize = self.char_to_line(pos);
        proof {
            lemma_line_around(t, p);
            lemma_line_ends(t, p);
            lemma_line_begin(t, line as int);
        }
        let count: usize = self.rope.len_lines();
        let start: usize = self.rope.line_to_char(line);
        let end: usize = self.rope.line_to_char(line + 1);
        if end > start && self.rope.char(end - 1) == '\n' {
            end - 1
        } else {
            end
        }
    }

    /// The line of a position, clamped to the text.
    pub fn char_to_line(&self, pos: usize) -> (r: usize)
        ensures
            r == line_of(self@.text, clip(self@.text, pos as int)),
            r < line_count(self@.text),
    {
        let n: usize = self.len_chars();
        proof {
            lemma_line_around(self@.text, clip(self@.text, pos as int));
        }
        self.rope.char_to_line(if pos < n {
            pos
        } else {
            n
        })
    }

    /// The start of a line; past the last line, the start of the last one.
    pub fn line_to_char(&self, line: usize) -> (r: usize)
        ensures
            r == line_begin(self@.text, min(line as int, line_count(self@.text) - 1)),
            r <= self@.text.len(),
    {
        let count: usize = self.len_lines();
        let line: usize = if line < count - 1 {
            line
        } else {
            count - 1
        };
        proof {
            lemma_line_begin(self@.text, line as int);
        }
        self.rope.line_to_char(line)
    }

    /// Live region between mark and point, ordered.
    pub fn region(&self, point: usize) -> (r: Option<(usize, usize)>)
        ensures
            match r {
                Some((a, b)) => region_of(self@, point as int) == Some((a as int, b as int)) && a
                    <= point <= b,
                None => region_of(self@, point as int) is None,
            },
    {
        if !self.mark_active {
            return None;
        }
        match self.mark {
            Some(mark) => if mark <= point {
                Some((mark, point))
            } else {
                Some((point, mark))
            },
            None => None,
        }
    }

    /// The whole text.
    pub fn to_string_lossless(&self) -> (s: String)
        ensures
            s@ == self@.text,
    {
        rope_string(&self.rope)
    }
}

// ---- laws ------------------------------------------------------------------

/// A buffer after a list of recorded changes.
pub open spec fn edited_all(b: BufferModel, cs: Seq<Change>) -> BufferModel
    decreases cs.len(),
{
    if cs.len() == 0 {
        b
    } else {
        edited(edited_all(b, cs.drop_last()), cs.last())
    }
}

proof fn lemma_edited_all(b: BufferModel, cs: Seq<Change>)
    ensures
        edited_all(b, cs).text == changed_all(b.text, cs),
        edited_all(b, cs).undo == b.undo + recorded_all(b.text, cs),
    decreases cs.len(),
{
    if cs.len() > 0 {
        lemma_edited_all(b, cs.drop_last());
        assert(edited_all(b, cs).undo =~= b.undo + recorded_all(b.text, cs));
    } else {
        assert(b.undo + recorded_all(b.text, cs) =~= b.undo);
    }
}

/// One undo takes back a whole command: after a boundary and any insertions
/// and deletions, undoing a group can be done, gives back the text from before
/// the command, and leaves the log as it was before it.
pub proof fn law_undo_restores(b: BufferModel, cs: Seq<Change>)
    requires
        cs.len() > 0,
        crate::undo::all_in_text(b.text, cs),
    ensures
        ({
            let start = BufferModel { undo: bounded(b.undo), ..b };
            let end = edited_all(start, cs);
            &&& can_undo(end)
            &&& undone(end).text == b.text
            &&& undone(end).undo == bounded(b.undo)
        }),
{
    let start = BufferModel { undo: bounded(b.undo), ..b };
    lemma_edited_all(start, cs);
    lemma_recorded_no_boundary(b.text, cs);
    law_replay_restores(b.text, cs);
    law_group_is_changes(bounded(b.undo), recorded_all(b.text, cs));
}

/// Inserting text and removing the same range gives back the text.
pub proof fn law_insert_then_remove(b: BufferModel, at: int, text: Seq<char>)
    requires
        0 <= at <= b.text.len(),
    ensures
        removed(inserted(b, at, text), at, at + text.len()).text == b.text,
        part(inserted(b, at, text).text, at, at + text.len()) == text,
{
    assert(removed(inserted(b, at, text), at, at + text.len()).text =~= b.text);
    assert(part(inserted(b, at, text).text, at, at + text.len()) =~= text);
}

/// Removing a range and inserting what was removed gives back the text.
pub proof fn law_remove_then_insert(b: BufferModel, start: int, end: int)
    requires
        0 <= start <= b.text.len(),
    ensures
        inserted(removed(b, start, end), start, part(b.text, start, end)).text == b.text,
{
    assert(inserted(removed(b, start, end), start, part(b.text, start, end)).text =~= b.text);
}

} // verus!
