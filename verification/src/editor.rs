//! The editor: single owner of all native state.

use crate::assoc::Assoc;
use crate::buffer::{fresh, Buffer, BufferId, BufferModel};
use crate::faces::{no_faces, Faces, FacesModel};
use crate::input::{ActionModel, InputMode, InputModel, PostAction, PrefixArg};
use crate::keymap::{no_bindings, Keymap, Meaning};
use crate::keys::Chord;
use crate::killring::{KillRing, RingModel};
use crate::lines::clip;
use crate::native::NativeCmd;
use crate::seqs::models;
use crate::strings::{copy, opt_view};
use crate::treesit::{LanguageModel, TreesitLanguage};
use crate::value::{opt_val, SchemeVal, ValModel};
use crate::window::{
    index_from, leaf, lemma_index_from, lemma_leaf, lemma_with_leaf, lemma_with_leaf_twice,
    selected_window, tree_wf, with_selected, Node, Window, WindowId, WindowTree,
};
use vstd::prelude::*;

verus! {

/// Most candidate rows the minibuffer list may occupy.
pub const MAX_COMPLETION_ROWS: usize = 6;

/// What a command runs.
#[derive(Debug)]
pub enum CommandFn {
    Native(NativeCmd),
    Scheme(SchemeVal),
}

/// What a command runs.
pub enum FnModel {
    Native(NativeCmd),
    Scheme(ValModel),
}

impl View for CommandFn {
    type V = FnModel;

    open spec fn view(&self) -> FnModel {
        match self {
            CommandFn::Native(c) => FnModel::Native(*c),
            CommandFn::Scheme(f) => FnModel::Scheme(f@),
        }
    }
}

/// A command of the registry.
#[derive(Debug)]
pub struct Command {
    pub doc: String,
    pub f: CommandFn,
}

/// What a command of the registry holds.
pub struct CommandModel {
    pub doc: Seq<char>,
    pub f: FnModel,
}

impl View for Command {
    type V = CommandModel;

    open spec fn view(&self) -> CommandModel {
        CommandModel { doc: self.doc@, f: self.f@ }
    }
}

/// A live background process. Its pipes and its child stay with the caller.
#[derive(Debug)]
pub struct ProcessHandle {
    pub id: u64,
    pub name: String,
    pub buffer: BufferId,
    pub on_output: Option<SchemeVal>,
    pub on_exit: Option<SchemeVal>,
    /// Both pipe readers hung up.
    pub streams_closed: bool,
    /// The process was killed: output still in flight is dropped.
    pub discard_output: bool,
}

/// What a live background process holds.
#[verifier::ext_equal]
pub struct ProcessModel {
    pub id: u64,
    pub name: Seq<char>,
    pub buffer: usize,
    pub on_output: Option<ValModel>,
    pub on_exit: Option<ValModel>,
    pub streams_closed: bool,
    pub discard_output: bool,
}

impl View for ProcessHandle {
    type V = ProcessModel;

    open spec fn view(&self) -> ProcessModel {
        ProcessModel {
            id: self.id,
            name: self.name@,
            buffer: self.buffer,
            on_output: opt_val(self.on_output),
            on_exit: opt_val(self.on_exit),
            streams_closed: self.streams_closed,
            discard_output: self.discard_output,
        }
    }
}

pub struct Editor {
    /// The live buffers, in the order in which they were made.
    pub buffers: Vec<Buffer>,
    pub next_buffer_id: BufferId,
    /// Most-recently-used buffer ids, front = current.
    pub recency: Vec<BufferId>,
    pub windows: WindowTree,
    pub kill_ring: KillRing,
    pub registry: Assoc<Command>,
    pub global_map: Keymap,
    /// Named buffer-local keymaps, selected per buffer.
    pub keymaps: Assoc<Keymap>,
    pub dired_map: Keymap,
    pub wgrep_map: Keymap,
    /// Consulted (single chords only) before the built-in prompt editing.
    pub minibuffer_map: Keymap,
    pub pending: Vec<Chord>,
    /// Actions produced while the extension language runs; the main loop
    /// drains this queue afterwards.
    pub deferred: Vec<PostAction>,
    pub prefix: PrefixArg,
    pub input: InputMode,
    pub echo: Option<String>,
    pub quit: bool,
    pub last_command: Option<String>,
    pub this_command: Option<String>,
    /// Goal column for consecutive C-n/C-p.
    pub goal_col: Option<usize>,
    /// Rectangle-mark-mode is active (anchor = buffer mark).
    pub rect_mode: bool,
    /// Draw a line-number gutter.
    pub show_line_numbers: bool,
    pub faces: Faces,
    /// Installed tree-sitter grammars, by name.
    pub treesit_languages: Assoc<TreesitLanguage>,
    /// A real file was just visited.
    pub file_visited: bool,
    pub term_size: (u16, u16),
    /// Region inserted by the last yank, for M-y replacement.
    pub last_yank: Option<(usize, usize)>,
    /// Live left-button drag: window it started in and the anchor point there.
    pub mouse_drag: Option<(WindowId, usize)>,
    pub processes: Vec<ProcessHandle>,
    pub next_process_id: u64,
    /// The closure to call (with a path string) to visit a directory.
    pub directory_opener: Option<SchemeVal>,
    /// The working directory of the process.
    pub cwd: String,
    /// The home directory of the user.
    pub home: Option<String>,
}

/// What the editor holds.
#[verifier::ext_equal]
pub struct EditorModel {
    pub buffers: Seq<BufferModel>,
    pub next_buffer_id: usize,
    pub recency: Seq<usize>,
    pub windows: WindowTree,
    pub kill_ring: RingModel,
    pub registry: Seq<(Seq<char>, CommandModel)>,
    pub global_map: Map<Seq<Chord>, Meaning>,
    pub keymaps: Seq<(Seq<char>, Map<Seq<Chord>, Meaning>)>,
    pub dired_map: Map<Seq<Chord>, Meaning>,
    pub wgrep_map: Map<Seq<Chord>, Meaning>,
    pub minibuffer_map: Map<Seq<Chord>, Meaning>,
    pub pending: Seq<Chord>,
    pub deferred: Seq<ActionModel>,
    pub prefix: PrefixArg,
    pub input: InputModel,
    pub echo: Option<Seq<char>>,
    pub quit: bool,
    pub last_command: Option<Seq<char>>,
    pub this_command: Option<Seq<char>>,
    pub goal_col: Option<usize>,
    pub rect_mode: bool,
    pub show_line_numbers: bool,
    pub faces: FacesModel,
    pub treesit_languages: Seq<(Seq<char>, LanguageModel)>,
    pub file_visited: bool,
    pub term_size: (u16, u16),
    pub last_yank: Option<(usize, usize)>,
    pub mouse_drag: Option<(usize, usize)>,
    pub processes: Seq<ProcessModel>,
    pub next_process_id: u64,
    pub directory_opener: Option<ValModel>,
    pub cwd: Seq<char>,
    pub home: Option<Seq<char>>,
}

impl View for Editor {
    type V = EditorModel;

    open spec fn view(&self) -> EditorModel {
        EditorModel {
            buffers: models(self.buffers@),
            next_buffer_id: self.next_buffer_id,
            recency: self.recency@,
            windows: self.windows,
            kill_ring: self.kill_ring@,
            registry: self.registry@,
            global_map: self.global_map@,
            keymaps: self.keymaps@,
            dired_map: self.dired_map@,
            wgrep_map: self.wgrep_map@,
            minibuffer_map: self.minibuffer_map@,
            pending: self.pending@,
            deferred: models(self.deferred@),
            prefix: self.prefix,
            input: self.input@,
            echo: opt_view(self.echo),
            quit: self.quit,
            last_command: opt_view(self.last_command),
            this_command: opt_view(self.this_command),
            goal_col: self.goal_col,
            rect_mode: self.rect_mode,
            show_line_numbers: self.show_line_numbers,
            faces: self.faces@,
            treesit_languages: self.treesit_languages@,
            file_visited: self.file_visited,
            term_size: self.term_size,
            last_yank: self.last_yank,
            mouse_drag: self.mouse_drag,
            processes: models(self.processes@),
            next_process_id: self.next_process_id,
            directory_opener: opt_val(self.directory_opener),
            cwd: self.cwd@,
            home: opt_view(self.home),
        }
    }
}

// ---- buffers and windows of the model --------------------------------------

/// The ids of the buffers.
pub open spec fn buf_ids(bs: Seq<BufferModel>) -> Seq<usize> {
    Seq::new(bs.len(), |i: int| bs[i].id)
}

/// The index of the buffer with this id; past the end if there is none.
pub open spec fn buf_index(bs: Seq<BufferModel>, id: usize) -> int {
    index_from(buf_ids(bs), id, 0)
}

/// Whether there is a buffer with this id.
pub open spec fn has_buffer(bs: Seq<BufferModel>, id: usize) -> bool {
    buf_ids(bs).contains(id)
}

/// The editor is in order: the window tree is, buffer ids are distinct and
/// all given out before, every window shows a live buffer, and the recency
/// list holds each live buffer once.
#[verifier::opaque]
pub open spec fn wf(e: EditorModel) -> bool {
    &&& tree_wf(e.windows)
    &&& buf_ids(e.buffers).no_duplicates()
    &&& forall|i: int|
        0 <= i < e.buffers.len() ==> (#[trigger] e.buffers[i]).id < e.next_buffer_id
    &&& forall|w: WindowId|
        (#[trigger] leaf(e.windows.root, w)) is Some ==> has_buffer(
            e.buffers,
            leaf(e.windows.root, w)->0.buffer,
        )
    &&& e.recency.no_duplicates()
    &&& forall|id: usize| #[trigger] e.recency.contains(id) <==> has_buffer(e.buffers, id)
}

/// The selected window.
pub open spec fn cur_win(e: EditorModel) -> Window {
    selected_window(e.windows)
}

/// The index of the buffer in the selected window.
pub open spec fn cur_index(e: EditorModel) -> int {
    buf_index(e.buffers, cur_win(e).buffer)
}

/// The buffer in the selected window.
pub open spec fn cur_buf(e: EditorModel) -> BufferModel {
    e.buffers[cur_index(e)]
}

/// Point of the selected window, clamped to its buffer: another window may
/// have shrunk the shared buffer.
pub open spec fn cur_point(e: EditorModel) -> int {
    clip(cur_buf(e).text, cur_win(e).point as int)
}

/// The editor with the selected window and its buffer replaced.
pub open spec fn put(e: EditorModel, w: Window, b: BufferModel) -> EditorModel {
    EditorModel {
        windows: with_selected(e.windows, w),
        buffers: e.buffers.update(cur_index(e), b),
        ..e
    }
}

/// The selected window with another point.
pub open spec fn at_point(e: EditorModel, p: int) -> Window {
    Window { point: p as usize, ..cur_win(e) }
}

/// The editor with another point in the selected window and another buffer
/// text (or mark, or mode) under it.
pub open spec fn edit_cur(e: EditorModel, p: int, b: BufferModel) -> EditorModel {
    put(e, at_point(e, p), b)
}

/// The editor with point moved.
pub open spec fn moved(e: EditorModel, p: int) -> EditorModel {
    edit_cur(e, p, cur_buf(e))
}

/// The editor with point clamped to the buffer.
pub open spec fn clamped(e: EditorModel) -> EditorModel {
    moved(e, cur_point(e))
}

/// The editor with the buffer of the selected window replaced.
pub open spec fn with_buf(e: EditorModel, b: BufferModel) -> EditorModel {
    EditorModel { buffers: e.buffers.update(cur_index(e), b), ..e }
}

/// The editor with a message in the echo area.
pub open spec fn said(e: EditorModel, msg: Seq<char>) -> EditorModel {
    EditorModel { echo: Some(msg), ..e }
}

/// A buffer is found exactly where its id is known.
pub proof fn lemma_buf_index(bs: Seq<BufferModel>, id: usize)
    ensures
        0 <= buf_index(bs, id) <= bs.len(),
        has_buffer(bs, id) == (buf_index(bs, id) < bs.len()),
        buf_index(bs, id) < bs.len() ==> bs[buf_index(bs, id)].id == id,
        forall|j: int| 0 <= j < buf_index(bs, id) ==> (#[trigger] bs[j]).id != id,
{
    let s = buf_ids(bs);
    lemma_index_from(s, id, 0);
    assert forall|j: int| 0 <= j < buf_index(bs, id) implies (#[trigger] bs[j]).id != id by {
        assert(s[j] == bs[j].id);
    }
    if s.contains(id) {
        let k = s.index_of(id);
        assert(s[k] == id);
    }
    if buf_index(bs, id) < bs.len() {
        assert(s[buf_index(bs, id)] == id);
    }
}

/// The selected window and its buffer exist.
pub proof fn lemma_cur(e: EditorModel)
    requires
        wf(e),
    ensures
        0 <= cur_index(e) < e.buffers.len(),
        cur_buf(e).id == cur_win(e).buffer,
        cur_win(e).id == e.windows.selected,
        leaf(e.windows.root, e.windows.selected) == Some(cur_win(e)),
        has_buffer(e.buffers, cur_win(e).buffer),
{
    reveal(wf);
    lemma_leaf(e.windows.root, e.windows.selected);
    lemma_buf_index(e.buffers, cur_win(e).buffer);
}

/// Replacing the selected window and its buffer, ids kept, keeps the editor in
/// order, and the replacements are then the selected window and its buffer.
pub proof fn lemma_put(e: EditorModel, w: Window, b: BufferModel)
    requires
        wf(e),
        w.id == cur_win(e).id,
        w.buffer == cur_win(e).buffer,
        b.id == cur_buf(e).id,
    ensures
        wf(put(e, w, b)),
        cur_win(put(e, w, b)) == w,
        cur_buf(put(e, w, b)) == b,
        cur_index(put(e, w, b)) == cur_index(e),
{
    reveal(wf);
    lemma_cur(e);
    let r = put(e, w, b);
    lemma_with_leaf(e.windows.root, e.windows.selected, w);
    assert(buf_ids(r.buffers) =~= buf_ids(e.buffers));
    assert(leaf(r.windows.root, r.windows.selected) == Some(w));
    assert forall|x: WindowId| (#[trigger] leaf(r.windows.root, x)) is Some implies has_buffer(
        r.buffers,
        leaf(r.windows.root, x)->0.buffer,
    ) by {
        if x != e.windows.selected {
            assert(leaf(r.windows.root, x) == leaf(e.windows.root, x));
        }
    }
}

/// Replacing twice is replacing once.
pub proof fn lemma_put_twice(e: EditorModel, v: Window, a: BufferModel, w: Window, b: BufferModel)
    requires
        wf(e),
        v.id == cur_win(e).id,
        v.buffer == cur_win(e).buffer,
        a.id == cur_buf(e).id,
    ensures
        put(put(e, v, a), w, b) == put(e, w, b),
{
    lemma_put(e, v, a);
    lemma_cur(e);
    lemma_with_leaf_twice(e.windows.root, e.windows.selected, v, w);
    assert(put(put(e, v, a), w, b) =~= put(e, w, b));
}

/// Replacing the current buffer, id kept, keeps the editor in order.
pub proof fn lemma_with_buf(e: EditorModel, b: BufferModel)
    requires
        wf(e),
        b.id == cur_buf(e).id,
    ensures
        wf(with_buf(e, b)),
        cur_win(with_buf(e, b)) == cur_win(e),
        cur_buf(with_buf(e, b)) == b,
        cur_index(with_buf(e, b)) == cur_index(e),
        with_buf(e, b) == put(e, cur_win(e), b),
{
    lemma_cur(e);
    lemma_put(e, cur_win(e), b);
    crate::window::lemma_with_leaf_same(e.windows.root, e.windows.selected);
    assert(with_buf(e, b) =~= put(e, cur_win(e), b));
}

/// What changes neither buffers, windows nor recency keeps the editor in
/// order.
pub proof fn lemma_wf_same(a: EditorModel, b: EditorModel)
    requires
        wf(a),
        b.buffers == a.buffers,
        b.windows == a.windows,
        b.recency == a.recency,
        b.next_buffer_id == a.next_buffer_id,
    ensures
        wf(b),
{
    reveal(wf);
}

// ---- basic operations ------------------------------------------------------

/// The editor as it starts: an empty `*scratch*` buffer in one window.
pub open spec fn initial() -> EditorModel {
    EditorModel {
        buffers: seq![fresh(0, "*scratch*"@, ""@)],
        next_buffer_id: 1,
        recency: seq![0usize],
        windows: WindowTree {
            root: Node::Leaf(Window { id: 0, buffer: 0, point: 0, top_line: 0 }),
            selected: 0,
            next_id: 1,
        },
        kill_ring: RingModel { entries: Seq::empty(), turned: 0 },
        registry: Seq::empty(),
        global_map: no_bindings(),
        keymaps: Seq::empty(),
        dired_map: no_bindings(),
        wgrep_map: no_bindings(),
        minibuffer_map: no_bindings(),
        pending: Seq::empty(),
        deferred: Seq::empty(),
        prefix: PrefixArg::Unset,
        input: InputModel::Normal,
        echo: None,
        quit: false,
        last_command: None,
        this_command: None,
        goal_col: None,
        rect_mode: false,
        show_line_numbers: false,
        faces: no_faces(),
        treesit_languages: Seq::empty(),
        file_visited: false,
        term_size: (80, 24),
        last_yank: None,
        mouse_drag: None,
        processes: Seq::empty(),
        next_process_id: 1,
        directory_opener: None,
        cwd: "."@,
        home: None,
    }
}

impl Editor {
    pub fn new() -> (ed: Self)
        ensures
            ed@ == initial(),
            wf(ed@),
    {
        let mut buffers: Vec<Buffer> = Vec::new();
        buffers.push(Buffer::new(0, "*scratch*", ""));
        let mut recency: Vec<BufferId> = Vec::new();
        recency.push(0);
        let ed = Editor {
            buffers,
            next_buffer_id: 1,
            recency,
            windows: WindowTree::new(0),
            kill_ring: KillRing::default(),
            registry: Assoc::new(),
            global_map: Keymap::default(),
            keymaps: Assoc::new(),
            dired_map: Keymap::default(),
            wgrep_map: Keymap::default(),
            minibuffer_map: Keymap::default(),
            pending: Vec::new(),
            deferred: Vec::new(),
            prefix: PrefixArg::Unset,
            input: InputMode::Normal,
            echo: None,
            quit: false,
            last_command: None,
            this_command: None,
            goal_col: None,
            rect_mode: false,
            show_line_numbers: false,
            faces: Faces::default(),
            treesit_languages: Assoc::new(),
            file_visited: false,
            term_size: (80, 24),
            last_yank: None,
            mouse_drag: None,
            processes: Vec::new(),
            next_process_id: 1,
            directory_opener: None,
            cwd: copy("."),
            home: None,
        };
        assert(ed@ =~= initial());
        proof {
            reveal(wf);
            assert(buf_ids(ed@.buffers)[0] == 0);
            assert(ed@.recency[0] == 0);
        }
        ed
    }

    /// The index of the buffer with this id.
    pub fn buffer_index(&self, id: BufferId) -> (r: Option<usize>)
        ensures
            match r {
                Some(i) => i < self@.buffers.len() && i == buf_index(self@.buffers, id),
                None => !has_buffer(self@.buffers, id),
            },
    {
        let ghost s = buf_ids(self@.buffers);
        let mut i: usize = 0;
        while i < self.buffers.len()
            invariant
                i <= self.buffers@.len(),
                s == buf_ids(self@.buffers),
                index_from(s, id, 0) == index_from(s, id, i as int),
            decreases self.buffers@.len() - i,
        {
            assert(s[i as int] == self.buffers@[i as int]@.id);
            if self.buffers[i].id == id {
                return Some(i);
            }
            i = i + 1;
        }
        proof {
            lemma_buf_index(self@.buffers, id);
        }
        None
    }

    fn current(&self) -> (i: usize)
        requires
            wf(self@),
        ensures
            i == cur_index(self@),
            i < self.buffers@.len(),
    {
        proof {
            lemma_cur(self@);
            lemma_buf_index(self@.buffers, cur_win(self@).buffer);
        }
        let id: BufferId = self.windows.selected_ref().buffer;
        self.buffer_index(id).unwrap()
    }

    /// Selected window and its buffer, borrowed together. Point is clamped,
    /// since another window may have shrunk the shared buffer.
    pub fn cur(&mut self) -> (r: (&mut Window, &mut Buffer))
        requires
            wf(old(self)@),
        ensures
            *r.0 == at_point(old(self)@, cur_point(old(self)@)),
            r.1@ == cur_buf(old(self)@),
            r.0.point <= r.1@.text.len(),
            final(self)@ == put(old(self)@, *final(r.0), final(r.1)@),
            final(r.0).id == r.0.id && final(r.0).buffer == r.0.buffer && final(r.1)@.id == r.1@.id
                ==> wf(put(old(self)@, *final(r.0), final(r.1)@)),
    {
        proof {
            lemma_cur(self@);
        }
        let ghost before = self@;
        let i: usize = self.current();
        let win = self.windows.selected_mut();
        let buf = &mut self.buffers[i];
        let n: usize = buf.len_chars();
        if win.point > n {
            win.point = n;
        }
        proof {
            assert forall|w: Window, b: BufferModel|
                w.id == cur_win(before).id && w.buffer == cur_win(before).buffer && b.id == cur_buf(
                    before,
                ).id implies wf(#[trigger] put(before, w, b)) by {
                lemma_put(before, w, b);
            }
        }
        (win, buf)
    }

    /// The buffer in the selected window.
    pub fn cur_buffer(&self) -> (b: &Buffer)
        requires
            wf(self@),
        ensures
            b@ == cur_buf(self@),
    {
        let i: usize = self.current();
        &self.buffers[i]
    }

    /// The buffer in the selected window, to be changed.
    pub fn cur_buffer_mut(&mut self) -> (b: &mut Buffer)
        requires
            wf(old(self)@),
        ensures
            b@ == cur_buf(old(self)@),
            final(self)@ == with_buf(old(self)@, final(b)@),
            final(b)@.id == b@.id ==> wf(with_buf(old(self)@, final(b)@)),
    {
        let ghost before = self@;
        let i: usize = self.current();
        let buf = &mut self.buffers[i];
        proof {
            assert forall|b: BufferModel| b.id == cur_buf(before).id implies wf(
                #[trigger] with_buf(before, b),
            ) by {
                lemma_with_buf(before, b);
            }
        }
        buf
    }

    /// Show a message in the echo area.
    pub fn message(&mut self, msg: &str)
        ensures
            final(self)@ == said(old(self)@, msg@),
            wf(old(self)@) ==> wf(final(self)@),
    {
        self.echo = Some(copy(msg));
        proof {
            if wf(old(self)@) {
                lemma_wf_same(old(self)@, self@);
            }
        }
    }
}

} // verus!
