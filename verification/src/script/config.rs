//! Options, faces, key bindings, commands and major modes.

use crate::assoc::{lookup, with_key, Assoc};
use crate::buffer::BufferModel;
use crate::commands::run::{native_done, native_ok, run_native};
use crate::dispatch::boundary_set;
use crate::editor::{
    cur_buf, cur_win, lemma_cur, lemma_wf_same, said, wf, with_buf, Command, CommandFn, CommandModel,
    Editor, EditorModel, FnModel,
};
use crate::faces::{color_of, FaceColor, FacesModel};
use crate::input::PostAction;
use crate::keymap::{bound, no_bindings, Keymap, Meaning};
use crate::keys::{parse_seq, read_chords, Chord};
use crate::native::NativeCmd;
use crate::script::text::{int_of, to_int};
use crate::strings::{
    cat2, cat3, copy, lower, no_text, opt_view, quote, quoted, same, views, words,
};
use crate::treesit::{
    char_range, config_for, picked_at, state_model, unhighlighted, LanguageModel, SyntaxModel,
    SyntaxState, TreesitLanguage,
};
use crate::value::{SchemeVal, ValModel};
use vstd::prelude::*;

verus! {

// ---- options and faces -----------------------------------------------------

/// The truth that a value stands for: that of a boolean, or whether a number is
/// not 0.
pub open spec fn truth(v: ValModel) -> Option<bool> {
    match v {
        ValModel::Bool(b) => Some(b),
        ValModel::Int(i) => Some(i != 0),
        _ => None,
    }
}

/// The editor after an option is set.
pub open spec fn option_set(e: EditorModel, name: Seq<char>, value: ValModel) -> EditorModel {
    if name == "display-line-numbers"@ {
        match truth(value) {
            Some(b) => EditorModel { show_line_numbers: b, ..e },
            None => said(e, "set-option: display-line-numbers takes a boolean"@),
        }
    } else {
        said(e, "set-option: unknown option "@ + quoted(name))
    }
}

/// Set an option of the editor.
pub fn set_option(ed: &mut Editor, name: &str, value: &SchemeVal)
    requires
        wf(old(ed)@),
    ensures
        final(ed)@ == option_set(old(ed)@, name@, value@),
        wf(final(ed)@),
{
    let ghost e = ed@;
    let as_bool = match value {
        SchemeVal::Bool(b) => Some(*b),
        SchemeVal::Int(i) => Some(*i != 0),
        _ => None,
    };
    if same(name, "display-line-numbers") {
        match as_bool {
            Some(b) => {
                ed.show_line_numbers = b;
                proof {
                    lemma_wf_same(e, ed@);
                }
            },
            None => ed.message("set-option: display-line-numbers takes a boolean"),
        }
    } else {
        let q = quote(name);
        ed.message(cat2("set-option: unknown option ", q.as_str()).as_str());
    }
}

/// The value of an option; false for an unknown one.
pub fn get_option(ed: &Editor, name: &str) -> (b: bool)
    ensures
        b == (name@ == "display-line-numbers"@ && ed@.show_line_numbers),
{
    same(name, "display-line-numbers") && ed.show_line_numbers
}

/// The faces with one of them colored: the four of the editor by name, and any
/// other name as a highlight name.
pub open spec fn face_colored(f: FacesModel, face: Seq<char>, c: FaceColor) -> FacesModel {
    if face == "mode-line"@ {
        FacesModel { mode_line: Some(c), ..f }
    } else if face == "highlight"@ {
        FacesModel { highlight: Some(c), ..f }
    } else if face == "line-number"@ {
        FacesModel { line_number: Some(c), ..f }
    } else if face == "line-number-current-line"@ {
        FacesModel { line_number_current: Some(c), ..f }
    } else {
        FacesModel { syntax: with_key(f.syntax, face, c), ..f }
    }
}

/// The editor after a face is colored.
pub open spec fn face_set(e: EditorModel, face: Seq<char>, color: Seq<char>) -> EditorModel {
    match color_of(color.map_values(|c: char| lower(c))) {
        Some(c) => EditorModel { faces: face_colored(e.faces, face, c), ..e },
        None => said(e, "set-face-color: unknown color "@ + quoted(color)),
    }
}

/// Color a face.
pub fn set_face_color(ed: &mut Editor, face: &str, color: &str)
    requires
        wf(old(ed)@),
    ensures
        final(ed)@ == face_set(old(ed)@, face@, color@),
        wf(final(ed)@),
{
    let ghost e = ed@;
    let c = match FaceColor::parse(color) {
        Some(c) => c,
        None => {
            let q = quote(color);
            ed.message(cat2("set-face-color: unknown color ", q.as_str()).as_str());
            return ;
        },
    };
    if same(face, "mode-line") {
        ed.faces.mode_line = Some(c);
    } else if same(face, "highlight") {
        ed.faces.highlight = Some(c);
    } else if same(face, "line-number") {
        ed.faces.line_number = Some(c);
    } else if same(face, "line-number-current-line") {
        ed.faces.line_number_current = Some(c);
    } else {
        ed.faces.syntax.insert(copy(face), c);
    }
    proof {
        assert(ed@ =~= face_set(e, face@, color@));
        lemma_wf_same(e, ed@);
    }
}

// ---- keys ------------------------------------------------------------------

/// The keymap of a name; an empty one for a new name.
pub open spec fn map_named(
    maps: Seq<(Seq<char>, Map<Seq<Chord>, Meaning>)>,
    name: Seq<char>,
) -> Map<Seq<Chord>, Meaning> {
    match lookup(maps, name) {
        Some(m) => m,
        None => no_bindings(),
    }
}

/// The editor after a key sequence is bound, in the global map or in a named
/// one, which is made if it is new.
pub open spec fn key_bound(
    e: EditorModel,
    map: Option<Seq<char>>,
    seq: Seq<char>,
    cmd: Seq<char>,
) -> EditorModel {
    match read_chords(words(seq)) {
        None => said(e, "set-key: cannot parse key sequence "@ + quoted(seq)),
        Some(chords) => if chords.len() == 0 {
            said(e, "set-key: empty key sequence "@ + quoted(seq))
        } else {
            match map {
                None => EditorModel { global_map: bound(e.global_map, chords, cmd), ..e },
                Some(name) => EditorModel {
                    keymaps: with_key(
                        e.keymaps,
                        name,
                        bound(map_named(e.keymaps, name), chords, cmd),
                    ),
                    ..e
                },
            }
        },
    }
}

fn bind_named(maps: &mut Assoc<Keymap>, name: String, chords: &Vec<Chord>, cmd: &str)
    requires
        chords@.len() > 0,
    ensures
        final(maps)@ == with_key(
            old(maps)@,
            name@,
            bound(map_named(old(maps)@, name@), chords@, cmd@),
        ),
{
    match maps.position(name.as_str()) {
        Some(i) => {
            assert(maps@[i as int] == (maps.items@[i as int].0@, maps.items@[i as int].1@));
            proof {
                crate::assoc::lemma_find_key(maps@, name@, 0);
            }
            maps.items[i].1.bind(chords.as_slice(), cmd);
            assert(maps@ =~= with_key(
                old(maps)@,
                name@,
                bound(map_named(old(maps)@, name@), chords@, cmd@),
            ));
        },
        None => {
            let mut map = Keymap::default();
            map.bind(chords.as_slice(), cmd);
            maps.insert(name, map);
        },
    }
}

/// Bind a key sequence: no map means the global one; a name means a named map
/// that buffers can use, made if it is new.
pub fn bind_in(ed: &mut Editor, map: Option<String>, seq: &str, cmd: &str)
    requires
        wf(old(ed)@),
    ensures
        final(ed)@ == key_bound(old(ed)@, opt_view(map), seq@, cmd@),
        wf(final(ed)@),
{
    let ghost e = ed@;
    let ghost m = opt_view(map);
    let chords = match parse_seq(seq) {
        Some(v) => v,
        None => {
            let q = quote(seq);
            ed.message(cat2("set-key: cannot parse key sequence ", q.as_str()).as_str());
            return ;
        },
    };
    if chords.len() == 0 {
        let q = quote(seq);
        ed.message(cat2("set-key: empty key sequence ", q.as_str()).as_str());
        return ;
    }
    match map {
        None => ed.global_map.bind(chords.as_slice(), cmd),
        Some(name) => bind_named(&mut ed.keymaps, name, &chords, cmd),
    }
    proof {
        assert(ed@ =~= key_bound(e, m, seq@, cmd@));
        lemma_wf_same(e, ed@);
    }
}

/// The editor after a key is bound in the minibuffer.
pub open spec fn prompt_key_bound(e: EditorModel, seq: Seq<char>, cmd: Seq<char>) -> EditorModel {
    match read_chords(words(seq)) {
        None => said(e, "minibuffer-set-key: cannot parse "@ + quoted(seq)),
        Some(chords) => if chords.len() > 1 {
            said(
                e,
                "minibuffer-set-key: only single keys are supported, got "@ + quoted(seq),
            )
        } else {
            EditorModel { minibuffer_map: bound(e.minibuffer_map, chords, cmd), ..e }
        },
    }
}

/// Bind a single key in the minibuffer.
pub fn minibuffer_set_key(ed: &mut Editor, seq: &str, cmd: &str)
    requires
        wf(old(ed)@),
        words(seq@).len() > 0,
    ensures
        final(ed)@ == prompt_key_bound(old(ed)@, seq@, cmd@),
        wf(final(ed)@),
{
    let ghost e = ed@;
    let chords = match parse_seq(seq) {
        Some(v) => v,
        None => {
            let q = quote(seq);
            ed.message(cat2("minibuffer-set-key: cannot parse ", q.as_str()).as_str());
            return ;
        },
    };
    if chords.len() > 1 {
        let q = quote(seq);
        ed.message(
            cat2("minibuffer-set-key: only single keys are supported, got ", q.as_str()).as_str(),
        );
        return ;
    }
    proof {
        crate::keys::lemma_read_chords(words(seq@));
    }
    ed.minibuffer_map.bind(chords.as_slice(), cmd);
    proof {
        lemma_wf_same(e, ed@);
    }
}

// ---- commands --------------------------------------------------------------

/// The editor with a command of the extension language in its registry.
pub open spec fn command_defined(
    e: EditorModel,
    name: Seq<char>,
    doc: Seq<char>,
    f: ValModel,
) -> EditorModel {
    EditorModel {
        registry: with_key(e.registry, name, CommandModel { doc, f: FnModel::Scheme(f) }),
        ..e
    }
}

/// Define a command: a closure of the extension language.
pub fn define_command(ed: &mut Editor, name: String, doc: String, f: SchemeVal)
    requires
        wf(old(ed)@),
    ensures
        final(ed)@ == command_defined(old(ed)@, name@, doc@, f@),
        wf(final(ed)@),
{
    let ghost e = ed@;
    ed.registry.insert(name, Command { doc, f: CommandFn::Scheme(f) });
    proof {
        lemma_wf_same(e, ed@);
    }
}

/// Whether a native command's function in the extension language takes
/// arguments, so that it is not the command without arguments.
pub open spec fn takes_arguments(name: Seq<char>) -> bool {
    name == "find-file"@ || name == "switch-to-buffer"@ || name == "goto-line"@
}

/// Whether a native command's function takes arguments.
pub fn is_explicit(name: &str) -> (b: bool)
    ensures
        b == takes_arguments(name@),
{
    same(name, "find-file") || same(name, "switch-to-buffer") || same(name, "goto-line")
}

/// Call a native command from the extension language: after an undo boundary,
/// without a prefix argument.
pub fn call_native(ed: &mut Editor, c: NativeCmd) -> (r: PostAction)
    requires
        wf(old(ed)@),
        native_ok(boundary_set(old(ed)@), c, None),
    ensures
        (final(ed)@, r@) == native_done(boundary_set(old(ed)@), c, None),
        wf(final(ed)@),
{
    let ghost e = ed@;
    let buf = ed.cur_buffer_mut();
    buf.undo.push_boundary();
    assert(ed@ == boundary_set(e));
    run_native(ed, c, None)
}

// ---- modes -----------------------------------------------------------------

/// Name the major mode of the current buffer.
pub fn set_buffer_mode_name(ed: &mut Editor, name: String)
    requires
        wf(old(ed)@),
    ensures
        final(ed)@ == with_buf(old(ed)@, BufferModel { mode_name: name@, ..cur_buf(old(ed)@) }),
        wf(final(ed)@),
{
    let buf = ed.cur_buffer_mut();
    buf.mode_name = name;
}

/// Choose the keymap of the current buffer.
pub fn use_local_map(ed: &mut Editor, name: String)
    requires
        wf(old(ed)@),
    ensures
        final(ed)@ == with_buf(
            old(ed)@,
            BufferModel { local_map: Some(name@), ..cur_buf(old(ed)@) },
        ),
        wf(final(ed)@),
{
    let buf = ed.cur_buffer_mut();
    buf.local_map = Some(name);
}

/// Set a buffer-local variable of the current buffer.
pub fn buffer_local_set(ed: &mut Editor, key: String, value: SchemeVal)
    requires
        wf(old(ed)@),
    ensures
        final(ed)@ == with_buf(
            old(ed)@,
            BufferModel {
                locals: with_key(cur_buf(old(ed)@).locals, key@, value@),
                ..cur_buf(old(ed)@)
            },
        ),
        wf(final(ed)@),
{
    let buf = ed.cur_buffer_mut();
    buf.locals.insert(key, value);
}

/// The value of a variable; false for one that is not set.
pub open spec fn local_value(locals: Seq<(Seq<char>, ValModel)>, key: Seq<char>) -> ValModel {
    match lookup(locals, key) {
        Some(v) => v,
        None => ValModel::Bool(false),
    }
}

/// A buffer-local variable of the current buffer.
pub fn buffer_local_get(ed: &Editor, key: &str) -> (v: SchemeVal)
    requires
        wf(ed@),
    ensures
        v@ == local_value(cur_buf(ed@).locals, key@),
{
    match ed.cur_buffer().locals.get(key) {
        Some(v) => v.copy(),
        None => SchemeVal::Bool(false),
    }
}

/// Note the closure that visits directories.
pub fn register_directory_opener(ed: &mut Editor, f: SchemeVal)
    requires
        wf(old(ed)@),
    ensures
        final(ed)@ == (EditorModel { directory_opener: Some(f@), ..old(ed)@ }),
        wf(final(ed)@),
{
    let ghost e = ed@;
    ed.directory_opener = Some(f);
    proof {
        lemma_wf_same(e, ed@);
    }
}

// ---- tree-sitter -----------------------------------------------------------

/// The editor after a grammar was installed: it is announced only the first
/// time.
pub open spec fn grammar_installed(
    e: EditorModel,
    name: Seq<char>,
    lang: LanguageModel,
    fresh: bool,
) -> EditorModel {
    let e1 = if fresh {
        said(e, "Installed tree-sitter grammar "@ + quoted(name))
    } else {
        e
    };
    EditorModel { treesit_languages: with_key(e.treesit_languages, name, lang), ..e1 }
}

/// Keep a grammar that was installed.
pub fn tree_sit_installed(ed: &mut Editor, name: String, lang: TreesitLanguage, fresh: bool)
    requires
        wf(old(ed)@),
    ensures
        final(ed)@ == grammar_installed(old(ed)@, name@, lang@, fresh),
        wf(final(ed)@),
{
    let ghost e = ed@;
    if fresh {
        let q = quote(name.as_str());
        ed.message(cat2("Installed tree-sitter grammar ", q.as_str()).as_str());
    }
    ed.treesit_languages.insert(name, lang);
    proof {
        lemma_wf_same(e, ed@);
    }
}

/// Say that a grammar could not be installed.
pub fn tree_sit_install_failed(ed: &mut Editor, error: &str)
    requires
        wf(old(ed)@),
    ensures
        final(ed)@ == said(old(ed)@, "tree-sit-install-language-grammar: "@ + error@),
        wf(final(ed)@),
{
    ed.message(cat2("tree-sit-install-language-grammar: ", error).as_str());
}

/// What is said of a grammar that is not installed.
pub open spec fn not_installed_text(name: Seq<char>) -> Seq<char> {
    "tree-sit-enable: "@ + quoted(name)
        + " is not installed (call tree-sit-install-language-grammar first)"@
}

/// What is said of a grammar whose queries cannot be used.
pub open spec fn no_highlighter_text(name: Seq<char>) -> Seq<char> {
    "tree-sit-enable: could not build a highlighter for "@ + quoted(name)
}

/// Whether the current buffer is highlighted in a language.
pub open spec fn highlighted_in(e: EditorModel, name: Seq<char>) -> bool {
    match cur_buf(e).syntax {
        Some(s) => s.language == name,
        None => false,
    }
}

/// The editor after highlighting is asked for, and the answer, when a
/// highlight state could be made or not.
pub open spec fn highlighting_enabled(
    e: EditorModel,
    name: Seq<char>,
    made: Option<SyntaxModel>,
) -> (EditorModel, Seq<char>) {
    if lookup(e.treesit_languages, name) is None {
        (said(e, not_installed_text(name)), not_installed_text(name))
    } else if highlighted_in(e, name) {
        (e, Seq::empty())
    } else {
        match made {
            Some(s) => (
                with_buf(e, BufferModel { syntax: Some(s), ..cur_buf(e) }),
                Seq::empty(),
            ),
            None => (said(e, no_highlighter_text(name)), no_highlighter_text(name)),
        }
    }
}

/// Highlight the current buffer in an installed language, when its highlight
/// state was made, or could not be. The answer is empty on success.
pub fn enable_highlighting(ed: &mut Editor, name: &str, made: Option<SyntaxState>) -> (r: String)
    requires
        wf(old(ed)@),
    ensures
        (final(ed)@, r@) == highlighting_enabled(old(ed)@, name@, state_model(made)),
        wf(final(ed)@),
{
    let q = quote(name);
    if !ed.treesit_languages.contains_key(name) {
        let msg = cat3(
            "tree-sit-enable: ",
            q.as_str(),
            " is not installed (call tree-sit-install-language-grammar first)",
        );
        ed.message(msg.as_str());
        return msg;
    }
    let already = match &ed.cur_buffer().syntax {
        Some(s) => same(s.language.as_str(), name),
        None => false,
    };
    if already {
        return no_text();
    }
    match made {
        Some(state) => {
            let buf = ed.cur_buffer_mut();
            buf.syntax = Some(state);
            no_text()
        },
        None => {
            let msg = cat2("tree-sit-enable: could not build a highlighter for ", q.as_str());
            ed.message(msg.as_str());
            msg
        },
    }
}

/// The editor after highlighting in an installed language is asked for, and the
/// answer.
pub open spec fn highlighting_asked(e: EditorModel, name: Seq<char>) -> (EditorModel, Seq<char>) {
    highlighting_enabled(
        e,
        name,
        match lookup(e.treesit_languages, name) {
            Some(lang) => unhighlighted(name, config_for(lang, name)),
            None => None,
        },
    )
}

/// Highlight the current buffer in an installed language.
pub fn tree_sit_enable(ed: &mut Editor, name: &str) -> (r: String)
    requires
        wf(old(ed)@),
    ensures
        (final(ed)@, r@) == highlighting_asked(old(ed)@, name@),
        wf(final(ed)@),
{
    let already = match &ed.cur_buffer().syntax {
        Some(s) => same(s.language.as_str(), name),
        None => false,
    };
    let made = match ed.treesit_languages.get(name) {
        Some(lang) => if already {
            None
        } else {
            SyntaxState::new(name, lang)
        },
        None => None,
    };
    enable_highlighting(ed, name, made)
}

/// A range as a pair of numbers, (-1 -1) for none.
pub open spec fn range_pair(r: Option<(int, int)>) -> Seq<int> {
    match r {
        Some((a, b)) => seq![int_of(a), int_of(b)],
        None => seq![-1, -1],
    }
}

/// Numbers of the extension language.
pub open spec fn ints(s: Seq<isize>) -> Seq<int> {
    s.map_values(|i: isize| i as int)
}

fn pair_of(r: Option<(usize, usize)>) -> (v: Vec<isize>)
    ensures
        ints(v@) == range_pair(char_range(r)),
{
    let mut v: Vec<isize> = Vec::new();
    match r {
        Some((a, b)) => {
            v.push(to_int(a));
            v.push(to_int(b));
        },
        None => {
            v.push(-1);
            v.push(-1);
        },
    }
    assert(ints(v@) =~= range_pair(char_range(r)));
    v
}

/// The char range of the innermost (or outermost) syntax node around point whose
/// kind is in `kinds`; none without highlighting or such a node.
pub open spec fn node_at_point(e: EditorModel, kinds: Seq<Seq<char>>, outermost: bool) -> Option<
    (int, int),
> {
    let b = cur_buf(e);
    match b.syntax {
        Some(s) => picked_at(s.config, b.text, cur_win(e).point as int, kinds, outermost),
        None => None,
    }
}

/// The char range of the innermost (or outermost) syntax node around point
/// whose kind is in `kinds`; (-1 -1) without highlighting or such a node.
pub fn tree_sit_node_range_at_point(ed: &Editor, kinds: &Vec<String>, outermost: bool) -> (v: Vec<
    isize,
>)
    requires
        wf(ed@),
    ensures
        ints(v@) == range_pair(node_at_point(ed@, views(kinds@), outermost)),
{
    proof {
        lemma_cur(ed@);
    }
    let point: usize = ed.windows.selected_ref().point;
    let buf = ed.cur_buffer();
    let found = match &buf.syntax {
        Some(s) => s.node_range_at(&buf.rope, point, kinds, outermost),
        None => None,
    };
    pair_of(found)
}

// ---- laws ------------------------------------------------------------------

/// A key sequence bound in the global map runs its command wherever the current
/// buffer has no keymap of its own.
pub proof fn law_bound_key_found(e: EditorModel, seq: Seq<char>, cmd: Seq<char>)
    requires
        crate::dispatch::local_keys(e) is None,
        match read_chords(words(seq)) {
            Some(chords) => chords.len() > 0,
            None => false,
        },
    ensures
        match read_chords(words(seq)) {
            Some(chords) => crate::dispatch::key_meaning(
                key_bound(e, None, seq, cmd),
                chords,
            ) == Meaning::Cmd(cmd),
            None => false,
        },
{
    let chords = read_chords(words(seq))->0;
    crate::keymap::law_bind_then_lookup(e.global_map, chords, cmd);
}

/// A key sequence bound in the map that the current buffer uses runs its
/// command there, whatever the global map says.
pub proof fn law_local_key_wins(e: EditorModel, map: Seq<char>, seq: Seq<char>, cmd: Seq<char>)
    requires
        cur_buf(e).mode is Fundamental,
        cur_buf(e).local_map == Some(map),
        match read_chords(words(seq)) {
            Some(chords) => chords.len() > 0,
            None => false,
        },
    ensures
        match read_chords(words(seq)) {
            Some(chords) => crate::dispatch::key_meaning(
                key_bound(e, Some(map), seq, cmd),
                chords,
            ) == Meaning::Cmd(cmd),
            None => false,
        },
{
    let chords = read_chords(words(seq))->0;
    let m = map_named(e.keymaps, map);
    crate::keymap::law_bind_then_lookup(m, chords, cmd);
    crate::assoc::law_with_key(e.keymaps, map, bound(m, chords, cmd), map);
    let e1 = key_bound(e, Some(map), seq, cmd);
    assert(cur_buf(e1) == cur_buf(e));
}

} // verus!
