//! Buffers by name: what closures that run later, with another buffer current,
//! need.

use crate::assoc::with_key;
use crate::buffer::{Buffer, BufferModel};
use crate::buffers::{buffer_named, name_index};
use crate::editor::{buf_ids, said, wf, Editor, EditorModel};
use crate::layout::output_added;
use crate::script::config::local_value;
use crate::script::text::{position_in, position_of};
use crate::strings::{cat2, quote, quoted, same};
use crate::treesit::named_spans;
use crate::value::{SchemeVal, ValModel};
use vstd::prelude::*;

verus! {

/// The index of the buffer with a name; past the end if there is none.
pub open spec fn named_at(e: EditorModel, name: Seq<char>) -> int {
    name_index(e.buffers, name, 0)
}

/// Whether there is a buffer with a name.
pub open spec fn is_named(e: EditorModel, name: Seq<char>) -> bool {
    named_at(e, name) < e.buffers.len()
}

/// The buffer with a name.
pub open spec fn the_named(e: EditorModel, name: Seq<char>) -> BufferModel {
    e.buffers[named_at(e, name)]
}

/// The editor with the buffer of a name replaced.
pub open spec fn with_named(e: EditorModel, name: Seq<char>, b: BufferModel) -> EditorModel {
    EditorModel { buffers: e.buffers.update(named_at(e, name), b), ..e }
}

proof fn lemma_with_named(e: EditorModel, name: Seq<char>, b: BufferModel)
    requires
        wf(e),
        is_named(e, name),
        0 <= named_at(e, name),
        b.id == the_named(e, name).id,
    ensures
        wf(with_named(e, name, b)),
{
    reveal(wf);
    let r = with_named(e, name, b);
    assert(buf_ids(r.buffers) =~= buf_ids(e.buffers));
}

fn find_named(ed: &Editor, name: &str) -> (r: Option<usize>)
    ensures
        match r {
            Some(i) => i < ed.buffers@.len() && i == named_at(ed@, name@),
            None => !is_named(ed@, name@),
        },
{
    let mut i: usize = 0;
    while i < ed.buffers.len()
        invariant
            i <= ed.buffers@.len(),
            named_at(ed@, name@) == name_index(ed@.buffers, name@, i as int),
        decreases ed.buffers@.len() - i,
    {
        assert(ed@.buffers[i as int] == ed.buffers@[i as int]@);
        if same(ed.buffers[i].name.as_str(), name) {
            return Some(i);
        }
        i = i + 1;
    }
    None
}

/// A buffer-local variable of the buffer with a name; false without such a
/// buffer or variable.
pub fn buffer_local_get_in(ed: &Editor, name: &str, key: &str) -> (v: SchemeVal)
    ensures
        v@ == if is_named(ed@, name@) {
            local_value(the_named(ed@, name@).locals, key@)
        } else {
            ValModel::Bool(false)
        },
{
    match find_named(ed, name) {
        Some(i) => {
            assert(ed@.buffers[i as int] == ed.buffers@[i as int]@);
            match ed.buffers[i].locals.get(key) {
                Some(v) => v.copy(),
                None => SchemeVal::Bool(false),
            }
        },
        None => SchemeVal::Bool(false),
    }
}

/// A buffer with a color span more; nothing is added for an empty span.
pub open spec fn span_added(b: BufferModel, start: int, end: int, face: Seq<char>) -> BufferModel {
    let x = position_in(b.text, start);
    let y = position_in(b.text, end);
    if x < y {
        BufferModel { face_spans: b.face_spans.push((x, y, face)), ..b }
    } else {
        b
    }
}

/// The editor after a color span is placed in the buffer with a name.
pub open spec fn span_placed(
    e: EditorModel,
    name: Seq<char>,
    start: int,
    end: int,
    face: Seq<char>,
) -> EditorModel {
    if is_named(e, name) {
        with_named(e, name, span_added(the_named(e, name), start, end, face))
    } else {
        said(e, "buffer-add-face-span!: no buffer "@ + quoted(name))
    }
}

fn add_span(buf: &mut Buffer, start: isize, end: isize, face: String)
    ensures
        final(buf)@ == span_added(old(buf)@, start as int, end as int, face@),
{
    let len: usize = buf.len_chars();
    let a: usize = position_of(start, len);
    let b: usize = position_of(end, len);
    if a < b {
        let ghost before = named_spans(buf.face_spans@);
        let ghost f = face@;
        buf.face_spans.push((a, b, face));
        assert(named_spans(buf.face_spans@) =~= before.push((a as int, b as int, f)));
    }
    assert(buf@ =~= span_added(old(buf)@, start as int, end as int, face@));
}

/// Color a span of the buffer with a name.
pub fn buffer_add_face_span(ed: &mut Editor, name: &str, start: isize, end: isize, face: String)
    requires
        wf(old(ed)@),
    ensures
        final(ed)@ == span_placed(old(ed)@, name@, start as int, end as int, face@),
        wf(final(ed)@),
{
    let ghost e = ed@;
    let ghost f = face@;
    match find_named(ed, name) {
        Some(i) => {
            assert(e.buffers[i as int] == ed.buffers@[i as int]@);
            add_span(&mut ed.buffers[i], start, end, face);
            proof {
                assert(ed@ =~= span_placed(e, name@, start as int, end as int, f));
                lemma_with_named(
                    e,
                    name@,
                    span_added(the_named(e, name@), start as int, end as int, f),
                );
            }
        },
        None => {
            let q = quote(name);
            ed.message(cat2("buffer-add-face-span!: no buffer ", q.as_str()).as_str());
        },
    }
}

/// The editor without the color spans of the buffer with a name.
pub open spec fn spans_cleared(e: EditorModel, name: Seq<char>) -> EditorModel {
    if is_named(e, name) {
        with_named(e, name, BufferModel { face_spans: Seq::empty(), ..the_named(e, name) })
    } else {
        e
    }
}

/// Take the color spans out of the buffer with a name.
pub fn buffer_clear_face_spans(ed: &mut Editor, name: &str)
    requires
        wf(old(ed)@),
    ensures
        final(ed)@ == spans_cleared(old(ed)@, name@),
        wf(final(ed)@),
{
    let ghost e = ed@;
    if let Some(i) = find_named(ed, name) {
        assert(e.buffers[i as int] == ed.buffers@[i as int]@);
        let buf = &mut ed.buffers[i];
        buf.face_spans = Vec::new();
        assert(named_spans(buf.face_spans@) =~= Seq::<(int, int, Seq<char>)>::empty());
        proof {
            assert(ed@ =~= spans_cleared(e, name@));
            lemma_with_named(
                e,
                name@,
                BufferModel { face_spans: Seq::empty(), ..the_named(e, name@) },
            );
        }
    }
}

/// The editor after a variable of the buffer with a name is set.
pub open spec fn local_set_in(
    e: EditorModel,
    name: Seq<char>,
    key: Seq<char>,
    value: ValModel,
) -> EditorModel {
    if is_named(e, name) {
        let b = the_named(e, name);
        with_named(e, name, BufferModel { locals: with_key(b.locals, key, value), ..b })
    } else {
        said(e, "buffer-local-set-in!: no buffer "@ + quoted(name))
    }
}

/// Set a buffer-local variable of the buffer with a name.
pub fn buffer_local_set_in(ed: &mut Editor, name: &str, key: String, value: SchemeVal)
    requires
        wf(old(ed)@),
    ensures
        final(ed)@ == local_set_in(old(ed)@, name@, key@, value@),
        wf(final(ed)@),
{
    let ghost e = ed@;
    let ghost k = key@;
    let ghost v = value@;
    match find_named(ed, name) {
        Some(i) => {
            assert(e.buffers[i as int] == ed.buffers@[i as int]@);
            ed.buffers[i].locals.insert(key, value);
            proof {
                assert(ed@ =~= local_set_in(e, name@, k, v));
                let b = the_named(e, name@);
                lemma_with_named(e, name@, BufferModel { locals: with_key(b.locals, k, v), ..b });
            }
        },
        None => {
            let q = quote(name);
            ed.message(cat2("buffer-local-set-in!: no buffer ", q.as_str()).as_str());
        },
    }
}

/// The editor with the mode of the buffer with a name named.
pub open spec fn mode_named_in(e: EditorModel, name: Seq<char>, mode: Seq<char>) -> EditorModel {
    if is_named(e, name) {
        with_named(e, name, BufferModel { mode_name: mode, ..the_named(e, name) })
    } else {
        e
    }
}

/// Name the major mode of the buffer with a name.
pub fn set_buffer_mode_name_in(ed: &mut Editor, name: &str, mode: String)
    requires
        wf(old(ed)@),
    ensures
        final(ed)@ == mode_named_in(old(ed)@, name@, mode@),
        wf(final(ed)@),
{
    let ghost e = ed@;
    let ghost m = mode@;
    if let Some(i) = find_named(ed, name) {
        assert(e.buffers[i as int] == ed.buffers@[i as int]@);
        let buf = &mut ed.buffers[i];
        buf.mode_name = mode;
        proof {
            assert(ed@ =~= mode_named_in(e, name@, m));
            lemma_with_named(e, name@, BufferModel { mode_name: m, ..the_named(e, name@) });
        }
    }
}

/// The editor with text added at the end of the buffer with a name.
pub open spec fn appended_in(e: EditorModel, name: Seq<char>, text: Seq<char>) -> EditorModel {
    match buffer_named(e.buffers, name) {
        Some(id) => output_added(e, id, text),
        None => said(e, "buffer-append-in!: no buffer "@ + quoted(name)),
    }
}

/// Add generated text at the end of the buffer with a name.
pub fn buffer_append_in(ed: &mut Editor, name: &str, text: &str)
    requires
        wf(old(ed)@),
    ensures
        final(ed)@ == appended_in(old(ed)@, name@, text@),
        wf(final(ed)@),
{
    match ed.buffer_by_name(name) {
        Some(id) => {
            let _r = ed.append_to_buffer(id, text);
        },
        None => {
            let q = quote(name);
            ed.message(cat2("buffer-append-in!: no buffer ", q.as_str()).as_str());
        },
    }
}

} // verus!
