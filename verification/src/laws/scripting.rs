//! What the calls of the extension language do.

use crate::assoc::{law_with_key, lookup, with_key};
use crate::buffer::{removed, BufferModel};
use crate::buffers::name_index;
use crate::calendar::mtime_text;
use crate::dired::listing::{entry_of, mode_text, RawModel};
use crate::editor::{at_point, cur_buf, cur_point, lemma_cur, lemma_put, wf, EditorModel};
use crate::faces::{color_of, FaceColor, FacesModel};
use crate::laws::frame::counted;
use crate::laws::listing::is_hidden;
use crate::lines::{max, min};
use crate::script::config::{command_defined, face_set, option_set};
use crate::script::named::{local_set_in, mode_named_in, span_placed, spans_cleared};
use crate::script::records::{directory_of, record_of, records_of};
use crate::script::text::region_deleted;
use crate::strings::lower;
use crate::value::ValModel;
use vstd::prelude::*;

verus! {

/// A position brought into a text.
pub open spec fn brought_in(n: int, len: int) -> int {
    if n < 0 {
        0
    } else if n > len {
        len
    } else {
        n
    }
}

/// delete-region takes out the text between two positions, in whatever order they come,
/// as far as they lie in the buffer; point stays on its char, or goes to where the text
/// was taken out. A read-only buffer keeps its text.
pub proof fn law_script_deletes(e: EditorModel, start: int, end: int)
    requires
        wf(e),
        counted(e),
    ensures
        ({
            let r = region_deleted(e, start, end);
            let t = cur_buf(e).text;
            let n = t.len() as int;
            let p = cur_point(e);
            let (x, y) = (brought_in(start, n), brought_in(end, n));
            let (a, b) = if x <= y {
                (x, y)
            } else {
                (y, x)
            };
            if cur_buf(e).read_only {
                r.buffers == e.buffers && r.windows == e.windows
            } else {
                &&& cur_buf(r).text == t.subrange(0, a) + t.subrange(b, n)
                &&& p <= a ==> cur_point(r) == p
                &&& a < p < b ==> cur_point(r) == a
                &&& b <= p ==> cur_point(r) == p - (b - a)
            }
        }),
{
    lemma_cur(e);
    let t = cur_buf(e).text;
    let n = t.len() as int;
    let p = cur_point(e);
    let (x, y) = (brought_in(start, n), brought_in(end, n));
    let (a, b) = (min(x, y), max(x, y));
    if !cur_buf(e).read_only {
        let c = removed(cur_buf(e), a, b);
        let q = crate::script::text::after_removal(p, a, b);
        lemma_put(e, at_point(e, q), c);
        assert(c.text =~= t.subrange(0, a) + t.subrange(b, n));
    }
}

/// The names of the eight colors.
pub open spec fn color_names() -> Seq<(Seq<char>, FaceColor)> {
    seq![
        ("black"@, FaceColor::Black),
        ("red"@, FaceColor::Red),
        ("green"@, FaceColor::Green),
        ("yellow"@, FaceColor::Yellow),
        ("blue"@, FaceColor::Blue),
        ("magenta"@, FaceColor::Magenta),
        ("cyan"@, FaceColor::Cyan),
        ("white"@, FaceColor::White),
    ]
}

/// The color of a face: one of the editor's own, or that of a highlight name.
pub open spec fn color_of_face(f: FacesModel, face: Seq<char>) -> Option<FaceColor> {
    if face == "mode-line"@ {
        f.mode_line
    } else if face == "highlight"@ {
        f.highlight
    } else if face == "line-number"@ {
        f.line_number
    } else if face == "line-number-current-line"@ {
        f.line_number_current
    } else {
        lookup(f.syntax, face)
    }
}

proof fn lemma_color(i: int)
    requires
        0 <= i < 8,
    ensures
        color_of(color_names()[i].0) == Some(color_names()[i].1),
{
    reveal_strlit("black");
    reveal_strlit("red");
    reveal_strlit("green");
    reveal_strlit("yellow");
    reveal_strlit("blue");
    reveal_strlit("magenta");
    reveal_strlit("cyan");
    reveal_strlit("white");
    let s = color_names()[i].0;
    assert("black"@[0] == 'b' && "green"@[0] == 'g' && "white"@[0] == 'w');
    assert("blue"@[0] == 'b' && "cyan"@[0] == 'c');
    assert("black"@.len() == 5 && "red"@.len() == 3 && "green"@.len() == 5);
    assert("yellow"@.len() == 6 && "blue"@.len() == 4 && "magenta"@.len() == 7);
    assert("cyan"@.len() == 4 && "white"@.len() == 5);
}

proof fn lemma_no_color(s: Seq<char>)
    requires
        forall|k: int| 0 <= k < 8 ==> s != (#[trigger] color_names()[k]).0,
    ensures
        color_of(s) is None,
{
    assert(color_names()[0].0 == "black"@);
    assert(color_names()[1].0 == "red"@);
    assert(color_names()[2].0 == "green"@);
    assert(color_names()[3].0 == "yellow"@);
    assert(color_names()[4].0 == "blue"@);
    assert(color_names()[5].0 == "magenta"@);
    assert(color_names()[6].0 == "cyan"@);
    assert(color_names()[7].0 == "white"@);
}

/// Coloring a face by the name of a color, in upper or lower case, colors that face and no
/// other; a color that is not known changes no face.
pub proof fn law_face_colored(
    e: EditorModel,
    face: Seq<char>,
    color: Seq<char>,
    i: int,
    other: Seq<char>,
)
    requires
        0 <= i < 8,
        other != face,
    ensures
        ({
            let r = face_set(e, face, color);
            let low = Seq::new(color.len(), |k: int| lower(color[k]));
            &&& low == color_names()[i].0 ==> color_of_face(r.faces, face) == Some(
                color_names()[i].1,
            )
            &&& color_of_face(r.faces, other) == color_of_face(e.faces, other)
            &&& (forall|k: int| 0 <= k < 8 ==> low != (#[trigger] color_names()[k]).0) ==> r.faces
                == e.faces
            &&& r.buffers == e.buffers
        }),
{
    let low = Seq::new(color.len(), |k: int| lower(color[k]));
    let same = color.map_values(|c: char| lower(c));
    assert(low =~= same);
    lemma_color(i);
    if forall|k: int| 0 <= k < 8 ==> low != (#[trigger] color_names()[k]).0 {
        lemma_no_color(low);
    }
    if let Some(c) = color_of(same) {
        law_with_key(e.faces.syntax, face, c, other);
    }
}

/// The option for line numbers is turned on by true and by a number that is not 0, and off
/// by false and by 0; any other value, and any other option, changes nothing but the
/// message.
pub proof fn law_option_set(e: EditorModel, name: Seq<char>, n: int, b: bool)
    ensures
        option_set(e, "display-line-numbers"@, ValModel::Bool(b)) == (EditorModel {
            show_line_numbers: b,
            ..e
        }),
        option_set(e, "display-line-numbers"@, ValModel::Int(n)).show_line_numbers == (n != 0),
        name != "display-line-numbers"@ ==> option_set(e, name, ValModel::Bool(b)) == (
        EditorModel { echo: option_set(e, name, ValModel::Bool(b)).echo, ..e }),
{
}

/// A command that is defined is found by its name, and all others stay.
pub proof fn law_command_defined(
    e: EditorModel,
    name: Seq<char>,
    doc: Seq<char>,
    f: ValModel,
    other: Seq<char>,
)
    ensures
        ({
            let r = command_defined(e, name, doc, f);
            let c = lookup(r.registry, name);
            &&& c is Some && (c->0).doc == doc && (c->0).f == crate::editor::FnModel::Scheme(f)
            &&& other != name ==> lookup(r.registry, other) == lookup(e.registry, other)
        }),
{
    law_with_key(
        e.registry,
        name,
        crate::editor::CommandModel { doc, f: crate::editor::FnModel::Scheme(f) },
        other,
    );
}

/// Whether `i` is the first buffer of a name.
pub open spec fn first_named(e: EditorModel, name: Seq<char>, i: int) -> bool {
    &&& 0 <= i < e.buffers.len()
    &&& e.buffers[i].name == name
    &&& forall|j: int| 0 <= j < i ==> (#[trigger] e.buffers[j]).name != name
}

proof fn lemma_first_named(bs: Seq<BufferModel>, name: Seq<char>, k: int, i: int)
    requires
        0 <= k <= i < bs.len(),
        bs[i].name == name,
        forall|j: int| 0 <= j < i ==> (#[trigger] bs[j]).name != name,
    ensures
        name_index(bs, name, k) == i,
    decreases i - k,
{
    if k < i {
        lemma_first_named(bs, name, k + 1, i);
    }
}

/// Whether two editors agree but for one buffer, and that one in its text.
pub open spec fn only_buffer(e: EditorModel, r: EditorModel, i: int) -> bool {
    &&& r == (EditorModel { buffers: r.buffers, ..e })
    &&& r.buffers == e.buffers.update(i, r.buffers[i])
    &&& r.buffers[i].text == e.buffers[i].text
}

/// What is set in a buffer by its name is set in that buffer and in no other: a variable,
/// which then has that value while all others keep theirs; the name of its mode; a color
/// span, brought into the text and behind the ones before; or no span at all.
pub proof fn law_named_buffer_set(
    e: EditorModel,
    name: Seq<char>,
    i: int,
    key: Seq<char>,
    other: Seq<char>,
    v: ValModel,
    start: int,
    end: int,
)
    requires
        first_named(e, name, i),
        other != key,
    ensures
        ({
            let b = e.buffers[i];
            let n = b.text.len() as int;
            let r = local_set_in(e, name, key, v);
            let m = mode_named_in(e, name, key);
            let s = span_placed(e, name, start, end, key);
            let c = spans_cleared(e, name);
            &&& only_buffer(e, r, i) && only_buffer(e, m, i) && only_buffer(e, s, i)
                && only_buffer(e, c, i)
            &&& lookup(r.buffers[i].locals, key) == Some(v)
            &&& lookup(r.buffers[i].locals, other) == lookup(b.locals, other)
            &&& m.buffers[i] == (BufferModel { mode_name: key, ..b })
            &&& s.buffers[i].face_spans == (if brought_in(start, n) < brought_in(end, n) {
                b.face_spans.push((brought_in(start, n), brought_in(end, n), key))
            } else {
                b.face_spans
            })
            &&& c.buffers[i].face_spans.len() == 0
        }),
{
    lemma_first_named(e.buffers, name, 0, i);
    law_with_key(e.buffers[i].locals, key, v, other);
    assert(e.buffers =~= e.buffers.update(i, e.buffers[i]));
    let b = e.buffers[i];
    assert(local_set_in(e, name, key, v).buffers[i].locals == with_key(b.locals, key, v));
}

/// The entries of a directory are handed out as lists, that of the parent first, then one
/// for each name, in the order they came in, hidden names only where asked for; each tells
/// path, name, whether it is a directory, permissions, links, owner, group, size and time of
/// change, as a listing shows them.
pub proof fn law_directory_records(
    parent: RawModel,
    raw: Seq<RawModel>,
    users: Seq<(int, Seq<char>)>,
    groups: Seq<(int, Seq<char>)>,
    all: bool,
)
    ensures
        directory_of(Some(parent), raw, users, groups, all) == seq![
            record_of(parent, users, groups),
        ] + directory_of(None, raw, users, groups, all),
        directory_of(None, raw, users, groups, all) == raw.filter(
            |r: RawModel| all || !is_hidden(r.name),
        ).map_values(|r: RawModel| record_of(r, users, groups)),
        ({
            let s = record_of(parent, users, groups);
            let x = entry_of(parent, users, groups);
            &&& s.len() == 9
            &&& s[0] == ValModel::Str(x.path) && s[1] == ValModel::Str(x.name)
            &&& s[2] == ValModel::Bool(x.is_dir)
            &&& s[3] == ValModel::Str(mode_text(x.mode, x.is_dir))
            &&& x.nlink <= isize::MAX ==> s[4] == ValModel::Int(x.nlink as int)
            &&& s[5] == ValModel::Str(x.owner) && s[6] == ValModel::Str(x.group)
            &&& x.size <= isize::MAX ==> s[7] == ValModel::Int(x.size as int)
            &&& s[8] == ValModel::Str(mtime_text(x.mtime as int))
        }),
{
    lemma_records(raw, users, groups, all);
    let none = Seq::<Seq<ValModel>>::empty();
    assert(none + records_of(raw, users, groups, all) =~= records_of(raw, users, groups, all));
}

proof fn lemma_records(
    raw: Seq<RawModel>,
    users: Seq<(int, Seq<char>)>,
    groups: Seq<(int, Seq<char>)>,
    all: bool,
)
    ensures
        records_of(raw, users, groups, all) == raw.filter(
            |r: RawModel| all || !is_hidden(r.name),
        ).map_values(|r: RawModel| record_of(r, users, groups)),
    decreases raw.len(),
{
    reveal(Seq::filter);
    let keep = |r: RawModel| all || !is_hidden(r.name);
    let made = |r: RawModel| record_of(r, users, groups);
    if raw.len() > 0 {
        lemma_records(raw.drop_last(), users, groups, all);
        let before = raw.drop_last().filter(keep);
        if keep(raw.last()) {
            assert(raw.filter(keep) =~= before.push(raw.last()));
            assert(before.push(raw.last()).map_values(made) =~= before.map_values(made).push(
                made(raw.last()),
            ));
        } else {
            assert(raw.filter(keep) =~= before);
        }
    } else {
        assert(raw.filter(keep).map_values(made) =~= Seq::<Seq<ValModel>>::empty());
    }
}

} // verus!
