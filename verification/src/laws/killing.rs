//! What killing, copying and yanking do.

use crate::assoc::lookup;
use crate::buffer::{inserted, part, removed, BufferModel};
use crate::commands::basic::times;
use crate::commands::movement::{law_word_bounds, word_end, word_start};
use crate::commands::ring::{
    after_kill, after_yank, is_kill, killed, killed_back, line_killed, words_killed,
    words_killed_back,
};
use crate::commands::run::native_done;
use crate::dispatch::{boundary_set, command_begun, command_ended, executed};
use crate::editor::{
    at_point, clamped, cur_buf, cur_point, cur_win, edit_cur, lemma_put, lemma_wf_same,
    lemma_with_buf, wf, EditorModel, FnModel,
};
use crate::input::{prefix_value, PrefixArg};
use crate::killring::{grown, grown_front, pushed, rotated, yanked, RingModel};
use crate::laws::frame::{counted, lemma_put_here, only_here};
use crate::laws::table::{
    lemma_kill_commands, lemma_motion_commands, lemma_motion_far_commands, lemma_yank_commands,
};
use crate::lines::{clip, end_at, lemma_line_ends, max, min};
use crate::native::{name_of, NativeCmd};
use crate::undo::bounded;
use vstd::prelude::*;

verus! {

// ---- runs of kills ---------------------------------------------------------

/// Whether a command is found in the registry under its name.
pub open spec fn known(e: EditorModel, c: NativeCmd) -> bool {
    match lookup(e.registry, name_of(c)) {
        Some(cmd) => cmd.f == FnModel::Native(c),
        None => false,
    }
}

/// Whether a command kills text next to point.
pub open spec fn kills_at_point(c: NativeCmd) -> bool {
    c == NativeCmd::KillWord || c == NativeCmd::BackwardKillWord || c == NativeCmd::KillLine
}

/// The editor after some commands are run by name, each with a prefix argument.
pub open spec fn ran(e: EditorModel, cs: Seq<(NativeCmd, PrefixArg)>) -> EditorModel
    decreases cs.len(),
{
    if cs.len() == 0 {
        e
    } else {
        let (c, p) = cs.last();
        executed(EditorModel { prefix: p, ..ran(e, cs.drop_last()) }, name_of(c)).0
    }
}

/// Whether an editor is another one with the text from `a` to `b` cut out, point
/// there, and that text the newest kill.
pub open spec fn cut_out(e: EditorModel, r: EditorModel, a: int, b: int) -> bool {
    let t = cur_buf(e).text;
    &&& 0 <= a <= b <= t.len()
    &&& cur_buf(r).text == t.take(a) + t.skip(b)
    &&& cur_point(r) == a
    &&& a < b ==> yanked(r.kill_ring) == Some(t.subrange(a, b))
}

spec fn cutting(e: EditorModel, r: EditorModel, a: int, b: int) -> bool {
    let t = cur_buf(e).text;
    &&& wf(r)
    &&& t.len() <= usize::MAX
    &&& 0 <= a <= b <= t.len()
    &&& cur_buf(r).text == t.take(a) + t.skip(b)
    &&& !cur_buf(r).read_only
    &&& cur_point(r) == a
    &&& r.registry == e.registry
    &&& r.kill_ring == if a < b {
        pushed(e.kill_ring, t.subrange(a, b))
    } else {
        e.kill_ring
    }
}

proof fn lemma_grown(r: RingModel, x: Seq<char>, y: Seq<char>)
    requires
        x.len() > 0,
    ensures
        grown(pushed(r, x), y) == pushed(r, x + y),
        grown_front(pushed(r, x), y) == pushed(r, y + x),
{
    assert(grown(pushed(r, x), y).entries =~= pushed(r, x + y).entries);
    assert(grown_front(pushed(r, x), y).entries =~= pushed(r, y + x).entries);
}

proof fn lemma_cut_after(e: EditorModel, r: EditorModel, a: int, b: int, end: int)
    requires
        cutting(e, r, a, b),
        a < end <= cur_buf(r).text.len(),
    ensures
        ({
            let x = cur_buf(r);
            let f = killed(edit_cur(r, a, removed(x, a, end)), part(x.text, a, end), a < b);
            cutting(e, f, a, b + (end - a)) && f.last_command == r.last_command && f.this_command
                == r.this_command
        }),
{
    let t = cur_buf(e).text;
    let x = cur_buf(r);
    let b1 = b + (end - a);
    let y = removed(x, a, end);
    lemma_put(r, at_point(r, a), y);
    let f0 = edit_cur(r, a, y);
    let f = killed(f0, part(x.text, a, end), a < b);
    lemma_wf_same(f0, f);
    assert(y.text =~= t.take(a) + t.skip(b1));
    assert(part(x.text, a, end) =~= t.subrange(b, b1));
    if a < b {
        lemma_grown(e.kill_ring, t.subrange(a, b), t.subrange(b, b1));
        assert(t.subrange(a, b) + t.subrange(b, b1) =~= t.subrange(a, b1));
    } else {
        assert(t.subrange(b, b1) == t.subrange(a, b1));
    }
}

proof fn lemma_cut_before(e: EditorModel, r: EditorModel, a: int, b: int, start: int)
    requires
        cutting(e, r, a, b),
        0 <= start < a,
    ensures
        ({
            let x = cur_buf(r);
            let f = killed_back(
                edit_cur(r, start, removed(x, start, a)),
                part(x.text, start, a),
                a < b,
            );
            cutting(e, f, start, b) && f.last_command == r.last_command && f.this_command
                == r.this_command
        }),
{
    let t = cur_buf(e).text;
    let x = cur_buf(r);
    let y = removed(x, start, a);
    lemma_put(r, at_point(r, start), y);
    let f0 = edit_cur(r, start, y);
    let f = killed_back(f0, part(x.text, start, a), a < b);
    lemma_wf_same(f0, f);
    assert(y.text =~= t.take(start) + t.skip(b));
    assert(part(x.text, start, a) =~= t.subrange(start, a));
    if a < b {
        lemma_grown(e.kill_ring, t.subrange(a, b), t.subrange(start, a));
        assert(t.subrange(start, a) + t.subrange(a, b) =~= t.subrange(start, b));
    }
}

proof fn lemma_clamp(e: EditorModel, r: EditorModel, a: int, b: int)
    requires
        cutting(e, r, a, b),
    ensures
        cutting(e, clamped(r), a, b),
        clamped(r).last_command == r.last_command,
        clamped(r).this_command == r.this_command,
{
    lemma_put(r, at_point(r, a), cur_buf(r));
}

proof fn lemma_words(e: EditorModel, r: EditorModel, a: int, b: int, n: int) -> (b1: int)
    requires
        cutting(e, r, a, b),
    ensures
        b <= b1,
        cutting(e, words_killed(r, n, a < b), a, b1),
        words_killed(r, n, a < b).last_command == r.last_command,
        words_killed(r, n, a < b).this_command == r.this_command,
    decreases n,
{
    let x = cur_buf(r);
    law_word_bounds(x.text, a);
    let end = word_end(x.text, a);
    if n <= 0 {
        b
    } else if end == a {
        lemma_clamp(e, r, a, b);
        b
    } else {
        lemma_cut_after(e, r, a, b, end);
        let f = killed(edit_cur(r, a, removed(x, a, end)), part(x.text, a, end), a < b);
        lemma_words(e, f, a, b + (end - a), n - 1)
    }
}

proof fn lemma_words_back(e: EditorModel, r: EditorModel, a: int, b: int, n: int) -> (a1: int)
    requires
        cutting(e, r, a, b),
    ensures
        a1 <= a,
        cutting(e, words_killed_back(r, n, a < b), a1, b),
        words_killed_back(r, n, a < b).last_command == r.last_command,
        words_killed_back(r, n, a < b).this_command == r.this_command,
    decreases n,
{
    let x = cur_buf(r);
    law_word_bounds(x.text, a);
    let start = word_start(x.text, a);
    if n <= 0 {
        a
    } else if start == a {
        lemma_clamp(e, r, a, b);
        a
    } else {
        lemma_cut_before(e, r, a, b, start);
        let f = killed_back(
            edit_cur(r, start, removed(x, start, a)),
            part(x.text, start, a),
            a < b,
        );
        lemma_words_back(e, f, start, b, n - 1)
    }
}

proof fn lemma_one_kill(
    e: EditorModel,
    r: EditorModel,
    a: int,
    b: int,
    c: NativeCmd,
    n: Option<u32>,
) -> (ab: (int, int))
    requires
        cutting(e, r, a, b),
        kills_at_point(c),
        after_kill(r) == (a < b),
    ensures
        ab.0 <= a,
        b <= ab.1,
        cutting(e, native_done(r, c, n).0, ab.0, ab.1),
        native_done(r, c, n).0.last_command == r.last_command,
        native_done(r, c, n).0.this_command == r.this_command,
{
    lemma_kill_commands(r, n);
    match c {
        NativeCmd::KillWord => {
            let b1 = lemma_words(e, r, a, b, times(n));
            (a, b1)
        },
        NativeCmd::BackwardKillWord => {
            let a1 = lemma_words_back(e, r, a, b, times(n));
            (a1, b)
        },
        _ => {
            let t = cur_buf(r).text;
            lemma_line_ends(t, a);
            if a >= t.len() {
                lemma_clamp(e, r, a, b);
                lemma_wf_same(clamped(r), line_killed(r));
                (a, b)
            } else {
                let end = clip(t, crate::commands::ring::kill_end(t, a));
                lemma_cut_after(e, r, a, b, end);
                (a, b + (end - a))
            }
        },
    }
}

proof fn lemma_run(e: EditorModel, cs: Seq<(NativeCmd, PrefixArg)>) -> (ab: (int, int))
    requires
        wf(e),
        counted(e),
        !cur_buf(e).read_only,
        !after_kill(e),
        cs.len() > 0,
        forall|i: int|
            0 <= i < cs.len() ==> kills_at_point((#[trigger] cs[i]).0) && known(e, cs[i].0),
        cur_buf(ran(e, cs.take(1))).text != cur_buf(e).text,
    ensures
        ab.0 <= cur_point(e) <= ab.1,
        ab.0 < ab.1,
        cutting(e, ran(e, cs), ab.0, ab.1),
        after_kill(ran(e, cs)),
    decreases cs.len(),
{
    let before = cs.drop_last();
    let (c, p) = cs.last();
    assert(cs[cs.len() - 1] == cs.last());
    let q = cur_point(e);
    let t = cur_buf(e).text;
    let (a, b) = if before.len() == 0 {
        assert(t.take(q) + t.skip(q) =~= t);
        (q, q)
    } else {
        assert(before.take(1) =~= cs.take(1));
        assert forall|i: int| 0 <= i < before.len() implies kills_at_point((#[trigger] before[i]).0)
            && known(e, before[i].0) by {
            assert(before[i] == cs[i]);
        }
        lemma_run(e, before)
    };
    let r = ran(e, before);
    let r0 = EditorModel { prefix: p, ..r };
    let r1 = command_begun(r0, name_of(c));
    let y = BufferModel { undo: bounded(cur_buf(r1).undo), ..cur_buf(r1) };
    lemma_wf_same(r, r1);
    lemma_with_buf(r1, y);
    let r2 = boundary_set(r1);
    assert(cur_point(r2) == cur_point(r));
    assert(cutting(e, r2, a, b));
    let (a1, b1) = lemma_one_kill(e, r2, a, b, c, prefix_value(p));
    let f = native_done(r2, c, prefix_value(p)).0;
    let g = command_ended(f);
    lemma_wf_same(f, g);
    assert(executed(r0, name_of(c)).0 == g);
    assert(ran(e, cs) == g);
    assert(cutting(e, g, a1, b1));
    assert(is_kill(name_of(c)));
    if before.len() == 0 {
        assert(cs.take(1) =~= cs);
        if a1 == b1 {
            assert(t.take(a1) + t.skip(b1) =~= t);
        }
    }
    (a1, b1)
}

/// Kills in a row are one kill, in the order of the text: after any run of
/// kill-word, backward-kill-word and kill-line, with any counts, of which the
/// first killed something and which does not itself follow a kill, a stretch of
/// the text around the old point is cut out, and the newest kill is that stretch.
pub proof fn law_kills_in_a_row(e: EditorModel, cs: Seq<(NativeCmd, PrefixArg)>)
    requires
        wf(e),
        counted(e),
        !cur_buf(e).read_only,
        !after_kill(e),
        cs.len() > 0,
        forall|i: int|
            0 <= i < cs.len() ==> kills_at_point((#[trigger] cs[i]).0) && known(e, cs[i].0),
        cur_buf(ran(e, cs.take(1))).text != cur_buf(e).text,
    ensures
        exists|a: int, b: int|
            a <= cur_point(e) <= b && a < b && #[trigger] cut_out(e, ran(e, cs), a, b),
{
    let (a, b) = lemma_run(e, cs);
    crate::killring::law_yank_takes_kill(e.kill_ring, cur_buf(e).text.subrange(a, b));
    assert(cut_out(e, ran(e, cs), a, b));
}

proof fn lemma_yank_at(r: EditorModel, text: Seq<char>)
    requires
        wf(r),
        !cur_buf(r).read_only,
        r.kill_ring.turned == 0,
        yanked(r.kill_ring) == Some(text),
    ensures
        ({
            let f = native_done(r, NativeCmd::Yank, None).0;
            let t = cur_buf(r).text;
            let p = cur_point(r);
            &&& wf(f)
            &&& cur_buf(f).text == t.take(p) + text + t.skip(p)
            &&& only_here(r, f)
            &&& cur_win(f).point == (p + text.len()) as usize
        }),
{
    lemma_yank_commands(r, None);
    let p = cur_point(r);
    let t = cur_buf(r).text;
    let b = inserted(cur_buf(r), p, text);
    let r1 = EditorModel { kill_ring: RingModel { turned: 0, ..r.kill_ring }, ..r };
    assert(r1 =~= r);
    lemma_put_here(r, at_point(r, p + text.len()), b);
    assert(b.text =~= t.take(p) + text + t.skip(p));
    let f = native_done(r, NativeCmd::Yank, None).0;
    lemma_wf_same(edit_cur(r, p + text.len(), b), f);
}

/// A run of kills and then a yank gives back the text.
pub proof fn law_kills_then_yank(e: EditorModel, cs: Seq<(NativeCmd, PrefixArg)>)
    requires
        wf(e),
        counted(e),
        !cur_buf(e).read_only,
        !after_kill(e),
        cs.len() > 0,
        forall|i: int|
            0 <= i < cs.len() ==> kills_at_point((#[trigger] cs[i]).0) && known(e, cs[i].0),
        cur_buf(ran(e, cs.take(1))).text != cur_buf(e).text,
    ensures
        cur_buf(native_done(ran(e, cs), NativeCmd::Yank, None).0).text == cur_buf(e).text,
{
    let (a, b) = lemma_run(e, cs);
    let t = cur_buf(e).text;
    let r = ran(e, cs);
    crate::killring::law_yank_takes_kill(e.kill_ring, t.subrange(a, b));
    lemma_yank_at(r, t.subrange(a, b));
    assert((t.take(a) + t.skip(b)).take(a) + t.subrange(a, b) + (t.take(a) + t.skip(b)).skip(a)
        =~= t);
}

// ---- single kills ----------------------------------------------------------

/// kill-word kills what forward-word moves over, backward-kill-word what
/// backward-word moves over, and kill-line what end-of-line moves over, or the
/// char at the end of the line where there is nothing before it.
pub proof fn law_kill_is_motion(e: EditorModel)
    requires
        wf(e),
        counted(e),
        !cur_buf(e).read_only,
        !after_kill(e),
    ensures
        ({
            let t = cur_buf(e).text;
            let p = cur_point(e);
            let word = cur_point(native_done(e, NativeCmd::ForwardWord, None).0);
            let back = cur_point(native_done(e, NativeCmd::BackwardWord, None).0);
            let line = cur_point(native_done(e, NativeCmd::EndOfLine, None).0);
            &&& cut_out(e, native_done(e, NativeCmd::KillWord, None).0, p, word)
            &&& cut_out(e, native_done(e, NativeCmd::BackwardKillWord, None).0, back, p)
            &&& p < t.len() ==> cut_out(
                e,
                native_done(e, NativeCmd::KillLine, None).0,
                p,
                if line > p {
                    line
                } else {
                    p + 1
                },
            )
            &&& p == t.len() ==> cur_buf(native_done(e, NativeCmd::KillLine, None).0) == cur_buf(e)
        }),
{
    lemma_kill_commands(e, None);
    lemma_motion_commands(e, None);
    lemma_motion_far_commands(e, None);
    let t = cur_buf(e).text;
    let p = cur_point(e);
    law_word_bounds(t, p);
    lemma_line_ends(t, p);
    assert(t.take(p) + t.skip(p) =~= t);
    assert(cutting(e, e, p, p));
    let end = word_end(t, p);
    let start = word_start(t, p);
    let eol = end_at(t, p);
    reveal_with_fuel(crate::commands::movement::word_ends, 2);
    reveal_with_fuel(crate::commands::movement::word_starts, 2);
    lemma_put(e, at_point(e, end), cur_buf(e));
    lemma_put(e, at_point(e, start), cur_buf(e));
    lemma_put(e, at_point(e, eol), cur_buf(e));
    lemma_put(e, at_point(e, p), cur_buf(e));
    reveal_with_fuel(words_killed, 2);
    reveal_with_fuel(words_killed_back, 2);
    if end > p {
        lemma_cut_after(e, e, p, p, end);
        crate::killring::law_yank_takes_kill(e.kill_ring, t.subrange(p, end));
    }
    if start < p {
        lemma_cut_before(e, e, p, p, start);
        crate::killring::law_yank_takes_kill(e.kill_ring, t.subrange(start, p));
    }
    if p < t.len() {
        let to = clip(t, crate::commands::ring::kill_end(t, p));
        lemma_cut_after(e, e, p, p, to);
        crate::killring::law_yank_takes_kill(e.kill_ring, t.subrange(p, to));
    }
}

/// Killing the region cuts it out, and copying it leaves the text; both make it
/// the newest kill and give up the region.
pub proof fn law_region_taken(e: EditorModel)
    requires
        wf(e),
        counted(e),
        !cur_buf(e).read_only,
        !after_kill(e),
        match cur_buf(e).mark {
            Some(m) => cur_buf(e).mark_active && m <= cur_buf(e).text.len() && m != cur_point(e),
            None => false,
        },
    ensures
        ({
            let m = cur_buf(e).mark->0 as int;
            let p = cur_point(e);
            let a = min(m, p);
            let b = max(m, p);
            let k = native_done(e, NativeCmd::KillRegion, None).0;
            let c = native_done(e, NativeCmd::KillRingSave, None).0;
            &&& cut_out(e, k, a, b)
            &&& only_here(e, k)
            &&& !cur_buf(k).mark_active
            &&& cur_buf(c) == (BufferModel { mark_active: false, ..cur_buf(e) })
            &&& cur_point(c) == p
            &&& only_here(e, c)
            &&& yanked(c.kill_ring) == Some(cur_buf(e).text.subrange(a, b))
        }),
{
    lemma_kill_commands(e, None);
    let x = cur_buf(e);
    let t = x.text;
    let p = cur_point(e);
    let m = x.mark->0 as int;
    let a = min(m, p);
    let b = max(m, p);
    let y = removed(x, a, b);
    lemma_put_here(e, at_point(e, a), y);
    assert(y.text =~= t.take(a) + t.skip(b));
    assert(part(t, a, b) =~= t.subrange(a, b));
    crate::killring::law_yank_takes_kill(e.kill_ring, t.subrange(a, b));
    let z = BufferModel { mark_active: false, ..x };
    lemma_put_here(e, at_point(e, p), z);
}

// ---- yanking ---------------------------------------------------------------

/// A yank puts the newest kill in at point, which goes behind it, and takes
/// nothing out; without a kill it changes no text.
pub proof fn law_yank_inserts(e: EditorModel)
    requires
        wf(e),
        !cur_buf(e).read_only,
    ensures
        ({
            let t = cur_buf(e).text;
            let p = cur_point(e);
            let r = native_done(e, NativeCmd::Yank, None).0;
            let n = e.kill_ring.entries.len();
            if n > 0 {
                let text = e.kill_ring.entries[n - 1];
                &&& cur_buf(r).text == t.take(p) + text + t.skip(p)
                &&& cur_win(r).point == (p + text.len()) as usize
                &&& only_here(e, r)
                &&& r.kill_ring.entries == e.kill_ring.entries
            } else {
                r.buffers == e.buffers && r.windows == e.windows
            }
        }),
{
    lemma_yank_commands(e, None);
    let n = e.kill_ring.entries.len() as int;
    let e1 = EditorModel { kill_ring: RingModel { turned: 0, ..e.kill_ring }, ..e };
    lemma_wf_same(e, e1);
    if n > 0 {
        vstd::arithmetic::div_mod::lemma_small_mod(0, n as nat);
        lemma_yank_commands(e1, None);
        lemma_yank_at(e1, e.kill_ring.entries[n - 1]);
        assert(native_done(e1, NativeCmd::Yank, None).0 == native_done(
            e,
            NativeCmd::Yank,
            None,
        ).0);
    }
}

/// The editor after a yank and `k` times yank-pop.
pub open spec fn popped(e: EditorModel, k: nat) -> EditorModel
    decreases k,
{
    if k == 0 {
        EditorModel {
            last_command: Some("yank"@),
            ..native_done(e, NativeCmd::Yank, None).0
        }
    } else {
        EditorModel {
            last_command: Some("yank-pop"@),
            ..native_done(popped(e, (k - 1) as nat), NativeCmd::YankPop, None).0
        }
    }
}

/// Whether an editor is another one with the kill `j` before the newest put in at
/// point, which is behind it, as the last yank.
pub open spec fn yanked_as(e: EditorModel, r: EditorModel, j: int) -> bool {
    let t = cur_buf(e).text;
    let p = cur_point(e);
    let text = e.kill_ring.entries[e.kill_ring.entries.len() - 1 - j];
    &&& cur_buf(r).text == t.take(p) + text + t.skip(p)
    &&& cur_win(r).point == p + text.len()
    &&& r.last_yank == Some((p as usize, (p + text.len()) as usize))
    &&& r.kill_ring == (RingModel { turned: j, ..e.kill_ring })
}

spec fn roomy(e: EditorModel) -> bool {
    forall|i: int|
        0 <= i < e.kill_ring.entries.len() ==> cur_buf(e).text.len() + (
        #[trigger] e.kill_ring.entries[i]).len() <= usize::MAX
}

proof fn lemma_popped_first(e: EditorModel)
    requires
        wf(e),
        !cur_buf(e).read_only,
        e.kill_ring.entries.len() > 0,
        roomy(e),
    ensures
        wf(popped(e, 0)),
        !cur_buf(popped(e, 0)).read_only,
        yanked_as(e, popped(e, 0), 0),
{
    let t = cur_buf(e).text;
    let p = cur_point(e);
    let n = e.kill_ring.entries.len() as int;
    vstd::arithmetic::div_mod::lemma_small_mod(0, n as nat);
    lemma_yank_commands(e, None);
    let e1 = EditorModel { kill_ring: RingModel { turned: 0, ..e.kill_ring }, ..e };
    lemma_wf_same(e, e1);
    let text = e.kill_ring.entries[n - 1];
    let b = inserted(cur_buf(e), p, text);
    lemma_put(e1, at_point(e1, p + text.len()), b);
    assert(b.text =~= t.take(p) + text + t.skip(p));
    lemma_wf_same(edit_cur(e1, p + text.len(), b), popped(e, 0));
    assert(cur_buf(popped(e, 0)) == b);
}

proof fn lemma_popped_next(e: EditorModel, q: EditorModel, j: int)
    requires
        roomy(e),
        wf(q),
        !cur_buf(q).read_only,
        after_yank(q),
        0 <= j < e.kill_ring.entries.len(),
        yanked_as(e, q, j),
    ensures
        ({
            let r = native_done(q, NativeCmd::YankPop, None).0;
            &&& wf(r)
            &&& !cur_buf(r).read_only
            &&& yanked_as(e, r, (j + 1) % (e.kill_ring.entries.len() as int))
        }),
{
    let t = cur_buf(e).text;
    let p = cur_point(e);
    let n = e.kill_ring.entries.len() as int;
    lemma_yank_commands(q, None);
    let was = e.kill_ring.entries[n - 1 - j];
    let q1 = EditorModel { kill_ring: rotated(q.kill_ring), ..q };
    lemma_wf_same(q, q1);
    let j1 = (j + 1) % n;
    vstd::arithmetic::div_mod::lemma_mod_bound(j + 1, n);
    vstd::arithmetic::div_mod::lemma_small_mod(j1 as nat, n as nat);
    let text = e.kill_ring.entries[n - 1 - j1];
    assert(yanked(q1.kill_ring) == Some(text));
    let end = p + was.len();
    let x = cur_buf(q);
    let y = removed(x, p, end);
    assert(y.text =~= t);
    let b = inserted(y, p, text);
    assert(b.text =~= t.take(p) + text + t.skip(p));
    lemma_put(q1, at_point(q1, p + text.len()), b);
    let r = native_done(q, NativeCmd::YankPop, None).0;
    lemma_wf_same(edit_cur(q1, p + text.len(), b), r);
    assert(cur_buf(r) == b);
}

/// After a yank, each yank-pop puts the next older kill in the place of the one
/// before, after the oldest the newest: the text is as if that kill had been
/// yanked in the first place.
pub proof fn law_yank_pop_rotates(e: EditorModel, k: nat)
    requires
        wf(e),
        !cur_buf(e).read_only,
        e.kill_ring.entries.len() > 0,
        forall|i: int|
            0 <= i < e.kill_ring.entries.len() ==> cur_buf(e).text.len() + (
            #[trigger] e.kill_ring.entries[i]).len() <= usize::MAX,
    ensures
        wf(popped(e, k)),
        !cur_buf(popped(e, k)).read_only,
        yanked_as(e, popped(e, k), k as int % (e.kill_ring.entries.len() as int)),
    decreases k,
{
    let n = e.kill_ring.entries.len() as int;
    if k == 0 {
        vstd::arithmetic::div_mod::lemma_small_mod(0, n as nat);
        lemma_popped_first(e);
    } else {
        let q = popped(e, (k - 1) as nat);
        law_yank_pop_rotates(e, (k - 1) as nat);
        let j = (k - 1) % n;
        vstd::arithmetic::div_mod::lemma_mod_bound(k - 1, n);
        lemma_popped_next(e, q, j);
        vstd::arithmetic::div_mod::lemma_add_mod_noop(k - 1, 1, n);
        vstd::arithmetic::div_mod::lemma_add_mod_noop(j, 1, n);
        vstd::arithmetic::div_mod::lemma_mod_twice(k - 1, n);
        assert((j + 1) % n == k as int % n);
        let r = native_done(q, NativeCmd::YankPop, None).0;
        lemma_wf_same(r, popped(e, k));
        assert(cur_buf(popped(e, k)) == cur_buf(r));
    }
}

} // verus!
