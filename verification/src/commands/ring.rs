//! Region, kill-ring and yank commands.

use crate::buffer::{inserted, part, region_of, removed, BufferModel};
use crate::commands::basic::{check_editable, count, refused, times};
use crate::commands::movement::{word_end, word_end_after, word_start, word_start_before};
use crate::editor::{
    at_point, clamped, cur_buf, cur_point, cur_win, edit_cur, lemma_put, lemma_wf_same, said, wf,
    Editor, EditorModel,
};
use crate::killring::{grown, grown_front, pushed, rotated, yanked, RingModel};
use crate::lines::end_at;
use crate::rope::rope_slice;
use crate::strings::{copy, same};
use vstd::prelude::*;

verus! {

/// Whether a command name is one of the commands that kill text.
pub open spec fn is_kill(name: Seq<char>) -> bool {
    ||| name == "kill-line"@
    ||| name == "kill-word"@
    ||| name == "backward-kill-word"@
    ||| name == "kill-region"@
}

/// Whether the last command killed text.
pub open spec fn after_kill(e: EditorModel) -> bool {
    match e.last_command {
        Some(name) => is_kill(name),
        None => false,
    }
}

/// Whether the last command yanked text.
pub open spec fn after_yank(e: EditorModel) -> bool {
    match e.last_command {
        Some(name) => name == "yank"@ || name == "yank-pop"@,
        None => false,
    }
}

fn last_was_kill(ed: &Editor) -> (b: bool)
    ensures
        b == after_kill(ed@),
{
    match &ed.last_command {
        Some(c) => same(c.as_str(), "kill-line") || same(c.as_str(), "kill-word") || same(
            c.as_str(),
            "backward-kill-word",
        ) || same(c.as_str(), "kill-region"),
        None => false,
    }
}

fn last_was_yank(ed: &Editor) -> (b: bool)
    ensures
        b == after_yank(ed@),
{
    match &ed.last_command {
        Some(c) => same(c.as_str(), "yank") || same(c.as_str(), "yank-pop"),
        None => false,
    }
}

/// The editor with a kill added to the ring, joined with the last one or not.
pub open spec fn killed(e: EditorModel, text: Seq<char>, join: bool) -> EditorModel {
    EditorModel {
        kill_ring: if join {
            grown(e.kill_ring, text)
        } else {
            pushed(e.kill_ring, text)
        },
        ..e
    }
}

/// The editor with a kill added to the ring, joined before the last one or
/// not.
pub open spec fn killed_back(e: EditorModel, text: Seq<char>, join: bool) -> EditorModel {
    EditorModel {
        kill_ring: if join {
            grown_front(e.kill_ring, text)
        } else {
            pushed(e.kill_ring, text)
        },
        ..e
    }
}

fn add_kill(ed: &mut Editor, text: String, join: bool)
    requires
        wf(old(ed)@),
    ensures
        final(ed)@ == killed(old(ed)@, text@, join),
        wf(final(ed)@),
{
    if join {
        ed.kill_ring.append(text.as_str());
    } else {
        ed.kill_ring.push(text);
    }
    proof {
        lemma_wf_same(old(ed)@, ed@);
    }
}

fn add_kill_back(ed: &mut Editor, text: String, join: bool)
    requires
        wf(old(ed)@),
    ensures
        final(ed)@ == killed_back(old(ed)@, text@, join),
        wf(final(ed)@),
{
    if join {
        ed.kill_ring.prepend(text.as_str());
    } else {
        ed.kill_ring.push(text);
    }
    proof {
        lemma_wf_same(old(ed)@, ed@);
    }
}

// ---- mark and region -------------------------------------------------------

/// The editor with the mark set at point and active.
pub open spec fn marked(e: EditorModel) -> EditorModel {
    edit_cur(
        e,
        cur_point(e),
        BufferModel { mark: Some(cur_point(e) as usize), mark_active: true, ..cur_buf(e) },
    )
}

/// The editor after set-mark-command.
pub open spec fn mark_set(e: EditorModel) -> EditorModel {
    said(EditorModel { rect_mode: false, ..marked(e) }, "Mark set"@)
}

pub fn set_mark_command(ed: &mut Editor, _n: Option<u32>)
    requires
        wf(old(ed)@),
    ensures
        final(ed)@ == mark_set(old(ed)@),
        wf(final(ed)@),
{
    let ghost e = ed@;
    let (win, buf) = ed.cur();
    buf.mark = Some(win.point);
    buf.mark_active = true;
    assert(ed@ == marked(e));
    ed.rect_mode = false;
    proof {
        lemma_wf_same(marked(e), ed@);
    }
    ed.message("Mark set");
}

/// The message where there is no region.
pub open spec fn no_region(e: EditorModel) -> EditorModel {
    said(clamped(e), "The mark is not set now, so there is no region"@)
}

/// The editor with the region copied to the kill ring.
pub open spec fn region_saved(e: EditorModel) -> EditorModel {
    let b = cur_buf(e);
    match region_of(b, cur_point(e)) {
        Some((start, end)) => said(
            killed(
                edit_cur(e, cur_point(e), BufferModel { mark_active: false, ..b }),
                b.text.subrange(start, end),
                false,
            ),
            "Region copied"@,
        ),
        None => no_region(e),
    }
}

/// Whether the region, if there is one, lies in the text: the mark may have
/// been left behind by a shorter text.
pub open spec fn region_in_text(e: EditorModel) -> bool {
    match region_of(cur_buf(e), cur_point(e)) {
        Some((start, end)) => end <= cur_buf(e).text.len(),
        None => true,
    }
}

/// Copy the region to the kill ring.
pub fn kill_ring_save(ed: &mut Editor, _n: Option<u32>)
    requires
        wf(old(ed)@),
        region_in_text(old(ed)@),
    ensures
        final(ed)@ == region_saved(old(ed)@),
        wf(final(ed)@),
{
    let ghost e = ed@;
    let (win, buf) = ed.cur();
    match buf.region(win.point) {
        Some((start, end)) => {
            let text = rope_slice(&buf.rope, start, end);
            buf.mark_active = false;
            add_kill(ed, text, false);
            ed.message("Region copied");
        },
        None => {
            assert(ed@ == clamped(e));
            ed.message("The mark is not set now, so there is no region");
        },
    }
}

/// The editor with the region killed.
pub open spec fn region_killed(e: EditorModel) -> EditorModel {
    let b = cur_buf(e);
    if b.read_only {
        refused(e)
    } else {
        match region_of(b, cur_point(e)) {
            Some((start, end)) => killed(
                edit_cur(e, start, removed(b, start, end)),
                part(b.text, start, end),
                after_kill(e),
            ),
            None => no_region(e),
        }
    }
}

/// Kill (cut) the region.
pub fn kill_region(ed: &mut Editor, _n: Option<u32>)
    requires
        wf(old(ed)@),
    ensures
        final(ed)@ == region_killed(old(ed)@),
        wf(final(ed)@),
{
    let ghost e = ed@;
    if !check_editable(ed) {
        return ;
    }
    let join = last_was_kill(ed);
    let (win, buf) = ed.cur();
    match buf.region(win.point) {
        Some((start, end)) => {
            let text = buf.remove(start, end);
            win.point = start;
            add_kill(ed, text, join);
        },
        None => {
            assert(ed@ == clamped(e));
            ed.message("The mark is not set now, so there is no region");
        },
    }
}

// ---- yanking ---------------------------------------------------------------

/// The editor with the newest kill inserted at point.
pub open spec fn yank_done(e: EditorModel) -> EditorModel {
    let b = cur_buf(e);
    let p = cur_point(e);
    let e1 = EditorModel { kill_ring: RingModel { turned: 0, ..e.kill_ring }, ..e };
    if b.read_only {
        refused(e)
    } else {
        match yanked(e1.kill_ring) {
            Some(text) => EditorModel {
                last_yank: Some((p as usize, (p + text.len()) as usize)),
                ..edit_cur(e1, p + text.len(), inserted(b, p, text))
            },
            None => said(e1, "Kill ring is empty"@),
        }
    }
}

/// Yank (paste) the most recent kill.
pub fn yank(ed: &mut Editor, _n: Option<u32>)
    requires
        wf(old(ed)@),
    ensures
        final(ed)@ == yank_done(old(ed)@),
        wf(final(ed)@),
{
    let ghost e = ed@;
    if !check_editable(ed) {
        return ;
    }
    ed.kill_ring.reset_rotation();
    let ghost e1 = ed@;
    proof {
        lemma_wf_same(e, e1);
    }
    let text = match ed.kill_ring.yank() {
        Some(s) => copy(s),
        None => {
            ed.message("Kill ring is empty");
            return ;
        },
    };
    let (win, buf) = ed.cur();
    let start: usize = win.point;
    buf.insert(start, text.as_str());
    let k: usize = text.as_str().unicode_len();
    let len: usize = buf.len_chars();
    assert(start + k <= len);
    win.point = start + k;
    let end: usize = win.point;
    let ghost e2 = ed@;
    ed.last_yank = Some((start, end));
    proof {
        lemma_wf_same(e2, ed@);
    }
}

/// The editor with the text of the last yank replaced by the kill before.
pub open spec fn yank_popped(e: EditorModel) -> EditorModel {
    let b = cur_buf(e);
    let e1 = EditorModel { kill_ring: rotated(e.kill_ring), ..e };
    match e.last_yank {
        Some((start, end)) => if !after_yank(e) {
            said(e, "Previous command was not a yank"@)
        } else if b.read_only {
            refused(e)
        } else {
            match yanked(e1.kill_ring) {
                Some(text) => EditorModel {
                    last_yank: Some((start, (start + text.len()) as usize)),
                    ..edit_cur(
                        e1,
                        start + text.len(),
                        inserted(removed(b, start as int, end as int), start as int, text),
                    )
                },
                None => said(e1, "Kill ring is empty"@),
            }
        },
        None => said(e, "Previous command was not a yank"@),
    }
}

/// Whether the end of the text that yank-pop puts in can be counted: the last
/// yank may lie behind the end of a text that was replaced since.
pub open spec fn yank_pop_ok(e: EditorModel) -> bool {
    match (e.last_yank, yanked(rotated(e.kill_ring))) {
        (Some((start, end)), Some(text)) => start + text.len() <= usize::MAX,
        _ => true,
    }
}

/// Replace the just-yanked text with the previous kill.
pub fn yank_pop(ed: &mut Editor, _n: Option<u32>)
    requires
        wf(old(ed)@),
        yank_pop_ok(old(ed)@),
    ensures
        final(ed)@ == yank_popped(old(ed)@),
        wf(final(ed)@),
{
    let ghost e = ed@;
    let (start, end) = match ed.last_yank {
        Some((s, t)) => (s, t),
        None => {
            ed.message("Previous command was not a yank");
            return ;
        },
    };
    if !last_was_yank(ed) {
        ed.message("Previous command was not a yank");
        return ;
    }
    if !check_editable(ed) {
        return ;
    }
    let popped: Option<String> = match ed.kill_ring.yank_pop() {
        Some(s) => Some(copy(s)),
        None => None,
    };
    let ghost e1 = ed@;
    proof {
        assert(e1 =~= (EditorModel { kill_ring: rotated(e.kill_ring), ..e }));
        lemma_wf_same(e, e1);
    }
    let text = match popped {
        Some(s) => s,
        None => {
            ed.message("Kill ring is empty");
            return ;
        },
    };
    let k: usize = text.as_str().unicode_len();
    let (win, buf) = ed.cur();
    buf.remove(start, end);
    buf.insert(start, text.as_str());
    win.point = start + k;
    let ghost e2 = ed@;
    ed.last_yank = Some((start, start + k));
    proof {
        lemma_wf_same(e2, ed@);
    }
}

// ---- killing ---------------------------------------------------------------

/// The editor after up to `n` words after point are killed into one entry.
pub open spec fn words_killed(e: EditorModel, n: int, join: bool) -> EditorModel
    decreases n,
{
    let b = cur_buf(e);
    let p = cur_point(e);
    let end = word_end(b.text, p);
    if n <= 0 {
        e
    } else if end == p {
        clamped(e)
    } else {
        words_killed(
            killed(edit_cur(e, p, removed(b, p, end)), part(b.text, p, end), join),
            n - 1,
            true,
        )
    }
}

/// The editor after kill-word.
pub open spec fn word_killed(e: EditorModel, n: Option<u32>) -> EditorModel {
    if cur_buf(e).read_only {
        refused(e)
    } else {
        words_killed(e, times(n), after_kill(e))
    }
}

/// Kill the word starting at point.
pub fn kill_word(ed: &mut Editor, n: Option<u32>)
    requires
        wf(old(ed)@),
    ensures
        final(ed)@ == word_killed(old(ed)@, n),
        wf(final(ed)@),
{
    let ghost e = ed@;
    if !check_editable(ed) {
        return ;
    }
    let join = last_was_kill(ed);
    let k: u32 = count(n);
    let mut i: u32 = 0;
    while i < k
        invariant
            i <= k,
            wf(ed@),
            words_killed(e, k as int, join) == words_killed(ed@, k - i, join || i > 0),
            e == old(ed)@,
            k == times(n),
            !cur_buf(e).read_only,
            join == after_kill(e),
        decreases k - i,
    {
        let ghost now = ed@;
        let (win, buf) = ed.cur();
        let end: usize = word_end_after(buf, win.point);
        if end == win.point {
            return ;
        }
        let text = buf.remove(win.point, end);
        add_kill(ed, text, join || i > 0);
        i = i + 1;
    }
}

/// The editor after up to `n` words before point are killed into one entry.
pub open spec fn words_killed_back(e: EditorModel, n: int, join: bool) -> EditorModel
    decreases n,
{
    let b = cur_buf(e);
    let p = cur_point(e);
    let start = word_start(b.text, p);
    if n <= 0 {
        e
    } else if start == p {
        clamped(e)
    } else {
        words_killed_back(
            killed_back(edit_cur(e, start, removed(b, start, p)), part(b.text, start, p), join),
            n - 1,
            true,
        )
    }
}

/// The editor after backward-kill-word.
pub open spec fn word_killed_back(e: EditorModel, n: Option<u32>) -> EditorModel {
    if cur_buf(e).read_only {
        refused(e)
    } else {
        words_killed_back(e, times(n), after_kill(e))
    }
}

/// Kill the word before point.
pub fn backward_kill_word(ed: &mut Editor, n: Option<u32>)
    requires
        wf(old(ed)@),
    ensures
        final(ed)@ == word_killed_back(old(ed)@, n),
        wf(final(ed)@),
{
    let ghost e = ed@;
    if !check_editable(ed) {
        return ;
    }
    let join = last_was_kill(ed);
    let k: u32 = count(n);
    let mut i: u32 = 0;
    while i < k
        invariant
            i <= k,
            wf(ed@),
            words_killed_back(e, k as int, join) == words_killed_back(ed@, k - i, join || i > 0),
            e == old(ed)@,
            k == times(n),
            !cur_buf(e).read_only,
            join == after_kill(e),
        decreases k - i,
    {
        let ghost now = ed@;
        let (win, buf) = ed.cur();
        let start: usize = word_start_before(buf, win.point);
        if start == win.point {
            return ;
        }
        let text = buf.remove(start, win.point);
        win.point = start;
        add_kill_back(ed, text, join || i > 0);
        i = i + 1;
    }
}

/// The end of what kill-line kills: the end of the line, or at the end of a
/// line the char after it, which joins the lines.
pub open spec fn kill_end(t: Seq<char>, p: int) -> int {
    if p == end_at(t, p) {
        p + 1
    } else {
        end_at(t, p)
    }
}

/// The editor after kill-line.
pub open spec fn line_killed(e: EditorModel) -> EditorModel {
    let b = cur_buf(e);
    let p = cur_point(e);
    let end = kill_end(b.text, p);
    if b.read_only {
        refused(e)
    } else if p >= b.text.len() {
        said(clamped(e), "End of buffer"@)
    } else {
        killed(edit_cur(e, p, removed(b, p, end)), part(b.text, p, end), after_kill(e))
    }
}

/// Kill from point to the end of the line.
pub fn kill_line(ed: &mut Editor, _n: Option<u32>)
    requires
        wf(old(ed)@),
    ensures
        final(ed)@ == line_killed(old(ed)@),
        wf(final(ed)@),
{
    let ghost e = ed@;
    if !check_editable(ed) {
        return ;
    }
    let join = last_was_kill(ed);
    let (win, buf) = ed.cur();
    let len: usize = buf.len_chars();
    if win.point >= len {
        assert(ed@ == clamped(e));
        ed.message("End of buffer");
        return ;
    }
    let eol: usize = buf.line_end(win.point);
    // At end of line, kill the newline instead (joining lines).
    let end: usize = if win.point == eol {
        eol + 1
    } else {
        eol
    };
    let text = buf.remove(win.point, end);
    add_kill(ed, text, join);
}

// ---- laws ------------------------------------------------------------------

/// Killing the region and yanking it back gives back the text, where the
/// region lies in the text and holds something.
pub proof fn law_kill_then_yank(e: EditorModel)
    requires
        wf(e),
        !cur_buf(e).read_only,
        !after_kill(e),
        region_in_text(e),
        match region_of(cur_buf(e), cur_point(e)) {
            Some((start, end)) => start < end,
            None => false,
        },
        cur_buf(e).text.len() <= usize::MAX,
    ensures
        wf(region_killed(e)),
        cur_buf(yank_done(region_killed(e))).text == cur_buf(e).text,
{
    let b = cur_buf(e);
    let p = cur_point(e);
    let (start, end) = region_of(b, p)->0;
    let b1 = removed(b, start, end);
    let k = region_killed(e);
    lemma_put(e, at_point(e, start), b1);
    let q = edit_cur(e, start, b1);
    lemma_wf_same(q, k);
    assert(cur_buf(k) == b1);
    assert(cur_win(k).point == start);
    let text = part(b.text, start, end);
    crate::killring::law_yank_takes_kill(e.kill_ring, text);
    assert(yanked(RingModel { turned: 0, ..k.kill_ring }) == Some(text));
    let k1 = EditorModel { kill_ring: RingModel { turned: 0, ..k.kill_ring }, ..k };
    lemma_wf_same(k, k1);
    assert(cur_point(k) == start);
    let b2 = inserted(b1, start, text);
    lemma_put(k1, at_point(k1, start + text.len()), b2);
    assert(b2.text =~= b.text);
}

} // verus!
