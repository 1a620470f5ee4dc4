//! What the keys of a terminal and the queue of actions mean.

use crate::editor::EditorModel;
use crate::keyloop::{drained, hook_of, key_taken, DRAIN_LIMIT};
use crate::keys::{event_chord, Chord, Key, KeyCode, KeyEvent};
use vstd::prelude::*;

verus! {

/// A bare ESC gives no chord and makes the next key a Meta key, once: that key gives the
/// chord that it gives with Alt held down. Keys that go up change nothing.
pub proof fn law_escape_is_meta(esc: KeyEvent, k: KeyEvent, before: bool)
    requires
        esc.code == KeyCode::Esc,
        !esc.release,
        k.code != KeyCode::Esc,
    ensures
        key_taken(before, esc) == (true, None::<Chord>),
        k.release ==> key_taken(before, k) == (before, None::<Chord>),
        !k.release ==> {
            &&& !key_taken(true, k).0 && !key_taken(false, k).0
            &&& key_taken(true, k).1 == key_taken(false, KeyEvent { alt: true, ..k }).1
            &&& key_taken(true, k).1 is Some ==> (key_taken(true, k).1->0).meta
            &&& key_taken(false, k).1 is Some ==> (key_taken(false, k).1->0).meta == k.alt
        },
{
}

/// A plain char gives itself, a space the space key; with Ctrl held down letters give
/// their lower case, what C-/ and C-SPC arrive as gives those, and so does the NUL byte
/// for the latter.
pub proof fn law_chars_normalized(c: char, k: KeyEvent)
    requires
        !k.release,
        k.code == KeyCode::Char(c),
    ensures
        ({
            let r = event_chord(k, false);
            &&& r is Some && (r->0).ctrl == k.ctrl
            &&& !k.ctrl && c != ' ' ==> (r->0).key == Key::Char(c)
            &&& c == ' ' ==> (r->0).key == Key::Space
            &&& k.ctrl && 'a' <= c && c <= 'z' ==> (r->0).key == Key::Char(c)
            &&& k.ctrl && 'A' <= c && c <= 'Z' ==> (r->0).key == Key::Char(
                (c as u32 + 32) as char,
            )
            &&& k.ctrl && (c == '_' || c == '7' || c == '/') ==> (r->0).key == Key::Char('/')
            &&& k.ctrl && (c == '@' || c == '2') ==> (r->0).key == Key::Space
            &&& event_chord(KeyEvent { code: KeyCode::Null, ..k }, false) == Some(
                Chord { ctrl: true, meta: k.alt, key: Key::Space },
            )
        }),
{
}

/// The hook for a new prompt is run when a prompt comes up, the one after commands while it
/// stays up, and the one for its end when it goes; without a prompt none is run.
pub proof fn law_prompt_hooks()
    ensures
        hook_of(false, true) == Some("minibuffer-setup-hook"@),
        hook_of(true, true) == Some("post-command-hook"@),
        hook_of(true, false) == Some("minibuffer-exit-hook"@),
        hook_of(false, false) is None,
{
}

/// Queued actions are run one by one, oldest first, and each once, as long as a hundred
/// of them were not run in a row; then the rest stays queued.
pub proof fn law_queue_drained(e: EditorModel, done: int)
    ensures
        ({
            let (r, a) = drained(e, done);
            if done >= 100 {
                a is None && r.deferred == e.deferred
            } else if e.deferred.len() == 0 {
                a is None && r == e
            } else {
                &&& a is Some
                &&& seq![a->0] + r.deferred == e.deferred
                &&& r == (EditorModel { deferred: r.deferred, ..e })
            }
        }),
{
    if done < DRAIN_LIMIT && e.deferred.len() > 0 {
        assert(seq![e.deferred[0]] + e.deferred.drop_first() =~= e.deferred);
    }
}

} // verus!
