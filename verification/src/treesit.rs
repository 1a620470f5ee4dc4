//! Highlight state of a buffer whose language has a tree-sitter grammar.

use crate::bytes::{byte_len, byte_offset, char_at_byte};
use crate::lines::clip;
use crate::rope::{rope_byte_of, rope_char_of, rope_string, rope_text};
use crate::seqs::models;
use crate::strings::{copy, same, views};
use ropey::Rope;
use tree_sitter::{Language, Parser, Tree};
use tree_sitter_highlight::{HighlightConfiguration, HighlightEvent, Highlighter};
use vstd::prelude::*;

verus! {

/// `tree_sitter_highlight::HighlightConfiguration`: a grammar with its
/// queries, carried through.
#[verifier::external_type_specification]
#[verifier::external_body]
pub struct ExHighlightConfiguration(HighlightConfiguration);

/// `tree_sitter::Language`: a loaded grammar, carried through.
#[verifier::external_type_specification]
#[verifier::external_body]
pub struct ExLanguage(Language);

/// `tree_sitter::Tree`: a parsed text, carried through.
#[verifier::external_type_specification]
#[verifier::external_body]
pub struct ExTree(Tree);

/// A grammar that was installed, with its queries.
pub struct TreesitLanguage {
    pub language: Language,
    pub highlights_query: String,
    pub injections_query: String,
}

/// What an installed grammar holds.
pub struct LanguageModel {
    pub language: Language,
    pub highlights_query: Seq<char>,
    pub injections_query: Seq<char>,
}

impl View for TreesitLanguage {
    type V = LanguageModel;

    open spec fn view(&self) -> LanguageModel {
        LanguageModel {
            language: self.language,
            highlights_query: self.highlights_query@,
            injections_query: self.injections_query@,
        }
    }
}

/// Capture names recognized in highlight queries, matched by longest
/// dot-prefix. The index of a highlight refers into this list.
pub const HIGHLIGHT_NAMES: [&'static str; 32] = [
    "attribute",
    "boolean",
    "character",
    "comment",
    "comment.documentation",
    "constant",
    "constant.builtin",
    "constructor",
    "delimiter",
    "embedded",
    "escape",
    "function",
    "function.macro",
    "function.method",
    "keyword",
    "label",
    "module",
    "number",
    "operator",
    "property",
    "punctuation",
    "punctuation.bracket",
    "punctuation.delimiter",
    "punctuation.special",
    "string",
    "string.special",
    "tag",
    "type",
    "type.builtin",
    "variable",
    "variable.builtin",
    "variable.parameter",
];

/// The texts of some names.
pub open spec fn names_of(names: Seq<&'static str>) -> Seq<Seq<char>> {
    Seq::new(names.len(), |i: int| names[i]@)
}

/// Spans of chars with a face name each.
pub open spec fn named_spans(s: Seq<(usize, usize, String)>) -> Seq<(int, int, Seq<char>)> {
    Seq::new(s.len(), |i: int| (s[i].0 as int, s[i].1 as int, s[i].2@))
}

/// Per-buffer highlight state. No incremental parsing: it tracks whether a
/// reparse is owed since the last edit.
pub struct SyntaxState {
    pub language: String,
    pub config: HighlightConfiguration,
    /// (char_start, char_end, highlight name), recomputed lazily.
    pub spans: Vec<(usize, usize, String)>,
    pub dirty: bool,
}

/// What a highlight state holds.
#[verifier::ext_equal]
pub struct SyntaxModel {
    pub language: Seq<char>,
    pub config: HighlightConfiguration,
    pub spans: Seq<(int, int, Seq<char>)>,
    pub dirty: bool,
}

impl View for SyntaxState {
    type V = SyntaxModel;

    open spec fn view(&self) -> SyntaxModel {
        SyntaxModel {
            language: self.language@,
            config: self.config,
            spans: named_spans(self.spans@),
            dirty: self.dirty,
        }
    }
}

/// What a highlight state holds, where there is one.
pub open spec fn state_model(s: Option<SyntaxState>) -> Option<SyntaxModel> {
    match s {
        Some(s) => Some(s@),
        None => None,
    }
}

/// A highlight state of which nothing is highlighted yet; none without a
/// configuration.
pub open spec fn unhighlighted(
    name: Seq<char>,
    config: Option<HighlightConfiguration>,
) -> Option<SyntaxModel> {
    match config {
        Some(config) => Some(
            SyntaxModel { language: name, config, spans: Seq::empty(), dirty: true },
        ),
        None => None,
    }
}

/// The configuration of an installed grammar under a name, out of its own queries
/// and with the names that are recognized; none where it refuses its queries.
pub open spec fn config_for(lang: LanguageModel, name: Seq<char>) -> Option<
    HighlightConfiguration,
> {
    match config_made(lang.language, name, lang.highlights_query, lang.injections_query) {
        Some(c) => Some(config_named(c, names_of(HIGHLIGHT_NAMES@))),
        None => None,
    }
}

/// Steps through a text, where there are any.
pub open spec fn opt_steps(s: Option<Vec<HighlightStep>>) -> Option<Seq<HighlightStep>> {
    match s {
        Some(v) => Some(v@),
        None => None,
    }
}

/// The highlight state after an edit.
pub open spec fn dirtied(s: Option<SyntaxModel>) -> Option<SyntaxModel> {
    match s {
        Some(m) => Some(SyntaxModel { dirty: true, ..m }),
        None => None,
    }
}

/// One step of a highlighted text: a highlight begins (with its index in the
/// list of names) or ends, a stretch of bytes follows, or highlighting failed.
#[derive(Debug, Clone, Copy, PartialEq, Eq, Structural)]
pub enum HighlightStep {
    Start(usize),
    End,
    Source(usize, usize),
    Failed,
}

/// A node of a syntax tree: its kind and the bytes it covers.
#[derive(Debug)]
pub struct SyntaxNode {
    pub kind: String,
    pub start: usize,
    pub end: usize,
}

/// A node of a syntax tree.
pub struct NodeModel {
    pub kind: Seq<char>,
    pub start: usize,
    pub end: usize,
}

impl View for SyntaxNode {
    type V = NodeModel;

    open spec fn view(&self) -> NodeModel {
        NodeModel { kind: self.kind@, start: self.start, end: self.end }
    }
}

// ---- the highlighter and the parser ----------------------------------------

/// The configuration that `tree_sitter_highlight::HighlightConfiguration::new`
/// makes of a grammar, its name, and its queries for highlights and for
/// injections, with no query for local names; none where it refuses the queries.
pub uninterp spec fn config_made(
    language: Language,
    name: Seq<char>,
    highlights: Seq<char>,
    injections: Seq<char>,
) -> Option<HighlightConfiguration>;

/// `tree_sitter_highlight::HighlightConfiguration::new`, with no query for local
/// names; none for an error. The result is named: the grammar is one of its
/// arguments. Nothing more is claimed of it.
#[verifier::external_body]
fn make_config(
    language: &Language,
    name: &str,
    highlights: &str,
    injections: &str,
) -> (r: Option<HighlightConfiguration>)
    ensures
        r == config_made(*language, name@, highlights@, injections@),
{
    HighlightConfiguration::new(language.clone(), name, highlights, injections, "").ok()
}

/// A configuration after `tree_sitter_highlight::HighlightConfiguration::configure`
/// fixed the names that highlights refer to by index.
pub uninterp spec fn config_named(
    config: HighlightConfiguration,
    names: Seq<Seq<char>>,
) -> HighlightConfiguration;

/// `tree_sitter_highlight::HighlightConfiguration::configure`: fixes the names
/// that highlights refer to by index. The configuration after it is named, and
/// nothing more is claimed of it.
#[verifier::external_body]
fn configure(config: &mut HighlightConfiguration, names: &[&'static str])
    ensures
        *final(config) == config_named(*old(config), names_of(names@)),
{
    config.configure(names);
}

/// The steps that `tree_sitter_highlight::Highlighter::highlight` takes through a
/// text; none where it fails at once.
pub uninterp spec fn steps_made(config: HighlightConfiguration, text: Seq<char>) -> Option<
    Seq<HighlightStep>,
>;

/// `tree_sitter_highlight::Highlighter::highlight` on a whole text, no other
/// language injected: its events, one step each; none where it fails at once.
/// The steps are named: the grammar is part of the configuration. They go
/// through the text in order, stretch after stretch, and up to its end unless one
/// of them is a failure.
#[verifier::external_body]
fn highlight(config: &HighlightConfiguration, text: &str) -> (r: Option<Vec<HighlightStep>>)
    ensures
        opt_steps(r) == steps_made(*config, text@),
        r matches Some(steps) ==> covers(text@, steps@),
{
    let mut h = Highlighter::new();
    let events = h.highlight(config, text.as_bytes(), None, None, |_| None).ok()?;
    Some(
        events.map(
            |e| match e {
                Ok(HighlightEvent::HighlightStart(i)) => HighlightStep::Start(i.0),
                Ok(HighlightEvent::HighlightEnd) => HighlightStep::End,
                Ok(HighlightEvent::Source { start, end }) => HighlightStep::Source(start, end),
                Err(_) => HighlightStep::Failed,
            },
        ).collect(),
    )
}

/// The tree that `tree_sitter::Parser::parse` makes of a text, with the language
/// of a configuration; none where it refuses the language or is stopped.
pub uninterp spec fn tree_made(config: HighlightConfiguration, text: Seq<char>) -> Option<Tree>;

/// `tree_sitter::Parser::parse` on a whole text, with the language of a
/// configuration; none where it refuses the language or is stopped. The tree is
/// named, and nothing more is claimed of it.
#[verifier::external_body]
fn parse(config: &HighlightConfiguration, text: &str) -> (r: Option<Tree>)
    ensures
        r == tree_made(*config, text@),
{
    let mut parser = Parser::new();
    parser.set_language(&config.language).ok()?;
    parser.parse(text, None)
}

/// The nodes around a byte of a tree, innermost first: that of
/// `tree_sitter::Node::named_descendant_for_byte_range`, and its parents.
pub uninterp spec fn nodes_of(tree: Tree, byte: int) -> Seq<NodeModel>;

/// `tree_sitter::Node::named_descendant_for_byte_range` on the root, for the
/// empty range at a byte, and then `Node::parent` up to the root: the nodes
/// around the byte, innermost first. They are named. There is one at least, and
/// every node but the last, which is the root, reaches from the byte or before it
/// to the byte or past it; the library counts bytes in 32 bits.
#[verifier::external_body]
fn nodes_around(tree: &Tree, byte: usize) -> (r: Option<Vec<SyntaxNode>>)
    ensures
        r is Some,
        models(r->0@) == nodes_of(*tree, byte as int),
        byte <= u32::MAX ==> around(byte as int, models(r->0@)),
{
    let node = tree.root_node().named_descendant_for_byte_range(byte, byte)?;
    Some(
        std::iter::successors(Some(node), |n| n.parent()).map(
            |n| SyntaxNode {
                kind: n.kind().to_string(),
                start: n.start_byte(),
                end: n.end_byte(),
            },
        ).collect(),
    )
}

// ---- what the steps mean ---------------------------------------------------

/// The highlights that are open after some steps, by index, innermost last.
pub open spec fn open_after(s: Seq<HighlightStep>) -> Seq<int>
    decreases s.len(),
{
    if s.len() == 0 {
        Seq::empty()
    } else {
        let before = open_after(s.drop_last());
        match s.last() {
            HighlightStep::Start(i) => before.push(i as int),
            HighlightStep::End => if before.len() > 0 {
                before.drop_last()
            } else {
                before
            },
            _ => before,
        }
    }
}

/// The spans that some steps give a text: a stretch of bytes takes the name of
/// the innermost open highlight. One without an open highlight, or one that does
/// not lie in the text, gives none.
pub open spec fn spans_after(t: Seq<char>, s: Seq<HighlightStep>) -> Seq<(int, int, Seq<char>)>
    decreases s.len(),
{
    if s.len() == 0 {
        Seq::empty()
    } else {
        let before = spans_after(t, s.drop_last());
        let open = open_after(s.drop_last());
        match s.last() {
            HighlightStep::Source(start, end) => if open.len() > 0 && open.last()
                < HIGHLIGHT_NAMES@.len() && start <= byte_len(t) && end <= byte_len(t) {
                before.push(
                    (
                        char_at_byte(t, start as int),
                        char_at_byte(t, end as int),
                        HIGHLIGHT_NAMES@[open.last()]@,
                    ),
                )
            } else {
                before
            },
            _ => before,
        }
    }
}

/// The number of steps, from step `i` on counted from 0, before highlighting
/// failed.
pub open spec fn good_steps(s: Seq<HighlightStep>, i: int) -> int
    decreases s.len() - i,
{
    if 0 <= i < s.len() && s[i] != HighlightStep::Failed {
        good_steps(s, i + 1)
    } else {
        i
    }
}

/// The byte that some steps have come to.
pub open spec fn reached(s: Seq<HighlightStep>) -> int
    decreases s.len(),
{
    if s.len() == 0 {
        0
    } else {
        match s.last() {
            HighlightStep::Source(_, end) => end as int,
            _ => reached(s.drop_last()),
        }
    }
}

/// Whether a step starts where the steps before it have come to.
pub open spec fn follows(s: Seq<HighlightStep>, i: int) -> bool {
    match s[i] {
        HighlightStep::Source(start, end) => reached(s.take(i)) == start < end,
        _ => true,
    }
}

/// Whether some steps go through a text in order, and up to its end unless one
/// of them is a failure.
pub open spec fn covers(t: Seq<char>, s: Seq<HighlightStep>) -> bool {
    &&& forall|i: int| 0 <= i < s.len() ==> #[trigger] follows(s, i)
    &&& s.contains(HighlightStep::Failed) || byte_len(t) <= reached(s)
}

/// The spans that highlighting gives a text: those of the steps before it
/// failed, if it did.
pub open spec fn spans_of(t: Seq<char>, s: Seq<HighlightStep>) -> Seq<(int, int, Seq<char>)> {
    spans_after(t, s.take(good_steps(s, 0)))
}

/// A highlight state brought up to date with a text by some steps.
pub open spec fn respanned(s: SyntaxModel, t: Seq<char>, steps: Seq<HighlightStep>) -> SyntaxModel {
    SyntaxModel { spans: spans_of(t, steps), dirty: false, ..s }
}

/// The steps that the highlighter takes through a text, none where it fails at
/// once.
pub open spec fn steps_through(config: HighlightConfiguration, t: Seq<char>) -> Seq<HighlightStep> {
    match steps_made(config, t) {
        Some(steps) => steps,
        None => Seq::empty(),
    }
}

/// A highlight state brought up to date with a text: the same if no reparse was
/// owed, else with the spans of the highlighter's steps through the text.
pub open spec fn brought_current(s: SyntaxModel, t: Seq<char>) -> SyntaxModel {
    if s.dirty {
        respanned(s, t, steps_through(s.config, t))
    } else {
        s
    }
}

/// Whether a node's kind is one of some kinds.
pub open spec fn of_kind(n: NodeModel, kinds: Seq<Seq<char>>) -> bool {
    kinds.contains(n.kind)
}

/// Whether a node of these kinds lies in the text.
pub open spec fn suits(t: Seq<char>, n: NodeModel, kinds: Seq<Seq<char>>) -> bool {
    of_kind(n, kinds) && n.start <= byte_len(t) && n.end <= byte_len(t)
}

/// Whether some nodes, innermost first, lie around a byte: there is one, and all
/// but the outermost reach over the byte.
pub open spec fn around(byte: int, nodes: Seq<NodeModel>) -> bool {
    &&& nodes.len() > 0
    &&& forall|i: int|
        0 <= i < nodes.len() - 1 ==> (#[trigger] nodes[i]).start <= byte <= nodes[i].end
}

/// The char range of the first suiting node from index `i` on, in a list of
/// nodes, or of the last one.
pub open spec fn picked(
    t: Seq<char>,
    nodes: Seq<NodeModel>,
    kinds: Seq<Seq<char>>,
    last: bool,
    i: int,
) -> Option<(int, int)>
    decreases nodes.len() - i,
{
    if 0 <= i < nodes.len() {
        let rest = picked(t, nodes, kinds, last, i + 1);
        if suits(t, nodes[i], kinds) && !(last && rest is Some) {
            Some(
                (char_at_byte(t, nodes[i].start as int), char_at_byte(t, nodes[i].end as int)),
            )
        } else {
            rest
        }
    } else {
        None
    }
}

/// The nodes around a position of a text, innermost first; none where the text
/// cannot be parsed.
pub open spec fn nodes_at(config: HighlightConfiguration, t: Seq<char>, p: int) -> Seq<NodeModel> {
    match tree_made(config, t) {
        Some(tree) => nodes_of(tree, byte_offset(t, clip(t, p))),
        None => Seq::empty(),
    }
}

/// The char range of the innermost node around a position whose kind is in
/// `kinds`, or of the outermost one.
pub open spec fn picked_at(
    config: HighlightConfiguration,
    t: Seq<char>,
    p: int,
    kinds: Seq<Seq<char>>,
    outermost: bool,
) -> Option<(int, int)> {
    picked(t, nodes_at(config, t, p), kinds, outermost, 0)
}

/// A range of chars.
pub open spec fn char_range(r: Option<(usize, usize)>) -> Option<(int, int)> {
    match r {
        Some((a, b)) => Some((a as int, b as int)),
        None => None,
    }
}

fn kind_known(kind: &str, kinds: &Vec<String>) -> (b: bool)
    ensures
        b == views(kinds@).contains(kind@),
{
    let mut i: usize = 0;
    while i < kinds.len()
        invariant
            i <= kinds@.len(),
            forall|k: int| 0 <= k < i ==> (#[trigger] kinds@[k])@ != kind@,
        decreases kinds@.len() - i,
    {
        if same(kinds[i].as_str(), kind) {
            assert(views(kinds@)[i as int] == kind@);
            return true;
        }
        i = i + 1;
    }
    proof {
        if views(kinds@).contains(kind@) {
            let k = views(kinds@).index_of(kind@);
            assert(kinds@[k]@ == kind@);
        }
    }
    false
}

/// The char range of the innermost node around a place whose kind is in
/// `kinds`, or of the outermost one, out of the nodes around it, innermost
/// first.
pub fn pick_node(
    rope: &Rope,
    nodes: &Vec<SyntaxNode>,
    kinds: &Vec<String>,
    outermost: bool,
) -> (r: Option<(usize, usize)>)
    ensures
        char_range(r) == picked(rope_text(*rope), models(nodes@), views(kinds@), outermost, 0),
{
    let ghost t = rope_text(*rope);
    let ghost all = models(nodes@);
    let ghost ks = views(kinds@);
    let size: usize = rope.len_bytes();
    let mut found: Option<(usize, usize)> = None;
    let mut i: usize = nodes.len();
    while i > 0
        invariant
            i <= nodes@.len(),
            t == rope_text(*rope),
            all == models(nodes@),
            ks == views(kinds@),
            size == byte_len(t),
            char_range(found) == picked(t, all, ks, outermost, i as int),
        decreases i,
    {
        i = i - 1;
        let n = &nodes[i];
        assert(all[i as int] == n@);
        if kind_known(n.kind.as_str(), kinds) && n.start <= size && n.end <= size && !(outermost
            && found.is_some()) {
            found = Some((rope_char_of(rope, n.start), rope_char_of(rope, n.end)));
        }
    }
    found
}

/// The spans of a text, from what the highlighter gave for it.
pub fn spans_from(rope: &Rope, steps: &Vec<HighlightStep>) -> (r: Vec<(usize, usize, String)>)
    ensures
        named_spans(r@) == spans_of(rope_text(*rope), steps@),
{
    let ghost t = rope_text(*rope);
    let size: usize = rope.len_bytes();
    let mut open: Vec<usize> = Vec::new();
    let mut spans: Vec<(usize, usize, String)> = Vec::new();
    let mut i: usize = 0;
    assert(steps@.take(0) =~= Seq::<HighlightStep>::empty());
    assert(indices(open@) =~= Seq::<int>::empty());
    assert(named_spans(spans@) =~= Seq::<(int, int, Seq<char>)>::empty());
    while i < steps.len()
        invariant_except_break
            i <= steps@.len(),
            good_steps(steps@, 0) == good_steps(steps@, i as int),
        invariant
            t == rope_text(*rope),
            size == byte_len(t),
            i <= steps@.len(),
            indices(open@) == open_after(steps@.take(i as int)),
            named_spans(spans@) == spans_after(t, steps@.take(i as int)),
        ensures
            i == good_steps(steps@, 0),
        decreases steps@.len() - i,
    {
        let ghost before = steps@.take(i as int);
        let ghost after = steps@.take(i + 1);
        let ghost had = named_spans(spans@);
        assert(after.drop_last() =~= before);
        assert(after.last() == steps@[i as int]);
        match steps[i] {
            HighlightStep::Start(n) => {
                open.push(n);
                assert(indices(open@) =~= open_after(after));
            },
            HighlightStep::End => {
                if open.len() > 0 {
                    let _n: Option<usize> = open.pop();
                }
                assert(indices(open@) =~= open_after(after));
            },
            HighlightStep::Source(start, end) => {
                if open.len() > 0 {
                    let n: usize = open[open.len() - 1];
                    assert(indices(open@).last() == n);
                    if n < HIGHLIGHT_NAMES.len() && start <= size && end <= size {
                        let from: usize = rope_char_of(rope, start);
                        let to: usize = rope_char_of(rope, end);
                        spans.push((from, to, copy(HIGHLIGHT_NAMES[n])));
                        assert(named_spans(spans@) =~= had.push(
                            (from as int, to as int, HIGHLIGHT_NAMES@[n as int]@),
                        ));
                    }
                }
            },
            HighlightStep::Failed => {
                break ;
            },
        }
        i = i + 1;
    }
    spans
}

impl SyntaxState {
    /// The highlight state of a buffer in a language, with its configuration:
    /// everything is still to be highlighted. None without a configuration.
    pub fn with_config(name: &str, config: Option<HighlightConfiguration>) -> (r: Option<Self>)
        ensures
            state_model(r) == unhighlighted(name@, config),
    {
        match config {
            Some(config) => {
                let spans: Vec<(usize, usize, String)> = Vec::new();
                assert(named_spans(spans@) =~= Seq::<(int, int, Seq<char>)>::empty());
                Some(SyntaxState { language: copy(name), config, spans, dirty: true })
            },
            None => None,
        }
    }

    /// The highlight state of a buffer in a language: everything is still to be
    /// highlighted. None where the grammar refuses its queries.
    pub fn new(name: &str, lang: &TreesitLanguage) -> (r: Option<Self>)
        ensures
            state_model(r) == unhighlighted(name@, config_for(lang@, name@)),
    {
        let config = match make_config(
            &lang.language,
            name,
            lang.highlights_query.as_str(),
            lang.injections_query.as_str(),
        ) {
            Some(c) => {
                let mut c = c;
                configure(&mut c, &HIGHLIGHT_NAMES);
                Some(c)
            },
            None => None,
        };
        Self::with_config(name, config)
    }

    /// Ask for a full rehighlight.
    pub fn mark_dirty(&mut self)
        ensures
            final(self)@ == (SyntaxModel { dirty: true, ..old(self)@ }),
    {
        self.dirty = true;
    }

    /// Take the spans from what the highlighter gave for the text.
    pub fn set_spans(&mut self, rope: &Rope, steps: &Vec<HighlightStep>)
        ensures
            final(self)@ == respanned(old(self)@, rope_text(*rope), steps@),
    {
        self.spans = spans_from(rope, steps);
        self.dirty = false;
    }

    /// Recompute the spans from `rope` if anything changed since the last call.
    /// Called once per visible buffer per render frame.
    pub fn ensure_current(&mut self, rope: &Rope)
        ensures
            final(self)@ == brought_current(old(self)@, rope_text(*rope)),
    {
        if !self.dirty {
            return ;
        }
        let text = rope_string(rope);
        let steps = match highlight(&self.config, text.as_str()) {
            Some(s) => s,
            None => Vec::new(),
        };
        assert(steps@ =~= steps_through(old(self)@.config, rope_text(*rope)));
        self.set_spans(rope, &steps);
    }

    /// Char range of the node at `char_pos` whose kind is in `kinds`: the
    /// innermost such node, or the outermost enclosing one when `outermost`.
    /// Parses on demand.
    pub fn node_range_at(
        &self,
        rope: &Rope,
        char_pos: usize,
        kinds: &Vec<String>,
        outermost: bool,
    ) -> (r: Option<(usize, usize)>)
        ensures
            char_range(r) == picked_at(
                self@.config,
                rope_text(*rope),
                char_pos as int,
                views(kinds@),
                outermost,
            ),
            ({
                let byte = byte_offset(rope_text(*rope), clip(rope_text(*rope), char_pos as int));
                let nodes = nodes_at(self@.config, rope_text(*rope), char_pos as int);
                byte <= u32::MAX ==> nodes.len() == 0 || around(byte, nodes)
            }),
    {
        let text = rope_string(rope);
        let tree = match parse(&self.config, text.as_str()) {
            Some(t) => t,
            None => {
                return None;
            },
        };
        let n: usize = rope.len_chars();
        let byte: usize = rope_byte_of(
            rope,
            if char_pos < n {
                char_pos
            } else {
                n
            },
        );
        match nodes_around(&tree, byte) {
            Some(nodes) => pick_node(rope, &nodes, kinds, outermost),
            None => None,
        }
    }
}

/// Indices of highlights.
pub open spec fn indices(s: Seq<usize>) -> Seq<int> {
    s.map_values(|i: usize| i as int)
}

} // verus!
