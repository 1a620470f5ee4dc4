//! Command-grouped undo log. Each editing command is preceded by a boundary;
//! undoing reverts records until it crosses one.

use vstd::prelude::*;

verus! {

/// One entry of the undo log.
#[derive(Debug, Clone, PartialEq, Eq)]
pub enum UndoRecord {
    Boundary,
    /// Text was inserted at `at` with char length `len`.
    Insert { at: usize, len: usize },
    /// `text` was deleted starting at char index `at`.
    Delete { at: usize, text: String },
}

/// What an undo record says.
pub enum Edit {
    Boundary,
    Insert { at: int, len: int },
    Delete { at: int, text: Seq<char> },
}

impl View for UndoRecord {
    type V = Edit;

    open spec fn view(&self) -> Edit {
        match self {
            UndoRecord::Boundary => Edit::Boundary,
            UndoRecord::Insert { at, len } => Edit::Insert { at: *at as int, len: *len as int },
            UndoRecord::Delete { at, text } => Edit::Delete { at: *at as int, text: text@ },
        }
    }
}

/// What each record of a list says.
pub open spec fn edits(s: Seq<UndoRecord>) -> Seq<Edit> {
    Seq::new(s.len(), |i: int| s[i]@)
}

/// The undo log of one buffer, oldest record first.
#[derive(Debug)]
pub struct UndoLog {
    records: Vec<UndoRecord>,
}

impl View for UndoLog {
    type V = Seq<Edit>;

    closed spec fn view(&self) -> Seq<Edit> {
        edits(self.records@)
    }
}

/// The log with a boundary at its end; an empty log, or one that already ends
/// with a boundary, stays as it is.
pub open spec fn bounded(log: Seq<Edit>) -> Seq<Edit> {
    if log.len() == 0 || log.last() is Boundary {
        log
    } else {
        log.push(Edit::Boundary)
    }
}

/// The length of the first `n` records without the boundaries that end them.
pub open spec fn last_edit(log: Seq<Edit>, n: int) -> int
    decreases n,
{
    if 0 < n <= log.len() && log[n - 1] is Boundary {
        last_edit(log, n - 1)
    } else {
        n
    }
}

/// Where the run of edits that ends at `n` starts: after the last boundary.
pub open spec fn run_start(log: Seq<Edit>, n: int) -> int
    decreases n,
{
    if 0 < n <= log.len() && !(log[n - 1] is Boundary) {
        run_start(log, n - 1)
    } else {
        n
    }
}

/// The edits of the newest group, newest first.
pub open spec fn newest_group(log: Seq<Edit>) -> Seq<Edit> {
    let end = last_edit(log, log.len() as int);
    log.subrange(run_start(log, end), end).reverse()
}

/// The log without its newest group.
pub open spec fn without_group(log: Seq<Edit>) -> Seq<Edit> {
    log.take(run_start(log, last_edit(log, log.len() as int)))
}

proof fn lemma_run_start(log: Seq<Edit>, n: int)
    requires
        0 <= n <= log.len(),
    ensures
        0 <= run_start(log, n) <= n,
        forall|i: int| run_start(log, n) <= i < n ==> !(#[trigger] log[i] is Boundary),
    decreases n,
{
    if n > 0 && !(log[n - 1] is Boundary) {
        lemma_run_start(log, n - 1);
    }
}

impl Default for UndoLog {
    fn default() -> (log: Self)
        ensures
            log@ == Seq::<Edit>::empty(),
    {
        let log = UndoLog { records: Vec::new() };
        assert(log@ =~= Seq::<Edit>::empty());
        log
    }
}

impl UndoLog {
    fn ends_with_boundary(&self) -> (b: bool)
        ensures
            b == (self@.len() > 0 && self@.last() is Boundary),
    {
        let n: usize = self.records.len();
        if n == 0 {
            return false;
        }
        match self.records[n - 1] {
            UndoRecord::Boundary => true,
            _ => false,
        }
    }

    /// End the current group, if it holds anything.
    pub fn push_boundary(&mut self)
        ensures
            final(self)@ == bounded(old(self)@),
    {
        if self.records.len() > 0 && !self.ends_with_boundary() {
            self.records.push(UndoRecord::Boundary);
            assert(self@ =~= old(self)@.push(Edit::Boundary));
        }
    }

    /// Add a record to the current group.
    pub fn record(&mut self, rec: UndoRecord)
        ensures
            final(self)@ == old(self)@.push(rec@),
    {
        self.records.push(rec);
        assert(self@ =~= old(self)@.push(rec@));
    }

    /// Pop one undo group (records back to the previous boundary).
    pub fn pop_group(&mut self) -> (group: Vec<UndoRecord>)
        ensures
            edits(group@) == newest_group(old(self)@),
            final(self)@ == without_group(old(self)@),
            forall|i: int| 0 <= i < group@.len() ==> !(#[trigger] group@[i] is Boundary),
    {
        let ghost log = self@;
        // Skip trailing boundaries.
        while self.ends_with_boundary()
            invariant
                self@ == log.take(self@.len() as int),
                self@.len() <= log.len(),
                last_edit(log, log.len() as int) == last_edit(log, self@.len() as int),
            decreases self@.len(),
        {
            let ghost before = self@;
            assert(log[self@.len() - 1] == before.last());
            self.records.pop();
            assert(self@ =~= before.drop_last());
            assert(self@ =~= log.take(self@.len() as int));
        }
        let ghost end = self@.len() as int;
        assert(end > 0 ==> log[end - 1] == self@.last());
        assert(last_edit(log, log.len() as int) == end);
        let mut group: Vec<UndoRecord> = Vec::new();
        assert(edits(group@) =~= log.subrange(end, end).reverse());
        while self.records.len() > 0 && !self.ends_with_boundary()
            invariant
                end <= log.len(),
                self@.len() <= end,
                self@ == log.take(self@.len() as int),
                run_start(log, end) == run_start(log, self@.len() as int),
                edits(group@) == log.subrange(self@.len() as int, end).reverse(),
                forall|i: int| 0 <= i < group@.len() ==> !(#[trigger] group@[i] is Boundary),
            decreases self@.len(),
        {
            let ghost before = self@;
            let ghost group0 = edits(group@);
            let ghost n = self@.len() as int;
            assert(log[n - 1] == before.last());
            if let Some(rec) = self.records.pop() {
                group.push(rec);
                assert(self@ =~= before.drop_last());
                assert(self@ =~= log.take(n - 1));
                assert(edits(group@) =~= group0.push(before.last()));
                assert(edits(group@) =~= log.subrange(n - 1, end).reverse());
            }
        }
        assert(self@.len() > 0 ==> log[self@.len() - 1] == self@.last());
        group
    }
}

// ---- replaying -------------------------------------------------------------

/// The text after one record is reverted.
pub open spec fn reverted(t: Seq<char>, e: Edit) -> Seq<char> {
    match e {
        Edit::Boundary => t,
        Edit::Insert { at, len } => if at + len <= t.len() {
            t.take(at) + t.skip(at + len)
        } else {
            t.take(at)
        },
        Edit::Delete { at, text } => t.take(at) + text + t.skip(at),
    }
}

/// Whether a record can be reverted in a text of length `n`: its position
/// lies in the text.
pub open spec fn revertible(n: int, e: Edit) -> bool {
    match e {
        Edit::Boundary => true,
        Edit::Insert { at, len } => 0 <= at <= n && 0 <= len,
        Edit::Delete { at, text } => 0 <= at <= n,
    }
}

/// The length of a text of length `n` after one record is reverted.
pub open spec fn reverted_len(n: int, e: Edit) -> int {
    match e {
        Edit::Boundary => n,
        Edit::Insert { at, len } => if at + len <= n {
            n - len
        } else {
            at
        },
        Edit::Delete { at, text } => n + text.len(),
    }
}

/// Where point goes when one record is reverted.
pub open spec fn reverted_point(e: Edit) -> Option<int> {
    match e {
        Edit::Boundary => None,
        Edit::Insert { at, len } => Some(at),
        Edit::Delete { at, text } => Some(at + text.len()),
    }
}

/// The text after the records of a group are reverted, first to last.
pub open spec fn replayed(t: Seq<char>, group: Seq<Edit>) -> Seq<char>
    decreases group.len(),
{
    if group.len() == 0 {
        t
    } else {
        reverted(replayed(t, group.drop_last()), group.last())
    }
}

/// The length of a text of length `n` after a group is reverted.
pub open spec fn replayed_len(n: int, group: Seq<Edit>) -> int
    decreases group.len(),
{
    if group.len() == 0 {
        n
    } else {
        reverted_len(replayed_len(n, group.drop_last()), group.last())
    }
}

/// Whether a group can be reverted, record by record, in a text of length `n`.
pub open spec fn replayable(n: int, group: Seq<Edit>) -> bool
    decreases group.len(),
{
    group.len() == 0 || {
        &&& replayable(n, group.drop_last())
        &&& revertible(replayed_len(n, group.drop_last()), group.last())
    }
}

/// Reverting a group gives a text of the expected length.
pub proof fn lemma_replayed_len(t: Seq<char>, group: Seq<Edit>)
    requires
        replayable(t.len() as int, group),
    ensures
        replayed(t, group).len() == replayed_len(t.len() as int, group),
    decreases group.len(),
{
    if group.len() > 0 {
        lemma_replayed_len(t, group.drop_last());
    }
}

/// What can be reverted in a text can be reverted in each prefix of the group.
pub proof fn lemma_replayable_prefix(n: int, group: Seq<Edit>, k: int)
    requires
        replayable(n, group),
        0 <= k <= group.len(),
    ensures
        replayable(n, group.take(k)),
    decreases group.len(),
{
    if k == group.len() {
        assert(group.take(k) =~= group);
    } else {
        lemma_replayable_prefix(n, group.drop_last(), k);
        assert(group.drop_last().take(k) =~= group.take(k));
    }
}

// ---- edits and what they record --------------------------------------------

/// A change to a text.
pub enum Change {
    Insert { at: int, text: Seq<char> },
    Remove { from: int, to: int },
}

/// Whether a change lies inside a text of length `n`.
pub open spec fn in_text(n: int, c: Change) -> bool {
    match c {
        Change::Insert { at, text } => 0 <= at <= n,
        Change::Remove { from, to } => 0 <= from <= to <= n,
    }
}

/// The text after a change.
pub open spec fn changed(t: Seq<char>, c: Change) -> Seq<char> {
    match c {
        Change::Insert { at, text } => t.take(at) + text + t.skip(at),
        Change::Remove { from, to } => t.take(from) + t.skip(to),
    }
}

/// The record that undoes a change.
pub open spec fn recorded(t: Seq<char>, c: Change) -> Edit {
    match c {
        Change::Insert { at, text } => Edit::Insert { at, len: text.len() as int },
        Change::Remove { from, to } => Edit::Delete { at: from, text: t.subrange(from, to) },
    }
}

/// A text after a list of changes.
pub open spec fn changed_all(t: Seq<char>, cs: Seq<Change>) -> Seq<char>
    decreases cs.len(),
{
    if cs.len() == 0 {
        t
    } else {
        changed(changed_all(t, cs.drop_last()), cs.last())
    }
}

/// Whether each change of a list lies in the text that it changes.
pub open spec fn all_in_text(t: Seq<char>, cs: Seq<Change>) -> bool
    decreases cs.len(),
{
    cs.len() == 0 || {
        &&& all_in_text(t, cs.drop_last())
        &&& in_text(changed_all(t, cs.drop_last()).len() as int, cs.last())
    }
}

/// The records of a list of changes, oldest first.
pub open spec fn recorded_all(t: Seq<char>, cs: Seq<Change>) -> Seq<Edit>
    decreases cs.len(),
{
    if cs.len() == 0 {
        Seq::empty()
    } else {
        recorded_all(t, cs.drop_last()).push(
            recorded(changed_all(t, cs.drop_last()), cs.last()),
        )
    }
}

/// Reverting the record of one change gives the text before it.
pub proof fn lemma_revert_change(t: Seq<char>, c: Change)
    requires
        in_text(t.len() as int, c),
    ensures
        revertible(changed(t, c).len() as int, recorded(t, c)),
        reverted(changed(t, c), recorded(t, c)) == t,
{
    assert(reverted(changed(t, c), recorded(t, c)) =~= t);
}

proof fn lemma_replay_front(t: Seq<char>, e: Edit, rest: Seq<Edit>)
    requires
        revertible(t.len() as int, e),
    ensures
        replayed(t, seq![e] + rest) == replayed(reverted(t, e), rest),
        replayed_len(t.len() as int, seq![e] + rest) == replayed_len(
            reverted_len(t.len() as int, e),
            rest,
        ),
        replayable(t.len() as int, seq![e] + rest) == replayable(
            reverted_len(t.len() as int, e),
            rest,
        ),
        reverted(t, e).len() == reverted_len(t.len() as int, e),
    decreases rest.len(),
{
    let g = seq![e] + rest;
    if rest.len() == 0 {
        assert(g.drop_last() =~= Seq::<Edit>::empty());
        assert(g.last() == e);
        reveal_with_fuel(replayed, 2);
        reveal_with_fuel(replayed_len, 2);
        reveal_with_fuel(replayable, 2);
    } else {
        lemma_replay_front(t, e, rest.drop_last());
        assert(g.drop_last() =~= seq![e] + rest.drop_last());
        assert(g.last() == rest.last());
    }
}

/// Undoing the records of a list of changes, newest first, gives back the
/// text before the changes.
pub proof fn law_replay_restores(t: Seq<char>, cs: Seq<Change>)
    requires
        all_in_text(t, cs),
    ensures
        replayable(changed_all(t, cs).len() as int, recorded_all(t, cs).reverse()),
        replayed(changed_all(t, cs), recorded_all(t, cs).reverse()) == t,
    decreases cs.len(),
{
    if cs.len() > 0 {
        let t1 = changed_all(t, cs.drop_last());
        let rest = recorded_all(t, cs.drop_last()).reverse();
        law_replay_restores(t, cs.drop_last());
        lemma_revert_change(t1, cs.last());
        assert(recorded_all(t, cs).reverse() =~= seq![recorded(t1, cs.last())] + rest);
        lemma_replay_front(changed(t1, cs.last()), recorded(t1, cs.last()), rest);
    } else {
        assert(recorded_all(t, cs).reverse() =~= Seq::<Edit>::empty());
    }
}

/// No record of a list of changes is a boundary.
pub proof fn lemma_recorded_no_boundary(t: Seq<char>, cs: Seq<Change>)
    ensures
        recorded_all(t, cs).len() == cs.len(),
        forall|i: int| 0 <= i < cs.len() ==> !(#[trigger] recorded_all(t, cs)[i] is Boundary),
    decreases cs.len(),
{
    if cs.len() > 0 {
        lemma_recorded_no_boundary(t, cs.drop_last());
    }
}

/// In a log that is empty or ends with a boundary, changes added since form
/// the newest group, and removing that group leaves the log as it was.
pub proof fn law_group_is_changes(log: Seq<Edit>, added: Seq<Edit>)
    requires
        log.len() == 0 || log.last() is Boundary,
        added.len() > 0,
        forall|i: int| 0 <= i < added.len() ==> !(#[trigger] added[i] is Boundary),
    ensures
        newest_group(log + added) == added.reverse(),
        without_group(log + added) == log,
{
    let all = log + added;
    let n = all.len() as int;
    assert(all[n - 1] == added.last());
    assert(last_edit(all, n) == n);
    lemma_run_of(log, added, n);
    assert(all.subrange(log.len() as int, n) =~= added);
    assert(all.take(log.len() as int) =~= log);
}

/// The newest group of a log that ends with an edit holds that edit.
pub proof fn lemma_newest_nonempty(log: Seq<Edit>)
    requires
        log.len() > 0,
        !(log.last() is Boundary),
    ensures
        newest_group(log).len() > 0,
{
    let n = log.len() as int;
    assert(last_edit(log, n) == n);
    assert(run_start(log, n) == run_start(log, n - 1));
    lemma_run_start(log, n - 1);
}

proof fn lemma_run_start_pushed(log: Seq<Edit>, x: Edit, n: int)
    requires
        0 <= n <= log.len(),
    ensures
        run_start(log.push(x), n) == run_start(log, n),
    decreases n,
{
    if n > 0 {
        assert(log.push(x)[n - 1] == log[n - 1]);
        lemma_run_start_pushed(log, x, n - 1);
    }
}

/// A boundary after the newest group leaves the group as it is.
pub proof fn lemma_bounded_group(log: Seq<Edit>)
    requires
        log.len() > 0,
        !(log.last() is Boundary),
    ensures
        newest_group(bounded(log)) == newest_group(log),
        without_group(bounded(log)) == without_group(log),
{
    let n = log.len() as int;
    let all = log.push(Edit::Boundary);
    assert(all[n] is Boundary);
    assert(all[n - 1] == log[n - 1]);
    assert(last_edit(all, n) == n);
    assert(last_edit(all, n + 1) == n);
    lemma_run_start_pushed(log, Edit::Boundary, n);
    lemma_run_start(log, n);
    let start = run_start(log, n);
    assert(all.subrange(start, n) =~= log.subrange(start, n));
    assert(all.take(start) =~= log.take(start));
}

proof fn lemma_run_of(log: Seq<Edit>, added: Seq<Edit>, n: int)
    requires
        log.len() == 0 || log.last() is Boundary,
        log.len() <= n <= log.len() + added.len(),
        forall|i: int| 0 <= i < added.len() ==> !(#[trigger] added[i] is Boundary),
    ensures
        run_start(log + added, n) == log.len(),
    decreases n,
{
    let all = log + added;
    if n > log.len() {
        assert(all[n - 1] == added[n - 1 - log.len()]);
        lemma_run_of(log, added, n - 1);
    } else if n > 0 {
        assert(all[n - 1] == log.last());
    }
}

// ---- whether groups fit ----------------------------------------------------

/// Whether each of the `k` newest groups of a log, as far as there are any, can
/// be reverted in what is then left of a text of length `n`.
pub open spec fn groups_fit(n: int, log: Seq<Edit>, k: int) -> bool
    decreases k,
{
    k <= 0 || {
        let group = newest_group(log);
        &&& replayable(n, group)
        &&& group.len() > 0 ==> groups_fit(replayed_len(n, group), without_group(log), k - 1)
    }
}

/// A boundary does not matter to whether groups fit.
pub proof fn lemma_bounded_fit(n: int, log: Seq<Edit>, k: int)
    ensures
        groups_fit(n, bounded(log), k) == groups_fit(n, log, k),
{
    if bounded(log) != log {
        lemma_bounded_group(log);
    }
}

impl UndoLog {
    fn skip_boundaries(&self, end: usize) -> (r: usize)
        requires
            end <= self@.len(),
        ensures
            r == last_edit(self@.take(end as int), end as int),
            r <= end,
    {
        let ghost l = self@.take(end as int);
        let mut i: usize = end;
        while i > 0
            invariant
                i <= end <= self@.len(),
                self@.len() == self.records@.len(),
                l == self@.take(end as int),
                last_edit(l, end as int) == last_edit(l, i as int),
            decreases i,
        {
            assert(l[i - 1] == self.records@[i - 1]@);
            match &self.records[i - 1] {
                UndoRecord::Boundary => {
                    i = i - 1;
                },
                _ => {
                    return i;
                },
            }
        }
        i
    }

    fn skip_edits(&self, end: usize, from: usize) -> (r: usize)
        requires
            from <= end <= self@.len(),
        ensures
            r == run_start(self@.take(end as int), from as int),
            r <= from,
    {
        let ghost l = self@.take(end as int);
        let mut i: usize = from;
        while i > 0
            invariant
                i <= from <= end <= self@.len(),
                self@.len() == self.records@.len(),
                l == self@.take(end as int),
                run_start(l, from as int) == run_start(l, i as int),
            decreases i,
        {
            assert(l[i - 1] == self.records@[i - 1]@);
            match &self.records[i - 1] {
                UndoRecord::Boundary => {
                    return i;
                },
                _ => {
                    i = i - 1;
                },
            }
        }
        i
    }

    /// The length of a text of length `n` after the records from `start` to `end`
    /// are reverted, newest first, if they can be.
    fn replay(&self, start: usize, end: usize, n: u128) -> (r: Option<u128>)
        requires
            start <= end <= self@.len(),
            n <= (self@.len() - end + 1) * usize::MAX,
        ensures
            match r {
                Some(m) => replayable(n as int, self@.subrange(start as int, end as int).reverse())
                    && m == replayed_len(
                    n as int,
                    self@.subrange(start as int, end as int).reverse(),
                ) && m <= (self@.len() - start + 1) * usize::MAX,
                None => !replayable(
                    n as int,
                    self@.subrange(start as int, end as int).reverse(),
                ),
            },
    {
        let ghost rev = self@.subrange(start as int, end as int).reverse();
        let total: usize = self.records.len();
        let mut m: u128 = n;
        let mut i: usize = end;
        assert(rev.take(0) =~= Seq::<Edit>::empty());
        while i > start
            invariant
                start <= i <= end <= self@.len(),
                total == self@.len() == self.records@.len(),
                rev == self@.subrange(start as int, end as int).reverse(),
                m == replayed_len(n as int, rev.take(end - i)),
                replayable(n as int, rev.take(end - i)),
                m <= (total - i + 1) * usize::MAX,
            decreases i,
        {
            let ghost now = rev.take(end - i + 1);
            assert(now.drop_last() =~= rev.take(end - i));
            assert(now.last() == rev[end - i]);
            assert(rev[end - i] == self@[i - 1]);
            assert(self@[i - 1] == self.records@[i - 1]@);
            proof {
                let j = total - i;
                assert((j + 2) * usize::MAX == (j + 1) * usize::MAX + usize::MAX)
                    by (nonlinear_arith);
                assert((j + 2) * usize::MAX <= 0xffff_ffff_ffff_ffff * 0x1_0000_0000_0000_0000)
                    by (nonlinear_arith)
                    requires
                        j + 2 <= 0x1_0000_0000_0000_0000,
                        0 <= usize::MAX <= 0xffff_ffff_ffff_ffff,
                ;
            }
            match &self.records[i - 1] {
                UndoRecord::Boundary => {},
                UndoRecord::Insert { at, len: k } => {
                    let at: u128 = *at as u128;
                    let k: u128 = *k as u128;
                    if at > m {
                        proof {
                            lemma_not_replayable(n as int, rev, end - i + 1);
                        }
                        return None;
                    }
                    m = if at + k <= m {
                        (m - k) as u128
                    } else {
                        at
                    };
                },
                UndoRecord::Delete { at, text } => {
                    if *at as u128 > m {
                        proof {
                            lemma_not_replayable(n as int, rev, end - i + 1);
                        }
                        return None;
                    }
                    m = m + text.as_str().unicode_len() as u128;
                },
            }
            i = i - 1;
        }
        assert(rev.take(rev.len() as int) =~= rev);
        Some(m)
    }

    /// Whether each of the `k` newest groups, as far as there are any, can be
    /// reverted in what is then left of a text of length `len`.
    pub fn can_undo(&self, len: usize, k: u32) -> (b: bool)
        ensures
            b == groups_fit(len as int, self@, k as int),
    {
        let total: usize = self.records.len();
        let mut n: u128 = len as u128;
        let mut end: usize = total;
        let mut left: u32 = k;
        assert(self@.take(total as int) =~= self@);
        assert((total - end + 1) * usize::MAX == usize::MAX) by (nonlinear_arith)
            requires
                total == end,
        ;
        while left > 0
            invariant
                end <= total == self@.len() == self.records@.len(),
                n <= (total - end + 1) * usize::MAX,
                groups_fit(len as int, self@, k as int) == groups_fit(
                    n as int,
                    self@.take(end as int),
                    left as int,
                ),
            decreases left,
        {
            let ghost l = self@.take(end as int);
            let stop: usize = self.skip_boundaries(end);
            let start: usize = self.skip_edits(end, stop);
            assert(newest_group(l) =~= self@.subrange(start as int, stop as int).reverse());
            assert(without_group(l) =~= self@.take(start as int));
            proof {
                let (a, b) = (total - end + 1, total - stop + 1);
                assert(a * usize::MAX <= b * usize::MAX) by (nonlinear_arith)
                    requires
                        a <= b,
                ;
            }
            match self.replay(start, stop, n) {
                Some(m) => {
                    if start == stop {
                        return true;
                    }
                    n = m;
                    end = start;
                },
                None => {
                    return false;
                },
            }
            left = left - 1;
        }
        true
    }
}

proof fn lemma_not_replayable(n: int, group: Seq<Edit>, k: int)
    requires
        0 <= k <= group.len(),
        !replayable(n, group.take(k)),
    ensures
        !replayable(n, group),
{
    if replayable(n, group) {
        lemma_replayable_prefix(n, group, k);
    }
}

} // verus!
