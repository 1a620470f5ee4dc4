//! What is told of files that were deleted or renamed.

use crate::dired::files::{delete_failures, deletion_told};
use crate::dired::wgrep::{commit_text, last_name, rename_errors};
use crate::strings::{decimal, joined_with};
use vstd::prelude::*;

verus! {

/// The numbers below `n` at which there is an error.
pub open spec fn failed_below(errors: Seq<Option<Seq<char>>>, n: int) -> Seq<int> {
    Seq::new(n as nat, |i: int| i).filter(|i: int| errors[i] is Some)
}

proof fn lemma_failed_below(errors: Seq<Option<Seq<char>>>, n: int)
    requires
        0 <= n,
    ensures
        failed_below(errors, n + 1) == (if errors[n] is Some {
            failed_below(errors, n).push(n)
        } else {
            failed_below(errors, n)
        }),
        failed_below(errors, 0) == Seq::<int>::empty(),
{
    reveal(Seq::filter);
    let all = Seq::new((n + 1) as nat, |i: int| i);
    assert(all.drop_last() =~= Seq::new(n as nat, |i: int| i));
    assert(Seq::new(0, |i: int| i) =~= Seq::<int>::empty());
    assert(failed_below(errors, 0) =~= Seq::<int>::empty());
}

/// A deletion of which none failed tells how many files it was; else each path that could
/// not be deleted is told with the reason, in order, and no other.
pub proof fn law_deletion_told(paths: Seq<Seq<char>>, errors: Seq<Option<Seq<char>>>)
    requires
        paths.len() == errors.len(),
    ensures
        delete_failures(paths, errors) == failed_below(errors, paths.len() as int).map_values(
            |i: int| paths[i] + seq![':', ' '] + errors[i]->0,
        ),
        ({
            let a = deletion_told(paths.len() as int, delete_failures(paths, errors));
            &&& a is Outside && a->Outside_0 is Refresh && a->Outside_0->Refresh_0 is Some
            &&& (forall|i: int| 0 <= i < errors.len() ==> #[trigger] errors[i] is None)
                ==> a->Outside_0->Refresh_0 == Some(
                "Deleted "@ + decimal(paths.len()) + " file(s)"@,
            )
        }),
{
    lemma_failures(paths, errors, paths.len() as int);
    assert(paths.take(paths.len() as int) =~= paths);
    if forall|i: int| 0 <= i < errors.len() ==> #[trigger] errors[i] is None {
        lemma_none_failed(errors, paths.len() as int);
    }
}

proof fn lemma_none_failed(errors: Seq<Option<Seq<char>>>, n: int)
    requires
        0 <= n <= errors.len(),
        forall|i: int| 0 <= i < errors.len() ==> #[trigger] errors[i] is None,
    ensures
        failed_below(errors, n).len() == 0,
    decreases n,
{
    if n > 0 {
        lemma_none_failed(errors, n - 1);
        lemma_failed_below(errors, n - 1);
        assert(errors[n - 1] is None);
    } else {
        lemma_failed_below(errors, 0);
    }
}

proof fn lemma_failures(paths: Seq<Seq<char>>, errors: Seq<Option<Seq<char>>>, n: int)
    requires
        0 <= n <= paths.len(),
        paths.len() == errors.len(),
    ensures
        delete_failures(paths.take(n), errors) == failed_below(errors, n).map_values(
            |i: int| paths[i] + seq![':', ' '] + errors[i]->0,
        ),
    decreases n,
{
    let told = |i: int| paths[i] + seq![':', ' '] + errors[i]->0;
    if n > 0 {
        lemma_failures(paths, errors, n - 1);
        lemma_failed_below(errors, n - 1);
        assert(paths.take(n).drop_last() =~= paths.take(n - 1));
        assert(paths.take(n).last() == paths[n - 1]);
        reveal_strlit(": ");
        assert(": "@ =~= seq![':', ' ']);
        let before = failed_below(errors, n - 1);
        if errors[n - 1] is Some {
            assert(before.push(n - 1).map_values(told) =~= before.map_values(told).push(
                told(n - 1),
            ));
        }
    } else {
        lemma_failed_below(errors, 0);
        assert(failed_below(errors, 0).map_values(told) =~= Seq::<Seq<char>>::empty());
    }
}

proof fn lemma_rename_errors(
    pairs: Seq<(Seq<char>, Seq<char>)>,
    errors: Seq<Option<Seq<char>>>,
    n: int,
)
    requires
        0 <= n <= pairs.len(),
        pairs.len() == errors.len(),
    ensures
        rename_errors(pairs, errors, n) == failed_below(errors, n).map_values(
            |i: int| last_name(pairs[i].0) + seq![':', ' '] + errors[i]->0,
        ),
    decreases n,
{
    let told = |i: int| last_name(pairs[i].0) + seq![':', ' '] + errors[i]->0;
    if n > 0 {
        lemma_rename_errors(pairs, errors, n - 1);
        lemma_failed_below(errors, n - 1);
        reveal_strlit(": ");
        assert(": "@ =~= seq![':', ' ']);
        let before = failed_below(errors, n - 1);
        if errors[n - 1] is Some {
            assert(before.push(n - 1).map_values(told) =~= before.map_values(told).push(
                told(n - 1),
            ));
        }
    } else {
        lemma_failed_below(errors, 0);
        assert(failed_below(errors, 0).map_values(told) =~= Seq::<Seq<char>>::empty());
    }
}

/// Of edited names it is told how many files were renamed, which are those without an
/// error, and of each of the others the old name with the reason, in order.
pub proof fn law_renaming_told(
    pairs: Seq<(Seq<char>, Seq<char>)>,
    errors: Seq<Option<Seq<char>>>,
)
    requires
        pairs.len() == errors.len(),
    ensures
        ({
            let bad = failed_below(errors, errors.len() as int);
            let told = bad.map_values(
                |i: int| last_name(pairs[i].0) + seq![':', ' '] + errors[i]->0,
            );
            let n = pairs.len() - bad.len();
            &&& bad.len() > 0 ==> commit_text(pairs, errors) == decimal(n as nat)
                + " renamed; failed: "@ + joined_with(told, "; "@)
            &&& bad.len() == 0 && n == 1 ==> commit_text(pairs, errors) == "Applied "@ + decimal(
                1,
            ) + " rename"@
            &&& bad.len() == 0 && n != 1 ==> commit_text(pairs, errors) == "Applied "@ + decimal(
                n as nat,
            ) + " rename"@ + "s"@
        }),
{
    lemma_rename_errors(pairs, errors, pairs.len() as int);
    if failed_below(errors, errors.len() as int).len() == 0 {
        reveal_strlit("");
        assert("Applied "@ + decimal(1) + " rename"@ + ""@ =~= "Applied "@ + decimal(1)
            + " rename"@);
    }
}

} // verus!
