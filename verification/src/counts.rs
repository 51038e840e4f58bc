//! Counting ops over the parts of a record.

use crate::error::ProbeError;
use vstd::prelude::*;

verus! {

/// The sum of all counts, or the first error.
pub open spec fn total(counts: Seq<Result<usize, ProbeError>>) -> Result<nat, ProbeError>
    decreases counts.len(),
{
    if counts.len() == 0 {
        Ok(0)
    } else {
        match counts[0] {
            Err(e) => Err(e),
            Ok(n) => match total(counts.drop_first()) {
                Err(e) => Err(e),
                Ok(rest) => Ok(n as nat + rest),
            },
        }
    }
}

/// Adds the count of one more part, or passes its error on.
pub fn add_count(acc: usize, next: Result<usize, ProbeError>) -> (res: Result<usize, ProbeError>)
    requires
        next matches Ok(n) ==> acc + n <= usize::MAX,
    ensures
        match next {
            Ok(n) => res == Ok::<usize, ProbeError>((acc + n) as usize),
            Err(e) => res == Err::<usize, ProbeError>(e),
        },
{
    match next {
        Ok(n) => Ok(acc + n),
        Err(e) => Err(e),
    }
}

/// Whether no part failed.
pub open spec fn all_ok(counts: Seq<Result<usize, ProbeError>>) -> bool {
    forall|i: int| 0 <= i < counts.len() ==> (#[trigger] counts[i]) is Ok
}

/// Parts may be counted in groups: the total of two groups in a row is the sum of their totals,
/// or the error of the first group that has one.
pub proof fn law_count_in_groups(
    a: Seq<Result<usize, ProbeError>>,
    b: Seq<Result<usize, ProbeError>>,
)
    ensures
        total(a + b) == (match total(a) {
            Err(e) => Err::<nat, ProbeError>(e),
            Ok(n) => match total(b) {
                Err(e) => Err(e),
                Ok(m) => Ok(n + m),
            },
        }),
    decreases a.len(),
{
    if a.len() == 0 {
        assert(a + b =~= b);
    } else {
        assert((a + b).drop_first() =~= a.drop_first() + b);
        law_count_in_groups(a.drop_first(), b);
    }
}

/// The total of parts that did not fail exists.
proof fn lemma_total_ok(counts: Seq<Result<usize, ProbeError>>)
    requires
        all_ok(counts),
    ensures
        total(counts) is Ok,
    decreases counts.len(),
{
    if counts.len() > 0 {
        assert(counts[0] is Ok);
        assert forall|i: int| 0 <= i < counts.drop_first().len() implies (
        #[trigger] counts.drop_first()[i]) is Ok by {
            assert(counts[i + 1] is Ok);
        }
        lemma_total_ok(counts.drop_first());
    }
}

/// One part taken out lowers the total by its count.
proof fn lemma_total_remove(counts: Seq<Result<usize, ProbeError>>, k: int)
    requires
        all_ok(counts),
        0 <= k < counts.len(),
    ensures
        all_ok(counts.remove(k)),
        total(counts) is Ok,
        total(counts.remove(k)) is Ok,
        total(counts)->Ok_0 == total(counts.remove(k))->Ok_0 + counts[k]->Ok_0,
{
    let front = counts.take(k);
    let back = counts.skip(k + 1);
    let part = seq![counts[k]];
    assert(counts =~= front + (part + back));
    assert(counts.remove(k) =~= front + back);
    assert forall|i: int| 0 <= i < counts.remove(k).len() implies (
    #[trigger] counts.remove(k)[i]) is Ok by {
        assert(counts[if i < k {
            i
        } else {
            i + 1
        }] is Ok);
    }
    lemma_total_ok(counts);
    lemma_total_ok(counts.remove(k));
    law_count_in_groups(front, part + back);
    law_count_in_groups(part, back);
    law_count_in_groups(front, back);
    assert(part.drop_first() =~= seq![]);
    assert(counts[k] is Ok);
    assert(total(part.drop_first()) == Ok::<nat, ProbeError>(0));
    assert(total(part) == Ok::<nat, ProbeError>(counts[k]->Ok_0 as nat));
}

/// The order in which parts are counted does not matter, as long as none fails.
pub proof fn law_count_in_any_order(
    a: Seq<Result<usize, ProbeError>>,
    b: Seq<Result<usize, ProbeError>>,
)
    requires
        all_ok(a),
        a.to_multiset() == b.to_multiset(),
    ensures
        total(a) == total(b),
    decreases a.len(),
{
    broadcast use vstd::seq_lib::group_to_multiset_ensures;

    assert(a.len() == a.to_multiset().len() == b.len());
    assert forall|i: int| 0 <= i < b.len() implies (#[trigger] b[i]) is Ok by {
        assert(b.contains(b[i]));
        assert(b.to_multiset().count(b[i]) > 0);
        assert(a.contains(b[i]));
    }
    if a.len() > 0 {
        let last = a.len() - 1;
        assert(a.contains(a[last]));
        assert(a.to_multiset().count(a[last]) > 0);
        assert(b.contains(a[last]));
        let k = choose|k: int| 0 <= k < b.len() && b[k] == a[last];
        lemma_total_remove(a, last);
        lemma_total_remove(b, k);
        assert(a.remove(last).to_multiset() == a.to_multiset().remove(a[last]));
        assert(b.remove(k).to_multiset() == b.to_multiset().remove(b[k]));
        law_count_in_any_order(a.remove(last), b.remove(k));
    }
}

/// Nothing counts for nothing, and a single part counts for what it reports.
pub proof fn law_count_of_one(count: Result<usize, ProbeError>)
    ensures
        total(seq![]) == Ok::<nat, ProbeError>(0),
        total(seq![count]) == (match count {
            Ok(n) => Ok::<nat, ProbeError>(n as nat),
            Err(e) => Err(e),
        }),
{
    assert(seq![count].drop_first() =~= seq![]);
    reveal_with_fuel(total, 2);
}

/// The total of parts is an error exactly if one of them failed, and then it is the error of the
/// first that did.
#[verifier::spinoff_prover]
#[verifier::rlimit(30)]
pub proof fn law_first_error_counts(counts: Seq<Result<usize, ProbeError>>)
    ensures
        total(counts) is Ok <==> all_ok(counts),
        total(counts) matches Err(e) ==> exists|k: int|
            0 <= k < counts.len() && #[trigger] counts[k] == Err::<usize, ProbeError>(e)
                && all_ok(counts.take(k)),
    decreases counts.len(),
{
    if counts.len() > 0 {
        let rest = counts.drop_first();
        law_first_error_counts(rest);
        assert forall|i: int| 0 <= i < rest.len() implies #[trigger] rest[i] == counts[i + 1] by {}
        if counts[0] is Err {
            assert(all_ok(counts.take(0)));
        } else if total(rest) is Ok {
            assert forall|i: int| 0 <= i < counts.len() implies (#[trigger] counts[i]) is Ok by {
                if i > 0 {
                    assert(rest[i - 1] is Ok);
                }
            }
        } else {
            let e = total(rest)->Err_0;
            let k = choose|k: int|
                0 <= k < rest.len() && #[trigger] rest[k] == Err::<usize, ProbeError>(e) && all_ok(
                    rest.take(k),
                );
            assert(counts[k + 1] == Err::<usize, ProbeError>(e));
            assert forall|i: int| 0 <= i < k + 1 implies (#[trigger] counts.take(k + 1)[i]) is Ok by {
                if i > 0 {
                    assert(rest.take(k)[i - 1] is Ok);
                }
            }
        }
    }
}

} // verus!
