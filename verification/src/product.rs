//! The Cartesian product of a list of lists, and the call that computes it.

use itertools::Itertools;
use vstd::prelude::*;

verus! {

/// The Cartesian product of `lists`: every way to pick one item from each
/// list, as rows in lexicographic order of the picked positions, so that
/// the position in the last list changes fastest. The product of no lists
/// is the one empty row.
pub open spec fn cartesian<T>(lists: Seq<Seq<T>>) -> Seq<Seq<T>>
    decreases lists.len(),
{
    if lists.len() == 0 {
        seq![Seq::empty()]
    } else {
        let rest = cartesian(lists.drop_first());
        Seq::new(
            lists[0].len() * rest.len(),
            |k: int| seq![lists[0][k / (rest.len() as int)]] + rest[k % (rest.len() as int)],
        )
    }
}

/// The product of the lengths of the lists.
pub open spec fn count<T>(lists: Seq<Seq<T>>) -> nat
    decreases lists.len(),
{
    if lists.len() == 0 {
        1
    } else {
        lists[0].len() * count(lists.drop_first())
    }
}

/// The contents of each list of a list of vectors.
pub open spec fn rows<T>(lists: Seq<Vec<T>>) -> Seq<Seq<T>> {
    Seq::new(lists.len(), |i: int| lists[i]@)
}

/// The Cartesian product has as many rows as the product of the lengths of
/// the lists.
pub proof fn lemma_cartesian_len<T>(lists: Seq<Seq<T>>)
    ensures
        cartesian(lists).len() == count(lists),
    decreases lists.len(),
{
    if lists.len() > 0 {
        lemma_cartesian_len(lists.drop_first());
    }
}

/// Each row of the Cartesian product picks, for every list, one of the
/// items of that list.
pub proof fn lemma_cartesian_row<T>(lists: Seq<Seq<T>>, k: int)
    requires
        0 <= k < cartesian(lists).len(),
    ensures
        cartesian(lists)[k].len() == lists.len(),
        forall|j: int|
            0 <= j < lists.len() ==> (#[trigger] lists[j]).contains(cartesian(lists)[k][j]),
    decreases lists.len(),
{
    if lists.len() > 0 {
        let rest = cartesian(lists.drop_first());
        let n = rest.len() as int;
        let m = lists[0].len() as int;
        assert(n > 0 && 0 <= k / n < m && 0 <= k % n < n) by (nonlinear_arith)
            requires
                0 <= k < m * n,
                0 <= n,
                0 <= m,
        ;
        lemma_cartesian_row(lists.drop_first(), k % n);
        let row = cartesian(lists)[k];
        assert(row == seq![lists[0][k / n]] + rest[k % n]);
        assert forall|j: int| 0 <= j < lists.len() implies (#[trigger] lists[j]).contains(
            row[j],
        ) by {
            if j == 0 {
                assert(row[0] == lists[0][k / n]);
            } else {
                assert(row[j] == rest[k % n][j - 1]);
                assert(lists[j] == lists.drop_first()[j - 1]);
            }
        }
    }
}

/// Every way to pick one item from each list is a row of the Cartesian
/// product.
pub proof fn lemma_cartesian_has_row<T>(lists: Seq<Seq<T>>, row: Seq<T>)
    requires
        row.len() == lists.len(),
        forall|j: int| 0 <= j < lists.len() ==> (#[trigger] lists[j]).contains(row[j]),
    ensures
        cartesian(lists).contains(row),
    decreases lists.len(),
{
    if lists.len() == 0 {
        assert(cartesian(lists)[0] =~= row);
    } else {
        let rest_lists = lists.drop_first();
        let rest_row = row.drop_first();
        assert forall|j: int| 0 <= j < rest_lists.len() implies (#[trigger] rest_lists[j]).contains(
            rest_row[j],
        ) by {
            assert(lists[j + 1].contains(row[j + 1]));
        }
        lemma_cartesian_has_row(rest_lists, rest_row);
        let rest = cartesian(rest_lists);
        let r = choose|r: int| 0 <= r < rest.len() && rest[r] == rest_row;
        assert(lists[0].contains(row[0]));
        let k = choose|k: int| 0 <= k < lists[0].len() && lists[0][k] == row[0];
        let n = rest.len() as int;
        let m = lists[0].len() as int;
        let at = k * n + r;
        assert(0 <= at < m * n) by (nonlinear_arith)
            requires
                0 <= k < m,
                0 <= r < n,
                at == k * n + r,
        ;
        vstd::arithmetic::div_mod::lemma_fundamental_div_mod_converse(at, n, k, r);
        assert(cartesian(lists)[at] =~= row);
    }
}

/// Two rows of the Cartesian product pick, from some list, items at
/// different places.
pub open spec fn picks_differ<T>(lists: Seq<Seq<T>>, first: Seq<T>, second: Seq<T>) -> bool {
    exists|p: int, i: int, j: int|
        0 <= p < lists.len() && 0 <= i < lists[p].len() && 0 <= j < lists[p].len() && i != j
            && #[trigger] lists[p][i] == first[p] && #[trigger] lists[p][j] == second[p]
}

/// No two rows of the Cartesian product pick the same places of all lists.
pub proof fn lemma_cartesian_rows_differ<T>(lists: Seq<Seq<T>>, a: int, b: int)
    requires
        0 <= a < cartesian(lists).len(),
        0 <= b < cartesian(lists).len(),
        a != b,
    ensures
        picks_differ(lists, cartesian(lists)[a], cartesian(lists)[b]),
    decreases lists.len(),
{
    if lists.len() > 0 {
        let rest_lists = lists.drop_first();
        let rest = cartesian(rest_lists);
        let n = rest.len() as int;
        let m = lists[0].len() as int;
        assert(n > 0 && 0 <= a / n < m && 0 <= a % n < n && 0 <= b / n < m && 0 <= b % n < n) by (
        nonlinear_arith)
            requires
                0 <= a < m * n,
                0 <= b < m * n,
                0 <= n,
                0 <= m,
        ;
        let first = cartesian(lists)[a];
        let second = cartesian(lists)[b];
        lemma_cartesian_row(lists, a);
        lemma_cartesian_row(lists, b);
        assert(first == seq![lists[0][a / n]] + rest[a % n]);
        assert(second == seq![lists[0][b / n]] + rest[b % n]);
        if a / n != b / n {
            assert(lists[0][a / n] == first[0] && lists[0][b / n] == second[0]);
        } else {
            vstd::arithmetic::div_mod::lemma_fundamental_div_mod(a, n);
            vstd::arithmetic::div_mod::lemma_fundamental_div_mod(b, n);
            assert(a % n != b % n);
            lemma_cartesian_rows_differ(rest_lists, a % n, b % n);
            lemma_cartesian_row(rest_lists, a % n);
            lemma_cartesian_row(rest_lists, b % n);
            let (p, i, j) = choose|p: int, i: int, j: int|
                0 <= p < rest_lists.len() && 0 <= i < rest_lists[p].len() && 0 <= j
                    < rest_lists[p].len() && i != j && #[trigger] rest_lists[p][i] == rest[a
                    % n][p] && #[trigger] rest_lists[p][j] == rest[b % n][p];
            assert(lists[p + 1] == rest_lists[p]);
            assert(first[p + 1] == rest[a % n][p] && second[p + 1] == rest[b % n][p]);
            assert(lists[p + 1][i] == first[p + 1] && lists[p + 1][j] == second[p + 1]);
        }
    }
}

/// `Itertools::multi_cartesian_product` of itertools, collected into a
/// vector. The rows come out in the order of [`cartesian`]. Given no list
/// at all, the iterator of itertools yields no row.
#[verifier::external_body]
pub(crate) fn multi_cartesian_product<T: Copy>(lists: Vec<Vec<T>>) -> (product: Vec<Vec<T>>)
    ensures
        rows(product@) == (if lists.len() == 0 {
            Seq::empty()
        } else {
            cartesian(rows(lists@))
        }),
{
    lists.into_iter().multi_cartesian_product().collect()
}

} // verus!
