//! In-place uniform shuffling (Durstenfeld's form of Fisher–Yates).
use rand::Rng;
use vstd::prelude::*;
use vstd::seq_lib::{to_multiset_build, to_multiset_contains, to_multiset_len, to_multiset_update};

verus! {

/// Relies on rand's `thread_rng().gen_range(0..bound)`: a number drawn in
/// `0..bound`; it panics on an empty range, which `requires` leaves out.
#[verifier::external_body]
fn random_below(bound: usize) -> (r: usize)
    requires
        bound > 0,
    ensures
        r < bound,
{
    rand::thread_rng().gen_range(0..bound)
}

/// `s` with the elements at `i` and `j` exchanged.
pub open spec fn swap_at<T>(s: Seq<T>, i: int, j: int) -> Seq<T> {
    s.update(i, s[j]).update(j, s[i])
}

/// Exchanges the elements at `j` and `i`, where `j <= i`.
fn swap_elements<T>(arr: &mut Vec<T>, j: usize, i: usize)
    requires
        j <= i < old(arr)@.len(),
    ensures
        final(arr)@ == swap_at(old(arr)@, i as int, j as int),
{
    if i == j {
        assert(swap_at(arr@, i as int, j as int) =~= arr@);
        return;
    }
    let (left, right) = arr.as_mut_slice().split_at_mut(i);
    let (_, mid) = left.split_at_mut(j);
    match (mid.first_mut(), right.first_mut()) {
        (Some(a), Some(b)) => std::mem::swap(a, b),
        _ => {},
    }
    assert(final(arr)@ =~= swap_at(old(arr)@, i as int, j as int));
}

/// Draws fit an array of `n` elements: one per position from the last down
/// to the second, the `t`-th at most `n - 1 - t`.
pub open spec fn valid_draws(draws: Seq<usize>, n: nat) -> bool {
    &&& draws.len() == if n == 0 {
        0
    } else {
        (n - 1) as nat
    }
    &&& forall|t: int| 0 <= t < draws.len() ==> #[trigger] draws[t] + t < n
}

/// Durstenfeld's shuffle of `s` under `draws`: the last element is
/// exchanged with the one at `draws[0]`, then the same is done to the
/// elements before it with the remaining draws. Meant for valid draws;
/// draws that run out or point past the end leave the rest in place.
pub open spec fn durstenfeld<T>(s: Seq<T>, draws: Seq<usize>) -> Seq<T>
    decreases s.len(),
{
    if s.len() <= 1 || draws.len() == 0 || draws[0] >= s.len() {
        s
    } else {
        let top = s.len() - 1;
        let moved = swap_at(s, top, draws[0] as int);
        durstenfeld(moved.take(top), draws.drop_first()).push(moved[top])
    }
}

proof fn lemma_swap_multiset<T>(s: Seq<T>, i: int, j: int)
    requires
        0 <= i < s.len(),
        0 <= j < s.len(),
    ensures
        swap_at(s, i, j).to_multiset() == s.to_multiset(),
        swap_at(s, i, j).len() == s.len(),
{
    broadcast use vstd::multiset::group_multiset_axioms;

    let u = s.update(i, s[j]);
    to_multiset_update(s, i, s[j]);
    to_multiset_update(u, j, s[i]);
    to_multiset_contains(s, s[i]);
    assert(s.contains(s[i]));
    let a = s.to_multiset();
    let b = swap_at(s, i, j).to_multiset();
    assert forall|y: T| #[trigger] b.count(y) == a.count(y) by {}
    assert(b =~= a);
}

proof fn lemma_swap_distinct<T>(s: Seq<T>, i: int, j: int)
    requires
        0 <= i < s.len(),
        0 <= j < s.len(),
        s.no_duplicates(),
    ensures
        swap_at(s, i, j).no_duplicates(),
{
}

proof fn lemma_drop_first_valid(draws: Seq<usize>, n: nat)
    requires
        n >= 2,
        valid_draws(draws, n),
    ensures
        valid_draws(draws.drop_first(), (n - 1) as nat),
{
    assert forall|t: int| 0 <= t < draws.drop_first().len() implies #[trigger] draws.drop_first()[t] + t
        < n - 1 by {
        assert(draws[t + 1] + (t + 1) < n);
    }
}

/// The shuffle under any valid draws rearranges `s`: the result holds
/// exactly the elements of `s`, as many times each.
pub proof fn lemma_durstenfeld_permutes<T>(s: Seq<T>, draws: Seq<usize>)
    requires
        valid_draws(draws, s.len()),
    ensures
        durstenfeld(s, draws).len() == s.len(),
        durstenfeld(s, draws).to_multiset() == s.to_multiset(),
    decreases s.len(),
{
    if s.len() > 1 {
        let top = s.len() - 1;
        assert(draws[0] + 0 < s.len());
        let moved = swap_at(s, top, draws[0] as int);
        lemma_swap_multiset(s, top, draws[0] as int);
        lemma_drop_first_valid(draws, s.len());
        lemma_durstenfeld_permutes(moved.take(top), draws.drop_first());
        let rest = durstenfeld(moved.take(top), draws.drop_first());
        assert(moved =~= moved.take(top).push(moved[top]));
        to_multiset_build(moved.take(top), moved[top]);
        to_multiset_build(rest, moved[top]);
    }
}

/// On distinct elements, different valid draws give different results:
/// the result determines the draws.
pub proof fn lemma_draws_are_determined<T>(s: Seq<T>, first: Seq<usize>, second: Seq<usize>)
    requires
        s.no_duplicates(),
        valid_draws(first, s.len()),
        valid_draws(second, s.len()),
        durstenfeld(s, first) == durstenfeld(s, second),
    ensures
        first == second,
    decreases s.len(),
{
    if s.len() <= 1 {
        assert(first =~= second);
    } else {
        let top = s.len() - 1;
        assert(first[0] + 0 < s.len());
        assert(second[0] + 0 < s.len());
        let m1 = swap_at(s, top, first[0] as int);
        let m2 = swap_at(s, top, second[0] as int);
        lemma_drop_first_valid(first, s.len());
        lemma_drop_first_valid(second, s.len());
        lemma_durstenfeld_permutes(m1.take(top), first.drop_first());
        lemma_durstenfeld_permutes(m2.take(top), second.drop_first());
        let r1 = durstenfeld(m1.take(top), first.drop_first());
        let r2 = durstenfeld(m2.take(top), second.drop_first());
        assert(r1.push(m1[top]) == r2.push(m2[top]));
        assert(r1.push(m1[top])[top] == m1[top]);
        assert(r2.push(m2[top])[top] == m2[top]);
        assert(s[first[0] as int] == s[second[0] as int]);
        assert(first[0] == second[0]);
        assert(r1 =~= r1.push(m1[top]).take(top));
        assert(r2 =~= r2.push(m2[top]).take(top));
        lemma_swap_distinct(s, top, first[0] as int);
        lemma_draws_are_determined(m1.take(top), first.drop_first(), second.drop_first());
        assert(first =~= second) by {
            assert forall|t: int| 0 <= t < first.len() implies first[t] == second[t] by {
                if t > 0 {
                    assert(first.drop_first()[t - 1] == second.drop_first()[t - 1]);
                }
            }
        }
    }
}

/// On distinct elements, every rearrangement of `s` is the shuffle of `s`
/// under some valid draws. With the previous law, each rearrangement comes
/// from exactly one sequence of draws.
pub proof fn lemma_every_permutation_is_reached<T>(s: Seq<T>, p: Seq<T>)
    requires
        s.no_duplicates(),
        s.len() <= usize::MAX,
        p.to_multiset() == s.to_multiset(),
    ensures
        exists|d: Seq<usize>| valid_draws(d, s.len()) && durstenfeld(s, d) == p,
    decreases s.len(),
{
    broadcast use vstd::multiset::group_multiset_axioms;

    to_multiset_len(s);
    to_multiset_len(p);
    if s.len() == 0 {
        let d = Seq::<usize>::empty();
        assert(p =~= s);
        assert(valid_draws(d, s.len()) && durstenfeld(s, d) == p);
    } else {
        let top = s.len() - 1;
        let x = p[top];
        to_multiset_contains(p, x);
        assert(p.contains(x));
        to_multiset_contains(s, x);
        let j = choose|j: int| 0 <= j < s.len() && s[j] == x;
        if s.len() == 1 {
            let d = Seq::<usize>::empty();
            assert(p =~= s);
            assert(valid_draws(d, s.len()) && durstenfeld(s, d) == p);
        } else {
            let moved = swap_at(s, top, j);
            lemma_swap_multiset(s, top, j);
            lemma_swap_distinct(s, top, j);
            let head = moved.take(top);
            assert(moved =~= head.push(x));
            assert(p =~= p.take(top).push(x));
            to_multiset_build(head, x);
            to_multiset_build(p.take(top), x);
            assert forall|y: T| #[trigger] p.take(top).to_multiset().count(y) == head.to_multiset().count(y) by {
                assert(p.take(top).push(x).to_multiset().count(y) == head.push(x).to_multiset().count(y));
            }
            assert(p.take(top).to_multiset() =~= head.to_multiset());
            assert(head.no_duplicates());
            lemma_every_permutation_is_reached(head, p.take(top));
            let rest = choose|d: Seq<usize>| valid_draws(d, head.len()) && durstenfeld(head, d) == p.take(top);
            let d = seq![j as usize] + rest;
            assert(d.drop_first() =~= rest);
            assert forall|t: int| 0 <= t < d.len() implies #[trigger] d[t] + t < s.len() by {
                if t > 0 {
                    assert(d[t] == rest[t - 1]);
                }
            }
            assert(durstenfeld(s, d) == p);
        }
    }
}

/// Applies Durstenfeld's shuffle to `arr` under `draws`: for each position
/// from the last down to the second, the element there is exchanged with
/// the one at the next draw.
pub fn shuffle_with_draws<T>(arr: &mut Vec<T>, draws: &Vec<usize>)
    requires
        valid_draws(draws@, old(arr)@.len()),
    ensures
        final(arr)@ == durstenfeld(old(arr)@, draws@),
{
    let n = arr.len();
    let ghost orig = arr@;
    let ghost d = draws@;
    assert(orig.take(n as int) =~= orig);
    assert(d.skip(0) =~= d);
    assert(durstenfeld(orig.take(n as int), d.skip(0)) + orig.skip(n as int) =~= durstenfeld(orig, d));
    let mut t: usize = 0;
    while t < draws.len()
        invariant
            n == arr@.len(),
            d == draws@,
            valid_draws(d, n as nat),
            t <= d.len(),
            durstenfeld(orig, d) == durstenfeld(arr@.take(n - t), d.skip(t as int)) + arr@.skip(n - t),
        decreases d.len() - t,
    {
        let i = n - 1 - t;
        let j = draws[t];
        assert(d[t as int] + t < n);
        let ghost pre = arr@;
        let ghost m: int = n - t;
        let ghost head = pre.take(m);
        let ghost moved = swap_at(head, m - 1, j as int);
        proof {
            assert(d.skip(t as int)[0] == j);
            assert(d.skip(t as int).drop_first() =~= d.skip(t + 1));
        }
        swap_elements(arr, j, i);
        proof {
            assert(arr@.take(m - 1) =~= moved.take(m - 1));
            assert(arr@.skip(m - 1) =~= seq![moved[m - 1]] + pre.skip(m));
            assert(durstenfeld(head, d.skip(t as int)) == durstenfeld(moved.take(m - 1), d.skip(t + 1)).push(
                moved[m - 1],
            ));
            assert(durstenfeld(moved.take(m - 1), d.skip(t + 1)).push(moved[m - 1]) + pre.skip(m)
                =~= durstenfeld(arr@.take(m - 1), d.skip(t + 1)) + arr@.skip(m - 1));
        }
        t += 1;
    }
    proof {
        let k: int = n - t;
        assert(k <= 1);
        assert(arr@.take(k).len() <= 1);
        assert(arr@.take(k) + arr@.skip(k) =~= arr@);
    }
}

/// Shuffles `arr` in place with uniformly drawn numbers: the result is
/// Durstenfeld's shuffle of `arr` under some valid draws, and so holds
/// exactly the elements it held before.
pub fn fisher_yates_shuffle<T>(arr: &mut Vec<T>)
    ensures
        exists|d: Seq<usize>| valid_draws(d, old(arr)@.len()) && final(arr)@ == durstenfeld(old(arr)@, d),
        final(arr)@.len() == old(arr)@.len(),
        final(arr)@.to_multiset() == old(arr)@.to_multiset(),
{
    let n = arr.len();
    let mut draws: Vec<usize> = Vec::new();
    let mut t: usize = 0;
    while t + 1 < n
        invariant
            n == arr@.len(),
            draws@.len() == t,
            t <= n,
            t + 1 <= n || n == 0,
            forall|k: int| 0 <= k < t ==> #[trigger] draws@[k] + k < n,
        decreases n - t,
    {
        draws.push(random_below(n - t));
        t += 1;
    }
    assert(valid_draws(draws@, n as nat));
    let ghost d = draws@;
    proof {
        lemma_durstenfeld_permutes(arr@, d);
    }
    shuffle_with_draws(arr, &draws);
}

} // verus!
