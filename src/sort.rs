//! The order sprites are packed in: by longest side, largest first, keeping
//! the input order among equal sides.

use crate::sprite::{sprite_ids, sprite_sizes, Sprite};
use vstd::prelude::*;

verus! {

/// The longer of a sprite's two sides.
pub open spec fn side<I>(s: Sprite<I>) -> u32 {
    if s.size.0 >= s.size.1 {
        s.size.0
    } else {
        s.size.1
    }
}

/// Longest sides never increase along `t`.
pub open spec fn descending<I>(t: Seq<Sprite<I>>) -> bool {
    forall|a: int, b: int| 0 <= a < b < t.len() ==> side(#[trigger] t[a]) >= side(#[trigger] t[b])
}

/// `x` put into `t` just after the last element whose longest side is at
/// least its own.
pub open spec fn insert_sorted<I>(t: Seq<Sprite<I>>, x: Sprite<I>) -> Seq<Sprite<I>>
    decreases t.len(),
{
    if t.len() == 0 {
        seq![x]
    } else if side(t.last()) >= side(x) {
        t.push(x)
    } else {
        insert_sorted(t.drop_last(), x).push(t.last())
    }
}

/// The stable sort of `s` by longest side, largest first.
pub open spec fn sorted_by_side<I>(s: Seq<Sprite<I>>) -> Seq<Sprite<I>>
    decreases s.len(),
{
    if s.len() == 0 {
        s
    } else {
        insert_sorted(sorted_by_side(s.drop_last()), s.last())
    }
}

/// The sum of the widths, each with the horizontal gutter.
pub open spec fn total_w<I>(s: Seq<Sprite<I>>, gutter: u32) -> int
    decreases s.len(),
{
    if s.len() == 0 {
        0
    } else {
        total_w(s.drop_last(), gutter) + s.last().size.0 + gutter
    }
}

/// The sum of the heights, each with the vertical gutter.
pub open spec fn total_h<I>(s: Seq<Sprite<I>>, gutter: u32) -> int
    decreases s.len(),
{
    if s.len() == 0 {
        0
    } else {
        total_h(s.drop_last(), gutter) + s.last().size.1 + gutter
    }
}

/// Where the insertion point is: after every element at least as long as
/// `x`, before every shorter one.
pub open spec fn is_insertion_point<I>(t: Seq<Sprite<I>>, x: Sprite<I>, j: int) -> bool {
    &&& 0 <= j <= t.len()
    &&& forall|k: int| j <= k < t.len() ==> side(#[trigger] t[k]) < side(x)
    &&& j == 0 || side(t[j - 1]) >= side(x)
}

pub proof fn lemma_insert_sorted_at<I>(t: Seq<Sprite<I>>, x: Sprite<I>, j: int)
    requires
        is_insertion_point(t, x, j),
    ensures
        insert_sorted(t, x) == t.insert(j, x),
    decreases t.len(),
{
    if t.len() == 0 {
        assert(t.insert(j, x) =~= seq![x]);
    } else if j == t.len() {
        assert(t.insert(j, x) =~= t.push(x));
    } else {
        assert(side(t[t.len() - 1]) < side(x));
        lemma_insert_sorted_at(t.drop_last(), x, j);
        assert(t.drop_last().insert(j, x).push(t.last()) =~= t.insert(j, x));
    }
}

pub proof fn lemma_insertion_point<I>(t: Seq<Sprite<I>>, x: Sprite<I>) -> (j: int)
    ensures
        is_insertion_point(t, x, j),
    decreases t.len(),
{
    if t.len() == 0 {
        0
    } else if side(t.last()) >= side(x) {
        t.len() as int
    } else {
        let j = lemma_insertion_point(t.drop_last(), x);
        assert(forall|k: int| j <= k < t.len() - 1 ==> t[k] == t.drop_last()[k]);
        j
    }
}

pub proof fn lemma_insert_sorted_descending<I>(t: Seq<Sprite<I>>, x: Sprite<I>)
    requires
        descending(t),
    ensures
        descending(insert_sorted(t, x)),
{
    let j = lemma_insertion_point(t, x);
    lemma_insert_sorted_at(t, x, j);
    let u = t.insert(j, x);
    assert forall|a: int, b: int| 0 <= a < b < u.len() implies side(#[trigger] u[a]) >= side(
        #[trigger] u[b],
    ) by {
        if a < j && b < j {
            assert(u[a] == t[a] && u[b] == t[b]);
        } else if a < j && b == j {
            assert(u[a] == t[a] && side(t[a]) >= side(t[j - 1]));
        } else if a < j {
            assert(u[a] == t[a] && u[b] == t[b - 1]);
        } else if a == j {
            assert(u[b] == t[b - 1]);
        } else {
            assert(u[a] == t[a - 1] && u[b] == t[b - 1]);
        }
    }
}

pub proof fn lemma_insert_sorted_counts<I>(t: Seq<Sprite<I>>, x: Sprite<I>, gutter: (u32, u32))
    ensures
        insert_sorted(t, x).len() == t.len() + 1,
        sprite_sizes(insert_sorted(t, x)) == sprite_sizes(t).insert((x.id, x.size.0, x.size.1)),
        sprite_ids(insert_sorted(t, x)) == sprite_ids(t).insert(x.id),
        total_w(insert_sorted(t, x), gutter.0) == total_w(t, gutter.0) + x.size.0 + gutter.0,
        total_h(insert_sorted(t, x), gutter.1) == total_h(t, gutter.1) + x.size.1 + gutter.1,
    decreases t.len(),
{
    let u = insert_sorted(t, x);
    if t.len() == 0 {
        assert(u.drop_last() =~= t);
    } else if side(t.last()) >= side(x) {
        assert(u.drop_last() =~= t);
    } else {
        lemma_insert_sorted_counts(t.drop_last(), x, gutter);
        assert(u.drop_last() =~= insert_sorted(t.drop_last(), x));
        assert(sprite_sizes(u) =~= sprite_sizes(t).insert((x.id, x.size.0, x.size.1)));
        assert(sprite_ids(u) =~= sprite_ids(t).insert(x.id));
    }
}

/// Sorting keeps every sprite, with its size, and the totals.
pub proof fn lemma_sorted_counts<I>(s: Seq<Sprite<I>>, gutter: (u32, u32))
    ensures
        sorted_by_side(s).len() == s.len(),
        sprite_sizes(sorted_by_side(s)) == sprite_sizes(s),
        sprite_ids(sorted_by_side(s)) == sprite_ids(s),
        total_w(sorted_by_side(s), gutter.0) == total_w(s, gutter.0),
        total_h(sorted_by_side(s), gutter.1) == total_h(s, gutter.1),
    decreases s.len(),
{
    if s.len() > 0 {
        lemma_sorted_counts(s.drop_last(), gutter);
        lemma_insert_sorted_counts(sorted_by_side(s.drop_last()), s.last(), gutter);
    }
}

/// The sort's result is descending.
pub proof fn lemma_sorted_descending<I>(s: Seq<Sprite<I>>)
    ensures
        descending(sorted_by_side(s)),
    decreases s.len(),
{
    if s.len() > 0 {
        lemma_sorted_descending(s.drop_last());
        lemma_insert_sorted_descending(sorted_by_side(s.drop_last()), s.last());
    }
}

/// Sorting a descending sequence leaves it as it is.
pub proof fn lemma_sorted_fixed<I>(t: Seq<Sprite<I>>)
    requires
        descending(t),
    ensures
        sorted_by_side(t) == t,
    decreases t.len(),
{
    if t.len() > 0 {
        let p = t.drop_last();
        assert(descending(p));
        lemma_sorted_fixed(p);
        if p.len() > 0 {
            assert(side(p.last()) >= side(t.last()));
        }
        assert(p.push(t.last()) =~= t);
    }
}

/// The longer side of a sprite.
pub fn longest_side<I>(s: &Sprite<I>) -> (r: u32)
    ensures
        r == side(*s),
{
    if s.size.0 >= s.size.1 {
        s.size.0
    } else {
        s.size.1
    }
}

/// Sorts by longest side, largest first; equal sides keep their order.
pub fn sort_by_side<I>(v: &mut Vec<Sprite<I>>)
    ensures
        final(v)@ == sorted_by_side(old(v)@),
{
    let ghost orig = v@;
    let n = v.len();
    let mut i: usize = 0;
    while i < n
        invariant
            0 <= i <= n,
            n == orig.len(),
            v@.len() == n,
            v@.take(i as int) == sorted_by_side(orig.take(i as int)),
            v@.skip(i as int) == orig.skip(i as int),
        decreases n - i,
    {
        let ghost before = v@;
        proof {
            lemma_sorted_counts(orig.take(i as int), (0, 0));
        }
        let x = v.remove(i);
        let key = longest_side(&x);
        let mut j: usize = i;
        while j > 0 && longest_side(&v[j - 1]) < key
            invariant
                0 <= j <= i < n,
                before.len() == n,
                v@.len() == n - 1,
                key == side(x),
                v@ == before.remove(i as int),
                forall|k: int| j <= k < i ==> side(#[trigger] v@[k]) < side(x),
            decreases j,
        {
            j = j - 1;
        }
        let ghost prefix = before.take(i as int);
        proof {
            assert(x == orig[i as int]) by {
                assert(before.skip(i as int)[0] == orig.skip(i as int)[0]);
            }
            assert forall|k: int| 0 <= k < i implies v@[k] == prefix[k] by {}
            assert(is_insertion_point(prefix, x, j as int));
            lemma_insert_sorted_at(prefix, x, j as int);
            assert(orig.take(i + 1).drop_last() =~= orig.take(i as int));
        }
        v.insert(j, x);
        proof {
            assert(v@.take(i + 1) =~= prefix.insert(j as int, x));
            assert(v@.skip(i + 1) =~= orig.skip(i + 1)) by {
                assert forall|k: int| 0 <= k < n - i - 1 implies #[trigger] v@.skip(i + 1)[k] == orig.skip(i + 1)[k] by {
                    assert(v@[i + 1 + k] == before[i + 1 + k]);
                    assert(before.skip(i as int)[k + 1] == orig.skip(i as int)[k + 1]);
                }
            }
        }
        i = i + 1;
    }
    proof {
        assert(v@.take(n as int) =~= v@);
        assert(orig.take(n as int) =~= orig);
    }
}

} // verus!
