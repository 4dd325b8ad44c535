//! What `Seq::filter` keeps: the facts that the store's contracts rest on.

use vstd::prelude::*;

verus! {

/// Filtering one more element keeps it or drops it.
pub proof fn lemma_filter_push<T>(s: Seq<T>, x: T, p: spec_fn(T) -> bool)
    ensures
        s.push(x).filter(p) == if p(x) {
            s.filter(p).push(x)
        } else {
            s.filter(p)
        },
{
    reveal(Seq::filter);
    assert(s.push(x).drop_last() =~= s);
}

/// A filter that every element passes keeps the sequence.
pub proof fn lemma_filter_all<T>(s: Seq<T>, p: spec_fn(T) -> bool)
    requires
        forall|j: int| 0 <= j < s.len() ==> p(#[trigger] s[j]),
    ensures
        s.filter(p) == s,
    decreases s.len(),
{
    reveal(Seq::filter);
    if s.len() > 0 {
        assert forall|j: int| 0 <= j < s.drop_last().len() implies p(#[trigger] s.drop_last()[j]) by {
            assert(p(s[j]));
        }
        lemma_filter_all(s.drop_last(), p);
        assert(p(s[s.len() - 1]));
        assert(s.drop_last().push(s.last()) =~= s);
    }
}

/// A filter that every element but one passes takes that one out.
pub proof fn lemma_filter_one_out<T>(s: Seq<T>, p: spec_fn(T) -> bool, i: int)
    requires
        0 <= i < s.len(),
        !p(s[i]),
        forall|j: int| 0 <= j < s.len() && j != i ==> p(#[trigger] s[j]),
    ensures
        s.filter(p) == s.remove(i),
    decreases s.len(),
{
    reveal(Seq::filter);
    let front = s.drop_last();
    if i == s.len() - 1 {
        assert forall|j: int| 0 <= j < front.len() implies p(#[trigger] front[j]) by {
            assert(p(s[j]));
        }
        lemma_filter_all(front, p);
        assert(front =~= s.remove(i));
    } else {
        assert forall|j: int| 0 <= j < front.len() && j != i implies p(#[trigger] front[j]) by {
            assert(p(s[j]));
        }
        assert(front[i] == s[i]);
        lemma_filter_one_out(front, p, i);
        assert(p(s[s.len() - 1]));
        assert(front.remove(i).push(s.last()) =~= s.remove(i));
    }
}

/// What a filter keeps is what the sequence holds and the condition admits.
pub proof fn lemma_filter_members<T>(s: Seq<T>, p: spec_fn(T) -> bool)
    ensures
        forall|x: T| #[trigger] s.filter(p).contains(x) <==> s.contains(x) && p(x),
    decreases s.len(),
{
    reveal(Seq::filter);
    if s.len() > 0 {
        let front = s.drop_last();
        let last = s.last();
        let kept = front.filter(p);
        let all = s.filter(p);
        lemma_filter_members(front, p);
        assert(front.push(last) =~= s);
        lemma_filter_push(front, last, p);
        assert forall|x: T| #[trigger] all.contains(x) <==> s.contains(x) && p(x) by {
            if all.contains(x) {
                let k = choose|k: int| 0 <= k < all.len() && all[k] == x;
                if p(last) && k == kept.len() {
                    assert(s[s.len() - 1] == x);
                } else {
                    assert(kept[k] == x);
                    assert(kept.contains(x));
                    let j = choose|j: int| 0 <= j < front.len() && front[j] == x;
                    assert(s[j] == x);
                }
            }
            if s.contains(x) && p(x) {
                let j = choose|j: int| 0 <= j < s.len() && s[j] == x;
                if j == s.len() - 1 {
                    assert(all[kept.len() as int] == x);
                } else {
                    assert(front[j] == x);
                    assert(front.contains(x));
                    assert(kept.contains(x));
                    let k = choose|k: int| 0 <= k < kept.len() && kept[k] == x;
                    assert(all[k] == x);
                }
            }
        }
    }
}

/// Filtering twice is filtering by both conditions.
pub proof fn lemma_filter_twice<T>(
    s: Seq<T>,
    p: spec_fn(T) -> bool,
    q: spec_fn(T) -> bool,
    both: spec_fn(T) -> bool,
)
    requires
        forall|j: int| 0 <= j < s.len() ==> both(#[trigger] s[j]) == (p(s[j]) && q(s[j])),
    ensures
        s.filter(p).filter(q) == s.filter(both),
    decreases s.len(),
{
    reveal(Seq::filter);
    if s.len() > 0 {
        let front = s.drop_last();
        assert forall|j: int| 0 <= j < front.len() implies both(#[trigger] front[j]) == (p(
            front[j],
        ) && q(front[j])) by {
            assert(both(s[j]) == (p(s[j]) && q(s[j])));
        }
        lemma_filter_twice(front, p, q, both);
        assert(both(s[s.len() - 1]) == (p(s[s.len() - 1]) && q(s[s.len() - 1])));
        if p(s.last()) {
            lemma_filter_push(front.filter(p), s.last(), q);
        }
    }
}

/// Conditions that agree on every element of a sequence filter it alike.
pub proof fn lemma_filter_agree<T>(s: Seq<T>, p: spec_fn(T) -> bool, q: spec_fn(T) -> bool)
    requires
        forall|j: int| 0 <= j < s.len() ==> p(#[trigger] s[j]) == q(s[j]),
    ensures
        s.filter(p) == s.filter(q),
    decreases s.len(),
{
    reveal(Seq::filter);
    if s.len() > 0 {
        let front = s.drop_last();
        assert forall|j: int| 0 <= j < front.len() implies p(#[trigger] front[j]) == q(front[j]) by {
            assert(p(s[j]) == q(s[j]));
        }
        lemma_filter_agree(front, p, q);
        assert(p(s[s.len() - 1]) == q(s[s.len() - 1]));
    }
}

} // verus!
