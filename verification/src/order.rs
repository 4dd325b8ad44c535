//! The ordering engine: pure functions that compute display orders and the
//! index assignments that persist them.

use crate::filters::lemma_filter_push;
use crate::model::Relation;
use vstd::prelude::*;

verus! {

/// One explicit assignment of an ordering index to a folder.
#[derive(Clone, Copy, Debug)]
pub struct FolderOrderUpdate {
    pub folder_id: i32,
    pub new_ordering: i32,
}

/// The sequence obtained by taking the element at `from` out of `s` and putting
/// it back at `to`; `s` itself when either index is out of bounds.
pub open spec fn reordered<T>(s: Seq<T>, from: int, to: int) -> Seq<T> {
    if 0 <= from < s.len() && 0 <= to < s.len() {
        s.remove(from).insert(to, s[from])
    } else {
        s
    }
}

/// Moves the element at `from_index` to `to_index`. A request with an index
/// out of bounds changes nothing.
pub fn reorder<T>(seq: Vec<T>, from_index: usize, to_index: usize) -> (out: Vec<T>)
    ensures
        out@ == reordered(seq@, from_index as int, to_index as int),
{
    let mut seq = seq;
    if from_index >= seq.len() || to_index >= seq.len() {
        return seq;
    }
    let moved = seq.remove(from_index);
    seq.insert(to_index, moved);
    seq
}

/// A reorder request with an index out of bounds returns the sequence
/// unchanged.
pub proof fn lemma_reorder_out_of_bounds<T>(s: Seq<T>, from: int, to: int)
    requires
        from >= s.len() || to >= s.len(),
    ensures
        reordered(s, from, to) == s,
{
}

/// Moving an element onto its own position returns the sequence unchanged.
pub proof fn lemma_reorder_same_index<T>(s: Seq<T>, i: int)
    requires
        0 <= i < s.len(),
    ensures
        reordered(s, i, i) == s,
{
    assert(s.remove(i).insert(i, s[i]) =~= s);
}

/// Where the element at position `k` of a reordered sequence came from.
pub open spec fn reorder_source(len: int, from: int, to: int, k: int) -> int {
    if !(0 <= from < len && 0 <= to < len) {
        k
    } else if k == to {
        from
    } else if from < to {
        if from <= k < to { k + 1 } else { k }
    } else {
        if to < k <= from { k - 1 } else { k }
    }
}

/// Where the element at position `j` of a sequence stands after a reorder.
pub open spec fn reorder_target(len: int, from: int, to: int, j: int) -> int {
    if !(0 <= from < len && 0 <= to < len) {
        j
    } else if j == from {
        to
    } else if from < to {
        if from < j <= to { j - 1 } else { j }
    } else {
        if to <= j < from { j + 1 } else { j }
    }
}

/// A reorder rearranges: it keeps the length, each position of the result
/// holds the element that `reorder_source` names, and `reorder_target` is the
/// inverse of `reorder_source`, so no element is lost or repeated.
pub proof fn lemma_reorder_is_rearrangement<T>(s: Seq<T>, from: int, to: int)
    ensures
        reordered(s, from, to).len() == s.len(),
        forall|k: int|
            0 <= k < s.len() ==> {
                &&& 0 <= #[trigger] reorder_source(s.len() as int, from, to, k) < s.len()
                &&& reorder_target(
                    s.len() as int,
                    from,
                    to,
                    reorder_source(s.len() as int, from, to, k),
                ) == k
                &&& reordered(s, from, to)[k] == s[reorder_source(s.len() as int, from, to, k)]
            },
        forall|j: int|
            0 <= j < s.len() ==> {
                &&& 0 <= #[trigger] reorder_target(s.len() as int, from, to, j) < s.len()
                &&& reorder_source(
                    s.len() as int,
                    from,
                    to,
                    reorder_target(s.len() as int, from, to, j),
                ) == j
            },
{
}

/// How many entries of `m` are `true`.
pub open spec fn count_true(m: Seq<bool>) -> nat
    decreases m.len(),
{
    if m.len() == 0 {
        0
    } else {
        count_true(m.drop_last()) + if m.last() { 1nat } else { 0nat }
    }
}

/// Row `i` is displayed before row `j`: it has the smaller ordering index, or
/// the same one and was stored earlier.
pub open spec fn precedes(keys: Seq<i32>, i: int, j: int) -> bool {
    keys[i] < keys[j] || (keys[i] == keys[j] && i < j)
}

/// `pos` lists the positions of the rows marked in `member`, each once, in
/// display order: by ordering index ascending, rows with equal index in the
/// order in which they are stored.
pub open spec fn is_listing(pos: Seq<usize>, keys: Seq<i32>, member: Seq<bool>) -> bool {
    &&& keys.len() == member.len()
    &&& pos.len() == count_true(member)
    &&& forall|k: int|
        0 <= k < pos.len() ==> (#[trigger] pos[k]) < keys.len() && member[pos[k] as int]
    &&& forall|i: int|
        0 <= i < keys.len() && #[trigger] member[i] ==> exists|k: int|
            0 <= k < pos.len() && #[trigger] pos[k] == i
    &&& forall|a: int, b: int|
        0 <= a < b < pos.len() ==> precedes(keys, #[trigger] pos[a] as int, #[trigger] pos[b] as int)
}

/// Counting over one more entry adds that entry.
pub proof fn lemma_count_true_push(m: Seq<bool>, b: bool)
    ensures
        count_true(m.push(b)) == count_true(m) + if b { 1nat } else { 0nat },
{
    assert(m.push(b).drop_last() =~= m);
}

/// A sequence of `true` alone counts its length.
pub proof fn lemma_count_true_all(m: Seq<bool>)
    requires
        forall|i: int| 0 <= i < m.len() ==> m[i],
    ensures
        count_true(m) == m.len(),
    decreases m.len(),
{
    if m.len() > 0 {
        lemma_count_true_all(m.drop_last());
    }
}

/// A sequence without a `true` counts nothing.
pub proof fn lemma_count_true_none(m: Seq<bool>)
    requires
        forall|i: int| 0 <= i < m.len() ==> !#[trigger] m[i],
    ensures
        count_true(m) == 0,
    decreases m.len(),
{
    if m.len() > 0 {
        assert(!m[m.len() - 1]);
        assert forall|i: int| 0 <= i < m.drop_last().len() implies !#[trigger] m.drop_last()[i] by {
            assert(!m[i]);
        }
        lemma_count_true_none(m.drop_last());
    }
}

/// The count never exceeds the length.
pub proof fn lemma_count_true_bound(m: Seq<bool>)
    ensures
        count_true(m) <= m.len(),
    decreases m.len(),
{
    if m.len() > 0 {
        lemma_count_true_bound(m.drop_last());
    }
}

/// Computes the display order of the rows marked in `member`, whose ordering
/// indices are `keys`: the positions of those rows, sorted by index, ties in
/// storage order.
pub fn order_positions(keys: &Vec<i32>, member: &Vec<bool>) -> (pos: Vec<usize>)
    requires
        keys.len() == member.len(),
    ensures
        is_listing(pos@, keys@, member@),
{
    let mut pos: Vec<usize> = Vec::new();
    let mut i: usize = 0;
    while i < keys.len()
        invariant
            keys.len() == member.len(),
            i <= keys.len(),
            pos.len() == count_true(member@.take(i as int)),
            forall|k: int| 0 <= k < pos.len() ==> (#[trigger] pos[k]) < i && member[pos[k] as int],
            forall|j: int|
                0 <= j < i && #[trigger] member[j] ==> exists|k: int|
                    0 <= k < pos.len() && #[trigger] pos[k] == j,
            forall|a: int, b: int|
                0 <= a < b < pos.len() ==> precedes(
                    keys@,
                    #[trigger] pos[a] as int,
                    #[trigger] pos[b] as int,
                ),
        decreases keys.len() - i,
    {
        if member[i] {
            let mut p: usize = 0;
            while p < pos.len() && keys[pos[p]] <= keys[i]
                invariant
                    i < keys.len(),
                    p <= pos.len(),
                    forall|k: int| 0 <= k < pos.len() ==> (#[trigger] pos[k]) < i,
                    forall|k: int| 0 <= k < p ==> keys[(#[trigger] pos[k]) as int] <= keys[i as int],
                decreases pos.len() - p,
            {
                p += 1;
            }
            let ghost before = pos@;
            pos.insert(p, i);
            proof {
                assert forall|j: int| 0 <= j < i + 1 && #[trigger] member[j] implies exists|k: int|
                    0 <= k < pos.len() && #[trigger] pos[k] == j by {
                    if j == i {
                        assert(pos[p as int] == j);
                    } else {
                        let k = choose|k: int| 0 <= k < before.len() && #[trigger] before[k] == j;
                        if k < p {
                            assert(pos[k] == j);
                        } else {
                            assert(pos[k + 1] == j);
                        }
                    }
                }
                assert forall|a: int, b: int| 0 <= a < b < pos.len() implies precedes(
                    keys@,
                    #[trigger] pos[a] as int,
                    #[trigger] pos[b] as int,
                ) by {
                    if p < before.len() {
                        assert(keys[before[p as int] as int] > keys[i as int]);
                    }
                    if a < p && b > p {
                        assert(precedes(keys@, before[a] as int, before[b - 1] as int));
                    } else if a > p {
                        assert(precedes(keys@, before[a - 1] as int, before[b - 1] as int));
                    } else if a == p && b > p + 1 {
                        assert(precedes(keys@, before[p as int] as int, before[b - 1] as int));
                    } else if b < p {
                        assert(precedes(keys@, before[a] as int, before[b] as int));
                    }
                }
            }
        }
        proof {
            assert(member@.take(i + 1) =~= member@.take(i as int).push(member[i as int]));
            lemma_count_true_push(member@.take(i as int), member[i as int]);
        }
        i += 1;
    }
    proof {
        assert(member@.take(i as int) =~= member@);
    }
    pos
}

/// `pos` names each row marked in `member` exactly once, and no other.
pub open spec fn covers(pos: Seq<usize>, member: Seq<bool>) -> bool {
    &&& pos.len() == count_true(member)
    &&& forall|k: int|
        0 <= k < pos.len() ==> (#[trigger] pos[k]) < member.len() && member[pos[k] as int]
    &&& forall|i: int|
        0 <= i < member.len() && #[trigger] member[i] ==> exists|k: int|
            0 <= k < pos.len() && #[trigger] pos[k] == i
    &&& forall|a: int, b: int| 0 <= a < b < pos.len() ==> #[trigger] pos[a] != #[trigger] pos[b]
}

/// Each row that `pos` names has its place in `pos` as its ordering index.
pub open spec fn ranked_by(keys: Seq<i32>, pos: Seq<usize>) -> bool {
    forall|k: int| 0 <= k < pos.len() ==> keys[(#[trigger] pos[k]) as int] == k
}

/// Some row marked in `member` has the ordering index `m`.
pub open spec fn index_taken(keys: Seq<i32>, member: Seq<bool>, m: int) -> bool {
    exists|i: int| 0 <= i < keys.len() && member[i] && #[trigger] keys[i] == m
}

/// The ordering indices of the rows marked in `member` are the numbers from 0
/// up to their count, each taken exactly once.
pub open spec fn dense(keys: Seq<i32>, member: Seq<bool>) -> bool {
    &&& keys.len() == member.len()
    &&& forall|i: int|
        0 <= i < keys.len() && #[trigger] member[i] ==> 0 <= keys[i] < count_true(member)
    &&& forall|i: int, j: int|
        0 <= i < j < keys.len() && #[trigger] member[i] && #[trigger] member[j] ==> keys[i]
            != keys[j]
    &&& forall|m: int| 0 <= m < count_true(member) ==> #[trigger] index_taken(keys, member, m)
}

/// A listing names each marked row exactly once.
pub proof fn lemma_listing_covers(pos: Seq<usize>, keys: Seq<i32>, member: Seq<bool>)
    requires
        is_listing(pos, keys, member),
    ensures
        covers(pos, member),
{
    assert forall|a: int, b: int| 0 <= a < b < pos.len() implies #[trigger] pos[a]
        != #[trigger] pos[b] by {
        assert(precedes(keys, pos[a] as int, pos[b] as int));
    }
}

/// Moving one entry of a list that names each marked row once gives such a
/// list again.
pub proof fn lemma_reorder_covers(pos: Seq<usize>, member: Seq<bool>, from: int, to: int)
    requires
        covers(pos, member),
    ensures
        covers(reordered(pos, from, to), member),
{
    let moved = reordered(pos, from, to);
    let n = pos.len() as int;
    lemma_reorder_is_rearrangement(pos, from, to);
    assert forall|k: int| 0 <= k < moved.len() implies (#[trigger] moved[k]) < member.len()
        && member[moved[k] as int] by {
        let src = reorder_source(n, from, to, k);
        assert(moved[k] == pos[src]);
    }
    assert forall|i: int| 0 <= i < member.len() && #[trigger] member[i] implies exists|k: int|
        0 <= k < moved.len() && #[trigger] moved[k] == i by {
        let j = choose|j: int| 0 <= j < pos.len() && #[trigger] pos[j] == i;
        let k = reorder_target(n, from, to, j);
        assert(reorder_source(n, from, to, k) == j);
        assert(moved[k] == pos[j]);
    }
    assert forall|a: int, b: int| 0 <= a < b < moved.len() implies #[trigger] moved[a]
        != #[trigger] moved[b] by {
        let sa = reorder_source(n, from, to, a);
        let sb = reorder_source(n, from, to, b);
        assert(reorder_target(n, from, to, sa) == a);
        assert(reorder_target(n, from, to, sb) == b);
        assert(sa != sb);
        if sa < sb {
            assert(pos[sa] != pos[sb]);
        } else {
            assert(pos[sb] != pos[sa]);
        }
    }
}

/// When every marked row has its place in `pos` as its ordering index, the
/// indices are dense and `pos` is the display order.
pub proof fn lemma_ranked_is_dense(keys: Seq<i32>, member: Seq<bool>, pos: Seq<usize>)
    requires
        keys.len() == member.len(),
        covers(pos, member),
        ranked_by(keys, pos),
    ensures
        dense(keys, member),
        is_listing(pos, keys, member),
{
    assert forall|i: int| 0 <= i < keys.len() && #[trigger] member[i] implies 0 <= keys[i]
        < count_true(member) by {
        let k = choose|k: int| 0 <= k < pos.len() && #[trigger] pos[k] == i;
        assert(keys[pos[k] as int] == k);
    }
    assert forall|i: int, j: int|
        0 <= i < j < keys.len() && #[trigger] member[i] && #[trigger] member[j] implies keys[i]
        != keys[j] by {
        let a = choose|k: int| 0 <= k < pos.len() && #[trigger] pos[k] == i;
        let b = choose|k: int| 0 <= k < pos.len() && #[trigger] pos[k] == j;
        assert(keys[pos[a] as int] == a);
        assert(keys[pos[b] as int] == b);
    }
    assert forall|m: int| 0 <= m < count_true(member) implies #[trigger] index_taken(
        keys,
        member,
        m,
    ) by {
        let i = pos[m] as int;
        assert(keys[i] == m);
    }
    assert forall|a: int, b: int| 0 <= a < b < pos.len() implies precedes(
        keys,
        #[trigger] pos[a] as int,
        #[trigger] pos[b] as int,
    ) by {
        assert(keys[pos[a] as int] == a);
        assert(keys[pos[b] as int] == b);
    }
}

/// Rows that are renumbered by their places in the display order keep that
/// order: of two marked rows, the one that was displayed first has the
/// smaller new index.
pub proof fn lemma_ranks_keep_order(
    pos: Seq<usize>,
    keys: Seq<i32>,
    ranks: Seq<i32>,
    member: Seq<bool>,
)
    requires
        is_listing(pos, keys, member),
        ranks.len() == keys.len(),
        ranked_by(ranks, pos),
    ensures
        forall|i: int, j: int|
            0 <= i < keys.len() && 0 <= j < keys.len() && #[trigger] member[i]
                && #[trigger] member[j] ==> (ranks[i] < ranks[j] <==> precedes(keys, i, j)),
{
    assert forall|i: int, j: int|
        0 <= i < keys.len() && 0 <= j < keys.len() && #[trigger] member[i]
            && #[trigger] member[j] implies (ranks[i] < ranks[j] <==> precedes(keys, i, j)) by {
        let a = choose|a: int| 0 <= a < pos.len() && #[trigger] pos[a] == i;
        let b = choose|b: int| 0 <= b < pos.len() && #[trigger] pos[b] == j;
        assert(ranks[pos[a] as int] == a);
        assert(ranks[pos[b] as int] == b);
        if a < b {
            assert(precedes(keys, pos[a] as int, pos[b] as int));
        } else if b < a {
            assert(precedes(keys, pos[b] as int, pos[a] as int));
        }
    }
}

/// The display order is unique: two listings of the same rows are equal.
pub proof fn lemma_listing_unique(
    first: Seq<usize>,
    second: Seq<usize>,
    keys: Seq<i32>,
    member: Seq<bool>,
)
    requires
        is_listing(first, keys, member),
        is_listing(second, keys, member),
    ensures
        first == second,
{
    lemma_listing_agree(first, second, keys, member, first.len() as int);
    assert(first =~= second);
}

/// Two listings of the same rows agree on their first `upto` places.
proof fn lemma_listing_agree(
    first: Seq<usize>,
    second: Seq<usize>,
    keys: Seq<i32>,
    member: Seq<bool>,
    upto: int,
)
    requires
        is_listing(first, keys, member),
        is_listing(second, keys, member),
        0 <= upto <= first.len(),
    ensures
        forall|k: int| 0 <= k < upto ==> first[k] == second[k],
    decreases upto,
{
    if upto > 0 {
        lemma_listing_agree(first, second, keys, member, upto - 1);
        let k = upto - 1;
        let x = first[k];
        let y = second[k];
        if x != y {
            assert(member[x as int]);
            let m = choose|m: int| 0 <= m < second.len() && #[trigger] second[m] == x as int;
            if m < k {
                assert(first[m] == second[m]);
                assert(precedes(keys, first[m] as int, first[k] as int));
            }
            assert(precedes(keys, second[k] as int, second[m] as int));
            assert(member[y as int]);
            let n = choose|n: int| 0 <= n < first.len() && #[trigger] first[n] == y as int;
            if n < k {
                assert(first[n] == second[n]);
                assert(precedes(keys, second[n] as int, second[k] as int));
            }
            assert(precedes(keys, first[k] as int, first[n] as int));
        }
    }
}

/// A dense collection that gains one marked row whose ordering index is the
/// number of marked rows there were stays dense.
pub proof fn lemma_dense_push(
    keys: Seq<i32>,
    member: Seq<bool>,
    keys_after: Seq<i32>,
    member_after: Seq<bool>,
)
    requires
        dense(keys, member),
        keys_after == keys.push(count_true(member) as i32),
        member_after == member.push(true),
        count_true(member) <= i32::MAX,
    ensures
        dense(keys_after, member_after),
        count_true(member_after) == count_true(member) + 1,
{
    lemma_count_true_push(member, true);
    let n = count_true(member) as int;
    assert forall|m: int| 0 <= m < n + 1 implies #[trigger] index_taken(
        keys_after,
        member_after,
        m,
    ) by {
        if m < n {
            assert(index_taken(keys, member, m));
            let i = choose|i: int| 0 <= i < keys.len() && member[i] && #[trigger] keys[i] == m;
            assert(keys_after[i] == m && member_after[i]);
        } else {
            assert(keys_after[keys.len() as int] == m && member_after[keys.len() as int]);
        }
    }
    assert forall|i: int, j: int|
        0 <= i < j < keys_after.len() && #[trigger] member_after[i]
            && #[trigger] member_after[j] implies keys_after[i] != keys_after[j] by {
        if j < keys.len() {
            assert(member[i] && member[j]);
        } else {
            assert(member[i]);
        }
    }
    assert forall|i: int| 0 <= i < keys_after.len() && #[trigger] member_after[i] implies 0
        <= keys_after[i] < n + 1 by {
        if i < keys.len() {
            assert(member[i]);
        }
    }
}

/// Marking one more entry adds one to the count.
pub proof fn lemma_count_true_mark(m: Seq<bool>, at: int)
    requires
        0 <= at < m.len(),
        !m[at],
    ensures
        count_true(m.update(at, true)) == count_true(m) + 1,
    decreases m.len(),
{
    let marked = m.update(at, true);
    if at == m.len() - 1 {
        assert(marked.drop_last() =~= m.drop_last());
    } else {
        assert(marked.drop_last() =~= m.drop_last().update(at, true));
        lemma_count_true_mark(m.drop_last(), at);
    }
}

/// A dense collection in which one more row is marked, whose ordering index
/// is the number of marked rows there were, stays dense.
pub proof fn lemma_dense_mark(keys: Seq<i32>, member: Seq<bool>, at: int)
    requires
        dense(keys, member),
        0 <= at < member.len(),
        !member[at],
        keys[at] == count_true(member),
    ensures
        dense(keys, member.update(at, true)),
        count_true(member.update(at, true)) == count_true(member) + 1,
{
    let marked = member.update(at, true);
    let n = count_true(member) as int;
    lemma_count_true_mark(member, at);
    assert forall|m: int| 0 <= m < n + 1 implies #[trigger] index_taken(keys, marked, m) by {
        if m < n {
            assert(index_taken(keys, member, m));
            let i = choose|i: int| 0 <= i < keys.len() && member[i] && #[trigger] keys[i] == m;
            assert(marked[i] && keys[i] == m);
        } else {
            assert(marked[at] && keys[at] == m);
        }
    }
    assert forall|i: int, j: int|
        0 <= i < j < keys.len() && #[trigger] marked[i] && #[trigger] marked[j] implies keys[i]
        != keys[j] by {
        if i == at {
            assert(member[j]);
        } else if j == at {
            assert(member[i]);
        } else {
            assert(member[i] && member[j]);
        }
    }
    assert forall|i: int| 0 <= i < keys.len() && #[trigger] marked[i] implies 0 <= keys[i] < n
        + 1 by {
        if i != at {
            assert(member[i]);
        }
    }
}

/// The rows that `pos` names, in the order of `pos`.
pub open spec fn listed<T>(rows: Seq<T>, pos: Seq<usize>) -> Seq<T> {
    Seq::new(pos.len(), |k: int| rows[pos[k] as int])
}

/// Some join record among `rows` names the script.
pub open spec fn names_script(rows: Seq<Relation>, script_id: i32) -> bool {
    exists|i: int| 0 <= i < rows.len() && (#[trigger] rows[i]).script_id == script_id
}

/// The join records whose script no record among `remaining` names.
pub open spec fn last_of_script(remaining: Seq<Relation>) -> spec_fn(Relation) -> bool {
    |r: Relation| !names_script(remaining, r.script_id)
}

/// The scripts that the records name, one for each record.
pub open spec fn script_ids(rows: Seq<Relation>) -> Seq<i32> {
    rows.map_values(|r: Relation| r.script_id)
}

/// Tells whether some join record among `rows` names the script.
pub fn any_names_script(rows: &Vec<Relation>, script_id: i32) -> (yes: bool)
    ensures
        yes == names_script(rows@, script_id),
{
    let mut i: usize = 0;
    while i < rows.len()
        invariant
            i <= rows.len(),
            forall|k: int| 0 <= k < i ==> (#[trigger] rows@[k]).script_id != script_id,
        decreases rows.len() - i,
    {
        if rows[i].script_id == script_id {
            return true;
        }
        i += 1;
    }
    false
}

/// Which scripts a deletion orphans: given the join records that were
/// removed and those that remain, the scripts of the removed records that
/// no remaining record names, in the order of the removed records.
pub fn cascade_orphans(deleted: &Vec<Relation>, remaining: &Vec<Relation>) -> (orphans: Vec<i32>)
    ensures
        orphans@ == script_ids(deleted@.filter(last_of_script(remaining@))),
        forall|k: int|
            0 <= k < orphans.len() ==> !names_script(remaining@, #[trigger] orphans@[k])
                && names_script(deleted@, orphans@[k]),
        forall|j: int|
            0 <= j < deleted.len() && !names_script(remaining@, (#[trigger] deleted@[j]).script_id)
                ==> orphans@.contains(deleted@[j].script_id),
{
    let mut orphans: Vec<i32> = Vec::new();
    let mut i: usize = 0;
    proof {
        reveal(Seq::filter);
        assert(deleted@.take(0) =~= Seq::<Relation>::empty());
        assert(orphans@ =~= script_ids(deleted@.take(0).filter(last_of_script(remaining@))));
    }
    while i < deleted.len()
        invariant
            i <= deleted.len(),
            orphans@ == script_ids(deleted@.take(i as int).filter(last_of_script(remaining@))),
            forall|k: int|
                0 <= k < orphans.len() ==> !names_script(remaining@, #[trigger] orphans@[k])
                    && names_script(deleted@, orphans@[k]),
            forall|j: int|
                0 <= j < i && !names_script(remaining@, (#[trigger] deleted@[j]).script_id)
                    ==> orphans@.contains(deleted@[j].script_id),
        decreases deleted.len() - i,
    {
        let script_id = deleted[i].script_id;
        let ghost before = orphans@;
        let ghost kept = deleted@.take(i as int).filter(last_of_script(remaining@));
        proof {
            assert(deleted@.take(i + 1) =~= deleted@.take(i as int).push(deleted@[i as int]));
            lemma_filter_push(deleted@.take(i as int), deleted@[i as int], last_of_script(remaining@));
        }
        if !any_names_script(remaining, script_id) {
            orphans.push(script_id);
            proof {
                assert(orphans@ =~= script_ids(kept.push(deleted@[i as int])));
                assert(orphans@[orphans@.len() - 1] == script_id);
            }
        }
        proof {
            assert forall|j: int|
                0 <= j < i + 1 && !names_script(remaining@, (#[trigger] deleted@[j]).script_id)
                implies orphans@.contains(deleted@[j].script_id) by {
                if j < i {
                    let k = choose|k: int|
                        0 <= k < before.len() && before[k] == deleted@[j].script_id;
                    assert(orphans@[k] == deleted@[j].script_id);
                }
            }
        }
        i += 1;
    }
    proof {
        assert(deleted@.take(i as int) =~= deleted@);
    }
    orphans
}

/// The ordering index that a list of explicit assignments leaves a folder
/// with: that of the last assignment that names the folder, or `current`
/// when none does.
pub open spec fn assigned(updates: Seq<FolderOrderUpdate>, folder_id: i32, current: i32) -> i32
    decreases updates.len(),
{
    if updates.len() == 0 {
        current
    } else if updates.last().folder_id == folder_id {
        updates.last().new_ordering
    } else {
        assigned(updates.drop_last(), folder_id, current)
    }
}

} // verus!
