//! Ordering texts and paths, and a stable sort that gives the order of a list
//! of keys.
use vstd::prelude::*;

verus! {

/// Lexicographic order of texts by code point (`char` order), which is the order of
/// `String`'s `Ord` (UTF-8 byte order).
pub open spec fn chars_less(a: Seq<char>, b: Seq<char>) -> bool
    decreases a.len(),
{
    if a.len() == 0 {
        b.len() > 0
    } else if b.len() == 0 {
        false
    } else if a[0] != b[0] {
        a[0] < b[0]
    } else {
        chars_less(a.drop_first(), b.drop_first())
    }
}

/// Lexicographic order of paths, component by component, which is the order
/// of `Path`'s `Ord` for paths made of plain components.
pub open spec fn path_less(a: Seq<Seq<char>>, b: Seq<Seq<char>>) -> bool
    decreases a.len(),
{
    if a.len() == 0 {
        b.len() > 0
    } else if b.len() == 0 {
        false
    } else if a[0] != b[0] {
        chars_less(a[0], b[0])
    } else {
        path_less(a.drop_first(), b.drop_first())
    }
}

pub proof fn lemma_chars_less_irreflexive(a: Seq<char>)
    ensures
        !chars_less(a, a),
    decreases a.len(),
{
    if a.len() > 0 {
        lemma_chars_less_irreflexive(a.drop_first());
    }
}

proof fn lemma_chars_less_transitive(a: Seq<char>, b: Seq<char>, c: Seq<char>)
    requires
        chars_less(a, b),
        chars_less(b, c),
    ensures
        chars_less(a, c),
    decreases a.len(),
{
    if a.len() > 0 && b.len() > 0 && c.len() > 0 {
        if a[0] == b[0] && b[0] == c[0] {
            lemma_chars_less_transitive(a.drop_first(), b.drop_first(), c.drop_first());
        }
    }
}

proof fn lemma_chars_less_total(a: Seq<char>, b: Seq<char>)
    requires
        a != b,
    ensures
        chars_less(a, b) || chars_less(b, a),
    decreases a.len(),
{
    if a.len() > 0 && b.len() > 0 {
        if a[0] == b[0] {
            if a.drop_first() == b.drop_first() {
                assert(a == seq![a[0]] + a.drop_first());
                assert(b == seq![b[0]] + b.drop_first());
            }
            lemma_chars_less_total(a.drop_first(), b.drop_first());
        }
    } else if a.len() == 0 && b.len() == 0 {
        assert(a == b);
    }
}

proof fn lemma_path_less_irreflexive(a: Seq<Seq<char>>)
    ensures
        !path_less(a, a),
    decreases a.len(),
{
    if a.len() > 0 {
        lemma_path_less_irreflexive(a.drop_first());
    }
}

proof fn lemma_path_less_transitive(a: Seq<Seq<char>>, b: Seq<Seq<char>>, c: Seq<Seq<char>>)
    requires
        path_less(a, b),
        path_less(b, c),
    ensures
        path_less(a, c),
    decreases a.len(),
{
    if a.len() > 0 && b.len() > 0 && c.len() > 0 {
        if a[0] == b[0] && b[0] == c[0] {
            lemma_path_less_transitive(a.drop_first(), b.drop_first(), c.drop_first());
        } else if a[0] != b[0] && b[0] != c[0] {
            lemma_chars_less_transitive(a[0], b[0], c[0]);
            if a[0] == c[0] {
                lemma_chars_less_irreflexive(a[0]);
            }
        }
    }
}

proof fn lemma_path_less_total(a: Seq<Seq<char>>, b: Seq<Seq<char>>)
    requires
        a != b,
    ensures
        path_less(a, b) || path_less(b, a),
    decreases a.len(),
{
    if a.len() > 0 && b.len() > 0 {
        if a[0] == b[0] {
            if a.drop_first() == b.drop_first() {
                assert(a == seq![a[0]] + a.drop_first());
                assert(b == seq![b[0]] + b.drop_first());
            }
            lemma_path_less_total(a.drop_first(), b.drop_first());
        } else {
            lemma_chars_less_total(a[0], b[0]);
        }
    } else if a.len() == 0 && b.len() == 0 {
        assert(a == b);
    }
}

/// Decides `chars_less`.
pub fn chars_lt(a: &Vec<char>, b: &Vec<char>) -> (r: bool)
    ensures
        r == chars_less(a@, b@),
{
    let mut i: usize = 0;
    assert(a@.skip(0) == a@ && b@.skip(0) == b@);
    while i < a.len() && i < b.len() && a[i] == b[i]
        invariant
            i <= a@.len(),
            i <= b@.len(),
            chars_less(a@, b@) == chars_less(a@.skip(i as int), b@.skip(i as int)),
        decreases a@.len() - i,
    {
        proof {
            assert(a@.skip(i as int).drop_first() == a@.skip(i + 1));
            assert(b@.skip(i as int).drop_first() == b@.skip(i + 1));
        }
        i = i + 1;
    }
    if i == a.len() {
        i < b.len()
    } else if i == b.len() {
        false
    } else {
        a[i] < b[i]
    }
}

/// Decides `path_less`.
pub fn path_lt(a: &Vec<Vec<char>>, b: &Vec<Vec<char>>) -> (r: bool)
    ensures
        r == path_less(char_views(a@), char_views(b@)),
{
    let ghost va = char_views(a@);
    let ghost vb = char_views(b@);
    let mut i: usize = 0;
    assert(va.skip(0) == va && vb.skip(0) == vb);
    while i < a.len() && i < b.len() && !chars_lt(&a[i], &b[i]) && !chars_lt(&b[i], &a[i])
        invariant
            i <= a@.len(),
            i <= b@.len(),
            va == char_views(a@),
            vb == char_views(b@),
            path_less(va, vb) == path_less(va.skip(i as int), vb.skip(i as int)),
        decreases a@.len() - i,
    {
        proof {
            if a@[i as int]@ != b@[i as int]@ {
                lemma_chars_less_total(a@[i as int]@, b@[i as int]@);
            }
            assert(va[i as int] == a@[i as int]@);
            assert(vb[i as int] == b@[i as int]@);
            assert(va.skip(i as int).drop_first() == va.skip(i + 1));
            assert(vb.skip(i as int).drop_first() == vb.skip(i + 1));
        }
        i = i + 1;
    }
    if i == a.len() {
        i < b.len()
    } else if i == b.len() {
        false
    } else {
        proof {
            assert(va[i as int] == a@[i as int]@);
            assert(vb[i as int] == b@[i as int]@);
            if a@[i as int]@ == b@[i as int]@ {
                lemma_chars_less_irreflexive(a@[i as int]@);
            }
        }
        chars_lt(&a[i], &b[i])
    }
}

/// The views of a vector of character vectors.
pub open spec fn char_views(v: Seq<Vec<char>>) -> Seq<Seq<char>> {
    v.map_values(|x: Vec<char>| x@)
}

/// Whether the item with key `x` comes strictly before the item with key
/// `y`: ascending order of paths, or descending order when `descending`.
pub open spec fn comes_before(x: Seq<Seq<char>>, y: Seq<Seq<char>>, descending: bool) -> bool {
    if descending {
        path_less(y, x)
    } else {
        path_less(x, y)
    }
}

/// Puts index `x` into `order` after every index that does not come after it.
pub open spec fn insert_in_order(
    order: Seq<int>,
    x: int,
    keys: Seq<Seq<Seq<char>>>,
    descending: bool,
) -> Seq<int>
    decreases order.len(),
{
    if order.len() == 0 {
        seq![x]
    } else if comes_before(keys[x], keys[order[0]], descending) {
        seq![x] + order
    } else {
        seq![order[0]] + insert_in_order(order.drop_first(), x, keys, descending)
    }
}

/// The order of the first `n` keys that a stable insertion sort gives.
pub open spec fn sorted_prefix(keys: Seq<Seq<Seq<char>>>, descending: bool, n: nat) -> Seq<int>
    decreases n,
{
    if n == 0 {
        Seq::empty()
    } else {
        insert_in_order(sorted_prefix(keys, descending, (n - 1) as nat), n - 1, keys, descending)
    }
}

/// The indices of the keys in the order of a stable sort (ascending, or
/// descending when `descending`): what `sort_by` with that comparison gives.
pub open spec fn stable_order(keys: Seq<Seq<Seq<char>>>, descending: bool) -> Seq<int> {
    sorted_prefix(keys, descending, keys.len())
}

proof fn lemma_insert_at(
    order: Seq<int>,
    x: int,
    keys: Seq<Seq<Seq<char>>>,
    descending: bool,
    p: int,
)
    requires
        0 <= p <= order.len(),
        forall|q: int| 0 <= q < p ==> !comes_before(keys[x], keys[#[trigger] order[q]], descending),
        p == order.len() || comes_before(keys[x], keys[order[p]], descending),
    ensures
        insert_in_order(order, x, keys, descending) == order.take(p) + seq![x] + order.skip(p),
    decreases p,
{
    if p == 0 {
        assert(order.take(0) + seq![x] + order.skip(0) == seq![x] + order);
        if order.len() == 0 {
            assert(seq![x] + order == seq![x]);
        }
    } else {
        let rest = order.drop_first();
        assert forall|q: int| 0 <= q < p - 1 implies !comes_before(
            keys[x],
            keys[#[trigger] rest[q]],
            descending,
        ) by {
            assert(rest[q] == order[q + 1]);
        }
        lemma_insert_at(rest, x, keys, descending, p - 1);
        assert(seq![order[0]] + (rest.take(p - 1) + seq![x] + rest.skip(p - 1)) == order.take(p)
            + seq![x] + order.skip(p));
    }
}

proof fn lemma_comes_before_irreflexive(x: Seq<Seq<char>>, descending: bool)
    ensures
        !comes_before(x, x, descending),
{
    lemma_path_less_irreflexive(x);
}

proof fn lemma_comes_before_transitive(
    x: Seq<Seq<char>>,
    y: Seq<Seq<char>>,
    z: Seq<Seq<char>>,
    descending: bool,
)
    requires
        comes_before(x, y, descending),
        comes_before(y, z, descending),
    ensures
        comes_before(x, z, descending),
{
    if descending {
        lemma_path_less_transitive(z, y, x);
    } else {
        lemma_path_less_transitive(x, y, z);
    }
}

/// Where `insert_in_order` puts `x`.
spec fn insert_pos(order: Seq<int>, x: int, keys: Seq<Seq<Seq<char>>>, descending: bool) -> int
    decreases order.len(),
{
    if order.len() == 0 {
        0
    } else if comes_before(keys[x], keys[order[0]], descending) {
        0
    } else {
        1 + insert_pos(order.drop_first(), x, keys, descending)
    }
}

proof fn lemma_insert_pos(order: Seq<int>, x: int, keys: Seq<Seq<Seq<char>>>, descending: bool)
    ensures
        0 <= insert_pos(order, x, keys, descending) <= order.len(),
        forall|q: int|
            0 <= q < insert_pos(order, x, keys, descending) ==> !comes_before(
                keys[x],
                keys[#[trigger] order[q]],
                descending,
            ),
        insert_pos(order, x, keys, descending) == order.len() || comes_before(
            keys[x],
            keys[order[insert_pos(order, x, keys, descending)]],
            descending,
        ),
    decreases order.len(),
{
    if order.len() > 0 && !comes_before(keys[x], keys[order[0]], descending) {
        let rest = order.drop_first();
        lemma_insert_pos(rest, x, keys, descending);
        let p = insert_pos(order, x, keys, descending);
        assert forall|q: int| 0 <= q < p implies !comes_before(
            keys[x],
            keys[#[trigger] order[q]],
            descending,
        ) by {
            if q > 0 {
                assert(order[q] == rest[q - 1]);
            }
        }
        if p < order.len() {
            assert(order[p] == rest[p - 1]);
        }
    }
}

/// What a stable sort promises of an index order over `n` keys.
pub open spec fn is_stable_sorted(
    o: Seq<int>,
    keys: Seq<Seq<Seq<char>>>,
    descending: bool,
    n: int,
) -> bool {
    &&& o.len() == n
    &&& forall|i: int| 0 <= i < o.len() ==> 0 <= #[trigger] o[i] < n
    &&& o.no_duplicates()
    &&& forall|i: int, j: int|
        0 <= i < j < o.len() ==> !comes_before(keys[#[trigger] o[j]], keys[#[trigger] o[i]], descending)
    &&& forall|i: int, j: int|
        0 <= i < j < o.len() && keys[#[trigger] o[i]] == keys[#[trigger] o[j]] ==> o[i] < o[j]
}

proof fn lemma_sorted_prefix(keys: Seq<Seq<Seq<char>>>, descending: bool, n: nat)
    requires
        n <= keys.len(),
    ensures
        is_stable_sorted(sorted_prefix(keys, descending, n), keys, descending, n as int),
    decreases n,
{
    if n > 0 {
        let m = (n - 1) as nat;
        lemma_sorted_prefix(keys, descending, m);
        let o = sorted_prefix(keys, descending, m);
        let x = m as int;
        lemma_insert_pos(o, x, keys, descending);
        let p = insert_pos(o, x, keys, descending);
        lemma_insert_at(o, x, keys, descending, p);
        let o2 = sorted_prefix(keys, descending, n);
        assert(o2 == o.take(p) + seq![x] + o.skip(p));
        assert forall|i: int| 0 <= i < o2.len() implies #[trigger] o2[i] == if i < p {
            o[i]
        } else if i == p {
            x
        } else {
            o[i - 1]
        } by {}
        assert forall|i: int| 0 <= i < o2.len() implies 0 <= #[trigger] o2[i] < n by {}
        assert forall|i: int, j: int| 0 <= i < j < o2.len() implies !comes_before(
            keys[#[trigger] o2[j]],
            keys[#[trigger] o2[i]],
            descending,
        ) by {
            if j < p {
                assert(o2[i] == o[i] && o2[j] == o[j]);
            } else if j == p {
                assert(o2[i] == o[i]);
            } else if i < p {
                assert(o2[i] == o[i] && o2[j] == o[j - 1]);
            } else if i == p {
                let y = o[j - 1];
                assert(o2[j] == y);
                if comes_before(keys[y], keys[x], descending) {
                    lemma_comes_before_transitive(keys[y], keys[x], keys[o[p]], descending);
                    if j - 1 == p {
                        lemma_comes_before_irreflexive(keys[y], descending);
                    }
                }
            } else {
                assert(o2[i] == o[i - 1] && o2[j] == o[j - 1]);
            }
        }
        assert forall|i: int, j: int|
            0 <= i < j < o2.len() && keys[#[trigger] o2[i]] == keys[#[trigger] o2[j]] implies o2[i]
            < o2[j] by {
            if j < p {
                assert(o2[i] == o[i] && o2[j] == o[j]);
            } else if j == p {
                assert(o2[i] == o[i]);
            } else if i < p {
                assert(o2[i] == o[i] && o2[j] == o[j - 1]);
            } else if i == p {
                let y = o[j - 1];
                assert(o2[j] == y);
                assert(comes_before(keys[y], keys[o[p]], descending));
                if j - 1 == p {
                    lemma_comes_before_irreflexive(keys[y], descending);
                }
            } else {
                assert(o2[i] == o[i - 1] && o2[j] == o[j - 1]);
            }
        }
        assert(o2.no_duplicates()) by {
            assert forall|i: int, j: int| 0 <= i < o2.len() && 0 <= j < o2.len() && i != j implies o2[i]
                != o2[j] by {
                if i != p && j != p {
                    let a = if i < p { i } else { i - 1 };
                    let b = if j < p { j } else { j - 1 };
                    assert(o2[i] == o[a] && o2[j] == o[b]);
                } else if i == p {
                    let b = if j < p { j } else { j - 1 };
                    assert(o2[j] == o[b]);
                } else {
                    let a = if i < p { i } else { i - 1 };
                    assert(o2[i] == o[a]);
                }
            }
        }
    }
}

/// The stable order holds every index once, puts no item after one that it
/// comes before, and keeps items with equal keys in their original order.
pub proof fn lemma_stable_order_sorted(keys: Seq<Seq<Seq<char>>>, descending: bool)
    ensures
        is_stable_sorted(stable_order(keys, descending), keys, descending, keys.len() as int),
{
    lemma_sorted_prefix(keys, descending, keys.len());
}

/// The stable order of keys as an index list.
pub fn sort_order(keys: &Vec<Vec<Vec<char>>>, descending: bool) -> (order: Vec<usize>)
    ensures
        order@.map_values(|i: usize| i as int) == stable_order(
            keys@.map_values(|k: Vec<Vec<char>>| char_views(k@)),
            descending,
        ),
{
    let ghost ks = keys@.map_values(|k: Vec<Vec<char>>| char_views(k@));
    let mut order: Vec<usize> = Vec::new();
    let mut i: usize = 0;
    while i < keys.len()
        invariant
            i <= keys@.len(),
            ks == keys@.map_values(|k: Vec<Vec<char>>| char_views(k@)),
            order@.map_values(|j: usize| j as int) == sorted_prefix(ks, descending, i as nat),
            forall|q: int| 0 <= q < order@.len() ==> #[trigger] order@[q] < i,
            order@.len() == i,
        decreases keys@.len() - i,
    {
        let ghost prev = order@.map_values(|j: usize| j as int);
        let mut p: usize = 0;
        while p < order.len() && !key_before(&keys[i], &keys[order[p]], descending)
            invariant
                p <= order@.len(),
                i < keys@.len(),
                order@.len() == i,
                forall|q: int| 0 <= q < order@.len() ==> #[trigger] order@[q] < i,
                ks == keys@.map_values(|k: Vec<Vec<char>>| char_views(k@)),
                prev == order@.map_values(|j: usize| j as int),
                forall|q: int|
                    0 <= q < p ==> !comes_before(ks[i as int], ks[#[trigger] prev[q]], descending),
            decreases order@.len() - p,
        {
            proof {
                assert(prev[p as int] == order@[p as int] as int);
            }
            p = p + 1;
        }
        proof {
            if p < order@.len() {
                assert(prev[p as int] == order@[p as int] as int);
            }
            lemma_insert_at(prev, i as int, ks, descending, p as int);
        }
        order.insert(p, i);
        proof {
            let now = order@.map_values(|j: usize| j as int);
            assert(now =~= prev.take(p as int) + seq![i as int] + prev.skip(p as int));
            assert(sorted_prefix(ks, descending, (i + 1) as nat) == insert_in_order(
                sorted_prefix(ks, descending, i as nat),
                i as int,
                ks,
                descending,
            ));
            assert forall|q: int| 0 <= q < order@.len() implies #[trigger] order@[q] < i + 1 by {
                assert(now[q] == order@[q] as int);
                if q < p {
                    assert(now[q] == prev[q]);
                } else if q > p {
                    assert(now[q] == prev[q - 1]);
                }
            }
        }
        i = i + 1;
    }
    order
}

/// Decides `comes_before`.
pub fn key_before(x: &Vec<Vec<char>>, y: &Vec<Vec<char>>, descending: bool) -> (r: bool)
    ensures
        r == comes_before(char_views(x@), char_views(y@), descending),
{
    if descending {
        path_lt(y, x)
    } else {
        path_lt(x, y)
    }
}

} // verus!
