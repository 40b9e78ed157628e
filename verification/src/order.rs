use vstd::prelude::*;

verus! {

/// Lexicographic order on character sequences by code point (the order of
/// `str`'s `Ord`, since UTF-8 preserves code-point order).
pub open spec fn str_less(a: Seq<char>, b: Seq<char>) -> bool
    decreases a.len(),
{
    if a.len() == 0 {
        b.len() > 0
    } else if b.len() == 0 {
        false
    } else if a[0] != b[0] {
        (a[0] as u32) < (b[0] as u32)
    } else {
        str_less(a.drop_first(), b.drop_first())
    }
}

/// Different characters have different code points.
pub proof fn lemma_char_code_injective(a: char, b: char)
    ensures
        a != b ==> (a as u32) != (b as u32),
{
}

/// No text is less than itself.
pub proof fn lemma_str_less_irreflexive(a: Seq<char>)
    ensures
        !str_less(a, a),
    decreases a.len(),
{
    if a.len() > 0 {
        lemma_str_less_irreflexive(a.drop_first());
    }
}

/// The order is transitive.
pub proof fn lemma_str_less_transitive(a: Seq<char>, b: Seq<char>, c: Seq<char>)
    requires
        str_less(a, b),
        str_less(b, c),
    ensures
        str_less(a, c),
    decreases a.len(),
{
    if a.len() > 0 && b.len() > 0 && c.len() > 0 && a[0] == b[0] && b[0] == c[0] {
        lemma_str_less_transitive(a.drop_first(), b.drop_first(), c.drop_first());
    }
}

/// Any two different texts are ordered one way or the other, never both.
#[verifier::spinoff_prover]
pub proof fn lemma_str_less_total(a: Seq<char>, b: Seq<char>)
    ensures
        a == b || str_less(a, b) || str_less(b, a),
        !(str_less(a, b) && str_less(b, a)),
    decreases a.len(),
{
    if a.len() > 0 && b.len() > 0 && a[0] == b[0] {
        lemma_str_less_total(a.drop_first(), b.drop_first());
        if a.drop_first() == b.drop_first() {
            assert forall|i: int| 0 <= i < a.len() implies a[i] == b[i] by {
                if i > 0 {
                    assert(a[i] == a.drop_first()[i - 1]);
                    assert(b[i] == b.drop_first()[i - 1]);
                }
            }
            assert(a =~= b);
        }
    } else if a.len() > 0 && b.len() > 0 {
        lemma_char_code_injective(a[0], b[0]);
    } else if a.len() == 0 && b.len() == 0 {
        assert(a == b);
    }
}

/// Whether `a` comes strictly before `b` in code-point order.
pub fn str_less_chars(a: &[char], b: &[char]) -> (r: bool)
    ensures
        r == str_less(a@, b@),
{
    let mut i: usize = 0;
    assert(a@.skip(0) == a@);
    assert(b@.skip(0) == b@);
    while i < a.len() && i < b.len() && a[i] == b[i]
        invariant
            i <= a.len(),
            i <= b.len(),
            str_less(a@, b@) == str_less(a@.skip(i as int), b@.skip(i as int)),
        decreases a.len() - i,
    {
        assert(a@.skip(i as int).drop_first() == a@.skip(i + 1));
        assert(b@.skip(i as int).drop_first() == b@.skip(i + 1));
        i = i + 1;
    }
    if i == a.len() {
        i < b.len()
    } else if i == b.len() {
        false
    } else {
        (a[i] as u32) < (b[i] as u32)
    }
}

/// A sort key: a rank compared first, then a text compared by code point.
#[derive(Debug)]
pub struct SortKey {
    pub rank: u8,
    pub text: Vec<char>,
}

impl View for SortKey {
    type V = (u8, Seq<char>);

    open spec fn view(&self) -> (u8, Seq<char>) {
        (self.rank, self.text@)
    }
}

/// `a` sorts strictly before `b`.
pub open spec fn key_less(a: (u8, Seq<char>), b: (u8, Seq<char>)) -> bool {
    a.0 < b.0 || (a.0 == b.0 && str_less(a.1, b.1))
}

/// Keys are ordered totally: exactly one of less, same, greater.
pub proof fn lemma_key_order(a: (u8, Seq<char>), b: (u8, Seq<char>), c: (u8, Seq<char>))
    ensures
        key_less(a, b) || a == b || key_less(b, a),
        !(key_less(a, b) && key_less(b, a)),
        !key_less(a, a),
        key_less(a, b) && key_less(b, c) ==> key_less(a, c),
{
    lemma_str_less_total(a.1, b.1);
    lemma_str_less_irreflexive(a.1);
    if key_less(a, b) && key_less(b, c) && a.0 == b.0 && b.0 == c.0 {
        lemma_str_less_transitive(a.1, b.1, c.1);
    }
}

/// Whether `a` sorts strictly before `b`.
pub fn key_less_exec(a: &SortKey, b: &SortKey) -> (r: bool)
    ensures
        r == key_less(a@, b@),
{
    if a.rank != b.rank {
        a.rank < b.rank
    } else {
        str_less_chars(a.text.as_slice(), b.text.as_slice())
    }
}

/// `p` maps each position of `out` to the position in `inp` that it came
/// from, and `out` is in increasing (key, input position) order.
pub open spec fn is_sort_witness<T>(
    inp: Seq<T>,
    out: Seq<T>,
    key: spec_fn(T) -> (u8, Seq<char>),
    p: Seq<int>,
) -> bool {
    &&& out.len() == inp.len()
    &&& p.len() == out.len()
    &&& forall|i: int| 0 <= i < p.len() ==> 0 <= #[trigger] p[i] < inp.len()
    &&& forall|i: int, j: int| 0 <= i < j < p.len() ==> p[i] != p[j]
    &&& forall|i: int| 0 <= i < out.len() ==> #[trigger] out[i] == inp[p[i]]
    &&& forall|i: int, j: int|
        0 <= i < j < out.len() ==> key_less(key(out[i]), key(out[j])) || (key(out[i]) == key(
            out[j],
        ) && p[i] < p[j])
}

/// `out` holds the items of `inp` arranged by `key`, items with the same
/// key keeping their relative order (a stable sort).
pub open spec fn is_stable_sort<T>(inp: Seq<T>, out: Seq<T>, key: spec_fn(T) -> (u8, Seq<char>)) -> bool {
    exists|p: Seq<int>| is_sort_witness(inp, out, key, p)
}

/// The first position in `s` at or after `from` whose key is strictly
/// greater than `k` (or the length of `s`).
pub open spec fn insert_position<T>(s: Seq<T>, k: (u8, Seq<char>), key: spec_fn(T) -> (u8, Seq<char>), from: int) -> int
    decreases s.len() - from,
{
    if from >= s.len() {
        s.len() as int
    } else if key_less(k, key(s[from])) {
        from
    } else {
        insert_position(s, k, key, from + 1)
    }
}

/// Insertion sort by `key`: each item, in input order, goes after every
/// item already placed whose key is not greater than its own.
pub open spec fn insertion_sorted<T>(s: Seq<T>, key: spec_fn(T) -> (u8, Seq<char>)) -> Seq<T>
    decreases s.len(),
{
    if s.len() == 0 {
        s
    } else {
        let r = insertion_sorted(s.drop_last(), key);
        r.insert(insert_position(r, key(s.last()), key, 0), s.last())
    }
}

/// The key of a keyed item.
pub open spec fn item_key<T>(x: (SortKey, T)) -> (u8, Seq<char>) {
    x.0@
}

/// Sorts `items` by key, stably (items with the same key keep their order).
pub fn stable_sort<T>(items: Vec<(SortKey, T)>) -> (out: Vec<(SortKey, T)>)
    ensures
        is_stable_sort(items@, out@, |x: (SortKey, T)| item_key(x)),
        out@ == insertion_sorted(items@, |x: (SortKey, T)| item_key(x)),
{
    let ghost key = |x: (SortKey, T)| item_key(x);
    let ghost inp = items@;
    let mut rest = items;
    let mut out: Vec<(SortKey, T)> = Vec::new();
    let ghost mut p: Seq<int> = Seq::empty();
    let n = rest.len();
    let mut taken: usize = 0;
    while taken < n
        invariant
            n == inp.len(),
            taken <= n,
            rest@ == inp.skip(taken as int),
            out.len() == taken,
            p.len() == taken,
            forall|i: int| 0 <= i < p.len() ==> 0 <= #[trigger] p[i] < taken,
            forall|i: int, j: int| 0 <= i < j < p.len() ==> p[i] != p[j],
            forall|i: int| 0 <= i < out.len() ==> #[trigger] out@[i] == inp[p[i]],
            forall|i: int, j: int|
                0 <= i < j < out.len() ==> key_less(out@[i].0@, out@[j].0@) || (out@[i].0@
                    == out@[j].0@ && p[i] < p[j]),
            key == (|x: (SortKey, T)| item_key(x)),
            out@ == insertion_sorted(inp.take(taken as int), key),
        decreases n - taken,
    {
        let x = rest.remove(0);
        assert(x == inp[taken as int]);
        assert(inp.skip(taken as int).remove(0) == inp.skip(taken + 1));
        let mut j: usize = 0;
        while j < out.len() && !key_less_exec(&x.0, &out[j].0)
            invariant
                j <= out.len(),
                forall|k: int| 0 <= k < j ==> !key_less(x.0@, #[trigger] out@[k].0@),
                key == (|x: (SortKey, T)| item_key(x)),
                insert_position(out@, x.0@, key, 0) == insert_position(out@, x.0@, key, j as int),
            decreases out.len() - j,
        {
            j = j + 1;
        }
        assert(insert_position(out@, x.0@, key, j as int) == j);
        assert(inp.take(taken + 1).drop_last() == inp.take(taken as int));
        assert(inp.take(taken + 1).last() == x);
        proof {
            assert forall|k: int| j <= k < out.len() implies key_less(x.0@, #[trigger] out@[k].0@) by {
                if k > j {
                    lemma_key_order(x.0@, out@[j as int].0@, out@[k].0@);
                }
            }
            assert forall|k: int| 0 <= k < j implies key_less(#[trigger] out@[k].0@, x.0@)
                || out@[k].0@ == x.0@ by {
                lemma_key_order(x.0@, out@[k].0@, x.0@);
            }
        }
        let ghost old_out = out@;
        out.insert(j, x);
        proof {
            p = p.insert(j as int, taken as int);
            assert forall|i: int, k: int| 0 <= i < k < out.len() implies key_less(
                out@[i].0@,
                out@[k].0@,
            ) || (out@[i].0@ == out@[k].0@ && p[i] < p[k]) by {
                if i < j && k < j {
                    assert(out@[i] == old_out[i] && out@[k] == old_out[k]);
                } else if i < j && k == j {
                } else if i < j && k > j {
                    assert(out@[i] == old_out[i] && out@[k] == old_out[k - 1]);
                    lemma_key_order(out@[i].0@, x.0@, out@[k].0@);
                } else if i == j {
                    assert(out@[k] == old_out[k - 1]);
                } else {
                    assert(out@[i] == old_out[i - 1] && out@[k] == old_out[k - 1]);
                }
            }
            assert forall|i: int| 0 <= i < out.len() implies #[trigger] out@[i] == inp[p[i]] by {
                if i < j {
                    assert(out@[i] == old_out[i]);
                } else if i > j {
                    assert(out@[i] == old_out[i - 1]);
                }
            }
        }
        taken = taken + 1;
    }
    assert(is_sort_witness(inp, out@, key, p));
    assert(inp.take(n as int) == inp);
    out
}

/// Sorting pairs by their keys and dropping the keys sorts the items by
/// any key function that agrees with the pairs' keys.
pub proof fn lemma_sort_drop_keys<T>(
    keyed_in: Seq<(SortKey, T)>,
    keyed_out: Seq<(SortKey, T)>,
    inp: Seq<T>,
    out: Seq<T>,
    key: spec_fn(T) -> (u8, Seq<char>),
)
    requires
        is_stable_sort(keyed_in, keyed_out, |x: (SortKey, T)| item_key(x)),
        keyed_in.len() == inp.len(),
        keyed_out.len() == out.len(),
        forall|i: int| 0 <= i < inp.len() ==> (#[trigger] keyed_in[i]).1 == inp[i],
        forall|i: int| 0 <= i < inp.len() ==> key(#[trigger] inp[i]) == keyed_in[i].0@,
        forall|i: int| 0 <= i < out.len() ==> #[trigger] out[i] == keyed_out[i].1,
    ensures
        is_stable_sort(inp, out, key),
{
    let kf = |x: (SortKey, T)| item_key(x);
    let p = choose|p: Seq<int>| is_sort_witness(keyed_in, keyed_out, kf, p);
    assert forall|i: int| 0 <= i < out.len() implies #[trigger] out[i] == inp[p[i]] && key(out[i])
        == keyed_out[i].0@ by {
        assert(keyed_out[i] == keyed_in[p[i]]);
        assert(0 <= p[i] < inp.len());
        assert(keyed_in[p[i]].1 == inp[p[i]] && key(inp[p[i]]) == keyed_in[p[i]].0@);
    }
    assert forall|i: int, j: int| 0 <= i < j < out.len() implies key_less(key(out[i]), key(out[j]))
        || (key(out[i]) == key(out[j]) && p[i] < p[j]) by {
        assert(kf(keyed_out[i]) == keyed_out[i].0@);
        assert(kf(keyed_out[j]) == keyed_out[j].0@);
        assert(out[i] == inp[p[i]]);
        assert(out[j] == inp[p[j]]);
    }
    assert(is_sort_witness(inp, out, key, p));
}


/// Every item of the sorted sequence is an item of the input.
pub proof fn lemma_insertion_sorted_items<T>(s: Seq<T>, key: spec_fn(T) -> (u8, Seq<char>))
    ensures
        insertion_sorted(s, key).len() == s.len(),
        forall|j: int|
            0 <= j < s.len() ==> exists|i: int|
                0 <= i < s.len() && #[trigger] insertion_sorted(s, key)[j] == s[i],
    decreases s.len(),
{
    if s.len() > 0 {
        let d = s.drop_last();
        lemma_insertion_sorted_items(d, key);
        let r = insertion_sorted(d, key);
        lemma_insert_position_bounds(r, key(s.last()), key, 0);
        let pos = insert_position(r, key(s.last()), key, 0);
        assert forall|j: int| 0 <= j < s.len() implies exists|i: int|
            0 <= i < s.len() && #[trigger] insertion_sorted(s, key)[j] == s[i] by {
            let t = insertion_sorted(s, key);
            if j < pos {
                assert(t[j] == r[j]);
                let i = choose|i: int| 0 <= i < d.len() && r[j] == d[i];
                assert(t[j] == s[i]);
            } else if j == pos {
                assert(t[j] == s[s.len() - 1]);
            } else {
                assert(t[j] == r[j - 1]);
                let i = choose|i: int| 0 <= i < d.len() && #[trigger] r[j - 1] == d[i];
                assert(t[j] == s[i]);
            }
        }
    }
}

/// The insert position lies within the sequence (or at its end).
pub proof fn lemma_insert_position_bounds<T>(
    s: Seq<T>,
    k: (u8, Seq<char>),
    key: spec_fn(T) -> (u8, Seq<char>),
    from: int,
)
    requires
        0 <= from,
    ensures
        from <= insert_position(s, k, key, from) <= s.len() || (from > s.len()
            && insert_position(s, k, key, from) == s.len()),
    decreases s.len() - from,
{
    if from < s.len() && !key_less(k, key(s[from])) {
        lemma_insert_position_bounds(s, k, key, from + 1);
    }
}

/// Insert positions agree when the keys agree item by item.
proof fn lemma_insert_position_map<A, B>(
    a: Seq<A>,
    ka: spec_fn(A) -> (u8, Seq<char>),
    g: spec_fn(A) -> B,
    kb: spec_fn(B) -> (u8, Seq<char>),
    k: (u8, Seq<char>),
    from: int,
)
    requires
        forall|i: int| 0 <= i < a.len() ==> ka(a[i]) == kb(g(#[trigger] a[i])),
        0 <= from,
    ensures
        insert_position(a, k, ka, from) == insert_position(a.map_values(g), k, kb, from),
    decreases a.len() - from,
{
    if 0 <= from < a.len() {
        assert(a.map_values(g)[from] == g(a[from]));
        assert(ka(a[from]) == kb(g(a[from])));
        lemma_insert_position_map(a, ka, g, kb, k, from + 1);
    }
}

/// Sorting then mapping each item is sorting the mapped items, when the
/// mapping keeps every item's key.
pub proof fn lemma_insertion_sorted_map<A, B>(
    a: Seq<A>,
    ka: spec_fn(A) -> (u8, Seq<char>),
    g: spec_fn(A) -> B,
    kb: spec_fn(B) -> (u8, Seq<char>),
)
    requires
        forall|i: int| 0 <= i < a.len() ==> ka(a[i]) == kb(g(#[trigger] a[i])),
    ensures
        insertion_sorted(a, ka).map_values(g) == insertion_sorted(a.map_values(g), kb),
    decreases a.len(),
{
    if a.len() > 0 {
        let d = a.drop_last();
        assert forall|i: int| 0 <= i < d.len() implies ka(d[i]) == kb(g(#[trigger] d[i])) by {
            assert(d[i] == a[i]);
        }
        lemma_insertion_sorted_map(d, ka, g, kb);
        let r = insertion_sorted(d, ka);
        lemma_insertion_sorted_items(d, ka);
        assert forall|i: int| 0 <= i < r.len() implies ka(r[i]) == kb(g(#[trigger] r[i])) by {
            let j = choose|j: int| 0 <= j < d.len() && r[i] == d[j];
            assert(ka(d[j]) == kb(g(d[j])));
        }
        let x = a.last();
        assert(ka(x) == kb(g(a[a.len() - 1])));
        lemma_insert_position_map(r, ka, g, kb, ka(x), 0);
        lemma_insert_position_bounds(r, ka(x), ka, 0);
        assert(a.map_values(g).drop_last() == d.map_values(g));
        assert(a.map_values(g).last() == g(x));
        let pos = insert_position(r, ka(x), ka, 0);
        assert(r.insert(pos, x).map_values(g) == r.map_values(g).insert(pos, g(x)));
    }
}

/// No item of `s` has a key less than that of an item before it.
pub open spec fn is_key_ordered<T>(s: Seq<T>, key: spec_fn(T) -> (u8, Seq<char>)) -> bool {
    forall|i: int, j: int| 0 <= i < j < s.len() ==> !key_less(key(s[j]), key(s[i]))
}

/// The insert position comes after every key not greater than `k` and
/// before the first greater one.
proof fn lemma_insert_position_facts<T>(
    s: Seq<T>,
    k: (u8, Seq<char>),
    key: spec_fn(T) -> (u8, Seq<char>),
    from: int,
)
    requires
        0 <= from <= s.len(),
    ensures
        from <= insert_position(s, k, key, from) <= s.len(),
        forall|m: int|
            from <= m < insert_position(s, k, key, from) ==> !key_less(k, key(#[trigger] s[m])),
        insert_position(s, k, key, from) < s.len() ==> key_less(
            k,
            key(s[insert_position(s, k, key, from)]),
        ),
    decreases s.len() - from,
{
    if from < s.len() && !key_less(k, key(s[from])) {
        lemma_insert_position_facts(s, k, key, from + 1);
    }
}

/// Insertion sort orders its output by key.
pub proof fn lemma_insertion_sorted_ordered<T>(s: Seq<T>, key: spec_fn(T) -> (u8, Seq<char>))
    ensures
        is_key_ordered(insertion_sorted(s, key), key),
    decreases s.len(),
{
    if s.len() > 0 {
        let d = s.drop_last();
        lemma_insertion_sorted_ordered(d, key);
        lemma_insertion_sorted_items(d, key);
        let r = insertion_sorted(d, key);
        let x = s.last();
        let kx = key(x);
        lemma_insert_position_facts(r, kx, key, 0);
        let p = insert_position(r, kx, key, 0);
        let t = r.insert(p, x);
        assert(t == insertion_sorted(s, key));
        assert forall|i: int, j: int| 0 <= i < j < t.len() implies !key_less(
            key(t[j]),
            key(t[i]),
        ) by {
            if j < p {
                assert(t[i] == r[i] && t[j] == r[j]);
            } else if j == p {
                assert(t[i] == r[i] && t[j] == x);
            } else if i < p {
                assert(t[i] == r[i] && t[j] == r[j - 1]);
            } else if i == p {
                assert(t[i] == x && t[j] == r[j - 1]);
                assert(key_less(kx, key(r[p])));
                lemma_key_order(key(r[j - 1]), kx, key(r[p]));
                if p < j - 1 {
                    assert(!key_less(key(r[j - 1]), key(r[p])));
                }
            } else {
                assert(t[i] == r[i - 1] && t[j] == r[j - 1]);
            }
        }
    }
}

/// Insertion sort only reorders: the output holds the same items, each as
/// many times, as the input.
pub proof fn lemma_insertion_sorted_multiset<T>(s: Seq<T>, key: spec_fn(T) -> (u8, Seq<char>))
    ensures
        insertion_sorted(s, key).to_multiset() == s.to_multiset(),
    decreases s.len(),
{
    if s.len() > 0 {
        let d = s.drop_last();
        lemma_insertion_sorted_multiset(d, key);
        lemma_insertion_sorted_items(d, key);
        let r = insertion_sorted(d, key);
        let x = s.last();
        lemma_insert_position_facts(r, key(x), key, 0);
        let p = insert_position(r, key(x), key, 0);
        vstd::seq_lib::to_multiset_insert(r, p, x);
        vstd::seq_lib::to_multiset_build(d, x);
        assert(d.push(x) =~= s);
    }
}

/// A witness that insertion sort is stable: where each output item came
/// from in the input.
pub proof fn lemma_insertion_sorted_stable<T>(s: Seq<T>, key: spec_fn(T) -> (u8, Seq<char>)) -> (p: Seq<int>)
    ensures
        is_sort_witness(s, insertion_sorted(s, key), key, p),
    decreases s.len(),
{
    if s.len() == 0 {
        Seq::empty()
    } else {
        let d = s.drop_last();
        let q = lemma_insertion_sorted_stable(d, key);
        let r = insertion_sorted(d, key);
        let x = s.last();
        let kx = key(x);
        let n = (s.len() - 1) as int;
        lemma_insert_position_facts(r, kx, key, 0);
        let pos = insert_position(r, kx, key, 0);
        let t = r.insert(pos, x);
        let p = q.insert(pos, n);
        assert(t == insertion_sorted(s, key));
        assert forall|i: int| 0 <= i < p.len() implies 0 <= #[trigger] p[i] < s.len() by {
            if i < pos {
                assert(p[i] == q[i]);
            } else if i > pos {
                assert(p[i] == q[i - 1]);
            }
        }
        assert forall|i: int, j: int| 0 <= i < j < p.len() implies p[i] != p[j] by {
            if i < pos && j < pos {
            } else if i < pos && j == pos {
                assert(q[i] < n);
            } else if i < pos {
                assert(p[j] == q[j - 1]);
            } else if i == pos {
                assert(q[j - 1] < n);
            } else {
                assert(p[i] == q[i - 1] && p[j] == q[j - 1]);
            }
        }
        assert forall|i: int| 0 <= i < t.len() implies #[trigger] t[i] == s[p[i]] by {
            if i < pos {
                assert(t[i] == r[i] && p[i] == q[i] && d[q[i]] == s[q[i]]);
            } else if i > pos {
                assert(t[i] == r[i - 1] && p[i] == q[i - 1] && d[q[i - 1]] == s[q[i - 1]]);
            }
        }
        assert forall|i: int, j: int| 0 <= i < j < t.len() implies key_less(key(t[i]), key(t[j]))
            || (key(t[i]) == key(t[j]) && p[i] < p[j]) by {
            if j < pos {
                assert(t[i] == r[i] && t[j] == r[j] && p[i] == q[i] && p[j] == q[j]);
            } else if j == pos {
                assert(t[i] == r[i] && t[j] == x && p[i] == q[i] && p[j] == n);
                assert(!key_less(kx, key(r[i])));
                lemma_key_order(key(r[i]), kx, kx);
                assert(q[i] < n);
            } else if i < pos {
                assert(t[i] == r[i] && t[j] == r[j - 1] && p[i] == q[i] && p[j] == q[j - 1]);
            } else if i == pos {
                assert(t[i] == x && t[j] == r[j - 1] && p[j] == q[j - 1]);
                assert(key_less(kx, key(r[pos])));
                if pos < j - 1 {
                    lemma_key_order(kx, key(r[pos]), key(r[j - 1]));
                }
            } else {
                assert(t[i] == r[i - 1] && t[j] == r[j - 1] && p[i] == q[i - 1] && p[j] == q[j
                    - 1]);
            }
        }
        p
    }
}

/// Sorting what is already in key order changes nothing.
pub proof fn lemma_insertion_sorted_of_ordered<T>(s: Seq<T>, key: spec_fn(T) -> (u8, Seq<char>))
    requires
        is_key_ordered(s, key),
    ensures
        insertion_sorted(s, key) == s,
    decreases s.len(),
{
    if s.len() > 0 {
        let d = s.drop_last();
        assert(is_key_ordered(d, key)) by {
            assert forall|i: int, j: int| 0 <= i < j < d.len() implies !key_less(
                key(d[j]),
                key(d[i]),
            ) by {
                assert(d[i] == s[i] && d[j] == s[j]);
            }
        }
        lemma_insertion_sorted_of_ordered(d, key);
        let x = s.last();
        lemma_insert_position_facts(d, key(x), key, 0);
        let pos = insert_position(d, key(x), key, 0);
        if pos < d.len() {
            assert(d[pos] == s[pos]);
            assert(!key_less(key(s[s.len() - 1]), key(s[pos])));
        }
        assert(d.insert(d.len() as int, x) =~= s);
    }
}

} // verus!
