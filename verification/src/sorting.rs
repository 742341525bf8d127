//! Stable sorting by a `u128` key (identifiers are UUIDs held as `u128`, whose
//! numeric order is the byte order `Uuid` sorts by), and last-match search.
use vstd::prelude::*;

verus! {

/// Values with a sort key.
pub trait SortKey {
    spec fn spec_key(&self) -> u128;

    fn key(&self) -> (k: u128)
        ensures
            k == self.spec_key(),
    ;
}

/// `s` with `x` inserted after every element whose key is not greater than its own.
pub open spec fn insert_sorted<A: SortKey>(s: Seq<A>, x: A) -> Seq<A>
    decreases s.len(),
{
    if s.len() == 0 {
        seq![x]
    } else if s.last().spec_key() <= x.spec_key() {
        s.push(x)
    } else {
        insert_sorted(s.drop_last(), x).push(s.last())
    }
}

/// The stable sort of `s` by key (what `slice::sort_by_key` gives).
pub open spec fn sorted_by_key<A: SortKey>(s: Seq<A>) -> Seq<A>
    decreases s.len(),
{
    if s.len() == 0 {
        Seq::empty()
    } else {
        insert_sorted(sorted_by_key(s.drop_last()), s.last())
    }
}

pub open spec fn keys_sorted<A: SortKey>(s: Seq<A>) -> bool {
    forall|i: int, j: int| 0 <= i <= j < s.len() ==> s[i].spec_key() <= s[j].spec_key()
}

proof fn lemma_insert_at<A: SortKey>(s: Seq<A>, x: A, pos: int)
    requires
        0 <= pos <= s.len(),
        pos == 0 || s[pos - 1].spec_key() <= x.spec_key(),
        forall|k: int| pos <= k < s.len() ==> #[trigger] s[k].spec_key() > x.spec_key(),
    ensures
        insert_sorted(s, x) == s.take(pos).push(x) + s.skip(pos),
    decreases s.len(),
{
    if s.len() == 0 {
        assert(s.take(pos).push(x) + s.skip(pos) =~= seq![x]);
    } else if s.last().spec_key() <= x.spec_key() {
        assert(pos == s.len());
        assert(s.take(pos).push(x) + s.skip(pos) =~= s.push(x));
    } else {
        let t = s.drop_last();
        assert(pos < s.len());
        assert forall|k: int| pos <= k < t.len() implies #[trigger] t[k].spec_key()
            > x.spec_key() by {
            assert(t[k] == s[k]);
        }
        if pos > 0 {
            assert(t[pos - 1] == s[pos - 1]);
        }
        lemma_insert_at(t, x, pos);
        assert(t.take(pos).push(x) + t.skip(pos) + seq![s.last()] =~= s.take(pos).push(x)
            + s.skip(pos));
    }
}

proof fn lemma_insert_sorted_keeps<A: SortKey>(s: Seq<A>, x: A, pos: int)
    requires
        keys_sorted(s),
        0 <= pos <= s.len(),
        pos == 0 || s[pos - 1].spec_key() <= x.spec_key(),
        forall|k: int| pos <= k < s.len() ==> #[trigger] s[k].spec_key() > x.spec_key(),
    ensures
        keys_sorted(s.take(pos).push(x) + s.skip(pos)),
        (s.take(pos).push(x) + s.skip(pos)).len() == s.len() + 1,
{
    let r = s.take(pos).push(x) + s.skip(pos);
    assert forall|i: int, j: int| 0 <= i <= j < r.len() implies r[i].spec_key()
        <= r[j].spec_key() by {
        if i < pos && j < pos {
            assert(r[i] == s[i] && r[j] == s[j]);
        } else if i < pos && j == pos {
            assert(r[i] == s[i]);
            assert(s[i].spec_key() <= s[pos - 1].spec_key());
        } else if i < pos {
            assert(r[i] == s[i] && r[j] == s[j - 1]);
        } else if i == pos && j == pos {
        } else if i == pos {
            assert(r[j] == s[j - 1]);
        } else {
            assert(r[i] == s[i - 1] && r[j] == s[j - 1]);
        }
    }
}

/// Sorts `v` stably by key.
pub fn stable_sort<A: SortKey>(v: Vec<A>) -> (r: Vec<A>)
    ensures
        r@ == sorted_by_key(v@),
{
    let ghost orig = v@;
    let mut input = v;
    let mut rest: Vec<A> = Vec::new();
    // take the elements from the back so that they can be moved out, then re-insert in order
    let n = input.len();
    while input.len() > 0
        invariant
            input.len() + rest.len() == n,
            n == orig.len(),
            input@ == orig.take(input.len() as int),
            forall|k: int| 0 <= k < rest.len() ==> #[trigger] rest@[k] == orig[n - 1 - k],
        decreases input.len(),
    {
        let x = input.pop().unwrap();
        proof {
            assert(x == orig[input.len() as int]);
        }
        rest.push(x);
        proof {
            assert(input@ =~= orig.take(input.len() as int));
        }
    }
    let mut out: Vec<A> = Vec::new();
    let mut i: usize = 0;
    assert(orig.take(0) =~= Seq::<A>::empty());
    while rest.len() > 0
        invariant
            rest.len() + i == n,
            n == orig.len(),
            forall|k: int| 0 <= k < rest.len() ==> #[trigger] rest@[k] == orig[n - 1 - k],
            out@ == sorted_by_key(orig.take(i as int)),
            keys_sorted(out@),
        decreases rest.len(),
    {
        let x = rest.pop().unwrap();
        proof {
            assert(x == orig[i as int]);
        }
        let kx = x.key();
        let mut pos = out.len();
        while pos > 0 && out[pos - 1].key() > kx
            invariant
                pos <= out.len(),
                kx == x.spec_key(),
                forall|k: int| pos <= k < out.len() ==> #[trigger] out@[k].spec_key() > kx,
            decreases pos,
        {
            pos = pos - 1;
        }
        proof {
            let s = out@;
            lemma_insert_at(s, x, pos as int);
            lemma_insert_sorted_keeps(s, x, pos as int);
            let t = orig.take(i + 1);
            assert(t.drop_last() =~= orig.take(i as int));
            assert(t.last() == x);
        }
        out.insert(pos, x);
        proof {
            assert(out@ =~= sorted_by_key(orig.take(i + 1)).take(out.len() as int));
        }
        i = i + 1;
    }
    assert(orig.take(n as int) =~= orig);
    out
}

/// The last index of `s` whose element satisfies `f`, or -1.
pub open spec fn last_index<A>(s: Seq<A>, f: spec_fn(A) -> bool) -> int
    decreases s.len(),
{
    if s.len() == 0 {
        -1
    } else if f(s.last()) {
        s.len() - 1
    } else {
        last_index(s.drop_last(), f)
    }
}

pub proof fn lemma_last_index_range<A>(s: Seq<A>, f: spec_fn(A) -> bool)
    ensures
        -1 <= last_index(s, f) < s.len(),
        last_index(s, f) >= 0 ==> f(s[last_index(s, f)]),
        last_index(s, f) == -1 ==> forall|k: int| 0 <= k < s.len() ==> !f(#[trigger] s[k]),
    decreases s.len(),
{
    if s.len() > 0 && !f(s.last()) {
        let t = s.drop_last();
        lemma_last_index_range(t, f);
        if last_index(t, f) >= 0 {
            assert(s[last_index(t, f)] == t[last_index(t, f)]);
        } else {
            assert forall|k: int| 0 <= k < s.len() implies !f(#[trigger] s[k]) by {
                if k < t.len() {
                    assert(s[k] == t[k]);
                }
            }
        }
    }
}

/// When nothing at or after `j` satisfies `f`, the last match lies in `s[..j]`.
pub proof fn lemma_last_index_take<A>(s: Seq<A>, f: spec_fn(A) -> bool, j: int)
    requires
        0 <= j <= s.len(),
        forall|k: int| j <= k < s.len() ==> !f(#[trigger] s[k]),
    ensures
        last_index(s, f) == last_index(s.take(j), f),
    decreases s.len() - j,
{
    if j == s.len() {
        assert(s.take(j) =~= s);
    } else {
        let t = s.drop_last();
        assert forall|k: int| j <= k < t.len() implies !f(#[trigger] t[k]) by {
            assert(t[k] == s[k]);
        }
        lemma_last_index_take(t, f, j);
        assert(t.take(j) =~= s.take(j));
    }
}

/// Updating an element that does not match leaves the last match where it was,
/// if the new element does not match either.
pub proof fn lemma_last_index_update<A>(s: Seq<A>, f: spec_fn(A) -> bool, i: int, x: A)
    requires
        0 <= i < s.len(),
        f(s[i]) == f(x),
    ensures
        last_index(s.update(i, x), f) == last_index(s, f),
    decreases s.len(),
{
    let u = s.update(i, x);
    if i == s.len() - 1 {
        assert(u.drop_last() =~= s.drop_last());
    } else {
        assert(u.last() == s.last());
        if !f(s.last()) {
            lemma_last_index_update(s.drop_last(), f, i, x);
            assert(u.drop_last() =~= s.drop_last().update(i, x));
        }
    }
}

pub proof fn lemma_last_index_push<A>(s: Seq<A>, f: spec_fn(A) -> bool, x: A)
    requires
        !f(x),
    ensures
        last_index(s.push(x), f) == last_index(s, f),
{
    assert(s.push(x).drop_last() =~= s);
}

pub proof fn lemma_last_index_push_any<A>(s: Seq<A>, f: spec_fn(A) -> bool, x: A)
    ensures
        last_index(s.push(x), f) == if f(x) {
            s.len() as int
        } else {
            last_index(s, f)
        },
{
    assert(s.push(x).drop_last() =~= s);
}

/// Inserting into a sorted sequence keeps every element and adds the new one.
pub proof fn lemma_insert_sorted_contains<A: SortKey>(s: Seq<A>, x: A)
    ensures
        insert_sorted(s, x).contains(x),
        forall|y: A| s.contains(y) ==> insert_sorted(s, x).contains(y),
        insert_sorted(s, x).len() == s.len() + 1,
    decreases s.len(),
{
    let r = insert_sorted(s, x);
    if s.len() == 0 {
        assert(r[0] == x);
    } else if s.last().spec_key() <= x.spec_key() {
        assert(r[s.len() as int] == x);
        assert forall|y: A| s.contains(y) implies r.contains(y) by {
            let i = choose|i: int| 0 <= i < s.len() && s[i] == y;
            assert(r[i] == y);
        }
    } else {
        let t = s.drop_last();
        lemma_insert_sorted_contains(t, x);
        let rt = insert_sorted(t, x);
        assert(r == rt.push(s.last()));
        let j = choose|j: int| 0 <= j < rt.len() && rt[j] == x;
        assert(r[j] == x);
        assert forall|y: A| s.contains(y) implies r.contains(y) by {
            let i = choose|i: int| 0 <= i < s.len() && s[i] == y;
            if i == s.len() - 1 {
                assert(r[rt.len() as int] == y);
            } else {
                assert(t[i] == y);
                assert(t.contains(y));
                let k = choose|k: int| 0 <= k < rt.len() && rt[k] == y;
                assert(r[k] == y);
            }
        }
    }
}

/// Sorting keeps every element.
pub proof fn lemma_sorted_contains<A: SortKey>(s: Seq<A>, x: A)
    requires
        s.contains(x),
    ensures
        sorted_by_key(s).contains(x),
        sorted_by_key(s).len() == s.len(),
    decreases s.len(),
{
    let t = s.drop_last();
    lemma_sorted_len(t);
    lemma_insert_sorted_contains(sorted_by_key(t), s.last());
    if s.last() != x {
        let i = choose|i: int| 0 <= i < s.len() && s[i] == x;
        assert(t[i] == x);
        lemma_sorted_contains(t, x);
    }
}

pub proof fn lemma_sorted_len<A: SortKey>(s: Seq<A>)
    ensures
        sorted_by_key(s).len() == s.len(),
    decreases s.len(),
{
    if s.len() > 0 {
        lemma_sorted_len(s.drop_last());
        lemma_insert_sorted_contains(sorted_by_key(s.drop_last()), s.last());
    }
}

/// Everything in an insertion result is the inserted element or was there before.
pub proof fn lemma_insert_sorted_from<A: SortKey>(s: Seq<A>, x: A, y: A)
    requires
        insert_sorted(s, x).contains(y),
    ensures
        y == x || s.contains(y),
    decreases s.len(),
{
    let r = insert_sorted(s, x);
    let i = choose|i: int| 0 <= i < r.len() && r[i] == y;
    if s.len() == 0 {
    } else if s.last().spec_key() <= x.spec_key() {
        if i < s.len() {
            assert(s[i] == y);
        }
    } else {
        let t = s.drop_last();
        let rt = insert_sorted(t, x);
        assert(r == rt.push(s.last()));
        if i == rt.len() {
            assert(s[s.len() - 1] == y);
        } else {
            assert(rt[i] == y);
            lemma_insert_sorted_from(t, x, y);
            if y != x {
                let k = choose|k: int| 0 <= k < t.len() && t[k] == y;
                assert(s[k] == y);
            }
        }
    }
}

/// Sorting adds nothing.
pub proof fn lemma_sorted_from<A: SortKey>(s: Seq<A>, y: A)
    requires
        sorted_by_key(s).contains(y),
    ensures
        s.contains(y),
    decreases s.len(),
{
    if s.len() > 0 {
        let t = s.drop_last();
        lemma_insert_sorted_from(sorted_by_key(t), s.last(), y);
        if y == s.last() {
            assert(s[s.len() - 1] == y);
        } else {
            lemma_sorted_from(t, y);
            let k = choose|k: int| 0 <= k < t.len() && t[k] == y;
            assert(s[k] == y);
        }
    }
}

/// No two elements of `s` agree under `f`.
pub open spec fn distinct_by<A>(s: Seq<A>, f: spec_fn(A) -> u128) -> bool {
    forall|i: int, j: int| 0 <= i < j < s.len() ==> f(#[trigger] s[i]) != f(#[trigger] s[j])
}

proof fn lemma_insert_sorted_distinct<A: SortKey>(s: Seq<A>, x: A, f: spec_fn(A) -> u128)
    requires
        distinct_by(s, f),
        forall|k: int| 0 <= k < s.len() ==> f(#[trigger] s[k]) != f(x),
    ensures
        distinct_by(insert_sorted(s, x), f),
    decreases s.len(),
{
    let r = insert_sorted(s, x);
    if s.len() == 0 {
    } else if s.last().spec_key() <= x.spec_key() {
        assert forall|i: int, j: int| 0 <= i < j < r.len() implies f(#[trigger] r[i]) != f(
            #[trigger] r[j],
        ) by {
            assert(r[i] == s[i]);
            if j < s.len() {
                assert(r[j] == s[j]);
            }
        }
    } else {
        let t = s.drop_last();
        assert forall|k: int| 0 <= k < t.len() implies f(#[trigger] t[k]) != f(x) by {
            assert(t[k] == s[k]);
        }
        assert forall|i: int, j: int| 0 <= i < j < t.len() implies f(#[trigger] t[i]) != f(
            #[trigger] t[j],
        ) by {
            assert(t[i] == s[i] && t[j] == s[j]);
        }
        lemma_insert_sorted_distinct(t, x, f);
        let rt = insert_sorted(t, x);
        assert(r == rt.push(s.last()));
        assert forall|i: int, j: int| 0 <= i < j < r.len() implies f(#[trigger] r[i]) != f(
            #[trigger] r[j],
        ) by {
            assert(r[i] == rt[i]);
            if j == rt.len() {
                assert(r[j] == s[s.len() - 1]);
                assert(rt.contains(rt[i]));
                lemma_insert_sorted_from(t, x, rt[i]);
                if rt[i] != x {
                    let k = choose|k: int| 0 <= k < t.len() && t[k] == rt[i];
                    assert(t[k] == s[k]);
                }
            } else {
                assert(r[j] == rt[j]);
            }
        }
    }
}

/// Sorting keeps elements distinct under `f`.
pub proof fn lemma_sorted_distinct<A: SortKey>(s: Seq<A>, f: spec_fn(A) -> u128)
    requires
        distinct_by(s, f),
    ensures
        distinct_by(sorted_by_key(s), f),
    decreases s.len(),
{
    if s.len() > 0 {
        let t = s.drop_last();
        assert forall|i: int, j: int| 0 <= i < j < t.len() implies f(#[trigger] t[i]) != f(
            #[trigger] t[j],
        ) by {
            assert(t[i] == s[i] && t[j] == s[j]);
        }
        lemma_sorted_distinct(t, f);
        let st = sorted_by_key(t);
        assert forall|k: int| 0 <= k < st.len() implies f(#[trigger] st[k]) != f(s.last()) by {
            assert(st.contains(st[k]));
            lemma_sorted_from(t, st[k]);
            let m = choose|m: int| 0 <= m < t.len() && t[m] == st[k];
            assert(t[m] == s[m]);
            assert(s[s.len() - 1] == s.last());
        }
        lemma_insert_sorted_distinct(st, s.last(), f);
    }
}

/// The sum of `w` over `s`.
pub open spec fn sum_by<A>(s: Seq<A>, w: spec_fn(A) -> int) -> int
    decreases s.len(),
{
    if s.len() == 0 {
        0
    } else {
        sum_by(s.drop_last(), w) + w(s.last())
    }
}

proof fn lemma_insert_sorted_sum<A: SortKey>(s: Seq<A>, x: A, w: spec_fn(A) -> int)
    ensures
        sum_by(insert_sorted(s, x), w) == sum_by(s, w) + w(x),
    decreases s.len(),
{
    let r = insert_sorted(s, x);
    if s.len() == 0 {
        assert(r.drop_last() =~= Seq::<A>::empty());
        assert(sum_by(Seq::<A>::empty(), w) == 0);
        assert(sum_by(s, w) == 0);
        assert(r.last() == x);
    } else if s.last().spec_key() <= x.spec_key() {
        assert(r.drop_last() =~= s);
        assert(r.last() == x);
    } else {
        let t = s.drop_last();
        lemma_insert_sorted_sum(t, x, w);
        let rt = insert_sorted(t, x);
        assert(r == rt.push(s.last()));
        assert(r.drop_last() =~= rt);
        assert(r.last() == s.last());
    }
}

/// Sorting keeps every sum.
pub proof fn lemma_sorted_sum<A: SortKey>(s: Seq<A>, w: spec_fn(A) -> int)
    ensures
        sum_by(sorted_by_key(s), w) == sum_by(s, w),
    decreases s.len(),
{
    if s.len() > 0 {
        lemma_sorted_sum(s.drop_last(), w);
        lemma_insert_sorted_sum(sorted_by_key(s.drop_last()), s.last(), w);
    }
}

proof fn lemma_insert_sorted_keys<A: SortKey>(s: Seq<A>, x: A)
    requires
        keys_sorted(s),
    ensures
        keys_sorted(insert_sorted(s, x)),
    decreases s.len(),
{
    let r = insert_sorted(s, x);
    if s.len() == 0 {
    } else if s.last().spec_key() <= x.spec_key() {
        assert forall|i: int, j: int| 0 <= i <= j < r.len() implies r[i].spec_key()
            <= r[j].spec_key() by {
            if j < s.len() {
                assert(r[i] == s[i] && r[j] == s[j]);
            } else if i < s.len() {
                assert(r[i] == s[i]);
                assert(s[i].spec_key() <= s[s.len() - 1].spec_key());
            }
        }
    } else {
        let t = s.drop_last();
        assert forall|i: int, j: int| 0 <= i <= j < t.len() implies t[i].spec_key()
            <= t[j].spec_key() by {
            assert(t[i] == s[i] && t[j] == s[j]);
        }
        lemma_insert_sorted_keys(t, x);
        let rt = insert_sorted(t, x);
        assert(r == rt.push(s.last()));
        assert forall|i: int, j: int| 0 <= i <= j < r.len() implies r[i].spec_key()
            <= r[j].spec_key() by {
            if j < rt.len() {
                assert(r[i] == rt[i] && r[j] == rt[j]);
            } else if i < rt.len() {
                assert(r[i] == rt[i]);
                assert(rt.contains(rt[i]));
                lemma_insert_sorted_from(t, x, rt[i]);
                if rt[i] != x {
                    let k = choose|k: int| 0 <= k < t.len() && t[k] == rt[i];
                    assert(t[k] == s[k]);
                    assert(s[k].spec_key() <= s[s.len() - 1].spec_key());
                }
            }
        }
    }
}

/// `sorted_by_key` orders by key.
pub proof fn lemma_sorted_keys<A: SortKey>(s: Seq<A>)
    ensures
        keys_sorted(sorted_by_key(s)),
    decreases s.len(),
{
    if s.len() > 0 {
        lemma_sorted_keys(s.drop_last());
        lemma_insert_sorted_keys(sorted_by_key(s.drop_last()), s.last());
    }
}

/// Keys strictly increase along `s`.
pub open spec fn keys_strict<A: SortKey>(s: Seq<A>) -> bool {
    forall|i: int, j: int| 0 <= i < j < s.len() ==> s[i].spec_key() < s[j].spec_key()
}

/// Two sequences with strictly increasing keys and the same elements are equal.
pub proof fn lemma_strict_same_elements<A: SortKey>(a: Seq<A>, b: Seq<A>)
    requires
        keys_strict(a),
        keys_strict(b),
        forall|x: A| a.contains(x) <==> b.contains(x),
    ensures
        a == b,
    decreases a.len(),
{
    if a.len() == 0 {
        if b.len() > 0 {
            assert(b.contains(b[0]));
        }
        assert(a =~= b);
        return;
    }
    if b.len() == 0 {
        assert(a.contains(a[0]));
        return;
    }
    let la = a.last();
    let lb = b.last();
    assert(a.contains(la));
    assert(b.contains(lb));
    let i = choose|i: int| 0 <= i < b.len() && b[i] == la;
    let j = choose|j: int| 0 <= j < a.len() && a[j] == lb;
    if i < b.len() - 1 {
        assert(b[i].spec_key() < b[b.len() - 1].spec_key());
        if j < a.len() - 1 {
            assert(a[j].spec_key() < a[a.len() - 1].spec_key());
        }
        assert(false);
    }
    let da = a.drop_last();
    let db = b.drop_last();
    assert forall|x: A| da.contains(x) <==> db.contains(x) by {
        if da.contains(x) {
            let k = choose|k: int| 0 <= k < da.len() && da[k] == x;
            assert(a[k] == x);
            assert(a[k].spec_key() < a[a.len() - 1].spec_key());
            assert(b.contains(x));
            let m = choose|m: int| 0 <= m < b.len() && b[m] == x;
            if m == b.len() - 1 {
                assert(false);
            }
            assert(db[m] == x);
        }
        if db.contains(x) {
            let k = choose|k: int| 0 <= k < db.len() && db[k] == x;
            assert(b[k] == x);
            assert(b[k].spec_key() < b[b.len() - 1].spec_key());
            assert(a.contains(x));
            let m = choose|m: int| 0 <= m < a.len() && a[m] == x;
            if m == a.len() - 1 {
                assert(false);
            }
            assert(da[m] == x);
        }
    }
    lemma_strict_same_elements(da, db);
    assert(a =~= da.push(la));
    assert(b =~= db.push(lb));
}

} // verus!
