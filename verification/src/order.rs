//! Orderings used by the store's indices: lexicographic order on byte
//! strings (for the server-user listing) and descending timestamp order (for
//! the feed queries), together with the lemmas that carry sortedness through
//! filtering.

use vstd::prelude::*;

verus! {

/// Strict lexicographic order on byte strings: shorter prefixes come first.
pub open spec fn lex_lt(a: Seq<u8>, b: Seq<u8>) -> bool
    decreases a.len() + b.len(),
{
    if b.len() == 0 {
        false
    } else if a.len() == 0 {
        true
    } else if a[0] < b[0] {
        true
    } else if a[0] > b[0] {
        false
    } else {
        lex_lt(a.drop_first(), b.drop_first())
    }
}

/// Two byte strings that neither order before the other are equal.
pub proof fn lemma_lex_total(a: Seq<u8>, b: Seq<u8>)
    requires
        !lex_lt(a, b),
        !lex_lt(b, a),
    ensures
        a =~= b,
    decreases a.len() + b.len(),
{
    if a.len() == 0 || b.len() == 0 {
        assert(a.len() == 0 && b.len() == 0);
    } else {
        assert(a[0] == b[0]);
        lemma_lex_total(a.drop_first(), b.drop_first());
        assert(a =~= seq![a[0]] + a.drop_first());
        assert(b =~= seq![b[0]] + b.drop_first());
    }
}

/// Lexicographic order is transitive.
pub proof fn lemma_lex_trans(a: Seq<u8>, b: Seq<u8>, c: Seq<u8>)
    requires
        lex_lt(a, b),
        lex_lt(b, c),
    ensures
        lex_lt(a, c),
    decreases a.len() + b.len() + c.len(),
{
    if a.len() == 0 {
        assert(b.len() > 0);
        assert(c.len() > 0);
    } else {
        assert(b.len() > 0 && c.len() > 0);
        if a[0] == b[0] && b[0] == c[0] {
            lemma_lex_trans(a.drop_first(), b.drop_first(), c.drop_first());
        }
    }
}

/// Skipping an equal prefix does not change the lexicographic comparison.
proof fn lemma_lex_skip(a: Seq<u8>, b: Seq<u8>, i: int)
    requires
        0 <= i <= a.len(),
        i <= b.len(),
        forall|j: int| 0 <= j < i ==> a[j] == b[j],
    ensures
        lex_lt(a, b) == lex_lt(a.skip(i), b.skip(i)),
    decreases i,
{
    if i == 0 {
        assert(a.skip(0) =~= a);
        assert(b.skip(0) =~= b);
    } else {
        lemma_lex_skip(a, b, i - 1);
        let x = a.skip(i - 1);
        let y = b.skip(i - 1);
        assert(x.len() > 0 && y.len() > 0);
        assert(x[0] == a[i - 1] && y[0] == b[i - 1]);
        assert(x[0] == y[0]);
        assert(lex_lt(x, y) == lex_lt(x.drop_first(), y.drop_first()));
        assert(x.drop_first() =~= a.skip(i));
        assert(y.drop_first() =~= b.skip(i));
        assert(lex_lt(x.drop_first(), y.drop_first()) == lex_lt(a.skip(i), b.skip(i)));
    }
}

/// Compares two byte strings lexicographically.
pub fn bytes_lt(a: &[u8], b: &[u8]) -> (r: bool)
    ensures
        r == lex_lt(a@, b@),
{
    let an: usize = a.len();
    let bn: usize = b.len();
    let n: usize = if an < bn {
        an
    } else {
        bn
    };
    let mut i: usize = 0;
    while i < n
        invariant
            n <= a@.len(),
            n <= b@.len(),
            n == if a@.len() < b@.len() {
                a@.len()
            } else {
                b@.len()
            },
            i <= n,
            forall|j: int| 0 <= j < i ==> a@[j] == b@[j],
        decreases n - i,
    {
        if a[i] < b[i] {
            proof {
                lemma_lex_skip(a@, b@, i as int);
                assert(a@.skip(i as int)[0] == a@[i as int]);
                assert(b@.skip(i as int)[0] == b@[i as int]);
            }
            return true;
        }
        if a[i] > b[i] {
            proof {
                lemma_lex_skip(a@, b@, i as int);
                assert(a@.skip(i as int)[0] == a@[i as int]);
                assert(b@.skip(i as int)[0] == b@[i as int]);
            }
            return false;
        }
        i = i + 1;
    }
    proof {
        lemma_lex_skip(a@, b@, n as int);
        assert(a@.skip(n as int).len() == a@.len() - n);
        assert(b@.skip(n as int).len() == b@.len() - n);
    }
    an < bn
}

/// The rows of `s` are in non-increasing order of the measure `ts`.
pub open spec fn sorted_desc_by<T>(s: Seq<T>, ts: spec_fn(T) -> int) -> bool {
    forall|i: int, j: int| 0 <= i < j < s.len() ==> ts(#[trigger] s[i]) >= ts(#[trigger] s[j])
}

/// Filtering keeps any lower bound on the measure.
pub proof fn lemma_filter_lower_bound<T>(s: Seq<T>, ts: spec_fn(T) -> int, pred: spec_fn(T) -> bool, m: int)
    requires
        forall|i: int| 0 <= i < s.len() ==> ts(#[trigger] s[i]) >= m,
    ensures
        forall|i: int| 0 <= i < s.filter(pred).len() ==> ts(#[trigger] s.filter(pred)[i]) >= m,
    decreases s.len(),
{
    reveal(Seq::filter);
    if s.len() > 0 {
        let d = s.drop_last();
        assert(forall|i: int| 0 <= i < d.len() ==> ts(#[trigger] d[i]) >= m) by {
            assert(forall|i: int| 0 <= i < d.len() ==> d[i] == s[i]);
        }
        lemma_filter_lower_bound(d, ts, pred, m);
        assert(ts(s.last()) >= m);
        let f = s.filter(pred);
        if pred(s.last()) {
            assert(f == d.filter(pred).push(s.last()));
            assert forall|i: int| 0 <= i < f.len() implies ts(f[i]) >= m by {
                if i < f.len() - 1 {
                    assert(f[i] == d.filter(pred)[i]);
                } else {
                    assert(f[i] == s.last());
                }
            }
        } else {
            assert(f == d.filter(pred));
        }
    }
}

/// Filtering keeps rows in non-increasing order of the measure.
pub proof fn lemma_filter_sorted_desc<T>(s: Seq<T>, ts: spec_fn(T) -> int, pred: spec_fn(T) -> bool)
    requires
        sorted_desc_by(s, ts),
    ensures
        sorted_desc_by(s.filter(pred), ts),
    decreases s.len(),
{
    reveal(Seq::filter);
    if s.len() > 0 {
        let d = s.drop_last();
        assert(forall|i: int, j: int|
            0 <= i < j < d.len() ==> ts(#[trigger] d[i]) >= ts(#[trigger] d[j]));
        lemma_filter_sorted_desc(d, ts, pred);
        if pred(s.last()) {
            assert(forall|i: int| 0 <= i < d.len() ==> ts(#[trigger] d[i]) >= ts(s.last()));
            lemma_filter_lower_bound(d, ts, pred, ts(s.last()));
            let f = d.filter(pred).push(s.last());
            assert forall|i: int, j: int| 0 <= i < j < f.len() implies ts(f[i]) >= ts(f[j]) by {
                if j < f.len() - 1 {
                    assert(f[i] == d.filter(pred)[i] && f[j] == d.filter(pred)[j]);
                } else {
                    assert(f[i] == d.filter(pred)[i] && f[j] == s.last());
                }
            }
        }
    }
}

/// Filtering distributes over appending one row at the end.
pub proof fn lemma_filter_push<T>(s: Seq<T>, x: T, pred: spec_fn(T) -> bool)
    ensures
        pred(x) ==> s.push(x).filter(pred) == s.filter(pred).push(x),
        !pred(x) ==> s.push(x).filter(pred) == s.filter(pred),
{
    reveal(Seq::filter);
    let s2 = s.push(x);
    assert(s2.drop_last() =~= s);
    assert(s2.last() == x);
}

} // verus!
