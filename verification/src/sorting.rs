//! A stable sort by labels, without regard to the case of ASCII letters.

use crate::text::chars_of;
use vstd::prelude::*;

verus! {

/// A value that is listed by its label.
pub trait Labelled {
    /// The label.
    spec fn label_of(&self) -> Seq<char>;

    /// The label.
    fn label(&self) -> (r: &str)
        ensures
            r@ == self.label_of(),
    ;
}

/// A character with an ASCII capital turned into its small letter.
pub open spec fn ascii_lower(c: char) -> char {
    if 'A' <= c && c <= 'Z' {
        (c as u8 + 32) as char
    } else {
        c
    }
}

/// A text with its ASCII capitals turned into small letters.
pub open spec fn ascii_lower_text(s: Seq<char>) -> Seq<char> {
    s.map_values(|c: char| ascii_lower(c))
}

/// `a` comes before `b`, or is equal to it, by their characters from `i` on.
pub open spec fn at_most_from(a: Seq<char>, b: Seq<char>, i: int) -> bool
    decreases a.len() - i,
{
    if i >= a.len() {
        true
    } else if i >= b.len() {
        false
    } else if a[i] != b[i] {
        a[i] < b[i]
    } else {
        at_most_from(a, b, i + 1)
    }
}

/// `a` comes before `b`, or is equal to it, without regard to case.
pub open spec fn label_at_most(a: Seq<char>, b: Seq<char>) -> bool {
    at_most_from(ascii_lower_text(a), ascii_lower_text(b), 0)
}

/// `p` lists each index below `n` once.
pub open spec fn is_permutation(p: Seq<int>, n: nat) -> bool {
    p.len() == n && p.no_duplicates() && forall|i: int| 0 <= i < n ==> 0 <= #[trigger] p[i] < n
}

/// `after` is `before` with index `p[i]` moved to `i`, in the order of the labels, and values
/// with equal labels keep their order.
pub open spec fn sorted_by<T: Labelled>(before: Seq<T>, after: Seq<T>, p: Seq<int>) -> bool {
    &&& is_permutation(p, before.len())
    &&& after.len() == before.len()
    &&& forall|i: int| 0 <= i < after.len() ==> #[trigger] after[i] == before[p[i]]
    &&& forall|i: int, j: int|
        #![trigger after[i], after[j]]
        0 <= i < j < after.len() ==> label_at_most(after[i].label_of(), after[j].label_of())
    &&& forall|i: int, j: int|
        #![trigger p[i], p[j]]
        0 <= i < j < after.len() && label_at_most(after[j].label_of(), after[i].label_of())
            ==> p[i] < p[j]
}

/// `after` holds the values of `before` in the order of their labels, those with equal labels
/// in the order in which they came.
pub open spec fn sorted_stably<T: Labelled>(before: Seq<T>, after: Seq<T>) -> bool {
    exists|p: Seq<int>| sorted_by(before, after, p)
}

/// Turns the ASCII capitals of a text into small letters.
pub fn ascii_lowercase(s: &str) -> (r: Vec<char>)
    ensures
        r@ == ascii_lower_text(s@),
{
    let v: Vec<char> = chars_of(s);
    let mut r: Vec<char> = Vec::new();
    let mut i: usize = 0;
    while i < v.len()
        invariant
            v@ == s@,
            i <= v@.len(),
            r@ =~= ascii_lower_text(s@).take(i as int),
        decreases v@.len() - i,
    {
        let c: char = v[i];
        if 'A' <= c && c <= 'Z' {
            r.push((c as u8 + 32) as char);
        } else {
            r.push(c);
        }
        i = i + 1;
    }
    proof {
        assert(ascii_lower_text(s@).take(s@.len() as int) =~= ascii_lower_text(s@));
    }
    r
}

/// Whether `a` comes before `b`, or is equal to it.
fn at_most(a: &[char], b: &[char]) -> (r: bool)
    ensures
        r == at_most_from(a@, b@, 0),
{
    let mut i: usize = 0;
    while i < a.len()
        invariant
            i <= a@.len(),
            i <= b@.len(),
            at_most_from(a@, b@, 0) == at_most_from(a@, b@, i as int),
        decreases a@.len() - i,
    {
        if i >= b.len() {
            return false;
        }
        if a[i] != b[i] {
            return a[i] < b[i];
        }
        i = i + 1;
    }
    true
}

proof fn lemma_total(a: Seq<char>, b: Seq<char>, i: int)
    requires
        0 <= i,
    ensures
        at_most_from(a, b, i) || at_most_from(b, a, i),
    decreases a.len() - i,
{
    if i < a.len() && i < b.len() && a[i] == b[i] {
        lemma_total(a, b, i + 1);
    }
}

proof fn lemma_transitive(a: Seq<char>, b: Seq<char>, c: Seq<char>, i: int)
    requires
        0 <= i,
        at_most_from(a, b, i),
        at_most_from(b, c, i),
    ensures
        at_most_from(a, c, i),
    decreases a.len() - i,
{
    if i < a.len() && a[i] == b[i] && b[i] == c[i] {
        lemma_transitive(a, b, c, i + 1);
    }
}

/// Labels are ordered: any two are comparable, and the order is transitive.
pub proof fn law_labels_are_ordered(a: Seq<char>, b: Seq<char>, c: Seq<char>)
    ensures
        label_at_most(a, b) || label_at_most(b, a),
        label_at_most(a, b) && label_at_most(b, c) ==> label_at_most(a, c),
{
    lemma_total(ascii_lower_text(a), ascii_lower_text(b), 0);
    if label_at_most(a, b) && label_at_most(b, c) {
        lemma_transitive(ascii_lower_text(a), ascii_lower_text(b), ascii_lower_text(c), 0);
    }
}

/// Where a value goes among sorted ones: behind all whose labels do not come after its own.
fn insertion_point<T: Labelled>(sorted: &Vec<T>, x: &T) -> (k: usize)
    ensures
        k <= sorted@.len(),
        forall|i: int|
            0 <= i < k ==> label_at_most((#[trigger] sorted@[i]).label_of(), x.label_of()),
        k < sorted@.len() ==> !label_at_most(sorted@[k as int].label_of(), x.label_of()),
{
    let key: Vec<char> = ascii_lowercase(x.label());
    let mut k: usize = 0;
    while k < sorted.len()
        invariant
            k <= sorted@.len(),
            key@ == ascii_lower_text(x.label_of()),
            forall|i: int|
                0 <= i < k ==> label_at_most((#[trigger] sorted@[i]).label_of(), x.label_of()),
        decreases sorted@.len() - k,
    {
        let other: Vec<char> = ascii_lowercase(sorted[k].label());
        if !at_most(other.as_slice(), key.as_slice()) {
            return k;
        }
        k = k + 1;
    }
    k
}

/// Orders values by their labels; those with equal labels keep their order.
pub fn sort_by_label<T: Labelled>(items: Vec<T>) -> (sorted: Vec<T>)
    ensures
        sorted_stably(items@, sorted@),
{
    let ghost all = items@;
    let mut rest: Vec<T> = items;
    let mut out: Vec<T> = Vec::new();
    let ghost mut p: Seq<int> = Seq::empty();
    let ghost mut n: int = 0;
    proof {
        assert(rest@ =~= all.subrange(0, all.len() as int));
    }
    while rest.len() > 0
        invariant
            0 <= n <= all.len(),
            rest@ == all.subrange(n, all.len() as int),
            sorted_by(all.take(n), out@, p),
        decreases rest@.len(),
    {
        let x: T = rest.remove(0);
        let ghost before = out@;
        let ghost q = p;
        proof {
            assert(x == all[n]);
            assert(rest@ =~= all.subrange(n + 1, all.len() as int));
        }
        let k: usize = insertion_point(&out, &x);
        out.insert(k, x);
        proof {
            p = q.insert(k as int, n);
            let whole = all.take(n + 1);
            assert(out@ =~= before.insert(k as int, x));
            assert forall|i: int| 0 <= i < out@.len() implies #[trigger] out@[i] == whole[p[i]] by {
                if i < k {
                    assert(before[i] == all.take(n)[q[i]]);
                } else if i > k {
                    assert(before[i - 1] == all.take(n)[q[i - 1]]);
                }
            }
            assert forall|i: int| 0 <= i < n + 1 implies 0 <= #[trigger] p[i] < n + 1 by {
                if i < k {
                    assert(0 <= q[i] < n);
                } else if i > k {
                    assert(0 <= q[i - 1] < n);
                }
            }
            assert(p.no_duplicates()) by {
                assert forall|i: int, j: int|
                    0 <= i < p.len() && 0 <= j < p.len() && i != j implies p[i] != p[j] by {
                    if i < k {
                        assert(p[i] == q[i]);
                    } else if i > k {
                        assert(p[i] == q[i - 1]);
                    }
                    if j < k {
                        assert(p[j] == q[j]);
                    } else if j > k {
                        assert(p[j] == q[j - 1]);
                    }
                }
            }
            assert forall|j: int| k < j < out@.len() implies label_at_most(
                x.label_of(),
                (#[trigger] out@[j]).label_of(),
            ) && !label_at_most(out@[j].label_of(), x.label_of()) by {
                let y = before[j - 1];
                let z = before[k as int];
                assert(out@[j] == y);
                law_labels_are_ordered(x.label_of(), z.label_of(), y.label_of());
                if j - 1 > k {
                    assert(label_at_most(before[k as int].label_of(), before[j - 1].label_of()));
                    law_labels_are_ordered(z.label_of(), y.label_of(), x.label_of());
                }
                law_labels_are_ordered(x.label_of(), y.label_of(), y.label_of());
            }
            assert forall|i: int, j: int|
                #![trigger out@[i], out@[j]]
                0 <= i < j < out@.len() implies label_at_most(
                out@[i].label_of(),
                out@[j].label_of(),
            ) by {
                if j < k {
                    assert(label_at_most(before[i].label_of(), before[j].label_of()));
                } else if j == k {
                    assert(label_at_most(before[i].label_of(), x.label_of()));
                } else if i < k {
                    assert(label_at_most(before[i].label_of(), before[j - 1].label_of()));
                } else if i > k {
                    assert(label_at_most(before[i - 1].label_of(), before[j - 1].label_of()));
                }
            }
            assert forall|i: int, j: int|
                #![trigger p[i], p[j]]
                0 <= i < j < out@.len() && label_at_most(
                    out@[j].label_of(),
                    out@[i].label_of(),
                ) implies p[i] < p[j] by {
                if j < k {
                    assert(q[i] < q[j]);
                } else if j == k {
                    assert(0 <= q[i] < n);
                } else if i < k {
                    assert(q[i] < q[j - 1]);
                } else if i > k {
                    assert(q[i - 1] < q[j - 1]);
                }
            }
            n = n + 1;
        }
    }
    proof {
        assert(all.take(all.len() as int) =~= all);
        assert(sorted_by(all, out@, p));
    }
    out
}

/// The letters from A to Z become small ones, and no other character changes.
pub proof fn law_only_ascii_capitals_change(s: Seq<char>, i: int)
    requires
        0 <= i < s.len(),
    ensures
        ascii_lower_text(s).len() == s.len(),
        65 <= s[i] as int <= 90 ==> ascii_lower_text(s)[i] as int == s[i] as int + 32,
        !(65 <= s[i] as int <= 90) ==> ascii_lower_text(s)[i] == s[i],
{
}

proof fn lemma_first_difference(a: Seq<char>, b: Seq<char>, from: int, i: int)
    requires
        0 <= from <= i,
        i <= a.len(),
        i <= b.len(),
        forall|j: int| from <= j < i ==> a[j] == b[j],
    ensures
        at_most_from(a, b, from) == at_most_from(a, b, i),
    decreases i - from,
{
    if from < i {
        lemma_first_difference(a, b, from + 1, i);
    }
}

/// The first character in which two labels differ decides their order, wherever it stands and
/// whatever follows it: the smaller one comes first, without regard to case.
pub proof fn law_the_first_difference_decides(a: Seq<char>, b: Seq<char>, i: int)
    requires
        0 <= i < a.len(),
        i < b.len(),
        ascii_lower_text(a).take(i) == ascii_lower_text(b).take(i),
        ascii_lower_text(a)[i] != ascii_lower_text(b)[i],
    ensures
        label_at_most(a, b) <==> (ascii_lower_text(a)[i] as int) < ascii_lower_text(b)[i] as int,
        label_at_most(b, a) <==> (ascii_lower_text(b)[i] as int) < ascii_lower_text(a)[i] as int,
{
    let x = ascii_lower_text(a);
    let y = ascii_lower_text(b);
    assert forall|j: int| 0 <= j < i implies x[j] == y[j] by {
        assert(x.take(i)[j] == y.take(i)[j]);
    }
    lemma_first_difference(x, y, 0, i);
    lemma_first_difference(y, x, 0, i);
}

/// A label comes before every longer one that starts with it.
pub proof fn law_a_shorter_label_comes_first(a: Seq<char>, b: Seq<char>)
    requires
        a.len() < b.len(),
        ascii_lower_text(b).take(a.len() as int) == ascii_lower_text(a),
    ensures
        label_at_most(a, b),
        !label_at_most(b, a),
{
    let x = ascii_lower_text(a);
    let y = ascii_lower_text(b);
    assert forall|j: int| 0 <= j < a.len() implies x[j] == y[j] by {
        assert(y.take(a.len() as int)[j] == x[j]);
    }
    lemma_first_difference(x, y, 0, a.len() as int);
    lemma_first_difference(y, x, 0, a.len() as int);
}

proof fn lemma_antisymmetric(a: Seq<char>, b: Seq<char>, i: int)
    requires
        0 <= i,
        i <= a.len(),
        i <= b.len(),
        at_most_from(a, b, i),
        at_most_from(b, a, i),
    ensures
        a.len() == b.len(),
        forall|j: int| i <= j < a.len() ==> a[j] == b[j],
    decreases a.len() - i,
{
    if i < a.len() && i < b.len() {
        lemma_antisymmetric(a, b, i + 1);
    }
}

/// Two labels stand level only where they are the same text but for the case of letters.
pub proof fn law_level_labels_are_equal(a: Seq<char>, b: Seq<char>)
    ensures
        label_at_most(a, b) && label_at_most(b, a) <==> ascii_lower_text(a) == ascii_lower_text(b),
{
    let x = ascii_lower_text(a);
    let y = ascii_lower_text(b);
    if label_at_most(a, b) && label_at_most(b, a) {
        lemma_antisymmetric(x, y, 0);
        assert(x =~= y);
    }
    if x == y {
        lemma_first_difference(x, y, 0, x.len() as int);
    }
}

/// A permutation leaves no index out.
proof fn lemma_permutation_hits(p: Seq<int>, n: nat, x: int)
    requires
        is_permutation(p, n),
        0 <= x < n,
    ensures
        p.contains(x),
{
    if !p.contains(x) {
        let all = vstd::set_lib::set_int_range(0, n as int);
        vstd::set_lib::lemma_int_range(0, n as int);
        p.unique_seq_to_set();
        assert(p.to_set().subset_of(all.remove(x))) by {
            assert forall|y: int| p.to_set().contains(y) implies all.remove(x).contains(y) by {
                let k = choose|k: int| 0 <= k < p.len() && p[k] == y;
                assert(0 <= p[k] < n);
            }
        }
        vstd::set_lib::lemma_len_subset(p.to_set(), all.remove(x));
    }
}

/// Sorting loses nothing and adds nothing: every value stands in the result, and every value of
/// the result was there before, with none twice.
pub proof fn law_sorting_keeps_the_values<T: Labelled>(before: Seq<T>, after: Seq<T>)
    requires
        sorted_stably(before, after),
    ensures
        after.len() == before.len(),
        exists|p: Seq<int>|
            #![trigger is_permutation(p, before.len())]
            is_permutation(p, before.len()) && (forall|i: int|
                0 <= i < after.len() ==> #[trigger] after[i] == before[p[i]]) && (forall|x: int|
                0 <= x < before.len() ==> #[trigger] p.contains(x)),
        forall|x: int| 0 <= x < before.len() ==> after.contains(#[trigger] before[x]),
        forall|i: int| 0 <= i < after.len() ==> before.contains(#[trigger] after[i]),
{
    let p = choose|p: Seq<int>| sorted_by(before, after, p);
    assert forall|x: int| 0 <= x < before.len() implies #[trigger] p.contains(x) by {
        lemma_permutation_hits(p, before.len(), x);
    }
    assert(is_permutation(p, before.len()));
    assert forall|x: int| 0 <= x < before.len() implies after.contains(#[trigger] before[x]) by {
        assert(p.contains(x));
        let i = choose|i: int| 0 <= i < p.len() && p[i] == x;
        assert(after[i] == before[p[i]]);
    }
    assert forall|i: int| 0 <= i < after.len() implies before.contains(#[trigger] after[i]) by {
        assert(0 <= p[i] < before.len());
    }
}

/// Whatever two values stand in a sorted list, the one that comes first does not belong behind
/// the other: at the first character in which their labels differ, it has the smaller one.
pub proof fn law_a_sorted_list_is_in_order<T: Labelled>(
    before: Seq<T>,
    after: Seq<T>,
    i: int,
    j: int,
    at: int,
)
    requires
        sorted_stably(before, after),
        0 <= i < j < after.len(),
        0 <= at < after[i].label_of().len(),
        at < after[j].label_of().len(),
        ascii_lower_text(after[i].label_of()).take(at) == ascii_lower_text(
            after[j].label_of(),
        ).take(at),
        ascii_lower_text(after[i].label_of())[at] != ascii_lower_text(after[j].label_of())[at],
    ensures
        (ascii_lower_text(after[i].label_of())[at] as int) < ascii_lower_text(
            after[j].label_of(),
        )[at] as int,
{
    let p = choose|p: Seq<int>| sorted_by(before, after, p);
    assert(label_at_most(after[i].label_of(), after[j].label_of()));
    law_the_first_difference_decides(after[i].label_of(), after[j].label_of(), at);
}

/// How two values of a list are to stand: by their labels, and where those are level, as they
/// stood before.
spec fn goes_before<T: Labelled>(all: Seq<T>, a: int, b: int) -> bool {
    label_at_most(all[a].label_of(), all[b].label_of()) && (label_at_most(
        all[b].label_of(),
        all[a].label_of(),
    ) ==> a < b)
}

proof fn lemma_same_places<T: Labelled>(all: Seq<T>, x: Seq<T>, y: Seq<T>, p: Seq<int>, q: Seq<int>, k: int)
    requires
        sorted_by(all, x, p),
        sorted_by(all, y, q),
        0 <= k <= all.len(),
    ensures
        forall|i: int| 0 <= i < k ==> p[i] == q[i],
    decreases k,
{
    if k > 0 {
        let m = k - 1;
        lemma_same_places(all, x, y, p, q, m);
        if p[m] != q[m] {
            lemma_permutation_hits(p, all.len(), q[m]);
            lemma_permutation_hits(q, all.len(), p[m]);
            let i = choose|i: int| 0 <= i < p.len() && p[i] == q[m];
            let j = choose|j: int| 0 <= j < q.len() && q[j] == p[m];
            assert(i > m) by {
                if i < m {
                    assert(q[i] == p[i]);
                }
            }
            assert(j > m) by {
                if j < m {
                    assert(p[j] == q[j]);
                }
            }
            assert(goes_before(all, p[m], p[i])) by {
                assert(x[m] == all[p[m]] && x[i] == all[p[i]]);
                assert(label_at_most(x[m].label_of(), x[i].label_of()));
                if label_at_most(x[i].label_of(), x[m].label_of()) {
                    assert(p[m] < p[i]);
                }
            }
            assert(goes_before(all, q[m], q[j])) by {
                assert(y[m] == all[q[m]] && y[j] == all[q[j]]);
                assert(label_at_most(y[m].label_of(), y[j].label_of()));
                if label_at_most(y[j].label_of(), y[m].label_of()) {
                    assert(q[m] < q[j]);
                }
            }
        }
    }
}

/// The order is fixed: a list has one sorted form and no other.
pub proof fn law_the_sorted_list_is_unique<T: Labelled>(all: Seq<T>, x: Seq<T>, y: Seq<T>)
    requires
        sorted_stably(all, x),
        sorted_stably(all, y),
    ensures
        x == y,
{
    let p = choose|p: Seq<int>| sorted_by(all, x, p);
    let q = choose|q: Seq<int>| sorted_by(all, y, q);
    lemma_same_places(all, x, y, p, q, all.len() as int);
    assert forall|i: int| 0 <= i < x.len() implies x[i] == y[i] by {
        assert(x[i] == all[p[i]] && y[i] == all[q[i]]);
    }
    assert(x =~= y);
}

} // verus!
