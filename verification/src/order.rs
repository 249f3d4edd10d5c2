//! Orders on sequences and a stable sort.
use vstd::prelude::*;

use crate::text::{chars_of, views};

verus! {

/// Whether a relation is a strict order in which any two different values are
/// comparable.
pub open spec fn strict_total<T>(lt: spec_fn(T, T) -> bool) -> bool {
    &&& forall|a: T| !(#[trigger] lt(a, a))
    &&& forall|a: T, b: T, c: T| #[trigger] lt(a, b) && #[trigger] lt(b, c) ==> lt(a, c)
    &&& forall|a: T, b: T| a != b ==> #[trigger] lt(a, b) || lt(b, a)
}

/// Whether a relation is a strict order in which being incomparable is
/// transitive.
pub open spec fn strict_weak<T>(lt: spec_fn(T, T) -> bool) -> bool {
    &&& forall|a: T| !(#[trigger] lt(a, a))
    &&& forall|a: T, b: T, c: T| #[trigger] lt(a, b) && #[trigger] lt(b, c) ==> lt(a, c)
    &&& forall|a: T, b: T, c: T| #[trigger] lt(a, c) ==> #[trigger] lt(a, b) || lt(b, c)
}

/// The order of a dictionary on sequences.
pub open spec fn lex_lt<T>(a: Seq<T>, b: Seq<T>, lt: spec_fn(T, T) -> bool) -> bool
    decreases a.len(),
{
    if b.len() == 0 {
        false
    } else if a.len() == 0 {
        true
    } else if a[0] == b[0] {
        lex_lt(a.drop_first(), b.drop_first(), lt)
    } else {
        lt(a[0], b[0])
    }
}

proof fn lemma_lex_irreflexive<T>(a: Seq<T>, lt: spec_fn(T, T) -> bool)
    ensures
        !lex_lt(a, a, lt),
    decreases a.len(),
{
    if a.len() > 0 {
        lemma_lex_irreflexive(a.drop_first(), lt);
    }
}

proof fn lemma_lex_transitive<T>(a: Seq<T>, b: Seq<T>, c: Seq<T>, lt: spec_fn(T, T) -> bool)
    requires
        strict_total(lt),
        lex_lt(a, b, lt),
        lex_lt(b, c, lt),
    ensures
        lex_lt(a, c, lt),
    decreases a.len(),
{
    if a.len() > 0 {
        if a[0] == b[0] && b[0] == c[0] {
            lemma_lex_transitive(a.drop_first(), b.drop_first(), c.drop_first(), lt);
        } else if a[0] == c[0] {
            assert(lt(a[0], b[0]) && lt(b[0], a[0]));
            assert(lt(a[0], a[0]));
        }
    }
}

proof fn lemma_lex_total<T>(a: Seq<T>, b: Seq<T>, lt: spec_fn(T, T) -> bool)
    requires
        strict_total(lt),
        a != b,
    ensures
        lex_lt(a, b, lt) || lex_lt(b, a, lt),
    decreases a.len(),
{
    if a.len() == 0 {
        assert(b.len() == 0 ==> a =~= b);
    } else if b.len() > 0 {
        if a[0] == b[0] {
            if a.drop_first() == b.drop_first() {
                assert(a =~= seq![a[0]] + a.drop_first());
                assert(b =~= seq![b[0]] + b.drop_first());
            }
            lemma_lex_total(a.drop_first(), b.drop_first(), lt);
        } else {
            assert(lt(a[0], b[0]) || lt(b[0], a[0]));
        }
    }
}

/// The order of a dictionary is strict and total where that of the letters is.
pub proof fn lemma_lex<T>(lt: spec_fn(T, T) -> bool)
    requires
        strict_total(lt),
    ensures
        strict_total(|a: Seq<T>, b: Seq<T>| lex_lt(a, b, lt)),
{
    assert forall|a: Seq<T>| !(#[trigger] lex_lt(a, a, lt)) by {
        lemma_lex_irreflexive(a, lt);
    }
    assert forall|a: Seq<T>, b: Seq<T>, c: Seq<T>| #[trigger]
        lex_lt(a, b, lt) && #[trigger] lex_lt(b, c, lt) implies lex_lt(a, c, lt) by {
        lemma_lex_transitive(a, b, c, lt);
    }
    assert forall|a: Seq<T>, b: Seq<T>| a != b implies #[trigger] lex_lt(a, b, lt) || lex_lt(
        b,
        a,
        lt,
    ) by {
        lemma_lex_total(a, b, lt);
    }
}

/// The order of characters by code point.
pub open spec fn char_lt() -> spec_fn(char, char) -> bool {
    |a: char, b: char| a < b
}

/// The order of texts, character by character.
pub open spec fn text_lt(a: Seq<char>, b: Seq<char>) -> bool {
    lex_lt(a, b, char_lt())
}

/// The order of texts is strict and total.
pub proof fn lemma_text_order()
    ensures
        strict_total(|a: Seq<char>, b: Seq<char>| text_lt(a, b)),
{
    assert forall|a: Seq<char>| !(#[trigger] text_lt(a, a)) by {
        lemma_lex_irreflexive(a, char_lt());
    }
    assert forall|a: Seq<char>, b: Seq<char>, c: Seq<char>| #[trigger] text_lt(a, b) && #[trigger] text_lt(b, c)
        implies text_lt(a, c) by {
        lemma_lex_transitive(a, b, c, char_lt());
    }
    assert forall|a: Seq<char>, b: Seq<char>| a != b implies #[trigger] text_lt(a, b) || text_lt(b, a) by {
        lemma_lex_total(a, b, char_lt());
    }
}

/// A way to order values.
pub trait Ranking<T> {
    /// Whether `a` goes before `b`.
    spec fn lt(a: T, b: T) -> bool;

    /// The relation is a strict weak order.
    proof fn laws()
        ensures
            strict_weak(|a: T, b: T| Self::lt(a, b)),
    ;

    /// Whether `a` goes before `b`.
    fn before(a: &T, b: &T) -> (r: bool)
        ensures
            r == Self::lt(*a, *b),
    ;
}

/// A sorted sequence with one more value, put behind all that do not go after it.
pub open spec fn inserted<T, R: Ranking<T>>(s: Seq<T>, x: T) -> Seq<T>
    decreases s.len(),
{
    if s.len() == 0 || !R::lt(x, s.last()) {
        s.push(x)
    } else {
        inserted::<T, R>(s.drop_last(), x).push(s.last())
    }
}

/// The values of a sequence in order, those that tie as they stood.
pub open spec fn sorted<T, R: Ranking<T>>(s: Seq<T>) -> Seq<T>
    decreases s.len(),
{
    if s.len() == 0 {
        s
    } else {
        inserted::<T, R>(sorted::<T, R>(s.drop_last()), s.last())
    }
}

/// Whether no value of a sequence goes before an earlier one.
pub open spec fn in_order<T, R: Ranking<T>>(s: Seq<T>) -> bool {
    forall|i: int, j: int| 0 <= i < j < s.len() ==> !R::lt(#[trigger] s[j], #[trigger] s[i])
}

proof fn lemma_inserted<T, R: Ranking<T>>(s: Seq<T>, x: T)
    requires
        in_order::<T, R>(s),
    ensures
        in_order::<T, R>(inserted::<T, R>(s, x)),
        inserted::<T, R>(s, x).to_multiset() == s.to_multiset().insert(x),
        inserted::<T, R>(s, x).len() == s.len() + 1,
        forall|i: int|
            0 <= i < s.len() + 1 ==> (#[trigger] inserted::<T, R>(s, x)[i] == x || s.contains(
                inserted::<T, R>(s, x)[i],
            )),
    decreases s.len(),
{
    broadcast use vstd::seq_lib::group_to_multiset_ensures;

    R::laws();
    let lt = |a: T, b: T| R::lt(a, b);
    let r = inserted::<T, R>(s, x);
    if s.len() == 0 || !R::lt(x, s.last()) {
        assert forall|i: int, j: int| 0 <= i < j < r.len() implies !R::lt(
            #[trigger] r[j],
            #[trigger] r[i],
        ) by {
            if j == s.len() {
                assert(!lt(x, s.last()));
                if i < s.len() - 1 {
                    assert(!lt(s.last(), s[i]));
                    if lt(x, s[i]) {
                        assert(lt(x, s.last()) || lt(s.last(), s[i]));
                    }
                }
            }
        }
        assert forall|i: int| 0 <= i < s.len() + 1 implies (#[trigger] r[i] == x || s.contains(r[i])) by {
            if i < s.len() {
                assert(r[i] == s[i]);
            }
        }
    } else {
        let front = s.drop_last();
        lemma_inserted::<T, R>(front, x);
        let q = inserted::<T, R>(front, x);
        assert(s =~= front.push(s.last()));
        assert(s.to_multiset() =~= front.to_multiset().insert(s.last()));
        assert(r.to_multiset() =~= s.to_multiset().insert(x));
        assert forall|i: int, j: int| 0 <= i < j < r.len() implies !R::lt(
            #[trigger] r[j],
            #[trigger] r[i],
        ) by {
            if j == r.len() - 1 {
                assert(r[i] == q[i]);
                if q[i] == x {
                    if lt(s.last(), x) {
                        assert(lt(x, s.last()) && lt(s.last(), x));
                        assert(lt(x, x));
                    }
                } else {
                    let k = choose|k: int| 0 <= k < front.len() && front[k] == q[i];
                    assert(s[k] == q[i]);
                }
            } else {
                assert(r[i] == q[i] && r[j] == q[j]);
            }
        }
        assert forall|i: int| 0 <= i < s.len() + 1 implies (#[trigger] r[i] == x || s.contains(r[i])) by {
            if i < s.len() {
                assert(r[i] == q[i]);
                if q[i] != x {
                    let k = choose|k: int| 0 <= k < front.len() && front[k] == q[i];
                    assert(s[k] == q[i]);
                }
            } else {
                assert(r[i] == s[s.len() - 1]);
            }
        }
    }
}

/// A sorted sequence is in order and holds the same values as often.
pub proof fn lemma_sorted<T, R: Ranking<T>>(s: Seq<T>)
    ensures
        in_order::<T, R>(sorted::<T, R>(s)),
        sorted::<T, R>(s).to_multiset() == s.to_multiset(),
        sorted::<T, R>(s).len() == s.len(),
    decreases s.len(),
{
    broadcast use vstd::seq_lib::group_to_multiset_ensures;

    if s.len() > 0 {
        let front = s.drop_last();
        lemma_sorted::<T, R>(front);
        lemma_inserted::<T, R>(sorted::<T, R>(front), s.last());
        assert(s =~= front.push(s.last()));
    }
}

proof fn lemma_inserted_at<T, R: Ranking<T>>(s: Seq<T>, x: T, at: int)
    requires
        0 <= at <= s.len(),
        at > 0 ==> !R::lt(x, s[at - 1]),
        forall|i: int| at <= i < s.len() ==> R::lt(x, #[trigger] s[i]),
    ensures
        inserted::<T, R>(s, x) == s.insert(at, x),
    decreases s.len(),
{
    if at == s.len() {
        assert(s.insert(at, x) =~= s.push(x));
        if s.len() > 0 {
            assert(s.last() == s[at - 1]);
        }
    } else {
        let front = s.drop_last();
        assert(R::lt(x, s[s.len() - 1]));
        assert forall|i: int| at <= i < front.len() implies R::lt(x, #[trigger] front[i]) by {
            assert(front[i] == s[i]);
        }
        if at > 0 {
            assert(front[at - 1] == s[at - 1]);
        }
        lemma_inserted_at::<T, R>(front, x, at);
        assert(front.insert(at, x).push(s.last()) =~= s.insert(at, x));
    }
}

fn find_place<T, R: Ranking<T>>(list: &Vec<T>, x: &T) -> (at: usize)
    requires
        in_order::<T, R>(list@),
    ensures
        at <= list@.len(),
        inserted::<T, R>(list@, *x) == list@.insert(at as int, *x),
{
    let mut low: usize = 0;
    let mut high: usize = list.len();
    proof {
        R::laws();
    }
    let ghost lt = |a: T, b: T| R::lt(a, b);
    while low < high
        invariant
            low <= high <= list@.len(),
            in_order::<T, R>(list@),
            lt == (|a: T, b: T| R::lt(a, b)),
            strict_weak(lt),
            forall|i: int| 0 <= i < low ==> !R::lt(*x, #[trigger] list@[i]),
            forall|i: int| high <= i < list@.len() ==> R::lt(*x, #[trigger] list@[i]),
        decreases high - low,
    {
        let middle: usize = low + (high - low) / 2;
        if R::before(x, &list[middle]) {
            assert forall|i: int| middle <= i < list@.len() implies R::lt(*x, #[trigger] list@[i]) by {
                if i > middle {
                    assert(!R::lt(list@[i], list@[middle as int]));
                    assert(lt(*x, list@[middle as int]));
                    assert(lt(*x, list@[i]) || lt(list@[i], list@[middle as int]));
                }
            }
            high = middle;
        } else {
            assert forall|i: int| 0 <= i < middle + 1 implies !R::lt(*x, #[trigger] list@[i]) by {
                if i < middle && lt(*x, list@[i]) {
                    assert(!R::lt(list@[middle as int], list@[i]));
                    assert(lt(*x, list@[middle as int]) || lt(list@[middle as int], list@[i]));
                }
            }
            low = middle + 1;
        }
    }
    proof {
        lemma_inserted_at::<T, R>(list@, *x, low as int);
    }
    low
}

/// Sorts a list; values that tie keep their places.
pub fn sort<T, R: Ranking<T>>(list: Vec<T>) -> (out: Vec<T>)
    ensures
        out@ == sorted::<T, R>(list@),
        in_order::<T, R>(out@),
        out@.to_multiset() == list@.to_multiset(),
{
    let mut out: Vec<T> = Vec::new();
    let ghost all = list@;
    for x in it: list
        invariant
            it.seq() == all,
            out@ == sorted::<T, R>(all.take(it.index() as int)),
    {
        proof {
            lemma_sorted::<T, R>(all.take(it.index() as int));
        }
        let at = find_place::<T, R>(&out, &x);
        out.insert(at, x);
        assert(all.take(it.index() + 1).drop_last() =~= all.take(it.index() as int));
    }
    assert(all.take(all.len() as int) =~= all);
    proof {
        lemma_sorted::<T, R>(all);
    }
    out
}

/// Ordering by a key whose order is strict and total is a strict weak order.
pub proof fn lemma_keyed<T, K>(lt: spec_fn(K, K) -> bool, key: spec_fn(T) -> K)
    requires
        strict_total(lt),
    ensures
        strict_weak(|a: T, b: T| lt(key(a), key(b))),
{
    assert forall|a: T, b: T, c: T| #[trigger] lt(key(a), key(c)) implies #[trigger] lt(key(a), key(b)) || lt(
        key(b),
        key(c),
    ) by {
        if key(a) != key(b) && !lt(key(a), key(b)) {
            assert(lt(key(b), key(a)));
        }
    }
}

/// Whether the value at `i` is the first of a sequence that a condition holds of.
pub open spec fn first_at<T>(s: Seq<T>, keep: spec_fn(T) -> bool, i: int) -> bool {
    &&& 0 <= i < s.len()
    &&& keep(s[i])
    &&& forall|j: int| 0 <= j < i ==> !keep(#[trigger] s[j])
}

/// Whether a place is that of the first value that a condition holds of, or there
/// is none.
pub open spec fn finds<T>(s: Seq<T>, keep: spec_fn(T) -> bool, r: Option<usize>) -> bool {
    match r {
        Some(i) => first_at(s, keep, i as int),
        None => forall|i: int| 0 <= i < s.len() ==> !keep(#[trigger] s[i]),
    }
}

/// A sequence without duplicates is no longer than one that holds all its values.
pub proof fn lemma_fits<T>(s: Seq<T>, among: Seq<T>)
    requires
        s.no_duplicates(),
        forall|i: int| 0 <= i < s.len() ==> among.contains(#[trigger] s[i]),
    ensures
        s.len() <= among.len(),
{
    s.unique_seq_to_set();
    assert(s.to_set().subset_of(among.to_set())) by {
        assert forall|x: T| s.to_set().contains(x) implies among.to_set().contains(x) by {
            let i = choose|i: int| 0 <= i < s.len() && s[i] == x;
            assert(among.contains(s[i]));
        }
    }
    vstd::seq_lib::seq_to_set_is_finite(among);
    vstd::set_lib::lemma_len_subset(s.to_set(), among.to_set());
    among.lemma_cardinality_of_set();
}

/// Two conditions that hold of the same values keep the same.
pub broadcast proof fn lemma_same_filter<T>(
    s: Seq<T>,
    a: spec_fn(T) -> bool,
    b: spec_fn(T) -> bool,
)
    requires
        forall|x: T| #[trigger] a(x) == b(x),
    ensures
        #![trigger s.filter(a), s.filter(b)]
        s.filter(a) == s.filter(b),
    decreases s.len(),
{
    reveal(Seq::filter);
    if s.len() > 0 {
        lemma_same_filter(s.drop_last(), a, b);
    }
}

/// Every value that a filter keeps stands in the sequence that was filtered.
pub proof fn lemma_filtered<T>(s: Seq<T>, keep: spec_fn(T) -> bool, n: int) -> (k: int)
    requires
        0 <= n < s.filter(keep).len(),
    ensures
        0 <= k < s.len(),
        s[k] == s.filter(keep)[n],
        keep(s[k]),
    decreases s.len(),
{
    reveal(Seq::filter);
    let front = s.drop_last();
    if n < front.filter(keep).len() {
        let k = lemma_filtered(front, keep, n);
        assert(s[k] == front[k]);
        k
    } else {
        s.len() - 1
    }
}

/// Whether a text goes before another.
pub fn text_before(a: &str, b: &str) -> (r: bool)
    ensures
        r == text_lt(a@, b@),
{
    let left = chars_of(a);
    let right = chars_of(b);
    let mut i: usize = 0;
    assert(a@.skip(0) =~= a@ && b@.skip(0) =~= b@);
    while i < left.len() && i < right.len()
        invariant
            i <= left@.len(),
            i <= right@.len(),
            left@ == a@,
            right@ == b@,
            text_lt(a@, b@) == text_lt(a@.skip(i as int), b@.skip(i as int)),
        decreases left@.len() - i,
    {
        let ghost x = a@.skip(i as int);
        let ghost y = b@.skip(i as int);
        assert(x[0] == a@[i as int] && y[0] == b@[i as int]);
        if left[i] != right[i] {
            return left[i] < right[i];
        }
        assert(x.drop_first() =~= a@.skip(i + 1));
        assert(y.drop_first() =~= b@.skip(i + 1));
        i += 1;
    }
    i < right.len()
}

/// Texts in their order.
pub struct ByText;

impl Ranking<String> for ByText {
    open spec fn lt(a: String, b: String) -> bool {
        text_lt(a@, b@)
    }

    proof fn laws() {
        lemma_text_order();
        let lt = |a: Seq<char>, b: Seq<char>| text_lt(a, b);
        let key = |t: String| t@;
        lemma_keyed(lt, key);
        let keyed = |a: String, b: String| lt(key(a), key(b));
        let own = |a: String, b: String| Self::lt(a, b);
        assert(keyed =~= own);
    }

    fn before(a: &String, b: &String) -> (r: bool) {
        text_before(a, b)
    }
}

/// Whether each text of a list goes before the next.
pub open spec fn ascending(list: Seq<Seq<char>>) -> bool {
    forall|i: int, j: int| 0 <= i < j < list.len() ==> text_lt(#[trigger] list[i], #[trigger] list[j])
}

/// Where a text stands in an ascending list, or is to be put: behind all that
/// go before it.
pub fn place_of(list: &Vec<String>, text: &str) -> (found: (usize, bool))
    requires
        ascending(views(list@)),
    ensures
        found.0 <= list@.len(),
        found.1 ==> found.0 < list@.len() && list@[found.0 as int]@ == text@,
        !found.1 ==> !views(list@).contains(text@),
        forall|i: int| 0 <= i < found.0 ==> text_lt(#[trigger] list@[i]@, text@),
        forall|i: int| found.0 < i < list@.len() ==> text_lt(text@, #[trigger] list@[i]@),
        !found.1 && found.0 < list@.len() ==> text_lt(text@, list@[found.0 as int]@),
{
    let ghost all = views(list@);
    let mut at: usize = 0;
    proof {
        lemma_text_order();
    }
    let ghost lt = |a: Seq<char>, b: Seq<char>| text_lt(a, b);
    while at < list.len() && text_before(&list[at], text)
        invariant
            at <= list@.len(),
            all == views(list@),
            forall|i: int| 0 <= i < at ==> text_lt(#[trigger] list@[i]@, text@),
        decreases list@.len() - at,
    {
        at += 1;
    }
    let here = at < list.len() && list[at].as_str().to_owned() == text.to_owned();
    assert forall|i: int| at < i < list@.len() implies text_lt(text@, #[trigger] list@[i]@) by {
        assert(text_lt(all[at as int], all[i]));
        if all[at as int] != text@ {
            assert(lt(text@, all[at as int]) || lt(all[at as int], text@));
            assert(lt(text@, all[at as int]) && lt(all[at as int], all[i]));
        }
    }
    proof {
        if !here {
            if at < list@.len() {
                assert(lt(text@, all[at as int]) || lt(all[at as int], text@));
            }
            assert forall|i: int| 0 <= i < all.len() implies all[i] != text@ by {
                assert(list@[i]@ == all[i]);
                if i < at {
                    assert(lt(all[i], text@));
                } else if i > at {
                    assert(text_lt(text@, list@[i]@));
                    assert(lt(text@, all[i]));
                }
            }
        }
    }
    (at, here)
}

/// Puts a text into an ascending list, unless it stands there already.
pub fn add_text(list: &mut Vec<String>, text: String)
    requires
        ascending(views(old(list)@)),
    ensures
        ascending(views(final(list)@)),
        views(final(list)@).to_set() == views(old(list)@).to_set().insert(text@),
{
    let ghost had = views(list@);
    let ghost value = text@;
    let (at, here) = place_of(list, &text);
    if here {
        assert(had[at as int] == value);
        assert(had.to_set() =~= had.to_set().insert(value));
        return ;
    }
    let ghost before = list@;
    list.insert(at, text);
    let ghost now = views(list@);
    assert(now =~= had.insert(at as int, value));
    assert forall|i: int, j: int| 0 <= i < j < now.len() implies text_lt(
        #[trigger] now[i],
        #[trigger] now[j],
    ) by {
        let old_i = if i < at { i } else { i - 1 };
        let old_j = if j < at { j } else { j - 1 };
        if i == at {
            assert(before[old_j]@ == now[j]);
        } else if j == at {
            assert(before[old_i]@ == now[i]);
        } else {
            assert(text_lt(had[old_i], had[old_j]));
        }
    }
    assert forall|x: Seq<char>| now.contains(x) == (had.contains(x) || x == value) by {
        if now.contains(x) {
            let k = choose|k: int| 0 <= k < now.len() && now[k] == x;
            if k < at {
                assert(had[k] == x);
            } else if k > at {
                assert(had[k - 1] == x);
            }
        }
        if had.contains(x) {
            let k = choose|k: int| 0 <= k < had.len() && had[k] == x;
            if k < at {
                assert(now[k] == x);
            } else {
                assert(now[k + 1] == x);
            }
        }
        if x == value {
            assert(now[at as int] == x);
        }
    }
    assert(now.to_set() =~= had.to_set().insert(value));
}

/// Two ascending lists of the same values are the same list.
pub proof fn lemma_ascending_equal<T>(a: Seq<T>, b: Seq<T>, lt: spec_fn(T, T) -> bool)
    requires
        forall|x: T| !(#[trigger] lt(x, x)),
        forall|x: T, y: T, z: T| #[trigger] lt(x, y) && #[trigger] lt(y, z) ==> lt(x, z),
        forall|i: int, j: int| 0 <= i < j < a.len() ==> lt(#[trigger] a[i], #[trigger] a[j]),
        forall|i: int, j: int| 0 <= i < j < b.len() ==> lt(#[trigger] b[i], #[trigger] b[j]),
        forall|i: int| 0 <= i < a.len() ==> b.contains(#[trigger] a[i]),
        forall|i: int| 0 <= i < b.len() ==> a.contains(#[trigger] b[i]),
    ensures
        a == b,
    decreases a.len(),
{
    if a.len() == 0 {
        if b.len() > 0 {
            assert(a.contains(b[0]));
        }
        assert(a =~= b);
    } else {
        let m = a.len() - 1;
        assert(b.contains(a[m]));
        let n = b.len() - 1;
        assert(a.contains(b[n]));
        if a[m] != b[n] {
            let i = choose|i: int| 0 <= i < a.len() && a[i] == b[n];
            let j = choose|j: int| 0 <= j < b.len() && b[j] == a[m];
            assert(lt(a[i], a[m]));
            assert(lt(b[j], b[n]));
            assert(lt(a[m], a[m]));
        }
        let x = a.drop_last();
        let y = b.drop_last();
        assert forall|i: int| 0 <= i < x.len() implies y.contains(#[trigger] x[i]) by {
            assert(x[i] == a[i]);
            let j = choose|j: int| 0 <= j < b.len() && b[j] == a[i];
            assert(lt(a[i], a[m]));
            assert(j != n);
            assert(y[j] == x[i]);
        }
        assert forall|i: int| 0 <= i < y.len() implies x.contains(#[trigger] y[i]) by {
            assert(y[i] == b[i]);
            let j = choose|j: int| 0 <= j < a.len() && a[j] == b[i];
            assert(lt(b[i], b[n]));
            assert(j != m);
            assert(x[j] == y[i]);
        }
        lemma_ascending_equal(x, y, lt);
        assert(a =~= x.push(a[m]));
        assert(b =~= y.push(b[n]));
    }
}

/// Two ascending lists of the same texts are the same list.
pub proof fn lemma_ascending_unique(a: Seq<Seq<char>>, b: Seq<Seq<char>>)
    requires
        ascending(a),
        ascending(b),
        a.to_set() == b.to_set(),
    ensures
        a == b,
{
    lemma_text_order();
    let lt = |x: Seq<char>, y: Seq<char>| text_lt(x, y);
    assert forall|i: int| 0 <= i < a.len() implies b.contains(#[trigger] a[i]) by {
        assert(a.to_set().contains(a[i]));
    }
    assert forall|i: int| 0 <= i < b.len() implies a.contains(#[trigger] b[i]) by {
        assert(b.to_set().contains(b[i]));
    }
    lemma_ascending_equal(a, b, lt);
}

} // verus!
