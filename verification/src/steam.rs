//! Finding the game in the libraries of Steam.
use vstd::prelude::*;

use crate::digest::short_digest;
use crate::models::GameInstall;
use crate::order::{lemma_ascending_equal, sort, sorted, Ranking};
use crate::outside::{hex_of, sha256_of};
use crate::path::{
    absolute, join, join_path, lemma_parts_order, lies_under, option_view, parts, parts_lt, path_before,
    path_lt, same_path, same_place, starts_with, Part,
};
use crate::text::{
    before_char, chars_of, decimal, decimal_text, has_piece, has_text, lemma_before_char, lines,
    lower, occurs, replace_text, replaced, same_ignoring_case, split_lines, split_on, split_text,
    split_words, views, words,
};

verus! {

/// The number of the game at Steam.
pub const CYBERPUNK_APP_ID: u32 = 1091500;

/// Where the quotation mark stands that ends a quoted value: the first that no
/// backslash stands before.
pub open spec fn closing(text: Seq<char>) -> Option<nat>
    decreases text.len(),
{
    if text.len() == 0 {
        None
    } else if text[0] == '"' {
        Some(0)
    } else if text[0] == '\\' {
        if text.len() < 2 {
            None
        } else {
            match closing(text.skip(2)) {
                Some(n) => Some(n + 2),
                None => None,
            }
        }
    } else {
        match closing(text.skip(1)) {
            Some(n) => Some(n + 1),
            None => None,
        }
    }
}

/// A quoted value with each backslash taken away, and what stands behind it kept.
pub open spec fn unescaped(text: Seq<char>) -> Seq<char>
    decreases text.len(),
{
    if text.len() == 0 {
        text
    } else if text[0] == '\\' && text.len() >= 2 {
        seq![text[1]] + unescaped(text.skip(2))
    } else {
        seq![text[0]] + unescaped(text.skip(1))
    }
}

/// The quotation mark that ends a quoted value stands in the text.
pub proof fn lemma_closing(text: Seq<char>)
    ensures
        closing(text) is Some ==> closing(text)->0 < text.len(),
    decreases text.len(),
{
    if text.len() > 0 && text[0] != '"' {
        if text[0] == '\\' {
            if text.len() >= 2 {
                lemma_closing(text.skip(2));
            }
        } else {
            lemma_closing(text.skip(1));
        }
    }
}

/// The values between quotation marks in a line.
pub open spec fn quoted_in(line: Seq<char>) -> Seq<Seq<char>>
    decreases line.len(),
{
    let open = before_char(line, '"');
    if open >= line.len() {
        Seq::empty()
    } else {
        let rest = line.skip(open as int + 1);
        match closing(rest) {
            None => Seq::empty(),
            Some(n) => {
                proof {
                    lemma_closing(rest);
                }
                seq![unescaped(rest.take(n as int))] + quoted_in(rest.skip(n as int + 1))
            },
        }
    }
}

fn find_closing(chars: &Vec<char>, start: usize) -> (r: Option<usize>)
    requires
        start <= chars@.len(),
    ensures
        match r {
            Some(at) => start <= at < chars@.len() && closing(chars@.skip(start as int)) == Some(
                (at - start) as nat,
            ),
            None => closing(chars@.skip(start as int)) is None,
        },
{
    let ghost whole = closing(chars@.skip(start as int));
    let mut at: usize = start;
    while at < chars.len()
        invariant
            start <= at <= chars@.len(),
            whole == closing(chars@.skip(start as int)),
            match closing(chars@.skip(at as int)) {
                Some(n) => whole == Some((n + (at - start)) as nat),
                None => whole is None,
            },
        decreases chars@.len() - at,
    {
        let ghost rest = chars@.skip(at as int);
        assert(rest[0] == chars@[at as int]);
        if chars[at] == '"' {
            return Some(at);
        }
        if chars[at] == '\\' {
            if at + 1 >= chars.len() {
                return None;
            }
            assert(rest.skip(2) =~= chars@.skip(at + 2));
            at += 2;
        } else {
            assert(rest.skip(1) =~= chars@.skip(at + 1));
            at += 1;
        }
    }
    None
}

fn unescape(chars: &Vec<char>, start: usize, end: usize) -> (r: String)
    requires
        start <= end <= chars@.len(),
    ensures
        r@ == unescaped(chars@.subrange(start as int, end as int)),
{
    let ghost goal = unescaped(chars@.subrange(start as int, end as int));
    let mut r = String::new();
    let mut at: usize = start;
    assert(r@ + goal =~= goal);
    while at < end
        invariant
            start <= at <= end <= chars@.len(),
            goal == r@ + unescaped(chars@.subrange(at as int, end as int)),
        decreases end - at,
    {
        let ghost rest = chars@.subrange(at as int, end as int);
        let ghost had = r@;
        assert(rest[0] == chars@[at as int]);
        if chars[at] == '\\' && end - at >= 2 {
            r.push(chars[at + 1]);
            assert(rest.skip(2) =~= chars@.subrange(at + 2, end as int));
            assert(had + (seq![rest[1]] + unescaped(rest.skip(2))) =~= r@ + unescaped(rest.skip(2)));
            at += 2;
        } else {
            r.push(chars[at]);
            assert(rest.skip(1) =~= chars@.subrange(at + 1, end as int));
            assert(had + (seq![rest[0]] + unescaped(rest.skip(1))) =~= r@ + unescaped(rest.skip(1)));
            at += 1;
        }
    }
    assert(chars@.subrange(at as int, end as int) =~= Seq::<char>::empty());
    assert(r@ + Seq::<char>::empty() =~= r@);
    r
}

fn find_quote(chars: &Vec<char>, start: usize) -> (at: usize)
    requires
        start <= chars@.len(),
    ensures
        start <= at <= chars@.len(),
        at == start + before_char(chars@.skip(start as int), '"'),
{
    let mut at: usize = start;
    while at < chars.len() && chars[at] != '"'
        invariant
            start <= at <= chars@.len(),
            before_char(chars@.skip(start as int), '"') == (at - start) + before_char(
                chars@.skip(at as int),
                '"',
            ),
        decreases chars@.len() - at,
    {
        assert(chars@.skip(at as int).drop_first() =~= chars@.skip(at + 1));
        at += 1;
    }
    at
}

/// The values between quotation marks in a line. A backslash stands for the
/// character behind it.
pub fn quoted_values(line: &str) -> (r: Vec<String>)
    ensures
        views(r@) == quoted_in(line@),
{
    let chars = chars_of(line);
    let mut r: Vec<String> = Vec::new();
    let mut start: usize = 0;
    assert(line@.skip(0) =~= line@);
    assert(views(r@) + quoted_in(line@) =~= quoted_in(line@));
    loop
        invariant
            start <= chars@.len(),
            chars@ == line@,
            quoted_in(line@) == views(r@) + quoted_in(line@.skip(start as int)),
        decreases chars@.len() - start,
    {
        let ghost here = line@.skip(start as int);
        let ghost had = views(r@);
        let open = find_quote(&chars, start);
        if open >= chars.len() {
            assert(had + Seq::<Seq<char>>::empty() =~= had);
            return r;
        }
        let ghost rest = here.skip(open - start + 1);
        assert(rest =~= line@.skip(open + 1));
        match find_closing(&chars, open + 1) {
            None => {
                assert(had + Seq::<Seq<char>>::empty() =~= had);
                return r;
            },
            Some(at) => {
                let ghost n = at - (open + 1);
                assert(chars@.subrange(open + 1, at as int) =~= rest.take(n));
                assert(rest.skip(n + 1) =~= line@.skip(at + 1));
                r.push(unescape(&chars, open + 1, at));
                assert(views(r@) =~= had.push(unescaped(rest.take(n))));
                assert(had + (seq![unescaped(rest.take(n))] + quoted_in(rest.skip(n + 1)))
                    =~= views(r@) + quoted_in(line@.skip(at + 1)));
                start = at + 1;
            },
        }
    }
}

/// Whether the values of a line are a key and at least one more.
pub open spec fn is_for_key(values: Seq<Seq<char>>, key: Seq<char>) -> bool {
    values.len() >= 2 && lower(values[0]) == lower(key)
}

/// The values of a key, line by line.
pub open spec fn values_of(contents: Seq<char>, key: Seq<char>) -> Seq<Seq<char>> {
    lines(contents).map_values(|line: Seq<char>| quoted_in(line)).filter(
        |values: Seq<Seq<char>>| is_for_key(values, key),
    ).map_values(|values: Seq<Seq<char>>| values[1])
}

/// The values of a key in a file of Steam, one for each line that begins with the
/// key. The case of the key's letters does not matter.
pub fn vdf_values(contents: &str, key: &str) -> (r: Vec<String>)
    ensures
        views(r@) == values_of(contents@, key@),
{
    let found = split_lines(contents);
    let ghost read = |line: Seq<char>| quoted_in(line);
    let ghost keep = |values: Seq<Seq<char>>| is_for_key(values, key@);
    let ghost second = |values: Seq<Seq<char>>| values[1];
    let ghost all = lines(contents@).map_values(read);
    let mut r: Vec<String> = Vec::new();
    let mut i: usize = 0;
    assert(views(r@) =~= all.take(0).filter(keep).map_values(second)) by {
        reveal(Seq::filter);
    }
    while i < found.len()
        invariant
            i <= found@.len(),
            views(found@) == lines(contents@),
            read == (|line: Seq<char>| quoted_in(line)),
            keep == (|values: Seq<Seq<char>>| is_for_key(values, key@)),
            second == (|values: Seq<Seq<char>>| values[1]),
            all == lines(contents@).map_values(read),
            views(r@) == all.take(i as int).filter(keep).map_values(second),
        decreases found@.len() - i,
    {
        let values = quoted_values(&found[i]);
        let ghost had = views(r@);
        let ghost now = all.take(i + 1);
        assert(views(found@)[i as int] == found@[i as int]@);
        assert(all[i as int] == views(values@));
        assert(now.drop_last() =~= all.take(i as int));
        assert(now.last() == views(values@));
        assert(views(values@).len() == values@.len());
        if values.len() >= 2 && same_ignoring_case(&values[0], key) {
            r.push(values[1].clone());
            assert(keep(now.last()));
            assert(now.filter(keep) =~= all.take(i as int).filter(keep).push(views(values@))) by {
                reveal(Seq::filter);
            }
            assert(views(r@) =~= had.push(second(views(values@))));
            assert(views(r@) =~= now.filter(keep).map_values(second));
        } else {
            assert(!keep(now.last()));
            assert(now.filter(keep) =~= all.take(i as int).filter(keep)) by {
                reveal(Seq::filter);
            }
        }
        i += 1;
    }
    assert(all.take(i as int) =~= all);
    r
}

/// The first value of a key.
pub open spec fn value_of(contents: Seq<char>, key: Seq<char>) -> Option<Seq<char>> {
    if values_of(contents, key).len() == 0 {
        None
    } else {
        Some(values_of(contents, key)[0])
    }
}

/// The first value of a key in a file of Steam.
pub fn vdf_value(contents: &str, key: &str) -> (r: Option<String>)
    ensures
        option_view(r) == value_of(contents@, key@),
{
    let values = vdf_values(contents, key);
    assert(views(values@).len() == values@.len());
    if values.len() == 0 {
        None
    } else {
        assert(views(values@)[0] == values@[0]@);
        Some(values[0].clone())
    }
}

/// A value with a backslash before each backslash and quotation mark.
pub open spec fn escaped(value: Seq<char>) -> Seq<char>
    decreases value.len(),
{
    if value.len() == 0 {
        value
    } else if value[0] == '"' || value[0] == '\\' {
        seq!['\\', value[0]] + escaped(value.skip(1))
    } else {
        seq![value[0]] + escaped(value.skip(1))
    }
}

proof fn lemma_escaped(value: Seq<char>, tail: Seq<char>)
    ensures
        closing(escaped(value) + seq!['"'] + tail) == Some(escaped(value).len()),
        unescaped(escaped(value)) == value,
    decreases value.len(),
{
    let text = escaped(value) + seq!['"'] + tail;
    if value.len() == 0 {
        assert(text[0] == '"');
        assert(unescaped(escaped(value)) =~= value);
    } else {
        let more = value.skip(1);
        lemma_escaped(more, tail);
        let next = escaped(more) + seq!['"'] + tail;
        if value[0] == '"' || value[0] == '\\' {
            assert(text.skip(2) =~= next);
            assert(escaped(value).skip(2) =~= escaped(more));
        } else {
            assert(text.skip(1) =~= next);
            assert(escaped(value).skip(1) =~= escaped(more));
        }
        assert(seq![value[0]] + more =~= value);
    }
}

proof fn lemma_quoted_first(before: Seq<char>, value: Seq<char>, tail: Seq<char>)
    requires
        !before.contains('"'),
    ensures
        quoted_in(before + seq!['"'] + escaped(value) + seq!['"'] + tail) == seq![value] + quoted_in(
            tail,
        ),
{
    let line = before + seq!['"'] + escaped(value) + seq!['"'] + tail;
    assert forall|i: int| 0 <= i < before.len() implies line[i] != '"' by {
        assert(before.contains(before[i]));
    }
    crate::text::lemma_before_char_is(line, '"', before.len());
    let rest = line.skip(before.len() as int + 1);
    assert(rest =~= escaped(value) + seq!['"'] + tail);
    lemma_escaped(value, tail);
    let n = escaped(value).len() as int;
    assert(rest.take(n) =~= escaped(value));
    assert(rest.skip(n + 1) =~= tail);
}

/// A key and a value that are written between quotation marks, with a backslash
/// before each backslash and quotation mark in them, are read back as they were.
pub proof fn law_quoted_values_come_back(key: Seq<char>, value: Seq<char>, gap: Seq<char>)
    requires
        !gap.contains('"'),
    ensures
        quoted_in(
            seq!['"'] + escaped(key) + seq!['"'] + gap + seq!['"'] + escaped(value) + seq!['"'],
        ) == seq![key, value],
{
    let none = Seq::<char>::empty();
    let tail = gap + seq!['"'] + escaped(value) + seq!['"'] + none;
    lemma_quoted_first(none, key, tail);
    lemma_quoted_first(gap, value, none);
    assert(none + seq!['"'] + escaped(key) + seq!['"'] + tail =~= seq!['"'] + escaped(key) + seq!['"']
        + gap + seq!['"'] + escaped(value) + seq!['"']);
    lemma_before_char(none, '"');
    assert(quoted_in(none) =~= Seq::<Seq<char>>::empty());
    assert(seq![key] + (seq![value] + Seq::<Seq<char>>::empty()) =~= seq![key, value]);
}

/// Whether no earlier path of a list names the same place.
pub open spec fn first_of_place(list: Seq<Seq<char>>, k: int) -> bool {
    0 <= k < list.len() && forall|j: int| 0 <= j < k ==> !same_place(#[trigger] list[j], list[k])
}

/// Whether a list has a path to a place.
pub open spec fn has_place(list: Seq<Seq<char>>, path: Seq<char>) -> bool {
    exists|i: int| 0 <= i < list.len() && same_place(#[trigger] list[i], path)
}

/// Whether a path is the first of a list for its place.
pub open spec fn leads_place(list: Seq<Seq<char>>, path: Seq<char>) -> bool {
    exists|k: int| first_of_place(list, k) && #[trigger] list[k] == path
}

/// Whether a list holds the places of another, each once, in the order of paths and
/// under the path that names it first.
pub open spec fn is_path_set(set: Seq<Seq<char>>, list: Seq<Seq<char>>) -> bool {
    &&& forall|i: int, j: int| 0 <= i < j < set.len() ==> path_lt(#[trigger] set[i], #[trigger] set[j])
    &&& forall|i: int| 0 <= i < set.len() ==> #[trigger] leads_place(list, set[i])
    &&& forall|k: int| 0 <= k < list.len() ==> #[trigger] has_place(set, list[k])
}

/// The set of the places of a list is one list only.
pub proof fn law_path_set_is_unique(a: Seq<Seq<char>>, b: Seq<Seq<char>>, list: Seq<Seq<char>>)
    requires
        is_path_set(a, list),
        is_path_set(b, list),
    ensures
        a == b,
{
    lemma_parts_order();
    let order = |x: Seq<Part>, y: Seq<Part>| parts_lt(x, y);
    let lt = |x: Seq<char>, y: Seq<char>| path_lt(x, y);
    assert forall|x: Seq<char>| !(#[trigger] lt(x, x)) by {
        assert(!order(parts(x), parts(x)));
    }
    assert forall|x: Seq<char>, y: Seq<char>, z: Seq<char>| #[trigger] lt(x, y) && #[trigger] lt(y, z)
        implies lt(x, z) by {
        assert(order(parts(x), parts(y)) && order(parts(y), parts(z)));
    }
    assert forall|i: int| 0 <= i < a.len() implies b.contains(#[trigger] a[i]) by {
        assert(leads_place(list, a[i]));
        lemma_shared_lead(b, list, a[i]);
    }
    assert forall|i: int| 0 <= i < b.len() implies a.contains(#[trigger] b[i]) by {
        assert(leads_place(list, b[i]));
        lemma_shared_lead(a, list, b[i]);
    }
    lemma_ascending_equal(a, b, lt);
}

proof fn lemma_shared_lead(set: Seq<Seq<char>>, list: Seq<Seq<char>>, path: Seq<char>)
    requires
        is_path_set(set, list),
        leads_place(list, path),
    ensures
        set.contains(path),
{
    let k = choose|k: int| first_of_place(list, k) && #[trigger] list[k] == path;
    assert(has_place(set, list[k]));
    let j = choose|j: int| 0 <= j < set.len() && same_place(#[trigger] set[j], list[k]);
    assert(leads_place(list, set[j]));
    let m = choose|m: int| first_of_place(list, m) && #[trigger] list[m] == set[j];
    if m < k {
        assert(!same_place(list[m], list[k]));
    }
    if k < m {
        assert(!same_place(list[k], list[m]));
    }
    assert(set[j] == path);
}

proof fn lemma_set_keeps(set: Seq<Seq<char>>, list: Seq<Seq<char>>, path: Seq<char>)
    requires
        is_path_set(set, list),
    ensures
        forall|i: int| 0 <= i < set.len() ==> #[trigger] leads_place(list.push(path), set[i]),
        has_place(set, path) ==> is_path_set(set, list.push(path)),
{
    let more = list.push(path);
    assert forall|i: int| 0 <= i < set.len() implies #[trigger] leads_place(more, set[i]) by {
        assert(leads_place(list, set[i]));
        let k = choose|k: int| first_of_place(list, k) && #[trigger] list[k] == set[i];
        assert forall|j: int| 0 <= j < k implies !same_place(#[trigger] more[j], more[k]) by {
            assert(!same_place(list[j], list[k]));
        }
        assert(first_of_place(more, k) && more[k] == set[i]);
    }
    if has_place(set, path) {
        assert forall|k: int| 0 <= k < more.len() implies #[trigger] has_place(set, more[k]) by {
            if k < list.len() {
                assert(has_place(set, list[k]));
            }
        }
    }
}

proof fn lemma_set_grows(set: Seq<Seq<char>>, list: Seq<Seq<char>>, path: Seq<char>, at: int)
    requires
        is_path_set(set, list),
        !has_place(set, path),
        0 <= at <= set.len(),
        forall|i: int| 0 <= i < at ==> path_lt(#[trigger] set[i], path),
        forall|i: int| at <= i < set.len() ==> path_lt(path, #[trigger] set[i]),
    ensures
        is_path_set(set.insert(at, path), list.push(path)),
{
    let now = set.insert(at, path);
    let more = list.push(path);
    lemma_set_keeps(set, list, path);
    assert forall|i: int, j: int| 0 <= i < j < now.len() implies path_lt(
        #[trigger] now[i],
        #[trigger] now[j],
    ) by {
        let p = if i < at { i } else { i - 1 };
        let q = if j < at { j } else { j - 1 };
        if i == at {
            assert(now[j] == set[q]);
        } else if j == at {
            assert(now[i] == set[p]);
        } else {
            assert(path_lt(set[p], set[q]));
        }
    }
    assert(leads_place(more, path)) by {
        let n = list.len() as int;
        assert forall|j: int| 0 <= j < n implies !same_place(#[trigger] more[j], more[n]) by {
            assert(has_place(set, list[j]));
            let i = choose|i: int| 0 <= i < set.len() && same_place(#[trigger] set[i], list[j]);
            if same_place(more[j], more[n]) {
                assert(same_place(set[i], path));
            }
        }
        assert(first_of_place(more, n) && more[n] == path);
    }
    assert forall|i: int| 0 <= i < now.len() implies #[trigger] leads_place(more, now[i]) by {
        if i < at {
            assert(leads_place(more, set[i]));
        } else if i > at {
            assert(leads_place(more, set[i - 1]));
        }
    }
    assert forall|k: int| 0 <= k < more.len() implies #[trigger] has_place(now, more[k]) by {
        if k < list.len() {
            assert(has_place(set, list[k]));
            let i = choose|i: int| 0 <= i < set.len() && same_place(#[trigger] set[i], list[k]);
            let p = if i < at { i } else { i + 1 };
            assert(now[p] == set[i]);
        } else {
            assert(now[at] == path);
            assert(same_place(now[at], more[k]));
        }
    }
}

/// The places of a list, each once and in the order of paths. Of several paths to a
/// place the first stays.
pub fn path_set(list: &Vec<String>) -> (r: Vec<String>)
    ensures
        is_path_set(views(r@), views(list@)),
{
    let ghost all = views(list@);
    let mut r: Vec<String> = Vec::new();
    let mut n: usize = 0;
    while n < list.len()
        invariant
            n <= list@.len(),
            all == views(list@),
            is_path_set(views(r@), all.take(n as int)),
        decreases list@.len() - n,
    {
        let path = &list[n];
        let ghost set = views(r@);
        assert(all[n as int] == path@);
        assert(all.take(n + 1) =~= all.take(n as int).push(path@));
        let mut at: usize = 0;
        while at < r.len() && path_before(&r[at], path)
            invariant
                at <= r@.len(),
                set == views(r@),
                path@ == all[n as int],
                forall|i: int| 0 <= i < at ==> path_lt(#[trigger] set[i], path@),
            decreases r@.len() - at,
        {
            assert(set[at as int] == r@[at as int]@);
            at += 1;
        }
        proof {
            lemma_parts_order();
            lemma_set_keeps(set, all.take(n as int), path@);
        }
        let ghost order = |x: Seq<Part>, y: Seq<Part>| parts_lt(x, y);
        if at < r.len() && same_path(&r[at], path) {
            assert(set[at as int] == r@[at as int]@);
            assert(has_place(set, path@));
        } else {
            assert forall|i: int| at <= i < set.len() implies path_lt(path@, #[trigger] set[i]) by {
                let a = parts(set[at as int]);
                let x = parts(path@);
                assert(set[at as int] == r@[at as int]@);
                assert(a != x && !order(a, x));
                assert(order(x, a));
                if i > at {
                    assert(path_lt(set[at as int], set[i]));
                    assert(order(a, parts(set[i])));
                }
            }
            assert(!has_place(set, path@)) by {
                assert forall|i: int| 0 <= i < set.len() implies !same_place(#[trigger] set[i], path@) by {
                    if i < at {
                        assert(order(parts(set[i]), parts(path@)));
                    } else {
                        assert(path_lt(path@, set[i]));
                        assert(order(parts(path@), parts(set[i])));
                    }
                }
            }
            proof {
                lemma_set_grows(set, all.take(n as int), path@, at as int);
            }
            r.insert(at, path.clone());
            assert(views(r@) =~= set.insert(at as int, path@));
        }
        n += 1;
    }
    assert(all.take(n as int) =~= all);
    r
}

/// Where Steam may be installed below a home directory.
pub open spec fn root_candidates(home: Seq<char>) -> Seq<Seq<char>> {
    seq![
        join_path(home, ".local/share/Steam"@),
        join_path(home, ".steam/steam"@),
        join_path(home, ".var/app/com.valvesoftware.Steam/data/Steam"@),
    ]
}

/// Where Steam may be installed; nowhere where the home directory is not known.
pub fn root_places(home: &Option<String>) -> (r: Vec<String>)
    ensures
        views(r@) == match *home {
            Some(home) => root_candidates(home@),
            None => Seq::empty(),
        },
{
    let mut r: Vec<String> = Vec::new();
    match home {
        Some(home) => {
            r.push(join(home, ".local/share/Steam"));
            r.push(join(home, ".steam/steam"));
            r.push(join(home, ".var/app/com.valvesoftware.Steam/data/Steam"));
            assert(views(r@) =~= root_candidates(home@));
        },
        None => {
            assert(views(r@) =~= Seq::<Seq<char>>::empty());
        },
    }
    r
}

/// Those of the places that are directories, as flags say.
pub open spec fn chosen(places: Seq<Seq<char>>, there: Seq<bool>) -> Seq<Seq<char>>
    decreases places.len(),
{
    if places.len() == 0 {
        Seq::empty()
    } else {
        chosen(places.drop_last(), there) + crate::text::if_so(
            places.len() <= there.len() && there[places.len() - 1],
            places.last(),
        )
    }
}

/// The installations of Steam: the places that are directories, each once and in
/// the order of paths. A flag tells whether a place is a directory.
pub fn steam_roots(places: &Vec<String>, there: &Vec<bool>) -> (r: Vec<String>)
    ensures
        is_path_set(views(r@), chosen(views(places@), there@)),
{
    let mut found: Vec<String> = Vec::new();
    let ghost all = views(places@);
    let mut i: usize = 0;
    while i < places.len()
        invariant
            i <= places@.len(),
            all == views(places@),
            views(found@) =~= chosen(all.take(i as int), there@),
        decreases places@.len() - i,
    {
        assert(all.take(i + 1).drop_last() =~= all.take(i as int));
        assert(all.take(i + 1).last() == places@[i as int]@);
        crate::text::add_if(&mut found, i < there.len() && there[i], &places[i]);
        i += 1;
    }
    assert(all.take(i as int) =~= all);
    path_set(&found)
}

/// An installation of Steam, with the list of its libraries where it can be read.
pub struct SteamRoot {
    pub path: String,
    pub folders: Option<String>,
}

/// The file with the list of the libraries of an installation.
pub fn folders_path(root: &str) -> (r: String)
    ensures
        r@ == join_path(root@, "steamapps/libraryfolders.vdf"@),
{
    join(root, "steamapps/libraryfolders.vdf")
}

/// A path of a library as the list of libraries has it.
pub open spec fn library_path(value: Seq<char>) -> Seq<char> {
    replaced(value, "\\\\"@, "\\"@)
}

/// The libraries that an installation names: itself, and those of its list.
pub open spec fn libraries_of(root: SteamRoot) -> Seq<Seq<char>> {
    seq![root.path@] + match root.folders {
        Some(contents) => values_of(contents@, "path"@).map_values(
            |value: Seq<char>| library_path(value),
        ),
        None => Seq::empty(),
    }
}

/// The libraries that installations name, one behind the other.
pub open spec fn named_libraries(roots: Seq<SteamRoot>) -> Seq<Seq<char>>
    decreases roots.len(),
{
    if roots.len() == 0 {
        Seq::empty()
    } else {
        named_libraries(roots.drop_last()) + libraries_of(roots.last())
    }
}

fn push_libraries(list: &mut Vec<String>, root: &SteamRoot)
    ensures
        views(final(list)@) == views(old(list)@) + libraries_of(*root),
{
    let ghost start = views(list@);
    list.push(root.path.clone());
    let ghost had = views(list@);
    assert(had =~= start + seq![root.path@]);
    match &root.folders {
        Some(contents) => {
            let values = vdf_values(contents, "path");
            let ghost turn = |value: Seq<char>| library_path(value);
            let ghost all = views(values@);
            proof {
                reveal_strlit("\\\\");
            }
            assert(all.take(0).map_values(turn) =~= Seq::<Seq<char>>::empty());
            assert(had + Seq::<Seq<char>>::empty() =~= had);
            let mut i: usize = 0;
            while i < values.len()
                invariant
                    i <= values@.len(),
                    all == views(values@),
                    "\\\\"@.len() > 0,
                    turn == (|value: Seq<char>| library_path(value)),
                    views(list@) == had + all.take(i as int).map_values(turn),
                decreases values@.len() - i,
            {
                let ghost now = views(list@);
                list.push(replace_text(&values[i], "\\\\", "\\"));
                assert(all[i as int] == values@[i as int]@);
                assert(views(list@) =~= now.push(turn(all[i as int])));
                assert(all.take(i + 1).map_values(turn) =~= all.take(i as int).map_values(turn).push(
                    turn(all[i as int]),
                ));
                assert(views(list@) =~= had + all.take(i + 1).map_values(turn));
                i += 1;
            }
            assert(all.take(i as int) =~= all);
            assert(views(list@) =~= start + libraries_of(*root));
        },
        None => {
            assert(views(list@) =~= start + libraries_of(*root));
        },
    }
}

/// The libraries of the installations, each once and in the order of paths.
pub fn libraries(roots: &Vec<SteamRoot>) -> (r: Vec<String>)
    ensures
        is_path_set(views(r@), named_libraries(roots@)),
{
    let mut found: Vec<String> = Vec::new();
    let mut i: usize = 0;
    assert(views(found@) =~= Seq::<Seq<char>>::empty());
    while i < roots.len()
        invariant
            i <= roots@.len(),
            views(found@) == named_libraries(roots@.take(i as int)),
        decreases roots@.len() - i,
    {
        assert(roots@.take(i + 1).drop_last() =~= roots@.take(i as int));
        push_libraries(&mut found, &roots[i]);
        i += 1;
    }
    assert(roots@.take(i as int) =~= roots@);
    path_set(&found)
}

/// The manifest of the game in a library.
pub open spec fn manifest_place(library: Seq<char>) -> Seq<char> {
    join_path(
        join_path(library, "steamapps"@),
        "appmanifest_"@ + decimal(CYBERPUNK_APP_ID as nat) + ".acf"@,
    )
}

/// The manifest of the game in a library.
pub fn manifest_path(library: &str) -> (r: String)
    ensures
        r@ == manifest_place(library@),
{
    let name = "appmanifest_".to_owned().concat(&decimal_text(CYBERPUNK_APP_ID as u128)).concat(".acf");
    join(&join(library, "steamapps"), &name)
}

/// A text, or another where it is missing.
pub open spec fn value_or(value: Option<Seq<char>>, other: Seq<char>) -> Seq<char> {
    match value {
        Some(value) => value,
        None => other,
    }
}

fn text_or(value: Option<String>, other: &str) -> (r: String)
    ensures
        r@ == value_or(option_view(value), other@),
{
    match value {
        Some(value) => value,
        None => other.to_owned(),
    }
}

/// The directory of the game in a library, as the manifest has it.
pub open spec fn game_place(library: Seq<char>, manifest: Seq<char>) -> Seq<char> {
    join_path(
        join_path(library, "steamapps/common"@),
        value_or(value_of(manifest, "installdir"@), "Cyberpunk 2077"@),
    )
}

/// The directory of the game in a library, as the manifest has it.
pub fn game_root(library: &str, manifest: &str) -> (r: String)
    ensures
        r@ == game_place(library@, manifest@),
{
    join(
        &join(library, "steamapps/common"),
        &text_or(vdf_value(manifest, "installdir"), "Cyberpunk 2077"),
    )
}

/// The executable of the game.
pub fn executable_path(root: &str) -> (r: String)
    ensures
        r@ == join_path(root@, "bin/x64/Cyberpunk2077.exe"@),
{
    join(root, "bin/x64/Cyberpunk2077.exe")
}

/// A mount: where it is and whether it can be written to.
pub struct Mount {
    pub point: Seq<char>,
    pub writable: bool,
}

/// The mount that a line of the table of mounts describes. `None` for a line that
/// is too short.
pub open spec fn mount_of(line: Seq<char>) -> Option<Mount> {
    let fields = words(line);
    if fields.len() < 6 {
        None
    } else {
        Some(
            Mount {
                point: replaced(fields[4], "\\040"@, " "@),
                writable: split_on(fields[5], ',').contains("rw"@),
            },
        )
    }
}

/// The length of a text in bytes.
pub open spec fn byte_len(text: Seq<char>) -> nat {
    vstd::utf8::encode_utf8(text).len()
}

/// Whether the mount of a line covers a path.
pub open spec fn covers(line: Seq<char>, path: Seq<char>) -> bool {
    mount_of(line) is Some && lies_under(path, mount_of(line)->0.point)
}

/// Whether a line is that of the deepest mount that covers a path, and the first of
/// these.
pub open spec fn deepest(list: Seq<Seq<char>>, path: Seq<char>, k: int) -> bool {
    &&& 0 <= k < list.len()
    &&& covers(list[k], path)
    &&& forall|j: int|
        0 <= j < list.len() && covers(#[trigger] list[j], path) ==> if j < k {
            byte_len(mount_of(list[j])->0.point) < byte_len(mount_of(list[k])->0.point)
        } else {
            byte_len(mount_of(list[j])->0.point) <= byte_len(mount_of(list[k])->0.point)
        }
}

/// Whether a path lies on a mount that can be written to: the first of the deepest
/// mounts that cover it says. Where no mount covers it, it does.
pub open spec fn on_writable_mount(list: Seq<Seq<char>>, path: Seq<char>) -> bool {
    if exists|k: int| #[trigger] deepest(list, path, k) {
        let k = choose|k: int| #[trigger] deepest(list, path, k);
        mount_of(list[k])->0.writable
    } else {
        true
    }
}

fn read_mount(line: &str) -> (r: Option<(String, bool)>)
    ensures
        match r {
            Some((point, writable)) => mount_of(line@) == Some(Mount { point: point@, writable }),
            None => mount_of(line@) is None,
        },
{
    let fields = split_words(line);
    assert(views(fields@).len() == fields@.len());
    if fields.len() < 6 {
        return None;
    }
    assert(views(fields@)[4] == fields@[4]@ && views(fields@)[5] == fields@[5]@);
    proof {
        reveal_strlit("\\040");
    }
    let point = replace_text(&fields[4], "\\040", " ");
    Some((point, has_text(&split_text(&fields[5], ','), "rw")))
}

/// Whether a path lies on a mount that can be written to, as the table of mounts
/// says. Where the table cannot be read, it does.
pub fn parent_mount_is_rw(mounts: &Option<String>, path: &str) -> (r: bool)
    ensures
        r == match *mounts {
            Some(mounts) => on_writable_mount(lines(mounts@), path@),
            None => true,
        },
{
    let table = match mounts {
        Some(mounts) => split_lines(mounts),
        None => return true,
    };
    let ghost all = views(table@);
    let mut best: Option<(usize, bool)> = None;
    let ghost mut at: int = 0;
    let mut i: usize = 0;
    while i < table.len()
        invariant
            i <= table@.len(),
            all == views(table@),
            match best {
                Some((depth, rw)) => deepest(all.take(i as int), path@, at) && mount_of(all[at])->0.writable == rw
                    && byte_len(mount_of(all[at])->0.point) == depth,
                None => forall|j: int| 0 <= j < i ==> !covers(#[trigger] all[j], path@),
            },
        decreases table@.len() - i,
    {
        let ghost now = all.take(i + 1);
        let ghost had = all.take(i as int);
        assert(all[i as int] == table@[i as int]@);
        assert(forall|j: int| 0 <= j < i ==> #[trigger] now[j] == had[j]);
        let ghost old_at = at;
        let mut taken = false;
        if let Some((point, rw)) = read_mount(&table[i]) {
            if starts_with(path, &point) {
                let depth = point.as_str().as_bytes().len();
                let deeper = match best {
                    Some((old, _)) => depth > old,
                    None => true,
                };
                if deeper {
                    best = Some((depth, rw));
                    taken = true;
                    proof {
                        at = i as int;
                    }
                }
            }
        }
        proof {
            if taken {
                assert(now[i as int] == all[i as int]);
                assert forall|j: int| 0 <= j < now.len() && covers(#[trigger] now[j], path@) implies if j
                    < at {
                    byte_len(mount_of(now[j])->0.point) < byte_len(mount_of(now[at])->0.point)
                } else {
                    byte_len(mount_of(now[j])->0.point) <= byte_len(mount_of(now[at])->0.point)
                } by {
                    if j < i {
                        assert(now[j] == had[j] && had[j] == all[j]);
                        if deepest(had, path@, old_at) {
                            assert(covers(had[j], path@));
                            assert(had[old_at] == all[old_at]);
                        }
                    }
                }
                assert(deepest(now, path@, at));
            } else if best is Some {
                assert(had[at] == all[at]);
                assert forall|j: int| 0 <= j < now.len() && covers(#[trigger] now[j], path@) implies if j
                    < at {
                    byte_len(mount_of(now[j])->0.point) < byte_len(mount_of(now[at])->0.point)
                } else {
                    byte_len(mount_of(now[j])->0.point) <= byte_len(mount_of(now[at])->0.point)
                } by {
                    if j < i {
                        assert(covers(had[j], path@));
                    }
                }
                assert(deepest(now, path@, at));
            }
        }
        i += 1;
    }
    assert(all.take(i as int) =~= all);
    match best {
        Some((_, rw)) => {
            proof {
                let k = choose|k: int| #[trigger] deepest(all, path@, k);
                assert(deepest(all, path@, at) && deepest(all, path@, k));
                assert(covers(all[at], path@) && covers(all[k], path@));
                assert(k == at);
            }
            rw
        },
        None => {
            assert forall|k: int| !#[trigger] deepest(all, path@, k) by {
                if 0 <= k < all.len() {
                    assert(!covers(all[k], path@));
                }
            }
            true
        },
    }
}

/// Whether the directory of a game can be written to: its mode allows it, and it
/// lies on a mount that can be written to.
pub fn is_writable(mode_allows: bool, mounts: &Option<String>, path: &str) -> (r: bool)
    ensures
        r == (mode_allows && match *mounts {
            Some(mounts) => on_writable_mount(lines(mounts@), path@),
            None => true,
        }),
{
    mode_allows && parent_mount_is_rw(mounts, path)
}

/// What was found in a library.
pub struct LibraryFacts {
    pub library: String,
    /// The manifest of the game, where there is one.
    pub manifest: Option<String>,
    /// Whether the executable of the game is there.
    pub executable: bool,
    /// The directory of the game without links, where it could be told.
    pub canonical: Option<String>,
    /// Whether the directory of the expansion is there.
    pub expansion: bool,
    /// Whether the tool for REDmods is there.
    pub redmod: bool,
    /// Whether the mode of the directory allows writing.
    pub mode_allows: bool,
    /// The table of mounts, where it could be read.
    pub mounts: Option<String>,
}

/// Whether a library holds the game.
pub open spec fn holds_game(facts: LibraryFacts) -> bool {
    facts.manifest is Some && facts.executable
}

/// The directory of the game that a library holds.
pub open spec fn found_root(facts: LibraryFacts) -> Seq<char> {
    match facts.canonical {
        Some(root) => root@,
        None => game_place(facts.library@, facts.manifest->0@),
    }
}

/// Whether a game is the one that a library holds.
pub open spec fn is_found_game(game: GameInstall, facts: LibraryFacts) -> bool {
    let manifest = facts.manifest->0@;
    let root = found_root(facts);
    &&& game.id@ == hex_of(sha256_of(vstd::utf8::encode_utf8(root)).take(12))
    &&& game.library@ == facts.library@
    &&& game.root@ == root
    &&& game.manifest@ == manifest_place(facts.library@)
    &&& game.build_id@ == value_or(value_of(manifest, "buildid"@), "unknown"@)
    &&& game.phantom_liberty == (occurs(manifest, "\"2138330\""@) || facts.expansion)
    &&& game.redmod == facts.redmod
    &&& game.writable == (facts.mode_allows && match facts.mounts {
        Some(mounts) => on_writable_mount(lines(mounts@), root),
        None => true,
    })
}

/// The game that a library holds.
pub fn found_game(facts: &LibraryFacts) -> (r: Option<GameInstall>)
    ensures
        r is Some <==> holds_game(*facts),
        r is Some ==> is_found_game(r->0, *facts),
{
    let manifest = match &facts.manifest {
        Some(manifest) => manifest,
        None => return None,
    };
    if !facts.executable {
        return None;
    }
    let root = match &facts.canonical {
        Some(root) => root.clone(),
        None => game_root(&facts.library, manifest),
    };
    Some(
        GameInstall {
            id: short_digest(root.as_str().as_bytes()),
            library: facts.library.clone(),
            manifest: manifest_path(&facts.library),
            build_id: text_or(vdf_value(manifest, "buildid"), "unknown"),
            phantom_liberty: has_piece(manifest, "\"2138330\"") || facts.expansion,
            redmod: facts.redmod,
            writable: is_writable(facts.mode_allows, &facts.mounts, &root),
            root,
        },
    )
}

/// Games in the order of their directories.
pub struct ByRoot;

impl Ranking<GameInstall> for ByRoot {
    open spec fn lt(a: GameInstall, b: GameInstall) -> bool {
        path_lt(a.root@, b.root@)
    }

    proof fn laws() {
        lemma_parts_order();
        let lt = |a: Seq<Part>, b: Seq<Part>| parts_lt(a, b);
        let key = |game: GameInstall| parts(game.root@);
        crate::order::lemma_keyed(lt, key);
        let keyed = |a: GameInstall, b: GameInstall| lt(key(a), key(b));
        let own = |a: GameInstall, b: GameInstall| Self::lt(a, b);
        assert(keyed =~= own);
    }

    fn before(a: &GameInstall, b: &GameInstall) -> (r: bool) {
        path_before(&a.root, &b.root)
    }
}

/// A list of games without those whose directory is that of the game before.
pub open spec fn distinct(games: Seq<GameInstall>) -> Seq<GameInstall>
    decreases games.len(),
{
    if games.len() == 0 {
        games
    } else {
        let front = distinct(games.drop_last());
        if front.len() > 0 && same_place(front.last().root@, games.last().root@) {
            front
        } else {
            front.push(games.last())
        }
    }
}

/// Whether games are those that libraries hold, in the order of the libraries.
pub open spec fn are_found(games: Seq<GameInstall>, facts: Seq<LibraryFacts>) -> bool {
    let holders = facts.filter(|library: LibraryFacts| holds_game(library));
    &&& games.len() == holders.len()
    &&& forall|i: int| 0 <= i < games.len() ==> is_found_game(#[trigger] games[i], holders[i])
}

fn found_games(facts: &Vec<LibraryFacts>) -> (r: Vec<GameInstall>)
    ensures
        are_found(r@, facts@),
{
    let ghost keep = |library: LibraryFacts| holds_game(library);
    let mut r: Vec<GameInstall> = Vec::new();
    let mut i: usize = 0;
    assert(facts@.take(0).filter(keep) =~= Seq::<LibraryFacts>::empty()) by {
        reveal(Seq::filter);
    }
    while i < facts.len()
        invariant
            i <= facts@.len(),
            keep == (|library: LibraryFacts| holds_game(library)),
            r@.len() == facts@.take(i as int).filter(keep).len(),
            forall|j: int|
                0 <= j < r@.len() ==> is_found_game(
                    #[trigger] r@[j],
                    facts@.take(i as int).filter(keep)[j],
                ),
        decreases facts@.len() - i,
    {
        let ghost had = facts@.take(i as int).filter(keep);
        let ghost now = facts@.take(i + 1);
        assert(now.drop_last() =~= facts@.take(i as int));
        assert(now.filter(keep) == if holds_game(facts@[i as int]) {
            had.push(facts@[i as int])
        } else {
            had
        }) by {
            reveal(Seq::filter);
        }
        if let Some(game) = found_game(&facts[i]) {
            r.push(game);
        }
        i += 1;
    }
    assert(facts@.take(i as int) =~= facts@);
    r
}

fn without_repeats(games: Vec<GameInstall>) -> (r: Vec<GameInstall>)
    ensures
        r@ == distinct(games@),
{
    let ghost all = games@;
    let mut r: Vec<GameInstall> = Vec::new();
    for game in it: games
        invariant
            it.seq() == all,
            r@ == distinct(all.take(it.index() as int)),
    {
        assert(all.take(it.index() + 1).drop_last() =~= all.take(it.index() as int));
        let repeats = r.len() > 0 && same_path(&r[r.len() - 1].root, &game.root);
        if !repeats {
            r.push(game);
        }
    }
    assert(all.take(all.len() as int) =~= all);
    r
}

/// Whether the directories of games go up in the order of paths.
pub open spec fn roots_ascend(games: Seq<GameInstall>) -> bool {
    forall|i: int, j: int|
        0 <= i < j < games.len() ==> path_lt((#[trigger] games[i]).root@, (#[trigger] games[j]).root@)
}

proof fn lemma_distinct(games: Seq<GameInstall>)
    requires
        crate::order::in_order::<GameInstall, ByRoot>(games),
    ensures
        roots_ascend(distinct(games)),
        games.len() > 0 ==> distinct(games).len() > 0 && same_place(
            distinct(games).last().root@,
            games.last().root@,
        ),
        forall|i: int| 0 <= i < distinct(games).len() ==> games.contains(#[trigger] distinct(games)[i]),
    decreases games.len(),
{
    if games.len() > 0 {
        lemma_parts_order();
        let order = |a: Seq<Part>, b: Seq<Part>| parts_lt(a, b);
        let front = games.drop_last();
        assert(crate::order::in_order::<GameInstall, ByRoot>(front)) by {
            assert forall|i: int, j: int| 0 <= i < j < front.len() implies !ByRoot::lt(
                #[trigger] front[j],
                #[trigger] front[i],
            ) by {
                assert(front[i] == games[i] && front[j] == games[j]);
            }
        }
        lemma_distinct(front);
        let r = distinct(front);
        let now = distinct(games);
        let last = games.last();
        assert forall|i: int| 0 <= i < now.len() implies games.contains(#[trigger] now[i]) by {
            if i < r.len() {
                assert(front.contains(r[i]));
                let k = choose|k: int| 0 <= k < front.len() && front[k] == r[i];
                assert(games[k] == r[i]);
            } else {
                assert(games[games.len() - 1] == now[i]);
            }
        }
        if now != r {
            assert(now == r.push(last));
            assert forall|i: int, j: int| 0 <= i < j < now.len() implies path_lt(
                (#[trigger] now[i]).root@,
                (#[trigger] now[j]).root@,
            ) by {
                if j == r.len() {
                    let mine = parts(r.last().root@);
                    let other = parts(last.root@);
                    assert(front.last() == games[games.len() - 2]);
                    assert(!ByRoot::lt(games[games.len() - 1], games[games.len() - 2]));
                    assert(!order(other, mine));
                    assert(order(mine, other));
                    if i < r.len() - 1 {
                        assert(path_lt(r[i].root@, r.last().root@));
                        assert(order(parts(r[i].root@), mine));
                    }
                } else {
                    assert(now[i] == r[i] && now[j] == r[j]);
                }
            }
        }
    }
}

/// The games that libraries hold, in the order of their directories and each
/// directory once.
pub fn discover(facts: &Vec<LibraryFacts>) -> (r: Vec<GameInstall>)
    ensures
        exists|found: Seq<GameInstall>| #[trigger]
            are_found(found, facts@) && r@ == distinct(sorted::<GameInstall, ByRoot>(found)),
        roots_ascend(r@),
{
    let found = found_games(facts);
    let ghost all = found@;
    let in_turn = sort::<GameInstall, ByRoot>(found);
    proof {
        lemma_distinct(in_turn@);
        assert(are_found(all, facts@));
    }
    without_repeats(in_turn)
}

proof fn lemma_named(roots: Seq<SteamRoot>, k: int, path: Seq<char>)
    requires
        0 <= k < roots.len(),
        libraries_of(roots[k]).contains(path),
    ensures
        named_libraries(roots).contains(path),
    decreases roots.len(),
{
    let front = roots.drop_last();
    let had = named_libraries(front);
    let all = named_libraries(roots);
    if k < front.len() {
        assert(front[k] == roots[k]);
        lemma_named(front, k, path);
        let n = choose|n: int| 0 <= n < had.len() && had[n] == path;
        assert(all[n] == path);
    } else {
        let list = libraries_of(roots[k]);
        let n = choose|n: int| 0 <= n < list.len() && list[n] == path;
        assert(all[had.len() + n] == path);
    }
}

proof fn lemma_nothing_replaced(text: Seq<char>, from: Seq<char>, to: Seq<char>)
    requires
        !occurs(text, from),
    ensures
        replaced(text, from, to) == text,
    decreases text.len(),
{
    if from.len() > 0 && text.len() >= from.len() {
        if from.is_prefix_of(text) {
            assert(text.subrange(0, from.len() as int) =~= from);
            assert(crate::text::stands_at(text, from, 0));
        }
        let rest = text.drop_first();
        assert(!occurs(rest, from)) by {
            if occurs(rest, from) {
                let at = choose|at: int| crate::text::stands_at(rest, from, at);
                assert(text.subrange(at + 1, at + 1 + from.len()) =~= rest.subrange(
                    at,
                    at + from.len(),
                ));
                assert(crate::text::stands_at(text, from, at + 1));
            }
        }
        lemma_nothing_replaced(rest, from, to);
        assert(seq![text[0]] + rest =~= text);
    }
}

proof fn lemma_value_line(contents: Seq<char>, k: int, key: Seq<char>, value: Seq<char>, gap: Seq<char>)
    requires
        0 <= k < lines(contents).len(),
        lines(contents)[k] == seq!['"'] + escaped(key) + seq!['"'] + gap + seq!['"'] + escaped(value)
            + seq!['"'],
        !gap.contains('"'),
    ensures
        values_of(contents, key).contains(value),
{
    broadcast use crate::order::lemma_same_filter;

    law_quoted_values_come_back(key, value, gap);
    let rows = lines(contents).map_values(|line: Seq<char>| quoted_in(line));
    let keep = |values: Seq<Seq<char>>| is_for_key(values, key);
    let kept = rows.filter(keep);
    assert(rows[k] == seq![key, value]);
    rows.lemma_filter_contains(keep, k);
    let n = choose|n: int| 0 <= n < kept.len() && kept[n] == rows[k];
    assert(values_of(contents, key)[n] == value);
}

/// The game is looked for in every library: in each installation of Steam itself, and in
/// each directory that the list of its libraries has a line for. Such a line has the word
/// `path` and the directory between quotation marks.
pub proof fn law_all_libraries_are_searched(
    set: Seq<Seq<char>>,
    roots: Seq<SteamRoot>,
    i: int,
    k: int,
    directory: Seq<char>,
    gap: Seq<char>,
)
    requires
        is_path_set(set, named_libraries(roots)),
        0 <= i < roots.len(),
    ensures
        has_place(set, roots[i].path@),
        roots[i].folders is Some && 0 <= k < lines(roots[i].folders->0@).len() && lines(
            roots[i].folders->0@,
        )[k] == seq!['"'] + escaped("path"@) + seq!['"'] + gap + seq!['"'] + escaped(directory)
            + seq!['"'] && !gap.contains('"') && !occurs(directory, "\\\\"@) ==> has_place(
            set,
            directory,
        ),
{
    let list = named_libraries(roots);
    let own = libraries_of(roots[i]);
    assert(own[0] == roots[i].path@);
    lemma_named(roots, i, roots[i].path@);
    let a = choose|a: int| 0 <= a < list.len() && list[a] == roots[i].path@;
    assert(has_place(set, list[a]));
    if roots[i].folders is Some && 0 <= k < lines(roots[i].folders->0@).len() && lines(
        roots[i].folders->0@,
    )[k] == seq!['"'] + escaped("path"@) + seq!['"'] + gap + seq!['"'] + escaped(directory)
        + seq!['"'] && !gap.contains('"') && !occurs(directory, "\\\\"@) {
        let contents = roots[i].folders->0@;
        lemma_value_line(contents, k, "path"@, directory, gap);
        lemma_nothing_replaced(directory, "\\\\"@, "\\"@);
        let values = values_of(contents, "path"@);
        let n = choose|n: int| 0 <= n < values.len() && values[n] == directory;
        assert(own[1 + n] == directory);
        lemma_named(roots, i, directory);
        let b = choose|b: int| 0 <= b < list.len() && list[b] == directory;
        assert(has_place(set, list[b]));
    }
}

/// The deepest mount that covers a directory decides whether it can be written to, and no
/// other; without one nothing stands against it. A mount can be written to where `rw` is
/// among its options.
pub proof fn law_deepest_mount_decides(list: Seq<Seq<char>>, path: Seq<char>, k: int)
    ensures
        0 <= k < list.len() && covers(list[k], path) && (forall|j: int|
            0 <= j < list.len() && j != k && covers(#[trigger] list[j], path) ==> byte_len(
                mount_of(list[j])->0.point,
            ) < byte_len(mount_of(list[k])->0.point)) ==> on_writable_mount(list, path) == split_on(
            words(list[k])[5],
            ',',
        ).contains("rw"@),
        (forall|j: int| 0 <= j < list.len() ==> !covers(#[trigger] list[j], path))
            ==> on_writable_mount(list, path),
        0 <= k < list.len() && covers(list[k], path) ==> words(list[k]).len() >= 6 && lies_under(
            path,
            replaced(words(list[k])[4], "\\040"@, " "@),
        ),
{
    if 0 <= k < list.len() && covers(list[k], path) && (forall|j: int|
        0 <= j < list.len() && j != k && covers(#[trigger] list[j], path) ==> byte_len(
            mount_of(list[j])->0.point,
        ) < byte_len(mount_of(list[k])->0.point)) {
        assert(deepest(list, path, k));
        let d = choose|d: int| #[trigger] deepest(list, path, d);
        assert(deepest(list, path, d));
        assert(covers(list[d], path) && covers(list[k], path));
        assert(d == k);
    }
    if forall|j: int| 0 <= j < list.len() ==> !covers(#[trigger] list[j], path) {
        assert forall|d: int| !#[trigger] deepest(list, path, d) by {}
    }
}

/// A game is found where a library has both its manifest and its executable. It is known
/// by that library and by its directory; its build is the one that the manifest names; it
/// has the expansion where the manifest names that or its directory is there, and REDmod
/// where its tool is there. It can be written to only where its directory allows it.
pub proof fn law_found_games_are_what_is_there(game: GameInstall, facts: LibraryFacts, build: Seq<char>)
    requires
        is_found_game(game, facts),
    ensures
        holds_game(facts) <==> facts.manifest is Some && facts.executable,
        game.library@ == facts.library@,
        facts.canonical is Some ==> game.root@ == facts.canonical->0@,
        facts.canonical is None ==> lies_under(
            game.root@,
            join_path(facts.library@, "steamapps/common"@),
        ) || absolute(value_or(value_of(facts.manifest->0@, "installdir"@), "Cyberpunk 2077"@)),
        game.manifest@ == join_path(
            join_path(facts.library@, "steamapps"@),
            "appmanifest_1091500.acf"@,
        ),
        value_of(facts.manifest->0@, "buildid"@) == Some(build) ==> game.build_id@ == build,
        facts.expansion ==> game.phantom_liberty,
        occurs(facts.manifest->0@, "\"2138330\""@) ==> game.phantom_liberty,
        game.phantom_liberty && !facts.expansion ==> occurs(facts.manifest->0@, "\"2138330\""@),
        game.redmod == facts.redmod,
        !facts.mode_allows ==> !game.writable,
        facts.mode_allows && facts.mounts is None ==> game.writable,
        facts.mounts is Some && !on_writable_mount(lines(facts.mounts->0@), game.root@)
            ==> !game.writable,
        facts.mode_allows && facts.mounts is Some && on_writable_mount(
            lines(facts.mounts->0@),
            game.root@,
        ) ==> game.writable,
{
    reveal_strlit("appmanifest_");
    reveal_strlit(".acf");
    reveal_strlit("appmanifest_1091500.acf");
    reveal_strlit("steamapps/common");
    reveal_with_fuel(decimal, 8);
    let n = decimal(1091500);
    assert(n =~= seq!['1', '0', '9', '1', '5', '0', '0']) by {
        assert(decimal(1) == seq!['1']);
        assert(decimal(10) =~= seq!['1', '0']);
        assert(decimal(109) =~= seq!['1', '0', '9']);
        assert(decimal(1091) =~= seq!['1', '0', '9', '1']);
        assert(decimal(10915) =~= seq!['1', '0', '9', '1', '5']);
        assert(decimal(109150) =~= seq!['1', '0', '9', '1', '5', '0']);
    }
    assert("appmanifest_"@ + n + ".acf"@ =~= "appmanifest_1091500.acf"@);
    if facts.canonical is None {
        let common = join_path(facts.library@, "steamapps/common"@);
        let name = value_or(value_of(facts.manifest->0@, "installdir"@), "Cyberpunk 2077"@);
        if !absolute(name) {
            crate::path::lemma_join_parts(common, name);
            assert(parts(common) =~= parts(game.root@).subrange(0, parts(common).len() as int));
        }
    }
}

proof fn lemma_none_lost(games: Seq<GameInstall>, k: int)
    requires
        crate::order::in_order::<GameInstall, ByRoot>(games),
        0 <= k < games.len(),
    ensures
        exists|i: int|
            0 <= i < distinct(games).len() && same_place(
                (#[trigger] distinct(games)[i]).root@,
                games[k].root@,
            ),
    decreases games.len(),
{
    lemma_distinct(games);
    let all = distinct(games);
    if k == games.len() - 1 {
        assert(same_place(all[all.len() - 1].root@, games[k].root@));
    } else {
        let front = games.drop_last();
        assert(crate::order::in_order::<GameInstall, ByRoot>(front)) by {
            assert forall|i: int, j: int| 0 <= i < j < front.len() implies !ByRoot::lt(
                #[trigger] front[j],
                #[trigger] front[i],
            ) by {
                assert(front[i] == games[i] && front[j] == games[j]);
            }
        }
        lemma_none_lost(front, k);
        let i = choose|i: int|
            0 <= i < distinct(front).len() && same_place(
                (#[trigger] distinct(front)[i]).root@,
                front[k].root@,
            );
        assert(all[i] == distinct(front)[i]);
    }
}

/// No game is missed and none is made up: for each library that holds the game there is
/// one in the list with its directory, and each game of the list is that of a library that
/// holds it. No directory is listed twice.
pub proof fn law_every_game_is_listed(found: Seq<GameInstall>, facts: Seq<LibraryFacts>, k: int)
    requires
        are_found(found, facts),
        0 <= k < facts.len(),
        facts[k].manifest is Some && facts[k].executable,
    ensures
        ({
            let listed = distinct(sorted::<GameInstall, ByRoot>(found));
            &&& exists|i: int|
                0 <= i < listed.len() && same_place(
                    (#[trigger] listed[i]).root@,
                    match facts[k].canonical {
                        Some(root) => root@,
                        None => game_place(facts[k].library@, facts[k].manifest->0@),
                    },
                )
            &&& forall|i: int|
                0 <= i < listed.len() ==> found.contains(#[trigger] listed[i])
            &&& forall|i: int, j: int|
                0 <= i < j < listed.len() ==> path_lt(
                    (#[trigger] listed[i]).root@,
                    (#[trigger] listed[j]).root@,
                )
        }),
{
    broadcast use {crate::order::lemma_same_filter, vstd::seq_lib::group_to_multiset_ensures};

    let keep = |library: LibraryFacts| holds_game(library);
    let holders = facts.filter(keep);
    facts.lemma_filter_contains(keep, k);
    let n = choose|n: int| 0 <= n < holders.len() && holders[n] == facts[k];
    assert(is_found_game(found[n], holders[n]));
    let up = sorted::<GameInstall, ByRoot>(found);
    crate::order::lemma_sorted::<GameInstall, ByRoot>(found);
    assert(found.to_multiset().count(found[n]) > 0);
    assert(up.contains(found[n]));
    let m = choose|m: int| 0 <= m < up.len() && up[m] == found[n];
    lemma_none_lost(up, m);
    lemma_distinct(up);
    let listed = distinct(up);
    assert forall|i: int| 0 <= i < listed.len() implies found.contains(#[trigger] listed[i]) by {
        assert(up.contains(listed[i]));
        assert(up.to_multiset().count(listed[i]) > 0);
    }
}

/// Steam is looked for where it is installed by itself, behind its own link, and as a
/// Flatpak.
pub proof fn law_steam_is_looked_for_everywhere(home: Seq<char>)
    ensures
        root_candidates(home).contains(join_path(home, ".local/share/Steam"@)),
        root_candidates(home).contains(join_path(home, ".steam/steam"@)),
        root_candidates(home).contains(
            join_path(home, ".var/app/com.valvesoftware.Steam/data/Steam"@),
        ),
        root_candidates(home).len() == 3,
{
    let all = root_candidates(home);
    assert(all[0] == join_path(home, ".local/share/Steam"@));
    assert(all[1] == join_path(home, ".steam/steam"@));
    assert(all[2] == join_path(home, ".var/app/com.valvesoftware.Steam/data/Steam"@));
}

/// Of the places where Steam may be, those that are there are taken, and no others.
pub proof fn law_present_places_are_taken(places: Seq<Seq<char>>, there: Seq<bool>, path: Seq<char>)
    requires
        there.len() == places.len(),
    ensures
        chosen(places, there).contains(path) <==> exists|i: int|
            0 <= i < places.len() && #[trigger] places[i] == path && there[i],
    decreases places.len(),
{
    if places.len() > 0 {
        let front = places.drop_last();
        let n = places.len() - 1;
        lemma_flags(front, there, there.drop_last());
        law_present_places_are_taken(front, there.drop_last(), path);
        let had = chosen(front, there);
        let all = chosen(places, there);
        if all.contains(path) {
            let k = choose|k: int| 0 <= k < all.len() && all[k] == path;
            if k < had.len() {
                assert(had[k] == path);
                let i = choose|i: int|
                    0 <= i < front.len() && #[trigger] front[i] == path && there.drop_last()[i];
                assert(places[i] == path && there[i]);
            } else {
                assert(places[n] == path && there[n]);
            }
        }
        if exists|i: int| 0 <= i < places.len() && #[trigger] places[i] == path && there[i] {
            let i = choose|i: int| 0 <= i < places.len() && #[trigger] places[i] == path && there[i];
            if i < n {
                assert(front[i] == path && there.drop_last()[i]);
                let k = choose|k: int| 0 <= k < had.len() && had[k] == path;
                assert(all[k] == path);
            } else {
                assert(all[had.len() as int] == path);
            }
        }
    }
}

proof fn lemma_flags(places: Seq<Seq<char>>, a: Seq<bool>, b: Seq<bool>)
    requires
        places.len() <= a.len(),
        places.len() <= b.len(),
        forall|i: int| 0 <= i < places.len() ==> a[i] == b[i],
    ensures
        chosen(places, a) == chosen(places, b),
    decreases places.len(),
{
    if places.len() > 0 {
        lemma_flags(places.drop_last(), a, b);
    }
}

/// A line with a key and a value between quotation marks gives the key that value.
pub proof fn law_lines_give_their_values(
    contents: Seq<char>,
    k: int,
    key: Seq<char>,
    value: Seq<char>,
    gap: Seq<char>,
)
    requires
        0 <= k < lines(contents).len(),
        lines(contents)[k] == seq!['"'] + escaped(key) + seq!['"'] + gap + seq!['"'] + escaped(value)
            + seq!['"'],
        !gap.contains('"'),
    ensures
        values_of(contents, key).contains(value),
        value_of(contents, key) is Some,
        value_of(contents, key)->0 == values_of(contents, key)[0],
{
    lemma_value_line(contents, k, key, value, gap);
}

/// The directory of the game is the one that its manifest names, below those of the
/// library, or the usual one where it names none.
pub proof fn law_manifests_name_the_directory(library: Seq<char>, manifest: Seq<char>, name: Seq<char>)
    ensures
        value_of(manifest, "installdir"@) == Some(name) ==> game_place(library, manifest)
            == join_path(join_path(library, "steamapps/common"@), name),
        value_of(manifest, "installdir"@) is None ==> game_place(library, manifest) == join_path(
            join_path(library, "steamapps/common"@),
            "Cyberpunk 2077"@,
        ),
{
}

} // verus!
