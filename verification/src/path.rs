//! Paths as text: their parts, their order and what is built from them.
use vstd::prelude::*;

use crate::order::{lex_lt, strict_total, text_before, text_lt, Ranking};
use crate::text::{
    before_char, chars_of, lemma_before_char, lemma_before_char_is, same_text, split_on, split_text,
    text_between, views,
};

verus! {

/// One part of a path.
pub enum Part {
    Root,
    Current,
    Parent,
    Name(Seq<char>),
}

/// The part that a piece between two separators stands for.
pub open spec fn part_of(piece: Seq<char>) -> Part {
    if piece == seq!['.'] {
        Part::Current
    } else if piece == seq!['.', '.'] {
        Part::Parent
    } else {
        Part::Name(piece)
    }
}

/// Whether a piece between two separators counts: it is neither empty nor a
/// lone dot.
pub open spec fn counts(piece: Seq<char>) -> bool {
    piece.len() > 0 && piece != seq!['.']
}

/// Whether a path begins at the root.
pub open spec fn absolute(path: Seq<char>) -> bool {
    path.len() > 0 && path[0] == '/'
}

/// What stands before the pieces that count: the root, or the dot that a
/// relative path begins with.
pub open spec fn lead(path: Seq<char>) -> Seq<Part> {
    if absolute(path) {
        seq![Part::Root]
    } else if split_on(path, '/')[0] == seq!['.'] {
        seq![Part::Current]
    } else {
        Seq::empty()
    }
}

/// The parts of a path. Repeated separators, a separator at the end, and a dot
/// anywhere but at the beginning make no part.
pub open spec fn parts(path: Seq<char>) -> Seq<Part> {
    lead(path) + inner_parts(path)
}

/// The parts of a path behind its lead.
pub open spec fn inner_parts(path: Seq<char>) -> Seq<Part> {
    split_on(path, '/').filter(|piece: Seq<char>| counts(piece)).map_values(
        |piece: Seq<char>| part_of(piece),
    )
}

/// One part of a path.
pub enum PathPart {
    Root,
    Current,
    Parent,
    Name(String),
}

impl View for PathPart {
    type V = Part;

    open spec fn view(&self) -> Part {
        match self {
            PathPart::Root => Part::Root,
            PathPart::Current => Part::Current,
            PathPart::Parent => Part::Parent,
            PathPart::Name(name) => Part::Name(name@),
        }
    }
}

/// A list of parts, as the mathematical parts.
pub open spec fn part_views(list: Seq<PathPart>) -> Seq<Part> {
    list.map_values(|part: PathPart| part@)
}

fn is_dot(piece: &str) -> (r: bool)
    ensures
        r == (piece@ == seq!['.']),
{
    proof {
        reveal_strlit(".");
    }
    assert("."@ =~= seq!['.']);
    same_text(piece, ".")
}

/// The parts of a path.
pub fn components(path: &str) -> (found: Vec<PathPart>)
    ensures
        part_views(found@) == parts(path@),
{
    let pieces = split_text(path, '/');
    let ghost all = split_on(path@, '/');
    let ghost keep = |piece: Seq<char>| counts(piece);
    let ghost turn = |piece: Seq<char>| part_of(piece);
    let mut found: Vec<PathPart> = Vec::new();
    assert(all.len() >= 1);
    assert(all[0] == pieces@[0]@);
    if is_absolute(path) {
        found.push(PathPart::Root);
    } else if is_dot(&pieces[0]) {
        found.push(PathPart::Current);
    }
    assert(part_views(found@) =~= lead(path@));
    assert(all.take(0).filter(keep).map_values(turn) =~= Seq::<Part>::empty()) by {
        reveal(Seq::filter);
    }
    assert(part_views(found@) + Seq::<Part>::empty() =~= part_views(found@));
    let mut i: usize = 0;
    while i < pieces.len()
        invariant
            i <= pieces@.len(),
            views(pieces@) == all,
            keep == (|piece: Seq<char>| counts(piece)),
            turn == (|piece: Seq<char>| part_of(piece)),
            part_views(found@) == lead(path@) + all.take(i as int).filter(keep).map_values(turn),
        decreases pieces@.len() - i,
    {
        let piece = &pieces[i];
        let ghost had = part_views(found@);
        let ghost now = all.take(i + 1);
        assert(all[i as int] == piece@);
        assert(now.drop_last() =~= all.take(i as int));
        assert(now.filter(keep) == if counts(piece@) {
            all.take(i as int).filter(keep).push(piece@)
        } else {
            all.take(i as int).filter(keep)
        }) by {
            reveal(Seq::filter);
        }
        proof {
            reveal_strlit("..");
        }
        assert(".."@ =~= seq!['.', '.']);
        if !piece.as_str().is_empty() && !is_dot(piece) {
            if same_text(piece, "..") {
                found.push(PathPart::Parent);
            } else {
                found.push(PathPart::Name(piece.clone()));
            }
            assert(part_views(found@) =~= had.push(part_of(piece@)));
            assert(now.filter(keep).map_values(turn) =~= all.take(i as int).filter(keep).map_values(
                turn,
            ).push(part_of(piece@)));
            assert(had.push(part_of(piece@)) =~= lead(path@) + now.filter(keep).map_values(turn));
        }
        i += 1;
    }
    assert(all.take(i as int) =~= all);
    found
}

/// Whether a path begins at the root.
pub fn is_absolute(path: &str) -> (r: bool)
    ensures
        r == absolute(path@),
{
    let chars = chars_of(path);
    chars.len() > 0 && chars[0] == '/'
}

/// The path that `more` names as seen from `base`.
pub open spec fn join_path(base: Seq<char>, more: Seq<char>) -> Seq<char> {
    if absolute(more) || base.len() == 0 {
        more
    } else if base.last() == '/' {
        base + more
    } else {
        base + seq!['/'] + more
    }
}

/// The path that `more` names as seen from `base`.
pub fn join(base: &str, more: &str) -> (r: String)
    ensures
        r@ == join_path(base@, more@),
{
    let chars = chars_of(base);
    if is_absolute(more) || chars.len() == 0 {
        return more.to_owned();
    }
    let mut r = base.to_owned();
    if chars[chars.len() - 1] != '/' {
        r.push('/');
        assert(r@ =~= base@ + seq!['/']);
    }
    r.append(more);
    r
}

proof fn lemma_split_joined(a: Seq<char>, b: Seq<char>)
    ensures
        split_on(a + seq!['/'] + b, '/') == split_on(a, '/') + split_on(b, '/'),
    decreases a.len(),
{
    let whole = a + seq!['/'] + b;
    let n = before_char(a, '/');
    lemma_before_char(a, '/');
    if n >= a.len() {
        lemma_before_char_is(whole, '/', a.len());
        assert(whole.take(a.len() as int) =~= a);
        assert(whole.skip(a.len() as int + 1) =~= b);
        assert(split_on(a, '/') =~= seq![a]);
    } else {
        let rest = a.skip(n as int + 1);
        lemma_before_char_is(whole, '/', n);
        lemma_split_joined(rest, b);
        assert(whole.take(n as int) =~= a.take(n as int));
        assert(whole.skip(n as int + 1) =~= rest + seq!['/'] + b);
        assert(seq![a.take(n as int)] + (split_on(rest, '/') + split_on(b, '/')) =~= (seq![
            a.take(n as int),
        ] + split_on(rest, '/')) + split_on(b, '/'));
    }
}

proof fn lemma_split_nonempty(text: Seq<char>)
    ensures
        split_on(text, '/').len() > 0,
{
}

/// Joining puts the parts of a relative path behind those of the base, without
/// the dot it may begin with.
pub proof fn lemma_join_parts(base: Seq<char>, more: Seq<char>)
    requires
        base.len() > 0,
        !absolute(more),
    ensures
        parts(join_path(base, more)) == parts(base) + inner_parts(more),
{
    let keep = |piece: Seq<char>| counts(piece);
    let turn = |piece: Seq<char>| part_of(piece);
    let whole = join_path(base, more);
    let tail = split_on(more, '/');
    if base.last() == '/' {
        let front = base.drop_last();
        let none = Seq::<char>::empty();
        lemma_split_joined(front, more);
        lemma_split_joined(front, none);
        assert(front + seq!['/'] + more =~= whole);
        assert(front + seq!['/'] + none =~= base);
        assert(split_on(none, '/') =~= seq![none]);
        let head = split_on(front, '/');
        lemma_split_nonempty(front);
        Seq::filter_distributes_over_add(head, tail, keep);
        Seq::filter_distributes_over_add(head, seq![none], keep);
        assert(seq![none].filter(keep) =~= Seq::<Seq<char>>::empty()) by {
            reveal(Seq::filter);
            assert(seq![none].drop_last() =~= Seq::<Seq<char>>::empty());
            assert(Seq::<Seq<char>>::empty().filter(keep) =~= Seq::<Seq<char>>::empty());
        }
        assert(head.filter(keep) + Seq::<Seq<char>>::empty() =~= head.filter(keep));
        assert(split_on(whole, '/')[0] == head[0]);
        assert(split_on(base, '/')[0] == head[0]);
        assert(whole[0] == base[0]);
        assert((head.filter(keep) + tail.filter(keep)).map_values(turn) =~= head.filter(
            keep,
        ).map_values(turn) + tail.filter(keep).map_values(turn));
        assert(parts(whole) =~= parts(base) + inner_parts(more));
    } else {
        let head = split_on(base, '/');
        lemma_split_joined(base, more);
        lemma_split_nonempty(base);
        Seq::filter_distributes_over_add(head, tail, keep);
        assert(split_on(whole, '/')[0] == head[0]);
        assert(whole[0] == base[0]);
        assert((head.filter(keep) + tail.filter(keep)).map_values(turn) =~= head.filter(
            keep,
        ).map_values(turn) + tail.filter(keep).map_values(turn));
        assert(parts(whole) =~= parts(base) + inner_parts(more));
    }
}

/// Whether `path` lies at or below `base`, part by part.
pub open spec fn lies_under(path: Seq<char>, base: Seq<char>) -> bool {
    parts(base).is_prefix_of(parts(path))
}

/// Whether two paths have the same parts.
pub open spec fn same_place(a: Seq<char>, b: Seq<char>) -> bool {
    parts(a) == parts(b)
}

fn same_part(a: &PathPart, b: &PathPart) -> (r: bool)
    ensures
        r == (a@ == b@),
{
    match (a, b) {
        (PathPart::Root, PathPart::Root) => true,
        (PathPart::Current, PathPart::Current) => true,
        (PathPart::Parent, PathPart::Parent) => true,
        (PathPart::Name(x), PathPart::Name(y)) => *x == *y,
        _ => false,
    }
}

fn leading_parts(whole: &Vec<PathPart>, front: &Vec<PathPart>) -> (r: bool)
    ensures
        r == part_views(front@).is_prefix_of(part_views(whole@)),
{
    if whole.len() < front.len() {
        return false;
    }
    let mut i: usize = 0;
    while i < front.len()
        invariant
            i <= front@.len() <= whole@.len(),
            forall|j: int| 0 <= j < i ==> front@[j]@ == whole@[j]@,
        decreases front@.len() - i,
    {
        if !same_part(&front[i], &whole[i]) {
            assert(part_views(front@)[i as int] != part_views(whole@).subrange(
                0,
                front@.len() as int,
            )[i as int]);
            return false;
        }
        i += 1;
    }
    assert(part_views(front@) =~= part_views(whole@).subrange(0, front@.len() as int));
    true
}

/// Whether `path` lies at or below `base`, part by part.
pub fn starts_with(path: &str, base: &str) -> (r: bool)
    ensures
        r == lies_under(path@, base@),
{
    leading_parts(&components(path), &components(base))
}

/// Whether two lists hold the same parts.
pub fn same_parts(x: &Vec<PathPart>, y: &Vec<PathPart>) -> (r: bool)
    ensures
        r == (part_views(x@) == part_views(y@)),
{
    let r = x.len() == y.len() && leading_parts(x, y);
    assert(part_views(x@).len() == x@.len() && part_views(y@).len() == y@.len());
    proof {
        if x@.len() == y@.len() {
            assert(part_views(x@).subrange(0, y@.len() as int) =~= part_views(x@));
        }
    }
    r
}

/// Whether two paths have the same parts.
pub fn same_path(a: &str, b: &str) -> (r: bool)
    ensures
        r == same_place(a@, b@),
{
    same_parts(&components(a), &components(b))
}

/// The last part of a path, where that is a name.
pub open spec fn last_name(path: Seq<char>) -> Option<Seq<char>> {
    let all = parts(path);
    if all.len() == 0 {
        None
    } else {
        match all.last() {
            Part::Name(name) => Some(name),
            _ => None,
        }
    }
}

/// A text or its absence, with the text as a sequence of characters.
pub open spec fn option_view(text: Option<String>) -> Option<Seq<char>> {
    match text {
        Some(t) => Some(t@),
        None => None,
    }
}

/// The last part of a path, where that is a name.
pub fn file_name(path: &str) -> (r: Option<String>)
    ensures
        option_view(r) == last_name(path@),
{
    let mut all = components(path);
    let ghost views = part_views(all@);
    match all.pop() {
        None => None,
        Some(part) => {
            assert(views.last() == part@);
            match part {
                PathPart::Name(name) => Some(name),
                _ => None,
            }
        },
    }
}

/// Whether the first `n` characters of a path lead to the place above it.
pub open spec fn leads_above(path: Seq<char>, n: int) -> bool {
    0 <= n <= path.len() && parts(path.take(n)) == parts(path).drop_last()
}

/// Whether the first `n` characters of a path, and no fewer, lead to the place above
/// it.
pub open spec fn just_above(path: Seq<char>, n: int) -> bool {
    leads_above(path, n) && forall|m: int| 0 <= m < n ==> !#[trigger] leads_above(path, m)
}

/// Whether there is a place above that of a path.
pub open spec fn has_parent(path: Seq<char>) -> bool {
    parts(path).len() > 0 && parts(path).last() != Part::Root
}

/// The path to the place above: as much of the path as leads there, and no more.
pub open spec fn parent_path(path: Seq<char>) -> Option<Seq<char>> {
    if has_parent(path) {
        let n = choose|n: int| #[trigger] just_above(path, n);
        Some(path.take(n))
    } else {
        None
    }
}

proof fn lemma_just_above(path: Seq<char>, n: int)
    requires
        has_parent(path),
        just_above(path, n),
    ensures
        parent_path(path) == Some(path.take(n)),
{
    let k = choose|k: int| #[trigger] just_above(path, k);
    assert(just_above(path, k));
    if k < n {
        assert(!leads_above(path, k));
    }
    if n < k {
        assert(!leads_above(path, n));
    }
}

/// Where the last separator of a path stands; `-1` where it has none.
pub open spec fn last_slash(path: Seq<char>) -> int
    decreases path.len(),
{
    if path.len() == 0 {
        -1
    } else if path.last() == '/' {
        path.len() - 1
    } else {
        last_slash(path.drop_last())
    }
}

proof fn lemma_last_slash(path: Seq<char>)
    ensures
        -1 <= last_slash(path) < path.len(),
        last_slash(path) >= 0 ==> path[last_slash(path)] == '/',
        forall|i: int| last_slash(path) < i < path.len() ==> path[i] != '/',
    decreases path.len(),
{
    if path.len() > 0 && path.last() != '/' {
        let front = path.drop_last();
        lemma_last_slash(front);
        assert forall|i: int| last_slash(path) < i < path.len() implies path[i] != '/' by {
            if i < front.len() {
                assert(path[i] == front[i]);
            }
        }
    }
}

/// A text without a slash is one piece.
pub proof fn lemma_one_piece(text: Seq<char>)
    requires
        forall|i: int| 0 <= i < text.len() ==> text[i] != '/',
    ensures
        split_on(text, '/') == seq![text],
{
    lemma_before_char_is(text, '/', text.len());
}

proof fn lemma_filter_one(piece: Seq<char>)
    ensures
        seq![piece].filter(|piece: Seq<char>| counts(piece)) == if counts(piece) {
            seq![piece]
        } else {
            Seq::empty()
        },
{
    let keep = |piece: Seq<char>| counts(piece);
    reveal(Seq::filter);
    assert(seq![piece].drop_last() =~= Seq::<Seq<char>>::empty());
    assert(Seq::<Seq<char>>::empty().filter(keep) =~= Seq::<Seq<char>>::empty());
    assert(Seq::<Seq<char>>::empty().push(piece) =~= seq![piece]);
}

/// Whether a text is a single name of a path.
pub open spec fn is_name(text: Seq<char>) -> bool {
    text.len() > 0 && !text.contains('/')
}

/// What is joined to a path that does not end in a separator stands behind one.
pub proof fn lemma_below(base: Seq<char>, name: Seq<char>)
    requires
        base.len() > 0,
        base.last() != '/',
        name.len() > 0,
        name[0] != '/',
    ensures
        join_path(base, name) == base + seq!['/'] + name,
        join_path(base, name).last() == name.last(),
{
}

/// Below one directory, what lies below different names is different.
pub proof fn lemma_same_name(base: Seq<char>, a: Seq<char>, x: Seq<char>, b: Seq<char>, y: Seq<char>)
    requires
        is_name(a),
        is_name(b),
        base + seq!['/'] + a + seq!['/'] + x == base + seq!['/'] + b + seq!['/'] + y,
    ensures
        a == b,
{
    let left = base + seq!['/'] + a + seq!['/'] + x;
    let right = base + seq!['/'] + b + seq!['/'] + y;
    let n = base.len() as int + 1;
    if a.len() < b.len() {
        assert(left[n + a.len()] == '/');
        assert(right[n + a.len()] == b[a.len() as int]);
        assert(b.contains('/'));
    }
    if b.len() < a.len() {
        assert(right[n + b.len()] == '/');
        assert(left[n + b.len()] == a[b.len() as int]);
        assert(a.contains('/'));
    }
    assert forall|i: int| 0 <= i < a.len() implies a[i] == b[i] by {
        assert(left[n + i] == a[i]);
        assert(right[n + i] == b[i]);
    }
    assert(a =~= b);
}

/// A name that is joined to a path is its last name.
pub proof fn lemma_joined_name(base: Seq<char>, name: Seq<char>)
    requires
        base.len() > 0,
        counts(name),
        name != seq!['.', '.'],
        forall|i: int| 0 <= i < name.len() ==> name[i] != '/',
    ensures
        parts(join_path(base, name)) == parts(base).push(Part::Name(name)),
        last_name(join_path(base, name)) == Some(name),
{
    lemma_join_parts(base, name);
    lemma_one_piece(name);
    lemma_filter_one(name);
    assert(inner_parts(name) =~= seq![Part::Name(name)]);
    assert(parts(base) + seq![Part::Name(name)] =~= parts(base).push(Part::Name(name)));
}

proof fn lemma_parts_behind(a: Seq<char>, b: Seq<char>)
    requires
        forall|i: int| 0 <= i < b.len() ==> b[i] != '/',
    ensures
        parts(a + seq!['/'] + b) == parts(a + seq!['/']) + if counts(b) {
            seq![part_of(b)]
        } else {
            Seq::empty()
        },
        a.len() > 0 ==> parts(a + seq!['/']) == parts(a),
{
    let keep = |piece: Seq<char>| counts(piece);
    let turn = |piece: Seq<char>| part_of(piece);
    let none = Seq::<char>::empty();
    let base = a + seq!['/'];
    let whole = a + seq!['/'] + b;
    let head = split_on(a, '/');
    lemma_split_joined(a, b);
    lemma_split_joined(a, none);
    assert(a + seq!['/'] + none =~= base);
    lemma_one_piece(b);
    lemma_one_piece(none);
    lemma_split_nonempty(a);
    Seq::filter_distributes_over_add(head, seq![b], keep);
    Seq::filter_distributes_over_add(head, seq![none], keep);
    lemma_filter_one(b);
    lemma_filter_one(none);
    let front = head.filter(keep);
    assert(front + Seq::<Seq<char>>::empty() =~= front);
    assert(split_on(whole, '/')[0] == head[0]);
    assert(split_on(base, '/')[0] == head[0]);
    assert(whole[0] == base[0]);
    assert(lead(whole) == lead(base));
    if counts(b) {
        assert((front + seq![b]).map_values(turn) =~= front.map_values(turn) + seq![part_of(b)]);
        assert(parts(whole) =~= parts(base) + seq![part_of(b)]);
    } else {
        assert(parts(whole) =~= parts(base) + Seq::<Part>::empty());
    }
    if a.len() > 0 {
        assert(base[0] == a[0]);
        assert(lead(base) == lead(a));
        assert(parts(base) =~= parts(a));
    }
}

proof fn lemma_parent_found(path: Seq<char>) -> (n: int)
    requires
        has_parent(path),
    ensures
        leads_above(path, n),
    decreases path.len(),
{
    let none = Seq::<char>::empty();
    let m = last_slash(path);
    lemma_last_slash(path);
    lemma_one_piece(none);
    lemma_filter_one(none);
    if m < 0 {
        lemma_one_piece(path);
        lemma_filter_one(path);
        assert(path.take(0) =~= none);
        assert(parts(none) =~= Seq::<Part>::empty());
        if counts(path) {
            assert(seq![path].map_values(|piece: Seq<char>| part_of(piece)) =~= seq![part_of(path)]);
            assert(parts(path) =~= seq![part_of(path)]);
        } else {
            assert(parts(path) =~= lead(path));
        }
        assert(parts(path).drop_last() =~= Seq::<Part>::empty());
        0
    } else {
        let a = path.take(m);
        let b = path.skip(m + 1);
        assert(path =~= a + seq!['/'] + b);
        assert(path.take(m + 1) =~= a + seq!['/']);
        assert forall|i: int| 0 <= i < b.len() implies b[i] != '/' by {
            assert(b[i] == path[m + 1 + i]);
        }
        lemma_parts_behind(a, b);
        if counts(b) {
            assert(parts(path).drop_last() =~= parts(a + seq!['/']));
            m + 1
        } else if m == 0 {
            lemma_parts_behind(none, none);
            assert(a =~= none);
            assert(a + seq!['/'] =~= seq!['/']);
            lemma_split_joined(none, none);
            assert(none + seq!['/'] + none =~= seq!['/']);
            Seq::filter_distributes_over_add(
                seq![none],
                seq![none],
                |piece: Seq<char>| counts(piece),
            );
            assert(inner_parts(seq!['/']) =~= Seq::<Part>::empty());
            assert(parts(path) =~= seq![Part::Root]);
            0
        } else {
            assert(parts(path) =~= parts(a));
            let n = lemma_parent_found(a);
            assert(a.take(n) =~= path.take(n));
            n
        }
    }
}

/// The path to the place above that of a path. `None` where there is none: for the
/// root and for the empty path.
pub fn parent(path: &str) -> (r: Option<String>)
    ensures
        option_view(r) == parent_path(path@),
        r is Some <==> has_parent(path@),
        r is Some ==> parts(r->0@) == parts(path@).drop_last(),
{
    let mut above = components(path);
    let ghost all = part_views(above@);
    match above.pop() {
        None => return None,
        Some(last) => {
            assert(all.last() == last@);
            if let PathPart::Root = last {
                return None;
            }
        },
    }
    assert(part_views(above@) =~= all.drop_last());
    let chars = chars_of(path);
    let total: usize = chars.len();
    let mut n: usize = 0;
    loop
        invariant
            n <= chars@.len(),
            total == chars@.len(),
            chars@ == path@,
            has_parent(path@),
            part_views(above@) == parts(path@).drop_last(),
            forall|m: int| 0 <= m < n ==> !#[trigger] leads_above(path@, m),
        decreases chars@.len() - n,
    {
        let front = text_between(&chars, 0, n);
        assert(front@ =~= path@.take(n as int));
        if same_parts(&components(&front), &above) {
            assert(leads_above(path@, n as int));
            proof {
                lemma_just_above(path@, n as int);
            }
            return Some(front);
        }
        assert(!leads_above(path@, n as int));
        proof {
            let k = lemma_parent_found(path@);
            assert(leads_above(path@, k));
            assert(n < k <= chars@.len());
        }
        n += 1;
    }
}

proof fn lemma_least_above(path: Seq<char>, n: int) -> (k: int)
    requires
        leads_above(path, n),
    ensures
        just_above(path, k),
    decreases n,
{
    if forall|m: int| 0 <= m < n ==> !#[trigger] leads_above(path, m) {
        n
    } else {
        let m = choose|m: int| 0 <= m < n && #[trigger] leads_above(path, m);
        lemma_least_above(path, m)
    }
}

proof fn lemma_pieces_are_plain(text: Seq<char>, k: int)
    requires
        0 <= k < split_on(text, '/').len(),
    ensures
        !split_on(text, '/')[k].contains('/'),
    decreases text.len(),
{
    let n = before_char(text, '/');
    lemma_before_char(text, '/');
    if n >= text.len() {
        assert(!text.contains('/'));
    } else if k == 0 {
        assert(!text.take(n as int).contains('/'));
    } else {
        lemma_pieces_are_plain(text.skip(n as int + 1), k - 1);
    }
}

/// A path is the place above it and its last name, joined.
pub proof fn law_parent_and_name_make_the_path(path: Seq<char>)
    requires
        has_parent(path),
        last_name(path) is Some,
    ensures
        parent_path(path) is Some,
        parts(parent_path(path)->0) == parts(path).drop_last(),
        same_place(join_path(parent_path(path)->0, last_name(path)->0), path),
{
    let n = lemma_parent_found(path);
    let k = lemma_least_above(path, n);
    lemma_just_above(path, k);
    let above = path.take(k);
    let name = last_name(path)->0;
    let keep = |piece: Seq<char>| counts(piece);
    let all = split_on(path, '/');
    let inner = inner_parts(path);
    assert(parts(path).last() == Part::Name(name));
    if inner.len() == 0 {
        assert(parts(path) =~= lead(path));
    }
    assert(inner.last() == Part::Name(name));
    let at = crate::order::lemma_filtered(all, keep, inner.len() - 1);
    assert(part_of(all[at]) == Part::Name(name));
    assert(all[at] == name);
    lemma_pieces_are_plain(path, at);
    assert forall|i: int| 0 <= i < name.len() implies name[i] != '/' by {
        assert(name.contains(name[i]));
    }
    if above.len() > 0 {
        lemma_joined_name(above, name);
    } else {
        assert(join_path(above, name) == name);
        lemma_one_piece(name);
        lemma_filter_one(name);
        assert(inner_parts(name) =~= seq![Part::Name(name)]);
        let none = Seq::<char>::empty();
        assert(above =~= none);
        lemma_one_piece(none);
        lemma_filter_one(none);
        assert(parts(none) =~= Seq::<Part>::empty());
        assert(parts(name) =~= seq![Part::Name(name)]);
    }
    assert(parts(path).drop_last().push(Part::Name(name)) =~= parts(path));
    assert(seq![Part::Name(name)] =~= Seq::<Part>::empty().push(Part::Name(name)));
}

/// Where the last dot of a name stands; `-1` where it has none.
pub open spec fn last_dot(name: Seq<char>) -> int
    decreases name.len(),
{
    if name.len() == 0 {
        -1
    } else if name.last() == '.' {
        name.len() - 1
    } else {
        last_dot(name.drop_last())
    }
}

/// What stands behind the last dot of a name that has one after its first
/// character.
pub open spec fn name_extension(name: Seq<char>) -> Option<Seq<char>> {
    if last_dot(name) > 0 {
        Some(name.skip(last_dot(name) + 1))
    } else {
        None
    }
}

/// A name without its extension.
pub open spec fn name_stem(name: Seq<char>) -> Seq<char> {
    if last_dot(name) > 0 {
        name.take(last_dot(name))
    } else {
        name
    }
}

/// The extension of the file that a path names.
pub open spec fn path_extension(path: Seq<char>) -> Option<Seq<char>> {
    match last_name(path) {
        Some(name) => name_extension(name),
        None => None,
    }
}

/// The name of the file that a path names, without its extension.
pub open spec fn path_stem(path: Seq<char>) -> Option<Seq<char>> {
    match last_name(path) {
        Some(name) => Some(name_stem(name)),
        None => None,
    }
}

fn find_last_dot(name: &Vec<char>) -> (at: usize)
    ensures
        at <= name@.len(),
        last_dot(name@) == at - 1,
{
    let mut at: usize = name.len();
    assert(name@.take(at as int) =~= name@);
    while at > 0 && name[at - 1] != '.'
        invariant
            at <= name@.len(),
            last_dot(name@) == last_dot(name@.take(at as int)),
        decreases at,
    {
        assert(name@.take(at as int).drop_last() =~= name@.take(at - 1));
        at -= 1;
    }
    at
}

/// The extension of the file that a path names.
pub fn extension(path: &str) -> (r: Option<String>)
    ensures
        option_view(r) == path_extension(path@),
{
    match file_name(path) {
        None => None,
        Some(name) => {
            let chars = chars_of(&name);
            let at = find_last_dot(&chars);
            if at > 1 {
                assert(chars@.skip(at as int) =~= chars@.subrange(at as int, chars@.len() as int));
                Some(text_between(&chars, at, chars.len()))
            } else {
                None
            }
        },
    }
}

/// The name of the file that a path names, without its extension.
pub fn file_stem(path: &str) -> (r: Option<String>)
    ensures
        option_view(r) == path_stem(path@),
{
    match file_name(path) {
        None => None,
        Some(name) => {
            let chars = chars_of(&name);
            let at = find_last_dot(&chars);
            if at > 1 {
                assert(chars@.take(at - 1) =~= chars@.subrange(0, at - 1));
                Some(text_between(&chars, 0, at - 1))
            } else {
                Some(name)
            }
        },
    }
}

/// The place of the kinds of parts in the order of paths.
pub open spec fn part_rank(part: Part) -> int {
    match part {
        Part::Root => 0,
        Part::Current => 1,
        Part::Parent => 2,
        Part::Name(_) => 3,
    }
}

/// The order of parts: the root, the dot, the double dot, then names as texts.
pub open spec fn part_lt(a: Part, b: Part) -> bool {
    match (a, b) {
        (Part::Name(x), Part::Name(y)) => text_lt(x, y),
        _ => part_rank(a) < part_rank(b),
    }
}

/// The order of lists of parts.
pub open spec fn parts_lt(a: Seq<Part>, b: Seq<Part>) -> bool {
    lex_lt(a, b, |x: Part, y: Part| part_lt(x, y))
}

/// The order of paths, part by part.
pub open spec fn path_lt(a: Seq<char>, b: Seq<char>) -> bool {
    parts_lt(parts(a), parts(b))
}

/// The order of parts is strict and total.
pub proof fn lemma_part_order()
    ensures
        strict_total(|a: Part, b: Part| part_lt(a, b)),
{
    crate::order::lemma_text_order();
    let lt = |a: Seq<char>, b: Seq<char>| text_lt(a, b);
    assert forall|a: Part| !(#[trigger] part_lt(a, a)) by {
        if let Part::Name(x) = a {
            assert(!lt(x, x));
        }
    }
    assert forall|a: Part, b: Part, c: Part| #[trigger] part_lt(a, b) && #[trigger] part_lt(b, c)
        implies part_lt(a, c) by {
        if let Part::Name(x) = a {
            if let Part::Name(y) = b {
                if let Part::Name(z) = c {
                    assert(lt(x, y) && lt(y, z));
                }
            }
        }
    }
    assert forall|a: Part, b: Part| a != b implies #[trigger] part_lt(a, b) || part_lt(b, a) by {
        if let Part::Name(x) = a {
            if let Part::Name(y) = b {
                assert(lt(x, y) || lt(y, x));
            }
        }
    }
}

/// The order of lists of parts is strict and total.
pub proof fn lemma_parts_order()
    ensures
        strict_total(|a: Seq<Part>, b: Seq<Part>| parts_lt(a, b)),
{
    lemma_part_order();
    let part = |a: Part, b: Part| part_lt(a, b);
    crate::order::lemma_lex(part);
    let lex = |a: Seq<Part>, b: Seq<Part>| lex_lt(a, b, part);
    let own = |a: Seq<Part>, b: Seq<Part>| parts_lt(a, b);
    assert(lex =~= own);
}

fn part_before(a: &PathPart, b: &PathPart) -> (r: bool)
    ensures
        r == part_lt(a@, b@),
{
    match (a, b) {
        (PathPart::Name(x), PathPart::Name(y)) => text_before(x, y),
        _ => {
            let left: u8 = rank_of(a);
            let right: u8 = rank_of(b);
            left < right
        },
    }
}

fn rank_of(part: &PathPart) -> (r: u8)
    ensures
        r == part_rank(part@),
{
    match part {
        PathPart::Root => 0,
        PathPart::Current => 1,
        PathPart::Parent => 2,
        PathPart::Name(_) => 3,
    }
}

/// Whether a list of parts goes before another.
pub fn parts_before(left: &Vec<PathPart>, right: &Vec<PathPart>) -> (r: bool)
    ensures
        r == parts_lt(part_views(left@), part_views(right@)),
{
    let ghost x = part_views(left@);
    let ghost y = part_views(right@);
    let ghost lt = |x: Part, y: Part| part_lt(x, y);
    let mut i: usize = 0;
    assert(x.skip(0) =~= x && y.skip(0) =~= y);
    while i < left.len() && i < right.len()
        invariant
            i <= left@.len(),
            i <= right@.len(),
            part_views(left@) == x,
            part_views(right@) == y,
            lt == (|x: Part, y: Part| part_lt(x, y)),
            lex_lt(x, y, lt) == lex_lt(x.skip(i as int), y.skip(i as int), lt),
        decreases left@.len() - i,
    {
        assert(x[i as int] == left@[i as int]@ && y[i as int] == right@[i as int]@);
        assert(x.skip(i as int)[0] == x[i as int] && y.skip(i as int)[0] == y[i as int]);
        if !same_part(&left[i], &right[i]) {
            return part_before(&left[i], &right[i]);
        }
        assert(x.skip(i as int).drop_first() =~= x.skip(i + 1));
        assert(y.skip(i as int).drop_first() =~= y.skip(i + 1));
        i += 1;
    }
    i < right.len()
}

/// Whether a path goes before another.
pub fn path_before(a: &str, b: &str) -> (r: bool)
    ensures
        r == path_lt(a@, b@),
{
    parts_before(&components(a), &components(b))
}

/// Path texts in the order of paths.
pub struct ByPath;

impl Ranking<String> for ByPath {
    open spec fn lt(a: String, b: String) -> bool {
        path_lt(a@, b@)
    }

    proof fn laws() {
        lemma_parts_order();
        let lt = |a: Seq<Part>, b: Seq<Part>| parts_lt(a, b);
        let key = |t: String| parts(t@);
        crate::order::lemma_keyed(lt, key);
        let keyed = |a: String, b: String| lt(key(a), key(b));
        let own = |a: String, b: String| Self::lt(a, b);
        assert(keyed =~= own);
    }

    fn before(a: &String, b: &String) -> (r: bool) {
        path_before(a, b)
    }
}

proof fn lemma_last_dot(name: Seq<char>)
    ensures
        -1 <= last_dot(name) < name.len(),
        last_dot(name) >= 0 ==> name[last_dot(name)] == '.',
        forall|i: int| last_dot(name) < i < name.len() ==> name[i] != '.',
    decreases name.len(),
{
    if name.len() > 0 && name.last() != '.' {
        let front = name.drop_last();
        lemma_last_dot(front);
        assert forall|i: int| last_dot(name) < i < name.len() implies name[i] != '.' by {
            if i < front.len() {
                assert(front[i] == name[i]);
            }
        }
    }
}

/// A name with an extension is its stem, a dot and the extension, in which there is no
/// further dot. A name that begins with its only dot, or has none, is all stem.
pub proof fn law_stem_and_extension_make_the_name(name: Seq<char>)
    ensures
        match name_extension(name) {
            Some(extension) => {
                &&& name == name_stem(name) + seq!['.'] + extension
                &&& name_stem(name).len() > 0
                &&& !extension.contains('.')
            },
            None => name_stem(name) == name && forall|i: int|
                1 <= i < name.len() ==> #[trigger] name[i] != '.',
        },
{
    lemma_last_dot(name);
    let n = last_dot(name);
    if n > 0 {
        assert(name =~= name.take(n) + seq!['.'] + name.skip(n + 1));
        let extension = name.skip(n + 1);
        if extension.contains('.') {
            let i = choose|i: int| 0 <= i < extension.len() && extension[i] == '.';
            assert(name[n + 1 + i] == '.');
        }
    }
}

/// What is joined to a directory lies below it, by the parts of both, where it does not
/// begin at the root; where it does, it is itself.
pub proof fn law_joined_paths_lie_below(base: Seq<char>, more: Seq<char>)
    requires
        base.len() > 0,
    ensures
        !absolute(more) ==> parts(join_path(base, more)) == parts(base) + inner_parts(more)
            && lies_under(join_path(base, more), base),
        absolute(more) ==> join_path(base, more) == more,
{
    if !absolute(more) {
        lemma_join_parts(base, more);
        assert(parts(base) =~= parts(join_path(base, more)).subrange(0, parts(base).len() as int));
    }
}

} // verus!
