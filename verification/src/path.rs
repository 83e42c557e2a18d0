//! Unix paths as text: components, joining, parents, names and extensions.

use vstd::prelude::*;
use vstd::string::*;
use crate::text::{
    after_last, cat2, cat3, lemma_after_last, lemma_split_concat, lemma_split_whole, same, slice,
    split, split_on, texts, to_chars,
};

verus! {

/// Whether a path starts at the root.
pub open spec fn is_absolute(s: Seq<char>) -> bool {
    s.len() > 0 && s[0] == '/'
}

/// The text of the current directory's component.
pub open spec fn dot() -> Seq<char> {
    seq!['.']
}

/// The text of the parent directory's component.
pub open spec fn dot_dot() -> Seq<char> {
    seq!['.', '.']
}

/// Whether a piece between slashes is a component wherever it stands.
pub open spec fn is_component(piece: Seq<char>) -> bool {
    piece.len() > 0 && piece != dot()
}

/// Whether a path starts with a component of its own for the current directory.
pub open spec fn leads_with_dot(s: Seq<char>) -> bool {
    s.len() > 0 && s[0] == '.' && (s.len() == 1 || s[1] == '/')
}

/// The components of a path below its root: the pieces between slashes,
/// without empty ones and without `.` but at the very start.
pub open spec fn components(s: Seq<char>) -> Seq<Seq<char>> {
    let rest = split(s, '/').filter(|p: Seq<char>| is_component(p));
    if leads_with_dot(s) {
        seq![dot()] + rest
    } else {
        rest
    }
}

/// Whether the components of `base`, its root among them, begin those of `s`. Every path
/// begins with the empty path.
pub open spec fn is_under(s: Seq<char>, base: Seq<char>) -> bool {
    ||| !is_absolute(base) && components(base).len() == 0
    ||| is_absolute(s) == is_absolute(base) && components(base).is_prefix_of(components(s))
}

/// How many directories deep a list of components leads; below zero where it leads out of the
/// directory that it starts in.
pub open spec fn level(c: Seq<Seq<char>>) -> int
    decreases c.len(),
{
    if c.len() == 0 {
        0
    } else {
        let n = level(c.drop_last());
        if c.last() == dot_dot() {
            n - 1
        } else if c.last() == dot() {
            n
        } else {
            n + 1
        }
    }
}

/// Whether a list of components never leads out of the directory that it starts in.
pub open spec fn stays_within(c: Seq<Seq<char>>) -> bool {
    forall|k: int| 0 <= k <= c.len() ==> level(#[trigger] c.take(k)) >= 0
}

/// Whether a path lies in the directory `base`: its components begin with those of `base`,
/// and the others never lead out of it.
pub open spec fn is_inside(s: Seq<char>, base: Seq<char>) -> bool {
    is_under(s, base) && stays_within(components(s).skip(components(base).len() as int))
}

/// `b` seen from `a`: `b` itself where it is absolute, else `b` behind `a`.
pub open spec fn joined(a: Seq<char>, b: Seq<char>) -> Seq<char> {
    if is_absolute(b) {
        b
    } else if a.len() > 0 && a.last() != '/' {
        a + seq!['/'] + b
    } else {
        a + b
    }
}

/// The last component, where it names a file or directory.
pub open spec fn name_of(s: Seq<char>) -> Option<Seq<char>> {
    let c = components(s);
    if c.len() > 0 && c.last() != dot() && c.last() != dot_dot() {
        Some(c.last())
    } else {
        None
    }
}

/// The text behind the last dot of a file name, where text stands before that dot.
pub open spec fn extension_of(s: Seq<char>) -> Option<Seq<char>> {
    match name_of(s) {
        Some(n) => {
            let e = after_last(n, '.');
            if n.contains('.') && e.len() + 1 < n.len() {
                Some(e)
            } else {
                None
            }
        },
        None => None,
    }
}

/// How many characters stand before the part of a path that holds its
/// components: the root's slash or a leading dot.
pub open spec fn lead(s: Seq<char>) -> int {
    if is_absolute(s) || leads_with_dot(s) {
        1
    } else {
        0
    }
}

/// The last piece behind the lead, without its slash.
pub open spec fn last_piece(s: Seq<char>, base: int) -> Seq<char> {
    after_last(s.skip(base), '/')
}

/// The path without its last piece and the slash before that piece.
pub open spec fn cut_piece(s: Seq<char>, base: int) -> Seq<char> {
    let n = s.len() - last_piece(s, base).len();
    if n > base {
        s.take(n - 1)
    } else {
        s.take(base)
    }
}

/// The path without the pieces at its end that are no components.
pub open spec fn trim_tail(s: Seq<char>, base: int) -> Seq<char>
    decreases s.len(),
    when 0 <= base
    via trim_tail_shrinks
{
    if s.len() <= base || is_component(last_piece(s, base)) {
        s
    } else {
        trim_tail(cut_piece(s, base), base)
    }
}

#[via_fn]
proof fn trim_tail_shrinks(s: Seq<char>, base: int) {
    if s.len() > base {
        lemma_cut_shorter(s, base);
    }
}

/// A cut takes at least one character.
proof fn lemma_cut_shorter(s: Seq<char>, base: int)
    requires
        0 <= base < s.len(),
    ensures
        last_piece(s, base).len() <= s.len() - base,
        base <= cut_piece(s, base).len() < s.len(),
{
    lemma_after_last_len(s.skip(base), '/');
}

proof fn lemma_after_last_len(s: Seq<char>, c: char)
    ensures
        after_last(s, c).len() <= s.len(),
        after_last(s, c).len() == s.len() <==> !s.contains(c),
    decreases s.len(),
{
    if s.len() > 0 {
        lemma_after_last_len(s.drop_last(), c);
        if s.last() == c {
            assert(s.contains(s.last()));
        } else {
            assert(s.contains(c) ==> s.drop_last().contains(c)) by {
                if s.contains(c) {
                    let i = choose|i: int| 0 <= i < s.len() && s[i] == c;
                    assert(s.drop_last()[i] == c);
                }
            }
            assert(s.drop_last().contains(c) ==> s.contains(c)) by {
                if s.drop_last().contains(c) {
                    let i = choose|i: int| 0 <= i < s.drop_last().len() && s.drop_last()[i] == c;
                    assert(s[i] == c);
                }
            }
        }
    }
}

/// The path without its last component, where it has one.
pub open spec fn parent_of(s: Seq<char>) -> Option<Seq<char>> {
    let base = lead(s);
    let t = trim_tail(s, base);
    if t.len() > base {
        Some(trim_tail(cut_piece(t, base), base))
    } else if leads_with_dot(s) {
        Some(Seq::empty())
    } else {
        None
    }
}

// ---------------------------------------------------------------------------
// Executable forms
// ---------------------------------------------------------------------------

fn starts_at_root(s: &str) -> (r: bool)
    ensures
        r == is_absolute(s@),
{
    s.unicode_len() > 0 && s.get_char(0) == '/'
}

fn has_leading_dot(s: &str) -> (r: bool)
    ensures
        r == leads_with_dot(s@),
{
    let n = s.unicode_len();
    n > 0 && s.get_char(0) == '.' && (n == 1 || s.get_char(1) == '/')
}

fn piece_counts(p: &str) -> (r: bool)
    ensures
        r == is_component(p@),
{
    proof {
        reveal_strlit(".");
        assert("."@ =~= dot());
    }
    p.unicode_len() > 0 && !same(p, ".")
}

/// The components of a path below its root.
pub fn components_of(s: &str) -> (r: Vec<String>)
    ensures
        texts(r@) == components(s@),
{
    let parts = split_on(s, '/');
    let ghost all = split(s@, '/');
    let ghost keep = |p: Seq<char>| is_component(p);
    let mut out: Vec<String> = Vec::new();
    let ghost head = if leads_with_dot(s@) {
        seq![dot()]
    } else {
        Seq::empty()
    };
    if has_leading_dot(s) {
        proof {
            reveal_strlit(".");
            assert("."@ =~= dot());
        }
        out.push(".".to_string());
    }
    proof {
        assert(texts(out@) =~= head);
        reveal(Seq::filter);
        assert(all.take(0).filter(keep) =~= Seq::empty());
        assert(head + all.take(0).filter(keep) =~= head);
    }
    let mut i: usize = 0;
    while i < parts.len()
        invariant
            i <= parts.len(),
            texts(parts@) == all,
            keep == (|p: Seq<char>| is_component(p)),
            texts(out@) == head + all.take(i as int).filter(keep),
        decreases parts.len() - i,
    {
        let ghost was = texts(out@);
        proof {
            assert(all.take(i + 1) =~= all.take(i as int).push(all[i as int]));
            all.take(i as int).lemma_filter_push(all[i as int], keep);
            assert(all[i as int] == parts@[i as int]@);
        }
        if piece_counts(parts[i].as_str()) {
            out.push(parts[i].clone());
            assert(texts(out@) =~= was.push(all[i as int]));
            assert(texts(out@) =~= head + all.take(i + 1).filter(keep));
        }
        i += 1;
    }
    assert(all.take(i as int) =~= all);
    assert(head + all.filter(keep) =~= components(s@));
    out
}

/// Whether the components of `base`, its root among them, begin those of `s`.
pub fn under(s: &str, base: &str) -> (r: bool)
    ensures
        r == is_under(s@, base@),
{
    let a = components_of(s);
    let b = components_of(base);
    let ghost ca = components(s@);
    let ghost cb = components(base@);
    assert(cb.len() == b@.len());
    if !starts_at_root(base) && b.len() == 0 {
        return true;
    }
    if starts_at_root(s) != starts_at_root(base) || b.len() > a.len() {
        return false;
    }
    let mut i: usize = 0;
    while i < b.len()
        invariant
            i <= b.len() <= a.len(),
            texts(a@) == ca,
            texts(b@) == cb,
            ca == components(s@),
            cb == components(base@),
            forall|j: int| 0 <= j < i ==> ca[j] == cb[j],
        decreases b.len() - i,
    {
        proof {
            assert(ca[i as int] == a@[i as int]@);
            assert(cb[i as int] == b@[i as int]@);
        }
        if !same(a[i].as_str(), b[i].as_str()) {
            proof {
                assert(ca.subrange(0, cb.len() as int)[i as int] != cb[i as int]);
            }
            return false;
        }
        i += 1;
    }
    assert(cb =~= ca.subrange(0, cb.len() as int));
    true
}

/// Whether a path lies in the directory `base`.
pub fn inside(s: &str, base: &str) -> (r: bool)
    ensures
        r == is_inside(s@, base@),
{
    if !under(s, base) {
        return false;
    }
    let a = components_of(s);
    let b = components_of(base);
    let ghost ca = components(s@);
    let ghost n = components(base@).len() as int;
    let ghost rest = ca.skip(n);
    proof {
        reveal_strlit(".");
        reveal_strlit("..");
        assert("."@ =~= dot());
        assert(".."@ =~= dot_dot());
        assert(ca.len() == a@.len());
        assert(n == b@.len());
        assert(rest.take(0) =~= Seq::empty());
    }
    let mut depth: usize = 0;
    let mut i: usize = b.len();
    while i < a.len()
        invariant
            n <= i <= a@.len(),
            texts(a@) == ca,
            ca.len() == a@.len(),
            rest == ca.skip(n),
            0 <= n <= ca.len(),
            ca == components(s@),
            n == components(base@).len(),
            is_under(s@, base@),
            "."@ == dot(),
            ".."@ == dot_dot(),
            depth <= i - n,
            depth == level(rest.take(i - n)),
            forall|k: int| 0 <= k <= i - n ==> level(#[trigger] rest.take(k)) >= 0,
        decreases a.len() - i,
    {
        proof {
            assert(ca[i as int] == a@[i as int]@);
            assert(rest.take(i - n + 1).drop_last() =~= rest.take(i - n));
            assert(rest.take(i - n + 1).last() == ca[i as int]);
        }
        if same(a[i].as_str(), "..") {
            if depth == 0 {
                assert(level(rest.take(i - n + 1)) < 0);
                return false;
            }
            depth -= 1;
        } else if !same(a[i].as_str(), ".") {
            depth += 1;
        }
        i += 1;
    }
    true
}

/// `b` seen from `a`.
pub fn join(a: &str, b: &str) -> (r: String)
    ensures
        r@ == joined(a@, b@),
{
    if starts_at_root(b) {
        return b.to_string();
    }
    let n = a.unicode_len();
    if n > 0 && a.get_char(n - 1) != '/' {
        proof {
            reveal_strlit("/");
            assert("/"@ =~= seq!['/']);
        }
        cat3(a, "/", b)
    } else {
        cat2(a, b)
    }
}

/// The last component, where it names a file or directory.
pub fn file_name(s: &str) -> (r: Option<String>)
    ensures
        match r {
            Some(n) => name_of(s@) == Some(n@),
            None => name_of(s@) is None,
        },
{
    let c = components_of(s);
    let n = c.len();
    if n == 0 {
        return None;
    }
    proof {
        reveal_strlit(".");
        reveal_strlit("..");
        assert("."@ =~= dot());
        assert(".."@ =~= dot_dot());
        assert(components(s@).last() == c@[n - 1]@);
    }
    if same(c[n - 1].as_str(), ".") || same(c[n - 1].as_str(), "..") {
        None
    } else {
        Some(c[n - 1].clone())
    }
}

/// The extension of the file that a path names.
pub fn extension(s: &str) -> (r: Option<String>)
    ensures
        match r {
            Some(e) => extension_of(s@) == Some(e@),
            None => extension_of(s@) is None,
        },
{
    let name = match file_name(s) {
        Some(n) => n,
        None => {
            return None;
        },
    };
    let e = crate::text::after_last_char(name.as_str(), '.');
    proof {
        lemma_after_last_len(name@, '.');
    }
    let n = name.as_str().unicode_len();
    let m = e.as_str().unicode_len();
    if m < n && m + 1 < n {
        Some(e)
    } else {
        None
    }
}

/// The position from which the characters of `cs`, up to `n`, hold no slash.
fn piece_start(cs: &Vec<char>, base: usize, n: usize) -> (r: usize)
    requires
        base <= n <= cs@.len(),
    ensures
        base <= r <= n,
        last_piece(cs@.take(n as int), base as int) == cs@.subrange(r as int, n as int),
        last_piece(cs@.take(n as int), base as int).len() == n - r,
{
    let mut i: usize = n;
    while i > base && cs[i - 1] != '/'
        invariant
            base <= i <= n <= cs@.len(),
            forall|j: int| i <= j < n ==> cs@[j] != '/',
        decreases i,
    {
        i -= 1;
    }
    proof {
        let body = cs@.take(n as int).skip(base as int);
        lemma_after_last(body, '/', i - base);
        assert(body.skip(i - base) =~= cs@.subrange(i as int, n as int));
    }
    i
}

/// The length that a cut leaves.
fn cut_len(base: usize, start: usize) -> (r: usize)
    requires
        base <= start,
    ensures
        r == if start > base { start - 1 } else { base as int },
{
    if start > base {
        start - 1
    } else {
        base
    }
}

fn tail_len(cs: &Vec<char>, base: usize, from: usize) -> (r: usize)
    requires
        base <= from <= cs@.len(),
    ensures
        base <= r <= from,
        trim_tail(cs@.take(from as int), base as int) == cs@.take(r as int),
{
    let mut n: usize = from;
    while n > base
        invariant_except_break
            trim_tail(cs@.take(from as int), base as int) == trim_tail(
                cs@.take(n as int),
                base as int,
            ),
        invariant
            base <= n <= from <= cs@.len(),
        ensures
            trim_tail(cs@.take(from as int), base as int) == cs@.take(n as int),
        decreases n,
    {
        let start = piece_start(cs, base, n);
        let ghost here = cs@.take(n as int);
        let ghost piece = last_piece(here, base as int);
        let trivial = start == n || (n - start == 1 && cs[start] == '.');
        proof {
            assert(piece == cs@.subrange(start as int, n as int));
            if trivial {
                if n - start == 1 {
                    assert(piece =~= dot());
                }
            } else {
                if n - start == 1 {
                    assert(piece[0] == cs@[start as int]);
                }
                assert(is_component(piece));
            }
        }
        if !trivial {
            break;
        }
        let m = cut_len(base, start);
        proof {
            assert(cut_piece(here, base as int) =~= cs@.take(m as int));
            lemma_cut_shorter(here, base as int);
        }
        n = m;
    }
    n
}

/// The path without its last component, where it has one.
pub fn parent(s: &str) -> (r: Option<String>)
    ensures
        match r {
            Some(p) => parent_of(s@) == Some(p@),
            None => parent_of(s@) is None,
        },
{
    let cs = to_chars(s);
    let base: usize = if starts_at_root(s) || has_leading_dot(s) {
        1
    } else {
        0
    };
    assert(cs@.take(cs@.len() as int) =~= s@);
    let n = tail_len(&cs, base, cs.len());
    if n > base {
        let start = piece_start(&cs, base, n);
        let m = cut_len(base, start);
        proof {
            assert(cut_piece(cs@.take(n as int), base as int) =~= cs@.take(m as int));
        }
        let k = tail_len(&cs, base, m);
        assert(s@.take(k as int) =~= s@.subrange(0, k as int));
        Some(slice(s, 0, k))
    } else if has_leading_dot(s) {
        Some(String::new())
    } else {
        None
    }
}

// ---------------------------------------------------------------------------
// Laws
// ---------------------------------------------------------------------------

/// A relative path joined to a directory stays beneath that directory,
/// component by component.
pub proof fn law_join_stays_under(a: Seq<char>, b: Seq<char>)
    requires
        !is_absolute(b),
    ensures
        is_under(joined(a, b), a),
{
    if a.len() > 0 {
        lemma_join_under(a, b);
    } else {
        assert(a =~= Seq::empty());
        lemma_empty_components();
    }
}

proof fn lemma_empty_components()
    ensures
        components(Seq::empty()) == Seq::<Seq<char>>::empty(),
{
    let a = Seq::<char>::empty();
    let keep = |p: Seq<char>| is_component(p);
    let nil = Seq::<Seq<char>>::empty();
    reveal(Seq::filter);
    nil.lemma_filter_push(Seq::empty(), keep);
    assert(split(a, '/') =~= nil.push(Seq::empty()));
    assert(nil.filter(keep) =~= nil);
    assert(components(a) =~= nil);
}

proof fn lemma_join_under(a: Seq<char>, b: Seq<char>)
    requires
        a.len() > 0,
        !is_absolute(b),
    ensures
        is_under(joined(a, b), a),
        components(joined(a, b)) == components(a) + split(b, '/').filter(
            |p: Seq<char>| is_component(p),
        ),
{
    let j = joined(a, b);
    let keep = |p: Seq<char>| is_component(p);
    let sa = split(a, '/');
    let sb = split(b, '/');
    if a.last() != '/' {
        assert(j =~= a.push('/') + b);
        lemma_split_concat(a, b, '/');
        Seq::filter_distributes_over_add(sa, sb, keep);
    } else {
        let front = a.drop_last();
        assert(j =~= front.push('/') + b);
        lemma_split_concat(front, b, '/');
        assert(a =~= front.push('/') + Seq::<char>::empty());
        lemma_split_concat(front, Seq::empty(), '/');
        let sf = split(front, '/');
        Seq::filter_distributes_over_add(sf, sb, keep);
        Seq::filter_distributes_over_add(sf, split(Seq::<char>::empty(), '/'), keep);
        let none = split(Seq::<char>::empty(), '/');
        let nil = Seq::<Seq<char>>::empty();
        reveal(Seq::filter);
        assert(nil.filter(keep) =~= nil);
        nil.lemma_filter_push(Seq::empty(), keep);
        assert(none =~= nil.push(Seq::empty()));
        assert(none.filter(keep) =~= nil);
        assert(sa.filter(keep) =~= sf.filter(keep));
    }
    let head = if leads_with_dot(a) {
        seq![dot()]
    } else {
        Seq::empty()
    };
    assert(leads_with_dot(j) == leads_with_dot(a));
    assert(components(a) =~= head + sa.filter(keep));
    assert(components(j) =~= head + (sa.filter(keep) + sb.filter(keep)));
    assert(components(a) =~= components(j).subrange(0, components(a).len() as int));
    assert(components(j) =~= components(a) + sb.filter(keep));
}

/// A relative path joined to a directory lies in it exactly where it never leads out of the
/// directory that it starts in.
pub proof fn law_join_inside(a: Seq<char>, b: Seq<char>)
    requires
        !is_absolute(b),
    ensures
        is_inside(joined(a, b), a) <==> stays_within(components(b)),
{
    law_join_stays_under(a, b);
    let rest = components(joined(a, b)).skip(components(a).len() as int);
    if a.len() > 0 {
        lemma_join_under(a, b);
        let keep = |p: Seq<char>| is_component(p);
        let tail = split(b, '/').filter(keep);
        assert(rest =~= tail);
        if leads_with_dot(b) {
            assert(components(b) =~= seq![dot()] + tail);
            lemma_leading_dot(tail);
        } else {
            assert(components(b) =~= tail);
        }
    } else {
        lemma_empty_components();
        assert(a =~= Seq::empty());
        assert(joined(a, b) =~= b);
        assert(rest =~= components(b));
    }
}

proof fn lemma_level_leading_dot(c: Seq<Seq<char>>)
    ensures
        level(seq![dot()] + c) == level(c),
    decreases c.len(),
{
    let d = seq![dot()] + c;
    if c.len() == 0 {
        assert(dot().len() != dot_dot().len());
        assert(d.drop_last() =~= Seq::empty());
        assert(d.last() == dot());
        assert(level(d.drop_last()) == 0);
    } else {
        lemma_level_leading_dot(c.drop_last());
        assert(d.drop_last() =~= seq![dot()] + c.drop_last());
        assert(d.last() == c.last());
    }
}

proof fn lemma_leading_dot(c: Seq<Seq<char>>)
    ensures
        stays_within(seq![dot()] + c) <==> stays_within(c),
{
    let d = seq![dot()] + c;
    assert forall|k: int| 0 <= k <= c.len() implies level(d.take(k + 1)) == level(
        #[trigger] c.take(k),
    ) by {
        lemma_level_leading_dot(c.take(k));
        assert(d.take(k + 1) =~= seq![dot()] + c.take(k));
    }
    if stays_within(c) {
        assert forall|k: int| 0 <= k <= d.len() implies level(#[trigger] d.take(k)) >= 0 by {
            if k > 0 {
                assert(level(c.take(k - 1)) >= 0);
            }
        }
    }
    if stays_within(d) {
        assert forall|k: int| 0 <= k <= c.len() implies level(#[trigger] c.take(k)) >= 0 by {
            assert(level(d.take(k + 1)) >= 0);
        }
    }
}

/// Components that never lead back to a parent directory never lead out.
pub proof fn lemma_no_way_back(c: Seq<Seq<char>>)
    requires
        !c.contains(dot_dot()),
    ensures
        stays_within(c),
{
    assert forall|k: int| 0 <= k <= c.len() implies level(#[trigger] c.take(k)) >= 0 by {
        lemma_level_no_way_back(c, k);
    }
}

proof fn lemma_level_no_way_back(c: Seq<Seq<char>>, k: int)
    requires
        !c.contains(dot_dot()),
        0 <= k <= c.len(),
    ensures
        level(c.take(k)) >= 0,
    decreases k,
{
    if k > 0 {
        lemma_level_no_way_back(c, k - 1);
        assert(c.take(k).drop_last() =~= c.take(k - 1));
        assert(c.take(k).last() == c[k - 1]);
        assert(c.contains(c[k - 1]));
    }
}

/// A name joined to a directory is the name of what the whole path leads to.
pub proof fn law_join_name(a: Seq<char>, name: Seq<char>)
    requires
        is_component(name),
        name != dot_dot(),
        !name.contains('/'),
    ensures
        name_of(joined(a, name)) == Some(name),
{
    let keep = |p: Seq<char>| is_component(p);
    let nil = Seq::<Seq<char>>::empty();
    lemma_split_whole(name, '/');
    reveal(Seq::filter);
    nil.lemma_filter_push(name, keep);
    assert(nil.filter(keep) =~= nil);
    assert(split(name, '/') =~= nil.push(name));
    assert(split(name, '/').filter(keep) =~= seq![name]);
    assert(name.contains(name[0]));
    if a.len() > 0 {
        lemma_join_under(a, name);
        assert(components(joined(a, name)).last() == name);
    } else {
        assert(joined(a, name) =~= name);
        if name.len() == 1 {
            assert(name[0] == '.' ==> name =~= dot());
        } else {
            assert(name.contains(name[1]));
        }
        assert(components(name) =~= seq![name]);
    }
}

/// A slash at the end of a path changes none of its components.
pub proof fn lemma_end_slash(s: Seq<char>)
    ensures
        components(s + seq!['/']) == components(s),
{
    let t = s + seq!['/'];
    let keep = |p: Seq<char>| is_component(p);
    let nil = Seq::<Seq<char>>::empty();
    let none = split(Seq::<char>::empty(), '/');
    assert(t =~= s.push('/') + Seq::<char>::empty());
    lemma_split_concat(s, Seq::empty(), '/');
    Seq::filter_distributes_over_add(split(s, '/'), none, keep);
    reveal(Seq::filter);
    nil.lemma_filter_push(Seq::empty(), keep);
    assert(none =~= nil.push(Seq::empty()));
    assert(nil.filter(keep) =~= nil);
    assert(none.filter(keep) =~= nil);
    assert(split(s, '/').filter(keep) + nil =~= split(s, '/').filter(keep));
    assert(split(t, '/').filter(keep) =~= split(s, '/').filter(keep));
    if s.len() > 0 {
        assert(leads_with_dot(t) == leads_with_dot(s));
    }
}

// ---------------------------------------------------------------------------
// Laws of paths
// ---------------------------------------------------------------------------

/// A relative path is put behind a directory with one slash between; an absolute one takes its
/// place.
pub proof fn law_joined(a: Seq<char>, b: Seq<char>)
    ensures
        b.len() > 0 && b[0] == '/' ==> joined(a, b) == b,
        (b.len() == 0 || b[0] != '/') && a.len() > 0 && a.last() != '/' ==> joined(a, b) == a
            + seq!['/'] + b,
        (b.len() == 0 || b[0] != '/') && a.len() > 0 && a.last() == '/' ==> joined(a, b) == a + b,
        (b.len() == 0 || b[0] != '/') && a.len() == 0 ==> joined(a, b) == b,
{
    assert(a.len() == 0 ==> a + b =~= b);
}

/// A name behind a slash is one more component, and an empty or a single dot's place is none.
pub proof fn law_component_added(a: Seq<char>, name: Seq<char>)
    requires
        a.len() > 0,
        !name.contains('/'),
    ensures
        name.len() > 0 && name != seq!['.'] ==> components(a + seq!['/'] + name) == components(
            a,
        ).push(name),
        name.len() == 0 || name == seq!['.'] ==> components(a + seq!['/'] + name) == components(a),
        components(Seq::empty()).len() == 0,
{
    let keep = |p: Seq<char>| is_component(p);
    let nil = Seq::<Seq<char>>::empty();
    let s = a + seq!['/'] + name;
    lemma_empty_components();
    assert(s =~= a.push('/') + name);
    lemma_split_concat(a, name, '/');
    lemma_split_whole(name, '/');
    Seq::filter_distributes_over_add(split(a, '/'), split(name, '/'), keep);
    reveal(Seq::filter);
    nil.lemma_filter_push(name, keep);
    assert(nil.filter(keep) =~= nil);
    assert(split(name, '/') =~= nil.push(name));
    let more = if is_component(name) {
        seq![name]
    } else {
        nil
    };
    assert(split(name, '/').filter(keep) =~= more);
    let head = if leads_with_dot(a) {
        seq![dot()]
    } else {
        Seq::empty()
    };
    assert(leads_with_dot(s) == leads_with_dot(a));
    assert(components(s) =~= head + (split(a, '/').filter(keep) + more));
    assert(components(a) =~= head + split(a, '/').filter(keep));
    assert(is_component(name) ==> components(s) =~= components(a).push(name));
    assert(!is_component(name) ==> components(s) =~= components(a));
}

/// A way stays within where it never goes up further than it has come down: a name and a step
/// back cancel out, and a step back at the start leads out.
pub proof fn law_ways_back(c: Seq<Seq<char>>, name: Seq<char>)
    requires
        name != seq!['.'] && name != seq!['.', '.'],
    ensures
        level(c.push(name)) == level(c) + 1,
        level(c.push(seq!['.', '.'])) == level(c) - 1,
        level(c.push(seq!['.'])) == level(c),
        !stays_within(seq![seq!['.', '.']] + c),
        stays_within(Seq::empty()),
        stays_within(c) ==> stays_within(c.push(name)),
        stays_within(c) ==> (stays_within(c.push(seq!['.', '.'])) <==> level(c) > 0),
{
    let up = seq!['.', '.'];
    let here = seq!['.'];
    assert(up[1] == '.');
    assert(up.len() != here.len());
    assert(c.push(name).drop_last() =~= c);
    assert(c.push(up).drop_last() =~= c);
    assert(c.push(here).drop_last() =~= c);
    let out = seq![up] + c;
    let one = out.take(1);
    assert(one =~= Seq::<Seq<char>>::empty().push(up));
    assert(one.drop_last() =~= Seq::<Seq<char>>::empty());
    assert(level(Seq::<Seq<char>>::empty()) == 0);
    assert(level(out.take(1)) == -1);
    assert forall|k: int| 0 <= k <= 0 implies level(
        #[trigger] Seq::<Seq<char>>::empty().take(k),
    ) >= 0 by {
        assert(Seq::<Seq<char>>::empty().take(k) =~= Seq::empty());
    }
    if stays_within(c) {
        lemma_level_pushed(c, name);
        lemma_level_pushed(c, up);
        assert(c.take(c.len() as int) =~= c);
        assert(level(c.take(c.len() as int)) >= 0);
        assert(c.push(up).take((c.len() + 1) as int) =~= c.push(up));
        if stays_within(c.push(up)) {
            assert(level(c.push(up).take((c.len() + 1) as int)) >= 0);
        }
    }
}

/// Adding a component keeps a way within where the whole way is.
proof fn lemma_level_pushed(c: Seq<Seq<char>>, n: Seq<char>)
    requires
        stays_within(c),
    ensures
        level(c.push(n)) >= 0 ==> stays_within(c.push(n)),
{
    let t = c.push(n);
    if level(t) >= 0 {
        assert forall|k: int| 0 <= k <= t.len() implies level(#[trigger] t.take(k)) >= 0 by {
            if k <= c.len() {
                assert(t.take(k) =~= c.take(k));
                assert(level(c.take(k)) >= 0);
            } else {
                assert(t.take(k) =~= t);
            }
        }
    }
}

/// The parent of a name in a directory is the directory; that of a name at the root is the root,
/// and that of a bare name is empty.
pub proof fn law_parent(dir: Seq<char>, name: Seq<char>)
    requires
        name.len() > 0 && name != seq!['.'] && !name.contains('/'),
    ensures
        after_last(dir, '/').len() > 0 && after_last(dir, '/') != seq!['.'] ==> parent_of(
            dir + seq!['/'] + name,
        ) == Some(dir),
        parent_of(seq!['/'] + name) == Some(seq!['/']),
        parent_of(name) == Some(Seq::<char>::empty()),
{
    assert forall|i: int| 0 <= i < name.len() implies name[i] != '/' by {
        assert(name.contains(name[i]));
    }
    // A bare name.
    assert(!leads_with_dot(name)) by {
        if name.len() == 1 && name[0] == '.' {
            assert(name =~= seq!['.']);
        }
    }
    assert(name.skip(0) =~= name);
    lemma_after_last(name, '/', 0);
    assert(last_piece(name, 0) == name);
    assert(cut_piece(name, 0) =~= Seq::<char>::empty());
    // A name at the root.
    let r = seq!['/'] + name;
    assert(r.skip(1) =~= name);
    assert(last_piece(r, 1) == name);
    assert(cut_piece(r, 1) =~= seq!['/']);
    // A name in a directory.
    if after_last(dir, '/').len() > 0 && after_last(dir, '/') != seq!['.'] {
        let s = dir + seq!['/'] + name;
        let base = lead(s);
        assert(dir.len() > 0);
        assert(lead(dir) == base);
        let n = dir.len() + 1 - base;
        let rest = s.skip(base);
        assert forall|i: int| n <= i < rest.len() implies rest[i] != '/' by {
            assert(rest[i] == name[i - n]);
        }
        assert(rest[n - 1] == '/');
        lemma_after_last(rest, '/', n);
        assert(rest.skip(n) =~= name);
        assert(trim_tail(s, base) == s);
        assert(cut_piece(s, base) =~= dir);
        lemma_after_lead(dir);
        assert(trim_tail(dir, base) == dir);
    }
}

/// The last piece of a path is the same with and without what leads it.
proof fn lemma_after_lead(d: Seq<char>)
    requires
        after_last(d, '/').len() > 0,
        after_last(d, '/') != seq!['.'],
    ensures
        d.len() > lead(d),
        last_piece(d, lead(d)) == after_last(d, '/'),
{
    lemma_after_last_cut(d);
    let n = d.len() - after_last(d, '/').len();
    let base = lead(d);
    if base == 1 {
        if n == 0 {
            if leads_with_dot(d) && d.len() == 1 {
                assert(d =~= seq!['.']);
                assert(d.skip(0) =~= d);
            }
            assert(false);
        }
        let rest = d.skip(1);
        assert forall|i: int| n - 1 <= i < rest.len() implies rest[i] != '/' by {
            assert(rest[i] == d[i + 1]);
        }
        assert(n - 1 > 0 ==> rest[n - 2] == d[n - 1]);
        lemma_after_last(rest, '/', n - 1);
        assert(rest.skip(n - 1) =~= d.skip(n));
    } else {
        assert(d.skip(0) =~= d);
    }
}

/// Where the last piece of a path starts.
proof fn lemma_after_last_cut(d: Seq<char>)
    ensures
        ({
            let n = d.len() - after_last(d, '/').len();
            &&& 0 <= n <= d.len()
            &&& after_last(d, '/') == d.skip(n)
            &&& n > 0 ==> d[n - 1] == '/'
            &&& forall|i: int| n <= i < d.len() ==> d[i] != '/'
        }),
    decreases d.len(),
{
    if d.len() > 0 && d.last() != '/' {
        let e = d.drop_last();
        lemma_after_last_cut(e);
        let n = e.len() - after_last(e, '/').len();
        assert(d.skip(n) =~= e.skip(n).push(d.last()));
        assert(n > 0 ==> e[n - 1] == d[n - 1]);
        assert forall|i: int| n <= i < d.len() implies d[i] != '/' by {
            if i < e.len() {
                assert(e[i] == d[i]);
            }
        }
    } else {
        assert(d.skip(d.len() as int) =~= Seq::<char>::empty());
    }
}

/// The extension of a file is what follows the last dot of its name; a name without a dot, or
/// with its only dot at the start, has none.
pub proof fn law_extension(dir: Seq<char>, stem: Seq<char>, ext: Seq<char>)
    requires
        !stem.contains('/') && !ext.contains('/') && !ext.contains('.'),
    ensures
        stem.len() > 0 && stem + seq!['.'] + ext != seq!['.', '.'] ==> extension_of(
            joined(dir, stem + seq!['.'] + ext),
        ) == Some(ext),
        ext.len() > 0 ==> extension_of(joined(dir, ext)) is None,
        ext.len() > 0 ==> extension_of(joined(dir, seq!['.'] + ext)) is None,
{
    let n = stem + seq!['.'] + ext;
    assert(!n.contains('/')) by {
        assert forall|i: int| 0 <= i < n.len() implies n[i] != '/' by {
            if i < stem.len() {
                assert(n[i] == stem[i]);
                assert(stem.contains(stem[i]));
            } else if i > stem.len() {
                assert(n[i] == ext[i - stem.len() - 1]);
                assert(ext.contains(n[i]));
            }
        }
    }
    assert forall|i: int| 0 <= i < ext.len() implies ext[i] != '.' && ext[i] != '/' by {
        assert(ext.contains(ext[i]));
    }
    if stem.len() > 0 && n != seq!['.', '.'] {
        assert(n.len() > 1);
        law_join_name(dir, n);
        let k = stem.len() + 1;
        assert forall|i: int| k <= i < n.len() implies n[i] != '.' by {
            assert(n[i] == ext[i - k]);
        }
        assert(n[k - 1] == '.');
        lemma_after_last(n, '.', k as int);
        assert(n.skip(k as int) =~= ext);
        assert(n.contains('.'));
    }
    if ext.len() > 0 {
        assert(ext[0] != '.');
        assert(ext != dot() && ext != dot_dot()) by {
            assert(dot()[0] == '.');
            assert(dot_dot()[0] == '.');
        }
        law_join_name(dir, ext);
        let h = seq!['.'] + ext;
        assert(h[1] == ext[0]);
        assert(dot_dot()[1] == '.');
        assert(!h.contains('/')) by {
            assert forall|i: int| 0 <= i < h.len() implies h[i] != '/' by {
                if i > 0 {
                    assert(h[i] == ext[i - 1]);
                }
            }
        }
        law_join_name(dir, h);
        assert forall|i: int| 1 <= i < h.len() implies h[i] != '.' by {
            assert(h[i] == ext[i - 1]);
        }
        assert(h[0] == '.');
        lemma_after_last(h, '.', 1);
    }
}

/// A name that is a component is the only component of itself.
pub proof fn lemma_one_component(name: Seq<char>)
    requires
        name.len() > 0 && name != seq!['.'] && !name.contains('/'),
    ensures
        components(name) == seq![name],
{
    let keep = |p: Seq<char>| is_component(p);
    let nil = Seq::<Seq<char>>::empty();
    lemma_split_whole(name, '/');
    reveal(Seq::filter);
    nil.lemma_filter_push(name, keep);
    assert(nil.filter(keep) =~= nil);
    assert(split(name, '/') =~= nil.push(name));
    assert(split(name, '/').filter(keep) =~= seq![name]);
    if name.len() == 1 {
        assert(name[0] == '.' ==> name =~= dot());
    } else {
        assert(name.contains(name[1]));
    }
    assert(components(name) =~= seq![name]);
}

/// A path is not under a base where one of them is absolute and the other is not, or where it does
/// not start with the base's components; an empty base holds every path.
pub proof fn law_not_under(s: Seq<char>, base: Seq<char>)
    ensures
        components(base).len() > 0 && is_absolute(s) != is_absolute(base) ==> !is_under(s, base),
        !components(base).is_prefix_of(components(s)) ==> !is_under(s, base),
        is_absolute(s) == is_absolute(base) && components(base).is_prefix_of(components(s))
            ==> is_under(s, base),
        is_absolute(base) && is_absolute(s) != is_absolute(base) ==> !is_under(s, base),
        is_inside(s, base) ==> is_under(s, base),
        is_under(s, Seq::empty()),
{
    law_component_added(seq!['x'], Seq::empty());
    let none = components(base);
    if !none.is_prefix_of(components(s)) && none.len() == 0 {
        assert(none =~= components(s).subrange(0, 0));
    }
}

} // verus!
