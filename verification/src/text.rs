//! Text as sequences of characters: splitting, trimming, searching and joining.

use vstd::prelude::*;
use vstd::string::*;

verus! {

/// What a list of strings spells.
pub open spec fn texts(v: Seq<String>) -> Seq<Seq<char>> {
    v.map_values(|s: String| s@)
}

/// What an optional string spells.
pub open spec fn opt_text(o: Option<String>) -> Option<Seq<char>> {
    match o {
        Some(s) => Some(s@),
        None => None,
    }
}

/// The pieces of `s` between the occurrences of `sep`; a text without `sep` is
/// its own single piece.
pub open spec fn split(s: Seq<char>, sep: char) -> Seq<Seq<char>>
    decreases s.len(),
{
    if s.len() == 0 {
        seq![Seq::<char>::empty()]
    } else {
        let front = split(s.drop_last(), sep);
        if s.last() == sep {
            front.push(Seq::empty())
        } else {
            front.drop_last().push(front.last().push(s.last()))
        }
    }
}

/// The position of the first `c` in `s`, or the length of `s` where there is none.
pub open spec fn find(s: Seq<char>, c: char) -> int
    decreases s.len(),
{
    if s.len() == 0 || s[0] == c {
        0
    } else {
        1 + find(s.skip(1), c)
    }
}

/// The characters of a string, in order.
pub fn to_chars(s: &str) -> (r: Vec<char>)
    ensures
        r@ == s@,
{
    let mut out: Vec<char> = Vec::new();
    for c in it: s.chars()
        invariant
            out@ == it.seq().take(it.index() as int),
            it.seq() == s@,
    {
        out.push(c);
    }
    out
}

/// Whether two strings spell the same text.
pub fn same(a: &str, b: &str) -> (r: bool)
    ensures
        r == (a@ == b@),
{
    a.to_string() == b.to_string()
}

/// The part of `s` from character `from` up to character `to`.
pub fn slice(s: &str, from: usize, to: usize) -> (r: String)
    requires
        from <= to <= s@.len(),
    ensures
        r@ == s@.subrange(from as int, to as int),
{
    s.substring_char(from, to).to_string()
}

/// The pieces of `s` between the occurrences of `sep`.
pub fn split_on(s: &str, sep: char) -> (r: Vec<String>)
    ensures
        texts(r@) == split(s@, sep),
        r@.len() >= 1,
{
    let cs = to_chars(s);
    let mut out: Vec<String> = Vec::new();
    let mut start: usize = 0;
    let mut i: usize = 0;
    proof {
        assert(s@.take(0) =~= Seq::empty());
        assert(s@.subrange(0, 0) =~= Seq::empty());
        assert(texts(out@).push(s@.subrange(0, 0)) =~= split(s@.take(0), sep));
    }
    while i < cs.len()
        invariant
            cs@ == s@,
            start <= i <= cs.len(),
            texts(out@).push(s@.subrange(start as int, i as int)) == split(s@.take(i as int), sep),
        decreases cs.len() - i,
    {
        let ghost before = texts(out@).push(s@.subrange(start as int, i as int));
        proof {
            assert(s@.take(i + 1).drop_last() =~= s@.take(i as int));
            assert(s@.take(i + 1).last() == s@[i as int]);
        }
        if cs[i] == sep {
            out.push(slice(s, start, i));
            start = i + 1;
            proof {
                assert(texts(out@) =~= before);
                assert(s@.subrange(i + 1, i + 1) =~= Seq::empty());
            }
        } else {
            proof {
                assert(before.drop_last() =~= texts(out@));
                assert(s@.subrange(start as int, i + 1) =~= s@.subrange(start as int, i as int).push(s@[i as int]));
            }
        }
        i += 1;
    }
    proof {
        assert(s@.take(i as int) =~= s@);
    }
    let ghost before = texts(out@).push(s@.subrange(start as int, i as int));
    out.push(slice(s, start, i));
    assert(texts(out@) =~= before);
    out
}

/// `s` has no `sep`: it is its own single piece.
pub proof fn lemma_split_whole(s: Seq<char>, sep: char)
    requires
        !s.contains(sep),
    ensures
        split(s, sep) == seq![s],
    decreases s.len(),
{
    if s.len() > 0 {
        assert forall|i: int| 0 <= i < s.drop_last().len() implies s.drop_last()[i] != sep by {
            assert(s.contains(s[i]));
        }
        lemma_split_whole(s.drop_last(), sep);
        assert(s.contains(s.last()));
        assert(split(s, sep) =~= seq![s.drop_last().push(s.last())]);
        assert(s.drop_last().push(s.last()) =~= s);
    } else {
        assert(s =~= Seq::empty());
    }
}

/// Splitting a text that holds `sep` at a known place splits both sides.
pub proof fn lemma_split_concat(a: Seq<char>, b: Seq<char>, sep: char)
    ensures
        split(a.push(sep) + b, sep) == split(a, sep) + split(b, sep),
    decreases b.len(),
{
    let whole = a.push(sep) + b;
    if b.len() == 0 {
        assert(whole =~= a.push(sep));
        assert(whole.drop_last() =~= a);
        assert(split(whole, sep) =~= split(a, sep) + split(b, sep));
    } else {
        lemma_split_concat(a, b.drop_last(), sep);
        assert(whole.drop_last() =~= a.push(sep) + b.drop_last());
        lemma_split_nonempty(b.drop_last(), sep);
        let left = split(a, sep);
        let right = split(b.drop_last(), sep);
        assert((left + right).last() == right.last());
        assert((left + right).drop_last() =~= left + right.drop_last());
        assert(split(whole, sep) =~= left + split(b, sep));
    }
}

/// A split has at least one piece.
pub proof fn lemma_split_nonempty(s: Seq<char>, sep: char)
    ensures
        split(s, sep).len() >= 1,
    decreases s.len(),
{
    if s.len() > 0 {
        lemma_split_nonempty(s.drop_last(), sep);
    }
}

// ---------------------------------------------------------------------------
// Searching
// ---------------------------------------------------------------------------

/// `find` points at the first occurrence.
pub proof fn lemma_find(s: Seq<char>, c: char)
    ensures
        0 <= find(s, c) <= s.len(),
        forall|i: int| 0 <= i < find(s, c) ==> s[i] != c,
        find(s, c) < s.len() ==> s[find(s, c)] == c,
        find(s, c) < s.len() <==> s.contains(c),
    decreases s.len(),
{
    if s.len() > 0 && s[0] != c {
        let t = s.skip(1);
        lemma_find(t, c);
        assert forall|i: int| 0 <= i < find(s, c) implies s[i] != c by {
            if i > 0 {
                assert(s[i] == t[i - 1]);
            }
        }
        if find(s, c) < s.len() {
            assert(s[find(s, c)] == t[find(t, c)]);
        }
    }
}

/// A position with no `c` before it, and with a `c` at it or at the end, is `find`.
pub proof fn lemma_find_is(s: Seq<char>, c: char, n: int)
    requires
        0 <= n <= s.len(),
        forall|i: int| 0 <= i < n ==> s[i] != c,
        n < s.len() ==> s[n] == c,
    ensures
        find(s, c) == n,
{
    lemma_find(s, c);
    let f = find(s, c);
    if f < n {
        assert(s[f] != c);
    } else if n < f {
        assert(s[n] != c);
    }
}

/// The position of the first `c` in `s`, or the number of characters where there is none.
pub fn find_char(s: &str, c: char) -> (r: usize)
    ensures
        r == find(s@, c),
        r <= s@.len(),
{
    let cs = to_chars(s);
    let mut i: usize = 0;
    while i < cs.len() && cs[i] != c
        invariant
            cs@ == s@,
            i <= cs.len(),
            forall|j: int| 0 <= j < i ==> s@[j] != c,
        decreases cs.len() - i,
    {
        i += 1;
    }
    proof {
        lemma_find_is(s@, c, i as int);
    }
    i
}

/// Whether `c` occurs in `s`.
pub fn contains_char(s: &str, c: char) -> (r: bool)
    ensures
        r == s@.contains(c),
{
    let i = find_char(s, c);
    proof {
        lemma_find(s@, c);
    }
    i < s.unicode_len()
}

/// The text before the first `c`, or all of `s`.
pub open spec fn before(s: Seq<char>, c: char) -> Seq<char> {
    s.take(find(s, c))
}

/// The text before the first `c`, or all of `s`.
pub fn before_char(s: &str, c: char) -> (r: String)
    ensures
        r@ == before(s@, c),
{
    let i = find_char(s, c);
    slice(s, 0, i)
}

/// The text after the last `c`, or all of `s`.
pub open spec fn after_last(s: Seq<char>, c: char) -> Seq<char>
    decreases s.len(),
{
    if s.len() == 0 || s.last() == c {
        Seq::empty()
    } else {
        after_last(s.drop_last(), c).push(s.last())
    }
}

/// `after_last` is the tail without `c` that starts the text or follows a `c`.
pub proof fn lemma_after_last(s: Seq<char>, c: char, n: int)
    requires
        0 <= n <= s.len(),
        forall|i: int| n <= i < s.len() ==> s[i] != c,
        n > 0 ==> s[n - 1] == c,
    ensures
        after_last(s, c) == s.skip(n),
    decreases s.len(),
{
    if n == s.len() {
        assert(s.skip(n) =~= Seq::empty());
    } else {
        lemma_after_last(s.drop_last(), c, n);
        assert(s.skip(n) =~= s.drop_last().skip(n).push(s.last()));
    }
}

/// The text after the last `c`, or all of `s`.
pub fn after_last_char(s: &str, c: char) -> (r: String)
    ensures
        r@ == after_last(s@, c),
{
    let cs = to_chars(s);
    let mut i: usize = cs.len();
    while i > 0 && cs[i - 1] != c
        invariant
            cs@ == s@,
            i <= cs.len(),
            forall|j: int| i <= j < cs.len() ==> s@[j] != c,
        decreases i,
    {
        i -= 1;
    }
    proof {
        lemma_after_last(s@, c, i as int);
        assert(s@.skip(i as int) =~= s@.subrange(i as int, cs.len() as int));
    }
    slice(s, i, cs.len())
}

/// Whether `p` stands in `s` at position `at`.
pub open spec fn occurs_at(s: Seq<char>, p: Seq<char>, at: int) -> bool {
    0 <= at && at + p.len() <= s.len() && s.subrange(at, at + p.len()) == p
}

/// Whether `p` stands somewhere in `s`.
pub open spec fn occurs(s: Seq<char>, p: Seq<char>) -> bool {
    exists|at: int| occurs_at(s, p, at)
}

/// Whether `p` stands in `s` at position `at`.
pub fn stands_at(cs: &Vec<char>, ps: &Vec<char>, at: usize) -> (r: bool)
    requires
        at <= cs@.len(),
    ensures
        r == occurs_at(cs@, ps@, at as int),
{
    if ps.len() > cs.len() - at {
        return false;
    }
    let mut j: usize = 0;
    while j < ps.len()
        invariant
            at + ps.len() <= cs.len(),
            j <= ps.len(),
            forall|k: int| 0 <= k < j ==> cs@[at + k] == ps@[k],
        decreases ps.len() - j,
    {
        if cs[at + j] != ps[j] {
            proof {
                assert(cs@.subrange(at as int, at + ps@.len())[j as int] != ps@[j as int]);
            }
            return false;
        }
        j += 1;
    }
    assert(cs@.subrange(at as int, at + ps@.len()) =~= ps@);
    true
}

/// Whether `p` stands somewhere in `s`.
pub fn contains_text(s: &str, p: &str) -> (r: bool)
    ensures
        r == occurs(s@, p@),
{
    let cs = to_chars(s);
    let ps = to_chars(p);
    let mut i: usize = 0;
    while i < cs.len()
        invariant
            cs@ == s@,
            ps@ == p@,
            i <= cs.len(),
            forall|at: int| 0 <= at < i ==> !occurs_at(s@, p@, at),
        decreases cs.len() - i,
    {
        if stands_at(&cs, &ps, i) {
            return true;
        }
        i += 1;
    }
    let last = stands_at(&cs, &ps, i);
    proof {
        if !last {
            assert forall|at: int| !occurs_at(s@, p@, at) by {}
        }
    }
    last
}

/// Whether `s` begins with `p`.
pub fn starts_with(s: &str, p: &str) -> (r: bool)
    ensures
        r == p@.is_prefix_of(s@),
{
    let cs = to_chars(s);
    let ps = to_chars(p);
    stands_at(&cs, &ps, 0)
}

/// Whether `s` ends with `p`.
pub fn ends_with(s: &str, p: &str) -> (r: bool)
    ensures
        r == p@.is_suffix_of(s@),
{
    let cs = to_chars(s);
    let ps = to_chars(p);
    if ps.len() > cs.len() {
        return false;
    }
    proof {
        assert(s@.subrange(s@.len() - p@.len(), s@.len() as int) =~= s@.skip(s@.len() - p@.len()));
    }
    stands_at(&cs, &ps, cs.len() - ps.len())
}

// ---------------------------------------------------------------------------
// Trimming
// ---------------------------------------------------------------------------

/// The characters that a trim takes away.
#[derive(Clone, Copy, Debug, PartialEq, Eq, Structural)]
pub enum CharClass {
    /// The characters with the Unicode property White_Space.
    White,
    /// One character.
    Is(char),
}

/// The characters with the Unicode property White_Space.
pub open spec fn is_white(c: char) -> bool {
    ||| 0x09 <= c as int <= 0x0d
    ||| c as int == 0x20
    ||| c as int == 0x85
    ||| c as int == 0xa0
    ||| c as int == 0x1680
    ||| 0x2000 <= c as int <= 0x200a
    ||| c as int == 0x2028
    ||| c as int == 0x2029
    ||| c as int == 0x202f
    ||| c as int == 0x205f
    ||| c as int == 0x3000
}

impl CharClass {
    /// Whether `c` belongs to the class.
    pub open spec fn holds(self, c: char) -> bool {
        match self {
            CharClass::White => is_white(c),
            CharClass::Is(x) => x == c,
        }
    }

    /// Whether `c` belongs to the class.
    pub fn has(&self, c: char) -> (r: bool)
        ensures
            r == self.holds(c),
    {
        match self {
            CharClass::White => {
                let n: u32 = c as u32;
                (0x09 <= n && n <= 0x0d) || n == 0x20 || n == 0x85 || n == 0xa0 || n == 0x1680 || (
                0x2000 <= n && n <= 0x200a) || n == 0x2028 || n == 0x2029 || n == 0x202f || n
                    == 0x205f || n == 0x3000
            },
            CharClass::Is(x) => *x == c,
        }
    }
}

/// `s` without the characters of the class at its start.
pub open spec fn trim_start(s: Seq<char>, k: CharClass) -> Seq<char>
    decreases s.len(),
{
    if s.len() > 0 && k.holds(s[0]) {
        trim_start(s.skip(1), k)
    } else {
        s
    }
}

/// `s` without the characters of the class at its end.
pub open spec fn trim_end(s: Seq<char>, k: CharClass) -> Seq<char>
    decreases s.len(),
{
    if s.len() > 0 && k.holds(s.last()) {
        trim_end(s.drop_last(), k)
    } else {
        s
    }
}

/// `s` without the characters of the class at either end.
pub open spec fn trim(s: Seq<char>, k: CharClass) -> Seq<char> {
    trim_end(trim_start(s, k), k)
}

proof fn lemma_trim_start(s: Seq<char>, k: CharClass, n: int)
    requires
        0 <= n <= s.len(),
        forall|i: int| 0 <= i < n ==> k.holds(s[i]),
        n < s.len() ==> !k.holds(s[n]),
    ensures
        trim_start(s, k) == s.skip(n),
    decreases s.len(),
{
    if n > 0 {
        lemma_trim_start(s.skip(1), k, n - 1);
        assert(s.skip(1).skip(n - 1) =~= s.skip(n));
    } else {
        assert(s.skip(0) =~= s);
    }
}

proof fn lemma_trim_end(s: Seq<char>, k: CharClass, n: int)
    requires
        0 <= n <= s.len(),
        forall|i: int| n <= i < s.len() ==> k.holds(s[i]),
        n > 0 ==> !k.holds(s[n - 1]),
    ensures
        trim_end(s, k) == s.take(n),
    decreases s.len(),
{
    if n < s.len() {
        lemma_trim_end(s.drop_last(), k, n);
        assert(s.drop_last().take(n) =~= s.take(n));
    } else {
        assert(s.take(n) =~= s);
    }
}

/// `s` without the characters of the class at its start.
pub fn trim_front(s: &str, k: CharClass) -> (r: String)
    ensures
        r@ == trim_start(s@, k),
{
    let cs = to_chars(s);
    let mut i: usize = 0;
    while i < cs.len() && k.has(cs[i])
        invariant
            cs@ == s@,
            i <= cs.len(),
            forall|j: int| 0 <= j < i ==> k.holds(s@[j]),
        decreases cs.len() - i,
    {
        i += 1;
    }
    proof {
        lemma_trim_start(s@, k, i as int);
        assert(s@.skip(i as int) =~= s@.subrange(i as int, cs.len() as int));
    }
    slice(s, i, cs.len())
}

/// `s` without the characters of the class at either end.
pub fn trim_both(s: &str, k: CharClass) -> (r: String)
    ensures
        r@ == trim(s@, k),
{
    let t = trim_front(s, k);
    let cs = to_chars(t.as_str());
    let mut i: usize = cs.len();
    while i > 0 && k.has(cs[i - 1])
        invariant
            cs@ == t@,
            i <= cs.len(),
            forall|j: int| i <= j < cs.len() ==> k.holds(t@[j]),
        decreases i,
    {
        i -= 1;
    }
    proof {
        lemma_trim_end(t@, k, i as int);
    }
    slice(t.as_str(), 0, i)
}

// ---------------------------------------------------------------------------
// Lines
// ---------------------------------------------------------------------------

/// A line without the carriage return that its line ending may hold.
pub open spec fn strip_cr(l: Seq<char>) -> Seq<char> {
    if l.len() > 0 && l.last() == '\r' {
        l.drop_last()
    } else {
        l
    }
}

/// The lines of a text: each ends with a newline or a carriage return and a
/// newline, and the last one may lack its ending.
pub open spec fn lines(s: Seq<char>) -> Seq<Seq<char>> {
    let parts = split(s, '\n');
    let ended = parts.drop_last().map_values(|l: Seq<char>| strip_cr(l));
    if parts.last().len() == 0 {
        ended
    } else {
        ended.push(parts.last())
    }
}

/// The lines of a text.
pub fn lines_of(s: &str) -> (r: Vec<String>)
    ensures
        texts(r@) == lines(s@),
{
    let parts = split_on(s, '\n');
    let ghost all = split(s@, '\n');
    let mut out: Vec<String> = Vec::new();
    let mut i: usize = 0;
    while i + 1 < parts.len()
        invariant
            texts(parts@) == all,
            i < parts.len(),
            texts(out@) == all.take(i as int).map_values(|l: Seq<char>| strip_cr(l)),
        decreases parts.len() - i,
    {
        let ghost was = texts(out@);
        proof {
            assert(all[i as int] == parts@[i as int]@);
        }
        let cs = to_chars(parts[i].as_str());
        let n = cs.len();
        if n > 0 && cs[n - 1] == '\r' {
            out.push(slice(parts[i].as_str(), 0, n - 1));
        } else {
            out.push(parts[i].clone());
        }
        proof {
            assert(out@.last()@ =~= strip_cr(all[i as int]));
            assert(texts(out@) =~= was.push(strip_cr(all[i as int])));
            assert(all.take(i + 1) =~= all.take(i as int).push(all[i as int]));
            assert(texts(out@) =~= all.take(i + 1).map_values(|l: Seq<char>| strip_cr(l)));
        }
        i += 1;
    }
    proof {
        assert(all.take(i as int) =~= all.drop_last());
        assert(all.last() == parts@[i as int]@);
    }
    let ghost ended = texts(out@);
    if parts[i].unicode_len() != 0 {
        out.push(parts[i].clone());
        assert(texts(out@) =~= ended.push(all.last()));
    }
    out
}

// ---------------------------------------------------------------------------
// Lists of strings
// ---------------------------------------------------------------------------

/// The contents of what a step without a value gave.
pub open spec fn unit_view(r: Result<(), String>) -> Result<(), Seq<char>> {
    match r {
        Ok(_) => Ok(()),
        Err(e) => Err(e@),
    }
}

/// A copy of a list of strings.
pub fn copy_texts(v: &Vec<String>) -> (r: Vec<String>)
    ensures
        texts(r@) == texts(v@),
        r@.len() == v@.len(),
{
    let mut out: Vec<String> = Vec::new();
    let mut i: usize = 0;
    while i < v.len()
        invariant
            i <= v.len(),
            texts(out@) == texts(v@).take(i as int),
            out@.len() == i,
        decreases v.len() - i,
    {
        out.push(v[i].clone());
        proof {
            assert(texts(out@) =~= texts(v@).take(i + 1));
        }
        i += 1;
    }
    assert(texts(v@).take(i as int) =~= texts(v@));
    out
}

/// A copy of an optional string.
pub fn copy_opt(o: &Option<String>) -> (r: Option<String>)
    ensures
        opt_text(r) == opt_text(*o),
{
    match o {
        Some(s) => Some(s.clone()),
        None => None,
    }
}

/// Whether `x` is one of the strings.
pub fn has_text(v: &Vec<String>, x: &str) -> (r: bool)
    ensures
        r == texts(v@).contains(x@),
{
    let mut i: usize = 0;
    while i < v.len()
        invariant
            i <= v.len(),
            forall|j: int| 0 <= j < i ==> texts(v@)[j] != x@,
        decreases v.len() - i,
    {
        if same(v[i].as_str(), x) {
            proof {
                assert(texts(v@)[i as int] == x@);
            }
            return true;
        }
        i += 1;
    }
    false
}

/// The strings other than `x`, in order.
pub fn without_text(v: &Vec<String>, x: &str) -> (r: Vec<String>)
    ensures
        texts(r@) == texts(v@).filter(|t: Seq<char>| t != x@),
{
    let ghost keep = |t: Seq<char>| t != x@;
    let mut out: Vec<String> = Vec::new();
    let mut i: usize = 0;
    proof {
        assert(texts(v@).take(0) =~= Seq::empty());
        reveal(Seq::filter);
        assert(texts(out@) =~= texts(v@).take(0).filter(keep));
    }
    while i < v.len()
        invariant
            i <= v.len(),
            keep == (|t: Seq<char>| t != x@),
            texts(out@) == texts(v@).take(i as int).filter(keep),
        decreases v.len() - i,
    {
        let ghost was = texts(out@);
        proof {
            assert(texts(v@).take(i + 1) =~= texts(v@).take(i as int).push(texts(v@)[i as int]));
            texts(v@).take(i as int).lemma_filter_push(texts(v@)[i as int], keep);
        }
        if !same(v[i].as_str(), x) {
            out.push(v[i].clone());
            assert(texts(out@) =~= was.push(v@[i as int]@));
        }
        i += 1;
    }
    assert(texts(v@).take(i as int) =~= texts(v@));
    out
}

// ---------------------------------------------------------------------------
// Joining
// ---------------------------------------------------------------------------

/// Two texts, one after the other.
pub fn cat2(a: &str, b: &str) -> (r: String)
    ensures
        r@ == a@ + b@,
{
    a.to_string().concat(b)
}

/// Three texts, one after the other.
pub fn cat3(a: &str, b: &str, c: &str) -> (r: String)
    ensures
        r@ == a@ + b@ + c@,
{
    a.to_string().concat(b).concat(c)
}

/// Four texts, one after the other.
pub fn cat4(a: &str, b: &str, c: &str, d: &str) -> (r: String)
    ensures
        r@ == a@ + b@ + c@ + d@,
{
    a.to_string().concat(b).concat(c).concat(d)
}

/// Five texts, one after the other.
pub fn cat5(a: &str, b: &str, c: &str, d: &str, e: &str) -> (r: String)
    ensures
        r@ == a@ + b@ + c@ + d@ + e@,
{
    a.to_string().concat(b).concat(c).concat(d).concat(e)
}

// ---------------------------------------------------------------------------
// Bytes as text
// ---------------------------------------------------------------------------

/// `String::push`: the character stands behind the text.
pub assume_specification[ String::push ](s: &mut String, c: char)
    ensures
        final(s)@ == old(s)@.push(c),
;

/// The text whose characters have the values of the bytes.
pub open spec fn byte_chars(bytes: Seq<u8>) -> Seq<char> {
    bytes.map_values(|b: u8| b as char)
}

/// The text whose characters have the values of the bytes.
pub fn byte_text(bytes: &Vec<u8>) -> (r: String)
    ensures
        r@ == byte_chars(bytes@),
{
    let mut out = String::new();
    let mut i: usize = 0;
    assert(out@ =~= byte_chars(bytes@.take(0)));
    while i < bytes.len()
        invariant
            i <= bytes@.len(),
            out@ == byte_chars(bytes@.take(i as int)),
        decreases bytes@.len() - i,
    {
        out.push(bytes[i] as char);
        assert(out@ =~= byte_chars(bytes@.take(i + 1)));
        i += 1;
    }
    assert(bytes@.take(i as int) =~= bytes@);
    out
}

/// The byte that a character has the value of.
fn char_byte(c: char) -> (r: Option<u8>)
    ensures
        match r {
            Some(b) => b as char == c,
            None => c as int > 0xff,
        },
{
    let n: u32 = c as u32;
    if n <= 0xff {
        Some(n as u8)
    } else {
        None
    }
}

/// The bytes that the characters of a text have the values of; none where one is no byte.
pub fn text_bytes(s: &str) -> (r: Option<Vec<u8>>)
    ensures
        match r {
            Some(b) => byte_chars(b@) == s@,
            None => exists|i: int| 0 <= i < s@.len() && (#[trigger] s@[i]) as int > 0xff,
        },
{
    let cs = to_chars(s);
    let mut out: Vec<u8> = Vec::new();
    let mut i: usize = 0;
    while i < cs.len()
        invariant
            i <= cs@.len(),
            cs@ == s@,
            byte_chars(out@) =~= s@.take(i as int),
        decreases cs@.len() - i,
    {
        assert(s@[i as int] == cs@[i as int]);
        match char_byte(cs[i]) {
            Some(b) => {
                let ghost was = byte_chars(out@);
                out.push(b);
                assert(byte_chars(out@) =~= was.push(b as char));
                assert(s@.take(i + 1) =~= s@.take(i as int).push(s@[i as int]));
            },
            None => {
                return None;
            },
        }
        i += 1;
    }
    assert(s@.take(i as int) =~= s@);
    Some(out)
}

// ---------------------------------------------------------------------------
// Laws
// ---------------------------------------------------------------------------

/// In ASCII the white characters are the space and those from the tab to the
/// carriage return; a class of one character holds that character alone.
pub proof fn law_char_class(c: char, x: char)
    ensures
        c as int <= 0x7f ==> (CharClass::White.holds(c) <==> c == ' ' || c == '\t' || c == '\n'
            || c == '\r' || c as int == 0x0b || c as int == 0x0c),
        CharClass::Is(x).holds(c) <==> c == x,
{
}

/// A trim takes away all that is in the class at either end, and nothing else.
pub proof fn law_trim(a: Seq<char>, m: Seq<char>, b: Seq<char>, k: CharClass)
    requires
        forall|i: int| 0 <= i < a.len() ==> k.holds(#[trigger] a[i]),
        forall|i: int| 0 <= i < b.len() ==> k.holds(#[trigger] b[i]),
        m.len() > 0 ==> !k.holds(m[0]) && !k.holds(m.last()),
    ensures
        trim(a + m + b, k) == m,
        m.len() > 0 ==> trim_start(a + m + b, k) == m + b,
{
    let s = a + m + b;
    if m.len() == 0 {
        assert forall|i: int| 0 <= i < s.len() implies k.holds(s[i]) by {
            if i >= a.len() {
                assert(s[i] == b[i - a.len()]);
            } else {
                assert(s[i] == a[i]);
            }
        }
        lemma_trim_start(s, k, s.len() as int);
        assert(s.skip(s.len() as int) =~= Seq::<char>::empty());
        assert(trim(s, k) =~= m);
    } else {
        let n: int = a.len() as int;
        assert forall|i: int| 0 <= i < n implies k.holds(s[i]) by {
            assert(s[i] == a[i]);
        }
        assert(s[n] == m[0]);
        lemma_trim_start(s, k, n);
        let t = s.skip(n);
        assert(t =~= m + b);
        assert forall|i: int| m.len() <= i < t.len() implies k.holds(t[i]) by {
            assert(t[i] == b[i - m.len()]);
        }
        assert(t[m.len() - 1] == m.last());
        lemma_trim_end(t, k, m.len() as int);
        assert(t.take(m.len() as int) =~= m);
    }
}

/// Where a trim cuts a text: what lies outside is in the class, and what it leaves
/// neither starts nor ends in it.
pub proof fn lemma_trim_cuts(s: Seq<char>, k: CharClass) -> (r: (int, int))
    ensures
        0 <= r.0 <= r.1 <= s.len(),
        trim(s, k) == s.subrange(r.0, r.1),
        forall|i: int| 0 <= i < r.0 ==> k.holds(#[trigger] s[i]),
        forall|i: int| r.1 <= i < s.len() ==> k.holds(#[trigger] s[i]),
        r.0 < r.1 ==> !k.holds(s[r.0]) && !k.holds(s[r.1 - 1]),
{
    let i = lemma_start_cut(s, k);
    let t = s.skip(i);
    let n = lemma_end_cut(t, k);
    lemma_trim_start(s, k, i);
    lemma_trim_end(t, k, n);
    assert(t.take(n) =~= s.subrange(i, i + n));
    assert forall|j: int| i + n <= j < s.len() implies k.holds(#[trigger] s[j]) by {
        assert(t[j - i] == s[j]);
    }
    if n > 0 {
        assert(t[n - 1] == s[i + n - 1]);
    }
    (i, i + n)
}

proof fn lemma_start_cut(s: Seq<char>, k: CharClass) -> (n: int)
    ensures
        0 <= n <= s.len(),
        forall|i: int| 0 <= i < n ==> k.holds(#[trigger] s[i]),
        n < s.len() ==> !k.holds(s[n]),
    decreases s.len(),
{
    if s.len() > 0 && k.holds(s[0]) {
        let t = s.skip(1);
        let m = lemma_start_cut(t, k);
        assert forall|i: int| 0 <= i < m + 1 implies k.holds(#[trigger] s[i]) by {
            if i > 0 {
                assert(t[i - 1] == s[i]);
            }
        }
        m + 1
    } else {
        0
    }
}

proof fn lemma_end_cut(s: Seq<char>, k: CharClass) -> (n: int)
    ensures
        0 <= n <= s.len(),
        forall|i: int| n <= i < s.len() ==> k.holds(#[trigger] s[i]),
        n > 0 ==> !k.holds(s[n - 1]),
    decreases s.len(),
{
    if s.len() > 0 && k.holds(s.last()) {
        let t = s.drop_last();
        let m = lemma_end_cut(t, k);
        assert forall|i: int| m <= i < s.len() implies k.holds(#[trigger] s[i]) by {
            if i < t.len() {
                assert(t[i] == s[i]);
            }
        }
        m
    } else {
        s.len() as int
    }
}

/// A split cuts at every separator: what stands before the first one is the first piece, and
/// the rest is split alike; a text without one is its own piece.
pub proof fn law_split(a: Seq<char>, b: Seq<char>, sep: char)
    requires
        !a.contains(sep),
    ensures
        split(a, sep) == seq![a],
        split(a.push(sep) + b, sep) == seq![a] + split(b, sep),
{
    lemma_split_whole(a, sep);
    lemma_split_concat(a, b, sep);
}

/// The first line of a text is what stands before its first newline, without a carriage
/// return at its end; the lines of the rest follow. A text without a newline is one line,
/// and an empty one has none.
pub proof fn law_lines(l: Seq<char>, rest: Seq<char>)
    requires
        !l.contains('\n'),
    ensures
        lines(l.push('\n') + rest) == seq![
            if l.len() > 0 && l.last() == '\r' {
                l.drop_last()
            } else {
                l
            },
        ] + lines(rest),
        l.len() > 0 ==> lines(l) == seq![l],
        l.len() == 0 ==> lines(l) == Seq::<Seq<char>>::empty(),
{
    lemma_lines_concat(l, rest);
    lemma_split_whole(l, '\n');
    assert(seq![l].drop_last() =~= Seq::<Seq<char>>::empty());
    assert(lines(l) =~= if l.len() > 0 {
        seq![l]
    } else {
        Seq::<Seq<char>>::empty()
    });
    assert(split(l, '\n').map_values(|p: Seq<char>| strip_cr(p)) =~= seq![strip_cr(l)]);
}

/// The lines of a text with a newline at a known place.
pub proof fn lemma_lines_concat(p: Seq<char>, rest: Seq<char>)
    ensures
        lines(p.push('\n') + rest) == split(p, '\n').map_values(|l: Seq<char>| strip_cr(l)) + lines(
            rest,
        ),
{
    lemma_split_concat(p, rest, '\n');
    lemma_split_nonempty(rest, '\n');
    let left = split(p, '\n');
    let right = split(rest, '\n');
    assert((left + right).last() == right.last());
    assert((left + right).drop_last() =~= left + right.drop_last());
    let f = |l: Seq<char>| strip_cr(l);
    assert((left + right.drop_last()).map_values(f) =~= left.map_values(f)
        + right.drop_last().map_values(f));
    assert(lines(p.push('\n') + rest) =~= left.map_values(f) + lines(rest));
}

/// Leading characters of the class change no trim.
pub proof fn lemma_trim_padded(w: Seq<char>, s: Seq<char>, k: CharClass)
    requires
        forall|i: int| 0 <= i < w.len() ==> k.holds(#[trigger] w[i]),
    ensures
        trim(w + s, k) == trim(s, k),
{
    let (i, j) = lemma_trim_cuts(s, k);
    let m = s.subrange(i, j);
    assert(w + s =~= (w + s.take(i)) + m + s.skip(j));
    law_trim(w + s.take(i), m, s.skip(j), k);
}

} // verus!
