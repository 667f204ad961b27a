//! Small verified helpers on strings, stated over their character sequences.

use vstd::prelude::*;
use vstd::std_specs::iter::IteratorSpec;

verus! {

/// The character sequences of a sequence of strings.
pub open spec fn views(v: Seq<String>) -> Seq<Seq<char>> {
    Seq::new(v.len(), |i: int| v[i]@)
}

/// The character sequences of a sequence of lists of strings.
pub open spec fn nested_views(v: Seq<Vec<String>>) -> Seq<Seq<Seq<char>>> {
    Seq::new(v.len(), |i: int| views(v[i]@))
}

/// `prefix` is an initial segment of `s`.
pub open spec fn is_prefix(prefix: Seq<char>, s: Seq<char>) -> bool {
    prefix.len() <= s.len() && s.subrange(0, prefix.len() as int) == prefix
}

/// The characters of a string.
pub fn chars_of(s: &str) -> (r: Vec<char>)
    ensures
        r@ == s@,
{
    let mut it = s.chars();
    let mut out: Vec<char> = Vec::new();
    loop
        invariant
            it.obeys_prophetic_iter_laws(),
            it.decrease() is Some,
            out@ + it.remaining() == s@,
        decreases it.decrease()->0,
    {
        let ghost before = it.remaining();
        match it.next() {
            Some(c) => {
                out.push(c);
                proof {
                    assert(out@ + it.remaining() =~= s@);
                }
            },
            None => {
                proof {
                    assert(out@ + before =~= out@);
                }
                return out;
            },
        }
    }
}

/// The character at position `i`.
pub fn char_at(v: &Vec<char>, i: usize) -> (c: char)
    requires
        i < v@.len(),
    ensures
        c == v@[i as int],
{
    v[i]
}

/// Tells whether `s` begins with `prefix`.
pub fn starts_with(s: &str, prefix: &str) -> (r: bool)
    ensures
        r == is_prefix(prefix@, s@),
{
    let text: Vec<char> = chars_of(s);
    let start: Vec<char> = chars_of(prefix);
    let n: usize = start.len();
    let m: usize = text.len();
    if n > m {
        return false;
    }
    let mut i: usize = 0;
    while i < n
        invariant
            text@ == s@,
            start@ == prefix@,
            n == prefix@.len(),
            m == s@.len(),
            n <= m,
            i <= n,
            forall|j: int| 0 <= j < i ==> s@[j] == prefix@[j],
        decreases n - i,
    {
        if text[i] != start[i] {
            assert(s@.subrange(0, n as int)[i as int] == s@[i as int]);
            return false;
        }
        i += 1;
    }
    assert(s@.subrange(0, n as int) =~= prefix@);
    true
}

/// A copy of an optional string.
pub fn clone_opt(o: &Option<String>) -> (r: Option<String>)
    ensures
        r == *o,
{
    match o {
        Some(s) => Some(s.clone()),
        None => None,
    }
}

/// A copy of a list of strings.
pub fn clone_strings(v: &Vec<String>) -> (r: Vec<String>)
    ensures
        r@ == v@,
{
    let mut out: Vec<String> = Vec::new();
    let mut i: usize = 0;
    while i < v.len()
        invariant
            i <= v@.len(),
            out@ == v@.take(i as int),
        decreases v@.len() - i,
    {
        out.push(v[i].clone());
        proof {
            assert(out@ =~= v@.take(i + 1));
        }
        i += 1;
    }
    proof {
        assert(v@.take(v@.len() as int) =~= v@);
    }
    out
}

/// `a` comes before `b` in dictionary order, characters ranked by their
/// code points. This is also the order of the strings' UTF-8 bytes.
pub open spec fn lex_lt(a: Seq<char>, b: Seq<char>) -> bool
    decreases a.len(),
{
    if b.len() == 0 {
        false
    } else if a.len() == 0 {
        true
    } else if a[0] != b[0] {
        (a[0] as u32) < (b[0] as u32)
    } else {
        lex_lt(a.drop_first(), b.drop_first())
    }
}

/// No string comes before itself.
pub proof fn lemma_lex_irreflexive(a: Seq<char>)
    ensures
        !lex_lt(a, a),
    decreases a.len(),
{
    if a.len() > 0 {
        lemma_lex_irreflexive(a.drop_first());
    }
}

/// Dictionary order is transitive.
pub proof fn lemma_lex_transitive(a: Seq<char>, b: Seq<char>, c: Seq<char>)
    requires
        lex_lt(a, b),
        lex_lt(b, c),
    ensures
        lex_lt(a, c),
    decreases a.len(),
{
    if a.len() > 0 && a[0] == b[0] && b[0] == c[0] {
        lemma_lex_transitive(a.drop_first(), b.drop_first(), c.drop_first());
    }
}

/// Strings that agree on their first `i` characters are ordered as their
/// remainders are.
pub proof fn lemma_lex_skip(a: Seq<char>, b: Seq<char>, i: int)
    requires
        0 <= i <= a.len(),
        i <= b.len(),
        a.take(i) == b.take(i),
    ensures
        lex_lt(a, b) == lex_lt(a.skip(i), b.skip(i)),
    decreases i,
{
    if i == 0 {
        assert(a.skip(0) =~= a);
        assert(b.skip(0) =~= b);
    } else {
        assert(a[0] == a.take(i)[0]);
        assert(b[0] == b.take(i)[0]);
        let a1 = a.drop_first();
        let b1 = b.drop_first();
        assert(a1.take(i - 1) =~= a.take(i).drop_first());
        assert(b1.take(i - 1) =~= b.take(i).drop_first());
        lemma_lex_skip(a1, b1, i - 1);
        assert(a1.skip(i - 1) =~= a.skip(i));
        assert(b1.skip(i - 1) =~= b.skip(i));
    }
}

/// How one string stands to another in dictionary order.
pub enum Rank {
    Before,
    Same,
    After,
}

/// Ranks `a` against `b` in dictionary order.
pub fn rank_strings(a: &str, b: &str) -> (r: Rank)
    ensures
        match r {
            Rank::Before => lex_lt(a@, b@),
            Rank::Same => a@ == b@,
            Rank::After => lex_lt(b@, a@),
        },
{
    let left: Vec<char> = chars_of(a);
    let right: Vec<char> = chars_of(b);
    let n: usize = left.len();
    let m: usize = right.len();
    let mut i: usize = 0;
    while i < n && i < m
        invariant
            left@ == a@,
            right@ == b@,
            n == a@.len(),
            m == b@.len(),
            i <= n,
            i <= m,
            a@.take(i as int) == b@.take(i as int),
        decreases n - i,
    {
        let x: char = char_at(&left, i);
        let y: char = char_at(&right, i);
        if x != y {
            proof {
                lemma_lex_skip(a@, b@, i as int);
                lemma_lex_skip(b@, a@, i as int);
                assert(a@.skip(i as int)[0] == x);
                assert(b@.skip(i as int)[0] == y);
            }
            if (x as u32) < (y as u32) {
                return Rank::Before;
            } else {
                return Rank::After;
            }
        }
        proof {
            assert(a@.take(i + 1) =~= a@.take(i as int).push(x));
            assert(b@.take(i + 1) =~= b@.take(i as int).push(y));
        }
        i += 1;
    }
    proof {
        lemma_lex_skip(a@, b@, i as int);
        lemma_lex_skip(b@, a@, i as int);
        if i == n {
            assert(a@.take(i as int) =~= a@);
        }
        if i == m {
            assert(b@.take(i as int) =~= b@);
        }
    }
    if n < m {
        Rank::Before
    } else if m < n {
        Rank::After
    } else {
        Rank::Same
    }
}

/// The strings of a list, as a set.
pub open spec fn text_set(v: Seq<Seq<char>>) -> Set<Seq<char>> {
    Set::new(|x: Seq<char>| v.contains(x))
}

/// Tells whether a list of strings holds `x`.
pub fn contains_string(v: &Vec<String>, x: &String) -> (r: bool)
    ensures
        r == views(v@).contains(x@),
{
    let mut i: usize = 0;
    while i < v.len()
        invariant
            i <= v@.len(),
            forall|j: int| 0 <= j < i ==> views(v@)[j] != x@,
        decreases v@.len() - i,
    {
        if v[i] == *x {
            proof {
                assert(views(v@)[i as int] == x@);
            }
            return true;
        }
        i += 1;
    }
    false
}

/// A list of strings holds what its first part holds and the string behind
/// that part.
pub proof fn lemma_texts_take(v: Seq<Seq<char>>, j: int, x: Seq<char>)
    requires
        0 <= j < v.len(),
    ensures
        v.take(j + 1).contains(x) <==> v.take(j).contains(x) || v[j] == x,
{
    let longer = v.take(j + 1);
    let shorter = v.take(j);
    if longer.contains(x) {
        let a = choose|a: int| 0 <= a < longer.len() && longer[a] == x;
        if a < j {
            assert(shorter[a] == x);
        }
    }
    if shorter.contains(x) {
        let a = choose|a: int| 0 <= a < shorter.len() && shorter[a] == x;
        assert(longer[a] == x);
    }
    if v[j] == x {
        assert(longer[j] == x);
    }
}

/// The character is white space, as Unicode defines it.
pub open spec fn is_space(c: char) -> bool {
    let u = c as u32;
    (0x09 <= u <= 0x0D) || u == 0x20 || u == 0x85 || u == 0xA0 || u == 0x1680 || (0x2000 <= u
        <= 0x200A) || u == 0x2028 || u == 0x2029 || u == 0x202F || u == 0x205F || u == 0x3000
}

/// Tells whether a character is white space.
pub fn is_space_char(c: char) -> (r: bool)
    ensures
        r == is_space(c),
{
    let u: u32 = c as u32;
    (0x09 <= u && u <= 0x0D) || u == 0x20 || u == 0x85 || u == 0xA0 || u == 0x1680 || (0x2000
        <= u && u <= 0x200A) || u == 0x2028 || u == 0x2029 || u == 0x202F || u == 0x205F || u
        == 0x3000
}

/// `s` without the white space at its start.
pub open spec fn trim_start(s: Seq<char>) -> Seq<char>
    decreases s.len(),
{
    if s.len() > 0 && is_space(s[0]) {
        trim_start(s.drop_first())
    } else {
        s
    }
}

/// `s` without the white space at its end.
pub open spec fn trim_end(s: Seq<char>) -> Seq<char>
    decreases s.len(),
{
    if s.len() > 0 && is_space(s.last()) {
        trim_end(s.drop_last())
    } else {
        s
    }
}

/// `s` without the white space at its start and at its end.
pub open spec fn trimmed(s: Seq<char>) -> Seq<char> {
    trim_end(trim_start(s))
}

/// The position of the first `c` in `s`, or the length of `s` if it holds
/// none.
pub open spec fn first_at(s: Seq<char>, c: char) -> int
    decreases s.len(),
{
    if s.len() == 0 || s[0] == c {
        0
    } else {
        1 + first_at(s.drop_first(), c)
    }
}

/// The first `c` is where no earlier character is `c`.
pub proof fn lemma_first_at(s: Seq<char>, c: char)
    ensures
        0 <= first_at(s, c) <= s.len(),
        first_at(s, c) < s.len() ==> s[first_at(s, c)] == c,
        forall|i: int| 0 <= i < first_at(s, c) ==> s[i] != c,
    decreases s.len(),
{
    if s.len() > 0 && s[0] != c {
        let rest = s.drop_first();
        lemma_first_at(rest, c);
        assert forall|i: int| 0 <= i < first_at(s, c) implies s[i] != c by {
            if i > 0 {
                assert(rest[i - 1] == s[i]);
            }
        }
    }
}

/// A position with `c` before which there is no `c` is the first.
pub proof fn lemma_first_at_is(s: Seq<char>, c: char, p: int)
    requires
        0 <= p <= s.len(),
        p < s.len() ==> s[p] == c,
        forall|i: int| 0 <= i < p ==> s[i] != c,
    ensures
        first_at(s, c) == p,
{
    lemma_first_at(s, c);
    let q = first_at(s, c);
    if q < p {
    } else if p < q {
    }
}

/// The bounds of the part `lo..hi` of `v` without the white space at its
/// start and end.
pub fn trim_range(v: &Vec<char>, lo: usize, hi: usize) -> (r: (usize, usize))
    requires
        lo <= hi <= v@.len(),
    ensures
        lo <= r.0 <= r.1 <= hi,
        v@.subrange(r.0 as int, r.1 as int) == trimmed(v@.subrange(lo as int, hi as int)),
{
    let mut a: usize = lo;
    while a < hi && is_space_char(char_at(v, a))
        invariant
            lo <= a <= hi <= v@.len(),
            trim_start(v@.subrange(lo as int, hi as int)) == trim_start(
                v@.subrange(a as int, hi as int),
            ),
        decreases hi - a,
    {
        proof {
            let part = v@.subrange(a as int, hi as int);
            assert(part[0] == v@[a as int]);
            assert(part.drop_first() =~= v@.subrange(a + 1, hi as int));
        }
        a += 1;
    }
    proof {
        let part = v@.subrange(a as int, hi as int);
        if a < hi {
            assert(part[0] == v@[a as int]);
        }
        assert(trim_start(part) == part);
    }
    let mut b: usize = hi;
    while a < b && is_space_char(char_at(v, b - 1))
        invariant
            a <= b <= hi <= v@.len(),
            trim_end(v@.subrange(a as int, hi as int)) == trim_end(
                v@.subrange(a as int, b as int),
            ),
        decreases b - a,
    {
        proof {
            let part = v@.subrange(a as int, b as int);
            assert(part.last() == v@[b - 1]);
            assert(part.drop_last() =~= v@.subrange(a as int, b - 1));
        }
        b -= 1;
    }
    proof {
        let part = v@.subrange(a as int, b as int);
        if a < b {
            assert(part.last() == v@[b - 1]);
        }
        assert(trim_end(part) == part);
    }
    (a, b)
}

/// The position of the first `c` in the part `lo..hi` of `v`, or `hi` if the
/// part holds none.
pub fn find_char(v: &Vec<char>, c: char, lo: usize, hi: usize) -> (r: usize)
    requires
        lo <= hi <= v@.len(),
    ensures
        lo <= r <= hi,
        r == lo + first_at(v@.subrange(lo as int, hi as int), c),
{
    let mut i: usize = lo;
    while i < hi && char_at(v, i) != c
        invariant
            lo <= i <= hi <= v@.len(),
            forall|j: int| lo <= j < i ==> v@[j] != c,
        decreases hi - i,
    {
        i += 1;
    }
    proof {
        let part = v@.subrange(lo as int, hi as int);
        assert forall|j: int| 0 <= j < i - lo implies part[j] != c by {
            assert(part[j] == v@[lo + j]);
        }
        if i < hi {
            assert(part[i - lo] == v@[i as int]);
        }
        lemma_first_at_is(part, c, i - lo);
    }
    i
}

/// The characters `from..to` of `s`, as a string of their own.
pub fn slice_string(s: &str, from: usize, to: usize) -> (r: String)
    requires
        from <= to <= s@.len(),
    ensures
        r@ == s@.subrange(from as int, to as int),
{
    String::from_str(s.substring_char(from, to))
}

/// The parts of a list joined into one string, with `sep` between them.
pub open spec fn joined(parts: Seq<Seq<char>>, sep: Seq<char>) -> Seq<char>
    decreases parts.len(),
{
    if parts.len() == 0 {
        Seq::empty()
    } else if parts.len() == 1 {
        parts[0]
    } else {
        joined(parts.drop_last(), sep) + sep + parts.last()
    }
}

/// Joins strings into one, with `sep` between them.
pub fn join_strings(parts: &[String], sep: &str) -> (r: String)
    ensures
        r@ == joined(views(parts@), sep@),
{
    let ghost all = views(parts@);
    let mut out: String = String::new();
    let mut i: usize = 0;
    proof {
        assert(all.take(0) =~= Seq::<Seq<char>>::empty());
    }
    while i < parts.len()
        invariant
            all == views(parts@),
            i <= parts@.len(),
            out@ == joined(all.take(i as int), sep@),
        decreases parts@.len() - i,
    {
        proof {
            assert(all.take(i + 1).drop_last() =~= all.take(i as int));
            assert(all.take(i + 1).last() == parts@[i as int]@);
            if i == 0 {
                assert(all.take(1)[0] == parts@[0]@);
                assert(Seq::<char>::empty() + parts@[0]@ =~= parts@[0]@);
            }
        }
        if i > 0 {
            out.append(sep);
        }
        out.append(parts[i].as_str());
        i += 1;
    }
    proof {
        assert(all.take(all.len() as int) =~= all);
    }
    out
}

/// The position at which `needle` first occurs in `s`, or the length of
/// `s` if it does not occur.
pub open spec fn first_match(s: Seq<char>, needle: Seq<char>) -> int
    decreases s.len(),
{
    if s.len() < needle.len() {
        s.len() as int
    } else if is_prefix(needle, s) || s.len() == 0 {
        0
    } else {
        1 + first_match(s.drop_first(), needle)
    }
}

/// The position at which `needle` first occurs in the part `lo..hi` of `v`,
/// or `hi` if it does not occur there.
pub fn find_text(v: &Vec<char>, needle: &Vec<char>, lo: usize, hi: usize) -> (r: usize)
    requires
        lo <= hi <= v@.len(),
    ensures
        lo <= r <= hi,
        r == lo + first_match(v@.subrange(lo as int, hi as int), needle@),
        r < hi ==> r + needle@.len() <= hi,
{
    let m: usize = needle.len();
    let mut i: usize = lo;
    loop
        invariant
            lo <= i <= hi <= v@.len(),
            m == needle@.len(),
            first_match(v@.subrange(lo as int, hi as int), needle@) == (i - lo) + first_match(
                v@.subrange(i as int, hi as int),
                needle@,
            ),
        decreases hi - i,
    {
        let ghost part = v@.subrange(i as int, hi as int);
        if hi - i < m {
            return hi;
        }
        let mut j: usize = 0;
        while j < m && char_at(v, i + j) == char_at(needle, j)
            invariant
                i + m <= hi <= v@.len(),
                m == needle@.len(),
                j <= m,
                part == v@.subrange(i as int, hi as int),
                forall|k: int| 0 <= k < j ==> part[k] == needle@[k],
            decreases m - j,
        {
            proof {
                assert(part[j as int] == v@[i + j]);
            }
            j += 1;
        }
        if j == m {
            proof {
                assert(part.subrange(0, m as int) =~= needle@);
            }
            return i;
        }
        proof {
            assert(part[j as int] == v@[i + j]);
            assert(part.subrange(0, m as int)[j as int] == part[j as int]);
            assert(!is_prefix(needle@, part));
            assert(part.drop_first() =~= v@.subrange(i + 1, hi as int));
        }
        i += 1;
    }
}

/// Those of `xs` that are not in `ys`, in order.
pub open spec fn without(xs: Seq<Seq<char>>, ys: Seq<Seq<char>>) -> Seq<Seq<char>>
    decreases xs.len(),
{
    if xs.len() == 0 {
        Seq::empty()
    } else if ys.contains(xs.last()) {
        without(xs.drop_last(), ys)
    } else {
        without(xs.drop_last(), ys).push(xs.last())
    }
}

/// What is left of `xs` without `ys` is what is in `xs` and not in `ys`.
pub proof fn lemma_without(xs: Seq<Seq<char>>, ys: Seq<Seq<char>>, x: Seq<char>)
    ensures
        without(xs, ys).contains(x) <==> xs.contains(x) && !ys.contains(x),
    decreases xs.len(),
{
    if xs.len() == 0 {
        assert(!without(xs, ys).contains(x));
        assert(!xs.contains(x));
    } else {
        let init = xs.drop_last();
        lemma_without(init, ys, x);
        assert(xs.take(xs.len() - 1) =~= init);
        assert(xs.take(xs.len() as int) =~= xs);
        lemma_texts_take(xs, xs.len() - 1, x);
        if !ys.contains(xs.last()) {
            let all = without(xs, ys);
            let prev = without(init, ys);
            assert(all.take(prev.len() as int) =~= prev);
            assert(all.take(prev.len() as int + 1) =~= all);
            lemma_texts_take(all, prev.len() as int, x);
        }
    }
}

/// Those of `xs` that are not in `ys`, in order.
pub fn difference(xs: &Vec<String>, ys: &Vec<String>) -> (r: Vec<String>)
    ensures
        views(r@) == without(views(xs@), views(ys@)),
{
    let ghost all = views(xs@);
    let mut out: Vec<String> = Vec::new();
    let mut i: usize = 0;
    proof {
        assert(all.take(0) =~= Seq::<Seq<char>>::empty());
        assert(views(out@) =~= Seq::<Seq<char>>::empty());
    }
    while i < xs.len()
        invariant
            all == views(xs@),
            i <= xs@.len(),
            views(out@) == without(all.take(i as int), views(ys@)),
        decreases xs@.len() - i,
    {
        let ghost before = views(out@);
        proof {
            assert(all.take(i + 1).drop_last() =~= all.take(i as int));
            assert(all.take(i + 1).last() == xs@[i as int]@);
        }
        if !contains_string(ys, &xs[i]) {
            out.push(xs[i].clone());
            proof {
                assert(views(out@) =~= before.push(xs@[i as int]@));
            }
        }
        i += 1;
    }
    proof {
        assert(all.take(all.len() as int) =~= all);
    }
    out
}

/// Tells whether the part `lo..hi` of `v` is the text `w`.
pub fn range_equals(v: &Vec<char>, lo: usize, hi: usize, w: &Vec<char>) -> (r: bool)
    requires
        lo <= hi <= v@.len(),
    ensures
        r == (v@.subrange(lo as int, hi as int) == w@),
{
    if hi - lo != w.len() {
        return false;
    }
    let ghost part = v@.subrange(lo as int, hi as int);
    let mut i: usize = 0;
    while i < w.len()
        invariant
            lo <= hi <= v@.len(),
            hi - lo == w@.len(),
            part == v@.subrange(lo as int, hi as int),
            i <= w@.len(),
            forall|j: int| 0 <= j < i ==> part[j] == w@[j],
        decreases w@.len() - i,
    {
        if char_at(v, lo + i) != char_at(w, i) {
            proof {
                assert(part[i as int] == v@[lo + i]);
            }
            return false;
        }
        proof {
            assert(part[i as int] == v@[lo + i]);
        }
        i += 1;
    }
    proof {
        assert(part =~= w@);
    }
    true
}

/// The character that stands for a digit.
pub open spec fn digit_char(d: int) -> char {
    if d == 0 {
        '0'
    } else if d == 1 {
        '1'
    } else if d == 2 {
        '2'
    } else if d == 3 {
        '3'
    } else if d == 4 {
        '4'
    } else if d == 5 {
        '5'
    } else if d == 6 {
        '6'
    } else if d == 7 {
        '7'
    } else if d == 8 {
        '8'
    } else {
        '9'
    }
}

/// A natural number written in decimal.
pub open spec fn decimal_nat(n: nat) -> Seq<char>
    decreases n,
{
    if n < 10 {
        seq![digit_char(n as int)]
    } else {
        decimal_nat(n / 10).push(digit_char((n % 10) as int))
    }
}

/// An integer written in decimal, with a minus sign in front if it is
/// negative.
pub open spec fn decimal(n: int) -> Seq<char> {
    if n < 0 {
        seq!['-'] + decimal_nat((-n) as nat)
    } else {
        decimal_nat(n as nat)
    }
}

fn digit_text(d: u64) -> (r: &'static str)
    requires
        d < 10,
    ensures
        r@ == seq![digit_char(d as int)],
{
    proof {
        reveal_strlit("0");
        reveal_strlit("1");
        reveal_strlit("2");
        reveal_strlit("3");
        reveal_strlit("4");
        reveal_strlit("5");
        reveal_strlit("6");
        reveal_strlit("7");
        reveal_strlit("8");
        reveal_strlit("9");
    }
    let r: &'static str = if d == 0 {
        "0"
    } else if d == 1 {
        "1"
    } else if d == 2 {
        "2"
    } else if d == 3 {
        "3"
    } else if d == 4 {
        "4"
    } else if d == 5 {
        "5"
    } else if d == 6 {
        "6"
    } else if d == 7 {
        "7"
    } else if d == 8 {
        "8"
    } else {
        "9"
    };
    proof {
        assert(r@ =~= seq![digit_char(d as int)]);
    }
    r
}

/// Writes an integer in decimal.
pub fn i64_to_string(n: i64) -> (r: String)
    ensures
        r@ == decimal(n as int),
{
    let size: u64 = if n < 0 {
        (-(n as i128)) as u64
    } else {
        n as u64
    };
    let mut rest: u64 = size;
    let mut digits: String = String::new();
    while rest >= 10
        invariant
            decimal_nat(size as nat) == decimal_nat(rest as nat) + digits@,
        decreases rest,
    {
        let d: u64 = rest % 10;
        let ghost before = digits@;
        digits = String::from_str(digit_text(d)).concat(digits.as_str());
        proof {
            assert(decimal_nat(rest as nat) == decimal_nat((rest / 10) as nat).push(
                digit_char(d as int),
            ));
            assert(decimal_nat((rest / 10) as nat).push(digit_char(d as int)) + before
                =~= decimal_nat((rest / 10) as nat) + digits@);
        }
        rest = rest / 10;
    }
    let ghost tail_digits = digits@;
    digits = String::from_str(digit_text(rest)).concat(digits.as_str());
    proof {
        assert(digits@ =~= decimal_nat(size as nat));
    }
    if n < 0 {
        proof {
            reveal_strlit("-");
            assert("-"@ =~= seq!['-']);
        }
        String::from_str("-").concat(digits.as_str())
    } else {
        digits
    }
}

/// What stands behind the last `c` in `s`; all of `s` if it holds no `c`.
pub open spec fn after_last(s: Seq<char>, c: char) -> Seq<char>
    decreases s.len(),
{
    if s.len() == 0 || s.last() == c {
        Seq::empty()
    } else {
        after_last(s.drop_last(), c).push(s.last())
    }
}

/// What stands behind the last `c` in `s`.
pub fn text_after_last(s: &str, c: char) -> (r: String)
    ensures
        r@ == after_last(s@, c),
{
    let text: Vec<char> = chars_of(s);
    let n: usize = text.len();
    let mut start: usize = n;
    proof {
        assert(text@.subrange(n as int, n as int) =~= Seq::<char>::empty());
        assert(text@.take(n as int) =~= text@);
    }
    while start > 0 && char_at(&text, start - 1) != c
        invariant
            text@ == s@,
            n == text@.len(),
            start <= n,
            after_last(s@, c) == after_last(text@.take(start as int), c) + text@.subrange(
                start as int,
                n as int,
            ),
        decreases start,
    {
        proof {
            let part = text@.take(start as int);
            assert(part.last() == text@[start - 1]);
            assert(part.drop_last() =~= text@.take(start - 1));
            assert(after_last(part.drop_last(), c).push(part.last()) + text@.subrange(
                start as int,
                n as int,
            ) =~= after_last(part.drop_last(), c) + text@.subrange(start - 1, n as int));
        }
        start -= 1;
    }
    proof {
        let part = text@.take(start as int);
        if start > 0 {
            assert(part.last() == text@[start - 1]);
        }
        assert(after_last(part, c) =~= Seq::<char>::empty());
        assert(Seq::<char>::empty() + text@.subrange(start as int, n as int) =~= text@.subrange(
            start as int,
            n as int,
        ));
    }
    slice_string(s, start, n)
}

} // verus!
