//! Character-level helpers for command lines: whitespace, trimming,
//! searching and comparing.
use vstd::prelude::*;

verus! {

broadcast use vstd::string::group_string_axioms;

/// Whether `c` has the Unicode `White_Space` property.
pub open spec fn is_whitespace_spec(c: char) -> bool {
    let v = c as u32;
    ||| 0x09 <= v <= 0x0D
    ||| v == 0x20
    ||| v == 0x85
    ||| v == 0xA0
    ||| v == 0x1680
    ||| 0x2000 <= v <= 0x200A
    ||| v == 0x2028
    ||| v == 0x2029
    ||| v == 0x202F
    ||| v == 0x205F
    ||| v == 0x3000
}

/// Whether `c` has the Unicode `White_Space` property.
pub fn is_whitespace(c: char) -> (ws: bool)
    ensures
        ws == is_whitespace_spec(c),
{
    let v = c as u32;
    (0x09 <= v && v <= 0x0D) || v == 0x20 || v == 0x85 || v == 0xA0 || v == 0x1680 || (0x2000 <= v && v
        <= 0x200A) || v == 0x2028 || v == 0x2029 || v == 0x202F || v == 0x205F || v == 0x3000
}

/// Number of whitespace characters at the start of `s`.
pub open spec fn leading_ws(s: Seq<char>) -> nat
    decreases s.len(),
{
    if s.len() == 0 {
        0
    } else if is_whitespace_spec(s[0]) {
        1 + leading_ws(s.drop_first())
    } else {
        0
    }
}

/// Number of whitespace characters at the end of `s`.
pub open spec fn trailing_ws(s: Seq<char>) -> nat
    decreases s.len(),
{
    if s.len() == 0 {
        0
    } else if is_whitespace_spec(s.last()) {
        1 + trailing_ws(s.drop_last())
    } else {
        0
    }
}

/// `s` without its leading whitespace.
pub open spec fn trim_start(s: Seq<char>) -> Seq<char> {
    s.skip(leading_ws(s) as int)
}

/// `s` without its trailing whitespace.
pub open spec fn trim_end(s: Seq<char>) -> Seq<char> {
    s.take(s.len() - trailing_ws(s))
}

/// `s` without leading and trailing whitespace.
pub open spec fn trim(s: Seq<char>) -> Seq<char> {
    trim_end(trim_start(s))
}

/// Position of the first `c` in `s`, if there is one.
pub open spec fn find_char(s: Seq<char>, c: char) -> Option<int>
    decreases s.len(),
{
    if s.len() == 0 {
        None
    } else if s[0] == c {
        Some(0)
    } else {
        match find_char(s.drop_first(), c) {
            Some(i) => Some(i + 1),
            None => None,
        }
    }
}

/// Whether `s` begins with `prefix`.
pub open spec fn starts_with(s: Seq<char>, prefix: Seq<char>) -> bool {
    prefix.len() <= s.len() && s.take(prefix.len() as int) == prefix
}

/// `leading_ws` counts whitespace only, and stops at the first other character.
pub proof fn lemma_leading_ws(s: Seq<char>)
    ensures
        leading_ws(s) <= s.len(),
        forall|j: int| 0 <= j < leading_ws(s) ==> is_whitespace_spec(#[trigger] s[j]),
        leading_ws(s) < s.len() ==> !is_whitespace_spec(s[leading_ws(s) as int]),
    decreases s.len(),
{
    if s.len() > 0 && is_whitespace_spec(s[0]) {
        lemma_leading_ws(s.drop_first());
        assert forall|j: int| 0 <= j < leading_ws(s) implies is_whitespace_spec(#[trigger] s[j]) by {
            if j > 0 {
                assert(s[j] == s.drop_first()[j - 1]);
            }
        }
    }
}

/// `trailing_ws` counts whitespace only, and stops at the last other character.
pub proof fn lemma_trailing_ws(s: Seq<char>)
    ensures
        trailing_ws(s) <= s.len(),
        forall|j: int| s.len() - trailing_ws(s) <= j < s.len() ==> is_whitespace_spec(#[trigger] s[j]),
        trailing_ws(s) < s.len() ==> !is_whitespace_spec(s[s.len() - trailing_ws(s) - 1]),
    decreases s.len(),
{
    if s.len() > 0 && is_whitespace_spec(s.last()) {
        lemma_trailing_ws(s.drop_last());
        assert forall|j: int| s.len() - trailing_ws(s) <= j < s.len() implies is_whitespace_spec(#[trigger] s[j]) by {
            if j < s.len() - 1 {
                assert(s[j] == s.drop_last()[j]);
            }
        }
    }
}

/// `find_char` gives the first position of `c`, and `None` exactly when
/// `c` does not occur.
pub proof fn lemma_find_char(s: Seq<char>, c: char)
    ensures
        match find_char(s, c) {
            Some(p) => 0 <= p < s.len() && s[p] == c && forall|j: int| 0 <= j < p ==> s[j] != c,
            None => forall|j: int| 0 <= j < s.len() ==> s[j] != c,
        },
    decreases s.len(),
{
    if s.len() > 0 && s[0] != c {
        lemma_find_char(s.drop_first(), c);
        assert forall|j: int| 0 < j < s.len() implies s[j] == s.drop_first()[j - 1] by {}
    }
}

/// In `prefix + rest`, where `prefix` holds no `c` and `rest` starts with
/// `c`, the first `c` stands right after `prefix`.
pub proof fn lemma_find_char_after(prefix: Seq<char>, rest: Seq<char>, c: char)
    requires
        forall|j: int| 0 <= j < prefix.len() ==> prefix[j] != c,
        rest.len() > 0,
        rest[0] == c,
    ensures
        find_char(prefix + rest, c) == Some(prefix.len() as int),
    decreases prefix.len(),
{
    if prefix.len() > 0 {
        assert((prefix + rest).drop_first() =~= prefix.drop_first() + rest);
        lemma_find_char_after(prefix.drop_first(), rest, c);
    }
}

/// A run of `k` spaces.
pub open spec fn spaces(k: nat) -> Seq<char> {
    Seq::new(k, |i: int| ' ')
}

/// Leading spaces vanish when the start of a text is trimmed.
pub proof fn lemma_trim_start_spaces(k: nat, s: Seq<char>)
    ensures
        trim_start(spaces(k) + s) == trim_start(s),
    decreases k,
{
    if k > 0 {
        let t = spaces((k - 1) as nat) + s;
        assert(spaces(k) + s =~= seq![' '] + t);
        assert((seq![' '] + t).drop_first() =~= t);
        assert((seq![' '] + t)[0] == ' ');
        assert(is_whitespace_spec(' '));
        assert(leading_ws(seq![' '] + t) == 1 + leading_ws(t));
        lemma_leading_ws(t);
        assert((seq![' '] + t).skip(leading_ws(seq![' '] + t) as int) =~= t.skip(leading_ws(t) as int));
        lemma_trim_start_spaces((k - 1) as nat, s);
    } else {
        assert(spaces(k) + s =~= s);
    }
}

/// Trimming removes exactly the whitespace at both ends: the result is a
/// contiguous piece of `s`, every character of `s` outside that piece is
/// whitespace, and the piece neither begins nor ends with whitespace.
pub proof fn lemma_trim(s: Seq<char>)
    ensures
        exists|a: int|
            0 <= a && a + trim(s).len() <= s.len() && #[trigger] s.subrange(a, a + trim(s).len()) == trim(s)
                && (forall|j: int| 0 <= j < a ==> is_whitespace_spec(#[trigger] s[j]))
                && (forall|j: int| a + trim(s).len() <= j < s.len() ==> is_whitespace_spec(#[trigger] s[j])),
        trim(s).len() > 0 ==> !is_whitespace_spec(trim(s)[0]) && !is_whitespace_spec(trim(s).last()),
{
    lemma_leading_ws(s);
    let a = leading_ws(s) as int;
    let u = s.skip(a);
    lemma_trailing_ws(u);
    let n = trim(s).len() as int;
    assert(s.subrange(a, a + n) =~= trim(s));
    assert forall|j: int| a + n <= j < s.len() implies is_whitespace_spec(#[trigger] s[j]) by {
        assert(s[j] == u[j - a]);
    }
    if n > 0 {
        assert(trim(s)[0] == u[0]);
        assert(trim(s).last() == u[n - 1]);
    }
}

/// The characters of `s`, in order.
pub fn chars_of(s: &str) -> (v: Vec<char>)
    ensures
        v@ == s@,
{
    let mut v: Vec<char> = Vec::new();
    for c in it: s.chars()
        invariant
            it.seq() == s@,
            v@ == s@.take(it.index()),
    {
        v.push(c);
        assert(v@ =~= s@.take(it.index() + 1));
    }
    assert(s@.take(s@.len() as int) =~= s@);
    v
}

/// Number of whitespace characters at the start of `v[start..end]`.
pub fn count_leading_ws(v: &Vec<char>, start: usize, end: usize) -> (n: usize)
    requires
        start <= end <= v.len(),
    ensures
        n == leading_ws(v@.subrange(start as int, end as int)),
{
    let ghost s = v@.subrange(start as int, end as int);
    let mut i = start;
    while i < end && is_whitespace(v[i])
        invariant
            start <= i <= end <= v.len(),
            s == v@.subrange(start as int, end as int),
            leading_ws(s) == (i - start) + leading_ws(v@.subrange(i as int, end as int)),
        decreases end - i,
    {
        assert(v@.subrange(i as int, end as int).drop_first() =~= v@.subrange(i + 1, end as int));
        i = i + 1;
    }
    i - start
}

/// Number of whitespace characters at the end of `v[start..end]`.
pub fn count_trailing_ws(v: &Vec<char>, start: usize, end: usize) -> (n: usize)
    requires
        start <= end <= v.len(),
    ensures
        n == trailing_ws(v@.subrange(start as int, end as int)),
{
    let ghost s = v@.subrange(start as int, end as int);
    let mut i = end;
    while i > start && is_whitespace(v[i - 1])
        invariant
            start <= i <= end <= v.len(),
            s == v@.subrange(start as int, end as int),
            trailing_ws(s) == (end - i) + trailing_ws(v@.subrange(start as int, i as int)),
        decreases i - start,
    {
        assert(v@.subrange(start as int, i as int).drop_last() =~= v@.subrange(start as int, i - 1));
        i = i - 1;
    }
    end - i
}

/// The bounds `(from, to)` of `v[start..end]` trimmed of whitespace at both ends.
pub fn trim_range(v: &Vec<char>, start: usize, end: usize) -> (bounds: (usize, usize))
    requires
        start <= end <= v.len(),
    ensures
        start <= bounds.0 <= bounds.1 <= end,
        v@.subrange(bounds.0 as int, bounds.1 as int) == trim(v@.subrange(start as int, end as int)),
{
    let ghost s = v@.subrange(start as int, end as int);
    let lead = count_leading_ws(v, start, end);
    proof {
        lemma_leading_ws(s);
    }
    let from = start + lead;
    let trail = count_trailing_ws(v, from, end);
    proof {
        lemma_trailing_ws(v@.subrange(from as int, end as int));
        assert(trim_start(s) =~= v@.subrange(from as int, end as int));
        assert(trim(s) =~= v@.subrange(from as int, (end - trail) as int));
    }
    (from, end - trail)
}

/// Position of the first `c` in `v[start..end]`, counted from `start`.
pub fn find_in_range(v: &Vec<char>, start: usize, end: usize, c: char) -> (pos: Option<usize>)
    requires
        start <= end <= v.len(),
    ensures
        match pos {
            Some(i) => find_char(v@.subrange(start as int, end as int), c) == Some(i as int),
            None => find_char(v@.subrange(start as int, end as int), c) is None,
        },
        pos matches Some(i) ==> i < end - start,
{
    let ghost s = v@.subrange(start as int, end as int);
    let mut i = start;
    while i < end
        invariant
            start <= i <= end <= v.len(),
            s == v@.subrange(start as int, end as int),
            find_char(s, c) == (match find_char(v@.subrange(i as int, end as int), c) {
                Some(k) => Some(k + (i - start)),
                None => None::<int>,
            }),
        decreases end - i,
    {
        if v[i] == c {
            return Some(i - start);
        }
        assert(v@.subrange(i as int, end as int).drop_first() =~= v@.subrange(i + 1, end as int));
        i = i + 1;
    }
    None
}

/// Whether `v[start..end]` equals `w`.
pub fn range_eq(v: &Vec<char>, start: usize, end: usize, w: &Vec<char>) -> (eq: bool)
    requires
        start <= end <= v.len(),
    ensures
        eq == (v@.subrange(start as int, end as int) == w@),
{
    if end - start != w.len() {
        return false;
    }
    let mut i: usize = 0;
    while i < w.len()
        invariant
            start <= end <= v.len(),
            end - start == w.len(),
            i <= w.len(),
            forall|j: int| 0 <= j < i ==> v@[start + j] == w@[j],
        decreases w.len() - i,
    {
        if v[start + i] != w[i] {
            assert(v@.subrange(start as int, end as int)[i as int] != w@[i as int]);
            return false;
        }
        i = i + 1;
    }
    assert(v@.subrange(start as int, end as int) =~= w@);
    true
}

/// Whether `v[start..end]` begins with `w`.
pub fn range_starts_with(v: &Vec<char>, start: usize, end: usize, w: &Vec<char>) -> (yes: bool)
    requires
        start <= end <= v.len(),
    ensures
        yes == starts_with(v@.subrange(start as int, end as int), w@),
{
    if w.len() > end - start {
        return false;
    }
    assert(v@.subrange(start as int, end as int).take(w@.len() as int) =~= v@.subrange(start as int, (start + w.len()) as int));
    range_eq(v, start, start + w.len(), w)
}

/// A copy of `v[start..end]`.
pub fn copy_range(v: &Vec<char>, start: usize, end: usize) -> (out: Vec<char>)
    requires
        start <= end <= v.len(),
    ensures
        out@ == v@.subrange(start as int, end as int),
{
    let mut out: Vec<char> = Vec::new();
    let mut i = start;
    while i < end
        invariant
            start <= i <= end <= v.len(),
            out@ == v@.subrange(start as int, i as int),
        decreases end - i,
    {
        out.push(v[i]);
        assert(out@ =~= v@.subrange(start as int, i + 1));
        i = i + 1;
    }
    out
}

} // verus!
