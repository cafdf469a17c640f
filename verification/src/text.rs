//! Text: splitting, trimming, numbers, and the sequences that contracts are
//! written with.
//!
//! A string stands for the sequence of its characters. Each executable
//! function here has a specification function of the same name, and returns
//! what that function says.

use vstd::prelude::*;

verus! {

/// `String::push` appends one character at the end and changes nothing else.
pub assume_specification[ String::push ](s: &mut String, c: char)
    ensures
        final(s)@ == old(s)@.push(c),
;

// ---------------------------------------------------------------------------
// Sequences built index by index
// ---------------------------------------------------------------------------

/// The pieces `f(0)`, `f(1)`, .., `f(n - 1)` one behind the other.
pub open spec fn concat<T>(n: nat, f: spec_fn(int) -> Seq<T>) -> Seq<T>
    decreases n,
{
    if n == 0 {
        Seq::empty()
    } else {
        concat((n - 1) as nat, f) + f(n - 1)
    }
}

/// The values that `f` gives for the indices below `n`, in order, without the
/// indices for which it gives none.
pub open spec fn collect<T>(n: nat, f: spec_fn(int) -> Option<T>) -> Seq<T>
    decreases n,
{
    if n == 0 {
        Seq::empty()
    } else {
        match f(n - 1) {
            Some(x) => collect((n - 1) as nat, f).push(x),
            None => collect((n - 1) as nat, f),
        }
    }
}

/// What `f` gives for the first index below `n` for which it gives anything.
pub open spec fn first_some<T>(n: nat, f: spec_fn(int) -> Option<T>) -> Option<T>
    decreases n,
{
    if n == 0 {
        None
    } else {
        match first_some((n - 1) as nat, f) {
            Some(x) => Some(x),
            None => f(n - 1),
        }
    }
}

/// Pieces of one length `c` lie where that length puts them.
pub proof fn lemma_concat_even<T>(n: nat, f: spec_fn(int) -> Seq<T>, c: nat, i: int, k: int)
    requires
        forall|j: int| 0 <= j < n ==> (#[trigger] f(j)).len() == c,
        0 <= i < n,
        0 <= k < c,
    ensures
        concat(n, f).len() == n * c,
        i * c + k < n * c,
        concat(n, f)[i * c + k] == f(i)[k],
    decreases n,
{
    lemma_concat_len((n - 1) as nat, f, c);
    assert(n * c == (n - 1) * c + c) by (nonlinear_arith)
        requires
            n >= 1,
    ;
    assert(f(n - 1).len() == c);
    if i < n - 1 {
        lemma_concat_even((n - 1) as nat, f, c, i, k);
    } else {
        assert(i == n - 1);
    }
}

/// `n` pieces of one length `c`.
pub proof fn lemma_concat_len<T>(n: nat, f: spec_fn(int) -> Seq<T>, c: nat)
    requires
        forall|j: int| 0 <= j < n ==> (#[trigger] f(j)).len() == c,
    ensures
        concat(n, f).len() == n * c,
    decreases n,
{
    if n > 0 {
        lemma_concat_len((n - 1) as nat, f, c);
        assert(f(n - 1).len() == c);
        assert(n * c == (n - 1) * c + c) by (nonlinear_arith)
            requires
                n >= 1,
        ;
    } else {
        assert(0 * c == 0) by (nonlinear_arith);
    }
}

/// Whatever stands in the whole stands in one of the pieces.
pub proof fn lemma_concat_member<T>(n: nat, f: spec_fn(int) -> Seq<T>, e: int)
    requires
        0 <= e < concat(n, f).len(),
    ensures
        exists|i: int| 0 <= i < n && (#[trigger] f(i)).contains(concat(n, f)[e]),
    decreases n,
{
    if n > 0 {
        let prior = concat((n - 1) as nat, f);
        if e < prior.len() {
            lemma_concat_member((n - 1) as nat, f, e);
            let i = choose|i: int| 0 <= i < n - 1 && (#[trigger] f(i)).contains(prior[e]);
            assert(f(i).contains(concat(n, f)[e]));
        } else {
            assert(f(n - 1)[e - prior.len()] == concat(n, f)[e]);
            assert(f(n - 1).contains(concat(n, f)[e]));
        }
    }
}

/// What a piece holds, the whole holds too.
pub proof fn lemma_concat_has<T>(n: nat, f: spec_fn(int) -> Seq<T>, i: int, x: T)
    requires
        0 <= i < n,
        f(i).contains(x),
    ensures
        concat(n, f).contains(x),
    decreases n,
{
    let prior = concat((n - 1) as nat, f);
    if i < n - 1 {
        lemma_concat_has((n - 1) as nat, f, i, x);
        let e = choose|e: int| 0 <= e < prior.len() && prior[e] == x;
        assert(concat(n, f)[e] == x);
    } else {
        let piece = f(i);
        let e = choose|e: int| 0 <= e < piece.len() && piece[e] == x;
        assert(concat(n, f)[prior.len() + e] == x);
    }
}

/// What stands in one order in a piece stands in that order in the whole.
pub proof fn lemma_concat_keeps_order<T>(n: nat, f: spec_fn(int) -> Seq<T>, i: int, j: int, k: int)
    requires
        0 <= i < n,
        0 <= j < k < f(i).len(),
    ensures
        exists|x: int, y: int|
            0 <= x < y < concat(n, f).len() && #[trigger] concat(n, f)[x] == f(i)[j] && #[trigger] concat(
                n,
                f,
            )[y] == f(i)[k],
    decreases n,
{
    let prior = concat((n - 1) as nat, f);
    if i < n - 1 {
        lemma_concat_keeps_order((n - 1) as nat, f, i, j, k);
        let (x, y) = choose|x: int, y: int|
            0 <= x < y < prior.len() && #[trigger] prior[x] == f(i)[j] && #[trigger] prior[y] == f(i)[k];
        assert(concat(n, f)[x] == f(i)[j] && concat(n, f)[y] == f(i)[k]);
    } else {
        assert(concat(n, f)[prior.len() + j] == f(i)[j] && concat(n, f)[prior.len() + k] == f(i)[k]);
    }
}

/// Every collected value is the value of some index.
pub proof fn lemma_collected<T>(n: nat, f: spec_fn(int) -> Option<T>, e: int)
    requires
        0 <= e < collect(n, f).len(),
    ensures
        exists|k: int| 0 <= k < n && #[trigger] f(k) == Some(collect(n, f)[e]),
    decreases n,
{
    if n > 0 {
        let prior = collect((n - 1) as nat, f);
        if e < prior.len() {
            lemma_collected((n - 1) as nat, f, e);
            let k = choose|k: int| 0 <= k < n - 1 && #[trigger] f(k) == Some(prior[e]);
            assert(f(k) == Some(collect(n, f)[e]));
        } else {
            assert(f(n - 1) == Some(collect(n, f)[e]));
        }
    }
}

/// The value of every index that has one is collected.
pub proof fn lemma_collects<T>(n: nat, f: spec_fn(int) -> Option<T>, k: int)
    requires
        0 <= k < n,
        f(k) is Some,
    ensures
        collect(n, f).contains(f(k)->0),
    decreases n,
{
    if k < n - 1 {
        lemma_collects((n - 1) as nat, f, k);
        let prior = collect((n - 1) as nat, f);
        let e = choose|e: int| 0 <= e < prior.len() && prior[e] == f(k)->0;
        assert(collect(n, f)[e] == f(k)->0);
    } else {
        assert(collect(n, f).last() == f(k)->0);
    }
}

/// Once there is a first value, further indices do not change it.
pub proof fn lemma_first_some<T>(m: nat, n: nat, f: spec_fn(int) -> Option<T>)
    requires
        m <= n,
        first_some(m, f) is Some,
    ensures
        first_some(n, f) == first_some(m, f),
    decreases n - m,
{
    if m < n {
        lemma_first_some(m, (n - 1) as nat, f);
    }
}

/// There is no first value just where there is no value.
pub proof fn lemma_first_some_none<T>(n: nat, f: spec_fn(int) -> Option<T>)
    ensures
        first_some(n, f) is None <==> forall|i: int| 0 <= i < n ==> #[trigger] f(i) is None,
    decreases n,
{
    if n > 0 {
        lemma_first_some_none((n - 1) as nat, f);
        if first_some(n, f) is None {
            assert forall|i: int| 0 <= i < n implies #[trigger] f(i) is None by {
                if i < n - 1 {
                }
            }
        }
    }
}

/// The characters of each string.
pub open spec fn texts(v: Seq<String>) -> Seq<Seq<char>> {
    Seq::new(v.len(), |i: int| v[i]@)
}

/// The characters of an optional string.
pub open spec fn text_opt(s: Option<String>) -> Option<Seq<char>> {
    match s {
        Some(x) => Some(x@),
        None => None,
    }
}

/// The characters of an optional string slice.
pub open spec fn str_opt(s: Option<&str>) -> Option<Seq<char>> {
    match s {
        Some(x) => Some(x@),
        None => None,
    }
}

/// The error text of a result that carries nothing else.
pub open spec fn failure(r: Result<(), String>) -> Option<Seq<char>> {
    match r {
        Ok(_) => None,
        Err(e) => Some(e@),
    }
}

// ---------------------------------------------------------------------------
// Characters
// ---------------------------------------------------------------------------

pub open spec fn is_digit(c: char) -> bool {
    '0' <= c && c <= '9'
}

pub open spec fn is_lower(c: char) -> bool {
    'a' <= c && c <= 'z'
}

pub open spec fn is_upper(c: char) -> bool {
    'A' <= c && c <= 'Z'
}

pub open spec fn is_alphanumeric(c: char) -> bool {
    is_digit(c) || is_lower(c) || is_upper(c)
}

pub open spec fn is_hex(c: char) -> bool {
    is_digit(c) || ('a' <= c && c <= 'f') || ('A' <= c && c <= 'F')
}

/// The characters with the Unicode property White_Space.
pub open spec fn is_white(c: char) -> bool {
    let n = c as u32;
    ||| 0x09 <= n <= 0x0d
    ||| n == 0x20
    ||| n == 0x85
    ||| n == 0xa0
    ||| n == 0x1680
    ||| 0x2000 <= n <= 0x200a
    ||| n == 0x2028
    ||| n == 0x2029
    ||| n == 0x202f
    ||| n == 0x205f
    ||| n == 0x3000
}

/// Whether a character is white space.
pub fn white(c: char) -> (r: bool)
    ensures
        r == is_white(c),
{
    let n: u32 = c as u32;
    (0x09 <= n && n <= 0x0d) || n == 0x20 || n == 0x85 || n == 0xa0 || n == 0x1680 || (0x2000 <= n
        && n <= 0x200a) || n == 0x2028 || n == 0x2029 || n == 0x202f || n == 0x205f || n == 0x3000
}

// ---------------------------------------------------------------------------
// Characters of a string, and back
// ---------------------------------------------------------------------------

/// The characters of a string.
pub fn chars_of(s: &str) -> (r: Vec<char>)
    ensures
        r@ == s@,
{
    let mut v: Vec<char> = Vec::new();
    for c in it: s.chars()
        invariant
            it.seq() == s@,
            v@ == s@.take(it.index() as int),
    {
        v.push(c);
    }
    assert(s@.take(s@.len() as int) == s@);
    v
}

/// The string of the characters from `from` up to `to`.
pub fn slice_text(v: &Vec<char>, from: usize, to: usize) -> (r: String)
    requires
        from <= to <= v@.len(),
    ensures
        r@ == v@.subrange(from as int, to as int),
{
    let mut s = String::new();
    let mut i: usize = from;
    while i < to
        invariant
            from <= i <= to <= v@.len(),
            s@ == v@.subrange(from as int, i as int),
        decreases to - i,
    {
        s.push(v[i]);
        assert(v@.subrange(from as int, i + 1) == v@.subrange(from as int, i as int).push(v@[i as int]));
        i = i + 1;
    }
    s
}

/// The same strings again.
pub fn copy_texts(v: &Vec<String>) -> (r: Vec<String>)
    ensures
        texts(r@) == texts(v@),
        r@.len() == v@.len(),
{
    let mut out: Vec<String> = Vec::new();
    let mut i: usize = 0;
    while i < v.len()
        invariant
            i <= v@.len(),
            out@.len() == i,
            forall|j: int| 0 <= j < i ==> (#[trigger] out@[j])@ == v@[j]@,
        decreases v@.len() - i,
    {
        out.push(v[i].clone());
        i = i + 1;
    }
    assert(texts(out@) == texts(v@));
    out
}

/// Whether one of the strings has these characters.
pub fn holds_text(v: &Vec<String>, s: &str) -> (r: bool)
    ensures
        r == texts(v@).contains(s@),
{
    let mut i: usize = 0;
    while i < v.len()
        invariant
            i <= v@.len(),
            forall|j: int| 0 <= j < i ==> #[trigger] texts(v@)[j] != s@,
        decreases v@.len() - i,
    {
        assert(texts(v@)[i as int] == v@[i as int]@);
        if same(v[i].as_str(), s) {
            return true;
        }
        i = i + 1;
    }
    false
}

/// The same string again, where there is one.
pub fn copy_opt(s: &Option<String>) -> (r: Option<String>)
    ensures
        text_opt(r) == text_opt(*s),
{
    match s {
        Some(x) => Some(x.clone()),
        None => None,
    }
}

/// A slice of a string, where there is one.
pub fn as_opt(s: &Option<String>) -> (r: Option<&str>)
    ensures
        str_opt(r) == text_opt(*s),
{
    match s {
        Some(x) => Some(x.as_str()),
        None => None,
    }
}

/// Whether an optional string is there and has these characters.
pub fn is_text(s: &Option<String>, t: &str) -> (r: bool)
    ensures
        r == (text_opt(*s) == Some(t@)),
{
    match s {
        Some(x) => same(x.as_str(), t),
        None => false,
    }
}

/// Whether two strings have the same characters.
pub fn same(a: &str, b: &str) -> (r: bool)
    ensures
        r == (a@ == b@),
{
    let x: String = a.to_owned();
    let y: String = b.to_owned();
    x == y
}

// ---------------------------------------------------------------------------
// Searching and splitting
// ---------------------------------------------------------------------------

/// The place of the first `c`, or the length where there is none.
pub open spec fn first(s: Seq<char>, c: char) -> nat
    decreases s.len(),
{
    if s.len() == 0 || s[0] == c {
        0
    } else {
        1 + first(s.skip(1), c)
    }
}

/// The number of characters up to and with the last `c`, or 0 where there is
/// none.
pub open spec fn past_last(s: Seq<char>, c: char) -> nat
    decreases s.len(),
{
    if s.len() == 0 {
        0
    } else if s.last() == c {
        s.len()
    } else {
        past_last(s.drop_last(), c)
    }
}

/// What stands before the first `c` and what stands after it.
pub open spec fn split_once(s: Seq<char>, c: char) -> Option<(Seq<char>, Seq<char>)> {
    if s.contains(c) {
        Some((s.take(first(s, c) as int), s.skip(first(s, c) as int + 1)))
    } else {
        None
    }
}

/// What stands before the last `c` and what stands after it.
pub open spec fn rsplit_once(s: Seq<char>, c: char) -> Option<(Seq<char>, Seq<char>)> {
    if s.contains(c) {
        Some((s.take(past_last(s, c) - 1), s.skip(past_last(s, c) as int)))
    } else {
        None
    }
}

/// What stands before the first `c`, or everything where there is none.
pub open spec fn before(s: Seq<char>, c: char) -> Seq<char> {
    s.take(first(s, c) as int)
}

/// The parts of `s` between one `c` and the next.
pub open spec fn split(s: Seq<char>, c: char) -> Seq<Seq<char>>
    decreases s.len(),
{
    if s.contains(c) && past_last(s, c) > 0 && past_last(s, c) <= s.len() {
        split(s.take(past_last(s, c) - 1), c).push(s.skip(past_last(s, c) as int))
    } else {
        seq![s]
    }
}

pub open spec fn starts_with(s: Seq<char>, p: Seq<char>) -> bool {
    p.len() <= s.len() && s.take(p.len() as int) == p
}

pub open spec fn ends_with(s: Seq<char>, p: Seq<char>) -> bool {
    p.len() <= s.len() && s.skip(s.len() - p.len()) == p
}

/// Whether `p` stands in `s` at place `i`.
pub open spec fn occurs_at(s: Seq<char>, p: Seq<char>, i: int) -> bool {
    0 <= i && i + p.len() <= s.len() && s.subrange(i, i + p.len()) == p
}

/// Whether `p` stands anywhere in `s`.
pub open spec fn occurs(s: Seq<char>, p: Seq<char>) -> bool {
    exists|i: int| occurs_at(s, p, i)
}

/// `first` is where the first `c` stands.
pub proof fn lemma_first(s: Seq<char>, c: char)
    ensures
        first(s, c) <= s.len(),
        s.contains(c) <==> first(s, c) < s.len(),
        first(s, c) < s.len() ==> s[first(s, c) as int] == c,
        forall|j: int| 0 <= j < first(s, c) ==> s[j] != c,
    decreases s.len(),
{
    if s.len() == 0 || s[0] == c {
    } else {
        let t = s.skip(1);
        lemma_first(t, c);
        assert forall|j: int| 0 <= j < first(s, c) implies s[j] != c by {
            if j > 0 {
                assert(t[j - 1] == s[j]);
            }
        }
        if s.contains(c) {
            let k = choose|k: int| 0 <= k < s.len() && s[k] == c;
            assert(t[k - 1] == c);
        }
    }
}

/// A `c` with none before it is the first one.
pub proof fn lemma_first_is(s: Seq<char>, c: char, i: int)
    requires
        0 <= i <= s.len(),
        i < s.len() ==> s[i] == c,
        forall|j: int| 0 <= j < i ==> s[j] != c,
    ensures
        first(s, c) == i,
        s.contains(c) <==> i < s.len(),
{
    lemma_first(s, c);
}

/// `past_last` is just behind the last `c`.
pub proof fn lemma_past_last(s: Seq<char>, c: char)
    ensures
        past_last(s, c) <= s.len(),
        s.contains(c) <==> past_last(s, c) > 0,
        past_last(s, c) > 0 ==> s[past_last(s, c) - 1] == c,
        forall|j: int| past_last(s, c) <= j < s.len() ==> s[j] != c,
    decreases s.len(),
{
    if s.len() == 0 || s.last() == c {
    } else {
        let t = s.drop_last();
        lemma_past_last(t, c);
        if s.contains(c) {
            let k = choose|k: int| 0 <= k < s.len() && s[k] == c;
            assert(t[k] == c);
        }
        assert forall|j: int| past_last(s, c) <= j < s.len() implies s[j] != c by {
            if j < t.len() {
                assert(t[j] == s[j]);
            }
        }
    }
}

/// A `c` with none behind it is the last one.
pub proof fn lemma_past_last_is(s: Seq<char>, c: char, i: int)
    requires
        0 <= i <= s.len(),
        i > 0 ==> s[i - 1] == c,
        forall|j: int| i <= j < s.len() ==> s[j] != c,
    ensures
        past_last(s, c) == i,
        s.contains(c) <==> i > 0,
{
    lemma_past_last(s, c);
}

/// The place of the first `c` in the characters `v`, or their number.
pub fn find(v: &Vec<char>, c: char) -> (r: usize)
    ensures
        r == first(v@, c),
        r <= v@.len(),
        v@.contains(c) <==> r < v@.len(),
{
    let mut i: usize = 0;
    while i < v.len() && v[i] != c
        invariant
            i <= v@.len(),
            forall|j: int| 0 <= j < i ==> v@[j] != c,
        decreases v@.len() - i,
    {
        i = i + 1;
    }
    proof {
        lemma_first_is(v@, c, i as int);
    }
    i
}

/// The number of characters up to and with the last `c`.
pub fn find_past_last(v: &Vec<char>, c: char) -> (r: usize)
    ensures
        r == past_last(v@, c),
        r <= v@.len(),
        v@.contains(c) <==> r > 0,
{
    let mut i: usize = v.len();
    while i > 0 && v[i - 1] != c
        invariant
            i <= v@.len(),
            forall|j: int| i <= j < v@.len() ==> v@[j] != c,
        decreases i,
    {
        i = i - 1;
    }
    proof {
        lemma_past_last_is(v@, c, i as int);
    }
    i
}

/// Whether `c` stands in `s`.
pub fn has_char(s: &str, c: char) -> (r: bool)
    ensures
        r == s@.contains(c),
{
    let v = chars_of(s);
    find(&v, c) < v.len()
}

/// What stands before the first `c` and what stands after it.
pub fn cut(s: &str, c: char) -> (r: Option<(String, String)>)
    ensures
        match r {
            Some((a, b)) => split_once(s@, c) == Some((a@, b@)),
            None => split_once(s@, c) is None,
        },
{
    let v = chars_of(s);
    let i = find(&v, c);
    if i < v.len() {
        let a = slice_text(&v, 0, i);
        let b = slice_text(&v, i + 1, v.len());
        assert(s@.take(i as int) == v@.subrange(0, i as int));
        assert(s@.skip(i + 1) == v@.subrange(i + 1, v@.len() as int));
        Some((a, b))
    } else {
        None
    }
}

/// What stands before the last `c` and what stands after it.
pub fn rcut(s: &str, c: char) -> (r: Option<(String, String)>)
    ensures
        match r {
            Some((a, b)) => rsplit_once(s@, c) == Some((a@, b@)),
            None => rsplit_once(s@, c) is None,
        },
{
    let v = chars_of(s);
    let i = find_past_last(&v, c);
    if i > 0 {
        let a = slice_text(&v, 0, i - 1);
        let b = slice_text(&v, i, v.len());
        assert(s@.take(i - 1) == v@.subrange(0, i - 1));
        assert(s@.skip(i as int) == v@.subrange(i as int, v@.len() as int));
        Some((a, b))
    } else {
        None
    }
}

/// What stands before the first `c`, or everything where there is none.
pub fn head(s: &str, c: char) -> (r: String)
    ensures
        r@ == before(s@, c),
{
    let v = chars_of(s);
    let i = find(&v, c);
    assert(s@.take(i as int) == v@.subrange(0, i as int));
    slice_text(&v, 0, i)
}

/// One `c` splits off the last part.
pub proof fn lemma_split_last(s: Seq<char>, c: char, i: int)
    requires
        0 < i <= s.len(),
        s[i - 1] == c,
        forall|j: int| i <= j < s.len() ==> s[j] != c,
    ensures
        split(s, c) == split(s.take(i - 1), c).push(s.skip(i)),
{
    lemma_past_last_is(s, c, i);
}

/// A text without `c` is its only part.
pub proof fn lemma_split_none(s: Seq<char>, c: char)
    requires
        forall|j: int| 0 <= j < s.len() ==> s[j] != c,
    ensures
        split(s, c) == seq![s],
{
    lemma_past_last_is(s, c, 0);
}

/// The parts of `s` between one `c` and the next.
pub fn parts(s: &str, c: char) -> (r: Vec<String>)
    ensures
        texts(r@) == split(s@, c),
        r@.len() >= 1,
{
    let v = chars_of(s);
    let mut out: Vec<String> = Vec::new();
    let mut from: usize = 0;
    let mut i: usize = 0;
    proof {
        assert(texts(out@) == Seq::<Seq<char>>::empty());
    }
    while i < v.len()
        invariant
            v@ == s@,
            from <= i <= v@.len(),
            forall|j: int| from <= j < i ==> v@[j] != c,
            from > 0 ==> v@[from - 1] == c,
            from == 0 ==> out@.len() == 0,
            from > 0 ==> texts(out@) == split(v@.take(from - 1), c),
        decreases v@.len() - i,
    {
        if v[i] == c {
            let part = slice_text(&v, from, i);
            let ghost before = out@;
            let ghost pre = v@.take(i as int);
            out.push(part);
            proof {
                if from == 0 {
                    assert(pre == part@);
                    lemma_split_none(pre, c);
                    assert(texts(out@) == seq![pre]);
                } else {
                    lemma_split_last(pre, c, from as int);
                    assert(pre.take(from - 1) == v@.take(from - 1));
                    assert(pre.skip(from as int) == part@);
                    assert(texts(out@) == texts(before).push(part@));
                }
            }
            from = i + 1;
        }
        i = i + 1;
    }
    let part = slice_text(&v, from, v.len());
    let ghost before = out@;
    out.push(part);
    proof {
        if from == 0 {
            assert(v@ == part@);
            lemma_split_none(v@, c);
            assert(texts(out@) == seq![v@]);
        } else {
            lemma_split_last(v@, c, from as int);
            assert(v@.skip(from as int) == part@);
            assert(texts(out@) == texts(before).push(part@));
        }
    }
    out
}

/// Whether `s` starts with `p`.
pub fn begins(s: &str, p: &str) -> (r: bool)
    ensures
        r == starts_with(s@, p@),
{
    let v = chars_of(s);
    let q = chars_of(p);
    if q.len() > v.len() {
        return false;
    }
    let mut i: usize = 0;
    while i < q.len()
        invariant
            v@ == s@,
            q@ == p@,
            q@.len() <= v@.len(),
            i <= q@.len(),
            forall|j: int| 0 <= j < i ==> v@[j] == q@[j],
        decreases q@.len() - i,
    {
        if v[i] != q[i] {
            assert(s@.take(p@.len() as int)[i as int] != p@[i as int]);
            return false;
        }
        i = i + 1;
    }
    assert(s@.take(p@.len() as int) == p@);
    true
}

/// Whether `s` ends with `p`.
pub fn ends(s: &str, p: &str) -> (r: bool)
    ensures
        r == ends_with(s@, p@),
{
    let v = chars_of(s);
    let q = chars_of(p);
    if q.len() > v.len() {
        return false;
    }
    let n: usize = v.len();
    let d: usize = n - q.len();
    let mut i: usize = 0;
    while i < q.len()
        invariant
            v@ == s@,
            q@ == p@,
            n == v@.len(),
            d == n - q@.len(),
            i <= q@.len(),
            forall|j: int| 0 <= j < i ==> v@[d + j] == q@[j],
        decreases q@.len() - i,
    {
        if v[d + i] != q[i] {
            assert(s@.skip(d as int)[i as int] != p@[i as int]);
            return false;
        }
        i = i + 1;
    }
    assert(s@.skip(d as int) == p@);
    true
}

/// `s` without the prefix `p`, where it starts with it.
pub open spec fn strip_prefix(s: Seq<char>, p: Seq<char>) -> Seq<char> {
    if starts_with(s, p) {
        s.skip(p.len() as int)
    } else {
        s
    }
}

/// `s` without the prefix `p`, where it starts with it.
pub fn strip(s: &str, p: &str) -> (r: String)
    ensures
        r@ == strip_prefix(s@, p@),
{
    if begins(s, p) {
        let v = chars_of(s);
        let q = chars_of(p);
        assert(v@.subrange(q@.len() as int, v@.len() as int) == s@.skip(p@.len() as int));
        slice_text(&v, q.len(), v.len())
    } else {
        s.to_owned()
    }
}

/// Whether `p` stands in the characters `v` at place `i`.
fn matches_at(v: &Vec<char>, q: &Vec<char>, i: usize) -> (r: bool)
    requires
        i <= v@.len(),
    ensures
        r == occurs_at(v@, q@, i as int),
{
    let n: usize = v.len();
    if q.len() > n - i {
        return false;
    }
    let mut j: usize = 0;
    while j < q.len()
        invariant
            n == v@.len(),
            i + q@.len() <= n,
            j <= q@.len(),
            forall|k: int| 0 <= k < j ==> v@[i + k] == q@[k],
        decreases q@.len() - j,
    {
        if v[i + j] != q[j] {
            assert(v@.subrange(i as int, i + q@.len())[j as int] != q@[j as int]);
            return false;
        }
        j = j + 1;
    }
    assert(v@.subrange(i as int, i + q@.len()) == q@);
    true
}

/// Whether `p` stands anywhere in `s`.
pub fn holds(s: &str, p: &str) -> (r: bool)
    ensures
        r == occurs(s@, p@),
{
    let v = chars_of(s);
    let q = chars_of(p);
    let mut i: usize = 0;
    while i < v.len()
        invariant
            v@ == s@,
            q@ == p@,
            i <= v@.len(),
            forall|k: int| 0 <= k < i ==> !occurs_at(s@, p@, k),
        decreases v@.len() - i,
    {
        if matches_at(&v, &q, i) {
            return true;
        }
        i = i + 1;
    }
    matches_at(&v, &q, v.len())
}

// ---------------------------------------------------------------------------
// White space
// ---------------------------------------------------------------------------

pub open spec fn trim_start(s: Seq<char>) -> Seq<char>
    decreases s.len(),
{
    if s.len() > 0 && is_white(s[0]) {
        trim_start(s.skip(1))
    } else {
        s
    }
}

pub open spec fn trim_end(s: Seq<char>) -> Seq<char>
    decreases s.len(),
{
    if s.len() > 0 && is_white(s.last()) {
        trim_end(s.drop_last())
    } else {
        s
    }
}

/// `s` without the white space at its two ends.
pub open spec fn trim(s: Seq<char>) -> Seq<char> {
    trim_end(trim_start(s))
}

/// White space at the start is left out.
pub proof fn lemma_trim_start(s: Seq<char>, i: int)
    requires
        0 <= i <= s.len(),
        forall|j: int| 0 <= j < i ==> is_white(s[j]),
        i < s.len() ==> !is_white(s[i]),
    ensures
        trim_start(s) == s.skip(i),
    decreases i,
{
    if i > 0 {
        let t = s.skip(1);
        assert forall|j: int| 0 <= j < i - 1 implies is_white(t[j]) by {
            assert(t[j] == s[j + 1]);
        }
        lemma_trim_start(t, i - 1);
        assert(t.skip(i - 1) == s.skip(i));
        assert(is_white(s[0]));
    } else {
        assert(s.skip(0) == s);
    }
}

/// White space at the end is left out.
pub proof fn lemma_trim_end(s: Seq<char>, i: int)
    requires
        0 <= i <= s.len(),
        forall|j: int| i <= j < s.len() ==> is_white(s[j]),
        i > 0 ==> !is_white(s[i - 1]),
    ensures
        trim_end(s) == s.take(i),
    decreases s.len() - i,
{
    if i < s.len() {
        let t = s.drop_last();
        assert(is_white(s.last()));
        lemma_trim_end(t, i);
        assert(t.take(i) == s.take(i));
    } else {
        assert(s.take(i) == s);
    }
}

/// `s` without the white space at its start.
pub fn trimmed_start(s: &str) -> (r: String)
    ensures
        r@ == trim_start(s@),
{
    let v = chars_of(s);
    let mut i: usize = 0;
    while i < v.len() && white(v[i])
        invariant
            i <= v@.len(),
            forall|j: int| 0 <= j < i ==> is_white(v@[j]),
        decreases v@.len() - i,
    {
        i = i + 1;
    }
    proof {
        lemma_trim_start(s@, i as int);
        assert(s@.skip(i as int) == v@.subrange(i as int, v@.len() as int));
    }
    slice_text(&v, i, v.len())
}

/// `s` without the white space at its two ends.
pub fn trimmed(s: &str) -> (r: String)
    ensures
        r@ == trim(s@),
{
    let start = trimmed_start(s);
    let v = chars_of(start.as_str());
    let mut i: usize = v.len();
    while i > 0 && white(v[i - 1])
        invariant
            i <= v@.len(),
            forall|j: int| i <= j < v@.len() ==> is_white(v@[j]),
        decreases i,
    {
        i = i - 1;
    }
    proof {
        lemma_trim_end(start@, i as int);
        assert(start@.take(i as int) == v@.subrange(0, i as int));
    }
    slice_text(&v, 0, i)
}

/// The place of the first white space, or the length where there is none.
pub open spec fn first_white(s: Seq<char>) -> nat
    decreases s.len(),
{
    if s.len() == 0 || is_white(s[0]) {
        0
    } else {
        1 + first_white(s.skip(1))
    }
}

/// The words of `s`: its longest runs without white space.
pub open spec fn words(s: Seq<char>) -> Seq<Seq<char>>
    decreases s.len(),
{
    let t = trim_start(s);
    let n = first_white(t);
    if t.len() == 0 || t.len() > s.len() || n == 0 || n > t.len() {
        Seq::empty()
    } else {
        seq![t.take(n as int)] + words(t.skip(n as int))
    }
}

/// White space with none before it is the first.
pub proof fn lemma_first_white(s: Seq<char>, i: int)
    requires
        0 <= i <= s.len(),
        forall|j: int| 0 <= j < i ==> !is_white(s[j]),
        i < s.len() ==> is_white(s[i]),
    ensures
        first_white(s) == i,
    decreases i,
{
    if i > 0 {
        let t = s.skip(1);
        assert forall|j: int| 0 <= j < i - 1 implies !is_white(t[j]) by {
            assert(t[j] == s[j + 1]);
        }
        assert(!is_white(s[0]));
        lemma_first_white(t, i - 1);
    }
}

/// The words of `s`.
pub fn words_of(s: &str) -> (r: Vec<String>)
    ensures
        texts(r@) == words(s@),
{
    let v = chars_of(s);
    let mut out: Vec<String> = Vec::new();
    let mut i: usize = 0;
    proof {
        assert(v@.skip(0) == v@);
        assert(texts(out@) + words(v@) == words(v@));
    }
    while i < v.len()
        invariant
            v@ == s@,
            i <= v@.len(),
            texts(out@) + words(v@.skip(i as int)) == words(s@),
        decreases v@.len() - i,
    {
        let ghost rest = v@.skip(i as int);
        let mut a: usize = i;
        while a < v.len() && white(v[a])
            invariant
                i <= a <= v@.len(),
                forall|j: int| i <= j < a ==> is_white(v@[j]),
            decreases v@.len() - a,
        {
            a = a + 1;
        }
        let mut b: usize = a;
        while b < v.len() && !white(v[b])
            invariant
                i <= a <= b <= v@.len(),
                forall|j: int| a <= j < b ==> !is_white(v@[j]),
            decreases v@.len() - b,
        {
            b = b + 1;
        }
        proof {
            lemma_trim_start(rest, a - i);
            assert(rest.skip(a - i) == v@.skip(a as int));
            lemma_first_white(v@.skip(a as int), b - a);
        }
        if a < v.len() {
            let word = slice_text(&v, a, b);
            let ghost old_out = out@;
            out.push(word);
            proof {
                let t = v@.skip(a as int);
                assert(t.take(b - a) == word@);
                assert(t.skip(b - a) == v@.skip(b as int));
                assert(words(rest) == seq![word@] + words(v@.skip(b as int)));
                assert(texts(out@) == texts(old_out).push(word@));
                assert(texts(out@) + words(v@.skip(b as int)) == texts(old_out) + words(rest));
            }
        } else {
            proof {
                assert(words(rest) == Seq::<Seq<char>>::empty());
                assert(v@.skip(b as int).len() == 0);
                assert(trim_start(v@.skip(b as int)) == v@.skip(b as int));
                assert(words(v@.skip(b as int)) == Seq::<Seq<char>>::empty());
            }
        }
        i = b;
    }
    proof {
        assert(v@.skip(i as int).len() == 0);
        assert(trim_start(v@.skip(i as int)) == v@.skip(i as int));
        assert(words(v@.skip(i as int)) == Seq::<Seq<char>>::empty());
        assert(texts(out@) + Seq::<Seq<char>>::empty() == texts(out@));
    }
    out
}

// ---------------------------------------------------------------------------
// Lines
// ---------------------------------------------------------------------------

/// `s` without one carriage return at its end.
pub open spec fn strip_return(s: Seq<char>) -> Seq<char> {
    if s.len() > 0 && s.last() == '\r' {
        s.drop_last()
    } else {
        s
    }
}

/// The lines of a text: what stands between line ends, each without the
/// carriage return before its end; what follows the last end is a line where
/// it is not empty.
pub open spec fn lines(s: Seq<char>) -> Seq<Seq<char>> {
    let p = split(s, '\n');
    let ended = Seq::new((p.len() - 1) as nat, |i: int| strip_return(p[i]));
    if p.last().len() > 0 {
        ended.push(p.last())
    } else {
        ended
    }
}

/// The lines of a text.
pub fn lines_of(s: &str) -> (r: Vec<String>)
    ensures
        texts(r@) == lines(s@),
{
    let p = parts(s, '\n');
    let ghost q = split(s@, '\n');
    let n: usize = p.len() - 1;
    let mut out: Vec<String> = Vec::new();
    let mut i: usize = 0;
    while i < n
        invariant
            texts(p@) == q,
            n == p@.len() - 1,
            i <= n,
            out@.len() == i,
            forall|j: int| 0 <= j < i ==> (#[trigger] out@[j])@ == strip_return(q[j]),
        decreases n - i,
    {
        assert(q[i as int] == texts(p@)[i as int]);
        let v = chars_of(p[i].as_str());
        if v.len() > 0 && v[v.len() - 1] == '\r' {
            let line = slice_text(&v, 0, v.len() - 1);
            assert(line@ == q[i as int].drop_last());
            out.push(line);
        } else {
            out.push(p[i].clone());
        }
        i = i + 1;
    }
    let ghost ended = Seq::new((q.len() - 1) as nat, |i: int| strip_return(q[i]));
    assert(texts(out@) == ended);
    assert(q.last() == texts(p@)[n as int]);
    let v = chars_of(p[n].as_str());
    if v.len() > 0 {
        add_text(&mut out, p[n].clone());
    }
    out
}

/// A line with its end.
pub open spec fn ended(lines: Seq<Seq<char>>) -> spec_fn(int) -> Seq<char> {
    |i: int| lines[i] + "\n"@
}

/// The lines one below the other, each with its end.
pub open spec fn lines_text(lines: Seq<Seq<char>>) -> Seq<char> {
    concat(lines.len(), ended(lines))
}

/// The lines one below the other, each with its end.
pub fn write_lines(lines: &Vec<String>) -> (r: String)
    ensures
        r@ == lines_text(texts(lines@)),
{
    let mut out = String::new();
    let mut i: usize = 0;
    while i < lines.len()
        invariant
            i <= lines@.len(),
            out@ == concat(i as nat, ended(texts(lines@))),
        decreases lines@.len() - i,
    {
        assert(texts(lines@)[i as int] == lines@[i as int]@);
        let line = lines[i].clone().concat("\n");
        out.append(line.as_str());
        i = i + 1;
    }
    out
}

/// Adds one string at the end.
pub fn add_text(v: &mut Vec<String>, s: String)
    ensures
        texts(final(v)@) == texts(old(v)@).push(s@),
        final(v)@ == old(v)@.push(s),
{
    v.push(s);
    assert(texts(v@) == texts(old(v)@).push(s@));
}

/// Adds the strings of another list at the end.
pub fn add_texts(v: &mut Vec<String>, more: &Vec<String>)
    ensures
        texts(final(v)@) == texts(old(v)@) + texts(more@),
{
    let ghost base = texts(v@);
    let mut i: usize = 0;
    assert(base + texts(more@).take(0) == base);
    while i < more.len()
        invariant
            i <= more@.len(),
            texts(v@) == base + texts(more@).take(i as int),
        decreases more@.len() - i,
    {
        add_text(v, more[i].clone());
        assert(texts(v@) == base + texts(more@).take(i + 1));
        i = i + 1;
    }
    assert(texts(more@).take(i as int) == texts(more@));
}

// ---------------------------------------------------------------------------
// Joining and case
// ---------------------------------------------------------------------------

/// The parts with `sep` between each and the next.
pub open spec fn join(parts: Seq<Seq<char>>, sep: Seq<char>) -> Seq<char>
    decreases parts.len(),
{
    if parts.len() == 0 {
        Seq::empty()
    } else if parts.len() == 1 {
        parts[0]
    } else {
        join(parts.drop_last(), sep) + sep + parts.last()
    }
}

/// The parts with `sep` between each and the next.
pub fn joined(parts: &Vec<String>, sep: &str) -> (r: String)
    ensures
        r@ == join(texts(parts@), sep@),
{
    let mut out = String::new();
    let mut i: usize = 0;
    proof {
        assert(texts(parts@).take(0) == Seq::<Seq<char>>::empty());
    }
    while i < parts.len()
        invariant
            i <= parts@.len(),
            out@ == join(texts(parts@).take(i as int), sep@),
        decreases parts@.len() - i,
    {
        let ghost now = texts(parts@).take(i as int + 1);
        proof {
            assert(now.drop_last() == texts(parts@).take(i as int));
            assert(now.last() == parts@[i as int]@);
        }
        if i > 0 {
            out.append(sep);
        }
        out.append(parts[i].as_str());
        proof {
            if i == 0 {
                assert(now[0] == out@);
            }
        }
        i = i + 1;
    }
    proof {
        assert(texts(parts@).take(i as int) == texts(parts@));
    }
    out
}

/// The lower-case letter of an upper-case ASCII letter, any other character
/// as it is.
pub open spec fn lower_char(c: char) -> char {
    if is_upper(c) {
        ((c as u32) + 32) as char
    } else {
        c
    }
}

/// `s` with its upper-case ASCII letters in lower case.
pub open spec fn lower(s: Seq<char>) -> Seq<char> {
    Seq::new(s.len(), |i: int| lower_char(s[i]))
}

/// `s` with its upper-case ASCII letters in lower case.
pub fn lowered(s: &str) -> (r: String)
    ensures
        r@ == lower(s@),
{
    let v = chars_of(s);
    let mut out = String::new();
    let mut i: usize = 0;
    while i < v.len()
        invariant
            v@ == s@,
            i <= v@.len(),
            out@ == lower(s@).take(i as int),
        decreases v@.len() - i,
    {
        let c = v[i];
        let d: char = if 'A' <= c && c <= 'Z' {
            ((c as u8) + 32) as char
        } else {
            c
        };
        out.push(d);
        proof {
            assert(lower(s@).take(i + 1) == lower(s@).take(i as int).push(lower_char(s@[i as int])));
        }
        i = i + 1;
    }
    proof {
        assert(lower(s@).take(i as int) == lower(s@));
    }
    out
}

// ---------------------------------------------------------------------------
// Order
// ---------------------------------------------------------------------------

/// Whether `a` comes no later than `b`, character by character.
pub open spec fn in_order(a: Seq<char>, b: Seq<char>) -> bool
    decreases a.len(),
{
    if a.len() == 0 {
        true
    } else if b.len() == 0 {
        false
    } else if a[0] != b[0] {
        a[0] < b[0]
    } else {
        in_order(a.skip(1), b.skip(1))
    }
}

/// Whether each text comes no later than those behind it.
pub open spec fn sorted(t: Seq<Seq<char>>) -> bool {
    forall|i: int, j: int| 0 <= i < j < t.len() ==> in_order(#[trigger] t[i], #[trigger] t[j])
}

/// The order is decided where the two first differ.
proof fn lemma_in_order(a: Seq<char>, b: Seq<char>, k: int)
    requires
        0 <= k <= a.len(),
        k <= b.len(),
        forall|j: int| 0 <= j < k ==> a[j] == b[j],
        k < a.len() && k < b.len() ==> a[k] != b[k],
    ensures
        in_order(a, b) == (k == a.len() || (k < b.len() && a[k] < b[k])),
    decreases k,
{
    if k > 0 {
        let x = a.skip(1);
        let y = b.skip(1);
        assert(a[0] == b[0]);
        assert forall|j: int| 0 <= j < k - 1 implies x[j] == y[j] by {
            assert(a[j + 1] == b[j + 1]);
        }
        lemma_in_order(x, y, k - 1);
    }
}

/// Of two texts, one comes no later than the other.
proof fn lemma_order_total(a: Seq<char>, b: Seq<char>)
    ensures
        in_order(a, b) || in_order(b, a),
    decreases a.len(),
{
    if a.len() > 0 && b.len() > 0 && a[0] == b[0] {
        lemma_order_total(a.skip(1), b.skip(1));
    }
}

proof fn lemma_order_transitive(a: Seq<char>, b: Seq<char>, c: Seq<char>)
    requires
        in_order(a, b),
        in_order(b, c),
    ensures
        in_order(a, c),
    decreases a.len(),
{
    if a.len() > 0 && b.len() > 0 && c.len() > 0 && a[0] == b[0] && b[0] == c[0] {
        lemma_order_transitive(a.skip(1), b.skip(1), c.skip(1));
    }
}

proof fn lemma_order_antisymmetric(a: Seq<char>, b: Seq<char>)
    requires
        in_order(a, b),
        in_order(b, a),
    ensures
        a == b,
    decreases a.len(),
{
    if a.len() > 0 {
        lemma_order_antisymmetric(a.skip(1), b.skip(1));
        assert(a == seq![a[0]] + a.skip(1));
        assert(b == seq![b[0]] + b.skip(1));
    }
}

/// There is one way to put texts in order.
pub proof fn lemma_sorted_is_unique(a: Seq<Seq<char>>, b: Seq<Seq<char>>)
    requires
        sorted(a),
        sorted(b),
        a.to_multiset() == b.to_multiset(),
    ensures
        a == b,
{
    let leq = |x: Seq<char>, y: Seq<char>| in_order(x, y);
    assert forall|x: Seq<char>| #[trigger] leq(x, x) by {
        lemma_order_total(x, x);
    }
    assert forall|x: Seq<char>, y: Seq<char>| #[trigger] leq(x, y) && #[trigger] leq(y, x) implies x == y by {
        lemma_order_antisymmetric(x, y);
    }
    assert forall|x: Seq<char>, y: Seq<char>, z: Seq<char>| #[trigger] leq(x, y) && #[trigger] leq(y, z)
        implies leq(x, z) by {
        lemma_order_transitive(x, y, z);
    }
    assert forall|x: Seq<char>, y: Seq<char>| #[trigger] leq(x, y) || #[trigger] leq(y, x) by {
        lemma_order_total(x, y);
    }
    vstd::seq_lib::lemma_sorted_unique(a, b, leq);
}

/// Whether `a` comes no later than `b`.
pub fn precedes(a: &str, b: &str) -> (r: bool)
    ensures
        r == in_order(a@, b@),
{
    let x = chars_of(a);
    let y = chars_of(b);
    let mut k: usize = 0;
    while k < x.len() && k < y.len() && x[k] == y[k]
        invariant
            k <= x@.len(),
            k <= y@.len(),
            forall|j: int| 0 <= j < k ==> x@[j] == y@[j],
        decreases x@.len() - k,
    {
        k = k + 1;
    }
    proof {
        lemma_in_order(x@, y@, k as int);
    }
    k == x.len() || (k < y.len() && x[k] < y[k])
}

/// The texts in order.
pub fn sort_texts(v: &Vec<String>) -> (r: Vec<String>)
    ensures
        sorted(texts(r@)),
        texts(r@).to_multiset() == texts(v@).to_multiset(),
{
    let mut out: Vec<String> = Vec::new();
    let mut i: usize = 0;
    assert(texts(out@) == texts(v@).take(0));
    while i < v.len()
        invariant
            i <= v@.len(),
            sorted(texts(out@)),
            texts(out@).to_multiset() == texts(v@).take(i as int).to_multiset(),
        decreases v@.len() - i,
    {
        let ghost t = texts(out@);
        let ghost x = v@[i as int]@;
        let mut k: usize = 0;
        while k < out.len() && precedes(out[k].as_str(), v[i].as_str())
            invariant
                i < v@.len(),
                k <= out@.len(),
                t == texts(out@),
                x == v@[i as int]@,
                forall|j: int| 0 <= j < k ==> in_order(#[trigger] t[j], x),
            decreases out@.len() - k,
        {
            assert(t[k as int] == out@[k as int]@);
            k = k + 1;
        }
        out.insert(k, v[i].clone());
        proof {
            let u = texts(out@);
            assert(u == t.insert(k as int, x));
            if k < t.len() {
                lemma_order_total(t[k as int], x);
            }
            assert forall|a: int, b: int| 0 <= a < b < u.len() implies in_order(
                #[trigger] u[a],
                #[trigger] u[b],
            ) by {
                if a == k {
                    assert(u[b] == t[b - 1]);
                    if b - 1 > k {
                        assert(in_order(t[k as int], t[b - 1]));
                        lemma_order_transitive(x, t[k as int], t[b - 1]);
                    }
                } else if b == k {
                    assert(u[a] == t[a]);
                } else {
                    let p = if a < k {
                        a
                    } else {
                        a - 1
                    };
                    let q = if b < k {
                        b
                    } else {
                        b - 1
                    };
                    assert(u[a] == t[p] && u[b] == t[q]);
                }
            }
            assert(texts(v@).take(i + 1) == texts(v@).take(i as int).push(x));
            texts(v@).take(i as int).to_multiset_ensures();
            lemma_insert_multiset(t, k as int, x);
        }
        i = i + 1;
    }
    assert(texts(v@).take(i as int) == texts(v@));
    out
}

proof fn lemma_insert_multiset(t: Seq<Seq<char>>, k: int, x: Seq<char>)
    requires
        0 <= k <= t.len(),
    ensures
        t.insert(k, x).to_multiset() == t.to_multiset().insert(x),
{
    let a = t.take(k);
    let b = t.skip(k);
    assert(t == a + b);
    assert(t.insert(k, x) == a.push(x) + b);
    vstd::seq_lib::lemma_multiset_commutative(a, b);
    vstd::seq_lib::lemma_multiset_commutative(a.push(x), b);
    a.to_multiset_ensures();
    assert(a.push(x).to_multiset() =~= a.to_multiset().insert(x));
}

// ---------------------------------------------------------------------------
// Numbers
// ---------------------------------------------------------------------------

/// The digit of a number below 16.
pub open spec fn digit_char(d: nat) -> char {
    if d < 10 {
        (('0' as u32) + d) as char
    } else {
        (('a' as u32) + d - 10) as char
    }
}

/// The digit of a number below 16.
pub fn to_digit(d: u8) -> (r: char)
    requires
        d < 16,
    ensures
        r == digit_char(d as nat),
{
    if d < 10 {
        (48 + d) as char
    } else {
        (87 + d) as char
    }
}

/// The digits of `n` to the base `base`, without a leading zero.
pub open spec fn digits(n: nat, base: nat) -> Seq<char>
    decreases n,
{
    if base < 2 {
        Seq::empty()
    } else if n < base {
        seq![digit_char(n)]
    } else {
        proof {
            assert(n / base < n) by (nonlinear_arith)
                requires
                    2 <= base,
                    base <= n,
            ;
        }
        digits((n / base) as nat, base).push(digit_char((n % base) as nat))
    }
}

/// `n` in decimal.
pub open spec fn decimal(n: nat) -> Seq<char> {
    digits(n, 10)
}

/// The digits of `n` to the base `base`.
pub fn digits_of(n: u64, base: u64) -> (r: String)
    requires
        2 <= base <= 16,
    ensures
        r@ == digits(n as nat, base as nat),
    decreases n,
{
    if n < base {
        let mut s = String::new();
        s.push(to_digit(n as u8));
        assert(s@ == seq![digit_char(n as nat)]);
        s
    } else {
        assert(n / base < n) by (nonlinear_arith)
            requires
                2 <= base,
                base <= n,
        ;
        let mut s = digits_of(n / base, base);
        s.push(to_digit((n % base) as u8));
        s
    }
}

/// `n` in decimal.
pub fn print(n: u64) -> (r: String)
    ensures
        r@ == decimal(n as nat),
{
    digits_of(n, 10)
}

/// The number that a digit stands for.
pub open spec fn digit_value(c: char) -> nat {
    if is_digit(c) {
        (c as u32 - '0' as u32) as nat
    } else if 'a' <= c && c <= 'f' {
        (c as u32 - 'a' as u32 + 10) as nat
    } else {
        (c as u32 - 'A' as u32 + 10) as nat
    }
}

/// The number that a hexadecimal digit stands for.
pub fn from_digit(c: char) -> (r: u8)
    requires
        is_hex(c),
    ensures
        r == digit_value(c),
        r < 16,
        is_digit(c) ==> r < 10,
{
    if '0' <= c && c <= '9' {
        (c as u8) - 48
    } else if 'a' <= c && c <= 'f' {
        (c as u8) - 87
    } else {
        (c as u8) - 55
    }
}

/// The number that the digits of `s` stand for.
pub open spec fn value(s: Seq<char>, base: nat) -> nat
    decreases s.len(),
{
    if s.len() == 0 {
        0
    } else {
        value(s.drop_last(), base) * base + digit_value(s.last())
    }
}

pub open spec fn all_digits(s: Seq<char>) -> bool {
    forall|i: int| 0 <= i < s.len() ==> is_digit(#[trigger] s[i])
}

/// The unsigned number that `s` writes in decimal, with or without a plus
/// sign, where it is no greater than `max`.
pub open spec fn parse_unsigned(s: Seq<char>, max: nat) -> Option<nat> {
    let t = if s.len() > 0 && s[0] == '+' {
        s.skip(1)
    } else {
        s
    };
    if t.len() > 0 && all_digits(t) && value(t, 10) <= max {
        Some(value(t, 10))
    } else {
        None
    }
}

/// The digits of a number write it: none is left out, and none is added.
pub proof fn lemma_digits(n: nat, base: nat)
    requires
        2 <= base <= 16,
    ensures
        digits(n, base).len() >= 1,
        value(digits(n, base), base) == n,
        forall|i: int| 0 <= i < digits(n, base).len() ==> is_hex(#[trigger] digits(n, base)[i]),
        base <= 10 ==> all_digits(digits(n, base)),
        n > 0 ==> digits(n, base)[0] != '0',
        n < base ==> digits(n, base).len() == 1,
    decreases n,
{
    let d = digits(n, base);
    if n < base {
        assert(d.drop_last() == Seq::<char>::empty());
        let none = value(d.drop_last(), base);
        assert(none * base == 0) by (nonlinear_arith)
            requires
                none == 0,
        ;
        assert(digit_value(digit_char(n)) == n);
    } else {
        let q = (n / base) as nat;
        let r = (n % base) as nat;
        assert(0 < q < n && r < base && n == q * base + r) by (nonlinear_arith)
            requires
                2 <= base,
                base <= n,
                q == n / base,
                r == n % base,
        ;
        lemma_digits(q, base);
        let t = digits(q, base);
        assert(d == t.push(digit_char(r)));
        assert(d.drop_last() == t);
        assert(digit_value(digit_char(r)) == r);
        assert(d[0] == t[0]);
        assert forall|i: int| 0 <= i < d.len() implies is_hex(#[trigger] d[i]) by {
            if i < t.len() {
                assert(d[i] == t[i]);
            }
        }
        if base <= 10 {
            assert forall|i: int| 0 <= i < d.len() implies is_digit(#[trigger] d[i]) by {
                if i < t.len() {
                    assert(d[i] == t[i]);
                }
            }
        }
    }
}

/// What stands behind the last `c` is the last part.
pub proof fn lemma_split_behind(s: Seq<char>, c: char, t: Seq<char>)
    requires
        forall|j: int| 0 <= j < t.len() ==> t[j] != c,
    ensures
        split(s + seq![c] + t, c) == split(s, c).push(t),
{
    let u = s + seq![c] + t;
    let i = s.len() + 1;
    assert forall|j: int| i <= j < u.len() implies u[j] != c by {
        assert(u[j] == t[j - i]);
    }
    lemma_split_last(u, c, i as int);
    assert(u.take(i - 1) == s);
    assert(u.skip(i as int) == t);
}

/// More digits never make a number smaller.
pub proof fn lemma_value_grows(s: Seq<char>, i: int, base: nat)
    requires
        0 <= i <= s.len(),
        base >= 1,
    ensures
        value(s.take(i), base) <= value(s, base),
    decreases s.len() - i,
{
    if i < s.len() {
        let t = s.drop_last();
        lemma_value_grows(t, i, base);
        assert(t.take(i) == s.take(i));
        assert(value(t, base) <= value(t, base) * base) by (nonlinear_arith)
            requires
                base >= 1,
        ;
    } else {
        assert(s.take(i) == s);
    }
}

/// The unsigned number that `s` writes in decimal.
pub fn parse_number(s: &str, max: u64) -> (r: Option<u64>)
    ensures
        match r {
            Some(n) => parse_unsigned(s@, max as nat) == Some(n as nat),
            None => parse_unsigned(s@, max as nat) is None,
        },
        r is Some ==> r->0 <= max,
{
    let v = chars_of(s);
    let from: usize = if v.len() > 0 && v[0] == '+' {
        1
    } else {
        0
    };
    let ghost t = s@.skip(from as int);
    proof {
        assert(s@.skip(0) == s@);
    }
    if from == v.len() {
        return None;
    }
    let mut n: u64 = 0;
    let mut i: usize = from;
    proof {
        assert(t.take(0) == Seq::<char>::empty());
    }
    while i < v.len()
        invariant
            v@ == s@,
            from <= i <= v@.len(),
            t == s@.skip(from as int),
            from == 1 <==> s@.len() > 0 && s@[0] == '+',
            from <= 1,
            t.len() > 0,
            forall|j: int| 0 <= j < i - from ==> is_digit(#[trigger] t[j]),
            n == value(t.take(i - from), 10),
            n <= max,
            s@.skip(0) == s@,
        decreases v@.len() - i,
    {
        let c = v[i];
        assert(c == t[i - from]);
        if !('0' <= c && c <= '9') {
            return None;
        }
        let d: u64 = from_digit(c) as u64;
        let ghost next = t.take(i - from + 1);
        proof {
            assert(next.drop_last() == t.take(i - from));
            assert(next.last() == c);
            lemma_value_grows(t, i - from + 1, 10);
        }
        if n > max / 10 || d > max - n * 10 {
            return None;
        }
        n = n * 10 + d;
        i = i + 1;
    }
    proof {
        assert(t.take(i - from) == t);
    }
    Some(n)
}

/// What an index gives is the first where no index before it gives anything.
pub proof fn lemma_first_some_is<T>(n: nat, f: spec_fn(int) -> Option<T>, k: int)
    requires
        0 <= k < n,
        f(k) is Some,
        forall|i: int| 0 <= i < k ==> #[trigger] f(i) is None,
    ensures
        first_some(n, f) == f(k),
{
    lemma_first_some_none(k as nat, f);
    assert(first_some((k + 1) as nat, f) == f(k));
    lemma_first_some((k + 1) as nat, n, f);
}

/// Where no index gives anything, nothing is collected; and where one does, only
/// that.
pub proof fn lemma_collect_only<T>(n: nat, f: spec_fn(int) -> Option<T>, k: int)
    requires
        forall|i: int| 0 <= i < n && i != k ==> #[trigger] f(i) is None,
    ensures
        0 <= k < n && f(k) is Some ==> collect(n, f) == seq![f(k)->0],
        !(0 <= k < n && f(k) is Some) ==> collect(n, f) == Seq::<T>::empty(),
    decreases n,
{
    if n > 0 {
        lemma_collect_only((n - 1) as nat, f, k);
        assert(n - 1 != k ==> f(n - 1) is None);
    }
}

/// Where two indices give something, more than one value is collected.
pub proof fn lemma_collect_two<T>(n: nat, f: spec_fn(int) -> Option<T>, i: int, j: int)
    requires
        0 <= i < j < n,
        f(i) is Some,
        f(j) is Some,
    ensures
        collect(n, f).len() >= 2,
    decreases n,
{
    if j < n - 1 {
        lemma_collect_two((n - 1) as nat, f, i, j);
    } else {
        lemma_collects((n - 1) as nat, f, i);
    }
}

/// A text splits at the first `c` into what stands before it and behind it.
pub proof fn lemma_split_once(a: Seq<char>, c: char, b: Seq<char>)
    requires
        !a.contains(c),
    ensures
        split_once(a + seq![c] + b, c) == Some((a, b)),
        before(a + seq![c] + b, c) == a,
        before(a, c) == a,
{
    let s = a + seq![c] + b;
    assert forall|j: int| 0 <= j < a.len() implies s[j] != c by {
        assert(a.contains(a[j]));
    }
    lemma_first_is(s, c, a.len() as int);
    assert forall|j: int| 0 <= j < a.len() implies a[j] != c by {
        assert(a.contains(a[j]));
    }
    lemma_first_is(a, c, a.len() as int);
    assert(s.take(a.len() as int) =~= a);
    assert(s.skip(a.len() as int + 1) =~= b);
    assert(a.take(a.len() as int) =~= a);
}

/// The words of a text are the first and those behind the white space that ends
/// it; white space before the first makes no word.
pub proof fn law_words(w: Seq<char>, c: char, d: char, rest: Seq<char>)
    requires
        w.len() > 0,
        forall|j: int| 0 <= j < w.len() ==> !is_white(#[trigger] w[j]),
        is_white(c),
        is_white(d),
    ensures
        words(w) == seq![w],
        words(w + seq![c] + rest) == seq![w] + words(rest),
        words(seq![d] + rest) == words(rest),
        words(Seq::empty()) == Seq::<Seq<char>>::empty(),
{
    let s = w + seq![c] + rest;
    lemma_trim_start(s, 0);
    lemma_trim_start(w, 0);
    assert(s.skip(0) =~= s);
    assert(w.skip(0) =~= w);
    lemma_first_white(s, w.len() as int);
    lemma_first_white(w, w.len() as int);
    assert(s.take(w.len() as int) =~= w);
    assert(w.take(w.len() as int) =~= w);
    assert(w.skip(w.len() as int) =~= Seq::<char>::empty());
    assert(trim_start(Seq::<char>::empty()) == Seq::<char>::empty());
    assert(words(Seq::<char>::empty()) =~= Seq::<Seq<char>>::empty());
    assert(words(w) =~= seq![w]);
    let t = s.skip(w.len() as int);
    assert(t =~= seq![c] + rest);
    lemma_words_behind_white(c, rest);
    lemma_words_behind_white(d, rest);
}

proof fn lemma_words_behind_white(c: char, rest: Seq<char>)
    requires
        is_white(c),
    ensures
        words(seq![c] + rest) == words(rest),
{
    let s = seq![c] + rest;
    assert(s.skip(1) =~= rest);
    assert(trim_start(s) == trim_start(rest));
    lemma_trim_start_len(rest);
}

proof fn lemma_trim_start_len(s: Seq<char>)
    ensures
        trim_start(s).len() <= s.len(),
    decreases s.len(),
{
    if s.len() > 0 && is_white(s[0]) {
        lemma_trim_start_len(s.skip(1));
    }
}

/// White space at either end of a text is left out, and no other.
pub proof fn law_trimming(a: Seq<char>, s: Seq<char>, b: Seq<char>)
    requires
        forall|j: int| 0 <= j < a.len() ==> is_white(#[trigger] a[j]),
        forall|j: int| 0 <= j < b.len() ==> is_white(#[trigger] b[j]),
        s.len() > 0 ==> !is_white(s[0]) && !is_white(s[s.len() - 1]),
        s.len() == 0 ==> b.len() == 0,
    ensures
        trim(a + s + b) == s,
{
    let t = a + s + b;
    assert forall|j: int| 0 <= j < a.len() implies is_white(t[j]) by {
        assert(t[j] == a[j]);
    }
    if s.len() > 0 {
        assert(t[a.len() as int] == s[0]);
    }
    lemma_trim_start(t, a.len() as int);
    let u = t.skip(a.len() as int);
    assert(u =~= s + b);
    assert forall|j: int| s.len() <= j < u.len() implies is_white(u[j]) by {
        assert(u[j] == b[j - s.len()]);
    }
    if s.len() > 0 {
        assert(u[s.len() - 1] == s[s.len() - 1]);
    }
    lemma_trim_end(u, s.len() as int);
    assert(u.take(s.len() as int) =~= s);
}

/// What is put together from parts splits into them again.
pub proof fn law_splitting(s: Seq<char>, c: char, t: Seq<char>)
    requires
        !t.contains(c),
    ensures
        split(t, c) == seq![t],
        split(s + seq![c] + t, c) == split(s, c).push(t),
{
    assert forall|j: int| 0 <= j < t.len() implies t[j] != c by {
        assert(t.contains(t[j]));
    }
    lemma_split_none(t, c);
    lemma_split_behind(s, c, t);
}

/// A number reads back from its digits, in any range that holds it.
pub proof fn law_numbers_read_back(n: nat, max: nat)
    requires
        n <= max,
    ensures
        parse_unsigned(decimal(n), max) == Some(n),
{
    lemma_digits(n, 10);
    let d = decimal(n);
    assert(is_digit(d[0]));
}

/// Texts are ordered by the first character in which they differ, and a text
/// comes before every longer one that begins with it.
pub proof fn law_order_of_texts(p: Seq<char>, a: char, s: Seq<char>, b: char, t: Seq<char>)
    requires
        (a as u32) < (b as u32),
    ensures
        in_order(p + seq![a] + s, p + seq![b] + t),
        !in_order(p + seq![b] + t, p + seq![a] + s),
        in_order(p, p + s),
        s.len() > 0 ==> !in_order(p + s, p),
{
    let k = p.len() as int;
    let x = p + seq![a] + s;
    let y = p + seq![b] + t;
    assert forall|j: int| 0 <= j < k implies x[j] == y[j] by {
        assert(x[j] == p[j] && y[j] == p[j]);
    }
    assert(x[k] == a && y[k] == b);
    lemma_in_order(x, y, k);
    lemma_in_order(y, x, k);
    let z = p + s;
    assert forall|j: int| 0 <= j < k implies p[j] == z[j] by {}
    lemma_in_order(p, z, k);
    lemma_in_order(z, p, k);
}

/// A prefix is left out where there is one, and nothing else is.
pub proof fn law_prefixes_are_left_out(p: Seq<char>, s: Seq<char>)
    ensures
        strip_prefix(p + s, p) == s,
        !starts_with(s, p) ==> strip_prefix(s, p) == s,
{
    let t = p + s;
    assert(t.take(p.len() as int) =~= p);
    assert(t.skip(p.len() as int) =~= s);
}

/// Upper-case ASCII letters become lower-case ones; all else stays.
pub proof fn law_lower_case(s: Seq<char>, i: int)
    requires
        0 <= i < s.len(),
    ensures
        lower(s).len() == s.len(),
        'A' <= s[i] && s[i] <= 'Z' ==> lower(s)[i] as u32 == s[i] as u32 + 32,
        !('A' <= s[i] && s[i] <= 'Z') ==> lower(s)[i] == s[i],
{
}

/// A line is what stands before a line end, without a carriage return at its own
/// end; and what follows the last line end is a line where it is not empty.
pub proof fn law_lines(s: Seq<char>, t: Seq<char>)
    requires
        !t.contains('\n'),
        s.len() > 0 ==> s.last() == '\n',
    ensures
        t.len() > 0 ==> lines(s + t) == lines(s).push(t),
        t.len() == 0 || t.last() != '\r' ==> lines(s + t + seq!['\n']) == lines(s).push(t),
        t.len() > 0 && t.last() == '\r' ==> lines(s + t + seq!['\n']) == lines(s).push(t.drop_last()),
{
    let c = '\n';
    let none = Seq::<char>::empty();
    assert forall|j: int| 0 <= j < t.len() implies t[j] != c by {
        assert(t.contains(t[j]));
    }
    let u = s + t;
    let v = s + t + seq![c];
    lemma_split_behind(u, c, none);
    assert(v + none =~= v);
    assert(u + seq![c] + none =~= v);
    assert(split(v, c) == split(u, c).push(none));
    if s.len() == 0 {
        assert(u =~= t);
        lemma_split_none(t, c);
        lemma_split_none(none, c);
        assert(s =~= none);
        assert(lines(s) =~= Seq::<Seq<char>>::empty());
        assert(split(u, c) =~= seq![t]);
        if t.len() > 0 {
            assert(lines(u) =~= lines(s).push(t));
        }
        assert(lines(v) =~= lines(s).push(strip_return(t)));
    } else {
        let r = s.drop_last();
        lemma_split_behind(r, c, t);
        lemma_split_behind(r, c, none);
        assert(r + seq![c] =~= s);
        assert(r + seq![c] + t =~= u);
        assert(r + seq![c] + none =~= s);
        let q = split(r, c);
        lemma_split_some(r, c);
        assert(split(s, c) == q.push(none));
        assert(split(u, c) == q.push(t));
        if t.len() > 0 {
            assert(lines(u) =~= lines(s).push(t));
        }
        assert(lines(v) =~= lines(s).push(strip_return(t)));
    }
}

/// There is always a first part.
proof fn lemma_split_some(s: Seq<char>, c: char)
    ensures
        split(s, c).len() >= 1,
{
}

/// Parts are joined by what stands between each and the next.
pub proof fn law_joining(parts: Seq<Seq<char>>, sep: Seq<char>, last: Seq<char>)
    ensures
        join(seq![last], sep) == last,
        parts.len() > 0 ==> join(parts.push(last), sep) == join(parts, sep) + sep + last,
        join(Seq::empty(), sep).len() == 0,
{
    assert(parts.push(last).drop_last() =~= parts);
}

/// A text occurs in another where it stands between any two.
pub proof fn law_occurrence(a: Seq<char>, p: Seq<char>, b: Seq<char>)
    ensures
        occurs(a + p + b, p),
{
    let s = a + p + b;
    assert(s.subrange(a.len() as int, (a.len() + p.len()) as int) =~= p);
    assert(occurs_at(s, p, a.len() as int));
}

} // verus!
