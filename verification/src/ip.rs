//! Internet addresses: their text form, their prefixes and their classes.
//!
//! An address is a number of 32 or 128 bits. Its text is read and written as
//! the usual dotted and colon notations have it, with the shortest form on
//! output.

use crate::text;
use crate::text::{
    all_digits, chars_of, decimal, digit_char, digits, digits_of, from_digit, is_digit, is_hex,
    lemma_digits, lemma_first_is, lemma_split_behind, lemma_split_none, parse_number, parse_unsigned, parts, print,
    slice_text, split, split_once, texts, value,
};
use vstd::arithmetic::div_mod::lemma_div_denominator;
use vstd::arithmetic::power2::{
    lemma2_to64, lemma_pow2_adds, lemma_pow2_pos, lemma_pow2_strictly_increases, lemma_pow2_unfold, pow2,
};
use vstd::prelude::*;

verus! {

/// An IPv4 or IPv6 address.
#[derive(Clone, Copy, Debug, PartialEq, Eq, Structural)]
pub enum IpAddr {
    V4(u32),
    V6(u128),
}

impl IpAddr {
    /// The number of bits of an address of this family.
    pub open spec fn width(self) -> nat {
        match self {
            IpAddr::V4(_) => 32,
            IpAddr::V6(_) => 128,
        }
    }

    pub open spec fn number(self) -> nat {
        match self {
            IpAddr::V4(a) => a as nat,
            IpAddr::V6(a) => a as nat,
        }
    }
}

// ---------------------------------------------------------------------------
// IPv4 text
// ---------------------------------------------------------------------------

/// The number of one dotted part: up to three digits without a leading zero,
/// at most 255.
pub open spec fn octet_value(s: Seq<char>) -> Option<nat> {
    if 1 <= s.len() <= 3 && all_digits(s) && (s.len() == 1 || s[0] != '0') && value(s, 10) <= 255 {
        Some(value(s, 10))
    } else {
        None
    }
}

/// The IPv4 address that `s` writes: four dotted parts.
pub open spec fn parse_v4(s: Seq<char>) -> Option<u32> {
    let p = split(s, '.');
    if p.len() == 4 && octet_value(p[0]) is Some && octet_value(p[1]) is Some && octet_value(p[2])
        is Some && octet_value(p[3]) is Some {
        Some(
            (octet_value(p[0])->0 * 0x100_0000 + octet_value(p[1])->0 * 0x1_0000 + octet_value(p[2])->0
                * 0x100 + octet_value(p[3])->0) as u32,
        )
    } else {
        None
    }
}

fn octet(s: &str) -> (r: Option<u8>)
    ensures
        match r {
            Some(n) => octet_value(s@) == Some(n as nat),
            None => octet_value(s@) is None,
        },
{
    let v = chars_of(s);
    if v.len() == 0 || v.len() > 3 || v[0] == '+' || (v.len() > 1 && v[0] == '0') {
        return None;
    }
    proof {
        assert(s@[0] == v@[0]);
    }
    match parse_number(s, 255) {
        Some(n) => Some(n as u8),
        None => None,
    }
}

/// The IPv4 address that `s` writes.
pub fn read_v4(s: &str) -> (r: Option<u32>)
    ensures
        r == parse_v4(s@),
{
    let p = parts(s, '.');
    if p.len() != 4 {
        return None;
    }
    let ghost q = split(s@, '.');
    assert(texts(p@)[0] == q[0] && texts(p@)[1] == q[1] && texts(p@)[2] == q[2] && texts(p@)[3]
        == q[3]);
    match (octet(p[0].as_str()), octet(p[1].as_str()), octet(p[2].as_str()), octet(p[3].as_str())) {
        (Some(a), Some(b), Some(c), Some(d)) => Some(
            (a as u32) * 0x100_0000 + (b as u32) * 0x1_0000 + (c as u32) * 0x100 + (d as u32),
        ),
        _ => None,
    }
}

/// One of the four bytes of an IPv4 address, the leading one first.
pub open spec fn octet_of(a: u32, i: int) -> nat {
    if i == 0 {
        (a / 0x100_0000) as nat
    } else if i == 1 {
        (a / 0x1_0000 % 0x100) as nat
    } else if i == 2 {
        (a / 0x100 % 0x100) as nat
    } else {
        (a % 0x100) as nat
    }
}

/// The dotted notation of an IPv4 address.
pub open spec fn text_v4(a: u32) -> Seq<char> {
    decimal(octet_of(a, 0)) + "."@ + decimal(octet_of(a, 1)) + "."@ + decimal(octet_of(a, 2)) + "."@
        + decimal(octet_of(a, 3))
}

/// The dotted notation of an IPv4 address.
pub fn write_v4(a: u32) -> (r: String)
    ensures
        r@ == text_v4(a),
{
    print((a / 0x100_0000) as u64).concat(".").concat(print((a / 0x1_0000 % 0x100) as u64).as_str()).concat(
        ".",
    ).concat(print((a / 0x100 % 0x100) as u64).as_str()).concat(".").concat(
        print((a % 0x100) as u64).as_str(),
    )
}

// ---------------------------------------------------------------------------
// IPv6 text
// ---------------------------------------------------------------------------

/// The number of one part between colons: one to four hexadecimal digits.
pub open spec fn group_value(s: Seq<char>) -> Option<nat> {
    if 1 <= s.len() <= 4 && forall|i: int| 0 <= i < s.len() ==> is_hex(#[trigger] s[i]) {
        Some(value(s, 16))
    } else {
        None
    }
}

/// The numbers of the parts, where each part has one.
pub open spec fn hex_groups(p: Seq<Seq<char>>) -> Option<Seq<nat>>
    decreases p.len(),
{
    if p.len() == 0 {
        Some(Seq::empty())
    } else {
        match (hex_groups(p.drop_last()), group_value(p.last())) {
            (Some(g), Some(n)) => Some(g.push(n)),
            _ => None,
        }
    }
}

/// The numbers of the parts, where the last may be an IPv4 address, which
/// stands for two.
pub open spec fn groups(p: Seq<Seq<char>>) -> Option<Seq<nat>> {
    if p.len() > 0 && parse_v4(p.last()) is Some {
        let a = parse_v4(p.last())->0;
        match hex_groups(p.drop_last()) {
            Some(g) => Some(g.push((a / 0x1_0000) as nat).push((a % 0x1_0000) as nat)),
            None => None,
        }
    } else {
        hex_groups(p)
    }
}

/// The parts between colons, none for the empty text.
pub open spec fn colon_parts(s: Seq<char>) -> Seq<Seq<char>> {
    if s.len() == 0 {
        Seq::empty()
    } else {
        split(s, ':')
    }
}

/// The place of the first two colons in a row, or the length.
pub open spec fn first_gap(s: Seq<char>) -> nat
    decreases s.len(),
{
    if s.len() < 2 {
        s.len()
    } else if s[0] == ':' && s[1] == ':' {
        0
    } else {
        1 + first_gap(s.skip(1))
    }
}

/// The eight groups that `s` writes; two colons in a row stand for the zero
/// groups that are left out.
pub open spec fn groups_of(s: Seq<char>) -> Option<Seq<nat>> {
    let k = first_gap(s) as int;
    if k >= s.len() {
        match groups(split(s, ':')) {
            Some(g) => if g.len() == 8 {
                Some(g)
            } else {
                None
            },
            None => None,
        }
    } else {
        match (hex_groups(colon_parts(s.take(k))), groups(colon_parts(s.skip(k + 2)))) {
            (Some(h), Some(t)) => if h.len() + t.len() <= 7 {
                Some(h + Seq::new((8 - h.len() - t.len()) as nat, |i: int| 0nat) + t)
            } else {
                None
            },
            _ => None,
        }
    }
}

/// The number of eight groups.
pub open spec fn number_of(g: Seq<nat>) -> nat {
    g[0] * 0x1_0000_0000_0000_0000_0000_0000_0000 + g[1] * 0x1_0000_0000_0000_0000_0000_0000 + g[2]
        * 0x1_0000_0000_0000_0000_0000 + g[3] * 0x1_0000_0000_0000_0000 + g[4] * 0x1_0000_0000_0000
        + g[5] * 0x1_0000_0000 + g[6] * 0x1_0000 + g[7]
}

/// The IPv6 address that `s` writes.
pub open spec fn parse_v6(s: Seq<char>) -> Option<u128> {
    match groups_of(s) {
        Some(g) => Some(number_of(g) as u128),
        None => None,
    }
}

/// The address that `s` writes, of either family.
pub open spec fn parse(s: Seq<char>) -> Option<IpAddr> {
    match parse_v4(s) {
        Some(a) => Some(IpAddr::V4(a)),
        None => match parse_v6(s) {
            Some(a) => Some(IpAddr::V6(a)),
            None => None,
        },
    }
}

/// The numbers as the model has them.
pub open spec fn nats(v: Seq<u16>) -> Seq<nat> {
    Seq::new(v.len(), |i: int| v[i] as nat)
}

/// The result of reading groups and its model.
pub open spec fn nats_opt(v: Option<Vec<u16>>) -> Option<Seq<nat>> {
    match v {
        Some(g) => Some(nats(g@)),
        None => None,
    }
}

fn group(s: &str) -> (r: Option<u16>)
    ensures
        match r {
            Some(n) => group_value(s@) == Some(n as nat),
            None => group_value(s@) is None,
        },
{
    let v = chars_of(s);
    if v.len() == 0 || v.len() > 4 {
        return None;
    }
    let mut n: u32 = 0;
    let mut i: usize = 0;
    let mut top: u32 = 1;
    proof {
        assert(s@.take(0) == Seq::<char>::empty());
    }
    while i < v.len()
        invariant
            v@ == s@,
            1 <= v@.len() <= 4,
            i <= v@.len(),
            forall|j: int| 0 <= j < i ==> is_hex(#[trigger] s@[j]),
            n == value(s@.take(i as int), 16),
            n < top,
            i == 0 ==> top == 1,
            i == 1 ==> top == 0x10,
            i == 2 ==> top == 0x100,
            i == 3 ==> top == 0x1000,
            i == 4 ==> top == 0x1_0000,
        decreases v@.len() - i,
    {
        let c = v[i];
        assert(c == s@[i as int]);
        if !(('0' <= c && c <= '9') || ('a' <= c && c <= 'f') || ('A' <= c && c <= 'F')) {
            return None;
        }
        let d = from_digit(c);
        proof {
            let next = s@.take(i + 1);
            assert(next.drop_last() == s@.take(i as int));
            assert(next.last() == c);
        }
        n = n * 16 + d as u32;
        top = top * 16;
        i = i + 1;
    }
    proof {
        assert(s@.take(i as int) == s@);
    }
    Some(n as u16)
}

fn read_hex_groups(p: &Vec<String>, n: usize) -> (r: Option<Vec<u16>>)
    requires
        n <= p@.len(),
    ensures
        nats_opt(r) == hex_groups(texts(p@).take(n as int)),
        r is Some ==> r->0@.len() == n,
{
    let mut g: Vec<u16> = Vec::new();
    let mut i: usize = 0;
    let ghost t = texts(p@);
    proof {
        assert(t.take(0) == Seq::<Seq<char>>::empty());
        assert(nats(g@) == Seq::<nat>::empty());
    }
    while i < n
        invariant
            n <= p@.len(),
            i <= n,
            t == texts(p@),
            g@.len() == i,
            hex_groups(t.take(i as int)) == Some(nats(g@)),
        decreases n - i,
    {
        proof {
            let next = t.take(i + 1);
            assert(next.drop_last() == t.take(i as int));
            assert(next.last() == p@[i as int]@);
        }
        match group(p[i].as_str()) {
            Some(x) => {
                let ghost before = g@;
                g.push(x);
                assert(nats(g@) == nats(before).push(x as nat));
            },
            None => {
                proof {
                    lemma_hex_groups_none(t.take(n as int), i as int);
                    assert(t.take(n as int).take(i + 1) == t.take(i + 1));
                }
                return None;
            },
        }
        i = i + 1;
    }
    Some(g)
}

/// One part without a number leaves the whole without numbers.
proof fn lemma_hex_groups_none(p: Seq<Seq<char>>, i: int)
    requires
        0 <= i < p.len(),
        group_value(p[i]) is None,
    ensures
        hex_groups(p) is None,
    decreases p.len(),
{
    if i < p.len() - 1 {
        assert(p.drop_last()[i] == p[i]);
        lemma_hex_groups_none(p.drop_last(), i);
    }
}

fn read_groups(p: &Vec<String>) -> (r: Option<Vec<u16>>)
    ensures
        nats_opt(r) == groups(texts(p@)),
{
    let ghost t = texts(p@);
    if p.len() > 0 {
        let n: usize = p.len() - 1;
        proof {
            assert(t.last() == p@[n as int]@);
            assert(t.drop_last() == t.take(n as int));
        }
        if let Some(a) = read_v4(p[n].as_str()) {
            return match read_hex_groups(p, n) {
                Some(mut g) => {
                    let ghost before = g@;
                    g.push((a / 0x1_0000) as u16);
                    g.push((a % 0x1_0000) as u16);
                    assert(nats(g@) == nats(before).push((a / 0x1_0000) as nat).push((a % 0x1_0000) as nat));
                    Some(g)
                },
                None => None,
            };
        }
    }
    proof {
        assert(t.take(p@.len() as int) == t);
    }
    read_hex_groups(p, p.len())
}

fn read_colon_parts(s: &str) -> (r: Vec<String>)
    ensures
        texts(r@) == colon_parts(s@),
{
    let v = chars_of(s);
    if v.len() == 0 {
        let r: Vec<String> = Vec::new();
        assert(texts(r@) == Seq::<Seq<char>>::empty());
        r
    } else {
        parts(s, ':')
    }
}

/// A gap with none before it is the first.
proof fn lemma_first_gap(s: Seq<char>, k: int)
    requires
        0 <= k <= s.len(),
        k < s.len() ==> k + 1 < s.len() && s[k] == ':' && s[k + 1] == ':',
        forall|j: int| 0 <= j < k && j + 1 < s.len() ==> !(s[j] == ':' && #[trigger] s[j + 1] == ':'),
    ensures
        first_gap(s) == k,
    decreases k,
{
    if k > 0 && s.len() >= 2 {
        let t = s.skip(1);
        assert(!(s[0] == ':' && s[0int + 1] == ':'));
        assert forall|j: int| 0 <= j < k - 1 && j + 1 < t.len() implies !(t[j] == ':' && #[trigger] t[j
            + 1] == ':') by {
            assert(s[(j + 1) + 1] == t[j + 1]);
        }
        lemma_first_gap(t, k - 1);
    }
}

fn find_gap(v: &Vec<char>) -> (r: usize)
    ensures
        r == first_gap(v@),
        r <= v@.len(),
        r < v@.len() ==> r + 1 < v@.len(),
{
    let n: usize = v.len();
    let mut i: usize = 0;
    while i < n
        invariant
            n == v@.len(),
            i <= n,
            forall|j: int| 0 <= j < i && j + 1 < v@.len() ==> !(v@[j] == ':' && #[trigger] v@[j + 1] == ':'),
        decreases n - i,
    {
        if i + 1 < n && v[i] == ':' && v[i + 1] == ':' {
            proof {
                lemma_first_gap(v@, i as int);
            }
            return i;
        }
        i = i + 1;
    }
    proof {
        lemma_first_gap(v@, n as int);
    }
    n
}

fn read_groups_of(s: &str) -> (r: Option<Vec<u16>>)
    ensures
        nats_opt(r) == groups_of(s@),
        r is Some ==> r->0@.len() == 8,
{
    let v = chars_of(s);
    let k = find_gap(&v);
    if k >= v.len() {
        let p = parts(s, ':');
        return match read_groups(&p) {
            Some(g) => if g.len() == 8 {
                Some(g)
            } else {
                None
            },
            None => None,
        };
    }
    let head = slice_text(&v, 0, k);
    let tail = slice_text(&v, k + 2, v.len());
    proof {
        assert(head@ == s@.take(k as int));
        assert(tail@ == s@.skip(k + 2));
    }
    let hp = read_colon_parts(head.as_str());
    let tp = read_colon_parts(tail.as_str());
    proof {
        assert(texts(hp@).take(hp@.len() as int) == texts(hp@));
    }
    match (read_hex_groups(&hp, hp.len()), read_groups(&tp)) {
        (Some(h), Some(t)) => {
            if h.len() > 7 || t.len() > 7 - h.len() {
                return None;
            }
            let zeros: usize = 8 - h.len() - t.len();
            let ghost gh = h@;
            let mut g = h;
            let mut i: usize = 0;
            while i < zeros
                invariant
                    i <= zeros,
                    g@ == gh + Seq::new(i as nat, |j: int| 0u16),
                decreases zeros - i,
            {
                g.push(0);
                assert(g@ == gh + Seq::new((i + 1) as nat, |j: int| 0u16));
                i = i + 1;
            }
            let ghost gz = g@;
            let mut i: usize = 0;
            while i < t.len()
                invariant
                    i <= t@.len(),
                    g@ == gz + t@.take(i as int),
                decreases t@.len() - i,
            {
                g.push(t[i]);
                assert(g@ == gz + t@.take(i + 1));
                i = i + 1;
            }
            proof {
                assert(t@.take(i as int) == t@);
                assert(nats(g@) == nats(gh) + Seq::new(zeros as nat, |i: int| 0nat) + nats(t@));
            }
            Some(g)
        },
        _ => None,
    }
}

/// The IPv6 address that `s` writes.
pub fn read_v6(s: &str) -> (r: Option<u128>)
    ensures
        r == parse_v6(s@),
{
    match read_groups_of(s) {
        Some(g) => {
            let ghost n = nats(g@);
            assert(n[0] == g@[0] && n[1] == g@[1] && n[2] == g@[2] && n[3] == g@[3] && n[4] == g@[4]
                && n[5] == g@[5] && n[6] == g@[6] && n[7] == g@[7]);
            Some(
                (g[0] as u128) * 0x1_0000_0000_0000_0000_0000_0000_0000 + (g[1] as u128)
                    * 0x1_0000_0000_0000_0000_0000_0000 + (g[2] as u128) * 0x1_0000_0000_0000_0000_0000 + (
                g[3] as u128) * 0x1_0000_0000_0000_0000 + (g[4] as u128) * 0x1_0000_0000_0000 + (
                g[5] as u128) * 0x1_0000_0000 + (g[6] as u128) * 0x1_0000 + (g[7] as u128),
            )
        },
        None => None,
    }
}

/// The address that `s` writes, of either family.
pub fn read(s: &str) -> (r: Option<IpAddr>)
    ensures
        r == parse(s@),
{
    match read_v4(s) {
        Some(a) => Some(IpAddr::V4(a)),
        None => match read_v6(s) {
            Some(a) => Some(IpAddr::V6(a)),
            None => None,
        },
    }
}

/// One of the eight groups of an IPv6 address, the leading one first.
pub open spec fn group_of(a: u128, i: int) -> nat {
    if i == 0 {
        (a / 0x1_0000_0000_0000_0000_0000_0000_0000) as nat
    } else if i == 1 {
        (a / 0x1_0000_0000_0000_0000_0000_0000 % 0x1_0000) as nat
    } else if i == 2 {
        (a / 0x1_0000_0000_0000_0000_0000 % 0x1_0000) as nat
    } else if i == 3 {
        (a / 0x1_0000_0000_0000_0000 % 0x1_0000) as nat
    } else if i == 4 {
        (a / 0x1_0000_0000_0000 % 0x1_0000) as nat
    } else if i == 5 {
        (a / 0x1_0000_0000 % 0x1_0000) as nat
    } else if i == 6 {
        (a / 0x1_0000 % 0x1_0000) as nat
    } else {
        (a % 0x1_0000) as nat
    }
}

/// The number of zero groups in a row from place `i` on.
pub open spec fn zero_run(a: u128, i: int) -> nat
    decreases 8 - i,
{
    if i >= 8 || group_of(a, i) != 0 {
        0
    } else {
        1 + zero_run(a, i + 1)
    }
}

/// The first place below `n` where the longest run of zero groups begins.
pub open spec fn longest_run(a: u128, n: int) -> int
    decreases n,
{
    if n <= 1 {
        0
    } else if zero_run(a, n - 1) > zero_run(a, longest_run(a, n - 1)) {
        n - 1
    } else {
        longest_run(a, n - 1)
    }
}

/// The groups from `from` up to `to` with colons between them.
pub open spec fn colon_groups(a: u128, from: int, to: int) -> Seq<char>
    decreases to - from,
{
    if from >= to {
        Seq::empty()
    } else if from + 1 == to {
        digits(group_of(a, from), 16)
    } else {
        colon_groups(a, from, to - 1) + ":"@ + digits(group_of(a, to - 1), 16)
    }
}

/// The notation of an IPv6 address: the first of the longest runs of two or
/// more zero groups is left out, and an IPv4 address mapped into IPv6 is
/// dotted.
pub open spec fn text_v6(a: u128) -> Seq<char> {
    let i = longest_run(a, 8);
    let n = zero_run(a, i);
    if a / 0x1_0000_0000 == 0xffff {
        "::ffff:"@ + text_v4((a % 0x1_0000_0000) as u32)
    } else if n > 1 {
        colon_groups(a, 0, i) + "::"@ + colon_groups(a, i + n, 8)
    } else {
        colon_groups(a, 0, 8)
    }
}

fn nth_group(a: u128, i: usize) -> (r: u64)
    requires
        i < 8,
    ensures
        r == group_of(a, i as int),
{
    if i == 0 {
        (a / 0x1_0000_0000_0000_0000_0000_0000_0000) as u64
    } else if i == 1 {
        (a / 0x1_0000_0000_0000_0000_0000_0000 % 0x1_0000) as u64
    } else if i == 2 {
        (a / 0x1_0000_0000_0000_0000_0000 % 0x1_0000) as u64
    } else if i == 3 {
        (a / 0x1_0000_0000_0000_0000 % 0x1_0000) as u64
    } else if i == 4 {
        (a / 0x1_0000_0000_0000 % 0x1_0000) as u64
    } else if i == 5 {
        (a / 0x1_0000_0000 % 0x1_0000) as u64
    } else if i == 6 {
        (a / 0x1_0000 % 0x1_0000) as u64
    } else {
        (a % 0x1_0000) as u64
    }
}

fn run_at(a: u128, i: usize) -> (r: usize)
    requires
        i <= 8,
    ensures
        r == zero_run(a, i as int),
        i + r <= 8,
    decreases 8 - i,
{
    if i >= 8 || nth_group(a, i) != 0 {
        0
    } else {
        1 + run_at(a, i + 1)
    }
}

fn write_groups(a: u128, from: usize, to: usize) -> (r: String)
    requires
        from <= to <= 8,
    ensures
        r@ == colon_groups(a, from as int, to as int),
{
    let mut out = String::new();
    let mut i: usize = from;
    while i < to
        invariant
            from <= i <= to <= 8,
            out@ == colon_groups(a, from as int, i as int),
        decreases to - i,
    {
        if i > from {
            out.append(":");
        }
        let d = digits_of(nth_group(a, i), 16);
        out.append(d.as_str());
        proof {
            if i == from {
                assert(out@ == d@);
            }
        }
        i = i + 1;
    }
    out
}

/// The notation of an IPv6 address.
pub fn write_v6(a: u128) -> (r: String)
    ensures
        r@ == text_v6(a),
{
    if a / 0x1_0000_0000 == 0xffff {
        return "::ffff:".to_owned().concat(write_v4((a % 0x1_0000_0000) as u32).as_str());
    }
    let mut best: usize = 0;
    let mut i: usize = 1;
    while i < 8
        invariant
            1 <= i <= 8,
            best == longest_run(a, i as int),
            best < i,
        decreases 8 - i,
    {
        if run_at(a, i) > run_at(a, best) {
            best = i;
        }
        i = i + 1;
    }
    let n = run_at(a, best);
    if n > 1 {
        write_groups(a, 0, best).concat("::").concat(write_groups(a, best + n, 8).as_str())
    } else {
        write_groups(a, 0, 8)
    }
}

/// The notation of an address.
pub open spec fn text_of(ip: IpAddr) -> Seq<char> {
    match ip {
        IpAddr::V4(a) => text_v4(a),
        IpAddr::V6(a) => text_v6(a),
    }
}

/// The text of an address.
pub fn write_ip(ip: IpAddr) -> (r: String)
    ensures
        r@ == text_of(ip),
{
    match ip {
        IpAddr::V4(a) => write_v4(a),
        IpAddr::V6(a) => write_v6(a),
    }
}

// ---------------------------------------------------------------------------
// Reading what was written
// ---------------------------------------------------------------------------

/// A byte is read as it is written.
proof fn lemma_octet_text(n: nat)
    requires
        n <= 255,
    ensures
        octet_value(decimal(n)) == Some(n),
        all_digits(decimal(n)),
{
    lemma_digits(n, 10);
    let d = decimal(n);
    if n >= 10 {
        let q = n / 10;
        lemma_digits(q, 10);
        assert(d == digits(q, 10).push(digit_char(n % 10)));
        if q >= 10 {
            lemma_digits(q / 10, 10);
            assert(digits(q, 10) == digits(q / 10, 10).push(digit_char(q % 10)));
        }
    }
}

/// Whether a text has digits and dots alone.
spec fn dotted(s: Seq<char>) -> bool {
    forall|i: int| 0 <= i < s.len() ==> (is_digit(#[trigger] s[i]) || s[i] == '.')
}

proof fn lemma_dotted(a: Seq<char>, b: Seq<char>)
    requires
        dotted(a),
        dotted(b),
    ensures
        dotted(a + b),
{
    assert forall|i: int| 0 <= i < (a + b).len() implies (is_digit(#[trigger] (a + b)[i]) || (a + b)[i]
        == '.') by {
        if i < a.len() {
            assert((a + b)[i] == a[i]);
        } else {
            assert((a + b)[i] == b[i - a.len()]);
        }
    }
}

proof fn lemma_text_v4_dotted(a: u32)
    ensures
        dotted(text_v4(a)),
        text_v4(a).len() > 0,
{
    reveal_strlit(".");
    let dot = "."@;
    let d0 = decimal(octet_of(a, 0));
    let d1 = decimal(octet_of(a, 1));
    let d2 = decimal(octet_of(a, 2));
    let d3 = decimal(octet_of(a, 3));
    lemma_octets(a);
    lemma_octet_text(octet_of(a, 0));
    lemma_octet_text(octet_of(a, 1));
    lemma_octet_text(octet_of(a, 2));
    lemma_octet_text(octet_of(a, 3));
    lemma_dotted(d0, dot);
    lemma_dotted(d0 + dot, d1);
    lemma_dotted(d0 + dot + d1, dot);
    lemma_dotted(d0 + dot + d1 + dot, d2);
    lemma_dotted(d0 + dot + d1 + dot + d2, dot);
    lemma_dotted(d0 + dot + d1 + dot + d2 + dot, d3);
}

/// Four texts without dots are the parts of what they make with dots between
/// them.
pub proof fn lemma_dotted_parts(d0: Seq<char>, d1: Seq<char>, d2: Seq<char>, d3: Seq<char>)
    requires
        forall|j: int| 0 <= j < d0.len() ==> d0[j] != '.',
        forall|j: int| 0 <= j < d1.len() ==> d1[j] != '.',
        forall|j: int| 0 <= j < d2.len() ==> d2[j] != '.',
        forall|j: int| 0 <= j < d3.len() ==> d3[j] != '.',
    ensures
        split(d0 + "."@ + d1 + "."@ + d2 + "."@ + d3, '.') == seq![d0, d1, d2, d3],
{
    reveal_strlit(".");
    let dot = seq!['.'];
    assert("."@ == dot);
    lemma_split_none(d0, '.');
    lemma_split_behind(d0, '.', d1);
    lemma_split_behind(d0 + dot + d1, '.', d2);
    lemma_split_behind(d0 + dot + d1 + dot + d2, '.', d3);
    assert(seq![d0].push(d1).push(d2).push(d3) == seq![d0, d1, d2, d3]);
}

/// The four bytes make up the address.
proof fn lemma_octets(a: u32)
    ensures
        octet_of(a, 0) <= 255 && octet_of(a, 1) <= 255 && octet_of(a, 2) <= 255 && octet_of(a, 3) <= 255,
        octet_of(a, 0) * 0x100_0000 + octet_of(a, 1) * 0x1_0000 + octet_of(a, 2) * 0x100 + octet_of(a, 3) == a,
{
}

/// An IPv4 address is read as it is written.
proof fn lemma_text_v4(a: u32)
    ensures
        parse_v4(text_v4(a)) == Some(a),
{
    lemma_octets(a);
    lemma_octet_text(octet_of(a, 0));
    lemma_octet_text(octet_of(a, 1));
    lemma_octet_text(octet_of(a, 2));
    lemma_octet_text(octet_of(a, 3));
    lemma_dotted_parts(
        decimal(octet_of(a, 0)),
        decimal(octet_of(a, 1)),
        decimal(octet_of(a, 2)),
        decimal(octet_of(a, 3)),
    );
}

/// The groups from `from` up to `to`, as they are written.
spec fn group_texts(a: u128, from: int, to: int) -> Seq<Seq<char>> {
    Seq::new((to - from) as nat, |i: int| digits(group_of(a, from + i), 16))
}

/// The groups from `from` up to `to`.
spec fn group_numbers(a: u128, from: int, to: int) -> Seq<nat> {
    Seq::new((to - from) as nat, |i: int| group_of(a, from + i))
}

/// A group is read as it is written.
proof fn lemma_group_text(n: nat)
    requires
        n < 0x1_0000,
    ensures
        group_value(digits(n, 16)) == Some(n),
{
    lemma_digits(n, 16);
    if n >= 16 {
        let q = n / 16;
        lemma_digits(q, 16);
        assert(digits(n, 16) == digits(q, 16).push(digit_char(n % 16)));
        if q >= 16 {
            let r = q / 16;
            lemma_digits(r, 16);
            assert(digits(q, 16) == digits(r, 16).push(digit_char(q % 16)));
            if r >= 16 {
                lemma_digits(r / 16, 16);
                assert(digits(r, 16) == digits(r / 16, 16).push(digit_char(r % 16)));
            }
        }
    }
}

proof fn lemma_group_range(a: u128, i: int)
    ensures
        group_of(a, i) < 0x1_0000,
{
    assert(a / 0x1_0000_0000_0000_0000_0000_0000_0000 < 0x1_0000);
}

proof fn lemma_hex_groups(a: u128, from: int, to: int)
    requires
        0 <= from <= to <= 8,
    ensures
        hex_groups(group_texts(a, from, to)) == Some(group_numbers(a, from, to)),
    decreases to - from,
{
    let t = group_texts(a, from, to);
    if from < to {
        lemma_hex_groups(a, from, to - 1);
        lemma_group_range(a, to - 1);
        lemma_group_text(group_of(a, to - 1));
        assert(t.drop_last() == group_texts(a, from, to - 1));
        assert(group_numbers(a, from, to) == group_numbers(a, from, to - 1).push(group_of(a, to - 1)));
    } else {
        assert(group_numbers(a, from, to) == Seq::<nat>::empty());
    }
}

/// Whether no two colons stand in a row, and none at either end.
spec fn single_colons(s: Seq<char>) -> bool {
    &&& s.len() > 0
    &&& s[0] != ':'
    &&& s.last() != ':'
    &&& forall|j: int| 0 <= j < s.len() - 1 ==> !(#[trigger] s[j] == ':' && s[j + 1] == ':')
}

/// Whether a text has hexadecimal digits and colons alone.
spec fn hex_and_colons(s: Seq<char>) -> bool {
    forall|i: int| 0 <= i < s.len() ==> (is_hex(#[trigger] s[i]) || s[i] == ':')
}

/// What the groups with colons between them are made of.
proof fn lemma_colon_groups(a: u128, from: int, to: int)
    requires
        0 <= from < to <= 8,
    ensures
        split(colon_groups(a, from, to), ':') == group_texts(a, from, to),
        single_colons(colon_groups(a, from, to)),
        hex_and_colons(colon_groups(a, from, to)),
    decreases to - from,
{
    let s = colon_groups(a, from, to);
    let d = digits(group_of(a, to - 1), 16);
    lemma_digits(group_of(a, to - 1), 16);
    if from + 1 == to {
        lemma_split_none(d, ':');
        assert(group_texts(a, from, to) == seq![d]);
    } else {
        let t = colon_groups(a, from, to - 1);
        lemma_colon_groups(a, from, to - 1);
        reveal_strlit(":");
        assert(":"@ == seq![':']);
        lemma_split_behind(t, ':', d);
        assert(group_texts(a, from, to) == group_texts(a, from, to - 1).push(d));
        let n = t.len() as int;
        assert forall|i: int| 0 <= i < s.len() implies (is_hex(#[trigger] s[i]) || s[i] == ':') by {
            if i < n {
                assert(s[i] == t[i]);
            } else if i > n {
                assert(s[i] == d[i - n - 1]);
            }
        }
        assert(s[0] == t[0]);
        assert(s.last() == d.last());
        assert forall|j: int| 0 <= j < s.len() - 1 implies !(#[trigger] s[j] == ':' && s[j + 1] == ':') by {
            if j < n - 1 {
                assert(s[j] == t[j] && s[j + 1] == t[j + 1]);
            } else if j == n - 1 {
                assert(s[j] == t.last());
            } else {
                assert(s[j + 1] == d[j - n]);
            }
        }
    }
}

/// A text has no gap where no two colons stand in a row.
proof fn lemma_no_gap(s: Seq<char>)
    requires
        forall|j: int| 0 <= j < s.len() - 1 ==> !(#[trigger] s[j] == ':' && s[j + 1] == ':'),
    ensures
        first_gap(s) == s.len(),
    decreases s.len(),
{
    if s.len() >= 2 {
        let t = s.skip(1);
        assert forall|j: int| 0 <= j < t.len() - 1 implies !(#[trigger] t[j] == ':' && t[j + 1] == ':') by {
            assert(t[j] == s[j + 1] && t[j + 1] == s[j + 2]);
        }
        assert(!(s[0] == ':' && s[1] == ':'));
        lemma_no_gap(t);
    }
}

/// The gap is where it was put.
proof fn lemma_gap(x: Seq<char>, rest: Seq<char>)
    requires
        forall|j: int| 0 <= j < x.len() - 1 ==> !(#[trigger] x[j] == ':' && x[j + 1] == ':'),
        x.len() > 0 ==> x.last() != ':',
    ensures
        first_gap(x + seq![':', ':'] + rest) == x.len(),
    decreases x.len(),
{
    let s = x + seq![':', ':'] + rest;
    if x.len() > 0 {
        let y = x.skip(1);
        assert forall|j: int| 0 <= j < y.len() - 1 implies !(#[trigger] y[j] == ':' && y[j + 1] == ':') by {
            assert(y[j] == x[j + 1] && y[j + 1] == x[j + 2]);
        }
        if y.len() > 0 {
            assert(y.last() == x.last());
            assert(s[0] == x[0] && s[1] == x[1]);
        } else {
            assert(s[0] == x.last());
        }
        assert(s.skip(1) == y + seq![':', ':'] + rest);
        lemma_gap(y, rest);
    } else {
        assert(s[0] == ':' && s[1] == ':');
    }
}

/// A run of zero groups ends before the groups do.
proof fn lemma_zero_run(a: u128, i: int)
    requires
        0 <= i <= 8,
    ensures
        i + zero_run(a, i) <= 8,
        forall|j: int| i <= j < i + zero_run(a, i) ==> group_of(a, j) == 0,
    decreases 8 - i,
{
    if i < 8 && group_of(a, i) == 0 {
        lemma_zero_run(a, i + 1);
    }
}

proof fn lemma_longest_run(a: u128, n: int)
    requires
        1 <= n,
    ensures
        0 <= longest_run(a, n) < n,
    decreases n,
{
    if n > 1 {
        lemma_longest_run(a, n - 1);
    }
}

/// The eight groups make up the address.
proof fn lemma_number_of(a: u128)
    ensures
        number_of(group_numbers(a, 0, 8)) == a,
{
    let n = a as int;
    let b: int = 0x1_0000;
    let q1 = n / b;
    let q2 = q1 / b;
    let q3 = q2 / b;
    let q4 = q3 / b;
    let q5 = q4 / b;
    let q6 = q5 / b;
    let q7 = q6 / b;
    lemma_div_denominator(n, 0x1_0000, 0x1_0000);
    lemma_div_denominator(n, 0x1_0000_0000, 0x1_0000);
    lemma_div_denominator(n, 0x1_0000_0000_0000, 0x1_0000);
    lemma_div_denominator(n, 0x1_0000_0000_0000_0000, 0x1_0000);
    lemma_div_denominator(n, 0x1_0000_0000_0000_0000_0000, 0x1_0000);
    lemma_div_denominator(n, 0x1_0000_0000_0000_0000_0000_0000, 0x1_0000);
    let g = group_numbers(a, 0, 8);
    assert(g[7] == n % b && g[6] == q1 % b && g[5] == q2 % b && g[4] == q3 % b);
    assert(g[3] == q4 % b && g[2] == q5 % b && g[1] == q6 % b && g[0] == q7);
    assert(q6 == q7 * 0x1_0000 + g[1]);
    assert(q5 == q6 * 0x1_0000 + g[2]);
    assert(q4 == q5 * 0x1_0000 + g[3]);
    assert(q3 == q4 * 0x1_0000 + g[4]);
    assert(q2 == q3 * 0x1_0000 + g[5]);
    assert(q1 == q2 * 0x1_0000 + g[6]);
    assert(n == q1 * 0x1_0000 + g[7]);
}

/// A text without dots is no IPv4 address.
proof fn lemma_no_dots(s: Seq<char>)
    requires
        hex_and_colons(s),
    ensures
        parse_v4(s) is None,
{
    lemma_split_none(s, '.');
}

/// The parts from `from` up to `to` are read as they are written, also where
/// there are none.
proof fn lemma_colon_parts(a: u128, from: int, to: int)
    requires
        0 <= from <= to <= 8,
    ensures
        hex_groups(colon_parts(colon_groups(a, from, to))) == Some(group_numbers(a, from, to)),
        groups(colon_parts(colon_groups(a, from, to))) == Some(group_numbers(a, from, to)),
{
    lemma_hex_groups(a, from, to);
    if from < to {
        lemma_colon_groups(a, from, to);
        let d = digits(group_of(a, to - 1), 16);
        lemma_digits(group_of(a, to - 1), 16);
        assert(group_texts(a, from, to).last() == d);
        lemma_no_dots(d);
    } else {
        assert(group_texts(a, from, to) == Seq::<Seq<char>>::empty());
    }
}

/// Zero groups that were left out are filled in again.
proof fn lemma_zeros_filled(a: u128, i: int, n: int)
    requires
        0 <= i,
        0 <= n,
        i + n <= 8,
        forall|j: int| i <= j < i + n ==> group_of(a, j) == 0,
    ensures
        group_numbers(a, 0, i) + Seq::new(n as nat, |i: int| 0nat) + group_numbers(a, i + n, 8) == group_numbers(
            a,
            0,
            8,
        ),
{
    let l = group_numbers(a, 0, i) + Seq::new(n as nat, |i: int| 0nat) + group_numbers(a, i + n, 8);
    let r = group_numbers(a, 0, 8);
    assert forall|j: int| 0 <= j < 8 implies l[j] == r[j] by {
        let g = group_of(a, j);
        if j < i {
            assert(l[j] == g);
        } else if j < i + n {
            assert(l[j] == 0);
        } else {
            assert(l[j] == group_numbers(a, i + n, 8)[j - i - n]);
        }
    }
    assert(l == r);
}

/// An address with a run of zero groups left out is read as it is written.
#[verifier::rlimit(30)]
proof fn lemma_text_with_gap(a: u128, i: int, n: int)
    requires
        0 <= i,
        1 < n,
        i + n <= 8,
        forall|j: int| i <= j < i + n ==> group_of(a, j) == 0,
    ensures
        groups_of(colon_groups(a, 0, i) + "::"@ + colon_groups(a, i + n, 8)) == Some(group_numbers(a, 0, 8)),
        hex_and_colons(colon_groups(a, 0, i) + "::"@ + colon_groups(a, i + n, 8)),
{
    let x = colon_groups(a, 0, i);
    let rest = colon_groups(a, i + n, 8);
    let s = x + "::"@ + rest;
    reveal_strlit("::");
    assert("::"@ == seq![':', ':']);
    if 0 < i {
        lemma_colon_groups(a, 0, i);
    }
    if i + n < 8 {
        lemma_colon_groups(a, i + n, 8);
    }
    lemma_gap(x, rest);
    assert(s.take(x.len() as int) == x);
    assert(s.skip(x.len() as int + 2) == rest);
    lemma_colon_parts(a, 0, i);
    lemma_colon_parts(a, i + n, 8);
    lemma_zeros_filled(a, i, n);
    assert forall|j: int| 0 <= j < s.len() implies (is_hex(#[trigger] s[j]) || s[j] == ':') by {
        if j < x.len() {
            assert(s[j] == x[j]);
        } else if j >= x.len() + 2 {
            assert(s[j] == rest[j - x.len() - 2]);
        }
    }
}

/// An IPv6 address that is no mapped one is read as it is written.
proof fn lemma_text_plain_v6(a: u128)
    requires
        a / 0x1_0000_0000 != 0xffff,
    ensures
        groups_of(text_v6(a)) == Some(group_numbers(a, 0, 8)),
        hex_and_colons(text_v6(a)),
{
    let i = longest_run(a, 8);
    let n = zero_run(a, i) as int;
    lemma_longest_run(a, 8);
    lemma_zero_run(a, i);
    if n > 1 {
        lemma_text_with_gap(a, i, n);
    } else {
        let s = colon_groups(a, 0, 8);
        assert(text_v6(a) == s);
        lemma_colon_groups(a, 0, 8);
        lemma_no_gap(s);
        lemma_colon_parts(a, 0, 8);
    }
}

/// The group of ones that marks a mapped address.
proof fn lemma_group_of_ones()
    ensures
        group_value(seq!['f', 'f', 'f', 'f']) == Some(0xffffnat),
{
    reveal_with_fuel(value, 5);
}

/// The parts of a mapped address behind its gap, and what they stand for.
proof fn lemma_mapped_tail(v4: Seq<char>, low: u32)
    requires
        parse_v4(v4) == Some(low),
        forall|j: int| 0 <= j < v4.len() ==> v4[j] != ':',
    ensures
        groups(split(seq!['f', 'f', 'f', 'f'] + seq![':'] + v4, ':')) == Some(
            seq![0xffffnat, (low / 0x1_0000) as nat, (low % 0x1_0000) as nat],
        ),
{
    let f = seq!['f', 'f', 'f', 'f'];
    lemma_split_none(f, ':');
    lemma_split_behind(f, ':', v4);
    lemma_group_of_ones();
    let p = seq![f].push(v4);
    let h = Seq::<nat>::empty().push(0xffff);
    assert(p.drop_last() == seq![f]);
    assert(seq![f].drop_last() == Seq::<Seq<char>>::empty());
    assert(hex_groups(Seq::<Seq<char>>::empty()) == Some(Seq::<nat>::empty()));
    assert(hex_groups(seq![f]) == Some(h));
    assert(h.push((low / 0x1_0000) as nat).push((low % 0x1_0000) as nat) == seq![
        0xffffnat,
        (low / 0x1_0000) as nat,
        (low % 0x1_0000) as nat,
    ]);
}

/// The groups of an IPv4 address mapped into IPv6.
proof fn lemma_mapped_groups(v4: Seq<char>, low: u32)
    requires
        v4.len() > 0,
        parse_v4(v4) == Some(low),
        forall|j: int| 0 <= j < v4.len() ==> v4[j] != ':',
    ensures
        groups_of("::ffff:"@ + v4) == Some(
            seq![0nat, 0nat, 0nat, 0nat, 0nat, 0xffffnat, (low / 0x1_0000) as nat, (low % 0x1_0000) as nat],
        ),
{
    let s = "::ffff:"@ + v4;
    reveal_strlit("::ffff:");
    assert(s[0] == ':' && s[1] == ':');
    assert(first_gap(s) == 0);
    assert(s.take(0) == Seq::<char>::empty());
    assert(s.skip(2) == seq!['f', 'f', 'f', 'f'] + seq![':'] + v4);
    lemma_mapped_tail(v4, low);
    let h = Seq::<nat>::empty();
    let t = seq![0xffffnat, (low / 0x1_0000) as nat, (low % 0x1_0000) as nat];
    assert(hex_groups(Seq::<Seq<char>>::empty()) == Some(h));
    assert(h + Seq::new((8 - h.len() - t.len()) as nat, |i: int| 0nat) + t == seq![
        0nat,
        0nat,
        0nat,
        0nat,
        0nat,
        0xffffnat,
        (low / 0x1_0000) as nat,
        (low % 0x1_0000) as nat,
    ]);
}

/// An IPv4 address mapped into IPv6 is no IPv4 address.
proof fn lemma_mapped_is_no_v4(low: u32)
    ensures
        parse_v4("::ffff:"@ + text_v4(low)) is None,
{
    let pre = "::ffff:"@;
    let d0 = decimal(octet_of(low, 0));
    let head = pre + d0;
    reveal_strlit("::ffff:");
    lemma_octets(low);
    lemma_octet_text(octet_of(low, 0));
    lemma_octet_text(octet_of(low, 1));
    lemma_octet_text(octet_of(low, 2));
    lemma_octet_text(octet_of(low, 3));
    assert forall|j: int| 0 <= j < head.len() implies head[j] != '.' by {
        if j >= pre.len() {
            assert(head[j] == d0[j - pre.len()]);
        }
    }
    let (d1, d2, d3) = (decimal(octet_of(low, 1)), decimal(octet_of(low, 2)), decimal(octet_of(low, 3)));
    lemma_dotted_parts(head, d1, d2, d3);
    assert(pre + text_v4(low) == head + "."@ + d1 + "."@ + d2 + "."@ + d3);
    assert(head[0] == ':');
}

/// The text of an address is read as that address.
pub proof fn law_written_address_reads_back(ip: IpAddr)
    ensures
        parse(text_of(ip)) == Some(ip),
{
    match ip {
        IpAddr::V4(a) => lemma_text_v4(a),
        IpAddr::V6(a) => {
            if a / 0x1_0000_0000 == 0xffff {
                let low = (a % 0x1_0000_0000) as u32;
                lemma_text_v4(low);
                lemma_text_v4_dotted(low);
                lemma_mapped_groups(text_v4(low), low);
                lemma_mapped_is_no_v4(low);
                assert(0xffff * 0x1_0000_0000 + (low / 0x1_0000) * 0x1_0000 + low % 0x1_0000 == a);
            } else {
                lemma_text_plain_v6(a);
                lemma_no_dots(text_v6(a));
                lemma_number_of(a);
            }
        },
    }
}

// ---------------------------------------------------------------------------
// Prefixes
// ---------------------------------------------------------------------------

/// An address and the length of its prefix, as in `192.0.2.1/24`: the length
/// is no greater than the number of bits of the address.
pub open spec fn parse_cidr(s: Seq<char>) -> Option<(IpAddr, nat)> {
    match split_once(s, '/') {
        Some((a, n)) => match (parse(a), parse_unsigned(n, 255)) {
            (Some(ip), Some(len)) => if len <= ip.width() {
                Some((ip, len))
            } else {
                None
            },
            _ => None,
        },
        None => None,
    }
}

/// The text of an address has no slash.
proof fn lemma_text_without_slash(ip: IpAddr)
    ensures
        forall|i: int| 0 <= i < text_of(ip).len() ==> text_of(ip)[i] != '/',
{
    let s = text_of(ip);
    match ip {
        IpAddr::V4(a) => lemma_text_v4_dotted(a),
        IpAddr::V6(a) => {
            if a / 0x1_0000_0000 == 0xffff {
                let v4 = text_v4((a % 0x1_0000_0000) as u32);
                lemma_text_v4_dotted((a % 0x1_0000_0000) as u32);
                reveal_strlit("::ffff:");
                assert forall|i: int| 0 <= i < s.len() implies s[i] != '/' by {
                    if i >= 7 {
                        assert(s[i] == v4[i - 7]);
                    }
                }
            } else {
                lemma_text_plain_v6(a);
            }
        },
    }
}

/// The text of an address with the length of its prefix is read as they are.
pub proof fn law_written_prefix_reads_back(ip: IpAddr, len: nat)
    requires
        len <= ip.width(),
    ensures
        parse_cidr(text_of(ip) + "/"@ + decimal(len)) == Some((ip, len)),
{
    let t = text_of(ip);
    let d = decimal(len);
    let s = t + "/"@ + d;
    reveal_strlit("/");
    lemma_text_without_slash(ip);
    assert forall|j: int| 0 <= j < t.len() implies s[j] != '/' by {
        assert(s[j] == t[j]);
    }
    lemma_first_is(s, '/', t.len() as int);
    assert(s.take(t.len() as int) == t);
    assert(s.skip(t.len() as int + 1) == d);
    law_written_address_reads_back(ip);
    lemma_digits(len, 10);
}

/// Whether two numbers of `width` bits have the same first `len` bits.
pub open spec fn same_prefix(a: nat, b: nat, len: nat, width: nat) -> bool {
    a / pow2((width - len) as nat) == b / pow2((width - len) as nat)
}

/// The number whose first `len` of `width` bits are those of `a` and whose
/// other bits are zero.
pub open spec fn network(a: nat, len: nat, width: nat) -> nat {
    (a / pow2((width - len) as nat) * pow2((width - len) as nat)) as nat
}

/// An address and the length of its prefix.
pub fn cidr(s: &str) -> (r: Option<(IpAddr, u8)>)
    ensures
        match r {
            Some((ip, len)) => parse_cidr(s@) == Some((ip, len as nat)) && len <= ip.width(),
            None => parse_cidr(s@) is None,
        },
{
    match text::cut(s, '/') {
        Some((a, n)) => match (read(a.as_str()), parse_number(n.as_str(), 255)) {
            (Some(ip), Some(len)) => {
                let width: u64 = match ip {
                    IpAddr::V4(_) => 32,
                    IpAddr::V6(_) => 128,
                };
                if len <= width {
                    Some((ip, len as u8))
                } else {
                    None
                }
            },
            _ => None,
        },
        None => None,
    }
}

/// Two to the power of 127 and no more fits in 128 bits.
proof fn lemma_pow2_fits(k: nat)
    requires
        k <= 127,
    ensures
        pow2(k) <= 0x8000_0000_0000_0000_0000_0000_0000_0000,
        pow2(127) == 0x8000_0000_0000_0000_0000_0000_0000_0000,
        pow2(128) == 0x1_0000_0000_0000_0000_0000_0000_0000_0000,
{
    lemma2_to64();
    lemma_pow2_adds(64, 64);
    assert(pow2(64) * pow2(64) == 0x1_0000_0000_0000_0000_0000_0000_0000_0000) by (nonlinear_arith)
        requires
            pow2(64) == 0x1_0000_0000_0000_0000,
    ;
    lemma_pow2_unfold(128);
    if k < 127 {
        lemma_pow2_strictly_increases(k, 127);
    }
}

/// Two to the power of `k`.
fn power(k: u8) -> (r: u128)
    requires
        k <= 127,
    ensures
        r == pow2(k as nat),
        r > 0,
{
    let mut p: u128 = 1;
    let mut i: u8 = 0;
    proof {
        lemma2_to64();
    }
    while i < k
        invariant
            i <= k <= 127,
            p == pow2(i as nat),
        decreases k - i,
    {
        proof {
            lemma_pow2_unfold((i + 1) as nat);
            lemma_pow2_fits((i + 1) as nat);
        }
        p = p * 2;
        i = i + 1;
    }
    proof {
        lemma_pow2_pos(k as nat);
    }
    p
}

/// Whether two numbers of `width` bits have the same first `len` bits.
pub fn agree(a: u128, b: u128, len: u8, width: u8) -> (r: bool)
    requires
        len <= width <= 128,
    ensures
        r == same_prefix(a as nat, b as nat, len as nat, width as nat),
{
    if width - len == 128 {
        proof {
            lemma_pow2_fits(0);
            assert(a as nat / pow2(128) == 0 && b as nat / pow2(128) == 0) by (nonlinear_arith)
                requires
                    pow2(128) == 0x1_0000_0000_0000_0000_0000_0000_0000_0000,
                    a < 0x1_0000_0000_0000_0000_0000_0000_0000_0000,
                    b < 0x1_0000_0000_0000_0000_0000_0000_0000_0000,
            ;
        }
        true
    } else {
        let p = power(width - len);
        a / p == b / p
    }
}

/// The number with the first `len` bits of `a` and zeros behind them.
pub fn network_of(a: u128, len: u8) -> (r: u128)
    requires
        len <= 128,
    ensures
        r == network(a as nat, len as nat, 128),
        r <= a,
{
    if len == 0 {
        proof {
            lemma_pow2_fits(0);
            assert(a as nat / pow2(128) == 0) by (nonlinear_arith)
                requires
                    pow2(128) == 0x1_0000_0000_0000_0000_0000_0000_0000_0000,
                    a < 0x1_0000_0000_0000_0000_0000_0000_0000_0000,
            ;
            assert(0 * pow2(128) == 0) by (nonlinear_arith);
        }
        0
    } else {
        let p = power(128 - len);
        assert(a / p * p <= a) by (nonlinear_arith)
            requires
                p > 0,
        ;
        a / p * p
    }
}

/// Whether the bits of `a` behind the first `len` are zero.
pub fn ends_in_zeros(a: u128, len: u8, width: u8) -> (r: bool)
    requires
        len <= width <= 128,
    ensures
        r == (network(a as nat, len as nat, width as nat) == a),
{
    if width - len == 128 {
        proof {
            lemma_pow2_fits(0);
            assert(a as nat / pow2(128) == 0) by (nonlinear_arith)
                requires
                    pow2(128) == 0x1_0000_0000_0000_0000_0000_0000_0000_0000,
                    a < 0x1_0000_0000_0000_0000_0000_0000_0000_0000,
            ;
            assert(0 * pow2(128) == 0) by (nonlinear_arith);
        }
        a == 0
    } else {
        let p = power(width - len);
        assert(a / p * p <= a) by (nonlinear_arith)
            requires
                p > 0,
        ;
        a / p * p == a
    }
}

// ---------------------------------------------------------------------------
// Classes
// ---------------------------------------------------------------------------

/// 10.0.0.0/8, 172.16.0.0/12 and 192.168.0.0/16.
pub open spec fn private_v4(a: u32) -> bool {
    ||| octet_of(a, 0) == 10
    ||| octet_of(a, 0) == 172 && 16 <= octet_of(a, 1) <= 31
    ||| octet_of(a, 0) == 192 && octet_of(a, 1) == 168
}

/// 169.254.0.0/16.
pub open spec fn link_local_v4(a: u32) -> bool {
    octet_of(a, 0) == 169 && octet_of(a, 1) == 254
}

/// 127.0.0.0/8.
pub open spec fn loopback_v4(a: u32) -> bool {
    octet_of(a, 0) == 127
}

/// fe80::/10.
pub open spec fn link_local_v6(a: u128) -> bool {
    0xfe80 <= group_of(a, 0) <= 0xfebf
}

/// fc00::/7.
pub open spec fn unique_local_v6(a: u128) -> bool {
    0xfc00 <= group_of(a, 0) <= 0xfdff
}

/// The address of all zero bits.
pub open spec fn unspecified(ip: IpAddr) -> bool {
    ip.number() == 0
}

/// 224.0.0.0/4 and ff00::/8.
pub open spec fn multicast(ip: IpAddr) -> bool {
    match ip {
        IpAddr::V4(a) => 224 <= octet_of(a, 0) <= 239,
        IpAddr::V6(a) => group_of(a, 0) >= 0xff00,
    }
}

pub fn is_private_v4(a: u32) -> (r: bool)
    ensures
        r == private_v4(a),
{
    let x: u32 = a / 0x100_0000;
    let y: u32 = a / 0x1_0000 % 0x100;
    x == 10 || (x == 172 && 16 <= y && y <= 31) || (x == 192 && y == 168)
}

pub fn is_link_local_v4(a: u32) -> (r: bool)
    ensures
        r == link_local_v4(a),
{
    a / 0x100_0000 == 169 && a / 0x1_0000 % 0x100 == 254
}

pub fn is_loopback_v4(a: u32) -> (r: bool)
    ensures
        r == loopback_v4(a),
{
    a / 0x100_0000 == 127
}

pub fn is_link_local_v6(a: u128) -> (r: bool)
    ensures
        r == link_local_v6(a),
{
    let g = nth_group(a, 0);
    0xfe80 <= g && g <= 0xfebf
}

pub fn is_unique_local_v6(a: u128) -> (r: bool)
    ensures
        r == unique_local_v6(a),
{
    let g = nth_group(a, 0);
    0xfc00 <= g && g <= 0xfdff
}

pub fn is_unspecified(ip: IpAddr) -> (r: bool)
    ensures
        r == unspecified(ip),
{
    match ip {
        IpAddr::V4(a) => a == 0,
        IpAddr::V6(a) => a == 0,
    }
}

pub fn is_multicast(ip: IpAddr) -> (r: bool)
    ensures
        r == multicast(ip),
{
    match ip {
        IpAddr::V4(a) => 224 <= a / 0x100_0000 && a / 0x100_0000 <= 239,
        IpAddr::V6(a) => nth_group(a, 0) >= 0xff00,
    }
}

/// The kinds of IPv4 addresses are ranges: the private ones are 10.0.0.0/8,
/// 172.16.0.0/12 and 192.168.0.0/16.
pub proof fn law_ranges_of_v4_addresses(a: u32)
    ensures
        private_v4(a) <==> {
            ||| 0x0a00_0000 <= a <= 0x0aff_ffff
            ||| 0xac10_0000 <= a <= 0xac1f_ffff
            ||| 0xc0a8_0000 <= a <= 0xc0a8_ffff
        },
        link_local_v4(a) <==> 0xa9fe_0000 <= a <= 0xa9fe_ffff,
        loopback_v4(a) <==> 0x7f00_0000 <= a <= 0x7fff_ffff,
        multicast(IpAddr::V4(a)) <==> 0xe000_0000 <= a <= 0xefff_ffff,
        unspecified(IpAddr::V4(a)) <==> a == 0,
{
    assert(a / 0x1_0000 % 0x100 == a / 0x1_0000 - 0x100 * (a / 0x100_0000)) by (bit_vector);
}

/// The kinds of IPv6 addresses are ranges.
pub proof fn law_ranges_of_v6_addresses(a: u128)
    ensures
        link_local_v6(a) <==> 0xfe80_0000_0000_0000_0000_0000_0000_0000 <= a
            <= 0xfebf_ffff_ffff_ffff_ffff_ffff_ffff_ffff,
        unique_local_v6(a) <==> 0xfc00_0000_0000_0000_0000_0000_0000_0000 <= a
            <= 0xfdff_ffff_ffff_ffff_ffff_ffff_ffff_ffff,
        multicast(IpAddr::V6(a)) <==> 0xff00_0000_0000_0000_0000_0000_0000_0000 <= a,
        unspecified(IpAddr::V6(a)) <==> a == 0,
{
}

/// The network of an address holds it: it is the greatest multiple of the size of
/// the network that is no greater than the address. Two addresses have the same
/// prefix just where they are in the same network.
pub proof fn law_networks_hold_their_addresses(a: nat, b: nat, len: nat, width: nat)
    requires
        len <= width,
    ensures
        network(a, len, width) <= a < network(a, len, width) + pow2((width - len) as nat),
        network(a, len, width) % pow2((width - len) as nat) == 0,
        same_prefix(a, b, len, width) <==> network(a, len, width) == network(b, len, width),
{
    let m = pow2((width - len) as nat);
    vstd::arithmetic::power2::lemma_pow2_pos((width - len) as nat);
    vstd::arithmetic::div_mod::lemma_fundamental_div_mod(a as int, m as int);
    vstd::arithmetic::div_mod::lemma_fundamental_div_mod(b as int, m as int);
    vstd::arithmetic::div_mod::lemma_mod_multiples_basic((a / m) as int, m as int);
    let x = (a / m) as int;
    let y = (b / m) as int;
    let n = m as int;
    assert(x * n == n * x) by (nonlinear_arith);
    assert(x * n == y * n ==> x == y) by (nonlinear_arith)
        requires
            n > 0,
    ;
    assert(0 <= x * n) by (nonlinear_arith)
        requires
            n > 0,
            x >= 0,
    ;
}

/// A prefix that is longer than its address is none.
pub proof fn law_overlong_prefixes_are_refused(s: Seq<char>, ip: IpAddr, n: nat)
    requires
        parse(s) == Some(ip),
        !s.contains('/'),
        n > ip.width(),
    ensures
        parse_cidr(s + "/"@ + text::decimal(n)) is None,
{
    reveal_strlit("/");
    assert("/"@ =~= seq!['/']);
    text::lemma_split_once(s, '/', text::decimal(n));
    text::lemma_digits(n, 10);
    let d = text::decimal(n);
    assert(text::is_digit(d[0]));
}

} // verus!
