//! The textual forms of IPv4 and IPv6 addresses that a record may carry.
//!
//! An IPv4 literal is four fields joined by `.`, each of one to three decimal
//! digits with a value of at most 255 (leading zeros are allowed). An IPv6
//! literal is a list of fields joined by `:`, each of one to four hexadecimal
//! digits, whose last field may instead be an IPv4 literal standing for two
//! groups; it names eight groups in all, or it holds one `::` that stands for
//! at least one omitted group, with no IPv4 literal before it.

use vstd::prelude::*;

verus! {

/// A decimal digit, `0` to `9`.
pub open spec fn is_digit(c: char) -> bool {
    '0' <= c && c <= '9'
}

/// A hexadecimal digit, in either case.
pub open spec fn is_hex_digit(c: char) -> bool {
    is_digit(c) || ('a' <= c && c <= 'f') || ('A' <= c && c <= 'F')
}

/// The number that a string of decimal digits denotes.
pub open spec fn decimal(s: Seq<char>) -> int
    decreases s.len(),
{
    if s.len() == 0 {
        0
    } else {
        10 * decimal(s.drop_last()) + (s.last() as int - '0' as int)
    }
}

/// One to three decimal digits that denote at most 255.
pub open spec fn is_octet(s: Seq<char>) -> bool {
    &&& 1 <= s.len() <= 3
    &&& forall|i: int| 0 <= i < s.len() ==> is_digit(#[trigger] s[i])
    &&& decimal(s) <= 255
}

/// One to four hexadecimal digits.
pub open spec fn is_group(s: Seq<char>) -> bool {
    &&& 1 <= s.len() <= 4
    &&& forall|i: int| 0 <= i < s.len() ==> is_hex_digit(#[trigger] s[i])
}

/// The pieces of `s` between the occurrences of `sep`: one more piece than
/// there are separators, each possibly empty.
pub open spec fn fields(s: Seq<char>, sep: char) -> Seq<Seq<char>>
    decreases s.len(),
{
    if s.len() == 0 {
        seq![Seq::empty()]
    } else {
        let before = fields(s.drop_last(), sep);
        if s.last() == sep {
            before.push(Seq::empty())
        } else {
            before.update(before.len() - 1, before.last().push(s.last()))
        }
    }
}

/// Four fields joined by `.`, each an octet.
pub open spec fn is_ipv4_literal(s: Seq<char>) -> bool {
    let f = fields(s, '.');
    f.len() == 4 && forall|i: int| 0 <= i < 4 ==> is_octet(#[trigger] f[i])
}

/// Every field is a hexadecimal group.
pub open spec fn all_groups(f: Seq<Seq<char>>) -> bool {
    forall|i: int| 0 <= i < f.len() ==> is_group(#[trigger] f[i])
}

/// The number of 16-bit groups that a list of fields names: one for each
/// hexadecimal field, and two for an IPv4 literal in the last place. `None`
/// where the list is empty or a field is neither.
pub open spec fn width(f: Seq<Seq<char>>) -> Option<int> {
    if f.len() >= 1 && all_groups(f.drop_last()) {
        if is_group(f.last()) {
            Some(f.len() as int)
        } else if is_ipv4_literal(f.last()) {
            Some(f.len() as int + 1)
        } else {
            None
        }
    } else {
        None
    }
}

/// The groups named before a `::`: none where nothing stands there, else
/// hexadecimal fields only.
pub open spec fn head_width(f: Seq<Seq<char>>) -> Option<int> {
    if f.len() == 1 && f[0].len() == 0 {
        Some(0)
    } else if f.len() >= 1 && all_groups(f) {
        Some(f.len() as int)
    } else {
        None
    }
}

/// The groups named after a `::`: none where nothing stands there.
pub open spec fn tail_width(f: Seq<Seq<char>>) -> Option<int> {
    if f.len() == 1 && f[0].len() == 0 {
        Some(0)
    } else {
        width(f)
    }
}

/// Field `i` is the empty piece inside a `::`, and what stands on its two
/// sides names at most seven groups.
pub open spec fn compressed_at(f: Seq<Seq<char>>, i: int) -> bool {
    &&& 0 < i < f.len() - 1
    &&& f[i].len() == 0
    &&& head_width(f.subrange(0, i)) is Some
    &&& tail_width(f.subrange(i + 1, f.len() as int)) is Some
    &&& head_width(f.subrange(0, i))->0 + tail_width(f.subrange(i + 1, f.len() as int))->0 <= 7
}

/// Fields joined by `:` that name eight groups, or that name seven at most
/// around one `::`.
pub open spec fn is_ipv6_literal(s: Seq<char>) -> bool {
    let f = fields(s, ':');
    width(f) == Some(8int) || exists|i: int| compressed_at(f, i)
}

/// What a record's address must be.
pub open spec fn is_address_literal(s: Seq<char>) -> bool {
    is_ipv4_literal(s) || is_ipv6_literal(s)
}

/// The fields of a split string, each as a character sequence.
pub open spec fn views(f: Seq<Vec<char>>) -> Seq<Seq<char>> {
    Seq::new(f.len(), |i: int| f[i]@)
}

fn chars_of(s: &str) -> (v: Vec<char>)
    ensures
        v@ == s@,
{
    let mut v: Vec<char> = Vec::new();
    for c in it: s.chars()
        invariant
            v@ == it.seq().take(it.index() as int),
            it.seq() == s@,
    {
        v.push(c);
        assert(v@ =~= it.seq().take(it.index() + 1));
    }
    assert(s@.take(s@.len() as int) =~= s@);
    v
}

fn split(s: &Vec<char>, sep: char) -> (out: Vec<Vec<char>>)
    ensures
        views(out@) == fields(s@, sep),
{
    let mut out: Vec<Vec<char>> = Vec::new();
    let mut cur: Vec<char> = Vec::new();
    let n = s.len();
    let mut i: usize = 0;
    while i < n
        invariant
            i <= n,
            n == s@.len(),
            views(out@).push(cur@) == fields(s@.take(i as int), sep),
        decreases n - i,
    {
        let ghost before = views(out@).push(cur@);
        proof {
            assert(s@.take(i + 1).drop_last() =~= s@.take(i as int));
        }
        let c = s[i];
        if c == sep {
            out.push(cur);
            cur = Vec::new();
            assert(views(out@).push(cur@) =~= before.push(Seq::empty()));
        } else {
            cur.push(c);
            assert(views(out@).push(cur@) =~= before.update(
                before.len() - 1,
                before.last().push(c),
            ));
        }
        i += 1;
    }
    let ghost before = views(out@).push(cur@);
    out.push(cur);
    assert(s@.take(n as int) =~= s@);
    assert(views(out@) =~= before);
    out
}

fn digit(c: char) -> (b: bool)
    ensures
        b == is_digit(c),
{
    '0' <= c && c <= '9'
}

fn hex_digit(c: char) -> (b: bool)
    ensures
        b == is_hex_digit(c),
{
    digit(c) || ('a' <= c && c <= 'f') || ('A' <= c && c <= 'F')
}

fn octet(f: &Vec<char>) -> (b: bool)
    ensures
        b == is_octet(f@),
{
    let n = f.len();
    if n < 1 || n > 3 {
        return false;
    }
    let mut value: u32 = 0;
    let mut i: usize = 0;
    while i < n
        invariant
            i <= n,
            n == f@.len(),
            n <= 3,
            forall|j: int| 0 <= j < i ==> is_digit(#[trigger] f@[j]),
            value == decimal(f@.take(i as int)),
            value <= 999,
            i < 3 ==> value <= 99,
            i < 2 ==> value <= 9,
            i < 1 ==> value == 0,
        decreases n - i,
    {
        let c = f[i];
        if !digit(c) {
            return false;
        }
        proof {
            assert(f@.take(i + 1).drop_last() =~= f@.take(i as int));
        }
        value = value * 10 + (c as u32 - '0' as u32);
        i += 1;
    }
    assert(f@.take(n as int) =~= f@);
    value <= 255
}

fn group(f: &Vec<char>) -> (b: bool)
    ensures
        b == is_group(f@),
{
    let n = f.len();
    if n < 1 || n > 4 {
        return false;
    }
    let mut i: usize = 0;
    while i < n
        invariant
            i <= n,
            n == f@.len(),
            forall|j: int| 0 <= j < i ==> is_hex_digit(#[trigger] f@[j]),
        decreases n - i,
    {
        if !hex_digit(f[i]) {
            return false;
        }
        i += 1;
    }
    true
}

fn ipv4(s: &Vec<char>) -> (b: bool)
    ensures
        b == is_ipv4_literal(s@),
{
    let f = split(s, '.');
    if f.len() != 4 {
        return false;
    }
    let mut i: usize = 0;
    while i < 4
        invariant
            i <= 4,
            f@.len() == 4,
            views(f@) == fields(s@, '.'),
            forall|j: int| 0 <= j < i ==> is_octet(#[trigger] fields(s@, '.')[j]),
        decreases 4 - i,
    {
        assert(views(f@)[i as int] == f@[i as int]@);
        if !octet(&f[i]) {
            return false;
        }
        i += 1;
    }
    true
}

/// Whether the fields from `lo` up to `hi` are all hexadecimal groups.
fn groups(f: &Vec<Vec<char>>, lo: usize, hi: usize) -> (b: bool)
    requires
        lo <= hi <= f@.len(),
    ensures
        b == all_groups(views(f@).subrange(lo as int, hi as int)),
{
    let ghost part = views(f@).subrange(lo as int, hi as int);
    let mut i: usize = lo;
    while i < hi
        invariant
            lo <= i <= hi <= f@.len(),
            part == views(f@).subrange(lo as int, hi as int),
            forall|j: int| 0 <= j < i - lo ==> is_group(#[trigger] part[j]),
        decreases hi - i,
    {
        assert(part[i - lo] == f@[i as int]@);
        if !group(&f[i]) {
            return false;
        }
        i += 1;
    }
    true
}

fn width_of(f: &Vec<Vec<char>>, lo: usize, hi: usize) -> (w: Option<usize>)
    requires
        lo <= hi <= f@.len(),
        hi - lo < usize::MAX,
    ensures
        match width(views(f@).subrange(lo as int, hi as int)) {
            Some(n) => w == Some(n as usize) && n <= hi - lo + 1,
            None => w is None,
        },
{
    let ghost part = views(f@).subrange(lo as int, hi as int);
    if hi == lo {
        return None;
    }
    assert(part.drop_last() =~= views(f@).subrange(lo as int, hi - 1));
    assert(part.last() == f@[hi - 1]@);
    if !groups(f, lo, hi - 1) {
        return None;
    }
    if group(&f[hi - 1]) {
        Some(hi - lo)
    } else if ipv4(&f[hi - 1]) {
        Some(hi - lo + 1)
    } else {
        None
    }
}

fn head_width_of(f: &Vec<Vec<char>>, hi: usize) -> (w: Option<usize>)
    requires
        hi <= f@.len(),
    ensures
        match head_width(views(f@).subrange(0, hi as int)) {
            Some(n) => w == Some(n as usize) && n <= hi,
            None => w is None,
        },
{
    let ghost part = views(f@).subrange(0, hi as int);
    if hi == 0 {
        return None;
    }
    assert(part[0] == f@[0]@);
    if hi == 1 && f[0].len() == 0 {
        Some(0)
    } else if groups(f, 0, hi) {
        Some(hi)
    } else {
        None
    }
}

fn tail_width_of(f: &Vec<Vec<char>>, lo: usize) -> (w: Option<usize>)
    requires
        0 < lo <= f@.len(),
    ensures
        match tail_width(views(f@).subrange(lo as int, f@.len() as int)) {
            Some(n) => w == Some(n as usize) && n <= f@.len() - lo + 1,
            None => w is None,
        },
{
    let n = f.len();
    let ghost part = views(f@).subrange(lo as int, n as int);
    if n - lo == 1 {
        assert(part[0] == f@[lo as int]@);
        if f[lo].len() == 0 {
            return Some(0);
        }
    }
    width_of(f, lo, n)
}

/// No list of more than nine fields is an IPv6 literal.
proof fn lemma_at_most_nine_fields(f: Seq<Seq<char>>)
    requires
        f.len() > 9,
    ensures
        width(f) != Some(8int),
        forall|i: int| !compressed_at(f, i),
{
}

fn ipv6(s: &Vec<char>) -> (b: bool)
    ensures
        b == is_ipv6_literal(s@),
{
    let f = split(s, ':');
    let n = f.len();
    let ghost fv = views(f@);
    if n > 9 {
        proof {
            lemma_at_most_nine_fields(fv);
        }
        return false;
    }
    assert(fv.subrange(0, n as int) =~= fv);
    match width_of(&f, 0, n) {
        Some(w) => {
            if w == 8 {
                return true;
            }
        },
        None => {},
    }
    let mut i: usize = 1;
    while i + 1 < n
        invariant
            1 <= i <= 9,
            n == f@.len(),
            n <= 9,
            fv == views(f@),
            fv == fields(s@, ':'),
            width(fv) != Some(8int),
            forall|j: int| 0 < j < i ==> !compressed_at(fv, j),
        decreases n - i,
    {
        assert(fv[i as int] == f@[i as int]@);
        if f[i].len() == 0 {
            let head = head_width_of(&f, i);
            let tail = tail_width_of(&f, i + 1);
            match (head, tail) {
                (Some(h), Some(t)) => {
                    if h + t <= 7 {
                        assert(compressed_at(fv, i as int));
                        return true;
                    }
                },
                _ => {},
            }
        }
        i += 1;
    }
    false
}

/// Whether `s` is an IPv4 literal.
pub fn is_ipv4(s: &str) -> (b: bool)
    ensures
        b == is_ipv4_literal(s@),
{
    let chars = chars_of(s);
    ipv4(&chars)
}

/// Whether `s` is an IPv6 literal.
pub fn is_ipv6(s: &str) -> (b: bool)
    ensures
        b == is_ipv6_literal(s@),
{
    let chars = chars_of(s);
    ipv6(&chars)
}

/// Whether `s` is an address that a record may carry.
pub fn is_address(s: &str) -> (b: bool)
    ensures
        b == is_address_literal(s@),
{
    let chars = chars_of(s);
    ipv4(&chars) || ipv6(&chars)
}

} // verus!
