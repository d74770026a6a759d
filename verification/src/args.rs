//! The daemon's arguments: addresses in text form, and what a static bring-up programs.

use vstd::prelude::*;
use vstd::string::StrSliceExecFns;

use crate::tables::{MapWrite, TablesView};
use crate::types::{
    IfaceKey, IfaceValue, Local, Port, PortMeta, Route, RouteKey, RouteValue, Uplink,
};

verus! {

/// The parts of a text between the separators.
pub open spec fn split(s: Seq<char>, sep: char) -> Seq<Seq<char>>
    decreases s.len(),
{
    if s.len() == 0 {
        seq![Seq::empty()]
    } else {
        let p = split(s.drop_last(), sep);
        if s.last() == sep {
            p.push(Seq::empty())
        } else {
            p.drop_last().push(p.last().push(s.last()))
        }
    }
}

/// The contents of a list of character lists.
pub open spec fn texts(v: Seq<Vec<char>>) -> Seq<Seq<char>> {
    Seq::new(v.len(), |i: int| v[i]@)
}

/// The characters of a text.
fn chars_of(s: &str) -> (r: Vec<char>)
    ensures
        r@ == s@,
{
    let n: usize = s.unicode_len();
    let mut r: Vec<char> = Vec::new();
    let mut i: usize = 0;
    while i < n
        invariant
            i <= n,
            n == s@.len(),
            r@ == s@.take(i as int),
        decreases n - i,
    {
        r.push(s.get_char(i));
        i = i + 1;
        assert(r@ =~= s@.take(i as int));
    }
    assert(s@.take(n as int) =~= s@);
    r
}

/// Split a text at the separators.
fn split_chars(s: &Vec<char>, sep: char) -> (r: Vec<Vec<char>>)
    ensures
        texts(r@) == split(s@, sep),
        r.len() > 0,
{
    let mut done: Vec<Vec<char>> = Vec::new();
    let mut part: Vec<char> = Vec::new();
    let mut i: usize = 0;
    assert(split(s@.take(0), sep) =~= texts(done@).push(part@));
    while i < s.len()
        invariant
            i <= s.len(),
            split(s@.take(i as int), sep) == texts(done@).push(part@),
        decreases s.len() - i,
    {
        let c: char = s[i];
        let ghost before = texts(done@);
        let ghost p = split(s@.take(i as int), sep);
        assert(p.drop_last() =~= before);
        assert(p.last() == part@);
        assert(s@.take(i + 1).drop_last() =~= s@.take(i as int));
        if c == sep {
            let mut next: Vec<char> = Vec::new();
            std::mem::swap(&mut part, &mut next);
            done.push(next);
            assert(texts(done@) =~= before.push(next@));
        } else {
            part.push(c);
        }
        i = i + 1;
    }
    assert(s@.take(i as int) =~= s@);
    let ghost before = texts(done@);
    done.push(part);
    assert(texts(done@) =~= before.push(part@));
    done
}

/// The value of a digit in base 16.
pub open spec fn digit(c: char) -> Option<int> {
    if '0' <= c <= '9' {
        Some(c as int - '0' as int)
    } else if 'a' <= c <= 'f' {
        Some(c as int - 'a' as int + 10)
    } else if 'A' <= c <= 'F' {
        Some(c as int - 'A' as int + 10)
    } else {
        None
    }
}

/// The value of a text as a number in base `radix` (at most 16), if all its characters are digits
/// of that base. A text without digits has none.
pub open spec fn digits_value(s: Seq<char>, radix: int) -> Option<int>
    decreases s.len(),
{
    if s.len() == 0 {
        None
    } else {
        match digit(s.last()) {
            Some(d) if d < radix => if s.len() == 1 {
                Some(d)
            } else {
                match digits_value(s.drop_last(), radix) {
                    Some(v) => Some(v * radix + d),
                    None => None,
                }
            },
            _ => None,
        }
    }
}

/// The number that a text stands for, in base `radix`, if it is at most `max`. A plus sign may
/// precede the digits.
pub open spec fn number(s: Seq<char>, radix: int, max: int) -> Option<int> {
    let digits = if s.len() > 0 && s[0] == '+' {
        s.skip(1)
    } else {
        s
    };
    match digits_value(digits, radix) {
        Some(v) if v <= max => Some(v),
        _ => None,
    }
}

fn to_digit(c: char) -> (r: Option<u32>)
    ensures
        match r {
            Some(d) => digit(c) == Some(d as int) && d < 16,
            None => digit(c) is None,
        },
{
    let n: u32 = c as u32;
    if 48 <= n && n <= 57 {
        Some(n - 48)
    } else if 97 <= n && n <= 102 {
        Some(n - 97 + 10)
    } else if 65 <= n && n <= 70 {
        Some(n - 65 + 10)
    } else {
        None
    }
}

proof fn lemma_value_nonneg(s: Seq<char>, radix: int)
    requires
        radix > 0,
    ensures
        digits_value(s, radix) matches Some(v) ==> v >= 0,
    decreases s.len(),
{
    if s.len() > 1 {
        lemma_value_nonneg(s.drop_last(), radix);
        match digits_value(s.drop_last(), radix) {
            Some(v) => {
                assert(v * radix >= 0) by (nonlinear_arith)
                    requires
                        v >= 0,
                        radix > 0,
                ;
            },
            None => {},
        }
    }
}

/// A text whose beginning is no number is no number.
proof fn lemma_no_value(s: Seq<char>, radix: int, n: int)
    requires
        0 < n <= s.len(),
        digits_value(s.take(n), radix) is None,
    ensures
        digits_value(s, radix) is None,
    decreases s.len(),
{
    if n == s.len() {
        assert(s.take(n) =~= s);
    } else {
        assert(s.drop_last().take(n) =~= s.take(n));
        lemma_no_value(s.drop_last(), radix, n);
    }
}

/// Parse a number, in base `radix`, of at most `max`.
fn parse_number(s: &Vec<char>, radix: u32, max: u32) -> (r: Option<u32>)
    requires
        2 <= radix <= 16,
    ensures
        match r {
            Some(v) => number(s@, radix as int, max as int) == Some(v as int),
            None => number(s@, radix as int, max as int) is None,
        },
{
    let len: usize = s.len();
    let start: usize = if len > 0 && s[0] == '+' {
        1
    } else {
        0
    };
    let ghost digits = s@.skip(start as int);
    assert(start == 0 ==> digits =~= s@);
    if start == len {
        return None;
    }
    let mut v: u64 = 0;
    let mut over: bool = false;
    let mut i: usize = start;
    while i < len
        invariant
            start <= i <= len,
            start < len,
            len == s.len(),
            2 <= radix <= 16,
            digits == s@.skip(start as int),
            v <= max,
            i == start ==> v == 0 && !over,
            i > start ==> match digits_value(digits.take(i - start), radix as int) {
                Some(w) => if over {
                    w > max
                } else {
                    w == v
                },
                None => false,
            },
            number(s@, radix as int, max as int) == (match digits_value(digits, radix as int) {
                Some(w) if w <= max => Some(w),
                _ => None,
            }),
        decreases len - i,
    {
        let ghost before = digits.take(i - start);
        let ghost here = digits.take(i - start + 1);
        assert(here.drop_last() =~= before);
        assert(here.last() == s@[i as int]);
        let d: u32 = match to_digit(s[i]) {
            Some(d) => d,
            None => {
                proof {
                    lemma_no_value(digits, radix as int, i - start + 1);
                }
                return None;
            },
        };
        if d >= radix {
            proof {
                lemma_no_value(digits, radix as int, i - start + 1);
            }
            return None;
        }
        assert(v * radix <= 4294967295 * 16) by (nonlinear_arith)
            requires
                v <= 4294967295,
                radix <= 16,
        ;
        let next: u64 = v * (radix as u64) + (d as u64);
        proof {
            if i > start {
                let w = digits_value(before, radix as int)->Some_0;
                lemma_value_nonneg(before, radix as int);
                if over {
                    assert(w * radix >= w) by (nonlinear_arith)
                        requires
                            w >= 0,
                            radix >= 2,
                    ;
                }
            }
        }
        if over || next > (max as u64) {
            over = true;
        } else {
            v = next;
        }
        i = i + 1;
    }
    assert(digits.take(i - start) =~= digits);
    if over {
        None
    } else {
        Some(v as u32)
    }
}

/// Why a text is no MAC address.
#[derive(Copy, Clone, Eq, PartialEq, Structural, Debug)]
pub enum MacError {
    /// One of the first six parts is no hexadecimal octet.
    BadOctet,
    TooManyOctets,
    TooFewOctets,
}

/// The octet that a part of a MAC address stands for.
pub open spec fn octet(part: Seq<char>) -> Option<int> {
    number(part, 16, 255)
}

/// Whether the first `n` parts are octets.
pub open spec fn octets_ok(parts: Seq<Seq<char>>, n: int) -> bool {
    forall|i: int| 0 <= i < n && i < parts.len() ==> octet(#[trigger] parts[i]) is Some
}

/// Parse `"aa:bb:cc:dd:ee:ff"` into six octets.
pub fn parse_mac(s: &str) -> (r: Result<[u8; 6], MacError>)
    ensures
        ({
            let parts = split(s@, ':');
            match r {
                Ok(mac) => parts.len() == 6 && forall|i: int|
                    0 <= i < 6 ==> octet(#[trigger] parts[i]) == Some(mac[i] as int),
                Err(MacError::BadOctet) => !octets_ok(parts, 6),
                Err(MacError::TooManyOctets) => octets_ok(parts, 6) && parts.len() > 6,
                Err(MacError::TooFewOctets) => octets_ok(parts, 6) && parts.len() < 6,
            }
        }),
{
    let chars = chars_of(s);
    let parts = split_chars(&chars, ':');
    let ghost view = split(s@, ':');
    let mut out: [u8; 6] = [0u8;6];
    let mut i: usize = 0;
    while i < parts.len()
        invariant
            i <= parts.len(),
            i <= 6,
            texts(parts@) == view,
            view == split(s@, ':'),
            forall|j: int| 0 <= j < i ==> octet(#[trigger] view[j]) == Some(out[j] as int),
        decreases parts.len() - i,
    {
        if i >= 6 {
            return Err(MacError::TooManyOctets);
        }
        assert(view[i as int] == parts@[i as int]@);
        match parse_number(&parts[i], 16, 255) {
            Some(v) => {
                out[i] = v as u8;
            },
            None => {
                assert(octet(view[i as int]) is None);
                return Err(MacError::BadOctet);
            },
        }
        i = i + 1;
    }
    if i != 6 {
        return Err(MacError::TooFewOctets);
    }
    Ok(out)
}

/// The octet that a part of an IPv4 address stands for: one to three decimal digits without a
/// leading zero, at most 255.
pub open spec fn decimal_octet(part: Seq<char>) -> Option<int> {
    if part.len() > 3 || (part.len() > 1 && part[0] == '0') {
        None
    } else {
        match digits_value(part, 10) {
            Some(v) if v <= 255 => Some(v),
            _ => None,
        }
    }
}

/// Whether a text is a dotted-decimal IPv4 address.
pub open spec fn is_ipv4(s: Seq<char>) -> bool {
    let parts = split(s, '.');
    parts.len() == 4 && forall|i: int|
        0 <= i < 4 ==> decimal_octet(#[trigger] parts[i]) is Some
}

fn parse_decimal_octet(part: &Vec<char>) -> (r: Option<u8>)
    ensures
        match r {
            Some(v) => decimal_octet(part@) == Some(v as int),
            None => decimal_octet(part@) is None,
        },
{
    let n: usize = part.len();
    if n == 0 || n > 3 || part[0] == '+' || (n > 1 && part[0] == '0') {
        proof {
            if n > 0 && part@[0] == '+' {
                assert(part@.take(1).last() == '+');
                lemma_no_value(part@, 10, 1);
            }
        }
        return None;
    }
    match parse_number(part, 10, 255) {
        Some(v) => Some(v as u8),
        None => None,
    }
}

/// Parse the characters of a dotted-decimal IPv4 address.
fn parse_quad(chars: &Vec<char>) -> (r: Option<[u8; 4]>)
    ensures
        match r {
            Some(ip) => is_ipv4(chars@) && forall|i: int|
                0 <= i < 4 ==> decimal_octet(#[trigger] split(chars@, '.')[i]) == Some(ip[i] as int),
            None => !is_ipv4(chars@),
        },
{
    let parts = split_chars(chars, '.');
    let ghost view = split(chars@, '.');
    if parts.len() != 4 {
        return None;
    }
    let mut out: [u8; 4] = [0u8;4];
    let mut i: usize = 0;
    while i < 4
        invariant
            i <= 4,
            parts.len() == 4,
            texts(parts@) == view,
            view == split(chars@, '.'),
            forall|j: int| 0 <= j < i ==> decimal_octet(#[trigger] view[j]) == Some(out[j] as int),
        decreases 4 - i,
    {
        assert(view[i as int] == parts@[i as int]@);
        match parse_decimal_octet(&parts[i]) {
            Some(v) => {
                out[i] = v;
            },
            None => {
                assert(decimal_octet(view[i as int]) is None);
                return None;
            },
        }
        i = i + 1;
    }
    Some(out)
}

/// Parse a dotted-decimal IPv4 address.
pub fn parse_ipv4(s: &str) -> (r: Option<[u8; 4]>)
    ensures
        match r {
            Some(ip) => is_ipv4(s@) && forall|i: int|
                0 <= i < 4 ==> decimal_octet(#[trigger] split(s@, '.')[i]) == Some(ip[i] as int),
            None => !is_ipv4(s@),
        },
{
    let chars = chars_of(s);
    parse_quad(&chars)
}

/// The 16-bit word that a part of an IPv6 address stands for: one to four hexadecimal digits.
pub open spec fn word(part: Seq<char>) -> Option<int> {
    if part.len() == 0 || part.len() > 4 || part[0] == '+' {
        None
    } else {
        number(part, 16, 65535)
    }
}

/// The words that a list of parts stands for, if every part is one.
pub open spec fn plain_words(parts: Seq<Seq<char>>) -> Option<Seq<int>>
    decreases parts.len(),
{
    if parts.len() == 0 {
        Some(Seq::empty())
    } else {
        match (plain_words(parts.drop_last()), word(parts.last())) {
            (Some(ws), Some(w)) => Some(ws.push(w)),
            _ => None,
        }
    }
}

/// The two words that a dotted-decimal IPv4 address stands for.
pub open spec fn quad_words(s: Seq<char>) -> Seq<int> {
    let o = split(s, '.');
    seq![
        decimal_octet(o[0])->Some_0 * 256 + decimal_octet(o[1])->Some_0,
        decimal_octet(o[2])->Some_0 * 256 + decimal_octet(o[3])->Some_0,
    ]
}

/// The words of a text with colons between them. Where `dotted`, an IPv4 address may stand for the
/// last two.
pub open spec fn words(s: Seq<char>, dotted: bool) -> Option<Seq<int>> {
    let parts = split(s, ':');
    if s.len() == 0 {
        Some(Seq::empty())
    } else if dotted && is_ipv4(parts.last()) {
        match plain_words(parts.drop_last()) {
            Some(ws) => Some(ws + quad_words(parts.last())),
            None => None,
        }
    } else {
        plain_words(parts)
    }
}

/// The position of the first two colons in a row, from `i` on.
pub open spec fn gap(s: Seq<char>, i: nat) -> Option<int>
    decreases s.len() - i,
{
    if i + 1 >= s.len() {
        None
    } else if s[i as int] == ':' && s[i as int + 1] == ':' {
        Some(i as int)
    } else {
        gap(s, i + 1)
    }
}

/// The eight words of an IPv6 address in text form. Two colons in a row, once, stand for one or
/// more zero words.
pub open spec fn address_words(s: Seq<char>) -> Option<Seq<int>> {
    match gap(s, 0) {
        None => match words(s, true) {
            Some(ws) if ws.len() == 8 => Some(ws),
            _ => None,
        },
        Some(j) => match (words(s.take(j), false), words(s.skip(j + 2), true)) {
            (Some(head), Some(tail)) if head.len() + tail.len() <= 7 => Some(
                head + Seq::new((8 - head.len() - tail.len()) as nat, |i: int| 0int) + tail,
            ),
            _ => None,
        },
    }
}

/// The numbers of a list.
pub open spec fn ints(v: Seq<u16>) -> Seq<int> {
    Seq::new(v.len(), |i: int| v[i] as int)
}

fn parse_word(part: &Vec<char>) -> (r: Option<u16>)
    ensures
        match r {
            Some(v) => word(part@) == Some(v as int),
            None => word(part@) is None,
        },
{
    let n: usize = part.len();
    if n == 0 || n > 4 || part[0] == '+' {
        return None;
    }
    match parse_number(part, 16, 65535) {
        Some(v) => Some(v as u16),
        None => None,
    }
}

/// A list of parts of which one of the first `n` is no word has no words.
proof fn lemma_no_words(parts: Seq<Seq<char>>, n: int)
    requires
        0 <= n <= parts.len(),
        plain_words(parts.take(n)) is None,
    ensures
        plain_words(parts) is None,
    decreases parts.len(),
{
    if n == parts.len() {
        assert(parts.take(n) =~= parts);
    } else {
        assert(parts.drop_last().take(n) =~= parts.take(n));
        lemma_no_words(parts.drop_last(), n);
    }
}

/// Parse the first `n` parts as words.
fn parse_plain_words(parts: &Vec<Vec<char>>, n: usize) -> (r: Option<Vec<u16>>)
    requires
        n <= parts.len(),
    ensures
        match r {
            Some(v) => plain_words(texts(parts@).take(n as int)) == Some(ints(v@)),
            None => plain_words(texts(parts@).take(n as int)) is None,
        },
{
    let ghost all = texts(parts@);
    let mut r: Vec<u16> = Vec::new();
    let mut i: usize = 0;
    assert(ints(r@) =~= Seq::empty());
    while i < n
        invariant
            i <= n <= parts.len(),
            all == texts(parts@),
            plain_words(all.take(i as int)) == Some(ints(r@)),
        decreases n - i,
    {
        let ghost here = all.take(i + 1);
        assert(here.drop_last() =~= all.take(i as int));
        assert(here.last() == parts@[i as int]@);
        match parse_word(&parts[i]) {
            Some(w) => {
                let ghost before = r@;
                r.push(w);
                assert(ints(r@) =~= ints(before).push(w as int));
            },
            None => {
                proof {
                    assert(plain_words(here) is None);
                    assert(all.take(n as int).take(i + 1) =~= here);
                    lemma_no_words(all.take(n as int), i + 1);
                }
                return None;
            },
        }
        i = i + 1;
    }
    Some(r)
}

/// Parse words with colons between them.
fn parse_words(s: &Vec<char>, dotted: bool) -> (r: Option<Vec<u16>>)
    ensures
        match r {
            Some(v) => words(s@, dotted) == Some(ints(v@)),
            None => words(s@, dotted) is None,
        },
{
    if s.len() == 0 {
        let r: Vec<u16> = Vec::new();
        assert(ints(r@) =~= Seq::empty());
        return Some(r);
    }
    let parts = split_chars(s, ':');
    let n: usize = parts.len();
    let ghost all = split(s@, ':');
    assert(all.last() == parts@[n - 1]@);
    assert(all.take(n as int) =~= all);
    if dotted {
        if let Some(ip) = parse_quad(&parts[n - 1]) {
            assert(all.take(n - 1) =~= all.drop_last());
            return match parse_plain_words(&parts, n - 1) {
                Some(v) => {
                    let mut v: Vec<u16> = v;
                    let ghost before = v@;
                    let ghost o = split(all.last(), '.');
                    assert(decimal_octet(o[0]) == Some(ip[0] as int));
                    assert(decimal_octet(o[1]) == Some(ip[1] as int));
                    assert(decimal_octet(o[2]) == Some(ip[2] as int));
                    assert(decimal_octet(o[3]) == Some(ip[3] as int));
                    v.push((ip[0] as u16) * 256 + (ip[1] as u16));
                    v.push((ip[2] as u16) * 256 + (ip[3] as u16));
                    assert(ints(v@) =~= ints(before) + quad_words(all.last()));
                    Some(v)
                },
                None => None,
            };
        }
    }
    parse_plain_words(&parts, n)
}

/// Find the first two colons in a row.
fn find_gap(s: &Vec<char>) -> (r: Option<usize>)
    ensures
        match r {
            Some(j) => gap(s@, 0) == Some(j as int) && j + 1 < s.len(),
            None => gap(s@, 0) is None,
        },
{
    let mut i: usize = 0;
    while i < s.len() && i + 1 < s.len()
        invariant
            i <= s.len(),
            gap(s@, 0) == gap(s@, i as nat),
        decreases s.len() - i,
    {
        if s[i] == ':' && s[i + 1] == ':' {
            return Some(i);
        }
        i = i + 1;
    }
    None
}

/// A part of a text.
fn slice_chars(s: &Vec<char>, lo: usize, hi: usize) -> (r: Vec<char>)
    requires
        lo <= hi <= s.len(),
    ensures
        r@ == s@.subrange(lo as int, hi as int),
{
    let mut r: Vec<char> = Vec::new();
    let mut i: usize = lo;
    while i < hi
        invariant
            lo <= i <= hi <= s.len(),
            r@ == s@.subrange(lo as int, i as int),
        decreases hi - i,
    {
        r.push(s[i]);
        i = i + 1;
    }
    r
}

/// Parse the eight words of an IPv6 address.
fn parse_address_words(s: &Vec<char>) -> (r: Option<Vec<u16>>)
    ensures
        match r {
            Some(v) => v.len() == 8 && address_words(s@) == Some(ints(v@)),
            None => address_words(s@) is None,
        },
{
    match find_gap(s) {
        None => match parse_words(s, true) {
            Some(v) => if v.len() == 8 {
                Some(v)
            } else {
                None
            },
            None => None,
        },
        Some(j) => {
            let before = slice_chars(s, 0, j);
            let after = slice_chars(s, j + 2, s.len());
            assert(before@ =~= s@.take(j as int));
            assert(after@ =~= s@.skip(j + 2));
            let mut head: Vec<u16> = match parse_words(&before, false) {
                Some(v) => v,
                None => {
                    return None;
                },
            };
            let mut tail: Vec<u16> = match parse_words(&after, true) {
                Some(v) => v,
                None => {
                    return None;
                },
            };
            if head.len() > 7 || tail.len() > 7 - head.len() {
                return None;
            }
            let ghost h = head@;
            let ghost t = tail@;
            let zeros: usize = 8 - head.len() - tail.len();
            let mut i: usize = 0;
            while i < zeros
                invariant
                    i <= zeros,
                    head@ == h + Seq::new(i as nat, |k: int| 0u16),
                decreases zeros - i,
            {
                head.push(0);
                i = i + 1;
                assert(head@ =~= h + Seq::new(i as nat, |k: int| 0u16));
            }
            head.append(&mut tail);
            assert(ints(head@) =~= ints(h) + Seq::new(zeros as nat, |k: int| 0int) + ints(t));
            Some(head)
        },
    }
}

/// Parse an IPv6 address in text form into sixteen octets.
pub fn parse_ipv6(s: &str) -> (r: Option<[u8; 16]>)
    ensures
        match r {
            Some(ip) => address_words(s@) matches Some(ws) && ws.len() == 8 && forall|i: int|
                0 <= i < 8 ==> #[trigger] ws[i] == ip[2 * i] * 256 + ip[2 * i + 1],
            None => address_words(s@) is None,
        },
{
    let chars = chars_of(s);
    let ws: Vec<u16> = match parse_address_words(&chars) {
        Some(v) => v,
        None => {
            return None;
        },
    };
    let mut out: [u8; 16] = [0u8;16];
    let mut i: usize = 0;
    while i < 8
        invariant
            i <= 8,
            ws.len() == 8,
            forall|j: int|
                0 <= j < i ==> (#[trigger] ws@[j]) == out[2 * j] * 256 + out[2 * j + 1],
        decreases 8 - i,
    {
        let ghost before = out;
        out[2 * i] = (ws[i] / 256) as u8;
        out[2 * i + 1] = (ws[i] % 256) as u8;
        assert forall|j: int| 0 <= j < i + 1 implies (#[trigger] ws@[j]) == out[2 * j] * 256 + out[2
            * j + 1] by {
            if j < i {
                assert(out[2 * j] == before[2 * j]);
                assert(out[2 * j + 1] == before[2 * j + 1]);
            }
        }
        i = i + 1;
    }
    proof {
        let v = ints(ws@);
        assert forall|j: int| 0 <= j < 8 implies #[trigger] v[j] == out[2 * j] * 256 + out[2 * j
            + 1] by {
            assert(v[j] == ws@[j]);
        }
    }
    Some(out)
}

/// Parse a table size.
pub fn parse_max_entries(s: &str) -> (r: Option<u32>)
    ensures
        match r {
            Some(v) => number(s@, 10, u32::MAX as int) == Some(v as int),
            None => number(s@, 10, u32::MAX as int) is None,
        },
{
    let chars = chars_of(s);
    parse_number(&chars, 10, 4294967295)
}

/// The position of the first separator of a text, from `i` on.
pub open spec fn index_of(s: Seq<char>, sep: char, i: nat) -> Option<int>
    decreases s.len() - i,
{
    if i >= s.len() {
        None
    } else if s[i as int] == sep {
        Some(i as int)
    } else {
        index_of(s, sep, i + 1)
    }
}

fn find_char(s: &str, sep: char, from: usize) -> (r: Option<usize>)
    requires
        from <= s@.len(),
    ensures
        match r {
            Some(i) => from <= i < s@.len() && index_of(s@, sep, from as nat) == Some(i as int),
            None => index_of(s@, sep, from as nat) is None,
        },
{
    let n: usize = s.unicode_len();
    let mut i: usize = from;
    while i < n
        invariant
            from <= i <= n,
            n == s@.len(),
            index_of(s@, sep, from as nat) == index_of(s@, sep, i as nat),
        decreases n - i,
    {
        if s.get_char(i) == sep {
            return Some(i);
        }
        i = i + 1;
    }
    None
}

/// Split a `<ifname>=<overlay_ipv4>` argument at its first equals sign.
pub fn split_guest(s: &str) -> (r: Option<(&str, &str)>)
    ensures
        match index_of(s@, '=', 0) {
            Some(i) => r matches Some((name, ip)) && name@ == s@.take(i) && ip@ == s@.skip(i + 1),
            None => r is None,
        },
{
    let n: usize = s.unicode_len();
    match find_char(s, '=', 0) {
        Some(i) => {
            let name = s.substring_char(0, i);
            let ip = s.substring_char(i + 1, n);
            assert(name@ =~= s@.take(i as int));
            assert(ip@ =~= s@.skip(i + 1));
            Some((name, ip))
        },
        None => None,
    }
}

/// Why a `<overlay_ipv4>=<nexthop_ipv6>=<nexthop_mac>` argument is refused.
#[derive(Copy, Clone, Eq, PartialEq, Structural, Debug)]
pub enum RemoteError {
    MissingNexthop,
    MissingMac,
}

/// Split a `<overlay_ipv4>=<nexthop_ipv6>=<nexthop_mac>` argument at its equals signs. What follows
/// a third one does not count.
pub fn split_remote(s: &str) -> (r: Result<(&str, &str, &str), RemoteError>)
    ensures
        match index_of(s@, '=', 0) {
            None => r matches Err(e) && e == RemoteError::MissingNexthop,
            Some(i) => match index_of(s@, '=', (i + 1) as nat) {
                None => r matches Err(e) && e == RemoteError::MissingMac,
                Some(j) => {
                    &&& r matches Ok((ip, nexthop, mac))
                    &&& ip@ == s@.take(i)
                    &&& nexthop@ == s@.subrange(i + 1, j)
                    &&& mac@ == s@.subrange(
                        j + 1,
                        match index_of(s@, '=', (j + 1) as nat) {
                            Some(k) => k,
                            None => s@.len() as int,
                        },
                    )
                },
            },
        },
{
    let n: usize = s.unicode_len();
    let i: usize = match find_char(s, '=', 0) {
        Some(i) => i,
        None => {
            return Err(RemoteError::MissingNexthop);
        },
    };
    let j: usize = match find_char(s, '=', i + 1) {
        Some(j) => j,
        None => {
            return Err(RemoteError::MissingMac);
        },
    };
    let end: usize = match find_char(s, '=', j + 1) {
        Some(k) => k,
        None => n,
    };
    let ip = s.substring_char(0, i);
    assert(ip@ =~= s@.take(i as int));
    Ok((ip, s.substring_char(i + 1, j), s.substring_char(j + 1, end)))
}

/// The change that records the uplink of a statically configured hypervisor, whose peers' MAC
/// addresses stand in its routes.
pub fn static_uplink(uplink_ifindex: u32, uplink_mac: [u8; 6], underlay_ipv6: [u8; 16]) -> (r:
    MapWrite)
    ensures
        r == MapWrite::Local(
            Uplink {
                local: Local { uplink_ifindex, uplink_mac, _pad: [0u8, 0], underlay_ipv6 },
                gateway_mac: [0u8, 0, 0, 0, 0, 0],
            },
        ),
{
    MapWrite::Local(
        Uplink {
            local: Local { uplink_ifindex, uplink_mac, _pad: [0u8, 0], underlay_ipv6 },
            gateway_mac: [0u8, 0, 0, 0, 0, 0],
        },
    )
}

/// The changes that program a statically configured guest, in VNI 0.
pub open spec fn guest_writes(
    tap: u32,
    mac: [u8; 6],
    ip: [u8; 4],
    gateway: [u8; 4],
    underlay: [u8; 16],
) -> Seq<MapWrite> {
    let zeros = [0u8, 0, 0, 0, 0, 0, 0, 0, 0, 0, 0, 0, 0, 0, 0, 0];
    seq![
        MapWrite::Port(
            tap,
            Port {
                meta: PortMeta {
                    vni: 0,
                    guest_ipv4: ip,
                    gateway_ipv4: gateway,
                    guest_mac: mac,
                    _pad: [0u8, 0],
                },
                underlay_ipv6: underlay,
                gateway_ipv6: zeros,
                guest_ipv6: zeros,
            },
        ),
        MapWrite::Iface(
            IfaceKey { vni: 0, ipv4: ip },
            IfaceValue {
                tap_ifindex: tap,
                is_local: 1,
                underlay_ipv6: underlay,
                guest_mac: mac,
                _pad: [0u8, 0],
            },
        ),
    ]
}

/// Program a statically configured guest.
pub fn static_guest(
    tap: u32,
    mac: [u8; 6],
    ip: [u8; 4],
    gateway: [u8; 4],
    underlay: [u8; 16],
) -> (r: Vec<MapWrite>)
    ensures
        r@ == guest_writes(tap, mac, ip, gateway, underlay),
{
    let zeros: [u8; 16] = [0u8, 0, 0, 0, 0, 0, 0, 0, 0, 0, 0, 0, 0, 0, 0, 0];
    let mut r: Vec<MapWrite> = Vec::new();
    r.push(
        MapWrite::Port(
            tap,
            Port {
                meta: PortMeta {
                    vni: 0,
                    guest_ipv4: ip,
                    gateway_ipv4: gateway,
                    guest_mac: mac,
                    _pad: [0u8, 0],
                },
                underlay_ipv6: underlay,
                gateway_ipv6: zeros,
                guest_ipv6: zeros,
            },
        ),
    );
    r.push(
        MapWrite::Iface(
            IfaceKey::new(0, ip),
            IfaceValue {
                tap_ifindex: tap,
                is_local: 1,
                underlay_ipv6: underlay,
                guest_mac: mac,
                _pad: [0u8, 0],
            },
        ),
    );
    r
}

/// Program the host route of a remote guest, in VNI 0.
pub fn static_remote(ip: [u8; 4], nexthop_ipv6: [u8; 16], nexthop_mac: [u8; 6]) -> (r: MapWrite)
    ensures
        r == MapWrite::Route(
            RouteKey { vni: 0, prefix_len: 32, ipv4: ip },
            Route {
                value: RouteValue { nexthop_vni: 0, nexthop_ipv6, nexthop_mac, _pad: [0u8, 0] },
                is_external: false,
            },
        ),
{
    MapWrite::Route(
        RouteKey { vni: 0, prefix_len: 32, ipv4: ip },
        Route {
            value: RouteValue { nexthop_vni: 0, nexthop_ipv6, nexthop_mac, _pad: [0u8, 0] },
            is_external: false,
        },
    )
}

/// A list of texts joined by a separator.
pub open spec fn joined(parts: Seq<Seq<char>>, sep: char) -> Seq<char>
    decreases parts.len(),
{
    if parts.len() == 0 {
        Seq::empty()
    } else if parts.len() == 1 {
        parts[0]
    } else {
        joined(parts.drop_last(), sep) + seq![sep] + parts.last()
    }
}

/// Splitting is undone by joining, and splits wherever it can: the parts of a text, joined by the
/// separator, are the text, and no part holds a separator.
pub proof fn law_split_is_undone_by_joining(s: Seq<char>, sep: char)
    ensures
        split(s, sep).len() >= 1,
        joined(split(s, sep), sep) == s,
        forall|i: int, j: int|
            0 <= i < split(s, sep).len() && 0 <= j < split(s, sep)[i].len() ==> #[trigger] split(
                s,
                sep,
            )[i][j] != sep,
    decreases s.len(),
{
    let parts = split(s, sep);
    if s.len() == 0 {
        assert(joined(parts, sep) =~= s);
    } else {
        let p = split(s.drop_last(), sep);
        law_split_is_undone_by_joining(s.drop_last(), sep);
        assert(s =~= s.drop_last().push(s.last()));
        if s.last() == sep {
            assert(parts.drop_last() =~= p);
            assert(joined(parts, sep) =~= joined(p, sep) + seq![sep] + Seq::<char>::empty());
            assert(joined(parts, sep) =~= s);
        } else {
            assert(parts.drop_last() =~= p.drop_last());
            assert(parts.last() =~= p.last().push(s.last()));
            if p.len() == 1 {
                assert(joined(p, sep) == p[0]);
                assert(joined(parts, sep) =~= s);
            } else {
                assert(joined(p, sep) == joined(p.drop_last(), sep) + seq![sep] + p.last());
                assert(joined(parts, sep) =~= s);
            }
            assert forall|i: int, j: int|
                0 <= i < parts.len() && 0 <= j < parts[i].len() implies #[trigger] parts[i][j]
                != sep by {
                if i < p.len() - 1 {
                    assert(parts[i] == p[i]);
                    assert(p[i][j] != sep);
                } else if j < p.last().len() {
                    assert(p[p.len() - 1][j] != sep);
                }
            }
        }
    }
}

/// Numbers are positional: a digit more multiplies what stands before it by the base. The digits of base
/// 16 are 0 to 9 and, in either case, a to f.
pub proof fn law_numbers_are_positional(s: Seq<char>, c: char, radix: int)
    requires
        2 <= radix <= 16,
    ensures
        '0' <= c <= '9' ==> digit(c) == Some(c as int - 48),
        'a' <= c <= 'f' ==> digit(c) == Some(c as int - 87),
        'A' <= c <= 'F' ==> digit(c) == Some(c as int - 55),
        !('0' <= c <= '9') && !('a' <= c <= 'f') && !('A' <= c <= 'F') ==> digit(c) is None,
        digits_value(Seq::empty(), radix) is None,
        digit(c) is Some && digit(c)->Some_0 < radix ==> digits_value(seq![c], radix) == digit(c),
        digits_value(s, radix) is Some && digit(c) is Some && digit(c)->Some_0 < radix
            ==> digits_value(s.push(c), radix) == Some(
            digits_value(s, radix)->Some_0 * radix + digit(c)->Some_0,
        ),
        digit(c) is None || digit(c)->Some_0 >= radix ==> digits_value(s.push(c), radix) is None,
{
    assert(s.push(c).drop_last() =~= s);
    assert(seq![c].last() == c);
}

/// A number is the value of its digits where that is not too large; one plus sign may stand before them.
pub proof fn law_number_is_its_digits(s: Seq<char>, radix: int, max: int)
    requires
        s.len() > 0,
    ensures
        s[0] != '+' && digits_value(s, radix) is Some && digits_value(s, radix)->Some_0 <= max
            ==> number(s, radix, max) == digits_value(s, radix),
        s[0] != '+' && (digits_value(s, radix) is None || digits_value(s, radix)->Some_0 > max)
            ==> number(s, radix, max) is None,
        number(seq!['+'] + s, radix, max) is Some ==> number(seq!['+'] + s, radix, max)
            == digits_value(s, radix),
{
    assert((seq!['+'] + s).skip(1) =~= s);
}

/// The first of its kind is found: nothing before it, from the start on, is a separator, and where none
/// is found there is none.
pub proof fn law_first_separator_is_found(s: Seq<char>, sep: char, from: nat)
    requires
        from <= s.len(),
    ensures
        match index_of(s, sep, from) {
            Some(i) => from <= i < s.len() && s[i] == sep && forall|j: int|
                from <= j < i ==> s[j] != sep,
            None => forall|j: int| from <= j < s.len() ==> s[j] != sep,
        },
    decreases s.len() - from,
{
    if from < s.len() && s[from as int] != sep {
        law_first_separator_is_found(s, sep, from + 1);
    }
}

/// The gap of an IPv6 address is its first two colons in a row.
pub proof fn law_gap_is_the_first_double_colon(s: Seq<char>, from: nat)
    ensures
        match gap(s, from) {
            Some(i) => from <= i && i + 1 < s.len() && s[i] == ':' && s[i + 1] == ':' && forall|
                j: int,
            |
                from <= j < i ==> !(#[trigger] s[j] == ':' && s[j + 1] == ':'),
            None => forall|j: int|
                from <= j && j + 1 < s.len() ==> !(#[trigger] s[j] == ':' && s[j + 1] == ':'),
        },
    decreases s.len() - from,
{
    if from + 1 < s.len() && !(s[from as int] == ':' && s[from as int + 1] == ':') {
        law_gap_is_the_first_double_colon(s, from + 1);
    }
}

/// A gap stands for as many zero words as are missing: the words before it come first, the words behind
/// it last, all words between them are zero, and there are eight.
pub proof fn law_gap_is_filled_with_zeros(s: Seq<char>, i: int)
    requires
        gap(s, 0) is Some,
        address_words(s) is Some,
    ensures
        ({
            let j = gap(s, 0)->Some_0;
            let head = words(s.take(j), false)->Some_0;
            let tail = words(s.skip(j + 2), true)->Some_0;
            let all = address_words(s)->Some_0;
            &&& all.len() == 8
            &&& head.len() + tail.len() < 8
            &&& 0 <= i < head.len() ==> all[i] == head[i]
            &&& head.len() <= i < 8 - tail.len() ==> all[i] == 0
            &&& 8 - tail.len() <= i < 8 ==> all[i] == tail[i - (8 - tail.len())]
        }),
{
}

/// Every word of an address is one to four hexadecimal digits, and every octet of a dotted quad one to
/// three decimal ones, at most 255, without a leading zero.
pub proof fn law_words_and_octets_have_few_digits(part: Seq<char>)
    ensures
        word(part) is Some ==> 1 <= part.len() <= 4 && word(part) == digits_value(part, 16),
        1 <= part.len() <= 4 && digits_value(part, 16) is Some && digits_value(part, 16)->Some_0
            <= 65535 ==> word(part) == digits_value(part, 16),
        decimal_octet(part) is Some ==> 1 <= part.len() <= 3 && decimal_octet(part)
            == digits_value(part, 10) && decimal_octet(part)->Some_0 <= 255,
        part.len() > 1 && part[0] == '0' ==> decimal_octet(part) is None,
        1 <= part.len() <= 3 && (part.len() == 1 || part[0] != '0') && digits_value(part, 10) is Some
            && digits_value(part, 10)->Some_0 <= 255 ==> decimal_octet(part) == digits_value(
            part,
            10,
        ),
{
    if part.len() >= 1 && part[0] == '+' {
        lemma_no_sign(part, 16);
    }
}

/// A sign is no digit.
proof fn lemma_no_sign(s: Seq<char>, radix: int)
    requires
        s.len() > 0,
        s[0] == '+',
    ensures
        digits_value(s, radix) is None,
    decreases s.len(),
{
    if s.len() > 1 {
        assert(s.drop_last()[0] == '+');
        lemma_no_sign(s.drop_last(), radix);
    }
}

/// The words of an address are in order: of a text of plain words, word `i` is that of part `i`; where a
/// dotted quad stands last, its four octets make the last two words.
pub proof fn law_words_are_in_order(parts: Seq<Seq<char>>, i: int, quad: Seq<char>)
    ensures
        plain_words(parts) is Some ==> plain_words(parts)->Some_0.len() == parts.len(),
        plain_words(parts) is Some && 0 <= i < parts.len() ==> word(parts[i]) == Some(
            plain_words(parts)->Some_0[i],
        ),
        plain_words(parts) is None ==> exists|j: int|
            0 <= j < parts.len() && word(#[trigger] parts[j]) is None,
        is_ipv4(quad) ==> quad_words(quad).len() == 2 && quad_words(quad)[0] / 256 == decimal_octet(
            split(quad, '.')[0],
        )->Some_0 && quad_words(quad)[0] % 256 == decimal_octet(split(quad, '.')[1])->Some_0
            && quad_words(quad)[1] / 256 == decimal_octet(split(quad, '.')[2])->Some_0
            && quad_words(quad)[1] % 256 == decimal_octet(split(quad, '.')[3])->Some_0,
    decreases parts.len(),
{
    if parts.len() > 0 {
        let p = parts.drop_last();
        law_words_are_in_order(p, i, quad);
        if plain_words(p) is None {
            let j = choose|j: int| 0 <= j < p.len() && word(#[trigger] p[j]) is None;
            assert(parts[j] == p[j]);
        } else if word(parts.last()) is None {
            assert(word(parts[parts.len() - 1]) is None);
        } else if 0 <= i < p.len() {
            assert(p[i] == parts[i]);
        }
    }
    if is_ipv4(quad) {
        let o = split(quad, '.');
        assert(decimal_octet(o[0]) is Some && decimal_octet(o[1]) is Some);
        assert(decimal_octet(o[2]) is Some && decimal_octet(o[3]) is Some);
        lemma_digits_nonneg(o[0]);
        lemma_digits_nonneg(o[1]);
        lemma_digits_nonneg(o[2]);
        lemma_digits_nonneg(o[3]);
    }
}

proof fn lemma_digits_nonneg(s: Seq<char>)
    ensures
        digits_value(s, 10) is Some ==> digits_value(s, 10)->Some_0 >= 0,
    decreases s.len(),
{
    if s.len() > 1 {
        lemma_digits_nonneg(s.drop_last());
    }
}

/// A statically configured guest is reachable in VNI 0: frames from its tap find its port, with its
/// address, gateway, MAC and underlay address, and its address finds its tap and MAC.
pub proof fn law_static_guest_is_reachable(
    t: TablesView,
    tap: u32,
    mac: [u8; 6],
    ip: [u8; 4],
    gateway: [u8; 4],
    underlay: [u8; 16],
)
    ensures
        ({
            let u = t.after_all(guest_writes(tap, mac, ip, gateway, underlay));
            let key = IfaceKey { vni: 0, ipv4: ip };
            &&& u.ports.contains_key(tap)
            &&& u.ports[tap].meta.vni == 0
            &&& u.ports[tap].meta.guest_ipv4 == ip
            &&& u.ports[tap].meta.gateway_ipv4 == gateway
            &&& u.ports[tap].meta.guest_mac == mac
            &&& u.ports[tap].underlay_ipv6 == underlay
            &&& u.interfaces.contains_key(key)
            &&& u.interfaces[key].tap_ifindex == tap
            &&& u.interfaces[key].is_local == 1
            &&& u.interfaces[key].guest_mac == mac
            &&& u.interfaces[key].underlay_ipv6 == underlay
            &&& u == (TablesView { ports: u.ports, interfaces: u.interfaces, ..t })
        }),
{
    let ws = guest_writes(tap, mac, ip, gateway, underlay);
    assert(ws.drop_last().drop_last() =~= Seq::<MapWrite>::empty());
    assert(t.after_all(Seq::<MapWrite>::empty()) == t);
    assert(ws.drop_last().last() == ws[0]);
    assert(t.after_all(ws.drop_last()) == t.after(ws[0]));
}

/// A text of words is its words in order: an empty text has none; a text with a dotted quad for its last
/// part, where one may stand, has the words of the parts before it and then the two of the quad; any other
/// has the words of its parts. An octet of a MAC address is a number of at most 255 in base 16, and a
/// dotted quad has four octets.
pub proof fn law_text_of_words_is_its_words(s: Seq<char>, dotted: bool)
    ensures
        words(Seq::empty(), dotted) == Some(Seq::<int>::empty()),
        s.len() > 0 && !(dotted && is_ipv4(split(s, ':').last())) ==> words(s, dotted)
            == plain_words(split(s, ':')),
        s.len() > 0 && dotted && is_ipv4(split(s, ':').last()) && plain_words(
            split(s, ':').drop_last(),
        ) is Some ==> words(s, dotted) == Some(
            plain_words(split(s, ':').drop_last())->Some_0 + quad_words(split(s, ':').last()),
        ),
        gap(s, 0) is None && words(s, true) is Some && words(s, true)->Some_0.len() == 8
            ==> address_words(s) == words(s, true),
        gap(s, 0) is None && address_words(s) is Some ==> words(s, true) == address_words(s)
            && address_words(s)->Some_0.len() == 8,
        octet(s) == number(s, 16, 255),
        is_ipv4(s) ==> split(s, '.').len() == 4,
        split(s, '.').len() == 4 && decimal_octet(split(s, '.')[0]) is Some && decimal_octet(
            split(s, '.')[1],
        ) is Some && decimal_octet(split(s, '.')[2]) is Some && decimal_octet(split(s, '.')[3]) is Some
            ==> is_ipv4(s),
{
    let o = split(s, '.');
    if o.len() == 4 && decimal_octet(o[0]) is Some && decimal_octet(o[1]) is Some && decimal_octet(
        o[2],
    ) is Some && decimal_octet(o[3]) is Some {
        assert forall|i: int| 0 <= i < 4 implies decimal_octet(#[trigger] o[i]) is Some by {
            if i == 0 {
                assert(decimal_octet(o[0]) is Some);
            } else if i == 1 {
                assert(decimal_octet(o[1]) is Some);
            } else if i == 2 {
                assert(decimal_octet(o[2]) is Some);
            }
        }
    }
}

} // verus!
