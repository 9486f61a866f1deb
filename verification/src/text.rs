//! Strings as sequences of characters: comparison, trimming, splitting,
//! decimal numbers and dotted-quad addresses.

use vstd::prelude::*;
use vstd::string::*;
use vstd::utf8::*;

verus! {

/// The characters of `s`, in order.
pub fn chars_of(s: &str) -> (out: Vec<char>)
    ensures
        out@ == s@,
{
    let mut out: Vec<char> = Vec::new();
    for c in it: s.chars()
        invariant
            it.seq() == s@,
            out@ == s@.take(it.index() as int),
    {
        proof {
            assert(s@.take(it.index() + 1) =~= s@.take(it.index() as int).push(c));
        }
        out.push(c);
    }
    proof {
        assert(s@.take(s@.len() as int) =~= s@);
    }
    out
}

/// The text that `bytes` is the UTF-8 encoding of.
///
/// Calls `core::str::from_utf8`, of which it is claimed that it succeeds on
/// valid UTF-8 and on nothing else, and that it then gives the characters that
/// the bytes encode.
#[verifier::external_body]
pub(crate) fn utf8_text(bytes: &[u8]) -> (out: Option<&str>)
    ensures
        match out {
            Some(s) => valid_utf8(bytes@) && s@ == decode_utf8(bytes@),
            None => !valid_utf8(bytes@),
        },
{
    core::str::from_utf8(bytes).ok()
}

/// `a` comes strictly before `b` in the byte-wise dictionary order.
pub open spec fn lex_before(a: Seq<u8>, b: Seq<u8>) -> bool {
    exists|k: int| #[trigger] lex_split(a, b, k)
}

/// `a` and `b` agree on their first `k` bytes and `a` is smaller at `k`.
pub open spec fn lex_split(a: Seq<u8>, b: Seq<u8>, k: int) -> bool {
    &&& 0 <= k <= a.len()
    &&& k < b.len()
    &&& forall|i: int| 0 <= i < k ==> a[i] == b[i]
    &&& (k == a.len() || a[k] < b[k])
}

/// The dictionary order on strings: that of their UTF-8 bytes.
pub open spec fn str_before(a: Seq<char>, b: Seq<char>) -> bool {
    lex_before(encode_utf8(a), encode_utf8(b))
}

/// No string comes before itself.
pub proof fn str_before_irreflexive(a: Seq<char>)
    ensures
        !str_before(a, a),
{
}

/// The dictionary order is transitive.
pub proof fn str_before_transitive(a: Seq<char>, b: Seq<char>, c: Seq<char>)
    requires
        str_before(a, b),
        str_before(b, c),
    ensures
        str_before(a, c),
{
    let (x, y, z) = (encode_utf8(a), encode_utf8(b), encode_utf8(c));
    let i = choose|k: int| #[trigger] lex_split(x, y, k);
    let j = choose|k: int| #[trigger] lex_split(y, z, k);
    if i <= j {
        assert(lex_split(x, z, i));
    } else {
        assert(lex_split(x, z, j));
    }
}

/// Of two different strings one comes before the other.
pub proof fn str_before_total(a: Seq<char>, b: Seq<char>)
    requires
        a != b,
    ensures
        str_before(a, b) || str_before(b, a),
{
    let (x, y) = (encode_utf8(a), encode_utf8(b));
    encode_utf8_decode_utf8(a);
    encode_utf8_decode_utf8(b);
    assert(x != y);
    lex_total(x, y);
}

/// Two different byte strings have a first place where they differ.
proof fn lex_total(x: Seq<u8>, y: Seq<u8>)
    requires
        x != y,
    ensures
        lex_before(x, y) || lex_before(y, x),
    decreases x.len(),
{
    if x.len() == 0 {
        assert(x =~= Seq::<u8>::empty());
        if y.len() == 0 {
            assert(y =~= x);
        }
        assert(lex_split(x, y, 0));
    } else if y.len() == 0 {
        assert(lex_split(y, x, 0));
    } else if x[0] != y[0] {
        assert(lex_split(x, y, 0) || lex_split(y, x, 0));
    } else {
        let (u, v) = (x.drop_first(), y.drop_first());
        if u == v {
            assert(x =~= seq![x[0]] + u);
            assert(y =~= seq![y[0]] + v);
        }
        lex_total(u, v);
        if lex_before(u, v) {
            let k = choose|k: int| #[trigger] lex_split(u, v, k);
            assert forall|i: int| 0 <= i < k + 1 implies x[i] == y[i] by {
                if i > 0 {
                    assert(x[i] == u[i - 1]);
                    assert(y[i] == v[i - 1]);
                }
            }
            assert(lex_split(x, y, k + 1));
        } else {
            let k = choose|k: int| #[trigger] lex_split(v, u, k);
            assert forall|i: int| 0 <= i < k + 1 implies x[i] == y[i] by {
                if i > 0 {
                    assert(x[i] == u[i - 1]);
                    assert(y[i] == v[i - 1]);
                }
            }
            assert(lex_split(y, x, k + 1));
        }
    }
}

/// Two strings hold the same characters.
pub fn str_eq(a: &str, b: &str) -> (same: bool)
    ensures
        same == (a@ == b@),
{
    let x: &[u8] = a.as_bytes();
    let y: &[u8] = b.as_bytes();
    proof {
        encode_utf8_decode_utf8(a@);
        encode_utf8_decode_utf8(b@);
    }
    bytes_eq(x, y)
}

/// Two byte slices hold the same bytes.
pub fn bytes_eq(x: &[u8], y: &[u8]) -> (same: bool)
    ensures
        same == (x@ == y@),
{
    if x.len() != y.len() {
        return false;
    }
    let mut i: usize = 0;
    while i < x.len()
        invariant
            i <= x.len(),
            x.len() == y.len(),
            forall|j: int| 0 <= j < i ==> x[j] == y[j],
        decreases x.len() - i,
    {
        if x[i] != y[i] {
            return false;
        }
        i += 1;
    }
    assert(x@ =~= y@);
    true
}

/// `a` comes strictly before `b` in the dictionary order of strings.
pub fn str_lt(a: &str, b: &str) -> (before: bool)
    ensures
        before == str_before(a@, b@),
{
    let x: &[u8] = a.as_bytes();
    let y: &[u8] = b.as_bytes();
    let mut i: usize = 0;
    while i < x.len() && i < y.len()
        invariant
            x@ == encode_utf8(a@),
            y@ == encode_utf8(b@),
            i <= x.len(),
            i <= y.len(),
            forall|j: int| 0 <= j < i ==> x[j] == y[j],
        decreases x.len() - i,
    {
        if x[i] != y[i] {
            proof {
                assert forall|k: int| lex_split(x@, y@, k) implies k == i by {
                    if k < i {
                        assert(x[k] == y[k]);
                    }
                    if k > i {
                        assert(x@[i as int] == y@[i as int]);
                    }
                }
                if x[i as int] < y[i as int] {
                    assert(lex_split(x@, y@, i as int));
                }
            }
            return x[i] < y[i];
        }
        i += 1;
    }
    proof {
        assert forall|k: int| lex_split(x@, y@, k) implies k == i && i == x.len() by {
            if k < i {
                assert(x[k] == y[k]);
            }
        }
        if i == x.len() && i < y.len() {
            assert(lex_split(x@, y@, i as int));
        }
    }
    i < y.len()
}

/// The characters with the Unicode property White_Space.
pub open spec fn is_white(c: char) -> bool {
    let u = c as u32;
    ||| 0x09 <= u <= 0x0d
    ||| u == 0x20
    ||| u == 0x85
    ||| u == 0xa0
    ||| u == 0x1680
    ||| 0x2000 <= u <= 0x200a
    ||| u == 0x2028
    ||| u == 0x2029
    ||| u == 0x202f
    ||| u == 0x205f
    ||| u == 0x3000
}

/// `s` without the white space at its two ends.
pub open spec fn trimmed(s: Seq<char>) -> Seq<char>
    decreases s.len(),
{
    if s.len() == 0 {
        s
    } else if is_white(s[0]) {
        trimmed(s.subrange(1, s.len() as int))
    } else if is_white(s[s.len() - 1]) {
        trimmed(s.subrange(0, s.len() - 1))
    } else {
        s
    }
}

/// Whether `c` is white space.
fn white(c: char) -> (w: bool)
    ensures
        w == is_white(c),
{
    let u: u32 = c as u32;
    (0x09 <= u && u <= 0x0d) || u == 0x20 || u == 0x85 || u == 0xa0 || u == 0x1680 || (0x2000 <= u
        && u <= 0x200a) || u == 0x2028 || u == 0x2029 || u == 0x202f || u == 0x205f || u == 0x3000
}

/// `s` without leading and trailing white space.
pub fn trim(s: &str) -> (out: &str)
    ensures
        out@ == trimmed(s@),
{
    let cs: Vec<char> = chars_of(s);
    let mut lo: usize = 0;
    let mut hi: usize = cs.len();
    proof {
        assert(cs@.subrange(0, hi as int) =~= cs@);
    }
    while lo < hi && white(cs[lo])
        invariant
            lo <= hi == cs.len(),
            trimmed(cs@) == trimmed(cs@.subrange(lo as int, hi as int)),
        decreases hi - lo,
    {
        proof {
            let w = cs@.subrange(lo as int, hi as int);
            assert(w[0] == cs[lo as int]);
            assert(w.subrange(1, w.len() as int) =~= cs@.subrange(lo + 1, hi as int));
        }
        lo += 1;
    }
    while lo < hi && white(cs[hi - 1])
        invariant
            lo <= hi <= cs.len(),
            lo < hi ==> !is_white(cs[lo as int]),
            trimmed(cs@) == trimmed(cs@.subrange(lo as int, hi as int)),
        decreases hi - lo,
    {
        proof {
            let w = cs@.subrange(lo as int, hi as int);
            assert(w[0] == cs[lo as int]);
            assert(w[w.len() - 1] == cs[hi - 1]);
            assert(w.subrange(0, w.len() - 1) =~= cs@.subrange(lo as int, hi - 1));
        }
        hi -= 1;
    }
    proof {
        let w = cs@.subrange(lo as int, hi as int);
        if lo < hi {
            assert(w[0] == cs[lo as int]);
            assert(w[w.len() - 1] == cs[hi - 1]);
        }
    }
    s.substring_char(lo, hi)
}

/// The pieces of `s` between the occurrences of `sep`, in order.
pub open spec fn split_on(s: Seq<char>, sep: char) -> Seq<Seq<char>>
    decreases s.len(),
{
    if s.len() == 0 {
        seq![Seq::<char>::empty()]
    } else {
        let rest = split_on(s.drop_last(), sep);
        if s.last() == sep {
            rest.push(Seq::empty())
        } else {
            rest.update(rest.len() - 1, rest.last().push(s.last()))
        }
    }
}

/// There is always at least one piece.
proof fn split_on_nonempty(s: Seq<char>, sep: char)
    ensures
        split_on(s, sep).len() >= 1,
    decreases s.len(),
{
    if s.len() > 0 {
        split_on_nonempty(s.drop_last(), sep);
    }
}

/// A list of strings as a sequence of character sequences.
pub open spec fn pieces_view(v: Seq<Vec<char>>) -> Seq<Seq<char>> {
    Seq::new(v.len(), |i: int| v[i]@)
}

/// Splits `s` at each `sep`.
pub fn split_chars(s: &Vec<char>, sep: char) -> (out: Vec<Vec<char>>)
    ensures
        pieces_view(out@) == split_on(s@, sep),
        out@.len() >= 1,
{
    let mut out: Vec<Vec<char>> = Vec::new();
    let mut cur: Vec<char> = Vec::new();
    let mut i: usize = 0;
    proof {
        assert(s@.take(0) =~= Seq::<char>::empty());
        assert(pieces_view(out@).push(cur@) =~= seq![Seq::<char>::empty()]);
    }
    while i < s.len()
        invariant
            i <= s.len(),
            pieces_view(out@).push(cur@) == split_on(s@.take(i as int), sep),
        decreases s.len() - i,
    {
        let c: char = s[i];
        proof {
            let t = s@.take(i + 1);
            assert(t.drop_last() =~= s@.take(i as int));
            assert(t.last() == c);
        }
        let ghost before = pieces_view(out@).push(cur@);
        if c == sep {
            let ghost prev = out@;
            let ghost piece = cur;
            out.push(cur);
            cur = Vec::new();
            proof {
                assert(pieces_view(out@) =~= pieces_view(prev).push(piece@));
                assert(pieces_view(out@).push(cur@) =~= before.push(Seq::empty()));
            }
        } else {
            let ghost old_cur = cur@;
            cur.push(c);
            proof {
                assert(pieces_view(out@).push(cur@) =~= before.update(
                    before.len() - 1,
                    before.last().push(c),
                ));
            }
        }
        i += 1;
    }
    proof {
        assert(s@.take(s@.len() as int) =~= s@);
    }
    let ghost prev = out@;
    let ghost piece = cur;
    out.push(cur);
    proof {
        assert(pieces_view(out@) =~= pieces_view(prev).push(piece@));
    }
    out
}

/// Whether `c` is one of `0` to `9`.
pub open spec fn is_digit(c: char) -> bool {
    '0' <= c && c <= '9'
}

/// The number that a string of decimal digits stands for.
pub open spec fn dec_value(s: Seq<char>) -> int
    decreases s.len(),
{
    if s.len() == 0 {
        0
    } else {
        10 * dec_value(s.drop_last()) + (s.last() as int - '0' as int)
    }
}

/// Every character of `s` is a decimal digit.
pub open spec fn all_digits(s: Seq<char>) -> bool {
    forall|i: int| 0 <= i < s.len() ==> is_digit(#[trigger] s[i])
}

/// A string of digits stands for a number that is not negative, and each
/// further digit keeps or raises it.
pub proof fn dec_value_grows(s: Seq<char>, k: int)
    requires
        all_digits(s),
        0 <= k <= s.len(),
    ensures
        0 <= dec_value(s.take(k)) <= dec_value(s),
    decreases s.len(),
{
    if s.len() > 0 {
        let t = s.drop_last();
        assert(is_digit(s[s.len() - 1]));
        assert forall|i: int| 0 <= i < t.len() implies is_digit(#[trigger] t[i]) by {
            assert(is_digit(s[i]));
        }
        if k < s.len() {
            assert(t.take(k) =~= s.take(k));
            dec_value_grows(t, k);
        } else {
            assert(s.take(k) =~= s);
            dec_value_grows(t, t.len() as int);
            assert(t.take(t.len() as int) =~= t);
        }
    } else {
        assert(s.take(k) =~= s);
    }
}

/// The value of `s` as a number of at most eight bits written in digits, with
/// or without a leading `+` and with any number of leading zeros.
pub open spec fn u8_of(s: Seq<char>) -> Option<u8> {
    let d = if s.len() > 1 && s[0] == '+' {
        s.subrange(1, s.len() as int)
    } else {
        s
    };
    if d.len() > 0 && all_digits(d) && dec_value(d) <= 255 {
        Some(dec_value(d) as u8)
    } else {
        None
    }
}

/// The value of the digits of `s` from `from` on, where it fits eight bits.
fn digits_value(s: &Vec<char>, from: usize) -> (out: Option<u8>)
    requires
        from <= s.len(),
    ensures
        ({
            let d = s@.subrange(from as int, s@.len() as int);
            out == if d.len() > 0 && all_digits(d) && dec_value(d) <= 255 {
                Some(dec_value(d) as u8)
            } else {
                None
            }
        }),
{
    let ghost d = s@.subrange(from as int, s@.len() as int);
    if from == s.len() {
        return None;
    }
    let mut acc: u16 = 0;
    let mut i: usize = from;
    while i < s.len()
        invariant
            from <= i <= s.len(),
            d == s@.subrange(from as int, s@.len() as int),
            all_digits(d.take(i - from)),
            acc == dec_value(d.take(i - from)),
            acc <= 255,
        decreases s.len() - i,
    {
        let c: char = s[i];
        proof {
            assert(d[i - from] == c);
            assert(d.take(i - from + 1).drop_last() =~= d.take(i - from));
            assert(d.take(i - from + 1).last() == c);
        }
        if !('0' <= c && c <= '9') {
            return None;
        }
        proof {
            assert forall|j: int| 0 <= j < i - from + 1 implies is_digit(
                #[trigger] d.take(i - from + 1)[j],
            ) by {
                if j < i - from {
                    assert(d.take(i - from)[j] == d[j]);
                }
            }
        }
        acc = acc * 10 + (c as u32 - '0' as u32) as u16;
        if acc > 255 {
            proof {
                if all_digits(d) {
                    dec_value_grows(d, i - from + 1);
                }
            }
            return None;
        }
        i += 1;
    }
    proof {
        assert(d.take(d.len() as int) =~= d);
    }
    Some(acc as u8)
}

/// Reads an eight-bit number.
pub fn parse_u8(s: &Vec<char>) -> (out: Option<u8>)
    ensures
        out == u8_of(s@),
{
    proof {
        assert(s@.subrange(0, s@.len() as int) =~= s@);
    }
    if s.len() > 1 && s[0] == '+' {
        digits_value(s, 1)
    } else {
        digits_value(s, 0)
    }
}

/// The value of one part of a dotted quad: one to three digits, no needless
/// leading zero, at most 255.
pub open spec fn octet_of(s: Seq<char>) -> Option<u8> {
    if 1 <= s.len() <= 3 && all_digits(s) && (s.len() == 1 || s[0] != '0') && dec_value(s) <= 255 {
        Some(dec_value(s) as u8)
    } else {
        None
    }
}

/// The four bytes of an address as one number, first byte highest.
pub open spec fn quad(a: u8, b: u8, c: u8, d: u8) -> u32 {
    (a * 0x1000000 + b * 0x10000 + c * 0x100 + d) as u32
}

/// The address that a dotted quad stands for.
pub open spec fn ipv4_of(s: Seq<char>) -> Option<u32> {
    let p = split_on(s, '.');
    if p.len() == 4 && octet_of(p[0]) is Some && octet_of(p[1]) is Some && octet_of(p[2]) is Some
        && octet_of(p[3]) is Some {
        Some(quad(octet_of(p[0])->0, octet_of(p[1])->0, octet_of(p[2])->0, octet_of(p[3])->0))
    } else {
        None
    }
}

/// Reads one part of a dotted quad.
fn parse_octet(s: &Vec<char>) -> (out: Option<u8>)
    ensures
        out == octet_of(s@),
{
    proof {
        assert(s@.subrange(0, s@.len() as int) =~= s@);
    }
    if s.len() == 0 || s.len() > 3 {
        return None;
    }
    if s.len() > 1 && s[0] == '0' {
        return None;
    }
    digits_value(s, 0)
}

/// Reads a dotted quad.
pub fn parse_ipv4(s: &str) -> (out: Option<u32>)
    ensures
        out == ipv4_of(s@),
{
    let cs: Vec<char> = chars_of(s);
    let p: Vec<Vec<char>> = split_chars(&cs, '.');
    proof {
        assert(pieces_view(p@).len() == p@.len());
    }
    if p.len() != 4 {
        return None;
    }
    proof {
        assert(pieces_view(p@)[0] == p[0]@);
        assert(pieces_view(p@)[1] == p[1]@);
        assert(pieces_view(p@)[2] == p[2]@);
        assert(pieces_view(p@)[3] == p[3]@);
    }
    match (parse_octet(&p[0]), parse_octet(&p[1]), parse_octet(&p[2]), parse_octet(&p[3])) {
        (Some(a), Some(b), Some(c), Some(d)) => Some(join_octets(a, b, c, d)),
        _ => None,
    }
}

/// Joins four bytes to one address.
pub fn join_octets(a: u8, b: u8, c: u8, d: u8) -> (out: u32)
    ensures
        out == quad(a, b, c, d),
{
    a as u32 * 0x1000000 + b as u32 * 0x10000 + c as u32 * 0x100 + d as u32
}

/// The byte of `ip` at place `i`, counted from the highest.
pub open spec fn octet(ip: u32, i: int) -> u8 {
    if i == 0 {
        (ip / 0x1000000) as u8
    } else if i == 1 {
        (ip / 0x10000 % 0x100) as u8
    } else if i == 2 {
        (ip / 0x100 % 0x100) as u8
    } else {
        (ip % 0x100) as u8
    }
}

/// Splits an address into its four bytes.
pub fn split_octets(ip: u32) -> (out: (u8, u8, u8, u8))
    ensures
        out.0 == octet(ip, 0),
        out.1 == octet(ip, 1),
        out.2 == octet(ip, 2),
        out.3 == octet(ip, 3),
{
    (
        (ip / 0x1000000) as u8,
        (ip / 0x10000 % 0x100) as u8,
        (ip / 0x100 % 0x100) as u8,
        (ip % 0x100) as u8,
    )
}

/// Joining the four bytes of an address gives the address back.
pub proof fn quad_of_octets(ip: u32)
    ensures
        quad(octet(ip, 0), octet(ip, 1), octet(ip, 2), octet(ip, 3)) == ip,
{
}

/// The four bytes that were joined to an address are its bytes.
pub proof fn octets_of_quad(a: u8, b: u8, c: u8, d: u8)
    ensures
        octet(quad(a, b, c, d), 0) == a,
        octet(quad(a, b, c, d), 1) == b,
        octet(quad(a, b, c, d), 2) == c,
        octet(quad(a, b, c, d), 3) == d,
        quad(a, b, c, d) / 0x1000000 == a,
{
    let q = a * 0x1000000 + b * 0x10000 + c * 0x100 + d;
    assert(0 <= q <= u32::MAX);
    assert(q / 0x1000000 == a);
    assert(q / 0x10000 == a * 0x100 + b);
    assert(q / 0x100 == a * 0x10000 + b * 0x100 + c);
}

/// The digits of a number below one thousand.
pub open spec fn dec_digits(n: int) -> Seq<char> {
    if n < 10 {
        seq![digit_char(n)]
    } else if n < 100 {
        seq![digit_char(n / 10), digit_char(n % 10)]
    } else {
        seq![digit_char(n / 100), digit_char(n / 10 % 10), digit_char(n % 10)]
    }
}

/// The digit that stands for `n`.
pub open spec fn digit_char(n: int) -> char {
    ('0' as int + n) as char
}

/// The dotted quad of an address.
pub open spec fn ipv4_text(ip: u32) -> Seq<char> {
    dec_digits(octet(ip, 0) as int) + seq!['.'] + dec_digits(octet(ip, 1) as int) + seq!['.']
        + dec_digits(octet(ip, 2) as int) + seq!['.'] + dec_digits(octet(ip, 3) as int)
}

/// Appends one digit.
pub(crate) fn push_digit(s: &mut String, d: u8)
    requires
        d < 10,
    ensures
        final(s)@ == old(s)@.push(digit_char(d as int)),
{
    proof {
        reveal_strlit("0");
        reveal_strlit("1");
        reveal_strlit("2");
        reveal_strlit("3");
        reveal_strlit("4");
        reveal_strlit("5");
        reveal_strlit("6");
        reveal_strlit("7");
        reveal_strlit("8");
        reveal_strlit("9");
    }
    let t: &str = match d {
        0 => "0",
        1 => "1",
        2 => "2",
        3 => "3",
        4 => "4",
        5 => "5",
        6 => "6",
        7 => "7",
        8 => "8",
        _ => "9",
    };
    let ghost before = s@;
    s.append(t);
    proof {
        assert(before + t@ =~= before.push(digit_char(d as int)));
    }
}

/// Appends the decimal digits of one byte.
pub fn push_u8(s: &mut String, n: u8)
    ensures
        final(s)@ == old(s)@ + dec_digits(n as int),
{
    let ghost before = s@;
    if n >= 100 {
        push_digit(s, n / 100);
    }
    if n >= 10 {
        push_digit(s, n / 10 % 10);
    }
    push_digit(s, n % 10);
    proof {
        assert(s@ =~= before + dec_digits(n as int));
    }
}

/// Writes an address as a dotted quad.
pub fn ipv4_to_string(ip: u32) -> (out: String)
    ensures
        out@ == ipv4_text(ip),
{
    proof {
        reveal_strlit(".");
    }
    let (a, b, c, d) = split_octets(ip);
    let mut s: String = String::new();
    push_u8(&mut s, a);
    s.append(".");
    push_u8(&mut s, b);
    s.append(".");
    push_u8(&mut s, c);
    s.append(".");
    push_u8(&mut s, d);
    proof {
        assert("."@ =~= seq!['.']);
        assert(s@ =~= ipv4_text(ip));
    }
    s
}

/// The number of a character, an ASCII capital counted as its small letter.
pub open spec fn small_code(c: char) -> u32 {
    let u = c as u32;
    if 65 <= u <= 90 {
        (u + 32) as u32
    } else {
        u
    }
}

/// The strings differ at most in the case of ASCII letters.
pub open spec fn same_letters(a: Seq<char>, b: Seq<char>) -> bool {
    a.len() == b.len() && forall|i: int|
        0 <= i < a.len() ==> small_code(#[trigger] a[i]) == small_code(b[i])
}

fn code_of(c: char) -> (u: u32)
    ensures
        u == small_code(c),
{
    let u: u32 = c as u32;
    if 65 <= u && u <= 90 {
        u + 32
    } else {
        u
    }
}

/// Whether the strings differ at most in the case of ASCII letters.
pub fn eq_ignore_case(a: &str, b: &str) -> (same: bool)
    ensures
        same == same_letters(a@, b@),
{
    let x: Vec<char> = chars_of(a);
    let y: Vec<char> = chars_of(b);
    if x.len() != y.len() {
        return false;
    }
    let mut i: usize = 0;
    while i < x.len()
        invariant
            i <= x@.len(),
            x@.len() == y@.len(),
            x@ == a@,
            y@ == b@,
            forall|j: int| 0 <= j < i ==> small_code(#[trigger] x@[j]) == small_code(y@[j]),
        decreases x@.len() - i,
    {
        if code_of(x[i]) != code_of(y[i]) {
            proof {
                assert(small_code(a@[i as int]) != small_code(b@[i as int]));
            }
            return false;
        }
        i += 1;
    }
    true
}

/// Splitting goes piece by piece: what stands before the last separator is split
/// alone, and what stands behind it is the last piece.
proof fn split_on_append(a: Seq<char>, b: Seq<char>, sep: char)
    requires
        !b.contains(sep),
    ensures
        split_on(a + seq![sep] + b, sep) == split_on(a, sep).push(b),
    decreases b.len(),
{
    let s = a + seq![sep] + b;
    if b.len() == 0 {
        assert(s.drop_last() =~= a);
        assert(s.last() == sep);
        assert(b =~= Seq::<char>::empty());
    } else {
        let c = b.drop_last();
        assert forall|i: int| 0 <= i < c.len() implies c[i] != sep by {
            assert(b[i] != sep);
        }
        split_on_append(a, c, sep);
        assert(s.drop_last() =~= a + seq![sep] + c);
        assert(s.last() == b.last());
        assert(b.last() != sep);
        let rest = split_on(a, sep).push(c);
        assert(rest.update(rest.len() - 1, rest.last().push(b.last())) =~= split_on(a, sep).push(
            b,
        )) by {
            assert(c.push(b.last()) =~= b);
        }
    }
}

/// A string without separators is one piece.
proof fn split_on_whole(b: Seq<char>, sep: char)
    requires
        !b.contains(sep),
    ensures
        split_on(b, sep) == seq![b],
    decreases b.len(),
{
    if b.len() == 0 {
        assert(b =~= Seq::<char>::empty());
    } else {
        let c = b.drop_last();
        assert forall|i: int| 0 <= i < c.len() implies c[i] != sep by {
            assert(b[i] != sep);
        }
        split_on_whole(c, sep);
        assert(b.last() != sep);
        let rest = seq![c];
        assert(rest.update(0, rest.last().push(b.last())) =~= seq![b]) by {
            assert(c.push(b.last()) =~= b);
        }
    }
}

/// The digits of a byte are read as the byte.
proof fn digits_read_back(n: u8)
    ensures
        octet_of(dec_digits(n as int)) == Some(n),
        !dec_digits(n as int).contains('.'),
{
    let d = dec_digits(n as int);
    reveal_with_fuel(dec_value, 4);
    if n < 10 {
        assert(d.drop_last() =~= Seq::<char>::empty());
    } else if n < 100 {
        assert(d.drop_last() =~= seq![digit_char(n as int / 10)]);
        assert(d.drop_last().drop_last() =~= Seq::<char>::empty());
    } else {
        assert(d.drop_last() =~= seq![digit_char(n as int / 100), digit_char(n as int / 10 % 10)]);
        assert(d.drop_last().drop_last() =~= seq![digit_char(n as int / 100)]);
        assert(d.drop_last().drop_last().drop_last() =~= Seq::<char>::empty());
    }
}

/// A dotted quad is read as the address that it was written of.
pub proof fn ipv4_text_reads_back(ip: u32)
    ensures
        ipv4_of(ipv4_text(ip)) == Some(ip),
{
    let a = dec_digits(octet(ip, 0) as int);
    let b = dec_digits(octet(ip, 1) as int);
    let c = dec_digits(octet(ip, 2) as int);
    let d = dec_digits(octet(ip, 3) as int);
    digits_read_back(octet(ip, 0));
    digits_read_back(octet(ip, 1));
    digits_read_back(octet(ip, 2));
    digits_read_back(octet(ip, 3));
    split_on_whole(a, '.');
    split_on_append(a, b, '.');
    split_on_append(a + seq!['.'] + b, c, '.');
    split_on_append(a + seq!['.'] + b + seq!['.'] + c, d, '.');
    quad_of_octets(ip);
}

} // verus!
