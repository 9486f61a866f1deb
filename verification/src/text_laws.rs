//! What holds of texts and of the numbers and addresses in them.

use crate::text;
use vstd::arithmetic::power::pow;
use vstd::prelude::*;

verus! {

/// Of two texts that differ, that with the smaller byte at the first difference comes
/// first; one that is the beginning of another comes before it.
pub proof fn first_difference_decides(a: Seq<u8>, b: Seq<u8>, k: int)
    requires
        0 <= k <= a.len(),
        k <= b.len(),
        forall|i: int| 0 <= i < k ==> a[i] == b[i],
    ensures
        k < a.len() && k < b.len() && a[k] < b[k] ==> text::lex_before(a, b) && !text::lex_before(
            b,
            a,
        ),
        k == a.len() && k < b.len() ==> text::lex_before(a, b) && !text::lex_before(b, a),
        k == a.len() && k == b.len() ==> !text::lex_before(a, b) && !text::lex_before(b, a),
{
    if k < b.len() && (k == a.len() || a[k] < b[k]) {
        assert(text::lex_split(a, b, k));
        assert forall|j: int| !#[trigger] text::lex_split(b, a, j) by {
            if text::lex_split(b, a, j) {
                if j < k {
                    assert(a[j] == b[j]);
                } else if j > k {
                    assert(b[k] == a[k]);
                }
            }
        }
    }
}

/// What lies outside of `i` to `j` is white, and what lies inside neither begins nor ends
/// so.
pub open spec fn trims_to(white: spec_fn(char) -> bool, s: Seq<char>, i: int, j: int) -> bool {
    &&& 0 <= i <= j <= s.len()
    &&& forall|k: int| 0 <= k < s.len() && !(i <= k < j) ==> white(#[trigger] s[k])
    &&& i < j ==> !white(s[i]) && !white(s[j - 1])
}

proof fn front_taken(white: spec_fn(char) -> bool, s: Seq<char>, i: int, j: int)
    requires
        s.len() > 0,
        white(s[0]),
        trims_to(white, s.subrange(1, s.len() as int), i, j),
    ensures
        trims_to(white, s, i + 1, j + 1),
        s.subrange(1, s.len() as int).subrange(i, j) == s.subrange(i + 1, j + 1),
{
    let t = s.subrange(1, s.len() as int);
    assert forall|k: int| 0 <= k < s.len() && !(i + 1 <= k < j + 1) implies white(
        #[trigger] s[k],
    ) by {
        if k > 0 {
            assert(t[k - 1] == s[k]);
        }
    }
    assert(t.subrange(i, j) =~= s.subrange(i + 1, j + 1));
}

proof fn back_taken(white: spec_fn(char) -> bool, s: Seq<char>, i: int, j: int)
    requires
        s.len() > 0,
        white(s[s.len() - 1]),
        trims_to(white, s.subrange(0, s.len() - 1), i, j),
    ensures
        trims_to(white, s, i, j),
        s.subrange(0, s.len() - 1).subrange(i, j) == s.subrange(i, j),
{
    let t = s.subrange(0, s.len() - 1);
    assert forall|k: int| 0 <= k < s.len() && !(i <= k < j) implies white(#[trigger] s[k]) by {
        if k < s.len() - 1 {
            assert(t[k] == s[k]);
        }
    }
    assert(t.subrange(i, j) =~= s.subrange(i, j));
}

/// Trimming takes white space from the ends, all of it, and nothing else.
pub proof fn trimming_takes_white_ends(s: Seq<char>) -> (ends: (int, int))
    ensures
        trims_to(|c: char| text::is_white(c), s, ends.0, ends.1),
        text::trimmed(s) == s.subrange(ends.0, ends.1),
    decreases s.len(),
{
    let white = |c: char| text::is_white(c);
    if s.len() == 0 {
        assert(s =~= s.subrange(0, 0));
        (0, 0)
    } else if text::is_white(s[0]) {
        let (i, j) = trimming_takes_white_ends(s.subrange(1, s.len() as int));
        front_taken(white, s, i, j);
        (i + 1, j + 1)
    } else if text::is_white(s[s.len() - 1]) {
        let (i, j) = trimming_takes_white_ends(s.subrange(0, s.len() - 1));
        back_taken(white, s, i, j);
        (i, j)
    } else {
        assert(s =~= s.subrange(0, s.len() as int));
        (0, s.len() as int)
    }
}

/// The pieces with a mark between each two.
pub open spec fn joined(p: Seq<Seq<char>>, sep: char) -> Seq<char>
    decreases p.len(),
{
    if p.len() == 0 {
        Seq::empty()
    } else if p.len() == 1 {
        p[0]
    } else {
        joined(p.drop_last(), sep).push(sep) + p.last()
    }
}

/// Splitting a text loses nothing but the marks, and leaves none: the pieces with the mark
/// between them are the text, and no piece holds the mark.
pub proof fn splitting_loses_only_marks(s: Seq<char>, sep: char)
    ensures
        text::split_on(s, sep).len() >= 1,
        joined(text::split_on(s, sep), sep) == s,
        forall|i: int|
            0 <= i < text::split_on(s, sep).len() ==> !(#[trigger] text::split_on(
                s,
                sep,
            )[i]).contains(sep),
    decreases s.len(),
{
    let p = text::split_on(s, sep);
    if s.len() == 0 {
        assert(p[0] =~= s);
    } else {
        let t = s.drop_last();
        let r = text::split_on(t, sep);
        splitting_loses_only_marks(t, sep);
        if s.last() == sep {
            assert(p.drop_last() =~= r);
            assert(p.last() =~= Seq::<char>::empty());
            assert(joined(p, sep) =~= t.push(sep));
        } else {
            let l = r.last();
            assert(p.drop_last() =~= r.drop_last());
            assert(p.last() == l.push(s.last()));
            if r.len() == 1 {
                assert(p.len() == 1);
                assert(joined(p, sep) == p[0]);
                assert(joined(r, sep) == r[0]);
            } else {
                let h = joined(r.drop_last(), sep).push(sep);
                assert(h + l.push(s.last()) =~= (h + l).push(s.last()));
            }
            assert forall|i: int| 0 <= i < p.len() implies !(#[trigger] p[i]).contains(sep) by {
                if i < p.len() - 1 {
                    assert(p[i] == r[i]);
                } else {
                    assert(!r[r.len() - 1].contains(sep));
                    if p[i].contains(sep) {
                        let k = choose|k: int| 0 <= k < p[i].len() && p[i][k] == sep;
                        if k < l.len() {
                            assert(l[k] == sep);
                        }
                    }
                }
            }
        }
        assert(t.push(s.last()) =~= s);
    }
}

/// A digit stands for itself times ten to the number of digits behind it.
pub proof fn digits_have_their_place(c: char, s: Seq<char>)
    ensures
        text::dec_value(seq![c] + s) == (c as int - '0' as int) * pow(10, s.len()) + text::dec_value(
            s,
        ),
        text::dec_value(seq!['0'] + s) == text::dec_value(s),
    decreases s.len(),
{
    reveal(pow);
    if s.len() == 0 {
        assert((seq![c] + s).drop_last() =~= Seq::<char>::empty());
        assert((seq!['0'] + s).drop_last() =~= Seq::<char>::empty());
        assert(text::dec_value(Seq::<char>::empty()) == 0);
        assert(pow(10, 0) == 1);
    } else {
        digits_have_their_place(c, s.drop_last());
        assert((seq![c] + s).drop_last() =~= seq![c] + s.drop_last());
        assert((seq!['0'] + s).drop_last() =~= seq!['0'] + s.drop_last());
        let v = c as int - '0' as int;
        let p = pow(10, (s.len() - 1) as nat);
        assert(pow(10, s.len()) == 10 * p);
        assert(10 * (v * p) == v * (10 * p)) by (nonlinear_arith);
    }
}

/// Every part of an address has one text: its decimal digits, without zeros in front.
pub proof fn parts_have_one_text(s: Seq<char>, n: int)
    ensures
        0 <= n <= 255 ==> text::octet_of(text::dec_digits(n)) == Some(n as u8),
        text::octet_of(s) is Some ==> s == text::dec_digits(text::octet_of(s)->0 as int),
        0 <= n <= 255 ==> text::u8_of(text::dec_digits(n)) == Some(n as u8) && text::u8_of(
            seq!['+'] + text::dec_digits(n),
        ) == Some(n as u8),
        text::u8_of(Seq::<char>::empty()) is None,
{
    if 0 <= n <= 255 {
        let d = text::dec_digits(n);
        values_of_short(d);
        let e = seq!['+'] + d;
        assert(e.subrange(1, e.len() as int) =~= d);
        assert(text::all_digits(d));
    }
    if text::octet_of(s) is Some {
        values_of_short(s);
        let v = text::octet_of(s)->0 as int;
        assert(text::is_digit(s[0]));
        if s.len() == 2 {
            assert(text::is_digit(s[1]));
        }
        if s.len() == 3 {
            assert(text::is_digit(s[1]));
            assert(text::is_digit(s[2]));
        }
        assert(s =~= text::dec_digits(v));
    }
}

proof fn values_of_short(s: Seq<char>)
    ensures
        s.len() == 1 ==> text::dec_value(s) == s[0] as int - 48,
        s.len() == 2 ==> text::dec_value(s) == 10 * (s[0] as int - 48) + (s[1] as int - 48),
        s.len() == 3 ==> text::dec_value(s) == 100 * (s[0] as int - 48) + 10 * (s[1] as int - 48) + (
        s[2] as int - 48),
{
    reveal_with_fuel(text::dec_value, 4);
    if s.len() == 1 || s.len() == 2 || s.len() == 3 {
        assert(s.drop_last().len() == s.len() - 1);
        if s.len() >= 2 {
            assert(s.drop_last().drop_last().len() == s.len() - 2);
            assert(s.drop_last().last() == s[s.len() - 2]);
        }
        if s.len() == 3 {
            assert(s.drop_last().drop_last().last() == s[0]);
        }
    }
}

/// An address has one text, and a text stands for one address: what is read as an address
/// is the dotted quad of that address.
pub proof fn addresses_have_one_text(s: Seq<char>)
    ensures
        text::ipv4_of(s) is Some ==> s == text::ipv4_text(text::ipv4_of(s)->0),
{
    if text::ipv4_of(s) is Some {
        let p = text::split_on(s, '.');
        splitting_loses_only_marks(s, '.');
        parts_have_one_text(p[0], 0);
        parts_have_one_text(p[1], 0);
        parts_have_one_text(p[2], 0);
        parts_have_one_text(p[3], 0);
        let a = text::octet_of(p[0])->0;
        let b = text::octet_of(p[1])->0;
        let c = text::octet_of(p[2])->0;
        let d = text::octet_of(p[3])->0;
        text::octets_of_quad(a, b, c, d);
        let p3 = p.drop_last();
        let p2 = p3.drop_last();
        let p1 = p2.drop_last();
        assert(p1.len() == 1 && p1[0] == p[0]);
        assert(p2.len() == 2 && p2.last() == p[1]);
        assert(p3.len() == 3 && p3.last() == p[2]);
        assert(p.last() == p[3]);
        assert(joined(p1, '.') == p[0]);
        assert(joined(p2, '.') == joined(p1, '.').push('.') + p[1]);
        assert(joined(p3, '.') == joined(p2, '.').push('.') + p[2]);
        assert(joined(p, '.') == joined(p3, '.').push('.') + p[3]);
        assert(joined(p, '.') =~= p[0] + seq!['.'] + p[1] + seq!['.'] + p[2] + seq!['.'] + p[3]);
    }
}

/// The first part of an address counts most: addresses are ordered as their parts are.
pub proof fn parts_in_order(a: u8, b: u8, c: u8, d: u8)
    ensures
        text::quad(a, b, c, d) == 256 * (256 * (256 * a + b) + c) + d,
{
}

/// Two characters are the same letter where they are equal, or one is a letter from A to Z
/// and the other the small letter thirty-two places behind it.
pub proof fn letters_regardless_of_case(c: char, d: char)
    ensures
        text::small_code(c) == text::small_code(d) <==> c == d || ('A' <= c && c <= 'Z' && d as int
            == c as int + 32) || ('A' <= d && d <= 'Z' && c as int == d as int + 32),
{
}

/// What counts as white among the characters of ASCII: tab, the line ends, the form feed
/// and the space.
pub proof fn ascii_white_space(c: char)
    requires
        (c as u32) < 128,
    ensures
        text::is_white(c) <==> c == '\t' || c == '\n' || c as u32 == 11 || c as u32 == 12 || c == '\r'
            || c == ' ',
{
}

} // verus!
