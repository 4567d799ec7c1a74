//! Text helpers.

use vstd::prelude::*;

verus! {

/// `String::push` of std appends one character.
pub assume_specification[ String::push ](s: &mut String, c: char)
    ensures
        final(s)@ == old(s)@.push(c),
;

/// The characters of `s`, in order.
pub fn to_chars(s: &str) -> (r: Vec<char>)
    ensures
        r@ == s@,
{
    let mut r: Vec<char> = Vec::new();
    for c in it: s.chars()
        invariant
            it.seq() == s@,
            r@ == s@.take(it.index() as int),
    {
        r.push(c);
        assert(s@.take(it.index() as int).push(c) == s@.take(it.index() + 1));
    }
    assert(s@.take(s@.len() as int) == s@);
    r
}

/// The text `s` with every non-overlapping occurrence of `pat`, found from left to right,
/// replaced by `to`.
pub open spec fn replaced(s: Seq<char>, pat: Seq<char>, to: Seq<char>) -> Seq<char>
    decreases s.len(),
{
    if pat.len() == 0 || s.len() < pat.len() {
        s
    } else if s.take(pat.len() as int) == pat {
        to + replaced(s.skip(pat.len() as int), pat, to)
    } else {
        seq![s[0]] + replaced(s.skip(1), pat, to)
    }
}

/// Whether `pat` occurs in `s` at position `at`.
fn occurs_at(s: &Vec<char>, pat: &Vec<char>, at: usize) -> (r: bool)
    requires
        at + pat@.len() <= s@.len(),
    ensures
        r == (s@.skip(at as int).take(pat@.len() as int) == pat@),
{
    let mut i: usize = 0;
    while i < pat.len()
        invariant
            at + pat.len() <= s.len(),
            i <= pat@.len(),
            forall|j: int| 0 <= j < i ==> s@[at + j] == pat@[j],
        decreases pat@.len() - i,
    {
        if s[at + i] != pat[i] {
            assert(s@.skip(at as int).take(pat@.len() as int)[i as int] == s@[at + i]);
            return false;
        }
        i += 1;
    }
    assert(s@.skip(at as int).take(pat@.len() as int) =~= pat@);
    true
}

/// Replaces every occurrence of `pat` in `s` by `to`, as [`replaced`] says.
pub fn replace_all(s: &str, pat: &str, to: &str) -> (r: String)
    requires
        pat@.len() > 0,
    ensures
        r@ == replaced(s@, pat@, to@),
{
    let cs = to_chars(s);
    let ps = to_chars(pat);
    let mut r = String::new();
    let mut i: usize = 0;
    assert(cs@.skip(0) == cs@);
    while i < cs.len()
        invariant
            cs@ == s@,
            ps@ == pat@,
            ps@.len() > 0,
            i <= cs@.len(),
            replaced(s@, pat@, to@) == r@ + replaced(cs@.skip(i as int), pat@, to@),
        decreases cs@.len() - i,
    {
        let ghost rest = cs@.skip(i as int);
        if cs.len() - i >= ps.len() && occurs_at(&cs, &ps, i) {
            let ghost before = r@;
            r.append(to);
            proof {
                assert(rest.skip(ps@.len() as int) == cs@.skip(i + ps@.len()));
                assert(before + (to@ + replaced(rest.skip(ps@.len() as int), pat@, to@)) == r@
                    + replaced(rest.skip(ps@.len() as int), pat@, to@));
            }
            i += ps.len();
        } else {
            let ghost before = r@;
            r.push(cs[i]);
            proof {
                assert(rest.skip(1) == cs@.skip(i + 1));
                if rest.len() < ps@.len() {
                    assert(replaced(rest.skip(1), pat@, to@) == rest.skip(1));
                    assert(seq![rest[0]] + rest.skip(1) == rest);
                }
                assert(before + (seq![cs@[i as int]] + replaced(rest.skip(1), pat@, to@)) == r@
                    + replaced(rest.skip(1), pat@, to@));
            }
            i += 1;
        }
    }
    assert(cs@.skip(i as int) =~= Seq::<char>::empty());
    assert(r@ + replaced(cs@.skip(i as int), pat@, to@) =~= r@);
    r
}

/// The digit that stands for `d`, for `d` below ten.
pub open spec fn digit(d: nat) -> char {
    seq!['0', '1', '2', '3', '4', '5', '6', '7', '8', '9'][d as int]
}

/// The decimal numeral of `n`, without leading zeros.
pub open spec fn decimal(n: nat) -> Seq<char>
    decreases n,
{
    if n < 10 {
        seq![digit(n)]
    } else {
        decimal(n / 10).push(digit(n % 10))
    }
}

fn digit_char(d: u64) -> (r: char)
    requires
        d < 10,
    ensures
        r == digit(d as nat),
{
    match d {
        0 => '0',
        1 => '1',
        2 => '2',
        3 => '3',
        4 => '4',
        5 => '5',
        6 => '6',
        7 => '7',
        8 => '8',
        _ => '9',
    }
}

/// Writes `n` in decimal.
pub fn to_decimal(n: u64) -> (r: String)
    ensures
        r@ == decimal(n as nat),
    decreases n,
{
    if n < 10 {
        let mut r = String::new();
        r.push(digit_char(n));
        assert(r@ =~= seq![digit(n as nat)]);
        r
    } else {
        let mut r = to_decimal(n / 10);
        r.push(digit_char(n % 10));
        r
    }
}

/// `s` followed by the spaces that bring it to `width` characters; `s` itself where it is
/// that long already.
pub open spec fn padded(s: Seq<char>, width: nat) -> Seq<char> {
    if s.len() >= width {
        s
    } else {
        s + Seq::new((width - s.len()) as nat, |i: int| ' ')
    }
}

/// Left-aligns `s` in a field of `width` characters.
pub fn pad_right(s: &str, width: usize) -> (r: String)
    ensures
        r@ == padded(s@, width as nat),
{
    let mut r = s.to_owned();
    let mut n: usize = s.unicode_len();
    while n < width
        invariant
            s@.len() <= n,
            n <= width || n == s@.len(),
            r@ == s@ + Seq::new((n - s@.len()) as nat, |i: int| ' '),
        decreases width - n,
    {
        r.push(' ');
        assert(r@ =~= s@ + Seq::new((n + 1 - s@.len()) as nat, |i: int| ' '));
        n += 1;
    }
    assert(r@ =~= padded(s@, width as nat));
    r
}

/// `n` copies of `s`, one after the other.
pub open spec fn repeated(s: Seq<char>, n: nat) -> Seq<char>
    decreases n,
{
    if n == 0 {
        Seq::empty()
    } else {
        repeated(s, (n - 1) as nat) + s
    }
}

/// Writes `n` copies of `s`.
pub fn repeat(s: &str, n: usize) -> (r: String)
    ensures
        r@ == repeated(s@, n as nat),
{
    let mut r = String::new();
    let mut i: usize = 0;
    while i < n
        invariant
            i <= n,
            r@ == repeated(s@, i as nat),
        decreases n - i,
    {
        r.append(s);
        i += 1;
    }
    r
}

/// Whether `c` is an ASCII letter or digit.
pub open spec fn is_alphanumeric(c: char) -> bool {
    'a' <= c <= 'z' || 'A' <= c <= 'Z' || '0' <= c <= '9'
}

/// The lower-case form of an ASCII capital letter; any other character itself.
pub open spec fn lower(c: char) -> char {
    if 'A' <= c <= 'Z' {
        (c as u32 + 32) as char
    } else {
        c
    }
}

fn lower_char(c: char) -> (r: char)
    ensures
        r == lower(c),
{
    if 'A' <= c && c <= 'Z' {
        (c as u8 + 32) as char
    } else {
        c
    }
}

/// Lower-cases the ASCII letters of `s`.
pub fn to_lower(s: &str) -> (r: String)
    ensures
        r@ == s@.map_values(|c: char| lower(c)),
{
    let mut r = String::new();
    for c in it: s.chars()
        invariant
            it.seq() == s@,
            r@ == s@.take(it.index() as int).map_values(|c: char| lower(c)),
    {
        r.push(lower_char(c));
        assert(r@ =~= s@.take(it.index() + 1).map_values(|c: char| lower(c)));
    }
    assert(s@.take(s@.len() as int) == s@);
    r
}

/// Whether `b` stands for itself in percent-encoded text: the letters, digits, `-`, `.`, `_`
/// and `~` of ASCII.
pub open spec fn is_unreserved(b: u8) -> bool {
    is_alphanumeric(b as char) || b == 45 || b == 46 || b == 95 || b == 126
}

/// The hexadecimal digit that stands for `d`, for `d` below sixteen.
pub open spec fn hex_digit(d: int) -> char {
    seq!['0', '1', '2', '3', '4', '5', '6', '7', '8', '9', 'A', 'B', 'C', 'D', 'E', 'F'][d]
}

/// The percent-encoding of `b`.
pub open spec fn encoded_byte(b: u8) -> Seq<char> {
    if is_unreserved(b) {
        seq![b as char]
    } else {
        seq!['%', hex_digit(b as int / 16), hex_digit(b as int % 16)]
    }
}

/// The percent-encoding of `bytes`.
pub open spec fn encoded_bytes(bytes: Seq<u8>) -> Seq<char>
    decreases bytes.len(),
{
    if bytes.len() == 0 {
        Seq::empty()
    } else {
        encoded_bytes(bytes.drop_last()) + encoded_byte(bytes.last())
    }
}

/// The percent-encoding of the bytes of `s`.
pub open spec fn percent_encoded(s: Seq<char>) -> Seq<char> {
    encoded_bytes(vstd::utf8::encode_utf8(s))
}

fn hex_char(d: u8) -> (r: char)
    requires
        d < 16,
    ensures
        r == hex_digit(d as int),
{
    if d < 10 {
        digit_char(d as u64)
    } else {
        match d {
            10 => 'A',
            11 => 'B',
            12 => 'C',
            13 => 'D',
            14 => 'E',
            _ => 'F',
        }
    }
}

/// Percent-encodes `s`.
pub fn percent_encode(s: &str) -> (r: String)
    ensures
        r@ == percent_encoded(s@),
{
    let bytes = s.as_bytes();
    let mut r = String::new();
    let mut i: usize = 0;
    while i < bytes.len()
        invariant
            i <= bytes@.len(),
            r@ == encoded_bytes(bytes@.take(i as int)),
        decreases bytes@.len() - i,
    {
        let ghost before = r@;
        let b: u8 = bytes[i];
        let c = b as char;
        if ('a' <= c && c <= 'z') || ('A' <= c && c <= 'Z') || ('0' <= c && c <= '9') || c == '-'
            || c == '.' || c == '_' || c == '~' {
            r.push(c);
        } else {
            r.push('%');
            r.push(hex_char(b / 16));
            r.push(hex_char(b % 16));
        }
        assert(r@ =~= before + encoded_byte(b));
        assert(bytes@.take(i + 1).drop_last() =~= bytes@.take(i as int));
        i += 1;
    }
    assert(bytes@.take(i as int) =~= bytes@);
    r
}

/// Percent-encoded text holds no character that separates the parts of a URL.
pub proof fn law_encoded_text_holds_no_separator(bytes: Seq<u8>)
    ensures
        forall|i: int|
            0 <= i < encoded_bytes(bytes).len() ==> is_alphanumeric(
                #[trigger] encoded_bytes(bytes)[i],
            ) || "-._~%"@.contains(encoded_bytes(bytes)[i]),
    decreases bytes.len(),
{
    reveal_strlit("-._~%");
    let marks = "-._~%"@;
    assert(marks[0] == '-' && marks[1] == '.' && marks[2] == '_' && marks[3] == '~' && marks[4]
        == '%');
    if bytes.len() > 0 {
        law_encoded_text_holds_no_separator(bytes.drop_last());
        let front = encoded_bytes(bytes.drop_last());
        let all = encoded_bytes(bytes);
        assert forall|i: int| 0 <= i < all.len() implies is_alphanumeric(#[trigger] all[i])
            || marks.contains(all[i]) by {
            if i < front.len() {
                assert(all[i] == front[i]);
            } else {
                assert(all[i] == encoded_byte(bytes.last())[i - front.len()]);
            }
        }
    }
}

/// Whether `a` stands before `b` in the lexicographic order of their characters.
pub open spec fn precedes(a: Seq<char>, b: Seq<char>) -> bool
    decreases a.len(),
{
    if b.len() == 0 {
        false
    } else if a.len() == 0 {
        true
    } else if a[0] != b[0] {
        a[0] < b[0]
    } else {
        precedes(a.skip(1), b.skip(1))
    }
}

/// Compares `a` and `b` as [`precedes`] does.
pub fn comes_before(a: &str, b: &str) -> (r: bool)
    ensures
        r == precedes(a@, b@),
{
    let x = to_chars(a);
    let y = to_chars(b);
    let mut i: usize = 0;
    assert(x@.skip(0) == x@);
    assert(y@.skip(0) == y@);
    while i < x.len() && i < y.len()
        invariant
            i <= x@.len(),
            i <= y@.len(),
            x@ == a@,
            y@ == b@,
            precedes(a@, b@) == precedes(x@.skip(i as int), y@.skip(i as int)),
        decreases x@.len() - i,
    {
        if x[i] != y[i] {
            return x[i] < y[i];
        }
        assert(x@.skip(i as int).skip(1) == x@.skip(i + 1));
        assert(y@.skip(i as int).skip(1) == y@.skip(i + 1));
        i += 1;
    }
    i < y.len()
}

/// No text precedes itself.
pub proof fn lemma_precedes_irreflexive(a: Seq<char>)
    ensures
        !precedes(a, a),
    decreases a.len(),
{
    if a.len() > 0 {
        lemma_precedes_irreflexive(a.skip(1));
    }
}

/// The order is transitive.
pub proof fn lemma_precedes_transitive(a: Seq<char>, b: Seq<char>, c: Seq<char>)
    requires
        precedes(a, b),
        precedes(b, c),
    ensures
        precedes(a, c),
    decreases a.len(),
{
    if a.len() > 0 && a[0] == b[0] && b[0] == c[0] {
        lemma_precedes_transitive(a.skip(1), b.skip(1), c.skip(1));
    }
}

/// Of two different texts one precedes the other.
pub proof fn lemma_precedes_total(a: Seq<char>, b: Seq<char>)
    requires
        a != b,
    ensures
        precedes(a, b) || precedes(b, a),
    decreases a.len(),
{
    if a.len() > 0 && b.len() > 0 && a[0] == b[0] {
        if a.skip(1) == b.skip(1) {
            assert(a =~= seq![a[0]] + a.skip(1));
            assert(b =~= seq![b[0]] + b.skip(1));
        }
        lemma_precedes_total(a.skip(1), b.skip(1));
    } else if a.len() == 0 && b.len() == 0 {
        assert(a =~= b);
    }
}

/// Text that does not hold the pattern stays as it is; else all that stands before the first
/// occurrence stays, the replacement follows, and the rest is dealt with in the same way.
pub proof fn law_replacing_goes_from_occurrence_to_occurrence(
    s: Seq<char>,
    pat: Seq<char>,
    to: Seq<char>,
    at: int,
)
    requires
        pat.len() > 0,
        0 <= at <= s.len(),
        forall|i: int|
            0 <= i < at ==> !(i + pat.len() <= s.len() && #[trigger] s.subrange(i, i + pat.len())
                == pat),
    ensures
        at == s.len() ==> replaced(s, pat, to) == s,
        at + pat.len() <= s.len() && s.subrange(at, at + pat.len()) == pat ==> replaced(s, pat, to)
            == s.take(at) + to + replaced(s.skip(at + pat.len()), pat, to),
    decreases at,
{
    if at == 0 {
        if s.len() == 0 {
            assert(replaced(s, pat, to) =~= s);
        }
        if pat.len() <= s.len() && s.subrange(0, pat.len() as int) == pat {
            assert(s.take(pat.len() as int) =~= s.subrange(0, pat.len() as int));
            assert(s.take(0) + to + replaced(s.skip(pat.len() as int), pat, to) =~= to + replaced(
                s.skip(pat.len() as int),
                pat,
                to,
            ));
        }
    } else {
        let rest = s.skip(1);
        assert forall|i: int| 0 <= i < at - 1 implies !(i + pat.len() <= rest.len()
            && #[trigger] rest.subrange(i, i + pat.len()) == pat) by {
            if i + pat.len() <= rest.len() {
                assert(rest.subrange(i, i + pat.len()) =~= s.subrange(i + 1, i + 1 + pat.len()));
            }
        }
        law_replacing_goes_from_occurrence_to_occurrence(rest, pat, to, at - 1);
        assert(seq![s[0]] + rest =~= s);
        if pat.len() <= s.len() {
            assert(s.take(pat.len() as int) =~= s.subrange(0int, 0int + pat.len()));
            assert(replaced(s, pat, to) == seq![s[0]] + replaced(rest, pat, to));
        }
        if at + pat.len() <= s.len() && s.subrange(at, at + pat.len()) == pat {
            assert(rest.subrange(at - 1, at - 1 + pat.len()) =~= s.subrange(at, at + pat.len()));
            assert(rest.skip(at - 1 + pat.len()) =~= s.skip(at + pat.len()));
            let tail = replaced(s.skip(at + pat.len()), pat, to);
            assert(seq![s[0]] + (rest.take(at - 1) + to + tail) =~= s.take(at) + to + tail);
        }
    }
}

/// The number that a row of decimal digits stands for.
pub open spec fn number_of(digits: Seq<char>) -> int
    decreases digits.len(),
{
    if digits.len() == 0 {
        0
    } else {
        10 * number_of(digits.drop_last()) + (digits.last() as int - '0' as int)
    }
}

/// A numeral consists of digits, does not begin with a zero but for zero itself, and stands for
/// its number.
pub proof fn law_numerals_read_back(n: nat)
    ensures
        decimal(n).len() > 0,
        forall|i: int| 0 <= i < decimal(n).len() ==> '0' <= #[trigger] decimal(n)[i] <= '9',
        decimal(n)[0] == '0' ==> decimal(n).len() == 1,
        number_of(decimal(n)) == n,
        n > 0 ==> decimal(n)[0] != '0',
    decreases n,
{
    reveal_with_fuel(number_of, 2);
    if n < 10 {
        assert(decimal(n).drop_last() =~= Seq::<char>::empty());
    } else {
        law_numerals_read_back(n / 10);
        assert(decimal(n).drop_last() =~= decimal(n / 10));
        assert(decimal(n)[0] == decimal(n / 10)[0]);
    }
}

/// Left-aligned text begins with the text, goes on with spaces only, and is as long as the
/// field, or as the text where that is longer.
pub proof fn law_padding_is_spaces_behind_the_text(s: Seq<char>, width: nat)
    ensures
        padded(s, width).len() == if s.len() > width {
            s.len()
        } else {
            width
        },
        padded(s, width).take(s.len() as int) == s,
        forall|i: int| s.len() <= i < padded(s, width).len() ==> #[trigger] padded(s, width)[i]
            == ' ',
{
    assert(padded(s, width).take(s.len() as int) =~= s);
}

/// The copies of a text stand one after the other: one copy is the text, and copies add up.
pub proof fn law_copies_add_up(s: Seq<char>, m: nat, n: nat)
    ensures
        repeated(s, 1) == s,
        repeated(s, m + n) == repeated(s, m) + repeated(s, n),
        repeated(s, n).len() == n * s.len(),
    decreases n,
{
    reveal_with_fuel(repeated, 2);
    assert(repeated(s, 1) =~= s);
    if n == 0 {
        assert(repeated(s, m) + repeated(s, 0) =~= repeated(s, m));
    } else {
        let k = (n - 1) as nat;
        law_copies_add_up(s, m, k);
        assert(repeated(s, m + n) =~= repeated(s, m) + repeated(s, n));
        assert(n * s.len() == k * s.len() + s.len()) by (nonlinear_arith)
            requires
                n == k + 1,
        ;
    }
}

/// Lower-casing turns each capital letter of ASCII into the small letter at the same place of
/// the alphabet, and nothing else.
pub proof fn law_lower_case_follows_the_alphabet(c: char)
    ensures
        'A' <= c <= 'Z' ==> 'a' <= lower(c) <= 'z' && lower(c) as int - 'a' as int == c as int
            - 'A' as int,
        !('A' <= c <= 'Z') ==> lower(c) == c,
        lower(lower(c)) == lower(c),
        is_alphanumeric(c) <==> ('a' <= lower(c) <= 'z' || '0' <= lower(c) <= '9'),
{
}

/// The value of a hexadecimal digit.
pub open spec fn hex_value(c: char) -> int {
    if '0' <= c <= '9' {
        c as int - '0' as int
    } else {
        c as int - 'A' as int + 10
    }
}

/// The bytes that percent-encoded text stands for: a percent sign takes the two digits behind
/// it, any other character stands for itself.
pub open spec fn decoded(s: Seq<char>) -> Seq<int>
    decreases s.len(),
{
    if s.len() == 0 {
        Seq::empty()
    } else if s[0] == '%' && s.len() >= 3 {
        seq![16 * hex_value(s[1]) + hex_value(s[2])] + decoded(s.skip(3))
    } else {
        seq![s[0] as int] + decoded(s.skip(1))
    }
}

/// Decoding gives back the byte in front.
proof fn lemma_decoded_byte(b: u8, rest: Seq<char>)
    ensures
        decoded(encoded_byte(b) + rest) == seq![b as int] + decoded(rest),
{
    let all = encoded_byte(b) + rest;
    if is_unreserved(b) {
        assert(all.skip(1) =~= rest);
        assert(all[0] as int == b as int);
        assert(all[0] != '%');
    } else {
        assert(all.skip(3) =~= rest);
        let high = b as int / 16;
        let low = b as int % 16;
        assert(0 <= high < 16 && 0 <= low < 16);
        assert(hex_value(hex_digit(high)) == high);
        assert(hex_value(hex_digit(low)) == low);
        assert(16 * high + low == b as int);
    }
}

/// Percent-encoding of bytes in two parts.
proof fn lemma_encoded_add(a: Seq<u8>, b: Seq<u8>)
    ensures
        encoded_bytes(a + b) == encoded_bytes(a) + encoded_bytes(b),
    decreases b.len(),
{
    if b.len() == 0 {
        assert(a + b =~= a);
        assert(encoded_bytes(a) + Seq::<char>::empty() =~= encoded_bytes(a));
    } else {
        lemma_encoded_add(a, b.drop_last());
        assert((a + b).drop_last() =~= a + b.drop_last());
        assert(encoded_bytes(a + b) =~= encoded_bytes(a) + encoded_bytes(b));
    }
}

/// Percent-encoded bytes read back as they were.
pub proof fn law_encoded_bytes_read_back(bytes: Seq<u8>)
    ensures
        decoded(encoded_bytes(bytes)) == bytes.map_values(|b: u8| b as int),
    decreases bytes.len(),
{
    let as_ints = bytes.map_values(|b: u8| b as int);
    if bytes.len() > 0 {
        let rest = bytes.skip(1);
        let first = seq![bytes[0]];
        assert(first + rest =~= bytes);
        lemma_encoded_add(first, rest);
        assert(first.drop_last() =~= Seq::<u8>::empty());
        assert(encoded_bytes(first) =~= encoded_byte(bytes[0])) by {
            reveal_with_fuel(encoded_bytes, 2);
        }
        lemma_decoded_byte(bytes[0], encoded_bytes(rest));
        law_encoded_bytes_read_back(rest);
        assert(as_ints =~= seq![bytes[0] as int] + rest.map_values(|b: u8| b as int));
    } else {
        assert(as_ints =~= Seq::<int>::empty());
    }
}

/// The first character in which two texts differ decides their order; where one begins the
/// other, the shorter stands first.
pub proof fn law_first_difference_decides(a: Seq<char>, b: Seq<char>, at: int)
    requires
        0 <= at <= a.len(),
        0 <= at <= b.len(),
        a.take(at) == b.take(at),
    ensures
        at < a.len() && at < b.len() && a[at] != b[at] ==> (precedes(a, b) <==> (a[at] as int)
            < (b[at] as int)),
        at == a.len() ==> (precedes(a, b) <==> at < b.len()),
        at == b.len() ==> !precedes(a, b),
    decreases at,
{
    if at > 0 {
        assert(a.take(at)[0] == a[0] && b.take(at)[0] == b[0]);
        assert(a.skip(1).take(at - 1) =~= a.take(at).skip(1));
        assert(b.skip(1).take(at - 1) =~= b.take(at).skip(1));
        law_first_difference_decides(a.skip(1), b.skip(1), at - 1);
    }
}

/// Percent-encoded text reads back as the bytes of the text.
pub proof fn law_encoded_text_reads_back(s: Seq<char>)
    ensures
        decoded(percent_encoded(s)) == vstd::utf8::encode_utf8(s).map_values(|b: u8| b as int),
{
    law_encoded_bytes_read_back(vstd::utf8::encode_utf8(s));
}

}
