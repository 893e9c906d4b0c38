//! Text building blocks: decimal numbers, prefixes, ordering of names.
use vstd::prelude::*;

verus! {

/// Appends one character to a string.
///
/// Wraps `String::push`, which std documents as appending the given `char`
/// to the end of the string: the new text is the old one followed by `c`.
#[verifier::external_body]
pub(crate) fn push_char(s: &mut String, c: char)
    ensures
        final(s)@ == old(s)@.push(c),
{
    s.push(c);
}

/// The character that writes the decimal digit `d` (0 to 9).
pub open spec fn digit_char(d: int) -> char {
    if d == 0 {
        '0'
    } else if d == 1 {
        '1'
    } else if d == 2 {
        '2'
    } else if d == 3 {
        '3'
    } else if d == 4 {
        '4'
    } else if d == 5 {
        '5'
    } else if d == 6 {
        '6'
    } else if d == 7 {
        '7'
    } else if d == 8 {
        '8'
    } else {
        '9'
    }
}

/// The decimal writing of `n`, most significant digit first, without
/// leading zeros ("0" for zero).
pub open spec fn decimal(n: nat) -> Seq<char>
    decreases n,
{
    if n < 10 {
        seq![digit_char(n as int)]
    } else {
        decimal(n / 10).push(digit_char((n % 10) as int))
    }
}

/// The number that a sequence of decimal digit values stands for,
/// most significant digit first.
pub open spec fn digits_value(ds: Seq<int>) -> nat
    decreases ds.len(),
{
    if ds.len() == 0 {
        0
    } else {
        (digits_value(ds.drop_last()) * 10 + ds.last()) as nat
    }
}

/// The value of a digit character ('0' to '9').
pub open spec fn char_digit(c: char) -> int {
    (c as u32) - ('0' as u32)
}

/// The digit values of a text of decimal digits.
pub open spec fn digit_values(s: Seq<char>) -> Seq<int> {
    s.map_values(|c: char| char_digit(c))
}

/// Reading back the decimal writing of `n` gives `n`.
pub proof fn lemma_decimal_reads_back(n: nat)
    ensures
        digits_value(digit_values(decimal(n))) == n,
    decreases n,
{
    let ds = digit_values(decimal(n));
    if n < 10 {
        assert(ds.len() == 1);
        assert(ds.drop_last() =~= Seq::<int>::empty());
        assert(char_digit(digit_char(n as int)) == n);
        assert(ds[0] == char_digit(decimal(n)[0]));
        assert(ds.last() == ds[0]);
        assert(digits_value(ds.drop_last()) == 0);
        assert(digits_value(ds) == n);
    } else {
        lemma_decimal_reads_back(n / 10);
        assert(ds.drop_last() =~= digit_values(decimal(n / 10)));
        assert(char_digit(digit_char((n % 10) as int)) == n % 10);
        assert(ds.last() == char_digit(decimal(n).last()));
        assert(decimal(n).last() == digit_char((n % 10) as int));
        assert(digits_value(ds.drop_last()) == n / 10);
        assert(digits_value(ds) == n);
    }
}

/// Every character of a decimal writing is a digit character.
pub proof fn lemma_decimal_is_digits(n: nat)
    ensures
        decimal(n).len() > 0,
        forall|i: int|
            0 <= i < decimal(n).len() ==> 0 <= #[trigger] char_digit(decimal(n)[i]) <= 9
                && decimal(n)[i] == digit_char(char_digit(decimal(n)[i])),
    decreases n,
{
    if n >= 10 {
        lemma_decimal_is_digits(n / 10);
        assert forall|i: int| 0 <= i < decimal(n).len() implies 0 <= #[trigger] char_digit(
            decimal(n)[i],
        ) <= 9 && decimal(n)[i] == digit_char(char_digit(decimal(n)[i])) by {
            if i < decimal(n / 10).len() {
                assert(decimal(n)[i] == decimal(n / 10)[i]);
            }
        }
    }
}

/// The decimal writing has no leading zero: zero is written "0", any other
/// number begins with a digit other than 0.
pub proof fn lemma_decimal_shortest(n: nat)
    ensures
        decimal(0) == seq!['0'],
        n > 0 ==> char_digit(decimal(n)[0]) != 0,
    decreases n,
{
    if n >= 10 {
        lemma_decimal_shortest(n / 10);
        assert(decimal(n)[0] == decimal(n / 10)[0]);
    }
}

/// The ASCII bytes of a text of ASCII characters.
pub open spec fn ascii_bytes(s: Seq<char>) -> Seq<u8> {
    s.map_values(|c: char| c as u8)
}

/// The bytes of the decimal writing of `n` are ASCII digits whose values
/// are the digits of `n`.
pub proof fn lemma_decimal_bytes(n: nat)
    ensures
        ascii_bytes(decimal(n)).len() > 0,
        forall|i: int|
            0 <= i < ascii_bytes(decimal(n)).len() ==> is_digit_byte(
                #[trigger] ascii_bytes(decimal(n))[i],
            ),
        byte_digits(ascii_bytes(decimal(n))) == digit_values(decimal(n)),
{
    lemma_decimal_is_digits(n);
    let cs = decimal(n);
    let bs = ascii_bytes(cs);
    assert forall|i: int| 0 <= i < bs.len() implies is_digit_byte(#[trigger] bs[i]) && bs[i] - 48
        == char_digit(cs[i]) by {
        let d = char_digit(cs[i]);
        assert(cs[i] == digit_char(d));
        assert(bs[i] == cs[i] as u8);
    }
    assert(byte_digits(bs) =~= digit_values(cs));
}

/// Exactly the bytes 48 ('0') to 57 ('9') are digits.
pub proof fn lemma_digit_bytes(b: u8)
    ensures
        is_digit_byte(b) <==> (48 <= b && b <= 57),
{
}

/// The digit characters are '0' to '9', in order, and read back as their
/// value.
pub proof fn lemma_digit_chars(d: int)
    requires
        0 <= d <= 9,
    ensures
        digit_char(d) as u32 == 48 + d,
        char_digit(digit_char(d)) == d,
{
}

/// A number written with no digit is 0; one more digit multiplies the value
/// by ten and adds the digit.
pub proof fn lemma_digits_value_steps(ds: Seq<int>, d: int)
    requires
        0 <= d <= 9,
        forall|i: int| 0 <= i < ds.len() ==> 0 <= #[trigger] ds[i] <= 9,
    ensures
        digits_value(Seq::<int>::empty()) == 0,
        digits_value(ds.push(d)) == 10 * digits_value(ds) + d,
{
    assert(ds.push(d).drop_last() =~= ds);
}

/// The value of a digit byte is its distance from '0'.
pub proof fn lemma_byte_digits_in_place(bs: Seq<u8>)
    ensures
        byte_digits(bs).len() == bs.len(),
        forall|i: int| 0 <= i < bs.len() ==> #[trigger] byte_digits(bs)[i] == bs[i] - 48,
{
}

/// Whether `b` is the byte of an ASCII decimal digit.
pub open spec fn is_digit_byte(b: u8) -> bool {
    48 <= b <= 57
}

/// The digit values of a sequence of ASCII digit bytes.
pub open spec fn byte_digits(bs: Seq<u8>) -> Seq<int> {
    bs.map_values(|b: u8| b - 48)
}

fn digit_to_char(d: u64) -> (c: char)
    requires
        d < 10,
    ensures
        c == digit_char(d as int),
{
    if d == 0 {
        '0'
    } else if d == 1 {
        '1'
    } else if d == 2 {
        '2'
    } else if d == 3 {
        '3'
    } else if d == 4 {
        '4'
    } else if d == 5 {
        '5'
    } else if d == 6 {
        '6'
    } else if d == 7 {
        '7'
    } else if d == 8 {
        '8'
    } else {
        '9'
    }
}

/// Appends the decimal writing of `n` to `s`.
pub fn push_decimal(s: &mut String, n: u64)
    ensures
        final(s)@ == old(s)@ + decimal(n as nat),
    decreases n,
{
    if n >= 10 {
        push_decimal(s, n / 10);
    }
    let c = digit_to_char(n % 10);
    push_char(s, c);
    proof {
        if n < 10 {
            assert(decimal(n as nat) == seq![digit_char(n as int)]);
        }
    }
    assert(final(s)@ =~= old(s)@ + decimal(n as nat));
}

/// The decimal writing of `n`.
pub fn decimal_string(n: u64) -> (s: String)
    ensures
        s@ == decimal(n as nat),
{
    let mut s = String::new();
    push_decimal(&mut s, n);
    assert(s@ =~= decimal(n as nat));
    s
}

/// The characters of a string, in order.
pub fn chars_of(s: &str) -> (v: Vec<char>)
    ensures
        v@ == s@,
{
    let mut v: Vec<char> = Vec::new();
    for c in it: s.chars()
        invariant
            v@ == it.seq().take(it.index() as int),
    {
        v.push(c);
    }
    v
}

/// Whether two texts are equal.
pub fn same_text(a: &str, b: &str) -> (r: bool)
    ensures
        r == (a@ == b@),
{
    let av = chars_of(a);
    let bv = chars_of(b);
    if av.len() != bv.len() {
        return false;
    }
    let mut i: usize = 0;
    while i < av.len()
        invariant
            av@ == a@,
            bv@ == b@,
            av.len() == bv.len(),
            0 <= i <= av.len(),
            forall|k: int| 0 <= k < i ==> av@[k] == bv@[k],
        decreases av.len() - i,
    {
        if av[i] != bv[i] {
            return false;
        }
        i = i + 1;
    }
    assert(a@ =~= b@);
    true
}

/// Whether `s` begins with `prefix`.
pub open spec fn has_prefix(s: Seq<char>, prefix: Seq<char>) -> bool {
    prefix.len() <= s.len() && s.take(prefix.len() as int) == prefix
}

/// A text begins with `prefix` exactly when it is `prefix` followed by
/// some text.
pub proof fn lemma_prefix_meaning(s: Seq<char>, prefix: Seq<char>)
    ensures
        has_prefix(s, prefix) <==> exists|rest: Seq<char>| s == prefix + rest,
{
    if has_prefix(s, prefix) {
        assert(s =~= prefix + s.skip(prefix.len() as int));
    }
    if exists|rest: Seq<char>| s == prefix + rest {
        let rest = choose|rest: Seq<char>| s == prefix + rest;
        assert(s.take(prefix.len() as int) =~= prefix);
    }
}

/// Whether `s` begins with `prefix` (as `str::starts_with` with a `&str`
/// pattern).
pub fn starts_with(s: &str, prefix: &str) -> (b: bool)
    ensures
        b == has_prefix(s@, prefix@),
{
    let sv = chars_of(s);
    let pv = chars_of(prefix);
    if pv.len() > sv.len() {
        return false;
    }
    let mut i: usize = 0;
    while i < pv.len()
        invariant
            pv@ == prefix@,
            sv@ == s@,
            pv.len() <= sv.len(),
            0 <= i <= pv.len(),
            forall|k: int| 0 <= k < i ==> sv@[k] == pv@[k],
        decreases pv.len() - i,
    {
        if sv[i] != pv[i] {
            assert(s@.take(prefix@.len() as int)[i as int] != prefix@[i as int]);
            return false;
        }
        i = i + 1;
    }
    assert(s@.take(prefix@.len() as int) =~= prefix@);
    true
}

/// The strict order of names: code point by code point, a proper prefix
/// before the longer name. This is the order of `String`'s `Ord`, since
/// UTF-8 keeps the order of code points.
pub open spec fn text_less(a: Seq<char>, b: Seq<char>) -> bool
    decreases a.len(),
{
    if b.len() == 0 {
        false
    } else if a.len() == 0 {
        true
    } else if a[0] == b[0] {
        text_less(a.drop_first(), b.drop_first())
    } else {
        a[0] < b[0]
    }
}

/// The empty name comes first; otherwise names are ordered by their first
/// character (by code point), then by the rest.
pub proof fn lemma_text_less_meaning(c1: char, a: Seq<char>, c2: char, b: Seq<char>)
    ensures
        text_less(Seq::empty(), seq![c2] + b),
        !text_less(seq![c1] + a, Seq::empty()),
        !text_less(Seq::<char>::empty(), Seq::empty()),
        text_less(seq![c1] + a, seq![c2] + b) == (c1 < c2 || (c1 == c2 && text_less(a, b))),
{
    assert((seq![c1] + a).drop_first() =~= a);
    assert((seq![c2] + b).drop_first() =~= b);
    assert((seq![c1] + a)[0] == c1);
    assert((seq![c2] + b)[0] == c2);
}

/// No name comes before itself.
pub proof fn lemma_text_less_irreflexive(a: Seq<char>)
    ensures
        !text_less(a, a),
    decreases a.len(),
{
    if a.len() > 0 {
        lemma_text_less_irreflexive(a.drop_first());
    }
}

/// The order of names is transitive.
pub proof fn lemma_text_less_transitive(a: Seq<char>, b: Seq<char>, c: Seq<char>)
    requires
        text_less(a, b),
        text_less(b, c),
    ensures
        text_less(a, c),
    decreases a.len(),
{
    if a.len() > 0 && b.len() > 0 && c.len() > 0 {
        if a[0] == b[0] && b[0] == c[0] {
            lemma_text_less_transitive(a.drop_first(), b.drop_first(), c.drop_first());
        }
    }
}

/// Of two different names, one comes before the other.
pub proof fn lemma_text_less_total(a: Seq<char>, b: Seq<char>)
    requires
        a != b,
    ensures
        text_less(a, b) || text_less(b, a),
    decreases a.len(),
{
    if a.len() == 0 {
        assert(b.len() > 0) by {
            if b.len() == 0 {
                assert(a =~= b);
            }
        }
    } else if b.len() == 0 {
    } else if a[0] == b[0] {
        assert(a.drop_first() != b.drop_first()) by {
            if a.drop_first() == b.drop_first() {
                assert(a =~= seq![a[0]] + a.drop_first());
                assert(b =~= seq![b[0]] + b.drop_first());
            }
        }
        lemma_text_less_total(a.drop_first(), b.drop_first());
    } else {
    }
}

/// Of two names, at most one comes before the other.
pub proof fn lemma_text_less_asymmetric(a: Seq<char>, b: Seq<char>)
    requires
        text_less(a, b),
    ensures
        !text_less(b, a),
{
    if text_less(b, a) {
        lemma_text_less_transitive(a, b, a);
        lemma_text_less_irreflexive(a);
    }
}

/// Whether `a` comes before `b` in the order of names.
pub fn less_than(a: &str, b: &str) -> (r: bool)
    ensures
        r == text_less(a@, b@),
{
    let av = chars_of(a);
    let bv = chars_of(b);
    let mut i: usize = 0;
    assert(a@.skip(0) =~= a@);
    assert(b@.skip(0) =~= b@);
    while i < av.len() && i < bv.len()
        invariant
            av@ == a@,
            bv@ == b@,
            0 <= i <= av.len(),
            i <= bv.len(),
            text_less(a@, b@) == text_less(a@.skip(i as int), b@.skip(i as int)),
        decreases av.len() - i,
    {
        let ghost sa = a@.skip(i as int);
        let ghost sb = b@.skip(i as int);
        assert(sa[0] == av@[i as int]);
        assert(sb[0] == bv@[i as int]);
        if av[i] != bv[i] {
            return av[i] < bv[i];
        }
        assert(sa.drop_first() =~= a@.skip(i + 1));
        assert(sb.drop_first() =~= b@.skip(i + 1));
        i = i + 1;
    }
    if i < bv.len() {
        assert(a@.skip(i as int).len() == 0);
        true
    } else {
        assert(b@.skip(i as int).len() == 0);
        false
    }
}

} // verus!
