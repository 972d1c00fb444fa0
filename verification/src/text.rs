use vstd::prelude::*;
use vstd::string::*;

verus! {

/// The character of a decimal digit below ten.
pub open spec fn digit_char(d: nat) -> char {
    if d == 0 {
        '0'
    } else if d == 1 {
        '1'
    } else if d == 2 {
        '2'
    } else if d == 3 {
        '3'
    } else if d == 4 {
        '4'
    } else if d == 5 {
        '5'
    } else if d == 6 {
        '6'
    } else if d == 7 {
        '7'
    } else if d == 8 {
        '8'
    } else {
        '9'
    }
}

/// Whether a character is one of `0` to `9`.
pub open spec fn is_digit(c: char) -> bool {
    '0' <= c <= '9'
}

/// The value of a decimal digit character.
pub open spec fn digit_value(c: char) -> nat {
    (c as int - '0' as int) as nat
}

/// The decimal notation of a natural number, without leading zeros.
pub open spec fn decimal(n: nat) -> Seq<char>
    decreases n,
{
    if n < 10 {
        seq![digit_char(n)]
    } else {
        decimal(n / 10).push(digit_char(n % 10))
    }
}

/// The decimal notation of `n`, left-padded with zeros to at least `width` characters.
pub open spec fn zero_padded(n: nat, width: nat) -> Seq<char> {
    let digits = decimal(n);
    let fill: nat = if digits.len() < width { (width - digits.len()) as nat } else { 0 };
    Seq::new(fill, |i: int| '0') + digits
}

/// The number that a string of decimal digits denotes; leading zeros add nothing.
pub open spec fn digits_value(s: Seq<char>) -> nat
    decreases s.len(),
{
    if s.len() == 0 {
        0
    } else {
        digits_value(s.drop_last()) * 10 + digit_value(s.last())
    }
}

/// The result of replacing, from left to right, each non-overlapping occurrence of a
/// non-empty `from` in `s` by `to`.
pub open spec fn replace_all(s: Seq<char>, from: Seq<char>, to: Seq<char>) -> Seq<char>
    decreases s.len(),
{
    if from.len() == 0 || s.len() < from.len() {
        s
    } else if s.take(from.len() as int) == from {
        to + replace_all(s.skip(from.len() as int), from, to)
    } else {
        seq![s[0]] + replace_all(s.skip(1), from, to)
    }
}

proof fn lemma_digit_char(d: nat)
    requires
        d < 10,
    ensures
        is_digit(digit_char(d)),
        digit_value(digit_char(d)) == d,
{
}

/// The decimal notation of a number is all digits, denotes the number, and starts with a
/// zero only where it is the single digit `0`.
pub proof fn lemma_decimal_notation(n: nat)
    ensures
        decimal(n).len() >= 1,
        forall|i: int| 0 <= i < decimal(n).len() ==> #[trigger] is_digit(decimal(n)[i]),
        digits_value(decimal(n)) == n,
        decimal(n).len() > 1 ==> decimal(n)[0] != '0',
{
    lemma_decimal(n);
    lemma_decimal_no_leading_zero(n);
}

proof fn lemma_decimal(n: nat)
    ensures
        decimal(n).len() >= 1,
        forall|i: int| 0 <= i < decimal(n).len() ==> is_digit(#[trigger] decimal(n)[i]),
        digits_value(decimal(n)) == n,
    decreases n,
{
    if n < 10 {
        lemma_digit_char(n);
        assert(decimal(n).drop_last() =~= Seq::<char>::empty());
        assert(digits_value(Seq::<char>::empty()) == 0);
        assert(digits_value(decimal(n)) == digits_value(decimal(n).drop_last()) * 10 + digit_value(decimal(n).last()));
    } else {
        lemma_decimal(n / 10);
        lemma_digit_char(n % 10);
        assert(decimal(n).drop_last() =~= decimal(n / 10));
        assert(decimal(n).last() == digit_char(n % 10));
        assert((n / 10) * 10 + n % 10 == n) by (nonlinear_arith);
        assert(digits_value(decimal(n)) == digits_value(decimal(n).drop_last()) * 10 + digit_value(decimal(n).last()));
    }
}

proof fn lemma_leading_zeros(k: nat, s: Seq<char>)
    ensures
        digits_value(Seq::new(k, |i: int| '0') + s) == digits_value(s),
    decreases s.len(), k,
{
    let z = Seq::new(k, |i: int| '0');
    if s.len() == 0 {
        assert(z + s =~= z);
        if k > 0 {
            let z1 = Seq::new((k - 1) as nat, |i: int| '0');
            lemma_leading_zeros((k - 1) as nat, s);
            assert(z1 + s =~= z1);
            assert(z.drop_last() =~= z1);
        }
    } else {
        lemma_leading_zeros(k, s.drop_last());
        assert((z + s).drop_last() =~= z + s.drop_last());
    }
}

proof fn lemma_decimal_no_leading_zero(n: nat)
    ensures
        decimal(n).len() > 1 ==> decimal(n)[0] != '0',
        decimal(n).len() > 1 ==> n >= 10,
    decreases n,
{
    if n >= 10 {
        lemma_decimal_no_leading_zero(n / 10);
        lemma_decimal(n / 10);
        assert(decimal(n)[0] == decimal(n / 10)[0]);
        if n / 10 < 10 {
            lemma_digit_char(n / 10);
            assert(n / 10 >= 1);
            assert(decimal(n / 10) == seq![digit_char(n / 10)]);
            assert(digit_value('0') == 0);
        } else {
            lemma_decimal((n / 10) / 10);
            assert(decimal(n / 10).len() > 1);
        }
    }
}

/// A zero-padded number is all digits, at least `width` long, and denotes the number; it
/// is longer than `width` only where the number needs more digits, and then it does not
/// start with a zero.
pub proof fn lemma_zero_padded(n: nat, width: nat)
    ensures
        zero_padded(n, width).len() >= width,
        zero_padded(n, width).len() >= 1,
        forall|i: int| 0 <= i < zero_padded(n, width).len() ==> is_digit(#[trigger] zero_padded(n, width)[i]),
        digits_value(zero_padded(n, width)) == n,
        width >= 1 && zero_padded(n, width).len() > width ==> zero_padded(n, width)[0] != '0',
{
    lemma_decimal_no_leading_zero(n);
    lemma_decimal(n);
    let digits = decimal(n);
    let fill: nat = if digits.len() < width { (width - digits.len()) as nat } else { 0 };
    lemma_leading_zeros(fill, digits);
    let p = zero_padded(n, width);
    assert forall|i: int| 0 <= i < p.len() implies is_digit(#[trigger] p[i]) by {
        if i >= fill {
            assert(p[i] == digits[i - fill]);
        }
    }
}

/// Appends one character to a string.
#[verifier::external_body]
fn push_char(s: &mut String, c: char)
    ensures
        final(s)@ == old(s)@.push(c),
{
    s.push(c);
}

/// The characters of a string slice, in order.
pub fn chars_of(s: &str) -> (v: Vec<char>)
    ensures
        v@ == s@,
{
    let n: usize = s.unicode_len();
    let mut v: Vec<char> = Vec::new();
    let mut i: usize = 0;
    while i < n
        invariant
            n == s@.len(),
            i <= n,
            v@ == s@.take(i as int),
        decreases n - i,
    {
        v.push(s.get_char(i));
        i = i + 1;
        assert(v@ =~= s@.take(i as int));
    }
    assert(s@.take(n as int) =~= s@);
    v
}

/// The string made of the given characters, in order.
pub fn string_of(v: &Vec<char>) -> (s: String)
    ensures
        s@ == v@,
{
    let mut s = String::new();
    let mut i: usize = 0;
    while i < v.len()
        invariant
            i <= v.len(),
            s@ == v@.take(i as int),
        decreases v.len() - i,
    {
        push_char(&mut s, v[i]);
        i = i + 1;
        assert(s@ =~= v@.take(i as int));
    }
    assert(v@.take(v.len() as int) =~= v@);
    s
}

fn digit(d: u64) -> (c: char)
    requires
        d < 10,
    ensures
        c == digit_char(d as nat),
{
    if d == 0 {
        '0'
    } else if d == 1 {
        '1'
    } else if d == 2 {
        '2'
    } else if d == 3 {
        '3'
    } else if d == 4 {
        '4'
    } else if d == 5 {
        '5'
    } else if d == 6 {
        '6'
    } else if d == 7 {
        '7'
    } else if d == 8 {
        '8'
    } else {
        '9'
    }
}

/// The decimal digits of `n`, most significant first.
pub fn decimal_chars(n: u64) -> (v: Vec<char>)
    ensures
        v@ == decimal(n as nat),
{
    let mut rest: u64 = n;
    let mut tail: Vec<char> = Vec::new();
    loop
        invariant
            decimal(n as nat) == decimal(rest as nat) + tail@,
        decreases rest,
    {
        if rest < 10 {
            let ghost before = tail@;
            tail.insert(0, digit(rest));
            assert(decimal(rest as nat) + before =~= tail@);
            return tail;
        }
        let ghost before = tail@;
        tail.insert(0, digit(rest % 10));
        assert(decimal(rest as nat) + before =~= decimal((rest / 10) as nat) + tail@);
        rest = rest / 10;
    }
}

/// The decimal notation of `n`, left-padded with zeros to at least `width` characters.
pub fn zero_padded_chars(n: u64, width: usize) -> (v: Vec<char>)
    ensures
        v@ == zero_padded(n as nat, width as nat),
{
    let digits = decimal_chars(n);
    let fill: usize = if digits.len() < width { width - digits.len() } else { 0 };
    let mut v: Vec<char> = Vec::new();
    let mut i: usize = 0;
    while i < fill
        invariant
            i <= fill,
            v@ == Seq::new(i as nat, |k: int| '0'),
        decreases fill - i,
    {
        v.push('0');
        i = i + 1;
        assert(v@ =~= Seq::new(i as nat, |k: int| '0'));
    }
    let mut j: usize = 0;
    while j < digits.len()
        invariant
            j <= digits.len(),
            v@ == Seq::new(fill as nat, |k: int| '0') + digits@.take(j as int),
        decreases digits.len() - j,
    {
        v.push(digits[j]);
        j = j + 1;
        assert(v@ =~= Seq::new(fill as nat, |k: int| '0') + digits@.take(j as int));
    }
    assert(digits@.take(digits.len() as int) =~= digits@);
    assert(v@ =~= zero_padded(n as nat, width as nat));
    v
}


proof fn lemma_replace_plain_step(t: Seq<char>, from: Seq<char>, to: Seq<char>)
    requires
        from.len() > 0,
        t.len() > 0,
        !(t.len() >= from.len() && t.take(from.len() as int) == from),
    ensures
        replace_all(t, from, to) == seq![t[0]] + replace_all(t.skip(1), from, to),
{
    if t.len() < from.len() {
        assert(seq![t[0]] + t.skip(1) =~= t);
    }
}

fn occurs_at(v: &Vec<char>, i: usize, pattern: &Vec<char>) -> (b: bool)
    requires
        i <= v.len(),
    ensures
        b == (i + pattern.len() <= v.len() && v@.subrange(i as int, i + pattern.len()) == pattern@),
{
    if pattern.len() > v.len() - i {
        return false;
    }
    let mut k: usize = 0;
    while k < pattern.len()
        invariant
            i + pattern.len() <= v.len(),
            k <= pattern.len(),
            forall|j: int| 0 <= j < k ==> v@[i + j] == pattern@[j],
        decreases pattern.len() - k,
    {
        if v[i + k] != pattern[k] {
            assert(v@.subrange(i as int, i + pattern.len())[k as int] != pattern@[k as int]);
            return false;
        }
        k = k + 1;
    }
    assert(v@.subrange(i as int, i + pattern.len()) =~= pattern@);
    true
}

/// Replaces, from left to right, each non-overlapping occurrence of `from` in `s` by `to`.
pub fn replace_all_str(s: &str, from: &str, to: &str) -> (r: String)
    requires
        from@.len() > 0,
    ensures
        r@ == replace_all(s@, from@, to@),
{
    let sv = chars_of(s);
    let fv = chars_of(from);
    let tv = chars_of(to);
    let mut out: Vec<char> = Vec::new();
    let mut i: usize = 0;
    assert(sv@.skip(0) =~= sv@);
    while i < sv.len()
        invariant
            i <= sv.len(),
            fv@.len() > 0,
            sv@ == s@,
            fv@ == from@,
            tv@ == to@,
            replace_all(sv@, fv@, tv@) == out@ + replace_all(sv@.skip(i as int), fv@, tv@),
        decreases sv.len() - i,
    {
        let ghost t = sv@.skip(i as int);
        if occurs_at(&sv, i, &fv) {
            assert(t.take(fv.len() as int) =~= sv@.subrange(i as int, i + fv.len()));
            assert(t.skip(fv.len() as int) =~= sv@.skip(i + fv.len()));
            let ghost before = out@;
            let mut k: usize = 0;
            while k < tv.len()
                invariant
                    k <= tv.len(),
                    out@ == before + tv@.take(k as int),
                decreases tv.len() - k,
            {
                out.push(tv[k]);
                k = k + 1;
                assert(out@ =~= before + tv@.take(k as int));
            }
            assert(tv@.take(tv.len() as int) =~= tv@);
            assert(out@ + replace_all(sv@.skip(i + fv.len()), fv@, tv@) =~= before + (tv@ + replace_all(t.skip(fv.len() as int), fv@, tv@)));
            i = i + fv.len();
        } else {
            proof {
                if t.len() >= fv@.len() {
                    assert(t.take(fv.len() as int) =~= sv@.subrange(i as int, i + fv.len()));
                }
                lemma_replace_plain_step(t, fv@, tv@);
            }
            assert(t.skip(1) =~= sv@.skip(i + 1));
            let ghost before = out@;
            out.push(sv[i]);
            assert(out@ + replace_all(sv@.skip(i + 1), fv@, tv@) =~= before + (seq![t[0]] + replace_all(t.skip(1), fv@, tv@)));
            i = i + 1;
        }
    }
    assert(sv@.skip(sv.len() as int) =~= Seq::<char>::empty());
    assert(out@ + Seq::<char>::empty() =~= out@);
    string_of(&out)
}

/// An occurrence of `from` at the start of the text is replaced by `to`, and the rest of the
/// text is treated alike, whatever the text's length.
pub proof fn lemma_replace_at_start(s: Seq<char>, from: Seq<char>, to: Seq<char>)
    requires
        from.len() > 0,
        s.len() >= from.len(),
        s.subrange(0, from.len() as int) == from,
    ensures
        replace_all(s, from, to) == to + replace_all(s.skip(from.len() as int), from, to),
{
    assert(s.take(from.len() as int) =~= s.subrange(0, from.len() as int));
}

/// Where `from` does not start the text, the first character is kept as it is.
pub proof fn lemma_replace_keeps_first(s: Seq<char>, from: Seq<char>, to: Seq<char>)
    requires
        from.len() > 0,
        s.len() > 0,
        !(s.len() >= from.len() && s.subrange(0, from.len() as int) == from),
    ensures
        replace_all(s, from, to) == seq![s[0]] + replace_all(s.skip(1), from, to),
{
    if s.len() >= from.len() {
        assert(s.take(from.len() as int) =~= s.subrange(0, from.len() as int));
    }
    lemma_replace_plain_step(s, from, to);
}

/// A text in which `from` does not occur is left as it is.
pub proof fn lemma_replace_without_occurrence(s: Seq<char>, from: Seq<char>, to: Seq<char>)
    requires
        from.len() > 0,
        forall|i: int| 0 <= i && i + from.len() <= s.len() ==> #[trigger] s.subrange(i, i + from.len()) != from,
    ensures
        replace_all(s, from, to) == s,
    decreases s.len(),
{
    if s.len() > 0 {
        let k: int = 0;
        assert(s.len() >= from.len() ==> s.subrange(k, k + from.len()) != from);
        assert(s.subrange(k, k + from.len()) == s.subrange(0, from.len() as int));
        lemma_replace_keeps_first(s, from, to);
        let t = s.skip(1);
        assert forall|i: int| 0 <= i && i + from.len() <= t.len() implies #[trigger] t.subrange(i, i + from.len()) != from by {
            assert(t.subrange(i, i + from.len()) =~= s.subrange(i + 1, (i + 1) + from.len()));
        }
        lemma_replace_without_occurrence(t, from, to);
        assert(seq![s[0]] + t =~= s);
    }
}

/// The characters `236x`.
pub open spec fn thumb_marker() -> Seq<char> {
    seq!['2', '3', '6', 'x']
}

/// The characters `736x`.
pub open spec fn large_marker() -> Seq<char> {
    seq!['7', '3', '6', 'x']
}

proof fn lemma_kept_first_of_resize(t: Seq<char>)
    requires
        replace_all(t, thumb_marker(), large_marker()).len() > 0,
        replace_all(t, thumb_marker(), large_marker())[0] != '7',
    ensures
        t.len() > 0,
        t[0] == replace_all(t, thumb_marker(), large_marker())[0],
        replace_all(t, thumb_marker(), large_marker())
            == seq![t[0]] + replace_all(t.skip(1), thumb_marker(), large_marker()),
{
    let f = thumb_marker();
    let g = large_marker();
    if t.len() < f.len() {
        assert(seq![t[0]] + t.skip(1) =~= t);
    } else if t.take(4) == f {
        assert((g + replace_all(t.skip(4), f, g))[0] == '7');
    }
}

/// Replacing every `236x` by `736x` leaves no `236x` behind.
pub proof fn lemma_resize_leaves_no_thumbnail(s: Seq<char>)
    ensures
        forall|i: int|
            0 <= i && i + 4 <= replace_all(s, thumb_marker(), large_marker()).len()
            ==> #[trigger] replace_all(s, thumb_marker(), large_marker()).subrange(i, i + 4)
                != thumb_marker(),
    decreases s.len(),
{
    let f = thumb_marker();
    let g = large_marker();
    let r = replace_all(s, f, g);
    if s.len() < 4 {
        assert(r == s);
    } else if s.take(4) == f {
        let r1 = replace_all(s.skip(4), f, g);
        lemma_resize_leaves_no_thumbnail(s.skip(4));
        assert(r == g + r1);
        assert forall|i: int| 0 <= i && i + 4 <= r.len() implies #[trigger] r.subrange(i, i + 4) != f by {
            if i >= 4 {
                assert(r.subrange(i, i + 4) =~= r1.subrange(i - 4, (i - 4) + 4));
            } else {
                assert(r.subrange(i, i + 4)[0] == g[i]);
                assert(f[0] == '2');
            }
        }
    } else {
        let t1 = s.skip(1);
        let r1 = replace_all(t1, f, g);
        lemma_resize_leaves_no_thumbnail(t1);
        assert(r == seq![s[0]] + r1);
        assert forall|i: int| 0 <= i && i + 4 <= r.len() implies #[trigger] r.subrange(i, i + 4) != f by {
            if i >= 1 {
                assert(r.subrange(i, i + 4) =~= r1.subrange(i - 1, (i - 1) + 4));
            } else if r.subrange(0, 4) == f {
                assert(s[0] == '2');
                assert(r1[0] == r.subrange(0, 4)[1]);
                assert(r1[0] == '3');
                lemma_kept_first_of_resize(t1);
                let t2 = t1.skip(1);
                let r2 = replace_all(t2, f, g);
                assert(r2[0] == r.subrange(0, 4)[2]);
                lemma_kept_first_of_resize(t2);
                let t3 = t2.skip(1);
                let r3 = replace_all(t3, f, g);
                assert(r3[0] == r.subrange(0, 4)[3]);
                lemma_kept_first_of_resize(t3);
                assert(s[1] == t1[0]);
                assert(s[2] == t2[0]);
                assert(s[3] == t3[0]);
                assert(s.take(4) =~= f);
            }
        }
    }
}

} // verus!
