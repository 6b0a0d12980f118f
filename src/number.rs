use vstd::arithmetic::div_mod::{lemma_div_denominator, lemma_hoist_over_denominator};
use vstd::prelude::*;

verus! {

pub open spec fn is_digit(c: char) -> bool {
    '0' <= c && c <= '9'
}

pub open spec fn digit_value(c: char) -> int {
    c as int - '0' as int
}

pub open spec fn all_digits(s: Seq<char>) -> bool {
    forall|i: int| 0 <= i < s.len() ==> is_digit(#[trigger] s[i])
}

/// The number that a string of decimal digits writes.
pub open spec fn digits_value(s: Seq<char>) -> nat
    decreases s.len(),
{
    if s.len() == 0 {
        0
    } else {
        (10 * digits_value(s.drop_last()) + digit_value(s.last())) as nat
    }
}

pub open spec fn pow10(n: nat) -> nat
    decreases n,
{
    if n == 0 {
        1
    } else {
        10 * pow10((n - 1) as nat)
    }
}

/// A word without its leading sign, if it has one.
pub open spec fn unsigned_part(w: Seq<char>) -> Seq<char> {
    if w.len() > 0 && (w[0] == '+' || w[0] == '-') {
        w.drop_first()
    } else {
        w
    }
}

/// The value of a word in the syntax that `str::parse` takes for an unsigned
/// integer: an optional `+`, then one or more decimal digits.
pub open spec fn unsigned_text(w: Seq<char>) -> Option<nat> {
    let d = if w.len() > 0 && w[0] == '+' {
        w.drop_first()
    } else {
        w
    };
    if d.len() > 0 && all_digits(d) {
        Some(digits_value(d))
    } else {
        None
    }
}

/// The value of a word read as an unsigned integer no larger than `bound`.
pub open spec fn bounded_unsigned(w: Seq<char>, bound: int) -> Option<nat> {
    match unsigned_text(w) {
        Some(v) => if v <= bound {
            Some(v)
        } else {
            None
        },
        None => None,
    }
}

proof fn lemma_digits_value_grows(s: Seq<char>, i: int)
    requires
        0 <= i <= s.len(),
        all_digits(s),
    ensures
        digits_value(s.take(i)) <= digits_value(s),
    decreases s.len(),
{
    if i < s.len() {
        assert(s.drop_last().take(i) =~= s.take(i));
        lemma_digits_value_grows(s.drop_last(), i);
    } else {
        assert(s.take(i) =~= s);
    }
}

pub fn digit(c: char) -> (r: bool)
    ensures
        r == is_digit(c),
{
    '0' <= c && c <= '9'
}

/// Reads a word as an unsigned integer no larger than `bound`.
pub fn parse_unsigned(w: &Vec<char>, bound: usize) -> (r: Option<usize>)
    ensures
        r matches Some(v) ==> bounded_unsigned(w@, bound as int) == Some(v as nat),
        r is None ==> bounded_unsigned(w@, bound as int) is None,
{
    let start: usize = if w.len() > 0 && w[0] == '+' {
        1
    } else {
        0
    };
    let ghost d = if w@.len() > 0 && w@[0] == '+' {
        w@.drop_first()
    } else {
        w@
    };
    assert(d =~= w@.skip(start as int));
    if start == w.len() {
        return None;
    }
    let mut acc: usize = 0;
    let mut over = false;
    let mut i: usize = start;
    while i < w.len()
        invariant
            start <= i <= w.len(),
            d == w@.skip(start as int),
            d == (if w@.len() > 0 && w@[0] == '+' {
                w@.drop_first()
            } else {
                w@
            }),
            all_digits(d.take(i - start)),
            !over ==> acc == digits_value(d.take(i - start)) && acc <= bound,
            over ==> digits_value(d.take(i - start)) > bound,
        decreases w.len() - i,
    {
        let c = w[i];
        if !digit(c) {
            assert(d[i - start] == c);
            assert(!is_digit(d[i - start]));
            assert(!all_digits(d));
            assert(unsigned_text(w@) is None);
            return None;
        }
        let ghost j = i - start;
        assert(d.take(j + 1).drop_last() =~= d.take(j));
        assert(d.take(j + 1).last() == c);
        if !over {
            let dv = (c as u32 - '0' as u32) as usize;
            if dv > bound || acc > (bound - dv) / 10 {
                assert(10 * acc + dv > bound) by (nonlinear_arith)
                    requires
                        dv > bound || acc > (bound - dv) / 10,
                        dv <= 9,
                ;
                over = true;
            } else {
                assert(10 * acc + dv <= bound) by (nonlinear_arith)
                    requires
                        acc <= (bound - dv) / 10,
                        dv <= 9,
                        dv <= bound,
                ;
                acc = acc * 10 + dv;
            }
        } else {
            assert(digits_value(d.take(j + 1)) >= digits_value(d.take(j))) by (nonlinear_arith)
                requires
                    digits_value(d.take(j + 1)) == 10 * digits_value(d.take(j)) + digit_value(c),
                    is_digit(c),
            ;
        }
        i = i + 1;
    }
    assert(d.take(i - start) =~= d);
    if over {
        None
    } else {
        Some(acc)
    }
}

/// The index of the first character of `s` that is `a` or `b`, or the
/// length of `s` where there is none.
pub open spec fn find_either(s: Seq<char>, a: char, b: char) -> nat
    decreases s.len(),
{
    if s.len() == 0 || s[0] == a || s[0] == b {
        0
    } else {
        1 + find_either(s.drop_first(), a, b)
    }
}

/// Digits with at most one decimal point, and at least one digit:
/// `12`, `12.`, `12.5` or `.5`.
pub open spec fn is_mantissa(m: Seq<char>) -> bool {
    let p = find_either(m, '.', '.') as int;
    let whole = m.take(p);
    if p == m.len() {
        whole.len() > 0 && all_digits(whole)
    } else {
        let frac = m.skip(p + 1);
        all_digits(whole) && all_digits(frac) && (whole.len() > 0 || frac.len() > 0)
    }
}

/// An exponent: `e` or `E`, an optional sign, then one or more digits.
pub open spec fn is_exponent(x: Seq<char>) -> bool {
    x.len() > 0 && (x[0] == 'e' || x[0] == 'E') && unsigned_part(x.drop_first()).len() > 0
        && all_digits(unsigned_part(x.drop_first()))
}

/// A mantissa, then an optional exponent.
pub open spec fn is_number(s: Seq<char>) -> bool {
    let e = find_either(s, 'e', 'E') as int;
    is_mantissa(s.take(e)) && (e == s.len() || is_exponent(s.skip(e)))
}

/// Whether `s` spells a word whose lower-case form is `lower` and whose
/// upper-case form is `upper`, each letter in either case.
pub open spec fn spells(s: Seq<char>, lower: Seq<char>, upper: Seq<char>) -> bool {
    s.len() == lower.len() && s.len() == upper.len() && forall|i: int|
        0 <= i < s.len() ==> #[trigger] s[i] == lower[i] || s[i] == upper[i]
}

/// The syntax that `str::parse` takes for a floating-point number: an
/// optional sign, then `inf`, `infinity` or `nan` in any case, or a number.
pub open spec fn is_float_text(w: Seq<char>) -> bool {
    let s = unsigned_part(w);
    spells(s, seq!['i', 'n', 'f'], seq!['I', 'N', 'F']) || spells(
        s,
        seq!['i', 'n', 'f', 'i', 'n', 'i', 't', 'y'],
        seq!['I', 'N', 'F', 'I', 'N', 'I', 'T', 'Y'],
    ) || spells(s, seq!['n', 'a', 'n'], seq!['N', 'A', 'N']) || is_number(s)
}

/// The signed value of an exponent part (`e`, an optional sign, digits),
/// or 0 for an empty one.
pub open spec fn exponent_value(x: Seq<char>) -> int {
    if x.len() == 0 {
        0
    } else {
        let y = x.drop_first();
        let m = digits_value(unsigned_part(y)) as int;
        if y.len() > 0 && y[0] == '-' {
            -m
        } else {
            m
        }
    }
}

/// The channel for the value `n / scale`: 0 for zero, the value scaled to
/// 0..=255 and rounded down where it lies in 0.0..=1.0, and `None` where it
/// is negative or above 1.
pub open spec fn channel_value(n: nat, scale: nat, negative: bool) -> Option<int> {
    if n == 0 {
        Some(0)
    } else if negative || n > scale {
        None
    } else {
        Some((255 * n / scale) as int)
    }
}

/// The value of a word as a fraction of the unit interval, scaled to 0..=255
/// and rounded down. The word is a number as `str::parse` reads a float (an
/// optional sign, a mantissa, an optional exponent), and its value is the
/// mantissa's digits over ten to the number of fraction digits, times ten
/// to the exponent. `None` for a word of another form, or a value outside
/// 0.0..=1.0.
pub open spec fn unit_channel(w: Seq<char>) -> Option<int> {
    let s = unsigned_part(w);
    let negative = w.len() > 0 && w[0] == '-';
    if !is_number(s) {
        None
    } else {
        let e = find_either(s, 'e', 'E') as int;
        let m = s.take(e);
        let p = find_either(m, '.', '.') as int;
        let frac = if p < m.len() {
            m.skip(p + 1)
        } else {
            Seq::empty()
        };
        let digits = digits_value(m.take(p)) * pow10(frac.len()) + digits_value(frac);
        let k = exponent_value(s.skip(e)) - frac.len();
        if k >= 0 {
            channel_value(digits * pow10(k as nat), 1, negative)
        } else {
            channel_value(digits, pow10((-k) as nat), negative)
        }
    }
}

/// The characters of `s` from `a` up to `b`.
pub fn slice_of(s: &Vec<char>, a: usize, b: usize) -> (r: Vec<char>)
    requires
        a <= b <= s.len(),
    ensures
        r@ == s@.subrange(a as int, b as int),
{
    let mut r: Vec<char> = Vec::new();
    let mut i: usize = a;
    while i < b
        invariant
            a <= i <= b <= s.len(),
            r@ == s@.subrange(a as int, i as int),
        decreases b - i,
    {
        r.push(s[i]);
        i = i + 1;
    }
    r
}

fn find_char(s: &Vec<char>, a: char, b: char) -> (r: usize)
    ensures
        r == find_either(s@, a, b),
        r <= s.len(),
{
    let mut i: usize = 0;
    assert(s@.skip(0) =~= s@);
    while i < s.len() && s[i] != a && s[i] != b
        invariant
            i <= s.len(),
            find_either(s@, a, b) == i + find_either(s@.skip(i as int), a, b),
        decreases s.len() - i,
    {
        assert(s@.skip(i as int).drop_first() =~= s@.skip(i + 1));
        i = i + 1;
    }
    i
}

fn digits_only(s: &Vec<char>) -> (r: bool)
    ensures
        r == all_digits(s@),
{
    let mut i: usize = 0;
    while i < s.len()
        invariant
            i <= s.len(),
            forall|j: int| 0 <= j < i ==> is_digit(#[trigger] s@[j]),
        decreases s.len() - i,
    {
        if !digit(s[i]) {
            return false;
        }
        i = i + 1;
    }
    true
}

fn without_sign(w: &Vec<char>) -> (r: Vec<char>)
    ensures
        r@ == unsigned_part(w@),
{
    if w.len() > 0 && (w[0] == '+' || w[0] == '-') {
        let r = slice_of(w, 1, w.len());
        assert(r@ =~= w@.drop_first());
        r
    } else {
        slice_of(w, 0, w.len())
    }
}

fn mantissa(m: &Vec<char>) -> (r: bool)
    ensures
        r == is_mantissa(m@),
{
    let p = find_char(m, '.', '.');
    let whole = slice_of(m, 0, p);
    if p == m.len() {
        whole.len() > 0 && digits_only(&whole)
    } else {
        let frac = slice_of(m, p + 1, m.len());
        digits_only(&whole) && digits_only(&frac) && (whole.len() > 0 || frac.len() > 0)
    }
}

fn exponent(x: &Vec<char>) -> (r: bool)
    ensures
        r == is_exponent(x@),
{
    if x.len() > 0 && (x[0] == 'e' || x[0] == 'E') {
        let rest = slice_of(x, 1, x.len());
        assert(rest@ =~= x@.drop_first());
        let y = without_sign(&rest);
        y.len() > 0 && digits_only(&y)
    } else {
        false
    }
}

fn spells_word(s: &Vec<char>, lower: &Vec<char>, upper: &Vec<char>) -> (r: bool)
    ensures
        r == spells(s@, lower@, upper@),
{
    if s.len() != lower.len() || s.len() != upper.len() {
        return false;
    }
    let mut i: usize = 0;
    while i < s.len()
        invariant
            i <= s.len() == lower.len() == upper.len(),
            forall|j: int| 0 <= j < i ==> #[trigger] s@[j] == lower@[j] || s@[j] == upper@[j],
        decreases s.len() - i,
    {
        if !(s[i] == lower[i] || s[i] == upper[i]) {
            return false;
        }
        i = i + 1;
    }
    true
}

/// Whether a word is a floating-point number in the syntax of `str::parse`.
pub fn float_text(w: &Vec<char>) -> (r: bool)
    ensures
        r == is_float_text(w@),
{
    let s = without_sign(w);
    let inf = vec!['i', 'n', 'f'];
    let inf_upper = vec!['I', 'N', 'F'];
    let infinity = vec!['i', 'n', 'f', 'i', 'n', 'i', 't', 'y'];
    let infinity_upper = vec!['I', 'N', 'F', 'I', 'N', 'I', 'T', 'Y'];
    let nan = vec!['n', 'a', 'n'];
    let nan_upper = vec!['N', 'A', 'N'];
    assert(inf@ =~= seq!['i', 'n', 'f']);
    assert(inf_upper@ =~= seq!['I', 'N', 'F']);
    assert(infinity@ =~= seq!['i', 'n', 'f', 'i', 'n', 'i', 't', 'y']);
    assert(infinity_upper@ =~= seq!['I', 'N', 'F', 'I', 'N', 'I', 'T', 'Y']);
    assert(nan@ =~= seq!['n', 'a', 'n']);
    assert(nan_upper@ =~= seq!['N', 'A', 'N']);
    if spells_word(&s, &inf, &inf_upper) || spells_word(&s, &infinity, &infinity_upper)
        || spells_word(&s, &nan, &nan_upper) {
        return true;
    }
    number(&s)
}

fn number(s: &Vec<char>) -> (r: bool)
    ensures
        r == is_number(s@),
{
    let e = find_char(s, 'e', 'E');
    let m = slice_of(s, 0, e);
    if !mantissa(&m) {
        return false;
    }
    if e == s.len() {
        return true;
    }
    let x = slice_of(s, e, s.len());
    exponent(&x)
}

proof fn lemma_digits_value_below(f: Seq<char>)
    requires
        all_digits(f),
    ensures
        digits_value(f) < pow10(f.len()),
    decreases f.len(),
{
    if f.len() > 0 {
        lemma_digits_value_below(f.drop_last());
        assert(digits_value(f) < pow10(f.len())) by (nonlinear_arith)
            requires
                digits_value(f) == 10 * digits_value(f.drop_last()) + digit_value(f.last()),
                digits_value(f.drop_last()) < pow10(f.drop_last().len()),
                pow10(f.len()) == 10 * pow10(f.drop_last().len()),
                0 <= digit_value(f.last()) <= 9,
        ;
    }
}

proof fn lemma_digits_value_front(d: char, g: Seq<char>)
    requires
        is_digit(d),
        all_digits(g),
    ensures
        digits_value(seq![d] + g) == digit_value(d) * pow10(g.len()) + digits_value(g),
    decreases g.len(),
{
    if g.len() == 0 {
        assert((seq![d] + g).drop_last() =~= Seq::<char>::empty());
        assert(digits_value(Seq::<char>::empty()) == 0);
        assert(pow10(0) == 1);
        assert(digits_value(seq![d] + g) == digit_value(d));
    } else {
        assert((seq![d] + g).drop_last() =~= seq![d] + g.drop_last());
        assert((seq![d] + g).last() == g.last());
        assert(is_digit(g.last()));
        lemma_digits_value_front(d, g.drop_last());
        assert(digits_value(seq![d] + g) == digit_value(d) * pow10(g.len()) + digits_value(g))
            by (nonlinear_arith)
            requires
                digits_value(seq![d] + g) == 10 * digits_value(seq![d] + g.drop_last())
                    + digit_value(g.last()),
                digits_value(seq![d] + g.drop_last()) == digit_value(d) * pow10(
                    g.drop_last().len(),
                ) + digits_value(g.drop_last()),
                digits_value(g) == 10 * digits_value(g.drop_last()) + digit_value(g.last()),
                pow10(g.len()) == 10 * pow10(g.drop_last().len()),
        ;
    }
}

proof fn lemma_pow10_positive(n: nat)
    ensures
        pow10(n) > 0,
    decreases n,
{
    if n > 0 {
        lemma_pow10_positive((n - 1) as nat);
    }
}

/// `255 * f / 10^|f|`, rounded down, for a string of digits `f`, computed
/// from its last digit to its first.
fn scaled_fraction(f: &Vec<char>) -> (r: u8)
    requires
        all_digits(f@),
    ensures
        r as int == 255 * digits_value(f@) / pow10(f@.len()),
{
    let mut carry: u32 = 0;
    let mut i: usize = f.len();
    proof {
        assert(f@.skip(f@.len() as int) =~= Seq::<char>::empty());
    }
    while i > 0
        invariant
            i <= f.len(),
            all_digits(f@),
            carry < 255,
            carry as int == 255 * digits_value(f@.skip(i as int)) / pow10((f.len() - i) as nat),
        decreases i,
    {
        let c = f[i - 1];
        assert(is_digit(f@[i - 1]));
        let d = c as u32 - '0' as u32;
        let ghost g = f@.skip(i as int);
        let ghost m = (f.len() - i) as nat;
        proof {
            assert(f@.skip(i - 1) =~= seq![c] + g);
            lemma_digits_value_front(c, g);
            lemma_pow10_positive(m);
            let v = digits_value(g) as int;
            let p = pow10(m) as int;
            assert(pow10(m + 1) == 10 * p);
            assert(255 * (d * p + v) >= 0) by (nonlinear_arith)
                requires
                    d >= 0,
                    p > 0,
                    v >= 0,
            ;
            lemma_div_denominator(255 * (d * p + v), p, 10);
            lemma_hoist_over_denominator(255 * v, 255 * d, p as nat);
            assert(255 * v + 255 * d * p == 255 * (d * p + v)) by (nonlinear_arith);
            assert(p * 10 == 10 * p);
        }
        carry = (255 * d + carry) / 10;
        i = i - 1;
    }
    assert(f@.skip(0) =~= f@);
    carry as u8
}

/// The channel for the digits `whole`, a decimal point, and the digits
/// `frac`.
fn channel_of_parts(whole: &Vec<char>, frac: &Vec<char>, negative: bool) -> (r: Option<u8>)
    requires
        all_digits(whole@),
        all_digits(frac@),
    ensures
        r matches Some(v) ==> channel_value(
            digits_value(whole@) * pow10(frac@.len()) + digits_value(frac@),
            pow10(frac@.len()),
            negative,
        ) == Some(v as int),
        r is None ==> channel_value(
            digits_value(whole@) * pow10(frac@.len()) + digits_value(frac@),
            pow10(frac@.len()),
            negative,
        ) is None,
{
    let ghost scale = pow10(frac@.len());
    let ghost n = digits_value(whole@) * scale + digits_value(frac@);
    proof {
        lemma_pow10_positive(frac@.len());
        lemma_digits_value_below(frac@);
    }
    let mut zero_frac = true;
    let mut k: usize = 0;
    while k < frac.len()
        invariant
            k <= frac.len(),
            all_digits(frac@),
            zero_frac == (digits_value(frac@.take(k as int)) == 0),
        decreases frac.len() - k,
    {
        assert(frac@.take(k + 1).drop_last() =~= frac@.take(k as int));
        assert(is_digit(frac@[k as int]));
        if frac[k] != '0' {
            zero_frac = false;
        }
        k = k + 1;
    }
    assert(frac@.take(k as int) =~= frac@);
    let whole_value: usize = if whole.len() == 0 {
        0
    } else {
        match parse_unsigned(whole, 1) {
            Some(v) => v,
            None => 2,
        }
    };
    proof {
        if whole.len() == 0 {
            assert(digits_value(whole@) == 0);
        } else {
            assert(is_digit(whole@[0]));
            assert(unsigned_text(whole@) == Some(digits_value(whole@)));
        }
        if whole_value == 2 {
            assert(digits_value(whole@) >= 2);
        } else {
            assert(digits_value(whole@) == whole_value);
        }
    }
    proof {
        if whole_value == 0 {
            assert(n == digits_value(frac@)) by (nonlinear_arith)
                requires
                    n == digits_value(whole@) * scale + digits_value(frac@),
                    digits_value(whole@) == 0,
            ;
        } else if whole_value == 1 {
            assert(n == scale + digits_value(frac@)) by (nonlinear_arith)
                requires
                    n == digits_value(whole@) * scale + digits_value(frac@),
                    digits_value(whole@) == 1,
            ;
        } else {
            assert(n >= 2 * scale) by (nonlinear_arith)
                requires
                    n == digits_value(whole@) * scale + digits_value(frac@),
                    digits_value(whole@) >= 2,
                    scale > 0,
            ;
        }
    }
    if whole_value == 0 && zero_frac {
        return Some(0);
    }
    if negative || whole_value == 2 || (whole_value == 1 && !zero_frac) {
        proof {
            if !negative {
                assert(n > scale) by (nonlinear_arith)
                    requires
                        n == digits_value(whole@) * scale + digits_value(frac@),
                        digits_value(whole@) >= 2 || (digits_value(whole@) == 1 && digits_value(
                            frac@,
                        ) > 0),
                        scale > 0,
                ;
            }
        }
        return None;
    }
    if whole_value == 1 {
        assert(255 * n / scale == 255) by (nonlinear_arith)
            requires
                n == scale,
                scale > 0,
        ;
        return Some(255);
    }
    let r = scaled_fraction(frac);
    Some(r)
}

proof fn lemma_digits_value_concat(x: Seq<char>, y: Seq<char>)
    requires
        all_digits(x),
        all_digits(y),
    ensures
        digits_value(x + y) == digits_value(x) * pow10(y.len()) + digits_value(y),
    decreases y.len(),
{
    if y.len() == 0 {
        assert(x + y =~= x);
        assert(pow10(0) == 1);
        assert(digits_value(y) == 0);
    } else {
        assert((x + y).drop_last() =~= x + y.drop_last());
        assert((x + y).last() == y.last());
        assert(is_digit(y.last()));
        lemma_digits_value_concat(x, y.drop_last());
        assert(digits_value(x + y) == digits_value(x) * pow10(y.len()) + digits_value(y))
            by (nonlinear_arith)
            requires
                digits_value(x + y) == 10 * digits_value(x + y.drop_last()) + digit_value(y.last()),
                digits_value(x + y.drop_last()) == digits_value(x) * pow10(y.drop_last().len())
                    + digits_value(y.drop_last()),
                digits_value(y) == 10 * digits_value(y.drop_last()) + digit_value(y.last()),
                pow10(y.len()) == 10 * pow10(y.drop_last().len()),
        ;
    }
}

proof fn lemma_pow10_add(a: nat, b: nat)
    ensures
        pow10(a + b) == pow10(a) * pow10(b),
    decreases b,
{
    if b == 0 {
        assert(pow10(0) == 1);
        assert(a + b == a);
    } else {
        lemma_pow10_add(a, (b - 1) as nat);
        assert(pow10(a + b) == 10 * pow10((a + b - 1) as nat));
        assert(pow10(a) * pow10(b) == pow10(a) * (10 * pow10((b - 1) as nat)));
        assert(pow10(a) * (10 * pow10((b - 1) as nat)) == 10 * (pow10(a) * pow10((b - 1) as nat)))
            by (nonlinear_arith);
    }
}

proof fn lemma_pow10_grows(a: nat, b: nat)
    requires
        a <= b,
    ensures
        pow10(a) <= pow10(b),
{
    lemma_pow10_add(a, (b - a) as nat);
    lemma_pow10_positive(a);
    lemma_pow10_positive((b - a) as nat);
    assert(pow10(a) * pow10((b - a) as nat) >= pow10(a)) by (nonlinear_arith)
        requires
            pow10(a) > 0,
            pow10((b - a) as nat) >= 1,
    ;
}

proof fn lemma_zeros_value(z: Seq<char>)
    requires
        forall|i: int| 0 <= i < z.len() ==> z[i] == '0',
    ensures
        all_digits(z),
        digits_value(z) == 0,
    decreases z.len(),
{
    if z.len() > 0 {
        lemma_zeros_value(z.drop_last());
    }
}

/// The largest exponent magnitude that is kept exactly; any larger one
/// decides the channel by itself.
const EXPONENT_CAP: u128 = 1267650600228229401496703205376;

/// The exponent of a number, exact where its magnitude is below the cap and
/// the cap, with its sign, otherwise.
fn exponent_capped(x: &Vec<char>) -> (r: i128)
    requires
        x@.len() == 0 || is_exponent(x@),
    ensures
        (-EXPONENT_CAP < r < EXPONENT_CAP && r == exponent_value(x@)) || (r == EXPONENT_CAP
            && exponent_value(x@) >= EXPONENT_CAP) || (r == -EXPONENT_CAP && exponent_value(x@)
            <= -EXPONENT_CAP),
{
    if x.len() == 0 {
        return 0;
    }
    let y = slice_of(x, 1, x.len());
    assert(y@ =~= x@.drop_first());
    let negative = y[0] == '-';
    let d = without_sign(&y);
    let mut acc: u128 = 0;
    let mut i: usize = 0;
    while i < d.len()
        invariant
            i <= d.len(),
            all_digits(d@),
            acc <= EXPONENT_CAP,
            acc < EXPONENT_CAP ==> acc == digits_value(d@.take(i as int)),
            acc == EXPONENT_CAP ==> digits_value(d@.take(i as int)) >= EXPONENT_CAP,
        decreases d.len() - i,
    {
        assert(d@.take(i + 1).drop_last() =~= d@.take(i as int));
        assert(is_digit(d@[i as int]));
        let dv = (d[i] as u32 - '0' as u32) as u128;
        if acc < EXPONENT_CAP {
            let next = acc * 10 + dv;
            if next >= EXPONENT_CAP {
                acc = EXPONENT_CAP;
            } else {
                acc = next;
            }
        } else {
            assert(digits_value(d@.take(i + 1)) >= digits_value(d@.take(i as int)))
                by (nonlinear_arith)
                requires
                    digits_value(d@.take(i + 1)) == 10 * digits_value(d@.take(i as int))
                        + digit_value(d@[i as int]),
                    is_digit(d@[i as int]),
            ;
        }
        i = i + 1;
    }
    assert(d@.take(i as int) =~= d@);
    if negative {
        -(acc as i128)
    } else {
        acc as i128
    }
}

fn zero_digits(a: &Vec<char>) -> (r: bool)
    requires
        all_digits(a@),
    ensures
        r == (digits_value(a@) == 0),
{
    let mut zero = true;
    let mut k: usize = 0;
    while k < a.len()
        invariant
            k <= a.len(),
            all_digits(a@),
            zero == (digits_value(a@.take(k as int)) == 0),
        decreases a.len() - k,
    {
        assert(a@.take(k + 1).drop_last() =~= a@.take(k as int));
        assert(is_digit(a@[k as int]));
        if a[k] != '0' {
            zero = false;
        }
        k = k + 1;
    }
    assert(a@.take(k as int) =~= a@);
    zero
}

/// A channel written as a fraction of the unit interval, scaled to 0..=255.
#[verifier::rlimit(60)]
pub fn parse_unit_channel(w: &Vec<char>) -> (r: Option<u8>)
    ensures
        r matches Some(v) ==> unit_channel(w@) == Some(v as int),
        r is None ==> unit_channel(w@) is None,
{
    let s = without_sign(w);
    let negative = w.len() > 0 && w[0] == '-';
    if !number(&s) {
        return None;
    }
    let e = find_char(&s, 'e', 'E');
    let m = slice_of(&s, 0, e);
    let p = find_char(&m, '.', '.');
    let whole = slice_of(&m, 0, p);
    let frac = if p < m.len() {
        slice_of(&m, p + 1, m.len())
    } else {
        Vec::new()
    };
    let x = slice_of(&s, e, s.len());
    assert(whole@ == m@.take(p as int));
    assert(frac@ =~= (if p < m@.len() {
        m@.skip(p + 1)
    } else {
        Seq::empty()
    }));
    assert(all_digits(whole@) && all_digits(frac@));
    let ex = exponent_capped(&x);
    let ghost exv = exponent_value(x@);
    let ghost f = frac@.len();
    let mut a = whole.clone();
    let mut j: usize = 0;
    while j < frac.len()
        invariant
            j <= frac.len(),
            a@ == whole@ + frac@.take(j as int),
        decreases frac.len() - j,
    {
        a.push(frac[j]);
        assert(whole@ + frac@.take(j + 1) =~= (whole@ + frac@.take(j as int)).push(frac@[j as int]));
        j = j + 1;
    }
    assert(frac@.take(j as int) =~= frac@);
    assert(all_digits(a@));
    let ghost digits = digits_value(whole@) * pow10(f) + digits_value(frac@);
    proof {
        lemma_digits_value_concat(whole@, frac@);
        lemma_digits_value_below(a@);
    }
    let ghost k = exv - f;
    let ghost spec_r = unit_channel(w@);
    assert(spec_r == (if k >= 0 {
        channel_value(digits * pow10(k as nat), 1, negative)
    } else {
        channel_value(digits, pow10((-k) as nat), negative)
    }));
    if zero_digits(&a) {
        proof {
            if k >= 0 {
                assert(digits * pow10(k as nat) == 0) by (nonlinear_arith)
                    requires
                        digits == 0,
                ;
            }
        }
        return Some(0);
    }
    let pos: i128 = whole.len() as i128 + ex;
    if pos > a.len() as i128 {
        proof {
            assert(k >= 1);
            lemma_pow10_grows(1, k as nat);
            assert(pow10(0) == 1);
            assert(pow10(1) == 10);
            assert(digits * pow10(k as nat) > 1) by (nonlinear_arith)
                requires
                    digits >= 1,
                    pow10(k as nat) >= 10,
            ;
        }
        return None;
    }
    if pos <= -3 {
        proof {
            let t = (-k) as nat;
            assert(t >= a@.len() + 3);
            lemma_pow10_grows(a@.len() + 3, t);
            lemma_pow10_add(a@.len(), 3);
            assert(pow10(3) == 1000) by {
                assert(pow10(0) == 1);
                assert(pow10(1) == 10);
                assert(pow10(2) == 100);
            }
            if !negative {
                assert(255 * digits / pow10(t) == 0) by (nonlinear_arith)
                    requires
                        digits < pow10(a@.len()),
                        pow10(t) >= pow10(a@.len()) * 1000,
                        digits >= 0,
                ;
            }
        }
        if negative {
            return None;
        }
        return Some(0);
    }
    assert(ex == exv);
    if pos >= 0 {
        let cut = pos as usize;
        let w2 = slice_of(&a, 0, cut);
        let f2 = slice_of(&a, cut, a.len());
        proof {
            assert(w2@ + f2@ =~= a@);
            lemma_digits_value_concat(w2@, f2@);
            assert(f2@.len() == (-k) as nat || (k == 0 && f2@.len() == 0));
            if k == 0 {
                assert(pow10(0) == 1);
            }
        }
        channel_of_parts(&w2, &f2, negative)
    } else {
        let mut f2: Vec<char> = Vec::new();
        let mut z: i128 = pos;
        while z < 0
            invariant
                pos <= z <= 0,
                f2@.len() == z - pos,
                forall|i: int| 0 <= i < f2@.len() ==> f2@[i] == '0',
            decreases 0 - z,
        {
            f2.push('0');
            z = z + 1;
        }
        let ghost zeros = f2@;
        let mut i: usize = 0;
        while i < a.len()
            invariant
                i <= a.len(),
                f2@ == zeros + a@.take(i as int),
            decreases a.len() - i,
        {
            f2.push(a[i]);
            assert(zeros + a@.take(i + 1) =~= (zeros + a@.take(i as int)).push(a@[i as int]));
            i = i + 1;
        }
        assert(a@.take(i as int) =~= a@);
        let w2: Vec<char> = Vec::new();
        proof {
            lemma_zeros_value(zeros);
            lemma_digits_value_concat(zeros, a@);
            assert(digits_value(w2@) == 0);
            assert(all_digits(f2@));
            assert(f2@.len() == (-k) as nat);
            assert(0 * pow10(f2@.len()) + digits_value(f2@) == digits);
        }
        channel_of_parts(&w2, &f2, negative)
    }
}

} // verus!
