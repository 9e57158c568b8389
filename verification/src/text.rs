//! Character-level utilities shared by the codec, the path builders and the
//! log-line formatters: conversions between `&str`, `String` and `Vec<char>`,
//! and the decimal representation of unsigned integers.

use vstd::prelude::*;
use vstd::string::*;

verus! {

/// Relies on std's `String::push`: appends exactly one character at the end.
#[verifier::external_body]
fn push_char(s: &mut String, c: char)
    ensures
        final(s)@ == old(s)@.push(c),
{
    s.push(c);
}

/// Copies the characters of a string slice into a vector, in order.
pub fn str_to_chars(s: &str) -> (v: Vec<char>)
    ensures
        v@ == s@,
{
    let n: usize = s.unicode_len();
    let mut v: Vec<char> = Vec::new();
    let mut i: usize = 0;
    while i < n
        invariant
            n == s@.len(),
            i <= n,
            v@ == s@.take(i as int),
        decreases n - i,
    {
        let c = s.get_char(i);
        v.push(c);
        proof {
            assert(s@.take(i + 1 as int) =~= s@.take(i as int).push(s@[i as int]));
        }
        i = i + 1;
    }
    proof {
        assert(s@.take(n as int) =~= s@);
    }
    v
}

/// Builds a `String` whose characters are exactly those of `v`, in order.
pub fn chars_to_string(v: &Vec<char>) -> (s: String)
    ensures
        s@ == v@,
{
    let mut s = String::new();
    let mut i: usize = 0;
    while i < v.len()
        invariant
            i <= v@.len(),
            s@ == v@.take(i as int),
        decreases v@.len() - i,
    {
        push_char(&mut s, v[i]);
        proof {
            assert(v@.take(i + 1 as int) =~= v@.take(i as int).push(v@[i as int]));
        }
        i = i + 1;
    }
    proof {
        assert(v@.take(v@.len() as int) =~= v@);
    }
    s
}

/// Appends every character of `s` to `out`.
pub fn push_str_chars(out: &mut Vec<char>, s: &str)
    ensures
        final(out)@ == old(out)@ + s@,
{
    let n: usize = s.unicode_len();
    let mut i: usize = 0;
    while i < n
        invariant
            n == s@.len(),
            i <= n,
            out@ == old(out)@ + s@.take(i as int),
        decreases n - i,
    {
        let c = s.get_char(i);
        out.push(c);
        proof {
            assert(old(out)@ + s@.take(i + 1 as int) =~= (old(out)@ + s@.take(i as int)).push(
                s@[i as int],
            ));
        }
        i = i + 1;
    }
    proof {
        assert(s@.take(n as int) =~= s@);
    }
}

/// Appends the characters `v[from..to]` to `out`.
pub fn push_range(out: &mut Vec<char>, v: &Vec<char>, from: usize, to: usize)
    requires
        from <= to <= v@.len(),
    ensures
        final(out)@ == old(out)@ + v@.subrange(from as int, to as int),
{
    let mut i: usize = from;
    proof {
        assert(v@.subrange(from as int, from as int) =~= Seq::<char>::empty());
        assert(old(out)@ + v@.subrange(from as int, from as int) =~= old(out)@);
    }
    while i < to
        invariant
            from <= i <= to <= v@.len(),
            out@ == old(out)@ + v@.subrange(from as int, i as int),
        decreases to - i,
    {
        out.push(v[i]);
        proof {
            assert(old(out)@ + v@.subrange(from as int, i + 1 as int) =~= (old(out)@
                + v@.subrange(from as int, i as int)).push(v@[i as int]));
        }
        i = i + 1;
    }
}

pub open spec fn is_digit_char(c: char) -> bool {
    c == '0' || c == '1' || c == '2' || c == '3' || c == '4' || c == '5' || c == '6' || c == '7'
        || c == '8' || c == '9'
}

/// The digit character standing for `d`, for `0 <= d <= 9`.
pub open spec fn digit_char(d: int) -> char {
    if d == 0 {
        '0'
    } else if d == 1 {
        '1'
    } else if d == 2 {
        '2'
    } else if d == 3 {
        '3'
    } else if d == 4 {
        '4'
    } else if d == 5 {
        '5'
    } else if d == 6 {
        '6'
    } else if d == 7 {
        '7'
    } else if d == 8 {
        '8'
    } else {
        '9'
    }
}

/// The value of a digit character; `10` marks a non-digit.
pub open spec fn digit_val(c: char) -> int {
    if c == '0' {
        0
    } else if c == '1' {
        1
    } else if c == '2' {
        2
    } else if c == '3' {
        3
    } else if c == '4' {
        4
    } else if c == '5' {
        5
    } else if c == '6' {
        6
    } else if c == '7' {
        7
    } else if c == '8' {
        8
    } else if c == '9' {
        9
    } else {
        10
    }
}

/// The canonical decimal representation of `n`: no sign, no leading zero.
pub open spec fn dec_digits(n: nat) -> Seq<char>
    decreases n,
{
    if n < 10 {
        seq![digit_char(n as int)]
    } else {
        dec_digits((n / 10) as nat).push(digit_char((n % 10) as int))
    }
}

pub open spec fn all_digits(s: Seq<char>) -> bool {
    forall|i: int| 0 <= i < s.len() ==> is_digit_char(#[trigger] s[i])
}

/// The number a digit string stands for, read most significant first.
pub open spec fn digits_val(s: Seq<char>) -> int
    decreases s.len(),
{
    if s.len() == 0 {
        0
    } else {
        digits_val(s.drop_last()) * 10 + digit_val(s.last())
    }
}

/// The canonical representation is non-empty, made of digits, evaluates back
/// to its number, and starts with `'0'` only for zero itself.
pub proof fn lemma_dec_digits_basic(n: nat)
    ensures
        dec_digits(n).len() >= 1,
        all_digits(dec_digits(n)),
        digits_val(dec_digits(n)) == n,
        n > 0 ==> dec_digits(n)[0] != '0',
        n < 10 ==> dec_digits(n).len() == 1,
    decreases n,
{
    if n < 10 {
        assert(dec_digits(n) =~= seq![digit_char(n as int)]);
        assert(dec_digits(n).drop_last() =~= Seq::<char>::empty());
        assert(digits_val(dec_digits(n).drop_last()) == 0);
        assert(dec_digits(n).last() == digit_char(n as int));
        assert(digit_val(digit_char(n as int)) == n);
    } else {
        lemma_dec_digits_basic((n / 10) as nat);
        let p = dec_digits((n / 10) as nat);
        assert(dec_digits(n) =~= p.push(digit_char((n % 10) as int)));
        assert(dec_digits(n).drop_last() =~= p);
        assert(dec_digits(n)[0] == p[0]);
        assert(n / 10 >= 1) by (nonlinear_arith)
            requires
                n >= 10,
        ;
        assert(digits_val(dec_digits(n)) == (n / 10) * 10 + n % 10);
        assert((n / 10) * 10 + n % 10 == n) by (nonlinear_arith);
    }
}

pub proof fn lemma_digits_val_nonneg(s: Seq<char>)
    requires
        all_digits(s),
    ensures
        digits_val(s) >= 0,
    decreases s.len(),
{
    if s.len() > 0 {
        assert(all_digits(s.drop_last()));
        lemma_digits_val_nonneg(s.drop_last());
    }
}

/// A digit string that does not start with `'0'` stands for at least 1.
pub proof fn lemma_digits_val_positive(s: Seq<char>)
    requires
        all_digits(s),
        s.len() >= 1,
        s[0] != '0',
    ensures
        digits_val(s) >= 1,
    decreases s.len(),
{
    if s.len() == 1 {
        assert(s.drop_last() =~= Seq::<char>::empty());
        assert(digits_val(s.drop_last()) == 0);
        assert(s.last() == s[0]);
        assert(digit_val(s[0]) >= 1);
    } else {
        let t = s.drop_last();
        assert(all_digits(t));
        assert(t[0] == s[0]);
        lemma_digits_val_positive(t);
        assert(digits_val(s) == digits_val(t) * 10 + digit_val(s.last()));
        assert(digits_val(t) * 10 + digit_val(s.last()) >= 1) by (nonlinear_arith)
            requires
                digits_val(t) >= 1,
                digit_val(s.last()) >= 0,
        ;
    }
}

/// Reading a canonical digit string back gives the string itself: the decimal
/// representation is injective on digit strings without a leading zero.
pub proof fn lemma_dec_digits_inverse(s: Seq<char>)
    requires
        s.len() >= 1,
        all_digits(s),
        s[0] == '0' ==> s.len() == 1,
    ensures
        0 <= digits_val(s),
        dec_digits(digits_val(s) as nat) == s,
    decreases s.len(),
{
    lemma_digits_val_nonneg(s);
    if s.len() == 1 {
        assert(s.drop_last() =~= Seq::<char>::empty());
        assert(digits_val(s.drop_last()) == 0);
        assert(s.last() == s[0]);
        assert(digits_val(s) == digit_val(s[0]));
        assert(digit_char(digit_val(s[0])) == s[0]);
        assert(dec_digits(digits_val(s) as nat) =~= s);
    } else {
        let t = s.drop_last();
        assert(all_digits(t));
        assert(t[0] == s[0]);
        if t[0] == '0' {
            assert(s[0] == '0');
            assert(false);
        }
        lemma_dec_digits_inverse(t);
        lemma_digits_val_positive(t);
        let vt = digits_val(t);
        let d = digit_val(s.last());
        let v = digits_val(s);
        assert(v == vt * 10 + d);
        assert(v >= 10) by (nonlinear_arith)
            requires
                vt >= 1,
                d >= 0,
                v == vt * 10 + d,
        ;
        assert(v / 10 == vt && v % 10 == d) by (nonlinear_arith)
            requires
                0 <= d < 10,
                vt >= 0,
                v == vt * 10 + d,
        ;
        assert(d < 10);
        assert(digit_char(d) == s.last());
        assert(dec_digits(v as nat) =~= dec_digits(vt as nat).push(digit_char(d)));
        assert(dec_digits(v as nat) =~= s);
    }
}

/// A prefix of a digit string never stands for more than the whole string.
pub proof fn lemma_digits_val_take_le(s: Seq<char>, k: int)
    requires
        all_digits(s),
        0 <= k <= s.len(),
    ensures
        digits_val(s.take(k)) <= digits_val(s),
    decreases s.len() - k,
{
    if k == s.len() {
        assert(s.take(k) =~= s);
    } else {
        lemma_digits_val_take_le(s, k + 1);
        assert(s.take(k + 1).drop_last() =~= s.take(k));
        assert(all_digits(s.take(k)));
        lemma_digits_val_nonneg(s.take(k));
        let x = digits_val(s.take(k));
        assert(digits_val(s.take(k + 1)) == x * 10 + digit_val(s[k]));
        assert(x * 10 + digit_val(s[k]) >= x) by (nonlinear_arith)
            requires
                x >= 0,
                digit_val(s[k]) >= 0,
        ;
    }
}

/// Where a maximal digit run sits at `i` in `s`, it is the canonical
/// representation of exactly one number.
pub open spec fn digits_at(s: Seq<char>, i: int, n: nat) -> bool {
    let d = dec_digits(n);
    &&& 0 <= i
    &&& i + d.len() <= s.len()
    &&& s.subrange(i, i + d.len()) == d
    &&& (i + d.len() == s.len() || !is_digit_char(s[i + d.len()]))
}

pub proof fn lemma_digits_at_unique(s: Seq<char>, i: int, n1: nat, n2: nat)
    requires
        digits_at(s, i, n1),
        digits_at(s, i, n2),
    ensures
        n1 == n2,
{
    let d1 = dec_digits(n1);
    let d2 = dec_digits(n2);
    lemma_dec_digits_basic(n1);
    lemma_dec_digits_basic(n2);
    if d1.len() < d2.len() {
        assert(s[i + d1.len()] == s.subrange(i, i + d2.len())[d1.len() as int]);
        assert(is_digit_char(d2[d1.len() as int]));
        assert(false);
    } else if d2.len() < d1.len() {
        assert(s[i + d2.len()] == s.subrange(i, i + d1.len())[d2.len() as int]);
        assert(is_digit_char(d1[d2.len() as int]));
        assert(false);
    } else {
        assert(d1 =~= d2);
        assert(digits_val(d1) == n1 && digits_val(d2) == n2);
    }
}

/// Exec digit for `d < 10`, matching `digit_char`.
pub fn digit_char_exec(d: usize) -> (c: char)
    requires
        d < 10,
    ensures
        c == digit_char(d as int),
{
    if d == 0 {
        '0'
    } else if d == 1 {
        '1'
    } else if d == 2 {
        '2'
    } else if d == 3 {
        '3'
    } else if d == 4 {
        '4'
    } else if d == 5 {
        '5'
    } else if d == 6 {
        '6'
    } else if d == 7 {
        '7'
    } else if d == 8 {
        '8'
    } else {
        '9'
    }
}

/// Exec digit value, matching `digit_val` (10 marks a non-digit).
pub fn digit_val_exec(c: char) -> (d: usize)
    ensures
        d == digit_val(c),
        (d < 10) == is_digit_char(c),
{
    if c == '0' {
        0
    } else if c == '1' {
        1
    } else if c == '2' {
        2
    } else if c == '3' {
        3
    } else if c == '4' {
        4
    } else if c == '5' {
        5
    } else if c == '6' {
        6
    } else if c == '7' {
        7
    } else if c == '8' {
        8
    } else if c == '9' {
        9
    } else {
        10
    }
}

/// Appends the canonical decimal representation of `n` to `out`.
pub fn push_usize_digits(out: &mut Vec<char>, n: usize)
    ensures
        final(out)@ == old(out)@ + dec_digits(n as nat),
    decreases n,
{
    if n < 10 {
        out.push(digit_char_exec(n));
        proof {
            assert(old(out)@ + dec_digits(n as nat) =~= old(out)@.push(digit_char(n as int)));
        }
    } else {
        push_usize_digits(out, n / 10);
        out.push(digit_char_exec(n % 10));
        proof {
            assert(old(out)@ + dec_digits(n as nat) =~= (old(out)@ + dec_digits(
                (n / 10) as nat,
            )).push(digit_char((n % 10) as int)));
        }
    }
}

} // verus!
