//! Splitting byte strings at a separator and reading decimal integers.

use vstd::prelude::*;

verus! {

/// The fields of `s` between occurrences of `sep`, as `str::split` yields
/// them: one more field than there are separators, empty ones included.
pub open spec fn fields(s: Seq<u8>, sep: u8) -> Seq<Seq<u8>>
    decreases s.len(),
{
    if s.len() == 0 {
        seq![Seq::<u8>::empty()]
    } else if s.last() == sep {
        fields(s.drop_last(), sep).push(Seq::<u8>::empty())
    } else {
        let f = fields(s.drop_last(), sep);
        f.update(f.len() - 1, f.last().push(s.last()))
    }
}

pub proof fn lemma_fields_nonempty(s: Seq<u8>, sep: u8)
    ensures
        fields(s, sep).len() >= 1,
    decreases s.len(),
{
    if s.len() > 0 {
        lemma_fields_nonempty(s.drop_last(), sep);
    }
}

/// Splits `s` at every `sep`.
pub fn split_fields(s: &[u8], sep: u8) -> (r: Vec<Vec<u8>>)
    ensures
        r@.len() == fields(s@, sep).len(),
        forall|k: int| 0 <= k < r@.len() ==> #[trigger] r@[k]@ == fields(s@, sep)[k],
{
    let mut done: Vec<Vec<u8>> = Vec::new();
    let mut cur: Vec<u8> = Vec::new();
    let mut i: usize = 0;
    while i < s.len()
        invariant
            i <= s@.len(),
            fields(s@.subrange(0, i as int), sep).len() == done@.len() + 1,
            forall|k: int| 0 <= k < done@.len() ==> #[trigger] done@[k]@ == fields(s@.subrange(0, i as int), sep)[k],
            cur@ == fields(s@.subrange(0, i as int), sep).last(),
        decreases s@.len() - i,
    {
        let ghost prev = s@.subrange(0, i as int);
        let ghost next = s@.subrange(0, i as int + 1);
        assert(next.drop_last() =~= prev);
        proof {
            lemma_fields_nonempty(prev, sep);
        }
        let b = s[i];
        if b == sep {
            let finished = cur;
            done.push(finished);
            cur = Vec::new();
            assert(cur@ =~= Seq::<u8>::empty());
        } else {
            cur.push(b);
        }
        i += 1;
    }
    assert(s@.subrange(0, s@.len() as int) =~= s@);
    proof {
        lemma_fields_nonempty(s@, sep);
    }
    done.push(cur);
    done
}

/// Splitting `s + t`, where `t` holds no separator, extends the last field
/// of `s` by `t`.
pub proof fn lemma_fields_append(s: Seq<u8>, t: Seq<u8>, sep: u8)
    requires
        forall|i: int| 0 <= i < t.len() ==> t[i] != sep,
    ensures
        fields(s + t, sep) == fields(s, sep).update(
            fields(s, sep).len() - 1,
            fields(s, sep).last() + t,
        ),
    decreases t.len(),
{
    lemma_fields_nonempty(s, sep);
    if t.len() == 0 {
        assert(s + t =~= s);
        assert(fields(s, sep).last() + t =~= fields(s, sep).last());
        assert(fields(s, sep).update(fields(s, sep).len() - 1, fields(s, sep).last())
            =~= fields(s, sep));
    } else {
        let u = t.drop_last();
        lemma_fields_append(s, u, sep);
        assert((s + t).drop_last() =~= s + u);
        assert((s + t).last() == t.last());
        assert(fields(s, sep).last() + u + seq![t.last()] =~= fields(s, sep).last() + t);
        let f = fields(s, sep);
        let g = fields(s + u, sep);
        assert(g.last() == f.last() + u);
        assert(g.last().push(t.last()) =~= f.last() + t);
        assert(g.update(g.len() - 1, g.last().push(t.last())) =~= f.update(
            f.len() - 1,
            f.last() + t,
        ));
    }
}

/// Splitting `s` followed by a separator adds an empty last field.
pub proof fn lemma_fields_push_sep(s: Seq<u8>, sep: u8)
    ensures
        fields(s.push(sep), sep) == fields(s, sep).push(Seq::<u8>::empty()),
{
    assert(s.push(sep).drop_last() =~= s);
}

/// The decimal digits of `n`, most significant first, without leading zeros.
pub open spec fn digits_of(n: nat) -> Seq<u8>
    decreases n,
{
    if n < 10 {
        seq![(48 + n) as u8]
    } else {
        digits_of(n / 10).push((48 + n % 10) as u8)
    }
}

/// `v` written in decimal, with a leading `-` where it is negative.
pub open spec fn decimal_text(v: int) -> Seq<u8> {
    if v < 0 {
        seq![45u8] + digits_of((-v) as nat)
    } else {
        digits_of(v as nat)
    }
}

/// The digits of `n` are digits, and read back as `n`.
pub proof fn lemma_digits_of(n: nat)
    ensures
        all_digits(digits_of(n)),
        digits_value(digits_of(n)) == n,
        forall|i: int| 0 <= i < digits_of(n).len() ==> #[trigger] digits_of(n)[i] != 46u8 && digits_of(n)[i] != 44u8,
    decreases n,
{
    if n >= 10 {
        lemma_digits_of(n / 10);
        assert(digits_of(n).drop_last() =~= digits_of(n / 10));
        assert(digits_of(n).last() == (48 + n % 10) as u8);
        assert(((48 + n % 10) as u8) as int == 48 + n % 10);
        vstd::arithmetic::div_mod::lemma_fundamental_div_mod(n as int, 10);
        assert(digits_value(digits_of(n)) == digits_value(digits_of(n / 10)) * 10 + n % 10);
        assert(digits_value(digits_of(n)) == n);
    } else {
        assert(digits_of(n).drop_last() =~= Seq::<u8>::empty());
        assert(((48 + n) as u8) as int == 48 + n);
        assert(digits_of(n).len() == 1);
        assert(digits_of(n).last() == (48 + n) as u8);
        assert(digits_value(Seq::<u8>::empty()) == 0);
        assert(digits_value(digits_of(n)) == digits_value(digits_of(n).drop_last()) * 10 + (digits_of(n).last() - 48));
    }
}

/// Reading back the decimal text of an `i64` gives it again.
pub proof fn lemma_decimal_round_trip(v: i64)
    ensures
        parse_i64_spec(decimal_text(v as int)) == Some(v),
        forall|i: int| 0 <= i < decimal_text(v as int).len() ==> #[trigger] decimal_text(v as int)[i] != 46u8
            && decimal_text(v as int)[i] != 44u8,
{
    if v < 0 {
        let d = digits_of((-v) as nat);
        lemma_digits_of((-v) as nat);
        assert((seq![45u8] + d).drop_first() =~= d);
        assert(is_digit(d[0]));
        assert forall|i: int| 0 <= i < decimal_text(v as int).len() implies #[trigger] decimal_text(v as int)[i] != 46u8
            && decimal_text(v as int)[i] != 44u8 by {
            if i > 0 {
                assert(decimal_text(v as int)[i] == d[i - 1]);
            }
        }
    } else {
        lemma_digits_of(v as nat);
        assert(is_digit(digits_of(v as nat)[0]));
    }
}

/// Appends the decimal digits of `n`.
pub fn push_digits(out: &mut Vec<u8>, n: u64)
    ensures
        final(out)@ == old(out)@ + digits_of(n as nat),
    decreases n,
{
    if n >= 10 {
        push_digits(out, n / 10);
    }
    out.push((48 + n % 10) as u8);
    proof {
        if n >= 10 {
            assert(old(out)@ + digits_of((n / 10) as nat) + seq![(48 + n % 10) as u8] =~= old(out)@
                + digits_of(n as nat));
        } else {
            assert(old(out)@.push((48 + n % 10) as u8) =~= old(out)@ + digits_of(n as nat));
        }
    }
}

/// Appends `v` written in decimal.
pub fn push_decimal(out: &mut Vec<u8>, v: i64)
    ensures
        final(out)@ == old(out)@ + decimal_text(v as int),
{
    if v < 0 {
        out.push(45u8);
        let magnitude: u64 = (0i128 - v as i128) as u64;
        push_digits(out, magnitude);
        assert(old(out)@.push(45u8) + digits_of(magnitude as nat) =~= old(out)@ + decimal_text(v as int));
    } else {
        push_digits(out, v as u64);
    }
}

/// Whether `b` is an ASCII decimal digit.
pub open spec fn is_digit(b: u8) -> bool {
    48 <= b <= 57
}

/// The value of a run of decimal digits, most significant first.
pub open spec fn digits_value(s: Seq<u8>) -> int
    decreases s.len(),
{
    if s.len() == 0 {
        0
    } else {
        digits_value(s.drop_last()) * 10 + (s.last() - 48)
    }
}

/// A non-empty run of decimal digits.
pub open spec fn all_digits(s: Seq<u8>) -> bool {
    s.len() > 0 && forall|i: int| 0 <= i < s.len() ==> is_digit(#[trigger] s[i])
}

/// The integer that `s` writes in decimal: an optional `+` or `-` sign and at
/// least one digit, nothing else.
pub open spec fn decimal_value(s: Seq<u8>) -> Option<int> {
    if s.len() > 0 && (s[0] == 45 || s[0] == 43) {
        if all_digits(s.drop_first()) {
            if s[0] == 45 {
                Some(-digits_value(s.drop_first()))
            } else {
                Some(digits_value(s.drop_first()))
            }
        } else {
            None
        }
    } else if all_digits(s) {
        Some(digits_value(s))
    } else {
        None
    }
}

/// The `i64` that `s` writes in decimal, if it writes one in range.
pub open spec fn parse_i64_spec(s: Seq<u8>) -> Option<i64> {
    match decimal_value(s) {
        Some(v) => if i64::MIN <= v <= i64::MAX {
            Some(v as i64)
        } else {
            None
        },
        None => None,
    }
}

proof fn lemma_digits_grow(t: Seq<u8>, i: int, j: int)
    requires
        0 <= i <= j <= t.len(),
        forall|k: int| 0 <= k < t.len() ==> is_digit(#[trigger] t[k]),
    ensures
        0 <= digits_value(t.subrange(0, i)) <= digits_value(t.subrange(0, j)),
    decreases j - i,
{
    if i == j {
        lemma_digits_nonneg(t, i);
    } else {
        lemma_digits_grow(t, i, j - 1);
        assert(t.subrange(0, j).drop_last() =~= t.subrange(0, j - 1));
        lemma_digits_nonneg(t, j - 1);
    }
}

proof fn lemma_digits_nonneg(t: Seq<u8>, i: int)
    requires
        0 <= i <= t.len(),
        forall|k: int| 0 <= k < t.len() ==> is_digit(#[trigger] t[k]),
    ensures
        0 <= digits_value(t.subrange(0, i)),
    decreases i,
{
    if i > 0 {
        assert(t.subrange(0, i).drop_last() =~= t.subrange(0, i - 1));
        lemma_digits_nonneg(t, i - 1);
    }
}

/// Reads the decimal integer that `s` holds: an optional sign and digits,
/// with nothing around them; `None` where `s` is not such a number or its
/// value is out of range.
pub fn parse_i64(s: &[u8]) -> (r: Option<i64>)
    ensures
        r == parse_i64_spec(s@),
{
    let n = s.len();
    if n == 0 {
        return None;
    }
    let neg = s[0] == 45u8;
    let start: usize = if s[0] == 45u8 || s[0] == 43u8 { 1 } else { 0 };
    if start == n {
        assert(!all_digits(s@.drop_first()));
        return None;
    }
    let ghost t = s@.subrange(start as int, n as int);
    assert(start == 1 ==> t =~= s@.drop_first());
    assert(start == 0 ==> t =~= s@);
    let mut acc: i64 = 0;
    let mut i: usize = start;
    while i < n
        invariant
            start <= i <= n,
            n == s@.len(),
            t == s@.subrange(start as int, n as int),
            start == 1 ==> t == s@.drop_first(),
            start == 0 ==> t == s@,
            neg == (s@[0] == 45),
            start == (if s@[0] == 45 || s@[0] == 43 { 1usize } else { 0usize }),
            forall|k: int| start <= k < i ==> is_digit(#[trigger] s@[k]),
            neg ==> acc == -digits_value(t.subrange(0, i - start)),
            !neg ==> acc == digits_value(t.subrange(0, i - start)),
        decreases n - i,
    {
        let b = s[i];
        if b < 48u8 || b > 57u8 {
            assert(!is_digit(t[i - start]));
            assert(!all_digits(t));
            return None;
        }
        let d = (b - 48u8) as i64;
        let ghost j = i - start;
        assert(t.subrange(0, j + 1).drop_last() =~= t.subrange(0, j));
        let next = if neg {
            match acc.checked_mul(10) {
                Some(m) => m.checked_sub(d),
                None => None,
            }
        } else {
            match acc.checked_mul(10) {
                Some(m) => m.checked_add(d),
                None => None,
            }
        };
        match next {
            Some(v) => {
                acc = v;
            },
            None => {
                proof {
                    assert(t[j] == b);
                    assert(digits_value(t.subrange(0, j + 1)) == digits_value(t.subrange(0, j)) * 10
                        + (b - 48));
                    if all_digits(t) {
                        lemma_digits_grow(t, j + 1, t.len() as int);
                        assert(t.subrange(0, t.len() as int) =~= t);
                        if neg {
                            assert(-digits_value(t) < i64::MIN);
                        } else {
                            assert(digits_value(t) > i64::MAX);
                        }
                    }
                }
                return None;
            },
        }
        i += 1;
    }
    assert(t.subrange(0, n - start) =~= t);
    assert forall|k: int| 0 <= k < t.len() implies is_digit(#[trigger] t[k]) by {
        assert(t[k] == s@[k + start]);
    }
    Some(acc)
}

} // verus!
