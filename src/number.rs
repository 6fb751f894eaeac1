use vstd::prelude::*;
use crate::text::chars_of;

verus! {

/// Value of the digit `c` in base `radix` (10 or 16), if it is one.
pub open spec fn digit_of(c: char, radix: nat) -> Option<nat> {
    if '0' <= c && c <= '9' {
        Some((c as nat - '0' as nat) as nat)
    } else if radix == 16 && 'a' <= c && c <= 'f' {
        Some((c as nat - 'a' as nat + 10) as nat)
    } else if radix == 16 && 'A' <= c && c <= 'F' {
        Some((c as nat - 'A' as nat + 10) as nat)
    } else {
        None
    }
}

pub open spec fn all_digits(s: Seq<char>, radix: nat) -> bool {
    forall|i: int| 0 <= i < s.len() ==> (#[trigger] digit_of(s[i], radix)) is Some
}

/// Value of a run of digits, most significant first.
pub open spec fn digits_value(s: Seq<char>, radix: nat) -> nat
    decreases s.len(),
{
    if s.len() == 0 {
        0
    } else {
        digits_value(s.subrange(0, s.len() - 1), radix) * radix + digit_of(
            s[s.len() - 1],
            radix,
        )->0
    }
}

/// The number that `s` spells in base `radix` as an unsigned 64-bit integer
/// is read: an optional `+`, then one or more digits, whose value fits.
pub open spec fn number_of(s: Seq<char>, radix: nat) -> Option<nat> {
    let d = if s.len() > 0 && s[0] == '+' {
        s.subrange(1, s.len() as int)
    } else {
        s
    };
    if d.len() > 0 && all_digits(d, radix) && digits_value(d, radix) <= u64::MAX {
        Some(digits_value(d, radix))
    } else {
        None
    }
}

/// An address as the debugger writes it: `0x` and hexadecimal digits.
pub open spec fn address_of(s: Seq<char>) -> Option<nat> {
    if s.len() >= 2 && s[0] == '0' && s[1] == 'x' {
        number_of(s.subrange(2, s.len() as int), 16)
    } else {
        None
    }
}

proof fn lemma_digits_value_grows(s: Seq<char>, radix: nat, k: int)
    requires
        0 <= k <= s.len(),
        radix >= 1,
    ensures
        digits_value(s.subrange(0, k), radix) <= digits_value(s, radix),
    decreases s.len() - k,
{
    if k < s.len() {
        let t = s.subrange(0, k + 1);
        assert(t.subrange(0, t.len() - 1) =~= s.subrange(0, k));
        let a = digits_value(s.subrange(0, k), radix);
        assert(a <= a * radix) by (nonlinear_arith)
            requires
                radix >= 1,
        ;
        lemma_digits_value_grows(s, radix, k + 1);
    } else {
        assert(s.subrange(0, k) =~= s);
    }
}

fn digit_value(c: char, radix: u64) -> (r: Option<u64>)
    requires
        radix == 10 || radix == 16,
    ensures
        r matches Some(d) ==> digit_of(c, radix as nat) == Some(d as nat),
        r is None ==> digit_of(c, radix as nat) is None,
{
    if '0' <= c && c <= '9' {
        Some((c as u32 - '0' as u32) as u64)
    } else if radix == 16 && 'a' <= c && c <= 'f' {
        Some((c as u32 - 'a' as u32 + 10) as u64)
    } else if radix == 16 && 'A' <= c && c <= 'F' {
        Some((c as u32 - 'A' as u32 + 10) as u64)
    } else {
        None
    }
}

/// Reads `s[start..end]` as a number in base `radix`.
pub fn read_number(s: &Vec<char>, start: usize, end: usize, radix: u64) -> (r: Option<u64>)
    requires
        start <= end <= s@.len(),
        radix == 10 || radix == 16,
    ensures
        r matches Some(v) ==> number_of(s@.subrange(start as int, end as int), radix as nat)
            == Some(v as nat),
        r is None ==> number_of(s@.subrange(start as int, end as int), radix as nat) is None,
{
    let ghost t = s@.subrange(start as int, end as int);
    let mut i = start;
    if i < end && s[i] == '+' {
        i = i + 1;
    }
    let ghost d = s@.subrange(i as int, end as int);
    assert(d =~= (if t.len() > 0 && t[0] == '+' {
        t.subrange(1, t.len() as int)
    } else {
        t
    }));
    if i == end {
        return None;
    }
    let first = i;
    let mut v: u64 = 0;
    assert(s@.subrange(first as int, first as int) =~= Seq::<char>::empty());
    while i < end
        invariant
            first <= i <= end <= s@.len(),
            radix == 10 || radix == 16,
            d == s@.subrange(first as int, end as int),
            t == s@.subrange(start as int, end as int),
            d == (if t.len() > 0 && t[0] == '+' {
                t.subrange(1, t.len() as int)
            } else {
                t
            }),
            all_digits(s@.subrange(first as int, i as int), radix as nat),
            v == digits_value(s@.subrange(first as int, i as int), radix as nat),
        decreases end - i,
    {
        let ghost pre = s@.subrange(first as int, i + 1);
        assert(pre.subrange(0, pre.len() - 1) =~= s@.subrange(first as int, i as int));
        assert(s@.subrange(first as int, i + 1).subrange(0, i + 1 - first) =~= pre);
        assert(d.subrange(0, i + 1 - first) =~= pre);
        match digit_value(s[i], radix) {
            None => {
                proof {
                    assert(d[i - first] == s@[i as int]);
                    assert(digit_of(d[i - first], radix as nat) is None);
                    assert(!all_digits(d, radix as nat));
                    assert(number_of(t, radix as nat) is None);
                }
                return None;
            },
            Some(dg) => {
                let next = match v.checked_mul(radix) {
                    Some(m) => m.checked_add(dg),
                    None => None,
                };
                match next {
                    None => {
                        proof {
                            assert(pre[pre.len() - 1] == s@[i as int]);
                            assert(digits_value(pre, radix as nat) == v * radix + dg);
                            assert(v * radix + dg > u64::MAX);
                            if all_digits(d, radix as nat) {
                                lemma_digits_value_grows(d, radix as nat, i + 1 - first);
                            }
                            assert(number_of(t, radix as nat) is None);
                        }
                        return None;
                    },
                    Some(n) => {
                        assert(all_digits(pre, radix as nat)) by {
                            assert forall|j: int| 0 <= j < pre.len() implies (#[trigger] digit_of(
                                pre[j],
                                radix as nat,
                            )) is Some by {
                                if j < pre.len() - 1 {
                                    assert(pre[j] == s@.subrange(first as int, i as int)[j]);
                                }
                            }
                        }
                        v = n;
                    },
                }
            },
        }
        i = i + 1;
    }
    assert(s@.subrange(first as int, i as int) =~= d);
    Some(v)
}

/// Reads a decimal number, as `u64`'s `parse` does.
pub fn parse_u64(text: &str) -> (r: Option<u64>)
    ensures
        r matches Some(v) ==> number_of(text@, 10) == Some(v as nat),
        r is None ==> number_of(text@, 10) is None,
{
    let s = chars_of(text);
    assert(s@.subrange(0, s@.len() as int) =~= s@);
    read_number(&s, 0, s.len(), 10)
}

/// Reads an address written `0x` followed by hexadecimal digits.
pub fn addr_to_u64(value: &str) -> (r: Option<u64>)
    ensures
        r matches Some(v) ==> address_of(value@) == Some(v as nat),
        r is None ==> address_of(value@) is None,
{
    let s = chars_of(value);
    if s.len() >= 2 && s[0] == '0' && s[1] == 'x' {
        read_number(&s, 2, s.len(), 16)
    } else {
        None
    }
}

pub open spec fn digit_char(d: nat) -> char {
    if d < 10 {
        ('0' as nat + d) as char
    } else {
        ('a' as nat + (d - 10)) as char
    }
}

/// `n` written in base `radix` (10 or 16, lower-case digits), without leading zeros.
pub open spec fn radix_text(n: nat, radix: nat) -> Seq<char>
    decreases n,
    via radix_text_decreases
{
    if radix < 2 || n < radix {
        seq![digit_char(n)]
    } else {
        radix_text(n / radix, radix).push(digit_char(n % radix))
    }
}

#[via_fn]
proof fn radix_text_decreases(n: nat, radix: nat) {
    if !(radix < 2 || n < radix) {
        assert(n / radix < n) by (nonlinear_arith)
            requires
                radix >= 2,
                n >= radix,
        ;
    }
}

fn digit_char_exec(d: u64) -> (c: char)
    requires
        d < 16,
    ensures
        c == digit_char(d as nat),
{
    if d < 10 {
        ((48 + d) as u8) as char
    } else {
        ((97 + (d - 10)) as u8) as char
    }
}

/// Appends `n` written in base `radix` to `s`.
pub fn push_number(s: &mut String, n: u64, radix: u64)
    requires
        radix == 10 || radix == 16,
    ensures
        final(s)@ == old(s)@ + radix_text(n as nat, radix as nat),
    decreases n,
{
    if n >= radix {
        push_number(s, n / radix, radix);
    }
    s.push(digit_char_exec(n % radix));
}

/// Decimal text of `n`.
pub fn u64_to_string(n: u64) -> (r: String)
    ensures
        r@ == radix_text(n as nat, 10),
{
    let mut s = String::new();
    push_number(&mut s, n, 10);
    s
}

} // verus!
