//! Reading the Windows app theme from the output of `reg query ... AppsUseLightTheme`.
use vstd::prelude::*;
use crate::text::{chars_of, is_whitespace_char, is_whitespace_spec, trim_start_spec};

verus! {

/// Whether `p` occurs in `s` at index `i`.
pub open spec fn occurs_at(s: Seq<char>, p: Seq<char>, i: int) -> bool {
    0 <= i && i + p.len() <= s.len() && s.subrange(i, i + p.len()) == p
}

/// The first index at or after `i` where `p` occurs in `s`.
pub open spec fn find_from(s: Seq<char>, p: Seq<char>, i: int) -> Option<int>
    decreases s.len() + 1 - i,
{
    if i < 0 || i + p.len() > s.len() {
        None
    } else if occurs_at(s, p, i) {
        Some(i)
    } else {
        find_from(s, p, i + 1)
    }
}

/// The leading run of non-white-space characters of `s`.
pub open spec fn leading_token(s: Seq<char>) -> Seq<char>
    decreases s.len(),
{
    if s.len() == 0 || is_whitespace_spec(s[0]) {
        seq![]
    } else {
        seq![s[0]] + leading_token(s.drop_first())
    }
}

/// The first white-space separated word of `s`, if any (what `split_whitespace().next()` gives).
pub open spec fn first_word(s: Seq<char>) -> Option<Seq<char>> {
    let t = trim_start_spec(s);
    if t.len() == 0 {
        None
    } else {
        Some(leading_token(t))
    }
}

/// The value of a hexadecimal digit, if `c` is one.
pub open spec fn hex_digit_value(c: char) -> Option<nat> {
    if '0' <= c && c <= '9' {
        Some(((c as nat) - ('0' as nat)) as nat)
    } else if 'a' <= c && c <= 'f' {
        Some(((c as nat) - ('a' as nat) + 10) as nat)
    } else if 'A' <= c && c <= 'F' {
        Some(((c as nat) - ('A' as nat) + 10) as nat)
    } else {
        None
    }
}

/// The value of a string of hexadecimal digits, if every character is one.
pub open spec fn hex_value(d: Seq<char>) -> Option<nat>
    decreases d.len(),
{
    if d.len() == 0 {
        Some(0)
    } else {
        match (hex_value(d.drop_last()), hex_digit_value(d.last())) {
            (Some(v), Some(x)) => Some(v * 16 + x),
            _ => None,
        }
    }
}

/// What `u32::from_str_radix(s, 16)` gives: an optional `+`, then at least one
/// hexadecimal digit, the value fitting in 32 bits.
pub open spec fn parse_hex_u32(s: Seq<char>) -> Option<nat> {
    let d = if s.len() > 0 && s[0] == '+' {
        s.drop_first()
    } else {
        s
    };
    if d.len() == 0 {
        None
    } else {
        match hex_value(d) {
            Some(v) => if v <= u32::MAX {
                Some(v)
            } else {
                None
            },
            None => None,
        }
    }
}

/// The theme a `reg query` output reports: the first word after the first "0x" (or "0"
/// when there is none) read as a hexadecimal `u32`; a non-zero value means "light", zero
/// means "dark", and output that cannot be read means "dark".
pub open spec fn spec_theme_from_reg(out: Seq<char>) -> Seq<char> {
    match find_from(out, "0x"@, 0) {
        None => "dark"@,
        Some(i) => {
            let word = match first_word(out.skip(i + 2)) {
                Some(w) => w,
                None => "0"@,
            };
            match parse_hex_u32(word) {
                Some(v) => if v == 0 {
                    "dark"@
                } else {
                    "light"@
                },
                None => "dark"@,
            }
        },
    }
}

proof fn lemma_hex_value_prefix(d: Seq<char>, k: int)
    requires
        0 <= k <= d.len(),
        hex_value(d) is Some,
    ensures
        hex_value(d.take(k)) is Some,
        hex_value(d.take(k))->0 <= hex_value(d)->0,
    decreases d.len() - k,
{
    if k < d.len() {
        assert(d.take(k + 1).drop_last() =~= d.take(k));
        lemma_hex_value_prefix(d, k + 1);
    } else {
        assert(d.take(k) =~= d);
    }
}

proof fn lemma_hex_value_bad_digit(d: Seq<char>, k: int)
    requires
        0 <= k < d.len(),
        hex_digit_value(d[k]) is None,
    ensures
        hex_value(d) is None,
    decreases d.len() - k,
{
    if k < d.len() - 1 {
        lemma_hex_value_bad_digit(d.drop_last(), k);
    }
}

/// Parses `v[start..end]` as `u32::from_str_radix(.., 16)` does.
fn parse_hex_u32_at(v: &Vec<char>, start: usize, end: usize) -> (r: Option<u32>)
    requires
        start <= end <= v.len(),
    ensures
        match parse_hex_u32(v@.subrange(start as int, end as int)) {
            Some(x) => r == Some(x as u32),
            None => r is None,
        },
{
    let ghost s = v@.subrange(start as int, end as int);
    let mut i = start;
    if i < end && v[i] == '+' {
        i = i + 1;
    }
    let ghost d = v@.subrange(i as int, end as int);
    proof {
        if s.len() > 0 && s[0] == '+' {
            assert(d =~= s.drop_first());
        } else {
            assert(d =~= s);
        }
    }
    if i == end {
        return None;
    }
    let mut acc: u64 = 0;
    let mut k = i;
    while k < end
        invariant
            i <= k <= end <= v.len(),
            d == v@.subrange(i as int, end as int),
            s == v@.subrange(start as int, end as int),
            d == (if s.len() > 0 && s[0] == '+' { s.drop_first() } else { s }),
            d.len() > 0,
            hex_value(d.take(k - i)) == Some(acc as nat),
            acc <= u32::MAX,
        decreases end - k,
    {
        let c = v[k];
        let x: u64 = if '0' <= c && c <= '9' {
            (c as u64) - 0x30
        } else if 'a' <= c && c <= 'f' {
            (c as u64) - 0x61 + 10
        } else if 'A' <= c && c <= 'F' {
            (c as u64) - 0x41 + 10
        } else {
            proof {
                assert(d[k - i] == c);
                lemma_hex_value_bad_digit(d, k - i);
            }
            return None;
        };
        assert(d.take(k - i + 1).drop_last() =~= d.take(k - i));
        assert(d.take(k - i + 1).last() == c);
        acc = acc * 16 + x;
        if acc > 0xFFFF_FFFF {
            proof {
                if hex_value(d) is Some {
                    lemma_hex_value_prefix(d, k - i + 1);
                }
            }
            return None;
        }
        k = k + 1;
    }
    assert(d.take(end - i) =~= d);
    Some(acc as u32)
}

/// The theme ("light" or "dark") that the output of
/// `reg query HKCU\...\Themes\Personalize /v AppsUseLightTheme` reports.
pub fn theme_from_reg_output(output: &str) -> (theme: String)
    ensures
        theme@ == spec_theme_from_reg(output@),
{
    let v = chars_of(output);
    let n = v.len();
    let mut i: usize = 0;
    while i < n && !(i + 1 < n && v[i] == '0' && v[i + 1] == 'x')
        invariant
            n == v@.len(),
            i <= n,
            v@ == output@,
            find_from(v@, "0x"@, 0) == find_from(v@, "0x"@, i as int),
        decreases n - i,
    {
        proof {
            reveal_strlit("0x");
            assert(!occurs_at(v@, "0x"@, i as int)) by {
                if occurs_at(v@, "0x"@, i as int) {
                    assert(v@.subrange(i as int, i + 2)[0] == v@[i as int]);
                    assert(v@.subrange(i as int, i + 2)[1] == v@[i + 1]);
                }
            }
        }
        i = i + 1;
    }
    proof {
        reveal_strlit("0x");
        reveal_strlit("0");
        reveal_strlit("dark");
        reveal_strlit("light");
    }
    if i >= n {
        return "dark".to_owned();
    }
    proof {
        assert(v@.subrange(i as int, i + 2) =~= "0x"@);
        assert(occurs_at(v@, "0x"@, i as int));
        assert(find_from(v@, "0x"@, i as int) == Some(i as int));
    }
    let ghost rest = v@.skip(i + 2);
    let mut j = i + 2;
    while j < n && is_whitespace_char(v[j])
        invariant
            i + 2 <= j <= n == v@.len(),
            rest == v@.skip(i + 2),
            trim_start_spec(rest) == trim_start_spec(v@.skip(j as int)),
        decreases n - j,
    {
        assert(v@.skip(j as int).drop_first() =~= v@.skip(j + 1));
        j = j + 1;
    }
    let mut e = j;
    while e < n && !is_whitespace_char(v[e])
        invariant
            j <= e <= n == v@.len(),
            leading_token(v@.skip(j as int)) == v@.subrange(j as int, e as int) + leading_token(v@.skip(e as int)),
        decreases n - e,
    {
        assert(v@.skip(e as int).drop_first() =~= v@.skip(e + 1));
        assert(v@.subrange(j as int, e + 1) =~= v@.subrange(j as int, e as int) + seq![v@[e as int]]);
        e = e + 1;
    }
    let parsed = if j == n {
        proof {
            assert(v@.skip(j as int).len() == 0);
            assert(first_word(rest) is None);
        }
        let zero = chars_of("0");
        proof {
            assert(zero@.subrange(0, 1) =~= "0"@);
        }
        parse_hex_u32_at(&zero, 0, 1)
    } else {
        proof {
            assert(v@.skip(j as int)[0] == v@[j as int]);
            if e < n {
                assert(v@.skip(e as int)[0] == v@[e as int]);
            }
            assert(leading_token(v@.skip(e as int)) =~= Seq::<char>::empty());
            assert(v@.subrange(j as int, e as int) + Seq::<char>::empty() =~= v@.subrange(j as int, e as int));
            assert(trim_start_spec(v@.skip(j as int)) == v@.skip(j as int));
            assert(first_word(rest) == Some(v@.subrange(j as int, e as int)));
        }
        parse_hex_u32_at(&v, j, e)
    };
    let ghost word = match first_word(rest) {
        Some(w) => w,
        None => "0"@,
    };
    assert(match parse_hex_u32(word) {
        Some(x) => parsed == Some(x as u32),
        None => parsed is None,
    });
    match parsed {
        Some(x) => if x == 0 {
            "dark".to_owned()
        } else {
            "light".to_owned()
        },
        None => "dark".to_owned(),
    }
}

} // verus!
