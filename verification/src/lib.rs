pub mod clean;
pub mod cli;
pub mod git;
pub mod path;
pub mod scan;
pub mod rust;
pub mod sort;
pub mod text;
pub mod walk;

use vstd::prelude::*;

use crate::path::{join, path_join};
use crate::text::{
    chars_of, chars_start_with, decimal, decimal_string, digit, digit_char, has_prefix, owned,
    push_char, push_decimal, str_eq, sub_chars,
};

verus! {

/// `2^e`.
pub open spec fn pow2(e: nat) -> nat
    decreases e,
{
    if e == 0 {
        1
    } else {
        2 * pow2((e - 1) as nat)
    }
}

/// `1024^k`.
pub open spec fn pow1024(k: nat) -> nat
    decreases k,
{
    if k == 0 {
        1
    } else {
        1024 * pow1024((k - 1) as nat)
    }
}

/// The number of binary digits of `n` (zero for zero).
pub open spec fn bit_length(n: nat) -> nat
    decreases n,
{
    if n == 0 {
        0
    } else {
        1 + bit_length(n / 2)
    }
}

/// `n / d` rounded to the nearest integer, ties to the even neighbour.
pub open spec fn round_half_even(n: nat, d: nat) -> nat
    recommends
        d > 0,
{
    let q = n / d;
    let r = n % d;
    if 2 * r > d || (2 * r == d && q % 2 == 1) {
        q + 1
    } else {
        q
    }
}

/// The value of `n as f64`: `n` rounded to 53 significant bits, ties to even.
pub open spec fn f64_value(n: nat) -> nat {
    if bit_length(n) <= 53 {
        n
    } else {
        let p = pow2((bit_length(n) - 53) as nat);
        round_half_even(n, p) * p
    }
}

/// How many times `f` is divided by 1024, starting at unit `k`, before it
/// drops below 1024 or the largest unit is reached.
pub open spec fn unit_index(f: nat, k: nat) -> nat
    decreases 4 - k,
{
    if k < 4 && f >= pow1024(k + 1) {
        unit_index(f, k + 1)
    } else {
        k
    }
}

/// The suffix letter of unit `k`: bytes, kibi, mebi, gibi, tebi.
pub open spec fn unit_char(k: nat) -> char {
    if k == 0 {
        'B'
    } else if k == 1 {
        'K'
    } else if k == 2 {
        'M'
    } else if k == 3 {
        'G'
    } else {
        'T'
    }
}

/// The human-readable size of `bytes`: whole bytes below 1 KiB; otherwise the
/// value in the largest unit (up to T) that keeps it below 1024, with one
/// decimal below 10 and none from 10 on, rounded to nearest with ties to even.
pub open spec fn format_bytes_spec(bytes: nat) -> Seq<char> {
    if bytes < 1024 {
        decimal(bytes).push('B')
    } else {
        let f = f64_value(bytes);
        let k = unit_index(f, 0);
        let d = pow1024(k);
        if f >= 10 * d {
            decimal(round_half_even(f, d)).push(unit_char(k))
        } else {
            let m = round_half_even(10 * f, d);
            decimal(m / 10).push('.').push(digit_char(m % 10)).push(unit_char(k))
        }
    }
}

proof fn lemma_pow2_pos(e: nat)
    ensures
        pow2(e) >= 1,
    decreases e,
{
    if e > 0 {
        lemma_pow2_pos((e - 1) as nat);
    }
}

proof fn lemma_pow2_mono(a: nat, b: nat)
    requires
        a <= b,
    ensures
        pow2(a) <= pow2(b),
    decreases b,
{
    if a < b {
        lemma_pow2_mono(a, (b - 1) as nat);
        lemma_pow2_pos((b - 1) as nat);
    }
}

/// `n / d` rounded half to even, for `d > 0`.
fn div_round_half_even(n: u128, d: u128) -> (q: u128)
    requires
        d > 0,
        n < 0xffff_ffff_ffff_ffff_ffff_ffff_ffff_fff0,
    ensures
        q == round_half_even(n as nat, d as nat),
{
    let q = n / d;
    let r = n % d;
    assert(q <= n) by (nonlinear_arith)
        requires
            q == n / d,
            d > 0,
    ;
    if r > d - r || (r == d - r && q % 2 == 1) {
        q + 1
    } else {
        q
    }
}

/// `bytes as f64`, as an exact integer.
fn f64_of(bytes: u64) -> (f: u128)
    ensures
        f == f64_value(bytes as nat),
        f <= bytes + 0x1_0000_0000_0000_0000,
{
    let mut n: u64 = bytes;
    let mut len: u64 = 0;
    proof {
        reveal_with_fuel(pow2, 65);
        assert(pow2(64) == 0x1_0000_0000_0000_0000);
    }
    while n > 0
        invariant
            len <= 64,
            (n as nat) < pow2((64 - len) as nat),
            bit_length(bytes as nat) == len + bit_length(n as nat),
        decreases n,
    {
        proof {
            if len == 64 {
                assert(pow2(0) == 1);
            }
            assert(pow2((64 - len) as nat) == 2 * pow2((64 - (len + 1)) as nat));
        }
        n = n / 2;
        len = len + 1;
    }
    if len <= 53 {
        return bytes as u128;
    }
    let e = len - 53;
    let mut p: u128 = 1;
    let mut i: u64 = 0;
    while i < e
        invariant
            i <= e <= 11,
            p == pow2(i as nat),
            p <= 2048,
        decreases e - i,
    {
        proof {
            lemma_pow2_mono((i + 1) as nat, 11);
            reveal_with_fuel(pow2, 12);
            assert(pow2(11) == 2048);
        }
        p = p * 2;
        i = i + 1;
    }
    let q = div_round_half_even(bytes as u128, p);
    assert(q * p <= bytes + p) by (nonlinear_arith)
        requires
            q <= (bytes as nat) / (p as nat) + 1,
            p > 0,
    ;
    q * p
}

/// The human-readable size of `bytes`, as `format_bytes_spec` describes it.
pub fn format_bytes(bytes: u64) -> (s: String)
    ensures
        s@ == format_bytes_spec(bytes as nat),
{
    if bytes < 1024 {
        let mut s = decimal_string(bytes as u128);
        push_char(&mut s, 'B');
        return s;
    }
    let f = f64_of(bytes);
    let mut k: u64 = 0;
    let mut d: u128 = 1;
    proof {
        reveal_with_fuel(pow1024, 5);
    }
    while k < 4 && f >= d * 1024
        invariant
            k <= 4,
            d == pow1024(k as nat),
            (k == 0 && d == 1) || (k == 1 && d == 1024) || (k == 2 && d == 1048576) || (k == 3
                && d == 1073741824) || (k == 4 && d == 1099511627776),
            unit_index(f as nat, 0) == unit_index(f as nat, k as nat),
        decreases 4 - k,
    {
        proof {
            reveal_with_fuel(unit_index, 2);
        }
        d = d * 1024;
        k = k + 1;
    }
    proof {
        reveal_with_fuel(unit_index, 2);
        assert(unit_index(f as nat, k as nat) == k);
    }
    let unit = if k == 0 {
        'B'
    } else if k == 1 {
        'K'
    } else if k == 2 {
        'M'
    } else if k == 3 {
        'G'
    } else {
        'T'
    };
    let mut s = String::new();
    if f >= 10 * d {
        let r = div_round_half_even(f, d);
        push_decimal(&mut s, r);
        push_char(&mut s, unit);
    } else {
        let m = div_round_half_even(10 * f, d);
        push_decimal(&mut s, m / 10);
        push_char(&mut s, '.');
        push_char(&mut s, digit((m % 10) as u8));
        push_char(&mut s, unit);
    }
    s
}


/// The default repository root: `labs/repos` under the home directory, or
/// under the current directory when no home directory is known.
pub open spec fn default_repo_root_spec(home: Option<Seq<char>>) -> Seq<char> {
    let base = match home {
        Some(h) => h,
        None => seq!['.'],
    };
    path_join(path_join(base, "labs"@), "repos"@)
}

/// `path` with a leading `~` expanded to the home directory: `~` alone
/// becomes the home directory and `~/rest` becomes `rest` joined to it;
/// anything else, or any path when no home directory is known, is kept.
pub open spec fn expand_home_spec(path: Seq<char>, home: Option<Seq<char>>) -> Seq<char> {
    if path == "~"@ {
        match home {
            Some(h) => h,
            None => path,
        }
    } else if has_prefix(path, "~/"@) && home is Some {
        path_join(home->0, path.subrange(2, path.len() as int))
    } else {
        path
    }
}

/// The view of an optional string slice.
pub open spec fn opt_view(o: Option<&str>) -> Option<Seq<char>> {
    match o {
        Some(s) => Some(s@),
        None => None,
    }
}

/// The default repository root for the given home directory.
pub fn default_repo_root(home: Option<&str>) -> (r: String)
    ensures
        r@ == default_repo_root_spec(opt_view(home)),
{
    let base = match home {
        Some(h) => owned(h),
        None => owned("."),
    };
    proof {
        reveal_strlit(".");
    }
    let labs = join(base.as_str(), "labs");
    join(labs.as_str(), "repos")
}

/// `path` with a leading `~` expanded against `home`.
pub fn expand_home(path: &str, home: Option<&str>) -> (r: String)
    ensures
        r@ == expand_home_spec(path@, opt_view(home)),
{
    if str_eq(path, "~") {
        return match home {
            Some(h) => owned(h),
            None => owned(path),
        };
    }
    let v = chars_of(path);
    let p = chars_of("~/");
    if chars_start_with(v.as_slice(), p.as_slice()) {
        if let Some(h) = home {
            proof {
                reveal_strlit("~/");
            }
            let rest = sub_chars(v.as_slice(), 2, v.len());
            let rest = crate::text::string_of(rest.as_slice());
            return join(h, rest.as_str());
        }
    }
    owned(path)
}

} // verus!
