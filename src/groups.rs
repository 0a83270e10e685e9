//! Dash-separated groups of characters and the decimal values they spell.

use vstd::prelude::*;
use vstd::string::*;

verus! {

/// The separator between groups.
pub const SEPARATOR: char = '-';

/// Number of characters before the first separator of `t` (all of `t` if none).
pub open spec fn group_len(t: Seq<char>) -> nat
    decreases t.len(),
{
    if t.len() == 0 || t[0] == SEPARATOR {
        0
    } else {
        1 + group_len(t.drop_first())
    }
}

/// `t` split at every separator, empty groups included, as `str::split` does:
/// there is always at least one group.
pub open spec fn groups(t: Seq<char>) -> Seq<Seq<char>>
    decreases t.len(),
{
    let k = group_len(t);
    if k >= t.len() {
        seq![t]
    } else {
        seq![t.take(k as int)] + groups(t.skip(k + 1 as int))
    }
}

pub open spec fn is_digit(c: char) -> bool {
    '0' <= c && c <= '9'
}

pub open spec fn digit_value(c: char) -> nat {
    (c as u32 - '0' as u32) as nat
}

/// The decimal value of a sequence of digits, most significant first.
pub open spec fn digits_value(d: Seq<char>) -> nat
    decreases d.len(),
{
    if d.len() == 0 {
        0
    } else {
        digits_value(d.drop_last()) * 10 + digit_value(d.last())
    }
}

pub open spec fn all_digits(d: Seq<char>) -> bool {
    forall|i: int| 0 <= i < d.len() ==> is_digit(#[trigger] d[i])
}

/// The digits of an unsigned literal: what follows its sign, if it has one.
pub open spec fn unsigned_digits(g: Seq<char>) -> Seq<char> {
    if g.len() > 0 && g[0] == '+' {
        g.drop_first()
    } else {
        g
    }
}

/// What an unsigned decimal integer literal holds: an optional `+` and then
/// one digit or more.
pub open spec fn unsigned_value(g: Seq<char>) -> Option<nat> {
    let d = unsigned_digits(g);
    if d.len() > 0 && all_digits(d) {
        Some(digits_value(d))
    } else {
        None
    }
}

/// The value of a group that must be exactly `width` characters long.
pub open spec fn group_value(g: Seq<char>, width: nat) -> Option<nat> {
    if g.len() == width {
        unsigned_value(g)
    } else {
        None
    }
}


pub open spec fn pow10(k: nat) -> nat
    decreases k,
{
    if k == 0 {
        1
    } else {
        10 * pow10((k - 1) as nat)
    }
}

pub proof fn lemma_group_len_bound(t: Seq<char>)
    ensures
        group_len(t) <= t.len(),
    decreases t.len(),
{
    if t.len() > 0 && t[0] != SEPARATOR {
        lemma_group_len_bound(t.drop_first());
    }
}

/// A first group of `t` is at least as long as a prefix without separators, and
/// exactly as long when that prefix ends at a separator or at the end of `t`.
pub proof fn lemma_group_len_prefix(t: Seq<char>, k: nat)
    requires
        k <= t.len(),
        forall|i: int| 0 <= i < k ==> t[i] != SEPARATOR,
    ensures
        group_len(t) >= k,
        (k == t.len() || t[k as int] == SEPARATOR) ==> group_len(t) == k,
    decreases k,
{
    if k > 0 {
        let u = t.drop_first();
        assert forall|i: int| 0 <= i < k - 1 implies u[i] != SEPARATOR by {
            assert(u[i] == t[i + 1]);
        }
        lemma_group_len_prefix(u, (k - 1) as nat);
    }
}

/// The first group of `t`, and what follows it.
pub proof fn lemma_groups_unfold(t: Seq<char>)
    ensures
        groups(t).len() >= 1,
        groups(t)[0] == t.take(group_len(t) as int),
        group_len(t) < t.len() ==> groups(t) == seq![t.take(group_len(t) as int)] + groups(
            t.skip(group_len(t) + 1 as int),
        ),
        group_len(t) >= t.len() ==> groups(t).len() == 1,
{
    lemma_group_len_bound(t);
    assert(t.take(t.len() as int) =~= t);
}

/// Reads the group of `s` that starts at character `start`, as a group that must
/// be `width` characters long; `n` is the length of `s` in characters.
pub fn read_group(s: &str, n: usize, start: usize, width: usize) -> (r: Option<u16>)
    requires
        n == s@.len(),
        start <= n,
        1 <= width <= 4,
    ensures
        match group_value(groups(s@.skip(start as int))[0], width as nat) {
            Some(v) => r is Some && r->Some_0 as nat == v && v < pow10(width as nat),
            None => r is None,
        },
        r is Some ==> group_len(s@.skip(start as int)) == width,
{
    let ghost t = s@.skip(start as int);
    proof {
        lemma_groups_unfold(t);
    }
    let mut i: usize = start;
    while i < n && i - start <= width && s.get_char(i) != SEPARATOR
        invariant
            n == s@.len(),
            start <= i <= n,
            i - start <= width + 1,
            forall|k: int| start <= k < i ==> s@[k] != SEPARATOR,
        decreases n - i,
    {
        i = i + 1;
    }
    proof {
        assert forall|k: int| 0 <= k < i - start implies t[k] != SEPARATOR by {
            assert(t[k] == s@[start + k]);
        }
        lemma_group_len_prefix(t, (i - start) as nat);
    }
    if i - start != width {
        return None;
    }
    assert(group_len(t) == width);
    let ghost g = t.take(width as int);
    let end = start + width;
    let mut j: usize = start;
    if s.get_char(start) == '+' {
        j = start + 1;
        if j == end {
            return None;
        }
    }
    let ghost j0 = j;
    let ghost d = s@.subrange(j0 as int, end as int);
    assert(d =~= unsigned_digits(g));
    let mut v: u16 = 0;
    while j < end
        invariant
            n == s@.len(),
            start <= j0 <= j <= end <= n,
            end == start + width,
            width <= 4,
            d == s@.subrange(j0 as int, end as int),
            t == s@.skip(start as int),
            groups(t)[0] == g,
            g.len() == width,
            d == unsigned_digits(g),
            v as nat == digits_value(s@.subrange(j0 as int, j as int)),
            (v as nat) < pow10((j - j0) as nat),
            forall|k: int| j0 <= k < j ==> is_digit(#[trigger] s@[k]),
        decreases end - j,
    {
        let c = s.get_char(j);
        if c < '0' || c > '9' {
            assert(d[j - j0] == s@[j as int]);
            assert(!is_digit(d[j - j0]));
            return None;
        }
        let ghost prev = s@.subrange(j0 as int, j as int);
        assert(s@.subrange(j0 as int, j + 1).drop_last() =~= prev);
        let digit = (c as u32 - '0' as u32) as u16;
        proof {
            let p = pow10((j - j0) as nat);
            assert(p <= 1000) by {
                reveal_with_fuel(pow10, 4);
            }
            assert(v * 10 + digit < 10 * p) by (nonlinear_arith)
                requires
                    (v as nat) < p,
                    digit <= 9,
            ;
            assert(pow10((j + 1 - j0) as nat) == 10 * p);
        }
        v = v * 10 + digit;
        j = j + 1;
    }
    assert(s@.subrange(j0 as int, j as int) =~= d);
    assert forall|k: int| 0 <= k < d.len() implies is_digit(#[trigger] d[k]) by {
        assert(d[k] == s@[j0 + k]);
    }
    proof {
        assert(pow10((end - j0) as nat) <= pow10(width as nat)) by {
            reveal_with_fuel(pow10, 5);
        }
    }
    Some(v)
}

/// The decimal digit for `d < 10`.
pub open spec fn digit_char(d: nat) -> char {
    if d == 0 {
        '0'
    } else if d == 1 {
        '1'
    } else if d == 2 {
        '2'
    } else if d == 3 {
        '3'
    } else if d == 4 {
        '4'
    } else if d == 5 {
        '5'
    } else if d == 6 {
        '6'
    } else if d == 7 {
        '7'
    } else if d == 8 {
        '8'
    } else {
        '9'
    }
}

/// The last `width` decimal digits of `v`, left-padded with zeros.
pub open spec fn padded(v: nat, width: nat) -> Seq<char>
    decreases width,
{
    if width == 0 {
        Seq::empty()
    } else {
        padded(v / 10, (width - 1) as nat).push(digit_char(v % 10))
    }
}

/// Zero-padded digits are `width` digits, and spell `v` back when it fits.
pub proof fn lemma_padded(v: nat, width: nat)
    ensures
        padded(v, width).len() == width,
        all_digits(padded(v, width)),
        v < pow10(width) ==> digits_value(padded(v, width)) == v,
    decreases width,
{
    if width > 0 {
        let w1 = (width - 1) as nat;
        lemma_padded(v / 10, w1);
        let p = padded(v, width);
        assert(p.drop_last() =~= padded(v / 10, w1));
        assert forall|i: int| 0 <= i < p.len() implies is_digit(#[trigger] p[i]) by {
            if i < w1 {
                assert(p[i] == padded(v / 10, w1)[i]);
            }
        }
        if v < pow10(width) {
            assert(v / 10 < pow10(w1));
        }
    }
}

/// A zero-padded field of `width` digits is read back as its value.
pub proof fn lemma_padded_group(v: nat, width: nat)
    requires
        width >= 1,
        v < pow10(width),
    ensures
        group_value(padded(v, width), width) == Some(v),
{
    lemma_padded(v, width);
    let p = padded(v, width);
    assert(is_digit(p[0]));
    assert(unsigned_digits(p) == p);
}

/// The first group of `g + [SEPARATOR] + rest`, where `g` holds digits only, is `g`.
pub proof fn lemma_groups_digits_then_rest(g: Seq<char>, rest: Seq<char>)
    requires
        all_digits(g),
    ensures
        groups(g + seq![SEPARATOR] + rest) == seq![g] + groups(rest),
{
    let t = g + seq![SEPARATOR] + rest;
    assert forall|i: int| 0 <= i < g.len() implies t[i] != SEPARATOR by {
        assert(t[i] == g[i]);
        assert(is_digit(g[i]));
    }
    lemma_group_len_prefix(t, g.len());
    lemma_groups_unfold(t);
    assert(t.take(g.len() as int) =~= g);
    assert(t.skip(g.len() + 1 as int) =~= rest);
}

/// A sequence of digits only is a single group.
pub proof fn lemma_groups_digits(g: Seq<char>)
    requires
        all_digits(g),
    ensures
        groups(g) == seq![g],
{
    assert forall|i: int| 0 <= i < g.len() implies g[i] != SEPARATOR by {
        assert(is_digit(g[i]));
    }
    lemma_group_len_prefix(g, g.len());
    lemma_groups_unfold(g);
    assert(g.take(g.len() as int) =~= g);
}

/// Appends the decimal digit for `d`.
fn push_digit(s: &mut String, d: u16)
    requires
        d < 10,
    ensures
        final(s)@ == old(s)@.push(digit_char(d as nat)),
{
    let ghost before = s@;
    let text = if d == 0 {
        "0"
    } else if d == 1 {
        "1"
    } else if d == 2 {
        "2"
    } else if d == 3 {
        "3"
    } else if d == 4 {
        "4"
    } else if d == 5 {
        "5"
    } else if d == 6 {
        "6"
    } else if d == 7 {
        "7"
    } else if d == 8 {
        "8"
    } else {
        "9"
    };
    proof {
        reveal_strlit("0");
        reveal_strlit("1");
        reveal_strlit("2");
        reveal_strlit("3");
        reveal_strlit("4");
        reveal_strlit("5");
        reveal_strlit("6");
        reveal_strlit("7");
        reveal_strlit("8");
        reveal_strlit("9");
    }
    assert(text@ == seq![digit_char(d as nat)]);
    s.append(text);
    assert(s@ =~= before.push(digit_char(d as nat)));
}

/// Appends the last `width` decimal digits of `v`, left-padded with zeros.
pub fn push_padded(s: &mut String, v: u16, width: usize)
    ensures
        final(s)@ == old(s)@ + padded(v as nat, width as nat),
    decreases width,
{
    if width == 0 {
        assert(s@ =~= s@ + padded(v as nat, 0));
    } else {
        let ghost before = s@;
        push_padded(s, v / 10, width - 1);
        push_digit(s, v % 10);
        assert(s@ =~= before + padded(v as nat, width as nat));
    }
}

} // verus!
