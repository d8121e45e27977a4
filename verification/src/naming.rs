//! The names that a registry gives to buffers opened without one.

use vstd::prelude::*;
use vstd::string::StringExecFns;

verus! {

/// The character of a decimal digit.
pub open spec fn digit_char(d: nat) -> char {
    ((48 + d) as u8) as char
}

/// `n` in decimal, without leading zeros.
pub open spec fn decimal(n: nat) -> Seq<char>
    decreases n,
{
    if n < 10 {
        seq![digit_char(n)]
    } else {
        decimal(n / 10).push(digit_char(n % 10))
    }
}

/// The number that a sequence of decimal digits stands for.
pub open spec fn decimal_value(s: Seq<char>) -> int
    decreases s.len(),
{
    if s.len() == 0 {
        0
    } else {
        decimal_value(s.drop_last()) * 10 + ((s.last() as int) - 48)
    }
}

/// The name of the `n`-th anonymous buffer.
pub open spec fn anon_name(n: nat) -> Seq<char> {
    "buffer_"@ + decimal(n)
}

/// Reading back what `decimal` wrote gives the number.
pub proof fn lemma_decimal_value(n: nat)
    ensures
        decimal_value(decimal(n)) == n,
    decreases n,
{
    if n < 10 {
        let s = decimal(n);
        assert(s.drop_last().len() == 0);
        assert(decimal_value(s.drop_last()) == 0);
    } else {
        let s = decimal(n);
        lemma_decimal_value(n / 10);
        assert(s.drop_last() =~= decimal(n / 10));
    }
}

/// Different numbers have different anonymous names.
pub proof fn lemma_anon_name_injective(a: nat, b: nat)
    requires
        anon_name(a) == anon_name(b),
    ensures
        a == b,
{
    let p = "buffer_"@;
    assert(decimal(a) =~= anon_name(a).skip(p.len() as int));
    assert(decimal(b) =~= anon_name(b).skip(p.len() as int));
    lemma_decimal_value(a);
    lemma_decimal_value(b);
}

/// A sequence that holds the first `m` anonymous names has at least `m`
/// items.
pub proof fn lemma_anon_names_fit(names: Seq<Seq<char>>, m: nat)
    requires
        forall|k: nat| k < m ==> names.contains(#[trigger] anon_name(k)),
    ensures
        m <= names.len(),
    decreases m,
{
    if m > 0 {
        let last = anon_name((m - 1) as nat);
        assert(names.contains(last));
        let i = names.index_of(last);
        let rest = names.remove(i);
        assert forall|k: nat| k < m - 1 implies rest.contains(#[trigger] anon_name(k)) by {
            let name = anon_name(k);
            assert(names.contains(name));
            let j = names.index_of(name);
            if j == i {
                lemma_anon_name_injective(k, (m - 1) as nat);
            } else if j < i {
                assert(rest[j] == name);
            } else {
                assert(rest[j - 1] == name);
            }
        }
        lemma_anon_names_fit(rest, (m - 1) as nat);
    }
}

/// `n` in decimal.
pub fn decimal_string(n: u64) -> (s: String)
    ensures
        s@ == decimal(n as nat),
    decreases n,
{
    if n < 10 {
        let mut s = String::new();
        s.push(digit(n));
        assert(s@ =~= decimal(n as nat));
        s
    } else {
        let mut s = decimal_string(n / 10);
        s.push(digit(n % 10));
        s
    }
}

/// The character of the digit `d`.
pub fn digit(d: u64) -> (c: char)
    requires
        d < 10,
    ensures
        c == digit_char(d as nat),
{
    let code: u8 = 48 + (d as u8);
    code as char
}

/// The name of the `n`-th anonymous buffer: `buffer_` and `n` in decimal.
pub fn anon_name_string(n: u64) -> (name: String)
    ensures
        name@ == anon_name(n as nat),
{
    let mut name = String::from_str("buffer_");
    let digits = decimal_string(n);
    name.append(digits.as_str());
    name
}

} // verus!
