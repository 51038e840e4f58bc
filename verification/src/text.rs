//! Strings as sequences of characters: indentation, decimal numbers, joined lists.

use vstd::arithmetic::{div_mod, power};
use vstd::prelude::*;

verus! {

/// `n` space characters.
pub open spec fn spaces(n: nat) -> Seq<char> {
    Seq::new(n, |_i: int| ' ')
}

/// The character of the decimal digit `d`.
pub open spec fn digit_char(d: nat) -> char
    recommends
        d < 10,
{
    ('0' as nat + d) as char
}

/// The decimal notation of `n`, without leading zeros.
pub open spec fn decimal(n: nat) -> Seq<char>
    decreases n,
{
    if n < 10 {
        seq![digit_char(n)]
    } else {
        decimal(n / 10).push(digit_char(n % 10))
    }
}

/// The parts in order, with `separator` between neighbours.
pub open spec fn joined(parts: Seq<Seq<char>>, separator: Seq<char>) -> Seq<char>
    decreases parts.len(),
{
    if parts.len() == 0 {
        seq![]
    } else if parts.len() == 1 {
        parts[0]
    } else {
        joined(parts.drop_last(), separator) + separator + parts.last()
    }
}

/// The contents of each string of a list.
pub open spec fn views(strings: Seq<String>) -> Seq<Seq<char>> {
    strings.map_values(|s: String| s@)
}

/// A string of `n` spaces.
pub fn indentation(n: usize) -> (res: String)
    ensures
        res@ == spaces(n as nat),
{
    let mut res = String::new();
    let mut i: usize = 0;
    proof {
        reveal_strlit(" ");
    }
    while i < n
        invariant
            i <= n,
            res@ == spaces(i as nat),
            " "@ == seq![' '],
        decreases n - i,
    {
        res.append(" ");
        assert(spaces(i as nat) + seq![' '] =~= spaces((i + 1) as nat));
        i = i + 1;
    }
    res
}

/// The digit `d` as a string.
fn digit_str(d: usize) -> (res: &'static str)
    requires
        d < 10,
    ensures
        res@ == seq![digit_char(d as nat)],
{
    proof {
        reveal_strlit("0");
        reveal_strlit("1");
        reveal_strlit("2");
        reveal_strlit("3");
        reveal_strlit("4");
        reveal_strlit("5");
        reveal_strlit("6");
        reveal_strlit("7");
        reveal_strlit("8");
        reveal_strlit("9");
    }
    match d {
        0 => "0",
        1 => "1",
        2 => "2",
        3 => "3",
        4 => "4",
        5 => "5",
        6 => "6",
        7 => "7",
        8 => "8",
        _ => "9",
    }
}

/// The decimal notation of `n`.
pub fn decimal_string(n: usize) -> (res: String)
    ensures
        res@ == decimal(n as nat),
    decreases n,
{
    if n < 10 {
        let mut res = String::new();
        res.append(digit_str(n));
        assert(res@ =~= decimal(n as nat));
        res
    } else {
        let mut res = decimal_string(n / 10);
        res.append(digit_str(n % 10));
        assert(res@ =~= decimal(n as nat));
        res
    }
}

/// Joins the parts with `separator` between neighbours.
pub fn join_strings(parts: &Vec<String>, separator: &str) -> (res: String)
    ensures
        res@ == joined(views(parts@), separator@),
{
    let mut res = String::new();
    let ghost all = views(parts@);
    let mut i: usize = 0;
    assert(joined(all.take(0), separator@) =~= seq![]);
    while i < parts.len()
        invariant
            i <= parts.len(),
            all == views(parts@),
            res@ == joined(all.take(i as int), separator@),
        decreases parts.len() - i,
    {
        if i > 0 {
            res.append(separator);
        }
        res.append(parts[i].as_str());
        assert(all.take(i + 1).drop_last() =~= all.take(i as int));
        assert(all.take(i + 1).last() == parts@[i as int]@);
        assert(res@ =~= joined(all.take(i + 1), separator@));
        i = i + 1;
    }
    assert(all.take(i as int) =~= all);
    res
}

/// An indentation is as many characters as asked for, all of them spaces.
pub proof fn law_spaces(n: nat)
    ensures
        spaces(n).len() == n,
        forall|i: int| 0 <= i < n ==> #[trigger] spaces(n)[i] == ' ',
{
}

/// The decimal notation of a number shows its digits: the character with `k` characters behind it is
/// the digit of the `k`-th power of ten, and there is no zero in front but for the number zero.
#[verifier::spinoff_prover]
#[verifier::rlimit(30)]
pub proof fn law_decimal_digits(n: nat)
    ensures
        decimal(n).len() > 0,
        n < power::pow(10, decimal(n).len()),
        n > 0 ==> power::pow(10, (decimal(n).len() - 1) as nat) <= n,
        n == 0 ==> decimal(n).len() == 1,
        forall|p: int|
            0 <= p < decimal(n).len() ==> (#[trigger] decimal(n)[p]) as nat == '0' as nat
                + n as int / power::pow(10, (decimal(n).len() - 1 - p) as nat) % 10,
    decreases n,
{
    let notation = decimal(n);
    let len = notation.len();
    power::lemma_pow0(10);
    power::lemma_pow1(10);
    if n < 10 {
        assert(notation =~= seq![digit_char(n)]);
        assert(n as int / 1 % 10 == n);
    } else {
        let short = decimal(n / 10);
        law_decimal_digits(n / 10);
        assert(len == short.len() + 1);
        lemma_pow10(short.len());
        lemma_pow10((short.len() - 1) as nat);
        assert forall|p: int| 0 <= p < len implies (#[trigger] notation[p]) as nat == '0' as nat
            + n as int / power::pow(10, (len - 1 - p) as nat) % 10 by {
            if p < len - 1 {
                let k = (len - 2 - p) as nat;
                lemma_pow10(k);
                power::lemma_pow_positive(10, k);
                div_mod::lemma_div_denominator(n as int, 10, power::pow(10, k));
                assert(notation[p] == short[p]);
            } else {
                assert(notation[p] == digit_char(n % 10));
                assert(n as int / 1 % 10 == n % 10);
            }
        }
    }
}

proof fn lemma_pow10(k: nat)
    ensures
        power::pow(10, k + 1) == 10 * power::pow(10, k),
{
    reveal(power::pow);
}

/// Joining two lists of parts is joining each and putting the separator between them; a single
/// part is left as it is, and no parts give no text.
pub proof fn law_joined_append(a: Seq<Seq<char>>, b: Seq<Seq<char>>, separator: Seq<char>)
    ensures
        joined(Seq::<Seq<char>>::empty(), separator) == Seq::<char>::empty(),
        a.len() == 1 ==> joined(a, separator) == a[0],
        a.len() > 0 && b.len() > 0 ==> joined(a + b, separator) == joined(a, separator) + separator
            + joined(b, separator),
    decreases b.len(),
{
    if a.len() > 0 && b.len() > 0 {
        assert((a + b).drop_last() =~= a + b.drop_last());
        assert((a + b).last() == b.last());
        if b.len() == 1 {
            assert(a + b.drop_last() =~= a);
        } else {
            law_joined_append(a, b.drop_last(), separator);
            assert(joined(a + b, separator) =~= joined(a, separator) + separator + joined(
                b,
                separator,
            ));
        }
    }
}

/// A list of strings is seen as it is written.
pub proof fn law_strings_in_order(strings: Seq<String>)
    ensures
        views(strings).len() == strings.len(),
        forall|i: int| 0 <= i < strings.len() ==> #[trigger] views(strings)[i] == strings[i]@,
{
}

} // verus!
