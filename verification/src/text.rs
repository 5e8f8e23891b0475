//! Text that the client compares and builds.

use vstd::prelude::*;

use crate::hex;

verus! {

/// `c` with the letters `A` to `Z` mapped to `a` to `z`.
pub open spec fn ascii_lower(c: char) -> char {
    if 'A' as int <= c as int && c as int <= 'Z' as int {
        (c as int + 32) as char
    } else {
        c
    }
}

/// `text` with every ASCII letter in lower case.
pub open spec fn lowered(text: Seq<char>) -> Seq<char> {
    text.map_values(|c: char| ascii_lower(c))
}

/// `str::eq_ignore_ascii_case` compares the two texts as they are after mapping
/// ASCII letters to lower case; all other characters have to be the same.
pub assume_specification[ str::eq_ignore_ascii_case ](left: &str, right: &str) -> (same: bool)
    ensures
        same == (lowered(left@) == lowered(right@)),
;

/// The decimal digits of `n`, without leading zeros.
pub open spec fn decimal(n: nat) -> Seq<char>
    decreases n,
{
    if n < 10 {
        seq![hex::digit(n as int)]
    } else {
        decimal(n / 10).push(hex::digit((n % 10) as int))
    }
}

/// Appends `n` in decimal to `text`.
pub(crate) fn append_decimal(text: &mut String, n: u16)
    ensures
        final(text)@ == old(text)@ + decimal(n as nat),
    decreases n,
{
    if n >= 10 {
        append_decimal(text, n / 10);
    }
    text.append(hex::digit_text((n % 10) as u8));
    assert(text@ =~= old(text)@ + decimal(n as nat));
}

/// When two texts are the same but for ASCII case: they have the same length, and
/// at every place the same character, or the upper and the lower case of one of
/// the letters `A` to `Z`.
pub proof fn lemma_same_but_for_case(a: Seq<char>, b: Seq<char>)
    ensures
        lowered(a) == lowered(b) <==> a.len() == b.len() && forall|i: int|
            0 <= i < a.len() ==> {
                ||| #[trigger] a[i] == b[i]
                ||| 65 <= a[i] as int <= 90 && b[i] as int == a[i] as int + 32
                ||| 65 <= b[i] as int <= 90 && a[i] as int == b[i] as int + 32
            },
{
    if lowered(a) == lowered(b) {
        assert(lowered(a).len() == a.len() && lowered(b).len() == b.len());
        assert forall|i: int| 0 <= i < a.len() implies {
            ||| #[trigger] a[i] == b[i]
            ||| 65 <= a[i] as int <= 90 && b[i] as int == a[i] as int + 32
            ||| 65 <= b[i] as int <= 90 && a[i] as int == b[i] as int + 32
        } by {
            assert(lowered(a)[i] == ascii_lower(a[i]) && lowered(b)[i] == ascii_lower(b[i]));
        }
    }
    if a.len() == b.len() && forall|i: int|
        0 <= i < a.len() ==> {
            ||| #[trigger] a[i] == b[i]
            ||| 65 <= a[i] as int <= 90 && b[i] as int == a[i] as int + 32
            ||| 65 <= b[i] as int <= 90 && a[i] as int == b[i] as int + 32
        } {
        assert forall|i: int| 0 <= i < a.len() implies ascii_lower(a[i]) == ascii_lower(b[i]) by {
            assert(a[i] == b[i] || a[i] != b[i]);
        }
        assert(lowered(a) =~= lowered(b));
    }
}

/// How a port number is written: in decimal, with as many digits as it needs.
pub proof fn lemma_decimal_of_port(n: nat)
    requires
        n <= 0xffff,
    ensures
        n < 10 ==> decimal(n) == seq![(48 + n) as char],
        10 <= n < 100 ==> decimal(n) == seq![(48 + n / 10) as char, (48 + n % 10) as char],
        100 <= n < 1000 ==> decimal(n) == seq![
            (48 + n / 100) as char,
            (48 + n / 10 % 10) as char,
            (48 + n % 10) as char,
        ],
        1000 <= n < 10000 ==> decimal(n) == seq![
            (48 + n / 1000) as char,
            (48 + n / 100 % 10) as char,
            (48 + n / 10 % 10) as char,
            (48 + n % 10) as char,
        ],
        10000 <= n ==> decimal(n) == seq![
            (48 + n / 10000) as char,
            (48 + n / 1000 % 10) as char,
            (48 + n / 100 % 10) as char,
            (48 + n / 10 % 10) as char,
            (48 + n % 10) as char,
        ],
{
    reveal_with_fuel(decimal, 5);
    assert(n / 10 / 10 == n / 100);
    assert(n / 100 / 10 == n / 1000);
    assert(n / 1000 / 10 == n / 10000);
    if n < 10 {
    } else if n < 100 {
        assert(decimal(n) =~= seq![(48 + n / 10) as char, (48 + n % 10) as char]);
    } else if n < 1000 {
        assert(decimal(n) =~= seq![
            (48 + n / 100) as char,
            (48 + n / 10 % 10) as char,
            (48 + n % 10) as char,
        ]);
    } else if n < 10000 {
        assert(decimal(n) =~= seq![
            (48 + n / 1000) as char,
            (48 + n / 100 % 10) as char,
            (48 + n / 10 % 10) as char,
            (48 + n % 10) as char,
        ]);
    } else {
        assert(decimal(n) =~= seq![
            (48 + n / 10000) as char,
            (48 + n / 1000 % 10) as char,
            (48 + n / 100 % 10) as char,
            (48 + n / 10 % 10) as char,
            (48 + n % 10) as char,
        ]);
    }
}

} // verus!
