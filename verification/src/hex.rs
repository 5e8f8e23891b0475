//! Lower-case hexadecimal text.

use vstd::prelude::*;

verus! {

/// The hexadecimal digit for `n`, which is less than sixteen.
pub open spec fn digit(n: int) -> char {
    if n < 10 {
        ('0' as int + n) as char
    } else {
        ('a' as int + n - 10) as char
    }
}

/// Two digits for each byte of `data`, the high half first.
pub open spec fn hex(data: Seq<u8>) -> Seq<char> {
    Seq::new(
        2 * data.len(),
        |i: int| digit(if i % 2 == 0 { data[i / 2] as int / 16 } else { data[i / 2] as int % 16 }),
    )
}

/// The digit for `n` as text.
pub(crate) fn digit_text(n: u8) -> (text: &'static str)
    requires
        n < 16,
    ensures
        text@ == seq![digit(n as int)],
{
    proof {
        reveal_strlit("0");
        reveal_strlit("1");
        reveal_strlit("2");
        reveal_strlit("3");
        reveal_strlit("4");
        reveal_strlit("5");
        reveal_strlit("6");
        reveal_strlit("7");
        reveal_strlit("8");
        reveal_strlit("9");
        reveal_strlit("a");
        reveal_strlit("b");
        reveal_strlit("c");
        reveal_strlit("d");
        reveal_strlit("e");
        reveal_strlit("f");
    }
    match n {
        0 => "0",
        1 => "1",
        2 => "2",
        3 => "3",
        4 => "4",
        5 => "5",
        6 => "6",
        7 => "7",
        8 => "8",
        9 => "9",
        10 => "a",
        11 => "b",
        12 => "c",
        13 => "d",
        14 => "e",
        _ => "f",
    }
}

/// Encodes bytes as lower-case hexadecimal text.
pub fn hex_encode(data: &[u8]) -> (text: String)
    ensures
        text@ == hex(data@),
        text@.len() == 2 * data@.len(),
        forall|i: int|
            0 <= i < data@.len() ==> text@[2 * i] == "0123456789abcdef"@[#[trigger] data@[i] as int / 16]
                && text@[2 * i + 1] == "0123456789abcdef"@[data@[i] as int % 16],
{
    let mut text: String = String::new();
    for i in 0..data.len()
        invariant
            text@ == hex(data@.take(i as int)),
    {
        let byte: u8 = data[i];
        text.append(digit_text(byte / 16));
        text.append(digit_text(byte % 16));
        assert(text@ =~= hex(data@.take(i + 1)));
    }
    proof {
        assert(data@.take(data@.len() as int) =~= data@);
        assert forall|i: int| 0 <= i < data@.len() implies text@[2 * i]
            == "0123456789abcdef"@[#[trigger] data@[i] as int / 16] && text@[2 * i + 1]
            == "0123456789abcdef"@[data@[i] as int % 16] by {
            lemma_hex_digits(data@, i);
        }
    }
    text
}

/// Each byte becomes two of the characters `0` to `9` and `a` to `f`: the one for
/// its upper half and then the one for its lower half, and nothing else is added.
pub proof fn lemma_hex_digits(data: Seq<u8>, i: int)
    requires
        0 <= i < data.len(),
    ensures
        hex(data).len() == 2 * data.len(),
        hex(data)[2 * i] == "0123456789abcdef"@[data[i] as int / 16],
        hex(data)[2 * i + 1] == "0123456789abcdef"@[data[i] as int % 16],
{
    reveal_strlit("0123456789abcdef");
    let high = 2 * i;
    let low = 2 * i + 1;
    assert(high / 2 == i && high % 2 == 0 && low / 2 == i && low % 2 == 1);
    assert(hex(data)[high] == digit(data[i] as int / 16));
    assert(hex(data)[low] == digit(data[i] as int % 16));
    lemma_digit_text(data[i] as int / 16);
    lemma_digit_text(data[i] as int % 16);
}

/// The digit for a number is the character at that place among the sixteen.
pub proof fn lemma_digit_text(n: int)
    requires
        0 <= n < 16,
    ensures
        digit(n) == "0123456789abcdef"@[n],
{
    reveal_strlit("0123456789abcdef");
    assert(n == 0 || n == 1 || n == 2 || n == 3 || n == 4 || n == 5 || n == 6 || n == 7 || n == 8 || n == 9
        || n == 10 || n == 11 || n == 12 || n == 13 || n == 14 || n == 15);
}

/// No bytes, no text.
pub proof fn lemma_hex_of_nothing()
    ensures
        hex(Seq::empty()).len() == 0,
{
}

/// The text of bytes joined end to end is their texts joined end to end.
pub proof fn lemma_hex_of_joined_bytes(first: Seq<u8>, second: Seq<u8>)
    ensures
        hex(first + second) == hex(first) + hex(second),
{
    assert(hex(first + second) =~= hex(first) + hex(second));
}

proof fn lemma_digit_is_injective(m: int, n: int)
    requires
        0 <= m < 16,
        0 <= n < 16,
        digit(m) == digit(n),
    ensures
        m == n,
{
}

/// Different bytes have different text.
pub proof fn lemma_hex_is_injective(a: Seq<u8>, b: Seq<u8>)
    requires
        hex(a) == hex(b),
    ensures
        a == b,
{
    assert(hex(a).len() == 2 * a.len() && hex(b).len() == 2 * b.len());
    assert forall|i: int| 0 <= i < a.len() implies a[i] == b[i] by {
        let high = 2 * i;
        let low = 2 * i + 1;
        assert(high / 2 == i && high % 2 == 0 && low / 2 == i && low % 2 == 1);
        assert(hex(a)[high] == digit(a[i] as int / 16));
        assert(hex(b)[high] == digit(b[i] as int / 16));
        assert(hex(a)[low] == digit(a[i] as int % 16));
        assert(hex(b)[low] == digit(b[i] as int % 16));
        lemma_digit_is_injective(a[i] as int / 16, b[i] as int / 16);
        lemma_digit_is_injective(a[i] as int % 16, b[i] as int % 16);
    }
    assert(a =~= b);
}

} // verus!
