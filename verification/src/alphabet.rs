use vstd::prelude::*;

verus! {

/// The scalar value of the alphabet symbol at position `i`: the 26 lowercase
/// letters first, then the 26 uppercase letters, then the 10 digits.
pub open spec fn symbol_code(i: int) -> u8 {
    if i < 26 {
        (97 + i) as u8
    } else if i < 52 {
        (65 + (i - 26)) as u8
    } else {
        (48 + (i - 52)) as u8
    }
}

/// The fixed 62-symbol alphabet, in its enumeration order.
pub open spec fn alphabet() -> Seq<char> {
    Seq::new(62, |i: int| symbol_code(i) as char)
}

/// A character drawn from the fixed alphabet: an ASCII lowercase letter,
/// an ASCII uppercase letter, or an ASCII digit.
pub open spec fn in_alphabet(c: char) -> bool {
    ||| (97 <= c as u32 && c as u32 <= 122)
    ||| (65 <= c as u32 && c as u32 <= 90)
    ||| (48 <= c as u32 && c as u32 <= 57)
}

/// A word drawn entirely from the fixed alphabet.
pub open spec fn word_in_alphabet(s: Seq<char>) -> bool {
    forall|j: int| 0 <= j < s.len() ==> in_alphabet(#[trigger] s[j])
}

/// Every symbol of the alphabet is an alphabet character.
pub proof fn lemma_alphabet_sound(i: int)
    requires
        0 <= i < 62,
    ensures
        in_alphabet(alphabet()[i]),
{
    assert(in_alphabet(symbol_code(i) as char));
}

/// Distinct positions of the alphabet hold distinct characters.
pub proof fn lemma_alphabet_distinct(i: int, j: int)
    requires
        0 <= i < 62,
        0 <= j < 62,
        i != j,
    ensures
        alphabet()[i] != alphabet()[j],
{
    assert(symbol_code(i) != symbol_code(j));
    assert((symbol_code(i) as char) as u32 != (symbol_code(j) as char) as u32);
}

/// Every alphabet character occurs in the alphabet sequence.
pub proof fn lemma_alphabet_complete(c: char)
    requires
        in_alphabet(c),
    ensures
        alphabet().contains(c),
{
    let u = c as u32;
    if 97 <= u && u <= 122 {
        let i = u - 97;
        assert(symbol_code(i as int) == u as u8);
        assert(alphabet()[i as int] == c);
    } else if 65 <= u && u <= 90 {
        let i = 26 + (u - 65);
        assert(symbol_code(i as int) == u as u8);
        assert(alphabet()[i as int] == c);
    } else {
        let i = 52 + (u - 48);
        assert(symbol_code(i as int) == u as u8);
        assert(alphabet()[i as int] == c);
    }
}

/// Builds the fixed alphabet as an executable vector of characters.
pub fn charset() -> (r: Vec<char>)
    ensures
        r@ == alphabet(),
{
    let mut r: Vec<char> = Vec::new();
    let mut b: u8 = 97;
    while b <= 122
        invariant
            97 <= b <= 123,
            r@.len() == b - 97,
            forall|k: int| 0 <= k < r@.len() ==> r@[k] == alphabet()[k],
        decreases 123 - b,
    {
        r.push(b as char);
        b = b + 1;
    }
    let mut b: u8 = 65;
    while b <= 90
        invariant
            65 <= b <= 91,
            r@.len() == 26 + (b - 65),
            forall|k: int| 0 <= k < r@.len() ==> r@[k] == alphabet()[k],
        decreases 91 - b,
    {
        r.push(b as char);
        b = b + 1;
    }
    let mut b: u8 = 48;
    while b <= 57
        invariant
            48 <= b <= 58,
            r@.len() == 52 + (b - 48),
            forall|k: int| 0 <= k < r@.len() ==> r@[k] == alphabet()[k],
        decreases 58 - b,
    {
        r.push(b as char);
        b = b + 1;
    }
    assert(r@ =~= alphabet());
    r
}

} // verus!
