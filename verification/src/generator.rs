use vstd::prelude::*;

use crate::alphabet::{
    alphabet, charset, in_alphabet, lemma_alphabet_complete, lemma_alphabet_distinct,
    lemma_alphabet_sound, word_in_alphabet,
};
use crate::product::{
    distinct_chars, distinct_words, lemma_extend_all_len, lemma_product_complete,
    lemma_product_distinct, lemma_product_sound, multi_cartesian_product, product,
};

verus! {

/// `base` raised to the power `e`.
pub open spec fn pow(base: nat, e: nat) -> nat
    decreases e,
{
    if e == 0 {
        1
    } else {
        base * pow(base, (e - 1) as nat)
    }
}

/// The symbol lists handed to the product in brute-force mode: `l` copies of
/// the fixed alphabet.
pub open spec fn uniform_alphabet(l: nat) -> Seq<Seq<char>> {
    Seq::new(l, |i: int| alphabet())
}

/// Every word of length `l` over the fixed alphabet, in enumeration order.
pub open spec fn all_words(l: nat) -> Seq<Seq<char>> {
    product(uniform_alphabet(l))
}

pub proof fn lemma_alphabet_is_distinct()
    ensures
        distinct_chars(alphabet()),
{
    assert forall|i: int, j: int| 0 <= i < j < alphabet().len() implies alphabet()[i]
        != alphabet()[j] by {
        lemma_alphabet_distinct(i, j);
    }
}

/// The generator for length `l` yields exactly `62^l` words, none of them
/// twice.
pub proof fn lemma_generator_counts(l: nat)
    ensures
        all_words(l).len() == pow(62, l),
        distinct_words(all_words(l)),
    decreases l,
{
    assert forall|j: int|
        0 <= j < uniform_alphabet(l).len() implies distinct_chars(
        #[trigger] uniform_alphabet(l)[j],
    ) by {
        lemma_alphabet_is_distinct();
    }
    lemma_product_distinct(uniform_alphabet(l));
    if l == 0 {
    } else {
        lemma_generator_counts((l - 1) as nat);
        assert(uniform_alphabet(l).drop_last() =~= uniform_alphabet((l - 1) as nat));
        assert(uniform_alphabet(l).last() == alphabet());
        lemma_extend_all_len(all_words((l - 1) as nat), alphabet());
        assert(all_words(l).len() == 62 * all_words((l - 1) as nat).len());
        assert(62 * pow(62, (l - 1) as nat) == pow(62, l));
    }
}

/// The generator for length `l` yields a word if and only if the word has
/// length `l` and stays within the fixed alphabet: no omission, no stray
/// word.
pub proof fn lemma_generator_exact(l: nat, s: Seq<char>)
    ensures
        all_words(l).contains(s) <==> (s.len() == l && word_in_alphabet(s)),
{
    if all_words(l).contains(s) {
        let n = choose|n: int| 0 <= n < all_words(l).len() && all_words(l)[n] == s;
        lemma_product_sound(uniform_alphabet(l), n);
        assert(s.len() == l);
        assert forall|j: int| 0 <= j < s.len() implies in_alphabet(#[trigger] s[j]) by {
            assert(uniform_alphabet(l)[j].contains(s[j]));
            assert(alphabet().contains(s[j]));
            let i = choose|i: int| 0 <= i < alphabet().len() && alphabet()[i] == s[j];
            lemma_alphabet_sound(i);
        }
    }
    if s.len() == l && word_in_alphabet(s) {
        assert forall|j: int|
            0 <= j < uniform_alphabet(l).len() implies uniform_alphabet(l)[j].contains(
            #[trigger] s[j],
        ) by {
            lemma_alphabet_complete(s[j]);
        }
        lemma_product_complete(uniform_alphabet(l), s);
    }
}

/// Relies on `String::push`: appends the given character to the string.
#[verifier::external_body]
fn push_char(s: &mut String, c: char)
    ensures
        final(s)@ == old(s)@.push(c),
{
    s.push(c)
}

/// Copies a word of symbols into an owned text value.
fn word_to_string(w: &Vec<char>) -> (s: String)
    ensures
        s@ == w@,
{
    let mut s = String::new();
    let mut i: usize = 0;
    while i < w.len()
        invariant
            i <= w.len(),
            s@ == w@.take(i as int),
        decreases w.len() - i,
    {
        push_char(&mut s, w[i]);
        assert(s@ =~= w@.take(i as int + 1));
        i = i + 1;
    }
    assert(s@ =~= w@);
    s
}

/// Generates every password of the given length over the fixed alphabet,
/// in the enumeration order of the cartesian product.
pub fn generate_passwords(length: usize) -> (r: Vec<String>)
    ensures
        r.deep_view() == all_words(length as nat),
{
    let symbols = charset();
    let mut input: Vec<Vec<char>> = Vec::new();
    let mut i: usize = 0;
    while i < length
        invariant
            i <= length,
            symbols@ == alphabet(),
            input.deep_view() =~= uniform_alphabet(i as nat),
        decreases length - i,
    {
        let ghost pre = input.deep_view();
        let ghost pre_shallow = input@;
        let copy = charset();
        input.push(copy);
        proof {
            assert(input@ == pre_shallow.push(copy));
            assert(pre.len() == i as int);
            assert(pre_shallow.len() == i as int);
            assert(input@.len() == i as int + 1);
            let target = uniform_alphabet(i as nat + 1);
            assert forall|t: int|
                0 <= t < input.deep_view().len() implies input.deep_view()[t] == target[t] by {
                if t < i {
                    assert(input@[t] == pre_shallow[t]);
                    assert(input.deep_view()[t] == pre[t]);
                    assert(pre[t] == uniform_alphabet(i as nat)[t]);
                } else {
                    assert(input@[t] == copy);
                    assert(input.deep_view()[t] == copy.deep_view());
                    assert(copy.deep_view() =~= alphabet());
                }
            }
            assert(input.deep_view() =~= target);
        }
        i = i + 1;
    }
    let combinations = multi_cartesian_product(&input);
    let ghost words = all_words(length as nat);
    assert(combinations.deep_view() == words);

    let mut r: Vec<String> = Vec::new();
    let mut n: usize = 0;
    while n < combinations.len()
        invariant
            n <= combinations.len(),
            combinations.deep_view() == words,
            r.deep_view() =~= words.take(n as int),
        decreases combinations.len() - n,
    {
        let ghost pre = r.deep_view();
        let ghost pre_shallow = r@;
        let s = word_to_string(&combinations[n]);
        proof {
            assert(combinations@[n as int].deep_view() =~= combinations@[n as int]@);
            assert(combinations.deep_view()[n as int] == combinations@[n as int].deep_view());
            assert(s@ == words[n as int]);
        }
        r.push(s);
        proof {
            assert(r@ == pre_shallow.push(s));
            assert(pre.len() == n as int);
            assert(pre_shallow.len() == n as int);
            assert(r@.len() == n as int + 1);
            assert forall|t: int|
                0 <= t < r.deep_view().len() implies r.deep_view()[t] == words.take(
                n as int + 1,
            )[t] by {
                if t < n {
                    assert(r@[t] == pre_shallow[t]);
                    assert(r.deep_view()[t] == pre[t]);
                    assert(pre[t] == words.take(n as int)[t]);
                    assert(words.take(n as int)[t] == words[t]);
                    assert(words.take(n as int + 1)[t] == words[t]);
                } else {
                    assert(r@[t] == s);
                    assert(r.deep_view()[t] == s.deep_view());
                    assert(words.take(n as int + 1)[t] == words[t]);
                }
            }
            assert(r.deep_view() =~= words.take(n as int + 1));
        }
        n = n + 1;
    }
    assert(r.deep_view() =~= words);
    r
}

} // verus!
