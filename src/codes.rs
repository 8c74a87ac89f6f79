//! The alphabets and the rendering of one code from a format.
use rand::rngs::ThreadRng;
use rand::seq::SliceRandom;
use vstd::prelude::*;

verus! {

/// The format symbol that stands for one letter of the letter alphabet.
pub const LETTER_SYMBOL: char = 'B';

/// The format symbol that stands for one digit of the digit alphabet.
pub const DIGIT_SYMBOL: char = '1';

/// The letters a code may hold: capitals that are hard to mistake for each
/// other or for a digit.
pub open spec fn letters() -> Seq<char> {
    seq!['A', 'C', 'E', 'F', 'H', 'K', 'L', 'M', 'P', 'R', 'T', 'W', 'X', 'Y']
}

/// The digits a code may hold: those that are hard to mistake for a letter.
pub open spec fn digits() -> Seq<char> {
    seq!['3', '4', '6', '7', '9']
}

/// What a code may hold where its format holds `symbol`: a letter of the
/// letter alphabet, a digit of the digit alphabet, or the symbol itself.
pub open spec fn renders_symbol(symbol: char, c: char) -> bool {
    if symbol == LETTER_SYMBOL {
        letters().contains(c)
    } else if symbol == DIGIT_SYMBOL {
        digits().contains(c)
    } else {
        c == symbol
    }
}

/// `code` is one of the codes that `format` describes: as long as the format,
/// and each character rendered from the format's symbol at its position.
pub open spec fn is_rendering_of(code: Seq<char>, format: Seq<char>) -> bool {
    &&& code.len() == format.len()
    &&& forall|i: int| 0 <= i < format.len() ==> renders_symbol(#[trigger] format[i], code[i])
}

#[verifier::external_type_specification]
#[verifier::external_body]
pub struct ExThreadRng(ThreadRng);

/// Relies on rand::thread_rng: hands out the calling thread's generator,
/// seeded from the operating system. Nothing is promised of its state.
pub assume_specification[ rand::thread_rng ]() -> ThreadRng;

/// Relies on rand's `SliceRandom::choose` for slices: `None` exactly when the
/// slice is empty, otherwise one of its elements.
#[verifier::external_body]
fn choose_char(rng: &mut ThreadRng, items: &[char]) -> (r: Option<char>)
    ensures
        r is None <==> items@.len() == 0,
        r matches Some(c) ==> items@.contains(c),
{
    items.choose(rng).copied()
}

/// Relies on String::push: appends one character.
#[verifier::external_body]
fn push_char(s: &mut String, c: char)
    ensures
        final(s)@ == old(s)@.push(c),
{
    s.push(c)
}

/// Draws one character of the letter alphabet.
pub fn random_letter(rng: &mut ThreadRng) -> (c: char)
    ensures
        letters().contains(c),
{
    let table: [char; 14] = ['A', 'C', 'E', 'F', 'H', 'K', 'L', 'M', 'P', 'R', 'T', 'W', 'X', 'Y'];
    assert(table@ == letters());
    choose_char(rng, &table).expect("the letter alphabet is not empty")
}

/// Draws one character of the digit alphabet.
pub fn random_number(rng: &mut ThreadRng) -> (c: char)
    ensures
        digits().contains(c),
{
    let table: [char; 5] = ['3', '4', '6', '7', '9'];
    assert(table@ == digits());
    choose_char(rng, &table).expect("the digit alphabet is not empty")
}

/// Renders one symbol of a format: a random letter for the letter symbol, a
/// random digit for the digit symbol, any other character unchanged.
pub fn render_symbol(rng: &mut ThreadRng, symbol: char) -> (c: char)
    ensures
        renders_symbol(symbol, c),
{
    if symbol == LETTER_SYMBOL {
        random_letter(rng)
    } else if symbol == DIGIT_SYMBOL {
        random_number(rng)
    } else {
        symbol
    }
}

/// Generates a single code in the given format.
///
/// Each `B` of the format becomes a random letter and each `1` a random
/// digit; every other character is kept. No uniqueness is checked: two calls
/// may return the same code.
pub fn generate_code(code_format: &str) -> (code: String)
    ensures
        is_rendering_of(code@, code_format@),
{
    broadcast use vstd::string::group_string_axioms;

    let mut rng = rand::thread_rng();
    let mut code = String::new();
    for symbol in it: code_format.chars()
        invariant
            it.seq() == code_format@,
            code@.len() == it.index(),
            forall|i: int| 0 <= i < it.index() ==> renders_symbol(#[trigger] code_format@[i], code@[i]),
    {
        let c = render_symbol(&mut rng, symbol);
        push_char(&mut code, c);
    }
    code
}

} // verus!
