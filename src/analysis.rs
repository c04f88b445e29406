//! Checks and counts over the characters of a tetragram file.

use vstd::prelude::*;
use crate::alphabet::{chars_of, is_symbol, is_white_space, symbol_digit, white_space};

verus! {

/// Whether `c` is a control character (general category `Cc`).
pub open spec fn is_control_char(c: char) -> bool {
    (c as u32) <= 0x1F || (0x7F <= (c as u32) && (c as u32) <= 0x9F)
}

/// Relies on `char::is_control`: whether the character is in the general
/// category `Cc`.
#[verifier::external_body]
fn is_control(c: char) -> (r: bool)
    ensures
        r == is_control_char(c),
{
    c.is_control()
}

/// A character of a file that is neither a symbol, white space nor a
/// control character, with its position (in characters).
#[derive(Debug, Clone, Copy, PartialEq, Eq, Structural)]
pub struct InvalidChar {
    pub character: char,
    pub position: usize,
}

/// The outcome of checking the characters of a file.
#[derive(Debug)]
pub struct SymbolValidation {
    /// How many symbols the file holds.
    pub valid_symbols: usize,
    /// The characters that are not allowed, in order.
    pub invalid: Vec<InvalidChar>,
}

/// The symbols of `s`, in order.
pub open spec fn symbols_only(s: Seq<char>) -> Seq<char>
    decreases s.len(),
{
    if s.len() == 0 {
        seq![]
    } else if is_symbol(s.last()) {
        symbols_only(s.drop_last()).push(s.last())
    } else {
        symbols_only(s.drop_last())
    }
}

/// Whether validation passes over `c` without looking at it.
pub open spec fn is_ignored(c: char) -> bool {
    white_space(c) || is_control_char(c)
}

/// How many characters of `s` validation counts as symbols.
pub open spec fn counted_symbols(s: Seq<char>) -> nat
    decreases s.len(),
{
    if s.len() == 0 {
        0
    } else {
        counted_symbols(s.drop_last()) + if !is_ignored(s.last()) && is_symbol(s.last()) {
            1nat
        } else {
            0nat
        }
    }
}

/// The characters of `s` that validation rejects, with their positions.
pub open spec fn rejected_chars(s: Seq<char>) -> Seq<InvalidChar>
    decreases s.len(),
{
    if s.len() == 0 {
        seq![]
    } else if !is_ignored(s.last()) && !is_symbol(s.last()) {
        rejected_chars(s.drop_last()).push(
            InvalidChar { character: s.last(), position: (s.len() - 1) as usize },
        )
    } else {
        rejected_chars(s.drop_last())
    }
}

/// The symbols of `content`, in order; other characters are dropped.
pub fn tetragram_chars(content: &str) -> (r: Vec<char>)
    ensures
        r@ == symbols_only(content@),
{
    let chars = chars_of(content);
    let mut symbols: Vec<char> = Vec::new();
    let mut i: usize = 0;
    while i < chars.len()
        invariant
            i <= chars.len(),
            chars@ == content@,
            symbols@ == symbols_only(chars@.subrange(0, i as int)),
        decreases chars.len() - i,
    {
        let c = chars[i];
        assert(chars@.subrange(0, i + 1).drop_last() =~= chars@.subrange(0, i as int));
        if symbol_digit(c).is_some() {
            symbols.push(c);
        }
        i = i + 1;
    }
    assert(chars@.subrange(0, i as int) =~= chars@);
    symbols
}

/// Checks the characters of a file: white space and control characters are
/// passed over, symbols counted, and any other character reported with its
/// position.
pub fn validate_symbols(content: &str) -> (r: SymbolValidation)
    ensures
        r.valid_symbols == counted_symbols(content@),
        r.invalid@ == rejected_chars(content@),
{
    let chars = chars_of(content);
    let mut valid: usize = 0;
    let mut invalid: Vec<InvalidChar> = Vec::new();
    let mut i: usize = 0;
    while i < chars.len()
        invariant
            i <= chars.len(),
            chars@ == content@,
            valid == counted_symbols(chars@.subrange(0, i as int)),
            valid <= i,
            invalid@ == rejected_chars(chars@.subrange(0, i as int)),
        decreases chars.len() - i,
    {
        let c = chars[i];
        assert(chars@.subrange(0, i + 1).drop_last() =~= chars@.subrange(0, i as int));
        if !is_white_space(c) && !is_control(c) {
            if symbol_digit(c).is_some() {
                valid = valid + 1;
            } else {
                invalid.push(InvalidChar { character: c, position: i });
            }
        }
        i = i + 1;
    }
    assert(chars@.subrange(0, i as int) =~= chars@);
    SymbolValidation { valid_symbols: valid, invalid }
}

/// Whether every character of `content` is white space or a symbol.
pub fn only_symbols_and_space(content: &str) -> (r: bool)
    ensures
        r == forall|i: int| 0 <= i < content@.len() ==> white_space(content@[i]) || is_symbol(content@[i]),
{
    let chars = chars_of(content);
    let mut i: usize = 0;
    while i < chars.len()
        invariant
            i <= chars.len(),
            chars@ == content@,
            forall|j: int| 0 <= j < i ==> white_space(chars@[j]) || is_symbol(chars@[j]),
        decreases chars.len() - i,
    {
        let c = chars[i];
        if !is_white_space(c) && symbol_digit(c).is_none() {
            return false;
        }
        i = i + 1;
    }
    true
}

/// A suggestion to reach a count divisible by three.
pub const SUGGEST_3: &'static str = "Add tetragrams to reach Tesla 3-alignment";

/// A suggestion to reach a count divisible by nine.
pub const SUGGEST_9: &'static str = "Add tetragrams to reach Tesla 9-alignment (sacred completion)";

/// A suggestion to reach a count divisible by 27.
pub const SUGGEST_27: &'static str = "Add tetragrams to reach Tesla 27-alignment (perfect harmony)";

/// A suggestion to grow a short program.
pub const SUGGEST_81: &'static str = "Consider expanding to 81 tetragrams for optimal memory usage";

/// A suggestion to reach an even count.
pub const SUGGEST_EVEN: &'static str = "Even tetragram count for optimal gas efficiency";

/// The message when nothing is to be suggested.
pub const SUGGEST_NONE: &'static str = "Program is already optimally configured";

/// `[text]` when `on` holds, else nothing.
pub open spec fn listed_if(on: bool, text: Seq<char>) -> Seq<Seq<char>> {
    if on {
        seq![text]
    } else {
        seq![]
    }
}

/// The suggestions for a program of `count` symbols.
pub open spec fn suggestions_for(count: nat) -> Seq<Seq<char>> {
    let s = listed_if(count % 3 != 0, SUGGEST_3@) + listed_if(count % 9 != 0, SUGGEST_9@)
        + listed_if(count % 27 != 0, SUGGEST_27@) + listed_if(count < 81, SUGGEST_81@)
        + listed_if(count % 2 != 0, SUGGEST_EVEN@);
    if s.len() == 0 {
        seq![SUGGEST_NONE@]
    } else {
        s
    }
}

/// Appends `text` when `on` holds.
fn push_if(list: &mut Vec<String>, on: bool, text: &str)
    ensures
        final(list)@.len() == old(list)@.len() + listed_if(on, text@).len(),
        forall|i: int| 0 <= i < old(list)@.len() ==> final(list)@[i] == old(list)@[i],
        forall|i: int|
            0 <= i < listed_if(on, text@).len() ==> final(list)@[old(list)@.len() + i]@
                == listed_if(on, text@)[i],
{
    if on {
        list.push(String::from_str(text));
    }
}

/// Suggestions for a program of `count` symbols: reach counts divisible by
/// 3, 9 and 27, at least 81 symbols, and an even count.
pub fn generate_optimization_suggestions(_tetragrams: &[char], count: usize) -> (r: Vec<String>)
    ensures
        r@.len() == suggestions_for(count as nat).len(),
        forall|i: int| 0 <= i < r@.len() ==> r@[i]@ == suggestions_for(count as nat)[i],
{
    let mut list: Vec<String> = Vec::new();
    let ghost l0 = list@;
    push_if(&mut list, count % 3 != 0, SUGGEST_3);
    let ghost l1 = list@;
    push_if(&mut list, count % 9 != 0, SUGGEST_9);
    let ghost l2 = list@;
    push_if(&mut list, count % 27 != 0, SUGGEST_27);
    let ghost l3 = list@;
    push_if(&mut list, count < 81, SUGGEST_81);
    let ghost l4 = list@;
    push_if(&mut list, count % 2 != 0, SUGGEST_EVEN);
    let ghost s = listed_if(count % 3 != 0, SUGGEST_3@) + listed_if(count % 9 != 0, SUGGEST_9@)
        + listed_if(count % 27 != 0, SUGGEST_27@) + listed_if(count < 81, SUGGEST_81@)
        + listed_if(count % 2 != 0, SUGGEST_EVEN@);
    assert(list@.len() == s.len());
    assert forall|i: int| 0 <= i < list@.len() implies list@[i]@ == s[i] by {
        let a = listed_if(count % 3 != 0, SUGGEST_3@);
        let b = listed_if(count % 9 != 0, SUGGEST_9@);
        let c = listed_if(count % 27 != 0, SUGGEST_27@);
        let d = listed_if(count < 81, SUGGEST_81@);
        let e = listed_if(count % 2 != 0, SUGGEST_EVEN@);
        if i < a.len() {
            assert(list@[i] == l1[i]);
        } else if i < a.len() + b.len() {
            assert(list@[i] == l2[i]);
        } else if i < a.len() + b.len() + c.len() {
            assert(list@[i] == l3[i]);
        } else if i < a.len() + b.len() + c.len() + d.len() {
            assert(list@[i] == l4[i]);
        }
    }
    if list.len() == 0 {
        list.push(String::from_str(SUGGEST_NONE));
    }
    list
}

} // verus!
