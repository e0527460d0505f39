//! Turning text into its full-width form, by `unicode_hfwidth`.
use vstd::prelude::*;
use crate::text::push_char;

verus! {

/// The full-width form of a character, as `unicode_hfwidth::to_fullwidth`
/// gives it: `None` where there is none.
pub uninterp spec fn fullwidth_form(c: char) -> Option<char>;

/// Calls `unicode_hfwidth::to_fullwidth`, a table from characters to their
/// full-width forms, named `fullwidth_form`. Its source maps the printable
/// ASCII characters `'!'` to `'~'` one for one onto `U+FF01` to `U+FF5E`.
#[verifier::external_body]
fn fullwidth_of(c: char) -> (r: Option<char>)
    ensures
        r == fullwidth_form(c),
        0x21 <= c as u32 <= 0x7e ==> r == Some(((c as u32) + 0xfee0) as char),
{
    unicode_hfwidth::to_fullwidth(c)
}

/// A character's full-width form, or the character itself where it has none.
pub open spec fn widened(c: char) -> char {
    match fullwidth_form(c) {
        Some(f) => f,
        None => c,
    }
}

/// The text with each character in its full-width form where it has one.
pub fn to_fullwidth(string: &str) -> (fullwidth: String)
    ensures
        fullwidth@ == string@.map_values(|c: char| widened(c)),
{
    let mut fullwidth = String::new();
    for character in it: string.chars()
        invariant
            it.seq() == string@,
            fullwidth@ == string@.take(it.index() as int).map_values(|c: char| widened(c)),
    {
        let ghost i = it.index();
        push_char(
            &mut fullwidth,
            match fullwidth_of(character) {
                Some(character) => character,
                None => character,
            },
        );
        assert(string@.take(i + 1) =~= string@.take(i as int).push(character));
        assert(fullwidth@ =~= string@.take(i + 1).map_values(|c: char| widened(c)));
    }
    assert(string@.take(string@.len() as int) =~= string@);
    fullwidth
}

} // verus!
