//! The closed set of languages a project can translate between.

use vstd::prelude::*;

verus! {

/// A language a directory can be written in.  The set is closed so that
/// every branch on a language is checked exhaustively.
#[derive(Clone, Copy, Debug, PartialEq, Eq, Structural)]
pub enum Language {
    English,
    French,
    German,
    Spanish,
    Japanese,
    Chinese,
}

/// The short code a language's target directory is named after.
pub open spec fn spec_lang_code(l: Language) -> Seq<u8> {
    match l {
        Language::English => seq![101u8, 110u8],
        Language::French => seq![102u8, 114u8],
        Language::German => seq![100u8, 101u8],
        Language::Spanish => seq![101u8, 115u8],
        Language::Japanese => seq![106u8, 97u8],
        Language::Chinese => seq![122u8, 104u8],
    }
}

/// The directory name derived deterministically for a target language.
pub fn lang_code(l: Language) -> (r: Vec<u8>)
    ensures
        r@ == spec_lang_code(l),
{
    match l {
        Language::English => vec![101u8, 110u8],
        Language::French => vec![102u8, 114u8],
        Language::German => vec![100u8, 101u8],
        Language::Spanish => vec![101u8, 115u8],
        Language::Japanese => vec![106u8, 97u8],
        Language::Chinese => vec![122u8, 104u8],
    }
}

} // verus!
