//! The request for a repaired declaration and what is taken from the reply.
use crate::text::{replace, replaced, trim_newlines, without_newlines};
use vstd::prelude::*;

verus! {

/// The prompt for one declaration: the template with its three placeholders
/// filled in, one after the other.
pub open spec fn filled_prompt(
    template: Seq<char>,
    context: Seq<char>,
    errors: Seq<char>,
    declaration: Seq<char>,
) -> Seq<char> {
    replaced(
        replaced(replaced(template, "{context}"@, context), "{errors}"@, errors),
        "{declaration}"@,
        declaration,
    )
}

/// Fills in the prompt template for a broken declaration, its compiler errors
/// and the interface of the whole file.
pub fn fill_prompt(template: &str, context: &str, errors_text: &str, decl_source: &str) -> (r:
    String)
    ensures
        r@ == filled_prompt(template@, context@, errors_text@, decl_source@),
{
    proof {
        reveal_strlit("{context}");
        reveal_strlit("{errors}");
        reveal_strlit("{declaration}");
    }
    let with_context = replace(template, "{context}", context);
    let with_errors = replace(with_context.as_str(), "{errors}", errors_text);
    replace(with_errors.as_str(), "{declaration}", decl_source)
}

/// The source that a reply gives for the declaration.
pub fn fixed_source(fixed_code: &str) -> (r: String)
    ensures
        r@ == without_newlines(fixed_code@),
{
    trim_newlines(fixed_code).to_owned()
}

} // verus!
