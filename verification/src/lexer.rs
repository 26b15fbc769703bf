//! From source text to characters.

use vstd::prelude::*;

verus! {

broadcast use vstd::string::group_string_axioms;

/// Returns a vector of characters in the specified `source_code`.
///
/// A 'real' lexer would return a vector of *tokens* for the `parser` to
/// transform into an abstract syntax tree.  But every token in Mojikun
/// consists of a single character, and no operations take arguments, so there
/// isn't really a meaningful distinction between the vector of tokens and the
/// abstract syntax tree.
pub fn lex(source_code: &str) -> (tokens: Vec<char>)
    ensures
        tokens@ == source_code@,
{
    let mut tokens: Vec<char> = Vec::new();
    for c in it: source_code.chars()
        invariant
            it.seq() == source_code@,
            tokens@ == it.seq().take(it.index()),
    {
        tokens.push(c);
    }
    tokens
}

} // verus!
