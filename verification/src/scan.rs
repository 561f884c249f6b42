//! The three scanners the grammar is built from. Each is one parser of `nom`,
//! applied to a string slice; its contract is taken on trust.

use vstd::prelude::*;

verus! {

/// `nom::Err`: how a parser of `nom` fails. Nothing is read from it.
#[verifier::external_type_specification]
#[verifier::external_body]
#[verifier::reject_recursive_types(E)]
pub struct ExErr<E>(nom::Err<E>);

/// `nom::error::Error`: where and at what a parser of `nom` failed. Nothing
/// is read from it.
#[verifier::external_type_specification]
#[verifier::external_body]
#[verifier::reject_recursive_types(I)]
pub struct ExError<I>(nom::error::Error<I>);

/// An ASCII decimal digit.
pub open spec fn is_digit(c: char) -> bool {
    '0' <= c <= '9'
}

/// `nom::character::complete::digit1`: splits off the longest run of ASCII
/// digits that `input` starts with. The run comes second in the pair, what
/// follows it first. It fails when `input` does not start with a digit.
#[verifier::external_body]
pub(crate) fn digit1<'a>(input: &'a str) -> (r: Result<
    (&'a str, &'a str),
    nom::Err<nom::error::Error<&'a str>>,
>)
    ensures
        match r {
            Ok((rest, digits)) => {
                &&& digits@.len() > 0
                &&& input@ == digits@ + rest@
                &&& forall|i: int| 0 <= i < digits@.len() ==> is_digit(#[trigger] digits@[i])
                &&& rest@.len() > 0 ==> !is_digit(rest@[0])
            },
            Err(_) => input@.len() > 0 ==> !is_digit(input@[0]),
        },
{
    nom::character::complete::digit1(input)
}

/// `nom::character::complete::one_of`: takes the first character of `input`
/// if it occurs in `list`, and returns it with what follows it. It fails
/// when `input` is empty or starts with another character.
#[verifier::external_body]
pub(crate) fn one_of<'a>(list: &str, input: &'a str) -> (r: Result<
    (&'a str, char),
    nom::Err<nom::error::Error<&'a str>>,
>)
    ensures
        match r {
            Ok((rest, c)) => {
                &&& input@.len() > 0
                &&& c == input@[0]
                &&& list@.contains(c)
                &&& rest@ == input@.skip(1)
            },
            Err(_) => input@.len() > 0 ==> !list@.contains(input@[0]),
        },
{
    nom::character::complete::one_of(list)(input)
}

/// `nom::bytes::complete::tag`: splits `pattern` off the front of `input`.
/// What follows the pattern comes first in the pair, the matched text
/// second. It fails when `input` does not start with `pattern`.
#[verifier::external_body]
pub(crate) fn tag<'a>(pattern: &str, input: &'a str) -> (r: Result<
    (&'a str, &'a str),
    nom::Err<nom::error::Error<&'a str>>,
>)
    ensures
        match r {
            Ok((rest, found)) => {
                &&& found@ == pattern@
                &&& input@ == pattern@ + rest@
            },
            Err(_) => !pattern@.is_prefix_of(input@),
        },
{
    nom::bytes::complete::tag(pattern)(input)
}

} // verus!
