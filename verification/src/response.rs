//! The response that a transition hands back to the host: the host's own
//! `Response` type, filled attribute by attribute.

use vstd::prelude::*;

verus! {

/// `cosmwasm_std::Empty`, the message type of a response that sends no
/// custom message. Nothing is claimed of its values.
#[verifier::external_type_specification]
#[verifier::external_body]
pub struct ExEmpty(cosmwasm_std::Empty);

/// `cosmwasm_std::Response`, carried as an opaque value. What is known of
/// one is what `response_attributes` and `response_has_extras` say.
#[verifier::external_type_specification]
#[verifier::external_body]
#[verifier::reject_recursive_types(T)]
pub struct ExResponse<T>(cosmwasm_std::Response<T>);

/// The attributes that a response carries, in the order in which they were
/// added, each as a pair of key and value.
pub uninterp spec fn response_attributes(
    r: cosmwasm_std::Response<cosmwasm_std::Empty>,
) -> Seq<(Seq<char>, Seq<char>)>;

/// Whether a response carries anything besides attributes: a message, an
/// event or a data payload.
pub uninterp spec fn response_has_extras(r: cosmwasm_std::Response<cosmwasm_std::Empty>) -> bool;

/// `cosmwasm_std::Response::new`: a response with no attributes, no
/// messages, no events and no data.
#[verifier::external_body]
pub(crate) fn empty_response() -> (r: cosmwasm_std::Response<cosmwasm_std::Empty>)
    ensures
        response_attributes(r) == Seq::<(Seq<char>, Seq<char>)>::empty(),
        !response_has_extras(r),
{
    cosmwasm_std::Response::new()
}

/// `cosmwasm_std::Response::add_attribute`: appends one attribute and
/// leaves everything else as it was. The host library refuses keys that
/// begin with an underscore, so such a key is excluded here.
#[verifier::external_body]
pub(crate) fn with_attribute(
    r: cosmwasm_std::Response<cosmwasm_std::Empty>,
    key: &str,
    value: &str,
) -> (out: cosmwasm_std::Response<cosmwasm_std::Empty>)
    requires
        key@.len() == 0 || key@[0] != '_',
    ensures
        response_attributes(out) == response_attributes(r).push((key@, value@)),
        response_has_extras(out) == response_has_extras(r),
{
    r.add_attribute(key, value)
}

} // verus!
