//! Random identifiers.

use vstd::prelude::*;
use vstd::string::*;

use crate::text::{starts_with, text_without, without};

verus! {

/// A lower-case hexadecimal digit.
pub open spec fn is_hex(c: char) -> bool {
    '0' <= c <= '9' || 'a' <= c <= 'f'
}

/// The places of the hyphens in the text of an identifier.
pub open spec fn is_hyphen_place(i: int) -> bool {
    i == 8 || i == 13 || i == 18 || i == 23
}

/// The text of a random (version 4) identifier: groups of 8, 4, 4, 4 and 12
/// lower-case hexadecimal digits between hyphens, with the digits that tell
/// the version and the variant.
pub open spec fn is_uuid(text: Seq<char>) -> bool {
    &&& text.len() == 36
    &&& forall|i: int|
        0 <= i < 36 ==> if is_hyphen_place(i) {
            #[trigger] text[i] == '-'
        } else {
            is_hex(text[i])
        }
    &&& text[14] == '4'
    &&& text[19] == '8' || text[19] == '9' || text[19] == 'a' || text[19] == 'b'
}

/// `uuid::Uuid::new_v4` as text: a random identifier in its hyphenated form.
/// Which one it is depends on the operating system's random numbers, so only
/// the form is stated. The call panics where the system gives none.
#[verifier::external_body]
pub(crate) fn new_uuid() -> (id: String)
    ensures
        is_uuid(id@),
{
    uuid::Uuid::new_v4().to_string()
}

/// The API key made from an identifier: `rc-` and its digits.
pub open spec fn api_key_text(id: Seq<char>) -> Seq<char> {
    "rc-"@ + without(id, '-')
}

/// The API key made from an identifier.
pub fn api_key_from(id: &str) -> (key: String)
    ensures
        key@ == api_key_text(id@),
{
    let mut key: String = "rc-".to_owned();
    let digits: String = text_without(id, '-');
    key.append(digits.as_str());
    key
}

/// How many hyphens stand before a place.
spec fn hyphens_before(place: int) -> int {
    (if place > 8 {
        1int
    } else {
        0
    }) + (if place > 13 {
        1int
    } else {
        0
    }) + (if place > 18 {
        1int
    } else {
        0
    }) + (if place > 23 {
        1int
    } else {
        0
    })
}

proof fn lemma_digits(id: Seq<char>, place: int)
    requires
        is_uuid(id),
        0 <= place <= 36,
    ensures
        without(id.take(place), '-').len() == place - hyphens_before(place),
        forall|i: int|
            0 <= i < without(id.take(place), '-').len() ==> is_hex(
                #[trigger] without(id.take(place), '-')[i],
            ),
    decreases place,
{
    reveal(Seq::filter);
    if place > 0 {
        lemma_digits(id, place - 1);
        assert(id.take(place).drop_last() =~= id.take(place - 1));
        assert(id.take(place).last() == id[place - 1]);
    }
}

/// Every key made has one form: `rc-` and 32 hexadecimal digits.
pub proof fn law_api_key_form(id: Seq<char>)
    requires
        is_uuid(id),
    ensures
        starts_with(api_key_text(id), "rc-"@),
        api_key_text(id).len() == 35,
        forall|i: int| 3 <= i < 35 ==> is_hex(#[trigger] api_key_text(id)[i]),
{
    reveal_strlit("rc-");
    assert(id.take(36) =~= id);
    lemma_digits(id, 36);
    assert(api_key_text(id).subrange(0, 3) =~= "rc-"@);
    assert forall|i: int| 3 <= i < 35 implies is_hex(#[trigger] api_key_text(id)[i]) by {
        assert(api_key_text(id)[i] == without(id.take(36), '-')[i - 3]);
    }
}

} // verus!
