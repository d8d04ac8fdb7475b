//! The JSON encoder of the `serde_json` crate, as far as the JSON output
//! needs it. The encoder's contract is taken on trust from that crate's
//! source.

use std::collections::HashMap;
use vstd::prelude::*;

verus! {

/// The error of `serde_json::to_string`. Nothing is read from it, and the
/// encoder returns none for what this library hands it.
#[verifier::external_type_specification]
#[verifier::external_body]
pub struct ExJsonError(serde_json::Error);

/// The text that `serde_json` writes for a list of objects with string
/// members, where it walks the members of each object in the order listed.
pub uninterp spec fn json_list(objects: Seq<Seq<(Seq<char>, Seq<char>)>>) -> Seq<char>;

/// The members of an object, as pairs of texts.
pub open spec fn member_texts(members: Seq<(String, String)>) -> Seq<(Seq<char>, Seq<char>)> {
    members.map_values(|member: (String, String)| (member.0@, member.1@))
}

/// The objects of a list, each as the texts of its members.
pub open spec fn object_texts(objects: Seq<Vec<(String, String)>>) -> Seq<
    Seq<(Seq<char>, Seq<char>)>,
> {
    objects.map_values(|members: Vec<(String, String)>| member_texts(members@))
}

/// No two members have the same name.
pub open spec fn distinct_names(members: Seq<(String, String)>) -> bool {
    forall|i: int, j: int|
        0 <= i < j < members.len() ==> (#[trigger] members[i]).0@ != (#[trigger] members[j]).0@
}

/// `walked` holds the objects of `objects` in their order, each with its
/// members in some order.
pub open spec fn walks(
    walked: Seq<Seq<(Seq<char>, Seq<char>)>>,
    objects: Seq<Seq<(Seq<char>, Seq<char>)>>,
) -> bool {
    &&& walked.len() == objects.len()
    &&& forall|i: int|
        0 <= i < objects.len() ==> (#[trigger] walked[i]).to_multiset()
            == objects[i].to_multiset()
}

/// Calls `serde_json::to_string` on a list of `HashMap<String, String>`, one
/// for each object; the names within an object must differ, so that the hash
/// map holds every member.
///
/// The call succeeds: the encoder fails only where its writer fails or a
/// key is no string, and here it writes into memory and every key is a
/// `String`. The order in which a hash map hands out its members is not
/// fixed, so of the text the contract says that it is the one written for
/// some order of the members of each object.
#[verifier::external_body]
pub(crate) fn json_string(objects: &Vec<Vec<(String, String)>>) -> (r: Result<
    String,
    serde_json::Error,
>)
    requires
        forall|i: int| 0 <= i < objects.len() ==> distinct_names(#[trigger] objects[i]@),
    ensures
        r is Ok,
        r matches Ok(text) ==> exists|walked: Seq<Seq<(Seq<char>, Seq<char>)>>|
            walks(walked, object_texts(objects@)) && #[trigger] json_list(walked) == text@,
{
    let maps: Vec<HashMap<String, String>> = objects.iter().map(
        |members| members.iter().cloned().collect(),
    ).collect();
    serde_json::to_string(&maps)
}

} // verus!
