//! The library's general guarantees, stated once over the specification
//! functions that the executable contracts use, and proved here.

use vstd::prelude::*;
use vstd::string::StringSliceAdditionalSpecFns;
use vstd::string::is_ascii;
use crate::json::JsonSpec;
use crate::parse::spec_parse_json;
use crate::event::Field;
use crate::event::DecodeError;
use crate::event::EventSpec;
use crate::event::field_name;
use crate::event::spec_str_field;
use crate::event::spec_decode;
use crate::event::spec_decode_obj;
use crate::event::spec_decode_payload;
use crate::response::ResponseSpec;
use crate::response::ResponseType;
use crate::response::response_members;
use crate::response::response_json;
use crate::response::spec_body;
use crate::response::status_text;
use crate::response::data_members;

verus! {

/// The lengths and leading characters of the member keys, fixed once so
/// that the key-absence laws below can tell them apart.
proof fn lemma_key_shapes()
    ensures
        "Status".spec_bytes().len() == 6,
        "Reason".spec_bytes().len() == 6,
        "PhysicalResourceId".spec_bytes().len() == 18,
        "StackId".spec_bytes().len() == 7,
        "RequestId".spec_bytes().len() == 9,
        "LogicalResourceId".spec_bytes().len() == 17,
        "NoEcho".spec_bytes().len() == 6,
        "Data".spec_bytes().len() == 4,
        "ResponseURL".spec_bytes().len() == 11,
        "Status".spec_bytes()[0] == 83,
        "Reason".spec_bytes()[0] == 82,
        "NoEcho".spec_bytes()[0] == 78,
{
    reveal_strlit("Status");
    reveal_strlit("Reason");
    reveal_strlit("PhysicalResourceId");
    reveal_strlit("StackId");
    reveal_strlit("RequestId");
    reveal_strlit("LogicalResourceId");
    reveal_strlit("NoEcho");
    reveal_strlit("Data");
    reveal_strlit("ResponseURL");
    broadcast use vstd::string::is_ascii_spec_bytes;

    assert(is_ascii("Status"));
    assert(is_ascii("Reason"));
    assert(is_ascii("PhysicalResourceId"));
    assert(is_ascii("StackId"));
    assert(is_ascii("RequestId"));
    assert(is_ascii("LogicalResourceId"));
    assert(is_ascii("NoEcho"));
    assert(is_ascii("Data"));
    assert(is_ascii("ResponseURL"));
}

/// The decoded variant is the `RequestType` string: a document whose
/// request type reads `Create`, `Update` or `Delete` decodes, if at all,
/// into that variant, and one with any other request type is rejected.
pub proof fn lemma_variant_discrimination(
    s: Seq<u8>,
    ps: Seq<(Seq<u8>, JsonSpec)>,
    rt: Seq<u8>,
)
    requires
        spec_parse_json(s) == Some(JsonSpec::Obj(ps)),
        spec_str_field(ps, field_name(Field::RequestType), Field::RequestType) == Ok::<
            Seq<u8>,
            DecodeError,
        >(rt),
    ensures
        rt == "Create".spec_bytes() ==> (spec_decode(s) matches Ok(ev) ==> ev is Create),
        rt == "Update".spec_bytes() ==> (spec_decode(s) matches Ok(ev) ==> ev is Update),
        rt == "Delete".spec_bytes() ==> (spec_decode(s) matches Ok(ev) ==> ev is Delete),
        rt != "Create".spec_bytes() && rt != "Update".spec_bytes() && rt
            != "Delete".spec_bytes() ==> spec_decode(s) == Err::<
            EventSpec,
            DecodeError,
        >(DecodeError::BadRequestType),
{
    reveal_strlit("Create");
    reveal_strlit("Update");
    reveal_strlit("Delete");
    broadcast use vstd::string::is_ascii_spec_bytes;

    assert(is_ascii("Create"));
    assert(is_ascii("Update"));
    assert(is_ascii("Delete"));
    assert("Create".spec_bytes()[0] == 67);
    assert("Update".spec_bytes()[0] == 85);
    assert("Delete".spec_bytes()[0] == 68);
}

/// A response without inserted data serializes without a `Data` member;
/// one with inserted data carries them, exactly and last, as an object of
/// strings.
pub proof fn lemma_data_omission(r: ResponseSpec)
    ensures
        r.data is None ==> forall|i: int|
            0 <= i < response_members(r).len() ==> (#[trigger] response_members(r)[i]).0
                != "Data".spec_bytes(),
        r.data matches Some(d) ==> response_members(r).last() == (
            "Data".spec_bytes(),
            JsonSpec::Obj(data_members(d)),
        ),
{
    lemma_key_shapes();
}

/// A response with `NoEcho` unset serializes without a `NoEcho` member;
/// setting it puts the member, with the last value written, in the body.
pub proof fn lemma_no_echo_omission(r: ResponseSpec)
    ensures
        r.no_echo is None ==> forall|i: int|
            0 <= i < response_members(r).len() ==> (#[trigger] response_members(r)[i]).0
                != "NoEcho".spec_bytes(),
        r.no_echo matches Some(b) ==> response_members(r)[6] == (
            "NoEcho".spec_bytes(),
            JsonSpec::Bool(b),
        ),
{
    lemma_key_shapes();
}

/// The status member is the first member and holds literally `SUCCESS` on
/// success and `FAILED` on failure.
pub proof fn lemma_status_serialization(r: ResponseSpec)
    ensures
        response_members(r)[0] == ("Status".spec_bytes(), JsonSpec::Str(status_text(r.status))),
        r.status == ResponseType::Success ==> status_text(r.status) == "SUCCESS".spec_bytes(),
        r.status == ResponseType::Failed ==> status_text(r.status) == "FAILED".spec_bytes(),
{
}

/// The response URL is never leaked into the body: no member is keyed
/// `ResponseURL`, and two responses that differ only in their response URL
/// serialize to the same bytes.
pub proof fn lemma_response_url_not_leaked(a: ResponseSpec, b: ResponseSpec)
    requires
        a == (ResponseSpec { response_url: a.response_url, ..b }),
    ensures
        spec_body(a) == spec_body(b),
        forall|i: int|
            0 <= i < response_members(a).len() ==> (#[trigger] response_members(a)[i]).0
                != "ResponseURL".spec_bytes(),
{
    lemma_key_shapes();
    assert(response_members(a) == response_members(b));
    assert(response_json(a) == response_json(b));
}

} // verus!
