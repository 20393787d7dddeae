//! The lifecycle event CloudFormation sends to a custom-resource handler:
//! the common payload fields, the Create/Update/Delete envelope, and the
//! decoder from raw JSON bytes.

use vstd::prelude::*;
use vstd::string::StringSliceAdditionalSpecFns;
use crate::json::JsonSpec;
use crate::json::JsonValue;
use crate::json::members_view;
use crate::json::lemma_members_view_len;
use crate::json::lemma_members_view_index;
use crate::parse::spec_parse_json;
use crate::parse::parse_json;
use crate::uuid_text::Uuid;
use crate::uuid_text::spec_norm_uuid;
use crate::uuid_text::uuid_wf;

verus! {

/// Which inbound field an error speaks of.
#[derive(Clone, Copy, PartialEq, Eq, Structural, Debug)]
pub enum Field {
    RequestType,
    RequestId,
    ResponseUrl,
    ResourceType,
    LogicalResourceId,
    StackId,
    PhysicalResourceId,
    ResourceProperties,
}

/// Why decoding an inbound document failed.
#[derive(Clone, Copy, PartialEq, Eq, Structural, Debug)]
pub enum DecodeError {
    /// The bytes are not a JSON document.
    MalformedJson,
    /// The document is not a JSON object.
    NotAnObject,
    /// A required field is absent.
    MissingField(Field),
    /// A field appears more than once.
    DuplicateField(Field),
    /// A field that must hold a string holds something else.
    NotAString(Field),
    /// The request type is none of Create, Update and Delete.
    BadRequestType,
    /// The physical resource id is not hyphenated UUID text.
    BadPhysicalResourceId,
}

/// The JSON key of an inbound field.
pub open spec fn field_name(f: Field) -> Seq<u8> {
    match f {
        Field::RequestType => "RequestType".spec_bytes(),
        Field::RequestId => "RequestId".spec_bytes(),
        Field::ResponseUrl => "ResponseURL".spec_bytes(),
        Field::ResourceType => "ResourceType".spec_bytes(),
        Field::LogicalResourceId => "LogicalResourceId".spec_bytes(),
        Field::StackId => "StackId".spec_bytes(),
        Field::PhysicalResourceId => "PhysicalResourceId".spec_bytes(),
        Field::ResourceProperties => "ResourceProperties".spec_bytes(),
    }
}

/// The common fields of an inbound event, generic over the caller-defined
/// shape of the resource properties.
#[derive(Debug)]
pub struct CloudformationPayload<T> {
    /// Unique id of this request.
    pub request_id: Vec<u8>,
    /// The presigned URL the response document must be uploaded to.
    pub response_url: Vec<u8>,
    /// The template developer-chosen resource type.
    pub resource_type: Vec<u8>,
    /// The logical name of the resource in the template.
    pub logical_resource_id: Vec<u8>,
    /// The ARN of the stack that holds the resource.
    pub stack_id: Vec<u8>,
    /// Absent on Create; present on Update and Delete.
    pub physical_resource_id: Option<Uuid>,
    /// The caller-defined properties.
    pub resource_properties: T,
}

/// An inbound event: the request type together with the payload.
#[derive(Debug)]
pub enum CustomResourceEvent<T> {
    /// The resource is being created.
    Create(CloudformationPayload<T>),
    /// The resource is being updated.
    Update(CloudformationPayload<T>),
    /// The resource is being deleted.
    Delete(CloudformationPayload<T>),
}

/// Mathematical model of a decoded payload.
pub struct PayloadSpec {
    pub request_id: Seq<u8>,
    pub response_url: Seq<u8>,
    pub resource_type: Seq<u8>,
    pub logical_resource_id: Seq<u8>,
    pub stack_id: Seq<u8>,
    pub physical_resource_id: Option<Seq<u8>>,
    pub resource_properties: JsonSpec,
}

/// Mathematical model of a decoded event.
pub enum EventSpec {
    Create(PayloadSpec),
    Update(PayloadSpec),
    Delete(PayloadSpec),
}

impl<T> CloudformationPayload<T> {
    /// The held physical resource id, if any, is canonical UUID text.
    pub open spec fn pid_wf(&self) -> bool {
        match self.physical_resource_id {
            Some(u) => u.wf(),
            None => true,
        }
    }
}

impl CloudformationPayload<JsonValue> {
    /// The model of a decoded payload.
    pub open spec fn model(&self) -> PayloadSpec {
        PayloadSpec {
            request_id: self.request_id@,
            response_url: self.response_url@,
            resource_type: self.resource_type@,
            logical_resource_id: self.logical_resource_id@,
            stack_id: self.stack_id@,
            physical_resource_id: match self.physical_resource_id {
                Some(u) => Some(u.text@),
                None => None,
            },
            resource_properties: self.resource_properties@,
        }
    }
}

impl CustomResourceEvent<JsonValue> {
    /// The model of a decoded event.
    pub open spec fn model(&self) -> EventSpec {
        match self {
            CustomResourceEvent::Create(p) => EventSpec::Create(p.model()),
            CustomResourceEvent::Update(p) => EventSpec::Update(p.model()),
            CustomResourceEvent::Delete(p) => EventSpec::Delete(p.model()),
        }
    }

    /// The held physical resource id, if any, is canonical UUID text.
    pub open spec fn pid_wf(&self) -> bool {
        match self {
            CustomResourceEvent::Create(p) => p.pid_wf(),
            CustomResourceEvent::Update(p) => p.pid_wf(),
            CustomResourceEvent::Delete(p) => p.pid_wf(),
        }
    }
}

/// Some key occurs at two different positions.
pub open spec fn has_dup_key(ps: Seq<(Seq<u8>, JsonSpec)>, name: Seq<u8>) -> bool {
    exists|i: int, j: int|
        0 <= i < j < ps.len() && (#[trigger] ps[i]).0 == name && (#[trigger] ps[j]).0 == name
}

/// The key occurs somewhere.
pub open spec fn has_key(ps: Seq<(Seq<u8>, JsonSpec)>, name: Seq<u8>) -> bool {
    exists|i: int| 0 <= i < ps.len() && (#[trigger] ps[i]).0 == name
}

/// A position at which the key occurs.
pub open spec fn key_index(ps: Seq<(Seq<u8>, JsonSpec)>, name: Seq<u8>) -> int {
    choose|i: int| 0 <= i < ps.len() && (#[trigger] ps[i]).0 == name
}

/// Looks a field up: an error if the key is repeated, its value if it
/// occurs once, nothing if it is absent.
pub open spec fn spec_field(ps: Seq<(Seq<u8>, JsonSpec)>, name: Seq<u8>, f: Field) -> Result<
    Option<JsonSpec>,
    DecodeError,
> {
    if has_dup_key(ps, name) {
        Err(DecodeError::DuplicateField(f))
    } else if has_key(ps, name) {
        Ok(Some(ps[key_index(ps, name)].1))
    } else {
        Ok(None)
    }
}

/// Looks a required string field up.
pub open spec fn spec_str_field(ps: Seq<(Seq<u8>, JsonSpec)>, name: Seq<u8>, f: Field) -> Result<
    Seq<u8>,
    DecodeError,
> {
    match spec_field(ps, name, f) {
        Err(e) => Err(e),
        Ok(None) => Err(DecodeError::MissingField(f)),
        Ok(Some(v)) => match v {
            JsonSpec::Str(t) => Ok(t),
            _ => Err(DecodeError::NotAString(f)),
        },
    }
}

/// Decodes the payload fields out of the members of the inbound object.
pub open spec fn spec_decode_payload(ps: Seq<(Seq<u8>, JsonSpec)>) -> Result<
    PayloadSpec,
    DecodeError,
> {
    match spec_str_field(ps, field_name(Field::RequestId), Field::RequestId) {
        Err(e) => Err(e),
        Ok(request_id) => match spec_str_field(ps, field_name(Field::ResponseUrl), Field::ResponseUrl) {
            Err(e) => Err(e),
            Ok(response_url) => match spec_str_field(
                ps,
                field_name(Field::ResourceType),
                Field::ResourceType,
            ) {
                Err(e) => Err(e),
                Ok(resource_type) => match spec_str_field(
                    ps,
                    field_name(Field::LogicalResourceId),
                    Field::LogicalResourceId,
                ) {
                    Err(e) => Err(e),
                    Ok(logical_resource_id) => match spec_str_field(
                        ps,
                        field_name(Field::StackId),
                        Field::StackId,
                    ) {
                        Err(e) => Err(e),
                        Ok(stack_id) => match spec_field(
                            ps,
                            field_name(Field::PhysicalResourceId),
                            Field::PhysicalResourceId,
                        ) {
                            Err(e) => Err(e),
                            Ok(pid_field) => {
                                let pid = match pid_field {
                                    None => Ok(None),
                                    Some(v) => match v {
                                        JsonSpec::Str(t) => match spec_norm_uuid(t) {
                                            Some(n) => Ok(Some(n)),
                                            None => Err(DecodeError::BadPhysicalResourceId),
                                        },
                                        _ => Err(
                                            DecodeError::NotAString(Field::PhysicalResourceId),
                                        ),
                                    },
                                };
                                match pid {
                                    Err(e) => Err(e),
                                    Ok(physical_resource_id) => match spec_field(
                                        ps,
                                        field_name(Field::ResourceProperties),
                                        Field::ResourceProperties,
                                    ) {
                                        Err(e) => Err(e),
                                        Ok(None) => Err(
                                            DecodeError::MissingField(Field::ResourceProperties),
                                        ),
                                        Ok(Some(props)) => Ok(
                                            PayloadSpec {
                                                request_id,
                                                response_url,
                                                resource_type,
                                                logical_resource_id,
                                                stack_id,
                                                physical_resource_id,
                                                resource_properties: props,
                                            },
                                        ),
                                    },
                                }
                            },
                        },
                    },
                },
            },
        },
    }
}

/// Decodes an event out of the members of the inbound object: the request
/// type picks the variant, any other value is rejected.
pub open spec fn spec_decode_obj(ps: Seq<(Seq<u8>, JsonSpec)>) -> Result<
    EventSpec,
    DecodeError,
> {
    match spec_str_field(ps, field_name(Field::RequestType), Field::RequestType) {
        Err(e) => Err(e),
        Ok(rt) => {
            if rt == "Create".spec_bytes() || rt == "Update".spec_bytes() || rt
                == "Delete".spec_bytes() {
                match spec_decode_payload(ps) {
                    Err(e) => Err(e),
                    Ok(p) => if rt == "Create".spec_bytes() {
                        Ok(EventSpec::Create(p))
                    } else if rt == "Update".spec_bytes() {
                        Ok(EventSpec::Update(p))
                    } else {
                        Ok(EventSpec::Delete(p))
                    },
                }
            } else {
                Err(DecodeError::BadRequestType)
            }
        },
    }
}

/// Decodes an inbound document: what `decode_event` returns on every input.
pub open spec fn spec_decode(s: Seq<u8>) -> Result<EventSpec, DecodeError> {
    match spec_parse_json(s) {
        None => Err(DecodeError::MalformedJson),
        Some(doc) => match doc {
            JsonSpec::Obj(ps) => spec_decode_obj(ps),
            _ => Err(DecodeError::NotAnObject),
        },
    }
}

/// Reports whether two byte strings hold the same bytes.
#[verifier::loop_isolation(false)]
pub fn bytes_eq(a: &[u8], b: &[u8]) -> (r: bool)
    ensures
        r == (a@ == b@),
{
    if a.len() != b.len() {
        proof {
            assert(a@.len() != b@.len());
        }
        return false;
    }
    let mut i: usize = 0;
    while i < a.len()
        invariant
            i <= a.len(),
            a@.len() == b@.len(),
            forall|k: int| 0 <= k < i ==> a@[k] == #[trigger] b@[k],
        decreases a.len() - i,
    {
        if a[i] != b[i] {
            return false;
        }
        i += 1;
    }
    proof {
        assert(a@ =~= b@);
    }
    true
}

/// Where a key was found in a member list.
enum Lookup {
    /// The key is absent.
    Missing,
    /// The key occurs exactly once, at this position.
    At(usize),
    /// The key occurs more than once.
    Twice,
}

/// Finds the unique position of a key, or reports its absence or
/// repetition.
#[verifier::loop_isolation(false)]
fn find_field(ps: &Vec<(Vec<u8>, JsonValue)>, name: &[u8]) -> (r: Lookup)
    ensures
        match r {
            Lookup::Twice => has_dup_key(members_view(ps@), name@),
            Lookup::At(ix) => {
                &&& ix < ps@.len()
                &&& !has_dup_key(members_view(ps@), name@)
                &&& has_key(members_view(ps@), name@)
                &&& key_index(members_view(ps@), name@) == ix as int
                &&& members_view(ps@)[ix as int].1 == ps@[ix as int].1@
            },
            Lookup::Missing => !has_dup_key(members_view(ps@), name@) && !has_key(
                members_view(ps@),
                name@,
            ),
        },
{
    proof {
        lemma_members_view_len(ps@);
        assert forall|k: int| 0 <= k < ps@.len() implies #[trigger] members_view(ps@)[k] == (
            ps@[k].0@,
            ps@[k].1@,
        ) by {
            lemma_members_view_index(ps@, k);
        }
    }
    let ghost vm = members_view(ps@);
    let mut found: Option<usize> = None;
    let mut i: usize = 0;
    while i < ps.len()
        invariant
            i <= ps@.len(),
            match found {
                None => forall|k: int| 0 <= k < i ==> (#[trigger] vm[k]).0 != name@,
                Some(ix) => {
                    &&& ix < i
                    &&& vm[ix as int].0 == name@
                    &&& forall|k: int|
                        0 <= k < i && k != ix ==> (#[trigger] vm[k]).0 != name@
                },
            },
        decreases ps@.len() - i,
    {
        if bytes_eq(ps[i].0.as_slice(), name) {
            match found {
                Some(ix) => {
                    proof {
                        assert(vm[ix as int].0 == name@ && vm[i as int].0 == name@ && (
                        ix as int) < i as int);
                    }
                    return Lookup::Twice;
                },
                None => {
                    found = Some(i);
                },
            }
        }
        i += 1;
    }
    match found {
        None => {
            proof {
                assert(!has_key(vm, name@));
                assert(!has_dup_key(vm, name@));
            }
            Lookup::Missing
        },
        Some(ix) => {
            proof {
                assert(!has_dup_key(vm, name@)) by {
                    if has_dup_key(vm, name@) {
                        let (a, b) = choose|a: int, b: int|
                            0 <= a < b < vm.len() && (#[trigger] vm[a]).0 == name@ && (
                            #[trigger] vm[b]).0 == name@;
                        assert(a == ix as int && b == ix as int);
                    }
                }
                assert(has_key(vm, name@));
                let ki = key_index(vm, name@);
                assert(0 <= ki < vm.len() && vm[ki].0 == name@);
                assert(ki == ix as int);
            }
            Lookup::At(ix)
        },
    }
}

/// Looks a required string field up, as `spec_str_field` says.
fn get_str_field(ps: &Vec<(Vec<u8>, JsonValue)>, name: &[u8], f: Field) -> (r: Result<
    Vec<u8>,
    DecodeError,
>)
    ensures
        match r {
            Ok(t) => spec_str_field(members_view(ps@), name@, f) == Ok::<
                Seq<u8>,
                DecodeError,
            >(t@),
            Err(e) => spec_str_field(members_view(ps@), name@, f) == Err::<
                Seq<u8>,
                DecodeError,
            >(e),
        },
{
    match find_field(ps, name) {
        Lookup::Twice => Err(DecodeError::DuplicateField(f)),
        Lookup::Missing => Err(DecodeError::MissingField(f)),
        Lookup::At(ix) => {
            match &ps[ix].1 {
                JsonValue::Str(t) => Ok(vstd::slice::slice_to_vec(t.as_slice())),
                _ => Err(DecodeError::NotAString(f)),
            }
        },
    }
}

/// Decodes an inbound document into an event whose resource properties are
/// the raw decoded JSON value, exactly as `spec_decode` says. A caller with
/// a fixed property shape reads it out of that value.
pub fn decode_event(s: &[u8]) -> (r: Result<CustomResourceEvent<JsonValue>, DecodeError>)
    ensures
        match r {
            Ok(ev) => spec_decode(s@) == Ok::<EventSpec, DecodeError>(ev.model())
                && ev.pid_wf(),
            Err(e) => spec_decode(s@) == Err::<EventSpec, DecodeError>(e),
        },
{
    let doc = match parse_json(s) {
        None => {
            return Err(DecodeError::MalformedJson);
        },
        Some(v) => v,
    };
    let pairs = match doc {
        JsonValue::Obj(ps) => ps,
        _ => {
            return Err(DecodeError::NotAnObject);
        },
    };
    let ghost vm = members_view(pairs@);
    let rt = match get_str_field(&pairs, "RequestType".as_bytes(), Field::RequestType) {
        Ok(t) => t,
        Err(e) => {
            return Err(e);
        },
    };
    let is_create = bytes_eq(rt.as_slice(), "Create".as_bytes());
    let is_update = bytes_eq(rt.as_slice(), "Update".as_bytes());
    let is_delete = bytes_eq(rt.as_slice(), "Delete".as_bytes());
    if !(is_create || is_update || is_delete) {
        return Err(DecodeError::BadRequestType);
    }
    let request_id = match get_str_field(&pairs, "RequestId".as_bytes(), Field::RequestId) {
        Ok(t) => t,
        Err(e) => {
            return Err(e);
        },
    };
    let response_url = match get_str_field(&pairs, "ResponseURL".as_bytes(), Field::ResponseUrl) {
        Ok(t) => t,
        Err(e) => {
            return Err(e);
        },
    };
    let resource_type = match get_str_field(
        &pairs,
        "ResourceType".as_bytes(),
        Field::ResourceType,
    ) {
        Ok(t) => t,
        Err(e) => {
            return Err(e);
        },
    };
    let logical_resource_id = match get_str_field(
        &pairs,
        "LogicalResourceId".as_bytes(),
        Field::LogicalResourceId,
    ) {
        Ok(t) => t,
        Err(e) => {
            return Err(e);
        },
    };
    let stack_id = match get_str_field(&pairs, "StackId".as_bytes(), Field::StackId) {
        Ok(t) => t,
        Err(e) => {
            return Err(e);
        },
    };
    let physical_resource_id: Option<Uuid> = match find_field(
        &pairs,
        "PhysicalResourceId".as_bytes(),
    ) {
        Lookup::Twice => {
            return Err(DecodeError::DuplicateField(Field::PhysicalResourceId));
        },
        Lookup::Missing => None,
        Lookup::At(ix) => {
            match &pairs[ix].1 {
                JsonValue::Str(t) => {
                    match Uuid::parse(t.as_slice()) {
                        Some(u) => Some(u),
                        None => {
                            return Err(DecodeError::BadPhysicalResourceId);
                        },
                    }
                },
                _ => {
                    return Err(DecodeError::NotAString(Field::PhysicalResourceId));
                },
            }
        },
    };
    let mut pairs = pairs;
    let resource_properties: JsonValue = match find_field(
        &pairs,
        "ResourceProperties".as_bytes(),
    ) {
        Lookup::Twice => {
            return Err(DecodeError::DuplicateField(Field::ResourceProperties));
        },
        Lookup::Missing => {
            return Err(DecodeError::MissingField(Field::ResourceProperties));
        },
        Lookup::At(ix) => {
            let member = pairs.remove(ix);
            member.1
        },
    };
    let payload = CloudformationPayload {
        request_id,
        response_url,
        resource_type,
        logical_resource_id,
        stack_id,
        physical_resource_id,
        resource_properties,
    };
    if is_create {
        Ok(CustomResourceEvent::Create(payload))
    } else if is_update {
        Ok(CustomResourceEvent::Update(payload))
    } else {
        Ok(CustomResourceEvent::Delete(payload))
    }
}

} // verus!
