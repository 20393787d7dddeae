//! The response document a handler uploads when it is done: a builder
//! seeded from the inbound payload, optional enrichment, and the exact
//! JSON body that goes onto the wire.

use vstd::prelude::*;
use vstd::map::*;
use vstd::string::StringSliceAdditionalSpecFns;
use crate::json::JsonSpec;
use crate::json::JsonValue;
use crate::json::members_view;
use crate::json::spec_encode;
use crate::json::encode_json;
use crate::json::lemma_members_view_len;
use crate::json::lemma_members_view_index;
use crate::event::CloudformationPayload;
use crate::uuid_text::Uuid;
use crate::uuid_text::uuid_wf;

verus! {

/// Whether the handler reports success or failure.
#[derive(Clone, Copy, PartialEq, Eq, Structural, Debug)]
pub enum ResponseType {
    /// The operation succeeded.
    Success,
    /// The operation failed.
    Failed,
}

/// The wire text of a status: literally `SUCCESS` or `FAILED`.
pub open spec fn status_text(st: ResponseType) -> Seq<u8> {
    match st {
        ResponseType::Success => "SUCCESS".spec_bytes(),
        ResponseType::Failed => "FAILED".spec_bytes(),
    }
}

/// Mathematical model of a response under construction.
pub struct ResponseSpec {
    pub status: ResponseType,
    pub reason: Seq<u8>,
    pub physical_resource_id: Seq<u8>,
    pub stack_id: Seq<u8>,
    pub request_id: Seq<u8>,
    pub logical_resource_id: Seq<u8>,
    pub no_echo: Option<bool>,
    pub data: Option<Seq<(Seq<u8>, Seq<u8>)>>,
    pub response_url: Seq<u8>,
}

/// Model of a list of data pairs.
pub open spec fn pairs_model(d: Seq<(Vec<u8>, Vec<u8>)>) -> Seq<(Seq<u8>, Seq<u8>)> {
    d.map_values(|p: (Vec<u8>, Vec<u8>)| (p.0@, p.1@))
}

/// No key occurs twice.
pub open spec fn data_keys_unique(d: Seq<(Seq<u8>, Seq<u8>)>) -> bool {
    forall|i: int, j: int|
        0 <= i < j < d.len() ==> (#[trigger] d[i]).0 != (#[trigger] d[j]).0
}

/// The data pairs as a map from key to value.
pub open spec fn data_map(d: Seq<(Seq<u8>, Seq<u8>)>) -> Map<Seq<u8>, Seq<u8>>
    decreases d.len(),
{
    if d.len() == 0 {
        Map::empty()
    } else {
        data_map(d.skip(1)).insert(d[0].0, d[0].1)
    }
}

/// Inserting a pair: an existing key keeps its place and takes the new
/// value; a new key goes to the end.
pub open spec fn spec_upsert(d: Seq<(Seq<u8>, Seq<u8>)>, k: Seq<u8>, v: Seq<u8>) -> Seq<
    (Seq<u8>, Seq<u8>),
>
    decreases d.len(),
{
    if d.len() == 0 {
        seq![(k, v)]
    } else if d[0].0 == k {
        seq![(k, v)] + d.skip(1)
    } else {
        seq![d[0]] + spec_upsert(d.skip(1), k, v)
    }
}

/// The response document under construction. The held response URL is the
/// upload target; it is never part of the serialized body.
pub struct CustomResourceResponse {
    status: ResponseType,
    reason: Vec<u8>,
    physical_resource_id: Uuid,
    stack_id: Vec<u8>,
    request_id: Vec<u8>,
    logical_resource_id: Vec<u8>,
    no_echo: Option<bool>,
    data: Option<Vec<(Vec<u8>, Vec<u8>)>>,
    response_url: Vec<u8>,
}

impl View for CustomResourceResponse {
    type V = ResponseSpec;

    closed spec fn view(&self) -> ResponseSpec {
        ResponseSpec {
            status: self.status,
            reason: self.reason@,
            physical_resource_id: self.physical_resource_id.text@,
            stack_id: self.stack_id@,
            request_id: self.request_id@,
            logical_resource_id: self.logical_resource_id@,
            no_echo: self.no_echo,
            data: match self.data {
                Some(d) => Some(pairs_model(d@)),
                None => None,
            },
            response_url: self.response_url@,
        }
    }
}

/// Data pairs as JSON object members, values as JSON strings.
pub open spec fn data_members(d: Seq<(Seq<u8>, Seq<u8>)>) -> Seq<(Seq<u8>, JsonSpec)> {
    d.map_values(|p: (Seq<u8>, Seq<u8>)| (p.0, JsonSpec::Str(p.1)))
}

/// The members of the serialized response document, in order: the six
/// fixed fields, then `NoEcho` exactly when set, then `Data` exactly when
/// set. No member carries the response URL.
pub open spec fn response_members(r: ResponseSpec) -> Seq<(Seq<u8>, JsonSpec)> {
    seq![
        ("Status".spec_bytes(), JsonSpec::Str(status_text(r.status))),
        ("Reason".spec_bytes(), JsonSpec::Str(r.reason)),
        ("PhysicalResourceId".spec_bytes(), JsonSpec::Str(r.physical_resource_id)),
        ("StackId".spec_bytes(), JsonSpec::Str(r.stack_id)),
        ("RequestId".spec_bytes(), JsonSpec::Str(r.request_id)),
        ("LogicalResourceId".spec_bytes(), JsonSpec::Str(r.logical_resource_id)),
    ] + (match r.no_echo {
        Some(b) => seq![("NoEcho".spec_bytes(), JsonSpec::Bool(b))],
        None => Seq::empty(),
    }) + (match r.data {
        Some(d) => seq![("Data".spec_bytes(), JsonSpec::Obj(data_members(d)))],
        None => Seq::empty(),
    })
}

/// The serialized response document as a JSON value.
pub open spec fn response_json(r: ResponseSpec) -> JsonSpec {
    JsonSpec::Obj(response_members(r))
}

/// The exact bytes of the serialized response body.
pub open spec fn spec_body(r: ResponseSpec) -> Seq<u8> {
    spec_encode(response_json(r))
}

/// What every constructor establishes: the given status and reason, the
/// identifying fields echoed from the payload, no optional fields set, and
/// the inbound physical id echoed, or a fresh one where none came.
pub open spec fn responds_to<T>(
    p: CloudformationPayload<T>,
    st: ResponseType,
    reason: Seq<u8>,
    r: CustomResourceResponse,
) -> bool {
    &&& r@.status == st
    &&& r@.reason == reason
    &&& r@.stack_id == p.stack_id@
    &&& r@.request_id == p.request_id@
    &&& r@.logical_resource_id == p.logical_resource_id@
    &&& r@.response_url == p.response_url@
    &&& r@.no_echo is None
    &&& r@.data is None
    &&& match p.physical_resource_id {
        Some(u) => r@.physical_resource_id == u.text@,
        None => true,
    }
    &&& p.pid_wf() ==> uuid_wf(r@.physical_resource_id)
}

impl<T> CloudformationPayload<T> {
    /// Consumes the payload into a response with status `SUCCESS` and the
    /// given reason. A payload without a physical id gets a fresh random
    /// version-4 UUID; one with a physical id has it echoed verbatim.
    pub fn respond_with_success(self, reason: &[u8]) -> (r: CustomResourceResponse)
        ensures
            responds_to(self, ResponseType::Success, reason@, r),
    {
        self.respond(ResponseType::Success, reason)
    }

    /// Consumes the payload into a response with status `FAILED` and the
    /// given reason; the physical id policy is as for success.
    pub fn respond_with_failure(self, reason: &[u8]) -> (r: CustomResourceResponse)
        ensures
            responds_to(self, ResponseType::Failed, reason@, r),
    {
        self.respond(ResponseType::Failed, reason)
    }

    /// Consumes the payload into a response that mirrors the outcome of
    /// the caller's own work: success becomes `SUCCESS` with reason
    /// `Success`, an error becomes `FAILED` with the error's text as the
    /// reason.
    pub fn respond_with<D>(self, result: Result<D, Vec<u8>>) -> (r: CustomResourceResponse)
        ensures
            match result {
                Ok(_) => responds_to(self, ResponseType::Success, "Success".spec_bytes(), r),
                Err(e) => responds_to(self, ResponseType::Failed, e@, r),
            },
    {
        match result {
            Ok(_) => self.respond_with_success("Success".as_bytes()),
            Err(e) => self.respond_with_failure(e.as_slice()),
        }
    }

    /// Builds the response shared by the constructors.
    fn respond(self, st: ResponseType, reason: &[u8]) -> (r: CustomResourceResponse)
        ensures
            responds_to(self, st, reason@, r),
    {
        let physical_resource_id = match self.physical_resource_id {
            Some(u) => u,
            None => Uuid::fresh(),
        };
        CustomResourceResponse {
            status: st,
            reason: vstd::slice::slice_to_vec(reason),
            physical_resource_id,
            stack_id: self.stack_id,
            request_id: self.request_id,
            logical_resource_id: self.logical_resource_id,
            no_echo: None,
            data: None,
            response_url: self.response_url,
        }
    }
}

impl CustomResourceResponse {
    /// The held physical id is canonical UUID text and the data keys are
    /// unique.
    pub open spec fn wf(&self) -> bool {
        &&& uuid_wf(self@.physical_resource_id)
        &&& match self@.data {
            Some(d) => data_keys_unique(d),
            None => true,
        }
    }

    /// Sets the `NoEcho` flag; the last write wins.
    pub fn set_no_echo(self, value: bool) -> (r: Self)
        ensures
            r@ == (ResponseSpec { no_echo: Some(value), ..self@ }),
    {
        let mut s = self;
        s.no_echo = Some(value);
        s
    }

    /// A copy of the held response URL: the upload target for the finished
    /// document.
    pub fn response_url(&self) -> (r: Vec<u8>)
        ensures
            r@ == self@.response_url,
    {
        vstd::slice::slice_to_vec(self.response_url.as_slice())
    }

    /// Inserts a data pair; a repeated key overwrites its value in place.
    /// The `Data` member appears in the body once the first pair is
    /// inserted.
    #[verifier::loop_isolation(false)]
    pub fn add_data(self, key: &[u8], value: &[u8]) -> (r: Self)
        ensures
            r@ == (ResponseSpec {
                data: Some(spec_upsert(stored_data(self@), key@, value@)),
                ..self@
            }),
            self.wf() ==> r.wf(),
    {
        let mut s = self;
        let ghost dm0 = stored_data(s@);
        let old_vec: Vec<(Vec<u8>, Vec<u8>)> = match s.data {
            Some(v) => v,
            None => Vec::new(),
        };
        s.data = None;
        proof {
            assert(pairs_model(Seq::<(Vec<u8>, Vec<u8>)>::empty())
                =~= Seq::<(Seq<u8>, Seq<u8>)>::empty());
            assert(pairs_model(old_vec@) == dm0);
        }
        let mut out: Vec<(Vec<u8>, Vec<u8>)> = Vec::new();
        let mut replaced = false;
        let mut i: usize = 0;
        proof {
            assert(pairs_model(out@) =~= Seq::<(Seq<u8>, Seq<u8>)>::empty());
            assert(dm0.skip(0) =~= dm0);
        }
        while i < old_vec.len()
            invariant
                i <= old_vec@.len(),
                pairs_model(old_vec@) == dm0,
                !replaced ==> spec_upsert(dm0, key@, value@) == pairs_model(out@)
                    + spec_upsert(dm0.skip(i as int), key@, value@),
                replaced ==> spec_upsert(dm0, key@, value@) == pairs_model(out@) + dm0.skip(
                    i as int,
                ),
            decreases old_vec@.len() - i,
        {
            let ghost out_before = out@;
            let ghost tail = dm0.skip(i as int);
            proof {
                assert(tail[0] == dm0[i as int]);
                assert(dm0[i as int] == (old_vec@[i as int].0@, old_vec@[i as int].1@));
                assert(tail.skip(1) =~= dm0.skip(i as int + 1));
            }
            if !replaced && crate::event::bytes_eq(old_vec[i].0.as_slice(), key) {
                out.push((
                    vstd::slice::slice_to_vec(key),
                    vstd::slice::slice_to_vec(value),
                ));
                replaced = true;
                proof {
                    assert(pairs_model(out@) =~= pairs_model(out_before).push(
                        (key@, value@),
                    ));
                    assert(spec_upsert(tail, key@, value@) == seq![(key@, value@)]
                        + tail.skip(1));
                    assert(pairs_model(out_before) + (seq![(key@, value@)] + tail.skip(1))
                        =~= pairs_model(out_before).push((key@, value@)) + dm0.skip(
                        i as int + 1,
                    ));
                }
            } else {
                out.push((
                    vstd::slice::slice_to_vec(old_vec[i].0.as_slice()),
                    vstd::slice::slice_to_vec(old_vec[i].1.as_slice()),
                ));
                proof {
                    assert(pairs_model(out@) =~= pairs_model(out_before).push(
                        tail[0],
                    ));
                    if !replaced {
                        assert(tail[0].0 != key@);
                        assert(spec_upsert(tail, key@, value@) == seq![tail[0]]
                            + spec_upsert(tail.skip(1), key@, value@));
                        assert(pairs_model(out_before) + (seq![tail[0]] + spec_upsert(
                            tail.skip(1),
                            key@,
                            value@,
                        )) =~= pairs_model(out_before).push(tail[0]) + spec_upsert(
                            dm0.skip(i as int + 1),
                            key@,
                            value@,
                        ));
                    } else {
                        assert(pairs_model(out_before) + (seq![tail[0]] + tail.skip(1))
                            =~= pairs_model(out_before).push(tail[0]) + dm0.skip(
                            i as int + 1,
                        ));
                    }
                }
            }
            i += 1;
        }
        proof {
            assert(dm0.skip(dm0.len() as int) =~= Seq::<(Seq<u8>, Seq<u8>)>::empty());
        }
        if !replaced {
            let ghost out_before = out@;
            out.push((
                vstd::slice::slice_to_vec(key),
                vstd::slice::slice_to_vec(value),
            ));
            proof {
                assert(spec_upsert(Seq::<(Seq<u8>, Seq<u8>)>::empty(), key@, value@)
                    == seq![(key@, value@)]);
                assert(pairs_model(out@) =~= pairs_model(out_before).push((key@, value@)));
                assert(pairs_model(out_before) + seq![(key@, value@)] =~= pairs_model(
                    out@,
                ));
            }
        } else {
            proof {
                assert(pairs_model(out@) + Seq::<(Seq<u8>, Seq<u8>)>::empty() =~= pairs_model(
                    out@,
                ));
            }
        }
        proof {
            assert(spec_upsert(dm0, key@, value@) == pairs_model(out@));
            if self.wf() {
                lemma_upsert(dm0, key@, value@);
            }
        }
        s.data = Some(out);
        s
    }

    /// The exact bytes of the response document: the body that is uploaded
    /// to the response URL. The response URL itself is never written.
    pub fn serialized_body(&self) -> (out: Vec<u8>)
        ensures
            out@ == spec_body(self@),
    {
        let mut ms: Vec<(Vec<u8>, JsonValue)> = Vec::new();
        let st = match self.status {
            ResponseType::Success => vstd::slice::slice_to_vec("SUCCESS".as_bytes()),
            ResponseType::Failed => vstd::slice::slice_to_vec("FAILED".as_bytes()),
        };
        ms.push((vstd::slice::slice_to_vec("Status".as_bytes()), JsonValue::Str(st)));
        ms.push((
            vstd::slice::slice_to_vec("Reason".as_bytes()),
            JsonValue::Str(vstd::slice::slice_to_vec(self.reason.as_slice())),
        ));
        ms.push((
            vstd::slice::slice_to_vec("PhysicalResourceId".as_bytes()),
            JsonValue::Str(self.physical_resource_id.text_bytes()),
        ));
        ms.push((
            vstd::slice::slice_to_vec("StackId".as_bytes()),
            JsonValue::Str(vstd::slice::slice_to_vec(self.stack_id.as_slice())),
        ));
        ms.push((
            vstd::slice::slice_to_vec("RequestId".as_bytes()),
            JsonValue::Str(vstd::slice::slice_to_vec(self.request_id.as_slice())),
        ));
        ms.push((
            vstd::slice::slice_to_vec("LogicalResourceId".as_bytes()),
            JsonValue::Str(vstd::slice::slice_to_vec(self.logical_resource_id.as_slice())),
        ));
        if let Some(b) = self.no_echo {
            ms.push((vstd::slice::slice_to_vec("NoEcho".as_bytes()), JsonValue::Bool(b)));
        }
        if let Some(d) = &self.data {
            let mut dm: Vec<(Vec<u8>, JsonValue)> = Vec::new();
            let mut i: usize = 0;
            #[verifier::loop_isolation(false)]
            while i < d.len()
                invariant
                    i <= d@.len(),
                    dm@.len() == i,
                    forall|k: int|
                        0 <= k < i ==> (#[trigger] dm@[k]).0@ == d@[k].0@ && dm@[k].1@
                            == JsonSpec::Str(d@[k].1@),
                decreases d@.len() - i,
            {
                dm.push((
                    vstd::slice::slice_to_vec(d[i].0.as_slice()),
                    JsonValue::Str(vstd::slice::slice_to_vec(d[i].1.as_slice())),
                ));
                i += 1;
            }
            proof {
                lemma_members_view_len(dm@);
                assert forall|k: int| 0 <= k < dm@.len() implies #[trigger] members_view(
                    dm@,
                )[k] == data_members(pairs_model(d@))[k] by {
                    lemma_members_view_index(dm@, k);
                }
                assert(members_view(dm@) =~= data_members(pairs_model(d@)));
            }
            ms.push((vstd::slice::slice_to_vec("Data".as_bytes()), JsonValue::Obj(dm)));
        }
        let doc = JsonValue::Obj(ms);
        proof {
            let rm = response_members(self@);
            lemma_members_view_len(ms@);
            assert forall|k: int| 0 <= k < ms@.len() implies #[trigger] members_view(ms@)[k]
                == rm[k] by {
                lemma_members_view_index(ms@, k);
            }
            assert(members_view(ms@) =~= rm);
            assert(doc@ == response_json(self@));
        }
        encode_json(&doc)
    }
}

/// The stored data pairs, or the empty list where none were inserted yet.
pub open spec fn stored_data(r: ResponseSpec) -> Seq<(Seq<u8>, Seq<u8>)> {
    match r.data {
        Some(d) => d,
        None => Seq::empty(),
    }
}

/// A key of one of the pairs.
pub open spec fn has_pair_key(d: Seq<(Seq<u8>, Seq<u8>)>, key: Seq<u8>) -> bool {
    exists|j: int| 0 <= j < d.len() && (#[trigger] d[j]).0 == key
}

/// Inserting into a list with unique keys keeps the keys unique, and on
/// the level of maps is exactly `insert`: the inserted key holds the new
/// value and every other association is kept.
pub proof fn lemma_upsert(d: Seq<(Seq<u8>, Seq<u8>)>, k: Seq<u8>, v: Seq<u8>)
    requires
        data_keys_unique(d),
    ensures
        data_keys_unique(spec_upsert(d, k, v)),
        data_map(spec_upsert(d, k, v)) == data_map(d).insert(k, v),
        forall|i: int|
            0 <= i < spec_upsert(d, k, v).len() ==> (#[trigger] spec_upsert(d, k, v)[i]).0
                == k || has_pair_key(d, spec_upsert(d, k, v)[i].0),
    decreases d.len(),
{
    let u = spec_upsert(d, k, v);
    if d.len() == 0 {
        assert(u == seq![(k, v)]);
        assert(u.skip(1) =~= Seq::<(Seq<u8>, Seq<u8>)>::empty());
        assert(data_map(u) == data_map(u.skip(1)).insert(k, v));
        assert_maps_equal!(data_map(u), data_map(d).insert(k, v));
    } else if d[0].0 == k {
        assert(u == seq![(k, v)] + d.skip(1));
        assert(u.skip(1) =~= d.skip(1));
        assert(u[0] == (k, v));
        assert(data_map(u) == data_map(d.skip(1)).insert(k, v));
        assert(data_map(d) == data_map(d.skip(1)).insert(k, d[0].1));
        assert_maps_equal!(data_map(u), data_map(d).insert(k, v));
        assert forall|i: int, j: int|
            0 <= i < j < u.len() implies (#[trigger] u[i]).0 != (#[trigger] u[j]).0 by {
            if i == 0 {
                assert(u[j] == d[j]);
                assert(d[0].0 != d[j].0);
            } else {
                assert(u[i] == d[i] && u[j] == d[j]);
            }
        }
        assert forall|i: int|
            0 <= i < u.len() implies (#[trigger] u[i]).0 == k || has_pair_key(d, u[i].0) by {
            if i > 0 {
                assert(u[i] == d[i]);
            }
        }
    } else {
        let tail = d.skip(1);
        assert forall|i: int, j: int|
            0 <= i < j < tail.len() implies (#[trigger] tail[i]).0 != (
            #[trigger] tail[j]).0 by {
            assert(tail[i] == d[i + 1] && tail[j] == d[j + 1]);
        }
        lemma_upsert(tail, k, v);
        assert(u == seq![d[0]] + spec_upsert(tail, k, v));
        assert(u.skip(1) =~= spec_upsert(tail, k, v));
        assert(u[0] == d[0]);
        assert(data_map(u) == data_map(spec_upsert(tail, k, v)).insert(d[0].0, d[0].1));
        assert(data_map(d) == data_map(tail).insert(d[0].0, d[0].1));
        assert_maps_equal!(data_map(u), data_map(d).insert(k, v));
        assert forall|i: int|
            0 <= i < u.len() implies (#[trigger] u[i]).0 == k || has_pair_key(d, u[i].0) by {
            if i == 0 {
                assert(d[0].0 == u[0].0);
            } else {
                let ut = spec_upsert(tail, k, v);
                assert(u[i] == ut[i - 1]);
                if ut[i - 1].0 != k {
                    assert(has_pair_key(tail, ut[i - 1].0));
                    let j = choose|j: int|
                        0 <= j < tail.len() && (#[trigger] tail[j]).0 == ut[i - 1].0;
                    assert(d[j + 1] == tail[j]);
                }
            }
        }
        assert forall|i: int, j: int|
            0 <= i < j < u.len() implies (#[trigger] u[i]).0 != (#[trigger] u[j]).0 by {
            let ut = spec_upsert(tail, k, v);
            if i == 0 {
                assert(u[j] == ut[j - 1]);
                if ut[j - 1].0 == k {
                    assert(d[0].0 != k);
                } else {
                    assert(has_pair_key(tail, ut[j - 1].0));
                    let m = choose|m: int|
                        0 <= m < tail.len() && (#[trigger] tail[m]).0 == ut[j - 1].0;
                    assert(tail[m] == d[m + 1]);
                    assert(d[0].0 != d[m + 1].0);
                }
            } else {
                assert(u[i] == ut[i - 1] && u[j] == ut[j - 1]);
            }
        }
    }
}

} // verus!
