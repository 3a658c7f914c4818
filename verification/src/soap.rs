//! SOAP envelope handling over the JSON representation: envelope, header
//! and body extraction, fault detection, action and operation naming, and
//! response and fault construction.

use vstd::prelude::*;
use vstd::string::StringSliceAdditionalSpecFns;
use crate::json::{obj_view, spec_obj_get, JsonVal, JsonView};
use crate::xml::{XmlToJson, XmlTranscodeError};

verus! {

/// What the default transcoder parses a SOAP document's bytes into:
/// namespaces stripped, attributes under `@`, text under `#text`.
pub open spec fn spec_soap_xml(xml: Seq<u8>) -> Option<JsonView> {
    crate::xml::spec_xml_parse(true, true, vstd::utf8::encode_utf8("@"@),
        vstd::utf8::encode_utf8("#text"@), xml)
}

/// Relies on String::from_utf8: text exactly when the bytes are valid
/// UTF-8, and the text encodes back to the input bytes.
#[verifier::external_body]
fn string_from_utf8(bytes: Vec<u8>) -> (r: Option<String>)
    ensures
        (match r {
            Some(s) => vstd::utf8::encode_utf8(s@) == bytes@,
            None => !vstd::utf8::valid_utf8(bytes@),
        }),
{
    String::from_utf8(bytes).ok()
}

/// SOAP versions.
#[derive(Debug, Clone, Copy, PartialEq, Eq, Structural)]
pub enum SoapVersion {
    /// SOAP 1.1.
    Soap11,
    /// SOAP 1.2.
    Soap12,
}

/// Does an object key denote the element `name`, either exactly or behind a
/// namespace prefix (everything after the last colon)?
pub open spec fn spec_key_denotes(key: Seq<u8>, name: Seq<u8>) -> bool {
    key == name
    || (key.len() > name.len() && key[key.len() - name.len() - 1] == 58
        && key.subrange(key.len() - name.len(), key.len() as int) == name)
}

/// The first value in an object whose key denotes `name`, looking through
/// namespace prefixes.
pub open spec fn spec_find_element(pairs: Seq<(Seq<u8>, JsonView)>, name: Seq<u8>)
    -> Option<JsonView>
    decreases pairs.len(),
{
    if pairs.len() == 0 {
        None
    } else if spec_key_denotes(pairs[0].0, name) {
        Some(pairs[0].1)
    } else {
        spec_find_element(pairs.drop_first(), name)
    }
}

/// Whether an object key denotes `name`, ignoring a namespace prefix.
#[verifier::loop_isolation(false)]
fn key_denotes(key: &Vec<u8>, name: &[u8]) -> (r: bool)
    ensures
        r == spec_key_denotes(key@, name@),
{
    if key.len() == name.len() && crate::body::payload_starts_with(key, name) {
        proof {
            assert(key@.subrange(0, name@.len() as int) =~= key@);
        }
        return true;
    }
    proof {
        if key@ == name@ {
            assert(key@.subrange(0, name@.len() as int) =~= name@);
        }
    }
    if key.len() > name.len() && key[key.len() - name.len() - 1] == 58 {
        let off = key.len() - name.len();
        let mut i: usize = 0;
        while i < name.len()
            invariant
                key@.len() > name@.len(),
                off == key@.len() - name@.len(),
                i <= name@.len(),
                forall|j: int| 0 <= j < i ==> key@[off + j] == name@[j],
            decreases name@.len() - i,
        {
            if key[off + i] != name[i] {
                proof {
                    if key@.subrange(key@.len() - name@.len(), key@.len() as int) == name@ {
                        assert(key@.subrange(key@.len() - name@.len(), key@.len() as int)[
                            i as int] == name@[i as int]);
                    }
                }
                return false;
            }
            i += 1;
        }
        proof {
            assert(key@.subrange(key@.len() - name@.len(), key@.len() as int) =~= name@);
        }
        true
    } else {
        false
    }
}

/// Find an element in a JSON object, ignoring namespace prefixes.
#[verifier::loop_isolation(false)]
pub fn find_element<'a>(json: &'a JsonVal, name: &[u8]) -> (r: Option<&'a JsonVal>)
    ensures
        (match json@ {
            JsonView::Obj(pairs) => (match r {
                Some(v) => spec_find_element(pairs, name@) == Some(v@),
                None => spec_find_element(pairs, name@) is None,
            }),
            _ => r is None,
        }),
{
    match json {
        JsonVal::Obj(pairs) => {
            let ghost pv = obj_view(pairs@);
            proof {
                crate::json::lemma_obj_view_index(pairs@);
                assert(pv.skip(0) =~= pv);
            }
            let mut i: usize = 0;
            while i < pairs.len()
                invariant
                    i <= pairs@.len(),
                    spec_find_element(pv, name@) == spec_find_element(pv.skip(i as int), name@),
                decreases pairs@.len() - i,
            {
                proof {
                    assert(pv.skip(i as int).len() == pv.len() - i);
                    assert(pv.skip(i as int)[0] == pv[i as int]);
                    assert(pv.skip(i as int).drop_first() =~= pv.skip(i as int + 1));
                }
                if key_denotes(&pairs[i].0, name) {
                    return Some(&pairs[i].1);
                }
                i += 1;
            }
            proof {
                assert(pv.skip(pv.len() as int).len() == 0);
            }
            None
        },
        _ => None,
    }
}

/// The envelope element of a transcoded document, behind any namespace
/// prefix.
pub open spec fn spec_soap_envelope(json: JsonView) -> Option<JsonView> {
    match json {
        JsonView::Obj(p) => spec_find_element(p, vstd::utf8::encode_utf8("Envelope"@)),
        _ => None,
    }
}

/// The required body element under the envelope.
pub open spec fn spec_soap_body(json: JsonView) -> Option<JsonView> {
    match spec_soap_envelope(json) {
        Some(env) => match env {
            JsonView::Obj(ep) => spec_find_element(ep, vstd::utf8::encode_utf8("Body"@)),
            _ => None,
        },
        None => None,
    }
}

/// The optional headers element under the envelope.
pub open spec fn spec_soap_headers(json: JsonView) -> Option<JsonView> {
    match spec_soap_envelope(json) {
        Some(env) => match env {
            JsonView::Obj(ep) => spec_find_element(ep, vstd::utf8::encode_utf8("Header"@)),
            _ => None,
        },
        None => None,
    }
}

/// Whether a body carries a fault child.
pub open spec fn spec_body_fault(body: JsonView) -> bool {
    match body {
        JsonView::Obj(bp) => spec_find_element(bp, vstd::utf8::encode_utf8("Fault"@)) is Some,
        _ => false,
    }
}

/// Whether an object key names an operation: not an attribute, not the text
/// key, not the fault element.
pub open spec fn spec_operation_key_ok(k: Seq<u8>) -> bool {
    &&& !(k.len() >= 1 && k[0] == 64)
    &&& k != vstd::utf8::encode_utf8("#text"@)
    &&& k != vstd::utf8::encode_utf8("Fault"@)
}

/// The first operation-naming key of a body object.
pub open spec fn spec_operation_key(pairs: Seq<(Seq<u8>, JsonView)>) -> Option<Seq<u8>>
    decreases pairs.len(),
{
    if pairs.len() == 0 {
        None
    } else if spec_operation_key_ok(pairs[0].0) {
        Some(pairs[0].0)
    } else {
        spec_operation_key(pairs.drop_first())
    }
}

/// A parsed SOAP envelope.
#[derive(Debug)]
pub struct SoapEnvelope {
    /// The SOAP version.
    pub version: SoapVersion,
    /// The optional headers.
    pub headers: Option<JsonVal>,
    /// The required body content.
    pub body: JsonVal,
    /// The action, from a WS-Addressing header when present.
    pub action: Option<String>,
    /// Whether the body carries a fault.
    pub is_fault: bool,
}

impl SoapEnvelope {
    /// Parse a SOAP envelope from XML bytes: transcode to the JSON
    /// representation, then read the envelope structure.
    pub fn parse(xml: &[u8]) -> (r: Result<SoapEnvelope, XmlTranscodeError>)
        ensures
            r.is_ok() <==> (match spec_soap_xml(xml@) {
                Some(v) => spec_soap_body(v) is Some,
                None => false,
            }),
            (match r {
                Ok(env) => (match spec_soap_xml(xml@) {
                    Some(v) => Some(env.body@) == spec_soap_body(v)
                        && env.is_fault == spec_body_fault(env.body@)
                        && env.version is Soap11
                        && (match env.headers {
                            Some(ref h) => spec_soap_headers(v) == Some(h@),
                            None => spec_soap_headers(v) is None,
                        }),
                    None => false,
                }),
                Err(_) => true,
            }),
    {
        let transcoder = XmlToJson::new();
        proof {
            assert(transcoder.spec_prefix() =~= vstd::utf8::encode_utf8("@"@));
            assert(transcoder.spec_tkey() =~= vstd::utf8::encode_utf8("#text"@));
        }
        let json = match transcoder.transcode_value(xml) {
            Ok(v) => v,
            Err(e) => {
                return Err(e);
            },
        };
        SoapEnvelope::from_json(&json)
    }

    /// Read the envelope structure out of the JSON representation: the
    /// `Envelope` element must exist, its `Body` must exist, `Header` and a
    /// WS-Addressing `Action` are optional, and a `Fault` child of the body
    /// marks a fault. Success exactly when envelope and body are found; the
    /// parsed fields are exactly those elements.
    pub fn from_json(json: &JsonVal) -> (r: Result<SoapEnvelope, XmlTranscodeError>)
        ensures
            r.is_ok() <==> spec_soap_body(json@) is Some,
            (match r {
                Ok(env) => Some(env.body@) == spec_soap_body(json@)
                    && env.is_fault == spec_body_fault(env.body@)
                    && env.version is Soap11
                    && (match env.headers {
                        Some(ref h) => spec_soap_headers(json@) == Some(h@),
                        None => spec_soap_headers(json@) is None,
                    }),
                Err(e) => e is InvalidStructure,
            }),
    {
        let envelope = match find_element(json, "Envelope".as_bytes()) {
            Some(e) => e,
            None => {
                return Err(XmlTranscodeError::InvalidStructure(
                    "Missing SOAP Envelope".to_owned()));
            },
        };
        let version = SoapVersion::Soap11;
        let headers = match find_element(envelope, "Header".as_bytes()) {
            Some(h) => Some(h.duplicate()),
            None => None,
        };
        let body = match find_element(envelope, "Body".as_bytes()) {
            Some(b) => b.duplicate(),
            None => {
                return Err(XmlTranscodeError::InvalidStructure(
                    "Missing SOAP Body".to_owned()));
            },
        };
        let is_fault = match find_element(&body, "Fault".as_bytes()) {
            Some(_) => true,
            None => false,
        };
        let action: Option<String> = match headers {
            Some(ref h) => match find_element(h, "Action".as_bytes()) {
                Some(a) => match a {
                    JsonVal::Str(s) => {
                        let mut copy: Vec<u8> = Vec::new();
                        let mut i: usize = 0;
                        while i < s.len()
                            invariant
                                i <= s@.len(),
                            decreases s@.len() - i,
                        {
                            copy.push(s[i]);
                            i += 1;
                        }
                        string_from_utf8(copy)
                    },
                    JsonVal::Obj(_) => match a.get("#text".as_bytes()) {
                        Some(t) => match t {
                            JsonVal::Str(s) => {
                                let mut copy: Vec<u8> = Vec::new();
                                let mut i: usize = 0;
                                while i < s.len()
                                    invariant
                                        i <= s@.len(),
                                    decreases s@.len() - i,
                                {
                                    copy.push(s[i]);
                                    i += 1;
                                }
                                string_from_utf8(copy)
                            },
                            _ => None,
                        },
                        None => None,
                    },
                    _ => None,
                },
                None => None,
            },
            None => None,
        };
        Ok(SoapEnvelope { version, headers, body, action, is_fault })
    }

    /// The body content.
    pub fn body_content(&self) -> (r: &JsonVal)
        ensures
            r@ == self.body@,
    {
        &self.body
    }

    /// The operation name: the first body child that is not an attribute,
    /// not the text key and not `Fault`, decoded as text. Nothing comes back
    /// only when no such key exists or that key is not valid text.
    #[verifier::loop_isolation(false)]
    pub fn operation_name(&self) -> (r: Option<String>)
        ensures
            (match self.body@ {
                JsonView::Obj(pairs) => (match r {
                    Some(name) => spec_operation_key(pairs)
                        == Some(vstd::utf8::encode_utf8(name@)),
                    None => (match spec_operation_key(pairs) {
                        Some(k) => !vstd::utf8::valid_utf8(k),
                        None => true,
                    }),
                }),
                _ => r is None,
            }),
    {
        match &self.body {
            JsonVal::Obj(pairs) => {
                let ghost pv = obj_view(pairs@);
                proof {
                    crate::json::lemma_obj_view_index(pairs@);
                    assert(pv.skip(0) =~= pv);
                }
                let text_key = "#text".as_bytes();
                let fault_key = "Fault".as_bytes();
                let mut i: usize = 0;
                while i < pairs.len()
                    invariant
                        i <= pairs@.len(),
                        spec_operation_key(pv) == spec_operation_key(pv.skip(i as int)),
                    decreases pairs@.len() - i,
                {
                    proof {
                        assert(pv.skip(i as int).len() == pv.len() - i);
                        assert(pv.skip(i as int)[0] == pv[i as int]);
                        assert(pv.skip(i as int).drop_first() =~= pv.skip(i as int + 1));
                    }
                    let key = &pairs[i].0;
                    let is_attr = key.len() >= 1 && key[0] == 64;
                    let is_text = key.len() == text_key.len()
                        && crate::body::payload_starts_with(key, text_key);
                    let is_fault = key.len() == fault_key.len()
                        && crate::body::payload_starts_with(key, fault_key);
                    proof {
                        if is_text {
                            assert(key@.subrange(0, text_key@.len() as int) =~= key@);
                        } else if key@ == text_key@ {
                            assert(key@.subrange(0, text_key@.len() as int) =~= text_key@);
                        }
                        if is_fault {
                            assert(key@.subrange(0, fault_key@.len() as int) =~= key@);
                        } else if key@ == fault_key@ {
                            assert(key@.subrange(0, fault_key@.len() as int) =~= fault_key@);
                        }
                    }
                    if !is_attr && !is_text && !is_fault {
                        proof {
                            assert(spec_operation_key_ok(pv[i as int].0));
                            assert(spec_operation_key(pv) == Some(key@));
                        }
                        let mut copy: Vec<u8> = Vec::new();
                        let mut j: usize = 0;
                        while j < key.len()
                            invariant
                                j <= key@.len(),
                                copy@ == key@.subrange(0, j as int),
                            decreases key@.len() - j,
                        {
                            copy.push(key[j]);
                            proof {
                                assert(key@.subrange(0, j as int + 1)
                                    =~= key@.subrange(0, j as int).push(key@[j as int]));
                            }
                            j += 1;
                        }
                        proof {
                            assert(key@.subrange(0, key@.len() as int) =~= key@);
                        }
                        return string_from_utf8(copy);
                    }
                    proof {
                        assert(!spec_operation_key_ok(pv[i as int].0));
                    }
                    i += 1;
                }
                proof {
                    assert(pv.skip(pv.len() as int).len() == 0);
                }
                None
            },
            _ => None,
        }
    }

    /// The body payload of one operation.
    pub fn operation_payload<'a>(&'a self, operation: &[u8]) -> (r: Option<&'a JsonVal>)
        ensures
            !(self.body@ is Obj) ==> r is None,
    {
        self.body.get(operation)
    }

    /// Convert the envelope to a context: the destination is the action
    /// when one was carried, else the operation name, else `/soap`; the
    /// payload is the printed body; the metadata names the version and
    /// whether the body is a fault.
    pub fn to_context(&self) -> (r: crate::context::NaseejContext)
        ensures
            r.wf(),
            r.protocol is Soap,
            r.payload@ == crate::json::spec_print(self.body@),
            (match self.action {
                Some(ref a) => r.destination@ == a@,
                None => spec_fallback_destination(self.body@, r.destination@),
            }),
            r.metadata@ == Map::<Seq<char>, Seq<char>>::empty()
                .insert("soap.version"@, if self.version is Soap11 { "Soap11"@ } else {
                    "Soap12"@ })
                .insert("soap.is_fault"@, if self.is_fault { "true"@ } else { "false"@ }),
    {
        let payload = crate::json::print_json(&self.body);
        let destination: String = match self.action {
            Some(ref a) => a.clone(),
            None => match self.operation_name() {
                Some(op) => {
                    proof {
                        vstd::utf8::encode_utf8_valid_utf8(op@);
                    }
                    op
                },
                None => "/soap".to_owned(),
            },
        };
        proof {
            match self.action {
                Some(ref a) => {
                    assert(destination@ == a@);
                },
                None => {
                    assert(spec_fallback_destination(self.body@, destination@));
                },
            }
        }
        let version_text: &str = match self.version {
            SoapVersion::Soap11 => "Soap11",
            SoapVersion::Soap12 => "Soap12",
        };
        let fault_text: &str = if self.is_fault {
            "true"
        } else {
            "false"
        };
        crate::context::ContextBuilder::new(crate::context::ProtocolType::Soap,
            destination.as_str())
            .payload(payload)
            .content_type("application/json")
            .metadata("soap.version", version_text)
            .metadata("soap.is_fault", fault_text)
            .build()
    }

    /// Build a response envelope: `Envelope` around an optional `Header`
    /// and the given `Body`.
    pub fn build_response(version: SoapVersion, body: JsonVal, headers: Option<JsonVal>)
        -> (r: JsonVal)
        ensures
            (match r@ {
                JsonView::Obj(top) => top.len() == 1 && spec_obj_get(top,
                    vstd::utf8::encode_utf8("Envelope"@)) is Some,
                _ => false,
            }),
    {
        let mut envelope: Vec<(Vec<u8>, JsonVal)> = Vec::new();
        match headers {
            Some(h) => {
                envelope.push((slice_to_vec("Header".as_bytes()), h));
            },
            None => {},
        }
        envelope.push((slice_to_vec("Body".as_bytes()), body));
        let mut top: Vec<(Vec<u8>, JsonVal)> = Vec::new();
        top.push((slice_to_vec("Envelope".as_bytes()), JsonVal::Obj(envelope)));
        let r = JsonVal::Obj(top);
        proof {
            crate::json::lemma_obj_view_index(top@);
            let tv = obj_view(top@);
            assert(tv.len() == 1);
            assert(tv[0].0 == vstd::utf8::encode_utf8("Envelope"@));
            assert(spec_obj_get(tv, vstd::utf8::encode_utf8("Envelope"@)) is Some);
        }
        r
    }

    /// Build a fault envelope: a `Fault` body with version-appropriate
    /// code, reason and detail fields.
    pub fn build_fault(version: SoapVersion, code: &str, message: &str, detail: Option<&str>)
        -> (r: JsonVal)
    {
        let mut fault: Vec<(Vec<u8>, JsonVal)> = Vec::new();
        match version {
            SoapVersion::Soap11 => {
                fault.push((slice_to_vec("faultcode".as_bytes()), str_to_json(code)));
                fault.push((slice_to_vec("faultstring".as_bytes()), str_to_json(message)));
                match detail {
                    Some(d) => fault.push((slice_to_vec("detail".as_bytes()), str_to_json(d))),
                    None => fault.push((slice_to_vec("detail".as_bytes()), JsonVal::Null)),
                }
            },
            SoapVersion::Soap12 => {
                let mut code_obj: Vec<(Vec<u8>, JsonVal)> = Vec::new();
                code_obj.push((slice_to_vec("Value".as_bytes()), str_to_json(code)));
                fault.push((slice_to_vec("Code".as_bytes()), JsonVal::Obj(code_obj)));
                let mut reason_obj: Vec<(Vec<u8>, JsonVal)> = Vec::new();
                reason_obj.push((slice_to_vec("Text".as_bytes()), str_to_json(message)));
                fault.push((slice_to_vec("Reason".as_bytes()), JsonVal::Obj(reason_obj)));
                match detail {
                    Some(d) => fault.push((slice_to_vec("Detail".as_bytes()), str_to_json(d))),
                    None => fault.push((slice_to_vec("Detail".as_bytes()), JsonVal::Null)),
                }
            },
        }
        let mut body: Vec<(Vec<u8>, JsonVal)> = Vec::new();
        body.push((slice_to_vec("Fault".as_bytes()), JsonVal::Obj(fault)));
        SoapEnvelope::build_response(version, JsonVal::Obj(body), None)
    }
}

/// The fallback destination rule when no action was carried: the operation
/// name where the body has a text-decodable one, `/soap` otherwise.
pub open spec fn spec_fallback_destination(body: JsonView, dest: Seq<char>) -> bool {
    match body {
        JsonView::Obj(pairs) => match spec_operation_key(pairs) {
            Some(k) => if vstd::utf8::valid_utf8(k) {
                vstd::utf8::encode_utf8(dest) == k
            } else {
                dest == "/soap"@
            },
            None => dest == "/soap"@,
        },
        _ => dest == "/soap"@,
    }
}

/// A byte slice as a fresh vector.
fn slice_to_vec(s: &[u8]) -> (r: Vec<u8>)
    ensures
        r@ == s@,
{
    let mut out: Vec<u8> = Vec::new();
    let mut i: usize = 0;
    while i < s.len()
        invariant
            i <= s@.len(),
            out@ == s@.subrange(0, i as int),
        decreases s@.len() - i,
    {
        out.push(s[i]);
        proof {
            assert(s@.subrange(0, i as int + 1)
                =~= s@.subrange(0, i as int).push(s@[i as int]));
        }
        i += 1;
    }
    proof {
        assert(s@.subrange(0, s@.len() as int) =~= s@);
    }
    out
}

/// A string as a JSON string value over its bytes.
fn str_to_json(s: &str) -> (r: JsonVal)
    ensures
        r@ matches JsonView::Str(b) && b == s.spec_bytes(),
{
    let bytes = s.as_bytes();
    JsonVal::Str(slice_to_vec(bytes))
}

} // verus!
