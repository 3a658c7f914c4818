//! Streaming XML for the SOAP adapter: escaping, an event-based parser that
//! yields the JSON representation directly (attribute-prefixed keys, a text
//! key, namespace prefixes stripped), and the reverse renderer from JSON to
//! XML text.

use vstd::prelude::*;
use vstd::string::StringSliceAdditionalSpecFns;
use crate::json::{arr_view, json_view, obj_view, JsonVal, JsonView};

verus! {

broadcast use vstd::std_specs::vec::axiom_vec_index_decreases;

/// Relies on String::from_utf8: text exactly when the bytes are valid
/// UTF-8, and the text encodes back to the input bytes.
#[verifier::external_body]
pub(crate) fn bytes_to_string(bytes: Vec<u8>) -> (r: Option<String>)
    ensures
        (match r {
            Some(s) => vstd::utf8::encode_utf8(s@) == bytes@,
            None => true,
        }),
{
    String::from_utf8(bytes).ok()
}

/// XML transcoding errors.
#[derive(Debug, Clone)]
pub enum XmlTranscodeError {
    /// The XML text could not be parsed.
    ParseError(String),
    /// A JSON payload could not be built or read.
    JsonError(String),
    /// A byte sequence was not valid text.
    EncodingError(String),
    /// The document shape is not what the envelope needs.
    InvalidStructure(String),
}

/// The escaped form of one text character: ampersand, less-than and
/// greater-than take entities; everything else passes through.
pub open spec fn spec_escape_xml_char(c: char) -> Seq<char> {
    if c == '&' {
        "&amp;"@
    } else if c == '<' {
        "&lt;"@
    } else if c == '>' {
        "&gt;"@
    } else {
        seq![c]
    }
}

/// The escaped form of one attribute character: the text entities plus
/// quote and apostrophe.
pub open spec fn spec_escape_xml_attr_char(c: char) -> Seq<char> {
    if c == '&' {
        "&amp;"@
    } else if c == '<' {
        "&lt;"@
    } else if c == '>' {
        "&gt;"@
    } else if c == '"' {
        "&quot;"@
    } else if c == '\'' {
        "&apos;"@
    } else {
        seq![c]
    }
}

/// The escaped form of text content.
pub open spec fn spec_escape_xml(s: Seq<char>) -> Seq<char>
    decreases s.len(),
{
    if s.len() == 0 {
        Seq::empty()
    } else {
        spec_escape_xml_char(s[0]) + spec_escape_xml(s.drop_first())
    }
}

/// The escaped form of an attribute value.
pub open spec fn spec_escape_xml_attr(s: Seq<char>) -> Seq<char>
    decreases s.len(),
{
    if s.len() == 0 {
        Seq::empty()
    } else {
        spec_escape_xml_attr_char(s[0]) + spec_escape_xml_attr(s.drop_first())
    }
}

/// Escaping distributes over appending one character.
proof fn lemma_escape_xml_snoc(s: Seq<char>, c: char)
    ensures
        spec_escape_xml(s.push(c)) == spec_escape_xml(s) + spec_escape_xml_char(c),
        spec_escape_xml_attr(s.push(c)) == spec_escape_xml_attr(s) + spec_escape_xml_attr_char(c),
    decreases s.len(),
{
    if s.len() == 0 {
        assert(s.push(c).drop_first() =~= Seq::<char>::empty());
        assert(s.push(c)[0] == c);
        assert(spec_escape_xml(Seq::<char>::empty()) =~= Seq::<char>::empty());
        assert(spec_escape_xml(s.push(c)) =~= spec_escape_xml_char(c));
        assert(spec_escape_xml(s) + spec_escape_xml_char(c) =~= spec_escape_xml_char(c));
        assert(spec_escape_xml_attr(Seq::<char>::empty()) =~= Seq::<char>::empty());
        assert(spec_escape_xml_attr(s.push(c))
            == spec_escape_xml_attr_char(c) + spec_escape_xml_attr(Seq::<char>::empty()));
        assert(spec_escape_xml_attr(s.push(c)) =~= spec_escape_xml_attr_char(c));
        assert(spec_escape_xml_attr(s) + spec_escape_xml_attr_char(c)
            =~= spec_escape_xml_attr_char(c));
    } else {
        assert(s.push(c).drop_first() =~= s.drop_first().push(c));
        assert(s.push(c)[0] == s[0]);
        lemma_escape_xml_snoc(s.drop_first(), c);
        assert(spec_escape_xml(s.push(c))
            =~= (spec_escape_xml_char(s[0]) + spec_escape_xml(s.drop_first()))
                + spec_escape_xml_char(c));
        assert(spec_escape_xml_attr(s.push(c))
            =~= (spec_escape_xml_attr_char(s[0]) + spec_escape_xml_attr(s.drop_first()))
                + spec_escape_xml_attr_char(c));
    }
}

/// Escape text content: ampersand, less-than and greater-than.
#[verifier::loop_isolation(false)]
pub fn escape_xml(s: &str) -> (r: String)
    ensures
        r@ == spec_escape_xml(s@),
{
    proof {
        reveal_strlit("&amp;");
        reveal_strlit("&lt;");
        reveal_strlit("&gt;");
    }
    let n = s.unicode_len();
    let mut out = String::new();
    let mut i: usize = 0;
    while i < n
        invariant
            n == s@.len(),
            i <= n,
            out@ == spec_escape_xml(s@.subrange(0, i as int)),
        decreases n - i,
    {
        let c = s.get_char(i);
        if c == '&' {
            out.append("&amp;");
        } else if c == '<' {
            out.append("&lt;");
        } else if c == '>' {
            out.append("&gt;");
        } else {
            out.append(s.substring_char(i, i + 1));
            proof {
                assert(s@.subrange(i as int, i as int + 1) =~= seq![s@[i as int]]);
            }
        }
        proof {
            lemma_escape_xml_snoc(s@.subrange(0, i as int), s@[i as int]);
            assert(s@.subrange(0, i as int + 1)
                =~= s@.subrange(0, i as int).push(s@[i as int]));
        }
        i += 1;
    }
    proof {
        assert(s@.subrange(0, n as int) =~= s@);
    }
    out
}

/// Escape an attribute value: the text entities plus quote and apostrophe.
#[verifier::loop_isolation(false)]
pub fn escape_xml_attr(s: &str) -> (r: String)
    ensures
        r@ == spec_escape_xml_attr(s@),
{
    proof {
        reveal_strlit("&amp;");
        reveal_strlit("&lt;");
        reveal_strlit("&gt;");
        reveal_strlit("&quot;");
        reveal_strlit("&apos;");
    }
    let n = s.unicode_len();
    let mut out = String::new();
    let mut i: usize = 0;
    while i < n
        invariant
            n == s@.len(),
            i <= n,
            out@ == spec_escape_xml_attr(s@.subrange(0, i as int)),
        decreases n - i,
    {
        let c = s.get_char(i);
        if c == '&' {
            out.append("&amp;");
        } else if c == '<' {
            out.append("&lt;");
        } else if c == '>' {
            out.append("&gt;");
        } else if c == '"' {
            out.append("&quot;");
        } else if c == '\'' {
            out.append("&apos;");
        } else {
            out.append(s.substring_char(i, i + 1));
            proof {
                assert(s@.subrange(i as int, i as int + 1) =~= seq![s@[i as int]]);
            }
        }
        proof {
            lemma_escape_xml_snoc(s@.subrange(0, i as int), s@[i as int]);
            assert(s@.subrange(0, i as int + 1)
                =~= s@.subrange(0, i as int).push(s@[i as int]));
        }
        i += 1;
    }
    proof {
        assert(s@.subrange(0, n as int) =~= s@);
    }
    out
}

/// Wrap escaped content in a tag: the helper scripts call.
pub fn wrap_xml(tag: &str, content: &str) -> (r: String)
    ensures
        r@ == "<"@ + tag@ + ">"@ + spec_escape_xml_attr(content@) + "</"@ + tag@ + ">"@,
{
    let mut out = String::new();
    out.append("<");
    out.append(tag);
    out.append(">");
    let escaped = escape_xml_attr(content);
    out.append(escaped.as_str());
    out.append("</");
    out.append(tag);
    out.append(">");
    proof {
        assert(out@ =~= "<"@ + tag@ + ">"@ + spec_escape_xml_attr(content@) + "</"@ + tag@
            + ">"@);
    }
    out
}

/// XML-to-JSON transcoder configuration.
#[derive(Debug)]
pub struct XmlToJson {
    /// Strip namespace prefixes from element names.
    pub strip_namespaces: bool,
    /// Include attributes in the JSON output.
    pub include_attributes: bool,
    /// Prefix of attribute keys.
    pub attribute_prefix: String,
    /// Key under which text content is stored.
    pub text_key: String,
}

impl XmlToJson {
    /// The attribute-prefix bytes the parser prepends to attribute keys.
    pub open spec fn spec_prefix(&self) -> Seq<u8> {
        vstd::utf8::encode_utf8(self.attribute_prefix@)
    }

    /// The text-key bytes the parser stores text content under.
    pub open spec fn spec_tkey(&self) -> Seq<u8> {
        vstd::utf8::encode_utf8(self.text_key@)
    }

    /// The default transcoder: namespaces stripped, attributes kept under
    /// `@`, text under `#text`.
    pub fn new() -> (r: XmlToJson)
        ensures
            r.strip_namespaces,
            r.include_attributes,
            r.attribute_prefix@ == "@"@,
            r.text_key@ == "#text"@,
    {
        XmlToJson {
            strip_namespaces: true,
            include_attributes: true,
            attribute_prefix: "@".to_owned(),
            text_key: "#text".to_owned(),
        }
    }

    /// Configure namespace stripping.
    pub fn strip_namespaces(self, strip: bool) -> (r: XmlToJson)
        ensures
            r.strip_namespaces == strip,
            r.include_attributes == self.include_attributes,
            r.attribute_prefix@ == self.attribute_prefix@,
            r.text_key@ == self.text_key@,
    {
        XmlToJson { strip_namespaces: strip, ..self }
    }

    /// Configure attribute inclusion.
    pub fn include_attributes(self, keep: bool) -> (r: XmlToJson)
        ensures
            r.include_attributes == keep,
            r.strip_namespaces == self.strip_namespaces,
            r.attribute_prefix@ == self.attribute_prefix@,
            r.text_key@ == self.text_key@,
    {
        XmlToJson { include_attributes: keep, ..self }
    }

    /// Parse XML text into its JSON representation: an object of exactly one
    /// pair, the root element's name to its content; attributes become
    /// `@`-prefixed string pairs, repeated children group into arrays, text
    /// lands under the text key (or stands alone when the element holds
    /// nothing else). Exactly what `spec_xml_parse` yields, failing exactly
    /// where it yields nothing.
    #[verifier::loop_isolation(false)]
    pub fn transcode_value(&self, xml: &[u8]) -> (r: Result<JsonVal, XmlTranscodeError>)
        ensures
            r.is_ok() <==> spec_xml_parse(self.strip_namespaces, self.include_attributes, self.spec_prefix(), self.spec_tkey(), xml@) is Some,
            (match r {
                Ok(v) => Some(v@) == spec_xml_parse(self.strip_namespaces, self.include_attributes, self.spec_prefix(), self.spec_tkey(), xml@)
                    && (v@ matches JsonView::Obj(p) && p.len() == 1),
                Err(_) => true,
            }),
    {
        let n = xml.len();
        let mut i: usize = 0;
        // Skip leading whitespace, declarations and comments.
        loop
            invariant
                i <= n,
                n == xml@.len(),
                spec_skip_prolog(xml@, 0) == spec_skip_prolog(xml@, i as int),
            decreases n - i,
        {
            let ghost i_in = i as int;
            let j = skip_ws(xml, i);
            if j >= n {
                proof {
                    assert(spec_skip_prolog(xml@, i_in) is None);
                }
                return Err(XmlTranscodeError::InvalidStructure(
                    "Unexpected end of file".to_owned()));
            }
            if xml[j] == 60 && j + 1 < n && (xml[j + 1] == 63 || xml[j + 1] == 33) {
                // A declaration `<?...?>` or a comment/doctype `<!...>`.
                let mut k = j + 2;
                while k < n && xml[k] != 62
                    invariant
                        j + 2 <= k <= n,
                        n == xml@.len(),
                        spec_scan_to(xml@, j as int + 2, 62)
                            == spec_scan_to(xml@, k as int, 62),
                    decreases n - k,
                {
                    k += 1;
                }
                proof {
                    assert(spec_scan_to(xml@, j as int + 2, 62) == k as int);
                }
                if k >= n {
                    proof {
                        assert(spec_skip_prolog(xml@, i_in) is None);
                    }
                    return Err(XmlTranscodeError::ParseError(
                        "Unterminated prolog".to_owned()));
                }
                proof {
                    assert(spec_skip_prolog(xml@, i_in)
                        == spec_skip_prolog(xml@, k as int + 1));
                }
                i = k + 1;
            } else {
                proof {
                    assert(spec_skip_prolog(xml@, i_in) == Some(j as int));
                }
                i = j;
                break;
            }
        }
        proof {
            assert(spec_skip_prolog(xml@, 0) == Some(i as int));
        }
        match self.parse_element(xml, i, 0) {
            Ok((name, content, _next)) => {
                let ghost namev = name@;
                let ghost contentv = json_view(content);
                let mut pairs: Vec<(Vec<u8>, JsonVal)> = Vec::new();
                pairs.push((name, content));
                let r = JsonVal::Obj(pairs);
                proof {
                    crate::json::lemma_obj_view_index(pairs@);
                    assert(obj_view(pairs@) =~= seq![(namev, contentv)]);
                    assert(spec_xml_parse(self.strip_namespaces, self.include_attributes, self.spec_prefix(), self.spec_tkey(), xml@) == Some(json_view(r)));
                }
                Ok(r)
            },
            Err(e) => {
                proof {
                    assert(spec_xml_parse(self.strip_namespaces, self.include_attributes, self.spec_prefix(), self.spec_tkey(), xml@) is None);
                }
                Err(e)
            },
        }
    }

    /// Parse XML text into JSON text: the canonical printed form of the
    /// JSON representation, a single-pair object of the root element.
    pub fn transcode(&self, xml: &[u8]) -> (r: Result<Vec<u8>, XmlTranscodeError>)
        ensures
            r.is_ok() <==> spec_xml_parse(self.strip_namespaces, self.include_attributes, self.spec_prefix(), self.spec_tkey(), xml@) is Some,
            (match r {
                Ok(b) => (match spec_xml_parse(self.strip_namespaces, self.include_attributes, self.spec_prefix(), self.spec_tkey(), xml@) {
                    Some(v) => b@ == crate::json::spec_print(v),
                    None => false,
                }),
                Err(_) => true,
            }),
    {
        match self.transcode_value(xml) {
            Ok(v) => {
                let printed = crate::json::print_json(&v);
                proof {
                    assert(printed@ == crate::json::spec_print(v@)
                        && (v@ matches JsonView::Obj(p) && p.len() == 1));
                }
                Ok(printed)
            },
            Err(e) => Err(e),
        }
    }

    /// Parse one element starting at the `<` at position `i`; yields the
    /// (possibly namespace-stripped) name, the content value, and the
    /// position after the element: exactly what `spec_parse_element` yields,
    /// failing exactly where it yields nothing.
    #[verifier::loop_isolation(false)]
    #[verifier::rlimit(100)]
    #[verifier::spinoff_prover]
    fn parse_element(&self, xml: &[u8], i: usize, depth: usize)
        -> (r: Result<(Vec<u8>, JsonVal, usize), XmlTranscodeError>)
        requires
            i <= xml@.len(),
        ensures
            (match r {
                Ok(t) => i < t.2 <= xml@.len()
                    && spec_parse_element(self.strip_namespaces, self.include_attributes, self.spec_prefix(), self.spec_tkey(), xml@, i as int, depth as int)
                        == Some((t.0@, json_view(t.1), t.2 as int)),
                Err(_) => spec_parse_element(self.strip_namespaces, self.include_attributes, self.spec_prefix(), self.spec_tkey(), xml@, i as int, depth as int)
                    is None,
            }),
        decreases xml@.len() - i, 0nat,
    {
        let n = xml.len();
        if depth > 256 {
            return Err(XmlTranscodeError::ParseError("Nesting too deep".to_owned()));
        }
        if i >= n || xml[i] != 60 {
            return Err(XmlTranscodeError::ParseError("Expected element".to_owned()));
        }
        // Element name.
        let mut j = i + 1;
        let name_start = j;
        while j < n && !is_name_end(xml[j])
            invariant
                name_start <= j <= n,
                n == xml@.len(),
                spec_name_scan(xml@, i as int + 1) == spec_name_scan(xml@, j as int),
            decreases n - j,
        {
            j += 1;
        }
        proof {
            assert(spec_name_scan(xml@, i as int + 1) == j as int);
        }
        if j == name_start || j >= n {
            return Err(XmlTranscodeError::ParseError("Bad element name".to_owned()));
        }
        let name = self.element_name(xml, name_start, j);
        // Attributes.
        let mut attrs: Vec<(Vec<u8>, JsonVal)> = Vec::new();
        let mut k = j;
        proof {
            assert(obj_view(attrs@) =~= Seq::<(Seq<u8>, JsonView)>::empty());
        }
        loop
            invariant
                j <= k <= n,
                n == xml@.len(),
                i < j,
                spec_parse_attrs(self.include_attributes, self.spec_prefix(), xml@, j as int, Seq::empty())
                    == spec_parse_attrs(self.include_attributes, self.spec_prefix(), xml@, k as int, obj_view(attrs@)),
            decreases n - k,
        {
            let ghost k_in = k as int;
            let ghost acc_in = obj_view(attrs@);
            k = skip_ws(xml, k);
            if k >= n {
                return Err(XmlTranscodeError::ParseError("Unterminated tag".to_owned()));
            }
            if xml[k] == 62 {
                // `>`: children follow.
                proof {
                    assert(spec_parse_attrs(self.include_attributes, self.spec_prefix(), xml@, k_in, acc_in)
                        == Some((acc_in, k as int + 1, false)));
                }
                k += 1;
                break;
            }
            if xml[k] == 47 {
                // `/>`: an empty element.
                if k + 1 < n && xml[k + 1] == 62 {
                    proof {
                        assert(spec_parse_attrs(self.include_attributes, self.spec_prefix(), xml@, k_in, acc_in)
                            == Some((acc_in, k as int + 2, true)));
                        crate::json::lemma_obj_view_index(attrs@);
                    }
                    let ghost accv = obj_view(attrs@);
                    let content = if attrs.len() > 0 {
                        JsonVal::Obj(attrs)
                    } else {
                        JsonVal::Null
                    };
                    proof {
                        assert(spec_parse_element(self.strip_namespaces, self.include_attributes, self.spec_prefix(), self.spec_tkey(), xml@, i as int, depth as int)
                            == Some((name@, json_view(content), k as int + 2)));
                    }
                    return Ok((name, content, k + 2));
                }
                return Err(XmlTranscodeError::ParseError("Bad empty element".to_owned()));
            }
            // An attribute: name="value" or name='value'.
            let an_start = k;
            let mut an_end = k;
            while an_end < n && xml[an_end] != 61 && !is_name_end(xml[an_end])
                invariant
                    an_start <= an_end <= n,
                    n == xml@.len(),
                    spec_attr_name_scan(xml@, an_start as int)
                        == spec_attr_name_scan(xml@, an_end as int),
                decreases n - an_end,
            {
                an_end += 1;
            }
            proof {
                assert(spec_attr_name_scan(xml@, an_start as int) == an_end as int);
            }
            if an_end >= n || xml[an_end] != 61 || an_end == an_start {
                return Err(XmlTranscodeError::ParseError("Bad attribute".to_owned()));
            }
            let q = an_end + 1;
            if q >= n || (xml[q] != 34 && xml[q] != 39) {
                return Err(XmlTranscodeError::ParseError("Bad attribute value".to_owned()));
            }
            let quote = xml[q];
            let mut av_end = q + 1;
            while av_end < n && xml[av_end] != quote
                invariant
                    q + 1 <= av_end <= n,
                    n == xml@.len(),
                    quote == xml@[q as int],
                    spec_scan_to(xml@, q as int + 1, quote)
                        == spec_scan_to(xml@, av_end as int, quote),
                decreases n - av_end,
            {
                av_end += 1;
            }
            proof {
                assert(spec_scan_to(xml@, q as int + 1, quote) == av_end as int);
            }
            if av_end >= n {
                return Err(XmlTranscodeError::ParseError(
                    "Unterminated attribute".to_owned()));
            }
            if self.include_attributes {
                let ghost attrs_b = attrs@;
                let mut attr_key: Vec<u8> = Vec::new();
                push_str_bytes(&mut attr_key, self.attribute_prefix.as_str());
                push_byte_range(&mut attr_key, xml, an_start, an_end);
                proof {
                    assert(attr_key@ =~= self.spec_prefix()
                        + xml@.subrange(an_start as int, an_end as int));
                }
                let mut attr_val: Vec<u8> = Vec::new();
                push_unescaped(&mut attr_val, xml, q + 1, av_end);
                let ghost akv = attr_key@;
                let ghost avv = attr_val@;
                attrs.push((attr_key, JsonVal::Str(attr_val)));
                proof {
                    lemma_obj_push(attrs_b, attrs@, (akv, JsonView::Str(avv)));
                    assert(acc_in + seq![(akv, JsonView::Str(avv))]
                        =~= acc_in.push((akv, JsonView::Str(avv))));
                }
            }
            proof {
                assert(spec_parse_attrs(self.include_attributes, self.spec_prefix(), xml@, k_in, acc_in)
                    == spec_parse_attrs(self.include_attributes, self.spec_prefix(), xml@, av_end as int + 1,
                        obj_view(attrs@)));
            }
            k = av_end + 1;
        }
        // Children and text.
        let ghost accv = obj_view(attrs@);
        let ghost body_k = k as int;
        proof {
            assert(spec_parse_attrs(self.include_attributes, self.spec_prefix(), xml@, j as int, Seq::empty())
                == Some((accv, body_k, false)));
            crate::json::lemma_obj_view_index(attrs@);
        }
        let mut text: Vec<u8> = Vec::new();
        let mut child_names: Vec<Vec<u8>> = Vec::new();
        let mut child_groups: Vec<Vec<JsonVal>> = Vec::new();
        let ghost mut recs: Seq<(Seq<u8>, JsonView)> = Seq::empty();
        loop
            invariant
                i < k <= n,
                n == xml@.len(),
                child_names@.len() == child_groups@.len(),
                forall|x: int, y: int| 0 <= x < y < child_names@.len()
                    ==> (#[trigger] child_names@[x])@ != (#[trigger] child_names@[y])@,
                child_names@.map_values(|nm: Vec<u8>| nm@) == spec_kid_names(recs),
                forall|x: int| 0 <= x < child_groups@.len()
                    ==> arr_view((#[trigger] child_groups@[x])@)
                        == spec_kid_group(recs, child_names@[x]@),
                spec_parse_children(self.strip_namespaces, self.include_attributes, self.spec_prefix(), self.spec_tkey(), xml@, body_k, depth as int)
                    == (match spec_parse_children(self.strip_namespaces, self.include_attributes, self.spec_prefix(), self.spec_tkey(), xml@, k as int, depth as int) {
                        None => None::<(Seq<(Seq<u8>, JsonView)>, Seq<u8>, int)>,
                        Some(t2) => Some((recs + t2.0, text@ + t2.1, t2.2)),
                    }),
            decreases n - k,
        {
            if k >= n {
                return Err(XmlTranscodeError::InvalidStructure(
                    "Unexpected end of file".to_owned()));
            }
            if xml[k] == 60 {
                if k + 1 < n && xml[k + 1] == 47 {
                    // `</name>`: the end of this element.
                    let mut e = k + 2;
                    while e < n && xml[e] != 62
                        invariant
                            k + 2 <= e <= n,
                            n == xml@.len(),
                            spec_scan_to(xml@, k as int + 2, 62)
                                == spec_scan_to(xml@, e as int, 62),
                        decreases n - e,
                    {
                        e += 1;
                    }
                    proof {
                        assert(spec_scan_to(xml@, k as int + 2, 62) == e as int);
                    }
                    if e >= n {
                        return Err(XmlTranscodeError::ParseError(
                            "Unterminated end tag".to_owned()));
                    }
                    proof {
                        assert(spec_parse_children(self.strip_namespaces, self.include_attributes, self.spec_prefix(), self.spec_tkey(), xml@, k as int, depth as int)
                            == Some((Seq::<(Seq<u8>, JsonView)>::empty(),
                                Seq::<u8>::empty(), e as int + 1)));
                        assert(recs + Seq::<(Seq<u8>, JsonView)>::empty() =~= recs);
                        assert(text@ + Seq::<u8>::empty() =~= text@);
                        assert(spec_parse_children(self.strip_namespaces, self.include_attributes, self.spec_prefix(), self.spec_tkey(), xml@, body_k, depth as int)
                            == Some((recs, text@, e as int + 1)));
                    }
                    let ghost names_v = child_names@.map_values(|nm: Vec<u8>| nm@);
                    let ghost groups_v = child_groups@.map_values(
                        |gr: Vec<JsonVal>| arr_view(gr@));
                    let ghost textv = text@;
                    let content = self.assemble(attrs, child_names, child_groups, text);
                    proof {
                        assert(groups_v =~= spec_kid_groups(recs)) by {
                            assert(names_v == spec_kid_names(recs));
                            assert(forall|x: int| 0 <= x < names_v.len()
                                ==> #[trigger] spec_kid_groups(recs)[x]
                                    == spec_kid_group(recs, names_v[x]));
                        }
                        assert(json_view(content) == spec_content(self.spec_tkey(), accv,
                            spec_kid_names(recs), spec_kid_groups(recs), textv));
                        assert(spec_parse_element(self.strip_namespaces, self.include_attributes, self.spec_prefix(), self.spec_tkey(), xml@, i as int, depth as int)
                            == Some((name@, json_view(content), e as int + 1)));
                    }
                    return Ok((name, content, e + 1));
                }
                // A child element.
                let (child_name, child_value, next) = match self.parse_element(xml, k,
                    depth + 1) {
                    Ok(t) => t,
                    Err(e) => {
                        return Err(e);
                    },
                };
                let ghost cnv = child_name@;
                let ghost cvv = json_view(child_value);
                let ghost recs_b = recs;
                let ghost text_b = text@;
                // Group the child under its name.
                let mut found: Option<usize> = None;
                let mut g: usize = 0;
                while g < child_names.len()
                    invariant
                        g <= child_names@.len(),
                        child_names@.len() == child_groups@.len(),
                        (match found {
                            Some(f) => f < child_names@.len()
                                && child_names@[f as int]@ == cnv,
                            None => forall|x: int| 0 <= x < g
                                ==> (#[trigger] child_names@[x])@ != cnv,
                        }),
                    decreases child_names@.len() - g,
                {
                    if found.is_none() {
                        let same = crate::body::payload_starts_with(&child_names[g],
                            child_name.as_slice())
                            && child_names[g].len() == child_name.len();
                        proof {
                            if same {
                                assert(child_names@[g as int]@.subrange(0,
                                    cnv.len() as int) =~= child_names@[g as int]@);
                                assert(child_names@[g as int]@ == cnv);
                            }
                            if child_names@[g as int]@ == cnv {
                                assert(child_names@[g as int]@.subrange(0,
                                    cnv.len() as int) =~= cnv);
                            }
                            assert(same == (child_names@[g as int]@ == cnv));
                        }
                        if same {
                            found = Some(g);
                        }
                    }
                    g += 1;
                }
                match found {
                    Some(f) => {
                        let ghost groups_b = child_groups@;
                        let mut group = Vec::new();
                        core::mem::swap(&mut group, &mut child_groups[f]);
                        group.push(child_value);
                        core::mem::swap(&mut group, &mut child_groups[f]);
                        proof {
                            recs = recs.push((cnv, cvv));
                            lemma_kid_step_found(recs_b, recs, child_names@, groups_b,
                                child_groups@, f as int, child_groups@[f as int]@.last());
                        }
                    },
                    None => {
                        let ghost names_b = child_names@;
                        let ghost groups_b = child_groups@;
                        child_names.push(child_name);
                        let mut group: Vec<JsonVal> = Vec::new();
                        group.push(child_value);
                        child_groups.push(group);
                        proof {
                            recs = recs.push((cnv, cvv));
                            assert(child_groups@.last()@
                                =~= seq![child_groups@.last()@[0]]);
                            assert(child_names@.last()@ == cnv);
                            assert(forall|x: int| 0 <= x < names_b.len()
                                ==> #[trigger] child_names@[x] == names_b[x]);
                            assert(forall|x: int| 0 <= x < names_b.len()
                                ==> (#[trigger] names_b[x])@ != cnv);
                            assert(child_groups@.last()@[0] == group@[0]);
                            assert(json_view(child_groups@.last()@[0]) == cvv);
                            lemma_kid_step_new(recs_b, recs, names_b, child_names@,
                                groups_b, child_groups@,
                                child_groups@.last()@[0]);
                        }
                    },
                }
                proof {
                    let rn = spec_parse_children(self.strip_namespaces, self.include_attributes, self.spec_prefix(), self.spec_tkey(), xml@, next as int, depth as int);
                    assert(spec_parse_children(self.strip_namespaces, self.include_attributes, self.spec_prefix(), self.spec_tkey(), xml@, k as int, depth as int)
                        == (match rn {
                            None => None::<(Seq<(Seq<u8>, JsonView)>, Seq<u8>, int)>,
                            Some(t2) => Some((seq![(cnv, cvv)] + t2.0, t2.1, t2.2)),
                        }));
                    if rn is Some {
                        let t2 = rn->Some_0;
                        assert(recs_b + (seq![(cnv, cvv)] + t2.0) =~= recs + t2.0);
                    }
                }
                k = next;
            } else {
                // Text content up to the next `<`, trimmed, unescaped.
                let t_start = k;
                let mut t_end = k;
                while t_end < n && xml[t_end] != 60
                    invariant
                        t_start <= t_end <= n,
                        n == xml@.len(),
                        spec_scan_to(xml@, t_start as int, 60)
                            == spec_scan_to(xml@, t_end as int, 60),
                    decreases n - t_end,
                {
                    t_end += 1;
                }
                proof {
                    assert(spec_scan_to(xml@, t_start as int, 60) == t_end as int);
                }
                let (trim_start, trim_end) = trim_range(xml, t_start, t_end);
                let ghost text_b = text@;
                if trim_start < trim_end {
                    push_unescaped(&mut text, xml, trim_start, trim_end);
                }
                if t_end == k {
                    return Err(XmlTranscodeError::ParseError("Parser stalled".to_owned()));
                }
                proof {
                    let seg: Seq<u8> = if trim_start < trim_end {
                        spec_unescape(xml@, trim_start as int, trim_end as int)
                    } else {
                        Seq::empty()
                    };
                    assert(text@ == text_b + seg) by {
                        if !(trim_start < trim_end) {
                            assert(text_b + Seq::<u8>::empty() =~= text_b);
                        }
                    }
                    let rn = spec_parse_children(self.strip_namespaces, self.include_attributes, self.spec_prefix(), self.spec_tkey(), xml@, t_end as int, depth as int);
                    assert(spec_parse_children(self.strip_namespaces, self.include_attributes, self.spec_prefix(), self.spec_tkey(), xml@, k as int, depth as int)
                        == (match rn {
                            None => None::<(Seq<(Seq<u8>, JsonView)>, Seq<u8>, int)>,
                            Some(t2) => Some((t2.0, seg + t2.1, t2.2)),
                        }));
                    if rn is Some {
                        let t2 = rn->Some_0;
                        assert(text_b + (seg + t2.1) =~= text@ + t2.1);
                    }
                }
                k = t_end;
            }
        }
    }

    /// Assemble an element's content out of its attributes, grouped
    /// children and text.
    #[verifier::loop_isolation(false)]
    fn assemble(
        &self,
        attrs: Vec<(Vec<u8>, JsonVal)>,
        child_names: Vec<Vec<u8>>,
        child_groups: Vec<Vec<JsonVal>>,
        text: Vec<u8>,
    ) -> (r: JsonVal)
        requires
            child_names@.len() == child_groups@.len(),
        ensures
            json_view(r) == spec_content(vstd::utf8::encode_utf8(self.text_key@),
                obj_view(attrs@), child_names@.map_values(|nm: Vec<u8>| nm@),
                child_groups@.map_values(|gr: Vec<JsonVal>| arr_view(gr@)), text@),
    {
        let ghost nviews = child_names@.map_values(|nm: Vec<u8>| nm@);
        let ghost gviews = child_groups@.map_values(|gr: Vec<JsonVal>| arr_view(gr@));
        proof {
            crate::json::lemma_obj_view_index(attrs@);
        }
        if attrs.len() == 0 && child_names.len() == 0 {
            if text.len() == 0 {
                return JsonVal::Null;
            }
            return JsonVal::Str(text);
        }
        let mut pairs: Vec<(Vec<u8>, JsonVal)> = attrs;
        let ghost attrs0 = obj_view(pairs@);
        let mut g: usize = 0;
        let mut names = child_names;
        let mut groups = child_groups;
        let n_kids = names.len();
        proof {
            assert(attrs0 + spec_kid_pairs(nviews, gviews, 0)
                =~= obj_view(pairs@) + spec_kid_pairs(nviews, gviews, 0));
        }
        while g < n_kids
            invariant
                g <= n_kids,
                n_kids == names@.len(),
                names@.len() == groups@.len(),
                nviews.len() == n_kids,
                gviews.len() == n_kids,
                forall|x: int| g <= x < n_kids ==> (#[trigger] names@[x])@ == nviews[x],
                forall|x: int| g <= x < n_kids
                    ==> arr_view((#[trigger] groups@[x])@) == gviews[x],
                attrs0 + spec_kid_pairs(nviews, gviews, 0)
                    == obj_view(pairs@) + spec_kid_pairs(nviews, gviews, g as int),
            decreases n_kids - g,
        {
            let ghost pairs_before = pairs@;
            let mut group = Vec::new();
            core::mem::swap(&mut group, &mut groups[g]);
            let mut name = Vec::new();
            core::mem::swap(&mut name, &mut names[g]);
            let ghost gq0 = group@;
            let ghost gv = gviews[g as int];
            proof {
                assert(arr_view(gq0) == gv);
                crate::json::lemma_arr_view_index(gq0);
            }
            if group.len() == 1 {
                let v = match group.pop() {
                    Some(v) => v,
                    None => JsonVal::Null,
                };
                proof {
                    assert(v == gq0[0]);
                    assert(json_view(v) == gv[0]);
                }
                pairs.push((name, v));
                proof {
                    lemma_obj_push(pairs_before, pairs@, (nviews[g as int], gv[0]));
                    assert(spec_kid_pairs(nviews, gviews, g as int)
                        == seq![(nviews[g as int], gv[0])]
                            + spec_kid_pairs(nviews, gviews, g as int + 1));
                    assert(obj_view(pairs_before)
                        + (seq![(nviews[g as int], gv[0])]
                            + spec_kid_pairs(nviews, gviews, g as int + 1))
                        =~= obj_view(pairs@)
                            + spec_kid_pairs(nviews, gviews, g as int + 1));
                }
            } else {
                pairs.push((name, JsonVal::Arr(group)));
                proof {
                    assert(json_view(pairs@.last().1) == JsonView::Arr(arr_view(gq0)));
                    lemma_obj_push(pairs_before, pairs@,
                        (nviews[g as int], JsonView::Arr(gv)));
                    assert(spec_kid_pairs(nviews, gviews, g as int)
                        == seq![(nviews[g as int], JsonView::Arr(gv))]
                            + spec_kid_pairs(nviews, gviews, g as int + 1));
                    assert(obj_view(pairs_before)
                        + (seq![(nviews[g as int], JsonView::Arr(gv))]
                            + spec_kid_pairs(nviews, gviews, g as int + 1))
                        =~= obj_view(pairs@)
                            + spec_kid_pairs(nviews, gviews, g as int + 1));
                }
            }
            g += 1;
        }
        proof {
            assert(spec_kid_pairs(nviews, gviews, n_kids as int)
                =~= Seq::<(Seq<u8>, JsonView)>::empty());
            assert(obj_view(pairs@) + spec_kid_pairs(nviews, gviews, n_kids as int)
                =~= obj_view(pairs@));
        }
        if text.len() > 0 {
            let ghost pairs_before = pairs@;
            let mut key: Vec<u8> = Vec::new();
            push_str_bytes(&mut key, self.text_key.as_str());
            proof {
                assert(key@ =~= vstd::utf8::encode_utf8(self.text_key@));
            }
            pairs.push((key, JsonVal::Str(text)));
            proof {
                lemma_obj_push(pairs_before, pairs@,
                    (vstd::utf8::encode_utf8(self.text_key@), JsonView::Str(text@)));
                assert(attrs0 + spec_kid_pairs(nviews, gviews, 0)
                    + seq![(vstd::utf8::encode_utf8(self.text_key@), JsonView::Str(text@))]
                    =~= obj_view(pairs@));
            }
        } else {
            proof {
                assert(attrs0 + spec_kid_pairs(nviews, gviews, 0)
                    + Seq::<(Seq<u8>, JsonView)>::empty() =~= obj_view(pairs@));
            }
        }
        JsonVal::Obj(pairs)
    }

    /// The element name between two positions, with the namespace prefix
    /// stripped when configured: everything after the last colon.
    #[verifier::loop_isolation(false)]
    fn element_name(&self, xml: &[u8], start: usize, end: usize) -> (r: Vec<u8>)
        requires
            start <= end <= xml@.len(),
        ensures
            r@ == spec_elem_name(self.strip_namespaces, xml@, start as int, end as int),
    {
        let mut from = start;
        if self.strip_namespaces {
            let mut p = start;
            while p < end
                invariant
                    start <= from <= p <= end,
                    end <= xml@.len(),
                    spec_after_last_colon(xml@, start as int, start as int, end as int)
                        == spec_after_last_colon(xml@, p as int, from as int, end as int),
                decreases end - p,
            {
                if xml[p] == 58 {
                    from = p + 1;
                }
                p += 1;
            }
            proof {
                assert(spec_after_last_colon(xml@, end as int, from as int, end as int)
                    == from as int);
            }
        }
        let mut out: Vec<u8> = Vec::new();
        push_byte_range(&mut out, xml, from, end);
        proof {
            assert(out@ =~= xml@.subrange(from as int, end as int));
        }
        out
    }
}

/// Whether a byte ends an element or attribute name.
fn is_name_end(b: u8) -> (r: bool)
    ensures
        r == spec_name_end(b),
{
    b == 32 || b == 9 || b == 10 || b == 13 || b == 62 || b == 47
}

/// First position at or after `i` holding a non-whitespace byte.
#[verifier::loop_isolation(false)]
fn skip_ws(xml: &[u8], i: usize) -> (r: usize)
    requires
        i <= xml@.len(),
    ensures
        i <= r <= xml@.len(),
        r == spec_skip_ws(xml@, i as int),
{
    let n = xml.len();
    let mut j = i;
    while j < n && (xml[j] == 32 || xml[j] == 9 || xml[j] == 10 || xml[j] == 13)
        invariant
            i <= j <= n,
            n == xml@.len(),
            spec_skip_ws(xml@, i as int) == spec_skip_ws(xml@, j as int),
        decreases n - j,
    {
        j += 1;
    }
    j
}

/// The given range with leading and trailing whitespace removed.
fn trim_range(xml: &[u8], start: usize, end: usize) -> (r: (usize, usize))
    requires
        start <= end <= xml@.len(),
    ensures
        start <= r.0 <= r.1 <= end,
        r.0 == spec_trim_start(xml@, start as int, end as int),
        r.1 == spec_trim_end(xml@, r.0 as int, end as int),
{
    let mut a = start;
    while a < end && (xml[a] == 32 || xml[a] == 9 || xml[a] == 10 || xml[a] == 13)
        invariant
            start <= a <= end,
            end <= xml@.len(),
            spec_trim_start(xml@, start as int, end as int)
                == spec_trim_start(xml@, a as int, end as int),
        decreases end - a,
    {
        a += 1;
    }
    let ghost a0 = a as int;
    let mut b = end;
    while b > a && (xml[b - 1] == 32 || xml[b - 1] == 9 || xml[b - 1] == 10 || xml[b - 1] == 13)
        invariant
            a <= b <= end,
            end <= xml@.len(),
            a as int == a0,
            spec_trim_end(xml@, a0, end as int) == spec_trim_end(xml@, a0, b as int),
        decreases b,
    {
        b -= 1;
    }
    (a, b)
}

/// Append a byte range verbatim.
#[verifier::loop_isolation(false)]
fn push_byte_range(out: &mut Vec<u8>, xml: &[u8], start: usize, end: usize)
    requires
        start <= end <= xml@.len(),
    ensures
        final(out)@ == old(out)@ + xml@.subrange(start as int, end as int),
{
    let mut i = start;
    while i < end
        invariant
            start <= i <= end,
            end <= xml@.len(),
            out@ == old(out)@ + xml@.subrange(start as int, i as int),
        decreases end - i,
    {
        out.push(xml[i]);
        proof {
            assert(xml@.subrange(start as int, i as int + 1)
                =~= xml@.subrange(start as int, i as int).push(xml@[i as int]));
        }
        i += 1;
    }
}

/// Append a byte range with the five XML entities decoded.
#[verifier::loop_isolation(false)]
fn push_unescaped(out: &mut Vec<u8>, xml: &[u8], start: usize, end: usize)
    requires
        start <= end <= xml@.len(),
    ensures
        final(out)@ == old(out)@ + spec_unescape(xml@, start as int, end as int),
{
    let mut i = start;
    while i < end
        invariant
            start <= i <= end,
            end <= xml@.len(),
            old(out)@ + spec_unescape(xml@, start as int, end as int)
                == out@ + spec_unescape(xml@, i as int, end as int),
        decreases end - i,
    {
        let ghost before = out@;
        if xml[i] == 38 {
            // An entity: read to `;` within a small window.
            let mut e = i + 1;
            while e < end && e - i < 6 && xml[e] != 59
                invariant
                    i < e <= end,
                    end <= xml@.len(),
                    spec_entity_scan(xml@, i as int, i as int + 1, end as int)
                        == spec_entity_scan(xml@, i as int, e as int, end as int),
                decreases end - e,
            {
                e += 1;
            }
            proof {
                assert(spec_entity_scan(xml@, i as int, e as int, end as int) == e as int);
            }
            if e < end && xml[e] == 59 {
                let decoded = entity_byte(xml, i + 1, e);
                match decoded {
                    Some(b) => {
                        out.push(b);
                        proof {
                            assert(spec_unescape(xml@, i as int, end as int)
                                == seq![b] + spec_unescape(xml@, e as int + 1, end as int));
                            assert(before + (seq![b]
                                + spec_unescape(xml@, e as int + 1, end as int))
                                =~= out@ + spec_unescape(xml@, e as int + 1, end as int));
                        }
                        i = e + 1;
                        continue;
                    },
                    None => {},
                }
            }
            out.push(xml[i]);
            proof {
                assert(spec_unescape(xml@, i as int, end as int) == seq![xml@[i as int]]
                    + spec_unescape(xml@, i as int + 1, end as int));
                assert(before + (seq![xml@[i as int]]
                    + spec_unescape(xml@, i as int + 1, end as int))
                    =~= out@ + spec_unescape(xml@, i as int + 1, end as int));
            }
            i += 1;
        } else {
            out.push(xml[i]);
            proof {
                assert(spec_unescape(xml@, i as int, end as int) == seq![xml@[i as int]]
                    + spec_unescape(xml@, i as int + 1, end as int));
                assert(before + (seq![xml@[i as int]]
                    + spec_unescape(xml@, i as int + 1, end as int))
                    =~= out@ + spec_unescape(xml@, i as int + 1, end as int));
            }
            i += 1;
        }
    }
    proof {
        assert(spec_unescape(xml@, end as int, end as int) =~= Seq::<u8>::empty());
        assert(out@ + Seq::<u8>::empty() =~= out@);
    }
}

/// The byte an entity name between `&` and `;` denotes, if it is one of
/// the five standard entities.
fn entity_byte(xml: &[u8], start: usize, end: usize) -> (r: Option<u8>)
    requires
        start <= end <= xml@.len(),
    ensures
        r == spec_entity_byte(xml@, start as int, end as int),
{
    let len = end - start;
    if len == 3 && xml[start] == 97 && xml[start + 1] == 109 && xml[start + 2] == 112 {
        Some(38)
    } else if len == 2 && xml[start] == 108 && xml[start + 1] == 116 {
        Some(60)
    } else if len == 2 && xml[start] == 103 && xml[start + 1] == 116 {
        Some(62)
    } else if len == 4 && xml[start] == 113 && xml[start + 1] == 117 && xml[start + 2] == 111
        && xml[start + 3] == 116 {
        Some(34)
    } else if len == 4 && xml[start] == 97 && xml[start + 1] == 112 && xml[start + 2] == 111
        && xml[start + 3] == 115 {
        Some(39)
    } else {
        None
    }
}

/// Pushing one pair extends the object's view by exactly that pair.
proof fn lemma_obj_push(pairs_before: Seq<(Vec<u8>, JsonVal)>,
    pairs_after: Seq<(Vec<u8>, JsonVal)>, newpair: (Seq<u8>, JsonView))
    requires
        pairs_after.len() == pairs_before.len() + 1,
        forall|p: int| 0 <= p < pairs_before.len()
            ==> #[trigger] pairs_after[p] == pairs_before[p],
        pairs_after.last().0@ == newpair.0,
        json_view(pairs_after.last().1) == newpair.1,
    ensures
        obj_view(pairs_after) == obj_view(pairs_before) + seq![newpair],
{
    crate::json::lemma_obj_view_index(pairs_before);
    crate::json::lemma_obj_view_index(pairs_after);
    assert forall|p: int| 0 <= p < pairs_after.len()
        implies obj_view(pairs_after)[p]
            == (obj_view(pairs_before) + seq![newpair])[p] by {
        assert(obj_view(pairs_after)[p]
            == (pairs_after[p].0@, json_view(pairs_after[p].1)));
        if p < pairs_before.len() {
            assert(pairs_after[p] == pairs_before[p]);
            assert(obj_view(pairs_before)[p]
                == (pairs_before[p].0@, json_view(pairs_before[p].1)));
        } else {
            assert(pairs_after[p] == pairs_after.last());
        }
    }
    assert(obj_view(pairs_after) =~= obj_view(pairs_before) + seq![newpair]);
}

/// Whether a byte is XML whitespace.
pub open spec fn spec_ws_byte(b: u8) -> bool {
    b == 32 || b == 9 || b == 10 || b == 13
}

/// Whether a byte ends an element or attribute name.
pub open spec fn spec_name_end(b: u8) -> bool {
    b == 32 || b == 9 || b == 10 || b == 13 || b == 62 || b == 47
}

/// First non-whitespace position at or after `i`.
pub open spec fn spec_skip_ws(xml: Seq<u8>, i: int) -> int
    decreases xml.len() - i,
{
    if 0 <= i < xml.len() && spec_ws_byte(xml[i]) {
        spec_skip_ws(xml, i + 1)
    } else {
        i
    }
}

/// First position at or after `j` that ends a name.
pub open spec fn spec_name_scan(xml: Seq<u8>, j: int) -> int
    decreases xml.len() - j,
{
    if 0 <= j < xml.len() && !spec_name_end(xml[j]) {
        spec_name_scan(xml, j + 1)
    } else {
        j
    }
}

/// First position at or after `k` holding the byte `b`.
pub open spec fn spec_scan_to(xml: Seq<u8>, k: int, b: u8) -> int
    decreases xml.len() - k,
{
    if 0 <= k < xml.len() && xml[k] != b {
        spec_scan_to(xml, k + 1, b)
    } else {
        k
    }
}

/// First position at or after `e` that ends an attribute name.
pub open spec fn spec_attr_name_scan(xml: Seq<u8>, e: int) -> int
    decreases xml.len() - e,
{
    if 0 <= e < xml.len() && xml[e] != 61 && !spec_name_end(xml[e]) {
        spec_attr_name_scan(xml, e + 1)
    } else {
        e
    }
}

/// Start of the text range with leading whitespace removed.
pub open spec fn spec_trim_start(xml: Seq<u8>, a: int, end: int) -> int
    decreases end - a,
{
    if 0 <= a < end && end <= xml.len() && spec_ws_byte(xml[a]) {
        spec_trim_start(xml, a + 1, end)
    } else {
        a
    }
}

/// End of the text range with trailing whitespace removed.
pub open spec fn spec_trim_end(xml: Seq<u8>, a: int, b: int) -> int
    decreases b,
{
    if 0 <= a < b && b <= xml.len() && spec_ws_byte(xml[b - 1]) {
        spec_trim_end(xml, a, b - 1)
    } else {
        b
    }
}

/// End of an entity name: up to five bytes after the ampersand at `i`,
/// stopped by a semicolon.
pub open spec fn spec_entity_scan(xml: Seq<u8>, i: int, e: int, end: int) -> int
    decreases end - e,
{
    if i < e < end && e - i < 6 && xml[e] != 59 {
        spec_entity_scan(xml, i, e + 1, end)
    } else {
        e
    }
}

/// The byte one of the five standard entity names denotes.
pub open spec fn spec_entity_byte(xml: Seq<u8>, start: int, end: int) -> Option<u8> {
    let len = end - start;
    if len == 3 && xml[start] == 97 && xml[start + 1] == 109 && xml[start + 2] == 112 {
        Some(38u8)
    } else if len == 2 && xml[start] == 108 && xml[start + 1] == 116 {
        Some(60u8)
    } else if len == 2 && xml[start] == 103 && xml[start + 1] == 116 {
        Some(62u8)
    } else if len == 4 && xml[start] == 113 && xml[start + 1] == 117 && xml[start + 2] == 111
        && xml[start + 3] == 116 {
        Some(34u8)
    } else if len == 4 && xml[start] == 97 && xml[start + 1] == 112 && xml[start + 2] == 111
        && xml[start + 3] == 115 {
        Some(39u8)
    } else {
        None
    }
}

/// A byte range with the five XML entities decoded; an unknown or
/// unterminated entity's ampersand passes through verbatim.
pub open spec fn spec_unescape(xml: Seq<u8>, i: int, end: int) -> Seq<u8>
    decreases end - i,
{
    if i < 0 || i >= end || end > xml.len() {
        Seq::empty()
    } else if xml[i] == 38 {
        let e0 = spec_entity_scan(xml, i, i + 1, end);
        let e = if e0 < i + 1 {
            i + 1
        } else {
            e0
        };
        if e < end && xml[e] == 59 && spec_entity_byte(xml, i + 1, e) is Some {
            seq![spec_entity_byte(xml, i + 1, e)->Some_0] + spec_unescape(xml, e + 1, end)
        } else {
            seq![xml[i]] + spec_unescape(xml, i + 1, end)
        }
    } else {
        seq![xml[i]] + spec_unescape(xml, i + 1, end)
    }
}

/// Position after the name's last colon when namespaces are stripped,
/// scanning from `p` with `from` the start found so far.
pub open spec fn spec_after_last_colon(xml: Seq<u8>, p: int, from: int, end: int) -> int
    decreases end - p,
{
    if 0 <= p < end && end <= xml.len() {
        if xml[p] == 58 {
            spec_after_last_colon(xml, p + 1, p + 1, end)
        } else {
            spec_after_last_colon(xml, p + 1, from, end)
        }
    } else {
        from
    }
}

/// The element name between two positions, namespace prefix stripped when
/// configured.
pub open spec fn spec_elem_name(strip: bool, xml: Seq<u8>, start: int, end: int) -> Seq<u8> {
    if strip {
        xml.subrange(spec_after_last_colon(xml, start, start, end), end)
    } else {
        xml.subrange(start, end)
    }
}

/// What parsing the attribute list from `k` yields: the accumulated
/// attribute pairs, the position after the tag's closing bracket, and
/// whether the element was self-closing; or nothing on a malformed tag.
pub open spec fn spec_parse_attrs(with_attrs: bool, prefix: Seq<u8>, xml: Seq<u8>, k: int,
    acc: Seq<(Seq<u8>, JsonView)>) -> Option<(Seq<(Seq<u8>, JsonView)>, int, bool)>
    decreases xml.len() - k,
{
    let k1 = spec_skip_ws(xml, k);
    if !(k <= k1 <= xml.len()) {
        None
    } else if k1 >= xml.len() {
        None
    } else if xml[k1] == 62 {
        Some((acc, k1 + 1, false))
    } else if xml[k1] == 47 {
        if k1 + 1 < xml.len() && xml[k1 + 1] == 62 {
            Some((acc, k1 + 2, true))
        } else {
            None
        }
    } else {
        let ae = spec_attr_name_scan(xml, k1);
        if !(k1 <= ae <= xml.len()) {
            None
        } else if ae >= xml.len() || xml[ae] != 61 || ae == k1 {
            None
        } else {
            let q = ae + 1;
            if q >= xml.len() || (xml[q] != 34 && xml[q] != 39) {
                None
            } else {
                let av = spec_scan_to(xml, q + 1, xml[q]);
                if !(q + 1 <= av <= xml.len()) {
                    None
                } else if av >= xml.len() {
                    None
                } else {
                    let acc2 = if with_attrs {
                        acc.push((prefix + xml.subrange(k1, ae),
                            JsonView::Str(spec_unescape(xml, q + 1, av))))
                    } else {
                        acc
                    };
                    spec_parse_attrs(with_attrs, prefix, xml, av + 1, acc2)
                }
            }
        }
    }
}

/// The distinct child names of a record list, in first-appearance order.
pub open spec fn spec_kid_names(recs: Seq<(Seq<u8>, JsonView)>) -> Seq<Seq<u8>>
    decreases recs.len(),
{
    if recs.len() == 0 {
        Seq::empty()
    } else {
        let rest = spec_kid_names(recs.drop_last());
        if rest.contains(recs.last().0) {
            rest
        } else {
            rest.push(recs.last().0)
        }
    }
}

/// The values recorded under one child name, in document order.
pub open spec fn spec_kid_group(recs: Seq<(Seq<u8>, JsonView)>, nm: Seq<u8>) -> Seq<JsonView>
    decreases recs.len(),
{
    if recs.len() == 0 {
        Seq::empty()
    } else {
        let rest = spec_kid_group(recs.drop_last(), nm);
        if recs.last().0 == nm {
            rest.push(recs.last().1)
        } else {
            rest
        }
    }
}

/// The child pairs from group `g` on: a singleton group as the value, a
/// repeated name as an array.
pub open spec fn spec_kid_pairs(names: Seq<Seq<u8>>, groups: Seq<Seq<JsonView>>, g: int)
    -> Seq<(Seq<u8>, JsonView)>
    decreases names.len() - g,
{
    if g < 0 || g >= names.len() || g >= groups.len() {
        Seq::empty()
    } else {
        let gv = groups[g];
        let head = if gv.len() == 1 {
            seq![(names[g], gv[0])]
        } else {
            seq![(names[g], JsonView::Arr(gv))]
        };
        head + spec_kid_pairs(names, groups, g + 1)
    }
}

/// An element's content out of its attributes, grouped children and text:
/// bare text (or null) without attributes and children, else an object of
/// attributes, child pairs and the text under the text key.
pub open spec fn spec_content(tkey: Seq<u8>, attrs: Seq<(Seq<u8>, JsonView)>,
    names: Seq<Seq<u8>>, groups: Seq<Seq<JsonView>>, text: Seq<u8>) -> JsonView
{
    if attrs.len() == 0 && names.len() == 0 {
        if text.len() == 0 {
            JsonView::Null
        } else {
            JsonView::Str(text)
        }
    } else {
        JsonView::Obj(attrs + spec_kid_pairs(names, groups, 0) + (if text.len() > 0 {
            seq![(tkey, JsonView::Str(text))]
        } else {
            Seq::<(Seq<u8>, JsonView)>::empty()
        }))
    }
}

/// The groups of a record list under its first-appearance names.
pub open spec fn spec_kid_groups(recs: Seq<(Seq<u8>, JsonView)>) -> Seq<Seq<JsonView>> {
    spec_kid_names(recs).map_values(|nm: Seq<u8>| spec_kid_group(recs, nm))
}

/// What parsing one element at the `<` at `i` yields: the (possibly
/// namespace-stripped) name, the content value and the position after the
/// element; or nothing on malformed input or nesting past the bound.
pub open spec fn spec_parse_element(strip: bool, with_attrs: bool, prefix: Seq<u8>,
    tkey: Seq<u8>, xml: Seq<u8>, i: int, depth: int) -> Option<(Seq<u8>, JsonView, int)>
    decreases xml.len() - i, 0nat,
{
    if depth > 256 {
        None
    } else if i < 0 || i >= xml.len() || xml[i] != 60 {
        None
    } else {
        let j = spec_name_scan(xml, i + 1);
        if !(i + 1 <= j <= xml.len()) {
            None
        } else if j == i + 1 || j >= xml.len() {
            None
        } else {
            let name = spec_elem_name(strip, xml, i + 1, j);
            match spec_parse_attrs(with_attrs, prefix, xml, j, Seq::empty()) {
                None => None,
                Some((attrs, next, closed)) => if !(i < next <= xml.len()) {
                    None
                } else if closed {
                    let content = if attrs.len() > 0 {
                        JsonView::Obj(attrs)
                    } else {
                        JsonView::Null
                    };
                    Some((name, content, next))
                } else {
                    match spec_parse_children(strip, with_attrs, prefix, tkey, xml, next,
                        depth) {
                        None => None,
                        Some((recs, text, endk)) => Some((name,
                            spec_content(tkey, attrs, spec_kid_names(recs),
                                spec_kid_groups(recs), text), endk)),
                    }
                },
            }
        }
    }
}

/// What parsing an element's body from `k` yields: the child records in
/// document order, the concatenated trimmed unescaped text, and the
/// position after the end tag; or nothing on malformed input.
pub open spec fn spec_parse_children(strip: bool, with_attrs: bool, prefix: Seq<u8>,
    tkey: Seq<u8>, xml: Seq<u8>, k: int, depth: int)
    -> Option<(Seq<(Seq<u8>, JsonView)>, Seq<u8>, int)>
    decreases xml.len() - k, 1nat,
{
    if k < 0 || k >= xml.len() {
        None
    } else if xml[k] == 60 {
        if k + 1 < xml.len() && xml[k + 1] == 47 {
            let e = spec_scan_to(xml, k + 2, 62);
            if !(k + 2 <= e <= xml.len()) {
                None
            } else if e >= xml.len() {
                None
            } else {
                Some((Seq::empty(), Seq::empty(), e + 1))
            }
        } else {
            match spec_parse_element(strip, with_attrs, prefix, tkey, xml, k, depth + 1) {
                None => None,
                Some((nm, val, next)) => if !(k < next <= xml.len()) {
                    None
                } else {
                    match spec_parse_children(strip, with_attrs, prefix, tkey, xml, next,
                        depth) {
                        None => None,
                        Some((recs, text, endk)) => Some((seq![(nm, val)] + recs, text,
                            endk)),
                    }
                },
            }
        }
    } else {
        let t_end = spec_scan_to(xml, k, 60);
        if !(k < t_end <= xml.len()) {
            None
        } else {
            let a = spec_trim_start(xml, k, t_end);
            let b = spec_trim_end(xml, a, t_end);
            let seg = if a < b {
                spec_unescape(xml, a, b)
            } else {
                Seq::<u8>::empty()
            };
            match spec_parse_children(strip, with_attrs, prefix, tkey, xml, t_end, depth) {
                None => None,
                Some((recs, text, endk)) => Some((recs, seg + text, endk)),
            }
        }
    }
}

/// A name outside the first-appearance list has an empty group.
proof fn lemma_unlisted_group_empty(recs: Seq<(Seq<u8>, JsonView)>, nm: Seq<u8>)
    requires
        !spec_kid_names(recs).contains(nm),
    ensures
        spec_kid_group(recs, nm) =~= Seq::<JsonView>::empty(),
    decreases recs.len(),
{
    if recs.len() > 0 {
        let rest = recs.drop_last();
        if spec_kid_names(rest).contains(nm) {
            if spec_kid_names(rest).contains(recs.last().0) {
                assert(spec_kid_names(recs).contains(nm));
            } else {
                let w = choose|w: int| 0 <= w < spec_kid_names(rest).len()
                    && spec_kid_names(rest)[w] == nm;
                assert(spec_kid_names(recs)[w] == nm);
                assert(spec_kid_names(recs).contains(nm));
            }
            assert(false);
        }
        lemma_unlisted_group_empty(rest, nm);
        if recs.last().0 == nm {
            assert(spec_kid_names(recs).last() == nm);
            assert(spec_kid_names(recs).contains(nm));
            assert(false);
        }
    }
}

/// Appending one child record under a listed name extends exactly its own
/// group, and the name list is unchanged.
proof fn lemma_kid_step_found(
    recs: Seq<(Seq<u8>, JsonView)>,
    recs2: Seq<(Seq<u8>, JsonView)>,
    names: Seq<Vec<u8>>,
    groups_before: Seq<Vec<JsonVal>>,
    groups_after: Seq<Vec<JsonVal>>,
    f: int,
    val: JsonVal,
)
    requires
        0 <= f < names.len(),
        names.len() == groups_before.len(),
        groups_after.len() == groups_before.len(),
        names.map_values(|nm: Vec<u8>| nm@) == spec_kid_names(recs),
        forall|x: int| 0 <= x < groups_before.len()
            ==> arr_view((#[trigger] groups_before[x])@)
                == spec_kid_group(recs, names[x]@),
        forall|x: int, y: int| 0 <= x < y < names.len()
            ==> (#[trigger] names[x])@ != (#[trigger] names[y])@,
        forall|x: int| 0 <= x < groups_after.len() && x != f
            ==> groups_after[x] == groups_before[x],
        groups_after[f]@ == groups_before[f]@.push(val),
        recs2 == recs.push((names[f]@, json_view(val))),
    ensures
        names.map_values(|nm: Vec<u8>| nm@) == spec_kid_names(recs2),
        forall|x: int| 0 <= x < groups_after.len()
            ==> arr_view((#[trigger] groups_after[x])@)
                == spec_kid_group(recs2, names[x]@),
{
    assert(recs2.drop_last() =~= recs);
    assert(names.map_values(|nm: Vec<u8>| nm@)[f] == names[f]@);
    assert(spec_kid_names(recs).contains(names[f]@));
    assert(spec_kid_names(recs2) == spec_kid_names(recs));
    assert forall|x: int| 0 <= x < groups_after.len()
        implies arr_view((#[trigger] groups_after[x])@)
            == spec_kid_group(recs2, names[x]@) by {
        if x == f {
            let gb = groups_before[f]@;
            let ga = groups_after[f]@;
            crate::json::lemma_arr_view_index(gb);
            crate::json::lemma_arr_view_index(ga);
            assert forall|w: int| 0 <= w < ga.len()
                implies arr_view(ga)[w] == arr_view(gb).push(json_view(val))[w] by {
                assert(arr_view(ga)[w] == json_view(ga[w]));
                if w < gb.len() {
                    assert(ga[w] == gb[w]);
                    assert(arr_view(gb)[w] == json_view(gb[w]));
                } else {
                    assert(ga[w] == val);
                }
            }
            assert(arr_view(ga) =~= arr_view(gb).push(json_view(val)));
            assert(spec_kid_group(recs2, names[f]@)
                == spec_kid_group(recs, names[f]@).push(json_view(val)));
        } else {
            assert(names[x]@ != names[f]@);
            assert(spec_kid_group(recs2, names[x]@) == spec_kid_group(recs, names[x]@));
        }
    }
}

/// Appending one child record under a fresh name adds that name with a
/// singleton group; the other groups stand.
proof fn lemma_kid_step_new(
    recs: Seq<(Seq<u8>, JsonView)>,
    recs2: Seq<(Seq<u8>, JsonView)>,
    names_before: Seq<Vec<u8>>,
    names_after: Seq<Vec<u8>>,
    groups_before: Seq<Vec<JsonVal>>,
    groups_after: Seq<Vec<JsonVal>>,
    val: JsonVal,
)
    requires
        names_before.len() == groups_before.len(),
        names_after.len() == names_before.len() + 1,
        forall|x: int| 0 <= x < names_before.len()
            ==> #[trigger] names_after[x] == names_before[x],
        groups_after.len() == groups_before.len() + 1,
        forall|x: int| 0 <= x < groups_before.len()
            ==> #[trigger] groups_after[x] == groups_before[x],
        groups_after.last()@ == seq![val],
        names_before.map_values(|nm: Vec<u8>| nm@) == spec_kid_names(recs),
        forall|x: int| 0 <= x < groups_before.len()
            ==> arr_view((#[trigger] groups_before[x])@)
                == spec_kid_group(recs, names_before[x]@),
        forall|x: int| 0 <= x < names_before.len()
            ==> (#[trigger] names_before[x])@ != names_after.last()@,
        recs2 == recs.push((names_after.last()@, json_view(val))),
    ensures
        names_after.map_values(|nm: Vec<u8>| nm@) == spec_kid_names(recs2),
        forall|x: int| 0 <= x < groups_after.len()
            ==> arr_view((#[trigger] groups_after[x])@)
                == spec_kid_group(recs2, names_after[x]@),
{
    let nm = names_after.last()@;
    assert(recs2.drop_last() =~= recs);
    if spec_kid_names(recs).contains(nm) {
        let w = choose|w: int| 0 <= w < spec_kid_names(recs).len()
            && spec_kid_names(recs)[w] == nm;
        assert(names_before.map_values(|nm2: Vec<u8>| nm2@)[w] == names_before[w]@);
        assert(false);
    }
    assert(spec_kid_names(recs2) == spec_kid_names(recs).push(nm));
    assert(names_after.map_values(|nm2: Vec<u8>| nm2@)
        =~= spec_kid_names(recs).push(nm));
    lemma_unlisted_group_empty(recs, nm);
    assert forall|x: int| 0 <= x < groups_after.len()
        implies arr_view((#[trigger] groups_after[x])@)
            == spec_kid_group(recs2, names_after[x]@) by {
        if x < groups_before.len() {
            assert(names_after[x]@ != nm);
            assert(spec_kid_group(recs2, names_after[x]@)
                == spec_kid_group(recs, names_after[x]@));
        } else {
            assert(groups_after[x] == groups_after.last());
            crate::json::lemma_arr_view_index(seq![val]);
            assert(arr_view(seq![val]) =~= Seq::<JsonView>::empty().push(json_view(val)));
            assert(spec_kid_group(recs2, nm)
                == spec_kid_group(recs, nm).push(json_view(val)));
        }
    }
}

/// Position of the root element after whitespace, declarations and
/// comments; or nothing when the prolog never ends.
pub open spec fn spec_skip_prolog(xml: Seq<u8>, i: int) -> Option<int>
    decreases xml.len() - i,
{
    let j = spec_skip_ws(xml, i);
    if !(i <= j <= xml.len()) {
        None
    } else if j >= xml.len() {
        None
    } else if xml[j] == 60 && j + 1 < xml.len() && (xml[j + 1] == 63 || xml[j + 1] == 33) {
        let k = spec_scan_to(xml, j + 2, 62);
        if !(j + 2 <= k <= xml.len()) {
            None
        } else if k >= xml.len() {
            None
        } else {
            spec_skip_prolog(xml, k + 1)
        }
    } else {
        Some(j)
    }
}

/// What parsing a whole document yields: a one-pair object of the root
/// element's name to its content; or nothing on malformed input.
pub open spec fn spec_xml_parse(strip: bool, with_attrs: bool, prefix: Seq<u8>,
    tkey: Seq<u8>, xml: Seq<u8>) -> Option<JsonView> {
    match spec_skip_prolog(xml, 0) {
        None => None,
        Some(i) => match spec_parse_element(strip, with_attrs, prefix, tkey, xml, i, 0) {
            None => None,
            Some((name, content, _next)) => Some(JsonView::Obj(seq![(name, content)])),
        },
    }
}

/// The escaped form of one text byte: ampersand, less-than and
/// greater-than take entities.
pub open spec fn spec_xml_text_byte(b: u8) -> Seq<u8> {
    if b == 38 {
        seq![38u8, 97u8, 109u8, 112u8, 59u8]
    } else if b == 60 {
        seq![38u8, 108u8, 116u8, 59u8]
    } else if b == 62 {
        seq![38u8, 103u8, 116u8, 59u8]
    } else {
        seq![b]
    }
}

/// The escaped form of one attribute byte: the text entities plus quote and
/// apostrophe.
pub open spec fn spec_xml_attr_byte(b: u8) -> Seq<u8> {
    if b == 38 {
        seq![38u8, 97u8, 109u8, 112u8, 59u8]
    } else if b == 60 {
        seq![38u8, 108u8, 116u8, 59u8]
    } else if b == 62 {
        seq![38u8, 103u8, 116u8, 59u8]
    } else if b == 34 {
        seq![38u8, 113u8, 117u8, 111u8, 116u8, 59u8]
    } else if b == 39 {
        seq![38u8, 97u8, 112u8, 111u8, 115u8, 59u8]
    } else {
        seq![b]
    }
}

/// Escaped text content, byte for byte.
pub open spec fn spec_xml_text(s: Seq<u8>) -> Seq<u8>
    decreases s.len(),
{
    if s.len() == 0 {
        Seq::empty()
    } else {
        spec_xml_text_byte(s[0]) + spec_xml_text(s.drop_first())
    }
}

/// Escaped attribute value, byte for byte.
pub open spec fn spec_xml_attr(s: Seq<u8>) -> Seq<u8>
    decreases s.len(),
{
    if s.len() == 0 {
        Seq::empty()
    } else {
        spec_xml_attr_byte(s[0]) + spec_xml_attr(s.drop_first())
    }
}

/// Byte escaping distributes over appending one byte.
proof fn lemma_xml_escape_snoc(s: Seq<u8>, b: u8)
    ensures
        spec_xml_text(s.push(b)) == spec_xml_text(s) + spec_xml_text_byte(b),
        spec_xml_attr(s.push(b)) == spec_xml_attr(s) + spec_xml_attr_byte(b),
    decreases s.len(),
{
    if s.len() == 0 {
        assert(s.push(b).drop_first() =~= Seq::<u8>::empty());
        assert(s.push(b)[0] == b);
        assert(spec_xml_text(Seq::<u8>::empty()) =~= Seq::<u8>::empty());
        assert(spec_xml_attr(Seq::<u8>::empty()) =~= Seq::<u8>::empty());
        assert(spec_xml_text(s.push(b))
            == spec_xml_text_byte(b) + spec_xml_text(Seq::<u8>::empty()));
        assert(spec_xml_text(s.push(b)) =~= spec_xml_text_byte(b));
        assert(spec_xml_text(s) + spec_xml_text_byte(b) =~= spec_xml_text_byte(b));
        assert(spec_xml_attr(s.push(b))
            == spec_xml_attr_byte(b) + spec_xml_attr(Seq::<u8>::empty()));
        assert(spec_xml_attr(s.push(b)) =~= spec_xml_attr_byte(b));
        assert(spec_xml_attr(s) + spec_xml_attr_byte(b) =~= spec_xml_attr_byte(b));
    } else {
        assert(s.push(b).drop_first() =~= s.drop_first().push(b));
        assert(s.push(b)[0] == s[0]);
        lemma_xml_escape_snoc(s.drop_first(), b);
        assert(spec_xml_text(s.push(b))
            =~= (spec_xml_text_byte(s[0]) + spec_xml_text(s.drop_first()))
                + spec_xml_text_byte(b));
        assert(spec_xml_attr(s.push(b))
            =~= (spec_xml_attr_byte(s[0]) + spec_xml_attr(s.drop_first()))
                + spec_xml_attr_byte(b));
    }
}

/// The text key, as bytes.
pub open spec fn spec_text_key() -> Seq<u8> {
    seq![35u8, 116u8, 101u8, 120u8, 116u8]
}

/// Whether a key renders as an attribute.
pub open spec fn spec_is_attr_key(k: Seq<u8>) -> bool {
    k.len() >= 1 && k[0] == 64
}

/// Whether a key renders as a child element.
pub open spec fn spec_is_child_key(k: Seq<u8>) -> bool {
    !spec_is_attr_key(k) && k != spec_text_key()
}

/// The rendered XML text of one named value: null renders an empty element;
/// booleans, integers and strings render as element text; an array repeats
/// the element per item; an object renders `@`-prefixed string pairs as
/// attributes, then the other keys as child elements, then the text key's
/// string as text content.
pub open spec fn spec_xml_of(name: Seq<u8>, v: JsonView) -> Seq<u8>
    decreases v, 0int,
{
    match v {
        JsonView::Null => seq![60u8] + name + seq![47u8, 62u8],
        JsonView::Bool(b) => seq![60u8] + name + seq![62u8]
            + (if b { seq![116u8, 114u8, 117u8, 101u8] } else {
                seq![102u8, 97u8, 108u8, 115u8, 101u8]
            }) + seq![60u8, 47u8] + name + seq![62u8],
        JsonView::Int(x) => seq![60u8] + name + seq![62u8] + crate::json::spec_int_bytes(x)
            + seq![60u8, 47u8] + name + seq![62u8],
        JsonView::Str(t) => seq![60u8] + name + seq![62u8] + spec_xml_text(t)
            + seq![60u8, 47u8] + name + seq![62u8],
        JsonView::Arr(items) => spec_xml_items(name, items),
        JsonView::Obj(pairs) => seq![60u8] + name + spec_xml_attrs(pairs) + seq![62u8]
            + spec_xml_children(pairs) + spec_xml_texts(pairs)
            + seq![60u8, 47u8] + name + seq![62u8],
    }
}

/// The rendered items of an array, each under the same name.
pub open spec fn spec_xml_items(name: Seq<u8>, items: Seq<JsonView>) -> Seq<u8>
    decreases items, 1int,
{
    if items.len() == 0 {
        Seq::empty()
    } else {
        spec_xml_of(name, items[0]) + spec_xml_items(name, items.subrange(1,
            items.len() as int))
    }
}

/// The rendered attributes of an object: each `@`-prefixed key with a
/// string value, in order.
pub open spec fn spec_xml_attrs(pairs: Seq<(Seq<u8>, JsonView)>) -> Seq<u8>
    decreases pairs.len(),
{
    if pairs.len() == 0 {
        Seq::empty()
    } else {
        (if spec_is_attr_key(pairs[0].0) {
            match pairs[0].1 {
                JsonView::Str(val) => seq![32u8]
                    + pairs[0].0.subrange(1, pairs[0].0.len() as int)
                    + seq![61u8, 34u8] + spec_xml_attr(val) + seq![34u8],
                _ => Seq::empty(),
            }
        } else {
            Seq::empty()
        }) + spec_xml_attrs(pairs.drop_first())
    }
}

/// The rendered child elements of an object, in order.
pub open spec fn spec_xml_children(pairs: Seq<(Seq<u8>, JsonView)>) -> Seq<u8>
    decreases pairs, 1int,
{
    if pairs.len() == 0 {
        Seq::empty()
    } else {
        (if spec_is_child_key(pairs[0].0) {
            spec_xml_of(pairs[0].0, pairs[0].1)
        } else {
            Seq::empty()
        }) + spec_xml_children(pairs.subrange(1, pairs.len() as int))
    }
}

/// The rendered text content of an object: each text key's string, in
/// order.
pub open spec fn spec_xml_texts(pairs: Seq<(Seq<u8>, JsonView)>) -> Seq<u8>
    decreases pairs.len(),
{
    if pairs.len() == 0 {
        Seq::empty()
    } else {
        (if pairs[0].0 == spec_text_key() {
            match pairs[0].1 {
                JsonView::Str(val) => spec_xml_text(val),
                _ => Seq::empty(),
            }
        } else {
            Seq::empty()
        }) + spec_xml_texts(pairs.drop_first())
    }
}

/// The XML declaration, as bytes.
pub open spec fn spec_xml_declaration() -> Seq<u8> {
    vstd::utf8::encode_utf8("<?xml version=\"1.0\" encoding=\"UTF-8\"?>"@)
}

/// JSON-to-XML renderer configuration.
#[derive(Debug)]
pub struct JsonToXml {
    /// Name of the root element.
    pub root_name: String,
    /// Whether to emit the XML declaration.
    pub add_declaration: bool,
    /// Whether to add newlines after the declaration.
    pub pretty_print: bool,
}

impl JsonToXml {
    /// A renderer for a root element name, with the declaration on.
    pub fn new(root_name: &str) -> (r: JsonToXml)
        ensures
            r.root_name@ == root_name@,
            r.add_declaration,
            !r.pretty_print,
    {
        JsonToXml { root_name: root_name.to_owned(), add_declaration: true, pretty_print: false }
    }

    /// Configure the XML declaration.
    pub fn with_declaration(self, add: bool) -> (r: JsonToXml)
        ensures
            r.add_declaration == add,
            r.root_name@ == self.root_name@,
            r.pretty_print == self.pretty_print,
    {
        JsonToXml { add_declaration: add, ..self }
    }

    /// Configure pretty printing.
    pub fn pretty_print(self, pretty: bool) -> (r: JsonToXml)
        ensures
            r.pretty_print == pretty,
            r.root_name@ == self.root_name@,
            r.add_declaration == self.add_declaration,
    {
        JsonToXml { pretty_print: pretty, ..self }
    }

    /// Render a JSON value as XML text under the configured root name: the
    /// optional declaration (plus a newline when pretty printing), then
    /// exactly the rendered text of the value.
    pub fn transcode(&self, json: &JsonVal) -> (r: Result<Vec<u8>, XmlTranscodeError>)
        ensures
            (match r {
                Ok(b) => b@ == (if self.add_declaration {
                    spec_xml_declaration() + (if self.pretty_print { seq![10u8] } else {
                        Seq::<u8>::empty()
                    })
                } else {
                    Seq::<u8>::empty()
                }) + spec_xml_of(vstd::utf8::encode_utf8(self.root_name@), json@),
                Err(_) => false,
            }),
    {
        let mut out: Vec<u8> = Vec::new();
        if self.add_declaration {
            push_str_bytes(&mut out, "<?xml version=\"1.0\" encoding=\"UTF-8\"?>");
            if self.pretty_print {
                out.push(10);
            }
        }
        write_value(&mut out, self.root_name.as_str().as_bytes(), json);
        proof {
            assert(out@ =~= (if self.add_declaration {
                spec_xml_declaration() + (if self.pretty_print { seq![10u8] } else {
                    Seq::<u8>::empty()
                })
            } else {
                Seq::<u8>::empty()
            }) + spec_xml_of(vstd::utf8::encode_utf8(self.root_name@), json@));
        }
        Ok(out)
    }
}

/// Render one named JSON value as XML: exactly `spec_xml_of` of the name
/// and value.
#[verifier::loop_isolation(false)]
#[verifier::rlimit(80)]
fn write_value(out: &mut Vec<u8>, name: &[u8], value: &JsonVal)
    ensures
        final(out)@ == old(out)@ + spec_xml_of(name@, value@),
    decreases *value,
{
    match value {
        JsonVal::Null => {
            out.push(60);
            push_slice(out, name);
            out.push(47);
            out.push(62);
            proof {
                assert(out@ =~= old(out)@ + spec_xml_of(name@, value@));
            }
        },
        JsonVal::Bool(b) => {
            out.push(60);
            push_slice(out, name);
            out.push(62);
            if *b {
                out.push(116);
                out.push(114);
                out.push(117);
                out.push(101);
            } else {
                out.push(102);
                out.push(97);
                out.push(108);
                out.push(115);
                out.push(101);
            }
            out.push(60);
            out.push(47);
            push_slice(out, name);
            out.push(62);
            proof {
                assert(out@ =~= old(out)@ + spec_xml_of(name@, value@));
            }
        },
        JsonVal::Int(i) => {
            out.push(60);
            push_slice(out, name);
            out.push(62);
            push_int_bytes(out, *i);
            out.push(60);
            out.push(47);
            push_slice(out, name);
            out.push(62);
            proof {
                assert(out@ =~= old(out)@ + spec_xml_of(name@, value@));
            }
        },
        JsonVal::Str(t) => {
            out.push(60);
            push_slice(out, name);
            out.push(62);
            push_escaped_text(out, t.as_slice());
            out.push(60);
            out.push(47);
            push_slice(out, name);
            out.push(62);
            proof {
                assert(out@ =~= old(out)@ + spec_xml_of(name@, value@));
            }
        },
        JsonVal::Arr(items) => {
            let ghost av = crate::json::arr_view(items@);
            proof {
                crate::json::lemma_arr_view_index(items@);
                assert(av.skip(0) =~= av);
            }
            let mut i: usize = 0;
            while i < items.len()
                invariant
                    i <= items@.len(),
                    old(out)@ + spec_xml_items(name@, av)
                        == out@ + spec_xml_items(name@, av.skip(i as int)),
                decreases items@.len() - i,
            {
                proof {
                    assert(av.skip(i as int).len() == av.len() - i);
                    assert(av.skip(i as int)[0] == av[i as int]);
                    assert(av.skip(i as int).subrange(1, av.skip(i as int).len() as int)
                        =~= av.skip(i as int + 1));
                }
                let ghost before = out@;
                write_value(out, name, &items[i]);
                proof {
                    assert(before + spec_xml_of(name@, av[i as int])
                        + spec_xml_items(name@, av.skip(i as int + 1))
                        =~= out@ + spec_xml_items(name@, av.skip(i as int + 1)));
                }
                i += 1;
            }
            proof {
                assert(av.skip(av.len() as int).len() == 0);
                assert(out@ + Seq::<u8>::empty() =~= out@);
                assert(old(out)@ + spec_xml_items(name@, av) =~= out@);
            }
        },
        JsonVal::Obj(pairs) => {
            let ghost pv = crate::json::obj_view(pairs@);
            proof {
                crate::json::lemma_obj_view_index(pairs@);
                assert(pv.skip(0) =~= pv);
            }
            out.push(60);
            push_slice(out, name);
            let ghost after_open = out@;
            // Attributes first: `@`-prefixed string pairs.
            let mut i: usize = 0;
            while i < pairs.len()
                invariant
                    i <= pairs@.len(),
                    after_open + spec_xml_attrs(pv)
                        == out@ + spec_xml_attrs(pv.skip(i as int)),
                decreases pairs@.len() - i,
            {
                proof {
                    assert(pv.skip(i as int).len() == pv.len() - i);
                    assert(pv.skip(i as int)[0] == pv[i as int]);
                    assert(pv.skip(i as int).drop_first() =~= pv.skip(i as int + 1));
                }
                let ghost before = out@;
                if pairs[i].0.len() >= 1 && pairs[i].0[0] == 64 {
                    match &pairs[i].1 {
                        JsonVal::Str(v) => {
                            out.push(32);
                            push_byte_range_slice(out, &pairs[i].0, 1);
                            out.push(61);
                            out.push(34);
                            push_escaped_attr(out, v.as_slice());
                            out.push(34);
                            proof {
                                assert(out@ =~= before + (seq![32u8]
                                    + pv[i as int].0.subrange(1, pv[i as int].0.len() as int)
                                    + seq![61u8, 34u8]
                                    + spec_xml_attr(v@) + seq![34u8]));
                            }
                        },
                        _ => {},
                    }
                }
                proof {
                    assert(before + spec_xml_attrs(pv.skip(i as int))
                        =~= out@ + spec_xml_attrs(pv.skip(i as int + 1)));
                }
                i += 1;
            }
            proof {
                assert(pv.skip(pv.len() as int).len() == 0);
                assert(out@ =~= after_open + spec_xml_attrs(pv));
            }
            out.push(62);
            let ghost after_attrs = out@;
            // Children: everything but attributes and the text key.
            let mut j: usize = 0;
            while j < pairs.len()
                invariant
                    j <= pairs@.len(),
                    after_attrs + spec_xml_children(pv)
                        == out@ + spec_xml_children(pv.skip(j as int)),
                decreases pairs@.len() - j,
            {
                proof {
                    assert(pv.skip(j as int).len() == pv.len() - j);
                    assert(pv.skip(j as int)[0] == pv[j as int]);
                    assert(pv.skip(j as int).subrange(1, pv.skip(j as int).len() as int)
                        =~= pv.skip(j as int + 1));
                }
                let is_attr = pairs[j].0.len() >= 1 && pairs[j].0[0] == 64;
                let is_text = is_text_key(&pairs[j].0);
                let ghost before = out@;
                if !is_attr && !is_text {
                    proof {
                        assert(spec_is_child_key(pv[j as int].0));
                    }
                    write_value(out, pairs[j].0.as_slice(), &pairs[j].1);
                } else {
                    proof {
                        assert(!spec_is_child_key(pv[j as int].0));
                    }
                }
                proof {
                    assert(before + spec_xml_children(pv.skip(j as int))
                        =~= out@ + spec_xml_children(pv.skip(j as int + 1)));
                }
                j += 1;
            }
            proof {
                assert(pv.skip(pv.len() as int).len() == 0);
                assert(out@ =~= after_attrs + spec_xml_children(pv));
            }
            let ghost after_children = out@;
            // Text content last.
            let mut t: usize = 0;
            while t < pairs.len()
                invariant
                    t <= pairs@.len(),
                    after_children + spec_xml_texts(pv)
                        == out@ + spec_xml_texts(pv.skip(t as int)),
                decreases pairs@.len() - t,
            {
                proof {
                    assert(pv.skip(t as int).len() == pv.len() - t);
                    assert(pv.skip(t as int)[0] == pv[t as int]);
                    assert(pv.skip(t as int).drop_first() =~= pv.skip(t as int + 1));
                }
                let is_text = is_text_key(&pairs[t].0);
                let ghost before = out@;
                if is_text {
                    match &pairs[t].1 {
                        JsonVal::Str(v) => {
                            push_escaped_text(out, v.as_slice());
                        },
                        _ => {},
                    }
                }
                proof {
                    assert(before + spec_xml_texts(pv.skip(t as int))
                        =~= out@ + spec_xml_texts(pv.skip(t as int + 1)));
                }
                t += 1;
            }
            proof {
                assert(pv.skip(pv.len() as int).len() == 0);
                assert(out@ =~= after_children + spec_xml_texts(pv));
            }
            out.push(60);
            out.push(47);
            push_slice(out, name);
            out.push(62);
            proof {
                assert(out@ =~= old(out)@ + spec_xml_of(name@, value@));
            }
        },
    }
}

/// Whether a key is the text key `#text`.
fn is_text_key(key: &Vec<u8>) -> (r: bool)
    ensures
        r == (key@ == spec_text_key()),
{
    let r = key.len() == 5 && key[0] == 35 && key[1] == 116 && key[2] == 101 && key[3] == 120
        && key[4] == 116;
    proof {
        if r {
            assert(key@ =~= spec_text_key());
        } else if key@ == spec_text_key() {
            assert(key@.len() == 5 && key@[0] == 35 && key@[1] == 116 && key@[2] == 101
                && key@[3] == 120 && key@[4] == 116);
        }
    }
    r
}

/// Append a byte slice verbatim.
fn push_slice(out: &mut Vec<u8>, s: &[u8])
    ensures
        final(out)@ == old(out)@ + s@,
{
    let mut i: usize = 0;
    while i < s.len()
        invariant
            i <= s@.len(),
            out@ == old(out)@ + s@.subrange(0, i as int),
        decreases s@.len() - i,
    {
        out.push(s[i]);
        proof {
            assert(s@.subrange(0, i as int + 1)
                =~= s@.subrange(0, i as int).push(s@[i as int]));
        }
        i += 1;
    }
    proof {
        assert(s@.subrange(0, s@.len() as int) =~= s@);
    }
}

/// Append the bytes of a string.
fn push_str_bytes(out: &mut Vec<u8>, s: &str)
    ensures
        final(out)@ == old(out)@ + s.spec_bytes(),
{
    push_slice(out, s.as_bytes());
}

/// Append the canonical decimal text of an integer.
fn push_int_bytes(out: &mut Vec<u8>, i: i64)
    ensures
        final(out)@ == old(out)@ + crate::json::spec_int_bytes(i),
{
    let text = crate::json::print_json(&JsonVal::Int(i));
    push_slice(out, text.as_slice());
}

/// Append a byte vector from an offset on.
fn push_byte_range_slice(out: &mut Vec<u8>, s: &Vec<u8>, from: usize)
    requires
        from <= s@.len(),
    ensures
        final(out)@ == old(out)@ + s@.subrange(from as int, s@.len() as int),
{
    let mut i: usize = from;
    while i < s.len()
        invariant
            from <= i <= s@.len(),
            out@ == old(out)@ + s@.subrange(from as int, i as int),
        decreases s@.len() - i,
    {
        out.push(s[i]);
        proof {
            assert(s@.subrange(from as int, i as int + 1)
                =~= s@.subrange(from as int, i as int).push(s@[i as int]));
        }
        i += 1;
    }
}

/// Append text bytes with ampersand, less-than and greater-than escaped.
#[verifier::loop_isolation(false)]
fn push_escaped_text(out: &mut Vec<u8>, s: &[u8])
    ensures
        final(out)@ == old(out)@ + spec_xml_text(s@),
{
    let mut i: usize = 0;
    while i < s.len()
        invariant
            i <= s@.len(),
            out@ == old(out)@ + spec_xml_text(s@.subrange(0, i as int)),
        decreases s@.len() - i,
    {
        let b = s[i];
        if b == 38 {
            out.push(38);
            out.push(97);
            out.push(109);
            out.push(112);
            out.push(59);
        } else if b == 60 {
            out.push(38);
            out.push(108);
            out.push(116);
            out.push(59);
        } else if b == 62 {
            out.push(38);
            out.push(103);
            out.push(116);
            out.push(59);
        } else {
            out.push(b);
        }
        proof {
            lemma_xml_escape_snoc(s@.subrange(0, i as int), s@[i as int]);
            assert(s@.subrange(0, i as int + 1)
                =~= s@.subrange(0, i as int).push(s@[i as int]));
            assert(out@ =~= old(out)@ + spec_xml_text(s@.subrange(0, i as int + 1)));
        }
        i += 1;
    }
    proof {
        assert(s@.subrange(0, s@.len() as int) =~= s@);
    }
}

/// Append attribute bytes with quote and apostrophe escaped as well.
#[verifier::loop_isolation(false)]
fn push_escaped_attr(out: &mut Vec<u8>, s: &[u8])
    ensures
        final(out)@ == old(out)@ + spec_xml_attr(s@),
{
    let mut i: usize = 0;
    while i < s.len()
        invariant
            i <= s@.len(),
            out@ == old(out)@ + spec_xml_attr(s@.subrange(0, i as int)),
        decreases s@.len() - i,
    {
        let b = s[i];
        if b == 38 {
            out.push(38);
            out.push(97);
            out.push(109);
            out.push(112);
            out.push(59);
        } else if b == 60 {
            out.push(38);
            out.push(108);
            out.push(116);
            out.push(59);
        } else if b == 62 {
            out.push(38);
            out.push(103);
            out.push(116);
            out.push(59);
        } else if b == 34 {
            out.push(38);
            out.push(113);
            out.push(117);
            out.push(111);
            out.push(116);
            out.push(59);
        } else if b == 39 {
            out.push(38);
            out.push(97);
            out.push(112);
            out.push(111);
            out.push(115);
            out.push(59);
        } else {
            out.push(b);
        }
        proof {
            lemma_xml_escape_snoc(s@.subrange(0, i as int), s@[i as int]);
            assert(s@.subrange(0, i as int + 1)
                =~= s@.subrange(0, i as int).push(s@[i as int]));
            assert(out@ =~= old(out)@ + spec_xml_attr(s@.subrange(0, i as int + 1)));
        }
        i += 1;
    }
    proof {
        assert(s@.subrange(0, s@.len() as int) =~= s@);
    }
}

} // verus!
