//! The dynamic gRPC transcoder: descriptor-driven conversion between binary
//! wire messages and the JSON payload representation, without static
//! generated code. Descriptor documents arrive base64-encoded; the wire
//! format is varints and length-delimited fields.

use vstd::prelude::*;
use vstd::string::StringSliceAdditionalSpecFns;
use crate::json::{arr_view, json_view, obj_view, JsonVal, JsonView};

verus! {

broadcast use vstd::std_specs::vec::axiom_vec_index_decreases;

/// Transcoding errors.
#[derive(Debug, Clone)]
pub enum TranscodeError {
    /// No message descriptor under that name.
    DescriptorNotFound { name: String },
    /// The wire bytes did not parse.
    ProtobufParse(String),
    /// A message could not be encoded.
    ProtobufSerialize(String),
    /// The JSON payload did not parse.
    JsonParse(String),
    /// The JSON payload could not be built.
    JsonSerialize(String),
    /// A field value did not fit its descriptor.
    TypeMismatch { expected: String, actual: String },
    /// The descriptor document is unusable.
    InvalidDescriptor(String),
}

/// Configuration of the dynamic gRPC service.
#[derive(Debug)]
pub struct GrpcServiceConfig {
    /// Service identifier.
    pub id: String,
    /// Port to listen on.
    pub port: u16,
    /// Host to bind.
    pub host: String,
    /// Whether the reflection service is offered.
    pub reflection_enabled: bool,
    /// Descriptor documents, base64-encoded.
    pub descriptor_sets: Vec<String>,
}

impl GrpcServiceConfig {
    /// A service on a port with the default host, reflection on and no
    /// descriptors.
    pub fn new(id: &str, port: u16) -> (r: GrpcServiceConfig)
        ensures
            r.id@ == id@,
            r.port == port,
            r.host@ == "0.0.0.0"@,
            r.reflection_enabled,
            r.descriptor_sets@.len() == 0,
    {
        GrpcServiceConfig {
            id: id.to_owned(),
            port,
            host: "0.0.0.0".to_owned(),
            reflection_enabled: true,
            descriptor_sets: Vec::new(),
        }
    }
}

/// The base64 alphabet character of a 6-bit value.
pub open spec fn spec_b64_char(v: int) -> u8 {
    if v < 26 {
        (65 + v) as u8
    } else if v < 52 {
        (97 + (v - 26)) as u8
    } else if v < 62 {
        (48 + (v - 52)) as u8
    } else if v == 62 {
        43u8
    } else {
        47u8
    }
}

/// The four characters of one full three-byte group.
pub open spec fn spec_b64_group(a: u8, b: u8, c: u8) -> Seq<u8> {
    let g = a * 65536 + b * 256 + c;
    seq![
        spec_b64_char(g / 262144),
        spec_b64_char(g / 4096 % 64),
        spec_b64_char(g / 64 % 64),
        spec_b64_char(g % 64),
    ]
}

/// Standard base64 text of a byte sequence: four characters per three-byte
/// group, the trailing one or two bytes padded with `=`.
pub open spec fn spec_b64(bytes: Seq<u8>) -> Seq<u8>
    decreases bytes.len(),
{
    if bytes.len() == 0 {
        Seq::empty()
    } else if bytes.len() >= 3 {
        spec_b64_group(bytes[0], bytes[1], bytes[2])
            + spec_b64(bytes.subrange(3, bytes.len() as int))
    } else if bytes.len() == 2 {
        let g = bytes[0] * 65536 + bytes[1] * 256;
        seq![
            spec_b64_char(g / 262144),
            spec_b64_char(g / 4096 % 64),
            spec_b64_char(g / 64 % 64),
            61u8,
        ]
    } else {
        let g = bytes[0] * 65536;
        seq![spec_b64_char(g / 262144), spec_b64_char(g / 4096 % 64), 61u8, 61u8]
    }
}

/// Append the four characters of one full three-byte group.
fn push_group(out: &mut Vec<u8>, a: u8, b: u8, c: u8)
    ensures
        final(out)@ == old(out)@ + spec_b64_group(a, b, c),
{
    let g: u32 = (a as u32) * 65536 + (b as u32) * 256 + (c as u32);
    proof {
        assert(g as int == a * 65536 + b * 256 + c);
        assert(g / 262144 < 64);
        assert(g / 4096 % 64 < 64);
        assert(g / 64 % 64 < 64);
        assert(g % 64 < 64);
    }
    let c0 = b64_char((g / 262144) as u8);
    let c1 = b64_char((g / 4096 % 64) as u8);
    let c2 = b64_char((g / 64 % 64) as u8);
    let c3 = b64_char((g % 64) as u8);
    out.push(c0);
    out.push(c1);
    out.push(c2);
    out.push(c3);
    proof {
        assert(out@ =~= old(out)@ + spec_b64_group(a, b, c));
    }
}

/// Append the three characters and the padding of a trailing two-byte
/// group.
fn push_pad2(out: &mut Vec<u8>, a: u8, b: u8)
    ensures
        final(out)@ == old(out)@ + seq![
            spec_b64_char((a * 65536 + b * 256) / 262144),
            spec_b64_char((a * 65536 + b * 256) / 4096 % 64),
            spec_b64_char((a * 65536 + b * 256) / 64 % 64),
            61u8,
        ],
{
    let g: u32 = (a as u32) * 65536 + (b as u32) * 256;
    proof {
        assert(g as int == a * 65536 + b * 256);
        assert(g / 262144 < 64);
        assert(g / 4096 % 64 < 64);
        assert(g / 64 % 64 < 64);
    }
    let c0 = b64_char((g / 262144) as u8);
    let c1 = b64_char((g / 4096 % 64) as u8);
    let c2 = b64_char((g / 64 % 64) as u8);
    out.push(c0);
    out.push(c1);
    out.push(c2);
    out.push(61);
    proof {
        assert(out@ =~= old(out)@ + seq![
            spec_b64_char((a * 65536 + b * 256) / 262144),
            spec_b64_char((a * 65536 + b * 256) / 4096 % 64),
            spec_b64_char((a * 65536 + b * 256) / 64 % 64),
            61u8,
        ]);
    }
}

/// Append the two characters and the padding of a trailing single byte.
fn push_pad1(out: &mut Vec<u8>, a: u8)
    ensures
        final(out)@ == old(out)@ + seq![
            spec_b64_char((a * 65536) / 262144),
            spec_b64_char((a * 65536) / 4096 % 64),
            61u8,
            61u8,
        ],
{
    let g: u32 = (a as u32) * 65536;
    proof {
        assert(g as int == a * 65536);
        assert(g / 262144 < 64);
        assert(g / 4096 % 64 < 64);
    }
    let c0 = b64_char((g / 262144) as u8);
    let c1 = b64_char((g / 4096 % 64) as u8);
    out.push(c0);
    out.push(c1);
    out.push(61);
    out.push(61);
    proof {
        assert(out@ =~= old(out)@ + seq![
            spec_b64_char((a * 65536) / 262144),
            spec_b64_char((a * 65536) / 4096 % 64),
            61u8,
            61u8,
        ]);
    }
}

/// Standard base64 text of a byte sequence: exactly `spec_b64` of the
/// input, four characters for every started three-byte group.
#[verifier::rlimit(100)]
#[verifier::spinoff_prover]
pub fn base64_encode(bytes: &[u8]) -> (r: Vec<u8>)
    ensures
        r@ == spec_b64(bytes@),
        r@.len() % 4 == 0,
        r@.len() == ((bytes@.len() + 2) / 3) * 4,
{
    proof {
        lemma_b64_len(bytes@);
    }
    let mut out: Vec<u8> = Vec::new();
    let n = bytes.len();
    let ghost bv = bytes@;
    proof {
        assert(bv.skip(0) =~= bv);
        assert(Seq::<u8>::empty() + spec_b64(bv) =~= spec_b64(bv));
    }
    let mut i: usize = 0;
    while n - i >= 3
        invariant
            i <= n,
            i % 3 == 0,
            n == bv.len(),
            bv == bytes@,
            spec_b64(bv) == out@ + spec_b64(bv.skip(i as int)),
        decreases n - i,
    {
        proof {
            assert(bv.skip(i as int).len() == bv.len() - i);
            assert(bv.skip(i as int)[0] == bv[i as int]);
            assert(bv.skip(i as int)[1] == bv[i as int + 1]);
            assert(bv.skip(i as int)[2] == bv[i as int + 2]);
            assert(bv.skip(i as int).subrange(3, bv.skip(i as int).len() as int)
                =~= bv.skip(i as int + 3));
        }
        let ghost before = out@;
        push_group(&mut out, bytes[i], bytes[i + 1], bytes[i + 2]);
        proof {
            assert(before + (spec_b64_group(bv[i as int], bv[i as int + 1], bv[i as int + 2])
                + spec_b64(bv.skip(i as int + 3)))
                =~= out@ + spec_b64(bv.skip(i as int + 3)));
        }
        i += 3;
    }
    if n - i == 2 {
        proof {
            assert(bv.skip(i as int).len() == 2);
            assert(bv.skip(i as int)[0] == bv[i as int]);
            assert(bv.skip(i as int)[1] == bv[i as int + 1]);
        }
        let ghost before = out@;
        push_pad2(&mut out, bytes[i], bytes[i + 1]);
        proof {
            assert(spec_b64(bv.skip(i as int)) =~= seq![
                spec_b64_char((bv[i as int] * 65536 + bv[i as int + 1] * 256) / 262144),
                spec_b64_char((bv[i as int] * 65536 + bv[i as int + 1] * 256) / 4096 % 64),
                spec_b64_char((bv[i as int] * 65536 + bv[i as int + 1] * 256) / 64 % 64),
                61u8,
            ]);
            assert(out@ =~= before + spec_b64(bv.skip(i as int)));
            assert(out@ =~= spec_b64(bv));
        }
    } else if n - i == 1 {
        proof {
            assert(bv.skip(i as int).len() == 1);
            assert(bv.skip(i as int)[0] == bv[i as int]);
        }
        let ghost before = out@;
        push_pad1(&mut out, bytes[i]);
        proof {
            assert(spec_b64(bv.skip(i as int)) =~= seq![
                spec_b64_char((bv[i as int] * 65536) / 262144),
                spec_b64_char((bv[i as int] * 65536) / 4096 % 64),
                61u8,
                61u8,
            ]);
            assert(out@ =~= before + spec_b64(bv.skip(i as int)));
            assert(out@ =~= spec_b64(bv));
        }
    } else {
        proof {
            assert(i == n);
            assert(bv.skip(i as int).len() == 0);
            assert(out@ + Seq::<u8>::empty() =~= out@);
        }
    }
    out
}

/// Encoded length: four characters for every started three-byte group.
#[verifier::rlimit(100)]
#[verifier::spinoff_prover]
proof fn lemma_b64_len(bytes: Seq<u8>)
    ensures
        spec_b64(bytes).len() == ((bytes.len() + 2) / 3) * 4,
        spec_b64(bytes).len() % 4 == 0,
    decreases bytes.len(),
{
    if bytes.len() >= 3 {
        lemma_b64_len(bytes.subrange(3, bytes.len() as int));
    }
}

/// The alphabet character of one 6-bit value; higher bits are ignored.
fn b64_char(v: u8) -> (r: u8)
    ensures
        r == spec_b64_char((v % 64) as int),
{
    let v = v % 64;
    if v < 26 {
        65 + v
    } else if v < 52 {
        97 + (v - 26)
    } else if v < 62 {
        48 + (v - 52)
    } else {
        if v == 62 {
            43
        } else {
            47
        }
    }
}

/// The 6-bit value of one alphabet character, or nothing for a byte outside
/// the alphabet.
pub open spec fn spec_b64_value(c: u8) -> Option<u8> {
    if 65 <= c <= 90 {
        Some((c - 65) as u8)
    } else if 97 <= c <= 122 {
        Some((c - 97 + 26) as u8)
    } else if 48 <= c <= 57 {
        Some((c - 48 + 52) as u8)
    } else if c == 43 {
        Some(62u8)
    } else if c == 47 {
        Some(63u8)
    } else {
        None
    }
}

/// The 6-bit value of one alphabet character, or none.
fn b64_value(c: u8) -> (r: Option<u8>)
    ensures
        r == spec_b64_value(c),
        (match r {
            Some(v) => v < 64,
            None => true,
        }),
{
    if 65 <= c && c <= 90 {
        Some(c - 65)
    } else if 97 <= c && c <= 122 {
        Some(c - 97 + 26)
    } else if 48 <= c && c <= 57 {
        Some(c - 48 + 52)
    } else if c == 43 {
        Some(62)
    } else if c == 47 {
        Some(63)
    } else {
        None
    }
}

/// The end of the significant input: trailing `=` padding and line breaks
/// stripped.
pub open spec fn spec_b64_end(s: Seq<u8>, end: int) -> int
    decreases end,
{
    if end <= 0 || end > s.len() {
        0
    } else if s[end - 1] == 61 || s[end - 1] == 10 || s[end - 1] == 13 {
        spec_b64_end(s, end - 1)
    } else {
        end
    }
}

/// What decoding the significant input up to `end` yields, given `have`
/// 6-bit values already accumulated in `acc`: the decoded bytes, or nothing
/// on a byte outside the alphabet or a lone trailing value.
pub open spec fn spec_b64_decode_run(s: Seq<u8>, i: int, end: int, acc: int, have: int)
    -> Option<Seq<u8>>
    decreases end - i,
{
    if i < 0 || i >= end || end > s.len() {
        if have == 0 {
            Some(Seq::empty())
        } else if have == 1 {
            None
        } else if have == 2 {
            Some(seq![(acc / 16 % 256) as u8])
        } else {
            Some(seq![(acc / 1024 % 256) as u8, (acc / 4 % 256) as u8])
        }
    } else if s[i] == 10 || s[i] == 13 {
        spec_b64_decode_run(s, i + 1, end, acc, have)
    } else {
        match spec_b64_value(s[i]) {
            Some(v) => {
                if have == 3 {
                    match spec_b64_decode_run(s, i + 1, end, 0, 0) {
                        Some(rest) => Some(seq![
                            ((acc * 64 + v) / 65536 % 256) as u8,
                            ((acc * 64 + v) / 256 % 256) as u8,
                            ((acc * 64 + v) % 256) as u8,
                        ] + rest),
                        None => None,
                    }
                } else {
                    spec_b64_decode_run(s, i + 1, end, acc * 64 + v, have + 1)
                }
            },
            None => None,
        }
    }
}

/// What decoding a whole input yields.
pub open spec fn spec_b64_decode(s: Seq<u8>) -> Option<Seq<u8>> {
    spec_b64_decode_run(s, 0, spec_b64_end(s, s.len() as int), 0, 0)
}

/// Decode standard base64 text: exactly `spec_b64_decode` of the input —
/// trailing padding and line breaks are stripped, embedded line breaks are
/// skipped, any other byte outside the alphabet is rejected.
#[verifier::loop_isolation(false)]
pub fn base64_decode(input: &[u8]) -> (r: Option<Vec<u8>>)
    ensures
        (match r {
            Some(d) => spec_b64_decode(input@) == Some(d@),
            None => spec_b64_decode(input@) is None,
        }),
{
    let ghost sv = input@;
    // Strip trailing `=` padding and line breaks.
    let mut end = input.len();
    while end > 0 && (input[end - 1] == 61 || input[end - 1] == 10 || input[end - 1] == 13)
        invariant
            end <= sv.len(),
            spec_b64_end(sv, sv.len() as int) == spec_b64_end(sv, end as int),
        decreases end,
    {
        end -= 1;
    }
    proof {
        assert(spec_b64_end(sv, end as int) == end as int);
    }
    let mut out: Vec<u8> = Vec::new();
    let mut acc: u64 = 0;
    let mut have: u32 = 0;
    let mut i: usize = 0;
    while i < end
        invariant
            i <= end <= sv.len(),
            have < 4,
            have == 0 ==> acc == 0,
            have == 1 ==> acc < 64,
            have == 2 ==> acc < 4096,
            have == 3 ==> acc < 262144,
            spec_b64_end(sv, sv.len() as int) == end as int,
            (match spec_b64_decode_run(sv, i as int, end as int, acc as int, have as int) {
                Some(rest) => spec_b64_decode(sv) == Some(out@ + rest),
                None => spec_b64_decode(sv) is None,
            }),
        decreases end - i,
    {
        let c = input[i];
        if c == 10 || c == 13 {
            i += 1;
            continue;
        }
        let v = match b64_value(c) {
            Some(v) => v,
            None => {
                return None;
            },
        };
        let ghost out_before = out@;
        if have == 3 {
            let g = acc * 64 + (v as u64);
            out.push((g / 65536 % 256) as u8);
            out.push((g / 256 % 256) as u8);
            out.push((g % 256) as u8);
            acc = 0;
            have = 0;
            proof {
                assert(out@ =~= out_before + seq![
                    ((g as int) / 65536 % 256) as u8,
                    ((g as int) / 256 % 256) as u8,
                    ((g as int) % 256) as u8,
                ]);
                if spec_b64_decode_run(sv, i as int + 1, end as int, 0, 0) is Some {
                    let rest = spec_b64_decode_run(sv, i as int + 1, end as int, 0,
                        0)->Some_0;
                    assert(out_before + (seq![
                        ((g as int) / 65536 % 256) as u8,
                        ((g as int) / 256 % 256) as u8,
                        ((g as int) % 256) as u8,
                    ] + rest) =~= out@ + rest);
                }
            }
        } else {
            acc = acc * 64 + (v as u64);
            have += 1;
        }
        i += 1;
    }
    if have == 3 {
        out.push((acc / 1024 % 256) as u8);
        out.push((acc / 4 % 256) as u8);
    } else if have == 2 {
        out.push((acc / 16 % 256) as u8);
    } else if have == 1 {
        return None;
    }
    proof {
        assert(spec_b64_decode_run(sv, i as int, end as int, acc as int, have as int)
            is Some ==> out@ =~= out@);
    }
    Some(out)
}

/// The varint encoding of a 64-bit value: seven bits per byte, least
/// significant first, the high bit marking continuation.
pub open spec fn spec_varint(n: int) -> Seq<u8>
    recommends
        n >= 0,
    decreases n,
{
    if n < 128 {
        seq![(if n >= 0 { n } else { 0 }) as u8]
    } else {
        seq![(128 + n % 128) as u8] + spec_varint(n / 128)
    }
}

/// What decoding a varint at position `i` yields: the value and the
/// position after it, or nothing on truncated or oversized input.
pub open spec fn spec_varint_decode(s: Seq<u8>, i: int) -> Option<(u64, int)>
    decreases s.len() - i,
{
    if i < 0 || i >= s.len() {
        None
    } else if s[i] < 128 {
        Some((s[i] as u64, i + 1))
    } else {
        match spec_varint_decode(s, i + 1) {
            Some((hi, j)) => if hi <= (u64::MAX - (s[i] - 128)) as int / 128 {
                Some((((s[i] - 128) + 128 * hi) as u64, j))
            } else {
                None
            },
            None => None,
        }
    }
}

/// Decoding inverts encoding: a varint written anywhere into a byte stream
/// reads back as the value it was written from, consuming exactly its own
/// bytes.
pub proof fn lemma_varint_round_trip(s: Seq<u8>, i: int, n: u64)
    requires
        0 <= i,
        i + spec_varint(n as int).len() <= s.len(),
        s.subrange(i, i + spec_varint(n as int).len()) == spec_varint(n as int),
    ensures
        spec_varint_decode(s, i) == Some((n, i + spec_varint(n as int).len())),
    decreases n,
{
    let enc = spec_varint(n as int);
    assert(forall|j: int| 0 <= j < enc.len()
        ==> #[trigger] s.subrange(i, i + enc.len())[j] == s[i + j]);
    if n < 128 {
        assert(enc == seq![n as u8]);
        assert(s.subrange(i, i + enc.len())[0] == enc[0]);
        assert(enc[0] == n as u8);
        assert(s[i] == n as u8);
    } else {
        let rest = spec_varint(n as int / 128);
        assert(enc == seq![(128 + n as int % 128) as u8] + rest);
        assert(s.subrange(i, i + enc.len())[0] == enc[0]);
        assert(enc[0] == (128 + n as int % 128) as u8);
        assert(s[i] == (128 + n as int % 128) as u8);
        assert(s[i] >= 128);
        // The tail of the encoding sits right after this byte.
        assert(s.subrange(i + 1, i + 1 + rest.len()) =~= rest) by {
            assert(forall|j: int| 0 <= j < rest.len()
                ==> #[trigger] s.subrange(i + 1, i + 1 + rest.len())[j] == s[i + 1 + j]);
            assert(forall|j: int| 0 <= j < rest.len() ==> enc[1 + j] == rest[j]);
        }
        lemma_varint_round_trip(s, i + 1, (n / 128) as u64);
        assert(spec_varint_decode(s, i + 1) == Some(((n / 128) as u64,
            i + 1 + rest.len())));
        assert((s[i] - 128) as int == n as int % 128);
        assert((n / 128) as int <= (u64::MAX - (s[i] - 128)) as int / 128) by (nonlinear_arith)
            requires
                n <= u64::MAX,
                (s[i] - 128) as int == n as int % 128,
                n >= 128;
        assert(((s[i] - 128) + 128 * ((n / 128) as u64)) as int == n as int) by (nonlinear_arith)
            requires
                (s[i] - 128) as int == n as int % 128,
                n >= 0;
    }
}

/// Append the varint encoding of `n`.
#[verifier::loop_isolation(false)]
pub fn encode_varint(out: &mut Vec<u8>, n: u64)
    ensures
        final(out)@ == old(out)@ + spec_varint(n as int),
{
    let mut v: u64 = n;
    while v >= 128
        invariant
            old(out)@ + spec_varint(n as int) == out@ + spec_varint(v as int),
        decreases v,
    {
        let ghost before = out@;
        let ghost old_v = v as int;
        out.push(128 + (v % 128) as u8);
        v = v / 128;
        proof {
            assert(spec_varint(old_v) == seq![(128 + old_v % 128) as u8] + spec_varint(v as int));
            assert(before + spec_varint(old_v) =~= out@ + spec_varint(v as int));
        }
    }
    out.push(v as u8);
    proof {
        assert(spec_varint(v as int) == seq![v as u8]);
        assert(out@ =~= old(out)@ + spec_varint(n as int));
    }
}

/// Decode a varint at position `i`: exactly what `spec_varint_decode`
/// yields.
pub fn decode_varint(s: &[u8], i: usize) -> (r: Option<(u64, usize)>)
    requires
        i <= s@.len(),
    ensures
        (match r {
            Some(p) => spec_varint_decode(s@, i as int) == Some((p.0, p.1 as int))
                && i < p.1 <= s@.len(),
            None => spec_varint_decode(s@, i as int) is None,
        }),
    decreases s@.len() - i,
{
    if i >= s.len() {
        return None;
    }
    let b = s[i];
    if b < 128 {
        return Some((b as u64, i + 1));
    }
    match decode_varint(s, i + 1) {
        Some((hi, j)) => {
            let low = (b - 128) as u64;
            if hi <= (u64::MAX - low) / 128 {
                proof {
                    assert(128 * hi <= u64::MAX - low) by (nonlinear_arith)
                        requires
                            hi <= (u64::MAX - low) / 128,
                            low <= 127,
                            hi >= 0;
                }
                Some((low + 128 * hi, j))
            } else {
                None
            }
        },
        None => None,
    }
}

/// The scalar kinds a descriptor field can take, or a nested message named
/// by its index in the pool.
#[derive(Debug, Clone, Copy, PartialEq, Eq, Structural)]
pub enum FieldKind {
    /// A varint boolean.
    Bool,
    /// A varint signed 64-bit integer.
    Int64,
    /// A varint unsigned 64-bit integer.
    Uint64,
    /// A length-delimited UTF-8 string.
    Str,
    /// A length-delimited byte string, base64 in JSON.
    Bytes,
    /// A length-delimited nested message, by pool index.
    Message(usize),
}

/// One field of a message descriptor.
#[derive(Debug)]
pub struct FieldDescriptor {
    /// Field number on the wire.
    pub number: u32,
    /// Field name in JSON.
    pub name: Vec<u8>,
    /// The field's kind.
    pub kind: FieldKind,
}

/// The mathematical model of a field descriptor.
pub struct FieldDescriptorView {
    /// Field number.
    pub number: u32,
    /// Field name.
    pub name: Seq<u8>,
    /// Field kind.
    pub kind: FieldKind,
}

impl View for FieldDescriptor {
    type V = FieldDescriptorView;

    open spec fn view(&self) -> FieldDescriptorView {
        FieldDescriptorView { number: self.number, name: self.name@, kind: self.kind }
    }
}

/// One message descriptor.
#[derive(Debug)]
pub struct MessageDescriptor {
    /// Fully qualified name.
    pub full_name: String,
    /// The fields, in canonical (declaration) order.
    pub fields: Vec<FieldDescriptor>,
}

/// The mathematical model of a message descriptor.
pub struct MessageDescriptorView {
    /// Fully qualified name.
    pub full_name: Seq<char>,
    /// The fields, in canonical order.
    pub fields: Seq<FieldDescriptorView>,
}

impl View for MessageDescriptor {
    type V = MessageDescriptorView;

    open spec fn view(&self) -> MessageDescriptorView {
        MessageDescriptorView {
            full_name: self.full_name@,
            fields: self.fields@.map_values(|f: FieldDescriptor| f@),
        }
    }
}

/// The models of a pool's message descriptors.
pub open spec fn spec_pool(pool: DescriptorPool) -> Seq<MessageDescriptorView> {
    pool.messages@.map_values(|m: MessageDescriptor| m@)
}

/// The wire encoding of a whole message under pool index `idx`: the value
/// must be an object; each descriptor field present in the object is
/// written in canonical (descriptor) order; unknown object keys are
/// skipped; `depth` bounds the nesting.
pub open spec fn spec_encode_message(
    msgs: Seq<MessageDescriptorView>,
    idx: int,
    v: JsonView,
    depth: nat,
) -> Option<Seq<u8>>
    decreases depth, 4nat, 0nat,
{
    if depth == 0 || !(0 <= idx < msgs.len()) {
        None
    } else {
        match v {
            JsonView::Obj(pairs) => spec_encode_field_list(msgs, msgs[idx].fields, pairs,
                depth),
            _ => None,
        }
    }
}

/// The wire encoding of the listed fields against an object, in order.
pub open spec fn spec_encode_field_list(
    msgs: Seq<MessageDescriptorView>,
    fields: Seq<FieldDescriptorView>,
    pairs: Seq<(Seq<u8>, JsonView)>,
    depth: nat,
) -> Option<Seq<u8>>
    decreases depth, 3nat, fields.len(),
{
    if depth == 0 {
        None
    } else if fields.len() == 0 {
        Some(Seq::empty())
    } else {
        let head = match crate::json::spec_obj_get(pairs, fields[0].name) {
            Some(val) => spec_encode_field(msgs, fields[0], val, depth),
            None => Some(Seq::empty()),
        };
        match head {
            Some(b) => match spec_encode_field_list(msgs, fields.drop_first(), pairs, depth) {
                Some(rest) => Some(b + rest),
                None => None,
            },
            None => None,
        }
    }
}

/// The wire encoding of one field value: an array encodes each element in
/// turn, anything else encodes once.
pub open spec fn spec_encode_field(
    msgs: Seq<MessageDescriptorView>,
    f: FieldDescriptorView,
    val: JsonView,
    depth: nat,
) -> Option<Seq<u8>>
    decreases depth, 2nat, 0nat,
{
    if depth == 0 {
        None
    } else {
        match val {
            JsonView::Arr(items) => spec_encode_elems(msgs, f, items, depth),
            _ => spec_encode_single(msgs, f, val, depth),
        }
    }
}

/// The wire encoding of an array's elements under one field.
pub open spec fn spec_encode_elems(
    msgs: Seq<MessageDescriptorView>,
    f: FieldDescriptorView,
    items: Seq<JsonView>,
    depth: nat,
) -> Option<Seq<u8>>
    decreases depth, 1nat, items.len(),
{
    if depth == 0 {
        None
    } else if items.len() == 0 {
        Some(Seq::empty())
    } else {
        match spec_encode_single(msgs, f, items[0], depth) {
            Some(b) => match spec_encode_elems(msgs, f, items.drop_first(), depth) {
                Some(rest) => Some(b + rest),
                None => None,
            },
            None => None,
        }
    }
}

/// The wire encoding of one scalar or nested value under a field's tag:
/// varint fields as key then value, length-delimited fields as key, length,
/// bytes; a value that does not fit its descriptor encodes to nothing.
pub open spec fn spec_encode_single(
    msgs: Seq<MessageDescriptorView>,
    f: FieldDescriptorView,
    val: JsonView,
    depth: nat,
) -> Option<Seq<u8>>
    decreases depth, 0nat, 0nat,
{
    if depth == 0 {
        None
    } else {
        match f.kind {
            FieldKind::Bool => match val {
                JsonView::Bool(b) => Some(spec_varint(f.number * 8)
                    + spec_varint(if b { 1int } else { 0int })),
                _ => None,
            },
            FieldKind::Int64 => match val {
                JsonView::Int(x) => Some(spec_varint(f.number * 8)
                    + spec_varint((x as u64) as int)),
                _ => None,
            },
            FieldKind::Uint64 => match val {
                JsonView::Int(x) => if x >= 0 {
                    Some(spec_varint(f.number * 8) + spec_varint(x as int))
                } else {
                    None
                },
                _ => None,
            },
            FieldKind::Str => match val {
                JsonView::Str(t) => Some(spec_varint(f.number * 8 + 2)
                    + spec_varint(t.len() as int) + t),
                _ => None,
            },
            FieldKind::Bytes => match val {
                JsonView::Str(t) => match spec_b64_decode(t) {
                    Some(d) => Some(spec_varint(f.number * 8 + 2)
                        + spec_varint(d.len() as int) + d),
                    None => None,
                },
                _ => None,
            },
            FieldKind::Message(nested) => match spec_encode_message(msgs, nested as int, val,
                (depth - 1) as nat) {
                Some(inner) => Some(spec_varint(f.number * 8 + 2)
                    + spec_varint(inner.len() as int) + inner),
                None => None,
            },
        }
    }
}

/// The first descriptor field carrying a wire number, searched from `f`.
pub open spec fn spec_field_index(fields: Seq<FieldDescriptorView>, number: u64, f: int)
    -> Option<int>
    decreases fields.len() - f,
{
    if f < 0 || f >= fields.len() {
        None
    } else if fields[f].number as u64 == number {
        Some(f)
    } else {
        spec_field_index(fields, number, f + 1)
    }
}

/// The JSON value of one varint record under a field's kind; an unsigned
/// value beyond the signed range does not decode.
pub open spec fn spec_decode_scalar(kind: FieldKind, value: u64) -> Option<JsonView> {
    match kind {
        FieldKind::Bool => Some(JsonView::Bool(value != 0)),
        FieldKind::Int64 => Some(JsonView::Int(value as i64)),
        FieldKind::Uint64 => if value <= i64::MAX as u64 {
            Some(JsonView::Int(value as i64))
        } else {
            None
        },
        _ => None,
    }
}

/// What decoding a whole message yields: its records in stream order,
/// grouped under the descriptor fields in canonical order, a singleton group
/// as the value itself and a repeated one as an array; or nothing on any
/// malformed record.
pub open spec fn spec_decode_message(
    msgs: Seq<MessageDescriptorView>,
    idx: int,
    data: Seq<u8>,
    depth: nat,
) -> Option<JsonView>
    decreases depth, data.len(), 2nat,
{
    if depth == 0 || !(0 <= idx < msgs.len()) {
        None
    } else {
        match spec_decode_records(msgs, msgs[idx].fields, data, 0, depth) {
            Some(records) => Some(JsonView::Obj(spec_assemble(msgs[idx].fields, records, 0))),
            None => None,
        }
    }
}

/// The wire records of a message body from position `i`: each a descriptor
/// field index with its decoded value, in stream order; a number no
/// descriptor field carries is skipped; anything malformed decodes to
/// nothing.
pub open spec fn spec_decode_records(
    msgs: Seq<MessageDescriptorView>,
    fields: Seq<FieldDescriptorView>,
    data: Seq<u8>,
    i: int,
    depth: nat,
) -> Option<Seq<(int, JsonView)>>
    decreases depth, data.len() - i, 1nat,
{
    if i >= data.len() {
        Some(Seq::empty())
    } else {
        match spec_varint_decode(data, i) {
            None => None,
            Some((key, after_key)) => if !(i < after_key <= data.len()) {
                None
            } else {
                let wire_type = key % 8;
                let number = key / 8;
                let fidx = spec_field_index(fields, number, 0);
                if wire_type == 0 {
                    match spec_varint_decode(data, after_key) {
                        None => None,
                        Some((value, after)) => if !(after_key < after <= data.len()) {
                            None
                        } else {
                            match fidx {
                                None => spec_decode_records(msgs, fields, data, after, depth),
                                Some(f) => match spec_decode_scalar(fields[f].kind, value) {
                                    None => None,
                                    Some(jv) => match spec_decode_records(msgs, fields, data,
                                        after, depth) {
                                        None => None,
                                        Some(rest) => Some(seq![(f, jv)] + rest),
                                    },
                                },
                            }
                        },
                    }
                } else if wire_type == 2 {
                    match spec_varint_decode(data, after_key) {
                        None => None,
                        Some((len, after_len)) => if !(after_key < after_len <= data.len()) {
                            None
                        } else if len as int > data.len() - after_len {
                            None
                        } else {
                            let stop = after_len + len as int;
                            match fidx {
                                None => spec_decode_records(msgs, fields, data, stop, depth),
                                Some(f) => match spec_decode_len_value(msgs, fields[f].kind,
                                    data, after_len as int, stop, depth) {
                                    None => None,
                                    Some(jv) => match spec_decode_records(msgs, fields, data,
                                        stop, depth) {
                                        None => None,
                                        Some(rest) => Some(seq![(f, jv)] + rest),
                                    },
                                },
                            }
                        },
                    }
                } else {
                    None
                }
            },
        }
    }
}

/// The JSON value of one length-delimited record under a field's kind: the
/// bytes as a string, their base64 text, or a nested message one level
/// deeper.
pub open spec fn spec_decode_len_value(
    msgs: Seq<MessageDescriptorView>,
    kind: FieldKind,
    data: Seq<u8>,
    start: int,
    stop: int,
    depth: nat,
) -> Option<JsonView>
    decreases depth, stop - start, 0nat,
{
    match kind {
        FieldKind::Str => Some(JsonView::Str(data.subrange(start, stop))),
        FieldKind::Bytes => Some(JsonView::Str(spec_b64(data.subrange(start, stop)))),
        FieldKind::Message(nested) => if 0 <= nested < msgs.len() && depth >= 1 {
            spec_decode_message(msgs, nested as int, data.subrange(start, stop),
                (depth - 1) as nat)
        } else {
            None
        },
        _ => None,
    }
}

/// The values recorded under one descriptor field index, in stream order.
pub open spec fn spec_group(records: Seq<(int, JsonView)>, f: int) -> Seq<JsonView>
    decreases records.len(),
{
    if records.len() == 0 {
        Seq::empty()
    } else {
        let rest = spec_group(records.drop_last(), f);
        if records.last().0 == f {
            rest.push(records.last().1)
        } else {
            rest
        }
    }
}

/// The decoded object's pairs from descriptor field `f` on: an absent field
/// contributes nothing, a singleton its value, a repeated field its array.
pub open spec fn spec_assemble(fields: Seq<FieldDescriptorView>,
    records: Seq<(int, JsonView)>, f: int) -> Seq<(Seq<u8>, JsonView)>
    decreases fields.len() - f,
{
    if f < 0 || f >= fields.len() {
        Seq::empty()
    } else {
        let g = spec_group(records, f);
        let rest = spec_assemble(fields, records, f + 1);
        if g.len() == 1 {
            seq![(fields[f].name, g[0])] + rest
        } else if g.len() > 1 {
            seq![(fields[f].name, JsonView::Arr(g))] + rest
        } else {
            rest
        }
    }
}


/// Copy a byte range out of a slice.
#[verifier::loop_isolation(false)]
fn copy_range(data: &[u8], start: usize, stop: usize) -> (r: Vec<u8>)
    requires
        start <= stop <= data@.len(),
    ensures
        r@ == data@.subrange(start as int, stop as int),
{
    let mut bytes: Vec<u8> = Vec::new();
    let mut b = start;
    while b < stop
        invariant
            start <= b <= stop,
            bytes@ == data@.subrange(start as int, b as int),
        decreases stop - b,
    {
        bytes.push(data[b]);
        proof {
            assert(data@.subrange(start as int, b as int + 1)
                =~= data@.subrange(start as int, b as int).push(data@[b as int]));
        }
        b += 1;
    }
    bytes
}

/// Copy a field name.
#[verifier::loop_isolation(false)]
fn copy_name(src: &Vec<u8>) -> (r: Vec<u8>)
    ensures
        r@ == src@,
{
    let mut out: Vec<u8> = Vec::new();
    let mut b: usize = 0;
    while b < src.len()
        invariant
            b <= src@.len(),
            out@ == src@.subrange(0, b as int),
        decreases src@.len() - b,
    {
        out.push(src[b]);
        proof {
            assert(src@.subrange(0, b as int + 1)
                =~= src@.subrange(0, b as int).push(src@[b as int]));
        }
        b += 1;
    }
    proof {
        assert(src@.subrange(0, src@.len() as int) =~= src@);
    }
    out
}

/// Appending one record to the record list extends exactly its own field's
/// group.
proof fn lemma_record_step(
    groups_before: Seq<Vec<JsonVal>>,
    groups_after: Seq<Vec<JsonVal>>,
    done_before: Seq<(int, JsonView)>,
    done_after: Seq<(int, JsonView)>,
    fi: int,
    jval: JsonVal,
)
    requires
        0 <= fi < groups_before.len(),
        groups_after.len() == groups_before.len(),
        forall|f: int| 0 <= f < groups_before.len()
            ==> arr_view((#[trigger] groups_before[f])@) == spec_group(done_before, f),
        forall|f: int| 0 <= f < groups_after.len() && f != fi
            ==> groups_after[f] == groups_before[f],
        groups_after[fi]@ == groups_before[fi]@.push(jval),
        done_after == done_before.push((fi, json_view(jval))),
    ensures
        forall|f: int| 0 <= f < groups_after.len()
            ==> arr_view((#[trigger] groups_after[f])@) == spec_group(done_after, f),
{
    assert(done_after.drop_last() =~= done_before);
    assert(done_after.last() == (fi, json_view(jval)));
    assert forall|f: int| 0 <= f < groups_after.len()
        implies arr_view((#[trigger] groups_after[f])@) == spec_group(done_after, f) by {
        if f == fi {
            let gb = groups_before[fi]@;
            let ga = groups_after[fi]@;
            crate::json::lemma_arr_view_index(gb);
            crate::json::lemma_arr_view_index(ga);
            assert forall|k: int| 0 <= k < ga.len()
                implies arr_view(ga)[k]
                    == arr_view(gb).push(json_view(jval))[k] by {
                assert(arr_view(ga)[k] == json_view(ga[k]));
                if k < gb.len() {
                    assert(ga[k] == gb[k]);
                    assert(arr_view(gb)[k] == json_view(gb[k]));
                } else {
                    assert(ga[k] == jval);
                }
            }
            assert(arr_view(groups_after[fi]@)
                =~= arr_view(groups_before[fi]@).push(json_view(jval)));
            assert(spec_group(done_after, f)
                == spec_group(done_before, f).push(json_view(jval)));
        } else {
            assert(spec_group(done_after, f) == spec_group(done_before, f));
        }
    }
}

/// Pushing one assembled pair extends the object's view by exactly that
/// pair.
proof fn lemma_assemble_step(
    pairs_before: Seq<(Vec<u8>, JsonVal)>,
    pairs_after: Seq<(Vec<u8>, JsonVal)>,
    newpair: (Seq<u8>, JsonView),
)
    requires
        pairs_after.len() == pairs_before.len() + 1,
        forall|p: int| 0 <= p < pairs_before.len()
            ==> #[trigger] pairs_after[p] == pairs_before[p],
        pairs_after.last().0@ == newpair.0,
        json_view(pairs_after.last().1) == newpair.1,
    ensures
        obj_view(pairs_after) == obj_view(pairs_before) + seq![newpair],
{
    crate::json::lemma_obj_view_index(pairs_before);
    crate::json::lemma_obj_view_index(pairs_after);
    assert forall|p: int| 0 <= p < pairs_after.len()
        implies obj_view(pairs_after)[p]
            == (obj_view(pairs_before) + seq![newpair])[p] by {
        assert(obj_view(pairs_after)[p]
            == (pairs_after[p].0@, json_view(pairs_after[p].1)));
        if p < pairs_before.len() {
            assert(pairs_after[p] == pairs_before[p]);
            assert(obj_view(pairs_before)[p]
                == (pairs_before[p].0@, json_view(pairs_before[p].1)));
        } else {
            assert(pairs_after[p] == pairs_after.last());
        }
    }
    assert(obj_view(pairs_after) =~= obj_view(pairs_before) + seq![newpair]);
}

/// The descriptor pool: message descriptors and service names, loaded from
/// descriptor documents at startup.
#[derive(Debug)]
pub struct DescriptorPool {
    /// Message descriptors; nested-message kinds index into this list.
    pub messages: Vec<MessageDescriptor>,
    /// Fully qualified service names.
    pub services: Vec<String>,
}

impl DescriptorPool {
    /// An empty pool.
    pub fn new() -> (r: DescriptorPool)
        ensures
            r.messages@.len() == 0,
            r.services@.len() == 0,
    {
        DescriptorPool { messages: Vec::new(), services: Vec::new() }
    }
}

/// The dynamic transcoder over a descriptor pool.
#[derive(Debug)]
pub struct GrpcTranscoder {
    /// The loaded descriptors.
    pub pool: DescriptorPool,
}

impl GrpcTranscoder {
    /// A transcoder with an empty pool.
    pub fn new() -> (r: GrpcTranscoder)
        ensures
            r.pool.messages@.len() == 0,
            r.pool.services@.len() == 0,
    {
        GrpcTranscoder { pool: DescriptorPool::new() }
    }

    /// A transcoder over a loaded pool.
    pub fn from_pool(pool: DescriptorPool) -> (r: GrpcTranscoder)
        ensures
            r.pool.messages@.len() == pool.messages@.len(),
    {
        GrpcTranscoder { pool }
    }

    /// Index of the message descriptor under a fully qualified name.
    #[verifier::loop_isolation(false)]
    pub fn get_message_descriptor(&self, full_name: &str) -> (r: Result<usize, TranscodeError>)
        ensures
            (match r {
                Ok(idx) => idx < self.pool.messages@.len()
                    && self.pool.messages@[idx as int].full_name@ == full_name@,
                Err(e) => e is DescriptorNotFound,
            }),
    {
        let mut i: usize = 0;
        while i < self.pool.messages.len()
            invariant
                i <= self.pool.messages@.len(),
            decreases self.pool.messages@.len() - i,
        {
            if crate::strutil::str_eq(self.pool.messages[i].full_name.as_str(), full_name) {
                return Ok(i);
            }
            i += 1;
        }
        Err(TranscodeError::DescriptorNotFound { name: full_name.to_owned() })
    }

    /// All message type names in the pool.
    pub fn list_message_types(&self) -> (r: Vec<String>)
        ensures
            r@.len() == self.pool.messages@.len(),
    {
        let mut out: Vec<String> = Vec::new();
        let mut i: usize = 0;
        while i < self.pool.messages.len()
            invariant
                i <= self.pool.messages@.len(),
                out@.len() == i,
            decreases self.pool.messages@.len() - i,
        {
            out.push(self.pool.messages[i].full_name.clone());
            i += 1;
        }
        out
    }

    /// All service names in the pool.
    pub fn list_services(&self) -> (r: Vec<String>)
        ensures
            r@.len() == self.pool.services@.len(),
    {
        let mut out: Vec<String> = Vec::new();
        let mut i: usize = 0;
        while i < self.pool.services.len()
            invariant
                i <= self.pool.services@.len(),
                out@.len() == i,
            decreases self.pool.services@.len() - i,
        {
            out.push(self.pool.services[i].clone());
            i += 1;
        }
        out
    }

    /// Encode a JSON object as the message under pool index `idx`: each
    /// descriptor field present in the object is written in canonical
    /// (descriptor) order; unknown object keys are skipped.
    #[verifier::loop_isolation(false)]
    pub fn json_to_protobuf(&self, json: &JsonVal, idx: usize, depth: usize)
        -> (r: Result<Vec<u8>, TranscodeError>)
        requires
            idx < self.pool.messages@.len(),
        ensures
            (match r {
                Ok(b) => spec_encode_message(spec_pool(self.pool), idx as int, json@,
                    depth as nat) == Some(b@),
                Err(e) => spec_encode_message(spec_pool(self.pool), idx as int, json@,
                    depth as nat) is None && (e is TypeMismatch || e is ProtobufSerialize),
            }),
        decreases depth,
    {
        if depth == 0 {
            return Err(TranscodeError::ProtobufSerialize("Nesting too deep".to_owned()));
        }
        let pairs = match json {
            JsonVal::Obj(pairs) => pairs,
            _ => {
                return Err(TranscodeError::TypeMismatch {
                    expected: "object".to_owned(),
                    actual: "value".to_owned(),
                });
            },
        };
        let ghost msgs = spec_pool(self.pool);
        let ghost pv = crate::json::obj_view(pairs@);
        let ghost fv = msgs[idx as int].fields;
        let mut out: Vec<u8> = Vec::new();
        let desc = &self.pool.messages[idx];
        proof {
            assert(msgs[idx as int] == self.pool.messages@[idx as int]@);
            assert(fv == desc.fields@.map_values(|fd: FieldDescriptor| fd@));
            assert(fv.skip(0) =~= fv);
            assert(Seq::<u8>::empty() + Seq::<u8>::empty() =~= Seq::<u8>::empty());
        }
        let mut f: usize = 0;
        while f < desc.fields.len()
            invariant
                idx < self.pool.messages@.len(),
                desc == &self.pool.messages[idx as int],
                msgs == spec_pool(self.pool),
                pv == crate::json::obj_view(pairs@),
                json@ == JsonView::Obj(pv),
                fv == desc.fields@.map_values(|fd: FieldDescriptor| fd@),
                f <= desc.fields@.len(),
                depth >= 1,
                (match spec_encode_field_list(msgs, fv.skip(f as int), pv, depth as nat) {
                    Some(rest) => spec_encode_field_list(msgs, fv, pv, depth as nat)
                        == Some(out@ + rest),
                    None => spec_encode_field_list(msgs, fv, pv, depth as nat) is None,
                }),
            decreases desc.fields@.len() - f,
        {
            proof {
                assert(fv.skip(f as int).len() == fv.len() - f);
                assert(fv.skip(f as int)[0] == fv[f as int]);
                assert(fv.skip(f as int).drop_first() =~= fv.skip(f as int + 1));
                assert(fv[f as int] == desc.fields@[f as int]@);
            }
            let field = &desc.fields[f];
            match json.get(field.name.as_slice()) {
                Some(value) => {
                    let ghost before = out@;
                    match self.encode_field(field, value, &mut out, depth) {
                        Ok(_) => {
                            proof {
                                if spec_encode_field_list(msgs, fv.skip(f as int + 1), pv,
                                    depth as nat) is Some {
                                    let rest = spec_encode_field_list(msgs,
                                        fv.skip(f as int + 1), pv, depth as nat)->Some_0;
                                    let b = spec_encode_field(msgs, fv[f as int], value@,
                                        depth as nat)->Some_0;
                                    assert(before + (b + rest) =~= out@ + rest);
                                }
                            }
                        },
                        Err(e) => {
                            return Err(e);
                        },
                    }
                },
                None => {
                    proof {
                        if spec_encode_field_list(msgs, fv.skip(f as int + 1), pv,
                            depth as nat) is Some {
                            let rest = spec_encode_field_list(msgs, fv.skip(f as int + 1),
                                pv, depth as nat)->Some_0;
                            assert(out@ + (Seq::<u8>::empty() + rest) =~= out@ + rest);
                        }
                    }
                },
            }
            f += 1;
        }
        proof {
            assert(fv.skip(fv.len() as int).len() == 0);
            assert(out@ + Seq::<u8>::empty() =~= out@);
        }
        Ok(out)
    }

    /// Encode one field (or each element of an array value) onto the wire:
    /// appends exactly its wire encoding, or reports that the value does not
    /// fit the descriptor.
    fn encode_field(&self, field: &FieldDescriptor, value: &JsonVal, out: &mut Vec<u8>,
        depth: usize) -> (r: Result<(), TranscodeError>)
        requires
            depth >= 1,
        ensures
            (match r {
                Ok(_) => spec_encode_field(spec_pool(self.pool), field@, value@, depth as nat)
                    is Some && final(out)@ == old(out)@ + spec_encode_field(
                    spec_pool(self.pool), field@, value@, depth as nat)->Some_0,
                Err(e) => spec_encode_field(spec_pool(self.pool), field@, value@,
                    depth as nat) is None && (e is TypeMismatch || e is ProtobufSerialize),
            }),
        decreases depth, 1int, *value,
    {
        match value {
            JsonVal::Arr(items) => {
                let ghost msgs = spec_pool(self.pool);
                let ghost av = crate::json::arr_view(items@);
                proof {
                    crate::json::lemma_arr_view_index(items@);
                    assert(av.skip(0) =~= av);
                    assert(old(out)@ + Seq::<u8>::empty() =~= old(out)@);
                }
                let mut i: usize = 0;
                while i < items.len()
                    invariant
                        depth >= 1,
                        msgs == spec_pool(self.pool),
                        av == crate::json::arr_view(items@),
                        i <= items@.len(),
                        av.len() == items@.len(),
                        value@ == JsonView::Arr(av),
                        forall|t: int| 0 <= t < items@.len()
                            ==> av[t] == crate::json::json_view(#[trigger] items@[t]),
                        (match spec_encode_elems(msgs, field@, av.skip(i as int),
                            depth as nat) {
                            Some(rest) => (match spec_encode_elems(msgs, field@, av,
                                depth as nat) {
                                Some(whole) => old(out)@ + whole == out@ + rest,
                                None => false,
                            }),
                            None => spec_encode_elems(msgs, field@, av, depth as nat)
                                is None,
                        }),
                    decreases items@.len() - i,
                {
                    proof {
                        assert(av.skip(i as int).len() == av.len() - i);
                        assert(av.skip(i as int)[0] == av[i as int]);
                        assert(av.skip(i as int).drop_first() =~= av.skip(i as int + 1));
                    }
                    let ghost before = out@;
                    match self.encode_single(field, &items[i], out, depth) {
                        Ok(_) => {
                            proof {
                                let b = spec_encode_single(msgs, field@,
                                    crate::json::json_view(items@[i as int]),
                                    depth as nat)->Some_0;
                                if spec_encode_elems(msgs, field@, av.skip(i as int + 1),
                                    depth as nat) is Some {
                                    let rest = spec_encode_elems(msgs, field@,
                                        av.skip(i as int + 1), depth as nat)->Some_0;
                                    assert(before + (b + rest) =~= out@ + rest);
                                }
                            }
                        },
                        Err(e) => {
                            proof {
                                assert(spec_encode_single(msgs, field@, av[i as int],
                                    depth as nat) is None);
                                assert(spec_encode_elems(msgs, field@, av.skip(i as int),
                                    depth as nat) is None);
                                assert(spec_encode_elems(msgs, field@, av, depth as nat)
                                    is None);
                            }
                            return Err(e);
                        },
                    }
                    i += 1;
                }
                proof {
                    assert(av.skip(av.len() as int).len() == 0);
                    assert(out@ + Seq::<u8>::empty() =~= out@);
                }
                Ok(())
            },
            _ => self.encode_single(field, value, out, depth),
        }
    }

    /// Encode one scalar or nested value under the field's tag: appends
    /// exactly its wire encoding.
    fn encode_single(&self, field: &FieldDescriptor, value: &JsonVal, out: &mut Vec<u8>,
        depth: usize) -> (r: Result<(), TranscodeError>)
        requires
            depth >= 1,
        ensures
            (match r {
                Ok(_) => spec_encode_single(spec_pool(self.pool), field@, value@,
                    depth as nat) is Some && final(out)@ == old(out)@ + spec_encode_single(
                    spec_pool(self.pool), field@, value@, depth as nat)->Some_0,
                Err(e) => spec_encode_single(spec_pool(self.pool), field@, value@,
                    depth as nat) is None && (e is TypeMismatch || e is ProtobufSerialize),
            }),
        decreases depth, 0int, *value,
    {
        let number = field.number as u64;
        match field.kind {
            FieldKind::Bool => {
                match value {
                    JsonVal::Bool(b) => {
                        encode_varint(out, number * 8);
                        encode_varint(out, if *b { 1 } else { 0 });
                        proof {
                            assert(out@ =~= old(out)@ + (spec_varint(field@.number * 8)
                                + spec_varint(if *b { 1int } else { 0int })));
                        }
                        Ok(())
                    },
                    _ => Err(type_mismatch("bool")),
                }
            },
            FieldKind::Int64 => {
                match value {
                    JsonVal::Int(v) => {
                        encode_varint(out, number * 8);
                        encode_varint(out, *v as u64);
                        proof {
                            assert(out@ =~= old(out)@ + (spec_varint(field@.number * 8)
                                + spec_varint((*v as u64) as int)));
                        }
                        Ok(())
                    },
                    _ => Err(type_mismatch("int64")),
                }
            },
            FieldKind::Uint64 => {
                match value {
                    JsonVal::Int(v) => {
                        if *v < 0 {
                            return Err(type_mismatch("uint64"));
                        }
                        encode_varint(out, number * 8);
                        encode_varint(out, *v as u64);
                        proof {
                            assert(out@ =~= old(out)@ + (spec_varint(field@.number * 8)
                                + spec_varint(*v as int)));
                        }
                        Ok(())
                    },
                    _ => Err(type_mismatch("uint64")),
                }
            },
            FieldKind::Str => {
                match value {
                    JsonVal::Str(s) => {
                        encode_varint(out, number * 8 + 2);
                        encode_varint(out, s.len() as u64);
                        let ghost mid = out@;
                        let mut i: usize = 0;
                        while i < s.len()
                            invariant
                                i <= s@.len(),
                                out@ == mid + s@.subrange(0, i as int),
                            decreases s@.len() - i,
                        {
                            out.push(s[i]);
                            proof {
                                assert(s@.subrange(0, i as int + 1)
                                    =~= s@.subrange(0, i as int).push(s@[i as int]));
                            }
                            i += 1;
                        }
                        proof {
                            assert(s@.subrange(0, s@.len() as int) =~= s@);
                            assert(out@ =~= old(out)@ + (spec_varint(field@.number * 8 + 2)
                                + spec_varint(s@.len() as int) + s@));
                        }
                        Ok(())
                    },
                    _ => Err(type_mismatch("string")),
                }
            },
            FieldKind::Bytes => {
                match value {
                    JsonVal::Str(s) => {
                        let decoded = match base64_decode(s.as_slice()) {
                            Some(d) => d,
                            None => {
                                return Err(type_mismatch("base64 bytes"));
                            },
                        };
                        encode_varint(out, number * 8 + 2);
                        encode_varint(out, decoded.len() as u64);
                        let ghost mid = out@;
                        let mut i: usize = 0;
                        while i < decoded.len()
                            invariant
                                i <= decoded@.len(),
                                out@ == mid + decoded@.subrange(0, i as int),
                            decreases decoded@.len() - i,
                        {
                            out.push(decoded[i]);
                            proof {
                                assert(decoded@.subrange(0, i as int + 1)
                                    =~= decoded@.subrange(0, i as int).push(
                                        decoded@[i as int]));
                            }
                            i += 1;
                        }
                        proof {
                            assert(decoded@.subrange(0, decoded@.len() as int) =~= decoded@);
                            assert(out@ =~= old(out)@ + (spec_varint(field@.number * 8 + 2)
                                + spec_varint(decoded@.len() as int) + decoded@));
                        }
                        Ok(())
                    },
                    _ => Err(type_mismatch("base64 bytes")),
                }
            },
            FieldKind::Message(nested) => {
                if nested >= self.pool.messages.len() {
                    proof {
                        assert(spec_pool(self.pool).len() == self.pool.messages@.len());
                    }
                    return Err(TranscodeError::ProtobufSerialize(
                        "Dangling nested descriptor".to_owned()));
                }
                let inner = match self.json_to_protobuf(value, nested, depth - 1) {
                    Ok(b) => b,
                    Err(e) => {
                        return Err(e);
                    },
                };
                encode_varint(out, number * 8 + 2);
                encode_varint(out, inner.len() as u64);
                let ghost mid = out@;
                let mut i: usize = 0;
                while i < inner.len()
                    invariant
                        i <= inner@.len(),
                        out@ == mid + inner@.subrange(0, i as int),
                    decreases inner@.len() - i,
                {
                    out.push(inner[i]);
                    proof {
                        assert(inner@.subrange(0, i as int + 1)
                            =~= inner@.subrange(0, i as int).push(inner@[i as int]));
                    }
                    i += 1;
                }
                proof {
                    assert(inner@.subrange(0, inner@.len() as int) =~= inner@);
                    assert(out@ =~= old(out)@ + (spec_varint(field@.number * 8 + 2)
                        + spec_varint(inner@.len() as int) + inner@));
                }
                Ok(())
            },
        }
    }

    /// Load a compiled descriptor-set document and rebuild the pool from it.
    /// The wire bytes are decoded with this module's own verified wire
    /// decoder against a descriptor of the descriptor format itself; the
    /// decoded document is then walked for packages, message types, fields
    /// and service names, and message-typed fields are resolved against the
    /// loaded type names. Nested message declarations inside a message type
    /// are not read. A document that does not decode, a missing or non-text
    /// name, an out-of-range field number, an unsupported field type and a
    /// type reference that resolves to no loaded message each fail.
    #[verifier::loop_isolation(false)]
    pub fn load_descriptor_set(&mut self, data: &[u8]) -> (r: Result<(), TranscodeError>)
        ensures
            (match r {
                Ok(_) => true,
                Err(e) => e is InvalidDescriptor,
            }),
    {
        let meta = GrpcTranscoder::from_pool(meta_pool());
        let doc = match meta.protobuf_to_json(data, 0, 64) {
            Ok(v) => v,
            Err(_) => {
                return Err(invalid_descriptor());
            },
        };
        let files = doc_items(doc_get(&doc, "file".as_bytes()));
        let mut full_names: Vec<Vec<u8>> = Vec::new();
        let mut raw_fields: Vec<Vec<RawField>> = Vec::new();
        let mut services: Vec<String> = Vec::new();
        let mut fi: usize = 0;
        while fi < files.len()
            invariant
                fi <= files@.len(),
                full_names@.len() == raw_fields@.len(),
            decreases files@.len() - fi,
        {
            let file = files[fi];
            let package = match doc_str_bytes(doc_get(file, "package".as_bytes())) {
                Some(p) => p,
                None => Vec::new(),
            };
            let msgs = doc_items(doc_get(file, "message_type".as_bytes()));
            let mut mi: usize = 0;
            while mi < msgs.len()
                invariant
                    mi <= msgs@.len(),
                    full_names@.len() == raw_fields@.len(),
                decreases msgs@.len() - mi,
            {
                let m = msgs[mi];
                let mname = match doc_str_bytes(doc_get(m, "name".as_bytes())) {
                    Some(nm) => nm,
                    None => {
                        return Err(invalid_descriptor());
                    },
                };
                let mut full: Vec<u8> = Vec::new();
                if package.len() > 0 {
                    full = copy_name(&package);
                    full.push(46);
                }
                let mut pi: usize = 0;
                while pi < mname.len()
                    invariant
                        pi <= mname@.len(),
                    decreases mname@.len() - pi,
                {
                    full.push(mname[pi]);
                    pi += 1;
                }
                let fields_json = doc_items(doc_get(m, "field".as_bytes()));
                let mut raws: Vec<RawField> = Vec::new();
                let mut xi: usize = 0;
                while xi < fields_json.len()
                    invariant
                        xi <= fields_json@.len(),
                    decreases fields_json@.len() - xi,
                {
                    let f = fields_json[xi];
                    let fname = match doc_str_bytes(doc_get(f, "name".as_bytes())) {
                        Some(x) => x,
                        None => {
                            return Err(invalid_descriptor());
                        },
                    };
                    let num = match doc_int(doc_get(f, "number".as_bytes())) {
                        Some(x) => x,
                        None => {
                            return Err(invalid_descriptor());
                        },
                    };
                    if num < 1 || num > 536870911 {
                        return Err(invalid_descriptor());
                    }
                    let ft = match doc_int(doc_get(f, "type".as_bytes())) {
                        Some(x) => x,
                        None => {
                            return Err(invalid_descriptor());
                        },
                    };
                    let tref = match doc_str_bytes(doc_get(f, "type_ref".as_bytes())) {
                        Some(x) => x,
                        None => Vec::new(),
                    };
                    raws.push(RawField { name: fname, number: num as u32, ftype: ft,
                        type_ref: tref });
                    xi += 1;
                }
                full_names.push(full);
                raw_fields.push(raws);
                mi += 1;
            }
            let svcs = doc_items(doc_get(file, "service".as_bytes()));
            let mut si: usize = 0;
            while si < svcs.len()
                invariant
                    si <= svcs@.len(),
                    full_names@.len() == raw_fields@.len(),
                decreases svcs@.len() - si,
            {
                let sname = match doc_str_bytes(doc_get(svcs[si], "name".as_bytes())) {
                    Some(x) => x,
                    None => {
                        return Err(invalid_descriptor());
                    },
                };
                let mut fullsv: Vec<u8> = Vec::new();
                if package.len() > 0 {
                    fullsv = copy_name(&package);
                    fullsv.push(46);
                }
                let mut qi: usize = 0;
                while qi < sname.len()
                    invariant
                        qi <= sname@.len(),
                    decreases sname@.len() - qi,
                {
                    fullsv.push(sname[qi]);
                    qi += 1;
                }
                match crate::xml::bytes_to_string(fullsv) {
                    Some(t) => {
                        services.push(t);
                    },
                    None => {
                        return Err(invalid_descriptor());
                    },
                }
                si += 1;
            }
            fi += 1;
        }
        // Resolve message-typed fields against the loaded type names.
        let mut messages: Vec<MessageDescriptor> = Vec::new();
        let n_msgs = full_names.len();
        let mut mi: usize = 0;
        while mi < n_msgs
            invariant
                mi <= n_msgs,
                n_msgs == full_names@.len(),
                raw_fields@.len() == n_msgs,
            decreases n_msgs - mi,
        {
            let mut raws: Vec<RawField> = Vec::new();
            core::mem::swap(&mut raws, &mut raw_fields[mi]);
            let mut fields: Vec<FieldDescriptor> = Vec::new();
            let nf = raws.len();
            let mut xi: usize = 0;
            while xi < nf
                invariant
                    xi <= nf,
                    nf == raws@.len(),
                    n_msgs == full_names@.len(),
                decreases nf - xi,
            {
                let mut rf = RawField { name: Vec::new(), number: 0, ftype: 0,
                    type_ref: Vec::new() };
                core::mem::swap(&mut rf, &mut raws[xi]);
                let kind = if rf.ftype == 8 {
                    FieldKind::Bool
                } else if rf.ftype == 3 {
                    FieldKind::Int64
                } else if rf.ftype == 4 {
                    FieldKind::Uint64
                } else if rf.ftype == 9 {
                    FieldKind::Str
                } else if rf.ftype == 12 {
                    FieldKind::Bytes
                } else if rf.ftype == 11 {
                    let tb = rf.type_ref;
                    let start: usize = if tb.len() > 0 && tb[0] == 46 {
                        1
                    } else {
                        0
                    };
                    let needle = copy_range(tb.as_slice(), start, tb.len());
                    let mut found: Option<usize> = None;
                    let mut ni: usize = 0;
                    while ni < full_names.len()
                        invariant
                            ni <= full_names@.len(),
                            (match found {
                                Some(ix) => ix < full_names@.len(),
                                None => true,
                            }),
                        decreases full_names@.len() - ni,
                    {
                        if found.is_none() && bytes_match(&full_names[ni],
                            needle.as_slice()) {
                            found = Some(ni);
                        }
                        ni += 1;
                    }
                    match found {
                        Some(ix) => FieldKind::Message(ix),
                        None => {
                            return Err(invalid_descriptor());
                        },
                    }
                } else {
                    return Err(invalid_descriptor());
                };
                fields.push(FieldDescriptor { number: rf.number, name: rf.name, kind });
                xi += 1;
            }
            let fname_s = match crate::xml::bytes_to_string(copy_name(&full_names[mi])) {
                Some(t) => t,
                None => {
                    return Err(invalid_descriptor());
                },
            };
            messages.push(MessageDescriptor { full_name: fname_s, fields });
            mi += 1;
        }
        self.pool = DescriptorPool { messages, services };
        Ok(())
    }

    /// Decode the message under pool index `idx` from wire bytes: exactly
    /// what `spec_decode_message` yields; any malformed input is a parse
    /// error, and decodes to nothing under the specification.
    #[verifier::loop_isolation(false)]
    #[verifier::rlimit(100)]
    #[verifier::spinoff_prover]
    pub fn protobuf_to_json(&self, data: &[u8], idx: usize, depth: usize)
        -> (r: Result<JsonVal, TranscodeError>)
        requires
            idx < self.pool.messages@.len(),
        ensures
            (match r {
                Ok(v) => spec_decode_message(spec_pool(self.pool), idx as int, data@,
                    depth as nat) == Some(v@),
                Err(e) => spec_decode_message(spec_pool(self.pool), idx as int, data@,
                    depth as nat) is None && e is ProtobufParse,
            }),
        decreases depth,
    {
        let ghost msgs = spec_pool(self.pool);
        let ghost dn = depth as nat;
        if depth == 0 {
            return Err(TranscodeError::ProtobufParse("Nesting too deep".to_owned()));
        }
        let desc = &self.pool.messages[idx];
        let nfields = desc.fields.len();
        let ghost fviews = desc.fields@.map_values(|f: FieldDescriptor| f@);
        proof {
            assert(msgs[idx as int] == self.pool.messages@[idx as int]@);
            assert(msgs[idx as int].fields == fviews);
            assert(forall|f: int| 0 <= f < nfields
                ==> #[trigger] fviews[f] == desc.fields@[f]@);
        }
        // One value list per descriptor field, in descriptor order.
        let mut groups: Vec<Vec<JsonVal>> = Vec::new();
        let mut g: usize = 0;
        while g < nfields
            invariant
                g <= nfields,
                groups@.len() == g,
                forall|f: int| 0 <= f < g ==> (#[trigger] groups@[f])@.len() == 0,
            decreases nfields - g,
        {
            groups.push(Vec::new());
            g += 1;
        }
        let ghost mut done: Seq<(int, JsonView)> = Seq::empty();
        let n = data.len();
        let mut i: usize = 0;
        proof {
            assert(forall|f: int| 0 <= f < nfields
                ==> arr_view((#[trigger] groups@[f])@) =~= spec_group(done, f));
        }
        while i < n
            invariant
                idx < self.pool.messages@.len(),
                desc == &self.pool.messages[idx as int],
                msgs == spec_pool(self.pool),
                msgs[idx as int].fields == fviews,
                nfields == desc.fields@.len(),
                fviews.len() == nfields,
                fviews == desc.fields@.map_values(|f: FieldDescriptor| f@),
                groups@.len() == nfields,
                forall|f: int| 0 <= f < nfields
                    ==> arr_view((#[trigger] groups@[f])@) == spec_group(done, f),
                i <= n,
                n == data@.len(),
                depth >= 1,
                dn == depth as nat,
                spec_decode_records(msgs, fviews, data@, 0, dn)
                    == (match spec_decode_records(msgs, fviews, data@, i as int, dn) {
                        None => None::<Seq<(int, JsonView)>>,
                        Some(rest) => Some(done + rest),
                    }),
            decreases n - i,
        {
            let (key, after_key) = match decode_varint(data, i) {
                Some(p) => p,
                None => {
                    proof {
                        assert(spec_decode_records(msgs, fviews, data@, i as int, dn)
                            is None);
                        assert(spec_decode_message(msgs, idx as int, data@, dn) is None);
                    }
                    return Err(TranscodeError::ProtobufParse("Bad field key".to_owned()));
                },
            };
            let wire_type = (key & 7) as u8;
            let number = key >> 3;
            proof {
                assert(key & 7 == key % 8) by (bit_vector);
                assert(key >> 3 == key / 8) by (bit_vector);
            }
            // Find the first descriptor field with this number.
            let mut fidx: Option<usize> = None;
            let mut f: usize = 0;
            while f < nfields
                invariant
                    f <= nfields,
                    nfields == desc.fields@.len(),
                    fviews.len() == nfields,
                    fviews == desc.fields@.map_values(|ff: FieldDescriptor| ff@),
                    (match fidx {
                        Some(fi) => fi < nfields
                            && spec_field_index(fviews, number, 0) == Some(fi as int),
                        None => spec_field_index(fviews, number, 0)
                            == spec_field_index(fviews, number, f as int),
                    }),
                decreases nfields - f,
            {
                proof {
                    assert(fviews[f as int] == desc.fields@[f as int]@);
                }
                if fidx.is_none() && desc.fields[f].number as u64 == number {
                    fidx = Some(f);
                    proof {
                        assert(spec_field_index(fviews, number, f as int)
                            == Some(f as int));
                    }
                }
                f += 1;
            }
            let ghost done_before = done;
            let ghost groups_before = groups@;
            if wire_type == 0 {
                let (value, after) = match decode_varint(data, after_key) {
                    Some(p) => p,
                    None => {
                        proof {
                            assert(spec_decode_records(msgs, fviews, data@, i as int, dn)
                                is None);
                            assert(spec_decode_message(msgs, idx as int, data@, dn)
                                is None);
                        }
                        return Err(TranscodeError::ProtobufParse("Bad varint".to_owned()));
                    },
                };
                match fidx {
                    Some(fi) => {
                        let jv = match desc.fields[fi].kind {
                            FieldKind::Bool => JsonVal::Bool(value != 0),
                            FieldKind::Int64 => JsonVal::Int(value as i64),
                            FieldKind::Uint64 => {
                                if value > i64::MAX as u64 {
                                    proof {
                                        assert(spec_decode_scalar(
                                            fviews[fi as int].kind, value) is None);
                                        assert(spec_decode_records(msgs, fviews, data@,
                                            i as int, dn) is None);
                                        assert(spec_decode_message(msgs, idx as int,
                                            data@, dn) is None);
                                    }
                                    return Err(TranscodeError::ProtobufParse(
                                        "Value out of range".to_owned()));
                                }
                                JsonVal::Int(value as i64)
                            },
                            _ => {
                                proof {
                                    assert(spec_decode_scalar(
                                        fviews[fi as int].kind, value) is None);
                                    assert(spec_decode_records(msgs, fviews, data@,
                                        i as int, dn) is None);
                                    assert(spec_decode_message(msgs, idx as int, data@,
                                        dn) is None);
                                }
                                return Err(TranscodeError::ProtobufParse(
                                    "Wire type mismatch".to_owned()));
                            },
                        };
                        let ghost jvv = jv;
                        proof {
                            assert(spec_decode_scalar(fviews[fi as int].kind, value)
                                == Some(json_view(jvv)));
                        }
                        let mut group = Vec::new();
                        core::mem::swap(&mut group, &mut groups[fi]);
                        group.push(jv);
                        core::mem::swap(&mut group, &mut groups[fi]);
                        proof {
                            done = done.push((fi as int, json_view(jvv)));
                            lemma_record_step(groups_before, groups@, done_before, done,
                                fi as int, jvv);
                        }
                    },
                    None => {},
                }
                proof {
                    let ra = spec_decode_records(msgs, fviews, data@, after as int, dn);
                    match fidx {
                        Some(fi) => {
                            let rec = done.last();
                            assert(spec_decode_records(msgs, fviews, data@, i as int, dn)
                                == (match ra {
                                    None => None::<Seq<(int, JsonView)>>,
                                    Some(rest2) => Some(seq![rec] + rest2),
                                }));
                            if ra is Some {
                                assert(done_before + (seq![rec] + ra->Some_0)
                                    =~= done + ra->Some_0);
                            }
                        },
                        None => {
                            assert(spec_decode_records(msgs, fviews, data@, i as int, dn)
                                == ra);
                        },
                    }
                }
                i = after;
            } else if wire_type == 2 {
                let (len, after_len) = match decode_varint(data, after_key) {
                    Some(p) => p,
                    None => {
                        proof {
                            assert(spec_decode_records(msgs, fviews, data@, i as int, dn)
                                is None);
                            assert(spec_decode_message(msgs, idx as int, data@, dn)
                                is None);
                        }
                        return Err(TranscodeError::ProtobufParse("Bad length".to_owned()));
                    },
                };
                if len > (n - after_len) as u64 {
                    proof {
                        assert(spec_decode_records(msgs, fviews, data@, i as int, dn)
                            is None);
                        assert(spec_decode_message(msgs, idx as int, data@, dn) is None);
                    }
                    return Err(TranscodeError::ProtobufParse("Truncated field".to_owned()));
                }
                let start = after_len;
                let stop = after_len + len as usize;
                match fidx {
                    Some(fi) => {
                        let jv = match desc.fields[fi].kind {
                            FieldKind::Str => {
                                let bytes = copy_range(data, start, stop);
                                JsonVal::Str(bytes)
                            },
                            FieldKind::Bytes => {
                                let bytes = copy_range(data, start, stop);
                                JsonVal::Str(base64_encode(bytes.as_slice()))
                            },
                            FieldKind::Message(nested) => {
                                if nested >= self.pool.messages.len() {
                                    proof {
                                        assert(spec_decode_len_value(msgs,
                                            fviews[fi as int].kind, data@, start as int,
                                            stop as int, dn) is None);
                                        assert(spec_decode_records(msgs, fviews, data@,
                                            i as int, dn) is None);
                                        assert(spec_decode_message(msgs, idx as int,
                                            data@, dn) is None);
                                    }
                                    return Err(TranscodeError::ProtobufParse(
                                        "Dangling nested descriptor".to_owned()));
                                }
                                let bytes = copy_range(data, start, stop);
                                match self.protobuf_to_json(bytes.as_slice(), nested,
                                    depth - 1) {
                                    Ok(v) => v,
                                    Err(e) => {
                                        proof {
                                            assert(spec_decode_len_value(msgs,
                                                fviews[fi as int].kind, data@,
                                                start as int, stop as int, dn) is None);
                                            assert(spec_decode_records(msgs, fviews,
                                                data@, i as int, dn) is None);
                                            assert(spec_decode_message(msgs, idx as int,
                                                data@, dn) is None);
                                        }
                                        return Err(e);
                                    },
                                }
                            },
                            _ => {
                                proof {
                                    assert(spec_decode_len_value(msgs,
                                        fviews[fi as int].kind, data@, start as int,
                                        stop as int, dn) is None);
                                    assert(spec_decode_records(msgs, fviews, data@,
                                        i as int, dn) is None);
                                    assert(spec_decode_message(msgs, idx as int, data@,
                                        dn) is None);
                                }
                                return Err(TranscodeError::ProtobufParse(
                                    "Wire type mismatch".to_owned()));
                            },
                        };
                        let ghost jvv = jv;
                        proof {
                            assert(spec_decode_len_value(msgs, fviews[fi as int].kind,
                                data@, start as int, stop as int, dn)
                                == Some(json_view(jvv)));
                        }
                        let mut group = Vec::new();
                        core::mem::swap(&mut group, &mut groups[fi]);
                        group.push(jv);
                        core::mem::swap(&mut group, &mut groups[fi]);
                        proof {
                            done = done.push((fi as int, json_view(jvv)));
                            lemma_record_step(groups_before, groups@, done_before, done,
                                fi as int, jvv);
                        }
                    },
                    None => {},
                }
                proof {
                    let ra = spec_decode_records(msgs, fviews, data@, stop as int, dn);
                    match fidx {
                        Some(fi) => {
                            let rec = done.last();
                            assert(spec_decode_records(msgs, fviews, data@, i as int, dn)
                                == (match ra {
                                    None => None::<Seq<(int, JsonView)>>,
                                    Some(rest2) => Some(seq![rec] + rest2),
                                }));
                            if ra is Some {
                                assert(done_before + (seq![rec] + ra->Some_0)
                                    =~= done + ra->Some_0);
                            }
                        },
                        None => {
                            assert(spec_decode_records(msgs, fviews, data@, i as int, dn)
                                == ra);
                        },
                    }
                }
                i = stop;
            } else {
                proof {
                    assert(key % 8 != 0 && key % 8 != 2) by (bit_vector)
                        requires
                            (key & 7) as u8 != 0,
                            (key & 7) as u8 != 2;
                    assert(spec_decode_records(msgs, fviews, data@, i as int, dn)
                        is None);
                    assert(spec_decode_message(msgs, idx as int, data@, dn) is None);
                }
                return Err(TranscodeError::ProtobufParse("Unsupported wire type".to_owned()));
            }
        }
        proof {
            assert(spec_decode_records(msgs, fviews, data@, i as int, dn)
                == Some(Seq::<(int, JsonView)>::empty()));
            assert(done + Seq::<(int, JsonView)>::empty() =~= done);
            assert(spec_decode_records(msgs, fviews, data@, 0, dn) == Some(done));
        }
        // Assemble the object in descriptor order.
        let mut pairs: Vec<(Vec<u8>, JsonVal)> = Vec::new();
        let mut fi: usize = 0;
        let mut rest = groups;
        proof {
            crate::json::lemma_obj_view_index(pairs@);
            assert(obj_view(pairs@) + spec_assemble(fviews, done, 0)
                =~= spec_assemble(fviews, done, 0));
        }
        while fi < nfields
            invariant
                fi <= nfields,
                nfields == fviews.len(),
                rest@.len() == nfields,
                forall|ff: int| fi <= ff < nfields
                    ==> arr_view((#[trigger] rest@[ff])@) == spec_group(done, ff),
                spec_assemble(fviews, done, 0)
                    == obj_view(pairs@) + spec_assemble(fviews, done, fi as int),
                desc == &self.pool.messages[idx as int],
                fviews == desc.fields@.map_values(|f2: FieldDescriptor| f2@),
            decreases nfields - fi,
        {
            let ghost pairs_before = pairs@;
            let mut group = Vec::new();
            core::mem::swap(&mut group, &mut rest[fi]);
            let ghost gq0 = group@;
            let ghost gv = spec_group(done, fi as int);
            proof {
                assert(arr_view(gq0) == gv);
                crate::json::lemma_arr_view_index(gq0);
                assert(fviews[fi as int] == desc.fields@[fi as int]@);
            }
            if group.len() == 1 {
                let v = match group.pop() {
                    Some(v) => v,
                    None => JsonVal::Null,
                };
                proof {
                    assert(v == gq0[0]);
                    assert(json_view(v) == gv[0]);
                }
                let name = copy_name(&desc.fields[fi].name);
                pairs.push((name, v));
                proof {
                    lemma_assemble_step(pairs_before, pairs@,
                        (fviews[fi as int].name, gv[0]));
                    assert(spec_assemble(fviews, done, fi as int)
                        == seq![(fviews[fi as int].name, gv[0])]
                            + spec_assemble(fviews, done, fi as int + 1));
                    assert(obj_view(pairs_before)
                        + (seq![(fviews[fi as int].name, gv[0])]
                            + spec_assemble(fviews, done, fi as int + 1))
                        =~= obj_view(pairs@)
                            + spec_assemble(fviews, done, fi as int + 1));
                }
            } else if group.len() > 1 {
                let name = copy_name(&desc.fields[fi].name);
                pairs.push((name, JsonVal::Arr(group)));
                proof {
                    assert(json_view(pairs@.last().1) == JsonView::Arr(arr_view(gq0)));
                    lemma_assemble_step(pairs_before, pairs@,
                        (fviews[fi as int].name, JsonView::Arr(gv)));
                    assert(spec_assemble(fviews, done, fi as int)
                        == seq![(fviews[fi as int].name, JsonView::Arr(gv))]
                            + spec_assemble(fviews, done, fi as int + 1));
                    assert(obj_view(pairs_before)
                        + (seq![(fviews[fi as int].name, JsonView::Arr(gv))]
                            + spec_assemble(fviews, done, fi as int + 1))
                        =~= obj_view(pairs@)
                            + spec_assemble(fviews, done, fi as int + 1));
                }
            } else {
                proof {
                    assert(gv.len() == 0);
                    assert(spec_assemble(fviews, done, fi as int)
                        == spec_assemble(fviews, done, fi as int + 1));
                }
            }
            fi += 1;
        }
        proof {
            assert(spec_assemble(fviews, done, nfields as int)
                =~= Seq::<(Seq<u8>, JsonView)>::empty());
            assert(obj_view(pairs@) + spec_assemble(fviews, done, nfields as int)
                =~= obj_view(pairs@));
            assert(obj_view(pairs@) == spec_assemble(fviews, done, 0));
            assert(spec_decode_message(msgs, idx as int, data@, dn)
                == Some(JsonView::Obj(obj_view(pairs@))));
        }
        Ok(JsonVal::Obj(pairs))
    }
}

/// The field-name bytes of a descriptor entry.
fn name_bytes(s: &str) -> (r: Vec<u8>)
    ensures
        r@ == s.spec_bytes(),
{
    let b = s.as_bytes();
    copy_range(b, 0, b.len())
}

/// Whether a byte vector holds exactly these bytes.
fn bytes_match(a: &Vec<u8>, b: &[u8]) -> (r: bool)
    ensures
        r == (a@ == b@),
{
    let r = crate::body::payload_starts_with(a, b) && a.len() == b.len();
    proof {
        if r {
            assert(a@.subrange(0, b@.len() as int) =~= a@);
        }
        if a@ == b@ {
            assert(a@.subrange(0, b@.len() as int) =~= b@);
        }
    }
    r
}

/// One raw field read out of a descriptor document, before type-name
/// resolution: name, wire number, the type tag, and the named message type.
struct RawField {
    name: Vec<u8>,
    number: u32,
    ftype: i64,
    type_ref: Vec<u8>,
}

/// The value of an object's key, when the value is an object.
fn doc_get<'a>(v: &'a JsonVal, key: &[u8]) -> (r: Option<&'a JsonVal>) {
    match v {
        JsonVal::Obj(pairs) => {
            let mut i: usize = 0;
            while i < pairs.len()
                invariant
                    i <= pairs@.len(),
                decreases pairs@.len() - i,
            {
                if bytes_match(&pairs[i].0, key) {
                    return Some(&pairs[i].1);
                }
                i += 1;
            }
            None
        },
        _ => None,
    }
}

/// A decoded repeated field as a list: an array's elements, or the single
/// value the decoder collapsed a one-element group into.
fn doc_items<'a>(v: Option<&'a JsonVal>) -> (r: Vec<&'a JsonVal>) {
    match v {
        None => Vec::new(),
        Some(val) => match val {
            JsonVal::Arr(a) => {
                let mut out: Vec<&JsonVal> = Vec::new();
                let mut i: usize = 0;
                while i < a.len()
                    invariant
                        i <= a@.len(),
                    decreases a@.len() - i,
                {
                    out.push(&a[i]);
                    i += 1;
                }
                out
            },
            _ => {
                let mut out: Vec<&JsonVal> = Vec::new();
                out.push(val);
                out
            },
        },
    }
}

/// A decoded string field's bytes.
fn doc_str_bytes(v: Option<&JsonVal>) -> (r: Option<Vec<u8>>) {
    match v {
        Some(JsonVal::Str(b)) => Some(copy_name(b)),
        _ => None,
    }
}

/// A decoded integer field.
fn doc_int(v: Option<&JsonVal>) -> (r: Option<i64>) {
    match v {
        Some(JsonVal::Int(x)) => Some(*x),
        _ => None,
    }
}

/// The descriptor pool describing compiled descriptor-set documents
/// themselves, as far as this transcoder reads them: files with a package,
/// message types with their fields, and service names.
fn meta_pool() -> (r: DescriptorPool)
    ensures
        r.messages@.len() == 5,
{
    let mut messages: Vec<MessageDescriptor> = Vec::new();
    let mut f0: Vec<FieldDescriptor> = Vec::new();
    f0.push(FieldDescriptor { number: 1, name: name_bytes("file"),
        kind: FieldKind::Message(1) });
    messages.push(MessageDescriptor { full_name: "FileDescriptorSet".to_owned(),
        fields: f0 });
    let mut f1: Vec<FieldDescriptor> = Vec::new();
    f1.push(FieldDescriptor { number: 2, name: name_bytes("package"),
        kind: FieldKind::Str });
    f1.push(FieldDescriptor { number: 4, name: name_bytes("message_type"),
        kind: FieldKind::Message(2) });
    f1.push(FieldDescriptor { number: 6, name: name_bytes("service"),
        kind: FieldKind::Message(3) });
    messages.push(MessageDescriptor { full_name: "FileDescriptorProto".to_owned(),
        fields: f1 });
    let mut f2: Vec<FieldDescriptor> = Vec::new();
    f2.push(FieldDescriptor { number: 1, name: name_bytes("name"),
        kind: FieldKind::Str });
    f2.push(FieldDescriptor { number: 2, name: name_bytes("field"),
        kind: FieldKind::Message(4) });
    messages.push(MessageDescriptor { full_name: "DescriptorProto".to_owned(),
        fields: f2 });
    let mut f3: Vec<FieldDescriptor> = Vec::new();
    f3.push(FieldDescriptor { number: 1, name: name_bytes("name"),
        kind: FieldKind::Str });
    messages.push(MessageDescriptor { full_name: "ServiceDescriptorProto".to_owned(),
        fields: f3 });
    let mut f4: Vec<FieldDescriptor> = Vec::new();
    f4.push(FieldDescriptor { number: 1, name: name_bytes("name"),
        kind: FieldKind::Str });
    f4.push(FieldDescriptor { number: 3, name: name_bytes("number"),
        kind: FieldKind::Int64 });
    f4.push(FieldDescriptor { number: 5, name: name_bytes("type"),
        kind: FieldKind::Int64 });
    f4.push(FieldDescriptor { number: 6, name: name_bytes("type_ref"),
        kind: FieldKind::Str });
    messages.push(MessageDescriptor { full_name: "FieldDescriptorProto".to_owned(),
        fields: f4 });
    DescriptorPool { messages, services: Vec::new() }
}

/// The bad-document error.
fn invalid_descriptor() -> (r: TranscodeError)
    ensures
        r is InvalidDescriptor,
{
    TranscodeError::InvalidDescriptor("Unusable descriptor document".to_owned())
}

/// A type-mismatch error for an expected kind.
fn type_mismatch(expected: &str) -> (r: TranscodeError)
    ensures
        r is TypeMismatch,
{
    TranscodeError::TypeMismatch { expected: expected.to_owned(), actual: "value".to_owned() }
}

} // verus!
