//! The structured payload model: a JSON-equivalent value tree over bytes,
//! with a canonical printer.
//!
//! Numbers are 64-bit integers: the core carries no floating point, and
//! every count, port, identifier and timestamp the gateway routes on is
//! integral. Strings are raw byte sequences carried through UTF-8 unchanged.

use vstd::prelude::*;

verus! {

broadcast use vstd::std_specs::vec::axiom_vec_index_decreases;

/// A structured payload value.
#[derive(Debug)]
pub enum JsonVal {
    /// The null value.
    Null,
    /// A boolean.
    Bool(bool),
    /// A 64-bit integer.
    Int(i64),
    /// A string, as its raw bytes.
    Str(Vec<u8>),
    /// An array of values.
    Arr(Vec<JsonVal>),
    /// An object: a sequence of key/value pairs in insertion order.
    Obj(Vec<(Vec<u8>, JsonVal)>),
}

/// The mathematical model of a payload value.
pub enum JsonView {
    /// The null value.
    Null,
    /// A boolean.
    Bool(bool),
    /// A 64-bit integer.
    Int(i64),
    /// A string.
    Str(Seq<u8>),
    /// An array.
    Arr(Seq<JsonView>),
    /// An object in insertion order.
    Obj(Seq<(Seq<u8>, JsonView)>),
}

/// The model of a payload value.
pub open spec fn json_view(v: JsonVal) -> JsonView
    decreases v, 0int,
{
    match v {
        JsonVal::Null => JsonView::Null,
        JsonVal::Bool(b) => JsonView::Bool(b),
        JsonVal::Int(i) => JsonView::Int(i),
        JsonVal::Str(s) => JsonView::Str(s@),
        JsonVal::Arr(items) => JsonView::Arr(arr_view(items@)),
        JsonVal::Obj(pairs) => JsonView::Obj(obj_view(pairs@)),
    }
}

/// The models of an array's elements.
pub open spec fn arr_view(ts: Seq<JsonVal>) -> Seq<JsonView>
    decreases ts, 1int,
{
    if ts.len() == 0 {
        Seq::empty()
    } else {
        seq![json_view(ts[0])] + arr_view(ts.subrange(1, ts.len() as int))
    }
}

/// The models of an object's pairs.
pub open spec fn obj_view(ps: Seq<(Vec<u8>, JsonVal)>) -> Seq<(Seq<u8>, JsonView)>
    decreases ps, 1int,
{
    if ps.len() == 0 {
        Seq::empty()
    } else {
        seq![(ps[0].0@, json_view(ps[0].1))] + obj_view(ps.subrange(1, ps.len() as int))
    }
}

impl View for JsonVal {
    type V = JsonView;

    open spec fn view(&self) -> JsonView {
        json_view(*self)
    }
}

/// Element views are taken pointwise.
pub proof fn lemma_arr_view_index(ts: Seq<JsonVal>)
    ensures
        arr_view(ts).len() == ts.len(),
        forall|i: int| 0 <= i < ts.len() ==> arr_view(ts)[i] == json_view(#[trigger] ts[i]),
    decreases ts.len(),
{
    if ts.len() > 0 {
        let rest = ts.subrange(1, ts.len() as int);
        lemma_arr_view_index(rest);
        assert(forall|i: int| 0 <= i < rest.len() ==> #[trigger] rest[i] == ts[i + 1]);
        assert forall|i: int| 0 <= i < ts.len()
            implies arr_view(ts)[i] == json_view(#[trigger] ts[i]) by {
            if i == 0 {
                assert(arr_view(ts)[0] == seq![json_view(ts[0])][0]);
            } else {
                assert(arr_view(ts)[i] == arr_view(rest)[i - 1]);
                assert(rest[i - 1] == ts[i]);
            }
        }
    }
}

/// Pair views are taken pointwise.
pub proof fn lemma_obj_view_index(ps: Seq<(Vec<u8>, JsonVal)>)
    ensures
        obj_view(ps).len() == ps.len(),
        forall|i: int| 0 <= i < ps.len()
            ==> obj_view(ps)[i] == ((#[trigger] ps[i]).0@, json_view(ps[i].1)),
    decreases ps.len(),
{
    if ps.len() > 0 {
        let rest = ps.subrange(1, ps.len() as int);
        lemma_obj_view_index(rest);
        assert(forall|i: int| 0 <= i < rest.len() ==> #[trigger] rest[i] == ps[i + 1]);
        assert forall|i: int| 0 <= i < ps.len()
            implies obj_view(ps)[i] == ((#[trigger] ps[i]).0@, json_view(ps[i].1)) by {
            if i == 0 {
                assert(obj_view(ps)[0] == seq![(ps[0].0@, json_view(ps[0].1))][0]);
            } else {
                assert(obj_view(ps)[i] == obj_view(rest)[i - 1]);
                assert(rest[i - 1] == ps[i]);
            }
        }
    }
}

/// Two element lists with pointwise equal views have equal views.
pub proof fn lemma_arr_view_elementwise(a: Seq<JsonVal>, b: Seq<JsonVal>)
    requires
        a.len() == b.len(),
        forall|j: int| 0 <= j < a.len() ==> json_view(#[trigger] a[j]) == json_view(b[j]),
    ensures
        arr_view(a) == arr_view(b),
{
    lemma_arr_view_index(a);
    lemma_arr_view_index(b);
    assert forall|i: int| 0 <= i < arr_view(a).len()
        implies arr_view(a)[i] == arr_view(b)[i] by {
        assert(arr_view(a)[i] == json_view(a[i]));
        assert(arr_view(b)[i] == json_view(b[i]));
    }
    assert(arr_view(a) =~= arr_view(b));
}

/// Two pair lists with pointwise equal views have equal views.
pub proof fn lemma_obj_view_elementwise(a: Seq<(Vec<u8>, JsonVal)>, b: Seq<(Vec<u8>, JsonVal)>)
    requires
        a.len() == b.len(),
        forall|j: int| 0 <= j < a.len() ==> (#[trigger] a[j]).0@ == b[j].0@
            && json_view(a[j].1) == json_view(b[j].1),
    ensures
        obj_view(a) == obj_view(b),
{
    lemma_obj_view_index(a);
    lemma_obj_view_index(b);
    assert forall|i: int| 0 <= i < obj_view(a).len()
        implies obj_view(a)[i] == obj_view(b)[i] by {
        assert(obj_view(a)[i] == (a[i].0@, json_view(a[i].1)));
        assert(obj_view(b)[i] == (b[i].0@, json_view(b[i].1)));
    }
    assert(obj_view(a) =~= obj_view(b));
}

impl JsonVal {
    /// An exact copy of this value.
    #[verifier::loop_isolation(false)]
    pub fn duplicate(&self) -> (r: JsonVal)
        ensures
            r@ == self@,
        decreases *self,
    {
        match self {
            JsonVal::Null => JsonVal::Null,
            JsonVal::Bool(b) => JsonVal::Bool(*b),
            JsonVal::Int(i) => JsonVal::Int(*i),
            JsonVal::Str(s) => {
                let mut out: Vec<u8> = Vec::new();
                let mut i: usize = 0;
                while i < s.len()
                    invariant
                        i <= s@.len(),
                        out@ == s@.subrange(0, i as int),
                    decreases s@.len() - i,
                {
                    out.push(s[i]);
                    proof {
                        assert(s@.subrange(0, i as int + 1)
                            =~= s@.subrange(0, i as int).push(s@[i as int]));
                    }
                    i += 1;
                }
                proof {
                    assert(s@.subrange(0, s@.len() as int) =~= s@);
                }
                JsonVal::Str(out)
            },
            JsonVal::Arr(items) => {
                let mut out: Vec<JsonVal> = Vec::new();
                let mut i: usize = 0;
                while i < items.len()
                    invariant
                        i <= items@.len(),
                        out@.len() == i,
                        forall|j: int| 0 <= j < i
                            ==> json_view(#[trigger] out@[j]) == json_view(items@[j]),
                    decreases items@.len() - i,
                {
                    let c = items[i].duplicate();
                    out.push(c);
                    i += 1;
                }
                proof {
                    lemma_arr_view_elementwise(out@, items@);
                }
                JsonVal::Arr(out)
            },
            JsonVal::Obj(pairs) => {
                let mut out: Vec<(Vec<u8>, JsonVal)> = Vec::new();
                let mut i: usize = 0;
                while i < pairs.len()
                    invariant
                        i <= pairs@.len(),
                        out@.len() == i,
                        forall|j: int| 0 <= j < i ==> (#[trigger] out@[j]).0@ == pairs@[j].0@
                            && json_view(out@[j].1) == json_view(pairs@[j].1),
                    decreases pairs@.len() - i,
                {
                    let k = pairs[i].0.clone();
                    let v = pairs[i].1.duplicate();
                    out.push((k, v));
                    i += 1;
                }
                proof {
                    lemma_obj_view_elementwise(out@, pairs@);
                }
                JsonVal::Obj(out)
            },
        }
    }

    /// The value under `key` in an object, if any; the first pair wins.
    #[verifier::loop_isolation(false)]
    pub fn get<'a>(&'a self, key: &[u8]) -> (r: Option<&'a JsonVal>)
        ensures
            (match self@ {
                JsonView::Obj(pairs) => (match r {
                    Some(v) => spec_obj_get(pairs, key@) == Some(v@),
                    None => spec_obj_get(pairs, key@) is None,
                }),
                _ => r is None,
            }),
    {
        match self {
            JsonVal::Obj(pairs) => {
                let ghost pv = obj_view(pairs@);
                proof {
                    lemma_obj_view_index(pairs@);
                    assert(pv.skip(0) =~= pv);
                }
                let mut i: usize = 0;
                while i < pairs.len()
                    invariant
                        i <= pairs@.len(),
                        spec_obj_get(pv, key@) == spec_obj_get(pv.skip(i as int), key@),
                    decreases pairs@.len() - i,
                {
                    proof {
                        assert(pv.skip(i as int).len() == pv.len() - i);
                        assert(pv.skip(i as int)[0] == pv[i as int]);
                        assert(pv.skip(i as int).drop_first() =~= pv.skip(i as int + 1));
                    }
                    if crate::body::payload_starts_with(&pairs[i].0, key)
                        && pairs[i].0.len() == key.len() {
                        proof {
                            assert(pairs@[i as int].0@.subrange(0, key@.len() as int)
                                =~= pairs@[i as int].0@);
                            assert(pv[i as int].0 == key@);
                        }
                        return Some(&pairs[i].1);
                    }
                    proof {
                        if pairs@[i as int].0@ == key@ {
                            assert(pairs@[i as int].0@.subrange(0, key@.len() as int) =~= key@);
                        }
                        assert(pv[i as int].0 != key@);
                    }
                    i += 1;
                }
                proof {
                    assert(pv.skip(pv.len() as int).len() == 0);
                }
                None
            },
            _ => None,
        }
    }

    /// Append a pair to an object; any other value is left unchanged.
    pub fn insert(&mut self, key: Vec<u8>, value: JsonVal)
        ensures
            (match old(self)@ {
                JsonView::Obj(pairs) => final(self)@ == JsonView::Obj(
                    pairs.push((key@, value@))),
                _ => final(self)@ == old(self)@,
            }),
    {
        let ghost kv = key@;
        let ghost vv = value@;
        match self {
            JsonVal::Obj(pairs) => {
                let ghost before = pairs@;
                pairs.push((key, value));
                proof {
                    lemma_obj_view_index(before);
                    lemma_obj_view_index(pairs@);
                    assert(forall|j: int| 0 <= j < before.len()
                        ==> #[trigger] pairs@[j] == before[j]);
                    assert(pairs@[before.len() as int].0@ == kv);
                    assert(json_view(pairs@[before.len() as int].1) == vv);
                    assert forall|j: int| 0 <= j < obj_view(pairs@).len()
                        implies obj_view(pairs@)[j] == obj_view(before).push((kv, vv))[j] by {
                        assert(obj_view(pairs@)[j] == (pairs@[j].0@, json_view(pairs@[j].1)));
                    }
                    assert(obj_view(pairs@) =~= obj_view(before).push((kv, vv)));
                }
            },
            _ => {},
        }
    }
}

/// First value under `key` in an object's pair list.
pub open spec fn spec_obj_get(pairs: Seq<(Seq<u8>, JsonView)>, key: Seq<u8>) -> Option<JsonView>
    decreases pairs.len(),
{
    if pairs.len() == 0 {
        None
    } else if pairs[0].0 == key {
        Some(pairs[0].1)
    } else {
        spec_obj_get(pairs.drop_first(), key)
    }
}

/// Decimal digits of a nonnegative number, most significant first.
pub open spec fn spec_nat_bytes(n: int) -> Seq<u8>
    recommends
        n >= 0,
    decreases n,
{
    if n < 10 {
        seq![(48 + if n >= 0 { n } else { 0 }) as u8]
    } else {
        spec_nat_bytes(n / 10) + seq![(48 + n % 10) as u8]
    }
}

/// Canonical text of a 64-bit integer.
pub open spec fn spec_int_bytes(i: i64) -> Seq<u8> {
    if i < 0 {
        seq![45u8] + spec_nat_bytes(-(i as int))
    } else {
        spec_nat_bytes(i as int)
    }
}

/// Escaped form of one string byte: quote and backslash take a backslash,
/// control bytes take a four-digit hexadecimal escape, everything else
/// passes through.
pub open spec fn spec_escape_byte(b: u8) -> Seq<u8> {
    if b == 34 {
        seq![92u8, 34u8]
    } else if b == 92 {
        seq![92u8, 92u8]
    } else if b < 32 {
        seq![92u8, 117u8, 48u8, 48u8, spec_hex_digit(b as int / 16), spec_hex_digit(b as int % 16)]
    } else {
        seq![b]
    }
}

/// Lower-case hexadecimal digit for a value below 16.
pub open spec fn spec_hex_digit(v: int) -> u8 {
    if v < 10 {
        (48 + v) as u8
    } else {
        (87 + v) as u8
    }
}

/// Escaped form of a whole string.
pub open spec fn spec_escape(s: Seq<u8>) -> Seq<u8>
    decreases s.len(),
{
    if s.len() == 0 {
        Seq::empty()
    } else {
        spec_escape_byte(s[0]) + spec_escape(s.drop_first())
    }
}

/// The canonical printed text of a value: no whitespace, keys in insertion
/// order.
pub open spec fn spec_print(v: JsonView) -> Seq<u8>
    decreases v, 0int,
{
    match v {
        JsonView::Null => seq![110u8, 117u8, 108u8, 108u8],
        JsonView::Bool(b) => if b {
            seq![116u8, 114u8, 117u8, 101u8]
        } else {
            seq![102u8, 97u8, 108u8, 115u8, 101u8]
        },
        JsonView::Int(i) => spec_int_bytes(i),
        JsonView::Str(s) => seq![34u8] + spec_escape(s) + seq![34u8],
        JsonView::Arr(items) => seq![91u8] + spec_print_elements(items) + seq![93u8],
        JsonView::Obj(pairs) => seq![123u8] + spec_print_members(pairs) + seq![125u8],
    }
}

/// The printed elements of an array, comma separated.
pub open spec fn spec_print_elements(items: Seq<JsonView>) -> Seq<u8>
    decreases items, 1int,
{
    if items.len() == 0 {
        Seq::empty()
    } else if items.len() == 1 {
        spec_print(items[0])
    } else {
        spec_print_elements(items.drop_last()) + seq![44u8] + spec_print(items.last())
    }
}

/// The printed members of an object, comma separated, each as key, colon,
/// value.
pub open spec fn spec_print_members(pairs: Seq<(Seq<u8>, JsonView)>) -> Seq<u8>
    decreases pairs, 1int,
{
    if pairs.len() == 0 {
        Seq::empty()
    } else if pairs.len() == 1 {
        spec_print_member(pairs[0])
    } else {
        spec_print_members(pairs.drop_last()) + seq![44u8] + spec_print_member(pairs.last())
    }
}

/// One printed object member.
pub open spec fn spec_print_member(pair: (Seq<u8>, JsonView)) -> Seq<u8>
    decreases pair, 0int,
{
    seq![34u8] + spec_escape(pair.0) + seq![34u8, 58u8] + spec_print(pair.1)
}

/// Append the escaped form of `s` to `out`.
#[verifier::loop_isolation(false)]
fn push_escaped(out: &mut Vec<u8>, s: &Vec<u8>)
    ensures
        final(out)@ == old(out)@ + spec_escape(s@),
{
    let mut i: usize = 0;
    while i < s.len()
        invariant
            i <= s@.len(),
            out@ == old(out)@ + spec_escape(s@.subrange(0, i as int)),
        decreases s@.len() - i,
    {
        let b = s[i];
        if b == 34 {
            out.push(92);
            out.push(34);
        } else if b == 92 {
            out.push(92);
            out.push(92);
        } else if b < 32 {
            out.push(92);
            out.push(117);
            out.push(48);
            out.push(48);
            let hi = b / 16;
            let lo = b % 16;
            out.push(if hi < 10 { 48 + hi } else { 87 + hi });
            out.push(if lo < 10 { 48 + lo } else { 87 + lo });
        } else {
            out.push(b);
        }
        proof {
            lemma_escape_snoc(s@.subrange(0, i as int), s@[i as int]);
            assert(s@.subrange(0, i as int + 1)
                =~= s@.subrange(0, i as int).push(s@[i as int]));
            assert(out@ =~= old(out)@ + spec_escape(s@.subrange(0, i as int + 1)));
        }
        i += 1;
    }
    proof {
        assert(s@.subrange(0, s@.len() as int) =~= s@);
    }
}

/// Escaping distributes over appending one byte.
proof fn lemma_escape_snoc(s: Seq<u8>, b: u8)
    ensures
        spec_escape(s.push(b)) == spec_escape(s) + spec_escape_byte(b),
    decreases s.len(),
{
    if s.len() == 0 {
        assert(s.push(b).drop_first() =~= Seq::<u8>::empty());
        assert(s.push(b)[0] == b);
        assert(spec_escape(Seq::<u8>::empty()) =~= Seq::<u8>::empty());
        assert(spec_escape(s.push(b))
            == spec_escape_byte(b) + spec_escape(Seq::<u8>::empty()));
        assert(spec_escape(s.push(b)) =~= spec_escape_byte(b));
        assert(spec_escape(s) + spec_escape_byte(b) =~= spec_escape_byte(b));
    } else {
        assert(s.push(b).drop_first() =~= s.drop_first().push(b));
        assert(s.push(b)[0] == s[0]);
        lemma_escape_snoc(s.drop_first(), b);
        assert(spec_escape(s.push(b))
            == spec_escape_byte(s[0]) + (spec_escape(s.drop_first()) + spec_escape_byte(b)));
        assert(spec_escape_byte(s[0]) + (spec_escape(s.drop_first()) + spec_escape_byte(b))
            =~= (spec_escape_byte(s[0]) + spec_escape(s.drop_first())) + spec_escape_byte(b));
    }
}

/// A byte sequence reversed.
pub open spec fn digits_rev(s: Seq<u8>) -> Seq<u8>
    decreases s.len(),
{
    if s.len() == 0 {
        Seq::empty()
    } else {
        seq![s.last()] + digits_rev(s.drop_last())
    }
}

/// Reversal preserves length.
proof fn lemma_digits_rev_len(s: Seq<u8>)
    ensures
        digits_rev(s).len() == s.len(),
    decreases s.len(),
{
    if s.len() > 0 {
        lemma_digits_rev_len(s.drop_last());
    }
}

/// Indexing into a reversed sequence.
proof fn lemma_digits_rev_index(s: Seq<u8>, i: int)
    requires
        0 <= i < s.len(),
    ensures
        digits_rev(s).len() == s.len(),
        digits_rev(s)[i] == s[s.len() - 1 - i],
    decreases s.len(),
{
    lemma_digits_rev_len(s);
    if i > 0 {
        lemma_digits_rev_index(s.drop_last(), i - 1);
    }
}

/// Append the decimal digits of `m` to `out`.
#[verifier::loop_isolation(false)]
fn push_nat(out: &mut Vec<u8>, m: u64)
    ensures
        final(out)@ == old(out)@ + spec_nat_bytes(m as int),
{
    if m < 10 {
        out.push(48 + (m as u8));
        proof {
            assert(out@ =~= old(out)@ + spec_nat_bytes(m as int));
        }
    } else {
        // Collect digits least significant first, then append in reverse.
        let mut digits: Vec<u8> = Vec::new();
        let mut v: u64 = m;
        while v > 0
            invariant
                v > 0 ==> spec_nat_bytes(m as int)
                    == spec_nat_bytes(v as int) + digits_rev(digits@),
                v == 0 ==> spec_nat_bytes(m as int) == digits_rev(digits@),
            decreases v,
        {
            let d = (v % 10) as u8;
            let ghost old_digits = digits@;
            let ghost old_v = v as int;
            digits.push(48 + d);
            v = v / 10;
            proof {
                assert(digits@ =~= old_digits.push((48 + d) as u8));
                assert(digits@.drop_last() =~= old_digits);
                assert(digits@.last() == (48 + d) as u8);
                assert(digits_rev(digits@)
                    == seq![digits@.last()] + digits_rev(digits@.drop_last()));
                assert(digits_rev(digits@) =~= seq![(48 + d) as u8] + digits_rev(old_digits));
                if v > 0 {
                    assert(old_v >= 10);
                    assert(spec_nat_bytes(old_v)
                        == spec_nat_bytes(old_v / 10) + seq![(48 + old_v % 10) as u8]);
                    assert(spec_nat_bytes(v as int) + digits_rev(digits@)
                        =~= (spec_nat_bytes(v as int) + seq![(48 + d) as u8])
                            + digits_rev(old_digits));
                } else {
                    assert(old_v < 10);
                    assert(spec_nat_bytes(old_v) =~= seq![(48 + d) as u8]);
                    assert(digits_rev(digits@)
                        =~= spec_nat_bytes(old_v) + digits_rev(old_digits));
                }
            }
        }
        let n = digits.len();
        proof {
            lemma_digits_rev_len(digits@);
        }
        let mut i: usize = 0;
        while i < n
            invariant
                n == digits@.len(),
                i <= n,
                out@ == old(out)@ + digits_rev(digits@).subrange(0, i as int),
            decreases n - i,
        {
            out.push(digits[n - 1 - i]);
            proof {
                lemma_digits_rev_index(digits@, i as int);
                assert(digits_rev(digits@).subrange(0, i as int + 1)
                    =~= digits_rev(digits@).subrange(0, i as int).push(
                        digits_rev(digits@)[i as int]));
            }
            i += 1;
        }
        proof {
            assert(digits_rev(digits@).subrange(0, digits_rev(digits@).len() as int)
                =~= digits_rev(digits@));
            assert(out@ =~= old(out)@ + spec_nat_bytes(m as int));
        }
    }
}

/// Append the canonical text of a 64-bit integer to `out`.
fn push_int(out: &mut Vec<u8>, i: i64)
    ensures
        final(out)@ == old(out)@ + spec_int_bytes(i),
{
    if i < 0 {
        out.push(45);
        let m: u64 = if i == i64::MIN {
            9223372036854775808u64
        } else {
            (-i) as u64
        };
        proof {
            assert(m as int == -(i as int));
        }
        let ghost mid = out@;
        push_nat(out, m);
        proof {
            assert(out@ =~= old(out)@ + (seq![45u8] + spec_nat_bytes(-(i as int))));
        }
    } else {
        push_nat(out, i as u64);
    }
}

/// Append the canonical printed text of `v` to `out`.
#[verifier::loop_isolation(false)]
#[verifier::rlimit(50)]
pub fn print_into(v: &JsonVal, out: &mut Vec<u8>)
    ensures
        final(out)@ == old(out)@ + spec_print(v@),
    decreases *v,
{
    match v {
        JsonVal::Null => {
            out.push(110);
            out.push(117);
            out.push(108);
            out.push(108);
            proof {
                assert(out@ =~= old(out)@ + spec_print(v@));
            }
        },
        JsonVal::Bool(b) => {
            if *b {
                out.push(116);
                out.push(114);
                out.push(117);
                out.push(101);
            } else {
                out.push(102);
                out.push(97);
                out.push(108);
                out.push(115);
                out.push(101);
            }
            proof {
                assert(out@ =~= old(out)@ + spec_print(v@));
            }
        },
        JsonVal::Int(i) => {
            push_int(out, *i);
        },
        JsonVal::Str(s) => {
            out.push(34);
            push_escaped(out, s);
            out.push(34);
            proof {
                assert(out@ =~= old(out)@ + spec_print(v@));
            }
        },
        JsonVal::Arr(items) => {
            let ghost av = arr_view(items@);
            proof {
                lemma_arr_view_index(items@);
            }
            out.push(91);
            let mut i: usize = 0;
            while i < items.len()
                invariant
                    i <= items@.len(),
                    out@ == old(out)@ + seq![91u8]
                        + spec_print_elements(av.subrange(0, i as int)),
                decreases items@.len() - i,
            {
                if i > 0 {
                    out.push(44);
                }
                print_into(&items[i], out);
                proof {
                    let pre = av.subrange(0, i as int);
                    let post = av.subrange(0, i as int + 1);
                    assert(post.drop_last() =~= pre);
                    assert(post.last() == av[i as int]);
                    assert(av[i as int] == json_view(items@[i as int]));
                    if i == 0 {
                        assert(spec_print_elements(post) == spec_print(av[0]));
                    }
                    assert(out@ =~= old(out)@ + seq![91u8] + spec_print_elements(post));
                }
                i += 1;
            }
            out.push(93);
            proof {
                assert(av.subrange(0, av.len() as int) =~= av);
                assert(out@ =~= old(out)@ + spec_print(v@));
            }
        },
        JsonVal::Obj(pairs) => {
            let ghost pv = obj_view(pairs@);
            proof {
                lemma_obj_view_index(pairs@);
            }
            out.push(123);
            let mut i: usize = 0;
            while i < pairs.len()
                invariant
                    i <= pairs@.len(),
                    out@ == old(out)@ + seq![123u8]
                        + spec_print_members(pv.subrange(0, i as int)),
                decreases pairs@.len() - i,
            {
                if i > 0 {
                    out.push(44);
                }
                out.push(34);
                push_escaped(out, &pairs[i].0);
                out.push(34);
                out.push(58);
                print_into(&pairs[i].1, out);
                proof {
                    let pre = pv.subrange(0, i as int);
                    let post = pv.subrange(0, i as int + 1);
                    assert(post.drop_last() =~= pre);
                    assert(post.last() == pv[i as int]);
                    assert(pv[i as int] == (pairs@[i as int].0@, json_view(pairs@[i as int].1)));
                    assert(spec_print_member(pv[i as int])
                        == seq![34u8] + spec_escape(pairs@[i as int].0@) + seq![34u8, 58u8]
                            + spec_print(json_view(pairs@[i as int].1)));
                    if i == 0 {
                        assert(spec_print_members(post) == spec_print_member(pv[0]));
                    }
                    assert(out@ =~= old(out)@ + seq![123u8] + spec_print_members(post));
                }
                i += 1;
            }
            out.push(125);
            proof {
                assert(pv.subrange(0, pv.len() as int) =~= pv);
                assert(out@ =~= old(out)@ + spec_print(v@));
            }
        },
    }
}

/// The canonical printed text of a value: no whitespace, object keys in
/// insertion order.
pub fn print_json(v: &JsonVal) -> (r: Vec<u8>)
    ensures
        r@ == spec_print(v@),
{
    let mut out: Vec<u8> = Vec::new();
    print_into(v, &mut out);
    proof {
        assert(out@ =~= spec_print(v@));
    }
    out
}

/// Structural equality of two values: equal models exactly.
#[verifier::loop_isolation(false)]
pub fn json_eq(a: &JsonVal, b: &JsonVal) -> (r: bool)
    ensures
        r == (a@ == b@),
    decreases *a,
{
    match (a, b) {
        (JsonVal::Null, JsonVal::Null) => true,
        (JsonVal::Bool(x), JsonVal::Bool(y)) => x == y,
        (JsonVal::Int(x), JsonVal::Int(y)) => x == y,
        (JsonVal::Str(x), JsonVal::Str(y)) => {
            let r = crate::body::payload_starts_with(x, y.as_slice()) && x.len() == y.len();
            proof {
                if r {
                    assert(x@.subrange(0, y@.len() as int) =~= x@);
                } else if x@ == y@ {
                    assert(x@.subrange(0, y@.len() as int) =~= y@);
                }
            }
            r
        },
        (JsonVal::Arr(xs), JsonVal::Arr(ys)) => {
            proof {
                lemma_arr_view_index(xs@);
                lemma_arr_view_index(ys@);
            }
            if xs.len() != ys.len() {
                proof {
                    assert(arr_view(xs@).len() != arr_view(ys@).len());
                }
                return false;
            }
            let mut i: usize = 0;
            while i < xs.len()
                invariant
                    i <= xs@.len(),
                    forall|j: int| 0 <= j < i
                        ==> json_view(#[trigger] xs@[j]) == json_view(ys@[j]),
                decreases xs@.len() - i,
            {
                if !json_eq(&xs[i], &ys[i]) {
                    proof {
                        assert(arr_view(xs@)[i as int] != arr_view(ys@)[i as int]);
                    }
                    return false;
                }
                i += 1;
            }
            proof {
                lemma_arr_view_elementwise(xs@, ys@);
            }
            true
        },
        (JsonVal::Obj(xs), JsonVal::Obj(ys)) => {
            proof {
                lemma_obj_view_index(xs@);
                lemma_obj_view_index(ys@);
            }
            if xs.len() != ys.len() {
                proof {
                    assert(obj_view(xs@).len() != obj_view(ys@).len());
                }
                return false;
            }
            let mut i: usize = 0;
            while i < xs.len()
                invariant
                    i <= xs@.len(),
                    forall|j: int| 0 <= j < i ==> (#[trigger] xs@[j]).0@ == ys@[j].0@
                        && json_view(xs@[j].1) == json_view(ys@[j].1),
                decreases xs@.len() - i,
            {
                let keys_equal = crate::body::payload_starts_with(&xs[i].0, ys[i].0.as_slice())
                    && xs[i].0.len() == ys[i].0.len();
                proof {
                    if keys_equal {
                        assert(xs@[i as int].0@.subrange(0, ys@[i as int].0@.len() as int)
                            =~= xs@[i as int].0@);
                    } else if xs@[i as int].0@ == ys@[i as int].0@ {
                        assert(xs@[i as int].0@.subrange(0, ys@[i as int].0@.len() as int)
                            =~= ys@[i as int].0@);
                    }
                }
                if !keys_equal {
                    proof {
                        assert(obj_view(xs@)[i as int] != obj_view(ys@)[i as int]);
                    }
                    return false;
                }
                if !json_eq(&xs[i].1, &ys[i].1) {
                    proof {
                        assert(obj_view(xs@)[i as int] != obj_view(ys@)[i as int]);
                    }
                    return false;
                }
                i += 1;
            }
            proof {
                lemma_obj_view_elementwise(xs@, ys@);
            }
            true
        },
        _ => {
            proof {
                assert(a@ != b@);
            }
            false
        },
    }
}

} // verus!
