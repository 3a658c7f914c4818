//! The payload parser: reads the canonical JSON text the printer emits back
//! into the value tree. Parsing inverts printing exactly: a payload printed
//! and re-parsed comes back structurally unchanged.

use vstd::prelude::*;
use crate::json::{spec_escape, spec_escape_byte, spec_nat_bytes, spec_print,
    spec_print_elements, spec_print_member, spec_print_members, JsonVal, JsonView};

verus! {

broadcast use vstd::std_specs::vec::axiom_vec_index_decreases;

/// Is this byte a decimal digit?
pub open spec fn spec_is_digit(b: u8) -> bool {
    48 <= b <= 57
}

/// What parsing a digit run at `i` with accumulator `acc` yields: the value
/// and the position after the last digit; fails on overflow past `u64::MAX`.
pub open spec fn spec_parse_digits(s: Seq<u8>, i: int, acc: u64) -> Option<(u64, int)>
    decreases s.len() - i,
{
    if i < 0 || i >= s.len() || !spec_is_digit(s[i]) {
        Some((acc, i))
    } else if acc > (u64::MAX - (s[i] - 48)) / 10 {
        None
    } else {
        spec_parse_digits(s, i + 1, (acc * 10 + (s[i] - 48)) as u64)
    }
}

/// What parsing a string body (after the opening quote) yields: the raw
/// bytes and the position after the closing quote.
pub open spec fn spec_parse_string_body(s: Seq<u8>, i: int) -> Option<(Seq<u8>, int)>
    decreases s.len() - i,
{
    if i < 0 || i >= s.len() {
        None
    } else if s[i] == 34 {
        Some((Seq::empty(), i + 1))
    } else if s[i] == 92 {
        if i + 1 >= s.len() {
            None
        } else if s[i + 1] == 34 || s[i + 1] == 92 {
            match spec_parse_string_body(s, i + 2) {
                Some((rest, j)) => Some((seq![s[i + 1]] + rest, j)),
                None => None,
            }
        } else if s[i + 1] == 117 && i + 5 < s.len() && s[i + 2] == 48 && s[i + 3] == 48 {
            match (spec_hex_val(s[i + 4]), spec_hex_val(s[i + 5])) {
                (Some(hi), Some(lo)) => match spec_parse_string_body(s, i + 6) {
                    Some((rest, j)) => Some((seq![(hi * 16 + lo) as u8] + rest, j)),
                    None => None,
                },
                _ => None,
            }
        } else {
            None
        }
    } else {
        match spec_parse_string_body(s, i + 1) {
            Some((rest, j)) => Some((seq![s[i]] + rest, j)),
            None => None,
        }
    }
}

/// The value of one hexadecimal digit byte.
pub open spec fn spec_hex_val(b: u8) -> Option<u8> {
    if 48 <= b <= 57 {
        Some((b - 48) as u8)
    } else if 97 <= b <= 102 {
        Some((b - 87) as u8)
    } else if 65 <= b <= 70 {
        Some((b - 55) as u8)
    } else {
        None
    }
}

/// What parsing one value at `i` yields.
pub open spec fn spec_parse_val(s: Seq<u8>, i: int) -> Option<(JsonView, int)>
    decreases s.len() - i, 2int,
{
    if i < 0 || i >= s.len() {
        None
    } else if s[i] == 110 {
        // null
        if i + 4 <= s.len() && s.subrange(i, i + 4) == spec_print(JsonView::Null) {
            Some((JsonView::Null, i + 4))
        } else {
            None
        }
    } else if s[i] == 116 {
        // true
        if i + 4 <= s.len() && s.subrange(i, i + 4) == spec_print(JsonView::Bool(true)) {
            Some((JsonView::Bool(true), i + 4))
        } else {
            None
        }
    } else if s[i] == 102 {
        // false
        if i + 5 <= s.len() && s.subrange(i, i + 5) == spec_print(JsonView::Bool(false)) {
            Some((JsonView::Bool(false), i + 5))
        } else {
            None
        }
    } else if s[i] == 34 {
        match spec_parse_string_body(s, i + 1) {
            Some((bytes, j)) => Some((JsonView::Str(bytes), j)),
            None => None,
        }
    } else if s[i] == 45 {
        if i + 1 < s.len() && spec_is_digit(s[i + 1]) {
            match spec_parse_digits(s, i + 1, 0) {
                Some((m, j)) => if m <= 0x8000000000000000u64 && m > 0 {
                    Some((JsonView::Int((-(m as int)) as i64), j))
                } else {
                    None
                },
                None => None,
            }
        } else {
            None
        }
    } else if spec_is_digit(s[i]) {
        match spec_parse_digits(s, i, 0) {
            Some((m, j)) => if m <= i64::MAX as u64 {
                Some((JsonView::Int(m as i64), j))
            } else {
                None
            },
            None => None,
        }
    } else if s[i] == 91 {
        if i + 1 < s.len() && s[i + 1] == 93 {
            Some((JsonView::Arr(Seq::empty()), i + 2))
        } else {
            match spec_parse_elems(s, i + 1) {
                Some((items, j)) => Some((JsonView::Arr(items), j)),
                None => None,
            }
        }
    } else if s[i] == 123 {
        if i + 1 < s.len() && s[i + 1] == 125 {
            Some((JsonView::Obj(Seq::empty()), i + 2))
        } else {
            match spec_parse_membs(s, i + 1) {
                Some((pairs, j)) => Some((JsonView::Obj(pairs), j)),
                None => None,
            }
        }
    } else {
        None
    }
}

/// What parsing a non-empty element list at `i` yields, up to and including
/// the closing bracket.
pub open spec fn spec_parse_elems(s: Seq<u8>, i: int) -> Option<(Seq<JsonView>, int)>
    decreases s.len() - i, 3int,
{
    match spec_parse_val(s, i) {
        Some((v, j)) => if j <= i || j >= s.len() {
            None
        } else if s[j] == 93 {
            Some((seq![v], j + 1))
        } else if s[j] == 44 {
            match spec_parse_elems(s, j + 1) {
                Some((rest, k)) => Some((seq![v] + rest, k)),
                None => None,
            }
        } else {
            None
        },
        None => None,
    }
}

/// What parsing a non-empty member list at `i` yields, up to and including
/// the closing brace.
pub open spec fn spec_parse_membs(s: Seq<u8>, i: int) -> Option<(Seq<(Seq<u8>, JsonView)>, int)>
    decreases s.len() - i, 3int,
{
    if i < 0 || i >= s.len() || s[i] != 34 {
        None
    } else {
        match spec_parse_string_body(s, i + 1) {
            Some((key, j)) => if j <= i || j >= s.len() || s[j] != 58 {
                None
            } else {
                match spec_parse_val(s, j + 1) {
                    Some((v, k)) => if k <= j || k >= s.len() {
                        None
                    } else if s[k] == 125 {
                        Some((seq![(key, v)], k + 1))
                    } else if s[k] == 44 {
                        match spec_parse_membs(s, k + 1) {
                            Some((rest, m)) => Some((seq![(key, v)] + rest, m)),
                            None => None,
                        }
                    } else {
                        None
                    },
                    None => None,
                }
            },
            None => None,
        }
    }
}

/// Ten to the `k`.
pub open spec fn pow10(k: nat) -> int
    decreases k,
{
    if k == 0 {
        1
    } else {
        10 * pow10((k - 1) as nat)
    }
}

/// A subrange equality read as indexed facts about the stream.
proof fn lemma_sub_to_idx(s: Seq<u8>, i: int, x: Seq<u8>)
    requires
        0 <= i,
        i + x.len() <= s.len(),
        s.subrange(i, i + x.len() as int) == x,
    ensures
        forall|j: int| 0 <= j < x.len() ==> s[i + j] == #[trigger] x[j],
{
    assert forall|j: int| 0 <= j < x.len() implies s[i + j] == #[trigger] x[j] by {
        assert(s.subrange(i, i + x.len() as int)[j] == s[i + j]);
    }
}

/// Indexed facts about the stream assembled back into a subrange equality.
proof fn lemma_idx_to_sub(s: Seq<u8>, i: int, x: Seq<u8>)
    requires
        0 <= i,
        i + x.len() <= s.len(),
        forall|j: int| 0 <= j < x.len() ==> s[i + j] == #[trigger] x[j],
    ensures
        s.subrange(i, i + x.len() as int) == x,
{
    assert forall|j: int| 0 <= j < x.len()
        implies s.subrange(i, i + x.len() as int)[j] == x[j] by {
        assert(s.subrange(i, i + x.len() as int)[j] == s[i + j]);
    }
    assert(s.subrange(i, i + x.len() as int) =~= x);
}

/// Ten to any power is positive.

proof fn lemma_pow10_pos(k: nat)
    ensures
        pow10(k) >= 1,
    decreases k,
{
    if k > 0 {
        lemma_pow10_pos((k - 1) as nat);
    }
}

/// A number is smaller than ten to its digit count.
proof fn lemma_nat_bytes_bound(m: int)
    requires
        0 <= m,
    ensures
        spec_nat_bytes(m).len() >= 1,
        m < pow10(spec_nat_bytes(m).len()),
        forall|j: int| 0 <= j < spec_nat_bytes(m).len()
            ==> spec_is_digit(#[trigger] spec_nat_bytes(m)[j]),
    decreases m,
{
    if m < 10 {
        assert(spec_nat_bytes(m) == seq![(48 + m) as u8]);
        assert(pow10(0nat) == 1);
        assert(pow10(1nat) == 10 * pow10(0nat));
    } else {
        lemma_nat_bytes_bound(m / 10);
        let d = spec_nat_bytes(m);
        let dp = spec_nat_bytes(m / 10);
        assert(d == dp + seq![(48 + m % 10) as u8]);
        assert(d.len() == dp.len() + 1);
        assert(pow10(d.len()) == 10 * pow10(dp.len()));
        assert(m < 10 * pow10(dp.len())) by (nonlinear_arith)
            requires
                m / 10 < pow10(dp.len()),
                m >= 10,
        ;
        assert forall|j: int| 0 <= j < d.len() implies spec_is_digit(#[trigger] d[j]) by {
            if j < dp.len() {
                assert(d[j] == dp[j]);
            }
        }
    }
}

/// Running the digit parser over the decimal text of `m` multiplies the
/// accumulator past those digits and adds `m`.
proof fn lemma_parse_digits_continue(s: Seq<u8>, i: int, m: int, acc: u64)
    requires
        0 <= i,
        0 <= m,
        i + spec_nat_bytes(m).len() <= s.len(),
        s.subrange(i, i + spec_nat_bytes(m).len()) == spec_nat_bytes(m),
        acc * pow10(spec_nat_bytes(m).len()) + m <= u64::MAX,
    ensures
        spec_parse_digits(s, i, acc) == spec_parse_digits(
            s, i + spec_nat_bytes(m).len(),
            (acc * pow10(spec_nat_bytes(m).len()) + m) as u64),
    decreases m,
{
    lemma_nat_bytes_bound(m);
    let d = spec_nat_bytes(m);
    assert(forall|j: int| 0 <= j < d.len()
        ==> #[trigger] s.subrange(i, i + d.len())[j] == s[i + j]);
    if m < 10 {
        assert(d == seq![(48 + m) as u8]);
        assert(s.subrange(i, i + d.len() as int)[0] == s[i]);
        assert(d[0] == (48 + m) as u8);
        assert(s[i] == (48 + m) as u8);
        assert(spec_is_digit(s[i]));
        assert((s[i] - 48) as int == m);
        assert(pow10(0nat) == 1);
        assert(pow10(1nat) == 10 * pow10(0nat));
        assert(acc * 10 + m <= u64::MAX);
        assert(acc <= (u64::MAX - (s[i] - 48)) / 10) by (nonlinear_arith)
            requires
                acc * 10 + m <= u64::MAX,
                (s[i] - 48) as int == m,
                0 <= m < 10,
                acc >= 0,
        ;
        assert(spec_parse_digits(s, i, acc)
            == spec_parse_digits(s, i + 1, (acc * 10 + (s[i] - 48)) as u64));
    } else {
        let dp = spec_nat_bytes(m / 10);
        assert(d == dp + seq![(48 + m % 10) as u8]);
        lemma_nat_bytes_bound(m / 10);
        // The prefix of the text is the text of m / 10.
        assert(s.subrange(i, i + dp.len() as int) =~= dp) by {
            assert(forall|j: int| 0 <= j < dp.len() ==> #[trigger] dp[j] == d[j]);
            assert(forall|j: int| 0 <= j < dp.len()
                ==> #[trigger] s.subrange(i, i + dp.len() as int)[j] == s[i + j]);
        }
        // The accumulated bound for the prefix follows from the whole.
        assert(pow10(d.len()) == 10 * pow10(dp.len()));
        let mid = acc * pow10(dp.len()) + m / 10;
        assert(mid * 10 + m % 10 == acc * pow10(d.len()) + m) by (nonlinear_arith)
            requires
                mid == acc * pow10(dp.len()) + m / 10,
                pow10(d.len()) == 10 * pow10(dp.len()),
                m >= 0,
        ;
        lemma_pow10_pos(dp.len());
        assert(mid >= 0) by (nonlinear_arith)
            requires
                mid == acc * pow10(dp.len()) + m / 10,
                acc >= 0,
                pow10(dp.len()) >= 1,
                m >= 10;
        assert(mid <= u64::MAX) by (nonlinear_arith)
            requires
                mid * 10 + m % 10 == acc * pow10(d.len()) + m,
                acc * pow10(d.len()) + m <= u64::MAX,
                m % 10 >= 0,
                mid >= 0,
        ;
        lemma_parse_digits_continue(s, i, m / 10, acc);
        // One more digit: the last one.
        let k = i + dp.len();
        assert(s[k] == (48 + m % 10) as u8) by {
            assert(s.subrange(i, i + d.len() as int)[dp.len() as int] == s[k]);
            assert(d[dp.len() as int] == (48 + m % 10) as u8);
        }
        assert(spec_is_digit(s[k]));
        assert((s[k] - 48) as int == m % 10);
        assert(mid <= (u64::MAX - (s[k] - 48)) / 10) by (nonlinear_arith)
            requires
                mid * 10 + m % 10 <= u64::MAX,
                (s[k] - 48) as int == m % 10,
                0 <= m % 10 < 10,
                mid >= 0,
        ;
        assert(spec_parse_digits(s, k, mid as u64)
            == spec_parse_digits(s, k + 1, (mid * 10 + (s[k] - 48)) as u64));
        assert((mid * 10 + (s[k] - 48)) as u64
            == (acc * pow10(d.len()) + m) as u64);
    }
}

/// Parsing the decimal text of `m` followed by a non-digit yields exactly
/// `m`.
proof fn lemma_parse_digits_exact(s: Seq<u8>, i: int, m: u64)
    requires
        0 <= i,
        i + spec_nat_bytes(m as int).len() <= s.len(),
        s.subrange(i, i + spec_nat_bytes(m as int).len()) == spec_nat_bytes(m as int),
        i + spec_nat_bytes(m as int).len() == s.len()
            || !spec_is_digit(s[i + spec_nat_bytes(m as int).len()]),
    ensures
        spec_parse_digits(s, i, 0) == Some((m, i + spec_nat_bytes(m as int).len())),
{
    assert(0 * pow10(spec_nat_bytes(m as int).len()) + m == m) by (nonlinear_arith);
    lemma_parse_digits_continue(s, i, m as int, 0);
    let j = i + spec_nat_bytes(m as int).len();
    assert(spec_parse_digits(s, j, m) == Some((m, j)));
}

/// Parsing an escaped string body followed by its closing quote yields the
/// raw content.
proof fn lemma_parse_string(s: Seq<u8>, i: int, content: Seq<u8>)
    requires
        0 <= i,
        i + spec_escape(content).len() + 1 <= s.len(),
        s.subrange(i, i + spec_escape(content).len() + 1)
            == spec_escape(content) + seq![34u8],
    ensures
        spec_parse_string_body(s, i)
            == Some((content, i + spec_escape(content).len() + 1)),
    decreases content.len(),
{
    let esc = spec_escape(content);
    let whole = esc + seq![34u8];
    lemma_sub_to_idx(s, i, whole);
    if content.len() == 0 {
        assert(esc =~= Seq::<u8>::empty());
        assert(whole[0] == 34u8);
        assert(s[i] == 34);
    } else {
        let c0 = content[0];
        let rest = content.drop_first();
        let e0 = spec_escape_byte(c0);
        assert(esc == e0 + spec_escape(rest));
        let k = i + e0.len();
        let tail = spec_escape(rest) + seq![34u8];
        // The tail of the text is the escaped rest plus the closing quote.
        assert forall|j: int| 0 <= j < tail.len() implies s[k + j] == #[trigger] tail[j] by {
            assert(whole[e0.len() + j] == tail[j]);
            assert(s[i + (e0.len() + j)] == whole[e0.len() + j]);
        }
        lemma_idx_to_sub(s, k, tail);
        lemma_parse_string(s, k, rest);
        assert(forall|j: int| 0 <= j < e0.len() ==> s[i + j] == #[trigger] e0[j]) by {
            assert forall|j: int| 0 <= j < e0.len() implies s[i + j] == #[trigger] e0[j] by {
                assert(whole[j] == e0[j]);
                assert(s[i + j] == whole[j]);
            }
        }
        if c0 == 34 {
            assert(e0 == seq![92u8, 34u8]);
            assert(s[i] == 92 && s[i + 1] == 34);
            assert(seq![34u8] + rest =~= content);
        } else if c0 == 92 {
            assert(e0 == seq![92u8, 92u8]);
            assert(s[i] == 92 && s[i + 1] == 92);
            assert(seq![92u8] + rest =~= content);
        } else if c0 < 32 {
            let hi = crate::json::spec_hex_digit(c0 as int / 16);
            let lo = crate::json::spec_hex_digit(c0 as int % 16);
            assert(e0 == seq![92u8, 117u8, 48u8, 48u8, hi, lo]);
            assert(s[i] == 92 && s[i + 1] == 117 && s[i + 2] == 48 && s[i + 3] == 48);
            assert(s[i + 4] == hi && s[i + 5] == lo);
            assert(spec_hex_val(hi) == Some((c0 / 16) as u8));
            assert(spec_hex_val(lo) == Some((c0 % 16) as u8));
            assert(((c0 / 16) * 16 + c0 % 16) as u8 == c0);
            assert(seq![c0] + rest =~= content);
        } else {
            assert(e0 == seq![c0]);
            assert(e0[0] == c0);
            assert(s[i + 0] == e0[0]);
            assert(s[i] == c0);
            assert(c0 != 34 && c0 != 92 && c0 >= 32);
            assert(seq![c0] + rest =~= content);
        }
    }
}

/// Every printed value is nonempty, and begins with a byte that announces
/// its variant: letters for the keywords, a quote, a sign or digit, or an
/// opening bracket or brace.
proof fn lemma_print_first_byte(v: JsonView)
    ensures
        spec_print(v).len() >= 1,
        (match v {
            JsonView::Null => spec_print(v)[0] == 110,
            JsonView::Bool(b) => spec_print(v)[0] == (if b { 116u8 } else { 102u8 }),
            JsonView::Int(x) => spec_print(v)[0] == 45 || spec_is_digit(spec_print(v)[0]),
            JsonView::Str(_) => spec_print(v)[0] == 34,
            JsonView::Arr(_) => spec_print(v)[0] == 91,
            JsonView::Obj(_) => spec_print(v)[0] == 123,
        }),
{
    match v {
        JsonView::Int(x) => {
            if x < 0 {
                assert(spec_print(v)[0] == 45);
            } else {
                lemma_nat_bytes_bound(x as int);
                assert(spec_print(v) == spec_nat_bytes(x as int));
                assert(spec_is_digit(spec_nat_bytes(x as int)[0]));
            }
        },
        _ => {},
    }
}

/// The printed elements of a nonempty array decompose from the front: the
/// first element's text, then a comma and the remaining elements when any.
proof fn lemma_print_elements_front(items: Seq<JsonView>)
    requires
        items.len() >= 1,
    ensures
        items.len() == 1 ==> spec_print_elements(items) == spec_print(items[0]),
        items.len() > 1 ==> spec_print_elements(items)
            == spec_print(items[0]) + seq![44u8]
                + spec_print_elements(items.subrange(1, items.len() as int)),
    decreases items.len(),
{
    if items.len() > 1 {
        let front = items.subrange(1, items.len() as int);
        let prefix = items.drop_last();
        lemma_print_elements_front(prefix);
        assert(forall|j: int| 0 <= j < prefix.len() ==> #[trigger] prefix[j] == items[j]);
        assert(spec_print_elements(items)
            == spec_print_elements(prefix) + seq![44u8] + spec_print(items.last()));
        if prefix.len() == 1 {
            assert(front =~= seq![items.last()]);
            assert(spec_print_elements(front) == spec_print(front[0]));
            assert(spec_print_elements(items)
                =~= spec_print(items[0]) + seq![44u8] + spec_print_elements(front));
        } else {
            let prefix_front = prefix.subrange(1, prefix.len() as int);
            assert(spec_print_elements(prefix)
                == spec_print(prefix[0]) + seq![44u8] + spec_print_elements(prefix_front));
            // The front of the whole is the front of the prefix extended by
            // the last element.
            assert(front.drop_last() =~= prefix_front);
            assert(front.last() == items.last());
            assert(spec_print_elements(front)
                == spec_print_elements(prefix_front) + seq![44u8]
                    + spec_print(items.last()));
            assert(spec_print_elements(items)
                =~= spec_print(items[0]) + seq![44u8] + spec_print_elements(front));
        }
    }
}

/// The printed members of a nonempty object decompose from the front.
proof fn lemma_print_members_front(pairs: Seq<(Seq<u8>, JsonView)>)
    requires
        pairs.len() >= 1,
    ensures
        pairs.len() == 1 ==> spec_print_members(pairs) == spec_print_member(pairs[0]),
        pairs.len() > 1 ==> spec_print_members(pairs)
            == spec_print_member(pairs[0]) + seq![44u8]
                + spec_print_members(pairs.subrange(1, pairs.len() as int)),
    decreases pairs.len(),
{
    if pairs.len() > 1 {
        let front = pairs.subrange(1, pairs.len() as int);
        let prefix = pairs.drop_last();
        lemma_print_members_front(prefix);
        assert(forall|j: int| 0 <= j < prefix.len() ==> #[trigger] prefix[j] == pairs[j]);
        assert(spec_print_members(pairs)
            == spec_print_members(prefix) + seq![44u8] + spec_print_member(pairs.last()));
        if prefix.len() == 1 {
            assert(front =~= seq![pairs.last()]);
            assert(spec_print_members(front) == spec_print_member(front[0]));
            assert(spec_print_members(pairs)
                =~= spec_print_member(pairs[0]) + seq![44u8] + spec_print_members(front));
        } else {
            let prefix_front = prefix.subrange(1, prefix.len() as int);
            assert(spec_print_members(prefix)
                == spec_print_member(prefix[0]) + seq![44u8]
                    + spec_print_members(prefix_front));
            assert(front.drop_last() =~= prefix_front);
            assert(front.last() == pairs.last());
            assert(spec_print_members(front)
                == spec_print_members(prefix_front) + seq![44u8]
                    + spec_print_member(pairs.last()));
            assert(spec_print_members(pairs)
                =~= spec_print_member(pairs[0]) + seq![44u8] + spec_print_members(front));
        }
    }
}

/// Parsing the printed text of a value, anywhere in a byte stream, yields
/// that value back and consumes exactly its text — provided the text is not
/// followed immediately by another digit, which only an integer could
/// absorb.
pub proof fn lemma_parse_print_val(s: Seq<u8>, i: int, v: JsonView)
    requires
        0 <= i,
        i + spec_print(v).len() <= s.len(),
        s.subrange(i, i + spec_print(v).len()) == spec_print(v),
        i + spec_print(v).len() == s.len() || !spec_is_digit(s[i + spec_print(v).len()]),
    ensures
        spec_parse_val(s, i) == Some((v, i + spec_print(v).len())),
    decreases v, 0int,
{
    let p = spec_print(v);
    lemma_sub_to_idx(s, i, p);
    lemma_print_first_byte(v);
    assert(s[i] == p[0]);
    match v {
        JsonView::Null => {
            assert(s[i] == 110);
            assert(s.subrange(i, i + 4) == spec_print(JsonView::Null));
        },
        JsonView::Bool(b) => {
            if b {
                assert(s[i] == 116);
                assert(s.subrange(i, i + 4) == spec_print(JsonView::Bool(true)));
            } else {
                assert(s[i] == 102);
                assert(s.subrange(i, i + 5) == spec_print(JsonView::Bool(false)));
            }
        },
        JsonView::Int(x) => {
            if x < 0 {
                let m = -(x as int);
                assert(p == seq![45u8] + spec_nat_bytes(m));
                assert(s[i] == 45);
                lemma_nat_bytes_bound(m);
                let d = spec_nat_bytes(m);
                assert forall|j: int| 0 <= j < d.len() implies s[i + 1 + j]
                    == #[trigger] d[j] by {
                    assert(p[1 + j] == d[j]);
                    assert(s[i + (1 + j)] == p[1 + j]);
                }
                lemma_idx_to_sub(s, i + 1, d);
                assert(s[i + 1] == d[0]);
                assert(spec_is_digit(s[i + 1]));
                lemma_parse_digits_exact(s, i + 1, m as u64);
                assert(m <= 0x8000000000000000);
                assert(m > 0);
                assert((-(m as u64) as int) as i64 == x);
            } else {
                let m = x as int;
                assert(p == spec_nat_bytes(m));
                lemma_nat_bytes_bound(m);
                assert(s.subrange(i, i + spec_nat_bytes(m).len() as int) == spec_nat_bytes(m));
                assert(s[i] == spec_nat_bytes(m)[0]);
                assert(spec_is_digit(s[i]));
                assert(s[i] != 110 && s[i] != 116 && s[i] != 102 && s[i] != 34 && s[i] != 45);
                lemma_parse_digits_exact(s, i, m as u64);
                assert(m <= i64::MAX as u64);
            }
        },
        JsonView::Str(content) => {
            assert(p == seq![34u8] + spec_escape(content) + seq![34u8]);
            assert(s[i] == 34);
            let tail = spec_escape(content) + seq![34u8];
            assert forall|j: int| 0 <= j < tail.len() implies s[i + 1 + j]
                == #[trigger] tail[j] by {
                assert(p[1 + j] == tail[j]);
                assert(s[i + (1 + j)] == p[1 + j]);
            }
            lemma_idx_to_sub(s, i + 1, tail);
            lemma_parse_string(s, i + 1, content);
        },
        JsonView::Arr(items) => {
            assert(p == seq![91u8] + spec_print_elements(items) + seq![93u8]);
            assert(s[i] == 91);
            if items.len() == 0 {
                assert(spec_print_elements(items) == Seq::<u8>::empty());
                assert(p =~= seq![91u8, 93u8]);
                assert(p[1] == 93u8);
                assert(s[i + 1] == 93);
                assert(items =~= Seq::<JsonView>::empty());
                assert(JsonView::Arr(Seq::<JsonView>::empty()) == v);
            } else {
                lemma_print_elements_front(items);
                lemma_print_first_byte(items[0]);
                let pe = spec_print_elements(items);
                assert(pe.len() >= 1 && pe[0] == spec_print(items[0])[0]) by {
                    if items.len() == 1 {
                    } else {
                        assert(pe == spec_print(items[0]) + seq![44u8]
                            + spec_print_elements(items.subrange(1, items.len() as int)));
                    }
                }
                let tail = pe + seq![93u8];
                assert forall|j: int| 0 <= j < tail.len() implies s[i + 1 + j]
                    == #[trigger] tail[j] by {
                    assert(p[1 + j] == tail[j]);
                    assert(s[i + (1 + j)] == p[1 + j]);
                }
                lemma_idx_to_sub(s, i + 1, tail);
                assert(tail[0] == pe[0]);
                assert(s[i + 1] == pe[0]);
                assert(s[i + 1] != 93);
                lemma_parse_print_elems(s, i + 1, items);
            }
        },
        JsonView::Obj(pairs) => {
            assert(p == seq![123u8] + spec_print_members(pairs) + seq![125u8]);
            assert(s[i] == 123);
            if pairs.len() == 0 {
                assert(spec_print_members(pairs) == Seq::<u8>::empty());
                assert(p =~= seq![123u8, 125u8]);
                assert(p[1] == 125u8);
                assert(s[i + 1] == 125);
                assert(pairs =~= Seq::<(Seq<u8>, JsonView)>::empty());
                assert(JsonView::Obj(Seq::<(Seq<u8>, JsonView)>::empty()) == v);
            } else {
                lemma_print_members_front(pairs);
                let pm = spec_print_members(pairs);
                assert(pm.len() >= 1 && pm[0] == 34) by {
                    assert(spec_print_member(pairs[0])[0] == 34);
                    if pairs.len() == 1 {
                    } else {
                        assert(pm == spec_print_member(pairs[0]) + seq![44u8]
                            + spec_print_members(pairs.subrange(1, pairs.len() as int)));
                    }
                }
                let tail = pm + seq![125u8];
                assert forall|j: int| 0 <= j < tail.len() implies s[i + 1 + j]
                    == #[trigger] tail[j] by {
                    assert(p[1 + j] == tail[j]);
                    assert(s[i + (1 + j)] == p[1 + j]);
                }
                lemma_idx_to_sub(s, i + 1, tail);
                assert(tail[0] == pm[0]);
                assert(s[i + 1] == pm[0]);
                assert(s[i + 1] != 125);
                lemma_parse_print_membs(s, i + 1, pairs);
            }
        },
    }
}

/// Parsing the printed elements of a nonempty array, followed by the
/// closing bracket, yields the elements back.
proof fn lemma_parse_print_elems(s: Seq<u8>, i: int, items: Seq<JsonView>)
    requires
        0 <= i,
        items.len() >= 1,
        i + spec_print_elements(items).len() + 1 <= s.len(),
        s.subrange(i, i + spec_print_elements(items).len() + 1)
            == spec_print_elements(items) + seq![93u8],
    ensures
        spec_parse_elems(s, i)
            == Some((items, i + spec_print_elements(items).len() + 1)),
    decreases items, 1int,
{
    let pe = spec_print_elements(items);
    let whole = pe + seq![93u8];
    lemma_sub_to_idx(s, i, whole);
    lemma_print_elements_front(items);
    let v0 = items[0];
    let p0 = spec_print(v0);
    lemma_print_first_byte(v0);
    if items.len() == 1 {
        assert(pe == p0);
        assert forall|j: int| 0 <= j < p0.len() implies s[i + j] == #[trigger] p0[j] by {
            assert(whole[j] == p0[j]);
            assert(s[i + j] == whole[j]);
        }
        lemma_idx_to_sub(s, i, p0);
        assert(whole[p0.len() as int] == 93u8);
        assert(s[i + p0.len()] == 93);
        lemma_parse_print_val(s, i, v0);
        assert(spec_parse_val(s, i) == Some((v0, i + p0.len())));
        assert(seq![v0] =~= items);
    } else {
        let front = items.subrange(1, items.len() as int);
        let fe = spec_print_elements(front);
        assert(pe == p0 + seq![44u8] + fe);
        assert forall|j: int| 0 <= j < p0.len() implies s[i + j] == #[trigger] p0[j] by {
            assert(whole[j] == p0[j]);
            assert(s[i + j] == whole[j]);
        }
        lemma_idx_to_sub(s, i, p0);
        assert(whole[p0.len() as int] == 44u8);
        assert(s[i + p0.len()] == 44);
        lemma_parse_print_val(s, i, v0);
        let j = i + p0.len();
        let ftail = fe + seq![93u8];
        assert forall|k: int| 0 <= k < ftail.len() implies s[j + 1 + k]
            == #[trigger] ftail[k] by {
            assert(whole[p0.len() + 1 + k] == ftail[k]);
            assert(s[i + (p0.len() + 1 + k)] == whole[p0.len() + 1 + k]);
        }
        lemma_idx_to_sub(s, j + 1, ftail);
        lemma_parse_print_elems(s, j + 1, front);
        assert(seq![v0] + front =~= items);
    }
}

/// Parsing the printed members of a nonempty object, followed by the
/// closing brace, yields the pairs back.
proof fn lemma_parse_print_membs(s: Seq<u8>, i: int, pairs: Seq<(Seq<u8>, JsonView)>)
    requires
        0 <= i,
        pairs.len() >= 1,
        i + spec_print_members(pairs).len() + 1 <= s.len(),
        s.subrange(i, i + spec_print_members(pairs).len() + 1)
            == spec_print_members(pairs) + seq![125u8],
    ensures
        spec_parse_membs(s, i)
            == Some((pairs, i + spec_print_members(pairs).len() + 1)),
    decreases pairs, 1int,
{
    let pm = spec_print_members(pairs);
    let whole = pm + seq![125u8];
    lemma_sub_to_idx(s, i, whole);
    lemma_print_members_front(pairs);
    let (key, v0) = pairs[0];
    let m0 = spec_print_member(pairs[0]);
    assert(m0 == seq![34u8] + spec_escape(key) + seq![34u8, 58u8] + spec_print(v0));
    lemma_print_first_byte(v0);
    // The member's own text is a prefix of the whole.
    assert(forall|j: int| 0 <= j < m0.len() ==> #[trigger] whole[j] == m0[j]) by {
        if pairs.len() > 1 {
            assert(pm == m0 + seq![44u8]
                + spec_print_members(pairs.subrange(1, pairs.len() as int)));
        }
        assert forall|j: int| 0 <= j < m0.len() implies #[trigger] whole[j] == m0[j] by {
            assert(pm[j] == m0[j]);
        }
    }
    assert(m0[0] == 34u8);
    assert(whole[0] == m0[0]);
    assert(s[i + 0] == whole[0]);
    assert(s[i] == 34);
    // The key's escaped text runs from i + 1 to its closing quote.
    let ktail = spec_escape(key) + seq![34u8];
    assert forall|j: int| 0 <= j < ktail.len() implies s[i + 1 + j]
        == #[trigger] ktail[j] by {
        assert(m0[1 + j] == ktail[j]);
        assert(whole[1 + j] == m0[1 + j]);
        assert(s[i + (1 + j)] == whole[1 + j]);
    }
    lemma_idx_to_sub(s, i + 1, ktail);
    lemma_parse_string(s, i + 1, key);
    let jk = i + 1 + spec_escape(key).len() + 1;
    assert(s[jk] == 58) by {
        assert(m0[jk - i] == 58u8);
        assert(whole[jk - i] == m0[jk - i]);
        assert(s[i + (jk - i)] == whole[jk - i]);
    }
    // The value's text follows the colon.
    let p0 = spec_print(v0);
    assert forall|j: int| 0 <= j < p0.len() implies s[jk + 1 + j] == #[trigger] p0[j] by {
        assert(m0[jk - i + 1 + j] == p0[j]);
        assert(whole[jk - i + 1 + j] == m0[jk - i + 1 + j]);
        assert(s[i + (jk - i + 1 + j)] == whole[jk - i + 1 + j]);
    }
    lemma_idx_to_sub(s, jk + 1, p0);
    let k = jk + 1 + p0.len();
    if pairs.len() == 1 {
        assert(pm == m0);
        assert(whole[k - i] == 125u8);
        assert(s[i + (k - i)] == whole[k - i]);
        assert(s[k] == 125);
        lemma_parse_print_val(s, jk + 1, v0);
        assert(seq![(key, v0)] =~= pairs);
    } else {
        let front = pairs.subrange(1, pairs.len() as int);
        let fm = spec_print_members(front);
        assert(pm == m0 + seq![44u8] + fm);
        assert(whole[k - i] == 44u8);
        assert(s[i + (k - i)] == whole[k - i]);
        assert(s[k] == 44);
        lemma_parse_print_val(s, jk + 1, v0);
        let ftail = fm + seq![125u8];
        assert forall|t: int| 0 <= t < ftail.len() implies s[k + 1 + t]
            == #[trigger] ftail[t] by {
            assert(whole[m0.len() + 1 + t] == ftail[t]);
            assert(s[i + (m0.len() + 1 + t)] == whole[m0.len() + 1 + t]);
        }
        lemma_idx_to_sub(s, k + 1, ftail);
        lemma_parse_print_membs(s, k + 1, front);
        assert(seq![(key, v0)] + front =~= pairs);
    }
}

/// The round trip: the canonical printed text of any payload value parses
/// back to exactly that value, consuming the whole text. Structure is
/// preserved; object keys keep their insertion order.
pub proof fn lemma_print_then_parse(v: JsonView)
    ensures
        spec_parse_val(spec_print(v), 0) == Some((v, spec_print(v).len() as int)),
{
    let s = spec_print(v);
    assert(s.subrange(0, s.len() as int) =~= s);
    lemma_parse_print_val(s, 0, v);
}

/// Parse a digit run, mirroring the digit specification.
#[verifier::loop_isolation(false)]
fn parse_digits(s: &[u8], i: usize) -> (r: Option<(u64, usize)>)
    requires
        i <= s@.len(),
    ensures
        (match r {
            Some(p) => spec_parse_digits(s@, i as int, 0) == Some((p.0, p.1 as int))
                && i <= p.1 <= s@.len()
                && ((i < s@.len() && spec_is_digit(s@[i as int])) ==> p.1 > i),
            None => spec_parse_digits(s@, i as int, 0) is None,
        }),
{
    let n = s.len();
    let mut acc: u64 = 0;
    let mut j = i;
    while j < n && 48 <= s[j] && s[j] <= 57
        invariant
            i <= j <= n,
            n == s@.len(),
            spec_parse_digits(s@, i as int, 0) == spec_parse_digits(s@, j as int, acc),
        decreases n - j,
    {
        let d = s[j] - 48;
        if acc > (u64::MAX - d as u64) / 10 {
            return None;
        }
        acc = acc * 10 + d as u64;
        j += 1;
    }
    proof {
        if i < s@.len() && spec_is_digit(s@[i as int]) && j == i {
            assert(j < n && 48 <= s@[j as int] <= 57);
            assert(false);
        }
    }
    Some((acc, j))
}

/// Parse a string body after its opening quote, mirroring the string
/// specification.
#[verifier::loop_isolation(false)]
fn parse_string_body(s: &[u8], i: usize) -> (r: Option<(Vec<u8>, usize)>)
    requires
        i <= s@.len(),
    ensures
        (match r {
            Some(p) => spec_parse_string_body(s@, i as int) == Some((p.0@, p.1 as int))
                && i < p.1 <= s@.len(),
            None => spec_parse_string_body(s@, i as int) is None,
        }),
{
    let n = s.len();
    let mut out: Vec<u8> = Vec::new();
    let mut j = i;
    loop
        invariant
            i <= j <= n,
            n == s@.len(),
            (match spec_parse_string_body(s@, i as int) {
                Some(whole) => (match spec_parse_string_body(s@, j as int) {
                    Some(rest) => whole.0 == out@ + rest.0 && whole.1 == rest.1,
                    None => false,
                }),
                None => spec_parse_string_body(s@, j as int) is None,
            }),
        decreases n - j,
    {
        if j >= n {
            return None;
        }
        let b = s[j];
        if b == 34 {
            proof {
                assert(out@ + Seq::<u8>::empty() =~= out@);
            }
            return Some((out, j + 1));
        } else if b == 92 {
            if j + 1 >= n {
                return None;
            }
            let e = s[j + 1];
            if e == 34 || e == 92 {
                let ghost before = out@;
                out.push(e);
                proof {
                    if spec_parse_string_body(s@, j as int + 2) is Some {
                        let rest2 = spec_parse_string_body(s@, j as int + 2)->Some_0;
                        assert(before + (seq![e] + rest2.0) =~= out@ + rest2.0);
                    }
                }
                j += 2;
            } else if e == 117 && n - j > 5 && s[j + 2] == 48 && s[j + 3] == 48 {
                let hi = match hex_val(s[j + 4]) {
                    Some(h) => h,
                    None => {
                        return None;
                    },
                };
                let lo = match hex_val(s[j + 5]) {
                    Some(l) => l,
                    None => {
                        return None;
                    },
                };
                let decoded = hi * 16 + lo;
                let ghost before = out@;
                out.push(decoded);
                proof {
                    if spec_parse_string_body(s@, j as int + 6) is Some {
                        let rest2 = spec_parse_string_body(s@, j as int + 6)->Some_0;
                        assert(before + (seq![decoded] + rest2.0) =~= out@ + rest2.0);
                    }
                }
                j += 6;
            } else {
                return None;
            }
        } else {
            let ghost before = out@;
            out.push(b);
            proof {
                if spec_parse_string_body(s@, j as int + 1) is Some {
                    let rest2 = spec_parse_string_body(s@, j as int + 1)->Some_0;
                    assert(before + (seq![b] + rest2.0) =~= out@ + rest2.0);
                }
            }
            j += 1;
        }
    }
}

/// The value of one hexadecimal digit byte.
fn hex_val(b: u8) -> (r: Option<u8>)
    ensures
        r == spec_hex_val(b),
        (match r {
            Some(v) => v < 16,
            None => true,
        }),
{
    if 48 <= b && b <= 57 {
        Some(b - 48)
    } else if 97 <= b && b <= 102 {
        Some(b - 87)
    } else if 65 <= b && b <= 70 {
        Some(b - 55)
    } else {
        None
    }
}

/// Parse one value, mirroring the value specification.
#[verifier::loop_isolation(false)]
pub fn parse_value(s: &[u8], i: usize, depth: usize) -> (r: Option<(JsonVal, usize)>)
    requires
        i <= s@.len(),
        depth as int >= s@.len() - i,
    ensures
        (match r {
            Some(p) => spec_parse_val(s@, i as int) == Some((p.0@, p.1 as int))
                && i < p.1 <= s@.len(),
            None => spec_parse_val(s@, i as int) is None,
        }),
    decreases depth, 2int,
{
    if depth == 0 {
        return None;
    }
    let n = s.len();
    if i >= n {
        return None;
    }
    let b = s[i];
    if b == 110 {
        if n - i >= 4 && s[i + 1] == 117 && s[i + 2] == 108 && s[i + 3] == 108 {
            proof {
                assert(s@.subrange(i as int, i as int + 4) =~= spec_print(JsonView::Null));
            }
            Some((JsonVal::Null, i + 4))
        } else {
            proof {
                if i as int + 4 <= s@.len()
                    && s@.subrange(i as int, i as int + 4) == spec_print(JsonView::Null) {
                    assert(s@[i as int + 1]
                        == s@.subrange(i as int, i as int + 4)[1]);
                    assert(s@[i as int + 2]
                        == s@.subrange(i as int, i as int + 4)[2]);
                    assert(s@[i as int + 3]
                        == s@.subrange(i as int, i as int + 4)[3]);
                }
            }
            None
        }
    } else if b == 116 {
        if n - i >= 4 && s[i + 1] == 114 && s[i + 2] == 117 && s[i + 3] == 101 {
            proof {
                assert(s@.subrange(i as int, i as int + 4)
                    =~= spec_print(JsonView::Bool(true)));
            }
            Some((JsonVal::Bool(true), i + 4))
        } else {
            proof {
                if i as int + 4 <= s@.len() && s@.subrange(i as int, i as int + 4)
                    == spec_print(JsonView::Bool(true)) {
                    assert(s@[i as int + 1]
                        == s@.subrange(i as int, i as int + 4)[1]);
                    assert(s@[i as int + 2]
                        == s@.subrange(i as int, i as int + 4)[2]);
                    assert(s@[i as int + 3]
                        == s@.subrange(i as int, i as int + 4)[3]);
                }
            }
            None
        }
    } else if b == 102 {
        if n - i >= 5 && s[i + 1] == 97 && s[i + 2] == 108 && s[i + 3] == 115 && s[i + 4] == 101 {
            proof {
                assert(s@.subrange(i as int, i as int + 5)
                    =~= spec_print(JsonView::Bool(false)));
            }
            Some((JsonVal::Bool(false), i + 5))
        } else {
            proof {
                if i as int + 5 <= s@.len() && s@.subrange(i as int, i as int + 5)
                    == spec_print(JsonView::Bool(false)) {
                    assert(s@[i as int + 1]
                        == s@.subrange(i as int, i as int + 5)[1]);
                    assert(s@[i as int + 2]
                        == s@.subrange(i as int, i as int + 5)[2]);
                    assert(s@[i as int + 3]
                        == s@.subrange(i as int, i as int + 5)[3]);
                    assert(s@[i as int + 4]
                        == s@.subrange(i as int, i as int + 5)[4]);
                }
            }
            None
        }
    } else if b == 34 {
        match parse_string_body(s, i + 1) {
            Some((bytes, j)) => Some((JsonVal::Str(bytes), j)),
            None => None,
        }
    } else if b == 45 {
        if i + 1 < n && 48 <= s[i + 1] && s[i + 1] <= 57 {
            match parse_digits(s, i + 1) {
                Some((m, j)) => {
                    if m <= 0x8000000000000000u64 && m > 0 {
                        let value: i64 = if m == 0x8000000000000000u64 {
                            i64::MIN
                        } else {
                            -(m as i64)
                        };
                        proof {
                            assert(value as int == -(m as int));
                        }
                        Some((JsonVal::Int(value), j))
                    } else {
                        None
                    }
                },
                None => None,
            }
        } else {
            None
        }
    } else if 48 <= b && b <= 57 {
        match parse_digits(s, i) {
            Some((m, j)) => {
                if m <= i64::MAX as u64 {
                    Some((JsonVal::Int(m as i64), j))
                } else {
                    None
                }
            },
            None => None,
        }
    } else if b == 91 {
        if i + 1 < n && s[i + 1] == 93 {
            let r = JsonVal::Arr(Vec::new());
            proof {
                assert(crate::json::arr_view(Seq::<JsonVal>::empty()) =~= Seq::<
                    JsonView>::empty());
            }
            Some((r, i + 2))
        } else {
            match parse_elems(s, i + 1, depth - 1) {
                Some((items, j)) => Some((JsonVal::Arr(items), j)),
                None => None,
            }
        }
    } else if b == 123 {
        if i + 1 < n && s[i + 1] == 125 {
            let r = JsonVal::Obj(Vec::new());
            proof {
                assert(crate::json::obj_view(Seq::<(Vec<u8>, JsonVal)>::empty()) =~= Seq::<(
                    Seq<u8>, JsonView)>::empty());
            }
            Some((r, i + 2))
        } else {
            match parse_membs(s, i + 1, depth - 1) {
                Some((pairs, j)) => Some((JsonVal::Obj(pairs), j)),
                None => None,
            }
        }
    } else {
        None
    }
}

/// Parse a non-empty element list up to its closing bracket, mirroring the
/// element specification.
#[verifier::loop_isolation(false)]
fn parse_elems(s: &[u8], i: usize, depth: usize) -> (r: Option<(Vec<JsonVal>, usize)>)
    requires
        i <= s@.len(),
        depth as int >= s@.len() - i,
    ensures
        (match r {
            Some(p) => spec_parse_elems(s@, i as int)
                == Some((crate::json::arr_view(p.0@), p.1 as int)) && i < p.1 <= s@.len(),
            None => spec_parse_elems(s@, i as int) is None,
        }),
    decreases depth, 3int,
{
    if depth == 0 {
        return None;
    }
    let mut items: Vec<JsonVal> = Vec::new();
    let mut cur = i;
    loop
        invariant
            i <= cur <= s@.len(),
            depth >= 1,
            (match spec_parse_elems(s@, cur as int) {
                Some(rest) => spec_parse_elems(s@, i as int)
                    == Some((crate::json::arr_view(items@) + rest.0, rest.1)),
                None => spec_parse_elems(s@, i as int) is None,
            }),
        decreases s@.len() - cur,
    {
        let (v, j) = match parse_value(s, cur, depth) {
            Some(p) => p,
            None => {
                return None;
            },
        };
        if j >= s.len() {
            return None;
        }
        let ghost before = items@;
        let ghost vv = v@;
        if s[j] == 93 {
            items.push(v);
            proof {
                crate::json::lemma_arr_view_index(before);
                crate::json::lemma_arr_view_index(items@);
                assert(forall|t: int| 0 <= t < before.len()
                    ==> #[trigger] items@[t] == before[t]);
                assert(crate::json::json_view(items@[before.len() as int]) == vv);
                assert(crate::json::arr_view(items@).len() == items@.len());
                assert(crate::json::arr_view(before).len() == before.len());
                assert forall|t: int| 0 <= t < items@.len()
                    implies crate::json::arr_view(items@)[t]
                        == (crate::json::arr_view(before) + seq![vv])[t] by {
                    assert(crate::json::arr_view(items@)[t]
                        == crate::json::json_view(items@[t]));
                    if t < before.len() {
                        assert(items@[t] == before[t]);
                        assert(crate::json::arr_view(before)[t]
                                == crate::json::json_view(before[t]));
                    }
                }
                assert(crate::json::arr_view(items@)
                    =~= crate::json::arr_view(before) + seq![vv]);
                assert(spec_parse_elems(s@, cur as int) == Some((seq![vv], j as int + 1)));
                assert(crate::json::arr_view(before) + (seq![vv] + Seq::<JsonView>::empty())
                    =~= crate::json::arr_view(before) + seq![vv]);
            }
            return Some((items, j + 1));
        }
        if s[j] != 44 {
            return None;
        }
        items.push(v);
        proof {
            crate::json::lemma_arr_view_index(before);
            crate::json::lemma_arr_view_index(items@);
            assert(forall|t: int| 0 <= t < before.len() ==> #[trigger] items@[t] == before[t]);
            assert(crate::json::json_view(items@[before.len() as int]) == vv);
            assert(crate::json::arr_view(items@).len() == items@.len());
            assert(crate::json::arr_view(before).len() == before.len());
            assert forall|t: int| 0 <= t < items@.len()
                implies crate::json::arr_view(items@)[t]
                    == (crate::json::arr_view(before) + seq![vv])[t] by {
                assert(crate::json::arr_view(items@)[t]
                    == crate::json::json_view(items@[t]));
                if t < before.len() {
                    assert(items@[t] == before[t]);
                    assert(crate::json::arr_view(before)[t]
                        == crate::json::json_view(before[t]));
                }
            }
            assert(crate::json::arr_view(items@)
                =~= crate::json::arr_view(before) + seq![vv]);
            if spec_parse_elems(s@, j as int + 1) is Some {
                let rest = spec_parse_elems(s@, j as int + 1)->Some_0;
                assert(crate::json::arr_view(before) + (seq![vv] + rest.0)
                    =~= crate::json::arr_view(items@) + rest.0);
            }
        }
        cur = j + 1;
    }
}

/// Parse a non-empty member list up to its closing brace, mirroring the
/// member specification.
#[verifier::loop_isolation(false)]
fn parse_membs(s: &[u8], i: usize, depth: usize) -> (r: Option<(Vec<(Vec<u8>, JsonVal)>, usize)>)
    requires
        i <= s@.len(),
        depth as int >= s@.len() - i,
    ensures
        (match r {
            Some(p) => spec_parse_membs(s@, i as int)
                == Some((crate::json::obj_view(p.0@), p.1 as int)) && i < p.1 <= s@.len(),
            None => spec_parse_membs(s@, i as int) is None,
        }),
    decreases depth, 3int,
{
    if depth == 0 {
        return None;
    }
    let mut pairs: Vec<(Vec<u8>, JsonVal)> = Vec::new();
    let mut cur = i;
    loop
        invariant
            i <= cur <= s@.len(),
            depth >= 1,
            (match spec_parse_membs(s@, cur as int) {
                Some(rest) => spec_parse_membs(s@, i as int)
                    == Some((crate::json::obj_view(pairs@) + rest.0, rest.1)),
                None => spec_parse_membs(s@, i as int) is None,
            }),
        decreases s@.len() - cur,
    {
        if cur >= s.len() || s[cur] != 34 {
            return None;
        }
        let (key, jk) = match parse_string_body(s, cur + 1) {
            Some(p) => p,
            None => {
                return None;
            },
        };
        if jk >= s.len() || s[jk] != 58 {
            return None;
        }
        let (v, k) = match parse_value(s, jk + 1, depth) {
            Some(p) => p,
            None => {
                return None;
            },
        };
        if k >= s.len() {
            return None;
        }
        let ghost before = pairs@;
        let ghost kv = key@;
        let ghost vv = v@;
        if s[k] == 125 {
            pairs.push((key, v));
            proof {
                crate::json::lemma_obj_view_index(before);
                crate::json::lemma_obj_view_index(pairs@);
                assert(forall|t: int| 0 <= t < before.len()
                    ==> #[trigger] pairs@[t] == before[t]);
                assert(pairs@[before.len() as int].0@ == kv);
                assert(crate::json::json_view(pairs@[before.len() as int].1) == vv);
                assert(crate::json::obj_view(pairs@).len() == pairs@.len());
                assert(crate::json::obj_view(before).len() == before.len());
                assert forall|t: int| 0 <= t < pairs@.len()
                    implies crate::json::obj_view(pairs@)[t]
                        == (crate::json::obj_view(before) + seq![(kv, vv)])[t] by {
                    assert(crate::json::obj_view(pairs@)[t]
                        == (pairs@[t].0@, crate::json::json_view(pairs@[t].1)));
                    if t < before.len() {
                        assert(pairs@[t] == before[t]);
                        assert(crate::json::obj_view(before)[t]
                                == (before[t].0@, crate::json::json_view(before[t].1)));
                    }
                }
                assert(crate::json::obj_view(pairs@)
                    =~= crate::json::obj_view(before) + seq![(kv, vv)]);
                assert(spec_parse_membs(s@, cur as int)
                    == Some((seq![(kv, vv)], k as int + 1)));
                assert(crate::json::obj_view(before)
                    + (seq![(kv, vv)] + Seq::<(Seq<u8>, JsonView)>::empty())
                    =~= crate::json::obj_view(before) + seq![(kv, vv)]);
            }
            return Some((pairs, k + 1));
        }
        if s[k] != 44 {
            return None;
        }
        pairs.push((key, v));
        proof {
            crate::json::lemma_obj_view_index(before);
            crate::json::lemma_obj_view_index(pairs@);
            assert(forall|t: int| 0 <= t < before.len() ==> #[trigger] pairs@[t] == before[t]);
            assert(pairs@[before.len() as int].0@ == kv);
            assert(crate::json::json_view(pairs@[before.len() as int].1) == vv);
            assert(crate::json::obj_view(pairs@).len() == pairs@.len());
            assert(crate::json::obj_view(before).len() == before.len());
            assert forall|t: int| 0 <= t < pairs@.len()
                implies crate::json::obj_view(pairs@)[t]
                    == (crate::json::obj_view(before) + seq![(kv, vv)])[t] by {
                assert(crate::json::obj_view(pairs@)[t]
                    == (pairs@[t].0@, crate::json::json_view(pairs@[t].1)));
                if t < before.len() {
                    assert(pairs@[t] == before[t]);
                    assert(crate::json::obj_view(before)[t]
                        == (before[t].0@, crate::json::json_view(before[t].1)));
                }
            }
            assert(crate::json::obj_view(pairs@)
                =~= crate::json::obj_view(before) + seq![(kv, vv)]);
            if spec_parse_membs(s@, k as int + 1) is Some {
                let rest = spec_parse_membs(s@, k as int + 1)->Some_0;
                assert(crate::json::obj_view(before) + (seq![(kv, vv)] + rest.0)
                    =~= crate::json::obj_view(pairs@) + rest.0);
            }
        }
        cur = k + 1;
    }
}

/// Parse a whole payload document: one value covering all of the input.
/// What this accepts is exactly what the value specification accepts, and
/// by the round-trip law the canonical printed text of any value parses
/// back to that value.
pub fn parse_json(s: &[u8]) -> (r: Option<JsonVal>)
    ensures
        r.is_some() <==> (spec_parse_val(s@, 0) matches Some(p) && p.1 == s@.len()),
        (match r {
            Some(v) => spec_parse_val(s@, 0) == Some((v@, s@.len() as int)),
            None => true,
        }),
{
    match parse_value(s, 0, s.len()) {
        Some((v, j)) => {
            if j == s.len() {
                Some(v)
            } else {
                None
            }
        },
        None => None,
    }
}

} // verus!
