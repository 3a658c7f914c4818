//! Small verified string helpers shared by the routing, security and
//! protocol modules: character-level comparison, prefix and suffix tests,
//! ASCII case folding and decimal formatting.

use vstd::prelude::*;

verus! {

/// `s` has `p` as a prefix.
pub open spec fn spec_starts_with(s: Seq<char>, p: Seq<char>) -> bool {
    s.len() >= p.len() && s.subrange(0, p.len() as int) == p
}

/// `s` has `p` as a suffix.
pub open spec fn spec_ends_with(s: Seq<char>, p: Seq<char>) -> bool {
    s.len() >= p.len() && s.subrange(s.len() - p.len(), s.len() as int) == p
}

/// Equality of two string slices, compared over their UTF-8 bytes.
#[verifier::loop_isolation(false)]
pub fn str_eq(a: &str, b: &str) -> (r: bool)
    ensures
        r == (a@ == b@),
{
    let ab = a.as_bytes();
    let bb = b.as_bytes();
    if ab.len() != bb.len() {
        proof {
            assert(a@ != b@) by {
                if a@ == b@ {
                    assert(vstd::utf8::encode_utf8(a@) == vstd::utf8::encode_utf8(b@));
                }
            }
        }
        return false;
    }
    let n = ab.len();
    let mut i: usize = 0;
    while i < n
        invariant
            i <= n,
            forall|j: int| 0 <= j < i ==> ab@[j] == bb@[j],
        decreases n - i,
    {
        if ab[i] != bb[i] {
            proof {
                assert(a@ != b@) by {
                    if a@ == b@ {
                        assert(vstd::utf8::encode_utf8(a@) == vstd::utf8::encode_utf8(b@));
                    }
                }
            }
            return false;
        }
        i += 1;
    }
    proof {
        // Equal byte encodings decode to equal texts.
        assert(ab@ =~= bb@);
        vstd::utf8::encode_utf8_decode_utf8(a@);
        vstd::utf8::encode_utf8_decode_utf8(b@);
        assert(a@ == vstd::utf8::decode_utf8(vstd::utf8::encode_utf8(a@)));
        assert(vstd::utf8::encode_utf8(a@) == vstd::utf8::encode_utf8(b@));
        assert(a@ == b@);
    }
    true
}

/// Does `s` begin with `p`?
pub fn str_starts_with(s: &str, p: &str) -> (r: bool)
    ensures
        r == spec_starts_with(s@, p@),
{
    let slen = s.unicode_len();
    let plen = p.unicode_len();
    if plen > slen {
        return false;
    }
    let mut i: usize = 0;
    while i < plen
        invariant
            slen == s@.len(),
            plen == p@.len(),
            plen <= slen,
            i <= plen,
            forall|j: int| 0 <= j < i ==> s@[j] == p@[j],
        decreases plen - i,
    {
        if s.get_char(i) != p.get_char(i) {
            proof {
                assert(!spec_starts_with(s@, p@)) by {
                    if spec_starts_with(s@, p@) {
                        assert(s@.subrange(0, p@.len() as int)[i as int] == p@[i as int]);
                    }
                }
            }
            return false;
        }
        i += 1;
    }
    proof {
        assert(s@.subrange(0, p@.len() as int) =~= p@);
    }
    true
}

/// Does `s` end with `p`?
pub fn str_ends_with(s: &str, p: &str) -> (r: bool)
    ensures
        r == spec_ends_with(s@, p@),
{
    let slen = s.unicode_len();
    let plen = p.unicode_len();
    if plen > slen {
        return false;
    }
    let off = slen - plen;
    let mut i: usize = 0;
    while i < plen
        invariant
            slen == s@.len(),
            plen == p@.len(),
            plen <= slen,
            off == slen - plen,
            i <= plen,
            forall|j: int| 0 <= j < i ==> s@[off + j] == p@[j],
        decreases plen - i,
    {
        if s.get_char(off + i) != p.get_char(i) {
            proof {
                assert(!spec_ends_with(s@, p@)) by {
                    if spec_ends_with(s@, p@) {
                        assert(s@.subrange(s@.len() - p@.len(), s@.len() as int)[i as int]
                            == p@[i as int]);
                    }
                }
            }
            return false;
        }
        i += 1;
    }
    proof {
        assert(s@.subrange(s@.len() - p@.len(), s@.len() as int) =~= p@);
    }
    true
}

/// Index of the first occurrence of `sep` in `s`, or `-1`.
pub open spec fn spec_first_sep(s: Seq<char>, sep: char) -> int
    decreases s.len(),
{
    if s.len() == 0 {
        -1
    } else if s[0] == sep {
        0
    } else {
        let r = spec_first_sep(s.drop_first(), sep);
        if r == -1 {
            -1
        } else {
            r + 1
        }
    }
}

/// The first-separator index is the least index holding `sep`.
pub proof fn lemma_first_sep(s: Seq<char>, sep: char)
    ensures
        spec_first_sep(s, sep) == -1
            ==> forall|j: int| 0 <= j < s.len() ==> s[j] != sep,
        spec_first_sep(s, sep) != -1 ==> {
            let f = spec_first_sep(s, sep);
            &&& 0 <= f < s.len()
            &&& s[f] == sep
            &&& forall|j: int| 0 <= j < f ==> s[j] != sep
        },
    decreases s.len(),
{
    if s.len() > 0 {
        lemma_first_sep(s.drop_first(), sep);
        assert(forall|j: int| 0 <= j < s.len() - 1 ==> #[trigger] s.drop_first()[j] == s[j + 1]);
        if spec_first_sep(s, sep) == -1 {
            assert forall|j: int| 0 <= j < s.len() implies s[j] != sep by {
                if j > 0 {
                    assert(s.drop_first()[j - 1] == s[j]);
                }
            }
        } else if s[0] != sep {
            let f0 = spec_first_sep(s.drop_first(), sep);
            assert(spec_first_sep(s, sep) == f0 + 1);
            assert(s.drop_first()[f0] == s[f0 + 1]);
            assert forall|j: int| 0 <= j < f0 + 1 implies s[j] != sep by {
                if j > 0 {
                    assert(s.drop_first()[j - 1] == s[j]);
                }
            }
        }
    }
}

/// The segments of `s` between occurrences of `sep`.
pub open spec fn spec_split(s: Seq<char>, sep: char) -> Seq<Seq<char>>
    decreases s.len(),
{
    let f = spec_first_sep(s, sep);
    if 0 <= f < s.len() {
        seq![s.subrange(0, f)] + spec_split(s.subrange(f + 1, s.len() as int), sep)
    } else {
        seq![s]
    }
}

/// Splitting yields at least one segment.
pub proof fn lemma_split_len(s: Seq<char>, sep: char)
    ensures
        spec_split(s, sep).len() >= 1,
    decreases s.len(),
{
    lemma_first_sep(s, sep);
    let f = spec_first_sep(s, sep);
    if f != -1 {
        lemma_split_len(s.subrange(f + 1, s.len() as int), sep);
    }
}

/// Split a string at every occurrence of `sep`.
#[verifier::loop_isolation(false)]
pub fn split_str(s: &str, sep: char) -> (r: Vec<String>)
    ensures
        r@.map_values(|p: String| p@) == spec_split(s@, sep),
{
    let n = s.unicode_len();
    let mut parts: Vec<String> = Vec::new();
    proof {
        assert(s@.subrange(0, n as int) =~= s@);
        assert(parts@.map_values(|p: String| p@) =~= Seq::<Seq<char>>::empty());
        assert(Seq::<Seq<char>>::empty() + spec_split(s@, sep) =~= spec_split(s@, sep));
    }
    let mut start: usize = 0;
    let mut i: usize = 0;
    while i < n
        invariant
            n == s@.len(),
            start <= i <= n,
            spec_split(s@, sep) == parts@.map_values(|p: String| p@)
                + spec_split(s@.subrange(start as int, n as int), sep),
            forall|j: int| start <= j < i ==> s@[j] != sep,
        decreases n - i,
    {
        if s.get_char(i) == sep {
            let piece = s.substring_char(start, i).to_owned();
            let ghost tail = s@.subrange(start as int, n as int);
            proof {
                lemma_first_sep(tail, sep);
                assert(forall|j: int| 0 <= j < tail.len() ==> #[trigger] tail[j] == s@[start + j]);
                if spec_first_sep(tail, sep) == -1 {
                    assert(tail[i - start as int] == sep);
                    assert(false);
                }
                let f = spec_first_sep(tail, sep);
                if f < i - start as int {
                    assert(s@[start + f] != sep);
                    assert(false);
                } else if f > i - start as int {
                    assert(tail[i - start as int] != sep);
                    assert(false);
                }
                assert(tail.subrange(0, f) =~= s@.subrange(start as int, i as int));
                assert(tail.subrange(f + 1, tail.len() as int)
                    =~= s@.subrange(i as int + 1, n as int));
                assert((parts@.map_values(|p: String| p@)).push(s@.subrange(
                    start as int, i as int))
                    =~~= parts@.push(piece).map_values(|p: String| p@));
                assert(spec_split(s@, sep) =~~= parts@.push(piece).map_values(|p: String| p@)
                    + spec_split(s@.subrange(i as int + 1, n as int), sep));
            }
            parts.push(piece);
            start = i + 1;
        }
        i += 1;
    }
    let last = s.substring_char(start, n).to_owned();
    let ghost tail = s@.subrange(start as int, n as int);
    proof {
        lemma_first_sep(tail, sep);
        assert(forall|j: int| 0 <= j < tail.len() ==> #[trigger] tail[j] == s@[start + j]);
        if spec_first_sep(tail, sep) != -1 {
            let f = spec_first_sep(tail, sep);
            assert(s@[start + f] != sep);
            assert(false);
        }
        assert(spec_split(tail, sep) == seq![tail]);
        assert((parts@.map_values(|p: String| p@)).push(tail)
            =~~= parts@.push(last).map_values(|p: String| p@));
        assert(spec_split(s@, sep) =~~= parts@.push(last).map_values(|p: String| p@));
    }
    parts.push(last);
    parts
}

/// The decimal digit characters of a nonnegative number, most significant
/// first.
pub open spec fn spec_nat_chars(n: int) -> Seq<char>
    recommends
        n >= 0,
    decreases n,
{
    if n < 10 {
        seq![spec_digit_char(if n >= 0 { n } else { 0 })]
    } else {
        spec_nat_chars(n / 10) + seq![spec_digit_char(n % 10)]
    }
}

/// The character of one decimal digit.
pub open spec fn spec_digit_char(d: int) -> char {
    if d == 0 { '0' } else if d == 1 { '1' } else if d == 2 { '2' } else if d == 3 { '3' }
    else if d == 4 { '4' } else if d == 5 { '5' } else if d == 6 { '6' } else if d == 7 { '7' }
    else if d == 8 { '8' } else { '9' }
}

/// Append one decimal digit character.
fn append_digit(s: &mut String, d: u64)
    requires
        d < 10,
    ensures
        final(s)@ == old(s)@ + seq![spec_digit_char(d as int)],
{
    proof {
        reveal_strlit("0");
        reveal_strlit("1");
        reveal_strlit("2");
        reveal_strlit("3");
        reveal_strlit("4");
        reveal_strlit("5");
        reveal_strlit("6");
        reveal_strlit("7");
        reveal_strlit("8");
        reveal_strlit("9");
    }
    if d == 0 { s.append("0"); }
    else if d == 1 { s.append("1"); }
    else if d == 2 { s.append("2"); }
    else if d == 3 { s.append("3"); }
    else if d == 4 { s.append("4"); }
    else if d == 5 { s.append("5"); }
    else if d == 6 { s.append("6"); }
    else if d == 7 { s.append("7"); }
    else if d == 8 { s.append("8"); }
    else { s.append("9"); }
}

/// A sequence of characters reversed.
pub open spec fn spec_chars_rev(s: Seq<char>) -> Seq<char>
    decreases s.len(),
{
    if s.len() == 0 {
        Seq::empty()
    } else {
        seq![s.last()] + spec_chars_rev(s.drop_last())
    }
}

/// Reversal preserves length.
proof fn lemma_chars_rev_len(s: Seq<char>)
    ensures
        spec_chars_rev(s).len() == s.len(),
    decreases s.len(),
{
    if s.len() > 0 {
        lemma_chars_rev_len(s.drop_last());
    }
}

/// Reversal mirrors indices.
proof fn lemma_chars_rev_index(s: Seq<char>, i: int)
    requires
        0 <= i < s.len(),
    ensures
        spec_chars_rev(s).len() == s.len(),
        spec_chars_rev(s)[i] == s[s.len() - 1 - i],
    decreases s.len(),
{
    lemma_chars_rev_len(s);
    if i > 0 {
        lemma_chars_rev_index(s.drop_last(), i - 1);
    }
}

/// The digit characters of a digit list.
pub open spec fn digit_chars(ds: Seq<u64>) -> Seq<char> {
    ds.map_values(|d: u64| spec_digit_char(d as int))
}

/// Append the decimal text of `m`.
#[verifier::loop_isolation(false)]
pub fn append_u64(s: &mut String, m: u64)
    ensures
        final(s)@ == old(s)@ + spec_nat_chars(m as int),
{
    if m < 10 {
        append_digit(s, m);
    } else {
        let mut digits: Vec<u64> = Vec::new();
        let mut v: u64 = m;
        while v > 0
            invariant
                forall|j: int| 0 <= j < digits@.len() ==> #[trigger] digits@[j] < 10,
                v > 0 ==> spec_nat_chars(m as int)
                    == spec_nat_chars(v as int) + spec_chars_rev(digit_chars(digits@)),
                v == 0 ==> spec_nat_chars(m as int) == spec_chars_rev(digit_chars(digits@)),
            decreases v,
        {
            let d = v % 10;
            let ghost old_digits = digits@;
            let ghost old_v = v as int;
            digits.push(d);
            v = v / 10;
            proof {
                assert(digit_chars(digits@).drop_last() =~= digit_chars(old_digits));
                assert(digit_chars(digits@).last() == spec_digit_char(d as int));
                assert(spec_chars_rev(digit_chars(digits@))
                    == seq![digit_chars(digits@).last()]
                        + spec_chars_rev(digit_chars(digits@).drop_last()));
                assert(spec_chars_rev(digit_chars(digits@))
                    =~= seq![spec_digit_char(d as int)]
                        + spec_chars_rev(digit_chars(old_digits)));
                if v > 0 {
                    assert(spec_nat_chars(old_v)
                        == spec_nat_chars(old_v / 10) + seq![spec_digit_char(old_v % 10)]);
                    assert(spec_nat_chars(v as int) + spec_chars_rev(digit_chars(digits@))
                        =~= (spec_nat_chars(v as int) + seq![spec_digit_char(d as int)])
                            + spec_chars_rev(digit_chars(old_digits)));
                } else {
                    assert(spec_nat_chars(old_v) =~= seq![spec_digit_char(d as int)]);
                    assert(spec_chars_rev(digit_chars(digits@))
                        =~= spec_nat_chars(old_v) + spec_chars_rev(digit_chars(old_digits)));
                }
            }
        }
        let n = digits.len();
        proof {
            lemma_chars_rev_len(digit_chars(digits@));
        }
        let mut i: usize = 0;
        while i < n
            invariant
                n == digits@.len(),
                i <= n,
                s@ == old(s)@ + spec_chars_rev(digit_chars(digits@)).subrange(0, i as int),
            decreases n - i,
        {
            append_digit(s, digits[n - 1 - i]);
            proof {
                lemma_chars_rev_index(digit_chars(digits@), i as int);
                assert(spec_chars_rev(digit_chars(digits@)).subrange(0, i as int + 1)
                    =~= spec_chars_rev(digit_chars(digits@)).subrange(0, i as int).push(
                        spec_chars_rev(digit_chars(digits@))[i as int]));
            }
            i += 1;
        }
        proof {
            assert(spec_chars_rev(digit_chars(digits@)).subrange(
                0, spec_chars_rev(digit_chars(digits@)).len() as int)
                =~= spec_chars_rev(digit_chars(digits@)));
        }
    }
}

/// The decimal text of `m` as a fresh string.
pub fn u64_to_string(m: u64) -> (r: String)
    ensures
        r@ == spec_nat_chars(m as int),
{
    let mut s = String::new();
    append_u64(&mut s, m);
    proof {
        assert(s@ =~= spec_nat_chars(m as int));
    }
    s
}

/// Does `s` contain `needle` as a substring?
pub open spec fn spec_contains_sub(s: Seq<char>, needle: Seq<char>) -> bool {
    exists|k: int| 0 <= k <= s.len() - needle.len()
        && #[trigger] s.subrange(k, k + needle.len()) == needle
}

/// Substring search by scanning every starting position.
#[verifier::loop_isolation(false)]
pub fn str_contains(s: &str, needle: &str) -> (r: bool)
    ensures
        r == spec_contains_sub(s@, needle@),
{
    let n = s.unicode_len();
    let m = needle.unicode_len();
    if m > n {
        proof {
            assert(!spec_contains_sub(s@, needle@));
        }
        return false;
    }
    if m == 0 {
        proof {
            assert(s@.subrange(0, 0 + needle@.len() as int) =~= needle@);
            assert(spec_contains_sub(s@, needle@));
        }
        return true;
    }
    let mut k: usize = 0;
    while k <= n - m
        invariant
            n == s@.len(),
            m == needle@.len(),
            m <= n,
            k <= n - m + 1,
            forall|j: int| 0 <= j < k ==> #[trigger] s@.subrange(j, j + needle@.len())
                != needle@,
        decreases n - m - k + 1,
    {
        let piece = s.substring_char(k, k + m);
        if str_eq(piece, needle) {
            proof {
                assert(s@.subrange(k as int, k as int + needle@.len()) == needle@);
            }
            return true;
        }
        k += 1;
    }
    proof {
        if spec_contains_sub(s@, needle@) {
            let w = choose|w: int| 0 <= w <= s@.len() - needle@.len()
                && #[trigger] s@.subrange(w, w + needle@.len()) == needle@;
            assert(false);
        }
    }
    false
}

} // verus!
