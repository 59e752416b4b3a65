//! Small executable helpers on strings and integers: building strings one
//! character at a time, splitting, and decimal parsing / formatting.

use vstd::prelude::*;

verus! {

/// Appends one character to a string.
/// Relies on std's String::push.
#[verifier::external_body]
pub(crate) fn push_char(s: &mut String, c: char)
    ensures
        final(s)@ == old(s)@.push(c),
{
    s.push(c);
}

/// Character-wise equality of two string slices.
pub fn str_eq(a: &str, b: &str) -> (r: bool)
    ensures
        r == (a@ == b@),
{
    let x: String = a.to_owned();
    let y: String = b.to_owned();
    x == y
}

/// A decimal digit.
pub open spec fn is_digit(c: char) -> bool {
    '0' <= c && c <= '9'
}

/// The numeric value of a digit character.
pub open spec fn digit_val(c: char) -> int {
    c as int - '0' as int
}

/// The number a digit string denotes.
pub open spec fn dec_value(s: Seq<char>) -> int
    decreases s.len(),
{
    if s.len() == 0 {
        0
    } else {
        dec_value(s.drop_last()) * 10 + digit_val(s.last())
    }
}

/// A string of digits denoting a number that fits in a u64.
pub open spec fn is_dec_u64(s: Seq<char>) -> bool {
    s.len() > 0 && (forall|i: int| 0 <= i < s.len() ==> is_digit(#[trigger] s[i])) && dec_value(s)
        <= u64::MAX as int
}

/// A digit string's value never counts below zero.
pub proof fn lemma_dec_value_nonneg(s: Seq<char>)
    requires
        forall|i: int| 0 <= i < s.len() ==> is_digit(#[trigger] s[i]),
    ensures
        dec_value(s) >= 0,
    decreases s.len(),
{
    if s.len() > 0 {
        lemma_dec_value_nonneg(s.drop_last());
    }
}

/// Each prefix of a digit string denotes at most the whole string's value.
pub proof fn lemma_dec_value_prefix(s: Seq<char>, i: int)
    requires
        forall|k: int| 0 <= k < s.len() ==> is_digit(#[trigger] s[k]),
        0 <= i <= s.len(),
    ensures
        dec_value(s.take(i)) <= dec_value(s),
    decreases s.len() - i,
{
    if i < s.len() {
        lemma_dec_value_prefix(s, i + 1);
        assert(s.take(i + 1).drop_last() =~= s.take(i));
        lemma_dec_value_nonneg(s.take(i));
    } else {
        assert(s.take(i) =~= s);
    }
}

/// Parses a decimal number, rejecting anything but digits and values that
/// exceed a u64.
#[verifier::loop_isolation(false)]
pub fn parse_u64(s: &str) -> (r: Option<u64>)
    ensures
        match r {
            Some(v) => is_dec_u64(s@) && v as int == dec_value(s@),
            None => !is_dec_u64(s@),
        },
{
    let n = s.unicode_len();
    if n == 0 {
        return None;
    }
    let mut acc: u128 = 0;
    let mut i: usize = 0;
    proof {
        assert(s@.take(0) =~= Seq::<char>::empty());
    }
    while i < n
        invariant
            i <= n,
            acc as int == dec_value(s@.take(i as int)),
            acc <= u64::MAX as u128,
            forall|k: int| 0 <= k < i ==> is_digit(#[trigger] s@[k]),
        decreases n - i,
    {
        let c = s.get_char(i);
        if !('0' <= c && c <= '9') {
            return None;
        }
        let d: u128 = (c as u32 - '0' as u32) as u128;
        proof {
            assert(s@.take(i + 1).drop_last() =~= s@.take(i as int));
            assert(s@.take(i + 1).last() == s@[i as int]);
        }
        acc = acc * 10 + d;
        i = i + 1;
        if acc > u64::MAX as u128 {
            proof {
                if forall|k: int| 0 <= k < s@.len() ==> is_digit(#[trigger] s@[k]) {
                    lemma_dec_value_prefix(s@, i as int);
                    assert(dec_value(s@) >= dec_value(s@.take(i as int)));
                }
            }
            return None;
        }
    }
    proof {
        assert(s@.take(n as int) =~= s@);
    }
    Some(acc as u64)
}

/// Renders a number in decimal, without leading zeros.
pub fn u64_to_string(v: u64) -> (r: String)
    ensures
        r@.len() > 0,
        forall|i: int| 0 <= i < r@.len() ==> is_digit(#[trigger] r@[i]),
        dec_value(r@) == v as int,
        r@.len() == 1 || r@[0] != '0',
    decreases v,
{
    let d: u8 = 48u8 + (v % 10) as u8;
    let c = d as char;
    proof {
        assert(c as int == 48 + v as int % 10);
        assert(is_digit(c));
        assert(digit_val(c) == v as int % 10);
        assert(v as int == (v as int / 10) * 10 + (v as int % 10)) by (nonlinear_arith);
    }
    if v < 10 {
        let mut r = String::new();
        push_char(&mut r, c);
        proof {
            assert(r@.drop_last() =~= Seq::<char>::empty());
            assert(dec_value(Seq::<char>::empty()) == 0);
            assert(dec_value(r@) == digit_val(c));
            assert(v as int % 10 == v as int) by (nonlinear_arith)
                requires
                    0 <= v < 10,
            ;
        }
        r
    } else {
        let mut r = u64_to_string(v / 10);
        let ghost r0 = r@;
        push_char(&mut r, c);
        proof {
            assert(r@.drop_last() =~= r0);
            if r0.len() == 1 {
                assert(r0.drop_last() =~= Seq::<char>::empty());
                assert(dec_value(Seq::<char>::empty()) == 0);
                assert(dec_value(r0) == digit_val(r0[0]));
                assert(v as int / 10 >= 1) by (nonlinear_arith)
                    requires
                        v >= 10,
                ;
                assert(r0[0] != '0');
            }
            assert(r@[0] == r0[0]);
        }
        r
    }
}

/// Strict lexicographic order on strings, code point by code point: the
/// order std gives `String` values.
pub open spec fn str_lt(a: Seq<char>, b: Seq<char>) -> bool
    decreases a.len(),
{
    if b.len() == 0 {
        false
    } else if a.len() == 0 {
        true
    } else if a[0] != b[0] {
        (a[0] as int) < (b[0] as int)
    } else {
        str_lt(a.drop_first(), b.drop_first())
    }
}

/// Equal leading characters drop out of the comparison.
pub proof fn lemma_str_lt_skip(a: Seq<char>, b: Seq<char>, i: int)
    requires
        0 <= i <= a.len(),
        i <= b.len(),
        forall|k: int| 0 <= k < i ==> a[k] == b[k],
    ensures
        str_lt(a, b) == str_lt(a.skip(i), b.skip(i)),
    decreases i,
{
    if i > 0 {
        assert(a.drop_first().skip(i - 1) =~= a.skip(i));
        assert(b.drop_first().skip(i - 1) =~= b.skip(i));
        assert(forall|k: int| 0 <= k < i - 1 ==> a.drop_first()[k] == b.drop_first()[k]);
        lemma_str_lt_skip(a.drop_first(), b.drop_first(), i - 1);
    } else {
        assert(a.skip(0) =~= a);
        assert(b.skip(0) =~= b);
    }
}

/// Whether `a` orders strictly before `b`.
#[verifier::loop_isolation(false)]
pub fn str_less(a: &str, b: &str) -> (r: bool)
    ensures
        r == str_lt(a@, b@),
{
    let alen = a.unicode_len();
    let blen = b.unicode_len();
    let shorter: usize = if alen < blen {
        alen
    } else {
        blen
    };
    let mut i: usize = 0;
    while i < shorter
        invariant
            i <= shorter,
            forall|k: int| 0 <= k < i ==> a@[k] == b@[k],
        decreases shorter - i,
    {
        let ca = a.get_char(i);
        let cb = b.get_char(i);
        if ca != cb {
            proof {
                lemma_str_lt_skip(a@, b@, i as int);
                assert(a@.skip(i as int)[0] == a@[i as int]);
                assert(b@.skip(i as int)[0] == b@[i as int]);
            }
            return (ca as u32) < (cb as u32);
        }
        i = i + 1;
    }
    proof {
        lemma_str_lt_skip(a@, b@, shorter as int);
        assert(a@.skip(shorter as int).len() == a@.len() - shorter);
        assert(b@.skip(shorter as int).len() == b@.len() - shorter);
    }
    alen < blen
}

/// A blank character that list values may carry around their items.
pub open spec fn is_space(c: char) -> bool {
    c == ' ' || c == '\t' || c == '\n' || c == '\r'
}

/// `s` without its leading blanks.
pub open spec fn trim_front(s: Seq<char>) -> Seq<char>
    decreases s.len(),
{
    if s.len() > 0 && is_space(s[0]) {
        trim_front(s.drop_first())
    } else {
        s
    }
}

/// `s` without its trailing blanks.
pub open spec fn trim_back(s: Seq<char>) -> Seq<char>
    decreases s.len(),
{
    if s.len() > 0 && is_space(s.last()) {
        trim_back(s.drop_last())
    } else {
        s
    }
}

/// `s` without blanks on either side.
pub open spec fn trimmed_spaces(s: Seq<char>) -> Seq<char> {
    trim_front(trim_back(s))
}

/// Whether `c` is a blank.
pub fn space_char(c: char) -> (r: bool)
    ensures
        r == is_space(c),
{
    c == ' ' || c == '\t' || c == '\n' || c == '\r'
}

/// Removes leading and trailing blanks.
#[verifier::loop_isolation(false)]
#[verifier::rlimit(30)]
pub fn trim_str(s: &str) -> (r: String)
    ensures
        r@ == trimmed_spaces(s@),
{
    let n = s.unicode_len();
    let mut k = n;
    proof {
        assert(s@.take(n as int) =~= s@);
    }
    while k > 0 && space_char(s.get_char(k - 1))
        invariant
            k <= n,
            trim_back(s@) == trim_back(s@.take(k as int)),
        decreases k,
    {
        proof {
            assert(s@.take(k as int).drop_last() =~= s@.take(k - 1));
            assert(s@.take(k as int).last() == s@[k - 1]);
        }
        k = k - 1;
    }
    proof {
        if k > 0 {
            assert(s@.take(k as int).last() == s@[k - 1]);
        }
        assert(trim_back(s@.take(k as int)) == s@.take(k as int));
    }
    let mut i: usize = 0;
    while i < k && space_char(s.get_char(i))
        invariant
            i <= k,
            trim_front(s@.take(k as int)) == trim_front(s@.subrange(i as int, k as int)),
        decreases k - i,
    {
        proof {
            assert(s@.subrange(i as int, k as int).drop_first() =~= s@.subrange(i + 1, k as int));
            assert(s@.subrange(i as int, k as int)[0] == s@[i as int]);
        }
        i = i + 1;
    }
    proof {
        if i < k {
            assert(s@.subrange(i as int, k as int)[0] == s@[i as int]);
        }
        assert(trim_front(s@.subrange(i as int, k as int)) == s@.subrange(i as int, k as int));
    }
    let r = s.substring_char(i, k);
    proof {
        assert(r@ =~= s@.subrange(i as int, k as int));
    }
    r.to_owned()
}

/// The pieces of `s` between occurrences of `sep`: always one more piece
/// than separators, empty pieces kept.
pub open spec fn split_on(s: Seq<char>, sep: char) -> Seq<Seq<char>>
    decreases s.len(),
{
    if s.len() == 0 {
        seq![Seq::<char>::empty()]
    } else {
        let rest = split_on(s.drop_last(), sep);
        if s.last() == sep {
            rest.push(Seq::<char>::empty())
        } else {
            rest.update(rest.len() - 1, rest.last().push(s.last()))
        }
    }
}

/// Splits `s` at every occurrence of `sep`.
#[verifier::loop_isolation(false)]
pub fn split_string(s: &str, sep: char) -> (r: Vec<String>)
    ensures
        r@.len() == split_on(s@, sep).len(),
        forall|i: int| 0 <= i < r@.len() ==> (#[trigger] r@[i])@ == split_on(s@, sep)[i],
{
    let n = s.unicode_len();
    let mut r: Vec<String> = Vec::new();
    r.push(String::new());
    let mut i: usize = 0;
    proof {
        assert(s@.take(0) =~= Seq::<char>::empty());
    }
    while i < n
        invariant
            i <= n,
            r@.len() >= 1,
            r@.len() == split_on(s@.take(i as int), sep).len(),
            forall|j: int|
                0 <= j < r@.len() ==> (#[trigger] r@[j])@ == split_on(s@.take(i as int), sep)[j],
        decreases n - i,
    {
        let ghost r0 = r@;
        let ghost parts0 = split_on(s@.take(i as int), sep);
        proof {
            assert(s@.take(i + 1).drop_last() =~= s@.take(i as int));
            assert(s@.take(i + 1).last() == s@[i as int]);
        }
        let c = s.get_char(i);
        if c == sep {
            r.push(String::new());
            proof {
                let parts1 = split_on(s@.take(i + 1), sep);
                assert(parts1 == parts0.push(Seq::<char>::empty()));
                assert forall|j: int| 0 <= j < r@.len() implies (#[trigger] r@[j])@ == parts1[j]
                    by {
                    if j < r@.len() - 1 {
                        assert(r@[j] == r0[j]);
                    }
                }
            }
        } else {
            let mut last_piece = r.pop().unwrap();
            push_char(&mut last_piece, c);
            r.push(last_piece);
            proof {
                let parts1 = split_on(s@.take(i + 1), sep);
                assert(parts1 == parts0.update(parts0.len() - 1, parts0.last().push(s@[i as int])));
                assert forall|j: int| 0 <= j < r@.len() implies (#[trigger] r@[j])@ == parts1[j]
                    by {
                    if j < r@.len() - 1 {
                        assert(r@[j] == r0[j]);
                        assert(parts1[j] == parts0[j]);
                    } else {
                        assert(r@[j]@ == r0[j]@.push(s@[i as int]));
                    }
                }
            }
        }
        i = i + 1;
    }
    proof {
        assert(s@.take(n as int) =~= s@);
    }
    r
}

/// The views of a sequence of strings.
pub open spec fn str_views(v: Seq<String>) -> Seq<Seq<char>> {
    v.map_values(|s: String| s@)
}

/// The pieces joined with commas between them.
pub open spec fn joined_comma(parts: Seq<Seq<char>>) -> Seq<char>
    decreases parts.len(),
{
    if parts.len() == 0 {
        Seq::<char>::empty()
    } else if parts.len() == 1 {
        parts[0]
    } else {
        joined_comma(parts.drop_last()) + seq![','] + parts.last()
    }
}

/// Joins the strings of `v` with commas between them.
#[verifier::loop_isolation(false)]
pub fn join_comma(v: &Vec<String>) -> (r: String)
    ensures
        r@ == joined_comma(str_views(v@)),
{
    let n = v.len();
    let mut r = String::new();
    let mut i: usize = 0;
    proof {
        assert(str_views(v@.take(0)) =~= Seq::<Seq<char>>::empty());
    }
    while i < n
        invariant
            i <= n,
            r@ == joined_comma(str_views(v@.take(i as int))),
        decreases n - i,
    {
        if i > 0 {
            push_char(&mut r, ',');
        }
        r.append(v[i].as_str());
        proof {
            assert(str_views(v@.take(i + 1)).drop_last() =~= str_views(v@.take(i as int)));
            assert(str_views(v@.take(i + 1)).last() == v@[i as int]@);
            assert(str_views(v@.take(i + 1)).len() == i + 1);
            if i == 0 {
                assert(r@ =~= joined_comma(str_views(v@.take(1))));
            } else {
                assert(r@ =~= joined_comma(str_views(v@.take(i as int))) + seq![','] + v@[i as int]@);
            }
        }
        i = i + 1;
    }
    proof {
        assert(v@.take(n as int) =~= v@);
    }
    r
}

/// Whether `s` ends with `suffix`, character by character.
pub fn str_ends_with(s: &str, suffix: &str) -> (r: bool)
    ensures
        r == (suffix@.len() <= s@.len() && s@.skip(s@.len() - suffix@.len()) == suffix@),
{
    let n = s.unicode_len();
    let m = suffix.unicode_len();
    if m > n {
        return false;
    }
    let off = n - m;
    let mut i: usize = 0;
    while i < m
        invariant
            n == s@.len(),
            m == suffix@.len(),
            off == n - m,
            i <= m,
            forall|k: int| 0 <= k < i ==> s@[off + k] == suffix@[k],
        decreases m - i,
    {
        if s.get_char(off + i) != suffix.get_char(i) {
            proof {
                if s@.skip(off as int) == suffix@ {
                    assert(s@.skip(off as int)[i as int] == suffix@[i as int]);
                }
            }
            return false;
        }
        i = i + 1;
    }
    proof {
        assert(s@.skip(off as int) =~= suffix@);
    }
    true
}

/// Whether `s` begins with `prefix`, character by character.
pub fn str_starts_with(s: &str, prefix: &str) -> (r: bool)
    ensures
        r == (prefix@.len() <= s@.len() && s@.take(prefix@.len() as int) == prefix@),
{
    let n = s.unicode_len();
    let m = prefix.unicode_len();
    if m > n {
        proof {
            assert(!(prefix@.len() <= s@.len()));
        }
        return false;
    }
    let mut i: usize = 0;
    while i < m
        invariant
            n == s@.len(),
            m == prefix@.len(),
            m <= n,
            i <= m,
            forall|k: int| 0 <= k < i ==> s@[k] == prefix@[k],
        decreases m - i,
    {
        if s.get_char(i) != prefix.get_char(i) {
            proof {
                assert(s@.take(m as int)[i as int] != prefix@[i as int]);
            }
            return false;
        }
        i = i + 1;
    }
    proof {
        assert(s@.take(m as int) =~= prefix@);
    }
    true
}

} // verus!
