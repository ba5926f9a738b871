//! Character-level text operations used by the command evaluator and the
//! menu identifiers: prefix tests, first-occurrence splitting, replacement of
//! every occurrence, and trimming.

use vstd::prelude::*;
use vstd::utf8::*;

verus! {

/// `s` begins with `p`.
pub open spec fn starts_with(s: Seq<char>, p: Seq<char>) -> bool {
    p.len() <= s.len() && s.subrange(0, p.len() as int) == p
}

/// `p` occurs somewhere in `s`.
pub open spec fn contains(s: Seq<char>, p: Seq<char>) -> bool {
    exists|k: int| 0 <= k <= s.len() && #[trigger] starts_with(s.skip(k), p)
}

/// Every occurrence of `pat` in `s`, taken left to right without overlap,
/// replaced by `rep`.  An empty `pat` occurs before every character and at
/// the end.
pub open spec fn replace_all(s: Seq<char>, pat: Seq<char>, rep: Seq<char>) -> Seq<char>
    decreases s.len(),
{
    if pat.len() == 0 {
        if s.len() == 0 {
            rep
        } else {
            rep + seq![s[0]] + replace_all(s.skip(1), pat, rep)
        }
    } else if s.len() < pat.len() {
        s
    } else if starts_with(s, pat) {
        rep + replace_all(s.skip(pat.len() as int), pat, rep)
    } else {
        seq![s[0]] + replace_all(s.skip(1), pat, rep)
    }
}

/// Index of the first occurrence of a non-empty `pat` in `s` at or after `i`.
pub open spec fn first_match_from(s: Seq<char>, pat: Seq<char>, i: int) -> Option<int>
    decreases s.len() - i,
{
    if pat.len() == 0 || i < 0 || i + pat.len() > s.len() {
        None
    } else if starts_with(s.skip(i), pat) {
        Some(i)
    } else {
        first_match_from(s, pat, i + 1)
    }
}

/// The text before and the text after the first occurrence of `pat`.
pub open spec fn split_first(s: Seq<char>, pat: Seq<char>) -> Option<(Seq<char>, Seq<char>)> {
    match first_match_from(s, pat, 0) {
        Some(j) => Some((s.take(j), s.skip(j + pat.len()))),
        None => None,
    }
}

/// The part of `s` before the first occurrence of `pat`, or all of `s`.
pub open spec fn first_field(s: Seq<char>, pat: Seq<char>) -> Seq<char> {
    match split_first(s, pat) {
        Some(parts) => parts.0,
        None => s,
    }
}

/// Whether `c` has the Unicode `White_Space` property (the property that
/// `char::is_whitespace` reports): U+0009 to U+000D, U+0020, U+0085, U+00A0,
/// U+1680, U+2000 to U+200A, U+2028, U+2029, U+202F, U+205F and U+3000.
pub open spec fn whitespace(c: char) -> bool {
    let u = c as u32;
    ||| 0x9 <= u <= 0xd
    ||| u == 0x20
    ||| u == 0x85
    ||| u == 0xa0
    ||| u == 0x1680
    ||| 0x2000 <= u <= 0x200a
    ||| u == 0x2028
    ||| u == 0x2029
    ||| u == 0x202f
    ||| u == 0x205f
    ||| u == 0x3000
}

/// What `str::to_uppercase` returns for a string.
pub uninterp spec fn uppercase(s: Seq<char>) -> Seq<char>;

/// `s` without its leading whitespace.
pub open spec fn trim_start(s: Seq<char>) -> Seq<char>
    decreases s.len(),
{
    if s.len() > 0 && whitespace(s[0]) {
        trim_start(s.skip(1))
    } else {
        s
    }
}

/// `s` without its trailing whitespace.
pub open spec fn trim_end(s: Seq<char>) -> Seq<char>
    decreases s.len(),
{
    if s.len() > 0 && whitespace(s.last()) {
        trim_end(s.drop_last())
    } else {
        s
    }
}

/// `s` without its leading and trailing whitespace.
pub open spec fn trim(s: Seq<char>) -> Seq<char> {
    trim_end(trim_start(s))
}

/// Whether the character has the Unicode `White_Space` property.
pub fn is_whitespace(c: char) -> (b: bool)
    ensures
        b == whitespace(c),
{
    let u = c as u32;
    (0x9 <= u && u <= 0xd) || u == 0x20 || u == 0x85 || u == 0xa0 || u == 0x1680 || (0x2000 <= u && u
        <= 0x200a) || u == 0x2028 || u == 0x2029 || u == 0x202f || u == 0x205f || u == 0x3000
}

/// `str::to_uppercase`: the upper-case form of the text, as Unicode case
/// mapping gives it; the result is named, not described.
#[verifier::external_body]
pub(crate) fn to_uppercase(s: &str) -> (r: String)
    ensures
        r@ == uppercase(s@),
{
    s.to_uppercase()
}

/// `String::from_utf8`: the decoded text when the bytes are valid UTF-8, and
/// nothing otherwise.
#[verifier::external_body]
pub(crate) fn decode_utf8_bytes(bytes: &Vec<u8>) -> (r: Option<String>)
    ensures
        r is Some <==> valid_utf8(bytes@),
        r matches Some(s) ==> s@ == decode_utf8(bytes@),
{
    String::from_utf8(bytes.to_vec()).ok()
}

/// The characters of `s`.
pub fn chars_of(s: &str) -> (v: Vec<char>)
    ensures
        v@ == s@,
{
    let n = s.unicode_len();
    let mut v: Vec<char> = Vec::new();
    let mut i: usize = 0;
    while i < n
        invariant
            n == s@.len(),
            i <= n,
            v@ == s@.subrange(0, i as int),
        decreases n - i,
    {
        v.push(s.get_char(i));
        i = i + 1;
    }
    v
}

/// Whether `p` occurs in `v` at index `i`.
pub fn matches_at(v: &Vec<char>, i: usize, p: &Vec<char>) -> (b: bool)
    requires
        i <= v.len(),
    ensures
        b == starts_with(v@.skip(i as int), p@),
{
    if p.len() > v.len() - i {
        return false;
    }
    let mut k: usize = 0;
    while k < p.len()
        invariant
            i + p.len() <= v.len(),
            k <= p.len(),
            forall|t: int| 0 <= t < k ==> v@[i + t] == p@[t],
        decreases p.len() - k,
    {
        if v[i + k] != p[k] {
            assert(v@.skip(i as int).subrange(0, p@.len() as int)[k as int] != p@[k as int]);
            return false;
        }
        k = k + 1;
    }
    assert(v@.skip(i as int).subrange(0, p@.len() as int) =~= p@);
    true
}

/// Whether `a` and `b` are the same text.
pub fn same_text(a: &str, b: &str) -> (r: bool)
    ensures
        r == (a@ == b@),
{
    a.to_owned() == b.to_owned()
}

/// Whether `s` begins with `p`.
pub fn has_prefix(s: &str, p: &str) -> (r: bool)
    ensures
        r == starts_with(s@, p@),
{
    let sv = chars_of(s);
    let pv = chars_of(p);
    assert(s@.skip(0) =~= s@);
    matches_at(&sv, 0, &pv)
}

/// Text `a` followed by text `b`.
pub fn join2(a: &str, b: &str) -> (r: String)
    ensures
        r@ == a@ + b@,
{
    let mut r = String::new();
    r.append(a);
    r.append(b);
    r
}

/// Text `a`, `b` and `c` one after the other.
pub fn join3(a: &str, b: &str, c: &str) -> (r: String)
    ensures
        r@ == a@ + b@ + c@,
{
    let mut r = String::new();
    r.append(a);
    r.append(b);
    r.append(c);
    r
}

proof fn lemma_skip_skip(s: Seq<char>, a: int, b: int)
    requires
        0 <= a,
        0 <= b,
        a + b <= s.len(),
    ensures
        s.skip(a).skip(b) == s.skip(a + b),
{
    assert(s.skip(a).skip(b) =~= s.skip(a + b));
}

/// `s` with every occurrence of `pat` replaced by `rep`, as `str::replace` does.
pub fn replace(s: &str, pat: &str, rep: &str) -> (r: String)
    ensures
        r@ == replace_all(s@, pat@, rep@),
{
    let sv = chars_of(s);
    let pv = chars_of(pat);
    let n = sv.len();
    let m = pv.len();
    let mut r = String::new();
    let mut i: usize = 0;
    assert(s@.skip(0) =~= s@);
    if m == 0 {
        while i < n
            invariant
                n == s@.len(),
                sv@ == s@,
                pat@.len() == 0,
                i <= n,
                r@ + replace_all(s@.skip(i as int), pat@, rep@) == replace_all(s@, pat@, rep@),
            decreases n - i,
        {
            let ghost before = r@;
            r.append(rep);
            r.append(s.substring_char(i, i + 1));
            proof {
                let t = s@.skip(i as int);
                assert(s@.subrange(i as int, i + 1) =~= seq![t[0]]);
                lemma_skip_skip(s@, i as int, 1);
                assert(replace_all(t, pat@, rep@) == rep@ + seq![t[0]] + replace_all(t.skip(1), pat@, rep@));
                assert(r@ =~= before + rep@ + seq![t[0]]);
                assert(before + (rep@ + seq![t[0]] + replace_all(t.skip(1), pat@, rep@))
                    =~= r@ + replace_all(s@.skip(i + 1), pat@, rep@));
            }
            i = i + 1;
        }
        let ghost before = r@;
        r.append(rep);
        proof {
            assert(s@.skip(n as int) =~= Seq::<char>::empty());
        }
        return r;
    }
    while i < n
        invariant
            n == s@.len(),
            sv@ == s@,
            pv@ == pat@,
            m == pat@.len(),
            m > 0,
            i <= n,
            r@ + replace_all(s@.skip(i as int), pat@, rep@) == replace_all(s@, pat@, rep@),
        decreases n - i,
    {
        let ghost before = r@;
        let ghost t = s@.skip(i as int);
        if m > n - i {
            r.append(s.substring_char(i, n));
            proof {
                assert(s@.subrange(i as int, n as int) =~= t);
                assert(s@.skip(n as int) =~= Seq::<char>::empty());
                assert(replace_all(Seq::<char>::empty(), pat@, rep@) =~= Seq::<char>::empty());
                assert(r@ + replace_all(s@.skip(n as int), pat@, rep@) =~= before + t);
            }
            i = n;
        } else if matches_at(&sv, i, &pv) {
            r.append(rep);
            proof {
                lemma_skip_skip(s@, i as int, m as int);
            }
            i = i + m;
        } else {
            r.append(s.substring_char(i, i + 1));
            proof {
                assert(s@.subrange(i as int, i + 1) =~= seq![t[0]]);
                lemma_skip_skip(s@, i as int, 1);
                assert(before + (seq![t[0]] + replace_all(t.skip(1), pat@, rep@))
                    =~= r@ + replace_all(s@.skip(i + 1), pat@, rep@));
            }
            i = i + 1;
        }
    }
    proof {
        assert(s@.skip(n as int) =~= Seq::<char>::empty());
        assert(replace_all(Seq::<char>::empty(), pat@, rep@) =~= Seq::<char>::empty());
        assert(r@ + Seq::<char>::empty() =~= r@);
    }
    r
}

/// `s` split at the first occurrence of `pat`, when there is one.
pub fn split_once(s: &str, pat: &str) -> (r: Option<(String, String)>)
    ensures
        match split_first(s@, pat@) {
            Some(parts) => r matches Some(p) && p.0@ == parts.0 && p.1@ == parts.1,
            None => r is None,
        },
{
    let sv = chars_of(s);
    let pv = chars_of(pat);
    let n = sv.len();
    let m = pv.len();
    if m == 0 {
        return None;
    }
    let mut i: usize = 0;
    while i < n && m <= n - i
        invariant
            n == s@.len(),
            sv@ == s@,
            pv@ == pat@,
            m == pat@.len(),
            m > 0,
            i <= n,
            first_match_from(s@, pat@, 0) == first_match_from(s@, pat@, i as int),
        decreases n - i,
    {
        if matches_at(&sv, i, &pv) {
            let a = s.substring_char(0, i).to_owned();
            let b = s.substring_char(i + m, n).to_owned();
            proof {
                assert(s@.subrange(0, i as int) =~= s@.take(i as int));
                assert(s@.subrange(i + m, n as int) =~= s@.skip(i + m));
            }
            return Some((a, b));
        }
        i = i + 1;
    }
    None
}

/// The part of `s` before the first occurrence of `pat`, or all of `s`.
pub fn first_part(s: &str, pat: &str) -> (r: String)
    ensures
        r@ == first_field(s@, pat@),
{
    match split_once(s, pat) {
        Some(parts) => parts.0,
        None => s.to_owned(),
    }
}

proof fn lemma_trim_start_skip(s: Seq<char>, i: int)
    requires
        0 <= i <= s.len(),
        forall|k: int| 0 <= k < i ==> whitespace(#[trigger] s[k]),
    ensures
        trim_start(s) == trim_start(s.skip(i)),
    decreases i,
{
    if i > 0 {
        lemma_trim_start_skip(s, i - 1);
        let t = s.skip(i - 1);
        assert(t[0] == s[i - 1]);
        lemma_skip_skip(s, i - 1, 1);
    } else {
        assert(s.skip(0) =~= s);
    }
}

proof fn lemma_trim_end_take(s: Seq<char>, j: int)
    requires
        0 <= j <= s.len(),
        forall|k: int| j <= k < s.len() ==> whitespace(#[trigger] s[k]),
    ensures
        trim_end(s) == trim_end(s.take(j)),
    decreases s.len() - j,
{
    if j < s.len() {
        lemma_trim_end_take(s, j + 1);
        let t = s.take(j + 1);
        assert(t.last() == s[j]);
        assert(t.drop_last() =~= s.take(j));
    } else {
        assert(s.take(j) =~= s);
    }
}

/// `s` without leading and trailing whitespace, as `str::trim` gives it.
pub fn trim_text(s: &str) -> (r: String)
    ensures
        r@ == trim(s@),
{
    let sv = chars_of(s);
    let n = sv.len();
    let mut a: usize = 0;
    while a < n && is_whitespace(sv[a])
        invariant
            n == s@.len(),
            sv@ == s@,
            a <= n,
            forall|k: int| 0 <= k < a ==> whitespace(#[trigger] s@[k]),
        decreases n - a,
    {
        a = a + 1;
    }
    proof {
        lemma_trim_start_skip(s@, a as int);
        if a < n {
            assert(s@.skip(a as int)[0] == s@[a as int]);
        }
    }
    let ghost t = s@.skip(a as int);
    assert(trim_start(s@) == t);
    let mut b: usize = n;
    while b > a && is_whitespace(sv[b - 1])
        invariant
            n == s@.len(),
            sv@ == s@,
            a <= b <= n,
            t == s@.skip(a as int),
            forall|k: int| b - a <= k < t.len() ==> whitespace(#[trigger] t[k]),
        decreases b,
    {
        b = b - 1;
    }
    proof {
        lemma_trim_end_take(t, b - a);
        let u = t.take(b - a);
        if b > a {
            assert(u.last() == s@[b - 1]);
        }
        assert(s@.subrange(a as int, b as int) =~= u);
    }
    s.substring_char(a, b).to_owned()
}

/// The first occurrence at or after `i` is at `j` when there is one at `j`
/// and none between `i` and `j`.
pub proof fn lemma_first_match_at(s: Seq<char>, pat: Seq<char>, i: int, j: int)
    requires
        pat.len() > 0,
        0 <= i <= j,
        j + pat.len() <= s.len(),
        starts_with(s.skip(j), pat),
        forall|k: int| i <= k < j ==> !starts_with(#[trigger] s.skip(k), pat),
    ensures
        first_match_from(s, pat, i) == Some(j),
    decreases j - i,
{
    if i < j {
        lemma_first_match_at(s, pat, i + 1, j);
    }
}

/// What `first_match_from` finds is an occurrence, at or after `i`.
pub proof fn lemma_first_match_sound(s: Seq<char>, pat: Seq<char>, i: int)
    ensures
        first_match_from(s, pat, i) matches Some(j) ==> i <= j && j + pat.len() <= s.len()
            && starts_with(s.skip(j), pat),
    decreases s.len() - i,
{
    if pat.len() == 0 || i < 0 || i + pat.len() > s.len() {
    } else if starts_with(s.skip(i), pat) {
    } else {
        lemma_first_match_sound(s, pat, i + 1);
    }
}

/// Text without `pat` is left as it is by replacing `pat`.
pub proof fn lemma_replace_absent(s: Seq<char>, pat: Seq<char>, rep: Seq<char>)
    requires
        pat.len() > 0,
        !contains(s, pat),
    ensures
        replace_all(s, pat, rep) == s,
    decreases s.len(),
{
    if s.len() < pat.len() {
    } else {
        assert(s.skip(0) =~= s);
        assert(!starts_with(s.skip(0), pat));
        let t = s.skip(1);
        assert forall|k: int| 0 <= k <= t.len() implies !#[trigger] starts_with(t.skip(k), pat) by {
            assert(t.skip(k) =~= s.skip(k + 1));
            assert(!starts_with(s.skip(k + 1), pat));
        }
        lemma_replace_absent(t, pat, rep);
        assert(s =~= seq![s[0]] + t);
    }
}

/// Text that does not contain `pat` is its own first field.
pub proof fn lemma_first_field_absent(s: Seq<char>, pat: Seq<char>)
    requires
        !contains(s, pat),
    ensures
        first_field(s, pat) == s,
{
    lemma_first_match_sound(s, pat, 0);
    if let Some(j) = first_match_from(s, pat, 0) {
        assert(starts_with(s.skip(j), pat));
        assert(false);
    }
}

/// Replacing `pat` in `pat` followed by `s` drops the leading `pat` and
/// replaces the rest.
pub proof fn lemma_replace_leading(pat: Seq<char>, s: Seq<char>, rep: Seq<char>)
    requires
        pat.len() > 0,
    ensures
        replace_all(pat + s, pat, rep) == rep + replace_all(s, pat, rep),
{
    let t = pat + s;
    assert(t.subrange(0, pat.len() as int) =~= pat);
    assert(t.skip(pat.len() as int) =~= s);
}

} // verus!
