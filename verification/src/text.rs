//! Character-level text model: the string operations that the indexer performs
//! (trimming, line splitting, word splitting, prefix and separator handling),
//! each stated over `Seq<char>` and implemented over `Vec<char>`.
use vstd::prelude::*;

verus! {

/// The classes of characters that the trimming and splitting operations test for.
#[derive(Clone, Copy, PartialEq, Eq, Structural)]
pub enum CharClass {
    /// Characters with the Unicode `White_Space` property.
    Whitespace,
    /// Characters without the Unicode `White_Space` property.
    NonWhitespace,
    /// Characters that cannot occur in an identifier: neither alphanumeric nor `_` nor `:`.
    NotNameChar,
    /// Every character but the given one.
    Except(char),
}

/// The Unicode `White_Space` property, which `char::is_whitespace` tests.
pub open spec fn spec_is_whitespace(c: char) -> bool {
    let u = c as u32;
    ||| 0x09 <= u <= 0x0d
    ||| u == 0x20
    ||| u == 0x85
    ||| u == 0xa0
    ||| u == 0x1680
    ||| 0x2000 <= u <= 0x200a
    ||| u == 0x2028
    ||| u == 0x2029
    ||| u == 0x202f
    ||| u == 0x205f
    ||| u == 0x3000
}

/// Whether `char::is_alphanumeric` holds of `c` (Unicode `Alphabetic` or `Numeric`).
pub uninterp spec fn spec_is_alphanumeric(c: char) -> bool;

/// Whether `c` is an ASCII letter or digit.
pub open spec fn is_ascii_alphanumeric(c: char) -> bool {
    ('a' <= c && c <= 'z') || ('A' <= c && c <= 'Z') || ('0' <= c && c <= '9')
}

/// Whether `c` may appear in a cleaned identifier.
pub open spec fn is_name_char(c: char) -> bool {
    spec_is_alphanumeric(c) || c == '_' || c == ':'
}

/// Membership of `c` in the class `cls`.
pub open spec fn in_class(c: char, cls: CharClass) -> bool {
    match cls {
        CharClass::Whitespace => spec_is_whitespace(c),
        CharClass::NonWhitespace => !spec_is_whitespace(c),
        CharClass::NotNameChar => !is_name_char(c),
        CharClass::Except(x) => c != x,
    }
}

/// The number of leading characters of `s` that belong to `cls`.
pub open spec fn lead(s: Seq<char>, cls: CharClass) -> nat
    decreases s.len(),
{
    if s.len() > 0 && in_class(s[0], cls) {
        1 + lead(s.drop_first(), cls)
    } else {
        0
    }
}

/// The number of trailing characters of `s` that belong to `cls`.
pub open spec fn trail(s: Seq<char>, cls: CharClass) -> nat
    decreases s.len(),
{
    if s.len() > 0 && in_class(s.last(), cls) {
        1 + trail(s.drop_last(), cls)
    } else {
        0
    }
}

/// `s` without its leading characters of class `cls`.
pub open spec fn trim_start_by(s: Seq<char>, cls: CharClass) -> Seq<char> {
    s.skip(lead(s, cls) as int)
}

/// `s` without its trailing characters of class `cls`.
pub open spec fn trim_end_by(s: Seq<char>, cls: CharClass) -> Seq<char> {
    s.take(s.len() - trail(s, cls))
}

/// `s` without its leading and trailing characters of class `cls`.
pub open spec fn trim_by(s: Seq<char>, cls: CharClass) -> Seq<char> {
    trim_end_by(trim_start_by(s, cls), cls)
}

/// `str::trim`: `s` without leading and trailing whitespace.
pub open spec fn trim(s: Seq<char>) -> Seq<char> {
    trim_by(s, CharClass::Whitespace)
}

/// The leading run of class `cls` ends exactly at `k`.
pub proof fn lemma_lead_is(s: Seq<char>, cls: CharClass, k: int)
    requires
        0 <= k <= s.len(),
        forall|i: int| 0 <= i < k ==> in_class(#[trigger] s[i], cls),
        k == s.len() || !in_class(s[k], cls),
    ensures
        lead(s, cls) == k,
    decreases k,
{
    if k > 0 {
        let t = s.drop_first();
        assert forall|i: int| 0 <= i < k - 1 implies in_class(#[trigger] t[i], cls) by {
            assert(t[i] == s[i + 1]);
        }
        if k < s.len() {
            assert(t[k - 1] == s[k]);
        }
        lemma_lead_is(t, cls, k - 1);
    }
}

/// The trailing run of class `cls` has length exactly `k`.
pub proof fn lemma_trail_is(s: Seq<char>, cls: CharClass, k: int)
    requires
        0 <= k <= s.len(),
        forall|i: int| s.len() - k <= i < s.len() ==> in_class(#[trigger] s[i], cls),
        k == s.len() || !in_class(s[s.len() - k - 1], cls),
    ensures
        trail(s, cls) == k,
    decreases k,
{
    if k > 0 {
        let t = s.drop_last();
        assert forall|i: int| t.len() - (k - 1) <= i < t.len() implies in_class(#[trigger] t[i], cls) by {
            assert(t[i] == s[i]);
        }
        if k < s.len() {
            assert(t[t.len() - (k - 1) - 1] == s[s.len() - k - 1]);
        }
        lemma_trail_is(t, cls, k - 1);
    }
}

/// `String::push`.
#[verifier::external_body]
pub(crate) fn string_push(s: &mut String, c: char)
    ensures
        final(s)@ == old(s)@.push(c),
{
    s.push(c);
}

/// `char::is_alphanumeric`; for ASCII characters it holds exactly of letters and digits.
#[verifier::external_body]
pub(crate) fn char_is_alphanumeric(c: char) -> (r: bool)
    ensures
        r == spec_is_alphanumeric(c),
        (c as u32) < 128 ==> (r <==> is_ascii_alphanumeric(c)),
{
    c.is_alphanumeric()
}

/// The characters of `s`, in order.
pub fn chars_of(s: &str) -> (r: Vec<char>)
    ensures
        r@ == s@,
{
    let mut out: Vec<char> = Vec::new();
    for c in it: s.chars()
        invariant
            it.seq() == s@,
            out@ == s@.take(it.index() as int),
    {
        assert(s@.take(it.index() + 1) =~= s@.take(it.index() as int).push(c));
        out.push(c);
    }
    assert(out@ =~= s@);
    out
}

/// A `String` holding the characters of `v`.
pub fn string_of(v: &[char]) -> (r: String)
    ensures
        r@ == v@,
{
    let mut s = String::new();
    let mut i: usize = 0;
    while i < v.len()
        invariant
            i <= v@.len(),
            s@ == v@.take(i as int),
        decreases v@.len() - i,
    {
        string_push(&mut s, v[i]);
        assert(v@.take(i + 1) =~= v@.take(i as int).push(v@[i as int]));
        i += 1;
    }
    assert(v@.take(v@.len() as int) =~= v@);
    s
}

/// `char::is_whitespace`.
pub fn is_whitespace(c: char) -> (r: bool)
    ensures
        r == spec_is_whitespace(c),
{
    let u = c as u32;
    (0x09 <= u && u <= 0x0d) || u == 0x20 || u == 0x85 || u == 0xa0 || u == 0x1680 || (0x2000
        <= u && u <= 0x200a) || u == 0x2028 || u == 0x2029 || u == 0x202f || u == 0x205f || u
        == 0x3000
}

/// Membership of `c` in `cls`.
pub fn char_in_class(c: char, cls: CharClass) -> (r: bool)
    ensures
        r == in_class(c, cls),
{
    match cls {
        CharClass::Whitespace => is_whitespace(c),
        CharClass::NonWhitespace => !is_whitespace(c),
        CharClass::NotNameChar => !(char_is_alphanumeric(c) || c == '_' || c == ':'),
        CharClass::Except(x) => c != x,
    }
}

/// The bounds, within `v[lo..hi]`, of that range trimmed of class `cls` at both ends.
pub fn trim_bounds(v: &[char], lo: usize, hi: usize, cls: CharClass) -> (r: (usize, usize))
    requires
        lo <= hi <= v@.len(),
    ensures
        lo <= r.0 <= r.1 <= hi,
        v@.subrange(r.0 as int, r.1 as int) == trim_by(v@.subrange(lo as int, hi as int), cls),
{
    let ghost s = v@.subrange(lo as int, hi as int);
    let mut a = lo;
    while a < hi && char_in_class(v[a], cls)
        invariant
            lo <= a <= hi <= v@.len(),
            forall|i: int| lo <= i < a ==> in_class(#[trigger] v@[i], cls),
        decreases hi - a,
    {
        a += 1;
    }
    proof {
        assert forall|i: int| 0 <= i < a - lo implies in_class(#[trigger] s[i], cls) by {
            assert(s[i] == v@[lo + i]);
        }
        if a < hi {
            assert(s[a - lo] == v@[a as int]);
        }
        lemma_lead_is(s, cls, a - lo);
    }
    let ghost t = trim_start_by(s, cls);
    assert(t =~= v@.subrange(a as int, hi as int));
    let mut b = hi;
    while b > a && char_in_class(v[b - 1], cls)
        invariant
            lo <= a <= b <= hi <= v@.len(),
            forall|i: int| b <= i < hi ==> in_class(#[trigger] v@[i], cls),
        decreases b - a,
    {
        b -= 1;
    }
    proof {
        assert forall|i: int| t.len() - (hi - b) <= i < t.len() implies in_class(
            #[trigger] t[i],
            cls,
        ) by {
            assert(t[i] == v@[a + i]);
        }
        if b > a {
            assert(t[t.len() - (hi - b) - 1] == v@[b - 1]);
        }
        lemma_trail_is(t, cls, hi - b);
        assert(trim_end_by(t, cls) =~= v@.subrange(a as int, b as int));
    }
    (a, b)
}

/// `v[lo..hi]` trimmed of whitespace at both ends.
pub fn trim_chars(v: &[char], lo: usize, hi: usize) -> (r: Vec<char>)
    requires
        lo <= hi <= v@.len(),
    ensures
        r@ == trim(v@.subrange(lo as int, hi as int)),
{
    let (a, b) = trim_bounds(v, lo, hi, CharClass::Whitespace);
    slice_chars(v, a, b)
}

/// A copy of `v[lo..hi]`.
pub fn slice_chars(v: &[char], lo: usize, hi: usize) -> (r: Vec<char>)
    requires
        lo <= hi <= v@.len(),
    ensures
        r@ == v@.subrange(lo as int, hi as int),
{
    let mut out: Vec<char> = Vec::new();
    let mut i = lo;
    while i < hi
        invariant
            lo <= i <= hi <= v@.len(),
            out@ == v@.subrange(lo as int, i as int),
        decreases hi - i,
    {
        out.push(v[i]);
        assert(v@.subrange(lo as int, i + 1) =~= v@.subrange(lo as int, i as int).push(v@[i as int]));
        i += 1;
    }
    out
}

/// The sequences that a vector of character vectors holds.
pub open spec fn views(v: Seq<Vec<char>>) -> Seq<Seq<char>> {
    v.map_values(|l: Vec<char>| l@)
}

/// The leading run of class `cls` is a prefix of `s`, and the character after it, if any,
/// lies outside `cls`.
pub proof fn lemma_lead_bounds(s: Seq<char>, cls: CharClass)
    ensures
        lead(s, cls) <= s.len(),
        forall|i: int| 0 <= i < lead(s, cls) ==> in_class(#[trigger] s[i], cls),
        lead(s, cls) < s.len() ==> !in_class(s[lead(s, cls) as int], cls),
    decreases s.len(),
{
    if s.len() > 0 && in_class(s[0], cls) {
        let t = s.drop_first();
        lemma_lead_bounds(t, cls);
        assert forall|i: int| 0 <= i < lead(s, cls) implies in_class(#[trigger] s[i], cls) by {
            if i > 0 {
                assert(s[i] == t[i - 1]);
            }
        }
        if lead(s, cls) < s.len() {
            assert(s[lead(s, cls) as int] == t[lead(t, cls) as int]);
        }
    }
}

/// `s` with one trailing carriage return removed, if it has one.
pub open spec fn strip_cr(s: Seq<char>) -> Seq<char> {
    if s.len() > 0 && s.last() == '\r' {
        s.drop_last()
    } else {
        s
    }
}

/// `str::lines`: the pieces of `s` between line feeds, each without its `\r\n` or `\n`
/// ending; a final line ending yields no empty last line.
pub open spec fn lines(s: Seq<char>) -> Seq<Seq<char>>
    decreases s.len(),
{
    if s.len() == 0 {
        seq![]
    } else {
        let k = lead(s, CharClass::Except('\n'));
        if k < s.len() {
            seq![strip_cr(s.take(k as int))] + lines(s.skip(k + 1 as int))
        } else {
            seq![s]
        }
    }
}

/// `str::split_whitespace`: the maximal runs of non-whitespace characters of `s`.
pub open spec fn words(s: Seq<char>) -> Seq<Seq<char>>
    decreases s.len(),
{
    let t = trim_start_by(s, CharClass::Whitespace);
    if t.len() == 0 {
        seq![]
    } else {
        proof {
            lemma_lead_bounds(s, CharClass::Whitespace);
            lemma_lead_bounds(t, CharClass::NonWhitespace);
            assert(t[0] == s[lead(s, CharClass::Whitespace) as int]);
        }
        let k = lead(t, CharClass::NonWhitespace);
        seq![t.take(k as int)] + words(t.skip(k as int))
    }
}

/// The part of `s` before the first occurrence of `c` (all of `s` if there is none).
pub open spec fn before_char(s: Seq<char>, c: char) -> Seq<char> {
    s.take(lead(s, CharClass::Except(c)) as int)
}

/// `str::starts_with` for a string pattern.
pub open spec fn starts_with(s: Seq<char>, p: Seq<char>) -> bool {
    p.len() <= s.len() && s.take(p.len() as int) == p
}

/// `str::contains` for a string pattern.
pub open spec fn contains_seq(s: Seq<char>, p: Seq<char>) -> bool {
    exists|i: int| 0 <= i && i + p.len() <= s.len() && #[trigger] s.subrange(i, i + p.len()) == p
}

/// `str::trim_start_matches` for a string pattern: every leading copy of `p` removed.
pub open spec fn trim_start_matches(s: Seq<char>, p: Seq<char>) -> Seq<char>
    decreases s.len(),
{
    if p.len() > 0 && starts_with(s, p) {
        trim_start_matches(s.skip(p.len() as int), p)
    } else {
        s
    }
}

/// Whether `s` holds `::` at index `i`.
pub open spec fn colons_at(s: Seq<char>, i: int) -> bool {
    0 <= i && i + 1 < s.len() && s[i] == ':' && s[i + 1] == ':'
}

/// The index of the first `::` in `s`, or `s.len()` if there is none.
pub open spec fn first_colons(s: Seq<char>) -> nat
    decreases s.len(),
{
    if s.len() < 2 {
        s.len()
    } else if s[0] == ':' && s[1] == ':' {
        0
    } else {
        1 + first_colons(s.drop_first())
    }
}

/// The last piece of `s.split("::")`.
pub open spec fn last_segment(s: Seq<char>) -> Seq<char>
    decreases s.len(),
{
    let k = first_colons(s);
    if k + 2 <= s.len() {
        last_segment(s.skip(k + 2 as int))
    } else {
        s
    }
}

/// The first `::` of `s` is at `k`, or there is none and `k` is `s.len()`.
pub proof fn lemma_first_colons_is(s: Seq<char>, k: int)
    requires
        0 <= k <= s.len(),
        forall|i: int| 0 <= i < k ==> !colons_at(s, i),
        k == s.len() || colons_at(s, k),
    ensures
        first_colons(s) == k,
    decreases s.len(),
{
    if s.len() >= 2 {
        if k > 0 {
            assert(!colons_at(s, 0));
            let t = s.drop_first();
            assert forall|i: int| 0 <= i < k - 1 implies !colons_at(t, i) by {
                assert(!colons_at(s, i + 1));
            }
            if k < s.len() {
                assert(colons_at(s, k));
            }
            lemma_first_colons_is(t, k - 1);
        }
    } else {
        if k < s.len() {
            assert(colons_at(s, k));
        }
    }
}

/// The decimal digit character for `d < 10`.
pub open spec fn digit_char(d: nat) -> char {
    if d == 0 {
        '0'
    } else if d == 1 {
        '1'
    } else if d == 2 {
        '2'
    } else if d == 3 {
        '3'
    } else if d == 4 {
        '4'
    } else if d == 5 {
        '5'
    } else if d == 6 {
        '6'
    } else if d == 7 {
        '7'
    } else if d == 8 {
        '8'
    } else {
        '9'
    }
}

/// The decimal notation of `n`, as `Display` writes an integer.
pub open spec fn decimal(n: nat) -> Seq<char>
    decreases n,
{
    if n < 10 {
        seq![digit_char(n)]
    } else {
        decimal(n / 10).push(digit_char(n % 10))
    }
}

/// `s` with ASCII capital letters replaced by small ones.
pub open spec fn ascii_lower(s: Seq<char>) -> Seq<char> {
    s.map_values(|c: char| if 'A' <= c && c <= 'Z' { ((c as u32) + 32) as char } else { c })
}

/// Whether every character of `s` is ASCII.
pub open spec fn all_ascii(s: Seq<char>) -> bool {
    forall|i: int| 0 <= i < s.len() ==> (#[trigger] s[i] as u32) < 128
}

/// What `str::to_lowercase` returns for `s`.
pub uninterp spec fn spec_to_lowercase(s: Seq<char>) -> Seq<char>;

/// `str::to_lowercase`; on ASCII text it lowers exactly the capital letters.
#[verifier::external_body]
pub(crate) fn to_lowercase(s: &str) -> (r: String)
    ensures
        r@ == spec_to_lowercase(s@),
        all_ascii(s@) ==> r@ == ascii_lower(s@),
{
    s.to_lowercase()
}

/// The character for decimal digit `d`.
pub fn digit_of(d: u64) -> (c: char)
    requires
        d < 10,
    ensures
        c == digit_char(d as nat),
{
    match d {
        0 => '0',
        1 => '1',
        2 => '2',
        3 => '3',
        4 => '4',
        5 => '5',
        6 => '6',
        7 => '7',
        8 => '8',
        _ => '9',
    }
}

/// Appends the decimal notation of `n` to `out`.
pub fn push_decimal(out: &mut Vec<char>, n: u64)
    ensures
        final(out)@ == old(out)@ + decimal(n as nat),
    decreases n,
{
    if n >= 10 {
        push_decimal(out, n / 10);
    }
    out.push(digit_of(n % 10));
    proof {
        if n >= 10 {
            assert(decimal(n as nat) == decimal((n / 10) as nat).push(digit_char((n % 10) as nat)));
        } else {
            assert(decimal(n as nat) == seq![digit_char(n as nat)]);
        }
    }
}

/// Appends the characters of `p` to `out`.
pub fn push_all(out: &mut Vec<char>, p: &[char])
    ensures
        final(out)@ == old(out)@ + p@,
{
    let mut i: usize = 0;
    while i < p.len()
        invariant
            i <= p@.len(),
            out@ == old(out)@ + p@.take(i as int),
        decreases p@.len() - i,
    {
        out.push(p[i]);
        assert(p@.take(i + 1) =~= p@.take(i as int).push(p@[i as int]));
        i += 1;
    }
    assert(p@.take(p@.len() as int) =~= p@);
}

/// Whether `a` and `b` hold the same characters.
pub fn chars_eq(a: &[char], b: &[char]) -> (r: bool)
    ensures
        r == (a@ == b@),
{
    if a.len() != b.len() {
        return false;
    }
    let mut i: usize = 0;
    while i < a.len()
        invariant
            i <= a@.len(),
            a@.len() == b@.len(),
            forall|j: int| 0 <= j < i ==> a@[j] == b@[j],
        decreases a@.len() - i,
    {
        if a[i] != b[i] {
            return false;
        }
        i += 1;
    }
    assert(a@ =~= b@);
    true
}

/// Whether `v[lo..hi]` begins with `p`.
pub fn starts_with_at(v: &[char], lo: usize, hi: usize, p: &[char]) -> (r: bool)
    requires
        lo <= hi <= v@.len(),
    ensures
        r == starts_with(v@.subrange(lo as int, hi as int), p@),
{
    if p.len() > hi - lo {
        return false;
    }
    let mut i: usize = 0;
    while i < p.len()
        invariant
            i <= p@.len(),
            lo + p@.len() <= hi <= v@.len(),
            forall|j: int| 0 <= j < i ==> v@[lo + j] == p@[j],
        decreases p@.len() - i,
    {
        if v[lo + i] != p[i] {
            assert(v@.subrange(lo as int, hi as int).take(p@.len() as int)[i as int] != p@[i as int]);
            return false;
        }
        i += 1;
    }
    assert(v@.subrange(lo as int, hi as int).take(p@.len() as int) =~= p@);
    true
}

/// Whether `v` ends with `c`.
pub fn ends_with_char(v: &[char], c: char) -> (r: bool)
    ensures
        r == (v@.len() > 0 && v@.last() == c),
{
    v.len() > 0 && v[v.len() - 1] == c
}

/// Whether `v` holds `c`.
pub fn contains_char(v: &[char], c: char) -> (r: bool)
    ensures
        r == v@.contains(c),
{
    let mut i: usize = 0;
    while i < v.len()
        invariant
            i <= v@.len(),
            forall|j: int| 0 <= j < i ==> v@[j] != c,
        decreases v@.len() - i,
    {
        if v[i] == c {
            return true;
        }
        i += 1;
    }
    false
}

/// Whether `v` holds `p` as a contiguous piece.
pub fn contains_chars(v: &[char], p: &[char]) -> (r: bool)
    ensures
        r == contains_seq(v@, p@),
{
    if p.len() > v.len() {
        return false;
    }
    let last = v.len() - p.len();
    let mut i: usize = 0;
    loop
        invariant
            p@.len() <= v@.len(),
            last == v@.len() - p@.len(),
            i <= last,
            forall|j: int| 0 <= j < i ==> #[trigger] v@.subrange(j, j + p@.len()) != p@,
        decreases last - i,
    {
        assert(v@.subrange(i as int, v@.len() as int).take(p@.len() as int) =~= v@.subrange(
            i as int,
            i + p@.len(),
        ));
        if starts_with_at(v, i, v.len(), p) {
            return true;
        }
        if i == last {
            return false;
        }
        i += 1;
    }
}

/// The index of the first `c` in `v[lo..hi]`, or `hi`.
pub fn find_char(v: &[char], lo: usize, hi: usize, c: char) -> (r: usize)
    requires
        lo <= hi <= v@.len(),
    ensures
        lo <= r <= hi,
        r - lo == lead(v@.subrange(lo as int, hi as int), CharClass::Except(c)),
        forall|j: int| lo <= j < r ==> v@[j] != c,
        r < hi ==> v@[r as int] == c,
{
    let mut j = lo;
    while j < hi && v[j] != c
        invariant
            lo <= j <= hi <= v@.len(),
            forall|i: int| lo <= i < j ==> v@[i] != c,
        decreases hi - j,
    {
        j += 1;
    }
    proof {
        let s = v@.subrange(lo as int, hi as int);
        assert forall|i: int| 0 <= i < j - lo implies in_class(#[trigger] s[i], CharClass::Except(c)) by {
            assert(s[i] == v@[lo + i]);
        }
        if j < hi {
            assert(s[j - lo] == v@[j as int]);
        }
        lemma_lead_is(s, CharClass::Except(c), j - lo);
    }
    j
}

/// The lines of `v`, as `str::lines` splits them.
pub fn lines_of(v: &[char]) -> (r: Vec<Vec<char>>)
    ensures
        views(r@) == lines(v@),
{
    let mut out: Vec<Vec<char>> = Vec::new();
    let mut i: usize = 0;
    assert(v@.skip(0) =~= v@);
    while i < v.len()
        invariant
            i <= v@.len(),
            views(out@) + lines(v@.skip(i as int)) == lines(v@),
        decreases v@.len() - i,
    {
        let j = find_char(v, i, v.len(), '\n');
        let ghost s = v@.skip(i as int);
        let ghost prev = out@;
        assert(s =~= v@.subrange(i as int, v@.len() as int));
        if j < v.len() {
            let e = if j > i && v[j - 1] == '\r' {
                j - 1
            } else {
                j
            };
            let line = slice_chars(v, i, e);
            proof {
                assert(s.take(j - i) =~= v@.subrange(i as int, j as int));
                assert(strip_cr(s.take(j - i)) =~= line@);
                assert(s.skip(j - i + 1) =~= v@.skip(j + 1));
                assert(lines(s) == seq![line@] + lines(v@.skip(j + 1)));
            }
            out.push(line);
            assert(views(out@) =~= views(prev).push(line@));
            assert(views(out@) + lines(v@.skip(j + 1)) =~= views(prev) + lines(s));
            i = j + 1;
        } else {
            let line = slice_chars(v, i, v.len());
            proof {
                assert(lines(s) == seq![s]);
                assert(v@.skip(v@.len() as int) =~= Seq::<char>::empty());
            }
            out.push(line);
            assert(views(out@) =~= views(prev).push(line@));
            assert(views(out@) + lines(v@.skip(v@.len() as int)) =~= views(prev) + lines(s));
            i = v.len();
        }
    }
    assert(v@.skip(v@.len() as int) =~= Seq::<char>::empty());
    out
}

/// The whitespace-separated words of `v[lo..hi]`.
pub fn words_of(v: &[char], lo: usize, hi: usize) -> (r: Vec<Vec<char>>)
    requires
        lo <= hi <= v@.len(),
    ensures
        views(r@) == words(v@.subrange(lo as int, hi as int)),
{
    let mut out: Vec<Vec<char>> = Vec::new();
    let mut i = lo;
    loop
        invariant
            lo <= i <= hi <= v@.len(),
            views(out@) + words(v@.subrange(i as int, hi as int)) == words(
                v@.subrange(lo as int, hi as int),
            ),
        decreases hi - i,
    {
        let ghost s = v@.subrange(i as int, hi as int);
        let ghost prev = out@;
        let mut a = i;
        while a < hi && is_whitespace(v[a])
            invariant
                i <= a <= hi <= v@.len(),
                forall|k: int| i <= k < a ==> spec_is_whitespace(#[trigger] v@[k]),
            decreases hi - a,
        {
            a += 1;
        }
        proof {
            assert forall|k: int| 0 <= k < a - i implies in_class(
                #[trigger] s[k],
                CharClass::Whitespace,
            ) by {
                assert(s[k] == v@[i + k]);
            }
            if a < hi {
                assert(s[a - i] == v@[a as int]);
            }
            lemma_lead_is(s, CharClass::Whitespace, a - i);
            assert(trim_start_by(s, CharClass::Whitespace) =~= v@.subrange(a as int, hi as int));
        }
        if a == hi {
            return out;
        }
        let mut b = a;
        while b < hi && !is_whitespace(v[b])
            invariant
                a <= b <= hi <= v@.len(),
                forall|k: int| a <= k < b ==> !spec_is_whitespace(#[trigger] v@[k]),
            decreases hi - b,
        {
            b += 1;
        }
        let ghost t = v@.subrange(a as int, hi as int);
        proof {
            assert forall|k: int| 0 <= k < b - a implies in_class(
                #[trigger] t[k],
                CharClass::NonWhitespace,
            ) by {
                assert(t[k] == v@[a + k]);
            }
            if b < hi {
                assert(t[b - a] == v@[b as int]);
            }
            lemma_lead_is(t, CharClass::NonWhitespace, b - a);
            assert(t.take(b - a) =~= v@.subrange(a as int, b as int));
            assert(t.skip(b - a) =~= v@.subrange(b as int, hi as int));
        }
        let w = slice_chars(v, a, b);
        out.push(w);
        assert(views(out@) =~= views(prev).push(w@));
        assert(views(out@) + words(v@.subrange(b as int, hi as int)) =~= views(prev) + words(s));
        i = b;
    }
}

/// The start, within `v[lo..hi]`, of what remains after removing every leading copy of `p`.
pub fn trim_start_matches_at(v: &[char], lo: usize, hi: usize, p: &[char]) -> (r: usize)
    requires
        lo <= hi <= v@.len(),
    ensures
        lo <= r <= hi,
        v@.subrange(r as int, hi as int) == trim_start_matches(
            v@.subrange(lo as int, hi as int),
            p@,
        ),
{
    if p.len() == 0 {
        return lo;
    }
    let mut i = lo;
    while starts_with_at(v, i, hi, p)
        invariant
            lo <= i <= hi <= v@.len(),
            p@.len() > 0,
            trim_start_matches(v@.subrange(i as int, hi as int), p@) == trim_start_matches(
                v@.subrange(lo as int, hi as int),
                p@,
            ),
        decreases hi - i,
    {
        assert(v@.subrange(i as int, hi as int).skip(p@.len() as int) =~= v@.subrange(
            i + p@.len(),
            hi as int,
        ));
        i = i + p.len();
    }
    i
}

/// The last piece of `v[lo..hi]` split at `::`, as a range of `v`.
pub fn last_segment_at(v: &[char], lo: usize, hi: usize) -> (r: (usize, usize))
    requires
        lo <= hi <= v@.len(),
    ensures
        lo <= r.0 <= r.1 == hi,
        v@.subrange(r.0 as int, hi as int) == last_segment(v@.subrange(lo as int, hi as int)),
{
    let mut seg = lo;
    let mut j = lo;
    while j < hi && j + 1 < hi
        invariant
            lo <= seg <= j <= hi <= v@.len(),
            last_segment(v@.subrange(seg as int, hi as int)) == last_segment(
                v@.subrange(lo as int, hi as int),
            ),
            forall|k: int|
                seg <= k < j ==> k + 1 < hi && !(#[trigger] v@[k] == ':' && v@[k + 1] == ':'),
        decreases hi - j,
    {
        let ghost s = v@.subrange(seg as int, hi as int);
        if v[j] == ':' && v[j + 1] == ':' {
            proof {
                assert(colons_at(s, j - seg));
                lemma_first_colons_is(s, j - seg);
                assert(s.skip(j - seg + 2) =~= v@.subrange(j + 2, hi as int));
            }
            seg = j + 2;
            j = j + 2;
        } else {
            j = j + 1;
        }
    }
    proof {
        let s = v@.subrange(seg as int, hi as int);
        assert forall|k: int| 0 <= k < s.len() implies !colons_at(s, k) by {
            if k < j - seg {
                assert(!(v@[seg + k] == ':' && v@[seg + k + 1] == ':'));
            }
        }
        lemma_first_colons_is(s, s.len() as int);
    }
    (seg, hi)
}

/// Whether `v` holds exactly the characters of `lit`.
pub fn is_lit(v: &[char], lit: &str) -> (r: bool)
    ensures
        r == (v@ == lit@),
{
    let l = chars_of(lit);
    chars_eq(v, l.as_slice())
}

/// The `Some` values of `s`, in order.
pub open spec fn filter_some<A>(s: Seq<Option<A>>) -> Seq<A>
    decreases s.len(),
{
    if s.len() == 0 {
        seq![]
    } else {
        filter_some(s.drop_last()) + match s.last() {
            Some(x) => seq![x],
            None => seq![],
        }
    }
}

/// Each value that `filter_some` keeps comes from a `Some` of the input, and it keeps no
/// more values than the input has.
pub proof fn lemma_filter_some_elements<A>(s: Seq<Option<A>>)
    ensures
        filter_some(s).len() <= s.len(),
        forall|m: int|
            0 <= m < filter_some(s).len() ==> exists|j: int|
                0 <= j < s.len() && s[j] == Some(#[trigger] filter_some(s)[m]),
    decreases s.len(),
{
    if s.len() > 0 {
        let p = s.drop_last();
        lemma_filter_some_elements(p);
        let f = filter_some(s);
        let fp = filter_some(p);
        assert forall|m: int| 0 <= m < f.len() implies exists|j: int|
            0 <= j < s.len() && s[j] == Some(#[trigger] f[m]) by {
            if m < fp.len() {
                assert(f[m] == fp[m]);
                let j = choose|j: int| 0 <= j < p.len() && p[j] == Some(#[trigger] fp[m]);
                assert(s[j] == p[j]);
            } else {
                assert(s[s.len() - 1] == Some(f[m]));
            }
        }
    }
}

/// `filter_some` over a `None` followed by `t` is `filter_some` over `t`.
pub proof fn lemma_filter_some_skip_none<A>(t: Seq<Option<A>>)
    ensures
        filter_some(seq![None] + t) == filter_some(t),
    decreases t.len(),
{
    if t.len() == 0 {
        let x = seq![None] + t;
        assert(x.drop_last() =~= Seq::<Option<A>>::empty());
        assert(filter_some(x.drop_last()) =~= Seq::<A>::empty());
        assert(filter_some(x) =~= Seq::<A>::empty());
    } else {
        let x = seq![None] + t;
        lemma_filter_some_skip_none(t.drop_last());
        assert(x.drop_last() =~= seq![None] + t.drop_last());
        assert(x.last() == t.last());
        assert(filter_some(x) =~= filter_some(t));
    }
}

/// Two sequences of options that are `Some` at the same places, with related values there,
/// keep as many values under `filter_some`, pairwise related.
pub proof fn lemma_filter_some_related<A, B>(s: Seq<Option<A>>, t: Seq<Option<B>>, rel: spec_fn(A, B) -> bool)
    requires
        s.len() == t.len(),
        forall|i: int| 0 <= i < s.len() ==> (#[trigger] s[i] is Some <==> t[i] is Some),
        forall|i: int| 0 <= i < s.len() && #[trigger] s[i] is Some ==> rel(s[i]->0, t[i]->0),
    ensures
        filter_some(s).len() == filter_some(t).len(),
        forall|m: int| 0 <= m < filter_some(s).len() ==> rel(#[trigger] filter_some(s)[m], filter_some(t)[m]),
    decreases s.len(),
{
    if s.len() > 0 {
        let sp = s.drop_last();
        let tp = t.drop_last();
        assert forall|i: int| 0 <= i < sp.len() implies (#[trigger] sp[i] is Some <==> tp[i] is Some) by {
            assert(sp[i] == s[i]);
            assert(tp[i] == t[i]);
        }
        assert forall|i: int| 0 <= i < sp.len() && #[trigger] sp[i] is Some implies rel(sp[i]->0, tp[i]->0) by {
            assert(sp[i] == s[i]);
            assert(tp[i] == t[i]);
        }
        lemma_filter_some_related(sp, tp, rel);
        let fs = filter_some(s);
        let ft = filter_some(t);
        let fsp = filter_some(sp);
        let ftp = filter_some(tp);
        assert(s[s.len() - 1] is Some <==> t[t.len() - 1] is Some);
        assert forall|m: int| 0 <= m < fs.len() implies rel(#[trigger] fs[m], ft[m]) by {
            if m < fsp.len() {
                assert(fs[m] == fsp[m]);
                assert(ft[m] == ftp[m]);
            } else {
                assert(s[s.len() - 1] is Some);
                assert(rel(s[s.len() - 1]->0, t[t.len() - 1]->0));
            }
        }
    }
}

/// `lines` yields at most one line per character.
pub proof fn lemma_lines_len(s: Seq<char>)
    ensures
        lines(s).len() <= s.len(),
    decreases s.len(),
{
    if s.len() > 0 {
        let k = lead(s, CharClass::Except('\n'));
        lemma_lead_bounds(s, CharClass::Except('\n'));
        if k < s.len() {
            lemma_lines_len(s.skip(k + 1 as int));
        }
    }
}

/// `String::from_utf8`: the text the bytes encode, when they are valid UTF-8.
#[verifier::external_body]
pub(crate) fn utf8_string(bytes: Vec<u8>) -> (r: Option<String>)
    ensures
        r is Some <==> vstd::utf8::valid_utf8(bytes@),
        r matches Some(s) ==> vstd::utf8::encode_utf8(s@) == bytes@,
{
    String::from_utf8(bytes).ok()
}

} // verus!
