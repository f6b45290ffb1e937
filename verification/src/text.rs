//! Character-sequence helpers shared by the whole library.
//!
//! Strings are handled as `Vec<char>` inside the library; their view is the
//! `Seq<char>` that `String`'s and `str`'s views also use.
use vstd::prelude::*;

verus! {

/// `char::is_whitespace`: the Unicode `White_Space` property.
pub open spec fn is_ws(c: char) -> bool {
    let u = c as u32;
    ||| 0x9 <= u <= 0xD
    ||| u == 0x20
    ||| u == 0x85
    ||| u == 0xA0
    ||| u == 0x1680
    ||| 0x2000 <= u <= 0x200A
    ||| u == 0x2028
    ||| u == 0x2029
    ||| u == 0x202F
    ||| u == 0x205F
    ||| u == 0x3000
}

/// `char::is_control`: general category `Cc`.
pub open spec fn is_ctrl(c: char) -> bool {
    let u = c as u32;
    u <= 0x1F || (0x7F <= u && u <= 0x9F)
}

pub open spec fn is_ascii_char(c: char) -> bool {
    (c as u32) < 0x80
}

pub open spec fn is_ascii_upper(c: char) -> bool {
    'A' <= c && c <= 'Z'
}

pub open spec fn is_ascii_digit(c: char) -> bool {
    '0' <= c && c <= '9'
}

/// `char::to_ascii_lowercase`.
pub open spec fn lower_char(c: char) -> char {
    if is_ascii_upper(c) { ((c as u32) + 32) as char } else { c }
}

/// `str::to_ascii_lowercase`.
pub open spec fn ascii_lower(s: Seq<char>) -> Seq<char> {
    s.map_values(|c: char| lower_char(c))
}

/// `s` without its longest prefix of characters satisfying `p`.
pub open spec fn drop_lead(s: Seq<char>, p: spec_fn(char) -> bool) -> Seq<char>
    decreases s.len(),
{
    if s.len() > 0 && p(s[0]) {
        drop_lead(s.drop_first(), p)
    } else {
        s
    }
}

/// `s` without its longest suffix of characters satisfying `p`.
pub open spec fn drop_trail(s: Seq<char>, p: spec_fn(char) -> bool) -> Seq<char>
    decreases s.len(),
{
    if s.len() > 0 && p(s.last()) {
        drop_trail(s.drop_last(), p)
    } else {
        s
    }
}

/// `str::trim`: without leading and trailing white space.
pub open spec fn trim(s: Seq<char>) -> Seq<char> {
    drop_trail(drop_lead(s, |c: char| is_ws(c)), |c: char| is_ws(c))
}

/// `pat` occurs in `s` starting at index `i`.
pub open spec fn occurs_at(s: Seq<char>, pat: Seq<char>, i: int) -> bool {
    0 <= i && i + pat.len() <= s.len() && s.subrange(i, i + pat.len()) == pat
}

/// `str::contains` for a string pattern.
pub open spec fn contains(s: Seq<char>, pat: Seq<char>) -> bool {
    exists|i: int| occurs_at(s, pat, i)
}

pub fn is_whitespace(c: char) -> (r: bool)
    ensures
        r == is_ws(c),
{
    let u = c as u32;
    (0x9 <= u && u <= 0xD) || u == 0x20 || u == 0x85 || u == 0xA0 || u == 0x1680 || (0x2000 <= u
        && u <= 0x200A) || u == 0x2028 || u == 0x2029 || u == 0x202F || u == 0x205F || u == 0x3000
}

pub fn is_control(c: char) -> (r: bool)
    ensures
        r == is_ctrl(c),
{
    let u = c as u32;
    u <= 0x1F || (0x7F <= u && u <= 0x9F)
}

pub fn to_lower_char(c: char) -> (r: char)
    ensures
        r == lower_char(c),
{
    if 'A' <= c && c <= 'Z' {
        let b: u8 = c as u8;
        assert(b as u32 == c as u32);
        (b + 32) as char
    } else {
        c
    }
}

/// The characters of `s`, in order.
pub fn chars_of(s: &str) -> (r: Vec<char>)
    ensures
        r@ == s@,
{
    let n = s.unicode_len();
    let mut r: Vec<char> = Vec::new();
    let mut i: usize = 0;
    while i < n
        invariant
            n == s@.len(),
            i <= n,
            r@ == s@.subrange(0, i as int),
        decreases n - i,
    {
        r.push(s.get_char(i));
        i = i + 1;
    }
    r
}

/// Builds a `String` from characters (`FromIterator<char> for String`).
#[verifier::external_body]
pub(crate) fn string_from_chars(v: &Vec<char>) -> (r: String)
    ensures
        r@ == v@,
{
    v.iter().collect()
}

/// Compares characters with a string.
pub fn eq_str(v: &Vec<char>, s: &str) -> (r: bool)
    ensures
        r == (v@ == s@),
{
    let n = s.unicode_len();
    if v.len() != n {
        return false;
    }
    let mut i: usize = 0;
    while i < n
        invariant
            n == s@.len(),
            n == v@.len(),
            i <= n,
            forall|j: int| 0 <= j < i ==> v@[j] == s@[j],
        decreases n - i,
    {
        if v[i] != s.get_char(i) {
            return false;
        }
        i = i + 1;
    }
    assert(v@ =~= s@);
    true
}

/// Compares two character sequences.
pub fn eq_chars(a: &Vec<char>, b: &Vec<char>) -> (r: bool)
    ensures
        r == (a@ == b@),
{
    if a.len() != b.len() {
        return false;
    }
    let mut i: usize = 0;
    while i < a.len()
        invariant
            a.len() == b.len(),
            i <= a.len(),
            forall|j: int| 0 <= j < i ==> a@[j] == b@[j],
        decreases a.len() - i,
    {
        if a[i] != b[i] {
            return false;
        }
        i = i + 1;
    }
    assert(a@ =~= b@);
    true
}

/// The characters `s[lo..hi]`.
pub fn slice_chars(s: &Vec<char>, lo: usize, hi: usize) -> (r: Vec<char>)
    requires
        lo <= hi <= s.len(),
    ensures
        r@ == s@.subrange(lo as int, hi as int),
{
    let mut r: Vec<char> = Vec::new();
    let mut i: usize = lo;
    while i < hi
        invariant
            lo <= i <= hi <= s.len(),
            r@ == s@.subrange(lo as int, i as int),
        decreases hi - i,
    {
        r.push(s[i]);
        i = i + 1;
    }
    r
}

/// Appends `b` to `a`.
pub fn push_all(a: &mut Vec<char>, b: &Vec<char>)
    ensures
        final(a)@ == old(a)@ + b@,
{
    let mut i: usize = 0;
    while i < b.len()
        invariant
            i <= b.len(),
            a@ == old(a)@ + b@.subrange(0, i as int),
        decreases b.len() - i,
    {
        a.push(b[i]);
        i = i + 1;
    }
    assert(b@.subrange(0, b.len() as int) =~= b@);
}

/// Appends the characters of `s` to `a`.
pub fn push_str(a: &mut Vec<char>, s: &str)
    ensures
        final(a)@ == old(a)@ + s@,
{
    let v = chars_of(s);
    push_all(a, &v);
}

/// `str::to_ascii_lowercase`.
pub fn to_ascii_lowercase(s: &Vec<char>) -> (r: Vec<char>)
    ensures
        r@ == ascii_lower(s@),
{
    let mut r: Vec<char> = Vec::new();
    let mut i: usize = 0;
    while i < s.len()
        invariant
            i <= s.len(),
            r@ == ascii_lower(s@.subrange(0, i as int)),
        decreases s.len() - i,
    {
        let c = to_lower_char(s[i]);
        r.push(c);
        i = i + 1;
        assert(ascii_lower(s@.subrange(0, i as int)) =~= ascii_lower(s@.subrange(0, i - 1)).push(
            lower_char(s@[i - 1]),
        ));
    }
    assert(s@.subrange(0, s.len() as int) =~= s@);
    r
}

pub proof fn lemma_drop_lead(s: Seq<char>, p: spec_fn(char) -> bool, k: int)
    requires
        0 <= k <= s.len(),
        forall|j: int| 0 <= j < k ==> #[trigger] p(s[j]),
        k < s.len() ==> !p(s[k]),
    ensures
        drop_lead(s, p) == s.subrange(k, s.len() as int),
    decreases k,
{
    if k > 0 {
        assert(s.drop_first().subrange(k - 1, s.drop_first().len() as int) =~= s.subrange(
            k,
            s.len() as int,
        ));
        assert forall|j: int| 0 <= j < k - 1 implies #[trigger] p(s.drop_first()[j]) by {
            assert(s.drop_first()[j] == s[j + 1]);
        }
        if k - 1 < s.drop_first().len() {
            assert(s.drop_first()[k - 1] == s[k]);
        }
        assert(p(s[0]));
        lemma_drop_lead(s.drop_first(), p, k - 1);
    } else {
        assert(s.subrange(0, s.len() as int) =~= s);
    }
}

pub proof fn lemma_drop_trail(s: Seq<char>, p: spec_fn(char) -> bool, k: int)
    requires
        0 <= k <= s.len(),
        forall|j: int| k <= j < s.len() ==> #[trigger] p(s[j]),
        k > 0 ==> !p(s[k - 1]),
    ensures
        drop_trail(s, p) == s.subrange(0, k),
    decreases s.len() - k,
{
    if k < s.len() {
        assert(s.drop_last().subrange(0, k) =~= s.subrange(0, k));
        assert forall|j: int| k <= j < s.drop_last().len() implies #[trigger] p(
            s.drop_last()[j],
        ) by {
            assert(s.drop_last()[j] == s[j]);
        }
        if k > 0 {
            assert(s.drop_last()[k - 1] == s[k - 1]);
        }
        assert(p(s.last()));
        lemma_drop_trail(s.drop_last(), p, k);
    } else {
        assert(s.subrange(0, k) =~= s);
    }
}

/// Every character of `drop_lead(s, p)` is a character of `s`.
pub proof fn lemma_drop_lead_keeps(s: Seq<char>, p: spec_fn(char) -> bool, q: spec_fn(char) -> bool)
    requires
        forall|i: int| 0 <= i < s.len() ==> #[trigger] q(s[i]),
    ensures
        forall|i: int| 0 <= i < drop_lead(s, p).len() ==> #[trigger] q(drop_lead(s, p)[i]),
        drop_lead(s, p).len() <= s.len(),
    decreases s.len(),
{
    if s.len() > 0 && p(s[0]) {
        assert forall|i: int| 0 <= i < s.drop_first().len() implies #[trigger] q(s.drop_first()[i]) by {
            assert(s.drop_first()[i] == s[i + 1]);
        }
        lemma_drop_lead_keeps(s.drop_first(), p, q);
    }
}

/// Every character of `drop_trail(s, p)` is a character of `s`.
pub proof fn lemma_drop_trail_keeps(s: Seq<char>, p: spec_fn(char) -> bool, q: spec_fn(char) -> bool)
    requires
        forall|i: int| 0 <= i < s.len() ==> #[trigger] q(s[i]),
    ensures
        forall|i: int| 0 <= i < drop_trail(s, p).len() ==> #[trigger] q(drop_trail(s, p)[i]),
        drop_trail(s, p).len() <= s.len(),
    decreases s.len(),
{
    if s.len() > 0 && p(s.last()) {
        assert forall|i: int| 0 <= i < s.drop_last().len() implies #[trigger] q(s.drop_last()[i]) by {
            assert(s.drop_last()[i] == s[i]);
        }
        lemma_drop_trail_keeps(s.drop_last(), p, q);
    }
}

/// Strips `s[lo..hi]` given that exactly the characters outside it were dropped.
pub proof fn lemma_strip(s: Seq<char>, p: spec_fn(char) -> bool, lo: int, hi: int)
    requires
        0 <= lo <= hi <= s.len(),
        forall|j: int| 0 <= j < lo ==> #[trigger] p(s[j]),
        lo < s.len() ==> !p(s[lo]),
        forall|j: int| hi <= j < s.len() ==> #[trigger] p(s[j]),
        hi > lo ==> !p(s[hi - 1]),
    ensures
        drop_trail(drop_lead(s, p), p) == s.subrange(lo, hi),
{
    lemma_drop_lead(s, p, lo);
    let t = s.subrange(lo, s.len() as int);
    assert forall|j: int| hi - lo <= j < t.len() implies #[trigger] p(t[j]) by {
        assert(t[j] == s[j + lo]);
    }
    if hi > lo {
        assert(t[hi - lo - 1] == s[hi - 1]);
    }
    lemma_drop_trail(t, p, hi - lo);
    assert(t.subrange(0, hi - lo) =~= s.subrange(lo, hi));
}

/// What `drop_lead` leaves is a suffix that does not start with a dropped character.
pub proof fn lemma_drop_lead_first(s: Seq<char>, p: spec_fn(char) -> bool)
    ensures
        drop_lead(s, p).len() > 0 ==> !p(drop_lead(s, p)[0]),
        exists|k: int| 0 <= k <= s.len() && drop_lead(s, p) == #[trigger] s.subrange(k, s.len() as int),
    decreases s.len(),
{
    if s.len() > 0 && p(s[0]) {
        lemma_drop_lead_first(s.drop_first(), p);
        let k = choose|k: int| 0 <= k <= s.drop_first().len() && drop_lead(s.drop_first(), p)
            == #[trigger] s.drop_first().subrange(k, s.drop_first().len() as int);
        assert(s.drop_first().subrange(k, s.drop_first().len() as int) =~= s.subrange(k + 1, s.len() as int));
    } else {
        assert(s.subrange(0, s.len() as int) =~= s);
    }
}

/// What `drop_trail` leaves is a prefix that does not end with a dropped character.
pub proof fn lemma_drop_trail_last(s: Seq<char>, p: spec_fn(char) -> bool)
    ensures
        drop_trail(s, p).len() > 0 ==> !p(drop_trail(s, p).last()),
        exists|k: int| 0 <= k <= s.len() && drop_trail(s, p) == #[trigger] s.subrange(0, k),
    decreases s.len(),
{
    if s.len() > 0 && p(s.last()) {
        lemma_drop_trail_last(s.drop_last(), p);
        let k = choose|k: int| 0 <= k <= s.drop_last().len() && drop_trail(s.drop_last(), p)
            == #[trigger] s.drop_last().subrange(0, k);
        assert(s.drop_last().subrange(0, k) =~= s.subrange(0, k));
    } else {
        assert(s.subrange(0, s.len() as int) =~= s);
    }
}

/// A trimmed text neither starts nor ends with white space.
/// Trimmed text neither starts nor ends with white space.
pub proof fn lemma_trim_ends(s: Seq<char>)
    ensures
        trim(s).len() > 0 ==> !is_ws(trim(s)[0]) && !is_ws(trim(s).last()),
{
    let w = |c: char| is_ws(c);
    let l = drop_lead(s, w);
    lemma_drop_lead_first(s, w);
    lemma_drop_trail_last(l, w);
    let k = choose|k: int| 0 <= k <= l.len() && drop_trail(l, w) == #[trigger] l.subrange(0, k);
    if trim(s).len() > 0 {
        assert(trim(s)[0] == l[0]);
    }
}

/// Text that neither starts nor ends with white space is its own trim.
pub proof fn lemma_trim_of_trimmed(s: Seq<char>)
    requires
        s.len() > 0 ==> !is_ws(s[0]) && !is_ws(s.last()),
    ensures
        trim(s) == s,
{
    lemma_strip(s, |c: char| is_ws(c), 0, s.len() as int);
    assert(s.subrange(0, s.len() as int) =~= s);
}

/// Trimming twice is trimming once.
pub proof fn lemma_trim_idempotent(s: Seq<char>)
    ensures
        trim(trim(s)) == trim(s),
{
    lemma_trim_ends(s);
    lemma_trim_of_trimmed(trim(s));
}

/// `str::trim`: drops leading and trailing Unicode white space.
pub fn trim_chars(s: &Vec<char>) -> (r: Vec<char>)
    ensures
        r@ == trim(s@),
{
    let ghost p = |c: char| is_ws(c);
    let n = s.len();
    let mut lo: usize = 0;
    while lo < n && is_whitespace(s[lo])
        invariant
            lo <= n == s.len(),
            forall|j: int| 0 <= j < lo ==> #[trigger] is_ws(s@[j]),
        decreases n - lo,
    {
        lo = lo + 1;
    }
    let mut hi: usize = n;
    while hi > lo && is_whitespace(s[hi - 1])
        invariant
            lo <= hi <= n == s.len(),
            forall|j: int| hi <= j < n ==> #[trigger] is_ws(s@[j]),
        decreases hi,
    {
        hi = hi - 1;
    }
    proof {
        lemma_strip(s@, p, lo as int, hi as int);
    }
    slice_chars(s, lo, hi)
}

/// Leading and trailing `'.'` removed (`trim_start_matches('.')` followed
/// by `trim_end_matches('.')`).
pub open spec fn trim_dots(s: Seq<char>) -> Seq<char> {
    drop_trail(drop_lead(s, |c: char| c == '.'), |c: char| c == '.')
}

pub fn trim_dots_chars(s: &Vec<char>) -> (r: Vec<char>)
    ensures
        r@ == trim_dots(s@),
{
    let ghost p = |c: char| c == '.';
    let n = s.len();
    let mut lo: usize = 0;
    while lo < n && s[lo] == '.'
        invariant
            lo <= n == s.len(),
            forall|j: int| 0 <= j < lo ==> #[trigger] s@[j] == '.',
        decreases n - lo,
    {
        lo = lo + 1;
    }
    let mut hi: usize = n;
    while hi > lo && s[hi - 1] == '.'
        invariant
            lo <= hi <= n == s.len(),
            forall|j: int| hi <= j < n ==> #[trigger] s@[j] == '.',
        decreases hi,
    {
        hi = hi - 1;
    }
    proof {
        assert forall|j: int| 0 <= j < lo implies #[trigger] p(s@[j]) by {}
        assert forall|j: int| hi <= j < n implies #[trigger] p(s@[j]) by {}
        lemma_strip(s@, p, lo as int, hi as int);
    }
    slice_chars(s, lo, hi)
}

/// Whether `pat` occurs in `s` at index `i`.
pub fn occurs_at_exec(s: &Vec<char>, pat: &Vec<char>, i: usize) -> (r: bool)
    ensures
        r == occurs_at(s@, pat@, i as int),
{
    if i > s.len() || pat.len() > s.len() - i {
        return false;
    }
    let mut j: usize = 0;
    while j < pat.len()
        invariant
            i + pat.len() <= s.len(),
            j <= pat.len(),
            forall|k: int| 0 <= k < j ==> s@[i + k] == pat@[k],
        decreases pat.len() - j,
    {
        if s[i + j] != pat[j] {
            assert(s@.subrange(i as int, i + pat.len())[j as int] != pat@[j as int]);
            return false;
        }
        j = j + 1;
    }
    assert(s@.subrange(i as int, i + pat.len()) =~= pat@);
    true
}

/// `str::contains`.
pub fn contains_chars(s: &Vec<char>, pat: &Vec<char>) -> (r: bool)
    ensures
        r == contains(s@, pat@),
{
    if pat.len() > s.len() {
        assert forall|k: int| !occurs_at(s@, pat@, k) by {}
        return false;
    }
    let last = s.len() - pat.len();
    let mut i: usize = 0;
    loop
        invariant
            i <= last,
            last + pat.len() == s.len(),
            forall|k: int| 0 <= k < i ==> !occurs_at(s@, pat@, k),
        ensures
            forall|k: int| 0 <= k <= last ==> !occurs_at(s@, pat@, k),
        decreases last - i,
    {
        if occurs_at_exec(s, pat, i) {
            return true;
        }
        if i == last {
            break;
        }
        i = i + 1;
    }
    assert forall|k: int| !occurs_at(s@, pat@, k) by {
        if 0 <= k && k <= last {
        }
    }
    false
}

} // verus!

verus! {

pub open spec fn digit_char(d: int) -> char {
    ((d + 48) as u32) as char
}

/// Decimal digits of `n` without leading zeros (`"0"` for zero).
pub open spec fn decimal(n: nat) -> Seq<char>
    decreases n,
{
    if n < 10 {
        seq![digit_char(n as int)]
    } else {
        decimal(n / 10).push(digit_char((n % 10) as int))
    }
}

/// Decimal digits of `n`: what `n.to_string()` gives for an unsigned number.
pub fn decimal_chars(n: u64) -> (r: Vec<char>)
    ensures
        r@ == decimal(n as nat),
    decreases n,
{
    if n < 10 {
        let mut v: Vec<char> = Vec::new();
        let b: u8 = n as u8;
        v.push((b + 48) as char);
        v
    } else {
        let mut v = decimal_chars(n / 10);
        let b: u8 = (n % 10) as u8;
        v.push((b + 48) as char);
        v
    }
}

/// What `n.to_string()` gives for a signed number.
pub open spec fn signed_decimal(n: int) -> Seq<char> {
    if n < 0 {
        seq!['-'] + decimal((-n) as nat)
    } else {
        decimal(n as nat)
    }
}

pub fn signed_decimal_chars(n: i64) -> (r: Vec<char>)
    ensures
        r@ == signed_decimal(n as int),
{
    if n < 0 {
        let m: u64 = if n == i64::MIN {
            9223372036854775808u64
        } else {
            (-n) as u64
        };
        let d = decimal_chars(m);
        let mut v: Vec<char> = Vec::new();
        v.push('-');
        push_all(&mut v, &d);
        v
    } else {
        decimal_chars(n as u64)
    }
}

/// What `format!("{:02}", n)` gives: the decimal form, zero-padded after the
/// sign to at least two characters.
pub open spec fn padded2(n: int) -> Seq<char> {
    if 0 <= n < 10 {
        seq!['0'] + decimal(n as nat)
    } else {
        signed_decimal(n)
    }
}

pub fn padded2_chars(n: i64) -> (r: Vec<char>)
    ensures
        r@ == padded2(n as int),
{
    if 0 <= n && n < 10 {
        let mut v: Vec<char> = Vec::new();
        v.push('0');
        let d = decimal_chars(n as u64);
        push_all(&mut v, &d);
        v
    } else {
        signed_decimal_chars(n)
    }
}

} // verus!

verus! {

/// Length in bytes of the UTF-8 encoding of `s` (what `str::len` gives).
pub open spec fn utf8_len(s: Seq<char>) -> nat {
    vstd::utf8::encode_utf8(s).len()
}

/// UTF-8 width of one character.
pub open spec fn char_width(c: char) -> nat {
    let u = c as u32;
    if u <= 0x7F {
        1
    } else if u <= 0x7FF {
        2
    } else if u <= 0xFFFF {
        3
    } else {
        4
    }
}

proof fn lemma_encode_scalar_len(c: char)
    ensures
        vstd::utf8::encode_scalar(c as u32).len() == char_width(c),
{
    vstd::utf8::char_is_scalar(c);
}

pub proof fn lemma_utf8_len_push(s: Seq<char>, c: char)
    ensures
        utf8_len(s.push(c)) == utf8_len(s) + char_width(c),
    decreases s.len(),
{
    lemma_encode_scalar_len(c);
    let t = s.push(c);
    assert(t.len() > 0);
    assert(vstd::utf8::encode_utf8(t) == vstd::utf8::encode_scalar(t[0] as u32) + vstd::utf8::encode_utf8(t.drop_first()));
    if s.len() == 0 {
        assert(t.drop_first() =~= Seq::<char>::empty());
        assert(t[0] == c);
        assert(vstd::utf8::encode_utf8(Seq::<char>::empty()).len() == 0);
    } else {
        assert(t.drop_first() =~= s.drop_first().push(c));
        assert(t[0] == s[0]);
        lemma_utf8_len_push(s.drop_first(), c);
        lemma_encode_scalar_len(s[0]);
        assert(vstd::utf8::encode_utf8(s) == vstd::utf8::encode_scalar(s[0] as u32) + vstd::utf8::encode_utf8(s.drop_first()));
    }
}

/// UTF-8 length of the first `k` characters grows with `k`.
pub proof fn lemma_utf8_prefix_monotone(s: Seq<char>, a: int, b: int)
    requires
        0 <= a <= b <= s.len(),
    ensures
        utf8_len(s.take(a)) + (b - a) <= utf8_len(s.take(b)),
    decreases b - a,
{
    if a < b {
        lemma_utf8_prefix_monotone(s, a, b - 1);
        assert(s.take(b) =~= s.take(b - 1).push(s[b - 1]));
        lemma_utf8_len_push(s.take(b - 1), s[b - 1]);
    }
}

/// Byte offset `b` falls between two characters of `s`.
pub open spec fn is_char_boundary(s: Seq<char>, b: int) -> bool {
    exists|k: int| 0 <= k <= s.len() && #[trigger] utf8_len(s.take(k)) == b
}

/// The character index at byte offset `b`.
pub open spec fn char_index_at(s: Seq<char>, b: int) -> int {
    choose|k: int| 0 <= k <= s.len() && #[trigger] utf8_len(s.take(k)) == b
}

pub proof fn lemma_char_index_unique(s: Seq<char>, k1: int, k2: int)
    requires
        0 <= k1 <= s.len(),
        0 <= k2 <= s.len(),
        utf8_len(s.take(k1)) == utf8_len(s.take(k2)),
    ensures
        k1 == k2,
{
    if k1 < k2 {
        lemma_utf8_prefix_monotone(s, k1, k2);
    } else if k2 < k1 {
        lemma_utf8_prefix_monotone(s, k2, k1);
    }
}

/// The character index at a byte offset, when the offset falls between two
/// characters.
pub fn char_index_of_byte(s: &Vec<char>, b: usize) -> (r: Option<usize>)
    ensures
        r matches Some(k) ==> k <= s.len() && utf8_len(s@.take(k as int)) == b && char_index_at(
            s@,
            b as int,
        ) == k,
        r is None ==> !is_char_boundary(s@, b as int),
{
    let mut k: usize = 0;
    let mut acc: usize = 0;
    assert(s@.take(0) =~= Seq::<char>::empty());
    while k < s.len() && acc < b
        invariant
            k <= s.len(),
            acc == utf8_len(s@.take(k as int)),
            acc <= b,
        decreases s.len() - k,
    {
        let c = s[k];
        let u = c as u32;
        let w: usize = if u <= 0x7F {
            1
        } else if u <= 0x7FF {
            2
        } else if u <= 0xFFFF {
            3
        } else {
            4
        };
        proof {
            assert(s@.take(k + 1) =~= s@.take(k as int).push(c));
            lemma_utf8_len_push(s@.take(k as int), c);
        }
        if w > b - acc {
            // the next character straddles `b`
            proof {
                assert forall|j: int| 0 <= j <= s@.len() implies #[trigger] utf8_len(s@.take(j)) != b by {
                    if j <= k {
                        lemma_utf8_prefix_monotone(s@, j, k as int);
                    } else {
                        lemma_utf8_prefix_monotone(s@, k + 1, j);
                    }
                }
            }
            return None;
        }
        acc = acc + w;
        k = k + 1;
    }
    if acc == b {
        proof {
            let j = char_index_at(s@, b as int);
            lemma_char_index_unique(s@, j, k as int);
        }
        Some(k)
    } else {
        proof {
            assert forall|j: int| 0 <= j <= s@.len() implies #[trigger] utf8_len(s@.take(j)) != b by {
                if j <= k {
                    lemma_utf8_prefix_monotone(s@, j, k as int);
                }
            }
        }
        None
    }
}

/// The characters between two byte offsets (`&s[a..b]`).
pub open spec fn byte_slice(s: Seq<char>, a: int, b: int) -> Seq<char> {
    s.subrange(char_index_at(s, a), char_index_at(s, b))
}

} // verus!

verus! {

/// Value of a string of ASCII digits.
pub open spec fn digits_value(s: Seq<char>) -> int
    decreases s.len(),
{
    if s.len() == 0 {
        0
    } else {
        digits_value(s.drop_last()) * 10 + (s.last() as int - 48)
    }
}

pub open spec fn all_ascii_digits(s: Seq<char>) -> bool {
    forall|i: int| 0 <= i < s.len() ==> is_ascii_digit(#[trigger] s[i])
}

/// What `str::parse::<i32>` gives: an optional `+` or `-` followed by at
/// least one ASCII digit, with the value in range.
pub open spec fn parse_i32(s: Seq<char>) -> Option<i32> {
    let neg = s.len() > 0 && s[0] == '-';
    let d = if s.len() > 0 && (s[0] == '-' || s[0] == '+') {
        s.drop_first()
    } else {
        s
    };
    if d.len() == 0 || !all_ascii_digits(d) {
        None
    } else {
        let v = if neg {
            -digits_value(d)
        } else {
            digits_value(d)
        };
        if i32::MIN <= v <= i32::MAX {
            Some(v as i32)
        } else {
            None
        }
    }
}

proof fn lemma_digits_value_grows(s: Seq<char>, k: int)
    requires
        0 <= k <= s.len(),
        all_ascii_digits(s),
    ensures
        digits_value(s.take(k)) <= digits_value(s),
        0 <= digits_value(s.take(k)),
    decreases s.len() - k,
{
    if k < s.len() {
        lemma_digits_value_grows(s, k + 1);
        assert(s.take(k + 1).drop_last() =~= s.take(k));
        assert(s.take(k + 1).last() == s[k]);
    } else {
        assert(s.take(k) =~= s);
        lemma_digits_nonneg(s);
    }
}

proof fn lemma_digits_nonneg(s: Seq<char>)
    requires
        all_ascii_digits(s),
    ensures
        0 <= digits_value(s),
    decreases s.len(),
{
    if s.len() > 0 {
        lemma_digits_nonneg(s.drop_last());
    }
}

/// `str::parse::<i32>`.
pub fn parse_i32_chars(s: &Vec<char>) -> (r: Option<i32>)
    ensures
        r == parse_i32(s@),
{
    let n = s.len();
    let neg = n > 0 && s[0] == '-';
    let start: usize = if n > 0 && (s[0] == '-' || s[0] == '+') {
        1
    } else {
        0
    };
    let ghost d = if s@.len() > 0 && (s@[0] == '-' || s@[0] == '+') {
        s@.drop_first()
    } else {
        s@
    };
    assert(d =~= s@.subrange(start as int, n as int));
    if start == n {
        return None;
    }
    let mut acc: i64 = 0;
    let mut i: usize = start;
    while i < n
        invariant
            start <= i <= n == s.len(),
            d =~= s@.subrange(start as int, n as int),
            d == (if s@.len() > 0 && (s@[0] == '-' || s@[0] == '+') {
                s@.drop_first()
            } else {
                s@
            }),
            neg == (s@.len() > 0 && s@[0] == '-'),
            d.len() > 0,
            all_ascii_digits(d.take(i - start)),
            acc == digits_value(d.take(i - start)),
            0 <= acc <= 2147483648,
        decreases n - i,
    {
        let c = s[i];
        if !('0' <= c && c <= '9') {
            proof {
                assert(d[i - start] == c);
                assert(!is_ascii_digit(d[i - start]));
            }
            return None;
        }
        proof {
            assert(d.take(i - start + 1).drop_last() =~= d.take(i - start));
            assert(d.take(i - start + 1).last() == c);
            assert forall|j: int| 0 <= j < d.take(i - start + 1).len() implies is_ascii_digit(#[trigger] d.take(i - start + 1)[j]) by {
                if j < i - start {
                    assert(d.take(i - start + 1)[j] == d.take(i - start)[j]);
                }
            }
        }
        let digit: i64 = (c as u32 - 48) as i64;
        acc = acc * 10 + digit;
        i = i + 1;
        assert(acc == digits_value(d.take(i - start)));
        if acc > 2147483648 {
            proof {
                assert(d.take(d.len() as int) =~= d);
                let k = i - start;
                if all_ascii_digits(d) {
                    lemma_digits_value_grows(d, k as int);
                    assert(digits_value(d) > 2147483648);
                }
            }
            return None;
        }
    }
    proof {
        assert(d.take(d.len() as int) =~= d);
    }
    let v: i64 = if neg {
        -acc
    } else {
        acc
    };
    if v < -2147483648 || v > 2147483647 {
        None
    } else {
        Some(v as i32)
    }
}

/// What `str::parse::<i64>` gives: an optional `+` or `-` followed by at
/// least one ASCII digit, with the value in range.
pub open spec fn parse_i64(s: Seq<char>) -> Option<i64> {
    let neg = s.len() > 0 && s[0] == '-';
    let d = if s.len() > 0 && (s[0] == '-' || s[0] == '+') {
        s.drop_first()
    } else {
        s
    };
    if d.len() == 0 || !all_ascii_digits(d) {
        None
    } else {
        let v = if neg {
            -digits_value(d)
        } else {
            digits_value(d)
        };
        if i64::MIN <= v <= i64::MAX {
            Some(v as i64)
        } else {
            None
        }
    }
}

/// `str::parse::<i64>`.
pub fn parse_i64_chars(s: &Vec<char>) -> (r: Option<i64>)
    ensures
        r == parse_i64(s@),
{
    let n = s.len();
    let neg = n > 0 && s[0] == '-';
    let start: usize = if n > 0 && (s[0] == '-' || s[0] == '+') {
        1
    } else {
        0
    };
    let ghost d = if s@.len() > 0 && (s@[0] == '-' || s@[0] == '+') {
        s@.drop_first()
    } else {
        s@
    };
    assert(d =~= s@.subrange(start as int, n as int));
    if start == n {
        return None;
    }
    let mut acc: i128 = 0;
    let mut i: usize = start;
    while i < n
        invariant
            start <= i <= n == s.len(),
            d =~= s@.subrange(start as int, n as int),
            d == (if s@.len() > 0 && (s@[0] == '-' || s@[0] == '+') {
                s@.drop_first()
            } else {
                s@
            }),
            neg == (s@.len() > 0 && s@[0] == '-'),
            d.len() > 0,
            all_ascii_digits(d.take(i - start)),
            acc == digits_value(d.take(i - start)),
            0 <= acc <= 9223372036854775808,
        decreases n - i,
    {
        let c = s[i];
        if !('0' <= c && c <= '9') {
            proof {
                assert(d[i - start] == c);
                assert(!is_ascii_digit(d[i - start]));
            }
            return None;
        }
        proof {
            assert(d.take(i - start + 1).drop_last() =~= d.take(i - start));
            assert(d.take(i - start + 1).last() == c);
            assert forall|j: int| 0 <= j < d.take(i - start + 1).len() implies is_ascii_digit(#[trigger] d.take(i - start + 1)[j]) by {
                if j < i - start {
                    assert(d.take(i - start + 1)[j] == d.take(i - start)[j]);
                }
            }
        }
        let digit: i128 = (c as u32 - 48) as i128;
        acc = acc * 10 + digit;
        i = i + 1;
        assert(acc == digits_value(d.take(i - start)));
        if acc > 9223372036854775808 {
            proof {
                assert(d.take(d.len() as int) =~= d);
                let k = i - start;
                if all_ascii_digits(d) {
                    lemma_digits_value_grows(d, k as int);
                    assert(digits_value(d) > 9223372036854775808);
                }
            }
            return None;
        }
    }
    proof {
        assert(d.take(d.len() as int) =~= d);
    }
    let v: i128 = if neg {
        -acc
    } else {
        acc
    };
    if v < -9223372036854775808 || v > 9223372036854775807 {
        None
    } else {
        Some(v as i64)
    }
}

} // verus!
