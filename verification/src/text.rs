//! Character-level helpers: trimming, searching, ordering and decimal rendering.
use vstd::prelude::*;

verus! {

/// Unicode `White_Space`, as `char::is_whitespace` decides it: the 25 code points U+0009 to
/// U+000D, U+0020, U+0085, U+00A0, U+1680, U+2000 to U+200A, U+2028, U+2029, U+202F, U+205F and
/// U+3000.
pub open spec fn unicode_white_space(c: char) -> bool {
    let u = c as u32;
    ||| 0x09 <= u <= 0x0D
    ||| u == 0x20
    ||| u == 0x85
    ||| u == 0xA0
    ||| u == 0x1680
    ||| 0x2000 <= u <= 0x200A
    ||| u == 0x2028
    ||| u == 0x2029
    ||| u == 0x202F
    ||| u == 0x205F
    ||| u == 0x3000
}

/// `char::is_whitespace`: the Unicode `White_Space` property of `c`.
#[verifier::external_body]
pub(crate) fn is_whitespace(c: char) -> (r: bool)
    ensures
        r == unicode_white_space(c),
{
    c.is_whitespace()
}

/// `String::push`: appends one character.
#[verifier::external_body]
pub(crate) fn push_char(s: &mut String, c: char)
    ensures
        final(s)@ == old(s)@.push(c),
{
    s.push(c)
}

/// The text of each string, in order.
pub open spec fn texts(v: Seq<String>) -> Seq<Seq<char>> {
    v.map_values(|s: String| s@)
}

/// The characters of `s`, in order.
pub fn chars_of(s: &str) -> (r: Vec<char>)
    ensures
        r@ == s@,
{
    let mut out: Vec<char> = Vec::new();
    for c in it: s.chars()
        invariant
            out@ == it.seq().take(it.index()),
            it.seq() == s@,
    {
        out.push(c);
    }
    out
}

/// The string made of `chars[from..to]`.
pub fn string_from_range(chars: &Vec<char>, from: usize, to: usize) -> (r: String)
    requires
        from <= to <= chars.len(),
    ensures
        r@ == chars@.subrange(from as int, to as int),
{
    let mut out = String::new();
    let mut i = from;
    while i < to
        invariant
            from <= i <= to <= chars.len(),
            out@ == chars@.subrange(from as int, i as int),
        decreases to - i,
    {
        push_char(&mut out, chars[i]);
        assert(chars@.subrange(from as int, i + 1) =~= chars@.subrange(from as int, i as int).push(
            chars@[i as int],
        ));
        i = i + 1;
    }
    out
}

/// `s` without its leading white space.
pub open spec fn trim_start(s: Seq<char>) -> Seq<char>
    decreases s.len(),
{
    if s.len() > 0 && unicode_white_space(s[0]) {
        trim_start(s.drop_first())
    } else {
        s
    }
}

/// `s` without its trailing white space.
pub open spec fn trim_end(s: Seq<char>) -> Seq<char>
    decreases s.len(),
{
    if s.len() > 0 && unicode_white_space(s.last()) {
        trim_end(s.drop_last())
    } else {
        s
    }
}

/// `s` without leading and trailing white space, as `str::trim` gives it.
pub open spec fn trimmed(s: Seq<char>) -> Seq<char> {
    trim_end(trim_start(s))
}

/// `str::trim`, returned as an owned string.
pub fn trim(s: &str) -> (r: String)
    ensures
        r@ == trimmed(s@),
{
    let chars = chars_of(s);
    let n = chars.len();
    let mut i: usize = 0;
    assert(chars@.subrange(0, n as int) =~= s@);
    while i < n && is_whitespace(chars[i])
        invariant
            i <= n == chars@.len(),
            chars@ == s@,
            trim_start(s@) == trim_start(chars@.subrange(i as int, n as int)),
        decreases n - i,
    {
        assert(chars@.subrange(i as int, n as int).drop_first() =~= chars@.subrange(
            i + 1,
            n as int,
        ));
        i = i + 1;
    }
    assert(trim_start(chars@.subrange(i as int, n as int)) == chars@.subrange(i as int, n as int));
    let mut j: usize = n;
    while j > i && is_whitespace(chars[j - 1])
        invariant
            i <= j <= n == chars@.len(),
            trim_end(chars@.subrange(i as int, n as int)) == trim_end(
                chars@.subrange(i as int, j as int),
            ),
        decreases j,
    {
        assert(chars@.subrange(i as int, j as int).drop_last() =~= chars@.subrange(
            i as int,
            j - 1,
        ));
        j = j - 1;
    }
    string_from_range(&chars, i, j)
}

/// Whether `needle` occurs in `hay` at position `at`.
pub open spec fn occurs_at(hay: Seq<char>, needle: Seq<char>, at: int) -> bool {
    0 <= at && at + needle.len() <= hay.len() && hay.subrange(at, at + needle.len()) == needle
}

/// Whether `needle` occurs anywhere in `hay`, as `str::contains` decides it.
pub open spec fn contains_text(hay: Seq<char>, needle: Seq<char>) -> bool {
    exists|at: int| occurs_at(hay, needle, at)
}

/// Whether `needle` occurs in `hay` at position `at` (characters compared one by one).
fn matches_at(hay: &Vec<char>, needle: &Vec<char>, at: usize) -> (r: bool)
    requires
        at + needle.len() <= hay.len(),
    ensures
        r == occurs_at(hay@, needle@, at as int),
{
    let mut k: usize = 0;
    while k < needle.len()
        invariant
            at + needle.len() <= hay.len(),
            k <= needle.len(),
            forall|m: int| 0 <= m < k ==> hay@[at + m] == needle@[m],
        decreases needle.len() - k,
    {
        if hay[at + k] != needle[k] {
            assert(hay@.subrange(at as int, at + needle.len())[k as int] != needle@[k as int]);
            return false;
        }
        k = k + 1;
    }
    assert(hay@.subrange(at as int, at + needle.len()) =~= needle@);
    true
}

/// `str::contains` on two strings.
pub fn contains(hay: &str, needle: &str) -> (r: bool)
    ensures
        r == contains_text(hay@, needle@),
{
    let h = chars_of(hay);
    let n = chars_of(needle);
    if n.len() > h.len() {
        return false;
    }
    let last = h.len() - n.len();
    let mut at: usize = 0;
    loop
        invariant
            last == h.len() - n.len(),
            at <= last,
            h@ == hay@,
            n@ == needle@,
            forall|p: int| 0 <= p < at ==> !occurs_at(hay@, needle@, p),
        decreases last - at,
    {
        if matches_at(&h, &n, at) {
            return true;
        }
        if at == last {
            return false;
        }
        at = at + 1;
    }
}

/// `str::starts_with` on two strings.
pub fn starts_with(s: &str, prefix: &str) -> (r: bool)
    ensures
        r == prefix@.is_prefix_of(s@),
{
    let h = chars_of(s);
    let p = chars_of(prefix);
    if p.len() > h.len() {
        return false;
    }
    let r = matches_at(&h, &p, 0);
    assert(r == occurs_at(s@, prefix@, 0));
    if r {
        assert forall|i: int| 0 <= i < prefix@.len() implies prefix@[i] == s@[i] by {
            assert(s@.subrange(0, prefix@.len() as int)[i] == s@[i]);
        }
    } else {
        assert(!prefix@.is_prefix_of(s@)) by {
            if prefix@.is_prefix_of(s@) {
                assert(s@.subrange(0, prefix@.len() as int) =~= prefix@);
            }
        }
    }
    r
}

/// Equality of two strings.
pub fn same_text(a: &str, b: &str) -> (r: bool)
    ensures
        r == (a@ == b@),
{
    let x = chars_of(a);
    let y = chars_of(b);
    if x.len() != y.len() {
        return false;
    }
    let r = matches_at(&x, &y, 0);
    if r {
        assert(a@ =~= b@) by {
            assert(a@.subrange(0, b@.len() as int) =~= a@);
        }
    } else {
        assert(a@ != b@) by {
            if a@ == b@ {
                assert(a@.subrange(0, b@.len() as int) =~= a@);
            }
        }
    }
    r
}

/// Lexicographic order on code sequences: a proper prefix comes first.
pub open spec fn codes_le(a: Seq<u32>, b: Seq<u32>) -> bool
    decreases a.len(),
{
    if a.len() == 0 {
        true
    } else if b.len() == 0 {
        false
    } else if a[0] < b[0] {
        true
    } else if a[0] > b[0] {
        false
    } else {
        codes_le(a.drop_first(), b.drop_first())
    }
}

/// Any two code sequences are ordered one way or the other.
pub proof fn lemma_codes_le_total(a: Seq<u32>, b: Seq<u32>)
    ensures
        codes_le(a, b) || codes_le(b, a),
    decreases a.len(),
{
    if a.len() > 0 && b.len() > 0 && a[0] == b[0] {
        lemma_codes_le_total(a.drop_first(), b.drop_first());
    }
}

/// The lexicographic order is transitive.
pub proof fn lemma_codes_le_transitive(a: Seq<u32>, b: Seq<u32>, c: Seq<u32>)
    requires
        codes_le(a, b),
        codes_le(b, c),
    ensures
        codes_le(a, c),
    decreases a.len(),
{
    if a.len() > 0 && b.len() > 0 && c.len() > 0 && a[0] == b[0] && b[0] == c[0] {
        lemma_codes_le_transitive(a.drop_first(), b.drop_first(), c.drop_first());
    }
}

/// Equal sequences are ordered both ways, and two sequences ordered both ways are equal.
pub proof fn lemma_codes_le_antisymmetric(a: Seq<u32>, b: Seq<u32>)
    ensures
        codes_le(a, a),
        codes_le(a, b) && codes_le(b, a) ==> a == b,
    decreases a.len(),
{
    if a.len() > 0 {
        lemma_codes_le_antisymmetric(a.drop_first(), b.drop_first());
        if b.len() > 0 && a[0] == b[0] && codes_le(a, b) && codes_le(b, a) {
            assert(a =~= seq![a[0]] + a.drop_first());
            assert(b =~= seq![b[0]] + b.drop_first());
        }
    }
}

proof fn lemma_codes_le_skip(a: Seq<u32>, b: Seq<u32>, i: int)
    requires
        0 <= i <= a.len(),
        i <= b.len(),
        forall|k: int| 0 <= k < i ==> a[k] == b[k],
    ensures
        codes_le(a, b) == codes_le(a.skip(i), b.skip(i)),
    decreases i,
{
    if i > 0 {
        lemma_codes_le_skip(a.drop_first(), b.drop_first(), i - 1);
        assert(a.drop_first().skip(i - 1) =~= a.skip(i));
        assert(b.drop_first().skip(i - 1) =~= b.skip(i));
    } else {
        assert(a.skip(0) =~= a);
        assert(b.skip(0) =~= b);
    }
}

/// Lexicographic comparison of two code sequences.
pub fn codes_le_exec(a: &Vec<u32>, b: &Vec<u32>) -> (r: bool)
    ensures
        r == codes_le(a@, b@),
{
    let mut i: usize = 0;
    while i < a.len() && i < b.len() && a[i] == b[i]
        invariant
            i <= a.len(),
            i <= b.len(),
            forall|k: int| 0 <= k < i ==> a@[k] == b@[k],
        decreases a.len() - i,
    {
        i = i + 1;
    }
    proof {
        lemma_codes_le_skip(a@, b@, i as int);
    }
    if i == a.len() {
        true
    } else if i == b.len() {
        false
    } else {
        a[i] < b[i]
    }
}

/// The code of each character.
pub open spec fn binary_codes(s: Seq<char>) -> Seq<u32> {
    s.map_values(|c: char| c as u32)
}

/// ASCII upper-case letters folded to lower case, every other code kept.
pub open spec fn fold_ascii(c: u32) -> u32 {
    if 65 <= c <= 90 {
        (c + 32) as u32
    } else {
        c
    }
}

/// The codes that a case-insensitive comparison of ASCII letters orders by.
pub open spec fn nocase_codes(s: Seq<char>) -> Seq<u32> {
    s.map_values(|c: char| fold_ascii(c as u32))
}

/// The code of each character of `s`.
pub fn binary_codes_of(s: &str) -> (r: Vec<u32>)
    ensures
        r@ == binary_codes(s@),
{
    let chars = chars_of(s);
    let mut out: Vec<u32> = Vec::new();
    let mut i: usize = 0;
    while i < chars.len()
        invariant
            chars@ == s@,
            i <= chars.len(),
            out@ == binary_codes(s@).take(i as int),
        decreases chars.len() - i,
    {
        out.push(chars[i] as u32);
        assert(binary_codes(s@).take(i + 1) =~= binary_codes(s@).take(i as int).push(
            chars[i as int] as u32,
        ));
        i = i + 1;
    }
    assert(binary_codes(s@).take(i as int) =~= binary_codes(s@));
    out
}

/// The case-folded code of each character of `s`.
pub fn nocase_codes_of(s: &str) -> (r: Vec<u32>)
    ensures
        r@ == nocase_codes(s@),
{
    let chars = chars_of(s);
    let mut out: Vec<u32> = Vec::new();
    let mut i: usize = 0;
    while i < chars.len()
        invariant
            chars@ == s@,
            i <= chars.len(),
            out@ == nocase_codes(s@).take(i as int),
        decreases chars.len() - i,
    {
        let c = chars[i] as u32;
        let folded = if 65 <= c && c <= 90 {
            c + 32
        } else {
            c
        };
        out.push(folded);
        assert(nocase_codes(s@).take(i + 1) =~= nocase_codes(s@).take(i as int).push(folded));
        i = i + 1;
    }
    assert(nocase_codes(s@).take(i as int) =~= nocase_codes(s@));
    out
}

/// The character of the decimal digit `d`.
pub open spec fn digit_char(d: nat) -> char {
    ((48 + d) as u8) as char
}

/// The decimal digits of `n`, most significant first.
pub open spec fn digits(n: nat) -> Seq<char>
    decreases n,
{
    if n < 10 {
        seq![digit_char(n)]
    } else {
        digits(n / 10).push(digit_char(n % 10))
    }
}

/// `n` in decimal, as `Display` renders an integer.
pub open spec fn decimal(n: int) -> Seq<char> {
    if n < 0 {
        seq!['-'] + digits((-n) as nat)
    } else {
        digits(n as nat)
    }
}

fn push_digits(s: &mut String, n: u64)
    ensures
        final(s)@ == old(s)@ + digits(n as nat),
    decreases n,
{
    if n >= 10 {
        push_digits(s, n / 10);
    }
    let b: u8 = 48 + (n % 10) as u8;
    push_char(s, b as char);
    assert(digit_char((n % 10) as nat) == b as char);
}

/// `n` in decimal.
pub fn decimal_string(n: i64) -> (r: String)
    ensures
        r@ == decimal(n as int),
{
    let mut s = String::new();
    if n < 0 {
        push_char(&mut s, '-');
        let magnitude: u64 = if n == i64::MIN {
            9223372036854775808u64
        } else {
            (-n) as u64
        };
        push_digits(&mut s, magnitude);
    } else {
        push_digits(&mut s, n as u64);
    }
    s
}

} // verus!
