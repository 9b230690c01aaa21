//! Character-level text model shared by the parsers and formatters.
//!
//! Every input string is handled as its sequence of Unicode scalar values
//! (`Seq<char>`), and every piece of output text is specified the same way.
use vstd::prelude::*;
use vstd::std_specs::iter::IteratorSpec;

verus! {

broadcast use vstd::string::group_string_axioms;

// ---------------------------------------------------------------------------
// Character classes
// ---------------------------------------------------------------------------

/// Unicode `White_Space`, the set that `char::is_whitespace` and `str::trim` use.
pub open spec fn is_ws(c: char) -> bool {
    let n = c as u32;
    ||| 0x09 <= n <= 0x0D
    ||| n == 0x20
    ||| n == 0x85
    ||| n == 0xA0
    ||| n == 0x1680
    ||| 0x2000 <= n <= 0x200A
    ||| n == 0x2028
    ||| n == 0x2029
    ||| n == 0x202F
    ||| n == 0x205F
    ||| n == 0x3000
}

pub open spec fn is_ascii_digit(c: char) -> bool {
    '0' <= c <= '9'
}

pub open spec fn is_ascii_alphanumeric(c: char) -> bool {
    ||| '0' <= c <= '9'
    ||| 'a' <= c <= 'z'
    ||| 'A' <= c <= 'Z'
}

/// Characters allowed in an invite code or a webhook token: ASCII letters,
/// digits, `-` and `_`.
pub open spec fn is_code_char(c: char) -> bool {
    is_ascii_alphanumeric(c) || c == '-' || c == '_'
}

/// A set of characters that the trimming and splitting helpers act on.
pub enum CharClass {
    Whitespace,
    Is(char),
    IsEither(char, char),
}

pub open spec fn in_class(c: char, k: CharClass) -> bool {
    match k {
        CharClass::Whitespace => is_ws(c),
        CharClass::Is(a) => c == a,
        CharClass::IsEither(a, b) => c == a || c == b,
    }
}

pub fn is_whitespace(c: char) -> (b: bool)
    ensures
        b == is_ws(c),
{
    let n = c as u32;
    (0x09 <= n && n <= 0x0D) || n == 0x20 || n == 0x85 || n == 0xA0 || n == 0x1680 || (0x2000
        <= n && n <= 0x200A) || n == 0x2028 || n == 0x2029 || n == 0x202F || n == 0x205F || n
        == 0x3000
}

pub fn is_digit(c: char) -> (b: bool)
    ensures
        b == is_ascii_digit(c),
{
    '0' <= c && c <= '9'
}

pub fn is_code(c: char) -> (b: bool)
    ensures
        b == is_code_char(c),
{
    ('0' <= c && c <= '9') || ('a' <= c && c <= 'z') || ('A' <= c && c <= 'Z') || c == '-' || c
        == '_'
}

pub fn matches_class(c: char, k: &CharClass) -> (b: bool)
    ensures
        b == in_class(c, *k),
{
    match k {
        CharClass::Whitespace => is_whitespace(c),
        CharClass::Is(a) => c == *a,
        CharClass::IsEither(a, b) => c == *a || c == *b,
    }
}

// ---------------------------------------------------------------------------
// Sequence operations
// ---------------------------------------------------------------------------

/// `s` without its leading characters of class `k`.
pub open spec fn skip_while(s: Seq<char>, k: CharClass) -> Seq<char>
    decreases s.len(),
{
    if s.len() > 0 && in_class(s[0], k) {
        skip_while(s.drop_first(), k)
    } else {
        s
    }
}

/// `s` without its trailing characters of class `k`.
pub open spec fn skip_last_while(s: Seq<char>, k: CharClass) -> Seq<char>
    decreases s.len(),
{
    if s.len() > 0 && in_class(s.last(), k) {
        skip_last_while(s.drop_last(), k)
    } else {
        s
    }
}

/// The longest prefix of `s` that holds no character of class `k`.
pub open spec fn take_until(s: Seq<char>, k: CharClass) -> Seq<char>
    decreases s.len(),
{
    if s.len() == 0 || in_class(s[0], k) {
        Seq::empty()
    } else {
        seq![s[0]] + take_until(s.drop_first(), k)
    }
}

/// What `str::trim` leaves of `s`.
pub open spec fn trim(s: Seq<char>) -> Seq<char> {
    skip_last_while(skip_while(s, CharClass::Whitespace), CharClass::Whitespace)
}

/// What `str::strip_prefix` gives.
pub open spec fn strip_prefix(s: Seq<char>, p: Seq<char>) -> Option<Seq<char>> {
    if p.len() <= s.len() && s.take(p.len() as int) == p {
        Some(s.skip(p.len() as int))
    } else {
        None
    }
}

/// Whether `p` occurs in `s` as a contiguous piece.
pub open spec fn contains(s: Seq<char>, p: Seq<char>) -> bool {
    exists|i: int| 0 <= i && i + p.len() <= s.len() && #[trigger] s.subrange(i, i + p.len()) == p
}

pub open spec fn all_digits(s: Seq<char>) -> bool {
    forall|i: int| 0 <= i < s.len() ==> is_ascii_digit(#[trigger] s[i])
}

pub open spec fn all_code_chars(s: Seq<char>) -> bool {
    forall|i: int| 0 <= i < s.len() ==> is_code_char(#[trigger] s[i])
}

pub proof fn lemma_skip_while(s: Seq<char>, k: CharClass, i: int)
    requires
        0 <= i <= s.len(),
        forall|j: int| 0 <= j < i ==> in_class(#[trigger] s[j], k),
        i == s.len() || !in_class(s[i], k),
    ensures
        skip_while(s, k) == s.skip(i),
    decreases i,
{
    if i > 0 {
        let t = s.drop_first();
        assert forall|j: int| 0 <= j < i - 1 implies in_class(#[trigger] t[j], k) by {
            assert(t[j] == s[j + 1]);
        }
        if i - 1 < t.len() {
            assert(t[i - 1] == s[i]);
        }
        lemma_skip_while(t, k, i - 1);
        assert(t.skip(i - 1) =~= s.skip(i));
    } else {
        assert(s.skip(0) =~= s);
    }
}

pub proof fn lemma_skip_last_while(s: Seq<char>, k: CharClass, i: int)
    requires
        0 <= i <= s.len(),
        forall|j: int| i <= j < s.len() ==> in_class(#[trigger] s[j], k),
        i == 0 || !in_class(s[i - 1], k),
    ensures
        skip_last_while(s, k) == s.take(i),
    decreases s.len() - i,
{
    if i < s.len() {
        let t = s.drop_last();
        assert forall|j: int| i <= j < t.len() implies in_class(#[trigger] t[j], k) by {
            assert(t[j] == s[j]);
        }
        if i > 0 {
            assert(t[i - 1] == s[i - 1]);
        }
        lemma_skip_last_while(t, k, i);
        assert(t.take(i) =~= s.take(i));
    } else {
        assert(s.take(i) =~= s);
    }
}

pub proof fn lemma_take_until(s: Seq<char>, k: CharClass, i: int)
    requires
        0 <= i <= s.len(),
        forall|j: int| 0 <= j < i ==> !in_class(#[trigger] s[j], k),
        i == s.len() || in_class(s[i], k),
    ensures
        take_until(s, k) == s.take(i),
    decreases i,
{
    if i > 0 {
        let t = s.drop_first();
        assert forall|j: int| 0 <= j < i - 1 implies !in_class(#[trigger] t[j], k) by {
            assert(t[j] == s[j + 1]);
        }
        if i - 1 < t.len() {
            assert(t[i - 1] == s[i]);
        }
        lemma_take_until(t, k, i - 1);
        assert(seq![s[0]] + t.take(i - 1) =~= s.take(i));
    } else {
        assert(s.take(0) =~= Seq::<char>::empty());
    }
}

/// `take_until` stops at the first character of the class, or at the end.
pub proof fn lemma_take_until_props(s: Seq<char>, k: CharClass)
    ensures
        take_until(s, k).len() <= s.len(),
        take_until(s, k) == s.take(take_until(s, k).len() as int),
        forall|j: int| 0 <= j < take_until(s, k).len() ==> !in_class(#[trigger] s[j], k),
        take_until(s, k).len() < s.len() ==> in_class(s[take_until(s, k).len() as int], k),
    decreases s.len(),
{
    if s.len() > 0 && !in_class(s[0], k) {
        let t = s.drop_first();
        lemma_take_until_props(t, k);
        let n = take_until(t, k).len() as int;
        assert(take_until(s, k) =~= s.take(n + 1));
        assert forall|j: int| 0 <= j < take_until(s, k).len() implies !in_class(#[trigger] s[j], k) by {
            if j > 0 {
                assert(s[j] == t[j - 1]);
            }
        }
        if n < t.len() {
            assert(s[n + 1] == t[n]);
        }
    } else {
        assert(s.take(0) =~= Seq::<char>::empty());
    }
}

proof fn lemma_skip_while_props(s: Seq<char>, k: CharClass)
    ensures
        skip_while(s, k).len() <= s.len(),
        skip_while(s, k) == s.skip(s.len() - skip_while(s, k).len()),
        forall|j: int| 0 <= j < s.len() - skip_while(s, k).len() ==> in_class(#[trigger] s[j], k),
        skip_while(s, k).len() > 0 ==> !in_class(skip_while(s, k)[0], k),
    decreases s.len(),
{
    if s.len() > 0 && in_class(s[0], k) {
        let t = s.drop_first();
        lemma_skip_while_props(t, k);
        let n = t.len() - skip_while(t, k).len();
        assert(t.skip(n) =~= s.skip(n + 1));
        assert forall|j: int| 0 <= j < s.len() - skip_while(s, k).len() implies in_class(#[trigger] s[j], k) by {
            if j > 0 {
                assert(s[j] == t[j - 1]);
            }
        }
    } else {
        assert(s.skip(0) =~= s);
    }
}

/// `s` without its trailing characters of class `k` is a prefix of `s`
/// followed only by such characters, and does not end with one.
pub proof fn lemma_skip_last_while_props(s: Seq<char>, k: CharClass)
    ensures
        skip_last_while(s, k).len() <= s.len(),
        skip_last_while(s, k) == s.take(skip_last_while(s, k).len() as int),
        forall|j: int| skip_last_while(s, k).len() <= j < s.len() ==> in_class(#[trigger] s[j], k),
        skip_last_while(s, k).len() > 0 ==> !in_class(skip_last_while(s, k).last(), k),
    decreases s.len(),
{
    if s.len() > 0 && in_class(s.last(), k) {
        let t = s.drop_last();
        lemma_skip_last_while_props(t, k);
        let m = skip_last_while(t, k).len();
        assert(t.take(m as int) =~= s.take(m as int));
        assert forall|j: int| m <= j < s.len() implies in_class(#[trigger] s[j], k) by {
            if j < t.len() {
                assert(s[j] == t[j]);
            }
        }
    } else {
        assert(s.take(s.len() as int) =~= s);
    }
}

/// Trimming removes exactly the surrounding whitespace: what is left is a
/// contiguous piece of `s` with only whitespace before and after it, and it
/// neither starts nor ends with whitespace.
pub proof fn lemma_trim_props(s: Seq<char>)
    ensures
        exists|a: int, b: int|
            0 <= a <= b <= s.len() && trim(s) == s.subrange(a, b) && (forall|i: int|
                0 <= i < a ==> is_ws(#[trigger] s[i])) && (forall|i: int|
                b <= i < s.len() ==> is_ws(#[trigger] s[i])),
        trim(s).len() > 0 ==> !is_ws(trim(s)[0]) && !is_ws(trim(s).last()),
{
    let w = CharClass::Whitespace;
    lemma_skip_while_props(s, w);
    let u = skip_while(s, w);
    let a = s.len() - u.len();
    lemma_skip_last_while_props(u, w);
    let m = skip_last_while(u, w).len();
    let b = a + m;
    assert(trim(s) =~= s.subrange(a, b));
    assert forall|i: int| 0 <= i < a implies is_ws(#[trigger] s[i]) by {
        assert(in_class(s[i], w));
    }
    assert forall|i: int| b <= i < s.len() implies is_ws(#[trigger] s[i]) by {
        assert(s[i] == u[i - a]);
        assert(in_class(u[i - a], w));
    }
    if trim(s).len() > 0 {
        assert(trim(s)[0] == u[0]);
        assert(!in_class(u[0], w));
        assert(!in_class(trim(s).last(), w));
    }
}

// ---------------------------------------------------------------------------
// Executable counterparts on `Vec<char>`
// ---------------------------------------------------------------------------

/// The characters of `s`, in order.
pub fn chars_of(s: &str) -> (v: Vec<char>)
    ensures
        v@ == s@,
{
    let mut v: Vec<char> = Vec::new();
    let mut it = s.chars();
    loop
        invariant
            it.obeys_prophetic_iter_laws(),
            it.decrease() is Some,
            v@ + it.remaining() == s@,
        decreases it.decrease()->0,
    {
        match it.next() {
            Some(c) => {
                v.push(c);
            },
            None => {
                return v;
            },
        }
    }
}

/// The characters `v[lo..hi]`.
pub fn sub_chars(v: &Vec<char>, lo: usize, hi: usize) -> (r: Vec<char>)
    requires
        lo <= hi <= v.len(),
    ensures
        r@ == v@.subrange(lo as int, hi as int),
{
    let mut r: Vec<char> = Vec::new();
    let mut i = lo;
    while i < hi
        invariant
            lo <= i <= hi <= v.len(),
            r@ == v@.subrange(lo as int, i as int),
        decreases hi - i,
    {
        r.push(v[i]);
        i += 1;
    }
    r
}

pub fn skip_class(v: &Vec<char>, k: &CharClass) -> (r: Vec<char>)
    ensures
        r@ == skip_while(v@, *k),
{
    let mut i: usize = 0;
    while i < v.len() && matches_class(v[i], k)
        invariant
            i <= v.len(),
            forall|j: int| 0 <= j < i ==> in_class(#[trigger] v@[j], *k),
        decreases v.len() - i,
    {
        i += 1;
    }
    proof {
        lemma_skip_while(v@, *k, i as int);
    }
    sub_chars(v, i, v.len())
}

pub fn skip_last_class(v: &Vec<char>, k: &CharClass) -> (r: Vec<char>)
    ensures
        r@ == skip_last_while(v@, *k),
{
    let mut i: usize = v.len();
    while i > 0 && matches_class(v[i - 1], k)
        invariant
            i <= v.len(),
            forall|j: int| i <= j < v.len() ==> in_class(#[trigger] v@[j], *k),
        decreases i,
    {
        i -= 1;
    }
    proof {
        lemma_skip_last_while(v@, *k, i as int);
    }
    sub_chars(v, 0, i)
}

pub fn take_until_class(v: &Vec<char>, k: &CharClass) -> (r: Vec<char>)
    ensures
        r@ == take_until(v@, *k),
{
    let mut i: usize = 0;
    while i < v.len() && !matches_class(v[i], k)
        invariant
            i <= v.len(),
            forall|j: int| 0 <= j < i ==> !in_class(#[trigger] v@[j], *k),
        decreases v.len() - i,
    {
        i += 1;
    }
    proof {
        lemma_take_until(v@, *k, i as int);
    }
    sub_chars(v, 0, i)
}

pub fn trim_chars(v: &Vec<char>) -> (r: Vec<char>)
    ensures
        r@ == trim(v@),
{
    let front = skip_class(v, &CharClass::Whitespace);
    skip_last_class(&front, &CharClass::Whitespace)
}

/// Whether `v[at..]` begins with `p`.
pub fn has_at(v: &Vec<char>, at: usize, p: &Vec<char>) -> (b: bool)
    requires
        at <= v.len(),
    ensures
        b == (at + p.len() <= v.len() && v@.subrange(at as int, at + p.len()) == p@),
{
    if p.len() > v.len() - at {
        return false;
    }
    let mut i: usize = 0;
    while i < p.len()
        invariant
            i <= p.len(),
            at + p.len() <= v.len(),
            forall|j: int| 0 <= j < i ==> v@[at + j] == #[trigger] p@[j],
        decreases p.len() - i,
    {
        if v[at + i] != p[i] {
            assert(v@.subrange(at as int, at + p.len())[i as int] != p@[i as int]);
            return false;
        }
        i += 1;
    }
    assert(v@.subrange(at as int, at + p.len()) =~= p@);
    true
}

pub fn strip_prefix_str(v: &Vec<char>, p: &str) -> (r: Option<Vec<char>>)
    ensures
        strip_prefix(v@, p@) matches Some(rest) ==> r matches Some(w) && w@ == rest,
        strip_prefix(v@, p@) is None ==> r is None,
{
    let pc = chars_of(p);
    if has_at(v, 0, &pc) {
        assert(v@.subrange(0, pc.len() as int) =~= v@.take(pc.len() as int));
        Some(sub_chars(v, pc.len(), v.len()))
    } else {
        assert(pc.len() <= v.len() ==> v@.subrange(0, pc.len() as int) =~= v@.take(
            pc.len() as int,
        ));
        None
    }
}

pub fn contains_str(v: &Vec<char>, p: &str) -> (b: bool)
    ensures
        b == contains(v@, p@),
{
    let pc = chars_of(p);
    if pc.len() > v.len() {
        return false;
    }
    if pc.len() == 0 {
        assert(v@.subrange(0, 0 + p@.len() as int) =~= p@);
        return true;
    }
    let mut i: usize = 0;
    while i <= v.len() - pc.len()
        invariant
            pc@ == p@,
            0 < pc.len() <= v.len(),
            i <= v.len() - pc.len() + 1,
            forall|j: int|
                0 <= j < i ==> #[trigger] v@.subrange(j, j + pc.len()) != pc@,
        decreases v.len() - pc.len() + 1 - i,
    {
        if has_at(v, i, &pc) {
            return true;
        }
        i += 1;
    }
    assert forall|j: int| 0 <= j && j + p@.len() <= v@.len() implies #[trigger] v@.subrange(
        j,
        j + p@.len(),
    ) != p@ by {}
    false
}

pub fn all_digits_in(v: &Vec<char>) -> (b: bool)
    ensures
        b == all_digits(v@),
{
    let mut i: usize = 0;
    while i < v.len()
        invariant
            i <= v.len(),
            forall|j: int| 0 <= j < i ==> is_ascii_digit(#[trigger] v@[j]),
        decreases v.len() - i,
    {
        if !is_digit(v[i]) {
            return false;
        }
        i += 1;
    }
    true
}

pub fn all_code_chars_in(v: &Vec<char>) -> (b: bool)
    ensures
        b == all_code_chars(v@),
{
    let mut i: usize = 0;
    while i < v.len()
        invariant
            i <= v.len(),
            forall|j: int| 0 <= j < i ==> is_code_char(#[trigger] v@[j]),
        decreases v.len() - i,
    {
        if !is_code(v[i]) {
            return false;
        }
        i += 1;
    }
    true
}

/// Whether `v` holds the character `c`.
pub fn has_char(v: &Vec<char>, c: char) -> (b: bool)
    ensures
        b == v@.contains(c),
{
    let mut i: usize = 0;
    while i < v.len()
        invariant
            i <= v.len(),
            forall|j: int| 0 <= j < i ==> v@[j] != c,
        decreases v.len() - i,
    {
        if v[i] == c {
            assert(v@[i as int] == c);
            return true;
        }
        i += 1;
    }
    false
}

/// Pushing onto a vector pushes the element's deep view onto its deep view.
pub proof fn lemma_deep_view_push<T: DeepView>(a: Vec<T>, b: Vec<T>, x: T)
    requires
        b@ == a@.push(x),
    ensures
        b.deep_view() == a.deep_view().push(x.deep_view()),
{
    assert(b.deep_view() =~= a.deep_view().push(x.deep_view()));
}

// ---------------------------------------------------------------------------
// Building strings
// ---------------------------------------------------------------------------

/// `String::push`: appends one character.
#[verifier::external_body]
fn push_char(s: &mut String, c: char)
    ensures
        final(s)@ == old(s)@.push(c),
{
    s.push(c);
}

/// The string whose characters are `v`.
pub fn string_of(v: &Vec<char>) -> (s: String)
    ensures
        s@ == v@,
{
    let mut s = String::new();
    let mut i: usize = 0;
    while i < v.len()
        invariant
            i <= v.len(),
            s@ == v@.take(i as int),
        decreases v.len() - i,
    {
        push_char(&mut s, v[i]);
        assert(v@.take(i + 1) =~= v@.take(i as int).push(v@[i as int]));
        i += 1;
    }
    assert(v@.take(v.len() as int) =~= v@);
    s
}

/// Appends the characters of `v` to `s`.
pub fn append_chars(s: &mut String, v: &Vec<char>)
    ensures
        final(s)@ == old(s)@ + v@,
{
    let mut i: usize = 0;
    while i < v.len()
        invariant
            i <= v.len(),
            s@ == old(s)@ + v@.take(i as int),
        decreases v.len() - i,
    {
        push_char(s, v[i]);
        assert(v@.take(i + 1) =~= v@.take(i as int).push(v@[i as int]));
        i += 1;
    }
    assert(v@.take(v.len() as int) =~= v@);
}

// ---------------------------------------------------------------------------
// Decimal numbers
// ---------------------------------------------------------------------------

pub open spec fn digit_char(d: nat) -> char {
    ((48 + d) as u8) as char
}

/// The decimal numeral of `n`, as `u64`'s `Display` writes it.
pub open spec fn decimal(n: nat) -> Seq<char>
    decreases n,
{
    if n < 10 {
        seq![digit_char(n)]
    } else {
        decimal(n / 10).push(digit_char(n % 10))
    }
}

/// The number that a string of ASCII digits denotes.
pub open spec fn digits_value(s: Seq<char>) -> nat
    decreases s.len(),
{
    if s.len() == 0 {
        0
    } else {
        digits_value(s.drop_last()) * 10 + ((s.last() as u32) - 48) as nat
    }
}

/// A decimal numeral is a non-empty run of ASCII digits that denotes its
/// number.
pub proof fn lemma_decimal_digits(n: nat)
    ensures
        decimal(n).len() > 0,
        all_digits(decimal(n)),
        digits_value(decimal(n)) == n,
        !is_ws(decimal(n)[0]),
        !is_ws(decimal(n).last()),
    decreases n,
{
    if n >= 10 {
        lemma_decimal_digits(n / 10);
        let d = decimal(n / 10);
        let s = decimal(n);
        assert(s.drop_last() =~= d);
        assert forall|i: int| 0 <= i < s.len() implies is_ascii_digit(#[trigger] s[i]) by {
            if i < d.len() {
                assert(s[i] == d[i]);
            }
        }
        assert(s[0] == d[0]);
        assert(((s.last() as u32) - 48) as nat == n % 10);
        assert(digits_value(s) == digits_value(d) * 10 + n % 10);
        assert((n / 10) * 10 + n % 10 == n);
    } else {
        let s = decimal(n);
        assert(s.drop_last() =~= Seq::<char>::empty());
        assert(digits_value(Seq::<char>::empty()) == 0);
        assert(((s.last() as u32) - 48) as nat == n % 10);
        assert(digits_value(s) == n);
    }
}

/// Appends the decimal numeral of `n` to `s`.
pub fn push_decimal(s: &mut String, n: u64)
    ensures
        final(s)@ == old(s)@ + decimal(n as nat),
    decreases n,
{
    if n >= 10 {
        push_decimal(s, n / 10);
    }
    let d = (n % 10) as u8;
    push_char(s, (48u8 + d) as char);
    assert(old(s)@ + decimal(n as nat) =~= if n >= 10 {
        old(s)@ + decimal((n / 10) as nat) + seq![digit_char((n % 10) as nat)]
    } else {
        old(s)@ + seq![digit_char(n as nat)]
    });
}

/// The decimal numeral of `n`.
pub fn decimal_string(n: u64) -> (s: String)
    ensures
        s@ == decimal(n as nat),
{
    let mut s = String::new();
    push_decimal(&mut s, n);
    s
}

pub proof fn lemma_digits_value_monotone(s: Seq<char>, i: int)
    requires
        0 <= i <= s.len(),
        all_digits(s),
    ensures
        digits_value(s.take(i)) <= digits_value(s),
    decreases s.len() - i,
{
    if i < s.len() {
        lemma_digits_value_monotone(s.drop_last(), i);
        assert(s.drop_last().take(i) =~= s.take(i));
        assert(is_ascii_digit(s[s.len() - 1]));
    } else {
        assert(s.take(i) =~= s);
    }
}

/// The value of a string of ASCII digits, or `None` when it exceeds `u64`.
pub fn parse_digits(v: &Vec<char>) -> (r: Option<u64>)
    requires
        all_digits(v@),
    ensures
        r matches Some(n) ==> n == digits_value(v@),
        r is None <==> digits_value(v@) > u64::MAX,
{
    let mut acc: u64 = 0;
    let mut i: usize = 0;
    while i < v.len()
        invariant
            i <= v.len(),
            all_digits(v@),
            acc == digits_value(v@.take(i as int)),
        decreases v.len() - i,
    {
        assert(v@.take(i + 1).drop_last() =~= v@.take(i as int));
        assert(is_ascii_digit(v@[i as int]));
        let d = ((v[i] as u32) - 48) as u64;
        match acc.checked_mul(10) {
            Some(m) => match m.checked_add(d) {
                Some(x) => {
                    acc = x;
                },
                None => {
                    proof {
                        lemma_digits_value_monotone(v@, i + 1);
                    }
                    return None;
                },
            },
            None => {
                proof {
                    lemma_digits_value_monotone(v@, i + 1);
                }
                return None;
            },
        }
        i += 1;
    }
    assert(v@.take(v.len() as int) =~= v@);
    Some(acc)
}


// ---------------------------------------------------------------------------
// Hexadecimal numbers
// ---------------------------------------------------------------------------

pub open spec fn hex_digit_char(d: nat) -> char {
    if d < 10 {
        ((48 + d) as u8) as char
    } else {
        ((87 + d) as u8) as char
    }
}

/// The lowercase hexadecimal numeral of `n`, as `{:x}` writes it.
pub open spec fn hex(n: nat) -> Seq<char>
    decreases n,
{
    if n < 16 {
        seq![hex_digit_char(n)]
    } else {
        hex(n / 16).push(hex_digit_char(n % 16))
    }
}

/// Whether `c` is a lowercase hexadecimal digit: `0`-`9` or `a`-`f`.
pub open spec fn is_hex_digit(c: char) -> bool {
    let n = c as u32;
    (48 <= n <= 57) || (97 <= n <= 102)
}

/// The value of a lowercase hexadecimal digit.
pub open spec fn hex_digit_value(c: char) -> nat {
    let n = c as u32;
    if n <= 57 {
        (n - 48) as nat
    } else {
        (n - 97 + 10) as nat
    }
}

/// The number that a string of hexadecimal digits denotes.
pub open spec fn hex_digits_value(s: Seq<char>) -> nat
    decreases s.len(),
{
    if s.len() == 0 {
        0
    } else {
        hex_digits_value(s.drop_last()) * 16 + hex_digit_value(s.last())
    }
}

/// A hexadecimal numeral is a non-empty run of lowercase hexadecimal
/// digits that denotes its number.
pub proof fn lemma_hex_digits(n: nat)
    ensures
        hex(n).len() > 0,
        forall|i: int| 0 <= i < hex(n).len() ==> is_hex_digit(#[trigger] hex(n)[i]),
        hex_digits_value(hex(n)) == n,
    decreases n,
{
    let s = hex(n);
    let d = n % 16;
    assert(is_hex_digit(hex_digit_char(d)) && hex_digit_value(hex_digit_char(d)) == d);
    if n >= 16 {
        lemma_hex_digits(n / 16);
        let h = hex(n / 16);
        assert(s.drop_last() =~= h);
        assert forall|i: int| 0 <= i < s.len() implies is_hex_digit(#[trigger] s[i]) by {
            if i < h.len() {
                assert(s[i] == h[i]);
            }
        }
        assert(hex_digits_value(s) == hex_digits_value(h) * 16 + d);
        assert((n / 16) * 16 + n % 16 == n);
    } else {
        assert(s.drop_last() =~= Seq::<char>::empty());
        assert(hex_digits_value(Seq::<char>::empty()) == 0);
    }
}

/// Zero-padding puts only `0`s before the numeral and makes it at least
/// `width` long.
pub proof fn lemma_zero_pad(s: Seq<char>, width: nat)
    ensures
        zero_pad(s, width).len() == if s.len() >= width { s.len() } else { width },
        zero_pad(s, width).skip(zero_pad(s, width).len() - s.len()) == s,
        forall|i: int| 0 <= i < zero_pad(s, width).len() - s.len() ==> #[trigger] zero_pad(s, width)[i] == '0',
{
    let z = zero_pad(s, width);
    assert(z.skip(z.len() - s.len()) =~= s);
}

/// `s` padded on the left with `0` to at least `width` characters.
pub open spec fn zero_pad(s: Seq<char>, width: nat) -> Seq<char> {
    if s.len() >= width {
        s
    } else {
        Seq::new((width - s.len()) as nat, |i: int| '0') + s
    }
}

fn push_hex(s: &mut String, n: u64)
    ensures
        final(s)@ == old(s)@ + hex(n as nat),
    decreases n,
{
    if n >= 16 {
        push_hex(s, n / 16);
    }
    let d = (n % 16) as u8;
    let c = if d < 10 {
        (48u8 + d) as char
    } else {
        (87u8 + d) as char
    };
    push_char(s, c);
    assert(old(s)@ + hex(n as nat) =~= if n >= 16 {
        old(s)@ + hex((n / 16) as nat) + seq![hex_digit_char((n % 16) as nat)]
    } else {
        old(s)@ + seq![hex_digit_char(n as nat)]
    });
}

/// The lowercase hexadecimal numeral of `n`, zero-padded to `width`.
pub fn hex_string(n: u64, width: usize) -> (s: String)
    ensures
        s@ == zero_pad(hex(n as nat), width as nat),
{
    let mut digits = String::new();
    push_hex(&mut digits, n);
    assert(digits@ =~= hex(n as nat));
    let len = digits.as_str().unicode_len();
    if len >= width {
        return digits;
    }
    let mut s = String::new();
    let mut i: usize = 0;
    while i < width - len
        invariant
            len < width,
            i <= width - len,
            s@ =~= Seq::new(i as nat, |k: int| '0'),
        decreases width - len - i,
    {
        push_char(&mut s, '0');
        i += 1;
    }
    s.append(digits.as_str());
    s
}

// ---------------------------------------------------------------------------
// Row text helpers
// ---------------------------------------------------------------------------

/// The text of an optional string field, empty when absent.
pub open spec fn opt_view(o: Option<String>) -> Seq<char> {
    match o {
        Some(s) => s@,
        None => Seq::empty(),
    }
}

pub fn opt_text(o: &Option<String>) -> (s: String)
    ensures
        s@ == opt_view(*o),
{
    match o {
        Some(t) => t.clone(),
        None => String::new(),
    }
}

/// `a (b)`.
pub open spec fn with_paren(a: Seq<char>, b: Seq<char>) -> Seq<char> {
    a + " ("@ + b + ")"@
}

pub fn paren_text(a: &String, b: &String) -> (s: String)
    ensures
        s@ == with_paren(a@, b@),
{
    let mut s = String::new();
    s.append(a.as_str());
    s.append(" (");
    s.append(b.as_str());
    s.append(")");
    assert(s@ =~= with_paren(a@, b@));
    s
}

/// The elements of `ss` joined by `sep`, as `join` on a slice of strings.
pub open spec fn join(ss: Seq<Seq<char>>, sep: Seq<char>) -> Seq<char>
    decreases ss.len(),
{
    if ss.len() == 0 {
        Seq::empty()
    } else if ss.len() == 1 {
        ss[0]
    } else {
        join(ss.drop_last(), sep) + sep + ss.last()
    }
}

/// Joining puts the separator between neighbouring pieces and nowhere
/// else: no piece gives nothing, one piece gives itself, and one more piece
/// adds the separator and the piece.
pub proof fn lemma_join_steps(ss: Seq<Seq<char>>, x: Seq<char>, sep: Seq<char>)
    ensures
        join(Seq::empty(), sep) == Seq::<char>::empty(),
        join(seq![x], sep) == x,
        ss.len() > 0 ==> join(ss.push(x), sep) == join(ss, sep) + sep + x,
{
    if ss.len() > 0 {
        assert(ss.push(x).drop_last() =~= ss);
    }
}

pub fn join_strs(v: &Vec<&str>, sep: &str) -> (s: String)
    ensures
        s@ == join(v@.map_values(|x: &str| x@), sep@),
{
    let ghost ss = v@.map_values(|x: &str| x@);
    let mut s = String::new();
    let mut i: usize = 0;
    while i < v.len()
        invariant
            i <= v.len(),
            ss == v@.map_values(|x: &str| x@),
            s@ == join(ss.take(i as int), sep@),
        decreases v.len() - i,
    {
        assert(ss.take(i + 1).drop_last() =~= ss.take(i as int));
        assert(ss.take(i + 1).last() == v@[i as int]@);
        if i == 0 {
            s.append(v[i]);
            assert(s@ =~= join(ss.take(1), sep@));
        } else {
            s.append(sep);
            s.append(v[i]);
        }
        i += 1;
    }
    assert(ss.take(v.len() as int) =~= ss);
    s
}

pub fn join_strings(v: &Vec<String>, sep: &str) -> (s: String)
    ensures
        s@ == join(v.deep_view(), sep@),
{
    let ghost ss = v.deep_view();
    let mut s = String::new();
    let mut i: usize = 0;
    while i < v.len()
        invariant
            i <= v.len(),
            ss == v.deep_view(),
            s@ == join(ss.take(i as int), sep@),
        decreases v.len() - i,
    {
        assert(ss.take(i + 1).drop_last() =~= ss.take(i as int));
        assert(ss.take(i + 1).last() == v@[i as int]@);
        if i == 0 {
            s.append(v[i].as_str());
            assert(s@ =~= join(ss.take(1), sep@));
        } else {
            s.append(sep);
            s.append(v[i].as_str());
        }
        i += 1;
    }
    assert(ss.take(v.len() as int) =~= ss);
    s
}

/// A two-column table row.
pub fn row(label: &str, value: String) -> (r: Vec<String>)
    ensures
        r.deep_view() == seq![label@, value@],
{
    let mut r: Vec<String> = Vec::new();
    r.push(String::from_str(label));
    r.push(value);
    assert(r.deep_view() =~= seq![label@, value@]);
    r
}

/// No two rows of `rows` carry the same label (first column).
pub open spec fn labels_distinct(rows: Seq<Seq<Seq<char>>>) -> bool {
    forall|i: int, j: int| 0 <= i < j < rows.len() ==> rows[i][0] != rows[j][0]
}

/// `table` shows `value` under `label`: it has a row with that label, and
/// every such row is `[label, value]`.
pub open spec fn shows(table: Seq<Seq<Seq<char>>>, label: Seq<char>, value: Seq<char>) -> bool {
    &&& exists|i: int| 0 <= i < table.len() && (#[trigger] table[i])[0] == label
    &&& forall|i: int|
        0 <= i < table.len() && (#[trigger] table[i])[0] == label ==> table[i] == seq![label, value]
}

/// `table` shows a non-empty `value` under `label`, and has no row with
/// that label when `value` is empty.
pub open spec fn shows_filled(table: Seq<Seq<Seq<char>>>, label: Seq<char>, value: Seq<char>) -> bool {
    if value.len() > 0 {
        shows(table, label, value)
    } else {
        forall|i: int| 0 <= i < table.len() ==> (#[trigger] table[i])[0] != label
    }
}

/// In a table whose labels are distinct, each two-column row shows its
/// value under its label.
pub proof fn lemma_shows_at(rows: Seq<Seq<Seq<char>>>, k: int)
    requires
        labels_distinct(rows),
        0 <= k < rows.len(),
        rows[k].len() == 2,
    ensures
        shows(rows, rows[k][0], rows[k][1]),
{
    assert(rows[k] =~= seq![rows[k][0], rows[k][1]]);
    assert forall|i: int| 0 <= i < rows.len() && (#[trigger] rows[i])[0] == rows[k][0] implies rows[i]
        == seq![rows[k][0], rows[k][1]] by {
        if i < k {
            assert(rows[i][0] != rows[k][0]);
        } else if i > k {
            assert(rows[k][0] != rows[i][0]);
        }
    }
}

/// A row is kept by `filled_rows` exactly when it is a row of the table
/// with a non-empty value.
pub proof fn lemma_filled_member(rows: Seq<Seq<Seq<char>>>, x: Seq<Seq<char>>)
    ensures
        filled_rows(rows).contains(x) <==> exists|j: int|
            0 <= j < rows.len() && #[trigger] rows[j] == x && x[1].len() > 0,
    decreases rows.len(),
{
    if rows.len() > 0 {
        let t = rows.drop_last();
        let n = rows.len() - 1;
        lemma_filled_member(t, x);
        let rest = filled_rows(t);
        let f = filled_rows(rows);
        if f.contains(x) {
            let k = choose|k: int| 0 <= k < f.len() && f[k] == x;
            if k < rest.len() {
                assert(rest[k] == x);
                let j = choose|j: int| 0 <= j < t.len() && #[trigger] t[j] == x && x[1].len() > 0;
                assert(rows[j] == t[j]);
            } else {
                assert(rows[n] == x);
            }
        }
        if exists|j: int| 0 <= j < rows.len() && #[trigger] rows[j] == x && x[1].len() > 0 {
            let j = choose|j: int| 0 <= j < rows.len() && #[trigger] rows[j] == x && x[1].len() > 0;
            if j == n {
                assert(f[rest.len() as int] == x);
            } else {
                assert(t[j] == rows[j]);
                let k = choose|k: int| 0 <= k < rest.len() && rest[k] == x;
                assert(f[k] == x);
            }
        }
    }
}

/// In a table whose labels are distinct, dropping the empty rows leaves
/// each two-column row shown under its label exactly when its value is
/// not empty.
pub proof fn lemma_shows_filled_at(rows: Seq<Seq<Seq<char>>>, k: int)
    requires
        labels_distinct(rows),
        0 <= k < rows.len(),
        rows[k].len() == 2,
    ensures
        shows_filled(filled_rows(rows), rows[k][0], rows[k][1]),
{
    let f = filled_rows(rows);
    let label = rows[k][0];
    assert(rows[k] =~= seq![rows[k][0], rows[k][1]]);
    assert forall|i: int| 0 <= i < f.len() && (#[trigger] f[i])[0] == label implies f[i] == rows[k]
        && rows[k][1].len() > 0 by {
        assert(f.contains(f[i]));
        lemma_filled_member(rows, f[i]);
        let j = choose|j: int| 0 <= j < rows.len() && #[trigger] rows[j] == f[i] && f[i][1].len() > 0;
        if j < k {
            assert(rows[j][0] != rows[k][0]);
        } else if j > k {
            assert(rows[k][0] != rows[j][0]);
        }
    }
    if rows[k][1].len() > 0 {
        lemma_filled_member(rows, rows[k]);
        assert(rows[k] == rows[k]);
        let i = choose|i: int| 0 <= i < f.len() && f[i] == rows[k];
        assert(f[i][0] == label);
    }
}

/// The rows of `rows` whose second column is not empty, in order.
pub open spec fn filled_rows(rows: Seq<Seq<Seq<char>>>) -> Seq<Seq<Seq<char>>>
    decreases rows.len(),
{
    if rows.len() == 0 {
        Seq::empty()
    } else {
        let rest = filled_rows(rows.drop_last());
        if rows.last()[1].len() > 0 {
            rest.push(rows.last())
        } else {
            rest
        }
    }
}

/// Keeps the rows whose second column is not empty.
pub fn retain_filled(rows: Vec<Vec<String>>) -> (r: Vec<Vec<String>>)
    requires
        forall|i: int| 0 <= i < rows@.len() ==> #[trigger] rows@[i]@.len() == 2,
    ensures
        r.deep_view() == filled_rows(rows.deep_view()),
{
    let ghost rv = rows.deep_view();
    let mut r: Vec<Vec<String>> = Vec::new();
    let mut i: usize = 0;
    while i < rows.len()
        invariant
            i <= rows@.len(),
            rv == rows.deep_view(),
            forall|k: int| 0 <= k < rows@.len() ==> #[trigger] rows@[k]@.len() == 2,
            r.deep_view() == filled_rows(rv.take(i as int)),
        decreases rows@.len() - i,
    {
        assert(rv.take(i + 1).drop_last() =~= rv.take(i as int));
        assert(rv.take(i + 1).last() == rows@[i as int].deep_view());
        assert(rows@[i as int]@.len() == 2);
        if rows[i][1].as_str().unicode_len() > 0 {
            let ghost before = r;
            let x = copy_row(&rows[i]);
            r.push(x);
            proof {
                lemma_deep_view_push(before, r, x);
            }
        }
        i += 1;
    }
    assert(rv.take(rows@.len() as int) =~= rv);
    r
}

fn copy_row(v: &Vec<String>) -> (r: Vec<String>)
    ensures
        r.deep_view() == v.deep_view(),
{
    let mut r: Vec<String> = Vec::new();
    let mut i: usize = 0;
    while i < v.len()
        invariant
            i <= v.len(),
            r.deep_view() == v.deep_view().take(i as int),
        decreases v.len() - i,
    {
        let ghost before = r;
        let x = v[i].clone();
        r.push(x);
        proof {
            lemma_deep_view_push(before, r, x);
        }
        assert(r.deep_view() =~= v.deep_view().take(i + 1));
        i += 1;
    }
    assert(v.deep_view().take(v.len() as int) =~= v.deep_view());
    r
}

} // verus!
