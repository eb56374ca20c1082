//! Character-level helpers over `String`/`&str`, specified on their `Seq<char>` views.
use vstd::prelude::*;

verus! {

/// `p` is a prefix of `s`.
pub open spec fn starts_with_spec(s: Seq<char>, p: Seq<char>) -> bool {
    p.len() <= s.len() && s.subrange(0, p.len() as int) == p
}

/// `p` is a suffix of `s`.
pub open spec fn ends_with_spec(s: Seq<char>, p: Seq<char>) -> bool {
    p.len() <= s.len() && s.subrange(s.len() - p.len(), s.len() as int) == p
}

/// Unicode `White_Space`, the property behind `char::is_whitespace` and `str::trim`.
pub open spec fn is_ws(c: char) -> bool {
    ||| c == ' ' || c == '\t' || c == '\n' || c == '\r'
    ||| c == '\u{0B}' || c == '\u{0C}' || c == '\u{85}' || c == '\u{A0}'
    ||| c == '\u{1680}' || ('\u{2000}' <= c && c <= '\u{200A}')
    ||| c == '\u{2028}' || c == '\u{2029}' || c == '\u{202F}' || c == '\u{205F}'
    ||| c == '\u{3000}'
}

/// `s` without its trailing whitespace (`str::trim_end`).
pub open spec fn trim_end_spec(s: Seq<char>) -> Seq<char>
    decreases s.len(),
{
    if s.len() > 0 && is_ws(s.last()) {
        trim_end_spec(s.drop_last())
    } else {
        s
    }
}

/// `s` without its leading whitespace (`str::trim_start`).
pub open spec fn trim_start_spec(s: Seq<char>) -> Seq<char>
    decreases s.len(),
{
    if s.len() > 0 && is_ws(s[0]) {
        trim_start_spec(s.drop_first())
    } else {
        s
    }
}

/// `s` without leading and trailing whitespace (`str::trim`).
pub open spec fn trim_spec(s: Seq<char>) -> Seq<char> {
    trim_start_spec(trim_end_spec(s))
}

/// The decimal digit for `d < 10`.
pub open spec fn digit_char(d: nat) -> char {
    if d == 0 { '0' } else if d == 1 { '1' } else if d == 2 { '2' } else if d == 3 { '3' }
    else if d == 4 { '4' } else if d == 5 { '5' } else if d == 6 { '6' } else if d == 7 { '7' }
    else if d == 8 { '8' } else { '9' }
}

/// Decimal notation of `n`, without leading zeros (`usize::to_string`).
pub open spec fn decimal(n: nat) -> Seq<char>
    decreases n,
{
    if n < 10 {
        seq![digit_char(n)]
    } else {
        decimal(n / 10).push(digit_char(n % 10))
    }
}

/// Decimal notation holds no `.` and at least one digit; two or more when
/// the number is at least ten.
pub proof fn lemma_decimal_shape(n: nat)
    ensures
        decimal(n).len() >= 1,
        n >= 10 ==> decimal(n).len() >= 2,
        forall|k: int| 0 <= k < decimal(n).len() ==> #[trigger] decimal(n)[k] != '.',
    decreases n,
{
    if n >= 10 {
        lemma_decimal_shape(n / 10);
        let d = decimal(n / 10);
        assert forall|k: int| 0 <= k < decimal(n).len() implies #[trigger] decimal(n)[k] != '.' by {
            if k < d.len() { assert(decimal(n)[k] == d[k]); }
        }
    }
}

/// Different numbers have different decimal notations.
pub proof fn lemma_decimal_injective(a: nat, b: nat)
    requires
        decimal(a) == decimal(b),
    ensures
        a == b,
    decreases a,
{
    lemma_decimal_shape(a);
    lemma_decimal_shape(b);
    if a < 10 && b < 10 {
        assert(decimal(a)[0] == digit_char(a));
        assert(decimal(b)[0] == digit_char(b));
    } else if a >= 10 && b >= 10 {
        assert(decimal(a).drop_last() =~= decimal(a / 10));
        assert(decimal(b).drop_last() =~= decimal(b / 10));
        lemma_decimal_injective(a / 10, b / 10);
        assert(decimal(a).last() == digit_char(a % 10));
        assert(decimal(b).last() == digit_char(b % 10));
        assert(digit_char(a % 10) == digit_char(b % 10));
        assert(a % 10 == b % 10);
    }
}

/// Lexicographic order on code points (the order of `String`'s `Ord`, which
/// compares UTF-8 bytes).
pub open spec fn lex_le(a: Seq<char>, b: Seq<char>) -> bool
    decreases a.len(),
{
    if a.len() == 0 {
        true
    } else if b.len() == 0 {
        false
    } else if a[0] != b[0] {
        (a[0] as int) < (b[0] as int)
    } else {
        lex_le(a.drop_first(), b.drop_first())
    }
}

/// `lex_le` is total.
pub proof fn lemma_lex_total(a: Seq<char>, b: Seq<char>)
    ensures
        lex_le(a, b) || lex_le(b, a),
    decreases a.len(),
{
    if a.len() > 0 && b.len() > 0 && a[0] == b[0] {
        lemma_lex_total(a.drop_first(), b.drop_first());
    }
}

/// `lex_le` is antisymmetric.
pub proof fn lemma_lex_antisym(a: Seq<char>, b: Seq<char>)
    requires
        lex_le(a, b),
        lex_le(b, a),
    ensures
        a == b,
    decreases a.len(),
{
    if a.len() == 0 {
        assert(b.len() == 0);
        assert(a =~= b);
    } else {
        assert(b.len() > 0);
        assert(a[0] == b[0]);
        lemma_lex_antisym(a.drop_first(), b.drop_first());
        assert(a =~= seq![a[0]] + a.drop_first());
        assert(b =~= seq![b[0]] + b.drop_first());
    }
}

/// `lex_le` is transitive.
pub proof fn lemma_lex_trans(a: Seq<char>, b: Seq<char>, c: Seq<char>)
    requires
        lex_le(a, b),
        lex_le(b, c),
    ensures
        lex_le(a, c),
    decreases a.len(),
{
    if a.len() > 0 && b.len() > 0 && c.len() > 0 && a[0] == b[0] && b[0] == c[0] {
        lemma_lex_trans(a.drop_first(), b.drop_first(), c.drop_first());
    }
}

/// `lex_le` is reflexive.
pub proof fn lemma_lex_refl(a: Seq<char>)
    ensures
        lex_le(a, a),
    decreases a.len(),
{
    if a.len() > 0 {
        lemma_lex_refl(a.drop_first());
    }
}

/// `a <= b` in lexicographic code point order.
pub fn chars_lex_le(a: &[char], b: &[char]) -> (r: bool)
    ensures
        r == lex_le(a@, b@),
{
    let mut i: usize = 0;
    proof {
        assert(a@.skip(0) =~= a@);
        assert(b@.skip(0) =~= b@);
    }
    while i < a.len() && i < b.len()
        invariant
            i <= a@.len(),
            i <= b@.len(),
            lex_le(a@, b@) == lex_le(a@.skip(i as int), b@.skip(i as int)),
        decreases a@.len() - i,
    {
        let x = a[i];
        let y = b[i];
        if x != y {
            proof {
                assert(a@.skip(i as int)[0] == x);
                assert(b@.skip(i as int)[0] == y);
            }
            return x < y;
        }
        proof {
            assert(a@.skip(i as int).drop_first() =~= a@.skip(i + 1));
            assert(b@.skip(i as int).drop_first() =~= b@.skip(i + 1));
        }
        i += 1;
    }
    proof {
        if i == a@.len() {
            assert(a@.skip(i as int).len() == 0);
        } else {
            assert(b@.skip(i as int).len() == 0);
        }
    }
    i == a.len()
}

/// `a <= b` in lexicographic code point order.
pub fn lex_le_str(a: &str, b: &str) -> (r: bool)
    ensures
        r == lex_le(a@, b@),
{
    let x = chars_of(a);
    let y = chars_of(b);
    chars_lex_le(x.as_slice(), y.as_slice())
}

/// The characters of `s`, in order.
pub fn chars_of(s: &str) -> (r: Vec<char>)
    ensures
        r@ == s@,
{
    let mut out: Vec<char> = Vec::new();
    for c in it: s.chars()
        invariant
            out@ == it.seq().take(it.index() as int),
            it.seq() == s@,
    {
        out.push(c);
    }
    proof {
        assert(out@ =~= s@);
    }
    out
}

/// Appends one character (`String::push`).
#[verifier::external_body]
pub fn push_char(s: &mut String, c: char)
    ensures
        final(s)@ == old(s)@.push(c),
{
    s.push(c);
}

/// A `String` holding exactly the characters `v`.
pub fn string_of(v: &[char]) -> (r: String)
    ensures
        r@ == v@,
{
    let mut out = String::new();
    let mut i: usize = 0;
    while i < v.len()
        invariant
            i <= v@.len(),
            out@ == v@.take(i as int),
        decreases v@.len() - i,
    {
        push_char(&mut out, v[i]);
        i += 1;
        proof {
            assert(out@ =~= v@.take(i as int));
        }
    }
    proof {
        assert(v@.take(v@.len() as int) =~= v@);
    }
    out
}

/// An owned copy of `s`.
pub fn owned(s: &str) -> (r: String)
    ensures
        r@ == s@,
{
    let v = chars_of(s);
    string_of(v.as_slice())
}

/// `a` followed by `b`.
pub fn concat(a: &str, b: &str) -> (r: String)
    ensures
        r@ == a@ + b@,
{
    let mut v = chars_of(a);
    let w = chars_of(b);
    let mut i: usize = 0;
    let ghost start = v@;
    while i < w.len()
        invariant
            i <= w@.len(),
            v@ == start + w@.take(i as int),
        decreases w@.len() - i,
    {
        v.push(w[i]);
        i += 1;
        proof {
            assert(v@ =~= start + w@.take(i as int));
        }
    }
    proof {
        assert(w@.take(w@.len() as int) =~= w@);
    }
    string_of(v.as_slice())
}

/// Equality of two character sequences.
pub fn chars_eq(a: &[char], b: &[char]) -> (r: bool)
    ensures
        r == (a@ == b@),
{
    if a.len() != b.len() {
        return false;
    }
    let mut i: usize = 0;
    while i < a.len()
        invariant
            a@.len() == b@.len(),
            i <= a@.len(),
            forall|j: int| 0 <= j < i ==> a@[j] == b@[j],
        decreases a@.len() - i,
    {
        if a[i] != b[i] {
            return false;
        }
        i += 1;
    }
    proof {
        assert(a@ =~= b@);
    }
    true
}

/// Equality of two string slices.
pub fn str_eq(a: &str, b: &str) -> (r: bool)
    ensures
        r == (a@ == b@),
{
    let x = chars_of(a);
    let y = chars_of(b);
    chars_eq(x.as_slice(), y.as_slice())
}

/// `s` starts with `p` (on characters).
pub fn chars_starts_with(s: &[char], p: &[char]) -> (r: bool)
    ensures
        r == starts_with_spec(s@, p@),
{
    if p.len() > s.len() {
        return false;
    }
    let mut i: usize = 0;
    while i < p.len()
        invariant
            p@.len() <= s@.len(),
            i <= p@.len(),
            forall|j: int| 0 <= j < i ==> s@[j] == p@[j],
        decreases p@.len() - i,
    {
        if s[i] != p[i] {
            proof {
                assert(s@.subrange(0, p@.len() as int)[i as int] != p@[i as int]);
            }
            return false;
        }
        i += 1;
    }
    proof {
        assert(s@.subrange(0, p@.len() as int) =~= p@);
    }
    true
}

/// `s` ends with `p` (on characters).
pub fn chars_ends_with(s: &[char], p: &[char]) -> (r: bool)
    ensures
        r == ends_with_spec(s@, p@),
{
    if p.len() > s.len() {
        return false;
    }
    let off = s.len() - p.len();
    let mut k: usize = off;
    while k < s.len()
        invariant
            p@.len() <= s@.len(),
            off + p@.len() == s@.len(),
            off <= k <= s@.len(),
            forall|j: int| off <= j < k ==> s@[j] == p@[j - off],
        decreases s@.len() - k,
    {
        if s[k] != p[k - off] {
            proof {
                assert(s@.subrange(off as int, s@.len() as int)[k - off] != p@[k - off]);
            }
            return false;
        }
        k += 1;
    }
    proof {
        assert(s@.subrange(off as int, s@.len() as int) =~= p@);
    }
    true
}

/// `s` starts with `p`.
pub fn starts_with(s: &str, p: &str) -> (r: bool)
    ensures
        r == starts_with_spec(s@, p@),
{
    let a = chars_of(s);
    let b = chars_of(p);
    chars_starts_with(a.as_slice(), b.as_slice())
}

/// `s` ends with `p`.
pub fn ends_with(s: &str, p: &str) -> (r: bool)
    ensures
        r == ends_with_spec(s@, p@),
{
    let a = chars_of(s);
    let b = chars_of(p);
    chars_ends_with(a.as_slice(), b.as_slice())
}

/// Whether `c` is Unicode whitespace (`char::is_whitespace`).
pub fn is_whitespace(c: char) -> (r: bool)
    ensures
        r == is_ws(c),
{
    c == ' ' || c == '\t' || c == '\n' || c == '\r' || c == '\u{0B}' || c == '\u{0C}'
        || c == '\u{85}' || c == '\u{A0}' || c == '\u{1680}' || ('\u{2000}' <= c && c <= '\u{200A}')
        || c == '\u{2028}' || c == '\u{2029}' || c == '\u{202F}' || c == '\u{205F}'
        || c == '\u{3000}'
}

proof fn lemma_trim_end_take(s: Seq<char>, n: int)
    requires
        0 <= n <= s.len(),
        forall|j: int| n <= j < s.len() ==> is_ws(s[j]),
    ensures
        trim_end_spec(s) == trim_end_spec(s.take(n)),
    decreases s.len() - n,
{
    if n < s.len() {
        assert(s.drop_last() =~= s.take(s.len() - 1));
        lemma_trim_end_take(s.drop_last(), n);
        assert(s.drop_last().take(n) =~= s.take(n));
    } else {
        assert(s.take(n) =~= s);
    }
}

proof fn lemma_trim_start_skip(s: Seq<char>, n: int)
    requires
        0 <= n <= s.len(),
        forall|j: int| 0 <= j < n ==> is_ws(s[j]),
    ensures
        trim_start_spec(s) == trim_start_spec(s.skip(n)),
    decreases n,
{
    if n > 0 {
        assert(s.drop_first() =~= s.skip(1));
        lemma_trim_start_skip(s.drop_first(), n - 1);
        assert(s.drop_first().skip(n - 1) =~= s.skip(n));
    } else {
        assert(s.skip(0) =~= s);
    }
}

/// `s` without trailing whitespace.
pub fn chars_trim_end(s: &[char]) -> (r: Vec<char>)
    ensures
        r@ == trim_end_spec(s@),
{
    let mut n = s.len();
    while n > 0 && is_whitespace(s[n - 1])
        invariant
            n <= s@.len(),
            forall|j: int| n <= j < s@.len() ==> is_ws(s@[j]),
        decreases n,
    {
        n -= 1;
    }
    proof {
        lemma_trim_end_take(s@, n as int);
        let t = s@.take(n as int);
        if t.len() > 0 {
            assert(t.last() == s@[n - 1]);
        }
    }
    let mut out: Vec<char> = Vec::new();
    let mut i: usize = 0;
    while i < n
        invariant
            n <= s@.len(),
            i <= n,
            out@ == s@.take(i as int),
        decreases n - i,
    {
        out.push(s[i]);
        i += 1;
        proof {
            assert(out@ =~= s@.take(i as int));
        }
    }
    out
}

/// `s` without leading whitespace.
pub fn chars_trim_start(s: &[char]) -> (r: Vec<char>)
    ensures
        r@ == trim_start_spec(s@),
{
    let mut n: usize = 0;
    while n < s.len() && is_whitespace(s[n])
        invariant
            n <= s@.len(),
            forall|j: int| 0 <= j < n ==> is_ws(s@[j]),
        decreases s@.len() - n,
    {
        n += 1;
    }
    proof {
        lemma_trim_start_skip(s@, n as int);
        let t = s@.skip(n as int);
        if t.len() > 0 {
            assert(t[0] == s@[n as int]);
        }
    }
    let mut out: Vec<char> = Vec::new();
    let mut i: usize = n;
    while i < s.len()
        invariant
            n <= i <= s@.len(),
            out@ == s@.subrange(n as int, i as int),
        decreases s@.len() - i,
    {
        out.push(s[i]);
        i += 1;
        proof {
            assert(out@ =~= s@.subrange(n as int, i as int));
        }
    }
    proof {
        assert(out@ =~= s@.skip(n as int));
    }
    out
}

/// `s` without leading and trailing whitespace.
pub fn chars_trim(s: &[char]) -> (r: Vec<char>)
    ensures
        r@ == trim_spec(s@),
{
    let e = chars_trim_end(s);
    chars_trim_start(e.as_slice())
}

/// `s.trim()` as an owned string.
pub fn trim(s: &str) -> (r: String)
    ensures
        r@ == trim_spec(s@),
{
    let v = chars_of(s);
    let t = chars_trim(v.as_slice());
    string_of(t.as_slice())
}

/// Appends the decimal notation of `n`.
pub fn push_decimal(out: &mut Vec<char>, n: usize)
    ensures
        final(out)@ == old(out)@ + decimal(n as nat),
    decreases n,
{
    if n >= 10 {
        push_decimal(out, n / 10);
    }
    let d = n % 10;
    let c = if d == 0 { '0' } else if d == 1 { '1' } else if d == 2 { '2' } else if d == 3 { '3' }
        else if d == 4 { '4' } else if d == 5 { '5' } else if d == 6 { '6' } else if d == 7 { '7' }
        else if d == 8 { '8' } else { '9' };
    out.push(c);
    proof {
        if n >= 10 {
            assert(decimal(n as nat) == decimal((n / 10) as nat).push(digit_char((n % 10) as nat)));
        }
    }
    assert(final(out)@ =~= old(out)@ + decimal(n as nat));
}

/// Decimal notation of `n` (`usize::to_string`).
pub fn decimal_string(n: usize) -> (r: String)
    ensures
        r@ == decimal(n as nat),
{
    let mut v: Vec<char> = Vec::new();
    push_decimal(&mut v, n);
    assert(v@ =~= decimal(n as nat));
    string_of(v.as_slice())
}


/// Appends the decimal notation of `n`.
pub fn push_decimal_u64(out: &mut Vec<char>, n: u64)
    ensures
        final(out)@ == old(out)@ + decimal(n as nat),
    decreases n,
{
    if n >= 10 {
        push_decimal_u64(out, n / 10);
    }
    let d = n % 10;
    let c = if d == 0 { '0' } else if d == 1 { '1' } else if d == 2 { '2' } else if d == 3 { '3' }
        else if d == 4 { '4' } else if d == 5 { '5' } else if d == 6 { '6' } else if d == 7 { '7' }
        else if d == 8 { '8' } else { '9' };
    out.push(c);
    proof {
        if n >= 10 {
            assert(decimal(n as nat) == decimal((n / 10) as nat).push(digit_char((n % 10) as nat)));
        }
    }
    assert(final(out)@ =~= old(out)@ + decimal(n as nat));
}

/// Decimal notation of a signed number (`i64::to_string`).
pub open spec fn signed_decimal(n: int) -> Seq<char> {
    if n < 0 { seq!['-'] + decimal((-n) as nat) } else { decimal(n as nat) }
}

/// Decimal notation of `n` (`i64::to_string`).
pub fn i64_string(n: i64) -> (r: String)
    ensures
        r@ == signed_decimal(n as int),
{
    let mut v: Vec<char> = Vec::new();
    let mag: u64 = if n < 0 {
        if n == i64::MIN { 9223372036854775808u64 } else { (-n) as u64 }
    } else {
        n as u64
    };
    if n < 0 {
        v.push('-');
    }
    let ghost start = v@;
    push_decimal_u64(&mut v, mag);
    proof {
        if n < 0 {
            assert(v@ =~= seq!['-'] + decimal((-n) as nat));
        } else {
            assert(v@ =~= decimal(n as nat));
        }
    }
    string_of(v.as_slice())
}

/// Whitespace SQLite skips before a number.
pub open spec fn sql_space(c: char) -> bool {
    c == ' ' || c == '\t' || c == '\n' || c == '\u{0C}' || c == '\r'
}

/// Value of the decimal digits of `s` taken from the left while they are
/// digits, starting at `i`, with `acc` already read.
pub open spec fn digits_value(s: Seq<char>, i: int, acc: int) -> int
    decreases s.len() - i,
{
    if 0 <= i < s.len() && '0' <= s[i] && s[i] <= '9' {
        digits_value(s, i + 1, acc * 10 + (s[i] as int - '0' as int))
    } else {
        acc
    }
}

/// Index of the first character that is not SQLite whitespace, from `i`.
pub open spec fn skip_space(s: Seq<char>, i: int) -> int
    decreases s.len() - i,
{
    if 0 <= i < s.len() && sql_space(s[i]) { skip_space(s, i + 1) } else { i }
}

/// `CAST(s AS INTEGER)` in SQLite: leading whitespace skipped, an optional
/// sign, then the longest run of digits (none: 0), clamped to the `i64` range.
pub open spec fn cast_integer_spec(s: Seq<char>) -> int {
    let i = skip_space(s, 0);
    let neg = 0 <= i < s.len() && s[i] == '-';
    let j = if 0 <= i < s.len() && (s[i] == '-' || s[i] == '+') { i + 1 } else { i };
    let v = digits_value(s, j, 0);
    if neg {
        if v > 9223372036854775808 { -9223372036854775808 } else { -v }
    } else {
        if v > 9223372036854775807 { 9223372036854775807 } else { v }
    }
}

proof fn lemma_digits_mono(s: Seq<char>, i: int, a: int, b: int)
    requires
        0 <= a <= b,
    ensures
        digits_value(s, i, a) <= digits_value(s, i, b),
        digits_value(s, i, a) >= a,
    decreases s.len() - i,
{
    if 0 <= i < s.len() && '0' <= s[i] && s[i] <= '9' {
        lemma_digits_mono(s, i + 1, a * 10 + (s[i] as int - '0' as int), b * 10 + (s[i] as int - '0' as int));
    }
}

proof fn lemma_digits_sat(s: Seq<char>, i: int, x: int, cap: int)
    requires
        0 <= x,
        0 <= cap,
    ensures
        (if digits_value(s, i, x) > cap { cap } else { digits_value(s, i, x) })
            == (if digits_value(s, i, if x > cap { cap } else { x }) > cap { cap } else { digits_value(s, i, if x > cap { cap } else { x }) }),
    decreases s.len() - i,
{
    if 0 <= i < s.len() && '0' <= s[i] && s[i] <= '9' {
        let d = s[i] as int - '0' as int;
        let y = if x > cap { cap } else { x };
        lemma_digits_sat(s, i + 1, x * 10 + d, cap);
        lemma_digits_sat(s, i + 1, y * 10 + d, cap);
        if x > cap {
            lemma_digits_mono(s, i + 1, cap * 10 + d, x * 10 + d);
            lemma_digits_mono(s, i + 1, cap, cap * 10 + d);
            lemma_digits_mono(s, i + 1, cap * 10 + d, cap * 10 + d);
        }
    }
}

/// `CAST(s AS INTEGER)` as SQLite computes it.
pub fn cast_integer(s: &str) -> (r: i64)
    ensures
        r as int == cast_integer_spec(s@),
{
    let v = chars_of(s);
    let mut i: usize = 0;
    while i < v.len() && (v[i] == ' ' || v[i] == '\t' || v[i] == '\n' || v[i] == '\u{0C}' || v[i] == '\r')
        invariant
            v@ == s@,
            i <= v@.len(),
            skip_space(s@, 0) == skip_space(s@, i as int),
        decreases v@.len() - i,
    {
        i += 1;
    }
    let neg = i < v.len() && v[i] == '-';
    if i < v.len() && (v[i] == '-' || v[i] == '+') {
        i += 1;
    }
    let ghost j = i as int;
    let cap: u64 = if neg { 9223372036854775808u64 } else { 9223372036854775807u64 };
    let mut acc: u64 = 0;
    proof { lemma_digits_sat(s@, j, 0, cap as int); }
    while i < v.len() && '0' <= v[i] && v[i] <= '9'
        invariant
            v@ == s@,
            j <= i <= v@.len(),
            acc <= cap,
            cap <= 9223372036854775808u64,
            cap >= 9223372036854775807u64,
            (if digits_value(s@, j, 0) > cap { cap as int } else { digits_value(s@, j, 0) })
                == (if digits_value(s@, i as int, acc as int) > cap { cap as int } else { digits_value(s@, i as int, acc as int) }),
        decreases v@.len() - i,
    {
        let d = (v[i] as u64) - ('0' as u64);
        proof {
            lemma_digits_sat(s@, i + 1, acc * 10 + d, cap as int);
        }
        let next: u64 = if acc > (cap - d) / 10 { cap } else { acc * 10 + d };
        proof {
            if acc > (cap - d) / 10 {
                assert(acc * 10 + d > cap) by (nonlinear_arith)
                    requires acc > (cap - d) / 10, d <= 9, cap >= 9;
            } else {
                assert(acc * 10 + d <= cap) by (nonlinear_arith)
                    requires acc <= (cap - d) / 10, d <= 9, cap >= 9;
            }
        }
        acc = next;
        i += 1;
    }
    proof {
        assert(digits_value(s@, i as int, acc as int) == acc as int);
    }
    if neg {
        if acc == 9223372036854775808u64 { i64::MIN } else { -(acc as i64) }
    } else {
        acc as i64
    }
}


/// Whether `s` holds no character.
pub fn is_empty_str(s: &str) -> (r: bool)
    ensures
        r == (s@.len() == 0),
{
    chars_of(s).len() == 0
}

/// The views of a list of strings.
pub open spec fn sv(v: Seq<String>) -> Seq<Seq<char>> {
    v.map_values(|s: String| s@)
}

/// The views of a list of character vectors.
pub open spec fn lv(v: Seq<Vec<char>>) -> Seq<Seq<char>> {
    v.map_values(|l: Vec<char>| l@)
}

/// The pieces of `t` between occurrences of `sep`, as `str::split(sep)`
/// yields them (always at least one).
pub open spec fn split_on(t: Seq<char>, sep: char) -> Seq<Seq<char>>
    decreases t.len(),
{
    if t.len() == 0 {
        seq![Seq::<char>::empty()]
    } else {
        let prev = split_on(t.drop_last(), sep);
        if t.last() == sep {
            prev.push(Seq::<char>::empty())
        } else {
            prev.update(prev.len() - 1, prev.last().push(t.last()))
        }
    }
}

pub proof fn lemma_split_on_len(t: Seq<char>, sep: char)
    ensures
        split_on(t, sep).len() >= 1,
    decreases t.len(),
{
    if t.len() > 0 {
        lemma_split_on_len(t.drop_last(), sep);
    }
}

/// Text without the separator extends the last piece.
pub proof fn lemma_split_on_append(a: Seq<char>, b: Seq<char>, sep: char)
    requires
        forall|k: int| 0 <= k < b.len() ==> b[k] != sep,
    ensures
        split_on(a + b, sep).len() == split_on(a, sep).len(),
        split_on(a + b, sep) == split_on(a, sep).update(split_on(a, sep).len() - 1, split_on(a, sep).last() + b),
    decreases b.len(),
{
    lemma_split_on_len(a, sep);
    if b.len() == 0 {
        assert(a + b =~= a);
        assert(split_on(a, sep).last() + b =~= split_on(a, sep).last());
        assert(split_on(a, sep).update(split_on(a, sep).len() - 1, split_on(a, sep).last() + b) =~= split_on(a, sep));
    } else {
        let bd = b.drop_last();
        lemma_split_on_append(a, bd, sep);
        assert((a + b).drop_last() =~= a + bd);
        assert((a + b).last() == b.last());
        let s = split_on(a, sep);
        let prev = split_on(a + bd, sep);
        assert(split_on(a + b, sep) == prev.update(prev.len() - 1, prev.last().push(b.last())));
        assert(prev.last() == s.last() + bd);
        assert(prev.last().push(b.last()) =~= s.last() + b);
        assert(split_on(a + b, sep) =~= s.update(s.len() - 1, s.last() + b));
    }
}

/// The pieces of `t` between occurrences of `sep`.
pub fn split_chars_on(t: &[char], sep: char) -> (r: Vec<Vec<char>>)
    ensures
        lv(r@) == split_on(t@, sep),
{
    let mut out: Vec<Vec<char>> = Vec::new();
    out.push(Vec::new());
    let mut i: usize = 0;
    proof {
        assert(t@.take(0) =~= Seq::<char>::empty());
        assert(lv(out@) =~= split_on(t@.take(0), sep));
    }
    while i < t.len()
        invariant
            i <= t@.len(),
            out@.len() >= 1,
            lv(out@) == split_on(t@.take(i as int), sep),
        decreases t@.len() - i,
    {
        let c = t[i];
        let ghost before = out@;
        proof {
            assert(t@.take(i as int + 1).drop_last() =~= t@.take(i as int));
        }
        if c == sep {
            out.push(Vec::new());
            proof {
                assert(lv(out@) =~= lv(before).push(Seq::<char>::empty()));
            }
        } else {
            let k = out.len() - 1;
            let mut last = out.remove(k);
            last.push(c);
            out.push(last);
            proof {
                let prev = split_on(t@.take(i as int), sep);
                assert(lv(out@) =~= prev.update(prev.len() - 1, prev.last().push(c)));
            }
        }
        i += 1;
    }
    proof { assert(t@.take(t@.len() as int) =~= t@); }
    out
}

/// `a` followed by `b`.
pub fn cat(a: &[char], b: &[char]) -> (r: Vec<char>)
    ensures
        r@ == a@ + b@,
{
    let mut out: Vec<char> = Vec::new();
    let mut i: usize = 0;
    while i < a.len()
        invariant
            i <= a@.len(),
            out@ == a@.take(i as int),
        decreases a@.len() - i,
    {
        out.push(a[i]);
        i += 1;
        proof { assert(out@ =~= a@.take(i as int)); }
    }
    let mut j: usize = 0;
    while j < b.len()
        invariant
            j <= b@.len(),
            out@ == a@ + b@.take(j as int),
        decreases b@.len() - j,
    {
        out.push(b[j]);
        j += 1;
        proof { assert(out@ =~= a@ + b@.take(j as int)); }
    }
    proof {
        assert(a@.take(a@.len() as int) =~= a@);
        assert(b@.take(b@.len() as int) =~= b@);
    }
    out
}


} // verus!
