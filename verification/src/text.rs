use vstd::prelude::*;

verus! {

/// ASCII lowercasing of one character; every other character is kept.
pub open spec fn ascii_lower_char(c: char) -> char {
    if 'A' <= c && c <= 'Z' {
        ((c as u32) + 32) as char
    } else {
        c
    }
}

/// ASCII lowercasing of a character sequence.
pub open spec fn ascii_lower(s: Seq<char>) -> Seq<char> {
    Seq::new(s.len(), |i: int| ascii_lower_char(s[i]))
}

/// What `str::to_lowercase` returns for a character sequence that is not all
/// ASCII (the Unicode lowercase mapping).
pub uninterp spec fn unicode_lowercase(s: Seq<char>) -> Seq<char>;

/// The lowercase form of a character sequence: ASCII lowercasing for an
/// all-ASCII sequence, the Unicode mapping otherwise.
pub open spec fn lowercased(s: Seq<char>) -> Seq<char> {
    if vstd::utf8::is_ascii_chars(s) {
        ascii_lower(s)
    } else {
        unicode_lowercase(s)
    }
}

/// Whether no character is an ASCII capital letter.
pub open spec fn no_ascii_capital(s: Seq<char>) -> bool {
    forall|i: int| 0 <= i < s.len() ==> !('A' <= #[trigger] s[i] && s[i] <= 'Z')
}

/// Calls `str::to_lowercase`.
///
/// Trusted: on an all-ASCII input the result turns `A`..`Z` into `a`..`z`
/// and keeps every other character, as the documentation says; on other
/// input it is the Unicode lowercase mapping, named `unicode_lowercase`.
/// Either way the result holds no ASCII capital: the documentation defines
/// it as the lowercase equivalent under Unicode's `Lowercase` property, in
/// which each of `A`..`Z` becomes its small letter and no character becomes
/// a capital one. Nothing more is claimed of non-ASCII input.
#[verifier::external_body]
pub(crate) fn lowercase(s: &str) -> (r: String)
    ensures
        r@ == (if vstd::utf8::is_ascii_chars(s@) {
            ascii_lower(s@)
        } else {
            unicode_lowercase(s@)
        }),
        no_ascii_capital(r@),
{
    s.to_lowercase()
}

/// The characters of a string slice, in order.
pub fn chars_of(s: &str) -> (v: Vec<char>)
    ensures
        v@ == s@,
{
    let mut v: Vec<char> = Vec::new();
    for c in it: s.chars()
        invariant
            v@ == it.seq().take(it.index() as int),
            it.seq() == s@,
    {
        v.push(c);
    }
    v
}

/// Calls `String::from_iter` on a vector of characters.
///
/// Trusted: the string holds exactly the given characters, in order, as the
/// documentation of `FromIterator<char> for String` says.
#[verifier::external_body]
pub(crate) fn string_from_chars(v: Vec<char>) -> (s: String)
    ensures
        s@ == v@,
{
    String::from_iter(v)
}

/// Whether a string holds exactly the characters of a literal.
pub fn string_is(s: &String, lit: &str) -> (b: bool)
    ensures
        b == (s@ == lit@),
{
    let l = String::from_str(lit);
    *s == l
}

/// Whether two strings hold the same characters.
pub fn string_eq(a: &String, b: &String) -> (r: bool)
    ensures
        r == (a@ == b@),
{
    *a == *b
}

/// A literal followed by a string slice.
pub fn concat_str(prefix: &str, rest: &str) -> (s: String)
    ensures
        s@ == prefix@ + rest@,
{
    let mut s = String::from_str(prefix);
    s.append(rest);
    s
}

/// The decimal digits of a natural number, most significant first.
pub open spec fn decimal_digits(n: nat) -> Seq<char>
    decreases n,
{
    if n < 10 {
        seq![digit_char((n % 10) as nat)]
    } else {
        decimal_digits(n / 10) + seq![digit_char((n % 10) as nat)]
    }
}

/// The ASCII digit for a value below ten.
pub open spec fn digit_char(d: nat) -> char {
    (('0' as nat) + d) as char
}

/// Appends the decimal digits of `n` to `out`.
pub fn push_decimal(n: u64, out: &mut Vec<char>)
    ensures
        final(out)@ == old(out)@ + decimal_digits(n as nat),
    decreases n,
{
    if n >= 10 {
        push_decimal(n / 10, out);
    }
    let c = digit_of(n % 10);
    out.push(c);
    proof {
        assert(final(out)@ =~= old(out)@ + decimal_digits(n as nat)) by {
            if n < 10 {
                assert(n % 10 == n);
            }
        }
    }
}

/// Writes `n` in decimal.
pub fn u64_to_decimal(n: u64) -> (s: String)
    ensures
        s@ == decimal_digits(n as nat),
{
    let mut v: Vec<char> = Vec::new();
    push_decimal(n, &mut v);
    proof {
        assert(v@ =~= decimal_digits(n as nat));
    }
    string_from_chars(v)
}

/// The ASCII digit for a value below ten.
fn digit_of(d: u64) -> (c: char)
    requires
        d < 10,
    ensures
        c == digit_char(d as nat),
{
    match d {
        0 => '0',
        1 => '1',
        2 => '2',
        3 => '3',
        4 => '4',
        5 => '5',
        6 => '6',
        7 => '7',
        8 => '8',
        _ => '9',
    }
}

/// Whether `n` occurs in `h` as a run of consecutive characters.
pub open spec fn has_substring(h: Seq<char>, n: Seq<char>) -> bool {
    exists|i: int| 0 <= i && i + n.len() <= h.len() && #[trigger] h.subrange(i, i + n.len()) == n
}

/// Whether `n` occurs in `h` at position `i`.
fn occurs_at(h: &Vec<char>, n: &Vec<char>, i: usize) -> (b: bool)
    requires
        i + n@.len() <= h@.len(),
    ensures
        b == (h@.subrange(i as int, i + n@.len()) == n@),
{
    let hl = h.len();
    let mut j: usize = 0;
    while j < n.len()
        invariant
            j <= n@.len(),
            hl == h@.len(),
            i + n@.len() <= h@.len(),
            forall|k: int| 0 <= k < j ==> h@[i + k] == n@[k],
        decreases n@.len() - j,
    {
        if h[i + j] != n[j] {
            proof {
                assert(h@.subrange(i as int, i + n@.len())[j as int] != n@[j as int]);
            }
            return false;
        }
        j = j + 1;
    }
    proof {
        assert(h@.subrange(i as int, i + n@.len()) =~= n@);
    }
    true
}

/// Whether `n` occurs in `h`, as `str::contains` answers for a string
/// pattern.
pub fn contains_str(h: &str, n: &str) -> (b: bool)
    ensures
        b == has_substring(h@, n@),
{
    let hv = chars_of(h);
    let nv = chars_of(n);
    if nv.len() > hv.len() {
        return false;
    }
    let last = hv.len() - nv.len();
    let mut i: usize = 0;
    while i <= last
        invariant
            last == hv@.len() - nv@.len(),
            nv@.len() <= hv@.len(),
            hv@ == h@,
            nv@ == n@,
            forall|k: int| 0 <= k < i ==> #[trigger] h@.subrange(k, k + n@.len()) != n@,
        decreases last + 1 - i,
    {
        if occurs_at(&hv, &nv, i) {
            return true;
        }
        if i == last {
            return false;
        }
        i = i + 1;
    }
    false
}

/// Whether a character is an ASCII decimal digit.
pub open spec fn is_digit_char(c: char) -> bool {
    '0' <= c && c <= '9'
}

/// Whether every character is an ASCII decimal digit.
pub open spec fn all_digits(s: Seq<char>) -> bool {
    forall|i: int| 0 <= i < s.len() ==> is_digit_char(#[trigger] s[i])
}

/// The value of a run of decimal digits.
pub open spec fn digits_value(s: Seq<char>) -> nat
    decreases s.len(),
{
    if s.len() == 0 {
        0
    } else {
        digits_value(s.drop_last()) * 10 + ((s.last() as nat) - ('0' as nat)) as nat
    }
}

/// The digits of a number text, after an optional leading plus sign.
pub open spec fn unsigned_body(s: Seq<char>) -> Seq<char> {
    if s.len() > 0 && s[0] == '+' {
        s.drop_first()
    } else {
        s
    }
}

/// What `str::parse::<u32>` gives for a text: an optional plus sign and at
/// least one decimal digit whose value fits in 32 bits, or nothing.
pub open spec fn parsed_u32(s: Seq<char>) -> Option<u32> {
    let d = unsigned_body(s);
    if d.len() > 0 && all_digits(d) && digits_value(d) <= u32::MAX {
        Some(digits_value(d) as u32)
    } else {
        None
    }
}

/// Parses an unsigned 32-bit decimal number as `str::parse::<u32>` does.
pub fn parse_u32(s: &str) -> (r: Option<u32>)
    ensures
        r == parsed_u32(s@),
{
    let v = chars_of(s);
    let n = v.len();
    let mut start: usize = 0;
    if n > 0 && v[0] == '+' {
        start = 1;
    }
    let ghost d = unsigned_body(s@);
    proof {
        assert(d =~= v@.subrange(start as int, n as int));
    }
    if start >= n {
        return None;
    }
    let cap: u64 = 0x1_0000_0000;
    let mut acc: u64 = 0;
    let mut i: usize = start;
    while i < n
        invariant
            start <= i <= n,
            n == v@.len(),
            v@ == s@,
            d == v@.subrange(start as int, n as int),
            d == unsigned_body(s@),
            cap == 0x1_0000_0000,
            all_digits(v@.subrange(start as int, i as int)),
            acc == if digits_value(v@.subrange(start as int, i as int)) < cap { digits_value(v@.subrange(start as int, i as int)) } else { cap as nat },
        decreases n - i,
    {
        let c = v[i];
        if !('0' <= c && c <= '9') {
            proof {
                assert(d[i - start] == c);
                assert(!is_digit_char(d[i - start]));
                assert(!all_digits(d));
            }
            return None;
        }
        let digit = (c as u32 - '0' as u32) as u64;
        proof {
            let p = v@.subrange(start as int, i as int);
            let q = v@.subrange(start as int, i as int + 1);
            assert(q.drop_last() =~= p);
            assert(q.last() == c);
            assert(all_digits(q)) by {
                assert forall|k: int| 0 <= k < q.len() implies is_digit_char(#[trigger] q[k]) by {
                    if k < p.len() {
                        assert(q[k] == p[k]);
                    }
                }
            }
        }
        if acc >= cap {
            acc = cap;
        } else {
            let next = acc * 10 + digit;
            acc = if next >= cap { cap } else { next };
        }
        i = i + 1;
    }
    if acc >= cap {
        None
    } else {
        Some(acc as u32)
    }
}

/// Whether `char::is_whitespace` holds: the Unicode `White_Space`
/// characters.
pub open spec fn is_whitespace_char(c: char) -> bool {
    ||| ('\u{9}' <= c && c <= '\u{d}')
    ||| c == ' '
    ||| c == '\u{85}'
    ||| c == '\u{a0}'
    ||| c == '\u{1680}'
    ||| ('\u{2000}' <= c && c <= '\u{200a}')
    ||| c == '\u{2028}'
    ||| c == '\u{2029}'
    ||| c == '\u{202f}'
    ||| c == '\u{205f}'
    ||| c == '\u{3000}'
}

/// A sequence without its leading whitespace.
pub open spec fn trim_start_chars(s: Seq<char>) -> Seq<char>
    decreases s.len(),
{
    if s.len() > 0 && is_whitespace_char(s[0]) {
        trim_start_chars(s.drop_first())
    } else {
        s
    }
}

/// A sequence without its trailing whitespace.
pub open spec fn trim_end_chars(s: Seq<char>) -> Seq<char>
    decreases s.len(),
{
    if s.len() > 0 && is_whitespace_char(s.last()) {
        trim_end_chars(s.drop_last())
    } else {
        s
    }
}

/// A sequence without leading or trailing whitespace, as `str::trim` gives.
pub open spec fn trimmed(s: Seq<char>) -> Seq<char> {
    trim_end_chars(trim_start_chars(s))
}

/// Whether `char::is_whitespace` holds.
pub fn whitespace_char(c: char) -> (b: bool)
    ensures
        b == is_whitespace_char(c),
{
    whitespace(c)
}

/// Whether `char::is_whitespace` holds.
fn whitespace(c: char) -> (b: bool)
    ensures
        b == is_whitespace_char(c),
{
    ('\u{9}' <= c && c <= '\u{d}') || c == ' ' || c == '\u{85}' || c == '\u{a0}' || c == '\u{1680}'
        || ('\u{2000}' <= c && c <= '\u{200a}') || c == '\u{2028}' || c == '\u{2029}' || c == '\u{202f}'
        || c == '\u{205f}' || c == '\u{3000}'
}

/// The characters without leading whitespace.
pub fn trim_start_of(v: &Vec<char>) -> (r: Vec<char>)
    ensures
        r@ == trim_start_chars(v@),
{
    let n = v.len();
    let mut a: usize = 0;
    proof {
        assert(v@.subrange(0, n as int) =~= v@);
    }
    while a < n && whitespace(v[a])
        invariant
            a <= n,
            n == v@.len(),
            trim_start_chars(v@) == trim_start_chars(v@.subrange(a as int, n as int)),
        decreases n - a,
    {
        proof {
            let t = v@.subrange(a as int, n as int);
            assert(t.drop_first() =~= v@.subrange(a as int + 1, n as int));
        }
        a = a + 1;
    }
    let mut r: Vec<char> = Vec::new();
    let mut i: usize = a;
    while i < n
        invariant
            a <= i <= n,
            n == v@.len(),
            r@ == v@.subrange(a as int, i as int),
        decreases n - i,
    {
        r.push(v[i]);
        proof {
            assert(v@.subrange(a as int, i as int + 1) =~= v@.subrange(a as int, i as int).push(v@[i as int]));
        }
        i = i + 1;
    }
    r
}

/// The characters without leading or trailing whitespace.
pub fn trim_chars(v: &Vec<char>) -> (r: Vec<char>)
    ensures
        r@ == trimmed(v@),
{
    let n = v.len();
    let mut a: usize = 0;
    proof {
        assert(v@.subrange(0, n as int) =~= v@);
    }
    while a < n && whitespace(v[a])
        invariant
            a <= n,
            n == v@.len(),
            trim_start_chars(v@) == trim_start_chars(v@.subrange(a as int, n as int)),
        decreases n - a,
    {
        proof {
            let t = v@.subrange(a as int, n as int);
            assert(t.drop_first() =~= v@.subrange(a as int + 1, n as int));
        }
        a = a + 1;
    }
    let ghost start = v@.subrange(a as int, n as int);
    proof {
        assert(trim_start_chars(start) == start);
    }
    let mut b: usize = n;
    while b > a && whitespace(v[b - 1])
        invariant
            a <= b <= n,
            n == v@.len(),
            trim_end_chars(start) == trim_end_chars(v@.subrange(a as int, b as int)),
        decreases b,
    {
        proof {
            let t = v@.subrange(a as int, b as int);
            assert(t.drop_last() =~= v@.subrange(a as int, b as int - 1));
        }
        b = b - 1;
    }
    let mut r: Vec<char> = Vec::new();
    let mut i: usize = a;
    while i < b
        invariant
            a <= i <= b,
            b <= n,
            n == v@.len(),
            r@ == v@.subrange(a as int, i as int),
        decreases b - i,
    {
        r.push(v[i]);
        proof {
            assert(v@.subrange(a as int, i as int + 1) =~= v@.subrange(a as int, i as int).push(v@[i as int]));
        }
        i = i + 1;
    }
    proof {
        let t = v@.subrange(a as int, b as int);
        assert(trim_end_chars(t) == t);
    }
    r
}

/// The pieces of `s` between occurrences of `sep`, as `str::split` with a
/// character pattern gives them (always at least one piece).
pub open spec fn split_on(s: Seq<char>, sep: char) -> Seq<Seq<char>>
    decreases s.len(),
{
    if s.len() == 0 {
        seq![Seq::<char>::empty()]
    } else {
        let r = split_on(s.drop_last(), sep);
        if s.last() == sep {
            r.push(Seq::<char>::empty())
        } else {
            r.update(r.len() - 1, r.last().push(s.last()))
        }
    }
}

/// `split_on` always gives at least one piece.
pub proof fn lemma_split_nonempty(s: Seq<char>, sep: char)
    ensures
        split_on(s, sep).len() >= 1,
    decreases s.len(),
{
    if s.len() > 0 {
        lemma_split_nonempty(s.drop_last(), sep);
    }
}

/// The pieces of a character sequence between the separators.
pub fn split_chars(v: &Vec<char>, sep: char) -> (r: Vec<Vec<char>>)
    ensures
        r@.len() == split_on(v@, sep).len(),
        forall|i: int| 0 <= i < r@.len() ==> #[trigger] r@[i]@ == split_on(v@, sep)[i],
{
    let mut r: Vec<Vec<char>> = Vec::new();
    let mut cur: Vec<char> = Vec::new();
    let mut i: usize = 0;
    while i < v.len()
        invariant
            i <= v@.len(),
            ({
                let sp = split_on(v@.take(i as int), sep);
                &&& sp.len() == r@.len() + 1
                &&& forall|k: int| 0 <= k < r@.len() ==> #[trigger] r@[k]@ == sp[k]
                &&& cur@ == sp.last()
            }),
        decreases v@.len() - i,
    {
        let c = v[i];
        proof {
            let t = v@.take(i as int + 1);
            assert(t.drop_last() =~= v@.take(i as int));
            assert(t.last() == c);
            lemma_split_nonempty(v@.take(i as int), sep);
        }
        if c == sep {
            let mut done: Vec<char> = Vec::new();
            std::mem::swap(&mut done, &mut cur);
            r.push(done);
        } else {
            cur.push(c);
        }
        i = i + 1;
    }
    proof {
        assert(v@.take(v@.len() as int) =~= v@);
    }
    r.push(cur);
    r
}

/// The decimal digits of a number are decimal digits, the first of them
/// not a plus sign, and their value is the number.
proof fn lemma_decimal_digits_value(n: nat)
    ensures
        decimal_digits(n).len() > 0,
        all_digits(decimal_digits(n)),
        digits_value(decimal_digits(n)) == n,
        decimal_digits(n)[0] != '+',
    decreases n,
{
    let d = digit_char((n % 10) as nat);
    assert(is_digit_char(d));
    assert((d as nat) - ('0' as nat) == n % 10);
    if n < 10 {
        let s = decimal_digits(n);
        assert(s == seq![d]);
        assert(s.drop_last() =~= Seq::<char>::empty());
        assert(digits_value(s) == digits_value(s.drop_last()) * 10 + ((s.last() as nat) - ('0' as nat)) as nat);
        assert(digits_value(Seq::<char>::empty()) == 0);
        assert(n % 10 == n);
    } else {
        lemma_decimal_digits_value(n / 10);
        let p = decimal_digits(n / 10);
        let s = decimal_digits(n);
        assert(s == p + seq![d]);
        assert(s.drop_last() =~= p);
        assert(s.last() == d);
        assert forall|i: int| 0 <= i < s.len() implies is_digit_char(#[trigger] s[i]) by {
            if i < p.len() {
                assert(s[i] == p[i]);
            }
        }
        assert(s[0] == p[0]);
        assert(digits_value(s) == digits_value(p) * 10 + (n % 10));
        assert(n == (n / 10) * 10 + n % 10) by (nonlinear_arith);
    }
}

/// Parsing the decimal text of a 32-bit number gives the number back.
pub proof fn lemma_decimal_round_trip(n: u32)
    ensures
        parsed_u32(decimal_digits(n as nat)) == Some(n),
{
    lemma_decimal_digits_value(n as nat);
}

} // verus!
