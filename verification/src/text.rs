use vstd::prelude::*;
use vstd::string::*;

verus! {

/// Appends one character to a string (std's `String::push`).
#[verifier::external_body]
pub(crate) fn push_char(s: &mut String, c: char)
    ensures
        final(s)@ == old(s)@.push(c),
{
    s.push(c);
}

/// The characters of a string slice, in order.
pub fn chars_of(s: &str) -> (v: Vec<char>)
    ensures
        v@ == s@,
{
    let mut v: Vec<char> = Vec::new();
    for c in it: s.chars()
        invariant
            v@ == it.seq().take(it.index() as int),
            it.seq() == s@,
    {
        v.push(c);
    }
    v
}

/// A string made of the given characters.
pub fn string_of(v: &[char]) -> (s: String)
    ensures
        s@ == v@,
{
    let mut s = String::new();
    let mut i: usize = 0;
    while i < v.len()
        invariant
            i <= v@.len(),
            s@ == v@.take(i as int),
        decreases v@.len() - i,
    {
        push_char(&mut s, v[i]);
        i = i + 1;
        assert(v@.take(i as int) == v@.take((i - 1) as int).push(v@[i - 1]));
    }
    assert(v@.take(v@.len() as int) == v@);
    s
}

pub fn append_str(s: &mut String, t: &str)
    ensures
        final(s)@ == old(s)@ + t@,
{
    s.append(t);
}

} // verus!

verus! {

/// Unicode White_Space, the property that `char::is_whitespace` tests.
pub open spec fn is_space(c: char) -> bool {
    let u = c as u32;
    (0x09 <= u && u <= 0x0d) || u == 0x20 || u == 0x85 || u == 0xa0 || u == 0x1680 || (0x2000
        <= u && u <= 0x200a) || u == 0x2028 || u == 0x2029 || u == 0x202f || u == 0x205f || u
        == 0x3000
}

pub fn char_is_space(c: char) -> (b: bool)
    ensures
        b == is_space(c),
{
    let u = c as u32;
    (0x09 <= u && u <= 0x0d) || u == 0x20 || u == 0x85 || u == 0xa0 || u == 0x1680 || (0x2000
        <= u && u <= 0x200a) || u == 0x2028 || u == 0x2029 || u == 0x202f || u == 0x205f || u
        == 0x3000
}

/// `s` without its leading white space.
pub open spec fn trim_start(s: Seq<char>) -> Seq<char>
    decreases s.len(),
{
    if s.len() > 0 && is_space(s[0]) {
        trim_start(s.drop_first())
    } else {
        s
    }
}

/// `s` without its trailing white space.
pub open spec fn trim_end(s: Seq<char>) -> Seq<char>
    decreases s.len(),
{
    if s.len() > 0 && is_space(s.last()) {
        trim_end(s.drop_last())
    } else {
        s
    }
}

/// `s` without leading and trailing white space, as `str::trim` gives it.
pub open spec fn trim(s: Seq<char>) -> Seq<char> {
    trim_end(trim_start(s))
}

/// `s` without the trailing copies of `c`, as `str::trim_end_matches(c)` gives it.
pub open spec fn trim_end_char(s: Seq<char>, c: char) -> Seq<char>
    decreases s.len(),
{
    if s.len() > 0 && s.last() == c {
        trim_end_char(s.drop_last(), c)
    } else {
        s
    }
}

/// Whether `s` begins with `p`.
pub open spec fn starts_with(s: Seq<char>, p: Seq<char>) -> bool {
    p.len() <= s.len() && s.take(p.len() as int) == p
}

/// Whether `p` occurs in `s` at position `i`.
pub open spec fn matches_at(s: Seq<char>, p: Seq<char>, i: int) -> bool {
    0 <= i && i + p.len() <= s.len() && s.subrange(i, i + p.len()) == p
}

/// `s` with every occurrence of `p` replaced by `r`, occurrences taken from
/// left to right without overlap, as `str::replace` does for a non-empty `p`.
pub open spec fn replace_all(s: Seq<char>, p: Seq<char>, r: Seq<char>) -> Seq<char>
    decreases s.len(),
{
    if s.len() == 0 || p.len() == 0 {
        s
    } else if starts_with(s, p) {
        r + replace_all(s.skip(p.len() as int), p, r)
    } else {
        seq![s[0]] + replace_all(s.drop_first(), p, r)
    }
}

pub fn trim_chars(s: &Vec<char>) -> (r: Vec<char>)
    ensures
        r@ == trim(s@),
{
    let n = s.len();
    let mut a: usize = 0;
    assert(s@.subrange(0, n as int) == s@);
    while a < n && char_is_space(s[a])
        invariant
            a <= n,
            n == s@.len(),
            trim_start(s@) == trim_start(s@.subrange(a as int, n as int)),
        decreases n - a,
    {
        assert(s@.subrange(a as int, n as int).drop_first() == s@.subrange(a + 1, n as int));
        a = a + 1;
    }
    assert(trim_start(s@) == s@.subrange(a as int, n as int));
    let mut b: usize = n;
    while b > a && char_is_space(s[b - 1])
        invariant
            a <= b <= n,
            n == s@.len(),
            trim(s@) == trim_end(s@.subrange(a as int, b as int)),
        decreases b,
    {
        assert(s@.subrange(a as int, b as int).drop_last() == s@.subrange(a as int, b - 1));
        b = b - 1;
    }
    let mut r: Vec<char> = Vec::new();
    let mut k: usize = a;
    while k < b
        invariant
            a <= k <= b <= n,
            n == s@.len(),
            r@ == s@.subrange(a as int, k as int),
        decreases b - k,
    {
        r.push(s[k]);
        k = k + 1;
    }
    r
}

pub fn trim_end_char_chars(s: &Vec<char>, c: char) -> (r: Vec<char>)
    ensures
        r@ == trim_end_char(s@, c),
{
    let mut r = s.clone();
    while r.len() > 0 && r[r.len() - 1] == c
        invariant
            trim_end_char(s@, c) == trim_end_char(r@, c),
        decreases r@.len(),
    {
        r.pop();
    }
    r
}

pub fn starts_with_chars(s: &Vec<char>, p: &Vec<char>) -> (b: bool)
    ensures
        b == starts_with(s@, p@),
{
    if p.len() > s.len() {
        return false;
    }
    let mut k: usize = 0;
    while k < p.len()
        invariant
            k <= p@.len() <= s@.len(),
            s@.take(k as int) == p@.take(k as int),
        decreases p@.len() - k,
    {
        if s[k] != p[k] {
            assert(s@.take(p@.len() as int)[k as int] != p@[k as int]);
            return false;
        }
        k = k + 1;
        assert(s@.take(k as int) == p@.take(k as int));
    }
    assert(p@.take(p@.len() as int) == p@);
    true
}

pub fn matches_at_chars(s: &Vec<char>, p: &Vec<char>, i: usize) -> (b: bool)
    ensures
        b == matches_at(s@, p@, i as int),
{
    if i > s.len() || p.len() > s.len() - i {
        return false;
    }
    let mut k: usize = 0;
    while k < p.len()
        invariant
            i + p@.len() <= s@.len(),
            s@.len() <= usize::MAX,
            k <= p@.len(),
            s@.subrange(i as int, i + k) == p@.take(k as int),
        decreases p@.len() - k,
    {
        if s[i + k] != p[k] {
            assert(s@.subrange(i as int, i + p@.len())[k as int] != p@[k as int]);
            return false;
        }
        k = k + 1;
        assert(s@.subrange(i as int, i + k) == p@.take(k as int));
    }
    assert(p@.take(p@.len() as int) == p@);
    true
}

proof fn lemma_starts_with_skip(s: Seq<char>, p: Seq<char>, i: int)
    requires
        0 <= i <= s.len(),
    ensures
        starts_with(s.skip(i), p) == matches_at(s, p, i),
{
    if p.len() <= s.len() - i {
        assert(s.skip(i).take(p.len() as int) == s.subrange(i, i + p.len()));
    }
}

pub fn replace_chars(s: &Vec<char>, p: &Vec<char>, r: &Vec<char>) -> (out: Vec<char>)
    ensures
        out@ == replace_all(s@, p@, r@),
{
    if p.len() == 0 {
        return s.clone();
    }
    let mut out: Vec<char> = Vec::new();
    let mut i: usize = 0;
    assert(s@.skip(0) == s@);
    while i < s.len()
        invariant
            i <= s@.len(),
            p@.len() > 0,
            out@ + replace_all(s@.skip(i as int), p@, r@) == replace_all(s@, p@, r@),
        decreases s@.len() - i,
    {
        proof {
            lemma_starts_with_skip(s@, p@, i as int);
        }
        if matches_at_chars(s, p, i) {
            assert(s@.skip(i as int).skip(p@.len() as int) == s@.skip(i + p@.len()));
            let mut k: usize = 0;
            let ghost before = out@;
            while k < r.len()
                invariant
                    k <= r@.len(),
                    out@ == before + r@.take(k as int),
                decreases r@.len() - k,
            {
                out.push(r[k]);
                k = k + 1;
                assert(out@ == before + r@.take(k as int));
            }
            assert(r@.take(r@.len() as int) == r@);
            assert(before + (r@ + replace_all(s@.skip(i + p@.len()), p@, r@)) == out@
                + replace_all(s@.skip(i + p@.len()), p@, r@));
            i = i + p.len();
        } else {
            assert(s@.skip(i as int).drop_first() == s@.skip(i + 1));
            let ghost before = out@;
            out.push(s[i]);
            assert(before + (seq![s@[i as int]] + replace_all(s@.skip(i + 1), p@, r@)) == out@
                + replace_all(s@.skip(i + 1), p@, r@));
            i = i + 1;
        }
    }
    assert(s@.skip(s@.len() as int) == Seq::<char>::empty());
    assert(out@ + Seq::<char>::empty() == out@);
    out
}

} // verus!

verus! {

/// The character of the decimal digit `d`.
pub open spec fn digit_char(d: nat) -> char {
    ((48 + d) as u8) as char
}

/// The decimal representation of `n`, without sign or leading zeros.
pub open spec fn decimal(n: nat) -> Seq<char>
    decreases n,
{
    if n < 10 {
        seq![digit_char(n)]
    } else {
        decimal(n / 10).push(digit_char(n % 10))
    }
}

/// Appends the decimal representation of `n`.
pub fn push_decimal(out: &mut Vec<char>, n: u64)
    ensures
        final(out)@ == old(out)@ + decimal(n as nat),
    decreases n,
{
    if n >= 10 {
        push_decimal(out, n / 10);
    }
    let d = (n % 10) as u8;
    out.push((48u8 + d) as char);
}

/// The decimal representation of `n` as a string, as `to_string` gives it.
pub fn decimal_string(n: u64) -> (s: String)
    ensures
        s@ == decimal(n as nat),
{
    let mut v: Vec<char> = Vec::new();
    push_decimal(&mut v, n);
    string_of(v.as_slice())
}

pub open spec fn is_digit(c: char) -> bool {
    48 <= (c as u32) && (c as u32) <= 57
}

pub open spec fn digit_value(c: char) -> nat {
    ((c as u32) - 48) as nat
}

pub open spec fn all_digits(s: Seq<char>) -> bool {
    forall|i: int| 0 <= i < s.len() ==> is_digit(#[trigger] s[i])
}

/// The value of a string of decimal digits.
pub open spec fn digits_value(s: Seq<char>) -> nat
    decreases s.len(),
{
    if s.len() == 0 {
        0
    } else {
        digits_value(s.drop_last()) * 10 + digit_value(s.last())
    }
}

/// The digits of an unsigned number: the string without one leading `+`.
pub open spec fn unsigned_digits(s: Seq<char>) -> Seq<char> {
    if s.len() > 0 && s[0] == '+' {
        s.drop_first()
    } else {
        s
    }
}

/// What `str::parse` gives for an unsigned integer type whose largest value
/// is `max`: an optional `+`, then at least one decimal digit, and a value
/// that fits.
pub open spec fn parse_unsigned(s: Seq<char>, max: nat) -> Option<nat> {
    let d = unsigned_digits(s);
    if d.len() > 0 && all_digits(d) && digits_value(d) <= max {
        Some(digits_value(d))
    } else {
        None
    }
}

proof fn lemma_digits_value_monotone(s: Seq<char>, k: int, j: int)
    requires
        0 <= k <= j <= s.len(),
    ensures
        digits_value(s.take(k)) <= digits_value(s.take(j)),
    decreases j - k,
{
    if k < j {
        lemma_digits_value_monotone(s, k, j - 1);
        assert(s.take(j).drop_last() == s.take(j - 1));
    }
}

/// The decimal representation of a number is a non-empty string of digits
/// whose value is the number.
pub proof fn lemma_decimal_digits(n: nat)
    ensures
        decimal(n).len() > 0,
        all_digits(decimal(n)),
        digits_value(decimal(n)) == n,
    decreases n,
{
    if n >= 10 {
        lemma_decimal_digits(n / 10);
        let d = decimal(n);
        assert(d.drop_last() == decimal(n / 10));
        assert(digit_char(n % 10) as u32 == 48 + n % 10);
        assert(d.last() == digit_char(n % 10));
        assert(digits_value(d) == (n / 10) * 10 + n % 10);
        assert((n / 10) * 10 + n % 10 == n) by (nonlinear_arith);
        assert forall|i: int| 0 <= i < d.len() implies is_digit(#[trigger] d[i]) by {
            if i < d.len() - 1 {
                assert(d[i] == decimal(n / 10)[i]);
            }
        }
    } else {
        assert(decimal(n).drop_last() =~= Seq::<char>::empty());
        assert(decimal(n).last() == digit_char(n));
        assert(digit_char(n) as u32 == 48 + n);
        assert(digits_value(decimal(n).drop_last()) == 0);
    }
}

/// `str::parse` reads the decimal representation of a number back as that
/// number, when it fits.
pub proof fn lemma_decimal_parses(n: nat, max: nat)
    requires
        n <= max,
    ensures
        parse_unsigned(decimal(n), max) == Some(n),
{
    lemma_decimal_digits(n);
    assert(is_digit(decimal(n)[0]));
    assert(unsigned_digits(decimal(n)) == decimal(n));
}

/// Splitting text that ends in a piece without the separator: the piece
/// extends the last part.
pub proof fn lemma_split_on_append(s: Seq<char>, t: Seq<char>, c: char)
    requires
        !t.contains(c),
    ensures
        split_on(s + t, c) == split_on(s, c).update(
            split_on(s, c).len() - 1,
            split_on(s, c).last() + t,
        ),
        split_on(s, c).len() > 0,
    decreases t.len(),
{
    lemma_split_on_nonempty(s, c);
    if t.len() == 0 {
        assert(s + t =~= s);
        assert(split_on(s, c).last() + t =~= split_on(s, c).last());
        assert(split_on(s, c).update(split_on(s, c).len() - 1, split_on(s, c).last())
            =~= split_on(s, c));
    } else {
        let u = t.drop_last();
        assert(!u.contains(c)) by {
            if u.contains(c) {
                let i = choose|i: int| 0 <= i < u.len() && u[i] == c;
                assert(t[i] == c);
            }
        }
        lemma_split_on_append(s, u, c);
        assert((s + t).drop_last() =~= s + u);
        assert((s + t).last() == t.last());
        assert(t.last() != c) by {
            assert(t[t.len() - 1] == t.last());
        }
        let l = split_on(s, c);
        assert(l.last() + t =~= (l.last() + u).push(t.last()));
        assert(split_on(s + t, c) =~= l.update(l.len() - 1, l.last() + t));
    }
}

/// Splitting text that ends in the separator: an empty last part follows.
pub proof fn lemma_split_on_push_separator(s: Seq<char>, c: char)
    ensures
        split_on(s.push(c), c) == split_on(s, c).push(Seq::empty()),
{
    assert(s.push(c).drop_last() =~= s);
}

/// Parses an unsigned decimal number as `str::parse` does for a type whose
/// largest value is `max`.
pub fn parse_unsigned_chars(s: &Vec<char>, max: u64) -> (r: Option<u64>)
    ensures
        match r {
            Some(v) => parse_unsigned(s@, max as nat) == Some(v as nat),
            None => parse_unsigned(s@, max as nat) is None,
        },
{
    let ghost d = unsigned_digits(s@);
    let start: usize = if s.len() > 0 && s[0] == '+' {
        1
    } else {
        0
    };
    assert(d == s@.skip(start as int));
    if start == s.len() {
        return None;
    }
    let mut acc: u64 = 0;
    let mut k: usize = start;
    while k < s.len()
        invariant
            start <= k <= s@.len(),
            d == s@.skip(start as int),
            d == unsigned_digits(s@),
            all_digits(d.take(k - start)),
            acc as nat == digits_value(d.take(k - start)),
            acc <= max,
        decreases s@.len() - k,
    {
        let c = s[k];
        let u = c as u32;
        assert(d[k - start] == c);
        if u < 48 || u > 57 {
            assert(!is_digit(d[k - start]));
            assert(!all_digits(d));
            return None;
        }
        let next: u128 = (acc as u128) * 10 + ((u - 48) as u128);
        assert(d.take(k + 1 - start).drop_last() == d.take(k - start));
        assert(next == digits_value(d.take(k + 1 - start)));
        if next > max as u128 {
            proof {
                lemma_digits_value_monotone(d, k + 1 - start, d.len() as int);
                assert(d.take(d.len() as int) == d);
                assert(digits_value(d) > max);
            }
            return None;
        }
        acc = next as u64;
        k = k + 1;
        assert(all_digits(d.take(k - start))) by {
            assert forall|i: int| 0 <= i < d.take(k - start).len() implies is_digit(
                #[trigger] d.take(k - start)[i],
            ) by {
                if i < k - 1 - start {
                    assert(d.take(k - start)[i] == d.take(k - 1 - start)[i]);
                }
            }
        }
    }
    assert(d.take(d.len() as int) == d);
    Some(acc)
}

} // verus!

verus! {

/// Whether two strings hold the same characters.
pub fn same_text(a: &str, b: &str) -> (r: bool)
    ensures
        r == (a@ == b@),
{
    let x = chars_of(a);
    let y = chars_of(b);
    if x.len() != y.len() {
        return false;
    }
    let mut k: usize = 0;
    while k < x.len()
        invariant
            k <= x@.len(),
            x@.len() == y@.len(),
            x@ == a@,
            y@ == b@,
            x@.take(k as int) == y@.take(k as int),
        decreases x@.len() - k,
    {
        if x[k] != y[k] {
            assert(x@[k as int] != y@[k as int]);
            assert(x@ != y@);
            return false;
        }
        k = k + 1;
        assert(x@.take(k as int) == y@.take(k as int));
    }
    assert(x@ == x@.take(x@.len() as int));
    assert(y@ == y@.take(y@.len() as int));
    true
}

/// Whether `c` occurs in `v`.
pub fn contains_char(v: &Vec<char>, c: char) -> (r: bool)
    ensures
        r == v@.contains(c),
{
    let mut k: usize = 0;
    while k < v.len()
        invariant
            k <= v@.len(),
            forall|i: int| 0 <= i < k ==> v@[i] != c,
        decreases v@.len() - k,
    {
        if v[k] == c {
            assert(v@[k as int] == c);
            return true;
        }
        k = k + 1;
    }
    false
}

/// The spec view of a result of strings.
pub open spec fn text_result(r: Result<String, String>) -> Result<Seq<char>, Seq<char>> {
    match r {
        Ok(s) => Ok(s@),
        Err(e) => Err(e@),
    }
}

/// The trimmed text of `s` as a new string.
pub fn trimmed(s: &str) -> (r: String)
    ensures
        r@ == trim(s@),
{
    let v = chars_of(s);
    let t = trim_chars(&v);
    string_of(t.as_slice())
}

} // verus!

verus! {

/// The first position at or after `i` where the non-empty `p` occurs in `s`.
pub open spec fn find_from(s: Seq<char>, p: Seq<char>, i: int) -> Option<int>
    decreases s.len() + 1 - i,
{
    if i < 0 || p.len() == 0 || i + p.len() > s.len() {
        None
    } else if matches_at(s, p, i) {
        Some(i)
    } else {
        find_from(s, p, i + 1)
    }
}

pub proof fn lemma_find_from_bounds(s: Seq<char>, p: Seq<char>, i: int)
    ensures
        find_from(s, p, i) matches Some(k) ==> i <= k && k + p.len() <= s.len() && matches_at(
            s,
            p,
            k,
        ),
        find_from(s, p, i) is None && 0 <= i && p.len() > 0 ==> forall|k: int|
            i <= k ==> !matches_at(s, p, k),
    decreases s.len() + 1 - i,
{
    if i < 0 || p.len() == 0 || i + p.len() > s.len() {
    } else if matches_at(s, p, i) {
    } else {
        lemma_find_from_bounds(s, p, i + 1);
        if find_from(s, p, i) is None {
            assert forall|k: int| i <= k implies !matches_at(s, p, k) by {
                if k > i {
                }
            }
        }
    }
}

/// `find_from` as `str::find` from position `i`, for a non-empty pattern.
pub fn find_from_chars(s: &Vec<char>, p: &Vec<char>, i: usize) -> (r: Option<usize>)
    requires
        p@.len() > 0,
    ensures
        match r {
            Some(k) => find_from(s@, p@, i as int) == Some(k as int),
            None => find_from(s@, p@, i as int) is None,
        },
{
    let mut k = i;
    while k < s.len()
        invariant
            i <= k,
            p@.len() > 0,
            find_from(s@, p@, i as int) == find_from(s@, p@, k as int),
        decreases s@.len() - k,
    {
        if p.len() > s.len() - k {
            return None;
        }
        if matches_at_chars(s, p, k) {
            return Some(k);
        }
        k = k + 1;
    }
    None
}

/// The pieces of `s` that follow each occurrence of `p` at or after `pos`,
/// each running to the next occurrence or to the end: what
/// `s.split(p).skip(1)` yields when `pos` is zero.
pub open spec fn pieces_from(s: Seq<char>, p: Seq<char>, pos: int) -> Seq<Seq<char>>
    decreases s.len() + 1 - pos,
{
    if p.len() == 0 || pos < 0 || pos > s.len() {
        Seq::empty()
    } else {
        match find_from(s, p, pos) {
            None => Seq::empty(),
            Some(i) => if i < pos || i + p.len() > s.len() {
                Seq::empty()
            } else {
                let start = i + p.len();
                let end = match find_from(s, p, start) {
                    Some(k) => k,
                    None => s.len() as int,
                };
                seq![s.subrange(start, end)] + pieces_from(s, p, start)
            },
        }
    }
}

/// The characters of `s` from `a` up to `b`.
pub fn slice_chars(s: &Vec<char>, a: usize, b: usize) -> (r: Vec<char>)
    requires
        a <= b <= s@.len(),
    ensures
        r@ == s@.subrange(a as int, b as int),
{
    let mut r: Vec<char> = Vec::new();
    let mut k = a;
    while k < b
        invariant
            a <= k <= b <= s@.len(),
            r@ == s@.subrange(a as int, k as int),
        decreases b - k,
    {
        r.push(s[k]);
        k = k + 1;
    }
    r
}

/// The pieces that `split(p).skip(1)` gives, as vectors.
pub fn pieces_after(s: &Vec<char>, p: &Vec<char>) -> (r: Vec<Vec<char>>)
    requires
        p@.len() > 0,
    ensures
        r@.len() == pieces_from(s@, p@, 0).len(),
        forall|k: int| 0 <= k < r@.len() ==> #[trigger] r@[k]@ == pieces_from(s@, p@, 0)[k],
{
    let mut r: Vec<Vec<char>> = Vec::new();
    let ghost mut done: Seq<Seq<char>> = Seq::empty();
    let mut pos: usize = 0;
    let n = s.len();
    loop
        invariant
            p@.len() > 0,
            n == s@.len(),
            pos <= s@.len(),
            done + pieces_from(s@, p@, pos as int) == pieces_from(s@, p@, 0),
            r@.len() == done.len(),
            forall|k: int| 0 <= k < r@.len() ==> #[trigger] r@[k]@ == done[k],
        decreases s@.len() + 1 - pos,
    {
        proof {
            lemma_find_from_bounds(s@, p@, pos as int);
        }
        match find_from_chars(s, p, pos) {
            None => {
                assert(done + pieces_from(s@, p@, pos as int) == done);
                return r;
            },
            Some(i) => {
                let start = i + p.len();
                proof {
                    lemma_find_from_bounds(s@, p@, start as int);
                }
                let end = match find_from_chars(s, p, start) {
                    Some(k) => k,
                    None => s.len(),
                };
                let piece = slice_chars(s, start, end);
                proof {
                    let rest = pieces_from(s@, p@, start as int);
                    assert(pieces_from(s@, p@, pos as int) == seq![piece@] + rest);
                    assert(done + (seq![piece@] + rest) == done.push(piece@) + rest);
                    done = done.push(piece@);
                }
                r.push(piece);
                pos = start;
            },
        }
    }
}

} // verus!

verus! {

/// The lower-case hexadecimal digit for `d`.
pub open spec fn hex_char(d: nat) -> char {
    if d < 10 {
        ((48 + d) as u8) as char
    } else {
        ((87 + d) as u8) as char
    }
}

/// The lower-case hexadecimal representation of `n`, without leading zeros.
pub open spec fn hex_digits(n: nat) -> Seq<char>
    decreases n,
{
    if n < 16 {
        seq![hex_char(n)]
    } else {
        hex_digits(n / 16).push(hex_char(n % 16))
    }
}

/// `d` with zeros put in front up to `width` characters, as `{:0width$}` pads.
pub open spec fn zero_padded(d: Seq<char>, width: nat) -> Seq<char> {
    if d.len() < width {
        Seq::new((width - d.len()) as nat, |i: int| '0') + d
    } else {
        d
    }
}

fn push_hex(out: &mut Vec<char>, n: u64)
    ensures
        final(out)@ == old(out)@ + hex_digits(n as nat),
    decreases n,
{
    if n >= 16 {
        push_hex(out, n / 16);
    }
    let d = (n % 16) as u8;
    if d < 10 {
        out.push((48u8 + d) as char);
    } else {
        out.push((87u8 + d) as char);
    }
}

/// Appends the lower-case hexadecimal representation of `n`, zero-padded to `width`.
pub fn push_hex_padded(out: &mut Vec<char>, n: u64, width: usize)
    ensures
        final(out)@ == old(out)@ + zero_padded(hex_digits(n as nat), width as nat),
{
    let mut d: Vec<char> = Vec::new();
    push_hex(&mut d, n);
    assert(d@ == hex_digits(n as nat));
    let ghost start = out@;
    if d.len() < width {
        let mut k: usize = 0;
        while k < width - d.len()
            invariant
                d.len() < width,
                k <= width - d@.len(),
                out@ == start + Seq::new(k as nat, |i: int| '0'),
            decreases width - d@.len() - k,
        {
            out.push('0');
            k = k + 1;
            assert(out@ =~= start + Seq::new(k as nat, |i: int| '0'));
        }
    }
    let ghost mid = out@;
    let mut k: usize = 0;
    while k < d.len()
        invariant
            k <= d@.len(),
            out@ == mid + d@.take(k as int),
        decreases d@.len() - k,
    {
        out.push(d[k]);
        k = k + 1;
        assert(out@ =~= mid + d@.take(k as int));
    }
    assert(d@.take(d@.len() as int) == d@);
    assert(out@ =~= start + zero_padded(hex_digits(n as nat), width as nat));
}

} // verus!

verus! {

/// The words of `s`, as `str::split_whitespace` gives them.
pub open spec fn words(s: Seq<char>) -> Seq<Seq<char>>
    decreases s.len(),
{
    if s.len() == 0 {
        Seq::empty()
    } else {
        let w = words(s.drop_last());
        let c = s.last();
        if is_space(c) {
            w
        } else if s.len() >= 2 && !is_space(s[s.len() - 2]) {
            w.update(w.len() - 1, w.last().push(c))
        } else {
            w.push(seq![c])
        }
    }
}

proof fn lemma_words_nonempty(s: Seq<char>)
    requires
        s.len() > 0,
        !is_space(s.last()),
    ensures
        words(s).len() > 0,
    decreases s.len(),
{
    if s.len() >= 2 && !is_space(s[s.len() - 2]) {
        lemma_words_nonempty(s.drop_last());
    }
}

/// Splits a string at white space, dropping empty pieces.
pub fn split_words(s: &str) -> (r: Vec<Vec<char>>)
    ensures
        r@.len() == words(s@).len(),
        forall|k: int| 0 <= k < r@.len() ==> #[trigger] r@[k]@ == words(s@)[k],
{
    let v = chars_of(s);
    let mut out: Vec<Vec<char>> = Vec::new();
    let mut k: usize = 0;
    while k < v.len()
        invariant
            k <= v@.len(),
            v@ == s@,
            out@.len() == words(v@.take(k as int)).len(),
            forall|j: int| 0 <= j < out@.len() ==> #[trigger] out@[j]@ == words(v@.take(k as int))[j],
        decreases v@.len() - k,
    {
        let c = v[k];
        let ghost before = v@.take(k as int);
        let ghost now = v@.take(k + 1);
        assert(now.drop_last() == before);
        assert(now.last() == c);
        if char_is_space(c) {
        } else if k >= 1 && !char_is_space(v[k - 1]) {
            assert(now[now.len() - 2] == v@[k - 1]);
            proof {
                assert(before.last() == v@[k - 1]);
                lemma_words_nonempty(before);
            }
            let mut last = out.pop().unwrap();
            last.push(c);
            out.push(last);
            assert(forall|j: int|
                0 <= j < out@.len() ==> #[trigger] out@[j]@ == words(now)[j]);
        } else {
            let mut w: Vec<char> = Vec::new();
            w.push(c);
            out.push(w);
            assert(forall|j: int|
                0 <= j < out@.len() ==> #[trigger] out@[j]@ == words(now)[j]);
        }
        k = k + 1;
    }
    assert(v@.take(v@.len() as int) == v@);
    out
}

} // verus!

verus! {

/// `s` with each pair's first string replaced by its second, pair after pair.
pub open spec fn apply_replacements(s: Seq<char>, pairs: Seq<(Seq<char>, Seq<char>)>) -> Seq<char>
    decreases pairs.len(),
{
    if pairs.len() == 0 {
        s
    } else {
        apply_replacements(replace_all(s, pairs[0].0, pairs[0].1), pairs.drop_first())
    }
}

/// Whether `a` and `b` differ at a position that both have.
pub open spec fn differ(a: Seq<char>, b: Seq<char>) -> bool {
    exists|k: int| 0 <= k < a.len() && k < b.len() && a[k] != b[k]
}

/// Whether `q` occurs somewhere in `s`.
pub open spec fn occurs(s: Seq<char>, q: Seq<char>) -> bool {
    exists|i: int| matches_at(s, q, i)
}

/// Whether no occurrence of `q` can start inside a copy of `r`, nor run
/// from text before a copy of `r` into it.
pub open spec fn clear_of(q: Seq<char>, r: Seq<char>) -> bool {
    &&& forall|i: int| 0 <= i < r.len() ==> differ(q, #[trigger] r.skip(i))
    &&& forall|j: int| 1 <= j < q.len() ==> differ(#[trigger] q.skip(j), r)
}

proof fn lemma_replaced_prefix(s: Seq<char>, p: Seq<char>, r: Seq<char>, q: Seq<char>, j: int)
    requires
        p.len() > 0,
        clear_of(q, r),
        1 <= j < q.len(),
        starts_with(replace_all(s, p, r), q.skip(j)),
    ensures
        starts_with(s, q.skip(j)),
    decreases s.len(),
{
    let t = q.skip(j);
    let o = replace_all(s, p, r);
    assert(o.take(t.len() as int) == t);
    if s.len() == 0 {
    } else if starts_with(s, p) {
        assert(differ(t, r));
        let k = choose|k: int| 0 <= k < t.len() && k < r.len() && t[k] != r[k];
        assert(o == r + replace_all(s.skip(p.len() as int), p, r));
        assert(o[k] == r[k]);
        assert(o.take(t.len() as int)[k] == t[k]);
    } else {
        let rest = s.drop_first();
        let o2 = replace_all(rest, p, r);
        assert(o == seq![s[0]] + o2);
        assert(o[0] == t[0]) by {
            assert(o.take(t.len() as int)[0] == t[0]);
        }
        if t.len() == 1 {
            assert(s.take(1) =~= t);
        } else {
            assert(o2.take(t.len() - 1) =~= q.skip(j + 1)) by {
                assert forall|m: int| 0 <= m < t.len() - 1 implies o2[m] == q.skip(j + 1)[m] by {
                    assert(o[m + 1] == o2[m]);
                    assert(o.take(t.len() as int)[m + 1] == t[m + 1]);
                }
            }
            lemma_replaced_prefix(rest, p, r, q, j + 1);
            assert(rest.take(t.len() - 1) == q.skip(j + 1));
            assert forall|m: int| 0 <= m < t.len() implies s.take(t.len() as int)[m] == t[m] by {
                if m > 0 {
                    assert(s[m] == rest[m - 1]);
                    assert(rest.take(t.len() - 1)[m - 1] == rest[m - 1]);
                }
            }
            assert(s.take(t.len() as int) =~= t);
        }
    }
}

/// Replacing `p` by `r` makes no occurrence of `q` when the text had none
/// (or `q` is `p` itself) and `q` is clear of `r`.
pub proof fn lemma_replace_all_keeps_out(s: Seq<char>, p: Seq<char>, r: Seq<char>, q: Seq<char>)
    requires
        p.len() > 0,
        q.len() > 0,
        clear_of(q, r),
        !occurs(s, q) || q == p,
    ensures
        !occurs(replace_all(s, p, r), q),
    decreases s.len(),
{
    let o = replace_all(s, p, r);
    if s.len() == 0 {
        assert forall|i: int| !#[trigger] matches_at(o, q, i) by {}
    } else if starts_with(s, p) {
        let rest = s.skip(p.len() as int);
        assert(!occurs(s, q) ==> !occurs(rest, q)) by {
            if occurs(rest, q) {
                let i = choose|i: int| matches_at(rest, q, i);
                assert(s.subrange(i + p.len(), i + p.len() + q.len()) =~= rest.subrange(i, i + q.len()));
                assert(matches_at(s, q, i + p.len()));
            }
        }
        lemma_replace_all_keeps_out(rest, p, r, q);
        let o2 = replace_all(rest, p, r);
        assert(o == r + o2);
        assert forall|i: int| !#[trigger] matches_at(o, q, i) by {
            if matches_at(o, q, i) {
                if i >= r.len() {
                    assert(o.subrange(i, i + q.len()) =~= o2.subrange(i - r.len(), i - r.len() + q.len()));
                    assert(matches_at(o2, q, i - r.len()));
                } else {
                    assert(differ(q, r.skip(i)));
                    let k = choose|k: int| 0 <= k < q.len() && k < r.skip(i).len() && q[k] != r.skip(i)[k];
                    assert(o[i + k] == r[i + k]);
                    assert(o.subrange(i, i + q.len())[k] == o[i + k]);
                }
            }
        }
    } else {
        let rest = s.drop_first();
        assert(!occurs(s, q) ==> !occurs(rest, q)) by {
            if occurs(rest, q) {
                let i = choose|i: int| matches_at(rest, q, i);
                assert(s.subrange(i + 1, i + 1 + q.len()) =~= rest.subrange(i, i + q.len()));
                assert(matches_at(s, q, i + 1));
            }
        }
        lemma_replace_all_keeps_out(rest, p, r, q);
        let o2 = replace_all(rest, p, r);
        assert(o == seq![s[0]] + o2);
        assert forall|i: int| !#[trigger] matches_at(o, q, i) by {
            if matches_at(o, q, i) {
                if i >= 1 {
                    assert(o.subrange(i, i + q.len()) =~= o2.subrange(i - 1, i - 1 + q.len()));
                    assert(matches_at(o2, q, i - 1));
                } else {
                    assert(o.subrange(0, q.len() as int) == q);
                    if q.len() == 1 {
                        assert(s.subrange(0, 1) =~= q) by {
                            assert(o.subrange(0, 1)[0] == o[0]);
                        }
                    } else {
                        assert(o2.take(q.len() - 1) =~= q.skip(1)) by {
                            assert forall|m: int| 0 <= m < q.len() - 1 implies o2[m] == q.skip(1)[m] by {
                                assert(o[m + 1] == o2[m]);
                                assert(o.subrange(0, q.len() as int)[m + 1] == q[m + 1]);
                            }
                        }
                        lemma_replaced_prefix(rest, p, r, q, 1);
                        assert forall|m: int| 0 <= m < q.len() implies s.subrange(0, q.len() as int)[m] == q[m] by {
                            if m > 0 {
                                assert(rest.take(q.len() - 1)[m - 1] == rest[m - 1]);
                            } else {
                                assert(o.subrange(0, q.len() as int)[0] == o[0]);
                            }
                        }
                        assert(s.subrange(0, q.len() as int) =~= q);
                    }
                    assert(matches_at(s, q, 0));
                    if q == p {
                        assert(s.take(p.len() as int) == s.subrange(0, q.len() as int));
                    }
                }
            }
        }
    }
}

/// Applying a replacement table leaves none of its patterns, nor any of the
/// patterns `cleared` that the text lacks, when every pattern is clear of
/// the replacements from its own on and the cleared ones are clear of all.
pub proof fn lemma_apply_replacements_clears(
    s: Seq<char>,
    pairs: Seq<(Seq<char>, Seq<char>)>,
    cleared: Seq<Seq<char>>,
)
    requires
        forall|k: int| 0 <= k < pairs.len() ==> (#[trigger] pairs[k]).0.len() > 0,
        forall|j: int, k: int|
            0 <= j <= k < pairs.len() ==> clear_of(#[trigger] pairs[j].0, #[trigger] pairs[k].1),
        forall|c: int|
            0 <= c < cleared.len() ==> (#[trigger] cleared[c]).len() > 0 && !occurs(s, cleared[c]),
        forall|c: int, k: int|
            0 <= c < cleared.len() && 0 <= k < pairs.len() ==> clear_of(
                #[trigger] cleared[c],
                #[trigger] pairs[k].1,
            ),
    ensures
        forall|c: int| 0 <= c < cleared.len() ==> !occurs(apply_replacements(s, pairs), #[trigger] cleared[c]),
        forall|k: int| 0 <= k < pairs.len() ==> !occurs(apply_replacements(s, pairs), #[trigger] pairs[k].0),
    decreases pairs.len(),
{
    if pairs.len() > 0 {
        let (p, r) = pairs[0];
        let s1 = replace_all(s, p, r);
        let rest = pairs.drop_first();
        let next = cleared.push(p);
        assert(pairs[0].0.len() > 0);
        assert(clear_of(pairs[0].0, pairs[0].1));
        assert forall|c: int| 0 <= c < next.len() implies (#[trigger] next[c]).len() > 0 && !occurs(
            s1,
            next[c],
        ) by {
            if c < cleared.len() {
                assert(next[c] == cleared[c]);
                assert(clear_of(cleared[c], pairs[0].1));
                lemma_replace_all_keeps_out(s, p, r, cleared[c]);
            } else {
                lemma_replace_all_keeps_out(s, p, r, p);
            }
        }
        assert forall|k: int| 0 <= k < rest.len() implies (#[trigger] rest[k]).0.len() > 0 by {
            assert(rest[k] == pairs[k + 1]);
        }
        assert forall|j: int, k: int| 0 <= j <= k < rest.len() implies clear_of(
            #[trigger] rest[j].0,
            #[trigger] rest[k].1,
        ) by {
            assert(rest[j] == pairs[j + 1] && rest[k] == pairs[k + 1]);
            assert(clear_of(pairs[j + 1].0, pairs[k + 1].1));
        }
        assert forall|c: int, k: int| 0 <= c < next.len() && 0 <= k < rest.len() implies clear_of(
            #[trigger] next[c],
            #[trigger] rest[k].1,
        ) by {
            assert(rest[k] == pairs[k + 1]);
            if c < cleared.len() {
                assert(next[c] == cleared[c]);
                assert(clear_of(cleared[c], pairs[k + 1].1));
            } else {
                assert(clear_of(pairs[0].0, pairs[k + 1].1));
            }
        }
        lemma_apply_replacements_clears(s1, rest, next);
        assert forall|c: int| 0 <= c < cleared.len() implies !occurs(
            apply_replacements(s, pairs),
            #[trigger] cleared[c],
        ) by {
            assert(next[c] == cleared[c]);
        }
        assert forall|k: int| 0 <= k < pairs.len() implies !occurs(
            apply_replacements(s, pairs),
            #[trigger] pairs[k].0,
        ) by {
            if k == 0 {
                assert(next[cleared.len() as int] == p);
            } else {
                assert(rest[k - 1] == pairs[k]);
            }
        }
    }
}

/// Replacing a pattern that does not occur changes nothing.
pub proof fn lemma_replace_all_absent(s: Seq<char>, p: Seq<char>, r: Seq<char>)
    requires
        forall|i: int| !#[trigger] matches_at(s, p, i),
    ensures
        replace_all(s, p, r) == s,
    decreases s.len(),
{
    if s.len() > 0 && p.len() > 0 {
        assert(!matches_at(s, p, 0));
        assert(!starts_with(s, p)) by {
            if starts_with(s, p) {
                assert(s.subrange(0, p.len() as int) == s.take(p.len() as int));
            }
        }
        let rest = s.drop_first();
        assert forall|i: int| !#[trigger] matches_at(rest, p, i) by {
            if matches_at(rest, p, i) {
                assert(s.subrange(i + 1, i + 1 + p.len()) =~= rest.subrange(i, i + p.len()));
                assert(matches_at(s, p, i + 1));
            }
        }
        lemma_replace_all_absent(rest, p, r);
        assert(seq![s[0]] + rest =~= s);
    }
}

/// Text in which no pattern of a replacement table occurs comes back
/// unchanged.
pub proof fn lemma_apply_replacements_absent(s: Seq<char>, pairs: Seq<(Seq<char>, Seq<char>)>)
    requires
        forall|k: int, i: int| 0 <= k < pairs.len() ==> !#[trigger] matches_at(s, pairs[k].0, i),
    ensures
        apply_replacements(s, pairs) == s,
    decreases pairs.len(),
{
    if pairs.len() > 0 {
        assert forall|i: int| !#[trigger] matches_at(s, pairs[0].0, i) by {
            assert(!matches_at(s, pairs[0].0, i));
        }
        lemma_replace_all_absent(s, pairs[0].0, pairs[0].1);
        let rest = pairs.drop_first();
        assert forall|k: int, i: int| 0 <= k < rest.len() implies !#[trigger] matches_at(
            s,
            rest[k].0,
            i,
        ) by {
            assert(rest[k] == pairs[k + 1]);
        }
        lemma_apply_replacements_absent(s, rest);
    }
}

} // verus!

verus! {

/// Whether `a` sorts before `b`: lexicographic order by Unicode scalar
/// value, which is the order `String::cmp` gives (it compares UTF-8 bytes).
pub open spec fn text_lt(a: Seq<char>, b: Seq<char>) -> bool
    decreases a.len(),
{
    if a.len() == 0 {
        b.len() > 0
    } else if b.len() == 0 {
        false
    } else if a[0] < b[0] {
        true
    } else if a[0] > b[0] {
        false
    } else {
        text_lt(a.drop_first(), b.drop_first())
    }
}

/// Text order is the order of `String::cmp`: `a` sorts before `b` exactly
/// when `a` is a proper prefix of `b`, or at the first position where they
/// differ `a` has the smaller character.
pub proof fn text_order_is_lexicographic(a: Seq<char>, b: Seq<char>)
    ensures
        text_lt(a, b) <==> ((a.len() < b.len() && b.take(a.len() as int) == a) || exists|k: int|
            0 <= k < a.len() && k < b.len() && a.take(k) == b.take(k) && a[k] < b[k]),
    decreases a.len(),
{
    if a.len() == 0 {
        assert(b.take(0) =~= a);
    } else if b.len() == 0 {
    } else {
        let a1 = a.drop_first();
        let b1 = b.drop_first();
        text_order_is_lexicographic(a1, b1);
        if a[0] < b[0] {
            assert(a.take(0) =~= b.take(0));
        } else if a[0] > b[0] {
            if a.len() < b.len() && b.take(a.len() as int) == a {
                assert(b.take(a.len() as int)[0] == b[0]);
            }
            if exists|k: int| 0 <= k < a.len() && k < b.len() && a.take(k) == b.take(k) && a[k] < b[k] {
                let k = choose|k: int| 0 <= k < a.len() && k < b.len() && a.take(k) == b.take(k) && a[k] < b[k];
                if k > 0 {
                    assert(a.take(k)[0] == b.take(k)[0]);
                }
            }
        } else {
            // a[0] == b[0]
            if a1.len() < b1.len() && b1.take(a1.len() as int) == a1 {
                assert(b.take(a.len() as int) =~= a) by {
                    assert forall|m: int| 0 <= m < a.len() implies #[trigger] b.take(a.len() as int)[m] == a[m] by {
                        if m > 0 {
                            assert(b1.take(a1.len() as int)[m - 1] == b[m]);
                        }
                    }
                }
            }
            if a.len() < b.len() && b.take(a.len() as int) == a {
                assert(b1.take(a1.len() as int) =~= a1) by {
                    assert forall|m: int| 0 <= m < a1.len() implies #[trigger] b1.take(a1.len() as int)[m] == a1[m] by {
                        assert(b.take(a.len() as int)[m + 1] == a[m + 1]);
                    }
                }
            }
            if exists|k: int| 0 <= k < a1.len() && k < b1.len() && a1.take(k) == b1.take(k) && a1[k] < b1[k] {
                let k = choose|k: int| 0 <= k < a1.len() && k < b1.len() && a1.take(k) == b1.take(k) && a1[k] < b1[k];
                assert(a.take(k + 1) =~= b.take(k + 1)) by {
                    assert forall|m: int| 0 <= m < k + 1 implies #[trigger] a.take(k + 1)[m] == b.take(k + 1)[m] by {
                        if m > 0 {
                            assert(a1.take(k)[m - 1] == b1.take(k)[m - 1]);
                        }
                    }
                }
                assert(a[k + 1] < b[k + 1]);
            }
            if exists|k: int| 0 <= k < a.len() && k < b.len() && a.take(k) == b.take(k) && a[k] < b[k] {
                let k = choose|k: int| 0 <= k < a.len() && k < b.len() && a.take(k) == b.take(k) && a[k] < b[k];
                assert(k > 0);
                assert(a1.take(k - 1) =~= b1.take(k - 1)) by {
                    assert forall|m: int| 0 <= m < k - 1 implies #[trigger] a1.take(k - 1)[m] == b1.take(k - 1)[m] by {
                        assert(a.take(k)[m + 1] == b.take(k)[m + 1]);
                    }
                }
                assert(a1[k - 1] < b1[k - 1]);
            }
        }
    }
}

/// A proper prefix sorts before every text that extends it, as with
/// `String::cmp`.
pub proof fn prefixes_sort_first(p: Seq<char>, s: Seq<char>)
    requires
        s.len() > 0,
    ensures
        text_lt(p, p + s),
        !text_lt(p + s, p),
{
    text_order_is_lexicographic(p, p + s);
    assert((p + s).take(p.len() as int) =~= p);
    text_order_is_lexicographic(p + s, p);
    if exists|k: int| 0 <= k < (p + s).len() && k < p.len() && (p + s).take(k) == p.take(k) && (p
        + s)[k] < p[k] {
        let k = choose|k: int| 0 <= k < (p + s).len() && k < p.len() && (p + s).take(k) == p.take(k)
            && (p + s)[k] < p[k];
        assert((p + s)[k] == p[k]);
    }
}

pub proof fn lemma_text_lt_irreflexive(a: Seq<char>)
    ensures
        !text_lt(a, a),
    decreases a.len(),
{
    if a.len() > 0 {
        lemma_text_lt_irreflexive(a.drop_first());
    }
}

pub proof fn lemma_text_lt_transitive(a: Seq<char>, b: Seq<char>, c: Seq<char>)
    requires
        text_lt(a, b),
        text_lt(b, c),
    ensures
        text_lt(a, c),
    decreases a.len(),
{
    if a.len() > 0 && b.len() > 0 && c.len() > 0 {
        if a[0] == b[0] && b[0] == c[0] {
            lemma_text_lt_transitive(a.drop_first(), b.drop_first(), c.drop_first());
        }
    }
}

/// Neither sorts before the other only when they are equal.
pub proof fn lemma_text_lt_total(a: Seq<char>, b: Seq<char>)
    ensures
        text_lt(a, b) || text_lt(b, a) || a == b,
    decreases a.len(),
{
    if a.len() > 0 && b.len() > 0 {
        lemma_text_lt_total(a.drop_first(), b.drop_first());
        if a[0] == b[0] && a.drop_first() == b.drop_first() {
            assert(a == seq![a[0]] + a.drop_first());
            assert(b == seq![b[0]] + b.drop_first());
        }
    } else if a.len() == 0 && b.len() == 0 {
        assert(a == b);
    }
}

/// Whether `a` sorts before `b` as strings.
pub fn text_less(a: &str, b: &str) -> (r: bool)
    ensures
        r == text_lt(a@, b@),
{
    let x = chars_of(a);
    let y = chars_of(b);
    let mut k: usize = 0;
    assert(x@.skip(0) == x@);
    assert(y@.skip(0) == y@);
    while k < x.len() && k < y.len() && x[k] == y[k]
        invariant
            k <= x@.len(),
            k <= y@.len(),
            x@ == a@,
            y@ == b@,
            text_lt(a@, b@) == text_lt(x@.skip(k as int), y@.skip(k as int)),
        decreases x@.len() - k,
    {
        assert(x@.skip(k as int).drop_first() == x@.skip(k + 1));
        assert(y@.skip(k as int).drop_first() == y@.skip(k + 1));
        k = k + 1;
    }
    if k == x.len() {
        k < y.len()
    } else if k == y.len() {
        false
    } else {
        assert(x@.skip(k as int)[0] == x@[k as int]);
        assert(y@.skip(k as int)[0] == y@[k as int]);
        x[k] < y[k]
    }
}

} // verus!

verus! {

/// The pieces of `s` between occurrences of `c`, as `str::split(c)` gives
/// them: there is one more piece than there are occurrences.
pub open spec fn split_on(s: Seq<char>, c: char) -> Seq<Seq<char>>
    decreases s.len(),
{
    if s.len() == 0 {
        seq![Seq::empty()]
    } else {
        let l = split_on(s.drop_last(), c);
        if s.last() == c {
            l.push(Seq::empty())
        } else {
            l.update(l.len() - 1, l.last().push(s.last()))
        }
    }
}

pub proof fn lemma_split_on_nonempty(s: Seq<char>, c: char)
    ensures
        split_on(s, c).len() > 0,
    decreases s.len(),
{
    if s.len() > 0 {
        lemma_split_on_nonempty(s.drop_last(), c);
    }
}

/// Splits a string at every occurrence of `c`.
pub fn split_char(s: &str, c: char) -> (r: Vec<Vec<char>>)
    ensures
        r@.len() == split_on(s@, c).len(),
        forall|k: int| 0 <= k < r@.len() ==> #[trigger] r@[k]@ == split_on(s@, c)[k],
{
    let v = chars_of(s);
    let mut out: Vec<Vec<char>> = Vec::new();
    out.push(Vec::new());
    assert(v@.take(0) == Seq::<char>::empty());
    let mut k: usize = 0;
    while k < v.len()
        invariant
            k <= v@.len(),
            v@ == s@,
            out@.len() == split_on(v@.take(k as int), c).len(),
            out@.len() > 0,
            forall|j: int|
                0 <= j < out@.len() ==> #[trigger] out@[j]@ == split_on(v@.take(k as int), c)[j],
        decreases v@.len() - k,
    {
        let x = v[k];
        let ghost before = v@.take(k as int);
        let ghost now = v@.take(k + 1);
        assert(now.drop_last() == before);
        assert(now.last() == x);
        if x == c {
            out.push(Vec::new());
        } else {
            let mut last = out.pop().unwrap();
            last.push(x);
            out.push(last);
        }
        assert(forall|j: int|
            0 <= j < out@.len() ==> #[trigger] out@[j]@ == split_on(now, c)[j]);
        k = k + 1;
    }
    assert(v@.take(v@.len() as int) == v@);
    out
}

} // verus!
