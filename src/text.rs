use vstd::prelude::*;

verus! {

/// Whether `c` ends a space-delimited token of a protocol line.
pub open spec fn is_break(c: char) -> bool {
    c == ' ' || c == '\r' || c == '\n'
}

/// First index in `[i, hi)` holding `c`, or `hi` when there is none.
pub open spec fn first_of(s: Seq<char>, c: char, i: int, hi: int) -> int
    decreases hi - i,
{
    if i >= hi {
        hi
    } else if s[i] == c {
        i
    } else {
        first_of(s, c, i + 1, hi)
    }
}

/// First index in `[i, hi)` holding a token break, or `hi` when there is none.
pub open spec fn first_break(s: Seq<char>, i: int, hi: int) -> int
    decreases hi - i,
{
    if i >= hi {
        hi
    } else if is_break(s[i]) {
        i
    } else {
        first_break(s, i + 1, hi)
    }
}

/// Whether `p` occurs in `s` at index `i`.
pub open spec fn occurs_at(s: Seq<char>, p: Seq<char>, i: int) -> bool {
    0 <= i && i + p.len() <= s.len() && s.subrange(i, i + p.len()) == p
}

/// First index `j >= i` at which `p` occurs in `s`, or `-1`.
pub open spec fn find_seq(s: Seq<char>, p: Seq<char>, i: int) -> int
    decreases s.len() + 1 - i,
{
    if i < 0 || i + p.len() > s.len() {
        -1
    } else if s.subrange(i, i + p.len()) == p {
        i
    } else {
        find_seq(s, p, i + 1)
    }
}

/// `s` with every carriage return and line feed removed.
pub open spec fn strip_eol(s: Seq<char>) -> Seq<char>
    decreases s.len(),
{
    if s.len() == 0 {
        s
    } else if s[0] == '\r' || s[0] == '\n' {
        strip_eol(s.drop_first())
    } else {
        seq![s[0]] + strip_eol(s.drop_first())
    }
}

/// `s` with each escaped space (a backslash followed by `s`) turned into a space.
pub open spec fn unescape_spaces(s: Seq<char>) -> Seq<char>
    decreases s.len(),
{
    if s.len() == 0 {
        s
    } else if s.len() >= 2 && s[0] == '\\' && s[1] == 's' {
        seq![' '] + unescape_spaces(s.subrange(2, s.len() as int))
    } else {
        seq![s[0]] + unescape_spaces(s.drop_first())
    }
}

/// Relies on `str::chars`: the characters of `s`, in order.
#[verifier::external_body]
pub(crate) fn collect_chars(s: &str) -> (r: Vec<char>)
    ensures
        r@ == s@,
{
    s.chars().collect()
}

/// Relies on `String::push`: appends one character.
#[verifier::external_body]
pub(crate) fn push_char(s: &mut String, c: char)
    ensures
        final(s)@ == old(s)@.push(c),
{
    s.push(c)
}

/// The characters `v[lo..hi]` as a string.
pub fn string_of(v: &Vec<char>, lo: usize, hi: usize) -> (r: String)
    requires
        lo <= hi <= v@.len(),
    ensures
        r@ == v@.subrange(lo as int, hi as int),
{
    let mut r = String::new();
    let mut i = lo;
    while i < hi
        invariant
            lo <= i <= hi <= v@.len(),
            r@ == v@.subrange(lo as int, i as int),
        decreases hi - i,
    {
        push_char(&mut r, v[i]);
        assert(v@.subrange(lo as int, i + 1) == v@.subrange(lo as int, i as int).push(v@[i as int]));
        i = i + 1;
    }
    r
}

/// Index of the first `c` in `v[i..hi]`, or `hi`.
pub fn scan_char(v: &Vec<char>, c: char, i: usize, hi: usize) -> (r: usize)
    requires
        i <= hi <= v@.len(),
    ensures
        r == first_of(v@, c, i as int, hi as int),
        i <= r <= hi,
{
    let mut j = i;
    while j < hi && v[j] != c
        invariant
            i <= j <= hi <= v@.len(),
            first_of(v@, c, i as int, hi as int) == first_of(v@, c, j as int, hi as int),
        decreases hi - j,
    {
        j = j + 1;
    }
    j
}

/// Index of the first token break in `v[i..hi]`, or `hi`.
pub fn scan_break(v: &Vec<char>, i: usize, hi: usize) -> (r: usize)
    requires
        i <= hi <= v@.len(),
    ensures
        r == first_break(v@, i as int, hi as int),
        i <= r <= hi,
        r < hi ==> is_break(v@[r as int]),
{
    let mut j = i;
    while j < hi && !(v[j] == ' ' || v[j] == '\r' || v[j] == '\n')
        invariant
            i <= j <= hi <= v@.len(),
            first_break(v@, i as int, hi as int) == first_break(v@, j as int, hi as int),
        decreases hi - j,
    {
        j = j + 1;
    }
    j
}

/// Whether `p` occurs in `v` at index `i`.
pub fn matches_at(v: &Vec<char>, p: &Vec<char>, i: usize) -> (r: bool)
    requires
        i + p@.len() <= v@.len(),
    ensures
        r == (v@.subrange(i as int, i + p@.len()) == p@),
{
    let mut k: usize = 0;
    while k < p.len()
        invariant
            k <= p@.len(),
            i + p@.len() <= v@.len(),
            forall|m: int| 0 <= m < k ==> v@[i + m] == p@[m],
        decreases p@.len() - k,
    {
        let n = v.len();
        assert(i + k < n);
        if v[i + k] != p[k] {
            assert(v@.subrange(i as int, i + p@.len())[k as int] != p@[k as int]);
            return false;
        }
        k = k + 1;
    }
    assert(v@.subrange(i as int, i + p@.len()) =~= p@);
    true
}

/// First index at or after `i` where `p` occurs in `v`.
pub fn find_from(v: &Vec<char>, p: &Vec<char>, i: usize) -> (r: Option<usize>)
    requires
        i <= v@.len(),
        p@.len() > 0,
    ensures
        match r {
            Some(j) => j as int == find_seq(v@, p@, i as int) && j + p@.len() <= v@.len(),
            None => find_seq(v@, p@, i as int) == -1,
        },
{
    if p.len() > v.len() {
        return None;
    }
    let mut j = i;
    while j <= v.len() - p.len()
        invariant
            0 < p@.len() <= v@.len(),
            i <= j <= v@.len(),
            find_seq(v@, p@, i as int) == find_seq(v@, p@, j as int),
        decreases v@.len() - j,
    {
        if matches_at(v, p, j) {
            return Some(j);
        }
        j = j + 1;
    }
    None
}

/// The characters `v[lo..hi]` with carriage returns and line feeds left out.
pub fn strip_eol_of(v: &Vec<char>, lo: usize, hi: usize) -> (r: String)
    requires
        lo <= hi <= v@.len(),
    ensures
        r@ == strip_eol(v@.subrange(lo as int, hi as int)),
{
    let mut r = String::new();
    let mut i = lo;
    while i < hi
        invariant
            lo <= i <= hi <= v@.len(),
            r@ + strip_eol(v@.subrange(i as int, hi as int)) == strip_eol(
                v@.subrange(lo as int, hi as int),
            ),
        decreases hi - i,
    {
        let ghost rest = v@.subrange(i as int, hi as int);
        assert(rest.drop_first() == v@.subrange(i + 1, hi as int));
        let c = v[i];
        if c != '\r' && c != '\n' {
            let ghost before = r@;
            push_char(&mut r, c);
            assert(before + strip_eol(rest) =~= r@ + strip_eol(rest.drop_first()));
        }
        i = i + 1;
    }
    assert(v@.subrange(hi as int, hi as int).len() == 0);
    r
}

/// The characters `v[lo..hi]` with each escaped space turned into a space.
pub fn unescape_spaces_of(v: &Vec<char>, lo: usize, hi: usize) -> (r: String)
    requires
        lo <= hi <= v@.len(),
    ensures
        r@ == unescape_spaces(v@.subrange(lo as int, hi as int)),
{
    let mut r = String::new();
    let mut i = lo;
    while i < hi
        invariant
            lo <= i <= hi <= v@.len(),
            r@ + unescape_spaces(v@.subrange(i as int, hi as int)) == unescape_spaces(
                v@.subrange(lo as int, hi as int),
            ),
        decreases hi - i,
    {
        let ghost rest = v@.subrange(i as int, hi as int);
        let ghost before = r@;
        if i + 1 < hi && v[i] == '\\' && v[i + 1] == 's' {
            assert(rest.subrange(2, rest.len() as int) == v@.subrange(i + 2, hi as int));
            push_char(&mut r, ' ');
            assert(before + unescape_spaces(rest) =~= r@ + unescape_spaces(
                v@.subrange(i + 2, hi as int),
            ));
            i = i + 2;
        } else {
            assert(rest.drop_first() == v@.subrange(i + 1, hi as int));
            push_char(&mut r, v[i]);
            assert(before + unescape_spaces(rest) =~= r@ + unescape_spaces(
                v@.subrange(i + 1, hi as int),
            ));
            i = i + 1;
        }
    }
    assert(v@.subrange(hi as int, hi as int).len() == 0);
    r
}

pub open spec fn is_digit(c: char) -> bool {
    '0' <= c && c <= '9'
}

pub open spec fn digit_value(c: char) -> nat {
    (c as u32 - '0' as u32) as nat
}

/// Whether every character of `s` is a decimal digit.
pub open spec fn all_digits(s: Seq<char>) -> bool {
    forall|k: int| 0 <= k < s.len() ==> is_digit(#[trigger] s[k])
}

/// The number that the decimal digits `d` spell.
pub open spec fn digits_value(d: Seq<char>) -> nat
    decreases d.len(),
{
    if d.len() == 0 {
        0
    } else {
        digits_value(d.drop_last()) * 10 + digit_value(d.last())
    }
}

/// First index in `[i, hi)` that holds no decimal digit, or `hi`.
pub open spec fn first_nondigit(s: Seq<char>, i: int, hi: int) -> int
    decreases hi - i,
{
    if i >= hi {
        hi
    } else if !is_digit(s[i]) {
        i
    } else {
        first_nondigit(s, i + 1, hi)
    }
}

/// A longer run of digits spells at least as large a number.
pub proof fn lemma_digits_prefix(d: Seq<char>, k: int)
    requires
        all_digits(d),
        0 <= k <= d.len(),
    ensures
        digits_value(d.subrange(0, k)) <= digits_value(d),
    decreases d.len(),
{
    if k < d.len() {
        let e = d.drop_last();
        lemma_digits_prefix(e, k);
        assert(e.subrange(0, k) == d.subrange(0, k));
    } else {
        assert(d.subrange(0, k) == d);
    }
}

/// The number spelled by the digits `v[lo..hi]`, when it is at most `bound`.
pub fn digits_value_of(v: &Vec<char>, lo: usize, hi: usize, bound: u64) -> (r: Option<u64>)
    requires
        lo <= hi <= v@.len(),
        all_digits(v@.subrange(lo as int, hi as int)),
    ensures
        match r {
            Some(n) => n as nat == digits_value(v@.subrange(lo as int, hi as int)) && n <= bound,
            None => digits_value(v@.subrange(lo as int, hi as int)) > bound,
        },
{
    let ghost d = v@.subrange(lo as int, hi as int);
    let mut val: u64 = 0;
    let mut i = lo;
    while i < hi
        invariant
            lo <= i <= hi <= v@.len(),
            d == v@.subrange(lo as int, hi as int),
            all_digits(d),
            val as nat == digits_value(v@.subrange(lo as int, i as int)),
            val <= bound,
        decreases hi - i,
    {
        assert(is_digit(d[i - lo]));
        let c = v[i];
        let x = (c as u32 - '0' as u32) as u64;
        assert(v@.subrange(lo as int, i + 1).drop_last() == v@.subrange(lo as int, i as int));
        let next: u128 = (val as u128) * 10 + (x as u128);
        if next > bound as u128 {
            proof {
                assert(d.subrange(0, i + 1 - lo) == v@.subrange(lo as int, i + 1));
                lemma_digits_prefix(d, i + 1 - lo);
            }
            return None;
        }
        val = next as u64;
        i = i + 1;
    }
    Some(val)
}

/// Index of the first non-digit in `v[i..hi]`, or `hi`.
pub fn scan_digits(v: &Vec<char>, i: usize, hi: usize) -> (r: usize)
    requires
        i <= hi <= v@.len(),
    ensures
        r == first_nondigit(v@, i as int, hi as int),
        i <= r <= hi,
        all_digits(v@.subrange(i as int, r as int)),
        r < hi ==> !is_digit(v@[r as int]),
{
    let mut j = i;
    while j < hi && '0' <= v[j] && v[j] <= '9'
        invariant
            i <= j <= hi <= v@.len(),
            first_nondigit(v@, i as int, hi as int) == first_nondigit(v@, j as int, hi as int),
            all_digits(v@.subrange(i as int, j as int)),
        decreases hi - j,
    {
        assert(v@.subrange(i as int, j + 1) == v@.subrange(i as int, j as int).push(v@[j as int]));
        j = j + 1;
    }
    j
}

/// The numeric field at the start of `s`: the number that its leading digits spell, or `0`
/// when there are none or the number does not fit in an `i32`.
pub open spec fn leading_number(s: Seq<char>) -> i32 {
    let d = s.subrange(0, first_nondigit(s, 0, s.len() as int));
    if d.len() > 0 && digits_value(d) <= i32::MAX {
        digits_value(d) as i32
    } else {
        0
    }
}

/// The numeric field at the start of `v`.
pub fn leading_number_of(v: &Vec<char>) -> (r: i32)
    ensures
        r == leading_number(v@),
{
    let e = scan_digits(v, 0, v.len());
    if e == 0 {
        return 0;
    }
    match digits_value_of(v, 0, e, i32::MAX as u64) {
        Some(n) => n as i32,
        None => 0,
    }
}

/// The decimal digit for `d < 10`.
pub open spec fn digit_char(d: nat) -> char {
    ('0' as u32 + d) as char
}

/// The decimal text of `n`.
pub open spec fn decimal(n: nat) -> Seq<char>
    decreases n,
{
    if n < 10 {
        seq![digit_char(n)]
    } else {
        decimal(n / 10).push(digit_char(n % 10))
    }
}

/// The decimal text of `n`, with a leading minus sign when it is negative.
pub open spec fn signed_decimal(n: int) -> Seq<char> {
    if n < 0 {
        seq!['-'] + decimal((-n) as nat)
    } else {
        decimal(n as nat)
    }
}

/// Appends the decimal text of `n` to `s`.
pub fn push_decimal(s: &mut String, n: u64)
    ensures
        final(s)@ == old(s)@ + decimal(n as nat),
    decreases n,
{
    if n >= 10 {
        push_decimal(s, n / 10);
    }
    let c = char_of_digit((n % 10) as u32);
    push_char(s, c);
    proof {
        if n < 10 {
            assert(decimal(n as nat) == seq![digit_char(n as nat)]);
        }
    }
}

fn char_of_digit(d: u32) -> (c: char)
    requires
        d < 10,
    ensures
        c == digit_char(d as nat),
{
    let code: u8 = 48 + d as u8;
    code as char
}

/// Appends the decimal text of `n` to `s`, with a minus sign when it is negative.
pub fn push_signed_decimal(s: &mut String, n: i32)
    ensures
        final(s)@ == old(s)@ + signed_decimal(n as int),
{
    if n < 0 {
        push_char(s, '-');
        let m: u64 = (0i64 - n as i64) as u64;
        push_decimal(s, m);
    } else {
        push_decimal(s, n as u64);
    }
}

/// A copy of `v[lo..hi]`.
pub fn slice_of(v: &Vec<char>, lo: usize, hi: usize) -> (r: Vec<char>)
    requires
        lo <= hi <= v@.len(),
    ensures
        r@ == v@.subrange(lo as int, hi as int),
{
    let mut r: Vec<char> = Vec::new();
    let mut i = lo;
    while i < hi
        invariant
            lo <= i <= hi <= v@.len(),
            r@ == v@.subrange(lo as int, i as int),
        decreases hi - i,
    {
        r.push(v[i]);
        assert(v@.subrange(lo as int, i + 1) == v@.subrange(lo as int, i as int).push(v@[i as int]));
        i = i + 1;
    }
    r
}

/// Whether `a` and `b` hold the same characters.
pub fn same_chars(a: &Vec<char>, b: &Vec<char>) -> (r: bool)
    ensures
        r == (a@ == b@),
{
    if a.len() != b.len() {
        return false;
    }
    let r = matches_at(a, b, 0);
    assert(a@.subrange(0, b@.len() as int) == a@);
    r
}

/// Whether the characters of `a` spell `b`.
pub fn spells(a: &Vec<char>, b: &str) -> (r: bool)
    ensures
        r == (a@ == b@),
{
    let w = collect_chars(b);
    same_chars(a, &w)
}

/// The characters of `v` as a string.
pub fn string_from(v: &Vec<char>) -> (r: String)
    ensures
        r@ == v@,
{
    let r = string_of(v, 0, v.len());
    assert(v@.subrange(0, v@.len() as int) == v@);
    r
}

} // verus!
