//! Character-level helpers shared by the router, the wire protocol and the
//! configuration loader: ASCII whitespace trimming, ASCII lowercasing,
//! string equality and decimal formatting, all specified over `Seq<char>`.

use vstd::prelude::*;

verus! {

/// ASCII whitespace, the only whitespace this crate trims.
pub open spec fn is_ascii_space(c: char) -> bool {
    c == ' ' || c == '\t' || c == '\r' || c == '\n'
}

/// Index of the first non-whitespace character at or after `i`.
pub open spec fn skip_spaces(s: Seq<char>, i: int) -> int
    decreases s.len() - i,
{
    if i < 0 || i >= s.len() {
        s.len() as int
    } else if is_ascii_space(s[i]) {
        skip_spaces(s, i + 1)
    } else {
        i
    }
}

/// Index one past the last non-whitespace character before `j`.
pub open spec fn rskip_spaces(s: Seq<char>, j: int) -> int
    decreases j,
{
    if j <= 0 || j > s.len() {
        0
    } else if is_ascii_space(s[j - 1]) {
        rskip_spaces(s, j - 1)
    } else {
        j
    }
}

/// The string with leading and trailing ASCII whitespace removed.
pub open spec fn spec_trim(s: Seq<char>) -> Seq<char> {
    let lo = skip_spaces(s, 0);
    let hi = rskip_spaces(s, s.len() as int);
    if lo >= hi {
        Seq::empty()
    } else {
        s.subrange(lo, hi)
    }
}

/// ASCII lowercase of one character; other characters are unchanged.
pub open spec fn lower_char(c: char) -> char {
    if c == 'A' { 'a' } else if c == 'B' { 'b' } else if c == 'C' { 'c' }
    else if c == 'D' { 'd' } else if c == 'E' { 'e' } else if c == 'F' { 'f' }
    else if c == 'G' { 'g' } else if c == 'H' { 'h' } else if c == 'I' { 'i' }
    else if c == 'J' { 'j' } else if c == 'K' { 'k' } else if c == 'L' { 'l' }
    else if c == 'M' { 'm' } else if c == 'N' { 'n' } else if c == 'O' { 'o' }
    else if c == 'P' { 'p' } else if c == 'Q' { 'q' } else if c == 'R' { 'r' }
    else if c == 'S' { 's' } else if c == 'T' { 't' } else if c == 'U' { 'u' }
    else if c == 'V' { 'v' } else if c == 'W' { 'w' } else if c == 'X' { 'x' }
    else if c == 'Y' { 'y' } else if c == 'Z' { 'z' } else { c }
}

/// ASCII lowercase of a whole string.
pub open spec fn spec_lower(s: Seq<char>) -> Seq<char> {
    s.map_values(|c: char| lower_char(c))
}

/// Trim, then lowercase: the normal form used for hostnames and names.
pub open spec fn spec_trim_lower(s: Seq<char>) -> Seq<char> {
    spec_lower(spec_trim(s))
}

/// What `String::from_utf8_lossy` yields on arbitrary bytes; on valid
/// UTF-8 it is exactly the decoded character sequence.
pub uninterp spec fn lossy_chars(b: Seq<u8>) -> Seq<char>;

/// Relies on `String::from_utf8_lossy`: the result depends on the bytes
/// alone, and valid UTF-8 input decodes exactly.
#[verifier::external_body]
pub fn bytes_to_string_lossy(b: &Vec<u8>) -> (r: String)
    ensures
        r@ == lossy_chars(b@),
        vstd::utf8::valid_utf8(b@) ==> r@ == vstd::utf8::decode_utf8(b@),
{
    String::from_utf8_lossy(b).into_owned()
}

/// Relies on `String::push`: appends exactly one character.
#[verifier::external_body]
pub fn push_char(s: &mut String, c: char)
    ensures
        final(s)@ == old(s)@.push(c),
{
    s.push(c);
}

fn exec_is_space(c: char) -> (r: bool)
    ensures
        r == is_ascii_space(c),
{
    c == ' ' || c == '\t' || c == '\r' || c == '\n'
}

fn exec_lower_char(c: char) -> (r: char)
    ensures
        r == lower_char(c),
{
    if c == 'A' { 'a' } else if c == 'B' { 'b' } else if c == 'C' { 'c' }
    else if c == 'D' { 'd' } else if c == 'E' { 'e' } else if c == 'F' { 'f' }
    else if c == 'G' { 'g' } else if c == 'H' { 'h' } else if c == 'I' { 'i' }
    else if c == 'J' { 'j' } else if c == 'K' { 'k' } else if c == 'L' { 'l' }
    else if c == 'M' { 'm' } else if c == 'N' { 'n' } else if c == 'O' { 'o' }
    else if c == 'P' { 'p' } else if c == 'Q' { 'q' } else if c == 'R' { 'r' }
    else if c == 'S' { 's' } else if c == 'T' { 't' } else if c == 'U' { 'u' }
    else if c == 'V' { 'v' } else if c == 'W' { 'w' } else if c == 'X' { 'x' }
    else if c == 'Y' { 'y' } else if c == 'Z' { 'z' } else { c }
}

/// Copies `s[from..to]` (in characters) into a fresh `String`.
pub fn substring_copy(s: &str, from: usize, to: usize) -> (r: String)
    requires
        from <= to <= s@.len(),
    ensures
        r@ == s@.subrange(from as int, to as int),
{
    let mut r = String::new();
    let mut i: usize = from;
    while i < to
        invariant
            from <= i <= to <= s@.len(),
            r@ == s@.subrange(from as int, i as int),
        decreases to - i,
    {
        let c = s.get_char(i);
        push_char(&mut r, c);
        proof {
            assert(r@ =~= s@.subrange(from as int, i as int + 1));
        }
        i = i + 1;
    }
    r
}

/// Removes leading and trailing ASCII whitespace.
pub fn trim_str(s: &str) -> (r: String)
    ensures
        r@ == spec_trim(s@),
{
    let n = s.unicode_len();
    let mut lo: usize = 0;
    while lo < n && exec_is_space(s.get_char(lo))
        invariant
            0 <= lo <= n == s@.len(),
            skip_spaces(s@, 0) == skip_spaces(s@, lo as int),
        decreases n - lo,
    {
        lo = lo + 1;
    }
    assert(skip_spaces(s@, lo as int) == lo as int);
    let mut hi: usize = n;
    while hi > lo && exec_is_space(s.get_char(hi - 1))
        invariant
            lo <= hi <= n == s@.len(),
            skip_spaces(s@, 0) == lo as int,
            rskip_spaces(s@, n as int) == rskip_spaces(s@, hi as int),
        decreases hi,
    {
        hi = hi - 1;
    }
    if lo >= hi {
        proof {
            lemma_rskip_le(s@, hi as int);
        }
        assert(skip_spaces(s@, 0) >= rskip_spaces(s@, s@.len() as int));
        String::new()
    } else {
        assert(rskip_spaces(s@, hi as int) == hi as int);
        substring_copy(s, lo, hi)
    }
}

proof fn lemma_rskip_le(s: Seq<char>, j: int)
    ensures
        rskip_spaces(s, j) <= j || j < 0,
    decreases j,
{
    if j > 0 && j <= s.len() && is_ascii_space(s[j - 1]) {
        lemma_rskip_le(s, j - 1);
    }
}

/// ASCII-lowercases a string.
pub fn lower_str(s: &str) -> (r: String)
    ensures
        r@ == spec_lower(s@),
{
    let n = s.unicode_len();
    let mut r = String::new();
    let mut i: usize = 0;
    while i < n
        invariant
            0 <= i <= n == s@.len(),
            r@ == spec_lower(s@.subrange(0, i as int)),
        decreases n - i,
    {
        let c = exec_lower_char(s.get_char(i));
        push_char(&mut r, c);
        proof {
            assert(r@ =~= spec_lower(s@.subrange(0, i as int + 1)));
        }
        i = i + 1;
    }
    proof {
        assert(s@.subrange(0, n as int) =~= s@);
    }
    r
}

/// Trims, then ASCII-lowercases.
pub fn trim_lower_str(s: &str) -> (r: String)
    ensures
        r@ == spec_trim_lower(s@),
{
    let t = trim_str(s);
    lower_str(t.as_str())
}

/// Character-for-character string equality.
pub fn str_eq(a: &str, b: &str) -> (r: bool)
    ensures
        r == (a@ == b@),
{
    let na = a.unicode_len();
    let nb = b.unicode_len();
    if na != nb {
        proof {
            assert(a@.len() != b@.len());
        }
        return false;
    }
    let mut i: usize = 0;
    while i < na
        invariant
            0 <= i <= na == a@.len(),
            na == b@.len(),
            forall|k: int| 0 <= k < i ==> a@[k] == b@[k],
        decreases na - i,
    {
        if a.get_char(i) != b.get_char(i) {
            return false;
        }
        i = i + 1;
    }
    proof {
        assert(a@ =~= b@);
    }
    true
}

/// Where `skip_spaces` stops: at the end, or on a non-space, with only
/// spaces before it.
pub proof fn lemma_skip_spaces_at(s: Seq<char>, i: int)
    requires
        0 <= i <= s.len(),
    ensures
        i <= skip_spaces(s, i) <= s.len(),
        skip_spaces(s, i) < s.len() ==> !is_ascii_space(s[skip_spaces(s, i)]),
        forall|k: int| i <= k < skip_spaces(s, i) ==> is_ascii_space(s[k]),
    decreases s.len() - i,
{
    if i < s.len() && is_ascii_space(s[i]) {
        lemma_skip_spaces_at(s, i + 1);
    }
}

/// Where `rskip_spaces` stops: at the start, or after a non-space, with
/// only spaces behind it.
pub proof fn lemma_rskip_spaces_at(s: Seq<char>, j: int)
    requires
        0 <= j <= s.len(),
    ensures
        0 <= rskip_spaces(s, j) <= j,
        rskip_spaces(s, j) > 0 ==> !is_ascii_space(s[rskip_spaces(s, j) - 1]),
        forall|k: int| rskip_spaces(s, j) <= k < j ==> is_ascii_space(s[k]),
    decreases j,
{
    if j > 0 && is_ascii_space(s[j - 1]) {
        lemma_rskip_spaces_at(s, j - 1);
    }
}

/// Trimming is idempotent.
pub proof fn lemma_trim_idempotent(s: Seq<char>)
    ensures
        spec_trim(spec_trim(s)) == spec_trim(s),
{
    let lo = skip_spaces(s, 0);
    let hi = rskip_spaces(s, s.len() as int);
    lemma_skip_spaces_at(s, 0);
    lemma_rskip_spaces_at(s, s.len() as int);
    let t = spec_trim(s);
    if lo >= hi {
        assert(t =~= Seq::<char>::empty());
        assert(spec_trim(t) =~= Seq::<char>::empty());
    } else {
        assert(t == s.subrange(lo, hi));
        assert(!is_ascii_space(t[0]));
        assert(skip_spaces(t, 0) == 0);
        assert(!is_ascii_space(t[t.len() - 1]));
        assert(rskip_spaces(t, t.len() as int) == t.len());
        assert(spec_trim(t) =~= t);
    }
}

proof fn lemma_lower_preserves_spaces(s: Seq<char>, i: int)
    requires
        0 <= i <= s.len(),
    ensures
        skip_spaces(spec_lower(s), i) == skip_spaces(s, i),
        rskip_spaces(spec_lower(s), i) == rskip_spaces(s, i),
    decreases s.len() - i + i,
{
    assert(forall|c: char| is_ascii_space(#[trigger] lower_char(c)) == is_ascii_space(c));
    lemma_skip_lower(s, i);
    lemma_rskip_lower(s, i);
}

proof fn lemma_skip_lower(s: Seq<char>, i: int)
    requires
        0 <= i <= s.len(),
    ensures
        skip_spaces(spec_lower(s), i) == skip_spaces(s, i),
    decreases s.len() - i,
{
    if i < s.len() {
        assert(spec_lower(s)[i] == lower_char(s[i]));
        assert(is_ascii_space(lower_char(s[i])) == is_ascii_space(s[i]));
        if is_ascii_space(s[i]) {
            lemma_skip_lower(s, i + 1);
        }
    }
}

proof fn lemma_rskip_lower(s: Seq<char>, j: int)
    requires
        0 <= j <= s.len(),
    ensures
        rskip_spaces(spec_lower(s), j) == rskip_spaces(s, j),
    decreases j,
{
    if j > 0 {
        assert(spec_lower(s)[j - 1] == lower_char(s[j - 1]));
        assert(is_ascii_space(lower_char(s[j - 1])) == is_ascii_space(s[j - 1]));
        if is_ascii_space(s[j - 1]) {
            lemma_rskip_lower(s, j - 1);
        }
    }
}

/// Lowercasing commutes with trimming.
pub proof fn lemma_trim_lower_commute(s: Seq<char>)
    ensures
        spec_trim(spec_lower(s)) == spec_lower(spec_trim(s)),
{
    lemma_lower_preserves_spaces(s, 0);
    lemma_lower_preserves_spaces(s, s.len() as int);
    let lo = skip_spaces(s, 0);
    let hi = rskip_spaces(s, s.len() as int);
    lemma_skip_spaces_at(s, 0);
    lemma_rskip_spaces_at(s, s.len() as int);
    if lo >= hi {
        assert(spec_trim(spec_lower(s)) =~= spec_lower(spec_trim(s)));
    } else {
        assert(spec_trim(spec_lower(s)) =~= spec_lower(s).subrange(lo, hi));
        assert(spec_lower(s).subrange(lo, hi) =~= spec_lower(s.subrange(lo, hi)));
    }
}

/// Lowercasing is idempotent.
pub proof fn lemma_lower_idempotent(s: Seq<char>)
    ensures
        spec_lower(spec_lower(s)) == spec_lower(s),
{
    assert(forall|c: char| lower_char(#[trigger] lower_char(c)) == lower_char(c));
    assert(spec_lower(spec_lower(s)) =~= spec_lower(s));
}

/// Trim-then-lowercase is idempotent: a host already in normal form stays
/// as it is.
pub proof fn lemma_trim_lower_idempotent(s: Seq<char>)
    ensures
        spec_trim_lower(spec_trim_lower(s)) == spec_trim_lower(s),
{
    let t = spec_trim(s);
    lemma_trim_lower_commute(t);
    lemma_trim_idempotent(s);
    lemma_lower_idempotent(spec_trim(t));
    assert(spec_trim_lower(spec_trim_lower(s)) == spec_lower(spec_trim(spec_lower(t))));
    assert(spec_trim(spec_lower(t)) == spec_lower(spec_trim(t)));
    assert(spec_trim(t) == t);
}

/// Builds the vector `[x] + rest`.
pub fn cons_front<T>(x: T, rest: Vec<T>) -> (r: Vec<T>)
    ensures
        r@ == seq![x] + rest@,
{
    let mut out: Vec<T> = Vec::new();
    out.push(x);
    let mut tail = rest;
    out.append(&mut tail);
    proof {
        assert(out@ =~= seq![x] + rest@);
    }
    out
}

/// The decimal digits of `n`, most significant first.
pub open spec fn spec_dec_digits(n: nat) -> Seq<char>
    decreases n,
{
    let last = digit_char((n % 10) as int);
    if n < 10 {
        seq![last]
    } else {
        spec_dec_digits(n / 10).push(last)
    }
}

pub open spec fn digit_char(d: int) -> char {
    if d == 0 { '0' } else if d == 1 { '1' } else if d == 2 { '2' }
    else if d == 3 { '3' } else if d == 4 { '4' } else if d == 5 { '5' }
    else if d == 6 { '6' } else if d == 7 { '7' } else if d == 8 { '8' }
    else { '9' }
}

fn exec_digit_char(d: u64) -> (r: char)
    requires
        d < 10,
    ensures
        r == digit_char(d as int),
{
    if d == 0 { '0' } else if d == 1 { '1' } else if d == 2 { '2' }
    else if d == 3 { '3' } else if d == 4 { '4' } else if d == 5 { '5' }
    else if d == 6 { '6' } else if d == 7 { '7' } else if d == 8 { '8' }
    else { '9' }
}

/// Appends the decimal representation of `n` to `s`.
pub fn append_decimal(s: &mut String, n: u64)
    ensures
        final(s)@ == old(s)@ + spec_dec_digits(n as nat),
    decreases n,
{
    if n < 10 {
        push_char(s, exec_digit_char(n));
        proof {
            assert(s@ =~= old(s)@ + spec_dec_digits(n as nat));
        }
    } else {
        append_decimal(s, n / 10);
        push_char(s, exec_digit_char(n % 10));
        proof {
            assert(s@ =~= old(s)@ + spec_dec_digits(n as nat));
        }
    }
}

} // verus!
