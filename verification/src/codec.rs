//! Lexical primitives of the exchange format: whitespace skipping,
//! unsigned decimal numbers, quoted string literals with doubled-quote
//! escaping, uppercase keyword identifiers, and real-number literals.
//!
//! Every primitive comes in three parts: a spec-level parser
//! (`sp_...`) that defines exactly which inputs are accepted and what
//! they denote, a spec-level renderer (`rd_...`) that defines the
//! canonical text of a value, and executable functions proved to agree
//! with them. Inversion lemmas state that parsing a rendered value
//! consumes exactly its text and yields the value back.

use vstd::prelude::*;

verus! {

/// Position and kind of a failure while reading text.
#[derive(Clone, Copy, PartialEq, Eq, Structural, Debug)]
pub enum ErrorKind {
    /// The input ended where a token was still expected.
    UnexpectedEnd,
    /// A token other than the expected one stands at the position.
    UnexpectedToken,
    /// A record keyword that no codec knows.
    UnknownKeyword,
    /// A string literal whose closing quote is missing.
    UnterminatedString,
    /// A numeric token that does not fit the identifier range.
    NumberOverflow,
    /// Text after the end of the construct being read.
    TrailingText,
}

/// A parse failure: the byte offset (in characters) at which reading
/// stopped, and what went wrong there.
#[derive(Clone, Copy, PartialEq, Eq, Structural, Debug)]
pub struct ParseError {
    pub pos: usize,
    pub kind: ErrorKind,
}

// ---------------------------------------------------------------------
// character classes
// ---------------------------------------------------------------------

pub open spec fn is_ws_char(c: char) -> bool {
    c == ' ' || c == '\t' || c == '\n' || c == '\r'
}

pub open spec fn is_digit_char(c: char) -> bool {
    48 <= c as u32 && c as u32 <= 57
}

/// Characters allowed in a record keyword: uppercase letters and digits.
pub open spec fn is_keyword_char(c: char) -> bool {
    (65 <= c as u32 && c as u32 <= 90) || is_digit_char(c)
}

/// Characters that may appear in a real-number literal.
pub open spec fn is_real_char(c: char) -> bool {
    is_digit_char(c) || c == '.' || c == '-' || c == '+' || c == 'E' || c == 'e'
}

pub fn ws_char(c: char) -> (r: bool)
    ensures
        r == is_ws_char(c),
{
    c == ' ' || c == '\t' || c == '\n' || c == '\r'
}

pub fn digit_char_test(c: char) -> (r: bool)
    ensures
        r == is_digit_char(c),
{
    let u = c as u32;
    48 <= u && u <= 57
}

pub fn keyword_char_test(c: char) -> (r: bool)
    ensures
        r == is_keyword_char(c),
{
    let u = c as u32;
    (65 <= u && u <= 90) || (48 <= u && u <= 57)
}

pub fn real_char_test(c: char) -> (r: bool)
    ensures
        r == is_real_char(c),
{
    let u = c as u32;
    (48 <= u && u <= 57) || c == '.' || c == '-' || c == '+' || c == 'E' || c == 'e'
}

// ---------------------------------------------------------------------
// whitespace
// ---------------------------------------------------------------------

/// The first position at or after `i` holding a non-whitespace
/// character (or the end of the input).
pub open spec fn sp_ws(s: Seq<char>, i: int) -> int
    decreases s.len() - i,
{
    if 0 <= i && i < s.len() && is_ws_char(s[i]) {
        sp_ws(s, i + 1)
    } else {
        i
    }
}

pub proof fn lemma_sp_ws_bounds(s: Seq<char>, i: int)
    requires
        0 <= i <= s.len(),
    ensures
        i <= sp_ws(s, i) <= s.len(),
    decreases s.len() - i,
{
    if i < s.len() && is_ws_char(s[i]) {
        lemma_sp_ws_bounds(s, i + 1);
    }
}

/// Skipping is a no-op wherever the current character is not whitespace.
pub proof fn lemma_sp_ws_noop(s: Seq<char>, i: int)
    requires
        0 <= i <= s.len(),
        i == s.len() || !is_ws_char(s[i]),
    ensures
        sp_ws(s, i) == i,
{
}

pub fn skip_ws(s: &Vec<char>, pos: usize) -> (j: usize)
    requires
        pos <= s@.len(),
    ensures
        j == sp_ws(s@, pos as int),
        pos <= j <= s@.len(),
{
    let mut cur = pos;
    while cur < s.len() && ws_char(s[cur])
        invariant
            pos <= cur <= s@.len(),
            sp_ws(s@, pos as int) == sp_ws(s@, cur as int),
        decreases s@.len() - cur,
    {
        cur = cur + 1;
    }
    cur
}

// ---------------------------------------------------------------------
// literal tokens
// ---------------------------------------------------------------------

/// Whether the text `l` stands verbatim at position `i`.
pub open spec fn sp_match_at(s: Seq<char>, i: int, l: Seq<char>) -> bool {
    0 <= i && i + l.len() <= s.len() && s.subrange(i, i + l.len()) == l
}

/// Skip whitespace, then require the literal `l`; the position after it.
pub open spec fn sp_lit(s: Seq<char>, i: int, l: Seq<char>) -> Option<int> {
    let j = sp_ws(s, i);
    if sp_match_at(s, j, l) {
        Some(j + l.len())
    } else {
        None
    }
}

pub fn lit_matches(s: &Vec<char>, pos: usize, lit: &str) -> (r: bool)
    requires
        pos <= s@.len(),
    ensures
        r == sp_match_at(s@, pos as int, lit@),
{
    let n = lit.unicode_len();
    let slen = s.len();
    if n > slen - pos {
        assert(!sp_match_at(s@, pos as int, lit@));
        return false;
    }
    let mut k: usize = 0;
    while k < n
        invariant
            0 <= k <= n,
            n == lit@.len(),
            pos + n <= slen,
            slen == s@.len(),
            forall|t: int| 0 <= t < k ==> s@[pos + t] == lit@[t],
        decreases n - k,
    {
        if s[pos + k] != lit.get_char(k) {
            assert(s@.subrange(pos as int, pos + n) != lit@) by {
                assert(s@.subrange(pos as int, pos + n)[k as int] != lit@[k as int]);
            }
            return false;
        }
        k = k + 1;
    }
    assert(s@.subrange(pos as int, pos + n) =~= lit@);
    true
}

// ---------------------------------------------------------------------
// unsigned decimal numbers
// ---------------------------------------------------------------------

pub open spec fn digit_val(c: char) -> int {
    c as u32 - 48
}

/// The character of one decimal digit.
pub open spec fn digit_char(d: int) -> char {
    if d == 0 { '0' }
    else if d == 1 { '1' }
    else if d == 2 { '2' }
    else if d == 3 { '3' }
    else if d == 4 { '4' }
    else if d == 5 { '5' }
    else if d == 6 { '6' }
    else if d == 7 { '7' }
    else if d == 8 { '8' }
    else { '9' }
}

pub proof fn lemma_digit_char_val(d: int)
    requires
        0 <= d < 10,
    ensures
        is_digit_char(digit_char(d)),
        digit_val(digit_char(d)) == d,
{
}

pub fn digit_char_of(d: u64) -> (c: char)
    requires
        d < 10,
    ensures
        c == digit_char(d as int),
{
    if d == 0 { '0' }
    else if d == 1 { '1' }
    else if d == 2 { '2' }
    else if d == 3 { '3' }
    else if d == 4 { '4' }
    else if d == 5 { '5' }
    else if d == 6 { '6' }
    else if d == 7 { '7' }
    else if d == 8 { '8' }
    else { '9' }
}

/// Reads a run of decimal digits left to right, accumulating the value,
/// and fails where the value would no longer fit in 64 bits.
pub open spec fn sp_u64_rec(s: Seq<char>, i: int, acc: u64) -> Option<(u64, int)>
    decreases s.len() - i,
{
    if 0 <= i && i < s.len() && is_digit_char(s[i]) {
        let d = digit_val(s[i]);
        if acc * 10 + d <= u64::MAX {
            sp_u64_rec(s, i + 1, (acc * 10 + d) as u64)
        } else {
            None
        }
    } else {
        Some((acc, i))
    }
}

/// An unsigned decimal number: at least one digit, read greedily.
pub open spec fn sp_u64(s: Seq<char>, i: int) -> Option<(u64, int)> {
    if 0 <= i && i < s.len() && is_digit_char(s[i]) {
        sp_u64_rec(s, i, 0)
    } else {
        None
    }
}

pub proof fn lemma_sp_u64_rec_bounds(s: Seq<char>, i: int, acc: u64)
    requires
        0 <= i <= s.len(),
    ensures
        sp_u64_rec(s, i, acc) matches Some(r) ==> i <= r.1 <= s.len(),
    decreases s.len() - i,
{
    if i < s.len() && is_digit_char(s[i]) {
        let d = digit_val(s[i]);
        if acc * 10 + d <= u64::MAX {
            lemma_sp_u64_rec_bounds(s, i + 1, (acc * 10 + d) as u64);
        }
    }
}

pub fn parse_u64_at(s: &Vec<char>, pos: usize) -> (r: Result<(u64, usize), ParseError>)
    requires
        pos <= s@.len(),
    ensures
        match r {
            Ok((v, j)) => sp_u64(s@, pos as int) == Some((v, j as int)) && pos <= j <= s@.len(),
            Err(_) => sp_u64(s@, pos as int) is None,
        },
{
    if !(pos < s.len() && digit_char_test(s[pos])) {
        return Err(ParseError { pos, kind: ErrorKind::UnexpectedToken });
    }
    let mut acc: u64 = 0;
    let mut cur = pos;
    while cur < s.len() && digit_char_test(s[cur])
        invariant
            pos <= cur <= s@.len(),
            sp_u64_rec(s@, pos as int, 0) == sp_u64_rec(s@, cur as int, acc),
        decreases s@.len() - cur,
    {
        let d = (s[cur] as u32 - 48) as u64;
        assert(d == digit_val(s@[cur as int]));
        let wide: u128 = acc as u128 * 10 + d as u128;
        if wide > u64::MAX as u128 {
            return Err(ParseError { pos: cur, kind: ErrorKind::NumberOverflow });
        }
        acc = wide as u64;
        cur = cur + 1;
    }
    Ok((acc, cur))
}

/// The canonical decimal text of a number: most significant digit first,
/// no leading zeros (a lone zero for 0).
pub open spec fn rd_u64(n: u64) -> Seq<char>
    decreases n,
{
    if n < 10 {
        seq![digit_char(n as int)]
    } else {
        rd_u64((n / 10) as u64).push(digit_char((n % 10) as int))
    }
}

pub proof fn lemma_rd_u64_digits(n: u64)
    ensures
        rd_u64(n).len() >= 1,
        forall|t: int| 0 <= t < rd_u64(n).len() ==> is_digit_char(#[trigger] rd_u64(n)[t]),
    decreases n,
{
    if n < 10 {
        lemma_digit_char_val(n as int);
    } else {
        lemma_rd_u64_digits((n / 10) as u64);
        lemma_digit_char_val((n % 10) as int);
    }
}

/// The value denoted by a digit string appended to an accumulated value.
pub open spec fn fold_digits(acc: int, ds: Seq<char>) -> int
    decreases ds.len(),
{
    if ds.len() == 0 {
        acc
    } else {
        fold_digits(acc * 10 + digit_val(ds[0]), ds.drop_first())
    }
}

pub proof fn lemma_fold_digits_lower(acc: int, ds: Seq<char>)
    requires
        acc >= 0,
        forall|t: int| 0 <= t < ds.len() ==> is_digit_char(#[trigger] ds[t]),
    ensures
        fold_digits(acc, ds) >= acc,
    decreases ds.len(),
{
    if ds.len() > 0 {
        assert(is_digit_char(ds[0]));
        assert(digit_val(ds[0]) >= 0);
        lemma_fold_digits_lower(acc * 10 + digit_val(ds[0]), ds.drop_first());
    }
}

pub proof fn lemma_fold_digits_snoc(acc: int, ds: Seq<char>, c: char)
    ensures
        fold_digits(acc, ds.push(c)) == fold_digits(acc, ds) * 10 + digit_val(c),
    decreases ds.len(),
{
    if ds.len() == 0 {
        assert(ds.push(c)[0] == c);
        assert(ds.push(c).drop_first() =~= Seq::<char>::empty());
        assert(fold_digits(acc, ds.push(c)) == fold_digits(
            acc * 10 + digit_val(c),
            Seq::<char>::empty(),
        ));
        assert(fold_digits(acc * 10 + digit_val(c), Seq::<char>::empty()) == acc * 10 + digit_val(
            c,
        ));
    } else {
        assert(ds.push(c)[0] == ds[0]);
        assert(ds.push(c).drop_first() =~= ds.drop_first().push(c));
        assert(fold_digits(acc, ds.push(c)) == fold_digits(
            acc * 10 + digit_val(ds[0]),
            ds.drop_first().push(c),
        ));
        lemma_fold_digits_snoc(acc * 10 + digit_val(ds[0]), ds.drop_first(), c);
        assert(fold_digits(acc, ds) == fold_digits(acc * 10 + digit_val(ds[0]), ds.drop_first()));
    }
}

pub proof fn lemma_fold_rd_u64(acc: int, n: u64)
    ensures
        fold_digits(acc, rd_u64(n)) == acc * pow10(rd_u64(n).len() as nat) + n,
    decreases n,
{
    if n < 10 {
        lemma_digit_char_val(n as int);
        assert(rd_u64(n) =~= Seq::<char>::empty().push(digit_char(n as int)));
        lemma_fold_digits_snoc(acc, Seq::<char>::empty(), digit_char(n as int));
        assert(fold_digits(acc, rd_u64(n)) == acc * 10 + n);
        assert(pow10(0) == 1);
        assert(pow10(1) == 10);
        assert(rd_u64(n).len() == 1);
    } else {
        let m = (n / 10) as u64;
        let k = rd_u64(m).len() as nat;
        lemma_fold_rd_u64(acc, m);
        lemma_fold_digits_snoc(acc, rd_u64(m), digit_char((n % 10) as int));
        lemma_digit_char_val((n % 10) as int);
        assert(fold_digits(acc, rd_u64(n)) == (acc * pow10(k) + m) * 10 + (n % 10));
        assert((acc * pow10(k) + m) * 10 == acc * (pow10(k) * 10) + m * 10) by (nonlinear_arith);
        assert(m * 10 + n % 10 == n);
        assert(pow10(k + 1) == pow10(k) * 10);
        assert(fold_digits(acc, rd_u64(n)) == acc * pow10(k + 1) + n);
        assert(rd_u64(n).len() == k + 1);
    }
}

pub open spec fn pow10(k: nat) -> int
    decreases k,
{
    if k == 0 {
        1
    } else {
        pow10((k - 1) as nat) * 10
    }
}

/// Reading a rendered digit run with accumulator `acc` yields the
/// accumulated value, provided it fits.
proof fn lemma_sp_u64_rec_run(s: Seq<char>, i: int, j: int, acc: u64)
    requires
        0 <= i <= j <= s.len(),
        forall|t: int| i <= t < j ==> is_digit_char(#[trigger] s[t]),
        j == s.len() || !is_digit_char(s[j]),
        fold_digits(acc as int, s.subrange(i, j)) <= u64::MAX,
    ensures
        sp_u64_rec(s, i, acc) == Some((fold_digits(acc as int, s.subrange(i, j)) as u64, j)),
    decreases j - i,
{
    let run = s.subrange(i, j);
    if i == j {
        assert(run.len() == 0);
    } else {
        assert(is_digit_char(s[i]));
        let d = digit_val(s[i]);
        assert(run[0] == s[i]);
        assert(run.drop_first() =~= s.subrange(i + 1, j));
        assert(fold_digits(acc as int, run) == fold_digits(acc as int * 10 + d, s.subrange(i + 1, j)));
        lemma_fold_digits_lower(acc as int * 10 + d, s.subrange(i + 1, j));
        assert(acc * 10 + d <= u64::MAX);
        lemma_sp_u64_rec_run(s, i + 1, j, (acc * 10 + d) as u64);
    }
}

/// Parsing the canonical text of a number, followed by a non-digit,
/// yields the number back and stops right after its last digit.
pub proof fn lemma_u64_round_trip(s: Seq<char>, i: int, n: u64)
    requires
        0 <= i,
        i + rd_u64(n).len() <= s.len(),
        s.subrange(i, i + rd_u64(n).len()) == rd_u64(n),
        i + rd_u64(n).len() == s.len() || !is_digit_char(s[i + rd_u64(n).len()]),
    ensures
        sp_u64(s, i) == Some((n, i + rd_u64(n).len())),
{
    let len = rd_u64(n).len() as int;
    let j = i + len;
    lemma_rd_u64_digits(n);
    assert forall|t: int| i <= t < j implies is_digit_char(#[trigger] s[t]) by {
        assert(s.subrange(i, j)[t - i] == s[t]);
        assert(rd_u64(n)[t - i] == s[t]);
        assert(is_digit_char(rd_u64(n)[t - i]));
    }
    lemma_fold_rd_u64(0, n);
    assert(fold_digits(0, s.subrange(i, j)) == n);
    lemma_sp_u64_rec_run(s, i, j, 0);
    assert(s[i] == rd_u64(n)[0]);
}

pub fn render_u64(n: u64, out: &mut Vec<char>)
    ensures
        final(out)@ == old(out)@ + rd_u64(n),
    decreases n,
{
    if n < 10 {
        out.push(digit_char_of(n));
        assert(out@ =~= old(out)@ + rd_u64(n));
    } else {
        render_u64(n / 10, out);
        out.push(digit_char_of(n % 10));
        assert(out@ =~= old(out)@ + rd_u64(n));
    }
}

// ---------------------------------------------------------------------
// quoted string literals
// ---------------------------------------------------------------------

/// Reads the body of a quoted string, the opening quote already
/// consumed: a doubled quote stands for one quote character, a single
/// quote closes the literal, and an input that ends first is an
/// unterminated string.
pub open spec fn sp_str_body(s: Seq<char>, i: int) -> Option<(Seq<char>, int)>
    decreases s.len() - i,
{
    if !(0 <= i < s.len()) {
        None
    } else if s[i] == '\'' {
        if i + 1 < s.len() && s[i + 1] == '\'' {
            match sp_str_body(s, i + 2) {
                Some(r) => Some((seq!['\''] + r.0, r.1)),
                None => None,
            }
        } else {
            Some((Seq::empty(), i + 1))
        }
    } else {
        match sp_str_body(s, i + 1) {
            Some(r) => Some((seq![s[i]] + r.0, r.1)),
            None => None,
        }
    }
}

/// A quoted string: whitespace, an opening quote, then the body.
pub open spec fn sp_quoted(s: Seq<char>, i: int) -> Option<(Seq<char>, int)> {
    let j = sp_ws(s, i);
    if j < s.len() && s[j] == '\'' {
        sp_str_body(s, j + 1)
    } else {
        None
    }
}

pub proof fn lemma_sp_str_body_bounds(s: Seq<char>, i: int)
    requires
        0 <= i <= s.len(),
    ensures
        sp_str_body(s, i) matches Some(r) ==> i < r.1 <= s.len(),
    decreases s.len() - i,
{
    if i < s.len() {
        if s[i] == '\'' {
            if i + 1 < s.len() && s[i + 1] == '\'' {
                lemma_sp_str_body_bounds(s, i + 2);
            }
        } else {
            lemma_sp_str_body_bounds(s, i + 1);
        }
    }
}

/// The text of a string's content with quote characters doubled.
pub open spec fn esc(c: Seq<char>) -> Seq<char>
    decreases c.len(),
{
    if c.len() == 0 {
        Seq::empty()
    } else if c[0] == '\'' {
        seq!['\'', '\''] + esc(c.drop_first())
    } else {
        seq![c[0]] + esc(c.drop_first())
    }
}

/// The canonical text of a string value: quotes around the escaped body.
pub open spec fn rd_quoted(c: Seq<char>) -> Seq<char> {
    seq!['\''] + esc(c) + seq!['\'']
}

pub proof fn lemma_esc_append(a: Seq<char>, b: Seq<char>)
    ensures
        esc(a + b) == esc(a) + esc(b),
    decreases a.len(),
{
    if a.len() == 0 {
        assert(a + b =~= b);
        assert(esc(a) + esc(b) =~= esc(b));
    } else {
        assert((a + b).drop_first() =~= a.drop_first() + b);
        assert((a + b)[0] == a[0]);
        lemma_esc_append(a.drop_first(), b);
        if a[0] == '\'' {
            assert(seq!['\'', '\''] + (esc(a.drop_first()) + esc(b)) =~= (seq!['\'', '\'']
                + esc(a.drop_first())) + esc(b));
        } else {
            assert(seq![a[0]] + (esc(a.drop_first()) + esc(b)) =~= (seq![a[0]] + esc(
                a.drop_first(),
            )) + esc(b));
        }
    }
}

/// Reading an escaped body followed by a closing quote yields the
/// content back, provided no further quote follows at once.
pub proof fn lemma_str_body_round_trip(s: Seq<char>, i: int, c: Seq<char>)
    requires
        0 <= i,
        i + esc(c).len() + 1 <= s.len(),
        s.subrange(i, i + esc(c).len() + 1) == esc(c) + seq!['\''],
        i + esc(c).len() + 1 == s.len() || s[i + esc(c).len() + 1] != '\'',
    ensures
        sp_str_body(s, i) == Some((c, i + esc(c).len() + 1)),
    decreases c.len(),
{
    let e = esc(c).len() as int;
    if c.len() == 0 {
        assert(s[i] == (esc(c) + seq!['\''])[0]);
    } else {
        let rest = c.drop_first();
        assert(c =~= seq![c[0]] + rest);
        if c[0] == '\'' {
            assert(esc(c) == seq!['\'', '\''] + esc(rest));
            assert(s[i] == (esc(c) + seq!['\''])[0]);
            assert(s[i + 1] == (esc(c) + seq!['\''])[1]);
            assert(s[i] == '\'' && s[i + 1] == '\'');
            assert(s.subrange(i + 2, i + 2 + esc(rest).len() + 1) =~= esc(rest) + seq!['\'']) by {
                assert(forall|t: int|
                    0 <= t < esc(rest).len() + 1 ==> #[trigger] s.subrange(
                        i + 2,
                        i + 2 + esc(rest).len() + 1,
                    )[t] == (esc(c) + seq!['\''])[t + 2]);
            }
            lemma_str_body_round_trip(s, i + 2, rest);
            assert(seq!['\''] + rest =~= c);
        } else {
            assert(esc(c) == seq![c[0]] + esc(rest));
            assert(s[i] == (esc(c) + seq!['\''])[0]);
            assert(s[i] == c[0]);
            assert(s.subrange(i + 1, i + 1 + esc(rest).len() + 1) =~= esc(rest) + seq!['\'']) by {
                assert(forall|t: int|
                    0 <= t < esc(rest).len() + 1 ==> #[trigger] s.subrange(
                        i + 1,
                        i + 1 + esc(rest).len() + 1,
                    )[t] == (esc(c) + seq!['\''])[t + 1]);
            }
            lemma_str_body_round_trip(s, i + 1, rest);
            assert(seq![s[i]] + rest =~= c);
        }
    }
}

/// Parses a quoted string at `pos` (whitespace allowed before it) and
/// returns its unescaped content.
pub fn parse_quoted_at(s: &Vec<char>, pos: usize) -> (r: Result<(Vec<char>, usize), ParseError>)
    requires
        pos <= s@.len(),
    ensures
        match r {
            Ok((v, j)) => sp_quoted(s@, pos as int) == Some((v@, j as int)) && pos <= j <= s@.len(),
            Err(_) => sp_quoted(s@, pos as int) is None,
        },
{
    let start = skip_ws(s, pos);
    if !(start < s.len() && s[start] == '\'') {
        return Err(ParseError { pos: start, kind: ErrorKind::UnexpectedToken });
    }
    let mut content: Vec<char> = Vec::new();
    let mut cur = start + 1;
    loop
        invariant
            start == sp_ws(s@, pos as int),
            pos <= start < s@.len(),
            s@[start as int] == '\'',
            start + 1 <= cur <= s@.len(),
            match sp_str_body(s@, cur as int) {
                Some(r) => sp_str_body(s@, start + 1) == Some((content@ + r.0, r.1)),
                None => sp_str_body(s@, start + 1) is None,
            },
        decreases s@.len() - cur,
    {
        if cur >= s.len() {
            return Err(ParseError { pos: cur, kind: ErrorKind::UnterminatedString });
        }
        let ch = s[cur];
        if ch == '\'' {
            if cur + 1 < s.len() && s[cur + 1] == '\'' {
                proof {
                    if let Some(r) = sp_str_body(s@, cur + 2) {
                        assert(content@ + (seq!['\''] + r.0) =~= (content@ + seq!['\'']) + r.0);
                        assert(content@.push('\'') =~= content@ + seq!['\'']);
                    }
                }
                content.push('\'');
                cur = cur + 2;
            } else {
                proof {
                    assert(sp_str_body(s@, cur as int) == Some((Seq::<char>::empty(), cur + 1)));
                    assert(content@ + Seq::<char>::empty() =~= content@);
                    assert(sp_str_body(s@, start + 1) == Some((content@, cur + 1)));
                    assert(sp_ws(s@, pos as int) == start);
                    assert(s@[start as int] == '\'');
                    assert(sp_quoted(s@, pos as int) == sp_str_body(s@, start + 1));
                }
                return Ok((content, cur + 1));
            }
        } else {
            proof {
                let x = s@[cur as int];
                if let Some(r) = sp_str_body(s@, cur + 1) {
                    assert(content@ + (seq![x] + r.0) =~= (content@ + seq![x]) + r.0);
                    assert(content@.push(x) =~= content@ + seq![x]);
                }
            }
            content.push(ch);
            cur = cur + 1;
        }
    }
}

/// Renders a string value: quotes around the content, quotes doubled.
pub fn render_quoted(c: &Vec<char>, out: &mut Vec<char>)
    ensures
        final(out)@ == old(out)@ + rd_quoted(c@),
{
    out.push('\'');
    let n = c.len();
    let mut k: usize = 0;
    while k < n
        invariant
            0 <= k <= n,
            n == c@.len(),
            out@ == old(out)@ + seq!['\''] + esc(c@.take(k as int)),
        decreases n - k,
    {
        let ch = c[k];
        proof {
            let x = c@[k as int];
            assert(c@.take(k + 1) =~= c@.take(k as int) + seq![x]);
            lemma_esc_append(c@.take(k as int), seq![x]);
            assert(seq![x].drop_first() =~= Seq::<char>::empty());
            assert(esc(Seq::<char>::empty()) =~= Seq::<char>::empty());
            if x == '\'' {
                assert(esc(seq![x]) =~= seq!['\'', '\'']);
            } else {
                assert(esc(seq![x]) =~= seq![x]);
            }
            assert(esc(c@.take(k + 1)) == esc(c@.take(k as int)) + esc(seq![x]));
        }
        if ch == '\'' {
            out.push('\'');
            out.push('\'');
            assert(out@ =~= old(out)@ + seq!['\''] + esc(c@.take(k + 1)));
        } else {
            out.push(ch);
            assert(out@ =~= old(out)@ + seq!['\''] + esc(c@.take(k + 1)));
        }
        k = k + 1;
    }
    out.push('\'');
    proof {
        assert(c@.take(n as int) =~= c@);
        assert(out@ =~= old(out)@ + rd_quoted(c@));
    }
}

// ---------------------------------------------------------------------
// keywords and real-number literals
// ---------------------------------------------------------------------

/// The end of the run of keyword characters starting at `i`.
pub open spec fn sp_kw_end(s: Seq<char>, i: int) -> int
    decreases s.len() - i,
{
    if 0 <= i && i < s.len() && is_keyword_char(s[i]) {
        sp_kw_end(s, i + 1)
    } else {
        i
    }
}

/// A record keyword: whitespace, then the (possibly empty) run of
/// uppercase letters and digits.
pub open spec fn sp_keyword(s: Seq<char>, i: int) -> (Seq<char>, int) {
    let j = sp_ws(s, i);
    let e = sp_kw_end(s, j);
    (s.subrange(j, e), e)
}

pub proof fn lemma_sp_kw_end_bounds(s: Seq<char>, i: int)
    requires
        0 <= i <= s.len(),
    ensures
        i <= sp_kw_end(s, i) <= s.len(),
    decreases s.len() - i,
{
    if i < s.len() && is_keyword_char(s[i]) {
        lemma_sp_kw_end_bounds(s, i + 1);
    }
}

/// A run of keyword characters bounded by a non-keyword character scans
/// to exactly its end.
pub proof fn lemma_sp_kw_end_run(s: Seq<char>, i: int, j: int)
    requires
        0 <= i <= j <= s.len(),
        forall|t: int| i <= t < j ==> is_keyword_char(#[trigger] s[t]),
        j == s.len() || !is_keyword_char(s[j]),
    ensures
        sp_kw_end(s, i) == j,
    decreases j - i,
{
    if i < j {
        lemma_sp_kw_end_run(s, i + 1, j);
    }
}

pub fn parse_keyword_at(s: &Vec<char>, pos: usize) -> (r: (Vec<char>, usize))
    requires
        pos <= s@.len(),
    ensures
        (r.0@, r.1 as int) == sp_keyword(s@, pos as int),
        pos <= r.1 <= s@.len(),
{
    let start = skip_ws(s, pos);
    let mut kw: Vec<char> = Vec::new();
    let mut cur = start;
    while cur < s.len() && keyword_char_test(s[cur])
        invariant
            start <= cur <= s@.len(),
            kw@ == s@.subrange(start as int, cur as int),
            sp_kw_end(s@, start as int) == sp_kw_end(s@, cur as int),
        decreases s@.len() - cur,
    {
        kw.push(s[cur]);
        assert(kw@ =~= s@.subrange(start as int, cur + 1));
        cur = cur + 1;
    }
    (kw, cur)
}

/// The end of the run of real-literal characters starting at `i`.
pub open spec fn sp_real_end(s: Seq<char>, i: int) -> int
    decreases s.len() - i,
{
    if 0 <= i && i < s.len() && is_real_char(s[i]) {
        sp_real_end(s, i + 1)
    } else {
        i
    }
}

/// A real-number literal: whitespace, then a non-empty run of digits,
/// signs, a decimal point or an exponent mark, kept verbatim.
pub open spec fn sp_real(s: Seq<char>, i: int) -> Option<(Seq<char>, int)> {
    let j = sp_ws(s, i);
    let e = sp_real_end(s, j);
    if e > j {
        Some((s.subrange(j, e), e))
    } else {
        None
    }
}

/// Characters scanned over by the real-literal run are in its class.
pub proof fn lemma_sp_real_end_chars(s: Seq<char>, i: int)
    requires
        0 <= i <= s.len(),
    ensures
        i <= sp_real_end(s, i) <= s.len(),
        forall|t: int| i <= t < sp_real_end(s, i) ==> is_real_char(#[trigger] s[t]),
    decreases s.len() - i,
{
    if i < s.len() && is_real_char(s[i]) {
        lemma_sp_real_end_chars(s, i + 1);
    }
}

/// A string content without quote characters escapes to itself.
pub proof fn lemma_esc_no_quote(c: Seq<char>)
    requires
        forall|t: int| 0 <= t < c.len() ==> c[t] != '\'',
    ensures
        esc(c) == c,
    decreases c.len(),
{
    if c.len() > 0 {
        assert(c[0] != '\'');
        lemma_esc_no_quote(c.drop_first());
        assert(seq![c[0]] + c.drop_first() =~= c);
    }
}

pub proof fn lemma_sp_real_end_run(s: Seq<char>, i: int, j: int)
    requires
        0 <= i <= j <= s.len(),
        forall|t: int| i <= t < j ==> is_real_char(#[trigger] s[t]),
        j == s.len() || !is_real_char(s[j]),
    ensures
        sp_real_end(s, i) == j,
    decreases j - i,
{
    if i < j {
        lemma_sp_real_end_run(s, i + 1, j);
    }
}

pub fn parse_real_at(s: &Vec<char>, pos: usize) -> (r: Result<(Vec<char>, usize), ParseError>)
    requires
        pos <= s@.len(),
    ensures
        match r {
            Ok((v, j)) => sp_real(s@, pos as int) == Some((v@, j as int)) && pos <= j <= s@.len(),
            Err(_) => sp_real(s@, pos as int) is None,
        },
{
    let start = skip_ws(s, pos);
    let mut lit: Vec<char> = Vec::new();
    let mut cur = start;
    while cur < s.len() && real_char_test(s[cur])
        invariant
            start <= cur <= s@.len(),
            lit@ == s@.subrange(start as int, cur as int),
            sp_real_end(s@, start as int) == sp_real_end(s@, cur as int),
        decreases s@.len() - cur,
    {
        lit.push(s[cur]);
        assert(lit@ =~= s@.subrange(start as int, cur + 1));
        cur = cur + 1;
    }
    if cur > start {
        Ok((lit, cur))
    } else {
        Err(ParseError { pos: start, kind: ErrorKind::UnexpectedToken })
    }
}

/// Whether a parsed character sequence equals a fixed token.
pub fn chars_eq_str(v: &Vec<char>, lit: &str) -> (r: bool)
    ensures
        r == (v@ == lit@),
{
    let n = lit.unicode_len();
    if v.len() != n {
        assert(v@ != lit@);
        return false;
    }
    let mut k: usize = 0;
    while k < n
        invariant
            0 <= k <= n,
            n == lit@.len(),
            n == v@.len(),
            forall|t: int| 0 <= t < k ==> v@[t] == lit@[t],
        decreases n - k,
    {
        if v[k] != lit.get_char(k) {
            assert(v@ != lit@);
            return false;
        }
        k = k + 1;
    }
    assert(v@ =~= lit@);
    true
}

/// A single punctuation token: whitespace, then exactly the character.
pub open spec fn sp_char(s: Seq<char>, i: int, c: char) -> Option<int> {
    let j = sp_ws(s, i);
    if j < s.len() && s[j] == c {
        Some(j + 1)
    } else {
        None
    }
}

/// Skip whitespace and consume the single character `c`, or fail at
/// the position where it was expected.
pub fn expect_char(s: &Vec<char>, pos: usize, c: char) -> (r: Result<usize, ParseError>)
    requires
        pos <= s@.len(),
    ensures
        match r {
            Ok(j) => sp_char(s@, pos as int, c) == Some(j as int) && pos < j <= s@.len(),
            Err(_) => sp_char(s@, pos as int, c) is None,
        },
{
    let j = skip_ws(s, pos);
    if j < s.len() && s[j] == c {
        Ok(j + 1)
    } else {
        Err(ParseError { pos: j, kind: ErrorKind::UnexpectedToken })
    }
}

/// The characters of a matching subrange slice to a slice of the match.
pub proof fn lemma_subrange_slice(s: Seq<char>, i: int, x: Seq<char>, a: int, b: int)
    requires
        0 <= i,
        i + x.len() <= s.len(),
        s.subrange(i, i + x.len()) == x,
        0 <= a <= b <= x.len(),
    ensures
        s.subrange(i + a, i + b) == x.subrange(a, b),
{
    assert(s.subrange(i + a, i + b) =~= x.subrange(a, b)) by {
        assert(forall|t: int|
            0 <= t < b - a ==> #[trigger] s.subrange(i + a, i + b)[t] == s.subrange(
                i,
                i + x.len(),
            )[t + a]);
    }
}

/// Skip whitespace and consume the literal `lit`, or fail at the
/// position where it was expected.
pub fn expect_lit(s: &Vec<char>, pos: usize, lit: &str) -> (r: Result<usize, ParseError>)
    requires
        pos <= s@.len(),
    ensures
        match r {
            Ok(j) => sp_lit(s@, pos as int, lit@) == Some(j as int) && pos <= j <= s@.len(),
            Err(_) => sp_lit(s@, pos as int, lit@) is None,
        },
{
    let j = skip_ws(s, pos);
    if lit_matches(s, j, lit) {
        let n = lit.unicode_len();
        let slen = s.len();
        assert(j + n <= slen);
        Ok(j + n)
    } else {
        Err(ParseError { pos: j, kind: ErrorKind::UnexpectedToken })
    }
}

} // verus!
