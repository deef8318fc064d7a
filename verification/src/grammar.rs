//! Attribute-level grammar: the building blocks every record codec is
//! composed of. An attribute is one of: the omitted sentinel `$`, a
//! quoted string, a reference `#n`, a bare number, a parenthesized list
//! of references, or a reference-or-inline-string.
//!
//! As in [`crate::codec`], each construct has a spec parser, a spec
//! renderer over views, executable counterparts, and a round-trip
//! lemma: parsing the canonical text of a well-formed value yields the
//! value back and consumes exactly its text.

use crate::codec::{
    is_digit_char, lemma_rd_u64_digits, lemma_sp_u64_rec_bounds, lemma_sp_ws_noop,
    lemma_str_body_round_trip, lemma_u64_round_trip, esc, parse_quoted_at, parse_u64_at,
    rd_quoted, rd_u64, render_quoted, render_u64, skip_ws, sp_quoted, sp_u64, sp_ws, ErrorKind,
    ParseError,
};
use vstd::prelude::*;

verus! {

/// A string-valued attribute: the content of a quoted literal.
#[derive(Clone, PartialEq, Eq, Debug)]
pub struct Label(pub Vec<char>);

impl View for Label {
    type V = Seq<char>;

    open spec fn view(&self) -> Seq<char> {
        self.0@
    }
}

/// An attribute that is either explicitly omitted (the `$` sentinel) or
/// present with a value. An omitted attribute renders to `$` and stays
/// distinguishable from any present value, the empty string included.
#[derive(Clone, PartialEq, Eq, Debug)]
pub enum OptionalParameter<T> {
    Omitted,
    Custom(T),
}

impl<T: View> View for OptionalParameter<T> {
    type V = Option<T::V>;

    open spec fn view(&self) -> Option<T::V> {
        match self {
            OptionalParameter::Omitted => None,
            OptionalParameter::Custom(v) => Some(v@),
        }
    }
}

impl<T> OptionalParameter<T> {
    /// The omitted sentinel.
    pub fn omitted() -> (r: Self) where T: View
        ensures
            r@ == Option::<T::V>::None,
    {
        OptionalParameter::Omitted
    }

    /// A present value.
    pub fn custom(v: T) -> (r: Self) where T: View
        ensures
            r@ == Some(v@),
    {
        OptionalParameter::Custom(v)
    }
}

/// The sentinel standing for an attribute the reader does not model.
/// It parses from and renders to the fixed token `$`.
#[derive(Clone, Copy, PartialEq, Eq, Structural, Debug)]
pub struct PlaceHolder;

/// A parenthesized, comma-separated repetition of values, rendered with
/// no trailing separator.
#[derive(Clone, PartialEq, Eq, Debug)]
pub struct IfcList<T>(pub Vec<T>);

impl<T: View> View for IfcList<T> {
    type V = Seq<T::V>;

    open spec fn view(&self) -> Seq<T::V> {
        self.0@.map_values(|t: T| t@)
    }
}

// ---------------------------------------------------------------------
// references
// ---------------------------------------------------------------------

/// A reference token: `#` followed by a strictly positive number.
pub open spec fn sp_id(s: Seq<char>, i: int) -> Option<(u64, int)> {
    let j = sp_ws(s, i);
    if j < s.len() && s[j] == '#' {
        match sp_u64(s, j + 1) {
            Some((n, e)) => if n >= 1 {
                Some((n, e))
            } else {
                None
            },
            None => None,
        }
    } else {
        None
    }
}

pub open spec fn rd_id(n: u64) -> Seq<char> {
    seq!['#'] + rd_u64(n)
}

pub open spec fn wf_id(n: u64) -> bool {
    n >= 1
}

pub proof fn lemma_id_round_trip(s: Seq<char>, i: int, n: u64)
    requires
        0 <= i,
        i + rd_id(n).len() <= s.len(),
        s.subrange(i, i + rd_id(n).len()) == rd_id(n),
        i + rd_id(n).len() == s.len() || !is_digit_char(s[i + rd_id(n).len()]),
        wf_id(n),
    ensures
        sp_id(s, i) == Some((n, i + rd_id(n).len())),
{
    let len = rd_id(n).len() as int;
    assert(s[i] == rd_id(n)[0]);
    assert(s[i] == '#');
    lemma_sp_ws_noop(s, i);
    assert(s.subrange(i + 1, i + len) =~= rd_u64(n)) by {
        assert(forall|t: int|
            0 <= t < rd_u64(n).len() ==> #[trigger] s.subrange(i + 1, i + len)[t] == rd_id(n)[t
                + 1]);
    }
    lemma_u64_round_trip(s, i + 1, n);
}

pub fn parse_id_at(s: &Vec<char>, pos: usize) -> (r: Result<(u64, usize), ParseError>)
    requires
        pos <= s@.len(),
    ensures
        match r {
            Ok((n, j)) => sp_id(s@, pos as int) == Some((n, j as int)) && pos < j <= s@.len(),
            Err(_) => sp_id(s@, pos as int) is None,
        },
{
    let start = skip_ws(s, pos);
    if !(start < s.len() && s[start] == '#') {
        return Err(ParseError { pos: start, kind: ErrorKind::UnexpectedToken });
    }
    match parse_u64_at(s, start + 1) {
        Ok((n, j)) => {
            if n >= 1 {
                proof {
                    lemma_sp_u64_rec_bounds(s@, start + 1, 0);
                }
                Ok((n, j))
            } else {
                Err(ParseError { pos: start, kind: ErrorKind::UnexpectedToken })
            }
        },
        Err(e) => Err(e),
    }
}

pub fn render_id(n: u64, out: &mut Vec<char>)
    ensures
        final(out)@ == old(out)@ + rd_id(n),
{
    out.push('#');
    render_u64(n, out);
    assert(final(out)@ =~= old(out)@ + rd_id(n));
}

// ---------------------------------------------------------------------
// optional attributes
// ---------------------------------------------------------------------

/// An optional string attribute: `$`, or a quoted literal.
pub open spec fn sp_opt_label(s: Seq<char>, i: int) -> Option<(Option<Seq<char>>, int)> {
    let j = sp_ws(s, i);
    if j < s.len() && s[j] == '$' {
        Some((None, j + 1))
    } else {
        match sp_quoted(s, i) {
            Some((c, e)) => Some((Some(c), e)),
            None => None,
        }
    }
}

pub open spec fn rd_opt_label(v: Option<Seq<char>>) -> Seq<char> {
    match v {
        None => seq!['$'],
        Some(c) => rd_quoted(c),
    }
}

pub proof fn lemma_opt_label_round_trip(s: Seq<char>, i: int, v: Option<Seq<char>>)
    requires
        0 <= i,
        i + rd_opt_label(v).len() <= s.len(),
        s.subrange(i, i + rd_opt_label(v).len()) == rd_opt_label(v),
        i + rd_opt_label(v).len() == s.len() || s[i + rd_opt_label(v).len()] != '\'',
    ensures
        sp_opt_label(s, i) == Some((v, i + rd_opt_label(v).len())),
{
    let len = rd_opt_label(v).len() as int;
    assert(s[i] == rd_opt_label(v)[0]);
    match v {
        None => {
            assert(s[i] == '$');
            lemma_sp_ws_noop(s, i);
        },
        Some(c) => {
            assert(s[i] == '\'');
            lemma_sp_ws_noop(s, i);
            assert(s.subrange(i + 1, i + len) =~= esc(c) + seq!['\'']) by {
                assert(forall|t: int|
                    0 <= t < len - 1 ==> #[trigger] s.subrange(i + 1, i + len)[t] == rd_opt_label(
                        v,
                    )[t + 1]);
            }
            lemma_str_body_round_trip(s, i + 1, c);
        },
    }
}

pub fn parse_opt_label_at(s: &Vec<char>, pos: usize) -> (r: Result<
    (OptionalParameter<Label>, usize),
    ParseError,
>)
    requires
        pos <= s@.len(),
    ensures
        match r {
            Ok((v, j)) => sp_opt_label(s@, pos as int) == Some((v@, j as int)) && pos <= j
                <= s@.len(),
            Err(_) => sp_opt_label(s@, pos as int) is None,
        },
{
    let start = skip_ws(s, pos);
    if start < s.len() && s[start] == '$' {
        Ok((OptionalParameter::Omitted, start + 1))
    } else {
        match parse_quoted_at(s, pos) {
            Ok((c, j)) => Ok((OptionalParameter::Custom(Label(c)), j)),
            Err(e) => Err(e),
        }
    }
}

pub fn render_opt_label(v: &OptionalParameter<Label>, out: &mut Vec<char>)
    ensures
        final(out)@ == old(out)@ + rd_opt_label(v@),
{
    match v {
        OptionalParameter::Omitted => {
            out.push('$');
            assert(final(out)@ =~= old(out)@ + rd_opt_label(v@));
        },
        OptionalParameter::Custom(l) => {
            render_quoted(&l.0, out);
        },
    }
}

/// An optional reference attribute: `$`, or `#n`.
pub open spec fn sp_opt_id(s: Seq<char>, i: int) -> Option<(Option<u64>, int)> {
    let j = sp_ws(s, i);
    if j < s.len() && s[j] == '$' {
        Some((None, j + 1))
    } else {
        match sp_id(s, i) {
            Some((n, e)) => Some((Some(n), e)),
            None => None,
        }
    }
}

pub open spec fn rd_opt_id(v: Option<u64>) -> Seq<char> {
    match v {
        None => seq!['$'],
        Some(n) => rd_id(n),
    }
}

pub open spec fn wf_opt_id(v: Option<u64>) -> bool {
    v matches Some(n) ==> wf_id(n)
}

pub proof fn lemma_opt_id_round_trip(s: Seq<char>, i: int, v: Option<u64>)
    requires
        0 <= i,
        i + rd_opt_id(v).len() <= s.len(),
        s.subrange(i, i + rd_opt_id(v).len()) == rd_opt_id(v),
        i + rd_opt_id(v).len() == s.len() || !is_digit_char(s[i + rd_opt_id(v).len()]),
        wf_opt_id(v),
    ensures
        sp_opt_id(s, i) == Some((v, i + rd_opt_id(v).len())),
{
    assert(s[i] == rd_opt_id(v)[0]);
    match v {
        None => {
            assert(s[i] == '$');
            lemma_sp_ws_noop(s, i);
        },
        Some(n) => {
            assert(s[i] == '#');
            lemma_sp_ws_noop(s, i);
            lemma_id_round_trip(s, i, n);
        },
    }
}

pub fn parse_opt_id_at(s: &Vec<char>, pos: usize) -> (r: Result<
    (OptionalParameter<crate::id::Id>, usize),
    ParseError,
>)
    requires
        pos <= s@.len(),
    ensures
        match r {
            Ok((v, j)) => sp_opt_id(s@, pos as int) == Some((v@, j as int)) && pos <= j <= s@.len(),
            Err(_) => sp_opt_id(s@, pos as int) is None,
        },
{
    let start = skip_ws(s, pos);
    if start < s.len() && s[start] == '$' {
        Ok((OptionalParameter::Omitted, start + 1))
    } else {
        match parse_id_at(s, pos) {
            Ok((n, j)) => Ok((OptionalParameter::Custom(crate::id::Id(n)), j)),
            Err(e) => Err(e),
        }
    }
}

pub fn render_opt_id(v: &OptionalParameter<crate::id::Id>, out: &mut Vec<char>)
    ensures
        final(out)@ == old(out)@ + rd_opt_id(v@),
{
    match v {
        OptionalParameter::Omitted => {
            out.push('$');
            assert(final(out)@ =~= old(out)@ + rd_opt_id(v@));
        },
        OptionalParameter::Custom(id) => {
            render_id(id.0, out);
        },
    }
}

/// An optional bare number, as used for timestamps: `$`, or digits.
pub open spec fn sp_opt_u64(s: Seq<char>, i: int) -> Option<(Option<u64>, int)> {
    let j = sp_ws(s, i);
    if j < s.len() && s[j] == '$' {
        Some((None, j + 1))
    } else {
        match sp_u64(s, j) {
            Some((n, e)) => Some((Some(n), e)),
            None => None,
        }
    }
}

pub open spec fn rd_opt_u64(v: Option<u64>) -> Seq<char> {
    match v {
        None => seq!['$'],
        Some(n) => rd_u64(n),
    }
}

pub proof fn lemma_opt_u64_round_trip(s: Seq<char>, i: int, v: Option<u64>)
    requires
        0 <= i,
        i + rd_opt_u64(v).len() <= s.len(),
        s.subrange(i, i + rd_opt_u64(v).len()) == rd_opt_u64(v),
        i + rd_opt_u64(v).len() == s.len() || !is_digit_char(s[i + rd_opt_u64(v).len()]),
    ensures
        sp_opt_u64(s, i) == Some((v, i + rd_opt_u64(v).len())),
{
    assert(s[i] == rd_opt_u64(v)[0]);
    match v {
        None => {
            assert(s[i] == '$');
            lemma_sp_ws_noop(s, i);
        },
        Some(n) => {
            lemma_rd_u64_digits(n);
            assert(is_digit_char(s[i]));
            lemma_sp_ws_noop(s, i);
            lemma_u64_round_trip(s, i, n);
        },
    }
}

pub fn parse_opt_u64_at(s: &Vec<char>, pos: usize) -> (r: Result<
    (OptionalParameter<u64>, usize),
    ParseError,
>)
    requires
        pos <= s@.len(),
    ensures
        match r {
            Ok((v, j)) => sp_opt_u64(s@, pos as int) == Some((v@, j as int)) && pos <= j
                <= s@.len(),
            Err(_) => sp_opt_u64(s@, pos as int) is None,
        },
{
    let start = skip_ws(s, pos);
    if start < s.len() && s[start] == '$' {
        Ok((OptionalParameter::Omitted, start + 1))
    } else {
        match parse_u64_at(s, start) {
            Ok((n, j)) => Ok((OptionalParameter::Custom(n), j)),
            Err(e) => Err(e),
        }
    }
}

pub fn render_opt_u64(v: &OptionalParameter<u64>, out: &mut Vec<char>)
    ensures
        final(out)@ == old(out)@ + rd_opt_u64(v@),
{
    match v {
        OptionalParameter::Omitted => {
            out.push('$');
            assert(final(out)@ =~= old(out)@ + rd_opt_u64(v@));
        },
        OptionalParameter::Custom(n) => {
            render_u64(*n, out);
        },
    }
}

// ---------------------------------------------------------------------
// reference-or-inline-string
// ---------------------------------------------------------------------

use crate::id::IdOrV;

/// A value that stands inline as a quoted string or by reference as
/// `#n`, as the text form of [`crate::id::IdOr`] over strings.
pub open spec fn sp_idor_label(s: Seq<char>, i: int) -> Option<(IdOrV<Seq<char>>, int)> {
    let j = sp_ws(s, i);
    if j < s.len() && s[j] == '#' {
        match sp_id(s, i) {
            Some((n, e)) => Some((IdOrV::Id(n), e)),
            None => None,
        }
    } else {
        match sp_quoted(s, i) {
            Some((c, e)) => Some((IdOrV::Val(c), e)),
            None => None,
        }
    }
}

pub open spec fn rd_idor_label(v: IdOrV<Seq<char>>) -> Seq<char> {
    match v {
        IdOrV::Id(n) => rd_id(n),
        IdOrV::Val(c) => rd_quoted(c),
    }
}

pub open spec fn wf_idor_label(v: IdOrV<Seq<char>>) -> bool {
    v matches IdOrV::Id(n) ==> wf_id(n)
}

pub proof fn lemma_idor_label_round_trip(s: Seq<char>, i: int, v: IdOrV<Seq<char>>)
    requires
        0 <= i,
        i + rd_idor_label(v).len() <= s.len(),
        s.subrange(i, i + rd_idor_label(v).len()) == rd_idor_label(v),
        i + rd_idor_label(v).len() == s.len() || (!is_digit_char(s[i + rd_idor_label(v).len()])
            && s[i + rd_idor_label(v).len()] != '\''),
        wf_idor_label(v),
    ensures
        sp_idor_label(s, i) == Some((v, i + rd_idor_label(v).len())),
{
    let len = rd_idor_label(v).len() as int;
    assert(s[i] == rd_idor_label(v)[0]);
    match v {
        IdOrV::Id(n) => {
            assert(s[i] == '#');
            lemma_sp_ws_noop(s, i);
            lemma_id_round_trip(s, i, n);
        },
        IdOrV::Val(c) => {
            assert(s[i] == '\'');
            lemma_sp_ws_noop(s, i);
            assert(s.subrange(i + 1, i + len) =~= esc(c) + seq!['\'']) by {
                assert(forall|t: int|
                    0 <= t < len - 1 ==> #[trigger] s.subrange(i + 1, i + len)[t] == rd_idor_label(
                        v,
                    )[t + 1]);
            }
            lemma_str_body_round_trip(s, i + 1, c);
        },
    }
}

pub fn parse_idor_label_at(s: &Vec<char>, pos: usize) -> (r: Result<
    (crate::id::IdOr<Label>, usize),
    ParseError,
>)
    requires
        pos <= s@.len(),
    ensures
        match r {
            Ok((v, j)) => sp_idor_label(s@, pos as int) == Some((v@, j as int)) && pos <= j
                <= s@.len(),
            Err(_) => sp_idor_label(s@, pos as int) is None,
        },
{
    let start = skip_ws(s, pos);
    if start < s.len() && s[start] == '#' {
        match parse_id_at(s, pos) {
            Ok((n, j)) => Ok((crate::id::IdOr::Id(crate::id::TypedId::new(crate::id::Id(n))), j)),
            Err(e) => Err(e),
        }
    } else {
        match parse_quoted_at(s, pos) {
            Ok((c, j)) => Ok((crate::id::IdOr::Custom(Label(c)), j)),
            Err(e) => Err(e),
        }
    }
}

pub fn render_idor_label(v: &crate::id::IdOr<Label>, out: &mut Vec<char>)
    ensures
        final(out)@ == old(out)@ + rd_idor_label(v@),
{
    match v {
        crate::id::IdOr::Id(t) => {
            render_id(t.id().0, out);
        },
        crate::id::IdOr::Custom(l) => {
            render_quoted(&l.0, out);
        },
    }
}

// ---------------------------------------------------------------------
// lists of references
// ---------------------------------------------------------------------

/// The elements after the opening parenthesis: one reference, then
/// either a comma and more elements, or the closing parenthesis.
pub open spec fn sp_id_list_rest(s: Seq<char>, i: int) -> Option<(Seq<u64>, int)>
    decreases s.len() - i,
{
    if !(0 <= i <= s.len()) {
        None
    } else {
        match sp_id(s, i) {
            None => None,
            Some((n, e)) => if !(i < e <= s.len()) {
                None
            } else {
                let k = sp_ws(s, e);
                if !(e <= k && k < s.len()) {
                    None
                } else if s[k] == ',' {
                    match sp_id_list_rest(s, k + 1) {
                        Some(r) => Some((seq![n] + r.0, r.1)),
                        None => None,
                    }
                } else if s[k] == ')' {
                    Some((seq![n], k + 1))
                } else {
                    None
                }
            },
        }
    }
}

/// A parenthesized, comma-separated list of references, possibly empty.
pub open spec fn sp_id_list(s: Seq<char>, i: int) -> Option<(Seq<u64>, int)> {
    let j = sp_ws(s, i);
    if j < s.len() && s[j] == '(' {
        let k = sp_ws(s, j + 1);
        if k < s.len() && s[k] == ')' {
            Some((Seq::empty(), k + 1))
        } else {
            sp_id_list_rest(s, j + 1)
        }
    } else {
        None
    }
}

pub open spec fn rd_id_items(v: Seq<u64>) -> Seq<char>
    decreases v.len(),
{
    if v.len() == 0 {
        Seq::empty()
    } else if v.len() == 1 {
        rd_id(v[0])
    } else {
        rd_id(v[0]) + seq![','] + rd_id_items(v.drop_first())
    }
}

pub open spec fn rd_id_list(v: Seq<u64>) -> Seq<char> {
    seq!['('] + rd_id_items(v) + seq![')']
}

pub open spec fn wf_id_seq(v: Seq<u64>) -> bool {
    forall|t: int| 0 <= t < v.len() ==> wf_id(#[trigger] v[t])
}

proof fn lemma_id_list_rest_round_trip(s: Seq<char>, i: int, v: Seq<u64>)
    requires
        0 <= i,
        v.len() >= 1,
        i + rd_id_items(v).len() + 1 <= s.len(),
        s.subrange(i, i + rd_id_items(v).len() + 1) == rd_id_items(v) + seq![')'],
        wf_id_seq(v),
    ensures
        sp_id_list_rest(s, i) == Some((v, i + rd_id_items(v).len() + 1)),
    decreases v.len(),
{
    let n = v[0];
    let idlen = rd_id(n).len() as int;
    let total = rd_id_items(v).len() as int;
    assert(wf_id(n));
    if v.len() == 1 {
        assert(rd_id_items(v) == rd_id(n));
        assert(s.subrange(i, i + idlen) =~= rd_id(n)) by {
            assert(forall|t: int|
                0 <= t < idlen ==> #[trigger] s.subrange(i, i + idlen)[t] == (rd_id_items(v)
                    + seq![')'])[t]);
        }
        assert(s[i + idlen] == (rd_id_items(v) + seq![')'])[idlen]);
        assert(s[i + idlen] == ')');
        lemma_id_round_trip(s, i, n);
        lemma_sp_ws_noop(s, i + idlen);
    } else {
        let rest = v.drop_first();
        assert(rd_id_items(v) == rd_id(n) + seq![','] + rd_id_items(rest));
        assert(s.subrange(i, i + idlen) =~= rd_id(n)) by {
            assert(forall|t: int|
                0 <= t < idlen ==> #[trigger] s.subrange(i, i + idlen)[t] == (rd_id_items(v)
                    + seq![')'])[t]);
        }
        assert(s[i + idlen] == (rd_id_items(v) + seq![')'])[idlen]);
        assert(s[i + idlen] == ',');
        lemma_id_round_trip(s, i, n);
        lemma_sp_ws_noop(s, i + idlen);
        let i2 = i + idlen + 1;
        assert(s.subrange(i2, i2 + rd_id_items(rest).len() + 1) =~= rd_id_items(rest) + seq![')'])
            by {
            assert(forall|t: int|
                0 <= t < rd_id_items(rest).len() + 1 ==> #[trigger] s.subrange(
                    i2,
                    i2 + rd_id_items(rest).len() + 1,
                )[t] == (rd_id_items(v) + seq![')'])[t + idlen + 1]);
        }
        assert(forall|t: int| 0 <= t < rest.len() ==> rest[t] == v[t + 1]);
        assert(wf_id_seq(rest));
        lemma_id_list_rest_round_trip(s, i2, rest);
        assert(seq![n] + rest =~= v);
    }
}

pub proof fn lemma_id_list_round_trip(s: Seq<char>, i: int, v: Seq<u64>)
    requires
        0 <= i,
        i + rd_id_list(v).len() <= s.len(),
        s.subrange(i, i + rd_id_list(v).len()) == rd_id_list(v),
        wf_id_seq(v),
    ensures
        sp_id_list(s, i) == Some((v, i + rd_id_list(v).len())),
{
    let total = rd_id_list(v).len() as int;
    assert(s[i] == rd_id_list(v)[0]);
    assert(s[i] == '(');
    lemma_sp_ws_noop(s, i);
    if v.len() == 0 {
        assert(rd_id_items(v) == Seq::<char>::empty());
        assert(s[i + 1] == rd_id_list(v)[1]);
        assert(s[i + 1] == ')');
        lemma_sp_ws_noop(s, i + 1);
    } else {
        assert(s[i + 1] == rd_id_list(v)[1]);
        assert(rd_id_items(v).len() >= 1) by {
            assert(rd_id(v[0]).len() >= 2) by {
                lemma_rd_u64_digits(v[0]);
            }
        }
        assert(rd_id_items(v)[0] == rd_id(v[0])[0]);
        assert(rd_id_list(v)[1] == rd_id_items(v)[0]);
        assert(s[i + 1] == '#');
        lemma_sp_ws_noop(s, i + 1);
        assert(s.subrange(i + 1, i + 1 + rd_id_items(v).len() + 1) =~= rd_id_items(v) + seq![')'])
            by {
            assert(forall|t: int|
                0 <= t < rd_id_items(v).len() + 1 ==> #[trigger] s.subrange(
                    i + 1,
                    i + 1 + rd_id_items(v).len() + 1,
                )[t] == rd_id_list(v)[t + 1]);
        }
        lemma_id_list_rest_round_trip(s, i + 1, v);
    }
}

/// The identifiers a sequence of `Id` values denotes.
pub open spec fn ids_of(items: Seq<crate::id::Id>) -> Seq<u64> {
    items.map_values(|t: crate::id::Id| t@)
}

pub fn parse_id_list_at(s: &Vec<char>, pos: usize) -> (r: Result<
    (IfcList<crate::id::Id>, usize),
    ParseError,
>)
    requires
        pos <= s@.len(),
    ensures
        match r {
            Ok((v, j)) => sp_id_list(s@, pos as int) == Some((v@, j as int)) && pos <= j
                <= s@.len(),
            Err(_) => sp_id_list(s@, pos as int) is None,
        },
{
    let start = skip_ws(s, pos);
    if !(start < s.len() && s[start] == '(') {
        return Err(ParseError { pos: start, kind: ErrorKind::UnexpectedToken });
    }
    let after_open = start + 1;
    let k0 = skip_ws(s, after_open);
    if k0 < s.len() && s[k0] == ')' {
        let items: Vec<crate::id::Id> = Vec::new();
        let result = IfcList(items);
        proof {
            assert(result@ =~= Seq::<u64>::empty());
        }
        return Ok((result, k0 + 1));
    }
    let mut items: Vec<crate::id::Id> = Vec::new();
    let mut cur = after_open;
    loop
        invariant
            pos <= after_open <= s@.len(),
            after_open <= cur <= s@.len(),
            sp_id_list(s@, pos as int) == sp_id_list_rest(s@, after_open as int),
            match sp_id_list_rest(s@, cur as int) {
                Some(r) => sp_id_list_rest(s@, after_open as int) == Some(
                    (ids_of(items@) + r.0, r.1),
                ),
                None => sp_id_list_rest(s@, after_open as int) is None,
            },
        decreases s@.len() - cur,
    {
        let ghost pre = ids_of(items@);
        match parse_id_at(s, cur) {
            Err(e) => {
                return Err(e);
            },
            Ok((n, e)) => {
                let k = skip_ws(s, e);
                if !(k < s.len()) {
                    return Err(ParseError { pos: k, kind: ErrorKind::UnexpectedEnd });
                }
                if s[k] == ',' {
                    items.push(crate::id::Id(n));
                    proof {
                        assert(ids_of(items@) =~= pre + seq![n]);
                        if let Some(r) = sp_id_list_rest(s@, k + 1) {
                            assert(pre + (seq![n] + r.0) =~= (pre + seq![n]) + r.0);
                        }
                    }
                    cur = k + 1;
                } else if s[k] == ')' {
                    items.push(crate::id::Id(n));
                    let result = IfcList(items);
                    proof {
                        assert(result@ =~= pre + seq![n]);
                        assert(sp_id_list_rest(s@, cur as int) == Some((seq![n], k + 1)));
                    }
                    return Ok((result, k + 1));
                } else {
                    return Err(ParseError { pos: k, kind: ErrorKind::UnexpectedToken });
                }
            },
        }
    }
}

pub fn render_id_list(v: &IfcList<crate::id::Id>, out: &mut Vec<char>)
    ensures
        final(out)@ == old(out)@ + rd_id_list(v@),
{
    let ghost items = v@;
    out.push('(');
    let n = v.0.len();
    let mut k: usize = 0;
    while k < n
        invariant
            0 <= k <= n,
            n == v.0@.len(),
            items == v@,
            items.len() == n,
            out@ == old(out)@ + seq!['('] + rd_id_items_prefix(items, k as int),
        decreases n - k,
    {
        if k > 0 {
            out.push(',');
        }
        render_id(v.0[k].0, out);
        proof {
            assert(items[k as int] == v.0@[k as int]@);
            lemma_rd_id_items_prefix_step(items, k as int);
        }
        k = k + 1;
    }
    out.push(')');
    proof {
        lemma_rd_id_items_prefix_all(items);
        assert(out@ =~= old(out)@ + rd_id_list(items));
    }
}

/// The rendered text of the first `k` list elements, with the separator
/// that precedes each element after the first.
pub open spec fn rd_id_items_prefix(v: Seq<u64>, k: int) -> Seq<char>
    decreases k,
{
    if k <= 0 {
        Seq::empty()
    } else if k == 1 {
        rd_id(v[0])
    } else {
        rd_id_items_prefix(v, k - 1) + seq![','] + rd_id(v[k - 1])
    }
}

proof fn lemma_rd_id_items_prefix_step(v: Seq<u64>, k: int)
    requires
        0 <= k < v.len(),
    ensures
        k == 0 ==> rd_id_items_prefix(v, k + 1) == rd_id_items_prefix(v, k) + rd_id(v[k]),
        k > 0 ==> rd_id_items_prefix(v, k + 1) == rd_id_items_prefix(v, k) + seq![','] + rd_id(
            v[k],
        ),
{
    if k == 0 {
        assert(rd_id_items_prefix(v, 1) == rd_id(v[0]));
        assert(rd_id_items_prefix(v, 0) + rd_id(v[0]) =~= rd_id(v[0]));
    }
}

proof fn lemma_rd_id_items_prefix_all(v: Seq<u64>)
    ensures
        rd_id_items_prefix(v, v.len() as int) == rd_id_items(v),
    decreases v.len(),
{
    if v.len() == 0 {
    } else if v.len() == 1 {
    } else {
        let rest = v.drop_first();
        lemma_rd_id_items_prefix_all(rest);
        lemma_rd_id_items_prefix_shift(v, rest.len() as int);
        assert(rd_id_items(v) == rd_id(v[0]) + seq![','] + rd_id_items(rest));
    }
}

/// Prefixes of the tail relate to prefixes of the whole sequence.
proof fn lemma_rd_id_items_prefix_shift(v: Seq<u64>, k: int)
    requires
        v.len() >= 1,
        0 <= k <= v.len() - 1,
    ensures
        k == 0 ==> rd_id_items_prefix(v, k + 1) == rd_id(v[0]),
        k > 0 ==> rd_id_items_prefix(v, k + 1) == rd_id(v[0]) + seq![','] + rd_id_items_prefix(
            v.drop_first(),
            k,
        ),
    decreases k,
{
    let rest = v.drop_first();
    if k == 0 {
    } else if k == 1 {
        assert(rest[0] == v[1]);
        assert(rd_id_items_prefix(v, 2) == rd_id_items_prefix(v, 1) + seq![','] + rd_id(v[1]));
        assert(rd_id(v[0]) + seq![','] + rd_id_items_prefix(rest, 1) == rd_id(v[0]) + seq![',']
            + rd_id(rest[0]));
    } else {
        lemma_rd_id_items_prefix_shift(v, k - 1);
        assert(rest[k - 1] == v[k]);
        assert((rd_id(v[0]) + seq![','] + rd_id_items_prefix(rest, k - 1)) + seq![','] + rd_id(
            rest[k - 1],
        ) =~= rd_id(v[0]) + seq![','] + (rd_id_items_prefix(rest, k - 1) + seq![','] + rd_id(
            rest[k - 1],
        )));
    }
}

pub open spec fn rd_label(c: Seq<char>) -> Seq<char> {
    rd_quoted(c)
}

/// Reading a rendered quoted string yields its content back, provided
/// no further quote follows at once.
pub proof fn lemma_label_round_trip(s: Seq<char>, i: int, c: Seq<char>)
    requires
        0 <= i,
        i + rd_quoted(c).len() <= s.len(),
        s.subrange(i, i + rd_quoted(c).len()) == rd_quoted(c),
        i + rd_quoted(c).len() == s.len() || s[i + rd_quoted(c).len()] != '\'',
    ensures
        sp_quoted(s, i) == Some((c, i + rd_quoted(c).len())),
{
    let len = rd_quoted(c).len() as int;
    assert(s[i] == rd_quoted(c)[0]);
    assert(s[i] == '\'');
    lemma_sp_ws_noop(s, i);
    assert(s.subrange(i + 1, i + len) =~= esc(c) + seq!['\'']) by {
        assert(forall|t: int|
            0 <= t < len - 1 ==> #[trigger] s.subrange(i + 1, i + len)[t] == rd_quoted(c)[t + 1]);
    }
    lemma_str_body_round_trip(s, i + 1, c);
}

pub fn parse_label_at(s: &Vec<char>, pos: usize) -> (r: Result<(Label, usize), ParseError>)
    requires
        pos <= s@.len(),
    ensures
        match r {
            Ok((v, j)) => sp_quoted(s@, pos as int) == Some((v@, j as int)) && pos <= j <= s@.len(),
            Err(_) => sp_quoted(s@, pos as int) is None,
        },
{
    match parse_quoted_at(s, pos) {
        Ok((c, j)) => Ok((Label(c), j)),
        Err(e) => Err(e),
    }
}

pub fn render_label(l: &Label, out: &mut Vec<char>)
    ensures
        final(out)@ == old(out)@ + rd_label(l@),
{
    render_quoted(&l.0, out);
}

// ---------------------------------------------------------------------
// bare numbers (timestamps)
// ---------------------------------------------------------------------

/// A bare number attribute, as used for timestamps.
pub open spec fn sp_stamp(s: Seq<char>, i: int) -> Option<(u64, int)> {
    let j = sp_ws(s, i);
    sp_u64(s, j)
}

pub proof fn lemma_stamp_round_trip(s: Seq<char>, i: int, n: u64)
    requires
        0 <= i,
        i + rd_u64(n).len() <= s.len(),
        s.subrange(i, i + rd_u64(n).len()) == rd_u64(n),
        i + rd_u64(n).len() == s.len() || !is_digit_char(s[i + rd_u64(n).len()]),
    ensures
        sp_stamp(s, i) == Some((n, i + rd_u64(n).len())),
{
    lemma_rd_u64_digits(n);
    assert(s[i] == rd_u64(n)[0]);
    assert(is_digit_char(s[i]));
    lemma_sp_ws_noop(s, i);
    lemma_u64_round_trip(s, i, n);
}

pub fn parse_stamp_at(s: &Vec<char>, pos: usize) -> (r: Result<(u64, usize), ParseError>)
    requires
        pos <= s@.len(),
    ensures
        match r {
            Ok((n, j)) => sp_stamp(s@, pos as int) == Some((n, j as int)) && pos <= j <= s@.len(),
            Err(_) => sp_stamp(s@, pos as int) is None,
        },
{
    let start = skip_ws(s, pos);
    parse_u64_at(s, start)
}

// ---------------------------------------------------------------------
// real-number literals
// ---------------------------------------------------------------------

/// A real-number attribute, kept as its verbatim literal text so that
/// rendering reproduces the source byte for byte.
#[derive(Clone, PartialEq, Eq, Debug)]
pub struct RealLiteral(pub Vec<char>);

impl View for RealLiteral {
    type V = Seq<char>;

    open spec fn view(&self) -> Seq<char> {
        self.0@
    }
}

/// A real literal is a non-empty run of digits, signs, a decimal point
/// or an exponent mark.
pub open spec fn wf_real(v: Seq<char>) -> bool {
    v.len() >= 1 && forall|t: int| 0 <= t < v.len() ==> crate::codec::is_real_char(#[trigger] v[t])
}

pub open spec fn rd_real(v: Seq<char>) -> Seq<char> {
    v
}

pub proof fn lemma_real_round_trip(s: Seq<char>, i: int, v: Seq<char>)
    requires
        0 <= i,
        i + v.len() <= s.len(),
        s.subrange(i, i + v.len()) == v,
        i + v.len() == s.len() || !crate::codec::is_real_char(s[i + v.len()]),
        wf_real(v),
    ensures
        crate::codec::sp_real(s, i) == Some((v, i + v.len())),
{
    let len = v.len() as int;
    assert forall|t: int| i <= t < i + len implies crate::codec::is_real_char(#[trigger] s[t]) by {
        assert(s.subrange(i, i + len)[t - i] == v[t - i]);
        assert(s[t] == v[t - i]);
    }
    assert(s[i] == v[0]);
    lemma_sp_ws_noop(s, i);
    crate::codec::lemma_sp_real_end_run(s, i, i + len);
    assert(s.subrange(i, i + len) == v);
}

pub fn parse_real_lit_at(s: &Vec<char>, pos: usize) -> (r: Result<(RealLiteral, usize), ParseError>)
    requires
        pos <= s@.len(),
    ensures
        match r {
            Ok((v, j)) => crate::codec::sp_real(s@, pos as int) == Some((v@, j as int)) && pos <= j
                <= s@.len(),
            Err(_) => crate::codec::sp_real(s@, pos as int) is None,
        },
{
    match crate::codec::parse_real_at(s, pos) {
        Ok((v, j)) => Ok((RealLiteral(v), j)),
        Err(e) => Err(e),
    }
}

pub fn render_real(v: &RealLiteral, out: &mut Vec<char>)
    ensures
        final(out)@ == old(out)@ + rd_real(v@),
{
    let n = v.0.len();
    let mut k: usize = 0;
    while k < n
        invariant
            0 <= k <= n,
            n == v.0@.len(),
            out@ == old(out)@ + v.0@.take(k as int),
        decreases n - k,
    {
        out.push(v.0[k]);
        assert(out@ =~= old(out)@ + v.0@.take(k + 1));
        k = k + 1;
    }
    assert(out@ =~= old(out)@ + rd_real(v@));
}

// ---------------------------------------------------------------------
// placeholders
// ---------------------------------------------------------------------

/// The placeholder token for an attribute the reader does not model.
pub open spec fn sp_placeholder(s: Seq<char>, i: int) -> Option<int> {
    crate::codec::sp_char(s, i, '$')
}

pub open spec fn rd_placeholder() -> Seq<char> {
    seq!['$']
}

pub proof fn lemma_placeholder_round_trip(s: Seq<char>, i: int)
    requires
        0 <= i,
        i + 1 <= s.len(),
        s.subrange(i, i + 1) == rd_placeholder(),
    ensures
        sp_placeholder(s, i) == Some(i + 1),
{
    assert(s[i] == rd_placeholder()[0]);
    lemma_sp_ws_noop(s, i);
}

pub fn parse_placeholder_at(s: &Vec<char>, pos: usize) -> (r: Result<
    (PlaceHolder, usize),
    ParseError,
>)
    requires
        pos <= s@.len(),
    ensures
        match r {
            Ok((_, j)) => sp_placeholder(s@, pos as int) == Some(j as int) && pos <= j <= s@.len(),
            Err(_) => sp_placeholder(s@, pos as int) is None,
        },
{
    match crate::codec::expect_char(s, pos, '$') {
        Ok(j) => Ok((PlaceHolder, j)),
        Err(e) => Err(e),
    }
}

pub fn render_placeholder(out: &mut Vec<char>)
    ensures
        final(out)@ == old(out)@ + rd_placeholder(),
{
    out.push('$');
    assert(final(out)@ =~= old(out)@ + rd_placeholder());
}

// ---------------------------------------------------------------------
// optional lists of references
// ---------------------------------------------------------------------

/// An optional list attribute: `$`, or a parenthesized list of
/// references.
pub open spec fn sp_opt_id_list(s: Seq<char>, i: int) -> Option<(Option<Seq<u64>>, int)> {
    let j = sp_ws(s, i);
    if j < s.len() && s[j] == '$' {
        Some((None, j + 1))
    } else {
        match sp_id_list(s, i) {
            Some((v, e)) => Some((Some(v), e)),
            None => None,
        }
    }
}

pub open spec fn rd_opt_id_list(v: Option<Seq<u64>>) -> Seq<char> {
    match v {
        None => seq!['$'],
        Some(items) => rd_id_list(items),
    }
}

pub open spec fn wf_opt_id_list(v: Option<Seq<u64>>) -> bool {
    v matches Some(items) ==> wf_id_seq(items)
}

pub proof fn lemma_opt_id_list_round_trip(s: Seq<char>, i: int, v: Option<Seq<u64>>)
    requires
        0 <= i,
        i + rd_opt_id_list(v).len() <= s.len(),
        s.subrange(i, i + rd_opt_id_list(v).len()) == rd_opt_id_list(v),
        wf_opt_id_list(v),
    ensures
        sp_opt_id_list(s, i) == Some((v, i + rd_opt_id_list(v).len())),
{
    assert(s[i] == rd_opt_id_list(v)[0]);
    match v {
        None => {
            assert(s[i] == '$');
            lemma_sp_ws_noop(s, i);
        },
        Some(items) => {
            assert(s[i] == '(');
            lemma_sp_ws_noop(s, i);
            lemma_id_list_round_trip(s, i, items);
        },
    }
}

pub fn parse_opt_id_list_at(s: &Vec<char>, pos: usize) -> (r: Result<
    (OptionalParameter<IfcList<crate::id::Id>>, usize),
    ParseError,
>)
    requires
        pos <= s@.len(),
    ensures
        match r {
            Ok((v, j)) => sp_opt_id_list(s@, pos as int) == Some((v@, j as int)) && pos <= j
                <= s@.len(),
            Err(_) => sp_opt_id_list(s@, pos as int) is None,
        },
{
    let start = skip_ws(s, pos);
    if start < s.len() && s[start] == '$' {
        Ok((OptionalParameter::Omitted, start + 1))
    } else {
        match parse_id_list_at(s, pos) {
            Ok((v, j)) => Ok((OptionalParameter::Custom(v), j)),
            Err(e) => Err(e),
        }
    }
}

pub fn render_opt_id_list(v: &OptionalParameter<IfcList<crate::id::Id>>, out: &mut Vec<char>)
    ensures
        final(out)@ == old(out)@ + rd_opt_id_list(v@),
{
    match v {
        OptionalParameter::Omitted => {
            out.push('$');
            assert(final(out)@ =~= old(out)@ + rd_opt_id_list(v@));
        },
        OptionalParameter::Custom(items) => {
            render_id_list(items, out);
        },
    }
}

/// Every identifier a successfully parsed list holds is well formed.
pub proof fn lemma_sp_id_list_rest_wf(s: Seq<char>, i: int)
    ensures
        sp_id_list_rest(s, i) matches Some(r) ==> wf_id_seq(r.0),
    decreases s.len() - i,
{
    if 0 <= i <= s.len() {
        match sp_id(s, i) {
            None => {},
            Some((n, e)) => {
                if i < e <= s.len() {
                    let k = sp_ws(s, e);
                    if e <= k && k < s.len() {
                        if s[k] == ',' {
                            lemma_sp_id_list_rest_wf(s, k + 1);
                        }
                    }
                }
            },
        }
    }
}

pub proof fn lemma_sp_id_list_wf(s: Seq<char>, i: int)
    ensures
        sp_id_list(s, i) matches Some(r) ==> wf_id_seq(r.0),
{
    let j = sp_ws(s, i);
    lemma_sp_id_list_rest_wf(s, j + 1);
}

/// Whatever the real-literal parser accepts is well formed.
pub proof fn lemma_sp_real_wf(s: Seq<char>, i: int)
    ensures
        crate::codec::sp_real(s, i) matches Some(r) ==> wf_real(r.0),
{
    if 0 <= i <= s.len() {
        let j = sp_ws(s, i);
        crate::codec::lemma_sp_ws_bounds(s, i);
        crate::codec::lemma_sp_real_end_chars(s, j);
        let e = crate::codec::sp_real_end(s, j);
        if e > j {
            assert forall|t: int| 0 <= t < e - j implies crate::codec::is_real_char(
                #[trigger] s.subrange(j, e)[t],
            ) by {
                assert(s.subrange(j, e)[t] == s[j + t]);
            }
        }
    }
}

/// Whatever the optional-list parser accepts is well formed.
pub proof fn lemma_sp_opt_id_list_wf(s: Seq<char>, i: int)
    ensures
        sp_opt_id_list(s, i) matches Some(r) ==> wf_opt_id_list(r.0),
{
    lemma_sp_id_list_wf(s, i);
}

// ---------------------------------------------------------------------
// enumerated constants
// ---------------------------------------------------------------------

/// A dot-delimited enumeration token `.TOKEN.`: the token between the
/// dots is a run of keyword characters.
pub open spec fn sp_enum_token(s: Seq<char>, i: int) -> Option<(Seq<char>, int)> {
    let j = sp_ws(s, i);
    if j < s.len() && s[j] == '.' {
        let e = crate::codec::sp_kw_end(s, j + 1);
        if e < s.len() && s[e] == '.' {
            Some((s.subrange(j + 1, e), e + 1))
        } else {
            None
        }
    } else {
        None
    }
}

pub open spec fn rd_enum_token(tok: Seq<char>) -> Seq<char> {
    seq!['.'] + tok + seq!['.']
}

pub proof fn lemma_enum_token_round_trip(s: Seq<char>, i: int, tok: Seq<char>)
    requires
        0 <= i,
        i + tok.len() + 2 <= s.len(),
        s.subrange(i, i + tok.len() + 2) == rd_enum_token(tok),
        forall|t: int| 0 <= t < tok.len() ==> crate::codec::is_keyword_char(#[trigger] tok[t]),
    ensures
        sp_enum_token(s, i) == Some((tok, i + tok.len() + 2)),
{
    let len = tok.len() as int;
    let x = rd_enum_token(tok);
    assert forall|t: int| 0 <= t < x.len() implies s[i + t] == x[t] by {
        assert(s.subrange(i, i + x.len())[t] == x[t]);
    }
    assert(s[i] == x[0]);
    assert(s[i] == '.');
    lemma_sp_ws_noop(s, i);
    assert forall|t: int| i + 1 <= t < i + 1 + len implies crate::codec::is_keyword_char(
        #[trigger] s[t],
    ) by {
        assert(s[t] == x[t - i]);
        assert(x[t - i] == tok[t - i - 1]);
    }
    assert(s[i + 1 + len] == x[1 + len]);
    assert(s[i + 1 + len] == '.');
    crate::codec::lemma_sp_kw_end_run(s, i + 1, i + 1 + len);
    assert(s.subrange(i + 1, i + 1 + len) =~= tok) by {
        assert(forall|t: int|
            0 <= t < len ==> #[trigger] s.subrange(i + 1, i + 1 + len)[t] == x[t + 1]);
    }
}

pub fn parse_enum_token_at(s: &Vec<char>, pos: usize) -> (r: Result<(Vec<char>, usize), ParseError>)
    requires
        pos <= s@.len(),
    ensures
        match r {
            Ok((v, j)) => sp_enum_token(s@, pos as int) == Some((v@, j as int)) && pos <= j
                <= s@.len(),
            Err(_) => sp_enum_token(s@, pos as int) is None,
        },
{
    let start = skip_ws(s, pos);
    if !(start < s.len() && s[start] == '.') {
        return Err(ParseError { pos: start, kind: ErrorKind::UnexpectedToken });
    }
    let mut tok: Vec<char> = Vec::new();
    let mut cur = start + 1;
    while cur < s.len() && crate::codec::keyword_char_test(s[cur])
        invariant
            start + 1 <= cur <= s@.len(),
            tok@ == s@.subrange(start + 1, cur as int),
            crate::codec::sp_kw_end(s@, start + 1) == crate::codec::sp_kw_end(s@, cur as int),
        decreases s@.len() - cur,
    {
        tok.push(s[cur]);
        assert(tok@ =~= s@.subrange(start + 1, cur + 1));
        cur = cur + 1;
    }
    if cur < s.len() && s[cur] == '.' {
        Ok((tok, cur + 1))
    } else {
        Err(ParseError { pos: cur, kind: ErrorKind::UnexpectedToken })
    }
}

/// The omitted-attribute distinction: an omitted attribute renders to
/// the sentinel token, never to a present value's text, and stays
/// distinguishable from a present but empty string.
pub proof fn lemma_omitted_distinct(c: Seq<char>)
    ensures
        rd_opt_label(None) == seq!['$'],
        rd_opt_label(Some(c)) != rd_opt_label(None),
        rd_opt_label(Some(Seq::empty())) != rd_opt_label(None),
{
    assert(rd_opt_label(Some(c))[0] == '\'');
    assert(rd_opt_label(None)[0] == '$');
    assert(rd_opt_label(Some(Seq::empty()))[0] == '\'');
}

} // verus!
