//! Units expressed by conversion: the closed set of named measures a
//! conversion-based unit can refer to. Their text form is a quoted
//! name, for example `'DEGREE'`.

use crate::codec::{
    chars_eq_str, lemma_esc_no_quote, ParseError,
};
use crate::grammar::{
    lemma_label_round_trip, parse_label_at, rd_label, Label,
};
use vstd::prelude::*;

verus! {

/// The closed set of named measures a conversion-based unit refers to.
#[derive(Clone, Copy, PartialEq, Eq, Structural, Debug)]
pub enum ConversionUnit {
    Degree,
    Litre,
    Minute,
    Hour,
    Day,
}

impl View for ConversionUnit {
    type V = ConversionUnit;

    open spec fn view(&self) -> ConversionUnit {
        *self
    }
}

pub open spec fn rd_conversion_unit(v: ConversionUnit) -> Seq<char> {
    match v {
        ConversionUnit::Degree => rd_label("DEGREE"@),
        ConversionUnit::Litre => rd_label("LITRE"@),
        ConversionUnit::Minute => rd_label("MINUTE"@),
        ConversionUnit::Hour => rd_label("HOUR"@),
        ConversionUnit::Day => rd_label("DAY"@),
    }
}

pub open spec fn sp_conversion_unit(s: Seq<char>, i: int) -> Option<(ConversionUnit, int)> {
    match crate::codec::sp_quoted(s, i) {
        None => None,
        Some((c, e)) => {
            if c == "DEGREE"@ {
                Some((ConversionUnit::Degree, e))
            } else if c == "LITRE"@ {
                Some((ConversionUnit::Litre, e))
            } else if c == "MINUTE"@ {
                Some((ConversionUnit::Minute, e))
            } else if c == "HOUR"@ {
                Some((ConversionUnit::Hour, e))
            } else if c == "DAY"@ {
                Some((ConversionUnit::Day, e))
            } else {
                None
            }
        },
    }
}

/// Parsing the rendered name of a measure yields the measure back.
pub proof fn lemma_conversion_unit_round_trip(s: Seq<char>, i: int, v: ConversionUnit)
    requires
        0 <= i,
        i + rd_conversion_unit(v).len() <= s.len(),
        s.subrange(i, i + rd_conversion_unit(v).len()) == rd_conversion_unit(v),
        i + rd_conversion_unit(v).len() == s.len() || s[i + rd_conversion_unit(v).len()] != '\'',
    ensures
        sp_conversion_unit(s, i) == Some((v, i + rd_conversion_unit(v).len())),
{
    reveal_strlit("DEGREE");
    reveal_strlit("LITRE");
    reveal_strlit("MINUTE");
    reveal_strlit("HOUR");
    reveal_strlit("DAY");
    match v {
        ConversionUnit::Degree => {
            lemma_label_round_trip(s, i, "DEGREE"@);
        },
        ConversionUnit::Litre => {
            lemma_label_round_trip(s, i, "LITRE"@);
        },
        ConversionUnit::Minute => {
            lemma_label_round_trip(s, i, "MINUTE"@);
            assert("MINUTE"@[0] != "DEGREE"@[0]);
        },
        ConversionUnit::Hour => {
            lemma_label_round_trip(s, i, "HOUR"@);
        },
        ConversionUnit::Day => {
            lemma_label_round_trip(s, i, "DAY"@);
        },
    }
}

impl ConversionUnit {
    /// Parses one quoted measure name starting at `pos`.
    pub fn parse_at(s: &Vec<char>, pos: usize) -> (r: Result<(Self, usize), ParseError>)
        requires
            pos <= s@.len(),
        ensures
            match r {
                Ok((v, j)) => sp_conversion_unit(s@, pos as int) == Some((v, j as int)) && pos <= j
                    <= s@.len(),
                Err(_) => sp_conversion_unit(s@, pos as int) is None,
            },
    {
        let (tok, e) = parse_label_at(s, pos)?;
        if chars_eq_str(&tok.0, "DEGREE") {
            Ok((ConversionUnit::Degree, e))
        } else if chars_eq_str(&tok.0, "LITRE") {
            Ok((ConversionUnit::Litre, e))
        } else if chars_eq_str(&tok.0, "MINUTE") {
            Ok((ConversionUnit::Minute, e))
        } else if chars_eq_str(&tok.0, "HOUR") {
            Ok((ConversionUnit::Hour, e))
        } else if chars_eq_str(&tok.0, "DAY") {
            Ok((ConversionUnit::Day, e))
        } else {
            Err(ParseError { pos: e, kind: crate::codec::ErrorKind::UnexpectedToken })
        }
    }

    /// Appends the canonical text of this measure.
    pub fn render_into(&self, out: &mut Vec<char>)
        ensures
            final(out)@ == old(out)@ + rd_conversion_unit(*self),
    {
        let ghost o0 = out@;
        out.push('\'');
        match self {
            ConversionUnit::Degree => {
                out.push('D');
                out.push('E');
                out.push('G');
                out.push('R');
                out.push('E');
                out.push('E');
                out.push('\'');
                proof {
                    reveal_strlit("DEGREE");
                    lemma_esc_no_quote("DEGREE"@);
                    assert(out@ =~= o0 + rd_conversion_unit(*self));
                }
            },
            ConversionUnit::Litre => {
                out.push('L');
                out.push('I');
                out.push('T');
                out.push('R');
                out.push('E');
                out.push('\'');
                proof {
                    reveal_strlit("LITRE");
                    lemma_esc_no_quote("LITRE"@);
                    assert(out@ =~= o0 + rd_conversion_unit(*self));
                }
            },
            ConversionUnit::Minute => {
                out.push('M');
                out.push('I');
                out.push('N');
                out.push('U');
                out.push('T');
                out.push('E');
                out.push('\'');
                proof {
                    reveal_strlit("MINUTE");
                    lemma_esc_no_quote("MINUTE"@);
                    assert(out@ =~= o0 + rd_conversion_unit(*self));
                }
            },
            ConversionUnit::Hour => {
                out.push('H');
                out.push('O');
                out.push('U');
                out.push('R');
                out.push('\'');
                proof {
                    reveal_strlit("HOUR");
                    lemma_esc_no_quote("HOUR"@);
                    assert(out@ =~= o0 + rd_conversion_unit(*self));
                }
            },
            ConversionUnit::Day => {
                out.push('D');
                out.push('A');
                out.push('Y');
                out.push('\'');
                proof {
                    reveal_strlit("DAY");
                    lemma_esc_no_quote("DAY"@);
                    assert(out@ =~= o0 + rd_conversion_unit(*self));
                }
            },
        }
    }

    /// The canonical text of this measure.
    pub fn render(&self) -> (out: Vec<char>)
        ensures
            out@ == rd_conversion_unit(*self),
    {
        let mut out: Vec<char> = Vec::new();
        self.render_into(&mut out);
        proof {
            assert(out@ =~= rd_conversion_unit(*self));
        }
        out
    }
}

} // verus!
