//! The material record: a homogeneous or inhomogeneous substance that
//! can be used to form elements. Its text form is
//! `IFCMATERIAL(<name>,<description>,<category>);` with each attribute
//! optional.

use crate::codec::{
    chars_eq_str, expect_char, lemma_sp_kw_end_run, lemma_sp_ws_noop, lemma_subrange_slice,
    parse_keyword_at, sp_char, sp_keyword, sp_ws, ErrorKind, ParseError,
};
use crate::grammar::{
    lemma_opt_label_round_trip, parse_opt_label_at, rd_opt_label, render_opt_label, sp_opt_label,
    Label, OptionalParameter,
};
use vstd::prelude::*;

verus! {

/// A substance records can refer to, with an optional name, an optional
/// longer description and an optional category.
#[derive(Clone, PartialEq, Eq, Debug)]
pub struct Material {
    /// Name of the material.
    pub material: OptionalParameter<Label>,
    /// Definition of the material in more descriptive terms than given
    /// by its name or category.
    pub description: OptionalParameter<Label>,
    /// Definition of the category of material, in more general terms
    /// than given by its name.
    pub category: OptionalParameter<Label>,
}

/// The mathematical content of a [`Material`].
pub struct MaterialV {
    pub material: Option<Seq<char>>,
    pub description: Option<Seq<char>>,
    pub category: Option<Seq<char>>,
}

impl View for Material {
    type V = MaterialV;

    open spec fn view(&self) -> MaterialV {
        MaterialV {
            material: self.material@,
            description: self.description@,
            category: self.category@,
        }
    }
}

pub open spec fn kw_material() -> Seq<char> {
    "IFCMATERIAL"@
}

/// A material holds no references or numeric literals, so any value of
/// it is valid.
pub open spec fn wf_material(v: MaterialV) -> bool {
    true
}

/// The canonical text of a material record.
pub open spec fn rd_material(v: MaterialV) -> Seq<char> {
    kw_material() + seq!['('] + rd_opt_label(v.material) + seq![','] + rd_opt_label(v.description)
        + seq![','] + rd_opt_label(v.category) + seq![')', ';']
}

/// The attributes after the keyword: `(a,b,c);`.
pub open spec fn sp_material_body(s: Seq<char>, i: int) -> Option<(MaterialV, int)> {
    match sp_char(s, i, '(') {
        None => None,
        Some(i1) => match sp_opt_label(s, i1) {
            None => None,
            Some((a, i2)) => match sp_char(s, i2, ',') {
                None => None,
                Some(i3) => match sp_opt_label(s, i3) {
                    None => None,
                    Some((b, i4)) => match sp_char(s, i4, ',') {
                        None => None,
                        Some(i5) => match sp_opt_label(s, i5) {
                            None => None,
                            Some((c, i6)) => match sp_char(s, i6, ')') {
                                None => None,
                                Some(i7) => match sp_char(s, i7, ';') {
                                    None => None,
                                    Some(i8) => Some(
                                        (MaterialV { material: a, description: b, category: c }, i8),
                                    ),
                                },
                            },
                        },
                    },
                },
            },
        },
    }
}

/// A whole material record: the keyword, then the attributes.
pub open spec fn sp_material(s: Seq<char>, i: int) -> Option<(MaterialV, int)> {
    let (kw, e) = sp_keyword(s, i);
    if kw == kw_material() {
        sp_material_body(s, e)
    } else {
        None
    }
}

/// A complete text holding exactly one material record, with nothing
/// but whitespace after it.
pub open spec fn sp_material_full(s: Seq<char>) -> Option<MaterialV> {
    match sp_material(s, 0) {
        Some((v, e)) => if sp_ws(s, e) == s.len() {
            Some(v)
        } else {
            None
        },
        None => None,
    }
}

/// Parsing the canonical text of a material record yields the record
/// back and consumes exactly its text.
pub proof fn lemma_material_round_trip(s: Seq<char>, i: int, v: MaterialV)
    requires
        0 <= i,
        i + rd_material(v).len() <= s.len(),
        s.subrange(i, i + rd_material(v).len()) == rd_material(v),
    ensures
        sp_material(s, i) == Some((v, i + rd_material(v).len())),
{
    reveal_strlit("IFCMATERIAL");
    let x = rd_material(v);
    let la = rd_opt_label(v.material).len() as int;
    let lb = rd_opt_label(v.description).len() as int;
    let lc = rd_opt_label(v.category).len() as int;
    assert(x.len() == 11 + 1 + la + 1 + lb + 1 + lc + 2);
    assert forall|t: int| 0 <= t < x.len() implies s[i + t] == x[t] by {
        assert(s.subrange(i, i + x.len())[t] == x[t]);
    }
    assert forall|t: int| 0 <= t < 11 implies is_keyword_char(#[trigger] x[t]) by {
        assert(x[t] == kw_material()[t]);
    }
    // the keyword
    assert(s[i] == x[0]);
    lemma_sp_ws_noop(s, i);
    assert(x[11] == '(');
    assert forall|t: int| i <= t < i + 11 implies is_keyword_char(#[trigger] s[t]) by {
        assert(s.subrange(i, i + x.len())[t - i] == x[t - i]);
        assert(s[t] == x[t - i]);
        assert(is_keyword_char(x[t - i]));
    }
    assert(s[i + 11] == x[11]);
    lemma_sp_kw_end_run(s, i, i + 11);
    lemma_subrange_slice(s, i, x, 0, 11);
    assert(x.subrange(0, 11) =~= kw_material());
    assert(sp_keyword(s, i) == (kw_material(), i + 11));
    // the opening parenthesis
    lemma_sp_ws_noop(s, i + 11);
    assert(sp_char(s, i + 11, '(') == Some(i + 12));
    // first attribute
    lemma_subrange_slice(s, i, x, 12, 12 + la);
    assert(x.subrange(12, 12 + la) =~= rd_opt_label(v.material));
    assert(x[12 + la] == ',');
    lemma_opt_label_round_trip(s, i + 12, v.material);
    lemma_sp_ws_noop(s, i + 12 + la);
    assert(sp_char(s, i + 12 + la, ',') == Some(i + 13 + la));
    // second attribute
    let ob = 13 + la;
    lemma_subrange_slice(s, i, x, ob, ob + lb);
    assert(x.subrange(ob, ob + lb) =~= rd_opt_label(v.description));
    assert(x[ob + lb] == ',');
    lemma_opt_label_round_trip(s, i + ob, v.description);
    lemma_sp_ws_noop(s, i + ob + lb);
    assert(sp_char(s, i + ob + lb, ',') == Some(i + ob + lb + 1));
    // third attribute
    let oc = ob + lb + 1;
    lemma_subrange_slice(s, i, x, oc, oc + lc);
    assert(x.subrange(oc, oc + lc) =~= rd_opt_label(v.category));
    assert(x[oc + lc] == ')');
    lemma_opt_label_round_trip(s, i + oc, v.category);
    lemma_sp_ws_noop(s, i + oc + lc);
    assert(sp_char(s, i + oc + lc, ')') == Some(i + oc + lc + 1));
    // the closing `;`
    assert(x[oc + lc + 1] == ';');
    lemma_sp_ws_noop(s, i + oc + lc + 1);
    assert(sp_char(s, i + oc + lc + 1, ';') == Some(i + oc + lc + 2));
}

use crate::codec::is_keyword_char;

impl Default for Material {
    /// The record with every attribute omitted, used to pre-seed
    /// optional backing records.
    fn default() -> (r: Self)
        ensures
            r@.material is None,
            r@.description is None,
            r@.category is None,
    {
        Material {
            material: OptionalParameter::Omitted,
            description: OptionalParameter::Omitted,
            category: OptionalParameter::Omitted,
        }
    }
}

impl Material {
    /// Parses one material record starting at `pos`.
    pub fn parse_at(s: &Vec<char>, pos: usize) -> (r: Result<(Material, usize), ParseError>)
        requires
            pos <= s@.len(),
        ensures
            match r {
                Ok((m, j)) => sp_material(s@, pos as int) == Some((m@, j as int)) && pos <= j
                    <= s@.len(),
                Err(_) => sp_material(s@, pos as int) is None,
            },
    {
        let (kw, e) = parse_keyword_at(s, pos);
        if !chars_eq_str(&kw, "IFCMATERIAL") {
            return Err(ParseError { pos: e, kind: ErrorKind::UnknownKeyword });
        }
        Self::parse_body_at(s, e)
    }

    /// Parses the attribute list `(a,b,c);` starting at `pos`.
    pub fn parse_body_at(s: &Vec<char>, pos: usize) -> (r: Result<(Material, usize), ParseError>)
        requires
            pos <= s@.len(),
        ensures
            match r {
                Ok((m, j)) => sp_material_body(s@, pos as int) == Some((m@, j as int)) && pos <= j
                    <= s@.len(),
                Err(_) => sp_material_body(s@, pos as int) is None,
            },
    {
        let i1 = expect_char(s, pos, '(')?;
        let (a, i2) = parse_opt_label_at(s, i1)?;
        let i3 = expect_char(s, i2, ',')?;
        let (b, i4) = parse_opt_label_at(s, i3)?;
        let i5 = expect_char(s, i4, ',')?;
        let (c, i6) = parse_opt_label_at(s, i5)?;
        let i7 = expect_char(s, i6, ')')?;
        let i8 = expect_char(s, i7, ';')?;
        Ok((Material { material: a, description: b, category: c }, i8))
    }

    /// Parses a complete text that holds exactly one material record.
    pub fn parse(s: &Vec<char>) -> (r: Result<Material, ParseError>)
        ensures
            match r {
                Ok(m) => sp_material_full(s@) == Some(m@),
                Err(_) => sp_material_full(s@) is None,
            },
    {
        match Self::parse_at(s, 0) {
            Ok((m, j)) => {
                let k = crate::codec::skip_ws(s, j);
                if k == s.len() {
                    Ok(m)
                } else {
                    Err(ParseError { pos: k, kind: ErrorKind::TrailingText })
                }
            },
            Err(e) => Err(e),
        }
    }

    /// Appends the canonical text of this record.
    pub fn render_into(&self, out: &mut Vec<char>)
        ensures
            final(out)@ == old(out)@ + rd_material(self@),
    {
        let ghost o0 = out@;
        out.push('I');
        out.push('F');
        out.push('C');
        out.push('M');
        out.push('A');
        out.push('T');
        out.push('E');
        out.push('R');
        out.push('I');
        out.push('A');
        out.push('L');
        proof {
            reveal_strlit("IFCMATERIAL");
            assert(out@ =~= o0 + kw_material());
        }
        out.push('(');
        render_opt_label(&self.material, out);
        out.push(',');
        render_opt_label(&self.description, out);
        out.push(',');
        render_opt_label(&self.category, out);
        out.push(')');
        out.push(';');
        proof {
            assert(out@ =~= o0 + rd_material(self@));
        }
    }

    /// The canonical text of this record.
    pub fn render(&self) -> (out: Vec<char>)
        ensures
            out@ == rd_material(self@),
    {
        let mut out: Vec<char> = Vec::new();
        self.render_into(&mut out);
        proof {
            assert(out@ =~= rd_material(self@));
        }
        out
    }
}

} // verus!
