//! Geometry-side records: profile definitions, the shape
//! representation, and the product definition shape that groups
//! representations.

use crate::codec::{
    chars_eq_str, expect_char, is_keyword_char, lemma_sp_kw_end_run, lemma_sp_ws_noop,
    lemma_subrange_slice, parse_keyword_at, skip_ws, sp_char, sp_keyword, sp_ws, ErrorKind,
    ParseError,
};
use crate::grammar::{
    lemma_enum_token_round_trip, lemma_id_list_round_trip, lemma_id_round_trip,
    lemma_idor_label_round_trip, lemma_opt_id_round_trip, lemma_opt_label_round_trip,
    lemma_placeholder_round_trip, lemma_real_round_trip, lemma_sp_id_list_wf, lemma_sp_real_wf,
    parse_enum_token_at, parse_id_at, parse_id_list_at, parse_idor_label_at, parse_opt_id_at,
    parse_opt_label_at, parse_placeholder_at, parse_real_lit_at, rd_enum_token, rd_id, rd_id_list,
    rd_idor_label, rd_opt_id, rd_opt_label, rd_placeholder, rd_real, render_id, render_id_list,
    render_idor_label, render_opt_id, render_opt_label, render_placeholder, render_real,
    sp_enum_token, sp_id, sp_id_list, sp_idor_label, sp_opt_id, sp_opt_label, sp_placeholder,
    wf_id, wf_id_seq, wf_idor_label, wf_opt_id, wf_real, IfcList, Label, OptionalParameter,
    PlaceHolder, RealLiteral,
};
use crate::id::{Id, IdOr, IdOrV, TypedId};
use vstd::prelude::*;

verus! {

/// The marker of record kinds that can close an arbitrary profile:
/// bounded curves the profile's outer boundary may reference.
pub trait Curve {

}

/// A bounded curve given by a list of points, referenced by profile
/// definitions; here a marker kind for typed references.
#[derive(Clone, Copy, PartialEq, Eq, Structural, Debug)]
pub struct IndexedPolyCurve;

impl Curve for IndexedPolyCurve {

}


/// Whether a profile resolves to an area or to a curve.
#[derive(Clone, Copy, PartialEq, Eq, Structural, Debug)]
pub enum ProfileType {
    Area,
    CurveType,
}

impl View for ProfileType {
    type V = ProfileType;

    open spec fn view(&self) -> ProfileType {
        *self
    }
}

pub open spec fn rd_profile_type(v: ProfileType) -> Seq<char> {
    match v {
        ProfileType::Area => rd_enum_token("AREA"@),
        ProfileType::CurveType => rd_enum_token("CURVE"@),
    }
}

pub open spec fn sp_profile_type(s: Seq<char>, i: int) -> Option<(ProfileType, int)> {
    match sp_enum_token(s, i) {
        None => None,
        Some((tok, e)) => {
            if tok == "AREA"@ {
                Some((ProfileType::Area, e))
            } else if tok == "CURVE"@ {
                Some((ProfileType::CurveType, e))
            } else {
                None
            }
        },
    }
}

pub proof fn lemma_profile_type_round_trip(s: Seq<char>, i: int, v: ProfileType)
    requires
        0 <= i,
        i + rd_profile_type(v).len() <= s.len(),
        s.subrange(i, i + rd_profile_type(v).len()) == rd_profile_type(v),
    ensures
        sp_profile_type(s, i) == Some((v, i + rd_profile_type(v).len())),
{
    reveal_strlit("AREA");
    reveal_strlit("CURVE");
    match v {
        ProfileType::Area => {
            lemma_enum_token_round_trip(s, i, "AREA"@);
        },
        ProfileType::CurveType => {
            lemma_enum_token_round_trip(s, i, "CURVE"@);
        },
    }
}

pub fn parse_profile_type_at(s: &Vec<char>, pos: usize) -> (r: Result<(ProfileType, usize), ParseError>)
    requires
        pos <= s@.len(),
    ensures
        match r {
            Ok((v, j)) => sp_profile_type(s@, pos as int) == Some((v, j as int)) && pos <= j
                <= s@.len(),
            Err(_) => sp_profile_type(s@, pos as int) is None,
        },
{
    let (tok, e) = parse_enum_token_at(s, pos)?;
    if chars_eq_str(&tok, "AREA") {
        Ok((ProfileType::Area, e))
    } else if chars_eq_str(&tok, "CURVE") {
        Ok((ProfileType::CurveType, e))
    } else {
        Err(ParseError { pos: e, kind: ErrorKind::UnexpectedToken })
    }
}

pub fn render_profile_type(v: ProfileType, out: &mut Vec<char>)
    ensures
        final(out)@ == old(out)@ + rd_profile_type(v),
{
    let ghost o0 = out@;
    match v {
        ProfileType::Area => {
            out.push('.');
            out.push('A');
            out.push('R');
            out.push('E');
            out.push('A');
            out.push('.');
            proof {
                reveal_strlit("AREA");
                assert(out@ =~= o0 + rd_profile_type(v));
            }
        },
        ProfileType::CurveType => {
            out.push('.');
            out.push('C');
            out.push('U');
            out.push('R');
            out.push('V');
            out.push('E');
            out.push('.');
            proof {
                reveal_strlit("CURVE");
                assert(out@ =~= o0 + rd_profile_type(v));
            }
        },
    }
}

/// A rectangular profile given by its two extents.
#[derive(Clone, PartialEq, Eq, Debug)]
pub struct RectangleProfileDef {
    /// Whether the profile is an area or a curve.
    pub profile_type: ProfileType,
    /// Reference to the local placement of the profile.
    pub position: OptionalParameter<Id>,
    /// The extent of the rectangle along its x axis.
    pub x_dim: RealLiteral,
    /// The extent of the rectangle along its y axis.
    pub y_dim: RealLiteral,
}

/// The mathematical content of a [`RectangleProfileDef`].
pub struct RectangleProfileDefV {
    pub profile_type: ProfileType,
    pub position: Option<u64>,
    pub x_dim: Seq<char>,
    pub y_dim: Seq<char>,
}

impl View for RectangleProfileDef {
    type V = RectangleProfileDefV;

    open spec fn view(&self) -> RectangleProfileDefV {
        RectangleProfileDefV {
            profile_type: self.profile_type@,
            position: self.position@,
            x_dim: self.x_dim@,
            y_dim: self.y_dim@,
        }
    }
}

pub open spec fn kw_rectangle_profile_def() -> Seq<char> {
    "IFCRECTANGLEPROFILEDEF"@
}

/// Validity of the references and literals a record holds.
pub open spec fn wf_rectangle_profile_def(v: RectangleProfileDefV) -> bool {
    &&& wf_opt_id(v.position)
    &&& wf_real(v.x_dim)
    &&& wf_real(v.y_dim)
}

/// The canonical text of this record.
pub open spec fn rd_rectangle_profile_def(v: RectangleProfileDefV) -> Seq<char> {
    kw_rectangle_profile_def() + seq!['('] + rd_profile_type(v.profile_type) + seq![','] + rd_placeholder() + seq![','] + rd_opt_id(v.position) + seq![','] + rd_real(v.x_dim) + seq![','] + rd_real(v.y_dim) + seq![')', ';']
}

/// The attribute list after the keyword.
pub open spec fn sp_rectangle_profile_def_body(s: Seq<char>, i: int) -> Option<(RectangleProfileDefV, int)> {
    match sp_char(s, i, '(') {
        None => None,
        Some(p1) => {
            match sp_profile_type(s, p1) {
                None => None,
                Some((a_profile_type, p2)) => {
                    match sp_char(s, p2, ',') {
                        None => None,
                        Some(p3) => {
                            match sp_placeholder(s, p3) {
                                None => None,
                                Some(p4) => {
                                    match sp_char(s, p4, ',') {
                                        None => None,
                                        Some(p5) => {
                                            match sp_opt_id(s, p5) {
                                                None => None,
                                                Some((a_position, p6)) => {
                                                    match sp_char(s, p6, ',') {
                                                        None => None,
                                                        Some(p7) => {
                                                            match crate::codec::sp_real(s, p7) {
                                                                None => None,
                                                                Some((a_x_dim, p8)) => {
                                                                    match sp_char(s, p8, ',') {
                                                                        None => None,
                                                                        Some(p9) => {
                                                                            match crate::codec::sp_real(s, p9) {
                                                                                None => None,
                                                                                Some((a_y_dim, p10)) => {
                                                                                    match sp_char(s, p10, ')') {
                                                                                        None => None,
                                                                                        Some(p11) => {
                                                                                            match sp_char(s, p11, ';') {
                                                                                                None => None,
                                                                                                Some(p12) => {
                                                                                                    Some((RectangleProfileDefV { profile_type: a_profile_type, position: a_position, x_dim: a_x_dim, y_dim: a_y_dim }, p12))
                                                },
                                            }
                                        },
                                    }
                                },
                            }
                        },
                    }
                },
            }
        },
    }
},
}
},
}
},
}
},
}
},
}
},
}
}

/// A whole record: the keyword, then the attributes.
pub open spec fn sp_rectangle_profile_def(s: Seq<char>, i: int) -> Option<(RectangleProfileDefV, int)> {
    let (kwtok, e) = sp_keyword(s, i);
    if kwtok == kw_rectangle_profile_def() {
        sp_rectangle_profile_def_body(s, e)
    } else {
        None
    }
}

/// A complete text holding exactly one record of this kind,
/// with nothing but whitespace after it.
pub open spec fn sp_rectangle_profile_def_full(s: Seq<char>) -> Option<RectangleProfileDefV> {
    match sp_rectangle_profile_def(s, 0) {
        Some((v, e)) => if sp_ws(s, e) == s.len() {
            Some(v)
        } else {
            None
        },
        None => None,
    }
}

/// Parsing the canonical text of this record yields it back and
/// consumes exactly its text.
#[verifier::rlimit(80)]
pub proof fn lemma_rectangle_profile_def_round_trip(s: Seq<char>, i: int, v: RectangleProfileDefV)
    requires
        0 <= i,
        i + rd_rectangle_profile_def(v).len() <= s.len(),
        s.subrange(i, i + rd_rectangle_profile_def(v).len()) == rd_rectangle_profile_def(v),
        wf_rectangle_profile_def(v),
    ensures
        sp_rectangle_profile_def(s, i) == Some((v, i + rd_rectangle_profile_def(v).len())),
{
    reveal_strlit("IFCRECTANGLEPROFILEDEF");
    reveal_strlit("AREA");
    reveal_strlit("CURVE");
    let x = rd_rectangle_profile_def(v);
    let l0 = rd_profile_type(v.profile_type).len() as int;
    let l1 = rd_placeholder().len() as int;
    let l2 = rd_opt_id(v.position).len() as int;
    let l3 = rd_real(v.x_dim).len() as int;
    let l4 = rd_real(v.y_dim).len() as int;
    assert forall|t: int| 0 <= t < x.len() implies s[i + t] == x[t] by {
        assert(s.subrange(i, i + x.len())[t] == x[t]);
    }
    assert(s[i] == x[0]);
    lemma_sp_ws_noop(s, i);
    assert forall|t: int| i <= t < i + 22 implies is_keyword_char(#[trigger] s[t]) by {
        assert(s.subrange(i, i + x.len())[t - i] == x[t - i]);
        assert(s[t] == x[t - i]);
        assert(x[t - i] == kw_rectangle_profile_def()[t - i]);
    }
    assert(s[i + 22] == x[22]);
    assert(x[22] == '(');
    lemma_sp_kw_end_run(s, i, i + 22);
    lemma_subrange_slice(s, i, x, 0, 22);
    assert(x.subrange(0, 22) =~= kw_rectangle_profile_def());
    assert(sp_keyword(s, i) == (kw_rectangle_profile_def(), i + 22));
    lemma_sp_ws_noop(s, i + 22);
    assert(sp_char(s, i + 22, '(') == Some(i + 23));
    let o0 = 23;
    lemma_subrange_slice(s, i, x, o0, o0 + l0);
    assert(x.subrange(o0, o0 + l0) =~= rd_profile_type(v.profile_type));
    assert(x[o0 + l0] == ',');
    lemma_profile_type_round_trip(s, i + o0, v.profile_type);
    lemma_sp_ws_noop(s, i + o0 + l0);
    assert(sp_char(s, i + o0 + l0, ',') == Some(i + o0 + l0 + 1));
    let o1 = o0 + l0 + 1;
    lemma_subrange_slice(s, i, x, o1, o1 + l1);
    assert(x.subrange(o1, o1 + l1) =~= rd_placeholder());
    assert(x[o1 + l1] == ',');
    lemma_placeholder_round_trip(s, i + o1);
    lemma_sp_ws_noop(s, i + o1 + l1);
    assert(sp_char(s, i + o1 + l1, ',') == Some(i + o1 + l1 + 1));
    let o2 = o1 + l1 + 1;
    lemma_subrange_slice(s, i, x, o2, o2 + l2);
    assert(x.subrange(o2, o2 + l2) =~= rd_opt_id(v.position));
    assert(x[o2 + l2] == ',');
    lemma_opt_id_round_trip(s, i + o2, v.position);
    lemma_sp_ws_noop(s, i + o2 + l2);
    assert(sp_char(s, i + o2 + l2, ',') == Some(i + o2 + l2 + 1));
    let o3 = o2 + l2 + 1;
    lemma_subrange_slice(s, i, x, o3, o3 + l3);
    assert(x.subrange(o3, o3 + l3) =~= rd_real(v.x_dim));
    assert(x[o3 + l3] == ',');
    lemma_real_round_trip(s, i + o3, v.x_dim);
    lemma_sp_ws_noop(s, i + o3 + l3);
    assert(sp_char(s, i + o3 + l3, ',') == Some(i + o3 + l3 + 1));
    let o4 = o3 + l3 + 1;
    lemma_subrange_slice(s, i, x, o4, o4 + l4);
    assert(x.subrange(o4, o4 + l4) =~= rd_real(v.y_dim));
    assert(x[o4 + l4] == ')');
    lemma_real_round_trip(s, i + o4, v.y_dim);
    lemma_sp_ws_noop(s, i + o4 + l4);
    assert(sp_char(s, i + o4 + l4, ')') == Some(i + o4 + l4 + 1));
    assert(x[o4 + l4 + 1] == ';');
    lemma_sp_ws_noop(s, i + o4 + l4 + 1);
    assert(sp_char(s, i + o4 + l4 + 1, ';') == Some(i + o4 + l4 + 1 + 1));
}

impl RectangleProfileDef {
    /// Parses one record of this kind starting at `pos`.
    pub fn parse_at(s: &Vec<char>, pos: usize) -> (r: Result<(Self, usize), ParseError>)
        requires
            pos <= s@.len(),
        ensures
            match r {
                Ok((m, j)) => sp_rectangle_profile_def(s@, pos as int) == Some((m@, j as int)) && pos <= j
                    <= s@.len(),
                Err(_) => sp_rectangle_profile_def(s@, pos as int) is None,
            },
    {
        let (kwtok, e) = parse_keyword_at(s, pos);
        if !chars_eq_str(&kwtok, "IFCRECTANGLEPROFILEDEF") {
            return Err(ParseError { pos: e, kind: ErrorKind::UnknownKeyword });
        }
        Self::parse_body_at(s, e)
    }

    /// Parses the attribute list after the keyword starting at `pos`.
    #[verifier::rlimit(80)]
    pub fn parse_body_at(s: &Vec<char>, pos: usize) -> (r: Result<(Self, usize), ParseError>)
        requires
            pos <= s@.len(),
        ensures
            match r {
                Ok((m, j)) => sp_rectangle_profile_def_body(s@, pos as int) == Some((m@, j as int)) && pos <= j
                    <= s@.len(),
                Err(_) => sp_rectangle_profile_def_body(s@, pos as int) is None,
            },
    {
        let p1 = expect_char(s, pos, '(')?;
        let (a_profile_type, p2) = parse_profile_type_at(s, p1)?;
        let p3 = expect_char(s, p2, ',')?;
        let (_, p4) = parse_placeholder_at(s, p3)?;
        let p5 = expect_char(s, p4, ',')?;
        let (a_position, p6) = parse_opt_id_at(s, p5)?;
        let p7 = expect_char(s, p6, ',')?;
        let (a_x_dim, p8) = parse_real_lit_at(s, p7)?;
        let p9 = expect_char(s, p8, ',')?;
        let (a_y_dim, p10) = parse_real_lit_at(s, p9)?;
        let p11 = expect_char(s, p10, ')')?;
        let p12 = expect_char(s, p11, ';')?;
        Ok((RectangleProfileDef { profile_type: a_profile_type, position: a_position, x_dim: a_x_dim, y_dim: a_y_dim }, p12))
    }

    /// Parses a complete text that holds exactly one record of
    /// this kind.
    pub fn parse(s: &Vec<char>) -> (r: Result<Self, ParseError>)
        ensures
            match r {
                Ok(m) => sp_rectangle_profile_def_full(s@) == Some(m@),
                Err(_) => sp_rectangle_profile_def_full(s@) is None,
            },
    {
        match Self::parse_at(s, 0) {
            Ok((m, j)) => {
                let k = skip_ws(s, j);
                if k == s.len() {
                    Ok(m)
                } else {
                    Err(ParseError { pos: k, kind: ErrorKind::TrailingText })
                }
            },
            Err(e) => Err(e),
        }
    }

    /// Appends the canonical text of this record.
    #[verifier::rlimit(80)]
    pub fn render_into(&self, out: &mut Vec<char>)
        ensures
            final(out)@ == old(out)@ + rd_rectangle_profile_def(self@),
    {
        let ghost o0 = out@;
        out.push('I');
        out.push('F');
        out.push('C');
        out.push('R');
        out.push('E');
        out.push('C');
        out.push('T');
        out.push('A');
        out.push('N');
        out.push('G');
        out.push('L');
        out.push('E');
        out.push('P');
        out.push('R');
        out.push('O');
        out.push('F');
        out.push('I');
        out.push('L');
        out.push('E');
        out.push('D');
        out.push('E');
        out.push('F');
        proof {
            reveal_strlit("IFCRECTANGLEPROFILEDEF");
            assert(out@ =~= o0 + kw_rectangle_profile_def());
        }
        out.push('(');
        render_profile_type(self.profile_type, out);
        out.push(',');
        render_placeholder(out);
        out.push(',');
        render_opt_id(&self.position, out);
        out.push(',');
        render_real(&self.x_dim, out);
        out.push(',');
        render_real(&self.y_dim, out);
        out.push(')');
        out.push(';');
        proof {
            assert(out@ =~= o0 + rd_rectangle_profile_def(self@));
        }
    }

    /// The canonical text of this record.
    pub fn render(&self) -> (out: Vec<char>)
        ensures
            out@ == rd_rectangle_profile_def(self@),
    {
        let mut out: Vec<char> = Vec::new();
        self.render_into(&mut out);
        proof {
            assert(out@ =~= rd_rectangle_profile_def(self@));
        }
        out
    }
}

/// Whatever this parser accepts is well formed.
#[verifier::rlimit(80)]
pub proof fn lemma_sp_rectangle_profile_def_body_wf(s: Seq<char>, i: int)
    ensures
        sp_rectangle_profile_def_body(s, i) matches Some(r) ==> wf_rectangle_profile_def(r.0),
{
    if let Some(q1) = sp_char(s, i, '(') {
        if let Some((a_profile_type, q2)) = sp_profile_type(s, q1) {
            if let Some(q3) = sp_char(s, q2, ',') {
                if let Some(q4) = sp_placeholder(s, q3) {
                    if let Some(q5) = sp_char(s, q4, ',') {
                        if let Some((a_position, q6)) = sp_opt_id(s, q5) {
                            if let Some(q7) = sp_char(s, q6, ',') {
                                lemma_sp_real_wf(s, q7);
                                if let Some((a_x_dim, q8)) = crate::codec::sp_real(s, q7) {
                                    if let Some(q9) = sp_char(s, q8, ',') {
                                        lemma_sp_real_wf(s, q9);
                                        if let Some((a_y_dim, q10)) = crate::codec::sp_real(s, q9) {
                                        }
                                    }
                                }
                            }
                        }
                    }
                }
            }
        }
    }
}

/// All shape-relevant information about a product, grouping its representations.
#[derive(Clone, PartialEq, Eq, Debug)]
pub struct ProductDefinitionShape {
    /// Name of the shape.
    pub name: OptionalParameter<Label>,
    /// Description of the shape.
    pub description: OptionalParameter<Label>,
    /// References to the representations of the product.
    pub representations: IfcList<Id>,
}

/// The mathematical content of a [`ProductDefinitionShape`].
pub struct ProductDefinitionShapeV {
    pub name: Option<Seq<char>>,
    pub description: Option<Seq<char>>,
    pub representations: Seq<u64>,
}

impl View for ProductDefinitionShape {
    type V = ProductDefinitionShapeV;

    open spec fn view(&self) -> ProductDefinitionShapeV {
        ProductDefinitionShapeV {
            name: self.name@,
            description: self.description@,
            representations: self.representations@,
        }
    }
}

pub open spec fn kw_product_definition_shape() -> Seq<char> {
    "IFCPRODUCTDEFINITIONSHAPE"@
}

/// Validity of the references and literals a record holds.
pub open spec fn wf_product_definition_shape(v: ProductDefinitionShapeV) -> bool {
    wf_id_seq(v.representations)
}

/// The canonical text of this record.
pub open spec fn rd_product_definition_shape(v: ProductDefinitionShapeV) -> Seq<char> {
    kw_product_definition_shape() + seq!['('] + rd_opt_label(v.name) + seq![','] + rd_opt_label(v.description) + seq![','] + rd_id_list(v.representations) + seq![')', ';']
}

/// The attribute list after the keyword.
pub open spec fn sp_product_definition_shape_body(s: Seq<char>, i: int) -> Option<(ProductDefinitionShapeV, int)> {
    match sp_char(s, i, '(') {
        None => None,
        Some(p1) => {
            match sp_opt_label(s, p1) {
                None => None,
                Some((a_name, p2)) => {
                    match sp_char(s, p2, ',') {
                        None => None,
                        Some(p3) => {
                            match sp_opt_label(s, p3) {
                                None => None,
                                Some((a_description, p4)) => {
                                    match sp_char(s, p4, ',') {
                                        None => None,
                                        Some(p5) => {
                                            match sp_id_list(s, p5) {
                                                None => None,
                                                Some((a_representations, p6)) => {
                                                    match sp_char(s, p6, ')') {
                                                        None => None,
                                                        Some(p7) => {
                                                            match sp_char(s, p7, ';') {
                                                                None => None,
                                                                Some(p8) => {
                                                                    Some((ProductDefinitionShapeV { name: a_name, description: a_description, representations: a_representations }, p8))
                                },
                            }
                        },
                    }
                },
            }
        },
    }
},
}
},
}
},
}
},
}
}

/// A whole record: the keyword, then the attributes.
pub open spec fn sp_product_definition_shape(s: Seq<char>, i: int) -> Option<(ProductDefinitionShapeV, int)> {
    let (kwtok, e) = sp_keyword(s, i);
    if kwtok == kw_product_definition_shape() {
        sp_product_definition_shape_body(s, e)
    } else {
        None
    }
}

/// A complete text holding exactly one record of this kind,
/// with nothing but whitespace after it.
pub open spec fn sp_product_definition_shape_full(s: Seq<char>) -> Option<ProductDefinitionShapeV> {
    match sp_product_definition_shape(s, 0) {
        Some((v, e)) => if sp_ws(s, e) == s.len() {
            Some(v)
        } else {
            None
        },
        None => None,
    }
}

/// Parsing the canonical text of this record yields it back and
/// consumes exactly its text.
#[verifier::rlimit(80)]
pub proof fn lemma_product_definition_shape_round_trip(s: Seq<char>, i: int, v: ProductDefinitionShapeV)
    requires
        0 <= i,
        i + rd_product_definition_shape(v).len() <= s.len(),
        s.subrange(i, i + rd_product_definition_shape(v).len()) == rd_product_definition_shape(v),
        wf_product_definition_shape(v),
    ensures
        sp_product_definition_shape(s, i) == Some((v, i + rd_product_definition_shape(v).len())),
{
    reveal_strlit("IFCPRODUCTDEFINITIONSHAPE");
    let x = rd_product_definition_shape(v);
    let l0 = rd_opt_label(v.name).len() as int;
    let l1 = rd_opt_label(v.description).len() as int;
    let l2 = rd_id_list(v.representations).len() as int;
    assert forall|t: int| 0 <= t < x.len() implies s[i + t] == x[t] by {
        assert(s.subrange(i, i + x.len())[t] == x[t]);
    }
    assert(s[i] == x[0]);
    lemma_sp_ws_noop(s, i);
    assert forall|t: int| i <= t < i + 25 implies is_keyword_char(#[trigger] s[t]) by {
        assert(s.subrange(i, i + x.len())[t - i] == x[t - i]);
        assert(s[t] == x[t - i]);
        assert(x[t - i] == kw_product_definition_shape()[t - i]);
    }
    assert(s[i + 25] == x[25]);
    assert(x[25] == '(');
    lemma_sp_kw_end_run(s, i, i + 25);
    lemma_subrange_slice(s, i, x, 0, 25);
    assert(x.subrange(0, 25) =~= kw_product_definition_shape());
    assert(sp_keyword(s, i) == (kw_product_definition_shape(), i + 25));
    lemma_sp_ws_noop(s, i + 25);
    assert(sp_char(s, i + 25, '(') == Some(i + 26));
    let o0 = 26;
    lemma_subrange_slice(s, i, x, o0, o0 + l0);
    assert(x.subrange(o0, o0 + l0) =~= rd_opt_label(v.name));
    assert(x[o0 + l0] == ',');
    lemma_opt_label_round_trip(s, i + o0, v.name);
    lemma_sp_ws_noop(s, i + o0 + l0);
    assert(sp_char(s, i + o0 + l0, ',') == Some(i + o0 + l0 + 1));
    let o1 = o0 + l0 + 1;
    lemma_subrange_slice(s, i, x, o1, o1 + l1);
    assert(x.subrange(o1, o1 + l1) =~= rd_opt_label(v.description));
    assert(x[o1 + l1] == ',');
    lemma_opt_label_round_trip(s, i + o1, v.description);
    lemma_sp_ws_noop(s, i + o1 + l1);
    assert(sp_char(s, i + o1 + l1, ',') == Some(i + o1 + l1 + 1));
    let o2 = o1 + l1 + 1;
    lemma_subrange_slice(s, i, x, o2, o2 + l2);
    assert(x.subrange(o2, o2 + l2) =~= rd_id_list(v.representations));
    assert(x[o2 + l2] == ')');
    lemma_id_list_round_trip(s, i + o2, v.representations);
    lemma_sp_ws_noop(s, i + o2 + l2);
    assert(sp_char(s, i + o2 + l2, ')') == Some(i + o2 + l2 + 1));
    assert(x[o2 + l2 + 1] == ';');
    lemma_sp_ws_noop(s, i + o2 + l2 + 1);
    assert(sp_char(s, i + o2 + l2 + 1, ';') == Some(i + o2 + l2 + 1 + 1));
}

impl ProductDefinitionShape {
    /// Parses one record of this kind starting at `pos`.
    pub fn parse_at(s: &Vec<char>, pos: usize) -> (r: Result<(Self, usize), ParseError>)
        requires
            pos <= s@.len(),
        ensures
            match r {
                Ok((m, j)) => sp_product_definition_shape(s@, pos as int) == Some((m@, j as int)) && pos <= j
                    <= s@.len(),
                Err(_) => sp_product_definition_shape(s@, pos as int) is None,
            },
    {
        let (kwtok, e) = parse_keyword_at(s, pos);
        if !chars_eq_str(&kwtok, "IFCPRODUCTDEFINITIONSHAPE") {
            return Err(ParseError { pos: e, kind: ErrorKind::UnknownKeyword });
        }
        Self::parse_body_at(s, e)
    }

    /// Parses the attribute list after the keyword starting at `pos`.
    #[verifier::rlimit(80)]
    pub fn parse_body_at(s: &Vec<char>, pos: usize) -> (r: Result<(Self, usize), ParseError>)
        requires
            pos <= s@.len(),
        ensures
            match r {
                Ok((m, j)) => sp_product_definition_shape_body(s@, pos as int) == Some((m@, j as int)) && pos <= j
                    <= s@.len(),
                Err(_) => sp_product_definition_shape_body(s@, pos as int) is None,
            },
    {
        let p1 = expect_char(s, pos, '(')?;
        let (a_name, p2) = parse_opt_label_at(s, p1)?;
        let p3 = expect_char(s, p2, ',')?;
        let (a_description, p4) = parse_opt_label_at(s, p3)?;
        let p5 = expect_char(s, p4, ',')?;
        let (a_representations, p6) = parse_id_list_at(s, p5)?;
        let p7 = expect_char(s, p6, ')')?;
        let p8 = expect_char(s, p7, ';')?;
        Ok((ProductDefinitionShape { name: a_name, description: a_description, representations: a_representations }, p8))
    }

    /// Parses a complete text that holds exactly one record of
    /// this kind.
    pub fn parse(s: &Vec<char>) -> (r: Result<Self, ParseError>)
        ensures
            match r {
                Ok(m) => sp_product_definition_shape_full(s@) == Some(m@),
                Err(_) => sp_product_definition_shape_full(s@) is None,
            },
    {
        match Self::parse_at(s, 0) {
            Ok((m, j)) => {
                let k = skip_ws(s, j);
                if k == s.len() {
                    Ok(m)
                } else {
                    Err(ParseError { pos: k, kind: ErrorKind::TrailingText })
                }
            },
            Err(e) => Err(e),
        }
    }

    /// Appends the canonical text of this record.
    #[verifier::rlimit(80)]
    pub fn render_into(&self, out: &mut Vec<char>)
        ensures
            final(out)@ == old(out)@ + rd_product_definition_shape(self@),
    {
        let ghost o0 = out@;
        out.push('I');
        out.push('F');
        out.push('C');
        out.push('P');
        out.push('R');
        out.push('O');
        out.push('D');
        out.push('U');
        out.push('C');
        out.push('T');
        out.push('D');
        out.push('E');
        out.push('F');
        out.push('I');
        out.push('N');
        out.push('I');
        out.push('T');
        out.push('I');
        out.push('O');
        out.push('N');
        out.push('S');
        out.push('H');
        out.push('A');
        out.push('P');
        out.push('E');
        proof {
            reveal_strlit("IFCPRODUCTDEFINITIONSHAPE");
            assert(out@ =~= o0 + kw_product_definition_shape());
        }
        out.push('(');
        render_opt_label(&self.name, out);
        out.push(',');
        render_opt_label(&self.description, out);
        out.push(',');
        render_id_list(&self.representations, out);
        out.push(')');
        out.push(';');
        proof {
            assert(out@ =~= o0 + rd_product_definition_shape(self@));
        }
    }

    /// The canonical text of this record.
    pub fn render(&self) -> (out: Vec<char>)
        ensures
            out@ == rd_product_definition_shape(self@),
    {
        let mut out: Vec<char> = Vec::new();
        self.render_into(&mut out);
        proof {
            assert(out@ =~= rd_product_definition_shape(self@));
        }
        out
    }
}

/// Whatever this parser accepts is well formed.
#[verifier::rlimit(80)]
pub proof fn lemma_sp_product_definition_shape_body_wf(s: Seq<char>, i: int)
    ensures
        sp_product_definition_shape_body(s, i) matches Some(r) ==> wf_product_definition_shape(r.0),
{
    if let Some(q1) = sp_char(s, i, '(') {
        if let Some((a_name, q2)) = sp_opt_label(s, q1) {
            if let Some(q3) = sp_char(s, q2, ',') {
                if let Some((a_description, q4)) = sp_opt_label(s, q3) {
                    if let Some(q5) = sp_char(s, q4, ',') {
                        lemma_sp_id_list_wf(s, q5);
                        if let Some((a_representations, q6)) = sp_id_list(s, q5) {
                        }
                    }
                }
            }
        }
    }
}

/// One representation of a product shape within a representation context.
#[derive(Clone, PartialEq, Eq, Debug)]
pub struct ShapeRepresentation {
    /// Reference to the representation context.
    pub context_of_items: Id,
    /// The kind of the representation, inline or by reference.
    pub representation_identifier: IdOr<Label>,
    /// The geometric model used, inline or by reference.
    pub representation_type: IdOr<Label>,
    /// References to the items the representation holds.
    pub items: IfcList<Id>,
}

/// The mathematical content of a [`ShapeRepresentation`].
pub struct ShapeRepresentationV {
    pub context_of_items: u64,
    pub representation_identifier: IdOrV<Seq<char>>,
    pub representation_type: IdOrV<Seq<char>>,
    pub items: Seq<u64>,
}

impl View for ShapeRepresentation {
    type V = ShapeRepresentationV;

    open spec fn view(&self) -> ShapeRepresentationV {
        ShapeRepresentationV {
            context_of_items: self.context_of_items@,
            representation_identifier: self.representation_identifier@,
            representation_type: self.representation_type@,
            items: self.items@,
        }
    }
}

pub open spec fn kw_shape_representation() -> Seq<char> {
    "IFCSHAPEREPRESENTATION"@
}

/// Validity of the references and literals a record holds.
pub open spec fn wf_shape_representation(v: ShapeRepresentationV) -> bool {
    &&& wf_id(v.context_of_items)
    &&& wf_idor_label(v.representation_identifier)
    &&& wf_idor_label(v.representation_type)
    &&& wf_id_seq(v.items)
}

/// The canonical text of this record.
pub open spec fn rd_shape_representation(v: ShapeRepresentationV) -> Seq<char> {
    kw_shape_representation() + seq!['('] + rd_id(v.context_of_items) + seq![','] + rd_idor_label(v.representation_identifier) + seq![','] + rd_idor_label(v.representation_type) + seq![','] + rd_id_list(v.items) + seq![')', ';']
}

/// The attribute list after the keyword.
pub open spec fn sp_shape_representation_body(s: Seq<char>, i: int) -> Option<(ShapeRepresentationV, int)> {
    match sp_char(s, i, '(') {
        None => None,
        Some(p1) => {
            match sp_id(s, p1) {
                None => None,
                Some((a_context_of_items, p2)) => {
                    match sp_char(s, p2, ',') {
                        None => None,
                        Some(p3) => {
                            match sp_idor_label(s, p3) {
                                None => None,
                                Some((a_representation_identifier, p4)) => {
                                    match sp_char(s, p4, ',') {
                                        None => None,
                                        Some(p5) => {
                                            match sp_idor_label(s, p5) {
                                                None => None,
                                                Some((a_representation_type, p6)) => {
                                                    match sp_char(s, p6, ',') {
                                                        None => None,
                                                        Some(p7) => {
                                                            match sp_id_list(s, p7) {
                                                                None => None,
                                                                Some((a_items, p8)) => {
                                                                    match sp_char(s, p8, ')') {
                                                                        None => None,
                                                                        Some(p9) => {
                                                                            match sp_char(s, p9, ';') {
                                                                                None => None,
                                                                                Some(p10) => {
                                                                                    Some((ShapeRepresentationV { context_of_items: a_context_of_items, representation_identifier: a_representation_identifier, representation_type: a_representation_type, items: a_items }, p10))
                                        },
                                    }
                                },
                            }
                        },
                    }
                },
            }
        },
    }
},
}
},
}
},
}
},
}
},
}
}

/// A whole record: the keyword, then the attributes.
pub open spec fn sp_shape_representation(s: Seq<char>, i: int) -> Option<(ShapeRepresentationV, int)> {
    let (kwtok, e) = sp_keyword(s, i);
    if kwtok == kw_shape_representation() {
        sp_shape_representation_body(s, e)
    } else {
        None
    }
}

/// A complete text holding exactly one record of this kind,
/// with nothing but whitespace after it.
pub open spec fn sp_shape_representation_full(s: Seq<char>) -> Option<ShapeRepresentationV> {
    match sp_shape_representation(s, 0) {
        Some((v, e)) => if sp_ws(s, e) == s.len() {
            Some(v)
        } else {
            None
        },
        None => None,
    }
}

/// Parsing the canonical text of this record yields it back and
/// consumes exactly its text.
#[verifier::rlimit(80)]
pub proof fn lemma_shape_representation_round_trip(s: Seq<char>, i: int, v: ShapeRepresentationV)
    requires
        0 <= i,
        i + rd_shape_representation(v).len() <= s.len(),
        s.subrange(i, i + rd_shape_representation(v).len()) == rd_shape_representation(v),
        wf_shape_representation(v),
    ensures
        sp_shape_representation(s, i) == Some((v, i + rd_shape_representation(v).len())),
{
    reveal_strlit("IFCSHAPEREPRESENTATION");
    let x = rd_shape_representation(v);
    let l0 = rd_id(v.context_of_items).len() as int;
    let l1 = rd_idor_label(v.representation_identifier).len() as int;
    let l2 = rd_idor_label(v.representation_type).len() as int;
    let l3 = rd_id_list(v.items).len() as int;
    assert forall|t: int| 0 <= t < x.len() implies s[i + t] == x[t] by {
        assert(s.subrange(i, i + x.len())[t] == x[t]);
    }
    assert(s[i] == x[0]);
    lemma_sp_ws_noop(s, i);
    assert forall|t: int| i <= t < i + 22 implies is_keyword_char(#[trigger] s[t]) by {
        assert(s.subrange(i, i + x.len())[t - i] == x[t - i]);
        assert(s[t] == x[t - i]);
        assert(x[t - i] == kw_shape_representation()[t - i]);
    }
    assert(s[i + 22] == x[22]);
    assert(x[22] == '(');
    lemma_sp_kw_end_run(s, i, i + 22);
    lemma_subrange_slice(s, i, x, 0, 22);
    assert(x.subrange(0, 22) =~= kw_shape_representation());
    assert(sp_keyword(s, i) == (kw_shape_representation(), i + 22));
    lemma_sp_ws_noop(s, i + 22);
    assert(sp_char(s, i + 22, '(') == Some(i + 23));
    let o0 = 23;
    lemma_subrange_slice(s, i, x, o0, o0 + l0);
    assert(x.subrange(o0, o0 + l0) =~= rd_id(v.context_of_items));
    assert(x[o0 + l0] == ',');
    lemma_id_round_trip(s, i + o0, v.context_of_items);
    lemma_sp_ws_noop(s, i + o0 + l0);
    assert(sp_char(s, i + o0 + l0, ',') == Some(i + o0 + l0 + 1));
    let o1 = o0 + l0 + 1;
    lemma_subrange_slice(s, i, x, o1, o1 + l1);
    assert(x.subrange(o1, o1 + l1) =~= rd_idor_label(v.representation_identifier));
    assert(x[o1 + l1] == ',');
    lemma_idor_label_round_trip(s, i + o1, v.representation_identifier);
    lemma_sp_ws_noop(s, i + o1 + l1);
    assert(sp_char(s, i + o1 + l1, ',') == Some(i + o1 + l1 + 1));
    let o2 = o1 + l1 + 1;
    lemma_subrange_slice(s, i, x, o2, o2 + l2);
    assert(x.subrange(o2, o2 + l2) =~= rd_idor_label(v.representation_type));
    assert(x[o2 + l2] == ',');
    lemma_idor_label_round_trip(s, i + o2, v.representation_type);
    lemma_sp_ws_noop(s, i + o2 + l2);
    assert(sp_char(s, i + o2 + l2, ',') == Some(i + o2 + l2 + 1));
    let o3 = o2 + l2 + 1;
    lemma_subrange_slice(s, i, x, o3, o3 + l3);
    assert(x.subrange(o3, o3 + l3) =~= rd_id_list(v.items));
    assert(x[o3 + l3] == ')');
    lemma_id_list_round_trip(s, i + o3, v.items);
    lemma_sp_ws_noop(s, i + o3 + l3);
    assert(sp_char(s, i + o3 + l3, ')') == Some(i + o3 + l3 + 1));
    assert(x[o3 + l3 + 1] == ';');
    lemma_sp_ws_noop(s, i + o3 + l3 + 1);
    assert(sp_char(s, i + o3 + l3 + 1, ';') == Some(i + o3 + l3 + 1 + 1));
}

impl ShapeRepresentation {
    /// Parses one record of this kind starting at `pos`.
    pub fn parse_at(s: &Vec<char>, pos: usize) -> (r: Result<(Self, usize), ParseError>)
        requires
            pos <= s@.len(),
        ensures
            match r {
                Ok((m, j)) => sp_shape_representation(s@, pos as int) == Some((m@, j as int)) && pos <= j
                    <= s@.len(),
                Err(_) => sp_shape_representation(s@, pos as int) is None,
            },
    {
        let (kwtok, e) = parse_keyword_at(s, pos);
        if !chars_eq_str(&kwtok, "IFCSHAPEREPRESENTATION") {
            return Err(ParseError { pos: e, kind: ErrorKind::UnknownKeyword });
        }
        Self::parse_body_at(s, e)
    }

    /// Parses the attribute list after the keyword starting at `pos`.
    #[verifier::rlimit(80)]
    pub fn parse_body_at(s: &Vec<char>, pos: usize) -> (r: Result<(Self, usize), ParseError>)
        requires
            pos <= s@.len(),
        ensures
            match r {
                Ok((m, j)) => sp_shape_representation_body(s@, pos as int) == Some((m@, j as int)) && pos <= j
                    <= s@.len(),
                Err(_) => sp_shape_representation_body(s@, pos as int) is None,
            },
    {
        let p1 = expect_char(s, pos, '(')?;
        let (a_context_of_items_raw, p2) = parse_id_at(s, p1)?;
        let a_context_of_items = Id(a_context_of_items_raw);
        let p3 = expect_char(s, p2, ',')?;
        let (a_representation_identifier, p4) = parse_idor_label_at(s, p3)?;
        let p5 = expect_char(s, p4, ',')?;
        let (a_representation_type, p6) = parse_idor_label_at(s, p5)?;
        let p7 = expect_char(s, p6, ',')?;
        let (a_items, p8) = parse_id_list_at(s, p7)?;
        let p9 = expect_char(s, p8, ')')?;
        let p10 = expect_char(s, p9, ';')?;
        Ok((ShapeRepresentation { context_of_items: a_context_of_items, representation_identifier: a_representation_identifier, representation_type: a_representation_type, items: a_items }, p10))
    }

    /// Parses a complete text that holds exactly one record of
    /// this kind.
    pub fn parse(s: &Vec<char>) -> (r: Result<Self, ParseError>)
        ensures
            match r {
                Ok(m) => sp_shape_representation_full(s@) == Some(m@),
                Err(_) => sp_shape_representation_full(s@) is None,
            },
    {
        match Self::parse_at(s, 0) {
            Ok((m, j)) => {
                let k = skip_ws(s, j);
                if k == s.len() {
                    Ok(m)
                } else {
                    Err(ParseError { pos: k, kind: ErrorKind::TrailingText })
                }
            },
            Err(e) => Err(e),
        }
    }

    /// Appends the canonical text of this record.
    #[verifier::rlimit(80)]
    pub fn render_into(&self, out: &mut Vec<char>)
        ensures
            final(out)@ == old(out)@ + rd_shape_representation(self@),
    {
        let ghost o0 = out@;
        out.push('I');
        out.push('F');
        out.push('C');
        out.push('S');
        out.push('H');
        out.push('A');
        out.push('P');
        out.push('E');
        out.push('R');
        out.push('E');
        out.push('P');
        out.push('R');
        out.push('E');
        out.push('S');
        out.push('E');
        out.push('N');
        out.push('T');
        out.push('A');
        out.push('T');
        out.push('I');
        out.push('O');
        out.push('N');
        proof {
            reveal_strlit("IFCSHAPEREPRESENTATION");
            assert(out@ =~= o0 + kw_shape_representation());
        }
        out.push('(');
        render_id(self.context_of_items.0, out);
        out.push(',');
        render_idor_label(&self.representation_identifier, out);
        out.push(',');
        render_idor_label(&self.representation_type, out);
        out.push(',');
        render_id_list(&self.items, out);
        out.push(')');
        out.push(';');
        proof {
            assert(out@ =~= o0 + rd_shape_representation(self@));
        }
    }

    /// The canonical text of this record.
    pub fn render(&self) -> (out: Vec<char>)
        ensures
            out@ == rd_shape_representation(self@),
    {
        let mut out: Vec<char> = Vec::new();
        self.render_into(&mut out);
        proof {
            assert(out@ =~= rd_shape_representation(self@));
        }
        out
    }
}

/// Whatever this parser accepts is well formed.
#[verifier::rlimit(80)]
pub proof fn lemma_sp_shape_representation_body_wf(s: Seq<char>, i: int)
    ensures
        sp_shape_representation_body(s, i) matches Some(r) ==> wf_shape_representation(r.0),
{
    if let Some(q1) = sp_char(s, i, '(') {
        if let Some((a_context_of_items, q2)) = sp_id(s, q1) {
            if let Some(q3) = sp_char(s, q2, ',') {
                if let Some((a_representation_identifier, q4)) = sp_idor_label(s, q3) {
                    if let Some(q5) = sp_char(s, q4, ',') {
                        if let Some((a_representation_type, q6)) = sp_idor_label(s, q5) {
                            if let Some(q7) = sp_char(s, q6, ',') {
                                lemma_sp_id_list_wf(s, q7);
                                if let Some((a_items, q8)) = sp_id_list(s, q7) {
                                }
                            }
                        }
                    }
                }
            }
        }
    }
}

/// An arbitrary two-dimensional profile bounded by an outer curve.
#[derive(Debug)]
pub struct ArbitraryClosedProfileDef<C: Curve> {
    /// Whether the profile is an area or a curve.
    pub profile_type: ProfileType,
    /// Human-readable name of the profile.
    pub profile_name: OptionalParameter<Label>,
    /// Reference to the bounded curve forming the outer boundary.
    pub outer_curve: TypedId<C>,
}

/// The mathematical content of a [`ArbitraryClosedProfileDef`].
pub struct ArbitraryClosedProfileDefV {
    pub profile_type: ProfileType,
    pub profile_name: Option<Seq<char>>,
    pub outer_curve: u64,
}

impl<C: Curve> View for ArbitraryClosedProfileDef<C> {
    type V = ArbitraryClosedProfileDefV;

    open spec fn view(&self) -> ArbitraryClosedProfileDefV {
        ArbitraryClosedProfileDefV {
            profile_type: self.profile_type@,
            profile_name: self.profile_name@,
            outer_curve: self.outer_curve@,
        }
    }
}

pub open spec fn kw_arbitrary_closed_profile_def() -> Seq<char> {
    "IFCARBITRARYCLOSEDPROFILEDEF"@
}

/// Validity of the references and literals a record holds.
pub open spec fn wf_arbitrary_closed_profile_def(v: ArbitraryClosedProfileDefV) -> bool {
    wf_id(v.outer_curve)
}

/// The canonical text of this record.
pub open spec fn rd_arbitrary_closed_profile_def(v: ArbitraryClosedProfileDefV) -> Seq<char> {
    kw_arbitrary_closed_profile_def() + seq!['('] + rd_profile_type(v.profile_type) + seq![','] + rd_opt_label(v.profile_name) + seq![','] + rd_id(v.outer_curve) + seq![')', ';']
}

/// The attribute list after the keyword.
pub open spec fn sp_arbitrary_closed_profile_def_body(s: Seq<char>, i: int) -> Option<(ArbitraryClosedProfileDefV, int)> {
    match sp_char(s, i, '(') {
        None => None,
        Some(p1) => {
            match sp_profile_type(s, p1) {
                None => None,
                Some((a_profile_type, p2)) => {
                    match sp_char(s, p2, ',') {
                        None => None,
                        Some(p3) => {
                            match sp_opt_label(s, p3) {
                                None => None,
                                Some((a_profile_name, p4)) => {
                                    match sp_char(s, p4, ',') {
                                        None => None,
                                        Some(p5) => {
                                            match sp_id(s, p5) {
                                                None => None,
                                                Some((a_outer_curve, p6)) => {
                                                    match sp_char(s, p6, ')') {
                                                        None => None,
                                                        Some(p7) => {
                                                            match sp_char(s, p7, ';') {
                                                                None => None,
                                                                Some(p8) => {
                                                                    Some((ArbitraryClosedProfileDefV { profile_type: a_profile_type, profile_name: a_profile_name, outer_curve: a_outer_curve }, p8))
                                },
                            }
                        },
                    }
                },
            }
        },
    }
},
}
},
}
},
}
},
}
}

/// A whole record: the keyword, then the attributes.
pub open spec fn sp_arbitrary_closed_profile_def(s: Seq<char>, i: int) -> Option<(ArbitraryClosedProfileDefV, int)> {
    let (kwtok, e) = sp_keyword(s, i);
    if kwtok == kw_arbitrary_closed_profile_def() {
        sp_arbitrary_closed_profile_def_body(s, e)
    } else {
        None
    }
}

/// A complete text holding exactly one record of this kind,
/// with nothing but whitespace after it.
pub open spec fn sp_arbitrary_closed_profile_def_full(s: Seq<char>) -> Option<ArbitraryClosedProfileDefV> {
    match sp_arbitrary_closed_profile_def(s, 0) {
        Some((v, e)) => if sp_ws(s, e) == s.len() {
            Some(v)
        } else {
            None
        },
        None => None,
    }
}

/// Parsing the canonical text of this record yields it back and
/// consumes exactly its text.
#[verifier::rlimit(80)]
pub proof fn lemma_arbitrary_closed_profile_def_round_trip(s: Seq<char>, i: int, v: ArbitraryClosedProfileDefV)
    requires
        0 <= i,
        i + rd_arbitrary_closed_profile_def(v).len() <= s.len(),
        s.subrange(i, i + rd_arbitrary_closed_profile_def(v).len()) == rd_arbitrary_closed_profile_def(v),
        wf_arbitrary_closed_profile_def(v),
    ensures
        sp_arbitrary_closed_profile_def(s, i) == Some((v, i + rd_arbitrary_closed_profile_def(v).len())),
{
    reveal_strlit("IFCARBITRARYCLOSEDPROFILEDEF");
    reveal_strlit("AREA");
    reveal_strlit("CURVE");
    let x = rd_arbitrary_closed_profile_def(v);
    let l0 = rd_profile_type(v.profile_type).len() as int;
    let l1 = rd_opt_label(v.profile_name).len() as int;
    let l2 = rd_id(v.outer_curve).len() as int;
    assert forall|t: int| 0 <= t < x.len() implies s[i + t] == x[t] by {
        assert(s.subrange(i, i + x.len())[t] == x[t]);
    }
    assert(s[i] == x[0]);
    lemma_sp_ws_noop(s, i);
    assert forall|t: int| i <= t < i + 28 implies is_keyword_char(#[trigger] s[t]) by {
        assert(s.subrange(i, i + x.len())[t - i] == x[t - i]);
        assert(s[t] == x[t - i]);
        assert(x[t - i] == kw_arbitrary_closed_profile_def()[t - i]);
    }
    assert(s[i + 28] == x[28]);
    assert(x[28] == '(');
    lemma_sp_kw_end_run(s, i, i + 28);
    lemma_subrange_slice(s, i, x, 0, 28);
    assert(x.subrange(0, 28) =~= kw_arbitrary_closed_profile_def());
    assert(sp_keyword(s, i) == (kw_arbitrary_closed_profile_def(), i + 28));
    lemma_sp_ws_noop(s, i + 28);
    assert(sp_char(s, i + 28, '(') == Some(i + 29));
    let o0 = 29;
    lemma_subrange_slice(s, i, x, o0, o0 + l0);
    assert(x.subrange(o0, o0 + l0) =~= rd_profile_type(v.profile_type));
    assert(x[o0 + l0] == ',');
    lemma_profile_type_round_trip(s, i + o0, v.profile_type);
    lemma_sp_ws_noop(s, i + o0 + l0);
    assert(sp_char(s, i + o0 + l0, ',') == Some(i + o0 + l0 + 1));
    let o1 = o0 + l0 + 1;
    lemma_subrange_slice(s, i, x, o1, o1 + l1);
    assert(x.subrange(o1, o1 + l1) =~= rd_opt_label(v.profile_name));
    assert(x[o1 + l1] == ',');
    lemma_opt_label_round_trip(s, i + o1, v.profile_name);
    lemma_sp_ws_noop(s, i + o1 + l1);
    assert(sp_char(s, i + o1 + l1, ',') == Some(i + o1 + l1 + 1));
    let o2 = o1 + l1 + 1;
    lemma_subrange_slice(s, i, x, o2, o2 + l2);
    assert(x.subrange(o2, o2 + l2) =~= rd_id(v.outer_curve));
    assert(x[o2 + l2] == ')');
    lemma_id_round_trip(s, i + o2, v.outer_curve);
    lemma_sp_ws_noop(s, i + o2 + l2);
    assert(sp_char(s, i + o2 + l2, ')') == Some(i + o2 + l2 + 1));
    assert(x[o2 + l2 + 1] == ';');
    lemma_sp_ws_noop(s, i + o2 + l2 + 1);
    assert(sp_char(s, i + o2 + l2 + 1, ';') == Some(i + o2 + l2 + 1 + 1));
}

impl<C: Curve> ArbitraryClosedProfileDef<C> {
    /// Parses one record of this kind starting at `pos`.
    pub fn parse_at(s: &Vec<char>, pos: usize) -> (r: Result<(Self, usize), ParseError>)
        requires
            pos <= s@.len(),
        ensures
            match r {
                Ok((m, j)) => sp_arbitrary_closed_profile_def(s@, pos as int) == Some((m@, j as int)) && pos <= j
                    <= s@.len(),
                Err(_) => sp_arbitrary_closed_profile_def(s@, pos as int) is None,
            },
    {
        let (kwtok, e) = parse_keyword_at(s, pos);
        if !chars_eq_str(&kwtok, "IFCARBITRARYCLOSEDPROFILEDEF") {
            return Err(ParseError { pos: e, kind: ErrorKind::UnknownKeyword });
        }
        Self::parse_body_at(s, e)
    }

    /// Parses the attribute list after the keyword starting at `pos`.
    #[verifier::rlimit(80)]
    pub fn parse_body_at(s: &Vec<char>, pos: usize) -> (r: Result<(Self, usize), ParseError>)
        requires
            pos <= s@.len(),
        ensures
            match r {
                Ok((m, j)) => sp_arbitrary_closed_profile_def_body(s@, pos as int) == Some((m@, j as int)) && pos <= j
                    <= s@.len(),
                Err(_) => sp_arbitrary_closed_profile_def_body(s@, pos as int) is None,
            },
    {
        let p1 = expect_char(s, pos, '(')?;
        let (a_profile_type, p2) = parse_profile_type_at(s, p1)?;
        let p3 = expect_char(s, p2, ',')?;
        let (a_profile_name, p4) = parse_opt_label_at(s, p3)?;
        let p5 = expect_char(s, p4, ',')?;
        let (a_outer_curve_raw, p6) = parse_id_at(s, p5)?;
        let a_outer_curve = TypedId::<C>::new(Id(a_outer_curve_raw));
        let p7 = expect_char(s, p6, ')')?;
        let p8 = expect_char(s, p7, ';')?;
        Ok((ArbitraryClosedProfileDef { profile_type: a_profile_type, profile_name: a_profile_name, outer_curve: a_outer_curve }, p8))
    }

    /// Parses a complete text that holds exactly one record of
    /// this kind.
    pub fn parse(s: &Vec<char>) -> (r: Result<Self, ParseError>)
        ensures
            match r {
                Ok(m) => sp_arbitrary_closed_profile_def_full(s@) == Some(m@),
                Err(_) => sp_arbitrary_closed_profile_def_full(s@) is None,
            },
    {
        match Self::parse_at(s, 0) {
            Ok((m, j)) => {
                let k = skip_ws(s, j);
                if k == s.len() {
                    Ok(m)
                } else {
                    Err(ParseError { pos: k, kind: ErrorKind::TrailingText })
                }
            },
            Err(e) => Err(e),
        }
    }

    /// Appends the canonical text of this record.
    #[verifier::rlimit(80)]
    pub fn render_into(&self, out: &mut Vec<char>)
        ensures
            final(out)@ == old(out)@ + rd_arbitrary_closed_profile_def(self@),
    {
        let ghost o0 = out@;
        out.push('I');
        out.push('F');
        out.push('C');
        out.push('A');
        out.push('R');
        out.push('B');
        out.push('I');
        out.push('T');
        out.push('R');
        out.push('A');
        out.push('R');
        out.push('Y');
        out.push('C');
        out.push('L');
        out.push('O');
        out.push('S');
        out.push('E');
        out.push('D');
        out.push('P');
        out.push('R');
        out.push('O');
        out.push('F');
        out.push('I');
        out.push('L');
        out.push('E');
        out.push('D');
        out.push('E');
        out.push('F');
        proof {
            reveal_strlit("IFCARBITRARYCLOSEDPROFILEDEF");
            assert(out@ =~= o0 + kw_arbitrary_closed_profile_def());
        }
        out.push('(');
        render_profile_type(self.profile_type, out);
        out.push(',');
        render_opt_label(&self.profile_name, out);
        out.push(',');
        render_id(self.outer_curve.id().0, out);
        out.push(')');
        out.push(';');
        proof {
            assert(out@ =~= o0 + rd_arbitrary_closed_profile_def(self@));
        }
    }

    /// The canonical text of this record.
    pub fn render(&self) -> (out: Vec<char>)
        ensures
            out@ == rd_arbitrary_closed_profile_def(self@),
    {
        let mut out: Vec<char> = Vec::new();
        self.render_into(&mut out);
        proof {
            assert(out@ =~= rd_arbitrary_closed_profile_def(self@));
        }
        out
    }
}

/// Whatever this parser accepts is well formed.
#[verifier::rlimit(80)]
pub proof fn lemma_sp_arbitrary_closed_profile_def_body_wf(s: Seq<char>, i: int)
    ensures
        sp_arbitrary_closed_profile_def_body(s, i) matches Some(r) ==> wf_arbitrary_closed_profile_def(r.0),
{
    if let Some(q1) = sp_char(s, i, '(') {
        if let Some((a_profile_type, q2)) = sp_profile_type(s, q1) {
            if let Some(q3) = sp_char(s, q2, ',') {
                if let Some((a_profile_name, q4)) = sp_opt_label(s, q3) {
                    if let Some(q5) = sp_char(s, q4, ',') {
                        if let Some((a_outer_curve, q6)) = sp_id(s, q5) {
                        }
                    }
                }
            }
        }
    }
}

impl<C: Curve> ArbitraryClosedProfileDef<C> {
    /// A profile over the given outer boundary curve, its name
    /// omitted. The reference is taken as a typed handle; the curve
    /// kinds themselves belong to the record catalog outside this
    /// core.
    pub fn new(profile_type: ProfileType, outer_curve: TypedId<C>) -> (r: Self)
        ensures
            r@.profile_type == profile_type,
            r@.profile_name is None,
            r@.outer_curve == outer_curve@,
    {
        ArbitraryClosedProfileDef {
            profile_type,
            profile_name: OptionalParameter::Omitted,
            outer_curve,
        }
    }

    /// Sets the human-readable profile name.
    pub fn profile_name(self, name: Label) -> (r: Self)
        ensures
            r@.profile_type == self@.profile_type,
            r@.profile_name == Some(name@),
            r@.outer_curve == self@.outer_curve,
    {
        ArbitraryClosedProfileDef { profile_name: OptionalParameter::Custom(name), ..self }
    }
}

} // verus!
