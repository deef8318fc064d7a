//! The shared object layer: the root attributes every independent
//! record starts with, the object specialization built on them, and
//! the wall record. Specializations hold their general part as a
//! nested component whose attributes are spliced flat into the text
//! form, mirroring the schema's attribute inheritance.

use crate::codec::{
    sp_quoted, chars_eq_str, expect_char, is_keyword_char, lemma_sp_kw_end_run, lemma_sp_ws_noop,
    lemma_subrange_slice, parse_keyword_at, skip_ws, sp_char, sp_keyword, sp_ws, ErrorKind,
    ParseError,
};
use crate::grammar::{
    lemma_label_round_trip, lemma_opt_id_round_trip, lemma_opt_label_round_trip, parse_label_at,
    parse_opt_id_at, parse_opt_label_at, rd_label, rd_opt_id, rd_opt_label, render_label,
    render_opt_id, render_opt_label, sp_opt_id, sp_opt_label, wf_opt_id, Label,
    OptionalParameter,
};
use crate::id::Id;
use vstd::prelude::*;

verus! {


/// The attributes every independently stored record starts with.
#[derive(Clone, PartialEq, Eq, Debug)]
pub struct Root {
    /// The globally unique identifier label of the record.
    pub global_id: Label,
    /// Reference to the ownership information of the record.
    pub owner_history: OptionalParameter<Id>,
    /// Name of the record.
    pub name: OptionalParameter<Label>,
    /// Description of the record.
    pub description: OptionalParameter<Label>,
}

/// The mathematical content of a [`Root`].
pub struct RootV {
    pub global_id: Seq<char>,
    pub owner_history: Option<u64>,
    pub name: Option<Seq<char>>,
    pub description: Option<Seq<char>>,
}

impl View for Root {
    type V = RootV;

    open spec fn view(&self) -> RootV {
        RootV {
            global_id: self.global_id@,
            owner_history: self.owner_history@,
            name: self.name@,
            description: self.description@,
        }
    }
}

/// Validity of the references and literals a record holds.
pub open spec fn wf_root(v: RootV) -> bool {
    wf_opt_id(v.owner_history)
}

/// The canonical text of this record.
pub open spec fn rd_root(v: RootV) -> Seq<char> {
    rd_label(v.global_id) + seq![','] + rd_opt_id(v.owner_history) + seq![','] + rd_opt_label(v.name) + seq![','] + rd_opt_label(v.description)
}

/// The attribute list.
pub open spec fn sp_root(s: Seq<char>, i: int) -> Option<(RootV, int)> {
    match sp_quoted(s, i) {
        None => None,
        Some((a_global_id, p1)) => {
            match sp_char(s, p1, ',') {
                None => None,
                Some(p2) => {
                    match sp_opt_id(s, p2) {
                        None => None,
                        Some((a_owner_history, p3)) => {
                            match sp_char(s, p3, ',') {
                                None => None,
                                Some(p4) => {
                                    match sp_opt_label(s, p4) {
                                        None => None,
                                        Some((a_name, p5)) => {
                                            match sp_char(s, p5, ',') {
                                                None => None,
                                                Some(p6) => {
                                                    match sp_opt_label(s, p6) {
                                                        None => None,
                                                        Some((a_description, p7)) => {
                                                            Some((RootV { global_id: a_global_id, owner_history: a_owner_history, name: a_name, description: a_description }, p7))
                            },
                        }
                    },
                }
            },
        }
    },
}
},
}
},
}
},
}
}

/// Parsing the canonical text of this record yields it back and
/// consumes exactly its text.
#[verifier::rlimit(80)]
pub proof fn lemma_root_round_trip(s: Seq<char>, i: int, v: RootV)
    requires
        0 <= i,
        i + rd_root(v).len() <= s.len(),
        s.subrange(i, i + rd_root(v).len()) == rd_root(v),
        i + rd_root(v).len() == s.len() || (s[i + rd_root(v).len()] == ',' || s[i + rd_root(v).len()] == ')'),
        wf_root(v),
    ensures
        sp_root(s, i) == Some((v, i + rd_root(v).len())),
{
    let x = rd_root(v);
    let l0 = rd_label(v.global_id).len() as int;
    let l1 = rd_opt_id(v.owner_history).len() as int;
    let l2 = rd_opt_label(v.name).len() as int;
    let l3 = rd_opt_label(v.description).len() as int;
    assert forall|t: int| 0 <= t < x.len() implies s[i + t] == x[t] by {
        assert(s.subrange(i, i + x.len())[t] == x[t]);
    }
    let o0 = 0;
    lemma_subrange_slice(s, i, x, o0, o0 + l0);
    assert(x.subrange(o0, o0 + l0) =~= rd_label(v.global_id));
    assert(x[o0 + l0] == ',');
    lemma_label_round_trip(s, i + o0, v.global_id);
    lemma_sp_ws_noop(s, i + o0 + l0);
    assert(sp_char(s, i + o0 + l0, ',') == Some(i + o0 + l0 + 1));
    let o1 = o0 + l0 + 1;
    lemma_subrange_slice(s, i, x, o1, o1 + l1);
    assert(x.subrange(o1, o1 + l1) =~= rd_opt_id(v.owner_history));
    assert(x[o1 + l1] == ',');
    lemma_opt_id_round_trip(s, i + o1, v.owner_history);
    lemma_sp_ws_noop(s, i + o1 + l1);
    assert(sp_char(s, i + o1 + l1, ',') == Some(i + o1 + l1 + 1));
    let o2 = o1 + l1 + 1;
    lemma_subrange_slice(s, i, x, o2, o2 + l2);
    assert(x.subrange(o2, o2 + l2) =~= rd_opt_label(v.name));
    assert(x[o2 + l2] == ',');
    lemma_opt_label_round_trip(s, i + o2, v.name);
    lemma_sp_ws_noop(s, i + o2 + l2);
    assert(sp_char(s, i + o2 + l2, ',') == Some(i + o2 + l2 + 1));
    let o3 = o2 + l2 + 1;
    lemma_subrange_slice(s, i, x, o3, o3 + l3);
    assert(x.subrange(o3, o3 + l3) =~= rd_opt_label(v.description));
    lemma_opt_label_round_trip(s, i + o3, v.description);
}

impl Root {
    /// Parses the attribute fragment starting at `pos`.
    #[verifier::rlimit(80)]
    pub fn parse_at(s: &Vec<char>, pos: usize) -> (r: Result<(Self, usize), ParseError>)
        requires
            pos <= s@.len(),
        ensures
            match r {
                Ok((m, j)) => sp_root(s@, pos as int) == Some((m@, j as int)) && pos <= j
                    <= s@.len(),
                Err(_) => sp_root(s@, pos as int) is None,
            },
    {
        let (a_global_id, p1) = parse_label_at(s, pos)?;
        let p2 = expect_char(s, p1, ',')?;
        let (a_owner_history, p3) = parse_opt_id_at(s, p2)?;
        let p4 = expect_char(s, p3, ',')?;
        let (a_name, p5) = parse_opt_label_at(s, p4)?;
        let p6 = expect_char(s, p5, ',')?;
        let (a_description, p7) = parse_opt_label_at(s, p6)?;
        Ok((Root { global_id: a_global_id, owner_history: a_owner_history, name: a_name, description: a_description }, p7))
    }

    /// Appends the canonical text of this record.
    #[verifier::rlimit(80)]
    pub fn render_into(&self, out: &mut Vec<char>)
        ensures
            final(out)@ == old(out)@ + rd_root(self@),
    {
        let ghost o0 = out@;
        render_label(&self.global_id, out);
        out.push(',');
        render_opt_id(&self.owner_history, out);
        out.push(',');
        render_opt_label(&self.name, out);
        out.push(',');
        render_opt_label(&self.description, out);
        proof {
            assert(out@ =~= o0 + rd_root(self@));
        }
    }

    /// The canonical text of this record.
    pub fn render(&self) -> (out: Vec<char>)
        ensures
            out@ == rd_root(self@),
    {
        let mut out: Vec<char> = Vec::new();
        self.render_into(&mut out);
        proof {
            assert(out@ =~= rd_root(self@));
        }
        out
    }
}

/// Whatever this parser accepts is well formed.
#[verifier::rlimit(80)]
pub proof fn lemma_sp_root_wf(s: Seq<char>, i: int)
    ensures
        sp_root(s, i) matches Some(r) ==> wf_root(r.0),
{
    if let Some((a_global_id, q1)) = sp_quoted(s, i) {
        if let Some(q2) = sp_char(s, q1, ',') {
            if let Some((a_owner_history, q3)) = sp_opt_id(s, q2) {
                if let Some(q4) = sp_char(s, q3, ',') {
                    if let Some((a_name, q5)) = sp_opt_label(s, q4) {
                        if let Some(q6) = sp_char(s, q5, ',') {
                            if let Some((a_description, q7)) = sp_opt_label(s, q6) {
                            }
                        }
                    }
                }
            }
        }
    }
}

/// The generalization of any semantically treated thing or process.
#[derive(Clone, PartialEq, Eq, Debug)]
pub struct Object {
    /// The general root part, spliced first into the text form.
    pub root: Root,
    /// A particular type that indicates the object further.
    pub object_type: OptionalParameter<Label>,
}

/// The mathematical content of a [`Object`].
pub struct ObjectV {
    pub root: RootV,
    pub object_type: Option<Seq<char>>,
}

impl View for Object {
    type V = ObjectV;

    open spec fn view(&self) -> ObjectV {
        ObjectV {
            root: self.root@,
            object_type: self.object_type@,
        }
    }
}

/// Validity of the references and literals a record holds.
pub open spec fn wf_object(v: ObjectV) -> bool {
    wf_root(v.root)
}

/// The canonical text of this record.
pub open spec fn rd_object(v: ObjectV) -> Seq<char> {
    rd_root(v.root) + seq![','] + rd_opt_label(v.object_type)
}

/// The attribute list.
pub open spec fn sp_object(s: Seq<char>, i: int) -> Option<(ObjectV, int)> {
    match sp_root(s, i) {
        None => None,
        Some((a_root, p1)) => {
            match sp_char(s, p1, ',') {
                None => None,
                Some(p2) => {
                    match sp_opt_label(s, p2) {
                        None => None,
                        Some((a_object_type, p3)) => {
                            Some((ObjectV { root: a_root, object_type: a_object_type }, p3))
            },
        }
    },
}
},
}
}

/// Parsing the canonical text of this record yields it back and
/// consumes exactly its text.
#[verifier::rlimit(80)]
pub proof fn lemma_object_round_trip(s: Seq<char>, i: int, v: ObjectV)
    requires
        0 <= i,
        i + rd_object(v).len() <= s.len(),
        s.subrange(i, i + rd_object(v).len()) == rd_object(v),
        i + rd_object(v).len() == s.len() || (s[i + rd_object(v).len()] == ',' || s[i + rd_object(v).len()] == ')'),
        wf_object(v),
    ensures
        sp_object(s, i) == Some((v, i + rd_object(v).len())),
{
    let x = rd_object(v);
    let l0 = rd_root(v.root).len() as int;
    let l1 = rd_opt_label(v.object_type).len() as int;
    assert forall|t: int| 0 <= t < x.len() implies s[i + t] == x[t] by {
        assert(s.subrange(i, i + x.len())[t] == x[t]);
    }
    let o0 = 0;
    lemma_subrange_slice(s, i, x, o0, o0 + l0);
    assert(x.subrange(o0, o0 + l0) =~= rd_root(v.root));
    assert(x[o0 + l0] == ',');
    lemma_root_round_trip(s, i + o0, v.root);
    lemma_sp_ws_noop(s, i + o0 + l0);
    assert(sp_char(s, i + o0 + l0, ',') == Some(i + o0 + l0 + 1));
    let o1 = o0 + l0 + 1;
    lemma_subrange_slice(s, i, x, o1, o1 + l1);
    assert(x.subrange(o1, o1 + l1) =~= rd_opt_label(v.object_type));
    lemma_opt_label_round_trip(s, i + o1, v.object_type);
}

impl Object {
    /// Parses the attribute fragment starting at `pos`.
    #[verifier::rlimit(80)]
    pub fn parse_at(s: &Vec<char>, pos: usize) -> (r: Result<(Self, usize), ParseError>)
        requires
            pos <= s@.len(),
        ensures
            match r {
                Ok((m, j)) => sp_object(s@, pos as int) == Some((m@, j as int)) && pos <= j
                    <= s@.len(),
                Err(_) => sp_object(s@, pos as int) is None,
            },
    {
        let (a_root, p1) = Root::parse_at(s, pos)?;
        let p2 = expect_char(s, p1, ',')?;
        let (a_object_type, p3) = parse_opt_label_at(s, p2)?;
        Ok((Object { root: a_root, object_type: a_object_type }, p3))
    }

    /// Appends the canonical text of this record.
    #[verifier::rlimit(80)]
    pub fn render_into(&self, out: &mut Vec<char>)
        ensures
            final(out)@ == old(out)@ + rd_object(self@),
    {
        let ghost o0 = out@;
        self.root.render_into(out);
        out.push(',');
        render_opt_label(&self.object_type, out);
        proof {
            assert(out@ =~= o0 + rd_object(self@));
        }
    }

    /// The canonical text of this record.
    pub fn render(&self) -> (out: Vec<char>)
        ensures
            out@ == rd_object(self@),
    {
        let mut out: Vec<char> = Vec::new();
        self.render_into(&mut out);
        proof {
            assert(out@ =~= rd_object(self@));
        }
        out
    }
}

/// Whatever this parser accepts is well formed.
#[verifier::rlimit(80)]
pub proof fn lemma_sp_object_wf(s: Seq<char>, i: int)
    ensures
        sp_object(s, i) matches Some(r) ==> wf_object(r.0),
{
    lemma_sp_root_wf(s, i);
    if let Some((a_root, q1)) = sp_root(s, i) {
        if let Some(q2) = sp_char(s, q1, ',') {
            if let Some((a_object_type, q3)) = sp_opt_label(s, q2) {
            }
        }
    }
}

/// A vertical construction that bounds or subdivides spaces.
#[derive(Clone, PartialEq, Eq, Debug)]
pub struct Wall {
    /// The general object part, spliced first into the text form.
    pub object: Object,
    /// Reference to the local placement of the wall.
    pub object_placement: OptionalParameter<Id>,
    /// Reference to the product definition shape of the wall.
    pub representation: OptionalParameter<Id>,
    /// The tag identifier at the occurrence level.
    pub tag: OptionalParameter<Label>,
}

/// The mathematical content of a [`Wall`].
pub struct WallV {
    pub object: ObjectV,
    pub object_placement: Option<u64>,
    pub representation: Option<u64>,
    pub tag: Option<Seq<char>>,
}

impl View for Wall {
    type V = WallV;

    open spec fn view(&self) -> WallV {
        WallV {
            object: self.object@,
            object_placement: self.object_placement@,
            representation: self.representation@,
            tag: self.tag@,
        }
    }
}

pub open spec fn kw_wall() -> Seq<char> {
    "IFCWALL"@
}

/// Validity of the references and literals a record holds.
pub open spec fn wf_wall(v: WallV) -> bool {
    &&& wf_object(v.object)
    &&& wf_opt_id(v.object_placement)
    &&& wf_opt_id(v.representation)
}

/// The canonical text of this record.
pub open spec fn rd_wall(v: WallV) -> Seq<char> {
    kw_wall() + seq!['('] + rd_object(v.object) + seq![','] + rd_opt_id(v.object_placement) + seq![','] + rd_opt_id(v.representation) + seq![','] + rd_opt_label(v.tag) + seq![')', ';']
}

/// The attribute list after the keyword.
pub open spec fn sp_wall_body(s: Seq<char>, i: int) -> Option<(WallV, int)> {
    match sp_char(s, i, '(') {
        None => None,
        Some(p1) => {
            match sp_object(s, p1) {
                None => None,
                Some((a_object, p2)) => {
                    match sp_char(s, p2, ',') {
                        None => None,
                        Some(p3) => {
                            match sp_opt_id(s, p3) {
                                None => None,
                                Some((a_object_placement, p4)) => {
                                    match sp_char(s, p4, ',') {
                                        None => None,
                                        Some(p5) => {
                                            match sp_opt_id(s, p5) {
                                                None => None,
                                                Some((a_representation, p6)) => {
                                                    match sp_char(s, p6, ',') {
                                                        None => None,
                                                        Some(p7) => {
                                                            match sp_opt_label(s, p7) {
                                                                None => None,
                                                                Some((a_tag, p8)) => {
                                                                    match sp_char(s, p8, ')') {
                                                                        None => None,
                                                                        Some(p9) => {
                                                                            match sp_char(s, p9, ';') {
                                                                                None => None,
                                                                                Some(p10) => {
                                                                                    Some((WallV { object: a_object, object_placement: a_object_placement, representation: a_representation, tag: a_tag }, p10))
                                        },
                                    }
                                },
                            }
                        },
                    }
                },
            }
        },
    }
},
}
},
}
},
}
},
}
},
}
}

/// A whole record: the keyword, then the attributes.
pub open spec fn sp_wall(s: Seq<char>, i: int) -> Option<(WallV, int)> {
    let (kwtok, e) = sp_keyword(s, i);
    if kwtok == kw_wall() {
        sp_wall_body(s, e)
    } else {
        None
    }
}

/// A complete text holding exactly one record of this kind,
/// with nothing but whitespace after it.
pub open spec fn sp_wall_full(s: Seq<char>) -> Option<WallV> {
    match sp_wall(s, 0) {
        Some((v, e)) => if sp_ws(s, e) == s.len() {
            Some(v)
        } else {
            None
        },
        None => None,
    }
}

/// Parsing the canonical text of this record yields it back and
/// consumes exactly its text.
#[verifier::rlimit(80)]
pub proof fn lemma_wall_round_trip(s: Seq<char>, i: int, v: WallV)
    requires
        0 <= i,
        i + rd_wall(v).len() <= s.len(),
        s.subrange(i, i + rd_wall(v).len()) == rd_wall(v),
        wf_wall(v),
    ensures
        sp_wall(s, i) == Some((v, i + rd_wall(v).len())),
{
    reveal_strlit("IFCWALL");
    let x = rd_wall(v);
    let l0 = rd_object(v.object).len() as int;
    let l1 = rd_opt_id(v.object_placement).len() as int;
    let l2 = rd_opt_id(v.representation).len() as int;
    let l3 = rd_opt_label(v.tag).len() as int;
    assert forall|t: int| 0 <= t < x.len() implies s[i + t] == x[t] by {
        assert(s.subrange(i, i + x.len())[t] == x[t]);
    }
    assert(s[i] == x[0]);
    lemma_sp_ws_noop(s, i);
    assert forall|t: int| i <= t < i + 7 implies is_keyword_char(#[trigger] s[t]) by {
        assert(s.subrange(i, i + x.len())[t - i] == x[t - i]);
        assert(s[t] == x[t - i]);
        assert(x[t - i] == kw_wall()[t - i]);
    }
    assert(s[i + 7] == x[7]);
    assert(x[7] == '(');
    lemma_sp_kw_end_run(s, i, i + 7);
    lemma_subrange_slice(s, i, x, 0, 7);
    assert(x.subrange(0, 7) =~= kw_wall());
    assert(sp_keyword(s, i) == (kw_wall(), i + 7));
    lemma_sp_ws_noop(s, i + 7);
    assert(sp_char(s, i + 7, '(') == Some(i + 8));
    let o0 = 8;
    lemma_subrange_slice(s, i, x, o0, o0 + l0);
    assert(x.subrange(o0, o0 + l0) =~= rd_object(v.object));
    assert(x[o0 + l0] == ',');
    lemma_object_round_trip(s, i + o0, v.object);
    lemma_sp_ws_noop(s, i + o0 + l0);
    assert(sp_char(s, i + o0 + l0, ',') == Some(i + o0 + l0 + 1));
    let o1 = o0 + l0 + 1;
    lemma_subrange_slice(s, i, x, o1, o1 + l1);
    assert(x.subrange(o1, o1 + l1) =~= rd_opt_id(v.object_placement));
    assert(x[o1 + l1] == ',');
    lemma_opt_id_round_trip(s, i + o1, v.object_placement);
    lemma_sp_ws_noop(s, i + o1 + l1);
    assert(sp_char(s, i + o1 + l1, ',') == Some(i + o1 + l1 + 1));
    let o2 = o1 + l1 + 1;
    lemma_subrange_slice(s, i, x, o2, o2 + l2);
    assert(x.subrange(o2, o2 + l2) =~= rd_opt_id(v.representation));
    assert(x[o2 + l2] == ',');
    lemma_opt_id_round_trip(s, i + o2, v.representation);
    lemma_sp_ws_noop(s, i + o2 + l2);
    assert(sp_char(s, i + o2 + l2, ',') == Some(i + o2 + l2 + 1));
    let o3 = o2 + l2 + 1;
    lemma_subrange_slice(s, i, x, o3, o3 + l3);
    assert(x.subrange(o3, o3 + l3) =~= rd_opt_label(v.tag));
    assert(x[o3 + l3] == ')');
    lemma_opt_label_round_trip(s, i + o3, v.tag);
    lemma_sp_ws_noop(s, i + o3 + l3);
    assert(sp_char(s, i + o3 + l3, ')') == Some(i + o3 + l3 + 1));
    assert(x[o3 + l3 + 1] == ';');
    lemma_sp_ws_noop(s, i + o3 + l3 + 1);
    assert(sp_char(s, i + o3 + l3 + 1, ';') == Some(i + o3 + l3 + 1 + 1));
}

impl Wall {
    /// Parses one record of this kind starting at `pos`.
    pub fn parse_at(s: &Vec<char>, pos: usize) -> (r: Result<(Self, usize), ParseError>)
        requires
            pos <= s@.len(),
        ensures
            match r {
                Ok((m, j)) => sp_wall(s@, pos as int) == Some((m@, j as int)) && pos <= j
                    <= s@.len(),
                Err(_) => sp_wall(s@, pos as int) is None,
            },
    {
        let (kwtok, e) = parse_keyword_at(s, pos);
        if !chars_eq_str(&kwtok, "IFCWALL") {
            return Err(ParseError { pos: e, kind: ErrorKind::UnknownKeyword });
        }
        Self::parse_body_at(s, e)
    }

    /// Parses the attribute list after the keyword starting at `pos`.
    #[verifier::rlimit(80)]
    pub fn parse_body_at(s: &Vec<char>, pos: usize) -> (r: Result<(Self, usize), ParseError>)
        requires
            pos <= s@.len(),
        ensures
            match r {
                Ok((m, j)) => sp_wall_body(s@, pos as int) == Some((m@, j as int)) && pos <= j
                    <= s@.len(),
                Err(_) => sp_wall_body(s@, pos as int) is None,
            },
    {
        let p1 = expect_char(s, pos, '(')?;
        let (a_object, p2) = Object::parse_at(s, p1)?;
        let p3 = expect_char(s, p2, ',')?;
        let (a_object_placement, p4) = parse_opt_id_at(s, p3)?;
        let p5 = expect_char(s, p4, ',')?;
        let (a_representation, p6) = parse_opt_id_at(s, p5)?;
        let p7 = expect_char(s, p6, ',')?;
        let (a_tag, p8) = parse_opt_label_at(s, p7)?;
        let p9 = expect_char(s, p8, ')')?;
        let p10 = expect_char(s, p9, ';')?;
        Ok((Wall { object: a_object, object_placement: a_object_placement, representation: a_representation, tag: a_tag }, p10))
    }

    /// Parses a complete text that holds exactly one record of
    /// this kind.
    pub fn parse(s: &Vec<char>) -> (r: Result<Self, ParseError>)
        ensures
            match r {
                Ok(m) => sp_wall_full(s@) == Some(m@),
                Err(_) => sp_wall_full(s@) is None,
            },
    {
        match Self::parse_at(s, 0) {
            Ok((m, j)) => {
                let k = skip_ws(s, j);
                if k == s.len() {
                    Ok(m)
                } else {
                    Err(ParseError { pos: k, kind: ErrorKind::TrailingText })
                }
            },
            Err(e) => Err(e),
        }
    }

    /// Appends the canonical text of this record.
    #[verifier::rlimit(80)]
    pub fn render_into(&self, out: &mut Vec<char>)
        ensures
            final(out)@ == old(out)@ + rd_wall(self@),
    {
        let ghost o0 = out@;
        out.push('I');
        out.push('F');
        out.push('C');
        out.push('W');
        out.push('A');
        out.push('L');
        out.push('L');
        proof {
            reveal_strlit("IFCWALL");
            assert(out@ =~= o0 + kw_wall());
        }
        out.push('(');
        self.object.render_into(out);
        out.push(',');
        render_opt_id(&self.object_placement, out);
        out.push(',');
        render_opt_id(&self.representation, out);
        out.push(',');
        render_opt_label(&self.tag, out);
        out.push(')');
        out.push(';');
        proof {
            assert(out@ =~= o0 + rd_wall(self@));
        }
    }

    /// The canonical text of this record.
    pub fn render(&self) -> (out: Vec<char>)
        ensures
            out@ == rd_wall(self@),
    {
        let mut out: Vec<char> = Vec::new();
        self.render_into(&mut out);
        proof {
            assert(out@ =~= rd_wall(self@));
        }
        out
    }
}

/// Whatever this parser accepts is well formed.
#[verifier::rlimit(80)]
pub proof fn lemma_sp_wall_body_wf(s: Seq<char>, i: int)
    ensures
        sp_wall_body(s, i) matches Some(r) ==> wf_wall(r.0),
{
    if let Some(q1) = sp_char(s, i, '(') {
        lemma_sp_object_wf(s, q1);
        if let Some((a_object, q2)) = sp_object(s, q1) {
            if let Some(q3) = sp_char(s, q2, ',') {
                if let Some((a_object_placement, q4)) = sp_opt_id(s, q3) {
                    if let Some(q5) = sp_char(s, q4, ',') {
                        if let Some((a_representation, q6)) = sp_opt_id(s, q5) {
                            if let Some(q7) = sp_char(s, q6, ',') {
                                if let Some((a_tag, q8)) = sp_opt_label(s, q7) {
                                }
                            }
                        }
                    }
                }
            }
        }
    }
}

impl Root {
    /// A root part with the given globally unique identifier and
    /// everything else omitted.
    pub fn new(global_id: Label) -> (r: Self)
        ensures
            r@.global_id == global_id@,
            r@.owner_history is None,
            r@.name is None,
            r@.description is None,
    {
        Root {
            global_id,
            owner_history: OptionalParameter::Omitted,
            name: OptionalParameter::Omitted,
            description: OptionalParameter::Omitted,
        }
    }
}

impl Object {
    /// An object over the given root part, with its own type attribute
    /// omitted.
    pub fn new(root: Root) -> (r: Self)
        ensures
            r@.root == root@,
            r@.object_type is None,
    {
        Object { root, object_type: OptionalParameter::Omitted }
    }
}

/// Record kinds that are built on the shared object part: what a
/// builder needs to set the attributes every object carries.
pub trait ObjectBuilder: Sized {
    /// The object component of this record.
    spec fn object_spec(&self) -> ObjectV;

    /// The same value with only the object type label replaced; every
    /// implementing kind defines it as the exact field update, so the
    /// setter's contract carries the full frame.
    spec fn with_object_type(self, object_type: Label) -> Self;

    /// Sets the object type label of the shared object component and
    /// changes nothing else.
    fn object_type(self, object_type: Label) -> (r: Self)
        ensures
            r == self.with_object_type(object_type),
            r.object_spec().root == self.object_spec().root,
            r.object_spec().object_type == Some(object_type@),
    ;
}

impl ObjectBuilder for Wall {
    open spec fn object_spec(&self) -> ObjectV {
        self.object@
    }

    open spec fn with_object_type(self, object_type: Label) -> Wall {
        Wall {
            object: Object {
                root: self.object.root,
                object_type: OptionalParameter::Custom(object_type),
            },
            ..self
        }
    }

    fn object_type(self, object_type: Label) -> (r: Self) {
        Wall {
            object: Object {
                root: self.object.root,
                object_type: OptionalParameter::Custom(object_type),
            },
            ..self
        }
    }
}

/// The dispatcher over the object-domain record kinds: tries each
/// known keyword's codec in a fixed order.
pub struct Objects;

/// An object-domain record of any known kind.
pub open spec fn sp_objects(s: Seq<char>, i: int) -> Option<(crate::datamap::RecordV, int)> {
    match crate::datamap::sp_record(s, i) {
        None => None,
        Some((v, e)) => if v matches crate::datamap::RecordV::Wall(_) || v
            matches crate::datamap::RecordV::OwnerHistory(_) || v
            matches crate::datamap::RecordV::PersonAndOrganization(_) || v
            matches crate::datamap::RecordV::Application(_) {
            Some((v, e))
        } else {
            None
        },
    }
}

impl Objects {
    /// Parses one object-domain record: a wall, an owner history, a
    /// person-and-organization, or an application.
    pub fn parse(s: &Vec<char>, pos: usize) -> (r: Result<
        (crate::datamap::Record, usize),
        ParseError,
    >)
        requires
            pos <= s@.len(),
        ensures
            match r {
                Ok((m, j)) => sp_objects(s@, pos as int) == Some((m@, j as int)) && pos <= j
                    <= s@.len(),
                Err(_) => sp_objects(s@, pos as int) is None,
            },
    {
        match crate::datamap::Record::parse_at(s, pos) {
            Err(e) => Err(e),
            Ok((rec, j)) => {
                let ok = match &rec {
                    crate::datamap::Record::Wall(_) => true,
                    crate::datamap::Record::OwnerHistory(_) => true,
                    crate::datamap::Record::PersonAndOrganization(_) => true,
                    crate::datamap::Record::Application(_) => true,
                    _ => false,
                };
                if ok {
                    Ok((rec, j))
                } else {
                    Err(ParseError { pos, kind: ErrorKind::UnknownKeyword })
                }
            },
        }
    }
}

} // verus!
