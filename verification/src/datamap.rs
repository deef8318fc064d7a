//! The heterogeneous store and its record sum type.
//!
//! One container per document maps identifiers to type-erased record
//! values. Type erasure is a closed sum: every storable record kind is
//! one variant of [`Record`], and typed access goes through a
//! discriminant-checked match, never a pointer reinterpretation. The
//! store keeps its entries sorted by strictly ascending identifier, so
//! iteration (and so rendering) visits records in ascending order.

use crate::codec::{chars_eq_str, parse_keyword_at, sp_keyword, sp_ws, skip_ws, ErrorKind, ParseError};
use crate::geometry::{
    kw_arbitrary_closed_profile_def, kw_product_definition_shape, kw_rectangle_profile_def,
    kw_shape_representation, lemma_arbitrary_closed_profile_def_round_trip,
    lemma_product_definition_shape_round_trip, lemma_rectangle_profile_def_round_trip,
    lemma_shape_representation_round_trip, lemma_sp_arbitrary_closed_profile_def_body_wf,
    lemma_sp_product_definition_shape_body_wf, lemma_sp_rectangle_profile_def_body_wf,
    lemma_sp_shape_representation_body_wf, rd_arbitrary_closed_profile_def,
    rd_product_definition_shape, rd_rectangle_profile_def, rd_shape_representation,
    sp_arbitrary_closed_profile_def_body, sp_product_definition_shape_body,
    sp_rectangle_profile_def_body, sp_shape_representation_body, wf_arbitrary_closed_profile_def,
    wf_product_definition_shape, wf_rectangle_profile_def, wf_shape_representation,
    ArbitraryClosedProfileDef, ArbitraryClosedProfileDefV, IndexedPolyCurve,
    ProductDefinitionShape, ProductDefinitionShapeV, RectangleProfileDef, RectangleProfileDefV,
    ShapeRepresentation, ShapeRepresentationV,
};
use crate::id::Id;
use crate::material::{
    kw_material, lemma_material_round_trip, rd_material, sp_material_body, wf_material, Material,
    MaterialV,
};
use crate::objects::{
    kw_wall, lemma_sp_wall_body_wf, lemma_wall_round_trip, rd_wall, sp_wall_body, wf_wall, Wall,
    WallV,
};
use crate::owner_history::{
    kw_application, kw_owner_history, kw_person_and_organization, lemma_application_round_trip,
    lemma_owner_history_round_trip, lemma_person_and_organization_round_trip,
    lemma_sp_application_body_wf, lemma_sp_owner_history_body_wf,
    lemma_sp_person_and_organization_body_wf, rd_application, rd_owner_history,
    rd_person_and_organization, sp_application_body, sp_owner_history_body,
    sp_person_and_organization_body, wf_application, wf_owner_history,
    wf_person_and_organization, Application, ApplicationV, OwnerHistory, OwnerHistoryV,
    PersonAndOrganization, PersonAndOrganizationV,
};
use vstd::prelude::*;

verus! {

/// One type-erased record value: the closed sum of every record kind
/// the store can hold.
#[derive(Debug)]
pub enum Record {
    Material(Material),
    Wall(Wall),
    OwnerHistory(OwnerHistory),
    PersonAndOrganization(PersonAndOrganization),
    Application(Application),
    RectangleProfileDef(RectangleProfileDef),
    ProductDefinitionShape(ProductDefinitionShape),
    ShapeRepresentation(ShapeRepresentation),
    ArbitraryClosedProfileDef(ArbitraryClosedProfileDef<IndexedPolyCurve>),
}

/// The mathematical content of a [`Record`].
pub enum RecordV {
    Material(MaterialV),
    Wall(WallV),
    OwnerHistory(OwnerHistoryV),
    PersonAndOrganization(PersonAndOrganizationV),
    Application(ApplicationV),
    RectangleProfileDef(RectangleProfileDefV),
    ProductDefinitionShape(ProductDefinitionShapeV),
    ShapeRepresentation(ShapeRepresentationV),
    ArbitraryClosedProfileDef(ArbitraryClosedProfileDefV),
}

impl View for Record {
    type V = RecordV;

    open spec fn view(&self) -> RecordV {
        match self {
            Record::Material(v) => RecordV::Material(v@),
            Record::Wall(v) => RecordV::Wall(v@),
            Record::OwnerHistory(v) => RecordV::OwnerHistory(v@),
            Record::PersonAndOrganization(v) => RecordV::PersonAndOrganization(v@),
            Record::Application(v) => RecordV::Application(v@),
            Record::RectangleProfileDef(v) => RecordV::RectangleProfileDef(v@),
            Record::ProductDefinitionShape(v) => RecordV::ProductDefinitionShape(v@),
            Record::ShapeRepresentation(v) => RecordV::ShapeRepresentation(v@),
            Record::ArbitraryClosedProfileDef(v) => RecordV::ArbitraryClosedProfileDef(v@),
        }
    }
}

/// The canonical text of a record of any kind.
pub open spec fn rd_record(v: RecordV) -> Seq<char> {
    match v {
        RecordV::Material(x) => rd_material(x),
        RecordV::Wall(x) => rd_wall(x),
        RecordV::OwnerHistory(x) => rd_owner_history(x),
        RecordV::PersonAndOrganization(x) => rd_person_and_organization(x),
        RecordV::Application(x) => rd_application(x),
        RecordV::RectangleProfileDef(x) => rd_rectangle_profile_def(x),
        RecordV::ProductDefinitionShape(x) => rd_product_definition_shape(x),
        RecordV::ShapeRepresentation(x) => rd_shape_representation(x),
        RecordV::ArbitraryClosedProfileDef(x) => rd_arbitrary_closed_profile_def(x),
    }
}

/// Validity of the references and literals a record holds.
pub open spec fn wf_record(v: RecordV) -> bool {
    match v {
        RecordV::Material(x) => wf_material(x),
        RecordV::Wall(x) => wf_wall(x),
        RecordV::OwnerHistory(x) => wf_owner_history(x),
        RecordV::PersonAndOrganization(x) => wf_person_and_organization(x),
        RecordV::Application(x) => wf_application(x),
        RecordV::RectangleProfileDef(x) => wf_rectangle_profile_def(x),
        RecordV::ProductDefinitionShape(x) => wf_product_definition_shape(x),
        RecordV::ShapeRepresentation(x) => wf_shape_representation(x),
        RecordV::ArbitraryClosedProfileDef(x) => wf_arbitrary_closed_profile_def(x),
    }
}

/// A record of any known kind: one keyword parse, dispatched to the
/// codec of the kind the keyword names. Unknown keywords are a parse
/// error.
pub open spec fn sp_record(s: Seq<char>, i: int) -> Option<(RecordV, int)> {
    let (kwtok, e) = sp_keyword(s, i);
    if kwtok == kw_material() {
        match sp_material_body(s, e) {
            Some((v, j)) => Some((RecordV::Material(v), j)),
            None => None,
        }
    } else if kwtok == kw_wall() {
        match sp_wall_body(s, e) {
            Some((v, j)) => Some((RecordV::Wall(v), j)),
            None => None,
        }
    } else if kwtok == kw_owner_history() {
        match sp_owner_history_body(s, e) {
            Some((v, j)) => Some((RecordV::OwnerHistory(v), j)),
            None => None,
        }
    } else if kwtok == kw_person_and_organization() {
        match sp_person_and_organization_body(s, e) {
            Some((v, j)) => Some((RecordV::PersonAndOrganization(v), j)),
            None => None,
        }
    } else if kwtok == kw_application() {
        match sp_application_body(s, e) {
            Some((v, j)) => Some((RecordV::Application(v), j)),
            None => None,
        }
    } else if kwtok == kw_rectangle_profile_def() {
        match sp_rectangle_profile_def_body(s, e) {
            Some((v, j)) => Some((RecordV::RectangleProfileDef(v), j)),
            None => None,
        }
    } else if kwtok == kw_product_definition_shape() {
        match sp_product_definition_shape_body(s, e) {
            Some((v, j)) => Some((RecordV::ProductDefinitionShape(v), j)),
            None => None,
        }
    } else if kwtok == kw_shape_representation() {
        match sp_shape_representation_body(s, e) {
            Some((v, j)) => Some((RecordV::ShapeRepresentation(v), j)),
            None => None,
        }
    } else if kwtok == kw_arbitrary_closed_profile_def() {
        match sp_arbitrary_closed_profile_def_body(s, e) {
            Some((v, j)) => Some((RecordV::ArbitraryClosedProfileDef(v), j)),
            None => None,
        }
    } else {
        None
    }
}

/// The per-kind round-trip law: for every record kind, parsing the
/// canonical text of a well-formed record yields the record back and
/// consumes exactly its text; rendering what was parsed reproduces the
/// text.
#[verifier::rlimit(100)]
pub proof fn lemma_record_round_trip(s: Seq<char>, i: int, v: RecordV)
    requires
        0 <= i,
        i + rd_record(v).len() <= s.len(),
        s.subrange(i, i + rd_record(v).len()) == rd_record(v),
        wf_record(v),
    ensures
        sp_record(s, i) == Some((v, i + rd_record(v).len())),
{
    reveal_strlit("IFCMATERIAL");
    reveal_strlit("IFCWALL");
    reveal_strlit("IFCOWNERHISTORY");
    reveal_strlit("IFCPERSONANDORGANIZATION");
    reveal_strlit("IFCAPPLICATION");
    reveal_strlit("IFCRECTANGLEPROFILEDEF");
    reveal_strlit("IFCPRODUCTDEFINITIONSHAPE");
    reveal_strlit("IFCSHAPEREPRESENTATION");
    reveal_strlit("IFCARBITRARYCLOSEDPROFILEDEF");
    assert("IFCSHAPEREPRESENTATION"@[3] != "IFCRECTANGLEPROFILEDEF"@[3]);
    match v {
        RecordV::Material(x) => {
            lemma_material_round_trip(s, i, x);
        },
        RecordV::Wall(x) => {
            lemma_wall_round_trip(s, i, x);
        },
        RecordV::OwnerHistory(x) => {
            lemma_owner_history_round_trip(s, i, x);
        },
        RecordV::PersonAndOrganization(x) => {
            lemma_person_and_organization_round_trip(s, i, x);
        },
        RecordV::Application(x) => {
            lemma_application_round_trip(s, i, x);
        },
        RecordV::RectangleProfileDef(x) => {
            lemma_rectangle_profile_def_round_trip(s, i, x);
        },
        RecordV::ProductDefinitionShape(x) => {
            lemma_product_definition_shape_round_trip(s, i, x);
        },
        RecordV::ShapeRepresentation(x) => {
            lemma_shape_representation_round_trip(s, i, x);
        },
        RecordV::ArbitraryClosedProfileDef(x) => {
            lemma_arbitrary_closed_profile_def_round_trip(s, i, x);
        },
    }
}

/// Whatever the record parser accepts is well formed.
pub proof fn lemma_sp_record_wf(s: Seq<char>, i: int)
    ensures
        sp_record(s, i) matches Some(r) ==> wf_record(r.0),
{
    let (kwtok, e) = sp_keyword(s, i);
    // a material holds no references; its validity is immediate
    lemma_sp_wall_body_wf(s, e);
    lemma_sp_owner_history_body_wf(s, e);
    lemma_sp_person_and_organization_body_wf(s, e);
    lemma_sp_application_body_wf(s, e);
    lemma_sp_rectangle_profile_def_body_wf(s, e);
    lemma_sp_product_definition_shape_body_wf(s, e);
    lemma_sp_shape_representation_body_wf(s, e);
    lemma_sp_arbitrary_closed_profile_def_body_wf(s, e);
}

impl Record {
    /// Parses one record of any known kind starting at `pos`:
    /// keyword-dispatched over every codec in a fixed order.
    pub fn parse_at(s: &Vec<char>, pos: usize) -> (r: Result<(Record, usize), ParseError>)
        requires
            pos <= s@.len(),
        ensures
            match r {
                Ok((m, j)) => sp_record(s@, pos as int) == Some((m@, j as int)) && pos <= j
                    <= s@.len(),
                Err(_) => sp_record(s@, pos as int) is None,
            },
    {
        let (kwtok, e) = parse_keyword_at(s, pos);
        if chars_eq_str(&kwtok, "IFCMATERIAL") {
            match Material::parse_body_at(s, e) {
                Ok((v, j)) => Ok((Record::Material(v), j)),
                Err(er) => Err(er),
            }
        } else if chars_eq_str(&kwtok, "IFCWALL") {
            match Wall::parse_body_at(s, e) {
                Ok((v, j)) => Ok((Record::Wall(v), j)),
                Err(er) => Err(er),
            }
        } else if chars_eq_str(&kwtok, "IFCOWNERHISTORY") {
            match OwnerHistory::parse_body_at(s, e) {
                Ok((v, j)) => Ok((Record::OwnerHistory(v), j)),
                Err(er) => Err(er),
            }
        } else if chars_eq_str(&kwtok, "IFCPERSONANDORGANIZATION") {
            match PersonAndOrganization::parse_body_at(s, e) {
                Ok((v, j)) => Ok((Record::PersonAndOrganization(v), j)),
                Err(er) => Err(er),
            }
        } else if chars_eq_str(&kwtok, "IFCAPPLICATION") {
            match Application::parse_body_at(s, e) {
                Ok((v, j)) => Ok((Record::Application(v), j)),
                Err(er) => Err(er),
            }
        } else if chars_eq_str(&kwtok, "IFCRECTANGLEPROFILEDEF") {
            match RectangleProfileDef::parse_body_at(s, e) {
                Ok((v, j)) => Ok((Record::RectangleProfileDef(v), j)),
                Err(er) => Err(er),
            }
        } else if chars_eq_str(&kwtok, "IFCPRODUCTDEFINITIONSHAPE") {
            match ProductDefinitionShape::parse_body_at(s, e) {
                Ok((v, j)) => Ok((Record::ProductDefinitionShape(v), j)),
                Err(er) => Err(er),
            }
        } else if chars_eq_str(&kwtok, "IFCSHAPEREPRESENTATION") {
            match ShapeRepresentation::parse_body_at(s, e) {
                Ok((v, j)) => Ok((Record::ShapeRepresentation(v), j)),
                Err(er) => Err(er),
            }
        } else if chars_eq_str(&kwtok, "IFCARBITRARYCLOSEDPROFILEDEF") {
            match ArbitraryClosedProfileDef::<IndexedPolyCurve>::parse_body_at(s, e) {
                Ok((v, j)) => Ok((Record::ArbitraryClosedProfileDef(v), j)),
                Err(er) => Err(er),
            }
        } else {
            Err(ParseError { pos: e, kind: ErrorKind::UnknownKeyword })
        }
    }

    /// Appends the canonical text of this record.
    pub fn render_into(&self, out: &mut Vec<char>)
        ensures
            final(out)@ == old(out)@ + rd_record(self@),
    {
        match self {
            Record::Material(v) => {
                v.render_into(out);
            },
            Record::Wall(v) => {
                v.render_into(out);
            },
            Record::OwnerHistory(v) => {
                v.render_into(out);
            },
            Record::PersonAndOrganization(v) => {
                v.render_into(out);
            },
            Record::Application(v) => {
                v.render_into(out);
            },
            Record::RectangleProfileDef(v) => {
                v.render_into(out);
            },
            Record::ProductDefinitionShape(v) => {
                v.render_into(out);
            },
            Record::ShapeRepresentation(v) => {
                v.render_into(out);
            },
            Record::ArbitraryClosedProfileDef(v) => {
                v.render_into(out);
            },
        }
    }

    /// The canonical text of this record.
    pub fn render(&self) -> (out: Vec<char>)
        ensures
            out@ == rd_record(self@),
    {
        let mut out: Vec<char> = Vec::new();
        self.render_into(&mut out);
        proof {
            assert(out@ =~= rd_record(self@));
        }
        out
    }
}

/// The record kinds the store can hold: what a typed handle needs to
/// wrap a value into the sum and to get it back out under a
/// discriminant check.
pub trait ParsedIfcType: Sized {
    /// Whether the type-erased record holds a value of this kind.
    spec fn fits(r: Record) -> bool;

    /// The record variant this value wraps into.
    spec fn wrap_spec(self) -> Record;

    /// Wrapping always yields a fitting record.
    proof fn lemma_wrap_fits(self)
        ensures
            Self::fits(self.wrap_spec()),
    ;

    /// Two values wrapping to the same record are the same value.
    proof fn lemma_wrap_injective(a: Self, b: Self)
        requires
            a.wrap_spec() == b.wrap_spec(),
        ensures
            a == b,
    ;

    /// Erases the type of this value.
    fn wrap(self) -> (r: Record)
        ensures
            r == self.wrap_spec(),
    ;

    /// Recovers the value from a fitting record.
    fn unwrap(r: Record) -> (v: Self)
        requires
            Self::fits(r),
        ensures
            v.wrap_spec() == r,
    ;

    /// Borrows the value inside a fitting record.
    fn unwrap_ref(r: &Record) -> (v: &Self)
        requires
            Self::fits(*r),
        ensures
            v.wrap_spec() == *r,
    ;

    /// Mutably borrows the value inside a fitting record; whatever the
    /// borrower leaves behind is what the record then wraps.
    fn unwrap_mut(r: &mut Record) -> (v: &mut Self)
        requires
            Self::fits(*old(r)),
        ensures
            (*v).wrap_spec() == *old(r),
            *final(r) == final(v).wrap_spec(),
    ;
}

/// Record kinds with a defined default value, used to pre-seed
/// optional backing records. The default's content is fixed at the
/// spec level, so seeding is pinned to exactly that value.
pub trait DefaultRecord: ParsedIfcType {
    /// The content of the defined default value.
    spec fn spec_default() -> RecordV;

    /// The defined default value.
    fn default_value() -> (r: Self)
        ensures
            r.wrap_spec()@ == Self::spec_default(),
    ;
}

impl DefaultRecord for Material {
    open spec fn spec_default() -> RecordV {
        RecordV::Material(MaterialV { material: None, description: None, category: None })
    }

    fn default_value() -> (r: Self) {
        Material::default()
    }
}

impl ParsedIfcType for Material {
    open spec fn fits(r: Record) -> bool {
        r matches Record::Material(_)
    }

    open spec fn wrap_spec(self) -> Record {
        Record::Material(self)
    }

    proof fn lemma_wrap_fits(self) {
    }

    proof fn lemma_wrap_injective(a: Self, b: Self) {
    }

    fn wrap(self) -> (r: Record) {
        Record::Material(self)
    }

    fn unwrap(r: Record) -> (v: Self) {
        match r {
            Record::Material(v) => v,
            _ => vstd::pervasive::unreached(),
        }
    }

    fn unwrap_ref(r: &Record) -> (v: &Self) {
        match r {
            Record::Material(v) => v,
            _ => vstd::pervasive::unreached(),
        }
    }

    fn unwrap_mut(r: &mut Record) -> (v: &mut Self) {
        match r {
            Record::Material(v) => v,
            _ => vstd::pervasive::unreached(),
        }
    }
}

impl ParsedIfcType for Wall {
    open spec fn fits(r: Record) -> bool {
        r matches Record::Wall(_)
    }

    open spec fn wrap_spec(self) -> Record {
        Record::Wall(self)
    }

    proof fn lemma_wrap_fits(self) {
    }

    proof fn lemma_wrap_injective(a: Self, b: Self) {
    }

    fn wrap(self) -> (r: Record) {
        Record::Wall(self)
    }

    fn unwrap(r: Record) -> (v: Self) {
        match r {
            Record::Wall(v) => v,
            _ => vstd::pervasive::unreached(),
        }
    }

    fn unwrap_ref(r: &Record) -> (v: &Self) {
        match r {
            Record::Wall(v) => v,
            _ => vstd::pervasive::unreached(),
        }
    }

    fn unwrap_mut(r: &mut Record) -> (v: &mut Self) {
        match r {
            Record::Wall(v) => v,
            _ => vstd::pervasive::unreached(),
        }
    }
}

impl ParsedIfcType for OwnerHistory {
    open spec fn fits(r: Record) -> bool {
        r matches Record::OwnerHistory(_)
    }

    open spec fn wrap_spec(self) -> Record {
        Record::OwnerHistory(self)
    }

    proof fn lemma_wrap_fits(self) {
    }

    proof fn lemma_wrap_injective(a: Self, b: Self) {
    }

    fn wrap(self) -> (r: Record) {
        Record::OwnerHistory(self)
    }

    fn unwrap(r: Record) -> (v: Self) {
        match r {
            Record::OwnerHistory(v) => v,
            _ => vstd::pervasive::unreached(),
        }
    }

    fn unwrap_ref(r: &Record) -> (v: &Self) {
        match r {
            Record::OwnerHistory(v) => v,
            _ => vstd::pervasive::unreached(),
        }
    }

    fn unwrap_mut(r: &mut Record) -> (v: &mut Self) {
        match r {
            Record::OwnerHistory(v) => v,
            _ => vstd::pervasive::unreached(),
        }
    }
}

impl ParsedIfcType for PersonAndOrganization {
    open spec fn fits(r: Record) -> bool {
        r matches Record::PersonAndOrganization(_)
    }

    open spec fn wrap_spec(self) -> Record {
        Record::PersonAndOrganization(self)
    }

    proof fn lemma_wrap_fits(self) {
    }

    proof fn lemma_wrap_injective(a: Self, b: Self) {
    }

    fn wrap(self) -> (r: Record) {
        Record::PersonAndOrganization(self)
    }

    fn unwrap(r: Record) -> (v: Self) {
        match r {
            Record::PersonAndOrganization(v) => v,
            _ => vstd::pervasive::unreached(),
        }
    }

    fn unwrap_ref(r: &Record) -> (v: &Self) {
        match r {
            Record::PersonAndOrganization(v) => v,
            _ => vstd::pervasive::unreached(),
        }
    }

    fn unwrap_mut(r: &mut Record) -> (v: &mut Self) {
        match r {
            Record::PersonAndOrganization(v) => v,
            _ => vstd::pervasive::unreached(),
        }
    }
}

impl ParsedIfcType for Application {
    open spec fn fits(r: Record) -> bool {
        r matches Record::Application(_)
    }

    open spec fn wrap_spec(self) -> Record {
        Record::Application(self)
    }

    proof fn lemma_wrap_fits(self) {
    }

    proof fn lemma_wrap_injective(a: Self, b: Self) {
    }

    fn wrap(self) -> (r: Record) {
        Record::Application(self)
    }

    fn unwrap(r: Record) -> (v: Self) {
        match r {
            Record::Application(v) => v,
            _ => vstd::pervasive::unreached(),
        }
    }

    fn unwrap_ref(r: &Record) -> (v: &Self) {
        match r {
            Record::Application(v) => v,
            _ => vstd::pervasive::unreached(),
        }
    }

    fn unwrap_mut(r: &mut Record) -> (v: &mut Self) {
        match r {
            Record::Application(v) => v,
            _ => vstd::pervasive::unreached(),
        }
    }
}

impl ParsedIfcType for RectangleProfileDef {
    open spec fn fits(r: Record) -> bool {
        r matches Record::RectangleProfileDef(_)
    }

    open spec fn wrap_spec(self) -> Record {
        Record::RectangleProfileDef(self)
    }

    proof fn lemma_wrap_fits(self) {
    }

    proof fn lemma_wrap_injective(a: Self, b: Self) {
    }

    fn wrap(self) -> (r: Record) {
        Record::RectangleProfileDef(self)
    }

    fn unwrap(r: Record) -> (v: Self) {
        match r {
            Record::RectangleProfileDef(v) => v,
            _ => vstd::pervasive::unreached(),
        }
    }

    fn unwrap_ref(r: &Record) -> (v: &Self) {
        match r {
            Record::RectangleProfileDef(v) => v,
            _ => vstd::pervasive::unreached(),
        }
    }

    fn unwrap_mut(r: &mut Record) -> (v: &mut Self) {
        match r {
            Record::RectangleProfileDef(v) => v,
            _ => vstd::pervasive::unreached(),
        }
    }
}

impl ParsedIfcType for ProductDefinitionShape {
    open spec fn fits(r: Record) -> bool {
        r matches Record::ProductDefinitionShape(_)
    }

    open spec fn wrap_spec(self) -> Record {
        Record::ProductDefinitionShape(self)
    }

    proof fn lemma_wrap_fits(self) {
    }

    proof fn lemma_wrap_injective(a: Self, b: Self) {
    }

    fn wrap(self) -> (r: Record) {
        Record::ProductDefinitionShape(self)
    }

    fn unwrap(r: Record) -> (v: Self) {
        match r {
            Record::ProductDefinitionShape(v) => v,
            _ => vstd::pervasive::unreached(),
        }
    }

    fn unwrap_ref(r: &Record) -> (v: &Self) {
        match r {
            Record::ProductDefinitionShape(v) => v,
            _ => vstd::pervasive::unreached(),
        }
    }

    fn unwrap_mut(r: &mut Record) -> (v: &mut Self) {
        match r {
            Record::ProductDefinitionShape(v) => v,
            _ => vstd::pervasive::unreached(),
        }
    }
}

impl ParsedIfcType for ShapeRepresentation {
    open spec fn fits(r: Record) -> bool {
        r matches Record::ShapeRepresentation(_)
    }

    open spec fn wrap_spec(self) -> Record {
        Record::ShapeRepresentation(self)
    }

    proof fn lemma_wrap_fits(self) {
    }

    proof fn lemma_wrap_injective(a: Self, b: Self) {
    }

    fn wrap(self) -> (r: Record) {
        Record::ShapeRepresentation(self)
    }

    fn unwrap(r: Record) -> (v: Self) {
        match r {
            Record::ShapeRepresentation(v) => v,
            _ => vstd::pervasive::unreached(),
        }
    }

    fn unwrap_ref(r: &Record) -> (v: &Self) {
        match r {
            Record::ShapeRepresentation(v) => v,
            _ => vstd::pervasive::unreached(),
        }
    }

    fn unwrap_mut(r: &mut Record) -> (v: &mut Self) {
        match r {
            Record::ShapeRepresentation(v) => v,
            _ => vstd::pervasive::unreached(),
        }
    }
}

impl ParsedIfcType for ArbitraryClosedProfileDef<IndexedPolyCurve> {
    open spec fn fits(r: Record) -> bool {
        r matches Record::ArbitraryClosedProfileDef(_)
    }

    open spec fn wrap_spec(self) -> Record {
        Record::ArbitraryClosedProfileDef(self)
    }

    proof fn lemma_wrap_fits(self) {
    }

    proof fn lemma_wrap_injective(a: Self, b: Self) {
    }

    fn wrap(self) -> (r: Record) {
        Record::ArbitraryClosedProfileDef(self)
    }

    fn unwrap(r: Record) -> (v: Self) {
        match r {
            Record::ArbitraryClosedProfileDef(v) => v,
            _ => vstd::pervasive::unreached(),
        }
    }

    fn unwrap_ref(r: &Record) -> (v: &Self) {
        match r {
            Record::ArbitraryClosedProfileDef(v) => v,
            _ => vstd::pervasive::unreached(),
        }
    }

    fn unwrap_mut(r: &mut Record) -> (v: &mut Self) {
        match r {
            Record::ArbitraryClosedProfileDef(v) => v,
            _ => vstd::pervasive::unreached(),
        }
    }
}

/// The document-scoped heterogeneous store: all records of one
/// document keyed by identifier, held sorted by strictly ascending
/// identifier so that iteration and rendering visit them in the order
/// a conformant reader expects.
#[derive(Debug)]
pub struct DataMap {
    entries: Vec<(u64, Record)>,
}

impl View for DataMap {
    type V = Seq<(u64, Record)>;

    closed spec fn view(&self) -> Seq<(u64, Record)> {
        self.entries@
    }
}

impl DataMap {
    /// The store invariant: identifiers strictly ascending (so unique)
    /// and strictly positive.
    pub open spec fn wf(self) -> bool {
        &&& forall|a: int, b: int|
            0 <= a < b < self@.len() ==> #[trigger] self@[a].0 < #[trigger] self@[b].0
        &&& forall|k: int| 0 <= k < self@.len() ==> (#[trigger] self@[k].0) >= 1
    }

    /// Whether a record is stored under the identifier.
    pub open spec fn spec_contains(self, id: u64) -> bool {
        exists|k: int| 0 <= k < self@.len() && (#[trigger] self@[k].0) == id
    }

    /// The index of the entry stored under the identifier.
    pub open spec fn idx_of(self, id: u64) -> int {
        choose|k: int| 0 <= k < self@.len() && (#[trigger] self@[k].0) == id
    }

    /// The record stored under the identifier, if any.
    pub open spec fn spec_get(self, id: u64) -> Option<Record> {
        if self.spec_contains(id) {
            Some(self@[self.idx_of(id)].1)
        } else {
            None
        }
    }

    /// In a well-formed store each identifier names at most one entry,
    /// so the entry at any matching index is the stored record.
    pub proof fn lemma_get_at(self, k: int)
        requires
            self.wf(),
            0 <= k < self@.len(),
        ensures
            self.spec_contains(self@[k].0),
            self.idx_of(self@[k].0) == k,
            self.spec_get(self@[k].0) == Some(self@[k].1),
    {
        let id = self@[k].0;
        assert(self.spec_contains(id));
        let j = self.idx_of(id);
        if j != k {
            if j < k {
                assert(self@[j].0 < self@[k].0);
            } else {
                assert(self@[k].0 < self@[j].0);
            }
        }
    }

    /// An empty store.
    pub fn new() -> (r: Self)
        ensures
            r@ == Seq::<(u64, Record)>::empty(),
            r.wf(),
    {
        let entries: Vec<(u64, Record)> = Vec::new();
        proof {
            assert(entries@ =~= Seq::<(u64, Record)>::empty());
        }
        DataMap { entries }
    }

    /// The number of stored records.
    pub fn len(&self) -> (r: usize)
        ensures
            r == self@.len(),
    {
        self.entries.len()
    }

    /// The entry at one iteration position: entries come in strictly
    /// ascending identifier order.
    pub fn entry_at(&self, k: usize) -> (r: &(u64, Record))
        requires
            k < self@.len(),
        ensures
            *r == self@[k as int],
    {
        &self.entries[k]
    }

    /// The first position whose identifier is not below `id`.
    fn lower_bound(&self, id: u64) -> (p: usize)
        requires
            self.wf(),
        ensures
            p <= self@.len(),
            forall|k: int| 0 <= k < p ==> (#[trigger] self@[k].0) < id,
            p < self@.len() ==> self@[p as int].0 >= id,
    {
        let n = self.entries.len();
        let mut p: usize = 0;
        while p < n && self.entries[p].0 < id
            invariant
                0 <= p <= n,
                n == self@.len(),
                forall|k: int| 0 <= k < p ==> (#[trigger] self@[k].0) < id,
            decreases n - p,
        {
            p = p + 1;
        }
        p
    }

    /// Whether the store holds a record under the identifier.
    pub fn contains(&self, id: Id) -> (r: bool)
        requires
            self.wf(),
        ensures
            r == self.spec_contains(id@),
    {
        let p = self.lower_bound(id.0);
        if p < self.entries.len() && self.entries[p].0 == id.0 {
            proof {
                assert(self.spec_contains(id@));
            }
            true
        } else {
            proof {
                assert forall|k: int|
                    0 <= k < self@.len() implies (#[trigger] self@[k].0) != id@ by {
                    if k >= p {
                        if k > p {
                            assert(self@[p as int].0 < self@[k].0);
                        }
                    }
                }
            }
            false
        }
    }

    /// Inserts a record under the identifier, overwriting and returning
    /// any previous value there, typed by the caller's expected kind.
    /// The identifier keeps its place in the ascending order.
    #[verifier::rlimit(60)]
    pub fn insert<T: ParsedIfcType>(&mut self, id: Id, value: T) -> (r: Option<T>)
        requires
            old(self).wf(),
            id@ >= 1,
            old(self).spec_get(id@) matches Some(prev) ==> T::fits(prev),
        ensures
            final(self).wf(),
            final(self).spec_contains(id@),
            final(self).spec_get(id@) == Some(value.wrap_spec()),
            forall|q: u64| q != id@ ==> final(self).spec_get(q) == old(self).spec_get(q),
            match r {
                Some(prev) => old(self).spec_get(id@) == Some(prev.wrap_spec()),
                None => old(self).spec_get(id@) is None,
            },
            final(self)@.len() == old(self)@.len() + (if old(self).spec_contains(id@) {
                0int
            } else {
                1int
            }),
    {
        let ghost pre = *self;
        let p = self.lower_bound(id.0);
        let n = self.entries.len();
        if p < n && self.entries[p].0 == id.0 {
            proof {
                pre.lemma_get_at(p as int);
            }
            let prev_pair = self.entries.remove(p);
            self.entries.insert(p, (id.0, value.wrap()));
            proof {
                assert(self@ =~= pre@.update(p as int, (id@, value.wrap_spec())));
                assert(final(self)@.len() == pre@.len());
                self.lemma_insert_like(pre, id@, value.wrap_spec(), p as int);
            }
            Some(T::unwrap(prev_pair.1))
        } else {
            proof {
                assert forall|k: int|
                    0 <= k < pre@.len() implies (#[trigger] pre@[k].0) != id@ by {
                    if k >= p {
                        if k > p {
                            assert(pre@[p as int].0 < pre@[k].0);
                        }
                    }
                }
                assert(!pre.spec_contains(id@));
            }
            self.entries.insert(p, (id.0, value.wrap()));
            proof {
                assert(self@ == pre@.insert(p as int, (id@, value.wrap_spec())));
                self.lemma_inserted_fresh(pre, id@, value.wrap_spec(), p as int);
            }
            None
        }
    }

    /// After replacing the entry at a matching index — as `insert` on a
    /// present identifier does, and as a borrower through `get_mut`
    /// does — lookups see the new record there and everything else
    /// unchanged.
    pub proof fn lemma_insert_like(self, pre: DataMap, id: u64, w: Record, p: int)
        requires
            pre.wf(),
            0 <= p < pre@.len(),
            pre@[p].0 == id,
            self@ == pre@.update(p, (id, w)),
        ensures
            self.wf(),
            self.spec_contains(id),
            self.spec_get(id) == Some(w),
            forall|q: u64| q != id ==> self.spec_get(q) == pre.spec_get(q),
    {
        assert(self.wf());
        self.lemma_get_at(p);
        assert forall|q: u64| q != id implies self.spec_get(q) == pre.spec_get(q) by {
            if pre.spec_contains(q) {
                let k = pre.idx_of(q);
                assert(pre@[k].0 == q);
                assert(k != p);
                assert(self@[k] == pre@[k]);
                self.lemma_get_at(k);
                pre.lemma_get_at(k);
            } else {
                if self.spec_contains(q) {
                    let k = self.idx_of(q);
                    assert(self@[k].0 == q);
                    assert(k != p);
                    assert(pre@[k].0 == q);
                    assert(pre.spec_contains(q));
                }
            }
        }
    }

    /// After inserting a fresh entry at its sorted position, lookups
    /// see the new record under its identifier and everything else
    /// unchanged.
    proof fn lemma_inserted_fresh(self, pre: DataMap, id: u64, w: Record, p: int)
        requires
            pre.wf(),
            id >= 1,
            0 <= p <= pre@.len(),
            forall|k: int| 0 <= k < p ==> (#[trigger] pre@[k].0) < id,
            p < pre@.len() ==> pre@[p].0 > id,
            self@ == pre@.insert(p, (id, w)),
        ensures
            self.wf(),
            self.spec_contains(id),
            self.spec_get(id) == Some(w),
            forall|q: u64| q != id ==> self.spec_get(q) == pre.spec_get(q),
    {
        assert(self@.len() == pre@.len() + 1);
        assert forall|a: int, b: int|
            0 <= a < b < self@.len() implies #[trigger] self@[a].0 < #[trigger] self@[b].0 by {
            let pa = if a < p { pre@[a].0 } else if a == p { id } else { pre@[a - 1].0 };
            assert(self@[a].0 == pa);
            let pb = if b < p { pre@[b].0 } else if b == p { id } else { pre@[b - 1].0 };
            assert(self@[b].0 == pb);
            if a < p && b > p {
                assert(pre@[a].0 < id);
                if p < pre@.len() {
                    assert(pre@[p].0 > id);
                }
                if b - 1 > p {
                    assert(pre@[p].0 < pre@[b - 1].0);
                }
            }
        }
        assert forall|k: int| 0 <= k < self@.len() implies (#[trigger] self@[k].0) >= 1 by {
            if k < p {
                assert(self@[k] == pre@[k]);
            } else if k > p {
                assert(self@[k] == pre@[k - 1]);
            }
        }
        assert(self@[p] == (id, w));
        self.lemma_get_at(p);
        assert forall|q: u64| q != id implies self.spec_get(q) == pre.spec_get(q) by {
            if pre.spec_contains(q) {
                let k = pre.idx_of(q);
                assert(pre@[k].0 == q);
                if k < p {
                    assert(self@[k] == pre@[k]);
                    self.lemma_get_at(k);
                } else {
                    assert(self@[k + 1] == pre@[k]);
                    self.lemma_get_at(k + 1);
                }
                pre.lemma_get_at(k);
            } else {
                if self.spec_contains(q) {
                    let k = self.idx_of(q);
                    assert(self@[k].0 == q);
                    assert(k != p);
                    if k < p {
                        assert(pre@[k].0 == q);
                        assert(pre.spec_contains(q));
                    } else {
                        assert(pre@[k - 1].0 == q);
                        assert(pre.spec_contains(q));
                    }
                }
            }
        }
    }

    /// Removes and returns the record under the identifier, typed by
    /// the caller's expected kind.
    #[verifier::rlimit(60)]
    pub fn remove<T: ParsedIfcType>(&mut self, id: Id) -> (r: Option<T>)
        requires
            old(self).wf(),
            old(self).spec_get(id@) matches Some(prev) ==> T::fits(prev),
        ensures
            final(self).wf(),
            !final(self).spec_contains(id@),
            forall|q: u64| q != id@ ==> final(self).spec_get(q) == old(self).spec_get(q),
            match r {
                Some(prev) => old(self).spec_get(id@) == Some(prev.wrap_spec()),
                None => old(self).spec_get(id@) is None,
            },
    {
        let ghost pre = *self;
        match self.remove_untyped(id) {
            Some(prev) => {
                proof {
                    assert(pre.spec_get(id@) == Some(prev));
                }
                Some(T::unwrap(prev))
            },
            None => None,
        }
    }

    /// Removes and returns the record under the identifier without
    /// knowing its kind, for document-wide passes.
    #[verifier::rlimit(60)]
    pub fn remove_untyped(&mut self, id: Id) -> (r: Option<Record>)
        requires
            old(self).wf(),
        ensures
            final(self).wf(),
            !final(self).spec_contains(id@),
            forall|q: u64| q != id@ ==> final(self).spec_get(q) == old(self).spec_get(q),
            match r {
                Some(prev) => old(self).spec_get(id@) == Some(prev),
                None => old(self).spec_get(id@) is None,
            },
            final(self)@.len() == old(self)@.len() - (if old(self).spec_contains(id@) {
                1int
            } else {
                0int
            }),
    {
        let ghost pre = *self;
        let p = self.lower_bound(id.0);
        let n = self.entries.len();
        if p < n && self.entries[p].0 == id.0 {
            proof {
                pre.lemma_get_at(p as int);
            }
            let prev_pair = self.entries.remove(p);
            proof {
                assert(self@ == pre@.remove(p as int));
                self.lemma_removed(pre, id@, p as int);
            }
            Some(prev_pair.1)
        } else {
            proof {
                assert forall|k: int|
                    0 <= k < pre@.len() implies (#[trigger] pre@[k].0) != id@ by {
                    if k >= p {
                        if k > p {
                            assert(pre@[p as int].0 < pre@[k].0);
                        }
                    }
                }
                assert(!pre.spec_contains(id@));
            }
            None
        }
    }

    /// After removing the entry at a matching index, the identifier is
    /// gone and everything else is unchanged.
    proof fn lemma_removed(self, pre: DataMap, id: u64, p: int)
        requires
            pre.wf(),
            0 <= p < pre@.len(),
            pre@[p].0 == id,
            self@ == pre@.remove(p),
        ensures
            self.wf(),
            !self.spec_contains(id),
            forall|q: u64| q != id ==> self.spec_get(q) == pre.spec_get(q),
    {
        assert(self@.len() == pre@.len() - 1);
        assert forall|a: int, b: int|
            0 <= a < b < self@.len() implies #[trigger] self@[a].0 < #[trigger] self@[b].0 by {
            let pa = if a < p { pre@[a].0 } else { pre@[a + 1].0 };
            assert(self@[a].0 == pa);
            let pb = if b < p { pre@[b].0 } else { pre@[b + 1].0 };
            assert(self@[b].0 == pb);
        }
        assert forall|k: int| 0 <= k < self@.len() implies (#[trigger] self@[k].0) >= 1 by {
            if k < p {
                assert(self@[k] == pre@[k]);
            } else {
                assert(self@[k] == pre@[k + 1]);
            }
        }
        if self.spec_contains(id) {
            let k = self.idx_of(id);
            assert(self@[k].0 == id);
            if k < p {
                assert(pre@[k].0 == id);
                assert(pre@[k].0 < pre@[p].0);
            } else {
                assert(pre@[k + 1].0 == id);
                assert(pre@[p].0 < pre@[k + 1].0);
            }
        }
        assert forall|q: u64| q != id implies self.spec_get(q) == pre.spec_get(q) by {
            if pre.spec_contains(q) {
                let k = pre.idx_of(q);
                assert(pre@[k].0 == q);
                assert(k != p);
                if k < p {
                    assert(self@[k] == pre@[k]);
                    self.lemma_get_at(k);
                } else {
                    assert(self@[k - 1] == pre@[k]);
                    self.lemma_get_at(k - 1);
                }
                pre.lemma_get_at(k);
            } else {
                if self.spec_contains(q) {
                    let k = self.idx_of(q);
                    assert(self@[k].0 == q);
                    if k < p {
                        assert(pre@[k].0 == q);
                        assert(pre.spec_contains(q));
                    } else {
                        assert(pre@[k + 1].0 == q);
                        assert(pre.spec_contains(q));
                    }
                }
            }
        }
    }

    /// A typed borrow of the record under the identifier. The caller
    /// holds a typed reference proving presence and kind, so absence or
    /// a kind mismatch is a programming error, ruled out here by the
    /// precondition rather than detected at run time.
    pub fn get<T: ParsedIfcType>(&self, id: Id) -> (v: &T)
        requires
            self.wf(),
            self.spec_contains(id@),
            T::fits(self.spec_get(id@)->Some_0),
        ensures
            v.wrap_spec() == self.spec_get(id@)->Some_0,
    {
        let p = self.lower_bound(id.0);
        proof {
            let k = self.idx_of(id@);
            assert(self@[k].0 == id@);
            if k < p {
                assert(self@[k].0 < id@);
            }
            if p < k {
                assert(self@[p as int].0 < self@[k].0);
            }
            assert(p == k);
            self.lemma_get_at(k);
        }
        let pair = &self.entries[p];
        T::unwrap_ref(&pair.1)
    }

    /// Inserts a type-erased record under the identifier, overwriting
    /// and returning any previous value there: the document driver
    /// accepts records of any kind from the text.
    #[verifier::rlimit(60)]
    pub fn insert_untyped(&mut self, id: Id, value: Record) -> (r: Option<Record>)
        requires
            old(self).wf(),
            id@ >= 1,
        ensures
            final(self).wf(),
            final(self).spec_contains(id@),
            final(self).spec_get(id@) == Some(value),
            forall|q: u64| q != id@ ==> final(self).spec_get(q) == old(self).spec_get(q),
            match r {
                Some(prev) => old(self).spec_get(id@) == Some(prev),
                None => old(self).spec_get(id@) is None,
            },
            final(self)@.len() == old(self)@.len() + (if old(self).spec_contains(id@) {
                0int
            } else {
                1int
            }),
    {
        let ghost pre = *self;
        let p = self.lower_bound(id.0);
        let n = self.entries.len();
        if p < n && self.entries[p].0 == id.0 {
            proof {
                pre.lemma_get_at(p as int);
            }
            let prev_pair = self.entries.remove(p);
            self.entries.insert(p, (id.0, value));
            proof {
                assert(self@ =~= pre@.update(p as int, (id@, value)));
                self.lemma_insert_like(pre, id@, value, p as int);
            }
            Some(prev_pair.1)
        } else {
            proof {
                assert forall|k: int|
                    0 <= k < pre@.len() implies (#[trigger] pre@[k].0) != id@ by {
                    if k >= p {
                        if k > p {
                            assert(pre@[p as int].0 < pre@[k].0);
                        }
                    }
                }
                assert(!pre.spec_contains(id@));
            }
            self.entries.insert(p, (id.0, value));
            proof {
                assert(self@ == pre@.insert(p as int, (id@, value)));
                self.lemma_inserted_fresh(pre, id@, value, p as int);
            }
            None
        }
    }

    /// A mutable typed borrow of the record under the identifier:
    /// whatever the borrower leaves behind is what the store then
    /// holds there, in the same place in the ascending order.
    pub fn get_mut<T: ParsedIfcType>(&mut self, id: Id) -> (v: &mut T)
        requires
            old(self).wf(),
            old(self).spec_contains(id@),
            T::fits(old(self).spec_get(id@)->Some_0),
        ensures
            (*v).wrap_spec() == old(self).spec_get(id@)->Some_0,
            final(self)@ == old(self)@.update(
                old(self).idx_of(id@),
                (id@, final(v).wrap_spec()),
            ),
    {
        let ghost pre = *self;
        let p = self.lower_bound(id.0);
        proof {
            let k = pre.idx_of(id@);
            assert(pre@[k].0 == id@);
            if k < p {
                assert(pre@[k].0 < id@);
            }
            if p < k {
                assert(pre@[p as int].0 < pre@[k].0);
            }
            assert(p == k);
            pre.lemma_get_at(k);
        }
        let pair = &mut self.entries[p];
        let v = T::unwrap_mut(&mut pair.1);
        v
    }

    /// Seeds a record kind with its defined default value under the
    /// identifier, leaving the store unchanged where the identifier is
    /// already taken.
    pub fn insert_if_not_exists<T: DefaultRecord>(&mut self, id: Id)
        requires
            old(self).wf(),
            id@ >= 1,
        ensures
            final(self).wf(),
            final(self).spec_contains(id@),
            forall|q: u64| q != id@ ==> final(self).spec_get(q) == old(self).spec_get(q),
            old(self).spec_contains(id@) ==> *final(self) == *old(self),
            !old(self).spec_contains(id@) ==> (final(self).spec_get(id@) matches Some(r)
                && T::fits(r) && r@ == T::spec_default()),
    {
        if !self.contains(id) {
            let value = T::default_value();
            proof {
                value.lemma_wrap_fits();
            }
            self.insert(id, value);
        }
    }
}

} // verus!
