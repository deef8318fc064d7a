use ifc_rs::geometry::{
    ArbitraryClosedProfileDef, IndexedPolyCurve, ProductDefinitionShape, RectangleProfileDef,
    ShapeRepresentation,
};
use ifc_rs::material::Material;
use ifc_rs::owner_history::OwnerHistory;
use ifc_rs::units::ConversionUnit;

fn chars(s: &str) -> Vec<char> {
    s.chars().collect()
}

fn text(v: Vec<char>) -> String {
    v.into_iter().collect()
}

#[test]
fn material_layer_round_trip() {
    let example = "IFCMATERIAL('Masonry',$,$);";

    let parsed: Material = Material::parse(&chars(example)).unwrap();
    let str = text(parsed.render());

    assert_eq!(example, str);
}

#[test]
fn arbitrary_closed_profile_def_round_trip() {
    let example = "IFCARBITRARYCLOSEDPROFILEDEF(.AREA.,$,#25);";

    let profile_def =
        ArbitraryClosedProfileDef::<IndexedPolyCurve>::parse(&chars(example)).unwrap();
    let str_profile_def = text(profile_def.render());

    assert_eq!(example, str_profile_def);
}

#[test]
fn parse_product_definition_shape_works() {
    let data = "IFCPRODUCTDEFINITIONSHAPE($,$,(#256));";
    let parsed = ProductDefinitionShape::parse(&chars(data)).unwrap();
    assert_eq!(format!("{data}"), text(parsed.render()));
}

#[test]
fn parse_shape_representation_works() {
    let data = "IFCSHAPEREPRESENTATION(#107,'Body','MappedRepresentation',(#2921786));";
    let parsed = ShapeRepresentation::parse(&chars(data)).unwrap();
    assert_eq!(format!("{data}"), text(parsed.render()));
}

#[test]
fn rectangle_profile_def_round_trip() {
    let data = "IFCRECTANGLEPROFILEDEF(.AREA.,$,$,4.0,0.5);";
    let parsed = RectangleProfileDef::parse(&chars(data)).unwrap();
    assert!(matches!(
        parsed.profile_type,
        ifc_rs::geometry::ProfileType::Area
    ));
    assert_eq!(text(parsed.x_dim.0.clone()), "4.0");
    assert_eq!(text(parsed.y_dim.0.clone()), "0.5");
    assert_eq!(data, text(parsed.render()));
}

#[test]
fn material_name_is_kept() {
    let parsed = Material::parse(&chars("IFCMATERIAL('Masonry',$,$);")).unwrap();
    match parsed.material {
        ifc_rs::grammar::OptionalParameter::Custom(name) => {
            assert_eq!(text(name.0), "Masonry");
        }
        _ => panic!("the name must be present"),
    }
    assert!(matches!(
        parsed.description,
        ifc_rs::grammar::OptionalParameter::Omitted
    ));
    assert!(matches!(
        parsed.category,
        ifc_rs::grammar::OptionalParameter::Omitted
    ));
}

#[test]
fn string_escaping_round_trip() {
    let data = "IFCMATERIAL('it''s brick',$,$);";
    let parsed = Material::parse(&chars(data)).unwrap();
    match &parsed.material {
        ifc_rs::grammar::OptionalParameter::Custom(name) => {
            assert_eq!(text(name.0.clone()), "it's brick");
        }
        _ => panic!("the name must be present"),
    }
    assert_eq!(data, text(parsed.render()));
}

#[test]
fn omitted_differs_from_empty() {
    let omitted = Material::parse(&chars("IFCMATERIAL($,$,$);")).unwrap();
    let empty = Material::parse(&chars("IFCMATERIAL('',$,$);")).unwrap();
    assert!(matches!(
        omitted.material,
        ifc_rs::grammar::OptionalParameter::Omitted
    ));
    assert!(matches!(
        empty.material,
        ifc_rs::grammar::OptionalParameter::Custom(_)
    ));
    assert_eq!(text(omitted.render()), "IFCMATERIAL($,$,$);");
    assert_eq!(text(empty.render()), "IFCMATERIAL('',$,$);");
}

#[test]
fn unknown_keyword_is_an_error() {
    assert!(Material::parse(&chars("IFCWINDOW('x',$,$);")).is_err());
}

#[test]
fn unterminated_string_is_an_error() {
    assert!(Material::parse(&chars("IFCMATERIAL('Masonry,$,$);")).is_err());
}

#[test]
fn owner_history_round_trip() {
    let data = "IFCOWNERHISTORY(#1,#2,$,.ADDED.,$,$,$,1700000000);";
    let parsed = OwnerHistory::parse(&chars(data)).unwrap();
    assert_eq!(parsed.creation_date, 1700000000);
    assert_eq!(data, text(parsed.render()));
}

#[test]
fn wall_round_trip_with_inherited_attributes() {
    let data = "IFCWALL('2O2Fr$t4X7Zf8NOew3FNr2',#5,'wall one',$,$,#6,#7,$);";
    let parsed = ifc_rs::objects::Wall::parse(&chars(data)).unwrap();
    assert_eq!(text(parsed.object.root.global_id.0.clone()), "2O2Fr$t4X7Zf8NOew3FNr2");
    assert_eq!(data, text(parsed.render()));
}

#[test]
fn conversion_unit_round_trip() {
    let (unit, end) = ConversionUnit::parse_at(&chars("'DEGREE'"), 0).unwrap();
    assert!(matches!(unit, ConversionUnit::Degree));
    assert_eq!(end, 8);
    assert_eq!(text(unit.render()), "'DEGREE'");
    assert!(ConversionUnit::parse_at(&chars("'FURLONG'"), 0).is_err());
}

#[test]
fn whitespace_between_tokens_is_accepted() {
    let data = "IFCMATERIAL( 'Masonry' , $ , $ );";
    let parsed = Material::parse(&chars(data)).unwrap();
    assert_eq!(text(parsed.render()), "IFCMATERIAL('Masonry',$,$);");
}
