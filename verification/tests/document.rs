use ifc_rs::datamap::Record;
use ifc_rs::ifc::IFC;
use ifc_rs::material::Material;
use ifc_rs::grammar::{Label, OptionalParameter};
use ifc_rs::id::{Id, IdOr, TypedId};
use ifc_rs::objects::Wall;

fn chars(s: &str) -> Vec<char> {
    s.chars().collect()
}

fn text(v: Vec<char>) -> String {
    v.into_iter().collect()
}

fn label(s: &str) -> Label {
    Label(s.chars().collect())
}

fn masonry() -> Material {
    Material {
        material: OptionalParameter::Custom(label("Masonry")),
        description: OptionalParameter::Omitted,
        category: OptionalParameter::Omitted,
    }
}

#[test]
fn document_round_trip() {
    let data = "DATA;#1=IFCMATERIAL('Masonry',$,$);\n#2=IFCPRODUCTDEFINITIONSHAPE($,$,(#1));\nENDSEC;";
    let doc = IFC::parse(&chars(data)).unwrap();
    assert_eq!(data, text(doc.render()));
}

#[test]
fn document_with_header_text_round_trips() {
    let data = "ISO-10303-21;HEADER;ENDSEC;DATA;#3=IFCMATERIAL($,$,$);\nENDSEC;END-ISO-10303-21;";
    let doc = IFC::parse(&chars(data)).unwrap();
    assert_eq!(data, text(doc.render()));
}

#[test]
fn forward_references_parse_and_resolve() {
    // the wall under #1 references #5, declared later in the text
    let data = "DATA;#1=IFCWALL('guid',$,$,$,$,$,#5,$);\n#5=IFCPRODUCTDEFINITIONSHAPE($,$,());\nENDSEC;";
    let doc = IFC::parse(&chars(data)).unwrap();
    let wall: &Wall = doc.data.get(Id(1));
    match &wall.representation {
        OptionalParameter::Custom(id) => assert_eq!(id.0, 5),
        _ => panic!("the representation reference must be present"),
    }
    let shape: &ifc_rs::geometry::ProductDefinitionShape = doc.data.get(Id(5));
    assert_eq!(shape.representations.0.len(), 0);
    assert_eq!(data, text(doc.render()));
}

#[test]
fn allocator_moves_past_explicit_identifiers() {
    let mut doc = IFC::new();
    doc.insert(Id(10), masonry());
    let fresh = doc.allocate();
    assert!(fresh.0 > 10);
}

#[test]
fn allocator_moves_past_parsed_identifiers() {
    let data = "DATA;#7=IFCMATERIAL($,$,$);\nENDSEC;";
    let mut doc = IFC::parse(&chars(data)).unwrap();
    let fresh = doc.allocate();
    assert!(fresh.0 > 7);
}

#[test]
fn insert_new_yields_distinct_identifiers() {
    let mut doc = IFC::new();
    let a = doc.insert_new(masonry());
    let b = doc.insert_new(masonry());
    assert_ne!(a.id().0, b.id().0);
}

#[test]
fn materialization_is_idempotent() {
    let mut doc = IFC::new();
    let first: TypedId<Material> = IdOr::Custom(masonry()).into_id(&mut doc);
    let count_after_first = doc.data.len();
    // converting the result again wraps the same reference; nothing is inserted
    let second: TypedId<Material> = IdOr::Id(first).into_id(&mut doc);
    assert_eq!(first.id().0, second.id().0);
    assert_eq!(doc.data.len(), count_after_first);
}

#[test]
fn resolution_is_deterministic() {
    let mut doc = IFC::new();
    let t = doc.insert_new(masonry());
    let a = text(doc.get(t).render());
    let b = text(doc.get(t).render());
    assert_eq!(a, b);
}

#[test]
fn rendering_orders_records_ascending() {
    // records declared out of order render in ascending identifier order
    let data = "DATA;#9=IFCMATERIAL('b',$,$);\n#2=IFCMATERIAL('a',$,$);\nENDSEC;";
    let doc = IFC::parse(&chars(data)).unwrap();
    assert_eq!(
        text(doc.render()),
        "DATA;#2=IFCMATERIAL('a',$,$);\n#9=IFCMATERIAL('b',$,$);\nENDSEC;"
    );
}

#[test]
fn duplicate_identifiers_last_wins() {
    let data = "DATA;#4=IFCMATERIAL('a',$,$);\n#4=IFCMATERIAL('b',$,$);\nENDSEC;";
    let doc = IFC::parse(&chars(data)).unwrap();
    let m: &Material = doc.data.get(Id(4));
    assert_eq!(text(m.render()), "IFCMATERIAL('b',$,$);");
}

#[test]
fn missing_marker_is_an_error() {
    assert!(IFC::parse(&chars("#1=IFCMATERIAL($,$,$);")).is_err());
}

#[test]
fn unknown_record_keyword_is_an_error() {
    assert!(IFC::parse(&chars("DATA;#1=IFCWINDOW($,$);\nENDSEC;")).is_err());
}

#[test]
fn record_parse_dispatches_by_keyword() {
    let (rec, _) = Record::parse_at(&chars("IFCMATERIAL('x',$,$);"), 0).unwrap();
    assert!(matches!(rec, Record::Material(_)));
    let (rec, _) = Record::parse_at(&chars("IFCWALL('g',$,$,$,$,$,$,$);"), 0).unwrap();
    assert!(matches!(rec, Record::Wall(_)));
}

#[test]
fn empty_document_round_trips() {
    let doc = IFC::new();
    let rendered = text(doc.render());
    assert_eq!(rendered, "DATA;ENDSEC;");
    let reparsed = IFC::parse(&chars(&rendered)).unwrap();
    assert_eq!(text(reparsed.render()), rendered);
}

#[test]
fn owner_history_new_materializes_owned_values() {
    let mut doc = IFC::new();
    let pao = ifc_rs::owner_history::PersonAndOrganization {
        the_person: Id(90),
        the_organization: Id(91),
        roles: OptionalParameter::Omitted,
    };
    let app = ifc_rs::owner_history::Application {
        application_developer: Id(92),
        version: label("1.0"),
        application_full_name: label("modeller"),
        application_identifier: label("mdl"),
    };
    let history = ifc_rs::owner_history::OwnerHistory::new(
        IdOr::Custom(pao),
        IdOr::Custom(app),
        None,
        ifc_rs::owner_history::ChangeAction::Added,
        None,
        None,
        None,
        5,
        &mut doc,
    );
    // the two owned values were inserted under the fresh identifiers
    assert_eq!(text(history.render()), "IFCOWNERHISTORY(#1,#2,$,.ADDED.,$,$,$,5);");
    assert!(doc.data.contains(Id(1)));
    assert!(doc.data.contains(Id(2)));
}

#[test]
fn owner_history_new_keeps_references_and_document() {
    let mut doc = IFC::new();
    let count_before = doc.data.len();
    let history = ifc_rs::owner_history::OwnerHistory::new(
        IdOr::Id(TypedId::new(Id(7))),
        IdOr::Id(TypedId::new(Id(8))),
        None,
        ifc_rs::owner_history::ChangeAction::NotDefined,
        None,
        Some(IdOr::Id(TypedId::new(Id(7)))),
        None,
        9,
        &mut doc,
    );
    // every argument was a reference, so nothing was inserted
    assert_eq!(doc.data.len(), count_before);
    assert_eq!(
        text(history.render()),
        "IFCOWNERHISTORY(#7,#8,$,.NOTDEFINED.,$,#7,$,9);"
    );
}
