use ifc_rs::datamap::{DataMap, Record};
use ifc_rs::grammar::{Label, OptionalParameter};
use ifc_rs::id::Id;
use ifc_rs::material::Material;
use ifc_rs::objects::{Object, ObjectBuilder, Root, Wall};

fn text(v: Vec<char>) -> String {
    v.into_iter().collect()
}

fn label(s: &str) -> Label {
    Label(s.chars().collect())
}

fn material(name: &str) -> Material {
    Material {
        material: OptionalParameter::Custom(label(name)),
        description: OptionalParameter::Omitted,
        category: OptionalParameter::Omitted,
    }
}

#[test]
fn insert_get_remove() {
    let mut map = DataMap::new();
    assert!(!map.contains(Id(1)));
    let old = map.insert(Id(1), material("a"));
    assert!(old.is_none());
    assert!(map.contains(Id(1)));
    let got: &Material = map.get(Id(1));
    assert_eq!(text(got.render()), "IFCMATERIAL('a',$,$);");
    let replaced: Option<Material> = map.insert(Id(1), material("b"));
    assert_eq!(text(replaced.unwrap().render()), "IFCMATERIAL('a',$,$);");
    let removed: Option<Material> = map.remove(Id(1));
    assert_eq!(text(removed.unwrap().render()), "IFCMATERIAL('b',$,$);");
    assert!(!map.contains(Id(1)));
}

#[test]
fn remove_untyped_returns_the_record() {
    let mut map = DataMap::new();
    map.insert(Id(3), material("c"));
    let rec = map.remove_untyped(Id(3)).unwrap();
    assert!(matches!(rec, Record::Material(_)));
    assert!(map.remove_untyped(Id(3)).is_none());
}

#[test]
fn insert_if_not_exists_seeds_once() {
    let mut map = DataMap::new();
    map.insert_if_not_exists::<Material>(Id(2));
    assert!(map.contains(Id(2)));
    map.insert(Id(2), material("kept"));
    map.insert_if_not_exists::<Material>(Id(2));
    let got: &Material = map.get(Id(2));
    assert_eq!(text(got.render()), "IFCMATERIAL('kept',$,$);");
}

#[test]
fn entries_iterate_in_ascending_order() {
    let mut map = DataMap::new();
    map.insert(Id(9), material("z"));
    map.insert(Id(2), material("y"));
    map.insert(Id(5), material("x"));
    let mut ids = Vec::new();
    for k in 0..map.len() {
        ids.push(map.entry_at(k).0);
    }
    assert_eq!(ids, vec![2, 5, 9]);
}

#[test]
fn object_builder_sets_the_type() {
    let wall = Wall {
        object: Object::new(Root::new(label("guid"))),
        object_placement: OptionalParameter::Omitted,
        representation: OptionalParameter::Omitted,
        tag: OptionalParameter::Omitted,
    };
    let wall = wall.object_type(label("load-bearing"));
    assert_eq!(
        text(wall.render()),
        "IFCWALL('guid',$,$,$,'load-bearing',$,$,$);"
    );
}

#[test]
fn get_mut_edits_in_place() {
    let mut map = DataMap::new();
    map.insert(Id(6), material("before"));
    {
        let m: &mut Material = map.get_mut(Id(6));
        m.description = OptionalParameter::Custom(label("after"));
    }
    let got: &Material = map.get(Id(6));
    assert_eq!(text(got.render()), "IFCMATERIAL('before','after',$);");
}
