use spew::DataType;

fn named(name: &str, inherits: &[&str]) -> DataType {
    DataType::new(name.to_string(), false, inherits.iter().map(|s| s.to_string()).collect())
}

#[test]
fn subtype_is_compatible_with_its_supertype() {
    let s = named("str", &["obj"]);
    let o = named("obj", &[]);
    assert!(s.is_compatible(&o));
    assert!(o.is_compatible(&s));
}

#[test]
fn unrelated_types_are_not_compatible() {
    let s = named("str", &["obj"]);
    let n = named("num", &[]);
    assert!(!s.is_compatible(&n));
    assert!(!n.is_compatible(&s));
    // A shared supertype does not make two types compatible with each other.
    let m = named("num", &["obj"]);
    assert!(!s.is_compatible(&m));
}

#[test]
fn same_name_is_compatible_whatever_nullability() {
    let a = DataType::new("num".to_string(), true, vec![]);
    let b = named("num", &[]);
    assert!(a.is_compatible(&b));
    assert!(a.is_nullable());
    assert!(!b.is_nullable());
}

#[test]
fn compatibility_is_one_hop() {
    let s = named("str", &["obj"]);
    let o = named("obj", &["any"]);
    let any = named("any", &[]);
    assert!(s.is_compatible(&o));
    assert!(o.is_compatible(&any));
    assert!(!s.is_compatible(&any));
}

#[test]
fn clone_keeps_the_type() {
    let s = named("str", &["obj"]);
    let c = s.clone();
    assert_eq!(c.name(), "str");
    assert!(c.is_compatible(&named("obj", &[])));
}
