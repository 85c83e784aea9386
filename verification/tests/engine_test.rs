use reo::data::Data;
use reo::failure::Failure;
use reo::universe::{NotImplementedYet, Universe};

fn bare() -> Universe<NotImplementedYet> {
    Universe::empty()
}

#[test]
fn hello_bytes() {
    let mut uni = bare();
    let root = uni.add();
    assert_eq!(0, root);
    let x = uni.add();
    uni.bind(root, x, "foo").unwrap();
    let y = uni.add();
    uni.bind(x, y, "Δ").unwrap();
    uni.put(y, &Data::from_bytes(vec![0xFF, 0xFF])).unwrap();
    assert_eq!(vec![0xFF, 0xFF], uni.dataize("Φ.foo").unwrap().as_bytes());
    assert_eq!(0, uni.level());
}

#[test]
fn decoration_falls_through() {
    let mut uni = bare();
    let root = uni.add();
    let a = uni.add();
    let b = uni.add();
    let c = uni.add();
    let d = uni.add();
    uni.bind(root, a, "a").unwrap();
    uni.bind(a, b, "φ").unwrap();
    uni.bind(b, c, "foo").unwrap();
    uni.bind(c, d, "Δ").unwrap();
    uni.put(d, &Data::from_bytes(vec![0x41])).unwrap();
    assert_eq!(vec![0x41], uni.dataize("Φ.a.foo").unwrap().as_bytes());
    assert_eq!(None, uni.kid(a, "foo"));
}

#[test]
fn gamma_remembers_what_it_finds() {
    let mut uni = bare();
    let root = uni.add();
    let a = uni.add();
    let b = uni.add();
    let c = uni.add();
    let d = uni.add();
    uni.bind(root, a, "a").unwrap();
    uni.bind(a, b, "γ").unwrap();
    uni.bind(b, c, "foo").unwrap();
    uni.bind(c, d, "Δ").unwrap();
    uni.put(d, &Data::from_bytes(vec![0x41])).unwrap();
    assert_eq!(vec![0x41], uni.dataize("Φ.a.foo").unwrap().as_bytes());
    assert_eq!(Some(c), uni.kid(a, "foo"));
}

#[test]
fn endless_dispatch_is_stopped() {
    let mut uni = bare();
    let root = uni.add();
    let a = uni.add();
    uni.bind(root, a, "a").unwrap();
    uni.bind(a, a, "ε").unwrap();
    let r = uni.dataize("Φ.a");
    assert!(matches!(r, Err(Failure::RecursionTooDeep)));
    assert_eq!(0, uni.level());
}

#[test]
fn second_edge_with_a_label_is_refused() {
    let mut uni = bare();
    let root = uni.add();
    let x = uni.add();
    let other = uni.add();
    uni.bind(root, x, "x").unwrap();
    let r = uni.bind(root, other, "x");
    assert!(matches!(r, Err(Failure::DuplicateEdge(0, _))));
    assert_eq!(Some(x), uni.kid(root, "x"));
    assert_eq!(1, uni.kids(root).unwrap().len());
}

#[test]
fn find_absent_vertex() {
    let mut uni = bare();
    uni.add();
    assert!(uni.dataize("Φ.foo").is_err());
}

#[test]
fn fnd_absent_vertex() {
    let mut uni = bare();
    uni.add();
    assert!(uni.dataize("ν42.foo").is_err());
}

fn family() -> Universe<NotImplementedYet> {
    let mut uni = bare();
    let root = uni.add();
    let ex = uni.add();
    let body = uni.add();
    let d = uni.add();
    uni.bind(ex, body, "body").unwrap();
    uni.bind(body, d, "Δ").unwrap();
    uni.put(d, &Data::from_int(7)).unwrap();
    let copy = uni.add();
    uni.bind(root, copy, "c").unwrap();
    uni.bind(copy, ex, "π").unwrap();
    uni
}

#[test]
fn same_graph_gives_the_same_answer() {
    let mut one = family();
    let mut two = family();
    assert_eq!(one.find("Φ.c.body").unwrap(), two.find("Φ.c.body").unwrap());
    assert_eq!(one.ids().len(), two.ids().len());
    assert_eq!(
        one.dataize("Φ.c.body").unwrap().as_bytes(),
        two.dataize("Φ.c.body").unwrap().as_bytes()
    );
    let first = one.dataize("Φ.c.body").unwrap();
    let second = one.dataize("Φ.c.body").unwrap();
    assert_eq!(first, second);
    assert_eq!(7, second.as_int().unwrap());
    assert!(one.inconsistencies().is_empty());
}

#[test]
fn copy_is_made_anew_each_time() {
    let mut uni = family();
    let first = uni.find("Φ.c.body").unwrap();
    let second = uni.find("Φ.c.body").unwrap();
    assert!(first < second);
}

#[test]
fn name_of_an_atom_has_to_be_text() {
    let mut uni = bare();
    let root = uni.add();
    let x = uni.add();
    let l = uni.add();
    uni.bind(root, x, "x").unwrap();
    uni.bind(x, l, "λ").unwrap();
    uni.put(l, &Data::from_bytes(vec![0xFF, 0xFE])).unwrap();
    assert!(matches!(uni.dataize("Φ.x"), Err(Failure::BadData)));
    assert!(matches!(Data::from_bool(true).as_int(), Err(Failure::BadData)));
    assert!(matches!(
        Data::from_bytes(vec![0xC0]).as_string(),
        Err(Failure::BadData)
    ));
}
