use reo::data::Data;
use reo::failure::Failure;
use reo::universe::NotImplementedYet;
use reo::Universe;

fn empty() -> Universe<NotImplementedYet> {
    Universe::empty()
}

#[test]
fn fails_if_locator_is_wrong() {
    let mut uni = empty();
    uni.add_at(0).unwrap();
    uni.put(0, &Data::from_int(0)).unwrap();
    assert!(uni.find("hello").is_err());
}

#[test]
fn adds_simple_vertex() {
    let mut uni = empty();
    let v1 = uni.add();
    assert!(uni.inconsistencies().is_empty());
    assert_eq!(v1, uni.find(format!("ν{v1}.ξ").as_str()).unwrap());
}

#[test]
fn pre_defined_ids() {
    let mut uni = empty();
    uni.add_at(1).unwrap();
    uni.add_at(2).unwrap();
    let k = "a-привет";
    uni.bind(1, 2, k).unwrap();
    assert!(uni.inconsistencies().is_empty());
    assert_eq!(2, uni.find(format!("ν1.{k}").as_str()).unwrap());
}

#[test]
fn binds_two_names() {
    let mut uni = empty();
    let v1 = uni.add();
    let v2 = uni.add();
    uni.bind(v1, v2, "first").unwrap();
    uni.bind(v1, v2, "second").unwrap();
    assert!(uni.inconsistencies().is_empty());
    assert_eq!(v2, uni.find(format!("ν{v1}.first").as_str()).unwrap());
}

#[test]
fn binds_to_root() {
    let mut uni = empty();
    uni.add_at(0).unwrap();
    let v1 = uni.add();
    uni.bind(0, v1, "x").unwrap();
    assert!(uni.inconsistencies().is_empty());
    assert!(uni.edge(0, "ρ").is_none());
    assert!(uni.edge(0, "𝜎").is_none());
}

#[test]
fn pi_and_phi_together() {
    let mut g = sodg::Sodg::empty();
    g.add(0).unwrap();
    g.add(1).unwrap();
    g.bind(0, 1, "π").unwrap();
    g.bind(0, 1, "φ").unwrap();
    let uni: Universe<NotImplementedYet> = Universe::from_graph(g);
    assert_eq!(1, uni.inconsistencies().len());
}

#[test]
fn count_and_numbers_of_vertices() {
    let mut uni = empty();
    assert!(uni.is_empty());
    assert_eq!(0, uni.len());
    assert_eq!(0, uni.top());
    uni.add_at(7).unwrap();
    uni.add_at(3).unwrap();
    assert_eq!(2, uni.len());
    let mut ids = uni.ids();
    ids.sort();
    assert_eq!(vec![3, 7], ids);
    assert_eq!(8, uni.top());
    assert_eq!(8, uni.try_add().unwrap());
    assert!(matches!(uni.find("Φ"), Err(Failure::MissingVertex(0))));
}

#[test]
fn numbers_run_out_at_the_last_one() {
    let mut uni = empty();
    uni.add_at(u32::MAX).unwrap();
    assert_eq!(u32::MAX as u64 + 1, uni.top());
    assert!(matches!(uni.try_add(), Err(Failure::OutOfIds)));
    assert!(matches!(uni.atom(u32::MAX, "x"), Err(Failure::OutOfIds)));
    assert_eq!(1, uni.len());
}

#[test]
fn vertex_is_made_to_name_an_atom() {
    let mut uni = empty();
    let v = uni.add();
    uni.atom(v, "int$plus").unwrap();
    let l = uni.kid(v, "λ").unwrap();
    assert_eq!("int$plus", uni.data(l).unwrap().as_string().unwrap());
    assert!(matches!(uni.atom(v, "other"), Err(Failure::DuplicateEdge(_, _))));
    assert!(matches!(
        uni.dataize(format!("ν{v}").as_str()),
        Err(Failure::AtomNotRegistered(_, _))
    ));
}

#[test]
fn link_replaces_what_was_bound() {
    let mut uni = empty();
    let a = uni.add();
    let b = uni.add();
    let c = uni.add();
    uni.link(a, b, "x").unwrap();
    uni.link(a, b, "y").unwrap();
    uni.link(a, c, "x").unwrap();
    let kids = uni.kids(a).unwrap();
    assert_eq!(vec![("y".to_string(), b), ("x".to_string(), c)], kids);
    assert!(matches!(uni.link(a, 9, "x"), Err(Failure::MissingVertex(9))));
    assert!(matches!(uni.kids(9), Err(Failure::MissingVertex(9))));
}

#[test]
fn copy_pulls_and_pushes() {
    let mut uni = empty();
    uni.add();
    let ex = uni.add();
    let copy = uni.add();
    let d = uni.add();
    let s = uni.add();
    uni.bind(ex, d, "Δ").unwrap();
    uni.bind(ex, s, "σ").unwrap();
    uni.bind(copy, ex, "π").unwrap();
    uni.bind(copy, s, "ρ").unwrap();
    let nv = uni.apply(ex, copy).unwrap();
    assert_eq!(
        vec![("Δ".to_string(), d), ("ρ".to_string(), s)],
        uni.kids(nv).unwrap()
    );
    let other = uni.add();
    uni.pull(other, ex).unwrap();
    assert_eq!(vec![("Δ".to_string(), d)], uni.kids(other).unwrap());
    uni.push(other, copy).unwrap();
    assert_eq!(2, uni.kids(other).unwrap().len());
    uni.up(other, s, "ρ").unwrap();
    assert_eq!(Some(s), uni.kid(other, "ρ"));
    assert!(matches!(uni.down(other, s, "free"), Err(Failure::CannotTie(_, _))));
    assert!(matches!(uni.pull(other, 99), Err(Failure::MissingVertex(99))));
    assert!(matches!(uni.push(other, 99), Err(Failure::MissingVertex(99))));
    assert_eq!(0, uni.level());
}

#[test]
fn steps_of_dispatch_one_by_one() {
    let mut uni = empty();
    uni.add();
    let a = uni.add();
    let b = uni.add();
    uni.bind(a, b, "x").unwrap();
    assert_eq!(b, uni.pf(a, "x", 0).unwrap());
    assert_eq!(b, uni.fnd(a, "x", 0).unwrap());
    assert_eq!(a, uni.dd(a, 0).unwrap());
    assert_eq!(b, uni.step(a, "x").unwrap());
    assert_eq!(0, uni.step(a, "Q").unwrap());
    assert_eq!(b, uni.descend(a, "x").unwrap());
    assert!(matches!(uni.pf(a, "y", 0), Err(Failure::UnresolvedAttribute(_, _))));
}
