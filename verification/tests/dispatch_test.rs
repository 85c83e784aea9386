use reo::data::Data;
use reo::failure::Failure;
use reo::universe::{NotImplementedYet, Universe};

fn bare() -> Universe<NotImplementedYet> {
    let mut uni = Universe::empty();
    uni.add();
    uni
}

fn datum(uni: &mut Universe<NotImplementedYet>, byte: u8) -> u32 {
    let v = uni.add();
    let d = uni.add();
    uni.bind(v, d, "Δ").unwrap();
    uni.put(d, &Data::from_bytes(vec![byte])).unwrap();
    v
}

fn nil(uni: &mut Universe<NotImplementedYet>, context: u32) -> u32 {
    let v = uni.add();
    uni.bind(v, context, "ρ").unwrap();
    v
}

#[test]
fn copy_is_made_of_the_exemplar() {
    let mut uni = bare();
    let ex = uni.add();
    let f = datum(&mut uni, 0x2A);
    uni.bind(ex, f, "foo").unwrap();
    let copy = uni.add();
    uni.bind(0, copy, "x").unwrap();
    uni.bind(copy, ex, "π").unwrap();
    let before = uni.top();
    let t = uni.find("Φ.x.foo").unwrap();
    assert_eq!(before + 1, t as u64);
    assert_eq!(Some(t), uni.kid(before as u32, "foo"));
    assert_eq!(Some(before as u32), uni.kid(t, "ρ"));
    assert_eq!(Some(before as u32), uni.kid(t, "ψ"));
    assert_eq!(Some(f), uni.kid(t, "π"));
    assert_eq!(None, uni.kid(before as u32, "π"));
    assert_eq!(vec![0x2A], uni.dataize("Φ.x.foo").unwrap().as_bytes());
    assert!(uni.inconsistencies().is_empty());
    assert_eq!(None, uni.kid(copy, "foo"));
    assert_eq!(1, uni.kids(ex).unwrap().len());
}

#[test]
fn argument_by_rank_fills_the_free_slot() {
    let mut uni = bare();
    let ex = uni.add();
    let free = nil(&mut uni, ex);
    uni.bind(ex, free, "x").unwrap();
    let copy = uni.add();
    uni.bind(0, copy, "c").unwrap();
    uni.bind(copy, ex, "π").unwrap();
    let arg = datum(&mut uni, 0x07);
    uni.bind(copy, arg, "α0").unwrap();
    assert_eq!(arg, uni.find("Φ.c.x").unwrap());
    assert_eq!(vec![0x07], uni.dataize("Φ.c.x").unwrap().as_bytes());
}

#[test]
fn argument_by_name_fills_the_free_slot() {
    let mut uni = bare();
    let ex = uni.add();
    let free = nil(&mut uni, ex);
    uni.bind(ex, free, "x").unwrap();
    let copy = uni.add();
    uni.bind(0, copy, "c").unwrap();
    uni.bind(copy, ex, "π").unwrap();
    let arg = datum(&mut uni, 0x08);
    uni.bind(copy, arg, "x").unwrap();
    let nv = uni.dd(copy, 0).unwrap();
    assert_eq!(Some(arg), uni.kid(nv, "x"));
    assert_eq!(1, uni.kids(nv).unwrap().len());
    assert_eq!(0, uni.level());
}

#[test]
fn attribute_without_a_slot_cannot_be_tied() {
    let mut uni = bare();
    let ex = uni.add();
    let copy = uni.add();
    uni.bind(0, copy, "c").unwrap();
    uni.bind(copy, ex, "π").unwrap();
    let arg = datum(&mut uni, 0x07);
    uni.bind(copy, arg, "y").unwrap();
    match uni.find("Φ.c.z") {
        Err(Failure::CannotTie(_, a)) => assert_eq!("y", a),
        other => panic!("unexpected {:?}", other),
    }
    let mut ranked = bare();
    let ex = ranked.add();
    let copy = ranked.add();
    ranked.bind(0, copy, "c").unwrap();
    ranked.bind(copy, ex, "π").unwrap();
    let arg = datum(&mut ranked, 0x07);
    ranked.bind(copy, arg, "α1").unwrap();
    match ranked.find("Φ.c.z") {
        Err(Failure::CannotTie(_, a)) => assert_eq!("α1", a),
        other => panic!("unexpected {:?}", other),
    }
}

#[test]
fn tie_rules() {
    let mut uni = bare();
    let v = uni.add();
    let free = nil(&mut uni, v);
    let taken = datum(&mut uni, 1);
    uni.bind(v, taken, "a").unwrap();
    uni.bind(v, free, "b").unwrap();
    uni.bind(v, taken, "жук").unwrap();
    assert_eq!("ρ", uni.tie(v, "ρ").unwrap());
    assert_eq!("σ", uni.tie(v, "σ").unwrap());
    assert_eq!("Δ", uni.tie(v, "Δ").unwrap());
    assert_eq!("b", uni.tie(v, "b").unwrap());
    assert_eq!("b", uni.tie(v, "α1").unwrap());
    assert!(matches!(uni.tie(v, "a"), Err(Failure::CannotTie(_, _))));
    assert!(matches!(uni.tie(v, "α0"), Err(Failure::CannotTie(_, _))));
    assert!(matches!(uni.tie(v, "α2"), Err(Failure::CannotTie(_, _))));
    assert!(matches!(uni.tie(v, "αx"), Err(Failure::CannotTie(_, _))));
    assert!(matches!(uni.tie(v, "c"), Err(Failure::CannotTie(_, _))));
    assert!(matches!(uni.tie(taken, "Δ"), Err(Failure::CannotTie(_, _))));
    assert!(matches!(uni.tie(77, "α0"), Err(Failure::MissingVertex(77))));
    assert_eq!(Some("b".to_string()), uni.slot(v, 1).unwrap());
    assert_eq!(None, uni.slot(v, 2).unwrap());
    assert!(uni.nil(free).unwrap());
    assert!(!uni.nil(taken).unwrap());
    assert!(!uni.nil(0).unwrap());
    assert!(matches!(uni.nil(99), Err(Failure::MissingVertex(99))));
}

#[test]
fn epsilon_is_followed_without_a_copy() {
    let mut uni = bare();
    let real = uni.add();
    let f = datum(&mut uni, 0x11);
    uni.bind(real, f, "foo").unwrap();
    let alias = uni.add();
    uni.bind(0, alias, "a").unwrap();
    uni.bind(alias, real, "ε").unwrap();
    let before = uni.top();
    assert_eq!(f, uni.find("Φ.a.foo").unwrap());
    assert_eq!(before, uni.top());
}

#[test]
fn xi_stands_for_the_context() {
    let mut uni = bare();
    let owner = uni.add();
    let f = datum(&mut uni, 0x12);
    uni.bind(owner, f, "foo").unwrap();
    let me = uni.add();
    uni.bind(0, me, "m").unwrap();
    uni.bind(me, owner, "ψ").unwrap();
    let placeholder = uni.add();
    uni.bind(me, placeholder, "ξ").unwrap();
    assert_eq!(f, uni.find("Φ.m.foo").unwrap());
    assert_eq!(owner, uni.dd(me, 0).unwrap());
}

#[test]
fn beta_names_the_attribute() {
    let mut uni = bare();
    let owner = uni.add();
    let f = datum(&mut uni, 0x13);
    uni.bind(owner, f, "foo").unwrap();
    let b = uni.add();
    uni.bind(b, owner, "foo").unwrap();
    let me = uni.add();
    uni.bind(0, me, "m").unwrap();
    uni.bind(me, b, "β").unwrap();
    assert_eq!(f, uni.dd(me, 0).unwrap());
    assert_eq!(vec![0x13], uni.dataize("Φ.m").unwrap().as_bytes());
    let mut empty = bare();
    let b = empty.add();
    let me = empty.add();
    empty.bind(me, b, "β").unwrap();
    assert!(matches!(empty.dd(me, 0), Err(Failure::MissingVertex(v)) if v == b));
}

#[test]
fn what_cannot_be_found_is_reported() {
    let mut uni = bare();
    let a = uni.add();
    uni.bind(0, a, "a").unwrap();
    match uni.find("Φ.a.nothing") {
        Err(Failure::UnresolvedAttribute(v, label)) => {
            assert_eq!(a, v);
            assert_eq!("nothing", label);
        }
        other => panic!("unexpected {:?}", other),
    }
    assert!(matches!(uni.find("ν5"), Err(Failure::MissingVertex(5))));
    assert!(matches!(uni.find("νfive"), Err(Failure::BadLocator(_))));
    assert!(matches!(uni.find("ν4294967296"), Err(Failure::BadLocator(_))));
    assert!(matches!(uni.dataize("Φ.a"), Err(Failure::UnresolvedAttribute(_, _))));
    let mut empty: Universe<NotImplementedYet> = Universe::empty();
    assert!(matches!(empty.find("Φ"), Err(Failure::EmptyGraph)));
    assert!(matches!(empty.dataize("Φ"), Err(Failure::EmptyGraph)));
}

#[test]
fn datum_has_to_be_there() {
    let mut uni = bare();
    let a = uni.add();
    let d = uni.add();
    uni.bind(0, a, "a").unwrap();
    uni.bind(a, d, "Δ").unwrap();
    assert!(matches!(uni.dataize("Φ.a"), Err(Failure::MissingDatum(v)) if v == d));
    assert!(matches!(uni.data(d), Err(Failure::MissingDatum(v)) if v == d));
    assert!(matches!(uni.data(99), Err(Failure::MissingVertex(99))));
    assert!(matches!(
        uni.put(99, &Data::from_bool(true)),
        Err(Failure::MissingVertex(99))
    ));
    uni.put(d, &Data::from_bool(true)).unwrap();
    uni.put(d, &Data::from_bytes(vec![9, 8])).unwrap();
    assert_eq!(vec![9, 8], uni.data(d).unwrap().as_bytes());
    assert_eq!(vec![9, 8], uni.dataize("Φ.a").unwrap().as_bytes());
}

#[test]
fn root_and_vertex_zero_are_the_same() {
    let mut uni = bare();
    let a = datum(&mut uni, 0x31);
    uni.bind(0, a, "a").unwrap();
    assert_eq!(uni.find("Φ.a").unwrap(), uni.find("ν0.a").unwrap());
    assert_eq!(uni.find("Q.a").unwrap(), uni.find("ν0.a").unwrap());
    assert_eq!(
        uni.dataize("Φ.a").unwrap().as_bytes(),
        uni.dataize("ν0.a").unwrap().as_bytes()
    );
    assert_eq!(0, uni.find("Φ").unwrap());
    assert_eq!(0, uni.find("ν0").unwrap());
    assert_eq!(0, uni.find("").unwrap());
    assert_eq!(a, uni.find("ν1.ν2.ν0..a.").unwrap());
}

#[test]
fn identity_step_stays() {
    let mut uni = bare();
    let a = datum(&mut uni, 0x32);
    uni.bind(0, a, "a").unwrap();
    assert_eq!(uni.find("Φ.a").unwrap(), uni.find("Φ.a.ξ").unwrap());
    assert_eq!(uni.find("Φ.a").unwrap(), uni.find("Φ.a.$").unwrap());
    assert_eq!(uni.find("Φ.a").unwrap(), uni.find("Φ.ξ.a.ξ.ξ").unwrap());
}

#[test]
fn repeated_find_by_edges_gives_the_same_vertex() {
    let mut uni = bare();
    let a = uni.add();
    let b = uni.add();
    let c = datum(&mut uni, 0x33);
    uni.bind(0, a, "a").unwrap();
    uni.bind(a, b, "γ").unwrap();
    uni.bind(b, c, "foo").unwrap();
    let first = uni.find("Φ.a.foo").unwrap();
    let top = uni.top();
    let second = uni.find("Φ.a.foo").unwrap();
    assert_eq!(first, second);
    assert_eq!(c, second);
    assert_eq!(top, uni.top());
    assert_eq!(
        uni.dataize("Φ.a.foo").unwrap().as_bytes(),
        uni.dataize("Φ.a.foo").unwrap().as_bytes()
    );
}

#[test]
fn rules_of_the_graph_are_kept() {
    let mut uni = bare();
    let a = uni.add();
    let b = uni.add();
    uni.bind(a, b, "π").unwrap();
    match uni.bind(a, b, "φ") {
        Err(Failure::InvariantViolation(v, label)) => {
            assert_eq!(a, v);
            assert_eq!("φ", label);
        }
        other => panic!("unexpected {:?}", other),
    }
    uni.bind(b, a, "φ").unwrap();
    assert!(matches!(uni.bind(b, a, "π"), Err(Failure::InvariantViolation(_, _))));
    uni.bind(a, b, "λ").unwrap();
    assert!(matches!(uni.bind(a, b, "Δ"), Err(Failure::InvariantViolation(_, _))));
    uni.bind(b, a, "Δ").unwrap();
    assert!(matches!(uni.bind(b, a, "λ"), Err(Failure::InvariantViolation(_, _))));
    assert!(matches!(uni.bind(a, 0, "ρ"), Err(Failure::InvariantViolation(_, _))));
    assert!(matches!(uni.bind(a, 0, "σ"), Err(Failure::InvariantViolation(_, _))));
    assert!(matches!(uni.bind(a, 0, "ψ"), Err(Failure::InvariantViolation(_, _))));
    uni.bind(a, 0, "up").unwrap();
    assert!(matches!(uni.bind(a, 77, "x"), Err(Failure::MissingVertex(77))));
    assert!(matches!(uni.bind(77, a, "x"), Err(Failure::MissingVertex(77))));
    assert!(matches!(uni.add_at(a), Err(Failure::DuplicateVertex(v)) if v == a));
    uni.add_at(100).unwrap();
    assert_eq!(101, uni.add());
    assert!(uni.inconsistencies().is_empty());
    assert!(uni.forbids(a, b, "φ"));
    assert!(!uni.forbids(b, 0, "x"));
}

#[test]
fn unsound_graph_is_found_out() {
    let mut g = sodg::Sodg::empty();
    g.add(0).unwrap();
    g.add(1).unwrap();
    g.add(2).unwrap();
    g.bind(1, 2, "π").unwrap();
    g.bind(1, 2, "φ").unwrap();
    g.bind(2, 0, "ρ").unwrap();
    let uni: Universe<NotImplementedYet> = Universe::from_graph(g);
    let mut bad = uni.inconsistencies();
    bad.sort();
    assert_eq!(vec![1, 2], bad);
    assert!(!uni.sound_at(1));
    assert!(uni.sound_at(0));
    assert!(!uni.is_empty());
    assert!(uni.has(2));
    assert!(!uni.has(3));
    assert_eq!(Some(2), uni.edge(1, "φ"));
    assert_eq!(3, uni.graph().len());
}

#[test]
fn alerts_of_a_graph_are_switched_off() {
    let mut g = sodg::Sodg::empty();
    g.alerts_on().unwrap();
    g.alert_on(|_, _| vec!["never".to_string()]);
    let mut uni: Universe<NotImplementedYet> = Universe::from_graph(g);
    assert_eq!(0, uni.add());
    assert_eq!(1, uni.add());
    uni.bind(0, 1, "x").unwrap();
    assert_eq!(1, uni.find("Φ.x").unwrap());
}

#[test]
fn package_is_laid_below_the_root() {
    let mut uni = bare();
    let total = uni
        .lay("org.eolang", "ADD($x); BIND(ν0, $x, foo); ADD($d); BIND($x, $d, Δ); PUT($d, 01);".to_string())
        .unwrap();
    assert_eq!(5, total);
    assert!(uni.dataize("Φ.org.eolang.foo").unwrap().as_bool().unwrap());
    let org = uni.find("Φ.org").unwrap();
    assert_eq!(org, uni.mount("org").unwrap());
    let top = uni.top();
    assert_eq!(uni.find("Φ.org.eolang").unwrap(), uni.mount("org..eolang.").unwrap());
    assert_eq!(top, uni.top());
    assert_eq!(0, uni.mount("").unwrap());
    assert_eq!(top as u32, uni.mount("org.other").unwrap());
    assert_eq!(Some(top as u32), uni.kid(org, "other"));
}

#[test]
fn part_of_the_graph_is_cut_out() {
    let mut uni = bare();
    let a = datum(&mut uni, 0x41);
    uni.bind(0, a, "a").unwrap();
    let b = uni.add();
    uni.bind(0, b, "b").unwrap();
    uni.bind(a, b, "ρ").unwrap();
    let part = uni.slice("ν0.a").unwrap();
    assert_eq!(2, part.len());
    assert!(part.kid(a, "Δ").is_some());
    assert!(part.kid(a, "ρ").is_none());
    assert!(matches!(uni.slice("ν0.zzz"), Err(Failure::BadLocator(_))));
}

#[test]
fn deep_chain_is_followed() {
    let mut uni = bare();
    let end = datum(&mut uni, 0x55);
    let mut at = end;
    for _ in 0..15 {
        let v = uni.add();
        uni.bind(v, at, "ε").unwrap();
        at = v;
    }
    uni.bind(0, at, "x").unwrap();
    assert_eq!(vec![0x55], uni.dataize("Φ.x").unwrap().as_bytes());
    let mut long = bare();
    let end = datum(&mut long, 0x55);
    let mut at = end;
    for _ in 0..25 {
        let v = long.add();
        long.bind(v, at, "ε").unwrap();
        at = v;
    }
    long.bind(0, at, "x").unwrap();
    assert!(matches!(long.dataize("Φ.x"), Err(Failure::RecursionTooDeep)));
    assert_eq!(0, long.level());
}
