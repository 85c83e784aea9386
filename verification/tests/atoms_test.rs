use reo::data::Data;
use reo::failure::Failure;
use reo::org::eolang::array::{array_at, array_length};
use reo::org::eolang::integer::{
    attribute_of, combine, int_div, int_plus, int_times, Arith,
};
use reo::scripts::copy_of_int;
use reo::universe::{Atom, NotImplementedYet, Universe};

#[derive(Clone, Copy)]
struct Native(fn(&mut Universe<Native>, u32) -> Result<u32, Failure>);

impl Atom for Native {
    fn call(&self, uni: &mut Universe<Self>, v: u32) -> Result<u32, Failure> {
        (self.0)(uni, v)
    }
}

fn rand(uni: &mut Universe<Native>, _: u32) -> Result<u32, Failure> {
    let v = uni.add();
    uni.bind(v, 0, "π/int").unwrap();
    let v2 = uni.add();
    uni.bind(v, v2, "Δ").unwrap();
    uni.put(v2, &Data::from_int(rand::random::<i64>())).unwrap();
    Ok(v)
}

fn inc(uni: &mut Universe<Native>, v: u32) -> Result<u32, Failure> {
    let rho = uni.dataize(format!("ν{v}.ρ").as_str())?.as_int()?;
    let v1 = uni.add();
    let v2 = uni.add();
    uni.bind(v1, v2, "Δ").unwrap();
    uni.put(v2, &Data::from_int(rho + 1)).unwrap();
    Ok(v1)
}

fn broken(_: &mut Universe<Native>, _: u32) -> Result<u32, Failure> {
    Err(Failure::Custom("no luck".to_string()))
}

fn again(uni: &mut Universe<Native>, v: u32) -> Result<u32, Failure> {
    uni.dataize(format!("ν{v}").as_str())?;
    Ok(v)
}

fn depth_seen(uni: &mut Universe<Native>, _: u32) -> Result<u32, Failure> {
    let v = uni.add();
    let d = uni.add();
    uni.bind(v, d, "Δ").unwrap();
    uni.put(d, &Data::from_int(uni.level() as i64)).unwrap();
    Ok(v)
}

fn plus(uni: &mut Universe<Native>, v: u32) -> Result<u32, Failure> {
    int_plus(uni, v)
}

fn times(uni: &mut Universe<Native>, v: u32) -> Result<u32, Failure> {
    int_times(uni, v)
}

fn div(uni: &mut Universe<Native>, v: u32) -> Result<u32, Failure> {
    int_div(uni, v)
}

fn with_atom(name: &str) -> (Universe<Native>, u32) {
    let mut uni = Universe::empty();
    let root = uni.add();
    let x = uni.add();
    uni.bind(root, x, "x").unwrap();
    let lambda = uni.add();
    uni.bind(x, lambda, "λ").unwrap();
    uni.put(lambda, &Data::from_str(name)).unwrap();
    (uni, x)
}

fn number(uni: &mut Universe<Native>, name: &str, value: i64) -> u32 {
    let v = uni.add();
    uni.bind(0, v, name).unwrap();
    let d = uni.add();
    uni.bind(v, d, "Δ").unwrap();
    uni.put(d, &Data::from_int(value)).unwrap();
    v
}

fn calculation(atom: &str, left: i64, right: i64) -> Universe<Native> {
    let mut uni = Universe::empty();
    uni.add();
    let int = uni.add();
    uni.bind(0, int, "int").unwrap();
    let a = number(&mut uni, "a", left);
    uni.bind(a, int, "π").unwrap();
    let b = number(&mut uni, "b", right);
    let r = uni.add();
    uni.bind(0, r, "r").unwrap();
    let lambda = uni.add();
    uni.bind(r, lambda, "λ").unwrap();
    uni.put(lambda, &Data::from_str(atom)).unwrap();
    uni.bind(r, a, "ρ").unwrap();
    uni.bind(r, b, "α0").unwrap();
    uni.register("int$plus", Native(plus));
    uni.register("int$times", Native(times));
    uni.register("int$div", Native(div));
    uni
}

#[test]
fn generates_random_int() {
    let mut uni = Universe::empty();
    let root = uni.add();
    assert_eq!(0, root);
    let v1 = uni.add();
    uni.bind(root, v1, "int").unwrap();
    let v2 = uni.add();
    uni.bind(root, v2, "rand").unwrap();
    uni.bind(root, v2, "x").unwrap();
    uni.register("rand", Native(rand));
    let lambda = uni.add();
    uni.bind(v2, lambda, "λ").unwrap();
    uni.put(lambda, &Data::from_str("rand")).unwrap();
    let first = uni.dataize("Φ.x").unwrap().as_int().unwrap();
    let second = uni.dataize("Φ.x").unwrap().as_int().unwrap();
    assert_ne!(first, second);
}

#[test]
fn integer_plus_via_atom() {
    let mut uni = Universe::empty();
    uni.add();
    let int = uni.add();
    uni.bind(0, int, "int").unwrap();
    let two = number(&mut uni, "two", 2);
    uni.bind(two, int, "π").unwrap();
    let r = uni.add();
    uni.bind(0, r, "r").unwrap();
    let lambda = uni.add();
    uni.bind(r, lambda, "λ").unwrap();
    uni.put(lambda, &Data::from_str("int$plus")).unwrap();
    uni.bind(r, two, "ρ").unwrap();
    uni.bind(r, two, "α0").unwrap();
    uni.register("int$plus", Native(plus));
    let d = uni.dataize("Φ.r").unwrap();
    assert_eq!(vec![0, 0, 0, 0, 0, 0, 0, 4], d.as_bytes());
    assert_eq!(4, d.as_int().unwrap());
    assert!(uni.inconsistencies().is_empty());
}

#[test]
fn int_simple() {
    assert_eq!(42, calculation("int$plus", 40, 2).dataize("Φ.r").unwrap().as_int().unwrap());
    assert_eq!(42, calculation("int$times", -6, -7).dataize("Φ.r").unwrap().as_int().unwrap());
    assert_eq!(-3, calculation("int$div", 7, -2).dataize("Φ.r").unwrap().as_int().unwrap());
    assert_eq!(-3, calculation("int$div", -7, 2).dataize("Φ.r").unwrap().as_int().unwrap());
    assert_eq!(3, calculation("int$div", -7, -2).dataize("Φ.r").unwrap().as_int().unwrap());
}

#[test]
fn arithmetic_out_of_range_is_reported() {
    let r = calculation("int$plus", i64::MAX, 1).dataize("Φ.r");
    match r {
        Err(Failure::Atom(_, cause)) => assert!(matches!(*cause, Failure::Overflow)),
        other => panic!("unexpected {:?}", other),
    }
    let r = calculation("int$div", 1, 0).dataize("Φ.r");
    match r {
        Err(Failure::Atom(_, cause)) => assert!(matches!(*cause, Failure::DivisionByZero)),
        other => panic!("unexpected {:?}", other),
    }
    assert!(matches!(combine(Arith::Div, i64::MIN, -1), Err(Failure::Overflow)));
    assert!(matches!(combine(Arith::Times, i64::MIN, -1), Err(Failure::Overflow)));
    assert_eq!(i64::MIN, combine(Arith::Div, i64::MIN, 1).unwrap());
    assert_eq!(i64::MAX, combine(Arith::Div, -i64::MAX, -1).unwrap());
    assert_eq!(0, combine(Arith::Div, 1, i64::MIN).unwrap());
    assert_eq!(-1, combine(Arith::Plus, i64::MAX, i64::MIN).unwrap());
}

#[test]
fn array_simple() {
    let mut uni: Universe<NotImplementedYet> = Universe::empty();
    uni.add();
    assert!(matches!(array_length(&mut uni, 0), Err(Failure::Custom(_))));
    assert!(matches!(array_at(&mut uni, 0), Err(Failure::Custom(_))));
    assert_eq!(1, uni.kids(0).map(|k| k.len() + 1).unwrap());
}

#[test]
fn atom_sees_its_vertex() {
    let (mut uni, x) = with_atom("inc");
    uni.register("inc", Native(inc));
    let seven = number(&mut uni, "seven", 7);
    uni.bind(x, seven, "ρ").unwrap();
    assert_eq!(8, uni.dataize("Φ.x").unwrap().as_int().unwrap());
    assert_eq!(0, uni.level());
}

#[test]
fn atom_that_is_not_registered_is_reported() {
    let (mut uni, x) = with_atom("nobody");
    uni.register("inc", Native(inc));
    match uni.dataize("Φ.x") {
        Err(Failure::AtomNotRegistered(v, name)) => {
            assert_eq!(x, v);
            assert_eq!("nobody", name);
        }
        other => panic!("unexpected {:?}", other),
    }
}

#[test]
fn failure_of_an_atom_is_kept_inside() {
    let (mut uni, x) = with_atom("broken");
    uni.register("broken", Native(broken));
    match uni.dataize("Φ.x") {
        Err(Failure::Atom(v, cause)) => {
            assert_eq!(x, v);
            match *cause {
                Failure::Custom(text) => assert_eq!("no luck", text),
                other => panic!("unexpected {:?}", other),
            }
        }
        other => panic!("unexpected {:?}", other),
    }
    assert_eq!(0, uni.level());
}

#[test]
fn registering_again_replaces_the_atom() {
    let (mut uni, x) = with_atom("inc");
    uni.register("inc", Native(broken));
    uni.register("inc", Native(inc));
    let seven = number(&mut uni, "seven", 7);
    uni.bind(x, seven, "ρ").unwrap();
    assert_eq!(8, uni.dataize("Φ.x").unwrap().as_int().unwrap());
    assert!(uni.registered("inc").is_some());
    assert!(uni.registered("dec").is_none());
}

#[test]
fn atom_that_calls_itself_is_stopped() {
    let (mut uni, _) = with_atom("again");
    uni.register("again", Native(again));
    let mut r = uni.dataize("Φ.x");
    let mut levels = 0;
    loop {
        match r {
            Err(Failure::Atom(_, cause)) => {
                levels += 1;
                r = Err(*cause);
            }
            Err(Failure::RecursionTooDeep) => break,
            other => panic!("unexpected {:?}", other),
        }
    }
    assert!(levels > 0 && levels <= 20);
    assert_eq!(0, uni.level());
}

#[test]
fn atom_runs_below_the_steps_that_led_to_it() {
    let (mut uni, _) = with_atom("depth");
    uni.register("depth", Native(depth_seen));
    assert_eq!(2, uni.dataize("Φ.x").unwrap().as_int().unwrap());
    assert_eq!(0, uni.level());
}

#[test]
fn integer_gets_a_vertex_of_its_own() {
    let mut uni: Universe<NotImplementedYet> = Universe::empty();
    uni.add();
    let v = copy_of_int(&mut uni, -5).unwrap();
    assert_eq!(1, v);
    assert_eq!(Some(2), uni.kid(v, "Δ"));
    assert_eq!(-5, uni.data(2).unwrap().as_int().unwrap());
    assert_eq!(-5, uni.dataize("ν1").unwrap().as_int().unwrap());
}

#[test]
fn locator_of_an_attribute_is_written() {
    assert_eq!("ν0.ρ", attribute_of(0, "ρ"));
    assert_eq!("ν4294967295.α0", attribute_of(u32::MAX, "α0"));
    assert_eq!("ν1070.x", attribute_of(1070, "x"));
}
