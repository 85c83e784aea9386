use reo::failure::Failure;
use reo::gmi::Gmi;
use reo::universe::{NotImplementedYet, Universe};

fn bare() -> Universe<NotImplementedYet> {
    Universe::empty()
}

#[test]
fn hello_bytes_from_a_script() {
    let mut uni = bare();
    let mut gmi = Gmi::from_string(
        "ADD(0); ADD($x); BIND(0,$x,foo); ADD($y); BIND($x,$y,Δ); PUT($y, FF-FF);".to_string(),
    )
    .unwrap();
    assert_eq!(6, gmi.deploy_to(&mut uni).unwrap());
    assert_eq!(vec![0xFF, 0xFF], uni.dataize("Φ.foo").unwrap().as_bytes());
}

#[test]
fn deploys_simple_commands() {
    let mut uni = bare();
    let total = Gmi::from_string(
        "
        ADD(ν0);
        ADD($ν1);
        BIND(ν0, $ν1, foo);
        ADD($ν2); # the data holder
        BIND($ν1, $ν2, Δ);
        PUT($ν2, d0-bf-d1-80-d0-b8-d0-b2-d0-b5-d1-82);
        "
        .to_string(),
    )
    .unwrap()
    .deploy_to(&mut uni)
    .unwrap();
    assert_eq!(6, total);
    assert_eq!("привет", uni.dataize("Φ.foo").unwrap().as_string().unwrap());
}

#[test]
fn repositions_root() {
    let mut gmi = Gmi::from_string(
        "
        # Just a simple object with a edge from root
        ADD($ν1);
        BIND(ν0, $ν1, foo);
        "
        .to_string(),
    )
    .unwrap();
    let mut uni = bare();
    uni.add_at(256).unwrap();
    uni.add_at(42).unwrap();
    gmi.set_root(42);
    assert_eq!(2, gmi.deploy_to(&mut uni).unwrap());
    assert_eq!(257, uni.find("ν42.foo").unwrap());
    assert_eq!(Some(257), gmi.var("ν1"));
}

#[test]
fn binding_twice_is_reported_with_the_instruction() {
    let mut uni = bare();
    let mut gmi = Gmi::from_string(
        "ADD(0); ADD($x); ADD($other); BIND(0, $x, x);\nBIND( 0 , $other , x ) ;".to_string(),
    )
    .unwrap();
    let r = gmi.deploy_to(&mut uni);
    match r {
        Err(Failure::Instruction(text, cause)) => {
            assert_eq!("BIND( 0 , $other , x )", text);
            assert!(matches!(*cause, Failure::DuplicateEdge(0, _)));
        }
        other => panic!("unexpected {:?}", other),
    }
    assert_eq!(Some(1), uni.kid(0, "x"));
    assert_eq!(1, uni.kids(0).unwrap().len());
}

#[test]
fn malformed_instruction_is_reported_with_its_line() {
    let mut uni = bare();
    let mut gmi = Gmi::from_string("ADD(0);\n# nothing here\n  \nADD 1;\n".to_string()).unwrap();
    assert!(matches!(gmi.deploy_to(&mut uni), Err(Failure::ParseError(4))));
    assert!(uni.has(0));
    let mut open = Gmi::from_string("ADD(0)".to_string()).unwrap();
    assert!(matches!(open.deploy_to(&mut bare()), Err(Failure::ParseError(1))));
    let mut unknown = Gmi::from_string("COPY(0);".to_string()).unwrap();
    assert!(matches!(unknown.deploy_to(&mut bare()), Err(Failure::ParseError(1))));
    let mut word = Gmi::from_string("ADD(zero);".to_string()).unwrap();
    assert!(matches!(word.deploy_to(&mut bare()), Err(Failure::ParseError(1))));
}

#[test]
fn wrong_number_of_arguments_is_reported() {
    let mut gmi = Gmi::from_string("\n\nBIND(0, 1);".to_string()).unwrap();
    assert!(matches!(gmi.deploy_to(&mut bare()), Err(Failure::ArityMismatch(3))));
    let mut more = Gmi::from_string("ADD(0, 1);".to_string()).unwrap();
    assert!(matches!(more.deploy_to(&mut bare()), Err(Failure::ArityMismatch(1))));
}

#[test]
fn broken_hex_is_reported() {
    let mut gmi = Gmi::from_string("ADD(0);\nPUT(0, F);".to_string()).unwrap();
    assert!(matches!(gmi.deploy_to(&mut bare()), Err(Failure::BadHex(2))));
    let mut empty = Gmi::from_string("ADD(0); PUT(0, --);".to_string()).unwrap();
    assert!(matches!(empty.deploy_to(&mut bare()), Err(Failure::BadHex(1))));
}

#[test]
fn adding_a_vertex_twice_is_refused() {
    let mut gmi = Gmi::from_string("ADD(7); ADD(ν7);".to_string()).unwrap();
    match gmi.deploy_to(&mut bare()) {
        Err(Failure::Instruction(text, cause)) => {
            assert_eq!("ADD(ν7)", text);
            assert!(matches!(*cause, Failure::DuplicateVertex(7)));
        }
        other => panic!("unexpected {:?}", other),
    }
}

#[test]
fn variables_get_numbers_that_are_free() {
    let mut uni = bare();
    uni.add_at(5).unwrap();
    let mut gmi = Gmi::from_string("BIND($a, $b, x);".to_string()).unwrap();
    match gmi.deploy_to(&mut uni) {
        Err(Failure::Instruction(_, cause)) => {
            assert!(matches!(*cause, Failure::MissingVertex(6)));
        }
        other => panic!("unexpected {:?}", other),
    }
    assert_eq!(Some(6), gmi.var("a"));
    assert_eq!(Some(7), gmi.var("b"));
    assert_eq!(None, gmi.var("c"));
}

#[test]
fn empty_script_deploys_nothing() {
    let mut gmi = Gmi::from_string("  # only a comment".to_string()).unwrap();
    assert_eq!(0, gmi.deploy_to(&mut bare()).unwrap());
}
