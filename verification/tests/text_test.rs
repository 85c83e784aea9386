use reo::gmi::{read_operand, Argument};
use reo::script::{read_arguments, read_instruction, seek, space, trim_range, Op};
use reo::text::{chars_of, decimal_text, parse_u32, same, string_of};
use reo::universe::locate::steps;
use reo::xmir::Xmir;

#[test]
fn characters_and_back() {
    let chars = chars_of("ν1.Δ");
    assert_eq!(vec!['ν', '1', '.', 'Δ'], chars);
    assert_eq!("1.", string_of(&chars, 1, 3));
    assert_eq!("", string_of(&chars, 2, 2));
    assert!(same("Δ", "Δ"));
    assert!(!same("Δ", "λ"));
    assert!(!same("a", "ab"));
}

#[test]
fn decimal_numbers() {
    let chars = chars_of("x0042y");
    assert_eq!(Some(42), parse_u32(&chars, 1, 5));
    assert_eq!(None, parse_u32(&chars, 0, 5));
    assert_eq!(None, parse_u32(&chars, 1, 1));
    assert_eq!(Some(u32::MAX), parse_u32(&chars_of("4294967295"), 0, 10));
    assert_eq!(None, parse_u32(&chars_of("4294967296"), 0, 10));
    assert_eq!(None, parse_u32(&chars_of("99999999999999999999999"), 0, 23));
    assert_eq!(None, parse_u32(&chars_of("+5"), 0, 2));
    assert_eq!("0", decimal_text(0));
    assert_eq!("9", decimal_text(9));
    assert_eq!("10", decimal_text(10));
    assert_eq!("4294967295", decimal_text(u32::MAX));
}

#[test]
fn steps_of_a_locator() {
    assert_eq!(vec!["Φ", "a", "b"], steps("Φ.a.b"));
    assert_eq!(vec!["a", "b"], steps(".a..b."));
    assert!(steps("").is_empty());
    assert!(steps("...").is_empty());
    assert_eq!(vec!["привет"], steps("привет"));
}

#[test]
fn instruction_is_read() {
    let chars = chars_of("  BIND ( ν0 , $x,, foo bar ) ;");
    let end = seek(&chars, 0, chars.len(), ';');
    assert_eq!(chars.len() - 1, end);
    let (op, args) = read_instruction(&chars, 0, end).unwrap();
    assert_eq!(Op::Bind, op);
    assert_eq!(vec!["ν0", "$x", "foo bar"], args);
    assert_eq!((2, end - 1), trim_range(&chars, 0, end));
    assert_eq!(vec!["a", "b"], read_arguments(&chars_of(" a ,, b,"), 0, 8));
    assert!(read_arguments(&chars_of(" , "), 0, 3).is_empty());
    assert!(space('\t') && space('\n') && space('\r') && space(' ') && !space('x'));
    for text in ["add(0)", "ADD 0", "ADD(0", "ADD(0))", "ADD(0) x", "(0)", "MOVE(0)", ""] {
        let chars = chars_of(text);
        assert!(read_instruction(&chars, 0, chars.len()).is_none(), "{}", text);
    }
    let chars = chars_of("PUT()");
    let (op, args) = read_instruction(&chars, 0, chars.len()).unwrap();
    assert_eq!(Op::Put, op);
    assert!(args.is_empty());
}

#[test]
fn operand_is_read() {
    assert!(matches!(read_operand("$ν1"), Some(Argument::Variable(name)) if name == "ν1"));
    assert!(matches!(read_operand("ν12"), Some(Argument::Vertex(12))));
    assert!(matches!(read_operand("12"), Some(Argument::Vertex(12))));
    assert!(read_operand("$").is_none());
    assert!(read_operand("ν").is_none());
    assert!(read_operand("").is_none());
    assert!(read_operand("x1").is_none());
    assert!(read_operand("νν1").is_none());
}

#[test]
fn xmir_keeps_its_text() {
    let x = Xmir::from_string("<program/>".to_string()).unwrap();
    assert_eq!("<program/>", x.as_str());
}
