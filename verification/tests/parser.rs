use usm::vm::oper::{is_string_numeric, parse_error};
use usm::vm::{Oper, VirtualMachine};

fn parse(source: &str) -> Result<Vec<Oper>, String> {
    Oper::try_new(source.to_string())
}

#[test]
fn every_token_maps_to_its_instruction() {
    assert_eq!(
        parse("0123456789!@$+-*/%<>?"),
        Ok(vec![
            Oper::Number(0),
            Oper::Number(1),
            Oper::Number(2),
            Oper::Number(3),
            Oper::Number(4),
            Oper::Number(5),
            Oper::Number(6),
            Oper::Number(7),
            Oper::Number(8),
            Oper::Number(9),
            Oper::Pop,
            Oper::Cpy,
            Oper::StackCount,
            Oper::Add,
            Oper::Sub,
            Oper::Mul,
            Oper::Div,
            Oper::Mod,
            Oper::PushProgramCounter,
            Oper::PopProgramCounter,
            Oper::StdIn,
        ])
    );
}

#[test]
fn empty_source_is_the_empty_program() {
    assert_eq!(parse(""), Ok(vec![]));
    assert_eq!(parse(" \t\r\n"), Ok(vec![]));
}

#[test]
fn white_space_is_skipped_wherever_it_stands() {
    assert_eq!(
        parse("  1\n2\t+ \r\n"),
        Ok(vec![Oper::Number(1), Oper::Number(2), Oper::Add])
    );
}

#[test]
fn white_space_beyond_ascii_is_skipped() {
    assert_eq!(
        parse("1\u{a0}2\u{3000}+\u{2003}\u{85}"),
        Ok(vec![Oper::Number(1), Oper::Number(2), Oper::Add])
    );
}

#[test]
fn a_number_of_several_digits_is_one_literal_for_each_digit() {
    assert_eq!(
        parse("42"),
        Ok(vec![Oper::Number(4), Oper::Number(2)])
    );
}

#[test]
fn program_length_is_the_count_of_characters_other_than_white_space() {
    let source = " 1 2 +\n3 *\t! $ < > ? ";
    let expected = source.chars().filter(|c| !c.is_whitespace()).count();
    assert_eq!(expected, 10);
    assert_eq!(parse(source).unwrap().len(), expected);
    let vm = VirtualMachine::try_new(source.to_string()).unwrap();
    assert_eq!(vm.instructions().len(), expected);
}

#[test]
fn an_invalid_token_fails_the_parse_and_is_named() {
    assert_eq!(
        parse("1a2"),
        Err("String 'a' cannot be parsed as an operation.".to_string())
    );
}

#[test]
fn the_first_invalid_token_is_the_one_named() {
    assert_eq!(
        parse("12+ x y"),
        Err("String 'x' cannot be parsed as an operation.".to_string())
    );
    assert_eq!(
        parse("y12+ x"),
        Err("String 'y' cannot be parsed as an operation.".to_string())
    );
}

#[test]
fn an_invalid_token_at_the_end_fails_the_whole_parse() {
    assert_eq!(
        parse("12+34*!&"),
        Err("String '&' cannot be parsed as an operation.".to_string())
    );
}

#[test]
fn a_token_beyond_ascii_is_named_whole() {
    assert_eq!(
        parse("1 \u{e9} 2"),
        Err("String '\u{e9}' cannot be parsed as an operation.".to_string())
    );
    assert_eq!(
        parse("\u{1f600}"),
        Err("String '\u{1f600}' cannot be parsed as an operation.".to_string())
    );
}

#[test]
fn digits_of_other_scripts_are_no_tokens() {
    assert_eq!(
        parse("\u{663}"),
        Err("String '\u{663}' cannot be parsed as an operation.".to_string())
    );
    assert_eq!(
        parse("\u{ff11}"),
        Err("String '\u{ff11}' cannot be parsed as an operation.".to_string())
    );
}

#[test]
fn every_character_is_white_space_a_token_or_an_error() {
    let valid = "0123456789!@$+-*/%<>?";
    for code in 0..=0x10ffff_u32 {
        let Some(c) = char::from_u32(code) else {
            continue;
        };
        let parsed = parse(&c.to_string());
        if c.is_whitespace() {
            assert_eq!(parsed, Ok(vec![]));
        } else if valid.contains(c) {
            assert_eq!(parsed.map(|ops| ops.len()), Ok(1));
        } else {
            assert_eq!(
                parsed,
                Err(format!("String '{c}' cannot be parsed as an operation."))
            );
        }
    }
}

#[test]
fn no_machine_is_built_from_an_invalid_program() {
    let r = VirtualMachine::try_new("12#".to_string());
    assert_eq!(
        r.err(),
        Some("String '#' cannot be parsed as an operation.".to_string())
    );
    let r = VirtualMachine::new("12#".to_string());
    assert_eq!(
        r.err(),
        Some("String '#' cannot be parsed as an operation.".to_string())
    );
}

#[test]
fn both_parsers_agree() {
    for source in ["", "12+", " 5 5 @ ", "1a", "<>?", "abc"] {
        assert_eq!(
            Oper::try_new(source.to_string()),
            Oper::load_oper_vec_from_string(source.to_string())
        );
    }
}

#[test]
fn a_machine_starts_at_address_zero_with_an_empty_stack() {
    let vm = VirtualMachine::try_new("12+".to_string()).unwrap();
    assert_eq!(vm.program_counter(), 0);
    assert!(vm.stack().is_empty());
    assert!(!*vm.endstate());
    assert_eq!(
        vm.instructions(),
        &vec![Oper::Number(1), Oper::Number(2), Oper::Add]
    );
    let vm = VirtualMachine::new(" 7 ".to_string()).unwrap();
    assert_eq!(vm.program_counter(), 0);
    assert!(vm.stack().is_empty());
    assert!(!*vm.endstate());
    assert_eq!(vm.instructions(), &vec![Oper::Number(7)]);
}

#[test]
fn a_token_given_as_text_is_one_character() {
    assert_eq!(Oper::try_from("5".to_string()), Ok(Oper::Number(5)));
    assert_eq!(Oper::try_from("0".to_string()), Ok(Oper::Number(0)));
    assert_eq!(Oper::try_from("!".to_string()), Ok(Oper::Pop));
    assert_eq!(Oper::try_from("@".to_string()), Ok(Oper::Cpy));
    assert_eq!(Oper::try_from("$".to_string()), Ok(Oper::StackCount));
    assert_eq!(Oper::try_from("+".to_string()), Ok(Oper::Add));
    assert_eq!(Oper::try_from("-".to_string()), Ok(Oper::Sub));
    assert_eq!(Oper::try_from("*".to_string()), Ok(Oper::Mul));
    assert_eq!(Oper::try_from("/".to_string()), Ok(Oper::Div));
    assert_eq!(Oper::try_from("%".to_string()), Ok(Oper::Mod));
    assert_eq!(
        Oper::try_from("<".to_string()),
        Ok(Oper::PushProgramCounter)
    );
    assert_eq!(Oper::try_from(">".to_string()), Ok(Oper::PopProgramCounter));
    assert_eq!(Oper::try_from("?".to_string()), Ok(Oper::StdIn));
}

#[test]
fn text_that_is_no_single_token_is_refused_and_named() {
    assert_eq!(
        Oper::try_from("x".to_string()),
        Err("String 'x' cannot be parsed as an operation.".to_string())
    );
    assert_eq!(
        Oper::try_from("12".to_string()),
        Err("String '12' cannot be parsed as an operation.".to_string())
    );
    assert_eq!(
        Oper::try_from("".to_string()),
        Err("String '' cannot be parsed as an operation.".to_string())
    );
    assert_eq!(
        Oper::try_from(" ".to_string()),
        Err("String ' ' cannot be parsed as an operation.".to_string())
    );
    assert_eq!(
        Oper::try_from("-1".to_string()),
        Err("String '-1' cannot be parsed as an operation.".to_string())
    );
}

#[test]
fn try_into_goes_through_the_same_conversion() {
    let r: Result<Oper, String> = "7".to_string().try_into();
    assert_eq!(r, Ok(Oper::Number(7)));
    let r: Result<Oper, String> = "seven".to_string().try_into();
    assert_eq!(
        r,
        Err("String 'seven' cannot be parsed as an operation.".to_string())
    );
}

#[test]
fn the_error_message_quotes_the_token() {
    assert_eq!(
        parse_error("abc"),
        "String 'abc' cannot be parsed as an operation."
    );
    assert_eq!(parse_error(""), "String '' cannot be parsed as an operation.");
}

#[test]
fn numeric_strings_hold_decimal_digits_only() {
    assert!(is_string_numeric(""));
    assert!(is_string_numeric("0"));
    assert!(is_string_numeric("0123456789"));
    assert!(!is_string_numeric("12a"));
    assert!(!is_string_numeric("a12"));
    assert!(!is_string_numeric("-1"));
    assert!(!is_string_numeric("1 2"));
    assert!(!is_string_numeric("\u{663}"));
}

#[test]
fn instructions_are_listed_by_name() {
    assert_eq!(Oper::Number(5).to_string(), "NUM 5");
    assert_eq!(Oper::Number(0).to_string(), "NUM 0");
    assert_eq!(Oper::Number(-12).to_string(), "NUM -12");
    assert_eq!(Oper::Number(1234567890).to_string(), "NUM 1234567890");
    assert_eq!(
        Oper::Number(isize::MAX).to_string(),
        format!("NUM {}", isize::MAX)
    );
    assert_eq!(
        Oper::Number(isize::MIN).to_string(),
        format!("NUM {}", isize::MIN)
    );
    assert_eq!(Oper::Pop.to_string(), "POP");
    assert_eq!(Oper::Cpy.to_string(), "CPY");
    assert_eq!(Oper::StackCount.to_string(), "STACK_COUNT");
    assert_eq!(Oper::Add.to_string(), "ADD");
    assert_eq!(Oper::Sub.to_string(), "SUB");
    assert_eq!(Oper::Mul.to_string(), "MUL");
    assert_eq!(Oper::Div.to_string(), "DIV");
    assert_eq!(Oper::Mod.to_string(), "MOD");
    assert_eq!(
        Oper::PushProgramCounter.to_string(),
        "PUSH_PROGRAM_COUNTER"
    );
    assert_eq!(Oper::PopProgramCounter.to_string(), "POP_PROGRAM_COUNTER");
    assert_eq!(Oper::StdIn.to_string(), "STD_IN");
}

#[test]
fn a_name_is_appended_to_what_is_there() {
    let mut out = String::from("3\t");
    Oper::Number(-4).write_to(&mut out);
    assert_eq!(out, "3\tNUM -4");
    Oper::Add.write_to(&mut out);
    assert_eq!(out, "3\tNUM -4ADD");
}
