use mca::assemble::{assemble, tokenize};
use mca::cpu::{FunctionCall, OpcodeType, Register};
use mca::emit::{bytes_to_words, words_to_bytes};
use mca::encode::parse_tokens;
use mca::labels::LabelTable;
use mca::pack::pack_payload;

#[test]
fn mov_scenario() {
    let (tokens, _labels) = tokenize("mov r0, 5\nhlt");
    assert_eq!(tokens, vec!["mov".to_string(), "r0".to_string(), "5".to_string(), "hlt".to_string()]);
    let words = assemble("mov r0, 5\nhlt").unwrap();
    assert_eq!(words, vec![0x06u16, 0x1001, 0x0005, 0x00FF]);
}

#[test]
fn loop_label_scenario() {
    let (_tokens, labels) = tokenize("loop:\nadd r0, r1\njmp loop");
    assert_eq!(labels.lookup("loop"), Some(0));
    let words = assemble("loop:\nadd r0, r1\njmp loop").unwrap();
    assert_eq!(words, vec![0x03u16, 0x1001, 0x1002, 0x05, 0x0000, 0x00FF]);
}

#[test]
fn ds_string_packs_one_word() {
    assert_eq!(pack_payload("\"AB\""), vec![0x4241u16]);
    let words = assemble("ds \"AB\"").unwrap();
    assert_eq!(words, vec![0x4241u16, 0x00FF]);
}

#[test]
fn ds_odd_length_pads_with_zero() {
    assert_eq!(pack_payload("\"ABC\""), vec![0x4241u16, 0x0043]);
    assert_eq!(pack_payload("\"A\""), vec![0x0041u16]);
    assert_eq!(pack_payload("\"\""), Vec::<u16>::new());
}

#[test]
fn mnemonic_lookup_ignores_case() {
    let lower = OpcodeType::try_from("mov").unwrap();
    let upper = OpcodeType::try_from("MOV").unwrap();
    let mixed = OpcodeType::try_from("Mov").unwrap();
    assert_eq!(lower.code(), 0x06);
    assert_eq!(upper.code(), lower.code());
    assert_eq!(mixed.code(), lower.code());
    let words = assemble("MOV R0, 5\nhlt").unwrap();
    assert_eq!(words, vec![0x06u16, 0x1001, 0x0005, 0x00FF]);
    // the terminator check matches the token text exactly, so an
    // upper-case HLT resolves to the halt opcode and one more is appended
    let upper = assemble("MOV R0, 5\nHLT").unwrap();
    assert_eq!(upper, vec![0x06u16, 0x1001, 0x0005, 0x00FF, 0x00FF]);
}

#[test]
fn unknown_token_fails_naming_it() {
    let err = assemble("foo").unwrap_err();
    assert_eq!(err.0, "foo");
}

#[test]
fn implicit_halt_appended() {
    assert_eq!(assemble("nop").unwrap(), vec![0x90u16, 0x00FF]);
}

#[test]
fn explicit_halt_not_duplicated() {
    assert_eq!(assemble("hlt").unwrap(), vec![0x00FFu16]);
}

#[test]
fn empty_program_emits_nothing() {
    assert_eq!(assemble("").unwrap(), Vec::<u16>::new());
}

#[test]
fn comments_and_blank_lines_ignored() {
    let src = "; a comment\n\nmov r0, 5 ; trailing\n\nhlt";
    assert_eq!(assemble(src).unwrap(), vec![0x06u16, 0x1001, 0x0005, 0x00FF]);
}

#[test]
fn carriage_returns_stripped() {
    assert_eq!(
        assemble("mov r0, 5\r\nhlt\r\n").unwrap(),
        vec![0x06u16, 0x1001, 0x0005, 0x00FF]
    );
}

#[test]
fn register_codes() {
    assert_eq!(Register::try_from("r0").unwrap().code(), 0x1001);
    assert_eq!(Register::try_from("r7").unwrap().code(), 0x1008);
    assert_eq!(Register::try_from("v0").unwrap().code(), 0x2001);
    assert_eq!(Register::try_from("v15").unwrap().code(), 0x2010);
    assert_eq!(Register::try_from("k0").unwrap().code(), 0x3001);
    assert!(Register::try_from("r8").is_err());
}

#[test]
fn function_call_codes() {
    assert_eq!(FunctionCall::try_from("set_pixel").unwrap().code(), 0x13);
    assert_eq!(FunctionCall::try_from("draw_character").unwrap().code(), 0x1A);
    assert!(FunctionCall::try_from("draw_circle").is_err());
    let words = assemble("call set_pixel\nhlt").unwrap();
    assert_eq!(words, vec![0x0Au16, 0x0013, 0x00FF]);
}

#[test]
fn character_literal_emits_code_point() {
    let words = assemble("push 'A'\nhlt").unwrap();
    assert_eq!(words, vec![0x14u16, 0x0041, 0x00FF]);
}

#[test]
fn integer_literal_bounds() {
    assert_eq!(assemble("push 65535\nhlt").unwrap(), vec![0x14u16, 0xFFFF, 0x00FF]);
    let err = assemble("push 65536\nhlt").unwrap_err();
    assert_eq!(err.0, "65536");
}

#[test]
fn label_names_are_case_sensitive() {
    let err = assemble("Loop:\njmp loop").unwrap_err();
    assert_eq!(err.0, "loop");
}

#[test]
fn later_label_declaration_shadows_earlier() {
    let words = assemble("x:\nnop\nx:\njmp x\nhlt").unwrap();
    assert_eq!(words, vec![0x90u16, 0x05, 0x0001, 0x00FF]);
}

#[test]
fn label_after_multiword_ds_gets_word_index() {
    let (_tokens, labels) = tokenize("ds \"ABCD\"\nlab:\njmp lab");
    assert_eq!(labels.lookup("lab"), Some(2));
    let words = assemble("ds \"ABCD\"\nlab:\njmp lab").unwrap();
    assert_eq!(words, vec![0x4241u16, 0x4443, 0x05, 0x0002, 0x00FF]);
}

#[test]
fn ds_extra_arguments_resolve_as_tokens() {
    let words = assemble("ds \"AB\", 65").unwrap();
    assert_eq!(words, vec![0x4241u16, 0x0041, 0x00FF]);
}

#[test]
fn ds_with_comma_inside_quotes_is_one_payload() {
    let (tokens, _labels) = tokenize("ds \"A,B\"");
    assert_eq!(tokens, vec!["ds".to_string(), "\"A,B\"".to_string()]);
    let words = assemble("ds \"A,B\"").unwrap();
    assert_eq!(words, vec![0x2C41u16, 0x0042, 0x00FF]);
}

#[test]
fn trailing_ds_swallows_the_implicit_halt() {
    let words = assemble("nop\nds").unwrap();
    assert_eq!(words, vec![0x90u16, 0x6C68, 0x0074]);
}

#[test]
fn parse_tokens_appends_halt() {
    let table = LabelTable::new();
    let words = parse_tokens(vec!["nop".to_string()], &table).unwrap();
    assert_eq!(words, vec![0x90u16, 0x00FF]);
}

#[test]
fn parse_tokens_reports_unresolved() {
    let table = LabelTable::new();
    let err = parse_tokens(vec!["bogus".to_string()], &table).unwrap_err();
    assert_eq!(err.0, "bogus");
}

#[test]
fn binary_round_trip() {
    let words: Vec<u16> = vec![0x0006, 0x1001, 0x0005, 0x00FF, 0x4241];
    let bytes = words_to_bytes(&words);
    assert_eq!(bytes, vec![0x06u8, 0x00, 0x01, 0x10, 0x05, 0x00, 0xFF, 0x00, 0x41, 0x42]);
    assert_eq!(bytes_to_words(&bytes), words);
}

#[test]
fn every_mnemonic_resolves() {
    let cases: Vec<(&str, u16)> = vec![
        ("load", 0x01),
        ("store", 0x02),
        ("add", 0x03),
        ("sub", 0x04),
        ("jmp", 0x05),
        ("hlt", 0xFF),
        ("mov", 0x06),
        ("inc", 0x07),
        ("div", 0x08),
        ("mul", 0x09),
        ("nop", 0x90),
        ("call", 0x0A),
        ("je", 0x0B),
        ("jne", 0x0C),
        ("cmp", 0x0D),
        ("and", 0x0E),
        ("or", 0x0F),
        ("xor", 0x10),
        ("not", 0x11),
        ("shl", 0x12),
        ("shr", 0x13),
        ("push", 0x14),
        ("pop", 0x15),
        ("ret", 0x16),
        ("load8", 0x17),
    ];
    for (name, code) in cases {
        assert_eq!(OpcodeType::try_from(name).unwrap().code(), code);
    }
    let err = OpcodeType::try_from("halt").unwrap_err();
    assert_eq!(err.0, "halt");
}
