use netter::language::vm::RDLTypes;
use netter::language::error::ErrorKind;
use netter::language::interpreter::builtin::filesystem::FileSystem;
use netter::cesium::check::Checksum;
use netter::cesium::sdk::{
    collect_logs_to_bytes, get_flags_and_status, get_response_ptr, has_flag, init_worker_context, log_push,
    make_result_value, WorkerLogStorage,
};
use netter::language::compiler::{BytecodeBuilder, Opcode};
use netter::language::interpreter::builtin::localization::{I18n, Language};
use netter::language::interpreter::builtin::request::HttpBodyVariant;
use netter::language::interpreter::Request;
use netter::language::lexer::Lexer;
use netter::language::parser::{parse, parse_u16};
use netter::language::token::TokenKind;

#[test]
fn crc32_of_the_check_string() {
    let mut sum = Checksum::<4, 64>::new();
    assert_eq!(sum.hash(b"123456789").ok(), Some(0xCBF43926));
    assert!(sum.contains_bytes(b"123456789"));
    assert!(!sum.contains_bytes(b"12345678"));
    assert_eq!(sum.len(), 1);
}

#[test]
fn streamed_checksum_equals_the_whole() {
    let mut sum = Checksum::<4, 64>::new();
    sum.update(b"12345").unwrap();
    sum.update(b"6789").unwrap();
    assert_eq!(sum.finalize().ok(), Some(0xCBF43926));
}

#[test]
fn packed_result_round_trip() {
    let v = make_result_value(200, 0x100, 77);
    assert_eq!(v, ((200u64 | 0x100) << 32) | 77);
    assert_eq!(get_flags_and_status(v), (200 | 0x100, 200));
    assert_eq!(get_response_ptr(v), 77);
    assert!(has_flag(0x300, 0x100));
    assert!(!has_flag(0x200, 0x100));
}

#[test]
fn logs_are_joined_with_newlines() {
    let mut storage = WorkerLogStorage::new();
    init_worker_context(&mut storage, "w1");
    log_push(&mut storage, "start");
    log_push(&mut storage, "ключ");
    assert_eq!(collect_logs_to_bytes(&storage), "[w1] start\n[w1] ключ".as_bytes().to_vec());
}

#[test]
fn translation_falls_back_to_english_then_the_key() {
    let mut i18n = I18n::new();
    i18n.add_item("hi", Language::En, "Hello");
    i18n.add_item("hi", Language::Ru, "Привет");
    assert_eq!(i18n.translate("hi", Language::Ru), "Привет");
    assert_eq!(i18n.translate("hi", Language::De), "Hello");
    assert_eq!(i18n.translate("bye", Language::De), "bye");
    assert_eq!(Language::Ru.as_str(), "ru");
}

#[test]
fn request_body_forms() {
    let mut r = Request::new();
    assert_eq!(r.get_body(), "");
    r.body = HttpBodyVariant::Text("hi".to_string());
    assert_eq!(r.get_body_as_base64(), "aGk=");
    r.body = HttpBodyVariant::Bytes(vec![0xff, 0x00]);
    assert!(r.is_body_binary());
    assert_eq!(r.get_body(), "[Binary Body - Use body_base64() for content]");
    assert_eq!(r.get_body_as_base64(), "/wA=");
}

#[test]
fn status_text_parsing() {
    assert_eq!(parse_u16("404"), Some(404));
    assert_eq!(parse_u16("+7"), Some(7));
    assert_eq!(parse_u16("65536"), None);
    assert_eq!(parse_u16(""), None);
    assert_eq!(parse_u16("1a"), None);
}

#[test]
fn lexer_reads_keywords_and_strings() {
    let mut lexer = Lexer::new(r#"route "/a" GET"#);
    let tokens = lexer.tokenize().unwrap();
    assert!(matches!(tokens[0].token_type, TokenKind::Route));
    assert!(matches!(&tokens[1].token_type, TokenKind::String(s) if s == "/a"));
    assert!(matches!(&tokens[2].token_type, TokenKind::HttpMethod(s) if s == "GET"));
    assert!(matches!(tokens[3].token_type, TokenKind::EOF));
    assert_eq!(tokens[1].column, 7);
}

#[test]
fn parse_reports_a_missing_semicolon() {
    assert!(parse(r#"route "/a" GET { Response.send(); }"#).is_err());
    assert!(parse(r#"route "/a" GET { Response.send(); };"#).is_ok());
}

#[test]
fn bytecode_builder_registers_constants_once() {
    let mut b = BytecodeBuilder::new();
    assert_eq!(b.register_constant("x".to_string()), 0);
    assert_eq!(b.register_constant("y".to_string()), 1);
    assert_eq!(b.register_constant("x".to_string()), 0);
    b.emit_op(Opcode::Nop);
    b.emit_op(Opcode::RET);
    assert_eq!(b.link(), vec![0x00, 0xFF]);
}

#[test]
fn opcodes_round_trip_through_bytes() {
    assert_eq!(Opcode::from_byte(Opcode::Call.byte()), Some(Opcode::Call));
    assert_eq!(Opcode::from_byte(0x42), None);
}

#[test]
fn file_listing_and_errors() {
    let names = vec!["a.txt".to_string(), "b \"q\".rd".to_string()];
    match FileSystem::listing(&names) {
        RDLTypes::String(t) => assert_eq!(t, r#"["a.txt","b \"q\".rd"]"#),
        _ => panic!("a listing is text"),
    }
    match FileSystem::listing(&Vec::new()) {
        RDLTypes::String(t) => assert_eq!(t, "[]"),
        _ => panic!("a listing is text"),
    }
    let e = FileSystem::failure("Ошибка чтения файла ", &RDLTypes::String("x.txt".to_string()), "not found");
    assert_eq!(e.kind, ErrorKind::Runtime);
    assert_eq!(e.message, "Ошибка чтения файла x.txt: not found");
    let e = FileSystem::not_a_directory(&RDLTypes::Number(7));
    assert_eq!(e.message, "Путь не является директорией: 7");
}

#[test]
fn values_as_port_numbers() {
    assert_eq!(RDLTypes::Boolean(true).to_u16(), 1);
    assert_eq!(RDLTypes::Boolean(false).to_u16(), 0);
    assert_eq!(RDLTypes::Number(8080).to_u16(), 8080);
    assert_eq!(RDLTypes::Number(65536 + 5).to_u16(), 5);
    assert_eq!(RDLTypes::Number(-1).to_u16(), 65535);
    assert_eq!(RDLTypes::String("443".to_string()).to_u16(), 443);
    assert_eq!(RDLTypes::String("+7".to_string()).to_u16(), 7);
    assert_eq!(RDLTypes::String("70000".to_string()).to_u16(), 0);
    assert_eq!(RDLTypes::String("port".to_string()).to_u16(), 0);
    assert_eq!(RDLTypes::Object(9).to_u16(), 0);
    let v = RDLTypes::Vector(vec![
        RDLTypes::Number(10),
        RDLTypes::String("20".to_string()),
        RDLTypes::Vector(vec![RDLTypes::Boolean(true), RDLTypes::Number(2)]),
    ]);
    assert_eq!(v.to_u16(), 33);
}

#[test]
fn while_and_loop_layout() {
    let mut b = BytecodeBuilder::new();
    b.emit_op(Opcode::Nop);
    b.emit_while(
        |c: &mut BytecodeBuilder| c.emit_op(Opcode::Nop),
        |c: &mut BytecodeBuilder, _s, e| {
            c.emit_op(Opcode::Nop);
            c.emit_break(e);
        },
    );
    let code = b.link();
    let jif = Opcode::JmpIfFalse.byte();
    let jmp = Opcode::Jmp.byte();
    assert_eq!(
        code,
        vec![0x00, 0x00, jif, 18, 0, 0, 0, 0x00, jmp, 18, 0, 0, 0, jmp, 1, 0, 0, 0]
    );

    let mut b = BytecodeBuilder::new();
    b.emit_op(Opcode::Nop);
    b.emit_loop(|c: &mut BytecodeBuilder, s, _e| {
        c.emit_op(Opcode::Nop);
        c.emit_continue(s);
    });
    let code = b.link();
    assert_eq!(code, vec![0x00, 0x00, jmp, 1, 0, 0, 0, jmp, 1, 0, 0, 0]);
}

#[test]
fn comments_are_dropped_and_eof_comes_last() {
    let mut lexer = Lexer::new("a // c\nb");
    let tokens = lexer.tokenize().unwrap();
    assert_eq!(tokens.len(), 3);
    assert!(matches!(&tokens[0].token_type, TokenKind::Identifier(s) if s == "a"));
    assert!(matches!(&tokens[1].token_type, TokenKind::Identifier(s) if s == "b"));
    assert!(matches!(tokens[2].token_type, TokenKind::EOF));
}

#[test]
fn unicode_white_space_separates_tokens() {
    let mut lexer = Lexer::new("\u{3000}a\u{2003}b\u{85}\u{A0}");
    let tokens = lexer.tokenize().unwrap();
    assert_eq!(tokens.len(), 3);
    assert!(matches!(&tokens[0].token_type, TokenKind::Identifier(s) if s == "a"));
    assert!(matches!(&tokens[1].token_type, TokenKind::Identifier(s) if s == "b"));
    assert!(matches!(tokens[2].token_type, TokenKind::EOF));
    for n in 0u32..0x3100 {
        if let Some(c) = char::from_u32(n) {
            let listed = (0x9..=0xD).contains(&n) || n == 0x20 || n == 0x85 || n == 0xA0 || n == 0x1680
                || (0x2000..=0x200A).contains(&n) || n == 0x2028 || n == 0x2029 || n == 0x202F || n == 0x205F || n == 0x3000;
            assert_eq!(c.is_whitespace(), listed, "code point {:x}", n);
        }
    }
}
