use c_macro_explainer::parser::{
    identifier, parse_comment, parse_concatenation, parse_define, parse_macro_call,
    parse_stringify, parse_undef, seek_char, seek_pair, Macro,
};
use c_macro_explainer::text::{
    append_chars, blank, chars_of, ident_char, ident_start, space, text_of, trim,
};
use c_macro_explainer::PreprocessError;

fn chars(s: &str) -> Vec<char> {
    s.chars().collect()
}

fn text(v: &[char]) -> String {
    v.iter().collect()
}

#[test]
fn character_classes() {
    assert!(ident_start('a') && ident_start('Z') && ident_start('_'));
    assert!(!ident_start('0') && !ident_start('-') && !ident_start('\u{e9}'));
    assert!(ident_char('a') && ident_char('0') && ident_char('9') && ident_char('_'));
    assert!(!ident_char(' ') && !ident_char('\u{e9}') && !ident_char('{') && !ident_char('@'));
    assert!(space(' ') && space('\t') && space('\r') && space('\n'));
    assert!(!space('\u{b}') && !space('\u{a0}') && !space('a'));
    assert!(blank(' ') && blank('\t') && blank('\n') && blank('\u{b}') && blank('\u{c}'));
    assert!(blank('\u{85}') && blank('\u{a0}') && blank('\u{1680}') && blank('\u{2000}'));
    assert!(blank('\u{200a}') && blank('\u{2028}') && blank('\u{2029}') && blank('\u{202f}'));
    assert!(blank('\u{205f}') && blank('\u{3000}'));
    assert!(!blank('a') && !blank('\u{200b}') && !blank('\u{8}') && !blank('\u{e}'));
}

#[test]
fn blank_agrees_with_the_standard_library() {
    let mut n: u32 = 0;
    while n < 0x3100 {
        if let Some(c) = char::from_u32(n) {
            assert_eq!(blank(c), c.is_whitespace(), "at {}", n);
            assert_eq!(ident_char(c), c.is_ascii_alphanumeric() || c == '_', "at {}", n);
        }
        n += 1;
    }
}

#[test]
fn strings_and_characters() {
    assert_eq!(chars_of("a\u{e9}b"), vec!['a', '\u{e9}', 'b']);
    assert_eq!(chars_of(""), Vec::<char>::new());
    assert_eq!(text_of(&['x', '\u{4e16}', 'y']), "x\u{4e16}y");
    assert_eq!(text_of(&[]), "");
    let mut v = vec!['a'];
    append_chars(&mut v, &['b', 'c']);
    assert_eq!(v, vec!['a', 'b', 'c']);
}

#[test]
fn trim_takes_blanks_from_both_ends() {
    assert_eq!(text(trim(&chars("  a b \t\n"))), "a b");
    assert_eq!(text(trim(&chars("a"))), "a");
    assert_eq!(text(trim(&chars(" \u{a0}\u{3000} "))), "");
    assert_eq!(text(trim(&chars(""))), "");
    assert_eq!(text(trim(&chars("\u{2003}x\u{b}"))), "x");
}

#[test]
fn seeking() {
    let s = chars("ab*c*/d");
    assert_eq!(seek_char(&s, '*', 0), Some(2));
    assert_eq!(seek_char(&s, '*', 3), Some(4));
    assert_eq!(seek_char(&s, 'z', 0), None);
    assert_eq!(seek_char(&s, 'a', 7), None);
    assert_eq!(seek_pair(&s, '*', '/', 0), Some(4));
    assert_eq!(seek_pair(&s, '*', '/', 5), None);
    assert_eq!(seek_pair(&chars("*"), '*', '/', 0), None);
}

#[test]
fn identifier_is_the_longest_run() {
    assert_eq!(identifier(&chars("abc def")), Some(3));
    assert_eq!(identifier(&chars("_a1+")), Some(3));
    assert_eq!(identifier(&chars("x")), Some(1));
    assert_eq!(identifier(&chars("1abc")), None);
    assert_eq!(identifier(&chars("")), None);
    assert_eq!(identifier(&chars(" a")), None);
    assert_eq!(identifier(&chars("a\u{e9}")), Some(1));
}

#[test]
fn comments() {
    assert_eq!(parse_comment(&chars("// abc\nrest")), Some(6));
    assert_eq!(parse_comment(&chars("//\n")), Some(2));
    assert_eq!(parse_comment(&chars("// abc")), None);
    assert_eq!(parse_comment(&chars("/* a */ b")), Some(7));
    assert_eq!(parse_comment(&chars("/**/")), Some(4));
    assert_eq!(parse_comment(&chars("/*/")), None);
    assert_eq!(parse_comment(&chars("/* a")), None);
    assert_eq!(parse_comment(&chars("/ / a\n")), None);
    assert_eq!(parse_comment(&chars("a // b\n")), None);
    assert_eq!(parse_comment(&chars("/")), None);
    assert_eq!(parse_comment(&chars("")), None);
}

#[test]
fn stringify_operator() {
    assert_eq!(parse_stringify(&chars("#x y")), Some((1, 2)));
    assert_eq!(parse_stringify(&chars("#  \t name)")), Some((5, 9)));
    assert_eq!(parse_stringify(&chars("# 1")), None);
    assert_eq!(parse_stringify(&chars("##x")), None);
    assert_eq!(parse_stringify(&chars("x")), None);
    assert_eq!(parse_stringify(&chars("#")), None);
    assert_eq!(parse_stringify(&chars("")), None);
}

#[test]
fn paste_operator() {
    assert_eq!(parse_concatenation(&chars("a ## b")), Some((1, 5, 6)));
    assert_eq!(parse_concatenation(&chars("ab##cd+")), Some((2, 4, 6)));
    assert_eq!(parse_concatenation(&chars("a #\n# b")), None);
    assert_eq!(parse_concatenation(&chars("a # b")), None);
    assert_eq!(parse_concatenation(&chars("a ## 1")), None);
    assert_eq!(parse_concatenation(&chars("a ##")), None);
    assert_eq!(parse_concatenation(&chars("a #")), None);
    assert_eq!(parse_concatenation(&chars("## b")), None);
    assert_eq!(parse_concatenation(&chars("a \n##\t b")), Some((1, 7, 8)));
}

#[test]
fn undef_directive() {
    let u = parse_undef(&chars("#undef NAME\nrest")).unwrap();
    assert_eq!((u.name_start, u.name_end, u.consumed), (7, 11, 12));
    let u = parse_undef(&chars("# undef  A b c\nrest")).unwrap();
    assert_eq!((u.name_start, u.name_end, u.consumed), (9, 10, 15));
    let u = parse_undef(&chars("#undef A")).unwrap();
    assert_eq!((u.name_start, u.name_end, u.consumed), (7, 8, 8));
    assert!(parse_undef(&chars("#undefA\n")).is_none());
    assert!(parse_undef(&chars("#undef 1\n")).is_none());
    assert!(parse_undef(&chars("#define A\n")).is_none());
    assert!(parse_undef(&chars(" #undef A\n")).is_none());
    assert!(parse_undef(&chars("#unde")).is_none());
    assert!(parse_undef(&chars("")).is_none());
}

fn object_body(m: &Macro) -> String {
    match m {
        Macro::Object { body } => body.clone(),
        Macro::Function { .. } => panic!("a function macro"),
    }
}

fn function_parts(m: &Macro) -> (Vec<String>, String) {
    match m {
        Macro::Function { params, body } => (params.clone(), body.clone()),
        Macro::Object { .. } => panic!("an object macro"),
    }
}

#[test]
fn define_object_macro() {
    let d = parse_define(&chars("#define PI 3.14\nrest")).unwrap().unwrap();
    assert_eq!(d.name, "PI");
    assert_eq!(object_body(&d.definition), "3.14");
    assert_eq!(d.consumed, 16);
    let d = parse_define(&chars("#define E\n")).unwrap().unwrap();
    assert_eq!(d.name, "E");
    assert_eq!(object_body(&d.definition), "");
    assert_eq!(d.consumed, 10);
    let d = parse_define(&chars("#define F (x) y\n")).unwrap().unwrap();
    assert_eq!(object_body(&d.definition), "(x) y");
    let d = parse_define(&chars("#define G+1\n")).unwrap().unwrap();
    assert_eq!(d.name, "G");
    assert_eq!(object_body(&d.definition), "+1");
}

#[test]
fn define_function_macro() {
    let d = parse_define(&chars("#define MAX(a, b) ((a) > (b))\n")).unwrap().unwrap();
    assert_eq!(d.name, "MAX");
    let (params, body) = function_parts(&d.definition);
    assert_eq!(params, vec!["a", "b"]);
    assert_eq!(body, "((a) > (b))");
    assert_eq!(d.consumed, 30);
    let d = parse_define(&chars("#define E()\n")).unwrap().unwrap();
    let (params, body) = function_parts(&d.definition);
    assert!(params.is_empty());
    assert_eq!(body, "");
    let d = parse_define(&chars("#define V( x ,... ) x __VA_ARGS__\n")).unwrap().unwrap();
    let (params, body) = function_parts(&d.definition);
    assert_eq!(params, vec!["x", "..."]);
    assert_eq!(body, "x __VA_ARGS__");
    let d = parse_define(&chars("#define W(...)\n")).unwrap().unwrap();
    let (params, _) = function_parts(&d.definition);
    assert_eq!(params, vec!["..."]);
}

#[test]
fn define_body_rules() {
    let d = parse_define(&chars("#define A a \\\n   b \\\n c\nrest")).unwrap().unwrap();
    assert_eq!(object_body(&d.definition), "a b c");
    assert_eq!(d.consumed, 24);
    let d = parse_define(&chars("#define A x\\ty\n")).unwrap().unwrap();
    assert_eq!(object_body(&d.definition), "x\\ty");
    let d = parse_define(&chars("#define A x\\\\\ny\n")).unwrap().unwrap();
    assert_eq!(object_body(&d.definition), "x\\\\");
    assert_eq!(d.consumed, 14);
    let d = parse_define(&chars("#define A a\\\n \\b  c\n")).unwrap().unwrap();
    assert_eq!(object_body(&d.definition), "a\\b  c");
    let d = parse_define(&chars("#define A   \t x \t \n")).unwrap().unwrap();
    assert_eq!(object_body(&d.definition), "x");
}

#[test]
fn define_that_is_none() {
    assert!(parse_define(&chars("define A 1\n")).unwrap().is_none());
    assert!(parse_define(&chars("#defineA 1\n")).unwrap().is_none());
    assert!(parse_define(&chars("#define 1\n")).unwrap().is_none());
    assert!(parse_define(&chars("#undef A\n")).unwrap().is_none());
    assert!(parse_define(&chars("#define")).unwrap().is_none());
    assert!(parse_define(&chars("")).unwrap().is_none());
}

#[test]
fn define_that_is_broken() {
    assert_eq!(
        parse_define(&chars("#define A 1")).err(),
        Some(PreprocessError::UnterminatedDefinition)
    );
    assert_eq!(
        parse_define(&chars("#define A")).err(),
        Some(PreprocessError::UnterminatedDefinition)
    );
    assert_eq!(
        parse_define(&chars("#define A 1\\\n2")).err(),
        Some(PreprocessError::UnterminatedDefinition)
    );
    assert_eq!(
        parse_define(&chars("#define F(a) 1")).err(),
        Some(PreprocessError::UnterminatedDefinition)
    );
    assert_eq!(
        parse_define(&chars("#define F(a 1\n")).err(),
        Some(PreprocessError::MalformedParameterList)
    );
    assert_eq!(
        parse_define(&chars("#define F( ) 1\n")).err(),
        Some(PreprocessError::MalformedParameterList)
    );
    assert_eq!(
        parse_define(&chars("#define F(a,,b) 1\n")).err(),
        Some(PreprocessError::MalformedParameterList)
    );
    assert_eq!(
        parse_define(&chars("#define F(..) 1\n")).err(),
        Some(PreprocessError::MalformedParameterList)
    );
    assert_eq!(
        parse_define(&chars("#define F(")).err(),
        Some(PreprocessError::MalformedParameterList)
    );
}

#[test]
fn macro_call_head() {
    let c = parse_macro_call(&chars("f(a, b) rest")).unwrap();
    assert_eq!((c.name_len, c.consumed), (1, 7));
    assert_eq!(c.args, vec!["a", "b"]);
    let c = parse_macro_call(&chars("name \n (  x y , (p, (q)) ,)z")).unwrap();
    assert_eq!((c.name_len, c.consumed), (4, 27));
    assert_eq!(c.args, vec!["x y", "(p, (q))", ""]);
    let c = parse_macro_call(&chars("f()")).unwrap();
    assert_eq!((c.name_len, c.consumed), (1, 3));
    assert_eq!(c.args, vec![""]);
    let c = parse_macro_call(&chars("f(,)")).unwrap();
    assert_eq!(c.args, vec!["", ""]);
    assert!(parse_macro_call(&chars("f(a, (b)")).is_none());
    assert!(parse_macro_call(&chars("f(")).is_none());
    assert!(parse_macro_call(&chars("f a")).is_none());
    assert!(parse_macro_call(&chars("f")).is_none());
    assert!(parse_macro_call(&chars("(a)")).is_none());
    assert!(parse_macro_call(&chars("1(a)")).is_none());
    assert!(parse_macro_call(&chars("")).is_none());
}
