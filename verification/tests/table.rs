use c_macro_explainer::substitution::{contains_paste, escape_argument, lookup_argument, substitute};
use c_macro_explainer::{HideSet, Macro, MacroPreprocessor, PreprocessError, NESTING_LIMIT};

fn strings(items: &[&str]) -> Vec<String> {
    items.iter().map(|s| s.to_string()).collect()
}

fn object(body: &str) -> Macro {
    Macro::Object { body: body.to_string() }
}

fn function(params: &[&str], body: &str) -> Macro {
    Macro::Function { params: strings(params), body: body.to_string() }
}

fn same(a: &Option<Macro>, b: &Option<Macro>) -> bool {
    match (a, b) {
        (None, None) => true,
        (Some(Macro::Object { body: x }), Some(Macro::Object { body: y })) => x == y,
        (
            Some(Macro::Function { params: p, body: x }),
            Some(Macro::Function { params: q, body: y }),
        ) => p == q && x == y,
        _ => false,
    }
}

#[test]
fn table_define_lookup_undefine() {
    let mut t = MacroPreprocessor::new();
    assert!(t.lookup("A").is_none());
    t.define_macro("A".to_string(), object("1"));
    t.define_macro("F".to_string(), function(&["x"], "x x"));
    assert!(same(&t.lookup("A"), &Some(object("1"))));
    assert!(same(&t.lookup("F"), &Some(function(&["x"], "x x"))));
    assert!(t.lookup("B").is_none());
    t.define_macro("A".to_string(), object("2"));
    assert!(same(&t.lookup("A"), &Some(object("2"))));
    assert!(same(&t.lookup("F"), &Some(function(&["x"], "x x"))));
    t.undefine_macro("A");
    assert!(t.lookup("A").is_none());
    assert!(same(&t.lookup("F"), &Some(function(&["x"], "x x"))));
    t.undefine_macro("A");
    t.undefine_macro("never");
    assert!(same(&t.lookup("F"), &Some(function(&["x"], "x x"))));
    t.define_macro("A".to_string(), function(&[], "z"));
    assert!(same(&t.lookup("A"), &Some(function(&[], "z"))));
}

#[test]
fn table_removal_keeps_the_other_names() {
    let mut t = MacroPreprocessor::new();
    t.define_macro("A".to_string(), object("1"));
    t.define_macro("B".to_string(), object("2"));
    t.define_macro("C".to_string(), object("3"));
    t.undefine_macro("A");
    assert!(same(&t.lookup("B"), &Some(object("2"))));
    assert!(same(&t.lookup("C"), &Some(object("3"))));
    t.undefine_macro("C");
    assert!(same(&t.lookup("B"), &Some(object("2"))));
    assert_eq!(t.process("A B C").unwrap(), "A 2 C");
}

#[test]
fn hide_set() {
    let mut h = HideSet::new();
    assert!(!h.contains("A"));
    h.insert("A".to_string());
    h.insert("B".to_string());
    h.insert("A".to_string());
    assert!(h.contains("A") && h.contains("B") && !h.contains("C"));
    h.clear();
    assert!(!h.contains("A") && !h.contains("B"));
}

#[test]
fn expand_object_macro_hides_the_name() {
    let mut t = MacroPreprocessor::new();
    t.define_macro("A".to_string(), object("a body"));
    t.define_macro("F".to_string(), function(&["x"], "x"));
    let mut h = HideSet::new();
    assert_eq!(t.expand_object_macro(&mut h, "F"), None);
    assert_eq!(t.expand_object_macro(&mut h, "B"), None);
    assert!(!h.contains("F") && !h.contains("B") && !h.contains("A"));
    assert_eq!(t.expand_object_macro(&mut h, "A"), Some("a body".to_string()));
    assert!(h.contains("A"));
    assert_eq!(t.expand_object_macro(&mut h, "A"), None);
    h.clear();
    assert_eq!(t.expand_object_macro(&mut h, "A"), Some("a body".to_string()));
}

#[test]
fn expand_function_macro_substitutes_and_hides() {
    let mut t = MacroPreprocessor::new();
    t.define_macro("A".to_string(), object("1"));
    t.define_macro("F".to_string(), function(&["x", "y"], "y + x"));
    t.define_macro("P".to_string(), function(&["x"], "p_ ## x"));
    let mut h = HideSet::new();
    assert_eq!(t.expand_function_macro(&mut h, "A", &strings(&["1"]), 4), Ok(None));
    assert_eq!(t.expand_function_macro(&mut h, "G", &strings(&["1"]), 4), Ok(None));
    assert!(!h.contains("A") && !h.contains("G"));
    assert_eq!(
        t.expand_function_macro(&mut h, "F", &strings(&["A", "b"]), 4),
        Ok(Some("b + 1".to_string()))
    );
    assert!(h.contains("F"));
    assert_eq!(t.expand_function_macro(&mut h, "F", &strings(&["A", "b"]), 4), Ok(None));
    assert_eq!(
        t.expand_function_macro(&mut h, "P", &strings(&["A"]), 0),
        Ok(Some("p_A".to_string()))
    );
    assert!(h.contains("P"));
}

#[test]
fn expand_function_macro_needs_depth_for_prescan() {
    let mut t = MacroPreprocessor::new();
    t.define_macro("F".to_string(), function(&["x"], "[x]"));
    let mut h = HideSet::new();
    assert_eq!(
        t.expand_function_macro(&mut h, "F", &strings(&["F(1)"]), 0),
        Err(PreprocessError::NestingTooDeep)
    );
    assert!(!h.contains("F"));
    assert_eq!(
        t.expand_function_macro(&mut h, "F", &strings(&["F(1)"]), 1),
        Err(PreprocessError::NestingTooDeep)
    );
    assert!(!h.contains("F"));
    assert_eq!(
        t.expand_function_macro(&mut h, "F", &strings(&["F(1)"]), 2),
        Ok(Some("[[1]]".to_string()))
    );
    assert!(h.contains("F"));
}

#[test]
fn nesting_limit() {
    assert_eq!(NESTING_LIMIT, 64);
    let mut t = MacroPreprocessor::new();
    t.define_macro("I".to_string(), function(&["x"], "x"));
    let mut deep = String::from("0");
    for _ in 0..NESTING_LIMIT {
        deep = format!("I({})", deep);
    }
    assert_eq!(t.process(&deep).unwrap(), "0");
    deep = format!("I({})", deep);
    assert_eq!(t.process(&deep), Err(PreprocessError::NestingTooDeep));
}

#[test]
fn get_argument_by_position() {
    let params = strings(&["a", "b", "a"]);
    let args = strings(&["1", "2", "3"]);
    assert_eq!(MacroPreprocessor::get_argument(&params, &args, "a"), "1");
    assert_eq!(MacroPreprocessor::get_argument(&params, &args, "b"), "2");
    assert_eq!(MacroPreprocessor::get_argument(&params, &args, "c"), "c");
    assert_eq!(MacroPreprocessor::get_argument(&params, &strings(&["1"]), "b"), "b");
    assert_eq!(MacroPreprocessor::get_argument(&params, &args, "__VA_ARGS__"), "__VA_ARGS__");
    assert_eq!(MacroPreprocessor::get_argument(&strings(&[]), &strings(&[""]), "x"), "x");
}

#[test]
fn get_argument_joins_the_variadic_arguments() {
    let params = strings(&["x", "..."]);
    assert_eq!(
        MacroPreprocessor::get_argument(&params, &strings(&["1", "a", "b", "c"]), "__VA_ARGS__"),
        "a, b, c"
    );
    assert_eq!(
        MacroPreprocessor::get_argument(&params, &strings(&["1", "a"]), "__VA_ARGS__"),
        "a"
    );
    assert_eq!(MacroPreprocessor::get_argument(&params, &strings(&["1"]), "__VA_ARGS__"), "");
    assert_eq!(MacroPreprocessor::get_argument(&params, &strings(&[]), "__VA_ARGS__"), "");
    assert_eq!(
        MacroPreprocessor::get_argument(&strings(&["..."]), &strings(&["", "", ""]), "__VA_ARGS__"),
        ", , "
    );
    assert_eq!(
        MacroPreprocessor::get_argument(&params, &strings(&["1", "a", "b"]), "x"),
        "1"
    );
}

#[test]
fn lookup_argument_tells_bound_from_unbound() {
    let params = strings(&["a", "..."]);
    let args = strings(&["1", "2", "3"]);
    assert_eq!(lookup_argument(&params, &args, "a"), Some("1".to_string()));
    assert_eq!(lookup_argument(&params, &args, "__VA_ARGS__"), Some("2, 3".to_string()));
    assert_eq!(lookup_argument(&params, &args, "b"), None);
    assert_eq!(lookup_argument(&params, &strings(&[]), "a"), None);
    assert_eq!(lookup_argument(&strings(&["a"]), &args, "__VA_ARGS__"), None);
    assert_eq!(
        lookup_argument(&strings(&["__VA_ARGS__"]), &args, "__VA_ARGS__"),
        Some("1".to_string())
    );
}

#[test]
fn stringify_escapes_each_byte() {
    assert_eq!(escape_argument("abc ~!"), "abc ~!");
    assert_eq!(escape_argument("\t\r\n"), "\\t\\r\\n");
    assert_eq!(escape_argument("'\"\\"), "\\'\\\"\\\\");
    assert_eq!(escape_argument("\u{0}\u{1f}\u{7f}"), "\\x00\\x1f\\x7f");
    assert_eq!(escape_argument("\u{e9}"), "\\xc3\\xa9");
    assert_eq!(escape_argument("\u{4e16}"), "\\xe4\\xb8\\x96");
    assert_eq!(escape_argument("\u{1f600}"), "\\xf0\\x9f\\x98\\x80");
    assert_eq!(escape_argument(""), "");
}

#[test]
fn stringify_agrees_with_the_standard_library() {
    let mut all = String::new();
    let mut n: u32 = 0;
    while n < 0x800 {
        if let Some(c) = char::from_u32(n) {
            all.push(c);
        }
        n += 1;
    }
    let expected: Vec<u8> = all.bytes().flat_map(std::ascii::escape_default).collect();
    assert_eq!(escape_argument(&all), String::from_utf8(expected).unwrap());
}

#[test]
fn paste_is_found_anywhere_in_a_body() {
    let c = |s: &str| s.chars().collect::<Vec<char>>();
    assert!(contains_paste(&c("a ## b")));
    assert!(contains_paste(&c("##")));
    assert!(contains_paste(&c("x ###")));
    assert!(!contains_paste(&c("a # b # c")));
    assert!(!contains_paste(&c("#")));
    assert!(!contains_paste(&c("")));
}

#[test]
fn substitute_puts_the_arguments_in() {
    let params = strings(&["a", "b"]);
    let args = strings(&["1", "x y"]);
    assert_eq!(substitute(&params, &args, "((a) > (b) ? (a) : (b))"), "((1) > (x y) ? (1) : (x y))");
    assert_eq!(substitute(&params, &args, "a1 ab b_ c"), "a1 ab b_ c");
    assert_eq!(substitute(&params, &args, "a##b"), "1x y");
    assert_eq!(substitute(&params, &args, "a ## c"), "1c");
    assert_eq!(substitute(&params, &args, "c ## b"), "cx y");
    assert_eq!(substitute(&params, &args, "c ## d"), "c ## d");
    assert_eq!(substitute(&params, &args, "#a # b #c"), "1 x y #c");
    assert_eq!(substitute(&params, &args, "1a"), "11");
    assert_eq!(substitute(&params, &args, ""), "");
    assert_eq!(substitute(&params, &strings(&["\"q\""]), "#a a b"), "\\\"q\\\" \"q\" b");
    assert_eq!(substitute(&strings(&["..."]), &strings(&["p", "q"]), "f(__VA_ARGS__)"), "f(p, q)");
    assert_eq!(substitute(&params, &args, "a ## b ## a"), "1x y #1");
}
