use c_macro_explainer::{preprocess, MacroPreprocessor, PreprocessError};

fn expand(source: &str) -> String {
    preprocess(source).unwrap()
}

#[test]
fn self_reference_expands_once() {
    assert_eq!(expand("#define EPERM EPERM\nEPERM"), "EPERM");
}

#[test]
fn mutual_reference_expands_each_name_once() {
    assert_eq!(
        expand("#define x (4 + y)\n#define y (2 * x)\nx\ny\n"),
        "(4 + (2 * x))\n(2 * (4 + y))\n"
    );
}

#[test]
fn hidden_name_expands_again_in_later_text() {
    assert_eq!(expand("#define foo (4 + foo)\nfoo foo"), "(4 + foo) (4 + foo)");
}

#[test]
fn name_right_behind_its_expansion_stays_hidden() {
    assert_eq!(expand("#define ID(x) x\nID(1)ID(2)"), "1ID(2)");
}

#[test]
fn object_macro_is_replaced_by_its_body() {
    assert_eq!(expand("#define PI 3.14\nPI * r"), "3.14 * r");
}

#[test]
fn object_macro_with_empty_body() {
    assert_eq!(expand("#define EMPTY\n[EMPTY]"), "[]");
}

#[test]
fn function_macro_keeps_parentheses() {
    assert_eq!(
        expand("#define MAX(a,b) ((a) > (b) ? (a) : (b))\nMAX(10, 20)"),
        "((10) > (20) ? (10) : (20))"
    );
}

#[test]
fn inner_call_is_expanded_before_substitution() {
    assert_eq!(expand("#define f(x) ((x) + 1)\nf(f(1))"), "((((1) + 1)) + 1)");
}

#[test]
fn paste_suppresses_prescan() {
    assert_eq!(
        expand(
            "#define AFTERX(x) X_ ## x\n#define XAFTERX(x) AFTERX(x)\n#define TABLESIZE 1024\n#define BUFSIZE TABLESIZE\nAFTERX(BUFSIZE)\nXAFTERX(BUFSIZE)\n"
        ),
        "X_BUFSIZE\nX_1024\n"
    );
}

#[test]
fn undef_leaves_later_uses_verbatim() {
    assert_eq!(expand("#define A 1\nA\n#undef A\nA\n"), "1\nA\n");
}

#[test]
fn undef_of_unknown_name_is_no_error() {
    assert_eq!(expand("#undef NOPE\nNOPE"), "NOPE");
}

#[test]
fn undef_takes_the_rest_of_its_line() {
    assert_eq!(expand("#undef A junk\nB"), "B");
}

#[test]
fn undef_at_the_end_of_the_text() {
    assert_eq!(expand("#define A 1\n#undef A"), "");
}

#[test]
fn redefinition_replaces_the_definition() {
    assert_eq!(expand("#define A 1\n#define A 2\nA"), "2");
}

#[test]
fn variadic_arguments_are_joined() {
    assert_eq!(
        expand("#define CHECK_N(x, n, ...) n\n#define CHECK(...) CHECK_N(__VA_ARGS__, 0,)\nCHECK(a, b)"),
        "b"
    );
    assert_eq!(expand("#define SHOW(...) [__VA_ARGS__]\nSHOW(a,b ,  c)"), "[a, b, c]");
    assert_eq!(expand("#define Q(x, ...) x|__VA_ARGS__|\nQ(1, 2, 3)"), "1|2, 3|");
}

#[test]
fn variadic_arguments_may_be_missing() {
    assert_eq!(expand("#define Q(x, ...) x|__VA_ARGS__|\nQ(1)"), "1||");
}

#[test]
fn expanded_text_expands_to_itself() {
    let source = "#define PI 3.14\n#define SQ(x) ((x) * (x))\narea = PI * SQ(r);\n";
    let mut preprocessor = MacroPreprocessor::new();
    let once = preprocessor.process_mut(source).unwrap();
    assert_eq!(once, "area = 3.14 * ((r) * (r));\n");
    assert_eq!(preprocessor.process_mut(&once).unwrap(), once);
    assert_eq!(preprocessor.process(&once).unwrap(), once);
}

#[test]
fn empty_text() {
    assert_eq!(expand(""), "");
}

#[test]
fn unterminated_definition_is_an_error() {
    assert_eq!(preprocess("#define X 1"), Err(PreprocessError::UnterminatedDefinition));
    assert_eq!(preprocess("a\n#define X 1 \\\n"), Err(PreprocessError::UnterminatedDefinition));
    assert_eq!(preprocess("#define X \\"), Err(PreprocessError::UnterminatedDefinition));
}

#[test]
fn malformed_parameter_list_is_an_error() {
    assert_eq!(preprocess("#define f(a b) x\n"), Err(PreprocessError::MalformedParameterList));
    assert_eq!(preprocess("#define f(a\n"), Err(PreprocessError::MalformedParameterList));
    assert_eq!(preprocess("#define f(a,) x\n"), Err(PreprocessError::MalformedParameterList));
    assert_eq!(preprocess("#define f(1) x\n"), Err(PreprocessError::MalformedParameterList));
}

#[test]
fn endless_nesting_is_an_error() {
    assert_eq!(
        preprocess("#define h(x) x\n#define f(x) h(f(x))\nf(1)"),
        Err(PreprocessError::NestingTooDeep)
    );
}

#[test]
fn error_keeps_the_definitions_made_before_it() {
    let mut preprocessor = MacroPreprocessor::new();
    assert_eq!(
        preprocessor.process_mut("#define A 1\n#define B"),
        Err(PreprocessError::UnterminatedDefinition)
    );
    assert_eq!(preprocessor.process("A B").unwrap(), "1 B");
}

#[test]
fn error_messages_name_the_construct() {
    assert_eq!(
        PreprocessError::MalformedParameterList.message(),
        "malformed parameter list in #define"
    );
    assert_eq!(PreprocessError::UnterminatedDefinition.message(), "unterminated #define");
    assert_eq!(PreprocessError::NestingTooDeep.message(), "macro arguments nested too deeply");
}

#[test]
fn continuation_joins_lines_and_drops_leading_blanks() {
    assert_eq!(expand("#define LONG a \\\n    b\nLONG"), "a b");
}

#[test]
fn continuation_keeps_a_leading_tab() {
    assert_eq!(expand("#define LONG a\\\n\tb\nLONG"), "a\tb");
}

#[test]
fn backslash_before_another_character_stays() {
    assert_eq!(expand("#define P a\\nb\nP"), "a\\nb");
    assert_eq!(expand("#define D \\\\ x\nD"), "\\\\ x");
}

#[test]
fn body_is_trimmed() {
    assert_eq!(expand("#  define   SP   v  \n[SP]"), "[v]");
}

#[test]
fn blank_before_parenthesis_makes_an_object_macro() {
    assert_eq!(expand("#define F (x)\nF"), "(x)");
}

#[test]
fn function_macro_without_parameters() {
    assert_eq!(expand("#define E() z\nE()"), "z");
}

#[test]
fn parameter_list_may_span_lines() {
    assert_eq!(expand("#define W(a,\n  b) a+b\nW(1, 2)"), "1+2");
}

#[test]
fn call_of_an_unknown_name_is_rescanned() {
    assert_eq!(expand("#define PI 3.14\ng(PI)"), "g(3.14)");
}

#[test]
fn call_without_closing_parenthesis_is_text() {
    assert_eq!(expand("#define f(x) x\nf(1"), "f(1");
}

#[test]
fn object_macro_before_a_parenthesis_is_left() {
    assert_eq!(expand("#define X 1\nX (2)"), "X (2)");
}

#[test]
fn function_macro_without_a_call_is_left() {
    assert_eq!(expand("#define f(x) x\nf + 1"), "f + 1");
}

#[test]
fn nested_parentheses_do_not_split_arguments() {
    assert_eq!(expand("#define N(a) a\nN((1, 2))"), "(1, 2)");
    assert_eq!(expand("#define M2(a, b) b a\nM2( x y ,  (p, q) )"), "(p, q) x y");
}

#[test]
fn missing_argument_leaves_the_parameter() {
    assert_eq!(expand("#define V(a, b) a-b\nV(1)"), "1-b");
}

#[test]
fn line_comment_is_dropped_up_to_the_line_feed() {
    assert_eq!(expand("a // c\nb"), "a \nb");
}

#[test]
fn block_comment_is_dropped_with_its_end() {
    assert_eq!(expand("a /* c */ b"), "a  b");
}

#[test]
fn open_comment_is_text() {
    assert_eq!(expand("/* x"), "/* x");
    assert_eq!(expand("// x"), "// x");
}

#[test]
fn directive_in_a_comment_is_not_carried_out() {
    assert_eq!(expand("// #define A 1\nA"), "\nA");
}

#[test]
fn stringify_escapes_and_adds_no_quotes() {
    assert_eq!(expand("#define S(x) #x\nS(a\"b)"), "a\\\"b");
    assert_eq!(expand("#define S2(x) # x\nS2(a\tb)"), "a\\tb");
}

#[test]
fn stringify_of_bytes_beyond_ascii() {
    assert_eq!(expand("#define S3(x) #x ## x\nS3(\u{e9})"), "\\xc3\\xa9 #\\xc3\\xa9");
}

#[test]
fn stringify_of_a_name_that_is_no_parameter_is_left() {
    assert_eq!(expand("#define T(x) #y\nT(1)"), "#y");
}

#[test]
fn paste_of_two_names_that_are_no_parameters_is_left() {
    assert_eq!(expand("#define U() a ## b\nU()"), "a ## b");
}

#[test]
fn paste_joins_without_a_separator() {
    assert_eq!(expand("#define CAT(a, b) a ## b\nCAT(x, 1)"), "x1");
    assert_eq!(expand("#define PRE(a) pre_ ## a\nPRE(fix)"), "pre_fix");
}

#[test]
fn characters_beyond_ascii_pass_through() {
    assert_eq!(expand("#define PI 3.14\n\u{e9} PI \u{4e16}"), "\u{e9} 3.14 \u{4e16}");
}

#[test]
fn names_are_whole_identifiers() {
    assert_eq!(expand("#define K k\n1K K1 K"), "1k K1 k");
}

#[test]
fn directive_made_by_an_expansion_is_text() {
    assert_eq!(expand("#define ID(x) x\nID(#undef ID\n) ID(1)"), "#undef ID 1");
}

#[test]
fn directive_behind_text_on_the_same_line() {
    assert_eq!(expand("a #define B 2\nB"), "a 2");
}

#[test]
fn process_does_not_regard_directives() {
    let preprocessor = MacroPreprocessor::new();
    assert_eq!(preprocessor.process("#define A 1\nA").unwrap(), "#define A 1\nA");
}

#[test]
fn process_mut_keeps_the_table() {
    let mut preprocessor = MacroPreprocessor::default();
    assert_eq!(preprocessor.process_mut("#define A 1\n").unwrap(), "");
    assert_eq!(preprocessor.process("A").unwrap(), "1");
    assert_eq!(preprocessor.process_mut("#undef A\nA").unwrap(), "A");
    assert_eq!(preprocessor.process("A").unwrap(), "A");
}

#[test]
fn nesting_is_counted_from_the_given_depth() {
    let mut preprocessor = MacroPreprocessor::new();
    preprocessor.process_mut("#define f(x) ((x) + 1)\n#define g(x) x ## x\n").unwrap();
    assert_eq!(preprocessor.process_within("f(1)", 0), Err(PreprocessError::NestingTooDeep));
    assert_eq!(preprocessor.process_within("f(1)", 1).unwrap(), "((1) + 1)");
    assert_eq!(preprocessor.process_within("f(f(1))", 1), Err(PreprocessError::NestingTooDeep));
    assert_eq!(preprocessor.process_within("f(f(1))", 2).unwrap(), "((((1) + 1)) + 1)");
    assert_eq!(preprocessor.process_within("g(f)", 0).unwrap(), "ff");
    assert_eq!(
        preprocessor.process_mut_within("#define A 1\nf(A)", 0),
        Err(PreprocessError::NestingTooDeep)
    );
    assert_eq!(preprocessor.process_mut_within("f(A)", 1).unwrap(), "((1) + 1)");
}
