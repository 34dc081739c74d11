//! What holds of expansion whatever the table and the text are.

use vstd::prelude::*;
use crate::error::PreprocessError;
use crate::parser::{
    body_scan, call_at, comment_len, define_at, directive_name, find_char, has_word, ident_end,
    ident_run_end, identifier_len, space_run_end, DefinitionText, MacroText,
};
use crate::rewrite::{
    call_expansion, directive_at, expand_pure, expand_toplevel, lemma_next_action,
    lemma_run_unfold, next_action, prescan_from, run, run_top, step, Directive, Outcome, Scan,
    Table,
};
use crate::substitution::{binding, expansion, has_paste, is_variadic, join_with};
use crate::text::{is_ident_char, is_ident_start, trimmed};

verus! {

/// `name` is an identifier and nothing more.
pub open spec fn is_identifier(name: Seq<char>) -> bool {
    name.len() > 0 && is_ident_start(name[0]) && forall|i: int|
        0 <= i < name.len() ==> is_ident_char(#[trigger] name[i])
}

/// No comment begins anywhere in `text`, and no name that begins anywhere in
/// it is defined in `table`.
pub open spec fn is_expanded(table: Table, text: Seq<char>) -> bool {
    forall|i: int|
        0 <= i < text.len() ==> comment_len(#[trigger] text.skip(i)) is None && match identifier_len(
            text.skip(i),
        ) {
            Some(n) => !table.contains_key(text.skip(i).subrange(0, n)),
            None => true,
        }
}

/// No directive begins anywhere in `text`.
pub open spec fn has_no_directive(text: Seq<char>) -> bool {
    forall|i: int|
        0 <= i < text.len() ==> directive_name(#[trigger] text.skip(i), "undef"@) is None
            && directive_name(text.skip(i), "define"@) is None
}

proof fn lemma_ident_run_end_is(s: Seq<char>, a: int, b: int)
    requires
        0 <= a <= b <= s.len(),
        forall|k: int| a <= k < b ==> is_ident_char(#[trigger] s[k]),
        b == s.len() || !is_ident_char(s[b]),
    ensures
        ident_run_end(s, a) == b,
    decreases b - a,
{
    if a < b {
        lemma_ident_run_end_is(s, a + 1, b);
    }
}

proof fn lemma_expanded_suffix(table: Table, text: Seq<char>, k: int)
    requires
        is_expanded(table, text),
        0 <= k <= text.len(),
    ensures
        is_expanded(table, text.skip(k)),
{
    assert forall|i: int| 0 <= i < text.skip(k).len() implies comment_len(
        #[trigger] text.skip(k).skip(i),
    ) is None && match identifier_len(text.skip(k).skip(i)) {
        Some(n) => !table.contains_key(text.skip(k).skip(i).subrange(0, n)),
        None => true,
    } by {
        assert(text.skip(k).skip(i) =~= text.skip(k + i));
    }
}

proof fn lemma_no_directive_suffix(text: Seq<char>, k: int)
    requires
        has_no_directive(text),
        0 <= k <= text.len(),
    ensures
        has_no_directive(text.skip(k)),
{
    assert forall|i: int| 0 <= i < text.skip(k).len() implies directive_name(
        #[trigger] text.skip(k).skip(i),
        "undef"@,
    ) is None && directive_name(text.skip(k).skip(i), "define"@) is None by {
        assert(text.skip(k).skip(i) =~= text.skip(k + i));
    }
}

/// In a text that is expanded already, the one thing to do at the front is
/// to write what stands there.
proof fn lemma_expanded_front(table: Table, scan: Scan, depth: nat)
    requires
        is_expanded(table, scan.rest),
        scan.rest.len() > 0,
    ensures
        next_action(table, scan.hidden, scan.rest) is Emit,
        step(table, scan, depth) == Ok::<Scan, PreprocessError>(
            scan.consume(next_action(table, scan.hidden, scan.rest)->Emit_len, true),
        ),
        0 < next_action(table, scan.hidden, scan.rest)->Emit_len <= scan.rest.len(),
{
    assert(scan.rest.skip(0) =~= scan.rest);
    lemma_next_action(table, scan.hidden, scan.rest);
}

/// A scan of text that is expanded already writes the text as it stands.
pub proof fn lemma_run_expanded(table: Table, scan: Scan, depth: nat)
    requires
        table.dom().finite(),
        is_expanded(table, scan.rest),
    ensures
        run(table, scan, depth) == Ok::<Seq<char>, PreprocessError>(scan.out + scan.rest),
    decreases scan.rest.len(),
{
    lemma_run_unfold(table, scan, depth);
    if scan.rest.len() == 0 {
        assert(scan.out + scan.rest =~= scan.out);
    } else {
        lemma_expanded_front(table, scan, depth);
        let k = next_action(table, scan.hidden, scan.rest)->Emit_len;
        let next = scan.consume(k, true);
        lemma_expanded_suffix(table, scan.rest, k);
        lemma_run_expanded(table, next, depth);
        assert(next.out + next.rest =~= scan.out + scan.rest);
    }
}

/// Expansion leaves expanded text as it is: a text without comments that
/// holds no name of a macro expands to itself.
pub proof fn lemma_expansion_is_idempotent(table: Table, text: Seq<char>, depth: nat)
    requires
        table.dom().finite(),
        is_expanded(table, text),
    ensures
        expand_pure(table, text, depth) == Ok::<Seq<char>, PreprocessError>(text),
{
    lemma_run_expanded(table, Scan::start(text), depth);
    assert(Seq::<char>::empty() + text =~= text);
}

/// A scan with directives of text that is expanded already and holds no
/// directive writes the text as it stands and leaves the table alone.
pub proof fn lemma_run_top_expanded(table: Table, scan: Scan, depth: nat)
    requires
        table.dom().finite(),
        is_expanded(table, scan.rest),
        has_no_directive(scan.rest),
    ensures
        run_top(table, scan, depth) == (Outcome { table, result: Ok(scan.out + scan.rest) }),
    decreases scan.rest.len(),
{
    if scan.rest.len() == 0 {
        assert(scan.out + scan.rest =~= scan.out);
    } else {
        assert(scan.rest.skip(0) =~= scan.rest);
        assert(directive_at(scan) == Ok::<Option<Directive>, PreprocessError>(None));
        lemma_expanded_front(table, scan, depth);
        let k = next_action(table, scan.hidden, scan.rest)->Emit_len;
        let next = scan.consume(k, true);
        lemma_expanded_suffix(table, scan.rest, k);
        lemma_no_directive_suffix(scan.rest, k);
        lemma_run_top_expanded(table, next, depth);
        assert(next.out + next.rest =~= scan.out + scan.rest);
    }
}

/// Expansion with directives leaves expanded text as it is: a text without
/// comments and directives that holds no name of a macro expands to itself,
/// and the table stays as it was.
pub proof fn lemma_toplevel_expansion_is_idempotent(table: Table, text: Seq<char>, depth: nat)
    requires
        table.dom().finite(),
        is_expanded(table, text),
        has_no_directive(text),
    ensures
        expand_toplevel(table, text, depth) == (Outcome { table, result: Ok(text) }),
{
    lemma_run_top_expanded(table, Scan::start(text), depth);
    assert(Seq::<char>::empty() + text =~= text);
}

/// Where `name` stands at the front of a text and no identifier character
/// follows it, it is the identifier that the scanners find there.
proof fn lemma_identifier_at_front(name: Seq<char>, s: Seq<char>, at: int)
    requires
        is_identifier(name),
        0 <= at,
        at + name.len() <= s.len(),
        s.subrange(at, at + name.len()) == name,
        at + name.len() == s.len() || !is_ident_char(s[at + name.len()]),
    ensures
        ident_end(s, at) == Some(at + name.len()),
{
    assert forall|k: int| at <= k < at + name.len() implies is_ident_char(#[trigger] s[k]) by {
        assert(s[k] == s.subrange(at, at + name.len())[k - at]);
    }
    assert(s[at] == s.subrange(at, at + name.len())[0]);
    lemma_ident_run_end_is(s, at + 1, at + name.len());
}

/// A name that the table does not define is written as it stands.
pub proof fn lemma_undefined_name_is_written(table: Table, scan: Scan, depth: nat)
    requires
        identifier_len(scan.rest) is Some,
        !table.contains_key(scan.rest.subrange(0, identifier_len(scan.rest)->0)),
    ensures
        step(table, scan, depth) == Ok::<Scan, PreprocessError>(
            scan.consume(identifier_len(scan.rest)->0, true),
        ),
{
}

/// A name that is hidden is written as it stands, whatever it is defined
/// as: a macro is not expanded again in the text that its own expansion
/// made.
pub proof fn lemma_hidden_name_is_written(table: Table, scan: Scan, depth: nat)
    requires
        identifier_len(scan.rest) is Some,
        scan.hidden.contains(scan.rest.subrange(0, identifier_len(scan.rest)->0)),
    ensures
        step(table, scan, depth) == Ok::<Scan, PreprocessError>(
            scan.consume(identifier_len(scan.rest)->0, true),
        ),
{
}

/// An `#undef` line takes the definition of its name away and writes
/// nothing: the text behind the line is expanded against the table without
/// the name.
pub proof fn lemma_undef_line(table: Table, name: Seq<char>, tail: Seq<char>, depth: nat)
    requires
        table.dom().finite(),
        is_identifier(name),
    ensures
        expand_toplevel(table, "#undef "@ + name + seq!['\n'] + tail, depth) == expand_toplevel(
            table.remove(name),
            tail,
            depth,
        ),
{
    reveal_strlit("#undef ");
    reveal_strlit("undef");
    let s = "#undef "@ + name + seq!['\n'] + tail;
    let n = name.len() as int;
    assert(s[0] == '#');
    assert(s[1] == 'u');
    assert(s[6] == ' ');
    assert(s[7] == name[0]);
    assert(s[7 + n] == '\n');
    assert(s.subrange(1, 6) =~= "undef"@);
    assert(s.subrange(7, 7 + n) =~= name);
    assert(space_run_end(s, 1) == 1);
    assert(space_run_end(s, 7) == 7);
    assert(space_run_end(s, 6) == 7);
    lemma_identifier_at_front(name, s, 7);
    assert(find_char(s, '\n', 7 + n) == Some(7 + n));
    assert(directive_name(s, "undef"@) == Some((7int, 7 + n)));
    let scan = Scan::start(s);
    assert(comment_len(s) is None);
    assert(directive_at(scan) == Ok::<Option<Directive>, PreprocessError>(
        Some(Directive::Undef { name, len: 8 + n }),
    ));
    let next = scan.consume(8 + n, false);
    assert(next.rest =~= tail);
    assert(next == Scan::start(tail));
}

/// After `#undef` of a name the name is left as it stands.
pub proof fn lemma_undef_then_use(table: Table, name: Seq<char>, depth: nat)
    requires
        table.dom().finite(),
        is_identifier(name),
    ensures
        expand_toplevel(table, "#undef "@ + name + seq!['\n'] + name, depth) == (Outcome {
            table: table.remove(name),
            result: Ok(name),
        }),
{
    lemma_undef_line(table, name, name, depth);
    let left = table.remove(name);
    let scan = Scan::start(name);
    assert(name.subrange(0, name.len() as int) =~= name);
    lemma_identifier_at_front(name, name, 0);
    lemma_undefined_name_is_written(left, scan, depth);
    let next = scan.consume(name.len() as int, true);
    assert(next.rest =~= Seq::<char>::empty());
    assert(next.out =~= name);
    assert(directive_at(scan) == Ok::<Option<Directive>, PreprocessError>(None));
    assert(run_top(left, next, depth) == (Outcome { table: left, result: Ok(name) }));
}

/// A macro that is defined as its own name expands to the name: the one
/// expansion hides the name, and what it left is written as it stands.
pub proof fn lemma_self_reference(table: Table, name: Seq<char>, depth: nat)
    requires
        table.dom().finite(),
        is_identifier(name),
        table.contains_key(name),
        table[name] == (MacroText::Object { body: name }),
    ensures
        expand_pure(table, name, depth) == Ok::<Seq<char>, PreprocessError>(name),
{
    let n = name.len() as int;
    let scan = Scan::start(name);
    assert(name.subrange(0, n) =~= name);
    lemma_identifier_at_front(name, name, 0);
    assert(space_run_end(name, n) == n);
    assert(call_at(name) is None);
    assert(comment_len(name) is None);
    let spliced = scan.splice(n, name, name);
    assert(step(table, scan, depth) == Ok::<Scan, PreprocessError>(spliced));
    assert(spliced.rest =~= name);
    let written = spliced.consume(n, true);
    assert(step(table, spliced, depth) == Ok::<Scan, PreprocessError>(written));
    assert(written.rest =~= Seq::<char>::empty());
    assert(written.out =~= name);
    lemma_run_unfold(table, scan, depth);
    lemma_run_unfold(table, spliced, depth);
    lemma_run_unfold(table, written, depth);
}

/// An object macro gives way to its body: a name that is defined as an
/// object macro, with no argument list behind it, expands to the body where
/// the body and the text behind the name are expanded already.
pub proof fn lemma_object_macro(table: Table, name: Seq<char>, tail: Seq<char>, depth: nat)
    requires
        table.dom().finite(),
        is_identifier(name),
        table.contains_key(name),
        table[name] is Object,
        tail.len() == 0 || !is_ident_char(tail[0]),
        call_at(name + tail) is None,
        is_expanded(table, table[name]->Object_body + tail),
    ensures
        expand_pure(table, name + tail, depth) == Ok::<Seq<char>, PreprocessError>(
            table[name]->Object_body + tail,
        ),
{
    let s = name + tail;
    let n = name.len() as int;
    let body = table[name]->Object_body;
    let scan = Scan::start(s);
    assert(s.subrange(0, n) =~= name);
    lemma_identifier_at_front(name, s, 0);
    assert(comment_len(s) is None);
    let spliced = scan.splice(n, body, name);
    assert(step(table, scan, depth) == Ok::<Scan, PreprocessError>(spliced));
    assert(spliced.rest =~= body + tail);
    lemma_run_unfold(table, scan, depth);
    lemma_run_expanded(table, spliced, depth);
    assert(spliced.out + spliced.rest =~= body + tail);
}

/// The arguments of a call are not expanded before they are put into a body
/// that pastes: the expansion is the body with the arguments as written.
pub proof fn lemma_paste_suppresses_prescan(
    table: Table,
    name: Seq<char>,
    args: Seq<Seq<char>>,
    depth: nat,
)
    requires
        table.contains_key(name),
        table[name] is Function,
        has_paste(table[name]->Function_body),
    ensures
        call_expansion(table, name, args, depth) == Ok::<Seq<char>, PreprocessError>(
            expansion(table[name]->params, args, table[name]->Function_body),
        ),
{
}

/// A stretch of a line without backslashes is the text of a definition as
/// it stands.
proof fn lemma_body_scan_plain(s: Seq<char>, i: int, j: int, acc: Seq<char>)
    requires
        0 <= i <= j < s.len(),
        s[j] == '\n',
        forall|k: int| i <= k < j ==> #[trigger] s[k] != '\\' && s[k] != '\n',
    ensures
        body_scan(s, i, false, acc) == Some((acc + s.subrange(i, j), j)),
    decreases j - i,
{
    if i < j {
        lemma_body_scan_plain(s, i + 1, j, acc.push(s[i]));
        assert(acc.push(s[i]) + s.subrange(i + 1, j) =~= acc + s.subrange(i, j));
    } else {
        assert(acc + s.subrange(i, j) =~= acc);
    }
}

/// The text holds neither a backslash nor a line feed.
pub open spec fn is_plain_line(line: Seq<char>) -> bool {
    forall|k: int| 0 <= k < line.len() ==> #[trigger] line[k] != '\\' && line[k] != '\n'
}

/// A `#define` line with a name and, behind the name, a text that does not
/// open a parameter list defines the name as an object macro with that text,
/// trimmed, and writes nothing: the text behind the line is expanded against
/// the table with the definition.
pub proof fn lemma_define_line(
    table: Table,
    name: Seq<char>,
    line: Seq<char>,
    tail: Seq<char>,
    depth: nat,
)
    requires
        table.dom().finite(),
        is_identifier(name),
        is_plain_line(line),
        line.len() == 0 || (line[0] != '(' && !is_ident_char(line[0])),
    ensures
        expand_toplevel(table, "#define "@ + name + line + seq!['\n'] + tail, depth)
            == expand_toplevel(
            table.insert(name, MacroText::Object { body: trimmed(line) }),
            tail,
            depth,
        ),
{
    reveal_strlit("#define ");
    reveal_strlit("define");
    reveal_strlit("undef");
    let s = "#define "@ + name + line + seq!['\n'] + tail;
    let n = name.len() as int;
    let e = 8 + n;
    let j = e + line.len();
    assert(s[0] == '#');
    assert(s[1] == 'd');
    assert(s[7] == ' ');
    assert(s[8] == name[0]);
    assert(s[j] == '\n');
    assert(s.subrange(1, 7) =~= "define"@);
    assert(s.subrange(8, e) =~= name);
    assert(s.subrange(e, j) =~= line);
    assert(space_run_end(s, 1) == 1);
    assert(space_run_end(s, 8) == 8);
    assert(space_run_end(s, 7) == 8);
    assert(!has_word(s, 1, "undef"@)) by {
        if 1 + "undef"@.len() <= s.len() {
            assert(s.subrange(1, 6)[0] == s[1]);
        }
    }
    if line.len() > 0 {
        assert(s[e] == line[0]);
    }
    lemma_identifier_at_front(name, s, 8);
    assert(directive_name(s, "define"@) == Some((8int, e)));
    assert(directive_name(s, "undef"@) is None);
    assert forall|k: int| e <= k < j implies #[trigger] s[k] != '\\' && s[k] != '\n' by {
        assert(s[k] == line[k - e]);
    }
    lemma_body_scan_plain(s, e, j, Seq::empty());
    assert(Seq::<char>::empty() + s.subrange(e, j) =~= line);
    let definition = MacroText::Object { body: trimmed(line) };
    assert(define_at(s) == Ok::<Option<DefinitionText>, PreprocessError>(
        Some(DefinitionText { name, definition, consumed: j + 1 }),
    ));
    let scan = Scan::start(s);
    assert(comment_len(s) is None);
    assert(directive_at(scan) == Ok::<Option<Directive>, PreprocessError>(
        Some(Directive::Define { name, definition, len: j + 1 }),
    ));
    let next = scan.consume(j + 1, false);
    assert(next.rest =~= tail);
    assert(next == Scan::start(tail));
}

/// With directives regarded, too, an object macro gives way to its body: a
/// name that is defined as an object macro, with no argument list behind it,
/// expands to the body where the body and the text behind the name are
/// expanded already and hold no directive.
pub proof fn lemma_object_macro_toplevel(
    table: Table,
    name: Seq<char>,
    tail: Seq<char>,
    depth: nat,
)
    requires
        table.dom().finite(),
        is_identifier(name),
        table.contains_key(name),
        table[name] is Object,
        tail.len() == 0 || !is_ident_char(tail[0]),
        call_at(name + tail) is None,
        is_expanded(table, table[name]->Object_body + tail),
        has_no_directive(table[name]->Object_body + tail),
    ensures
        expand_toplevel(table, name + tail, depth) == (Outcome {
            table,
            result: Ok(table[name]->Object_body + tail),
        }),
{
    let s = name + tail;
    let n = name.len() as int;
    let body = table[name]->Object_body;
    let scan = Scan::start(s);
    assert(s.subrange(0, n) =~= name);
    lemma_identifier_at_front(name, s, 0);
    assert(comment_len(s) is None);
    assert(directive_at(scan) == Ok::<Option<Directive>, PreprocessError>(None));
    let spliced = scan.splice(n, body, name);
    assert(step(table, scan, depth) == Ok::<Scan, PreprocessError>(spliced));
    assert(spliced.rest =~= body + tail);
    lemma_run_top_expanded(table, spliced, depth);
    assert(spliced.out + spliced.rest =~= body + tail);
}

/// A name that a `#define` line has defined as a text stands for that text
/// from the next line on.
pub proof fn lemma_define_then_use(
    table: Table,
    name: Seq<char>,
    line: Seq<char>,
    tail: Seq<char>,
    depth: nat,
)
    requires
        table.dom().finite(),
        is_identifier(name),
        is_plain_line(line),
        line.len() == 0 || (line[0] != '(' && !is_ident_char(line[0])),
        tail.len() == 0 || !is_ident_char(tail[0]),
        call_at(name + tail) is None,
        is_expanded(
            table.insert(name, MacroText::Object { body: trimmed(line) }),
            trimmed(line) + tail,
        ),
        has_no_directive(trimmed(line) + tail),
    ensures
        expand_toplevel(table, "#define "@ + name + line + seq!['\n'] + (name + tail), depth) == (
        Outcome {
            table: table.insert(name, MacroText::Object { body: trimmed(line) }),
            result: Ok(trimmed(line) + tail),
        }),
{
    lemma_define_line(table, name, line, name + tail, depth);
    lemma_object_macro_toplevel(
        table.insert(name, MacroText::Object { body: trimmed(line) }),
        name,
        tail,
        depth,
    );
}

proof fn lemma_prescan_from(
    table: Table,
    args: Seq<Seq<char>>,
    i: int,
    acc: Seq<Seq<char>>,
    depth: nat,
)
    requires
        table.dom().finite(),
        0 <= i <= args.len(),
    ensures
        match prescan_from(table, args, i, acc, depth) {
            Ok(given) => given.len() == acc.len() + args.len() - i && (forall|k: int|
                0 <= k < acc.len() ==> given[k] == acc[k]) && (forall|k: int|
                i <= k < args.len() ==> expand_pure(table, #[trigger] args[k], depth) == Ok::<
                    Seq<char>,
                    PreprocessError,
                >(given[acc.len() + k - i])),
            Err(e) => exists|k: int|
                i <= k < args.len() && expand_pure(table, #[trigger] args[k], depth) == Err::<
                    Seq<char>,
                    PreprocessError,
                >(e),
        },
    decreases args.len() - i,
{
    if i < args.len() {
        match run(table, Scan::start(args[i]), depth) {
            Err(e) => {
                assert(expand_pure(table, args[i], depth) == Err::<Seq<char>, PreprocessError>(e));
            },
            Ok(text) => {
                lemma_prescan_from(table, args, i + 1, acc.push(text), depth);
                match prescan_from(table, args, i + 1, acc.push(text), depth) {
                    Ok(given) => {
                        assert(given[acc.len() as int] == acc.push(text)[acc.len() as int]);
                        assert forall|k: int| 0 <= k < acc.len() implies given[k] == acc[k] by {
                            assert(acc.push(text)[k] == acc[k]);
                        }
                    },
                    Err(e) => {},
                }
            },
        }
    }
}

/// The arguments that are expanded before substitution are expanded one by
/// one, each as a text of its own, and the first error among them is the
/// error of them all.
pub proof fn lemma_prescan(table: Table, args: Seq<Seq<char>>, depth: nat)
    requires
        table.dom().finite(),
    ensures
        match prescan_from(table, args, 0, Seq::empty(), depth) {
            Ok(given) => given.len() == args.len() && forall|k: int|
                0 <= k < args.len() ==> expand_pure(table, #[trigger] args[k], depth) == Ok::<
                    Seq<char>,
                    PreprocessError,
                >(given[k]),
            Err(e) => exists|k: int|
                0 <= k < args.len() && expand_pure(table, #[trigger] args[k], depth) == Err::<
                    Seq<char>,
                    PreprocessError,
                >(e),
        },
{
    lemma_prescan_from(table, args, 0, Seq::empty(), depth);
}

/// The arguments of a call are expanded before they are put into a body
/// that does not paste: where each argument expands to a text, the expansion
/// of the call is the body with those texts put in.
pub proof fn lemma_arguments_are_expanded_first(
    table: Table,
    name: Seq<char>,
    args: Seq<Seq<char>>,
    given: Seq<Seq<char>>,
    depth: nat,
)
    requires
        table.dom().finite(),
        table.contains_key(name),
        table[name] is Function,
        !has_paste(table[name]->Function_body),
        depth > 0,
        given.len() == args.len(),
        forall|k: int|
            0 <= k < args.len() ==> expand_pure(table, #[trigger] args[k], (depth - 1) as nat)
                == Ok::<Seq<char>, PreprocessError>(given[k]),
    ensures
        call_expansion(table, name, args, depth) == Ok::<Seq<char>, PreprocessError>(
            expansion(table[name]->params, given, table[name]->Function_body),
        ),
{
    lemma_prescan(table, args, (depth - 1) as nat);
    match prescan_from(table, args, 0, Seq::empty(), (depth - 1) as nat) {
        Ok(found) => {
            assert forall|k: int| 0 <= k < args.len() implies found[k] == given[k] by {
                assert(expand_pure(table, args[k], (depth - 1) as nat) == Ok::<
                    Seq<char>,
                    PreprocessError,
                >(found[k]));
            }
            assert(found =~= given);
        },
        Err(e) => {},
    }
}

/// In a variadic macro `__VA_ARGS__` stands for the arguments from the place
/// of `...` on, with a comma and a blank between each two of them: for none
/// the empty text, for one the argument itself, for two the first, `, ` and
/// the second.
pub proof fn lemma_variadic_join(params: Seq<Seq<char>>, args: Seq<Seq<char>>)
    requires
        is_variadic(params),
        params.len() - 1 <= args.len(),
    ensures
        binding(params, args, "__VA_ARGS__"@) == Some(
            join_with(args.skip(params.len() - 1), ", "@),
        ),
        args.len() == params.len() - 1 ==> binding(params, args, "__VA_ARGS__"@) == Some(
            Seq::<char>::empty(),
        ),
        args.len() == params.len() ==> binding(params, args, "__VA_ARGS__"@) == Some(args.last()),
        args.len() == params.len() + 1 ==> binding(params, args, "__VA_ARGS__"@) == Some(
            args[params.len() - 1] + ", "@ + args[params.len() as int],
        ),
{
    let extra = args.skip(params.len() - 1);
    if args.len() == params.len() + 1 {
        assert(extra.drop_last().len() == 1);
        assert(join_with(extra.drop_last(), ", "@) == extra.drop_last()[0]);
    }
}

} // verus!
