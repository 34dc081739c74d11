//! The rewriting that expansion is, as mathematics: the state of a scan, the
//! one thing done at the front of what is left, and the whole run, with and
//! without directives.

use vstd::prelude::*;
use crate::error::PreprocessError;
use crate::parser::{
    call_at, comment_len, define_at, directive_name, ident_end, identifier_len, lemma_arg_scan,
    lemma_body_scan, lemma_find_char, lemma_find_pair, lemma_ident_run_end, lemma_space_run_end,
    param_list, space_run_end, undef_at, MacroText,
};
use crate::substitution::{expansion, has_paste};
use crate::text::is_ident_start;

verus! {

/// The macro table: what each defined name is defined as.
pub type Table = Map<Seq<char>, MacroText>;

/// The state of a scan.
pub struct Scan {
    /// What is still to be read.
    pub rest: Seq<char>,
    /// What has been written.
    pub out: Seq<char>,
    /// How many characters at the front of `rest` came out of expansions.
    pub shield: nat,
    /// The names that are not expanded while the scan is among those
    /// characters.
    pub hidden: Set<Seq<char>>,
}

impl Scan {
    /// The scan of `text` before anything is read.
    pub open spec fn start(text: Seq<char>) -> Scan {
        Scan { rest: text, out: Seq::empty(), shield: 0, hidden: Set::empty() }
    }

    /// The scan after `k` characters have been taken from the front and,
    /// with `emit`, written. Taking more than the shield covers leaves the
    /// text that expansions made, and every name may be expanded again.
    pub open spec fn consume(self, k: int, emit: bool) -> Scan {
        Scan {
            rest: self.rest.skip(k),
            out: if emit {
                self.out + self.rest.subrange(0, k)
            } else {
                self.out
            },
            shield: if k > self.shield {
                0
            } else {
                (self.shield - k) as nat
            },
            hidden: if k > self.shield {
                Set::empty()
            } else {
                self.hidden
            },
        }
    }

    /// The scan after the `k` characters at the front have been replaced by
    /// `text`, the expansion of `name`: the text is read next, under a shield
    /// that is longer by its length, and `name` is hidden.
    pub open spec fn splice(self, k: int, text: Seq<char>, name: Seq<char>) -> Scan {
        Scan {
            rest: text + self.rest.skip(k),
            out: self.out,
            shield: (if k > self.shield {
                0
            } else {
                (self.shield - k) as nat
            }) + text.len(),
            hidden: self.hidden.insert(name),
        }
    }

    /// How many characters of `rest` lie behind the shield.
    pub open spec fn unshielded(self) -> nat {
        if self.shield <= self.rest.len() {
            (self.rest.len() - self.shield) as nat
        } else {
            0
        }
    }
}

/// How many defined names are not hidden.
pub open spec fn free_names(table: Table, hidden: Set<Seq<char>>) -> nat {
    table.dom().difference(hidden).len()
}

/// What is done at the front of the text that is left.
pub enum Action {
    /// A comment of the given length is dropped.
    Skip { len: int },
    /// So many characters are written as they are.
    Emit { len: int },
    /// The object macro `name`, which takes `len` characters, gives way to
    /// its body.
    Object { len: int, name: Seq<char>, body: Seq<char> },
    /// The call of the function macro `name`, which takes `len` characters,
    /// gives way to the macro's body with the arguments put in.
    Call {
        len: int,
        name: Seq<char>,
        params: Seq<Seq<char>>,
        body: Seq<char>,
        args: Seq<Seq<char>>,
    },
}

/// What is done at the front of a non-empty `rest`, tried in this order: a
/// comment is dropped; the head of a call whose name is a function macro
/// that is not hidden is expanded, and of any other call the name alone is
/// written; a name that is an object macro and not hidden is expanded, and
/// any other name is written; any other character is written.
pub open spec fn next_action(table: Table, hidden: Set<Seq<char>>, rest: Seq<char>) -> Action {
    match comment_len(rest) {
        Some(n) => Action::Skip { len: n },
        None => match call_at(rest) {
            Some(call) => {
                let name = rest.subrange(0, call.name_len);
                if !hidden.contains(name) && table.contains_key(name) && table[name] is Function {
                    Action::Call {
                        len: call.consumed,
                        name,
                        params: table[name]->params,
                        body: table[name]->Function_body,
                        args: call.args,
                    }
                } else {
                    Action::Emit { len: call.name_len }
                }
            },
            None => match identifier_len(rest) {
                Some(e) => {
                    let name = rest.subrange(0, e);
                    if !hidden.contains(name) && table.contains_key(name) && table[name] is Object {
                        Action::Object { len: e, name, body: table[name]->Object_body }
                    } else {
                        Action::Emit { len: e }
                    }
                },
                None => Action::Emit { len: 1 },
            },
        },
    }
}

/// Every action takes at least one character and no more than there are,
/// and only a defined name that is not hidden is expanded.
pub proof fn lemma_next_action(table: Table, hidden: Set<Seq<char>>, rest: Seq<char>)
    requires
        rest.len() > 0,
    ensures
        match next_action(table, hidden, rest) {
            Action::Skip { len } => 0 < len <= rest.len(),
            Action::Emit { len } => 0 < len <= rest.len(),
            Action::Object { len, name, body } => 0 < len <= rest.len() && table.contains_key(name)
                && !hidden.contains(name),
            Action::Call { len, name, params, body, args } => 0 < len <= rest.len()
                && table.contains_key(name) && !hidden.contains(name),
        },
{
    if rest.len() >= 2 {
        lemma_find_char(rest, '\n', 2);
        lemma_find_pair(rest, '*', '/', 2);
    }
    if is_ident_start(rest[0]) {
        lemma_ident_run_end(rest, 1);
        let e = ident_end(rest, 0)->0;
        lemma_space_run_end(rest, e);
        let p = space_run_end(rest, e);
        if p < rest.len() {
            lemma_arg_scan(rest, p + 1, p + 1, 0, Seq::empty());
        }
    }
}

/// Taking characters from the front never lets the measure of a scan grow,
/// and makes it shorter.
pub proof fn lemma_consume_measure(scan: Scan, k: int, emit: bool)
    requires
        0 < k <= scan.rest.len(),
    ensures
        scan.consume(k, emit).rest.len() < scan.rest.len(),
        scan.consume(k, emit).unshielded() < scan.unshielded() || (scan.consume(
            k,
            emit,
        ).unshielded() == scan.unshielded() && scan.consume(k, emit).hidden == scan.hidden),
        k > scan.shield ==> scan.consume(k, emit).unshielded() < scan.unshielded(),
{
}

/// Expanding a defined name that is not hidden brings the scan closer to
/// its end: fewer characters lie behind the shield, or as many and fewer
/// names are free.
pub proof fn lemma_splice_measure(table: Table, scan: Scan, k: int, text: Seq<char>, name: Seq<char>)
    requires
        table.dom().finite(),
        0 < k <= scan.rest.len(),
        table.contains_key(name),
        !scan.hidden.contains(name),
    ensures
        scan.splice(k, text, name).unshielded() < scan.unshielded() || (scan.splice(
            k,
            text,
            name,
        ).unshielded() == scan.unshielded() && free_names(table, scan.splice(k, text, name).hidden)
            < free_names(table, scan.hidden)),
{
    let free = table.dom().difference(scan.hidden);
    assert(table.dom().difference(scan.hidden.insert(name)) =~= free.remove(name));
    assert(free.contains(name));
    assert(free.finite());
}

/// The arguments of a call from the `i`th on, each expanded on its own with
/// nothing hidden, behind those in `acc`.
pub open spec fn prescan_from(
    table: Table,
    args: Seq<Seq<char>>,
    i: int,
    acc: Seq<Seq<char>>,
    depth: nat,
) -> Result<Seq<Seq<char>>, PreprocessError>
    decreases depth, 1int, args.len() - i, 0nat, 0nat,
    when table.dom().finite()
{
    if i < 0 || i >= args.len() {
        Ok(acc)
    } else {
        match run(table, Scan::start(args[i]), depth) {
            Err(e) => Err(e),
            Ok(text) => prescan_from(table, args, i + 1, acc.push(text), depth),
        }
    }
}

/// The text that a scan writes when it is run to its end without regard to
/// directives. Arguments that are expanded before substitution may be nested
/// `depth` deep and no deeper.
pub open spec fn run(table: Table, scan: Scan, depth: nat) -> Result<Seq<char>, PreprocessError>
    decreases depth, 0int, scan.unshielded(), free_names(table, scan.hidden), scan.rest.len(),
    when table.dom().finite()
{
    if scan.rest.len() == 0 {
        Ok(scan.out)
    } else {
        proof {
            lemma_next_action(table, scan.hidden, scan.rest);
        }
        match next_action(table, scan.hidden, scan.rest) {
            Action::Skip { len } => {
                proof {
                    lemma_consume_measure(scan, len, false);
                }
                run(table, scan.consume(len, false), depth)
            },
            Action::Emit { len } => {
                proof {
                    lemma_consume_measure(scan, len, true);
                }
                run(table, scan.consume(len, true), depth)
            },
            Action::Object { len, name, body } => {
                proof {
                    lemma_splice_measure(table, scan, len, body, name);
                }
                run(table, scan.splice(len, body, name), depth)
            },
            Action::Call { len, name, params, body, args } => {
                if has_paste(body) {
                    proof {
                        lemma_splice_measure(table, scan, len, expansion(params, args, body), name);
                    }
                    run(table, scan.splice(len, expansion(params, args, body), name), depth)
                } else if depth == 0 {
                    Err(PreprocessError::NestingTooDeep)
                } else {
                    match prescan_from(table, args, 0, Seq::empty(), (depth - 1) as nat) {
                        Err(e) => Err(e),
                        Ok(expanded) => {
                            proof {
                                lemma_splice_measure(
                                    table,
                                    scan,
                                    len,
                                    expansion(params, expanded, body),
                                    name,
                                );
                            }
                            run(
                                table,
                                scan.splice(len, expansion(params, expanded, body), name),
                                depth,
                            )
                        },
                    }
                }
            },
        }
    }
}

/// The arguments that are put into the body of a function macro. Where the
/// body holds `##` they are the arguments as written; else each is expanded
/// first, one level deeper.
pub open spec fn call_arguments(table: Table, body: Seq<char>, args: Seq<Seq<char>>, depth: nat)
    -> Result<Seq<Seq<char>>, PreprocessError> {
    if has_paste(body) {
        Ok(args)
    } else if depth == 0 {
        Err(PreprocessError::NestingTooDeep)
    } else {
        prescan_from(table, args, 0, Seq::empty(), (depth - 1) as nat)
    }
}

/// What the call of the function macro `name` with the arguments `args`
/// gives way to.
pub open spec fn call_expansion(table: Table, name: Seq<char>, args: Seq<Seq<char>>, depth: nat)
    -> Result<Seq<char>, PreprocessError> {
    match call_arguments(table, table[name]->Function_body, args, depth) {
        Err(e) => Err(e),
        Ok(given) => Ok(expansion(table[name]->params, given, table[name]->Function_body)),
    }
}

/// The scan after the one action at the front of what is left.
pub open spec fn step(table: Table, scan: Scan, depth: nat) -> Result<Scan, PreprocessError> {
    match next_action(table, scan.hidden, scan.rest) {
        Action::Skip { len } => Ok(scan.consume(len, false)),
        Action::Emit { len } => Ok(scan.consume(len, true)),
        Action::Object { len, name, body } => Ok(scan.splice(len, body, name)),
        Action::Call { len, name, params, body, args } => match call_arguments(
            table,
            body,
            args,
            depth,
        ) {
            Err(e) => Err(e),
            Ok(given) => Ok(scan.splice(len, expansion(params, given, body), name)),
        },
    }
}

/// A run is the run of the scan after one step.
pub proof fn lemma_run_unfold(table: Table, scan: Scan, depth: nat)
    requires
        table.dom().finite(),
    ensures
        run(table, scan, depth) == if scan.rest.len() == 0 {
            Ok::<Seq<char>, PreprocessError>(scan.out)
        } else {
            match step(table, scan, depth) {
                Err(e) => Err(e),
                Ok(next) => run(table, next, depth),
            }
        },
{
}

/// A step brings the scan closer to its end.
pub proof fn lemma_step_measure(table: Table, scan: Scan, depth: nat)
    requires
        table.dom().finite(),
        scan.rest.len() > 0,
    ensures
        match step(table, scan, depth) {
            Ok(next) => next.unshielded() < scan.unshielded() || (next.unshielded()
                == scan.unshielded() && (free_names(table, next.hidden) < free_names(
                table,
                scan.hidden,
            ) || (next.hidden == scan.hidden && next.rest.len() < scan.rest.len()))),
            Err(e) => true,
        },
{
    lemma_next_action(table, scan.hidden, scan.rest);
    match next_action(table, scan.hidden, scan.rest) {
        Action::Skip { len } => {
            lemma_consume_measure(scan, len, false);
        },
        Action::Emit { len } => {
            lemma_consume_measure(scan, len, true);
        },
        Action::Object { len, name, body } => {
            lemma_splice_measure(table, scan, len, body, name);
        },
        Action::Call { len, name, params, body, args } => {
            match call_arguments(table, body, args, depth) {
                Err(e) => {},
                Ok(given) => {
                    lemma_splice_measure(table, scan, len, expansion(params, given, body), name);
                },
            }
        },
    }
}

/// A directive at the front of a text.
pub enum Directive {
    /// `#undef` of `name`; the directive takes `len` characters.
    Undef { name: Seq<char>, len: int },
    /// `#define` of `name`; the directive takes `len` characters.
    Define { name: Seq<char>, definition: MacroText, len: int },
}

/// The directive that the scan stands at, if any. Only text that no
/// expansion made can hold a directive, and a comment comes first. A
/// `#define` that is not well formed is an error.
pub open spec fn directive_at(scan: Scan) -> Result<Option<Directive>, PreprocessError> {
    if scan.shield > 0 || comment_len(scan.rest) is Some {
        Ok(None)
    } else {
        match undef_at(scan.rest) {
            Some(u) => Ok(
                Some(
                    Directive::Undef {
                        name: scan.rest.subrange(u.name_start, u.name_end),
                        len: u.consumed,
                    },
                ),
            ),
            None => match define_at(scan.rest) {
                Err(e) => Err(e),
                Ok(None) => Ok(None),
                Ok(Some(d)) => Ok(
                    Some(Directive::Define { name: d.name, definition: d.definition, len: d.consumed }),
                ),
            },
        }
    }
}

/// A directive takes at least one character and no more than there are.
pub proof fn lemma_directive_at(scan: Scan)
    ensures
        match directive_at(scan) {
            Ok(Some(Directive::Undef { name, len })) => 0 < len <= scan.rest.len() && scan.shield
                == 0,
            Ok(Some(Directive::Define { name, definition, len })) => 0 < len <= scan.rest.len()
                && scan.shield == 0,
            _ => true,
        },
{
    let s = scan.rest;
    if scan.shield == 0 && comment_len(s) is None {
        match directive_name(s, "undef"@) {
            Some((c, e)) => {
                lemma_space_run_end(s, 1);
                let a = space_run_end(s, 1);
                lemma_space_run_end(s, a + "undef"@.len());
                lemma_ident_run_end(s, c + 1);
                lemma_find_char(s, '\n', e);
            },
            None => {
                match directive_name(s, "define"@) {
                    Some((c, e)) => {
                        if e < s.len() && s[e] == '(' {
                            match param_list(s, e + 1) {
                                Some((params, p)) => {
                                    lemma_body_scan(s, p, false, Seq::empty());
                                },
                                None => {},
                            }
                        } else {
                            lemma_body_scan(s, e, false, Seq::empty());
                        }
                    },
                    None => {},
                }
            },
        }
    }
}

/// How a run with directives ends: the table as the directives left it, and
/// the text that was written or the error that stopped the run.
pub struct Outcome {
    pub table: Table,
    pub result: Result<Seq<char>, PreprocessError>,
}

/// The run of a scan to its end, with directives: `#undef` and `#define`
/// change the table and write nothing, everything else is a step as in a run
/// without directives. An error ends the run where it occurs.
pub open spec fn run_top(table: Table, scan: Scan, depth: nat) -> Outcome
    decreases scan.unshielded(), free_names(table, scan.hidden), scan.rest.len(),
    when table.dom().finite()
{
    if scan.rest.len() == 0 {
        Outcome { table, result: Ok(scan.out) }
    } else {
        proof {
            lemma_directive_at(scan);
            lemma_step_measure(table, scan, depth);
        }
        match directive_at(scan) {
            Err(e) => Outcome { table, result: Err(e) },
            Ok(Some(Directive::Undef { name, len })) => run_top(
                table.remove(name),
                scan.consume(len, false),
                depth,
            ),
            Ok(Some(Directive::Define { name, definition, len })) => run_top(
                table.insert(name, definition),
                scan.consume(len, false),
                depth,
            ),
            Ok(None) => match step(table, scan, depth) {
                Err(e) => Outcome { table, result: Err(e) },
                Ok(next) => run_top(table, next, depth),
            },
        }
    }
}

/// The text that `text` expands to when directives are not regarded.
pub open spec fn expand_pure(table: Table, text: Seq<char>, depth: nat) -> Result<
    Seq<char>,
    PreprocessError,
> {
    run(table, Scan::start(text), depth)
}

/// The table that the directives of `text` make of `table`, and the text
/// that `text` expands to.
pub open spec fn expand_toplevel(table: Table, text: Seq<char>, depth: nat) -> Outcome {
    run_top(table, Scan::start(text), depth)
}

} // verus!
