//! The body of a function macro with the arguments of a call put in: plain
//! substitution, the stringify operator `#`, the paste operator `##` and the
//! arguments that a variadic macro gathers under `__VA_ARGS__`.

use itertools::Itertools;
use vstd::prelude::*;
use vstd::slice::slice_subrange;
use vstd::utf8::encode_utf8;
use crate::parser::{
    find_pair, ident_end, ident_run_end, identifier, lemma_ident_run_end, lemma_space_run_end,
    parse_concatenation, parse_stringify, paste_at, seek_pair, space_run_end, stringify_at,
};
use crate::preprocessor::MacroPreprocessor;
use crate::text::{chars_of, is_ident_start, text_of};

verus! {

/// The texts of `parts` in order, with `sep` between each two of them.
pub open spec fn join_with(parts: Seq<Seq<char>>, sep: Seq<char>) -> Seq<char>
    decreases parts.len(),
{
    if parts.len() == 0 {
        Seq::empty()
    } else if parts.len() == 1 {
        parts[0]
    } else {
        join_with(parts.drop_last(), sep) + sep + parts.last()
    }
}

/// `Itertools::join` writes the first item, and then before every further
/// item the separator; of no items it makes the empty string. A `String`
/// item is written as the text it holds.
#[verifier::external_body]
fn join_texts(parts: &[String], sep: &str) -> (r: String)
    ensures
        r@ == join_with(parts.deep_view(), sep@),
{
    parts.iter().join(sep)
}

/// The parameter list ends in `...`.
pub open spec fn is_variadic(params: Seq<Seq<char>>) -> bool {
    params.len() > 0 && params.last() == "..."@
}

/// The least index from `from` on at which `params` holds `name`.
pub open spec fn index_of(params: Seq<Seq<char>>, name: Seq<char>, from: int) -> Option<int>
    decreases params.len() - from,
{
    if from < 0 || from >= params.len() {
        None
    } else if params[from] == name {
        Some(from)
    } else {
        index_of(params, name, from + 1)
    }
}

/// What `name` stands for in a call with the arguments `args` of a macro
/// with the parameters `params`. In a variadic macro `__VA_ARGS__` stands
/// for the arguments from the place of `...` on, joined by a comma and a
/// blank. Any other name stands for the argument at the place where the name
/// first occurs among the parameters, if the call has an argument there.
pub open spec fn binding(params: Seq<Seq<char>>, args: Seq<Seq<char>>, name: Seq<char>)
    -> Option<Seq<char>> {
    if name == "__VA_ARGS__"@ && is_variadic(params) {
        if params.len() - 1 <= args.len() {
            Some(join_with(args.skip(params.len() - 1), ", "@))
        } else {
            Some(Seq::empty())
        }
    } else {
        match index_of(params, name, 0) {
            Some(k) => if k < args.len() {
                Some(args[k])
            } else {
                None
            },
            None => None,
        }
    }
}

/// What is written for `name` in the expansion: what it stands for, or the
/// name itself where it stands for nothing.
pub open spec fn argument_text(params: Seq<Seq<char>>, args: Seq<Seq<char>>, name: Seq<char>)
    -> Seq<char> {
    match binding(params, args, name) {
        Some(v) => v,
        None => name,
    }
}

/// The hexadecimal digit, in lower case, of a number below 16.
pub open spec fn hex_digit(d: u8) -> char {
    if d < 10 {
        (('0' as u8) + d) as char
    } else {
        (('a' as u8) + (d - 10)) as char
    }
}

/// One byte as text: tab, carriage return, line feed, the two quotes and the
/// backslash each behind a backslash, a printable ASCII character as it is,
/// any other byte as `\x` and two hexadecimal digits.
pub open spec fn escaped_byte(b: u8) -> Seq<char> {
    if b == 9 {
        seq!['\\', 't']
    } else if b == 13 {
        seq!['\\', 'r']
    } else if b == 10 {
        seq!['\\', 'n']
    } else if b == 39 || b == 34 || b == 92 {
        seq!['\\', b as char]
    } else if 32 <= b <= 126 {
        seq![b as char]
    } else {
        seq!['\\', 'x', hex_digit(b / 16), hex_digit(b % 16)]
    }
}

/// The bytes of `bytes` up to `n`, each as text.
pub open spec fn escaped_bytes(bytes: Seq<u8>, n: int) -> Seq<char>
    decreases n,
{
    if n <= 0 || n > bytes.len() {
        Seq::empty()
    } else {
        escaped_bytes(bytes, n - 1) + escaped_byte(bytes[n - 1])
    }
}

/// What the stringify operator makes of an argument: the bytes of its UTF-8
/// form, each as text. No quotes are put around it.
pub open spec fn stringified(arg: Seq<char>) -> Seq<char> {
    escaped_bytes(encode_utf8(arg), encode_utf8(arg).len() as int)
}

/// The body holds the paste operator `##` somewhere.
pub open spec fn has_paste(body: Seq<char>) -> bool {
    find_pair(body, '#', '#', 0) is Some
}

/// What substitution does at the start of a non-empty `rest` of a body: how
/// many characters it takes and what it writes for them.
///
/// `#` and a name that stands for something give that, stringified. Two
/// names joined by `##`, of which one at least stands for something, give
/// what the two are written as, one behind the other. A name alone gives
/// what it is written as. Any other character gives itself.
pub open spec fn substitution_step(params: Seq<Seq<char>>, args: Seq<Seq<char>>, rest: Seq<char>)
    -> (int, Seq<char>) {
    let quoted = match stringify_at(rest) {
        Some((a, e)) => match binding(params, args, rest.subrange(a, e)) {
            Some(v) => Some((e, stringified(v))),
            None => None,
        },
        None => None,
    };
    let paste = match paste_at(rest) {
        Some((e, b, f)) => if binding(params, args, rest.subrange(0, e)) is Some || binding(
            params,
            args,
            rest.subrange(b, f),
        ) is Some {
            Some(
                (
                    f,
                    argument_text(params, args, rest.subrange(0, e)) + argument_text(
                        params,
                        args,
                        rest.subrange(b, f),
                    ),
                ),
            )
        } else {
            None
        },
        None => None,
    };
    if quoted is Some {
        quoted->0
    } else if paste is Some {
        paste->0
    } else {
        match ident_end(rest, 0) {
            Some(e) => (e, argument_text(params, args, rest.subrange(0, e))),
            None => (1, seq![rest[0]]),
        }
    }
}

/// Substitution takes at least one character at a time and no more than
/// there are.
pub proof fn lemma_substitution_step(
    params: Seq<Seq<char>>,
    args: Seq<Seq<char>>,
    rest: Seq<char>,
)
    requires
        rest.len() > 0,
    ensures
        0 < substitution_step(params, args, rest).0 <= rest.len(),
{
    if rest[0] == '#' {
        lemma_space_run_end(rest, 1);
        let a = space_run_end(rest, 1);
        if a < rest.len() && is_ident_start(rest[a]) {
            lemma_ident_run_end(rest, a + 1);
        }
    }
    if is_ident_start(rest[0]) {
        lemma_ident_run_end(rest, 1);
        let e = ident_run_end(rest, 1);
        lemma_space_run_end(rest, e);
        let a = space_run_end(rest, e);
        if a + 1 < rest.len() {
            lemma_space_run_end(rest, a + 2);
            let b = space_run_end(rest, a + 2);
            if b < rest.len() && is_ident_start(rest[b]) {
                lemma_ident_run_end(rest, b + 1);
            }
        }
    }
}

/// The body `rest` of a macro with the arguments put in, behind what `acc`
/// holds already.
pub open spec fn substituted(
    params: Seq<Seq<char>>,
    args: Seq<Seq<char>>,
    rest: Seq<char>,
    acc: Seq<char>,
) -> Seq<char>
    decreases rest.len(),
{
    if rest.len() == 0 {
        acc
    } else {
        let step = substitution_step(params, args, rest);
        proof {
            lemma_substitution_step(params, args, rest);
        }
        substituted(params, args, rest.skip(step.0), acc + step.1)
    }
}

/// The expansion of a function macro: its body with the arguments put in.
pub open spec fn expansion(params: Seq<Seq<char>>, args: Seq<Seq<char>>, body: Seq<char>) -> Seq<
    char,
> {
    substituted(params, args, body, Seq::empty())
}

/// What `arg_name` stands for in a call with the arguments `args` of a macro
/// with the parameters `params`, if it stands for anything.
pub fn lookup_argument(params: &Vec<String>, args: &Vec<String>, arg_name: &str) -> (r: Option<
    String,
>)
    ensures
        match r {
            Some(v) => binding(params.deep_view(), args.deep_view(), arg_name@) == Some(v@),
            None => binding(params.deep_view(), args.deep_view(), arg_name@) is None,
        },
{
    let name = String::from_str(arg_name);
    let n: usize = params.len();
    if name == String::from_str("__VA_ARGS__") && n > 0 && params[n - 1] == String::from_str(
        "...",
    ) {
        assert(params.deep_view().last() == params@[n - 1]@);
        if n - 1 <= args.len() {
            let rest = slice_subrange(args.as_slice(), n - 1, args.len());
            assert(rest.deep_view() =~= args.deep_view().skip(n - 1));
            return Some(join_texts(rest, ", "));
        } else {
            return Some(String::new());
        }
    }
    assert(!(name@ == "__VA_ARGS__"@ && is_variadic(params.deep_view()))) by {
        if n > 0 {
            assert(params.deep_view().last() == params@[n - 1]@);
        }
    }
    let mut k: usize = 0;
    while k < n
        invariant
            k <= n,
            n == params.len(),
            name@ == arg_name@,
            !(arg_name@ == "__VA_ARGS__"@ && is_variadic(params.deep_view())),
            index_of(params.deep_view(), arg_name@, 0) == index_of(
                params.deep_view(),
                arg_name@,
                k as int,
            ),
        decreases n - k,
    {
        assert(params.deep_view()[k as int] == params@[k as int]@);
        if params[k] == name {
            if k < args.len() {
                assert(args.deep_view()[k as int] == args@[k as int]@);
                return Some(args[k].clone());
            } else {
                return None;
            }
        }
        k += 1;
    }
    None
}

impl MacroPreprocessor {
    /// What is written for `arg_name` in the expansion: what it stands for,
    /// or the name itself where it stands for nothing.
    pub fn get_argument(params: &Vec<String>, args: &Vec<String>, arg_name: &str) -> (r: String)
        ensures
            r@ == argument_text(params.deep_view(), args.deep_view(), arg_name@),
    {
        match lookup_argument(params, args, arg_name) {
            Some(v) => v,
            None => String::from_str(arg_name),
        }
    }
}

/// The hexadecimal digit of a number below 16.
fn hex(d: u8) -> (c: char)
    requires
        d < 16,
    ensures
        c == hex_digit(d),
{
    if d < 10 {
        (48u8 + d) as char
    } else {
        (97u8 + (d - 10)) as char
    }
}

/// What the stringify operator makes of `arg`.
pub fn escape_argument(arg: &str) -> (r: String)
    ensures
        r@ == stringified(arg@),
{
    let bytes = arg.as_bytes();
    let mut r = String::new();
    let mut i: usize = 0;
    while i < bytes.len()
        invariant
            i <= bytes.len(),
            r@ == escaped_bytes(bytes@, i as int),
        decreases bytes.len() - i,
    {
        let b: u8 = bytes[i];
        let ghost before = r@;
        if b == 9 {
            r.push('\\');
            r.push('t');
        } else if b == 13 {
            r.push('\\');
            r.push('r');
        } else if b == 10 {
            r.push('\\');
            r.push('n');
        } else if b == 39 || b == 34 || b == 92 {
            r.push('\\');
            r.push(b as char);
        } else if 32 <= b && b <= 126 {
            r.push(b as char);
        } else {
            r.push('\\');
            r.push('x');
            r.push(hex(b / 16));
            r.push(hex(b % 16));
        }
        assert(r@ =~= before + escaped_byte(b));
        i += 1;
    }
    r
}

/// Whether `body` holds the paste operator `##` somewhere.
pub fn contains_paste(body: &[char]) -> (r: bool)
    ensures
        r == has_paste(body@),
{
    seek_pair(body, '#', '#', 0).is_some()
}

/// Substitution at the start of `rest`: how many characters it takes and
/// what it writes for them.
fn substitute_front(params: &Vec<String>, args: &Vec<String>, rest: &[char]) -> (r: (
    usize,
    String,
))
    requires
        rest.len() > 0,
    ensures
        (r.0 as int, r.1@) == substitution_step(params.deep_view(), args.deep_view(), rest@),
        0 < r.0 <= rest.len(),
{
    proof {
        lemma_substitution_step(params.deep_view(), args.deep_view(), rest@);
    }
    match parse_stringify(rest) {
        Some((a, e)) => {
            let name = text_of(slice_subrange(rest, a, e));
            match lookup_argument(params, args, name.as_str()) {
                Some(v) => {
                    return (e, escape_argument(v.as_str()));
                },
                None => {},
            }
        },
        None => {},
    }
    match parse_concatenation(rest) {
        Some((e, b, f)) => {
            let lhs = text_of(slice_subrange(rest, 0, e));
            let rhs = text_of(slice_subrange(rest, b, f));
            let left = lookup_argument(params, args, lhs.as_str());
            let right = lookup_argument(params, args, rhs.as_str());
            if left.is_some() || right.is_some() {
                let mut text = match left {
                    Some(v) => v,
                    None => lhs,
                };
                let second = match right {
                    Some(v) => v,
                    None => rhs,
                };
                text.append(second.as_str());
                return (f, text);
            }
        },
        None => {},
    }
    match identifier(rest) {
        Some(e) => {
            let name = text_of(slice_subrange(rest, 0, e));
            (e, MacroPreprocessor::get_argument(params, args, name.as_str()))
        },
        None => {
            let mut text = String::new();
            text.push(rest[0]);
            assert(text@ =~= seq![rest@[0]]);
            (1, text)
        },
    }
}

/// The body of a function macro with the arguments of a call put in.
pub fn substitute(params: &Vec<String>, args: &Vec<String>, body: &str) -> (r: String)
    ensures
        r@ == expansion(params.deep_view(), args.deep_view(), body@),
{
    let chars = chars_of(body);
    let n: usize = chars.len();
    let mut r = String::new();
    let mut i: usize = 0;
    assert(chars@.skip(0) =~= chars@);
    while i < n
        invariant
            i <= n,
            n == chars.len(),
            chars@ == body@,
            expansion(params.deep_view(), args.deep_view(), body@) == substituted(
                params.deep_view(),
                args.deep_view(),
                chars@.skip(i as int),
                r@,
            ),
        decreases n - i,
    {
        let rest = slice_subrange(chars.as_slice(), i, n);
        let (k, text) = substitute_front(params, args, rest);
        assert(rest@.skip(k as int) =~= chars@.skip(i + k));
        r.append(text.as_str());
        i += k;
    }
    r
}

} // verus!
