//! Scanners for the constructs that expansion reads at the front of a text:
//! identifiers, comments, directives, the operators of a macro body and the
//! head of a macro call. Each scanner looks at the start of its input and
//! says how far the construct reaches.

use vstd::prelude::*;
use vstd::slice::slice_subrange;
use crate::error::PreprocessError;
use crate::text::{
    chars_of, ident_char, ident_start, is_ident_char, is_ident_start, is_space, space,
    text_of, trim, trimmed,
};

verus! {

/// A macro as a `#define` gives it.
#[derive(Debug, Clone)]
pub enum Macro {
    /// A name that stands for a text.
    Object { body: String },
    /// A name that is called with arguments; the parameter `...` takes the
    /// arguments that are left over.
    Function { params: Vec<String>, body: String },
}

/// What a [`Macro`] holds, as sequences of characters.
pub enum MacroText {
    Object { body: Seq<char> },
    Function { params: Seq<Seq<char>>, body: Seq<char> },
}

impl View for Macro {
    type V = MacroText;

    open spec fn view(&self) -> MacroText {
        match *self {
            Macro::Object { body } => MacroText::Object { body: body@ },
            Macro::Function { params, body } => MacroText::Function {
                params: params.deep_view(),
                body: body@,
            },
        }
    }
}

/// The first index at or after `i` whose character cannot continue an
/// identifier (the length of `s` if there is none).
pub open spec fn ident_run_end(s: Seq<char>, i: int) -> int
    decreases s.len() - i,
{
    if 0 <= i < s.len() && is_ident_char(s[i]) {
        ident_run_end(s, i + 1)
    } else {
        i
    }
}

/// The first index at or after `i` whose character is not space (the length
/// of `s` if there is none).
pub open spec fn space_run_end(s: Seq<char>, i: int) -> int
    decreases s.len() - i,
{
    if 0 <= i < s.len() && is_space(s[i]) {
        space_run_end(s, i + 1)
    } else {
        i
    }
}

/// Where the identifier that begins at `i` ends, if one begins there.
pub open spec fn ident_end(s: Seq<char>, i: int) -> Option<int> {
    if 0 <= i < s.len() && is_ident_start(s[i]) {
        Some(ident_run_end(s, i + 1))
    } else {
        None
    }
}

/// `word` stands in `s` at index `at`.
pub open spec fn has_word(s: Seq<char>, at: int, word: Seq<char>) -> bool {
    0 <= at && at + word.len() <= s.len() && s.subrange(at, at + word.len()) == word
}

/// The first index at or after `i` that holds `c`.
pub open spec fn find_char(s: Seq<char>, c: char, i: int) -> Option<int>
    decreases s.len() - i,
{
    if i < 0 || i >= s.len() {
        None
    } else if s[i] == c {
        Some(i)
    } else {
        find_char(s, c, i + 1)
    }
}

/// The first index at or after `i` that holds `a` with `b` right behind it.
pub open spec fn find_pair(s: Seq<char>, a: char, b: char, i: int) -> Option<int>
    decreases s.len() - i,
{
    if i < 0 || i + 1 >= s.len() {
        None
    } else if s[i] == a && s[i + 1] == b {
        Some(i)
    } else {
        find_pair(s, a, b, i + 1)
    }
}

/// A run of identifier characters ends inside the text, holds identifier
/// characters only and stops before a character that is none.
pub proof fn lemma_ident_run_end(s: Seq<char>, i: int)
    requires
        0 <= i <= s.len(),
    ensures
        i <= ident_run_end(s, i) <= s.len(),
        forall|k: int| i <= k < ident_run_end(s, i) ==> is_ident_char(#[trigger] s[k]),
        ident_run_end(s, i) < s.len() ==> !is_ident_char(s[ident_run_end(s, i)]),
    decreases s.len() - i,
{
    if i < s.len() && is_ident_char(s[i]) {
        lemma_ident_run_end(s, i + 1);
    }
}

/// A run of space ends inside the text, holds space only and stops before a
/// character that is none.
pub proof fn lemma_space_run_end(s: Seq<char>, i: int)
    requires
        0 <= i <= s.len(),
    ensures
        i <= space_run_end(s, i) <= s.len(),
        forall|k: int| i <= k < space_run_end(s, i) ==> is_space(#[trigger] s[k]),
        space_run_end(s, i) < s.len() ==> !is_space(s[space_run_end(s, i)]),
    decreases s.len() - i,
{
    if i < s.len() && is_space(s[i]) {
        lemma_space_run_end(s, i + 1);
    }
}

/// What is found is the first occurrence at or behind the index, and
/// nothing is found only where there is none.
pub proof fn lemma_find_char(s: Seq<char>, c: char, i: int)
    requires
        0 <= i <= s.len(),
    ensures
        match find_char(s, c, i) {
            Some(j) => i <= j < s.len() && s[j] == c && forall|k: int|
                i <= k < j ==> #[trigger] s[k] != c,
            None => forall|k: int| i <= k < s.len() ==> #[trigger] s[k] != c,
        },
    decreases s.len() - i,
{
    if i < s.len() && s[i] != c {
        lemma_find_char(s, c, i + 1);
    }
}

/// What is found is an occurrence of the pair at or behind the index, and
/// nothing is found only where there is none.
pub proof fn lemma_find_pair(s: Seq<char>, a: char, b: char, i: int)
    requires
        0 <= i <= s.len(),
    ensures
        match find_pair(s, a, b, i) {
            Some(j) => i <= j && j + 1 < s.len() && s[j] == a && s[j + 1] == b,
            None => forall|k: int|
                i <= k && k + 1 < s.len() ==> !(#[trigger] s[k] == a && s[k + 1] == b),
        },
    decreases s.len() - i,
{
    if i + 1 < s.len() && !(s[i] == a && s[i + 1] == b) {
        lemma_find_pair(s, a, b, i + 1);
    }
}

/// Skips the identifier characters from `at` on.
fn skip_ident_chars(input: &[char], at: usize) -> (end: usize)
    requires
        at <= input.len(),
    ensures
        end == ident_run_end(input@, at as int),
        at <= end <= input.len(),
{
    let mut i: usize = at;
    while i < input.len() && ident_char(input[i])
        invariant
            at <= i <= input.len(),
            ident_run_end(input@, at as int) == ident_run_end(input@, i as int),
        decreases input.len() - i,
    {
        i += 1;
    }
    i
}

/// Skips the space from `at` on.
fn skip_space(input: &[char], at: usize) -> (end: usize)
    requires
        at <= input.len(),
    ensures
        end == space_run_end(input@, at as int),
        at <= end <= input.len(),
{
    let mut i: usize = at;
    while i < input.len() && space(input[i])
        invariant
            at <= i <= input.len(),
            space_run_end(input@, at as int) == space_run_end(input@, i as int),
        decreases input.len() - i,
    {
        i += 1;
    }
    i
}

/// The identifier that begins at `at`, by its end.
fn ident_at(input: &[char], at: usize) -> (r: Option<usize>)
    requires
        at <= input.len(),
    ensures
        match r {
            Some(e) => ident_end(input@, at as int) == Some(e as int) && at < e <= input.len(),
            None => ident_end(input@, at as int) is None,
        },
{
    if at < input.len() && ident_start(input[at]) {
        Some(skip_ident_chars(input, at + 1))
    } else {
        None
    }
}

/// Whether `word` stands in `input` at `at`.
fn word_at(input: &[char], at: usize, word: &[char]) -> (r: bool)
    requires
        at <= input.len(),
    ensures
        r == has_word(input@, at as int, word@),
{
    if input.len() - at < word.len() {
        return false;
    }
    let mut k: usize = 0;
    while k < word.len()
        invariant
            k <= word.len(),
            at + word.len() <= input.len(),
            forall|j: int| 0 <= j < k ==> input@[at + j] == word@[j],
        decreases word.len() - k,
    {
        if input[at + k] != word[k] {
            proof {
                let sub = input@.subrange(at as int, at + word.len());
                assert(sub[k as int] == input@[at + k]);
            }
            return false;
        }
        k += 1;
    }
    proof {
        assert(input@.subrange(at as int, at + word.len()) =~= word@);
    }
    true
}

/// The first `c` at or after `at`.
pub fn seek_char(input: &[char], c: char, at: usize) -> (r: Option<usize>)
    requires
        at <= input.len(),
    ensures
        match r {
            Some(j) => find_char(input@, c, at as int) == Some(j as int) && at <= j < input.len(),
            None => find_char(input@, c, at as int) is None,
        },
{
    let mut i: usize = at;
    while i < input.len()
        invariant
            at <= i <= input.len(),
            find_char(input@, c, at as int) == find_char(input@, c, i as int),
        decreases input.len() - i,
    {
        if input[i] == c {
            return Some(i);
        }
        i += 1;
    }
    None
}

/// The first `a` with `b` right behind it, at or after `at`.
pub fn seek_pair(input: &[char], a: char, b: char, at: usize) -> (r: Option<usize>)
    requires
        at <= input.len(),
    ensures
        match r {
            Some(j) => find_pair(input@, a, b, at as int) == Some(j as int) && at <= j && j + 1
                < input.len(),
            None => find_pair(input@, a, b, at as int) is None,
        },
{
    let mut i: usize = at;
    while i < input.len() && i + 1 < input.len()
        invariant
            at <= i <= input.len(),
            find_pair(input@, a, b, at as int) == find_pair(input@, a, b, i as int),
        decreases input.len() - i,
    {
        if input[i] == a && input[i + 1] == b {
            return Some(i);
        }
        i += 1;
    }
    None
}

/// The length of the identifier at the start of `s`.
pub open spec fn identifier_len(s: Seq<char>) -> Option<int> {
    ident_end(s, 0)
}

/// Recognises an identifier at the start of `input`: a letter or `_`, then
/// letters, digits and `_` as far as they go. Gives its length.
pub fn identifier(input: &[char]) -> (r: Option<usize>)
    ensures
        match r {
            Some(n) => identifier_len(input@) == Some(n as int) && 0 < n <= input.len(),
            None => identifier_len(input@) is None,
        },
{
    ident_at(input, 0)
}

/// How much of `s` a comment at its start takes: a `//` comment reaches to
/// the next line feed and leaves it in place, a `/*` comment reaches through
/// the next `*/`. A comment that is not closed is none.
pub open spec fn comment_len(s: Seq<char>) -> Option<int> {
    if s.len() >= 2 && s[0] == '/' && s[1] == '/' {
        find_char(s, '\n', 2)
    } else if s.len() >= 2 && s[0] == '/' && s[1] == '*' {
        match find_pair(s, '*', '/', 2) {
            Some(j) => Some(j + 2),
            None => None,
        }
    } else {
        None
    }
}

/// Recognises a comment at the start of `input` and gives its length.
pub fn parse_comment(input: &[char]) -> (r: Option<usize>)
    ensures
        match r {
            Some(n) => comment_len(input@) == Some(n as int) && 2 <= n <= input.len(),
            None => comment_len(input@) is None,
        },
{
    if input.len() < 2 || input[0] != '/' {
        return None;
    }
    if input[1] == '/' {
        seek_char(input, '\n', 2)
    } else if input[1] == '*' {
        match seek_pair(input, '*', '/', 2) {
            Some(j) => Some(j + 2),
            None => None,
        }
    } else {
        None
    }
}

/// A stringify operator at the start of `s`: `#`, space as it comes, and an
/// identifier. Gives where the identifier begins and ends.
pub open spec fn stringify_at(s: Seq<char>) -> Option<(int, int)> {
    if s.len() > 0 && s[0] == '#' {
        let a = space_run_end(s, 1);
        match ident_end(s, a) {
            Some(e) => Some((a, e)),
            None => None,
        }
    } else {
        None
    }
}

/// Recognises `#` and an identifier at the start of `input`. Gives where the
/// identifier begins and where it ends.
pub fn parse_stringify(input: &[char]) -> (r: Option<(usize, usize)>)
    ensures
        match r {
            Some((a, e)) => stringify_at(input@) == Some((a as int, e as int)) && 1 <= a < e
                <= input.len(),
            None => stringify_at(input@) is None,
        },
{
    if input.len() == 0 || input[0] != '#' {
        return None;
    }
    let a: usize = skip_space(input, 1);
    match ident_at(input, a) {
        Some(e) => Some((a, e)),
        None => None,
    }
}

/// A paste at the start of `s`: an identifier, `##` and an identifier, with
/// space as it comes around the operator. Gives where the first identifier
/// ends, where the second begins and where it ends.
pub open spec fn paste_at(s: Seq<char>) -> Option<(int, int, int)> {
    match ident_end(s, 0) {
        Some(e) => {
            let a = space_run_end(s, e);
            if a + 1 < s.len() && s[a] == '#' && s[a + 1] == '#' {
                let b = space_run_end(s, a + 2);
                match ident_end(s, b) {
                    Some(f) => Some((e, b, f)),
                    None => None,
                }
            } else {
                None
            }
        },
        None => None,
    }
}

/// Recognises two identifiers joined by `##` at the start of `input`. Gives
/// the end of the first, the start of the second and its end.
pub fn parse_concatenation(input: &[char]) -> (r: Option<(usize, usize, usize)>)
    ensures
        match r {
            Some((e, b, f)) => paste_at(input@) == Some((e as int, b as int, f as int)) && 0 < e
                < b < f <= input.len(),
            None => paste_at(input@) is None,
        },
{
    match ident_at(input, 0) {
        Some(e) => {
            let a: usize = skip_space(input, e);
            if a < input.len() && input.len() - a >= 2 && input[a] == '#' && input[a + 1] == '#' {
                let b: usize = skip_space(input, a + 2);
                match ident_at(input, b) {
                    Some(f) => Some((e, b, f)),
                    None => None,
                }
            } else {
                None
            }
        },
        None => None,
    }
}

/// The name that a directive at the start of `s` is about: `#`, space as it
/// comes, the directive's `word`, some space and an identifier. Gives where
/// the identifier begins and ends.
pub open spec fn directive_name(s: Seq<char>, word: Seq<char>) -> Option<(int, int)> {
    if s.len() > 0 && s[0] == '#' {
        let a = space_run_end(s, 1);
        if has_word(s, a, word) {
            let b = a + word.len();
            let c = space_run_end(s, b);
            if c > b {
                match ident_end(s, c) {
                    Some(e) => Some((c, e)),
                    None => None,
                }
            } else {
                None
            }
        } else {
            None
        }
    } else {
        None
    }
}

/// The name that the directive `word` at the start of `input` is about.
fn directive_head(input: &[char], word: &[char]) -> (r: Option<(usize, usize)>)
    ensures
        match r {
            Some((c, e)) => directive_name(input@, word@) == Some((c as int, e as int)) && 1 < c
                < e <= input.len(),
            None => directive_name(input@, word@) is None,
        },
{
    if input.len() == 0 || input[0] != '#' {
        return None;
    }
    let a: usize = skip_space(input, 1);
    if !word_at(input, a, word) {
        return None;
    }
    let b: usize = a + word.len();
    let c: usize = skip_space(input, b);
    if c == b {
        return None;
    }
    match ident_at(input, c) {
        Some(e) => Some((c, e)),
        None => None,
    }
}

/// An `#undef` directive at the start of a text.
pub struct UndefText {
    /// Where the name begins.
    pub name_start: int,
    /// Where the name ends.
    pub name_end: int,
    /// How much of the text the directive takes.
    pub consumed: int,
}

/// An `#undef` directive at the start of `s`. It takes the rest of its line
/// with the line feed, or the rest of the text where no line feed follows.
pub open spec fn undef_at(s: Seq<char>) -> Option<UndefText> {
    match directive_name(s, "undef"@) {
        Some((c, e)) => Some(
            UndefText {
                name_start: c,
                name_end: e,
                consumed: match find_char(s, '\n', e) {
                    Some(j) => j + 1,
                    None => s.len() as int,
                },
            },
        ),
        None => None,
    }
}

/// An `#undef` directive as [`parse_undef`] finds it.
#[derive(Debug, Clone, Copy)]
pub struct Undef {
    /// Where the name begins.
    pub name_start: usize,
    /// Where the name ends.
    pub name_end: usize,
    /// How much of the input the directive takes.
    pub consumed: usize,
}

impl View for Undef {
    type V = UndefText;

    open spec fn view(&self) -> UndefText {
        UndefText {
            name_start: self.name_start as int,
            name_end: self.name_end as int,
            consumed: self.consumed as int,
        }
    }
}

/// Recognises `#undef NAME` at the start of `input`.
pub fn parse_undef(input: &[char]) -> (r: Option<Undef>)
    ensures
        match r {
            Some(u) => undef_at(input@) == Some(u@) && 1 < u.name_start < u.name_end <= u.consumed
                <= input.len(),
            None => undef_at(input@) is None,
        },
{
    let word = chars_of("undef");
    match directive_head(input, word.as_slice()) {
        Some((c, e)) => {
            let consumed: usize = match seek_char(input, '\n', e) {
                Some(j) => j + 1,
                None => input.len(),
            };
            Some(Undef { name_start: c, name_end: e, consumed })
        },
        None => None,
    }
}

/// One parameter of a `#define` at `i`: space as it comes, then `...` or an
/// identifier, then space as it comes. Gives the parameter and the index
/// behind it.
pub open spec fn param_at(s: Seq<char>, i: int) -> Option<(Seq<char>, int)> {
    let j = space_run_end(s, i);
    if has_word(s, j, "..."@) {
        Some(("..."@, space_run_end(s, j + "..."@.len())))
    } else {
        match ident_end(s, j) {
            Some(e) => Some((s.subrange(j, e), space_run_end(s, e))),
            None => None,
        }
    }
}

/// A parameter ends inside the text, at or behind the index where it was
/// looked for.
pub proof fn lemma_param_at(s: Seq<char>, i: int)
    requires
        0 <= i <= s.len(),
    ensures
        match param_at(s, i) {
            Some((p, n)) => i <= n <= s.len(),
            None => true,
        },
{
    lemma_space_run_end(s, i);
    let j = space_run_end(s, i);
    if has_word(s, j, "..."@) {
        lemma_space_run_end(s, j + "..."@.len());
    } else if j < s.len() && is_ident_start(s[j]) {
        lemma_ident_run_end(s, j + 1);
        lemma_space_run_end(s, ident_run_end(s, j + 1));
    }
}

/// What is left of a parameter list at `i`, behind the parameters in `acc`:
/// a comma and one more parameter, as often as they come, and then `)`.
/// Gives all the parameters and the index behind the `)`.
pub open spec fn param_list_rest(s: Seq<char>, i: int, acc: Seq<Seq<char>>) -> Option<
    (Seq<Seq<char>>, int),
>
    decreases s.len() - i,
{
    if 0 <= i < s.len() && s[i] == ',' {
        match param_at(s, i + 1) {
            Some((p, n)) => {
                proof {
                    lemma_param_at(s, i + 1);
                }
                param_list_rest(s, n, acc.push(p))
            },
            None => None,
        }
    } else if 0 <= i < s.len() && s[i] == ')' {
        Some((acc, i + 1))
    } else {
        None
    }
}

/// The parameter list whose `(` stands right before `i`: parameters parted
/// by commas, or nothing at all, and then `)`.
pub open spec fn param_list(s: Seq<char>, i: int) -> Option<(Seq<Seq<char>>, int)> {
    match param_at(s, i) {
        Some((p, n)) => param_list_rest(s, n, seq![p]),
        None => if 0 <= i < s.len() && s[i] == ')' {
            Some((Seq::empty(), i + 1))
        } else {
            None
        },
    }
}

/// The text of a definition from `i` on, behind what `acc` holds of it. A
/// backslash before a line feed joins the next line, whose leading blanks are
/// dropped (`fresh_line` says that the scan stands among them); a backslash
/// before another character stays, with that character; the first line feed
/// that no backslash precedes ends the text. Gives the text as it stands,
/// not yet trimmed, and the index of that line feed.
pub open spec fn body_scan(s: Seq<char>, i: int, fresh_line: bool, acc: Seq<char>) -> Option<
    (Seq<char>, int),
>
    decreases s.len() - i,
{
    if i < 0 || i >= s.len() {
        None
    } else if s[i] == '\\' {
        if i + 1 >= s.len() {
            None
        } else if s[i + 1] == '\n' {
            body_scan(s, i + 2, true, acc)
        } else {
            body_scan(s, i + 2, false, acc.push('\\').push(s[i + 1]))
        }
    } else if s[i] == '\n' {
        Some((acc, i))
    } else if fresh_line && s[i] == ' ' {
        body_scan(s, i + 1, true, acc)
    } else {
        body_scan(s, i + 1, false, acc.push(s[i]))
    }
}

/// The text of a definition ends inside the text that is scanned, at or
/// behind the index where the scan began.
pub proof fn lemma_body_scan(s: Seq<char>, i: int, fresh_line: bool, acc: Seq<char>)
    ensures
        match body_scan(s, i, fresh_line, acc) {
            Some((text, end)) => 0 <= i <= end < s.len(),
            None => true,
        },
    decreases s.len() - i,
{
    if 0 <= i < s.len() {
        if s[i] == '\\' {
            if i + 1 < s.len() {
                if s[i + 1] == '\n' {
                    lemma_body_scan(s, i + 2, true, acc);
                } else {
                    lemma_body_scan(s, i + 2, false, acc.push('\\').push(s[i + 1]));
                }
            }
        } else if s[i] == '\n' {
        } else if fresh_line && s[i] == ' ' {
            lemma_body_scan(s, i + 1, true, acc);
        } else {
            lemma_body_scan(s, i + 1, false, acc.push(s[i]));
        }
    }
}

/// A `#define` directive at the start of a text.
pub struct DefinitionText {
    /// The macro's name.
    pub name: Seq<char>,
    /// What the name is defined as.
    pub definition: MacroText,
    /// How much of the text the directive takes, its line feed included.
    pub consumed: int,
}

/// The `#define` directive at the start of `s`: `Ok(None)` where `s` does
/// not begin with `#define` and a name. A `(` right behind the name opens
/// the parameter list of a function macro; anything else there makes an
/// object macro, whose text begins at once. The text is trimmed.
pub open spec fn define_at(s: Seq<char>) -> Result<Option<DefinitionText>, PreprocessError> {
    match directive_name(s, "define"@) {
        None => Ok(None),
        Some((c, e)) => if e < s.len() && s[e] == '(' {
            match param_list(s, e + 1) {
                None => Err(PreprocessError::MalformedParameterList),
                Some((params, p)) => match body_scan(s, p, false, Seq::empty()) {
                    None => Err(PreprocessError::UnterminatedDefinition),
                    Some((text, end)) => Ok(
                        Some(
                            DefinitionText {
                                name: s.subrange(c, e),
                                definition: MacroText::Function { params, body: trimmed(text) },
                                consumed: end + 1,
                            },
                        ),
                    ),
                },
            }
        } else {
            match body_scan(s, e, false, Seq::empty()) {
                None => Err(PreprocessError::UnterminatedDefinition),
                Some((text, end)) => Ok(
                    Some(
                        DefinitionText {
                            name: s.subrange(c, e),
                            definition: MacroText::Object { body: trimmed(text) },
                            consumed: end + 1,
                        },
                    ),
                ),
            }
        },
    }
}

/// A `#define` directive as [`parse_define`] finds it.
#[derive(Debug, Clone)]
pub struct Definition {
    /// The macro's name.
    pub name: String,
    /// What the name is defined as.
    pub definition: Macro,
    /// How much of the input the directive takes, its line feed included.
    pub consumed: usize,
}

impl View for Definition {
    type V = DefinitionText;

    open spec fn view(&self) -> DefinitionText {
        DefinitionText {
            name: self.name@,
            definition: self.definition@,
            consumed: self.consumed as int,
        }
    }
}

/// One parameter at `at`, and the index behind it.
fn parse_param(input: &[char], at: usize) -> (r: Option<(String, usize)>)
    requires
        at <= input.len(),
    ensures
        match r {
            Some((p, n)) => param_at(input@, at as int) == Some((p@, n as int)) && at <= n
                <= input.len(),
            None => param_at(input@, at as int) is None,
        },
{
    let j: usize = skip_space(input, at);
    let dots = chars_of("...");
    if word_at(input, j, dots.as_slice()) {
        let n: usize = skip_space(input, j + dots.len());
        Some((String::from_str("..."), n))
    } else {
        match ident_at(input, j) {
            Some(e) => {
                let name = text_of(slice_subrange(input, j, e));
                let n: usize = skip_space(input, e);
                Some((name, n))
            },
            None => None,
        }
    }
}

/// The parameter list whose `(` stands right before `at`, and the index
/// behind its `)`.
fn parse_param_list(input: &[char], at: usize) -> (r: Option<(Vec<String>, usize)>)
    requires
        at <= input.len(),
    ensures
        match r {
            Some((ps, n)) => param_list(input@, at as int) == Some((ps.deep_view(), n as int))
                && at < n <= input.len(),
            None => param_list(input@, at as int) is None,
        },
{
    let mut params: Vec<String> = Vec::new();
    let mut i: usize = at;
    match parse_param(input, at) {
        None => {
            if at < input.len() && input[at] == ')' {
                assert(params.deep_view() =~= Seq::<Seq<char>>::empty());
                return Some((params, at + 1));
            } else {
                return None;
            }
        },
        Some((p, n)) => {
            assert(params.deep_view().push(p@) =~= seq![p@]);
            let ghost before = params.deep_view();
            params.push(p);
            assert(params.deep_view() =~= before.push(p@));
            i = n;
        },
    }
    while i < input.len() && input[i] == ','
        invariant
            at <= i <= input.len(),
            param_list(input@, at as int) == param_list_rest(input@, i as int, params.deep_view()),
        decreases input.len() - i,
    {
        match parse_param(input, i + 1) {
            None => {
                return None;
            },
            Some((p, n)) => {
                let ghost before = params.deep_view();
                params.push(p);
                assert(params.deep_view() =~= before.push(p@));
                i = n;
            },
        }
    }
    if i < input.len() && input[i] == ')' {
        Some((params, i + 1))
    } else {
        None
    }
}

/// The text of a definition from `at` on, not yet trimmed, and the index of
/// the line feed that ends it.
fn scan_body(input: &[char], at: usize) -> (r: Option<(Vec<char>, usize)>)
    requires
        at <= input.len(),
    ensures
        match r {
            Some((text, end)) => body_scan(input@, at as int, false, Seq::empty()) == Some(
                (text@, end as int),
            ) && at <= end < input.len(),
            None => body_scan(input@, at as int, false, Seq::empty()) is None,
        },
{
    let mut text: Vec<char> = Vec::new();
    let mut fresh_line = false;
    let mut i: usize = at;
    while i < input.len()
        invariant
            at <= i <= input.len(),
            body_scan(input@, at as int, false, Seq::empty()) == body_scan(
                input@,
                i as int,
                fresh_line,
                text@,
            ),
        decreases input.len() - i,
    {
        let c = input[i];
        if c == '\\' {
            if input.len() - i < 2 {
                return None;
            }
            let d = input[i + 1];
            if d == '\n' {
                fresh_line = true;
            } else {
                text.push('\\');
                text.push(d);
                fresh_line = false;
            }
            i += 2;
        } else if c == '\n' {
            return Some((text, i));
        } else if fresh_line && c == ' ' {
            i += 1;
        } else {
            text.push(c);
            fresh_line = false;
            i += 1;
        }
    }
    None
}

/// Recognises a `#define` directive at the start of `input`: `Ok(None)`
/// where the input does not begin with `#define` and a name, an error where
/// it does and the directive is not well formed.
pub fn parse_define(input: &[char]) -> (r: Result<Option<Definition>, PreprocessError>)
    ensures
        match r {
            Ok(Some(d)) => define_at(input@) == Ok::<Option<DefinitionText>, PreprocessError>(
                Some(d@),
            ) && 0 < d.consumed <= input.len(),
            Ok(None) => define_at(input@) == Ok::<Option<DefinitionText>, PreprocessError>(None),
            Err(e) => define_at(input@) == Err::<Option<DefinitionText>, PreprocessError>(e),
        },
{
    let word = chars_of("define");
    match directive_head(input, word.as_slice()) {
        None => Ok(None),
        Some((c, e)) => {
            let name = text_of(slice_subrange(input, c, e));
            if e < input.len() && input[e] == '(' {
                match parse_param_list(input, e + 1) {
                    None => Err(PreprocessError::MalformedParameterList),
                    Some((params, p)) => match scan_body(input, p) {
                        None => Err(PreprocessError::UnterminatedDefinition),
                        Some((text, end)) => {
                            let body = text_of(trim(text.as_slice()));
                            Ok(
                                Some(
                                    Definition {
                                        name,
                                        definition: Macro::Function { params, body },
                                        consumed: end + 1,
                                    },
                                ),
                            )
                        },
                    },
                }
            } else {
                match scan_body(input, e) {
                    None => Err(PreprocessError::UnterminatedDefinition),
                    Some((text, end)) => {
                        let body = text_of(trim(text.as_slice()));
                        Ok(
                            Some(
                                Definition {
                                    name,
                                    definition: Macro::Object { body },
                                    consumed: end + 1,
                                },
                            ),
                        )
                    },
                }
            }
        },
    }
}

/// The arguments of a call from `i` on. The argument at hand begins at
/// `piece`, `depth` parentheses stand open inside it, and `acc` holds the
/// arguments before it. A comma outside inner parentheses ends an argument,
/// a `)` outside them ends the list; each argument is trimmed. Gives the
/// arguments and the index behind the closing `)`, or nothing where the text
/// ends first.
pub open spec fn arg_scan(s: Seq<char>, i: int, piece: int, depth: nat, acc: Seq<Seq<char>>)
    -> Option<(Seq<Seq<char>>, int)>
    decreases s.len() - i,
{
    if i < 0 || i >= s.len() {
        None
    } else if depth == 0 && s[i] == ',' {
        arg_scan(s, i + 1, i + 1, 0, acc.push(trimmed(s.subrange(piece, i))))
    } else if depth == 0 && s[i] == ')' {
        Some((acc.push(trimmed(s.subrange(piece, i))), i + 1))
    } else if s[i] == '(' {
        arg_scan(s, i + 1, piece, depth + 1, acc)
    } else if s[i] == ')' {
        arg_scan(s, i + 1, piece, (depth - 1) as nat, acc)
    } else {
        arg_scan(s, i + 1, piece, depth, acc)
    }
}

/// The head of a macro call at the start of a text.
pub struct CallText {
    /// The length of the name.
    pub name_len: int,
    /// The arguments as they are written, each trimmed.
    pub args: Seq<Seq<char>>,
    /// How much of the text the call takes, from the name through the `)`.
    pub consumed: int,
}

/// The call at the start of `s`: an identifier, space as it comes, `(`, the
/// arguments and the matching `)`.
pub open spec fn call_at(s: Seq<char>) -> Option<CallText> {
    match ident_end(s, 0) {
        Some(e) => {
            let p = space_run_end(s, e);
            if p < s.len() && s[p] == '(' {
                match arg_scan(s, p + 1, p + 1, 0, Seq::empty()) {
                    Some((args, end)) => Some(CallText { name_len: e, args, consumed: end }),
                    None => None,
                }
            } else {
                None
            }
        },
        None => None,
    }
}

/// The arguments of a call end inside the text, behind the index where
/// the scan stood, and there is at least one of them.
pub proof fn lemma_arg_scan(s: Seq<char>, i: int, piece: int, depth: nat, acc: Seq<Seq<char>>)
    requires
        0 <= i <= s.len(),
    ensures
        match arg_scan(s, i, piece, depth, acc) {
            Some((args, end)) => i < end <= s.len() && args.len() > acc.len(),
            None => true,
        },
    decreases s.len() - i,
{
    if i < s.len() {
        if depth == 0 && s[i] == ',' {
            lemma_arg_scan(s, i + 1, i + 1, 0, acc.push(trimmed(s.subrange(piece, i))));
        } else if depth == 0 && s[i] == ')' {
        } else if s[i] == '(' {
            lemma_arg_scan(s, i + 1, piece, depth + 1, acc);
        } else if s[i] == ')' {
            lemma_arg_scan(s, i + 1, piece, (depth - 1) as nat, acc);
        } else {
            lemma_arg_scan(s, i + 1, piece, depth, acc);
        }
    }
}

/// The head of a macro call as [`parse_macro_call`] finds it.
#[derive(Debug, Clone)]
pub struct MacroCall {
    /// The length of the name.
    pub name_len: usize,
    /// The arguments as they are written, each trimmed.
    pub args: Vec<String>,
    /// How much of the input the call takes, from the name through the `)`.
    pub consumed: usize,
}

impl View for MacroCall {
    type V = CallText;

    open spec fn view(&self) -> CallText {
        CallText {
            name_len: self.name_len as int,
            args: self.args.deep_view(),
            consumed: self.consumed as int,
        }
    }
}

/// Recognises the head of a macro call at the start of `input`: a name and a
/// parenthesised list of arguments, split at the commas that stand outside
/// inner parentheses.
pub fn parse_macro_call(input: &[char]) -> (r: Option<MacroCall>)
    ensures
        match r {
            Some(call) => call_at(input@) == Some(call@) && 0 < call.name_len < call.consumed
                <= input.len() && call.args.len() > 0,
            None => call_at(input@) is None,
        },
{
    let e: usize = match ident_at(input, 0) {
        Some(e) => e,
        None => {
            return None;
        },
    };
    let p: usize = skip_space(input, e);
    if p >= input.len() || input[p] != '(' {
        return None;
    }
    let mut args: Vec<String> = Vec::new();
    let mut piece: usize = p + 1;
    let mut depth: usize = 0;
    let mut i: usize = p + 1;
    assert(args.deep_view() =~= Seq::<Seq<char>>::empty());
    while i < input.len()
        invariant
            0 < e <= p < piece <= i <= input.len(),
            depth <= i - piece,
            ident_end(input@, 0) == Some(e as int),
            p == space_run_end(input@, e as int),
            input@[p as int] == '(',
            arg_scan(input@, p + 1, p + 1, 0, Seq::empty()) == arg_scan(
                input@,
                i as int,
                piece as int,
                depth as nat,
                args.deep_view(),
            ),
        decreases input.len() - i,
    {
        let c = input[i];
        if depth == 0 && (c == ',' || c == ')') {
            let arg = text_of(trim(slice_subrange(input, piece, i)));
            let ghost before = args.deep_view();
            args.push(arg);
            assert(args.deep_view() =~= before.push(arg@));
            if c == ')' {
                return Some(MacroCall { name_len: e, args, consumed: i + 1 });
            }
            piece = i + 1;
        } else if c == '(' {
            depth += 1;
        } else if c == ')' {
            depth -= 1;
        }
        i += 1;
    }
    None
}

} // verus!
