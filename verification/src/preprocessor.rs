//! The preprocessor: the macro table and the expansion of a text against it.

use vstd::prelude::*;
use vstd::seq_lib::seq_to_set_is_finite;
use vstd::slice::slice_subrange;
use crate::error::PreprocessError;
use crate::parser::{
    identifier, parse_comment, parse_define, parse_macro_call, parse_undef, Macro, MacroText,
};
use crate::rewrite::{
    call_expansion, directive_at, expand_pure, expand_toplevel, free_names, lemma_directive_at,
    lemma_next_action, lemma_run_unfold, lemma_step_measure, prescan_from, run, run_top, step,
    Directive, Scan, Table,
};
use crate::substitution::{contains_paste, substitute};
use crate::text::{append_chars, chars_of, text_of};

verus! {

/// The names that are not expanded for the time being.
#[derive(Debug)]
pub struct HideSet {
    names: Vec<String>,
}

impl View for HideSet {
    type V = Set<Seq<char>>;

    closed spec fn view(&self) -> Set<Seq<char>> {
        self.names.deep_view().to_set()
    }
}

impl HideSet {
    /// The set that hides nothing.
    pub fn new() -> (r: Self)
        ensures
            r@ == Set::<Seq<char>>::empty(),
    {
        let r = HideSet { names: Vec::new() };
        assert(r@ =~= Set::<Seq<char>>::empty());
        r
    }

    /// Whether `name` is hidden.
    pub fn contains(&self, name: &str) -> (r: bool)
        ensures
            r == self@.contains(name@),
    {
        let wanted = String::from_str(name);
        let mut i: usize = 0;
        while i < self.names.len()
            invariant
                i <= self.names.len(),
                wanted@ == name@,
                forall|j: int| 0 <= j < i ==> self.names.deep_view()[j] != name@,
            decreases self.names.len() - i,
        {
            assert(self.names.deep_view()[i as int] == self.names@[i as int]@);
            if self.names[i] == wanted {
                return true;
            }
            i += 1;
        }
        false
    }

    /// Hides `name`.
    pub fn insert(&mut self, name: String)
        ensures
            final(self)@ == old(self)@.insert(name@),
    {
        if !self.contains(name.as_str()) {
            let ghost before = self.names.deep_view();
            self.names.push(name);
            assert(self.names.deep_view() =~= before.push(name@));
            proof {
                before.lemma_push_to_set_commute(name@);
            }
        } else {
            assert(self@ =~= self@.insert(name@));
        }
    }

    /// Hides nothing any more.
    pub fn clear(&mut self)
        ensures
            final(self)@ == Set::<Seq<char>>::empty(),
    {
        self.names.clear();
        assert(self@ =~= Set::<Seq<char>>::empty());
    }
}

/// In a sequence that holds nothing twice, what stands at an index is found
/// at that index.
proof fn lemma_index_unique(keys: Seq<Seq<char>>, n: Seq<char>, j: int)
    requires
        keys.no_duplicates(),
        0 <= j < keys.len(),
        keys[j] == n,
    ensures
        keys.contains(n),
        keys.index_of(n) == j,
{
}

/// A copy of each of the texts.
fn copy_texts(texts: &Vec<String>) -> (r: Vec<String>)
    ensures
        r.deep_view() == texts.deep_view(),
{
    let mut r: Vec<String> = Vec::new();
    let mut i: usize = 0;
    while i < texts.len()
        invariant
            i <= texts.len(),
            r.len() == i,
            forall|j: int| 0 <= j < i ==> r@[j]@ == texts@[j]@,
        decreases texts.len() - i,
    {
        r.push(texts[i].clone());
        i += 1;
    }
    assert(r.deep_view() =~= texts.deep_view());
    r
}

/// A copy of the definition.
fn copy_macro(definition: &Macro) -> (r: Macro)
    ensures
        r@ == definition@,
{
    match definition {
        Macro::Object { body } => Macro::Object { body: body.clone() },
        Macro::Function { params, body } => Macro::Function {
            params: copy_texts(params),
            body: body.clone(),
        },
    }
}

/// How deep the arguments that are expanded before substitution may be
/// nested in [`MacroPreprocessor::process`] and
/// [`MacroPreprocessor::process_mut`].
pub const NESTING_LIMIT: usize = 64;

/// A macro table and the expansion of texts against it.
#[derive(Debug)]
pub struct MacroPreprocessor {
    names: Vec<String>,
    definitions: Vec<Macro>,
}

impl View for MacroPreprocessor {
    type V = Table;

    closed spec fn view(&self) -> Table {
        Map::new(
            |name: Seq<char>| self.names.deep_view().contains(name),
            |name: Seq<char>| self.definitions@[self.names.deep_view().index_of(name)]@,
        )
    }
}

impl Default for MacroPreprocessor {
    /// A preprocessor with no macro defined.
    fn default() -> (r: Self)
        ensures
            r.wf(),
            r@ == Map::<Seq<char>, MacroText>::empty(),
    {
        MacroPreprocessor::new()
    }
}

impl MacroPreprocessor {
    /// Each name has its definition, and no name occurs twice.
    pub closed spec fn wf(&self) -> bool {
        self.names.len() == self.definitions.len() && self.names.deep_view().no_duplicates()
    }

    /// Only finitely many names are defined.
    pub proof fn lemma_finite(&self)
        ensures
            self@.dom().finite(),
    {
        seq_to_set_is_finite(self.names.deep_view());
        assert(self@.dom() =~= self.names.deep_view().to_set());
    }

    /// A preprocessor with no macro defined.
    pub fn new() -> (r: Self)
        ensures
            r.wf(),
            r@ == Map::<Seq<char>, MacroText>::empty(),
    {
        let r = MacroPreprocessor { names: Vec::new(), definitions: Vec::new() };
        assert(r@ =~= Map::<Seq<char>, MacroText>::empty());
        r
    }

    /// Where `name` stands in the table.
    fn position(&self, name: &str) -> (r: Option<usize>)
        requires
            self.wf(),
        ensures
            match r {
                Some(i) => i < self.names.len() && self.names@[i as int]@ == name@
                    && self@.contains_key(name@) && self@[name@] == self.definitions@[i as int]@,
                None => !self@.contains_key(name@),
            },
    {
        let wanted = String::from_str(name);
        let mut i: usize = 0;
        while i < self.names.len()
            invariant
                i <= self.names.len(),
                wanted@ == name@,
                self.wf(),
                forall|j: int| 0 <= j < i ==> self.names.deep_view()[j] != name@,
            decreases self.names.len() - i,
        {
            assert(self.names.deep_view()[i as int] == self.names@[i as int]@);
            if self.names[i] == wanted {
                return Some(i);
            }
            i += 1;
        }
        None
    }

    /// Defines `name` as `definition`, in place of what it was defined as
    /// before.
    pub fn define_macro(&mut self, name: String, definition: Macro)
        requires
            old(self).wf(),
        ensures
            final(self).wf(),
            final(self)@ == old(self)@.insert(name@, definition@),
    {
        match self.position(name.as_str()) {
            Some(i) => {
                self.definitions[i] = definition;
                assert(self.names.deep_view()[i as int] == name@);
                proof {
                    lemma_index_unique(self.names.deep_view(), name@, i as int);
                }
                assert(self@ =~= old(self)@.insert(name@, definition@));
            },
            None => {
                let ghost keys = self.names.deep_view();
                let ghost defs = self.definitions@;
                self.names.push(name);
                self.definitions.push(definition);
                let ghost grown = self.names.deep_view();
                assert(grown =~= keys.push(name@));
                assert(grown.no_duplicates());
                assert forall|n: Seq<char>| grown.contains(n) <==> (keys.contains(n) || n
                    == name@) by {
                    if grown.contains(n) {
                        let j = grown.index_of(n);
                        if j < keys.len() {
                            assert(keys[j] == n);
                        }
                    }
                    if keys.contains(n) {
                        assert(grown[keys.index_of(n)] == n);
                    }
                    if n == name@ {
                        assert(grown[keys.len() as int] == n);
                    }
                }
                assert forall|n: Seq<char>| grown.contains(n) implies self.definitions@[grown.index_of(
                    n,
                )]@ == old(self)@.insert(name@, definition@)[n] by {
                    let j = grown.index_of(n);
                    if j < keys.len() {
                        assert(keys[j] == n);
                        lemma_index_unique(keys, n, j);
                    }
                }
                assert(self@ =~= old(self)@.insert(name@, definition@));
            },
        }
    }

    /// Takes the definition of `name` away, if it has one.
    pub fn undefine_macro(&mut self, name: &str)
        requires
            old(self).wf(),
        ensures
            final(self).wf(),
            final(self)@ == old(self)@.remove(name@),
    {
        match self.position(name) {
            Some(i) => {
                let ghost keys = self.names.deep_view();
                let ghost defs = self.definitions@;
                self.names.remove(i);
                self.definitions.remove(i);
                let ghost left = self.names.deep_view();
                assert(left =~= keys.remove(i as int));
                assert(keys[i as int] == name@);
                assert forall|n: Seq<char>| left.contains(n) <==> (keys.contains(n) && n
                    != name@) by {
                    if left.contains(n) {
                        let j = left.index_of(n);
                        if j < i {
                            assert(keys[j] == n);
                        } else {
                            assert(keys[j + 1] == n);
                        }
                    }
                    if keys.contains(n) && n != name@ {
                        let j = keys.index_of(n);
                        if j < i {
                            assert(left[j] == n);
                        } else {
                            assert(left[j - 1] == n);
                        }
                    }
                }
                assert forall|n: Seq<char>| left.contains(n) implies self.definitions@[left.index_of(
                    n,
                )] == defs[keys.index_of(n)] by {
                    let j = left.index_of(n);
                    if j < i {
                        lemma_index_unique(keys, n, j);
                    } else {
                        lemma_index_unique(keys, n, j + 1);
                    }
                }
                assert(self@ =~= old(self)@.remove(name@));
            },
            None => {
                assert(self@ =~= old(self)@.remove(name@));
            },
        }
    }

    /// What `name` is defined as, if it is defined.
    pub fn lookup(&self, name: &str) -> (r: Option<Macro>)
        requires
            self.wf(),
        ensures
            match r {
                Some(definition) => self@.contains_key(name@) && self@[name@] == definition@,
                None => !self@.contains_key(name@),
            },
    {
        match self.position(name) {
            Some(i) => Some(copy_macro(&self.definitions[i])),
            None => None,
        }
    }
}

/// A scan as it is carried out: the text in a buffer, read from `pos` on.
struct Cursor {
    buf: Vec<char>,
    pos: usize,
    out: Vec<char>,
    shield: usize,
    hidden: HideSet,
}

impl View for Cursor {
    type V = Scan;

    closed spec fn view(&self) -> Scan {
        Scan {
            rest: self.buf@.skip(self.pos as int),
            out: self.out@,
            shield: self.shield as nat,
            hidden: self.hidden@,
        }
    }
}

impl Cursor {
    /// The read position lies in the buffer, and the shield covers no more
    /// than is left to read.
    closed spec fn wf(&self) -> bool {
        self.pos <= self.buf.len() && self.shield <= self.buf.len() - self.pos
    }

    /// The scan of `text` before anything is read.
    fn start(text: Vec<char>) -> (r: Self)
        ensures
            r.wf(),
            r@ == Scan::start(text@),
    {
        let r = Cursor { buf: text, pos: 0, out: Vec::new(), shield: 0, hidden: HideSet::new() };
        assert(r@.rest =~= text@);
        r
    }

    /// How many characters are left to read.
    fn left(&self) -> (n: usize)
        requires
            self.wf(),
        ensures
            n == self@.rest.len(),
    {
        self.buf.len() - self.pos
    }

    /// What is left to read.
    fn rest(&self) -> (r: &[char])
        requires
            self.wf(),
        ensures
            r@ == self@.rest,
    {
        slice_subrange(self.buf.as_slice(), self.pos, self.buf.len())
    }

    /// Whether the scan stands in text that no expansion made.
    fn unshielded(&self) -> (r: bool)
        ensures
            r == (self@.shield == 0),
    {
        self.shield == 0
    }

    /// Takes `k` characters from the front and, with `emit`, writes them.
    fn advance(&mut self, k: usize, emit: bool)
        requires
            old(self).wf(),
            0 < k <= old(self)@.rest.len(),
        ensures
            final(self).wf(),
            final(self)@ == old(self)@.consume(k as int, emit),
    {
        if emit {
            let taken = slice_subrange(self.buf.as_slice(), self.pos, self.pos + k);
            assert(taken@ =~= old(self)@.rest.subrange(0, k as int));
            append_chars(&mut self.out, taken);
        }
        self.pos = self.pos + k;
        if k > self.shield {
            self.shield = 0;
            self.hidden.clear();
        } else {
            self.shield = self.shield - k;
        }
        assert(self@.rest =~= old(self)@.rest.skip(k as int));
    }

    /// Puts `text` in the place of the `k` characters at the front and
    /// lengthens the shield by its length.
    fn replace_front(&mut self, k: usize, text: &str)
        requires
            old(self).wf(),
            0 < k <= old(self)@.rest.len(),
        ensures
            final(self).wf(),
            final(self)@.rest == text@ + old(self)@.rest.skip(k as int),
            final(self)@.out == old(self)@.out,
            final(self)@.shield == (if k > old(self)@.shield {
                0
            } else {
                (old(self)@.shield - k) as nat
            }) + text@.len(),
            final(self)@.hidden == old(self)@.hidden,
    {
        let mut fresh = chars_of(text);
        let added: usize = fresh.len();
        let tail = slice_subrange(self.buf.as_slice(), self.pos + k, self.buf.len());
        assert(tail@ =~= old(self)@.rest.skip(k as int));
        append_chars(&mut fresh, tail);
        let kept: usize = if k > self.shield {
            0
        } else {
            self.shield - k
        };
        assert(kept + added <= fresh.len());
        self.buf = fresh;
        self.pos = 0;
        self.shield = kept + added;
        assert(self@.rest =~= text@ + old(self)@.rest.skip(k as int));
    }
}

impl MacroPreprocessor {
    /// The body of the object macro `name`, unless the name is hidden or no
    /// object macro. With the body given, the name is hidden from then on.
    pub fn expand_object_macro(&self, expended_macros: &mut HideSet, name: &str) -> (r: Option<
        String,
    >)
        requires
            self.wf(),
        ensures
            match r {
                Some(body) => !old(expended_macros)@.contains(name@) && self@.contains_key(name@)
                    && self@[name@] == (MacroText::Object { body: body@ }) && final(expended_macros)@ == old(expended_macros)@.insert(name@),
                None => (old(expended_macros)@.contains(name@) || !self@.contains_key(name@)
                    || !(self@[name@] is Object)) && final(expended_macros)@ == old(expended_macros)@,
            },
    {
        if expended_macros.contains(name) {
            return None;
        }
        match self.position(name) {
            Some(i) => match &self.definitions[i] {
                Macro::Object { body } => {
                    expended_macros.insert(String::from_str(name));
                    Some(body.clone())
                },
                Macro::Function { params, body } => None,
            },
            None => None,
        }
    }

    /// The arguments of a call, each expanded on its own with nothing
    /// hidden.
    fn prescan(&self, args: &Vec<String>, depth: usize) -> (r: Result<Vec<String>, PreprocessError>)
        requires
            self.wf(),
        ensures
            match r {
                Ok(expanded) => prescan_from(
                    self@,
                    args.deep_view(),
                    0,
                    Seq::empty(),
                    depth as nat,
                ) == Ok::<Seq<Seq<char>>, PreprocessError>(expanded.deep_view()),
                Err(e) => prescan_from(self@, args.deep_view(), 0, Seq::empty(), depth as nat)
                    == Err::<Seq<Seq<char>>, PreprocessError>(e),
            },
        decreases depth, 4int,
    {
        let mut expanded: Vec<String> = Vec::new();
        let mut i: usize = 0;
        proof {
            self.lemma_finite();
        }
        assert(expanded.deep_view() =~= Seq::<Seq<char>>::empty());
        while i < args.len()
            invariant
                i <= args.len(),
                self.wf(),
                self@.dom().finite(),
                prescan_from(self@, args.deep_view(), 0, Seq::empty(), depth as nat)
                    == prescan_from(
                    self@,
                    args.deep_view(),
                    i as int,
                    expanded.deep_view(),
                    depth as nat,
                ),
            decreases args.len() - i,
        {
            assert(args.deep_view()[i as int] == args@[i as int]@);
            match self.process_within(args[i].as_str(), depth) {
                Err(e) => {
                    return Err(e);
                },
                Ok(text) => {
                    let ghost before = expanded.deep_view();
                    expanded.push(text);
                    assert(expanded.deep_view() =~= before.push(text@));
                },
            }
            i += 1;
        }
        Ok(expanded)
    }

    /// What the call of `macro_name` with the arguments `macro_args` gives
    /// way to, unless the name is hidden or no function macro. With the
    /// expansion given, the name is hidden from then on. Arguments that are
    /// expanded before substitution may be nested `depth` deep.
    pub fn expand_function_macro(
        &self,
        expended_macros: &mut HideSet,
        macro_name: &str,
        macro_args: &Vec<String>,
        depth: usize,
    ) -> (r: Result<Option<String>, PreprocessError>)
        requires
            self.wf(),
        ensures
            match r {
                Ok(Some(text)) => !old(expended_macros)@.contains(macro_name@)
                    && self@.contains_key(macro_name@) && self@[macro_name@] is Function
                    && call_expansion(self@, macro_name@, macro_args.deep_view(), depth as nat)
                    == Ok::<Seq<char>, PreprocessError>(text@) && final(expended_macros)@ == old(expended_macros)@.insert(macro_name@),
                Ok(None) => (old(expended_macros)@.contains(macro_name@) || !self@.contains_key(
                    macro_name@,
                ) || !(self@[macro_name@] is Function)) && final(expended_macros)@ == old(expended_macros)@,
                Err(e) => !old(expended_macros)@.contains(macro_name@) && self@.contains_key(
                    macro_name@,
                ) && self@[macro_name@] is Function && call_expansion(
                    self@,
                    macro_name@,
                    macro_args.deep_view(),
                    depth as nat,
                ) == Err::<Seq<char>, PreprocessError>(e) && final(expended_macros)@ == old(expended_macros)@,
            },
        decreases depth, 1int,
    {
        if expended_macros.contains(macro_name) {
            return Ok(None);
        }
        match self.position(macro_name) {
            Some(i) => match &self.definitions[i] {
                Macro::Function { params, body } => {
                    let body_chars = chars_of(body.as_str());
                    if contains_paste(body_chars.as_slice()) {
                        expended_macros.insert(String::from_str(macro_name));
                        Ok(Some(substitute(params, macro_args, body.as_str())))
                    } else if depth == 0 {
                        Err(PreprocessError::NestingTooDeep)
                    } else {
                        match self.prescan(macro_args, depth - 1) {
                            Err(e) => Err(e),
                            Ok(given) => {
                                expended_macros.insert(String::from_str(macro_name));
                                Ok(Some(substitute(params, &given, body.as_str())))
                            },
                        }
                    }
                },
                Macro::Object { body } => Ok(None),
            },
            None => Ok(None),
        }
    }

    /// Carries out the one action at the front of what is left.
    fn step(&self, cur: &mut Cursor, depth: usize) -> (r: Result<(), PreprocessError>)
        requires
            self.wf(),
            old(cur).wf(),
            old(cur)@.rest.len() > 0,
        ensures
            final(cur).wf(),
            match r {
                Ok(()) => step(self@, old(cur)@, depth as nat) == Ok::<Scan, PreprocessError>(
                    final(cur)@,
                ),
                Err(e) => step(self@, old(cur)@, depth as nat) == Err::<Scan, PreprocessError>(e),
            },
        decreases depth, 2int,
    {
        proof {
            lemma_next_action(self@, cur@.hidden, cur@.rest);
        }
        match parse_comment(cur.rest()) {
            Some(n) => {
                cur.advance(n, false);
                return Ok(());
            },
            None => {},
        }
        match parse_macro_call(cur.rest()) {
            Some(call) => {
                let name = text_of(slice_subrange(cur.rest(), 0, call.name_len));
                match self.expand_function_macro(
                    &mut cur.hidden,
                    name.as_str(),
                    &call.args,
                    depth,
                ) {
                    Err(e) => {
                        return Err(e);
                    },
                    Ok(Some(text)) => {
                        cur.replace_front(call.consumed, text.as_str());
                        assert(cur@ == old(cur)@.splice(call.consumed as int, text@, name@));
                        return Ok(());
                    },
                    Ok(None) => {
                        cur.advance(call.name_len, true);
                        return Ok(());
                    },
                }
            },
            None => {},
        }
        match identifier(cur.rest()) {
            Some(e) => {
                let name = text_of(slice_subrange(cur.rest(), 0, e));
                match self.expand_object_macro(&mut cur.hidden, name.as_str()) {
                    Some(body) => {
                        cur.replace_front(e, body.as_str());
                        assert(cur@ == old(cur)@.splice(e as int, body@, name@));
                    },
                    None => {
                        cur.advance(e, true);
                    },
                }
            },
            None => {
                cur.advance(1, true);
            },
        }
        Ok(())
    }

    /// Expands `input` without regard to directives, with arguments that
    /// are expanded before substitution nested at most `depth` deep.
    pub fn process_within(&self, input: &str, depth: usize) -> (r: Result<String, PreprocessError>)
        requires
            self.wf(),
        ensures
            match r {
                Ok(text) => expand_pure(self@, input@, depth as nat) == Ok::<
                    Seq<char>,
                    PreprocessError,
                >(text@),
                Err(e) => expand_pure(self@, input@, depth as nat) == Err::<
                    Seq<char>,
                    PreprocessError,
                >(e),
            },
        decreases depth, 3int,
    {
        let mut cur = Cursor::start(chars_of(input));
        proof {
            self.lemma_finite();
        }
        while cur.left() > 0
            invariant
                self.wf(),
                cur.wf(),
                self@.dom().finite(),
                run(self@, cur@, depth as nat) == expand_pure(self@, input@, depth as nat),
            decreases cur@.unshielded(), free_names(self@, cur@.hidden), cur@.rest.len(),
        {
            proof {
                lemma_run_unfold(self@, cur@, depth as nat);
                lemma_step_measure(self@, cur@, depth as nat);
            }
            match self.step(&mut cur, depth) {
                Err(e) => {
                    return Err(e);
                },
                Ok(()) => {},
            }
        }
        proof {
            lemma_run_unfold(self@, cur@, depth as nat);
        }
        Ok(text_of(cur.out.as_slice()))
    }

    /// Expands `input` against the table as it stands. Directives are not
    /// regarded: a `#` line is text like any other.
    pub fn process(&self, input: &str) -> (r: Result<String, PreprocessError>)
        requires
            self.wf(),
        ensures
            match r {
                Ok(text) => expand_pure(self@, input@, NESTING_LIMIT as nat) == Ok::<
                    Seq<char>,
                    PreprocessError,
                >(text@),
                Err(e) => expand_pure(self@, input@, NESTING_LIMIT as nat) == Err::<
                    Seq<char>,
                    PreprocessError,
                >(e),
            },
    {
        self.process_within(input, NESTING_LIMIT)
    }
}

impl MacroPreprocessor {
    /// Carries out the directive that the scan stands at, if it stands at
    /// one, and says whether it did.
    fn apply_directive(&mut self, cur: &mut Cursor) -> (r: Result<bool, PreprocessError>)
        requires
            old(self).wf(),
            old(cur).wf(),
            old(cur)@.rest.len() > 0,
        ensures
            final(self).wf(),
            final(cur).wf(),
            match directive_at(old(cur)@) {
                Err(e) => r == Err::<bool, PreprocessError>(e) && final(self)@ == old(self)@,
                Ok(None) => r == Ok::<bool, PreprocessError>(false) && final(self)@ == old(self)@
                    && final(cur)@ == old(cur)@,
                Ok(Some(Directive::Undef { name, len })) => r == Ok::<bool, PreprocessError>(true)
                    && final(self)@ == old(self)@.remove(name) && final(cur)@ == old(
                    cur,
                )@.consume(len, false),
                Ok(Some(Directive::Define { name, definition, len })) => r == Ok::<
                    bool,
                    PreprocessError,
                >(true) && final(self)@ == old(self)@.insert(name, definition) && final(cur)@
                    == old(cur)@.consume(len, false),
            },
    {
        if !cur.unshielded() || parse_comment(cur.rest()).is_some() {
            return Ok(false);
        }
        match parse_undef(cur.rest()) {
            Some(u) => {
                let name = text_of(slice_subrange(cur.rest(), u.name_start, u.name_end));
                self.undefine_macro(name.as_str());
                cur.advance(u.consumed, false);
                Ok(true)
            },
            None => match parse_define(cur.rest()) {
                Err(e) => Err(e),
                Ok(None) => Ok(false),
                Ok(Some(d)) => {
                    let consumed: usize = d.consumed;
                    self.define_macro(d.name, d.definition);
                    cur.advance(consumed, false);
                    Ok(true)
                },
            },
        }
    }

    /// Expands `input` and carries out its directives, with arguments that
    /// are expanded before substitution nested at most `depth` deep. Only
    /// text that no expansion made can hold a directive. On an error the
    /// table stays as the directives before the error left it.
    pub fn process_mut_within(&mut self, input: &str, depth: usize) -> (r: Result<
        String,
        PreprocessError,
    >)
        requires
            old(self).wf(),
        ensures
            final(self).wf(),
            final(self)@ == expand_toplevel(old(self)@, input@, depth as nat).table,
            match r {
                Ok(text) => expand_toplevel(old(self)@, input@, depth as nat).result == Ok::<
                    Seq<char>,
                    PreprocessError,
                >(text@),
                Err(e) => expand_toplevel(old(self)@, input@, depth as nat).result == Err::<
                    Seq<char>,
                    PreprocessError,
                >(e),
            },
    {
        let mut cur = Cursor::start(chars_of(input));
        while cur.left() > 0
            invariant
                self.wf(),
                cur.wf(),
                run_top(self@, cur@, depth as nat) == expand_toplevel(
                    old(self)@,
                    input@,
                    depth as nat,
                ),
            decreases cur@.unshielded(), free_names(self@, cur@.hidden), cur@.rest.len(),
        {
            proof {
                self.lemma_finite();
                lemma_directive_at(cur@);
                lemma_step_measure(self@, cur@, depth as nat);
            }
            match self.apply_directive(&mut cur) {
                Err(e) => {
                    return Err(e);
                },
                Ok(true) => {},
                Ok(false) => {
                    match self.step(&mut cur, depth) {
                        Err(e) => {
                            return Err(e);
                        },
                        Ok(()) => {},
                    }
                },
            }
        }
        proof {
            self.lemma_finite();
        }
        Ok(text_of(cur.out.as_slice()))
    }

    /// Expands `input` and carries out its `#define` and `#undef`
    /// directives, which change the table and leave nothing in the output.
    /// Only text that no expansion made can hold a directive. On an error
    /// the table stays as the directives before the error left it.
    pub fn process_mut(&mut self, input: &str) -> (r: Result<String, PreprocessError>)
        requires
            old(self).wf(),
        ensures
            final(self).wf(),
            final(self)@ == expand_toplevel(old(self)@, input@, NESTING_LIMIT as nat).table,
            match r {
                Ok(text) => expand_toplevel(old(self)@, input@, NESTING_LIMIT as nat).result
                    == Ok::<Seq<char>, PreprocessError>(text@),
                Err(e) => expand_toplevel(old(self)@, input@, NESTING_LIMIT as nat).result
                    == Err::<Seq<char>, PreprocessError>(e),
            },
    {
        self.process_mut_within(input, NESTING_LIMIT)
    }
}

/// Expands `input`, a whole document, from an empty macro table.
pub fn preprocess(input: &str) -> (r: Result<String, PreprocessError>)
    ensures
        match r {
            Ok(text) => expand_toplevel(Map::empty(), input@, NESTING_LIMIT as nat).result == Ok::<
                Seq<char>,
                PreprocessError,
            >(text@),
            Err(e) => expand_toplevel(Map::empty(), input@, NESTING_LIMIT as nat).result == Err::<
                Seq<char>,
                PreprocessError,
            >(e),
        },
{
    let mut preprocessor = MacroPreprocessor::new();
    preprocessor.process_mut(input)
}

} // verus!
