//! The template parser.
//!
//! A template is a sequence of expressions. Each expression is either a
//! literal segment (a maximal run of characters containing no `{`) or a
//! placeholder `{name}` / `{name(arg, arg)}`, where the name is everything up
//! to the first `(` or `}` and each argument token is one or more ASCII
//! alphanumeric characters. Spaces are allowed after the separating commas,
//! nowhere else. The parse consumes the whole input; anything it cannot
//! consume is a parse error.
//!
//! The grammar is specified by the spec functions [`parse_spanned`],
//! [`parse_call`] and [`parse_args`], which also record the exact span of
//! input that each expression covers; [`parse`] is the executable parser,
//! proved to return exactly what the specification says. The lemma
//! [`lemma_round_trip`] shows that the recorded spans partition the input.

use vstd::prelude::*;

verus! {

use vstd::seq_lib::*;
use crate::error::EdoError;

/// A parsed template fragment.
#[derive(Debug, PartialEq, Eq)]
pub enum Expression {
    /// A named placeholder with its (possibly empty) argument list.
    Function {
        /// The placeholder identifier: everything between `{` and the first
        /// `(` or `}`.
        name: String,
        /// The argument tokens, in order.
        arguments: Vec<String>,
    },
    /// A verbatim text segment.
    Literal(String),
}

/// The mathematical shape of a parsed expression: strings as character
/// sequences.
pub ghost enum ExprModel {
    /// A named placeholder with its argument list.
    Function { name: Seq<char>, arguments: Seq<Seq<char>> },
    /// A verbatim text segment.
    Literal(Seq<char>),
}

impl View for Expression {
    type V = ExprModel;

    open spec fn view(&self) -> ExprModel {
        match self {
            Expression::Function { name, arguments } => ExprModel::Function {
                name: name@,
                arguments: arguments@.map_values(|a: String| a@),
            },
            Expression::Literal(t) => ExprModel::Literal(t@),
        }
    }
}

/// Holds exactly on the ASCII alphanumeric characters, the only characters an
/// argument token may contain.
pub open spec fn is_arg_char(c: char) -> bool {
    ('0' as u32 <= c as u32 && c as u32 <= '9' as u32) || ('A' as u32 <= c as u32 && c as u32
        <= 'Z' as u32) || ('a' as u32 <= c as u32 && c as u32 <= 'z' as u32)
}

/// Stops a literal segment: the opening brace of a placeholder.
pub open spec fn brace_stop() -> spec_fn(char) -> bool {
    |c: char| c == '{'
}

/// Stops a placeholder name: the start of an argument list or the closing
/// brace.
pub open spec fn name_stop() -> spec_fn(char) -> bool {
    |c: char| c == '(' || c == '}'
}

/// Stops an argument token: any character that is not ASCII alphanumeric.
pub open spec fn arg_stop() -> spec_fn(char) -> bool {
    |c: char| !is_arg_char(c)
}

/// Stops the run of spaces allowed after a comma.
pub open spec fn space_stop() -> spec_fn(char) -> bool {
    |c: char| c != ' '
}

/// First index at or after `i` whose character satisfies `stop`, or `s.len()`
/// if there is none.
pub open spec fn scan_end(s: Seq<char>, i: int, stop: spec_fn(char) -> bool) -> int
    decreases s.len() - i,
    when 0 <= i <= s.len()
{
    if i >= s.len() {
        i
    } else if stop(s[i]) {
        i
    } else {
        scan_end(s, i + 1, stop)
    }
}

/// `scan_end` lands between `i` and the end of `s`, skips no stopping
/// character, and stops on one unless it ran off the end.
pub proof fn lemma_scan_end(s: Seq<char>, i: int, stop: spec_fn(char) -> bool)
    requires
        0 <= i <= s.len(),
    ensures
        i <= scan_end(s, i, stop) <= s.len(),
        forall|k: int| i <= k < scan_end(s, i, stop) ==> !stop(s[k]),
        scan_end(s, i, stop) < s.len() ==> stop(s[scan_end(s, i, stop)]),
    decreases s.len() - i,
{
    if i < s.len() && !stop(s[i]) {
        lemma_scan_end(s, i + 1, stop);
    }
}

/// `scan_end` is the one index with the scan's defining properties.
pub proof fn lemma_scan_end_unique(s: Seq<char>, i: int, j: int, stop: spec_fn(char) -> bool)
    requires
        0 <= i <= j <= s.len(),
        forall|k: int| i <= k < j ==> !stop(s[k]),
        j == s.len() || stop(s[j]),
    ensures
        scan_end(s, i, stop) == j,
    decreases j - i,
{
    if i < j {
        lemma_scan_end_unique(s, i + 1, j, stop);
    }
}

/// Parses the arguments after the first token of a non-empty list: at `i`
/// stands either the closing `)` or a `,` followed by optional spaces and a
/// further token. Returns the tokens and the index just past the `)`.
pub open spec fn parse_args_rest(s: Seq<char>, i: int) -> Option<(Seq<Seq<char>>, int)>
    decreases s.len() - i,
    when 0 <= i <= s.len()
{
    if i >= s.len() {
        None
    } else if s[i] == ')' {
        Some((Seq::empty(), i + 1))
    } else if s[i] == ',' {
        let m = scan_end(s, i + 1, space_stop());
        let k = scan_end(s, m, arg_stop());
        proof {
            lemma_scan_end(s, i + 1, space_stop());
            lemma_scan_end(s, m, arg_stop());
        }
        if k == m {
            None
        } else {
            match parse_args_rest(s, k) {
                None => None,
                Some((rest, e)) => Some((seq![s.subrange(m, k)] + rest, e)),
            }
        }
    } else {
        None
    }
}

/// Parses an argument list from the index just after its `(`: either an
/// immediate `)` (no arguments) or a first token followed by
/// [`parse_args_rest`]. Returns the tokens and the index just past the `)`.
pub open spec fn parse_args(s: Seq<char>, i: int) -> Option<(Seq<Seq<char>>, int)>
    decreases s.len() - i,
    when 0 <= i <= s.len()
{
    if i >= s.len() {
        None
    } else if s[i] == ')' {
        Some((Seq::empty(), i + 1))
    } else {
        let k = scan_end(s, i, arg_stop());
        if k == i {
            None
        } else {
            match parse_args_rest(s, k) {
                None => None,
                Some((rest, e)) => Some((seq![s.subrange(i, k)] + rest, e)),
            }
        }
    }
}

/// A successful argument parse ends past where it began and within the input.
pub proof fn lemma_parse_args_rest_bounds(s: Seq<char>, i: int)
    requires
        0 <= i <= s.len(),
        parse_args_rest(s, i) is Some,
    ensures
        i < parse_args_rest(s, i)->Some_0.1 <= s.len(),
    decreases s.len() - i,
{
    if i < s.len() && s[i] == ',' {
        let m = scan_end(s, i + 1, space_stop());
        let k = scan_end(s, m, arg_stop());
        lemma_scan_end(s, i + 1, space_stop());
        lemma_scan_end(s, m, arg_stop());
        if k != m && parse_args_rest(s, k) is Some {
            lemma_parse_args_rest_bounds(s, k);
        }
    }
}

/// A successful argument-list parse ends past where it began and within the
/// input.
pub proof fn lemma_parse_args_bounds(s: Seq<char>, i: int)
    requires
        0 <= i <= s.len(),
        parse_args(s, i) is Some,
    ensures
        i < parse_args(s, i)->Some_0.1 <= s.len(),
{
    if i < s.len() && s[i] != ')' {
        let k = scan_end(s, i, arg_stop());
        lemma_scan_end(s, i, arg_stop());
        if k != i && parse_args_rest(s, k) is Some {
            lemma_parse_args_rest_bounds(s, k);
        }
    }
}

/// Parses one placeholder whose `{` stands at `i`: the name runs to the first
/// `(` or `}`; a `(` introduces an argument list that must be followed by the
/// closing `}`. Returns the expression and the index just past the `}`.
pub open spec fn parse_call(s: Seq<char>, i: int) -> Option<(ExprModel, int)> {
    let ne = scan_end(s, i + 1, name_stop());
    if ne >= s.len() {
        None
    } else if s[ne] == '}' {
        Some((ExprModel::Function { name: s.subrange(i + 1, ne), arguments: Seq::empty() }, ne + 1))
    } else {
        match parse_args(s, ne + 1) {
            None => None,
            Some((args, j)) => if j < s.len() && s[j] == '}' {
                Some((ExprModel::Function { name: s.subrange(i + 1, ne), arguments: args }, j + 1))
            } else {
                None
            },
        }
    }
}

/// A successful placeholder parse ends past its `{` and within the input.
pub proof fn lemma_parse_call_bounds(s: Seq<char>, i: int)
    requires
        0 <= i < s.len(),
        parse_call(s, i) is Some,
    ensures
        i < parse_call(s, i)->Some_0.1 <= s.len(),
{
    let ne = scan_end(s, i + 1, name_stop());
    lemma_scan_end(s, i + 1, name_stop());
    if ne < s.len() && s[ne] != '}' {
        if parse_args(s, ne + 1) is Some {
            lemma_parse_args_bounds(s, ne + 1);
        }
    }
}

/// Parses the whole input from `i` on as a sequence of expressions, pairing
/// each with the exact span of input it covers. A `{` must open a well-formed
/// placeholder; any other character opens a literal running to the next `{`.
pub open spec fn parse_spanned(s: Seq<char>, i: int) -> Option<Seq<(ExprModel, Seq<char>)>>
    decreases s.len() - i,
    when 0 <= i <= s.len()
{
    if i >= s.len() {
        Some(Seq::empty())
    } else if s[i] == '{' {
        proof {
            if parse_call(s, i) is Some {
                lemma_parse_call_bounds(s, i);
            }
        }
        match parse_call(s, i) {
            None => None,
            Some((e, j)) => match parse_spanned(s, j) {
                None => None,
                Some(rest) => Some(seq![(e, s.subrange(i, j))] + rest),
            },
        }
    } else {
        let j = scan_end(s, i, brace_stop());
        proof {
            lemma_scan_end(s, i, brace_stop());
        }
        match parse_spanned(s, j) {
            None => None,
            Some(rest) => Some(
                seq![(ExprModel::Literal(s.subrange(i, j)), s.subrange(i, j))] + rest,
            ),
        }
    }
}

/// The expressions of a spanned parse, the spans dropped.
pub open spec fn exprs_of(ps: Seq<(ExprModel, Seq<char>)>) -> Seq<ExprModel> {
    ps.map_values(|p: (ExprModel, Seq<char>)| p.0)
}

/// What parsing a template string yields: the expression sequence, or nothing
/// where the grammar cannot consume the whole input.
pub open spec fn parse_all(s: Seq<char>) -> Option<Seq<ExprModel>> {
    match parse_spanned(s, 0) {
        None => None,
        Some(ps) => Some(exprs_of(ps)),
    }
}

/// The spans of a spanned parse, the expressions dropped.
pub open spec fn spans_of(ps: Seq<(ExprModel, Seq<char>)>) -> Seq<Seq<char>> {
    ps.map_values(|p: (ExprModel, Seq<char>)| p.1)
}

/// A well-formed argument token: non-empty and ASCII alphanumeric throughout.
pub open spec fn arg_token_wf(t: Seq<char>) -> bool {
    t.len() > 0 && (forall|k: int| 0 <= k < t.len() ==> is_arg_char(t[k]))
}

/// What the parser guarantees of each expression it produces: a literal is
/// non-empty and free of `{`; a placeholder name holds no `(` or `}` and each
/// argument is a well-formed token.
pub open spec fn expr_wf(e: ExprModel) -> bool {
    match e {
        ExprModel::Literal(t) => t.len() > 0 && (forall|k: int| 0 <= k < t.len() ==> t[k] != '{'),
        ExprModel::Function { name, arguments } => {
            &&& forall|k: int| 0 <= k < name.len() ==> name[k] != '(' && name[k] != '}'
            &&& forall|j: int| 0 <= j < arguments.len() ==> arg_token_wf(arguments[j])
        },
    }
}

/// How an expression relates to the span of input it was parsed from: a
/// literal is its own span; a placeholder's span is braced and carries the
/// name right after the `{`.
pub open spec fn span_matches(e: ExprModel, span: Seq<char>) -> bool {
    match e {
        ExprModel::Literal(t) => span == t,
        ExprModel::Function { name, arguments } => {
            &&& span.len() >= name.len() + 2
            &&& span[0] == '{'
            &&& span[span.len() - 1] == '}'
            &&& span.subrange(1, 1 + name.len() as int) == name
        },
    }
}

/// Every argument token a successful argument parse yields is well formed.
proof fn lemma_parse_args_rest_wf(s: Seq<char>, i: int)
    requires
        0 <= i <= s.len(),
        parse_args_rest(s, i) is Some,
    ensures
        forall|j: int|
            0 <= j < parse_args_rest(s, i)->Some_0.0.len() ==> arg_token_wf(
                #[trigger] parse_args_rest(s, i)->Some_0.0[j],
            ),
    decreases s.len() - i,
{
    if i < s.len() && s[i] == ',' {
        let m = scan_end(s, i + 1, space_stop());
        let k = scan_end(s, m, arg_stop());
        lemma_scan_end(s, i + 1, space_stop());
        lemma_scan_end(s, m, arg_stop());
        if k != m && parse_args_rest(s, k) is Some {
            lemma_parse_args_rest_wf(s, k);
            assert(arg_token_wf(s.subrange(m, k)));
        }
    }
}

/// Every argument token a successful argument-list parse yields is well
/// formed.
proof fn lemma_parse_args_wf(s: Seq<char>, i: int)
    requires
        0 <= i <= s.len(),
        parse_args(s, i) is Some,
    ensures
        forall|j: int|
            0 <= j < parse_args(s, i)->Some_0.0.len() ==> arg_token_wf(
                #[trigger] parse_args(s, i)->Some_0.0[j],
            ),
{
    if i < s.len() && s[i] != ')' {
        let k = scan_end(s, i, arg_stop());
        lemma_scan_end(s, i, arg_stop());
        if k != i && parse_args_rest(s, k) is Some {
            lemma_parse_args_rest_wf(s, k);
            assert(arg_token_wf(s.subrange(i, k)));
        }
    }
}

/// The spans of a successful parse from `i` partition the rest of the input,
/// each expression matching its span and well formed.
proof fn lemma_round_trip_from(s: Seq<char>, i: int)
    requires
        0 <= i <= s.len(),
        parse_spanned(s, i) is Some,
    ensures
        ({
            let ps = parse_spanned(s, i)->Some_0;
            &&& spans_of(ps).flatten() == s.subrange(i, s.len() as int)
            &&& forall|k: int| 0 <= k < ps.len() ==> span_matches(ps[k].0, ps[k].1)
            &&& forall|k: int| 0 <= k < ps.len() ==> expr_wf(ps[k].0)
        }),
    decreases s.len() - i,
{
    let ps = parse_spanned(s, i)->Some_0;
    if i >= s.len() {
        assert(spans_of(ps) =~= Seq::<Seq<char>>::empty());
        assert(spans_of(ps).flatten() =~= s.subrange(i, s.len() as int));
    } else if s[i] == '{' {
        let (e, j) = parse_call(s, i)->Some_0;
        lemma_parse_call_bounds(s, i);
        lemma_round_trip_from(s, j);
        let rest = parse_spanned(s, j)->Some_0;
        let span = s.subrange(i, j);
        assert(ps == seq![(e, span)] + rest);
        let ss = spans_of(ps);
        assert(ss =~= seq![span] + spans_of(rest));
        assert(ss.first() == span);
        assert(ss.drop_first() =~= spans_of(rest));
        assert(ss.flatten() == span + spans_of(rest).flatten());
        assert(span + s.subrange(j, s.len() as int) =~= s.subrange(i, s.len() as int));
        // The head expression matches its span and is well formed.
        let ne = scan_end(s, i + 1, name_stop());
        lemma_scan_end(s, i + 1, name_stop());
        let name = s.subrange(i + 1, ne);
        assert(span[0] == '{');
        assert(s[j - 1] == '}');
        assert(span[span.len() - 1] == '}');
        assert(span.subrange(1, 1 + name.len() as int) =~= name);
        if s[ne] != '}' {
            lemma_parse_args_wf(s, ne + 1);
        }
        assert(span_matches(e, span));
        assert(expr_wf(e));
        assert(forall|k: int| 0 <= k < ps.len() ==> span_matches(ps[k].0, ps[k].1)) by {
            assert(forall|k: int| 1 <= k < ps.len() ==> ps[k] == rest[k - 1]);
        }
        assert(forall|k: int| 0 <= k < ps.len() ==> expr_wf(ps[k].0)) by {
            assert(forall|k: int| 1 <= k < ps.len() ==> ps[k] == rest[k - 1]);
        }
    } else {
        let j = scan_end(s, i, brace_stop());
        lemma_scan_end(s, i, brace_stop());
        lemma_round_trip_from(s, j);
        let rest = parse_spanned(s, j)->Some_0;
        let span = s.subrange(i, j);
        assert(ps == seq![(ExprModel::Literal(span), span)] + rest);
        let ss = spans_of(ps);
        assert(ss =~= seq![span] + spans_of(rest));
        assert(ss.first() == span);
        assert(ss.drop_first() =~= spans_of(rest));
        assert(ss.flatten() == span + spans_of(rest).flatten());
        assert(span + s.subrange(j, s.len() as int) =~= s.subrange(i, s.len() as int));
        assert(span_matches(ExprModel::Literal(span), span));
        assert(expr_wf(ExprModel::Literal(span)));
        assert(forall|k: int| 0 <= k < ps.len() ==> span_matches(ps[k].0, ps[k].1)) by {
            assert(forall|k: int| 1 <= k < ps.len() ==> ps[k] == rest[k - 1]);
        }
        assert(forall|k: int| 0 <= k < ps.len() ==> expr_wf(ps[k].0)) by {
            assert(forall|k: int| 1 <= k < ps.len() ==> ps[k] == rest[k - 1]);
        }
    }
}

/// Round-trip partition: for any successfully parsed template, the literal
/// text of each literal expression and the original braced span of each
/// placeholder, concatenated in order, reproduce the input exactly; and every
/// parsed expression is well formed.
pub proof fn lemma_round_trip(s: Seq<char>)
    requires
        parse_spanned(s, 0) is Some,
    ensures
        ({
            let ps = parse_spanned(s, 0)->Some_0;
            &&& parse_all(s) == Some(exprs_of(ps))
            &&& exprs_of(ps).len() == ps.len() && spans_of(ps).len() == ps.len()
            &&& spans_of(ps).flatten() == s
            &&& forall|k: int|
                0 <= k < ps.len() ==> span_matches(exprs_of(ps)[k], spans_of(ps)[k])
            &&& forall|k: int| 0 <= k < ps.len() ==> expr_wf(exprs_of(ps)[k])
        }),
{
    lemma_round_trip_from(s, 0);
    assert(s.subrange(0, s.len() as int) =~= s);
}

/// Whether the character can stand in an argument token.
fn arg_char(c: char) -> (b: bool)
    ensures
        b == is_arg_char(c),
{
    let u = c as u32;
    ('0' as u32 <= u && u <= '9' as u32) || ('A' as u32 <= u && u <= 'Z' as u32) || ('a' as u32
        <= u && u <= 'z' as u32)
}

/// First index at or after `from` holding `{`, or `n` if there is none.
fn scan_literal_end(s: &str, from: usize, n: usize) -> (j: usize)
    requires
        n == s@.len(),
        from <= n,
    ensures
        j == scan_end(s@, from as int, brace_stop()),
        from <= j <= n,
{
    let mut j = from;
    while j < n
        invariant
            from <= j <= n,
            n == s@.len(),
            forall|k: int| from <= k < j ==> s@[k] != '{',
        decreases n - j,
    {
        if s.get_char(j) == '{' {
            proof {
                lemma_scan_end_unique(s@, from as int, j as int, brace_stop());
            }
            return j;
        }
        j = j + 1;
    }
    proof {
        lemma_scan_end_unique(s@, from as int, n as int, brace_stop());
    }
    j
}

/// First index at or after `from` holding `(` or `}`, or `n` if there is
/// none.
fn scan_name_end(s: &str, from: usize, n: usize) -> (j: usize)
    requires
        n == s@.len(),
        from <= n,
    ensures
        j == scan_end(s@, from as int, name_stop()),
        from <= j <= n,
{
    let mut j = from;
    while j < n
        invariant
            from <= j <= n,
            n == s@.len(),
            forall|k: int| from <= k < j ==> s@[k] != '(' && s@[k] != '}',
        decreases n - j,
    {
        let c = s.get_char(j);
        if c == '(' || c == '}' {
            proof {
                lemma_scan_end_unique(s@, from as int, j as int, name_stop());
            }
            return j;
        }
        j = j + 1;
    }
    proof {
        lemma_scan_end_unique(s@, from as int, n as int, name_stop());
    }
    j
}

/// First index at or after `from` whose character is not ASCII alphanumeric,
/// or `n` if there is none.
fn scan_token_end(s: &str, from: usize, n: usize) -> (j: usize)
    requires
        n == s@.len(),
        from <= n,
    ensures
        j == scan_end(s@, from as int, arg_stop()),
        from <= j <= n,
{
    let mut j = from;
    while j < n
        invariant
            from <= j <= n,
            n == s@.len(),
            forall|k: int| from <= k < j ==> is_arg_char(s@[k]),
        decreases n - j,
    {
        if !arg_char(s.get_char(j)) {
            proof {
                lemma_scan_end_unique(s@, from as int, j as int, arg_stop());
            }
            return j;
        }
        j = j + 1;
    }
    proof {
        lemma_scan_end_unique(s@, from as int, n as int, arg_stop());
    }
    j
}

/// First index at or after `from` holding anything but a space, or `n` if
/// there is none.
fn scan_space_end(s: &str, from: usize, n: usize) -> (j: usize)
    requires
        n == s@.len(),
        from <= n,
    ensures
        j == scan_end(s@, from as int, space_stop()),
        from <= j <= n,
{
    let mut j = from;
    while j < n
        invariant
            from <= j <= n,
            n == s@.len(),
            forall|k: int| from <= k < j ==> s@[k] == ' ',
        decreases n - j,
    {
        if s.get_char(j) != ' ' {
            proof {
                lemma_scan_end_unique(s@, from as int, j as int, space_stop());
            }
            return j;
        }
        j = j + 1;
    }
    proof {
        lemma_scan_end_unique(s@, from as int, n as int, space_stop());
    }
    j
}

/// Copies the characters `s[from..to]` into an owned string.
fn substring_owned(s: &str, from: usize, to: usize) -> (r: String)
    requires
        from <= to <= s@.len(),
    ensures
        r@ == s@.subrange(from as int, to as int),
{
    s.substring_char(from, to).to_owned()
}

/// Parses an argument list whose `(` stands just before `start`; returns the
/// tokens and the index just past the `)`.
fn parse_args_at(s: &str, start: usize, n: usize) -> (r: Result<(Vec<String>, usize), EdoError>)
    requires
        n == s@.len(),
        start <= n,
    ensures
        match r {
            Ok(p) => {
                &&& parse_args(s@, start as int) == Some(
                    (p.0@.map_values(|a: String| a@), p.1 as int),
                )
                &&& start < p.1 <= n
            },
            Err(e) => parse_args(s@, start as int) is None && e == EdoError::ParsingError,
        },
{
    if start >= n {
        return Err(EdoError::ParsingError);
    }
    if s.get_char(start) == ')' {
        let args: Vec<String> = Vec::new();
        assert(args@.map_values(|a: String| a@) =~= Seq::<Seq<char>>::empty());
        return Ok((args, start + 1));
    }
    let k = scan_token_end(s, start, n);
    if k == start {
        return Err(EdoError::ParsingError);
    }
    let mut args: Vec<String> = Vec::new();
    args.push(substring_owned(s, start, k));
    assert(args@.map_values(|a: String| a@) =~= seq![
        s@.subrange(start as int, k as int),
    ]);
    let mut pos = k;
    loop
        invariant
            n == s@.len(),
            start < pos <= n,
            parse_args(s@, start as int) == (match parse_args_rest(s@, pos as int) {
                None => None::<(Seq<Seq<char>>, int)>,
                Some(p) => Some((args@.map_values(|a: String| a@) + p.0, p.1)),
            }),
        decreases n - pos,
    {
        if pos >= n {
            return Err(EdoError::ParsingError);
        }
        let c = s.get_char(pos);
        if c == ')' {
            assert(args@.map_values(|a: String| a@) + Seq::<Seq<char>>::empty() =~= args@
                .map_values(|a: String| a@));
            return Ok((args, pos + 1));
        }
        if c != ',' {
            return Err(EdoError::ParsingError);
        }
        let m = scan_space_end(s, pos + 1, n);
        let k2 = scan_token_end(s, m, n);
        if k2 == m {
            return Err(EdoError::ParsingError);
        }
        let ghost old_args = args@;
        args.push(substring_owned(s, m, k2));
        proof {
            let av = |a: String| a@;
            assert(args@.map_values(av) =~= old_args.map_values(av) + seq![
                s@.subrange(m as int, k2 as int),
            ]);
            if parse_args_rest(s@, k2 as int) is Some {
                let p = parse_args_rest(s@, k2 as int)->Some_0;
                assert(old_args.map_values(av) + (seq![s@.subrange(m as int, k2 as int)] + p.0)
                    =~= args@.map_values(av) + p.0);
            }
        }
        pos = k2;
    }
}

/// Parses one placeholder whose `{` stands at `i`; returns the expression and
/// the index just past its `}`.
fn parse_call_at(s: &str, i: usize, n: usize) -> (r: Result<(Expression, usize), EdoError>)
    requires
        n == s@.len(),
        i < n,
        s@[i as int] == '{',
    ensures
        match r {
            Ok(p) => {
                &&& parse_call(s@, i as int) == Some((p.0@, p.1 as int))
                &&& i < p.1 <= n
            },
            Err(e) => parse_call(s@, i as int) is None && e == EdoError::ParsingError,
        },
{
    let ne = scan_name_end(s, i + 1, n);
    if ne >= n {
        return Err(EdoError::ParsingError);
    }
    let name = substring_owned(s, i + 1, ne);
    if s.get_char(ne) == '}' {
        let arguments: Vec<String> = Vec::new();
        assert(arguments@.map_values(|a: String| a@) =~= Seq::<Seq<char>>::empty());
        return Ok((Expression::Function { name, arguments }, ne + 1));
    }
    match parse_args_at(s, ne + 1, n) {
        Err(e) => Err(e),
        Ok((arguments, j)) => {
            if j < n {
                if s.get_char(j) == '}' {
                    return Ok((Expression::Function { name, arguments }, j + 1));
                }
            }
            Err(EdoError::ParsingError)
        },
    }
}

/// Parses a template into a vector of expressions. Succeeds exactly where the
/// grammar consumes the whole input, and then returns exactly the expression
/// sequence the grammar describes.
pub fn parse(input: &str) -> (r: Result<Vec<Expression>, EdoError>)
    ensures
        match r {
            Ok(es) => parse_all(input@) == Some(es@.map_values(|e: Expression| e@)),
            Err(e) => parse_all(input@) is None && e == EdoError::ParsingError,
        },
{
    let n = input.unicode_len();
    let mut acc: Vec<Expression> = Vec::new();
    let mut i: usize = 0;
    while i < n
        invariant
            i <= n,
            n == input@.len(),
            parse_spanned(input@, 0) is Some <==> parse_spanned(input@, i as int) is Some,
            parse_spanned(input@, i as int) matches Some(rest) ==> exprs_of(
                parse_spanned(input@, 0)->Some_0,
            ) == acc@.map_values(|e: Expression| e@) + exprs_of(rest),
        decreases n - i,
    {
        let ghost prev = parse_spanned(input@, i as int);
        if input.get_char(i) == '{' {
            match parse_call_at(input, i, n) {
                Err(e) => {
                    return Err(e);
                },
                Ok((e, j)) => {
                    let ghost ev = e@;
                    let ghost span = input@.subrange(i as int, j as int);
                    acc.push(e);
                    proof {
                        if parse_spanned(input@, j as int) is Some {
                            let rest = parse_spanned(input@, j as int)->Some_0;
                            assert(prev == Some(seq![(ev, span)] + rest));
                            let av = |e: Expression| e@;
                            assert(exprs_of(seq![(ev, span)] + rest) =~= seq![ev] + exprs_of(
                                rest,
                            ));
                            assert(acc@.map_values(av) =~= acc@.drop_last().map_values(av).push(
                                ev,
                            ));
                            assert(acc@.drop_last().map_values(av) + (seq![ev] + exprs_of(rest))
                                =~= acc@.map_values(av) + exprs_of(rest));
                        }
                    }
                    i = j;
                },
            }
        } else {
            let j = scan_literal_end(input, i, n);
            let text = substring_owned(input, i, j);
            let e = Expression::Literal(text);
            let ghost ev = e@;
            acc.push(e);
            proof {
                assert(j > i) by {
                    lemma_scan_end(input@, i as int, brace_stop());
                }
                if parse_spanned(input@, j as int) is Some {
                    let rest = parse_spanned(input@, j as int)->Some_0;
                    let span = input@.subrange(i as int, j as int);
                    assert(prev == Some(seq![(ExprModel::Literal(span), span)] + rest));
                    let av = |e: Expression| e@;
                    assert(ev == ExprModel::Literal(span));
                    assert(exprs_of(seq![(ExprModel::Literal(span), span)] + rest) =~= seq![ev]
                        + exprs_of(rest));
                    assert(acc@.map_values(av) =~= acc@.drop_last().map_values(av).push(ev));
                    assert(acc@.drop_last().map_values(av) + (seq![ev] + exprs_of(rest)) =~= acc@
                        .map_values(av) + exprs_of(rest));
                }
            }
            i = j;
        }
    }
    proof {
        let av = |e: Expression| e@;
        assert(parse_spanned(input@, n as int) == Some(Seq::<(ExprModel, Seq<char>)>::empty()));
        assert(exprs_of(Seq::<(ExprModel, Seq<char>)>::empty()) =~= Seq::<ExprModel>::empty());
        assert(acc@.map_values(av) + Seq::<ExprModel>::empty() =~= acc@.map_values(av));
    }
    Ok(acc)
}

} // verus!
