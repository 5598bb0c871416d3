//! Reading a template: identifiers, filter chains, and the scan that turns
//! the source text into a `Template`.

use crate::facts::variables::lemma_parsed_well_formed;
use crate::helpers::{escaped_char, push_escaped};
use crate::template::{
    filtered_views, plain_variable, texts_of, variable_views, FilteredVariable, FilteredView,
    Template, TemplateView, Variable, VariableView,
};
use crate::text::{chars_of, same_text, trim_range, trimmed};
use vstd::prelude::*;

verus! {

/// Why a token is no identifier.
#[derive(Debug, Clone, Copy, PartialEq, Eq, Structural)]
pub enum IdentifierFault {
    /// The token is empty, or is the single character `_`.
    Blank,
    /// The token does not start with an ASCII letter or `_`.
    BadStart,
    /// The token holds a character that is neither ASCII alphanumeric nor `_`.
    BadCharacter,
}

/// Why a template could not be parsed.
#[derive(Debug, PartialEq)]
pub enum ParseError {
    /// A placeholder opens inside another placeholder.
    NestedVariable,
    /// The source ends inside a placeholder.
    UnfinishedVariable,
    /// A variable or a filter is named by `token`, which is no identifier.
    InvalidIdentifier { token: String, fault: IdentifierFault },
    /// A filter chain without any segment.
    EmptyFilterChain,
}

/// A parse error as contracts see it.
pub enum ParseErrorView {
    NestedVariable,
    UnfinishedVariable,
    InvalidIdentifier { token: Seq<char>, fault: IdentifierFault },
    EmptyFilterChain,
}

impl View for ParseError {
    type V = ParseErrorView;

    open spec fn view(&self) -> ParseErrorView {
        match self {
            ParseError::NestedVariable => ParseErrorView::NestedVariable,
            ParseError::UnfinishedVariable => ParseErrorView::UnfinishedVariable,
            ParseError::InvalidIdentifier { token, fault } => ParseErrorView::InvalidIdentifier {
                token: token@,
                fault: *fault,
            },
            ParseError::EmptyFilterChain => ParseErrorView::EmptyFilterChain,
        }
    }
}

/// The sentence that reports `e`.
pub open spec fn message_text(e: ParseErrorView) -> Seq<char> {
    match e {
        ParseErrorView::NestedVariable => "nested variables are not allowed"@,
        ParseErrorView::UnfinishedVariable => "variable was unfinished"@,
        ParseErrorView::InvalidIdentifier { token, fault } => "identifier "@ + token + match fault {
            IdentifierFault::Blank => " can't be empty or a single underscore"@,
            IdentifierFault::BadStart => " has to start with a letter or an underscore"@,
            IdentifierFault::BadCharacter => " contains invalid characters"@,
        },
        ParseErrorView::EmptyFilterChain => "variable should have at least one ident"@,
    }
}

impl ParseError {
    /// The sentence that reports this error. For a token that is no
    /// identifier it names the token and the rule that the token breaks.
    pub fn message(&self) -> (m: String)
        ensures
            m@ == message_text(self@),
    {
        match self {
            ParseError::NestedVariable => String::from_str("nested variables are not allowed"),
            ParseError::UnfinishedVariable => String::from_str("variable was unfinished"),
            ParseError::InvalidIdentifier { token, fault } => {
                let mut m = String::from_str("identifier ");
                m.append(token.as_str());
                match fault {
                    IdentifierFault::Blank => m.append(" can't be empty or a single underscore"),
                    IdentifierFault::BadStart => m.append(
                        " has to start with a letter or an underscore",
                    ),
                    IdentifierFault::BadCharacter => m.append(" contains invalid characters"),
                }
                m
            },
            ParseError::EmptyFilterChain => String::from_str(
                "variable should have at least one ident",
            ),
        }
    }
}

/// An ASCII letter.
pub open spec fn is_letter(c: char) -> bool {
    ('a' <= c && c <= 'z') || ('A' <= c && c <= 'Z')
}

/// A character that may start an identifier: an ASCII letter or `_`.
pub open spec fn is_ident_start(c: char) -> bool {
    is_letter(c) || c == '_'
}

/// A character that may stand in an identifier: ASCII alphanumeric or `_`.
pub open spec fn is_ident_char(c: char) -> bool {
    is_letter(c) || ('0' <= c && c <= '9') || c == '_'
}

/// The first rule that `s` breaks as an identifier, or `None` where `s` is
/// one: an identifier is not empty and not the single character `_`, starts
/// with an ASCII letter or `_`, and goes on with ASCII alphanumerics and `_`.
pub open spec fn ident_fault(s: Seq<char>) -> Option<IdentifierFault> {
    if s.len() == 0 || (s.len() == 1 && s[0] == '_') {
        Some(IdentifierFault::Blank)
    } else if !is_ident_start(s[0]) {
        Some(IdentifierFault::BadStart)
    } else if !(forall|i: int| 1 <= i < s.len() ==> is_ident_char(#[trigger] s[i])) {
        Some(IdentifierFault::BadCharacter)
    } else {
        None
    }
}

/// Whether `s` is an identifier.
pub open spec fn is_ident(s: Seq<char>) -> bool {
    ident_fault(s) is None
}

/// Whether `c` may start an identifier.
fn ident_start(c: char) -> (b: bool)
    ensures
        b == is_ident_start(c),
{
    ('a' <= c && c <= 'z') || ('A' <= c && c <= 'Z') || c == '_'
}

/// Whether `c` may stand in an identifier.
fn ident_char(c: char) -> (b: bool)
    ensures
        b == is_ident_char(c),
{
    ('a' <= c && c <= 'z') || ('A' <= c && c <= 'Z') || ('0' <= c && c <= '9') || c == '_'
}

/// The first rule that the run `chars[from..to]` breaks as an identifier.
pub fn fault_in(chars: &Vec<char>, from: usize, to: usize) -> (r: Option<IdentifierFault>)
    requires
        from <= to <= chars@.len(),
    ensures
        r == ident_fault(chars@.subrange(from as int, to as int)),
{
    let ghost s = chars@.subrange(from as int, to as int);
    if from == to || (to - from == 1 && chars[from] == '_') {
        return Some(IdentifierFault::Blank);
    }
    if !ident_start(chars[from]) {
        return Some(IdentifierFault::BadStart);
    }
    let mut i = from + 1;
    while i < to
        invariant
            from < i <= to <= chars@.len(),
            s == chars@.subrange(from as int, to as int),
            !(s.len() == 1 && s[0] == '_'),
            is_ident_start(s[0]),
            forall|k: int| 1 <= k < i - from ==> is_ident_char(#[trigger] s[k]),
        decreases to - i,
    {
        if !ident_char(chars[i]) {
            assert(!is_ident_char(s[i - from]));
            return Some(IdentifierFault::BadCharacter);
        }
        i += 1;
    }
    None
}

/// Checks that `s` is an identifier, and says which rule it breaks where it
/// is none.
pub fn validate_ident(s: &str) -> (r: Result<(), ParseError>)
    ensures
        match r {
            Ok(_) => is_ident(s@),
            Err(e) => ident_fault(s@) matches Some(fault) && e@ == (ParseErrorView::InvalidIdentifier {
                token: s@,
                fault,
            }),
        },
{
    let chars = chars_of(s);
    assert(chars@.subrange(0, chars@.len() as int) =~= chars@);
    match fault_in(&chars, 0, chars.len()) {
        Some(fault) => Err(ParseError::InvalidIdentifier { token: String::from_str(s), fault }),
        None => Ok(()),
    }
}

/// The runs of `s` between the characters `sep`: one more than `s` holds of
/// them, each as long as it happens to be.
pub open spec fn split(s: Seq<char>, sep: char) -> Seq<Seq<char>>
    decreases s.len(),
{
    if s.len() == 0 {
        seq![Seq::empty()]
    } else {
        let before = split(s.drop_last(), sep);
        if s.last() == sep {
            before.push(Seq::empty())
        } else {
            before.drop_last().push(before.last().push(s.last()))
        }
    }
}

/// The segments of a filter chain: what stands between the `|` of `body`,
/// each trimmed.
pub open spec fn chain_segments(body: Seq<char>) -> Seq<Seq<char>> {
    let runs = split(body, '|');
    Seq::new(runs.len(), |i: int| trimmed(runs[i]))
}

/// The first of `segments` that is no identifier, with the rule it breaks.
pub open spec fn first_fault(segments: Seq<Seq<char>>) -> Option<(Seq<char>, IdentifierFault)>
    decreases segments.len(),
{
    if segments.len() == 0 {
        None
    } else {
        match first_fault(segments.drop_last()) {
            Some(found) => Some(found),
            None => match ident_fault(segments.last()) {
                Some(fault) => Some((segments.last(), fault)),
                None => None,
            },
        }
    }
}

/// `segments` with `sep` between each two of them.
pub open spec fn joined(segments: Seq<Seq<char>>, sep: char) -> Seq<char>
    decreases segments.len(),
{
    if segments.len() == 0 {
        Seq::empty()
    } else if segments.len() == 1 {
        segments[0]
    } else {
        joined(segments.drop_last(), sep).push(sep) + segments.last()
    }
}

/// The filtered variable that the body of a placeholder stands for: the
/// first segment is the variable, the others are the filters, and the name
/// is all of them joined by `_`. Every segment has to be an identifier; the
/// first that is none is reported.
pub open spec fn chain_of(body: Seq<char>) -> Result<FilteredView, ParseErrorView> {
    let segments = chain_segments(body);
    if segments.len() == 0 {
        Err(ParseErrorView::EmptyFilterChain)
    } else {
        match first_fault(segments) {
            Some((token, fault)) => Err(ParseErrorView::InvalidIdentifier { token, fault }),
            None => Ok(
                FilteredView {
                    source: segments[0],
                    filters: segments.skip(1),
                    name: joined(segments, '_'),
                },
            ),
        }
    }
}

/// The runs that `bounds` cut out of `chars`.
pub open spec fn runs_of(chars: Seq<char>, bounds: Seq<(usize, usize)>) -> Seq<Seq<char>> {
    Seq::new(bounds.len(), |i: int| chars.subrange(bounds[i].0 as int, bounds[i].1 as int))
}

/// Whether each of `bounds` lies in a text of `len` characters.
pub open spec fn within(bounds: Seq<(usize, usize)>, len: int) -> bool {
    forall|i: int| 0 <= i < bounds.len() ==> (#[trigger] bounds[i]).0 <= bounds[i].1 <= len
}

/// The bounds of the segments of the chain `chars[from..to]`.
fn segment_bounds(chars: &Vec<char>, from: usize, to: usize) -> (bounds: Vec<(usize, usize)>)
    requires
        from <= to <= chars@.len(),
    ensures
        within(bounds@, chars@.len() as int),
        runs_of(chars@, bounds@) == chain_segments(chars@.subrange(from as int, to as int)),
{
    let mut bounds: Vec<(usize, usize)> = Vec::new();
    let mut start = from;
    let mut i = from;
    let ghost mut whole: Seq<Seq<char>> = Seq::empty();
    assert(chars@.subrange(from as int, from as int) =~= Seq::<char>::empty());
    while i < to
        invariant
            from <= start <= i <= to <= chars@.len(),
            split(chars@.subrange(from as int, i as int), '|') == whole.push(
                chars@.subrange(start as int, i as int),
            ),
            bounds@.len() == whole.len(),
            within(bounds@, chars@.len() as int),
            forall|k: int|
                0 <= k < whole.len() ==> chars@.subrange(
                    (#[trigger] bounds@[k]).0 as int,
                    bounds@[k].1 as int,
                ) == trimmed(whole[k]),
        decreases to - i,
    {
        let ghost next = chars@.subrange(from as int, i + 1);
        assert(next.drop_last() =~= chars@.subrange(from as int, i as int));
        if chars[i] == '|' {
            let run = trim_range(chars, start, i);
            bounds.push(run);
            proof {
                whole = whole.push(chars@.subrange(start as int, i as int));
                assert(chars@.subrange(i + 1, i + 1) =~= Seq::<char>::empty());
            }
            start = i + 1;
        } else {
            assert(chars@.subrange(start as int, i as int).push(chars@[i as int])
                =~= chars@.subrange(start as int, i + 1));
        }
        i += 1;
    }
    let run = trim_range(chars, start, to);
    bounds.push(run);
    proof {
        whole = whole.push(chars@.subrange(start as int, to as int));
    }
    bounds
}

/// A fault among the first segments is the first fault of them all.
pub proof fn lemma_first_fault_prefix(segments: Seq<Seq<char>>, k: int)
    requires
        0 <= k <= segments.len(),
        first_fault(segments.take(k)) is Some,
    ensures
        first_fault(segments) == first_fault(segments.take(k)),
    decreases segments.len() - k,
{
    if k == segments.len() {
        assert(segments.take(k) =~= segments);
    } else {
        assert(segments.take(k + 1).drop_last() =~= segments.take(k));
        lemma_first_fault_prefix(segments, k + 1);
    }
}

/// Reads the body of a placeholder as a filter chain: a variable, then
/// filters, with `|` between them and white space around them as it
/// happens to be. The first segment that is no identifier is reported. A
/// chain without any segment would be reported as empty, but every text has
/// a segment, if an empty one.
pub fn parse_filtered_variable<'a>(v: &'a str) -> (r: Result<FilteredVariable<'a>, ParseError>)
    ensures
        match r {
            Ok(f) => chain_of(v@) == Ok::<FilteredView, ParseErrorView>(f@),
            Err(e) => chain_of(v@) == Err::<FilteredView, ParseErrorView>(e@) && e
                != ParseError::EmptyFilterChain,
        },
{
    let chars = chars_of(v);
    assert(chars@.subrange(0, chars@.len() as int) =~= chars@);
    let bounds = segment_bounds(&chars, 0, chars.len());
    let ghost segments = chain_segments(v@);
    let n = bounds.len();
    if n == 0 {
        return Err(ParseError::EmptyFilterChain);
    }
    let mut k: usize = 0;
    while k < n
        invariant
            k <= n,
            n == bounds@.len(),
            chars@ == v@,
            within(bounds@, chars@.len() as int),
            segments == runs_of(chars@, bounds@),
            segments == chain_segments(v@),
            first_fault(segments.take(k as int)) is None,
        decreases n - k,
    {
        let (a, b) = bounds[k];
        assert(segments.take(k + 1).drop_last() =~= segments.take(k as int));
        match fault_in(&chars, a, b) {
            Some(fault) => {
                proof {
                    lemma_first_fault_prefix(segments, k + 1);
                }
                let token = String::from_str(v.substring_char(a, b));
                return Err(ParseError::InvalidIdentifier { token, fault });
            },
            None => {},
        }
        k += 1;
    }
    assert(segments.take(n as int) =~= segments);
    let (a, b) = bounds[0];
    let variable = v.substring_char(a, b);
    let mut name = String::from_str(variable);
    let mut filters: Vec<&'a str> = Vec::new();
    let mut k: usize = 1;
    while k < n
        invariant
            1 <= k <= n,
            n == bounds@.len(),
            chars@ == v@,
            within(bounds@, chars@.len() as int),
            segments == runs_of(chars@, bounds@),
            name@ == joined(segments.take(k as int), '_'),
            texts_of(filters@) == segments.subrange(1, k as int),
        decreases n - k,
    {
        let (a, b) = bounds[k];
        let segment = v.substring_char(a, b);
        let ghost before = filters@;
        name.push('_');
        name.append(segment);
        filters.push(segment);
        proof {
            let taken = segments.take(k + 1);
            assert(taken.drop_last() =~= segments.take(k as int));
            assert(texts_of(before).len() == k - 1);
        }
        k += 1;
    }
    Ok(FilteredVariable { variable, filters, name })
}

/// What a placeholder stands for: a variable, or a filtered variable.
pub enum Placeholder {
    Variable(Seq<char>),
    Chain(FilteredView),
}

/// What the placeholder with the body `body` stands for. The body is
/// trimmed; with a `|` in it, it is a filter chain, without one a variable,
/// whose name has to be an identifier.
pub open spec fn placeholder(body: Seq<char>) -> Result<Placeholder, ParseErrorView> {
    let inner = trimmed(body);
    if inner.contains('|') {
        match chain_of(inner) {
            Ok(f) => Ok(Placeholder::Chain(f)),
            Err(e) => Err(e),
        }
    } else {
        match ident_fault(inner) {
            Some(fault) => Err(ParseErrorView::InvalidIdentifier { token: inner, fault }),
            None => Ok(Placeholder::Variable(inner)),
        }
    }
}

/// The name of the shell variable that holds the value of a placeholder.
pub open spec fn shell_name(p: Placeholder) -> Seq<char> {
    match p {
        Placeholder::Variable(name) => name,
        Placeholder::Chain(f) => f.name,
    }
}

/// The text that stands for a placeholder in the skeleton: a reference to
/// its shell variable.
pub open spec fn reference(p: Placeholder) -> Seq<char> {
    "${"@ + shell_name(p) + "}"@
}

/// Whether a placeholder opens at `i`: `{{` stands there.
pub open spec fn opens_at(src: Seq<char>, i: int) -> bool {
    0 <= i && i + 1 < src.len() && src[i] == '{' && src[i + 1] == '{'
}

/// Whether a brace is doubled at `k`: the character at `k` is a brace, and
/// the same one stands before it.
pub open spec fn doubled_at(src: Seq<char>, k: int) -> bool {
    1 <= k < src.len() && (src[k] == '{' || src[k] == '}') && src[k - 1] == src[k]
}

/// The first place from `k` on at which a brace is doubled; the length of
/// `src` where there is none.
pub open spec fn next_doubled(src: Seq<char>, k: int) -> int
    decreases src.len() - k,
{
    if k >= src.len() {
        src.len() as int
    } else if doubled_at(src, k) {
        k
    } else {
        next_doubled(src, k + 1)
    }
}

/// `next_doubled` looks forward.
pub proof fn lemma_next_doubled_bounds(src: Seq<char>, k: int)
    requires
        k <= src.len(),
    ensures
        k <= next_doubled(src, k) <= src.len(),
    decreases src.len() - k,
{
    if k < src.len() && !doubled_at(src, k) {
        lemma_next_doubled_bounds(src, k + 1);
    }
}

/// What a stretch of a template comes to: its part of the skeleton, and its
/// placeholders in the order in which they stand.
pub struct Scanned {
    pub skeleton: Seq<char>,
    pub placeholders: Seq<Placeholder>,
}

/// `done`, and then what `rest` holds, unless `rest` is an error.
pub open spec fn continued(done: Scanned, rest: Result<Scanned, ParseErrorView>) -> Result<
    Scanned,
    ParseErrorView,
> {
    match rest {
        Ok(more) => Ok(
            Scanned {
                skeleton: done.skeleton + more.skeleton,
                placeholders: done.placeholders + more.placeholders,
            },
        ),
        Err(e) => Err(e),
    }
}

/// What `src` comes to from `i` on, where `i` stands outside any
/// placeholder.
///
/// A character goes to the skeleton, escaped, unless it opens a
/// placeholder. A placeholder opens with `{{` and has its body behind that.
/// The body ends before the first brace in it that is doubled: with `}}`
/// the placeholder closes there, with `{{` it is nested, and with none it
/// is unfinished. A placeholder that closes goes to the skeleton as a
/// reference to its shell variable. The first error met ends the scan.
pub open spec fn scan(src: Seq<char>, i: int) -> Result<Scanned, ParseErrorView>
    decreases src.len() - i,
    via scan_decreases
{
    if i < 0 || i >= src.len() {
        Ok(Scanned { skeleton: Seq::empty(), placeholders: Seq::empty() })
    } else if opens_at(src, i) {
        let end = next_doubled(src, i + 3);
        if end >= src.len() {
            Err(ParseErrorView::UnfinishedVariable)
        } else if src[end] == '{' {
            Err(ParseErrorView::NestedVariable)
        } else {
            match placeholder(src.subrange(i + 2, end - 1)) {
                Ok(p) => continued(
                    Scanned { skeleton: reference(p), placeholders: seq![p] },
                    scan(src, end + 1),
                ),
                Err(e) => Err(e),
            }
        }
    } else {
        continued(
            Scanned { skeleton: escaped_char(src[i]), placeholders: Seq::empty() },
            scan(src, i + 1),
        )
    }
}

#[via_fn]
proof fn scan_decreases(src: Seq<char>, i: int) {
    if 0 <= i < src.len() && opens_at(src, i) && i + 3 <= src.len() {
        lemma_next_doubled_bounds(src, i + 3);
    }
}

/// `names`, with `name` added at the end unless it is among them.
pub open spec fn registered(names: Seq<Seq<char>>, name: Seq<char>) -> Seq<Seq<char>> {
    if names.contains(name) {
        names
    } else {
        names.push(name)
    }
}

/// The variable that a placeholder reads: a filter chain reads the variable
/// it starts from.
pub open spec fn source_of(p: Placeholder) -> Seq<char> {
    match p {
        Placeholder::Variable(name) => name,
        Placeholder::Chain(f) => f.source,
    }
}

/// The names of the variables of `placeholders`, each once, in the order in
/// which they first occur.
pub open spec fn names_of(placeholders: Seq<Placeholder>) -> Seq<Seq<char>>
    decreases placeholders.len(),
{
    if placeholders.len() == 0 {
        Seq::empty()
    } else {
        registered(names_of(placeholders.drop_last()), source_of(placeholders.last()))
    }
}

/// Whether `a` and `b` are the same chain: the same filters on the same
/// variable.
pub open spec fn same_chain(a: FilteredView, b: FilteredView) -> bool {
    a.source == b.source && a.filters == b.filters
}

/// Whether the chain `f` is among `chains`.
pub open spec fn holds_chain(chains: Seq<FilteredView>, f: FilteredView) -> bool {
    exists|k: int| 0 <= k < chains.len() && same_chain(#[trigger] chains[k], f)
}

/// The filter chains of `placeholders`, each once, in the order in which
/// they first occur.
pub open spec fn chains_of(placeholders: Seq<Placeholder>) -> Seq<FilteredView>
    decreases placeholders.len(),
{
    if placeholders.len() == 0 {
        Seq::empty()
    } else {
        let before = chains_of(placeholders.drop_last());
        match placeholders.last() {
            Placeholder::Chain(f) => if holds_chain(before, f) {
                before
            } else {
                before.push(f)
            },
            Placeholder::Variable(_) => before,
        }
    }
}

/// Variables of these names, each without default and without description.
pub open spec fn plain_variables(names: Seq<Seq<char>>) -> Seq<VariableView> {
    Seq::new(names.len(), |i: int| plain_variable(names[i]))
}

/// The template that `src` is when it comes to `scanned`. The variable
/// `name` is added behind the others unless the template names it itself.
pub open spec fn template_of(src: Seq<char>, scanned: Scanned) -> TemplateView {
    TemplateView {
        original: src,
        skeleton: scanned.skeleton,
        variables: plain_variables(registered(names_of(scanned.placeholders), "name"@)),
        name_is_explicit: names_of(scanned.placeholders).contains("name"@),
        filtered: chains_of(scanned.placeholders),
    }
}

/// What parsing `src` gives: its template, or the first error in it.
pub open spec fn parsed(src: Seq<char>) -> Result<TemplateView, ParseErrorView> {
    match scan(src, 0) {
        Ok(scanned) => Ok(template_of(src, scanned)),
        Err(e) => Err(e),
    }
}

/// Whether `f` is a filter chain as parsing makes them: a variable and at
/// least one filter, each named by an identifier, under the name that joins
/// them all by `_`.
pub open spec fn is_chain(f: FilteredView) -> bool {
    &&& is_ident(f.source)
    &&& f.filters.len() > 0
    &&& forall|k: int| 0 <= k < f.filters.len() ==> is_ident(#[trigger] f.filters[k])
    &&& f.name == joined(seq![f.source] + f.filters, '_')
}

/// Whether `t` is a template as parsing makes them: every variable is named
/// by an identifier, and no two by the same; `name` is among the variables;
/// every filter chain is well made, starts from one of the variables, and
/// occurs once.
pub open spec fn well_formed(t: TemplateView) -> bool {
    &&& forall|i: int| 0 <= i < t.variables.len() ==> is_ident((#[trigger] t.variables[i]).name)
    &&& forall|i: int, j: int|
        0 <= i < j < t.variables.len() ==> (#[trigger] t.variables[i]).name != (
        #[trigger] t.variables[j]).name
    &&& exists|i: int| 0 <= i < t.variables.len() && (#[trigger] t.variables[i]).name == "name"@
    &&& forall|i: int| 0 <= i < t.filtered.len() ==> is_chain(#[trigger] t.filtered[i])
    &&& forall|i: int|
        0 <= i < t.filtered.len() ==> exists|k: int|
            0 <= k < t.variables.len() && (#[trigger] t.variables[k]).name == (
            #[trigger] t.filtered[i]).source
    &&& forall|i: int, j: int|
        0 <= i < j < t.filtered.len() ==> !same_chain(
            #[trigger] t.filtered[i],
            #[trigger] t.filtered[j],
        )
}

/// The first place behind `from` at which a brace is doubled.
fn find_doubled(chars: &Vec<char>, from: usize) -> (end: usize)
    requires
        from <= chars@.len(),
    ensures
        end == next_doubled(chars@, from + 1),
        from <= end <= chars@.len(),
        end < chars@.len() ==> from < end,
{
    let n = chars.len();
    let mut k = from;
    while k < n && k + 1 < n
        invariant
            from <= k <= n,
            n == chars@.len(),
            next_doubled(chars@, from + 1) == next_doubled(chars@, k + 1),
        decreases n - k,
    {
        let c = chars[k + 1];
        if (c == '{' || c == '}') && chars[k] == c {
            return k + 1;
        }
        k += 1;
    }
    n
}

/// Whether `|` stands in `chars[from..to]`.
fn holds_bar(chars: &Vec<char>, from: usize, to: usize) -> (found: bool)
    requires
        from <= to <= chars@.len(),
    ensures
        found == chars@.subrange(from as int, to as int).contains('|'),
{
    let ghost run = chars@.subrange(from as int, to as int);
    let mut i = from;
    while i < to
        invariant
            from <= i <= to <= chars@.len(),
            run == chars@.subrange(from as int, to as int),
            forall|k: int| 0 <= k < i - from ==> run[k] != '|',
        decreases to - i,
    {
        if chars[i] == '|' {
            assert(run[i - from] == '|');
            return true;
        }
        i += 1;
    }
    false
}

/// The names of `variables`.
pub open spec fn names_in(variables: Seq<Variable>) -> Seq<Seq<char>> {
    Seq::new(variables.len(), |i: int| variables[i].variable@)
}

/// Whether a variable named `name` is among `variables`.
fn has_variable(variables: &Vec<Variable>, name: &str) -> (found: bool)
    ensures
        found == names_in(variables@).contains(name@),
{
    let ghost names = names_in(variables@);
    let n = variables.len();
    let mut i: usize = 0;
    while i < n
        invariant
            i <= n,
            n == variables@.len(),
            names == names_in(variables@),
            forall|k: int| 0 <= k < i ==> names[k] != name@,
        decreases n - i,
    {
        if same_text(variables[i].variable, name) {
            assert(names[i as int] == name@);
            return true;
        }
        i += 1;
    }
    false
}

/// Whether `a` and `b` hold the same texts.
fn same_texts(a: &Vec<&str>, b: &Vec<&str>) -> (same: bool)
    ensures
        same == (texts_of(a@) == texts_of(b@)),
{
    if a.len() != b.len() {
        assert(texts_of(a@).len() != texts_of(b@).len());
        return false;
    }
    let n = a.len();
    let mut i: usize = 0;
    while i < n
        invariant
            i <= n,
            n == a@.len(),
            n == b@.len(),
            forall|k: int| 0 <= k < i ==> texts_of(a@)[k] == texts_of(b@)[k],
        decreases n - i,
    {
        if !same_text(a[i], b[i]) {
            assert(texts_of(a@)[i as int] != texts_of(b@)[i as int]);
            return false;
        }
        i += 1;
    }
    assert(texts_of(a@) =~= texts_of(b@));
    true
}

/// Whether the chain `f` is among `chains`.
fn has_chain(chains: &Vec<FilteredVariable>, f: &FilteredVariable) -> (found: bool)
    ensures
        found == holds_chain(filtered_views(chains@), f@),
{
    let ghost views = filtered_views(chains@);
    let n = chains.len();
    let mut i: usize = 0;
    while i < n
        invariant
            i <= n,
            n == chains@.len(),
            views == filtered_views(chains@),
            forall|k: int| 0 <= k < i ==> !same_chain(#[trigger] views[k], f@),
        decreases n - i,
    {
        if same_text(chains[i].variable, f.variable) && same_texts(&chains[i].filters, &f.filters) {
            assert(same_chain(views[i as int], f@));
            return true;
        }
        i += 1;
    }
    false
}

/// Adds a variable named `name` to `variables` unless one is among them.
fn register<'a>(variables: &mut Vec<Variable<'a>>, name: &'a str)
    requires
        variable_views(old(variables)@) == plain_variables(names_in(old(variables)@)),
    ensures
        names_in(final(variables)@) == registered(names_in(old(variables)@), name@),
        variable_views(final(variables)@) == plain_variables(names_in(final(variables)@)),
{
    if !has_variable(variables, name) {
        let ghost before = variables@;
        variables.push(Variable::new(name));
        proof {
            assert forall|i: int| 0 <= i < variables@.len() implies variable_views(variables@)[i]
                == plain_variables(names_in(variables@))[i] by {
                if i < before.len() {
                    assert(variable_views(before)[i] == plain_variables(names_in(before))[i]);
                }
            }
        }
    }
}

/// Parses a template: the text of `template` with placeholders in it, each
/// `{{ variable }}` or `{{ variable | filter | .. }}`.
///
/// The result holds the template as it was written, the skeleton (the text
/// escaped, each placeholder replaced by `${..}` with the name of the
/// variable or of the filtered variable), the variables and the filter
/// chains, each once and in the order of their first use. The variable
/// `name` is always among the variables: where the template does not name
/// it, it comes last, and `is_name_used` is false.
///
/// A placeholder that opens inside another, one that does not close, and a
/// variable or filter whose name is no identifier are errors; the first one
/// met is returned.
pub fn parse_template<'a>(template: &'a str) -> (r: Result<Template<'a>, ParseError>)
    ensures
        match r {
            Ok(t) => parsed(template@) == Ok::<TemplateView, ParseErrorView>(t@) && well_formed(t@),
            Err(e) => parsed(template@) == Err::<TemplateView, ParseErrorView>(e@) && e
                != ParseError::EmptyFilterChain,
        },
{
    proof {
        lemma_parsed_well_formed(template@);
    }
    let chars = chars_of(template);
    let n = chars.len();
    let mut generated = String::new();
    let mut variables: Vec<Variable<'a>> = Vec::new();
    let mut filtered: Vec<FilteredVariable<'a>> = Vec::new();
    let ghost mut held: Seq<Placeholder> = Seq::empty();
    let mut i: usize = 0;
    while i < n
        invariant
            i <= n,
            n == chars@.len(),
            chars@ == template@,
            scan(chars@, 0) == continued(
                Scanned { skeleton: generated@, placeholders: held },
                scan(chars@, i as int),
            ),
            names_in(variables@) == names_of(held),
            variable_views(variables@) == plain_variables(names_in(variables@)),
            filtered_views(filtered@) == chains_of(held),
        decreases n - i,
    {
        let ghost done = Scanned { skeleton: generated@, placeholders: held };
        if chars[i] == '{' && i + 1 < n && chars[i + 1] == '{' {
            let end = find_doubled(&chars, i + 2);
            if end >= n {
                return Err(ParseError::UnfinishedVariable);
            }
            if chars[end] == '{' {
                return Err(ParseError::NestedVariable);
            }
            let (a, b) = trim_range(&chars, i + 2, end - 1);
            let body = template.substring_char(a, b);
            let ghost p: Placeholder;
            generated.append("${");
            if holds_bar(&chars, a, b) {
                let f = match parse_filtered_variable(body) {
                    Ok(f) => f,
                    Err(e) => {
                        return Err(e);
                    },
                };
                generated.append(f.name.as_str());
                register(&mut variables, f.variable);
                proof {
                    p = Placeholder::Chain(f@);
                }
                if !has_chain(&filtered, &f) {
                    filtered.push(f);
                }
            } else {
                match validate_ident(body) {
                    Ok(_) => {},
                    Err(e) => {
                        return Err(e);
                    },
                }
                generated.append(body);
                register(&mut variables, body);
                proof {
                    p = Placeholder::Variable(body@);
                }
            }
            generated.append("}");
            proof {
                held = held.push(p);
                assert(held.drop_last() =~= done.placeholders);
                lemma_continued_twice(
                    done,
                    Scanned { skeleton: reference(p), placeholders: seq![p] },
                    scan(chars@, end + 1),
                );
                assert(generated@ =~= done.skeleton + reference(p));
                assert(held =~= done.placeholders + seq![p]);
            }
            i = end + 1;
        } else {
            push_escaped(&mut generated, chars[i]);
            proof {
                lemma_continued_twice(
                    done,
                    Scanned {
                        skeleton: escaped_char(chars@[i as int]),
                        placeholders: Seq::empty(),
                    },
                    scan(chars@, i + 1),
                );
            }
            i += 1;
        }
    }
    let is_name_used = has_variable(&variables, "name");
    register(&mut variables, "name");
    Ok(Template { original: template, generated, variables, is_name_used, filtered })
}

/// Continuing twice is continuing once by both.
pub proof fn lemma_continued_twice(a: Scanned, b: Scanned, rest: Result<Scanned, ParseErrorView>)
    ensures
        continued(a, continued(b, rest)) == continued(
            Scanned {
                skeleton: a.skeleton + b.skeleton,
                placeholders: a.placeholders + b.placeholders,
            },
            rest,
        ),
{
    match rest {
        Ok(more) => {
            assert(a.skeleton + (b.skeleton + more.skeleton) =~= (a.skeleton + b.skeleton)
                + more.skeleton);
            assert(a.placeholders + (b.placeholders + more.placeholders) =~= (a.placeholders
                + b.placeholders) + more.placeholders);
        },
        Err(_) => {},
    }
}

} // verus!
