//! How a scan goes through a template: over text, over a placeholder, over
//! two stretches put together, and into the errors of nesting and
//! truncation.

use crate::helpers::{escaped, escaped_char, lemma_escaped_concat, lemma_escaped_one};
use crate::parse::{
    continued, doubled_at, lemma_continued_twice, lemma_next_doubled_bounds, next_doubled,
    opens_at, parsed, placeholder, plain_variables, reference, scan, ParseErrorView, Scanned,
};
use crate::template::{plain_variable, TemplateView};
use vstd::prelude::*;

verus! {

/// Whether `src` holds no `{{`.
pub open spec fn never_opens(src: Seq<char>) -> bool {
    forall|i: int| !opens_at(src, i)
}

/// From a place on from which no placeholder opens, a template comes to
/// its own text, escaped, and to no placeholder.
pub proof fn lemma_scan_text(src: Seq<char>, i: int)
    requires
        0 <= i <= src.len(),
        forall|k: int| i <= k ==> !opens_at(src, k),
    ensures
        scan(src, i) == Ok::<Scanned, ParseErrorView>(
            Scanned { skeleton: escaped(src.skip(i)), placeholders: Seq::empty() },
        ),
    decreases src.len() - i,
{
    if i < src.len() {
        lemma_scan_text(src, i + 1);
        lemma_escaped_one(src[i]);
        lemma_escaped_concat(seq![src[i]], src.skip(i + 1));
        assert(seq![src[i]] + src.skip(i + 1) =~= src.skip(i));
    }
}

/// A template without `{{` is all text: its skeleton is the template
/// escaped, and its only variable is `name`, which it does not name itself.
pub proof fn lemma_parse_text(src: Seq<char>)
    requires
        never_opens(src),
    ensures
        parsed(src) == Ok::<TemplateView, ParseErrorView>(
            TemplateView {
                original: src,
                skeleton: escaped(src),
                variables: seq![plain_variable("name"@)],
                name_is_explicit: false,
                filtered: Seq::empty(),
            },
        ),
{
    lemma_scan_text(src, 0);
    assert(src.skip(0) =~= src);
    assert(plain_variables(seq!["name"@]) =~= seq![plain_variable("name"@)]);
}

/// The search for a doubled brace passes over a stretch that holds none.
pub proof fn lemma_next_doubled_skip(src: Seq<char>, from: int, to: int)
    requires
        from <= to <= src.len(),
        forall|k: int| from <= k < to ==> !doubled_at(src, k),
    ensures
        next_doubled(src, from) == next_doubled(src, to),
    decreases to - from,
{
    if from < to {
        lemma_next_doubled_skip(src, from + 1, to);
    }
}

/// What stands behind a doubled brace does not matter to the search that
/// finds it.
pub proof fn lemma_next_doubled_prefix(a: Seq<char>, b: Seq<char>, k: int)
    requires
        1 <= k,
        next_doubled(a, k) < a.len(),
    ensures
        next_doubled(a + b, k) == next_doubled(a, k),
    decreases a.len() - k,
{
    if k < a.len() && !doubled_at(a, k) {
        lemma_next_doubled_prefix(a, b, k + 1);
    }
}

/// What stands before the place from which the search starts does not
/// matter to it, but for the one character just before.
pub proof fn lemma_next_doubled_shift(a: Seq<char>, b: Seq<char>, k: int)
    requires
        1 <= k,
    ensures
        next_doubled(a + b, a.len() + k) == a.len() + next_doubled(b, k),
    decreases b.len() - k,
{
    if k < b.len() && !doubled_at(b, k) {
        lemma_next_doubled_shift(a, b, k + 1);
    }
}

/// A scan does not look back: behind any text `a`, the text `b` comes to
/// what it comes to alone.
pub proof fn lemma_scan_shift(a: Seq<char>, b: Seq<char>, j: int)
    requires
        0 <= j,
    ensures
        scan(a + b, a.len() + j) == scan(b, j),
    decreases b.len() - j,
{
    let src = a + b;
    let i = a.len() + j;
    if j < b.len() {
        if opens_at(b, j) {
            lemma_next_doubled_shift(a, b, j + 3);
            let end = next_doubled(b, j + 3);
            if j + 3 <= b.len() {
                lemma_next_doubled_bounds(b, j + 3);
            }
            if end < b.len() {
                assert(src.subrange(i + 2, a.len() + end - 1) =~= b.subrange(j + 2, end - 1));
                lemma_scan_shift(a, b, end + 1);
            }
        } else {
            lemma_scan_shift(a, b, j + 1);
        }
    }
}

/// Whether `a` and `b` can be put together without a `{{` forming where
/// they meet.
pub open spec fn joins_cleanly(a: Seq<char>, b: Seq<char>) -> bool {
    a.len() > 0 && b.len() > 0 ==> !(a.last() == '{' && b.first() == '{')
}

/// From a place in `a` from which `a` scans without error, `a + b` comes to
/// what `a` comes to, continued by what `b` comes to.
pub proof fn lemma_scan_concat_from(a: Seq<char>, b: Seq<char>, i: int)
    requires
        0 <= i <= a.len(),
        scan(a, i) is Ok,
        joins_cleanly(a, b),
    ensures
        scan(a + b, i) == continued(scan(a, i)->Ok_0, scan(b, 0)),
    decreases a.len() - i,
{
    let src = a + b;
    if i == a.len() {
        lemma_scan_shift(a, b, 0);
    } else if opens_at(a, i) {
        let end = next_doubled(a, i + 3);
        lemma_next_doubled_bounds(a, i + 3);
        lemma_next_doubled_prefix(a, b, i + 3);
        assert(src.subrange(i + 2, end - 1) =~= a.subrange(i + 2, end - 1));
        let p = placeholder(a.subrange(i + 2, end - 1))->Ok_0;
        lemma_scan_concat_from(a, b, end + 1);
        lemma_continued_twice(
            Scanned { skeleton: reference(p), placeholders: seq![p] },
            scan(a, end + 1)->Ok_0,
            scan(b, 0),
        );
    } else {
        lemma_scan_concat_from(a, b, i + 1);
        lemma_continued_twice(
            Scanned { skeleton: escaped_char(a[i]), placeholders: Seq::empty() },
            scan(a, i + 1)->Ok_0,
            scan(b, 0),
        );
    }
}

/// Parsing goes through a template piece by piece: where `a` scans without
/// error and no `{{` forms where `a` and `b` meet, `a + b` comes to what
/// `a` comes to, continued by what `b` comes to.
pub proof fn lemma_scan_concat(a: Seq<char>, b: Seq<char>)
    requires
        scan(a, 0) is Ok,
        joins_cleanly(a, b),
    ensures
        scan(a + b, 0) == continued(scan(a, 0)->Ok_0, scan(b, 0)),
{
    lemma_scan_concat_from(a, b, 0);
}

/// `body` between `{{` and `}}`.
pub open spec fn braced(body: Seq<char>) -> Seq<char> {
    "{{"@ + body + "}}"@
}

/// Whether `s` can be the body of a placeholder: no brace is doubled in it,
/// and it does not end with the brace that closes one.
pub open spec fn is_body(s: Seq<char>) -> bool {
    &&& forall|k: int| 1 <= k < s.len() ==> !doubled_at(s, k)
    &&& s.len() > 0 ==> s.last() != '}'
}

/// A placeholder alone: `body` between braces comes to what `body` stands
/// for.
pub proof fn lemma_scan_braced(body: Seq<char>)
    requires
        is_body(body),
    ensures
        scan(braced(body), 0) == match placeholder(body) {
            Ok(p) => Ok::<Scanned, ParseErrorView>(
                Scanned { skeleton: reference(p), placeholders: seq![p] },
            ),
            Err(e) => Err(e),
        },
{
    reveal_strlit("{{");
    reveal_strlit("}}");
    let src = braced(body);
    let n = src.len() as int;
    assert forall|k: int| 3 <= k < n - 1 implies !doubled_at(src, k) by {
        if k < n - 2 {
            assert(!doubled_at(body, k - 2));
        }
    }
    if n - 1 >= 3 {
        lemma_next_doubled_skip(src, 3, n - 1);
    }
    assert(src.subrange(2, n - 2) =~= body);
    assert(scan(src, n) == Ok::<Scanned, ParseErrorView>(
        Scanned { skeleton: Seq::empty(), placeholders: Seq::empty() },
    ));
}

/// Whether no brace is doubled in `s`.
pub open spec fn no_doubled(s: Seq<char>) -> bool {
    forall|k: int| 1 <= k < s.len() ==> !doubled_at(s, k)
}

/// A placeholder that opens and does not close is unfinished.
pub proof fn lemma_scan_unfinished(body: Seq<char>)
    requires
        no_doubled(body),
    ensures
        scan("{{"@ + body, 0) == Err::<Scanned, ParseErrorView>(ParseErrorView::UnfinishedVariable),
{
    reveal_strlit("{{");
    let src = "{{"@ + body;
    let n = src.len() as int;
    if n >= 3 {
        assert forall|k: int| 3 <= k < n implies !doubled_at(src, k) by {
            assert(!doubled_at(body, k - 2));
        }
        lemma_next_doubled_skip(src, 3, n);
    }
}

/// A placeholder that opens inside another is nested.
pub proof fn lemma_scan_nested(body: Seq<char>, rest: Seq<char>)
    requires
        no_doubled(body),
    ensures
        scan("{{"@ + body + "{{"@ + rest, 0) == Err::<Scanned, ParseErrorView>(
            ParseErrorView::NestedVariable,
        ),
{
    reveal_strlit("{{");
    let src = "{{"@ + body + "{{"@ + rest;
    let m = body.len() as int;
    assert forall|k: int| 3 <= k < 2 + m implies !doubled_at(src, k) by {
        assert(!doubled_at(body, k - 2));
    }
    if m > 0 && body.last() == '{' {
        lemma_next_doubled_skip(src, 3, 2 + m);
    } else {
        lemma_next_doubled_skip(src, 3, 3 + m);
    }
}

/// Truncation always fails: behind any text that parses, a placeholder
/// that opens and does not close makes the template unfinished.
pub proof fn lemma_parse_unfinished(a: Seq<char>, body: Seq<char>)
    requires
        scan(a, 0) is Ok,
        a.len() > 0 ==> a.last() != '{',
        no_doubled(body),
    ensures
        parsed(a + ("{{"@ + body)) == Err::<TemplateView, ParseErrorView>(
            ParseErrorView::UnfinishedVariable,
        ),
{
    lemma_scan_unfinished(body);
    lemma_scan_concat(a, "{{"@ + body);
}

/// Nesting always fails: behind any text that parses, a placeholder that
/// opens inside another makes the template nested, whatever follows.
pub proof fn lemma_parse_nested(a: Seq<char>, body: Seq<char>, rest: Seq<char>)
    requires
        scan(a, 0) is Ok,
        a.len() > 0 ==> a.last() != '{',
        no_doubled(body),
    ensures
        parsed(a + ("{{"@ + body + "{{"@ + rest)) == Err::<TemplateView, ParseErrorView>(
            ParseErrorView::NestedVariable,
        ),
{
    lemma_scan_nested(body, rest);
    lemma_scan_concat(a, "{{"@ + body + "{{"@ + rest);
}

} // verus!
