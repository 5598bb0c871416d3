//! Filter chains: how the text of a chain is read, and how the script
//! computes a chain of two filters.

use crate::facts::scanning::{braced, lemma_scan_braced};
use crate::facts::variables::{all_space, lemma_trimmed};
use crate::generate::{filter_assignment, filter_calls};
use crate::parse::{
    chain_of, chain_segments, chains_of, first_fault, is_ident, is_ident_char, joined,
    lemma_next_doubled_bounds, names_of, next_doubled, opens_at, parsed, plain_variables,
    registered, scan, split, ParseErrorView, Placeholder, Scanned,
};
use crate::template::{FilteredView, TemplateView};
use crate::text::trimmed;
use vstd::prelude::*;

verus! {

/// A text without the separator is one run.
pub proof fn lemma_split_plain(x: Seq<char>, sep: char)
    requires
        !x.contains(sep),
    ensures
        split(x, sep) == seq![x],
    decreases x.len(),
{
    if x.len() == 0 {
        assert(x =~= Seq::<char>::empty());
    } else {
        lemma_split_plain(x.drop_last(), sep);
        let before = split(x.drop_last(), sep);
        assert(before.last().push(x.last()) =~= x);
    }
}

/// The runs of two texts with the separator between them are the runs of
/// the first, then those of the second.
pub proof fn lemma_split_concat(x: Seq<char>, y: Seq<char>, sep: char)
    ensures
        split(x + seq![sep] + y, sep) == split(x, sep) + split(y, sep),
    decreases y.len(),
{
    let whole = x + seq![sep] + y;
    if y.len() == 0 {
        assert(whole.drop_last() =~= x);
    } else {
        assert(whole.drop_last() =~= x + seq![sep] + y.drop_last());
        lemma_split_concat(x, y.drop_last(), sep);
    }
}

/// A chain always has a segment, so that none is ever reported as empty.
pub proof fn lemma_chain_has_segment(body: Seq<char>)
    ensures
        chain_of(body) != Err::<FilteredView, ParseErrorView>(ParseErrorView::EmptyFilterChain),
{
}

/// No template is ever reported to hold an empty chain.
pub proof fn lemma_scan_has_segments(src: Seq<char>, i: int)
    ensures
        scan(src, i) != Err::<Scanned, ParseErrorView>(ParseErrorView::EmptyFilterChain),
    decreases src.len() - i,
{
    if 0 <= i < src.len() {
        if opens_at(src, i) {
            if i + 3 <= src.len() {
                lemma_next_doubled_bounds(src, i + 3);
            }
            let end = next_doubled(src, i + 3);
            if end < src.len() && src[end] != '{' {
                lemma_scan_has_segments(src, end + 1);
            }
        } else {
            lemma_scan_has_segments(src, i + 1);
        }
    }
}

/// The text of a filter chain: `segments` with ` | ` between each two of
/// them.
pub open spec fn chain_text(segments: Seq<Seq<char>>) -> Seq<char>
    decreases segments.len(),
{
    if segments.len() == 0 {
        Seq::empty()
    } else if segments.len() == 1 {
        segments[0]
    } else {
        chain_text(segments.drop_last()) + " | "@ + segments.last()
    }
}

/// Whether each of `segments` is an identifier.
pub open spec fn all_idents(segments: Seq<Seq<char>>) -> bool {
    forall|k: int| 0 <= k < segments.len() ==> is_ident(#[trigger] segments[k])
}

/// Among identifiers none is at fault.
pub proof fn lemma_first_fault_idents(segments: Seq<Seq<char>>)
    requires
        all_idents(segments),
    ensures
        first_fault(segments) is None,
    decreases segments.len(),
{
    if segments.len() > 0 {
        lemma_first_fault_idents(segments.drop_last());
    }
}

/// The runs of the text of a chain: as many as it has segments, each a
/// segment with white space around it; the last has none behind it.
pub proof fn lemma_chain_text_runs(segments: Seq<Seq<char>>)
    requires
        segments.len() >= 1,
        all_idents(segments),
    ensures
        split(chain_text(segments), '|').len() == segments.len(),
        forall|k: int|
            0 <= k < segments.len() ==> trimmed(#[trigger] split(chain_text(segments), '|')[k])
                == segments[k],
        split(chain_text(segments), '|').last() == (if segments.len() == 1 {
            Seq::<char>::empty()
        } else {
            seq![' ']
        }) + segments.last(),
    decreases segments.len(),
{
    reveal_strlit(" | ");
    let none = Seq::<char>::empty();
    let last = segments.last();
    if segments.len() == 1 {
        lemma_split_plain(last, '|');
    } else {
        let init = segments.drop_last();
        lemma_chain_text_runs(init);
        let before = chain_text(init);
        let x = before.push(' ');
        let y = seq![' '] + last;
        assert(chain_text(segments) =~= x + seq!['|'] + y);
        lemma_split_concat(x, y, '|');
        lemma_split_plain(y, '|');
        assert(x.drop_last() =~= before);
        let runs = split(before, '|');
        let lead = if init.len() == 1 {
            none
        } else {
            seq![' ']
        };
        assert(runs.last().push(' ') =~= lead + init.last() + seq![' ']);
        lemma_trimmed(lead, init.last(), seq![' ']);
        lemma_trimmed(seq![' '], last, none);
    }
}

/// The text of a chain of identifiers is read as that chain: the first
/// segment is the variable, the others are its filters in their order, and
/// the name joins them all by `_`.
pub proof fn lemma_chain_of_text(segments: Seq<Seq<char>>)
    requires
        segments.len() >= 1,
        all_idents(segments),
    ensures
        chain_of(chain_text(segments)) == Ok::<FilteredView, ParseErrorView>(
            FilteredView {
                source: segments[0],
                filters: segments.skip(1),
                name: joined(segments, '_'),
            },
        ),
{
    lemma_chain_text_runs(segments);
    assert(chain_segments(chain_text(segments)) =~= segments);
    lemma_first_fault_idents(segments);
}

/// The text of a chain of identifiers starts and ends with a character of
/// an identifier, holds no brace, and holds a `|` where the chain has a
/// filter.
pub proof fn lemma_chain_text_chars(segments: Seq<Seq<char>>)
    requires
        segments.len() >= 1,
        all_idents(segments),
    ensures
        chain_text(segments).len() > 0,
        is_ident_char(chain_text(segments).first()),
        is_ident_char(chain_text(segments).last()),
        forall|i: int|
            0 <= i < chain_text(segments).len() ==> (#[trigger] chain_text(segments)[i]) != '{'
                && chain_text(segments)[i] != '}',
        segments.len() >= 2 ==> chain_text(segments).contains('|'),
    decreases segments.len(),
{
    reveal_strlit(" | ");
    if segments.len() > 1 {
        let init = segments.drop_last();
        lemma_chain_text_chars(init);
        let before = chain_text(init);
        let text = chain_text(segments);
        assert(text[before.len() as int + 1] == '|');
    }
}

/// A template that is one placeholder for a filter chain: `{{ v | f | .. }}`
/// with identifiers for the variable and the filters. Its skeleton is the
/// one reference to the chain's name, which joins variable and filters by
/// `_`; its variables are the chain's variable, and `name` where that is
/// not `name` itself; and the chain is its one filtered variable.
pub proof fn lemma_parse_chain(lead: Seq<char>, segments: Seq<Seq<char>>, trail: Seq<char>)
    requires
        all_space(lead),
        all_space(trail),
        segments.len() >= 2,
        all_idents(segments),
    ensures
        parsed(braced(lead + chain_text(segments) + trail)) == Ok::<TemplateView, ParseErrorView>(
            TemplateView {
                original: braced(lead + chain_text(segments) + trail),
                skeleton: "${"@ + joined(segments, '_') + "}"@,
                variables: plain_variables(registered(seq![segments[0]], "name"@)),
                name_is_explicit: segments[0] == "name"@,
                filtered: seq![
                    FilteredView {
                        source: segments[0],
                        filters: segments.skip(1),
                        name: joined(segments, '_'),
                    },
                ],
            },
        ),
{
    let text = chain_text(segments);
    let body = lead + text + trail;
    let chain = FilteredView {
        source: segments[0],
        filters: segments.skip(1),
        name: joined(segments, '_'),
    };
    let p = Placeholder::Chain(chain);
    lemma_chain_text_chars(segments);
    lemma_chain_of_text(segments);
    lemma_trimmed(lead, text, trail);
    lemma_scan_braced(body);
    let none = Seq::<Placeholder>::empty();
    assert(seq![p].drop_last() =~= none);
    assert(names_of(none) =~= Seq::<Seq<char>>::empty());
    assert(chains_of(none) =~= Seq::<FilteredView>::empty());
    assert(seq![segments[0]].contains("name"@) == (segments[0] == "name"@)) by {
        if segments[0] == "name"@ {
            assert(seq![segments[0]][0] == "name"@);
        }
    }
}

/// A chain of two filters: `{{ a | f | g }}` is held under the name
/// `a_f_g`, and the script computes it as `a_f_g=$(g $(f "$a"))`, the first
/// filter applied first.
pub proof fn lemma_chain_of_two(a: Seq<char>, f: Seq<char>, g: Seq<char>)
    requires
        is_ident(a),
        is_ident(f),
        is_ident(g),
    ensures
        chain_of(a + " | "@ + f + " | "@ + g) == Ok::<FilteredView, ParseErrorView>(
            FilteredView { source: a, filters: seq![f, g], name: a + "_"@ + f + "_"@ + g },
        ),
        filter_assignment(
            FilteredView { source: a, filters: seq![f, g], name: a + "_"@ + f + "_"@ + g },
        ) == a + "_"@ + f + "_"@ + g + "=$("@ + g + " $("@ + f + " \"$"@ + a + "\"))\n"@,
{
    reveal_strlit("_");
    reveal_strlit("=");
    reveal_strlit("$(");
    reveal_strlit(" ");
    reveal_strlit("\"$");
    reveal_strlit("\"");
    reveal_strlit("\n");
    reveal_strlit("=$(");
    reveal_strlit(" $(");
    reveal_strlit(" \"$");
    reveal_strlit("\"))\n");
    let segments = seq![a, f, g];
    let two = seq![a, f];
    let one = seq![a];
    assert(segments.drop_last() =~= two);
    assert(two.drop_last() =~= one);
    assert(chain_text(one) == a);
    assert(chain_text(two) == a + " | "@ + f);
    assert(joined(one, '_') == a);
    assert(joined(two, '_') =~= a + "_"@ + f);
    assert(joined(segments, '_') =~= a + "_"@ + f + "_"@ + g);
    assert(segments.skip(1) =~= seq![f, g]);
    lemma_chain_of_text(segments);
    let filters = seq![f, g];
    assert(filters.drop_last() =~= seq![f]);
    assert(filter_calls(seq![f].drop_last()) =~= Seq::<char>::empty());
    assert(filter_calls(seq![f]) =~= "$("@ + f + " "@);
}

} // verus!
