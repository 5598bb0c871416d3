//! The variables and filter chains of a template that parses: what they
//! are named by, that each is there once, and what one placeholder comes
//! to.

use crate::facts::scanning::{braced, is_body, lemma_scan_braced, lemma_scan_concat};
use crate::parse::{
    chain_of, chain_segments, chains_of, first_fault, is_chain, is_ident,
    lemma_next_doubled_bounds, names_of, next_doubled, opens_at, parsed, placeholder,
    plain_variables, registered, same_chain, scan, source_of, split, template_of, well_formed,
    ParseErrorView, Placeholder,
};
use crate::template::{FilteredView, TemplateView, VariableView};
use crate::text::{is_space, trim_end, trim_start, trimmed};
use vstd::prelude::*;

verus! {

/// A text that holds the separator splits into two runs at least.
pub proof fn lemma_split_len(s: Seq<char>, sep: char)
    ensures
        split(s, sep).len() >= 1,
        s.contains(sep) ==> split(s, sep).len() >= 2,
    decreases s.len(),
{
    if s.len() > 0 {
        lemma_split_len(s.drop_last(), sep);
        if s.last() != sep && s.contains(sep) {
            let k = choose|k: int| 0 <= k < s.len() && s[k] == sep;
            assert(s.drop_last()[k] == sep);
        }
    }
}

/// Where no segment is at fault, every segment is an identifier.
pub proof fn lemma_first_fault_none(segments: Seq<Seq<char>>)
    requires
        first_fault(segments) is None,
    ensures
        forall|k: int| 0 <= k < segments.len() ==> is_ident(#[trigger] segments[k]),
    decreases segments.len(),
{
    if segments.len() > 0 {
        lemma_first_fault_none(segments.drop_last());
        assert forall|k: int| 0 <= k < segments.len() implies is_ident(#[trigger] segments[k]) by {
            if k < segments.len() - 1 {
                assert(segments.drop_last()[k] == segments[k]);
            }
        }
    }
}

/// Whether `p` is a placeholder as parsing makes them.
pub open spec fn is_placeholder(p: Placeholder) -> bool {
    match p {
        Placeholder::Variable(name) => is_ident(name),
        Placeholder::Chain(f) => is_chain(f),
    }
}

/// The body of a placeholder stands for a variable named by an identifier,
/// or for a well made filter chain, or it is an error.
pub proof fn lemma_placeholder(body: Seq<char>)
    ensures
        placeholder(body) matches Ok(p) ==> is_placeholder(p),
{
    let inner = trimmed(body);
    if inner.contains('|') {
        if let Ok(f) = chain_of(inner) {
            let segments = chain_segments(inner);
            lemma_split_len(inner, '|');
            lemma_first_fault_none(segments);
            assert(seq![f.source] + f.filters =~= segments);
        }
    }
}

/// Every placeholder that a scan comes to is one as parsing makes them.
pub proof fn lemma_scan_placeholders(src: Seq<char>, i: int)
    ensures
        scan(src, i) matches Ok(s) ==> forall|k: int|
            0 <= k < s.placeholders.len() ==> is_placeholder(#[trigger] s.placeholders[k]),
    decreases src.len() - i,
{
    if 0 <= i < src.len() {
        if opens_at(src, i) {
            if i + 3 <= src.len() {
                lemma_next_doubled_bounds(src, i + 3);
            }
            let end = next_doubled(src, i + 3);
            if end < src.len() && src[end] != '{' {
                lemma_placeholder(src.subrange(i + 2, end - 1));
                lemma_scan_placeholders(src, end + 1);
            }
        } else {
            lemma_scan_placeholders(src, i + 1);
        }
    }
}

/// Of the names of the variables of `placeholders`: no two are the same,
/// each is read by one of the placeholders, and what each placeholder reads
/// is among them.
pub proof fn lemma_names(placeholders: Seq<Placeholder>)
    ensures
        forall|i: int, j: int|
            0 <= i < j < names_of(placeholders).len() ==> names_of(placeholders)[i] != names_of(
                placeholders,
            )[j],
        forall|i: int|
            0 <= i < names_of(placeholders).len() ==> exists|k: int|
                0 <= k < placeholders.len() && #[trigger] names_of(placeholders)[i] == source_of(
                    #[trigger] placeholders[k],
                ),
        forall|k: int|
            0 <= k < placeholders.len() ==> names_of(placeholders).contains(
                source_of(#[trigger] placeholders[k]),
            ),
    decreases placeholders.len(),
{
    if placeholders.len() > 0 {
        let before = placeholders.drop_last();
        let names = names_of(placeholders);
        let last = source_of(placeholders.last());
        lemma_names(before);
        assert forall|k: int| 0 <= k < placeholders.len() implies names.contains(
            source_of(#[trigger] placeholders[k]),
        ) by {
            if k < before.len() {
                let at = choose|at: int|
                    0 <= at < names_of(before).len() && names_of(before)[at] == source_of(
                        before[k],
                    );
                assert(names[at] == source_of(placeholders[k]));
            } else if !names_of(before).contains(last) {
                assert(names[names.len() - 1] == last);
            }
        }
    }
}

/// Of the filter chains of `placeholders`: each is one of the placeholders,
/// and no two are the same chain.
pub proof fn lemma_chains(placeholders: Seq<Placeholder>)
    ensures
        forall|i: int|
            0 <= i < chains_of(placeholders).len() ==> exists|k: int|
                0 <= k < placeholders.len() && #[trigger] placeholders[k] == Placeholder::Chain(
                    #[trigger] chains_of(placeholders)[i],
                ),
        forall|i: int, j: int|
            0 <= i < j < chains_of(placeholders).len() ==> !same_chain(
                #[trigger] chains_of(placeholders)[i],
                #[trigger] chains_of(placeholders)[j],
            ),
    decreases placeholders.len(),
{
    if placeholders.len() > 0 {
        let before = placeholders.drop_last();
        let chains = chains_of(placeholders);
        lemma_chains(before);
        assert forall|i: int| 0 <= i < chains.len() implies exists|k: int|
            0 <= k < placeholders.len() && #[trigger] placeholders[k] == Placeholder::Chain(
                #[trigger] chains[i],
            ) by {
            if i < chains_of(before).len() {
                let k = choose|k: int|
                    0 <= k < before.len() && #[trigger] before[k] == Placeholder::Chain(
                        chains_of(before)[i],
                    );
                assert(placeholders[k] == before[k]);
            }
        }
    }
}

/// A template that parses is well formed.
pub proof fn lemma_parsed_well_formed(src: Seq<char>)
    ensures
        parsed(src) matches Ok(t) ==> well_formed(t),
{
    if let Ok(scanned) = scan(src, 0) {
        let t = template_of(src, scanned);
        let held = scanned.placeholders;
        let names = names_of(held);
        lemma_scan_placeholders(src, 0);
        lemma_names(held);
        lemma_chains(held);
        reveal_strlit("name");
        if names.contains("name"@) {
            let at = choose|at: int| 0 <= at < names.len() && names[at] == "name"@;
            assert(t.variables[at].name == "name"@);
        } else {
            assert(t.variables[names.len() as int].name == "name"@);
        }
        assert forall|i: int| 0 <= i < t.filtered.len() implies is_chain(
            #[trigger] t.filtered[i],
        ) && exists|k: int|
            0 <= k < t.variables.len() && (#[trigger] t.variables[k]).name == t.filtered[i].source by {
            let at = choose|at: int| 0 <= at < names.len() && names[at] == t.filtered[i].source;
            assert(t.variables[at].name == t.filtered[i].source);
        }
    }
}

/// Whether `s` is white space throughout.
pub open spec fn all_space(s: Seq<char>) -> bool {
    forall|i: int| 0 <= i < s.len() ==> is_space(#[trigger] s[i])
}

/// White space in front of a text that does not start with any is trimmed
/// away, and nothing else.
pub proof fn lemma_trim_start(lead: Seq<char>, x: Seq<char>)
    requires
        all_space(lead),
        x.len() == 0 || !is_space(x.first()),
    ensures
        trim_start(lead + x) == x,
    decreases lead.len(),
{
    if lead.len() > 0 {
        assert((lead + x).drop_first() =~= lead.drop_first() + x);
        lemma_trim_start(lead.drop_first(), x);
    }
}

/// White space behind a text that does not end in any is trimmed away, and
/// nothing else.
pub proof fn lemma_trim_end(x: Seq<char>, trail: Seq<char>)
    requires
        all_space(trail),
        x.len() == 0 || !is_space(x.last()),
    ensures
        trim_end(x + trail) == x,
    decreases trail.len(),
{
    if trail.len() > 0 {
        assert((x + trail).drop_last() =~= x + trail.drop_last());
        lemma_trim_end(x, trail.drop_last());
    }
}

/// Trimming takes the white space around a text away, and nothing else.
pub proof fn lemma_trimmed(lead: Seq<char>, x: Seq<char>, trail: Seq<char>)
    requires
        all_space(lead),
        all_space(trail),
        x.len() > 0,
        !is_space(x.first()),
        !is_space(x.last()),
    ensures
        trimmed(lead + x + trail) == x,
{
    assert(lead + x + trail =~= lead + (x + trail));
    lemma_trim_start(lead, x + trail);
    lemma_trim_end(x, trail);
}

/// An identifier with white space around it is the body of a placeholder,
/// and stands for the variable of that name.
pub proof fn lemma_variable_body(lead: Seq<char>, x: Seq<char>, trail: Seq<char>)
    requires
        all_space(lead),
        all_space(trail),
        is_ident(x),
    ensures
        is_body(lead + x + trail),
        placeholder(lead + x + trail) == Ok::<Placeholder, ParseErrorView>(
            Placeholder::Variable(x),
        ),
{
    lemma_trimmed(lead, x, trail);
}

/// A template that is one placeholder for a variable: `{{ x }}`, with white
/// space around the identifier `x` as it happens to be. Its skeleton is the
/// one reference `${x}`, and its variables are `x`, and `name` where `x` is
/// not `name` itself.
pub proof fn lemma_parse_variable(lead: Seq<char>, x: Seq<char>, trail: Seq<char>)
    requires
        all_space(lead),
        all_space(trail),
        is_ident(x),
    ensures
        parsed(braced(lead + x + trail)) == Ok::<TemplateView, ParseErrorView>(
            TemplateView {
                original: braced(lead + x + trail),
                skeleton: "${"@ + x + "}"@,
                variables: plain_variables(registered(seq![x], "name"@)),
                name_is_explicit: x == "name"@,
                filtered: Seq::empty(),
            },
        ),
{
    let p = Placeholder::Variable(x);
    lemma_variable_body(lead, x, trail);
    lemma_scan_braced(lead + x + trail);
    assert(names_of(seq![p].drop_last()) =~= Seq::<Seq<char>>::empty());
    assert(chains_of(seq![p].drop_last()) =~= Seq::<FilteredView>::empty());
    assert(seq![x].contains("name"@) == (x == "name"@)) by {
        if x == "name"@ {
            assert(seq![x][0] == "name"@);
        }
    }
}

/// How many of `vars` are named `name`.
pub open spec fn occurrences(vars: Seq<VariableView>, name: Seq<char>) -> nat
    decreases vars.len(),
{
    if vars.len() == 0 {
        0
    } else {
        occurrences(vars.drop_last(), name) + if vars.last().name == name {
            1nat
        } else {
            0nat
        }
    }
}

/// Where no variable is named `name`, none is counted.
pub proof fn lemma_occurrences_none(vars: Seq<VariableView>, name: Seq<char>)
    requires
        forall|i: int| 0 <= i < vars.len() ==> (#[trigger] vars[i]).name != name,
    ensures
        occurrences(vars, name) == 0,
    decreases vars.len(),
{
    if vars.len() > 0 {
        lemma_occurrences_none(vars.drop_last(), name);
    }
}

/// Where no two variables have the same name, a variable is the only one
/// of its name.
pub proof fn lemma_occurrences_one(vars: Seq<VariableView>, at: int)
    requires
        0 <= at < vars.len(),
        forall|i: int, j: int|
            0 <= i < j < vars.len() ==> (#[trigger] vars[i]).name != (#[trigger] vars[j]).name,
    ensures
        occurrences(vars, vars[at].name) == 1,
    decreases vars.len(),
{
    let name = vars[at].name;
    let before = vars.drop_last();
    if at == vars.len() - 1 {
        lemma_occurrences_none(before, name);
    } else {
        lemma_occurrences_one(before, at);
    }
}

/// A placeholder for a variable anywhere in a template: where the template
/// parses, its skeleton holds the one reference `${x}` for it, between what
/// stands before and what stands behind; and `x` is among the variables
/// once, however often the template names it.
pub proof fn lemma_variable_once(
    a: Seq<char>,
    lead: Seq<char>,
    x: Seq<char>,
    trail: Seq<char>,
    b: Seq<char>,
)
    requires
        scan(a, 0) is Ok,
        a.len() > 0 ==> a.last() != '{',
        all_space(lead),
        all_space(trail),
        is_ident(x),
        parsed(a + braced(lead + x + trail) + b) is Ok,
    ensures
        scan(b, 0) is Ok,
        parsed(a + braced(lead + x + trail) + b)->Ok_0.skeleton == scan(a, 0)->Ok_0.skeleton + (
        "${"@ + x + "}"@) + scan(b, 0)->Ok_0.skeleton,
        occurrences(parsed(a + braced(lead + x + trail) + b)->Ok_0.variables, x) == 1,
{
    reveal_strlit("{{");
    reveal_strlit("}}");
    let hole = braced(lead + x + trail);
    let p = Placeholder::Variable(x);
    let src = a + hole + b;
    assert(src =~= a + (hole + b));
    lemma_variable_body(lead, x, trail);
    lemma_scan_braced(lead + x + trail);
    lemma_scan_concat(hole, b);
    lemma_scan_concat(a, hole + b);
    let sa = scan(a, 0)->Ok_0;
    let all = scan(src, 0)->Ok_0;
    let held = all.placeholders;
    let at = sa.placeholders.len() as int;
    assert(held[at] == p);
    lemma_names(held);
    let names = names_of(held);
    let i = choose|i: int| 0 <= i < names.len() && names[i] == x;
    let vars = parsed(src)->Ok_0.variables;
    lemma_occurrences_one(vars, i);
}

} // verus!
