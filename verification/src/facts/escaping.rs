//! Parsing a skeleton again: escaping is not undone by parsing, so only a
//! skeleton with nothing to escape parses to itself.

use crate::facts::scanning::lemma_parse_text;
use crate::helpers::{escaped, escaped_char, is_shell_special};
use crate::parse::{opens_at, parsed, scan};
use vstd::prelude::*;

verus! {

/// Whether `s` holds no shell-sensitive character.
pub open spec fn is_plain(s: Seq<char>) -> bool {
    forall|i: int| 0 <= i < s.len() ==> !is_shell_special(#[trigger] s[i])
}

/// Where escaping leaves no shell-sensitive character, there was none, and
/// escaping changed nothing.
pub proof fn lemma_escaped_plain(s: Seq<char>)
    requires
        is_plain(escaped(s)),
    ensures
        escaped(s) == s,
    decreases s.len(),
{
    if s.len() > 0 {
        let before = escaped(s.drop_last());
        let e = escaped(s);
        assert forall|i: int| 0 <= i < before.len() implies !is_shell_special(
            #[trigger] before[i],
        ) by {
            assert(e[i] == before[i]);
        }
        lemma_escaped_plain(s.drop_last());
        if is_shell_special(s.last()) {
            assert(e[before.len() as int] == '\\');
        }
    }
}

/// Where a scan comes to a placeholder, the skeleton holds the `$` of a
/// reference.
pub proof fn lemma_scan_marks(src: Seq<char>, i: int)
    ensures
        scan(src, i) matches Ok(s) ==> s.placeholders.len() > 0 ==> !is_plain(s.skeleton),
    decreases src.len() - i,
{
    reveal_strlit("${");
    if 0 <= i < src.len() {
        if let Ok(s) = scan(src, i) {
            if opens_at(src, i) {
                assert(s.skeleton[0] == '$');
            } else {
                lemma_scan_marks(src, i + 1);
                let rest = scan(src, i + 1)->Ok_0;
                if rest.placeholders.len() > 0 {
                    let j = choose|j: int|
                        0 <= j < rest.skeleton.len() && is_shell_special(rest.skeleton[j]);
                    assert(s.skeleton[escaped_char(src[i]).len() + j] == rest.skeleton[j]);
                }
            }
        }
    }
}

/// Where a scan comes to no placeholder, none opens.
pub proof fn lemma_scan_without_placeholders(src: Seq<char>, i: int)
    requires
        0 <= i,
        scan(src, i) is Ok,
        scan(src, i)->Ok_0.placeholders.len() == 0,
    ensures
        forall|k: int| i <= k ==> !opens_at(src, k),
    decreases src.len() - i,
{
    if i < src.len() && !opens_at(src, i) {
        lemma_scan_without_placeholders(src, i + 1);
    }
}

/// A skeleton without any shell-sensitive character parses to itself: the
/// template had no placeholder and nothing to escape, so that parsing it
/// again escapes nothing either.
pub proof fn lemma_reparse_plain_skeleton(src: Seq<char>)
    requires
        parsed(src) is Ok,
        is_plain(parsed(src)->Ok_0.skeleton),
    ensures
        parsed(src)->Ok_0.skeleton == src,
        parsed(parsed(src)->Ok_0.skeleton) is Ok,
        parsed(parsed(src)->Ok_0.skeleton)->Ok_0.skeleton == parsed(src)->Ok_0.skeleton,
{
    lemma_scan_marks(src, 0);
    lemma_scan_without_placeholders(src, 0);
    lemma_parse_text(src);
    lemma_escaped_plain(src);
}

} // verus!
