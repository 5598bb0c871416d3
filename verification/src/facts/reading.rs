//! The scan, one character at a time: a reader that goes through a
//! template once, looks one character back, and knows whether it stands
//! inside a placeholder, comes to what the scan comes to.

use crate::facts::scanning::lemma_next_doubled_skip;
use crate::helpers::escaped_char;
use crate::parse::{
    continued, doubled_at, lemma_continued_twice, next_doubled, placeholder, reference, scan,
    ParseErrorView, Placeholder, Scanned,
};
use vstd::prelude::*;

verus! {

/// `done`, with the character `last` written behind it, escaped, where
/// there is one.
pub open spec fn written(done: Scanned, last: Option<char>) -> Scanned {
    match last {
        Some(c) => Scanned {
            skeleton: done.skeleton + escaped_char(c),
            placeholders: done.placeholders,
        },
        None => done,
    }
}

/// `done`, with the reference to `p` written behind it.
pub open spec fn referred(done: Scanned, p: Placeholder) -> Scanned {
    Scanned {
        skeleton: done.skeleton + reference(p),
        placeholders: done.placeholders.push(p),
    }
}

/// What a reader comes to that stands at `i`, has seen the character
/// `last` just before (unless a placeholder opened or closed there),
/// stands inside the placeholder whose body starts at `inside` (or in
/// none), and has written `done`.
///
/// Two `{` in a row open a placeholder, or are an error inside one. Two
/// `}` in a row close the placeholder that the reader is in. Any other
/// character is kept to look back at, and outside a placeholder the
/// character that was kept before is written. At the end a placeholder
/// must not be open, and the character that was kept is written.
pub open spec fn read(
    src: Seq<char>,
    i: int,
    last: Option<char>,
    inside: Option<int>,
    done: Scanned,
) -> Result<Scanned, ParseErrorView>
    decreases src.len() - i,
{
    if i < 0 || i >= src.len() {
        if inside is Some {
            Err(ParseErrorView::UnfinishedVariable)
        } else {
            Ok(written(done, last))
        }
    } else if last == Some('{') && src[i] == '{' {
        if inside is Some {
            Err(ParseErrorView::NestedVariable)
        } else {
            read(src, i + 1, None, Some(i + 1), done)
        }
    } else if last == Some('}') && src[i] == '}' && inside is Some {
        match placeholder(src.subrange(inside->0, i - 1)) {
            Ok(p) => read(src, i + 1, None, None, referred(done, p)),
            Err(e) => Err(e),
        }
    } else {
        read(
            src,
            i + 1,
            Some(src[i]),
            inside,
            if inside is Some {
                done
            } else {
                written(done, last)
            },
        )
    }
}

/// What the placeholder comes to whose body starts at `start`, and what
/// follows it.
pub open spec fn scan_body(src: Seq<char>, start: int) -> Result<Scanned, ParseErrorView> {
    let end = next_doubled(src, start + 1);
    if end >= src.len() {
        Err(ParseErrorView::UnfinishedVariable)
    } else if src[end] == '{' {
        Err(ParseErrorView::NestedVariable)
    } else {
        match placeholder(src.subrange(start, end - 1)) {
            Ok(p) => continued(
                Scanned { skeleton: reference(p), placeholders: seq![p] },
                scan(src, end + 1),
            ),
            Err(e) => Err(e),
        }
    }
}

/// Whether `last` is what a reader at `i` looks back at: nothing, or the
/// character before `i`.
pub open spec fn looks_back(src: Seq<char>, i: int, last: Option<char>) -> bool {
    last matches Some(c) ==> 1 <= i <= src.len() && c == src[i - 1]
}

/// Outside a placeholder the reader comes to what it has written,
/// continued by the scan from the character it looks back at.
pub proof fn lemma_read_outside(src: Seq<char>, i: int, last: Option<char>, done: Scanned)
    requires
        0 <= i <= src.len(),
        looks_back(src, i, last),
    ensures
        read(src, i, last, None, done) == continued(
            done,
            scan(
                src,
                if last is Some {
                    i - 1
                } else {
                    i
                },
            ),
        ),
    decreases src.len() - i, 0nat,
{
    if i < src.len() {
        if last == Some('{') && src[i] == '{' {
            lemma_read_inside(src, i + 1, i + 1, None, done);
        } else {
            lemma_read_outside(src, i + 1, Some(src[i]), written(done, last));
            if let Some(c) = last {
                lemma_continued_twice(
                    done,
                    Scanned { skeleton: escaped_char(c), placeholders: Seq::empty() },
                    scan(src, i),
                );
            }
        }
    }
}

/// Inside a placeholder the reader comes to what it has written, continued
/// by what the placeholder comes to and what follows it.
pub proof fn lemma_read_inside(
    src: Seq<char>,
    start: int,
    i: int,
    last: Option<char>,
    done: Scanned,
)
    requires
        0 <= start <= i <= src.len(),
        looks_back(src, i, last),
        last is Some <==> start < i,
        forall|k: int| start < k < i ==> !doubled_at(src, k),
    ensures
        read(src, i, last, Some(start), done) == continued(done, scan_body(src, start)),
    decreases src.len() - i, 1nat,
{
    if start < i {
        lemma_next_doubled_skip(src, start + 1, i);
    }
    if i < src.len() {
        if last == Some('}') && src[i] == '}' {
            if let Ok(p) = placeholder(src.subrange(start, i - 1)) {
                lemma_read_outside(src, i + 1, None, referred(done, p));
                lemma_continued_twice(
                    done,
                    Scanned { skeleton: reference(p), placeholders: seq![p] },
                    scan(src, i + 1),
                );
                assert(done.placeholders.push(p) =~= done.placeholders + seq![p]);
            }
        } else if !(last == Some('{') && src[i] == '{') {
            lemma_read_inside(src, start, i + 1, Some(src[i]), done);
        }
    }
}

/// Reading a template one character at a time comes to what the scan comes
/// to.
pub proof fn lemma_read_is_scan(src: Seq<char>)
    ensures
        read(
            src,
            0,
            None,
            None,
            Scanned { skeleton: Seq::empty(), placeholders: Seq::empty() },
        ) == scan(src, 0),
{
    lemma_read_outside(
        src,
        0,
        None,
        Scanned { skeleton: Seq::empty(), placeholders: Seq::empty() },
    );
}

} // verus!
