//! Escaping of text that is placed between the double quotes of a shell word.

use crate::template::text_of;
use crate::text::{chars_of, trim_range, trimmed};
use vstd::prelude::*;

verus! {

/// The characters that keep a meaning between double quotes in a shell word.
pub open spec fn is_shell_special(c: char) -> bool {
    c == '"' || c == '$' || c == '`' || c == '\\'
}

/// What one character becomes: a shell-sensitive character gets one
/// backslash in front of it, any other character stays as it is.
pub open spec fn escaped_char(c: char) -> Seq<char> {
    if is_shell_special(c) {
        seq!['\\', c]
    } else {
        seq![c]
    }
}

/// The text `s` with every character escaped, each on its own.
pub open spec fn escaped(s: Seq<char>) -> Seq<char>
    decreases s.len(),
{
    if s.len() == 0 {
        Seq::empty()
    } else {
        escaped(s.drop_last()) + escaped_char(s.last())
    }
}

/// Escaping one character is escaping the text that holds nothing else.
pub proof fn lemma_escaped_one(c: char)
    ensures
        escaped(seq![c]) == escaped_char(c),
{
    assert(escaped(seq![c].drop_last()) =~= Seq::<char>::empty());
}

/// Escaping goes character by character, so it goes through a concatenation.
pub proof fn lemma_escaped_concat(a: Seq<char>, b: Seq<char>)
    ensures
        escaped(a + b) == escaped(a) + escaped(b),
    decreases b.len(),
{
    if b.len() == 0 {
    } else {
        lemma_escaped_concat(a, b.drop_last());
        assert((a + b).drop_last() =~= a + b.drop_last());
    }
}

/// Whether `c` is shell-sensitive.
pub fn shell_special(c: char) -> (b: bool)
    ensures
        b == is_shell_special(c),
{
    c == '"' || c == '$' || c == '`' || c == '\\'
}

/// Appends `c` to `out`, escaped.
pub fn push_escaped(out: &mut String, c: char)
    ensures
        final(out)@ == old(out)@ + escaped_char(c),
{
    if shell_special(c) {
        out.push('\\');
    }
    out.push(c);
}

/// Appends the characters `chars[from..to]` to `out`, escaped.
pub fn push_escaped_run(out: &mut String, chars: &Vec<char>, from: usize, to: usize)
    requires
        from <= to <= chars@.len(),
    ensures
        final(out)@ == old(out)@ + escaped(chars@.subrange(from as int, to as int)),
{
    let mut i = from;
    while i < to
        invariant
            from <= i <= to <= chars@.len(),
            out@ == old(out)@ + escaped(chars@.subrange(from as int, i as int)),
        decreases to - i,
    {
        push_escaped(out, chars[i]);
        proof {
            let next = chars@.subrange(from as int, i + 1);
            assert(next.drop_last() =~= chars@.subrange(from as int, i as int));
        }
        i += 1;
    }
}

/// Appends the characters `chars[from..to]` to `out`, as they are.
pub fn push_run(out: &mut String, chars: &Vec<char>, from: usize, to: usize)
    requires
        from <= to <= chars@.len(),
    ensures
        final(out)@ == old(out)@ + chars@.subrange(from as int, to as int),
{
    let mut i = from;
    while i < to
        invariant
            from <= i <= to <= chars@.len(),
            out@ == old(out)@ + chars@.subrange(from as int, i as int),
        decreases to - i,
    {
        out.push(chars[i]);
        i += 1;
    }
}

/// Escapes `s` for the inside of a double-quoted shell word: each of `"`,
/// `$`, `` ` `` and `\` gets one backslash in front of it.
pub fn escape(s: &str) -> (r: String)
    ensures
        r@ == escaped(s@),
{
    let chars = chars_of(s);
    let mut r = String::new();
    push_escaped_run(&mut r, &chars, 0, chars.len());
    assert(chars@.subrange(0, chars@.len() as int) =~= chars@);
    r
}

/// What the answer to a question about a variable's default or description
/// comes to: the answer without the white space around it, escaped; and
/// nothing where that leaves nothing.
pub open spec fn answer_value(answer: Seq<char>) -> Option<Seq<char>> {
    let given = trimmed(answer);
    if given.len() == 0 {
        None
    } else {
        Some(escaped(given))
    }
}

/// Reads the answer to a question about a variable's default or
/// description: `None` where the answer is empty or white space only, else
/// the answer trimmed and escaped.
pub fn escaped_answer(answer: &str) -> (r: Option<String>)
    ensures
        text_of(r) == answer_value(answer@),
{
    let chars = chars_of(answer);
    assert(chars@.subrange(0, chars@.len() as int) =~= chars@);
    let (a, b) = trim_range(&chars, 0, chars.len());
    if a == b {
        None
    } else {
        let mut value = String::new();
        push_escaped_run(&mut value, &chars, a, b);
        Some(value)
    }
}

/// The text `s` with its escaping taken back: a backslash in front of a
/// shell-sensitive character is dropped, and the character stays. This is
/// how a shell reads backslashes between double quotes.
pub open spec fn unescaped(s: Seq<char>) -> Seq<char>
    decreases s.len(),
{
    if s.len() == 0 {
        Seq::empty()
    } else if s[0] == '\\' && s.len() >= 2 && is_shell_special(s[1]) {
        seq![s[1]] + unescaped(s.skip(2))
    } else {
        seq![s[0]] + unescaped(s.skip(1))
    }
}

/// How many characters of `s` are shell-sensitive.
pub open spec fn specials(s: Seq<char>) -> nat
    decreases s.len(),
{
    if s.len() == 0 {
        0
    } else {
        specials(s.drop_last()) + if is_shell_special(s.last()) {
            1nat
        } else {
            0nat
        }
    }
}

/// Escaping adds one character for each shell-sensitive character, and no
/// other.
pub proof fn lemma_escaped_len(s: Seq<char>)
    ensures
        escaped(s).len() == s.len() + specials(s),
    decreases s.len(),
{
    if s.len() > 0 {
        lemma_escaped_len(s.drop_last());
    }
}

/// Escaping is done once and can be taken back: what is read from the
/// escaped text is the text.
pub proof fn lemma_unescaped_escaped(s: Seq<char>)
    ensures
        unescaped(escaped(s)) == s,
    decreases s.len(),
{
    if s.len() > 0 {
        let c = s[0];
        let rest = s.skip(1);
        assert(s =~= seq![c] + rest);
        lemma_escaped_concat(seq![c], rest);
        lemma_escaped_one(c);
        lemma_unescaped_escaped(rest);
        let e = escaped(s);
        if is_shell_special(c) {
            assert(e.skip(2) =~= escaped(rest));
        } else {
            assert(e.skip(1) =~= escaped(rest));
        }
    }
}

} // verus!
