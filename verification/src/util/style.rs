//! The handful of ANSI styles the reports use.

use vstd::prelude::*;
use vstd::string::*;
use crate::util::text;

verus! {

/// Ends a styled span.
pub const RESET: &'static str = "\x1b[0m";

/// `body` in the style `sgr`: the span opens with a reset, so that an enclosing style cannot bleed
/// into it, and closes with one.
pub open spec fn span(sgr: Seq<char>, body: Seq<char>) -> Seq<char> {
    RESET@ + "\x1b["@ + sgr + "m"@ + body + RESET@
}

/// `body` in the style `sgr`.
pub fn styled(sgr: &str, body: &str) -> (r: String)
    ensures
        r@ == span(sgr@, body@),
{
    text::cat5(RESET, "\x1b[", sgr, "m", body).concat(RESET)
}

/// A section heading, in bold blue.
pub fn header(body: &str) -> (r: String)
    ensures
        r@ == span("1;34"@, body@),
{
    styled("1;34", body)
}

/// Something wrong, in bold red.
pub fn problematic(body: &str) -> (r: String)
    ensures
        r@ == span("1;31"@, body@),
{
    styled("1;31", body)
}

/// Something confirmed good, in bold green.
pub fn approved(body: &str) -> (r: String)
    ensures
        r@ == span("1;32"@, body@),
{
    styled("1;32", body)
}

/// A flag or an argument's name, in plain green.
pub fn argname(body: &str) -> (r: String)
    ensures
        r@ == span("32"@, body@),
{
    styled("32", body)
}

/// Every span opens with a reset and closes with one, and holds the text it was given.
pub proof fn law_spans_open_and_close_clean(sgr: Seq<char>, body: Seq<char>)
    ensures
        RESET@.is_prefix_of(span(sgr, body)),
        RESET@.is_suffix_of(span(sgr, body)),
        text::has(span(sgr, body), body),
{
    let s = span(sgr, body);
    let i: int = (RESET@.len() + "\x1b["@.len() + sgr.len() + "m"@.len()) as int;
    assert(s.subrange(0, RESET@.len() as int) =~= RESET@);
    assert(s.subrange(s.len() - RESET@.len(), s.len() as int) =~= RESET@);
    assert(s.subrange(i, i + body.len()) =~= body);
    assert(text::occurs_at(s, body, i));
}

/// What went wrong never looks like what was confirmed good.
pub proof fn law_statuses_differ(body: Seq<char>)
    ensures
        span("1;31"@, body) != span("1;32"@, body),
{
    reveal_strlit("1;31");
    reveal_strlit("1;32");
    let i: int = (RESET@.len() + "\x1b["@.len() + 3) as int;
    assert(span("1;31"@, body)[i] == '1');
    assert(span("1;32"@, body)[i] == '2');
}

/// A span is spelled in full: a reset, the style's own sequence, the text, and a reset.
pub proof fn law_spans_are_spelled_in_full(sgr: Seq<char>, body: Seq<char>)
    ensures
        span(sgr, body) == seq!['\x1b', '[', '0', 'm', '\x1b', '['] + sgr + seq!['m'] + body + seq![
            '\x1b',
            '[',
            '0',
            'm',
        ],
{
    reveal_strlit("\x1b[0m");
    reveal_strlit("\x1b[");
    reveal_strlit("m");
    assert(span(sgr, body) =~= seq!['\x1b', '[', '0', 'm', '\x1b', '['] + sgr + seq!['m'] + body
        + seq!['\x1b', '[', '0', 'm']);
}

} // verus!
