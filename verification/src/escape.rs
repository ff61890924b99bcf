//! Minimal XML escaping for text and attribute contexts.
//!
//! Text context escapes `&`, `<` and `>`; attribute context additionally
//! escapes `"`. On text without any of those characters both functions
//! return the input unchanged.

use vstd::prelude::*;

use crate::chars::chars_to_string;
use crate::chars::str_to_chars;

verus! {

/// The replacement for one character in the given context.
pub open spec fn g_esc_char(c: char, quote: bool) -> Seq<char> {
    if c == '&' {
        seq!['&', 'a', 'm', 'p', ';']
    } else if c == '<' {
        seq!['&', 'l', 't', ';']
    } else if c == '>' {
        seq!['&', 'g', 't', ';']
    } else if c == '"' && quote {
        seq!['&', 'q', 'u', 'o', 't', ';']
    } else {
        seq![c]
    }
}

/// The escaped form of a string in the given context.
pub open spec fn g_escape(s: Seq<char>, quote: bool) -> Seq<char>
    decreases s.len(),
{
    if s.len() == 0 {
        Seq::empty()
    } else {
        g_escape(s.drop_last(), quote) + g_esc_char(s.last(), quote)
    }
}

/// True when the string holds no character that the given context escapes.
pub open spec fn g_no_special(s: Seq<char>, quote: bool) -> bool {
    forall|i: int|
        0 <= i < s.len() ==> s[i] != '&' && s[i] != '<' && s[i] != '>' && !(quote && s[i] == '"')
}

/// Escaping a string without special characters returns it unchanged.
pub proof fn lemma_escape_no_special(s: Seq<char>, quote: bool)
    requires
        g_no_special(s, quote),
    ensures
        g_escape(s, quote) == s,
    decreases s.len(),
{
    if s.len() == 0 {
        assert(g_escape(s, quote) =~= s);
    } else {
        assert(g_no_special(s.drop_last(), quote));
        lemma_escape_no_special(s.drop_last(), quote);
        assert(g_esc_char(s.last(), quote) =~= seq![s.last()]);
        assert(g_escape(s, quote) =~= s.drop_last() + seq![s.last()]);
        assert(s.drop_last() + seq![s.last()] =~= s);
    }
}

/// On a string without special characters, escaping is idempotent: one pass
/// already returns the input, and a second pass returns it again.
pub proof fn lemma_escape_idempotent_no_special(s: Seq<char>, quote: bool)
    requires
        g_no_special(s, quote),
    ensures
        g_escape(s, quote) == s,
        g_escape(g_escape(s, quote), quote) == g_escape(s, quote),
{
    lemma_escape_no_special(s, quote);
}

fn push_escaped(out: &mut Vec<char>, c: char, quote: bool)
    ensures
        final(out)@ == old(out)@ + g_esc_char(c, quote),
{
    if c == '&' {
        out.push('&');
        out.push('a');
        out.push('m');
        out.push('p');
        out.push(';');
    } else if c == '<' {
        out.push('&');
        out.push('l');
        out.push('t');
        out.push(';');
    } else if c == '>' {
        out.push('&');
        out.push('g');
        out.push('t');
        out.push(';');
    } else if c == '"' && quote {
        out.push('&');
        out.push('q');
        out.push('u');
        out.push('o');
        out.push('t');
        out.push(';');
    } else {
        out.push(c);
    }
    proof {
        assert(out@ =~= old(out)@ + g_esc_char(c, quote));
    }
}

/// Escapes a string for the given context, character by character.
pub fn escape_chars(s: &Vec<char>, quote: bool) -> (r: Vec<char>)
    ensures
        r@ == g_escape(s@, quote),
{
    let mut out: Vec<char> = Vec::new();
    let n = s.len();
    let mut i: usize = 0;
    while i < n
        invariant
            0 <= i <= n,
            n == s@.len(),
            out@ == g_escape(s@.take(i as int), quote),
        decreases n - i,
    {
        proof {
            assert(s@.take(i + 1int).drop_last() =~= s@.take(i as int));
            assert(s@.take(i + 1int).last() == s@[i as int]);
        }
        push_escaped(&mut out, s[i], quote);
        i = i + 1;
    }
    proof {
        assert(s@.take(n as int) =~= s@);
    }
    out
}

/// Escapes text content: `&`, `<` and `>`.
pub fn escape_text(s: &str) -> (r: String)
    ensures
        r@ == g_escape(s@, false),
{
    let cs = str_to_chars(s);
    let out = escape_chars(&cs, false);
    chars_to_string(&out)
}

/// Escapes an attribute value: `&`, `<`, `>` and `"`.
pub fn escape_attr(s: &str) -> (r: String)
    ensures
        r@ == g_escape(s@, true),
{
    let cs = str_to_chars(s);
    let out = escape_chars(&cs, true);
    chars_to_string(&out)
}

} // verus!
