//! Wrapping strings in bounding characters, with escape-aware re-entry
//! safety: an escape character may be inserted before occurrences of the
//! closing character, unless the occurrence is already escaped.

use vstd::prelude::*;
use crate::chars::{chars_vec, push_char};

verus! {

/// `s` with the escape character inserted before each occurrence of `end`,
/// except at the very start and except where the preceding character is the
/// escape character itself (so pre-escaped text is not escaped twice).
pub open spec fn escaped_chars(s: Seq<char>, end: char, esc: char) -> Seq<char>
    decreases s.len(),
{
    if s.len() == 0 {
        Seq::empty()
    } else {
        escaped_chars(s.drop_last(), end, esc) + if s.last() == end && s.len() > 1 && s[s.len()
            - 2] != esc {
            seq![esc]
        } else {
            Seq::<char>::empty()
        } + seq![s.last()]
    }
}

/// The content escaped when an escape character is given, unchanged
/// otherwise.
pub open spec fn escaped_opt(s: Seq<char>, end: char, esc: Option<char>) -> Seq<char> {
    match esc {
        Some(e) => escaped_chars(s, end, e),
        None => s,
    }
}

/// The enclosed form: the opening character, then the prefix, then the
/// (possibly escaped) content, then the closing character.
pub open spec fn enclosed(
    s: Seq<char>,
    start: char,
    end: char,
    prefix: Seq<char>,
    esc: Option<char>,
) -> Seq<char> {
    seq![start] + prefix + escaped_opt(s, end, esc) + seq![end]
}

/// The closing character paired with an opening bracket, or the opening
/// character itself for anything else.
pub open spec fn closing_of(opening: char) -> char {
    if opening == '(' {
        ')'
    } else if opening == '<' {
        '>'
    } else if opening == '{' {
        '}'
    } else if opening == '[' {
        ']'
    } else {
        opening
    }
}

/// Insert the escape character before occurrences of `end`, except at the
/// start and after the escape character itself.
pub fn escape_in_str(s: &str, end: char, esc_char: char) -> (r: String)
    ensures
        r@ == escaped_chars(s@, end, esc_char),
{
    let v = chars_vec(s);
    let mut out = String::new();
    let mut i: usize = 0;
    while i < v.len()
        invariant
            v@ == s@,
            i <= v@.len(),
            out@ == escaped_chars(s@.take(i as int), end, esc_char),
        decreases v@.len() - i,
    {
        proof {
            assert(s@.take(i + 1).drop_last() =~= s@.take(i as int));
            assert(s@.take(i + 1).last() == s@[i as int]);
        }
        if v[i] == end && i > 0 && v[i - 1] != esc_char {
            push_char(&mut out, esc_char);
        }
        push_char(&mut out, v[i]);
        i = i + 1;
        assert(out@ =~= escaped_chars(s@.take(i as int), end, esc_char));
    }
    proof {
        assert(s@.take(s@.len() as int) =~= s@);
    }
    out
}

/// Enclose in a start and an end character, with an optional prefix placed
/// after the opening character and an optional escape character inserted
/// before unescaped occurrences of the end character.
pub fn enclose_in_chars(
    s: &str,
    start: char,
    end: char,
    prefix: Option<&str>,
    escape_char: Option<char>,
) -> (r: String)
    ensures
        r@ == enclosed(
            s@,
            start,
            end,
            match prefix {
                Some(p) => p@,
                None => Seq::empty(),
            },
            escape_char,
        ),
{
    let mut out = String::new();
    push_char(&mut out, start);
    match prefix {
        Some(p) => {
            out.append(p);
        },
        None => {},
    }
    match escape_char {
        Some(esc) => {
            let body = escape_in_str(s, end, esc);
            out.append(body.as_str());
        },
        None => {
            out.append(s);
        },
    }
    push_char(&mut out, end);
    proof {
        assert(out@ =~= enclosed(
            s@,
            start,
            end,
            match prefix {
                Some(p) => p@,
                None => Seq::<char>::empty(),
            },
            escape_char,
        ));
    }
    out
}

/// Enclose in a start and an end character, escaping the end character.
pub fn enclose_escaped(s: &str, start: char, end: char, escape_char: Option<char>) -> (r: String)
    ensures
        r@ == enclosed(s@, start, end, Seq::empty(), escape_char),
{
    enclose_in_chars(s, start, end, None, escape_char)
}

/// Enclose in a start and an end character without escaping.
pub fn enclose(s: &str, start: char, end: char) -> (r: String)
    ensures
        r@ == enclosed(s@, start, end, Seq::empty(), None),
{
    enclose_in_chars(s, start, end, None, None)
}

/// Enclose in a start and an end character, escaping the end character with
/// a backslash.
pub fn enclose_safe(s: &str, start: char, end: char) -> (r: String)
    ensures
        r@ == enclosed(s@, start, end, Seq::empty(), Some('\\')),
{
    enclose_in_chars(s, start, end, None, Some('\\'))
}

/// Wrap in a pair of characters, closing a bracket with its matching
/// bracket, with an optional escape character.
pub fn wrap_escaped(s: &str, opening: char, escape_char: Option<char>) -> (r: String)
    ensures
        r@ == enclosed(s@, opening, closing_of(opening), Seq::empty(), escape_char),
{
    let end = match opening {
        '(' => ')',
        '<' => '>',
        '{' => '}',
        '[' => ']',
        _ => opening,
    };
    enclose_in_chars(s, opening, end, None, escape_char)
}

/// Wrap in a pair of characters, closing a bracket with its matching
/// bracket.
pub fn wrap(s: &str, opening: char) -> (r: String)
    ensures
        r@ == enclosed(s@, opening, closing_of(opening), Seq::empty(), None),
{
    wrap_escaped(s, opening, None)
}

/// Wrap in matching characters, escaping with a backslash.
pub fn wrap_safe(s: &str, opening: char) -> (r: String)
    ensures
        r@ == enclosed(s@, opening, closing_of(opening), Seq::empty(), Some('\\')),
{
    wrap_escaped(s, opening, Some('\\'))
}

/// Wrap in parentheses with an optional prefix before the content.
pub fn in_parentheses(s: &str, prefix: Option<&str>) -> (r: String)
    ensures
        r@ == enclosed(
            s@,
            '(',
            ')',
            match prefix {
                Some(p) => p@,
                None => Seq::empty(),
            },
            None,
        ),
{
    enclose_in_chars(s, '(', ')', prefix, None)
}

/// Wrap in parentheses.
pub fn parenthesize(s: &str) -> (r: String)
    ensures
        r@ == enclosed(s@, '(', ')', Seq::empty(), None),
{
    wrap(s, '(')
}

/// Wrap in parentheses, escaping closing parentheses with a backslash.
pub fn parenthesize_safe(s: &str) -> (r: String)
    ensures
        r@ == enclosed(s@, '(', ')', Seq::empty(), Some('\\')),
{
    wrap_safe(s, '(')
}

/// Wrap in double quotes.
pub fn double_quotes(s: &str) -> (r: String)
    ensures
        r@ == enclosed(s@, '"', '"', Seq::empty(), None),
{
    wrap(s, '"')
}

/// Wrap in single quotes.
pub fn single_quotes(s: &str) -> (r: String)
    ensures
        r@ == enclosed(s@, '\'', '\'', Seq::empty(), None),
{
    wrap(s, '\'')
}

/// Wrap in double quotes, escaping inner double quotes with a backslash.
pub fn double_quotes_safe(s: &str) -> (r: String)
    ensures
        r@ == enclosed(s@, '"', '"', Seq::empty(), Some('\\')),
{
    wrap_escaped(s, '"', Some('\\'))
}

/// Wrap in single quotes, escaping inner single quotes with a backslash.
pub fn single_quotes_safe(s: &str) -> (r: String)
    ensures
        r@ == enclosed(s@, '\'', '\'', Seq::empty(), Some('\\')),
{
    wrap_escaped(s, '\'', Some('\\'))
}

} // verus!
