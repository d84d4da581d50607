//! Wildcard patterns on file names.
//!
//! In a pattern, `*` stands for any run of characters (any characters at all,
//! line breaks included), `,` separates alternatives of which any one may
//! match, and every other character, `.` included, stands for itself. The
//! pattern must match the whole name.
use vstd::prelude::*;

use crate::regex_rule::{regex_compiles, regex_finds, RegexRule};
use crate::text::{chars_of, push_char};

verus! {

/// Whether the regular-expression syntax gives `c` a meaning of its own, so
/// that it must be escaped to stand for itself.
pub open spec fn is_meta(c: char) -> bool {
    c == '\\' || c == '.' || c == '+' || c == '*' || c == '?' || c == '(' || c == ')' || c == '|'
        || c == '[' || c == ']' || c == '{' || c == '}' || c == '^' || c == '$' || c == '#'
        || c == '&' || c == '-' || c == '~'
}

/// `c` as a regular expression that matches exactly `c`.
pub open spec fn escaped(c: char) -> Seq<char> {
    if is_meta(c) {
        seq!['\\', c]
    } else {
        seq![c]
    }
}

/// What one character of a wildcard pattern becomes in the regular expression.
pub open spec fn piece(c: char) -> Seq<char> {
    if c == '*' {
        seq!['.', '*']
    } else if c == ',' {
        seq!['|']
    } else {
        escaped(c)
    }
}

/// The alternatives of a wildcard pattern, translated character by character.
pub open spec fn translated(p: Seq<char>) -> Seq<char>
    decreases p.len(),
{
    if p.len() == 0 {
        seq![]
    } else {
        translated(p.drop_last()) + piece(p.last())
    }
}

/// The start of every translated pattern: `(?s)^(?:`. The flag lets `.`
/// match line breaks too.
pub open spec fn regex_head() -> Seq<char> {
    seq!['(', '?', 's', ')', '^', '(', '?', ':']
}

/// The end of every translated pattern: `)$`.
pub open spec fn regex_tail() -> Seq<char> {
    seq![')', '$']
}

/// The anchored regular expression that a wildcard pattern stands for.
pub open spec fn pattern_regex(p: Seq<char>) -> Seq<char> {
    regex_head() + translated(p) + regex_tail()
}

proof fn lemma_translated_concat(a: Seq<char>, b: Seq<char>)
    ensures
        translated(a + b) == translated(a) + translated(b),
    decreases b.len(),
{
    if b.len() == 0 {
        assert(a + b =~= a);
        assert(translated(a) + translated(b) =~= translated(a));
    } else {
        lemma_translated_concat(a, b.drop_last());
        assert((a + b).drop_last() =~= a + b.drop_last());
        assert((a + b).last() == b.last());
        assert(translated(a) + (translated(b.drop_last()) + piece(b.last())) =~= (translated(a)
            + translated(b.drop_last())) + piece(b.last()));
    }
}

/// The two sides of a comma are translated on their own and joined as
/// alternatives of the regular expression.
pub proof fn lemma_comma_separates_alternatives(a: Seq<char>, b: Seq<char>)
    ensures
        translated(a + seq![','] + b) == translated(a) + seq!['|'] + translated(b),
{
    lemma_translated_concat(a + seq![','], b);
    lemma_translated_concat(a, seq![',']);
    let comma: Seq<char> = seq![','];
    assert(comma.drop_last() =~= Seq::<char>::empty());
    assert(comma.last() == ',');
    assert(translated(comma.drop_last()) == Seq::<char>::empty());
    assert(translated(comma) =~= seq!['|']);
}

/// Whether `c` must be escaped in a regular expression.
pub fn is_meta_char(c: char) -> (r: bool)
    ensures
        r == is_meta(c),
{
    match c {
        '\\' | '.' | '+' | '*' | '?' | '(' | ')' | '|' | '[' | ']' | '{' | '}' | '^' | '$' | '#'
        | '&' | '-' | '~' => true,
        _ => false,
    }
}

fn push_piece(out: &mut String, c: char)
    ensures
        final(out)@ == old(out)@ + piece(c),
{
    if c == '*' {
        push_char(out, '.');
        push_char(out, '*');
    } else if c == ',' {
        push_char(out, '|');
    } else {
        if is_meta_char(c) {
            push_char(out, '\\');
        }
        push_char(out, c);
    }
    assert(final(out)@ =~= old(out)@ + piece(c));
}

/// Translates a wildcard pattern into the anchored regular expression for it.
pub fn files_name_as_regex(pattern: &str) -> (r: String)
    ensures
        r@ == pattern_regex(pattern@),
{
    let cs = chars_of(pattern);
    let mut out = String::new();
    push_char(&mut out, '(');
    push_char(&mut out, '?');
    push_char(&mut out, 's');
    push_char(&mut out, ')');
    push_char(&mut out, '^');
    push_char(&mut out, '(');
    push_char(&mut out, '?');
    push_char(&mut out, ':');
    assert(out@ =~= regex_head() + translated(cs@.subrange(0, 0)));
    let mut i: usize = 0;
    while i < cs.len()
        invariant
            i <= cs.len(),
            cs@ == pattern@,
            out@ == regex_head() + translated(cs@.subrange(0, i as int)),
        decreases cs.len() - i,
    {
        push_piece(&mut out, cs[i]);
        i = i + 1;
        assert(cs@.subrange(0, i as int).drop_last() =~= cs@.subrange(0, i - 1 as int));
        assert(out@ =~= regex_head() + translated(cs@.subrange(0, i as int)));
    }
    push_char(&mut out, ')');
    push_char(&mut out, '$');
    assert(cs@.subrange(0, cs.len() as int) =~= pattern@);
    assert(out@ =~= pattern_regex(pattern@));
    out
}

/// Why a wildcard pattern could not be compiled.
#[derive(Debug, PartialEq, Eq)]
pub enum PatternError {
    /// The regular-expression engine refused the translation of this pattern.
    Regex(String),
}

/// A compiled wildcard pattern.
pub struct Pattern {
    rule: RegexRule,
}

impl View for Pattern {
    type V = Seq<char>;

    /// The regular expression that the pattern was compiled into.
    closed spec fn view(&self) -> Seq<char> {
        self.rule@
    }
}

impl Pattern {
    /// Compiles a wildcard pattern; on success its expression is exactly
    /// `pattern_regex(pattern@)`. It fails only where the engine refuses that
    /// expression, which the escaping leaves to its size limit.
    pub fn compile(pattern: &str) -> (r: Result<Pattern, PatternError>)
        ensures
            r is Ok == regex_compiles(pattern_regex(pattern@)),
            r matches Ok(p) ==> p@ == pattern_regex(pattern@),
            r matches Err(PatternError::Regex(s)) ==> s@ == pattern@,
    {
        let text = files_name_as_regex(pattern);
        match RegexRule::compile(text) {
            Ok(rule) => Ok(Pattern { rule }),
            Err(_) => Err(PatternError::Regex(pattern.to_owned())),
        }
    }

    /// Whether the whole of `name` matches the pattern.
    pub fn matches(&self, name: &str) -> (r: bool)
        ensures
            r == regex_finds(self@, name@),
    {
        self.rule.is_match(name)
    }
}

} // verus!
