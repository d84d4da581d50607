//! Exclusion rules: directories whose paths they match are not descended into.
//!
//! The exclusion argument is a comma-separated list of regular expressions;
//! empty items are ignored. A rule matches a path when the expression is
//! found anywhere in it.
use vstd::prelude::*;

use crate::regex_rule::{regex_compiles, regex_finds, RegexRule};
use crate::text::{chars_of, push_char};

verus! {

/// The items of `s` between commas, empty ones included, in order.
pub open spec fn split_commas(s: Seq<char>) -> Seq<Seq<char>>
    decreases s.len(),
{
    if s.len() == 0 {
        seq![seq![]]
    } else {
        let r = split_commas(s.drop_last());
        if s.last() == ',' {
            r.push(seq![])
        } else {
            r.update(r.len() - 1, r.last().push(s.last()))
        }
    }
}

/// The non-empty items of `items`, in order.
pub open spec fn non_empty(items: Seq<Seq<char>>) -> Seq<Seq<char>>
    decreases items.len(),
{
    if items.len() == 0 {
        seq![]
    } else {
        let r = non_empty(items.drop_last());
        if items.last().len() > 0 {
            r.push(items.last())
        } else {
            r
        }
    }
}

/// The rules that an exclusion argument lists.
pub open spec fn rule_texts(arg: Seq<char>) -> Seq<Seq<char>> {
    non_empty(split_commas(arg))
}

/// Whether the engine accepts every rule of `rules`.
pub open spec fn all_compile(rules: Seq<Seq<char>>) -> bool {
    forall|i: int| 0 <= i < rules.len() ==> regex_compiles(#[trigger] rules[i])
}

/// Whether `rule` is the first rule of `rules` that the engine refuses.
pub open spec fn first_refused(rules: Seq<Seq<char>>, rule: Seq<char>) -> bool {
    exists|i: int|
        0 <= i < rules.len() && #[trigger] rules[i] == rule && !regex_compiles(rule) && all_compile(
            rules.subrange(0, i),
        )
}

/// Whether any of `rules` matches `path`.
pub open spec fn excluded_by(rules: Seq<Seq<char>>, path: Seq<char>) -> bool {
    exists|i: int| 0 <= i < rules.len() && regex_finds(#[trigger] rules[i], path)
}

proof fn lemma_map_push<A, B>(s: Seq<A>, x: A, f: spec_fn(A) -> B)
    ensures
        s.push(x).map_values(f) == s.map_values(f).push(f(x)),
{
    assert(s.push(x).map_values(f) =~= s.map_values(f).push(f(x)));
}

/// Splits an exclusion argument at its commas and drops the empty items.
pub fn exclusion_texts(arg: &str) -> (r: Vec<String>)
    ensures
        r@.map_values(|t: String| t@) == rule_texts(arg@),
{
    let cs = chars_of(arg);
    let mut done: Vec<String> = Vec::new();
    let mut cur = String::new();
    let ghost mut closed: Seq<Seq<char>> = seq![];
    let mut i: usize = 0;
    assert(cs@.subrange(0, 0) =~= seq![]);
    while i < cs.len()
        invariant
            i <= cs.len(),
            cs@ == arg@,
            split_commas(cs@.subrange(0, i as int)) == closed.push(cur@),
            non_empty(closed) == done@.map_values(|t: String| t@),
        decreases cs.len() - i,
    {
        let c = cs[i];
        let ghost prev = cs@.subrange(0, i as int);
        i = i + 1;
        assert(cs@.subrange(0, i as int).drop_last() =~= prev);
        if c == ',' {
            let ghost old_closed = closed;
            proof {
                closed = closed.push(cur@);
                assert(closed.drop_last() =~= old_closed);
            }
            if !cur.as_str().is_empty() {
                assert(cur@.len() > 0);
                let ghost before = done@;
                done.push(cur);
                proof {
                    lemma_map_push(before, done@.last(), |t: String| t@);
                }
                assert(done@.map_values(|t: String| t@) =~= non_empty(closed));
            } else {
                assert(cur@.len() == 0);
            }
            cur = String::new();
        } else {
            push_char(&mut cur, c);
            assert(split_commas(cs@.subrange(0, i as int)) =~= closed.push(cur@));
        }
    }
    assert(cs@.subrange(0, i as int) =~= arg@);
    assert(rule_texts(arg@) == non_empty(closed.push(cur@)));
    assert(closed.push(cur@).drop_last() =~= closed);
    if !cur.as_str().is_empty() {
        assert(cur@.len() > 0);
        let ghost before = done@;
        done.push(cur);
        proof {
            lemma_map_push(before, done@.last(), |t: String| t@);
        }
        assert(done@.map_values(|t: String| t@) =~= rule_texts(arg@));
    } else {
        assert(cur@.len() == 0);
    }
    done
}

/// An exclusion argument that holds a rule the regular-expression engine refuses.
#[derive(Debug, PartialEq, Eq)]
pub struct ExclusionError {
    /// The refused rule.
    pub rule: String,
}

/// The compiled exclusion rules. With no rule, nothing is excluded.
pub struct ExclusionSet {
    rules: Vec<RegexRule>,
}

impl View for ExclusionSet {
    type V = Seq<Seq<char>>;

    /// The source text of each rule, in the order of the argument.
    closed spec fn view(&self) -> Seq<Seq<char>> {
        self.rules@.map_values(|r: RegexRule| r@)
    }
}

impl ExclusionSet {
    /// The set with no rule.
    pub fn empty() -> (r: ExclusionSet)
        ensures
            r@ == Seq::<Seq<char>>::empty(),
    {
        let r = ExclusionSet { rules: Vec::new() };
        assert(r@ =~= Seq::<Seq<char>>::empty());
        r
    }

    /// Compiles every rule of a comma-separated exclusion argument; fails,
    /// naming the first rule that the engine refuses, exactly when there is one.
    pub fn parse(arg: &str) -> (r: Result<ExclusionSet, ExclusionError>)
        ensures
            r is Ok == all_compile(rule_texts(arg@)),
            r matches Ok(set) ==> set@ == rule_texts(arg@),
            r matches Err(e) ==> first_refused(rule_texts(arg@), e.rule@),
    {
        let texts = exclusion_texts(arg);
        let ghost all = texts@.map_values(|t: String| t@);
        let mut rules: Vec<RegexRule> = Vec::new();
        let mut i: usize = 0;
        while i < texts.len()
            invariant
                i <= texts.len(),
                all == texts@.map_values(|t: String| t@),
                all == rule_texts(arg@),
                rules@.map_values(|r: RegexRule| r@) == all.subrange(0, i as int),
                all_compile(all.subrange(0, i as int)),
            decreases texts.len() - i,
        {
            let text = texts[i].clone();
            assert(all[i as int] == texts@[i as int]@);
            match RegexRule::compile(text) {
                Ok(rule) => {
                    let ghost before = rules@;
                    rules.push(rule);
                    proof {
                        lemma_map_push(before, rules@.last(), |r: RegexRule| r@);
                    }
                },
                Err(_) => {
                    let bad = texts[i].clone();
                    assert(all[i as int] == bad@);
                    assert(!all_compile(all));
                    assert(first_refused(all, bad@));
                    return Err(ExclusionError { rule: bad });
                },
            }
            i = i + 1;
            assert(rules@.map_values(|r: RegexRule| r@) =~= all.subrange(0, i as int));
            assert forall|j: int| 0 <= j < i implies regex_compiles(
                #[trigger] all.subrange(0, i as int)[j],
            ) by {
                if j < i - 1 {
                    assert(all.subrange(0, i as int)[j] == all.subrange(0, i - 1 as int)[j]);
                }
            }
        }
        assert(all.subrange(0, i as int) =~= all);
        Ok(ExclusionSet { rules })
    }

    /// Whether any rule matches `path`.
    pub fn excludes(&self, path: &str) -> (r: bool)
        ensures
            r == excluded_by(self@, path@),
    {
        let mut i: usize = 0;
        while i < self.rules.len()
            invariant
                i <= self.rules.len(),
                forall|j: int| 0 <= j < i ==> !regex_finds(#[trigger] self@[j], path@),
            decreases self.rules.len() - i,
        {
            if self.rules[i].is_match(path) {
                assert(regex_finds(self@[i as int], path@));
                return true;
            }
            i = i + 1;
        }
        false
    }
}

} // verus!
