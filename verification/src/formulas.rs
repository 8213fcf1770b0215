//! The formula engine, as its host sees it: the evaluation of a formula or
//! of the text of a cell, the references that a formula names, and the
//! balancing of parentheses before a formula is stored.

use vstd::prelude::*;

use crate::evaluation::Evaluation;
use crate::evaluation::opened;
use crate::evaluation::started;
use crate::evaluation::started_text;
use crate::lexer::lexed;
use crate::lexer::parse_formula;
use crate::reference_set::ReferenceSet;
use crate::reference_set::union_of;
use crate::references::Reference;
use crate::text::chars_of;
use crate::text::string_of;
use crate::tokens::FormulaError;
use crate::tokens::TokenView;
use crate::tokens::views;

verus! {

/// Starts the evaluation of a formula, given without its leading `=`.
pub fn eval_formula(formula: &str) -> (evaluation: Evaluation)
    ensures
        evaluation@ == started(formula@, None),
{
    Evaluation::of_formula(formula, None)
}

/// Starts the evaluation of the text of a cell: of its formula where it
/// starts with `=`; else the evaluation is over at once, with the text as a
/// number, a boolean or a string.
pub fn cell_to_token(cell_value: &str) -> (evaluation: Evaluation)
    ensures
        evaluation@ == started_text(cell_value@, None),
{
    Evaluation::of_text(cell_value, None)
}

/// The references that the first `n` of `tokens` name, in ascending order.
pub open spec fn references_among(tokens: Seq<TokenView>, n: int) -> Seq<Reference>
    decreases n,
{
    if n <= 0 {
        Seq::empty()
    } else {
        match tokens[n - 1].refs {
            Some(refs) => union_of(references_among(tokens, n - 1), refs),
            None => references_among(tokens, n - 1),
        }
    }
}

/// The references that a formula names, without evaluating it: the corners
/// of a range, not the cells between them.
pub fn extract_references(text: &str) -> (found: Result<ReferenceSet, FormulaError>)
    ensures
        found matches Ok(set) ==> lexed(text@) matches Some(tokens) && set@ == references_among(
            tokens,
            tokens.len() as int,
        ),
        found matches Err(error) ==> lexed(text@) is None && error == FormulaError::Lex,
{
    let tokens = parse_formula(text)?;
    let ghost all = views(tokens@);
    let mut set = ReferenceSet::new();
    let mut i: usize = 0;
    while i < tokens.len()
        invariant
            i <= tokens.len(),
            all == views(tokens@),
            set@ == references_among(all, i as int),
        decreases tokens.len() - i,
    {
        assert(all[i as int] == tokens@[i as int]@);
        if let Some(refs) = &tokens[i].reference_set {
            set = set.union(refs);
        }
        i += 1;
    }
    Ok(set)
}

/// How often `c` occurs in `s`.
pub open spec fn count_of(s: Seq<char>, c: char) -> nat
    decreases s.len(),
{
    if s.len() == 0 {
        0
    } else if s.last() == c {
        count_of(s.drop_last(), c) + 1
    } else {
        count_of(s.drop_last(), c)
    }
}

/// How many `)` the text lacks: the number of `(` over that of `)`, or none.
pub open spec fn missing_parens(s: Seq<char>) -> nat {
    if count_of(s, '(') > count_of(s, ')') {
        (count_of(s, '(') - count_of(s, ')')) as nat
    } else {
        0
    }
}

/// `n` closing parentheses.
pub open spec fn closing(n: nat) -> Seq<char> {
    Seq::new(n, |i: int| ')')
}

/// `s` with the `)` that it lacks at its end.
pub open spec fn balanced(s: Seq<char>) -> Seq<char> {
    s + closing(missing_parens(s))
}

proof fn lemma_count_closing(n: nat)
    ensures
        count_of(closing(n), ')') == n,
        count_of(closing(n), '(') == 0,
    decreases n,
{
    if n > 0 {
        assert(closing(n).drop_last() =~= closing((n - 1) as nat));
        lemma_count_closing((n - 1) as nat);
    }
}

proof fn lemma_count_add(a: Seq<char>, b: Seq<char>, c: char)
    ensures
        count_of(a + b, c) == count_of(a, c) + count_of(b, c),
    decreases b.len(),
{
    if b.len() == 0 {
        assert(a + b =~= a);
    } else {
        assert((a + b).drop_last() =~= a + b.drop_last());
        lemma_count_add(a, b.drop_last(), c);
    }
}

/// Balancing keeps the text as the start of the result and adds only what is
/// missing: the result lacks nothing, so balancing it again changes nothing;
/// and where the text has no more `)` than `(`, the result has as many of the
/// one as of the other.
pub proof fn lemma_balanced(s: Seq<char>)
    ensures
        balanced(balanced(s)) == balanced(s),
        balanced(s).len() >= s.len(),
        balanced(s).subrange(0, s.len() as int) == s,
        count_of(s, ')') <= count_of(s, '(') ==> count_of(balanced(s), '(') == count_of(
            balanced(s),
            ')',
        ),
        missing_parens(balanced(s)) == 0,
{
    let tail = closing(missing_parens(s));
    lemma_count_closing(missing_parens(s));
    lemma_count_add(s, tail, '(');
    lemma_count_add(s, tail, ')');
    assert(balanced(s).subrange(0, s.len() as int) =~= s);
    assert(missing_parens(balanced(s)) == 0);
    assert(closing(0) =~= Seq::<char>::empty());
    assert(balanced(s) + closing(0) =~= balanced(s));
}

/// Appends to `text` as many `)` as it has `(` without one; no character is
/// removed.
pub fn balance_parens(text: &str) -> (out: String)
    ensures
        out@ == balanced(text@),
{
    let mut chars = chars_of(text);
    let ghost s = chars@;
    let mut opened: usize = 0;
    let mut closed: usize = 0;
    let mut i: usize = 0;
    while i < chars.len()
        invariant
            i <= chars.len(),
            s == chars@,
            opened == count_of(s.take(i as int), '('),
            closed == count_of(s.take(i as int), ')'),
            opened <= i,
            closed <= i,
        decreases chars.len() - i,
    {
        assert(s.take(i + 1).drop_last() =~= s.take(i as int));
        if chars[i] == '(' {
            opened += 1;
        } else if chars[i] == ')' {
            closed += 1;
        }
        i += 1;
    }
    assert(s.take(s.len() as int) =~= s);
    let missing: usize = if opened > closed {
        opened - closed
    } else {
        0
    };
    let mut added: usize = 0;
    while added < missing
        invariant
            added <= missing,
            chars@ == s + closing(added as nat),
        decreases missing - added,
    {
        chars.push(')');
        added += 1;
        assert(chars@ =~= s + closing(added as nat));
    }
    string_of(&chars)
}

} // verus!
