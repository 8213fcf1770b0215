//! The lexer: from the text of a formula to its tokens.
//!
//! Lexing runs in three passes. The first scans the characters into raw
//! tokens. The second settles the lexemes that have two meanings: a minus is
//! a subtraction or a negation, a comma joins references or separates
//! arguments, a space intersects references or means nothing. The third
//! counts the arguments of each function call.

use vstd::prelude::*;

use crate::formula_functions::function_named;
use crate::formula_functions::function_of_chars;
use crate::reference_set::ReferenceSet;
use crate::references::reference_of_chars;
use crate::references::reference_of_text;
use crate::text::chars_of;
use crate::text::digit;
use crate::text::is_digit;
use crate::text::is_letter;
use crate::text::lemma_run_end;
use crate::text::letter;
use crate::text::run_end;
use crate::text::scan_run;
use crate::text::spells;
use crate::text::string_from;
use crate::text::string_of;
use crate::text::to_upper;
use crate::text::upper_text;
use crate::text::CharClass;
use crate::tokens::double_symbol;
use crate::tokens::double_symbol_of;
use crate::tokens::function_token;
use crate::tokens::lemma_views_push;
use crate::tokens::operator_symbol;
use crate::tokens::plain;
use crate::tokens::reference_token;
use crate::tokens::single_symbol;
use crate::tokens::single_symbol_of;
use crate::tokens::symbol_of;
use crate::tokens::views;
use crate::tokens::FormulaError;
use crate::tokens::Symbol;
use crate::tokens::Token;
use crate::tokens::TokenType;
use crate::tokens::TokenView;

verus! {

/// What a character adds to the depth of parentheses.
pub open spec fn paren_step(c: char) -> int {
    if c == '(' {
        1
    } else if c == ')' {
        -1
    } else {
        0
    }
}

/// The first index at or after `at` where the depth of parentheses, `depth`
/// before the character at `at`, is back at zero.
pub open spec fn close_paren_from(s: Seq<char>, at: int, depth: int) -> Option<int>
    decreases s.len() - at,
{
    if at < 0 || at >= s.len() {
        None
    } else if depth + paren_step(s[at]) == 0 {
        Some(at)
    } else {
        close_paren_from(s, at + 1, depth + paren_step(s[at]))
    }
}

/// The index of the parenthesis that closes the one at `start`, by depth
/// alone.
fn close_paren_in(chars: &Vec<char>, start: usize) -> (closing: Option<usize>)
    ensures
        closing matches Some(q) ==> start <= q < chars@.len() && close_paren_from(
            chars@,
            start as int,
            0,
        ) == Some(q as int),
        closing is None ==> close_paren_from(chars@, start as int, 0) is None,
{
    let mut depth: i128 = 0;
    let mut at: usize = start;
    while at < chars.len()
        invariant
            start <= at,
            -(at - start) <= depth <= at - start,
            close_paren_from(chars@, start as int, 0) == close_paren_from(
                chars@,
                at as int,
                depth as int,
            ),
        decreases chars.len() - at,
    {
        let c = chars[at];
        if c == '(' {
            depth += 1;
        } else if c == ')' {
            depth -= 1;
        }
        if depth == 0 {
            return Some(at);
        }
        at += 1;
    }
    None
}

/// The index of the parenthesis that closes the one at `start_idx`: the
/// first index from `start_idx` on at which as many `)` as `(` have been
/// seen. `None` when the text ends first.
pub fn find_close_paren(formula: &str, start_idx: usize) -> (closing: Option<usize>)
    ensures
        closing matches Some(q) ==> start_idx <= q < formula@.len() && close_paren_from(
            formula@,
            start_idx as int,
            0,
        ) == Some(q as int),
        closing is None ==> close_paren_from(formula@, start_idx as int, 0) is None,
{
    let chars = chars_of(formula);
    close_paren_in(&chars, start_idx)
}

/// The index of the double quote that closes the string opened at
/// `opening`: the first one after it. An error where the text ends first.
pub fn naive_parse_string(text: &str, opening: usize) -> (closing: Result<usize, ()>)
    ensures
        closing matches Ok(q) ==> opening < q < text@.len() && q == run_end(
            text@,
            opening + 1,
            CharClass::Unquoted,
        ),
        closing is Err ==> opening >= text@.len() || run_end(
            text@,
            opening + 1,
            CharClass::Unquoted,
        ) >= text@.len(),
{
    let chars = chars_of(text);
    if opening >= chars.len() {
        return Err(());
    }
    let end = scan_run(&chars, opening + 1, CharClass::Unquoted);
    if end < chars.len() {
        Ok(end)
    } else {
        Err(())
    }
}

/// `token` in front of `rest`, where there is a rest.
pub open spec fn leading(token: TokenView, rest: Option<Seq<TokenView>>) -> Option<
    Seq<TokenView>,
> {
    match rest {
        Some(tokens) => Some(seq![token] + tokens),
        None => None,
    }
}

/// `prefix` in front of `rest`, where there is a rest.
pub open spec fn extended(prefix: Seq<TokenView>, rest: Option<Seq<TokenView>>) -> Option<
    Seq<TokenView>,
> {
    match rest {
        Some(tokens) => Some(prefix + tokens),
        None => None,
    }
}

/// The raw tokens of `s` from `at` on, or `None` where a function's name is
/// not followed by `(`. `closers` holds the indices of the parentheses that
/// close the function calls opened before `at`.
///
/// At each position, in this order: a run of digits is a number; an operator
/// character is an operator, together with the next character where the two
/// spell a comparison; a letter starts a word of letters and digits, which
/// in upper case is a boolean, a function's name, a reference, or nothing; a
/// double quote starts a string, which ends at the next one or with the
/// text; parentheses stand for themselves; anything else is skipped.
pub open spec fn scan(s: Seq<char>, at: int, closers: Set<int>) -> Option<Seq<TokenView>>
    decreases s.len() - at,
    via scan_decreases
{
    if at < 0 || at >= s.len() {
        Some(Seq::empty())
    } else if is_digit(s[at]) {
        let end = run_end(s, at, CharClass::Digit);
        leading(plain(TokenType::Number, s.subrange(at, end)), scan(s, end, closers))
    } else if single_symbol(s[at]) is Some {
        if at + 1 < s.len() && double_symbol(s[at], s[at + 1]) is Some {
            leading(
                plain(TokenType::Operator, s.subrange(at, at + 2)),
                scan(s, at + 2, closers),
            )
        } else {
            leading(
                plain(TokenType::Operator, s.subrange(at, at + 1)),
                scan(s, at + 1, closers),
            )
        }
    } else if is_letter(s[at]) {
        let end = run_end(s, at, CharClass::Alphanumeric);
        let word = upper_text(s.subrange(at, end));
        if word == "TRUE"@ || word == "FALSE"@ {
            leading(plain(TokenType::Boolean, word), scan(s, end, closers))
        } else if function_named(word) is Some {
            if end < s.len() && s[end] == '(' {
                leading(
                    function_token(word, 0),
                    scan(
                        s,
                        end + 1,
                        match close_paren_from(s, end, 0) {
                            Some(q) => closers.insert(q),
                            None => closers,
                        },
                    ),
                )
            } else {
                None
            }
        } else {
            match reference_of_text(word) {
                Some(r) => leading(reference_token(seq![r]), scan(s, end, closers)),
                None => scan(s, end, closers),
            }
        }
    } else if s[at] == '(' {
        leading(plain(TokenType::LeftParen, Seq::empty()), scan(s, at + 1, closers))
    } else if s[at] == ')' {
        leading(
            plain(
                if closers.contains(at) {
                    TokenType::FuncClose
                } else {
                    TokenType::RightParen
                },
                Seq::empty(),
            ),
            scan(s, at + 1, closers),
        )
    } else if s[at] == '"' {
        let end = run_end(s, at + 1, CharClass::Unquoted);
        leading(
            plain(TokenType::String, s.subrange(at + 1, end)),
            scan(
                s,
                if end < s.len() {
                    end + 1
                } else {
                    end
                },
                closers,
            ),
        )
    } else {
        scan(s, at + 1, closers)
    }
}

#[via_fn]
proof fn scan_decreases(s: Seq<char>, at: int, closers: Set<int>) {
    if 0 <= at < s.len() {
        lemma_run_end(s, at + 1, CharClass::Digit);
        lemma_run_end(s, at + 1, CharClass::Alphanumeric);
        lemma_run_end(s, at + 1, CharClass::Unquoted);
    }
}

/// The indices that `v` holds.
pub open spec fn positions(v: Seq<usize>) -> Set<int> {
    Set::new(|q: int| exists|k: int| 0 <= k < v.len() && v[k] == q)
}

/// Whether `v` holds `q`.
fn holds(v: &Vec<usize>, q: usize) -> (found: bool)
    ensures
        found == positions(v@).contains(q as int),
{
    let mut k: usize = 0;
    while k < v.len()
        invariant
            k <= v.len(),
            forall|m: int| 0 <= m < k ==> v@[m] != q,
        decreases v.len() - k,
    {
        if v[k] == q {
            return true;
        }
        k += 1;
    }
    false
}

proof fn lemma_extended_leading(
    prefix: Seq<TokenView>,
    token: TokenView,
    rest: Option<Seq<TokenView>>,
)
    ensures
        extended(prefix, leading(token, rest)) == extended(prefix.push(token), rest),
{
    if let Some(tokens) = rest {
        assert(prefix + (seq![token] + tokens) =~= prefix.push(token) + tokens);
    }
}

/// The first pass: the raw tokens of `chars`.
fn scan_tokens(chars: &Vec<char>) -> (raw: Option<Vec<Token>>)
    ensures
        raw matches Some(tokens) ==> scan(chars@, 0, Set::empty()) == Some(views(tokens@)),
        raw is None ==> scan(chars@, 0, Set::empty()) is None,
{
    let ghost s = chars@;
    let mut tokens: Vec<Token> = Vec::new();
    let mut closers: Vec<usize> = Vec::new();
    let mut at: usize = 0;
    proof {
        assert(positions(closers@) =~= Set::<int>::empty());
        if let Some(all) = scan(s, 0, Set::empty()) {
            assert(views(tokens@) + all =~= all);
        }
    }
    while at < chars.len()
        invariant
            s == chars@,
            at <= chars.len(),
            scan(s, 0, Set::empty()) == extended(
                views(tokens@),
                scan(s, at as int, positions(closers@)),
            ),
        decreases chars.len() - at,
    {
        let c = chars[at];
        let ghost before = views(tokens@);
        let ghost marks = positions(closers@);
        if digit(c) {
            let end = scan_run(chars, at, CharClass::Digit);
            proof {
                lemma_run_end(s, at + 1, CharClass::Digit);
            }
            let token = Token::new(TokenType::Number, string_from(chars, at, end));
            proof {
                lemma_extended_leading(before, token@, scan(s, end as int, marks));
                lemma_views_push(tokens@, token);
            }
            tokens.push(token);
            at = end;
        } else if single_symbol_of(c).is_some() {
            let wide = at + 1 < chars.len() && double_symbol_of(c, chars[at + 1]).is_some();
            let end = if wide {
                at + 2
            } else {
                at + 1
            };
            let token = Token::new(TokenType::Operator, string_from(chars, at, end));
            proof {
                lemma_extended_leading(before, token@, scan(s, end as int, marks));
                lemma_views_push(tokens@, token);
            }
            tokens.push(token);
            at = end;
        } else if letter(c) {
            let end = scan_run(chars, at, CharClass::Alphanumeric);
            proof {
                lemma_run_end(s, at + 1, CharClass::Alphanumeric);
            }
            let mut word: Vec<char> = Vec::new();
            let mut k: usize = at;
            while k < end
                invariant
                    at <= k <= end <= chars.len(),
                    word@ == chars@.subrange(at as int, k as int),
                decreases end - k,
            {
                word.push(chars[k]);
                k += 1;
                assert(chars@.subrange(at as int, k as int) =~= chars@.subrange(
                    at as int,
                    k - 1,
                ).push(chars@[k - 1]));
            }
            let upper = to_upper(&word);
            if spells(&upper, "TRUE") || spells(&upper, "FALSE") {
                let token = Token::of_chars(TokenType::Boolean, &upper);
                proof {
                    lemma_extended_leading(before, token@, scan(s, end as int, marks));
                    lemma_views_push(tokens@, token);
                }
                tokens.push(token);
                at = end;
            } else if function_of_chars(&upper).is_some() {
                if end < chars.len() && chars[end] == '(' {
                    let token = Token::function(string_of(&upper), 0);
                    let closing = close_paren_in(chars, end);
                    let ghost new_marks = match close_paren_from(s, end as int, 0) {
                        Some(q) => marks.insert(q),
                        None => marks,
                    };
                    if let Some(q) = closing {
                        let ghost prior = closers@;
                        closers.push(q);
                        assert(positions(closers@) =~= new_marks) by {
                            assert forall|p: int| positions(closers@).contains(p) implies new_marks.contains(
                                p,
                            ) by {
                                let m = choose|m: int| 0 <= m < closers@.len() && closers@[m] == p;
                                if m < prior.len() {
                                    assert(prior[m] == p);
                                }
                            }
                            assert forall|p: int| new_marks.contains(p) implies positions(
                                closers@,
                            ).contains(p) by {
                                if p == q {
                                    assert(closers@[closers@.len() - 1] == p);
                                } else {
                                    let m = choose|m: int| 0 <= m < prior.len() && prior[m] == p;
                                    assert(closers@[m] == p);
                                }
                            }
                        }
                    }
                    proof {
                        lemma_extended_leading(before, token@, scan(s, end + 1, new_marks));
                        lemma_views_push(tokens@, token);
                    }
                    tokens.push(token);
                    at = end + 1;
                } else {
                    return None;
                }
            } else {
                match reference_of_chars(&upper) {
                    Some(r) => {
                        let token = Token::reference(ReferenceSet::single(r));
                        proof {
                            lemma_extended_leading(before, token@, scan(s, end as int, marks));
                            lemma_views_push(tokens@, token);
                        }
                        tokens.push(token);
                    },
                    None => {},
                }
                at = end;
            }
        } else if c == '(' || c == ')' {
            let kind = if c == '(' {
                TokenType::LeftParen
            } else if holds(&closers, at) {
                TokenType::FuncClose
            } else {
                TokenType::RightParen
            };
            let token = Token::new(kind, String::new());
            proof {
                lemma_extended_leading(before, token@, scan(s, at + 1, marks));
                lemma_views_push(tokens@, token);
            }
            tokens.push(token);
            at += 1;
        } else if c == '"' {
            let end = scan_run(chars, at + 1, CharClass::Unquoted);
            let token = Token::new(TokenType::String, string_from(chars, at + 1, end));
            let next = if end < chars.len() {
                end + 1
            } else {
                end
            };
            proof {
                lemma_extended_leading(before, token@, scan(s, next as int, marks));
                lemma_views_push(tokens@, token);
            }
            tokens.push(token);
            at = next;
        } else {
            at += 1;
        }
    }
    proof {
        assert(views(tokens@) + Seq::<TokenView>::empty() =~= views(tokens@));
    }
    Some(tokens)
}


/// The kind of the token at `i`, if there is one.
pub open spec fn kind_at(tokens: Seq<TokenView>, i: int) -> Option<TokenType> {
    if 0 <= i < tokens.len() {
        Some(tokens[i].kind)
    } else {
        None
    }
}

/// `token` is the operator `symbol`.
pub open spec fn is_operator(token: TokenView, symbol: Symbol) -> bool {
    token.kind == TokenType::Operator && symbol_of(token.content) == Some(symbol)
}

/// The token at `i` stands between two references.
pub open spec fn between_references(tokens: Seq<TokenView>, i: int) -> bool {
    kind_at(tokens, i - 1) == Some(TokenType::Reference) && kind_at(tokens, i + 1) == Some(
        TokenType::Reference,
    )
}

/// The token at `i` comes after something that a subtraction can take as its
/// left operand: a number, a reference, a closing parenthesis or a percent
/// sign.
pub open spec fn follows_operand(tokens: Seq<TokenView>, i: int) -> bool {
    0 < i <= tokens.len() && (tokens[i - 1].kind == TokenType::Number || tokens[i - 1].kind
        == TokenType::Reference || tokens[i - 1].kind == TokenType::RightParen || tokens[i
        - 1].kind == TokenType::FuncClose || is_operator(tokens[i - 1], Symbol::Percent))
}

/// The text of the negation operator.
pub open spec fn negation_text() -> Seq<char> {
    seq!['-', '1']
}

/// What the second pass makes of the raw token at `i`: a minus that follows
/// no operand becomes the negation `-1`; a comma that does not stand between
/// two references becomes an argument separator; a space that does not stand
/// between two references is dropped. Everything else is kept.
pub open spec fn resolved_at(raw: Seq<TokenView>, i: int) -> Option<TokenView> {
    let token = raw[i];
    if is_operator(token, Symbol::Subtract) {
        if follows_operand(raw, i) {
            Some(token)
        } else {
            Some(plain(TokenType::Operator, negation_text()))
        }
    } else if is_operator(token, Symbol::Union) {
        if between_references(raw, i) {
            Some(token)
        } else {
            Some(plain(TokenType::FuncArgSep, token.content))
        }
    } else if is_operator(token, Symbol::Intersect) {
        if between_references(raw, i) {
            Some(token)
        } else {
            None
        }
    } else {
        Some(token)
    }
}

/// What the second pass makes of the first `n` raw tokens.
pub open spec fn resolved(raw: Seq<TokenView>, n: int) -> Seq<TokenView>
    decreases n,
{
    if n <= 0 {
        Seq::empty()
    } else {
        match resolved_at(raw, n - 1) {
            Some(token) => resolved(raw, n - 1).push(token),
            None => resolved(raw, n - 1),
        }
    }
}

/// What a token adds to the depth of function calls.
pub open spec fn call_step(kind: TokenType) -> int {
    match kind {
        TokenType::Function => 1,
        TokenType::FuncClose => -1,
        _ => 0,
    }
}

/// The number of arguments of a call, counted from the token at `at` on:
/// `depth` calls are open before it, `separators` argument separators of the
/// call have been seen, and `first` says that `at` is the token right after
/// the function's.
pub open spec fn count_arguments(
    tokens: Seq<TokenView>,
    at: int,
    depth: int,
    separators: nat,
    first: bool,
) -> nat
    decreases tokens.len() - at,
{
    if at < 0 || at >= tokens.len() {
        separators + 1
    } else if depth + call_step(tokens[at].kind) == 0 {
        if first {
            0
        } else {
            separators + 1
        }
    } else {
        count_arguments(
            tokens,
            at + 1,
            depth + call_step(tokens[at].kind),
            if depth + call_step(tokens[at].kind) == 1 && tokens[at].kind
                == TokenType::FuncArgSep {
                separators + 1
            } else {
                separators
            },
            false,
        )
    }
}

/// The number of arguments of the call that the function token at `i` opens:
/// one more than the separators at its own depth up to its closing token, or
/// to the end where it is never closed; none where it is closed at once.
pub open spec fn arguments_of(tokens: Seq<TokenView>, i: int) -> nat {
    count_arguments(tokens, i + 1, 1, 0, true)
}

/// Every call has few enough arguments for a token to count.
pub open spec fn arities_fit(tokens: Seq<TokenView>) -> bool {
    forall|i: int|
        0 <= i < tokens.len() && tokens[i].kind == TokenType::Function ==> #[trigger] arguments_of(
            tokens,
            i,
        ) <= u8::MAX
}

/// The token at `i` with its number of arguments, where it is a function.
pub open spec fn with_arity_at(tokens: Seq<TokenView>, i: int) -> TokenView {
    if tokens[i].kind == TokenType::Function {
        TokenView {
            kind: tokens[i].kind,
            content: tokens[i].content,
            arity: Some(arguments_of(tokens, i) as u8),
            refs: tokens[i].refs,
        }
    } else {
        tokens[i]
    }
}

/// `tokens`, each function with its number of arguments.
pub open spec fn with_arities(tokens: Seq<TokenView>) -> Seq<TokenView> {
    Seq::new(tokens.len(), |i: int| with_arity_at(tokens, i))
}

/// The tokens of the formula `s`, or `None` where it has none: a function's
/// name is not followed by `(`, the first token is a comma, or a call has
/// more than 255 arguments.
pub open spec fn lexed(s: Seq<char>) -> Option<Seq<TokenView>> {
    match scan(s, 0, Set::empty()) {
        None => None,
        Some(raw) => if raw.len() > 0 && is_operator(raw[0], Symbol::Union) {
            None
        } else if arities_fit(resolved(raw, raw.len() as int)) {
            Some(with_arities(resolved(raw, raw.len() as int)))
        } else {
            None
        },
    }
}

/// Whether `token` is the operator `symbol`.
fn token_is_operator(token: &Token, symbol: Symbol) -> (yes: bool)
    ensures
        yes == is_operator(token@, symbol),
{
    match token.token_type {
        TokenType::Operator => operator_symbol(token.content.as_str()) == Some(symbol),
        _ => false,
    }
}

/// Whether the token at `i` stands between two references.
fn stands_between_references(tokens: &Vec<Token>, i: usize) -> (yes: bool)
    requires
        i < tokens.len(),
    ensures
        yes == between_references(views(tokens@), i as int),
{
    i > 0 && i + 1 < tokens.len() && tokens[i - 1].token_type == TokenType::Reference && tokens[i
        + 1].token_type == TokenType::Reference
}

/// Whether the token at `i` comes after a possible left operand.
fn comes_after_operand(tokens: &Vec<Token>, i: usize) -> (yes: bool)
    requires
        i < tokens.len(),
    ensures
        yes == follows_operand(views(tokens@), i as int),
{
    if i == 0 {
        return false;
    }
    let previous = &tokens[i - 1];
    match previous.token_type {
        TokenType::Number | TokenType::Reference | TokenType::RightParen | TokenType::FuncClose => {
            true
        },
        _ => token_is_operator(previous, Symbol::Percent),
    }
}

/// The second pass: settles the lexemes that have two meanings.
fn resolve_tokens(raw: &Vec<Token>) -> (fixed: Vec<Token>)
    ensures
        views(fixed@) == resolved(views(raw@), raw@.len() as int),
{
    let mut fixed: Vec<Token> = Vec::new();
    let mut i: usize = 0;
    assert(views(fixed@) =~= resolved(views(raw@), 0));
    while i < raw.len()
        invariant
            i <= raw.len(),
            views(fixed@) == resolved(views(raw@), i as int),
        decreases raw.len() - i,
    {
        let token = &raw[i];
        assert(views(raw@)[i as int] == token@);
        if token_is_operator(token, Symbol::Subtract) {
            let kept = if comes_after_operand(raw, i) {
                token.clone()
            } else {
                let mut text: Vec<char> = Vec::new();
                text.push('-');
                text.push('1');
                assert(text@ =~= negation_text());
                Token::of_chars(TokenType::Operator, &text)
            };
            proof {
                lemma_views_push(fixed@, kept);
            }
            fixed.push(kept);
        } else if token_is_operator(token, Symbol::Union) {
            let kept = if stands_between_references(raw, i) {
                token.clone()
            } else {
                Token::new(TokenType::FuncArgSep, token.content.clone())
            };
            proof {
                lemma_views_push(fixed@, kept);
            }
            fixed.push(kept);
        } else if token_is_operator(token, Symbol::Intersect) {
            if stands_between_references(raw, i) {
                let kept = token.clone();
                proof {
                    lemma_views_push(fixed@, kept);
                }
                fixed.push(kept);
            }
        } else {
            let kept = token.clone();
            proof {
                lemma_views_push(fixed@, kept);
            }
            fixed.push(kept);
        }
        i += 1;
    }
    fixed
}

/// The number of arguments of the call opened at `i`, when a token can count
/// it.
fn count_call_arguments(tokens: &Vec<Token>, i: usize) -> (count: Option<u8>)
    requires
        i < tokens.len(),
    ensures
        count matches Some(n) ==> arguments_of(views(tokens@), i as int) == n,
        count is None ==> arguments_of(views(tokens@), i as int) > u8::MAX,
{
    let ghost all = views(tokens@);
    let mut at: usize = i + 1;
    let mut depth: usize = 1;
    let mut separators: usize = 0;
    while at < tokens.len()
        invariant
            all == views(tokens@),
            i < at <= tokens.len(),
            1 <= depth <= at - i,
            separators <= at - i - 1,
            arguments_of(all, i as int) == count_arguments(
                all,
                at as int,
                depth as int,
                separators as nat,
                at == i + 1,
            ),
        decreases tokens.len() - at,
    {
        let kind = tokens[at].token_type;
        assert(all[at as int].kind == kind);
        match kind {
            TokenType::Function => {
                depth += 1;
            },
            TokenType::FuncClose => {
                depth -= 1;
            },
            _ => {},
        }
        if depth == 0 {
            return if at == i + 1 {
                Some(0)
            } else if separators < 255 {
                Some((separators + 1) as u8)
            } else {
                None
            };
        }
        if depth == 1 && kind == TokenType::FuncArgSep {
            separators += 1;
        }
        at += 1;
    }
    if separators < 255 {
        Some((separators + 1) as u8)
    } else {
        None
    }
}

/// The third pass: gives each function its number of arguments.
fn assign_arities(tokens: &Vec<Token>) -> (counted: Option<Vec<Token>>)
    ensures
        counted matches Some(out) ==> arities_fit(views(tokens@)) && views(out@) == with_arities(
            views(tokens@),
        ),
        counted is None ==> !arities_fit(views(tokens@)),
{
    let ghost all = views(tokens@);
    let mut out: Vec<Token> = Vec::new();
    let mut i: usize = 0;
    while i < tokens.len()
        invariant
            all == views(tokens@),
            i <= tokens.len(),
            out@.len() == i,
            forall|k: int| 0 <= k < i ==> (#[trigger] out@[k])@ == with_arity_at(all, k),
            forall|k: int|
                0 <= k < i && all[k].kind == TokenType::Function ==> #[trigger] arguments_of(all, k)
                    <= u8::MAX,
        decreases tokens.len() - i,
    {
        let token = &tokens[i];
        assert(all[i as int] == token@);
        match token.token_type {
            TokenType::Function => {
                match count_call_arguments(tokens, i) {
                    Some(n) => {
                        out.push(
                            Token {
                                token_type: token.token_type,
                                content: token.content.clone(),
                                function_n_args: Some(n),
                                reference_set: match &token.reference_set {
                                    Some(set) => Some(set.clone()),
                                    None => None,
                                },
                            },
                        );
                    },
                    None => {
                        return None;
                    },
                }
            },
            _ => {
                out.push(token.clone());
            },
        }
        i += 1;
    }
    assert(views(out@) =~= with_arities(all));
    Some(out)
}

/// The tokens of a formula, given without its leading `=`.
///
/// Fails on a function's name that is not followed by `(`, on a comma in the
/// first place, and on a call with more than 255 arguments. Strings and
/// parentheses that the text leaves open are let pass.
pub fn parse_formula(formula: &str) -> (parsed: Result<Vec<Token>, FormulaError>)
    ensures
        parsed matches Ok(tokens) ==> lexed(formula@) == Some(views(tokens@)),
        parsed matches Err(error) ==> lexed(formula@) is None && error == FormulaError::Lex,
{
    let chars = chars_of(formula);
    let raw = match scan_tokens(&chars) {
        Some(raw) => raw,
        None => {
            return Err(FormulaError::Lex);
        },
    };
    if raw.len() > 0 {
        assert(views(raw@)[0] == raw@[0]@);
        if token_is_operator(&raw[0], Symbol::Union) {
            return Err(FormulaError::Lex);
        }
    }
    let fixed = resolve_tokens(&raw);
    match assign_arities(&fixed) {
        Some(tokens) => Ok(tokens),
        None => Err(FormulaError::Lex),
    }
}

} // verus!
