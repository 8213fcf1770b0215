//! The reorderer: from tokens in the order of writing to tokens in the order
//! of evaluation, by the shunting-yard method.

use vstd::prelude::*;

use crate::tokens::get_operator_precedence;
use crate::tokens::lemma_views_push;
use crate::tokens::precedence_of;
use crate::tokens::symbol_of;
use crate::tokens::views;
use crate::tokens::Token;
use crate::tokens::TokenType;
use crate::tokens::TokenView;

verus! {

/// Numbers, strings, booleans and references are operands.
pub open spec fn is_operand(kind: TokenType) -> bool {
    kind == TokenType::Number || kind == TokenType::String || kind == TokenType::Boolean || kind
        == TokenType::Reference
}

/// The operands among `tokens`, in their order.
pub open spec fn operands(tokens: Seq<TokenView>) -> Seq<TokenView>
    decreases tokens.len(),
{
    if tokens.len() == 0 {
        Seq::empty()
    } else if is_operand(tokens.last().kind) {
        operands(tokens.drop_last()).push(tokens.last())
    } else {
        operands(tokens.drop_last())
    }
}

/// Where the popping of waiting tokens stops.
#[derive(Clone, Copy, Debug, PartialEq, Eq, Structural)]
pub enum Stop {
    /// At an opening parenthesis.
    Paren,
    /// At an opening parenthesis, a function or an argument separator.
    Group,
    /// At anything but an operator that binds at least this tightly.
    Weaker(u8),
}

/// Whether a waiting `token` on top of the stack is popped to the output.
pub open spec fn pops(stop: Stop, token: TokenView) -> bool {
    match stop {
        Stop::Paren => token.kind != TokenType::LeftParen,
        Stop::Group => token.kind != TokenType::LeftParen && token.kind != TokenType::Function
            && token.kind != TokenType::FuncArgSep,
        Stop::Weaker(precedence) => token.kind == TokenType::Operator && precedence_of(
            symbol_of(token.content),
        ) >= precedence,
    }
}

/// The state of the reorderer: the output so far, the tokens that wait, the
/// last one on top, and whether every closing parenthesis has found its
/// opening one.
pub struct Yard {
    pub output: Seq<TokenView>,
    pub stack: Seq<TokenView>,
    pub balanced: bool,
}

/// `yard` after the waiting tokens have been popped to the output down to
/// where `stop` says.
pub open spec fn popped(yard: Yard, stop: Stop) -> Yard
    decreases yard.stack.len(),
{
    if yard.stack.len() > 0 && pops(stop, yard.stack.last()) {
        popped(
            Yard {
                output: yard.output.push(yard.stack.last()),
                stack: yard.stack.drop_last(),
                balanced: yard.balanced,
            },
            stop,
        )
    } else {
        yard
    }
}

/// `yard` after one more token.
///
/// An operand goes to the output. An opening parenthesis and a function
/// wait. A closing parenthesis pops down to its opening one and removes it;
/// where there is none, the parentheses are unbalanced. An argument
/// separator pops the operators of the argument before it. The end of a call
/// does the same and then moves the function to the output. An operator pops
/// the operators that bind at least as tightly, then waits.
pub open spec fn shunted(yard: Yard, token: TokenView) -> Yard {
    match token.kind {
        TokenType::Number | TokenType::String | TokenType::Boolean | TokenType::Reference => Yard {
            output: yard.output.push(token),
            stack: yard.stack,
            balanced: yard.balanced,
        },
        TokenType::LeftParen | TokenType::Function => Yard {
            output: yard.output,
            stack: yard.stack.push(token),
            balanced: yard.balanced,
        },
        TokenType::RightParen => {
            let low = popped(yard, Stop::Paren);
            if low.stack.len() > 0 {
                Yard { output: low.output, stack: low.stack.drop_last(), balanced: low.balanced }
            } else {
                Yard { output: low.output, stack: low.stack, balanced: false }
            }
        },
        TokenType::FuncArgSep => popped(yard, Stop::Group),
        TokenType::FuncClose => {
            let low = popped(yard, Stop::Group);
            if low.stack.len() > 0 && low.stack.last().kind == TokenType::Function {
                Yard {
                    output: low.output.push(low.stack.last()),
                    stack: low.stack.drop_last(),
                    balanced: low.balanced,
                }
            } else {
                low
            }
        },
        TokenType::Operator => {
            let low = popped(yard, Stop::Weaker(precedence_of(symbol_of(token.content))));
            Yard { output: low.output, stack: low.stack.push(token), balanced: low.balanced }
        },
    }
}

/// The state of the reorderer after the first `n` of `tokens`.
pub open spec fn yard_after(tokens: Seq<TokenView>, n: int) -> Yard
    decreases n,
{
    if n <= 0 {
        Yard { output: Seq::empty(), stack: Seq::empty(), balanced: true }
    } else {
        shunted(yard_after(tokens, n - 1), tokens[n - 1])
    }
}

/// Every closing parenthesis of `tokens` has an opening one before it.
pub open spec fn parens_close(tokens: Seq<TokenView>) -> bool {
    yard_after(tokens, tokens.len() as int).balanced
}

/// The postfix program of `tokens`: the output after the last token, then
/// the tokens that still wait, from the top down. Empty where a closing
/// parenthesis has no opening one.
pub open spec fn postfix_of(tokens: Seq<TokenView>) -> Seq<TokenView> {
    let yard = yard_after(tokens, tokens.len() as int);
    if yard.balanced {
        yard.output + yard.stack.reverse()
    } else {
        Seq::empty()
    }
}

/// No token of `tokens` is an operand.
pub open spec fn no_operand(tokens: Seq<TokenView>) -> bool {
    forall|i: int| 0 <= i < tokens.len() ==> !is_operand(#[trigger] tokens[i].kind)
}

proof fn lemma_operands_push(tokens: Seq<TokenView>, token: TokenView)
    ensures
        operands(tokens.push(token)) == if is_operand(token.kind) {
            operands(tokens).push(token)
        } else {
            operands(tokens)
        },
{
    assert(tokens.push(token).drop_last() == tokens);
}

proof fn lemma_operands_none(tokens: Seq<TokenView>)
    requires
        no_operand(tokens),
    ensures
        operands(tokens) == Seq::<TokenView>::empty(),
    decreases tokens.len(),
{
    if tokens.len() > 0 {
        lemma_operands_none(tokens.drop_last());
    }
}

proof fn lemma_operands_add(a: Seq<TokenView>, b: Seq<TokenView>)
    ensures
        operands(a + b) == operands(a) + operands(b),
    decreases b.len(),
{
    if b.len() == 0 {
        assert(a + b == a);
        assert(operands(a) + operands(b) == operands(a));
    } else {
        lemma_operands_add(a, b.drop_last());
        assert((a + b).drop_last() == a + b.drop_last());
        assert((a + b).last() == b.last());
        if is_operand(b.last().kind) {
            assert((operands(a) + operands(b.drop_last())).push(b.last()) == operands(a)
                + operands(b.drop_last()).push(b.last()));
        }
    }
}

proof fn lemma_popped_operands(yard: Yard, stop: Stop)
    requires
        no_operand(yard.stack),
    ensures
        operands(popped(yard, stop).output) == operands(yard.output),
        no_operand(popped(yard, stop).stack),
        popped(yard, stop).balanced == yard.balanced,
    decreases yard.stack.len(),
{
    if yard.stack.len() > 0 && pops(stop, yard.stack.last()) {
        let next = Yard {
            output: yard.output.push(yard.stack.last()),
            stack: yard.stack.drop_last(),
            balanced: yard.balanced,
        };
        lemma_operands_push(yard.output, yard.stack.last());
        lemma_popped_operands(next, stop);
    }
}

proof fn lemma_yard_operands(tokens: Seq<TokenView>, n: int)
    requires
        0 <= n <= tokens.len(),
    ensures
        operands(yard_after(tokens, n).output) == operands(tokens.take(n)),
        no_operand(yard_after(tokens, n).stack),
    decreases n,
{
    if n > 0 {
        let before = yard_after(tokens, n - 1);
        let token = tokens[n - 1];
        lemma_yard_operands(tokens, n - 1);
        assert(tokens.take(n) == tokens.take(n - 1).push(token));
        lemma_operands_push(tokens.take(n - 1), token);
        lemma_operands_push(before.output, token);
        lemma_popped_operands(before, Stop::Paren);
        lemma_popped_operands(before, Stop::Group);
        lemma_popped_operands(before, Stop::Weaker(precedence_of(symbol_of(token.content))));
        let low = popped(before, Stop::Group);
        if low.stack.len() > 0 {
            lemma_operands_push(low.output, low.stack.last());
        }
    } else {
        assert(tokens.take(0) == Seq::<TokenView>::empty());
    }
}

/// Reordering keeps the operands in their order: where the parentheses
/// close, the operands of the postfix program are those of the tokens.
pub proof fn lemma_reorder_keeps_operands(tokens: Seq<TokenView>)
    requires
        parens_close(tokens),
    ensures
        operands(postfix_of(tokens)) == operands(tokens),
{
    let yard = yard_after(tokens, tokens.len() as int);
    lemma_yard_operands(tokens, tokens.len() as int);
    assert(tokens.take(tokens.len() as int) == tokens);
    lemma_operands_add(yard.output, yard.stack.reverse());
    assert(no_operand(yard.stack.reverse()));
    lemma_operands_none(yard.stack.reverse());
    assert(operands(yard.output) + Seq::<TokenView>::empty() == operands(yard.output));
}

/// Whether the waiting `token` is popped.
fn is_popped(stop: Stop, token: &Token) -> (yes: bool)
    ensures
        yes == pops(stop, token@),
{
    match stop {
        Stop::Paren => token.token_type != TokenType::LeftParen,
        Stop::Group => token.token_type != TokenType::LeftParen && token.token_type
            != TokenType::Function && token.token_type != TokenType::FuncArgSep,
        Stop::Weaker(precedence) => token.token_type == TokenType::Operator
            && get_operator_precedence(token.content.as_str()) >= precedence,
    }
}

/// Pops waiting tokens to the output down to where `stop` says.
fn pop_to_output(output: &mut Vec<Token>, stack: &mut Vec<Token>, stop: Stop, balanced: bool)
    ensures
        popped(
            Yard { output: views(old(output)@), stack: views(old(stack)@), balanced },
            stop,
        ) == (Yard { output: views(final(output)@), stack: views(final(stack)@), balanced }),
{
    let ghost start = Yard { output: views(output@), stack: views(stack@), balanced };
    while stack.len() > 0 && is_popped(stop, &stack[stack.len() - 1])
        invariant
            popped(start, stop) == popped(
                Yard { output: views(output@), stack: views(stack@), balanced },
                stop,
            ),
        decreases stack.len(),
    {
        let ghost waiting = stack@;
        let ghost written = output@;
        let token = stack.pop().unwrap();
        proof {
            assert(views(waiting).last() == token@);
            assert(views(stack@) =~= views(waiting).drop_last());
            lemma_views_push(written, token);
        }
        output.push(token);
    }
    proof {
        if stack.len() > 0 {
            assert(views(stack@).last() == stack@[stack.len() - 1]@);
        }
    }
}

/// Reorders the tokens of a formula into its postfix program.
///
/// The operands keep their order. Where a closing parenthesis has no opening
/// one, the program is empty.
pub fn reorder(tokens: &Vec<Token>) -> (program: Vec<Token>)
    ensures
        views(program@) == postfix_of(views(tokens@)),
        parens_close(views(tokens@)) ==> operands(views(program@)) == operands(views(tokens@)),
        !parens_close(views(tokens@)) ==> program@.len() == 0,
{
    let ghost all = views(tokens@);
    let mut output: Vec<Token> = Vec::new();
    let mut stack: Vec<Token> = Vec::new();
    let mut balanced = true;
    let mut i: usize = 0;
    proof {
        assert(views(output@) =~= Seq::<TokenView>::empty());
        assert(views(stack@) =~= Seq::<TokenView>::empty());
    }
    while i < tokens.len()
        invariant
            all == views(tokens@),
            i <= tokens.len(),
            yard_after(all, i as int) == (Yard {
                output: views(output@),
                stack: views(stack@),
                balanced,
            }),
        decreases tokens.len() - i,
    {
        let token = tokens[i].clone();
        let ghost before = yard_after(all, i as int);
        assert(all[i as int] == token@);
        match token.token_type {
            TokenType::Number | TokenType::String | TokenType::Boolean | TokenType::Reference => {
                proof {
                    lemma_views_push(output@, token);
                }
                output.push(token);
            },
            TokenType::LeftParen | TokenType::Function => {
                proof {
                    lemma_views_push(stack@, token);
                }
                stack.push(token);
            },
            TokenType::RightParen => {
                pop_to_output(&mut output, &mut stack, Stop::Paren, balanced);
                if stack.len() > 0 {
                    let ghost waiting = stack@;
                    let _ = stack.pop();
                    assert(views(stack@) =~= views(waiting).drop_last());
                } else {
                    balanced = false;
                }
            },
            TokenType::FuncArgSep => {
                pop_to_output(&mut output, &mut stack, Stop::Group, balanced);
            },
            TokenType::FuncClose => {
                pop_to_output(&mut output, &mut stack, Stop::Group, balanced);
                if stack.len() > 0 && stack[stack.len() - 1].token_type == TokenType::Function {
                    let ghost waiting = stack@;
                    let ghost written = output@;
                    let function = stack.pop().unwrap();
                    proof {
                        assert(views(waiting).last() == function@);
                        assert(views(stack@) =~= views(waiting).drop_last());
                        lemma_views_push(written, function);
                    }
                    output.push(function);
                } else {
                    proof {
                        if stack.len() > 0 {
                            assert(views(stack@).last() == stack@[stack.len() - 1]@);
                        }
                    }
                }
            },
            TokenType::Operator => {
                let precedence = get_operator_precedence(token.content.as_str());
                pop_to_output(&mut output, &mut stack, Stop::Weaker(precedence), balanced);
                proof {
                    lemma_views_push(stack@, token);
                }
                stack.push(token);
            },
        }
        i += 1;
    }
    proof {
        if balanced {
            lemma_reorder_keeps_operands(all);
        }
    }
    if !balanced {
        return Vec::new();
    }
    let ghost yard = yard_after(all, tokens.len() as int);
    let ghost written = views(output@);
    let ghost waiting = views(stack@);
    while stack.len() > 0
        invariant
            views(output@) + views(stack@).reverse() == written + waiting.reverse(),
        decreases stack.len(),
    {
        let ghost rest = stack@;
        let ghost done = output@;
        let token = stack.pop().unwrap();
        proof {
            assert(views(rest).last() == token@);
            assert(views(stack@) =~= views(rest).drop_last());
            lemma_views_push(done, token);
            assert(views(done).push(token@) + views(stack@).reverse() =~= views(done) + views(
                rest,
            ).reverse());
        }
        output.push(token);
    }
    proof {
        assert(views(output@) + views(stack@).reverse() =~= views(output@));
    }
    output
}

} // verus!
