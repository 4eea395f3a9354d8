//! What holds of the parser and of the machine on every input, proved from
//! their definitions.

use super::arith::{lemma_wrap_near, wrap};
use super::oper::{all_valid, parse, significant, token_oper, tokens, Oper};
use super::text::{
    decimal_digit, decimal_text, decimal_value, digit_char, digit_value, integer_value,
    line_value, natural_text, numeric, signed, trimmed, trimmed_end, trimmed_start, whitespace,
};
use super::virtual_machine::{ExecError, Outcome, State};
use vstd::prelude::*;

verus! {

/// A source text whose tokens are all valid parses into as many
/// instructions as it has characters other than white space.
pub proof fn law_parse_counts_tokens(src: Seq<char>)
    requires
        all_valid(tokens(src)),
    ensures
        parse(src) is Ok,
        parse(src)->Ok_0.len() == src.filter(|c: char| !whitespace(c)).len(),
{
    assert(significant() == |c: char| !whitespace(c));
}

/// Parsing fails exactly if some character of the source text is neither
/// white space nor a token that stands for an instruction.
pub proof fn law_invalid_token_fails(src: Seq<char>)
    ensures
        parse(src) is Err <==> exists|i: int|
            0 <= i < src.len() && !whitespace(#[trigger] src[i]) && token_oper(src[i]) is None,
{
    broadcast use vstd::seq_lib::group_filter_ensures;

    let t = tokens(src);
    if exists|i: int|
        0 <= i < src.len() && !whitespace(#[trigger] src[i]) && token_oper(src[i]) is None {
        let i = choose|i: int|
            0 <= i < src.len() && !whitespace(#[trigger] src[i]) && token_oper(src[i]) is None;
        assert(significant()(src[i]));
        assert(t.contains(src[i]));
        let j = choose|j: int| 0 <= j < t.len() && t[j] == src[i];
        assert(token_oper(t[j]) is None);
    }
    if parse(src) is Err {
        let j = choose|j: int| 0 <= j < t.len() && !(token_oper(#[trigger] t[j]) is Some);
        assert(significant()(t[j]));
        assert(src.contains(t[j])) by {
            lemma_filtered_comes_from(src, significant(), j);
        }
        let i = choose|i: int| 0 <= i < src.len() && src[i] == t[j];
        assert(!whitespace(src[i]) && token_oper(src[i]) is None);
    }
}

/// Whatever a filter lets through was in the sequence.
proof fn lemma_filtered_comes_from<A>(s: Seq<A>, pred: spec_fn(A) -> bool, j: int)
    requires
        0 <= j < s.filter(pred).len(),
    ensures
        s.contains(s.filter(pred)[j]),
    decreases s.len(),
{
    reveal(Seq::filter);
    if s.len() > 0 {
        let rest = s.drop_last().filter(pred);
        if j < rest.len() {
            lemma_filtered_comes_from(s.drop_last(), pred, j);
            let i = choose|i: int| 0 <= i < s.drop_last().len() && s.drop_last()[i] == rest[j];
            assert(s[i] == rest[j]);
        } else {
            assert(s[s.len() - 1] == s.filter(pred)[j]);
        }
    }
}

/// A halted machine stays as it is, whatever cycles are run on it.
pub proof fn law_halted_is_terminal(s: State, lines: Seq<Seq<char>>)
    requires
        s.endstate,
    ensures
        s.run(lines) == s,
        forall|line: Seq<char>| #[trigger] s.step(line) == (s, Outcome::Halted),
    decreases lines.len(),
{
    if lines.len() > 0 {
        law_halted_is_terminal(s, lines.drop_last());
    }
}

/// A running machine whose program counter is outside the program halts
/// in the next cycle, which changes nothing else; every cycle after that
/// changes nothing at all.
pub proof fn law_running_off_the_end(s: State, line: Seq<char>, lines: Seq<Seq<char>>)
    requires
        !s.endstate,
        !s.in_program(),
    ensures
        s.step(line) == (State { endstate: true, ..s }, Outcome::Halted),
        s.step(line).0.run(lines) == s.step(line).0,
{
    law_halted_is_terminal(s.step(line).0, lines);
}

/// No cycle changes the program.
pub proof fn law_program_is_fixed(s: State, lines: Seq<Seq<char>>)
    ensures
        s.run(lines).instructions == s.instructions,
        forall|line: Seq<char>| (#[trigger] s.step(line)).0.instructions == s.instructions,
    decreases lines.len(),
{
    if lines.len() > 0 {
        law_program_is_fixed(s, lines.drop_last());
        let before = s.run(lines.drop_last());
        assert(before.step(lines.last()).0.instructions == before.instructions);
    }
}

/// A cycle that fetches an instruction moves the program counter in one
/// of two ways, never both: the jump sets it to the value it pops, or
/// leaves it if there is none; every other instruction moves it on by one,
/// before it runs.
pub proof fn law_counter_moves_one_way(s: State, line: Seq<char>)
    requires
        !s.endstate,
        s.in_program(),
    ensures
        s.current() is PopProgramCounter ==> s.step(line).0.program_counter == if s.stack.len()
            > 0 {
            s.stack.last()
        } else {
            s.program_counter
        },
        !(s.current() is PopProgramCounter) ==> s.step(line).0.program_counter == wrap(
            s.program_counter + 1,
        ),
        s.program_counter < isize::MAX ==> wrap(s.program_counter + 1) == s.program_counter + 1,
{
    lemma_wrap_near(s.program_counter + 1);
}

/// The line of input matters only to a cycle that reads it.
pub proof fn law_line_matters_only_to_input(s: State, line: Seq<char>, other: Seq<char>)
    requires
        !s.awaits_input(),
    ensures
        s.step(line) == s.step(other),
{
}

/// Subtract takes the value popped first as the minuend: after pushing
/// `a`, then `b`, it leaves `b - a`.
pub proof fn law_subtract_operand_order(a: isize, b: isize, lines: Seq<Seq<char>>)
    requires
        lines.len() == 3,
    ensures
        State::initial(seq![Oper::Number(a), Oper::Number(b), Oper::Sub]).run(lines).stack
            == seq![wrap(b - a)],
        !State::initial(seq![Oper::Number(a), Oper::Number(b), Oper::Sub]).run(lines).endstate,
{
    let s0 = State::initial(seq![Oper::Number(a), Oper::Number(b), Oper::Sub]);
    lemma_wrap_near(1);
    lemma_wrap_near(2);
    lemma_wrap_near(3);
    let l1 = lines.drop_last().drop_last();
    let l2 = lines.drop_last();
    assert(l1.drop_last().len() == 0);
    assert(s0.run(l1.drop_last()) == s0);
    let s1 = s0.run(l1);
    assert(s1 == s0.step(l1.last()).0);
    assert(s1.stack == seq![a]);
    let s2 = s0.run(l2);
    assert(s2 == s1.step(l2.last()).0);
    assert(s2.stack == seq![a, b]);
    let s3 = s0.run(lines);
    assert(s3 == s2.step(lines.last()).0);
    assert(s3.stack == seq![wrap(b - a)]);
}

/// Duplicate-with-count needs a count and a value: on a stack of fewer
/// than two values it fails with stack underflow, and the machine halts.
pub proof fn law_duplicate_needs_two(s: State, line: Seq<char>)
    requires
        !s.endstate,
        s.in_program(),
        s.current() is Cpy,
        s.stack.len() < 2,
    ensures
        s.step(line).1 == Outcome::Failed(ExecError::StackPopError),
        s.step(line).0.endstate,
{
}

/// Duplicate-with-count on a count of at least 1 and a value under it
/// takes both and leaves count + 1 copies of the value in their place.
pub proof fn law_duplicate_copies(s: State, line: Seq<char>)
    requires
        !s.endstate,
        s.in_program(),
        s.current() is Cpy,
        s.stack.len() >= 2,
        s.stack.last() >= 1,
    ensures
        s.step(line).1 == Outcome::Continued,
        s.step(line).0.stack.len() == s.stack.len() - 2 + s.stack.last() + 1,
        forall|i: int|
            0 <= i < s.stack.len() - 2 ==> (#[trigger] s.step(line).0.stack[i]) == s.stack[i],
        forall|i: int|
            s.stack.len() - 2 <= i < s.step(line).0.stack.len() ==> (#[trigger] s.step(
                line,
            ).0.stack[i]) == s.stack[s.stack.len() - 2],
{
}

/// Divide and modulo fail with division by zero whenever the value popped
/// second is 0, and the machine halts.
pub proof fn law_division_by_zero(s: State, line: Seq<char>)
    requires
        !s.endstate,
        s.in_program(),
        s.current() is Div || s.current() is Mod,
        s.stack.len() >= 2,
        s.stack[s.stack.len() - 2] == 0,
    ensures
        s.step(line).1 == Outcome::Failed(ExecError::DivisionByZeroError),
        s.step(line).0.endstate,
{
}

/// A jump on the address that push-program-counter saved continues at the
/// instruction that follows the push-program-counter.
pub proof fn law_jump_round_trip(saving: State, jumping: State, line: Seq<char>, later: Seq<char>)
    requires
        !saving.endstate,
        saving.in_program(),
        saving.current() is PushProgramCounter,
        !jumping.endstate,
        jumping.in_program(),
        jumping.current() is PopProgramCounter,
        jumping.stack.len() > 0,
        jumping.stack.last() == saving.step(line).0.stack.last(),
    ensures
        saving.step(line).0.stack == saving.stack.push(saving.step(line).0.program_counter),
        jumping.step(later).0.program_counter == saving.step(line).0.program_counter,
        jumping.step(later).0.stack == jumping.stack.drop_last(),
        !jumping.step(later).0.endstate,
        saving.program_counter < isize::MAX ==> jumping.step(later).0.program_counter
            == saving.program_counter + 1,
{
    lemma_wrap_near(saving.program_counter + 1);
}

/// Stack-depth-query pushes the number of values that the stack held; on
/// an empty stack it pushes 0.
pub proof fn law_depth_query(s: State, line: Seq<char>)
    requires
        !s.endstate,
        s.in_program(),
        s.current() is StackCount,
        s.stack.len() <= isize::MAX,
    ensures
        s.step(line).0.stack == s.stack.push(s.stack.len() as isize),
        s.step(line).1 == Outcome::Continued,
        s.stack.len() == 0 ==> s.step(line).0.stack == seq![0isize],
{
}

/// The program that pushes each of `values` and then asks for the depth.
pub open spec fn pushes_then_depth(values: Seq<isize>) -> Seq<Oper> {
    Seq::new(values.len(), |i: int| Oper::Number(values[i])).push(Oper::StackCount)
}

/// After `n` literal pushes, stack-depth-query pushes `n`.
pub proof fn law_depth_after_pushes(values: Seq<isize>, lines: Seq<Seq<char>>)
    requires
        values.len() < isize::MAX,
        lines.len() == values.len() + 1,
    ensures
        State::initial(pushes_then_depth(values)).run(lines).stack == values.push(
            values.len() as isize,
        ),
{
    let program = pushes_then_depth(values);
    let n = values.len() as int;
    lemma_pushes_run(values, lines.drop_last(), n);
    assert(lines.drop_last().take(n) == lines.drop_last());
    assert(values.take(n) == values);
    let before = State::initial(program).run(lines.drop_last());
    assert(before.current() is StackCount);
    law_depth_query(before, lines.last());
}

/// The first `k` cycles of a program that starts with pushes of `values`
/// push the first `k` of them.
proof fn lemma_pushes_run(values: Seq<isize>, lines: Seq<Seq<char>>, k: int)
    requires
        values.len() < isize::MAX,
        0 <= k <= values.len(),
        k <= lines.len(),
    ensures
        State::initial(pushes_then_depth(values)).run(lines.take(k)) == (State {
            stack: values.take(k),
            program_counter: k as isize,
            instructions: pushes_then_depth(values),
            endstate: false,
        }),
    decreases k,
{
    let s0 = State::initial(pushes_then_depth(values));
    if k == 0 {
        assert(values.take(0) == Seq::<isize>::empty());
    } else {
        lemma_pushes_run(values, lines, k - 1);
        assert(lines.take(k).drop_last() == lines.take(k - 1));
        let before = s0.run(lines.take(k - 1));
        assert(before.current() == Oper::Number(values[k - 1]));
        lemma_wrap_near(k);
        assert(values.take(k) == values.take(k - 1).push(values[k - 1]));
    }
}

/// The numeral of a natural number is made of digits, one at least, and
/// denotes that number.
pub proof fn lemma_natural_text(n: nat)
    ensures
        natural_text(n).len() > 0,
        numeric(natural_text(n)),
        decimal_value(natural_text(n)) == n,
    decreases n,
{
    let text = natural_text(n);
    if n < 10 {
        assert(decimal_digit(digit_char(n)) && digit_value(digit_char(n)) == n);
        assert(text.drop_last().len() == 0);
        assert(decimal_value(text) == decimal_value(text.drop_last()) * 10 + digit_value(
            text.last(),
        ));
    } else {
        lemma_natural_text(n / 10);
        let d = n % 10;
        assert(decimal_digit(digit_char(d)) && digit_value(digit_char(d)) == d);
        assert(text.drop_last() == natural_text(n / 10));
        assert(text.last() == digit_char(d));
    }
}

/// A stack value written in decimal reads back as that value.
pub proof fn law_written_reads_back(n: isize)
    ensures
        line_value(decimal_text(n as int)) == Some(n),
{
    let text = decimal_text(n as int);
    let m = if n < 0 {
        (-n) as nat
    } else {
        n as nat
    };
    lemma_natural_text(m);
    let digits = natural_text(m);
    assert(decimal_digit(digits[0]) && decimal_digit(digits.last()));
    if n < 0 {
        assert(text[0] == '-');
        assert(text.last() == digits.last());
        assert(text.drop_first() == digits);
    } else {
        assert(text == digits);
    }
    assert(!whitespace(text[0]) && !whitespace(text.last()));
    assert(trimmed_start(text) == text);
    assert(trimmed_end(text) == text);
    assert(trimmed(text) == text);
    assert(signed(text) == (n < 0));
    assert(integer_value(text) == Some(n as int));
}

} // verus!
