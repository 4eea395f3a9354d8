//! The instruction set and the parser that turns source text into
//! instructions.

use super::text::{
    decimal_digit, decimal_text, digit_of, digit_value, is_whitespace, push_decimal, whitespace,
};
use vstd::prelude::*;

verus! {

/// One instruction of the machine.
#[derive(Clone, Copy, Debug, PartialEq, Eq, Structural)]
pub enum Oper {
    /// Push the value.
    Number(isize),
    /// Discard the top of the stack and emit it as output.
    Pop,
    /// Pop a count and a value, then push the value count + 1 times.
    Cpy,
    /// Push the number of values on the stack.
    StackCount,
    /// Pop two values and push their sum.
    Add,
    /// Pop two values and push the first popped minus the second.
    Sub,
    /// Pop two values and push their product.
    Mul,
    /// Pop two values and push the first popped divided by the second.
    Div,
    /// Pop two values and push the remainder of that division.
    Mod,
    /// Push the address of the next instruction.
    PushProgramCounter,
    /// Pop a value and continue at that address.
    PopProgramCounter,
    /// Read a line of input as an integer and push it.
    StdIn,
}

/// The instruction that the one-character token `c` stands for, if any.
pub open spec fn token_oper(c: char) -> Option<Oper> {
    if decimal_digit(c) {
        Some(Oper::Number(digit_value(c) as isize))
    } else if c == '!' {
        Some(Oper::Pop)
    } else if c == '@' {
        Some(Oper::Cpy)
    } else if c == '$' {
        Some(Oper::StackCount)
    } else if c == '+' {
        Some(Oper::Add)
    } else if c == '-' {
        Some(Oper::Sub)
    } else if c == '*' {
        Some(Oper::Mul)
    } else if c == '/' {
        Some(Oper::Div)
    } else if c == '%' {
        Some(Oper::Mod)
    } else if c == '<' {
        Some(Oper::PushProgramCounter)
    } else if c == '>' {
        Some(Oper::PopProgramCounter)
    } else if c == '?' {
        Some(Oper::StdIn)
    } else {
        None
    }
}

/// The instruction that a token given as text stands for: that of its one
/// character. Text of any other length is no token.
pub open spec fn text_oper(token: Seq<char>) -> Option<Oper> {
    if token.len() == 1 {
        token_oper(token[0])
    } else {
        None
    }
}

/// The message that reports `token` as no instruction.
pub open spec fn parse_error_text(token: Seq<char>) -> Seq<char> {
    "String '"@ + token + "' cannot be parsed as an operation."@
}

/// Tells a character that the parser reads from one that it skips.
pub open spec fn significant() -> spec_fn(char) -> bool {
    |c: char| !whitespace(c)
}

/// The tokens of a source text: its characters other than white space, one
/// token each, in order.
pub open spec fn tokens(src: Seq<char>) -> Seq<char> {
    src.filter(significant())
}

/// Whether every one of the tokens stands for an instruction.
pub open spec fn all_valid(tokens: Seq<char>) -> bool {
    forall|i: int| 0 <= i < tokens.len() ==> token_oper(#[trigger] tokens[i]) is Some
}

/// The instructions that the tokens stand for, one for one.
pub open spec fn decoded(tokens: Seq<char>) -> Seq<Oper> {
    Seq::new(tokens.len(), |i: int| token_oper(tokens[i])->0)
}

/// Position of the first token that stands for no instruction; the number
/// of tokens if there is none.
pub open spec fn first_invalid(tokens: Seq<char>) -> int
    decreases tokens.len(),
{
    if tokens.len() == 0 || token_oper(tokens[0]) is None {
        0
    } else {
        1 + first_invalid(tokens.drop_first())
    }
}

/// What parsing a source text gives: the instructions of its tokens if all
/// of them are valid, else the message that names the first that is not.
pub open spec fn parse(src: Seq<char>) -> Result<Seq<Oper>, Seq<char>> {
    let t = tokens(src);
    if all_valid(t) {
        Ok(decoded(t))
    } else {
        Err(parse_error_text(seq![t[first_invalid(t)]]))
    }
}

/// The first invalid token is the one that only valid tokens precede.
pub proof fn lemma_first_invalid(tokens: Seq<char>, k: int)
    requires
        0 <= k < tokens.len(),
        token_oper(tokens[k]) is None,
        all_valid(tokens.take(k)),
    ensures
        first_invalid(tokens) == k,
        !all_valid(tokens),
    decreases k,
{
    if k > 0 {
        assert(tokens.take(k)[0] == tokens[0]);
        let rest = tokens.drop_first();
        assert forall|i: int| 0 <= i < k - 1 implies token_oper(#[trigger] rest.take(k - 1)[i])
            is Some by {
            assert(rest.take(k - 1)[i] == tokens.take(k)[i + 1]);
        }
        lemma_first_invalid(rest, k - 1);
    }
}

/// Reading one more character adds a token unless the character is white
/// space.
pub proof fn lemma_tokens_step(src: Seq<char>, i: int)
    requires
        0 <= i < src.len(),
    ensures
        tokens(src.take(i + 1)) == if whitespace(src[i]) {
            tokens(src.take(i))
        } else {
            tokens(src.take(i)).push(src[i])
        },
        tokens(src.take(i + 1)).is_prefix_of(tokens(src)),
{
    reveal(Seq::filter);
    assert(src.take(i + 1).drop_last() == src.take(i));
    assert(src == src.take(i + 1) + src.skip(i + 1));
    Seq::filter_distributes_over_add(src.take(i + 1), src.skip(i + 1), significant());
}

/// The name under which an instruction is listed.
pub open spec fn mnemonic(op: Oper) -> Seq<char> {
    match op {
        Oper::Number(num) => "NUM "@ + decimal_text(num as int),
        Oper::Pop => "POP"@,
        Oper::Cpy => "CPY"@,
        Oper::StackCount => "STACK_COUNT"@,
        Oper::Add => "ADD"@,
        Oper::Sub => "SUB"@,
        Oper::Mul => "MUL"@,
        Oper::Div => "DIV"@,
        Oper::Mod => "MOD"@,
        Oper::PushProgramCounter => "PUSH_PROGRAM_COUNTER"@,
        Oper::PopProgramCounter => "POP_PROGRAM_COUNTER"@,
        Oper::StdIn => "STD_IN"@,
    }
}

/// Builds the message that reports `token` as no instruction.
pub fn parse_error(token: &str) -> (message: String)
    ensures
        message@ == parse_error_text(token@),
{
    let mut message = String::from_str("String '");
    message.append(token);
    message.append("' cannot be parsed as an operation.");
    message
}

/// Tells whether every character of `val` is a decimal digit.
pub fn is_string_numeric(val: &str) -> (r: bool)
    ensures
        r == super::text::numeric(val@),
{
    broadcast use vstd::string::group_string_axioms;

    for character in it: val.chars()
        invariant
            it.seq() == val@,
            super::text::numeric(val@.take(it.index())),
    {
        if digit_of(character).is_none() {
            assert(!decimal_digit(val@[it.index()]));
            return false;
        }
    }
    assert(val@.take(val@.len() as int) == val@);
    true
}

impl Oper {
    /// Parses a source text: white space is skipped, and every other
    /// character is one token. Gives the instructions in order, or, if some
    /// token stands for no instruction, the message that names the first
    /// such token.
    pub fn load_oper_vec_from_string(val: String) -> (r: Result<Vec<Oper>, String>)
        ensures
            match r {
                Ok(out) => parse(val@) == Ok::<Seq<Oper>, Seq<char>>(out@),
                Err(message) => parse(val@) == Err::<Seq<Oper>, Seq<char>>(message@),
            },
            r is Ok <==> all_valid(tokens(val@)),
            r matches Ok(out) ==> out@.len() == tokens(val@).len(),
    {
        broadcast use vstd::string::group_string_axioms;

        let src = val.as_str();
        let total = src.unicode_len();
        let mut out: Vec<Oper> = Vec::new();
        let mut pos: usize = 0;
        assert(src@.take(0).filter(significant()) == Seq::<char>::empty()) by {
            reveal(Seq::filter);
        }
        for c in it: src.chars()
            invariant
                it.seq() == src@,
                src@ == val@,
                pos == it.index(),
                total == src@.len(),
                all_valid(tokens(src@.take(pos as int))),
                out@ == decoded(tokens(src@.take(pos as int))),
        {
            proof {
                lemma_tokens_step(src@, pos as int);
            }
            if !is_whitespace(c) {
                match Oper::from_token(c) {
                    Some(op) => {
                        out.push(op);
                    },
                    None => {
                        proof {
                            let k = tokens(src@.take(pos as int)).len() as int;
                            let read = tokens(src@.take(pos + 1));
                            assert(read == tokens(src@).subrange(0, k + 1));
                            assert(tokens(src@)[k] == read[k]);
                            assert(tokens(src@).take(k) == tokens(src@.take(pos as int)));
                            lemma_first_invalid(tokens(src@), k);
                            assert(src@.subrange(pos as int, pos + 1) == seq![c]);
                        }
                        return Err(parse_error(src.substring_char(pos, pos + 1)));
                    },
                }
            }
            pos = pos + 1;
        }
        assert(src@.take(pos as int) == src@);
        Ok(out)
    }

    /// Parses a source text into the instructions of its tokens.
    pub fn try_new(s: String) -> (r: Result<Vec<Oper>, String>)
        ensures
            match r {
                Ok(out) => parse(s@) == Ok::<Seq<Oper>, Seq<char>>(out@),
                Err(message) => parse(s@) == Err::<Seq<Oper>, Seq<char>>(message@),
            },
            r is Ok <==> all_valid(tokens(s@)),
            r matches Ok(out) ==> out@.len() == tokens(s@).len(),
    {
        Oper::load_oper_vec_from_string(s)
    }

    /// The instruction that the token `c` stands for, if any.
    pub fn from_token(c: char) -> (r: Option<Oper>)
        ensures
            r == token_oper(c),
    {
        match digit_of(c) {
            Some(d) => Some(Oper::Number(d as isize)),
            None => match c {
                '!' => Some(Oper::Pop),
                '@' => Some(Oper::Cpy),
                '$' => Some(Oper::StackCount),
                '+' => Some(Oper::Add),
                '-' => Some(Oper::Sub),
                '*' => Some(Oper::Mul),
                '/' => Some(Oper::Div),
                '%' => Some(Oper::Mod),
                '<' => Some(Oper::PushProgramCounter),
                '>' => Some(Oper::PopProgramCounter),
                '?' => Some(Oper::StdIn),
                _ => None,
            },
        }
    }

    /// Appends the name under which the instruction is listed.
    pub fn write_to(&self, out: &mut String)
        ensures
            final(out)@ == old(out)@ + mnemonic(*self),
    {
        match self {
            Oper::Number(num) => {
                out.append("NUM ");
                push_decimal(out, *num);
                assert(out@ =~= old(out)@ + mnemonic(*self));
            },
            Oper::Pop => out.append("POP"),
            Oper::Cpy => out.append("CPY"),
            Oper::StackCount => out.append("STACK_COUNT"),
            Oper::Add => out.append("ADD"),
            Oper::Sub => out.append("SUB"),
            Oper::Mul => out.append("MUL"),
            Oper::Div => out.append("DIV"),
            Oper::Mod => out.append("MOD"),
            Oper::PushProgramCounter => out.append("PUSH_PROGRAM_COUNTER"),
            Oper::PopProgramCounter => out.append("POP_PROGRAM_COUNTER"),
            Oper::StdIn => out.append("STD_IN"),
        }
    }

    /// The name under which the instruction is listed.
    pub fn to_string(&self) -> (text: String)
        ensures
            text@ == mnemonic(*self),
    {
        let mut text = String::new();
        self.write_to(&mut text);
        assert(text@ =~= mnemonic(*self));
        text
    }
}

/// The message of a failed conversion is a `String`, and no specification
/// value stands for one with a given text. So the conversion is described by
/// the contract of `try_from` itself, and not by `try_from_spec`.
impl vstd::std_specs::convert::TryFromSpecImpl<String> for Oper {
    open spec fn obeys_try_from_spec() -> bool {
        false
    }

    open spec fn try_from_spec(v: String) -> Result<Self, String> {
        arbitrary()
    }
}

impl TryFrom<String> for Oper {
    type Error = String;

    /// Reads one token given as text. Fails, with a message that names the
    /// token, unless it is a single character that stands for an
    /// instruction.
    fn try_from(val: String) -> (r: Result<Oper, String>)
        ensures
            match r {
                Ok(op) => text_oper(val@) == Some(op),
                Err(message) => text_oper(val@) is None && message@ == parse_error_text(val@),
            },
    {
        let token = val.as_str();
        if token.unicode_len() == 1 {
            match Oper::from_token(token.get_char(0)) {
                Some(op) => {
                    return Ok(op);
                },
                None => {},
            }
        }
        Err(parse_error(token))
    }
}

} // verus!
