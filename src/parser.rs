use vstd::prelude::*;
use crate::command_type::{
    carries_index, command_of_keyword, is_arithmetic_keyword, keyword_command, CommandType,
};
use crate::error::TranslationError;
use crate::text::{
    chars_of, clean_source, instructions, parse_u32, parse_u32_at, token_bounds, tokens, views,
};

verus! {

/// The type of the command `c`, told by its first token.
pub open spec fn command_of(c: Seq<char>) -> Result<CommandType, TranslationError> {
    let t = tokens(c);
    if t.len() == 0 {
        Err(TranslationError::MalformedCommand)
    } else {
        match keyword_command(t[0]) {
            Some(k) => Ok(k),
            None => Err(TranslationError::MalformedCommand),
        }
    }
}

/// The first operand of the command `c`: the operator itself for an
/// arithmetic command, else its second token.
pub open spec fn first_operand_of(c: Seq<char>) -> Result<Seq<char>, TranslationError> {
    match command_of(c) {
        Err(e) => Err(e),
        Ok(k) => if k == CommandType::CReturn {
            Err(TranslationError::InvalidOperandAccess)
        } else if k == CommandType::CArithmetic {
            Ok(tokens(c)[0])
        } else if tokens(c).len() >= 2 {
            Ok(tokens(c)[1])
        } else {
            Err(TranslationError::MalformedCommand)
        },
    }
}

/// The second operand of the command `c`: its third token read as a `u32`.
pub open spec fn second_operand_of(c: Seq<char>) -> Result<u32, TranslationError> {
    match command_of(c) {
        Err(e) => Err(e),
        Ok(k) => if !carries_index(k) {
            Err(TranslationError::InvalidOperandAccess)
        } else if tokens(c).len() >= 3 && parse_u32(tokens(c)[2]) is Some {
            Ok(parse_u32(tokens(c)[2])->0)
        } else {
            Err(TranslationError::MalformedCommand)
        },
    }
}

/// The text of a string result.
pub open spec fn result_view(r: Result<String, TranslationError>) -> Result<
    Seq<char>,
    TranslationError,
> {
    match r {
        Ok(s) => Ok(s@),
        Err(e) => Err(e),
    }
}

fn classify_tokens(v: &Vec<char>, b: &Vec<(usize, usize)>) -> (r: Result<
    CommandType,
    TranslationError,
>)
    requires
        b.len() == tokens(v@).len(),
        forall|k: int| 0 <= k < b.len() ==> (#[trigger] b[k]).0 <= b[k].1 <= v.len(),
        forall|k: int|
            0 <= k < b.len() ==> #[trigger] tokens(v@)[k] == v@.subrange(
                b[k].0 as int,
                b[k].1 as int,
            ),
    ensures
        r == command_of(v@),
{
    if b.len() == 0 {
        return Err(TranslationError::MalformedCommand);
    }
    assert(tokens(v@)[0] == v@.subrange(b[0].0 as int, b[0].1 as int));
    match command_of_keyword(v, b[0].0, b[0].1) {
        Some(k) => Ok(k),
        None => Err(TranslationError::MalformedCommand),
    }
}

/// The type of the command `instruction`.
pub fn classify(instruction: &str) -> (r: Result<CommandType, TranslationError>)
    ensures
        r == command_of(instruction@),
{
    let v = chars_of(instruction);
    let b = token_bounds(&v);
    classify_tokens(&v, &b)
}

/// The first operand of the command `instruction`.
pub fn first_operand(instruction: &str) -> (r: Result<String, TranslationError>)
    ensures
        result_view(r) == first_operand_of(instruction@),
{
    let v = chars_of(instruction);
    let b = token_bounds(&v);
    let k = match classify_tokens(&v, &b) {
        Ok(k) => k,
        Err(e) => return Err(e),
    };
    if k == CommandType::CReturn {
        return Err(TranslationError::InvalidOperandAccess);
    }
    let i: usize = if k == CommandType::CArithmetic {
        0
    } else {
        1
    };
    if i >= b.len() {
        return Err(TranslationError::MalformedCommand);
    }
    assert(tokens(v@)[i as int] == v@.subrange(b[i as int].0 as int, b[i as int].1 as int));
    Ok(instruction.substring_char(b[i].0, b[i].1).to_owned())
}

/// The second operand of the command `instruction`.
pub fn second_operand(instruction: &str) -> (r: Result<u32, TranslationError>)
    ensures
        r == second_operand_of(instruction@),
{
    let v = chars_of(instruction);
    let b = token_bounds(&v);
    let k = match classify_tokens(&v, &b) {
        Ok(k) => k,
        Err(e) => return Err(e),
    };
    if !(k == CommandType::CPush || k == CommandType::CPop || k == CommandType::CFunction || k
        == CommandType::CCall) {
        return Err(TranslationError::InvalidOperandAccess);
    }
    if b.len() < 3 {
        return Err(TranslationError::MalformedCommand);
    }
    assert(tokens(v@)[2] == v@.subrange(b[2].0 as int, b[2].1 as int));
    match parse_u32_at(&v, b[2].0, b[2].1) {
        Some(n) => Ok(n),
        None => Err(TranslationError::MalformedCommand),
    }
}

/// An arithmetic command or a `label` command has no second operand.
pub proof fn no_second_operand(c: Seq<char>)
    requires
        command_of(c) == Ok::<CommandType, TranslationError>(CommandType::CArithmetic)
            || command_of(c) == Ok::<CommandType, TranslationError>(CommandType::CLabel),
    ensures
        second_operand_of(c) == Err::<u32, TranslationError>(
            TranslationError::InvalidOperandAccess,
        ),
{
}

/// A `return` command has no first operand.
pub proof fn return_has_no_operand(c: Seq<char>)
    requires
        command_of(c) == Ok::<CommandType, TranslationError>(CommandType::CReturn),
    ensures
        first_operand_of(c) == Err::<Seq<char>, TranslationError>(
            TranslationError::InvalidOperandAccess,
        ),
{
}

/// The first operand of an arithmetic command is its own operator keyword.
pub proof fn arithmetic_operand_is_keyword(c: Seq<char>)
    requires
        command_of(c) == Ok::<CommandType, TranslationError>(CommandType::CArithmetic),
    ensures
        first_operand_of(c) == Ok::<Seq<char>, TranslationError>(tokens(c)[0]),
        is_arithmetic_keyword(tokens(c)[0]),
{
}

/// A cursor over the instruction stream of a source text, read front to back.
pub struct Parser {
    /// The instructions not yet read, the next one last.
    stream: Vec<String>,
    /// The instruction read by the last `advance`.
    command: Option<String>,
}

impl Parser {
    /// The instructions not yet read, in source order.
    pub closed spec fn remaining(&self) -> Seq<Seq<char>> {
        views(self.stream@).reverse()
    }

    /// The instruction read by the last `advance`, if any.
    pub closed spec fn current(&self) -> Option<Seq<char>> {
        match self.command {
            Some(c) => Some(c@),
            None => None,
        }
    }

    /// A parser over the instructions of `source`, before the first one.
    pub fn new(source: &str) -> (p: Parser)
        ensures
            p.remaining() == instructions(source@),
            p.current() is None,
    {
        let mut cleaned = clean_source(source);
        let ghost all = views(cleaned@);
        let mut stream: Vec<String> = Vec::new();
        while cleaned.len() > 0
            invariant
                views(cleaned@) + views(stream@).reverse() == all,
            decreases cleaned.len(),
        {
            let ghost before = cleaned@;
            let x = cleaned.pop().unwrap();
            assert(views(before) =~= views(cleaned@).push(x@));
            assert(views(stream@.push(x)).reverse() =~= seq![x@] + views(stream@).reverse());
            stream.push(x);
            assert(views(cleaned@) + views(stream@).reverse() =~= all);
        }
        assert(views(cleaned@) =~= Seq::<Seq<char>>::empty());
        assert(views(stream@).reverse() =~= all);
        Parser { stream, command: None }
    }

    /// Whether an instruction remains to be read.
    pub fn has_more_commands(&self) -> (r: bool)
        ensures
            r == (self.remaining().len() > 0),
    {
        self.stream.len() > 0
    }

    /// Reads the next instruction and makes it the current one; with none
    /// left, there is no current instruction afterwards.
    pub fn advance(&mut self)
        ensures
            old(self).remaining().len() > 0 ==> final(self).current() == Some(
                old(self).remaining()[0],
            ) && final(self).remaining() == old(self).remaining().drop_first(),
            old(self).remaining().len() == 0 ==> final(self).current() is None
                && final(self).remaining() == old(self).remaining(),
    {
        let ghost before = self.stream@;
        self.command = self.stream.pop();
        proof {
            if before.len() > 0 {
                assert(before =~= self.stream@.push(before.last()));
                assert(views(before).reverse() =~= seq![before.last()@] + views(
                    self.stream@,
                ).reverse());
            }
        }
    }

    /// The current instruction, if any.
    pub fn current_command(&self) -> (r: Option<&str>)
        ensures
            match r {
                Some(s) => self.current() == Some(s@),
                None => self.current() is None,
            },
    {
        match &self.command {
            Some(c) => Some(c.as_str()),
            None => None,
        }
    }

    /// The type of the current instruction.
    pub fn command_type(&self) -> (r: Result<CommandType, TranslationError>)
        ensures
            r == match self.current() {
                Some(c) => command_of(c),
                None => Err(TranslationError::MalformedCommand),
            },
    {
        match &self.command {
            Some(c) => classify(c.as_str()),
            None => Err(TranslationError::MalformedCommand),
        }
    }

    /// The first operand of the current instruction.
    pub fn arg1(&self) -> (r: Result<String, TranslationError>)
        ensures
            result_view(r) == match self.current() {
                Some(c) => first_operand_of(c),
                None => Err(TranslationError::MalformedCommand),
            },
    {
        match &self.command {
            Some(c) => first_operand(c.as_str()),
            None => Err(TranslationError::MalformedCommand),
        }
    }

    /// The second operand of the current instruction.
    pub fn arg2(&self) -> (r: Result<u32, TranslationError>)
        ensures
            r == match self.current() {
                Some(c) => second_operand_of(c),
                None => Err(TranslationError::MalformedCommand),
            },
    {
        match &self.command {
            Some(c) => second_operand(c.as_str()),
            None => Err(TranslationError::MalformedCommand),
        }
    }
}

} // verus!
