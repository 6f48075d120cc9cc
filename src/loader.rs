use vstd::prelude::*;

use crate::error::UVMError;
use crate::instruction::{opcode_of, takes_operand, tag_of, Instruction, InstructionType, Integer};
use crate::text::{
    chars_of, digits_of, parse_i64, parse_i64_in, parse_u8, parse_u8_in, show_int, split,
    split_ranges, trim, trim_range,
};

verus! {

/// The instruction for a tag and an optional operand, when the tag names an
/// opcode whose arity the operand matches.
pub open spec fn decode(tag: u8, operand: Option<Integer>) -> Result<Instruction, UVMError> {
    match opcode_of(tag) {
        Some(op) => if takes_operand(op) == operand.is_some() {
            Ok(Instruction { instruction_type: op, operand })
        } else {
            Err(UVMError::IllegalOperation)
        },
        None => Err(UVMError::IllegalOperation),
    }
}

/// One line of program text: `<opcode>` or `<opcode> <operand>`.
pub open spec fn parse_line(line: Seq<char>) -> Result<Instruction, UVMError> {
    let fields = split(trim(line), ' ');
    if fields.len() == 1 {
        match parse_u8(trim(fields[0])) {
            Some(tag) => decode(tag, None),
            None => Err(UVMError::IllegalOperation),
        }
    } else if fields.len() == 2 {
        match parse_u8(trim(fields[0])) {
            Some(tag) => match parse_i64(trim(fields[1])) {
                Some(v) => decode(tag, Some(v)),
                None => Err(UVMError::IllegalOperand),
            },
            None => Err(UVMError::IllegalOperation),
        }
    } else {
        Err(UVMError::IllegalOperation)
    }
}

/// The instructions of `lines` in order, or the error of the first line that fails.
pub open spec fn parse_lines(lines: Seq<Seq<char>>) -> Result<Seq<Instruction>, UVMError>
    decreases lines.len(),
{
    if lines.len() == 0 {
        Ok(Seq::empty())
    } else {
        match parse_line(lines[0]) {
            Err(e) => Err(e),
            Ok(i) => match parse_lines(lines.drop_first()) {
                Err(e) => Err(e),
                Ok(rest) => Ok(seq![i] + rest),
            },
        }
    }
}

/// A whole program source: empty (after trimming) or newline-separated lines.
pub open spec fn parse_source(source: Seq<char>) -> Result<Seq<Instruction>, UVMError> {
    if trim(source).len() == 0 {
        Ok(Seq::empty())
    } else {
        parse_lines(split(trim(source), '\n'))
    }
}

/// The textual form of an instruction, as the loader reads it.
pub open spec fn show_instruction(i: Instruction) -> Seq<char> {
    match i.operand {
        Some(v) => digits_of(tag_of(i.instruction_type) as nat) + seq![' '] + show_int(v as int),
        None => digits_of(tag_of(i.instruction_type) as nat),
    }
}

fn decode_tag(tag: u8, operand: Option<Integer>) -> (r: Result<Instruction, UVMError>)
    ensures
        r == decode(tag, operand),
{
    match InstructionType::from_tag(tag) {
        Some(op) => if (op.arity() == 1) == operand.is_some() {
            Ok(Instruction::new(op, operand))
        } else {
            Err(UVMError::IllegalOperation)
        },
        None => Err(UVMError::IllegalOperation),
    }
}

/// Reads the line `s[lo..hi]`.
fn parse_line_in(s: &Vec<char>, lo: usize, hi: usize) -> (r: Result<Instruction, UVMError>)
    requires
        lo <= hi <= s.len(),
    ensures
        r == parse_line(s@.subrange(lo as int, hi as int)),
{
    let (a, b) = trim_range(s, lo, hi);
    let fields = split_ranges(s, a, b, ' ');
    if fields.len() == 1 {
        let (fa, fb) = trim_range(s, fields[0].0, fields[0].1);
        match parse_u8_in(s, fa, fb) {
            Some(tag) => decode_tag(tag, None),
            None => Err(UVMError::IllegalOperation),
        }
    } else if fields.len() == 2 {
        let (fa, fb) = trim_range(s, fields[0].0, fields[0].1);
        match parse_u8_in(s, fa, fb) {
            Some(tag) => {
                let (ga, gb) = trim_range(s, fields[1].0, fields[1].1);
                match parse_i64_in(s, ga, gb) {
                    Some(v) => decode_tag(tag, Some(v)),
                    None => Err(UVMError::IllegalOperand),
                }
            },
            None => Err(UVMError::IllegalOperation),
        }
    } else {
        Err(UVMError::IllegalOperation)
    }
}

/// Relies on `String::push`: appends the one character `c` to `s`.
#[verifier::external_body]
fn push_char(s: &mut String, c: char)
    ensures
        final(s)@ == old(s)@.push(c),
{
    s.push(c)
}

/// Appends the decimal digits of `n` to `out`.
fn push_digits(n: u64, out: &mut String)
    ensures
        final(out)@ == old(out)@ + digits_of(n as nat),
    decreases n,
{
    if n >= 10 {
        push_digits(n / 10, out);
    }
    let d = (n % 10) as u8;
    push_char(out, (48u8 + d) as char);
    proof {
        assert(old(out)@ + digits_of(n as nat) =~= final(out)@);
    }
}

impl Instruction {
    /// The line that the loader reads back as this instruction:
    /// `<tag>` or `<tag> <operand>`.
    pub fn to_text(&self) -> (r: String)
        ensures
            r@ == show_instruction(*self),
    {
        let mut s = String::new();
        push_digits(self.instruction_type.tag() as u64, &mut s);
        match self.operand {
            Some(v) => {
                push_char(&mut s, ' ');
                if v < 0 {
                    push_char(&mut s, '-');
                    push_digits((-(v as i128)) as u64, &mut s);
                } else {
                    push_digits(v as u64, &mut s);
                }
            },
            None => {},
        }
        proof {
            assert(s@ =~= show_instruction(*self));
        }
        s
    }
}

/// Reads a program source into its instructions, stopping at the first line
/// that fails. An empty or whitespace-only source is an empty program.
pub fn parse_program(source: &str) -> (r: Result<Vec<Instruction>, UVMError>)
    ensures
        match r {
            Ok(p) => parse_source(source@) == Ok::<Seq<Instruction>, UVMError>(p@),
            Err(e) => parse_source(source@) == Err::<Seq<Instruction>, UVMError>(e),
        },
{
    let s = chars_of(source);
    let (a, b) = trim_range(&s, 0, s.len());
    proof {
        assert(s@.subrange(0, s@.len() as int) =~= s@);
    }
    let mut program: Vec<Instruction> = Vec::new();
    if a == b {
        return Ok(program);
    }
    let lines = split_ranges(&s, a, b, '\n');
    let ghost all = split(s@.subrange(a as int, b as int), '\n');
    let mut k: usize = 0;
    proof {
        assert(all.skip(0) =~= all);
        assert(program@ + Seq::<Instruction>::empty() =~= program@);
    }
    while k < lines.len()
        invariant
            0 <= k <= lines.len() == all.len(),
            a < b <= s.len(),
            trim(source@) == s@.subrange(a as int, b as int),
            all == split(s@.subrange(a as int, b as int), '\n'),
            forall|j: int|
                0 <= j < lines.len() ==> a <= (#[trigger] lines[j]).0 <= lines[j].1 <= b
                    && s@.subrange(lines[j].0 as int, lines[j].1 as int) == all[j],
            parse_lines(all) == match parse_lines(all.skip(k as int)) {
                Ok(rest) => Ok(program@ + rest),
                Err(e) => Err(e),
            },
        decreases lines.len() - k,
    {
        let (lo, hi) = lines[k];
        let ghost tail = all.skip(k as int);
        proof {
            assert(tail[0] == all[k as int]);
            assert(tail.drop_first() =~= all.skip(k + 1));
        }
        match parse_line_in(&s, lo, hi) {
            Ok(i) => {
                proof {
                    match parse_lines(all.skip(k + 1)) {
                        Ok(rest) => {
                            assert(program@.push(i) + rest =~= program@ + (seq![i] + rest));
                        },
                        Err(e) => {},
                    }
                }
                program.push(i);
            },
            Err(e) => {
                proof {
                    assert(parse_lines(tail) == Err::<Seq<Instruction>, UVMError>(e));
                }
                return Err(e);
            },
        }
        k = k + 1;
    }
    proof {
        assert(all.skip(k as int) =~= Seq::<Seq<char>>::empty());
        assert(program@ + Seq::<Instruction>::empty() =~= program@);
    }
    Ok(program)
}

} // verus!
