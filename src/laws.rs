use vstd::prelude::*;
use vstd::wrapping::i64_specs;

use crate::error::UVMError;
use crate::instruction::{opcode_of, takes_operand, tag_of, Instruction, InstructionType, Integer};
use crate::loader::{decode, parse_line, parse_lines, parse_source, show_instruction};
use crate::text::{
    all_digits, digit_char, digit_value, digits_of, digits_value, is_digit, is_ws, natural_value,
    parse_i64, parse_u8, show_int, signed_value, split, trim, trim_end, trim_start,
    unsigned_value,
};
use crate::trap::Trap;
use crate::uvm::{is_binary, run_steps, start, step, Machine};

verus! {

/// `Push v`.
pub open spec fn push(v: Integer) -> Instruction {
    Instruction { instruction_type: InstructionType::Push, operand: Some(v) }
}

/// A zero-operand instruction.
pub open spec fn plain(op: InstructionType) -> Instruction {
    Instruction { instruction_type: op, operand: None }
}

/// `Push a; Push b; Add; Halt` halts after four steps, with the (wrapping)
/// sum as the only stack element, writing nothing and trapping nowhere.
pub proof fn lemma_add_program(a: Integer, b: Integer)
    ensures
        ({
            let p = seq![push(a), push(b), plain(InstructionType::Add), plain(InstructionType::Halt)];
            let r = run_steps(start(p), 4);
            &&& r.2 == Ok::<bool, Trap>(true)
            &&& r.0.halted
            &&& r.0.stack == seq![i64_specs::wrapping_add(a, b)]
            &&& r.1.len() == 0
            &&& (i64::MIN <= a + b <= i64::MAX ==> r.0.stack == seq![(a + b) as Integer])
        }),
{
    let p = seq![push(a), push(b), plain(InstructionType::Add), plain(InstructionType::Halt)];
    let m0 = start(p);
    let m1 = Machine { stack: seq![a], ip: 1, ..m0 };
    let m2 = Machine { stack: seq![a, b], ip: 2, ..m0 };
    let m3 = Machine { stack: seq![i64_specs::wrapping_add(a, b)], ip: 3, ..m0 };
    let m4 = Machine { halted: true, ..m3 };
    assert(m0.stack.push(a) =~= m1.stack);
    assert(step(m0) == Ok::<(Machine, Option<Integer>), Trap>((m1, None)));
    assert(m1.stack.push(b) =~= m2.stack);
    assert(step(m1) == Ok::<(Machine, Option<Integer>), Trap>((m2, None)));
    assert(m2.stack.take(0).push(i64_specs::wrapping_add(a, b)) =~= m3.stack);
    assert(step(m2) == Ok::<(Machine, Option<Integer>), Trap>((m3, None)));
    assert(step(m3) == Ok::<(Machine, Option<Integer>), Trap>((m4, None)));
    assert(run_steps(m4, 0) == (m4, Seq::<Integer>::empty(), Ok::<bool, Trap>(true)));
    assert(Seq::<Integer>::empty() + Seq::<Integer>::empty() =~= Seq::<Integer>::empty());
    assert(run_steps(m3, 1) == (m4, Seq::<Integer>::empty(), Ok::<bool, Trap>(true)));
    assert(run_steps(m2, 2) == (m4, Seq::<Integer>::empty(), Ok::<bool, Trap>(true)));
    assert(run_steps(m1, 3) == (m4, Seq::<Integer>::empty(), Ok::<bool, Trap>(true)));
}

/// `Push a; Push 0; Divide; Halt` traps `DivisionByZero` on its third step, for
/// every step budget that reaches it, with the stack left as `[a, 0]`.
pub proof fn lemma_divide_by_zero_program(a: Integer, fuel: nat)
    requires
        fuel >= 3,
    ensures
        ({
            let p = seq![push(a), push(0), plain(InstructionType::Divide), plain(InstructionType::Halt)];
            let r = run_steps(start(p), fuel);
            &&& r.2 == Err::<bool, Trap>(Trap::DivisionByZero)
            &&& r.0.stack == seq![a, 0]
            &&& r.0.ip == 2
            &&& !r.0.halted
        }),
{
    let p = seq![push(a), push(0), plain(InstructionType::Divide), plain(InstructionType::Halt)];
    let m0 = start(p);
    let m1 = Machine { stack: seq![a], ip: 1, ..m0 };
    let m2 = Machine { stack: seq![a, 0], ip: 2, ..m0 };
    assert(m0.stack.push(a) =~= m1.stack);
    assert(step(m0) == Ok::<(Machine, Option<Integer>), Trap>((m1, None)));
    assert(m1.stack.push(0) =~= m2.stack);
    assert(step(m1) == Ok::<(Machine, Option<Integer>), Trap>((m2, None)));
    assert(step(m2) == Err::<(Machine, Option<Integer>), Trap>(Trap::DivisionByZero));
    let r2 = run_steps(m2, (fuel - 2) as nat);
    assert(r2 == (m2, Seq::<Integer>::empty(), Err::<bool, Trap>(Trap::DivisionByZero)));
    let r1 = run_steps(m1, (fuel - 1) as nat);
    assert(r1.0 == m2 && r1.2 == r2.2);
}

/// `Pop`, or a binary opcode, on a stack with fewer elements than it needs
/// traps `StackUnderflow`, and a run stops there with the state unchanged.
pub proof fn lemma_underflow_leaves_state(m: Machine, fuel: nat)
    requires
        !m.halted,
        m.ip < m.program.len(),
        ({
            let op = m.program[m.ip as int].instruction_type;
            (op == InstructionType::Pop && m.stack.len() < 1) || (is_binary(op) && m.stack.len()
                < 2)
        }),
        fuel >= 1,
    ensures
        step(m) == Err::<(Machine, Option<Integer>), Trap>(Trap::StackUnderflow),
        run_steps(m, fuel) == (m, Seq::<Integer>::empty(), Err::<bool, Trap>(Trap::StackUnderflow)),
{
}

/// `Duplicate n` with `n` at least the stack depth traps `StackUnderflow`.
pub proof fn lemma_duplicate_underflow(m: Machine)
    requires
        !m.halted,
        m.ip < m.program.len(),
        m.program[m.ip as int].instruction_type == InstructionType::Duplicate,
        m.program[m.ip as int].operand matches Some(n) && n >= m.stack.len(),
    ensures
        step(m) == Err::<(Machine, Option<Integer>), Trap>(Trap::StackUnderflow),
{
}

proof fn lemma_trim_all_ws(s: Seq<char>)
    requires
        forall|i: int| 0 <= i < s.len() ==> is_ws(#[trigger] s[i]),
    ensures
        trim_start(s).len() == 0,
    decreases s.len(),
{
    if s.len() > 0 {
        assert(is_ws(s[0]));
        let t = s.drop_first();
        assert forall|i: int| 0 <= i < t.len() implies is_ws(#[trigger] t[i]) by {
            assert(t[i] == s[i + 1]);
        }
        lemma_trim_all_ws(t);
    }
}

/// A source that is empty or all whitespace loads as the empty program, and a
/// fresh engine on it traps `InvalidInstructionPointer` at once.
pub proof fn lemma_empty_source(source: Seq<char>)
    requires
        forall|i: int| 0 <= i < source.len() ==> is_ws(#[trigger] source[i]),
    ensures
        parse_source(source) == Ok::<Seq<Instruction>, UVMError>(Seq::empty()),
        step(start(Seq::empty())) == Err::<(Machine, Option<Integer>), Trap>(
            Trap::InvalidInstructionPointer,
        ),
{
    lemma_trim_all_ws(source);
    assert(trim_end(trim_start(source)).len() == 0);
}

/// `Push 1; JumpIf 0; Halt` never leaves its first two instructions: after
/// every even number of steps the engine is back at its start (index 0, empty
/// stack), and after every odd number it is at index 1 with `[1]`, never
/// halting or trapping.
pub proof fn lemma_jump_if_loop(k: nat)
    ensures
        ({
            let p = seq![push(1), Instruction {
                instruction_type: InstructionType::JumpIf,
                operand: Some(0),
            }, plain(InstructionType::Halt)];
            &&& run_steps(start(p), 2 * k) == (start(p), Seq::<Integer>::empty(), Ok::<bool, Trap>(false))
            &&& run_steps(start(p), 2 * k + 1) == (Machine { stack: seq![1], ip: 1, ..start(p) }, Seq::<Integer>::empty(), Ok::<bool, Trap>(false))
        }),
    decreases k,
{
    let p = seq![push(1), Instruction {
        instruction_type: InstructionType::JumpIf,
        operand: Some(0),
    }, plain(InstructionType::Halt)];
    let m0 = start(p);
    let m1 = Machine { stack: seq![1], ip: 1, ..m0 };
    assert(m0.stack.push(1) =~= m1.stack);
    assert(step(m0) == Ok::<(Machine, Option<Integer>), Trap>((m1, None)));
    assert(m1.stack.drop_last() =~= m0.stack);
    assert(step(m1) == Ok::<(Machine, Option<Integer>), Trap>((m0, None)));
    let e = Seq::<Integer>::empty();
    assert(e + e =~= e);
    if k == 0 {
        assert(run_steps(m1, 0) == (m1, e, Ok::<bool, Trap>(false)));
    } else {
        lemma_jump_if_loop((k - 1) as nat);
        assert(run_steps(m1, (2 * k - 1) as nat) == run_steps(m0, (2 * k - 2) as nat));
        assert(run_steps(m1, 2 * k) == run_steps(m0, (2 * k - 1) as nat));
    }
}

/// A line whose trimmed text has three or more space-separated fields is
/// refused with `IllegalOperation`.
pub proof fn lemma_too_many_fields(line: Seq<char>)
    requires
        split(trim(line), ' ').len() >= 3,
    ensures
        parse_line(line) == Err::<Instruction, UVMError>(UVMError::IllegalOperation),
{
}

/// A line whose first field is not an unsigned 8-bit integer is refused with
/// `IllegalOperation`.
pub proof fn lemma_bad_opcode_field(line: Seq<char>)
    requires
        parse_u8(trim(split(trim(line), ' ')[0])) is None,
    ensures
        parse_line(line) == Err::<Instruction, UVMError>(UVMError::IllegalOperation),
{
}

/// A line with an opcode that takes an operand and a second field that is not
/// a signed 64-bit integer is refused with `IllegalOperand`.
pub proof fn lemma_bad_operand_field(line: Seq<char>)
    requires
        split(trim(line), ' ').len() == 2,
        parse_u8(trim(split(trim(line), ' ')[0])) matches Some(tag) && opcode_of(tag) matches Some(
            op,
        ) && takes_operand(op),
        parse_i64(trim(split(trim(line), ' ')[1])) is None,
    ensures
        parse_line(line) == Err::<Instruction, UVMError>(UVMError::IllegalOperand),
{
}

proof fn lemma_digits_of(n: nat)
    ensures
        digits_of(n).len() >= 1,
        all_digits(digits_of(n)),
        digits_value(digits_of(n)) == n,
    decreases n,
{
    let c = digit_char(n % 10);
    assert(is_digit(c) && digit_value(c) == n % 10);
    if n < 10 {
        assert(seq![c].drop_last() =~= Seq::<char>::empty());
        assert(digits_value(seq![c]) == digits_value(Seq::<char>::empty()) * 10 + digit_value(c));
    } else {
        lemma_digits_of(n / 10);
        let d = digits_of(n / 10);
        assert(d.push(c).drop_last() =~= d);
        assert(digits_value(d.push(c)) == digits_value(d) * 10 + digit_value(c));
        assert(n == (n / 10) * 10 + n % 10);
        assert forall|i: int| 0 <= i < d.push(c).len() implies is_digit(#[trigger] d.push(c)[i]) by {
            if i < d.len() {
                assert(d.push(c)[i] == d[i]);
            }
        }
    }
}

proof fn lemma_trim_fixed(s: Seq<char>)
    requires
        s.len() >= 1,
        !is_ws(s[0]),
        !is_ws(s.last()),
    ensures
        trim(s) == s,
{
}

proof fn lemma_split_single(s: Seq<char>, sep: char)
    requires
        forall|i: int| 0 <= i < s.len() ==> #[trigger] s[i] != sep,
    ensures
        split(s, sep) == seq![s],
    decreases s.len(),
{
    if s.len() == 0 {
        assert(s =~= Seq::<char>::empty());
        assert(split(s, sep) =~= seq![s]);
    } else {
        let t = s.drop_last();
        assert forall|i: int| 0 <= i < t.len() implies #[trigger] t[i] != sep by {
            assert(t[i] == s[i]);
        }
        lemma_split_single(t, sep);
        assert(s[s.len() - 1] != sep);
        assert(t.push(s.last()) =~= s);
        let p = split(t, sep);
        assert(split(s, sep) == p.update(p.len() - 1, p.last().push(s.last())));
        assert(p.update(0, t.push(s.last())) =~= seq![s]);
    }
}

proof fn lemma_split_pair(x: Seq<char>, y: Seq<char>, sep: char)
    requires
        forall|i: int| 0 <= i < x.len() ==> #[trigger] x[i] != sep,
        forall|i: int| 0 <= i < y.len() ==> #[trigger] y[i] != sep,
    ensures
        split(x + seq![sep] + y, sep) == seq![x, y],
    decreases y.len(),
{
    let s = x + seq![sep] + y;
    if y.len() == 0 {
        lemma_split_single(x, sep);
        assert(s.drop_last() =~= x);
        assert(y =~= Seq::<char>::empty());
        assert(split(s, sep) =~= seq![x, y]);
    } else {
        let y0 = y.drop_last();
        assert forall|i: int| 0 <= i < y0.len() implies #[trigger] y0[i] != sep by {
            assert(y0[i] == y[i]);
        }
        lemma_split_pair(x, y0, sep);
        assert(s.drop_last() =~= x + seq![sep] + y0);
        assert(s.last() == y.last());
        assert(y[y.len() - 1] != sep);
        assert(y0.push(y.last()) =~= y);
        let p = split(s.drop_last(), sep);
        assert(split(s, sep) == p.update(p.len() - 1, p.last().push(s.last())));
        assert(p.update(1, y0.push(y.last())) =~= seq![x, y]);
    }
}

proof fn lemma_show_int(v: Integer)
    ensures
        show_int(v as int).len() >= 1,
        !is_ws(show_int(v as int)[0]),
        is_digit(show_int(v as int).last()),
        forall|i: int|
            0 <= i < show_int(v as int).len() ==> #[trigger] show_int(v as int)[i] != ' ',
        parse_i64(show_int(v as int)) == Some(v),
{
    let t = show_int(v as int);
    if v < 0 {
        let d = digits_of((-v) as nat);
        lemma_digits_of((-v) as nat);
        assert(t.drop_first() =~= d);
        assert(t.last() == d.last());
        assert forall|i: int| 0 <= i < t.len() implies #[trigger] t[i] != ' ' by {
            if i > 0 {
                assert(t[i] == d[i - 1]);
                assert(is_digit(d[i - 1]));
            }
        }
        assert(natural_value(t.drop_first()) == Some(-v));
        assert(signed_value(t) == Some(v as int));
    } else {
        lemma_digits_of(v as nat);
        assert(is_digit(t[0]));
        assert(is_digit(t[t.len() - 1]));
        assert forall|i: int| 0 <= i < t.len() implies #[trigger] t[i] != ' ' by {
            assert(is_digit(t[i]));
        }
        assert(unsigned_value(t) == Some(v as int));
    }
}

proof fn lemma_show_tag(tag: u8)
    ensures
        digits_of(tag as nat).len() >= 1,
        is_digit(digits_of(tag as nat)[0]),
        is_digit(digits_of(tag as nat).last()),
        forall|i: int|
            0 <= i < digits_of(tag as nat).len() ==> #[trigger] digits_of(tag as nat)[i] != ' ',
        parse_u8(digits_of(tag as nat)) == Some(tag),
{
    let d = digits_of(tag as nat);
    lemma_digits_of(tag as nat);
    assert(is_digit(d[0]));
    assert(is_digit(d[d.len() - 1]));
    assert forall|i: int| 0 <= i < d.len() implies #[trigger] d[i] != ' ' by {
        assert(is_digit(d[i]));
    }
    assert(unsigned_value(d) == Some(tag as int));
}

/// Every instruction whose operand matches its opcode's arity is read back
/// from its textual form as itself.
pub proof fn lemma_show_parses_back(i: Instruction)
    requires
        i.well_formed(),
    ensures
        parse_line(show_instruction(i)) == Ok::<Instruction, UVMError>(i),
{
    let tag = tag_of(i.instruction_type);
    let d = digits_of(tag as nat);
    lemma_show_tag(tag);
    assert(opcode_of(tag) == Some(i.instruction_type));
    match i.operand {
        Some(v) => {
            let t = show_int(v as int);
            lemma_show_int(v);
            let line = d + seq![' '] + t;
            assert(line[0] == d[0]);
            assert(line.last() == t.last());
            lemma_trim_fixed(line);
            lemma_split_pair(d, t, ' ');
            lemma_trim_fixed(d);
            lemma_trim_fixed(t);
            assert(decode(tag, Some(v)) == Ok::<Instruction, UVMError>(i));
        },
        None => {
            lemma_trim_fixed(d);
            lemma_split_single(d, ' ');
            assert(decode(tag, None) == Ok::<Instruction, UVMError>(i));
        },
    }
}

/// Round trip: whatever instruction the loader reads from a line, its textual
/// form reads back as the same instruction, and as a one-line program.
pub proof fn lemma_round_trip(line: Seq<char>, i: Instruction)
    requires
        parse_line(line) == Ok::<Instruction, UVMError>(i),
    ensures
        i.well_formed(),
        parse_line(show_instruction(i)) == Ok::<Instruction, UVMError>(i),
        parse_source(show_instruction(i)) == Ok::<Seq<Instruction>, UVMError>(seq![i]),
{
    lemma_show_parses_back(i);
    let text = show_instruction(i);
    let tag = tag_of(i.instruction_type);
    let d = digits_of(tag as nat);
    lemma_show_tag(tag);
    let no_newline = forall|k: int| 0 <= k < text.len() ==> #[trigger] text[k] != '\n';
    match i.operand {
        Some(v) => {
            lemma_show_int(v);
            let t = show_int(v as int);
            assert(text[0] == d[0]);
            assert(text.last() == t.last());
            assert forall|k: int| 0 <= k < text.len() implies #[trigger] text[k] != '\n' by {
                if k < d.len() {
                    assert(text[k] == d[k]);
                    assert(is_digit(d[k])) by {
                        lemma_digits_of(tag as nat);
                    }
                } else if k > d.len() {
                    assert(text[k] == t[k - d.len() - 1]);
                    if v < 0 {
                        if k > d.len() + 1 {
                            lemma_digits_of((-v) as nat);
                            assert(t[k - d.len() - 1] == digits_of((-v) as nat)[k - d.len() - 2]);
                        }
                    } else {
                        lemma_digits_of(v as nat);
                    }
                }
            }
        },
        None => {
            lemma_digits_of(tag as nat);
            assert forall|k: int| 0 <= k < text.len() implies #[trigger] text[k] != '\n' by {
                assert(is_digit(d[k]));
            }
        },
    }
    lemma_trim_fixed(text);
    lemma_split_single(text, '\n');
    let lines = seq![text];
    assert(trim(text) == text);
    assert(split(trim(text), '\n') == lines);
    assert(lines.drop_first() =~= Seq::<Seq<char>>::empty());
    assert(lines[0] == text);
    assert(seq![i] + Seq::<Instruction>::empty() =~= seq![i]);
    assert(parse_lines(lines.drop_first()) == Ok::<Seq<Instruction>, UVMError>(Seq::empty()));
    assert(parse_lines(lines) == Ok::<Seq<Instruction>, UVMError>(seq![i]));
}

} // verus!
