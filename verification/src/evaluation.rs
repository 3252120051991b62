use vstd::prelude::*;

use crate::context::{variable_error_is, variable_ok, variable_value, Context};
use crate::error::Error;
use crate::item::Function;
use crate::node::Node;
use crate::span::{Span, Spanned};
use crate::token::{Numeric, Operator};

verus! {

// --- Judging binary64 bit patterns -------------------------------------------
// Numbers travel through evaluation as the bit patterns of IEEE binary64
// values. The few judgements evaluation itself must make about a number —
// is it zero, is it fit for a real root, negate it, strip its sign — are
// exact bit manipulations of that format, so they are made here, verified,
// rather than asked of the caller.

/// All bits but the sign are clear: the value is a (positive or negative)
/// zero, the only values that compare equal to zero.
pub open spec fn bits_is_zero(b: u64) -> bool {
    b & 0x7fff_ffff_ffff_ffff == 0
}

/// Exponent all ones with a non-zero mantissa: the pattern is not a number.
pub open spec fn bits_is_nan(b: u64) -> bool {
    (b >> 52) & 0x7ff == 0x7ff && (b & 0xf_ffff_ffff_ffff) != 0
}

/// The value compares greater than or equal to zero: its sign bit is clear
/// and it is a number, or it is the negative zero.
pub open spec fn bits_ge_zero(b: u64) -> bool {
    ((b >> 63) == 0 && !bits_is_nan(b)) || b == 0x8000_0000_0000_0000
}

/// Negation of a binary64 flips exactly the sign bit.
pub open spec fn bits_negate(b: u64) -> u64 {
    b ^ 0x8000_0000_0000_0000
}

/// The absolute value of a binary64 clears exactly the sign bit.
pub open spec fn bits_abs(b: u64) -> u64 {
    b & 0x7fff_ffff_ffff_ffff
}

fn is_zero(b: u64) -> (r: bool)
    ensures
        r == bits_is_zero(b),
{
    b & 0x7fff_ffff_ffff_ffff == 0
}

fn ge_zero(b: u64) -> (r: bool)
    ensures
        r == bits_ge_zero(b),
{
    let nan = (b >> 52) & 0x7ff == 0x7ff && (b & 0xf_ffff_ffff_ffff) != 0;
    ((b >> 63) == 0 && !nan) || b == 0x8000_0000_0000_0000
}

// --- The instruction form of a tree -------------------------------------------

/// One step of an evaluation, in operand-first order.
pub enum Instruction {
    /// Put a literal's value on the stack.
    Literal(Spanned<Numeric>),
    /// Look a variable up in the context and put its value on the stack.
    Variable(Spanned<Vec<u8>>),
    /// Apply a unary function to the top of the stack. The span is the
    /// operand's, where a root of a negative number is reported.
    Apply(Function, Span),
    /// Combine the two topmost stack values. The span is the right
    /// operand's, where a division by zero is reported.
    Binary(Operator, Span),
}

/// The operand-first reading of a tree: children before the operation that
/// combines them.
pub open spec fn postorder(n: Spanned<Node>) -> Seq<Instruction>
    decreases n,
{
    match n.node {
        Node::Terminal(terminal) => seq![
            Instruction::Literal(Spanned { node: terminal, span: n.span }),
        ],
        Node::Variable(variable) => seq![
            Instruction::Variable(Spanned { node: variable, span: n.span }),
        ],
        Node::Function(function, child) => postorder(*child) + seq![
            Instruction::Apply(function, child.span),
        ],
        Node::Operator(operator, left, right) => (postorder(*left) + postorder(*right)) + seq![
            Instruction::Binary(operator.node, right.span),
        ],
    }
}

/// How many stack values an instruction consumes.
pub open spec fn instruction_pops(i: Instruction) -> int {
    match i {
        Instruction::Literal(_) => 0,
        Instruction::Variable(_) => 0,
        Instruction::Apply(_, _) => 1,
        Instruction::Binary(_, _) => 2,
    }
}

/// The stack height after running the rest of a program from position `i`
/// with height `h`, if no instruction ever runs short of operands.
pub open spec fn height_after(program: Seq<Instruction>, i: int, h: int) -> Option<int>
    decreases program.len() - i,
{
    if i < 0 || i >= program.len() {
        Some(h)
    } else if h >= instruction_pops(program[i]) {
        height_after(program, i + 1, h - instruction_pops(program[i]) + 1)
    } else {
        None
    }
}

proof fn lemma_height_shift(a: Seq<Instruction>, b: Seq<Instruction>, k: int, h: int)
    requires
        0 <= k,
    ensures
        height_after(a + b, a.len() + k, h) == height_after(b, k, h),
    decreases b.len() - k,
{
    if k < b.len() {
        assert((a + b)[a.len() + k] == b[k]);
        if h >= instruction_pops(b[k]) {
            lemma_height_shift(a, b, k + 1, h - instruction_pops(b[k]) + 1);
        }
    }
}

proof fn lemma_height_append(a: Seq<Instruction>, b: Seq<Instruction>, i: int, h: int)
    requires
        0 <= i <= a.len(),
    ensures
        height_after(a + b, i, h) == (match height_after(a, i, h) {
            None => None,
            Some(m) => height_after(b, 0, m),
        }),
    decreases a.len() - i,
{
    if i == a.len() {
        lemma_height_shift(a, b, 0, h);
    } else {
        assert((a + b)[i] == a[i]);
        if h >= instruction_pops(a[i]) {
            lemma_height_append(a, b, i + 1, h - instruction_pops(a[i]) + 1);
        }
    }
}

/// A tree's program always leaves exactly one more value on the stack.
proof fn lemma_postorder_height(n: Spanned<Node>, h: int)
    requires
        h >= 0,
    ensures
        height_after(postorder(n), 0, h) == Some(h + 1),
    decreases n,
{
    match n.node {
        Node::Terminal(_) => {
            reveal_with_fuel(height_after, 3);
            assert(postorder(n).len() == 1);
            assert(instruction_pops(postorder(n)[0]) == 0);
            assert(height_after(postorder(n), 1, h + 1) == Some(h + 1));
        },
        Node::Variable(_) => {
            reveal_with_fuel(height_after, 3);
            assert(postorder(n).len() == 1);
            assert(instruction_pops(postorder(n)[0]) == 0);
            assert(height_after(postorder(n), 1, h + 1) == Some(h + 1));
        },
        Node::Function(function, child) => {
            reveal_with_fuel(height_after, 3);
            lemma_postorder_height(*child, h);
            lemma_height_append(
                postorder(*child),
                seq![Instruction::Apply(function, child.span)],
                0,
                h,
            );
            assert(height_after(seq![Instruction::Apply(function, child.span)], 0, h + 1) == Some(
                h + 1,
            ));
        },
        Node::Operator(operator, left, right) => {
            reveal_with_fuel(height_after, 3);
            lemma_postorder_height(*left, h);
            lemma_postorder_height(*right, h + 1);
            lemma_height_append(postorder(*left), postorder(*right), 0, h);
            lemma_height_append(
                postorder(*left) + postorder(*right),
                seq![Instruction::Binary(operator.node, right.span)],
                0,
                h,
            );
            assert(height_after(seq![Instruction::Binary(operator.node, right.span)], 0, h + 2)
                == Some(h + 1));
        },
    }
}

/// Appends a tree's program: children first, then the operation.
fn compile(node: Spanned<Node>, program: &mut Vec<Instruction>)
    ensures
        final(program)@ == old(program)@ + postorder(node),
    decreases node,
{
    let ghost this = node;
    let span = node.span;
    match node.node {
        Node::Terminal(terminal) => {
            program.push(Instruction::Literal(Spanned::new(terminal, span)));
            proof {
                assert(program@ =~= old(program)@ + postorder(this));
            }
        },
        Node::Variable(variable) => {
            let ghost name = variable@;
            program.push(Instruction::Variable(Spanned::new(variable, span)));
            proof {
                assert(program@ =~= old(program)@ + postorder(this));
            }
        },
        Node::Function(function, child) => {
            let child_span = child.span;
            proof {
                assert(decreases_to!(this => this.node));
                assert(decreases_to!(this.node => *child));
            }
            compile(*child, program);
            program.push(Instruction::Apply(function, child_span));
            proof {
                assert(program@ =~= old(program)@ + postorder(this));
            }
        },
        Node::Operator(operator, left, right) => {
            let right_span = right.span;
            proof {
                assert(decreases_to!(this => this.node));
                assert(decreases_to!(this.node => *left));
                assert(decreases_to!(this.node => *right));
            }
            compile(*left, program);
            compile(*right, program);
            program.push(Instruction::Binary(operator.node, right_span));
            proof {
                assert(program@ =~= old(program)@ + postorder(this));
            }
        },
    }
}

// --- What the machine asks of its driver ----------------------------------------

/// One numeric operation the machine cannot perform on bit patterns alone
/// and hands to its driver.
pub enum Request {
    /// Parse the decimal literal at this byte range of the input text and
    /// return the bit pattern of its binary64 value.
    Parse(Span),
    /// Return the bit pattern of the binary64 value nearest this integer.
    Convert(i64),
    /// Apply a unary function to the value with this bit pattern.
    Apply(Function, u64),
    /// Combine two values, left then right, with a binary operator.
    Binary(Operator, u64, u64),
}

/// What one step of the machine produced.
pub enum StepResult {
    /// An instruction was retired without outside help; step again.
    Working,
    /// The driver must perform the requested operation and hand the result
    /// to `provide` before stepping again.
    Compute(Request),
    /// Evaluation finished with this value's bit pattern.
    Finished(u64),
    /// Evaluation failed; the span points into the input text.
    Failed(Spanned<Error>),
}

// --- The machine -------------------------------------------------------------------

/// Evaluation of one tree, one instruction at a time. The machine makes
/// every decision itself — zero tests, domain tests, variable lookups,
/// error spans — and asks its driver only to carry out the arithmetic.
/// Stepping a finished or failed machine is harmless: it repeats its
/// answer and changes nothing.
pub struct Evaluation {
    pub program: Vec<Instruction>,
    pub position: usize,
    pub stack: Vec<u64>,
    pub awaiting: bool,
}

impl Evaluation {
    /// Between steps the remaining program always consumes the stack
    /// cleanly down to a single result; while an answer is awaited, that
    /// holds once the answer is pushed.
    pub open spec fn wf(self) -> bool {
        &&& self.position <= self.program@.len()
        &&& if self.awaiting {
            &&& self.position < self.program@.len()
            &&& height_after(
                self.program@,
                self.position + 1,
                self.stack@.len() as int + 1,
            ) == Some(1int)
        } else {
            height_after(self.program@, self.position as int, self.stack@.len() as int) == Some(
                1int,
            )
        }
    }

    pub open spec fn blocked(self) -> bool {
        self.awaiting
    }

    /// Retires the instruction at the current position, or reports what
    /// the driver must compute first, or the final value, or the failure.
    pub fn step(&mut self, context: &Context) -> (r: StepResult)
        requires
            old(self).wf(),
            !old(self).blocked(),
            context.wf(),
        ensures
            final(self).wf(),
            final(self).program@ == old(self).program@,
            ({
                let machine = *old(self);
                let position = machine.position as int;
                let program = machine.program@;
                let stack = machine.stack@;
                if position == program.len() {
                    &&& stack.len() == 1
                    &&& r == StepResult::Finished(stack[0])
                    &&& *final(self) == machine
                } else {
                    match program[position] {
                        Instruction::Literal(literal) => match literal.node {
                            Numeric::Bits(b) => {
                                &&& r == StepResult::Working
                                &&& final(self).stack@ == stack.push(b)
                                &&& final(self).position == position + 1
                                &&& !final(self).blocked()
                            },
                            Numeric::Decimal => {
                                &&& r == StepResult::Compute(Request::Parse(literal.span))
                                &&& final(self).stack@ == stack
                                &&& final(self).position == position
                                &&& final(self).blocked()
                            },
                            Numeric::Integer(v) => {
                                &&& r == StepResult::Compute(Request::Convert(v))
                                &&& final(self).stack@ == stack
                                &&& final(self).position == position
                                &&& final(self).blocked()
                            },
                        },
                        Instruction::Variable(variable) => {
                            if variable_ok(*context, variable.node@) {
                                &&& r == StepResult::Working
                                &&& final(self).stack@ == stack.push(
                                    variable_value(*context, variable.node@),
                                )
                                &&& final(self).position == position + 1
                                &&& !final(self).blocked()
                            } else {
                                &&& (r matches StepResult::Failed(e) && e.span == variable.span
                                    && variable_error_is(*context, variable.node@, e.node))
                                &&& *final(self) == machine
                            }
                        },
                        Instruction::Apply(function, operand_span) => {
                            let operand = stack.last();
                            match function {
                                Function::UnaryMinus => {
                                    &&& r == StepResult::Working
                                    &&& final(self).stack@ == stack.drop_last().push(
                                        bits_negate(operand),
                                    )
                                    &&& final(self).position == position + 1
                                    &&& !final(self).blocked()
                                },
                                Function::AbsoluteValue => {
                                    &&& r == StepResult::Working
                                    &&& final(self).stack@ == stack.drop_last().push(
                                        bits_abs(operand),
                                    )
                                    &&& final(self).position == position + 1
                                    &&& !final(self).blocked()
                                },
                                Function::SquareRoot | Function::CubeRoot => {
                                    if bits_ge_zero(operand) {
                                        &&& r == StepResult::Compute(
                                            Request::Apply(function, operand),
                                        )
                                        &&& final(self).stack@ == stack.drop_last()
                                        &&& final(self).position == position
                                        &&& final(self).blocked()
                                    } else {
                                        &&& r == StepResult::Failed(
                                            Spanned {
                                                node: Error::NegativeRoot,
                                                span: operand_span,
                                            },
                                        )
                                        &&& *final(self) == machine
                                    }
                                },
                                _ => {
                                    &&& r == StepResult::Compute(
                                        Request::Apply(function, operand),
                                    )
                                    &&& final(self).stack@ == stack.drop_last()
                                    &&& final(self).position == position
                                    &&& final(self).blocked()
                                },
                            }
                        },
                        Instruction::Binary(operator, right_span) => {
                            let right = stack.last();
                            let left = stack[stack.len() - 2];
                            if (operator == Operator::Divide || operator == Operator::Modulo)
                                && bits_is_zero(right) {
                                &&& r == StepResult::Failed(
                                    Spanned { node: Error::ZeroDivision, span: right_span },
                                )
                                &&& *final(self) == machine
                            } else {
                                &&& r == StepResult::Compute(
                                    Request::Binary(operator, left, right),
                                )
                                &&& final(self).stack@ == stack.drop_last().drop_last()
                                &&& final(self).position == position
                                &&& final(self).blocked()
                            }
                        },
                    }
                }
            }),
    {
        if self.position >= self.program.len() {
            return StepResult::Finished(self.stack[0]);
        }
        let span_and_kind = &self.program[self.position];
        match span_and_kind {
            Instruction::Literal(literal) => {
                let span = literal.span;
                match literal.node {
                    Numeric::Bits(b) => {
                        self.stack.push(b);
                        self.position += 1;
                        StepResult::Working
                    },
                    Numeric::Decimal => {
                        self.awaiting = true;
                        StepResult::Compute(Request::Parse(span))
                    },
                    Numeric::Integer(v) => {
                        self.awaiting = true;
                        StepResult::Compute(Request::Convert(v))
                    },
                }
            },
            Instruction::Variable(variable) => {
                let span = variable.span;
                let looked = context.variable(variable.node.as_slice());
                match looked {
                    Ok(bits) => {
                        self.stack.push(bits);
                        self.position += 1;
                        StepResult::Working
                    },
                    Err(error) => StepResult::Failed(Spanned::new(error, span)),
                }
            },
            Instruction::Apply(function, operand_span) => {
                let function = *function;
                let operand_span = *operand_span;
                match function {
                    Function::UnaryMinus => {
                        let operand = self.stack.pop().unwrap();
                        self.stack.push(operand ^ 0x8000_0000_0000_0000);
                        self.position += 1;
                        StepResult::Working
                    },
                    Function::AbsoluteValue => {
                        let operand = self.stack.pop().unwrap();
                        self.stack.push(operand & 0x7fff_ffff_ffff_ffff);
                        self.position += 1;
                        StepResult::Working
                    },
                    Function::SquareRoot | Function::CubeRoot => {
                        let operand = *self.stack.last().unwrap();
                        if ge_zero(operand) {
                            let operand = self.stack.pop().unwrap();
                            self.awaiting = true;
                            StepResult::Compute(Request::Apply(function, operand))
                        } else {
                            StepResult::Failed(Spanned::new(Error::NegativeRoot, operand_span))
                        }
                    },
                    _ => {
                        let operand = self.stack.pop().unwrap();
                        self.awaiting = true;
                        StepResult::Compute(Request::Apply(function, operand))
                    },
                }
            },
            Instruction::Binary(operator, right_span) => {
                let operator = *operator;
                let right_span = *right_span;
                let right = *self.stack.last().unwrap();
                if (operator == Operator::Divide || operator == Operator::Modulo) && is_zero(
                    right,
                ) {
                    StepResult::Failed(Spanned::new(Error::ZeroDivision, right_span))
                } else {
                    let right = self.stack.pop().unwrap();
                    let left = self.stack.pop().unwrap();
                    self.awaiting = true;
                    StepResult::Compute(Request::Binary(operator, left, right))
                }
            },
        }
    }

    /// Hands the machine the result of the operation it asked for.
    pub fn provide(&mut self, value: u64)
        requires
            old(self).wf(),
            old(self).blocked(),
        ensures
            final(self).wf(),
            !final(self).blocked(),
            final(self).program@ == old(self).program@,
            final(self).stack@ == old(self).stack@.push(value),
            final(self).position == old(self).position + 1,
    {
        self.stack.push(value);
        let limit = self.program.len();
        proof {
            assert(self.position < limit);
        }
        self.position += 1;
        self.awaiting = false;
    }
}

impl Spanned<Node> {
    /// Turns a tree into a fresh evaluation machine positioned at its
    /// first instruction.
    pub fn evaluate(self) -> (machine: Evaluation)
        ensures
            machine.wf(),
            !machine.blocked(),
            machine.program@ == postorder(self),
            machine.position == 0,
            machine.stack@ == Seq::<u64>::empty(),
    {
        let ghost this = self;
        let mut program: Vec<Instruction> = Vec::new();
        compile(self, &mut program);
        proof {
            lemma_postorder_height(this, 0);
            assert(Seq::<Instruction>::empty() + postorder(this) =~= postorder(this));
        }
        Evaluation { program, position: 0, stack: Vec::new(), awaiting: false }
    }
}

} // verus!
