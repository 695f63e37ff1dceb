//! The assembly builder: owns the output sections, the state of the function
//! currently being emitted, its local-variable slots and the register tables
//! of the calling conventions, and offers the primitive emission operations.
use vstd::prelude::*;

use crate::return_code::{Code, Return};
use crate::text::{chars_to_string, decimal, push_chars, push_decimal, push_str};

verus! {

/// Abstract state of a [`Builder`].
pub struct BuilderView {
    pub data: Seq<char>,
    pub bss: Seq<char>,
    pub text: Seq<char>,
    /// Instructions of the function being emitted, not yet flushed to `text`.
    pub body: Seq<char>,
    pub in_function: bool,
    /// Size in bytes of each local of the open function, in declaration order.
    pub local_sizes: Seq<u32>,
    /// Cumulative stack offset of each local of the open function.
    pub local_offsets: Seq<u32>,
    pub func_args: Seq<Seq<char>>,
    pub syscall_args: Seq<Seq<char>>,
    /// Name of the process entry label that `build` emits.
    pub start_symbol: Seq<char>,
}

/// Sum of a sequence of slot sizes.
pub open spec fn sum_sizes(s: Seq<u32>) -> int
    decreases s.len(),
{
    if s.len() == 0 {
        0
    } else {
        sum_sizes(s.drop_last()) + s.last()
    }
}

/// A line of a section at directive indentation.
pub open spec fn line_of(s: Seq<char>) -> Seq<char> {
    seq!['\t'] + s + seq!['\n']
}

/// A line of a section at instruction indentation.
pub open spec fn value_of(s: Seq<char>) -> Seq<char> {
    seq!['\t', '\t'] + s + seq!['\n']
}

/// The padding between a mnemonic and its first operand.
pub open spec fn op_pad(op: Seq<char>) -> Seq<char> {
    if op.len() > 3 {
        seq!['\t', '\t', '\t']
    } else {
        seq!['\t', '\t', '\t', '\t']
    }
}

/// An instruction line with one operand.
pub open spec fn asm2(op: Seq<char>, left: Seq<char>) -> Seq<char> {
    value_of(op + op_pad(op) + left)
}

/// An instruction line with two operands.
pub open spec fn asm3(op: Seq<char>, left: Seq<char>, right: Seq<char>) -> Seq<char> {
    value_of(op + op_pad(op) + left + seq![',', ' '] + right)
}

/// The `mov` lines that load each argument into the register at its position.
pub open spec fn arg_moves(regs: Seq<Seq<char>>, args: Seq<Seq<char>>) -> Seq<char>
    decreases args.len(),
{
    if args.len() == 0 {
        Seq::empty()
    } else {
        arg_moves(regs, args.drop_last()) + asm3(
            "mov"@,
            regs[args.len() - 1],
            args.last(),
        )
    }
}

/// The memory operand of a local slot: `<width> [rsp - <offset>]`.
pub open spec fn slot_operand(width: Seq<char>, offset: nat) -> Seq<char> {
    width + " [rsp - "@ + decimal(offset) + seq![']']
}

/// The byte value that a character stands for in a data literal.
pub open spec fn char_byte(c: char) -> nat {
    (c as u32 % 256) as nat
}

/// The comma-terminated byte values of the characters of `s`.
pub open spec fn byte_items(s: Seq<char>) -> Seq<char>
    decreases s.len(),
{
    if s.len() == 0 {
        Seq::empty()
    } else {
        byte_items(s.drop_last()) + decimal(char_byte(s.last())) + seq![',', ' ']
    }
}

/// The data line declaring `value` as a zero-terminated byte list at label `addr`.
pub open spec fn string_literal_line(addr: Seq<char>, value: Seq<char>) -> Seq<char> {
    line_of(addr + ": db "@ + byte_items(value) + seq!['0'])
}

/// The opening of the text section that declares the entry label global.
pub open spec fn base_start(start: Seq<char>) -> Seq<char> {
    "section .text\n    global "@ + start + seq!['\n']
}

/// The program epilogue: the entry label calls `main`, then exits with its result.
pub open spec fn base_end(start: Seq<char>) -> Seq<char> {
    "\n    "@ + start + ":\n        call            main\n        mov             rbx, rax\n\n        mov             rax, 60                 ; system call for exit\n        mov             rdi, rbx\n        syscall\n"@
}

/// Default integer argument registers of the function-call convention.
pub open spec fn default_func_args() -> Seq<Seq<char>> {
    seq!["edi"@, "esi"@, "edx"@, "ecx"@, "r8d"@, "r9d"@]
}

/// Default registers of the system-call convention: the call number, then six arguments.
pub open spec fn default_syscall_args() -> Seq<Seq<char>> {
    seq!["rax"@, "rdi"@, "rsi"@, "rdx"@, "r10"@, "r8"@, "r9"@]
}

pub open spec fn strings_view(v: Seq<String>) -> Seq<Seq<char>> {
    v.map_values(|s: String| s@)
}

pub open spec fn strs_view(v: Seq<&str>) -> Seq<Seq<char>> {
    v.map_values(|s: &str| s@)
}

/// Number of registers in the function-call table.
pub const FUNC_ARG_SLOTS: usize = 6;

/// Number of registers in the system-call table.
pub const SYSCALL_ARG_SLOTS: usize = 7;

pub struct Builder {
    text: Vec<char>,
    bss: Vec<char>,
    data: Vec<char>,
    function_body: Vec<char>,
    is_function_currently: bool,
    local_variables: Vec<u32>,
    local_variables_offset: Vec<u32>,
    func_args_order: Vec<String>,
    syscall_args_ordering: Vec<String>,
    start_symbol: Vec<char>,
}

impl View for Builder {
    type V = BuilderView;

    closed spec fn view(&self) -> BuilderView {
        BuilderView {
            data: self.data@,
            bss: self.bss@,
            text: self.text@,
            body: self.function_body@,
            in_function: self.is_function_currently,
            local_sizes: self.local_variables@,
            local_offsets: self.local_variables_offset@,
            func_args: strings_view(self.func_args_order@),
            syscall_args: strings_view(self.syscall_args_ordering@),
            start_symbol: self.start_symbol@,
        }
    }
}

impl BuilderView {
    /// The slot table holds each local's cumulative offset, and exists only inside a function.
    pub open spec fn locals_wf(self) -> bool {
        &&& self.local_sizes.len() == self.local_offsets.len()
        &&& forall|i: int|
            0 <= i < self.local_offsets.len() ==> #[trigger] self.local_offsets[i] == sum_sizes(
                self.local_sizes.take(i + 1),
            )
        &&& sum_sizes(self.local_sizes) <= u32::MAX
        &&& !self.in_function ==> self.local_sizes.len() == 0
    }

    pub open spec fn wf(self) -> bool {
        &&& self.locals_wf()
        &&& self.func_args.len() == FUNC_ARG_SLOTS
        &&& self.syscall_args.len() == SYSCALL_ARG_SLOTS
    }

    /// Everything but the instructions of the open function is as in `other`.
    pub open spec fn same_but_body(self, other: BuilderView) -> bool {
        &&& self.data == other.data
        &&& self.bss == other.bss
        &&& self.text == other.text
        &&& self.in_function == other.in_function
        &&& self.local_sizes == other.local_sizes
        &&& self.local_offsets == other.local_offsets
        &&& self.func_args == other.func_args
        &&& self.syscall_args == other.syscall_args
        &&& self.start_symbol == other.start_symbol
    }

    /// The state of a new builder whose entry label is `start`.
    pub open spec fn initial(start: Seq<char>) -> BuilderView {
        BuilderView {
            data: "section .data\n"@,
            bss: "section .bss\n"@,
            text: base_start(start),
            body: Seq::empty(),
            in_function: false,
            local_sizes: Seq::empty(),
            local_offsets: Seq::empty(),
            func_args: default_func_args(),
            syscall_args: default_syscall_args(),
            start_symbol: start,
        }
    }
}


/// A string holding exactly the characters of `s`.
fn owned(s: &str) -> (r: String)
    ensures
        r@ == s@,
{
    broadcast use vstd::string::group_string_axioms;

    s.to_string()
}

fn message(s: &str, code: Code) -> (r: Return)
    ensures
        r.code == code,
{
    Return::new(owned(s), code)
}

impl Default for Builder {
    fn default() -> (r: Self)
        ensures
            r@ == BuilderView::initial("_start"@),
            r@.wf(),
    {
        Builder::new_program("_start")
    }
}

impl Builder {
    /// A builder whose process entry label is `_start`.
    pub fn new() -> (r: Self)
        ensures
            r@ == BuilderView::initial("_start"@),
            r@.wf(),
    {
        Builder::new_program("_start")
    }

    /// A builder whose process entry label is `start_function`.
    pub fn new_program(start_function: &str) -> (r: Self)
        ensures
            r@ == BuilderView::initial(start_function@),
            r@.wf(),
    {
        let mut text: Vec<char> = Vec::new();
        push_str(&mut text, "section .text\n    global ");
        push_str(&mut text, start_function);
        text.push('\n');
        let mut bss: Vec<char> = Vec::new();
        push_str(&mut bss, "section .bss\n");
        let mut data: Vec<char> = Vec::new();
        push_str(&mut data, "section .data\n");
        let mut func_args_order: Vec<String> = Vec::new();
        func_args_order.push(owned("edi"));
        func_args_order.push(owned("esi"));
        func_args_order.push(owned("edx"));
        func_args_order.push(owned("ecx"));
        func_args_order.push(owned("r8d"));
        func_args_order.push(owned("r9d"));
        let mut syscall_args_ordering: Vec<String> = Vec::new();
        syscall_args_ordering.push(owned("rax"));
        syscall_args_ordering.push(owned("rdi"));
        syscall_args_ordering.push(owned("rsi"));
        syscall_args_ordering.push(owned("rdx"));
        syscall_args_ordering.push(owned("r10"));
        syscall_args_ordering.push(owned("r8"));
        syscall_args_ordering.push(owned("r9"));
        let mut start_symbol: Vec<char> = Vec::new();
        push_str(&mut start_symbol, start_function);
        let r = Builder {
            text,
            bss,
            data,
            function_body: Vec::new(),
            is_function_currently: false,
            local_variables: Vec::new(),
            local_variables_offset: Vec::new(),
            func_args_order,
            syscall_args_ordering,
            start_symbol,
        };
        assert(r@.text =~= base_start(start_function@));
        assert(r@.func_args =~= default_func_args());
        assert(r@.syscall_args =~= default_syscall_args());
        assert(r@ =~= BuilderView::initial(start_function@));
        r
    }

    fn add_line_text(&mut self, line: &Vec<char>)
        ensures
            final(self)@ == (BuilderView { text: old(self)@.text + line_of(line@), ..old(self)@ }),
    {
        self.text.push('\t');
        push_chars(&mut self.text, line);
        self.text.push('\n');
        assert(self@.text =~= old(self)@.text + line_of(line@));
    }

    fn add_line_data(&mut self, line: &Vec<char>)
        ensures
            final(self)@ == (BuilderView { data: old(self)@.data + line_of(line@), ..old(self)@ }),
    {
        self.data.push('\t');
        push_chars(&mut self.data, line);
        self.data.push('\n');
        assert(self@.data =~= old(self)@.data + line_of(line@));
    }

    fn add_value_function(&mut self, line: &Vec<char>)
        ensures
            final(self)@ == (BuilderView { body: old(self)@.body + value_of(line@), ..old(self)@ }),
    {
        self.function_body.push('\t');
        self.function_body.push('\t');
        push_chars(&mut self.function_body, line);
        self.function_body.push('\n');
        assert(self@.body =~= old(self)@.body + value_of(line@));
    }

    /// Appends `function`, verbatim, to the text section.
    pub fn add_built_in_function(&mut self, function: &str)
        ensures
            final(self)@ == (BuilderView { text: old(self)@.text + function@, ..old(self)@ }),
    {
        push_str(&mut self.text, function);
        assert(self@ =~= (BuilderView { text: old(self)@.text + function@, ..old(self)@ }));
    }

    /// Emits an instruction without operands.
    pub fn add_raw_asm1(&mut self, op: &str)
        ensures
            final(self)@ == (BuilderView { body: old(self)@.body + value_of(op@), ..old(self)@ }),
    {
        let mut line: Vec<char> = Vec::new();
        push_str(&mut line, op);
        assert(line@ =~= op@);
        self.add_value_function(&line);
    }

    fn push_mnemonic(line: &mut Vec<char>, op: &str)
        ensures
            final(line)@ == old(line)@ + op@ + op_pad(op@),
    {
        push_str(line, op);
        if op.unicode_len() > 3 {
            push_str(line, "\t\t\t");
        } else {
            push_str(line, "\t\t\t\t");
        }
        proof {
            reveal_strlit("\t\t\t");
            reveal_strlit("\t\t\t\t");
        }
        assert(line@ =~= old(line)@ + op@ + op_pad(op@));
    }

    /// Emits an instruction with one operand.
    pub fn add_raw_asm2(&mut self, op: &str, left: &str)
        ensures
            final(self)@ == (BuilderView { body: old(self)@.body + asm2(op@, left@), ..old(self)@ }),
    {
        let mut line: Vec<char> = Vec::new();
        Builder::push_mnemonic(&mut line, op);
        push_str(&mut line, left);
        assert(line@ =~= op@ + op_pad(op@) + left@);
        self.add_value_function(&line);
    }

    /// Emits an instruction with two operands.
    pub fn add_raw_asm3(&mut self, op: &str, left: &str, right: &str)
        ensures
            final(self)@ == (BuilderView {
                body: old(self)@.body + asm3(op@, left@, right@),
                ..old(self)@
            }),
    {
        let mut line: Vec<char> = Vec::new();
        Builder::push_mnemonic(&mut line, op);
        push_str(&mut line, left);
        push_str(&mut line, ", ");
        push_str(&mut line, right);
        proof {
            reveal_strlit(", ");
        }
        assert(line@ =~= op@ + op_pad(op@) + left@ + seq![',', ' '] + right@);
        self.add_value_function(&line);
    }

    /// Emits the system-call trap instruction.
    pub fn new_syscall(&mut self)
        ensures
            final(self)@ == (BuilderView { body: old(self)@.body + value_of("syscall"@), ..old(self)@ }),
    {
        self.add_raw_asm1("syscall");
    }

    pub fn pop(&mut self, register: &str)
        ensures
            final(self)@ == (BuilderView { body: old(self)@.body + asm2("pop"@, register@), ..old(self)@ }),
    {
        self.add_raw_asm2("pop", register)
    }

    pub fn push(&mut self, value_or_register: &str)
        ensures
            final(self)@ == (BuilderView {
                body: old(self)@.body + asm2("push"@, value_or_register@),
                ..old(self)@
            }),
    {
        self.add_raw_asm2("push", value_or_register)
    }

    pub fn call(&mut self, function: &str)
        ensures
            final(self)@ == (BuilderView { body: old(self)@.body + asm2("call"@, function@), ..old(self)@ }),
    {
        self.add_raw_asm2("call", function)
    }

    pub fn mov(&mut self, register: &str, value_or_register: &str)
        ensures
            final(self)@ == (BuilderView {
                body: old(self)@.body + asm3("mov"@, register@, value_or_register@),
                ..old(self)@
            }),
    {
        self.add_raw_asm3("mov", register, value_or_register);
    }

    pub fn add(&mut self, register: &str, value_or_register: &str)
        ensures
            final(self)@ == (BuilderView {
                body: old(self)@.body + asm3("add"@, register@, value_or_register@),
                ..old(self)@
            }),
    {
        self.add_raw_asm3("add", register, value_or_register);
    }

    pub fn sub(&mut self, register: &str, value_or_register: &str)
        ensures
            final(self)@ == (BuilderView {
                body: old(self)@.body + asm3("sub"@, register@, value_or_register@),
                ..old(self)@
            }),
    {
        self.add_raw_asm3("sub", register, value_or_register);
    }

    pub fn div(&mut self, register: &str, value_or_register: &str)
        ensures
            final(self)@ == (BuilderView {
                body: old(self)@.body + asm3("div"@, register@, value_or_register@),
                ..old(self)@
            }),
    {
        self.add_raw_asm3("div", register, value_or_register);
    }

    pub fn mul(&mut self, register: &str, value_or_register: &str)
        ensures
            final(self)@ == (BuilderView {
                body: old(self)@.body + asm3("mul"@, register@, value_or_register@),
                ..old(self)@
            }),
    {
        self.add_raw_asm3("mul", register, value_or_register);
    }

    /// Declares `function_or_address` as an externally linked symbol.
    pub fn extern_add(&mut self, function_or_address: &str)
        ensures
            final(self)@ == (BuilderView {
                text: old(self)@.text + line_of("extern\t\t\t\t"@ + function_or_address@),
                ..old(self)@
            }),
    {
        let mut line: Vec<char> = Vec::new();
        push_str(&mut line, "extern\t\t\t\t");
        push_str(&mut line, function_or_address);
        self.add_line_text(&line);
    }

    /// Opens a function frame: emits the label and the prologue.
    pub fn open_function(&mut self, function_name: &str) -> (r: Return)
        ensures
            old(self)@.in_function ==> r.code == Code::FunctionWithinFunctionErr && final(self)@
                == old(self)@,
            !old(self)@.in_function ==> r.code == Code::Good && final(self)@ == (BuilderView {
                in_function: true,
                body: old(self)@.body + function_name@ + seq![':', '\n'] + asm2("push"@, "rbp"@)
                    + asm3("mov"@, "rbp"@, "rsp"@),
                ..old(self)@
            }),
    {
        if self.is_function_currently {
            return message("Cannot Create Function Within a Function", Code::FunctionWithinFunctionErr);
        }
        self.is_function_currently = true;
        push_str(&mut self.function_body, function_name);
        self.function_body.push(':');
        self.function_body.push('\n');
        self.push("rbp");
        self.mov("rbp", "rsp");
        assert(self@.body =~= old(self)@.body + function_name@ + seq![':', '\n'] + asm2("push"@, "rbp"@)
            + asm3("mov"@, "rbp"@, "rsp"@));
        message("Everything Is Fine", Code::Good)
    }

    /// Closes the open function frame: emits the epilogue, flushes the function
    /// into the text section and discards its local slots.
    pub fn close_function(&mut self) -> (r: Return)
        requires
            old(self)@.wf(),
        ensures
            final(self)@.wf(),
            !old(self)@.in_function ==> r.code == Code::ClosingOfNonFunctionErr && final(self)@
                == old(self)@,
            old(self)@.in_function ==> r.code == Code::Good && final(self)@ == (BuilderView {
                in_function: false,
                local_sizes: Seq::empty(),
                local_offsets: Seq::empty(),
                text: old(self)@.text + line_of(
                    old(self)@.body + asm2("pop"@, "rbp"@) + value_of("ret"@),
                ),
                body: Seq::empty(),
                ..old(self)@
            }),
    {
        if !self.is_function_currently {
            return message("Is not in a Function", Code::ClosingOfNonFunctionErr);
        }
        self.local_variables = Vec::new();
        self.local_variables_offset = Vec::new();
        self.is_function_currently = false;
        self.pop("rbp");
        self.add_raw_asm1("ret");
        let body = self.function_body.clone();
        self.add_line_text(&body);
        self.function_body = Vec::new();
        assert(self@ =~= (BuilderView {
            in_function: false,
            local_sizes: Seq::empty(),
            local_offsets: Seq::empty(),
            text: old(self)@.text + line_of(
                old(self)@.body + asm2("pop"@, "rbp"@) + value_of("ret"@),
            ),
            body: Seq::empty(),
            ..old(self)@
        }));
        message("", Code::Good)
    }

    /// Replaces the register table of the function-call convention. The new
    /// table must have as many entries as the current one.
    pub fn set_func_args_order(&mut self, order: Vec<String>) -> (r: Return)
        ensures
            order@.len() != old(self)@.func_args.len() ==> r.code == Code::BadArguments
                && final(self)@ == old(self)@,
            order@.len() == old(self)@.func_args.len() ==> r.code == Code::Good && final(self)@
                == (BuilderView { func_args: strings_view(order@), ..old(self)@ }),
    {
        if order.len() != self.func_args_order.len() {
            let mut m: Vec<char> = Vec::new();
            push_str(&mut m, "Length of order is not equal to base order, expected ");
            push_decimal(&mut m, self.func_args_order.len() as u128);
            push_str(&mut m, " size got ");
            push_decimal(&mut m, order.len() as u128);
            push_str(&mut m, " instead");
            Return::new(chars_to_string(&m), Code::BadArguments)
        } else {
            self.func_args_order = order;
            message("", Code::Good)
        }
    }

    /// Allocates a local slot of `loc_offset` bytes in the open frame and stores
    /// `value_or_register` there with operand width `word_size`. The slot's
    /// offset is the frame's total size including the new slot.
    pub fn local_word_assign(&mut self, loc_offset: u32, word_size: &str, value_or_register: &str) -> (r:
        Return)
        requires
            old(self)@.wf(),
        ensures
            final(self)@.wf(),
            !old(self)@.in_function ==> r.code == Code::LocalVariableNotInFunction && final(self)@
                == old(self)@,
            old(self)@.in_function && sum_sizes(old(self)@.local_sizes) + loc_offset > u32::MAX
                ==> r.code == Code::OutOfRange && final(self)@ == old(self)@,
            r.code == Code::Good ==> sum_sizes(final(self)@.local_sizes) == sum_sizes(
                old(self)@.local_sizes,
            ) + loc_offset,
            old(self)@.in_function && sum_sizes(old(self)@.local_sizes) + loc_offset <= u32::MAX
                ==> r.code == Code::Good && final(self)@ == (BuilderView {
                local_sizes: old(self)@.local_sizes.push(loc_offset),
                local_offsets: old(self)@.local_offsets.push(
                    (sum_sizes(old(self)@.local_sizes) + loc_offset) as u32,
                ),
                body: old(self)@.body + asm3(
                    "mov"@,
                    slot_operand(
                        word_size@,
                        (sum_sizes(old(self)@.local_sizes) + loc_offset) as nat,
                    ),
                    value_or_register@,
                ),
                ..old(self)@
            }),
    {
        if !self.is_function_currently {
            return message(
                "cannot assign local variable not in function",
                Code::LocalVariableNotInFunction,
            );
        }
        let n = self.local_variables_offset.len();
        let current: u32 = if n == 0 {
            0
        } else {
            self.local_variables_offset[n - 1]
        };
        proof {
            let sizes = self@.local_sizes;
            if n > 0 {
                assert(sizes.take(n as int) =~= sizes);
            }
        }
        if loc_offset > u32::MAX - current {
            return message("Local frame exceeds the addressable size", Code::OutOfRange);
        }
        let offset: u32 = current + loc_offset;
        self.local_variables.push(loc_offset);
        self.local_variables_offset.push(offset);
        proof {
            let old_sizes = old(self)@.local_sizes;
            let sizes = self@.local_sizes;
            assert(sizes.drop_last() =~= old_sizes);
            assert forall|i: int| 0 <= i < self@.local_offsets.len() implies #[trigger] self@.local_offsets[i]
                == sum_sizes(sizes.take(i + 1)) by {
                if i < n {
                    assert(sizes.take(i + 1) =~= old_sizes.take(i + 1));
                } else {
                    assert(sizes.take(i + 1) =~= sizes);
                }
            }
        }
        assert(self@.local_sizes.drop_last() =~= old(self)@.local_sizes);
        let mut operand: Vec<char> = Vec::new();
        push_str(&mut operand, word_size);
        push_str(&mut operand, " [rsp - ");
        push_decimal(&mut operand, offset as u128);
        operand.push(']');
        assert(operand@ =~= slot_operand(word_size@, offset as nat));
        let operand = chars_to_string(&operand);
        self.mov(operand.as_str(), value_or_register);
        message("", Code::Good)
    }

    /// Allocates a two-byte local initialised to `value`.
    pub fn new_local_word(&mut self, value: u16) -> (r: Return)
        requires
            old(self)@.wf(),
        ensures
            final(self)@.wf(),
            r.code == Code::Good ==> sum_sizes(final(self)@.local_sizes) == sum_sizes(
                old(self)@.local_sizes,
            ) + 2,
            r.code == Code::Good ==> final(self)@ == (BuilderView {
                local_sizes: old(self)@.local_sizes.push(2),
                local_offsets: old(self)@.local_offsets.push(
                    (sum_sizes(old(self)@.local_sizes) + 2) as u32,
                ),
                body: old(self)@.body + asm3(
                    "mov"@,
                    slot_operand("word"@, (sum_sizes(old(self)@.local_sizes) + 2) as nat),
                    decimal(value as nat),
                ),
                ..old(self)@
            }),
            !old(self)@.in_function ==> r.code == Code::LocalVariableNotInFunction && final(self)@
                == old(self)@,
            old(self)@.in_function && sum_sizes(old(self)@.local_sizes) + 2 <= u32::MAX ==> r.code
                == Code::Good,
            old(self)@.in_function && sum_sizes(old(self)@.local_sizes) + 2 > u32::MAX ==> r.code
                == Code::OutOfRange,
            r.code != Code::Good ==> final(self)@ == old(self)@,
    {
        let v = crate::text::decimal_string(value as u128);
        self.local_word_assign(2, "word", v.as_str())
    }

    /// Allocates a four-byte local initialised to `value`.
    pub fn new_local_dword(&mut self, value: u32) -> (r: Return)
        requires
            old(self)@.wf(),
        ensures
            final(self)@.wf(),
            r.code == Code::Good ==> sum_sizes(final(self)@.local_sizes) == sum_sizes(
                old(self)@.local_sizes,
            ) + 4,
            r.code == Code::Good ==> final(self)@ == (BuilderView {
                local_sizes: old(self)@.local_sizes.push(4),
                local_offsets: old(self)@.local_offsets.push(
                    (sum_sizes(old(self)@.local_sizes) + 4) as u32,
                ),
                body: old(self)@.body + asm3(
                    "mov"@,
                    slot_operand("dword"@, (sum_sizes(old(self)@.local_sizes) + 4) as nat),
                    decimal(value as nat),
                ),
                ..old(self)@
            }),
            !old(self)@.in_function ==> r.code == Code::LocalVariableNotInFunction && final(self)@
                == old(self)@,
            old(self)@.in_function && sum_sizes(old(self)@.local_sizes) + 4 <= u32::MAX ==> r.code
                == Code::Good,
            old(self)@.in_function && sum_sizes(old(self)@.local_sizes) + 4 > u32::MAX ==> r.code
                == Code::OutOfRange,
            r.code != Code::Good ==> final(self)@ == old(self)@,
    {
        let v = crate::text::decimal_string(value as u128);
        self.local_word_assign(4, "dword", v.as_str())
    }

    /// Allocates an eight-byte local initialised to `value`.
    pub fn new_local_qword(&mut self, value: u64) -> (r: Return)
        requires
            old(self)@.wf(),
        ensures
            final(self)@.wf(),
            r.code == Code::Good ==> sum_sizes(final(self)@.local_sizes) == sum_sizes(
                old(self)@.local_sizes,
            ) + 8,
            r.code == Code::Good ==> final(self)@ == (BuilderView {
                local_sizes: old(self)@.local_sizes.push(8),
                local_offsets: old(self)@.local_offsets.push(
                    (sum_sizes(old(self)@.local_sizes) + 8) as u32,
                ),
                body: old(self)@.body + asm3(
                    "mov"@,
                    slot_operand("qword"@, (sum_sizes(old(self)@.local_sizes) + 8) as nat),
                    decimal(value as nat),
                ),
                ..old(self)@
            }),
            !old(self)@.in_function ==> r.code == Code::LocalVariableNotInFunction && final(self)@
                == old(self)@,
            old(self)@.in_function && sum_sizes(old(self)@.local_sizes) + 8 <= u32::MAX ==> r.code
                == Code::Good,
            old(self)@.in_function && sum_sizes(old(self)@.local_sizes) + 8 > u32::MAX ==> r.code
                == Code::OutOfRange,
            r.code != Code::Good ==> final(self)@ == old(self)@,
    {
        let v = crate::text::decimal_string(value as u128);
        self.local_word_assign(8, "qword", v.as_str())
    }

    /// The size and offset of the local slot numbered `id` in the open frame.
    pub fn get_local_word_size_and_offset(&self, id: usize) -> (r: (Return, u32, u32))
        requires
            self@.wf(),
        ensures
            id >= self@.local_sizes.len() ==> r.0.code == Code::OutOfRange && r.1 == 0 && r.2 == 0,
            id < self@.local_sizes.len() ==> r.0.code == Code::Good && r.1 == self@.local_sizes[id as int]
                && r.2 == self@.local_offsets[id as int],
    {
        if id >= self.local_variables.len() {
            (message("Out Of Range", Code::OutOfRange), 0, 0)
        } else {
            let word_size: u32 = self.local_variables[id];
            let word_offset: u32 = self.local_variables_offset[id];
            (message("", Code::Good), word_size, word_offset)
        }
    }

    /// Declares in the data section that `new_addr` is the distance from
    /// `from_addr` to the current position.
    pub fn new_len_addr(&mut self, new_addr: &str, from_addr: &str)
        ensures
            final(self)@ == (BuilderView {
                data: old(self)@.data + line_of(new_addr@ + ": equ $ - "@ + from_addr@),
                ..old(self)@
            }),
    {
        let mut line: Vec<char> = Vec::new();
        push_str(&mut line, new_addr);
        push_str(&mut line, ": equ $ - ");
        push_str(&mut line, from_addr);
        self.add_line_data(&line);
    }

    /// Declares `value` in the data section as a zero-terminated list of byte
    /// values labelled `addr`.
    pub fn new_string_literal(&mut self, addr: &str, value: &str)
        ensures
            final(self)@ == (BuilderView {
                data: old(self)@.data + string_literal_line(addr@, value@),
                ..old(self)@
            }),
    {
        let chars = crate::text::str_chars(value);
        let mut line: Vec<char> = Vec::new();
        push_str(&mut line, addr);
        push_str(&mut line, ": db ");
        let ghost head = line@;
        let mut i: usize = 0;
        while i < chars.len()
            invariant
                i <= chars@.len(),
                line@ == head + byte_items(chars@.take(i as int)),
            decreases chars@.len() - i,
        {
            let c = chars[i];
            push_decimal(&mut line, ((c as u32) % 256) as u128);
            line.push(',');
            line.push(' ');
            i = i + 1;
            assert(chars@.take(i as int).drop_last() =~= chars@.take(i - 1 as int));
            assert(line@ =~= head + byte_items(chars@.take(i as int)));
        }
        line.push('0');
        assert(chars@.take(chars@.len() as int) =~= chars@);
        proof {
            reveal_strlit(": db ");
        }
        assert(line@ =~= addr@ + ": db "@ + byte_items(value@) + seq!['0']);
        self.add_line_data(&line);
    }

    /// Declares a string literal, followed by its length as `<addr>.len`.
    pub fn new_string_literal_with_len(&mut self, addr: &str, value: &str)
        ensures
            final(self)@ == (BuilderView {
                data: old(self)@.data + string_literal_line(addr@, value@) + line_of(
                    ".len: equ $ - "@ + addr@,
                ),
                ..old(self)@
            }),
    {
        self.new_string_literal(addr, value);
        let mut line: Vec<char> = Vec::new();
        push_str(&mut line, ".len: equ $ - ");
        push_str(&mut line, addr);
        self.add_line_data(&line);
        assert(self@.data =~= old(self)@.data + string_literal_line(addr@, value@) + line_of(
            ".len: equ $ - "@ + addr@,
        ));
    }

    /// Emits one `mov` per argument into the register at the same position of
    /// `regs`.
    fn move_arguments(&mut self, regs: &Vec<String>, arguments: &Vec<&str>)
        requires
            arguments@.len() <= regs@.len(),
        ensures
            final(self)@ == (BuilderView {
                body: old(self)@.body + arg_moves(strings_view(regs@), strs_view(arguments@)),
                ..old(self)@
            }),
    {
        let ghost rv = strings_view(regs@);
        let ghost av = strs_view(arguments@);
        let mut i: usize = 0;
        while i < arguments.len()
            invariant
                i <= arguments@.len() <= regs@.len(),
                rv == strings_view(regs@),
                av == strs_view(arguments@),
                self@ == (BuilderView {
                    body: old(self)@.body + arg_moves(rv, av.take(i as int)),
                    ..old(self)@
                }),
            decreases arguments@.len() - i,
        {
            let register: &str = regs[i].as_str();
            self.mov(register, arguments[i]);
            i = i + 1;
            assert(av.take(i as int).drop_last() =~= av.take(i - 1 as int));
            assert(self@.body =~= old(self)@.body + arg_moves(rv, av.take(i as int)));
        }
        assert(av.take(arguments@.len() as int) =~= av);
    }

    /// Loads each argument into the function-call register at its position,
    /// then calls `function`. More arguments than registers is refused, and
    /// nothing is emitted.
    pub fn call_function(&mut self, function: &str, arguments: Vec<&str>) -> (r: Return)
        ensures
            arguments@.len() > old(self)@.func_args.len() ==> r.code == Code::BadArguments
                && final(self)@ == old(self)@,
            arguments@.len() <= old(self)@.func_args.len() ==> r.code == Code::Good && final(self)@
                == (BuilderView {
                body: old(self)@.body + arg_moves(old(self)@.func_args, strs_view(arguments@))
                    + asm2("call"@, function@),
                ..old(self)@
            }),
    {
        if arguments.len() > self.func_args_order.len() {
            return message("More arguments than argument registers", Code::BadArguments);
        }
        let regs = self.func_args_order.clone();
        assert(strings_view(regs@) =~= strings_view(self.func_args_order@));
        self.move_arguments(&regs, &arguments);
        self.call(function);
        assert(self@.body =~= old(self)@.body + arg_moves(old(self)@.func_args, strs_view(arguments@))
            + asm2("call"@, function@));
        message("", Code::Good)
    }

    /// Loads the call number and the arguments into the system-call registers
    /// by position, then emits the trap. More elements than registers is
    /// refused, and nothing is emitted.
    pub fn syscall(&mut self, arguments: Vec<&str>) -> (r: Return)
        ensures
            arguments@.len() > old(self)@.syscall_args.len() ==> r.code == Code::BadArguments
                && final(self)@ == old(self)@,
            arguments@.len() <= old(self)@.syscall_args.len() ==> r.code == Code::Good
                && final(self)@ == (BuilderView {
                body: old(self)@.body + arg_moves(old(self)@.syscall_args, strs_view(arguments@))
                    + value_of("syscall"@),
                ..old(self)@
            }),
    {
        if arguments.len() > self.syscall_args_ordering.len() {
            return message("More arguments than system-call registers", Code::BadArguments);
        }
        let regs = self.syscall_args_ordering.clone();
        assert(strings_view(regs@) =~= strings_view(self.syscall_args_ordering@));
        self.move_arguments(&regs, &arguments);
        self.new_syscall();
        assert(self@.body =~= old(self)@.body + arg_moves(old(self)@.syscall_args, strs_view(arguments@))
            + value_of("syscall"@));
        message("", Code::Good)
    }

    /// Appends the program epilogue to the text section and returns the
    /// sections data, bss and text, in that order.
    pub fn build(&mut self) -> (r: String)
        ensures
            final(self)@ == (BuilderView {
                text: old(self)@.text + base_end(old(self)@.start_symbol),
                ..old(self)@
            }),
            r@ == final(self)@.data + final(self)@.bss + final(self)@.text,
    {
        push_str(&mut self.text, "\n    ");
        let start = self.start_symbol.clone();
        push_chars(&mut self.text, &start);
        push_str(
            &mut self.text,
            ":\n        call            main\n        mov             rbx, rax\n\n        mov             rax, 60                 ; system call for exit\n        mov             rdi, rbx\n        syscall\n",
        );
        assert(self@.text =~= old(self)@.text + base_end(old(self)@.start_symbol));
        self.build_no_start()
    }

    /// The sections data, bss and text, in that order, without the program epilogue.
    pub fn build_no_start(&self) -> (r: String)
        ensures
            r@ == self@.data + self@.bss + self@.text,
    {
        let mut out: Vec<char> = Vec::new();
        push_chars(&mut out, &self.data);
        push_chars(&mut out, &self.bss);
        push_chars(&mut out, &self.text);
        assert(out@ =~= self@.data + self@.bss + self@.text);
        chars_to_string(&out)
    }

    /// The register of the function-call convention at position `i`.
    pub fn func_arg_register(&self, i: usize) -> (r: Option<String>)
        ensures
            i < self@.func_args.len() ==> (r matches Some(s) && s@ == self@.func_args[i as int]),
            i >= self@.func_args.len() ==> r is None,
    {
        if i < self.func_args_order.len() {
            Some(self.func_args_order[i].clone())
        } else {
            None
        }
    }

    /// Whether a function frame is open.
    pub fn is_in_function(&self) -> (r: bool)
        ensures
            r == self@.in_function,
    {
        self.is_function_currently
    }

    /// The length of the data section.
    pub fn data_len(&self) -> (r: usize)
        ensures
            r == self@.data.len(),
    {
        self.data.len()
    }

    /// How many local slots the open frame holds.
    pub fn local_count(&self) -> (r: usize)
        ensures
            r == self@.local_sizes.len(),
    {
        self.local_variables.len()
    }
}

/// Whether a frame is open after a run of `open_function` (true) and
/// `close_function` (false) calls on a builder with no frame open: by their
/// contracts, each call leaves a frame open exactly when it was an open.
pub open spec fn frame_open_after(ops: Seq<bool>) -> bool {
    ops.len() > 0 && ops.last()
}

/// Number of calls in `ops` that reported success: an open while no frame was
/// open, a close while one was.
pub open spec fn good_calls(ops: Seq<bool>, opening: bool) -> nat
    decreases ops.len(),
{
    if ops.len() == 0 {
        0
    } else {
        let before = frame_open_after(ops.drop_last());
        let ok = ops.last() == opening && before != opening;
        good_calls(ops.drop_last(), opening) + if ok {
            1nat
        } else {
            0nat
        }
    }
}

/// Along any run of frame calls, a frame is open exactly when more opens than
/// closes have succeeded, and the successful opens never lead by more than one.
pub proof fn lemma_frame_balance(ops: Seq<bool>)
    ensures
        frame_open_after(ops) == (good_calls(ops, true) > good_calls(ops, false)),
        good_calls(ops, true) == good_calls(ops, false) + if frame_open_after(ops) {
            1nat
        } else {
            0nat
        },
    decreases ops.len(),
{
    if ops.len() > 0 {
        lemma_frame_balance(ops.drop_last());
    }
}

/// What `open_function` (`is_open`) or `close_function` does to the frame flag
/// by their contracts: called in turn it flips the flag; called out of turn it
/// changes nothing at all.
pub open spec fn frame_call(a: BuilderView, is_open: bool, b: BuilderView) -> bool {
    if a.in_function == is_open {
        b == a
    } else {
        b.in_function == is_open
    }
}

/// Along any run of `open_function`/`close_function` calls from a builder with
/// no frame open, a frame is open exactly when more opens than closes have
/// succeeded; a call out of turn leaves the builder as it was.
pub proof fn lemma_builder_frame_balance(states: Seq<BuilderView>, ops: Seq<bool>)
    requires
        states.len() == ops.len() + 1,
        !states[0].in_function,
        forall|i: int| 0 <= i < ops.len() ==> frame_call(states[i], #[trigger] ops[i], states[i + 1]),
    ensures
        states.last().in_function == (good_calls(ops, true) > good_calls(ops, false)),
        forall|i: int|
            0 <= i < ops.len() && states[i].in_function == #[trigger] ops[i] ==> states[i + 1]
                == states[i],
    decreases ops.len(),
{
    if ops.len() > 0 {
        let n = ops.len() - 1;
        let pre_states = states.take(n + 1);
        let pre_ops = ops.drop_last();
        assert forall|i: int| 0 <= i < pre_ops.len() implies frame_call(
            pre_states[i],
            #[trigger] pre_ops[i],
            pre_states[i + 1],
        ) by {
            assert(frame_call(states[i], ops[i], states[i + 1]));
        }
        lemma_builder_frame_balance(pre_states, pre_ops);
        lemma_frame_balance(pre_ops);
        lemma_frame_balance(ops);
        assert(frame_call(states[n], ops[n], states[n + 1]));
    }
}

proof fn lemma_sum_take_step(s: Seq<u32>, k: int)
    requires
        0 <= k < s.len(),
    ensures
        sum_sizes(s.take(k + 1)) == sum_sizes(s.take(k)) + s[k],
{
    assert(s.take(k + 1).drop_last() =~= s.take(k));
}

proof fn lemma_sum_take_grows(s: Seq<u32>, i: int, j: int)
    requires
        0 <= i < j <= s.len(),
        forall|k: int| 0 <= k < s.len() ==> s[k] > 0,
    ensures
        sum_sizes(s.take(i)) < sum_sizes(s.take(j)),
    decreases j - i,
{
    lemma_sum_take_step(s, j - 1);
    if i < j - 1 {
        lemma_sum_take_grows(s, i, j - 1);
    }
}

/// The local slots of a frame whose sizes are `s1, ..., sn` carry the offsets
/// `s1, s1 + s2, ..., s1 + ... + sn`; with sizes above zero these strictly increase.
pub proof fn lemma_local_offsets(v: BuilderView)
    requires
        v.wf(),
    ensures
        v.local_offsets.len() == v.local_sizes.len(),
        forall|i: int|
            0 <= i < v.local_offsets.len() ==> #[trigger] v.local_offsets[i] == sum_sizes(
                v.local_sizes.take(i + 1),
            ),
        (forall|k: int| 0 <= k < v.local_sizes.len() ==> v.local_sizes[k] > 0) ==> forall|
            i: int,
            j: int,
        | 0 <= i < j < v.local_offsets.len() ==> v.local_offsets[i] < v.local_offsets[j],
{
    if forall|k: int| 0 <= k < v.local_sizes.len() ==> v.local_sizes[k] > 0 {
        assert forall|i: int, j: int| 0 <= i < j < v.local_offsets.len() implies v.local_offsets[i]
            < v.local_offsets[j] by {
            lemma_sum_take_grows(v.local_sizes, i + 1, j + 1);
        }
    }
}

} // verus!
