//! The code generator: walks a `Program` node and drives the assembly builder
//! to emit one frame per function.
use vstd::prelude::*;

use crate::builder::{
    Builder, BuilderView, FUNC_ARG_SLOTS, arg_moves, slot_operand, asm2, asm3, base_end, line_of, string_literal_line, strs_view,
    sum_sizes, value_of,
};
use crate::parser::{BinaryOperation, ConstValue, Node, VariableType, function_name};
use crate::return_code::Code;
use crate::text::{chars_to_string, decimal, push_signed_decimal, push_decimal, push_str, signed_decimal};

verus! {

/// Why code generation stopped.
#[derive(Debug, Clone, Copy, PartialEq, Eq, Structural)]
pub enum GenErrorKind {
    /// A name that no assignment or parameter of the function binds.
    UnresolvedVariable,
    /// A node or a type that the generator cannot emit.
    Unsupported,
    /// A builder operation reported this failure.
    Builder { code: Code },
}

#[derive(Debug)]
pub struct GenError {
    pub kind: GenErrorKind,
    pub description: String,
}

/// Slot size in bytes and operand width of a variable type.
pub open spec fn type_slot(t: VariableType) -> Option<(u32, Seq<char>)> {
    match t {
        VariableType::Integer => Some((4u32, "dword"@)),
        VariableType::Boolean => Some((2u32, "word"@)),
        VariableType::String => Some((8u32, "qword"@)),
        _ => None,
    }
}

/// The slot size and operand width of a variable type: 4 bytes for an
/// integer, 2 for a boolean, 8 for a string (its address).
pub fn type_slot_of(t: VariableType) -> (r: Option<(u32, &'static str)>)
    ensures
        r matches Some((n, w)) ==> type_slot(t) == Some((n, w@)),
        r is None <==> type_slot(t) is None,
{
    match t {
        VariableType::Integer => Some((4, "dword")),
        VariableType::Boolean => Some((2, "word")),
        VariableType::String => Some((8, "qword")),
        _ => None,
    }
}

/// The operand width and accumulator register for a slot size.
pub open spec fn width_of_size(n: u32) -> (Seq<char>, Seq<char>) {
    if n == 2 {
        ("word"@, "ax"@)
    } else if n == 8 {
        ("qword"@, "rax"@)
    } else {
        ("dword"@, "eax"@)
    }
}

fn width_of_size_exec(n: u32) -> (r: (&'static str, &'static str))
    ensures
        (r.0@, r.1@) == width_of_size(n),
{
    if n == 2 {
        ("word", "ax")
    } else if n == 8 {
        ("qword", "rax")
    } else {
        ("dword", "eax")
    }
}

/// The immediate text of an integer or boolean constant.
pub open spec fn immediate_of(c: ConstValue) -> Option<Seq<char>> {
    match c {
        ConstValue::Integer { value } => Some(signed_decimal(value as int)),
        ConstValue::Boolean { value } => Some(
            if value {
                seq!['1']
            } else {
                seq!['0']
            },
        ),
        _ => None,
    }
}

/// The immediate text of an integer or boolean constant.
pub fn immediate(c: &ConstValue) -> (r: Option<String>)
    ensures
        r matches Some(s) ==> immediate_of(*c) == Some(s@),
        r is None <==> immediate_of(*c) is None,
{
    let mut v: Vec<char> = Vec::new();
    match c {
        ConstValue::Integer { value } => {
            push_signed_decimal(&mut v, *value);
            assert(v@ =~= signed_decimal(*value as int));
        },
        ConstValue::Boolean { value } => {
            v.push(if *value {
                '1'
            } else {
                '0'
            });
            assert(v@ =~= if *value {
                seq!['1']
            } else {
                seq!['0']
            });
        },
        _ => {
            return None;
        },
    }
    Some(chars_to_string(&v))
}

/// A function's label and prologue: save the caller's frame pointer, then
/// establish the new one.
pub open spec fn prologue(name: Seq<char>) -> Seq<char> {
    name + seq![':', '\n'] + asm2("push"@, "rbp"@) + asm3("mov"@, "rbp"@, "rsp"@)
}

/// A function's epilogue: restore the frame pointer and return.
pub open spec fn epilogue() -> Seq<char> {
    asm2("pop"@, "rbp"@) + value_of("ret"@)
}

/// `t` is the text of one function named `name`: its label and prologue, its
/// instructions, its epilogue.
pub open spec fn frame_text(name: Seq<char>, t: Seq<char>) -> bool {
    exists|x: Seq<char>| t == line_of(prologue(name) + x + epilogue())
}

/// `t` is the text of functions named `names`, one frame after another, in order.
pub open spec fn frames_text(names: Seq<Seq<char>>, t: Seq<char>) -> bool
    decreases names.len(),
{
    if names.len() == 0 {
        t.len() == 0
    } else {
        exists|k: int|
            0 <= k <= t.len() && frames_text(names.drop_last(), t.subrange(0, k)) && frame_text(
                names.last(),
                t.subrange(k, t.len() as int),
            )
    }
}

/// The names of the functions of a program, in order.
pub open spec fn program_function_names(n: Node) -> Seq<Seq<char>> {
    match n {
        Node::Program { body } => body@.map_values(|f: Box<Node>| function_name(*f)),
        _ => Seq::empty(),
    }
}

proof fn lemma_prefix_trans(a: Seq<char>, b: Seq<char>, c: Seq<char>)
    requires
        a.is_prefix_of(b),
        b.is_prefix_of(c),
    ensures
        a.is_prefix_of(c),
{
    assert(a =~= c.subrange(0, a.len() as int)) by {
        assert forall|i: int| 0 <= i < a.len() implies a[i] == c[i] by {
            assert(a[i] == b[i]);
            assert(b[i] == c[i]);
        }
    }
}

/// An operand the generator can emit: a non-float constant, or a name among `names`.
pub open spec fn operand_supported(n: Node, names: Seq<Seq<char>>) -> bool {
    match n {
        Node::Const { value_type } => !(value_type is FloatingPoint),
        Node::VariableReference { name } => names.contains(name@),
        _ => false,
    }
}

/// A value the generator can evaluate: an operand, or a binary operation on
/// two operands, possibly wrapped once in an expression node.
pub open spec fn value_supported(n: Node, names: Seq<Seq<char>>) -> bool {
    let inner = match n {
        Node::Expr { value } => *value,
        _ => n,
    };
    match inner {
        Node::BinaryOp { left, right, .. } => operand_supported(*left, names) && operand_supported(
            *right,
            names,
        ),
        _ => operand_supported(inner, names),
    }
}

/// A call argument the generator can pass: an operand, possibly wrapped once.
pub open spec fn argument_supported(n: Node, names: Seq<Seq<char>>) -> bool {
    match n {
        Node::Expr { value } => operand_supported(*value, names),
        _ => operand_supported(n, names),
    }
}

/// A statement the generator can emit when `names` are bound.
pub open spec fn statement_supported(n: Node, names: Seq<Seq<char>>) -> bool {
    match n {
        Node::Assign { var_type, value, .. } => type_slot(var_type) is Some && value_supported(
            *value,
            names,
        ),
        Node::FunctionCall { args, .. } => args@.len() <= FUNC_ARG_SLOTS && forall|k: int|
            0 <= k < args@.len() ==> argument_supported(*#[trigger] args@[k], names),
        Node::Return { value } => value_supported(*value, names),
        _ => false,
    }
}

/// The name a parameter or assignment binds.
pub open spec fn bound_name(n: Node) -> Seq<char> {
    match n {
        Node::Assign { name, .. } => name@,
        _ => Seq::empty(),
    }
}

/// The names bound before statement `m` of a body: the parameters, then the
/// names of the assignments among the first `m` statements.
pub open spec fn names_before(params: Seq<Box<Node>>, body: Seq<Box<Node>>, m: int) -> Seq<Seq<char>>
    decreases m,
{
    if m <= 0 {
        params.map_values(|a: Box<Node>| bound_name(*a))
    } else if (*body[m - 1]) is Assign {
        names_before(params, body, m - 1).push(bound_name(*body[m - 1]))
    } else {
        names_before(params, body, m - 1)
    }
}

/// A function the generator can emit: at most six parameters, each a
/// declaration; every statement supported where it stands; and few enough
/// statements that its frame fits the `u32` offsets.
pub open spec fn function_supported(f: Node) -> bool {
    match f {
        Node::Function { args, body, .. } => {
            &&& args@.len() <= FUNC_ARG_SLOTS
            &&& forall|k: int| 0 <= k < args@.len() ==> *#[trigger] args@[k] is Assign
            &&& body@.len() <= 0x1000_0000
            &&& forall|m: int|
                0 <= m < body@.len() ==> statement_supported(
                    *#[trigger] body@[m],
                    names_before(args@, body@, m),
                )
        },
        _ => false,
    }
}

/// A program the generator can emit in full.
pub open spec fn program_supported(n: Node) -> bool {
    match n {
        Node::Program { body } => forall|j: int|
            0 <= j < body@.len() ==> function_supported(*#[trigger] body@[j]),
        _ => false,
    }
}

/// Where a bound name lives, as the emitted code refers to it.
pub enum Loc {
    Reg { name: Seq<char> },
    Slot { size: u32, offset: u32 },
}

/// What the emitted code of a statement depends on: the names bound so far,
/// the frame's size, the data section's length (which names string
/// literals), and the argument registers.
pub struct GenState {
    pub env: Seq<(Seq<char>, Loc)>,
    pub frame: int,
    pub data_len: int,
    pub regs: Seq<Seq<char>>,
}

/// Where the latest binding of `name` in `env` lives.
pub open spec fn find_loc(env: Seq<(Seq<char>, Loc)>, name: Seq<char>) -> Option<Loc>
    decreases env.len(),
{
    if env.len() == 0 {
        None
    } else if env.last().0 == name {
        Some(env.last().1)
    } else {
        find_loc(env.drop_last(), name)
    }
}

/// The label of a string literal declared when the data section is `d` long.
pub open spec fn literal_label(d: int) -> Seq<char> {
    "str_"@ + decimal(d as nat)
}

pub open spec fn with_data(st: GenState, d: int) -> GenState {
    GenState { data_len: d, ..st }
}

/// A node with one expression wrapper taken off.
pub open spec fn unwrap_expr(n: Node) -> Node {
    match n {
        Node::Expr { value } => *value,
        _ => n,
    }
}

/// The operand text of a constant or a name, the size of what it denotes,
/// and the data length after any literal it declares.
pub open spec fn operand_out(n: Node, st: GenState) -> (Seq<char>, u32, int) {
    match n {
        Node::Const { value_type } => match value_type {
            ConstValue::Integer { value } => (signed_decimal(value as int), 4u32, st.data_len),
            ConstValue::Boolean { value } => (
                if value {
                    seq!['1']
                } else {
                    seq!['0']
                },
                4u32,
                st.data_len,
            ),
            ConstValue::String { value } => (
                literal_label(st.data_len),
                8u32,
                st.data_len + string_literal_line(literal_label(st.data_len), value@).len(),
            ),
            _ => (Seq::empty(), 0u32, st.data_len),
        },
        Node::VariableReference { name } => match find_loc(st.env, name@) {
            Some(Loc::Reg { name: r }) => (r, 4u32, st.data_len),
            Some(Loc::Slot { size, offset }) => (
                slot_operand(width_of_size(size).0, offset as nat),
                size,
                st.data_len,
            ),
            None => (Seq::empty(), 0u32, st.data_len),
        },
        _ => (Seq::empty(), 0u32, st.data_len),
    }
}

/// The instructions that apply a binary operation to `eax` and `ecx`.
pub open spec fn op_code(op: BinaryOperation) -> Seq<char> {
    match op {
        BinaryOperation::Add => asm3("add"@, "eax"@, "ecx"@),
        BinaryOperation::Sub => asm3("sub"@, "eax"@, "ecx"@),
        BinaryOperation::Mul => asm2("mul"@, "ecx"@),
        BinaryOperation::Div => asm3("xor"@, "edx"@, "edx"@) + asm2("div"@, "ecx"@),
    }
}

/// The code that evaluates a value into the accumulator, the value's size,
/// and the data length after.
pub open spec fn value_out(n: Node, st: GenState) -> (Seq<char>, u32, int) {
    let inner = unwrap_expr(n);
    match inner {
        Node::BinaryOp { left, op, right } => {
            let l = operand_out(*left, st);
            let r = operand_out(*right, with_data(st, l.2));
            (asm3("mov"@, "eax"@, l.0) + asm3("mov"@, "ecx"@, r.0) + op_code(op), 4u32, r.2)
        },
        _ => {
            let o = operand_out(inner, st);
            (asm3("mov"@, width_of_size(o.1).1, o.0), o.1, o.2)
        },
    }
}

/// An integer, boolean or string constant.
pub open spec fn plain_const(n: Node) -> bool {
    match n {
        Node::Const { value_type } => !(value_type is FloatingPoint),
        _ => false,
    }
}

/// The code of `<type> <name> <- <value>`: the value stored into a new slot
/// at the frame's end, and the state after, with `name` bound to that slot.
pub open spec fn assign_out(name: Seq<char>, t: VariableType, value: Node, st: GenState) -> (
    Seq<char>,
    GenState,
) {
    let size = (type_slot(t)->0).0;
    let width = (type_slot(t)->0).1;
    let inner = unwrap_expr(value);
    let off = st.frame + size;
    let pre = if plain_const(inner) {
        (Seq::<char>::empty(), operand_out(inner, st).0, operand_out(inner, st).2)
    } else {
        (value_out(inner, st).0, width_of_size(size).1, value_out(inner, st).2)
    };
    (
        pre.0 + asm3("mov"@, slot_operand(width, off as nat), pre.1),
        GenState {
            env: st.env.push((name, Loc::Slot { size, offset: off as u32 })),
            frame: off,
            data_len: pre.2,
            regs: st.regs,
        },
    )
}

/// The widening moves, the operand texts and the data length after, for the
/// first `k` arguments of a call.
pub open spec fn call_args_out(args: Seq<Box<Node>>, k: int, st: GenState) -> (
    Seq<char>,
    Seq<Seq<char>>,
    int,
)
    decreases k,
{
    if k <= 0 {
        (Seq::empty(), Seq::empty(), st.data_len)
    } else {
        let prev = call_args_out(args, k - 1, st);
        let o = operand_out(unwrap_expr(*args[k - 1]), with_data(st, prev.2));
        if o.1 == 2 {
            (prev.0 + asm3("movzx"@, st.regs[k - 1], o.0), prev.1.push(st.regs[k - 1]), o.2)
        } else {
            (prev.0, prev.1.push(o.0), o.2)
        }
    }
}

/// The code of one statement and the state after it.
pub open spec fn stmt_out(n: Node, st: GenState) -> (Seq<char>, GenState) {
    match n {
        Node::Assign { name, var_type, value } => assign_out(name@, var_type, *value, st),
        Node::FunctionCall { name, args } => {
            let c = call_args_out(args@, args@.len() as int, st);
            (c.0 + arg_moves(st.regs, c.1) + asm2("call"@, name@), with_data(st, c.2))
        },
        Node::Return { value } => {
            let v = value_out(*value, st);
            (v.0 + asm2("pop"@, "rbp"@) + value_of("ret"@), with_data(st, v.2))
        },
        _ => (Seq::empty(), st),
    }
}

/// The code of the first `m` statements of a body, and the state after.
pub open spec fn body_out(body: Seq<Box<Node>>, m: int, st: GenState) -> (Seq<char>, GenState)
    decreases m,
{
    if m <= 0 {
        (Seq::empty(), st)
    } else {
        let prev = body_out(body, m - 1, st);
        let c = stmt_out(*body[m - 1], prev.1);
        (prev.0 + c.0, c.1)
    }
}

/// The state at the start of a function's body: each parameter bound to its
/// argument register, an empty frame.
pub open spec fn entry_state(args: Seq<Box<Node>>, data_len: int, regs: Seq<Seq<char>>) -> GenState {
    GenState {
        env: Seq::new(args.len(), |i: int| (bound_name(*args[i]), Loc::Reg { name: regs[i] })),
        frame: 0,
        data_len,
        regs,
    }
}

/// The text of a function's frame (label, prologue, the code of its
/// statements, epilogue), and the data length after it.
pub open spec fn function_out(f: Node, data_len: int, regs: Seq<Seq<char>>) -> (Seq<char>, int) {
    match f {
        Node::Function { name, args, body, .. } => {
            let b = body_out(body@, body@.len() as int, entry_state(args@, data_len, regs));
            (line_of(prologue(name@) + b.0 + epilogue()), b.1.data_len)
        },
        _ => (Seq::empty(), data_len),
    }
}

/// The frames of the first `k` functions, in order, and the data length after.
pub open spec fn functions_out(fs: Seq<Box<Node>>, k: int, data_len: int, regs: Seq<Seq<char>>) -> (
    Seq<char>,
    int,
)
    decreases k,
{
    if k <= 0 {
        (Seq::empty(), data_len)
    } else {
        let prev = functions_out(fs, k - 1, data_len, regs);
        let f = function_out(*fs[k - 1], prev.1, regs);
        (prev.0 + f.0, f.1)
    }
}

proof fn lemma_find_last(env: Seq<(Seq<char>, Loc)>, name: Seq<char>, i: int)
    requires
        0 <= i < env.len(),
        env[i].0 == name,
        forall|j: int| i < j < env.len() ==> env[j].0 != name,
    ensures
        find_loc(env, name) == Some(env[i].1),
    decreases env.len(),
{
    if i < env.len() - 1 {
        lemma_find_last(env.drop_last(), name, i);
    }
}

/// Where a name of the current function lives.
pub enum Place {
    /// An argument register, named.
    Register { name: String },
    /// A local slot, by its number in the frame.
    Slot { id: usize },
}

pub struct Compiler {
    pub builder: Builder,
    program: Node,
    names: Vec<String>,
    places: Vec<Place>,
}

fn gen_error(kind: GenErrorKind, description: &str) -> (r: GenError)
    ensures
        r.kind == kind,
{
    let mut d: Vec<char> = Vec::new();
    push_str(&mut d, description);
    GenError { kind, description: chars_to_string(&d) }
}

fn builder_error(code: Code) -> (r: GenError)
    ensures
        r.kind == (GenErrorKind::Builder { code }),
{
    gen_error(GenErrorKind::Builder { code }, "Builder operation failed")
}

impl Compiler {
    /// The state of the assembly builder.
    pub closed spec fn builder_view(&self) -> BuilderView {
        self.builder@
    }

    /// The program still to be emitted.
    pub closed spec fn program_node(&self) -> Node {
        self.program
    }

    /// Where a place of the current function lives.
    spec fn loc_of(&self, p: Place) -> Loc {
        match p {
            Place::Register { name } => Loc::Reg { name: name@ },
            Place::Slot { id } => Loc::Slot {
                size: self.builder@.local_sizes[id as int],
                offset: self.builder@.local_offsets[id as int],
            },
        }
    }

    /// Two compilers with the same bindings, slot tables and register table
    /// differ in their state at most by the data length.
    proof fn lemma_same_state(a: &Compiler, b: &Compiler)
        requires
            a.names@ == b.names@,
            a.places@ == b.places@,
            a.builder@.local_sizes == b.builder@.local_sizes,
            a.builder@.local_offsets == b.builder@.local_offsets,
            a.builder@.func_args == b.builder@.func_args,
        ensures
            b.gen_state() == with_data(a.gen_state(), b.builder@.data.len() as int),
    {
        assert(b.gen_state().env =~= a.gen_state().env);
    }

    /// The state the emitted code depends on.
    pub closed spec fn gen_state(&self) -> GenState {
        GenState {
            env: Seq::new(
                self.names@.len(),
                |i: int| (self.names@[i]@, self.loc_of(self.places@[i])),
            ),
            frame: sum_sizes(self.builder@.local_sizes),
            data_len: self.builder@.data.len() as int,
            regs: self.builder@.func_args,
        }
    }

    /// The names bound in the current function, oldest first.
    pub closed spec fn name_seq(&self) -> Seq<Seq<char>> {
        self.names@.map_values(|s: String| s@)
    }

    pub closed spec fn wf(&self) -> bool {
        &&& self.builder@.wf()
        &&& self.names@.len() == self.places@.len()
        &&& !self.builder@.in_function ==> self.builder@.body.len() == 0
        &&& self.builder@.start_symbol == "_start"@
        &&& self.builder@.bss == "section .bss\n"@
        &&& "section .data\n"@.is_prefix_of(self.builder@.data)
        &&& forall|i: int|
            0 <= i < self.places@.len() ==> (#[trigger] self.places@[i] matches Place::Slot { id }
                ==> id < self.builder@.local_sizes.len())
    }

    pub fn new(program: Node) -> (r: Compiler)
        ensures
            r.wf(),
            r.builder_view() == BuilderView::initial("_start"@),
            r.program_node() == program,
    {
        Compiler {
            builder: Builder::new(),
            program,
            names: Vec::new(),
            places: Vec::new(),
        }
    }

    /// The binding of the innermost (latest) name equal to `name`.
    fn lookup(&self, name: &String) -> (r: Option<usize>)
        ensures
            r matches Some(i) ==> i < self.names@.len() && self.names@[i as int]@ == name@
                && forall|j: int| i < j < self.names@.len() ==> self.names@[j]@ != name@,
            r is None ==> forall|j: int| 0 <= j < self.names@.len() ==> self.names@[j]@ != name@,
    {
        let mut i: usize = self.names.len();
        while i > 0
            invariant
                i <= self.names@.len(),
                forall|j: int| i <= j < self.names@.len() ==> self.names@[j]@ != name@,
            decreases i,
        {
            if self.names[i - 1] == *name {
                return Some(i - 1);
            }
            i = i - 1;
        }
        None
    }

    /// Emits a zero-terminated string literal under a fresh label and returns the label.
    fn new_literal(&mut self, value: &String) -> (r: String)
        requires
            old(self).wf(),
        ensures
            final(self).builder@.text == old(self).builder@.text,
            final(self).builder@.body == old(self).builder@.body,
            final(self).wf(),
            final(self).builder@.in_function == old(self).builder@.in_function,
            final(self).builder@.local_sizes == old(self).builder@.local_sizes,
            final(self).names@ == old(self).names@,
            final(self).places@ == old(self).places@,
            final(self).builder@.local_offsets == old(self).builder@.local_offsets,
            final(self).builder@.func_args == old(self).builder@.func_args,
            r@ == literal_label(old(self).builder@.data.len() as int),
            final(self).builder@.data.len() == old(self).builder@.data.len() + string_literal_line(
                r@,
                value@,
            ).len(),
    {
        // The data section grows with every literal, so its length makes a fresh label.
        let mut label: Vec<char> = Vec::new();
        push_str(&mut label, "str_");
        push_decimal(&mut label, self.builder.data_len() as u128);
        assert(label@ =~= literal_label(old(self).builder@.data.len() as int));
        let label = chars_to_string(&label);
        let ghost d0 = self.builder@.data;
        self.builder.new_string_literal(label.as_str(), value.as_str());
        proof {
            let h = "section .data\n"@;
            assert(h =~= self.builder@.data.subrange(0, h.len() as int)) by {
                assert(h =~= d0.subrange(0, h.len() as int));
                assert forall|q: int| 0 <= q < h.len() implies h[q] == self.builder@.data[q] by {
                    assert(d0[q] == self.builder@.data[q]);
                }
            }
        }
        label
    }

    /// The operand text of a constant or a name, and the size in bytes of
    /// what it denotes.
    fn simple_operand(&mut self, node: &Node) -> (r: Result<(String, u32), GenError>)
        requires
            old(self).wf(),
        ensures
            final(self).builder@.text == old(self).builder@.text,
            final(self).builder@.body == old(self).builder@.body,
            final(self).wf(),
            final(self).builder@.in_function == old(self).builder@.in_function,
            final(self).builder@.local_sizes == old(self).builder@.local_sizes,
            final(self).names@ == old(self).names@,
            node is VariableReference ==> final(self).builder@ == old(self).builder@,
            r is Err && node is VariableReference ==> (r->Err_0.kind == GenErrorKind::UnresolvedVariable
                <==> forall|j: int|
                0 <= j < old(self).names@.len() ==> old(self).names@[j]@ != node->VariableReference_name@),
            final(self).places@ == old(self).places@,
            operand_supported(*node, old(self).name_seq()) ==> r is Ok,
            final(self).builder@.local_offsets == old(self).builder@.local_offsets,
            final(self).builder@.func_args == old(self).builder@.func_args,
            r matches Ok((t, sz)) ==> t@ == operand_out(*node, old(self).gen_state()).0 && sz
                == operand_out(*node, old(self).gen_state()).1 && final(self).builder@.data.len()
                == operand_out(*node, old(self).gen_state()).2,
    {
        match node {
            Node::Const { value_type } => {
                if let Some(imm) = immediate(value_type) {
                    return Ok((imm, 4));
                }
                match value_type {
                    ConstValue::String { value } => {
                        let label = self.new_literal(value);
                        Ok((label, 8))
                    },
                    _ => Err(gen_error(GenErrorKind::Unsupported, "Unsupported constant")),
                }
            },
            Node::VariableReference { name } => {
                let i = match self.lookup(name) {
                    Some(i) => i,
                    None => {
                        proof {
                            if self.name_seq().contains(name@) {
                                let j = choose|j: int| 0 <= j < self.name_seq().len() && self.name_seq()[j] == name@;
                                assert(self.names@[j]@ == name@);
                            }
                        }
                        return Err(gen_error(GenErrorKind::UnresolvedVariable, "Unresolved variable"));
                    },
                };
                proof {
                    lemma_find_last(self.gen_state().env, name@, i as int);
                }
                match &self.places[i] {
                    Place::Register { name } => Ok((name.clone(), 4)),
                    Place::Slot { id } => {
                        let (ret, size, offset) = self.builder.get_local_word_size_and_offset(*id);
                        if ret.code != Code::Good {
                            return Err(builder_error(ret.code));
                        }
                        let (width, _) = width_of_size_exec(size);
                        let mut t: Vec<char> = Vec::new();
                        push_str(&mut t, width);
                        push_str(&mut t, " [rsp - ");
                        push_decimal(&mut t, offset as u128);
                        t.push(']');
                        Ok((chars_to_string(&t), size))
                    },
                }
            },
            _ => Err(gen_error(GenErrorKind::Unsupported, "Unsupported operand")),
        }
    }

    /// Evaluates `node` (an expression, a constant, a name or a binary
    /// operation) into the accumulator; returns the size in bytes of the value.
    #[verifier::rlimit(100)]
    fn gen_value(&mut self, node: &Node) -> (r: Result<u32, GenError>)
        requires
            old(self).wf(),
            old(self).builder@.in_function,
        ensures
            final(self).builder@.text == old(self).builder@.text,
            old(self).builder@.body.is_prefix_of(final(self).builder@.body),
            final(self).wf(),
            final(self).builder@.in_function == old(self).builder@.in_function,
            final(self).builder@.local_sizes == old(self).builder@.local_sizes,
            final(self).names@ == old(self).names@,
            final(self).places@ == old(self).places@,
            value_supported(*node, old(self).name_seq()) ==> r is Ok,
            final(self).builder@.local_offsets == old(self).builder@.local_offsets,
            final(self).builder@.func_args == old(self).builder@.func_args,
            r matches Ok(sz) ==> final(self).builder@.body == old(self).builder@.body + value_out(
                *node,
                old(self).gen_state(),
            ).0 && sz == value_out(*node, old(self).gen_state()).1 && final(self).builder@.data.len()
                == value_out(*node, old(self).gen_state()).2,
    {
        let inner: &Node = match node {
            Node::Expr { value } => value,
            _ => node,
        };
        match inner {
            Node::BinaryOp { left, op, right } => {
                let ghost c0 = *self;
                let (l, _) = self.simple_operand(left)?;
                proof {
                    Compiler::lemma_same_state(&c0, self);
                }
                let (rt, _) = self.simple_operand(right)?;
                self.builder.mov("eax", l.as_str());
                self.builder.mov("ecx", rt.as_str());
                match op {
                    BinaryOperation::Add => self.builder.add("eax", "ecx"),
                    BinaryOperation::Sub => self.builder.sub("eax", "ecx"),
                    BinaryOperation::Mul => self.builder.add_raw_asm2("mul", "ecx"),
                    BinaryOperation::Div => {
                        self.builder.add_raw_asm3("xor", "edx", "edx");
                        self.builder.add_raw_asm2("div", "ecx");
                    },
                }
                Ok(4)
            },
            _ => {
                let (o, size) = self.simple_operand(inner)?;
                let (_, acc) = width_of_size_exec(size);
                self.builder.mov(acc, o.as_str());
                Ok(size)
            },
        }
    }

    /// `<type> <name> <- <value>`: a new local slot of the type's size holding
    /// the value, bound to `name` for the rest of the function.
    #[verifier::rlimit(100)]
    fn gen_assign(&mut self, name: &String, var_type: VariableType, value: &Node) -> (r: Result<(), GenError>)
        requires
            old(self).wf(),
            old(self).builder@.in_function,
        ensures
            final(self).builder@.text == old(self).builder@.text,
            old(self).builder@.body.is_prefix_of(final(self).builder@.body),
            final(self).wf(),
            final(self).builder@.in_function == old(self).builder@.in_function,
            type_slot(var_type) is None ==> r is Err,
            r is Ok ==> final(self).names@ == old(self).names@.push(*name)
                && final(self).builder@.local_sizes == old(self).builder@.local_sizes.push(
                (type_slot(var_type)->0).0,
            ),
            r is Ok ==> sum_sizes(final(self).builder@.local_sizes) <= sum_sizes(
                old(self).builder@.local_sizes,
            ) + 8,
            r is Err ==> final(self).names@ == old(self).names@,
            type_slot(var_type) is Some && value_supported(*value, old(self).name_seq()) && sum_sizes(
                old(self).builder@.local_sizes,
            ) + 8 <= u32::MAX ==> r is Ok,
            final(self).builder@.func_args == old(self).builder@.func_args,
            r is Ok ==> final(self).builder@.body == old(self).builder@.body + assign_out(
                name@,
                var_type,
                *value,
                old(self).gen_state(),
            ).0 && final(self).gen_state() == assign_out(name@, var_type, *value, old(self).gen_state()).1,
    {
        let (size, width) = match type_slot_of(var_type) {
            Some(s) => s,
            None => {
                return Err(gen_error(GenErrorKind::Unsupported, "Unsupported variable type"));
            },
        };
        let inner: &Node = match value {
            Node::Expr { value } => value,
            _ => value,
        };
        let ghost c0 = *self;
        let ghost st = old(self).gen_state();
        assert(*inner == unwrap_expr(*value));
        let source: String = match inner {
            Node::Const { value_type: ConstValue::Integer { .. } }
            | Node::Const { value_type: ConstValue::Boolean { .. } }
            | Node::Const { value_type: ConstValue::String { .. } } => {
                let (o, _) = self.simple_operand(inner)?;
                o
            },
            _ => {
                self.gen_value(inner)?;
                let (_, acc) = width_of_size_exec(size);
                let mut a: Vec<char> = Vec::new();
                push_str(&mut a, acc);
                chars_to_string(&a)
            },
        };
        let ret = self.builder.local_word_assign(size, width, source.as_str());
        if ret.code != Code::Good {
            return Err(builder_error(ret.code));
        }
        let id = self.builder.local_count() - 1;
        let ghost c1 = *self;
        let nm = name.clone();
        self.names.push(nm);
        self.places.push(Place::Slot { id });
        proof {
            let out = assign_out(name@, var_type, *value, st);
            assert(source@ == (if plain_const(*inner) {
                operand_out(*inner, st).0
            } else {
                width_of_size(size).1
            }));
            assert(self.builder@.body =~= old(self).builder@.body + out.0);
            assert(self.gen_state().env =~= out.1.env) by {
                assert forall|j: int| 0 <= j < c0.names@.len() implies self.gen_state().env[j] == st.env[j] by {
                    assert(self.names@[j] == c0.names@[j]);
                    assert(self.places@[j] == c0.places@[j]);
                    if let Place::Slot { id: q } = c0.places@[j] {
                        assert(q < c0.builder@.local_sizes.len());
                    }
                }
            }
        }
        Ok(())
    }

    /// `<name>(<args>)`: loads each argument into its argument register, then calls.
    #[verifier::rlimit(100)]
    fn gen_call(&mut self, name: &String, args: &Vec<Box<Node>>) -> (r: Result<(), GenError>)
        requires
            old(self).wf(),
            old(self).builder@.in_function,
        ensures
            final(self).builder@.text == old(self).builder@.text,
            old(self).builder@.body.is_prefix_of(final(self).builder@.body),
            final(self).wf(),
            final(self).builder@.in_function == old(self).builder@.in_function,
            final(self).builder@.local_sizes == old(self).builder@.local_sizes,
            final(self).names@ == old(self).names@,
            args@.len() > old(self).builder@.func_args.len() ==> r is Err,
            final(self).places@ == old(self).places@,
            args@.len() <= FUNC_ARG_SLOTS && (forall|k: int|
                0 <= k < args@.len() ==> argument_supported(*#[trigger] args@[k], old(self).name_seq()))
                ==> r is Ok,
            final(self).builder@.local_offsets == old(self).builder@.local_offsets,
            final(self).builder@.func_args == old(self).builder@.func_args,
            r is Ok ==> final(self).builder@.body == old(self).builder@.body + stmt_out(
                Node::FunctionCall { name: *name, args: *args },
                old(self).gen_state(),
            ).0 && final(self).builder@.data.len() == stmt_out(
                Node::FunctionCall { name: *name, args: *args },
                old(self).gen_state(),
            ).1.data_len,
    {
        if args.len() > FUNC_ARG_SLOTS {
            return Err(builder_error(Code::BadArguments));
        }
        let mut operands: Vec<String> = Vec::new();
        let mut i: usize = 0;
        let ghost st = old(self).gen_state();
        let ghost c0 = *self;
        while i < args.len()
            invariant
                self.builder@.body == old(self).builder@.body + call_args_out(args@, i as int, st).0,
                operands@.map_values(|o: String| o@) == call_args_out(args@, i as int, st).1,
                self.builder@.data.len() == call_args_out(args@, i as int, st).2,
                st == c0.gen_state(),
                c0.names@ == old(self).names@,
                c0.places@ == old(self).places@,
                c0.builder@ == old(self).builder@,
                self.builder@.local_offsets == old(self).builder@.local_offsets,
                self.builder@.func_args == old(self).builder@.func_args,
                self.wf(),
                self.builder@.in_function == old(self).builder@.in_function,
                self.builder@.local_sizes == old(self).builder@.local_sizes,
                self.names@ == old(self).names@,
                self.builder@.func_args.len() == old(self).builder@.func_args.len(),
                self.builder@.text == old(self).builder@.text,
                old(self).builder@.body.is_prefix_of(self.builder@.body),
                self.builder@.in_function,
                self.places@ == old(self).places@,
                self.builder@.func_args.len() == FUNC_ARG_SLOTS,
                i <= args@.len() <= FUNC_ARG_SLOTS,
                operands@.len() == i,
            decreases args@.len() - i,
        {
            let arg: &Node = match &*args[i] {
                Node::Expr { value } => value,
                other => other,
            };
            let ghost prev = call_args_out(args@, i as int, st);
            proof {
                Compiler::lemma_same_state(&c0, self);
                assert(*arg == unwrap_expr(*args@[i as int]));
            }
            let ghost ops0 = operands@;
            let ghost body0 = self.builder@.body;
            let (o, size) = self.simple_operand(arg)?;
            if size == 2 {
                // A two-byte slot is widened into its argument register.
                let reg = match self.builder.func_arg_register(i) {
                    Some(reg) => reg,
                    None => {
                        return Err(builder_error(Code::BadArguments));
                    },
                };
                let ghost b0 = self.builder@.body;
                self.builder.add_raw_asm3("movzx", reg.as_str(), o.as_str());
                proof {
                    assert(b0.is_prefix_of(self.builder@.body)) by {
                        assert(b0 =~= self.builder@.body.subrange(0, b0.len() as int));
                    }
                    lemma_prefix_trans(old(self).builder@.body, b0, self.builder@.body);
                }
                operands.push(reg);
            } else {
                operands.push(o);
            }
            proof {
                assert(operands@.map_values(|o: String| o@) =~= ops0.map_values(|o: String| o@).push(
                    operands@.last()@,
                ));
                assert(self.builder@.body =~= old(self).builder@.body + call_args_out(args@, i + 1, st).0);
            }
            i = i + 1;
        }
        let mut refs: Vec<&str> = Vec::new();
        let mut k: usize = 0;
        while k < operands.len()
            invariant
                k <= operands@.len(),
                refs@.len() == k,
                forall|q: int| 0 <= q < k ==> refs@[q]@ == operands@[q]@,
            decreases operands@.len() - k,
        {
            refs.push(operands[k].as_str());
            k = k + 1;
        }
        let ghost b1 = self.builder@.body;
        assert(strs_view(refs@) =~= operands@.map_values(|o: String| o@));
        let ret = self.builder.call_function(name.as_str(), refs);
        if ret.code != Code::Good {
            return Err(builder_error(ret.code));
        }
        proof {
            assert(b1.is_prefix_of(self.builder@.body)) by {
                assert(b1 =~= self.builder@.body.subrange(0, b1.len() as int));
            }
            lemma_prefix_trans(old(self).builder@.body, b1, self.builder@.body);
        }
        Ok(())
    }

    /// `return <value>`: the value into the accumulator, then the epilogue.
    fn gen_return(&mut self, value: &Node) -> (r: Result<(), GenError>)
        requires
            old(self).wf(),
            old(self).builder@.in_function,
        ensures
            final(self).builder@.text == old(self).builder@.text,
            old(self).builder@.body.is_prefix_of(final(self).builder@.body),
            final(self).wf(),
            final(self).builder@.in_function == old(self).builder@.in_function,
            final(self).builder@.local_sizes == old(self).builder@.local_sizes,
            final(self).names@ == old(self).names@,
            final(self).places@ == old(self).places@,
            value_supported(*value, old(self).name_seq()) ==> r is Ok,
            final(self).builder@.local_offsets == old(self).builder@.local_offsets,
            final(self).builder@.func_args == old(self).builder@.func_args,
            r is Ok ==> final(self).builder@.body == old(self).builder@.body + stmt_out(
                Node::Return { value: Box::new(*value) },
                old(self).gen_state(),
            ).0 && final(self).builder@.data.len() == stmt_out(
                Node::Return { value: Box::new(*value) },
                old(self).gen_state(),
            ).1.data_len,
    {
        self.gen_value(value)?;
        self.builder.pop("rbp");
        self.builder.add_raw_asm1("ret");
        Ok(())
    }

    /// One function: its frame, its parameters bound to the argument
    /// registers, its statements in order, and the frame's closing.
    #[verifier::rlimit(100)]
    fn gen_function(&mut self, node: &Node) -> (r: Result<(), GenError>)
        requires
            old(self).wf(),
            !old(self).builder@.in_function,
        ensures
            final(self).wf(),
            r is Ok ==> !final(self).builder@.in_function,
            !(node is Function) ==> r is Err,
            function_supported(*node) ==> r is Ok,
            r is Ok ==> {
                let t0 = old(self).builder@.text;
                let t1 = final(self).builder@.text;
                &&& t0.is_prefix_of(t1)
                &&& frame_text(function_name(*node), t1.subrange(t0.len() as int, t1.len() as int))
            },
            final(self).builder@.func_args == old(self).builder@.func_args,
            r is Ok ==> final(self).builder@.text == old(self).builder@.text + function_out(
                *node,
                old(self).builder@.data.len() as int,
                old(self).builder@.func_args,
            ).0 && final(self).builder@.data.len() == function_out(
                *node,
                old(self).builder@.data.len() as int,
                old(self).builder@.func_args,
            ).1,
    {
        let (name, args, body) = match node {
            Node::Function { name, args, body, .. } => (name, args, body),
            _ => {
                return Err(gen_error(GenErrorKind::Unsupported, "Only functions may stand at top level"));
            },
        };
        let ghost text0 = self.builder@.text;
        let ret = self.builder.open_function(name.as_str());
        if ret.code != Code::Good {
            return Err(builder_error(ret.code));
        }
        let ghost head = prologue(name@);
        assert(self.builder@.body =~= head);
        let ghost sup = function_supported(*node);
        let ghost bound0 = names_before(args@, body@, 0);
        self.names = Vec::new();
        self.places = Vec::new();
        let mut i: usize = 0;
        assert(self.name_seq() =~= bound0.take(0));
        while i < args.len()
            invariant
                self.wf(),
                self.builder@.in_function,
                self.builder@.text == text0,
                head.is_prefix_of(self.builder@.body),
                i <= args@.len(),
                sup ==> args@.len() <= FUNC_ARG_SLOTS && forall|q: int|
                    0 <= q < args@.len() ==> *#[trigger] args@[q] is Assign,
                bound0 == names_before(args@, body@, 0),
                bound0 == args@.map_values(|a: Box<Node>| bound_name(*a)),
                sup == function_supported(*node),
                *node == (Node::Function { name: *name, return_type: node->return_type, args: *args, body: *body }),
                self.name_seq() == bound0.take(i as int),
                self.builder@.local_sizes.len() == 0,
                self.names@.len() == i,
                self.builder@.body == head,
                self.builder@.func_args == old(self).builder@.func_args,
                self.builder@.data == old(self).builder@.data,
                forall|q: int| 0 <= q < i ==> (#[trigger] self.places@[q] matches Place::Register { name: rn }
                    && rn@ == old(self).builder@.func_args[q]),
            decreases args@.len() - i,
        {
            let pname = match &*args[i] {
                Node::Assign { name, .. } => name,
                _ => {
                    return Err(gen_error(GenErrorKind::Unsupported, "Malformed parameter"));
                },
            };
            let register = match self.builder.func_arg_register(i) {
                Some(reg) => reg,
                None => {
                    return Err(builder_error(Code::BadArguments));
                },
            };
            let ghost places0 = self.places@;
            let pn = pname.clone();
            let ghost pv = pn@;
            let ghost seen = self.name_seq();
            assert(bound0[i as int] == pv);
            self.names.push(pn);
            self.places.push(Place::Register { name: register });
            assert(self.name_seq() =~= seen.push(pv));
            assert(bound0.take(i + 1) =~= bound0.take(i as int).push(pv));
            assert forall|q: int| 0 <= q < i + 1 implies (#[trigger] self.places@[q] matches Place::Register {
                name: rn,
            } && rn@ == old(self).builder@.func_args[q]) by {
                if q < i {
                    assert(self.places@[q] == places0[q]);
                }
            }
            i = i + 1;
        }
        assert(bound0.take(args@.len() as int) =~= bound0);
        let ghost st0 = entry_state(args@, old(self).builder@.data.len() as int, old(self).builder@.func_args);
        assert(self.gen_state().env =~= st0.env) by {
            assert forall|q: int| 0 <= q < args@.len() implies self.gen_state().env[q] == st0.env[q] by {
                assert(self.names@[q]@ == self.name_seq()[q]);
                assert(bound0[q] == bound_name(*args@[q]));
            }
        }
        assert(self.gen_state() == st0);
        assert(self.builder@.body =~= head + body_out(body@, 0, st0).0);
        let mut k: usize = 0;
        while k < body.len()
            invariant
                self.wf(),
                self.builder@.in_function,
                self.builder@.text == text0,
                head.is_prefix_of(self.builder@.body),
                k <= body@.len(),
                sup ==> body@.len() <= 0x1000_0000 && forall|m: int|
                    0 <= m < body@.len() ==> statement_supported(
                        *#[trigger] body@[m],
                        names_before(args@, body@, m),
                    ),
                self.name_seq() == names_before(args@, body@, k as int),
                sum_sizes(self.builder@.local_sizes) <= 8 * k,
                sup == function_supported(*node),
                *node == (Node::Function { name: *name, return_type: node->return_type, args: *args, body: *body }),
                self.builder@.body == head + body_out(body@, k as int, st0).0,
                self.gen_state() == body_out(body@, k as int, st0).1,
                self.builder@.func_args == old(self).builder@.func_args,
            decreases body@.len() - k,
        {
            let ghost body_before = self.builder@.body;
            let ghost names0 = self.names@;
            let ghost c0 = *self;
            match &*body[k] {
                Node::Assign { name, var_type, value } => self.gen_assign(name, *var_type, value)?,
                Node::FunctionCall { name, args } => self.gen_call(name, args)?,
                Node::Return { value } => self.gen_return(value)?,
                _ => {
                    return Err(gen_error(GenErrorKind::Unsupported, "Unsupported statement"));
                },
            }
            proof {
                lemma_prefix_trans(head, body_before, self.builder@.body);
                if (*body@[k as int]) is Assign {
                    assert(self.name_seq() =~= names_before(args@, body@, k + 1));
                } else {
                    assert(self.names@ == names0);
                    Compiler::lemma_same_state(&c0, self);
                }
                assert(self.builder@.body =~= head + body_out(body@, k + 1, st0).0);
            }
            k = k + 1;
        }
        let ghost full = self.builder@.body;
        let ret = self.builder.close_function();
        self.names = Vec::new();
        self.places = Vec::new();
        if ret.code != Code::Good {
            return Err(builder_error(ret.code));
        }
        proof {
            assert(self.builder@.text =~= text0 + function_out(
                *node,
                old(self).builder@.data.len() as int,
                old(self).builder@.func_args,
            ).0);
            let x = full.subrange(head.len() as int, full.len() as int);
            assert(full =~= head + x);
            let t1 = self.builder@.text;
            assert(t1.subrange(text0.len() as int, t1.len() as int) =~= line_of(
                prologue(name@) + x + epilogue(),
            ));
            assert(text0.is_prefix_of(t1));
        }
        Ok(())
    }

    /// Emits every function of the program in declaration order, then returns
    /// the finished artifact: the data, bss and text sections, in that order,
    /// the text ending with the program epilogue.
    #[verifier::rlimit(100)]
    pub fn run(&mut self) -> (r: Result<String, GenError>)
        requires
            old(self).wf(),
            !old(self).builder_view().in_function,
        ensures
            r matches Ok(s) ==> {
                let v = final(self).builder_view();
                let t0 = old(self).builder_view().text;
                let end = base_end(v.start_symbol);
                &&& old(self).program_node() is Program
                &&& v.start_symbol == "_start"@
                &&& s@ == v.data + v.bss + v.text
                &&& !v.in_function
                &&& t0.len() + end.len() <= v.text.len()
                &&& t0.is_prefix_of(v.text)
                &&& frames_text(
                    program_function_names(old(self).program_node()),
                    v.text.subrange(t0.len() as int, v.text.len() - end.len()),
                )
                &&& v.text.subrange(v.text.len() - end.len(), v.text.len() as int) == end
            },
            program_supported(old(self).program_node()) ==> r is Ok,
            r matches Ok(s) ==> {
                let v = final(self).builder_view();
                let ov = old(self).builder_view();
                let fs = match old(self).program_node() {
                    Node::Program { body } => body@,
                    _ => Seq::empty(),
                };
                &&& v.bss == "section .bss\n"@
                &&& "section .data\n"@.is_prefix_of(v.data)
                &&& v.text == ov.text + functions_out(fs, fs.len() as int, ov.data.len() as int, ov.func_args).0
                    + base_end("_start"@)
            },
    {
        let ghost text0 = self.builder@.text;
        let mut program = Node::Blank;
        core::mem::swap(&mut program, &mut self.program);
        let functions = match &program {
            Node::Program { body } => body,
            _ => {
                return Err(gen_error(GenErrorKind::Unsupported, "Not a program"));
            },
        };
        let ghost names = program_function_names(program);
        assert(frames_text(names.take(0), self.builder@.text.subrange(text0.len() as int, self.builder@.text.len() as int)));
        let ghost ps = program_supported(program);
        assert(ps == program_supported(old(self).program_node()));
        let mut i: usize = 0;
        while i < functions.len()
            invariant
                self.builder@.text == text0 + functions_out(
                    functions@,
                    i as int,
                    old(self).builder@.data.len() as int,
                    old(self).builder@.func_args,
                ).0,
                self.builder@.data.len() == functions_out(
                    functions@,
                    i as int,
                    old(self).builder@.data.len() as int,
                    old(self).builder@.func_args,
                ).1,
                self.builder@.func_args == old(self).builder@.func_args,
                text0 == old(self).builder@.text,
                ps == program_supported(old(self).program_node()),
                program == old(self).program_node(),
                ps ==> program_supported(program),
                program == (Node::Program { body: *functions }),
                ps ==> forall|j: int|
                    0 <= j < functions@.len() ==> function_supported(*#[trigger] functions@[j]),
                self.wf(),
                !self.builder@.in_function,
                i <= functions@.len(),
                names == functions@.map_values(|f: Box<Node>| function_name(*f)),
                text0.is_prefix_of(self.builder@.text),
                frames_text(
                    names.take(i as int),
                    self.builder@.text.subrange(text0.len() as int, self.builder@.text.len() as int),
                ),
            decreases functions@.len() - i,
        {
            let ghost t_before = self.builder@.text;
            self.gen_function(&functions[i])?;
            proof {
                assert(self.builder@.text =~= text0 + functions_out(
                    functions@,
                    i + 1,
                    old(self).builder@.data.len() as int,
                    old(self).builder@.func_args,
                ).0);
                let t_after = self.builder@.text;
                lemma_prefix_trans(text0, t_before, t_after);
                let whole = t_after.subrange(text0.len() as int, t_after.len() as int);
                let k = t_before.len() - text0.len();
                assert(whole.subrange(0, k) =~= t_before.subrange(text0.len() as int, t_before.len() as int));
                assert(whole.subrange(k, whole.len() as int) =~= t_after.subrange(t_before.len() as int, t_after.len() as int));
                assert(names.take(i + 1).drop_last() =~= names.take(i as int));
                assert(names.take(i + 1).last() == function_name(*functions@[i as int]));
                assert(frames_text(names.take(i + 1), whole));
            }
            i = i + 1;
        }
        assert(names.take(functions@.len() as int) =~= names);
        let ghost t_end = self.builder@.text;
        let out = self.builder.build();
        let ghost v = self.builder@;
        assert(v.text.subrange(v.text.len() - base_end(v.start_symbol).len(), v.text.len() as int)
            =~= base_end(v.start_symbol));
        assert(v.text.subrange(text0.len() as int, v.text.len() - base_end(v.start_symbol).len())
            =~= t_end.subrange(text0.len() as int, t_end.len() as int));
        assert(text0.is_prefix_of(v.text)) by {
            assert(text0 =~= v.text.subrange(0, text0.len() as int)) by {
                assert forall|j: int| 0 <= j < text0.len() implies text0[j] == v.text[j] by {
                    assert(text0[j] == t_end[j]);
                }
            }
        }
        Ok(out)
    }

    /// Emits `put_i`, which prints its integer argument through the C
    /// runtime's `printf`, with the format string it uses.
    pub fn add_print_helper(&mut self)
        requires
            old(self).wf(),
            !old(self).builder_view().in_function,
        ensures
            final(self).wf(),
            !final(self).builder_view().in_function,
            final(self).program_node() == old(self).program_node(),
            final(self).builder_view() == (BuilderView {
                text: old(self).builder_view().text + line_of("extern\t\t\t\t"@ + "printf"@) + line_of(
                    prologue("put_i"@) + asm3("mov"@, "esi"@, "edi"@) + asm3("mov"@, "eax"@, "0"@)
                        + asm3("mov"@, old(self).builder_view().func_args[0], "put_i_fmt_str"@)
                        + asm2("call"@, "printf"@) + epilogue(),
                ),
                data: old(self).builder_view().data + string_literal_line("put_i_fmt_str"@, "%d\n"@),
                ..old(self).builder_view()
            }),
    {
        self.builder.extern_add("printf");
        self.builder.new_string_literal("put_i_fmt_str", "%d\n");
        self.builder.open_function("put_i");
        self.builder.mov("esi", "edi");
        self.builder.mov("eax", "0");
        let mut args: Vec<&str> = Vec::new();
        args.push("put_i_fmt_str");
        let ghost before_call = self.builder@;
        assert(before_call.func_args == old(self).builder@.func_args);
        self.builder.call_function("printf", args);
        proof {
            let regs = before_call.func_args;
            let av = strs_view(seq!["put_i_fmt_str"]);
            assert(av.drop_last() =~= Seq::<Seq<char>>::empty());
            assert(arg_moves(regs, av.drop_last()) == Seq::<char>::empty());
            assert(av.last() == "put_i_fmt_str"@);
            assert(arg_moves(regs, av) =~= asm3("mov"@, regs[0], "put_i_fmt_str"@));
            assert(self.builder@.body =~= prologue("put_i"@) + asm3("mov"@, "esi"@, "edi"@) + asm3(
                "mov"@,
                "eax"@,
                "0"@,
            ) + asm3("mov"@, regs[0], "put_i_fmt_str"@) + asm2("call"@, "printf"@));
        }
        let ghost before_close = self.builder@;
        self.builder.close_function();
        assert(before_close.text =~= old(self).builder@.text + line_of("extern\t\t\t\t"@ + "printf"@));
        assert(self.builder@.text =~= old(self).builder@.text + line_of("extern\t\t\t\t"@ + "printf"@) + line_of(
            prologue("put_i"@) + asm3("mov"@, "esi"@, "edi"@) + asm3("mov"@, "eax"@, "0"@)
                + asm3("mov"@, old(self).builder@.func_args[0], "put_i_fmt_str"@) + asm2("call"@, "printf"@)
                + epilogue(),
        ));
        assert(self.builder@.local_sizes =~= old(self).builder@.local_sizes);
        assert(self.builder@.local_offsets =~= old(self).builder@.local_offsets);
        assert(self.builder@.body =~= old(self).builder@.body);
        assert(self.builder@ == (BuilderView {
            text: self.builder@.text,
            data: self.builder@.data,
            ..old(self).builder@
        }));
    }
}

} // verus!
