//! A stack machine that runs transaction data against the key/value state.
use vstd::bytes::{spec_u32_from_le_bytes, spec_u32_to_le_bytes, u32_from_le_bytes, u32_to_le_bytes};
use vstd::prelude::*;
use crate::error::McError;
use crate::state::{MemState, State};

verus! {

broadcast use vstd::array::group_array_axioms;

} // verus!

verus! {

#[derive(Clone, Copy, Debug, PartialEq, Eq)]
pub enum StackItem {
    Int(i32),
    Bool(bool),
    Byte(u8),
    Bytes([u8; 64]),
}

/// The bytes of a stack item: an integer little endian, a boolean as 0 or 1.
pub open spec fn item_bytes(it: StackItem) -> Seq<u8> {
    match it {
        StackItem::Int(i) => spec_u32_to_le_bytes(i as u32),
        StackItem::Bool(b) => seq![if b { 1u8 } else { 0u8 }],
        StackItem::Byte(b) => seq![b],
        StackItem::Bytes(a) => a@,
    }
}

impl Default for StackItem {
    fn default() -> (r: StackItem)
        ensures
            r == StackItem::Int(0),
    {
        StackItem::Int(0)
    }
}

impl StackItem {
    pub fn to_bytes(&self) -> (r: Vec<u8>)
        ensures
            r@ == item_bytes(*self),
    {
        match self {
            StackItem::Int(i) => u32_to_le_bytes(*i as u32),
            StackItem::Bool(b) => {
                let v: Vec<u8> = vec![if *b { 1u8 } else { 0u8 }];
                assert(v@ =~= item_bytes(*self));
                v
            },
            StackItem::Byte(b) => {
                let v: Vec<u8> = vec![*b];
                assert(v@ =~= item_bytes(*self));
                v
            },
            StackItem::Bytes(a) => {
                let v = vstd::slice::slice_to_vec(a.as_slice());
                v
            },
        }
    }
}

/// The stack after its top is taken: every item moves up one place and the
/// bottom one stays where it was.
pub open spec fn popped(s: Seq<StackItem>) -> Seq<StackItem> {
    s.subrange(1, s.len() as int).push(s.last())
}

/// The stack after `item` is put on top: the bottom item falls off.
pub open spec fn pushed(s: Seq<StackItem>, item: StackItem) -> Seq<StackItem> {
    seq![item] + s.subrange(0, s.len() - 1)
}

/// A fixed-size stack whose top is its first slot.
#[derive(Clone, Debug)]
pub struct Stack<const N: usize> {
    data: [StackItem; N],
    sp: usize,
}

impl<const N: usize> Stack<N> {
    pub closed spec fn items(&self) -> Seq<StackItem> {
        self.data@
    }

    /// How many items were pushed and not popped, counted without going below zero.
    pub closed spec fn depth(&self) -> usize {
        self.sp
    }

    pub fn new() -> (r: Stack<N>)
        ensures
            r.items() == Seq::new(N as nat, |_i: int| StackItem::Int(0)),
            r.depth() == 0,
    {
        let r = Stack { data: [StackItem::Int(0); N], sp: 0 };
        assert(r.items() =~= Seq::new(N as nat, |_i: int| StackItem::Int(0)));
        r
    }

    pub fn pop(&mut self) -> (r: StackItem)
        requires
            N > 0,
        ensures
            r == old(self).items()[0],
            final(self).items() == popped(old(self).items()),
            final(self).depth() == (if old(self).depth() == 0 { 0 } else { (old(self).depth() - 1) as usize }),
    {
        let val = self.data[0];
        let mut data: [StackItem; N] = self.data;
        let mut i: usize = 0;
        while i + 1 < N
            invariant
                N > 0,
                i < N,
                data@.len() == N,
                self.data@.len() == N,
                forall|j: int| 0 <= j < i ==> data@[j] == self.data@[j + 1],
                forall|j: int| i <= j < N ==> data@[j] == self.data@[j],
            decreases N - i,
        {
            data[i] = self.data[i + 1];
            i += 1;
        }
        assert(data@ =~= popped(self.data@));
        self.data = data;
        self.sp = self.sp.saturating_sub(1);
        val
    }

    pub fn push_front(&mut self, item: StackItem)
        requires
            N > 0,
        ensures
            final(self).items() == pushed(old(self).items(), item),
            final(self).depth() == (if old(self).depth() == usize::MAX { usize::MAX } else { (old(self).depth() + 1) as usize }),
    {
        let mut data: [StackItem; N] = [StackItem::Int(0); N];
        data[0] = item;
        let mut i: usize = 1;
        while i < N
            invariant
                1 <= i <= N,
                data@.len() == N,
                self.data@.len() == N,
                data@[0] == item,
                forall|j: int| 1 <= j < i ==> data@[j] == self.data@[j - 1],
            decreases N - i,
        {
            data[i] = self.data[i - 1];
            i += 1;
        }
        assert(data@ =~= pushed(self.data@, item));
        self.data = data;
        self.sp = self.sp.saturating_add(1);
    }
}

#[derive(Clone, Copy, Debug, PartialEq, Eq)]
pub enum Instruction {
    PushInt,
    PushBool,
    PushByte,
    Add,
    Sub,
    Get,
    Mul,
    Div,
    Store,
}

/// The instruction an opcode names, if any.
pub open spec fn opcode(b: u8) -> Option<Instruction> {
    if b == 0xaa {
        Some(Instruction::PushInt)
    } else if b == 0xab {
        Some(Instruction::PushBool)
    } else if b == 0xac {
        Some(Instruction::PushByte)
    } else if b == 0xad {
        Some(Instruction::Add)
    } else if b == 0xae {
        Some(Instruction::Sub)
    } else if b == 0xaf {
        Some(Instruction::Get)
    } else if b == 0xba {
        Some(Instruction::Mul)
    } else if b == 0xbb {
        Some(Instruction::Div)
    } else if b == 0xbc {
        Some(Instruction::Store)
    } else {
        None
    }
}

impl Instruction {
    pub fn from_byte(value: u8) -> (r: Option<Instruction>)
        ensures
            r == opcode(value),
    {
        match value {
            0xaa => Some(Instruction::PushInt),
            0xab => Some(Instruction::PushBool),
            0xac => Some(Instruction::PushByte),
            0xad => Some(Instruction::Add),
            0xae => Some(Instruction::Sub),
            0xaf => Some(Instruction::Get),
            0xba => Some(Instruction::Mul),
            0xbb => Some(Instruction::Div),
            0xbc => Some(Instruction::Store),
            _ => None,
        }
    }
}

/// The machine's stack and the state it works on, as mathematical values.
pub struct VmView {
    pub stack: Seq<StackItem>,
    pub depth: usize,
    pub state: Map<Seq<u8>, Seq<u8>>,
}

pub open spec fn pop_view(m: VmView) -> VmView {
    VmView {
        stack: popped(m.stack),
        depth: if m.depth == 0 { 0 } else { (m.depth - 1) as usize },
        ..m
    }
}

pub open spec fn push_view(m: VmView, item: StackItem) -> VmView {
    VmView {
        stack: pushed(m.stack, item),
        depth: if m.depth == usize::MAX { usize::MAX } else { (m.depth + 1) as usize },
        ..m
    }
}

/// `a op b`, where `a` was on top; none on overflow or division by zero.
pub open spec fn arith(op: Instruction, a: i32, b: i32) -> Option<i32> {
    match op {
        Instruction::Add => a.checked_add(b),
        Instruction::Sub => a.checked_sub(b),
        Instruction::Mul => a.checked_mul(b),
        _ => a.checked_div(b),
    }
}

/// What a value read from the state becomes on the stack, by its length.
pub open spec fn item_of_value(v: Seq<u8>) -> Option<StackItem> {
    if v.len() == 1 {
        Some(StackItem::Byte(v[0]))
    } else if v.len() == 4 {
        Some(StackItem::Int(spec_u32_from_le_bytes(v) as i32))
    } else if v.len() == 64 {
        Some(StackItem::Bytes(choose|a: [u8; 64]| a@ == v))
    } else {
        None
    }
}

/// One instruction; `operand` is the byte just before the opcode.
pub open spec fn step(m: VmView, instr: Instruction, operand: u8) -> Result<VmView, McError> {
    match instr {
        Instruction::PushBool => Ok(push_view(m, StackItem::Bool(operand != 0))),
        Instruction::PushInt => Ok(push_view(m, StackItem::Int(operand as i32))),
        Instruction::PushByte => Ok(push_view(m, StackItem::Byte(operand))),
        Instruction::Get => {
            let key = item_bytes(m.stack[0]);
            let m1 = pop_view(m);
            if !m.state.contains_key(key) {
                Err(McError::MissingKey)
            } else {
                match item_of_value(m.state[key]) {
                    Some(it) => Ok(push_view(m1, it)),
                    None => Ok(m1),
                }
            }
        },
        Instruction::Store => {
            let key = m.stack[0];
            let m1 = pop_view(m);
            let val = m1.stack[0];
            let m2 = pop_view(m1);
            Ok(VmView { state: m2.state.insert(item_bytes(key), item_bytes(val)), ..m2 })
        },
        _ => {
            let a = m.stack[0];
            let m1 = pop_view(m);
            let b = m1.stack[0];
            let m2 = pop_view(m1);
            match (a, b) {
                (StackItem::Int(x), StackItem::Int(y)) => match arith(instr, x, y) {
                    Some(v) => Ok(push_view(m2, StackItem::Int(v))),
                    None => Err(McError::ArithmeticFault),
                },
                _ => Err(McError::InvalidStackItems),
            }
        },
    }
}

/// Runs `code` from position `ip`: each byte that names an instruction is
/// executed, and the first failure ends the run.
pub open spec fn run(m: VmView, code: Seq<u8>, ip: int) -> Result<VmView, McError>
    decreases code.len() - ip,
{
    if ip < 0 || ip >= code.len() {
        Ok(m)
    } else {
        let operand = code[if ip == 0 { 0 } else { ip - 1 }];
        let next = match opcode(code[ip]) {
            Some(instr) => step(m, instr, operand),
            None => Ok(m),
        };
        match next {
            Err(e) => Err(e),
            Ok(m2) => run(m2, code, ip + 1),
        }
    }
}

/// The stack machine: an instruction pointer and a stack of `N` slots.
#[derive(Clone, Debug)]
pub struct BytecodeVM<const N: usize> {
    ip: usize,
    stack: Stack<N>,
}

impl<const N: usize> BytecodeVM<N> {
    /// The stack's slots, top first.
    pub closed spec fn stack_items(&self) -> Seq<StackItem> {
        self.stack.items()
    }

    pub closed spec fn stack_depth(&self) -> usize {
        self.stack.depth()
    }

    /// The machine over `state`.
    pub open spec fn machine(&self, state: Map<Seq<u8>, Seq<u8>>) -> VmView {
        VmView { stack: self.stack_items(), depth: self.stack_depth(), state }
    }

    pub fn new() -> (r: BytecodeVM<N>)
        ensures
            forall|s: Map<Seq<u8>, Seq<u8>>| #[trigger] r.machine(s) == (VmView {
                stack: Seq::new(N as nat, |_i: int| StackItem::Int(0)),
                depth: 0,
                state: s,
            }),
    {
        BytecodeVM { ip: 0, stack: Stack::new() }
    }

    /// Takes the top item.
    pub fn pop(&mut self) -> (r: StackItem)
        requires
            N > 0,
        ensures
            r == old(self).machine(Map::empty()).stack[0],
            forall|s: Map<Seq<u8>, Seq<u8>>| #[trigger] final(self).machine(s) == pop_view(old(self).machine(s)),
    {
        self.stack.pop()
    }

    /// Pops `a`, then `b`, and pushes `f(a, b)` when both are integers.
    fn arithmetic_operation(&mut self, op: Instruction) -> (r: Result<(), McError>)
        requires
            N > 0,
            op == Instruction::Add || op == Instruction::Sub || op == Instruction::Mul || op == Instruction::Div,
        ensures
            final(self).ip == old(self).ip,
            forall|s: Map<Seq<u8>, Seq<u8>>, o: u8| #[trigger] step(old(self).machine(s), op, o) == (match r {
                Ok(_) => Ok(final(self).machine(s)),
                Err(e) => Err::<VmView, McError>(e),
            }),
    {
        let a = self.stack.pop();
        let b = self.stack.pop();
        if let StackItem::Int(x) = a {
            if let StackItem::Int(y) = b {
                let v = match op {
                    Instruction::Add => x.checked_add(y),
                    Instruction::Sub => x.checked_sub(y),
                    Instruction::Mul => x.checked_mul(y),
                    _ => x.checked_div(y),
                };
                return match v {
                    Some(v) => {
                        self.stack.push_front(StackItem::Int(v));
                        Ok(())
                    },
                    None => Err(McError::ArithmeticFault),
                };
            }
        }
        Err(McError::InvalidStackItems)
    }

    fn execute_instruction(&mut self, state: &mut MemState, instr: Instruction, code: &[u8]) -> (r: Result<(), McError>)
        requires
            N > 0,
            old(self).ip < code@.len(),
        ensures
            final(self).ip == old(self).ip,
            step(
                old(self).machine(old(state)@),
                instr,
                code@[if old(self).ip == 0 { 0 } else { old(self).ip - 1 }],
            ) == (match r {
                Ok(_) => Ok(final(self).machine(final(state)@)),
                Err(e) => Err::<VmView, McError>(e),
            }),
    {
        let operand = code[self.ip.saturating_sub(1)];
        match instr {
            Instruction::PushBool => {
                self.stack.push_front(StackItem::Bool(operand != 0));
            },
            Instruction::PushInt => {
                self.stack.push_front(StackItem::Int(operand as i32));
            },
            Instruction::PushByte => {
                self.stack.push_front(StackItem::Byte(operand));
            },
            Instruction::Get => {
                let key = self.stack.pop();
                let val = state.get(key.to_bytes().as_slice())?;
                if val.len() == 1 {
                    self.stack.push_front(StackItem::Byte(val[0]));
                } else if val.len() == 4 {
                    self.stack.push_front(StackItem::Int(#[verifier::truncate] (u32_from_le_bytes(val.as_slice()) as i32)));
                } else if val.len() == 64 {
                    let a: [u8; 64] = crate::hash::from_bytes::<64>(val.as_slice());
                    proof {
                        assert forall|c: [u8; 64]| c@ == val@ implies c == a by {
                            assert(c =~= a);
                        }
                    }
                    self.stack.push_front(StackItem::Bytes(a));
                }
            },
            Instruction::Store => {
                let key = self.stack.pop();
                let val = self.stack.pop();
                state.set(key.to_bytes().as_slice(), val.to_bytes().as_slice())?;
            },
            _ => {
                self.arithmetic_operation(instr)?;
            },
        }
        Ok(())
    }

    /// Runs `code` against `state`.
    pub fn execute(&mut self, state: &mut MemState, code: &[u8]) -> (r: Result<(), McError>)
        requires
            N > 0,
        ensures
            run(old(self).machine(old(state)@), code@, 0) == (match r {
                Ok(_) => Ok(final(self).machine(final(state)@)),
                Err(e) => Err::<VmView, McError>(e),
            }),
    {
        self.ip = 0;
        if code.len() == 0 {
            return Ok(());
        }
        loop
            invariant
                N > 0,
                self.ip < code@.len(),
                run(old(self).machine(old(state)@), code@, 0) == run(self.machine(state@), code@, self.ip as int),
            decreases code@.len() - self.ip,
        {
            if let Some(instr) = Instruction::from_byte(code[self.ip]) {
                self.execute_instruction(state, instr, code)?;
            }
            self.ip += 1;
            if self.ip >= code.len() {
                return Ok(());
            }
        }
    }
}

} // verus!
