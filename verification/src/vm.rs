//! The bytecode virtual machine, one instruction at a time.
//!
//! `VM::step` decides what an instruction does to the machine and which
//! outside effect (printing, clearing the arena, a fault) it calls for; the
//! caller performs the effect and keeps stepping.

use vstd::prelude::*;
use vstd::hash_map::StringHashMap;
use crate::ast::StmtView;
use crate::ast::ExprView;
use crate::compiler::{OpCode, OpView, binop_code, code_expr, code_stmt, code_stmts};
use crate::num::{
    Num, bit_or, bit_xor, num_add, num_div, num_eq, num_from_i128, num_lt, num_mul, num_or,
    num_parse_decimal, num_sub, num_to_usize, num_xor, parse_decimal, trunc_div,
};
use crate::text::{decimal, decimal_chars, string_from_chars};

verus! {

/// Number of raw memory slots.
pub const HEAP_SLOTS: usize = 10000;

/// A `try` block being executed.
pub struct SafetyFrame {
    pub name: String,
    pub allocations: usize,
}

/// Why execution stopped with an error.
#[derive(Debug)]
pub enum RuntimeError {
    UndefinedVariable(String),
    /// A read through an address outside the memory pool.
    SegmentationFaultRead,
    /// A write through an address outside the memory pool.
    SegmentationFaultWrite,
    /// An arithmetic result outside the range of `i128`.
    ArithmeticOverflow,
    DivisionByZero,
    /// Output attempted inside a `try` block.
    SafetyViolation,
}

/// The outside effect an instruction calls for.
pub enum Action {
    Continue,
    Print(Num),
    FrameEntered,
    FrameExited,
    ArenaCleared,
    Halted,
    Fault(RuntimeError),
}

/// What one step did: the effect, and whether the security heartbeat is due now.
pub struct StepResult {
    pub action: Action,
    pub heartbeat: bool,
}

pub enum FaultView {
    UndefinedVariable(Seq<char>),
    SegmentationFaultRead,
    SegmentationFaultWrite,
    ArithmeticOverflow,
    DivisionByZero,
    SafetyViolation,
}

pub enum ActionView {
    Continue,
    Print(int),
    FrameEntered,
    FrameExited,
    ArenaCleared,
    Halted,
    Fault(FaultView),
}

impl View for RuntimeError {
    type V = FaultView;

    open spec fn view(&self) -> FaultView {
        match self {
            RuntimeError::UndefinedVariable(s) => FaultView::UndefinedVariable(s@),
            RuntimeError::SegmentationFaultRead => FaultView::SegmentationFaultRead,
            RuntimeError::SegmentationFaultWrite => FaultView::SegmentationFaultWrite,
            RuntimeError::ArithmeticOverflow => FaultView::ArithmeticOverflow,
            RuntimeError::DivisionByZero => FaultView::DivisionByZero,
            RuntimeError::SafetyViolation => FaultView::SafetyViolation,
        }
    }
}

/// The text a runtime error is reported with.
pub open spec fn fault_message(f: FaultView) -> Seq<char> {
    match f {
        FaultView::UndefinedVariable(name) => "Undefined variable: "@ + name,
        FaultView::SegmentationFaultRead => "Segmentation Fault: Memory out of bounds"@,
        FaultView::SegmentationFaultWrite => "Segmentation Fault: Illegal Write"@,
        FaultView::ArithmeticOverflow => "Arithmetic Overflow: Operation exceeded safe bounds"@,
        FaultView::DivisionByZero => "Division by zero"@,
        FaultView::SafetyViolation => "Safety Violation: External Write forbidden inside try block"@,
    }
}

impl RuntimeError {
    /// The text this error is reported with.
    pub fn message(&self) -> (m: String)
        ensures
            m@ == fault_message(self@),
    {
        match self {
            RuntimeError::UndefinedVariable(name) => {
                let mut m = String::from_str("Undefined variable: ");
                m.append(name.as_str());
                m
            },
            RuntimeError::SegmentationFaultRead => String::from_str(
                "Segmentation Fault: Memory out of bounds",
            ),
            RuntimeError::SegmentationFaultWrite => String::from_str(
                "Segmentation Fault: Illegal Write",
            ),
            RuntimeError::ArithmeticOverflow => String::from_str(
                "Arithmetic Overflow: Operation exceeded safe bounds",
            ),
            RuntimeError::DivisionByZero => String::from_str("Division by zero"),
            RuntimeError::SafetyViolation => String::from_str(
                "Safety Violation: External Write forbidden inside try block",
            ),
        }
    }
}

impl View for Action {
    type V = ActionView;

    open spec fn view(&self) -> ActionView {
        match self {
            Action::Continue => ActionView::Continue,
            Action::Print(n) => ActionView::Print(n@),
            Action::FrameEntered => ActionView::FrameEntered,
            Action::FrameExited => ActionView::FrameExited,
            Action::ArenaCleared => ActionView::ArenaCleared,
            Action::Halted => ActionView::Halted,
            Action::Fault(e) => ActionView::Fault(e@),
        }
    }
}

/// The machine state: value stack, variables, memory pool, open `try`
/// frames (by name), instruction pointer, and whether a `try` block is open.
pub struct VmView {
    pub stack: Seq<int>,
    pub vars: Map<Seq<char>, int>,
    pub heap: Seq<int>,
    pub frames: Seq<Seq<char>>,
    pub ip: int,
    pub in_frame: bool,
}

pub open spec fn frame_name(n: nat) -> Seq<char> {
    seq!['F', 'r', 'a', 'm', 'e', '_'] + decimal(n)
}

/// Whether an arithmetic result is outside the range of `i128`.
pub open spec fn overflows(r: int) -> bool {
    r > i128::MAX || r < i128::MIN
}

/// Whether an address names a slot of the memory pool.
pub open spec fn in_pool(a: int) -> bool {
    0 <= a < HEAP_SLOTS
}

/// The memory pool with every slot cleared.
pub open spec fn cleared_heap() -> Seq<int> {
    Seq::new(HEAP_SLOTS as nat, |i: int| 0int)
}

/// Instructions that take two operands from the stack without checking.
pub open spec fn takes_two(op: OpView) -> bool {
    op is StoreDeref || op is Add || op is Sub || op is Mul || op is Div || op is Xor || op is Or
}

pub open spec fn advance(s: VmView) -> VmView {
    VmView { ip: s.ip + 1, ..s }
}

pub open spec fn with_stack(s: VmView, st: Seq<int>) -> VmView {
    VmView { stack: st, ..s }
}

/// The effect of a two-operand arithmetic instruction with result `r`.
pub open spec fn arith_step(s: VmView, popped: Seq<int>, r: int, hb: bool) -> (VmView, ActionView, bool) {
    if overflows(r) {
        (with_stack(s, popped), ActionView::Fault(FaultView::ArithmeticOverflow), false)
    } else {
        (advance(with_stack(s, popped.push(r))), ActionView::Continue, hb)
    }
}

/// One instruction: the next state, the effect, and whether the heartbeat is due.
pub open spec fn vm_step(s: VmView, op: OpView) -> (VmView, ActionView, bool) {
    let hb = s.ip % 100 == 0;
    let n = s.stack.len();
    match op {
        OpView::PushInt(text) => {
            let v = match parse_decimal(text) {
                Some(x) => x,
                None => 0,
            };
            (advance(with_stack(s, s.stack.push(v))), ActionView::Continue, hb)
        },
        OpView::Store(name) => if n > 0 {
            (
                advance(
                    VmView {
                        stack: s.stack.drop_last(),
                        vars: s.vars.insert(name, s.stack.last()),
                        ..s
                    },
                ),
                ActionView::Continue,
                hb,
            )
        } else {
            (advance(s), ActionView::Continue, hb)
        },
        OpView::Load(name) => if s.vars.contains_key(name) {
            (advance(with_stack(s, s.stack.push(s.vars[name]))), ActionView::Continue, hb)
        } else {
            (s, ActionView::Fault(FaultView::UndefinedVariable(name)), false)
        },
        OpView::Addr(name) => {
            let addr = (vstd::utf8::encode_utf8(name).len() as usize) as i64 as int;
            (advance(with_stack(s, s.stack.push(addr))), ActionView::Continue, hb)
        },
        OpView::Deref => if n > 0 {
            let a = s.stack.last();
            let popped = s.stack.drop_last();
            if in_pool(a) {
                (advance(with_stack(s, popped.push(s.heap[a]))), ActionView::Continue, hb)
            } else {
                (with_stack(s, popped), ActionView::Fault(FaultView::SegmentationFaultRead), false)
            }
        } else {
            (advance(s), ActionView::Continue, hb)
        },
        OpView::StoreDeref => {
            let a = s.stack[n - 1];
            let val = s.stack[n - 2];
            let popped = s.stack.subrange(0, n - 2);
            if in_pool(a) {
                (
                    advance(VmView { stack: popped, heap: s.heap.update(a, val), ..s }),
                    ActionView::Continue,
                    hb,
                )
            } else {
                (with_stack(s, popped), ActionView::Fault(FaultView::SegmentationFaultWrite), false)
            }
        },
        OpView::Add => arith_step(s, s.stack.subrange(0, n - 2), s.stack[n - 2] + s.stack[n - 1], hb),
        OpView::Sub => arith_step(s, s.stack.subrange(0, n - 2), s.stack[n - 2] - s.stack[n - 1], hb),
        OpView::Mul => arith_step(s, s.stack.subrange(0, n - 2), s.stack[n - 2] * s.stack[n - 1], hb),
        OpView::Div => {
            let popped = s.stack.subrange(0, n - 2);
            if s.stack[n - 1] == 0 {
                (with_stack(s, popped), ActionView::Fault(FaultView::DivisionByZero), false)
            } else {
                (
                    advance(with_stack(s, popped.push(trunc_div(s.stack[n - 2], s.stack[n - 1])))),
                    ActionView::Continue,
                    hb,
                )
            }
        },
        OpView::Xor => (
            advance(
                with_stack(
                    s,
                    s.stack.subrange(0, n - 2).push(bit_xor(s.stack[n - 2], s.stack[n - 1])),
                ),
            ),
            ActionView::Continue,
            hb,
        ),
        OpView::Or => (
            advance(
                with_stack(
                    s,
                    s.stack.subrange(0, n - 2).push(bit_or(s.stack[n - 2], s.stack[n - 1])),
                ),
            ),
            ActionView::Continue,
            hb,
        ),
        OpView::Jump(t) => (VmView { ip: t, ..s }, ActionView::Continue, false),
        OpView::JumpIfFalse(t) => if n > 0 {
            let popped = with_stack(s, s.stack.drop_last());
            if s.stack.last() == 0 {
                (VmView { ip: t, ..popped }, ActionView::Continue, false)
            } else {
                (advance(popped), ActionView::Continue, hb)
            }
        } else {
            (advance(s), ActionView::Continue, hb)
        },
        OpView::Put => if s.in_frame {
            (s, ActionView::Fault(FaultView::SafetyViolation), false)
        } else if n > 0 {
            (advance(with_stack(s, s.stack.drop_last())), ActionView::Print(s.stack.last()), hb)
        } else {
            (advance(s), ActionView::Continue, hb)
        },
        OpView::EnterTry => (
            advance(
                VmView {
                    in_frame: true,
                    frames: s.frames.push(frame_name(s.frames.len())),
                    ..s
                },
            ),
            ActionView::FrameEntered,
            hb,
        ),
        OpView::ExitTry => if s.frames.len() > 0 {
            let frames = s.frames.drop_last();
            (
                advance(
                    VmView {
                        frames,
                        in_frame: if frames.len() == 0 {
                            false
                        } else {
                            s.in_frame
                        },
                        ..s
                    },
                ),
                ActionView::FrameExited,
                hb,
            )
        } else {
            (advance(s), ActionView::Continue, hb)
        },
        OpView::ArenaEnd => (
            advance(VmView { heap: cleared_heap(), ..s }),
            ActionView::ArenaCleared,
            hb,
        ),
        OpView::Halt => (s, ActionView::Halted, false),
        _ => (advance(s), ActionView::Continue, hb),
    }
}

/// The bytecode virtual machine.
pub struct VM {
    stack: Vec<Num>,
    variables: StringHashMap<Num>,
    heap: Vec<Num>,
    frames: Vec<SafetyFrame>,
    ip: usize,
    in_safety_frame: bool,
}

pub open spec fn nums_view(v: Seq<Num>) -> Seq<int> {
    v.map_values(|n: Num| n@)
}

impl View for VM {
    type V = VmView;

    closed spec fn view(&self) -> VmView {
        VmView {
            stack: nums_view(self.stack@),
            vars: self.variables@.map_values(|n: Num| n@),
            heap: nums_view(self.heap@),
            frames: self.frames@.map_values(|f: SafetyFrame| f.name@),
            ip: self.ip as int,
            in_frame: self.in_safety_frame,
        }
    }
}

/// What holds of every machine state: a memory pool of `HEAP_SLOTS` slots,
/// and a `try` block is open exactly when there is a frame.
pub open spec fn vm_wf(s: VmView) -> bool {
    &&& s.heap.len() == HEAP_SLOTS
    &&& s.in_frame == (s.frames.len() > 0)
    &&& 0 <= s.ip <= usize::MAX
}

} // verus!

verus! {

pub open spec fn would_panic(s: VmView, op: OpView) -> bool {
    takes_two(op) && s.stack.len() < 2
}

pub open spec fn initial_vm() -> VmView {
    VmView {
        stack: Seq::empty(),
        vars: Map::empty(),
        heap: cleared_heap(),
        frames: Seq::empty(),
        ip: 0,
        in_frame: false,
    }
}

proof fn lemma_nums_push(v: Seq<Num>, x: Num)
    ensures
        nums_view(v.push(x)) == nums_view(v).push(x@),
{
    assert(nums_view(v.push(x)) =~= nums_view(v).push(x@));
}

fn make_frame_name(n: usize) -> (s: String)
    ensures
        s@ == frame_name(n as nat),
{
    let mut v = vec!['F', 'r', 'a', 'm', 'e', '_'];
    let mut d = decimal_chars(n as u128);
    let ghost prefix = v@;
    v.append(&mut d);
    proof {
        assert(prefix =~= seq!['F', 'r', 'a', 'm', 'e', '_']);
        assert(v@ =~= frame_name(n as nat));
    }
    string_from_chars(v.as_slice())
}

impl VM {
    pub fn new() -> (vm: Self)
        ensures
            vm@ == initial_vm(),
            vm_wf(vm@),
    {
        let mut heap: Vec<Num> = Vec::new();
        let mut i: usize = 0;
        while i < HEAP_SLOTS
            invariant
                i <= HEAP_SLOTS,
                heap@.len() == i,
                forall|k: int| 0 <= k < i ==> #[trigger] heap@[k]@ == 0,
            decreases HEAP_SLOTS - i,
        {
            heap.push(num_from_i128(0));
            i = i + 1;
        }
        let vm = Self {
            stack: Vec::new(),
            variables: StringHashMap::new(),
            heap,
            frames: Vec::new(),
            ip: 0,
            in_safety_frame: false,
        };
        proof {
            assert(nums_view(vm.stack@) =~= Seq::<int>::empty());
            assert(vm.variables@.map_values(|n: Num| n@) =~= Map::<Seq<char>, int>::empty());
            assert(nums_view(vm.heap@) =~= Seq::new(HEAP_SLOTS as nat, |i: int| 0int));
            assert(vm.frames@.map_values(|f: SafetyFrame| f.name@) =~= Seq::<Seq<char>>::empty());
        }
        vm
    }

    /// The instruction pointer.
    pub fn ip(&self) -> (ip: usize)
        ensures
            ip == self@.ip,
    {
        self.ip
    }

    /// The name of the innermost open `try` frame, if any.
    pub fn active_frame_name(&self) -> (r: Option<String>)
        ensures
            match r {
                Some(n) => self@.frames.len() > 0 && n@ == self@.frames.last(),
                None => self@.frames.len() == 0,
            },
    {
        let n = self.frames.len();
        if n == 0 {
            None
        } else {
            Some(self.frames[n - 1].name.clone())
        }
    }

    /// Whether the instruction pointer is still inside `bytecode`.
    pub fn is_running(&self, bytecode: &Vec<OpCode>) -> (b: bool)
        ensures
            b == (self@.ip < bytecode@.len()),
    {
        self.ip < bytecode.len()
    }

    /// Whether the next instruction needs two stack operands that are not there.
    pub fn step_would_panic(&self, bytecode: &Vec<OpCode>) -> (b: bool)
        requires
            self@.ip < bytecode@.len(),
        ensures
            b == would_panic(self@, bytecode@[self@.ip]@),
    {
        let two = match &bytecode[self.ip] {
            OpCode::StoreDeref | OpCode::Add | OpCode::Sub | OpCode::Mul | OpCode::Div
            | OpCode::Xor | OpCode::Or => true,
            _ => false,
        };
        two && self.stack.len() < 2
    }

    fn pop_two(&mut self) -> (r: (Num, Num))
        requires
            old(self).stack@.len() >= 2,
        ensures
            final(self)@ == with_stack(
                old(self)@,
                old(self)@.stack.subrange(0, old(self)@.stack.len() - 2),
            ),
            r.0@ == old(self)@.stack[old(self)@.stack.len() - 2],
            r.1@ == old(self)@.stack[old(self)@.stack.len() - 1],
    {
        let b = self.stack.pop().unwrap();
        let a = self.stack.pop().unwrap();
        proof {
            assert(nums_view(self.stack@) =~= nums_view(old(self).stack@).subrange(
                0,
                old(self).stack@.len() - 2,
            ));
        }
        (a, b)
    }

    fn push_value(&mut self, v: Num)
        ensures
            final(self)@ == with_stack(old(self)@, old(self)@.stack.push(v@)),
    {
        proof {
            lemma_nums_push(self.stack@, v);
        }
        self.stack.push(v);
    }

    fn pop_value(&mut self) -> (r: Option<Num>)
        ensures
            match r {
                Some(v) => old(self)@.stack.len() > 0 && v@ == old(self)@.stack.last()
                    && final(self)@ == with_stack(old(self)@, old(self)@.stack.drop_last()),
                None => old(self)@.stack.len() == 0 && final(self)@ == old(self)@,
            },
    {
        let r = self.stack.pop();
        proof {
            if r is Some {
                assert(nums_view(self.stack@) =~= nums_view(old(self).stack@).drop_last());
            }
        }
        r
    }

    /// Moves to the next instruction; true when the heartbeat is due.
    fn next_ip(&mut self) -> (hb: bool)
        requires
            old(self)@.ip < usize::MAX,
        ensures
            final(self)@ == advance(old(self)@),
            hb == (old(self)@.ip % 100 == 0),
    {
        let hb = self.ip % 100 == 0;
        self.ip = self.ip + 1;
        hb
    }

    /// Runs an arithmetic instruction's overflow check on `r`.
    fn finish_arith(&mut self, r: Num) -> (res: StepResult)
        requires
            old(self)@.ip < usize::MAX,
        ensures
            (final(self)@, res.action@, res.heartbeat) == arith_step(
                old(self)@,
                old(self)@.stack,
                r@,
                old(self)@.ip % 100 == 0,
            ),
    {
        let max = num_from_i128(i128::MAX);
        let min = num_from_i128(i128::MIN);
        if num_lt(&max, &r) || num_lt(&r, &min) {
            StepResult { action: Action::Fault(RuntimeError::ArithmeticOverflow), heartbeat: false }
        } else {
            self.push_value(r);
            let hb = self.next_ip();
            StepResult { action: Action::Continue, heartbeat: hb }
        }
    }
}


impl VM {
    fn exec_push_int(&mut self, text: &String) -> (res: StepResult)
        requires
            vm_wf(old(self)@),
            old(self)@.ip < usize::MAX,
        ensures
            vm_wf(final(self)@),
            (final(self)@, res.action@, res.heartbeat) == vm_step(old(self)@, OpView::PushInt(text@)),
    {
        let v = match num_parse_decimal(text) {
            Some(v) => v,
            None => num_from_i128(0),
        };
        self.push_value(v);
        let hb = self.next_ip();
        StepResult { action: Action::Continue, heartbeat: hb }
    }

    fn exec_store(&mut self, name: &String) -> (res: StepResult)
        requires
            vm_wf(old(self)@),
            old(self)@.ip < usize::MAX,
        ensures
            vm_wf(final(self)@),
            (final(self)@, res.action@, res.heartbeat) == vm_step(old(self)@, OpView::Store(name@)),
    {
        let ghost s0 = self@;
        match self.pop_value() {
            Some(v) => {
                let ghost vv = v@;
                self.variables.insert(name.clone(), v);
                proof {
                    assert(self.variables@.map_values(|n: Num| n@) =~= s0.vars.insert(name@, vv));
                }
            },
            None => {},
        }
        let hb = self.next_ip();
        StepResult { action: Action::Continue, heartbeat: hb }
    }

    fn exec_load(&mut self, name: &String) -> (res: StepResult)
        requires
            vm_wf(old(self)@),
            old(self)@.ip < usize::MAX,
        ensures
            vm_wf(final(self)@),
            (final(self)@, res.action@, res.heartbeat) == vm_step(old(self)@, OpView::Load(name@)),
    {
        match self.variables.get(name.as_str()) {
            Some(v) => {
                let v2 = v.duplicate();
                self.push_value(v2);
                let hb = self.next_ip();
                StepResult { action: Action::Continue, heartbeat: hb }
            },
            None => StepResult {
                action: Action::Fault(RuntimeError::UndefinedVariable(name.clone())),
                heartbeat: false,
            },
        }
    }

    fn exec_addr(&mut self, name: &String) -> (res: StepResult)
        requires
            vm_wf(old(self)@),
            old(self)@.ip < usize::MAX,
        ensures
            vm_wf(final(self)@),
            (final(self)@, res.action@, res.heartbeat) == vm_step(old(self)@, OpView::Addr(name@)),
    {
        let len = name.as_str().len();
        let addr = #[verifier::truncate] (len as i64);
        self.push_value(num_from_i128(addr as i128));
        let hb = self.next_ip();
        StepResult { action: Action::Continue, heartbeat: hb }
    }

    /// The slot an address names, when it is in the memory pool.
    fn pool_slot(&self, addr: &Num) -> (r: Option<usize>)
        requires
            vm_wf(self@),
        ensures
            match r {
                Some(i) => in_pool(addr@) && i == addr@ && i < self.heap@.len(),
                None => !in_pool(addr@),
            },
    {
        match num_to_usize(addr) {
            Some(i) => if i < self.heap.len() {
                Some(i)
            } else {
                None
            },
            None => None,
        }
    }

    /// Clears every slot of the memory pool.
    fn clear_heap(&mut self)
        requires
            vm_wf(old(self)@),
        ensures
            final(self)@ == (VmView { heap: cleared_heap(), ..old(self)@ }),
    {
        let ghost s0 = self@;
        let n = self.heap.len();
        let mut i: usize = 0;
        while i < n
            invariant
                n == self.heap@.len(),
                n == HEAP_SLOTS,
                i <= n,
                self@ == (VmView { heap: nums_view(self.heap@), ..s0 }),
                forall|k: int| 0 <= k < i ==> #[trigger] nums_view(self.heap@)[k] == 0,
                s0.heap.len() == n,
                forall|k: int| i <= k < n ==> #[trigger] nums_view(self.heap@)[k] == s0.heap[k],
            decreases n - i,
        {
            let ghost before = nums_view(self.heap@);
            let zero = num_from_i128(0);
            let ghost zv = zero@;
            self.heap.set(i, zero);
            proof {
                assert(nums_view(self.heap@) =~= before.update(i as int, zv));
            }
            i = i + 1;
        }
        proof {
            assert(nums_view(self.heap@) =~= cleared_heap());
        }
    }

    fn exec_deref(&mut self) -> (res: StepResult)
        requires
            vm_wf(old(self)@),
            old(self)@.ip < usize::MAX,
        ensures
            vm_wf(final(self)@),
            (final(self)@, res.action@, res.heartbeat) == vm_step(old(self)@, OpView::Deref),
    {
        match self.pop_value() {
            Some(addr) => {
                let slot = self.pool_slot(&addr);
                if let Some(idx) = slot {
                    let v = self.heap[idx].duplicate();
                    self.push_value(v);
                    let hb = self.next_ip();
                    StepResult { action: Action::Continue, heartbeat: hb }
                } else {
                    StepResult {
                        action: Action::Fault(RuntimeError::SegmentationFaultRead),
                        heartbeat: false,
                    }
                }
            },
            None => {
                let hb = self.next_ip();
                StepResult { action: Action::Continue, heartbeat: hb }
            },
        }
    }

    fn exec_store_deref(&mut self) -> (res: StepResult)
        requires
            vm_wf(old(self)@),
            old(self)@.ip < usize::MAX,
            old(self)@.stack.len() >= 2,
        ensures
            vm_wf(final(self)@),
            (final(self)@, res.action@, res.heartbeat) == vm_step(old(self)@, OpView::StoreDeref),
    {
        let ghost s0 = self@;
        let (val, addr) = self.pop_two();
        let slot = self.pool_slot(&addr);
        if let Some(idx) = slot {
            let ghost vv = val@;
            self.heap.set(idx, val);
            proof {
                assert(nums_view(self.heap@) =~= s0.heap.update(idx as int, vv));
            }
            let hb = self.next_ip();
            StepResult { action: Action::Continue, heartbeat: hb }
        } else {
            StepResult { action: Action::Fault(RuntimeError::SegmentationFaultWrite), heartbeat: false }
        }
    }

    fn exec_div(&mut self) -> (res: StepResult)
        requires
            vm_wf(old(self)@),
            old(self)@.ip < usize::MAX,
            old(self)@.stack.len() >= 2,
        ensures
            vm_wf(final(self)@),
            (final(self)@, res.action@, res.heartbeat) == vm_step(old(self)@, OpView::Div),
    {
        let (a, b) = self.pop_two();
        if num_eq(&b, &num_from_i128(0)) {
            StepResult { action: Action::Fault(RuntimeError::DivisionByZero), heartbeat: false }
        } else {
            self.push_value(num_div(&a, &b));
            let hb = self.next_ip();
            StepResult { action: Action::Continue, heartbeat: hb }
        }
    }

    fn exec_bitwise(&mut self, is_xor: bool) -> (res: StepResult)
        requires
            vm_wf(old(self)@),
            old(self)@.ip < usize::MAX,
            old(self)@.stack.len() >= 2,
        ensures
            vm_wf(final(self)@),
            (final(self)@, res.action@, res.heartbeat) == vm_step(
                old(self)@,
                if is_xor {
                    OpView::Xor
                } else {
                    OpView::Or
                },
            ),
    {
        let (a, b) = self.pop_two();
        if is_xor {
            self.push_value(num_xor(&a, &b));
        } else {
            self.push_value(num_or(&a, &b));
        }
        let hb = self.next_ip();
        StepResult { action: Action::Continue, heartbeat: hb }
    }

    fn exec_jump_if_false(&mut self, target: usize) -> (res: StepResult)
        requires
            vm_wf(old(self)@),
            old(self)@.ip < usize::MAX,
        ensures
            vm_wf(final(self)@),
            (final(self)@, res.action@, res.heartbeat) == vm_step(
                old(self)@,
                OpView::JumpIfFalse(target as int),
            ),
    {
        match self.pop_value() {
            Some(v) => {
                if num_eq(&v, &num_from_i128(0)) {
                    self.ip = target;
                    StepResult { action: Action::Continue, heartbeat: false }
                } else {
                    let hb = self.next_ip();
                    StepResult { action: Action::Continue, heartbeat: hb }
                }
            },
            None => {
                let hb = self.next_ip();
                StepResult { action: Action::Continue, heartbeat: hb }
            },
        }
    }

    fn exec_put(&mut self) -> (res: StepResult)
        requires
            vm_wf(old(self)@),
            old(self)@.ip < usize::MAX,
        ensures
            vm_wf(final(self)@),
            (final(self)@, res.action@, res.heartbeat) == vm_step(old(self)@, OpView::Put),
    {
        if self.in_safety_frame {
            StepResult { action: Action::Fault(RuntimeError::SafetyViolation), heartbeat: false }
        } else {
            match self.pop_value() {
                Some(v) => {
                    let hb = self.next_ip();
                    StepResult { action: Action::Print(v), heartbeat: hb }
                },
                None => {
                    let hb = self.next_ip();
                    StepResult { action: Action::Continue, heartbeat: hb }
                },
            }
        }
    }

    fn exec_enter_try(&mut self) -> (res: StepResult)
        requires
            vm_wf(old(self)@),
            old(self)@.ip < usize::MAX,
        ensures
            vm_wf(final(self)@),
            (final(self)@, res.action@, res.heartbeat) == vm_step(old(self)@, OpView::EnterTry),
    {
        let ghost s0 = self@;
        let name = make_frame_name(self.frames.len());
        self.frames.push(SafetyFrame { name, allocations: 0 });
        self.in_safety_frame = true;
        proof {
            assert(self.frames@.map_values(|f: SafetyFrame| f.name@) =~= s0.frames.push(
                frame_name(s0.frames.len()),
            ));
        }
        let hb = self.next_ip();
        StepResult { action: Action::FrameEntered, heartbeat: hb }
    }

    fn exec_exit_try(&mut self) -> (res: StepResult)
        requires
            vm_wf(old(self)@),
            old(self)@.ip < usize::MAX,
        ensures
            vm_wf(final(self)@),
            (final(self)@, res.action@, res.heartbeat) == vm_step(old(self)@, OpView::ExitTry),
    {
        let ghost s0 = self@;
        match self.frames.pop() {
            Some(_) => {
                proof {
                    assert(self.frames@.map_values(|f: SafetyFrame| f.name@) =~= s0.frames.drop_last());
                }
                if self.frames.len() == 0 {
                    self.in_safety_frame = false;
                }
                let hb = self.next_ip();
                StepResult { action: Action::FrameExited, heartbeat: hb }
            },
            None => {
                let hb = self.next_ip();
                StepResult { action: Action::Continue, heartbeat: hb }
            },
        }
    }

    fn exec_other(&mut self) -> (res: StepResult)
        requires
            vm_wf(old(self)@),
            old(self)@.ip < usize::MAX,
        ensures
            vm_wf(final(self)@),
            final(self)@ == advance(old(self)@),
            res.action@ == ActionView::Continue,
            res.heartbeat == (old(self)@.ip % 100 == 0),
    {
        let hb = self.next_ip();
        StepResult { action: Action::Continue, heartbeat: hb }
    }

    /// Executes the instruction at the instruction pointer.
    pub fn step(&mut self, bytecode: &Vec<OpCode>) -> (res: StepResult)
        requires
            vm_wf(old(self)@),
            old(self)@.ip < bytecode@.len(),
            !would_panic(old(self)@, bytecode@[old(self)@.ip]@),
        ensures
            vm_wf(final(self)@),
            (final(self)@, res.action@, res.heartbeat) == vm_step(
                old(self)@,
                bytecode@[old(self)@.ip]@,
            ),
    {
        let len = bytecode.len();
        assert(self@.ip < usize::MAX);
        match &bytecode[self.ip] {
            OpCode::PushInt(text) => self.exec_push_int(text),
            OpCode::Store(name) => self.exec_store(name),
            OpCode::Load(name) => self.exec_load(name),
            OpCode::Addr(name) => self.exec_addr(name),
            OpCode::Deref => self.exec_deref(),
            OpCode::StoreDeref => self.exec_store_deref(),
            OpCode::Add => {
                let (a, b) = self.pop_two();
                self.finish_arith(num_add(&a, &b))
            },
            OpCode::Sub => {
                let (a, b) = self.pop_two();
                self.finish_arith(num_sub(&a, &b))
            },
            OpCode::Mul => {
                let (a, b) = self.pop_two();
                self.finish_arith(num_mul(&a, &b))
            },
            OpCode::Div => self.exec_div(),
            OpCode::Xor => self.exec_bitwise(true),
            OpCode::Or => self.exec_bitwise(false),
            OpCode::Jump(target) => {
                self.ip = *target;
                StepResult { action: Action::Continue, heartbeat: false }
            },
            OpCode::JumpIfFalse(target) => self.exec_jump_if_false(*target),
            OpCode::Put => self.exec_put(),
            OpCode::EnterTry => self.exec_enter_try(),
            OpCode::ExitTry => self.exec_exit_try(),
            OpCode::ArenaEnd => {
                self.clear_heap();
                let hb = self.next_ip();
                StepResult { action: Action::ArenaCleared, heartbeat: hb }
            },
            OpCode::Halt => StepResult { action: Action::Halted, heartbeat: false },
            _ => self.exec_other(),
        }
    }
}

} // verus!

verus! {

/// Law: every instruction keeps the machine well formed: the memory pool
/// keeps its `HEAP_SLOTS` slots, and a `try` block is open exactly when a
/// frame is.
pub proof fn law_step_keeps_wf(s: VmView, op: OpCode)
    requires
        vm_wf(s),
        s.ip < usize::MAX,
    ensures
        vm_wf(vm_step(s, op@).0),
{
}

/// Law: output inside a `try` block is refused, and the machine is left as it was.
pub proof fn law_put_refused_in_try(s: VmView)
    requires
        vm_wf(s),
        s.frames.len() > 0,
    ensures
        vm_step(s, OpView::Put).1 == ActionView::Fault(FaultView::SafetyViolation),
        vm_step(s, OpView::Put).0 == s,
{
}

/// Law: a read or write through an address outside the memory pool,
/// negative or too large, faults, and the pool is not written.
pub proof fn law_out_of_bounds_faults(s: VmView)
    requires
        vm_wf(s),
        s.stack.len() >= 2,
        !in_pool(s.stack.last()),
    ensures
        vm_step(s, OpView::Deref).1 == ActionView::Fault(FaultView::SegmentationFaultRead),
        vm_step(s, OpView::Deref).0.heap == s.heap,
        vm_step(s, OpView::StoreDeref).1 == ActionView::Fault(FaultView::SegmentationFaultWrite),
        vm_step(s, OpView::StoreDeref).0.heap == s.heap,
{
}

/// Law: reading an address gives back what was last written there.
pub proof fn law_write_then_read(s: VmView, value: int, addr: int)
    requires
        vm_wf(s),
        0 <= addr < HEAP_SLOTS,
        s.stack.len() >= 2,
        s.stack[s.stack.len() - 2] == value,
        s.stack.last() == addr,
    ensures
        ({
            let (s1, a1, _) = vm_step(s, OpView::StoreDeref);
            let s2 = with_stack(s1, s1.stack.push(addr));
            let (s3, a3, _) = vm_step(s2, OpView::Deref);
            &&& a1 == ActionView::Continue
            &&& a3 == ActionView::Continue
            &&& s3.stack == s.stack.subrange(0, s.stack.len() - 2).push(value)
        }),
{
    let (s1, a1, _) = vm_step(s, OpView::StoreDeref);
    let s2 = with_stack(s1, s1.stack.push(addr));
    assert(s2.stack.drop_last() =~= s.stack.subrange(0, s.stack.len() - 2));
}

/// Law: storing a value in a variable and loading that variable leaves the
/// stack as it was and the variable bound to the value.
pub proof fn law_store_then_load(s: VmView, name: Seq<char>)
    requires
        vm_wf(s),
        s.stack.len() >= 1,
    ensures
        ({
            let (s1, _, _) = vm_step(s, OpView::Store(name));
            let (s2, a2, _) = vm_step(s1, OpView::Load(name));
            &&& a2 == ActionView::Continue
            &&& s2.stack == s.stack
            &&& s2.vars == s.vars.insert(name, s.stack.last())
        }),
{
    let (s1, _, _) = vm_step(s, OpView::Store(name));
    assert(s1.stack.push(s.stack.last()) =~= s.stack);
}

/// Law: leaving a `try` block undoes entering it: the frames and the `try`
/// flag are as before.
pub proof fn law_try_roundtrip(s: VmView)
    requires
        vm_wf(s),
    ensures
        ({
            let (s1, a1, _) = vm_step(s, OpView::EnterTry);
            let (s2, a2, _) = vm_step(s1, OpView::ExitTry);
            &&& a1 == ActionView::FrameEntered
            &&& a2 == ActionView::FrameExited
            &&& s2.frames == s.frames
            &&& s2.in_frame == s.in_frame
            &&& s2.ip == s.ip + 2
        }),
{
    let (s1, _, _) = vm_step(s, OpView::EnterTry);
    assert(s1.frames.drop_last() =~= s.frames);
}

/// Law: the results of `+`, `-` and `*` that the machine keeps lie within
/// the range of `i128`; any other result is a fault.
pub proof fn law_arith_in_range(s: VmView, op: OpView)
    requires
        vm_wf(s),
        s.stack.len() >= 2,
        op is Add || op is Sub || op is Mul,
    ensures
        ({
            let (s1, a, _) = vm_step(s, op);
            a == ActionView::Continue ==> i128::MIN <= s1.stack.last() <= i128::MAX
                && s1.stack.len() == s.stack.len() - 1
        }),
        vm_step(s, op).1 == ActionView::Continue || vm_step(s, op).1 == ActionView::Fault(
            FaultView::ArithmeticOverflow,
        ),
{
}

} // verus!

verus! {

/// Law: the code of every `try` block opens a safety frame and the arena
/// before its body and, after its body, clears the arena and then closes the
/// frame; the clearing instruction sets every slot of the memory pool to 0
/// and asks for the native arena to be cleared.
pub proof fn law_try_block_clears_arena(body: Seq<StmtView>, base: int, s: VmView)
    ensures
        ({
            let c = code_stmt(StmtView::Try(body), base);
            &&& c.len() >= 4
            &&& c[0] == OpView::EnterTry
            &&& c[1] == OpView::ArenaStart
            &&& c[c.len() - 2] == OpView::ArenaEnd
            &&& c[c.len() - 1] == OpView::ExitTry
        }),
        vm_step(s, OpView::ArenaEnd).1 == ActionView::ArenaCleared,
        vm_step(s, OpView::ArenaEnd).0.heap == cleared_heap(),
{
    let inner = code_stmts(body, base + 2);
    let c = code_stmt(StmtView::Try(body), base);
    assert(c == seq![OpView::EnterTry, OpView::ArenaStart] + inner + seq![
        OpView::ArenaEnd,
        OpView::ExitTry,
    ]);
    assert(c[c.len() - 2] == OpView::ArenaEnd);
}

/// Law: memory written inside a `try` block is gone once the block exits:
/// after the block's closing `ArenaEnd` and `ExitTry`, reading any slot of
/// the memory pool gives 0, whatever was stored there.
pub proof fn law_try_exit_clears_memory(s: VmView, addr: int)
    requires
        vm_wf(s),
        in_pool(addr),
    ensures
        ({
            let (s1, _, _) = vm_step(s, OpView::ArenaEnd);
            let (s2, _, _) = vm_step(s1, OpView::ExitTry);
            let (s3, a3, _) = vm_step(with_stack(s2, s2.stack.push(addr)), OpView::Deref);
            &&& a3 == ActionView::Continue
            &&& s3.stack == s.stack.push(0)
        }),
{
    let (s1, _, _) = vm_step(s, OpView::ArenaEnd);
    let (s2, _, _) = vm_step(s1, OpView::ExitTry);
    assert(s2.heap == cleared_heap());
    assert(with_stack(s2, s2.stack.push(addr)).stack.drop_last() =~= s.stack);
}

/// The machine state after the instructions `ops`, taken one after another.
pub open spec fn run_ops(s: VmView, ops: Seq<OpView>) -> VmView
    decreases ops.len(),
{
    if ops.len() == 0 {
        s
    } else {
        run_ops(vm_step(s, ops[0]).0, ops.drop_first())
    }
}

/// Instructions that may change the memory pool.
pub open spec fn writes_memory(op: OpView) -> bool {
    op is StoreDeref || op is ArenaEnd
}

/// Law: only `StoreDeref` and `ArenaEnd` change the memory pool; every other
/// instruction, whatever it does, leaves it as it was.
pub proof fn law_memory_changes_only_by_writes(s: VmView, ops: Seq<OpView>)
    requires
        forall|i: int| 0 <= i < ops.len() ==> !writes_memory(#[trigger] ops[i]),
    ensures
        run_ops(s, ops).heap == s.heap,
    decreases ops.len(),
{
    if ops.len() > 0 {
        let rest = ops.drop_first();
        assert forall|i: int| 0 <= i < rest.len() implies !writes_memory(#[trigger] rest[i]) by {
            assert(rest[i] == ops[i + 1]);
        }
        assert(!writes_memory(ops[0]));
        law_memory_changes_only_by_writes(vm_step(s, ops[0]).0, rest);
    }
}

/// Whether running `ops` from `s` leaves slot `addr` alone: no `ArenaEnd`
/// runs, and every `StoreDeref` that runs pops an address other than `addr`.
pub open spec fn keeps_slot(s: VmView, ops: Seq<OpView>, addr: int) -> bool
    decreases ops.len(),
{
    if ops.len() == 0 {
        true
    } else {
        &&& !(ops[0] is ArenaEnd)
        &&& (ops[0] is StoreDeref ==> s.stack.last() != addr)
        &&& keeps_slot(vm_step(s, ops[0]).0, ops.drop_first(), addr)
    }
}

/// Law: a slot keeps its value through instructions that neither clear the
/// arena nor store to that slot, whatever else they do, stores to other
/// slots included.
pub proof fn law_slot_kept(s: VmView, ops: Seq<OpView>, addr: int)
    requires
        s.heap.len() == HEAP_SLOTS,
        in_pool(addr),
        keeps_slot(s, ops, addr),
    ensures
        run_ops(s, ops).heap.len() == HEAP_SLOTS,
        run_ops(s, ops).heap[addr] == s.heap[addr],
    decreases ops.len(),
{
    if ops.len() > 0 {
        let s1 = vm_step(s, ops[0]).0;
        if ops[0] is StoreDeref {
            let n = s.stack.len();
            let a = s.stack[n - 1];
            if in_pool(a) {
                assert(s1.heap == s.heap.update(a, s.stack[n - 2]));
                assert(a != addr);
            } else {
                assert(s1.heap == s.heap);
            }
        }
        assert(s1.heap.len() == s.heap.len() && s1.heap[addr] == s.heap[addr]);
        law_slot_kept(s1, ops.drop_first(), addr);
    }
}

/// Law: reading an address gives back the value the last store to it wrote,
/// whatever instructions ran in between, as long as none of them stored to
/// that address or cleared the arena.
pub proof fn law_read_returns_last_write(s: VmView, value: int, addr: int, ops: Seq<OpView>)
    requires
        vm_wf(s),
        in_pool(addr),
        s.stack.len() >= 2,
        s.stack[s.stack.len() - 2] == value,
        s.stack.last() == addr,
        keeps_slot(vm_step(s, OpView::StoreDeref).0, ops, addr),
    ensures
        ({
            let (s1, a1, _) = vm_step(s, OpView::StoreDeref);
            let s2 = run_ops(s1, ops);
            let (s3, a3, _) = vm_step(with_stack(s2, s2.stack.push(addr)), OpView::Deref);
            &&& a1 == ActionView::Continue
            &&& a3 == ActionView::Continue
            &&& s3.stack.last() == value
        }),
{
    let (s1, _, _) = vm_step(s, OpView::StoreDeref);
    law_slot_kept(s1, ops, addr);
    let s2 = run_ops(s1, ops);
    assert(s2.heap[addr] == value);
    assert(with_stack(s2, s2.stack.push(addr)).stack.last() == addr);
}

} // verus!

verus! {

/// Law: the arithmetic instructions take their operands from a stack
/// `[..., a, b]` (`b` on top) and leave `[..., a + b]`, `[..., a - b]`,
/// `[..., a * b]`, or `[..., a / b]` rounded toward zero, when the result
/// lies in the range of `i128` (and, for `/`, `b` is not 0); otherwise they
/// fault.
pub proof fn law_arith_results(s: VmView)
    requires
        vm_wf(s),
        s.stack.len() >= 2,
    ensures
        ({
            let n = s.stack.len() as int;
            let a = s.stack[n - 2];
            let b = s.stack[n - 1];
            let rest = s.stack.subrange(0, n - 2);
            &&& !overflows(a + b) ==> vm_step(s, OpView::Add).1 == ActionView::Continue
                && vm_step(s, OpView::Add).0.stack == rest.push(a + b)
            &&& overflows(a + b) ==> vm_step(s, OpView::Add).1 == ActionView::Fault(
                FaultView::ArithmeticOverflow,
            )
            &&& !overflows(a - b) ==> vm_step(s, OpView::Sub).1 == ActionView::Continue
                && vm_step(s, OpView::Sub).0.stack == rest.push(a - b)
            &&& overflows(a - b) ==> vm_step(s, OpView::Sub).1 == ActionView::Fault(
                FaultView::ArithmeticOverflow,
            )
            &&& !overflows(a * b) ==> vm_step(s, OpView::Mul).1 == ActionView::Continue
                && vm_step(s, OpView::Mul).0.stack == rest.push(a * b)
            &&& overflows(a * b) ==> vm_step(s, OpView::Mul).1 == ActionView::Fault(
                FaultView::ArithmeticOverflow,
            )
            &&& b != 0 ==> vm_step(s, OpView::Div).1 == ActionView::Continue
                && vm_step(s, OpView::Div).0.stack == rest.push(trunc_div(a, b))
            &&& b == 0 ==> vm_step(s, OpView::Div).1 == ActionView::Fault(
                FaultView::DivisionByZero,
            )
        }),
{
}

/// Running straight-line code: the state after `ops`, or `None` when one of
/// them faults or halts.
pub open spec fn run_straight(s: VmView, ops: Seq<OpView>) -> Option<VmView>
    decreases ops.len(),
{
    if ops.len() == 0 {
        Some(s)
    } else {
        let (s1, a, _) = vm_step(s, ops[0]);
        if a is Fault || a is Halted {
            None
        } else {
            run_straight(s1, ops.drop_first())
        }
    }
}

/// Running two pieces of code one after the other is running the first,
/// then the second from where the first left off.
pub proof fn lemma_run_straight_concat(s: VmView, a: Seq<OpView>, b: Seq<OpView>)
    ensures
        run_straight(s, a + b) == match run_straight(s, a) {
            Some(s1) => run_straight(s1, b),
            None => None,
        },
    decreases a.len(),
{
    if a.len() > 0 {
        let (s1, act, _) = vm_step(s, a[0]);
        assert((a + b)[0] == a[0]);
        assert((a + b).drop_first() =~= a.drop_first() + b);
        if !(act is Fault || act is Halted) {
            lemma_run_straight_concat(s1, a.drop_first(), b);
        }
    } else {
        assert(a + b =~= b);
    }
}

/// Law: the compiled code of `l op r`, for `op` one of `+`, `-`, `*`,
/// computes `a op b` from the value `a` that `l`'s code leaves and the value
/// `b` that `r`'s code leaves after it, when the result is in the range of
/// `i128`; the value of `l - r` is `a - b`.
pub proof fn law_binary_expression_value(
    l: ExprView,
    op: Seq<char>,
    r: ExprView,
    s: VmView,
    s1: VmView,
    s2: VmView,
    a: int,
    b: int,
)
    requires
        vm_wf(s2),
        run_straight(s, code_expr(l)) == Some(s1),
        s1.stack == s.stack.push(a),
        run_straight(s1, code_expr(r)) == Some(s2),
        s2.stack == s1.stack.push(b),
        op == seq!['+'] || op == seq!['-'] || op == seq!['*'],
    ensures
        ({
            let v = if op == seq!['+'] {
                a + b
            } else if op == seq!['-'] {
                a - b
            } else {
                a * b
            };
            !overflows(v) ==> (run_straight(s, code_expr(ExprView::BinaryOp(Box::new(l), op, Box::new(r))))
                matches Some(s3) && s3.stack == s.stack.push(v))
        }),
{
    lemma_run_straight_concat(s, code_expr(l), code_expr(r));
    lemma_run_straight_concat(s, code_expr(l) + code_expr(r), binop_code(op));
    let n = s2.stack.len() as int;
    assert(s2.stack[n - 2] == a);
    assert(s2.stack[n - 1] == b);
    assert(s2.stack.subrange(0, n - 2) =~= s.stack);
    let c = binop_code(op);
    assert(c.len() == 1);
    assert(c.drop_first() =~= Seq::<OpView>::empty());
    law_arith_results(s2);
    let (s3, _, _) = vm_step(s2, c[0]);
    assert(run_straight(s3, Seq::<OpView>::empty()) == Some(s3));
}

/// Law: the compiled code of an assignment `name = e` binds `name` to the
/// value that `e`'s code leaves, and leaves the stack as it was.
pub proof fn law_assignment_binds(
    name: Seq<char>,
    e: ExprView,
    base: int,
    s: VmView,
    s1: VmView,
    v: int,
)
    requires
        run_straight(s, code_expr(e)) == Some(s1),
        s1.stack == s.stack.push(v),
    ensures
        run_straight(s, code_stmt(StmtView::Assignment(name, e), base)) matches Some(s2)
            && s2.stack == s.stack && s2.vars == s1.vars.insert(name, v),
{
    lemma_run_straight_concat(s, code_expr(e), seq![OpView::Store(name)]);
    assert(s1.stack.drop_last() =~= s.stack);
    assert(s1.stack.last() == v);
    let (s2, _, _) = vm_step(s1, OpView::Store(name));
    assert(seq![OpView::Store(name)].drop_first() =~= Seq::<OpView>::empty());
    assert(run_straight(s2, Seq::<OpView>::empty()) == Some(s2));
    assert(run_straight(s1, seq![OpView::Store(name)]) == Some(s2));
}

/// Law: the compiled code of a declaration `v name = e` binds `name` to the
/// value that `e`'s code leaves, and leaves the stack as it was.
pub proof fn law_declaration_binds(
    name: Seq<char>,
    ty: Option<Seq<char>>,
    e: ExprView,
    base: int,
    s: VmView,
    s1: VmView,
    v: int,
)
    requires
        run_straight(s, code_expr(e)) == Some(s1),
        s1.stack == s.stack.push(v),
    ensures
        run_straight(s, code_stmt(StmtView::VarDecl(name, ty, e), base)) matches Some(s2)
            && s2.stack == s.stack && s2.vars == s1.vars.insert(name, v),
{
    lemma_run_straight_concat(s, code_expr(e), seq![OpView::Store(name)]);
    assert(s1.stack.drop_last() =~= s.stack);
    assert(s1.stack.last() == v);
    let (s2, _, _) = vm_step(s1, OpView::Store(name));
    assert(seq![OpView::Store(name)].drop_first() =~= Seq::<OpView>::empty());
    assert(run_straight(s2, Seq::<OpView>::empty()) == Some(s2));
    assert(run_straight(s1, seq![OpView::Store(name)]) == Some(s2));
}

} // verus!

verus! {

/// Law: the stack instructions do what their names say: `PushInt` pushes the
/// number its text spells (0 when it spells none), `Put` prints and pops the
/// top of the stack outside `try` blocks, `Xor` and `Or` combine the two top
/// values bit by bit, and `JumpIfFalse` pops the top and jumps when it is 0,
/// going on to the next instruction otherwise.
pub proof fn law_stack_instructions(s: VmView, text: Seq<char>, target: int)
    requires
        vm_wf(s),
    ensures
        vm_step(s, OpView::PushInt(text)).0.stack == s.stack.push(
            match parse_decimal(text) {
                Some(x) => x,
                None => 0,
            },
        ),
        s.stack.len() >= 1 && !s.in_frame ==> vm_step(s, OpView::Put).1 == ActionView::Print(
            s.stack.last(),
        ) && vm_step(s, OpView::Put).0.stack == s.stack.drop_last(),
        s.stack.len() >= 2 ==> vm_step(s, OpView::Xor).0.stack == s.stack.subrange(
            0,
            s.stack.len() - 2,
        ).push(bit_xor(s.stack[s.stack.len() - 2], s.stack.last())),
        s.stack.len() >= 2 ==> vm_step(s, OpView::Or).0.stack == s.stack.subrange(
            0,
            s.stack.len() - 2,
        ).push(bit_or(s.stack[s.stack.len() - 2], s.stack.last())),
        s.stack.len() >= 1 && s.stack.last() == 0 ==> vm_step(s, OpView::JumpIfFalse(target)).0.ip
            == target,
        s.stack.len() >= 1 && s.stack.last() != 0 ==> vm_step(s, OpView::JumpIfFalse(target)).0.ip
            == s.ip + 1,
        s.stack.len() >= 1 ==> vm_step(s, OpView::JumpIfFalse(target)).0.stack
            == s.stack.drop_last(),
{
}

} // verus!

verus! {

/// Law: the compiled code of `*a = e` stores the value that `e`'s code
/// leaves at the address that `a`'s code leaves after it, when that address
/// is in the memory pool, and leaves the stack as it was.
pub proof fn law_deref_assignment_stores(
    a: ExprView,
    e: ExprView,
    base: int,
    s: VmView,
    s1: VmView,
    s2: VmView,
    v: int,
    addr: int,
)
    requires
        run_straight(s, code_expr(e)) == Some(s1),
        s1.stack == s.stack.push(v),
        run_straight(s1, code_expr(a)) == Some(s2),
        s2.stack == s1.stack.push(addr),
        vm_wf(s2),
        in_pool(addr),
    ensures
        run_straight(s, code_stmt(StmtView::DerefAssignment(a, e), base)) matches Some(s3)
            && s3.stack == s.stack && s3.heap == s2.heap.update(addr, v),
{
    lemma_run_straight_concat(s, code_expr(e), code_expr(a));
    lemma_run_straight_concat(s, code_expr(e) + code_expr(a), seq![OpView::StoreDeref]);
    let n = s2.stack.len() as int;
    assert(s2.stack[n - 1] == addr);
    assert(s2.stack[n - 2] == v);
    assert(s2.stack.subrange(0, n - 2) =~= s.stack);
    let (s3, _, _) = vm_step(s2, OpView::StoreDeref);
    assert(seq![OpView::StoreDeref].drop_first() =~= Seq::<OpView>::empty());
    assert(run_straight(s3, Seq::<OpView>::empty()) == Some(s3));
}

/// Law: the compiled code of `put e` prints the value that `e`'s code
/// leaves, outside `try` blocks, and leaves the stack as it was.
pub proof fn law_put_prints(e: ExprView, base: int, s: VmView, s1: VmView, v: int)
    requires
        run_straight(s, code_expr(e)) == Some(s1),
        s1.stack == s.stack.push(v),
        !s1.in_frame,
    ensures
        ({
            let c = code_stmt(StmtView::Put(e), base);
            &&& c == code_expr(e) + seq![c.last()]
            &&& vm_step(s1, c.last()).1 == ActionView::Print(v)
            &&& run_straight(s, c) matches Some(s2) && s2.stack == s.stack
        }),
{
    let c = code_stmt(StmtView::Put(e), base);
    assert(c == code_expr(e) + seq![OpView::Put]);
    assert(c.last() == OpView::Put);
    lemma_run_straight_concat(s, code_expr(e), seq![OpView::Put]);
    assert(s1.stack.drop_last() =~= s.stack);
    let (s2, _, _) = vm_step(s1, OpView::Put);
    assert(seq![OpView::Put].drop_first() =~= Seq::<OpView>::empty());
    assert(run_straight(s2, Seq::<OpView>::empty()) == Some(s2));
}

} // verus!

verus! {

/// The value of an expression over the variables and the memory pool:
/// numbers, variables, addresses (the length of the name in bytes), reads
/// through addresses in the pool, casts (which keep the value) and the
/// operators `+ - * / ^ |`; `None` where evaluation faults (an unbound
/// variable, an address outside the pool, a result outside `i128`, a zero
/// divisor) or where an expression leaves no single value (strings, calls,
/// other operators).
pub open spec fn expr_value(e: ExprView, vars: Map<Seq<char>, int>, heap: Seq<int>) -> Option<int>
    decreases e,
{
    match e {
        ExprView::Number(text) => Some(
            match parse_decimal(text) {
                Some(x) => x,
                None => 0,
            },
        ),
        ExprView::Variable(v) => if vars.contains_key(v) {
            Some(vars[v])
        } else {
            None
        },
        ExprView::Addr(v) => Some((vstd::utf8::encode_utf8(v).len() as usize) as i64 as int),
        ExprView::Deref(inner) => match expr_value(*inner, vars, heap) {
            Some(a) => if in_pool(a) {
                Some(heap[a])
            } else {
                None
            },
            None => None,
        },
        ExprView::Cast(inner, _) => expr_value(*inner, vars, heap),
        ExprView::BinaryOp(l, op, r) => match (expr_value(*l, vars, heap), expr_value(*r, vars, heap)) {
            (Some(a), Some(b)) => if op == seq!['+'] {
                if overflows(a + b) {
                    None
                } else {
                    Some(a + b)
                }
            } else if op == seq!['-'] {
                if overflows(a - b) {
                    None
                } else {
                    Some(a - b)
                }
            } else if op == seq!['*'] {
                if overflows(a * b) {
                    None
                } else {
                    Some(a * b)
                }
            } else if op == seq!['/'] {
                if b == 0 {
                    None
                } else {
                    Some(trunc_div(a, b))
                }
            } else if op == seq!['^'] {
                Some(bit_xor(a, b))
            } else if op == seq!['|'] {
                Some(bit_or(a, b))
            } else {
                None
            },
            _ => None,
        },
        _ => None,
    }
}

/// Law: the compiled code of an expression with a value pushes exactly that
/// value and changes neither the variables, the memory pool nor the `try`
/// frames.
pub proof fn law_expression_code_computes(e: ExprView, s: VmView)
    requires
        s.heap.len() == HEAP_SLOTS,
        expr_value(e, s.vars, s.heap) is Some,
    ensures
        run_straight(s, code_expr(e)) matches Some(s1) && s1.stack == s.stack.push(
            expr_value(e, s.vars, s.heap)->0,
        ) && s1.vars == s.vars && s1.heap == s.heap && s1.frames == s.frames && s1.in_frame
            == s.in_frame,
    decreases e,
{
    let v = expr_value(e, s.vars, s.heap)->0;
    match e {
        ExprView::Deref(inner) => {
            law_expression_code_computes(*inner, s);
            let s1 = run_straight(s, code_expr(*inner))->0;
            lemma_run_straight_concat(s, code_expr(*inner), seq![OpView::Deref]);
            assert(s1.stack.drop_last() =~= s.stack);
            let (s2, _, _) = vm_step(s1, OpView::Deref);
            assert(seq![OpView::Deref].drop_first() =~= Seq::<OpView>::empty());
            assert(run_straight(s2, Seq::<OpView>::empty()) == Some(s2));
        },
        ExprView::Cast(inner, _) => {
            law_expression_code_computes(*inner, s);
        },
        ExprView::BinaryOp(l, op, r) => {
            let a = expr_value(*l, s.vars, s.heap)->0;
            let b = expr_value(*r, s.vars, s.heap)->0;
            law_expression_code_computes(*l, s);
            let s1 = run_straight(s, code_expr(*l))->0;
            law_expression_code_computes(*r, s1);
            let s2 = run_straight(s1, code_expr(*r))->0;
            lemma_run_straight_concat(s, code_expr(*l), code_expr(*r));
            lemma_run_straight_concat(s, code_expr(*l) + code_expr(*r), binop_code(op));
            let c = binop_code(op);
            assert(c.len() == 1);
            assert(c.drop_first() =~= Seq::<OpView>::empty());
            let n = s2.stack.len() as int;
            assert(s2.stack[n - 2] == a);
            assert(s2.stack[n - 1] == b);
            assert(s2.stack.subrange(0, n - 2) =~= s.stack);
            let (s3, _, _) = vm_step(s2, c[0]);
            assert(run_straight(s3, Seq::<OpView>::empty()) == Some(s3));
        },
        _ => {
            let c = code_expr(e);
            assert(c.len() == 1);
            assert(c.drop_first() =~= Seq::<OpView>::empty());
            let (s1, _, _) = vm_step(s, c[0]);
            assert(run_straight(s1, Seq::<OpView>::empty()) == Some(s1));
        },
    }
}

} // verus!

verus! {

/// Law: running the compiled code of `name = e`, or of `v name = e`, binds
/// `name` to the value of `e` and leaves the stack and the memory pool as
/// they were; running that of `put e` prints the value of `e` outside `try`
/// blocks.
pub proof fn law_statement_code_values(
    name: Seq<char>,
    ty: Option<Seq<char>>,
    e: ExprView,
    base: int,
    s: VmView,
)
    requires
        s.heap.len() == HEAP_SLOTS,
        expr_value(e, s.vars, s.heap) is Some,
    ensures
        ({
            let v = expr_value(e, s.vars, s.heap)->0;
            &&& run_straight(s, code_stmt(StmtView::Assignment(name, e), base)) matches Some(s2)
                && s2.stack == s.stack && s2.vars == s.vars.insert(name, v) && s2.heap == s.heap
            &&& run_straight(s, code_stmt(StmtView::VarDecl(name, ty, e), base)) matches Some(s2)
                && s2.stack == s.stack && s2.vars == s.vars.insert(name, v) && s2.heap == s.heap
            &&& !s.in_frame ==> vm_step(
                run_straight(s, code_expr(e))->0,
                code_stmt(StmtView::Put(e), base).last(),
            ).1 == ActionView::Print(v)
        }),
{
    let v = expr_value(e, s.vars, s.heap)->0;
    law_expression_code_computes(e, s);
    let s1 = run_straight(s, code_expr(e))->0;
    law_assignment_binds(name, e, base, s, s1, v);
    law_declaration_binds(name, ty, e, base, s, s1, v);
    if !s.in_frame {
        law_put_prints(e, base, s, s1, v);
    }
    lemma_run_straight_concat(s, code_expr(e), seq![OpView::Store(name)]);
    let (s2, _, _) = vm_step(s1, OpView::Store(name));
    assert(seq![OpView::Store(name)].drop_first() =~= Seq::<OpView>::empty());
    assert(run_straight(s2, Seq::<OpView>::empty()) == Some(s2));
}

} // verus!
