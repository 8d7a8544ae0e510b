//! The script machine: a bounded stack machine that evaluates authorization
//! byte-code against a context and answers success, failure or error.

use crate::crypto::error::CryptoErrorView;
use crate::crypto::signature::{verification, verify};
use crate::crypto::types::{KeyMaterial, PublicKey, Signature};
use crate::crypto::SecurityLevel;
use crate::encoding::{bytes_equal, copy_range, le_nat, read_le};
use crate::error::{BondError, BondErrorView, BondResult};
use crate::text::{hex_encode, hex_string};
use vstd::prelude::*;
use vstd::string::StringExecFns;

verus! {

/// How a script execution ended.
#[derive(Debug, Clone, PartialEq)]
pub enum ScriptResult {
    /// The script ran to its end and left exactly one true item.
    Success,
    /// The script ran but did not authorize.
    Failure,
    /// The script is malformed or exceeded a limit.
    Error(String),
}

/// The mathematical content of a [`ScriptResult`].
pub enum ScriptOutcome {
    Success,
    Failure,
    Error(Seq<char>),
}

impl View for ScriptResult {
    type V = ScriptOutcome;

    open spec fn view(&self) -> ScriptOutcome {
        match *self {
            ScriptResult::Success => ScriptOutcome::Success,
            ScriptResult::Failure => ScriptOutcome::Failure,
            ScriptResult::Error(text) => ScriptOutcome::Error(text@),
        }
    }
}

/// What a script can observe of the spend it authorizes.
#[derive(Debug, Clone)]
pub struct ScriptContext {
    /// Height of the chain at validation.
    pub block_height: u32,
    /// Timestamp at validation, in seconds.
    pub timestamp: u64,
    /// The message that signatures in the script sign.
    pub tx_hash: Vec<u8>,
    /// Index of the input being authorized.
    pub input_index: u32,
}

/// The mathematical content of a [`ScriptContext`].
pub struct ContextView {
    pub block_height: u32,
    pub timestamp: u64,
    pub tx_hash: Seq<u8>,
    pub input_index: u32,
}

impl View for ScriptContext {
    type V = ContextView;

    open spec fn view(&self) -> ContextView {
        ContextView {
            block_height: self.block_height,
            timestamp: self.timestamp,
            tx_hash: self.tx_hash@,
            input_index: self.input_index,
        }
    }
}

/// The resource limits of an interpreter.
pub struct Limits {
    pub max_ops: nat,
    pub max_stack: nat,
}

/// The state of the machine between two opcodes.
pub struct Machine {
    /// The items, the top one last.
    pub stack: Seq<Seq<u8>>,
    /// Index of the next byte of the script.
    pub pc: nat,
    /// Number of opcodes executed so far.
    pub ops: nat,
}

/// What one opcode does.
pub enum Effect {
    /// Execution goes on with this stack at this program counter.
    Continue { stack: Seq<Seq<u8>>, pc: nat },
    /// Execution ends: the spend is not authorized.
    Failure,
    /// Execution ends with an error.
    Error(Seq<char>),
}

/// What one step of the machine does.
pub enum Step {
    Next(Machine),
    Done(ScriptOutcome),
}

/// A byte string is true when it holds a byte that is not zero.
pub open spec fn truthy(data: Seq<u8>) -> bool {
    exists|i: int| 0 <= i < data.len() && data[i] != 0
}

/// The item that stands for a boolean.
pub open spec fn bool_item(b: bool) -> Seq<u8> {
    if b {
        seq![1u8]
    } else {
        seq![0u8]
    }
}

/// Pushing `item`, which the depth limit may refuse.
pub open spec fn pushed(stack: Seq<Seq<u8>>, item: Seq<u8>, pc: nat, max_stack: nat) -> Effect {
    if stack.len() >= max_stack {
        Effect::Error("Stack overflow"@)
    } else {
        Effect::Continue { stack: stack.push(item), pc }
    }
}

/// Whether `signature` is a signature of the chain's security level on
/// `message` that verifies under `public_key`. Byte strings of other
/// lengths than that level fixes are no signature and no key; a push
/// opcode carries at most 75 bytes, so no item that a script pushes is
/// one.
pub open spec fn checksig(signature: Seq<u8>, message: Seq<u8>, public_key: Seq<u8>) -> bool {
    &&& signature.len() == SecurityLevel::Level3.signature_size()
    &&& public_key.len() == SecurityLevel::Level3.public_key_size()
    &&& verification(
        KeyMaterial { bytes: signature, level: SecurityLevel::Level3 },
        message,
        KeyMaterial { bytes: public_key, level: SecurityLevel::Level3 },
    ) == Ok::<bool, CryptoErrorView>(true)
}

/// The effect of `opcode` on `stack`, where `pc` is the index of the byte
/// that follows the opcode in `script`.
pub open spec fn opcode_effect(
    opcode: u8,
    stack: Seq<Seq<u8>>,
    pc: nat,
    script: Seq<u8>,
    context: ContextView,
    max_stack: nat,
) -> Effect {
    let depth = stack.len() as int;
    if 0x01 <= opcode <= 0x4b {
        if pc + opcode > script.len() {
            Effect::Error("Script truncated"@)
        } else {
            pushed(stack, script.subrange(pc as int, pc + opcode), pc + opcode as nat, max_stack)
        }
    } else if opcode == 0x00 {
        pushed(stack, Seq::empty(), pc, max_stack)
    } else if opcode == 0x51 {
        pushed(stack, seq![1u8], pc, max_stack)
    } else if opcode == 0x76 {
        if depth == 0 {
            Effect::Error("Cannot duplicate empty stack"@)
        } else {
            pushed(stack, stack[depth - 1], pc, max_stack)
        }
    } else if opcode == 0x87 {
        if depth < 2 {
            Effect::Error("Not enough items for OP_EQUAL"@)
        } else {
            pushed(
                stack.subrange(0, depth - 2),
                bool_item(stack[depth - 1] == stack[depth - 2]),
                pc,
                max_stack,
            )
        }
    } else if opcode == 0x69 {
        if depth == 0 {
            Effect::Error("Cannot verify empty stack"@)
        } else if truthy(stack[depth - 1]) {
            Effect::Continue { stack: stack.subrange(0, depth - 1), pc }
        } else {
            Effect::Failure
        }
    } else if opcode == 0xac {
        if depth < 2 {
            Effect::Error("Not enough items for OP_CHECKSIG"@)
        } else {
            pushed(
                stack.subrange(0, depth - 2),
                bool_item(checksig(stack[depth - 2], context.tx_hash, stack[depth - 1])),
                pc,
                max_stack,
            )
        }
    } else if opcode == 0xf0 {
        if depth == 0 {
            Effect::Error("Cannot check block height on empty stack"@)
        } else if stack[depth - 1].len() != 4 {
            Effect::Error("Invalid block height format"@)
        } else {
            pushed(
                stack.subrange(0, depth - 1),
                bool_item(context.block_height as nat >= le_nat(stack[depth - 1])),
                pc,
                max_stack,
            )
        }
    } else {
        Effect::Error("Unknown opcode: 0x"@ + hex_string(seq![opcode]))
    }
}

/// The verdict once the program counter has reached the end of the script.
pub open spec fn final_outcome(stack: Seq<Seq<u8>>) -> ScriptOutcome {
    if stack.len() == 1 {
        if truthy(stack[0]) {
            ScriptOutcome::Success
        } else {
            ScriptOutcome::Failure
        }
    } else {
        ScriptOutcome::Error("Stack must have exactly one item at end"@)
    }
}

/// One step of the machine: the verdict at the end of the script, an error
/// once the operation limit is used up, and else the effect of the opcode
/// under the program counter.
pub open spec fn step(script: Seq<u8>, context: ContextView, limits: Limits, m: Machine) -> Step {
    if m.pc >= script.len() {
        Step::Done(final_outcome(m.stack))
    } else if m.ops >= limits.max_ops {
        Step::Done(ScriptOutcome::Error("Operation limit exceeded"@))
    } else {
        match opcode_effect(
            script[m.pc as int],
            m.stack,
            m.pc + 1,
            script,
            context,
            limits.max_stack,
        ) {
            Effect::Continue { stack, pc } => Step::Next(Machine { stack, pc, ops: m.ops + 1 }),
            Effect::Failure => Step::Done(ScriptOutcome::Failure),
            Effect::Error(text) => Step::Done(ScriptOutcome::Error(text)),
        }
    }
}

/// The machine before the first opcode.
pub open spec fn start() -> Machine {
    Machine { stack: Seq::empty(), pc: 0, ops: 0 }
}

/// The verdict of the execution that goes on from `m`.
pub open spec fn run(script: Seq<u8>, context: ContextView, limits: Limits, m: Machine)
    -> ScriptOutcome
    decreases script.len() - m.pc,
{
    match step(script, context, limits, m) {
        Step::Done(outcome) => outcome,
        Step::Next(next) => run(script, context, limits, next),
    }
}

/// The machine after `k` opcodes of the execution from the start, if the
/// execution gets that far.
pub open spec fn state_after(script: Seq<u8>, context: ContextView, limits: Limits, k: nat)
    -> Option<Machine>
    decreases k,
{
    if k == 0 {
        Some(start())
    } else {
        match state_after(script, context, limits, (k - 1) as nat) {
            Some(m) => match step(script, context, limits, m) {
                Step::Next(next) => Some(next),
                Step::Done(_) => None,
            },
            None => None,
        }
    }
}

/// Every state that an execution passes through respects the limits: it has
/// executed no more opcodes than the operation limit nor than the script has
/// bytes, and its stack is no deeper than the depth limit.
pub proof fn lemma_execution_within_limits(
    script: Seq<u8>,
    context: ContextView,
    limits: Limits,
    k: nat,
)
    ensures
        match state_after(script, context, limits, k) {
            Some(m) => {
                &&& m.ops == k
                &&& k <= limits.max_ops
                &&& k <= m.pc <= script.len()
                &&& m.stack.len() <= limits.max_stack
            },
            None => true,
        },
    decreases k,
{
    if k > 0 {
        lemma_execution_within_limits(script, context, limits, (k - 1) as nat);
    }
}

/// The stack of a running script: byte strings, the top one last, with the
/// depth limit that `push` enforces.
#[derive(Debug)]
pub struct Stack {
    items: Vec<Vec<u8>>,
    max_size: usize,
}

impl View for Stack {
    type V = Seq<Seq<u8>>;

    closed spec fn view(&self) -> Seq<Seq<u8>> {
        self.items@.map_values(|item: Vec<u8>| item@)
    }
}

impl Stack {
    /// The depth limit.
    pub closed spec fn limit(&self) -> nat {
        self.max_size as nat
    }

    /// An empty stack that holds at most `max_size` items.
    pub fn new(max_size: usize) -> (r: Self)
        ensures
            r@ == Seq::<Seq<u8>>::empty(),
            r.limit() == max_size,
    {
        let r = Stack { items: Vec::new(), max_size };
        assert(r@ =~= Seq::<Seq<u8>>::empty());
        r
    }

    /// Puts `item` on top, unless the stack is full.
    pub fn push(&mut self, item: Vec<u8>) -> (r: BondResult<()>)
        ensures
            final(self).limit() == old(self).limit(),
            match r {
                Ok(_) => {
                    &&& old(self)@.len() < old(self).limit()
                    &&& final(self)@ == old(self)@.push(item@)
                },
                Err(e) => {
                    &&& old(self)@.len() >= old(self).limit()
                    &&& final(self)@ == old(self)@
                    &&& e@ == (BondErrorView::ScriptExecutionFailed { reason: "Stack overflow"@ })
                },
            },
    {
        if self.items.len() >= self.max_size {
            return Err(
                BondError::ScriptExecutionFailed { reason: String::from_str("Stack overflow") },
            );
        }
        self.items.push(item);
        assert(self@ =~= old(self)@.push(item@));
        Ok(())
    }

    /// Takes the top item off, if there is one.
    pub fn pop(&mut self) -> (r: Option<Vec<u8>>)
        ensures
            final(self).limit() == old(self).limit(),
            match r {
                Some(item) => {
                    &&& old(self)@.len() > 0
                    &&& item@ == old(self)@.last()
                    &&& final(self)@ == old(self)@.drop_last()
                },
                None => old(self)@.len() == 0 && final(self)@ == old(self)@,
            },
    {
        let r = self.items.pop();
        proof {
            if r is Some {
                assert(self@ =~= old(self)@.drop_last());
            }
        }
        r
    }

    /// The top item, if there is one.
    pub fn top(&self) -> (r: Option<&Vec<u8>>)
        ensures
            match r {
                Some(item) => self@.len() > 0 && item@ == self@.last(),
                None => self@.len() == 0,
            },
    {
        let depth = self.items.len();
        if depth == 0 {
            None
        } else {
            Some(&self.items[depth - 1])
        }
    }

    /// The number of items.
    pub fn size(&self) -> (r: usize)
        ensures
            r == self@.len(),
    {
        self.items.len()
    }
}

/// The interpreter: the machine's two resource limits.
#[derive(Debug)]
pub struct ScriptInterpreter {
    max_ops: usize,
    max_stack_size: usize,
}

impl View for ScriptInterpreter {
    type V = Limits;

    closed spec fn view(&self) -> Limits {
        Limits { max_ops: self.max_ops as nat, max_stack: self.max_stack_size as nat }
    }
}

fn error_result(text: &str) -> (r: BondResult<ScriptResult>)
    ensures
        r is Ok,
        r.unwrap()@ == ScriptOutcome::Error(text@),
{
    Ok(ScriptResult::Error(String::from_str(text)))
}

fn bool_vec(b: bool) -> (r: Vec<u8>)
    ensures
        r@ == bool_item(b),
{
    let mut out: Vec<u8> = Vec::new();
    if b {
        out.push(1u8);
    } else {
        out.push(0u8);
    }
    assert(out@ =~= bool_item(b));
    out
}

fn push_item(stack: &mut Stack, item: Vec<u8>, pc: usize) -> (r: BondResult<ScriptResult>)
    ensures
        final(stack).limit() == old(stack).limit(),
        r is Ok,
        match pushed(old(stack)@, item@, pc as nat, old(stack).limit()) {
            Effect::Continue { stack: after, pc: _ } => {
                &&& r.unwrap()@ == ScriptOutcome::Success
                &&& final(stack)@ == after
            },
            Effect::Failure => false,
            Effect::Error(text) => r.unwrap()@ == ScriptOutcome::Error(text),
        },
{
    match stack.push(item) {
        Ok(_) => Ok(ScriptResult::Success),
        Err(_) => error_result("Stack overflow"),
    }
}

fn check_signature(signature: Vec<u8>, message: &[u8], public_key: Vec<u8>) -> (r: bool)
    ensures
        r == checksig(signature@, message@, public_key@),
{
    let signature = match Signature::from_bytes(signature, SecurityLevel::Level3) {
        Ok(signature) => signature,
        Err(_) => {
            return false;
        },
    };
    let public_key = match PublicKey::from_bytes(public_key, SecurityLevel::Level3) {
        Ok(public_key) => public_key,
        Err(_) => {
            return false;
        },
    };
    match verify(&signature, message, &public_key) {
        Ok(verdict) => verdict,
        Err(_) => false,
    }
}

impl ScriptInterpreter {
    /// An interpreter with the default limits: 1000 operations, 100 items.
    pub fn new() -> (r: Self)
        ensures
            r@ == (Limits { max_ops: 1000, max_stack: 100 }),
    {
        ScriptInterpreter { max_ops: 1000, max_stack_size: 100 }
    }

    /// An interpreter with the given limits.
    pub fn with_limits(max_ops: usize, max_stack_size: usize) -> (r: Self)
        ensures
            r@ == (Limits { max_ops: max_ops as nat, max_stack: max_stack_size as nat }),
    {
        ScriptInterpreter { max_ops, max_stack_size }
    }

    /// Runs `script` from its first byte on an empty stack.
    pub fn execute(&self, script: &[u8], context: &ScriptContext) -> (r: BondResult<ScriptResult>)
        ensures
            r is Ok,
            r.unwrap()@ == run(script@, context@, self@, start()),
    {
        let mut stack = Stack::new(self.max_stack_size);
        let mut pc: usize = 0;
        let mut op_count: usize = 0;
        while pc < script.len()
            invariant
                pc <= script@.len(),
                op_count <= pc,
                stack.limit() == self@.max_stack,
                run(
                    script@,
                    context@,
                    self@,
                    Machine { stack: stack@, pc: pc as nat, ops: op_count as nat },
                ) == run(script@, context@, self@, start()),
            decreases script@.len() - pc,
        {
            if op_count >= self.max_ops {
                return error_result("Operation limit exceeded");
            }
            op_count += 1;
            let opcode = script[pc];
            pc += 1;
            match self.execute_opcode(opcode, &mut stack, &mut pc, script, context) {
                Ok(ScriptResult::Success) => {},
                Ok(ScriptResult::Failure) => {
                    return Ok(ScriptResult::Failure);
                },
                Ok(ScriptResult::Error(text)) => {
                    return Ok(ScriptResult::Error(text));
                },
                Err(e) => {
                    return Err(e);
                },
            }
        }
        if stack.size() == 1 {
            match stack.top() {
                Some(top) => {
                    if self.is_true(top.as_slice()) {
                        Ok(ScriptResult::Success)
                    } else {
                        Ok(ScriptResult::Failure)
                    }
                },
                None => error_result("Stack must have exactly one item at end"),
            }
        } else {
            error_result("Stack must have exactly one item at end")
        }
    }

    /// Executes `opcode`, which was read at `pc - 1`: on `Success` the stack
    /// and the program counter are those after the opcode.
    pub fn execute_opcode(
        &self,
        opcode: u8,
        stack: &mut Stack,
        pc: &mut usize,
        script: &[u8],
        context: &ScriptContext,
    ) -> (r: BondResult<ScriptResult>)
        requires
            *old(pc) <= script@.len(),
        ensures
            final(stack).limit() == old(stack).limit(),
            *final(pc) <= script@.len(),
            r is Ok,
            match opcode_effect(
                opcode,
                old(stack)@,
                *old(pc) as nat,
                script@,
                context@,
                old(stack).limit(),
            ) {
                Effect::Continue { stack: after, pc: next } => {
                    &&& r.unwrap()@ == ScriptOutcome::Success
                    &&& final(stack)@ == after
                    &&& *final(pc) == next
                },
                Effect::Failure => r.unwrap()@ == ScriptOutcome::Failure,
                Effect::Error(text) => r.unwrap()@ == ScriptOutcome::Error(text),
            },
    {
        let ghost before = stack@;
        if 0x01 <= opcode && opcode <= 0x4b {
            let size = opcode as usize;
            if size > script.len() - *pc {
                return error_result("Script truncated");
            }
            let data = copy_range(script, *pc, *pc + size);
            let result = push_item(stack, data, *pc + size);
            match result {
                Ok(ScriptResult::Success) => {
                    *pc = *pc + size;
                },
                _ => {},
            }
            result
        } else if opcode == 0x00 {
            push_item(stack, Vec::new(), *pc)
        } else if opcode == 0x51 {
            push_item(stack, bool_vec(true), *pc)
        } else if opcode == 0x76 {
            let dup = match stack.top() {
                Some(top) => top.clone(),
                None => {
                    return error_result("Cannot duplicate empty stack");
                },
            };
            push_item(stack, dup, *pc)
        } else if opcode == 0x87 {
            if stack.size() < 2 {
                return error_result("Not enough items for OP_EQUAL");
            }
            let a = stack.pop();
            let b = stack.pop();
            match (a, b) {
                (Some(a), Some(b)) => {
                    assert(stack@ =~= before.subrange(0, before.len() - 2));
                    let equal = bytes_equal(a.as_slice(), b.as_slice());
                    push_item(stack, bool_vec(equal), *pc)
                },
                _ => error_result("Not enough items for OP_EQUAL"),
            }
        } else if opcode == 0x69 {
            let holds = match stack.top() {
                Some(top) => self.is_true(top.as_slice()),
                None => {
                    return error_result("Cannot verify empty stack");
                },
            };
            if holds {
                let _ = stack.pop();
                assert(stack@ =~= before.subrange(0, before.len() - 1));
                Ok(ScriptResult::Success)
            } else {
                Ok(ScriptResult::Failure)
            }
        } else if opcode == 0xac {
            if stack.size() < 2 {
                return error_result("Not enough items for OP_CHECKSIG");
            }
            let public_key = stack.pop();
            let signature = stack.pop();
            match (public_key, signature) {
                (Some(public_key), Some(signature)) => {
                    assert(stack@ =~= before.subrange(0, before.len() - 2));
                    let valid = check_signature(signature, context.tx_hash.as_slice(), public_key);
                    push_item(stack, bool_vec(valid), *pc)
                },
                _ => error_result("Not enough items for OP_CHECKSIG"),
            }
        } else if opcode == 0xf0 {
            match stack.pop() {
                Some(operand) => {
                    if operand.len() != 4 {
                        return error_result("Invalid block height format");
                    }
                    assert(stack@ =~= before.subrange(0, before.len() - 1));
                    let required = read_le(operand.as_slice(), 0, 4);
                    assert(operand@.subrange(0, 4) =~= operand@);
                    push_item(stack, bool_vec(context.block_height as u64 >= required), *pc)
                },
                None => error_result("Cannot check block height on empty stack"),
            }
        } else {
            let mut text = String::from_str("Unknown opcode: 0x");
            let mut one: Vec<u8> = Vec::new();
            one.push(opcode);
            assert(one@ =~= seq![opcode]);
            text.append(hex_encode(one.as_slice()).as_str());
            Ok(ScriptResult::Error(text))
        }
    }

    /// Whether a byte string is true: it holds a byte that is not zero.
    pub fn is_true(&self, data: &[u8]) -> (r: bool)
        ensures
            r == truthy(data@),
    {
        let mut i: usize = 0;
        while i < data.len()
            invariant
                i <= data@.len(),
                forall|j: int| 0 <= j < i ==> data@[j] == 0,
            decreases data@.len() - i,
        {
            if data[i] != 0 {
                return true;
            }
            i += 1;
        }
        false
    }
}

impl Default for ScriptInterpreter {
    fn default() -> (r: Self)
        ensures
            r@ == (Limits { max_ops: 1000, max_stack: 100 }),
    {
        ScriptInterpreter::new()
    }
}

impl ScriptContext {
    /// A context with the given fields.
    pub fn new(block_height: u32, timestamp: u64, tx_hash: Vec<u8>, input_index: u32) -> (r: Self)
        ensures
            r@ == (ContextView { block_height, timestamp, tx_hash: tx_hash@, input_index }),
    {
        ScriptContext { block_height, timestamp, tx_hash, input_index }
    }
}

} // verus!
