//! Reading a script as a sequence of data pushes and opcodes.
use crate::bytes::{le_value, read_le};
use crate::error::ScriptError;
use crate::opcode::{OP_PUSHBYTES_75, OP_PUSHDATA1, OP_PUSHDATA2, OP_PUSHDATA4};
use crate::script::Script;
use vstd::prelude::*;
use vstd::slice::{slice_subrange, slice_to_vec};

verus! {

/// One decoded script element.
#[derive(Debug, Clone, PartialEq, Eq)]
pub enum Instruction {
    /// Pushed data.
    PushBytes(Vec<u8>),
    /// Any opcode that is not a data push.
    Op(u8),
}

/// The mathematical value of an instruction.
pub enum InstructionView {
    PushBytes(Seq<u8>),
    Op(u8),
}

impl View for Instruction {
    type V = InstructionView;

    open spec fn view(&self) -> InstructionView {
        match self {
            Instruction::PushBytes(b) => InstructionView::PushBytes(b@),
            Instruction::Op(op) => InstructionView::Op(*op),
        }
    }
}

impl Instruction {
    /// The opcode if the instruction is not a data push.
    pub fn opcode(&self) -> (r: Option<u8>)
        ensures
            r == match self@ {
                InstructionView::Op(op) => Some(op),
                InstructionView::PushBytes(_) => None::<u8>,
            },
    {
        match self {
            Instruction::Op(op) => Some(*op),
            Instruction::PushBytes(_) => None,
        }
    }

    /// The pushed bytes if the instruction is a data push.
    pub fn push_bytes(&self) -> (r: Option<&[u8]>)
        ensures
            match self@ {
                InstructionView::PushBytes(b) => r matches Some(s) && s@ == b,
                InstructionView::Op(_) => r is None,
            },
    {
        match self {
            Instruction::Op(_) => None,
            Instruction::PushBytes(bytes) => Some(bytes.as_slice()),
        }
    }
}

/// Whether `b` is a value that a small-integer opcode pushes (1 to 16, or
/// -1 written as `0x81`).
pub open spec fn pushable_as_small_int(b: u8) -> bool {
    b == 0x81 || (1 <= b <= 16)
}

/// The number of length bytes after a `PUSHDATA` opcode, and the shortest
/// length that needs it.
pub open spec fn push_data_width(op: u8) -> (nat, nat) {
    if op == OP_PUSHDATA1 {
        (1, 76)
    } else if op == OP_PUSHDATA2 {
        (2, 0x100)
    } else {
        (4, 0x10000)
    }
}

pub open spec fn result_view(r: Result<Instruction, ScriptError>) -> Result<
    InstructionView,
    ScriptError,
> {
    match r {
        Ok(i) => Ok(i@),
        Err(e) => Err(e),
    }
}

/// One step of reading `rest`: the next instruction or error, and what is
/// left to read. After an error nothing is left.
pub open spec fn step(rest: Seq<u8>, enforce_minimal: bool) -> Option<
    (Result<InstructionView, ScriptError>, Seq<u8>),
> {
    if rest.len() == 0 {
        None
    } else {
        let op = rest[0];
        let tail = rest.drop_first();
        if op <= OP_PUSHBYTES_75 {
            let n = op as int;
            if enforce_minimal && n == 1 && tail.len() > 0 && pushable_as_small_int(tail[0]) {
                Some((Err(ScriptError::NonMinimalPush), seq![]))
            } else if tail.len() < n {
                Some((Err(ScriptError::EarlyEndOfScript), seq![]))
            } else {
                Some(
                    (
                        Ok(InstructionView::PushBytes(tail.subrange(0, n))),
                        tail.subrange(n, tail.len() as int),
                    ),
                )
            }
        } else if op == OP_PUSHDATA1 || op == OP_PUSHDATA2 || op == OP_PUSHDATA4 {
            let (w, min) = push_data_width(op);
            if tail.len() < w {
                Some((Err(ScriptError::EarlyEndOfScript), seq![]))
            } else {
                let n = le_value(tail.subrange(0, w as int));
                let body = tail.subrange(w as int, tail.len() as int);
                if enforce_minimal && n < min {
                    Some((Err(ScriptError::NonMinimalPush), seq![]))
                } else if body.len() < n {
                    Some((Err(ScriptError::EarlyEndOfScript), seq![]))
                } else {
                    Some(
                        (
                            Ok(InstructionView::PushBytes(body.subrange(0, n as int))),
                            body.subrange(n as int, body.len() as int),
                        ),
                    )
                }
            }
        } else {
            Some((Ok(InstructionView::Op(op)), tail))
        }
    }
}

/// After an error nothing is left to read, so the reader yields nothing
/// more; and every instruction consumes at least one byte, so reading ends.
pub proof fn lemma_step_after_error(rest: Seq<u8>, enforce_minimal: bool)
    requires
        rest.len() > 0,
    ensures
        step(rest, enforce_minimal) is Some,
        step(rest, enforce_minimal)->Some_0.1.len() < rest.len(),
        step(rest, enforce_minimal)->Some_0.0 is Err ==> step(
            step(rest, enforce_minimal)->Some_0.1,
            enforce_minimal,
        ) is None,
{
}

/// A reader over a script's bytes. Each call of `next` yields one
/// instruction; after an error it yields nothing more.
#[derive(Debug)]
pub struct Instructions {
    data: Vec<u8>,
    pos: usize,
    enforce_minimal: bool,
}

impl Instructions {
    #[verifier::type_invariant]
    spec fn inv(&self) -> bool {
        self.pos <= self.data@.len()
    }

    /// The bytes not read yet.
    pub closed spec fn remaining(&self) -> Seq<u8> {
        self.data@.subrange(self.pos as int, self.data@.len() as int)
    }

    /// Whether non-minimal pushes are refused.
    pub closed spec fn minimal(&self) -> bool {
        self.enforce_minimal
    }

    /// A reader over `value` that accepts non-minimal pushes.
    pub fn from(value: &[u8]) -> (r: Instructions)
        ensures
            r.remaining() == value@,
            !r.minimal(),
    {
        Instructions::new(value, false)
    }

    /// A reader over `value`; with `enforce_minimal` it refuses data pushed
    /// in a longer form than needed.
    pub fn new(value: &[u8], enforce_minimal: bool) -> (r: Instructions)
        ensures
            r.remaining() == value@,
            r.minimal() == enforce_minimal,
    {
        let data = slice_to_vec(value);
        proof {
            assert(data@.subrange(0, data@.len() as int) =~= value@);
        }
        Instructions { data, pos: 0, enforce_minimal }
    }

    /// The bytes not read yet, as a script.
    pub fn as_script(&self) -> (r: Script)
        ensures
            r@ == self.remaining(),
    {
        proof {
            use_type_invariant(self);
        }
        Script::from_bytes(slice_subrange(self.data.as_slice(), self.pos, self.data.len()))
    }

    /// Ends the reading: nothing is left.
    fn kill(&mut self)
        ensures
            final(self).remaining() == Seq::<u8>::empty(),
            final(self).minimal() == old(self).minimal(),
    {
        self.pos = self.data.len();
        proof {
            assert(self.data@.subrange(self.pos as int, self.data@.len() as int) =~= seq![]);
        }
    }

    /// Takes the next `len` bytes, or ends the reading with
    /// `EarlyEndOfScript` where fewer are left.
    fn take_slice_or_kill(&mut self, len: usize) -> (r: Result<Vec<u8>, ScriptError>)
        ensures
            final(self).minimal() == old(self).minimal(),
            len <= old(self).remaining().len() ==> (r matches Ok(v) && v@ == old(
                self,
            ).remaining().subrange(0, len as int) && final(self).remaining() == old(
                self,
            ).remaining().subrange(len as int, old(self).remaining().len() as int)),
            len > old(self).remaining().len() ==> (r matches Err(e) && e
                == ScriptError::EarlyEndOfScript && final(self).remaining() == Seq::<u8>::empty()),
    {
        proof {
            use_type_invariant(&*self);
        }
        if self.data.len() - self.pos >= len {
            let end = self.pos + len;
            let v = slice_to_vec(slice_subrange(self.data.as_slice(), self.pos, end));
            proof {
                let d = self.data@;
                assert(v@ =~= d.subrange(self.pos as int, d.len() as int).subrange(0, len as int));
                assert(d.subrange(end as int, d.len() as int) =~= d.subrange(
                    self.pos as int,
                    d.len() as int,
                ).subrange(len as int, d.len() - self.pos));
            }
            self.pos = end;
            Ok(v)
        } else {
            self.kill();
            Err(ScriptError::EarlyEndOfScript)
        }
    }

    /// Reads the length after a `PUSHDATA` opcode (`width` bytes) and the
    /// data it announces.
    fn next_push_data_len(&mut self, width: usize, min_push_len: u64) -> (r: Result<
        Instruction,
        ScriptError,
    >)
        requires
            width == 1 || width == 2 || width == 4,
        ensures
            final(self).minimal() == old(self).minimal(),
            ({
                let rest = old(self).remaining();
                if rest.len() < width {
                    result_view(r) == Err::<InstructionView, _>(ScriptError::EarlyEndOfScript)
                        && final(self).remaining() == Seq::<u8>::empty()
                } else {
                    let n = le_value(rest.subrange(0, width as int));
                    let body = rest.subrange(width as int, rest.len() as int);
                    if old(self).minimal() && n < min_push_len {
                        result_view(r) == Err::<InstructionView, _>(ScriptError::NonMinimalPush)
                            && final(self).remaining() == Seq::<u8>::empty()
                    } else if body.len() < n {
                        result_view(r) == Err::<InstructionView, _>(
                            ScriptError::EarlyEndOfScript,
                        ) && final(self).remaining() == Seq::<u8>::empty()
                    } else {
                        result_view(r) == Ok::<_, ScriptError>(
                            InstructionView::PushBytes(body.subrange(0, n as int)),
                        ) && final(self).remaining() == body.subrange(n as int, body.len() as int)
                    }
                }
            }),
    {
        proof {
            use_type_invariant(&*self);
        }
        let n = match read_uint_iter(self.data.as_slice(), self.pos, width) {
            Ok(n) => n,
            Err(_) => {
                self.kill();
                return Err(ScriptError::EarlyEndOfScript);
            },
        };
        proof {
            let d = self.data@;
            assert(d.subrange(self.pos as int, self.pos + width) =~= d.subrange(
                self.pos as int,
                d.len() as int,
            ).subrange(0, width as int));
        }
        if self.enforce_minimal && n < min_push_len {
            self.kill();
            return Err(ScriptError::NonMinimalPush);
        }
        let ghost before = self.remaining();
        self.pos = self.pos + width;
        proof {
            let d = self.data@;
            assert(self.remaining() =~= before.subrange(width as int, before.len() as int));
        }
        if n > (self.data.len() - self.pos) as u64 {
            self.kill();
            return Err(ScriptError::EarlyEndOfScript);
        }
        match self.take_slice_or_kill(n as usize) {
            Ok(v) => Ok(Instruction::PushBytes(v)),
            Err(e) => Err(e),
        }
    }

    /// Reads the next instruction. Returns `None` once nothing is left; an
    /// error ends the reading, so the call after it returns `None`.
    pub fn next(&mut self) -> (r: Option<Result<Instruction, ScriptError>>)
        ensures
            final(self).minimal() == old(self).minimal(),
            r is None ==> final(self).remaining() == old(self).remaining(),
            step(old(self).remaining(), old(self).minimal()) == match r {
                None => None,
                Some(x) => Some((result_view(x), final(self).remaining())),
            },
    {
        proof {
            use_type_invariant(&*self);
        }
        if self.pos >= self.data.len() {
            return None;
        }
        let ghost rest = self.remaining();
        let byte = self.data[self.pos];
        self.pos = self.pos + 1;
        proof {
            assert(self.remaining() =~= rest.drop_first());
        }
        if byte <= OP_PUSHBYTES_75 {
            let n = byte as usize;
            if self.enforce_minimal && n == 1 && self.pos < self.data.len() {
                let next_byte = self.data[self.pos];
                if next_byte == 0x81 || (next_byte > 0 && next_byte <= 16) {
                    self.kill();
                    return Some(Err(ScriptError::NonMinimalPush));
                }
            }
            match self.take_slice_or_kill(n) {
                Ok(v) => Some(Ok(Instruction::PushBytes(v))),
                Err(e) => Some(Err(e)),
            }
        } else if byte == OP_PUSHDATA1 {
            Some(self.next_push_data_len(1, 76))
        } else if byte == OP_PUSHDATA2 {
            Some(self.next_push_data_len(2, 0x100))
        } else if byte == OP_PUSHDATA4 {
            Some(self.next_push_data_len(4, 0x10000))
        } else {
            Some(Ok(Instruction::Op(byte)))
        }
    }

    /// Bounds on the number of instructions left: none once nothing is
    /// left, else at least one and at most one per byte.
    pub fn size_hint(&self) -> (r: (usize, Option<usize>))
        ensures
            self.remaining().len() == 0 ==> r == (0usize, Some(0usize)),
            self.remaining().len() > 0 ==> r == (1usize, Some(self.remaining().len() as usize)),
    {
        proof {
            use_type_invariant(self);
        }
        let left = self.data.len() - self.pos;
        if left == 0 {
            (0, Some(0))
        } else {
            (1, Some(left))
        }
    }
}

/// Reads `size` bytes at `pos` as a little-endian integer, or
/// `EarlyEndOfScript` where fewer are left.
fn read_uint_iter(data: &[u8], pos: usize, size: usize) -> (r: Result<u64, ScriptError>)
    requires
        pos <= data@.len(),
        size <= 8,
    ensures
        pos + size <= data.len() ==> (r matches Ok(v) && v == le_value(
            data@.subrange(pos as int, pos + size),
        )),
        pos + size > data.len() ==> r == Err::<u64, _>(ScriptError::EarlyEndOfScript),
{
    if data.len() - pos < size {
        Err(ScriptError::EarlyEndOfScript)
    } else {
        Ok(read_le(data, pos, size))
    }
}

} // verus!
