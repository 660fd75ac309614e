use vstd::prelude::*;

use crate::structs::{AstNode, BFError, BFErrorCode, Tape, grown, left_of, wrap_dec, wrap_inc};
use crate::text::push_char;

verus! {

/// What the host does after a step of the machine.
#[derive(Debug, Clone, Copy, PartialEq, Eq, Structural)]
pub enum Action {
    /// Nothing: step again.
    Continue,
    /// Write this byte to the output as one character, flush, and step again.
    Output(u8),
    /// Show the whole tape (`Tape::render`) on the diagnostic stream, and step
    /// again.
    Dump,
    /// Wait for one keystroke and hand it to `Machine::input`.
    AwaitInput,
    /// The program ran to its end.
    Finished,
}

/// The key of a keystroke, as far as input reads it.
#[derive(Debug, Clone, Copy, PartialEq, Eq, Structural)]
pub enum KeyCode {
    Char(char),
    Enter,
    Other,
}

/// One keyboard event: its key, whether it is a press (not a release or a
/// repeat), and whether Control is the one modifier held.
#[derive(Debug, Clone, Copy, PartialEq, Eq, Structural)]
pub struct KeyStroke {
    pub code: KeyCode,
    pub pressed: bool,
    pub control: bool,
}

/// The byte that a character gives when read into a cell: its low eight bits.
pub open spec fn char_byte(c: char) -> u8 {
    (c as u32 % 256) as u8
}

/// What a keystroke does to a waiting input: store a byte (`Some(Some(b))`),
/// interrupt the run (`None`), or nothing, so that the wait goes on
/// (`Some(None)`).
pub open spec fn key_effect(k: KeyStroke) -> Option<Option<u8>> {
    if !k.pressed {
        Some(None)
    } else {
        match k.code {
            KeyCode::Char(c) => if k.control && c == 'c' {
                None
            } else {
                Some(Some(char_byte(c)))
            },
            KeyCode::Enter => Some(Some(10u8)),
            KeyCode::Other => Some(None),
        }
    }
}

/// The body that the loop indices `path` lead to, from the root sequence.
pub open spec fn body_at(root: Seq<AstNode>, path: Seq<usize>) -> Option<Seq<AstNode>>
    decreases path.len(),
{
    if path.len() == 0 {
        Some(root)
    } else {
        match body_at(root, path.drop_last()) {
            Some(s) => if path.last() < s.len() {
                match s[path.last() as int] {
                    AstNode::LOP(b) => Some(b@),
                    _ => None,
                }
            } else {
                None
            },
            None => None,
        }
    }
}

/// A position in the tree: loop indices, then the index of the next node in
/// the innermost body (the body's length when its end is reached).
pub open spec fn valid_path(root: Seq<AstNode>, path: Seq<usize>) -> bool {
    &&& path.len() >= 1
    &&& body_at(root, path.drop_last()) matches Some(s)
    &&& path.last() <= s.len()
}

/// The node at a valid position, if the position is not at the end of its body.
pub open spec fn node_at(root: Seq<AstNode>, path: Seq<usize>) -> Option<AstNode> {
    match body_at(root, path.drop_last()) {
        Some(s) => if path.last() < s.len() {
            Some(s[path.last() as int])
        } else {
            None
        },
        None => None,
    }
}

/// The position after the node at `path`.
pub open spec fn advance(path: Seq<usize>) -> Seq<usize> {
    path.update(path.len() - 1, (path.last() + 1) as usize)
}

/// One step of evaluation from position `path` on the tape (`cells`, `head`):
/// the next position, cells and head, and what the step asks of the host, or
/// the signal that ends the run.
pub open spec fn next(root: Seq<AstNode>, path: Seq<usize>, cells: Seq<u8>, head: nat) -> (
    Seq<usize>,
    Seq<u8>,
    nat,
    Result<Action, BFErrorCode>,
) {
    let cur = cells[head as int];
    match node_at(root, path) {
        Some(AstNode::INC) => (
            advance(path),
            cells.update(head as int, wrap_inc(cur)),
            head,
            Ok(Action::Continue),
        ),
        Some(AstNode::DEC) => (
            advance(path),
            cells.update(head as int, wrap_dec(cur)),
            head,
            Ok(Action::Continue),
        ),
        Some(AstNode::MRT) => (advance(path), grown(cells, head), head + 1, Ok(Action::Continue)),
        Some(AstNode::MLT) => (advance(path), cells, left_of(head), Ok(Action::Continue)),
        Some(AstNode::OUT) => (advance(path), cells, head, Ok(Action::Output(cur))),
        Some(AstNode::DBG) => (advance(path), cells, head, Ok(Action::Dump)),
        Some(AstNode::INP) => (path, cells, head, Ok(Action::AwaitInput)),
        Some(AstNode::END) => (path, cells, head, Err(BFErrorCode::Exit)),
        Some(AstNode::LOP(_)) => if cur != 0 {
            (path.push(0usize), cells, head, Ok(Action::Continue))
        } else {
            (advance(path), cells, head, Ok(Action::Continue))
        },
        None => if path.len() == 1 {
            (path, cells, head, Ok(Action::Finished))
        } else if cur != 0 {
            (path.update(path.len() - 1, 0usize), cells, head, Ok(Action::Continue))
        } else {
            (advance(path.drop_last()), cells, head, Ok(Action::Continue))
        },
    }
}

proof fn lemma_body_at_prefix(root: Seq<AstNode>, path: Seq<usize>, k: int)
    requires
        body_at(root, path) is Some,
        0 <= k <= path.len(),
    ensures
        body_at(root, path.take(k)) is Some,
    decreases path.len(),
{
    if k < path.len() {
        assert(path.drop_last().take(k) =~= path.take(k));
        lemma_body_at_prefix(root, path.drop_last(), k);
    } else {
        assert(path.take(k) =~= path);
    }
}

/// The body that the first `k` indices of `path` lead to.
fn body_of<'a>(root: &'a Vec<AstNode>, path: &Vec<usize>, k: usize) -> (r: &'a Vec<AstNode>)
    requires
        k <= path.len(),
        body_at(root@, path@.take(k as int)) is Some,
    ensures
        body_at(root@, path@.take(k as int)) == Some(r@),
{
    let mut cur: &Vec<AstNode> = root;
    let mut i: usize = 0;
    proof {
        assert(path@.take(0) =~= Seq::<usize>::empty());
    }
    while i < k
        invariant
            i <= k <= path.len(),
            body_at(root@, path@.take(k as int)) is Some,
            body_at(root@, path@.take(i as int)) == Some(cur@),
        decreases k - i,
    {
        proof {
            lemma_body_at_prefix(root@, path@.take(k as int), i + 1);
            assert(path@.take(k as int).take(i + 1) =~= path@.take(i + 1));
            assert(path@.take(i + 1).drop_last() =~= path@.take(i as int));
        }
        let idx = path[i];
        if let AstNode::LOP(b) = &cur[idx] {
            cur = b;
        } else {
            assert(false);
        }
        i = i + 1;
    }
    cur
}

/// The digit character of a value below 10.
pub open spec fn digit(d: u8) -> char {
    (d + 48) as char
}

/// The decimal digits of a byte, without leading zeros.
pub open spec fn decimal(v: u8) -> Seq<char> {
    if v >= 100 {
        seq![digit(v / 100), digit((v / 10) % 10), digit(v % 10)]
    } else if v >= 10 {
        seq![digit(v / 10), digit(v % 10)]
    } else {
        seq![digit(v)]
    }
}

/// The message of a run that an end instruction stopped with `code`.
pub open spec fn exit_message(code: u8) -> Seq<char> {
    "Program exited with code "@ + decimal(code)
}

/// Appends the decimal digits of a byte.
fn push_decimal(s: &mut String, v: u8)
    ensures
        final(s)@ == old(s)@ + decimal(v),
{
    if v >= 100 {
        push_char(s, ((v / 100) + 48) as char);
    }
    if v >= 10 {
        push_char(s, ((v / 10) % 10 + 48) as char);
    }
    push_char(s, (v % 10 + 48) as char);
    assert(s@ =~= old(s)@ + decimal(v));
}

/// A run of a program: its tree and the position of the next step in it. The
/// tape is kept apart, so that the host can show it.
pub struct Machine {
    ast: Vec<AstNode>,
    path: Vec<usize>,
}

impl Machine {
    /// The tree being run.
    pub closed spec fn program(&self) -> Seq<AstNode> {
        self.ast@
    }

    /// The position in the tree, as in `next`.
    pub closed spec fn position(&self) -> Seq<usize> {
        self.path@
    }

    /// The position is a valid one in the tree.
    pub open spec fn wf(&self) -> bool {
        valid_path(self.program(), self.position())
    }

    /// A run of `ast` that stands at its first instruction.
    pub fn new(ast: Vec<AstNode>) -> (r: Self)
        ensures
            r.wf(),
            r.program() == ast@,
            r.position() == seq![0usize],
    {
        Machine { ast, path: vec![0] }
    }

    /// Whether the machine stands at an input instruction.
    pub open spec fn awaits_input(&self) -> bool {
        node_at(self.program(), self.position()) == Some(AstNode::INP)
    }

    /// Evaluates one instruction of the program, or ends one pass of a loop
    /// body, and says what the host has to do next. An end instruction stops
    /// the run with an `Exit` error and leaves the machine and the tape as they
    /// were: the cell under the head is the exit code.
    pub fn step(&mut self, tape: &mut Tape) -> (r: Result<Action, BFError>)
        requires
            old(self).wf(),
            old(tape).wf(),
        ensures
            final(self).wf(),
            final(self).program() == old(self).program(),
            final(tape).wf(),
            ({
                let (p, c, h, out) = next(
                    old(self).program(),
                    old(self).position(),
                    old(tape).cells(),
                    old(tape).head(),
                );
                &&& final(self).position() == p
                &&& final(tape).cells() == c
                &&& final(tape).head() == h
                &&& match r {
                    Ok(a) => out == Ok::<Action, BFErrorCode>(a),
                    Err(e) => out == Err::<Action, BFErrorCode>(e.code),
                }
                &&& r matches Err(e) ==> e.message@ == exit_message(old(tape).current())
            }),
    {
        let ghost p0 = self.path@;
        let ast = &self.ast;
        let n = self.path.len();
        let pos = self.path[n - 1];
        proof {
            assert(self.path@.take(n - 1) =~= self.path@.drop_last());
        }
        let body = body_of(ast, &self.path, n - 1);
        if pos < body.len() {
            proof {
                assert(advance(p0).drop_last() =~= p0.drop_last());
            }
            match &body[pos] {
                AstNode::INC => {
                    tape.add();
                    self.path.set(n - 1, pos + 1);
                    Ok(Action::Continue)
                },
                AstNode::DEC => {
                    tape.sub();
                    self.path.set(n - 1, pos + 1);
                    Ok(Action::Continue)
                },
                AstNode::MRT => {
                    tape.mrt();
                    self.path.set(n - 1, pos + 1);
                    Ok(Action::Continue)
                },
                AstNode::MLT => {
                    tape.mlt();
                    self.path.set(n - 1, pos + 1);
                    Ok(Action::Continue)
                },
                AstNode::OUT => {
                    let v = tape.get();
                    self.path.set(n - 1, pos + 1);
                    Ok(Action::Output(v))
                },
                AstNode::DBG => {
                    self.path.set(n - 1, pos + 1);
                    Ok(Action::Dump)
                },
                AstNode::INP => Ok(Action::AwaitInput),
                AstNode::END => {
                    let mut message = String::from_str("Program exited with code ");
                    push_decimal(&mut message, tape.get());
                    Err(BFError::new(BFErrorCode::Exit, message))
                },
                AstNode::LOP(_) => {
                    if tape.get() != 0 {
                        proof {
                            assert(p0.push(0usize).drop_last() =~= p0);
                        }
                        self.path.push(0);
                    } else {
                        self.path.set(n - 1, pos + 1);
                    }
                    Ok(Action::Continue)
                },
            }
        } else if n == 1 {
            Ok(Action::Finished)
        } else if tape.get() != 0 {
            proof {
                assert(p0.update(n - 1, 0usize).drop_last() =~= p0.drop_last());
            }
            self.path.set(n - 1, 0);
            Ok(Action::Continue)
        } else {
            let outer = self.path[n - 2];
            proof {
                assert(p0.take(n - 2) =~= p0.drop_last().drop_last());
                assert(p0.take(n - 1) =~= p0.drop_last());
                lemma_body_at_prefix(ast@, p0.drop_last(), n - 2);
                assert(p0.drop_last().take(n - 2) =~= p0.take(n - 2));
            }
            let parent = body_of(ast, &self.path, n - 2);
            let parent_len = parent.len();
            assert(outer < parent_len);
            self.path.pop();
            self.path.set(n - 2, outer + 1);
            proof {
                assert(self.path@ =~= advance(p0.drop_last()));
                assert(advance(p0.drop_last()).drop_last() =~= p0.drop_last().drop_last());
            }
            Ok(Action::Continue)
        }
    }

    /// Hands a keystroke to the input instruction the machine waits at. A
    /// character or Enter is stored in the cell under the head and the machine
    /// moves on; Ctrl-C stops the run with `KeyboardInterrupt`; any other key
    /// changes nothing, and the machine still waits. Away from an input
    /// instruction a keystroke changes nothing.
    pub fn input(&mut self, tape: &mut Tape, key: KeyStroke) -> (r: Result<(), BFError>)
        requires
            old(self).wf(),
            old(tape).wf(),
        ensures
            final(self).wf(),
            final(self).program() == old(self).program(),
            final(tape).wf(),
            final(tape).head() == old(tape).head(),
            !old(self).awaits_input() ==> {
                &&& r is Ok
                &&& final(self).position() == old(self).position()
                &&& final(tape).cells() == old(tape).cells()
            },
            old(self).awaits_input() ==> match key_effect(key) {
                Some(Some(b)) => {
                    &&& r is Ok
                    &&& final(self).position() == advance(old(self).position())
                    &&& final(tape).cells() == old(tape).cells().update(old(tape).head() as int, b)
                },
                Some(None) => {
                    &&& r is Ok
                    &&& final(self).position() == old(self).position()
                    &&& final(tape).cells() == old(tape).cells()
                },
                None => {
                    &&& r matches Err(e) && e.code == BFErrorCode::KeyboardInterrupt
                    &&& final(self).position() == old(self).position()
                    &&& final(tape).cells() == old(tape).cells()
                },
            },
    {
        let n = self.path.len();
        let pos = self.path[n - 1];
        proof {
            assert(self.path@.take(n - 1) =~= self.path@.drop_last());
            assert(advance(self.path@).drop_last() =~= self.path@.drop_last());
        }
        let body = body_of(&self.ast, &self.path, n - 1);
        if pos >= body.len() || !matches!(body[pos], AstNode::INP) {
            return Ok(());
        }
        let stored: Option<u8> = if !key.pressed {
            None
        } else {
            match key.code {
                KeyCode::Char(c) => {
                    if key.control && c == 'c' {
                        return Err(
                            BFError::new(
                                BFErrorCode::KeyboardInterrupt,
                                String::from_str("Received Ctrl-C"),
                            ),
                        );
                    }
                    Some(((c as u32) % 256) as u8)
                },
                KeyCode::Enter => Some(10u8),
                KeyCode::Other => None,
            }
        };
        if let Some(b) = stored {
            tape.set(b);
            self.path.set(n - 1, pos + 1);
        }
        Ok(())
    }
}

} // verus!
