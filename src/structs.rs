use vstd::prelude::*;

use crate::parser::{flatten, lemma_flatten_push};
use crate::text::push_char;

verus! {

/// One instruction character of the source text.
#[derive(Debug, Clone, Copy, PartialEq, Eq, Structural)]
pub enum Token {
    /// `+` adds one to the current cell
    INC,
    /// `-` subtracts one from the current cell
    DEC,
    /// `<` moves the head one cell to the left
    MLT,
    /// `>` moves the head one cell to the right
    MRT,
    /// `[` opens a loop
    LEN,
    /// `]` closes a loop
    LEX,
    /// `.` outputs the current cell as a character
    OUT,
    /// `,` reads one keystroke into the current cell
    INP,
    /// `&` ends the program with the current cell as its code
    END,
    /// `?` prints the whole tape
    DBG,
}

/// What went wrong, or why a run stopped early.
#[derive(Debug, Clone, Copy, PartialEq, Eq, Structural)]
pub enum BFErrorCode {
    UnmatchedLoopExit,
    UnmatchedLoopEnter,
    KeyboardInterrupt,
    Exit,
}

#[derive(Debug)]
pub struct BFError {
    pub code: BFErrorCode,
    pub message: String,
}

impl BFError {
    pub fn new(code: BFErrorCode, message: String) -> (r: Self)
        ensures
            r.code == code,
            r.message@ == message@,
    {
        BFError { code, message }
    }
}

/// A node of the instruction tree: a simple instruction, or a loop that owns
/// its body.
#[derive(Debug)]
pub enum AstNode {
    INC,
    DEC,
    MRT,
    MLT,
    OUT,
    INP,
    END,
    LOP(Vec<AstNode>),
    DBG,
}

impl Clone for AstNode {
    /// A copy of the node and, for a loop, of its whole body.
    fn clone(&self) -> (r: Self)
        ensures
            flatten(seq![r]) == flatten(seq![*self]),
        decreases self,
    {
        match self {
            AstNode::INC => AstNode::INC,
            AstNode::DEC => AstNode::DEC,
            AstNode::MRT => AstNode::MRT,
            AstNode::MLT => AstNode::MLT,
            AstNode::OUT => AstNode::OUT,
            AstNode::INP => AstNode::INP,
            AstNode::END => AstNode::END,
            AstNode::DBG => AstNode::DBG,
            AstNode::LOP(body) => {
                let mut copy: Vec<AstNode> = Vec::new();
                let mut i: usize = 0;
                proof {
                    assert(body@.take(0) =~= Seq::<AstNode>::empty());
                }
                while i < body.len()
                    invariant
                        i <= body.len(),
                        *self == AstNode::LOP(*body),
                        flatten(copy@) == flatten(body@.take(i as int)),
                    decreases body.len() - i,
                {
                    assert(decreases_to!(*self => self->LOP_0));
                    assert(decreases_to!(self->LOP_0 => self->LOP_0@));
                    assert(decreases_to!(self->LOP_0@ => self->LOP_0@[i as int]));
                    let child = body[i].clone();
                    proof {
                        lemma_flatten_push(copy@, child);
                        lemma_flatten_push(body@.take(i as int), body@[i as int]);
                        assert(body@.take(i as int).push(body@[i as int]) =~= body@.take(i + 1));
                    }
                    copy.push(child);
                    i = i + 1;
                }
                proof {
                    assert(body@.take(body.len() as int) =~= body@);
                    let r = AstNode::LOP(copy);
                    assert(seq![r].subrange(0, 0) =~= Seq::<AstNode>::empty());
                    assert(seq![*self].subrange(0, 0) =~= Seq::<AstNode>::empty());
                }
                AstNode::LOP(copy)
            },
        }
    }
}

/// The cell value after adding one, wrapping 255 to 0.
pub open spec fn wrap_inc(v: u8) -> u8 {
    ((v as int + 1) % 256) as u8
}

/// The cell value after subtracting one, wrapping 0 to 255.
pub open spec fn wrap_dec(v: u8) -> u8 {
    ((v as int + 255) % 256) as u8
}

/// The cells after the head moved right from `head`: a zero cell is added
/// when the head passes the end.
pub open spec fn grown(cells: Seq<u8>, head: nat) -> Seq<u8> {
    if head + 1 == cells.len() {
        cells.push(0u8)
    } else {
        cells
    }
}

/// The head after a move to the left: it never goes below 0.
pub open spec fn left_of(head: nat) -> nat {
    if head > 0 {
        (head - 1) as nat
    } else {
        0
    }
}

/// The head after `n` moves to the left from `head`.
pub open spec fn left_n(head: nat, n: nat) -> nat
    decreases n,
{
    if n == 0 {
        head
    } else {
        left_of(left_n(head, (n - 1) as nat))
    }
}

/// However often the head moves left from cell 0, it stays at cell 0.
pub proof fn lemma_left_from_origin(n: nat)
    ensures
        left_n(0, n) == 0,
    decreases n,
{
    if n > 0 {
        lemma_left_from_origin((n - 1) as nat);
    }
}

/// The cells and the head after `n` moves to the right from `head`.
pub open spec fn right_n(cells: Seq<u8>, head: nat, n: nat) -> (Seq<u8>, nat)
    decreases n,
{
    if n == 0 {
        (cells, head)
    } else {
        let (c, h) = right_n(cells, head, (n - 1) as nat);
        (grown(c, h), h + 1)
    }
}

/// After `n` moves to the right from a fresh tape, the tape holds `n + 1`
/// zero cells and the head stands on the last.
pub proof fn lemma_right_from_fresh(n: nat)
    ensures
        right_n(seq![0u8], 0, n) == (Seq::new(n + 1, |_i: int| 0u8), n),
    decreases n,
{
    if n == 0 {
        assert(seq![0u8] =~= Seq::new(1, |_i: int| 0u8));
    } else {
        lemma_right_from_fresh((n - 1) as nat);
        assert(Seq::new(n as nat, |_i: int| 0u8).push(0u8) =~= Seq::new(n + 1, |_i: int| 0u8));
    }
}

/// The upper-case hexadecimal digit of a value below 16.
pub open spec fn hex_digit(d: u8) -> char {
    if d < 10 {
        (d + 48) as char
    } else {
        (d + 55) as char
    }
}

/// A printable ASCII character other than space.
pub open spec fn is_graphic(b: u8) -> bool {
    0x21 <= b <= 0x7e
}

/// How a cell shows in a tape dump: two hex digits and the character, in
/// brackets under the head.
pub open spec fn cell_text(b: u8, at_head: bool) -> Seq<char> {
    let ch = if is_graphic(b) {
        b as char
    } else {
        ' '
    };
    if at_head {
        seq!['[', hex_digit(b / 16), hex_digit(b % 16), ch, ']']
    } else {
        seq![' ', hex_digit(b / 16), hex_digit(b % 16), ch, ' ']
    }
}

/// The dump of the first `n` cells.
pub open spec fn cells_text(cells: Seq<u8>, head: nat, n: nat) -> Seq<char>
    decreases n,
{
    if n == 0 {
        Seq::empty()
    } else {
        cells_text(cells, head, (n - 1) as nat) + cell_text(cells[n - 1], n - 1 == head)
    }
}

/// The dump of a whole tape, between `<` and `>`.
pub open spec fn tape_text(cells: Seq<u8>, head: nat) -> Seq<char> {
    seq!['<'] + cells_text(cells, head, cells.len()) + seq!['>']
}

fn hex_char(d: u8) -> (r: char)
    requires
        d < 16,
    ensures
        r == hex_digit(d),
{
    if d < 10 {
        (d + 48) as char
    } else {
        (d + 55) as char
    }
}

/// The memory of a program: a head and the cells from index 0 up to the
/// furthest cell the head has reached.
pub struct Tape {
    cell: usize,
    tape: Vec<u8>,
}

impl Tape {
    /// The index of the cell under the head.
    pub closed spec fn head(&self) -> nat {
        self.cell as nat
    }

    /// The values of the cells, from index 0.
    pub closed spec fn cells(&self) -> Seq<u8> {
        self.tape@
    }

    /// The head stands on a cell.
    pub open spec fn wf(&self) -> bool {
        self.head() < self.cells().len()
    }

    /// The value under the head.
    pub open spec fn current(&self) -> u8 {
        self.cells()[self.head() as int]
    }

    pub fn new() -> (r: Self)
        ensures
            r.wf(),
            r.head() == 0,
            r.cells() == seq![0u8],
    {
        Tape { cell: 0, tape: vec![0] }
    }

    /// Moves the tape head one space to the right, adding a zero cell when it
    /// passes the end.
    pub fn mrt(&mut self)
        requires
            old(self).wf(),
        ensures
            final(self).wf(),
            final(self).head() == old(self).head() + 1,
            final(self).cells() == grown(old(self).cells(), old(self).head()),
    {
        let n = self.tape.len();
        self.cell = self.cell + 1;
        if self.cell == n {
            self.tape.push(0)
        }
    }

    /// Moves the tape head one space to the left; at cell 0 it stays.
    pub fn mlt(&mut self)
        requires
            old(self).wf(),
        ensures
            final(self).wf(),
            final(self).head() == left_of(old(self).head()),
            final(self).cells() == old(self).cells(),
    {
        if self.cell > 0 {
            self.cell = self.cell - 1
        }
    }

    /// Returns the value in the tape head cell
    pub fn get(&self) -> (r: u8)
        requires
            self.wf(),
        ensures
            r == self.current(),
    {
        self.tape[self.cell]
    }

    /// Sets the value in the tape head cell
    pub fn set(&mut self, val: u8)
        requires
            old(self).wf(),
        ensures
            final(self).wf(),
            final(self).head() == old(self).head(),
            final(self).cells() == old(self).cells().update(old(self).head() as int, val),
    {
        self.tape.set(self.cell, val)
    }

    /// Adds one to the value in the tape head cell, wrapping on overflow
    pub fn add(&mut self)
        requires
            old(self).wf(),
        ensures
            final(self).wf(),
            final(self).head() == old(self).head(),
            final(self).cells() == old(self).cells().update(
                old(self).head() as int,
                wrap_inc(old(self).current()),
            ),
    {
        let v = self.tape[self.cell];
        self.tape.set(self.cell, v.wrapping_add(1))
    }

    /// Removes one to the value in the tape head cell, wrapping on underflow
    pub fn sub(&mut self)
        requires
            old(self).wf(),
        ensures
            final(self).wf(),
            final(self).head() == old(self).head(),
            final(self).cells() == old(self).cells().update(
                old(self).head() as int,
                wrap_dec(old(self).current()),
            ),
    {
        let v = self.tape[self.cell];
        self.tape.set(self.cell, v.wrapping_sub(1))
    }

    /// A snapshot of every cell, in hex and as a character, with the cell
    /// under the head in brackets.
    pub fn render(&self) -> (r: String)
        ensures
            r@ == tape_text(self.cells(), self.head()),
    {
        let mut res = String::new();
        push_char(&mut res, '<');
        let mut i: usize = 0;
        while i < self.tape.len()
            invariant
                i <= self.tape.len(),
                res@ == seq!['<'] + cells_text(self.cells(), self.head(), i as nat),
            decreases self.tape.len() - i,
        {
            let b = self.tape[i];
            let ch = if 0x21 <= b && b <= 0x7e {
                b as char
            } else {
                ' '
            };
            let (open, close) = if i == self.cell {
                ('[', ']')
            } else {
                (' ', ' ')
            };
            push_char(&mut res, open);
            push_char(&mut res, hex_char(b / 16));
            push_char(&mut res, hex_char(b % 16));
            push_char(&mut res, ch);
            push_char(&mut res, close);
            proof {
                assert(res@ =~= seq!['<'] + cells_text(self.cells(), self.head(), (i + 1) as nat));
            }
            i = i + 1;
        }
        push_char(&mut res, '>');
        res
    }
}

} // verus!
