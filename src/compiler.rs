use vstd::prelude::*;

use crate::structs::AstNode;

verus! {

/// Opens the C program: a zeroed tape of 10000 cells, a head in its middle,
/// and unbuffered output.
pub const C_HEADER: &'static str = "#include <stdio.h>
#include <stdlib.h>

int main() {
    setbuf(stdout, NULL);
    unsigned char tape[10000] = {0};
    unsigned char *ptr = tape+5000;
";

pub const C_FOOTER: &'static str = "return 0;}";

pub const C_INCREASE: &'static str = "    ++*ptr;\n";

pub const C_DECREASE: &'static str = "    --*ptr;\n";

pub const C_MOVERIGT: &'static str = "    ++ptr;\n";

pub const C_MOVELEFT: &'static str = "    --ptr;\n";

pub const C_OUTPUTCH: &'static str = "    putchar(*ptr);\n";

pub const C_INPUTCHR: &'static str = "    *ptr = getchar();\n";

pub const C_LOOPSTRT: &'static str = "    while (*ptr) {\n";

pub const C_LOOPENDS: &'static str = "    }\n";

pub const C_EXITEXIT: &'static str = "    exit(*ptr);\n";

/// The C statements for a sequence of nodes: one snippet per instruction, a
/// `while` block per loop; the tape dump has none.
pub open spec fn c_of(ast: Seq<AstNode>) -> Seq<char>
    decreases ast,
{
    if ast.len() == 0 {
        Seq::empty()
    } else {
        let init = ast.subrange(0, ast.len() - 1);
        let last = ast[ast.len() - 1];
        c_of(init) + match last {
            AstNode::INC => C_INCREASE@,
            AstNode::DEC => C_DECREASE@,
            AstNode::MRT => C_MOVERIGT@,
            AstNode::MLT => C_MOVELEFT@,
            AstNode::OUT => C_OUTPUTCH@,
            AstNode::INP => C_INPUTCHR@,
            AstNode::END => C_EXITEXIT@,
            AstNode::DBG => Seq::empty(),
            AstNode::LOP(body) => C_LOOPSTRT@ + c_of(body@) + C_LOOPENDS@,
        }
    }
}

/// The C program for a tree.
pub open spec fn c_program(ast: Seq<AstNode>) -> Seq<char> {
    C_HEADER@ + c_of(ast) + C_FOOTER@
}

proof fn lemma_c_of_push(ast: Seq<AstNode>, n: AstNode)
    ensures
        c_of(ast.push(n)) == c_of(ast) + c_of(seq![n]),
{
    assert(ast.push(n).subrange(0, ast.len() as int) =~= ast);
    assert(seq![n].subrange(0, 0) =~= Seq::<AstNode>::empty());
    assert(c_of(Seq::<AstNode>::empty()) =~= Seq::<char>::empty());
    assert(Seq::<char>::empty() + c_of(seq![n]) =~= c_of(seq![n]));
}

/// Appends the C statements of `ast` to `c_code`.
fn ast_to_c_ins(c_code: &mut String, ast: &Vec<AstNode>)
    ensures
        final(c_code)@ == old(c_code)@ + c_of(ast@),
    decreases ast@,
{
    let mut i: usize = 0;
    proof {
        assert(ast@.take(0) =~= Seq::<AstNode>::empty());
        assert(old(c_code)@ + c_of(Seq::<AstNode>::empty()) =~= old(c_code)@);
    }
    while i < ast.len()
        invariant
            i <= ast.len(),
            c_code@ == old(c_code)@ + c_of(ast@.take(i as int)),
        decreases ast.len() - i,
    {
        let node = &ast[i];
        proof {
            assert(ast@.take(i + 1) =~= ast@.take(i as int).push(*node));
            lemma_c_of_push(ast@.take(i as int), *node);
            assert(seq![*node].subrange(0, 0) =~= Seq::<AstNode>::empty());
            assert(c_of(Seq::<AstNode>::empty()) =~= Seq::<char>::empty());
        }
        match node {
            AstNode::INC => c_code.append(C_INCREASE),
            AstNode::DEC => c_code.append(C_DECREASE),
            AstNode::MRT => c_code.append(C_MOVERIGT),
            AstNode::MLT => c_code.append(C_MOVELEFT),
            AstNode::OUT => c_code.append(C_OUTPUTCH),
            AstNode::INP => c_code.append(C_INPUTCHR),
            AstNode::END => c_code.append(C_EXITEXIT),
            AstNode::LOP(subloop) => {
                assert(decreases_to!(ast@ => subloop@)) by {
                    assert(decreases_to!(ast@ => ast@[i as int]));
                };
                c_code.append(C_LOOPSTRT);
                ast_to_c_ins(c_code, subloop);
                c_code.append(C_LOOPENDS);
            },
            AstNode::DBG => {},
        }
        proof {
            assert(c_code@ =~= old(c_code)@ + c_of(ast@.take(i + 1)));
        }
        i = i + 1;
    }
    proof {
        assert(ast@.take(ast.len() as int) =~= ast@);
    }
}

/// Lowers a tree to a complete C program that does what the tree does.
pub fn compile_ast_c(ast: &Vec<AstNode>) -> (r: String)
    ensures
        r@ == c_program(ast@),
{
    let mut c_code = String::new();
    c_code.append(C_HEADER);
    ast_to_c_ins(&mut c_code, ast);
    c_code.append(C_FOOTER);
    c_code
}

} // verus!
