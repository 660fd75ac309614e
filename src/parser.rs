use vstd::prelude::*;

use crate::structs::{AstNode, BFError, BFErrorCode, Token};

verus! {

/// How a token changes the loop nesting depth.
pub open spec fn delta(t: Token) -> int {
    match t {
        Token::LEN => 1,
        Token::LEX => -1,
        _ => 0,
    }
}

/// Opened loops minus closed loops in `s`.
pub open spec fn depth(s: Seq<Token>) -> int
    decreases s.len(),
{
    if s.len() == 0 {
        0
    } else {
        depth(s.drop_last()) + delta(s.last())
    }
}

/// No prefix of `s` closes more loops than it opens.
pub open spec fn never_negative(s: Seq<Token>) -> bool {
    forall|i: int| 0 <= i <= s.len() ==> depth(#[trigger] s.take(i)) >= 0
}

/// Every `[` of `s` has its `]` and every `]` its `[`.
pub open spec fn balanced(s: Seq<Token>) -> bool {
    never_negative(s) && depth(s) == 0
}

/// The token of a simple instruction node.
pub open spec fn leaf_token(n: AstNode) -> Token {
    match n {
        AstNode::INC => Token::INC,
        AstNode::DEC => Token::DEC,
        AstNode::MRT => Token::MRT,
        AstNode::MLT => Token::MLT,
        AstNode::OUT => Token::OUT,
        AstNode::INP => Token::INP,
        AstNode::END => Token::END,
        AstNode::DBG => Token::DBG,
        AstNode::LOP(_) => Token::LEN,
    }
}

/// The tokens that a sequence of nodes stands for: a loop is its body between
/// `[` and `]`.
pub open spec fn flatten(ast: Seq<AstNode>) -> Seq<Token>
    decreases ast,
{
    if ast.len() == 0 {
        Seq::empty()
    } else {
        let init = ast.subrange(0, ast.len() - 1);
        let last = ast[ast.len() - 1];
        flatten(init) + match last {
            AstNode::LOP(body) => seq![Token::LEN] + flatten(body@) + seq![Token::LEX],
            _ => seq![leaf_token(last)],
        }
    }
}

/// How many tokens of `s` are no brackets.
pub open spec fn non_bracket_count(s: Seq<Token>) -> nat
    decreases s.len(),
{
    if s.len() == 0 {
        0
    } else {
        non_bracket_count(s.drop_last()) + if s.last() == Token::LEN || s.last() == Token::LEX {
            0nat
        } else {
            1nat
        }
    }
}

/// How many tokens of `s` open a loop.
pub open spec fn open_count(s: Seq<Token>) -> nat
    decreases s.len(),
{
    if s.len() == 0 {
        0
    } else {
        open_count(s.drop_last()) + if s.last() == Token::LEN {
            1nat
        } else {
            0nat
        }
    }
}

/// How many nodes of a tree are simple instructions, at every depth.
pub open spec fn leaf_count(ast: Seq<AstNode>) -> nat
    decreases ast,
{
    if ast.len() == 0 {
        0
    } else {
        let init = ast.subrange(0, ast.len() - 1);
        leaf_count(init) + match ast[ast.len() - 1] {
            AstNode::LOP(body) => leaf_count(body@),
            _ => 1,
        }
    }
}

/// How many nodes of a tree are loops, at every depth.
pub open spec fn loop_count(ast: Seq<AstNode>) -> nat
    decreases ast,
{
    if ast.len() == 0 {
        0
    } else {
        let init = ast.subrange(0, ast.len() - 1);
        loop_count(init) + match ast[ast.len() - 1] {
            AstNode::LOP(body) => 1 + loop_count(body@),
            _ => 0,
        }
    }
}

proof fn lemma_counts_concat(a: Seq<Token>, b: Seq<Token>)
    ensures
        non_bracket_count(a + b) == non_bracket_count(a) + non_bracket_count(b),
        open_count(a + b) == open_count(a) + open_count(b),
    decreases b.len(),
{
    if b.len() == 0 {
        assert(a + b =~= a);
    } else {
        assert((a + b).drop_last() =~= a + b.drop_last());
        lemma_counts_concat(a, b.drop_last());
    }
}

/// A tree has one simple node for each token that is no bracket, and one loop
/// node for each `[`, of the tokens it stands for.
pub proof fn lemma_tree_counts(ast: Seq<AstNode>)
    ensures
        leaf_count(ast) == non_bracket_count(flatten(ast)),
        loop_count(ast) == open_count(flatten(ast)),
    decreases ast,
{
    if ast.len() > 0 {
        let init = ast.subrange(0, ast.len() - 1);
        lemma_tree_counts(init);
        match ast[ast.len() - 1] {
            AstNode::LOP(body) => {
                lemma_tree_counts(body@);
                let inner = flatten(body@);
                lemma_counts_concat(seq![Token::LEN], inner);
                lemma_counts_concat(seq![Token::LEN] + inner, seq![Token::LEX]);
                lemma_counts_concat(flatten(init), seq![Token::LEN] + inner + seq![Token::LEX]);
                assert(seq![Token::LEN].drop_last() =~= Seq::<Token>::empty());
                assert(seq![Token::LEX].drop_last() =~= Seq::<Token>::empty());
                assert(flatten(ast) == flatten(init) + (seq![Token::LEN] + inner + seq![Token::LEX]));
                assert(non_bracket_count(Seq::<Token>::empty()) == 0);
                assert(open_count(Seq::<Token>::empty()) == 0);
                assert(non_bracket_count(seq![Token::LEX]) == 0);
                assert(non_bracket_count(seq![Token::LEN]) == 0);
                assert(open_count(seq![Token::LEN]) == 1);
                assert(open_count(seq![Token::LEX]) == 0);
            },
            n => {
                lemma_counts_concat(flatten(init), seq![leaf_token(n)]);
                assert(seq![leaf_token(n)].drop_last() =~= Seq::<Token>::empty());
                assert(non_bracket_count(Seq::<Token>::empty()) == 0);
                assert(open_count(Seq::<Token>::empty()) == 0);
                assert(leaf_token(n) != Token::LEN && leaf_token(n) != Token::LEX);
                assert(non_bracket_count(seq![leaf_token(n)]) == 1);
                assert(open_count(seq![leaf_token(n)]) == 0);
                assert(flatten(ast) == flatten(init) + seq![leaf_token(n)]);
                assert(leaf_count(ast) == leaf_count(init) + 1);
            },
        }
    }
}

/// In a program without loops, the simple nodes and the loop nodes of its
/// tree together are as many as its tokens that are no brackets.
pub proof fn lemma_flat_tree_size(tokens: Seq<Token>, ast: Seq<AstNode>)
    requires
        balanced(tokens),
        open_count(tokens) == 0,
        flatten(ast) == tokens,
    ensures
        leaf_count(ast) + loop_count(ast) == non_bracket_count(tokens),
{
    lemma_tree_counts(ast);
}

proof fn lemma_depth_step(s: Seq<Token>, i: int)
    requires
        0 <= i < s.len(),
    ensures
        depth(s.take(i + 1)) == depth(s.take(i)) + delta(s[i]),
{
    assert(s.take(i + 1).drop_last() =~= s.take(i));
}

pub(crate) proof fn lemma_flatten_push(ast: Seq<AstNode>, n: AstNode)
    ensures
        flatten(ast.push(n)) == flatten(ast) + flatten(seq![n]),
{
    assert(ast.push(n).subrange(0, ast.len() as int) =~= ast);
    assert(seq![n].subrange(0, 0) =~= Seq::<AstNode>::empty());
    assert(flatten(Seq::<AstNode>::empty()) =~= Seq::<Token>::empty());
    assert(Seq::<Token>::empty() + flatten(seq![n]).subrange(0, flatten(seq![n]).len() as int)
        =~= flatten(seq![n]));
}

/// Builds the nodes from `start` up to the `]` that closes the enclosing loop
/// (`nested`), or up to the end of the tokens. `level` is the nesting depth
/// at `start`.
fn parse_body(tokens: &Vec<Token>, start: usize, nested: bool, Ghost(level): Ghost<nat>) -> (r:
    Result<(Vec<AstNode>, usize), BFErrorCode>)
    requires
        start <= tokens.len(),
        nested == (level > 0),
        depth(tokens@.take(start as int)) == level,
        forall|j: int| 0 <= j <= start ==> depth(#[trigger] tokens@.take(j)) >= 0,
    ensures
        match r {
            Ok((ast, end)) => {
                &&& start <= end <= tokens.len()
                &&& flatten(ast@) == tokens@.subrange(start as int, end as int)
                &&& forall|j: int| start <= j <= end ==> depth(#[trigger] tokens@.take(j)) >= level
                &&& depth(tokens@.take(end as int)) == level
                &&& nested ==> end < tokens.len() && tokens@[end as int] == Token::LEX
                &&& !nested ==> end == tokens.len()
            },
            Err(BFErrorCode::UnmatchedLoopExit) => !never_negative(tokens@),
            Err(BFErrorCode::UnmatchedLoopEnter) => never_negative(tokens@) && depth(tokens@) > 0,
            Err(_) => false,
        },
    decreases tokens.len() - start,
{
    let mut ast: Vec<AstNode> = Vec::new();
    let mut i: usize = start;
    proof {
        assert(tokens@.subrange(start as int, start as int) =~= Seq::<Token>::empty());
        assert(flatten(ast@) == Seq::<Token>::empty());
    }
    while i < tokens.len()
        invariant
            start <= i <= tokens.len(),
            nested == (level > 0),
            forall|j: int| 0 <= j <= start ==> depth(#[trigger] tokens@.take(j)) >= 0,
            flatten(ast@) == tokens@.subrange(start as int, i as int),
            forall|j: int| start <= j <= i ==> depth(#[trigger] tokens@.take(j)) >= level,
            depth(tokens@.take(i as int)) == level,
        decreases tokens.len() - i,
    {
        let t = tokens[i];
        proof {
            lemma_depth_step(tokens@, i as int);
        }
        let node = match t {
            Token::INC => AstNode::INC,
            Token::DEC => AstNode::DEC,
            Token::MRT => AstNode::MRT,
            Token::MLT => AstNode::MLT,
            Token::OUT => AstNode::OUT,
            Token::INP => AstNode::INP,
            Token::END => AstNode::END,
            Token::DBG => AstNode::DBG,
            Token::LEX => {
                if nested {
                    return Ok((ast, i));
                } else {
                    assert(depth(tokens@.take(i + 1)) < 0);
                    return Err(BFErrorCode::UnmatchedLoopExit);
                }
            },
            Token::LEN => {
                match parse_body(tokens, i + 1, true, Ghost(level + 1)) {
                    Ok((body, e)) => {
                        proof {
                            lemma_depth_step(tokens@, e as int);
                            let n = AstNode::LOP(body);
                            lemma_flatten_push(ast@, n);
                            assert(seq![n].subrange(0, 0) =~= Seq::<AstNode>::empty());
                            assert(flatten(Seq::<AstNode>::empty()) =~= Seq::<Token>::empty());
                            assert(tokens@.subrange(start as int, e + 1) =~= tokens@.subrange(
                                start as int,
                                i as int,
                            ) + (seq![Token::LEN] + tokens@.subrange(i + 1, e as int) + seq![
                                Token::LEX,
                            ]));
                        }
                        ast.push(AstNode::LOP(body));
                        i = e + 1;
                        continue ;
                    },
                    Err(c) => {
                        return Err(c);
                    },
                }
            },
        };
        proof {
            lemma_flatten_push(ast@, node);
            assert(seq![node].subrange(0, 0) =~= Seq::<AstNode>::empty());
            assert(flatten(Seq::<AstNode>::empty()) =~= Seq::<Token>::empty());
            assert(tokens@.subrange(start as int, i + 1) =~= tokens@.subrange(start as int, i as int)
                + seq![t]);
        }
        ast.push(node);
        i = i + 1;
    }
    proof {
        assert(tokens@.take(tokens.len() as int) =~= tokens@);
    }
    if nested {
        Err(BFErrorCode::UnmatchedLoopEnter)
    } else {
        Ok((ast, i))
    }
}

/// Builds the instruction tree of a token sequence, nesting the tokens between
/// each `[` and its `]` into one loop node.
pub fn parse(tokens: Vec<Token>) -> (r: Result<Vec<AstNode>, BFError>)
    ensures
        r is Ok <==> balanced(tokens@),
        r matches Ok(ast) ==> flatten(ast@) == tokens@,
        r matches Err(e) ==> e.code == if never_negative(tokens@) {
            BFErrorCode::UnmatchedLoopEnter
        } else {
            BFErrorCode::UnmatchedLoopExit
        },
{
    proof {
        assert(tokens@.take(0) =~= Seq::<Token>::empty());
    }
    match parse_body(&tokens, 0, false, Ghost(0)) {
        Ok((ast, _end)) => {
            proof {
                assert(tokens@.subrange(0, tokens.len() as int) =~= tokens@);
                assert(tokens@.take(tokens.len() as int) =~= tokens@);
            }
            Ok(ast)
        },
        Err(BFErrorCode::UnmatchedLoopExit) => Err(
            BFError::new(BFErrorCode::UnmatchedLoopExit, "Unmatched character \"]\"".to_string()),
        ),
        Err(_) => Err(
            BFError::new(BFErrorCode::UnmatchedLoopEnter, "Unmatched character \"[\"".to_string()),
        ),
    }
}

} // verus!
