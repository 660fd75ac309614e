use vstd::prelude::*;

use vstd::std_specs::iter::IteratorSpec;

use crate::structs::{BFError, Token};

verus! {

/// The instruction that a character stands for, if any.
pub open spec fn char_token(c: char) -> Option<Token> {
    if c == '+' {
        Some(Token::INC)
    } else if c == '-' {
        Some(Token::DEC)
    } else if c == '<' {
        Some(Token::MLT)
    } else if c == '>' {
        Some(Token::MRT)
    } else if c == '[' {
        Some(Token::LEN)
    } else if c == ']' {
        Some(Token::LEX)
    } else if c == ',' {
        Some(Token::INP)
    } else if c == '.' {
        Some(Token::OUT)
    } else if c == '&' {
        Some(Token::END)
    } else if c == '?' {
        Some(Token::DBG)
    } else {
        None
    }
}

/// Whether the scanner is inside a comment after reading `s`: with comments
/// on, `#` starts one and the next newline ends it.
pub open spec fn in_comment(s: Seq<char>, comments: bool) -> bool
    decreases s.len(),
{
    if s.len() == 0 {
        false
    } else {
        let before = in_comment(s.drop_last(), comments);
        let c = s.last();
        if comments && c == '#' {
            true
        } else if comments && before && c == '\n' {
            false
        } else {
            before
        }
    }
}

/// The tokens of `s`: one for each instruction character that stands outside
/// a comment, in order.
pub open spec fn scan(s: Seq<char>, comments: bool) -> Seq<Token>
    decreases s.len(),
{
    if s.len() == 0 {
        Seq::empty()
    } else {
        let before = scan(s.drop_last(), comments);
        match char_token(s.last()) {
            Some(t) if !in_comment(s.drop_last(), comments) => before.push(t),
            _ => before,
        }
    }
}

/// Scanning yields at most one token per character.
pub proof fn lemma_scan_len(s: Seq<char>, comments: bool)
    ensures
        scan(s, comments).len() <= s.len(),
    decreases s.len(),
{
    if s.len() > 0 {
        lemma_scan_len(s.drop_last(), comments);
    }
}

proof fn lemma_in_comment_concat(s: Seq<char>, t: Seq<char>, comments: bool)
    requires
        !in_comment(s, comments),
    ensures
        in_comment(s + t, comments) == in_comment(t, comments),
    decreases t.len(),
{
    if t.len() == 0 {
        assert(s + t =~= s);
    } else {
        assert((s + t).drop_last() =~= s + t.drop_last());
        lemma_in_comment_concat(s, t.drop_last(), comments);
    }
}

proof fn lemma_scan_concat(s: Seq<char>, t: Seq<char>, comments: bool)
    requires
        !in_comment(s, comments),
    ensures
        scan(s + t, comments) == scan(s, comments) + scan(t, comments),
    decreases t.len(),
{
    if t.len() == 0 {
        assert(s + t =~= s);
        assert(scan(s, comments) + scan(t, comments) =~= scan(s, comments));
    } else {
        assert((s + t).drop_last() =~= s + t.drop_last());
        lemma_scan_concat(s, t.drop_last(), comments);
        lemma_in_comment_concat(s, t.drop_last(), comments);
        match char_token(t.last()) {
            Some(tok) => {
                assert(scan(s, comments) + scan(t.drop_last(), comments).push(tok) =~= (scan(
                    s,
                    comments,
                ) + scan(t.drop_last(), comments)).push(tok));
            },
            None => {},
        }
    }
}

proof fn lemma_comment_body(a: Seq<char>, c: Seq<char>)
    requires
        forall|i: int| 0 <= i < c.len() ==> c[i] != '\n',
    ensures
        in_comment(a + seq!['#'] + c, true),
        scan(a + seq!['#'] + c, true) == scan(a, true),
    decreases c.len(),
{
    if c.len() == 0 {
        assert(a + seq!['#'] + c =~= a.push('#'));
        assert(a.push('#').drop_last() =~= a);
    } else {
        lemma_comment_body(a, c.drop_last());
        assert((a + seq!['#'] + c).drop_last() =~= a + seq!['#'] + c.drop_last());
    }
}

/// With comments on, a comment from `#` to the end of its line yields no
/// tokens, whatever it holds, and the scan goes on after it as from the start.
pub proof fn lemma_comment_skipped(a: Seq<char>, c: Seq<char>, b: Seq<char>)
    requires
        forall|i: int| 0 <= i < c.len() ==> c[i] != '\n',
    ensures
        scan(a + seq!['#'] + c + seq!['\n'] + b, true) == scan(a, true) + scan(b, true),
{
    let x = a + seq!['#'] + c + seq!['\n'];
    lemma_comment_body(a, c);
    assert(x.drop_last() =~= a + seq!['#'] + c);
    lemma_scan_concat(x, b, true);
}

fn token_of(c: char) -> (r: Option<Token>)
    ensures
        r == char_token(c),
{
    match c {
        '+' => Some(Token::INC),
        '-' => Some(Token::DEC),
        '<' => Some(Token::MLT),
        '>' => Some(Token::MRT),
        '[' => Some(Token::LEN),
        ']' => Some(Token::LEX),
        ',' => Some(Token::INP),
        '.' => Some(Token::OUT),
        '&' => Some(Token::END),
        '?' => Some(Token::DBG),
        _ => None,
    }
}

/// Takes a string representing the code and generates a vec of tokens,
/// representing the program. Every character that is no instruction is
/// skipped; with `comments`, so is everything from `#` to the end of its line.
pub fn tokenize(code: String, comments: bool) -> (r: Result<Vec<Token>, BFError>)
    ensures
        r matches Ok(tokens) && tokens@ == scan(code@, comments),
        r matches Ok(tokens) && tokens@.len() <= code@.len(),
{
    let mut tokens: Vec<Token> = Vec::new();
    let mut comment: bool = false;
    let it = code.chars();
    proof {
        broadcast use vstd::string::group_string_axioms;

        assert(it.remaining() == code@);
    }
    for c in iter: it
        invariant
            iter.seq() == code@,
            tokens@ == scan(iter.seq().take(iter.index() as int), comments),
            comment == in_comment(iter.seq().take(iter.index() as int), comments),
    {
        let ghost k = iter.index() as int;
        proof {
            assert(iter.seq().take(k + 1).drop_last() =~= iter.seq().take(k));
        }
        match token_of(c) {
            Some(t) if !comment => tokens.push(t),
            _ => {},
        }
        if comments && c == '#' {
            comment = true;
        } else if comments && comment && c == '\n' {
            comment = false;
        }
    }
    proof {
        assert(code@.take(code@.len() as int) =~= code@);
        lemma_scan_len(code@, comments);
    }
    Ok(tokens)
}

} // verus!
