//! Program text and its instruction sequence: the tokenizer, with bracket
//! validation, and the rendering of instructions back to text.
use vstd::prelude::*;

verus! {

/// One instruction of a program.
///
/// `MoveLeft` (written `<`) moves the tape cursor towards higher indices and
/// `MoveRight` (written `>`) towards lower ones; `EOF` marks the end of a
/// program and does nothing when executed.
#[derive(PartialEq, Eq, Structural, Copy, Clone, Debug)]
pub enum Token {
    MoveLeft,
    MoveRight,
    BracketLeft,
    BracketRight,
    Read,
    Write,
    Flip,
    EOF,
}

/// Why a program text was refused.
#[derive(PartialEq, Eq, Structural, Copy, Clone, Debug)]
pub enum SyntaxError {
    /// A `]` with no open `[` before it, at this character index.
    UnmatchedLoopEnd(usize),
    /// The text ends with this many `[` still open.
    UnbalancedLoopStarts(usize),
}

/// Takes `&self` and creates a new independent string.
pub trait ToString {
    fn to_string(&self) -> String;
}

/// Takes `&self` and creates a new independent `Vec<Token>`, or says why the
/// text is not a program.
pub trait ToToken {
    fn to_token(&self) -> Result<Vec<Token>, SyntaxError>;
}

/// The instruction that a character stands for; every other character is a
/// comment.
pub open spec fn token_of(c: char) -> Option<Token> {
    if c == '<' {
        Some(Token::MoveLeft)
    } else if c == '>' {
        Some(Token::MoveRight)
    } else if c == '[' {
        Some(Token::BracketLeft)
    } else if c == ']' {
        Some(Token::BracketRight)
    } else if c == ',' {
        Some(Token::Read)
    } else if c == ';' {
        Some(Token::Write)
    } else if c == '+' {
        Some(Token::Flip)
    } else if c == '\0' {
        Some(Token::EOF)
    } else {
        None
    }
}

/// The character that an instruction is written as.
pub open spec fn token_char(t: Token) -> char {
    match t {
        Token::MoveLeft => '<',
        Token::MoveRight => '>',
        Token::BracketLeft => '[',
        Token::BracketRight => ']',
        Token::Read => ',',
        Token::Write => ';',
        Token::Flip => '+',
        Token::EOF => '\0',
    }
}

/// The instructions of a text, in order, comments left out.
pub open spec fn tokens_of(s: Seq<char>) -> Seq<Token>
    decreases s.len(),
{
    if s.len() == 0 {
        Seq::empty()
    } else {
        let prev = tokens_of(s.drop_last());
        match token_of(s.last()) {
            Some(t) => prev.push(t),
            None => prev,
        }
    }
}

/// How an instruction changes the number of open loops.
pub open spec fn delta(t: Token) -> int {
    match t {
        Token::BracketLeft => 1,
        Token::BracketRight => -1,
        _ => 0,
    }
}

/// The number of `[` minus the number of `]` in an instruction sequence.
pub open spec fn depth(ts: Seq<Token>) -> int
    decreases ts.len(),
{
    if ts.len() == 0 {
        0
    } else {
        depth(ts.drop_last()) + delta(ts.last())
    }
}

/// Brackets are well nested: no prefix closes more loops than it opens, and
/// the whole sequence closes all it opens.
pub open spec fn nests(ts: Seq<Token>) -> bool {
    &&& forall|k: int| 0 <= k <= ts.len() ==> depth(#[trigger] ts.take(k)) >= 0
    &&& depth(ts) == 0
}

/// The character at index `k` is a `]` that closes no open `[`.
pub open spec fn unmatched_close(s: Seq<char>, k: int) -> bool {
    &&& 0 <= k < s.len()
    &&& s[k] == ']'
    &&& depth(tokens_of(s.take(k))) == 0
}

/// No character before index `n` is an unmatched `]`.
pub open spec fn no_unmatched_before(s: Seq<char>, n: int) -> bool {
    forall|k: int| 0 <= k < n ==> !#[trigger] unmatched_close(s, k)
}

/// What tokenizing a text gives: the first unmatched `]`, else the count of
/// loops left open, else the instructions followed by one end marker.
pub open spec fn tokenizes_to(s: Seq<char>, r: Result<Vec<Token>, SyntaxError>) -> bool {
    match r {
        Ok(ts) => {
            &&& no_unmatched_before(s, s.len() as int)
            &&& depth(tokens_of(s)) == 0
            &&& ts@ == tokens_of(s).push(Token::EOF)
        },
        Err(SyntaxError::UnmatchedLoopEnd(k)) => {
            &&& unmatched_close(s, k as int)
            &&& no_unmatched_before(s, k as int)
        },
        Err(SyntaxError::UnbalancedLoopStarts(n)) => {
            &&& no_unmatched_before(s, s.len() as int)
            &&& n == depth(tokens_of(s))
            &&& n > 0
        },
    }
}

proof fn lemma_depth_push(ts: Seq<Token>, t: Token)
    ensures
        depth(ts.push(t)) == depth(ts) + delta(t),
        forall|k: int| 0 <= k <= ts.len() ==> #[trigger] ts.push(t).take(k) == ts.take(k),
        ts.push(t).take(ts.len() as int + 1) == ts.push(t),
{
    assert(ts.push(t).drop_last() =~= ts);
    assert(ts.push(t).take(ts.len() as int + 1) =~= ts.push(t));
    assert forall|k: int| 0 <= k <= ts.len() implies #[trigger] ts.push(t).take(k) == ts.take(k) by {
        assert(ts.push(t).take(k) =~= ts.take(k));
    }
}

proof fn lemma_tokens_of_step(s: Seq<char>, i: int)
    requires
        0 <= i < s.len(),
    ensures
        tokens_of(s.take(i + 1)) == match token_of(s[i]) {
            Some(t) => tokens_of(s.take(i)).push(t),
            None => tokens_of(s.take(i)),
        },
{
    assert(s.take(i + 1).drop_last() =~= s.take(i));
}

/// Every prefix of `s` opens at least as many loops as it closes, and `s` as a
/// whole closes all it opens.
pub open spec fn balanced(s: Seq<char>) -> bool {
    &&& forall|k: int| 0 <= k <= s.len() ==> depth(tokens_of(#[trigger] s.take(k))) >= 0
    &&& depth(tokens_of(s)) == 0
}

proof fn lemma_no_end_marker(s: Seq<char>)
    requires
        forall|i: int| 0 <= i < s.len() ==> s[i] != '\0',
    ensures
        forall|i: int| 0 <= i < tokens_of(s).len() ==> tokens_of(s)[i] != Token::EOF,
    decreases s.len(),
{
    if s.len() > 0 {
        lemma_no_end_marker(s.drop_last());
    }
}

/// A text without null characters whose brackets are balanced tokenizes
/// successfully, into a program whose only end marker is its last instruction.
pub proof fn lemma_balanced_text_tokenizes(s: Seq<char>, r: Result<Vec<Token>, SyntaxError>)
    requires
        balanced(s),
        forall|i: int| 0 <= i < s.len() ==> s[i] != '\0',
        tokenizes_to(s, r),
    ensures
        r is Ok,
        r->Ok_0@.len() > 0,
        r->Ok_0@.last() == Token::EOF,
        forall|i: int| 0 <= i < r->Ok_0@.len() - 1 ==> r->Ok_0@[i] != Token::EOF,
{
    assert forall|k: int| 0 <= k < s.len() implies !#[trigger] unmatched_close(s, k) by {
        lemma_tokens_of_step(s, k);
        lemma_depth_push(tokens_of(s.take(k)), Token::BracketRight);
        assert(depth(tokens_of(s.take(k + 1))) >= 0);
    }
    lemma_no_end_marker(s);
}

/// A text with a `]` that closes no open loop fails to tokenize, and the error
/// names the first such `]`, at or before it.
pub proof fn lemma_stray_close_rejected(s: Seq<char>, k: int, r: Result<Vec<Token>, SyntaxError>)
    requires
        unmatched_close(s, k),
        tokenizes_to(s, r),
    ensures
        r matches Err(SyntaxError::UnmatchedLoopEnd(j)) && j <= k,
{
    match r {
        Err(SyntaxError::UnmatchedLoopEnd(j)) => {
            if j > k {
                assert(!unmatched_close(s, k));
            }
        },
        _ => {
            assert(!unmatched_close(s, k));
        },
    }
}

/// The tokenizer's outcome on a text is unique.
pub proof fn lemma_tokenize_unique(
    s: Seq<char>,
    r1: Result<Vec<Token>, SyntaxError>,
    r2: Result<Vec<Token>, SyntaxError>,
)
    requires
        tokenizes_to(s, r1),
        tokenizes_to(s, r2),
    ensures
        match (r1, r2) {
            (Ok(a), Ok(b)) => a@ == b@,
            (Err(e1), Err(e2)) => e1 == e2,
            _ => false,
        },
{
    match (r1, r2) {
        (Err(SyntaxError::UnmatchedLoopEnd(j)), _) => {
            lemma_stray_close_rejected(s, j as int, r2);
            lemma_stray_close_rejected(s, r2->Err_0->UnmatchedLoopEnd_0 as int, r1);
        },
        (_, Err(SyntaxError::UnmatchedLoopEnd(j))) => {
            lemma_stray_close_rejected(s, j as int, r1);
        },
        _ => {},
    }
}

fn token_str(t: Token) -> (r: &'static str)
    ensures
        r@ == seq![token_char(t)],
{
    match t {
        Token::MoveLeft => {
            proof {
                reveal_strlit("<");
            }
            "<"
        },
        Token::MoveRight => {
            proof {
                reveal_strlit(">");
            }
            ">"
        },
        Token::BracketLeft => {
            proof {
                reveal_strlit("[");
            }
            "["
        },
        Token::BracketRight => {
            proof {
                reveal_strlit("]");
            }
            "]"
        },
        Token::Read => {
            proof {
                reveal_strlit(",");
            }
            ","
        },
        Token::Write => {
            proof {
                reveal_strlit(";");
            }
            ";"
        },
        Token::Flip => {
            proof {
                reveal_strlit("+");
            }
            "+"
        },
        Token::EOF => {
            proof {
                reveal_strlit("\0");
            }
            "\0"
        },
    }
}

impl ToString for Vec<Token> {
    /// Writes each instruction as its character, in order.
    fn to_string(&self) -> (r: String)
        ensures
            r@ == Seq::new(self@.len(), |i: int| token_char(self@[i])),
    {
        let mut res = String::new();
        for i in 0..self.len()
            invariant
                res@ == Seq::new(i as nat, |k: int| token_char(self@[k])),
        {
            res.append(token_str(self[i]));
            assert(res@ =~= Seq::new((i + 1) as nat, |k: int| token_char(self@[k])));
        }
        res
    }
}

impl ToToken for str {
    /// Tokenizes program text in one left-to-right scan.
    fn to_token(&self) -> (r: Result<Vec<Token>, SyntaxError>)
        ensures
            tokenizes_to(self@, r),
            r is Ok ==> nests(r->Ok_0@),
    {
        let len = self.unicode_len();
        let mut tokens: Vec<Token> = Vec::new();
        let mut open: usize = 0;
        let mut pos: usize = 0;
        for c in it: self.chars()
            invariant
                len == self@.len(),
                it.seq() == self@,
                pos == it.index(),
                pos <= len,
                open <= pos,
                tokens@ == tokens_of(self@.take(pos as int)),
                open == depth(tokens@),
                no_unmatched_before(self@, pos as int),
                forall|k: int| 0 <= k <= tokens@.len() ==> depth(#[trigger] tokens@.take(k)) >= 0,
        {
            proof {
                lemma_tokens_of_step(self@, pos as int);
            }
            let ghost prev = tokens@;
            let t: Option<Token> = if c == '<' {
                Some(Token::MoveLeft)
            } else if c == '>' {
                Some(Token::MoveRight)
            } else if c == '[' {
                Some(Token::BracketLeft)
            } else if c == ']' {
                Some(Token::BracketRight)
            } else if c == ',' {
                Some(Token::Read)
            } else if c == ';' {
                Some(Token::Write)
            } else if c == '+' {
                Some(Token::Flip)
            } else if c == '\0' {
                Some(Token::EOF)
            } else {
                None
            };
            match t {
                Some(tok) => {
                    if tok == Token::BracketRight {
                        if open == 0 {
                            return Err(SyntaxError::UnmatchedLoopEnd(pos));
                        }
                        open = open - 1;
                    } else if tok == Token::BracketLeft {
                        open = open + 1;
                    }
                    tokens.push(tok);
                    proof {
                        lemma_depth_push(prev, tok);
                    }
                },
                None => {},
            }
            pos = pos + 1;
        }
        proof {
            assert(self@.take(self@.len() as int) =~= self@);
            lemma_depth_push(tokens@, Token::EOF);
        }
        if open != 0 {
            return Err(SyntaxError::UnbalancedLoopStarts(open));
        }
        tokens.push(Token::EOF);
        assert(forall|k: int| 0 <= k <= tokens@.len() ==> depth(#[trigger] tokens@.take(k)) >= 0);
        Ok(tokens)
    }
}

} // verus!
