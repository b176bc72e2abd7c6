use vstd::prelude::*;
use vstd::string::StringSliceAdditionalSpecFns;

use crate::error::Location;

verus! {

/// The six primitive instruction kinds of the language.
#[derive(Debug, Clone, Copy, PartialEq, Eq, Structural)]
pub enum Basic {
    MoveRight,
    MoveLeft,
    Increment,
    Decrement,
    Output,
    Input,
}

/// One lexical token: a primitive instruction or a loop delimiter.
#[derive(Debug, Clone, Copy, PartialEq, Eq, Structural)]
pub enum Token {
    Basic(Basic),
    StartLoop,
    EndLoop,
}

/// The token that a source byte stands for, if any.  All eight instruction
/// characters are ASCII; every other byte is a comment.
pub open spec fn token_of_byte(b: u8) -> Option<Token> {
    if b == 62 {
        Some(Token::Basic(Basic::MoveRight))
    } else if b == 60 {
        Some(Token::Basic(Basic::MoveLeft))
    } else if b == 43 {
        Some(Token::Basic(Basic::Increment))
    } else if b == 45 {
        Some(Token::Basic(Basic::Decrement))
    } else if b == 46 {
        Some(Token::Basic(Basic::Output))
    } else if b == 44 {
        Some(Token::Basic(Basic::Input))
    } else if b == 91 {
        Some(Token::StartLoop)
    } else if b == 93 {
        Some(Token::EndLoop)
    } else {
        None
    }
}

/// A UTF-8 continuation byte: it extends the character begun by an earlier
/// byte and therefore does not advance the column count.
pub open spec fn is_continuation_byte(b: u8) -> bool {
    128 <= b < 192
}

/// The (location, token) pairs lexed from the UTF-8 bytes of a source text,
/// starting at the given zero-based line and column.  A line feed starts a new
/// line; every other character advances the column by one, counted in
/// characters (a multi-byte character counts once, through its leading byte).
pub open spec fn spec_tokenize(bytes: Seq<u8>, line: nat, col: nat) -> Seq<(Location, Token)>
    decreases bytes.len(),
{
    if bytes.len() == 0 {
        Seq::empty()
    } else {
        let b = bytes[0];
        let rest = bytes.drop_first();
        if b == 10 {
            spec_tokenize(rest, line + 1, 0)
        } else if is_continuation_byte(b) {
            spec_tokenize(rest, line, col)
        } else {
            let here = Location { line: line as usize, col: col as usize };
            match token_of_byte(b) {
                Some(t) => seq![(here, t)] + spec_tokenize(rest, line, col + 1),
                None => spec_tokenize(rest, line, col + 1),
            }
        }
    }
}

/// Convert source text into its (location, token) sequence, skipping every
/// character that is not one of the eight instruction symbols.
pub fn tokenize(code: &str) -> (r: Vec<(Location, Token)>)
    ensures
        r@ == spec_tokenize(code.spec_bytes(), 0, 0),
{
    let bytes = code.as_bytes();
    let n = bytes.len();
    let mut r: Vec<(Location, Token)> = Vec::new();
    let mut line: usize = 0;
    let mut col: usize = 0;
    let mut i: usize = 0;
    proof {
        assert(bytes@.skip(0) =~= bytes@);
        assert(r@ + spec_tokenize(bytes@, 0, 0) =~= spec_tokenize(bytes@, 0, 0));
    }
    while i < n
        invariant
            n == bytes@.len(),
            bytes@ == code.spec_bytes(),
            i <= n,
            line <= i,
            col <= i,
            r@ + spec_tokenize(bytes@.skip(i as int), line as nat, col as nat)
                == spec_tokenize(bytes@, 0, 0),
        decreases n - i,
    {
        let b = bytes[i];
        proof {
            assert(bytes@.skip(i as int)[0] == b);
            assert(bytes@.skip(i as int).drop_first() =~= bytes@.skip(i + 1));
        }
        if b == 10 {
            line = line + 1;
            col = 0;
        } else if 128 <= b && b < 192 {
            // a continuation byte of a multi-byte comment character
        } else {
            let here = Location { line, col };
            if b == 62 {
                r.push((here, Token::Basic(Basic::MoveRight)));
            } else if b == 60 {
                r.push((here, Token::Basic(Basic::MoveLeft)));
            } else if b == 43 {
                r.push((here, Token::Basic(Basic::Increment)));
            } else if b == 45 {
                r.push((here, Token::Basic(Basic::Decrement)));
            } else if b == 46 {
                r.push((here, Token::Basic(Basic::Output)));
            } else if b == 44 {
                r.push((here, Token::Basic(Basic::Input)));
            } else if b == 91 {
                r.push((here, Token::StartLoop));
            } else if b == 93 {
                r.push((here, Token::EndLoop));
            }
            col = col + 1;
        }
        i = i + 1;
    }
    proof {
        assert(bytes@.skip(n as int) =~= Seq::<u8>::empty());
        assert(r@ + Seq::<(Location, Token)>::empty() =~= r@);
    }
    r
}

} // verus!
