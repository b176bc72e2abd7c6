use vstd::prelude::*;
use vstd::string::StringSliceAdditionalSpecFns;

verus! {

/// The I/O strategy: how the single output and input instructions map onto
/// the outside byte channel.  `Std` moves raw bytes on the standard streams;
/// `Num` reads and writes the byte as a base-10 textual number.
#[derive(Debug, Clone, Copy, PartialEq, Eq, Structural)]
pub enum IoKind {
    Std,
    Num,
}

/// The suffix naming the I/O strategy, as the command line spells it and as
/// the generated assembly names its I/O subroutines.
pub open spec fn io_suffix(io: IoKind) -> Seq<char> {
    match io {
        IoKind::Std => "std"@,
        IoKind::Num => "num"@,
    }
}

/// The name of the I/O strategy.
pub fn io_name(io: &IoKind) -> (r: &'static str)
    ensures
        r@ == io_suffix(*io),
{
    match io {
        IoKind::Std => "std",
        IoKind::Num => "num",
    }
}

/// The line the numeric strategy prints for one output byte: the word
/// `output`, the byte's decimal value, and a line feed.
pub fn number_output_line(b: u8) -> (r: String)
    ensures
        r@ == "output: "@ + crate::decimal::dec_digits(b as nat) + "\n"@,
{
    let digits = crate::decimal::dec_string_u64(b as u64);
    let mut out = String::new();
    out.append("output: ");
    out.append(digits.as_str());
    out.append("\n");
    proof {
        assert(out@ =~= "output: "@ + crate::decimal::dec_digits(b as nat) + "\n"@);
    }
    out
}

/// Drop every carriage-return byte from an input stream, as the raw
/// standard-stream reader does so that files with either line ending feed
/// the same bytes to a program.
pub fn strip_carriage_returns(bytes: &Vec<u8>) -> (r: Vec<u8>)
    ensures
        r@ == bytes@.filter(|b: u8| b != 13),
{
    let ghost pred = |b: u8| b != 13;
    let mut r: Vec<u8> = Vec::new();
    let n = bytes.len();
    let mut i: usize = 0;
    proof {
        reveal(Seq::filter);
        assert(bytes@.subrange(0, 0) =~= Seq::<u8>::empty());
        assert(r@ =~= bytes@.subrange(0, 0).filter(pred));
    }
    while i < n
        invariant
            n == bytes@.len(),
            i <= n,
            r@ == bytes@.subrange(0, i as int).filter(pred),
            pred == (|b: u8| b != 13),
        decreases n - i,
    {
        let b = bytes[i];
        proof {
            reveal(Seq::filter);
            assert(bytes@.subrange(0, i + 1).drop_last() =~= bytes@.subrange(0, i as int));
            assert(bytes@.subrange(0, i + 1).last() == b);
        }
        if b != 13 {
            r.push(b);
        }
        i = i + 1;
    }
    proof {
        assert(bytes@.subrange(0, n as int) =~= bytes@);
    }
    r
}

/// Why a line of text does not parse as one decimal byte.
#[derive(Debug, Clone, Copy, PartialEq, Eq, Structural)]
pub enum NumParseError {
    /// Nothing but whitespace on the line.
    Empty,
    /// A character that is not a decimal digit (after an optional leading
    /// plus sign), or a sign with no digits after it.
    InvalidDigit,
    /// A well-formed number too large for one byte.
    Overflow,
}

/// An ASCII whitespace byte.
pub open spec fn is_ascii_space(b: u8) -> bool {
    b == 32 || (9 <= b && b <= 13)
}

/// An ASCII decimal digit byte.
pub open spec fn is_ascii_digit(b: u8) -> bool {
    48 <= b && b <= 57
}

/// The length in bytes of the Unicode white-space character that `s`
/// starts with, or zero if it starts with anything else.  These are the
/// characters with the White_Space property, by their UTF-8 encodings:
/// the ASCII whitespace bytes; next line and no-break space; the Ogham
/// space mark; en quad through hair space, the line and paragraph
/// separators and the narrow no-break space; the medium mathematical
/// space; and the ideographic space.
pub open spec fn leading_space_len(s: Seq<u8>) -> nat {
    if s.len() >= 1 && is_ascii_space(s[0]) {
        1
    } else if s.len() >= 2 && s[0] == 0xc2 && (s[1] == 0x85 || s[1] == 0xa0) {
        2
    } else if s.len() >= 3 && s[0] == 0xe1 && s[1] == 0x9a && s[2] == 0x80 {
        3
    } else if s.len() >= 3 && s[0] == 0xe2 && s[1] == 0x80 && (s[2] == 0xa8 || s[2] == 0xa9
        || s[2] == 0xaf || (0x80 <= s[2] && s[2] <= 0x8a)) {
        3
    } else if s.len() >= 3 && s[0] == 0xe2 && s[1] == 0x81 && s[2] == 0x9f {
        3
    } else if s.len() >= 3 && s[0] == 0xe3 && s[1] == 0x80 && s[2] == 0x80 {
        3
    } else {
        0
    }
}

/// The length in bytes of the Unicode white-space character that `s` ends
/// with, or zero.  In valid UTF-8 the match is unambiguous: a lead byte
/// never doubles as a continuation byte.
pub open spec fn trailing_space_len(s: Seq<u8>) -> nat {
    let n = s.len() as int;
    if n >= 1 && is_ascii_space(s[n - 1]) {
        1
    } else if n >= 2 && s[n - 2] == 0xc2 && (s[n - 1] == 0x85 || s[n - 1] == 0xa0) {
        2
    } else if n >= 3 && s[n - 3] == 0xe1 && s[n - 2] == 0x9a && s[n - 1] == 0x80 {
        3
    } else if n >= 3 && s[n - 3] == 0xe2 && s[n - 2] == 0x80 && (s[n - 1] == 0xa8 || s[n - 1]
        == 0xa9 || s[n - 1] == 0xaf || (0x80 <= s[n - 1] && s[n - 1] <= 0x8a)) {
        3
    } else if n >= 3 && s[n - 3] == 0xe2 && s[n - 2] == 0x81 && s[n - 1] == 0x9f {
        3
    } else if n >= 3 && s[n - 3] == 0xe3 && s[n - 2] == 0x80 && s[n - 1] == 0x80 {
        3
    } else {
        0
    }
}

/// The bytes of `s` with leading and trailing Unicode white space dropped,
/// as a line of input is trimmed before parsing.
pub open spec fn trimmed(s: Seq<u8>) -> Seq<u8>
    decreases s.len(),
{
    if leading_space_len(s) > 0 {
        trimmed(s.skip(leading_space_len(s) as int))
    } else if trailing_space_len(s) > 0 {
        trimmed(s.take(s.len() - trailing_space_len(s)))
    } else {
        s
    }
}

/// Parse a digit run left to right, accumulating into `acc`, exactly as a
/// byte value is read: a non-digit stops with an invalid-digit error, a
/// value past 255 stops with an overflow error, and the digits' value is
/// returned once the run is exhausted.
pub open spec fn parse_digits(ds: Seq<u8>, i: int, acc: nat) -> Result<u8, NumParseError>
    decreases ds.len() - i,
{
    if i < 0 || i >= ds.len() {
        Ok(acc as u8)
    } else if !is_ascii_digit(ds[i]) {
        Err(NumParseError::InvalidDigit)
    } else {
        let v = acc * 10 + (ds[i] - 48) as nat;
        if v > 255 {
            Err(NumParseError::Overflow)
        } else {
            parse_digits(ds, i + 1, v)
        }
    }
}

/// The byte value that a whole input line denotes: the line is trimmed of
/// Unicode white space, may carry one leading plus sign, and must then be
/// a run of one or more decimal digits whose value fits in a byte.
pub open spec fn parse_cell_spec(s: Seq<u8>) -> Result<u8, NumParseError> {
    let t = trimmed(s);
    if t.len() == 0 {
        Err(NumParseError::Empty)
    } else {
        let ds = if t[0] == 43 {
            t.drop_first()
        } else {
            t
        };
        if ds.len() == 0 {
            Err(NumParseError::InvalidDigit)
        } else {
            parse_digits(ds, 0, 0)
        }
    }
}

/// Parse one line of numeric input into a cell value, classifying failures
/// as the interactive reader reports them.
pub fn parse_cell_value(line: &str) -> (r: Result<u8, NumParseError>)
    ensures
        r == parse_cell_spec(line.spec_bytes()),
{
    let bytes = line.as_bytes();
    let n = bytes.len();

    let mut start: usize = 0;
    let mut end: usize = n;
    proof {
        assert(bytes@.subrange(0, n as int) =~= bytes@);
    }
    let mut k = leading_space(bytes, start, end);
    while k > 0
        invariant
            n == bytes@.len(),
            0 <= start <= end <= n,
            end == n,
            k as nat == leading_space_len(bytes@.subrange(start as int, end as int)),
            trimmed(bytes@) == trimmed(bytes@.subrange(start as int, end as int)),
        decreases end - start,
    {
        proof {
            let sub = bytes@.subrange(start as int, end as int);
            assert(k as nat <= sub.len());
            assert(sub.skip(k as int) =~= bytes@.subrange(start + k as int, end as int));
        }
        start = start + k;
        k = leading_space(bytes, start, end);
    }
    let mut j = trailing_space(bytes, start, end);
    while j > 0
        invariant
            n == bytes@.len(),
            0 <= start <= end <= n,
            j as nat == trailing_space_len(bytes@.subrange(start as int, end as int)),
            leading_space_len(bytes@.subrange(start as int, end as int)) == 0,
            trimmed(bytes@) == trimmed(bytes@.subrange(start as int, end as int)),
        decreases end - start,
    {
        proof {
            let sub = bytes@.subrange(start as int, end as int);
            assert(j as nat <= sub.len());
            let sub2 = bytes@.subrange(start as int, end - j as int);
            assert(sub.take(sub.len() - j as nat) =~= sub2);
            assert forall|q: int| 0 <= q < sub2.len() implies sub2[q] == sub[q] by {
            }
        }
        end = end - j;
        j = trailing_space(bytes, start, end);
    }
    proof {
        let sub = bytes@.subrange(start as int, end as int);
        assert(trimmed(sub) == sub);
        assert(trimmed(bytes@) == sub);
    }

    if start == end {
        return Err(NumParseError::Empty);
    }

    if bytes[start] == 43 {
        start = start + 1;
        proof {
            assert(trimmed(bytes@).drop_first() =~= bytes@.subrange(start as int, end as int));
        }
    }
    if start == end {
        return Err(NumParseError::InvalidDigit);
    }

    let ghost ds = bytes@.subrange(start as int, end as int);
    proof {
        assert(parse_cell_spec(line.spec_bytes()) == parse_digits(ds, 0, 0));
    }
    let mut acc: u16 = 0;
    let mut i: usize = start;
    while i < end
        invariant
            n == bytes@.len(),
            bytes@ == line.spec_bytes(),
            start <= i <= end <= n,
            ds == bytes@.subrange(start as int, end as int),
            acc <= 255,
            parse_digits(ds, 0, 0) == parse_digits(ds, i - start, acc as nat),
            parse_cell_spec(line.spec_bytes()) == parse_digits(ds, 0, 0),
        decreases end - i,
    {
        let b = bytes[i];
        proof {
            assert(ds[i - start] == bytes@[i as int]);
        }
        if !(48 <= b && b <= 57) {
            return Err(NumParseError::InvalidDigit);
        }
        let v: u16 = acc * 10 + (b - 48) as u16;
        if v > 255 {
            return Err(NumParseError::Overflow);
        }
        acc = v;
        i = i + 1;
    }
    Ok(acc as u8)
}

/// The byte length of the white-space character at the front of the
/// window `bytes[start..end]`, if any.
fn leading_space(bytes: &[u8], start: usize, end: usize) -> (k: usize)
    requires
        start <= end <= bytes@.len(),
    ensures
        k as nat == leading_space_len(bytes@.subrange(start as int, end as int)),
{
    let ghost s = bytes@.subrange(start as int, end as int);
    let n = end - start;
    if n >= 1 {
        let b0 = bytes[start];
        proof {
            assert(s[0] == bytes@[start as int]);
        }
        if b0 == 32 || (9 <= b0 && b0 <= 13) {
            return 1;
        }
        if n >= 2 {
            let b1 = bytes[start + 1];
            proof {
                assert(s[1] == bytes@[start + 1]);
            }
            if b0 == 0xc2 && (b1 == 0x85 || b1 == 0xa0) {
                return 2;
            }
            if n >= 3 {
                let b2 = bytes[start + 2];
                proof {
                    assert(s[2] == bytes@[start + 2]);
                }
                if (b0 == 0xe1 && b1 == 0x9a && b2 == 0x80) || (b0 == 0xe2 && b1 == 0x80 && (b2
                    == 0xa8 || b2 == 0xa9 || b2 == 0xaf || (0x80 <= b2 && b2 <= 0x8a))) || (b0
                    == 0xe2 && b1 == 0x81 && b2 == 0x9f) || (b0 == 0xe3 && b1 == 0x80 && b2
                    == 0x80) {
                    return 3;
                }
            }
        }
    }
    0
}

/// The byte length of the white-space character at the back of the window
/// `bytes[start..end]`, if any.
fn trailing_space(bytes: &[u8], start: usize, end: usize) -> (k: usize)
    requires
        start <= end <= bytes@.len(),
    ensures
        k as nat == trailing_space_len(bytes@.subrange(start as int, end as int)),
{
    let ghost s = bytes@.subrange(start as int, end as int);
    let n = end - start;
    if n >= 1 {
        let b1 = bytes[end - 1];
        proof {
            assert(s[s.len() - 1] == bytes@[end - 1]);
        }
        if b1 == 32 || (9 <= b1 && b1 <= 13) {
            return 1;
        }
        if n >= 2 {
            let b2 = bytes[end - 2];
            proof {
                assert(s[s.len() - 2] == bytes@[end - 2]);
            }
            if b2 == 0xc2 && (b1 == 0x85 || b1 == 0xa0) {
                return 2;
            }
            if n >= 3 {
                let b3 = bytes[end - 3];
                proof {
                    assert(s[s.len() - 3] == bytes@[end - 3]);
                }
                if (b3 == 0xe1 && b2 == 0x9a && b1 == 0x80) || (b3 == 0xe2 && b2 == 0x80 && (b1
                    == 0xa8 || b1 == 0xa9 || b1 == 0xaf || (0x80 <= b1 && b1 <= 0x8a))) || (b3
                    == 0xe2 && b2 == 0x81 && b1 == 0x9f) || (b3 == 0xe3 && b2 == 0x80 && b1
                    == 0x80) {
                    return 3;
                }
            }
        }
    }
    0
}

} // verus!
