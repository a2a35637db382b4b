//! Error locations extracted from lines of build or test output: the
//! plain-value parsing and formatting around the pattern matching that the
//! host application performs.

use vstd::prelude::*;
use vstd::string::StringExecFns;

verus! {

/// Recognizes `file:line:column` locations, as compilers print them.
pub const FILE_COLON_LINE_COLON_COLUMN: &'static str =
    r"(?P<file>\S+):(?P<line>[[:digit:]]+):(?P<column>[[:digit:]]+)";

/// Recognizes `file:line` locations, without a column.
pub const FILE_COLON_LINE: &'static str = r"(?P<file>\S+):(?P<line>[[:digit:]]+)";

/// Recognizes locations in Python tracebacks.
pub const PYTHON: &'static str = r#""./(?P<file>\S+)", line (?P<line>[[:digit:]]+)"#;

/// An ASCII decimal digit.
pub open spec fn is_digit_byte(b: u8) -> bool {
    0x30 <= b <= 0x39
}

/// A non-empty run of ASCII decimal digits.
pub open spec fn is_digit_seq(s: Seq<u8>) -> bool {
    s.len() > 0 && forall|i: int| 0 <= i < s.len() ==> is_digit_byte(#[trigger] s[i])
}

/// The number a run of ASCII decimal digits denotes.
pub open spec fn digits_val(s: Seq<u8>) -> int
    decreases s.len(),
{
    if s.len() == 0 {
        0
    } else {
        digits_val(s.drop_last()) * 10 + (s.last() - 0x30)
    }
}

/// A digit run that denotes a number a `u32` can hold.
pub open spec fn parses_u32(s: Seq<u8>) -> bool {
    is_digit_seq(s) && digits_val(s) <= u32::MAX
}

proof fn lemma_digits_val_nonneg(s: Seq<u8>)
    requires
        forall|i: int| 0 <= i < s.len() ==> is_digit_byte(#[trigger] s[i]),
    ensures
        digits_val(s) >= 0,
    decreases s.len(),
{
    if s.len() > 0 {
        lemma_digits_val_nonneg(s.drop_last());
    }
}

/// For a run of digits, every prefix denotes at most the whole run.
proof fn lemma_digits_val_prefix(s: Seq<u8>, k: int)
    requires
        forall|i: int| 0 <= i < s.len() ==> is_digit_byte(#[trigger] s[i]),
        0 <= k <= s.len(),
    ensures
        digits_val(s.take(k)) <= digits_val(s),
    decreases s.len() - k,
{
    if k < s.len() {
        lemma_digits_val_prefix(s, k + 1);
        assert(s.take(k + 1).drop_last() =~= s.take(k));
        assert(s.take(k + 1).last() == s[k]);
        lemma_digits_val_nonneg(s.take(k));
        assert(digits_val(s.take(k)) <= digits_val(s.take(k + 1)));
    } else {
        assert(s.take(k) =~= s);
    }
}

/// Parses a run of ASCII decimal digits as a `u32`, exactly as far as a
/// `u32` reaches: the result exists if and only if the bytes are one or
/// more digits whose value fits.
pub fn parse_u32(digits: &[u8]) -> (r: Option<u32>)
    ensures
        r is Some <==> parses_u32(digits@),
        r matches Some(v) ==> v == digits_val(digits@),
{
    let n = digits.len();
    if n == 0 {
        return None;
    }
    let mut acc: u32 = 0;
    let mut i: usize = 0;
    while i < n
        invariant
            0 <= i <= n,
            n == digits@.len(),
            forall|j: int| 0 <= j < i ==> is_digit_byte(#[trigger] digits@[j]),
            acc == digits_val(digits@.take(i as int)),
        decreases n - i,
    {
        let b = *vstd::slice::slice_index_get(digits, i);
        if b < 0x30 || b > 0x39 {
            return None;
        }
        let d = (b - 0x30) as u32;
        if acc > (u32::MAX - d) / 10 {
            // The digits seen so far already overflow a u32, so the whole
            // run does too.
            proof {
                assert(digits@.take(i + 1).drop_last() =~= digits@.take(i as int));
                assert(digits@.take(i + 1).last() == digits@[i as int]);
                assert(digits_val(digits@.take(i + 1)) > u32::MAX);
                if is_digit_seq(digits@) {
                    lemma_digits_val_prefix(digits@, i + 1);
                }
            }
            return None;
        }
        proof {
            assert(digits@.take(i + 1).drop_last() =~= digits@.take(i as int));
            assert(digits@.take(i + 1).last() == digits@[i as int]);
        }
        acc = acc * 10 + d;
        i += 1;
    }
    proof {
        assert(digits@.take(n as int) =~= digits@);
    }
    Some(acc)
}

/// The decimal notation of a number, most significant digit first and
/// without leading zeros (a single zero for zero itself).
pub open spec fn dec_str(v: int) -> Seq<char>
    decreases v,
{
    if v < 10 {
        seq![dec_digit_char(v)]
    } else {
        dec_str(v / 10).push(dec_digit_char(v % 10))
    }
}

/// The character for one decimal digit.
pub open spec fn dec_digit_char(d: int) -> char {
    if d == 0 {
        '0'
    } else if d == 1 {
        '1'
    } else if d == 2 {
        '2'
    } else if d == 3 {
        '3'
    } else if d == 4 {
        '4'
    } else if d == 5 {
        '5'
    } else if d == 6 {
        '6'
    } else if d == 7 {
        '7'
    } else if d == 8 {
        '8'
    } else {
        '9'
    }
}

fn digit_str(d: u32) -> (s: &'static str)
    requires
        d < 10,
    ensures
        s@ == seq![dec_digit_char(d as int)],
{
    let s: &'static str = if d == 0 {
        "0"
    } else if d == 1 {
        "1"
    } else if d == 2 {
        "2"
    } else if d == 3 {
        "3"
    } else if d == 4 {
        "4"
    } else if d == 5 {
        "5"
    } else if d == 6 {
        "6"
    } else if d == 7 {
        "7"
    } else if d == 8 {
        "8"
    } else {
        "9"
    };
    proof {
        reveal_strlit("0");
        reveal_strlit("1");
        reveal_strlit("2");
        reveal_strlit("3");
        reveal_strlit("4");
        reveal_strlit("5");
        reveal_strlit("6");
        reveal_strlit("7");
        reveal_strlit("8");
        reveal_strlit("9");
        assert(s@ =~= seq![dec_digit_char(d as int)]);
    }
    s
}

/// Renders a number in decimal, as `dec_str` describes it.
pub fn u32_string(v: u32) -> (s: String)
    ensures
        s@ == dec_str(v as int),
    decreases v,
{
    if v < 10 {
        String::from_str(digit_str(v))
    } else {
        let rest = u32_string(v / 10);
        let s = rest.concat(digit_str(v % 10));
        proof {
            assert(s@ =~= dec_str(v as int));
        }
        s
    }
}

/// A source location extracted from a line of output: a file path with an
/// optional line number, and an optional column that is only meaningful
/// when a line is present.
pub struct ErrorLocation {
    pub file: String,
    pub line: Option<u32>,
    pub column: Option<u32>,
}

impl ErrorLocation {
    /// Assembles a location from the raw texts a pattern match produced,
    /// parsing the numeric parts. The result exists if and only if every
    /// part that is present parses as a `u32`.
    pub fn from_parts(file: String, line: Option<&[u8]>, column: Option<&[u8]>) -> (r: Option<
        ErrorLocation,
    >)
        ensures
            r is Some <==> (line matches Some(l) ==> parses_u32(l@)) && (column matches Some(c)
                ==> parses_u32(c@)),
            r matches Some(loc) ==> {
                &&& loc.file == file
                &&& (match line {
                    Some(l) => loc.line matches Some(v) && v == digits_val(l@),
                    None => loc.line is None,
                })
                &&& (match column {
                    Some(c) => loc.column matches Some(v) && v == digits_val(c@),
                    None => loc.column is None,
                })
            },
    {
        let line_val: Option<u32> = match line {
            Some(l) => match parse_u32(l) {
                Some(v) => Some(v),
                None => {
                    return None;
                },
            },
            None => None,
        };
        let column_val: Option<u32> = match column {
            Some(c) => match parse_u32(c) {
                Some(v) => Some(v),
                None => {
                    return None;
                },
            },
            None => None,
        };
        Some(ErrorLocation { file, line: line_val, column: column_val })
    }

    /// The annotation line the host application prints under a recognized
    /// location: the file and the numeric parts, separated by `|`, with
    /// the parts that are absent left empty.
    pub fn annotation(&self) -> (s: String)
        ensures
            s@ == annotation_view(self),
    {
        proof {
            reveal_strlit("|");
        }
        let mut s = self.file.clone();
        s.append("|");
        match self.line {
            Some(l) => {
                let ls = u32_string(l);
                s.append(ls.as_str());
                s.append("|");
                match self.column {
                    Some(c) => {
                        let cs = u32_string(c);
                        s.append(cs.as_str());
                    },
                    None => {},
                }
            },
            None => {
                s.append("|");
            },
        }
        proof {
            assert(s@ =~= annotation_view(self));
        }
        s
    }
}

/// What the annotation of a location reads: `file|line|column`, with an
/// absent line or column left empty, and the column dropped when there is
/// no line for it to qualify.
pub open spec fn annotation_view(loc: &ErrorLocation) -> Seq<char> {
    match loc.line {
        Some(l) => match loc.column {
            Some(c) => loc.file@ + seq!['|'] + dec_str(l as int) + seq!['|'] + dec_str(c as int),
            None => loc.file@ + seq!['|'] + dec_str(l as int) + seq!['|'],
        },
        None => loc.file@ + seq!['|'] + seq!['|'],
    }
}

} // verus!
