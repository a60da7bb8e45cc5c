//! Lexical tokens of C0 and the parts of lexing that compute on the text: numeric
//! constants, character literals and nested block comments.
use vstd::prelude::*;

verus! {

/// Lexical tokens of the C0 language.
pub enum Token<'a> {
    LParen,
    RParen,
    LBrace,
    RBrace,
    LBracket,
    RBracket,
    LBracketRBracket,
    Tilde,
    Colon,
    Comma,
    Semicolon,
    Question,
    Period,
    Arrow,
    Equal,
    EqualEqual,
    Bang,
    BangEqual,
    Hyphen,
    HyphenHyphen,
    HyphenEqual,
    Plus,
    PlusPlus,
    PlusEqual,
    Asterisk,
    AsteriskEqual,
    FSlash,
    FSlashEqual,
    Percent,
    PercentEqual,
    Ampersand,
    AmpersandAmpersand,
    AmpersandEqual,
    Caret,
    CaretEqual,
    Pipe,
    PipePipe,
    PipeEqual,
    Lt,
    LtLt,
    LtEqual,
    LtLtEqual,
    Gt,
    GtGt,
    GtEqual,
    GtGtEqual,
    If,
    Else,
    While,
    For,
    Return,
    Assert,
    Int,
    Bool,
    Char,
    Void,
    Typedef,
    Struct,
    Alloc,
    AllocArray,
    Ident(&'a str),
    Number(i64),
    True,
    False,
    CharLit(i8),
    Null,
    Comment,
    Error,
}

/// Value of a decimal digit byte.
pub open spec fn digit_value(b: u8) -> int {
    b - 48
}

/// Value of a hexadecimal digit byte (either case).
pub open spec fn hex_value(b: u8) -> int {
    if 48 <= b <= 57 {
        b - 48
    } else if 97 <= b <= 102 {
        b - 87
    } else {
        b - 55
    }
}

/// The byte is a decimal digit.
pub open spec fn is_digit(b: u8) -> bool {
    48 <= b <= 57
}

/// The byte is a hexadecimal digit.
pub open spec fn is_hex_digit(b: u8) -> bool {
    (48 <= b <= 57) || (97 <= b <= 102) || (65 <= b <= 70)
}

/// Value of a sequence of decimal digits.
pub open spec fn decimal_value(s: Seq<u8>) -> int
    decreases s.len(),
{
    if s.len() == 0 {
        0
    } else {
        decimal_value(s.drop_last()) * 10 + digit_value(s.last())
    }
}

/// Value of a sequence of hexadecimal digits.
pub open spec fn hex_sequence_value(s: Seq<u8>) -> int
    decreases s.len(),
{
    if s.len() == 0 {
        0
    } else {
        hex_sequence_value(s.drop_last()) * 16 + hex_value(s.last())
    }
}

proof fn lemma_decimal_nonneg(s: Seq<u8>)
    requires
        forall|i: int| 0 <= i < s.len() ==> is_digit(#[trigger] s[i]),
    ensures
        decimal_value(s) >= 0,
    decreases s.len(),
{
    if s.len() > 0 {
        lemma_decimal_nonneg(s.drop_last());
    }
}

proof fn lemma_hex_nonneg(s: Seq<u8>)
    requires
        forall|i: int| 0 <= i < s.len() ==> is_hex_digit(#[trigger] s[i]),
    ensures
        hex_sequence_value(s) >= 0,
    decreases s.len(),
{
    if s.len() > 0 {
        lemma_hex_nonneg(s.drop_last());
    }
}

/// Largest decimal constant: the magnitude of the least 32-bit integer.
pub const DECIMAL_LIMIT: i64 = 2147483648;

/// Largest hexadecimal constant.
pub const HEX_LIMIT: i64 = 4294967295;

/// Value of a decimal constant; `None` when a byte is not a digit, there are no digits,
/// or the value exceeds 2147483648.
pub fn parse_decimal(digits: &[u8]) -> (r: Option<i64>)
    ensures
        r is Some <==> (digits@.len() > 0 && (forall|i: int| 0 <= i < digits@.len() ==> is_digit(#[trigger] digits@[i]))
            && decimal_value(digits@) <= DECIMAL_LIMIT),
        r matches Some(v) ==> v == decimal_value(digits@),
{
    if digits.len() == 0 {
        return None;
    }
    let mut value: i64 = 0;
    let mut i: usize = 0;
    while i < digits.len()
        invariant
            i <= digits@.len(),
            forall|j: int| 0 <= j < i ==> is_digit(#[trigger] digits@[j]),
            value == decimal_value(digits@.take(i as int)),
            0 <= value <= DECIMAL_LIMIT,
        decreases digits@.len() - i,
    {
        let b = digits[i];
        proof { assert(digits@.take(i as int + 1).drop_last() =~= digits@.take(i as int)); }
        if b < 48 || b > 57 {
            return None;
        }
        let next = value * 10 + (b - 48) as i64;
        if next > DECIMAL_LIMIT {
            proof {
                if forall|j: int| 0 <= j < digits@.len() ==> is_digit(#[trigger] digits@[j]) {
                    lemma_decimal_prefix_bound(digits@, i as int + 1);
                }
            }
            return None;
        }
        value = next;
        i = i + 1;
    }
    assert(digits@.take(digits@.len() as int) =~= digits@);
    Some(value)
}

/// The value of digits grows with each digit added.
proof fn lemma_decimal_prefix_bound(s: Seq<u8>, k: int)
    requires
        0 <= k <= s.len(),
        forall|i: int| 0 <= i < s.len() ==> is_digit(#[trigger] s[i]),
    ensures
        decimal_value(s) >= decimal_value(s.take(k)),
    decreases s.len() - k,
{
    if k < s.len() {
        lemma_decimal_prefix_bound(s, k + 1);
        assert(s.take(k + 1).drop_last() =~= s.take(k));
        lemma_decimal_nonneg(s.take(k));
    } else {
        assert(s.take(k) =~= s);
    }
}

/// The value of hexadecimal digits grows with each digit added.
proof fn lemma_hex_prefix_bound(s: Seq<u8>, k: int)
    requires
        0 <= k <= s.len(),
        forall|i: int| 0 <= i < s.len() ==> is_hex_digit(#[trigger] s[i]),
    ensures
        hex_sequence_value(s) >= hex_sequence_value(s.take(k)),
    decreases s.len() - k,
{
    if k < s.len() {
        lemma_hex_prefix_bound(s, k + 1);
        assert(s.take(k + 1).drop_last() =~= s.take(k));
        lemma_hex_nonneg(s.take(k));
    } else {
        assert(s.take(k) =~= s);
    }
}

/// Value of the digits of a hexadecimal constant (after `0x`); `None` when a byte is
/// not a hexadecimal digit, there are no digits, or the value exceeds 0xffffffff.
pub fn parse_hex(digits: &[u8]) -> (r: Option<i64>)
    ensures
        r is Some <==> (digits@.len() > 0 && (forall|i: int| 0 <= i < digits@.len() ==> is_hex_digit(#[trigger] digits@[i]))
            && hex_sequence_value(digits@) <= HEX_LIMIT),
        r matches Some(v) ==> v == hex_sequence_value(digits@),
{
    if digits.len() == 0 {
        return None;
    }
    let mut value: i64 = 0;
    let mut i: usize = 0;
    while i < digits.len()
        invariant
            i <= digits@.len(),
            forall|j: int| 0 <= j < i ==> is_hex_digit(#[trigger] digits@[j]),
            value == hex_sequence_value(digits@.take(i as int)),
            0 <= value <= HEX_LIMIT,
        decreases digits@.len() - i,
    {
        let b = digits[i];
        proof { assert(digits@.take(i as int + 1).drop_last() =~= digits@.take(i as int)); }
        let d: i64 = if 48 <= b && b <= 57 {
            (b - 48) as i64
        } else if 97 <= b && b <= 102 {
            (b - 87) as i64
        } else if 65 <= b && b <= 70 {
            (b - 55) as i64
        } else {
            return None;
        };
        let next = value * 16 + d;
        if next > HEX_LIMIT {
            proof {
                if forall|j: int| 0 <= j < digits@.len() ==> is_hex_digit(#[trigger] digits@[j]) {
                    lemma_hex_prefix_bound(digits@, i as int + 1);
                }
            }
            return None;
        }
        value = next;
        i = i + 1;
    }
    assert(digits@.take(digits@.len() as int) =~= digits@);
    Some(value)
}

/// Value of the inside of a character literal (between the quotes): a printable ASCII
/// character, or a backslash and one of `t r f a b n v ' " 0 \`.
pub open spec fn char_literal_spec(inner: Seq<u8>) -> Option<i8> {
    if inner.len() == 1 {
        if 32 <= inner[0] <= 126 { Some(inner[0] as i8) } else { None }
    } else if inner.len() == 2 && inner[0] == 92 {
        let e = inner[1];
        if e == 116 { Some(9i8) }
        else if e == 114 { Some(13i8) }
        else if e == 102 { Some(12i8) }
        else if e == 97 { Some(7i8) }
        else if e == 98 { Some(8i8) }
        else if e == 110 { Some(10i8) }
        else if e == 118 { Some(11i8) }
        else if e == 39 { Some(39i8) }
        else if e == 34 { Some(34i8) }
        else if e == 48 { Some(0i8) }
        else if e == 92 { Some(92i8) }
        else { None }
    } else {
        None
    }
}

/// Get the value of the inside of a character literal; `None` for anything that is not
/// a printable character or a known escape.
pub fn parse_char_literal(inner: &[u8]) -> (r: Option<i8>)
    ensures
        r == char_literal_spec(inner@),
{
    if inner.len() == 1 {
        let byte = inner[0];
        if 32 <= byte && byte <= 126 {
            return Some(byte as i8);
        }
        return None;
    }
    if inner.len() != 2 || inner[0] != 92 {
        return None;
    }
    let e = inner[1];
    if e == 116 { Some(9) }
    else if e == 114 { Some(13) }
    else if e == 102 { Some(12) }
    else if e == 97 { Some(7) }
    else if e == 98 { Some(8) }
    else if e == 110 { Some(10) }
    else if e == 118 { Some(11) }
    else if e == 39 { Some(39) }
    else if e == 34 { Some(34) }
    else if e == 48 { Some(0) }
    else if e == 92 { Some(92) }
    else { None }
}

/// Nesting depth of block comments after reading `s` from depth `d`, or `None` once it
/// has dropped to zero (the comment closed).
pub open spec fn comment_depth(s: Seq<u8>, d: int) -> Option<int>
    decreases s.len(),
{
    if d == 0 {
        None
    } else if s.len() < 2 {
        Some(d)
    } else if s[0] == 47 && s[1] == 42 {
        comment_depth(s.subrange(2, s.len() as int), d + 1)
    } else if s[0] == 42 && s[1] == 47 {
        comment_depth(s.subrange(2, s.len() as int), d - 1)
    } else {
        comment_depth(s.subrange(1, s.len() as int), d)
    }
}

/// Length of the rest of a block comment whose opening `/*` was read, nested comments
/// included: the number of bytes up to and including the matching `*/`. `None` when the
/// comment is not closed.
pub open spec fn comment_end(s: Seq<u8>, d: int, consumed: int) -> Option<int>
    decreases s.len(),
{
    if s.len() < 2 {
        None
    } else if s[0] == 47 && s[1] == 42 {
        comment_end(s.subrange(2, s.len() as int), d + 1, consumed + 2)
    } else if s[0] == 42 && s[1] == 47 {
        if d - 1 == 0 {
            Some(consumed + 2)
        } else {
            comment_end(s.subrange(2, s.len() as int), d - 1, consumed + 2)
        }
    } else {
        comment_end(s.subrange(1, s.len() as int), d, consumed + 1)
    }
}

/// Number of bytes of the remainder of a (possibly nested) block comment, after its
/// opening `/*`, up to and including the `*/` that closes it; `None` when it is not
/// closed.
pub fn skip_block_comment(remainder: &[u8]) -> (r: Option<usize>)
    ensures
        r matches Some(n) ==> Some(n as int) == comment_end(remainder@, 1, 0),
        r is None <==> comment_end(remainder@, 1, 0) is None,
{
    let mut depth: usize = 1;
    let mut idx: usize = 0;
    assert(remainder@.subrange(0, remainder@.len() as int) =~= remainder@);
    while remainder.len() - idx > 1
        invariant
            idx <= remainder@.len(),
            1 <= depth <= idx + 1,
            comment_end(remainder@, 1, 0) == comment_end(remainder@.subrange(idx as int, remainder@.len() as int), depth as int, idx as int),
        decreases remainder@.len() - idx,
    {
        let ghost rest = remainder@.subrange(idx as int, remainder@.len() as int);
        assert(rest[0] == remainder@[idx as int] && rest[1] == remainder@[idx as int + 1]);
        if remainder[idx] == 47 && remainder[idx + 1] == 42 {
            assert(rest.subrange(2, rest.len() as int) =~= remainder@.subrange(idx as int + 2, remainder@.len() as int));
            depth = depth + 1;
            idx = idx + 2;
            continue;
        }
        if remainder[idx] == 42 && remainder[idx + 1] == 47 {
            assert(rest.subrange(2, rest.len() as int) =~= remainder@.subrange(idx as int + 2, remainder@.len() as int));
            depth = depth - 1;
            idx = idx + 2;
            if depth == 0 {
                return Some(idx);
            }
            continue;
        }
        assert(rest.subrange(1, rest.len() as int) =~= remainder@.subrange(idx as int + 1, remainder@.len() as int));
        idx = idx + 1;
    }
    None
}

} // verus!
