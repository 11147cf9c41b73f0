//! The instruction decoder: one line of disassembly text per instruction.
//!
//! The input is a UTF-8 text buffer, handled here as its byte sequence.
//! Lines are separated by line feeds; each non-blank line is tokenized on
//! whitespace; the first token selects the opcode mnemonic; `LOAD_CONST`,
//! `STORE_FAST` and `LOAD_FAST` take one base-10 non-negative integer
//! operand. Blank (empty or whitespace-only) lines produce no instruction
//! but still count for line numbering, which is 1-based. Tokens after the
//! last one a mnemonic needs are ignored, matching permissive
//! whitespace-splitting. An operand must consist solely of decimal digits
//! (no sign) and fit in `usize`; anything else is an `InvalidOperand`.
//!
//! The spec function [`decode_spec`] gives the meaning of a whole listing;
//! [`decode`] is proved to return exactly that.

use vstd::prelude::*;

use crate::instr::Instruction;

verus! {

/// A decode-time error, reported before any execution begins. Each variant
/// carries the 1-based number of the offending line, and the offending
/// token where there is one.
#[derive(Debug, PartialEq, Eq)]
pub enum DecodeError {
    /// The first token of the line is not a known mnemonic.
    UnknownOpcode { mnemonic: Vec<u8>, line: usize },
    /// The mnemonic needs an operand but the line has no further token.
    MissingOperand { line: usize },
    /// The operand token is not a base-10 non-negative integer that fits
    /// in `usize`.
    InvalidOperand { operand: Vec<u8>, line: usize },
}

/// The mathematical shadow of [`DecodeError`]: token text as a byte
/// sequence, line numbers as unbounded integers.
pub enum SpecDecodeError {
    UnknownOpcode { mnemonic: Seq<u8>, line: int },
    MissingOperand { line: int },
    InvalidOperand { operand: Seq<u8>, line: int },
}

impl View for DecodeError {
    type V = SpecDecodeError;

    open spec fn view(&self) -> SpecDecodeError {
        match self {
            DecodeError::UnknownOpcode { mnemonic, line } => SpecDecodeError::UnknownOpcode {
                mnemonic: mnemonic@,
                line: *line as int,
            },
            DecodeError::MissingOperand { line } => SpecDecodeError::MissingOperand {
                line: *line as int,
            },
            DecodeError::InvalidOperand { operand, line } => SpecDecodeError::InvalidOperand {
                operand: operand@,
                line: *line as int,
            },
        }
    }
}

/// The byte that separates lines (ASCII line feed).
pub open spec fn is_line_break(b: u8) -> bool {
    b == 10
}

/// Whitespace that separates tokens within a line: space, horizontal tab,
/// vertical tab, form feed and carriage return (the line feed is a line
/// separator, never a token separator).
pub open spec fn is_space(b: u8) -> bool {
    b == 32 || (9 <= b && b <= 13 && b != 10)
}

/// An ASCII decimal digit.
pub open spec fn is_digit(b: u8) -> bool {
    48 <= b && b <= 57
}

/// `"LOAD_CONST"` as bytes.
pub open spec fn mn_load_const() -> Seq<u8> {
    seq![76u8, 79u8, 65u8, 68u8, 95u8, 67u8, 79u8, 78u8, 83u8, 84u8]
}

/// `"STORE_FAST"` as bytes.
pub open spec fn mn_store_fast() -> Seq<u8> {
    seq![83u8, 84u8, 79u8, 82u8, 69u8, 95u8, 70u8, 65u8, 83u8, 84u8]
}

/// `"LOAD_FAST"` as bytes.
pub open spec fn mn_load_fast() -> Seq<u8> {
    seq![76u8, 79u8, 65u8, 68u8, 95u8, 70u8, 65u8, 83u8, 84u8]
}

/// `"BINARY_ADD"` as bytes.
pub open spec fn mn_binary_add() -> Seq<u8> {
    seq![66u8, 73u8, 78u8, 65u8, 82u8, 89u8, 95u8, 65u8, 68u8, 68u8]
}

/// `"RETURN_VALUE"` as bytes.
pub open spec fn mn_return_value() -> Seq<u8> {
    seq![82u8, 69u8, 84u8, 85u8, 82u8, 78u8, 95u8, 86u8, 65u8, 76u8, 85u8, 69u8]
}

/// Index of the first line break at or after `i`, or the end of the text.
pub open spec fn line_end(text: Seq<u8>, i: int) -> int
    decreases text.len() - i,
        when 0 <= i <= text.len()
{
    if i >= text.len() {
        i
    } else if is_line_break(text[i]) {
        i
    } else {
        line_end(text, i + 1)
    }
}

pub proof fn lemma_line_end_bounds(text: Seq<u8>, i: int)
    requires
        0 <= i <= text.len(),
    ensures
        i <= line_end(text, i) <= text.len(),
    decreases text.len() - i,
{
    if i < text.len() && !is_line_break(text[i]) {
        lemma_line_end_bounds(text, i + 1);
    }
}

/// Index of the first non-whitespace byte in `[i, end)`, or `end`.
pub open spec fn skip_spaces(text: Seq<u8>, i: int, end: int) -> int
    decreases end - i,
        when 0 <= i <= end
{
    if i >= end {
        end
    } else if is_space(text[i]) {
        skip_spaces(text, i + 1, end)
    } else {
        i
    }
}

/// Index of the first whitespace byte in `[i, end)`, or `end`: the end of
/// the token that starts at `i`.
pub open spec fn token_end(text: Seq<u8>, i: int, end: int) -> int
    decreases end - i,
        when 0 <= i <= end
{
    if i >= end {
        end
    } else if is_space(text[i]) {
        i
    } else {
        token_end(text, i + 1, end)
    }
}

/// Every byte of `s` is a decimal digit.
pub open spec fn all_digits(s: Seq<u8>) -> bool {
    forall|k: int| 0 <= k < s.len() ==> is_digit(#[trigger] s[k])
}

/// The number a digit string denotes in base 10.
pub open spec fn digits_value(s: Seq<u8>) -> int
    decreases s.len(),
{
    if s.len() == 0 {
        0
    } else {
        digits_value(s.drop_last()) * 10 + (s.last() - 48)
    }
}

/// An operand token parses as a non-negative base-10 integer exactly when
/// it is non-empty, all digits, and its value fits in `usize` (a machine
/// limit: slot and constant addresses are array indices).
pub open spec fn parse_operand(s: Seq<u8>) -> Option<usize> {
    if s.len() > 0 && all_digits(s) && digits_value(s) <= usize::MAX {
        Some(digits_value(s) as usize)
    } else {
        None
    }
}

/// The operand of the line `[from, end)` whose mnemonic ends at `from`:
/// the next token, parsed; `MissingOperand` if there is none,
/// `InvalidOperand` if it does not parse.
pub open spec fn spec_operand(text: Seq<u8>, from: int, end: int, line: int) -> Result<
    usize,
    SpecDecodeError,
> {
    let s = skip_spaces(text, from, end);
    if s >= end {
        Err(SpecDecodeError::MissingOperand { line })
    } else {
        let e = token_end(text, s, end);
        let tok = text.subrange(s, e);
        match parse_operand(tok) {
            Some(v) => Ok(v),
            None => Err(SpecDecodeError::InvalidOperand { operand: tok, line }),
        }
    }
}

/// The meaning of one line, the byte range `[start, end)` of `text`:
/// `None` for a blank line, otherwise the decoded instruction or the
/// decode error of line number `line`.
pub open spec fn spec_line(text: Seq<u8>, start: int, end: int, line: int) -> Option<
    Result<Instruction, SpecDecodeError>,
> {
    let s = skip_spaces(text, start, end);
    if s >= end {
        None
    } else {
        let e = token_end(text, s, end);
        let mn = text.subrange(s, e);
        Some(
            if mn == mn_load_const() {
                match spec_operand(text, e, end, line) {
                    Ok(v) => Ok(Instruction::LoadConst(v)),
                    Err(er) => Err(er),
                }
            } else if mn == mn_store_fast() {
                match spec_operand(text, e, end, line) {
                    Ok(v) => Ok(Instruction::StoreFast(v)),
                    Err(er) => Err(er),
                }
            } else if mn == mn_load_fast() {
                match spec_operand(text, e, end, line) {
                    Ok(v) => Ok(Instruction::LoadFast(v)),
                    Err(er) => Err(er),
                }
            } else if mn == mn_binary_add() {
                Ok(Instruction::BinaryAdd)
            } else if mn == mn_return_value() {
                Ok(Instruction::ReturnValue)
            } else {
                Err(SpecDecodeError::UnknownOpcode { mnemonic: mn, line })
            },
        )
    }
}

/// Prefix a decoded prefix onto the outcome of decoding the rest.
pub open spec fn prepend_decoded(pre: Seq<Instruction>, r: Result<
    Seq<Instruction>,
    SpecDecodeError,
>) -> Result<Seq<Instruction>, SpecDecodeError> {
    match r {
        Ok(s) => Ok(pre + s),
        Err(e) => Err(e),
    }
}

/// The meaning of the listing from byte `pos` on, where the line that
/// starts at `pos` has 1-based number `line`: the instructions of the
/// remaining non-blank lines in input order, or the first decode error.
pub open spec fn decode_from(text: Seq<u8>, pos: int, line: int) -> Result<
    Seq<Instruction>,
    SpecDecodeError,
>
    decreases text.len() - pos,
        when 0 <= pos <= text.len()
        via decode_from_decreases
{
    if pos >= text.len() {
        Ok(Seq::empty())
    } else {
        let e = line_end(text, pos);
        let next = if e < text.len() {
            e + 1
        } else {
            e
        };
        match spec_line(text, pos, e, line) {
            None => decode_from(text, next, line + 1),
            Some(Err(err)) => Err(err),
            Some(Ok(ins)) => prepend_decoded(seq![ins], decode_from(text, next, line + 1)),
        }
    }
}

#[via_fn]
proof fn decode_from_decreases(text: Seq<u8>, pos: int, line: int) {
    if 0 <= pos && pos < text.len() {
        lemma_line_end_bounds(text, pos);
    }
}

/// The meaning of a whole disassembly listing: the decoded instructions of
/// its non-blank lines, in input order, or the first decode error, with
/// lines numbered from 1.
pub open spec fn decode_spec(text: Seq<u8>) -> Result<Seq<Instruction>, SpecDecodeError> {
    decode_from(text, 0, 1)
}

fn is_space_byte(b: u8) -> (r: bool)
    ensures
        r == is_space(b),
{
    b == 32 || (9 <= b && b <= 13 && b != 10)
}

fn find_line_end(src: &[u8], start: usize) -> (r: usize)
    requires
        start <= src@.len(),
    ensures
        r == line_end(src@, start as int),
        start <= r <= src@.len(),
{
    let n = src.len();
    let mut j: usize = start;
    while j < n && src[j] != 10
        invariant
            start <= j <= n,
            n == src@.len(),
            line_end(src@, start as int) == line_end(src@, j as int),
        decreases n - j,
    {
        j = j + 1;
    }
    j
}

fn find_nonspace(src: &[u8], start: usize, end: usize) -> (r: usize)
    requires
        start <= end <= src@.len(),
    ensures
        r == skip_spaces(src@, start as int, end as int),
        start <= r <= end,
{
    let mut j: usize = start;
    while j < end && is_space_byte(src[j])
        invariant
            start <= j <= end,
            end <= src@.len(),
            skip_spaces(src@, start as int, end as int) == skip_spaces(src@, j as int, end as int),
        decreases end - j,
    {
        j = j + 1;
    }
    j
}

fn find_token_end(src: &[u8], start: usize, end: usize) -> (r: usize)
    requires
        start <= end <= src@.len(),
    ensures
        r == token_end(src@, start as int, end as int),
        start <= r <= end,
{
    let mut j: usize = start;
    while j < end && !is_space_byte(src[j])
        invariant
            start <= j <= end,
            end <= src@.len(),
            token_end(src@, start as int, end as int) == token_end(src@, j as int, end as int),
        decreases end - j,
    {
        j = j + 1;
    }
    j
}

fn copy_range(src: &[u8], start: usize, end: usize) -> (r: Vec<u8>)
    requires
        start <= end <= src@.len(),
    ensures
        r@ == src@.subrange(start as int, end as int),
{
    let mut v: Vec<u8> = Vec::new();
    let mut j: usize = start;
    while j < end
        invariant
            start <= j <= end,
            end <= src@.len(),
            v@ == src@.subrange(start as int, j as int),
        decreases end - j,
    {
        v.push(src[j]);
        j = j + 1;
        proof {
            assert(v@ =~= src@.subrange(start as int, j as int));
        }
    }
    v
}

fn token_matches(src: &[u8], start: usize, end: usize, pat: &Vec<u8>) -> (r: bool)
    requires
        start <= end <= src@.len(),
    ensures
        r == (src@.subrange(start as int, end as int) == pat@),
{
    let ghost tok = src@.subrange(start as int, end as int);
    if end - start != pat.len() {
        return false;
    }
    let mut j: usize = 0;
    while j < pat.len()
        invariant
            0 <= j <= pat@.len(),
            start <= end <= src@.len(),
            end - start == pat@.len(),
            tok == src@.subrange(start as int, end as int),
            forall|k: int| 0 <= k < j ==> tok[k] == pat@[k],
        decreases pat@.len() - j,
    {
        if src[start + j] != pat[j] {
            proof {
                assert(tok[j as int] != pat@[j as int]);
            }
            return false;
        }
        j = j + 1;
    }
    proof {
        assert(tok =~= pat@);
    }
    true
}

proof fn lemma_digits_value_nonneg(s: Seq<u8>)
    requires
        all_digits(s),
    ensures
        digits_value(s) >= 0,
    decreases s.len(),
{
    if s.len() > 0 {
        assert(all_digits(s.drop_last())) by {
            assert(forall|k: int|
                0 <= k < s.len() - 1 ==> s.drop_last()[k] == #[trigger] s[k]);
        }
        lemma_digits_value_nonneg(s.drop_last());
    }
}

/// A digit string is worth at least any of its prefixes: more digits never
/// shrink the value.
proof fn lemma_digits_value_prefix(s: Seq<u8>, i: int)
    requires
        all_digits(s),
        0 <= i <= s.len(),
    ensures
        digits_value(s.take(i)) <= digits_value(s),
    decreases s.len(),
{
    if i == s.len() {
        assert(s.take(i) =~= s);
    } else {
        assert(all_digits(s.drop_last())) by {
            assert(forall|k: int|
                0 <= k < s.len() - 1 ==> s.drop_last()[k] == #[trigger] s[k]);
        }
        assert(s.drop_last().take(i) =~= s.take(i));
        lemma_digits_value_prefix(s.drop_last(), i);
        lemma_digits_value_nonneg(s.drop_last());
    }
}

fn parse_operand_at(src: &[u8], start: usize, end: usize) -> (r: Option<usize>)
    requires
        start <= end <= src@.len(),
    ensures
        r == parse_operand(src@.subrange(start as int, end as int)),
{
    let ghost tok = src@.subrange(start as int, end as int);
    if start == end {
        return None;
    }
    // First pass: every byte must be a decimal digit.
    let mut j: usize = start;
    while j < end
        invariant
            start <= j <= end,
            end <= src@.len(),
            tok == src@.subrange(start as int, end as int),
            forall|k: int| 0 <= k < j - start ==> is_digit(#[trigger] tok[k]),
        decreases end - j,
    {
        let b = src[j];
        if b < 48 || b > 57 {
            proof {
                assert(!is_digit(tok[j - start]));
            }
            return None;
        }
        j = j + 1;
    }
    proof {
        assert(all_digits(tok));
    }
    // Second pass: accumulate the value, reporting any overflow of usize.
    let mut acc: usize = 0;
    let mut i: usize = start;
    while i < end
        invariant
            start <= i <= end,
            end <= src@.len(),
            tok == src@.subrange(start as int, end as int),
            all_digits(tok),
            acc == digits_value(tok.take(i - start)),
        decreases end - i,
    {
        let b = src[i];
        proof {
            assert(is_digit(tok[i - start]));
            assert(tok.take(i - start + 1).drop_last() =~= tok.take(i - start));
            assert(tok.take(i - start + 1).last() == b);
        }
        let d = (b - 48) as usize;
        let wide: u128 = (acc as u128) * 10 + (d as u128);
        if wide > (usize::MAX as u128) {
            proof {
                assert(digits_value(tok.take(i - start + 1)) > usize::MAX);
                lemma_digits_value_prefix(tok, i - start + 1);
            }
            return None;
        }
        acc = wide as usize;
        i = i + 1;
    }
    proof {
        assert(tok.take(end - start) =~= tok);
    }
    Some(acc)
}

fn mn_load_const_bytes() -> (r: Vec<u8>)
    ensures
        r@ == mn_load_const(),
{
    let mut v: Vec<u8> = Vec::new();
    v.push(76);  // L
    v.push(79);  // O
    v.push(65);  // A
    v.push(68);  // D
    v.push(95);  // _
    v.push(67);  // C
    v.push(79);  // O
    v.push(78);  // N
    v.push(83);  // S
    v.push(84);  // T
    proof {
        assert(v@ =~= mn_load_const());
    }
    v
}

fn mn_store_fast_bytes() -> (r: Vec<u8>)
    ensures
        r@ == mn_store_fast(),
{
    let mut v: Vec<u8> = Vec::new();
    v.push(83);  // S
    v.push(84);  // T
    v.push(79);  // O
    v.push(82);  // R
    v.push(69);  // E
    v.push(95);  // _
    v.push(70);  // F
    v.push(65);  // A
    v.push(83);  // S
    v.push(84);  // T
    proof {
        assert(v@ =~= mn_store_fast());
    }
    v
}

fn mn_load_fast_bytes() -> (r: Vec<u8>)
    ensures
        r@ == mn_load_fast(),
{
    let mut v: Vec<u8> = Vec::new();
    v.push(76);  // L
    v.push(79);  // O
    v.push(65);  // A
    v.push(68);  // D
    v.push(95);  // _
    v.push(70);  // F
    v.push(65);  // A
    v.push(83);  // S
    v.push(84);  // T
    proof {
        assert(v@ =~= mn_load_fast());
    }
    v
}

fn mn_binary_add_bytes() -> (r: Vec<u8>)
    ensures
        r@ == mn_binary_add(),
{
    let mut v: Vec<u8> = Vec::new();
    v.push(66);  // B
    v.push(73);  // I
    v.push(78);  // N
    v.push(65);  // A
    v.push(82);  // R
    v.push(89);  // Y
    v.push(95);  // _
    v.push(65);  // A
    v.push(68);  // D
    v.push(68);  // D
    proof {
        assert(v@ =~= mn_binary_add());
    }
    v
}

fn mn_return_value_bytes() -> (r: Vec<u8>)
    ensures
        r@ == mn_return_value(),
{
    let mut v: Vec<u8> = Vec::new();
    v.push(82);  // R
    v.push(69);  // E
    v.push(84);  // T
    v.push(85);  // U
    v.push(82);  // R
    v.push(78);  // N
    v.push(95);  // _
    v.push(86);  // V
    v.push(65);  // A
    v.push(76);  // L
    v.push(85);  // U
    v.push(69);  // E
    proof {
        assert(v@ =~= mn_return_value());
    }
    v
}

/// What an executable operand result means at the spec level.
pub open spec fn operand_result_view(r: Result<usize, DecodeError>) -> Result<
    usize,
    SpecDecodeError,
> {
    match r {
        Ok(v) => Ok(v),
        Err(e) => Err(e@),
    }
}

/// What an executable line result means at the spec level.
pub open spec fn line_result_view(r: Option<Result<Instruction, DecodeError>>) -> Option<
    Result<Instruction, SpecDecodeError>,
> {
    match r {
        None => None,
        Some(Ok(i)) => Some(Ok(i)),
        Some(Err(e)) => Some(Err(e@)),
    }
}

fn decode_operand_at(src: &[u8], from: usize, end: usize, line_no: usize) -> (r: Result<
    usize,
    DecodeError,
>)
    requires
        from <= end <= src@.len(),
    ensures
        operand_result_view(r) == spec_operand(src@, from as int, end as int, line_no as int),
{
    let s = find_nonspace(src, from, end);
    if s == end {
        return Err(DecodeError::MissingOperand { line: line_no });
    }
    let e = find_token_end(src, s, end);
    match parse_operand_at(src, s, e) {
        Some(v) => Ok(v),
        None => Err(
            DecodeError::InvalidOperand { operand: copy_range(src, s, e), line: line_no },
        ),
    }
}

fn decode_line_at(src: &[u8], start: usize, end: usize, line_no: usize) -> (r: Option<
    Result<Instruction, DecodeError>,
>)
    requires
        start <= end <= src@.len(),
    ensures
        line_result_view(r) == spec_line(src@, start as int, end as int, line_no as int),
{
    let s = find_nonspace(src, start, end);
    if s == end {
        return None;
    }
    let e = find_token_end(src, s, end);
    if token_matches(src, s, e, &mn_load_const_bytes()) {
        match decode_operand_at(src, e, end, line_no) {
            Ok(v) => Some(Ok(Instruction::LoadConst(v))),
            Err(er) => Some(Err(er)),
        }
    } else if token_matches(src, s, e, &mn_store_fast_bytes()) {
        match decode_operand_at(src, e, end, line_no) {
            Ok(v) => Some(Ok(Instruction::StoreFast(v))),
            Err(er) => Some(Err(er)),
        }
    } else if token_matches(src, s, e, &mn_load_fast_bytes()) {
        match decode_operand_at(src, e, end, line_no) {
            Ok(v) => Some(Ok(Instruction::LoadFast(v))),
            Err(er) => Some(Err(er)),
        }
    } else if token_matches(src, s, e, &mn_binary_add_bytes()) {
        Some(Ok(Instruction::BinaryAdd))
    } else if token_matches(src, s, e, &mn_return_value_bytes()) {
        Some(Ok(Instruction::ReturnValue))
    } else {
        Some(
            Err(
                DecodeError::UnknownOpcode { mnemonic: copy_range(src, s, e), line: line_no },
            ),
        )
    }
}

/// Decode a whole disassembly listing, given as the bytes of its text.
///
/// Returns the instructions of the non-blank lines in input order, or the
/// first decode error; the outcome is exactly [`decode_spec`] of the
/// input. Malformed input is an ordinary reported error, never a panic.
pub fn decode(src: &[u8]) -> (r: Result<Vec<Instruction>, DecodeError>)
    ensures
        ({
            match r {
                Ok(v) => decode_spec(src@) == Ok::<Seq<Instruction>, SpecDecodeError>(v@),
                Err(e) => decode_spec(src@) == Err::<Seq<Instruction>, SpecDecodeError>(e@),
            }
        }),
{
    let n = src.len();
    let mut out: Vec<Instruction> = Vec::new();
    let mut pos: usize = 0;
    let mut line_no: usize = 1;
    proof {
        assert(Seq::<Instruction>::empty() + decode_spec(src@)->Ok_0 =~= decode_spec(src@)->Ok_0);
    }
    while pos < n
        invariant
            pos <= n,
            n == src@.len(),
            1 <= line_no,
            line_no as int <= pos as int + 1,
            prepend_decoded(out@, decode_from(src@, pos as int, line_no as int)) == decode_spec(
                src@,
            ),
        decreases n - pos,
    {
        let e = find_line_end(src, pos);
        let next = if e < n {
            e + 1
        } else {
            e
        };
        let ghost out_old = out@;
        let ghost d_rest = decode_from(src@, next as int, line_no as int + 1);
        match decode_line_at(src, pos, e, line_no) {
            None => {},
            Some(Ok(ins)) => {
                out.push(ins);
                proof {
                    if d_rest is Ok {
                        assert(out_old + (seq![ins] + d_rest->Ok_0) =~= out@ + d_rest->Ok_0);
                    }
                }
            },
            Some(Err(err)) => {
                return Err(err);
            },
        }
        pos = next;
        if pos < n {
            line_no = line_no + 1;
        } else {
            proof {
                assert(decode_from(src@, pos as int, line_no as int) == decode_from(
                    src@,
                    pos as int,
                    line_no as int + 1,
                ));
            }
        }
    }
    proof {
        assert(out@ + Seq::<Instruction>::empty() =~= out@);
    }
    Ok(out)
}

} // verus!
