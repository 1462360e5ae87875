use vstd::prelude::*;
use crate::error::AssemblerError;
use crate::text::{
    CharClass, in_class, is_letter, is_reg_letter, is_dec_digit, is_hex_digit, is_bin_digit,
    spec_scan, scan, spec_trim, trim, copy_range, spec_split_from, split_from, str_to_chars,
    lemma_scan_bounds,
};
use crate::instruction::{
    Instr, InstrModel, SInstrIdent, IInstrIdent, RInstrIdent, RegisterIdent, instr_view,
    program_view, program_wf,
};
use crate::literal::{spec_parse_value, parse_value};

verus! {

/// The class a source line falls in: one of the three instruction shapes, a
/// `#value` directive, a label, or an empty/comment line.
#[derive(Clone, Copy, Debug, PartialEq, Eq, Structural)]
pub enum LineType {
    SInstr,
    IInstr,
    RInstr,
    Value,
    Label,
    Empty,
}

/// The four line grammars, tried in this fixed priority order.
#[derive(Clone, Copy, Debug, PartialEq, Eq, Structural)]
pub enum Pattern {
    ValueDir,
    RShape,
    IShape,
    SShape,
}

// --- The grammar, as a deterministic match relation over positions. ---

/// A register operand `%x` at `i`: two characters, `%` and a register
/// letter.
pub open spec fn spec_match_reg(s: Seq<char>, i: int) -> Option<int> {
    if i + 2 <= s.len() && s[i] == '%' && is_reg_letter(s[i + 1]) {
        Some(i + 2)
    } else {
        None
    }
}

/// An operand separator: optional spaces, a comma, optional spaces.
pub open spec fn spec_match_sep(s: Seq<char>, i: int) -> Option<int>
    recommends
        0 <= i <= s.len(),
{
    let j = spec_scan(s, i, CharClass::Blank);
    if j < s.len() && s[j] == ',' {
        Some(spec_scan(s, j + 1, CharClass::Blank))
    } else {
        None
    }
}

/// A scaled-memory operand `2(%x)` or `4(%x)` at `i`: five characters.
pub open spec fn spec_match_scaled(s: Seq<char>, i: int) -> Option<int> {
    if i + 5 <= s.len() && (s[i] == '2' || s[i] == '4') && s[i + 1] == '(' && s[i + 2] == '%'
        && is_reg_letter(s[i + 3]) && s[i + 4] == ')' {
        Some(i + 5)
    } else {
        None
    }
}

/// A bare number at `i`: `0x` then hex digits, `0b` then binary digits, or
/// decimal digits, each run taken as long as possible.
pub open spec fn spec_match_num(s: Seq<char>, i: int) -> Option<int> {
    if i + 2 < s.len() && s[i] == '0' && s[i + 1] == 'x' && is_hex_digit(s[i + 2]) {
        Some(spec_scan(s, i + 2, CharClass::Hexadecimal))
    } else if i + 2 < s.len() && s[i] == '0' && s[i + 1] == 'b' && is_bin_digit(s[i + 2]) {
        Some(spec_scan(s, i + 2, CharClass::Binary))
    } else if i < s.len() && is_dec_digit(s[i]) {
        Some(spec_scan(s, i, CharClass::Decimal))
    } else {
        None
    }
}

/// An immediate at `i`: a number with an optional `$` prefix.
pub open spec fn spec_match_imm(s: Seq<char>, i: int) -> Option<int> {
    if i < s.len() && s[i] == '$' {
        spec_match_num(s, i + 1)
    } else {
        spec_match_num(s, i)
    }
}

/// The rest of a double-quoted string from position `i` (just past the
/// opening quote): content characters and backslash escapes up to the
/// closing quote; the position after it, or nothing when the string never
/// closes.
pub open spec fn spec_qstr_body(s: Seq<char>, i: int) -> Option<int>
    recommends
        0 <= i,
    decreases s.len() - i,
{
    if i < 0 || i >= s.len() {
        None
    } else if s[i] == '"' {
        Some(i + 1)
    } else if s[i] == '\\' {
        if i + 1 < s.len() && s[i + 1] != '\n' {
            spec_qstr_body(s, i + 2)
        } else {
            None
        }
    } else {
        spec_qstr_body(s, i + 1)
    }
}

/// The common head of the R and I grammars at `p`: a three-letter mnemonic,
/// an optional `b` size suffix, then at least one space. Yields the
/// position after the spaces, the mnemonic, and the suffix.
pub open spec fn spec_match_mnem(s: Seq<char>, p: int) -> Option<(int, Seq<char>, Seq<char>)> {
    if p + 3 <= s.len() && is_letter(s[p]) && is_letter(s[p + 1]) && is_letter(s[p + 2]) {
        let q = if p + 3 < s.len() && s[p + 3] == 'b' {
            p + 4
        } else {
            p + 3
        };
        let suffix = if p + 3 < s.len() && s[p + 3] == 'b' {
            seq!['b']
        } else {
            Seq::<char>::empty()
        };
        if q < s.len() && s[q] == ' ' {
            Some((spec_scan(s, q, CharClass::Blank), s.subrange(p, p + 3), suffix))
        } else {
            None
        }
    } else {
        None
    }
}

/// An R-shape line body at `p`: mnemonic head, a register, a separator and
/// a register, then optionally a separator and a third register. Yields the
/// end of the match and the tokens.
pub open spec fn spec_match_r_at(s: Seq<char>, p: int) -> Option<(int, Seq<Seq<char>>)> {
    match spec_match_mnem(s, p) {
        None => None,
        Some((a, mnem, suffix)) => match spec_match_reg(s, a) {
            None => None,
            Some(e1) => match spec_match_sep(s, e1) {
                None => None,
                Some(b) => match spec_match_reg(s, b) {
                    None => None,
                    Some(e2) => {
                        let base = seq![mnem, suffix, s.subrange(a, e1), s.subrange(b, e2)];
                        match spec_match_sep(s, e2) {
                            None => Some((e2, base)),
                            Some(c) => match spec_match_reg(s, c) {
                                None => Some((e2, base)),
                                Some(e3) => Some((e3, base.push(s.subrange(c, e3)))),
                            },
                        }
                    },
                },
            },
        },
    }
}

/// An I-shape line body at `p`: mnemonic head, a register, a separator,
/// then optionally a middle operand (scaled-memory or register, with its
/// own trailing separator), then an immediate.
pub open spec fn spec_match_i_at(s: Seq<char>, p: int) -> Option<(int, Seq<Seq<char>>)> {
    match spec_match_mnem(s, p) {
        None => None,
        Some((a, mnem, suffix)) => match spec_match_reg(s, a) {
            None => None,
            Some(e1) => match spec_match_sep(s, e1) {
                None => None,
                Some(b) => {
                    let head = seq![mnem, suffix, s.subrange(a, e1)];
                    let mid = match spec_match_scaled(s, b) {
                        Some(e2) => match spec_match_sep(s, e2) {
                            Some(c) => Some((c, s.subrange(b, e2))),
                            None => None,
                        },
                        None => match spec_match_reg(s, b) {
                            Some(e2) => match spec_match_sep(s, e2) {
                                Some(c) => Some((c, s.subrange(b, e2))),
                                None => None,
                            },
                            None => None,
                        },
                    };
                    match mid {
                        Some((c, tok)) => match spec_match_imm(s, c) {
                            Some(e3) => Some((e3, head.push(tok).push(s.subrange(c, e3)))),
                            None => None,
                        },
                        None => match spec_match_imm(s, b) {
                            Some(e3) => Some((e3, head.push(s.subrange(b, e3)))),
                            None => None,
                        },
                    }
                },
            },
        },
    }
}

/// An S-shape line body at `p`: any three letters.
pub open spec fn spec_match_s_at(s: Seq<char>, p: int) -> Option<(int, Seq<Seq<char>>)> {
    if p + 3 <= s.len() && is_letter(s[p]) && is_letter(s[p + 1]) && is_letter(s[p + 2]) {
        Some((p + 3, seq![s.subrange(p, p + 3)]))
    } else {
        None
    }
}

/// A `#value` directive at `p`: the keyword, at least one space, then a
/// double-quoted string or a hexadecimal, binary or decimal number.
pub open spec fn spec_match_val_at(s: Seq<char>, p: int) -> Option<(int, Seq<Seq<char>>)> {
    if p + 6 < s.len() && s[p] == '#' && s[p + 1] == 'v' && s[p + 2] == 'a' && s[p + 3] == 'l'
        && s[p + 4] == 'u' && s[p + 5] == 'e' && s[p + 6] == ' ' {
        let j = spec_scan(s, p + 6, CharClass::Blank);
        if j < s.len() && s[j] == '"' {
            match spec_qstr_body(s, j + 1) {
                Some(e) => Some((e, seq![s.subrange(j, e)])),
                None => None,
            }
        } else {
            match spec_match_num(s, j) {
                Some(e) => Some((e, seq![s.subrange(j, e)])),
                None => None,
            }
        }
    } else {
        None
    }
}

/// The match relation of one pattern at one position.
pub open spec fn spec_match_at(s: Seq<char>, p: int, pat: Pattern) -> Option<(int, Seq<Seq<char>>)> {
    match pat {
        Pattern::ValueDir => spec_match_val_at(s, p),
        Pattern::RShape => spec_match_r_at(s, p),
        Pattern::IShape => spec_match_i_at(s, p),
        Pattern::SShape => spec_match_s_at(s, p),
    }
}

// --- The matchers, executable and proved against the relation above. ---

fn match_reg(v: &Vec<char>, i: usize) -> (r: Option<usize>)
    requires
        i <= v@.len(),
    ensures
        match r {
            Some(e) => spec_match_reg(v@, i as int) == Some(e as int) && i <= e <= v@.len(),
            None => spec_match_reg(v@, i as int) is None,
        },
{
    if v.len() - i >= 2 && v[i] == '%' && crate::text::is_reg_letter_exec(v[i + 1]) {
        Some(i + 2)
    } else {
        None
    }
}

fn match_sep(v: &Vec<char>, i: usize) -> (r: Option<usize>)
    requires
        i <= v@.len(),
    ensures
        match r {
            Some(e) => spec_match_sep(v@, i as int) == Some(e as int) && i <= e <= v@.len(),
            None => spec_match_sep(v@, i as int) is None,
        },
{
    let j = scan(v, i, CharClass::Blank);
    if j < v.len() && v[j] == ',' {
        Some(scan(v, j + 1, CharClass::Blank))
    } else {
        None
    }
}

fn match_scaled(v: &Vec<char>, i: usize) -> (r: Option<usize>)
    requires
        i <= v@.len(),
    ensures
        match r {
            Some(e) => spec_match_scaled(v@, i as int) == Some(e as int) && i <= e <= v@.len(),
            None => spec_match_scaled(v@, i as int) is None,
        },
{
    if v.len() - i >= 5 && (v[i] == '2' || v[i] == '4') && v[i + 1] == '(' && v[i + 2] == '%'
        && crate::text::is_reg_letter_exec(v[i + 3]) && v[i + 4] == ')' {
        Some(i + 5)
    } else {
        None
    }
}

fn match_num(v: &Vec<char>, i: usize) -> (r: Option<usize>)
    requires
        i <= v@.len(),
    ensures
        match r {
            Some(e) => spec_match_num(v@, i as int) == Some(e as int) && i <= e <= v@.len(),
            None => spec_match_num(v@, i as int) is None,
        },
{
    if v.len() - i >= 3 && v[i] == '0' && v[i + 1] == 'x' && crate::text::in_class_exec(
        v[i + 2],
        CharClass::Hexadecimal,
    ) {
        Some(scan(v, i + 2, CharClass::Hexadecimal))
    } else if v.len() - i >= 3 && v[i] == '0' && v[i + 1] == 'b' && crate::text::in_class_exec(
        v[i + 2],
        CharClass::Binary,
    ) {
        Some(scan(v, i + 2, CharClass::Binary))
    } else if i < v.len() && crate::text::in_class_exec(v[i], CharClass::Decimal) {
        Some(scan(v, i, CharClass::Decimal))
    } else {
        None
    }
}

fn match_imm(v: &Vec<char>, i: usize) -> (r: Option<usize>)
    requires
        i <= v@.len(),
    ensures
        match r {
            Some(e) => spec_match_imm(v@, i as int) == Some(e as int) && i <= e <= v@.len(),
            None => spec_match_imm(v@, i as int) is None,
        },
{
    if i < v.len() && v[i] == '$' {
        match_num(v, i + 1)
    } else {
        match_num(v, i)
    }
}

fn qstr_body(v: &Vec<char>, i: usize) -> (r: Option<usize>)
    requires
        i <= v@.len(),
    ensures
        match r {
            Some(e) => spec_qstr_body(v@, i as int) == Some(e as int) && i <= e <= v@.len(),
            None => spec_qstr_body(v@, i as int) is None,
        },
{
    let mut j = i;
    loop
        invariant
            i <= j <= v@.len(),
            spec_qstr_body(v@, i as int) == spec_qstr_body(v@, j as int),
        decreases v@.len() - j,
    {
        if j >= v.len() {
            return None;
        }
        let c = v[j];
        if c == '"' {
            return Some(j + 1);
        }
        if c == '\\' {
            if v.len() - j >= 2 && v[j + 1] != '\n' {
                j += 2;
            } else {
                return None;
            }
        } else {
            j += 1;
        }
    }
}

fn match_mnem(v: &Vec<char>, p: usize) -> (r: Option<(usize, Vec<char>, Vec<char>)>)
    requires
        p <= v@.len(),
    ensures
        match r {
            Some(m) => spec_match_mnem(v@, p as int) == Some(((m.0 as int), m.1@, m.2@)) && p
                <= m.0 <= v@.len(),
            None => spec_match_mnem(v@, p as int) is None,
        },
{
    if v.len() - p >= 3 && crate::text::is_letter_exec(v[p]) && crate::text::is_letter_exec(
        v[p + 1],
    ) && crate::text::is_letter_exec(v[p + 2]) {
        let has_b = v.len() - p >= 4 && v[p + 3] == 'b';
        let q = if has_b {
            p + 4
        } else {
            p + 3
        };
        let mut suffix: Vec<char> = Vec::new();
        if has_b {
            suffix.push('b');
        }
        if q < v.len() && v[q] == ' ' {
            let a = scan(v, q, CharClass::Blank);
            let mnem = copy_range(v, p, p + 3);
            proof {
                if has_b {
                    assert(suffix@ =~= seq!['b']);
                } else {
                    assert(suffix@ =~= Seq::<char>::empty());
                }
            }
            Some((a, mnem, suffix))
        } else {
            None
        }
    } else {
        None
    }
}

fn match_r_at(v: &Vec<char>, p: usize) -> (r: Option<(usize, Vec<Vec<char>>)>)
    requires
        p <= v@.len(),
    ensures
        match r {
            Some(m) => spec_match_r_at(v@, p as int) == Some(((m.0 as int), m.1.deep_view())) && p
                <= m.0 <= v@.len(),
            None => spec_match_r_at(v@, p as int) is None,
        },
{
    let head = match match_mnem(v, p) {
        Some(h) => h,
        None => {
            return None;
        },
    };
    let (a, mnem, suffix) = head;
    let e1 = match match_reg(v, a) {
        Some(e) => e,
        None => {
            return None;
        },
    };
    let b = match match_sep(v, e1) {
        Some(x) => x,
        None => {
            return None;
        },
    };
    let e2 = match match_reg(v, b) {
        Some(e) => e,
        None => {
            return None;
        },
    };
    let mut toks: Vec<Vec<char>> = Vec::new();
    let r1 = copy_range(v, a, e1);
    let r2 = copy_range(v, b, e2);
    toks.push(mnem);
    toks.push(suffix);
    toks.push(r1);
    toks.push(r2);
    let third = match match_sep(v, e2) {
        Some(c) => match match_reg(v, c) {
            Some(e3) => Some((c, e3)),
            None => None,
        },
        None => None,
    };
    match third {
        Some((c, e3)) => {
            toks.push(copy_range(v, c, e3));
            assert(toks.deep_view() =~~= spec_match_r_at(v@, p as int)->Some_0.1);
            Some((e3, toks))
        },
        None => {
            assert(toks.deep_view() =~~= spec_match_r_at(v@, p as int)->Some_0.1);
            Some((e2, toks))
        },
    }
}

fn match_i_at(v: &Vec<char>, p: usize) -> (r: Option<(usize, Vec<Vec<char>>)>)
    requires
        p <= v@.len(),
    ensures
        match r {
            Some(m) => spec_match_i_at(v@, p as int) == Some(((m.0 as int), m.1.deep_view())) && p
                <= m.0 <= v@.len(),
            None => spec_match_i_at(v@, p as int) is None,
        },
{
    let head = match match_mnem(v, p) {
        Some(h) => h,
        None => {
            return None;
        },
    };
    let (a, mnem, suffix) = head;
    let e1 = match match_reg(v, a) {
        Some(e) => e,
        None => {
            return None;
        },
    };
    let b = match match_sep(v, e1) {
        Some(x) => x,
        None => {
            return None;
        },
    };
    let mut toks: Vec<Vec<char>> = Vec::new();
    toks.push(mnem);
    toks.push(suffix);
    toks.push(copy_range(v, a, e1));
    let mid = match match_scaled(v, b) {
        Some(e2) => match match_sep(v, e2) {
            Some(c) => Some((c, e2)),
            None => None,
        },
        None => match match_reg(v, b) {
            Some(e2) => match match_sep(v, e2) {
                Some(c) => Some((c, e2)),
                None => None,
            },
            None => None,
        },
    };
    match mid {
        Some((c, e2)) => {
            let imm_end = match match_imm(v, c) {
                Some(e3) => e3,
                None => {
                    return None;
                },
            };
            toks.push(copy_range(v, b, e2));
            toks.push(copy_range(v, c, imm_end));
            assert(toks.deep_view() =~~= spec_match_i_at(v@, p as int)->Some_0.1);
            Some((imm_end, toks))
        },
        None => {
            let imm_end = match match_imm(v, b) {
                Some(e3) => e3,
                None => {
                    return None;
                },
            };
            toks.push(copy_range(v, b, imm_end));
            assert(toks.deep_view() =~~= spec_match_i_at(v@, p as int)->Some_0.1);
            Some((imm_end, toks))
        },
    }
}

fn match_s_at(v: &Vec<char>, p: usize) -> (r: Option<(usize, Vec<Vec<char>>)>)
    requires
        p <= v@.len(),
    ensures
        match r {
            Some(m) => spec_match_s_at(v@, p as int) == Some(((m.0 as int), m.1.deep_view())) && p
                <= m.0 <= v@.len(),
            None => spec_match_s_at(v@, p as int) is None,
        },
{
    if v.len() - p >= 3 && crate::text::is_letter_exec(v[p]) && crate::text::is_letter_exec(
        v[p + 1],
    ) && crate::text::is_letter_exec(v[p + 2]) {
        let mut toks: Vec<Vec<char>> = Vec::new();
        toks.push(copy_range(v, p, p + 3));
        assert(toks.deep_view() =~~= seq![v@.subrange(p as int, p + 3 as int)]);
        Some((p + 3, toks))
    } else {
        None
    }
}

fn match_val_at(v: &Vec<char>, p: usize) -> (r: Option<(usize, Vec<Vec<char>>)>)
    requires
        p <= v@.len(),
    ensures
        match r {
            Some(m) => spec_match_val_at(v@, p as int) == Some(((m.0 as int), m.1.deep_view()))
                && p <= m.0 <= v@.len(),
            None => spec_match_val_at(v@, p as int) is None,
        },
{
    if v.len() - p >= 7 && v[p] == '#' && v[p + 1] == 'v' && v[p + 2] == 'a' && v[p + 3] == 'l'
        && v[p + 4] == 'u' && v[p + 5] == 'e' && v[p + 6] == ' ' {
        let j = scan(v, p + 6, CharClass::Blank);
        let end = if j < v.len() && v[j] == '"' {
            match qstr_body(v, j + 1) {
                Some(e) => e,
                None => {
                    return None;
                },
            }
        } else {
            match match_num(v, j) {
                Some(e) => e,
                None => {
                    return None;
                },
            }
        };
        let mut toks: Vec<Vec<char>> = Vec::new();
        toks.push(copy_range(v, j, end));
        assert(toks.deep_view() =~~= seq![v@.subrange(j as int, end as int)]);
        Some((end, toks))
    } else {
        None
    }
}

fn match_at(v: &Vec<char>, p: usize, pat: Pattern) -> (r: Option<(usize, Vec<Vec<char>>)>)
    requires
        p <= v@.len(),
    ensures
        match r {
            Some(m) => spec_match_at(v@, p as int, pat) == Some(((m.0 as int), m.1.deep_view()))
                && p <= m.0 <= v@.len(),
            None => spec_match_at(v@, p as int, pat) is None,
        },
{
    match pat {
        Pattern::ValueDir => match_val_at(v, p),
        Pattern::RShape => match_r_at(v, p),
        Pattern::IShape => match_i_at(v, p),
        Pattern::SShape => match_s_at(v, p),
    }
}

// --- Line classification. ---

/// Only whitespace, or a comment, stands after position `e`.
pub open spec fn spec_trail_ok(s: Seq<char>, e: int) -> bool
    recommends
        0 <= e <= s.len(),
{
    let j = spec_scan(s, e, CharClass::White);
    j == s.len() || s[j] == ';'
}

pub open spec fn pattern_line_type(pat: Pattern) -> LineType {
    match pat {
        Pattern::ValueDir => LineType::Value,
        Pattern::RShape => LineType::RInstr,
        Pattern::IShape => LineType::IInstr,
        Pattern::SShape => LineType::SInstr,
    }
}

/// What committing to one pattern yields on a trimmed line: its tokens and
/// class when the pattern matches at the head of the line and only a
/// comment or nothing trails the match, and a syntax error otherwise.
pub open spec fn spec_handle(t: Seq<char>, pat: Pattern) -> Result<
    (Seq<Seq<char>>, LineType),
    AssemblerError,
> {
    match spec_match_at(t, 0, pat) {
        None => Err(AssemblerError::InvalidSyntaxError),
        Some((e, toks)) => if spec_trail_ok(t, e) {
            Ok((toks, pattern_line_type(pat)))
        } else {
            Err(AssemblerError::InvalidSyntaxError)
        },
    }
}

/// What classifying one raw line yields. The line is trimmed; an empty or
/// comment line is the empty class; otherwise the four grammars are tried
/// in priority order and the first that matches at the head of the trimmed
/// line wins. A line no grammar matches at its head is a syntax error.
pub open spec fn spec_parse_line(s: Seq<char>) -> Result<
    (Seq<Seq<char>>, LineType),
    AssemblerError,
> {
    let t = spec_trim(s);
    if t.len() == 0 || t[0] == ';' {
        Ok((Seq::empty(), LineType::Empty))
    } else if spec_match_at(t, 0, Pattern::ValueDir) is Some {
        spec_handle(t, Pattern::ValueDir)
    } else if spec_match_at(t, 0, Pattern::RShape) is Some {
        spec_handle(t, Pattern::RShape)
    } else if spec_match_at(t, 0, Pattern::IShape) is Some {
        spec_handle(t, Pattern::IShape)
    } else if spec_match_at(t, 0, Pattern::SShape) is Some {
        spec_handle(t, Pattern::SShape)
    } else {
        Err(AssemblerError::InvalidSyntaxError)
    }
}

fn try_pattern(t: &Vec<char>, pat: Pattern) -> (r: Option<
    Result<(Vec<Vec<char>>, LineType), AssemblerError>,
>)
    ensures
        match r {
            None => spec_match_at(t@, 0, pat) is None,
            Some(res) => spec_match_at(t@, 0, pat) is Some && (match (res, spec_handle(t@, pat)) {
                (Ok(ok), Ok(sok)) => ok.0.deep_view() == sok.0 && ok.1 == sok.1,
                (Err(e), Err(se)) => e == se,
                _ => false,
            }),
        },
{
    match match_at(t, 0, pat) {
        None => None,
        Some((e, toks)) => {
            let j = scan(t, e, CharClass::White);
            if j == t.len() || t[j] == ';' {
                Some(Ok((toks, pattern_line_type_exec(pat))))
            } else {
                Some(Err(AssemblerError::InvalidSyntaxError))
            }
        },
    }
}

fn pattern_line_type_exec(pat: Pattern) -> (r: LineType)
    ensures
        r == pattern_line_type(pat),
{
    match pat {
        Pattern::ValueDir => LineType::Value,
        Pattern::RShape => LineType::RInstr,
        Pattern::IShape => LineType::IInstr,
        Pattern::SShape => LineType::SInstr,
    }
}

/// Classify one raw source line and extract its operand tokens.
pub fn parse_line(input: &Vec<char>) -> (r: Result<(Vec<Vec<char>>, LineType), AssemblerError>)
    ensures
        match (r, spec_parse_line(input@)) {
            (Ok(ok), Ok(sok)) => ok.0.deep_view() == sok.0 && ok.1 == sok.1,
            (Err(e), Err(se)) => e == se,
            _ => false,
        },
{
    let t = trim(input);
    if t.len() == 0 || t[0] == ';' {
        let toks: Vec<Vec<char>> = Vec::new();
        assert(toks.deep_view() =~~= Seq::<Seq<char>>::empty());
        return Ok((toks, LineType::Empty));
    }
    if let Some(res) = try_pattern(&t, Pattern::ValueDir) {
        return res;
    }
    if let Some(res) = try_pattern(&t, Pattern::RShape) {
        return res;
    }
    if let Some(res) = try_pattern(&t, Pattern::IShape) {
        return res;
    }
    if let Some(res) = try_pattern(&t, Pattern::SShape) {
        return res;
    }
    Err(AssemblerError::InvalidSyntaxError)
}

// --- Mnemonic and register lookup. ---

/// The ASCII lowering of one character.
pub open spec fn lower_char(c: char) -> char {
    if 'A' <= c && c <= 'Z' {
        (c as u32 + 32) as char
    } else {
        c
    }
}

/// The token is the given three-letter mnemonic, compared without case.
pub open spec fn mnem_is(t: Seq<char>, a: char, b: char, c: char) -> bool {
    t.len() == 3 && lower_char(t[0]) == a && lower_char(t[1]) == b && lower_char(t[2]) == c
}

/// Case-insensitive comparison of one character against a lower-case one.
fn ci_eq(c: char, l: char) -> (r: bool)
    requires
        lower_char(l) == l,
    ensures
        r == (lower_char(c) == l),
{
    if c == l {
        true
    } else if 'A' <= c && c <= 'Z' {
        proof {
            assert(c as u32 + 32 < 0xD800);
            assert(((c as u32 + 32) as char) as u32 == c as u32 + 32);
            assert((l as u32) as char == l);
        }
        (c as u32) + 32 == (l as u32)
    } else {
        false
    }
}

/// The entries of the deep view of a token list are the views of its
/// tokens.
pub proof fn lemma_tokens_deep_view(v: &Vec<Vec<char>>)
    ensures
        v.deep_view().len() == v@.len(),
        forall|k: int| 0 <= k < v@.len() ==> v.deep_view()[k] == v@[k]@,
{
    assert forall|k: int| 0 <= k < v@.len() implies v.deep_view()[k] == v@[k]@ by {
        assert(v.deep_view()[k] =~= v@[k]@);
    }
}

pub open spec fn spec_s_lookup(t: Seq<char>) -> Result<SInstrIdent, AssemblerError> {
    if mnem_is(t, 'h', 'l', 't') {
        Ok(SInstrIdent::HLT)
    } else if mnem_is(t, 'n', 'o', 'p') {
        Ok(SInstrIdent::NOP)
    } else {
        Err(AssemblerError::InvalidInstructionError)
    }
}

pub open spec fn spec_r_lookup(t: Seq<char>) -> Result<RInstrIdent, AssemblerError> {
    if mnem_is(t, 'a', 'd', 'd') {
        Ok(RInstrIdent::ADD)
    } else if mnem_is(t, 's', 'u', 'b') {
        Ok(RInstrIdent::SUB)
    } else {
        Err(AssemblerError::InvalidInstructionError)
    }
}

pub open spec fn spec_i_lookup(t: Seq<char>) -> Result<IInstrIdent, AssemblerError> {
    if mnem_is(t, 'a', 'd', 'd') {
        Ok(IInstrIdent::ADI)
    } else if mnem_is(t, 's', 'u', 'b') {
        Ok(IInstrIdent::SBI)
    } else {
        Err(AssemblerError::InvalidInstructionError)
    }
}

fn mnem_eq(t: &Vec<char>, a: char, b: char, c: char) -> (r: bool)
    requires
        lower_char(a) == a && lower_char(b) == b && lower_char(c) == c,
    ensures
        r == mnem_is(t@, a, b, c),
{
    t.len() == 3 && ci_eq(t[0], a) && ci_eq(t[1], b) && ci_eq(t[2], c)
}

/// Look a mnemonic up in the S-shape opcode table, case-insensitively.
pub fn s_instr_name_to_ident(instr: &Vec<char>) -> (r: Result<SInstrIdent, AssemblerError>)
    ensures
        r == spec_s_lookup(instr@),
{
    if mnem_eq(instr, 'h', 'l', 't') {
        Ok(SInstrIdent::HLT)
    } else if mnem_eq(instr, 'n', 'o', 'p') {
        Ok(SInstrIdent::NOP)
    } else {
        Err(AssemblerError::InvalidInstructionError)
    }
}

/// Look a mnemonic up in the R-shape opcode table, case-insensitively.
pub fn r_instr_name_to_ident(instr: &Vec<char>) -> (r: Result<RInstrIdent, AssemblerError>)
    ensures
        r == spec_r_lookup(instr@),
{
    if mnem_eq(instr, 'a', 'd', 'd') {
        Ok(RInstrIdent::ADD)
    } else if mnem_eq(instr, 's', 'u', 'b') {
        Ok(RInstrIdent::SUB)
    } else {
        Err(AssemblerError::InvalidInstructionError)
    }
}

/// Look a mnemonic up in the I-shape opcode table, case-insensitively.
/// The shared mnemonic text `add`/`sub` maps to the distinct I-shape codes.
pub fn i_instr_name_to_ident(instr: &Vec<char>) -> (r: Result<IInstrIdent, AssemblerError>)
    ensures
        r == spec_i_lookup(instr@),
{
    if mnem_eq(instr, 'a', 'd', 'd') {
        Ok(IInstrIdent::ADI)
    } else if mnem_eq(instr, 's', 'u', 'b') {
        Ok(IInstrIdent::SBI)
    } else {
        Err(AssemblerError::InvalidInstructionError)
    }
}

pub open spec fn spec_reg_lookup(c: char) -> Result<RegisterIdent, AssemblerError> {
    if c == 'a' {
        Ok(RegisterIdent::A)
    } else if c == 'b' {
        Ok(RegisterIdent::B)
    } else if c == 'c' {
        Ok(RegisterIdent::C)
    } else if c == 'x' {
        Ok(RegisterIdent::X)
    } else if c == 'y' {
        Ok(RegisterIdent::Y)
    } else if c == 'z' {
        Ok(RegisterIdent::Z)
    } else if c == 'i' {
        Ok(RegisterIdent::I)
    } else if c == 'r' {
        Ok(RegisterIdent::R)
    } else {
        Err(AssemblerError::InvalidRegisterError)
    }
}

/// Map a register letter to its identifier; only the eight lower-case
/// letters are accepted.
pub fn register_name_to_ident(reg: char) -> (r: Result<RegisterIdent, AssemblerError>)
    ensures
        r == spec_reg_lookup(reg),
{
    match reg {
        'a' => Ok(RegisterIdent::A),
        'b' => Ok(RegisterIdent::B),
        'c' => Ok(RegisterIdent::C),
        'x' => Ok(RegisterIdent::X),
        'y' => Ok(RegisterIdent::Y),
        'z' => Ok(RegisterIdent::Z),
        'i' => Ok(RegisterIdent::I),
        'r' => Ok(RegisterIdent::R),
        _ => Err(AssemblerError::InvalidRegisterError),
    }
}

pub open spec fn spec_scalar_lookup(t: Seq<char>) -> Result<
    (RegisterIdent, u8),
    AssemblerError,
> {
    if t[0] == '2' || t[0] == '4' {
        match spec_reg_lookup(t[3]) {
            Ok(reg) => Ok((reg, if t[0] == '2' {
                2u8
            } else {
                4u8
            })),
            Err(e) => Err(e),
        }
    } else {
        Err(AssemblerError::InvalidScalarError)
    }
}

/// Split a scaled-memory operand such as `2(%a)` into its register and its
/// scale factor, which must be `2` or `4`.
pub fn register_scalar_to_ident(scalar: &Vec<char>) -> (r: Result<
    (RegisterIdent, u8),
    AssemblerError,
>)
    requires
        scalar@.len() >= 4,
    ensures
        r == spec_scalar_lookup(scalar@),
{
    let scale: u8 = if scalar[0] == '2' {
        2
    } else if scalar[0] == '4' {
        4
    } else {
        return Err(AssemblerError::InvalidScalarError);
    };
    match register_name_to_ident(scalar[3]) {
        Ok(reg) => Ok((reg, scale)),
        Err(e) => Err(e),
    }
}

// --- Instruction construction. ---

/// The token lists a line class can hand to the builder without a missing
/// or too-short token.
pub open spec fn tokens_ok(t: Seq<Seq<char>>, ty: LineType) -> bool {
    match ty {
        LineType::SInstr => t.len() >= 1,
        LineType::Value => t.len() >= 1,
        LineType::RInstr => t.len() >= 4 && t[2].len() >= 2 && t[3].len() >= 2 && (t.len() != 4
            ==> t.len() >= 5 && t[4].len() >= 2),
        _ => true,
    }
}

/// What building one classified line yields: no instruction for empty,
/// label and (unfinished) I-shape lines, a typed instruction otherwise, or
/// the first lookup or literal error.
pub open spec fn spec_line_to_instr(t: Seq<Seq<char>>, ty: LineType) -> Result<
    Option<InstrModel>,
    AssemblerError,
> {
    match ty {
        LineType::IInstr => Ok(None),
        LineType::SInstr => match spec_s_lookup(t[0]) {
            Ok(id) => Ok(Some(InstrModel::S(id))),
            Err(e) => Err(e),
        },
        LineType::RInstr => match spec_r_lookup(t[0]) {
            Err(e) => Err(e),
            Ok(id) => {
                let size = t[1].len() == 0;
                match spec_reg_lookup(t[2][1]) {
                    Err(e) => Err(e),
                    Ok(reg1) => match spec_reg_lookup(t[3][1]) {
                        Err(e) => Err(e),
                        Ok(reg2) => if t.len() == 4 {
                            Ok(Some(InstrModel::R(id, size, reg1, reg2, reg1)))
                        } else {
                            match spec_reg_lookup(t[4][1]) {
                                Err(e) => Err(e),
                                Ok(reg3) => Ok(Some(InstrModel::R(id, size, reg1, reg2, reg3))),
                            }
                        },
                    },
                }
            },
        },
        LineType::Value => match spec_parse_value(t[0]) {
            Ok(bytes) => Ok(Some(InstrModel::Value(bytes))),
            Err(e) => Err(e),
        },
        _ => Ok(None),
    }
}

/// Build one instruction from a classified token list. An I-shape line
/// yields no instruction: completing that construction is a known gap that
/// is deliberately preserved, not resolved here.
pub fn line_to_instr(input: &Vec<Vec<char>>, line_type: LineType) -> (r: Result<
    Option<Instr>,
    AssemblerError,
>)
    requires
        tokens_ok(input.deep_view(), line_type),
    ensures
        match (r, spec_line_to_instr(input.deep_view(), line_type)) {
            (Ok(Some(i)), Ok(Some(m))) => instr_view(i) == m,
            (Ok(None), Ok(None)) => true,
            (Err(e), Err(se)) => e == se,
            _ => false,
        },
{
    proof {
        lemma_tokens_deep_view(input);
    }
    match line_type {
        LineType::IInstr => Ok(None),
        LineType::SInstr => match s_instr_name_to_ident(&input[0]) {
            Ok(id) => Ok(Some(Instr::SInstr(id))),
            Err(e) => Err(e),
        },
        LineType::RInstr => {
            let id = match r_instr_name_to_ident(&input[0]) {
                Ok(id) => id,
                Err(e) => {
                    return Err(e);
                },
            };
            let size = input[1].len() == 0;
            let reg1 = match register_name_to_ident(input[2][1]) {
                Ok(rg) => rg,
                Err(e) => {
                    return Err(e);
                },
            };
            let reg2 = match register_name_to_ident(input[3][1]) {
                Ok(rg) => rg,
                Err(e) => {
                    return Err(e);
                },
            };
            let reg3 = if input.len() == 4 {
                reg1
            } else {
                match register_name_to_ident(input[4][1]) {
                    Ok(rg) => rg,
                    Err(e) => {
                        return Err(e);
                    },
                }
            };
            Ok(Some(Instr::RInstr(id, size, reg1, reg2, reg3)))
        },
        LineType::Value => match parse_value(&input[0]) {
            Ok(bytes) => Ok(Some(Instr::Value(bytes))),
            Err(e) => Err(e),
        },
        _ => Ok(None),
    }
}

// --- The document driver. ---

pub proof fn lemma_mnem_bounds(s: Seq<char>, p: int)
    requires
        0 <= p <= s.len(),
    ensures
        spec_match_mnem(s, p) matches Some(h) ==> 0 <= h.0 <= s.len() && h.1.len() == 3,
{
    if spec_match_mnem(s, p) is Some {
        let q = if p + 3 < s.len() && s[p + 3] == 'b' {
            p + 4
        } else {
            p + 3
        };
        lemma_scan_bounds(s, q, CharClass::Blank);
    }
}

pub proof fn lemma_sep_bounds(s: Seq<char>, i: int)
    requires
        0 <= i <= s.len(),
    ensures
        spec_match_sep(s, i) matches Some(b) ==> 0 <= b <= s.len(),
{
    lemma_scan_bounds(s, i, CharClass::Blank);
    let j = spec_scan(s, i, CharClass::Blank);
    if j < s.len() && s[j] == ',' {
        lemma_scan_bounds(s, j + 1, CharClass::Blank);
    }
}

pub proof fn lemma_match_tokens_ok(s: Seq<char>, p: int, pat: Pattern)
    requires
        0 <= p <= s.len(),
    ensures
        spec_match_at(s, p, pat) matches Some(m) ==> tokens_ok(m.1, pattern_line_type(pat)),
{
    match pat {
        Pattern::RShape => {
            if spec_match_r_at(s, p) is Some {
                lemma_mnem_bounds(s, p);
                let a = spec_match_mnem(s, p)->Some_0.0;
                lemma_sep_bounds(s, a + 2);
                let b = spec_match_sep(s, a + 2)->Some_0;
                lemma_sep_bounds(s, b + 2);
            }
        },
        _ => {},
    }
}

pub proof fn lemma_handle_tokens(t: Seq<char>, pat: Pattern)
    ensures
        spec_handle(t, pat) matches Ok(p) ==> tokens_ok(p.0, p.1),
{
    lemma_match_tokens_ok(t, 0, pat);
}

/// A successfully classified line always hands the builder a token list of
/// the shape its class promises.
pub proof fn lemma_parse_line_tokens(s: Seq<char>)
    ensures
        spec_parse_line(s) matches Ok(p) ==> tokens_ok(p.0, p.1),
{
    let t = spec_trim(s);
    lemma_handle_tokens(t, Pattern::ValueDir);
    lemma_handle_tokens(t, Pattern::RShape);
    lemma_handle_tokens(t, Pattern::IShape);
    lemma_handle_tokens(t, Pattern::SShape);
}

/// What classifying every line from `i` on yields: the classified lines in
/// order, or the first classification error.
pub open spec fn spec_classify_from(lines: Seq<Seq<char>>, i: int) -> Result<
    Seq<(Seq<Seq<char>>, LineType)>,
    AssemblerError,
>
    decreases lines.len() - i,
{
    if !(0 <= i < lines.len()) {
        Ok(Seq::empty())
    } else {
        match spec_parse_line(lines[i]) {
            Err(e) => Err(e),
            Ok(p) => match spec_classify_from(lines, i + 1) {
                Err(e) => Err(e),
                Ok(rest) => Ok(seq![p] + rest),
            },
        }
    }
}

/// What building every classified line from `i` on yields: the built
/// instructions in order, skipping the classes that build none, or the
/// first construction error.
pub open spec fn spec_build_from(
    ps: Seq<(Seq<Seq<char>>, LineType)>,
    i: int,
) -> Result<Seq<InstrModel>, AssemblerError>
    decreases ps.len() - i,
{
    if !(0 <= i < ps.len()) {
        Ok(Seq::empty())
    } else {
        match spec_line_to_instr(ps[i].0, ps[i].1) {
            Err(e) => Err(e),
            Ok(None) => spec_build_from(ps, i + 1),
            Ok(Some(m)) => match spec_build_from(ps, i + 1) {
                Err(e) => Err(e),
                Ok(rest) => Ok(seq![m] + rest),
            },
        }
    }
}

/// What assembling a whole document yields: every line is classified first,
/// then every classified line is built, and the first error of either pass
/// aborts the whole assembly.
pub open spec fn spec_lines_result(lines: Seq<Seq<char>>) -> Result<
    Seq<InstrModel>,
    AssemblerError,
> {
    match spec_classify_from(lines, 0) {
        Err(e) => Err(e),
        Ok(ps) => spec_build_from(ps, 0),
    }
}

pub open spec fn spec_parse(s: Seq<char>) -> Result<Seq<InstrModel>, AssemblerError> {
    spec_lines_result(spec_split_from(s, 0))
}

pub open spec fn pairs_view(v: Seq<(Vec<Vec<char>>, LineType)>) -> Seq<(Seq<Seq<char>>, LineType)> {
    v.map_values(|p: (Vec<Vec<char>>, LineType)| (p.0.deep_view(), p.1))
}

/// Assemble a whole source document into its ordered instruction sequence,
/// or the first error. Label and I-shape lines are accepted and build no
/// instruction; nothing resolves labels to addresses, a known gap kept as
/// it stands.
pub fn parse(input: String) -> (r: Result<Vec<Instr>, AssemblerError>)
    ensures
        match (r, spec_parse(input@)) {
            (Ok(v), Ok(sv)) => program_view(v@) == sv && program_wf(sv),
            (Err(e), Err(se)) => e == se,
            _ => false,
        },
{
    let chars = str_to_chars(input.as_str());
    let lines = split_from(&chars, 0);
    let ghost lv = lines.deep_view();
    let ghost total = spec_classify_from(lv, 0);
    let mut pairs: Vec<(Vec<Vec<char>>, LineType)> = Vec::new();
    let mut k: usize = 0;
    proof {
        assert(pairs_view(pairs@) =~= Seq::<(Seq<Seq<char>>, LineType)>::empty());
        match spec_classify_from(lv, 0) {
            Ok(rest) => {
                assert(pairs_view(pairs@) + rest =~= rest);
            },
            Err(_) => {},
        }
    }
    while k < lines.len()
        invariant
            k <= lines@.len(),
            lv == lines.deep_view(),
            lv.len() == lines@.len(),
            lv == spec_split_from(input@, 0),
            total == spec_classify_from(lv, 0),
            match spec_classify_from(lv, k as int) {
                Err(e) => total == Err::<Seq<(Seq<Seq<char>>, LineType)>, AssemblerError>(e),
                Ok(rest) => total == Ok::<Seq<(Seq<Seq<char>>, LineType)>, AssemblerError>(
                    pairs_view(pairs@) + rest,
                ),
            },
            forall|j: int|
                0 <= j < pairs@.len() ==> tokens_ok(
                    #[trigger] pairs_view(pairs@)[j].0,
                    pairs_view(pairs@)[j].1,
                ),
        decreases lines@.len() - k,
    {
        proof {
            lemma_tokens_deep_view(&lines);
            assert(lv[k as int] == lines@[k as int]@);
        }
        match parse_line(&lines[k]) {
            Ok(p) => {
                let ghost pd = (p.0.deep_view(), p.1);
                let ghost old_pv = pairs_view(pairs@);
                proof {
                    lemma_parse_line_tokens(lv[k as int]);
                }
                pairs.push(p);
                proof {
                    assert(pairs_view(pairs@) =~= old_pv + seq![pd]);
                    match spec_classify_from(lv, k + 1 as int) {
                        Ok(rest) => {
                            assert(old_pv + (seq![pd] + rest) =~= (old_pv + seq![pd]) + rest);
                        },
                        Err(_) => {},
                    }
                }
            },
            Err(e) => {
                proof {
                    assert(spec_classify_from(lv, k as int) == Err::<
                        Seq<(Seq<Seq<char>>, LineType)>,
                        AssemblerError,
                    >(e));
                }
                return Err(e);
            },
        }
        k += 1;
    }
    let ghost ps = pairs_view(pairs@);
    proof {
        assert(spec_classify_from(lv, lv.len() as int) == Ok::<
            Seq<(Seq<Seq<char>>, LineType)>,
            AssemblerError,
        >(Seq::empty()));
        assert(ps + Seq::<(Seq<Seq<char>>, LineType)>::empty() =~= ps);
        assert(total == Ok::<Seq<(Seq<Seq<char>>, LineType)>, AssemblerError>(ps));
    }
    let ghost btotal = spec_build_from(ps, 0);
    let mut out: Vec<Instr> = Vec::new();
    let mut b: usize = 0;
    proof {
        assert(program_view(out@) =~= Seq::<InstrModel>::empty());
        match spec_build_from(ps, 0) {
            Ok(rest) => {
                assert(program_view(out@) + rest =~= rest);
            },
            Err(_) => {},
        }
    }
    while b < pairs.len()
        invariant
            b <= pairs@.len(),
            ps == pairs_view(pairs@),
            ps.len() == pairs@.len(),
            btotal == spec_build_from(ps, 0),
            btotal == spec_parse(input@),
            forall|j: int|
                0 <= j < pairs@.len() ==> tokens_ok(
                    #[trigger] pairs_view(pairs@)[j].0,
                    pairs_view(pairs@)[j].1,
                ),
            match spec_build_from(ps, b as int) {
                Err(e) => btotal == Err::<Seq<InstrModel>, AssemblerError>(e),
                Ok(rest) => btotal == Ok::<Seq<InstrModel>, AssemblerError>(
                    program_view(out@) + rest,
                ),
            },
            program_wf(program_view(out@)),
        decreases pairs@.len() - b,
    {
        let lt = pairs[b].1;
        proof {
            assert(ps[b as int].0 == pairs@[b as int].0.deep_view());
            assert(ps[b as int].1 == pairs@[b as int].1);
        }
        match line_to_instr(&pairs[b].0, lt) {
            Ok(Some(instr)) => {
                let ghost m = instr_view(instr);
                let ghost old_p = program_view(out@);
                out.push(instr);
                proof {
                    assert(program_view(out@) =~= old_p + seq![m]);
                    match spec_build_from(ps, b + 1 as int) {
                        Ok(rest) => {
                            assert(old_p + (seq![m] + rest) =~= (old_p + seq![m]) + rest);
                        },
                        Err(_) => {},
                    }
                    assert(crate::instruction::instr_wf(m));
                }
            },
            Ok(None) => {},
            Err(e) => {
                return Err(e);
            },
        }
        b += 1;
    }
    proof {
        assert(spec_build_from(ps, ps.len() as int) == Ok::<Seq<InstrModel>, AssemblerError>(
            Seq::empty(),
        ));
        assert(program_view(out@) + Seq::<InstrModel>::empty() =~= program_view(out@));
    }
    Ok(out)
}

} // verus!
