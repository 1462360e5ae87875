use vstd::prelude::*;
use vstd::std_specs::iter::IteratorSpec;

verus! {

/// Unicode whitespace, as trimmed from line ends: the characters with the
/// White_Space property.
pub open spec fn is_space(c: char) -> bool {
    c == ' ' || c == '\t' || c == '\n' || c == '\r' || c == '\u{b}' || c == '\u{c}'
        || c == '\u{85}' || c == '\u{a0}' || c == '\u{1680}' || ('\u{2000}' <= c && c
        <= '\u{200a}') || c == '\u{2028}' || c == '\u{2029}' || c == '\u{202f}'
        || c == '\u{205f}' || c == '\u{3000}'
}

/// An ASCII letter, the only characters a mnemonic may hold.
pub open spec fn is_letter(c: char) -> bool {
    ('a' <= c && c <= 'z') || ('A' <= c && c <= 'Z')
}

pub open spec fn is_dec_digit(c: char) -> bool {
    '0' <= c && c <= '9'
}

pub open spec fn is_hex_digit(c: char) -> bool {
    is_dec_digit(c) || ('a' <= c && c <= 'f') || ('A' <= c && c <= 'F')
}

pub open spec fn is_bin_digit(c: char) -> bool {
    c == '0' || c == '1'
}

/// The register letters accepted inside a `%` operand.
pub open spec fn is_reg_letter(c: char) -> bool {
    c == 'a' || c == 'b' || c == 'c' || c == 'r' || c == 'i' || c == 'x' || c == 'y' || c == 'z'
}

pub fn is_letter_exec(c: char) -> (r: bool)
    ensures
        r == is_letter(c),
{
    ('a' <= c && c <= 'z') || ('A' <= c && c <= 'Z')
}

pub fn is_reg_letter_exec(c: char) -> (r: bool)
    ensures
        r == is_reg_letter(c),
{
    c == 'a' || c == 'b' || c == 'c' || c == 'r' || c == 'i' || c == 'x' || c == 'y' || c == 'z'
}

/// A character class that a scan runs over.
#[derive(Clone, Copy, Debug, PartialEq, Eq, Structural)]
pub enum CharClass {
    /// A literal space, the only padding the operand grammar accepts.
    Blank,
    /// Any Unicode whitespace.
    White,
    Decimal,
    Hexadecimal,
    Binary,
    /// Anything but a newline; scanning over it finds the end of a line.
    NonNewline,
}

pub open spec fn in_class(c: char, cls: CharClass) -> bool {
    match cls {
        CharClass::Blank => c == ' ',
        CharClass::White => is_space(c),
        CharClass::Decimal => is_dec_digit(c),
        CharClass::Hexadecimal => is_hex_digit(c),
        CharClass::Binary => is_bin_digit(c),
        CharClass::NonNewline => c != '\n',
    }
}

/// The first position at or after `i` that is past the end or holds a
/// character outside `cls`.
pub open spec fn spec_scan(s: Seq<char>, i: int, cls: CharClass) -> int
    decreases s.len() - i,
{
    if 0 <= i < s.len() && in_class(s[i], cls) {
        spec_scan(s, i + 1, cls)
    } else {
        i
    }
}

pub proof fn lemma_scan_bounds(s: Seq<char>, i: int, cls: CharClass)
    requires
        0 <= i <= s.len(),
    ensures
        i <= spec_scan(s, i, cls) <= s.len(),
        forall|j: int| i <= j < spec_scan(s, i, cls) ==> in_class(#[trigger] s[j], cls),
        spec_scan(s, i, cls) < s.len() ==> !in_class(s[spec_scan(s, i, cls)], cls),
    decreases s.len() - i,
{
    if i < s.len() && in_class(s[i], cls) {
        lemma_scan_bounds(s, i + 1, cls);
    }
}

pub fn in_class_exec(c: char, cls: CharClass) -> (r: bool)
    ensures
        r == in_class(c, cls),
{
    match cls {
        CharClass::Blank => c == ' ',
        CharClass::White => c == ' ' || c == '\t' || c == '\n' || c == '\r' || c == '\u{b}'
            || c == '\u{c}' || c == '\u{85}' || c == '\u{a0}' || c == '\u{1680}'
            || ('\u{2000}' <= c && c <= '\u{200a}') || c == '\u{2028}' || c == '\u{2029}'
            || c == '\u{202f}' || c == '\u{205f}' || c == '\u{3000}',
        CharClass::Decimal => '0' <= c && c <= '9',
        CharClass::Hexadecimal => ('0' <= c && c <= '9') || ('a' <= c && c <= 'f') || ('A' <= c
            && c <= 'F'),
        CharClass::Binary => c == '0' || c == '1',
        CharClass::NonNewline => c != '\n',
    }
}

pub fn scan(s: &Vec<char>, i: usize, cls: CharClass) -> (r: usize)
    requires
        i <= s@.len(),
    ensures
        r == spec_scan(s@, i as int, cls),
        i <= r <= s@.len(),
    decreases s@.len() - i,
{
    let mut j = i;
    while j < s.len() && in_class_exec(s[j], cls)
        invariant
            i <= j <= s@.len(),
            spec_scan(s@, i as int, cls) == spec_scan(s@, j as int, cls),
        decreases s@.len() - j,
    {
        j += 1;
    }
    j
}

/// The first position at or before `i` such that every character from it up
/// to `i` is whitespace, walking backwards.
pub open spec fn spec_rscan_white(s: Seq<char>, i: int) -> int
    decreases i,
{
    if 0 < i <= s.len() && is_space(s[i - 1]) {
        spec_rscan_white(s, i - 1)
    } else {
        i
    }
}

pub fn rscan_white(s: &Vec<char>, i: usize) -> (r: usize)
    requires
        i <= s@.len(),
    ensures
        r == spec_rscan_white(s@, i as int),
        r <= i,
{
    let mut j = i;
    while j > 0 && in_class_exec(s[j - 1], CharClass::White)
        invariant
            j <= i <= s@.len(),
            spec_rscan_white(s@, i as int) == spec_rscan_white(s@, j as int),
        decreases j,
    {
        j -= 1;
    }
    j
}

/// The line with leading and trailing whitespace removed.
pub open spec fn spec_trim(s: Seq<char>) -> Seq<char> {
    let a = spec_scan(s, 0, CharClass::White);
    let b = spec_rscan_white(s, s.len() as int);
    if a >= b {
        Seq::empty()
    } else {
        s.subrange(a, b)
    }
}

/// A copy of `s[from..to]`.
pub fn copy_range(s: &Vec<char>, from: usize, to: usize) -> (r: Vec<char>)
    requires
        from <= to <= s@.len(),
    ensures
        r@ == s@.subrange(from as int, to as int),
{
    let mut out: Vec<char> = Vec::new();
    let mut j = from;
    while j < to
        invariant
            from <= j <= to <= s@.len(),
            out@ == s@.subrange(from as int, j as int),
        decreases to - j,
    {
        out.push(s[j]);
        assert(s@.subrange(from as int, j as int) + seq![s@[j as int]] =~= s@.subrange(
            from as int,
            j + 1 as int,
        ));
        j += 1;
    }
    out
}

pub fn trim(s: &Vec<char>) -> (r: Vec<char>)
    ensures
        r@ == spec_trim(s@),
{
    let a = scan(s, 0, CharClass::White);
    let b = rscan_white(s, s.len());
    if a >= b {
        let out: Vec<char> = Vec::new();
        assert(out@ =~= spec_trim(s@));
        out
    } else {
        copy_range(s, a, b)
    }
}

/// The lines of `s` from position `i` on, split on newline characters; a
/// trailing newline yields a final empty line.
pub open spec fn spec_split_from(s: Seq<char>, i: int) -> Seq<Seq<char>>
    decreases s.len() - i,
    via spec_split_from_decreases
{
    let j = spec_scan(s, i, CharClass::NonNewline);
    if !(0 <= i <= s.len()) {
        Seq::empty()
    } else if j >= s.len() {
        seq![s.subrange(i, s.len() as int)]
    } else {
        seq![s.subrange(i, j)] + spec_split_from(s, j + 1)
    }
}

#[via_fn]
proof fn spec_split_from_decreases(s: Seq<char>, i: int) {
    if 0 <= i <= s.len() {
        lemma_scan_bounds(s, i, CharClass::NonNewline);
    }
}

pub fn split_from(s: &Vec<char>, i: usize) -> (r: Vec<Vec<char>>)
    requires
        i <= s@.len(),
    ensures
        r.deep_view() == spec_split_from(s@, i as int),
    decreases s@.len() - i,
{
    let j = scan(s, i, CharClass::NonNewline);
    proof {
        lemma_scan_bounds(s@, i as int, CharClass::NonNewline);
    }
    if j >= s.len() {
        let mut out: Vec<Vec<char>> = Vec::new();
        out.push(copy_range(s, i, s.len()));
        assert(out.deep_view() =~~= spec_split_from(s@, i as int));
        out
    } else {
        let head = copy_range(s, i, j);
        let mut rest = split_from(s, j + 1);
        let ghost rest_view = rest.deep_view();
        let mut out: Vec<Vec<char>> = Vec::new();
        out.push(head);
        out.append(&mut rest);
        assert(out.deep_view() =~~= seq![s@.subrange(i as int, j as int)] + rest_view);
        assert(out.deep_view() =~~= spec_split_from(s@, i as int));
        out
    }
}

/// The characters of a string, in order.
pub fn str_to_chars(s: &str) -> (r: Vec<char>)
    ensures
        r@ == s@,
{
    broadcast use vstd::string::group_string_axioms;
    broadcast use vstd::string::next_postcondition;

    let mut it = s.chars();
    let mut out: Vec<char> = Vec::new();
    loop
        invariant
            it.obeys_prophetic_iter_laws(),
            it.decrease() is Some,
            out@ + it.remaining() == s@,
        decreases it.decrease()->0,
    {
        match it.next() {
            Some(c) => {
                out.push(c);
            },
            None => {
                return out;
            },
        }
    }
}

} // verus!
