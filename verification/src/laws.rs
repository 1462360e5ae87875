use vstd::prelude::*;
use crate::error::AssemblerError;
use crate::text::{CharClass, in_class, spec_scan, spec_trim, spec_split_from, lemma_scan_bounds};
use crate::instruction::{
    InstrModel, spec_s_code, spec_program_bytes, spec_instr_bytes,
};
use crate::literal::{
    Base, base_class, radix_val, radix_accepts, spec_min_be, bytes_val, spec_parse_value,
    spec_radix_value_result, lemma_radix_nonneg,
};
use crate::parser::{
    Pattern, LineType, spec_match_at, spec_trail_ok, spec_handle, spec_parse_line,
    spec_s_lookup, spec_classify_from, spec_build_from, spec_parse,
};

verus! {

// --- Helpers on the grammar relation. ---

/// A run of characters of one class scans to the end of the sequence.
pub proof fn lemma_scan_to_end(s: Seq<char>, i: int, cls: CharClass)
    requires
        0 <= i <= s.len(),
        forall|k: int| i <= k < s.len() ==> in_class(#[trigger] s[k], cls),
    ensures
        spec_scan(s, i, cls) == s.len(),
{
    lemma_scan_bounds(s, i, cls);
}

// --- Law: determinism of the whole translation. ---

/// Law: assembly and encoding are deterministic. Any two results that meet
/// the assembler's contract on the same input text are the same, and their
/// encodings are byte-identical.
pub proof fn lemma_assembly_deterministic(
    s: Seq<char>,
    r1: Result<Seq<InstrModel>, AssemblerError>,
    r2: Result<Seq<InstrModel>, AssemblerError>,
)
    requires
        r1 == spec_parse(s),
        r2 == spec_parse(s),
    ensures
        r1 == r2,
        r1 matches Ok(p1) ==> spec_program_bytes(p1) == spec_program_bytes(r2->Ok_0),
{
}

// --- Law: a lone S-shape mnemonic. ---

/// Law: for every valid S-shape mnemonic, in either case, assembling the
/// mnemonic alone yields exactly one instruction, and its encoding is one
/// byte holding the opcode in the high six bits and zero in the low two.
pub proof fn lemma_s_mnemonic_encodes(m: Seq<char>)
    requires
        m.len() == 3,
        spec_s_lookup(m) is Ok,
    ensures
        spec_parse(m) == Ok::<Seq<InstrModel>, AssemblerError>(seq![InstrModel::S(spec_s_lookup(m)->Ok_0)]),
        spec_program_bytes(seq![InstrModel::S(spec_s_lookup(m)->Ok_0)]) == seq![
            (spec_s_code(spec_s_lookup(m)->Ok_0) * 4) as u8,
        ],
{
    let id = spec_s_lookup(m)->Ok_0;
    // Each character is a letter: the lookup succeeded case-insensitively.
    assert forall|k: int| 0 <= k < 3 implies crate::text::is_letter(#[trigger] m[k]) by {
        assert(crate::parser::lower_char(m[k]) == m[k] || ('A' <= m[k] && m[k] <= 'Z'));
    }
    // The line splits into itself alone and trims to itself.
    assert forall|k: int| 0 <= k < m.len() implies in_class(
        #[trigger] m[k],
        CharClass::NonNewline,
    ) by {}
    lemma_scan_to_end(m, 0, CharClass::NonNewline);
    assert(m.subrange(0, 3) =~= m);
    assert(spec_split_from(m, 0) =~= seq![m]);
    assert(spec_scan(m, 0, CharClass::White) == 0);
    assert(crate::text::spec_rscan_white(m, 3) == 3);
    assert(spec_trim(m) =~= m);
    // No pattern before the S shape matches at the head of the line.
    assert(spec_match_at(m, 0, Pattern::ValueDir) is None);
    assert(crate::parser::spec_match_mnem(m, 0) is None);
    assert(spec_match_at(m, 0, Pattern::RShape) is None);
    assert(spec_match_at(m, 0, Pattern::IShape) is None);
    // The S shape matches the whole line with an empty trail.
    assert(crate::parser::spec_match_s_at(m, 0) == Some((3int, seq![m])));
    assert(spec_scan(m, 3, CharClass::White) == 3);
    assert(spec_trail_ok(m, 3));
    assert(spec_handle(m, Pattern::SShape) == Ok::<_, AssemblerError>(
        (seq![m], LineType::SInstr),
    ));
    assert(spec_parse_line(m) == Ok::<_, AssemblerError>((seq![m], LineType::SInstr)));
    // One classified line, one built instruction.
    let lines = seq![m];
    assert(spec_classify_from(lines, 1) == Ok::<Seq<(Seq<Seq<char>>, LineType)>, AssemblerError>(
        Seq::empty(),
    ));
    let pair = (seq![m], LineType::SInstr);
    assert(seq![pair] + Seq::<(Seq<Seq<char>>, LineType)>::empty() =~= seq![pair]);
    assert(spec_classify_from(lines, 0) == Ok::<_, AssemblerError>(seq![pair]));
    let ps = seq![pair];
    assert(spec_build_from(ps, 1) == Ok::<Seq<InstrModel>, AssemblerError>(Seq::empty()));
    assert(seq![InstrModel::S(id)] + Seq::<InstrModel>::empty() =~= seq![InstrModel::S(id)]);
    assert(spec_build_from(ps, 0) == Ok::<_, AssemblerError>(seq![InstrModel::S(id)]));
    // The encoding of the single instruction.
    let prog = seq![InstrModel::S(id)];
    assert(prog.drop_last() =~= Seq::<InstrModel>::empty());
    assert(spec_program_bytes(Seq::<InstrModel>::empty()) == Seq::<u8>::empty());
    assert(prog.last() == InstrModel::S(id));
    assert(spec_program_bytes(prog) == Seq::<u8>::empty() + spec_instr_bytes(InstrModel::S(id)));
    assert(Seq::<u8>::empty() + spec_instr_bytes(InstrModel::S(id)) =~= seq![(spec_s_code(id)
        * 4) as u8]);
}

// --- Law: minimal big-endian literal bytes. ---

/// The minimal big-endian bytes of a value read back to that value, are
/// never empty, and carry no leading zero byte except for the single zero
/// byte of the value zero.
pub proof fn lemma_min_be_minimal(n: int)
    requires
        0 <= n,
    ensures
        bytes_val(spec_min_be(n)) == n,
        spec_min_be(n).len() >= 1,
        n > 0 ==> spec_min_be(n)[0] != 0,
        n == 0 ==> spec_min_be(n) == seq![0u8],
    decreases n,
{
    if n < 256 {
        let one = seq![n as u8];
        assert(spec_min_be(n) =~= one);
        assert(one.drop_last() =~= Seq::<u8>::empty());
        assert(bytes_val(Seq::<u8>::empty()) == 0);
        assert(one.last() == n as u8);
        assert(bytes_val(one) == 0 * 256 + n as u8);
        if n == 0 {
            assert(spec_min_be(n) =~= seq![0u8]);
        }
    } else {
        assert(0 <= n / 256 < n) by (nonlinear_arith)
            requires
                n >= 256,
        ;
        lemma_min_be_minimal(n / 256);
        let head = spec_min_be(n / 256);
        assert(spec_min_be(n) == head.push((n % 256) as u8));
        assert(head.push((n % 256) as u8).drop_last() =~= head);
        assert(head.push((n % 256) as u8).last() == (n % 256) as u8);
        assert(bytes_val(spec_min_be(n)) == (n / 256) * 256 + n % 256);
        assert((n / 256) * 256 + n % 256 == n) by (nonlinear_arith)
            requires
                n >= 0,
        ;
        assert(spec_min_be(n)[0] == head[0]);
    }
}

/// Law: a numeric literal whose value fits the native width parses to the
/// minimal big-endian bytes of its value: they read back to the value and
/// carry no leading zero byte, except the single zero byte of the literal
/// zero. Emitted as a `Value` instruction, those bytes pass to the output
/// unchanged.
pub proof fn lemma_literal_round_trip(t: Seq<char>, b: Base)
    requires
        match b {
            Base::Hex => t.len() >= 2 && t[0] == '0' && t[1] == 'x' && radix_accepts(
                t.subrange(2, t.len() as int),
                Base::Hex,
            ),
            Base::Bin => t.len() >= 2 && t[0] == '0' && t[1] == 'b' && radix_accepts(
                t.subrange(2, t.len() as int),
                Base::Bin,
            ),
            Base::Dec => radix_accepts(t, Base::Dec),
        },
    ensures
        ({
            let body = if b == Base::Dec {
                t
            } else {
                t.subrange(2, t.len() as int)
            };
            let v = radix_val(body, b);
            spec_parse_value(t) == Ok::<Seq<u8>, AssemblerError>(spec_min_be(v)) && bytes_val(spec_min_be(v)) == v && (v > 0
                ==> spec_min_be(v)[0] != 0) && (v == 0 ==> spec_min_be(v) == seq![0u8])
                && spec_instr_bytes(InstrModel::Value(spec_min_be(v))) == spec_min_be(v)
        }),
{
    let body = if b == Base::Dec {
        t
    } else {
        t.subrange(2, t.len() as int)
    };
    lemma_radix_nonneg(body, b);
    lemma_min_be_minimal(radix_val(body, b));
    match b {
        Base::Dec => {
            // A decimal literal is digits only, so it carries no `0x`/`0b`
            // prefix and no opening quote.
            assert(in_class(t[0], base_class(Base::Dec)));
            if t.len() >= 2 {
                assert(in_class(t[1], base_class(Base::Dec)));
            }
            assert(spec_parse_value(t) == spec_radix_value_result(t, Base::Dec));
        },
        Base::Hex => {},
        Base::Bin => {},
    }
}

// --- Law: R-shape lines with two operands. ---

/// The text of an R-shape line with two register operands and an optional
/// size suffix: `mnem %c1, %c2` or `mnemb %c1, %c2`.
pub open spec fn r_line(m: Seq<char>, with_suffix: bool, c1: char, c2: char) -> Seq<char> {
    m + (if with_suffix {
        seq!['b']
    } else {
        Seq::<char>::empty()
    }) + seq![' ', '%', c1, ',', ' ', '%', c2]
}

/// Law: an R-shape line with the third operand omitted builds an
/// instruction whose third register is a copy of the first, and its size
/// flag is set exactly when the `b` suffix is absent.
pub proof fn lemma_r_line_defaults(m: Seq<char>, with_suffix: bool, c1: char, c2: char)
    requires
        m.len() == 3,
        crate::parser::spec_r_lookup(m) is Ok,
        crate::text::is_reg_letter(c1),
        crate::text::is_reg_letter(c2),
    ensures
        spec_parse(r_line(m, with_suffix, c1, c2)) == Ok::<Seq<InstrModel>, AssemblerError>(
            seq![
                InstrModel::R(
                    crate::parser::spec_r_lookup(m)->Ok_0,
                    !with_suffix,
                    crate::parser::spec_reg_lookup(c1)->Ok_0,
                    crate::parser::spec_reg_lookup(c2)->Ok_0,
                    crate::parser::spec_reg_lookup(c1)->Ok_0,
                ),
            ],
        ),
{
    let s = r_line(m, with_suffix, c1, c2);
    let k: int = if with_suffix {
        1
    } else {
        0
    };
    let id = crate::parser::spec_r_lookup(m)->Ok_0;
    let r1 = crate::parser::spec_reg_lookup(c1)->Ok_0;
    let r2 = crate::parser::spec_reg_lookup(c2)->Ok_0;
    assert(s.len() == 10 + k);
    assert forall|j: int| 0 <= j < 3 implies #[trigger] s[j] == m[j] by {}
    assert forall|j: int| 0 <= j < 3 implies crate::text::is_letter(#[trigger] m[j]) by {
        assert(crate::parser::lower_char(m[j]) == m[j] || ('A' <= m[j] && m[j] <= 'Z'));
    }
    if with_suffix {
        assert(s[3] == 'b');
    }
    assert(s[3 + k] == ' ');
    assert(s[4 + k] == '%');
    assert(s[5 + k] == c1);
    assert(s[6 + k] == ',');
    assert(s[7 + k] == ' ');
    assert(s[8 + k] == '%');
    assert(s[9 + k] == c2);
    // Every character is harmless: no newline, no `#`, and the line neither
    // starts with whitespace or `;` nor ends with whitespace.
    assert forall|j: int| 0 <= j < s.len() implies (#[trigger] s[j]) != '\n' && s[j] != '#' by {
        if j < 3 {
            assert(crate::text::is_letter(s[j]));
        } else if j == 3 && with_suffix {
        } else {
            assert(j - 3 - k >= 0 && j - 3 - k < 7);
        }
    }
    assert forall|j: int| 0 <= j < s.len() implies in_class(
        #[trigger] s[j],
        CharClass::NonNewline,
    ) by {}
    lemma_scan_to_end(s, 0, CharClass::NonNewline);
    assert(s.subrange(0, s.len() as int) =~= s);
    assert(spec_split_from(s, 0) =~= seq![s]);
    assert(!crate::text::is_space(s[0]));
    assert(!crate::text::is_space(s[9 + k]));
    assert(spec_scan(s, 0, CharClass::White) == 0);
    assert(crate::text::spec_rscan_white(s, s.len() as int) == s.len());
    assert(spec_trim(s) =~= s);
    // The value directive does not match the head of the line; the R shape
    // matches the whole line from its head.
    assert(s[0] != '#');
    assert(spec_match_at(s, 0, Pattern::ValueDir) is None);
    assert(crate::parser::spec_match_mnem(s, 0) == Some(
        ((4 + k), s.subrange(0, 3), if with_suffix {
            seq!['b']
        } else {
            Seq::<char>::empty()
        }),
    )) by {
        assert(spec_scan(s, 4 + k, CharClass::Blank) == 4 + k);
        assert(spec_scan(s, 3 + k, CharClass::Blank) == 4 + k);
    }
    let base = seq![
        s.subrange(0, 3),
        if with_suffix {
            seq!['b']
        } else {
            Seq::<char>::empty()
        },
        s.subrange(4 + k, 6 + k),
        s.subrange(8 + k, 10 + k),
    ];
    assert(crate::parser::spec_match_r_at(s, 0) == Some(((10 + k), base))) by {
        assert(crate::parser::spec_match_reg(s, 4 + k) == Some(6 + k));
        assert(spec_scan(s, 6 + k, CharClass::Blank) == 6 + k);
        assert(spec_scan(s, 8 + k, CharClass::Blank) == 8 + k);
        assert(spec_scan(s, 7 + k, CharClass::Blank) == 8 + k);
        assert(crate::parser::spec_match_sep(s, 6 + k) == Some(8 + k));
        assert(crate::parser::spec_match_reg(s, 8 + k) == Some(10 + k));
        assert(spec_scan(s, 10 + k, CharClass::Blank) == 10 + k);
        assert(crate::parser::spec_match_sep(s, 10 + k) is None);
    }
    assert(spec_scan(s, 10 + k, CharClass::White) == 10 + k);
    assert(spec_trail_ok(s, 10 + k));
    assert(spec_handle(s, Pattern::RShape) == Ok::<_, AssemblerError>(
        (base, LineType::RInstr),
    ));
    assert(spec_parse_line(s) == Ok::<_, AssemblerError>((base, LineType::RInstr)));
    // One classified line, one built instruction with the defaults.
    let lines = seq![s];
    let pair = (base, LineType::RInstr);
    assert(spec_classify_from(lines, 1) == Ok::<Seq<(Seq<Seq<char>>, LineType)>, AssemblerError>(
        Seq::empty(),
    ));
    assert(seq![pair] + Seq::<(Seq<Seq<char>>, LineType)>::empty() =~= seq![pair]);
    assert(spec_classify_from(lines, 0) == Ok::<_, AssemblerError>(seq![pair]));
    let model = InstrModel::R(id, !with_suffix, r1, r2, r1);
    assert(base[0] =~= m);
    assert(base[1].len() == 0 <==> !with_suffix);
    assert(base[2][1] == c1);
    assert(base[3][1] == c2);
    assert(crate::parser::spec_line_to_instr(base, LineType::RInstr) == Ok::<
        Option<InstrModel>,
        AssemblerError,
    >(Some(model)));
    let ps = seq![pair];
    assert(spec_build_from(ps, 1) == Ok::<Seq<InstrModel>, AssemblerError>(Seq::empty()));
    assert(seq![model] + Seq::<InstrModel>::empty() =~= seq![model]);
    assert(spec_build_from(ps, 0) == Ok::<_, AssemblerError>(seq![model]));
}

// --- Law: blank and comment lines are inert. ---

/// The classified form of a blank or comment line: no tokens, empty class.
pub open spec fn empty_pair() -> (Seq<Seq<char>>, LineType) {
    (Seq::<Seq<char>>::empty(), LineType::Empty)
}

/// A line that contributes nothing: blank, or comment-only.
pub open spec fn line_inert(l: Seq<char>) -> bool {
    spec_trim(l).len() == 0 || spec_trim(l)[0] == ';'
}

/// The lines of a document with the inert ones removed.
pub open spec fn strip_inert(lines: Seq<Seq<char>>) -> Seq<Seq<char>>
    decreases lines.len(),
{
    if lines.len() == 0 {
        Seq::empty()
    } else if line_inert(lines.first()) {
        strip_inert(lines.drop_first())
    } else {
        seq![lines.first()] + strip_inert(lines.drop_first())
    }
}

/// The classified lines with the empty-class entries removed.
pub open spec fn strip_empty_pairs(ps: Seq<(Seq<Seq<char>>, LineType)>) -> Seq<
    (Seq<Seq<char>>, LineType),
>
    decreases ps.len(),
{
    if ps.len() == 0 {
        Seq::empty()
    } else if ps.first().1 == LineType::Empty {
        strip_empty_pairs(ps.drop_first())
    } else {
        seq![ps.first()] + strip_empty_pairs(ps.drop_first())
    }
}

/// Classifying two line lists that agree from the given positions on
/// yields the same result.
pub proof fn lemma_classify_shifted(a: Seq<Seq<char>>, b: Seq<Seq<char>>, i: int, j: int)
    requires
        0 <= i <= a.len(),
        0 <= j <= b.len(),
        a.len() - i == b.len() - j,
        forall|d: int| 0 <= d < a.len() - i ==> (#[trigger] a[i + d]) == b[j + d],
    ensures
        spec_classify_from(a, i) == spec_classify_from(b, j),
    decreases a.len() - i,
{
    if i < a.len() {
        assert(a[i + 0] == b[j + 0]);
        assert forall|d: int| 0 <= d < a.len() - (i + 1) implies (#[trigger] a[i + 1 + d]) == b[j
            + 1 + d] by {
            assert(a[i + (d + 1)] == b[j + (d + 1)]);
        }
        lemma_classify_shifted(a, b, i + 1, j + 1);
    }
}

/// Building two classified lists that agree from the given positions on
/// yields the same result.
pub proof fn lemma_build_shifted(
    a: Seq<(Seq<Seq<char>>, LineType)>,
    b: Seq<(Seq<Seq<char>>, LineType)>,
    i: int,
    j: int,
)
    requires
        0 <= i <= a.len(),
        0 <= j <= b.len(),
        a.len() - i == b.len() - j,
        forall|d: int| 0 <= d < a.len() - i ==> (#[trigger] a[i + d]) == b[j + d],
    ensures
        spec_build_from(a, i) == spec_build_from(b, j),
    decreases a.len() - i,
{
    if i < a.len() {
        assert(a[i + 0] == b[j + 0]);
        assert forall|d: int| 0 <= d < a.len() - (i + 1) implies (#[trigger] a[i + 1 + d]) == b[j
            + 1 + d] by {
            assert(a[i + (d + 1)] == b[j + (d + 1)]);
        }
        lemma_build_shifted(a, b, i + 1, j + 1);
    }
}

/// A line that classifies successfully gets the empty class exactly when
/// it is blank or comment-only.
pub proof fn lemma_parse_line_class(s: Seq<char>)
    ensures
        spec_parse_line(s) matches Ok(p) ==> (p.1 == LineType::Empty <==> line_inert(s)),
{
}

/// Classifying a document with its inert lines removed fails on the same
/// error, or yields the same entries with the empty-class ones removed.
pub proof fn lemma_classify_strip(lines: Seq<Seq<char>>)
    ensures
        spec_classify_from(lines, 0) matches Err(e) ==> spec_classify_from(strip_inert(lines), 0)
            == Err::<Seq<(Seq<Seq<char>>, LineType)>, AssemblerError>(e),
        spec_classify_from(lines, 0) matches Ok(ps) ==> spec_classify_from(strip_inert(lines), 0)
            == Ok::<Seq<(Seq<Seq<char>>, LineType)>, AssemblerError>(strip_empty_pairs(ps)),
    decreases lines.len(),
{
    let stripped = strip_inert(lines);
    if lines.len() == 0 {
        assert(strip_empty_pairs(Seq::empty()) =~= Seq::<(Seq<Seq<char>>, LineType)>::empty());
    } else {
        let l0 = lines.first();
        let rest = lines.drop_first();
        assert(lines[0] == l0);
        assert forall|d: int| 0 <= d < lines.len() - 1 implies (#[trigger] lines[1 + d]) == rest[0
            + d] by {
            assert(rest[d] == lines[1 + d]);
        }
        lemma_classify_shifted(lines, rest, 1, 0);
        lemma_classify_strip(rest);
        lemma_parse_line_class(l0);
        if line_inert(l0) {
            assert(stripped == strip_inert(rest));
            assert(spec_parse_line(l0) == Ok::<(Seq<Seq<char>>, LineType), AssemblerError>(
                empty_pair(),
            ));
            match spec_classify_from(rest, 0) {
                Err(_) => {},
                Ok(psd) => {
                    let ps = seq![empty_pair()] + psd;
                    assert(spec_classify_from(lines, 0) == Ok::<_, AssemblerError>(ps));
                    assert(ps.first() == empty_pair());
                    assert(ps.drop_first() =~= psd);
                    assert(strip_empty_pairs(ps) == strip_empty_pairs(psd));
                },
            }
        } else {
            assert(stripped == seq![l0] + strip_inert(rest));
            assert(stripped[0] == l0);
            assert forall|d: int| 0 <= d < stripped.len() - 1 implies (#[trigger] stripped[1 + d])
                == strip_inert(rest)[0 + d] by {}
            lemma_classify_shifted(stripped, strip_inert(rest), 1, 0);
            match spec_parse_line(l0) {
                Err(_) => {},
                Ok(p) => {
                    assert(p.1 != LineType::Empty);
                    match spec_classify_from(rest, 0) {
                        Err(_) => {},
                        Ok(psd) => {
                            let ps = seq![p] + psd;
                            assert(spec_classify_from(lines, 0) == Ok::<_, AssemblerError>(ps));
                            assert(ps.first() == p);
                            assert(ps.drop_first() =~= psd);
                            assert(strip_empty_pairs(ps) == seq![p] + strip_empty_pairs(psd));
                            assert(spec_classify_from(stripped, 0) == Ok::<_, AssemblerError>(
                                seq![p] + strip_empty_pairs(psd),
                            ));
                        },
                    }
                },
            }
        }
    }
}

/// Building skips the empty-class entries entirely.
pub proof fn lemma_build_strip(ps: Seq<(Seq<Seq<char>>, LineType)>)
    ensures
        spec_build_from(ps, 0) == spec_build_from(strip_empty_pairs(ps), 0),
    decreases ps.len(),
{
    if ps.len() > 0 {
        let p0 = ps.first();
        let rest = ps.drop_first();
        assert(ps[0] == p0);
        assert forall|d: int| 0 <= d < ps.len() - 1 implies (#[trigger] ps[1 + d]) == rest[0
            + d] by {
            assert(rest[d] == ps[1 + d]);
        }
        lemma_build_shifted(ps, rest, 1, 0);
        lemma_build_strip(rest);
        if p0.1 == LineType::Empty {
            assert(crate::parser::spec_line_to_instr(p0.0, p0.1) == Ok::<
                Option<InstrModel>,
                AssemblerError,
            >(None));
            assert(strip_empty_pairs(ps) == strip_empty_pairs(rest));
        } else {
            let st = seq![p0] + strip_empty_pairs(rest);
            assert(strip_empty_pairs(ps) == st);
            assert(st[0] == p0);
            assert forall|d: int| 0 <= d < st.len() - 1 implies (#[trigger] st[1 + d])
                == strip_empty_pairs(rest)[0 + d] by {}
            lemma_build_shifted(st, strip_empty_pairs(rest), 1, 0);
        }
    } else {
        assert(strip_empty_pairs(ps) =~= Seq::<(Seq<Seq<char>>, LineType)>::empty());
    }
}

/// Assembly depends only on the lines that are not inert.
pub proof fn lemma_lines_result_strip(lines: Seq<Seq<char>>)
    ensures
        crate::parser::spec_lines_result(lines) == crate::parser::spec_lines_result(
            strip_inert(lines),
        ),
{
    lemma_classify_strip(lines);
    match spec_classify_from(lines, 0) {
        Err(_) => {},
        Ok(ps) => {
            lemma_build_strip(ps);
        },
    }
}

/// Law: blank and comment-only lines never contribute to the output,
/// whatever their position or count: two documents whose lines agree after
/// the inert lines are removed assemble to the same result, so inserting
/// or removing any number of such lines anywhere changes nothing.
pub proof fn lemma_inert_lines_never_contribute(l1: Seq<Seq<char>>, l2: Seq<Seq<char>>)
    requires
        strip_inert(l1) == strip_inert(l2),
    ensures
        crate::parser::spec_lines_result(l1) == crate::parser::spec_lines_result(l2),
{
    lemma_lines_result_strip(l1);
    lemma_lines_result_strip(l2);
}

// --- Law: trailing garbage is a syntax error. ---

/// Law: when a grammar matches the head of a trimmed line but non-comment
/// text trails the match, committing to that grammar yields the syntax
/// error and no token list: the line is never silently truncated.
pub proof fn lemma_handle_trailing_garbage(t: Seq<char>, pat: Pattern)
    requires
        spec_match_at(t, 0, pat) matches Some(m) && !spec_trail_ok(t, m.0),
    ensures
        spec_handle(t, pat) == Err::<(Seq<Seq<char>>, LineType), AssemblerError>(
            AssemblerError::InvalidSyntaxError,
        ),
{
}

/// Law: a non-empty, non-comment line on which every grammar that matches
/// the line head leaves non-comment text behind is rejected with the
/// syntax error, whichever grammar wins the priority order.
pub proof fn lemma_trailing_garbage_rejected(s: Seq<char>)
    requires
        spec_trim(s).len() > 0,
        spec_trim(s)[0] != ';',
        forall|pat: Pattern|
            (#[trigger] spec_match_at(spec_trim(s), 0, pat)) matches Some(m) ==> !spec_trail_ok(
                spec_trim(s),
                m.0,
            ),
    ensures
        spec_parse_line(s) == Err::<(Seq<Seq<char>>, LineType), AssemblerError>(
            AssemblerError::InvalidSyntaxError,
        ),
{
    let t = spec_trim(s);
    assert(spec_match_at(t, 0, Pattern::ValueDir) matches Some(m) ==> !spec_trail_ok(t, m.0));
    assert(spec_match_at(t, 0, Pattern::RShape) matches Some(m) ==> !spec_trail_ok(t, m.0));
    assert(spec_match_at(t, 0, Pattern::IShape) matches Some(m) ==> !spec_trail_ok(t, m.0));
    assert(spec_match_at(t, 0, Pattern::SShape) matches Some(m) ==> !spec_trail_ok(t, m.0));
}

} // verus!
