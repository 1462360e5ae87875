use vstd::prelude::*;

verus! {

/// Opcode identifiers of the S shape (no operands), 6-bit codes 0 and 63.
#[derive(Clone, Copy, Debug, PartialEq, Eq, Structural)]
pub enum SInstrIdent {
    HLT,
    NOP,
}

/// Opcode identifiers of the I shape (register/memory plus immediate),
/// 6-bit codes 2 and 4. The canonical table keeps the `ADI`/`SBI` style
/// identifiers while the mnemonic text on a source line stays `add`/`sub`,
/// shared with the R shape but mapped to these distinct codes.
#[derive(Clone, Copy, Debug, PartialEq, Eq, Structural)]
pub enum IInstrIdent {
    ADI,
    SBI,
}

/// Opcode identifiers of the R shape (three register operands),
/// 6-bit codes 1 and 3.
#[derive(Clone, Copy, Debug, PartialEq, Eq, Structural)]
pub enum RInstrIdent {
    ADD,
    SUB,
}

/// The eight registers, each with a fixed 3-bit code 0 through 7.
#[derive(Clone, Copy, Debug, PartialEq, Eq, Structural)]
pub enum RegisterIdent {
    A,
    B,
    C,
    X,
    Y,
    Z,
    R,
    I,
}

/// One typed instruction: one of the three fixed bit layouts, or a raw
/// literal byte sequence emitted verbatim by a `#value` directive.
#[derive(Debug)]
pub enum Instr {
    SInstr(SInstrIdent),
    IInstr(IInstrIdent, bool, RegisterIdent, RegisterIdent, u16, u8),
    RInstr(RInstrIdent, bool, RegisterIdent, RegisterIdent, RegisterIdent),
    Value(Vec<u8>),
}

/// The mathematical model of an instruction: the same shapes, with the
/// literal bytes of a `Value` as a sequence.
pub enum InstrModel {
    S(SInstrIdent),
    I(IInstrIdent, bool, RegisterIdent, RegisterIdent, u16, u8),
    R(RInstrIdent, bool, RegisterIdent, RegisterIdent, RegisterIdent),
    Value(Seq<u8>),
}

pub open spec fn spec_s_code(i: SInstrIdent) -> u8 {
    match i {
        SInstrIdent::HLT => 0,
        SInstrIdent::NOP => 63,
    }
}

pub open spec fn spec_i_code(i: IInstrIdent) -> u8 {
    match i {
        IInstrIdent::ADI => 2,
        IInstrIdent::SBI => 4,
    }
}

pub open spec fn spec_r_code(i: RInstrIdent) -> u8 {
    match i {
        RInstrIdent::ADD => 1,
        RInstrIdent::SUB => 3,
    }
}

pub open spec fn spec_reg_code(r: RegisterIdent) -> u8 {
    match r {
        RegisterIdent::A => 0,
        RegisterIdent::B => 1,
        RegisterIdent::C => 2,
        RegisterIdent::X => 3,
        RegisterIdent::Y => 4,
        RegisterIdent::Z => 5,
        RegisterIdent::R => 6,
        RegisterIdent::I => 7,
    }
}

/// The 6-bit numeric code of an S-shape opcode.
pub fn s_opcode(i: SInstrIdent) -> (r: u8)
    ensures
        r == spec_s_code(i),
{
    match i {
        SInstrIdent::HLT => 0,
        SInstrIdent::NOP => 63,
    }
}

/// The 6-bit numeric code of an I-shape opcode.
pub fn i_opcode(i: IInstrIdent) -> (r: u8)
    ensures
        r == spec_i_code(i),
{
    match i {
        IInstrIdent::ADI => 2,
        IInstrIdent::SBI => 4,
    }
}

/// The 6-bit numeric code of an R-shape opcode.
pub fn r_opcode(i: RInstrIdent) -> (r: u8)
    ensures
        r == spec_r_code(i),
{
    match i {
        RInstrIdent::ADD => 1,
        RInstrIdent::SUB => 3,
    }
}

/// The 3-bit numeric code of a register.
pub fn reg_code(r: RegisterIdent) -> (c: u8)
    ensures
        c == spec_reg_code(r),
{
    match r {
        RegisterIdent::A => 0,
        RegisterIdent::B => 1,
        RegisterIdent::C => 2,
        RegisterIdent::X => 3,
        RegisterIdent::Y => 4,
        RegisterIdent::Z => 5,
        RegisterIdent::R => 6,
        RegisterIdent::I => 7,
    }
}

/// The 16-bit R-shape word: `opcode:6 | size:1 | reg1:3 | reg2:3 | reg3:3`.
pub open spec fn spec_r_word(op: int, size: int, r1: int, r2: int, r3: int) -> int {
    op * 1024 + size * 512 + r1 * 64 + r2 * 8 + r3
}

/// The 32-bit I-shape word:
/// `opcode:6 | size:1 | reg1:3 | reg2:3 | immediate:16 | option:3`.
pub open spec fn spec_i_word(op: int, size: int, r1: int, r2: int, addr: int, opt: int) -> int {
    op * 0x4000000 + size * 0x2000000 + r1 * 0x400000 + r2 * 0x80000 + addr * 8 + opt
}

/// Big-endian bytes of a 16-bit word.
pub open spec fn spec_be16(w: int) -> Seq<u8> {
    seq![(w / 256) as u8, (w % 256) as u8]
}

/// Big-endian bytes of a 32-bit word.
pub open spec fn spec_be32(w: int) -> Seq<u8> {
    seq![
        (w / 0x1000000) as u8,
        ((w / 0x10000) % 256) as u8,
        ((w / 256) % 256) as u8,
        (w % 256) as u8,
    ]
}

/// The fixed-width encoding of one instruction.
pub open spec fn spec_instr_bytes(m: InstrModel) -> Seq<u8> {
    match m {
        InstrModel::S(op) => seq![(spec_s_code(op) * 4) as u8],
        InstrModel::R(op, size, r1, r2, r3) => spec_be16(
            spec_r_word(
                spec_r_code(op) as int,
                if size {
                    1
                } else {
                    0
                },
                spec_reg_code(r1) as int,
                spec_reg_code(r2) as int,
                spec_reg_code(r3) as int,
            ),
        ),
        InstrModel::I(op, size, r1, r2, addr, opt) => spec_be32(
            spec_i_word(
                spec_i_code(op) as int,
                if size {
                    1
                } else {
                    0
                },
                spec_reg_code(r1) as int,
                spec_reg_code(r2) as int,
                addr as int,
                opt as int,
            ),
        ),
        InstrModel::Value(bytes) => bytes,
    }
}

/// The encoding of a whole program: the encodings of its instructions,
/// concatenated in order, with no padding between them.
pub open spec fn spec_program_bytes(p: Seq<InstrModel>) -> Seq<u8>
    decreases p.len(),
{
    if p.len() == 0 {
        Seq::empty()
    } else {
        spec_program_bytes(p.drop_last()) + spec_instr_bytes(p.last())
    }
}

/// Structural validity of an instruction: every field fits its bit width.
/// The types bound all fields already except the 3-bit option field of the
/// I shape.
pub open spec fn instr_wf(m: InstrModel) -> bool {
    match m {
        InstrModel::I(_op, _size, _r1, _r2, _addr, opt) => opt < 8,
        _ => true,
    }
}

/// Structural validity of a whole program.
pub open spec fn program_wf(p: Seq<InstrModel>) -> bool {
    forall|k: int| 0 <= k < p.len() ==> instr_wf(#[trigger] p[k])
}

/// The model of a typed instruction value.
pub open spec fn instr_view(i: Instr) -> InstrModel {
    match i {
        Instr::SInstr(op) => InstrModel::S(op),
        Instr::IInstr(op, size, r1, r2, addr, opt) => InstrModel::I(op, size, r1, r2, addr, opt),
        Instr::RInstr(op, size, r1, r2, r3) => InstrModel::R(op, size, r1, r2, r3),
        Instr::Value(v) => InstrModel::Value(v@),
    }
}

/// The model of a program, instruction by instruction.
pub open spec fn program_view(p: Seq<Instr>) -> Seq<InstrModel> {
    p.map_values(|i: Instr| instr_view(i))
}

/// Encode one S-shape instruction from its 6-bit opcode:
/// one byte, opcode in the high six bits, low two bits zero.
pub fn convert_s_instr(ident: u8) -> (r: Vec<u8>)
    requires
        ident < 64,
    ensures
        r@ == seq![(ident * 4) as u8],
{
    let b: u8 = ident * 4;
    let mut out: Vec<u8> = Vec::new();
    out.push(b);
    assert(out@ =~= seq![(ident * 4) as u8]);
    out
}

/// Encode one R-shape instruction from its raw field values:
/// two bytes, fields packed as `opcode:6 | size:1 | reg1:3 | reg2:3 | reg3:3`.
pub fn convert_r_instr(ident: u16, size: u16, r1: u16, r2: u16, r3: u16) -> (r: Vec<u8>)
    requires
        ident < 64,
        size < 2,
        r1 < 8,
        r2 < 8,
        r3 < 8,
    ensures
        r@ == spec_be16(spec_r_word(ident as int, size as int, r1 as int, r2 as int, r3 as int)),
{
    let w: u16 = ident * 1024 + size * 512 + r1 * 64 + r2 * 8 + r3;
    let mut out: Vec<u8> = Vec::new();
    out.push((w / 256) as u8);
    out.push((w % 256) as u8);
    assert(out@ =~= spec_be16(w as int));
    out
}

/// Encode one I-shape instruction from its raw field values: four bytes,
/// fields packed as `opcode:6 | size:1 | reg1:3 | reg2:3 | immediate:16 | option:3`.
pub fn convert_i_instr(ident: u32, size: u32, r1: u32, r2: u32, addr: u32, opt: u32) -> (r: Vec<
    u8,
>)
    requires
        ident < 64,
        size < 2,
        r1 < 8,
        r2 < 8,
        addr < 0x10000,
        opt < 8,
    ensures
        r@ == spec_be32(
            spec_i_word(ident as int, size as int, r1 as int, r2 as int, addr as int, opt as int),
        ),
{
    let w: u32 = ident * 0x4000000 + size * 0x2000000 + r1 * 0x400000 + r2 * 0x80000 + addr * 8
        + opt;
    let mut out: Vec<u8> = Vec::new();
    out.push((w / 0x1000000) as u8);
    out.push(((w / 0x10000) % 256) as u8);
    out.push(((w / 256) % 256) as u8);
    out.push((w % 256) as u8);
    assert(out@ =~= spec_be32(w as int));
    out
}

fn push_bytes(out: &mut Vec<u8>, v: &Vec<u8>)
    ensures
        final(out)@ == old(out)@ + v@,
{
    let mut j: usize = 0;
    while j < v.len()
        invariant
            j <= v.len(),
            out@ == old(out)@ + v@.subrange(0, j as int),
        decreases v.len() - j,
    {
        out.push(v[j]);
        assert(old(out)@ + v@.subrange(0, j as int) + seq![v@[j as int]] =~= old(out)@
            + v@.subrange(0, j + 1 as int));
        j += 1;
    }
    assert(v@.subrange(0, v@.len() as int) =~= v@);
}

/// Encode a whole program: for each instruction in order, append its
/// fixed-width encoding; instruction order is byte order, with no padding.
pub fn convert_instr(i: Vec<Instr>) -> (out: Vec<u8>)
    requires
        program_wf(program_view(i@)),
    ensures
        out@ == spec_program_bytes(program_view(i@)),
{
    let ghost pv = program_view(i@);
    let mut out: Vec<u8> = Vec::new();
    let mut k: usize = 0;
    while k < i.len()
        invariant
            k <= i.len(),
            pv == program_view(i@),
            program_wf(pv),
            pv.len() == i@.len(),
            out@ == spec_program_bytes(pv.subrange(0, k as int)),
        decreases i.len() - k,
    {
        let mut bytes: Vec<u8> = match &i[k] {
            Instr::SInstr(op) => convert_s_instr(s_opcode(*op)),
            Instr::RInstr(op, size, r1, r2, r3) => convert_r_instr(
                r_opcode(*op) as u16,
                if *size {
                    1
                } else {
                    0
                },
                reg_code(*r1) as u16,
                reg_code(*r2) as u16,
                reg_code(*r3) as u16,
            ),
            Instr::IInstr(op, size, r1, r2, addr, opt) => {
                proof {
                    assert(instr_wf(pv[k as int]));
                }
                convert_i_instr(
                    i_opcode(*op) as u32,
                    if *size {
                        1
                    } else {
                        0
                    },
                    reg_code(*r1) as u32,
                    reg_code(*r2) as u32,
                    *addr as u32,
                    *opt as u32,
                )
            },
            Instr::Value(v) => {
                let mut b: Vec<u8> = Vec::new();
                push_bytes(&mut b, v);
                b
            },
        };
        assert(bytes@ == spec_instr_bytes(pv[k as int]));
        push_bytes(&mut out, &bytes);
        proof {
            assert(pv.subrange(0, k + 1 as int).drop_last() =~= pv.subrange(0, k as int));
            assert(pv.subrange(0, k + 1 as int).last() == pv[k as int]);
        }
        k += 1;
    }
    proof {
        assert(pv.subrange(0, i@.len() as int) =~= pv);
    }
    out
}

} // verus!
