//! A small interpreter for the few x86 instructions that the game runs to
//! fill tables on its stack: moves of registers and constants to the stack,
//! pushes and pops, loads of registers, and a load through a pointer.
use vstd::prelude::*;

use crate::bbtools::xbe::{spec_pointer_offset, SectionView, XBE};
use crate::bytes::{bytes16, bytes32, le16, le32, write_u16_at, write_u32_at, IoError};

verus! {

/// Size of the emulated stack in bytes.
pub const STACK_LEN: usize = 0xFFFF;

pub enum Reg {
    Eax,
    Ebx,
    Ecx,
    Edx,
    Esi,
    Edi,
    Ebp,
}

/// A decoded instruction.
#[allow(inconsistent_fields)]
pub enum Instruction {
    /// `sub esp, imm32`
    SubEsp(i32),
    /// `or eax, imm8` (sign-extended)
    OrEax(i8),
    /// `push reg`: only the stack pointer moves.
    Push,
    /// `pop reg`: only the stack pointer moves.
    Pop,
    /// `mov reg, imm32`
    Load(Reg, u32),
    /// 16-bit move of a register (when `reg` is some) or of `imm` to `[esp + offset]`.
    Store16 { offset: i32, reg: Option<Reg>, imm: u16 },
    /// 32-bit move of a register (when `reg` is some) or of `imm` to `[esp + offset]`.
    Store32 { offset: i32, reg: Option<Reg>, imm: u32 },
    /// `mov eax, [pointer]`
    LoadEaxFromPointer(u32),
    /// `test ah, imm8`: no effect here.
    Test,
}

/// What decoding the bytes at a position gives.
pub enum Decoded {
    /// The instruction, the bytes it takes, and the byte count that is reported for it.
    Instr(Instruction, nat, nat),
    /// The data ends inside the instruction.
    Eof,
    /// The bytes are not an instruction that the interpreter knows.
    Unsupported,
}

/// The registers and the stack.
pub struct X86State {
    pub eax: u32,
    pub ebx: u32,
    pub ecx: u32,
    pub edx: u32,
    pub esi: u32,
    pub edi: u32,
    pub esp: i32,
    pub ebp: u32,
    pub stack: Seq<u8>,
    /// The lowest value that `esp` has had.
    pub esp_min: i32,
}

pub open spec fn opt8(d: Seq<u8>, p: int) -> Option<u8> {
    if 0 <= p && p + 1 <= d.len() {
        Some(d[p])
    } else {
        None
    }
}

pub open spec fn opt16(d: Seq<u8>, p: int) -> Option<u16> {
    if 0 <= p && p + 2 <= d.len() {
        Some(le16(d, p) as u16)
    } else {
        None
    }
}

pub open spec fn opt32(d: Seq<u8>, p: int) -> Option<u32> {
    if 0 <= p && p + 4 <= d.len() {
        Some(le32(d, p) as u32)
    } else {
        None
    }
}

/// The displacement that follows a ModRM byte: 32 bits when its top bit is set, else 8 (unsigned).
pub open spec fn displacement(d: Seq<u8>, p: int, modrm: u8) -> Option<(i32, nat)> {
    if modrm >= 0x80 {
        match opt32(d, p) {
            None => None,
            Some(v) => Some((v as i32, 4)),
        }
    } else {
        match opt8(d, p) {
            None => None,
            Some(v) => Some((v as i32, 1)),
        }
    }
}

/// The register that a 16-bit store to the stack reads, by its ModRM byte.
pub open spec fn store16_reg(modrm: u8) -> Option<Reg> {
    if modrm == 0x84 || modrm == 0x44 {
        Some(Reg::Eax)
    } else if modrm == 0xAC {
        Some(Reg::Ebp)
    } else if modrm == 0xBC {
        Some(Reg::Edi)
    } else if modrm == 0x94 {
        Some(Reg::Edx)
    } else if modrm == 0x9C {
        Some(Reg::Ebx)
    } else {
        None
    }
}

/// The register that a 32-bit store to the stack reads, by its ModRM byte.
pub open spec fn store32_reg(modrm: u8) -> Option<Reg> {
    if modrm == 0x84 || modrm == 0x44 {
        Some(Reg::Eax)
    } else if modrm == 0x5C {
        Some(Reg::Ebx)
    } else if modrm == 0x8C || modrm == 0x4C {
        Some(Reg::Ecx)
    } else if modrm == 0x94 || modrm == 0x54 {
        Some(Reg::Edx)
    } else if modrm == 0xB4 || modrm == 0x74 {
        Some(Reg::Esi)
    } else if modrm == 0xBC || modrm == 0x7C {
        Some(Reg::Edi)
    } else {
        None
    }
}

/// The register that `mov reg, imm32` loads, by its opcode.
pub open spec fn load_reg(op: u8) -> Option<Reg> {
    if op == 0xB8 {
        Some(Reg::Eax)
    } else if op == 0xB9 {
        Some(Reg::Ecx)
    } else if op == 0xBA {
        Some(Reg::Edx)
    } else if op == 0xBB {
        Some(Reg::Ebx)
    } else if op == 0xBE {
        Some(Reg::Esi)
    } else if op == 0xBD {
        Some(Reg::Ebp)
    } else if op == 0xBF {
        Some(Reg::Edi)
    } else {
        None
    }
}

/// Decodes the instruction at `p`.
pub open spec fn spec_decode(d: Seq<u8>, p: int) -> Decoded {
    match opt8(d, p) {
        None => Decoded::Eof,
        Some(op) => if op == 0x81 {
            match opt8(d, p + 1) {
                None => Decoded::Eof,
                Some(t) => if t != 0xEC {
                    Decoded::Unsupported
                } else {
                    match opt32(d, p + 2) {
                        None => Decoded::Eof,
                        Some(v) => Decoded::Instr(Instruction::SubEsp(v as i32), 6, 6),
                    }
                },
            }
        } else if op == 0x83 {
            match opt8(d, p + 1) {
                None => Decoded::Eof,
                Some(r) => if r != 0xC8 {
                    Decoded::Unsupported
                } else {
                    match opt8(d, p + 2) {
                        None => Decoded::Eof,
                        Some(b) => Decoded::Instr(Instruction::OrEax(b as i8), 3, 1),
                    }
                },
            }
        } else if op == 0x50 || op == 0x53 || op == 0x55 || op == 0x56 || op == 0x57 {
            Decoded::Instr(Instruction::Push, 1, 1)
        } else if op == 0x5E || op == 0x5F {
            Decoded::Instr(Instruction::Pop, 1, 1)
        } else if load_reg(op) is Some {
            match opt32(d, p + 1) {
                None => Decoded::Eof,
                Some(v) => Decoded::Instr(Instruction::Load(load_reg(op)->Some_0, v), 5, 5),
            }
        } else if op == 0x66 {
            match (opt8(d, p + 1), opt8(d, p + 2), opt8(d, p + 3)) {
                (Some(t), Some(r), Some(c)) => if c != 0x24 {
                    Decoded::Unsupported
                } else {
                    match displacement(d, p + 4, r) {
                        None => Decoded::Eof,
                        Some((offset, n)) => if t == 0x89 {
                            match store16_reg(r) {
                                None => Decoded::Unsupported,
                                Some(reg) => Decoded::Instr(
                                    Instruction::Store16 { offset, reg: Some(reg), imm: 0 },
                                    4 + n,
                                    4 + n,
                                ),
                            }
                        } else if t == 0xC7 {
                            match opt16(d, p + 4 + n) {
                                None => Decoded::Eof,
                                Some(imm) => Decoded::Instr(
                                    Instruction::Store16 { offset, reg: None, imm },
                                    6 + n,
                                    6 + n,
                                ),
                            }
                        } else {
                            Decoded::Unsupported
                        },
                    }
                },
                _ => Decoded::Eof,
            }
        } else if op == 0x89 {
            match (opt8(d, p + 1), opt8(d, p + 2)) {
                (Some(r), Some(c)) => if c != 0x24 {
                    Decoded::Unsupported
                } else {
                    match displacement(d, p + 3, r) {
                        None => Decoded::Eof,
                        Some((offset, n)) => match store32_reg(r) {
                            None => Decoded::Unsupported,
                            Some(reg) => Decoded::Instr(
                                Instruction::Store32 { offset, reg: Some(reg), imm: 0 },
                                3 + n,
                                3 + n,
                            ),
                        },
                    }
                },
                _ => Decoded::Eof,
            }
        } else if op == 0xC7 {
            match (opt8(d, p + 1), opt8(d, p + 2)) {
                (Some(r), Some(c)) => if c != 0x24 {
                    Decoded::Unsupported
                } else {
                    match displacement(d, p + 3, r) {
                        None => Decoded::Eof,
                        Some((offset, n)) => match opt32(d, p + 3 + n) {
                            None => Decoded::Eof,
                            Some(imm) => Decoded::Instr(
                                Instruction::Store32 { offset, reg: None, imm },
                                7 + n,
                                7 + n,
                            ),
                        },
                    }
                },
                _ => Decoded::Eof,
            }
        } else if op == 0xA1 {
            match opt32(d, p + 1) {
                None => Decoded::Eof,
                Some(v) => Decoded::Instr(Instruction::LoadEaxFromPointer(v), 5, 1),
            }
        } else if op == 0xF6 {
            match opt8(d, p + 1) {
                None => Decoded::Eof,
                Some(a) => if a != 0xC4 {
                    Decoded::Unsupported
                } else {
                    match opt8(d, p + 2) {
                        None => Decoded::Eof,
                        Some(_) => Decoded::Instr(Instruction::Test, 3, 1),
                    }
                },
            }
        } else {
            Decoded::Unsupported
        },
    }
}

/// A decoded instruction lies within the data.
pub proof fn lemma_decode_within(d: Seq<u8>, p: int)
    requires
        0 <= p,
    ensures
        spec_decode(d, p) matches Decoded::Instr(_, len, _) ==> p + len <= d.len(),
{
}

/// The number that x86 encodes a register with in ModRM bits 3..5 and in
/// the low bits of `mov reg, imm32`: eax 0, ecx 1, edx 2, ebx 3, ebp 5,
/// esi 6, edi 7.
pub open spec fn reg_number(r: Reg) -> u8 {
    match r {
        Reg::Eax => 0,
        Reg::Ecx => 1,
        Reg::Edx => 2,
        Reg::Ebx => 3,
        Reg::Ebp => 5,
        Reg::Esi => 6,
        Reg::Edi => 7,
    }
}

/// A store of a register to the stack (`89` or `66 89`, addressed through a
/// SIB byte with a displacement) moves the register that bits 3..5 of its
/// ModRM byte name; the displacement is 32 bits for ModRM mode 2 and 8
/// bits for mode 1. Each `mov reg, imm32` loads the register that its
/// opcode less `0xB8` names.
pub proof fn lemma_register_fields(m: u8, op: u8)
    ensures
        store32_reg(m) matches Some(r) ==> {
            &&& reg_number(r) == (m >> 3) & 7
            &&& m & 7 == 4
            &&& (m >> 6 == 1 || m >> 6 == 2)
            &&& (m >= 0x80 <==> m >> 6 == 2)
        },
        store16_reg(m) matches Some(r) ==> {
            &&& reg_number(r) == (m >> 3) & 7
            &&& m & 7 == 4
            &&& (m >> 6 == 1 || m >> 6 == 2)
            &&& (m >= 0x80 <==> m >> 6 == 2)
        },
        load_reg(op) matches Some(r) ==> op == 0xB8 + reg_number(r),
{
    if store32_reg(m) is Some || store16_reg(m) is Some {
        assert(m == 0x84 || m == 0x44 || m == 0x5C || m == 0x8C || m == 0x4C || m == 0x94 || m == 0x54
            || m == 0xB4 || m == 0x74 || m == 0xBC || m == 0x7C || m == 0xAC || m == 0x9C);
        assert(m == 0x84 ==> (m >> 3) & 7 == 0 && m & 7 == 4 && m >> 6 == 2) by (bit_vector);
        assert(m == 0x44 ==> (m >> 3) & 7 == 0 && m & 7 == 4 && m >> 6 == 1) by (bit_vector);
        assert(m == 0x5C ==> (m >> 3) & 7 == 3 && m & 7 == 4 && m >> 6 == 1) by (bit_vector);
        assert(m == 0x9C ==> (m >> 3) & 7 == 3 && m & 7 == 4 && m >> 6 == 2) by (bit_vector);
        assert(m == 0x8C ==> (m >> 3) & 7 == 1 && m & 7 == 4 && m >> 6 == 2) by (bit_vector);
        assert(m == 0x4C ==> (m >> 3) & 7 == 1 && m & 7 == 4 && m >> 6 == 1) by (bit_vector);
        assert(m == 0x94 ==> (m >> 3) & 7 == 2 && m & 7 == 4 && m >> 6 == 2) by (bit_vector);
        assert(m == 0x54 ==> (m >> 3) & 7 == 2 && m & 7 == 4 && m >> 6 == 1) by (bit_vector);
        assert(m == 0xB4 ==> (m >> 3) & 7 == 6 && m & 7 == 4 && m >> 6 == 2) by (bit_vector);
        assert(m == 0x74 ==> (m >> 3) & 7 == 6 && m & 7 == 4 && m >> 6 == 1) by (bit_vector);
        assert(m == 0xBC ==> (m >> 3) & 7 == 7 && m & 7 == 4 && m >> 6 == 2) by (bit_vector);
        assert(m == 0x7C ==> (m >> 3) & 7 == 7 && m & 7 == 4 && m >> 6 == 1) by (bit_vector);
        assert(m == 0xAC ==> (m >> 3) & 7 == 5 && m & 7 == 4 && m >> 6 == 2) by (bit_vector);
    }
}

/// Decoding `89 modrm 24 disp` gives a 32-bit store to `[esp + disp]` of
/// the register that bits 3..5 of the ModRM byte name, and `66 89 modrm 24
/// disp` the same 16-bit store; `mov reg, imm32` loads the register its
/// opcode names with the 32 bits that follow.
pub proof fn lemma_decoded_registers(d: Seq<u8>, p: int)
    requires
        0 <= p,
    ensures
        p + 1 < d.len() && d[p] == 0x89 ==> (spec_decode(d, p) matches Decoded::Instr(
            Instruction::Store32 { offset, reg: Some(r), imm },
            len,
            count,
        ) ==> reg_number(r) == (d[p + 1] >> 3) & 7 && d[p + 2] == 0x24 && offset == (if d[p + 1] >= 0x80 {
            le32(d, p + 3) as u32 as i32
        } else {
            d[p + 3] as i32
        })),
        p + 2 < d.len() && d[p] == 0x66 && d[p + 1] == 0x89 ==> (spec_decode(d, p) matches Decoded::Instr(
            Instruction::Store16 { offset, reg: Some(r), imm },
            len,
            count,
        ) ==> reg_number(r) == (d[p + 2] >> 3) & 7 && d[p + 3] == 0x24),
        p < d.len() ==> (spec_decode(d, p) matches Decoded::Instr(Instruction::Load(r, v), len, count) ==> d[p]
            == 0xB8 + reg_number(r) && v == le32(d, p + 1) && len == 5),
{
    if p + 1 < d.len() {
        lemma_register_fields(d[p + 1], d[p]);
    }
    if p + 2 < d.len() {
        lemma_register_fields(d[p + 2], d[p]);
    }
    if p < d.len() {
        lemma_register_fields(0, d[p]);
    }
}

/// What executing a decoded instruction gives.
pub enum Applied {
    Done(X86State),
    Eof,
    /// The instruction would leave the stack or overflow the stack pointer.
    Halt,
}

pub open spec fn reg_value(st: X86State, r: Reg) -> u32 {
    match r {
        Reg::Eax => st.eax,
        Reg::Ebx => st.ebx,
        Reg::Ecx => st.ecx,
        Reg::Edx => st.edx,
        Reg::Esi => st.esi,
        Reg::Edi => st.edi,
        Reg::Ebp => st.ebp,
    }
}

pub open spec fn set_reg(st: X86State, r: Reg, v: u32) -> X86State {
    match r {
        Reg::Eax => X86State { eax: v, ..st },
        Reg::Ebx => X86State { ebx: v, ..st },
        Reg::Ecx => X86State { ecx: v, ..st },
        Reg::Edx => X86State { edx: v, ..st },
        Reg::Esi => X86State { esi: v, ..st },
        Reg::Edi => X86State { edi: v, ..st },
        Reg::Ebp => X86State { ebp: v, ..st },
    }
}

/// Moving the stack pointer by `offset`; it must stay within the stack.
pub open spec fn spec_adjust(st: X86State, offset: int) -> Applied {
    let e = st.esp + offset;
    if -0xFFFF <= e <= 0 {
        Applied::Done(
            X86State {
                esp: e as i32,
                esp_min: if e < st.esp_min {
                    e as i32
                } else {
                    st.esp_min
                },
                ..st
            },
        )
    } else {
        Applied::Halt
    }
}

/// Index into the stack of `[esp + offset]`, when the computation neither
/// overflows nor leaves the stack with `width` bytes.
pub open spec fn stack_index(st: X86State, offset: i32, width: nat) -> Option<int> {
    let a = st.esp + offset;
    let idx = a + 0xFFFF;
    if i32::MIN <= a <= i32::MAX && idx <= i32::MAX && 0 <= idx && idx + width <= 0xFFFF {
        Some(idx)
    } else {
        None
    }
}

/// Runs a decoded instruction.
pub open spec fn spec_apply(
    st: X86State,
    ins: Instruction,
    secs: Seq<SectionView>,
    d: Seq<u8>,
) -> Applied {
    match ins {
        Instruction::SubEsp(v) => if v == i32::MIN {
            Applied::Halt
        } else {
            spec_adjust(st, -v)
        },
        Instruction::OrEax(b) => Applied::Done(
            X86State { eax: st.eax | ((b as i32) as u32), ..st },
        ),
        Instruction::Push => spec_adjust(st, -4),
        Instruction::Pop => spec_adjust(st, 4),
        Instruction::Load(r, v) => Applied::Done(set_reg(st, r, v)),
        Instruction::Store16 { offset, reg, imm } => match stack_index(st, offset, 2) {
            None => Applied::Halt,
            Some(idx) => {
                let v: u16 = match reg {
                    Some(r) => reg_value(st, r) as u16,
                    None => imm,
                };
                Applied::Done(
                    X86State {
                        stack: st.stack.subrange(0, idx) + bytes16(v as nat) + st.stack.subrange(
                            idx + 2,
                            st.stack.len() as int,
                        ),
                        ..st
                    },
                )
            },
        },
        Instruction::Store32 { offset, reg, imm } => match stack_index(st, offset, 4) {
            None => Applied::Halt,
            Some(idx) => {
                let v: u32 = match reg {
                    Some(r) => reg_value(st, r),
                    None => imm,
                };
                Applied::Done(
                    X86State {
                        stack: st.stack.subrange(0, idx) + bytes32(v as nat) + st.stack.subrange(
                            idx + 4,
                            st.stack.len() as int,
                        ),
                        ..st
                    },
                )
            },
        },
        Instruction::LoadEaxFromPointer(ptr) => match spec_pointer_offset(secs, ptr) {
            Err(_) => Applied::Done(X86State { eax: 0, ..st }),
            Ok(o) => match opt32(d, o as int) {
                None => Applied::Eof,
                Some(v) => Applied::Done(X86State { eax: v, ..st }),
            },
        },
        Instruction::Test => Applied::Done(st),
    }
}

/// `mov reg, imm32` followed by `mov [esp + offset], reg` of the same
/// register puts the loaded value on the stack there (little-endian), and
/// leaves every other register and the stack pointer as they were; loading
/// one register leaves the others alone.
pub proof fn lemma_load_then_store(
    st: X86State,
    r: Reg,
    q: Reg,
    v: u32,
    offset: i32,
    imm: u32,
    secs: Seq<SectionView>,
    d: Seq<u8>,
)
    requires
        st.stack.len() == STACK_LEN,
    ensures
        spec_apply(st, Instruction::Load(r, v), secs, d) matches Applied::Done(s1) && {
            &&& reg_value(s1, r) == v
            &&& (reg_number(q) != reg_number(r) ==> reg_value(s1, q) == reg_value(st, q))
            &&& s1.esp == st.esp
            &&& s1.stack == st.stack
            &&& (spec_apply(s1, Instruction::Store32 { offset, reg: Some(r), imm }, secs, d) matches Applied::Done(
                s2,
            ) ==> stack_index(st, offset, 4) matches Some(idx) && s2.stack.subrange(idx, idx + 4) == bytes32(
                v as nat,
            ) && s2.esp == st.esp && s2.stack.len() == st.stack.len())
        },
{
    let s1 = set_reg(st, r, v);
    if let Applied::Done(s2) = spec_apply(s1, Instruction::Store32 { offset, reg: Some(r), imm }, secs, d) {
        let idx = stack_index(st, offset, 4)->Some_0;
        assert(s2.stack.subrange(idx, idx + 4) =~= bytes32(v as nat));
    }
}

/// The instruction at `p` can be run from `st`: it decodes, and running it
/// neither leaves the stack nor overflows.
pub open spec fn runs(st: X86State, secs: Seq<SectionView>, d: Seq<u8>, p: int) -> bool {
    match spec_decode(d, p) {
        Decoded::Unsupported => false,
        Decoded::Eof => true,
        Decoded::Instr(ins, _, _) => !(spec_apply(st, ins, secs, d) is Halt),
    }
}

fn get8(d: &[u8], p: u64, k: u64) -> (r: Option<u8>)
    requires
        k <= 8,
    ensures
        r == opt8(d@, p + k),
{
    if p >= d.len() as u64 || (d.len() as u64) - p <= k {
        None
    } else {
        Some(d[(p + k) as usize])
    }
}

fn get16(d: &[u8], p: u64, k: u64) -> (r: Option<u16>)
    requires
        k <= 16,
    ensures
        r == opt16(d@, p + k),
{
    if p > d.len() as u64 || (d.len() as u64) - p < k + 2 {
        None
    } else {
        Some(crate::bytes::read_u16_le(d, (p + k) as usize))
    }
}

fn get32(d: &[u8], p: u64, k: u64) -> (r: Option<u32>)
    requires
        k <= 16,
    ensures
        r == opt32(d@, p + k),
{
    if p > d.len() as u64 || (d.len() as u64) - p < k + 4 {
        None
    } else {
        Some(crate::bytes::read_u32_le(d, (p + k) as usize))
    }
}

pub struct X86Context {
    eax: u32,
    ebx: u32,
    ecx: u32,
    edx: u32,
    esi: u32,
    edi: u32,
    esp: i32,
    ebp: u32,
    stack: Vec<u8>,
    esp_min: i32,
}

impl X86Context {
    pub closed spec fn state(&self) -> X86State {
        X86State {
            eax: self.eax,
            ebx: self.ebx,
            ecx: self.ecx,
            edx: self.edx,
            esi: self.esi,
            edi: self.edi,
            esp: self.esp,
            ebp: self.ebp,
            stack: self.stack@,
            esp_min: self.esp_min,
        }
    }

    /// The stack has its fixed size and `esp_min` is the lowest stack pointer.
    pub open spec fn wf(&self) -> bool {
        &&& self.state().stack.len() == STACK_LEN
        &&& self.state().esp_min <= self.state().esp
    }

    /// A context whose stack pointer sits `stack_size` bytes below the top of
    /// a zeroed stack. Negating the stack size must not overflow.
    pub fn new(stack_size: usize) -> (r: Self)
        requires
            (stack_size as i32) != i32::MIN,
        ensures
            r.wf(),
            r.state() == (X86State {
                eax: 0,
                ebx: 0,
                ecx: 0,
                edx: 0,
                esi: 0,
                edi: 0,
                esp: -(stack_size as i32) as i32,
                ebp: 0,
                stack: Seq::new(STACK_LEN as nat, |i: int| 0u8),
                esp_min: -(stack_size as i32) as i32,
            }),
    {
        let esp: i32 = -(stack_size as i32);
        let stack: Vec<u8> = vec![0u8; STACK_LEN];
        assert(stack@ =~= Seq::new(STACK_LEN as nat, |i: int| 0u8));
        X86Context {
            eax: 0,
            ebx: 0,
            ecx: 0,
            edx: 0,
            esi: 0,
            edi: 0,
            esp,
            ebp: 0,
            stack,
            esp_min: esp,
        }
    }

    /// Moves the stack pointer by `offset`, which must keep it within the stack.
    pub fn adjust_stack_pointer(&mut self, offset: i32)
        requires
            old(self).wf(),
            spec_adjust(old(self).state(), offset as int) is Done,
        ensures
            final(self).wf(),
            spec_adjust(old(self).state(), offset as int) == Applied::Done(final(self).state()),
    {
        self.esp = self.esp + offset;
        if self.esp < self.esp_min {
            self.esp_min = self.esp;
        }
    }

    /// Index into the stack of `[esp + offset]`: the game's stack ends at
    /// `esp == 0`, which is the stack's last byte plus one.
    pub fn get_stack_offset(&self, offset: i32) -> (r: usize)
        requires
            self.wf(),
            stack_index(self.state(), offset, 0) is Some,
        ensures
            r == stack_index(self.state(), offset, 0)->Some_0,
    {
        let esp_offset: i32 = self.esp + offset;
        let stack_offset: i32 = esp_offset + STACK_LEN as i32;
        stack_offset as usize
    }

    /// The stack from `[esp + offset]` to the top.
    pub fn get_stack_from(&self, offset: i32) -> (r: &[u8])
        requires
            self.wf(),
            stack_index(self.state(), offset, 0) is Some,
        ensures
            r@ == self.state().stack.subrange(stack_index(self.state(), offset, 0)->Some_0, 0xFFFF),
    {
        let idx: usize = self.get_stack_offset(offset);
        let s: &[u8] = self.stack.as_slice();
        &s[idx..STACK_LEN]
    }

    /// Writes `bytes` to the stack from `[esp + offset]` on; the rest of the
    /// stack and the registers stay.
    pub fn write_stack(&mut self, offset: i32, bytes: &[u8])
        requires
            old(self).wf(),
            stack_index(old(self).state(), offset, bytes@.len()) is Some,
        ensures
            final(self).wf(),
            ({
                let idx = stack_index(old(self).state(), offset, bytes@.len())->Some_0;
                final(self).state() == X86State {
                    stack: old(self).state().stack.subrange(0, idx) + bytes@ + old(self).state().stack.subrange(
                        idx + bytes@.len(),
                        0xFFFF,
                    ),
                    ..old(self).state()
                }
            }),
    {
        let idx: usize = self.get_stack_offset(offset);
        let ghost st0 = self.state();
        let n: usize = bytes.len();
        let mut i: usize = 0;
        while i < n
            invariant
                i <= n,
                n == bytes@.len(),
                idx + n <= 0xFFFF,
                self.stack@.len() == 0xFFFF,
                self.stack@ == st0.stack.subrange(0, idx as int) + bytes@.subrange(0, i as int)
                    + st0.stack.subrange(idx + i, 0xFFFF),
                st0.stack.len() == 0xFFFF,
                self.eax == st0.eax,
                self.ebx == st0.ebx,
                self.ecx == st0.ecx,
                self.edx == st0.edx,
                self.esi == st0.esi,
                self.edi == st0.edi,
                self.esp == st0.esp,
                self.ebp == st0.ebp,
                self.esp_min == st0.esp_min,
            decreases n - i,
        {
            self.stack.set(idx + i, bytes[i]);
            i = i + 1;
            assert(self.stack@ =~= st0.stack.subrange(0, idx as int) + bytes@.subrange(0, i as int)
                + st0.stack.subrange(idx + i, 0xFFFF));
        }
        assert(bytes@.subrange(0, n as int) =~= bytes@);
    }

    /// The part of the stack that was ever used: from the lowest stack
    /// pointer to the top.
    pub fn get_stack(&self) -> (r: &[u8])
        requires
            self.wf(),
            -0xFFFF <= self.state().esp_min <= 0,
        ensures
            r@ == self.state().stack.subrange(self.state().esp_min + 0xFFFF, 0xFFFF),
    {
        let stack_start: i32 = self.esp_min + STACK_LEN as i32;
        let s: &[u8] = self.stack.as_slice();
        &s[stack_start as usize..STACK_LEN]
    }

    /// Decodes the instruction at `p`: the instruction, the bytes it takes and
    /// the byte count reported for it; `Err(true)` when the data ends inside
    /// it, `Err(false)` when it is not known.
    fn decode(d: &[u8], p: u64) -> (r: Result<(Instruction, u64, usize), bool>)
        ensures
            match spec_decode(d@, p as int) {
                Decoded::Instr(ins, len, count) => r == Ok::<(Instruction, u64, usize), bool>(
                    (ins, len as u64, count as usize),
                ),
                Decoded::Eof => r == Err::<(Instruction, u64, usize), bool>(true),
                Decoded::Unsupported => r == Err::<(Instruction, u64, usize), bool>(false),
            },
    {
        let opcode = match get8(d, p, 0) {
            Some(b) => b,
            None => {
                return Err(true);
            },
        };
        if opcode == 0x81 {
            let dest_type = match get8(d, p, 1) {
                Some(b) => b,
                None => {
                    return Err(true);
                },
            };
            if dest_type != 0xEC {
                return Err(false);
            }
            let offset = match get32(d, p, 2) {
                Some(v) => v,
                None => {
                    return Err(true);
                },
            };
            return Ok((Instruction::SubEsp(offset as i32), 6, 6));
        }
        if opcode == 0x83 {
            let source_register = match get8(d, p, 1) {
                Some(b) => b,
                None => {
                    return Err(true);
                },
            };
            if source_register != 0xC8 {
                return Err(false);
            }
            let v = match get8(d, p, 2) {
                Some(b) => b,
                None => {
                    return Err(true);
                },
            };
            return Ok((Instruction::OrEax(v as i8), 3, 1));
        }
        if opcode == 0x50 || opcode == 0x53 || opcode == 0x55 || opcode == 0x56 || opcode == 0x57 {
            return Ok((Instruction::Push, 1, 1));
        }
        if opcode == 0x5E || opcode == 0x5F {
            return Ok((Instruction::Pop, 1, 1));
        }
        if opcode == 0xB8 || opcode == 0xB9 || opcode == 0xBA || opcode == 0xBB || opcode == 0xBE
            || opcode == 0xBD || opcode == 0xBF {
            let v = match get32(d, p, 1) {
                Some(v) => v,
                None => {
                    return Err(true);
                },
            };
            let reg = if opcode == 0xB8 {
                Reg::Eax
            } else if opcode == 0xB9 {
                Reg::Ecx
            } else if opcode == 0xBA {
                Reg::Edx
            } else if opcode == 0xBB {
                Reg::Ebx
            } else if opcode == 0xBE {
                Reg::Esi
            } else if opcode == 0xBD {
                Reg::Ebp
            } else {
                Reg::Edi
            };
            return Ok((Instruction::Load(reg, v), 5, 5));
        }
        if opcode == 0x66 {
            let t = match get8(d, p, 1) {
                Some(b) => b,
                None => {
                    return Err(true);
                },
            };
            let r = match get8(d, p, 2) {
                Some(b) => b,
                None => {
                    return Err(true);
                },
            };
            let c = match get8(d, p, 3) {
                Some(b) => b,
                None => {
                    return Err(true);
                },
            };
            if c != 0x24 {
                return Err(false);
            }
            let (offset, n) = match Self::read_displacement(d, p, 4, r) {
                Some(x) => x,
                None => {
                    return Err(true);
                },
            };
            if t == 0x89 {
                let reg = if r == 0x84 || r == 0x44 {
                    Reg::Eax
                } else if r == 0xAC {
                    Reg::Ebp
                } else if r == 0xBC {
                    Reg::Edi
                } else if r == 0x94 {
                    Reg::Edx
                } else if r == 0x9C {
                    Reg::Ebx
                } else {
                    return Err(false);
                };
                return Ok(
                    (
                        Instruction::Store16 { offset, reg: Some(reg), imm: 0 },
                        4 + n,
                        4 + n as usize,
                    ),
                );
            } else if t == 0xC7 {
                let imm = match get16(d, p, 4 + n) {
                    Some(v) => v,
                    None => {
                        return Err(true);
                    },
                };
                return Ok(
                    (Instruction::Store16 { offset, reg: None, imm }, 6 + n, 6 + n as usize),
                );
            } else {
                return Err(false);
            }
        }
        if opcode == 0x89 || opcode == 0xC7 {
            let r = match get8(d, p, 1) {
                Some(b) => b,
                None => {
                    return Err(true);
                },
            };
            let c = match get8(d, p, 2) {
                Some(b) => b,
                None => {
                    return Err(true);
                },
            };
            if c != 0x24 {
                return Err(false);
            }
            let (offset, n) = match Self::read_displacement(d, p, 3, r) {
                Some(x) => x,
                None => {
                    return Err(true);
                },
            };
            if opcode == 0x89 {
                let reg = if r == 0x84 || r == 0x44 {
                    Reg::Eax
                } else if r == 0x5C {
                    Reg::Ebx
                } else if r == 0x8C || r == 0x4C {
                    Reg::Ecx
                } else if r == 0x94 || r == 0x54 {
                    Reg::Edx
                } else if r == 0xB4 || r == 0x74 {
                    Reg::Esi
                } else if r == 0xBC || r == 0x7C {
                    Reg::Edi
                } else {
                    return Err(false);
                };
                return Ok(
                    (
                        Instruction::Store32 { offset, reg: Some(reg), imm: 0 },
                        3 + n,
                        3 + n as usize,
                    ),
                );
            } else {
                let imm = match get32(d, p, 3 + n) {
                    Some(v) => v,
                    None => {
                        return Err(true);
                    },
                };
                return Ok(
                    (Instruction::Store32 { offset, reg: None, imm }, 7 + n, 7 + n as usize),
                );
            }
        }
        if opcode == 0xA1 {
            let pointer = match get32(d, p, 1) {
                Some(v) => v,
                None => {
                    return Err(true);
                },
            };
            return Ok((Instruction::LoadEaxFromPointer(pointer), 5, 1));
        }
        if opcode == 0xF6 {
            let register_a = match get8(d, p, 1) {
                Some(b) => b,
                None => {
                    return Err(true);
                },
            };
            if register_a != 0xC4 {
                return Err(false);
            }
            match get8(d, p, 2) {
                Some(_) => {},
                None => {
                    return Err(true);
                },
            };
            return Ok((Instruction::Test, 3, 1));
        }
        Err(false)
    }

    /// Reads the displacement that follows the ModRM byte `modrm`, at `p + k`.
    fn read_displacement(d: &[u8], p: u64, k: u64, modrm: u8) -> (r: Option<(i32, u64)>)
        requires
            k <= 4,
        ensures
            match displacement(d@, p + k, modrm) {
                Some((v, n)) => r == Some((v, n as u64)),
                None => r is None,
            },
    {
        if modrm & 0x80 == 0x80 {
            assert(modrm & 0x80 == 0x80 ==> modrm >= 0x80) by (bit_vector);
            match get32(d, p, k) {
                Some(v) => Some((v as i32, 4)),
                None => None,
            }
        } else {
            assert(modrm & 0x80 != 0x80 ==> modrm < 0x80) by (bit_vector);
            match get8(d, p, k) {
                Some(v) => Some((v as i32, 1)),
                None => None,
            }
        }
    }

    fn reg_value(&self, r: &Reg) -> (v: u32)
        ensures
            v == reg_value(self.state(), *r),
    {
        match r {
            Reg::Eax => self.eax,
            Reg::Ebx => self.ebx,
            Reg::Ecx => self.ecx,
            Reg::Edx => self.edx,
            Reg::Esi => self.esi,
            Reg::Edi => self.edi,
            Reg::Ebp => self.ebp,
        }
    }

    /// Executes the instruction at the reader's position and returns the
    /// byte count reported for it (for `or eax`, `mov eax, [ptr]` and `test`
    /// that is the opcode byte alone). The reader ends after the instruction.
    /// The bytes must hold a known instruction whose effect stays within the
    /// stack (`runs`); `can_execute` tells.
    pub fn execute_instruction(&mut self, xbe: &mut XBE) -> (r: Result<usize, IoError>)
        requires
            old(self).wf(),
            runs(
                old(self).state(),
                old(xbe).sections(),
                old(xbe).reader.data(),
                old(xbe).reader.pos() as int,
            ),
        ensures
            final(self).wf(),
            final(xbe).same_image(old(xbe)),
            match spec_decode(old(xbe).reader.data(), old(xbe).reader.pos() as int) {
                Decoded::Instr(ins, len, count) => match spec_apply(
                    old(self).state(),
                    ins,
                    old(xbe).sections(),
                    old(xbe).reader.data(),
                ) {
                    Applied::Done(st) => r == Ok::<usize, IoError>(count as usize) && final(self).state() == st && final(xbe).reader.pos() == old(xbe).reader.pos() + len,
                    Applied::Eof => r == Err::<usize, IoError>(IoError::UnexpectedEof) && final(self).state() == old(self).state(),
                    Applied::Halt => false,
                },
                Decoded::Eof => r == Err::<usize, IoError>(IoError::UnexpectedEof) && final(self).state() == old(self).state(),
                Decoded::Unsupported => false,
            },
    {
        let start: u64 = xbe.reader.stream_position();
        let (ins, len, count) = match Self::decode(xbe.reader.as_slice(), start) {
            Ok(x) => x,
            Err(_) => {
                return Err(IoError::UnexpectedEof);
            },
        };
        proof {
            lemma_decode_within(xbe.reader.data(), start as int);
        }
        let _n: usize = xbe.reader.len();
        xbe.reader.seek(start + len);
        match ins {
            Instruction::SubEsp(offset) => {
                self.adjust_stack_pointer(-offset);
            },
            Instruction::OrEax(v) => {
                self.eax = self.eax | ((v as i32) as u32);
            },
            Instruction::Push => {
                self.adjust_stack_pointer(-4);
            },
            Instruction::Pop => {
                self.adjust_stack_pointer(4);
            },
            Instruction::Load(reg, v) => match reg {
                Reg::Eax => {
                    self.eax = v;
                },
                Reg::Ebx => {
                    self.ebx = v;
                },
                Reg::Ecx => {
                    self.ecx = v;
                },
                Reg::Edx => {
                    self.edx = v;
                },
                Reg::Esi => {
                    self.esi = v;
                },
                Reg::Edi => {
                    self.edi = v;
                },
                Reg::Ebp => {
                    self.ebp = v;
                },
            },
            Instruction::Store16 { offset, reg, imm } => {
                let value: u16 = match reg {
                    Some(r) => self.reg_value(&r) as u16,
                    None => imm,
                };
                let idx: usize = self.get_stack_offset(offset);
                write_u16_at(&mut self.stack, idx, value);
            },
            Instruction::Store32 { offset, reg, imm } => {
                let value: u32 = match reg {
                    Some(r) => self.reg_value(&r),
                    None => imm,
                };
                let idx: usize = self.get_stack_offset(offset);
                write_u32_at(&mut self.stack, idx, value);
            },
            Instruction::LoadEaxFromPointer(pointer) => {
                // Read the value behind the pointer and come back.
                let position: u64 = xbe.reader.stream_position();
                if xbe.seek_pointer_offset(pointer).is_err() {
                    self.eax = 0;
                } else {
                    match xbe.reader.read_u32() {
                        Ok(v) => {
                            self.eax = v;
                        },
                        Err(e) => {
                            return Err(e);
                        },
                    }
                }
                xbe.reader.seek(position);
            },
            Instruction::Test => {},
        }
        Ok(count)
    }

    /// The instruction at the reader's position decodes and runs within the
    /// stack (what `execute_instruction` requires).
    pub fn can_execute(&self, xbe: &XBE) -> (r: bool)
        requires
            self.wf(),
        ensures
            r == runs(self.state(), xbe.sections(), xbe.reader.data(), xbe.reader.pos() as int),
    {
        let (ins, _len, _count) = match Self::decode(xbe.reader.as_slice(), xbe.reader.stream_position()) {
            Ok(x) => x,
            Err(eof) => {
                return eof;
            },
        };
        match ins {
            Instruction::SubEsp(v) => v != i32::MIN && {
                let e: i64 = self.esp as i64 - v as i64;
                -0xFFFF <= e && e <= 0
            },
            Instruction::Push => {
                let e: i64 = self.esp as i64 - 4;
                -0xFFFF <= e && e <= 0
            },
            Instruction::Pop => {
                let e: i64 = self.esp as i64 + 4;
                -0xFFFF <= e && e <= 0
            },
            Instruction::Store16 { offset, .. } => self.stack_fits(offset, 2),
            Instruction::Store32 { offset, .. } => self.stack_fits(offset, 4),
            _ => true,
        }
    }

    fn stack_fits(&self, offset: i32, width: i64) -> (r: bool)
        requires
            width == 2 || width == 4,
        ensures
            r == (stack_index(self.state(), offset, width as nat) is Some),
    {
        let a: i64 = self.esp as i64 + offset as i64;
        let idx: i64 = a + 0xFFFF;
        i32::MIN as i64 <= a && a <= i32::MAX as i64 && idx <= i32::MAX as i64 && 0 <= idx && idx
            + width <= 0xFFFF
    }
}

/// The stack pointer and its lowest value lie within the stack.
pub open spec fn bounded(st: X86State) -> bool {
    &&& -0xFFFF <= st.esp <= 0
    &&& -0xFFFF <= st.esp_min <= st.esp
}

/// Every decoded instruction reports between 1 and 16 bytes.
pub proof fn lemma_count_bounds(d: Seq<u8>, p: int)
    ensures
        spec_decode(d, p) matches Decoded::Instr(_, _, c) ==> 1 <= c <= 16,
{
}

/// Running an instruction keeps the stack pointer within the stack.
pub proof fn lemma_apply_bounded(st: X86State, ins: Instruction, secs: Seq<SectionView>, d: Seq<u8>)
    requires
        bounded(st),
    ensures
        spec_apply(st, ins, secs, d) matches Applied::Done(st2) ==> bounded(st2),
{
}

impl X86Context {
    /// The stack pointer lies within the stack.
    pub open spec fn is_bounded(&self) -> bool {
        bounded(self.state())
    }

    /// A fresh context is bounded when its stack size fits the stack.
    pub proof fn lemma_new_bounded(&self, stack_size: usize)
        requires
            stack_size <= 0xFFFF,
            self.state().esp == -(stack_size as i32) as i32,
            self.state().esp_min == -(stack_size as i32) as i32,
        ensures
            self.is_bounded(),
    {
    }

    /// Runs the instruction at the reader's position: `None` (with nothing
    /// changed) where it is not one that `execute_instruction` can run, else
    /// what that returns (see `spec_step`).
    pub fn step(&mut self, xbe: &mut XBE) -> (r: Option<Result<usize, IoError>>)
        requires
            old(self).wf(),
            old(self).is_bounded(),
        ensures
            final(self).wf(),
            final(self).is_bounded(),
            final(xbe).same_image(old(xbe)),
            r matches Some(Ok(c)) ==> 1 <= c <= 16,
            match spec_step(
                old(self).state(),
                old(xbe).sections(),
                old(xbe).reader.data(),
                old(xbe).reader.pos() as int,
            ) {
                Ran::Stop => r is None && final(self).state() == old(self).state()
                    && final(xbe).reader.pos() == old(xbe).reader.pos(),
                Ran::Fail(e) => r == Some(Err::<usize, IoError>(e)),
                Ran::At(st, p, c) => r matches Some(Ok(k)) && k == c && final(self).state() == st
                    && final(xbe).reader.pos() == p,
            },
    {
        if !self.can_execute(xbe) {
            return None;
        }
        proof {
            lemma_count_bounds(xbe.reader.data(), xbe.reader.pos() as int);
            match spec_decode(xbe.reader.data(), xbe.reader.pos() as int) {
                Decoded::Instr(ins, _, _) => {
                    lemma_apply_bounded(self.state(), ins, xbe.sections(), xbe.reader.data());
                },
                _ => {},
            }
        }
        let r = self.execute_instruction(xbe);
        Some(r)
    }

    /// Runs instructions until the byte counts reported since the count
    /// `done` reach `target`; returns the count reached (see `spec_run`).
    /// `None` where an instruction cannot be run.
    pub fn run_until(&mut self, xbe: &mut XBE, done: usize, target: usize) -> (r: Option<
        Result<usize, IoError>,
    >)
        requires
            old(self).wf(),
            old(self).is_bounded(),
            done <= 0x10000,
            target <= 0x10000,
        ensures
            final(self).wf(),
            final(self).is_bounded(),
            final(xbe).same_image(old(xbe)),
            r matches Some(Ok(n)) ==> target <= n <= 0x10010 && done <= n && (n == done || n < target
                + 16),
            match spec_run(
                old(self).state(),
                old(xbe).sections(),
                old(xbe).reader.data(),
                old(xbe).reader.pos() as int,
                done as int,
                target as int,
            ) {
                Ran::Stop => r is None,
                Ran::Fail(e) => r == Some(Err::<usize, IoError>(e)),
                Ran::At(st, p, n) => r matches Some(Ok(k)) && k == n && final(self).state() == st
                    && final(xbe).reader.pos() == p,
            },
    {
        let ghost run = spec_run(
            self.state(),
            xbe.sections(),
            xbe.reader.data(),
            xbe.reader.pos() as int,
            done as int,
            target as int,
        );
        let mut n: usize = done;
        while n < target
            invariant
                self.wf(),
                self.is_bounded(),
                xbe.same_image(old(xbe)),
                done <= n <= 0x10010,
                n == done || n < target + 16,
                target <= 0x10000,
                spec_run(
                    self.state(),
                    xbe.sections(),
                    xbe.reader.data(),
                    xbe.reader.pos() as int,
                    n as int,
                    target as int,
                ) == run,
                run == spec_run(
                    old(self).state(),
                    old(xbe).sections(),
                    old(xbe).reader.data(),
                    old(xbe).reader.pos() as int,
                    done as int,
                    target as int,
                ),
            decreases 0x10010 - n,
        {
            let ghost st0 = self.state();
            let ghost p0 = xbe.reader.pos() as int;
            proof {
                lemma_run_unfold(st0, xbe.sections(), xbe.reader.data(), p0, n as int, target as int);
            }
            let stepped = self.step(xbe);
            match stepped {
                None => {
                    return None;
                },
                Some(Err(e)) => {
                    return Some(Err(e));
                },
                Some(Ok(c)) => {
                    n = n + c;
                },
            }
        }
        proof {
            lemma_run_reached(self.state(), xbe.sections(), xbe.reader.data(), xbe.reader.pos() as int, n as int, target as int);
        }
        Some(Ok(n))
    }
}

/// Where running instructions ends: at an instruction that cannot be run,
/// at a read that fails, or with the state, reader position and byte count
/// reached.
pub enum Ran {
    Stop,
    Fail(IoError),
    At(X86State, int, int),
}

/// Running the instruction at `p` from `st`: the state after it, the
/// position after it and the byte count reported for it.
pub open spec fn spec_step(st: X86State, secs: Seq<SectionView>, d: Seq<u8>, p: int) -> Ran {
    if !runs(st, secs, d, p) {
        Ran::Stop
    } else {
        match spec_decode(d, p) {
            Decoded::Instr(ins, len, count) => match spec_apply(st, ins, secs, d) {
                Applied::Done(st2) => Ran::At(st2, p + len, count as int),
                _ => Ran::Fail(IoError::UnexpectedEof),
            },
            _ => Ran::Fail(IoError::UnexpectedEof),
        }
    }
}

/// One more instruction runs while the count is below the target.
pub proof fn lemma_run_unfold(st: X86State, secs: Seq<SectionView>, d: Seq<u8>, p: int, n: int, target: int)
    requires
        n < target,
    ensures
        spec_run(st, secs, d, p, n, target) == match spec_step(st, secs, d, p) {
            Ran::At(st2, p2, c) => spec_run(st2, secs, d, p2, n + c, target),
            other => other,
        },
{
    reveal(spec_run);
}

/// Nothing runs once the count has reached the target.
pub proof fn lemma_run_reached(st: X86State, secs: Seq<SectionView>, d: Seq<u8>, p: int, n: int, target: int)
    requires
        n >= target,
    ensures
        spec_run(st, secs, d, p, n, target) == Ran::At(st, p, n),
{
    reveal(spec_run);
}

/// Running instructions from `p` and `st`, with `n` bytes counted, until
/// the count reaches `target`.
#[verifier::opaque]
pub open spec fn spec_run(st: X86State, secs: Seq<SectionView>, d: Seq<u8>, p: int, n: int, target: int) -> Ran
    decreases (if n < target {
        target - n
    } else {
        0
    }),
{
    if n >= target {
        Ran::At(st, p, n)
    } else {
        match spec_step(st, secs, d, p) {
            Ran::At(st2, p2, c) => {
                proof {
                    lemma_count_bounds(d, p);
                }
                spec_run(st2, secs, d, p2, n + c, target)
            },
            other => other,
        }
    }
}

} // verus!
