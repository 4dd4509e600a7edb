//! The MicroCVM symbol space: instruction mnemonics, register names and
//! runtime-call names, each a closed enumeration with its reserved
//! numeric code. Lookups are case-insensitive: a name is folded to lower
//! case before the exact match.
//!
//! The code space is partitioned so a decoded word's role follows from
//! its range alone: instructions in a low byte range (with `hlt` and
//! `nop` as historical outliers), general registers at 0x1001-0x1008,
//! video registers at 0x2001-0x2010, the keycode register at 0x3001, and
//! runtime calls in a small byte range always emitted as 16-bit words.
use vstd::prelude::*;

use crate::text::{chars_eq_str, lower_of_str, lower_seq};

verus! {

#[derive(Clone, Copy, Debug, PartialEq, Eq, Structural)]
pub enum OpcodeType {
    Load,
    Store,
    Add,
    Sub,
    Jmp,
    Hlt,
    Mov,
    Inc,
    Div,
    Mul,
    Nop,
    Call,
    Je,
    Jne,
    Cmp,
    And,
    Or,
    Xor,
    Not,
    Shl,
    Shr,
    Push,
    Pop,
    Ret,
    Load8,
}

#[derive(Clone, Copy, Debug, PartialEq, Eq, Structural)]
pub enum Register {
    R0,
    R1,
    R2,
    R3,
    R4,
    R5,
    R6,
    R7,
    V0,
    V1,
    V2,
    V3,
    V4,
    V5,
    V6,
    V7,
    V8,
    V9,
    V10,
    V11,
    V12,
    V13,
    V14,
    V15,
    K0,
}

#[derive(Clone, Copy, Debug, PartialEq, Eq, Structural)]
pub enum FunctionCall {
    SetPixel,
    DrawLine,
    FillScreen,
    ClearScreen,
    LoadBMP,
    FillRect,
    FillQuad,
    DrawCharacter,
}

/// A word that is not a known opcode.
#[derive(Debug, Clone, Copy)]
pub struct InvalidOpcode(pub u16);

/// A name that matches no instruction mnemonic.
#[derive(Debug)]
pub struct InvalidOpcodeString(pub String);

/// A word that is not a known runtime-call code.
#[derive(Debug, Clone, Copy)]
pub struct InvalidFunctionCall(pub u16);

/// A word that is not a known register code.
#[derive(Debug, Clone, Copy)]
pub struct InvalidRegister(pub u16);

/// A name that matches no register.
#[derive(Debug)]
pub struct InvalidRegisterString(pub String);

/// A name that matches no runtime call.
#[derive(Debug)]
pub struct InvalidFunctionCallString(pub String);

/// The numeric opcode of an instruction.
pub open spec fn opcode_code(op: OpcodeType) -> u16 {
    match op {
        OpcodeType::Load => 0x01,
        OpcodeType::Store => 0x02,
        OpcodeType::Add => 0x03,
        OpcodeType::Sub => 0x04,
        OpcodeType::Jmp => 0x05,
        OpcodeType::Hlt => 0xFF,
        OpcodeType::Mov => 0x06,
        OpcodeType::Inc => 0x07,
        OpcodeType::Div => 0x08,
        OpcodeType::Mul => 0x09,
        OpcodeType::Nop => 0x90,
        OpcodeType::Call => 0x0A,
        OpcodeType::Je => 0x0B,
        OpcodeType::Jne => 0x0C,
        OpcodeType::Cmp => 0x0D,
        OpcodeType::And => 0x0E,
        OpcodeType::Or => 0x0F,
        OpcodeType::Xor => 0x10,
        OpcodeType::Not => 0x11,
        OpcodeType::Shl => 0x12,
        OpcodeType::Shr => 0x13,
        OpcodeType::Push => 0x14,
        OpcodeType::Pop => 0x15,
        OpcodeType::Ret => 0x16,
        OpcodeType::Load8 => 0x17,
    }
}

/// The numeric code of a register.
pub open spec fn register_code(r: Register) -> u16 {
    match r {
        Register::R0 => 0x1001,
        Register::R1 => 0x1002,
        Register::R2 => 0x1003,
        Register::R3 => 0x1004,
        Register::R4 => 0x1005,
        Register::R5 => 0x1006,
        Register::R6 => 0x1007,
        Register::R7 => 0x1008,
        Register::V0 => 0x2001,
        Register::V1 => 0x2002,
        Register::V2 => 0x2003,
        Register::V3 => 0x2004,
        Register::V4 => 0x2005,
        Register::V5 => 0x2006,
        Register::V6 => 0x2007,
        Register::V7 => 0x2008,
        Register::V8 => 0x2009,
        Register::V9 => 0x200A,
        Register::V10 => 0x200B,
        Register::V11 => 0x200C,
        Register::V12 => 0x200D,
        Register::V13 => 0x200E,
        Register::V14 => 0x200F,
        Register::V15 => 0x2010,
        Register::K0 => 0x3001,
    }
}

/// The numeric code of a runtime call; always emitted as a 16-bit word.
pub open spec fn function_code(f: FunctionCall) -> u16 {
    match f {
        FunctionCall::SetPixel => 0x13,
        FunctionCall::DrawLine => 0x14,
        FunctionCall::FillScreen => 0x15,
        FunctionCall::ClearScreen => 0x16,
        FunctionCall::LoadBMP => 0x17,
        FunctionCall::FillRect => 0x18,
        FunctionCall::FillQuad => 0x19,
        FunctionCall::DrawCharacter => 0x1A,
    }
}

/// The instruction a name resolves to, folding case first.
pub open spec fn opcode_for(t: Seq<char>) -> Option<OpcodeType> {
    let l = lower_seq(t);
    if l == "load"@ {
        Some(OpcodeType::Load)
    } else if l == "store"@ {
        Some(OpcodeType::Store)
    } else if l == "add"@ {
        Some(OpcodeType::Add)
    } else if l == "sub"@ {
        Some(OpcodeType::Sub)
    } else if l == "jmp"@ {
        Some(OpcodeType::Jmp)
    } else if l == "hlt"@ {
        Some(OpcodeType::Hlt)
    } else if l == "mov"@ {
        Some(OpcodeType::Mov)
    } else if l == "inc"@ {
        Some(OpcodeType::Inc)
    } else if l == "div"@ {
        Some(OpcodeType::Div)
    } else if l == "mul"@ {
        Some(OpcodeType::Mul)
    } else if l == "nop"@ {
        Some(OpcodeType::Nop)
    } else if l == "call"@ {
        Some(OpcodeType::Call)
    } else if l == "je"@ {
        Some(OpcodeType::Je)
    } else if l == "jne"@ {
        Some(OpcodeType::Jne)
    } else if l == "cmp"@ {
        Some(OpcodeType::Cmp)
    } else if l == "and"@ {
        Some(OpcodeType::And)
    } else if l == "or"@ {
        Some(OpcodeType::Or)
    } else if l == "xor"@ {
        Some(OpcodeType::Xor)
    } else if l == "not"@ {
        Some(OpcodeType::Not)
    } else if l == "shl"@ {
        Some(OpcodeType::Shl)
    } else if l == "shr"@ {
        Some(OpcodeType::Shr)
    } else if l == "push"@ {
        Some(OpcodeType::Push)
    } else if l == "pop"@ {
        Some(OpcodeType::Pop)
    } else if l == "ret"@ {
        Some(OpcodeType::Ret)
    } else if l == "load8"@ {
        Some(OpcodeType::Load8)
    } else {
        None
    }
}

/// The register a name resolves to, folding case first.
pub open spec fn register_for(t: Seq<char>) -> Option<Register> {
    let l = lower_seq(t);
    if l == "r0"@ {
        Some(Register::R0)
    } else if l == "r1"@ {
        Some(Register::R1)
    } else if l == "r2"@ {
        Some(Register::R2)
    } else if l == "r3"@ {
        Some(Register::R3)
    } else if l == "r4"@ {
        Some(Register::R4)
    } else if l == "r5"@ {
        Some(Register::R5)
    } else if l == "r6"@ {
        Some(Register::R6)
    } else if l == "r7"@ {
        Some(Register::R7)
    } else if l == "v0"@ {
        Some(Register::V0)
    } else if l == "v1"@ {
        Some(Register::V1)
    } else if l == "v2"@ {
        Some(Register::V2)
    } else if l == "v3"@ {
        Some(Register::V3)
    } else if l == "v4"@ {
        Some(Register::V4)
    } else if l == "v5"@ {
        Some(Register::V5)
    } else if l == "v6"@ {
        Some(Register::V6)
    } else if l == "v7"@ {
        Some(Register::V7)
    } else if l == "v8"@ {
        Some(Register::V8)
    } else if l == "v9"@ {
        Some(Register::V9)
    } else if l == "v10"@ {
        Some(Register::V10)
    } else if l == "v11"@ {
        Some(Register::V11)
    } else if l == "v12"@ {
        Some(Register::V12)
    } else if l == "v13"@ {
        Some(Register::V13)
    } else if l == "v14"@ {
        Some(Register::V14)
    } else if l == "v15"@ {
        Some(Register::V15)
    } else if l == "k0"@ {
        Some(Register::K0)
    } else {
        None
    }
}

/// The runtime call a name resolves to, folding case first.
pub open spec fn function_for(t: Seq<char>) -> Option<FunctionCall> {
    let l = lower_seq(t);
    if l == "set_pixel"@ {
        Some(FunctionCall::SetPixel)
    } else if l == "draw_line"@ {
        Some(FunctionCall::DrawLine)
    } else if l == "fill_screen"@ {
        Some(FunctionCall::FillScreen)
    } else if l == "clear_screen"@ {
        Some(FunctionCall::ClearScreen)
    } else if l == "load_bmp"@ {
        Some(FunctionCall::LoadBMP)
    } else if l == "fill_rect"@ {
        Some(FunctionCall::FillRect)
    } else if l == "fill_quad"@ {
        Some(FunctionCall::FillQuad)
    } else if l == "draw_character"@ {
        Some(FunctionCall::DrawCharacter)
    } else {
        None
    }
}

/// Symbol lookup is insensitive to the case of its argument: two names
/// with the same case folding resolve alike in every identifier class.
pub proof fn lemma_lookup_case_insensitive(s: Seq<char>, t: Seq<char>)
    requires
        lower_seq(s) == lower_seq(t),
    ensures
        opcode_for(s) == opcode_for(t),
        register_for(s) == register_for(t),
        function_for(s) == function_for(t),
{
}

impl OpcodeType {
    /// The instruction's numeric opcode.
    pub fn code(&self) -> (r: u16)
        ensures
            r == opcode_code(*self),
    {
        match self {
            OpcodeType::Load => 0x01,
            OpcodeType::Store => 0x02,
            OpcodeType::Add => 0x03,
            OpcodeType::Sub => 0x04,
            OpcodeType::Jmp => 0x05,
            OpcodeType::Hlt => 0xFF,
            OpcodeType::Mov => 0x06,
            OpcodeType::Inc => 0x07,
            OpcodeType::Div => 0x08,
            OpcodeType::Mul => 0x09,
            OpcodeType::Nop => 0x90,
            OpcodeType::Call => 0x0A,
            OpcodeType::Je => 0x0B,
            OpcodeType::Jne => 0x0C,
            OpcodeType::Cmp => 0x0D,
            OpcodeType::And => 0x0E,
            OpcodeType::Or => 0x0F,
            OpcodeType::Xor => 0x10,
            OpcodeType::Not => 0x11,
            OpcodeType::Shl => 0x12,
            OpcodeType::Shr => 0x13,
            OpcodeType::Push => 0x14,
            OpcodeType::Pop => 0x15,
            OpcodeType::Ret => 0x16,
            OpcodeType::Load8 => 0x17,
        }
    }

    /// Looks a mnemonic up, ignoring case; the error carries the name.
    pub fn try_from(value: &str) -> (r: Result<OpcodeType, InvalidOpcodeString>)
        ensures
            match r {
                Ok(op) => opcode_for(value@) == Some(op),
                Err(e) => opcode_for(value@) is None && e.0@ == value@,
            },
    {
        let low: Vec<char> = lower_of_str(value);
        if chars_eq_str(&low, "load") {
            Ok(OpcodeType::Load)
        } else if chars_eq_str(&low, "store") {
            Ok(OpcodeType::Store)
        } else if chars_eq_str(&low, "add") {
            Ok(OpcodeType::Add)
        } else if chars_eq_str(&low, "sub") {
            Ok(OpcodeType::Sub)
        } else if chars_eq_str(&low, "jmp") {
            Ok(OpcodeType::Jmp)
        } else if chars_eq_str(&low, "hlt") {
            Ok(OpcodeType::Hlt)
        } else if chars_eq_str(&low, "mov") {
            Ok(OpcodeType::Mov)
        } else if chars_eq_str(&low, "inc") {
            Ok(OpcodeType::Inc)
        } else if chars_eq_str(&low, "div") {
            Ok(OpcodeType::Div)
        } else if chars_eq_str(&low, "mul") {
            Ok(OpcodeType::Mul)
        } else if chars_eq_str(&low, "nop") {
            Ok(OpcodeType::Nop)
        } else if chars_eq_str(&low, "call") {
            Ok(OpcodeType::Call)
        } else if chars_eq_str(&low, "je") {
            Ok(OpcodeType::Je)
        } else if chars_eq_str(&low, "jne") {
            Ok(OpcodeType::Jne)
        } else if chars_eq_str(&low, "cmp") {
            Ok(OpcodeType::Cmp)
        } else if chars_eq_str(&low, "and") {
            Ok(OpcodeType::And)
        } else if chars_eq_str(&low, "or") {
            Ok(OpcodeType::Or)
        } else if chars_eq_str(&low, "xor") {
            Ok(OpcodeType::Xor)
        } else if chars_eq_str(&low, "not") {
            Ok(OpcodeType::Not)
        } else if chars_eq_str(&low, "shl") {
            Ok(OpcodeType::Shl)
        } else if chars_eq_str(&low, "shr") {
            Ok(OpcodeType::Shr)
        } else if chars_eq_str(&low, "push") {
            Ok(OpcodeType::Push)
        } else if chars_eq_str(&low, "pop") {
            Ok(OpcodeType::Pop)
        } else if chars_eq_str(&low, "ret") {
            Ok(OpcodeType::Ret)
        } else if chars_eq_str(&low, "load8") {
            Ok(OpcodeType::Load8)
        } else {
            Err(InvalidOpcodeString(value.to_owned()))
        }
    }
}

impl Register {
    /// The register's numeric code.
    pub fn code(&self) -> (r: u16)
        ensures
            r == register_code(*self),
    {
        match self {
            Register::R0 => 0x1001,
            Register::R1 => 0x1002,
            Register::R2 => 0x1003,
            Register::R3 => 0x1004,
            Register::R4 => 0x1005,
            Register::R5 => 0x1006,
            Register::R6 => 0x1007,
            Register::R7 => 0x1008,
            Register::V0 => 0x2001,
            Register::V1 => 0x2002,
            Register::V2 => 0x2003,
            Register::V3 => 0x2004,
            Register::V4 => 0x2005,
            Register::V5 => 0x2006,
            Register::V6 => 0x2007,
            Register::V7 => 0x2008,
            Register::V8 => 0x2009,
            Register::V9 => 0x200A,
            Register::V10 => 0x200B,
            Register::V11 => 0x200C,
            Register::V12 => 0x200D,
            Register::V13 => 0x200E,
            Register::V14 => 0x200F,
            Register::V15 => 0x2010,
            Register::K0 => 0x3001,
        }
    }

    /// Looks a register name up, ignoring case; the error carries the name.
    pub fn try_from(value: &str) -> (r: Result<Register, InvalidRegisterString>)
        ensures
            match r {
                Ok(reg) => register_for(value@) == Some(reg),
                Err(e) => register_for(value@) is None && e.0@ == value@,
            },
    {
        let low: Vec<char> = lower_of_str(value);
        if chars_eq_str(&low, "r0") {
            Ok(Register::R0)
        } else if chars_eq_str(&low, "r1") {
            Ok(Register::R1)
        } else if chars_eq_str(&low, "r2") {
            Ok(Register::R2)
        } else if chars_eq_str(&low, "r3") {
            Ok(Register::R3)
        } else if chars_eq_str(&low, "r4") {
            Ok(Register::R4)
        } else if chars_eq_str(&low, "r5") {
            Ok(Register::R5)
        } else if chars_eq_str(&low, "r6") {
            Ok(Register::R6)
        } else if chars_eq_str(&low, "r7") {
            Ok(Register::R7)
        } else if chars_eq_str(&low, "v0") {
            Ok(Register::V0)
        } else if chars_eq_str(&low, "v1") {
            Ok(Register::V1)
        } else if chars_eq_str(&low, "v2") {
            Ok(Register::V2)
        } else if chars_eq_str(&low, "v3") {
            Ok(Register::V3)
        } else if chars_eq_str(&low, "v4") {
            Ok(Register::V4)
        } else if chars_eq_str(&low, "v5") {
            Ok(Register::V5)
        } else if chars_eq_str(&low, "v6") {
            Ok(Register::V6)
        } else if chars_eq_str(&low, "v7") {
            Ok(Register::V7)
        } else if chars_eq_str(&low, "v8") {
            Ok(Register::V8)
        } else if chars_eq_str(&low, "v9") {
            Ok(Register::V9)
        } else if chars_eq_str(&low, "v10") {
            Ok(Register::V10)
        } else if chars_eq_str(&low, "v11") {
            Ok(Register::V11)
        } else if chars_eq_str(&low, "v12") {
            Ok(Register::V12)
        } else if chars_eq_str(&low, "v13") {
            Ok(Register::V13)
        } else if chars_eq_str(&low, "v14") {
            Ok(Register::V14)
        } else if chars_eq_str(&low, "v15") {
            Ok(Register::V15)
        } else if chars_eq_str(&low, "k0") {
            Ok(Register::K0)
        } else {
            Err(InvalidRegisterString(value.to_owned()))
        }
    }
}

impl FunctionCall {
    /// The runtime call's numeric code.
    pub fn code(&self) -> (r: u16)
        ensures
            r == function_code(*self),
    {
        match self {
            FunctionCall::SetPixel => 0x13,
            FunctionCall::DrawLine => 0x14,
            FunctionCall::FillScreen => 0x15,
            FunctionCall::ClearScreen => 0x16,
            FunctionCall::LoadBMP => 0x17,
            FunctionCall::FillRect => 0x18,
            FunctionCall::FillQuad => 0x19,
            FunctionCall::DrawCharacter => 0x1A,
        }
    }

    /// Looks a runtime-call name up, ignoring case; the error carries the
    /// name.
    pub fn try_from(value: &str) -> (r: Result<FunctionCall, InvalidFunctionCallString>)
        ensures
            match r {
                Ok(f) => function_for(value@) == Some(f),
                Err(e) => function_for(value@) is None && e.0@ == value@,
            },
    {
        let low: Vec<char> = lower_of_str(value);
        if chars_eq_str(&low, "set_pixel") {
            Ok(FunctionCall::SetPixel)
        } else if chars_eq_str(&low, "draw_line") {
            Ok(FunctionCall::DrawLine)
        } else if chars_eq_str(&low, "fill_screen") {
            Ok(FunctionCall::FillScreen)
        } else if chars_eq_str(&low, "clear_screen") {
            Ok(FunctionCall::ClearScreen)
        } else if chars_eq_str(&low, "load_bmp") {
            Ok(FunctionCall::LoadBMP)
        } else if chars_eq_str(&low, "fill_rect") {
            Ok(FunctionCall::FillRect)
        } else if chars_eq_str(&low, "fill_quad") {
            Ok(FunctionCall::FillQuad)
        } else if chars_eq_str(&low, "draw_character") {
            Ok(FunctionCall::DrawCharacter)
        } else {
            Err(InvalidFunctionCallString(value.to_owned()))
        }
    }
}

} // verus!
