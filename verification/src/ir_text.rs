//! Text of the intermediate representation, one line per instruction.
use vstd::prelude::*;

use crate::ast::{BinOp, UnOp};
use crate::ir::{Exception, Instr, Label, Operand};
use crate::text::{decimal_spec, push_decimal, push_signed_decimal, push_str, signed_decimal_spec};

verus! {

/// Symbol of a binary operator.
pub open spec fn binop_symbol(op: BinOp) -> Seq<char> {
    match op {
        BinOp::Add => "+"@,
        BinOp::Sub => "-"@,
        BinOp::Mul => "*"@,
        BinOp::Div => "/"@,
        BinOp::Mod => "%"@,
        BinOp::And => "&"@,
        BinOp::Xor => "^"@,
        BinOp::Or => "|"@,
        BinOp::Sal => "<<"@,
        BinOp::Sar => ">>"@,
        BinOp::LAnd => "&&"@,
        BinOp::LOr => "||"@,
        BinOp::CmpEq => "=="@,
        BinOp::CmpNeq => "!="@,
        BinOp::Lt => "<"@,
        BinOp::Gt => ">"@,
        BinOp::Lte => "<="@,
        BinOp::Gte => ">="@,
    }
}

/// Symbol of a unary operator.
pub open spec fn unop_symbol(op: UnOp) -> Seq<char> {
    match op {
        UnOp::Neg => "-"@,
        UnOp::Not => "~"@,
        UnOp::LNot => "!"@,
    }
}

impl BinOp {
    /// Symbol of the operator.
    pub fn symbol(&self) -> (r: &'static str)
        ensures
            r@ == binop_symbol(*self),
    {
        match self {
            BinOp::Add => "+",
            BinOp::Sub => "-",
            BinOp::Mul => "*",
            BinOp::Div => "/",
            BinOp::Mod => "%",
            BinOp::And => "&",
            BinOp::Xor => "^",
            BinOp::Or => "|",
            BinOp::Sal => "<<",
            BinOp::Sar => ">>",
            BinOp::LAnd => "&&",
            BinOp::LOr => "||",
            BinOp::CmpEq => "==",
            BinOp::CmpNeq => "!=",
            BinOp::Lt => "<",
            BinOp::Gt => ">",
            BinOp::Lte => "<=",
            BinOp::Gte => ">=",
        }
    }
}

impl UnOp {
    /// Symbol of the operator.
    pub fn symbol(&self) -> (r: &'static str)
        ensures
            r@ == unop_symbol(*self),
    {
        match self {
            UnOp::Neg => "-",
            UnOp::Not => "~",
            UnOp::LNot => "!",
        }
    }
}

/// Text of a label: `.L` and its number.
pub open spec fn label_text(l: Label) -> Seq<char> {
    ".L"@ + decimal_spec(l.0)
}

/// Text of a temporary's name: `T` and its id.
pub open spec fn temp_name(id: usize) -> Seq<char> {
    "T"@ + decimal_spec(id)
}

/// Text of an operand: `$value` for a constant, the temporary's name otherwise.
pub open spec fn ir_operand_text(op: Operand) -> Seq<char> {
    match op {
        Operand::Const(c) => "$"@ + signed_decimal_spec(c.0),
        Operand::Temp(t) => temp_name(t.0),
    }
}

/// Texts joined by `, `.
pub open spec fn joined(s: Seq<Seq<char>>) -> Seq<char>
    decreases s.len(),
{
    if s.len() == 0 {
        Seq::<char>::empty()
    } else if s.len() == 1 {
        s[0]
    } else {
        joined(s.drop_last()) + ", "@ + s.last()
    }
}

/// Text of a list of arguments.
pub open spec fn args_text(args: Seq<Operand>) -> Seq<char> {
    joined(args.map_values(|o: Operand| ir_operand_text(o)))
}

/// Text of the sources of a phi node: `label : operand`, joined.
pub open spec fn phi_text(srcs: Seq<(Label, Operand)>) -> Seq<char> {
    joined(srcs.map_values(|p: (Label, Operand)| label_text(p.0) + " : "@ + ir_operand_text(p.1)))
}

/// Text of an instruction.
pub open spec fn ir_instr_text(i: Instr) -> Seq<char> {
    match i {
        Instr::BinOp { op, dest, lhs, rhs } => temp_name(dest.0) + " <- "@ + ir_operand_text(lhs) + " "@
            + binop_symbol(op) + " "@ + ir_operand_text(rhs),
        Instr::UnOp { op, dest, src } => temp_name(dest.0) + " <- "@ + unop_symbol(op) + ir_operand_text(src),
        Instr::Label(l) => label_text(l),
        Instr::JumpTo(l) => "JUMP "@ + label_text(l),
        Instr::JumpIf { pred, holds, fails } => "IF "@ + ir_operand_text(pred) + " JUMP "@ + label_text(holds)
            + " ELSE "@ + label_text(fails),
        Instr::Call { dest, name, args } => match dest {
            Some(d) => temp_name(d.0) + " <- CALL "@ + name@ + "("@ + args_text(args@) + ")"@,
            None => "CALL "@ + name@ + "("@ + args_text(args@) + ")"@,
        },
        Instr::TailCall { name, args } => "TAILCALL "@ + name@ + "("@ + args_text(args@) + ")"@,
        Instr::Return(o) => match o {
            Some(op) => "RETURN "@ + ir_operand_text(op),
            None => "RETURN"@,
        },
        Instr::Throw(e) => "ABORT"@,
        Instr::Phi { dest, srcs } => temp_name(dest.0) + " <- PHI |"@ + phi_text(srcs@) + "|"@,
        Instr::Move { dest, src } => temp_name(dest.0) + " <- "@ + ir_operand_text(src),
        Instr::Load { dest, addr } => temp_name(dest.0) + " <- LOAD "@ + ir_operand_text(addr),
        Instr::Store { addr, src } => "STORE "@ + ir_operand_text(addr) + " <- "@ + ir_operand_text(src),
        Instr::Alloc { dest, size } => temp_name(dest.0) + " <- ALLOC "@ + ir_operand_text(size),
        Instr::AllocArray { dest, size, count } => temp_name(dest.0) + " <- ALLOC_ARRAY "@ + ir_operand_text(size)
            + " * "@ + ir_operand_text(count),
    }
}

fn push_label(out: &mut String, l: Label)
    ensures
        final(out)@ == old(out)@ + label_text(l),
{
    push_str(out, ".L");
    push_decimal(out, l.0);
    proof {
        assert(old(out)@ + ".L"@ + decimal_spec(l.0) =~= old(out)@ + label_text(l));
    }
}

fn push_temp_name(out: &mut String, id: usize)
    ensures
        final(out)@ == old(out)@ + temp_name(id),
{
    push_str(out, "T");
    push_decimal(out, id);
    proof {
        assert(old(out)@ + "T"@ + decimal_spec(id) =~= old(out)@ + temp_name(id));
    }
}

fn push_ir_operand(out: &mut String, op: &Operand)
    ensures
        final(out)@ == old(out)@ + ir_operand_text(*op),
{
    match op {
        Operand::Const(c) => {
            push_str(out, "$");
            push_signed_decimal(out, c.0);
            proof {
                assert(old(out)@ + "$"@ + signed_decimal_spec(c.0) =~= old(out)@ + ir_operand_text(*op));
            }
        },
        Operand::Temp(t) => push_temp_name(out, t.0),
    }
}

fn push_args(out: &mut String, args: &Vec<Operand>)
    ensures
        final(out)@ == old(out)@ + args_text(args@),
{
    let ghost texts = args@.map_values(|o: Operand| ir_operand_text(o));
    let mut k: usize = 0;
    while k < args.len()
        invariant
            k <= args@.len(),
            texts == args@.map_values(|o: Operand| ir_operand_text(o)),
            out@ == old(out)@ + joined(texts.take(k as int)),
        decreases args@.len() - k,
    {
        let ghost before = out@;
        if k > 0 {
            push_str(out, ", ");
        }
        push_ir_operand(out, &args[k]);
        proof {
            let t1 = texts.take(k as int + 1);
            assert(t1.drop_last() =~= texts.take(k as int));
            assert(t1.last() == ir_operand_text(args@[k as int]));
            if k == 0 {
                assert(joined(texts.take(0)) =~= Seq::<char>::empty());
                assert(out@ =~= old(out)@ + joined(t1));
            } else {
                assert(out@ =~= old(out)@ + joined(t1));
            }
        }
        k = k + 1;
    }
    proof {
        assert(texts.take(args@.len() as int) =~= texts);
    }
}

fn push_phi_srcs(out: &mut String, srcs: &Vec<(Label, Operand)>)
    ensures
        final(out)@ == old(out)@ + phi_text(srcs@),
{
    let ghost texts = srcs@.map_values(|p: (Label, Operand)| label_text(p.0) + " : "@ + ir_operand_text(p.1));
    let mut k: usize = 0;
    while k < srcs.len()
        invariant
            k <= srcs@.len(),
            texts == srcs@.map_values(|p: (Label, Operand)| label_text(p.0) + " : "@ + ir_operand_text(p.1)),
            out@ == old(out)@ + joined(texts.take(k as int)),
        decreases srcs@.len() - k,
    {
        let ghost before = out@;
        if k > 0 {
            push_str(out, ", ");
        }
        let ghost mid = out@;
        push_label(out, srcs[k].0);
        push_str(out, " : ");
        push_ir_operand(out, &srcs[k].1);
        proof {
            let t1 = texts.take(k as int + 1);
            assert(t1.drop_last() =~= texts.take(k as int));
            assert(out@ =~= mid + texts[k as int]);
            if k == 0 {
                assert(joined(texts.take(0)) =~= Seq::<char>::empty());
                assert(out@ =~= old(out)@ + joined(t1));
            } else {
                assert(out@ =~= old(out)@ + joined(t1));
            }
        }
        k = k + 1;
    }
    proof {
        assert(texts.take(srcs@.len() as int) =~= srcs@.map_values(|p: (Label, Operand)| label_text(p.0) + " : "@ + ir_operand_text(p.1)));
    }
}

impl Instr {
    /// Text of the instruction, as one line without its line break.
    pub fn text(&self) -> (r: String)
        ensures
            r@ == ir_instr_text(*self),
    {
        let mut out = String::new();
        match self {
            Instr::BinOp { op, dest, lhs, rhs } => {
                push_temp_name(&mut out, dest.0);
                push_str(&mut out, " <- ");
                push_ir_operand(&mut out, lhs);
                push_str(&mut out, " ");
                push_str(&mut out, op.symbol());
                push_str(&mut out, " ");
                push_ir_operand(&mut out, rhs);
            },
            Instr::UnOp { op, dest, src } => {
                push_temp_name(&mut out, dest.0);
                push_str(&mut out, " <- ");
                push_str(&mut out, op.symbol());
                push_ir_operand(&mut out, src);
            },
            Instr::Label(l) => push_label(&mut out, *l),
            Instr::JumpTo(l) => {
                push_str(&mut out, "JUMP ");
                push_label(&mut out, *l);
            },
            Instr::JumpIf { pred, holds, fails } => {
                push_str(&mut out, "IF ");
                push_ir_operand(&mut out, pred);
                push_str(&mut out, " JUMP ");
                push_label(&mut out, *holds);
                push_str(&mut out, " ELSE ");
                push_label(&mut out, *fails);
            },
            Instr::Call { dest, name, args } => {
                match dest {
                    Some(d) => {
                        push_temp_name(&mut out, d.0);
                        push_str(&mut out, " <- CALL ");
                    },
                    None => push_str(&mut out, "CALL "),
                }
                push_str(&mut out, name.as_str());
                push_str(&mut out, "(");
                push_args(&mut out, args);
                push_str(&mut out, ")");
            },
            Instr::TailCall { name, args } => {
                push_str(&mut out, "TAILCALL ");
                push_str(&mut out, name.as_str());
                push_str(&mut out, "(");
                push_args(&mut out, args);
                push_str(&mut out, ")");
            },
            Instr::Return(o) => match o {
                Some(op) => {
                    push_str(&mut out, "RETURN ");
                    push_ir_operand(&mut out, op);
                },
                None => push_str(&mut out, "RETURN"),
            },
            Instr::Throw(_) => push_str(&mut out, "ABORT"),
            Instr::Phi { dest, srcs } => {
                push_temp_name(&mut out, dest.0);
                push_str(&mut out, " <- PHI |");
                push_phi_srcs(&mut out, srcs);
                push_str(&mut out, "|");
            },
            Instr::Move { dest, src } => {
                push_temp_name(&mut out, dest.0);
                push_str(&mut out, " <- ");
                push_ir_operand(&mut out, src);
            },
            Instr::Load { dest, addr } => {
                push_temp_name(&mut out, dest.0);
                push_str(&mut out, " <- LOAD ");
                push_ir_operand(&mut out, addr);
            },
            Instr::Store { addr, src } => {
                push_str(&mut out, "STORE ");
                push_ir_operand(&mut out, addr);
                push_str(&mut out, " <- ");
                push_ir_operand(&mut out, src);
            },
            Instr::Alloc { dest, size } => {
                push_temp_name(&mut out, dest.0);
                push_str(&mut out, " <- ALLOC ");
                push_ir_operand(&mut out, size);
            },
            Instr::AllocArray { dest, size, count } => {
                push_temp_name(&mut out, dest.0);
                push_str(&mut out, " <- ALLOC_ARRAY ");
                push_ir_operand(&mut out, size);
                push_str(&mut out, " * ");
                push_ir_operand(&mut out, count);
            },
        }
        proof {
            assert(out@ =~= ir_instr_text(*self));
        }
        out
    }
}

} // verus!
