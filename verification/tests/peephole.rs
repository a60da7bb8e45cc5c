use c0mpile::ast::{BinOp, Typ, UnOp};
use c0mpile::control_flow_simp::simplify_control_flow;
use c0mpile::ir::{Exception, Instr, Label, Operand};
use c0mpile::strength_reduction::{flags_dead_after, mul_const_to_lea, strength_reduction};
use c0mpile::x86asm::{Immediate, LeaAddr, MemVar, StackVar, Width, X86Instr, X86Operand, X86Reg, X86WReg};

fn s(x: &str) -> String {
    x.to_string()
}

fn reg(r: X86Reg, w: Width) -> X86Operand {
    X86Operand::Register(X86WReg { register: r, width: w })
}

fn wreg(r: X86Reg, w: Width) -> X86WReg {
    X86WReg { register: r, width: w }
}

fn imm(v: i64, w: Width) -> X86Operand {
    X86Operand::Immediate(Immediate { value: v, width: w })
}

#[test]
fn repeated_compare_is_dropped() {
    let mut code = vec![
        X86Instr::Cmp(imm(1, Width::W32), reg(X86Reg::Rax, Width::W32)),
        X86Instr::Cmp(imm(1, Width::W32), reg(X86Reg::Rax, Width::W32)),
        X86Instr::Je(s("L")),
    ];
    assert!(strength_reduction(&mut code));
    assert_eq!(code, vec![X86Instr::Cmp(imm(1, Width::W32), reg(X86Reg::Rax, Width::W32)), X86Instr::Je(s("L"))]);
}

#[test]
fn scratch_relay_becomes_one_move() {
    let stack = X86Operand::Stack(StackVar { offset: 8, width: Width::W32 });
    let mut code = vec![
        X86Instr::Mov(stack, reg(X86Reg::R10, Width::W32)),
        X86Instr::Mov(reg(X86Reg::R10, Width::W32), reg(X86Reg::Rbx, Width::W32)),
    ];
    assert!(strength_reduction(&mut code));
    assert_eq!(code, vec![X86Instr::Mov(stack, reg(X86Reg::Rbx, Width::W32))]);
}

#[test]
fn relay_between_memory_cells_stays() {
    let a = X86Operand::Stack(StackVar { offset: 8, width: Width::W32 });
    let b = X86Operand::Stack(StackVar { offset: 16, width: Width::W32 });
    let mut code = vec![
        X86Instr::Mov(a, reg(X86Reg::R10, Width::W32)),
        X86Instr::Mov(reg(X86Reg::R10, Width::W32), b),
    ];
    assert!(!strength_reduction(&mut code));
    assert_eq!(code.len(), 2);
}

#[test]
fn move_then_add_immediate_becomes_lea() {
    let mut code = vec![
        X86Instr::Mov(reg(X86Reg::Rbx, Width::W32), reg(X86Reg::Rcx, Width::W32)),
        X86Instr::Add(imm(5, Width::W32), reg(X86Reg::Rcx, Width::W32)),
        X86Instr::Ret,
    ];
    assert!(strength_reduction(&mut code));
    let addr = LeaAddr { base: Some(X86Reg::Rbx), index: None, scale: 1, disp: 5 };
    assert_eq!(code, vec![X86Instr::Lea(addr, wreg(X86Reg::Rcx, Width::W32)), X86Instr::Ret]);
}

#[test]
fn add_kept_when_flags_are_read() {
    let mut code = vec![
        X86Instr::Mov(reg(X86Reg::Rbx, Width::W32), reg(X86Reg::Rcx, Width::W32)),
        X86Instr::Add(imm(5, Width::W32), reg(X86Reg::Rcx, Width::W32)),
        X86Instr::Je(s("L")),
    ];
    assert!(!strength_reduction(&mut code));
    assert_eq!(code.len(), 3);
}

#[test]
fn move_then_shift_becomes_scaled_lea() {
    let mut code = vec![
        X86Instr::Mov(reg(X86Reg::Rbx, Width::W64), reg(X86Reg::Rcx, Width::W64)),
        X86Instr::Sal(Some(imm(3, Width::W8)), reg(X86Reg::Rcx, Width::W64)),
    ];
    assert!(strength_reduction(&mut code));
    let addr = LeaAddr { base: None, index: Some(X86Reg::Rbx), scale: 8, disp: 0 };
    assert_eq!(code, vec![X86Instr::Lea(addr, wreg(X86Reg::Rcx, Width::W64))]);
}

#[test]
fn multiply_by_three_becomes_lea() {
    let mut code = vec![
        X86Instr::IMul(Some(imm(3, Width::W32)), reg(X86Reg::Rbx, Width::W32), reg(X86Reg::Rcx, Width::W32)),
        X86Instr::Ret,
    ];
    assert!(strength_reduction(&mut code));
    let addr = LeaAddr { base: Some(X86Reg::Rbx), index: Some(X86Reg::Rbx), scale: 2, disp: 0 };
    assert_eq!(code, vec![X86Instr::Lea(addr, wreg(X86Reg::Rcx, Width::W32)), X86Instr::Ret]);
}

#[test]
fn multiplier_to_lea_table() {
    let r = X86Reg::Rdx;
    assert_eq!(mul_const_to_lea(r, 2), Some(LeaAddr { base: None, index: Some(r), scale: 2, disp: 0 }));
    assert_eq!(mul_const_to_lea(r, 5), Some(LeaAddr { base: Some(r), index: Some(r), scale: 4, disp: 0 }));
    assert_eq!(mul_const_to_lea(r, 9), Some(LeaAddr { base: Some(r), index: Some(r), scale: 8, disp: 0 }));
    assert_eq!(mul_const_to_lea(r, 6), None);
    assert_eq!(mul_const_to_lea(r, 1), None);
}

#[test]
fn local_rewrites() {
    let mut code = vec![
        X86Instr::Mov(imm(0, Width::W32), reg(X86Reg::Rax, Width::W32)),
        X86Instr::Cmp(imm(0, Width::W32), reg(X86Reg::Rbx, Width::W32)),
        X86Instr::Jne(s("L")),
        X86Instr::Mov(reg(X86Reg::Rsi, Width::W64), reg(X86Reg::Rsi, Width::W64)),
        X86Instr::Add(imm(0, Width::W32), reg(X86Reg::Rbx, Width::W32)),
        X86Instr::Ret,
    ];
    assert!(strength_reduction(&mut code));
    assert_eq!(
        code,
        vec![
            X86Instr::Xor(reg(X86Reg::Rax, Width::W32), reg(X86Reg::Rax, Width::W32)),
            X86Instr::Test(reg(X86Reg::Rbx, Width::W32), reg(X86Reg::Rbx, Width::W32)),
            X86Instr::Jne(s("L")),
            X86Instr::Ret,
        ]
    );
}

#[test]
fn overwritten_move_is_dropped() {
    let mut code = vec![
        X86Instr::Mov(imm(1, Width::W32), reg(X86Reg::Rax, Width::W32)),
        X86Instr::Mov(imm(2, Width::W32), reg(X86Reg::Rax, Width::W32)),
    ];
    assert!(strength_reduction(&mut code));
    assert_eq!(code, vec![X86Instr::Mov(imm(2, Width::W32), reg(X86Reg::Rax, Width::W32))]);
}

#[test]
fn move_read_by_the_next_one_stays() {
    let mut code = vec![
        X86Instr::Mov(imm(1, Width::W32), reg(X86Reg::Rax, Width::W32)),
        X86Instr::Mov(reg(X86Reg::Rax, Width::W32), reg(X86Reg::Rax, Width::W32)),
    ];
    assert!(strength_reduction(&mut code));
    assert_eq!(code, vec![X86Instr::Mov(imm(1, Width::W32), reg(X86Reg::Rax, Width::W32))]);
}

#[test]
fn nothing_to_reduce() {
    let mut code = vec![X86Instr::Push(reg(X86Reg::Rbx, Width::W64)), X86Instr::Ret];
    assert!(!strength_reduction(&mut code));
    assert_eq!(code, vec![X86Instr::Push(reg(X86Reg::Rbx, Width::W64)), X86Instr::Ret]);
}

#[test]
fn flags_liveness_scan() {
    let code = vec![
        X86Instr::Cmp(imm(0, Width::W32), reg(X86Reg::Rax, Width::W32)),
        X86Instr::Mov(imm(1, Width::W32), reg(X86Reg::Rbx, Width::W32)),
        X86Instr::Setl(reg(X86Reg::Rcx, Width::W8)),
        X86Instr::Add(imm(1, Width::W32), reg(X86Reg::Rbx, Width::W32)),
        X86Instr::Jg(s("L")),
    ];
    assert!(!flags_dead_after(&code, 0));
    assert!(flags_dead_after(&code, 2));
    assert!(!flags_dead_after(&code, 3));
    assert!(flags_dead_after(&code, 4));
}

#[test]
fn jump_to_next_label_is_removed() {
    let mut code = vec![X86Instr::Jmp(s("L1")), X86Instr::Label(s("L1")), X86Instr::Ret];
    assert!(simplify_control_flow(&mut code));
    assert_eq!(code, vec![X86Instr::Ret]);
}

#[test]
fn branch_over_jump_is_inverted() {
    let mut code = vec![
        X86Instr::Je(s("L1")),
        X86Instr::Jmp(s("L2")),
        X86Instr::Label(s("L1")),
        X86Instr::Ret,
        X86Instr::Label(s("L2")),
        X86Instr::Ret,
    ];
    assert!(simplify_control_flow(&mut code));
    assert_eq!(code, vec![X86Instr::Jne(s("L2")), X86Instr::Ret, X86Instr::Label(s("L2")), X86Instr::Ret]);
}

#[test]
fn jumps_are_threaded() {
    let mut code = vec![
        X86Instr::Jmp(s("A")),
        X86Instr::Label(s("A")),
        X86Instr::Jmp(s("B")),
        X86Instr::Label(s("B")),
        X86Instr::Ret,
    ];
    assert!(simplify_control_flow(&mut code));
    assert_eq!(code, vec![X86Instr::Jmp(s("B")), X86Instr::Label(s("B")), X86Instr::Ret]);
}

#[test]
fn code_after_return_is_dead() {
    let mut code = vec![X86Instr::Ret, X86Instr::Mov(imm(1, Width::W32), reg(X86Reg::Rax, Width::W32))];
    assert!(simplify_control_flow(&mut code));
    assert_eq!(code, vec![X86Instr::Ret]);
}

#[test]
fn adjacent_labels_merge() {
    let mut code = vec![
        X86Instr::Jne(s("B")),
        X86Instr::Ret,
        X86Instr::Label(s("A")),
        X86Instr::Label(s("B")),
        X86Instr::Ret,
    ];
    assert!(simplify_control_flow(&mut code));
    assert_eq!(code, vec![X86Instr::Jne(s("A")), X86Instr::Ret, X86Instr::Label(s("A")), X86Instr::Ret]);
}

#[test]
fn straight_code_is_left_alone() {
    let mut code = vec![X86Instr::Push(reg(X86Reg::Rbx, Width::W64)), X86Instr::Ret];
    assert!(!simplify_control_flow(&mut code));
    assert_eq!(code.len(), 2);
}

#[test]
fn assembly_text_of_instructions() {
    assert_eq!(X86Instr::Mov(imm(5, Width::W32), reg(X86Reg::Rax, Width::W32)).text(), "\tmovl\t$5, %eax");
    let lea = LeaAddr { base: Some(X86Reg::Rbx), index: Some(X86Reg::Rcx), scale: 4, disp: 8 };
    assert_eq!(X86Instr::Lea(lea, wreg(X86Reg::Rcx, Width::W32)).text(), "\tleal\t8(%rbx,%rcx,4), %ecx");
    let lea = LeaAddr { base: None, index: Some(X86Reg::Rbx), scale: 2, disp: 0 };
    assert_eq!(X86Instr::Lea(lea, wreg(X86Reg::Rax, Width::W64)).text(), "\tleaq\t0(,%rbx,2), %rax");
    let mem = X86Operand::Memory(MemVar { base: X86Reg::Rdi, offset: -8, width: Width::W64 });
    assert_eq!(X86Instr::Mov(mem, reg(X86Reg::Rax, Width::W64)).text(), "\tmovq\t-8(%rdi), %rax");
    let stack = X86Operand::Stack(StackVar { offset: 16, width: Width::W32 });
    assert_eq!(X86Instr::Mov(stack, reg(X86Reg::Rax, Width::W32)).text(), "\tmovl\t16(%rsp), %eax");
    assert_eq!(X86Instr::Sal(None, reg(X86Reg::Rax, Width::W32)).text(), "\tsall\t%cl, %eax");
    assert_eq!(X86Instr::Cqo(Width::W32).text(), "\tcdq");
    assert_eq!(X86Instr::Sete(reg(X86Reg::Rax, Width::W8)).text(), "\tsete\t%al");
    assert_eq!(X86Instr::Jmp(s("L")).text(), "\tjmp\tL");
    assert_eq!(X86Instr::Label(s("L")).text(), "L:");
    assert_eq!(X86Instr::Ret.text(), "\tret");
    assert_eq!(X86Instr::Test(reg(X86Reg::Rax, Width::W32), reg(X86Reg::Rax, Width::W32)).text(), "\ttestl\t%eax, %eax");
    assert_eq!(
        X86Instr::IMul(Some(imm(3, Width::W32)), reg(X86Reg::Rbx, Width::W32), reg(X86Reg::Rcx, Width::W32)).text(),
        "\timull\t$3, %ebx, %ecx"
    );
    assert_eq!(X86Instr::Call(s("f")).text(), "\tcall\tf");
    assert_eq!(X86Instr::Push(reg(X86Reg::Rbp, Width::W64)).text(), "\tpushq\t%rbp");
}

#[test]
fn register_names() {
    assert_eq!(wreg(X86Reg::R8, Width::W16).name(), "r8w");
    assert_eq!(wreg(X86Reg::Rsi, Width::W8).name(), "sil");
    assert_eq!(wreg(X86Reg::Rsp, Width::W64).name(), "rsp");
    assert_eq!(X86Operand::Immediate(Immediate { value: -3, width: Width::W64 }).text(), "$-3");
}

#[test]
fn ir_text_of_instructions() {
    let t = |id: usize| (id, Typ::Int);
    let c = |v: i64| Operand::Const((v, Typ::Int));
    assert_eq!(Instr::BinOp { op: BinOp::Add, dest: t(3), lhs: Operand::Temp(t(1)), rhs: c(2) }.text(), "T3 <- T1 + $2");
    assert_eq!(Instr::UnOp { op: UnOp::Neg, dest: t(2), src: c(-5) }.text(), "T2 <- -$-5");
    assert_eq!(Instr::Label(Label(4)).text(), ".L4");
    assert_eq!(Instr::JumpTo(Label(1)).text(), "JUMP .L1");
    assert_eq!(
        Instr::JumpIf { pred: Operand::Temp((0, Typ::Bool)), holds: Label(1), fails: Label(2) }.text(),
        "IF T0 JUMP .L1 ELSE .L2"
    );
    assert_eq!(Instr::Call { dest: Some(t(5)), name: s("f"), args: vec![c(1), Operand::Temp(t(2))] }.text(), "T5 <- CALL f($1, T2)");
    assert_eq!(Instr::Call { dest: None, name: s("g"), args: vec![] }.text(), "CALL g()");
    assert_eq!(Instr::Return(Some(c(0))).text(), "RETURN $0");
    assert_eq!(Instr::Return(None).text(), "RETURN");
    assert_eq!(Instr::Throw(Exception::Abort).text(), "ABORT");
    assert_eq!(
        Instr::Phi { dest: t(7), srcs: vec![(Label(1), c(1)), (Label(2), Operand::Temp(t(3)))] }.text(),
        "T7 <- PHI |.L1 : $1, .L2 : T3|"
    );
    assert_eq!(Instr::Move { dest: t(1), src: c(9) }.text(), "T1 <- $9");
    assert_eq!(BinOp::Sal.symbol(), "<<");
    assert_eq!(UnOp::LNot.symbol(), "!");
}

#[test]
fn zeroing_move_stays_when_flags_are_read() {
    let mut code = vec![
        X86Instr::Cmp(imm(1, Width::W32), reg(X86Reg::Rax, Width::W32)),
        X86Instr::Mov(imm(0, Width::W32), reg(X86Reg::Rcx, Width::W32)),
        X86Instr::Sete(reg(X86Reg::Rcx, Width::W8)),
    ];
    let before = code.clone();
    assert!(!strength_reduction(&mut code));
    assert_eq!(code, before);
}
