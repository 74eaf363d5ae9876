use athena::context::{Context, ContextVariant, Regs, RFLAGS_RESERVED};
use athena::frames::{PhysAddr, RawFrame};

#[test]
fn new_regs_are_zero() {
    let regs = Regs::new();
    assert_eq!(regs.rsp, 0);
    assert_eq!(regs.rip, 0);
    assert_eq!(regs.rflags, 0);
    assert_eq!(regs.preserved.rbx, 0);
    assert_eq!(regs.preserved.rbp, 0);
    assert_eq!(regs.preserved.r12, 0);
    assert_eq!(regs.preserved.r15, 0);
    assert_eq!(regs.scratch.rax, 0);
    assert_eq!(regs.scratch.rdi, 0);
    assert_eq!(regs.scratch.r11, 0);
}

#[test]
fn kthread_lays_out_registers() {
    let table = RawFrame::from_start_address(PhysAddr::new(0x7000));
    let context = Context::kthread(0xffff_8000_0010_0000, 0xdead_beef, 0x20_0000, table);
    assert_eq!(context.regs.rip, 0xffff_8000_0010_0000);
    assert_eq!(context.regs.scratch.rdi, 0xdead_beef);
    assert_eq!(context.regs.rsp, 0x20_0000 + 4096 - 8);
    assert_eq!(context.regs.rflags, 0x2);
    assert_eq!(context.regs.rflags, RFLAGS_RESERVED);
    assert_eq!(context.regs.scratch.rax, 0);
    assert_eq!(context.regs.scratch.rsi, 0);
    assert_eq!(context.regs.preserved, Regs::new().preserved);
    assert_eq!(context.l4_table, table);
    assert_eq!(context.variant, ContextVariant::KThread { stack_page: 0x20_0000 });
}

#[test]
fn kthread_on_the_last_page() {
    let table = RawFrame::from_start_address(PhysAddr::new(0));
    let context = Context::kthread(1, 2, 0xffff_ffff_ffff_f000, table);
    assert_eq!(context.regs.rsp, 0xffff_ffff_ffff_fff8);
}

#[test]
fn main_context_has_zero_registers() {
    let table = RawFrame::from_start_address(PhysAddr::new(0x9000));
    let context = Context::main(table);
    assert_eq!(context.regs, Regs::new());
    assert_eq!(context.l4_table, table);
    assert_eq!(context.variant, ContextVariant::KMain);
}
