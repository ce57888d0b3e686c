use lib::abi::{AbiType, ArgClass, CallingConvention, Reg, SysVAmd64};

#[test]
fn classify_integer_as_integer() {
    let abi = SysVAmd64;
    assert_eq!(abi.classify_argument(&AbiType::Integer(32)), ArgClass::INTEGER);
    assert_eq!(abi.classify_argument(&AbiType::Integer(8)), ArgClass::INTEGER);
    assert_eq!(abi.classify_argument(&AbiType::Integer(64)), ArgClass::INTEGER);
}

#[test]
fn classify_pointer_as_integer() {
    let abi = SysVAmd64;
    assert_eq!(abi.classify_argument(&AbiType::Pointer), ArgClass::INTEGER);
}

#[test]
fn classify_float_as_sse() {
    let abi = SysVAmd64;
    assert_eq!(abi.classify_argument(&AbiType::Float(32)), ArgClass::SSE);
    assert_eq!(abi.classify_argument(&AbiType::Float(64)), ArgClass::SSE);
}

#[test]
fn classify_small_aggregate_as_integer() {
    let abi = SysVAmd64;
    // 8-byte struct -> fits in one register
    assert_eq!(abi.classify_argument(&AbiType::Aggregate(8)), ArgClass::INTEGER);
    // 16-byte struct -> two eightbytes, integer class
    assert_eq!(abi.classify_argument(&AbiType::Aggregate(16)), ArgClass::INTEGER);
}

#[test]
fn classify_large_aggregate_as_memory() {
    let abi = SysVAmd64;
    assert_eq!(abi.classify_argument(&AbiType::Aggregate(17)), ArgClass::MEMORY);
    assert_eq!(abi.classify_argument(&AbiType::Aggregate(32)), ArgClass::MEMORY);
}

#[test]
fn argument_registers_correct() {
    let abi = SysVAmd64;
    assert_eq!(abi.argument_register(0), Some(Reg::RDI));
    assert_eq!(abi.argument_register(1), Some(Reg::RSI));
    assert_eq!(abi.argument_register(2), Some(Reg::RDX));
    assert_eq!(abi.argument_register(3), Some(Reg::RCX));
    assert_eq!(abi.argument_register(4), Some(Reg::R8));
    assert_eq!(abi.argument_register(5), Some(Reg::R9));
    assert_eq!(abi.argument_register(6), None);
}

#[test]
fn return_register_is_rax() {
    let abi = SysVAmd64;
    assert_eq!(abi.return_register(), Reg::RAX);
}

#[test]
fn callee_saved_registers_count() {
    let abi = SysVAmd64;
    assert_eq!(abi.callee_saved_registers().len(), 6);
}

#[test]
fn caller_saved_registers_count() {
    let abi = SysVAmd64;
    assert_eq!(abi.caller_saved_registers().len(), 9);
}

#[test]
fn no_overlap_in_saved_lists() {
    let abi = SysVAmd64;
    for callee in abi.callee_saved_registers() {
        assert!(
            !abi.caller_saved_registers().contains(callee),
            "register {:?} appears in both caller-saved and callee-saved lists",
            callee,
        );
    }
}

#[test]
fn stack_alignment_is_16_bytes() {
    let abi = SysVAmd64;
    assert_eq!(abi.stack_alignment(), 16);
}

#[test]
fn red_zone_is_128_bytes() {
    let abi = SysVAmd64;
    assert_eq!(abi.red_zone_size(), 128);
}

#[test]
fn abi_type_size() {
    assert_eq!(AbiType::Integer(32).size(), 4);
    assert_eq!(AbiType::Integer(8).size(), 1);
    assert_eq!(AbiType::Integer(64).size(), 8);
    assert_eq!(AbiType::Pointer.size(), 8);
    assert_eq!(AbiType::Float(32).size(), 4);
    assert_eq!(AbiType::Float(64).size(), 8);
    assert_eq!(AbiType::Aggregate(12).size(), 12);
}

#[test]
fn register_names() {
    assert_eq!(Reg::RAX.name(), "%rax");
    assert_eq!(Reg::R15.name(), "%r15");
    assert_eq!(Reg::R8.name_32(), "%r8d");
    assert_eq!(Reg::RDI.name_32(), "%edi");
}

#[test]
fn abi_type_size_rounds_partial_bytes_up() {
    assert_eq!(AbiType::Integer(1).size(), 1);
    assert_eq!(AbiType::Integer(9).size(), 2);
    assert_eq!(AbiType::Integer(0).size(), 0);
    assert_eq!(AbiType::Float(80).size(), 10);
    assert_eq!(AbiType::Integer(u32::MAX - 7).size(), (u32::MAX - 7 + 7) / 8);
}

#[test]
fn classify_zero_sized_aggregate_as_integer() {
    let abi = SysVAmd64;
    assert_eq!(abi.classify_argument(&AbiType::Aggregate(0)), ArgClass::INTEGER);
}

#[test]
fn argument_register_count_matches_registers() {
    let abi = SysVAmd64;
    let n = abi.num_integer_arg_registers();
    assert_eq!(n, 6);
    for i in 0..20usize {
        assert_eq!(abi.argument_register(i).is_some(), i < n);
    }
}

#[test]
fn argument_and_return_registers_are_caller_saved() {
    let abi = SysVAmd64;
    for i in 0..abi.num_integer_arg_registers() {
        let r = abi.argument_register(i).unwrap();
        assert!(abi.caller_saved_registers().contains(&r));
    }
    assert!(abi.caller_saved_registers().contains(&abi.return_register()));
}

#[test]
fn every_register_except_rsp_is_saved_by_someone() {
    let abi = SysVAmd64;
    let all = [
        Reg::RAX, Reg::RBX, Reg::RCX, Reg::RDX, Reg::RSI, Reg::RDI, Reg::RBP, Reg::RSP,
        Reg::R8, Reg::R9, Reg::R10, Reg::R11, Reg::R12, Reg::R13, Reg::R14, Reg::R15,
    ];
    for r in all.iter() {
        let saved = abi.callee_saved_registers().contains(r)
            || abi.caller_saved_registers().contains(r);
        assert_eq!(saved, *r != Reg::RSP);
    }
}

#[test]
fn all_register_names() {
    assert_eq!(Reg::RBX.name(), "%rbx");
    assert_eq!(Reg::RSP.name(), "%rsp");
    assert_eq!(Reg::R10.name(), "%r10");
    assert_eq!(Reg::RAX.name_32(), "%eax");
    assert_eq!(Reg::RBP.name_32(), "%ebp");
    assert_eq!(Reg::R15.name_32(), "%r15d");
}

#[test]
fn thirty_two_bit_names_derive_from_sixty_four_bit_names() {
    let all = [
        Reg::RAX, Reg::RBX, Reg::RCX, Reg::RDX, Reg::RSI, Reg::RDI, Reg::RBP, Reg::RSP,
        Reg::R8, Reg::R9, Reg::R10, Reg::R11, Reg::R12, Reg::R13, Reg::R14, Reg::R15,
    ];
    for (i, r) in all.iter().enumerate() {
        if i < 8 {
            assert_eq!(r.name_32(), format!("%e{}", &r.name()[2..]));
        } else {
            assert_eq!(r.name_32(), format!("{}d", r.name()));
        }
        for (j, q) in all.iter().enumerate() {
            assert_eq!(r.name() == q.name(), i == j);
            assert_eq!(r.name_32() == q.name_32(), i == j);
        }
    }
}
