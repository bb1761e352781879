use arabi_vm::fused::FloatUse;
use arabi_vm::machine::{validate_program, Constant, Instr, Program, Step, VM};
use arabi_vm::ops::{FloatOp, FloatOperand};
use arabi_vm::value::{FloatNum, Value};

fn chars(s: &str) -> Vec<char> {
    s.chars().collect()
}

fn text(s: &str) -> Value {
    Value::String(chars(s))
}

fn iconst(n: i64) -> Constant {
    Constant::Integer(n)
}

fn float(x: f64) -> Constant {
    Constant::Float(FloatNum { bits: x.to_bits(), text: chars(&format!("{}", x)) })
}

fn program(code: Vec<Instr>, constants: Vec<Constant>, num_locals: usize) -> Program {
    let lines = (0..code.len()).map(|i| (i + 1) as u32).collect();
    Program { code, constants, names: Vec::new(), lines, local_names: Vec::new(), num_locals, functions: Vec::new() }
}

fn start(p: &Program) -> VM {
    assert!(validate_program(p));
    let mut vm = VM::new();
    vm.start(p);
    vm
}

fn run(p: &Program) -> Step {
    let mut vm = start(p);
    vm.run(p, 10_000)
}

fn halted_with(s: Step) -> Value {
    match s {
        Step::Halted(v) => v,
        other => panic!("expected the program to end, got {:?}", other),
    }
}

fn list_items(v: Value) -> Vec<Value> {
    match v {
        Value::List(l) => l.items,
        other => panic!("expected a list, got {:?}", other),
    }
}

/// Local 0 holds [3, 1, 2] and local 1 holds the index constant `index`;
/// then `tail` runs.
fn list_program(index: i64, tail: Vec<Instr>, extra: Vec<Constant>) -> Program {
    let mut code = vec![
        Instr::LoadConst(0),
        Instr::LoadConst(1),
        Instr::LoadConst(2),
        Instr::BuildList(3),
        Instr::StoreFast(0),
        Instr::LoadConst(3),
        Instr::StoreFast(1),
    ];
    code.extend(tail);
    let mut constants = vec![iconst(3), iconst(1), iconst(2), iconst(index)];
    constants.extend(extra);
    program(code, constants, 3)
}

#[test]
fn counted_loop_adds_each_counter_value() {
    // i = 0; s = 0; do { s += i } while i < 5 (i += 1); return s
    let p = program(
        vec![
            Instr::LoadConst(0),
            Instr::StoreFast(0),
            Instr::LoadConst(0),
            Instr::StoreFast(1),
            Instr::LoadFast(0),
            Instr::AddLocalFromStack(1),
            Instr::JumpWhileIncrementedLt(0, 4, 1, false, 1),
            Instr::LoadFast(1),
            Instr::ReturnValue,
        ],
        vec![iconst(0), iconst(5)],
        2,
    );
    assert_eq!(halted_with(run(&p)), Value::Integer(15));
}

#[test]
fn counted_loop_with_a_local_limit() {
    let p = program(
        vec![
            Instr::LoadConst(0),
            Instr::StoreFast(0),
            Instr::LoadConst(1),
            Instr::StoreFast(1),
            Instr::JumpWhileIncrementedLt(0, 4, 2, true, 1),
            Instr::LoadFast(0),
            Instr::ReturnValue,
        ],
        vec![iconst(0), iconst(7)],
        2,
    );
    // 0 -> 2 -> 4 -> 6 -> 8, stopping once the counter is not below 7
    assert_eq!(halted_with(run(&p)), Value::Integer(8));
}

#[test]
fn float_loop_limit_is_handed_out_and_truncated_by_the_caller() {
    let p = program(
        vec![
            Instr::LoadConst(0),
            Instr::StoreFast(0),
            Instr::JumpWhileIncrementedLt(0, 2, 1, false, 1),
            Instr::LoadFast(0),
            Instr::ReturnValue,
        ],
        vec![iconst(0), float(2.9)],
        1,
    );
    let mut vm = start(&p);
    loop {
        match vm.run(&p, 100) {
            Step::FloatThen(task, then) => {
                assert_eq!(task.op, FloatOp::TruncToInt);
                assert_eq!(task.lhs, FloatOperand::Bits(2.9f64.to_bits()));
                assert_eq!(then, FloatUse::LoopLimit(0, 2, 1));
                vm.resume_float(then, Value::Integer(2));
            }
            Step::Halted(v) => {
                assert_eq!(v, Value::Integer(2));
                break;
            }
            other => panic!("{:?}", other),
        }
    }
}

#[test]
fn jump_unless_local_below_immediate() {
    // x = 3; if x < 5 { return 1 } return 2   (the jump skips when not below)
    let code = |c: i64| {
        program(
            vec![
                Instr::LoadConst(0),
                Instr::StoreFast(0),
                Instr::PopJumpIfLtLocalImm(0, c, 5),
                Instr::LoadConst(1),
                Instr::ReturnValue,
                Instr::LoadConst(2),
                Instr::ReturnValue,
            ],
            vec![iconst(3), iconst(1), iconst(2)],
            1,
        )
    };
    assert_eq!(halted_with(run(&code(5))), Value::Integer(1));
    assert_eq!(halted_with(run(&code(3))), Value::Integer(2));
    let le = program(
        vec![
            Instr::LoadConst(0),
            Instr::StoreFast(0),
            Instr::PopJumpIfLeLocalImm(0, 3, 5),
            Instr::LoadConst(1),
            Instr::ReturnValue,
            Instr::LoadConst(2),
            Instr::ReturnValue,
        ],
        vec![iconst(3), iconst(1), iconst(2)],
        1,
    );
    assert_eq!(halted_with(run(&le)), Value::Integer(1));
}

#[test]
fn float_local_against_immediate_is_handed_out() {
    let p = program(
        vec![
            Instr::LoadConst(0),
            Instr::StoreFast(0),
            Instr::PopJumpIfLtLocalImm(0, 2, 5),
            Instr::LoadConst(1),
            Instr::ReturnValue,
            Instr::LoadConst(2),
            Instr::ReturnValue,
        ],
        vec![float(2.5), iconst(1), iconst(2)],
        1,
    );
    let mut vm = start(&p);
    match vm.run(&p, 100) {
        Step::FloatThen(task, then) => {
            assert_eq!(task.op, FloatOp::Lt);
            assert_eq!(task.rhs, FloatOperand::Int(2));
            assert_eq!(then, FloatUse::JumpUnless(5));
            vm.resume_float(then, Value::Boolean(false));
        }
        other => panic!("{:?}", other),
    }
    assert_eq!(halted_with(vm.run(&p, 100)), Value::Integer(2));
}

#[test]
fn jump_unless_local_below_local() {
    let p = program(
        vec![
            Instr::LoadConst(0),
            Instr::StoreFast(0),
            Instr::LoadConst(1),
            Instr::StoreFast(1),
            Instr::PopJumpIfLtLocal(0, 1, 7),
            Instr::LoadConst(2),
            Instr::ReturnValue,
            Instr::LoadConst(3),
            Instr::ReturnValue,
        ],
        vec![Constant::String(chars("ب")), Constant::String(chars("ا")), iconst(1), iconst(2)],
        2,
    );
    // "ب" is not below "ا": jump
    assert_eq!(halted_with(run(&p)), Value::Integer(2));
}

#[test]
fn remainder_jump_and_count() {
    // x = 9; n = 0; if 9 % 3 == 0 { n += 1 }; if 9 % 4 != 0 jump to return n
    let p = program(
        vec![
            Instr::LoadConst(0),
            Instr::StoreFast(0),
            Instr::LoadConst(3),
            Instr::StoreFast(1),
            Instr::LoadConst(2),
            Instr::StoreFast(2),
            Instr::LoadConst(4),
            Instr::StoreFast(3),
            Instr::ModAddIfZero(0, 1, 2),
            Instr::ModJumpIfNotZero(0, 3, 12),
            Instr::LoadConst(5),
            Instr::ReturnValue,
            Instr::LoadFast(2),
            Instr::ReturnValue,
        ],
        vec![iconst(9), iconst(3), iconst(0), iconst(3), iconst(4), iconst(-1)],
        4,
    );
    assert_eq!(halted_with(run(&p)), Value::Integer(1));
}

#[test]
fn swap_adjacent_swaps_in_place() {
    let p = list_program(0, vec![Instr::SwapAdjacent(0, 1), Instr::LoadFast(0), Instr::ReturnValue], vec![]);
    assert_eq!(list_items(halted_with(run(&p))), vec![Value::Integer(1), Value::Integer(3), Value::Integer(2)]);
}

#[test]
fn swap_adjacent_at_the_last_element_is_out_of_range() {
    let p = list_program(2, vec![Instr::SwapAdjacent(0, 1), Instr::LoadFast(0), Instr::ReturnValue], vec![]);
    match run(&p) {
        Step::Failed(e) => {
            assert_eq!(e.class_name(), "استثناء_نطاق");
            assert_eq!(e.message(), "فهرس خارج النطاق");
        }
        other => panic!("{:?}", other),
    }
}

#[test]
fn subscript_local_reads_from_the_end() {
    let p = list_program(-1, vec![Instr::SubscriptLocal(0, 1), Instr::ReturnValue], vec![]);
    assert_eq!(halted_with(run(&p)), Value::Integer(2));
}

#[test]
fn subscript_local_of_a_number_is_a_type_error() {
    let p = program(
        vec![Instr::LoadConst(0), Instr::StoreFast(0), Instr::LoadConst(0), Instr::StoreFast(1), Instr::SubscriptLocal(0, 1), Instr::ReturnValue],
        vec![iconst(4)],
        2,
    );
    match run(&p) {
        Step::Failed(e) => {
            assert_eq!(e.class_name(), "استثناء_نوع");
            assert_eq!(e.message(), "غير قادر على الوصول بالفهرس");
        }
        other => panic!("{:?}", other),
    }
}

#[test]
fn store_subscript_local_changes_the_shared_list() {
    let p = list_program(
        1,
        vec![
            Instr::LoadFast(0),
            Instr::StoreFast(2),
            Instr::LoadConst(4),
            Instr::StoreSubscriptLocal(0, 1),
            Instr::LoadFast(2),
            Instr::ReturnValue,
        ],
        vec![iconst(9)],
    );
    assert_eq!(list_items(halted_with(run(&p))), vec![Value::Integer(3), Value::Integer(9), Value::Integer(2)]);
}

#[test]
fn subscript_with_offset_reads_and_stores() {
    let p = list_program(0, vec![Instr::SubscriptAddImm(0, 1, 2), Instr::ReturnValue], vec![]);
    assert_eq!(halted_with(run(&p)), Value::Integer(2));
    let p = list_program(
        0,
        vec![Instr::LoadConst(4), Instr::StoreSubscriptAddImm(0, 1, 1), Instr::LoadFast(0), Instr::ReturnValue],
        vec![iconst(7)],
    );
    assert_eq!(list_items(halted_with(run(&p))), vec![Value::Integer(3), Value::Integer(7), Value::Integer(2)]);
}

#[test]
fn jump_when_element_not_greater_than_next() {
    // [3, 1, 2]: 3 > 1 so no jump at 0; 1 <= 2 so a jump at 1
    let at = |index: i64| {
        list_program(
            index,
            vec![
                Instr::PopJumpIfSubscriptGt(0, 1, 1, 10),
                Instr::LoadConst(0),
                Instr::ReturnValue,
                Instr::LoadConst(1),
                Instr::ReturnValue,
            ],
            vec![],
        )
    };
    assert_eq!(halted_with(run(&at(0))), Value::Integer(3));
    assert_eq!(halted_with(run(&at(1))), Value::Integer(1));
}

#[test]
fn add_local_from_stack_concatenates_text_and_gives_zero_when_impossible() {
    let p = program(
        vec![Instr::LoadConst(0), Instr::StoreFast(0), Instr::LoadConst(1), Instr::AddLocalFromStack(0), Instr::LoadFast(0), Instr::ReturnValue],
        vec![Constant::String(chars("اب")), Constant::String(chars("ج"))],
        1,
    );
    assert_eq!(halted_with(run(&p)), text("ابج"));
    let p = program(
        vec![Instr::LoadConst(0), Instr::StoreFast(0), Instr::LoadConst(1), Instr::AddLocalFromStack(0), Instr::LoadFast(0), Instr::ReturnValue],
        vec![Constant::Boolean(true), iconst(1)],
        1,
    );
    assert_eq!(halted_with(run(&p)), Value::Integer(0));
}

#[test]
fn inplace_text_append_counts_bytes() {
    let p = program(
        vec![Instr::LoadConst(0), Instr::StoreFast(0), Instr::InplaceAddStrConst(0, 1), Instr::LoadFast(0), Instr::ReturnValue],
        vec![iconst(5), Constant::String(chars("ب"))],
        1,
    );
    let mut vm = start(&p);
    let before = vm.memory_used;
    assert_eq!(halted_with(vm.run(&p, 100)), text("5ب"));
    assert_eq!(vm.memory_used, before + 2);
}

#[test]
fn integer_specialised_instructions_match_the_general_ones() {
    let p = program(
        vec![Instr::LoadConst(0), Instr::LoadConst(1), Instr::BinaryFloorDivIntInt, Instr::ReturnValue],
        vec![iconst(-7), iconst(2)],
        1,
    );
    assert_eq!(halted_with(run(&p)), Value::Integer(-3));
    let p = program(
        vec![Instr::LoadConst(0), Instr::LoadConst(1), Instr::CompareLeIntInt, Instr::ReturnValue],
        vec![iconst(2), iconst(2)],
        1,
    );
    assert_eq!(halted_with(run(&p)), Value::Boolean(true));
    let p = program(
        vec![Instr::LoadConst(0), Instr::LoadConst(1), Instr::BinaryModIntInt, Instr::ReturnValue],
        vec![iconst(-7), iconst(2)],
        1,
    );
    assert_eq!(halted_with(run(&p)), Value::Integer(-1));
}

/// Local 0 holds [[1, 2], [3, 4]], local 4 the second row itself, local 1
/// and 2 the row and column constants, local 3 the addend; then `tail` runs.
fn grid_program(row: i64, col: i64, addend: Constant, tail: Vec<Instr>, extra: Vec<Constant>) -> Program {
    let mut code = vec![
        Instr::LoadConst(0),
        Instr::LoadConst(1),
        Instr::BuildList(2),
        Instr::LoadConst(2),
        Instr::LoadConst(3),
        Instr::BuildList(2),
        Instr::DupTop,
        Instr::StoreFast(4),
        Instr::BuildList(2),
        Instr::StoreFast(0),
        Instr::LoadConst(4),
        Instr::StoreFast(1),
        Instr::LoadConst(5),
        Instr::StoreFast(2),
        Instr::LoadConst(6),
        Instr::StoreFast(3),
    ];
    code.extend(tail);
    let mut constants = vec![iconst(1), iconst(2), iconst(3), iconst(4), iconst(row), iconst(col), addend];
    constants.extend(extra);
    program(code, constants, 5)
}

#[test]
fn grid_read_takes_row_then_column() {
    let p = grid_program(1, -1, iconst(0), vec![Instr::SubscriptLocal2D(0, 1, 2), Instr::ReturnValue], vec![]);
    assert_eq!(halted_with(run(&p)), Value::Integer(4));
    let p = grid_program(-2, 1, iconst(0), vec![Instr::SubscriptLocal2D(0, 1, 2), Instr::ReturnValue], vec![]);
    assert_eq!(halted_with(run(&p)), Value::Integer(2));
}

#[test]
fn grid_read_outside_the_rows_is_a_range_error() {
    let p = grid_program(2, 0, iconst(0), vec![Instr::SubscriptLocal2D(0, 1, 2), Instr::ReturnValue], vec![]);
    match run(&p) {
        Step::Failed(e) => {
            assert_eq!(e.class_name(), "استثناء_نطاق");
            assert_eq!(e.message(), "فهرس خارج النطاق");
        }
        other => panic!("{:?}", other),
    }
}

#[test]
fn grid_read_of_a_flat_list_is_a_type_error() {
    let p = list_program(0, vec![Instr::SubscriptLocal2D(0, 1, 1), Instr::ReturnValue], vec![]);
    match run(&p) {
        Step::Failed(e) => {
            assert_eq!(e.class_name(), "استثناء_نوع");
            assert_eq!(e.message(), "العنصر ليس مصفوفة");
        }
        other => panic!("{:?}", other),
    }
}

#[test]
fn grid_store_is_seen_through_the_row() {
    let p = grid_program(
        1,
        0,
        iconst(0),
        vec![Instr::LoadConst(7), Instr::StoreSubscriptLocal2D(0, 1, 2), Instr::LoadFast(4), Instr::ReturnValue],
        vec![iconst(9)],
    );
    assert_eq!(list_items(halted_with(run(&p))), vec![Value::Integer(9), Value::Integer(4)]);
}

#[test]
fn grid_store_into_a_number_is_a_type_error() {
    let p = program(
        vec![Instr::LoadConst(0), Instr::StoreFast(0), Instr::LoadConst(0), Instr::StoreSubscriptLocal2D(0, 0, 0), Instr::ReturnValue],
        vec![iconst(0)],
        1,
    );
    match run(&p) {
        Step::Failed(e) => assert_eq!(e.message(), "غير قادر على التخزين بالفهرس"),
        other => panic!("{:?}", other),
    }
}

#[test]
fn grid_add_adds_integers_in_place() {
    let p = grid_program(1, 1, iconst(5), vec![Instr::AddToSubscript2D(0, 1, 2, 3), Instr::LoadFast(4), Instr::ReturnValue], vec![]);
    assert_eq!(list_items(halted_with(run(&p))), vec![Value::Integer(3), Value::Integer(9)]);
}

#[test]
fn grid_add_of_text_stores_null() {
    let p = grid_program(0, 0, Constant::String(chars("س")), vec![Instr::AddToSubscript2D(0, 1, 2, 3), Instr::SubscriptLocal2D(0, 1, 2), Instr::ReturnValue], vec![]);
    assert_eq!(halted_with(run(&p)), Value::Null);
}

#[test]
fn grid_add_with_a_float_is_handed_out_and_stored_on_return() {
    let p = grid_program(1, 0, float(0.5), vec![Instr::AddToSubscript2D(0, 1, 2, 3), Instr::LoadFast(4), Instr::ReturnValue], vec![]);
    let mut vm = start(&p);
    let mut handed_out = false;
    loop {
        match vm.run(&p, 100) {
            Step::FloatThen(task, then) => {
                assert_eq!(task.op, FloatOp::Add);
                assert_eq!(task.lhs, FloatOperand::Int(3));
                assert_eq!(task.rhs, FloatOperand::Bits(0.5f64.to_bits()));
                assert_eq!(then, FloatUse::StoreElement(0, 1, 2));
                handed_out = true;
                vm.resume_float(then, Value::Float(FloatNum { bits: 3.5f64.to_bits(), text: chars("3.5") }));
            }
            Step::Halted(v) => {
                let items = list_items(v);
                match &items[0] {
                    Value::Float(f) => assert_eq!(f.bits, 3.5f64.to_bits()),
                    other => panic!("{:?}", other),
                }
                assert_eq!(items[1], Value::Integer(4));
                break;
            }
            other => panic!("{:?}", other),
        }
    }
    assert!(handed_out);
}

#[test]
fn method_call_dropping_its_result_is_an_error() {
    let p = program(vec![Instr::CallMethodVoid(0, 0), Instr::ReturnValue], vec![], 1);
    match run(&p) {
        Step::Failed(e) => {
            assert_eq!(e.class_name(), "خطا");
            assert_eq!(e.message(), "CallMethodVoid should not be reached — disable peephole pass 32");
        }
        other => panic!("{:?}", other),
    }
}

#[test]
fn grid_store_then_read_gives_the_stored_value() {
    let p = grid_program(
        0,
        -1,
        iconst(0),
        vec![Instr::LoadConst(7), Instr::StoreSubscriptLocal2D(0, 1, 2), Instr::SubscriptLocal2D(0, 1, 2), Instr::ReturnValue],
        vec![iconst(42)],
    );
    assert_eq!(halted_with(run(&p)), Value::Integer(42));
}
