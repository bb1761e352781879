use arabi_vm::machine::{validate_program, Constant, FunctionInfo, Instr, Program, Step, VM};
use arabi_vm::value::{ListObj, Value};

fn chars(s: &str) -> Vec<char> {
    s.chars().collect()
}

fn text(s: &str) -> Value {
    Value::String(chars(s))
}

fn program(code: Vec<Instr>, constants: Vec<Constant>, names: Vec<&str>, num_locals: usize) -> Program {
    let lines = (0..code.len()).map(|i| (i + 1) as u32).collect();
    Program {
        code,
        constants,
        names: names.into_iter().map(chars).collect(),
        lines,
        local_names: Vec::new(),
        num_locals,
        functions: Vec::new(),
    }
}

fn run(p: &Program) -> (VM, Step) {
    assert!(validate_program(p));
    let mut vm = VM::new();
    vm.start(p);
    let s = vm.run(p, 10_000);
    (vm, s)
}

fn halted_with(s: Step) -> Value {
    match s {
        Step::Halted(v) => v,
        other => panic!("expected the program to end, got {:?}", other),
    }
}

#[test]
fn arithmetic_and_return() {
    let p = program(
        vec![Instr::LoadConst(0), Instr::LoadConst(1), Instr::BinaryAdd, Instr::ReturnValue],
        vec![Constant::Integer(2), Constant::Integer(40)],
        vec![],
        1,
    );
    let (_, s) = run(&p);
    assert_eq!(halted_with(s), Value::Integer(42));
}

#[test]
fn store_name_then_load_name() {
    let p = program(
        vec![Instr::LoadConst(0), Instr::StoreName(0), Instr::LoadName(0), Instr::ReturnValue],
        vec![Constant::String(chars("قيمة"))],
        vec!["س"],
        1,
    );
    let (vm, s) = run(&p);
    assert_eq!(halted_with(s), text("قيمة"));
    assert_eq!(vm.lookup_global(&chars("س")), Some(text("قيمة")));
}

#[test]
fn builtins_are_bound_at_start() {
    let vm = VM::new();
    match vm.lookup_global(&chars("طول")) {
        Some(Value::NativeFunction(d)) => assert_eq!(d.name, "طول"),
        other => panic!("{:?}", other),
    }
    match vm.lookup_global(&chars("استثناء_نوع")) {
        Some(Value::Class(o)) => assert_eq!(o.name, chars("استثناء_نوع")),
        other => panic!("{:?}", other),
    }
    assert!(vm.lookup_global(&chars("غير_موجود")).is_none());
    assert!(vm.is_exception_child(&chars("استثناء_نوع"), &chars("استثناء")));
    assert!(!vm.is_exception_child(&chars("استثناء"), &chars("استثناء_نوع")));
}

#[test]
fn loop_with_jumps_counts_to_ten() {
    // i = 0; while i < 10: i = i + 1; return i
    let p = program(
        vec![
            Instr::LoadConst(0),
            Instr::StoreFast(0),
            Instr::LoadFast(0),
            Instr::LoadConst(1),
            Instr::CompareLt,
            Instr::PopJumpIfFalse(5),
            Instr::IncrementInt(0, 1),
            Instr::JumpBackward(2),
            Instr::Nop,
            Instr::Nop,
            Instr::LoadFast(0),
            Instr::ReturnValue,
        ],
        vec![Constant::Integer(0), Constant::Integer(10)],
        vec![],
        1,
    );
    let (_, s) = run(&p);
    assert_eq!(halted_with(s), Value::Integer(10));
}

#[test]
fn element_store_is_seen_through_the_local() {
    // x = [1, 2, 3]; x[0] = 9; return x[0]
    let p = program(
        vec![
            Instr::LoadConst(0),
            Instr::LoadConst(1),
            Instr::LoadConst(2),
            Instr::BuildList(3),
            Instr::StoreFast(0),
            Instr::LoadFast(0),
            Instr::LoadConst(3),
            Instr::LoadConst(4),
            Instr::StoreSubscript,
            Instr::PopTop,
            Instr::LoadFast(0),
            Instr::LoadConst(3),
            Instr::Subscript,
            Instr::ReturnValue,
        ],
        vec![Constant::Integer(1), Constant::Integer(2), Constant::Integer(3), Constant::Integer(0), Constant::Integer(9)],
        vec![],
        1,
    );
    let (_, s) = run(&p);
    assert_eq!(halted_with(s), Value::Integer(9));
}

#[test]
fn raise_is_caught_by_the_protected_block() {
    let p = program(
        vec![
            Instr::SetupExcept(4),
            Instr::LoadConst(0),
            Instr::Raise,
            Instr::Halt,
            Instr::CheckExceptionType(1),
            Instr::ReturnValue,
        ],
        vec![Constant::String(chars("مشكلة")), Constant::String(chars("استثناء"))],
        vec![],
        1,
    );
    let (_, s) = run(&p);
    assert_eq!(halted_with(s), Value::Boolean(true));
}

#[test]
fn uncaught_raise_fails_with_line() {
    let p = program(vec![Instr::LoadConst(0), Instr::Raise], vec![Constant::String(chars("مشكلة"))], vec![], 1);
    let (_, s) = run(&p);
    match s {
        Step::Failed(e) => {
            assert_eq!(e.class_name(), "استثناء");
            assert_eq!(e.message(), "استثناء غير مُعالَج: استثناء: مشكلة");
            assert_eq!(e.line(), Some(2));
        }
        other => panic!("{:?}", other),
    }
}

#[test]
fn division_by_zero_is_caught_as_an_exception() {
    let p = program(
        vec![
            Instr::SetupExcept(5),
            Instr::LoadConst(0),
            Instr::LoadConst(1),
            Instr::BinaryModulo,
            Instr::Halt,
            Instr::ReturnValue,
        ],
        vec![Constant::Integer(1), Constant::Integer(0)],
        vec![],
        1,
    );
    let (_, s) = run(&p);
    match halted_with(s) {
        Value::Exception(d) => {
            assert_eq!(d.class_name, "استثناء_قسمة");
            assert_eq!(d.message, "القسمة على صفر");
        }
        other => panic!("{:?}", other),
    }
}

#[test]
fn for_iter_materialises_a_range() {
    let p = program(
        vec![Instr::LoadName(0), Instr::LoadConst(0), Instr::CallFunction(1), Instr::ForIter, Instr::ReturnValue],
        vec![Constant::Integer(3)],
        vec!["مدى"],
        1,
    );
    let mut vm = VM::new();
    vm.start(&p);
    let s = vm.run(&p, 100);
    let (name, args) = match s {
        Step::CallNative(n, a) => (n, a),
        other => panic!("{:?}", other),
    };
    assert_eq!(name, chars("مدى"));
    assert!(matches!(vm.native_call(&name, &args), Some(Step::Continue)));
    let s = vm.run(&p, 100);
    assert_eq!(halted_with(s), Value::Integer(3));
}

#[test]
fn user_function_call_and_return() {
    // f(x) = x * x; return f(5)
    let mut p = program(
        vec![
            Instr::MakeFunction(0),
            Instr::StoreFast(0),
            Instr::LoadFast(0),
            Instr::LoadConst(0),
            Instr::CallFunction(1),
            Instr::ReturnValue,
            Instr::LoadFast(0),
            Instr::LoadFast(0),
            Instr::BinaryMultiply,
            Instr::ReturnValue,
        ],
        vec![Constant::Integer(5)],
        vec![],
        1,
    );
    p.functions.push(FunctionInfo {
        name: chars("مربع"),
        body: 6,
        param_count: 1,
        param_indices: vec![0],
        defaults: vec![None],
        free_vars: Vec::new(),
        declared_locals: 1,
        is_generator: false,
        param_names: vec![chars("س")],
    });
    let (_, s) = run(&p);
    assert_eq!(halted_with(s), Value::Integer(25));
}

#[test]
fn default_parameter_fills_a_missing_argument() {
    let mut p = program(
        vec![Instr::MakeFunction(0), Instr::CallFunction(0), Instr::ReturnValue, Instr::LoadFast(0), Instr::ReturnValue],
        vec![],
        vec![],
        1,
    );
    p.functions.push(FunctionInfo {
        name: chars("ق"),
        body: 3,
        param_count: 1,
        param_indices: vec![0],
        defaults: vec![Some(Constant::Integer(7))],
        free_vars: Vec::new(),
        declared_locals: 1,
        is_generator: false,
        param_names: vec![chars("س")],
    });
    let (_, s) = run(&p);
    assert_eq!(halted_with(s), Value::Integer(7));
}

#[test]
fn calling_a_number_fails_as_not_callable() {
    let p = program(vec![Instr::LoadConst(0), Instr::CallFunction(0), Instr::ReturnValue], vec![Constant::Integer(1)], vec![], 1);
    let (_, s) = run(&p);
    match s {
        Step::Failed(e) => assert_eq!(e.message(), "غير قادر على استدعاء صحيح"),
        other => panic!("{:?}", other),
    }
}

#[test]
fn string_format_pads_and_float_format_is_requested() {
    let p = program(
        vec![Instr::LoadConst(0), Instr::LoadConst(1), Instr::StringFormat, Instr::ReturnValue],
        vec![Constant::String(chars(">4")), Constant::Integer(7)],
        vec![],
        1,
    );
    let (_, s) = run(&p);
    assert_eq!(halted_with(s), text("   7"));
    let p = program(
        vec![Instr::LoadConst(0), Instr::LoadConst(1), Instr::StringFormat, Instr::ReturnValue],
        vec![Constant::String(chars(".1f")), Constant::Integer(7)],
        vec![],
        1,
    );
    let mut vm = VM::new();
    vm.start(&p);
    match vm.run(&p, 100) {
        Step::Format(ff, st) => {
            assert_eq!(ff.precision, 1);
            vm.resume_formatted(chars("7.0"), &st);
        }
        other => panic!("{:?}", other),
    }
    assert_eq!(halted_with(vm.run(&p, 100)), text("7.0"));
}

#[test]
fn build_dict_set_and_slice() {
    let p = program(
        vec![
            Instr::LoadConst(0),
            Instr::LoadConst(1),
            Instr::BuildDict(1),
            Instr::LoadConst(0),
            Instr::Subscript,
            Instr::ReturnValue,
        ],
        vec![Constant::String(chars("ك")), Constant::Integer(5)],
        vec![],
        1,
    );
    let (_, s) = run(&p);
    assert_eq!(halted_with(s), Value::Integer(5));
    let p = program(
        vec![Instr::LoadConst(0), Instr::LoadConst(0), Instr::LoadConst(1), Instr::BuildSet(3), Instr::ReturnValue],
        vec![Constant::Integer(1), Constant::Integer(2)],
        vec![],
        1,
    );
    let (_, s) = run(&p);
    match halted_with(s) {
        Value::SetVal(ListObj { items, .. }) => assert_eq!(items, vec![Value::Integer(1), Value::Integer(2)]),
        other => panic!("{:?}", other),
    }
}

#[test]
fn memory_limit_refuses_large_lists() {
    let p = program(vec![Instr::BuildList(10), Instr::ReturnValue], vec![], vec![], 1);
    let mut vm = VM::new();
    vm.memory_limit = 100;
    vm.start(&p);
    match vm.run(&p, 10) {
        Step::Failed(e) => {
            assert_eq!(e.class_name(), "استثناء_ذاكرة");
            assert_eq!(e.message(), "تجاوزت الحد الاقصى للذاكرة (0 ميجابايت)");
        }
        other => panic!("{:?}", other),
    }
}

#[test]
fn frame_depth_limit() {
    let mut vm = VM::new();
    vm.frame_depth_limit = 1;
    assert!(vm.push_frame(0, 0, 0).is_ok());
    let e = vm.push_frame(0, 0, 0).unwrap_err();
    assert_eq!(e.message(), "تجاوزت عمق الاستدعاء الحد الاقصى (1)");
    vm.pop_frame();
    assert!(vm.frames.is_empty());
}

#[test]
fn module_locals_are_copied_to_globals() {
    let mut p = program(vec![Instr::LoadConst(0), Instr::StoreFast(0), Instr::Halt], vec![Constant::Integer(4)], vec![], 2);
    p.local_names = vec![chars("ع"), chars("ل")];
    let (mut vm, s) = run(&p);
    assert!(matches!(s, Step::Halted(Value::Null)));
    vm.sync_module_locals(&p);
    assert_eq!(vm.lookup_global(&chars("ع")), Some(Value::Integer(4)));
    assert!(vm.lookup_global(&chars("ل")).is_none());
}

#[test]
fn exhausted_fuel_leaves_the_machine_running() {
    let p = program(vec![Instr::JumpBackward(0)], vec![], vec![], 1);
    let mut vm = VM::new();
    vm.start(&p);
    assert!(matches!(vm.run(&p, 5), Step::Continue));
}

fn counter_program(body: Vec<Instr>, constants: Vec<Constant>) -> Program {
    // x = first constant; inc = closure over x; inc(); inc(); return x
    let mut code = vec![
        Instr::LoadConst(0),
        Instr::StoreFast(0),
        Instr::MakeFunction(0),
        Instr::StoreFast(1),
        Instr::LoadFast(1),
        Instr::CallFunction(0),
        Instr::PopTop,
        Instr::LoadFast(1),
        Instr::CallFunction(0),
        Instr::PopTop,
        Instr::LoadFast(0),
        Instr::ReturnValue,
    ];
    let body_start = code.len();
    code.extend(body);
    let mut p = program(code, constants, vec![], 2);
    p.functions.push(FunctionInfo {
        name: chars("زد"),
        body: body_start,
        param_count: 0,
        param_indices: vec![],
        defaults: vec![],
        free_vars: vec![(0, 0)],
        declared_locals: 1,
        is_generator: false,
        param_names: vec![],
    });
    p
}

#[test]
fn increment_through_a_captured_variable_is_seen_by_the_enclosing_frame() {
    let p = counter_program(
        vec![Instr::IncrementInt(0, 1), Instr::LoadNone, Instr::ReturnValue],
        vec![Constant::Integer(0)],
    );
    let (_, s) = run(&p);
    assert_eq!(halted_with(s), Value::Integer(2));
}

#[test]
fn store_through_a_captured_variable_is_seen_by_the_enclosing_frame() {
    let p = counter_program(
        vec![
            Instr::LoadFast(0),
            Instr::LoadConst(1),
            Instr::BinaryAdd,
            Instr::StoreFast(0),
            Instr::LoadNone,
            Instr::ReturnValue,
        ],
        vec![Constant::Integer(10), Constant::Integer(5)],
    );
    let (_, s) = run(&p);
    assert_eq!(halted_with(s), Value::Integer(20));
}

fn summing_program() -> Program {
    // جمع(n, acc): if n == 0 return acc; else tail call جمع(n - 1, acc + n)
    let mut p = program(
        vec![
            Instr::MakeFunction(0),
            Instr::StoreName(0),
            Instr::LoadName(0),
            Instr::LoadConst(0),
            Instr::LoadConst(1),
            Instr::CallFunction(2),
            Instr::ReturnValue,
            Instr::LoadFast(0),
            Instr::LoadConst(1),
            Instr::CompareEq,
            Instr::PopJumpIfFalse(3),
            Instr::LoadFast(1),
            Instr::ReturnValue,
            Instr::LoadName(0),
            Instr::LoadFast(0),
            Instr::LoadConst(2),
            Instr::BinarySubtract,
            Instr::LoadFast(1),
            Instr::LoadFast(0),
            Instr::BinaryAdd,
            Instr::TailCall(2),
        ],
        vec![Constant::Integer(2000), Constant::Integer(0), Constant::Integer(1)],
        vec!["جمع"],
        1,
    );
    p.functions.push(FunctionInfo {
        name: chars("جمع"),
        body: 7,
        param_count: 2,
        param_indices: vec![0, 1],
        defaults: vec![None, None],
        free_vars: Vec::new(),
        declared_locals: 2,
        is_generator: false,
        param_names: vec![chars("ع"), chars("مجموع")],
    });
    p
}

#[test]
fn tail_call_reuses_the_running_frame() {
    let p = summing_program();
    assert!(validate_program(&p));
    let mut vm = VM::new();
    vm.start(&p);
    // Two thousand nested calls would pass a depth limit of ten; a tail
    // call keeps the frame it runs in.
    vm.frame_depth_limit = 10;
    let s = vm.run(&p, 100_000);
    assert_eq!(halted_with(s), Value::Integer(2001000));
}

#[test]
fn tail_call_of_a_native_function_hands_it_out() {
    let p = program(
        vec![Instr::LoadName(0), Instr::LoadConst(0), Instr::TailCall(1), Instr::ReturnValue],
        vec![Constant::Integer(-3)],
        vec!["طول"],
        1,
    );
    let (_, s) = run(&p);
    match s {
        Step::CallNative(name, args) => {
            assert_eq!(name, chars("طول"));
            assert_eq!(args.len(), 1);
            assert_eq!(args[0], Value::Integer(-3));
        }
        other => panic!("expected a native call, got {:?}", other),
    }
}

#[test]
fn tail_call_of_a_number_fails_as_not_callable() {
    let p = program(
        vec![Instr::LoadConst(0), Instr::TailCall(0), Instr::ReturnValue],
        vec![Constant::Integer(1)],
        vec![],
        1,
    );
    let (_, s) = run(&p);
    match s {
        Step::Failed(e) => assert_eq!(e.message(), "غير قادر على استدعاء صحيح"),
        other => panic!("{:?}", other),
    }
}

/// A module that makes فرق(أ, ب=5) returning أ - ب in local 0, then runs `call`.
fn difference_program(call: Vec<Instr>, constants: Vec<Constant>) -> Program {
    let mut code = vec![Instr::MakeFunction(0), Instr::StoreFast(0)];
    code.extend(call);
    code.push(Instr::ReturnValue);
    let body = code.len();
    code.extend(vec![Instr::LoadFast(0), Instr::LoadFast(1), Instr::BinarySubtract, Instr::ReturnValue]);
    let mut p = program(code, constants, vec!["اطبع"], 1);
    p.functions.push(FunctionInfo {
        name: chars("فرق"),
        body,
        param_count: 2,
        param_indices: vec![0, 1],
        defaults: vec![None, Some(Constant::Integer(5))],
        free_vars: Vec::new(),
        declared_locals: 2,
        is_generator: false,
        param_names: vec![chars("أ"), chars("ب")],
    });
    p
}

#[test]
fn keyword_arguments_bind_by_name() {
    // فرق(ب=1, أ=10)
    let p = difference_program(
        vec![
            Instr::LoadFast(0),
            Instr::LoadConst(0),
            Instr::LoadConst(1),
            Instr::LoadConst(2),
            Instr::LoadConst(3),
            Instr::LoadConst(4),
            Instr::CallFunctionKw(0),
        ],
        vec![text_const("ب"), Constant::Integer(1), text_const("أ"), Constant::Integer(10), Constant::Integer(2)],
    );
    let (_, s) = run(&p);
    assert_eq!(halted_with(s), Value::Integer(9));
}

#[test]
fn positional_arguments_come_first_and_the_last_keyword_of_a_name_wins() {
    // فرق(20, ب=1, ب=3)
    let p = difference_program(
        vec![
            Instr::LoadFast(0),
            Instr::LoadConst(0),
            Instr::LoadConst(1),
            Instr::LoadConst(2),
            Instr::LoadConst(1),
            Instr::LoadConst(3),
            Instr::LoadConst(4),
            Instr::CallFunctionKw(1),
        ],
        vec![Constant::Integer(20), text_const("ب"), Constant::Integer(1), Constant::Integer(3), Constant::Integer(2)],
    );
    let (_, s) = run(&p);
    assert_eq!(halted_with(s), Value::Integer(17));
}

#[test]
fn keyword_call_without_the_keyword_takes_the_default() {
    // فرق(أ=12, ج=0): ج names no parameter, ب takes its default 5
    let p = difference_program(
        vec![
            Instr::LoadFast(0),
            Instr::LoadConst(0),
            Instr::LoadConst(1),
            Instr::LoadConst(2),
            Instr::LoadConst(3),
            Instr::LoadConst(4),
            Instr::CallFunctionKw(0),
        ],
        vec![text_const("أ"), Constant::Integer(12), text_const("ج"), Constant::Integer(0), Constant::Integer(2)],
    );
    let (_, s) = run(&p);
    assert_eq!(halted_with(s), Value::Integer(7));
}

#[test]
fn keyword_call_of_a_builtin_hands_out_the_keywords() {
    let p = difference_program(
        vec![
            Instr::LoadName(0),
            Instr::LoadConst(0),
            Instr::LoadConst(1),
            Instr::LoadConst(2),
            Instr::LoadConst(3),
            Instr::CallFunctionKw(1),
        ],
        vec![Constant::Integer(4), text_const("الفاصل"), text_const("-"), Constant::Integer(1)],
    );
    let (_, s) = run(&p);
    match s {
        Step::CallNativeKw(name, args, kwargs) => {
            assert_eq!(name, chars("اطبع"));
            assert_eq!(args, vec![Value::Integer(4)]);
            assert_eq!(kwargs.len(), 1);
            assert_eq!(kwargs[0].0, chars("الفاصل"));
            assert_eq!(kwargs[0].1, text("-"));
        }
        other => panic!("expected a native call, got {:?}", other),
    }
}

#[test]
fn keyword_count_below_zero_leaves_the_machine_stuck() {
    let p = difference_program(
        vec![Instr::LoadFast(0), Instr::LoadConst(0), Instr::CallFunctionKw(0)],
        vec![Constant::Integer(-1)],
    );
    let (_, s) = run(&p);
    assert!(matches!(s, Step::Stuck));
}

fn text_const(s: &str) -> Constant {
    Constant::String(chars(s))
}

#[test]
fn keyword_call_with_no_keywords_gives_the_plain_result() {
    // فرق(9, 4) through both call instructions
    let kw = difference_program(
        vec![Instr::LoadFast(0), Instr::LoadConst(0), Instr::LoadConst(1), Instr::LoadConst(2), Instr::CallFunctionKw(2)],
        vec![Constant::Integer(9), Constant::Integer(4), Constant::Integer(0)],
    );
    let plain = difference_program(
        vec![Instr::LoadFast(0), Instr::LoadConst(0), Instr::LoadConst(1), Instr::CallFunction(2)],
        vec![Constant::Integer(9), Constant::Integer(4)],
    );
    let (_, a) = run(&kw);
    let (_, b) = run(&plain);
    assert_eq!(halted_with(a), Value::Integer(5));
    assert_eq!(halted_with(b), Value::Integer(5));
}

#[test]
fn spread_list_gives_the_arguments() {
    // فرق(*[10, 3])
    let p = difference_program(
        vec![Instr::LoadFast(0), Instr::LoadConst(0), Instr::LoadConst(1), Instr::BuildList(2), Instr::CallFunctionUnpacked(0, 1, 0)],
        vec![Constant::Integer(10), Constant::Integer(3)],
    );
    let (_, s) = run(&p);
    assert_eq!(halted_with(s), Value::Integer(7));
}

#[test]
fn spread_of_a_plain_value_and_a_tuple() {
    // فرق(*5, *(2,)): a value that is no list or tuple is one argument
    let p = difference_program(
        vec![
            Instr::LoadFast(0),
            Instr::LoadConst(0),
            Instr::LoadConst(1),
            Instr::BuildTuple(1),
            Instr::CallFunctionUnpacked(0, 2, 0),
        ],
        vec![Constant::Integer(5), Constant::Integer(2)],
    );
    let (_, s) = run(&p);
    assert_eq!(halted_with(s), Value::Integer(3));
}

#[test]
fn spread_dictionary_gives_keyword_arguments() {
    // فرق(20, **{"ب": 4})
    let p = difference_program(
        vec![
            Instr::LoadFast(0),
            Instr::LoadConst(0),
            Instr::LoadConst(1),
            Instr::LoadConst(2),
            Instr::BuildDict(1),
            Instr::CallFunctionUnpacked(1, 0, 1),
        ],
        vec![Constant::Integer(20), text_const("ب"), Constant::Integer(4)],
    );
    let (_, s) = run(&p);
    assert_eq!(halted_with(s), Value::Integer(16));
}

#[test]
fn spread_dictionary_keywords_reach_a_builtin_reversed() {
    // اطبع(**{"الفاصل": "-", "النهاية": "!"})
    let p = difference_program(
        vec![
            Instr::LoadName(0),
            Instr::LoadConst(0),
            Instr::LoadConst(1),
            Instr::LoadConst(2),
            Instr::LoadConst(3),
            Instr::BuildDict(2),
            Instr::CallFunctionUnpacked(0, 0, 1),
        ],
        vec![text_const("الفاصل"), text_const("-"), text_const("النهاية"), text_const("!")],
    );
    let (_, s) = run(&p);
    match s {
        Step::CallNativeKw(name, args, kwargs) => {
            assert_eq!(name, chars("اطبع"));
            assert!(args.is_empty());
            assert_eq!(kwargs.len(), 2);
            assert_eq!(kwargs[0].0, chars("النهاية"));
            assert_eq!(kwargs[1].0, chars("الفاصل"));
            assert_eq!(kwargs[1].1, text("-"));
        }
        other => panic!("expected a native call, got {:?}", other),
    }
}

#[test]
fn error_of_a_keyword_callee_taken_up_by_the_caller_is_not_run() {
    // try: فرق(أ="س") — the subtraction fails in the callee's nested run
    // and the caller's handler would take it up with the run's frame left
    // in place.
    let p = difference_program(
        vec![
            Instr::SetupExcept(8),
            Instr::LoadFast(0),
            Instr::LoadConst(0),
            Instr::LoadConst(1),
            Instr::LoadConst(2),
            Instr::CallFunctionKw(0),
        ],
        vec![text_const("أ"), text_const("س"), Constant::Integer(1)],
    );
    let (_, s) = run(&p);
    assert!(matches!(s, Step::Stuck));
}

#[test]
fn error_of_a_keyword_callee_without_a_handler_fails() {
    let p = difference_program(
        vec![Instr::LoadFast(0), Instr::LoadConst(0), Instr::LoadConst(1), Instr::LoadConst(2), Instr::CallFunctionKw(0)],
        vec![text_const("أ"), text_const("س"), Constant::Integer(1)],
    );
    let (_, s) = run(&p);
    assert!(matches!(s, Step::Failed(_)));
}

#[test]
fn keyword_call_past_the_depth_limit_fails_as_a_plain_error() {
    let p = difference_program(
        vec![Instr::LoadFast(0), Instr::LoadConst(0), Instr::LoadConst(1), Instr::LoadConst(2), Instr::CallFunctionKw(0)],
        vec![text_const("أ"), Constant::Integer(3), Constant::Integer(1)],
    );
    assert!(validate_program(&p));
    let mut vm = VM::new();
    vm.start(&p);
    vm.frame_depth_limit = 1;
    match vm.run(&p, 1000) {
        Step::Failed(e) => {
            assert_eq!(e.class_name(), "خطا");
            assert_eq!(e.message(), "تجاوزت عمق الاستدعاء الحد الاقصى (1)");
        }
        other => panic!("{:?}", other),
    }
}

#[test]
fn plain_call_past_the_depth_limit_is_a_structure_error() {
    let p = difference_program(
        vec![Instr::LoadFast(0), Instr::LoadConst(0), Instr::CallFunction(1)],
        vec![Constant::Integer(3)],
    );
    let mut vm = VM::new();
    vm.start(&p);
    vm.frame_depth_limit = 1;
    match vm.run(&p, 1000) {
        Step::Failed(e) => assert_eq!(e.class_name(), "استثناء_بنية"),
        other => panic!("{:?}", other),
    }
}

fn generator_program(call: Vec<Instr>) -> Program {
    let mut code = vec![Instr::MakeFunction(0), Instr::StoreFast(0)];
    code.extend(call);
    code.push(Instr::ReturnValue);
    let body = code.len();
    code.extend(vec![Instr::LoadConst(0), Instr::ReturnValue]);
    let mut p = program(code, vec![Constant::Integer(1)], vec![], 1);
    p.functions.push(FunctionInfo {
        name: chars("عداد"),
        body,
        param_count: 0,
        param_indices: vec![],
        defaults: vec![],
        free_vars: Vec::new(),
        declared_locals: 1,
        is_generator: true,
        param_names: vec![],
    });
    p
}

#[test]
fn calling_a_generator_function_gives_a_generator_without_running_it() {
    let p = generator_program(vec![Instr::LoadFast(0), Instr::CallFunction(0)]);
    let (vm, s) = run(&p);
    match halted_with(s) {
        Value::Generator(g) => assert_eq!(g.name, chars("عداد")),
        other => panic!("{:?}", other),
    }
    assert!(vm.frames.is_empty());
}

#[test]
fn calling_a_generator_fails_with_the_generator_error() {
    let p = generator_program(vec![Instr::LoadFast(0), Instr::CallFunction(0), Instr::CallFunction(0)]);
    let (_, s) = run(&p);
    match s {
        Step::Failed(e) => {
            assert_eq!(e.class_name(), "خطا");
            assert_eq!(e.message(), "المولّد لا يمكن استدعاؤه مباشرة. استخدم ابعث()");
        }
        other => panic!("{:?}", other),
    }
}
