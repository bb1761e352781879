use arabi_vm::machine::{validate_program, Constant, Instr, Program, Step, VM};
use arabi_vm::value::Value;

fn chars(s: &str) -> Vec<char> {
    s.chars().collect()
}

fn text(s: &str) -> Value {
    Value::String(chars(s))
}

fn t(s: &str) -> Constant {
    Constant::String(chars(s))
}

fn i(n: i64) -> Constant {
    Constant::Integer(n)
}

fn program(code: Vec<Instr>, constants: Vec<Constant>, names: Vec<&str>, num_locals: usize) -> Program {
    let lines = (0..code.len()).map(|k| (k + 1) as u32).collect();
    Program {
        code,
        constants,
        names: names.into_iter().map(chars).collect(),
        lines,
        local_names: Vec::new(),
        num_locals,
        functions: Vec::new(),
    }
}

fn start(p: &Program) -> VM {
    assert!(validate_program(p));
    let mut vm = VM::new();
    vm.start(p);
    vm
}

fn run(p: &Program) -> Step {
    let mut vm = start(p);
    vm.run(p, 10_000)
}

fn halted_with(s: Step) -> Value {
    match s {
        Step::Halted(v) => v,
        other => panic!("expected the program to end, got {:?}", other),
    }
}

fn items(v: Value) -> Vec<Value> {
    match v {
        Value::List(l) | Value::Tuple(l) | Value::SetVal(l) => l.items,
        other => panic!("expected a sequence, got {:?}", other),
    }
}

fn ints(xs: &[i64]) -> Vec<Value> {
    xs.iter().map(|x| Value::Integer(*x)).collect()
}

/// `receiver.method(args...)` on a constant receiver, returning the result.
fn call_on_constant(receiver: Constant, method: &str, args: Vec<Constant>) -> Step {
    let n = args.len();
    let mut constants = vec![receiver];
    constants.extend(args);
    let mut code: Vec<Instr> = (0..=n).map(Instr::LoadConst).collect();
    code.push(Instr::CallMethod(0, n as u8));
    code.push(Instr::ReturnValue);
    run(&program(code, constants, vec![method], 1))
}

/// Local 0 holds the list built from `elements`, local 1 the same list; the
/// method is called on local 0 and the program returns `[result, local 1]`.
fn list_program(elements: Vec<Constant>, method: &str, args: Vec<Constant>) -> Program {
    let k = elements.len();
    let n = args.len();
    let mut constants = elements;
    constants.extend(args);
    let mut code: Vec<Instr> = (0..k).map(Instr::LoadConst).collect();
    code.push(Instr::BuildList(k as u8));
    code.push(Instr::StoreFast(0));
    code.push(Instr::LoadFast(0));
    code.push(Instr::StoreFast(1));
    code.push(Instr::LoadFast(0));
    code.extend((k..k + n).map(Instr::LoadConst));
    code.push(Instr::CallMethod(0, n as u8));
    code.push(Instr::LoadFast(1));
    code.push(Instr::BuildTuple(2));
    code.push(Instr::ReturnValue);
    program(code, constants, vec![method], 2)
}

fn list_result(elements: Vec<Constant>, method: &str, args: Vec<Constant>) -> (Value, Vec<Value>) {
    let out = items(halted_with(run(&list_program(elements, method, args))));
    (out[0].duplicate(), items(out[1].duplicate()))
}

#[test]
fn text_methods_computed_by_the_machine() {
    assert_eq!(halted_with(call_on_constant(t("مرحبا"), "طول", vec![])), Value::Integer(5));
    assert_eq!(halted_with(call_on_constant(t("مرحبا"), "تبدا_بـ", vec![t("مر")])), Value::Boolean(true));
    assert_eq!(halted_with(call_on_constant(t("مرحبا"), "ينتهي", vec![t("ح")])), Value::Boolean(false));
    assert_eq!(halted_with(call_on_constant(t("abc"), "يحتوي", vec![t("bc")])), Value::Boolean(true));
    assert_eq!(halted_with(call_on_constant(t("aXbX"), "استبدل", vec![t("X"), t("-")])), text("a-b-"));
    assert_eq!(halted_with(call_on_constant(t("abc"), "استبدل", vec![t(""), t("-")])), text("-a-b-c-"));
    assert_eq!(halted_with(call_on_constant(t("123"), "تحقق_من_الرقم", vec![])), Value::Boolean(true));
    assert_eq!(halted_with(call_on_constant(t(""), "تحقق_من_الرقم", vec![])), Value::Boolean(false));
}

#[test]
fn text_split_and_join() {
    let parts = items(halted_with(call_on_constant(t("a,b,,c"), "اقسم", vec![t(",")])));
    assert_eq!(parts, vec![text("a"), text("b"), text(""), text("c")]);
    let parts = items(halted_with(call_on_constant(t("ab"), "اقسم", vec![])));
    assert_eq!(parts, vec![text(""), text("a"), text("b"), text("")]);
    let parts = items(halted_with(call_on_constant(t("س ص"), "افصل", vec![])));
    assert_eq!(parts, vec![text("س"), text("ص")]);
    let p = program(
        vec![Instr::LoadConst(0), Instr::LoadConst(1), Instr::LoadConst(2), Instr::BuildList(2), Instr::CallMethod(0, 1), Instr::ReturnValue],
        vec![t(", "), i(1), t("ب")],
        vec!["اربط"],
        1,
    );
    assert_eq!(halted_with(run(&p)), text("1, ب"));
}

#[test]
fn case_mapping_trimming_and_letter_tests_are_computed() {
    let m = |s: &str, name: &str| {
        let p = program(vec![Instr::LoadConst(0), Instr::CallMethod(0, 0), Instr::ReturnValue], vec![t(s)], vec![name], 1);
        halted_with(run(&p))
    };
    assert_eq!(m("abc", "اكبر"), text("ABC"));
    assert_eq!(m("ÄB", "اصغر"), text("äb"));
    assert_eq!(m("  سلام \n", "شطب"), text("سلام"));
    assert_eq!(m("سلام", "تحقق_من_الحرف"), Value::Boolean(true));
    assert_eq!(m("a1", "تحقق_من_الحرف"), Value::Boolean(false));
    assert_eq!(m("", "تحقق_من_الحرف"), Value::Boolean(false));
}

#[test]
fn byte_position_search_is_handed_to_the_caller() {
    let p = program(vec![Instr::LoadConst(0), Instr::LoadConst(1), Instr::CallMethod(0, 1), Instr::ReturnValue], vec![t("abc"), t("c")], vec!["اوجد"], 1);
    let mut vm = start(&p);
    match vm.run(&p, 100) {
        Step::MethodCall(name, obj, args) => {
            assert_eq!(name, chars("اوجد"));
            assert_eq!(obj, text("abc"));
            assert_eq!(args, vec![text("c")]);
            vm.resume_method(Value::Integer(2), None);
        }
        other => panic!("{:?}", other),
    }
    assert_eq!(halted_with(vm.run(&p, 100)), Value::Integer(2));
}

#[test]
fn append_is_seen_by_every_holder() {
    let (result, holder) = list_result(vec![i(1), i(2)], "اضف", vec![i(3)]);
    assert_eq!(result, Value::Null);
    assert_eq!(holder, ints(&[1, 2, 3]));
}

#[test]
fn insert_at_an_index_or_at_the_end() {
    let (_, holder) = list_result(vec![i(1), i(2)], "ادرج", vec![i(1), i(9)]);
    assert_eq!(holder, ints(&[1, 9, 2]));
    let (_, holder) = list_result(vec![i(1), i(2)], "ادرج", vec![i(-1), i(9)]);
    assert_eq!(holder, ints(&[1, 2, 9]));
}

#[test]
fn remove_find_and_count_equal_elements() {
    let (_, holder) = list_result(vec![i(1), i(2), i(1)], "امسح", vec![i(1)]);
    assert_eq!(holder, ints(&[2]));
    let (found, _) = list_result(vec![i(5), i(6), i(6)], "فهرس", vec![i(6)]);
    assert_eq!(found, Value::Integer(1));
    let (found, _) = list_result(vec![i(5)], "فهرس", vec![i(7)]);
    assert_eq!(found, Value::Integer(-1));
    let (count, _) = list_result(vec![i(6), i(5), i(6)], "عدد", vec![i(6)]);
    assert_eq!(count, Value::Integer(2));
}

#[test]
fn float_comparisons_are_handed_to_the_caller() {
    let p = list_program(vec![i(1), i(2)], "فهرس", vec![Constant::Float(arabi_vm::value::FloatNum { bits: 2.0f64.to_bits(), text: chars("2.0") })]);
    let mut vm = start(&p);
    match vm.run(&p, 100) {
        Step::MethodCall(name, _, _) => assert_eq!(name, chars("فهرس")),
        other => panic!("{:?}", other),
    }
}

#[test]
fn sort_integers_and_texts_in_place() {
    let (result, holder) = list_result(vec![i(3), i(1), i(2), i(1)], "رتب", vec![]);
    assert_eq!(holder, ints(&[1, 1, 2, 3]));
    assert_eq!(items(result), ints(&[1, 1, 2, 3]));
    let (_, holder) = list_result(vec![t("ب"), t("ا")], "رتب", vec![]);
    assert_eq!(holder, vec![text("ا"), text("ب")]);
    let p = list_program(vec![i(3), t("ا")], "رتب", vec![]);
    let mut vm = start(&p);
    assert!(matches!(vm.run(&p, 100), Step::MethodCall(_, _, _)));
}

#[test]
fn remove_at_reverse_and_clear() {
    let (_, holder) = list_result(vec![i(1), i(2), i(3)], "احذف_عنصر", vec![i(1)]);
    assert_eq!(holder, ints(&[1, 3]));
    let (_, holder) = list_result(vec![i(1), i(2), i(3)], "احذف_عنصر", vec![i(7)]);
    assert_eq!(holder, ints(&[1, 2, 3]));
    let (result, holder) = list_result(vec![i(1), i(2), i(3)], "عكس", vec![]);
    assert_eq!(holder, ints(&[3, 2, 1]));
    assert_eq!(items(result), ints(&[3, 2, 1]));
    let (_, holder) = list_result(vec![i(1), i(2)], "امسح_كل", vec![]);
    assert!(holder.is_empty());
}

#[test]
fn unknown_method_raises_a_name_error() {
    match call_on_constant(i(5), "طير", vec![]) {
        Step::Failed(e) => {
            assert_eq!(e.class_name(), "استثناء_اسم");
            assert_eq!(e.message(), "ال method طير غير موجود على صحيح");
        }
        other => panic!("{:?}", other),
    }
    match call_on_constant(t("س"), "طير", vec![]) {
        Step::Failed(e) => assert_eq!(e.message(), "ال method طير غير موجود على نص"),
        other => panic!("{:?}", other),
    }
}

/// Builds {"ا": 1, "ب": 2} into local 0, calls the method on it, and returns
/// `[result, local 0]`.
fn dict_program(method: &str, args: Vec<Constant>) -> Program {
    let n = args.len();
    let mut constants = vec![t("ا"), i(1), t("ب"), i(2)];
    constants.extend(args);
    let mut code = vec![
        Instr::LoadConst(0),
        Instr::LoadConst(1),
        Instr::LoadConst(2),
        Instr::LoadConst(3),
        Instr::BuildDict(2),
        Instr::StoreFast(0),
        Instr::LoadFast(0),
    ];
    code.extend((4..4 + n).map(Instr::LoadConst));
    code.push(Instr::CallMethod(0, n as u8));
    code.push(Instr::LoadFast(0));
    code.push(Instr::BuildTuple(2));
    code.push(Instr::ReturnValue);
    program(code, constants, vec![method], 1)
}

fn dict_result(method: &str, args: Vec<Constant>) -> (Value, Value) {
    let out = items(halted_with(run(&dict_program(method, args))));
    (out[0].duplicate(), out[1].duplicate())
}

fn pairs_of(v: Value) -> Vec<(Value, Value)> {
    match v {
        Value::Dict(d) => d.pairs,
        other => panic!("expected a dictionary, got {:?}", other),
    }
}

#[test]
fn dictionary_reads() {
    assert_eq!(dict_result("احضر", vec![t("ب")]).0, Value::Integer(2));
    assert_eq!(dict_result("احضر", vec![t("ج"), i(0)]).0, Value::Integer(0));
    assert_eq!(dict_result("احضر", vec![t("ج")]).0, Value::Null);
    assert_eq!(items(dict_result("مفاتيح", vec![]).0), vec![text("ا"), text("ب")]);
    assert_eq!(items(dict_result("قيم", vec![]).0), ints(&[1, 2]));
    let entries = items(dict_result("عناصر", vec![]).0);
    assert_eq!(items(entries[1].duplicate()), vec![text("ب"), Value::Integer(2)]);
}

#[test]
fn dictionary_changes() {
    let (removed, d) = dict_result("احذف_مفتاح", vec![t("ب")]);
    assert_eq!(removed, Value::Integer(2));
    assert_eq!(pairs_of(d), vec![(text("ا"), Value::Integer(1))]);
    let (removed, d) = dict_result("احذف_مفتاح", vec![t("ج")]);
    assert_eq!(removed, Value::Null);
    assert_eq!(pairs_of(d).len(), 2);
    let (_, d) = dict_result("امسح", vec![]);
    assert!(pairs_of(d).is_empty());
    // removing a pair before the last is not handled by the machine
    assert!(matches!(run(&dict_program("احذف_مفتاح", vec![t("ا")])), Step::Stuck));
}

#[test]
fn dictionary_update_stores_each_pair() {
    let mut p = dict_program("حدث", vec![]);
    // the argument: {"ب": 20, "ج": 3}
    let base = p.constants.len();
    p.constants.extend(vec![t("ب"), i(20), t("ج"), i(3)]);
    let call_at = p.code.iter().position(|x| matches!(x, Instr::CallMethod(_, _))).unwrap();
    let build = vec![
        Instr::LoadConst(base),
        Instr::LoadConst(base + 1),
        Instr::LoadConst(base + 2),
        Instr::LoadConst(base + 3),
        Instr::BuildDict(2),
    ];
    p.code.splice(call_at..call_at + 1, build.into_iter().chain(std::iter::once(Instr::CallMethod(0, 1))));
    p.lines = (0..p.code.len()).map(|k| (k + 1) as u32).collect();
    let out = items(halted_with(run(&p)));
    assert_eq!(
        pairs_of(out[1].duplicate()),
        vec![(text("ا"), Value::Integer(1)), (text("ب"), Value::Integer(20)), (text("ج"), Value::Integer(3))]
    );
}

#[test]
fn set_add_keeps_elements_distinct_and_pop_takes_the_last() {
    let p = program(
        vec![
            Instr::LoadConst(0),
            Instr::LoadConst(1),
            Instr::BuildSet(2),
            Instr::StoreFast(0),
            Instr::LoadFast(0),
            Instr::LoadConst(0),
            Instr::CallMethod(0, 1),
            Instr::PopTop,
            Instr::LoadFast(0),
            Instr::LoadConst(2),
            Instr::CallMethod(0, 1),
            Instr::PopTop,
            Instr::LoadFast(0),
            Instr::CallMethod(1, 0),
            Instr::LoadFast(0),
            Instr::BuildTuple(2),
            Instr::ReturnValue,
        ],
        vec![i(1), i(2), i(3)],
        vec!["اضف", "اسحب"],
        1,
    );
    let out = items(halted_with(run(&p)));
    assert_eq!(out[0], Value::Integer(3));
    assert_eq!(items(out[1].duplicate()), ints(&[1, 2]));
}

#[test]
fn split_then_join_gives_the_text_back() {
    // ",".اربط("a,b,,c".اقسم(","))
    let p = program(
        vec![Instr::LoadConst(0), Instr::LoadConst(1), Instr::LoadConst(0), Instr::CallMethod(0, 1), Instr::CallMethod(1, 1), Instr::ReturnValue],
        vec![t(","), t("a,b,,c")],
        vec!["اقسم", "اربط"],
        1,
    );
    assert_eq!(halted_with(run(&p)), text("a,b,,c"));
    assert_eq!(halted_with(call_on_constant(t("abab"), "استبدل", vec![t("ab"), t("ab")])), text("abab"));
}
