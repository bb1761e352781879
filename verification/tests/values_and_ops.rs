use arabi_vm::error::RuntimeError;
use arabi_vm::ops::{self, FloatOp, FloatOperand, Outcome};
use arabi_vm::value::{ListObj, Value};

fn text(s: &str) -> Value {
    Value::String(s.chars().collect())
}

fn chars(s: &str) -> Vec<char> {
    s.chars().collect()
}

fn list(oid: u64, items: Vec<Value>) -> Value {
    Value::List(ListObj { oid, items })
}

fn expect_value(o: Outcome) -> Value {
    match o {
        Outcome::Value(v) => v,
        other => panic!("expected a value, got {:?}", other),
    }
}

fn expect_raise(o: Outcome) -> (String, String) {
    match o {
        Outcome::Raise(e) => (e.class_name().to_string(), e.message().to_string()),
        other => panic!("expected a raised error, got {:?}", other),
    }
}

#[test]
fn error_new_has_generic_class_and_no_line() {
    let e = RuntimeError::new("رسالة".to_string());
    assert_eq!(e.class_name(), "خطا");
    assert_eq!(e.message(), "رسالة");
    assert_eq!(e.line(), None);
    assert!(e.call_stack().is_empty());
}

#[test]
fn error_with_line_renders_line_suffix() {
    let e = RuntimeError::new_typed("استثناء_نوع".to_string(), "خطأ ما".to_string()).with_line(12);
    assert_eq!(e.class_name(), "استثناء_نوع");
    assert_eq!(e.line(), Some(12));
    assert_eq!(e.render(), "خطأ ما (سطر 12)");
}

#[test]
fn error_render_with_call_stack() {
    let stack = vec![arabi_vm::error::CallFrame { function_name: "دالة".to_string(), line: Some(3) }];
    let e = RuntimeError::new("م".to_string()).with_call_stack(stack);
    assert_eq!(e.render(), "م\nتتبع الاستدعاء:\n  في دالة (سطر 3)");
}

#[test]
fn error_into_value_keeps_class_message_and_line() {
    let v = RuntimeError::new_typed("استثناء_قيمة".to_string(), "س".to_string()).with_line(4).into_value();
    match v {
        Value::Exception(d) => {
            assert_eq!(d.class_name, "استثناء_قيمة");
            assert_eq!(d.message, "س");
            assert_eq!(d.line, Some(4));
        }
        other => panic!("not an exception: {:?}", other),
    }
}

#[test]
fn integer_addition_wraps() {
    let v = expect_value(ops::binary_add(Value::Integer(i64::MAX), Value::Integer(1), 0));
    assert_eq!(v, Value::Integer(i64::MIN));
    let v = expect_value(ops::binary_add(Value::Integer(2), Value::Integer(3), 0));
    assert_eq!(v, Value::Integer(5));
}

#[test]
fn string_concatenation() {
    let v = expect_value(ops::binary_add(text("سلام "), text("عليكم"), 0));
    assert_eq!(v, text("سلام عليكم"));
}

#[test]
fn list_concatenation_takes_fresh_identity() {
    let a = list(1, vec![Value::Integer(1)]);
    let b = list(2, vec![Value::Integer(2)]);
    let v = expect_value(ops::binary_add(a, b, 77));
    assert_eq!(v, list(77, vec![Value::Integer(1), Value::Integer(2)]));
}

#[test]
fn add_of_unsupported_kinds_raises_type_error() {
    let (class, _) = expect_raise(ops::binary_add(Value::Null, Value::Integer(1), 0));
    assert_eq!(class, "استثناء_نوع");
}

#[test]
fn division_by_zero_raises() {
    let (class, msg) = expect_raise(ops::binary_div(Value::Integer(1), Value::Integer(0)));
    assert_eq!(class, "استثناء_قسمة");
    assert_eq!(msg, "القسمة على صفر");
}

#[test]
fn integer_division_is_handed_out_as_a_float_task() {
    match ops::binary_div(Value::Integer(7), Value::Integer(2)) {
        Outcome::Float(t) => {
            assert_eq!(t.op, FloatOp::Div);
            assert_eq!(t.lhs, FloatOperand::Int(7));
            assert_eq!(t.rhs, FloatOperand::Int(2));
        }
        other => panic!("expected a float task, got {:?}", other),
    }
}

#[test]
fn integer_floor_division_and_modulo_truncate() {
    assert_eq!(expect_value(ops::binary_floor_div(Value::Integer(-7), Value::Integer(2))), Value::Integer(-3));
    assert_eq!(expect_value(ops::binary_mod(Value::Integer(-7), Value::Integer(3))), Value::Integer(-1));
    assert_eq!(expect_value(ops::binary_mod(Value::Integer(7), Value::Integer(-3))), Value::Integer(1));
}

#[test]
fn string_repetition() {
    assert_eq!(expect_value(ops::binary_mul(text("اب"), Value::Integer(3), 0)), text("اباباب"));
    assert_eq!(expect_value(ops::binary_mul(text("x"), Value::Integer(0), 0)), text(""));
}

#[test]
fn integer_power() {
    assert_eq!(expect_value(ops::binary_pow(Value::Integer(2), Value::Integer(10))), Value::Integer(1024));
    assert_eq!(expect_value(ops::binary_pow(Value::Integer(5), Value::Integer(0))), Value::Integer(1));
    match ops::binary_pow(Value::Integer(2), Value::Integer(-1)) {
        Outcome::Float(t) => assert_eq!(t.op, FloatOp::Pow),
        other => panic!("expected a float task, got {:?}", other),
    }
}

#[test]
fn negation() {
    assert_eq!(expect_value(ops::unary_neg(Value::Integer(5))), Value::Integer(-5));
}

#[test]
fn structural_equality() {
    let a = list(1, vec![Value::Integer(1), text("a")]);
    let b = list(2, vec![Value::Integer(1), text("a")]);
    assert!(ops::values_equal(&a, &b));
    assert!(!ops::values_equal(&Value::Integer(1), &text("1")));
    assert!(ops::values_equal(&Value::Null, &Value::Null));
}

#[test]
fn identity_compares_containers_by_object() {
    let a = list(1, vec![]);
    let b = list(2, vec![]);
    assert!(!ops::is_identical(&a, &b));
    assert!(ops::is_identical(&a, &list(1, vec![])));
    assert!(ops::is_identical(&text("x"), &text("x")));
}

#[test]
fn ordering_of_numbers_and_text() {
    assert!(ops::less_than(&Value::Integer(1), &Value::Integer(2)));
    assert!(ops::greater_than(&Value::Integer(2), &Value::Integer(1)));
    assert!(ops::less_than(&text("ا"), &text("ب")));
    assert!(!ops::less_than(&text("ب"), &text("ا")));
    assert!(!ops::less_than(&Value::Null, &Value::Integer(1)));
}

#[test]
fn less_greater_converse_on_values() {
    let pairs = [(Value::Integer(3), Value::Integer(9)), (text("b"), text("a")), (Value::Integer(4), Value::Integer(4))];
    for (a, b) in pairs.iter() {
        assert_eq!(ops::less_than(a, b), ops::greater_than(b, a));
    }
}

#[test]
fn membership() {
    let l = list(1, vec![Value::Integer(1), Value::Integer(2)]);
    assert_eq!(ops::contains(&l, &Value::Integer(2)), Some(true));
    assert_eq!(ops::contains(&l, &Value::Integer(5)), Some(false));
    assert_eq!(ops::contains(&text("سلام"), &text("لا")), Some(true));
    assert_eq!(ops::contains(&Value::Integer(3), &Value::Integer(3)), None);
}

#[test]
fn truthiness_and_display() {
    assert!(!Value::Integer(0).is_truthy());
    assert!(text("a").is_truthy());
    assert!(!list(1, vec![]).is_truthy());
    assert_eq!(Value::Boolean(true).to_string_value(), chars("صح"));
    assert_eq!(Value::Null.to_string_value(), chars("عدم"));
    assert_eq!(list(1, vec![Value::Integer(1), text("x")]).to_string_value(), chars("[1, x]"));
    assert_eq!(Value::Integer(-42).to_string_value(), chars("-42"));
}

#[test]
fn kind_names() {
    assert_eq!(Value::Integer(1).kind_name(), chars("صحيح"));
    assert_eq!(text("x").kind_name(), chars("نص"));
    assert_eq!(list(1, vec![]).kind_name(), chars("مصفوفة"));
}
