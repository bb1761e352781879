use arabi_vm::builtins::call_builtin;
use arabi_vm::value::{ListObj, Value};

fn chars(s: &str) -> Vec<char> {
    s.chars().collect()
}

fn text(s: &str) -> Value {
    Value::String(chars(s))
}

fn ints(xs: &[i64]) -> Vec<Value> {
    xs.iter().map(|x| Value::Integer(*x)).collect()
}

fn list(items: Vec<Value>) -> Value {
    Value::List(ListObj { oid: 3, items })
}

fn call(name: &str, args: Vec<Value>) -> Option<Result<Value, (String, String)>> {
    call_builtin(&chars(name), &args, 9).map(|r| r.map_err(|e| (e.class_name().to_string(), e.message().to_string())))
}

#[test]
fn magnitude_and_negation_of_integers() {
    assert_eq!(call("مطلق", vec![Value::Integer(-5)]), Some(Ok(Value::Integer(5))));
    assert_eq!(call("قيمة_مطلقة", vec![Value::Integer(7)]), Some(Ok(Value::Integer(7))));
    assert_eq!(call("سلب", vec![Value::Integer(7)]), Some(Ok(Value::Integer(-7))));
    assert_eq!(call("مطلق", vec![Value::Integer(i64::MIN)]), Some(Ok(Value::Integer(i64::MIN))));
    assert_eq!(call("مطلق", vec![text("x")]), Some(Err(("خطا".to_string(), "المعامل يجب ان يكون عدداً".to_string()))));
    assert_eq!(call("سلب", vec![]), Some(Err(("خطا".to_string(), "سلب يتطلب معامل واحد".to_string()))));
    assert!(call("مطلق", vec![Value::Float(arabi_vm::value::FloatNum { bits: (-1.5f64).to_bits(), text: chars("-1.5") })]).is_none());
}

#[test]
fn filled_and_repeated_lists() {
    assert_eq!(call("قائمة_مليئة", vec![Value::Integer(3), Value::Integer(0)]),
        Some(Ok(Value::List(ListObj { oid: 9, items: ints(&[0, 0, 0]) }))));
    assert_eq!(call("كرر", vec![text("a"), Value::Integer(2)]),
        Some(Ok(Value::List(ListObj { oid: 9, items: vec![text("a"), text("a")] }))));
    assert_eq!(call("كرر", vec![text("a"), text("b")]),
        Some(Err(("استثناء_نوع".to_string(), "كرر يتطلب عدداً صحيحاً".to_string()))));
    assert_eq!(call("قائمة_مليئة", vec![Value::Integer(3)]),
        Some(Err(("استثناء_نوع".to_string(), "قائمة_مليئة تتطلب حجم وقيمة".to_string()))));
    assert!(call("كرر", vec![text("a"), Value::Integer(-1)]).is_none());
}

#[test]
fn all_and_any_true() {
    assert_eq!(call("تحقق_اي", vec![list(ints(&[1, 2]))]), Some(Ok(Value::Boolean(true))));
    assert_eq!(call("تحقق_اي", vec![list(ints(&[1, 0]))]), Some(Ok(Value::Boolean(false))));
    assert_eq!(call("تحقق_او", vec![list(ints(&[0, 0, 3]))]), Some(Ok(Value::Boolean(true))));
    assert_eq!(call("تحقق_او", vec![list(vec![])]), Some(Ok(Value::Boolean(false))));
    assert_eq!(call("تحقق_اي", vec![list(vec![])]), Some(Ok(Value::Boolean(true))));
    assert_eq!(call("تحقق_او", vec![Value::Integer(1)]),
        Some(Err(("استثناء_نوع".to_string(), "تحقق_او يتطلب قائمة".to_string()))));
}

#[test]
fn membership_and_sorting() {
    assert_eq!(call("موجود", vec![Value::Integer(2), list(ints(&[1, 2]))]), Some(Ok(Value::Boolean(true))));
    assert_eq!(call("موجود", vec![text("z"), list(vec![text("a")])]), Some(Ok(Value::Boolean(false))));
    assert_eq!(call("مرتب", vec![list(ints(&[3, 1, 2]))]), Some(Ok(Value::List(ListObj { oid: 9, items: ints(&[1, 2, 3]) }))));
    assert_eq!(call("مرتب", vec![list(vec![text("ب"), text("ا")])]),
        Some(Ok(Value::List(ListObj { oid: 9, items: vec![text("ا"), text("ب")] }))));
    assert!(call("مرتب", vec![list(vec![text("a"), Value::Integer(1)])]).is_none());
    assert_eq!(call("مرتب", vec![Value::Integer(1)]),
        Some(Err(("استثناء_نوع".to_string(), "مرتب يتطلب قائمة او مترابطة او نص".to_string()))));
}

#[test]
fn case_of_texts_joined_and_empty_lists() {
    assert_eq!(call("اعلى", vec![text("abc")]), Some(Ok(text("ABC"))));
    assert_eq!(call("اسفل", vec![text("ÀB")]), Some(Ok(text("àb"))));
    assert_eq!(call("اعلى", vec![Value::Integer(1)]), Some(Err(("استثناء_نوع".to_string(), "اعلى يتطلب نصاً".to_string()))));
    assert_eq!(call("ادمج", vec![list(ints(&[1])), list(ints(&[2, 3]))]),
        Some(Ok(Value::List(ListObj { oid: 9, items: ints(&[1, 2, 3]) }))));
    assert_eq!(call("ادمج", vec![list(ints(&[1]))]), Some(Err(("خطا".to_string(), "ادمج يتطلب مصفوفتين".to_string()))));
    assert_eq!(call("فرغ", vec![]), Some(Ok(Value::List(ListObj { oid: 9, items: vec![] }))));
}

#[test]
fn pieces_of_a_text() {
    let strs = |xs: &[&str]| Value::List(ListObj { oid: 9, items: xs.iter().map(|x| text(x)).collect() });
    assert_eq!(call("تقطيع", vec![text("a  b")]), Some(Ok(strs(&["a", "b"]))));
    assert_eq!(call("تقطيع", vec![text("a  b"), text(" "), Value::Boolean(true)]), Some(Ok(strs(&["a", "", "b"]))));
    assert_eq!(call("تقطيع", vec![text("a,b"), text(",")]), Some(Ok(strs(&["a", "b"]))));
    assert_eq!(call("تقطيع", vec![Value::Integer(1)]), Some(Err(("خطا".to_string(), "المعامل يجب ان يكون نصاً".to_string()))));
}

#[test]
fn primality_by_trial_division() {
    let p = |n: i64| call("هل_اولية", vec![Value::Integer(n)]);
    assert_eq!(p(2), Some(Ok(Value::Boolean(true))));
    assert_eq!(p(97), Some(Ok(Value::Boolean(true))));
    assert_eq!(p(1000003), Some(Ok(Value::Boolean(true))));
    assert_eq!(p(91), Some(Ok(Value::Boolean(false))));
    assert_eq!(p(4), Some(Ok(Value::Boolean(false))));
    assert_eq!(p(1), Some(Ok(Value::Boolean(false))));
    assert_eq!(p(-7), Some(Ok(Value::Boolean(false))));
    assert!(p(9223372036854775783).is_none());
    assert_eq!(call("هل_اولية", vec![text("7")]), Some(Err(("استثناء_نوع".to_string(), "هل_اولية يتطلب رقماً".to_string()))));
}
