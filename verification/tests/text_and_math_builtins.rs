use arabi_vm::builtins::call_builtin;
use arabi_vm::value::{FloatNum, ListObj, Value};

fn text(s: &str) -> Value {
    Value::String(s.chars().collect())
}

fn chars(s: &str) -> Vec<char> {
    s.chars().collect()
}

fn ints(xs: &[i64]) -> Vec<Value> {
    xs.iter().map(|x| Value::Integer(*x)).collect()
}

fn list(oid: u64, items: Vec<Value>) -> Value {
    Value::List(ListObj { oid, items })
}

fn float(x: f64) -> Value {
    Value::Float(FloatNum { bits: x.to_bits(), text: chars(&format!("{}", x)) })
}

fn call(name: &str, args: Vec<Value>) -> Result<Value, (String, String)> {
    match call_builtin(&chars(name), &args, 500) {
        Some(Ok(v)) => Ok(v),
        Some(Err(e)) => Err((e.class_name().to_string(), e.message().to_string())),
        None => panic!("builtin {} not handled", name),
    }
}

fn refused(name: &str, args: Vec<Value>) -> bool {
    call_builtin(&chars(name), &args, 500).is_none()
}

#[test]
fn text_and_truth_of_values() {
    assert_eq!(call("نص", vec![Value::Integer(-42)]), Ok(text("-42")));
    assert_eq!(call("نص", vec![text("س")]), Ok(text("س")));
    assert_eq!(call("منطق", vec![Value::Integer(0)]), Ok(Value::Boolean(false)));
    assert_eq!(call("منطق", vec![text("ا")]), Ok(Value::Boolean(true)));
    assert_eq!(call("نص", vec![]), Err(("خطا".to_string(), "نص يتطلب معامل واحد".to_string())));
}

#[test]
fn character_codes_both_ways() {
    assert_eq!(call("رقم", vec![text("ب")]), Ok(Value::Integer(0x628)));
    assert_eq!(call("رقم", vec![text("")]), Err(("استثناء_نوع".to_string(), "نص فارغ".to_string())));
    assert_eq!(call("حرف", vec![Value::Integer(0x628)]), Ok(text("ب")));
    assert_eq!(call("حرف", vec![Value::Integer(0xD800)]), Err(("استثناء_نوع".to_string(), "رقم غير صالح لحرف".to_string())));
    // only the low 32 bits count
    assert_eq!(call("حرف", vec![Value::Integer((1i64 << 32) + 65)]), Ok(text("A")));
}

#[test]
fn sign_of_integers_and_floats() {
    assert_eq!(call("علامة", vec![Value::Integer(-5)]), Ok(Value::Integer(-1)));
    assert_eq!(call("علامة", vec![Value::Integer(0)]), Ok(Value::Integer(0)));
    assert_eq!(call("علامة", vec![float(2.5)]), Ok(Value::Integer(1)));
    assert_eq!(call("علامة", vec![float(-0.0)]), Ok(Value::Integer(0)));
    assert_eq!(call("علامة", vec![float(f64::NAN)]), Ok(Value::Integer(0)));
    assert_eq!(call("علامة", vec![text("x")]), Err(("استثناء_نوع".to_string(), "علامة تتطلب عدداً".to_string())));
}

#[test]
fn hexadecimal_of_the_bit_pattern() {
    assert_eq!(call("ست_عشري", vec![Value::Integer(255)]), Ok(text("0xff")));
    assert_eq!(call("ست_عشري", vec![Value::Integer(0)]), Ok(text("0x0")));
    assert_eq!(call("ست_عشري", vec![Value::Integer(-1)]), Ok(text("0xffffffffffffffff")));
}

#[test]
fn text_contains() {
    assert_eq!(call("يحتوي", vec![text("مرحبا بالعالم"), text("بال")]), Ok(Value::Boolean(true)));
    assert_eq!(call("يحتوي", vec![text("abc"), text("d")]), Ok(Value::Boolean(false)));
    assert_eq!(call("يحتوي", vec![Value::Integer(1), text("d")]), Err(("خطا".to_string(), "المعامل الاول يجب ان يكون نصاً".to_string())));
}

#[test]
fn padding_counts_bytes() {
    assert_eq!(call("ملء_صفر", vec![text("7"), Value::Integer(3)]), Ok(text("007")));
    // an Arabic letter is two bytes wide
    assert_eq!(call("ملء_صفر", vec![text("ب"), Value::Integer(3)]), Ok(text("0ب")));
    assert_eq!(call("ملء", vec![text("ab"), Value::Integer(5), text("*-")]), Ok(text("***ab")));
    assert_eq!(call("ملء", vec![text("abc"), Value::Integer(2)]), Ok(text("abc")));
    assert_eq!(call("ملء", vec![text("a"), Value::Integer(3)]), Ok(text("  a")));
    assert!(refused("ملء_صفر", vec![text("7"), Value::Integer(-1)]));
}

#[test]
fn cut_clamps_its_bounds() {
    assert_eq!(call("قطع", vec![text("مرحبا"), Value::Integer(1), Value::Integer(3)]), Ok(text("رح")));
    assert_eq!(call("قطع", vec![text("abc"), Value::Integer(1)]), Ok(text("bc")));
    assert_eq!(call("قطع", vec![text("abc"), Value::Integer(0), Value::Integer(99)]), Ok(text("abc")));
    assert_eq!(call("قطع", vec![text("abc"), Value::Integer(-1)]), Ok(text("")));
    assert!(refused("قطع", vec![text("abc"), Value::Integer(2), Value::Integer(1)]));
}

#[test]
fn join_renders_each_element() {
    let l = list(1, vec![Value::Integer(1), text("ب"), Value::Boolean(true)]);
    assert_eq!(call("اربط", vec![text(", "), l]), Ok(text("1, ب, صح")));
    assert_eq!(call("اربط", vec![text("-"), list(2, vec![])]), Ok(text("")));
}

#[test]
fn arrangements_and_selections() {
    assert_eq!(call("ترتيبي", vec![Value::Integer(5), Value::Integer(2)]), Ok(Value::Integer(20)));
    assert_eq!(call("ترتيبي", vec![Value::Integer(5), Value::Integer(6)]), Ok(Value::Integer(0)));
    assert_eq!(call("تركيبي", vec![Value::Integer(5), Value::Integer(2)]), Ok(Value::Integer(10)));
    assert_eq!(call("تركيبي", vec![Value::Integer(10), Value::Integer(7)]), Ok(Value::Integer(120)));
    assert_eq!(call("تركيبي", vec![Value::Integer(4), Value::Integer(0)]), Ok(Value::Integer(1)));
}

#[test]
fn least_common_multiple() {
    assert_eq!(call("اصغر_مضاعف", vec![Value::Integer(4), Value::Integer(6)]), Ok(Value::Integer(12)));
    assert_eq!(call("اصغر_مضاعف", vec![Value::Integer(-4), Value::Integer(6)]), Ok(Value::Integer(12)));
    assert_eq!(call("اصغر_مضاعف", vec![Value::Integer(0), Value::Integer(6)]), Ok(Value::Integer(0)));
    assert!(refused("اصغر_مضاعف", vec![Value::Integer(i64::MIN), Value::Integer(6)]));
}

#[test]
fn product_of_integers_overflow_gives_zero() {
    assert_eq!(call("حاصل_ضرب", vec![list(1, ints(&[2, 3, 4]))]), Ok(Value::Integer(24)));
    assert_eq!(call("حاصل_ضرب", vec![list(1, ints(&[i64::MAX, 2, 5]))]), Ok(Value::Integer(0)));
    assert_eq!(call("حاصل_ضرب", vec![list(1, vec![Value::Integer(2), text("x")])]), Err(("استثناء_نوع".to_string(), "حاصل_ضرب تتطلب عدداً".to_string())));
    assert!(refused("حاصل_ضرب", vec![list(1, vec![Value::Integer(2), float(1.5)])]));
}

#[test]
fn difference_of_integers() {
    assert_eq!(call("فرق", vec![Value::Integer(10), Value::Integer(3)]), Ok(Value::Integer(7)));
    assert_eq!(call("فرق", vec![Value::Integer(10), text("3")]), Err(("استثناء_نوع".to_string(), "فرق يتطلب عددين".to_string())));
    assert!(refused("فرق", vec![float(1.0), float(2.0)]));
}

#[test]
fn flatten_nested_lists() {
    let nested = list(1, vec![Value::Integer(1), list(2, vec![Value::Integer(2), list(3, ints(&[3, 4]))]), Value::Integer(5)]);
    match call("مسطح", vec![nested]) {
        Ok(Value::List(l)) => {
            assert_eq!(l.oid, 500);
            assert_eq!(l.items, ints(&[1, 2, 3, 4, 5]));
        }
        other => panic!("{:?}", other),
    }
}
