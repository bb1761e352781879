use arabi_vm::builtins::call_builtin;
use arabi_vm::value::{DictObj, ListObj, Value};

fn chars(s: &str) -> Vec<char> {
    s.chars().collect()
}

fn text(s: &str) -> Value {
    Value::String(chars(s))
}

fn call(name: &str, args: Vec<Value>) -> Result<Value, (String, String)> {
    match call_builtin(&chars(name), &args, 7) {
        Some(Ok(v)) => Ok(v),
        Some(Err(e)) => Err((e.class_name().to_string(), e.message().to_string())),
        None => panic!("{} is not performed by the library", name),
    }
}

#[test]
fn base64_decoding_gives_the_text() {
    assert_eq!(call("فك_تشفير_64", vec![text("2LPZhNin2YU=")]), Ok(text("سلام")));
    assert_eq!(call("تشفير_64", vec![text("سلام")]), Ok(text("2LPZhNin2YU=")));
}

#[test]
fn base64_decoding_of_bad_input_is_a_type_error() {
    match call("فك_تشفير_64", vec![text("@@")]) {
        Err((c, m)) => {
            assert_eq!(c, "استثناء_نوع");
            assert!(m.starts_with("تشفير 64 غير صحيح: "));
        }
        other => panic!("{:?}", other),
    }
    assert_eq!(call("فك_تشفير_64", vec![]), Err(("خطا".to_string(), "فك_تشفير_64 يتطلب نصاً".to_string())));
}

#[test]
fn hexadecimal_and_url_texts_of_the_bytes() {
    assert_eq!(call("تشفير_سداسي", vec![text("ab")]), Ok(text("6162")));
    assert_eq!(call("تشفير_سداسي", vec![text("س")]), Ok(text("d8b3")));
    assert_eq!(call("تشفير_رابط", vec![text("a b/س")]), Ok(text("a%20b%2F%D8%B3")));
    assert_eq!(call("تشفير_رابط", vec![text("A-z_0.~")]), Ok(text("A-z_0.~")));
}

#[test]
fn pattern_search_describes_the_first_match() {
    let r = call("نمط_ابحث", vec![text("\\d+"), text("ab12cd34")]).unwrap();
    assert_eq!(
        r,
        Value::Dict(DictObj {
            oid: 7,
            pairs: vec![
                (text("مطابقة"), text("12")),
                (text("بداية"), Value::Integer(2)),
                (text("نهاية"), Value::Integer(4)),
            ],
        })
    );
    assert_eq!(call("نمط_ابحث", vec![text("z"), text("ab")]), Ok(Value::Null));
}

#[test]
fn pattern_split_and_first_groups() {
    assert_eq!(
        call("نمط_قسم", vec![text("[,;]"), text("a,b;c")]),
        Ok(Value::List(ListObj { oid: 7, items: vec![text("a"), text("b"), text("c")] }))
    );
    assert_eq!(
        call("نمط_جميع", vec![text("(\\d)x|y"), text("1x y 3x")]),
        Ok(Value::List(ListObj { oid: 7, items: vec![text("1"), text("3")] }))
    );
}

#[test]
fn invalid_pattern_is_a_type_error() {
    match call("نمط_قسم", vec![text("("), text("a")]) {
        Err((c, m)) => {
            assert_eq!(c, "استثناء_نوع");
            assert!(m.starts_with("نمط غير صحيح: "));
        }
        other => panic!("{:?}", other),
    }
    assert_eq!(call("نمط_جميع", vec![text("a")]), Err(("خطا".to_string(), "نمط_جميع يتطلب نصاً".to_string())));
}
