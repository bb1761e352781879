use arabi_vm::builtins::call_builtin;
use arabi_vm::containers;
use arabi_vm::formatting::{self, FloatStyle, FormatSpec, Formatted};
use arabi_vm::jit::{clear_jit_context, set_jit_context, JitContext};
use arabi_vm::ops::{FloatOperand, Outcome};
use arabi_vm::value::{DictObj, FloatNum, ListObj, RangeData, SliceData, Value};

fn text(s: &str) -> Value {
    Value::String(s.chars().collect())
}

fn chars(s: &str) -> Vec<char> {
    s.chars().collect()
}

fn ints(xs: &[i64]) -> Vec<Value> {
    xs.iter().map(|x| Value::Integer(*x)).collect()
}

fn list(oid: u64, items: Vec<Value>) -> Value {
    Value::List(ListObj { oid, items })
}

fn slice(a: Value, b: Value, c: Value) -> Value {
    Value::Slice(SliceData { start: Box::new(a), end: Box::new(b), step: Box::new(c) })
}

fn got(o: Outcome) -> Value {
    match o {
        Outcome::Value(v) => v,
        other => panic!("expected a value, got {:?}", other),
    }
}

fn raised(o: Outcome) -> (String, String) {
    match o {
        Outcome::Raise(e) => (e.class_name().to_string(), e.message().to_string()),
        other => panic!("expected a raised error, got {:?}", other),
    }
}

fn call(name: &str, args: Vec<Value>) -> Result<Value, (String, String)> {
    match call_builtin(&chars(name), &args, 500) {
        Some(Ok(v)) => Ok(v),
        Some(Err(e)) => Err((e.class_name().to_string(), e.message().to_string())),
        None => panic!("builtin {} not handled", name),
    }
}

#[test]
fn list_index_reads_from_both_ends() {
    let l = list(1, ints(&[10, 20, 30]));
    assert_eq!(got(containers::subscript(&l, &Value::Integer(0), 0)), Value::Integer(10));
    assert_eq!(got(containers::subscript(&l, &Value::Integer(-1), 0)), Value::Integer(30));
}

#[test]
fn list_index_out_of_range_raises() {
    let l = list(1, ints(&[10, 20, 30]));
    let (class, msg) = raised(containers::subscript(&l, &Value::Integer(3), 0));
    assert_eq!(class, "استثناء_نطاق");
    assert_eq!(msg, "فهرس خارج النطاق");
    let (class, _) = raised(containers::subscript(&l, &Value::Integer(-4), 0));
    assert_eq!(class, "استثناء_نطاق");
}

#[test]
fn list_slices() {
    let l = list(1, ints(&[0, 1, 2, 3, 4, 5]));
    let s = slice(Value::Integer(1), Value::Integer(4), Value::Null);
    assert_eq!(got(containers::subscript(&l, &s, 9)), list(9, ints(&[1, 2, 3])));
    let rev = slice(Value::Null, Value::Null, Value::Integer(-1));
    assert_eq!(got(containers::subscript(&l, &rev, 9)), list(9, ints(&[5, 4, 3, 2, 1, 0])));
    let stepped = slice(Value::Null, Value::Null, Value::Integer(2));
    assert_eq!(got(containers::subscript(&l, &stepped, 9)), list(9, ints(&[0, 2, 4])));
    let whole = slice(Value::Null, Value::Null, Value::Null);
    assert_eq!(got(containers::subscript(&l, &whole, 9)), list(9, ints(&[0, 1, 2, 3, 4, 5])));
}

#[test]
fn text_index_and_slice() {
    let t = text("سلام");
    assert_eq!(got(containers::subscript(&t, &Value::Integer(1), 0)), text("ل"));
    let s = slice(Value::Integer(-2), Value::Null, Value::Null);
    assert_eq!(got(containers::subscript(&t, &s, 0)), text("ام"));
}

#[test]
fn range_index() {
    let r = Value::Range(RangeData { start: 10, end: 20, step: 3 });
    assert_eq!(got(containers::subscript(&r, &Value::Integer(2), 0)), Value::Integer(16));
    let (class, _) = raised(containers::subscript(&r, &Value::Integer(4), 0));
    assert_eq!(class, "استثناء_نطاق");
    let z = Value::Range(RangeData { start: 0, end: 5, step: 0 });
    let (_, msg) = raised(containers::subscript(&z, &Value::Integer(0), 0));
    assert_eq!(msg, "خطوة النطاق لا يمكن ان تكون صفر");
}

#[test]
fn dict_lookup_and_missing_key() {
    let d = Value::Dict(DictObj { oid: 3, pairs: vec![(text("ا"), Value::Integer(1)), (Value::Integer(2), text("ب"))] });
    assert_eq!(got(containers::subscript(&d, &text("ا"), 0)), Value::Integer(1));
    assert_eq!(got(containers::subscript(&d, &Value::Integer(2), 0)), text("ب"));
    let (class, msg) = raised(containers::subscript(&d, &text("ج"), 0));
    assert_eq!(class, "استثناء_مفتاح");
    assert_eq!(msg, "مفتاح غير موجود");
}

#[test]
fn float_one_is_not_the_key_integer_one() {
    let d = Value::Dict(DictObj { oid: 3, pairs: vec![(Value::Integer(1), text("x"))] });
    let one = Value::Float(FloatNum { bits: 0x3ff0_0000_0000_0000, text: chars("1.0") });
    let (class, _) = raised(containers::subscript(&d, &one, 0));
    assert_eq!(class, "استثناء_مفتاح");
}

#[test]
fn store_then_read_list_element() {
    let l = list(4, ints(&[1, 2, 3]));
    let updated = got(containers::store_subscript(l, Value::Integer(-1), text("ز")));
    assert_eq!(updated, list(4, vec![Value::Integer(1), Value::Integer(2), text("ز")]));
    assert_eq!(got(containers::subscript(&updated, &Value::Integer(2), 0)), text("ز"));
}

#[test]
fn store_then_read_dict_entry() {
    let d = Value::Dict(DictObj { oid: 5, pairs: vec![(text("ا"), Value::Integer(1))] });
    let d2 = got(containers::store_subscript(d, text("ا"), Value::Integer(9)));
    let d3 = got(containers::store_subscript(d2, text("ب"), Value::Integer(7)));
    assert_eq!(got(containers::subscript(&d3, &text("ا"), 0)), Value::Integer(9));
    assert_eq!(got(containers::subscript(&d3, &text("ب"), 0)), Value::Integer(7));
    match d3 {
        Value::Dict(o) => assert_eq!(o.pairs.len(), 2),
        other => panic!("{:?}", other),
    }
}

#[test]
fn store_into_non_container_raises() {
    let (class, msg) = raised(containers::store_subscript(Value::Integer(1), Value::Integer(0), Value::Null));
    assert_eq!(class, "استثناء_نوع");
    assert_eq!(msg, "غير قادر على التخزين بالفهرس");
}

#[test]
fn iteration_items_of_dict_range_and_text() {
    let d = Value::Dict(DictObj { oid: 3, pairs: vec![(text("ا"), Value::Integer(1))] });
    let items = containers::iteration_items(&d, 40).unwrap();
    assert_eq!(items, vec![Value::Tuple(ListObj { oid: 40, items: vec![text("ا"), Value::Integer(1)] })]);
    let r = Value::Range(RangeData { start: 5, end: 0, step: -2 });
    assert_eq!(containers::iteration_items(&r, 0).unwrap(), ints(&[5, 3, 1]));
    assert_eq!(containers::iteration_items(&text("اب"), 0).unwrap(), vec![text("ا"), text("ب")]);
    assert!(containers::iteration_items(&Value::Integer(3), 0).is_none());
}

#[test]
fn set_building_drops_later_duplicates() {
    let items = vec![Value::Integer(1), Value::Integer(2), Value::Integer(1), text("a"), Value::Integer(2)];
    assert_eq!(containers::dedup_values(items), vec![Value::Integer(1), Value::Integer(2), text("a")]);
}

#[test]
fn refresh_replaces_every_copy_of_a_shared_list() {
    let inner = list(8, ints(&[1]));
    let outer = list(9, vec![inner, text("x")]);
    let newer = list(8, ints(&[1, 2]));
    let r = containers::refresh_value(&outer, &newer);
    assert_eq!(r, list(9, vec![list(8, ints(&[1, 2])), text("x")]));
}

#[test]
fn format_pads_and_groups() {
    let fmt = |v: &Value, f: &str| match formatting::apply_format(v, &chars(f)) {
        Formatted::Text(t) => t.into_iter().collect::<String>(),
        Formatted::NeedsFloat(ff, _) => panic!("float rendering requested: {:?}", ff),
    };
    assert_eq!(fmt(&Value::Integer(5), "03"), "005");
    assert_eq!(fmt(&Value::Integer(1234567), "0,"), "1,234,567");
    assert_eq!(fmt(&Value::Integer(-123456), "0,"), "-,123,456");
    assert_eq!(fmt(&Value::Integer(1234567), "12,"), "   1,234,567");
    // A first character that neither starts the main part nor precedes an
    // alignment is read as part of the main part.
    assert_eq!(fmt(&Value::Integer(1234567), ","), "1,234,567");
    assert_eq!(fmt(&text("ab"), ">5"), "   ab");
    assert_eq!(fmt(&text("ab"), "<5"), "ab   ");
    assert_eq!(fmt(&text("ab"), "^6"), "  ab  ");
    assert_eq!(fmt(&text("ab"), "*<5"), "ab   ");
    assert_eq!(fmt(&text("ab"), ""), "ab");
    assert_eq!(fmt(&Value::Integer(42), "d"), "42");
}

#[test]
fn format_width_counts_utf8_bytes() {
    let t = match formatting::apply_format(&text("سلام"), &chars("10")) {
        Formatted::Text(t) => t.into_iter().collect::<String>(),
        other => panic!("{:?}", other),
    };
    assert_eq!(t, "  سلام");
}

#[test]
fn format_of_floats_is_requested() {
    let f = Value::Float(FloatNum { bits: 0x4009_21fb_5444_2d18, text: chars("3.141592653589793") });
    match formatting::apply_format(&f, &chars(".2f")) {
        Formatted::NeedsFloat(ff, st) => {
            assert_eq!(ff.style, FloatStyle::Fixed);
            assert_eq!(ff.precision, 2);
            assert_eq!(ff.value, FloatOperand::Bits(0x4009_21fb_5444_2d18));
            assert_eq!(st.precision, Some(2));
        }
        other => panic!("{:?}", other),
    }
    match formatting::apply_format(&Value::Integer(3), &chars(".0%")) {
        Formatted::NeedsFloat(ff, _) => assert_eq!(ff.style, FloatStyle::Percent),
        other => panic!("{:?}", other),
    }
}

#[test]
fn parse_format_fields() {
    let st: FormatSpec = formatting::parse_format(&chars("*^12.3e"));
    assert_eq!(st.fill, '*');
    assert_eq!(st.align, '^');
    assert_eq!(st.width, Some(12));
    assert_eq!(st.precision, Some(3));
    assert_eq!(st.kind, Some('e'));
    let st = formatting::parse_format(&chars("08"));
    assert_eq!(st.fill, '0');
    assert_eq!(st.width, Some(8));
}

#[test]
fn pad_text_reaches_width() {
    let st = formatting::parse_format(&chars(">7"));
    let padded = formatting::pad_text(chars("ab"), &st);
    assert_eq!(padded.len(), 7);
}

#[test]
fn builtin_len_and_range() {
    assert_eq!(call("طول", vec![list(1, ints(&[1, 2, 3]))]), Ok(Value::Integer(3)));
    assert_eq!(call("طول", vec![text("سلام")]), Ok(Value::Integer(4)));
    assert_eq!(call("طول", vec![]), Err(("خطا".to_string(), "طول يتطلب معامل واحد".to_string())));
    assert_eq!(call("طول", vec![Value::Integer(1)]).unwrap_err().0, "استثناء_نوع");
    assert_eq!(call("مدى", vec![Value::Integer(5)]), Ok(Value::Range(RangeData { start: 0, end: 5, step: 1 })));
    assert_eq!(call("مدى", vec![Value::Integer(1), Value::Integer(9), Value::Integer(0)]).unwrap_err().0, "استثناء_قيمة");
}

#[test]
fn builtin_text_helpers() {
    assert_eq!(call("معكوس_نص", vec![text("سلام")]), Ok(text("مالس")));
    assert_eq!(call("معكوس", vec![list(1, ints(&[1, 2, 3]))]), Ok(list(500, ints(&[3, 2, 1]))));
    assert_eq!(call("بداية_بـ", vec![text("سلام"), text("سل")]), Ok(Value::Boolean(true)));
    assert_eq!(call("نهاية_بـ", vec![text("سلام"), text("سل")]), Ok(Value::Boolean(false)));
    assert_eq!(call("تكرار", vec![text("اب"), Value::Integer(2)]), Ok(text("اباب")));
    assert_eq!(call("تكرار", vec![text("اب"), Value::Integer(-1)]).unwrap_err().1, "عدد المرات لا يمكن ان يكون سالباً");
    assert_eq!(call("نوع", vec![Value::Integer(1)]), Ok(text("صحيح")));
}

#[test]
fn reversing_text_twice_gives_it_back() {
    let once = call("معكوس_نص", vec![text("مرحبا")]).unwrap();
    assert_eq!(call("معكوس_نص", vec![once]), Ok(text("مرحبا")));
}

#[test]
fn builtin_dict_views() {
    let d = Value::Dict(DictObj { oid: 3, pairs: vec![(text("ا"), Value::Integer(1)), (text("ب"), Value::Integer(2))] });
    assert_eq!(call("مفاتيح", vec![d.duplicate()]), Ok(list(500, vec![text("ا"), text("ب")])));
    assert_eq!(call("قيم", vec![d.duplicate()]), Ok(list(500, ints(&[1, 2]))));
    assert_eq!(call("يحتوي_المفتاح", vec![d.duplicate(), text("ب")]), Ok(Value::Boolean(true)));
    assert_eq!(call("يحتوي_المفتاح", vec![d, text("ج")]), Ok(Value::Boolean(false)));
}

#[test]
fn builtin_numbers() {
    assert_eq!(call("اكبر_قاسم", vec![Value::Integer(12), Value::Integer(18)]), Ok(Value::Integer(6)));
    assert_eq!(call("اكبر_قاسم", vec![Value::Integer(-12), Value::Integer(18)]), Ok(Value::Integer(6)));
    assert_eq!(call("اكبر_قاسم", vec![Value::Integer(0), Value::Integer(0)]), Ok(Value::Integer(0)));
    assert_eq!(call("فيبوناتشي", vec![Value::Integer(10)]), Ok(Value::Integer(55)));
    assert_eq!(call("فيبوناتشي", vec![Value::Integer(-3)]), Ok(Value::Integer(0)));
    assert_eq!(call("فيبوناتشي", vec![Value::Integer(1)]), Ok(Value::Integer(1)));
}

#[test]
fn builtin_base64_encodes_utf8() {
    assert_eq!(call("تشفير_64", vec![text("hello")]), Ok(text("aGVsbG8=")));
    assert_eq!(call("تشفير_64", vec![text("")]), Ok(text("")));
    assert_eq!(call("تشفير_64", vec![text("س")]), Ok(text("2LM=")));
    assert_eq!(call("تشفير_64", vec![Value::Integer(1)]).unwrap_err().0, "استثناء_نوع");
}

#[test]
fn builtin_patterns() {
    assert_eq!(call("نمط_طابق", vec![text("a+b"), text("xaab")]), Ok(Value::Boolean(true)));
    assert_eq!(call("نمط_طابق", vec![text("^b"), text("ab")]), Ok(Value::Boolean(false)));
    let (class, msg) = call("نمط_طابق", vec![text("("), text("x")]).unwrap_err();
    assert_eq!(class, "استثناء_نوع");
    assert!(msg.starts_with("نمط غير صحيح: "));
    assert_eq!(call("نمط_استبدل", vec![text("[0-9]+"), text("a1b22"), text("#")]), Ok(text("a#b#")));
}

#[test]
fn unknown_builtins_are_left_to_the_caller() {
    assert!(call_builtin(&chars("اطبع"), &vec![], 0).is_none());
}

#[test]
fn jit_context_is_cleared() {
    let mut ctx = JitContext::new();
    set_jit_context(&mut ctx, 1, 2);
    assert_eq!(ctx.vm, Some(1));
    clear_jit_context(&mut ctx);
    assert_eq!(ctx.vm, None);
    assert_eq!(ctx.module, None);
}
