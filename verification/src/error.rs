//! Runtime errors raised by the machine and the builtins.

use vstd::prelude::*;
use crate::text::{nat_digits, decimal_usize, push_chars, str_to_chars, chars_to_string};
use crate::value::{Value, ExceptionData, Val, ExcModel, copy_string};

verus! {

/// One entry of a call trace: the function's name and the line of the call.
#[derive(Debug)]
pub struct CallFrame {
    pub function_name: String,
    pub line: Option<usize>,
}

/// An error with an exception class, a message, an optional line and a call trace.
#[derive(Debug)]
pub struct RuntimeError {
    class_name: String,
    message: String,
    line: Option<usize>,
    call_stack: Vec<CallFrame>,
}

/// The exception class given to errors that name no class.
pub open spec fn generic_error_class() -> Seq<char> {
    "خطا"@
}

/// The model of a call trace.
pub open spec fn trace_model(cs: Seq<CallFrame>) -> Seq<(Seq<char>, Option<usize>)> {
    Seq::new(cs.len(), |i: int| (cs[i].function_name@, cs[i].line))
}

/// ` (سطر N)` when a line is known, nothing otherwise.
pub open spec fn line_suffix(line: Option<usize>) -> Seq<char> {
    match line {
        Some(l) => " (سطر "@ + nat_digits(l as nat) + ")"@,
        None => Seq::<char>::empty(),
    }
}

/// The trace lines of a call trace, one `\n  في name` (with line) per frame.
pub open spec fn trace_text(cs: Seq<(Seq<char>, Option<usize>)>) -> Seq<char>
    decreases cs.len(),
{
    if cs.len() == 0 {
        Seq::<char>::empty()
    } else {
        trace_text(cs.subrange(0, cs.len() - 1)) + "\n  في "@ + cs[cs.len() - 1].0
            + line_suffix(cs[cs.len() - 1].1)
    }
}

/// The text an error displays: its message, its line, then its call trace.
pub open spec fn error_text(message: Seq<char>, line: Option<usize>, cs: Seq<(Seq<char>, Option<usize>)>) -> Seq<char> {
    message + line_suffix(line) + if cs.len() == 0 {
        Seq::<char>::empty()
    } else {
        "\nتتبع الاستدعاء:"@ + trace_text(cs)
    }
}

fn line_suffix_chars(line: Option<usize>) -> (r: Vec<char>)
    ensures
        r@ == line_suffix(line),
{
    match line {
        Some(l) => {
            let mut r = str_to_chars(" (سطر ");
            let d = decimal_usize(l);
            crate::text::extend_chars(&mut r, &d);
            let c = str_to_chars(")");
            crate::text::extend_chars(&mut r, &c);
            r
        }
        None => Vec::new(),
    }
}

impl RuntimeError {
    pub closed spec fn class_view(&self) -> Seq<char> {
        self.class_name@
    }

    pub closed spec fn message_view(&self) -> Seq<char> {
        self.message@
    }

    pub closed spec fn line_view(&self) -> Option<usize> {
        self.line
    }

    pub closed spec fn trace_view(&self) -> Seq<(Seq<char>, Option<usize>)> {
        trace_model(self.call_stack@)
    }

    /// An error of the generic class with the given message.
    pub fn new(message: String) -> (e: Self)
        ensures
            e.class_view() == generic_error_class(),
            e.message_view() == message@,
            e.line_view() == None::<usize>,
            e.trace_view() == Seq::<(Seq<char>, Option<usize>)>::empty(),
    {
        let e = RuntimeError {
            class_name: chars_to_string(&str_to_chars("خطا")),
            message,
            line: None,
            call_stack: Vec::new(),
        };
        assert(e.trace_view() =~= Seq::<(Seq<char>, Option<usize>)>::empty());
        e
    }

    /// An error of the given exception class with the given message.
    pub fn new_typed(class_name: String, message: String) -> (e: Self)
        ensures
            e.class_view() == class_name@,
            e.message_view() == message@,
            e.line_view() == None::<usize>,
            e.trace_view() == Seq::<(Seq<char>, Option<usize>)>::empty(),
    {
        let e = RuntimeError { class_name, message, line: None, call_stack: Vec::new() };
        assert(e.trace_view() =~= Seq::<(Seq<char>, Option<usize>)>::empty());
        e
    }

    /// The same error, now tagged with a line.
    pub fn with_line(self, line: usize) -> (e: Self)
        ensures
            e.class_view() == self.class_view(),
            e.message_view() == self.message_view(),
            e.line_view() == Some(line),
            e.trace_view() == self.trace_view(),
    {
        let mut e = self;
        e.line = Some(line);
        e
    }

    /// The same error, now carrying the given call trace.
    pub fn with_call_stack(self, stack: Vec<CallFrame>) -> (e: Self)
        ensures
            e.class_view() == self.class_view(),
            e.message_view() == self.message_view(),
            e.line_view() == self.line_view(),
            e.trace_view() == trace_model(stack@),
    {
        let mut e = self;
        e.call_stack = stack;
        e
    }

    pub fn class_name(&self) -> (r: &str)
        ensures
            r@ == self.class_view(),
    {
        self.class_name.as_str()
    }

    pub fn line(&self) -> (r: Option<usize>)
        ensures
            r == self.line_view(),
    {
        self.line
    }

    pub fn call_stack(&self) -> (r: &[CallFrame])
        ensures
            trace_model(r@) == self.trace_view(),
    {
        self.call_stack.as_slice()
    }

    /// The message alone.
    pub fn message(&self) -> (r: &str)
        ensures
            r@ == self.message_view(),
    {
        self.message.as_str()
    }

    /// The exception value a handler receives for this error.
    pub fn into_value(self) -> (v: Value)
        ensures
            v@ == Val::Exception(ExcModel {
                class_name: self.class_view(),
                message: self.message_view(),
                line: self.line_view(),
                call_stack: self.trace_view(),
            }),
    {
        let mut cs: Vec<(String, Option<usize>)> = Vec::new();
        let mut i: usize = 0;
        while i < self.call_stack.len()
            invariant
                i <= self.call_stack@.len(),
                cs@.len() == i,
                forall|j: int| 0 <= j < i ==>
                    (#[trigger] cs@[j]).0@ == self.call_stack@[j].function_name@
                    && cs@[j].1 == self.call_stack@[j].line,
            decreases self.call_stack@.len() - i,
        {
            let f = &self.call_stack[i];
            cs.push((copy_string(&f.function_name), f.line));
            i = i + 1;
        }
        let ghost tv = self.trace_view();
        let d = ExceptionData { class_name: self.class_name, message: self.message, line: self.line, call_stack: cs };
        let v = Value::Exception(d);
        assert(crate::value::exc_model(d).call_stack =~= tv);
        v
    }

    /// The text the error displays: message, line, then the call trace.
    pub fn render(&self) -> (s: String)
        ensures
            s@ == error_text(self.message_view(), self.line_view(), self.trace_view()),
    {
        let mut s = copy_string(&self.message);
        let suffix = line_suffix_chars(self.line);
        push_chars(&mut s, &suffix);
        let ghost cs = self.trace_view();
        if self.call_stack.len() > 0 {
            let head = str_to_chars("\nتتبع الاستدعاء:");
            push_chars(&mut s, &head);
            let ghost base = s@;
            let mut i: usize = 0;
            while i < self.call_stack.len()
                invariant
                    i <= self.call_stack@.len(),
                    cs == trace_model(self.call_stack@),
                    s@ == base + trace_text(cs.subrange(0, i as int)),
                decreases self.call_stack@.len() - i,
            {
                let f = &self.call_stack[i];
                let lead = str_to_chars("\n  في ");
                push_chars(&mut s, &lead);
                let name = crate::text::string_to_chars(&f.function_name);
                push_chars(&mut s, &name);
                let ls = line_suffix_chars(f.line);
                push_chars(&mut s, &ls);
                proof {
                    let next = cs.subrange(0, i + 1);
                    assert(next.subrange(0, i as int) =~= cs.subrange(0, i as int));
                }
                i = i + 1;
            }
            assert(cs.subrange(0, self.call_stack@.len() as int) =~= cs);
        }
        s
    }
}

} // verus!
