//! Setting up a machine: the builtin names, the exception-class table, the
//! entry frame of a program, running until the machine needs outside work,
//! and resuming it with the result of that work.

use vstd::prelude::*;
use crate::value::{Value, Val, ObjectRef, NativeFunctionData, vals, group_value_model};
use crate::machine::{VM, MachineModel, Program, ProgramModel, Frame, Step, StepModel, Instr, step_model, wf, global_insert,
    global_lookup, global_index, lemma_global_index, hierarchy_model, push, spop};
use crate::error::RuntimeError;
use crate::steps::{split_on, split_exec};
use crate::text::{str_to_chars, chars_to_string};

verus! {

broadcast use group_value_model;

/// The names of the native builtins every machine starts with, separated by spaces.
pub const BUILTIN_NAMES: &'static str = "اطبع ادخل طول مصفوفة مترابطة صحيح عشري منطق نص مميزة مجموع اكبر اصغر مدى مقرون هل_نوع نوع معكوس تحقق_اي تحقق_او معدل وقت الوقت عد_تلقائي جيب تجيب ظل جيب_عكسي تجيب_عكسي ظل_عكسي جذر مربع مكعب جذر_مكعب قوة مطلق قيمة_مطلقة ارضية سقف تقريب لوغ لوغ10 لوغ2 ط ه ن غفوة عشوائي عشوائي_صحيح استبدل اقسم يحتوي شطب استثناء افتح خطا_ن تتبع ضغط تصفية ابعث مضروب قم_اكبر حد_اعلى حد_ادنى راديان درجة قسمة_ومظم مغلق لانهاية ليس_رقم أس أس2 أس10 جذر_ثلاثي سلب صفر صحيح_قيمة لاشي الآن مللي توقيت تاريخ عداد زمان تحويل فرق سنة شهر يوم ساعة دقيقة ثانية يوم_الاسبوع هل_سنة_كبيسة ايام_الشهر تشفير_64 فك_تشفير_64 تشفير_سداسي فك_تشفير_سداسي تشفير_رابط مفتاح_اكبر مفتاح_اصغر قيمة_اكبر قيمة_اصغر ادمج فرغ كرر موجود عد اقتران اختزل طلب طلب_نص طلب_كائن طلب_ارسال حاصل_ضرب نسبة تقريب_ل علامة نمط_طابق نمط_ابحث نمط_استبدل نمط_قسم نمط_جميع نمط_كل_التطابقات بذرة منتظم مرتب حرف رقم ست_عشري اكبر_قاسم اصغر_مضاعف هل_اولية اولية فيبوناتشي ترتيبي تركيبي انحراف_معياري وسيط بداية_بـ نهاية_بـ اعلى اسفل تكرار_اعلى ملء توسيط قطع عدد اوجد اوجد_النهاية حرف_البداية حرف_النهاية معكوس_نص تكرار تحقق_من_الحرف اقلب ملء_صفر اول_حرف_كبير كل_اول_حرف_كبير اربط تجزئة تحويل_لارقام تحويل_من_ارقام تنسيق يحتوي_اي تقطيع مفاتيح قيم ازواج يحتوي_المفتاح ادمج_فهرس اقرا_ملف اكتب_ملف اضف_ملف يوجد ملف_الحجم التمس احذف_ملف اقرا_اسطر اسم_الملف امتداد_ملف المسار_المجلد مجموع_مربعات متوسط_وزني اختيار عينة خلط طبيعي برنولي عشوائي_نطاق جميل تحقق انضم مسار_مطلق نسخ نقل قائمة_مجلد مشي متغير_بيئي احذف_عنصر احطظ ادخل_في احذف_قيمة اختزال نفذ اخرج مسطح ضخم ادمج_فهرس_بـ تجميع عدد_تكرار تجزئة_قائمة افصل";

/// The names of the native builtins every machine starts with.
pub open spec fn builtin_names() -> Seq<Seq<char>> {
    split_on(BUILTIN_NAMES@, ' ')
}

/// The names of the native builtins, in order.
pub fn builtin_name_list() -> (r: Vec<Vec<char>>)
    ensures
        r@.len() == builtin_names().len(),
        forall|k: int| 0 <= k < r@.len() ==> #[trigger] r@[k]@ == builtin_names()[k],
{
    split_exec(&str_to_chars(BUILTIN_NAMES), ' ')
}

/// The exception classes every machine starts with, each with its parents.
pub open spec fn initial_hierarchy() -> Seq<(Seq<char>, Seq<Seq<char>>)> {
    seq![
        ("استثناء"@, Seq::<Seq<char>>::empty()),
        ("استثناء_خطا"@, seq!["استثناء"@]),
        ("استثناء_نوع"@, seq!["استثناء_خطا"@]),
        ("استثناء_قيمة"@, seq!["استثناء_خطا"@]),
        ("استثناء_اسم"@, seq!["استثناء_خطا"@]),
        ("استثناء_نطاق"@, seq!["استثناء_خطا"@]),
        ("استثناء_قسمة"@, seq!["استثناء_خطا"@]),
        ("استثناء_مفتاح"@, seq!["استثناء_خطا"@]),
        ("استثناء_ملف"@, seq!["استثناء_خطا"@]),
        ("استثناء_بنية"@, seq!["استثناء_خطا"@]),
    ]
}

/// The classes bound as globals at start: every initial class but the root.
pub open spec fn is_class_name(n: Seq<char>) -> bool {
    exists|k: int| 1 <= k < initial_hierarchy().len() && #[trigger] initial_hierarchy()[k].0 == n
}

fn one_parent(name: &str) -> (r: Vec<Vec<char>>)
    ensures
        r@.len() == 1,
        r@[0]@ == name@,
{
    let mut v: Vec<Vec<char>> = Vec::new();
    v.push(str_to_chars(name));
    v
}

impl VM {
    /// Binds every builtin name to its native function.
    fn register_builtins(&mut self)
        ensures
            forall|k: int| 0 <= k < builtin_names().len() ==>
                global_lookup(final(self)@.globals, #[trigger] builtin_names()[k]) == Some(Val::Native(builtin_names()[k], 0)),
            forall|n: Seq<char>| !builtin_names().contains(n) ==>
                #[trigger] global_lookup(final(self)@.globals, n) == global_lookup(old(self)@.globals, n),
            final(self)@ == (MachineModel { globals: final(self)@.globals, ..old(self)@ }),
    {
        let ghost m0 = self@;
        let names = builtin_name_list();
        let ghost bn = builtin_names();
        let mut i: usize = 0;
        while i < names.len()
            invariant
                i <= names@.len(),
                names@.len() == bn.len(),
                bn == builtin_names(),
                forall|k: int| 0 <= k < names@.len() ==> #[trigger] names@[k]@ == bn[k],
                forall|k: int| 0 <= k < i ==> global_lookup(self@.globals, #[trigger] bn[k]) == Some(Val::Native(bn[k], 0)),
                forall|n: Seq<char>| !bn.subrange(0, i as int).contains(n) ==>
                    #[trigger] global_lookup(self@.globals, n) == global_lookup(m0.globals, n),
                self@ == (MachineModel { globals: self@.globals, ..m0 }),
            decreases names@.len() - i,
        {
            let ghost g = self@.globals;
            let ghost nm = bn[i as int];
            let name = crate::value::copy_chars(&names[i]);
            let f = Value::NativeFunction(NativeFunctionData { name: chars_to_string(&names[i]), arity: 0 });
            self.insert_global(name, f);
            proof {
                assert forall|k: int| 0 <= k <= i implies global_lookup(self@.globals, #[trigger] bn[k]) == Some(Val::Native(bn[k], 0)) by {
                    crate::machine::law_global_insert_lookup(g, nm, Val::Native(nm, 0), bn[k]);
                }
                assert forall|n: Seq<char>| !bn.subrange(0, i + 1).contains(n) implies
                    #[trigger] global_lookup(self@.globals, n) == global_lookup(m0.globals, n) by {
                    assert(bn.subrange(0, i + 1)[i as int] == nm);
                    crate::machine::law_global_insert_lookup(g, nm, Val::Native(nm, 0), n);
                    assert forall|t: int| 0 <= t < i implies bn.subrange(0, i as int)[t] == bn.subrange(0, i + 1)[t] by {}
                    if bn.subrange(0, i as int).contains(n) {
                        let t = choose|t: int| 0 <= t < i && bn.subrange(0, i as int)[t] == n;
                        assert(bn.subrange(0, i + 1)[t] == n);
                    }
                }
            }
            i = i + 1;
        }
        assert(bn.subrange(0, names@.len() as int) =~= bn);
    }

    /// Installs the initial exception classes and binds each but the root as a global class.
    fn init_exception_hierarchy(&mut self)
        ensures
            final(self)@.hierarchy == old(self)@.hierarchy + initial_hierarchy(),
            forall|k: int| 1 <= k < initial_hierarchy().len() ==>
                (global_lookup(final(self)@.globals, #[trigger] initial_hierarchy()[k].0) matches Some(Val::Class(_, n)) && n == initial_hierarchy()[k].0),
            forall|n: Seq<char>| !is_class_name(n) ==>
                #[trigger] global_lookup(final(self)@.globals, n) == global_lookup(old(self)@.globals, n),
            final(self)@ == (MachineModel { globals: final(self)@.globals, hierarchy: final(self)@.hierarchy,
                next_oid: final(self)@.next_oid, ..old(self)@ }),
    {
        let ghost m0 = self@;
        let mut table: Vec<(Vec<char>, Vec<Vec<char>>)> = Vec::new();
        table.push((str_to_chars("استثناء"), Vec::new()));
        table.push((str_to_chars("استثناء_خطا"), one_parent("استثناء")));
        table.push((str_to_chars("استثناء_نوع"), one_parent("استثناء_خطا")));
        table.push((str_to_chars("استثناء_قيمة"), one_parent("استثناء_خطا")));
        table.push((str_to_chars("استثناء_اسم"), one_parent("استثناء_خطا")));
        table.push((str_to_chars("استثناء_نطاق"), one_parent("استثناء_خطا")));
        table.push((str_to_chars("استثناء_قسمة"), one_parent("استثناء_خطا")));
        table.push((str_to_chars("استثناء_مفتاح"), one_parent("استثناء_خطا")));
        table.push((str_to_chars("استثناء_ملف"), one_parent("استثناء_خطا")));
        table.push((str_to_chars("استثناء_بنية"), one_parent("استثناء_خطا")));
        let ghost ih = initial_hierarchy();
        assert(hierarchy_model(table@) =~= ih) by {
            assert forall|k: int| 0 <= k < ih.len() implies #[trigger] hierarchy_model(table@)[k] == ih[k] by {
                assert(Seq::new(table@[k].1@.len(), |j: int| table@[k].1@[j]@) =~= ih[k].1);
            }
        }
        let mut i: usize = 1;
        while i < table.len()
            invariant
                1 <= i <= table@.len(),
                table@.len() == ih.len(),
                ih == initial_hierarchy(),
                hierarchy_model(table@) == ih,
                forall|k: int| 1 <= k < i ==>
                    (global_lookup(self@.globals, #[trigger] ih[k].0) matches Some(Val::Class(_, n)) && n == ih[k].0),
                forall|n: Seq<char>| !(exists|k: int| 1 <= k < i && #[trigger] ih[k].0 == n) ==>
                    #[trigger] global_lookup(self@.globals, n) == global_lookup(m0.globals, n),
                self@ == (MachineModel { globals: self@.globals, next_oid: self@.next_oid, ..m0 }),
            decreases table@.len() - i,
        {
            let ghost g = self@.globals;
            let ghost nm = ih[i as int].0;
            assert(table@[i as int].0@ == nm);
            let fresh = self.bump_oid();
            let name = crate::value::copy_chars(&table[i].0);
            let class = Value::Class(ObjectRef { oid: fresh, name: crate::value::copy_chars(&table[i].0) });
            let ghost cv = class@;
            self.insert_global(name, class);
            proof {
                assert forall|k: int| 1 <= k <= i implies
                    (global_lookup(self@.globals, #[trigger] ih[k].0) matches Some(Val::Class(_, n)) && n == ih[k].0) by {
                    crate::machine::law_global_insert_lookup(g, nm, cv, ih[k].0);
                }
                assert forall|n: Seq<char>| !(exists|k: int| 1 <= k < i + 1 && #[trigger] ih[k].0 == n) implies
                    #[trigger] global_lookup(self@.globals, n) == global_lookup(m0.globals, n) by {
                    crate::machine::law_global_insert_lookup(g, nm, cv, n);
                }
            }
            i = i + 1;
        }
        let ghost h0 = self@.hierarchy;
        self.exception_hierarchy.append(&mut table);
        assert(hierarchy_model(self.exception_hierarchy@) =~= h0 + ih);
        assert forall|n: Seq<char>| !is_class_name(n) implies
            #[trigger] global_lookup(self@.globals, n) == global_lookup(m0.globals, n) by {
            if exists|k: int| 1 <= k < ih.len() && #[trigger] ih[k].0 == n {
                let k = choose|k: int| 1 <= k < ih.len() && #[trigger] ih[k].0 == n;
                assert(is_class_name(n));
            }
        }
    }
}

// ---------------------------------------------------------------- running

/// The value an optional operand reads as.
pub open spec fn or_null(v: Option<&Value>) -> Val {
    match v {
        Some(x) => x@,
        None => Val::Null,
    }
}

fn mul_ok(l: Option<&Value>, r: Option<&Value>) -> (ok: bool)
    ensures
        ok == crate::ops::mul_defined(or_null(l), or_null(r)),
{
    match (l, r) {
        (Some(Value::String(s)), Some(Value::Integer(n))) => *n >= 0 || s.len() == 0,
        (Some(Value::List(_)), Some(Value::Integer(n))) => *n >= 0,
        _ => true,
    }
}

fn division_ok(l: Option<&Value>, r: Option<&Value>) -> (ok: bool)
    ensures
        ok == crate::ops::int_division_defined(or_null(l), or_null(r)),
{
    match (l, r) {
        (Some(Value::Integer(x)), Some(Value::Integer(y))) => !(*x == i64::MIN && *y == -1),
        _ => true,
    }
}

fn subscript_check(l: Option<&Value>, r: Option<&Value>) -> (ok: bool)
    ensures
        ok == crate::containers::subscript_defined(or_null(l), or_null(r)),
{
    match (l, r) {
        (Some(a), Some(b)) => crate::containers::subscript_ok(a, b),
        _ => true,
    }
}

/// The machine after setting up the entry frame of a program: the locals
/// area sized to the program's locals (at least one) and execution at the start.
pub open spec fn spec_start(m: MachineModel, p: ProgramModel) -> MachineModel {
    let n: usize = if p.num_locals > 1 { p.num_locals } else { 1 };
    MachineModel {
        arena: if n <= m.arena.len() { m.arena.subrange(0, n as int) } else { m.arena + Seq::new((n - m.arena.len()) as nat, |i: int| Val::Null) },
        frames: m.frames.push(Frame { arena_offset: 0, arena_len: n, return_ip: 0, saved_handler_len: 0, saved_stack_len: 0 }),
        ip: 0,
        runs: Seq::empty(),
        ..m
    }
}

/// Running for at most `fuel` steps: stops at the first step that needs
/// outside work, ends or fails the program, or cannot be taken.
pub open spec fn spec_run(m: MachineModel, p: ProgramModel, fuel: nat) -> (MachineModel, StepModel)
    decreases fuel,
{
    if fuel == 0 {
        (m, StepModel::Continue)
    } else if m.frames.len() == 0 || !crate::machine::step_defined(m, p) {
        (m, StepModel::Stuck)
    } else {
        let (m1, s) = crate::machine::spec_step(m, p);
        if s is Continue {
            spec_run(m1, p, (fuel - 1) as nat)
        } else if s is Failed && crate::machine::caller_catches(m1) {
            (m1, StepModel::Stuck)
        } else {
            (m1, s)
        }
    }
}

/// The globals after copying the first `k` module-level locals that are not
/// null into the globals under their names.
pub open spec fn synced(m: MachineModel, p: ProgramModel, k: nat) -> Seq<(Seq<char>, Val)>
    decreases k,
{
    if k == 0 {
        m.globals
    } else {
        let g = synced(m, p, (k - 1) as nat);
        let i = (k - 1) as int;
        let f = m.frames[0];
        if i < f.arena_len && m.arena[f.arena_offset + i] != Val::Null {
            global_insert(g, p.local_names[i], m.arena[f.arena_offset + i])
        } else {
            g
        }
    }
}

/// Resuming after a native call failed: a handler of the calling frame's
/// caller range receives the error as an exception value, else the machine fails with it.
pub open spec fn spec_native_error(m: MachineModel, c: Seq<char>, msg: Seq<char>, line: Option<usize>,
    trace: Seq<(Seq<char>, Option<usize>)>) -> (MachineModel, StepModel) {
    let floor = if m.frames.len() >= 2 { m.frames[m.frames.len() - 2].saved_handler_len } else { 0 };
    if m.handlers.len() > floor {
        let exc = Val::Exception(crate::value::ExcModel { class_name: c, message: msg, line, call_stack: trace });
        (MachineModel {
            exception: Some(exc),
            handlers: m.handlers.drop_last(),
            stack: m.stack.push(exc),
            ip: m.handlers.last(),
            ..m
        }, StepModel::Continue)
    } else {
        (m, StepModel::Failed(c, msg, line))
    }
}

impl VM {
    /// A machine with no program running: no frames, an empty stack and
    /// locals area, the builtins and the initial exception classes bound as
    /// globals, a call-depth limit of 1000 and a memory limit of 256 MiB.
    pub fn new() -> (vm: VM)
        ensures
            vm@.frames.len() == 0,
            vm@.stack.len() == 0,
            vm@.arena.len() == 0,
            vm@.handlers.len() == 0,
            vm@.exception is None,
            vm@.hierarchy == initial_hierarchy(),
            vm@.frame_depth_limit == 1000,
            vm@.memory_used == 0,
            vm@.memory_limit == 268435456,
            vm@.ip == 0,
            vm@.result == Val::Null,
            vm@.runs.len() == 0,
            forall|k: int| 0 <= k < builtin_names().len() && !is_class_name(builtin_names()[k]) ==>
                global_lookup(vm@.globals, #[trigger] builtin_names()[k]) == Some(Val::Native(builtin_names()[k], 0)),
            forall|k: int| 1 <= k < initial_hierarchy().len() ==>
                (global_lookup(vm@.globals, #[trigger] initial_hierarchy()[k].0) matches Some(Val::Class(_, n)) && n == initial_hierarchy()[k].0),
            forall|n: Seq<char>| !builtin_names().contains(n) && !is_class_name(n) ==>
                #[trigger] global_lookup(vm@.globals, n) is None,
            wf(vm@),
    {
        let mut vm = VM {
            frames: Vec::new(),
            frame_depth_limit: 1000,
            stack: Vec::new(),
            locals_arena: Vec::new(),
            exception_handlers: Vec::new(),
            globals: Vec::new(),
            current_exception: None,
            exception_hierarchy: Vec::new(),
            next_oid: 0,
            memory_used: 0,
            memory_limit: 268435456,
            ip: 0,
            result: Value::Null,
            functions: Vec::new(),
            runs: Vec::new(),
        };
        proof {
            assert(vm@.globals =~= Seq::<(Seq<char>, Val)>::empty());
            assert(vm@.hierarchy =~= Seq::<(Seq<char>, Seq<Seq<char>>)>::empty());
            assert forall|n: Seq<char>| #[trigger] global_lookup(vm@.globals, n) is None by {
                lemma_global_index(vm@.globals, n);
            }
        }
        let ghost g0 = vm@.globals;
        vm.register_builtins();
        let ghost g1 = vm@.globals;
        vm.init_exception_hierarchy();
        assert(vm@.hierarchy =~= initial_hierarchy());
        vm
    }

    /// Sets up the entry frame of `p` and starts at its first instruction.
    pub fn start(&mut self, p: &Program)
        ensures
            final(self)@ == spec_start(old(self)@, p@),
            old(self)@.frames.len() == 0 ==> wf(final(self)@),
    {
        let ghost m = self@;
        let n: usize = if p.num_locals > 1 { p.num_locals } else { 1 };
        if n <= self.locals_arena.len() {
            self.locals_arena.truncate(n);
            assert(vals(self.locals_arena@) =~= m.arena.subrange(0, n as int));
        } else {
            let ghost a0 = self.locals_arena@;
            let mut extra: Vec<Value> = Vec::new();
            let gap = n - self.locals_arena.len();
            while extra.len() < gap
                invariant
                    extra@.len() <= gap,
                    forall|j: int| 0 <= j < extra@.len() ==> extra@[j] == Value::Null,
                decreases gap - extra@.len(),
            {
                extra.push(Value::Null);
            }
            self.locals_arena.append(&mut extra);
            assert(vals(self.locals_arena@) =~= m.arena + Seq::new((n - m.arena.len()) as nat, |i: int| Val::Null)) by {
                assert forall|j: int| 0 <= j < self.locals_arena@.len() implies
                    #[trigger] vals(self.locals_arena@)[j] == (m.arena + Seq::new((n - m.arena.len()) as nat, |i: int| Val::Null))[j] by {
                    if j < a0.len() {
                        assert(self.locals_arena@[j] == a0[j]);
                    }
                }
            }
        }
        let ghost arena = self@.arena;
        assert(arena == spec_start(m, p@).arena);
        self.frames.push(Frame { arena_offset: 0, arena_len: n, return_ip: 0, saved_handler_len: 0, saved_stack_len: 0 });
        self.ip = 0;
        self.runs = Vec::new();
        assert(self@.frames =~= spec_start(m, p@).frames);
        assert(self@ =~= spec_start(m, p@));
    }

    fn operand(&self, depth: usize) -> (r: Option<&Value>)
        ensures
            depth == 0 ==> or_null(r) == spop(self@.stack).1,
            depth == 1 ==> or_null(r) == spop(spop(self@.stack).0).1,
    {
        if depth < self.stack.len() {
            Some(&self.stack[self.stack.len() - 1 - depth])
        } else {
            None
        }
    }

    /// Whether the next instruction's operands lie inside what the machine handles.
    pub fn step_is_defined(&self, p: &Program) -> (r: bool)
        requires
            self@.frames.len() > 0,
            wf(self@),
        ensures
            r == crate::machine::step_defined(self@, p@),
    {
        if self.ip >= p.code.len() {
            return true;
        }
        let f = self.frames[self.frames.len() - 1];
        let instr = crate::machine::canonical_exec(p.code[self.ip]);
        match instr {
            Instr::BinaryMultiply => mul_ok(self.operand(1), self.operand(0)),
            Instr::BinaryFloorDivide => division_ok(self.operand(1), self.operand(0)),
            Instr::BinaryModulo => division_ok(self.operand(1), self.operand(0)),
            Instr::JumpForward(c) => c <= usize::MAX - self.ip,
            Instr::StoreFast(a) => a < usize::MAX - f.arena_offset,
            Instr::PopJumpIfFalse(c) => c <= usize::MAX - self.ip,
            Instr::PopJumpIfTrue(c) => c <= usize::MAX - self.ip,
            Instr::Subscript => subscript_check(self.operand(1), self.operand(0)),
            Instr::ForIter => match self.operand(0) {
                Some(Value::Range(d)) => crate::containers::range_walk_ok(d),
                _ => true,
            },
            Instr::MakeFunction(fi) => fi < p.functions.len() && crate::steps::locals_bound(&p.functions[fi]) <= (usize::MAX as u128),
            Instr::CallFunction(a) => self.call_ok(p, a),
            _ => self.fused_ok(p, instr),
        }
    }

    /// Runs at most `fuel` steps, stopping at the first that needs outside
    /// work, ends or fails the program, or cannot be taken.
    pub fn run(&mut self, p: &Program, fuel: usize) -> (s: Step)
        requires
            wf(old(self)@),
            crate::machine::program_ok(p@),
        ensures
            (final(self)@, step_model(s)) == spec_run(old(self)@, p@, fuel as nat),
            wf(final(self)@),
    {
        let ghost target = spec_run(self@, p@, fuel as nat);
        let mut left = fuel;
        proof { reveal_with_fuel(spec_run, 1); }
        loop
            invariant
                wf(self@),
                crate::machine::program_ok(p@),
                spec_run(self@, p@, left as nat) == target,
                target == spec_run(old(self)@, p@, fuel as nat),
            decreases left,
        {
            if left == 0 {
                return Step::Continue;
            }
            if self.frames.len() == 0 {
                return Step::Stuck;
            }
            if !self.step_is_defined(p) {
                return Step::Stuck;
            }
            let s = self.step(p);
            match s {
                Step::Continue => {
                    left = left - 1;
                }
                Step::Failed(e) => {
                    if self.caller_catches_exec() {
                        return Step::Stuck;
                    }
                    return Step::Failed(e);
                }
                other => {
                    return other;
                }
            }
        }
    }

    /// Whether an error leaving the innermost nested run is taken up by a
    /// handler that the frame below the innermost one can see.
    fn caller_catches_exec(&self) -> (r: bool)
        ensures
            r == crate::machine::caller_catches(self@),
    {
        let n = self.frames.len();
        let floor = if n >= 2 { self.frames[n - 2].saved_handler_len } else { 0 };
        self.runs.len() > 0 && self.exception_handlers.len() > floor
    }

    /// A new object identity, for a container made outside the machine.
    pub fn fresh_oid(&mut self) -> (o: u64)
        ensures
            o == old(self)@.next_oid,
            final(self)@ == crate::machine::bump(old(self)@),
    {
        self.bump_oid()
    }

    /// Resumes after outside work produced `v` (a float result or a native call's value).
    pub fn resume_value(&mut self, v: Value)
        ensures
            final(self)@ == push(old(self)@, v@),
    {
        self.push_value(v);
    }

    /// Resumes after the float rendering a format step asked for was produced
    /// as `raw`: pushes it padded by the specification.
    pub fn resume_formatted(&mut self, raw: Vec<char>, st: &crate::formatting::FormatSpec)
        ensures
            final(self)@ == push(old(self)@, Val::Str(crate::formatting::pad(raw@, *st))),
    {
        let t = crate::formatting::pad_text(raw, st);
        self.push_value(Value::String(t));
    }

    /// Performs a native call the machine asked for when the builtin is one
    /// computed by this library: resumes with its value, or with its error as
    /// a failed native call.  `None` (machine unchanged) for builtins the
    /// caller performs.
    pub fn native_call(&mut self, name: &Vec<char>, args: &Vec<Value>) -> (r: Option<Step>)
        ensures
            match r {
                None => crate::builtins::spec_builtin(name@, vals(args@), old(self)@.next_oid) is None
                    && final(self)@ == old(self)@,
                Some(s) => match crate::builtins::spec_builtin(name@, vals(args@), old(self)@.next_oid) {
                    Some(Ok(v)) => (final(self)@, step_model(s)) == (push(crate::machine::bump(old(self)@), v), StepModel::Continue),
                    Some(Err((c, msg))) => (final(self)@, step_model(s))
                        == spec_native_error(crate::machine::bump(old(self)@), c, msg, None, Seq::empty()),
                    None => false,
                },
            },
    {
        let fresh = self.next_oid;
        match crate::builtins::call_builtin(name, args, fresh) {
            None => None,
            Some(Ok(v)) => {
                let _ = self.bump_oid();
                self.push_value(v);
                Some(Step::Continue)
            }
            Some(Err(e)) => {
                let _ = self.bump_oid();
                let plain = RuntimeError::new_typed(chars_to_string(&str_to_chars(e.class_name())),
                    chars_to_string(&str_to_chars(e.message())));
                Some(self.resume_error(plain))
            }
        }
    }

    /// Resumes after a native call failed with `e`.
    pub fn resume_error(&mut self, e: RuntimeError) -> (s: Step)
        ensures
            (final(self)@, step_model(s)) == spec_native_error(old(self)@, e.class_view(), e.message_view(), e.line_view(), e.trace_view()),
    {
        let n = self.frames.len();
        let floor = if n >= 2 { self.frames[n - 2].saved_handler_len } else { 0 };
        if self.exception_handlers.len() > floor {
            let handler = self.exception_handlers.pop().unwrap();
            let exc = e.into_value();
            self.current_exception = Some(exc.duplicate());
            self.push_value(exc);
            self.ip = handler;
            Step::Continue
        } else {
            Step::Failed(e)
        }
    }

    /// After the program has ended with its entry frame in place, copies the
    /// module-level locals that are not null into the globals under their names.
    pub fn sync_module_locals(&mut self, p: &Program)
        requires
            wf(old(self)@),
            old(self)@.frames.len() > 0,
        ensures
            final(self)@ == (MachineModel { globals: synced(old(self)@, p@, p@.local_names.len()), ..old(self)@ }),
    {
        let ghost m = self@;
        let f = self.frames[0];
        proof {
            assert(f == m.frames[0]);
            assert(m.frames[0].arena_offset + m.frames[0].arena_len <= m.arena.len());
            assert(m.arena.len() == self.locals_arena@.len());
            assert(self.locals_arena@.len() == self.locals_arena.len());
        }
        let mut i: usize = 0;
        while i < p.local_names.len()
            invariant
                i <= p.local_names@.len(),
                m.frames.len() > 0,
                f == m.frames[0],
                f.arena_offset + f.arena_len <= self@.arena.len(),
                self@.arena.len() == self.locals_arena@.len(),
                self.locals_arena@.len() == self.locals_arena.len(),
                self@ == (MachineModel { globals: synced(m, p@, i as nat), ..m }),
            decreases p.local_names@.len() - i,
        {
            if i < f.arena_len {
                let v = &self.locals_arena[f.arena_offset + i];
                let is_null = match v {
                    Value::Null => true,
                    _ => false,
                };
                if !is_null {
                    let val = v.duplicate();
                    let name = crate::value::copy_chars(&p.local_names[i]);
                    self.insert_global(name, val);
                }
            }
            i = i + 1;
            assert(self@ =~= (MachineModel { globals: synced(m, p@, i as nat), ..m }));
        }
    }
}

} // verus!
