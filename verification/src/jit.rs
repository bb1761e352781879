//! The context through which compiled native code reaches the running
//! machine and module while it runs.

use vstd::prelude::*;

verus! {

/// Handles of the machine and the module that compiled code is running for;
/// both absent outside compiled code.
#[derive(Debug, Clone, Copy, PartialEq, Eq, Structural)]
pub struct JitContext {
    pub vm: Option<u64>,
    pub module: Option<u64>,
}

impl JitContext {
    /// A context outside compiled code.
    pub fn new() -> (c: Self)
        ensures
            c.vm is None,
            c.module is None,
    {
        JitContext { vm: None, module: None }
    }
}

/// Enters compiled code for the machine `vm` running `module`.
pub fn set_jit_context(ctx: &mut JitContext, vm: u64, module: u64)
    ensures
        final(ctx).vm == Some(vm),
        final(ctx).module == Some(module),
{
    ctx.vm = Some(vm);
    ctx.module = Some(module);
}

/// Leaves compiled code: the context no longer names a machine or a module.
pub fn clear_jit_context(ctx: &mut JitContext)
    ensures
        final(ctx).vm is None,
        final(ctx).module is None,
{
    ctx.vm = None;
    ctx.module = None;
}

} // verus!
