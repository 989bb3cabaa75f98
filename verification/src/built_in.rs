//! The functions that the machine brings along: `print` and `Array`.
use vstd::prelude::*;
use crate::vm::{Value, HeapValue, Interpreter, Printed, RuntimeError, print_from, allocate};

verus! {

/// Shows each argument: a heap reference shows the array or string that the
/// heap holds under its id, any other value shows itself. Nothing is written
/// anywhere; what is shown is appended to the output of the machine.
pub fn bi_print(vm: &mut Interpreter, args: Vec<Value>) -> (r: Result<Value, RuntimeError>)
    requires
        old(vm).wf(),
    ensures
        final(vm).ran(print_from(old(vm)@, args@, 0), r),
{
    let mut i: usize = 0;
    while i < args.len()
        invariant
            0 <= i <= args.len(),
            vm.wf(),
            print_from(old(vm)@, args@, 0) == print_from(vm@, args@, i as nat),
        decreases args.len() - i,
    {
        let shown = match args[i] {
            Value::HeapId(idx) => {
                match vm.heap_get(idx) {
                    Some(HeapValue::Vec(x)) => Printed::Array(x.clone()),
                    Some(HeapValue::String(s)) => Printed::Text(s.clone()),
                    None => {
                        return Err(RuntimeError::DanglingHeapId);
                    },
                }
            },
            value => Printed::Scalar(value),
        };
        vm.show(shown);
        i += 1;
    }
    Ok(Value::Unit)
}

/// Stores the arguments as an array under the next heap id and gives a
/// reference to it.
pub fn bi_array(vm: &mut Interpreter, args: Vec<Value>) -> (r: Result<Value, RuntimeError>)
    requires
        old(vm).wf(),
    ensures
        final(vm).ran(allocate(old(vm)@, args@), r),
{
    let idx = vm.next_id();
    if idx == usize::MAX {
        return Err(RuntimeError::HeapFull);
    }
    vm.store(idx, HeapValue::Vec(args));
    Ok(Value::HeapId(idx))
}

} // verus!
