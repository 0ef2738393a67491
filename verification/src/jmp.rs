//! Long jumps of Emscripten guests.
use libc::c_int;
use vstd::prelude::*;

verus! {

/// A call of the guest's `setThrew`, which records a long jump in the guest.
#[derive(Clone, Copy, Debug, PartialEq, Eq, Structural)]
pub struct SetThrew {
    pub env_addr: i32,
    pub val: c_int,
}

/// What the place that is jumped to sees.
pub open spec fn jump_value(val: int) -> int {
    if val == 0 {
        1
    } else {
        val
    }
}

/// A long jump is always told from a first pass: what it brings is never zero, and is what
/// was given wherever that is not zero.
pub proof fn law_a_jump_is_never_zero(val: int)
    ensures
        jump_value(val) != 0,
        val != 0 ==> jump_value(val) == val,
        jump_value(0) == 1,
        jump_value(jump_value(val)) == jump_value(val),
{
}

/// What a long jump asks of the guest before it ends the call that made it. A jump
/// with zero is seen as one by the place it jumps to.
pub fn _longjmp(env_addr: i32, val: c_int) -> (call: SetThrew)
    ensures
        call.env_addr == env_addr,
        call.val == (if val == 0 {
            1
        } else {
            val as int
        }),
        call.val == jump_value(val as int),
{
    let val: c_int = if val == 0 {
        1
    } else {
        val
    };
    SetThrew { env_addr, val }
}

} // verus!
