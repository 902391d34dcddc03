//! Buffers that are filled by one call.

use vstd::prelude::*;

verus! {

/// Calls `fun` on a new default buffer, and returns the buffer as `fun` leaves
/// it, with what `fun` returns.
pub fn temp_buf<T, B: Default, F: FnOnce(&mut B) -> T>(fun: F) -> (r: (B, T))
    requires
        forall|b: &mut B| call_ensures(B::default, (), *b) ==> #[trigger] call_requires(fun, (b,)),
    ensures
        exists|b: &mut B| #[trigger]
            call_ensures(fun, (b,), r.1) && *final(b) == r.0 && call_ensures(B::default, (), *b),
{
    let mut buf: B = B::default();
    let ghost start = buf;
    assert(call_ensures(B::default, (), start));
    let res: T = fun(&mut buf);
    let ghost end = buf;
    let r: (B, T) = (buf, res);
    proof {
        assert(r.0 == end && r.1 == res);
        let b = choose|b: &mut B| #[trigger]
            call_ensures(fun, (b,), r.1) && *b == start && *final(b) == r.0;
        assert(call_ensures(fun, (b,), r.1) && *b == start && *final(b) == r.0);
        assert(call_ensures(B::default, (), *b));
    }
    r
}

} // verus!
