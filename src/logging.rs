use vstd::prelude::*;

verus! {

/// The once-only guard of the debug logger: returns whether the logger is to
/// be set up now, which is on the first call alone, and marks it as set up.
pub fn maybe_init_logger(initialized: &mut bool) -> (set_up_now: bool)
    ensures
        set_up_now == !*old(initialized),
        *final(initialized),
{
    if *initialized {
        false
    } else {
        *initialized = true;
        true
    }
}

} // verus!
