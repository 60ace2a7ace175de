use vstd::prelude::*;

verus! {

/// How many `U`-sized elements cover the same bytes as `mult` `T`-sized
/// elements.
pub fn relative_size_of_mult<T, U>(mult: usize) -> (r: usize)
    requires
        vstd::layout::size_of::<U>() > 0,
        (mult * vstd::layout::size_of::<T>()) as int % (vstd::layout::size_of::<U>() as int) == 0,
        mult * vstd::layout::size_of::<T>() <= usize::MAX,
    ensures
        r == (mult * vstd::layout::size_of::<T>()) as int / (vstd::layout::size_of::<U>() as int),
{
    let st: usize = core::mem::size_of::<T>();
    let su: usize = core::mem::size_of::<U>();
    (mult * st) / su
}

/// How many `U`-sized elements cover the same bytes as one `T`.
pub fn relative_size_of<T, U>() -> (r: usize)
    requires
        vstd::layout::size_of::<U>() > 0,
        vstd::layout::size_of::<T>() as int % (vstd::layout::size_of::<U>() as int) == 0,
        vstd::layout::size_of::<T>() <= usize::MAX,
    ensures
        r == vstd::layout::size_of::<T>() as int / (vstd::layout::size_of::<U>() as int),
{
    relative_size_of_mult::<T, U>(1)
}

} // verus!
