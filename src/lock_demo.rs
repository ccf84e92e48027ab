use vstd::prelude::*;

verus! {

/// A counter cell used by the lock demonstrations.
#[derive(Debug)]
pub struct Data(pub usize);

/// `size` counters, all zero.
pub fn test_data(size: usize) -> (v: Vec<Data>)
    ensures
        v@.len() == size,
        forall|i: int| 0 <= i < size ==> (#[trigger] v@[i]).0 == 0,
{
    let mut v: Vec<Data> = Vec::with_capacity(size);
    let mut k: usize = 0;
    while k < size
        invariant
            k <= size,
            v@.len() == k,
            forall|i: int| 0 <= i < k ==> (#[trigger] v@[i]).0 == 0,
        decreases size - k,
    {
        v.push(Data(0));
        k = k + 1;
    }
    v
}

/// The even indices below `n`, in increasing order.
pub fn evens(n: usize) -> (v: Vec<usize>)
    requires
        n < usize::MAX,
    ensures
        v@ == Seq::new(((n + 1) / 2) as nat, |i: int| (2 * i) as usize),
{
    let mut v: Vec<usize> = Vec::new();
    let mut i: usize = 0;
    while i < n
        invariant
            n < usize::MAX,
            i % 2 == 0,
            i <= n + 1,
            v@ == Seq::new((i / 2) as nat, |j: int| (2 * j) as usize),
        decreases n + 1 - i,
    {
        v.push(i);
        proof {
            assert(v@ =~= Seq::new(((i + 2) / 2) as nat, |j: int| (2 * j) as usize));
        }
        i = i + 2;
    }
    proof {
        assert((i / 2) == (n + 1) / 2);
    }
    v
}

/// The odd indices below `n`, in increasing order.
pub fn odds(n: usize) -> (v: Vec<usize>)
    ensures
        v@ == Seq::new((n / 2) as nat, |i: int| (2 * i + 1) as usize),
{
    let mut v: Vec<usize> = Vec::new();
    let mut i: usize = 1;
    while i < n
        invariant
            i % 2 == 1,
            i <= n + 1,
            v@ == Seq::new((i / 2) as nat, |j: int| (2 * j + 1) as usize),
        decreases n + 1 - i,
    {
        v.push(i);
        proof {
            assert(v@ =~= Seq::new(((i + 2) / 2) as nat, |j: int| (2 * j + 1) as usize));
        }
        i = i + 2;
    }
    proof {
        assert((i / 2) == n / 2);
    }
    v
}

} // verus!
