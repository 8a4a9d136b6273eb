//! Sample input: a block of rising byte runs, to be written out as often as
//! a demonstration wants.

use vstd::prelude::*;

verus! {

/// The number of runs in a block.
pub const RUNS: u8 = 15;

/// The bytes `0, 1, ..` up to and without `n`.
pub open spec fn ramp(n: nat) -> Seq<u8> {
    Seq::new(n, |k: int| k as u8)
}

/// Run `i` of a block: the bytes from 0 to `i`, and one more 0 behind them
/// where `i` is even.
pub open spec fn run(i: nat) -> Seq<u8> {
    if i % 2 == 0 {
        ramp(i + 1).push(0)
    } else {
        ramp(i + 1)
    }
}

/// The runs 1 to `n`, one after the other.
pub open spec fn block(n: nat) -> Seq<u8>
    decreases n,
{
    if n == 0 {
        Seq::empty()
    } else {
        block((n - 1) as nat) + run(n)
    }
}

/// The bytes of one block: the runs 1 to 15.
pub fn single_iteration_data() -> (data: Vec<u8>)
    ensures
        data@ == block(RUNS as nat),
{
    let mut data: Vec<u8> = Vec::new();
    let mut i: u8 = 1;
    while i <= RUNS
        invariant
            1 <= i <= RUNS + 1,
            data@ == block((i - 1) as nat),
        decreases RUNS + 1 - i,
    {
        let ghost before = data@;
        let mut k: u8 = 0;
        while k <= i
            invariant
                1 <= i <= RUNS,
                k <= i + 1,
                data@ == before + ramp(k as nat),
            decreases i + 1 - k,
        {
            data.push(k);
            assert(data@ =~= before + ramp((k + 1) as nat));
            k = k + 1;
        }
        if i % 2 == 0 {
            data.push(0);
        }
        assert(data@ =~= before + run(i as nat));
        i = i + 1;
    }
    data
}

} // verus!
