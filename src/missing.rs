//! Summing data in which some values are missing.
use vstd::prelude::*;

verus! {

/// The sum of the present values of `data`; a missing value counts 0.
pub open spec fn present_total(data: Seq<Option<i32>>) -> int
    decreases data.len(),
{
    if data.len() == 0 {
        0
    } else {
        present_total(data.drop_last()) + match data.last() {
            Some(v) => v as int,
            None => 0int,
        }
    }
}

/// Every running total of `data`, from the left, fits in an `i32`.
pub open spec fn running_totals_fit(data: Seq<Option<i32>>) -> bool {
    forall|k: int|
        0 <= k <= data.len() ==> i32::MIN <= #[trigger] present_total(data.take(k)) <= i32::MAX
}

/// Sums the present values, counting a missing one as 0; the data is left as it was.
pub fn sum_missing_data(data: &mut Vec<Option<i32>>) -> (r: i32)
    requires
        running_totals_fit(old(data)@),
    ensures
        final(data)@ == old(data)@,
        r == present_total(old(data)@),
{
    let mut sum: i32 = 0;
    let mut i: usize = 0;
    while i < data.len()
        invariant
            i <= data@.len(),
            running_totals_fit(data@),
            sum == present_total(data@.take(i as int)),
        decreases data@.len() - i,
    {
        assert(data@.take(i as int + 1).drop_last() =~= data@.take(i as int));
        assert(i32::MIN <= present_total(data@.take(i as int + 1)) <= i32::MAX);
        let v: i32 = match data[i] {
            Some(v) => v,
            None => 0,
        };
        sum = sum + v;
        i = i + 1;
    }
    assert(data@.take(i as int) =~= data@);
    sum
}

} // verus!
