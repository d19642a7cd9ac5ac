//! The observation table and the run parameters: what a run accepts.

use vstd::prelude::*;

verus! {

/// Why a run was refused before it began.
#[derive(Debug, Clone, Copy, PartialEq, Eq, Structural)]
pub enum InvalidInput {
    /// The table has no series at all, so there is no price series.
    EmptyTable,
    /// Some series is longer or shorter than the price series.
    RaggedRows,
    /// The table has more bars than a bar index can number.
    TooManyBars,
    /// The initial capital is negative.
    NegativeCapital,
    /// The trade size is zero or negative.
    NonPositiveTradeSize,
}

/// Every series of the table has as many bars as the first.
pub open spec fn rectangular<P>(values: Seq<Vec<P>>) -> bool {
    forall|i: int| 0 <= i < values.len() ==> (#[trigger] values[i]).len() == values[0].len()
}

/// The price series of a table: its first series, by which positions are valued. Its length
/// is the number of bars of the run.
pub open spec fn price_series<P>(values: Seq<Vec<P>>) -> Seq<P> {
    if values.len() == 0 {
        Seq::empty()
    } else {
        values[0]@
    }
}

/// The first reason, if any, for which a run over `values` with `holding` as its initial
/// capital and `amt` as its trade size is refused. The table is looked at first, then the
/// capital, then the trade size.
pub open spec fn input_fault<P>(values: Seq<Vec<P>>, holding: int, amt: int) -> Option<
    InvalidInput,
> {
    if values.len() == 0 {
        Some(InvalidInput::EmptyTable)
    } else if !rectangular(values) {
        Some(InvalidInput::RaggedRows)
    } else if values[0].len() > i32::MAX {
        Some(InvalidInput::TooManyBars)
    } else if holding < 0 {
        Some(InvalidInput::NegativeCapital)
    } else if amt <= 0 {
        Some(InvalidInput::NonPositiveTradeSize)
    } else {
        None
    }
}

/// The first element of `v`, if it has one.
pub fn first<T>(v: &Vec<T>) -> (r: Option<&T>)
    ensures
        v.len() == 0 ==> r is None,
        v.len() > 0 ==> r == Some(&v[0]),
{
    v.first()
}

/// Tells whether every series of `values` has `bars` bars.
fn all_rows_have<P>(values: &Vec<Vec<P>>, bars: usize) -> (b: bool)
    ensures
        b == (forall|i: int| 0 <= i < values.len() ==> (#[trigger] values[i]).len() == bars),
{
    let mut i: usize = 0;
    while i < values.len()
        invariant
            i <= values.len(),
            forall|j: int| 0 <= j < i ==> (#[trigger] values[j]).len() == bars,
        decreases values.len() - i,
    {
        if values[i].len() != bars {
            return false;
        }
        i = i + 1;
    }
    true
}

/// Accepts or refuses the inputs of a run, before anything is simulated.
pub fn check_input<P>(values: &Vec<Vec<P>>, holding: i32, amt: i32) -> (r: Result<
    (),
    InvalidInput,
>)
    ensures
        r == match input_fault(values@, holding as int, amt as int) {
            Some(e) => Err::<(), InvalidInput>(e),
            None => Ok(()),
        },
{
    match first(values) {
        None => Err(InvalidInput::EmptyTable),
        Some(prices) => {
            if !all_rows_have(values, prices.len()) {
                Err(InvalidInput::RaggedRows)
            } else if prices.len() > 0x7fff_ffff {
                Err(InvalidInput::TooManyBars)
            } else if holding < 0 {
                Err(InvalidInput::NegativeCapital)
            } else if amt <= 0 {
                Err(InvalidInput::NonPositiveTradeSize)
            } else {
                Ok(())
            }
        },
    }
}

} // verus!
