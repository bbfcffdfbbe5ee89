use vstd::prelude::*;

verus! {

/// The tab that shows what the program has logged.
#[derive(Copy, Clone, Debug, PartialEq, Eq, Structural)]
pub struct LogsWidget;

impl LogsWidget {
    pub fn new() -> (res: Self)
        ensures
            res == LogsWidget,
    {
        LogsWidget
    }
}

} // verus!
