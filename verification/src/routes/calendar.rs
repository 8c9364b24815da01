use vstd::prelude::*;

verus! {

/// The month that the calendar page asks for.
pub struct CalendarParams {
    pub year: Option<i32>,
    pub month: Option<u32>,
}

impl Default for CalendarParams {
    /// No month asked for.
    fn default() -> (r: Self)
        ensures
            r.year is None,
            r.month is None,
    {
        CalendarParams { year: None, month: None }
    }
}

} // verus!
