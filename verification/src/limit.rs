//! Daily usage limits per tag.
use vstd::prelude::*;

verus! {

/// A tag may be used for at most `max_duration_secs` seconds a day.
#[derive(Debug)]
pub struct LimitRule {
    pub id: i64,
    pub tag: String,
    pub max_duration_secs: i64,
}

impl Clone for LimitRule {
    fn clone(&self) -> (r: Self)
        ensures
            r == *self,
    {
        LimitRule { id: self.id, tag: self.tag.clone(), max_duration_secs: self.max_duration_secs }
    }
}

/// Whole minutes in `secs` seconds, rounded toward zero.
pub open spec fn whole_minutes(secs: int) -> int {
    if secs >= 0 {
        secs / 60
    } else {
        -((-secs) / 60)
    }
}

impl LimitRule {
    /// The limit in whole minutes, rounded toward zero (`max_duration_secs / 60`).
    pub fn max_minutes(&self) -> (m: i64)
        ensures
            m == whole_minutes(self.max_duration_secs as int),
    {
        let s = self.max_duration_secs as i128;
        let m: i128 = if s >= 0 {
            s / 60
        } else {
            -((-s) / 60)
        };
        m as i64
    }
}

} // verus!
