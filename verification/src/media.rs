//! Application-side media descriptors attached to manifests as labeled
//! custom data.

use vstd::prelude::*;
use crate::action::pairs_view;
use crate::clock::{now_clamped, MAX_RENDERED_TIMESTAMP};
use crate::text::{decimal_of, u64_to_decimal};

verus! {

/// A sample media descriptor: dimensions, a description, and the time it was
/// captured.
pub struct MediaData {
    pub n: usize,
    pub m: usize,
    pub desc: String,
    pub ts: u64,
}

impl MediaData {
    /// A descriptor stamped with the current time.
    pub fn new(n: usize, m: usize, desc: String) -> (r: MediaData)
        ensures
            r.n == n,
            r.m == m,
            r.desc@ == desc@,
            r.ts <= MAX_RENDERED_TIMESTAMP,
    {
        MediaData { n, m, desc, ts: now_clamped() }
    }

    /// The descriptor as key/value pairs, for a labeled custom assertion.
    pub fn to_fields(&self) -> (r: Vec<(String, String)>)
        ensures
            pairs_view(r@) =~= seq![
                ("n"@, decimal_of(self.n as nat)),
                ("m"@, decimal_of(self.m as nat)),
                ("desc"@, self.desc@),
                ("ts"@, decimal_of(self.ts as nat)),
            ],
    {
        let mut out: Vec<(String, String)> = Vec::new();
        out.push((String::from_str("n"), u64_to_decimal(self.n as u64)));
        out.push((String::from_str("m"), u64_to_decimal(self.m as u64)));
        out.push((String::from_str("desc"), self.desc.clone()));
        out.push((String::from_str("ts"), u64_to_decimal(self.ts)));
        proof {
            assert(pairs_view(out@) =~= seq![
                ("n"@, decimal_of(self.n as nat)),
                ("m"@, decimal_of(self.m as nat)),
                ("desc"@, self.desc@),
                ("ts"@, decimal_of(self.ts as nat)),
            ]);
        }
        out
    }
}

} // verus!
