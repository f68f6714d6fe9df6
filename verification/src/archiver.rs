//! The archival sweep as the scheduler calls it.
//!
//! A scheduler runs this on a fixed cadence; a failed run is reported as
//! a plain message so the caller can log it and keep the cadence.

use vstd::prelude::*;

use crate::ops_card::archive_sweep_post;
use crate::store::Store;

verus! {

/// One scheduled archival run: sweeps old cards and folds any failure
/// into a message, leaving the store untouched in that case.
pub fn run_archive(st: &mut Store) -> (r: Result<(), String>)
    requires
        old(st)@.wf(),
    ensures
        final(st)@.wf(),
        match r {
            Ok(_) => exists|cutoff: Seq<char>, now: Seq<char>, count: int|
                #[trigger] archive_sweep_post(old(st)@, final(st)@, cutoff, now, count),
            Err(msg) => final(st)@ == old(st)@ && msg@ == "Internal error: "@
                + "clock out of range"@,
        },
{
    match st.archive_old_cards() {
        Ok(res) => {
            proof {
                let (cutoff, now) = choose|cutoff: Seq<char>, now: Seq<char>|
                    #[trigger] archive_sweep_post(
                        old(st)@,
                        st@,
                        cutoff,
                        now,
                        res.archived_count as int,
                    );
                assert(archive_sweep_post(
                    old(st)@,
                    st@,
                    cutoff,
                    now,
                    res.archived_count as int,
                ));
            }
            Ok(())
        },
        Err(e) => Err(e.message()),
    }
}

} // verus!
