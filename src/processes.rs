use vstd::prelude::*;
use fixedbitset::FixedBitSet;
use crate::bits::{bits, effective_blocked, should_block_mask};
use crate::lookups::{Lookups, lists, texts};
use crate::time::{Moment, clamp_u64};

verus! {

/// How often processes are scanned when the configuration does not say.
pub const DEFAULT_SCAN_EACH_SECS: u64 = 10;

/// Scans the declared process names for ones to kill.
pub struct Processes<'a> {
    pub lookups: &'a Lookups<'a>,
    pub when_last_scan: u64,
}

impl<'a> Processes<'a> {
    pub fn new(lookups: &'a Lookups<'a>, now: &Moment) -> (r: Self)
        ensures
            r.lookups == lookups,
            r.when_last_scan == now.millis,
    {
        Processes { lookups, when_last_scan: now.millis }
    }

    /// The next scan is due one scan period after the last.
    pub fn when_reload(&self) -> (r: Option<u64>)
        ensures
            r == Some(clamp_u64(self.when_last_scan + self.lookups.config.processes_scan_each.spec_millis())),
    {
        Some(self.when_last_scan.saturating_add(self.lookups.config.processes_scan_each.millis()))
    }

    /// The declared process names whose categories are effectively blocked,
    /// each once; they are to be killed.
    pub fn rescan(&mut self, blocked: &FixedBitSet, unblocked: &FixedBitSet, now: &Moment) -> (r: Vec<String>)
        requires
            old(self).lookups.wf(),
        ensures
            final(self).lookups == old(self).lookups,
            final(self).when_last_scan == now.millis,
            texts(r@).no_duplicates(),
            forall|p: Seq<char>|
                #[trigger] lists(r@, p) <==> lists(old(self).lookups.process@, p) && effective_blocked(
                    old(self).lookups.process_categories(p),
                    bits(*blocked),
                    bits(*unblocked),
                ),
    {
        let lookups = self.lookups;
        let names = &lookups.process;
        let mut out: Vec<String> = Vec::new();
        let mut i: usize = 0;
        while i < names.len()
            invariant
                lookups.wf(),
                names == &lookups.process,
                0 <= i <= names.len(),
                texts(out@).no_duplicates(),
                forall|p: Seq<char>|
                    #[trigger] lists(out@, p) <==> lists(names@.take(i as int), p) && effective_blocked(
                        lookups.process_categories(p),
                        bits(*blocked),
                        bits(*unblocked),
                    ),
            decreases names.len() - i,
        {
            let mask = lookups.process_to_mask(names[i].as_str());
            let ghost before = out@;
            let ghost p0 = names@[i as int]@;
            if should_block_mask(&mask, blocked, unblocked) {
                out.push(names[i].clone());
                proof {
                    assert forall|a: int, b: int| 0 <= a < b < texts(out@).len() implies texts(out@)[a] != texts(out@)[b] by {
                        if b == before.len() {
                            assert(texts(before)[a] == texts(out@)[a]);
                            assert(texts(out@)[b] == p0);
                            if texts(out@)[a] == p0 {
                                assert(before[a]@ == p0);
                                assert(lists(before, p0));
                                let k = choose|k: int| 0 <= k < i && (#[trigger] names@.take(i as int)[k])@ == p0;
                                assert(names@.take(i as int)[k] == names@[k]);
                                assert(lookups.process@[k]@ != lookups.process@[i as int]@);
                            }
                        } else {
                            assert(texts(before)[a] == texts(out@)[a]);
                            assert(texts(before)[b] == texts(out@)[b]);
                        }
                    }
                }
            }
            proof {
                assert forall|p: Seq<char>|
                    #[trigger] lists(names@.take(i + 1), p) == (lists(names@.take(i as int), p) || p == p0) by {
                    if lists(names@.take(i + 1), p) {
                        let k = choose|k: int| 0 <= k < i + 1 && (#[trigger] names@.take(i + 1)[k])@ == p;
                        if k < i {
                            assert(names@.take(i as int)[k] == names@.take(i + 1)[k]);
                        }
                    }
                    if lists(names@.take(i as int), p) {
                        let k = choose|k: int| 0 <= k < i && (#[trigger] names@.take(i as int)[k])@ == p;
                        assert(names@.take(i + 1)[k] == names@.take(i as int)[k]);
                    }
                    if p == p0 {
                        assert(names@.take(i + 1)[i as int] == names@[i as int]);
                    }
                }
                assert forall|p: Seq<char>| #[trigger] lists(out@, p) == (lists(before, p) || (p == p0 && effective_blocked(
                    lookups.process_categories(p),
                    bits(*blocked),
                    bits(*unblocked),
                ))) by {
                    if lists(out@, p) {
                        let k = choose|k: int| 0 <= k < out@.len() && (#[trigger] out@[k])@ == p;
                        if k < before.len() {
                            assert(before[k] == out@[k]);
                        }
                    }
                    if lists(before, p) {
                        let k = choose|k: int| 0 <= k < before.len() && (#[trigger] before[k])@ == p;
                        assert(out@[k] == before[k]);
                    }
                    if p == p0 && effective_blocked(lookups.process_categories(p), bits(*blocked), bits(*unblocked)) {
                        assert(out@[before.len() as int]@ == p);
                    }
                }
            }
            i += 1;
        }
        assert(names@.take(i as int) =~= names@);
        self.when_last_scan = now.millis;
        out
    }
}

} // verus!
