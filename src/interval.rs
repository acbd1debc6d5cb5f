use vstd::prelude::*;

verus! {

/// A closed span of time, in milliseconds since the epoch.
#[derive(Clone, Copy, Debug, PartialEq, Eq, Structural)]
pub struct Interval {
    pub since: u64,
    pub until: u64,
}

/// Some interval of `s` holds the point `t`, counted in half milliseconds, so
/// that the gap between two intervals that are a millisecond apart shows.
pub open spec fn covers(s: Seq<Interval>, t: int) -> bool {
    exists|i: int| 0 <= i < s.len() && 2 * (#[trigger] s[i]).since <= t <= 2 * s[i].until
}

/// No interval of `s` ends before it starts.
pub open spec fn well_formed(s: Seq<Interval>) -> bool {
    forall|i: int| 0 <= i < s.len() ==> (#[trigger] s[i]).since <= s[i].until
}

/// Some interval of `s` starts at `v`.
pub open spec fn has_since(s: Seq<Interval>, v: u64) -> bool {
    exists|i: int| 0 <= i < s.len() && (#[trigger] s[i]).since == v
}

/// Some interval of `s` ends at `v`.
pub open spec fn has_until(s: Seq<Interval>, v: u64) -> bool {
    exists|i: int| 0 <= i < s.len() && (#[trigger] s[i]).until == v
}

/// Ordered by start, and each ends before the next starts.
pub open spec fn separated(s: Seq<Interval>) -> bool {
    forall|k: int| 0 <= k < s.len() - 1 ==> (#[trigger] s[k]).until < s[k + 1].since && s[k].since <= s[k + 1].since
}

/// Relies on slice::sort_by_key: the same intervals, ordered by start.
#[verifier::external_body]
fn sort_by_since(v: &mut Vec<Interval>)
    ensures
        final(v)@.to_multiset() == old(v)@.to_multiset(),
        forall|i: int, j: int| 0 <= i < j < final(v)@.len() ==> final(v)@[i].since <= final(v)@[j].since,
{
    v.sort_by_key(|interval| interval.since)
}

impl Interval {
    /// The 2020-01-01 midnight UTC `since` and `until` seconds later.
    pub fn example(since: u32, until: u32) -> (r: Interval)
        ensures
            r.since == 1_577_836_800_000 + 1000 * since,
            r.until == 1_577_836_800_000 + 1000 * until,
    {
        Interval { since: 1_577_836_800_000 + 1000 * since as u64, until: 1_577_836_800_000 + 1000 * until as u64 }
    }

    /// Joins overlapping or touching intervals: the result holds the same
    /// instants, ordered and apart.
    pub fn merge(intervals: Vec<Interval>) -> (r: Vec<Interval>)
        ensures
            forall|t: int| covers(r@, t) <==> covers(intervals@, t),
            separated(r@),
            well_formed(intervals@) ==> well_formed(r@),
            forall|k: int|
                0 <= k < r@.len() ==> has_since(intervals@, (#[trigger] r@[k]).since) && has_until(
                    intervals@,
                    r@[k].until,
                ),
    {
        let ghost input = intervals@;
        let mut sorted = intervals;
        sort_by_since(&mut sorted);
        proof {
            input.to_multiset_ensures();
            sorted@.to_multiset_ensures();
            assert forall|t: int| covers(sorted@, t) <==> covers(input, t) by {
                if covers(sorted@, t) {
                    let i = choose|i: int| 0 <= i < sorted@.len() && 2 * (#[trigger] sorted@[i]).since <= t <= 2 * sorted@[i].until;
                    assert(sorted@.contains(sorted@[i]));
                    assert(sorted@.to_multiset().count(sorted@[i]) > 0);
                    assert(input.contains(sorted@[i]));
                }
                if covers(input, t) {
                    let i = choose|i: int| 0 <= i < input.len() && 2 * (#[trigger] input[i]).since <= t <= 2 * input[i].until;
                    assert(input.contains(input[i]));
                    assert(input.to_multiset().count(input[i]) > 0);
                    assert(sorted@.contains(input[i]));
                }
            }
        }
        proof {
            assert forall|x: Interval| sorted@.contains(x) implies input.contains(x) by {
                assert(sorted@.to_multiset().count(x) > 0);
            }
            if well_formed(input) {
                assert forall|i: int| 0 <= i < sorted@.len() implies (#[trigger] sorted@[i]).since <= sorted@[i].until by {
                    assert(sorted@.contains(sorted@[i]));
                    assert(input.contains(sorted@[i]));
                    let j = choose|j: int| 0 <= j < input.len() && input[j] == sorted@[i];
                    assert(input[j].since <= input[j].until);
                }
            }
        }
        let mut merged: Vec<Interval> = Vec::new();
        let mut i: usize = 0;
        while i < sorted.len()
            invariant
                0 <= i <= sorted.len(),
                forall|a: int, b: int| 0 <= a < b < sorted@.len() ==> sorted@[a].since <= sorted@[b].since,
                forall|t: int| covers(merged@, t) <==> covers(sorted@.take(i as int), t),
                separated(merged@),
                i > 0 ==> merged@.len() > 0,
                well_formed(input) ==> well_formed(sorted@),
                well_formed(sorted@) ==> well_formed(merged@),
                forall|k: int|
                    0 <= k < merged@.len() ==> has_since(sorted@, (#[trigger] merged@[k]).since) && has_until(
                        sorted@,
                        merged@[k].until,
                    ),
                merged@.len() > 0 ==> forall|j: int| i <= j < sorted@.len() ==> merged@.last().since <= sorted@[j].since,
            decreases sorted.len() - i,
        {
            let next = sorted[i];
            let ghost before = merged@;
            proof {
                assert(sorted@.take(i + 1) =~= sorted@.take(i as int).push(next));
                assert forall|t: int| covers(sorted@.take(i + 1), t) <==> (covers(sorted@.take(i as int), t) || (2 * next.since <= t <= 2 * next.until)) by {
                    let grown = sorted@.take(i + 1);
                    let prefix = sorted@.take(i as int);
                    if covers(grown, t) {
                        let k = choose|k: int| 0 <= k < grown.len() && 2 * (#[trigger] grown[k]).since <= t <= 2 * grown[k].until;
                        if k < i {
                            assert(prefix[k] == grown[k]);
                        }
                    }
                    if covers(prefix, t) {
                        let k = choose|k: int| 0 <= k < prefix.len() && 2 * (#[trigger] prefix[k]).since <= t <= 2 * prefix[k].until;
                        assert(grown[k] == prefix[k]);
                    }
                    if 2 * next.since <= t <= 2 * next.until {
                        assert(grown[i as int] == next);
                    }
                }
            }
            let n = merged.len();
            if n > 0 && merged[n - 1].until >= next.since {
                let last = merged[n - 1];
                let until = if last.until >= next.until {
                    last.until
                } else {
                    next.until
                };
                merged.set(n - 1, Interval { since: last.since, until });
                proof {
                    assert(has_until(sorted@, next.until)) by {
                        assert(sorted@[i as int].until == next.until);
                    }
                    assert forall|k: int| 0 <= k < merged@.len() implies has_since(sorted@, (#[trigger] merged@[k]).since)
                        && has_until(sorted@, merged@[k].until) by {
                        if k < n - 1 {
                            assert(merged@[k] == before[k]);
                        } else {
                            assert(before[n - 1] == last);
                        }
                    }
                    if well_formed(sorted@) {
                        assert forall|k: int| 0 <= k < merged@.len() implies (#[trigger] merged@[k]).since <= merged@[k].until by {
                            if k < n - 1 {
                                assert(merged@[k] == before[k]);
                            } else {
                                assert(before[n - 1] == last);
                            }
                        }
                    }
                    assert forall|t: int| covers(merged@, t) <==> (covers(before, t) || (2 * next.since <= t <= 2 * next.until)) by {
                        if covers(merged@, t) {
                            let k = choose|k: int| 0 <= k < merged@.len() && 2 * (#[trigger] merged@[k]).since <= t <= 2 * merged@[k].until;
                            if k < n - 1 {
                                assert(before[k] == merged@[k]);
                            } else if t <= 2 * last.until {
                                assert(before[n - 1] == last);
                            }
                        }
                        if covers(before, t) {
                            let k = choose|k: int| 0 <= k < before.len() && 2 * (#[trigger] before[k]).since <= t <= 2 * before[k].until;
                            if k < n - 1 {
                                assert(merged@[k] == before[k]);
                            } else {
                                assert(2 * merged@[n - 1].since <= t <= 2 * merged@[n - 1].until);
                            }
                        }
                        if 2 * next.since <= t <= 2 * next.until {
                            assert(last.since <= next.since);
                            assert(2 * merged@[n - 1].since <= t <= 2 * merged@[n - 1].until);
                        }
                    }
                    assert forall|k: int| 0 <= k < merged@.len() - 1 implies (#[trigger] merged@[k]).until < merged@[k + 1].since
                        && merged@[k].since <= merged@[k + 1].since by {
                        assert(merged@[k] == before[k]);
                        if k + 1 < n - 1 {
                            assert(merged@[k + 1] == before[k + 1]);
                        } else {
                            assert(before[k].until < before[k + 1].since);
                        }
                    }
                }
            } else {
                merged.push(next);
                proof {
                    assert(has_since(sorted@, next.since) && has_until(sorted@, next.until)) by {
                        assert(sorted@[i as int] == next);
                    }
                    assert forall|k: int| 0 <= k < merged@.len() implies has_since(sorted@, (#[trigger] merged@[k]).since)
                        && has_until(sorted@, merged@[k].until) by {
                        if k < n {
                            assert(merged@[k] == before[k]);
                        }
                    }
                    if well_formed(sorted@) {
                        assert(sorted@[i as int].since <= sorted@[i as int].until);
                        assert forall|k: int| 0 <= k < merged@.len() implies (#[trigger] merged@[k]).since <= merged@[k].until by {
                            if k < n {
                                assert(merged@[k] == before[k]);
                            }
                        }
                    }
                    assert forall|t: int| covers(merged@, t) <==> (covers(before, t) || (2 * next.since <= t <= 2 * next.until)) by {
                        if covers(merged@, t) {
                            let k = choose|k: int| 0 <= k < merged@.len() && 2 * (#[trigger] merged@[k]).since <= t <= 2 * merged@[k].until;
                            if k < n {
                                assert(before[k] == merged@[k]);
                            }
                        }
                        if covers(before, t) {
                            let k = choose|k: int| 0 <= k < before.len() && 2 * (#[trigger] before[k]).since <= t <= 2 * before[k].until;
                            assert(merged@[k] == before[k]);
                        }
                        if 2 * next.since <= t <= 2 * next.until {
                            assert(merged@[n as int] == next);
                        }
                    }
                    assert forall|k: int| 0 <= k < merged@.len() - 1 implies (#[trigger] merged@[k]).until < merged@[k + 1].since
                        && merged@[k].since <= merged@[k + 1].since by {
                        assert(merged@[k] == before[k]);
                        if k + 1 < n {
                            assert(merged@[k + 1] == before[k + 1]);
                        }
                    }
                }
            }
            proof {
                assert forall|t: int| covers(merged@, t) <==> covers(sorted@.take(i + 1), t) by {
                    assert(covers(before, t) <==> covers(sorted@.take(i as int), t));
                }
            }
            i += 1;
        }
        proof {
            assert(sorted@.take(i as int) =~= sorted@);
            assert forall|k: int| 0 <= k < merged@.len() implies has_since(input, (#[trigger] merged@[k]).since)
                && has_until(input, merged@[k].until) by {
                let a = choose|a: int| 0 <= a < sorted@.len() && (#[trigger] sorted@[a]).since == merged@[k].since;
                let b = choose|b: int| 0 <= b < sorted@.len() && (#[trigger] sorted@[b]).until == merged@[k].until;
                assert(sorted@.contains(sorted@[a]) && sorted@.contains(sorted@[b]));
                assert(input.contains(sorted@[a]) && input.contains(sorted@[b]));
                let ia = choose|ia: int| 0 <= ia < input.len() && input[ia] == sorted@[a];
                let ib = choose|ib: int| 0 <= ib < input.len() && input[ib] == sorted@[b];
                assert(input[ia].since == merged@[k].since);
                assert(input[ib].until == merged@[k].until);
            }
        }
        merged
    }
}

} // verus!
