//! The sample library: recorded loops ordered by the engine speed they
//! were captured at.

use vstd::multiset::Multiset;
use vstd::prelude::*;
use vstd::seq_lib::{to_multiset_build, to_multiset_insert};

verus! {

/// One recorded engine loop.
pub struct LoopSample {
    /// Engine speed at which the loop was recorded.
    pub rpm: u32,
    /// Time constant of the loop's onset, in frames.
    pub attack: u64,
    /// The recording, one amplitude per frame.
    pub frames: Vec<i32>,
}

impl LoopSample {
    /// A loop can be played back when it has a speed to correct its pitch
    /// against and at least one frame to read.
    pub open spec fn playable(&self) -> bool {
        self.rpm > 0 && self.frames@.len() > 0
    }
}

/// Why a set of loops cannot serve as a library.
#[derive(Debug, Clone, Copy, PartialEq, Eq)]
pub enum ConfigError {
    /// No loop was given.
    EmptyLibrary,
    /// The loop at `index` is tagged with a speed of zero.
    ZeroRpm { index: usize },
    /// The loop at `index`, tagged `rpm`, holds no frames.
    EmptyLoop { index: usize, rpm: u32 },
    /// Two loops are tagged `rpm`.
    DuplicateRpm { rpm: u32 },
}

/// Every loop of `s` is playable.
pub open spec fn all_playable(s: Seq<LoopSample>) -> bool {
    forall|i: int| 0 <= i < s.len() ==> (#[trigger] s[i]).playable()
}

/// No two loops of `s` carry the same speed.
pub open spec fn distinct_rpm(s: Seq<LoopSample>) -> bool {
    forall|i: int, j: int| 0 <= i < j < s.len() ==> (#[trigger] s[i]).rpm != (#[trigger] s[j]).rpm
}

/// The loops of `s` stand in strictly rising order of speed.
pub open spec fn ascending(s: Seq<LoopSample>) -> bool {
    forall|i: int, j: int| 0 <= i < j < s.len() ==> (#[trigger] s[i]).rpm < (#[trigger] s[j]).rpm
}

/// What holds of the loops of every profile.
pub open spec fn valid_library(s: Seq<LoopSample>) -> bool {
    s.len() > 0 && all_playable(s) && ascending(s)
}

/// The loop at `j` repeats the speed of an earlier loop.
pub open spec fn repeats_earlier(s: Seq<LoopSample>, j: int) -> bool {
    exists|i: int| 0 <= i < j && (#[trigger] s[i]).rpm == s[j].rpm
}

/// The two library indices between which a speed falls.
#[derive(Debug, Clone, Copy, PartialEq, Eq)]
pub struct Bracket {
    pub low: usize,
    pub high: usize,
}

/// `low` and `high` are the loops that serve speed `rpm`: the nearest
/// single loop outside the library's range, else the neighbours around
/// `rpm`, the lower one being the last loop but one at most.
pub open spec fn brackets(s: Seq<LoopSample>, rpm: u32, low: int, high: int) -> bool {
    let n = s.len() as int;
    if n == 1 || rpm < s[0].rpm {
        low == 0 && high == 0
    } else if rpm > s[n - 1].rpm {
        low == n - 1 && high == n - 1
    } else {
        &&& 0 <= low
        &&& high == low + 1
        &&& high < n
        &&& s[low].rpm <= rpm
        &&& (rpm < s[high].rpm || (high == n - 1 && rpm == s[high].rpm))
    }
}

/// The bracket of speed `rpm` in the library `s`.
pub open spec fn bracket_of(s: Seq<LoopSample>, rpm: u32) -> Bracket {
    choose|b: Bracket| brackets(s, rpm, b.low as int, b.high as int)
}

/// A library of loops in rising order of speed, with the idle speed and the
/// time constant that govern a voice built on it.
pub struct EngineProfile {
    base_rpm: u32,
    smoothing: u64,
    entries: Vec<LoopSample>,
}

impl EngineProfile {
    #[verifier::type_invariant]
    spec fn well_formed(&self) -> bool {
        valid_library(self.entries@)
    }

    /// The loops, lowest speed first.
    pub closed spec fn loops(&self) -> Seq<LoopSample> {
        self.entries@
    }

    /// The idle speed.
    pub closed spec fn idle(&self) -> u32 {
        self.base_rpm
    }

    /// The time constant of the speed smoothing, in frames.
    pub closed spec fn time_constant(&self) -> u64 {
        self.smoothing
    }

    /// Orders `entries` by speed into a profile.
    ///
    /// Fails on an empty set, on the first loop that is not playable, and
    /// on the first loop that repeats the speed of an earlier one.
    pub fn build(base_rpm: u32, smoothing: u64, entries: Vec<LoopSample>) -> (r: Result<
        EngineProfile,
        ConfigError,
    >)
        ensures
            r is Ok <==> entries@.len() > 0 && all_playable(entries@) && distinct_rpm(entries@),
            r matches Ok(p) ==> {
                &&& p.idle() == base_rpm
                &&& p.time_constant() == smoothing
                &&& valid_library(p.loops())
                &&& p.loops().to_multiset() == entries@.to_multiset()
            },
            r == Err::<EngineProfile, ConfigError>(ConfigError::EmptyLibrary) <==> entries@.len()
                == 0,
            r matches Err(ConfigError::ZeroRpm { index }) ==> {
                &&& index < entries@.len()
                &&& entries@[index as int].rpm == 0
                &&& all_playable(entries@.take(index as int))
            },
            r matches Err(ConfigError::EmptyLoop { index, rpm }) ==> {
                &&& index < entries@.len()
                &&& entries@[index as int].rpm == rpm
                &&& rpm > 0
                &&& entries@[index as int].frames@.len() == 0
                &&& all_playable(entries@.take(index as int))
            },
            r matches Err(ConfigError::DuplicateRpm { rpm }) ==> {
                &&& all_playable(entries@)
                &&& exists|j: int|
                    0 <= j < entries@.len() && #[trigger] repeats_earlier(entries@, j)
                        && entries@[j].rpm == rpm && distinct_rpm(entries@.take(j))
            },
    {
        let n = entries.len();
        if n == 0 {
            return Err(ConfigError::EmptyLibrary);
        }
        let mut i: usize = 0;
        while i < n
            invariant
                n == entries@.len(),
                i <= n,
                all_playable(entries@.take(i as int)),
            decreases n - i,
        {
            if entries[i].rpm == 0 {
                return Err(ConfigError::ZeroRpm { index: i });
            }
            if entries[i].frames.len() == 0 {
                return Err(ConfigError::EmptyLoop { index: i, rpm: entries[i].rpm });
            }
            assert forall|k: int| 0 <= k < i + 1 implies (#[trigger] entries@.take(
                i + 1,
            )[k]).playable() by {
                if k < i {
                    assert(entries@.take(i as int)[k].playable());
                }
            }
            i += 1;
        }
        assert(entries@.take(n as int) =~= entries@);
        let mut j: usize = 1;
        while j < n
            invariant
                n == entries@.len(),
                1 <= j <= n,
                all_playable(entries@),
                distinct_rpm(entries@.take(j as int)),
            decreases n - j,
        {
            let mut k: usize = 0;
            while k < j
                invariant
                    n == entries@.len(),
                    k <= j < n,
                    all_playable(entries@),
                    distinct_rpm(entries@.take(j as int)),
                    forall|a: int| 0 <= a < k ==> (#[trigger] entries@[a]).rpm != entries@[j as int].rpm,
                decreases j - k,
            {
                if entries[k].rpm == entries[j].rpm {
                    assert(repeats_earlier(entries@, j as int));
                    return Err(ConfigError::DuplicateRpm { rpm: entries[j].rpm });
                }
                k += 1;
            }
            assert forall|a: int, b: int| 0 <= a < b < j + 1 implies (#[trigger] entries@.take(
                j + 1,
            )[a]).rpm != (#[trigger] entries@.take(j + 1)[b]).rpm by {
                if b < j {
                    assert(entries@.take(j as int)[a].rpm != entries@.take(j as int)[b].rpm);
                }
            }
            j += 1;
        }
        assert(entries@.take(n as int) =~= entries@);
        let sorted = sort_by_rpm(entries);
        Ok(EngineProfile { base_rpm, smoothing, entries: sorted })
    }

    /// The idle speed.
    pub fn base_rpm(&self) -> (r: u32)
        ensures
            r == self.idle(),
    {
        self.base_rpm
    }

    /// The time constant of the speed smoothing, in frames.
    pub fn smoothing(&self) -> (r: u64)
        ensures
            r == self.time_constant(),
    {
        self.smoothing
    }

    /// The number of loops, which is never zero.
    pub fn len(&self) -> (n: usize)
        ensures
            n == self.loops().len(),
            valid_library(self.loops()),
    {
        proof {
            use_type_invariant(self);
        }
        self.entries.len()
    }

    /// The loop at `index`, counted from the lowest speed.
    pub fn loop_at(&self, index: usize) -> (l: &LoopSample)
        requires
            index < self.loops().len(),
        ensures
            *l == self.loops()[index as int],
            l.playable(),
    {
        proof {
            use_type_invariant(self);
        }
        &self.entries[index]
    }

    /// The loops that serve speed `rpm`.
    ///
    /// Inside the library's range the two speeds found enclose `rpm`;
    /// outside it both indices name the nearest loop.
    pub fn bracket(&self, rpm: u32) -> (b: Bracket)
        ensures
            brackets(self.loops(), rpm, b.low as int, b.high as int),
            b == bracket_of(self.loops(), rpm),
            b.low <= b.high < self.loops().len(),
            self.loops()[0].rpm <= rpm <= self.loops()[self.loops().len() - 1].rpm
                ==> self.loops()[b.low as int].rpm <= rpm <= self.loops()[b.high as int].rpm,
    {
        let b = self.find_bracket(rpm);
        proof {
            use_type_invariant(self);
            lemma_bracket_unique(self.loops(), rpm, b, bracket_of(self.loops(), rpm));
        }
        b
    }

    fn find_bracket(&self, rpm: u32) -> (b: Bracket)
        ensures
            brackets(self.loops(), rpm, b.low as int, b.high as int),
            b.low <= b.high < self.loops().len(),
            self.loops()[0].rpm <= rpm <= self.loops()[self.loops().len() - 1].rpm
                ==> self.loops()[b.low as int].rpm <= rpm <= self.loops()[b.high as int].rpm,
    {
        proof {
            use_type_invariant(self);
        }
        let n = self.entries.len();
        if n == 1 || rpm < self.entries[0].rpm {
            return Bracket { low: 0, high: 0 };
        }
        if rpm > self.entries[n - 1].rpm {
            return Bracket { low: n - 1, high: n - 1 };
        }
        let mut lo: usize = 0;
        let mut hi: usize = n - 1;
        while hi - lo > 1
            invariant
                n == self.entries@.len(),
                ascending(self.entries@),
                lo < hi < n,
                self.entries@[lo as int].rpm <= rpm,
                rpm < self.entries@[hi as int].rpm || (hi == n - 1 && rpm
                    == self.entries@[hi as int].rpm),
            decreases hi - lo,
        {
            let mid = lo + (hi - lo) / 2;
            if self.entries[mid].rpm <= rpm {
                lo = mid;
            } else {
                hi = mid;
            }
        }
        Bracket { low: lo, high: hi }
    }
}

/// Below a loop that lies above `rpm` stands a neighbour pair around `rpm`.
proof fn lemma_scan_down(s: Seq<LoopSample>, rpm: u32, high: int)
    requires
        valid_library(s),
        s.len() <= usize::MAX,
        s[0].rpm <= rpm,
        1 <= high < s.len(),
        rpm < s[high].rpm || (high == s.len() - 1 && rpm == s[high].rpm),
    ensures
        exists|b: Bracket|
            b.high == b.low + 1 && b.high < s.len() && s[b.low as int].rpm <= rpm && (rpm
                < s[b.high as int].rpm || (b.high == s.len() - 1 && rpm == s[b.high as int].rpm)),
    decreases high,
{
    if s[high - 1].rpm <= rpm {
        let b = Bracket { low: (high - 1) as usize, high: high as usize };
        assert(b.high == b.low + 1 && b.high < s.len() && s[b.low as int].rpm <= rpm && (rpm
            < s[b.high as int].rpm || (b.high == s.len() - 1 && rpm == s[b.high as int].rpm)));
    } else {
        lemma_scan_down(s, rpm, high - 1);
    }
}

/// Every speed has its bracket in a valid library.
pub proof fn lemma_bracket_exists(s: Seq<LoopSample>, rpm: u32)
    requires
        valid_library(s),
        s.len() <= usize::MAX,
    ensures
        brackets(s, rpm, bracket_of(s, rpm).low as int, bracket_of(s, rpm).high as int),
        bracket_of(s, rpm).low <= bracket_of(s, rpm).high < s.len(),
{
    let n = s.len() as int;
    if n == 1 || rpm < s[0].rpm {
        let b = Bracket { low: 0, high: 0 };
        assert(brackets(s, rpm, b.low as int, b.high as int));
    } else if rpm > s[n - 1].rpm {
        let b = Bracket { low: (n - 1) as usize, high: (n - 1) as usize };
        assert(brackets(s, rpm, b.low as int, b.high as int));
    } else {
        lemma_scan_down(s, rpm, n - 1);
        let b = choose|b: Bracket|
            b.high == b.low + 1 && b.high < s.len() && s[b.low as int].rpm <= rpm && (rpm
                < s[b.high as int].rpm || (b.high == s.len() - 1 && rpm == s[b.high as int].rpm));
        assert(brackets(s, rpm, b.low as int, b.high as int));
    }
}

/// At most one pair of indices brackets a speed in a valid library.
pub proof fn lemma_bracket_unique(s: Seq<LoopSample>, rpm: u32, a: Bracket, b: Bracket)
    requires
        valid_library(s),
        brackets(s, rpm, a.low as int, a.high as int),
        brackets(s, rpm, b.low as int, b.high as int),
    ensures
        a == b,
{
    let n = s.len() as int;
    if n == 1 || rpm < s[0].rpm {
    } else if rpm > s[n - 1].rpm {
    } else {
        if a.low < b.low {
            assert(s[a.high as int].rpm <= s[b.low as int].rpm) by {
                if a.high < b.low {
                    assert(s[a.high as int].rpm < s[b.low as int].rpm);
                }
            }
            assert(a.high < n - 1);
        } else if b.low < a.low {
            assert(s[b.high as int].rpm <= s[a.low as int].rpm) by {
                if b.high < a.low {
                    assert(s[b.high as int].rpm < s[a.low as int].rpm);
                }
            }
            assert(b.high < n - 1);
        }
    }
}

/// An empty sequence holds nothing.
proof fn lemma_nothing_held(s: Seq<LoopSample>)
    requires
        s.len() == 0,
    ensures
        s.to_multiset() == Multiset::<LoopSample>::empty(),
{
    s.to_multiset_ensures();
    assert forall|x: LoopSample| s.to_multiset().count(x) == 0 by {
        assert(!s.contains(x));
    }
    assert(s.to_multiset() =~= Multiset::<LoopSample>::empty());
}

/// Orders loops of distinct speeds by rising speed.
fn sort_by_rpm(entries: Vec<LoopSample>) -> (sorted: Vec<LoopSample>)
    requires
        distinct_rpm(entries@),
        all_playable(entries@),
    ensures
        ascending(sorted@),
        all_playable(sorted@),
        sorted@.len() == entries@.len(),
        sorted@.to_multiset() == entries@.to_multiset(),
{
    let ghost orig = entries@;
    let mut rest = entries;
    let mut sorted: Vec<LoopSample> = Vec::new();
    let ghost mut origin: Seq<int> = Seq::empty();
    proof {
        assert(orig.take(orig.len() as int) =~= orig);
        lemma_nothing_held(sorted@);
        assert(sorted@.to_multiset().add(orig.to_multiset()) =~= orig.to_multiset());
    }
    while rest.len() > 0
        invariant
            distinct_rpm(orig),
            all_playable(orig),
            rest@.len() <= orig.len(),
            rest@ == orig.take(rest@.len() as int),
            sorted@.len() + rest@.len() == orig.len(),
            origin.len() == sorted@.len(),
            forall|k: int|
                0 <= k < sorted@.len() ==> rest@.len() <= #[trigger] origin[k] < orig.len()
                    && sorted@[k] == orig[origin[k]],
            forall|a: int, b: int|
                0 <= a < b < sorted@.len() ==> #[trigger] origin[a] != #[trigger] origin[b],
            ascending(sorted@),
            sorted@.to_multiset().add(rest@.to_multiset()) == orig.to_multiset(),
        decreases rest@.len(),
    {
        let ghost before = rest@;
        let ghost m = rest@.len() - 1;
        let item = rest.pop().unwrap();
        assert(item == orig[m]);
        assert(rest@ =~= orig.take(m));
        let mut at: usize = 0;
        while at < sorted.len() && sorted[at].rpm < item.rpm
            invariant
                at <= sorted@.len(),
                forall|k: int| 0 <= k < at ==> (#[trigger] sorted@[k]).rpm < item.rpm,
            decreases sorted@.len() - at,
        {
            at += 1;
        }
        let ghost old_sorted = sorted@;
        let ghost old_origin = origin;
        sorted.insert(at, item);
        proof {
            origin = origin.insert(at as int, m);
            old_sorted.insert_ensures(at as int, item);
            old_origin.insert_ensures(at as int, m);
            to_multiset_insert(old_sorted, at as int, item);
            assert(before =~= rest@.push(item));
            to_multiset_build(rest@, item);
            assert(sorted@.to_multiset().add(rest@.to_multiset()) =~= old_sorted.to_multiset().add(
                before.to_multiset(),
            ));
            assert forall|k: int| 0 <= k < sorted@.len() implies rest@.len() <= #[trigger] origin[k]
                < orig.len() && sorted@[k] == orig[origin[k]] by {
                if k < at {
                    assert(origin[k] == old_origin[k]);
                } else if k > at {
                    assert(origin[k] == old_origin[k - 1]);
                    assert(sorted@[k] == old_sorted[k - 1]);
                }
            }
            assert forall|a: int, b: int| 0 <= a < b < sorted@.len() implies #[trigger] origin[a]
                != #[trigger] origin[b] by {
                let oa = if a < at { a } else { a - 1 };
                let ob = if b < at { b } else { b - 1 };
                if a != at && b != at {
                    assert(origin[a] == old_origin[oa]);
                    assert(origin[b] == old_origin[ob]);
                } else if a == at {
                    assert(origin[b] == old_origin[ob]);
                } else {
                    assert(origin[a] == old_origin[oa]);
                }
            }
            assert forall|a: int, b: int| 0 <= a < b < sorted@.len() implies (#[trigger] sorted@[a]).rpm
                < (#[trigger] sorted@[b]).rpm by {
                let oa = if a < at { a } else { a - 1 };
                let ob = if b < at { b } else { b - 1 };
                if a != at && b != at {
                    assert(sorted@[a] == old_sorted[oa]);
                    assert(sorted@[b] == old_sorted[ob]);
                } else if a == at {
                    assert(sorted@[b] == old_sorted[ob]);
                    assert(old_sorted[at as int].rpm >= item.rpm);
                    assert(old_sorted[at as int] == orig[old_origin[at as int]]);
                    assert(old_origin[at as int] != m);
                    if at as int != ob {
                        assert(old_sorted[at as int].rpm < old_sorted[ob].rpm);
                    }
                } else {
                    assert(sorted@[a] == old_sorted[oa]);
                }
            }
        }
    }
    proof {
        assert(rest@ =~= Seq::<LoopSample>::empty());
        lemma_nothing_held(rest@);
        assert(sorted@.to_multiset().add(rest@.to_multiset()) =~= sorted@.to_multiset());
        assert forall|k: int| 0 <= k < sorted@.len() implies (#[trigger] sorted@[k]).playable() by {
            assert(sorted@[k] == orig[origin[k]]);
        }
    }
    sorted
}

} // verus!
