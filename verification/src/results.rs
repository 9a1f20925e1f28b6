//! Per-worker benchmark results, their order-independent merge, and the
//! statistics derived from a merged round result.
//!
//! All times are whole nanoseconds, all transfer sizes whole bytes, so that
//! every statistic has an exact integer meaning.

use vstd::prelude::*;
use vstd::multiset::Multiset;
use vstd::seq_lib::lemma_multiset_commutative;

verus! {

/// Addition on `u64` counters that sticks at `u64::MAX` instead of wrapping.
pub open spec fn sat_add_spec(a: int, b: int) -> int {
    if a + b <= u64::MAX { a + b } else { u64::MAX as int }
}

/// Saturating counter addition; error counts use this so that merging can
/// never overflow.
pub fn sat_add(a: u64, b: u64) -> (r: u64)
    ensures
        r == sat_add_spec(a as int, b as int),
{
    if a <= u64::MAX - b {
        a + b
    } else {
        u64::MAX
    }
}

/// Sum of a sequence of byte or nanosecond counts, as an unbounded integer.
pub open spec fn seq_total(s: Seq<u64>) -> int
    decreases s.len(),
{
    if s.len() == 0 {
        0
    } else {
        seq_total(s.drop_last()) + s.last()
    }
}

pub proof fn lemma_seq_total_bounds(s: Seq<u64>)
    ensures
        0 <= seq_total(s) <= s.len() * (u64::MAX as int),
    decreases s.len(),
{
    if s.len() > 0 {
        lemma_seq_total_bounds(s.drop_last());
    }
}

/// A deduplicated tally of error messages: each distinct message appears in
/// exactly one entry, paired with the number of failed request attempts that
/// produced it.
pub struct ErrorTally {
    pub entries: Vec<(String, u64)>,
}

/// How many occurrences the entries record for the message `k`, summed over
/// every entry that carries it.
pub open spec fn tally_count(entries: Seq<(String, u64)>, k: Seq<char>) -> int
    decreases entries.len(),
{
    if entries.len() == 0 {
        0
    } else {
        tally_count(entries.drop_last(), k) + (if entries.last().0@ == k {
            entries.last().1 as int
        } else {
            0
        })
    }
}

pub proof fn lemma_tally_count_nonneg(entries: Seq<(String, u64)>, k: Seq<char>)
    ensures
        0 <= tally_count(entries, k),
    decreases entries.len(),
{
    if entries.len() > 0 {
        lemma_tally_count_nonneg(entries.drop_last(), k);
    }
}

impl ErrorTally {
    /// Well-formed: one entry per distinct message, every count positive.
    pub open spec fn wf(&self) -> bool {
        &&& forall|i: int, j: int|
            0 <= i < j < self.entries@.len() ==> self.entries@[i].0@ != self.entries@[j].0@
        &&& forall|i: int| 0 <= i < self.entries@.len() ==> self.entries@[i].1 >= 1
    }

    pub open spec fn spec_count(&self, k: Seq<char>) -> int {
        tally_count(self.entries@, k)
    }

    pub fn new() -> (r: ErrorTally)
        ensures
            r.wf(),
            forall|k: Seq<char>| r.spec_count(k) == 0,
    {
        let r = ErrorTally { entries: Vec::new() };
        proof {
            assert forall|k: Seq<char>| r.spec_count(k) == 0 by {
                assert(r.entries@.len() == 0);
            }
        }
        r
    }

    /// Record `n` further occurrences of `message`, saturating at `u64::MAX`.
    pub fn add_count(&mut self, message: String, n: u64)
        requires
            old(self).wf(),
            n >= 1,
        ensures
            final(self).wf(),
            final(self).spec_count(message@) == sat_add_spec(old(self).spec_count(message@), n as int),
            forall|k: Seq<char>|
                k != message@ ==> final(self).spec_count(k) == old(self).spec_count(k),
    {
        let ghost entries0 = self.entries@;
        let len = self.entries.len();
        let mut i: usize = 0;
        while i < len
            invariant
                old(self).wf(),
                len == self.entries@.len(),
                self.entries@ == entries0,
                entries0 == old(self).entries@,
                n >= 1,
                i <= len,
                forall|j: int| 0 <= j < i ==> self.entries@[j].0@ != message@,
            decreases len - i,
        {
            if self.entries[i].0 == message {
                let count = self.entries[i].1;
                let updated = sat_add(count, n);
                self.entries[i].1 = updated;
                proof {
                    let e1 = self.entries@;
                    assert(e1 == entries0.update(i as int, (entries0[i as int].0, updated)));
                    lemma_tally_update(entries0, i as int, updated, message@);
                    assert forall|k: Seq<char>| k != message@ implies tally_count(e1, k)
                        == tally_count(entries0, k) by {
                        lemma_tally_update_other(entries0, i as int, updated, k);
                    }
                    lemma_tally_distinct_at(entries0, i as int);
                }
                return ;
            }
            i += 1;
        }
        proof {
            lemma_tally_absent(entries0, message@);
        }
        self.entries.push((message, n));
        proof {
            let e1 = self.entries@;
            assert(e1.drop_last() =~= entries0);
            assert forall|k: Seq<char>| k != e1.last().0@ implies tally_count(e1, k)
                == tally_count(entries0, k) by {}
        }
    }

    /// Record one further occurrence of `message`.
    pub fn add_error(&mut self, message: String)
        requires
            old(self).wf(),
        ensures
            final(self).wf(),
            final(self).spec_count(message@) == sat_add_spec(old(self).spec_count(message@), 1),
            forall|k: Seq<char>|
                k != message@ ==> final(self).spec_count(k) == old(self).spec_count(k),
    {
        self.add_count(message, 1);
    }

    /// How many occurrences are recorded for `message`.
    pub fn count_of(&self, message: &String) -> (r: u64)
        requires
            self.wf(),
        ensures
            r == self.spec_count(message@),
    {
        let len = self.entries.len();
        let mut i: usize = 0;
        while i < len
            invariant
                self.wf(),
                len == self.entries@.len(),
                i <= len,
                forall|j: int| 0 <= j < i ==> self.entries@[j].0@ != message@,
            decreases len - i,
        {
            if self.entries[i].0 == *message {
                proof {
                    lemma_tally_distinct_at(self.entries@, i as int);
                }
                return self.entries[i].1;
            }
            i += 1;
        }
        proof {
            lemma_tally_absent(self.entries@, message@);
        }
        0
    }
}

/// With no entry carrying `k`, the tally for `k` is zero.
proof fn lemma_tally_absent(entries: Seq<(String, u64)>, k: Seq<char>)
    requires
        forall|j: int| 0 <= j < entries.len() ==> entries[j].0@ != k,
    ensures
        tally_count(entries, k) == 0,
    decreases entries.len(),
{
    if entries.len() > 0 {
        lemma_tally_absent(entries.drop_last(), k);
    }
}

/// In a tally whose keys are distinct and whose counts are positive, the count
/// for the key at position `i` is exactly that entry's counter.
proof fn lemma_tally_distinct_at(entries: Seq<(String, u64)>, i: int)
    requires
        0 <= i < entries.len(),
        forall|p: int, q: int| 0 <= p < q < entries.len() ==> entries[p].0@ != entries[q].0@,
    ensures
        tally_count(entries, entries[i].0@) == entries[i].1,
    decreases entries.len(),
{
    let k = entries[i].0@;
    if i == entries.len() - 1 {
        assert(forall|j: int| 0 <= j < entries.drop_last().len() ==> entries.drop_last()[j].0@ != k);
        lemma_tally_absent(entries.drop_last(), k);
    } else {
        assert(entries.drop_last()[i] == entries[i]);
        lemma_tally_distinct_at(entries.drop_last(), i);
    }
}

/// Updating the counter at position `i` moves the tally for that entry's key
/// by exactly the difference.
proof fn lemma_tally_update(entries: Seq<(String, u64)>, i: int, v: u64, k: Seq<char>)
    requires
        0 <= i < entries.len(),
        entries[i].0@ == k,
    ensures
        tally_count(entries.update(i, (entries[i].0, v)), k) == tally_count(entries, k) - entries[i].1
            + v,
    decreases entries.len(),
{
    let updated = entries.update(i, (entries[i].0, v));
    if i == entries.len() - 1 {
        assert(updated.drop_last() =~= entries.drop_last());
    } else {
        assert(updated.drop_last() =~= entries.drop_last().update(i, (entries[i].0, v)));
        assert(updated.last() == entries.last());
        lemma_tally_update(entries.drop_last(), i, v, k);
    }
}

/// Updating the counter at position `i` leaves the tally of every other key
/// unchanged.
proof fn lemma_tally_update_other(entries: Seq<(String, u64)>, i: int, v: u64, k: Seq<char>)
    requires
        0 <= i < entries.len(),
        entries[i].0@ != k,
    ensures
        tally_count(entries.update(i, (entries[i].0, v)), k) == tally_count(entries, k),
    decreases entries.len(),
{
    let updated = entries.update(i, (entries[i].0, v));
    if i == entries.len() - 1 {
        assert(updated.drop_last() =~= entries.drop_last());
    } else {
        assert(updated.drop_last() =~= entries.drop_last().update(i, (entries[i].0, v)));
        assert(updated.last() == entries.last());
        lemma_tally_update_other(entries.drop_last(), i, v, k);
    }
}

/// In a well-formed tally (distinct keys) every count fits in a `u64`.
pub proof fn lemma_tally_count_bound(entries: Seq<(String, u64)>, k: Seq<char>)
    requires
        forall|p: int, q: int| 0 <= p < q < entries.len() ==> entries[p].0@ != entries[q].0@,
    ensures
        0 <= tally_count(entries, k) <= u64::MAX,
{
    if exists|i: int| 0 <= i < entries.len() && entries[i].0@ == k {
        let i = choose|i: int| 0 <= i < entries.len() && entries[i].0@ == k;
        lemma_tally_distinct_at(entries, i);
    } else {
        assert(forall|j: int| 0 <= j < entries.len() ==> entries[j].0@ != k);
        lemma_tally_absent(entries, k);
    }
}

/// The mathematical value of one worker's (or one merged round's) result:
/// the raw sequences of measurements plus the error tally as a map from
/// message to occurrence count.
#[verifier::ext_equal]
pub ghost struct ResultModel {
    pub total_times: Seq<u64>,
    pub request_times: Seq<u64>,
    pub buffer_sizes: Seq<u64>,
    pub errors: Map<Seq<char>, u64>,
}

/// The error map a tally denotes: each message with a positive recorded
/// count, mapped to that count.
pub open spec fn tally_view(t: ErrorTally) -> Map<Seq<char>, u64> {
    Map::new(|k: Seq<char>| t.spec_count(k) > 0, |k: Seq<char>| t.spec_count(k) as u64)
}

/// The occurrence count an error map records for `k` (zero when absent).
pub open spec fn map_count(m: Map<Seq<char>, u64>, k: Seq<char>) -> int {
    if m.contains_key(k) {
        m[k] as int
    } else {
        0
    }
}

/// Pointwise (saturating) sum of two error maps.
pub open spec fn merge_error_maps(a: Map<Seq<char>, u64>, b: Map<Seq<char>, u64>) -> Map<
    Seq<char>,
    u64,
> {
    Map::new(
        |k: Seq<char>| a.contains_key(k) || b.contains_key(k),
        |k: Seq<char>| sat_add_spec(map_count(a, k), map_count(b, k)) as u64,
    )
}

/// The result with no measurements at all: the identity element of `merge_model`.
pub open spec fn empty_model() -> ResultModel {
    ResultModel {
        total_times: Seq::empty(),
        request_times: Seq::empty(),
        buffer_sizes: Seq::empty(),
        errors: Map::empty(),
    }
}

/// What merging two results means: measurement sequences are concatenated and
/// error counts are added per message.
pub open spec fn merge_model(a: ResultModel, b: ResultModel) -> ResultModel {
    ResultModel {
        total_times: a.total_times + b.total_times,
        request_times: a.request_times + b.request_times,
        buffer_sizes: a.buffer_sizes + b.buffer_sizes,
        errors: merge_error_maps(a.errors, b.errors),
    }
}

/// Everything about a result that a round report depends on: the measurements
/// as order-free multisets, and the error tally. Two results with equal
/// summaries yield the same statistics.
#[verifier::ext_equal]
pub ghost struct ResultSummary {
    pub total_times: Multiset<u64>,
    pub request_times: Multiset<u64>,
    pub buffer_sizes: Multiset<u64>,
    pub errors: Map<Seq<char>, u64>,
}

pub open spec fn summary_of(m: ResultModel) -> ResultSummary {
    ResultSummary {
        total_times: m.total_times.to_multiset(),
        request_times: m.request_times.to_multiset(),
        buffer_sizes: m.buffer_sizes.to_multiset(),
        errors: m.errors,
    }
}

/// One worker's measurements: the wall time it ran (one entry, kept as a
/// sequence so that merging is uniform), the latency of every fully completed
/// request in completion order, the bytes received on each connection it
/// established, and its error tally.
pub struct WorkerResult {
    pub total_times: Vec<u64>,
    pub request_times: Vec<u64>,
    pub buffer_sizes: Vec<u64>,
    pub error_map: ErrorTally,
}

impl View for WorkerResult {
    type V = ResultModel;

    open spec fn view(&self) -> ResultModel {
        ResultModel {
            total_times: self.total_times@,
            request_times: self.request_times@,
            buffer_sizes: self.buffer_sizes@,
            errors: tally_view(self.error_map),
        }
    }
}

impl WorkerResult {
    pub open spec fn wf(&self) -> bool {
        self.error_map.wf()
    }

    /// The empty result: no wall time, no requests, no bytes, no errors.
    pub fn default() -> (r: WorkerResult)
        ensures
            r.wf(),
            r@ =~= empty_model(),
    {
        let r = WorkerResult {
            total_times: Vec::new(),
            request_times: Vec::new(),
            buffer_sizes: Vec::new(),
            error_map: ErrorTally::new(),
        };
        r
    }

    /// Merge another worker's result into this one: measurement sequences are
    /// concatenated, error counts added per message.
    pub fn combine(self, other: WorkerResult) -> (r: WorkerResult)
        requires
            self.wf(),
            other.wf(),
        ensures
            r.wf(),
            r@ =~= merge_model(self@, other@),
    {
        let ghost self0 = self;
        let ghost other0 = other;
        let mut out = self;
        let mut rest = other;
        out.total_times.append(&mut rest.total_times);
        out.request_times.append(&mut rest.request_times);
        out.buffer_sizes.append(&mut rest.buffer_sizes);

        let ghost oth = other0.error_map.entries@;
        proof {
            assert(oth.take(0) =~= Seq::<(String, u64)>::empty());
            assert forall|k: Seq<char>|
                out.error_map.spec_count(k) == sat_add_spec(
                    self0.error_map.spec_count(k),
                    tally_count(oth.take(0), k),
                ) by {
                lemma_tally_count_bound(self0.error_map.entries@, k);
            }
        }
        let len = rest.error_map.entries.len();
        let mut i: usize = 0;
        while i < len
            invariant
                out.error_map.wf(),
                other0.error_map.wf(),
                rest.error_map == other0.error_map,
                len == oth.len(),
                oth == rest.error_map.entries@,
                i <= len,
                out.total_times@ == self0.total_times@ + other0.total_times@,
                out.request_times@ == self0.request_times@ + other0.request_times@,
                out.buffer_sizes@ == self0.buffer_sizes@ + other0.buffer_sizes@,
                forall|k: Seq<char>|
                    out.error_map.spec_count(k) == sat_add_spec(
                        self0.error_map.spec_count(k),
                        tally_count(oth.take(i as int), k),
                    ),
            decreases len - i,
        {
            let message = rest.error_map.entries[i].0.clone();
            let n = rest.error_map.entries[i].1;
            let ghost pre = out.error_map;
            out.error_map.add_count(message, n);
            proof {
                let gi = i as int;
                assert(oth.take(gi + 1).drop_last() =~= oth.take(gi));
                assert(oth.take(gi + 1).last() == oth[gi]);
                assert forall|k: Seq<char>|
                    out.error_map.spec_count(k) == sat_add_spec(
                        self0.error_map.spec_count(k),
                        tally_count(oth.take(gi + 1), k),
                    ) by {
                    lemma_tally_count_nonneg(oth.take(gi), k);
                    lemma_tally_count_nonneg(oth.take(gi + 1), k);
                    if k == oth[gi].0@ {
                        // Earlier entries cannot carry this key: the tally is
                        // well-formed, so its keys are distinct.
                        assert(forall|j: int|
                            0 <= j < gi ==> #[trigger] oth.take(gi)[j].0@ != k);
                        lemma_tally_absent(oth.take(gi), k);
                    }
                }
            }
            i += 1;
        }
        proof {
            assert(oth.take(len as int) =~= oth);
            assert forall|k: Seq<char>|
                #[trigger] map_count(out@.errors, k) == sat_add_spec(
                    map_count(self0@.errors, k),
                    map_count(other0@.errors, k),
                ) by {
                lemma_tally_count_bound(self0.error_map.entries@, k);
                lemma_tally_count_bound(other0.error_map.entries@, k);
            }
            assert(out@.errors =~= merge_error_maps(self0@.errors, other0@.errors)) by {
                assert forall|k: Seq<char>|
                    out@.errors.contains_key(k) <==> merge_error_maps(
                        self0@.errors,
                        other0@.errors,
                    ).contains_key(k) by {
                    lemma_tally_count_bound(self0.error_map.entries@, k);
                    lemma_tally_count_bound(other0.error_map.entries@, k);
                }
                assert forall|k: Seq<char>| out@.errors.contains_key(k) implies out@.errors[k]
                    == merge_error_maps(self0@.errors, other0@.errors)[k] by {
                    lemma_tally_count_bound(self0.error_map.entries@, k);
                    lemma_tally_count_bound(other0.error_map.entries@, k);
                }
            }
        }
        out
    }
}

/// The floor of the arithmetic mean of a non-empty sequence.
pub open spec fn mean_of(s: Seq<u64>) -> int {
    seq_total(s) / (s.len() as int)
}

/// Sum of squared deviations from `mean` over `s`.
pub open spec fn sumsq_dev(s: Seq<u64>, mean: int) -> int
    decreases s.len(),
{
    if s.len() == 0 {
        0
    } else {
        sumsq_dev(s.drop_last(), mean) + (s.last() - mean) * (s.last() - mean)
    }
}

/// Population variance of a non-empty latency sequence, computed about the
/// floor mean: the mean of the squared deviations (divisor is the count).
pub open spec fn variance_of(s: Seq<u64>) -> int {
    sumsq_dev(s, mean_of(s)) / (s.len() as int)
}

/// Every prefix's sum of squared deviations is at most the whole sequence's.
proof fn lemma_sumsq_take_le(s: Seq<u64>, mean: int, j: int)
    requires
        0 <= j <= s.len(),
    ensures
        sumsq_dev(s.take(j), mean) <= sumsq_dev(s, mean),
    decreases s.len() - j,
{
    if j == s.len() {
        assert(s.take(j) =~= s);
    } else {
        assert(s.take(j + 1).drop_last() =~= s.take(j));
        assert(s.take(j + 1).last() == s[j]);
        let d = s[j] - mean;
        assert(d * d >= 0) by (nonlinear_arith);
        lemma_sumsq_take_le(s, mean, j + 1);
    }
}

/// Sum a vector of counts into a 128-bit total, which cannot overflow.
fn total_of(v: &Vec<u64>) -> (t: u128)
    ensures
        t == seq_total(v@),
{
    let len = v.len();
    let mut t: u128 = 0;
    let mut i: usize = 0;
    while i < len
        invariant
            len == v@.len(),
            i <= len,
            t == seq_total(v@.take(i as int)),
        decreases len - i,
    {
        proof {
            lemma_seq_total_bounds(v@.take(i as int));
            assert(v@.take(i as int).len() == i);
            assert(t + v@[i as int] <= u128::MAX) by (nonlinear_arith)
                requires
                    t <= (i as int) * (u64::MAX as int),
                    i < len <= usize::MAX,
                    usize::MAX <= u64::MAX,
                    v@[i as int] <= u64::MAX,
            ;
            assert(v@.take(i as int + 1).drop_last() =~= v@.take(i as int));
            assert(v@.take(i as int + 1).last() == v@[i as int]);
        }
        t = t + (v[i] as u128);
        i += 1;
    }
    proof {
        assert(v@.take(len as int) =~= v@);
    }
    t
}

/// The floor mean of a non-empty vector of counts; it always fits in a `u64`.
fn mean_exec(v: &Vec<u64>) -> (m: u64)
    requires
        v@.len() > 0,
    ensures
        m == mean_of(v@),
{
    let t = total_of(v);
    let len = v.len();
    proof {
        lemma_seq_total_bounds(v@);
        assert(seq_total(v@) / (v@.len() as int) <= u64::MAX) by (nonlinear_arith)
            requires
                0 <= seq_total(v@) <= (v@.len() as int) * (u64::MAX as int),
                v@.len() >= 1,
        ;
    }
    (t / (len as u128)) as u64
}

/// Merging the empty result with any result gives that result back: the empty
/// result is the identity element of the merge.
pub proof fn lemma_merge_identity(m: ResultModel)
    ensures
        merge_model(empty_model(), m) == m,
        merge_model(m, empty_model()) == m,
{
    assert(merge_model(empty_model(), m) =~= m) by {
        assert(Seq::<u64>::empty() + m.total_times =~= m.total_times);
        assert(Seq::<u64>::empty() + m.request_times =~= m.request_times);
        assert(Seq::<u64>::empty() + m.buffer_sizes =~= m.buffer_sizes);
        assert(merge_error_maps(Map::empty(), m.errors) =~= m.errors);
    }
    assert(merge_model(m, empty_model()) =~= m) by {
        assert(m.total_times + Seq::<u64>::empty() =~= m.total_times);
        assert(m.request_times + Seq::<u64>::empty() =~= m.request_times);
        assert(m.buffer_sizes + Seq::<u64>::empty() =~= m.buffer_sizes);
        assert(merge_error_maps(m.errors, Map::empty()) =~= m.errors);
    }
}

/// Merging is commutative: either order yields the same summary (the same
/// multisets of measurements and the same error tally), so a round's report
/// does not depend on the order in which workers finish.
pub proof fn lemma_merge_commutative(a: ResultModel, b: ResultModel)
    ensures
        summary_of(merge_model(a, b)) == summary_of(merge_model(b, a)),
{
    lemma_multiset_commutative(a.total_times, b.total_times);
    lemma_multiset_commutative(b.total_times, a.total_times);
    lemma_multiset_commutative(a.request_times, b.request_times);
    lemma_multiset_commutative(b.request_times, a.request_times);
    lemma_multiset_commutative(a.buffer_sizes, b.buffer_sizes);
    lemma_multiset_commutative(b.buffer_sizes, a.buffer_sizes);
    assert((a.total_times + b.total_times).to_multiset() =~= (b.total_times
        + a.total_times).to_multiset());
    assert((a.request_times + b.request_times).to_multiset() =~= (b.request_times
        + a.request_times).to_multiset());
    assert((a.buffer_sizes + b.buffer_sizes).to_multiset() =~= (b.buffer_sizes
        + a.buffer_sizes).to_multiset());
    assert(merge_error_maps(a.errors, b.errors) =~= merge_error_maps(b.errors, a.errors));
    assert(summary_of(merge_model(a, b)) =~= summary_of(merge_model(b, a)));
}

/// Integer square root: the greatest `r` with `r * r <= n`.
pub fn isqrt_u128(n: u128) -> (r: u64)
    ensures
        (r as int) * (r as int) <= n as int,
        (n as int) < (r as int + 1) * (r as int + 1),
{
    let mut lo: u128 = 0;
    let mut hi: u128 = 0x1_0000_0000_0000_0000;
    proof {
        assert((n as int) < 0x1_0000_0000_0000_0000 * 0x1_0000_0000_0000_0000);
    }
    while lo + 1 < hi
        invariant
            lo < hi <= 0x1_0000_0000_0000_0000,
            (lo as int) * (lo as int) <= n as int,
            (n as int) < (hi as int) * (hi as int),
        decreases hi - lo,
    {
        let mid = lo + (hi - lo) / 2;
        proof {
            assert(lo < mid < hi);
            assert((mid as int) * (mid as int) <= u128::MAX) by (nonlinear_arith)
                requires
                    0 <= mid as int <= 0xffff_ffff_ffff_ffff,
            ;
        }
        if mid * mid <= n {
            lo = mid;
        } else {
            hi = mid;
        }
    }
    lo as u64
}

/// Merging is associative: folding a round's worker results in any grouping
/// yields the same result.
pub proof fn lemma_merge_associative(a: ResultModel, b: ResultModel, c: ResultModel)
    ensures
        merge_model(merge_model(a, b), c) == merge_model(a, merge_model(b, c)),
{
    assert(merge_model(merge_model(a, b), c) =~= merge_model(a, merge_model(b, c))) by {
        assert((a.total_times + b.total_times) + c.total_times =~= a.total_times + (b.total_times
            + c.total_times));
        assert((a.request_times + b.request_times) + c.request_times =~= a.request_times + (
        b.request_times + c.request_times));
        assert((a.buffer_sizes + b.buffer_sizes) + c.buffer_sizes =~= a.buffer_sizes + (
        b.buffer_sizes + c.buffer_sizes));
        assert(merge_error_maps(merge_error_maps(a.errors, b.errors), c.errors)
            =~= merge_error_maps(a.errors, merge_error_maps(b.errors, c.errors)));
    }
}

impl WorkerResult {
    /// Number of fully completed successful requests.
    pub fn total_requests(&self) -> (n: usize)
        ensures
            n == self@.request_times.len(),
    {
        self.request_times.len()
    }

    /// Total bytes received, summed over every connection of every worker.
    pub fn total_transfer(&self) -> (t: u128)
        ensures
            t == seq_total(self@.buffer_sizes),
    {
        total_of(&self.buffer_sizes)
    }

    /// Floor mean of the workers' wall times, in nanoseconds; `None` when no
    /// worker contributed a wall time.
    pub fn avg_total_time(&self) -> (r: Option<u64>)
        ensures
            r is Some <==> self@.total_times.len() > 0,
            r is Some ==> r.unwrap() == mean_of(self@.total_times),
    {
        if self.total_times.len() == 0 {
            None
        } else {
            Some(mean_exec(&self.total_times))
        }
    }

    /// Floor mean request latency in nanoseconds; `None` when no request
    /// completed.
    pub fn avg_request_latency(&self) -> (r: Option<u64>)
        ensures
            r is Some <==> self@.request_times.len() > 0,
            r is Some ==> r.unwrap() == mean_of(self@.request_times),
    {
        if self.request_times.len() == 0 {
            None
        } else {
            Some(mean_exec(&self.request_times))
        }
    }

    /// Largest request latency, or 0 when no request completed.
    pub fn max_request_latency(&self) -> (r: u64)
        ensures
            self@.request_times.len() == 0 ==> r == 0,
            self@.request_times.len() > 0 ==> self@.request_times.contains(r),
            forall|i: int| 0 <= i < self@.request_times.len() ==> self@.request_times[i] <= r,
    {
        let len = self.request_times.len();
        if len == 0 {
            return 0;
        }
        let mut r = self.request_times[0];
        let mut i: usize = 1;
        while i < len
            invariant
                len == self@.request_times.len(),
                1 <= i <= len,
                exists|j: int| 0 <= j < i && self@.request_times[j] == r,
                forall|j: int| 0 <= j < i ==> self@.request_times[j] <= r,
            decreases len - i,
        {
            if self.request_times[i] > r {
                r = self.request_times[i];
            }
            i += 1;
        }
        r
    }

    /// Smallest request latency, or 0 when no request completed.
    pub fn min_request_latency(&self) -> (r: u64)
        ensures
            self@.request_times.len() == 0 ==> r == 0,
            self@.request_times.len() > 0 ==> self@.request_times.contains(r),
            self@.request_times.len() > 0 ==> forall|i: int|
                0 <= i < self@.request_times.len() ==> self@.request_times[i] >= r,
    {
        let len = self.request_times.len();
        if len == 0 {
            return 0;
        }
        let mut r = self.request_times[0];
        let mut i: usize = 1;
        while i < len
            invariant
                len == self@.request_times.len(),
                1 <= i <= len,
                exists|j: int| 0 <= j < i && self@.request_times[j] == r,
                forall|j: int| 0 <= j < i ==> self@.request_times[j] >= r,
            decreases len - i,
        {
            if self.request_times[i] < r {
                r = self.request_times[i];
            }
            i += 1;
        }
        r
    }

    /// Completed requests per second of average worker wall time (floor);
    /// `None` when no wall time was recorded or the mean wall time is zero.
    pub fn avg_request_per_sec(&self) -> (r: Option<u128>)
        ensures
            r is Some <==> self@.total_times.len() > 0 && mean_of(self@.total_times) > 0,
            r is Some ==> r.unwrap() == ((self@.request_times.len() as int) * 1_000_000_000) / mean_of(
                self@.total_times,
            ),
    {
        let n = self.request_times.len();
        match self.avg_total_time() {
            None => None,
            Some(avg) => {
                if avg == 0 {
                    None
                } else {
                    Some(((n as u128) * 1_000_000_000) / (avg as u128))
                }
            },
        }
    }

    /// Bytes transferred per second of average worker wall time (floor);
    /// `None` when no wall time was recorded, the mean wall time is zero, or
    /// the scaled total does not fit in 128 bits.
    pub fn avg_transfer(&self) -> (r: Option<u128>)
        ensures
            r is Some <==> self@.total_times.len() > 0 && mean_of(self@.total_times) > 0
                && seq_total(self@.buffer_sizes) * 1_000_000_000 <= u128::MAX,
            r is Some ==> r.unwrap() == (seq_total(self@.buffer_sizes) * 1_000_000_000) / mean_of(
                self@.total_times,
            ),
    {
        let total = total_of(&self.buffer_sizes);
        match self.avg_total_time() {
            None => None,
            Some(avg) => {
                if avg == 0 {
                    None
                } else if total > u128::MAX / 1_000_000_000 {
                    None
                } else {
                    Some((total * 1_000_000_000) / (avg as u128))
                }
            },
        }
    }

    /// Population variance of the request latencies about the floor mean, in
    /// squared nanoseconds; `None` when no request completed or the sum of
    /// squared deviations does not fit in 128 bits.
    pub fn variance(&self) -> (r: Option<u128>)
        ensures
            r is Some <==> self@.request_times.len() > 0 && sumsq_dev(
                self@.request_times,
                mean_of(self@.request_times),
            ) <= u128::MAX,
            r is Some ==> r.unwrap() == variance_of(self@.request_times),
    {
        let ghost s = self@.request_times;
        let len = self.request_times.len();
        if len == 0 {
            return None;
        }
        let mean = mean_exec(&self.request_times);
        let mut acc: u128 = 0;
        let mut i: usize = 0;
        while i < len
            invariant
                s == self@.request_times,
                len == s.len(),
                0 < len,
                mean == mean_of(s),
                i <= len,
                acc == sumsq_dev(s.take(i as int), mean as int),
            decreases len - i,
        {
            let x = self.request_times[i];
            let d: u64 = if x >= mean {
                x - mean
            } else {
                mean - x
            };
            proof {
                assert((d as int) * (d as int) <= u128::MAX) by (nonlinear_arith)
                    requires
                        0 <= d as int <= 0xffff_ffff_ffff_ffff,
                ;
                assert(((x as int) - (mean as int)) * ((x as int) - (mean as int)) == (d as int) * (
                d as int)) by (nonlinear_arith)
                    requires
                        (x as int) - (mean as int) == d as int || (mean as int) - (x as int)
                            == d as int,
                ;
                assert(s.take(i as int + 1).drop_last() =~= s.take(i as int));
                assert(s.take(i as int + 1).last() == s[i as int]);
            }
            let sq: u128 = (d as u128) * (d as u128);
            if acc > u128::MAX - sq {
                proof {
                    lemma_sumsq_take_le(s, mean as int, i as int + 1);
                }
                return None;
            }
            acc = acc + sq;
            i += 1;
        }
        proof {
            assert(s.take(len as int) =~= s);
        }
        Some(acc / (len as u128))
    }

    /// Standard deviation of the request latencies: the integer square root of
    /// the population variance, in nanoseconds.
    pub fn std_deviation_request_latency(&self) -> (r: Option<u64>)
        ensures
            r is Some <==> self@.request_times.len() > 0 && sumsq_dev(
                self@.request_times,
                mean_of(self@.request_times),
            ) <= u128::MAX,
            r is Some ==> (r.unwrap() as int) * (r.unwrap() as int) <= variance_of(
                self@.request_times,
            ) < (r.unwrap() as int + 1) * (r.unwrap() as int + 1),
    {
        match self.variance() {
            None => None,
            Some(v) => Some(isqrt_u128(v)),
        }
    }
}

/// The derived statistics of one round, every quantity an exact integer.
pub struct RoundStats {
    pub total_requests: usize,
    pub total_transfer: u128,
    pub avg_total_time: Option<u64>,
    pub avg_request_latency: u64,
    pub min_request_latency: u64,
    pub max_request_latency: u64,
    pub variance: Option<u128>,
    pub std_deviation: Option<u64>,
    pub requests_per_sec: Option<u128>,
    pub transfer_per_sec: Option<u128>,
}

impl WorkerResult {
    /// The round report: `None` exactly when no request completed, in which
    /// case no statistic is computed at all (so no division by zero can
    /// occur); otherwise every derived statistic of this result.
    pub fn summarize(&self) -> (r: Option<RoundStats>)
        ensures
            r is Some <==> self@.request_times.len() > 0,
            r is Some ==> {
                let st = r.unwrap();
                &&& st.total_requests == self@.request_times.len()
                &&& st.total_transfer == seq_total(self@.buffer_sizes)
                &&& (st.avg_total_time is Some <==> self@.total_times.len() > 0)
                &&& (st.avg_total_time is Some ==> st.avg_total_time.unwrap() == mean_of(
                    self@.total_times,
                ))
                &&& st.avg_request_latency == mean_of(self@.request_times)
                &&& self@.request_times.contains(st.min_request_latency)
                &&& self@.request_times.contains(st.max_request_latency)
                &&& (forall|i: int|
                    0 <= i < self@.request_times.len()
                        ==> st.min_request_latency <= #[trigger] self@.request_times[i]
                        <= st.max_request_latency)
                &&& (st.variance is Some <==> sumsq_dev(
                    self@.request_times,
                    mean_of(self@.request_times),
                ) <= u128::MAX)
                &&& (st.variance is Some ==> st.variance.unwrap() == variance_of(
                    self@.request_times,
                ))
                &&& (st.std_deviation is Some <==> st.variance is Some)
                &&& (st.std_deviation is Some ==> (st.std_deviation.unwrap() as int) * (
                st.std_deviation.unwrap() as int) <= variance_of(self@.request_times) < (
                st.std_deviation.unwrap() as int + 1) * (st.std_deviation.unwrap() as int + 1))
                &&& (st.requests_per_sec is Some <==> self@.total_times.len() > 0 && mean_of(
                    self@.total_times,
                ) > 0)
                &&& (st.requests_per_sec is Some ==> st.requests_per_sec.unwrap() == ((
                self@.request_times.len() as int) * 1_000_000_000) / mean_of(self@.total_times))
                &&& (st.transfer_per_sec is Some <==> self@.total_times.len() > 0 && mean_of(
                    self@.total_times,
                ) > 0 && seq_total(self@.buffer_sizes) * 1_000_000_000 <= u128::MAX)
                &&& (st.transfer_per_sec is Some ==> st.transfer_per_sec.unwrap() == (seq_total(
                    self@.buffer_sizes,
                ) * 1_000_000_000) / mean_of(self@.total_times))
            },
    {
        if self.request_times.len() == 0 {
            return None;
        }
        Some(
            RoundStats {
                total_requests: self.total_requests(),
                total_transfer: self.total_transfer(),
                avg_total_time: self.avg_total_time(),
                avg_request_latency: mean_exec(&self.request_times),
                min_request_latency: self.min_request_latency(),
                max_request_latency: self.max_request_latency(),
                variance: self.variance(),
                std_deviation: self.std_deviation_request_latency(),
                requests_per_sec: self.avg_request_per_sec(),
                transfer_per_sec: self.avg_transfer(),
            },
        )
    }
}

} // verus!
