use vstd::prelude::*;

use crate::settings::{div_round_nearest, WavegenSettings};

verus! {

/// Indices at which `v` occurs in `s`, in ascending order.
pub open spec fn positions(s: Seq<u64>, v: u64) -> Seq<int>
    decreases s.len(),
{
    if s.len() == 0 {
        Seq::empty()
    } else if s.last() == v {
        positions(s.drop_last(), v).push(s.len() - 1)
    } else {
        positions(s.drop_last(), v)
    }
}

/// The elements of `a`, kept in `a`'s order, that also occur in `b`.
pub open spec fn ordered_intersection(a: Seq<int>, b: Seq<int>) -> Seq<int>
    decreases a.len(),
{
    if a.len() == 0 {
        Seq::empty()
    } else if b.contains(a.last()) {
        ordered_intersection(a.drop_last(), b).push(a.last())
    } else {
        ordered_intersection(a.drop_last(), b)
    }
}

/// A sequence of indices as mathematical integers.
pub open spec fn to_int_seq(s: Seq<usize>) -> Seq<int> {
    s.map_values(|x: usize| x as int)
}

/// The three sequences ordered by length, shortest first, ties kept in the
/// given order (a stable sort of three keys).
pub open spec fn sorted_by_len3(p: Seq<int>, c: Seq<int>, v: Seq<int>) -> (
    Seq<int>,
    Seq<int>,
    Seq<int>,
) {
    if p.len() <= c.len() && p.len() <= v.len() {
        if c.len() <= v.len() {
            (p, c, v)
        } else {
            (p, v, c)
        }
    } else if c.len() < p.len() && c.len() <= v.len() {
        if p.len() <= v.len() {
            (c, p, v)
        } else {
            (c, v, p)
        }
    } else {
        if p.len() <= c.len() {
            (v, p, c)
        } else {
            (v, c, p)
        }
    }
}

pub proof fn lemma_push_contains(s: Seq<int>, v: int, x: int)
    ensures
        s.push(v).contains(x) <==> (s.contains(x) || x == v),
{
    if s.contains(x) {
        let idx = choose|idx: int| 0 <= idx < s.len() && s[idx] == x;
        assert(s.push(v)[idx] == x);
    }
    if x == v {
        assert(s.push(v)[s.len() as int] == x);
    }
    if s.push(v).contains(x) {
        let idx = choose|idx: int| 0 <= idx < s.push(v).len() && s.push(v)[idx] == x;
        if idx < s.len() {
            assert(s[idx] == x);
        }
    }
}

/// An index is listed by `positions` exactly when the sequence holds `v` there.
pub proof fn lemma_positions_contains(s: Seq<u64>, v: u64, i: int)
    ensures
        positions(s, v).contains(i) <==> (0 <= i < s.len() && s[i] == v),
    decreases s.len(),
{
    if s.len() > 0 {
        lemma_positions_contains(s.drop_last(), v, i);
        if s.last() == v {
            lemma_push_contains(positions(s.drop_last(), v), s.len() - 1, i);
        }
    }
}

/// The intersection lists exactly the indices both sequences list.
pub proof fn lemma_ordered_intersection_contains(a: Seq<int>, b: Seq<int>, x: int)
    ensures
        ordered_intersection(a, b).contains(x) <==> (a.contains(x) && b.contains(x)),
    decreases a.len(),
{
    if a.len() > 0 {
        lemma_ordered_intersection_contains(a.drop_last(), b, x);
        if b.contains(a.last()) {
            lemma_push_contains(ordered_intersection(a.drop_last(), b), a.last(), x);
        }
        assert(a =~= a.drop_last().push(a.last()));
        lemma_push_contains(a.drop_last(), a.last(), x);
    }
}

/// A sequence holding two distinct values has at least two elements.
pub proof fn lemma_contains_two(s: Seq<int>, x: int, y: int)
    requires
        s.contains(x),
        s.contains(y),
        x != y,
    ensures
        s.len() >= 2,
{
    let i = choose|i: int| 0 <= i < s.len() && s[i] == x;
    let j = choose|j: int| 0 <= j < s.len() && s[j] == y;
    assert(i != j);
}

/// The mathematical content of one export window, or of an accumulated series.
pub struct AquisitionView {
    pub probe: Seq<u64>,
    pub current: Seq<u64>,
    pub voltage: Seq<u64>,
    pub wavegen_settings: WavegenSettings,
    pub sample_period_us: u64,
}

impl AquisitionView {
    /// All channel arrays of one window run in lockstep.
    pub open spec fn wf(self) -> bool {
        &&& self.probe.len() == self.current.len()
        &&& self.probe.len() == self.voltage.len()
    }

    pub open spec fn len(self) -> int {
        self.probe.len() as int
    }

    /// Per channel, the indices of `other` whose value equals this window's
    /// last sample of the same channel; the three index lists ordered by
    /// length, shortest first, ties in channel order (probe, current,
    /// voltage).
    pub open spec fn candidate_sets(self, other: AquisitionView) -> (Seq<int>, Seq<int>, Seq<int>) {
        sorted_by_len3(
            positions(other.probe, self.probe.last()),
            positions(other.current, self.current.last()),
            positions(other.voltage, self.voltage.last()),
        )
    }

    /// The overlap point chosen when folding `other` onto this window: the
    /// sole candidate of the smallest candidate list, or failing that the sole
    /// element of the intersection of the two smallest lists; `None` when the
    /// overlap stays ambiguous.
    pub open spec fn stitch_index(self, other: AquisitionView) -> Option<int> {
        let (s0, s1, _s2) = self.candidate_sets(other);
        if s0.len() == 1 {
            Some(s0[0])
        } else if ordered_intersection(s0, s1).len() == 1 {
            Some(ordered_intersection(s0, s1)[0])
        } else {
            None
        }
    }

    /// This window with `other`'s samples strictly after `ind` appended.
    pub open spec fn combined(self, other: AquisitionView, ind: int) -> AquisitionView {
        AquisitionView {
            probe: self.probe + other.probe.skip(ind + 1),
            current: self.current + other.current.skip(ind + 1),
            voltage: self.voltage + other.voltage.skip(ind + 1),
            wavegen_settings: self.wavegen_settings,
            sample_period_us: self.sample_period_us,
        }
    }

    /// How many samples cover the requested duration: the duration divided by
    /// the sample period, rounded to nearest, capped at what was collected.
    pub open spec fn retained_samples(self, duration_ms: u64) -> int {
        let n = div_round_nearest(duration_ms * 1000, self.sample_period_us as int);
        if n <= self.len() {
            n
        } else {
            self.len()
        }
    }

    /// The most recent `retained_samples(duration_ms)` samples of every
    /// channel, metadata kept.
    pub open spec fn trimmed(self, duration_ms: u64) -> AquisitionView {
        let cut = self.len() - self.retained_samples(duration_ms);
        AquisitionView {
            probe: self.probe.skip(cut),
            current: self.current.skip(cut),
            voltage: self.voltage.skip(cut),
            wavegen_settings: self.wavegen_settings,
            sample_period_us: self.sample_period_us,
        }
    }
}

/// An overlap that could not be resolved: the two smallest candidate index
/// lists, surfaced for diagnosis.
#[derive(Debug)]
pub struct StitchError {
    pub first: Vec<usize>,
    pub second: Vec<usize>,
}

/// One parsed instrument export, and the accumulated series that folding
/// further exports onto it yields. Samples are opaque 64-bit words compared
/// only for exact equality; the three channels are synchronous, so their
/// arrays always have one common length.
#[derive(Debug)]
pub struct Aquisition {
    pub probe: Vec<u64>,
    pub current: Vec<u64>,
    pub voltage: Vec<u64>,
    pub wavegen_settings: WavegenSettings,
    pub sample_period_us: u64,
}

impl View for Aquisition {
    type V = AquisitionView;

    open spec fn view(&self) -> AquisitionView {
        AquisitionView {
            probe: self.probe@,
            current: self.current@,
            voltage: self.voltage@,
            wavegen_settings: self.wavegen_settings,
            sample_period_us: self.sample_period_us,
        }
    }
}

/// The ascending indices at which `v` occurs in `s`.
fn positions_of(s: &Vec<u64>, v: u64) -> (r: Vec<usize>)
    ensures
        to_int_seq(r@) == positions(s@, v),
{
    let mut out: Vec<usize> = Vec::new();
    let mut i: usize = 0;
    while i < s.len()
        invariant
            i <= s@.len(),
            to_int_seq(out@) == positions(s@.take(i as int), v),
        decreases s@.len() - i,
    {
        proof {
            assert(s@.take(i + 1).drop_last() =~= s@.take(i as int));
            assert(s@.take(i + 1).last() == s@[i as int]);
        }
        if s[i] == v {
            out.push(i);
            proof {
                assert(to_int_seq(out@) =~= positions(s@.take(i as int), v).push(i as int));
            }
        }
        i += 1;
    }
    proof {
        assert(s@.take(s@.len() as int) =~= s@);
    }
    out
}

/// Whether `b` holds `x`.
fn contains_index(b: &Vec<usize>, x: usize) -> (r: bool)
    ensures
        r == b@.contains(x),
{
    let mut j: usize = 0;
    while j < b.len()
        invariant
            j <= b@.len(),
            forall|t: int| 0 <= t < j ==> b@[t] != x,
        decreases b@.len() - j,
    {
        if b[j] == x {
            return true;
        }
        j += 1;
    }
    false
}

proof fn lemma_to_int_contains(s: Seq<usize>, x: usize)
    ensures
        to_int_seq(s).contains(x as int) <==> s.contains(x),
{
    if s.contains(x) {
        let i = choose|i: int| 0 <= i < s.len() && s[i] == x;
        assert(to_int_seq(s)[i] == x as int);
    }
    if to_int_seq(s).contains(x as int) {
        let i = choose|i: int| 0 <= i < to_int_seq(s).len() && to_int_seq(s)[i] == x as int;
        assert(s[i] == x);
    }
}

/// The elements of `a`, in order, that also occur in `b`.
fn intersect_indices(a: &Vec<usize>, b: &Vec<usize>) -> (r: Vec<usize>)
    ensures
        to_int_seq(r@) == ordered_intersection(to_int_seq(a@), to_int_seq(b@)),
{
    let mut out: Vec<usize> = Vec::new();
    let mut i: usize = 0;
    while i < a.len()
        invariant
            i <= a@.len(),
            to_int_seq(out@) == ordered_intersection(to_int_seq(a@.take(i as int)), to_int_seq(b@)),
        decreases a@.len() - i,
    {
        proof {
            assert(to_int_seq(a@.take(i + 1)) =~= to_int_seq(a@.take(i as int)).push(a@[i as int] as int));
            assert(to_int_seq(a@.take(i + 1)).drop_last() =~= to_int_seq(a@.take(i as int)));
            lemma_to_int_contains(b@, a@[i as int]);
        }
        if contains_index(b, a[i]) {
            out.push(a[i]);
            proof {
                assert(to_int_seq(out@) =~= ordered_intersection(
                    to_int_seq(a@.take(i as int)),
                    to_int_seq(b@),
                ).push(a@[i as int] as int));
            }
        }
        i += 1;
    }
    proof {
        assert(a@.take(a@.len() as int) =~= a@);
    }
    out
}

/// `a` with `b`'s elements from index `from` on appended.
fn extended(a: Vec<u64>, b: &Vec<u64>, from: usize) -> (r: Vec<u64>)
    requires
        from <= b@.len(),
    ensures
        r@ == a@ + b@.skip(from as int),
{
    let ghost a0 = a@;
    let mut out = a;
    let mut j = from;
    while j < b.len()
        invariant
            from <= j <= b@.len(),
            out@ == a0 + b@.subrange(from as int, j as int),
        decreases b@.len() - j,
    {
        out.push(b[j]);
        proof {
            assert(out@ =~= a0 + b@.subrange(from as int, j + 1));
        }
        j += 1;
    }
    proof {
        assert(out@ =~= a0 + b@.skip(from as int));
    }
    out
}

impl Aquisition {
    /// Fold a later, overlapping export window onto this one.
    ///
    /// Per channel, every index of `other` whose value equals this window's
    /// last sample is a candidate overlap point; the candidate lists are
    /// ordered by length and the overlap is the sole candidate of the
    /// shortest list, or else the sole element of the intersection of the two
    /// shortest. A still-ambiguous overlap is refused, never guessed, with
    /// the competing candidate lists surfaced for diagnosis.
    pub fn combine(self, other: Aquisition) -> (r: Result<Aquisition, StitchError>)
        requires
            self@.wf(),
            other@.wf(),
            self@.len() > 0,
            self.wavegen_settings == other.wavegen_settings,
            self.sample_period_us == other.sample_period_us,
        ensures
            r is Ok <==> self@.stitch_index(other@) is Some,
            r matches Ok(c) ==> c@ == self@.combined(other@, self@.stitch_index(other@)->Some_0),
            r matches Ok(c) ==> c@.wf(),
            r matches Err(e) ==> ({
                let (s0, s1, _s2) = self@.candidate_sets(other@);
                to_int_seq(e.first@) == s0 && to_int_seq(e.second@) == s1
            }),
    {
        let last_probe = self.probe[self.probe.len() - 1];
        let last_current = self.current[self.current.len() - 1];
        let last_voltage = self.voltage[self.voltage.len() - 1];
        let p = positions_of(&other.probe, last_probe);
        let c = positions_of(&other.current, last_current);
        let v = positions_of(&other.voltage, last_voltage);
        let (s0, s1, s2) = if p.len() <= c.len() && p.len() <= v.len() {
            if c.len() <= v.len() {
                (p, c, v)
            } else {
                (p, v, c)
            }
        } else if c.len() < p.len() && c.len() <= v.len() {
            if p.len() <= v.len() {
                (c, p, v)
            } else {
                (c, v, p)
            }
        } else {
            if p.len() <= c.len() {
                (v, p, c)
            } else {
                (v, c, p)
            }
        };
        proof {
            let (g0, g1, g2) = self@.candidate_sets(other@);
            assert(to_int_seq(s0@) == g0);
            assert(to_int_seq(s1@) == g1);
        }
        if s0.len() == 1 {
            let ind = s0[0];
            proof {
                self.lemma_candidate_in_range(other, ind);
            }
            Ok(self.append_after(other, ind))
        } else {
            let isec = intersect_indices(&s0, &s1);
            if isec.len() == 1 {
                let ind = isec[0];
                proof {
                    let (g0, g1, _g2) = self@.candidate_sets(other@);
                    assert(to_int_seq(isec@)[0] == isec@[0] as int);
                    lemma_ordered_intersection_contains(g0, g1, ind as int);
                    assert(ordered_intersection(g0, g1).contains(ind as int));
                    self.lemma_candidate_in_range(other, ind);
                }
                Ok(self.append_after(other, ind))
            } else {
                Err(StitchError { first: s0, second: s1 })
            }
        }
    }

    /// Any index of a candidate list of `candidate_sets` indexes into
    /// `other`'s channels.
    proof fn lemma_candidate_in_range(self, other: Aquisition, ind: usize)
        requires
            self@.wf(),
            other@.wf(),
            self@.len() > 0,
            ({
                let (g0, g1, _g2) = self@.candidate_sets(other@);
                g0.contains(ind as int) || g1.contains(ind as int)
            }),
        ensures
            (ind as int) < other@.len(),
    {
        let pp = positions(other@.probe, self@.probe.last());
        let cc = positions(other@.current, self@.current.last());
        let vv = positions(other@.voltage, self@.voltage.last());
        lemma_positions_contains(other@.probe, self@.probe.last(), ind as int);
        lemma_positions_contains(other@.current, self@.current.last(), ind as int);
        lemma_positions_contains(other@.voltage, self@.voltage.last(), ind as int);
        let (g0, g1, _g2) = self@.candidate_sets(other@);
        assert(g0 == pp || g0 == cc || g0 == vv);
        assert(g1 == pp || g1 == cc || g1 == vv);
    }

    /// This window with `other`'s samples strictly after `ind` appended.
    fn append_after(self, other: Aquisition, ind: usize) -> (r: Aquisition)
        requires
            self@.wf(),
            other@.wf(),
            (ind as int) < other@.len(),
        ensures
            r@ == self@.combined(other@, ind as int),
            r@.wf(),
    {
        let olen = other.probe.len();
        proof {
            assert(ind < olen);
        }
        let probe = extended(self.probe, &other.probe, ind + 1);
        let current = extended(self.current, &other.current, ind + 1);
        let voltage = extended(self.voltage, &other.voltage, ind + 1);
        Aquisition {
            probe,
            current,
            voltage,
            wavegen_settings: self.wavegen_settings,
            sample_period_us: self.sample_period_us,
        }
    }

    /// Keep only the most recent samples worth `duration_ms` of time: the
    /// retained count is the duration divided by the sample period, rounded
    /// to nearest, capped at what was collected; earlier excess is discarded.
    pub fn trim_to_duration(&mut self, duration_ms: u64)
        requires
            old(self)@.wf(),
            old(self).sample_period_us > 0,
        ensures
            final(self)@ == old(self)@.trimmed(duration_ms),
            final(self)@.wf(),
            final(self)@.len() == old(self)@.retained_samples(duration_ms),
    {
        let len = self.probe.len();
        let sp: u128 = self.sample_period_us as u128;
        let n: u128 = (2 * (duration_ms as u128) * 1000 + sp) / (2 * sp);
        let keep: usize = if n >= len as u128 {
            len
        } else {
            n as usize
        };
        let cut: usize = len - keep;
        let probe = extended(Vec::new(), &self.probe, cut);
        let current = extended(Vec::new(), &self.current, cut);
        let voltage = extended(Vec::new(), &self.voltage, cut);
        proof {
            assert(Seq::<u64>::empty() + old(self)@.probe.skip(cut as int) =~= old(
                self,
            )@.probe.skip(cut as int));
            assert(Seq::<u64>::empty() + old(self)@.current.skip(cut as int) =~= old(
                self,
            )@.current.skip(cut as int));
            assert(Seq::<u64>::empty() + old(self)@.voltage.skip(cut as int) =~= old(
                self,
            )@.voltage.skip(cut as int));
        }
        self.probe = probe;
        self.current = current;
        self.voltage = voltage;
    }
}

/// For two windows with a genuine, unambiguous overlap of length `k` on every
/// channel — the first window's last `k` samples reappear as the second's
/// first `k`, and the first window's final sample occurs nowhere else in the
/// second — stitching picks exactly that overlap: the fold keeps all of the
/// first window, appends the second's samples after the overlap, and the
/// result has length `len(A) + len(B) - k`.
pub proof fn lemma_combine_unambiguous_overlap(a: AquisitionView, b: AquisitionView, k: int)
    requires
        a.wf(),
        b.wf(),
        0 < k <= a.len(),
        k <= b.len(),
        a.probe.skip(a.len() - k) == b.probe.take(k),
        a.current.skip(a.len() - k) == b.current.take(k),
        a.voltage.skip(a.len() - k) == b.voltage.take(k),
        positions(b.probe, a.probe.last()) == seq![k - 1],
        positions(b.current, a.current.last()) == seq![k - 1],
        positions(b.voltage, a.voltage.last()) == seq![k - 1],
    ensures
        a.stitch_index(b) == Some(k - 1),
        a.combined(b, k - 1).len() == a.len() + b.len() - k,
        a.combined(b, k - 1).probe.take(a.len()) == a.probe,
        a.combined(b, k - 1).current.take(a.len()) == a.current,
        a.combined(b, k - 1).voltage.take(a.len()) == a.voltage,
        a.combined(b, k - 1).probe.skip(a.len()) == b.probe.skip(k),
        a.combined(b, k - 1).current.skip(a.len()) == b.current.skip(k),
        a.combined(b, k - 1).voltage.skip(a.len()) == b.voltage.skip(k),
{
    let single = seq![k - 1];
    assert(single.len() == 1);
    assert(a.stitch_index(b) == Some(k - 1));
    let combined = a.combined(b, k - 1);
    assert(combined.probe.take(a.len()) =~= a.probe);
    assert(combined.current.take(a.len()) =~= a.current);
    assert(combined.voltage.take(a.len()) =~= a.voltage);
    assert(combined.probe.skip(a.len()) =~= b.probe.skip(k));
    assert(combined.current.skip(a.len()) =~= b.current.skip(k));
    assert(combined.voltage.skip(a.len()) =~= b.voltage.skip(k));
}

/// When two or more indices of the second window match the first window's
/// last sample on every channel at once, the overlap is ambiguous and
/// stitching refuses rather than guessing.
pub proof fn lemma_combine_ambiguous_refused(a: AquisitionView, b: AquisitionView, i: int, j: int)
    requires
        a.wf(),
        b.wf(),
        a.len() > 0,
        i != j,
        0 <= i < b.len(),
        0 <= j < b.len(),
        b.probe[i] == a.probe.last(),
        b.current[i] == a.current.last(),
        b.voltage[i] == a.voltage.last(),
        b.probe[j] == a.probe.last(),
        b.current[j] == a.current.last(),
        b.voltage[j] == a.voltage.last(),
    ensures
        a.stitch_index(b) is None,
{
    let pp = positions(b.probe, a.probe.last());
    let cc = positions(b.current, a.current.last());
    let vv = positions(b.voltage, a.voltage.last());
    lemma_positions_contains(b.probe, a.probe.last(), i);
    lemma_positions_contains(b.probe, a.probe.last(), j);
    lemma_positions_contains(b.current, a.current.last(), i);
    lemma_positions_contains(b.current, a.current.last(), j);
    lemma_positions_contains(b.voltage, a.voltage.last(), i);
    lemma_positions_contains(b.voltage, a.voltage.last(), j);
    let (s0, s1, _s2) = a.candidate_sets(b);
    assert(s0 == pp || s0 == cc || s0 == vv);
    assert(s1 == pp || s1 == cc || s1 == vv);
    lemma_contains_two(s0, i, j);
    lemma_ordered_intersection_contains(s0, s1, i);
    lemma_ordered_intersection_contains(s0, s1, j);
    lemma_contains_two(ordered_intersection(s0, s1), i, j);
}

} // verus!
