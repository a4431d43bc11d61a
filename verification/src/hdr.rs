//! Trusted interface to `hdrhistogram::Histogram<u64>`, the latency histograms
//! that workers record into and that aggregation merges.
//!
//! A histogram is modelled by its bucket counts, each count read at the
//! lowest value of its bucket ([`histogram_values`]), and by the parameters
//! it was made with ([`histogram_config`]). A recorded value is counted in
//! the bucket of values equivalent to it ([`bucket_value`]).

use vstd::prelude::*;
use vstd::multiset::Multiset;
use hdrhistogram::Histogram;
use hdrhistogram::{AdditionError, CreationError, RecordError};

verus! {

/// An HDR histogram of latencies in microseconds (`hdrhistogram::Histogram<u64>`).
///
/// The histogram is held in a field that Verus does not see; it is public so
/// that statistics which need floating point can be read from it outside the
/// library.
#[verifier::external_body]
pub struct LatencyHistogram {
    pub histogram: Histogram<u64>,
}

impl Clone for LatencyHistogram {
    /// `Histogram::clone`: a copy with the same samples and parameters.
    #[verifier::external_body]
    fn clone(&self) -> (res: Self)
        ensures
            histogram_values(res) == histogram_values(*self),
            histogram_config(res) == histogram_config(*self),
    {
        LatencyHistogram { histogram: self.histogram.clone() }
    }
}

#[verifier::external_type_specification]
#[verifier::external_body]
pub struct ExCreationError(CreationError);

#[verifier::external_type_specification]
#[verifier::external_body]
pub struct ExRecordError(RecordError);

#[verifier::external_type_specification]
#[verifier::external_body]
pub struct ExAdditionError(AdditionError);

/// The samples recorded into `h`, each read at the lowest value of the
/// bucket that counts it: the bucket counts of `h` as a multiset.
pub uninterp spec fn histogram_values(h: LatencyHistogram) -> Multiset<u64>;

/// `Histogram::lowest_equivalent(value)` in a histogram made with lowest
/// discernible value `low` and `sigfig` significant figures: the lowest
/// value counted in the same bucket as `value`.
pub uninterp spec fn bucket_value(low: u64, sigfig: u8, value: u64) -> u64;

/// The parameters `h` was made with: lowest discernible value, highest
/// trackable value, significant figures, and whether it resizes itself.
pub uninterp spec fn histogram_config(h: LatencyHistogram) -> (u64, u64, u8, bool);

/// `Histogram::new_with_bounds(low, high, sigfig)`: with `low == 1`,
/// `high >= 2` and `sigfig <= 5` the arguments are valid and it returns an
/// empty, fixed-size histogram made with these parameters.
#[verifier::external_body]
pub(crate) fn histogram_new_with_bounds(low: u64, high: u64, sigfig: u8) -> (res: Result<LatencyHistogram, CreationError>)
    ensures
        low == 1 && high >= 2 && sigfig <= 5 ==> res is Ok,
        res is Ok ==> histogram_values(res->Ok_0) =~= Multiset::empty(),
        res is Ok ==> histogram_config(res->Ok_0) == (low, high, sigfig, false),
{
    Histogram::<u64>::new_with_bounds(low, high, sigfig).map(|histogram| LatencyHistogram { histogram })
}

/// `Histogram::new(sigfig)`: with `sigfig <= 5` it returns an empty,
/// self-resizing histogram whose lowest discernible value is 1.
#[verifier::external_body]
pub(crate) fn histogram_new(sigfig: u8) -> (res: Result<LatencyHistogram, CreationError>)
    ensures
        sigfig <= 5 ==> res is Ok,
        res is Ok ==> histogram_values(res->Ok_0) =~= Multiset::empty(),
        res is Ok ==> histogram_config(res->Ok_0) == (1u64, 2u64, sigfig, true),
{
    Histogram::<u64>::new(sigfig).map(|histogram| LatencyHistogram { histogram })
}

/// `Histogram::record(value)`: the lowest discernible value, the
/// significant figures and the resizing mode stay; a fixed-size histogram
/// keeps its highest trackable value too (a self-resizing one may raise
/// it). In a fixed-size histogram a value no larger than the highest
/// trackable value it was made with is counted in its bucket (the total
/// count saturates at `u64::MAX`, so the claim is made below it).
#[verifier::external_body]
pub(crate) fn histogram_record(h: &mut LatencyHistogram, value: u64) -> (res: Result<(), RecordError>)
    ensures
        histogram_config(*final(h)).0 == histogram_config(*old(h)).0,
        histogram_config(*final(h)).2 == histogram_config(*old(h)).2,
        histogram_config(*final(h)).3 == histogram_config(*old(h)).3,
        !histogram_config(*old(h)).3 ==> histogram_config(*final(h)) == histogram_config(*old(h)),
        !histogram_config(*old(h)).3 && value <= histogram_config(*old(h)).1
            && histogram_values(*old(h)).len() < u64::MAX ==> {
            &&& res is Ok
            &&& histogram_values(*final(h)) == histogram_values(*old(h)).insert(
                bucket_value(histogram_config(*old(h)).0, histogram_config(*old(h)).2, value))
        },
{
    h.histogram.record(value)
}

/// `Histogram::add(source)`: between two fixed-size histograms made with the
/// same parameters the bucket counts of `source` are added (below a total
/// count of `u64::MAX`, where the count saturates). The lowest discernible
/// value, the significant figures and the resizing mode stay; a fixed-size
/// histogram keeps its highest trackable value too.
#[verifier::external_body]
pub(crate) fn histogram_add(h: &mut LatencyHistogram, source: &LatencyHistogram) -> (res: Result<(), AdditionError>)
    ensures
        !histogram_config(*old(h)).3 && histogram_config(*old(h)) == histogram_config(*source)
            && histogram_values(*old(h)).len() + histogram_values(*source).len() <= u64::MAX ==> {
            &&& res is Ok
            &&& histogram_values(*final(h)) == histogram_values(*old(h)).add(histogram_values(*source))
        },
        histogram_config(*final(h)).0 == histogram_config(*old(h)).0,
        histogram_config(*final(h)).2 == histogram_config(*old(h)).2,
        histogram_config(*final(h)).3 == histogram_config(*old(h)).3,
        !histogram_config(*old(h)).3 ==> histogram_config(*final(h)) == histogram_config(*old(h)),
{
    h.histogram.add(&source.histogram)
}

/// `Histogram::len()`: the number of recorded samples (saturating at `u64::MAX`).
#[verifier::external_body]
pub(crate) fn histogram_len(h: &LatencyHistogram) -> (n: u64)
    ensures
        histogram_values(*h).len() <= u64::MAX ==> n == histogram_values(*h).len(),
{
    h.histogram.len()
}

} // verus!
