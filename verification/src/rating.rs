//! Ratings of entries and the aggregate score that ranks them.
//!
//! An entry is rated in six contexts. Its score is the mean, over all six
//! contexts, of the mean rating in each context. A context without any rating
//! counts as zero: it is not left out of the mean. An entry that is rated in
//! few contexts therefore scores lower than its ratings alone suggest. This
//! is how the score is defined, and the ranking relies on it.
//!
//! Scores are fixed-point numbers with `AVG_RATING_SCALE` units to one.

use vstd::prelude::*;
use crate::entry::Entry;
use crate::rounding::{
    lemma_round_div_between, lemma_round_div_bounds, lemma_round_div_exact,
    lemma_round_div_unique, round_div, round_div_u128,
};

verus! {

/// The contexts in which an entry is rated.
#[derive(Clone, Copy, Debug, PartialEq, Eq, Structural)]
pub enum RatingContext {
    Diversity,
    Renewable,
    Fairness,
    Humanity,
    Transparency,
    Solidarity,
}

/// Smallest value of a valid rating.
pub const RATING_VALUE_MIN: i8 = -1;

/// Largest value of a valid rating.
pub const RATING_VALUE_MAX: i8 = 2;

/// The value of a single rating.
#[derive(Clone, Copy, Debug, PartialEq, Eq, Structural)]
pub struct RatingValue {
    pub value: i8,
}

impl RatingValue {
    pub fn new(value: i8) -> (r: Self)
        ensures
            r.value == value,
    {
        RatingValue { value }
    }

    pub fn min() -> (r: Self)
        ensures
            r.value == RATING_VALUE_MIN,
    {
        RatingValue { value: RATING_VALUE_MIN }
    }

    pub fn max() -> (r: Self)
        ensures
            r.value == RATING_VALUE_MAX,
    {
        RatingValue { value: RATING_VALUE_MAX }
    }

    pub open spec fn spec_is_valid(self) -> bool {
        RATING_VALUE_MIN <= self.value <= RATING_VALUE_MAX
    }

    #[verifier::when_used_as_spec(spec_is_valid)]
    pub fn is_valid(self) -> (b: bool)
        ensures
            b == self.is_valid(),
    {
        RATING_VALUE_MIN <= self.value && self.value <= RATING_VALUE_MAX
    }

    /// The nearest valid rating value.
    pub fn clamp(self) -> (r: Self)
        ensures
            r.is_valid(),
            self.is_valid() ==> r == self,
            self.value < RATING_VALUE_MIN ==> r.value == RATING_VALUE_MIN,
            self.value > RATING_VALUE_MAX ==> r.value == RATING_VALUE_MAX,
    {
        if self.value < RATING_VALUE_MIN {
            RatingValue { value: RATING_VALUE_MIN }
        } else if self.value > RATING_VALUE_MAX {
            RatingValue { value: RATING_VALUE_MAX }
        } else {
            self
        }
    }
}

impl From<i8> for RatingValue {
    fn from(value: i8) -> (r: Self) {
        RatingValue { value }
    }
}

impl vstd::std_specs::convert::FromSpecImpl<i8> for RatingValue {
    open spec fn obeys_from_spec() -> bool {
        true
    }

    open spec fn from_spec(value: i8) -> Self {
        RatingValue { value }
    }
}

impl From<RatingValue> for i8 {
    fn from(r: RatingValue) -> (value: i8) {
        r.value
    }
}

impl vstd::std_specs::convert::FromSpecImpl<RatingValue> for i8 {
    open spec fn obeys_from_spec() -> bool {
        true
    }

    open spec fn from_spec(r: RatingValue) -> Self {
        r.value
    }
}

/// A rating of one entry in one context.
#[derive(Clone, Debug)]
pub struct Rating {
    pub id: String,
    pub entry_id: String,
    pub created: u64,
    pub title: String,
    pub value: RatingValue,
    pub context: RatingContext,
    pub source: Option<String>,
}

/// Units of an `AvgRatingValue` that make up one.
pub const AVG_RATING_SCALE: i64 = 0x1_0000_0000;

/// Raw value of the smallest valid score, `-1`.
pub const AVG_RATING_RAW_MIN: i64 = -0x1_0000_0000;

/// Raw value of the largest valid score, `2`.
pub const AVG_RATING_RAW_MAX: i64 = 0x2_0000_0000;

/// A mean of rating values: a fixed-point number, `raw / AVG_RATING_SCALE`.
#[derive(Clone, Copy, Debug, PartialEq, Eq, Structural)]
pub struct AvgRatingValue {
    pub raw: i64,
}

impl AvgRatingValue {
    pub fn from_raw(raw: i64) -> (r: Self)
        ensures
            r.raw == raw,
    {
        AvgRatingValue { raw }
    }

    pub fn to_raw(self) -> (raw: i64)
        ensures
            raw == self.raw,
    {
        self.raw
    }

    pub fn min() -> (r: Self)
        ensures
            r.raw == AVG_RATING_RAW_MIN,
            r.raw == RATING_VALUE_MIN * AVG_RATING_SCALE,
    {
        AvgRatingValue { raw: AVG_RATING_RAW_MIN }
    }

    pub fn max() -> (r: Self)
        ensures
            r.raw == AVG_RATING_RAW_MAX,
            r.raw == RATING_VALUE_MAX * AVG_RATING_SCALE,
    {
        AvgRatingValue { raw: AVG_RATING_RAW_MAX }
    }

    pub open spec fn spec_is_valid(self) -> bool {
        AVG_RATING_RAW_MIN <= self.raw <= AVG_RATING_RAW_MAX
    }

    #[verifier::when_used_as_spec(spec_is_valid)]
    pub fn is_valid(self) -> (b: bool)
        ensures
            b == self.is_valid(),
    {
        AVG_RATING_RAW_MIN <= self.raw && self.raw <= AVG_RATING_RAW_MAX
    }

    /// The nearest valid score.
    pub fn clamp(self) -> (r: Self)
        ensures
            r.is_valid(),
            self.is_valid() ==> r == self,
            self.raw < AVG_RATING_RAW_MIN ==> r.raw == AVG_RATING_RAW_MIN,
            self.raw > AVG_RATING_RAW_MAX ==> r.raw == AVG_RATING_RAW_MAX,
    {
        if self.raw < AVG_RATING_RAW_MIN {
            AvgRatingValue { raw: AVG_RATING_RAW_MIN }
        } else if self.raw > AVG_RATING_RAW_MAX {
            AvgRatingValue { raw: AVG_RATING_RAW_MAX }
        } else {
            self
        }
    }
}

impl Default for AvgRatingValue {
    /// The score zero.
    fn default() -> (r: Self)
        ensures
            r.raw == 0,
    {
        AvgRatingValue { raw: 0 }
    }
}

impl From<RatingValue> for AvgRatingValue {
    fn from(value: RatingValue) -> (r: Self) {
        AvgRatingValue { raw: (value.value as i64) * AVG_RATING_SCALE }
    }
}

impl vstd::std_specs::convert::FromSpecImpl<RatingValue> for AvgRatingValue {
    open spec fn obeys_from_spec() -> bool {
        true
    }

    open spec fn from_spec(value: RatingValue) -> Self {
        AvgRatingValue { raw: ((value.value as i64) * AVG_RATING_SCALE) as i64 }
    }
}

/// How many of the ratings are given in the context.
pub open spec fn context_count(ratings: Seq<Rating>, context: RatingContext) -> nat
    decreases ratings.len(),
{
    if ratings.len() == 0 {
        0
    } else {
        context_count(ratings.drop_last(), context) + if ratings.last().context == context {
            1nat
        } else {
            0nat
        }
    }
}

/// The sum of the values of the ratings that are given in the context.
pub open spec fn context_sum(ratings: Seq<Rating>, context: RatingContext) -> int
    decreases ratings.len(),
{
    if ratings.len() == 0 {
        0
    } else {
        context_sum(ratings.drop_last(), context) + if ratings.last().context == context {
            ratings.last().value.value as int
        } else {
            0
        }
    }
}

/// The mean of the ratings in the context, as the raw value of a score
/// rounded to the nearest unit; `None` where the context has no rating.
pub open spec fn context_mean(ratings: Seq<Rating>, context: RatingContext) -> Option<int> {
    if context_count(ratings, context) == 0 {
        None
    } else {
        Some(
            round_div(
                context_sum(ratings, context) * AVG_RATING_SCALE,
                context_count(ratings, context) as int,
            ),
        )
    }
}

/// What the context contributes to the score: its mean, or zero where it has
/// no rating.
pub open spec fn context_share(ratings: Seq<Rating>, context: RatingContext) -> int {
    match context_mean(ratings, context) {
        Some(mean) => mean,
        None => 0,
    }
}

/// The raw value of the score of an entry with these ratings: the sum of
/// what the six contexts contribute, divided by six and rounded to the
/// nearest unit.
pub open spec fn aggregate_rating(ratings: Seq<Rating>) -> int {
    round_div(
        context_share(ratings, RatingContext::Diversity) + context_share(
            ratings,
            RatingContext::Renewable,
        ) + context_share(ratings, RatingContext::Fairness) + context_share(
            ratings,
            RatingContext::Humanity,
        ) + context_share(ratings, RatingContext::Transparency) + context_share(
            ratings,
            RatingContext::Solidarity,
        ),
        6,
    )
}

/// Every rating has a value between `lo` and `hi`.
pub open spec fn values_between(ratings: Seq<Rating>, lo: int, hi: int) -> bool {
    forall|i: int| 0 <= i < ratings.len() ==> lo <= (#[trigger] ratings[i]).value.value <= hi
}

/// The sum of the ratings in a context lies between the count times the
/// smallest and the count times the largest value, and the count is no more
/// than the number of ratings.
pub proof fn lemma_context_sum_bounds(
    ratings: Seq<Rating>,
    context: RatingContext,
    lo: int,
    hi: int,
)
    requires
        values_between(ratings, lo, hi),
    ensures
        context_count(ratings, context) <= ratings.len(),
        lo * context_count(ratings, context) <= context_sum(ratings, context),
        context_sum(ratings, context) <= hi * context_count(ratings, context),
    decreases ratings.len(),
{
    if ratings.len() > 0 {
        let rest = ratings.drop_last();
        assert forall|i: int| 0 <= i < rest.len() implies lo <= (#[trigger] rest[i]).value.value
            <= hi by {
            assert(rest[i] == ratings[i]);
        }
        lemma_context_sum_bounds(rest, context, lo, hi);
        let n = context_count(rest, context) as int;
        assert(lo <= ratings[ratings.len() - 1].value.value <= hi);
        assert(lo * (n + 1) == lo * n + lo) by (nonlinear_arith);
        assert(hi * (n + 1) == hi * n + hi) by (nonlinear_arith);
    } else {
        assert(lo * 0 == 0 && hi * 0 == 0);
    }
}

/// The mean of a context lies between the smallest and the largest value of
/// the ratings.
pub proof fn lemma_context_mean_bounds(
    ratings: Seq<Rating>,
    context: RatingContext,
    lo: int,
    hi: int,
)
    requires
        values_between(ratings, lo, hi),
    ensures
        context_mean(ratings, context) matches Some(mean) ==> lo * AVG_RATING_SCALE <= mean <= hi
            * AVG_RATING_SCALE,
{
    let n = context_count(ratings, context) as int;
    let s = context_sum(ratings, context);
    lemma_context_sum_bounds(ratings, context, lo, hi);
    if n > 0 {
        let k = AVG_RATING_SCALE as int;
        assert((lo * k) * n <= s * k && s * k <= (hi * k) * n) by (nonlinear_arith)
            requires
                lo * n <= s <= hi * n,
                k > 0,
        ;
        lemma_round_div_between(s * k, n, lo * k, hi * k);
    }
}

/// The score lies between the smallest and the largest value of the ratings,
/// where zero lies between them too.
pub proof fn lemma_aggregate_rating_bounds(ratings: Seq<Rating>, lo: int, hi: int)
    requires
        values_between(ratings, lo, hi),
        lo <= 0 <= hi,
    ensures
        lo * AVG_RATING_SCALE <= aggregate_rating(ratings) <= hi * AVG_RATING_SCALE,
{
    let k = AVG_RATING_SCALE as int;
    lemma_context_mean_bounds(ratings, RatingContext::Diversity, lo, hi);
    lemma_context_mean_bounds(ratings, RatingContext::Renewable, lo, hi);
    lemma_context_mean_bounds(ratings, RatingContext::Fairness, lo, hi);
    lemma_context_mean_bounds(ratings, RatingContext::Humanity, lo, hi);
    lemma_context_mean_bounds(ratings, RatingContext::Transparency, lo, hi);
    lemma_context_mean_bounds(ratings, RatingContext::Solidarity, lo, hi);
    assert(lo * k <= 0 <= hi * k) by (nonlinear_arith)
        requires
            lo <= 0 <= hi,
            k > 0,
    ;
    let total = context_share(ratings, RatingContext::Diversity) + context_share(
        ratings,
        RatingContext::Renewable,
    ) + context_share(ratings, RatingContext::Fairness) + context_share(
        ratings,
        RatingContext::Humanity,
    ) + context_share(ratings, RatingContext::Transparency) + context_share(
        ratings,
        RatingContext::Solidarity,
    );
    assert((lo * k) * 6 <= total <= (hi * k) * 6);
    lemma_round_div_between(total, 6, lo * k, hi * k);
}

/// An entry without ratings has the score zero.
pub proof fn lemma_aggregate_rating_of_none()
    ensures
        aggregate_rating(Seq::<Rating>::empty()) == 0,
{
    lemma_round_div_exact(0, 6);
}

/// Rounded division after a shift of the dividend by a multiple of the
/// divisor.
proof fn lemma_round_div_shift(n: int, d: int, k: int)
    requires
        d > 0,
    ensures
        round_div(n + k * d, d) == round_div(n, d) + k,
{
    let q = round_div(n, d);
    lemma_round_div_bounds(n, d);
    assert((q + k) * d == q * d + k * d) by (nonlinear_arith);
    lemma_round_div_unique(n + k * d, d, q + k);
}

/// The mean of the ratings that are given in the context, or `None` where
/// there is none.
pub fn avg_rating_for_context(ratings: &[Rating], context: &RatingContext) -> (avg: Option<
    AvgRatingValue,
>)
    ensures
        match avg {
            Some(mean) => context_mean(ratings@, *context) == Some(mean.raw as int),
            None => context_mean(ratings@, *context).is_none(),
        },
{
    let mut cnt: usize = 0;
    let mut sum: i128 = 0;
    let mut i: usize = 0;
    while i < ratings.len()
        invariant
            i <= ratings.len(),
            cnt == context_count(ratings@.take(i as int), *context),
            sum == context_sum(ratings@.take(i as int), *context),
            cnt <= i,
            -128 * cnt <= sum <= 127 * cnt,
        decreases ratings.len() - i,
    {
        proof {
            assert(ratings@.take(i + 1).drop_last() =~= ratings@.take(i as int));
            assert(ratings@.take(i + 1).last() == ratings@[i as int]);
        }
        if ratings[i].context == *context {
            cnt = cnt + 1;
            sum = sum + ratings[i].value.value as i128;
        }
        i = i + 1;
    }
    proof {
        assert(ratings@.take(i as int) =~= ratings@);
    }
    if cnt > 0 {
        let scale: u128 = AVG_RATING_SCALE as u128;
        let shifted: u128 = (sum + 128 * (cnt as i128)) as u128;
        let quotient: u128 = round_div_u128(shifted * scale, cnt as u128);
        proof {
            let k = AVG_RATING_SCALE as int;
            let n = cnt as int;
            assert(shifted * scale == sum * k + (128 * k) * n) by (nonlinear_arith)
                requires
                    shifted == sum + 128 * n,
                    scale == k,
            ;
            lemma_round_div_shift(sum * k, n, 128 * k);
            assert((-128 * k) * n <= sum * k && sum * k <= (127 * k) * n) by (nonlinear_arith)
                requires
                    -128 * n <= sum <= 127 * n,
                    k > 0,
            ;
            lemma_round_div_between(sum * k, n, -128 * k, 127 * k);
        }
        let mean: i64 = (quotient as i128 - 128 * (AVG_RATING_SCALE as i128)) as i64;
        Some(AvgRatingValue { raw: mean })
    } else {
        None
    }
}

/// The raw contribution of a context to the score.
fn share_of_context(ratings: &[Rating], context: RatingContext) -> (share: i64)
    ensures
        share == context_share(ratings@, context),
        -128 * AVG_RATING_SCALE <= share <= 127 * AVG_RATING_SCALE,
{
    proof {
        assert(values_between(ratings@, -128, 127));
        lemma_context_mean_bounds(ratings@, context, -128, 127);
    }
    match avg_rating_for_context(ratings, &context) {
        Some(mean) => mean.raw,
        None => 0,
    }
}

/// Something that is scored by its ratings.
pub trait Rated {
    /// The score that the ratings give. The ratings are those of the rated
    /// thing: all of them are taken into the score.
    fn avg_rating(&self, ratings: &[Rating]) -> (avg: AvgRatingValue)
        ensures
            avg.raw == aggregate_rating(ratings@),
            values_between(ratings@, RATING_VALUE_MIN as int, RATING_VALUE_MAX as int)
                ==> avg.is_valid(),
    ;
}

impl Rated for Entry {
    fn avg_rating(&self, ratings: &[Rating]) -> (avg: AvgRatingValue) {
        let total: i64 = share_of_context(ratings, RatingContext::Diversity) + share_of_context(
            ratings,
            RatingContext::Renewable,
        ) + share_of_context(ratings, RatingContext::Fairness) + share_of_context(
            ratings,
            RatingContext::Humanity,
        ) + share_of_context(ratings, RatingContext::Transparency) + share_of_context(
            ratings,
            RatingContext::Solidarity,
        );
        let offset: i128 = 128 * (AVG_RATING_SCALE as i128);
        let shifted: u128 = (total as i128 + 6 * offset) as u128;
        let quotient: u128 = round_div_u128(shifted, 6);
        proof {
            lemma_round_div_shift(total as int, 6, offset as int);
            lemma_round_div_between(total as int, 6, -offset as int, offset as int);
            if values_between(ratings@, RATING_VALUE_MIN as int, RATING_VALUE_MAX as int) {
                lemma_aggregate_rating_bounds(
                    ratings@,
                    RATING_VALUE_MIN as int,
                    RATING_VALUE_MAX as int,
                );
            }
        }
        AvgRatingValue { raw: (quotient as i128 - offset) as i64 }
    }
}

/// The ratings that are given to the entry with the identifier.
pub open spec fn is_rating_of(entry_id: Seq<char>) -> spec_fn(Rating) -> bool {
    |rating: Rating| rating.entry_id@ == entry_id
}

/// The ratings of the entry with the identifier among the ratings, in their
/// order.
pub open spec fn ratings_of(ratings: Seq<Rating>, entry_id: Seq<char>) -> Seq<Rating> {
    ratings.filter(is_rating_of(entry_id))
}

/// A copy of the rating.
fn copy_of(rating: &Rating) -> (copy: Rating)
    ensures
        copy == *rating,
{
    Rating {
        id: rating.id.clone(),
        entry_id: rating.entry_id.clone(),
        created: rating.created,
        title: rating.title.clone(),
        value: rating.value,
        context: rating.context,
        source: match &rating.source {
            Some(source) => Some(source.clone()),
            None => None,
        },
    }
}

/// The ratings of the entry with the identifier among the ratings.
pub fn ratings_of_entry(ratings: &[Rating], entry_id: &str) -> (found: Vec<Rating>)
    ensures
        found@ == ratings_of(ratings@, entry_id@),
{
    let id = entry_id.to_owned();
    let mut found: Vec<Rating> = Vec::new();
    let mut i: usize = 0;
    proof {
        reveal(Seq::filter);
        assert(ratings@.take(0) =~= Seq::<Rating>::empty());
    }
    while i < ratings.len()
        invariant
            i <= ratings.len(),
            id@ == entry_id@,
            found@ == ratings_of(ratings@.take(i as int), entry_id@),
        decreases ratings.len() - i,
    {
        proof {
            reveal(Seq::filter);
            assert(ratings@.take(i + 1).drop_last() =~= ratings@.take(i as int));
            assert(ratings@.take(i + 1).last() == ratings@[i as int]);
        }
        if ratings[i].entry_id == id {
            found.push(copy_of(&ratings[i]));
        }
        i = i + 1;
    }
    proof {
        assert(ratings@.take(i as int) =~= ratings@);
    }
    found
}

/// The score of the entry by those of the ratings that are given to it.
pub fn calculate_rating_for_entry(entry: &Entry, ratings: &[Rating]) -> (avg: AvgRatingValue)
    ensures
        avg.raw == aggregate_rating(ratings_of(ratings@, entry.id@)),
{
    let own = ratings_of_entry(ratings, entry.id.as_str());
    entry.avg_rating(own.as_slice())
}

/// The scores of the entries, each by those of the ratings that are given
/// to it: for each entry, in their order, its identifier and its score.
pub fn calculate_all_ratings(entries: &Vec<Entry>, ratings: &[Rating]) -> (scores: Vec<
    (String, AvgRatingValue),
>)
    ensures
        scores.len() == entries.len(),
        forall|i: int|
            0 <= i < scores.len() ==> (#[trigger] scores[i]).0@ == entries[i].id@ && scores[i].1.raw
                == aggregate_rating(ratings_of(ratings@, entries[i].id@)),
{
    let mut scores: Vec<(String, AvgRatingValue)> = Vec::new();
    let mut i: usize = 0;
    while i < entries.len()
        invariant
            i <= entries.len(),
            scores.len() == i,
            forall|k: int|
                0 <= k < i ==> (#[trigger] scores[k]).0@ == entries[k].id@ && scores[k].1.raw
                    == aggregate_rating(ratings_of(ratings@, entries[k].id@)),
        decreases entries.len() - i,
    {
        let score = calculate_rating_for_entry(&entries[i], ratings);
        scores.push((entries[i].id.clone(), score));
        i = i + 1;
    }
    scores
}

} // verus!
