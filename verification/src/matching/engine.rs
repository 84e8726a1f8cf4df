//! The matching engine: candidate retrieval, scoring, filtering and ranking.
//!
//! Scores are millionths (one is 1_000_000) and percentages are millionths
//! of a percent (one hundred percent is 100_000_000), so a match percentage
//! is its score times one hundred. Importances are plain weights.

use vstd::prelude::*;
use crate::error::AppError;
use crate::matching::elevation::correlation::{lemma_gradient_similarity_reflexive, varies};
use crate::matching::elevation::gradients::rolling_gradients;
use crate::matching::elevation::{
    rolling_gradient_elevation_similarity, rolling_similarity, CM_PER_KM,
};
use crate::matching::numeric::SCORE_ONE;
use crate::matching::geometry::{
    calculate_distance, create_distance_array, distance_array, total_length, GeoPoint, RouteLine,
    MAX_POINTS,
};
use crate::matching::shape::{
    hausdorff_distance, lemma_shape_similarity_reflexive, lemma_turn_similarity_reflexive,
    lemma_turns_above_range, shape_similarity, turn_count_similarity, turn_sequence_similarity,
    turns_above, TURN_THRESHOLD,
};
use crate::matching::samples::sample_route_views;
use crate::matching::spatial_index::{
    box_from_corners, boxes_overlap, candidates_in, stored_entries, RouteEntry, RouteEntryView,
    SpatialIndex, StoredRoute,
};

verus! {

/// One hundred percent, in millionths of a percent.
pub const PERCENT_FULL: u32 = 100_000_000;

/// The score of a candidate for which no metric counts: one half.
pub const NEUTRAL_SCORE: u32 = 500_000;

/// How a match request weighs and filters candidates.
///
/// `distance_flexibility`, `elevation_flexibility` and
/// `min_match_percentage` are percentages in millionths of a percent;
/// `granularity` is the rolling-grade window in centimetres.
#[derive(Clone, Copy, Debug, PartialEq, Eq, Structural)]
pub struct MatchingConfig {
    pub distance_flexibility: u32,
    pub elevation_flexibility: u32,
    pub shape_importance: u32,
    pub turns_importance: u32,
    pub elevation_importance: u32,
    pub granularity: u64,
    pub min_match_percentage: u32,
}

/// The default configuration: twenty percent flexibility, elevation as the
/// only metric, windows of one hundred metres, and a threshold of
/// twenty-five percent.
pub open spec fn default_config() -> MatchingConfig {
    MatchingConfig {
        distance_flexibility: 20_000_000,
        elevation_flexibility: 20_000_000,
        shape_importance: 0,
        turns_importance: 0,
        elevation_importance: 100,
        granularity: 10_000,
        min_match_percentage: 25_000_000,
    }
}

impl Default for MatchingConfig {
    fn default() -> (config: MatchingConfig)
        ensures
            config == default_config(),
    {
        MatchingConfig {
            distance_flexibility: 20_000_000,
            elevation_flexibility: 20_000_000,
            shape_importance: 0,
            turns_importance: 0,
            elevation_importance: 100,
            granularity: 10_000,
            min_match_percentage: 25_000_000,
        }
    }
}

/// A candidate that passed the filters, with its scores.
///
/// `distance` and `elevation_gain` are centimetres, `gain_per_km` is
/// centimetres of ascent per kilometre, `curve_score` is in millionths and
/// `match_percentage` is `curve_score` times one hundred.
#[derive(Debug)]
pub struct MatchResult {
    pub id: String,
    pub name: String,
    pub distance: u32,
    pub elevation_gain: u32,
    pub gain_per_km: u64,
    pub match_percentage: u32,
    pub curve_score: u32,
    pub geometry: RouteLine,
    pub elevation_profile: Vec<i32>,
}

/// The mathematical value of a match result.
pub struct MatchView {
    pub id: Seq<char>,
    pub name: Seq<char>,
    pub distance: u32,
    pub elevation_gain: u32,
    pub gain_per_km: int,
    pub match_percentage: int,
    pub curve_score: int,
    pub points: Seq<GeoPoint>,
    pub legs: Seq<u32>,
    pub turns: Seq<u32>,
    pub elevation_profile: Seq<i32>,
}

impl View for MatchResult {
    type V = MatchView;

    open spec fn view(&self) -> MatchView {
        MatchView {
            id: self.id@,
            name: self.name@,
            distance: self.distance,
            elevation_gain: self.elevation_gain,
            gain_per_km: self.gain_per_km as int,
            match_percentage: self.match_percentage as int,
            curve_score: self.curve_score as int,
            points: self.geometry.points@,
            legs: self.geometry.legs@,
            turns: self.geometry.turns@,
            elevation_profile: self.elevation_profile@,
        }
    }
}

/// The input of a match request as mathematical values.
pub struct InputView {
    pub points: Seq<GeoPoint>,
    pub legs: Seq<u32>,
    pub turns: Seq<u32>,
    pub elevation: Seq<i32>,
}

/// The input view of a line and an elevation profile.
pub open spec fn input_view(line: RouteLine, elevation: Seq<i32>) -> InputView {
    InputView { points: line.points@, legs: line.legs@, turns: line.turns@, elevation }
}

/// `candidate` lies within `flexibility` percent of `input`:
/// `input * (1 - f/100) <= candidate <= input * (1 + f/100)`.
pub open spec fn within_distance_window(candidate: int, input: int, flexibility: int) -> bool {
    input * (PERCENT_FULL - flexibility) <= candidate * PERCENT_FULL <= input * (PERCENT_FULL
        + flexibility)
}

/// The elevation metric counts for a candidate when it has an importance
/// and the candidate has an elevation profile.
pub open spec fn elevation_counts(candidate: RouteEntryView, config: MatchingConfig) -> bool {
    config.elevation_importance > 0 && candidate.elevation_profile.len() > 0
}

/// Elevation score of a candidate.
pub open spec fn elevation_score(input: InputView, candidate: RouteEntryView, config: MatchingConfig) -> int {
    rolling_similarity(
        input.elevation,
        candidate.elevation_profile,
        distance_array(input.legs, input.points.len()),
        distance_array(candidate.legs, candidate.points.len()),
        config.granularity,
    )
}

/// Shape score of a candidate.
pub open spec fn shape_score(input: InputView, candidate: RouteEntryView) -> int {
    shape_similarity(input.points, candidate.points)
}

/// Turn score of a candidate.
pub open spec fn turn_score(input: InputView, candidate: RouteEntryView) -> int {
    turn_count_similarity(
        turns_above(input.turns, TURN_THRESHOLD),
        turns_above(candidate.turns, TURN_THRESHOLD),
    )
}

/// A term of the combined score: the importance of a metric and the score
/// the metric gave.
pub struct ScoreTerm {
    pub importance: int,
    pub score: int,
}

/// Sum of score times importance over `terms`.
pub open spec fn terms_total(terms: Seq<ScoreTerm>) -> int
    decreases terms.len(),
{
    if terms.len() == 0 {
        0
    } else {
        terms_total(terms.drop_last()) + terms.last().score * terms.last().importance
    }
}

/// Sum of the importances of `terms`.
pub open spec fn terms_weight(terms: Seq<ScoreTerm>) -> int
    decreases terms.len(),
{
    if terms.len() == 0 {
        0
    } else {
        terms_weight(terms.drop_last()) + terms.last().importance
    }
}

/// The term of a metric: nothing when the metric does not count.
pub open spec fn metric_term(counts: bool, importance: int, score: int) -> Seq<ScoreTerm> {
    if counts {
        seq![ScoreTerm { importance, score }]
    } else {
        Seq::empty()
    }
}

/// The terms of a candidate's score: elevation, shape and turns, each only
/// when it counts.
pub open spec fn metric_terms(input: InputView, candidate: RouteEntryView, config: MatchingConfig) -> Seq<
    ScoreTerm,
> {
    metric_term(
        elevation_counts(candidate, config),
        config.elevation_importance as int,
        elevation_score(input, candidate, config),
    ) + metric_term(
        config.shape_importance > 0,
        config.shape_importance as int,
        shape_score(input, candidate),
    ) + metric_term(
        config.turns_importance > 0,
        config.turns_importance as int,
        turn_score(input, candidate),
    )
}

/// The weighted mean `total / weight`, or the neutral score when nothing
/// weighs.
pub open spec fn weighted_mean(total: int, weight: int) -> int {
    if weight > 0 {
        total / weight
    } else {
        NEUTRAL_SCORE as int
    }
}

/// Combined score of a candidate, in millionths.
pub open spec fn candidate_score(input: InputView, candidate: RouteEntryView, config: MatchingConfig) -> int {
    let terms = metric_terms(input, candidate, config);
    weighted_mean(terms_total(terms), terms_weight(terms))
}

/// Ascent per kilometre, in centimetres per kilometre; zero for a route of
/// no length.
pub open spec fn gain_per_km_of(elevation_gain: int, distance: int) -> int {
    if distance == 0 {
        0
    } else {
        (elevation_gain * CM_PER_KM) / distance
    }
}

/// The result a candidate gives when it passes the filters.
pub open spec fn match_view_of(input: InputView, candidate: RouteEntryView, config: MatchingConfig) -> MatchView {
    let score = candidate_score(input, candidate, config);
    MatchView {
        id: candidate.id,
        name: candidate.name,
        distance: candidate.distance,
        elevation_gain: candidate.elevation_gain,
        gain_per_km: gain_per_km_of(candidate.elevation_gain as int, candidate.distance as int),
        match_percentage: score * 100,
        curve_score: score,
        points: candidate.points,
        legs: candidate.legs,
        turns: candidate.turns,
        elevation_profile: candidate.elevation_profile,
    }
}

/// A candidate passes when its stored distance lies in the distance window
/// of the input and its match percentage reaches the configured minimum.
pub open spec fn passes_filters(input: InputView, candidate: RouteEntryView, config: MatchingConfig) -> bool {
    &&& within_distance_window(
        candidate.distance as int,
        total_length(input.legs),
        config.distance_flexibility as int,
    )
    &&& candidate_score(input, candidate, config) * 100 >= config.min_match_percentage
}

/// The results of the candidates that pass, in the order of the candidates.
pub open spec fn matches_in_order(
    input: InputView,
    candidates: Seq<RouteEntryView>,
    config: MatchingConfig,
) -> Seq<MatchView>
    decreases candidates.len(),
{
    if candidates.len() == 0 {
        Seq::empty()
    } else {
        let rest = matches_in_order(input, candidates.drop_last(), config);
        if passes_filters(input, candidates.last(), config) {
            rest.push(match_view_of(input, candidates.last(), config))
        } else {
            rest
        }
    }
}

/// `item` placed into a ranked list: behind every result whose percentage is
/// at least its own, before the others.
pub open spec fn rank_insert(ranked: Seq<MatchView>, item: MatchView) -> Seq<MatchView>
    decreases ranked.len(),
{
    if ranked.len() == 0 {
        seq![item]
    } else if ranked.last().match_percentage >= item.match_percentage {
        ranked.push(item)
    } else {
        rank_insert(ranked.drop_last(), item).push(ranked.last())
    }
}

/// `items` sorted by falling match percentage; results with equal
/// percentages keep their order.
pub open spec fn ranked(items: Seq<MatchView>) -> Seq<MatchView>
    decreases items.len(),
{
    if items.len() == 0 {
        Seq::empty()
    } else {
        rank_insert(ranked(items.drop_last()), items.last())
    }
}

/// The views of a list of results.
pub open spec fn match_views(results: Seq<MatchResult>) -> Seq<MatchView> {
    results.map_values(|r: MatchResult| r@)
}

/// The match percentage of a result is its score times one hundred, and its
/// score is at most one.
pub open spec fn consistent(m: MatchView) -> bool {
    m.match_percentage == m.curve_score * 100 && 0 <= m.curve_score <= SCORE_ONE
}

/// Every result of `s` is consistent.
pub open spec fn all_consistent(s: Seq<MatchView>) -> bool {
    forall|i: int| 0 <= i < s.len() ==> consistent(#[trigger] s[i])
}

/// Percentages never rise along `s`.
pub open spec fn falling(s: Seq<MatchView>) -> bool {
    forall|i: int, j: int| 0 <= i <= j < s.len() ==> s[i].match_percentage >= s[j].match_percentage
}

/// Every score is at most one.
pub proof fn lemma_weighted_mean_bound(total: int, weight: int)
    requires
        0 <= total <= SCORE_ONE * weight,
    ensures
        0 <= weighted_mean(total, weight) <= SCORE_ONE,
{
    if weight > 0 {
        assert(0 <= total / weight <= SCORE_ONE) by (nonlinear_arith)
            requires
                0 <= total <= SCORE_ONE * weight,
                weight > 0,
        ;
    }
}

/// Decides whether `candidate` lies within `flexibility` percent of `input`.
pub fn distance_in_window(candidate: u32, input: u32, flexibility: u32) -> (inside: bool)
    ensures
        inside == within_distance_window(candidate as int, input as int, flexibility as int),
{
    let full: i128 = PERCENT_FULL as i128;
    let down: i128 = full - flexibility as i128;
    let up: i128 = full + flexibility as i128;
    let base: i128 = input as i128;
    let found: i128 = candidate as i128;
    proof {
        assert(-0x1_0000_0000_0000_0000 <= base * down <= 0x1_0000_0000_0000_0000)
            by (nonlinear_arith)
            requires
                0 <= base <= 0xffff_ffff,
                -0xffff_ffff <= down <= 0xffff_ffff,
        ;
        assert(0 <= base * up <= 0x2_0000_0000_0000_0000) by (nonlinear_arith)
            requires
                0 <= base <= 0xffff_ffff,
                0 <= up <= 0x1_ffff_ffff,
        ;
        assert(0 <= found * full <= 0x1_0000_0000_0000_0000) by (nonlinear_arith)
            requires
                0 <= found <= 0xffff_ffff,
                0 <= full <= 0xffff_ffff,
        ;
    }
    let low: i128 = base * down;
    let high: i128 = base * up;
    let scaled: i128 = found * full;
    low <= scaled && scaled <= high
}

/// The weighted mean of `total` over `weight`, or the neutral score.
pub fn combine_scores(total: u64, weight: u64) -> (score: u32)
    requires
        total <= SCORE_ONE * weight,
    ensures
        score == weighted_mean(total as int, weight as int),
        score <= SCORE_ONE,
{
    proof {
        lemma_weighted_mean_bound(total as int, weight as int);
    }
    if weight > 0 {
        (total / weight) as u32
    } else {
        NEUTRAL_SCORE
    }
}

/// Ascent per kilometre of a route.
pub fn gain_per_km(elevation_gain: u32, distance: u32) -> (gain: u64)
    ensures
        gain == gain_per_km_of(elevation_gain as int, distance as int),
{
    if distance == 0 {
        0
    } else {
        (elevation_gain as u64 * CM_PER_KM) / (distance as u64)
    }
}

/// The mathematical values of a table of (importance, score) pairs.
pub open spec fn term_values(table: Seq<(u32, u32)>) -> Seq<ScoreTerm> {
    table.map_values(|t: (u32, u32)| ScoreTerm { importance: t.0 as int, score: t.1 as int })
}

/// Largest number of terms in a table of scores.
pub const MAX_TERMS: usize = 1_024;

/// Totals of tables: adding a term adds to both sums.
pub proof fn lemma_terms_push(terms: Seq<ScoreTerm>, term: ScoreTerm)
    ensures
        terms_total(terms.push(term)) == terms_total(terms) + term.score * term.importance,
        terms_weight(terms.push(term)) == terms_weight(terms) + term.importance,
{
    assert(terms.push(term).drop_last() =~= terms);
}

/// Folds a table of (importance, score) pairs into the combined score:
/// the sum of score times importance over the sum of the importances, or
/// the neutral score when nothing weighs.
pub fn weighted_score(table: &Vec<(u32, u32)>) -> (score: u32)
    requires
        table@.len() <= MAX_TERMS,
        forall|i: int| 0 <= i < table@.len() ==> (#[trigger] table@[i]).1 <= SCORE_ONE,
    ensures
        score == weighted_mean(
            terms_total(term_values(table@)),
            terms_weight(term_values(table@)),
        ),
        score <= SCORE_ONE,
{
    let ghost terms = term_values(table@);
    let mut total: u64 = 0;
    let mut weight: u64 = 0;
    let mut k: usize = 0;
    proof {
        assert(terms.take(0) =~= Seq::<ScoreTerm>::empty());
    }
    while k < table.len()
        invariant
            k <= table@.len(),
            table@.len() <= MAX_TERMS,
            terms == term_values(table@),
            forall|i: int| 0 <= i < table@.len() ==> (#[trigger] table@[i]).1 <= SCORE_ONE,
            total == terms_total(terms.take(k as int)),
            weight == terms_weight(terms.take(k as int)),
            total <= SCORE_ONE * weight,
            weight <= k * 0xffff_ffff,
        decreases table@.len() - k,
    {
        let (importance, score) = table[k];
        proof {
            let term = ScoreTerm { importance: importance as int, score: score as int };
            assert(terms.take(k + 1) =~= terms.take(k as int).push(term));
            lemma_terms_push(terms.take(k as int), term);
            assert(table@[k as int].1 <= SCORE_ONE);
            assert(0 <= score * importance <= SCORE_ONE * importance <= 1_000_000 * 0xffff_ffff)
                by (nonlinear_arith)
                requires
                    0 <= score <= SCORE_ONE,
                    0 <= importance <= 0xffff_ffff,
                    SCORE_ONE == 1_000_000,
            ;
            assert(SCORE_ONE * (weight + importance) == SCORE_ONE * weight + SCORE_ONE
                * importance) by (nonlinear_arith);
            assert(SCORE_ONE * weight <= 1_000_000 * (1_024 * 0xffff_ffff)) by (nonlinear_arith)
                requires
                    0 <= weight <= 1_024 * 0xffff_ffff,
                    SCORE_ONE == 1_000_000,
            ;
        }
        total = total + (score as u64) * (importance as u64);
        weight = weight + importance as u64;
        k = k + 1;
    }
    proof {
        assert(terms.take(k as int) =~= terms);
    }
    combine_scores(total, weight)
}

/// Scores one candidate against the input: a table with one row per metric
/// that counts, folded into the weighted mean, or the neutral score when no
/// metric counts.
///
/// A candidate without an elevation profile is scored without the elevation
/// metric.
pub fn score_candidate(
    input_route: &RouteLine,
    input_elevation: &[i32],
    input_distances: &Vec<u32>,
    candidate: &RouteEntry,
    config: &MatchingConfig,
) -> (score: u32)
    requires
        input_route.wf(),
        input_elevation@.len() <= MAX_POINTS,
        input_distances@ == distance_array(input_route.legs@, input_route.points@.len()),
        candidate@.wf(),
    ensures
        score == candidate_score(input_view(*input_route, input_elevation@), candidate@, *config),
        score <= SCORE_ONE,
{
    let ghost input = input_view(*input_route, input_elevation@);
    let mut table: Vec<(u32, u32)> = Vec::with_capacity(3);
    if config.elevation_importance > 0 && candidate.elevation_profile.len() > 0 {
        let candidate_distances = create_distance_array(&candidate.geometry);
        let elevation = rolling_gradient_elevation_similarity(
            input_elevation,
            candidate.elevation_profile.as_slice(),
            input_distances.as_slice(),
            candidate_distances.as_slice(),
            config.granularity,
        );
        table.push((config.elevation_importance, elevation));
    }
    let ghost after_elevation = table@;
    if config.shape_importance > 0 {
        let shape = hausdorff_distance(input_route, &candidate.geometry);
        table.push((config.shape_importance, shape));
    }
    let ghost after_shape = table@;
    if config.turns_importance > 0 {
        let turns = turn_sequence_similarity(input_route, &candidate.geometry);
        table.push((config.turns_importance, turns));
    }
    proof {
        let e = metric_term(
            elevation_counts(candidate@, *config),
            config.elevation_importance as int,
            elevation_score(input, candidate@, *config),
        );
        let s = metric_term(
            config.shape_importance > 0,
            config.shape_importance as int,
            shape_score(input, candidate@),
        );
        let t = metric_term(
            config.turns_importance > 0,
            config.turns_importance as int,
            turn_score(input, candidate@),
        );
        assert(term_values(after_elevation) =~= e);
        assert(term_values(after_shape) =~= e + s);
        assert(term_values(table@) =~= e + s + t);
    }
    weighted_score(&table)
}

/// Places `item` into the ranked list `results`.
pub fn insert_ranked(results: &mut Vec<MatchResult>, item: MatchResult)
    ensures
        match_views(final(results)@) == rank_insert(match_views(old(results)@), item@),
{
    let ghost before = results@;
    let mut pos: usize = results.len();
    while pos > 0 && results[pos - 1].match_percentage < item.match_percentage
        invariant
            pos <= results@.len(),
            results@ == before,
            forall|t: int|
                pos <= t < before.len() ==> (#[trigger] before[t]).match_percentage
                    < item.match_percentage,
        decreases pos,
    {
        pos = pos - 1;
    }
    let ghost placed = item@;
    results.insert(pos, item);
    proof {
        lemma_rank_insert_at(match_views(before), placed, pos as int);
        assert(match_views(results@) =~= match_views(before).insert(pos as int, placed));
    }
}

/// Where `rank_insert` puts an item: at `pos` when everything from `pos` on
/// has a smaller percentage and the result before `pos`, if any, has not.
pub proof fn lemma_rank_insert_at(ranked: Seq<MatchView>, item: MatchView, pos: int)
    requires
        0 <= pos <= ranked.len(),
        forall|t: int|
            pos <= t < ranked.len() ==> (#[trigger] ranked[t]).match_percentage
                < item.match_percentage,
        pos > 0 ==> ranked[pos - 1].match_percentage >= item.match_percentage,
    ensures
        rank_insert(ranked, item) == ranked.insert(pos, item),
    decreases ranked.len(),
{
    if ranked.len() == 0 {
        assert(ranked.insert(0, item) =~= seq![item]);
    } else if pos == ranked.len() {
        assert(ranked.insert(pos, item) =~= ranked.push(item));
    } else {
        assert(ranked.last().match_percentage < item.match_percentage);
        lemma_rank_insert_at(ranked.drop_last(), item, pos);
        assert(ranked.drop_last().insert(pos, item).push(ranked.last()) =~= ranked.insert(
            pos,
            item,
        ));
    }
}

/// The matching engine: a spatial index over the candidate routes.
pub struct MatchingEngine {
    pub spatial_index: SpatialIndex,
}

/// What a match request returns: the results of the candidates in the search
/// rectangle that pass the filters, ranked.
pub open spec fn ranked_matches(
    candidates: Seq<RouteEntryView>,
    input: InputView,
    bounds: (i32, i32, i32, i32),
    config: MatchingConfig,
) -> Seq<MatchView> {
    ranked(matches_in_order(input, candidates_in(candidates, box_from_corners(bounds)), config))
}

impl MatchingEngine {
    /// The index is well formed.
    pub open spec fn wf(&self) -> bool {
        self.spatial_index.wf()
    }

    /// An engine over the built-in sample routes.
    pub fn new() -> (engine: MatchingEngine)
        ensures
            engine.wf(),
            engine.spatial_index.entries() == sample_route_views(),
    {
        MatchingEngine { spatial_index: SpatialIndex::new() }
    }

    /// An engine over the routes of the store; see `SpatialIndex::from_stored`.
    pub fn from_stored(stored: Vec<StoredRoute>) -> (engine: MatchingEngine)
        ensures
            engine.wf(),
            engine.spatial_index.entries() == (if stored_entries(stored@).len() == 0 {
                sample_route_views()
            } else {
                stored_entries(stored@)
            }),
    {
        MatchingEngine { spatial_index: SpatialIndex::from_stored(stored) }
    }

    /// Finds the candidates similar to the input route.
    ///
    /// Takes the candidates whose bounding box meets the rectangle spanned by
    /// the corners in `search_bounds`, drops those whose stored distance lies
    /// outside the distance window of the input, scores the rest, drops
    /// those below the minimum match percentage, and returns the others
    /// ranked by falling match percentage, equal percentages in the order
    /// of the index. The request never fails.
    pub fn find_matches_with_config(
        &self,
        input_route: &RouteLine,
        input_elevation: &[i32],
        search_bounds: (i32, i32, i32, i32),
        config: MatchingConfig,
    ) -> (found: Result<Vec<MatchResult>, AppError>)
        requires
            self.wf(),
            input_route.wf(),
            input_elevation@.len() <= MAX_POINTS,
        ensures
            found matches Ok(results) && match_views(results@) == ranked_matches(
                self.spatial_index.entries(),
                input_view(*input_route, input_elevation@),
                search_bounds,
                config,
            ) && falling(match_views(results@)) && all_consistent(match_views(results@)),
    {
        let ghost input = input_view(*input_route, input_elevation@);
        let input_distance = calculate_distance(input_route);
        let input_distances = create_distance_array(input_route);
        let positions = self.spatial_index.candidate_positions(search_bounds);
        let ghost candidates = candidates_in(
            self.spatial_index.entries(),
            box_from_corners(search_bounds),
        );
        let mut results: Vec<MatchResult> = Vec::new();
        let mut k: usize = 0;
        proof {
            assert(candidates.take(0) =~= Seq::<RouteEntryView>::empty());
            assert(match_views(results@) =~= Seq::<MatchView>::empty());
        }
        while k < positions.len()
            invariant
                k <= positions@.len(),
                self.wf(),
                input_route.wf(),
                input_elevation@.len() <= MAX_POINTS,
                input == input_view(*input_route, input_elevation@),
                input_distance == total_length(input_route.legs@),
                input_distances@ == distance_array(input_route.legs@, input_route.points@.len()),
                forall|t: int|
                    0 <= t < positions@.len() ==> (#[trigger] positions@[t])
                        < self.spatial_index.routes@.len(),
                candidates == positions@.map_values(
                    |p: usize| self.spatial_index.routes@[p as int]@,
                ),
                match_views(results@) == ranked(
                    matches_in_order(input, candidates.take(k as int), config),
                ),
                falling(match_views(results@)),
                all_consistent(match_views(results@)),
            decreases positions@.len() - k,
        {
            let candidate = &self.spatial_index.routes[positions[k]];
            let ghost before = matches_in_order(input, candidates.take(k as int), config);
            let ghost after = matches_in_order(input, candidates.take(k + 1), config);
            proof {
                assert(candidates.take(k + 1).drop_last() =~= candidates.take(k as int));
                assert(candidates.take(k + 1).last() == candidate@);
                assert(candidate@.wf());
                if passes_filters(input, candidate@, config) {
                    let item = match_view_of(input, candidate@, config);
                    assert(after == before.push(item));
                    assert(after.drop_last() =~= before);
                    assert(ranked(after) == rank_insert(ranked(before), item));
                } else {
                    assert(after == before);
                }
            }
            if distance_in_window(candidate.distance, input_distance, config.distance_flexibility) {
                let score = score_candidate(
                    input_route,
                    input_elevation,
                    &input_distances,
                    candidate,
                    &config,
                );
                let match_percentage: u32 = score * 100;
                if match_percentage >= config.min_match_percentage {
                    let item = MatchResult {
                        id: candidate.id.clone(),
                        name: candidate.name.clone(),
                        distance: candidate.distance,
                        elevation_gain: candidate.elevation_gain,
                        gain_per_km: gain_per_km(candidate.elevation_gain, candidate.distance),
                        match_percentage,
                        curve_score: score,
                        geometry: candidate.geometry.duplicate(),
                        elevation_profile: candidate.elevation_profile.clone(),
                    };
                    let ghost placed = item@;
                    let ghost earlier = match_views(results@);
                    proof {
                        assert(placed == match_view_of(input, candidate@, config));
                        assert(consistent(placed));
                        lemma_rank_insert_falling(earlier, placed);
                    }
                    insert_ranked(&mut results, item);
                    proof {
                        let now = match_views(results@);
                        assert forall|i: int| 0 <= i < now.len() implies consistent(
                            #[trigger] now[i],
                        ) by {
                            assert(now.contains(now[i]));
                            if now[i] != placed {
                                assert(earlier.contains(now[i]));
                                let t = choose|t: int| 0 <= t < earlier.len() && earlier[t] == now[i];
                                assert(consistent(earlier[t]));
                            }
                        }
                    }
                }
            }
            k = k + 1;
        }
        proof {
            assert(candidates.take(k as int) =~= candidates);
        }
        Ok(results)
    }

    /// Finds matches with the default configuration but for the two
    /// flexibilities given.
    pub fn find_matches(
        &self,
        input_route: &RouteLine,
        input_elevation: &[i32],
        search_bounds: (i32, i32, i32, i32),
        distance_flexibility: u32,
        elevation_flexibility: u32,
    ) -> (found: Result<Vec<MatchResult>, AppError>)
        requires
            self.wf(),
            input_route.wf(),
            input_elevation@.len() <= MAX_POINTS,
        ensures
            found matches Ok(results) && match_views(results@) == ranked_matches(
                self.spatial_index.entries(),
                input_view(*input_route, input_elevation@),
                search_bounds,
                (MatchingConfig { distance_flexibility, elevation_flexibility, ..default_config() }),
            ) && falling(match_views(results@)) && all_consistent(match_views(results@)),
    {
        let defaults = MatchingConfig::default();
        let config = MatchingConfig {
            distance_flexibility,
            elevation_flexibility,
            shape_importance: defaults.shape_importance,
            turns_importance: defaults.turns_importance,
            elevation_importance: defaults.elevation_importance,
            granularity: defaults.granularity,
            min_match_percentage: defaults.min_match_percentage,
        };
        self.find_matches_with_config(input_route, input_elevation, search_bounds, config)
    }
}

/// Placing a result into a falling list leaves it falling.
pub proof fn lemma_rank_insert_falling(ranked: Seq<MatchView>, item: MatchView)
    requires
        falling(ranked),
    ensures
        falling(rank_insert(ranked, item)),
        rank_insert(ranked, item).len() == ranked.len() + 1,
        forall|m: MatchView|
            #![trigger rank_insert(ranked, item).contains(m)]
            #![trigger ranked.contains(m)]
            rank_insert(ranked, item).contains(m) <==> (m == item || ranked.contains(m)),
    decreases ranked.len(),
{
    let out = rank_insert(ranked, item);
    if ranked.len() == 0 {
        assert forall|m: MatchView| out.contains(m) <==> (m == item || ranked.contains(m)) by {
            if out.contains(m) {
                let k = choose|k: int| 0 <= k < out.len() && out[k] == m;
            }
            if m == item {
                assert(out[0] == m);
            }
        }
    } else if ranked.last().match_percentage >= item.match_percentage {
        assert forall|i: int, j: int| 0 <= i <= j < out.len() implies out[i].match_percentage
            >= out[j].match_percentage by {
            if j == ranked.len() && i < ranked.len() {
                assert(ranked[i].match_percentage >= ranked[ranked.len() - 1].match_percentage);
            }
        }
        assert forall|m: MatchView| out.contains(m) <==> (m == item || ranked.contains(m)) by {
            if out.contains(m) {
                let k = choose|k: int| 0 <= k < out.len() && out[k] == m;
                if k < ranked.len() {
                    assert(ranked[k] == m);
                }
            }
            if m == item {
                assert(out[ranked.len() as int] == m);
            }
            if ranked.contains(m) {
                let k = choose|k: int| 0 <= k < ranked.len() && ranked[k] == m;
                assert(out[k] == m);
            }
        }
    } else {
        let head = ranked.drop_last();
        assert(falling(head)) by {
            assert forall|i: int, j: int| 0 <= i <= j < head.len() implies head[i].match_percentage
                >= head[j].match_percentage by {
                assert(ranked[i].match_percentage >= ranked[j].match_percentage);
            }
        }
        lemma_rank_insert_falling(head, item);
        let inner = rank_insert(head, item);
        assert(out == inner.push(ranked.last()));
        assert forall|i: int, j: int| 0 <= i <= j < out.len() implies out[i].match_percentage
            >= out[j].match_percentage by {
            if j == inner.len() && i < inner.len() {
                assert(inner.contains(inner[i]));
                if inner[i] != item {
                    assert(head.contains(inner[i]));
                    let t = choose|t: int| 0 <= t < head.len() && head[t] == inner[i];
                    assert(ranked[t].match_percentage >= ranked[ranked.len() - 1].match_percentage);
                }
            }
        }
        assert forall|m: MatchView| out.contains(m) <==> (m == item || ranked.contains(m)) by {
            if out.contains(m) {
                let k = choose|k: int| 0 <= k < out.len() && out[k] == m;
                if k < inner.len() {
                    assert(inner[k] == m);
                    assert(inner.contains(m));
                    if m != item {
                        assert(head.contains(m));
                        let t = choose|t: int| 0 <= t < head.len() && head[t] == m;
                        assert(ranked[t] == m);
                    }
                } else {
                    assert(ranked[ranked.len() - 1] == m);
                }
            }
            if m == item {
                assert(inner.contains(item));
                let t = choose|t: int| 0 <= t < inner.len() && inner[t] == m;
                assert(out[t] == m);
            }
            if ranked.contains(m) {
                let k = choose|k: int| 0 <= k < ranked.len() && ranked[k] == m;
                if k < head.len() {
                    assert(head[k] == m);
                    assert(head.contains(m));
                    assert(inner.contains(m));
                    let t = choose|t: int| 0 <= t < inner.len() && inner[t] == m;
                    assert(out[t] == m);
                } else {
                    assert(out[inner.len() as int] == m);
                }
            }
        }
    }
}

/// The candidate has the geometry and the elevation profile of the input.
pub open spec fn same_route(input: InputView, candidate: RouteEntryView) -> bool {
    &&& candidate.points == input.points
    &&& candidate.legs == input.legs
    &&& candidate.turns == input.turns
    &&& candidate.elevation_profile == input.elevation
}

/// The rolling grades of the input.
pub open spec fn input_gradients(input: InputView, config: MatchingConfig) -> Seq<i16> {
    rolling_gradients(
        input.elevation,
        distance_array(input.legs, input.points.len()),
        config.granularity,
    )
}

/// When every term scores one, the total is the weight.
pub proof fn lemma_full_scores_total(terms: Seq<ScoreTerm>)
    requires
        forall|i: int| 0 <= i < terms.len() ==> (#[trigger] terms[i]).score == SCORE_ONE,
    ensures
        terms_total(terms) == SCORE_ONE * terms_weight(terms),
    decreases terms.len(),
{
    if terms.len() > 0 {
        let head = terms.drop_last();
        assert forall|i: int| 0 <= i < head.len() implies (#[trigger] head[i]).score
            == SCORE_ONE by {
            assert(head[i] == terms[i]);
        }
        lemma_full_scores_total(head);
        let w = terms_weight(head);
        let m = terms.last().importance;
        assert(terms.last().score == SCORE_ONE);
        assert(SCORE_ONE * w + SCORE_ONE * m == SCORE_ONE * (w + m)) by (nonlinear_arith);
    }
}

/// The weight of a candidate: the sum of the importances of the metrics
/// that count for it.
pub open spec fn score_weight(input: InputView, candidate: RouteEntryView, config: MatchingConfig) -> int {
    terms_weight(metric_terms(input, candidate, config))
}

/// A candidate identical to the input scores one, provided some metric
/// counts and, where the elevation metric counts, the grades of the route
/// are not all the same.
pub proof fn lemma_identical_route_scores_one(
    input: InputView,
    candidate: RouteEntryView,
    config: MatchingConfig,
)
    requires
        same_route(input, candidate),
        score_weight(input, candidate, config) > 0,
        elevation_counts(candidate, config) ==> varies(input_gradients(input, config)),
    ensures
        candidate_score(input, candidate, config) == SCORE_ONE,
        candidate_score(input, candidate, config) * 100 == PERCENT_FULL,
{
    let terms = metric_terms(input, candidate, config);
    if elevation_counts(candidate, config) {
        lemma_gradient_similarity_reflexive(input_gradients(input, config));
        assert(elevation_score(input, candidate, config) == SCORE_ONE);
    }
    if config.shape_importance > 0 {
        lemma_shape_similarity_reflexive(input.points);
    }
    if config.turns_importance > 0 {
        lemma_turns_above_range(input.turns, TURN_THRESHOLD);
        lemma_turn_similarity_reflexive(turns_above(input.turns, TURN_THRESHOLD));
    }
    assert forall|i: int| 0 <= i < terms.len() implies (#[trigger] terms[i]).score
        == SCORE_ONE by {}
    lemma_full_scores_total(terms);
    let weight = terms_weight(terms);
    assert((SCORE_ONE * weight) / weight == SCORE_ONE) by (nonlinear_arith)
        requires
            weight > 0,
    ;
}

/// A candidate identical to the input, stored with the distance of the
/// input, passes the filters with a match of one hundred percent whenever
/// the threshold is at most one hundred percent.
pub proof fn lemma_identical_route_matches(
    input: InputView,
    candidate: RouteEntryView,
    config: MatchingConfig,
)
    requires
        same_route(input, candidate),
        candidate.distance == total_length(input.legs),
        score_weight(input, candidate, config) > 0,
        elevation_counts(candidate, config) ==> varies(input_gradients(input, config)),
        config.min_match_percentage <= PERCENT_FULL,
    ensures
        passes_filters(input, candidate, config),
        match_view_of(input, candidate, config).match_percentage == PERCENT_FULL,
{
    lemma_identical_route_scores_one(input, candidate, config);
    let d = candidate.distance as int;
    let f = config.distance_flexibility as int;
    assert(d * (PERCENT_FULL - f) <= d * PERCENT_FULL <= d * (PERCENT_FULL + f))
        by (nonlinear_arith)
        requires
            d >= 0,
            f >= 0,
    ;
}

/// A candidate passes the threshold exactly when its match percentage is
/// at least the configured minimum: at the minimum it is kept, one unit
/// below it is dropped.
pub proof fn lemma_threshold_boundary(
    input: InputView,
    candidate: RouteEntryView,
    config: MatchingConfig,
)
    requires
        within_distance_window(
            candidate.distance as int,
            total_length(input.legs),
            config.distance_flexibility as int,
        ),
    ensures
        passes_filters(input, candidate, config) <==> match_view_of(
            input,
            candidate,
            config,
        ).match_percentage >= config.min_match_percentage,
        match_view_of(input, candidate, config).match_percentage == config.min_match_percentage
            ==> passes_filters(input, candidate, config),
        match_view_of(input, candidate, config).match_percentage + 1
            == config.min_match_percentage ==> !passes_filters(input, candidate, config),
{
}

/// A candidate whose stored distance lies outside the distance window of
/// the input never passes.
pub proof fn lemma_outside_window_excluded(
    input: InputView,
    candidate: RouteEntryView,
    config: MatchingConfig,
)
    requires
        !within_distance_window(
            candidate.distance as int,
            total_length(input.legs),
            config.distance_flexibility as int,
        ),
    ensures
        !passes_filters(input, candidate, config),
{
}

/// Every result in order comes from a candidate that passes the filters.
pub proof fn lemma_matches_come_from_candidates(
    input: InputView,
    candidates: Seq<RouteEntryView>,
    config: MatchingConfig,
    m: MatchView,
)
    requires
        matches_in_order(input, candidates, config).contains(m),
    ensures
        exists|i: int|
            0 <= i < candidates.len() && passes_filters(input, #[trigger] candidates[i], config)
                && m == match_view_of(input, candidates[i], config),
    decreases candidates.len(),
{
    let all = matches_in_order(input, candidates, config);
    if candidates.len() > 0 {
        let head = candidates.drop_last();
        let rest = matches_in_order(input, head, config);
        let k = choose|k: int| 0 <= k < all.len() && all[k] == m;
        if passes_filters(input, candidates.last(), config) && k == rest.len() {
            assert(m == match_view_of(input, candidates[candidates.len() - 1], config));
        } else {
            assert(rest[k] == m);
            assert(rest.contains(m));
            lemma_matches_come_from_candidates(input, head, config, m);
            let i = choose|i: int|
                0 <= i < head.len() && passes_filters(input, #[trigger] head[i], config) && m
                    == match_view_of(input, head[i], config);
            assert(candidates[i] == head[i]);
        }
    }
}

/// Ranking neither adds nor loses results.
pub proof fn lemma_ranked_members(items: Seq<MatchView>)
    ensures
        falling(ranked(items)),
        ranked(items).len() == items.len(),
        forall|m: MatchView| #[trigger] ranked(items).contains(m) <==> items.contains(m),
    decreases items.len(),
{
    if items.len() > 0 {
        let head = items.drop_last();
        lemma_ranked_members(head);
        lemma_rank_insert_falling(ranked(head), items.last());
        assert forall|m: MatchView| #[trigger] ranked(items).contains(m) <==> items.contains(
            m,
        ) by {
            if ranked(items).contains(m) {
                if m != items.last() {
                    assert(ranked(head).contains(m));
                    assert(head.contains(m));
                    let t = choose|t: int| 0 <= t < head.len() && head[t] == m;
                    assert(items[t] == m);
                } else {
                    assert(items[items.len() - 1] == m);
                }
            }
            if items.contains(m) {
                let t = choose|t: int| 0 <= t < items.len() && items[t] == m;
                if t < head.len() {
                    assert(head[t] == m);
                    assert(head.contains(m));
                    assert(ranked(head).contains(m));
                }
            }
        }
    }
}

/// Every result of a match request comes from a candidate whose bounding
/// box meets the search rectangle: a candidate outside the rectangle never
/// appears.
pub proof fn lemma_results_inside_bounds(
    candidates: Seq<RouteEntryView>,
    input: InputView,
    bounds: (i32, i32, i32, i32),
    config: MatchingConfig,
    m: MatchView,
)
    requires
        ranked_matches(candidates, input, bounds, config).contains(m),
    ensures
        exists|i: int|
            0 <= i < candidates.len() && boxes_overlap(
                (#[trigger] candidates[i]).bbox,
                box_from_corners(bounds),
            ) && passes_filters(input, candidates[i], config) && m == match_view_of(
                input,
                candidates[i],
                config,
            ),
{
    let query = box_from_corners(bounds);
    let pred = |r: RouteEntryView| boxes_overlap(r.bbox, query);
    let inside = candidates_in(candidates, query);
    let ordered = matches_in_order(input, inside, config);
    lemma_ranked_members(ordered);
    assert(ordered.contains(m));
    lemma_matches_come_from_candidates(input, inside, config, m);
    let k = choose|k: int|
        0 <= k < inside.len() && passes_filters(input, #[trigger] inside[k], config) && m
            == match_view_of(input, inside[k], config);
    candidates.lemma_filter_pred(pred, k);
    assert(inside.contains(inside[k]));
    candidates.lemma_filter_contains_rev(pred, inside[k]);
    assert(candidates.contains(inside[k]) && pred(inside[k]));
    let i = choose|i: int| 0 <= i < candidates.len() && candidates[i] == inside[k];
    assert(boxes_overlap(candidates[i].bbox, query));
}

/// Every candidate that passes the filters gives a result in order.
pub proof fn lemma_passing_candidate_in_order(
    input: InputView,
    candidates: Seq<RouteEntryView>,
    config: MatchingConfig,
    i: int,
)
    requires
        0 <= i < candidates.len(),
        passes_filters(input, candidates[i], config),
    ensures
        matches_in_order(input, candidates, config).contains(
            match_view_of(input, candidates[i], config),
        ),
    decreases candidates.len(),
{
    let all = matches_in_order(input, candidates, config);
    let head = candidates.drop_last();
    let rest = matches_in_order(input, head, config);
    let wanted = match_view_of(input, candidates[i], config);
    if i == candidates.len() - 1 {
        assert(all == rest.push(wanted));
        assert(all[rest.len() as int] == wanted);
    } else {
        assert(head[i] == candidates[i]);
        lemma_passing_candidate_in_order(input, head, config, i);
        let k = choose|k: int| 0 <= k < rest.len() && rest[k] == wanted;
        assert(all[k] == wanted);
    }
}

/// A candidate whose bounding box meets the search rectangle and that
/// passes the filters is among the results.
pub proof fn lemma_passing_candidate_found(
    candidates: Seq<RouteEntryView>,
    input: InputView,
    bounds: (i32, i32, i32, i32),
    config: MatchingConfig,
    i: int,
)
    requires
        0 <= i < candidates.len(),
        boxes_overlap(candidates[i].bbox, box_from_corners(bounds)),
        passes_filters(input, candidates[i], config),
    ensures
        ranked_matches(candidates, input, bounds, config).contains(
            match_view_of(input, candidates[i], config),
        ),
{
    let query = box_from_corners(bounds);
    let pred = |r: RouteEntryView| boxes_overlap(r.bbox, query);
    let inside = candidates_in(candidates, query);
    candidates.lemma_filter_contains(pred, i);
    let k = choose|k: int| 0 <= k < inside.len() && inside[k] == candidates[i];
    candidates.lemma_filter_pred(pred, k);
    lemma_passing_candidate_in_order(input, inside, config, k);
    lemma_ranked_members(matches_in_order(input, inside, config));
}

/// Two identical routes match fully: a candidate identical to the input,
/// stored with its distance and lying in the search rectangle, is among the
/// results with a match of one hundred percent.
pub proof fn lemma_identical_route_found(
    candidates: Seq<RouteEntryView>,
    input: InputView,
    bounds: (i32, i32, i32, i32),
    config: MatchingConfig,
    i: int,
)
    requires
        0 <= i < candidates.len(),
        boxes_overlap(candidates[i].bbox, box_from_corners(bounds)),
        same_route(input, candidates[i]),
        candidates[i].distance == total_length(input.legs),
        score_weight(input, candidates[i], config) > 0,
        elevation_counts(candidates[i], config) ==> varies(input_gradients(input, config)),
        config.min_match_percentage <= PERCENT_FULL,
    ensures
        ranked_matches(candidates, input, bounds, config).contains(
            match_view_of(input, candidates[i], config),
        ),
        match_view_of(input, candidates[i], config).match_percentage == PERCENT_FULL,
{
    lemma_identical_route_matches(input, candidates[i], config);
    lemma_passing_candidate_found(candidates, input, bounds, config, i);
}

} // verus!
