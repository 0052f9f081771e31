//! The torrent-candidate selector: a pure, deterministic ranking over search
//! results and the acquisition policy.
//!
//! The pipeline has three stages: filter to candidates whose category ends
//! with a target category and whose size exceeds the minimum; pick the
//! winning seeder tier (the last tier of the ordered list whose count
//! requirement still holds, the first tier as explicit fallback) and retain
//! only candidates meeting its seeder threshold; among the survivors return
//! the candidate closest in size to the ideal size, the first one winning an
//! exact tie.

use vstd::prelude::*;
use crate::config::{Config, SeederRule};
use crate::text::{spec_is_suffix, str_ends_with};

verus! {

/// One torrent search result.
pub struct Candidate {
    pub title: String,
    pub category: String,
    /// Download reference submitted to the download queue when this
    /// candidate wins.
    pub download: String,
    pub seeders: i32,
    pub leechers: i32,
    pub size: i64,
}

/// Mathematical value of a candidate.
pub ghost struct CandidateV {
    pub title: Seq<char>,
    pub category: Seq<char>,
    pub download: Seq<char>,
    pub seeders: i32,
    pub leechers: i32,
    pub size: i64,
}

impl View for Candidate {
    type V = CandidateV;

    open spec fn view(&self) -> CandidateV {
        CandidateV {
            title: self.title@,
            category: self.category@,
            download: self.download@,
            seeders: self.seeders,
            leechers: self.leechers,
            size: self.size,
        }
    }
}

impl Candidate {
    /// An exact copy of the candidate.
    pub fn duplicate(&self) -> (r: Candidate)
        ensures
            r@ == self@,
    {
        Candidate {
            title: self.title.clone(),
            category: self.category.clone(),
            download: self.download.clone(),
            seeders: self.seeders,
            leechers: self.leechers,
            size: self.size,
        }
    }
}

/// The values of a candidate list.
pub open spec fn cand_views(s: Seq<Candidate>) -> Seq<CandidateV> {
    s.map_values(|c: Candidate| c@)
}

/// A candidate passes the basic filter: its category ends with one of the
/// target categories, and its size exceeds the minimum.
pub open spec fn spec_cand_passes(c: CandidateV, cats: Seq<Seq<char>>, min_size: i64) -> bool {
    (exists|k: int| 0 <= k < cats.len() && spec_is_suffix(cats[k], c.category)) && c.size
        > min_size
}

/// The candidates passing the basic filter, in input order.
pub open spec fn spec_filtered(s: Seq<CandidateV>, cats: Seq<Seq<char>>, min_size: i64) -> Seq<
    CandidateV,
>
    decreases s.len(),
{
    if s.len() == 0 {
        Seq::empty()
    } else {
        let rest = spec_filtered(s.drop_last(), cats, min_size);
        if spec_cand_passes(s.last(), cats, min_size) {
            rest.push(s.last())
        } else {
            rest
        }
    }
}

/// How many candidates of `s` have at least `min_seeders` seeders.
pub open spec fn spec_seeder_count(s: Seq<CandidateV>, min_seeders: i32) -> nat
    decreases s.len(),
{
    if s.len() == 0 {
        0
    } else {
        spec_seeder_count(s.drop_last(), min_seeders) + if s.last().seeders >= min_seeders {
            1nat
        } else {
            0nat
        }
    }
}

/// The tier's count requirement holds on `s`.
pub open spec fn spec_tier_ok(s: Seq<CandidateV>, rule: SeederRule) -> bool {
    spec_seeder_count(s, rule.min_seeders) >= rule.available_magnets
}

/// Length of the longest prefix of `rules` whose tiers all satisfy their
/// count requirement on `s`.
pub open spec fn spec_sat_prefix_len(s: Seq<CandidateV>, rules: Seq<SeederRule>) -> int
    decreases rules.len(),
{
    if rules.len() == 0 {
        0
    } else if spec_tier_ok(s, rules[0]) {
        1 + spec_sat_prefix_len(s, rules.drop_first())
    } else {
        0
    }
}

/// Index of the winning tier: the last tier of the satisfied prefix, or the
/// first tier as explicit fallback when even it fails its count requirement.
pub open spec fn spec_winning_tier(s: Seq<CandidateV>, rules: Seq<SeederRule>) -> int {
    let p = spec_sat_prefix_len(s, rules);
    if p == 0 {
        0
    } else {
        p - 1
    }
}

/// The satisfied prefix is a prefix: every tier before its end holds, and
/// the tier just after it (if any) fails.
pub proof fn lemma_sat_prefix(s: Seq<CandidateV>, rules: Seq<SeederRule>)
    ensures
        0 <= spec_sat_prefix_len(s, rules) <= rules.len(),
        forall|j: int|
            0 <= j < spec_sat_prefix_len(s, rules) ==> spec_tier_ok(s, #[trigger] rules[j]),
        spec_sat_prefix_len(s, rules) < rules.len() ==> !spec_tier_ok(
            s,
            rules[spec_sat_prefix_len(s, rules)],
        ),
    decreases rules.len(),
{
    if rules.len() > 0 && spec_tier_ok(s, rules[0]) {
        lemma_sat_prefix(s, rules.drop_first());
        assert forall|j: int| 0 <= j < spec_sat_prefix_len(s, rules) implies spec_tier_ok(
            s,
            #[trigger] rules[j],
        ) by {
            if j > 0 {
                assert(rules.drop_first()[j - 1] == rules[j]);
            }
        }
        if spec_sat_prefix_len(s, rules) < rules.len() {
            assert(rules.drop_first()[spec_sat_prefix_len(s, rules.drop_first())]
                == rules[spec_sat_prefix_len(s, rules)]);
        }
    }
}

/// The candidates of `s` meeting the seeder threshold, in input order.
pub open spec fn spec_retained(s: Seq<CandidateV>, min_seeders: i32) -> Seq<CandidateV>
    decreases s.len(),
{
    if s.len() == 0 {
        Seq::empty()
    } else {
        let rest = spec_retained(s.drop_last(), min_seeders);
        if s.last().seeders >= min_seeders {
            rest.push(s.last())
        } else {
            rest
        }
    }
}

/// The whole filtering stage: basic filter, then retention by the winning
/// tier's seeder threshold.
pub open spec fn spec_filter_magnets(cfg: &Config, s: Seq<CandidateV>) -> Seq<CandidateV> {
    let cats = cfg.target_categories.deep_view();
    let f = spec_filtered(s, cats, cfg.min_file_size);
    spec_retained(f, cfg.seeders@[spec_winning_tier(f, cfg.seeders@)].min_seeders)
}

/// Distance of a candidate's size from the ideal size.
pub open spec fn spec_dist(ideal: i64, size: i64) -> int {
    if ideal >= size {
        ideal - size
    } else {
        size - ideal
    }
}

/// Index of the first candidate of `s` whose size is closest to the ideal
/// size (the first encountered minimum wins exact ties).
pub open spec fn spec_best_index(ideal: i64, s: Seq<CandidateV>) -> int
    decreases s.len(),
{
    if s.len() <= 1 {
        0
    } else {
        let b = spec_best_index(ideal, s.drop_last());
        if spec_dist(ideal, s.last().size) < spec_dist(ideal, s[b].size) {
            s.len() - 1
        } else {
            b
        }
    }
}

/// `spec_best_index` names the first index attaining the minimal distance.
pub proof fn lemma_best_index_first_min(ideal: i64, s: Seq<CandidateV>)
    requires
        s.len() > 0,
    ensures
        0 <= spec_best_index(ideal, s) < s.len(),
        forall|j: int|
            0 <= j < s.len() ==> spec_dist(ideal, s[spec_best_index(ideal, s)].size) <= spec_dist(
                ideal,
                (#[trigger] s[j]).size,
            ),
        forall|j: int|
            0 <= j < spec_best_index(ideal, s) ==> spec_dist(ideal, (#[trigger] s[j]).size)
                > spec_dist(ideal, s[spec_best_index(ideal, s)].size),
    decreases s.len(),
{
    if s.len() > 1 {
        lemma_best_index_first_min(ideal, s.drop_last());
        let rest = s.drop_last();
        let b0 = spec_best_index(ideal, rest);
        let b = spec_best_index(ideal, s);
        assert forall|j: int| 0 <= j < s.len() - 1 implies s[j] == rest[j] by {}
        if spec_dist(ideal, s.last().size) < spec_dist(ideal, rest[b0].size) {
            assert(b == s.len() - 1);
            assert forall|j: int| 0 <= j < s.len() - 1 implies spec_dist(
                ideal,
                (#[trigger] s[j]).size,
            ) > spec_dist(ideal, s[b].size) by {
                assert(spec_dist(ideal, rest[j].size) >= spec_dist(ideal, rest[b0].size));
            }
        } else {
            assert(b == b0);
            assert(s[b] == rest[b0]);
        }
    }
}

/// Basic category/size filter of the search results.
fn passes_filter(config: &Config, c: &Candidate) -> (r: bool)
    ensures
        r == spec_cand_passes(c@, config.target_categories.deep_view(), config.min_file_size),
{
    let mut found = false;
    let ncat = config.target_categories.len();
    let mut k: usize = 0;
    while k < ncat
        invariant
            ncat == config.target_categories@.len(),
            k <= ncat,
            found == exists|j: int|
                0 <= j < k && spec_is_suffix(
                    config.target_categories.deep_view()[j],
                    c@.category,
                ),
        decreases ncat - k,
    {
        if !found && str_ends_with(c.category.as_str(), config.target_categories[k].as_str()) {
            found = true;
            proof {
                assert(config.target_categories.deep_view()[k as int]
                    == config.target_categories@[k as int]@);
            }
        }
        proof {
            if !found {
                assert(config.target_categories.deep_view()[k as int]
                    == config.target_categories@[k as int]@);
            }
        }
        k = k + 1;
    }
    found && c.size > config.min_file_size
}

/// How many candidates have at least `min_seeders` seeders.
fn count_with_seeders(magnets: &Vec<Candidate>, min_seeders: i32) -> (r: usize)
    ensures
        r == spec_seeder_count(cand_views(magnets@), min_seeders),
{
    let n = magnets.len();
    let mut cnt: usize = 0;
    let mut i: usize = 0;
    while i < n
        invariant
            n == magnets@.len(),
            i <= n,
            cnt == spec_seeder_count(cand_views(magnets@.subrange(0, i as int)), min_seeders),
            cnt <= i,
        decreases n - i,
    {
        proof {
            lemma_seeder_count_le_len(cand_views(magnets@.subrange(0, i as int)), min_seeders);
            assert(cand_views(magnets@.subrange(0, i + 1)).drop_last() =~= cand_views(
                magnets@.subrange(0, i as int),
            ));
            assert(cand_views(magnets@.subrange(0, i + 1)).last() == magnets@[i as int]@);
        }
        if magnets[i].seeders >= min_seeders {
            cnt = cnt + 1;
        }
        i = i + 1;
    }
    proof {
        assert(magnets@.subrange(0, n as int) =~= magnets@);
    }
    cnt
}

proof fn lemma_seeder_count_le_len(s: Seq<CandidateV>, min_seeders: i32)
    ensures
        spec_seeder_count(s, min_seeders) <= s.len(),
    decreases s.len(),
{
    if s.len() > 0 {
        lemma_seeder_count_le_len(s.drop_last(), min_seeders);
    }
}

/// Filter the search results under the acquisition policy: keep candidates
/// matching a target category and exceeding the minimum size, then keep
/// those meeting the winning seeder tier's threshold.
pub fn filter_magnets(config: &Config, results: &Vec<Candidate>) -> (r: Vec<Candidate>)
    requires
        config.has_tier(),
    ensures
        cand_views(r@) == spec_filter_magnets(config, cand_views(results@)),
{
    let ghost cats = config.target_categories.deep_view();
    let ghost min_size = config.min_file_size;
    // stage one: category and size filter
    let mut magnets: Vec<Candidate> = Vec::new();
    let n = results.len();
    let mut i: usize = 0;
    while i < n
        invariant
            n == results@.len(),
            i <= n,
            cand_views(magnets@) =~= spec_filtered(
                cand_views(results@.subrange(0, i as int)),
                cats,
                min_size,
            ),
            cats == config.target_categories.deep_view(),
            min_size == config.min_file_size,
        decreases n - i,
    {
        proof {
            assert(cand_views(results@.subrange(0, i + 1)).drop_last() =~= cand_views(
                results@.subrange(0, i as int),
            ));
            assert(cand_views(results@.subrange(0, i + 1)).last() == results@[i as int]@);
        }
        if passes_filter(config, &results[i]) {
            magnets.push(results[i].duplicate());
        }
        i = i + 1;
    }
    proof {
        assert(results@.subrange(0, n as int) =~= results@);
    }
    let ghost f = spec_filtered(cand_views(results@), cats, min_size);
    // stage two: pick the winning tier
    let ntiers = config.seeders.len();
    let mut max_index: usize = 0;
    let mut t: usize = 0;
    let mut broke = false;
    while t < ntiers && !broke
        invariant
            ntiers == config.seeders@.len(),
            ntiers > 0,
            t <= ntiers,
            cand_views(magnets@) == f,
            max_index < ntiers,
            !broke ==> max_index as int == (if t == 0 {
                0int
            } else {
                t - 1
            }),
            !broke ==> forall|j: int| 0 <= j < t ==> spec_tier_ok(f, #[trigger] config.seeders@[j]),
            broke ==> max_index == spec_winning_tier(f, config.seeders@),
        decreases ntiers - t,
    {
        let rule = config.seeders[t];
        let cnt = count_with_seeders(&magnets, rule.min_seeders);
        if cnt >= rule.available_magnets {
            max_index = t;
        } else {
            broke = true;
            proof {
                lemma_sat_prefix_unique(f, config.seeders@, t as int);
            }
        }
        t = t + 1;
    }
    proof {
        if !broke {
            lemma_sat_prefix_unique(f, config.seeders@, ntiers as int);
        }
        assert(max_index == spec_winning_tier(f, config.seeders@));
    }
    // stage three: retain survivors of the winning tier
    let threshold = config.seeders[max_index].min_seeders;
    let m = magnets.len();
    let mut out: Vec<Candidate> = Vec::new();
    let mut j: usize = 0;
    while j < m
        invariant
            m == magnets@.len(),
            j <= m,
            cand_views(out@) =~= spec_retained(
                cand_views(magnets@.subrange(0, j as int)),
                threshold,
            ),
        decreases m - j,
    {
        proof {
            assert(cand_views(magnets@.subrange(0, j + 1)).drop_last() =~= cand_views(
                magnets@.subrange(0, j as int),
            ));
            assert(cand_views(magnets@.subrange(0, j + 1)).last() == magnets@[j as int]@);
        }
        if magnets[j].seeders >= threshold {
            out.push(magnets[j].duplicate());
        }
        j = j + 1;
    }
    proof {
        assert(magnets@.subrange(0, m as int) =~= magnets@);
        assert(cand_views(out@) =~= spec_retained(f, threshold));
    }
    out
}

/// A length `q` that satisfies the prefix characterization (every tier
/// before `q` holds, the tier at `q`, if any, fails) is the satisfied
/// prefix length.
pub proof fn lemma_sat_prefix_unique(s: Seq<CandidateV>, rules: Seq<SeederRule>, q: int)
    requires
        0 <= q <= rules.len(),
        forall|j: int| 0 <= j < q ==> spec_tier_ok(s, #[trigger] rules[j]),
        q < rules.len() ==> !spec_tier_ok(s, rules[q]),
    ensures
        spec_sat_prefix_len(s, rules) == q,
    decreases rules.len(),
{
    if rules.len() == 0 {
    } else if spec_tier_ok(s, rules[0]) {
        assert(q != 0);
        let rest = rules.drop_first();
        assert forall|j: int| 0 <= j < q - 1 implies spec_tier_ok(s, #[trigger] rest[j]) by {
            assert(rest[j] == rules[j + 1]);
        }
        if q - 1 < rest.len() {
            assert(rest[q - 1] == rules[q]);
        }
        lemma_sat_prefix_unique(s, rest, q - 1);
    } else {
        assert(q == 0) by {
            if q > 0 {
                assert(spec_tier_ok(s, rules[0]));
            }
        }
    }
}

/// Among the filtered candidates, the one whose size is closest to the
/// ideal size; the first encountered minimum wins exact ties.
pub fn match_magnet<'a>(config: &Config, magnets: &'a Vec<Candidate>) -> (r: &'a Candidate)
    requires
        magnets@.len() > 0,
    ensures
        *r == magnets@[spec_best_index(config.ideal_file_size, cand_views(magnets@))],
{
    let n = magnets.len();
    let mut best: usize = 0;
    let mut best_dist: i128 = dist_i128(config.ideal_file_size, magnets[0].size);
    let mut i: usize = 1;
    while i < n
        invariant
            n == magnets@.len(),
            1 <= i <= n,
            best < i,
            best == spec_best_index(
                config.ideal_file_size,
                cand_views(magnets@.subrange(0, i as int)),
            ),
            best_dist == spec_dist(config.ideal_file_size, magnets@[best as int].size),
        decreases n - i,
    {
        proof {
            let pre = cand_views(magnets@.subrange(0, i + 1));
            assert(pre.drop_last() =~= cand_views(magnets@.subrange(0, i as int)));
            assert(pre.last() == magnets@[i as int]@);
            assert(pre[best as int] == magnets@[best as int]@);
        }
        let d = dist_i128(config.ideal_file_size, magnets[i].size);
        if d < best_dist {
            best = i;
            best_dist = d;
        }
        i = i + 1;
    }
    proof {
        assert(magnets@.subrange(0, n as int) =~= magnets@);
    }
    &magnets[best]
}

/// Exact distance between ideal and actual size, free of overflow.
fn dist_i128(ideal: i64, size: i64) -> (r: i128)
    ensures
        r == spec_dist(ideal, size),
{
    let d: i128 = (ideal as i128) - (size as i128);
    if d < 0 {
        -d
    } else {
        d
    }
}

/// The whole selector: `Some` holding the best surviving candidate exactly
/// when any candidate survives filtering, `None` otherwise (the caller
/// treats `None` as Magnet-Not-Found).
pub fn select_magnet(config: &Config, results: &Vec<Candidate>) -> (r: Option<Candidate>)
    requires
        config.has_tier(),
    ensures
        ({
            let surv = spec_filter_magnets(config, cand_views(results@));
            match r {
                Some(c) => surv.len() > 0 && c@ == surv[spec_best_index(
                    config.ideal_file_size,
                    surv,
                )],
                None => surv.len() == 0,
            }
        }),
{
    let magnets = filter_magnets(config, results);
    if magnets.len() == 0 {
        None
    } else {
        let best = match_magnet(config, &magnets);
        proof {
            let surv = spec_filter_magnets(config, cand_views(results@));
            let b = spec_best_index(config.ideal_file_size, surv);
            lemma_best_index_first_min(config.ideal_file_size, surv);
            assert(cand_views(magnets@)[b] == magnets@[b]@);
        }
        Some(best.duplicate())
    }
}

/// Decision step of one torrent-search attempt: done exactly when a
/// candidate survives filtering, and then the winner's download reference is
/// handed on.
pub fn magnet_search_step(config: &Config, results: &Vec<Candidate>) -> (r: (bool, Option<String>))
    requires
        config.has_tier(),
    ensures
        ({
            let surv = spec_filter_magnets(config, cand_views(results@));
            &&& r.0 == (surv.len() > 0)
            &&& (surv.len() > 0 ==> (r.1 matches Some(d) && d@ == surv[spec_best_index(
                config.ideal_file_size,
                surv,
            )].download))
            &&& (surv.len() == 0 ==> r.1 is None)
        }),
{
    match select_magnet(config, results) {
        Some(c) => (true, Some(c.download)),
        None => (false, None),
    }
}

} // verus!
