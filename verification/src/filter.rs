//! The filter engine: drops barrages of disabled kinds, too short barrages
//! and barrages whose text holds a blacklisted keyword (case-insensitively),
//! and applies the global font size and alpha.
use vstd::prelude::*;

use crate::barrage::BarrageObject;
use crate::config::{BarrageFilterConfig, TrackMode};
use crate::math::min;
use crate::text::{contains, contains_text, lowercase, to_lowercase, trim, trimmed, views};

verus! {

/// Outcome of filtering a barrage.
#[derive(Debug, Clone, Copy, PartialEq, Eq, Structural)]
pub enum FilterResult {
    Pass,
    BlockedByKeyword,
    BlockedByType,
    BlockedByDuration,
}

/// Filters barrages before they reach the tracks.
pub struct FilterEngine {
    config: BarrageFilterConfig,
    keywords_lower: Vec<String>,
}

/// The abstract state of a filter engine: its configuration and its
/// lower-case blacklist.
pub struct FilterView {
    pub config: BarrageFilterConfig,
    pub keywords: Seq<Seq<char>>,
}

impl View for FilterEngine {
    type V = FilterView;

    closed spec fn view(&self) -> FilterView {
        FilterView { config: self.config, keywords: views(self.keywords_lower@) }
    }
}

/// Whether barrages of the given kind are enabled.
pub open spec fn type_allowed(cfg: BarrageFilterConfig, mode: TrackMode) -> bool {
    match mode {
        TrackMode::Scroll => cfg.enable_scroll,
        TrackMode::Top => cfg.enable_top,
        TrackMode::Bottom => cfg.enable_bottom,
        TrackMode::Reverse => cfg.enable_reverse,
    }
}

/// Whether the lower-case form of `text` holds one of the keywords.
pub open spec fn holds_keyword(keywords: Seq<Seq<char>>, text: Seq<char>) -> bool {
    exists|k: int| 0 <= k < keywords.len() && contains_text(lowercase(text), #[trigger] keywords[k])
}

/// The outcome of filtering a barrage of kind `mode`, lasting
/// `duration_ms`, with text `text`: the kind is checked first, then the
/// duration, then the blacklist.
pub open spec fn decision(v: FilterView, mode: TrackMode, duration_ms: u32, text: Seq<char>) -> FilterResult {
    if !type_allowed(v.config, mode) {
        FilterResult::BlockedByType
    } else if v.config.short_duration_filter_enabled && duration_ms < v.config.min_duration_ms {
        FilterResult::BlockedByDuration
    } else if v.config.keyword_blacklist_enabled && v.keywords.len() > 0 && holds_keyword(
        v.keywords,
        text,
    ) {
        FilterResult::BlockedByKeyword
    } else {
        FilterResult::Pass
    }
}

/// The outcome of filtering `obj`.
pub open spec fn filter_outcome(v: FilterView, obj: BarrageObject) -> FilterResult {
    decision(v, obj.track_mode, obj.duration_ms, obj.text@)
}

/// A barrage after the global adjustments: the global font size when
/// enabled, its alpha scaled by the global alpha (bounded to 1000) when
/// enabled.
pub open spec fn adjusted(cfg: BarrageFilterConfig, obj: BarrageObject) -> BarrageObject {
    let o1 = if cfg.global_font_size_enabled {
        BarrageObject { font_size: cfg.global_font_size, ..obj }
    } else {
        obj
    };
    if cfg.global_alpha_enabled {
        BarrageObject { alpha: min(o1.alpha * cfg.global_alpha / 1000, 1000) as u32, ..o1 }
    } else {
        o1
    }
}

/// The engine after `add_keyword(k)`: the trimmed, lower-case keyword is
/// added, and the blacklist enabled, unless it is empty or already there.
pub open spec fn keyword_added(v: FilterView, k: Seq<char>) -> FilterView {
    let kw = lowercase(trimmed(k));
    if kw.len() > 0 && !v.keywords.contains(kw) {
        FilterView {
            config: BarrageFilterConfig { keyword_blacklist_enabled: true, ..v.config },
            keywords: v.keywords.push(kw),
        }
    } else {
        v
    }
}

/// The lower-case forms of the configured keywords.
pub open spec fn lowered(ks: Seq<Seq<char>>) -> Seq<Seq<char>> {
    ks.map_values(|k: Seq<char>| lowercase(k))
}

impl FilterEngine {
    /// An engine for `config`, with its keywords in lower case.
    pub fn new(config: BarrageFilterConfig) -> (r: Self)
        ensures
            r@.config == config,
            r@.keywords == lowered(config.keywords()),
    {
        let keywords_lower = Self::lowered_keywords(&config);
        FilterEngine { config, keywords_lower }
    }

    /// The lower-case forms of the keywords of `config`.
    fn lowered_keywords(config: &BarrageFilterConfig) -> (r: Vec<String>)
        ensures
            views(r@) == lowered(config.keywords()),
    {
        let keywords = config.get_keywords();
        let mut out: Vec<String> = Vec::new();
        let n = keywords.len();
        let mut i: usize = 0;
        while i < n
            invariant
                0 <= i <= n,
                n == keywords@.len(),
                views(keywords@) == config.keywords(),
                views(out@) =~= lowered(views(keywords@).subrange(0, i as int)),
            decreases n - i,
        {
            let ghost prev = out@;
            let low = to_lowercase(keywords[i].as_str());
            out.push(low);
            proof {
                let ks = views(keywords@);
                assert(views(out@) =~= views(prev).push(lowercase(ks[i as int])));
                assert(ks.subrange(0, i + 1) =~= ks.subrange(0, i as int).push(ks[i as int]));
                assert(lowered(ks.subrange(0, i + 1)) =~= lowered(ks.subrange(0, i as int)).push(
                    lowercase(ks[i as int]),
                ));
            }
            i = i + 1;
        }
        assert(views(keywords@).subrange(0, n as int) =~= views(keywords@));
        out
    }

    /// An engine with the default configuration.
    pub fn with_default_config() -> (r: Self)
        ensures
            r@.config == BarrageFilterConfig::default_spec(),
            r@.keywords.len() == 0,
    {
        let r = Self::new(BarrageFilterConfig::default());
        assert(r@.keywords =~= Seq::empty());
        r
    }

    /// Replaces the configuration and the blacklist with those of `config`.
    pub fn set_config(&mut self, config: BarrageFilterConfig)
        ensures
            final(self)@.config == config,
            final(self)@.keywords == lowered(config.keywords()),
    {
        self.keywords_lower = Self::lowered_keywords(&config);
        self.config = config;
    }

    /// The configuration.
    pub fn config(&self) -> (r: &BarrageFilterConfig)
        ensures
            *r == self@.config,
    {
        &self.config
    }

    /// The configuration, for changes in place.
    pub fn config_mut(&mut self) -> (r: &mut BarrageFilterConfig)
        ensures
            *r == old(self)@.config,
            final(self)@ == (FilterView { config: *final(r), ..old(self)@ }),
    {
        &mut self.config
    }

    /// Filters a barrage: `Pass`, or the first check that blocks it.
    pub fn filter(&self, obj: &BarrageObject) -> (r: FilterResult)
        ensures
            r == filter_outcome(self@, *obj),
    {
        if !self.check_type_allowed(obj.track_mode) {
            return FilterResult::BlockedByType;
        }
        if self.config.short_duration_filter_enabled && obj.duration_ms
            < self.config.min_duration_ms {
            return FilterResult::BlockedByDuration;
        }
        if self.config.keyword_blacklist_enabled && self.keywords_lower.len() > 0 {
            if self.check_keywords(obj.text.as_str()) {
                return FilterResult::BlockedByKeyword;
            }
        }
        FilterResult::Pass
    }

    /// Whether barrages of the given kind are enabled.
    fn check_type_allowed(&self, mode: TrackMode) -> (r: bool)
        ensures
            r == type_allowed(self@.config, mode),
    {
        match mode {
            TrackMode::Scroll => self.config.enable_scroll,
            TrackMode::Top => self.config.enable_top,
            TrackMode::Bottom => self.config.enable_bottom,
            TrackMode::Reverse => self.config.enable_reverse,
        }
    }

    /// Whether the lower-case form of `text` holds a blacklisted keyword.
    fn check_keywords(&self, text: &str) -> (r: bool)
        ensures
            r == holds_keyword(self@.keywords, text@),
    {
        if self.keywords_lower.len() == 0 {
            return false;
        }
        let text_lower = to_lowercase(text);
        let n = self.keywords_lower.len();
        let mut i: usize = 0;
        while i < n
            invariant
                0 <= i <= n,
                n == self.keywords_lower@.len(),
                text_lower@ == lowercase(text@),
                forall|k: int|
                    0 <= k < i ==> !contains_text(
                        lowercase(text@),
                        #[trigger] views(self.keywords_lower@)[k],
                    ),
            decreases n - i,
        {
            if contains(text_lower.as_str(), self.keywords_lower[i].as_str()) {
                assert(contains_text(lowercase(text@), views(self.keywords_lower@)[i as int]));
                return true;
            }
            i = i + 1;
        }
        false
    }

    /// Applies the global font size and alpha to a barrage.
    pub fn apply_global_adjustments(&self, obj: &mut BarrageObject)
        ensures
            *final(obj) == adjusted(self@.config, *old(obj)),
    {
        if self.config.global_font_size_enabled {
            obj.font_size = self.config.global_font_size;
        }
        if self.config.global_alpha_enabled {
            assert(obj.alpha * self.config.global_alpha <= 0xFFFF_FFFF * 0xFFFF_FFFF)
                by (nonlinear_arith);
            let a: u64 = obj.alpha as u64 * self.config.global_alpha as u64 / 1000;
            obj.alpha = if a > 1000 {
                1000
            } else {
                a as u32
            };
        }
    }

    /// Adds a keyword, trimmed and in lower case, and enables the blacklist;
    /// an empty or known keyword changes nothing.
    pub fn add_keyword(&mut self, keyword: &str)
        ensures
            final(self)@ == keyword_added(old(self)@, keyword@),
    {
        let kw = to_lowercase(trim(keyword));
        if kw.as_str().unicode_len() > 0 && !self.has_keyword(&kw) {
            self.keywords_lower.push(kw);
            self.config.keyword_blacklist_enabled = true;
            proof {
                assert(views(self.keywords_lower@) =~= views(old(self).keywords_lower@).push(kw@));
            }
        }
    }

    /// Whether `kw` is on the blacklist.
    fn has_keyword(&self, kw: &String) -> (r: bool)
        ensures
            r == self@.keywords.contains(kw@),
    {
        let n = self.keywords_lower.len();
        let mut i: usize = 0;
        while i < n
            invariant
                0 <= i <= n,
                n == self.keywords_lower@.len(),
                forall|k: int| 0 <= k < i ==> #[trigger] views(self.keywords_lower@)[k] != kw@,
            decreases n - i,
        {
            if self.keywords_lower[i] == *kw {
                assert(views(self.keywords_lower@)[i as int] == kw@);
                return true;
            }
            i = i + 1;
        }
        false
    }

    /// Empties the blacklist (the configuration is kept).
    pub fn clear_keywords(&mut self)
        ensures
            final(self)@ == (FilterView { keywords: Seq::empty(), ..old(self)@ }),
    {
        self.keywords_lower.clear();
        assert(views(self.keywords_lower@) =~= Seq::empty());
    }

    /// The blacklist, in lower case.
    pub fn keywords(&self) -> (r: &[String])
        ensures
            views(r@) == self@.keywords,
    {
        self.keywords_lower.as_slice()
    }
}

/// With the global alpha on, a barrage's alpha is scaled by it, not
/// replaced: the adjusted alpha is the product of the two in thousandths,
/// bounded to fully opaque, so it never exceeds that product.
pub proof fn law_global_alpha_scales(cfg: BarrageFilterConfig, obj: BarrageObject)
    requires
        cfg.global_alpha_enabled,
    ensures
        adjusted(cfg, obj).alpha == min(obj.alpha * cfg.global_alpha / 1000, 1000),
        adjusted(cfg, obj).alpha * 1000 <= obj.alpha * cfg.global_alpha,
{
    let x: int = obj.alpha * cfg.global_alpha;
    assert(x >= 0) by (nonlinear_arith)
        requires
            x == obj.alpha * cfg.global_alpha,
    ;
    assert((x / 1000) * 1000 <= x) by (nonlinear_arith)
        requires
            x >= 0,
    ;
}

/// Adding a keyword twice is adding it once.
pub proof fn law_add_keyword_idempotent(v: FilterView, k: Seq<char>)
    ensures
        keyword_added(keyword_added(v, k), k) == keyword_added(v, k),
{
    let kw = lowercase(trimmed(k));
    if kw.len() > 0 && !v.keywords.contains(kw) {
        assert(v.keywords.push(kw)[v.keywords.len() as int] == kw);
    }
}

/// Once a keyword is added, a barrage of an enabled kind and long enough
/// whose lower-case text holds it is blocked by the blacklist.
pub proof fn law_added_keyword_blocks(v: FilterView, k: Seq<char>, obj: BarrageObject)
    requires
        lowercase(trimmed(k)).len() > 0,
        type_allowed(v.config, obj.track_mode),
        !(v.config.short_duration_filter_enabled && obj.duration_ms < v.config.min_duration_ms),
        contains_text(lowercase(obj.text@), lowercase(trimmed(k))),
        v.config.keyword_blacklist_enabled || !v.keywords.contains(lowercase(trimmed(k))),
    ensures
        filter_outcome(keyword_added(v, k), obj) == FilterResult::BlockedByKeyword,
{
    let kw = lowercase(trimmed(k));
    let w = keyword_added(v, k);
    if v.keywords.contains(kw) {
        let j = choose|j: int| 0 <= j < v.keywords.len() && v.keywords[j] == kw;
        assert(contains_text(lowercase(obj.text@), w.keywords[j]));
    } else {
        assert(w.keywords[v.keywords.len() as int] == kw);
    }
}

/// With an empty blacklist no barrage is blocked by a keyword.
pub proof fn law_empty_blacklist_blocks_nothing(v: FilterView, obj: BarrageObject)
    requires
        v.keywords.len() == 0,
    ensures
        filter_outcome(v, obj) != FilterResult::BlockedByKeyword,
{
}

} // verus!
