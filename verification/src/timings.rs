//! Build timing breakdown: per-phase and per-page durations in
//! milliseconds, and the rows of the summary report.
use vstd::prelude::*;

verus! {

/// Durations of a build's phases, and sums over all pages of the per-page
/// steps, in milliseconds.
#[derive(Clone, Copy, Debug, PartialEq, Eq, Structural)]
pub struct BuildTimings {
    pub config_ms: u128,
    pub tera_ms: u128,
    pub plugins_ms: u128,
    pub prepare_dir_ms: u128,
    pub collect_posts_ms: u128,
    pub collections_ms: u128,
    pub shared_ctx_ms: u128,
    pub cache_open_ms: u128,
    pub content_ms: u128,
    pub categories_ms: u128,
    pub feeds_ms: u128,
    pub seo_ms: u128,
    pub assets_ms: u128,
    pub error_pages_ms: u128,
    pub cache_save_ms: u128,
    pub page_file_ms: u128,
    pub page_meta_ms: u128,
    pub page_schema_ms: u128,
    pub page_draft_ms: u128,
    pub page_cache_get_ms: u128,
    pub page_load_ms: u128,
    pub page_render_ms: u128,
    pub page_href_ms: u128,
    pub page_minify_ms: u128,
    pub page_write_ms: u128,
    pub page_count: usize,
}

/// `a - b`, or 0 when `b` is larger (`u128::saturating_sub`).
pub open spec fn sat_sub(a: int, b: int) -> int {
    if a >= b {
        a - b
    } else {
        0
    }
}

/// The per-page section of the timing report.
pub struct PageSection {
    /// Label and summed milliseconds of each per-page step, in order.
    pub rows: Vec<(&'static str, u128)>,
    /// Sum of the steps.
    pub sum: u128,
    /// Content-phase time not accounted for by the steps.
    pub gap: u128,
}

impl BuildTimings {
    /// All durations zero, no pages.
    pub fn new() -> (r: Self)
        ensures
            r == (BuildTimings {
                config_ms: 0,
                tera_ms: 0,
                plugins_ms: 0,
                prepare_dir_ms: 0,
                collect_posts_ms: 0,
                collections_ms: 0,
                shared_ctx_ms: 0,
                cache_open_ms: 0,
                content_ms: 0,
                categories_ms: 0,
                feeds_ms: 0,
                seo_ms: 0,
                assets_ms: 0,
                error_pages_ms: 0,
                cache_save_ms: 0,
                page_file_ms: 0,
                page_meta_ms: 0,
                page_schema_ms: 0,
                page_draft_ms: 0,
                page_cache_get_ms: 0,
                page_load_ms: 0,
                page_render_ms: 0,
                page_href_ms: 0,
                page_minify_ms: 0,
                page_write_ms: 0,
                page_count: 0,
            }),
    {
        BuildTimings {
            config_ms: 0,
            tera_ms: 0,
            plugins_ms: 0,
            prepare_dir_ms: 0,
            collect_posts_ms: 0,
            collections_ms: 0,
            shared_ctx_ms: 0,
            cache_open_ms: 0,
            content_ms: 0,
            categories_ms: 0,
            feeds_ms: 0,
            seo_ms: 0,
            assets_ms: 0,
            error_pages_ms: 0,
            cache_save_ms: 0,
            page_file_ms: 0,
            page_meta_ms: 0,
            page_schema_ms: 0,
            page_draft_ms: 0,
            page_cache_get_ms: 0,
            page_load_ms: 0,
            page_render_ms: 0,
            page_href_ms: 0,
            page_minify_ms: 0,
            page_write_ms: 0,
            page_count: 0,
        }
    }

    /// The phases of the report, in order, with their durations.
    pub open spec fn phases(self) -> Seq<(Seq<char>, u128)> {
        seq![
            ("Config load+validate"@, self.config_ms),
            ("Tera init"@, self.tera_ms),
            ("Prepare build dir"@, self.prepare_dir_ms),
            ("Collect post metadata"@, self.collect_posts_ms),
            ("Collection subsets"@, self.collections_ms),
            ("Shared context"@, self.shared_ctx_ms),
            ("Cache open"@, self.cache_open_ms),
            ("Content build (all pages)"@, self.content_ms),
            ("Category pages"@, self.categories_ms),
            ("XML feeds"@, self.feeds_ms),
            ("SEO (sitemap+robots)"@, self.seo_ms),
            ("Asset copy"@, self.assets_ms),
            ("Error pages"@, self.error_pages_ms),
            ("Cache save"@, self.cache_save_ms),
        ]
    }

    /// The per-page steps of the report, in order, with their summed
    /// durations.
    pub open spec fn page_steps(self) -> Seq<(Seq<char>, u128)> {
        seq![
            ("File read (I/O)"@, self.page_file_ms),
            ("Metadata extract"@, self.page_meta_ms),
            ("Schema validation"@, self.page_schema_ms),
            ("Draft check"@, self.page_draft_ms),
            ("Cache lock get"@, self.page_cache_get_ms),
            ("Parse+HTML convert"@, self.page_load_ms),
            ("Template render"@, self.page_render_ms),
            ("Href rewrite"@, self.page_href_ms),
            ("HTML minify"@, self.page_minify_ms),
            ("File write"@, self.page_write_ms),
        ]
    }

    /// What `total` leaves after subtracting the phases one by one, never
    /// going below zero.
    pub open spec fn overhead_from(self, total: int, k: int) -> int
        decreases k,
    {
        if k <= 0 {
            total
        } else {
            sat_sub(self.overhead_from(total, k - 1), self.phases()[k - 1].1 as int)
        }
    }

    pub open spec fn page_sum_from(self, k: int) -> int
        decreases k,
    {
        if k <= 0 {
            0
        } else {
            self.page_sum_from(k - 1) + self.page_steps()[k - 1].1
        }
    }

    pub open spec fn page_sum_spec(self) -> int {
        self.page_sum_from(10)
    }

    /// Time of the build not accounted for by its phases.
    pub fn overhead(&self, total_ms: u128) -> (r: u128)
        ensures
            r == self.overhead_from(total_ms as int, 14),
    {
        let ghost p = self.phases();
        let mut o = total_ms;
        assert(o == self.overhead_from(total_ms as int, 0));
        o = o.saturating_sub(self.config_ms);
        assert(o == self.overhead_from(total_ms as int, 1));
        o = o.saturating_sub(self.tera_ms);
        assert(o == self.overhead_from(total_ms as int, 2));
        o = o.saturating_sub(self.prepare_dir_ms);
        assert(o == self.overhead_from(total_ms as int, 3));
        o = o.saturating_sub(self.collect_posts_ms);
        assert(o == self.overhead_from(total_ms as int, 4));
        o = o.saturating_sub(self.collections_ms);
        assert(o == self.overhead_from(total_ms as int, 5));
        o = o.saturating_sub(self.shared_ctx_ms);
        assert(o == self.overhead_from(total_ms as int, 6));
        o = o.saturating_sub(self.cache_open_ms);
        assert(o == self.overhead_from(total_ms as int, 7));
        o = o.saturating_sub(self.content_ms);
        assert(o == self.overhead_from(total_ms as int, 8));
        o = o.saturating_sub(self.categories_ms);
        assert(o == self.overhead_from(total_ms as int, 9));
        o = o.saturating_sub(self.feeds_ms);
        assert(o == self.overhead_from(total_ms as int, 10));
        o = o.saturating_sub(self.seo_ms);
        assert(o == self.overhead_from(total_ms as int, 11));
        o = o.saturating_sub(self.assets_ms);
        assert(o == self.overhead_from(total_ms as int, 12));
        o = o.saturating_sub(self.error_pages_ms);
        assert(o == self.overhead_from(total_ms as int, 13));
        o = o.saturating_sub(self.cache_save_ms);
        o
    }

    /// Sum of the per-page step durations.
    pub fn page_sum(&self) -> (r: u128)
        requires
            self.page_sum_spec() <= u128::MAX,
        ensures
            r == self.page_sum_spec(),
    {
        assert(self.page_sum_spec() == self.page_file_ms + self.page_meta_ms + self.page_schema_ms
            + self.page_draft_ms + self.page_cache_get_ms + self.page_load_ms + self.page_render_ms
            + self.page_href_ms + self.page_minify_ms + self.page_write_ms) by {
            reveal_with_fuel(BuildTimings::page_sum_from, 11);
        }
        self.page_file_ms + self.page_meta_ms + self.page_schema_ms + self.page_draft_ms
            + self.page_cache_get_ms + self.page_load_ms + self.page_render_ms + self.page_href_ms
            + self.page_minify_ms + self.page_write_ms
    }

    /// Rows of the phase table: each phase, then `Overhead/other`.
    pub fn phase_rows(&self, total_ms: u128) -> (r: Vec<(&'static str, u128)>)
        ensures
            r@.len() == 15,
            forall|i: int|
                0 <= i < 14 ==> (#[trigger] r@[i]).0@ == self.phases()[i].0 && r@[i].1
                    == self.phases()[i].1,
            r@[14].0@ == "Overhead/other"@,
            r@[14].1 == self.overhead_from(total_ms as int, 14),
    {
        let mut rows: Vec<(&'static str, u128)> = Vec::new();
        rows.push(("Config load+validate", self.config_ms));
        rows.push(("Tera init", self.tera_ms));
        rows.push(("Prepare build dir", self.prepare_dir_ms));
        rows.push(("Collect post metadata", self.collect_posts_ms));
        rows.push(("Collection subsets", self.collections_ms));
        rows.push(("Shared context", self.shared_ctx_ms));
        rows.push(("Cache open", self.cache_open_ms));
        rows.push(("Content build (all pages)", self.content_ms));
        rows.push(("Category pages", self.categories_ms));
        rows.push(("XML feeds", self.feeds_ms));
        rows.push(("SEO (sitemap+robots)", self.seo_ms));
        rows.push(("Asset copy", self.assets_ms));
        rows.push(("Error pages", self.error_pages_ms));
        rows.push(("Cache save", self.cache_save_ms));
        let o = self.overhead(total_ms);
        rows.push(("Overhead/other", o));
        rows
    }

    /// Rows of the per-page table, in order.
    pub fn page_rows(&self) -> (r: Vec<(&'static str, u128)>)
        ensures
            r@.len() == 10,
            forall|i: int|
                0 <= i < 10 ==> (#[trigger] r@[i]).0@ == self.page_steps()[i].0 && r@[i].1
                    == self.page_steps()[i].1,
    {
        let mut rows: Vec<(&'static str, u128)> = Vec::new();
        rows.push(("File read (I/O)", self.page_file_ms));
        rows.push(("Metadata extract", self.page_meta_ms));
        rows.push(("Schema validation", self.page_schema_ms));
        rows.push(("Draft check", self.page_draft_ms));
        rows.push(("Cache lock get", self.page_cache_get_ms));
        rows.push(("Parse+HTML convert", self.page_load_ms));
        rows.push(("Template render", self.page_render_ms));
        rows.push(("Href rewrite", self.page_href_ms));
        rows.push(("HTML minify", self.page_minify_ms));
        rows.push(("File write", self.page_write_ms));
        rows
    }

    /// The per-page sub-timing section of the report: shown exactly when
    /// pages were built (`page_count > 0`), with the per-page rows, their
    /// sum and the scheduling gap of the content phase.
    pub fn page_section(&self) -> (r: Option<PageSection>)
        requires
            self.page_count > 0 ==> self.page_sum_spec() <= u128::MAX,
        ensures
            r is Some <==> self.page_count > 0,
            r matches Some(sec) ==> {
                &&& sec.rows@.len() == 10
                &&& forall|i: int|
                    0 <= i < 10 ==> (#[trigger] sec.rows@[i]).0@ == self.page_steps()[i].0
                        && sec.rows@[i].1 == self.page_steps()[i].1
                &&& sec.sum == self.page_sum_spec()
                &&& sec.gap == sat_sub(self.content_ms as int, self.page_sum_spec())
            },
    {
        if self.page_count == 0 {
            return None;
        }
        Some(PageSection { rows: self.page_rows(), sum: self.page_sum(), gap: self.scheduling_gap() })
    }

    /// Time of the content phase not accounted for by the per-page steps.
    pub fn scheduling_gap(&self) -> (r: u128)
        requires
            self.page_sum_spec() <= u128::MAX,
        ensures
            r == sat_sub(self.content_ms as int, self.page_sum_spec()),
    {
        self.content_ms.saturating_sub(self.page_sum())
    }
}

/// The overhead never exceeds the total, and with the phases it accounts
/// for the whole build whenever the phases fit within it.
pub proof fn lemma_overhead_bounds(t: BuildTimings, total: int, k: int)
    requires
        0 <= total,
        0 <= k <= 14,
    ensures
        0 <= t.overhead_from(total, k) <= total,
        t.phase_sum_upto(k) <= total ==> t.overhead_from(total, k) == total - t.phase_sum_upto(k),
    decreases k,
{
    if k > 0 {
        lemma_overhead_bounds(t, total, k - 1);
        lemma_phase_sum_monotone(t, k);
    }
}

proof fn lemma_phase_sum_monotone(t: BuildTimings, k: int)
    requires
        0 < k <= 14,
    ensures
        t.phase_sum_upto(k - 1) <= t.phase_sum_upto(k),
{
}

impl BuildTimings {
    /// Sum of the first `k` phase durations.
    pub open spec fn phase_sum_upto(self, k: int) -> int
        decreases k,
    {
        if k <= 0 {
            0
        } else {
            self.phase_sum_upto(k - 1) + self.phases()[k - 1].1
        }
    }
}

} // verus!
