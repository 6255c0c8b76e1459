use crate::compressor::Statistics;
use vstd::prelude::*;

verus! {

/// Client-authored description of a bundle, embedded in its archive.
#[derive(Debug, Clone)]
pub struct BundleConfig {
    /// Friendly name for the bundle
    pub name: String,
    /// Where the page will be available
    pub domain: String,
    /// File extensions which should be precompressed
    pub compress: Vec<String>,
    /// Fallback path for serving single-page applications
    pub fallback: Option<String>,
}

/// Mathematical model of a [`BundleConfig`].
pub struct ConfigView {
    pub name: Seq<char>,
    pub domain: Seq<char>,
    pub compress: Seq<Seq<char>>,
    pub fallback: Option<Seq<char>>,
}

pub open spec fn strings_view(v: Seq<String>) -> Seq<Seq<char>> {
    v.map_values(|s: String| s@)
}

pub open spec fn opt_string_view(o: Option<String>) -> Option<Seq<char>> {
    match o {
        Some(s) => Some(s@),
        None => None,
    }
}

impl View for BundleConfig {
    type V = ConfigView;

    open spec fn view(&self) -> ConfigView {
        ConfigView {
            name: self.name@,
            domain: self.domain@,
            compress: strings_view(self.compress@),
            fallback: opt_string_view(self.fallback),
        }
    }
}

/// Copies a list of strings.
pub fn copy_strings(v: &Vec<String>) -> (r: Vec<String>)
    ensures
        strings_view(r@) == strings_view(v@),
{
    let mut r: Vec<String> = Vec::new();
    let mut i: usize = 0;
    while i < v.len()
        invariant
            i <= v@.len(),
            r@.len() == i,
            forall|j: int| 0 <= j < i ==> (#[trigger] r@[j])@ == v@[j]@,
        decreases v@.len() - i,
    {
        let s = v[i].clone();
        r.push(s);
        i += 1;
    }
    proof {
        assert(strings_view(r@) =~= strings_view(v@));
    }
    r
}

/// Copies an optional string.
pub fn copy_opt_string(o: &Option<String>) -> (r: Option<String>)
    ensures
        opt_string_view(r) == opt_string_view(*o),
{
    match o {
        Some(s) => Some(s.clone()),
        None => None,
    }
}

impl BundleConfig {
    /// A copy with the same contents.
    pub fn duplicate(&self) -> (r: BundleConfig)
        ensures
            r@ == self@,
    {
        BundleConfig {
            name: self.name.clone(),
            domain: self.domain.clone(),
            compress: copy_strings(&self.compress),
            fallback: copy_opt_string(&self.fallback),
        }
    }
}

/// Public view of one registry entry.
#[derive(Debug, Clone)]
pub enum Bundle {
    Active { config: BundleConfig, stats: Statistics },
    Failed { error: String },
}

/// Mathematical model of [`Statistics`].
pub struct StatsView {
    pub size: u64,
    pub compressible: u64,
    pub compressed: Seq<(crate::compressor::Algorithm, u64)>,
}

impl View for Statistics {
    type V = StatsView;

    open spec fn view(&self) -> StatsView {
        StatsView { size: self.size, compressible: self.compressible, compressed: self.compressed@ }
    }
}

impl Statistics {
    /// A copy with the same contents.
    pub fn duplicate(&self) -> (r: Statistics)
        ensures
            r@ == self@,
    {
        let mut compressed: Vec<(crate::compressor::Algorithm, u64)> = Vec::new();
        let mut i: usize = 0;
        while i < self.compressed.len()
            invariant
                i <= self.compressed@.len(),
                compressed@ == self.compressed@.subrange(0, i as int),
            decreases self.compressed@.len() - i,
        {
            compressed.push(self.compressed[i]);
            i += 1;
            proof {
                assert(compressed@ =~= self.compressed@.subrange(0, i as int));
            }
        }
        proof {
            assert(compressed@ =~= self.compressed@);
        }
        Statistics { size: self.size, compressible: self.compressible, compressed }
    }
}

/// Mathematical model of a [`Bundle`].
pub enum BundleView {
    Active { config: ConfigView, stats: StatsView },
    Failed { error: Seq<char> },
}

impl View for Bundle {
    type V = BundleView;

    open spec fn view(&self) -> BundleView {
        match self {
            Bundle::Active { config, stats } => BundleView::Active { config: config@, stats: stats@ },
            Bundle::Failed { error } => BundleView::Failed { error: error@ },
        }
    }
}

} // verus!
