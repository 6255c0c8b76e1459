use crate::bundle::{strings_view, Bundle, BundleConfig, BundleView, ConfigView, StatsView};
use crate::caddy::{fallback_view, HostConfig};
use crate::compressor::Algorithm;
use crate::compressor::{Compressor, Statistics};
use crate::storage::BundleStorage;
use vstd::prelude::*;

verus! {

/// Why a deploy did not produce an active bundle.
#[derive(Debug, Clone)]
pub enum DeployError {
    /// The archive, or the metadata inside it, does not exist.
    NotFound(String),
    /// Another active bundle already serves the requested domain.
    DomainConflict,
    /// The archive or its metadata could not be understood.
    Invalid(String),
    /// Reading or writing storage failed.
    Storage(String),
    /// The prepared extraction directory already backs another active bundle.
    DirectoryInUse,
}

pub open spec fn domain_conflict_text() -> Seq<char> {
    "domain already in use by another bundle"@
}

pub open spec fn directory_in_use_text() -> Seq<char> {
    "extraction directory already in use by another bundle"@
}

impl DeployError {
    /// The human-readable description recorded in a failed status.
    pub open spec fn spec_message(&self) -> Seq<char> {
        match self {
            DeployError::NotFound(m) => m@,
            DeployError::DomainConflict => domain_conflict_text(),
            DeployError::Invalid(m) => m@,
            DeployError::Storage(m) => m@,
            DeployError::DirectoryInUse => directory_in_use_text(),
        }
    }

    pub fn message(&self) -> (r: String)
        ensures
            r@ == self.spec_message(),
    {
        match self {
            DeployError::NotFound(m) => m.clone(),
            DeployError::DomainConflict => String::from_str("domain already in use by another bundle"),
            DeployError::Invalid(m) => m.clone(),
            DeployError::Storage(m) => m.clone(),
            DeployError::DirectoryInUse => String::from_str(
                "extraction directory already in use by another bundle",
            ),
        }
    }
}

/// A bundle that is unpacked, compressed and routable. It owns its
/// extraction directory `root`, which is released when the status is dropped.
#[derive(Debug)]
pub struct ActiveBundle<D> {
    pub root: D,
    /// Filesystem location of `root`.
    pub path: String,
    pub config: BundleConfig,
    pub stats: Statistics,
}

#[derive(Debug)]
pub enum BundleStatus<D> {
    Active(ActiveBundle<D>),
    Failed(String),
}

/// Mathematical model of a [`BundleStatus`].
pub enum StatusView {
    Active { path: Seq<char>, config: ConfigView, stats: StatsView },
    Failed { error: Seq<char> },
}

impl<D> View for BundleStatus<D> {
    type V = StatusView;

    open spec fn view(&self) -> StatusView {
        match self {
            BundleStatus::Active(b) => StatusView::Active {
                path: b.path@,
                config: b.config@,
                stats: b.stats@,
            },
            BundleStatus::Failed(e) => StatusView::Failed { error: e@ },
        }
    }
}

impl StatusView {
    /// What the listing shows of this status.
    pub open spec fn public(self) -> BundleView {
        match self {
            StatusView::Active { config, stats, .. } => BundleView::Active { config, stats },
            StatusView::Failed { error } => BundleView::Failed { error },
        }
    }

    /// An active status serving `config` with `stats`.
    pub open spec fn holds(self, config: ConfigView, stats: StatsView) -> bool {
        match self {
            StatusView::Active { config: c, stats: s, .. } => c == config && s == stats,
            StatusView::Failed { .. } => false,
        }
    }

    pub open spec fn is_active(self) -> bool {
        self is Active
    }

    /// The extraction directory held by an active status.
    pub open spec fn active_path(self) -> Option<Seq<char>> {
        match self {
            StatusView::Active { path, .. } => Some(path),
            StatusView::Failed { .. } => None,
        }
    }

    /// The domain claimed by an active status.
    pub open spec fn active_domain(self) -> Option<Seq<char>> {
        match self {
            StatusView::Active { config, .. } => Some(config.domain),
            StatusView::Failed { .. } => None,
        }
    }
}

/// What the unpack and compress steps of a deploy produce.
pub struct Prepared<D> {
    pub root: D,
    pub path: String,
    pub stats: Statistics,
}

/// The keys of a list of pairs are pairwise distinct.
pub open spec fn unique_keys<V>(s: Seq<(u128, V)>) -> bool {
    forall|i: int, j: int|
        0 <= i < s.len() && 0 <= j < s.len() && i != j ==> #[trigger] s[i].0 != #[trigger] s[j].0
}

/// The map that a list of pairs with distinct keys stands for.
pub open spec fn as_map<V>(s: Seq<(u128, V)>) -> Map<u128, V> {
    Map::new(
        |k: u128| exists|i: int| 0 <= i < s.len() && s[i].0 == k,
        |k: u128| s[choose|i: int| 0 <= i < s.len() && s[i].0 == k].1,
    )
}

proof fn lemma_as_map_index<V>(s: Seq<(u128, V)>, i: int)
    requires
        unique_keys(s),
        0 <= i < s.len(),
    ensures
        as_map(s).contains_key(s[i].0),
        as_map(s)[s[i].0] == s[i].1,
{
    let k = s[i].0;
    assert(exists|j: int| 0 <= j < s.len() && s[j].0 == k);
    let j = choose|j: int| 0 <= j < s.len() && s[j].0 == k;
    assert(j == i);
}

proof fn lemma_as_map_push<V>(s: Seq<(u128, V)>, k: u128, v: V)
    requires
        unique_keys(s),
        !as_map(s).contains_key(k),
    ensures
        unique_keys(s.push((k, v))),
        as_map(s.push((k, v))) == as_map(s).insert(k, v),
{
    let t = s.push((k, v));
    assert forall|i: int, j: int|
        0 <= i < t.len() && 0 <= j < t.len() && i != j implies #[trigger] t[i].0
        != #[trigger] t[j].0 by {
        if i == s.len() {
            assert(s[j].0 == t[j].0);
        } else if j == s.len() {
            assert(s[i].0 == t[i].0);
        } else {
            assert(s[i].0 == t[i].0 && s[j].0 == t[j].0);
        }
    }
    assert forall|x: u128| #[trigger] as_map(t).contains_key(x) == as_map(s).insert(k, v).contains_key(x) by {
        if as_map(s).contains_key(x) {
            let i = choose|i: int| 0 <= i < s.len() && s[i].0 == x;
            assert(t[i].0 == x);
        }
        if x == k {
            assert(t[s.len() as int].0 == x);
        }
        if as_map(t).contains_key(x) && x != k {
            let i = choose|i: int| 0 <= i < t.len() && t[i].0 == x;
            assert(s[i].0 == x);
        }
    }
    assert forall|x: u128| #[trigger] as_map(t).contains_key(x) implies as_map(t)[x] == as_map(s).insert(k, v)[x] by {
        if x == k {
            lemma_as_map_index(t, s.len() as int);
        } else {
            let i = choose|i: int| 0 <= i < t.len() && t[i].0 == x;
            lemma_as_map_index(t, i);
            lemma_as_map_index(s, i);
        }
    }
    assert(as_map(t) =~= as_map(s).insert(k, v));
}

proof fn lemma_as_map_remove<V>(s: Seq<(u128, V)>, i: int)
    requires
        unique_keys(s),
        0 <= i < s.len(),
    ensures
        unique_keys(s.remove(i)),
        as_map(s.remove(i)) == as_map(s).remove(s[i].0),
{
    let t = s.remove(i);
    let k = s[i].0;
    assert forall|a: int, b: int|
        0 <= a < t.len() && 0 <= b < t.len() && a != b implies #[trigger] t[a].0
        != #[trigger] t[b].0 by {
        let a2 = if a < i { a } else { a + 1 };
        let b2 = if b < i { b } else { b + 1 };
        assert(t[a] == s[a2] && t[b] == s[b2]);
    }
    assert forall|x: u128| #[trigger] as_map(t).contains_key(x) == as_map(s).remove(k).contains_key(x) by {
        if as_map(t).contains_key(x) {
            let a = choose|a: int| 0 <= a < t.len() && t[a].0 == x;
            let a2 = if a < i { a } else { a + 1 };
            assert(s[a2].0 == x);
            assert(a2 != i);
        }
        if as_map(s).contains_key(x) && x != k {
            let a = choose|a: int| 0 <= a < s.len() && s[a].0 == x;
            assert(a != i);
            let a2 = if a < i { a } else { a - 1 };
            assert(t[a2].0 == x);
        }
    }
    assert forall|x: u128| #[trigger] as_map(t).contains_key(x) implies as_map(t)[x] == as_map(s).remove(k)[x] by {
        let a = choose|a: int| 0 <= a < t.len() && t[a].0 == x;
        let a2 = if a < i { a } else { a + 1 };
        assert(t[a] == s[a2]);
        lemma_as_map_index(t, a);
        lemma_as_map_index(s, a2);
    }
    assert(as_map(t) =~= as_map(s).remove(k));
}

/// At most one active status claims any domain.
pub open spec fn domains_unique(m: Map<u128, StatusView>) -> bool {
    forall|a: u128, b: u128|
        #[trigger] m.contains_key(a) && #[trigger] m.contains_key(b) && a != b
            && m[a].active_domain() is Some ==> m[a].active_domain() != m[b].active_domain()
}

/// No two active statuses hold the same extraction directory.
pub open spec fn paths_unique(m: Map<u128, StatusView>) -> bool {
    forall|a: u128, b: u128|
        #[trigger] m.contains_key(a) && #[trigger] m.contains_key(b) && a != b
            && m[a].active_path() is Some ==> m[a].active_path() != m[b].active_path()
}

/// What a deploy whose domain check passed records and returns, given what
/// the preparation produced.
pub open spec fn follows_preparation<D>(
    p: Result<Prepared<D>, DeployError>,
    r: Result<Statistics, DeployError>,
    s: StatusView,
    c: ConfigView,
    path_taken: bool,
) -> bool {
    match p {
        Ok(q) => if path_taken {
            &&& r == Err::<Statistics, DeployError>(DeployError::DirectoryInUse)
            &&& s == (StatusView::Failed { error: directory_in_use_text() })
        } else {
            &&& r is Ok
            &&& r->Ok_0@ == q.stats@
            &&& s == (StatusView::Active { path: q.path@, config: c, stats: q.stats@ })
        },
        Err(e) => r == Err::<Statistics, DeployError>(e),
    }
}

/// `h` routes the active status `s` with the side-car algorithms `algorithms`.
pub open spec fn host_for(h: HostConfig, s: StatusView, algorithms: Seq<Algorithm>) -> bool {
    match s {
        StatusView::Active { path, config, .. } => {
            &&& strings_view(h.hosts@) == seq![config.domain]
            &&& h.root.0@ == path
            &&& h.server.compression@ == algorithms
            &&& fallback_view(h.fallback) == config.fallback
        },
        StatusView::Failed { .. } => false,
    }
}

/// The in-memory registry of bundles and their lifecycle state.
pub struct BundleManager<D> {
    bundles: Vec<(u128, BundleStatus<D>)>,
    storage: BundleStorage,
    compressor: Compressor,
}

impl<D> BundleManager<D> {
    pub closed spec fn entries(&self) -> Seq<(u128, StatusView)> {
        self.bundles@.map_values(|e: (u128, BundleStatus<D>)| (e.0, e.1@))
    }

    /// Identifier to status, for every bundle the registry holds.
    pub open spec fn model(&self) -> Map<u128, StatusView> {
        as_map(self.entries())
    }

    /// Keys are distinct, and no two active bundles claim the same domain or
    /// hold the same extraction directory.
    pub open spec fn wf(&self) -> bool {
        &&& unique_keys(self.entries())
        &&& domains_unique(self.model())
        &&& paths_unique(self.model())
    }

    /// Some bundle other than `id` is active in the directory `path`.
    pub open spec fn path_taken(&self, id: u128, path: Seq<char>) -> bool {
        exists|k: u128|
            k != id && #[trigger] self.model().contains_key(k) && self.model()[k].active_path()
                == Some(path)
    }

    pub closed spec fn spec_storage(&self) -> BundleStorage {
        self.storage
    }

    /// The archive store whose archives this registry deploys.
    pub fn storage(&self) -> (r: &BundleStorage)
        ensures
            *r == self.spec_storage(),
    {
        &self.storage
    }

    pub closed spec fn spec_compressor(&self) -> &Compressor {
        &self.compressor
    }

    /// Some active bundle claims `domain`.
    pub open spec fn claims(&self, domain: Seq<char>) -> bool {
        exists|k: u128|
            #[trigger] self.model().contains_key(k) && self.model()[k].active_domain() == Some(domain)
    }

    /// `h` is the routing rule of some active bundle.
    pub open spec fn routes(&self, h: HostConfig) -> bool {
        exists|k: u128|
            #[trigger] self.model().contains_key(k) && host_for(
                h,
                self.model()[k],
                self.spec_compressor().spec_algorithms(),
            )
    }

    /// Some bundle other than `id` is active on `domain`.
    pub open spec fn domain_taken(&self, id: u128, domain: Seq<char>) -> bool {
        exists|k: u128|
            k != id && #[trigger] self.model().contains_key(k) && self.model()[k].active_domain()
                == Some(domain)
    }

    pub fn new(storage: BundleStorage, compressor: Compressor) -> (r: Self)
        ensures
            r.wf(),
            r.model() == Map::<u128, StatusView>::empty(),
            r.spec_storage() == storage,
            r.spec_compressor() == &compressor,
    {
        let r = BundleManager { bundles: Vec::new(), storage, compressor };
        proof {
            assert(r.entries() =~= Seq::<(u128, StatusView)>::empty());
            assert(r.model() =~= Map::<u128, StatusView>::empty());
        }
        r
    }

    pub fn compressor(&self) -> (r: &Compressor)
        ensures
            r == self.spec_compressor(),
    {
        &self.compressor
    }

    proof fn lemma_entry(&self, i: int)
        requires
            self.wf(),
            0 <= i < self.bundles@.len(),
        ensures
            self.model().contains_key(self.bundles@[i].0),
            self.model()[self.bundles@[i].0] == self.bundles@[i].1@,
    {
        assert(self.entries()[i] == (self.bundles@[i].0, self.bundles@[i].1@));
        lemma_as_map_index(self.entries(), i);
    }

    proof fn lemma_key(&self, k: u128) -> (i: int)
        requires
            self.model().contains_key(k),
        ensures
            0 <= i < self.bundles@.len(),
            self.bundles@[i].0 == k,
    {
        let i = choose|i: int| 0 <= i < self.entries().len() && self.entries()[i].0 == k;
        i
    }

    /// Position of `id` among the entries, if present.
    fn position(&self, id: u128) -> (r: Option<usize>)
        requires
            self.wf(),
        ensures
            r matches Some(i) ==> i < self.bundles@.len() && self.bundles@[i as int].0 == id,
            r is None ==> !self.model().contains_key(id),
    {
        let mut i: usize = 0;
        while i < self.bundles.len()
            invariant
                i <= self.bundles@.len(),
                forall|j: int| 0 <= j < i ==> (#[trigger] self.bundles@[j]).0 != id,
            decreases self.bundles@.len() - i,
        {
            if self.bundles[i].0 == id {
                return Some(i);
            }
            i += 1;
        }
        proof {
            if self.model().contains_key(id) {
                let j = self.lemma_key(id);
                assert(self.bundles@[j].0 != id);
            }
        }
        None
    }

    /// Checks that no *other* active bundle claims the domain of `config`.
    pub fn verify_bundle(&self, id: u128, config: &BundleConfig) -> (r: Result<(), DeployError>)
        requires
            self.wf(),
        ensures
            r is Ok <==> !self.domain_taken(id, config@.domain),
            r matches Err(e) ==> e is DomainConflict,
    {
        let mut i: usize = 0;
        while i < self.bundles.len()
            invariant
                self.wf(),
                i <= self.bundles@.len(),
                forall|j: int|
                    0 <= j < i ==> (#[trigger] self.bundles@[j]).0 == id
                        || self.bundles@[j].1@.active_domain() != Some(config@.domain),
            decreases self.bundles@.len() - i,
        {
            let same = match &self.bundles[i].1 {
                BundleStatus::Active(b) => self.bundles[i].0 != id && b.config.domain == config.domain,
                BundleStatus::Failed(_) => false,
            };
            if same {
                proof {
                    self.lemma_entry(i as int);
                }
                return Err(DeployError::DomainConflict);
            }
            i += 1;
        }
        proof {
            if self.domain_taken(id, config@.domain) {
                let k = choose|k: u128|
                    k != id && #[trigger] self.model().contains_key(k)
                        && self.model()[k].active_domain() == Some(config@.domain);
                let j = self.lemma_key(k);
                self.lemma_entry(j);
                assert(self.bundles@[j].0 == id || self.bundles@[j].1@.active_domain() != Some(config@.domain));
            }
        }
        Ok(())
    }

    /// Checks that no *other* active bundle holds the directory `path`.
    fn verify_path(&self, id: u128, path: &String) -> (r: bool)
        requires
            self.wf(),
        ensures
            r <==> !self.path_taken(id, path@),
    {
        let mut i: usize = 0;
        while i < self.bundles.len()
            invariant
                self.wf(),
                i <= self.bundles@.len(),
                forall|j: int|
                    0 <= j < i ==> (#[trigger] self.bundles@[j]).0 == id
                        || self.bundles@[j].1@.active_path() != Some(path@),
            decreases self.bundles@.len() - i,
        {
            let same = match &self.bundles[i].1 {
                BundleStatus::Active(b) => self.bundles[i].0 != id && b.path == *path,
                BundleStatus::Failed(_) => false,
            };
            if same {
                proof {
                    self.lemma_entry(i as int);
                }
                return false;
            }
            i += 1;
        }
        proof {
            if self.path_taken(id, path@) {
                let k = choose|k: u128|
                    k != id && #[trigger] self.model().contains_key(k)
                        && self.model()[k].active_path() == Some(path@);
                let j = self.lemma_key(k);
                self.lemma_entry(j);
                assert(self.bundles@[j].0 == id || self.bundles@[j].1@.active_path() != Some(path@));
            }
        }
        true
    }

    /// Puts `status` under `id`, replacing (and releasing) what was there.
    fn install(&mut self, id: u128, status: BundleStatus<D>)
        requires
            old(self).wf(),
            status@.active_domain() matches Some(d) ==> !old(self).domain_taken(id, d),
            status@.active_path() matches Some(p) ==> !old(self).path_taken(id, p),
        ensures
            final(self).wf(),
            final(self).model() == old(self).model().insert(id, status@),
            final(self).spec_storage() == old(self).spec_storage(),
            final(self).spec_compressor() == old(self).spec_compressor(),
    {
        let ghost before = self.model();
        match self.position(id) {
            Some(i) => {
                proof {
                    self.lemma_entry(i as int);
                    assert(self.entries().remove(i as int) =~= self.bundles@.remove(i as int).map_values(
                        |e: (u128, BundleStatus<D>)| (e.0, e.1@),
                    ));
                    lemma_as_map_remove(self.entries(), i as int);
                }
                let _old = self.bundles.remove(i);
            },
            None => {},
        }
        let ghost mid = self.entries();
        proof {
            assert(as_map(mid) == before.remove(id));
        }
        self.bundles.push((id, status));
        proof {
            assert(self.entries() =~= mid.push((id, status@)));
            lemma_as_map_push(mid, id, status@);
            assert(before.remove(id).insert(id, status@) =~= before.insert(id, status@));
            let m = self.model();
            assert forall|a: u128, b: u128|
                #[trigger] m.contains_key(a) && #[trigger] m.contains_key(b) && a != b
                    && m[a].active_domain() is Some implies m[a].active_domain() != m[b].active_domain() by {
                if a == id {
                    assert(before.contains_key(b));
                } else if b == id {
                    assert(before.contains_key(a));
                    if m[a].active_domain() == m[b].active_domain() {
                        assert(before[a].active_domain() == Some(m[b].active_domain()->0));
                    }
                } else {
                    assert(before.contains_key(a) && before.contains_key(b));
                }
            }
            assert forall|a: u128, b: u128|
                #[trigger] m.contains_key(a) && #[trigger] m.contains_key(b) && a != b
                    && m[a].active_path() is Some implies m[a].active_path() != m[b].active_path() by {
                if a == id {
                    assert(before.contains_key(b));
                } else if b == id {
                    assert(before.contains_key(a));
                    if m[a].active_path() == m[b].active_path() {
                        assert(before[a].active_path() == Some(m[b].active_path()->0));
                    }
                } else {
                    assert(before.contains_key(a) && before.contains_key(b));
                }
            }
        }
    }

    /// Runs the deploy pipeline for `id` on its stored `config`: checks the
    /// domain, then lets `prepare` unpack and compress. The resulting status,
    /// active or failed, replaces whatever `id` held; other entries stay.
    pub fn deploy<F>(&mut self, id: u128, config: Result<BundleConfig, DeployError>, prepare: F) -> (r:
        Result<Statistics, DeployError>) where
        F: FnOnce(&BundleConfig, &Compressor) -> Result<Prepared<D>, DeployError>,

        requires
            old(self).wf(),
            forall|c: &BundleConfig, k: &Compressor| prepare.requires((c, k)),
        ensures
            final(self).wf(),
            final(self).spec_storage() == old(self).spec_storage(),
            final(self).spec_compressor() == old(self).spec_compressor(),
            final(self).model().remove(id) == old(self).model().remove(id),
            final(self).model().contains_key(id),
            match config {
                Err(e) => r == Err::<Statistics, DeployError>(e),
                Ok(c) => old(self).domain_taken(id, c@.domain) ==> (r matches Err(e)
                    && e is DomainConflict),
            },
            match r {
                Ok(stats) => (config matches Ok(c) && !old(self).domain_taken(id, c@.domain)
                    && final(self).model()[id].holds(c@, stats@)),
                Err(e) => final(self).model()[id] == (StatusView::Failed { error: e.spec_message() }),
            },
            match config {
                Ok(c) => !old(self).domain_taken(id, c@.domain) ==> exists|
                    p: Result<Prepared<D>, DeployError>,
                | #[trigger] prepare.ensures((&c, old(self).spec_compressor()), p)
                    && follows_preparation(
                    p,
                    r,
                    final(self).model()[id],
                    c@,
                    p matches Ok(q) && old(self).path_taken(id, q.path@),
                ),
                Err(_) => true,
            },
    {
        let ghost before = self.model();
        let ghost mut gp: Result<Prepared<D>, DeployError> = Err(DeployError::DomainConflict);
        let r = match config {
            Err(e) => Err(e),
            Ok(c) => match self.verify_bundle(id, &c) {
                Err(e) => Err(e),
                Ok(()) => {
                    let prepared = prepare(&c, &self.compressor);
                    proof {
                        gp = prepared;
                    }
                    match prepared {
                        Err(e) => Err(e),
                        Ok(p) => if self.verify_path(id, &p.path) {
                            Ok((c, p))
                        } else {
                            Err(DeployError::DirectoryInUse)
                        },
                    }
                },
            },
        };
        match r {
            Err(e) => {
                let status = BundleStatus::Failed(e.message());
                self.install(id, status);
                proof {
                    assert(self.model().remove(id) =~= before.remove(id));
                }
                Err(e)
            },
            Ok((c, p)) => {
                let stats = p.stats.duplicate();
                let status = BundleStatus::Active(ActiveBundle { root: p.root, path: p.path, config: c, stats: p.stats });
                self.install(id, status);
                proof {
                    assert(self.model().remove(id) =~= before.remove(id));
                }
                Ok(stats)
            },
        }
    }

    /// Every entry with its public view, one per identifier.
    pub fn bundles(&self) -> (r: Vec<(u128, Bundle)>)
        requires
            self.wf(),
        ensures
            forall|i: int, j: int|
                0 <= i < r@.len() && 0 <= j < r@.len() && i != j ==> #[trigger] r@[i].0
                    != #[trigger] r@[j].0,
            forall|i: int|
                0 <= i < r@.len() ==> self.model().contains_key(#[trigger] r@[i].0) && r@[i].1@
                    == self.model()[r@[i].0].public(),
            forall|k: u128|
                #[trigger] self.model().contains_key(k) ==> exists|i: int|
                    0 <= i < r@.len() && #[trigger] r@[i].0 == k,
    {
        let mut r: Vec<(u128, Bundle)> = Vec::new();
        let mut i: usize = 0;
        while i < self.bundles.len()
            invariant
                self.wf(),
                i <= self.bundles@.len(),
                r@.len() == i,
                forall|j: int|
                    0 <= j < i ==> (#[trigger] r@[j]).0 == self.bundles@[j].0 && r@[j].1@
                        == self.bundles@[j].1@.public(),
            decreases self.bundles@.len() - i,
        {
            let view = match &self.bundles[i].1 {
                BundleStatus::Active(b) => Bundle::Active {
                    config: b.config.duplicate(),
                    stats: b.stats.duplicate(),
                },
                BundleStatus::Failed(e) => Bundle::Failed { error: e.clone() },
            };
            r.push((self.bundles[i].0, view));
            i += 1;
        }
        proof {
            assert forall|a: int, b: int|
                0 <= a < r@.len() && 0 <= b < r@.len() && a != b implies #[trigger] r@[a].0
                != #[trigger] r@[b].0 by {
                assert(self.entries()[a].0 == r@[a].0 && self.entries()[b].0 == r@[b].0);
            }
            assert forall|a: int| 0 <= a < r@.len() implies self.model().contains_key(
                #[trigger] r@[a].0,
            ) && r@[a].1@ == self.model()[r@[a].0].public() by {
                self.lemma_entry(a);
            }
            assert forall|k: u128| #[trigger] self.model().contains_key(k) implies exists|a: int|
                0 <= a < r@.len() && #[trigger] r@[a].0 == k by {
                let j = self.lemma_key(k);
                assert(r@[j].0 == k);
            }
        }
        r
    }

    /// The domains claimed by active bundles, one per active bundle.
    pub fn domains(&self) -> (r: Vec<String>)
        requires
            self.wf(),
        ensures
            forall|i: int| 0 <= i < r@.len() ==> self.claims(#[trigger] r@[i]@),
            forall|k: u128|
                #[trigger] self.model().contains_key(k) && self.model()[k].is_active() ==> exists|
                    i: int,
                | 0 <= i < r@.len() && self.model()[k].active_domain() == Some((#[trigger] r@[i])@),
            forall|i: int, j: int|
                0 <= i < r@.len() && 0 <= j < r@.len() && i != j ==> (#[trigger] r@[i])@ != (
                #[trigger] r@[j])@,
    {
        let mut r: Vec<String> = Vec::new();
        let ghost mut keys: Seq<int> = Seq::empty();
        let mut i: usize = 0;
        while i < self.bundles.len()
            invariant
                self.wf(),
                i <= self.bundles@.len(),
                keys.len() == r@.len(),
                forall|j: int|
                    0 <= j < r@.len() ==> 0 <= #[trigger] keys[j] < i && self.bundles@[keys[j]].1@.active_domain()
                        == Some(r@[j]@),
                forall|a: int, b: int| 0 <= a < b < r@.len() ==> #[trigger] keys[a] < #[trigger] keys[b],
                forall|j: int|
                    0 <= j < i && (#[trigger] self.bundles@[j]).1@.is_active() ==> exists|a: int|
                        0 <= a < r@.len() && keys[a] == j,
            decreases self.bundles@.len() - i,
        {
            let ghost old_keys = keys;
            match &self.bundles[i].1 {
                BundleStatus::Active(b) => {
                    r.push(b.config.domain.clone());
                    proof {
                        keys = keys.push(i as int);
                        assert(keys[r@.len() - 1] == i);
                    }
                },
                BundleStatus::Failed(_) => {},
            }
            i += 1;
            proof {
                assert forall|j: int|
                    0 <= j < i && (#[trigger] self.bundles@[j]).1@.is_active() implies exists|a: int|
                    0 <= a < r@.len() && keys[a] == j by {
                    if j < i - 1 {
                        let a = choose|a: int| 0 <= a < old_keys.len() && old_keys[a] == j;
                        assert(keys[a] == j);
                    } else {
                        assert(keys[keys.len() - 1] == j);
                    }
                }
            }
        }
        proof {
            assert forall|a: int| 0 <= a < r@.len() implies self.claims(#[trigger] r@[a]@) by {
                self.lemma_entry(keys[a]);
                assert(self.model().contains_key(self.bundles@[keys[a]].0));
            }
            assert forall|k: u128|
                #[trigger] self.model().contains_key(k) && self.model()[k].is_active() implies exists|
                i: int,
            | 0 <= i < r@.len() && self.model()[k].active_domain() == Some((#[trigger] r@[i])@) by {
                let j = self.lemma_key(k);
                self.lemma_entry(j);
                assert(self.bundles@[j].1@.is_active());
                let a = choose|a: int| 0 <= a < r@.len() && keys[a] == j;
                assert(r@[a]@ == r@[a]@);
            }
            assert forall|a: int, b: int|
                0 <= a < r@.len() && 0 <= b < r@.len() && a != b implies (#[trigger] r@[a])@ != (
                #[trigger] r@[b])@ by {
                let ka = keys[a];
                let kb = keys[b];
                assert(ka != kb) by {
                    if a < b {
                        assert(keys[a] < keys[b]);
                    } else {
                        assert(keys[b] < keys[a]);
                    }
                }
                self.lemma_entry(ka);
                self.lemma_entry(kb);
                assert(self.entries()[ka].0 != self.entries()[kb].0);
                let m = self.model();
                assert(m.contains_key(self.bundles@[ka].0) && m.contains_key(self.bundles@[kb].0));
            }
        }
        r
    }

    /// The routing facts of every active bundle, one per active bundle.
    pub fn hosts(&self) -> (r: Vec<HostConfig>)
        requires
            self.wf(),
        ensures
            forall|i: int| 0 <= i < r@.len() ==> self.routes(#[trigger] r@[i]),
            forall|k: u128|
                #[trigger] self.model().contains_key(k) && self.model()[k].is_active() ==> exists|
                    i: int,
                | 0 <= i < r@.len() && host_for(
                    #[trigger] r@[i],
                    self.model()[k],
                    self.spec_compressor().spec_algorithms(),
                ),
            forall|i: int, j: int|
                0 <= i < r@.len() && 0 <= j < r@.len() && i != j ==> strings_view(
                    (#[trigger] r@[i]).hosts@,
                ) != strings_view((#[trigger] r@[j]).hosts@),
    {
        let mut r: Vec<HostConfig> = Vec::new();
        let ghost mut keys: Seq<int> = Seq::empty();
        let ghost algs = self.compressor.spec_algorithms();
        let mut i: usize = 0;
        while i < self.bundles.len()
            invariant
                self.wf(),
                algs == self.compressor.spec_algorithms(),
                i <= self.bundles@.len(),
                keys.len() == r@.len(),
                forall|j: int|
                    0 <= j < r@.len() ==> 0 <= #[trigger] keys[j] < i && host_for(
                        r@[j],
                        self.bundles@[keys[j]].1@,
                        algs,
                    ),
                forall|a: int, b: int| 0 <= a < b < r@.len() ==> #[trigger] keys[a] < #[trigger] keys[b],
                forall|j: int|
                    0 <= j < i && (#[trigger] self.bundles@[j]).1@.is_active() ==> exists|a: int|
                        0 <= a < r@.len() && keys[a] == j,
            decreases self.bundles@.len() - i,
        {
            let ghost old_keys = keys;
            match &self.bundles[i].1 {
                BundleStatus::Active(b) => {
                    let mut names: Vec<String> = Vec::new();
                    names.push(b.config.domain.clone());
                    proof {
                        assert(strings_view(names@) =~= seq![b.config.domain@]);
                    }
                    let h = HostConfig::new(
                        names,
                        b.path.clone(),
                        self.compressor.algorithms(),
                        crate::bundle::copy_opt_string(&b.config.fallback),
                    );
                    r.push(h);
                    proof {
                        keys = keys.push(i as int);
                        assert(keys[r@.len() - 1] == i);
                    }
                },
                BundleStatus::Failed(_) => {},
            }
            i += 1;
            proof {
                assert forall|j: int|
                    0 <= j < i && (#[trigger] self.bundles@[j]).1@.is_active() implies exists|a: int|
                    0 <= a < r@.len() && keys[a] == j by {
                    if j < i - 1 {
                        let a = choose|a: int| 0 <= a < old_keys.len() && old_keys[a] == j;
                        assert(keys[a] == j);
                    } else {
                        assert(keys[keys.len() - 1] == j);
                    }
                }
            }
        }
        proof {
            assert forall|a: int| 0 <= a < r@.len() implies self.routes(#[trigger] r@[a]) by {
                self.lemma_entry(keys[a]);
                assert(self.model().contains_key(self.bundles@[keys[a]].0));
            }
            assert forall|k: u128|
                #[trigger] self.model().contains_key(k) && self.model()[k].is_active() implies exists|
                i: int,
            | 0 <= i < r@.len() && host_for(#[trigger] r@[i], self.model()[k], algs) by {
                let j = self.lemma_key(k);
                self.lemma_entry(j);
                assert(self.bundles@[j].1@.is_active());
                let a = choose|a: int| 0 <= a < r@.len() && keys[a] == j;
                assert(host_for(r@[a], self.model()[k], algs));
            }
            assert forall|a: int, b: int|
                0 <= a < r@.len() && 0 <= b < r@.len() && a != b implies strings_view(
                (#[trigger] r@[a]).hosts@,
            ) != strings_view((#[trigger] r@[b]).hosts@) by {
                let ka = keys[a];
                let kb = keys[b];
                assert(ka != kb) by {
                    if a < b {
                        assert(keys[a] < keys[b]);
                    } else {
                        assert(keys[b] < keys[a]);
                    }
                }
                self.lemma_entry(ka);
                self.lemma_entry(kb);
                assert(self.entries()[ka].0 != self.entries()[kb].0);
                let m = self.model();
                assert(m.contains_key(self.bundles@[ka].0) && m.contains_key(self.bundles@[kb].0));
                if strings_view(r@[a].hosts@) == strings_view(r@[b].hosts@) {
                    assert(strings_view(r@[a].hosts@)[0] == strings_view(r@[b].hosts@)[0]);
                }
            }
        }
        r
    }

    /// A bundle that is active on a domain never conflicts with itself: a
    /// redeploy under its own identifier onto that domain passes the check.
    pub proof fn lemma_own_domain_free(&self, id: u128)
        requires
            self.wf(),
            self.model().contains_key(id),
            self.model()[id].is_active(),
        ensures
            !self.domain_taken(id, self.model()[id].active_domain()->0),
    {
        let d = self.model()[id].active_domain()->0;
        if self.domain_taken(id, d) {
            let k = choose|k: u128|
                k != id && #[trigger] self.model().contains_key(k) && self.model()[k].active_domain()
                    == Some(d);
            assert(self.model().contains_key(id) && self.model().contains_key(k));
        }
    }

    /// Drops the entry of `id`, releasing its extraction directory if active.
    pub fn remove(&mut self, id: u128)
        requires
            old(self).wf(),
        ensures
            final(self).wf(),
            final(self).model() == old(self).model().remove(id),
            final(self).spec_storage() == old(self).spec_storage(),
            final(self).spec_compressor() == old(self).spec_compressor(),
    {
        match self.position(id) {
            Some(i) => {
                proof {
                    assert(self.entries().remove(i as int) =~= self.bundles@.remove(i as int).map_values(
                        |e: (u128, BundleStatus<D>)| (e.0, e.1@),
                    ));
                    lemma_as_map_remove(self.entries(), i as int);
                }
                let ghost before = self.model();
                let _old = self.bundles.remove(i);
                proof {
                    let m = self.model();
                    assert forall|a: u128, b: u128|
                        #[trigger] m.contains_key(a) && #[trigger] m.contains_key(b) && a != b
                            && m[a].active_domain() is Some implies m[a].active_domain()
                            != m[b].active_domain() by {
                        assert(before.contains_key(a) && before.contains_key(b));
                    }
                    assert forall|a: u128, b: u128|
                        #[trigger] m.contains_key(a) && #[trigger] m.contains_key(b) && a != b
                            && m[a].active_path() is Some implies m[a].active_path()
                            != m[b].active_path() by {
                        assert(before.contains_key(a) && before.contains_key(b));
                    }
                }
            },
            None => {
                proof {
                    assert(self.model() =~= self.model().remove(id));
                }
            },
        }
    }
}

} // verus!
