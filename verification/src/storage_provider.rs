//! Raw byte storage, the storage-provider capability, and the resolver that
//! tries an ordered chain of providers until one has the requested path.

use vstd::prelude::*;
use vstd::slice::slice_to_vec;
use crate::error::AssetLoadError;
use crate::error::LoadErrorModel;

verus! {

/// An immutable byte buffer handed back by a storage provider.
///
/// `Boxed` owns its bytes; `Borrowed` is a zero-copy view tied to the
/// resolving call; `Static` is content embedded at build time. A caller that
/// must keep the bytes beyond the resolving call converts with
/// [`AssetStorage::into_vec`].
pub enum AssetStorage<'a> {
    Boxed(Vec<u8>),
    Borrowed(&'a [u8]),
    Static(&'static [u8]),
}

impl<'a> View for AssetStorage<'a> {
    type V = Seq<u8>;

    open spec fn view(&self) -> Seq<u8> {
        match self {
            AssetStorage::Boxed(value) => value@,
            AssetStorage::Borrowed(value) => value@,
            AssetStorage::Static(value) => value@,
        }
    }
}

impl<'a> AssetStorage<'a> {
    /// Convert to an owned buffer holding the same bytes.
    pub fn into_vec(self) -> (r: Vec<u8>)
        ensures
            r@ == self@,
    {
        match self {
            AssetStorage::Boxed(value) => value,
            AssetStorage::Borrowed(value) => slice_to_vec(value),
            AssetStorage::Static(value) => slice_to_vec(value),
        }
    }

    /// Borrow the bytes without copying them.
    pub fn as_slice(&self) -> (r: &[u8])
        ensures
            r@ == self@,
    {
        match self {
            AssetStorage::Boxed(value) => value.as_slice(),
            AssetStorage::Borrowed(value) => value,
            AssetStorage::Static(value) => value,
        }
    }
}

/// What one provider finds for one path: bytes, nothing, or a hard error.
pub type ProviderFind = Result<Option<Seq<u8>>, LoadErrorModel>;

/// Relates a provider's executable result to its model: found bytes, a miss,
/// and an error must each match the model case for case.
pub open spec fn find_matches<'a>(
    m: ProviderFind,
    r: &Result<Option<AssetStorage<'a>>, AssetLoadError>,
) -> bool {
    match r {
        Ok(Some(storage)) => m == Ok::<Option<Seq<u8>>, LoadErrorModel>(Some(storage@)),
        Ok(None) => m == Ok::<Option<Seq<u8>>, LoadErrorModel>(None::<Seq<u8>>),
        Err(e) => m == Err::<Option<Seq<u8>>, LoadErrorModel>(e@),
    }
}

/// A source of raw bytes for logical paths.
///
/// `Ok(None)` is not an error: it tells the resolver to try the next
/// provider. `Err` is a hard failure that aborts resolution. For identical
/// inputs, and absent external state changes, a provider reports identical
/// results, which is what tying the result to `spec_find` states.
pub trait AssetStorageProvider {
    /// The model of this provider: what it finds for each path.
    spec fn spec_find(&self, path: Seq<char>) -> ProviderFind;

    /// Look the path up, blocking until the result is known.
    fn find_asset_storage_sync<'a>(&'a self, path: &str) -> (r: Result<
        Option<AssetStorage<'a>>,
        AssetLoadError,
    >)
        ensures
            find_matches(self.spec_find(path@), &r),
    ;
}

/// First binding of `path` in an association table, if any.
pub open spec fn table_lookup(table: Seq<(Seq<char>, Seq<u8>)>, path: Seq<char>) -> Option<
    Seq<u8>,
>
    decreases table.len(),
{
    if table.len() == 0 {
        None
    } else if table[0].0 == path {
        Some(table[0].1)
    } else {
        table_lookup(table.drop_first(), path)
    }
}

/// A provider over an in-memory table of exact path/content pairs, matched
/// against the requested path by case-sensitive equality.
pub struct StaticStorageProvider {
    entries: Vec<(String, Vec<u8>)>,
}

impl View for StaticStorageProvider {
    type V = Seq<(Seq<char>, Seq<u8>)>;

    closed spec fn view(&self) -> Seq<(Seq<char>, Seq<u8>)> {
        self.entries@.map_values(|e: (String, Vec<u8>)| (e.0@, e.1@))
    }
}

impl StaticStorageProvider {
    /// An empty table: every lookup misses.
    pub fn new() -> (r: Self)
        ensures
            r@ =~= Seq::<(Seq<char>, Seq<u8>)>::empty(),
    {
        StaticStorageProvider { entries: Vec::new() }
    }

    /// Append one path/content pair to the table.
    pub fn add_entry(&mut self, path: String, bytes: Vec<u8>)
        ensures
            final(self)@ =~= old(self)@.push((path@, bytes@)),
    {
        let ghost old_view = self@;
        self.entries.push((path, bytes));
        proof {
            assert(self@ =~= old_view.push((self.entries@.last().0@, self.entries@.last().1@)));
        }
    }
}

impl AssetStorageProvider for StaticStorageProvider {
    open spec fn spec_find(&self, path: Seq<char>) -> ProviderFind {
        match table_lookup(self@, path) {
            Some(bytes) => Ok(Some(bytes)),
            None => Ok(None),
        }
    }

    fn find_asset_storage_sync<'a>(&'a self, path: &str) -> (r: Result<
        Option<AssetStorage<'a>>,
        AssetLoadError,
    >) {
        let requested = path.to_owned();
        let n = self.entries.len();
        let mut i: usize = 0;
        proof {
            assert(self@.skip(0) =~= self@);
        }
        while i < n
            invariant
                n == self.entries.len(),
                i <= n,
                requested@ == path@,
                table_lookup(self@, path@) == table_lookup(self@.skip(i as int), path@),
            decreases n - i,
        {
            proof {
                assert(self@.skip(i as int)[0] == self@[i as int]);
                assert(self@.skip(i as int).drop_first() =~= self@.skip(i as int + 1));
            }
            if self.entries[i].0 == requested {
                return Ok(Some(AssetStorage::Borrowed(self.entries[i].1.as_slice())));
            }
            i += 1;
        }
        proof {
            assert(self@.skip(n as int) =~= Seq::<(Seq<char>, Seq<u8>)>::empty());
        }
        Ok(None)
    }
}

/// What the whole chain resolves `path` to, given the providers' outcomes in
/// registration order: the bytes of the first outcome that found some, the
/// first hard error, or, if every provider missed, a not-found error carrying
/// the requested path.
pub open spec fn spec_resolve(outcomes: Seq<ProviderFind>, path: Seq<char>) -> Result<
    Seq<u8>,
    LoadErrorModel,
>
    decreases outcomes.len(),
{
    if outcomes.len() == 0 {
        Err(LoadErrorModel::NotFound { path })
    } else {
        match outcomes[0] {
            Ok(Some(bytes)) => Ok(bytes),
            Ok(None) => spec_resolve(outcomes.drop_first(), path),
            Err(e) => Err(e),
        }
    }
}

/// The outcomes the providers report for `path`, in registration order.
pub open spec fn provider_outcomes<P: AssetStorageProvider>(
    providers: Seq<P>,
    path: Seq<char>,
) -> Seq<ProviderFind> {
    providers.map_values(|p: P| p.spec_find(path))
}

/// Relates the resolver's executable result to the resolution model.
pub open spec fn resolve_matches<'a>(
    m: Result<Seq<u8>, LoadErrorModel>,
    r: &Result<AssetStorage<'a>, AssetLoadError>,
) -> bool {
    match r {
        Ok(storage) => m == Ok::<Seq<u8>, LoadErrorModel>(storage@),
        Err(e) => m == Err::<Seq<u8>, LoadErrorModel>(e@),
    }
}

/// An ordered chain of storage providers, tried in registration order.
pub struct AssetStorageResolver<P: AssetStorageProvider> {
    providers: Vec<P>,
}

impl<P: AssetStorageProvider> View for AssetStorageResolver<P> {
    type V = Seq<P>;

    closed spec fn view(&self) -> Seq<P> {
        self.providers@
    }
}

impl<P: AssetStorageProvider> Default for AssetStorageResolver<P> {
    /// A resolver with no providers.
    fn default() -> (r: Self)
        ensures
            r@ =~= Seq::<P>::empty(),
    {
        AssetStorageResolver { providers: Vec::new() }
    }
}

impl<P: AssetStorageProvider> AssetStorageResolver<P> {
    /// A resolver with no providers: every resolution reports not-found.
    pub fn new() -> (r: Self)
        ensures
            r@ =~= Seq::<P>::empty(),
    {
        AssetStorageResolver { providers: Vec::new() }
    }

    /// A resolver holding the one given provider.
    pub fn with_provider(asset_provider: P) -> (r: Self)
        ensures
            r@ =~= seq![asset_provider],
    {
        let mut providers = Vec::new();
        providers.push(asset_provider);
        AssetStorageResolver { providers }
    }

    /// Register one more provider at the end of the chain.
    pub fn add_provider(&mut self, asset_provider: P)
        ensures
            final(self)@ == old(self)@.push(asset_provider),
    {
        self.providers.push(asset_provider);
    }

    /// Try each provider in registration order; return the first hit, stop at
    /// the first hard error, and report not-found only after every provider
    /// has missed.
    pub fn resolve_sync<'a>(&'a self, path: &str) -> (r: Result<AssetStorage<'a>, AssetLoadError>)
        ensures
            resolve_matches(spec_resolve(provider_outcomes(self@, path@), path@), &r),
    {
        let ghost outcomes = provider_outcomes(self@, path@);
        let n = self.providers.len();
        let mut i: usize = 0;
        proof {
            assert(outcomes.skip(0) =~= outcomes);
        }
        while i < n
            invariant
                n == self.providers.len(),
                i <= n,
                outcomes == provider_outcomes(self@, path@),
                spec_resolve(outcomes, path@) == spec_resolve(outcomes.skip(i as int), path@),
            decreases n - i,
        {
            proof {
                assert(outcomes.skip(i as int)[0] == outcomes[i as int]);
                assert(outcomes.skip(i as int).drop_first() =~= outcomes.skip(i as int + 1));
            }
            let provider = &self.providers[i];
            match provider.find_asset_storage_sync(path) {
                Ok(Some(storage)) => {
                    return Ok(storage);
                },
                Ok(None) => {},
                Err(e) => {
                    return Err(e);
                },
            }
            i += 1;
        }
        proof {
            assert(outcomes.skip(n as int) =~= Seq::<ProviderFind>::empty());
        }
        Err(AssetLoadError::NotFound { path: path.to_owned() })
    }
}

/// First provider to find the path wins: if every provider before `k`
/// missed and provider `k` found `bytes`, resolution returns exactly those
/// bytes, whatever the providers after `k` hold for the same path.
pub proof fn lemma_resolve_first_found(
    outcomes: Seq<ProviderFind>,
    path: Seq<char>,
    k: int,
    bytes: Seq<u8>,
)
    requires
        0 <= k < outcomes.len(),
        outcomes[k] == Ok::<Option<Seq<u8>>, LoadErrorModel>(Some(bytes)),
        forall|j: int|
            0 <= j < k ==> outcomes[j] == Ok::<Option<Seq<u8>>, LoadErrorModel>(None::<Seq<u8>>),
    ensures
        spec_resolve(outcomes, path) == Ok::<Seq<u8>, LoadErrorModel>(bytes),
    decreases k,
{
    if k > 0 {
        lemma_resolve_first_found(outcomes.drop_first(), path, k - 1, bytes);
    }
}

/// A hard error from provider `k` aborts resolution: if every provider
/// before `k` missed and provider `k` failed, resolution returns that error,
/// whatever the providers after `k` hold — they are never consulted.
pub proof fn lemma_resolve_error_short_circuits(
    outcomes: Seq<ProviderFind>,
    path: Seq<char>,
    k: int,
    e: LoadErrorModel,
)
    requires
        0 <= k < outcomes.len(),
        outcomes[k] == Err::<Option<Seq<u8>>, LoadErrorModel>(e),
        forall|j: int|
            0 <= j < k ==> outcomes[j] == Ok::<Option<Seq<u8>>, LoadErrorModel>(None::<Seq<u8>>),
    ensures
        spec_resolve(outcomes, path) == Err::<Seq<u8>, LoadErrorModel>(e),
    decreases k,
{
    if k > 0 {
        lemma_resolve_error_short_circuits(outcomes.drop_first(), path, k - 1, e);
    }
}

/// A path present in no provider resolves to a not-found error carrying the
/// requested path; in particular a resolver with zero providers always
/// reports not-found.
pub proof fn lemma_resolve_all_missing(outcomes: Seq<ProviderFind>, path: Seq<char>)
    requires
        forall|j: int|
            0 <= j < outcomes.len() ==> outcomes[j] == Ok::<Option<Seq<u8>>, LoadErrorModel>(
                None::<Seq<u8>>,
            ),
    ensures
        spec_resolve(outcomes, path) == Err::<Seq<u8>, LoadErrorModel>(
            LoadErrorModel::NotFound { path },
        ),
    decreases outcomes.len(),
{
    if outcomes.len() > 0 {
        lemma_resolve_all_missing(outcomes.drop_first(), path);
    }
}

} // verus!
