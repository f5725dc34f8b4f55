//! Load requests and the channel-backed dispatcher: one request is resolved
//! to bytes, decoded, packaged as an outcome, and pushed onto the result
//! channel for the owning asset store to drain.

use vstd::prelude::*;
use crate::error::AssetLoadError;
use crate::error::LoadErrorModel;
use crate::loader::AssetLoader;
use crate::loader::decode_matches;
use crate::storage_provider::AssetStorageProvider;
use crate::storage_provider::AssetStorageResolver;
use crate::storage_provider::provider_outcomes;
use crate::storage_provider::spec_resolve;

verus! {

/// Declares `crossbeam_channel::Sender`, the producing half of the
/// multi-producer/single-consumer result channel, so handlers can hold one;
/// the value is opaque here, and only `send_or_abort` touches it.
#[verifier::external_type_specification]
#[verifier::external_body]
#[verifier::reject_recursive_types(T)]
pub struct ExSender<T>(crossbeam_channel::Sender<T>);

/// Relies on `crossbeam_channel::Sender::send`: the value is delivered into
/// the channel unless every receiver is gone. A dead consumer violates the
/// pipeline's bootstrap contract — the channel must outlive every in-flight
/// dispatcher — so that case aborts loudly instead of being swallowed.
#[verifier::external_body]
fn send_or_abort<T>(sender: &crossbeam_channel::Sender<T>, outcome: T) {
    sender.send(outcome).expect("loaded asset should have been sent");
}

/// One decode job: the target path, the opaque handle identity the consumer
/// keys assets by, the monotonic version stamp of this request, and the
/// resolver chain to locate the bytes with. Immutable once created.
pub struct LoadRequest<P: AssetStorageProvider> {
    pub path: String,
    pub handle_id: u64,
    pub version: u64,
    pub resolver: AssetStorageResolver<P>,
}

/// The outcome of one load request: the decoded asset or the error, together
/// with the handle identity, path, and version stamp of the request, so the
/// consumer can discard outcomes superseded by a newer request.
pub struct AssetResult<TAsset> {
    pub handle_id: u64,
    pub result: Result<TAsset, AssetLoadError>,
    pub path: String,
    pub version: u64,
}

/// What one load request comes to: the decode of the resolved bytes, or the
/// resolution error when no provider had the path or one failed hard. A
/// resolution failure skips the decoder entirely.
pub open spec fn spec_load_outcome<TLoader, TAsset, P>(
    loader: TLoader,
    providers: Seq<P>,
    path: Seq<char>,
) -> Result<TAsset::V, LoadErrorModel> where
    TLoader: AssetLoader<TAsset>,
    TAsset: View,
    P: AssetStorageProvider,
 {
    match spec_resolve(provider_outcomes(providers, path), path) {
        Ok(bytes) => loader.spec_decode(path, bytes),
        Err(e) => Err(e),
    }
}

/// A handler a registry can route load requests to, erased behind a uniform
/// capability: execute one request end-to-end, and say which file extensions
/// it claims.
pub trait AssetLoadRequestHandler<P: AssetStorageProvider> {
    /// The extensions this handler claims, for routing by the registry.
    spec fn spec_extensions(&self) -> Seq<Seq<char>>;

    /// Execute one load request end-to-end, fire-and-forget: the outcome,
    /// success or failure, is delivered on the handler's own delivery path
    /// and never dropped silently.
    fn handle_request(&self, load_request: &LoadRequest<P>);

    /// The claimed extensions, as owned strings.
    fn extensions(&self) -> (r: Vec<String>)
        ensures
            r@.map_values(|s: String| s@) == self.spec_extensions(),
    ;
}

/// Binds one asset decoder to one result channel.
#[verifier::reject_recursive_types(TAsset)]
pub struct ChannelAssetHandler<TLoader, TAsset> {
    sender: crossbeam_channel::Sender<AssetResult<TAsset>>,
    loader: TLoader,
}

impl<TLoader, TAsset> ChannelAssetHandler<TLoader, TAsset> where
    TLoader: AssetLoader<TAsset>,
    TAsset: View,
 {
    /// The decoder this handler drives.
    pub closed spec fn spec_loader(&self) -> TLoader {
        self.loader
    }

    /// Bind `loader` to the sending half of a result channel.
    pub fn new(loader: TLoader, sender: crossbeam_channel::Sender<AssetResult<TAsset>>) -> (r:
        Self)
        ensures
            r.spec_loader() == loader,
    {
        ChannelAssetHandler { sender, loader }
    }

    /// Resolve the request's path through its resolver chain and decode the
    /// bytes: exactly the load-outcome model, case for case.
    pub fn load_asset<P: AssetStorageProvider>(&self, load_request: &LoadRequest<P>) -> (r: Result<
        TAsset,
        AssetLoadError,
    >)
        ensures
            decode_matches::<TAsset>(
                spec_load_outcome(self.spec_loader(), load_request.resolver@, load_request.path@),
                &r,
            ),
    {
        let storage = match load_request.resolver.resolve_sync(load_request.path.as_str()) {
            Ok(storage) => storage,
            Err(e) => {
                return Err(e);
            },
        };
        match self.loader.from_storage(load_request.path.as_str(), storage) {
            Ok(asset) => Ok(asset),
            Err(e) => Err(e),
        }
    }
}

impl<TLoader, TAsset, P> AssetLoadRequestHandler<P> for ChannelAssetHandler<TLoader, TAsset> where
    TLoader: AssetLoader<TAsset>,
    TAsset: View,
    P: AssetStorageProvider,
 {
    open spec fn spec_extensions(&self) -> Seq<Seq<char>> {
        self.spec_loader().spec_extensions()
    }

    /// Execute the request and push the packaged outcome onto the bound
    /// result channel, carrying the request's handle identity, path, and
    /// version stamp.
    fn handle_request(&self, load_request: &LoadRequest<P>) {
        let result = self.load_asset(load_request);
        let asset_result = AssetResult {
            handle_id: load_request.handle_id,
            result,
            path: load_request.path.clone(),
            version: load_request.version,
        };
        send_or_abort(&self.sender, asset_result);
    }

    fn extensions(&self) -> (r: Vec<String>) {
        self.loader.extensions()
    }
}

} // verus!
