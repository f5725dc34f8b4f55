//! An asset-resolution and loading pipeline.
//!
//! Given a logical path, the library locates raw byte content across an
//! ordered chain of storage providers, decodes it into a typed asset through
//! a loader, and packages the outcome for delivery back to the owning asset
//! store over a result channel. A plugin-group builder covers the ordered,
//! keyed registration of subsystem initializers at bootstrap.

pub mod asset_store;
pub mod error;
pub mod font_loader;
pub mod load_request;
pub mod loader;
pub mod platform_default;
pub mod plugin_group;
pub mod storage_provider;

pub use error::AssetLoadError;
pub use error::AssetServerError;
pub use error::LoadErrorModel;
pub use font_loader::Font;
pub use font_loader::FontLoader;
pub use load_request::AssetLoadRequestHandler;
pub use load_request::AssetResult;
pub use load_request::ChannelAssetHandler;
pub use load_request::LoadRequest;
pub use loader::AssetLoader;
pub use loader::HandlerRegistry;
pub use platform_default::DefaultStorageProvider;
pub use platform_default::FileReadOutcome;
pub use platform_default::select_root;
pub use plugin_group::PluginGroup;
pub use plugin_group::PluginGroupBuilder;
pub use storage_provider::AssetStorage;
pub use storage_provider::AssetStorageProvider;
pub use storage_provider::AssetStorageResolver;
pub use storage_provider::StaticStorageProvider;
pub use asset_store::AssetStore;
pub use asset_store::StoredOutcome;
