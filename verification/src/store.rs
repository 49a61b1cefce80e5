//! Which object store holds the log files, and how its failures are told
//! apart.

use vstd::prelude::*;

verus! {

/// `object_store::Error`, the error of a request to an object store: handed
/// in by the caller that made the request, and looked into only by
/// `store_error_kind`.
#[verifier::external_type_specification]
#[verifier::external_body]
pub struct ExStoreError(object_store::Error);

/// Where log files are read from, as the service is configured. The region
/// and the bucket of a remote store are no part of it: they come with each
/// log file. The secret key is of a type `K` of the caller's choosing, so
/// that nothing here can read it.
pub enum CdnLogStorageConfig<K> {
    /// A remote object store, with the credentials to read it.
    S3 { access_key: String, secret_key: K },
    /// A directory of the local file system.
    Local { path: String },
    /// A store in memory.
    Memory,
}

impl<K> CdnLogStorageConfig<K> {
    pub fn s3(access_key: String, secret_key: K) -> (config: CdnLogStorageConfig<K>)
        ensures
            config == (CdnLogStorageConfig::S3 { access_key, secret_key }),
    {
        CdnLogStorageConfig::S3 { access_key, secret_key }
    }

    pub fn local(path: String) -> (config: CdnLogStorageConfig<K>)
        ensures
            config == (CdnLogStorageConfig::<K>::Local { path }),
    {
        CdnLogStorageConfig::Local { path }
    }

    pub fn memory() -> (config: CdnLogStorageConfig<K>)
        ensures
            config == CdnLogStorageConfig::<K>::Memory,
    {
        CdnLogStorageConfig::Memory
    }
}

/// The store that one run reads its log file from.
pub enum StoreTarget<K> {
    /// The bucket of a remote object store in a region, with the
    /// credentials to read it.
    S3 { region: String, bucket: String, access_key: String, secret_key: K },
    /// A directory of the local file system.
    Local { path: String },
    /// A store in memory.
    Memory,
}

/// The store for a log file in `bucket` of `region`. A remote store is the
/// bucket in the region, read with the configured credentials; a local
/// directory and a store in memory are the same for every region and bucket.
pub fn build_store<K>(config: CdnLogStorageConfig<K>, region: &str, bucket: &str) -> (target:
    StoreTarget<K>)
    ensures
        match config {
            CdnLogStorageConfig::S3 { access_key, secret_key } => target matches StoreTarget::S3 {
                region: r,
                bucket: b,
                access_key: a,
                secret_key: s,
            } && r@ == region@ && b@ == bucket@ && a == access_key && s == secret_key,
            CdnLogStorageConfig::Local { path } => target == (StoreTarget::<K>::Local { path }),
            CdnLogStorageConfig::Memory => target == StoreTarget::<K>::Memory,
        },
{
    match config {
        CdnLogStorageConfig::S3 { access_key, secret_key } => StoreTarget::S3 {
            region: region.to_owned(),
            bucket: bucket.to_owned(),
            access_key,
            secret_key,
        },
        CdnLogStorageConfig::Local { path } => StoreTarget::Local { path },
        CdnLogStorageConfig::Memory => StoreTarget::Memory,
    }
}

/// The two kinds of failure of a store that a run tells apart.
#[derive(Clone, Copy, Debug, PartialEq, Eq, Structural)]
pub enum StoreErrorKind {
    /// The store has no object at the path.
    NotFound,
    /// The store could not be reached or refused the request.
    Transport,
}

/// The kind of an error of a store: `NotFound` for the variant `NotFound`
/// of `object_store::Error`, `Transport` for every other variant.
pub uninterp spec fn kind_of(error: object_store::Error) -> StoreErrorKind;

/// Tells the `NotFound` variant of `object_store::Error` from its other
/// variants. Trusted: the result depends on the variant alone, and
/// `kind_of` is the name of it.
#[verifier::external_body]
pub(crate) fn store_error_kind(error: &object_store::Error) -> (kind: StoreErrorKind)
    ensures
        kind == kind_of(*error),
{
    match error {
        object_store::Error::NotFound { .. } => StoreErrorKind::NotFound,
        _ => StoreErrorKind::Transport,
    }
}

} // verus!
