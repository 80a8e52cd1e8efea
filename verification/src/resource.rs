//! The asset-loading interface the engine exposes to its embedding:
//! resources addressed by path, served by a pluggable manager.

use vstd::prelude::*;

verus! {

/// A loadable resource, addressed by its path.
pub struct Resource {
    pub path: String,
}

/// Why a resource cannot be served.
#[derive(Debug)]
pub enum ResourceError {
    ResourceNotFound(String),
    Internal(String),
}

/// Reads the bytes of resources a manager serves.
pub trait ResourceReader {

}

/// Writes resources back to a manager's backing store.
pub trait ResourceWriter {

}

/// Serves resources from some backing store.
pub trait ResourceManager {
    type R: ResourceReader;

    type W: ResourceWriter;

    fn get_resource(&self, path: &str) -> Result<Resource, ResourceError>;

    fn reader() -> Self::R;

    fn writer() -> Self::W;
}

/// A manager rooted at a directory on disk. Lookup is not wired to the
/// file system: every path is reported as not found.
pub struct DiskResourceManager {
    pub root: String,
}

pub struct DiskResourceReader;

pub struct DiskResourceWriter;

impl ResourceReader for DiskResourceReader {

}

impl ResourceWriter for DiskResourceWriter {

}

impl ResourceManager for DiskResourceManager {
    type R = DiskResourceReader;

    type W = DiskResourceWriter;

    fn get_resource(&self, path: &str) -> Result<Resource, ResourceError> {
        Err(ResourceError::ResourceNotFound(String::new()))
    }

    fn reader() -> Self::R {
        DiskResourceReader
    }

    fn writer() -> Self::W {
        DiskResourceWriter
    }
}

} // verus!
