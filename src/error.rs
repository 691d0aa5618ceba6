use vstd::prelude::*;

verus! {

/// Errors reported while turning scene-file records into assets.
#[derive(Debug)]
pub enum BevyBlenderError {
    /// The data does not start with the scene-file signature (a corrupted or
    /// compressed file).
    InvalidBlendFile {
        /// The file that was read.
        blend_file: String,
    },
    /// A record of one kind was handed where another kind was expected.
    InvalidInstanceType {
        /// The kind that was expected.
        expected: String,
        /// The kind that was found.
        found: String,
    },
    /// The asset is of a kind that is not supported (a node-based material).
    UnsupportedAsset {
        /// What kind of asset it is.
        asset_type: String,
    },
    /// A requested asset is not in the file.
    MissingAsset {
        /// The name that was asked for.
        asset_name: String,
        /// The file that was searched.
        blend_file: String,
    },
    /// A record's fields do not describe a well-formed asset (a face that
    /// reaches past the loop array, a loop that names no vertex).
    MalformedRecord {
        /// The record's name.
        record: String,
        /// The field that is out of shape.
        field: String,
    },
}

} // verus!
