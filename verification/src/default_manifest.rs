//! The template manifest written out when a user asks for a fresh one.

use vstd::prelude::*;

verus! {

/// A commented example manifest covering the supported elements.
pub const DEFAULT_MANIFEST_FILE: &'static str =
    "<?xml version=\"1.0\" encoding=\"UTF-8\" ?>\n<manifest>\n    <!-- Project's default settings -->\n    <default revision=\"main\" uri=\"hostname.com\"/>\n\n    <!-- path is relative from where manifest is executed -->\n    <project name=\"repo/name\" path=\"path/folder\" revision=\"branch\"/>\n    <project name=\"repo/name\" path=\"folder\" revision=\"tag\"/>\n\n    <!-- It is possible to duplicate file using linkfile or copyfile -->\n    <!-- It is also possible to copy recursively a directory using copydir -->\n    <!-- src path is relative to the project path -->\n    <!-- dest path is relative to the manifest file -->\n    <!-- delete_project is used to delete the directory at the given path. Always executed last -->\n    <project uri=\"hostname.com\" name=\"repo/name\" path=\"folder\">\n        <linkfile src=\"filename\" dest=\"new_filename\"/>\n        <copyfile src=\"filename\" dest=\"new_filename\"/>\n        <copydir src=\"directory\" dest=\"new_directory\"/>\n        <delete_project/>\n    </project>\n\n</manifest>";

} // verus!
