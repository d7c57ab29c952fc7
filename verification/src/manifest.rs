//! What a manifest file declares, as its reader found it, and the package
//! descriptor that follows from it once the defaults are filled in.
//!
//! Reading the file and taking the markup apart is the caller's work. The
//! library receives the fields that were present and decides the rest.

use crate::package::{default_build_type, default_build_type_text, default_export, Export, Package};
use vstd::prelude::*;
use vstd::string::*;

verus! {

/// The export section of a manifest, as far as it was written.
#[derive(Clone, Debug)]
pub struct ExportFields {
    pub build_type: Option<String>,
}

/// The fields of a manifest, as far as they were written. The name is
/// required: a manifest without one is not well formed.
#[derive(Clone, Debug)]
pub struct ManifestFields {
    pub name: String,
    pub export: Option<ExportFields>,
}

/// What became of the attempt to read a directory's manifest.
#[derive(Clone, Debug)]
pub enum ManifestProbe {
    /// The directory holds no manifest file.
    Missing,
    /// There is a manifest file, but it could not be opened, is not
    /// well-formed markup, or lacks the name. The reason is kept in words.
    Rejected(String),
    /// The manifest was read.
    Parsed(ManifestFields),
}

/// The mathematical content of [`ExportFields`].
pub struct ExportFieldsView {
    pub build_type: Option<Seq<char>>,
}

/// The mathematical content of [`ManifestFields`].
pub struct ManifestView {
    pub name: Seq<char>,
    pub export: Option<ExportFieldsView>,
}

/// The mathematical content of a [`ManifestProbe`].
pub enum ProbeView {
    Missing,
    Rejected(Seq<char>),
    Parsed(ManifestView),
}

impl View for ExportFields {
    type V = ExportFieldsView;

    open spec fn view(&self) -> ExportFieldsView {
        ExportFieldsView {
            build_type: match self.build_type {
                Some(text) => Some(text@),
                None => None,
            },
        }
    }
}

impl View for ManifestFields {
    type V = ManifestView;

    open spec fn view(&self) -> ManifestView {
        ManifestView {
            name: self.name@,
            export: match self.export {
                Some(export) => Some(export@),
                None => None,
            },
        }
    }
}

impl View for ManifestProbe {
    type V = ProbeView;

    open spec fn view(&self) -> ProbeView {
        match self {
            ManifestProbe::Missing => ProbeView::Missing,
            ManifestProbe::Rejected(reason) => ProbeView::Rejected(reason@),
            ManifestProbe::Parsed(fields) => ProbeView::Parsed(fields@),
        }
    }
}

/// The name of the manifest file in a package directory.
pub open spec fn manifest_name() -> Seq<char> {
    "package.xml"@
}

/// The name under which the caller is to look for a directory's manifest.
pub fn manifest_file_name() -> (name: String)
    ensures
        name@ == manifest_name(),
{
    String::from_str("package.xml")
}

/// The build type that a manifest stands for: the one it names, or the
/// default where the export section or its build type is absent.
pub open spec fn declared_build_type(manifest: ManifestView) -> Seq<char> {
    match manifest.export {
        Some(export) => match export.build_type {
            Some(build_type) => build_type,
            None => default_build_type_text(),
        },
        None => default_build_type_text(),
    }
}

impl Package {
    /// The descriptor of the package that `fields` declares.
    pub fn from_manifest(fields: &ManifestFields) -> (pkg: Package)
        ensures
            pkg.name@ == fields@.name,
            pkg.export.build_type@ == declared_build_type(fields@),
    {
        let export = match &fields.export {
            Some(written) => match &written.build_type {
                Some(build_type) => Export { build_type: build_type.clone() },
                None => Export { build_type: default_build_type() },
            },
            None => default_export(),
        };
        Package { name: fields.name.clone(), export }
    }
}

} // verus!
