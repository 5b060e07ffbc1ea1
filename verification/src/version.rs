//! What the mod manager reads of a mod version that the Modrinth API lists:
//! its id, its first file, and its dependencies.

use vstd::prelude::*;
use crate::text::{copy_opt_string, opt_view};

verus! {

/// One dependency of a mod version (`dependencies[i]` of the API's version object).
#[derive(Debug, Clone, PartialEq, Eq)]
pub struct DependencyInfo {
    /// `project_id`, when it is a string.
    pub project_id: Option<String>,
    /// `version_id`, when it is a string.
    pub version_id: Option<String>,
    /// `dependency_type` (such as `required` or `optional`), when it is a string.
    pub dependency_type: Option<String>,
}

/// Mathematical view of a [`DependencyInfo`].
pub struct DependencyView {
    pub project_id: Option<Seq<char>>,
    pub version_id: Option<Seq<char>>,
    pub dependency_type: Option<Seq<char>>,
}

impl View for DependencyInfo {
    type V = DependencyView;

    open spec fn view(&self) -> DependencyView {
        DependencyView {
            project_id: opt_view(self.project_id),
            version_id: opt_view(self.version_id),
            dependency_type: opt_view(self.dependency_type),
        }
    }
}

/// One version object of the API's version list.
#[derive(Debug, Clone, PartialEq, Eq)]
pub struct VersionInfo {
    /// `id`, when it is a string.
    pub id: Option<String>,
    /// `files[0].url`, when it is a string.
    pub file_url: Option<String>,
    /// `files[0].filename`, when it is a string.
    pub file_name: Option<String>,
    /// `dependencies`, when it is an array.
    pub dependencies: Option<Vec<DependencyInfo>>,
}

/// Mathematical view of a [`VersionInfo`].
pub struct VersionView {
    pub id: Option<Seq<char>>,
    pub file_url: Option<Seq<char>>,
    pub file_name: Option<Seq<char>>,
    pub dependencies: Option<Seq<DependencyView>>,
}

/// Views of a sequence of dependencies.
pub open spec fn dependency_views(ds: Seq<DependencyInfo>) -> Seq<DependencyView> {
    ds.map_values(|d: DependencyInfo| d@)
}

/// Views of a sequence of versions.
pub open spec fn version_views(vs: Seq<VersionInfo>) -> Seq<VersionView> {
    vs.map_values(|v: VersionInfo| v@)
}

/// View of an optional version list.
pub open spec fn opt_version_views(vs: Option<Vec<VersionInfo>>) -> Option<Seq<VersionView>> {
    match vs {
        Some(v) => Some(version_views(v@)),
        None => None,
    }
}

impl View for VersionInfo {
    type V = VersionView;

    open spec fn view(&self) -> VersionView {
        VersionView {
            id: opt_view(self.id),
            file_url: opt_view(self.file_url),
            file_name: opt_view(self.file_name),
            dependencies: match self.dependencies {
                Some(ds) => Some(dependency_views(ds@)),
                None => None,
            },
        }
    }
}

impl DependencyInfo {
    /// A copy of this dependency.
    pub fn duplicate(&self) -> (r: Self)
        ensures
            r@ == self@,
    {
        DependencyInfo {
            project_id: copy_opt_string(&self.project_id),
            version_id: copy_opt_string(&self.version_id),
            dependency_type: copy_opt_string(&self.dependency_type),
        }
    }
}

/// A copy of a list of dependencies.
fn copy_dependencies(ds: &Vec<DependencyInfo>) -> (r: Vec<DependencyInfo>)
    ensures
        dependency_views(r@) == dependency_views(ds@),
{
    let mut r: Vec<DependencyInfo> = Vec::new();
    let mut i: usize = 0;
    while i < ds.len()
        invariant
            i <= ds@.len(),
            r@.len() == i,
            forall|k: int| 0 <= k < i ==> #[trigger] r@[k]@ == ds@[k]@,
        decreases ds@.len() - i,
    {
        let d = ds[i].duplicate();
        r.push(d);
        i = i + 1;
    }
    assert(dependency_views(r@) =~= dependency_views(ds@));
    r
}

impl VersionInfo {
    /// A copy of this version.
    pub fn duplicate(&self) -> (r: Self)
        ensures
            r@ == self@,
    {
        let dependencies = match &self.dependencies {
            Some(ds) => Some(copy_dependencies(ds)),
            None => None,
        };
        VersionInfo {
            id: copy_opt_string(&self.id),
            file_url: copy_opt_string(&self.file_url),
            file_name: copy_opt_string(&self.file_name),
            dependencies,
        }
    }
}

/// A copy of a list of versions.
pub fn copy_versions(vs: &Vec<VersionInfo>) -> (r: Vec<VersionInfo>)
    ensures
        version_views(r@) == version_views(vs@),
{
    let mut r: Vec<VersionInfo> = Vec::new();
    let mut i: usize = 0;
    while i < vs.len()
        invariant
            i <= vs@.len(),
            r@.len() == i,
            forall|k: int| 0 <= k < i ==> #[trigger] r@[k]@ == vs@[k]@,
        decreases vs@.len() - i,
    {
        let v = vs[i].duplicate();
        r.push(v);
        i = i + 1;
    }
    assert(version_views(r@) =~= version_views(vs@));
    r
}

} // verus!
