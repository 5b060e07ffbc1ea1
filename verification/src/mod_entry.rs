//! One mod of a modpack: its identity, the version chosen for a game version,
//! the file to download and the dependencies it brings.

use vstd::prelude::*;
use crate::json_text::{json_single_string_array, json_string_array_text};
use crate::text::{copy_opt_string, opt_view, same_opt_string};
use crate::version::{
    copy_versions, dependency_views, opt_version_views, DependencyInfo, DependencyView,
    version_views, VersionInfo, VersionView,
};

verus! {

/// A mod as a modpack description names it, with what the manager learns of it.
#[derive(Debug, Clone, PartialEq, Eq)]
pub struct ModEntry {
    /// Modrinth project id or slug.
    pub id: Option<String>,
    /// Preferred Modrinth version id.
    pub version_id: Option<String>,
    /// Human-readable name.
    pub name: Option<String>,
    /// Description.
    pub desc: Option<String>,
    /// Whether the mod is required (dependencies that are not required are dropped).
    pub required: bool,
    /// URL of the file to download.
    pub download_link: Option<String>,
    /// Name of the file to download.
    pub filename: Option<String>,
    /// The versions compatible with the chosen loader and game version.
    pub compatible_versions: Option<Vec<VersionInfo>>,
    /// The version chosen among them.
    pub specific_version: Option<VersionInfo>,
}

/// Mathematical view of a [`ModEntry`].
pub struct ModEntryView {
    pub id: Option<Seq<char>>,
    pub version_id: Option<Seq<char>>,
    pub name: Option<Seq<char>>,
    pub desc: Option<Seq<char>>,
    pub required: bool,
    pub download_link: Option<Seq<char>>,
    pub filename: Option<Seq<char>>,
    pub compatible_versions: Option<Seq<VersionView>>,
    pub specific_version: Option<VersionView>,
}

impl View for ModEntry {
    type V = ModEntryView;

    open spec fn view(&self) -> ModEntryView {
        ModEntryView {
            id: opt_view(self.id),
            version_id: opt_view(self.version_id),
            name: opt_view(self.name),
            desc: opt_view(self.desc),
            required: self.required,
            download_link: opt_view(self.download_link),
            filename: opt_view(self.filename),
            compatible_versions: opt_version_views(self.compatible_versions),
            specific_version: match self.specific_version {
                Some(v) => Some(v@),
                None => None,
            },
        }
    }
}

/// Views of a sequence of mod entries.
pub open spec fn entry_views(es: Seq<ModEntry>) -> Seq<ModEntryView> {
    es.map_values(|e: ModEntry| e@)
}

/// The entry that `ModEntry::default` makes: nothing known, not required.
pub open spec fn empty_entry() -> ModEntryView {
    ModEntryView {
        id: None,
        version_id: None,
        name: None,
        desc: None,
        required: false,
        download_link: None,
        filename: None,
        compatible_versions: None,
        specific_version: None,
    }
}

/// Whether a mod description that leaves `required` out counts as required: it does.
pub fn default_required() -> (r: bool)
    ensures
        r,
{
    true
}

impl Default for ModEntry {
    fn default() -> (r: Self)
        ensures
            r@ == empty_entry(),
    {
        ModEntry {
            id: None,
            version_id: None,
            name: None,
            desc: None,
            required: false,
            download_link: None,
            filename: None,
            compatible_versions: None,
            specific_version: None,
        }
    }
}

/// Index of the version picked from `vs` for the preferred version id `vid`:
/// the first version whose id is `vid`, and the first version of the list when
/// no version id is preferred or none matches.
pub open spec fn chosen_version_index(vs: Seq<VersionView>, vid: Option<Seq<char>>) -> int {
    if vid is Some && exists|i: int| 0 <= i < vs.len() && #[trigger] vs[i].id == vid {
        choose|i: int|
            0 <= i < vs.len() && #[trigger] vs[i].id == vid && forall|j: int|
                0 <= j < i ==> vs[j].id != vid
    } else {
        0
    }
}

/// The entry after a version has been picked from its compatible versions;
/// unchanged when there is no list or the list is empty.
pub open spec fn select_version(e: ModEntryView) -> ModEntryView {
    match e.compatible_versions {
        Some(vs) => if vs.len() > 0 {
            ModEntryView {
                specific_version: Some(vs[chosen_version_index(vs, e.version_id)]),
                ..e
            }
        } else {
            e
        },
        None => e,
    }
}

/// The download link and file name of the picked version, when its first file has a URL.
pub open spec fn download_params(e: ModEntryView) -> Option<(Seq<char>, Seq<char>)> {
    match e.specific_version {
        Some(v) => match (v.file_url, v.file_name) {
            (Some(url), Some(name)) => Some((url, name)),
            _ => None,
        },
        None => None,
    }
}

/// The entry after its download parameters were recorded.
pub open spec fn with_download_params(e: ModEntryView) -> ModEntryView {
    match download_params(e) {
        Some((url, name)) => ModEntryView { download_link: Some(url), filename: Some(name), ..e },
        None => e,
    }
}

/// The picked version's first file has a name wherever it has a URL
/// (reading the parameters of a version without it is not defined).
pub open spec fn download_params_ready(e: ModEntryView) -> bool {
    match e.specific_version {
        Some(v) => v.file_url is Some ==> v.file_name is Some,
        None => true,
    }
}

/// The picked version lists its dependencies, each with a project id and a dependency type.
pub open spec fn dependencies_ready(e: ModEntryView) -> bool {
    match e.specific_version {
        Some(v) => match v.dependencies {
            Some(ds) => forall|i: int|
                0 <= i < ds.len() ==> (#[trigger] ds[i]).project_id is Some
                    && ds[i].dependency_type is Some,
            None => false,
        },
        None => true,
    }
}

/// The mod entry that a dependency becomes.
pub open spec fn dependency_entry(d: DependencyView) -> ModEntryView {
    ModEntryView { id: d.project_id, version_id: d.version_id, required: true, ..empty_entry() }
}

/// The entries of the required dependencies, in order.
pub open spec fn required_dependency_entries(ds: Seq<DependencyView>) -> Seq<ModEntryView>
    decreases ds.len(),
{
    if ds.len() == 0 {
        Seq::empty()
    } else {
        let rest = required_dependency_entries(ds.drop_last());
        if ds.last().dependency_type == Some("required"@) {
            rest.push(dependency_entry(ds.last()))
        } else {
            rest
        }
    }
}

/// The entries of the required dependencies of the picked version (none when no version was picked).
pub open spec fn dependency_entries(e: ModEntryView) -> Seq<ModEntryView> {
    match e.specific_version {
        Some(v) => match v.dependencies {
            Some(ds) => required_dependency_entries(ds),
            None => Seq::empty(),
        },
        None => Seq::empty(),
    }
}

/// The entry once a fetched version list has been stored in it.
pub open spec fn with_versions(e: ModEntryView, vs: Option<Seq<VersionView>>) -> ModEntryView {
    ModEntryView { compatible_versions: vs, ..e }
}

/// Address of the version list of a Modrinth project.
pub open spec fn versions_url(id: Seq<char>) -> Seq<char> {
    "https://api.modrinth.com/v2/project/"@ + id + "/version"@
}

/// The query parameters of the version list request for a loader and a game version.
pub fn version_query_params(loader: &str, version: &str) -> (r: Vec<(String, String)>)
    ensures
        r@.len() == 2,
        r@[0].0@ == "loaders"@,
        r@[0].1@ == json_string_array_text(loader@),
        r@[1].0@ == "game_versions"@,
        r@[1].1@ == json_string_array_text(version@),
{
    let mut params: Vec<(String, String)> = Vec::new();
    params.push((String::from_str("loaders"), json_single_string_array(loader)));
    params.push((String::from_str("game_versions"), json_single_string_array(version)));
    params
}

/// Index of the first version with id `vid`.
fn find_version(vs: &Vec<VersionInfo>, vid: &Option<String>) -> (r: Option<usize>)
    ensures
        match r {
            Some(i) => i < vs@.len() && vs@[i as int]@.id == opt_view(*vid) && forall|j: int|
                0 <= j < i ==> vs@[j]@.id != opt_view(*vid),
            None => forall|j: int| 0 <= j < vs@.len() ==> vs@[j]@.id != opt_view(*vid),
        },
{
    let mut i: usize = 0;
    while i < vs.len()
        invariant
            i <= vs@.len(),
            forall|j: int| 0 <= j < i ==> vs@[j]@.id != opt_view(*vid),
        decreases vs@.len() - i,
    {
        if same_opt_string(&vs[i].id, vid) {
            return Some(i);
        }
        i = i + 1;
    }
    None
}

impl ModEntry {
    /// A copy of this entry.
    pub fn duplicate(&self) -> (r: Self)
        ensures
            r@ == self@,
    {
        let compatible_versions = match &self.compatible_versions {
            Some(vs) => Some(copy_versions(vs)),
            None => None,
        };
        let specific_version = match &self.specific_version {
            Some(v) => Some(v.duplicate()),
            None => None,
        };
        ModEntry {
            id: copy_opt_string(&self.id),
            version_id: copy_opt_string(&self.version_id),
            name: copy_opt_string(&self.name),
            desc: copy_opt_string(&self.desc),
            required: self.required,
            download_link: copy_opt_string(&self.download_link),
            filename: copy_opt_string(&self.filename),
            compatible_versions,
            specific_version,
        }
    }

    /// The project id, when there is one.
    pub fn get_id(&self) -> (r: Option<&str>)
        ensures
            match r {
                Some(s) => self@.id == Some(s@),
                None => self@.id is None,
            },
    {
        if let Some(id) = &self.id {
            Some(id.as_str())
        } else {
            None
        }
    }

    /// Among the names of the files in the download cache, the first that is this
    /// mod's file name; none when the mod has no file name.
    pub fn check_if_cached(&self, file_names: &Vec<String>) -> (r: Option<usize>)
        ensures
            match self@.filename {
                None => r is None,
                Some(f) => match r {
                    Some(i) => i < file_names@.len() && file_names@[i as int]@ == f && forall|
                        j: int,
                    |
                        0 <= j < i ==> file_names@[j]@ != f,
                    None => forall|j: int| 0 <= j < file_names@.len() ==> file_names@[j]@ != f,
                },
            },
    {
        let f = match &self.filename {
            Some(f) => f,
            None => {
                return None;
            },
        };
        let mut i: usize = 0;
        while i < file_names.len()
            invariant
                self@.filename == Some(f@),
                i <= file_names@.len(),
                forall|j: int| 0 <= j < i ==> file_names@[j]@ != f@,
            decreases file_names@.len() - i,
        {
            if file_names[i] == *f {
                return Some(i);
            }
            i = i + 1;
        }
        None
    }

    /// Address of the request for the versions of this mod.
    pub fn compatible_versions_url(&self) -> (r: String)
        requires
            self.id is Some,
        ensures
            r@ == versions_url(self@.id->0),
    {
        let mut url = String::from_str("https://api.modrinth.com/v2/project/");
        if let Some(id) = &self.id {
            url.append(id.as_str());
        }
        url.append("/version");
        url
    }

    /// Stores the answer to the version list request: nothing when the request
    /// failed (`None`), otherwise the list (`None` inside when the answer was not a list).
    pub fn get_compatible_versions(&mut self, fetched: Option<Option<Vec<VersionInfo>>>) -> (r:
        Option<()>)
        ensures
            match fetched {
                None => r is None && final(self)@ == old(self)@,
                Some(vs) => r is Some && final(self)@ == with_versions(
                    old(self)@,
                    opt_version_views(vs),
                ),
            },
    {
        match fetched {
            None => None,
            Some(vs) => {
                self.compatible_versions = vs;
                Some(())
            },
        }
    }

    /// Picks the version to install: the first compatible version with the preferred
    /// version id, or else the first compatible version. Fails, changing nothing,
    /// when there is no compatible version.
    pub fn get_specific_version(&mut self) -> (r: Option<()>)
        ensures
            r is Some <==> (old(self)@.compatible_versions matches Some(vs) && vs.len() > 0),
            final(self)@ == select_version(old(self)@),
    {
        let chosen = match &self.compatible_versions {
            None => {
                return None;
            },
            Some(versions) => {
                if versions.len() == 0 {
                    return None;
                }
                let mut k: usize = 0;
                if self.version_id.is_some() {
                    if let Some(i) = find_version(versions, &self.version_id) {
                        k = i;
                    }
                }
                proof {
                    let vs = version_views(versions@);
                    let vid = self@.version_id;
                    if vid is Some && exists|i: int| 0 <= i < vs.len() && #[trigger] vs[i].id == vid {
                        let c = chosen_version_index(vs, vid);
                        assert(vs[k as int].id == vid);
                        if c < k {
                            assert(vs[c].id == vid);
                        }
                        if k < c {
                            assert(vs[k as int].id == vid);
                        }
                        assert(c == k);
                    }
                }
                versions[k].duplicate()
            },
        };
        self.specific_version = Some(chosen);
        Some(())
    }

    /// Records the picked version's download link and file name and returns them;
    /// `None`, changing nothing, when no version was picked or its first file has no URL.
    pub fn get_download_params(&mut self) -> (r: Option<(String, String)>)
        requires
            download_params_ready(old(self)@),
        ensures
            match r {
                Some((url, name)) => download_params(old(self)@) == Some((url@, name@)),
                None => download_params(old(self)@) is None,
            },
            final(self)@ == with_download_params(old(self)@),
    {
        let (url, name) = match &self.specific_version {
            None => {
                return None;
            },
            Some(v) => match (&v.file_url, &v.file_name) {
                (Some(url), Some(name)) => (url.clone(), name.clone()),
                _ => {
                    return None;
                },
            },
        };
        self.download_link = Some(url.clone());
        self.filename = Some(name.clone());
        Some((url, name))
    }

    /// The required dependencies of the picked version, as new mod entries.
    pub fn get_dependencies(&self) -> (r: Vec<ModEntry>)
        requires
            dependencies_ready(self@),
        ensures
            entry_views(r@) == dependency_entries(self@),
    {
        let mut out: Vec<ModEntry> = Vec::new();
        let ds = match &self.specific_version {
            None => {
                assert(entry_views(out@) =~= Seq::<ModEntryView>::empty());
                return out;
            },
            Some(v) => match &v.dependencies {
                Some(ds) => ds,
                None => {
                    assert(entry_views(out@) =~= Seq::<ModEntryView>::empty());
                    return out;
                },
            },
        };
        let required = String::from_str("required");
        let mut i: usize = 0;
        while i < ds.len()
            invariant
                i <= ds@.len(),
                required@ == "required"@,
                entry_views(out@) == required_dependency_entries(
                    dependency_views(ds@.subrange(0, i as int)),
                ),
            decreases ds@.len() - i,
        {
            let d = &ds[i];
            let ghost prev = dependency_views(ds@.subrange(0, i as int));
            let ghost next = dependency_views(ds@.subrange(0, i + 1));
            assert(next.drop_last() =~= prev);
            assert(next.last() == d@);
            let is_required = match &d.dependency_type {
                Some(t) => *t == required,
                None => false,
            };
            if is_required {
                let e = ModEntry {
                    id: copy_opt_string(&d.project_id),
                    version_id: copy_opt_string(&d.version_id),
                    required: true,
                    ..ModEntry::default()
                };
                out.push(e);
                assert(entry_views(out@) =~= required_dependency_entries(next));
            } else {
                assert(entry_views(out@) =~= required_dependency_entries(next));
            }
            i = i + 1;
        }
        assert(ds@.subrange(0, i as int) =~= ds@);
        out
    }

    /// Completes a mod from the answer to its version list request: stores the list,
    /// picks a version, collects its required dependencies (returned) and records
    /// the file to download. When the request failed, returns no dependency and
    /// changes nothing.
    pub fn get_metadata(&mut self, fetched: Option<Option<Vec<VersionInfo>>>) -> (r: Vec<ModEntry>)
        requires
            fetched matches Some(vs) ==> {
                let e = select_version(with_versions(old(self)@, opt_version_views(vs)));
                dependencies_ready(e) && download_params_ready(e)
            },
        ensures
            match fetched {
                None => r@.len() == 0 && final(self)@ == old(self)@,
                Some(vs) => {
                    let e = select_version(with_versions(old(self)@, opt_version_views(vs)));
                    &&& entry_views(r@) == dependency_entries(e)
                    &&& final(self)@ == with_download_params(e)
                },
            },
    {
        let res = self.get_compatible_versions(fetched);
        if res.is_none() {
            return Vec::new();
        }
        let _ = self.get_specific_version();
        let deps = self.get_dependencies();
        let _ = self.get_download_params();
        deps
    }

    /// Whether the picked version's first file has a name wherever it has a URL.
    pub fn has_ready_download_params(&self) -> (r: bool)
        ensures
            r == download_params_ready(self@),
    {
        match &self.specific_version {
            Some(v) => v.file_url.is_none() || v.file_name.is_some(),
            None => true,
        }
    }

    /// Whether the picked version lists its dependencies, each with a project id and a type.
    pub fn has_ready_dependencies(&self) -> (r: bool)
        ensures
            r == dependencies_ready(self@),
    {
        let v = match &self.specific_version {
            Some(v) => v,
            None => {
                return true;
            },
        };
        let ds = match &v.dependencies {
            Some(ds) => ds,
            None => {
                return false;
            },
        };
        let ghost dv = dependency_views(ds@);
        let mut i: usize = 0;
        while i < ds.len()
            invariant
                dv == dependency_views(ds@),
                self@.specific_version == Some(v@),
                v@.dependencies == Some(dv),
                i <= ds@.len(),
                forall|j: int|
                    0 <= j < i ==> (#[trigger] dv[j]).project_id is Some
                        && dv[j].dependency_type is Some,
            decreases ds@.len() - i,
        {
            if ds[i].project_id.is_none() || ds[i].dependency_type.is_none() {
                assert(dv[i as int] == ds@[i as int]@);
                return false;
            }
            assert(dv[i as int] == ds@[i as int]@);
            i = i + 1;
        }
        true
    }

    /// Whether [`ModEntry::get_metadata`] may be given this answer: the version it
    /// would pick lists its dependencies with their ids and types, and names its
    /// first file wherever it gives its URL.
    pub fn can_take_metadata(&self, fetched: &Option<Option<Vec<VersionInfo>>>) -> (r: bool)
        ensures
            r == (*fetched matches Some(vs) ==> {
                let e = select_version(with_versions(self@, opt_version_views(vs)));
                dependencies_ready(e) && download_params_ready(e)
            }),
    {
        match fetched {
            None => true,
            Some(vs) => {
                let mut probe = self.duplicate();
                let copied = match vs {
                    Some(v) => Some(copy_versions(v)),
                    None => None,
                };
                probe.compatible_versions = copied;
                let _ = probe.get_specific_version();
                probe.has_ready_dependencies() && probe.has_ready_download_params()
            },
        }
    }

    /// Whether the mod has both a download link and a file name (otherwise it is skipped).
    pub fn is_downloadable(&self) -> (r: bool)
        ensures
            r == (self@.download_link is Some && self@.filename is Some),
    {
        self.download_link.is_some() && self.filename.is_some()
    }

    /// The name shown for an installed mod: its name, or else `fallback`.
    pub fn display_name(&self, fallback: String) -> (r: String)
        ensures
            r@ == match self@.name {
                Some(n) => n,
                None => fallback@,
            },
    {
        match &self.name {
            Some(n) => n.clone(),
            None => fallback,
        }
    }
}

/// Law: the version picked for a mod is one of its compatible versions, and it
/// carries the preferred version id whenever some compatible version does.
pub proof fn law_selected_version_is_listed(e: ModEntryView)
    requires
        e.compatible_versions matches Some(vs) && vs.len() > 0,
    ensures
        select_version(e).specific_version matches Some(v) && e.compatible_versions->0.contains(v),
        (e.version_id is Some && exists|i: int|
            0 <= i < e.compatible_versions->0.len()
                && #[trigger] e.compatible_versions->0[i].id == e.version_id)
            ==> select_version(e).specific_version->0.id == e.version_id,
        select_version(e).version_id == e.version_id,
        select_version(e).compatible_versions == e.compatible_versions,
{
    let vs = e.compatible_versions->0;
    let vid = e.version_id;
    if vid is Some && exists|i: int| 0 <= i < vs.len() && #[trigger] vs[i].id == vid {
        let i = choose|i: int| 0 <= i < vs.len() && #[trigger] vs[i].id == vid;
        lemma_first_version_exists(vs, vid, i);
    }
    let c = chosen_version_index(vs, vid);
    assert(0 <= c < vs.len());
    assert(vs[c] == select_version(e).specific_version->0);
}

/// When the version at `k` has the id, a first version with the id exists at or before `k`.
proof fn lemma_first_version_exists(vs: Seq<VersionView>, vid: Option<Seq<char>>, k: int)
    requires
        0 <= k < vs.len(),
        vs[k].id == vid,
    ensures
        exists|i: int|
            0 <= i <= k && #[trigger] vs[i].id == vid && forall|j: int|
                0 <= j < i ==> vs[j].id != vid,
    decreases k,
{
    if exists|j: int| 0 <= j < k && #[trigger] vs[j].id == vid {
        let j = choose|j: int| 0 <= j < k && #[trigger] vs[j].id == vid;
        lemma_first_version_exists(vs, vid, j);
    } else {
        assert(forall|j: int| 0 <= j < k ==> vs[j].id != vid);
    }
}

/// Law: once a mod's download parameters are recorded it can be downloaded, from
/// the recorded link into the recorded file name.
pub proof fn law_recorded_params_make_downloadable(e: ModEntryView)
    requires
        download_params(e) is Some,
    ensures
        download_params(e) matches Some((url, name)) && with_download_params(e).download_link
            == Some(url) && with_download_params(e).filename == Some(name),
{
}

/// Law: every entry made from dependencies is required, has no file yet, and comes
/// from a dependency of type `required`, with its project and version ids.
pub proof fn law_dependency_entries_are_required(ds: Seq<DependencyView>, k: int)
    requires
        0 <= k < required_dependency_entries(ds).len(),
    ensures
        required_dependency_entries(ds)[k].required,
        required_dependency_entries(ds)[k].download_link is None,
        exists|i: int|
            0 <= i < ds.len() && #[trigger] ds[i].dependency_type == Some("required"@)
                && required_dependency_entries(ds)[k] == dependency_entry(ds[i]),
    decreases ds.len(),
{
    let init = ds.drop_last();
    let rest = required_dependency_entries(init);
    if k < rest.len() {
        law_dependency_entries_are_required(init, k);
        let i = choose|i: int|
            0 <= i < init.len() && #[trigger] init[i].dependency_type == Some("required"@)
                && rest[k] == dependency_entry(init[i]);
        assert(ds[i] == init[i]);
    } else {
        assert(ds[ds.len() - 1].dependency_type == Some("required"@));
    }
}

/// Law: how the version to install is chosen. With no compatible version the entry
/// is left as it is. Otherwise only the picked version changes: it is the first
/// listed version carrying the preferred version id when one does, and the first
/// listed version when no version id is preferred or none carries it.
pub proof fn law_version_choice(e: ModEntryView)
    ensures
        (e.compatible_versions is None || e.compatible_versions->0.len() == 0) ==> select_version(e)
            == e,
        e.compatible_versions is Some && e.compatible_versions->0.len() > 0 ==> select_version(e)
            == (ModEntryView { specific_version: select_version(e).specific_version, ..e }),
        e.compatible_versions is Some && e.compatible_versions->0.len() > 0 && (e.version_id is None
            || forall|i: int|
            0 <= i < e.compatible_versions->0.len() ==> e.compatible_versions->0[i].id
                != e.version_id) ==> select_version(e).specific_version == Some(
            e.compatible_versions->0[0],
        ),
        forall|k: int|
            #![trigger e.compatible_versions->0[k]]
            e.compatible_versions is Some && 0 <= k < e.compatible_versions->0.len()
                && e.version_id is Some && e.compatible_versions->0[k].id == e.version_id && (
            forall|j: int| 0 <= j < k ==> e.compatible_versions->0[j].id != e.version_id)
                ==> select_version(e).specific_version == Some(e.compatible_versions->0[k]),
{
    if e.compatible_versions is Some {
        let vs = e.compatible_versions->0;
        let vid = e.version_id;
        if vid is Some && exists|i: int| 0 <= i < vs.len() && #[trigger] vs[i].id == vid {
            let i = choose|i: int| 0 <= i < vs.len() && #[trigger] vs[i].id == vid;
            lemma_first_version_exists(vs, vid, i);
            let c = chosen_version_index(vs, vid);
            assert forall|k: int|
                #![trigger vs[k]]
                0 <= k < vs.len() && vs[k].id == vid && (forall|j: int|
                    0 <= j < k ==> vs[j].id != vid) implies k == c by {
                if k < c {
                    assert(vs[k].id == vid);
                }
                if c < k {
                    assert(vs[c].id == vid);
                }
            }
        }
    }
}

/// Whether a dependency is of type `required`.
pub open spec fn is_required_dependency(d: DependencyView) -> bool {
    d.dependency_type == Some("required"@)
}

/// Law: the entries made from a dependency list are, in order, one per dependency
/// of type `required` and none for any other: the list filtered on that type, each
/// dependency made into a required entry with its project and version ids.
pub proof fn law_dependency_entries_are_the_required_ones(ds: Seq<DependencyView>)
    ensures
        required_dependency_entries(ds) == ds.filter(|d: DependencyView| is_required_dependency(d)).map_values(
            |d: DependencyView| dependency_entry(d),
        ),
        forall|i: int|
            0 <= i < ds.len() && is_required_dependency(#[trigger] ds[i])
                ==> required_dependency_entries(ds).contains(dependency_entry(ds[i])),
    decreases ds.len(),
{
    reveal(Seq::filter);
    let pred = |d: DependencyView| is_required_dependency(d);
    let f = |d: DependencyView| dependency_entry(d);
    if ds.len() > 0 {
        let init = ds.drop_last();
        let last = ds.last();
        law_dependency_entries_are_the_required_ones(init);
        let fi = init.filter(pred);
        assert(ds.filter(pred) == (if pred(last) {
            fi.push(last)
        } else {
            fi
        }));
        if pred(last) {
            assert(fi.push(last).map_values(f) =~= fi.map_values(f).push(f(last)));
        }
        assert forall|i: int|
            0 <= i < ds.len() && is_required_dependency(#[trigger] ds[i])
                implies required_dependency_entries(ds).contains(dependency_entry(ds[i])) by {
            let rest = required_dependency_entries(init);
            if i < init.len() {
                assert(init[i] == ds[i]);
                assert(rest.contains(dependency_entry(init[i])));
                let k = choose|k: int| 0 <= k < rest.len() && rest[k] == dependency_entry(init[i]);
                if is_required_dependency(last) {
                    assert(rest.push(dependency_entry(last))[k] == dependency_entry(ds[i]));
                }
            } else {
                assert(ds[i] == last);
                assert(rest.push(dependency_entry(last))[rest.len() as int] == dependency_entry(
                    ds[i],
                ));
            }
        }
    }
}

/// Law: whenever the picked version gives both a file URL and a file name, those are
/// the download parameters and they are recorded, the rest of the entry unchanged;
/// without a picked version or without a URL there are none and nothing changes.
pub proof fn law_download_params_of_picked_version(e: ModEntryView)
    ensures
        e.specific_version is Some && e.specific_version->0.file_url is Some
            && e.specific_version->0.file_name is Some ==> download_params(e) == Some(
            (e.specific_version->0.file_url->0, e.specific_version->0.file_name->0),
        ) && with_download_params(e) == (ModEntryView {
            download_link: e.specific_version->0.file_url,
            filename: e.specific_version->0.file_name,
            ..e
        }),
        (e.specific_version is None || e.specific_version->0.file_url is None) ==> download_params(
            e,
        ) is None && with_download_params(e) == e,
{
}

} // verus!
