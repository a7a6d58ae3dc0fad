//! The store's data model: one entry per tracked application, each with a
//! home name, an ordered list of executable subdirectories, and optionally
//! the installed versions in insertion order.  The mathematical model keeps
//! applications sorted by name, which makes rendering deterministic.

use vstd::prelude::*;
use crate::text::{lex_lt, valid_key};

verus! {

/// One installed build of an application.
#[derive(Debug, Clone, PartialEq, Eq)]
pub struct VersionEntry {
    /// Free-form version identifier; equality is exact string match.
    pub version: String,
    /// Root directory of the installed version.
    pub home_path: String,
}

/// One tracked application.
#[derive(Debug, Clone, PartialEq, Eq)]
pub struct AppEntry {
    /// Unique application name; also the section key of the rendered text.
    pub name: String,
    /// Identifier for the application's home environment variable or alias.
    pub home_name: String,
    /// Subdirectory names under a version's home that hold executables,
    /// in search order.
    pub bins: Vec<String>,
    /// Installed versions in insertion order; `None` when none are recorded.
    pub versions: Option<Vec<VersionEntry>>,
}

/// Mathematical value of a [`VersionEntry`].
pub struct VerV {
    pub version: Seq<char>,
    pub home_path: Seq<char>,
}

/// Mathematical value of an [`AppEntry`].
pub struct AppV {
    pub name: Seq<char>,
    pub home_name: Seq<char>,
    pub bins: Seq<Seq<char>>,
    pub versions: Option<Seq<VerV>>,
}

impl View for VersionEntry {
    type V = VerV;

    open spec fn view(&self) -> VerV {
        VerV { version: self.version@, home_path: self.home_path@ }
    }
}

impl DeepView for VersionEntry {
    type V = VerV;

    open spec fn deep_view(&self) -> VerV {
        self.view()
    }
}

impl View for AppEntry {
    type V = AppV;

    open spec fn view(&self) -> AppV {
        AppV {
            name: self.name@,
            home_name: self.home_name@,
            bins: self.bins.deep_view(),
            versions: self.versions.deep_view(),
        }
    }
}

impl DeepView for AppEntry {
    type V = AppV;

    open spec fn deep_view(&self) -> AppV {
        self.view()
    }
}

/// A single application entry is well formed: its name can stand as a bare
/// section key, and a recorded version list is never empty (an application
/// without versions stores `None`).
pub open spec fn app_wf(a: AppV) -> bool {
    &&& valid_key(a.name)
    &&& match a.versions {
        Some(vs) => vs.len() > 0,
        None => true,
    }
}

/// Application entries are strictly sorted by name, hence names are unique.
pub open spec fn apps_sorted(apps: Seq<AppV>) -> bool {
    forall|i: int, j: int|
        0 <= i < j < apps.len() ==> lex_lt(#[trigger] apps[i].name, #[trigger] apps[j].name)
}

/// Well-formedness of a whole store.
pub open spec fn store_wf(apps: Seq<AppV>) -> bool {
    &&& apps_sorted(apps)
    &&& forall|i: int| 0 <= i < apps.len() ==> app_wf(#[trigger] apps[i])
}

/// The store holds an application of this name.
pub open spec fn has_app(apps: Seq<AppV>, name: Seq<char>) -> bool {
    exists|i: int| 0 <= i < apps.len() && (#[trigger] apps[i].name) == name
}

/// The version list holds an entry with this version string.
pub open spec fn vers_has(vs: Seq<VerV>, ver: Seq<char>) -> bool {
    exists|i: int| 0 <= i < vs.len() && (#[trigger] vs[i].version) == ver
}

/// Upsert of one version into an ordered version list: every entry whose
/// version string matches is replaced in place; if none matches, the new
/// entry is appended at the end.
pub open spec fn upsert_vers(vs: Seq<VerV>, v: VerV) -> Seq<VerV> {
    if vers_has(vs, v.version) {
        Seq::new(vs.len(), |i: int| if vs[i].version == v.version { v } else { vs[i] })
    } else {
        vs.push(v)
    }
}

/// The application entry after upserting one version into it.
pub open spec fn with_version(a: AppV, v: VerV) -> AppV {
    AppV {
        versions: match a.versions {
            Some(vs) => Some(upsert_vers(vs, v)),
            None => Some(seq![v]),
        },
        ..a
    }
}

/// The store after upserting a version into the application of this name.
pub open spec fn upsert_store(apps: Seq<AppV>, name: Seq<char>, v: VerV) -> Seq<AppV> {
    Seq::new(apps.len(), |i: int| if apps[i].name == name { with_version(apps[i], v) } else { apps[i] })
}

/// Insertion into the sorted application list: an entry of the same name is
/// replaced whole, otherwise the new entry takes its sorted position.
pub open spec fn insert_app(apps: Seq<AppV>, a: AppV) -> Seq<AppV>
    decreases apps.len(),
{
    if apps.len() == 0 {
        seq![a]
    } else if lex_lt(a.name, apps[0].name) {
        seq![a] + apps
    } else if a.name == apps[0].name {
        seq![a] + apps.drop_first()
    } else {
        seq![apps[0]] + insert_app(apps.drop_first(), a)
    }
}

/// Removal from the application list; the list is unchanged when no entry
/// has the name.
pub open spec fn remove_app_s(apps: Seq<AppV>, name: Seq<char>) -> Seq<AppV>
    decreases apps.len(),
{
    if apps.len() == 0 {
        Seq::empty()
    } else if apps[0].name == name {
        apps.drop_first()
    } else {
        seq![apps[0]] + remove_app_s(apps.drop_first(), name)
    }
}

/// Removing an absent name leaves the list unchanged: deletion is idempotent.
pub proof fn lemma_remove_absent(apps: Seq<AppV>, name: Seq<char>)
    requires
        !has_app(apps, name),
    ensures
        remove_app_s(apps, name) == apps,
    decreases apps.len(),
{
    if apps.len() > 0 {
        assert(apps[0].name != name);
        assert(!has_app(apps.drop_first(), name)) by {
            assert forall|i: int| 0 <= i < apps.drop_first().len()
                implies (#[trigger] apps.drop_first()[i].name) != name by {
                assert(apps.drop_first()[i] == apps[i + 1]);
            }
        }
        lemma_remove_absent(apps.drop_first(), name);
        assert(seq![apps[0]] + apps.drop_first() =~= apps);
    } else {
        assert(apps =~= Seq::<AppV>::empty());
    }
}

/// An upsert whose version string matches an existing entry replaces the
/// matching entries in place, keeps every other entry untouched, and keeps
/// the length; an upsert of a new version string appends at the end.
pub proof fn lemma_upsert_in_place(vs: Seq<VerV>, v: VerV)
    ensures
        vers_has(vs, v.version) ==> {
            &&& upsert_vers(vs, v).len() == vs.len()
            &&& forall|j: int|
                0 <= j < vs.len() && (#[trigger] vs[j].version) == v.version
                    ==> upsert_vers(vs, v)[j] == v
            &&& forall|j: int|
                0 <= j < vs.len() && (#[trigger] vs[j].version) != v.version
                    ==> upsert_vers(vs, v)[j] == vs[j]
        },
        !vers_has(vs, v.version) ==> upsert_vers(vs, v) == vs.push(v),
{
}

} // verus!
