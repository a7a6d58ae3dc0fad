//! The mutable spec store: applications with home names, executable
//! subdirectories and installed versions, kept sorted by application name.

use vstd::prelude::*;
use crate::errors::{LookupError, ParseError};
use crate::model::{
    has_app, insert_app, remove_app_s, store_wf, upsert_store, AppEntry, AppV, VerV,
};
use crate::store::{store_add, store_remove, store_upsert};
use crate::text::valid_key;

verus! {

/// The store of tracked applications.
#[derive(Debug, PartialEq, Eq)]
pub struct YongSpec {
    apps: Vec<AppEntry>,
}

impl View for YongSpec {
    type V = Seq<AppV>;

    closed spec fn view(&self) -> Seq<AppV> {
        self.apps.deep_view()
    }
}

impl YongSpec {
    /// The store's invariant: applications strictly sorted by name (hence
    /// unique), every name a bare section key, version lists never empty.
    pub open spec fn wf(&self) -> bool {
        store_wf(self@)
    }

    /// An empty store: no applications at all.
    pub fn new() -> (r: YongSpec)
        ensures
            r@ == Seq::<AppV>::empty(),
            r.wf(),
    {
        let r = YongSpec { apps: Vec::new() };
        proof {
            assert(r@ =~= Seq::<AppV>::empty());
        }
        r
    }

    /// Record an application, replacing any existing entry of the same name
    /// whole — including discarding its recorded versions.  The name serves
    /// as the section key of the rendered text, so it must be a bare key
    /// (see [`crate::text::is_valid_app_name`]).
    pub fn add_app(&mut self, app_name: &str, home_name: &str, bins: Vec<String>)
        requires
            old(self).wf(),
            valid_key(app_name@),
        ensures
            final(self).wf(),
            final(self)@ == insert_app(
                old(self)@,
                AppV {
                    name: app_name@,
                    home_name: home_name@,
                    bins: bins.deep_view(),
                    versions: None,
                },
            ),
    {
        let ghost b = bins.deep_view();
        let entry = AppEntry {
            name: app_name.to_owned(),
            home_name: home_name.to_owned(),
            bins,
            versions: None,
        };
        proof {
            assert(entry.deep_view() == AppV {
                name: app_name@,
                home_name: home_name@,
                bins: b,
                versions: None,
            });
        }
        store_add(&mut self.apps, entry);
    }

    /// Record one installed version of an application: an entry with the
    /// same version string is replaced in place, a new version string is
    /// appended at the end.  Fails when the application is unknown.
    pub fn upsert_version(&mut self, app_name: &str, ver: &str, home_path: &str) -> (r: Result<
        (),
        LookupError,
    >)
        requires
            old(self).wf(),
        ensures
            final(self).wf(),
            match r {
                Ok(()) => has_app(old(self)@, app_name@) && final(self)@ == upsert_store(
                    old(self)@,
                    app_name@,
                    VerV { version: ver@, home_path: home_path@ },
                ),
                Err(e) => {
                    &&& !has_app(old(self)@, app_name@)
                    &&& e == LookupError::UnknownApplication
                    &&& final(self)@ == old(self)@
                },
            },
    {
        store_upsert(&mut self.apps, app_name, ver, home_path)
    }

    /// Load a store from its text form.  An empty document yields an empty
    /// store; text that is not well formed or does not match the schema is
    /// rejected with a typed error, never with a panic or a silent default.
    pub fn load(text: &str) -> (r: Result<YongSpec, ParseError>)
        ensures
            match r {
                Ok(s) => crate::parse::spec_parse(text@) == Ok::<Seq<AppV>, crate::errors::ParseErrV>(s@)
                    && s.wf(),
                Err(e) => crate::parse::spec_parse(text@) == Err::<Seq<AppV>, crate::errors::ParseErrV>(e@),
            },
    {
        match crate::load::load_store(text) {
            Ok(apps) => Ok(YongSpec { apps }),
            Err(e) => Err(e),
        }
    }

    /// The canonical text of the store: application sections sorted by name,
    /// values and orderings exactly as recorded.
    pub fn render(&self) -> (r: String)
        ensures
            r@ == crate::render::spec_render(self@),
    {
        crate::render::render_store(&self.apps)
    }

    /// How many applications the store holds.
    pub fn len(&self) -> (r: usize)
        ensures
            r == self@.len(),
    {
        self.apps.len()
    }

    /// The application entry of this name, if the store holds one.
    pub fn get(&self, app_name: &str) -> (r: Option<&AppEntry>)
        requires
            self.wf(),
        ensures
            match r {
                Some(e) => has_app(self@, app_name@) && exists|i: int|
                    0 <= i < self@.len() && self@[i].name == app_name@ && (#[trigger] self@[i])
                        == e.deep_view(),
                None => !has_app(self@, app_name@),
            },
    {
        let (pos, found) = crate::store::find_pos(&self.apps, app_name);
        if found {
            proof {
                assert(self@[pos as int] == self.apps@[pos as int].deep_view());
            }
            Some(&self.apps[pos])
        } else {
            None
        }
    }

    /// Forget an application; absent names are left alone, so deletion is
    /// idempotent.
    pub fn remove_app(&mut self, app_name: &str)
        requires
            old(self).wf(),
        ensures
            final(self).wf(),
            final(self)@ == remove_app_s(old(self)@, app_name@),
            !has_app(old(self)@, app_name@) ==> final(self)@ == old(self)@,
    {
        proof {
            if !has_app(self@, app_name@) {
                crate::model::lemma_remove_absent(self@, app_name@);
            }
        }
        store_remove(&mut self.apps, app_name)
    }
}

} // verus!
