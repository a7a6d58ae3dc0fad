//! The read-only spec store: it loads a document and renders it back, with
//! the same schema and the same canonical text form as [`crate::yong`], but
//! without mutation.

use vstd::prelude::*;
use crate::errors::{ParseErrV, ParseError};
use crate::model::{has_app, store_wf, AppEntry, AppV};

verus! {

/// A loaded store of tracked applications, kept sorted by name.
#[derive(Debug, PartialEq, Eq)]
pub struct PlierSpec {
    apps: Vec<AppEntry>,
}

impl View for PlierSpec {
    type V = Seq<AppV>;

    closed spec fn view(&self) -> Seq<AppV> {
        self.apps.deep_view()
    }
}

impl PlierSpec {
    /// The store's invariant; see [`crate::model::store_wf`].
    pub open spec fn wf(&self) -> bool {
        store_wf(self@)
    }

    /// Load a store from its text form; an empty document yields an empty
    /// store, bad text a typed error.
    pub fn load(text: &str) -> (r: Result<PlierSpec, ParseError>)
        ensures
            match r {
                Ok(s) => crate::parse::spec_parse(text@) == Ok::<Seq<AppV>, ParseErrV>(s@)
                    && s.wf(),
                Err(e) => crate::parse::spec_parse(text@) == Err::<Seq<AppV>, ParseErrV>(e@),
            },
    {
        match crate::load::load_store(text) {
            Ok(apps) => Ok(PlierSpec { apps }),
            Err(e) => Err(e),
        }
    }

    /// The canonical text of the store.
    pub fn render(&self) -> (r: String)
        ensures
            r@ == crate::render::spec_render(self@),
    {
        crate::render::render_store(&self.apps)
    }

    /// How many applications the store holds.
    pub fn len(&self) -> (r: usize)
        ensures
            r == self@.len(),
    {
        self.apps.len()
    }

    /// The application entry of this name, if the store holds one.
    pub fn get(&self, app_name: &str) -> (r: Option<&AppEntry>)
        requires
            self.wf(),
        ensures
            match r {
                Some(e) => has_app(self@, app_name@) && exists|i: int|
                    0 <= i < self@.len() && self@[i].name == app_name@ && (#[trigger] self@[i])
                        == e.deep_view(),
                None => !has_app(self@, app_name@),
            },
    {
        let (pos, found) = crate::store::find_pos(&self.apps, app_name);
        if found {
            proof {
                assert(self@[pos as int] == self.apps@[pos as int].deep_view());
            }
            Some(&self.apps[pos])
        } else {
            None
        }
    }
}

} // verus!
