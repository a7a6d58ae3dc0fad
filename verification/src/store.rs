//! Executable operations on the sorted application list, proved against the
//! spec-level operations of [`crate::model`].

use vstd::prelude::*;
use crate::model::{
    has_app, insert_app, remove_app_s, store_wf, upsert_store, upsert_vers, vers_has, with_version,
    AppEntry, AppV, VerV, VersionEntry,
};
use crate::text::{lex_lt, lemma_lex_trans, lemma_lex_trichotomy};
use crate::errors::LookupError;

verus! {

/// Under strict sorting, names are unique: two distinct indices never carry
/// the same name.
pub proof fn lemma_sorted_unique(apps: Seq<AppV>, i: int, j: int)
    requires
        crate::model::apps_sorted(apps),
        0 <= i < apps.len(),
        0 <= j < apps.len(),
        i != j,
    ensures
        apps[i].name != apps[j].name,
{
    if i < j {
        lemma_lex_trichotomy(apps[i].name, apps[j].name);
    } else {
        lemma_lex_trichotomy(apps[j].name, apps[i].name);
    }
}

/// The sorted insertion equals cutting the list at the insertion position.
proof fn lemma_insert_app_at(apps: Seq<AppV>, a: AppV, pos: int)
    requires
        0 <= pos <= apps.len(),
        forall|j: int| 0 <= j < pos ==> lex_lt(#[trigger] apps[j].name, a.name),
        pos < apps.len() ==> apps[pos].name == a.name || lex_lt(a.name, apps[pos].name),
    ensures
        pos < apps.len() && apps[pos].name == a.name ==> insert_app(apps, a) == apps.take(pos)
            + seq![a] + apps.skip(pos + 1),
        !(pos < apps.len() && apps[pos].name == a.name) ==> insert_app(apps, a) == apps.take(pos)
            + seq![a] + apps.skip(pos),
    decreases apps.len(),
{
    if apps.len() == 0 {
        assert(insert_app(apps, a) =~= apps.take(0) + seq![a] + apps.skip(0));
    } else if pos == 0 {
        if apps[0].name == a.name {
            lemma_lex_trichotomy(a.name, apps[0].name);
            assert(insert_app(apps, a) =~= apps.take(0) + seq![a] + apps.skip(1));
        } else {
            lemma_lex_trichotomy(a.name, apps[0].name);
            assert(lex_lt(a.name, apps[0].name));
            assert(insert_app(apps, a) =~= apps.take(0) + seq![a] + apps.skip(0));
        }
    } else {
        // pos >= 1, so the head stays and insertion happens in the tail.
        assert(lex_lt(apps[0].name, a.name));
        lemma_lex_trichotomy(a.name, apps[0].name);
        let tail = apps.drop_first();
        assert forall|j: int| 0 <= j < pos - 1 implies lex_lt(#[trigger] tail[j].name, a.name) by {
            assert(tail[j] == apps[j + 1]);
        }
        assert(pos - 1 < tail.len() ==> tail[pos - 1] == apps[pos]);
        lemma_insert_app_at(tail, a, pos - 1);
        if pos < apps.len() && apps[pos].name == a.name {
            assert(seq![apps[0]] + (tail.take(pos - 1) + seq![a] + tail.skip(pos)) =~= apps.take(
                pos,
            ) + seq![a] + apps.skip(pos + 1));
        } else {
            assert(seq![apps[0]] + (tail.take(pos - 1) + seq![a] + tail.skip(pos - 1)) =~= apps.take(
                pos,
            ) + seq![a] + apps.skip(pos));
        }
    }
}

/// Removal equals cutting out the found position.
proof fn lemma_remove_app_at(apps: Seq<AppV>, name: Seq<char>, pos: int)
    requires
        0 <= pos < apps.len(),
        apps[pos].name == name,
        forall|j: int| 0 <= j < pos ==> (#[trigger] apps[j].name) != name,
    ensures
        remove_app_s(apps, name) == apps.take(pos) + apps.skip(pos + 1),
    decreases apps.len(),
{
    if pos == 0 {
        assert(remove_app_s(apps, name) =~= apps.take(0) + apps.skip(1));
    } else {
        let tail = apps.drop_first();
        assert forall|j: int| 0 <= j < pos - 1 implies (#[trigger] tail[j].name) != name by {
            assert(tail[j] == apps[j + 1]);
        }
        assert(tail[pos - 1] == apps[pos]);
        lemma_remove_app_at(tail, name, pos - 1);
        assert(seq![apps[0]] + (tail.take(pos - 1) + tail.skip(pos)) =~= apps.take(pos) + apps.skip(
            pos + 1,
        ));
    }
}

/// Scan the sorted list for a name: returns the first position whose entry
/// does not come before `name`, and whether that position holds `name`.
pub(crate) fn find_pos(apps: &Vec<AppEntry>, name: &str) -> (r: (usize, bool))
    requires
        crate::model::apps_sorted(apps.deep_view()),
    ensures
        r.0 <= apps.len(),
        forall|j: int| 0 <= j < r.0 ==> lex_lt(#[trigger] apps.deep_view()[j].name, name@),
        r.1 ==> r.0 < apps.len() && apps.deep_view()[r.0 as int].name == name@,
        !r.1 && r.0 < apps.len() ==> lex_lt(name@, apps.deep_view()[r.0 as int].name),
        r.1 == has_app(apps.deep_view(), name@),
{
    let ghost dv = apps.deep_view();
    let n = apps.len();
    let mut i: usize = 0;
    loop
        invariant
            0 <= i <= n,
            n == apps.len(),
            dv == apps.deep_view(),
            crate::model::apps_sorted(dv),
            forall|j: int| 0 <= j < i ==> lex_lt(#[trigger] dv[j].name, name@),
        decreases n - i,
    {
        if i >= n {
            proof {
                assert forall|k: int| 0 <= k < dv.len() implies (#[trigger] dv[k].name) != name@ by {
                    lemma_lex_trichotomy(dv[k].name, name@);
                }
            }
            return (n, false);
        }
        proof {
            assert(dv[i as int] == apps@[i as int].deep_view());
        }
        let c = crate::text::str_cmp(apps[i].name.as_str(), name);
        if c == 0 {
            proof {
                assert(dv[i as int].name == name@);
            }
            return (i, true);
        } else if c > 0 {
            proof {
                assert(lex_lt(name@, dv[i as int].name));
                assert forall|k: int| 0 <= k < dv.len() implies (#[trigger] dv[k].name) != name@ by {
                    if k < i {
                        lemma_lex_trichotomy(dv[k].name, name@);
                    } else if k == i {
                        lemma_lex_trichotomy(name@, dv[k].name);
                    } else {
                        lemma_lex_trans(name@, dv[i as int].name, dv[k].name);
                        lemma_lex_trichotomy(name@, dv[k].name);
                    }
                }
            }
            return (i, false);
        }
        i = i + 1;
    }
}

/// Insert or fully replace an application entry, keeping the list sorted.
pub(crate) fn store_add(apps: &mut Vec<AppEntry>, entry: AppEntry)
    requires
        store_wf(old(apps).deep_view()),
        crate::model::app_wf(entry.deep_view()),
    ensures
        final(apps).deep_view() == insert_app(old(apps).deep_view(), entry.deep_view()),
        store_wf(final(apps).deep_view()),
{
    let ghost dv = apps.deep_view();
    let ghost a = entry.deep_view();
    let (pos, found) = find_pos(apps, entry.name.as_str());
    if found {
        let _ = apps.remove(pos);
        apps.insert(pos, entry);
        proof {
            lemma_insert_app_at(dv, a, pos as int);
            assert(apps.deep_view() =~= dv.take(pos as int) + seq![a] + dv.skip(pos as int + 1));
            lemma_result_sorted(dv, a, pos as int, true);
        }
    } else {
        apps.insert(pos, entry);
        proof {
            lemma_insert_app_at(dv, a, pos as int);
            assert(apps.deep_view() =~= dv.take(pos as int) + seq![a] + dv.skip(pos as int));
            lemma_result_sorted(dv, a, pos as int, false);
        }
    }
}

/// The cut-and-insert form of the list is well formed again.
proof fn lemma_result_sorted(apps: Seq<AppV>, a: AppV, pos: int, replace: bool)
    requires
        store_wf(apps),
        crate::model::app_wf(a),
        0 <= pos <= apps.len(),
        replace ==> pos < apps.len() && apps[pos].name == a.name,
        forall|j: int| 0 <= j < pos ==> lex_lt(#[trigger] apps[j].name, a.name),
        !replace && pos < apps.len() ==> lex_lt(a.name, apps[pos].name),
    ensures
        replace ==> store_wf(apps.take(pos) + seq![a] + apps.skip(pos + 1)),
        !replace ==> store_wf(apps.take(pos) + seq![a] + apps.skip(pos)),
{
    let cut: int = if replace { pos + 1 } else { pos };
    let r = apps.take(pos) + seq![a] + apps.skip(cut);
    assert forall|i: int, j: int| 0 <= i < j < r.len() implies lex_lt(
        #[trigger] r[i].name,
        #[trigger] r[j].name,
    ) by {
        if i < pos {
            assert(r[i] == apps[i]);
        }
        if j < pos {
            assert(r[j] == apps[j]);
        }
        if i > pos {
            assert(r[i] == apps[i - pos - 1 + cut]);
        }
        if j > pos {
            assert(r[j] == apps[j - pos - 1 + cut]);
        }
        if i == pos && j > pos {
            // a comes before everything after the cut.
            let jj = j - pos - 1 + cut;
            if replace {
                assert(lex_lt(apps[pos].name, apps[jj].name));
                assert(a.name == apps[pos].name);
            } else {
                if jj == pos {
                    assert(lex_lt(a.name, apps[jj].name));
                } else {
                    lemma_lex_trans(a.name, apps[pos].name, apps[jj].name);
                }
            }
        }
        if j == pos && i < pos {
            assert(lex_lt(apps[i].name, a.name));
        }
    }
    assert forall|i: int| 0 <= i < r.len() implies crate::model::app_wf(#[trigger] r[i]) by {
        if i < pos {
            assert(r[i] == apps[i]);
        } else if i > pos {
            assert(r[i] == apps[i - pos - 1 + cut]);
        }
    }
}

/// Remove the application of this name, if present.
pub(crate) fn store_remove(apps: &mut Vec<AppEntry>, name: &str)
    requires
        store_wf(old(apps).deep_view()),
    ensures
        final(apps).deep_view() == remove_app_s(old(apps).deep_view(), name@),
        store_wf(final(apps).deep_view()),
{
    let ghost dv = apps.deep_view();
    let (pos, found) = find_pos(apps, name);
    if found {
        let _ = apps.remove(pos);
        proof {
            assert forall|j: int| 0 <= j < pos implies (#[trigger] dv[j].name) != name@ by {
                lemma_lex_trichotomy(dv[j].name, name@);
            }
            lemma_remove_app_at(dv, name@, pos as int);
            assert(apps.deep_view() =~= dv.take(pos as int) + dv.skip(pos as int + 1));
            let r = dv.take(pos as int) + dv.skip(pos as int + 1);
            assert forall|i: int, j: int| 0 <= i < j < r.len() implies lex_lt(
                #[trigger] r[i].name,
                #[trigger] r[j].name,
            ) by {
                assert(r[i] == if i < pos { dv[i] } else { dv[i + 1] });
                assert(r[j] == if j < pos { dv[j] } else { dv[j + 1] });
            }
            assert forall|i: int| 0 <= i < r.len() implies crate::model::app_wf(#[trigger] r[i]) by {
                assert(r[i] == if i < pos { dv[i] } else { dv[i + 1] });
            }
        }
    } else {
        proof {
            crate::model::lemma_remove_absent(dv, name@);
        }
    }
}

/// A structural copy of one version entry, with its value pinned.
fn clone_version(e: &VersionEntry) -> (r: VersionEntry)
    ensures
        r@ == e@,
{
    VersionEntry { version: e.version.clone(), home_path: e.home_path.clone() }
}

/// Replace every version entry whose version string matches, or append.
fn upsert_vers_exec(vs: Vec<VersionEntry>, ver: &str, home_path: &str) -> (r: Vec<VersionEntry>)
    ensures
        r.deep_view() == upsert_vers(
            vs.deep_view(),
            VerV { version: ver@, home_path: home_path@ },
        ),
{
    let ghost dv = vs.deep_view();
    let ghost v = VerV { version: ver@, home_path: home_path@ };
    let n = vs.len();
    let mut out: Vec<VersionEntry> = Vec::new();
    let mut i: usize = 0;
    let mut found = false;
    while i < n
        invariant
            0 <= i <= n,
            n == vs.len(),
            dv == vs.deep_view(),
            out.len() == i,
            found == exists|j: int| 0 <= j < i && (#[trigger] dv[j].version) == v.version,
            forall|j: int|
                0 <= j < i ==> #[trigger] out.deep_view()[j] == if dv[j].version == v.version {
                    v
                } else {
                    dv[j]
                },
            v.version == ver@,
            v.home_path == home_path@,
        decreases n - i,
    {
        proof {
            assert(dv[i as int] == vs@[i as int].deep_view());
        }
        let ghost prev = out@;
        let ghost prevd = out.deep_view();
        if crate::text::str_cmp(vs[i].version.as_str(), ver) == 0 {
            let ne = VersionEntry { version: ver.to_owned(), home_path: home_path.to_owned() };
            proof {
                assert(ne.deep_view() == v);
                assert(dv[i as int].version == v.version);
            }
            out.push(ne);
            found = true;
            proof {
                assert(out@ == prev.push(ne));
                assert(out@[i as int] == ne);
            }
        } else {
            proof {
                assert(dv[i as int].version != v.version);
            }
            let ne = clone_version(&vs[i]);
            proof {
                assert(ne@ == dv[i as int]);
            }
            out.push(ne);
            proof {
                assert(out@ == prev.push(ne));
                assert(out@[i as int] == ne);
            }
        }
        proof {
            assert forall|j: int| 0 <= j < i + 1 implies #[trigger] out.deep_view()[j] == if dv[
                j
            ].version == v.version {
                v
            } else {
                dv[j]
            } by {
                assert(out.deep_view()[j] == out@[j].deep_view());
                if j < i {
                    assert(out@[j] == prev[j]);
                    assert(prevd[j] == prev[j].deep_view());
                }
            }
        }
        i = i + 1;
    }
    proof {
        if found {
            assert(vers_has(dv, v.version));
            assert(out.deep_view() =~= upsert_vers(dv, v));
        } else {
            assert(!vers_has(dv, v.version));
            assert(out.deep_view() =~= dv);
        }
    }
    if !found {
        let ne = VersionEntry { version: ver.to_owned(), home_path: home_path.to_owned() };
        proof {
            assert(ne.deep_view() == v);
        }
        let ghost prev = out@;
        let ghost prevd = out.deep_view();
        out.push(ne);
        proof {
            assert forall|j: int| 0 <= j < out@.len() implies #[trigger] out.deep_view()[j]
                == dv.push(v)[j] by {
                assert(out.deep_view()[j] == out@[j].deep_view());
                if j < prev.len() {
                    assert(out@[j] == prev[j]);
                    assert(prevd[j] == prev[j].deep_view());
                }
            }
            assert(out.deep_view() =~= dv.push(v));
        }
    }
    out
}

/// Upsert a version into the application of this name; fails when the store
/// has no such application.
pub(crate) fn store_upsert(apps: &mut Vec<AppEntry>, name: &str, ver: &str, home_path: &str) -> (r:
    Result<(), LookupError>)
    requires
        store_wf(old(apps).deep_view()),
    ensures
        store_wf(final(apps).deep_view()),
        match r {
            Ok(()) => has_app(old(apps).deep_view(), name@) && final(apps).deep_view()
                == upsert_store(
                old(apps).deep_view(),
                name@,
                VerV { version: ver@, home_path: home_path@ },
            ),
            Err(e) => {
                &&& !has_app(old(apps).deep_view(), name@)
                &&& e == LookupError::UnknownApplication
                &&& final(apps).deep_view() == old(apps).deep_view()
            },
        },
{
    let ghost dv = apps.deep_view();
    let ghost v = VerV { version: ver@, home_path: home_path@ };
    let (pos, found) = find_pos(apps, name);
    if !found {
        return Err(LookupError::UnknownApplication);
    }
    let entry = apps.remove(pos);
    let ghost old_versions = entry.deep_view().versions;
    let vs0: Vec<VersionEntry> = match entry.versions {
        Some(vs) => vs,
        None => Vec::new(),
    };
    let vs = upsert_vers_exec(vs0, ver, home_path);
    proof {
        match old_versions {
            Some(ovs) => {
                assert(vs.deep_view() == upsert_vers(ovs, v));
            },
            None => {
                assert(vs.deep_view() =~= upsert_vers(Seq::<VerV>::empty(), v));
                assert(Seq::<VerV>::empty().push(v) =~= seq![v]);
            },
        }
    }
    let new_entry = AppEntry {
        name: entry.name,
        home_name: entry.home_name,
        bins: entry.bins,
        versions: Some(vs),
    };
    apps.insert(pos, new_entry);
    proof {
        assert(new_entry.deep_view() == with_version(dv[pos as int], v));
        assert(apps.deep_view() =~= dv.update(pos as int, with_version(dv[pos as int], v)));
        assert forall|j: int| 0 <= j < pos implies (#[trigger] dv[j].name) != name@ by {
            lemma_lex_trichotomy(dv[j].name, name@);
        }
        assert forall|j: int| pos < j < dv.len() implies (#[trigger] dv[j].name) != name@ by {
            lemma_sorted_unique(dv, pos as int, j);
        }
        assert(apps.deep_view() =~= upsert_store(dv, name@, v));
        // Well-formedness: only the entry at `pos` changed, and its name and
        // validity are untouched; its version list is non-empty after upsert.
        let r = apps.deep_view();
        assert forall|i: int, j: int| 0 <= i < j < r.len() implies lex_lt(
            #[trigger] r[i].name,
            #[trigger] r[j].name,
        ) by {
            assert(r[i].name == dv[i].name);
            assert(r[j].name == dv[j].name);
        }
        assert forall|i: int| 0 <= i < r.len() implies crate::model::app_wf(#[trigger] r[i]) by {
            if i == pos {
                match old_versions {
                    Some(ovs) => {
                        assert(upsert_vers(ovs, v).len() > 0);
                    },
                    None => {},
                }
            }
        }
    }
    Ok(())
}

} // verus!
