//! Rendering a store to its canonical text form, and the mathematical
//! definition of that form.
//!
//! A document is a sequence of newline-terminated lines.  Each application
//! contributes a section header, a `home_name` line and a `bins` line; each
//! of its versions contributes a blank line, an array-of-tables header, a
//! `version` line and a `home_path` line.  Consecutive application sections
//! are separated by one blank line.  String values are quoted, with `"`,
//! `\` and newline escaped so that every value stays on one line.

use vstd::prelude::*;
use vstd::string::StringExecFns;
use crate::model::{AppEntry, AppV, VerV, VersionEntry};

verus! {

/// The section key under which all applications live.
pub open spec fn kw_apps() -> Seq<char> {
    seq!['a', 'p', 'p', 's']
}

/// The sub-section key of the version list.
pub open spec fn kw_versions() -> Seq<char> {
    seq!['v', 'e', 'r', 's', 'i', 'o', 'n', 's']
}

/// The key of an application's home name.
pub open spec fn kw_home_name() -> Seq<char> {
    seq!['h', 'o', 'm', 'e', '_', 'n', 'a', 'm', 'e']
}

/// The key of an application's executable subdirectories.
pub open spec fn kw_bins() -> Seq<char> {
    seq!['b', 'i', 'n', 's']
}

/// The key of a version entry's identifier.
pub open spec fn kw_version() -> Seq<char> {
    seq!['v', 'e', 'r', 's', 'i', 'o', 'n']
}

/// The key of a version entry's home path.
pub open spec fn kw_home_path() -> Seq<char> {
    seq!['h', 'o', 'm', 'e', '_', 'p', 'a', 't', 'h']
}

/// The schema's keywords, as string literals, are the spec-level keyword
/// character sequences.
pub proof fn lemma_keywords()
    ensures
        "apps"@ == kw_apps(),
        "versions"@ == kw_versions(),
        "home_name"@ == kw_home_name(),
        "bins"@ == kw_bins(),
        "version"@ == kw_version(),
        "home_path"@ == kw_home_path(),
{
    reveal_strlit("apps");
    reveal_strlit("versions");
    reveal_strlit("home_name");
    reveal_strlit("bins");
    reveal_strlit("version");
    reveal_strlit("home_path");
    assert("apps"@ =~= kw_apps());
    assert("versions"@ =~= kw_versions());
    assert("home_name"@ =~= kw_home_name());
    assert("bins"@ =~= kw_bins());
    assert("version"@ =~= kw_version());
    assert("home_path"@ =~= kw_home_path());
}

/// How one character is written inside a quoted string.
pub open spec fn esc_char(c: char) -> Seq<char> {
    if c == '"' {
        seq!['\\', '"']
    } else if c == '\\' {
        seq!['\\', '\\']
    } else if c == '\n' {
        seq!['\\', 'n']
    } else {
        seq![c]
    }
}

/// The escaped body of a quoted string.
pub open spec fn esc_str(s: Seq<char>) -> Seq<char>
    decreases s.len(),
{
    if s.len() == 0 {
        Seq::empty()
    } else {
        esc_char(s[0]) + esc_str(s.drop_first())
    }
}

/// A quoted string value.
pub open spec fn quoted(s: Seq<char>) -> Seq<char> {
    seq!['"'] + esc_str(s) + seq!['"']
}

/// The comma-separated items of an array of strings.
pub open spec fn arr_items(vs: Seq<Seq<char>>) -> Seq<char>
    decreases vs.len(),
{
    if vs.len() == 0 {
        Seq::empty()
    } else if vs.len() == 1 {
        quoted(vs[0])
    } else {
        quoted(vs[0]) + seq![',', ' '] + arr_items(vs.drop_first())
    }
}

/// A `key = "value"` line.
pub open spec fn kv_line_str(k: Seq<char>, v: Seq<char>) -> Seq<char> {
    k + seq![' ', '=', ' '] + quoted(v)
}

/// A `key = ["a", "b"]` line.
pub open spec fn kv_line_arr(k: Seq<char>, vs: Seq<Seq<char>>) -> Seq<char> {
    k + seq![' ', '=', ' ', '['] + arr_items(vs) + seq![']']
}

/// An application's section header line.
pub open spec fn hdr_line(n: Seq<char>) -> Seq<char> {
    seq!['['] + kw_apps() + seq!['.'] + n + seq![']']
}

/// A version sub-section header line.
pub open spec fn vhdr_line(n: Seq<char>) -> Seq<char> {
    seq!['[', '['] + kw_apps() + seq!['.'] + n + seq!['.'] + kw_versions() + seq![']', ']']
}

/// The lines of one version sub-section, led by its separating blank line.
pub open spec fn ver_lines(n: Seq<char>, v: VerV) -> Seq<Seq<char>> {
    seq![
        Seq::empty(),
        vhdr_line(n),
        kv_line_str(kw_version(), v.version),
        kv_line_str(kw_home_path(), v.home_path),
    ]
}

/// The lines of all version sub-sections of one application.
pub open spec fn vers_lines(n: Seq<char>, vs: Seq<VerV>) -> Seq<Seq<char>>
    decreases vs.len(),
{
    if vs.len() == 0 {
        Seq::empty()
    } else {
        ver_lines(n, vs[0]) + vers_lines(n, vs.drop_first())
    }
}

/// The lines of one application's whole section.
pub open spec fn app_lines(a: AppV) -> Seq<Seq<char>> {
    seq![
        hdr_line(a.name),
        kv_line_str(kw_home_name(), a.home_name),
        kv_line_arr(kw_bins(), a.bins),
    ] + match a.versions {
        Some(vs) => vers_lines(a.name, vs),
        None => Seq::empty(),
    }
}

/// The lines of the whole document: application sections separated by one
/// blank line.
pub open spec fn apps_lines(apps: Seq<AppV>) -> Seq<Seq<char>>
    decreases apps.len(),
{
    if apps.len() == 0 {
        Seq::empty()
    } else if apps.len() == 1 {
        app_lines(apps[0])
    } else {
        app_lines(apps[0]) + seq![Seq::<char>::empty()] + apps_lines(apps.drop_first())
    }
}

/// Joining lines into a text, each line terminated by a newline.
pub open spec fn unlines(ls: Seq<Seq<char>>) -> Seq<char>
    decreases ls.len(),
{
    if ls.len() == 0 {
        Seq::empty()
    } else {
        ls[0] + seq!['\n'] + unlines(ls.drop_first())
    }
}

/// The canonical text of a store.
pub open spec fn spec_render(apps: Seq<AppV>) -> Seq<char> {
    unlines(apps_lines(apps))
}

/// `unlines` distributes over concatenation of line sequences.
pub proof fn lemma_unlines_add(a: Seq<Seq<char>>, b: Seq<Seq<char>>)
    ensures
        unlines(a + b) == unlines(a) + unlines(b),
    decreases a.len(),
{
    if a.len() == 0 {
        assert(a + b =~= b);
        assert(unlines(a) + unlines(b) =~= unlines(b));
    } else {
        assert((a + b).drop_first() =~= a.drop_first() + b);
        lemma_unlines_add(a.drop_first(), b);
        assert(unlines(a + b) =~= unlines(a) + unlines(b));
    }
}

/// Escaping one more character appends its escape.
pub proof fn lemma_esc_str_snoc(s: Seq<char>, c: char)
    ensures
        esc_str(s.push(c)) == esc_str(s) + esc_char(c),
    decreases s.len(),
{
    if s.len() == 0 {
        assert(s.push(c)[0] == c);
        assert(s.push(c).drop_first() =~= Seq::<char>::empty());
        assert(esc_str(Seq::<char>::empty()) == Seq::<char>::empty());
        assert(esc_str(s.push(c)) =~= esc_str(s) + esc_char(c));
    } else {
        assert(s.push(c).drop_first() =~= s.drop_first().push(c));
        lemma_esc_str_snoc(s.drop_first(), c);
        assert(esc_str(s.push(c)) =~= esc_str(s) + esc_char(c));
    }
}

/// One more array item appends a comma separator and the quoted item.
pub proof fn lemma_arr_items_snoc(vs: Seq<Seq<char>>, x: Seq<char>)
    ensures
        vs.len() == 0 ==> arr_items(vs.push(x)) == quoted(x),
        vs.len() > 0 ==> arr_items(vs.push(x)) == arr_items(vs) + seq![',', ' '] + quoted(x),
    decreases vs.len(),
{
    if vs.len() == 0 {
        assert(vs.push(x)[0] == x);
    } else if vs.len() == 1 {
        assert(vs.push(x).drop_first() =~= vs.drop_first().push(x));
        lemma_arr_items_snoc(vs.drop_first(), x);
        assert(arr_items(vs.push(x)) =~= arr_items(vs) + seq![',', ' '] + quoted(x));
    } else {
        assert(vs.push(x).drop_first() =~= vs.drop_first().push(x));
        lemma_arr_items_snoc(vs.drop_first(), x);
        assert(arr_items(vs.push(x)) =~= arr_items(vs) + seq![',', ' '] + quoted(x));
    }
}

/// One more version appends its sub-section lines.
pub proof fn lemma_vers_lines_snoc(n: Seq<char>, vs: Seq<VerV>, x: VerV)
    ensures
        vers_lines(n, vs.push(x)) == vers_lines(n, vs) + ver_lines(n, x),
    decreases vs.len(),
{
    if vs.len() == 0 {
        assert(vs.push(x)[0] == x);
        assert(vs.push(x).drop_first() =~= Seq::<VerV>::empty());
        assert(vers_lines(n, Seq::<VerV>::empty()) == Seq::<Seq<char>>::empty());
        assert(vers_lines(n, vs.push(x)) =~= vers_lines(n, vs) + ver_lines(n, x));
    } else {
        assert(vs.push(x).drop_first() =~= vs.drop_first().push(x));
        lemma_vers_lines_snoc(n, vs.drop_first(), x);
        assert(vers_lines(n, vs.push(x)) =~= vers_lines(n, vs) + ver_lines(n, x));
    }
}

/// One more application appends a blank separator (unless it is the first)
/// and its section lines.
pub proof fn lemma_apps_lines_snoc(apps: Seq<AppV>, a: AppV)
    ensures
        apps.len() == 0 ==> apps_lines(apps.push(a)) == app_lines(a),
        apps.len() > 0 ==> apps_lines(apps.push(a)) == apps_lines(apps)
            + seq![Seq::<char>::empty()] + app_lines(a),
    decreases apps.len(),
{
    if apps.len() == 0 {
        assert(apps.push(a)[0] == a);
    } else if apps.len() == 1 {
        assert(apps.push(a).drop_first() =~= apps.drop_first().push(a));
        lemma_apps_lines_snoc(apps.drop_first(), a);
        assert(apps_lines(apps.push(a)) =~= apps_lines(apps) + seq![Seq::<char>::empty()]
            + app_lines(a));
    } else {
        assert(apps.push(a).drop_first() =~= apps.drop_first().push(a));
        lemma_apps_lines_snoc(apps.drop_first(), a);
        assert(apps_lines(apps.push(a)) =~= apps_lines(apps) + seq![Seq::<char>::empty()]
            + app_lines(a));
    }
}

/// A single line joined is the line plus its newline.
pub proof fn lemma_unlines1(l: Seq<char>)
    ensures
        unlines(seq![l]) == l + seq!['\n'],
{
    assert(seq![l].drop_first() =~= Seq::<Seq<char>>::empty());
    assert(unlines(Seq::<Seq<char>>::empty()) == Seq::<char>::empty());
    assert(unlines(seq![l]) =~= l + seq!['\n']);
}

/// Append the escaped body of a value.
fn append_escaped(out: &mut String, v: &str)
    ensures
        final(out)@ == old(out)@ + esc_str(v@),
{
    let n = v.unicode_len();
    let mut i: usize = 0;
    while i < n
        invariant
            0 <= i <= n,
            n == v@.len(),
            out@ == old(out)@ + esc_str(v@.take(i as int)),
        decreases n - i,
    {
        let c = v.get_char(i);
        if c == '"' {
            crate::text::push_char(out, '\\');
            crate::text::push_char(out, '"');
        } else if c == '\\' {
            crate::text::push_char(out, '\\');
            crate::text::push_char(out, '\\');
        } else if c == '\n' {
            crate::text::push_char(out, '\\');
            crate::text::push_char(out, 'n');
        } else {
            crate::text::push_char(out, c);
        }
        proof {
            lemma_esc_str_snoc(v@.take(i as int), v@[i as int]);
            assert(v@.take(i as int + 1) =~= v@.take(i as int).push(v@[i as int]));
            assert(out@ =~= old(out)@ + esc_str(v@.take(i as int + 1)));
        }
        i = i + 1;
    }
    proof {
        assert(v@.take(n as int) =~= v@);
    }
}

/// Append a quoted string value.
fn append_quoted(out: &mut String, v: &str)
    ensures
        final(out)@ == old(out)@ + quoted(v@),
{
    crate::text::push_char(out, '"');
    append_escaped(out, v);
    crate::text::push_char(out, '"');
    proof {
        assert(out@ =~= old(out)@ + quoted(v@));
    }
}

/// Append a `key = "value"` line with its newline.
fn append_kv_str(out: &mut String, key: &str, v: &str)
    ensures
        final(out)@ == old(out)@ + kv_line_str(key@, v@) + seq!['\n'],
{
    out.append(key);
    out.append(" = ");
    append_quoted(out, v);
    crate::text::push_char(out, '\n');
    proof {
        reveal_strlit(" = ");
        assert(" = "@ =~= seq![' ', '=', ' ']);
        assert(out@ =~= old(out)@ + kv_line_str(key@, v@) + seq!['\n']);
    }
}

/// Append a `key = ["a", "b"]` line with its newline.
fn append_kv_arr(out: &mut String, key: &str, vs: &Vec<String>)
    ensures
        final(out)@ == old(out)@ + kv_line_arr(key@, vs.deep_view()) + seq!['\n'],
{
    let ghost dv = vs.deep_view();
    out.append(key);
    out.append(" = [");
    proof {
        reveal_strlit(" = [");
        assert(" = ["@ =~= seq![' ', '=', ' ', '[']);
        assert(arr_items(dv.take(0)) == Seq::<char>::empty()) by {
            assert(dv.take(0) =~= Seq::<Seq<char>>::empty());
        }
        assert(out@ =~= old(out)@ + key@ + seq![' ', '=', ' ', '['] + arr_items(dv.take(0)));
    }
    let n = vs.len();
    let mut i: usize = 0;
    while i < n
        invariant
            0 <= i <= n,
            n == vs.len(),
            dv == vs.deep_view(),
            out@ == old(out)@ + key@ + seq![' ', '=', ' ', '['] + arr_items(dv.take(i as int)),
        decreases n - i,
    {
        if i > 0 {
            out.append(", ");
        }
        append_quoted(out, vs[i].as_str());
        proof {
            reveal_strlit(", ");
            assert(", "@ =~= seq![',', ' ']);
            assert(dv[i as int] == vs@[i as int].deep_view());
            lemma_arr_items_snoc(dv.take(i as int), dv[i as int]);
            assert(dv.take(i as int + 1) =~= dv.take(i as int).push(dv[i as int]));
            assert(out@ =~= old(out)@ + key@ + seq![' ', '=', ' ', '['] + arr_items(
                dv.take(i as int + 1),
            ));
        }
        i = i + 1;
    }
    crate::text::push_char(out, ']');
    crate::text::push_char(out, '\n');
    proof {
        assert(dv.take(n as int) =~= dv);
        assert(out@ =~= old(out)@ + kv_line_arr(key@, dv) + seq!['\n']);
    }
}

/// Append an application's section header line with its newline.
fn append_hdr(out: &mut String, name: &str)
    ensures
        final(out)@ == old(out)@ + hdr_line(name@) + seq!['\n'],
{
    out.append("[apps.");
    out.append(name);
    out.append("]\n");
    proof {
        reveal_strlit("[apps.");
        reveal_strlit("]\n");
        assert("[apps."@ =~= seq!['['] + kw_apps() + seq!['.']);
        assert("]\n"@ =~= seq![']', '\n']);
        assert(out@ =~= old(out)@ + hdr_line(name@) + seq!['\n']);
    }
}

/// Append a version sub-section header line with its newline.
fn append_vhdr(out: &mut String, name: &str)
    ensures
        final(out)@ == old(out)@ + vhdr_line(name@) + seq!['\n'],
{
    out.append("[[apps.");
    out.append(name);
    out.append(".versions]]\n");
    proof {
        reveal_strlit("[[apps.");
        reveal_strlit(".versions]]\n");
        assert("[[apps."@ =~= seq!['[', '['] + kw_apps() + seq!['.']);
        assert(".versions]]\n"@ =~= seq!['.'] + kw_versions() + seq![']', ']', '\n']);
        assert(out@ =~= old(out)@ + vhdr_line(name@) + seq!['\n']);
    }
}

/// Append one application's whole section.
fn append_app(out: &mut String, e: &AppEntry)
    ensures
        final(out)@ == old(out)@ + unlines(app_lines(e.deep_view())),
{
    let ghost a = e.deep_view();
    let ghost head = seq![
        hdr_line(a.name),
        kv_line_str(kw_home_name(), a.home_name),
        kv_line_arr(kw_bins(), a.bins),
    ];
    append_hdr(out, e.name.as_str());
    append_kv_str(out, "home_name", e.home_name.as_str());
    append_kv_arr(out, "bins", &e.bins);
    proof {
        reveal_strlit("home_name");
        reveal_strlit("bins");
        assert("home_name"@ =~= kw_home_name());
        assert("bins"@ =~= kw_bins());
        assert(head =~= seq![hdr_line(a.name)] + seq![kv_line_str(kw_home_name(), a.home_name)]
            + seq![kv_line_arr(kw_bins(), a.bins)]);
        lemma_unlines_add(seq![hdr_line(a.name)], seq![kv_line_str(kw_home_name(), a.home_name)]);
        lemma_unlines_add(
            seq![hdr_line(a.name)] + seq![kv_line_str(kw_home_name(), a.home_name)],
            seq![kv_line_arr(kw_bins(), a.bins)],
        );
        lemma_unlines1(hdr_line(a.name));
        lemma_unlines1(kv_line_str(kw_home_name(), a.home_name));
        lemma_unlines1(kv_line_arr(kw_bins(), a.bins));
        assert(out@ =~= old(out)@ + unlines(head));
    }
    match &e.versions {
        None => {
            proof {
                assert(app_lines(a) =~= head);
            }
        },
        Some(vlist) => {
            let ghost vdv = vlist.deep_view();
            proof {
                assert(a.versions == Some(vdv));
                assert(vers_lines(a.name, vdv.take(0)) == Seq::<Seq<char>>::empty()) by {
                    assert(vdv.take(0) =~= Seq::<VerV>::empty());
                }
                assert(unlines(Seq::<Seq<char>>::empty()) == Seq::<char>::empty());
                assert(out@ =~= old(out)@ + unlines(head) + unlines(
                    vers_lines(a.name, vdv.take(0)),
                ));
            }
            let m = vlist.len();
            let mut i: usize = 0;
            while i < m
                invariant
                    0 <= i <= m,
                    m == vlist.len(),
                    vdv == vlist.deep_view(),
                    a == e.deep_view(),
                    out@ == old(out)@ + unlines(head) + unlines(vers_lines(a.name, vdv.take(i as int))),
                    head == seq![
                        hdr_line(a.name),
                        kv_line_str(kw_home_name(), a.home_name),
                        kv_line_arr(kw_bins(), a.bins),
                    ],
                decreases m - i,
            {
                crate::text::push_char(out, '\n');
                append_vhdr(out, e.name.as_str());
                append_kv_str(out, "version", vlist[i].version.as_str());
                append_kv_str(out, "home_path", vlist[i].home_path.as_str());
                proof {
                    reveal_strlit("version");
                    reveal_strlit("home_path");
                    assert("version"@ =~= kw_version());
                    assert("home_path"@ =~= kw_home_path());
                    assert(vdv[i as int] == vlist@[i as int].deep_view());
                    let v = vdv[i as int];
                    let vl = ver_lines(a.name, v);
                    assert(vl =~= seq![Seq::<char>::empty()] + seq![vhdr_line(a.name)] + seq![
                        kv_line_str(kw_version(), v.version),
                    ] + seq![kv_line_str(kw_home_path(), v.home_path)]);
                    lemma_unlines_add(seq![Seq::<char>::empty()], seq![vhdr_line(a.name)]);
                    lemma_unlines_add(
                        seq![Seq::<char>::empty()] + seq![vhdr_line(a.name)],
                        seq![kv_line_str(kw_version(), v.version)],
                    );
                    lemma_unlines_add(
                        seq![Seq::<char>::empty()] + seq![vhdr_line(a.name)] + seq![
                            kv_line_str(kw_version(), v.version),
                        ],
                        seq![kv_line_str(kw_home_path(), v.home_path)],
                    );
                    lemma_unlines1(Seq::<char>::empty());
                    lemma_unlines1(vhdr_line(a.name));
                    lemma_unlines1(kv_line_str(kw_version(), v.version));
                    lemma_unlines1(kv_line_str(kw_home_path(), v.home_path));
                    lemma_vers_lines_snoc(a.name, vdv.take(i as int), v);
                    assert(vdv.take(i as int + 1) =~= vdv.take(i as int).push(v));
                    lemma_unlines_add(vers_lines(a.name, vdv.take(i as int)), vl);
                    assert(out@ =~= old(out)@ + unlines(head) + unlines(
                        vers_lines(a.name, vdv.take(i as int + 1)),
                    ));
                }
                i = i + 1;
            }
            proof {
                assert(vdv.take(m as int) =~= vdv);
                assert(app_lines(a) =~= head + vers_lines(a.name, vdv));
                lemma_unlines_add(head, vers_lines(a.name, vdv));
            }
        },
    }
}

/// Render the whole sorted application list to its canonical text.
pub(crate) fn render_store(apps: &Vec<AppEntry>) -> (r: String)
    ensures
        r@ == spec_render(apps.deep_view()),
{
    let ghost dv = apps.deep_view();
    let mut out = String::new();
    proof {
        assert(apps_lines(dv.take(0)) == Seq::<Seq<char>>::empty()) by {
            assert(dv.take(0) =~= Seq::<AppV>::empty());
        }
        assert(unlines(Seq::<Seq<char>>::empty()) == Seq::<char>::empty());
        assert(out@ =~= unlines(apps_lines(dv.take(0))));
    }
    let n = apps.len();
    let mut i: usize = 0;
    while i < n
        invariant
            0 <= i <= n,
            n == apps.len(),
            dv == apps.deep_view(),
            out@ == unlines(apps_lines(dv.take(i as int))),
        decreases n - i,
    {
        if i > 0 {
            crate::text::push_char(&mut out, '\n');
        }
        append_app(&mut out, &apps[i]);
        proof {
            assert(dv[i as int] == apps@[i as int].deep_view());
            lemma_apps_lines_snoc(dv.take(i as int), dv[i as int]);
            assert(dv.take(i as int + 1) =~= dv.take(i as int).push(dv[i as int]));
            if i == 0 {
                assert(out@ =~= unlines(apps_lines(dv.take(i as int + 1))));
            } else {
                lemma_unlines_add(
                    apps_lines(dv.take(i as int)) + seq![Seq::<char>::empty()],
                    app_lines(dv[i as int]),
                );
                lemma_unlines_add(apps_lines(dv.take(i as int)), seq![Seq::<char>::empty()]);
                lemma_unlines1(Seq::<char>::empty());
                assert(out@ =~= unlines(apps_lines(dv.take(i as int + 1))));
            }
        }
        i = i + 1;
    }
    proof {
        assert(dv.take(n as int) =~= dv);
    }
    out
}

} // verus!
