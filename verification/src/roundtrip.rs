//! The round-trip law: parsing the canonical text of a well-formed store
//! yields exactly that store.

use vstd::prelude::*;
use crate::model::{app_wf, has_app, insert_app, store_wf, AppV, VerV};
use crate::parse::{
    all_ws, classify, close_mode, first_nl, parse_arr_items, parse_bstr, parse_path,
    parse_str_at, parse_val, run_lines, scan_key, skip_ws, spec_parse, split_lines, LineV, PMode,
    ParseSt, ValV,
};
use crate::render::{
    app_lines, apps_lines, arr_items, esc_char, esc_str, hdr_line, kv_line_arr, kv_line_str,
    kw_apps, kw_bins, kw_home_name, kw_home_path, kw_version, kw_versions, quoted, spec_render,
    unlines, ver_lines, vers_lines, vhdr_line,
};
use crate::text::{is_key_char, is_ws, lex_lt, valid_key};

verus! {

/// A line: no newline occurs in it.
spec fn no_nl(l: Seq<char>) -> bool {
    forall|j: int| 0 <= j < l.len() ==> (#[trigger] l[j]) != '\n'
}

/// All lines of a sequence are newline-free.
spec fn lines_ok(ls: Seq<Seq<char>>) -> bool {
    forall|k: int| 0 <= k < ls.len() ==> no_nl(#[trigger] ls[k])
}

proof fn lemma_no_nl_add(a: Seq<char>, b: Seq<char>)
    requires
        no_nl(a),
        no_nl(b),
    ensures
        no_nl(a + b),
{
    assert forall|j: int| 0 <= j < (a + b).len() implies (#[trigger] (a + b)[j]) != '\n' by {
        if j < a.len() {
            assert((a + b)[j] == a[j]);
        } else {
            assert((a + b)[j] == b[j - a.len()]);
        }
    }
}

/// Escaping removes every newline.
proof fn lemma_esc_str_no_nl(s: Seq<char>)
    ensures
        no_nl(esc_str(s)),
    decreases s.len(),
{
    if s.len() > 0 {
        lemma_esc_str_no_nl(s.drop_first());
        lemma_no_nl_add(esc_char(s[0]), esc_str(s.drop_first()));
    }
}

proof fn lemma_quoted_no_nl(s: Seq<char>)
    ensures
        no_nl(quoted(s)),
{
    lemma_esc_str_no_nl(s);
    lemma_no_nl_add(seq!['"'], esc_str(s));
    lemma_no_nl_add(seq!['"'] + esc_str(s), seq!['"']);
    assert(quoted(s) == (seq!['"'] + esc_str(s)) + seq!['"']) by {
        assert(quoted(s) =~= (seq!['"'] + esc_str(s)) + seq!['"']);
    }
}

/// A valid bare key holds no newline (a newline is not a key character).
proof fn lemma_key_no_nl(k: Seq<char>)
    requires
        valid_key(k),
    ensures
        no_nl(k),
{
    assert forall|j: int| 0 <= j < k.len() implies (#[trigger] k[j]) != '\n' by {
        assert(is_key_char(k[j]));
        assert(!is_key_char('\n'));
    }
}

/// The schema's keywords are valid bare keys, and are pairwise distinct.
proof fn lemma_kw_facts()
    ensures
        valid_key(kw_apps()),
        valid_key(kw_versions()),
        valid_key(kw_home_name()),
        valid_key(kw_bins()),
        valid_key(kw_version()),
        valid_key(kw_home_path()),
        kw_home_name() != kw_bins(),
        kw_version() != kw_home_path(),
        kw_home_name() != kw_version(),
        kw_home_name() != kw_home_path(),
        kw_bins() != kw_version(),
        kw_bins() != kw_home_path(),
{
    assert(valid_key(kw_apps()));
    assert(valid_key(kw_versions()));
    assert(valid_key(kw_home_name()));
    assert(valid_key(kw_bins()));
    assert(valid_key(kw_version()));
    assert(valid_key(kw_home_path()));
    assert(kw_home_name().len() != kw_bins().len());
    assert(kw_version().len() != kw_home_path().len());
    assert(kw_home_name().len() != kw_version().len());
    assert(kw_home_name()[5] != kw_home_path()[5]);
    assert(kw_bins().len() != kw_version().len());
    assert(kw_bins().len() != kw_home_path().len());
}

/// Every line the renderer emits is newline-free.
proof fn lemma_app_lines_ok(a: AppV)
    requires
        app_wf(a),
    ensures
        lines_ok(app_lines(a)),
{
    lemma_kw_facts();
    lemma_key_no_nl(a.name);
    lemma_key_no_nl(kw_home_name());
    lemma_key_no_nl(kw_bins());
    lemma_hdr_no_nl(a.name);
    lemma_kv_str_no_nl(kw_home_name(), a.home_name);
    lemma_kv_arr_no_nl(kw_bins(), a.bins);
    match a.versions {
        Some(vs) => {
            lemma_vers_lines_ok(a.name, vs);
            assert forall|k: int| 0 <= k < app_lines(a).len() implies no_nl(
                #[trigger] app_lines(a)[k],
            ) by {
                if k >= 3 {
                    assert(app_lines(a)[k] == vers_lines(a.name, vs)[k - 3]);
                }
            }
        },
        None => {
            assert forall|k: int| 0 <= k < app_lines(a).len() implies no_nl(
                #[trigger] app_lines(a)[k],
            ) by {}
        },
    }
}

proof fn lemma_hdr_no_nl(n: Seq<char>)
    requires
        valid_key(n),
    ensures
        no_nl(hdr_line(n)),
        no_nl(vhdr_line(n)),
{
    lemma_kw_facts();
    lemma_key_no_nl(n);
    lemma_key_no_nl(kw_apps());
    lemma_key_no_nl(kw_versions());
    lemma_no_nl_add(seq!['['], kw_apps());
    lemma_no_nl_add(seq!['['] + kw_apps(), seq!['.']);
    lemma_no_nl_add(seq!['['] + kw_apps() + seq!['.'], n);
    lemma_no_nl_add(seq!['['] + kw_apps() + seq!['.'] + n, seq![']']);
    assert(hdr_line(n) =~= seq!['['] + kw_apps() + seq!['.'] + n + seq![']']);
    lemma_no_nl_add(seq!['[', '['], kw_apps());
    lemma_no_nl_add(seq!['[', '['] + kw_apps(), seq!['.']);
    lemma_no_nl_add(seq!['[', '['] + kw_apps() + seq!['.'], n);
    lemma_no_nl_add(seq!['[', '['] + kw_apps() + seq!['.'] + n, seq!['.']);
    lemma_no_nl_add(seq!['[', '['] + kw_apps() + seq!['.'] + n + seq!['.'], kw_versions());
    lemma_no_nl_add(
        seq!['[', '['] + kw_apps() + seq!['.'] + n + seq!['.'] + kw_versions(),
        seq![']', ']'],
    );
    assert(vhdr_line(n) =~= seq!['[', '['] + kw_apps() + seq!['.'] + n + seq!['.'] + kw_versions()
        + seq![']', ']']);
}

proof fn lemma_kv_str_no_nl(k: Seq<char>, v: Seq<char>)
    requires
        no_nl(k),
    ensures
        no_nl(kv_line_str(k, v)),
{
    lemma_quoted_no_nl(v);
    lemma_no_nl_add(k, seq![' ', '=', ' ']);
    lemma_no_nl_add(k + seq![' ', '=', ' '], quoted(v));
    assert(kv_line_str(k, v) =~= (k + seq![' ', '=', ' ']) + quoted(v));
}

proof fn lemma_arr_items_no_nl(vs: Seq<Seq<char>>)
    ensures
        no_nl(arr_items(vs)),
    decreases vs.len(),
{
    if vs.len() == 0 {
    } else if vs.len() == 1 {
        lemma_quoted_no_nl(vs[0]);
    } else {
        lemma_quoted_no_nl(vs[0]);
        lemma_arr_items_no_nl(vs.drop_first());
        lemma_no_nl_add(quoted(vs[0]), seq![',', ' ']);
        lemma_no_nl_add(quoted(vs[0]) + seq![',', ' '], arr_items(vs.drop_first()));
        assert(arr_items(vs) =~= (quoted(vs[0]) + seq![',', ' ']) + arr_items(vs.drop_first()));
    }
}

proof fn lemma_kv_arr_no_nl(k: Seq<char>, vs: Seq<Seq<char>>)
    requires
        no_nl(k),
    ensures
        no_nl(kv_line_arr(k, vs)),
{
    lemma_arr_items_no_nl(vs);
    lemma_no_nl_add(k, seq![' ', '=', ' ', '[']);
    lemma_no_nl_add(k + seq![' ', '=', ' ', '['], arr_items(vs));
    lemma_no_nl_add(k + seq![' ', '=', ' ', '['] + arr_items(vs), seq![']']);
    assert(kv_line_arr(k, vs) =~= (k + seq![' ', '=', ' ', '['] + arr_items(vs)) + seq![']']);
}

proof fn lemma_vers_lines_ok(n: Seq<char>, vs: Seq<VerV>)
    requires
        valid_key(n),
    ensures
        lines_ok(vers_lines(n, vs)),
    decreases vs.len(),
{
    lemma_kw_facts();
    if vs.len() > 0 {
        lemma_hdr_no_nl(n);
        lemma_key_no_nl(kw_version());
        lemma_key_no_nl(kw_home_path());
        lemma_kv_str_no_nl(kw_version(), vs[0].version);
        lemma_kv_str_no_nl(kw_home_path(), vs[0].home_path);
        lemma_vers_lines_ok(n, vs.drop_first());
        assert forall|k: int| 0 <= k < vers_lines(n, vs).len() implies no_nl(
            #[trigger] vers_lines(n, vs)[k],
        ) by {
            if k >= 4 {
                assert(vers_lines(n, vs)[k] == vers_lines(n, vs.drop_first())[k - 4]);
            }
        }
    }
}

/// All rendered lines of a well-formed store are newline-free.
proof fn lemma_apps_lines_ok(apps: Seq<AppV>)
    requires
        forall|i: int| 0 <= i < apps.len() ==> app_wf(#[trigger] apps[i]),
    ensures
        lines_ok(apps_lines(apps)),
    decreases apps.len(),
{
    if apps.len() == 0 {
    } else if apps.len() == 1 {
        lemma_app_lines_ok(apps[0]);
    } else {
        lemma_app_lines_ok(apps[0]);
        assert forall|i: int| 0 <= i < apps.drop_first().len() implies app_wf(
            #[trigger] apps.drop_first()[i],
        ) by {
            assert(apps.drop_first()[i] == apps[i + 1]);
        }
        lemma_apps_lines_ok(apps.drop_first());
        let head = app_lines(apps[0]);
        let rest = apps_lines(apps.drop_first());
        assert forall|k: int| 0 <= k < apps_lines(apps).len() implies no_nl(
            #[trigger] apps_lines(apps)[k],
        ) by {
            if k < head.len() {
                assert(apps_lines(apps)[k] == head[k]);
            } else if k == head.len() {
                assert(apps_lines(apps)[k] == Seq::<char>::empty());
            } else {
                assert(apps_lines(apps)[k] == rest[k - head.len() - 1]);
            }
        }
    }
}

/// Splitting undoes joining, for newline-free lines.
proof fn lemma_split_unlines(ls: Seq<Seq<char>>)
    requires
        lines_ok(ls),
    ensures
        split_lines(unlines(ls)) == ls,
    decreases ls.len(),
{
    if ls.len() == 0 {
        assert(split_lines(unlines(ls)) =~= ls);
    } else {
        let t = unlines(ls);
        let head = ls[0];
        let rest = unlines(ls.drop_first());
        assert(t == head + seq!['\n'] + rest);
        assert forall|k: int| 0 <= k < head.len() implies t[k] != '\n' by {
            assert(t[k] == head[k]);
        }
        assert(t[head.len() as int] == '\n');
        crate::load::lemma_first_nl_at(t, head.len() as int);
        assert(first_nl(t) == head.len());
        assert(t.take(head.len() as int) =~= head);
        assert(t.skip(head.len() as int + 1) =~= rest);
        assert forall|k: int| 0 <= k < ls.drop_first().len() implies no_nl(
            #[trigger] ls.drop_first()[k],
        ) by {
            assert(ls.drop_first()[k] == ls[k + 1]);
        }
        lemma_split_unlines(ls.drop_first());
        assert(split_lines(t) == seq![head] + split_lines(rest));
        assert(seq![head] + ls.drop_first() =~= ls);
    }
}

proof fn lemma_scan_key_end(l: Seq<char>, i: int, e: int)
    requires
        0 <= i <= e <= l.len(),
        forall|j: int| i <= j < e ==> is_key_char(#[trigger] l[j]),
        e == l.len() || !is_key_char(l[e]),
    ensures
        scan_key(l, i) == e,
    decreases e - i,
{
    if i < e {
        lemma_scan_key_end(l, i + 1, e);
    }
}

proof fn lemma_skip_ws_end(l: Seq<char>, i: int, e: int)
    requires
        0 <= i <= e <= l.len(),
        forall|j: int| i <= j < e ==> is_ws(#[trigger] l[j]),
        e == l.len() || !is_ws(l[e]),
    ensures
        skip_ws(l, i) == e,
    decreases e - i,
{
    if i < e {
        lemma_skip_ws_end(l, i + 1, e);
    }
}

/// Parsing the escaped body of a rendered string recovers the value and
/// stops right after the closing quote.
proof fn lemma_parse_bstr_esc(l: Seq<char>, i: int, v: Seq<char>, rest: Seq<char>)
    requires
        0 <= i <= l.len(),
        l.skip(i) == esc_str(v) + seq!['"'] + rest,
    ensures
        parse_bstr(l, i) == Some((v, i + esc_str(v).len() + 1)),
    decreases v.len(),
{
    assert(l.skip(i).len() == l.len() - i);
    if v.len() == 0 {
        assert(l.skip(i)[0] == l[i]);
        assert(l[i] == '"');
        assert(v =~= Seq::<char>::empty());
    } else {
        let c = v[0];
        let v2 = v.drop_first();
        assert(esc_str(v) == esc_char(c) + esc_str(v2));
        let d = esc_char(c).len() as int;
        assert(l.skip(i)[0] == l[i]);
        assert(l[i] == esc_char(c)[0]);
        assert(l.skip(i + d) =~= l.skip(i).skip(d));
        assert(l.skip(i).skip(d) =~= esc_str(v2) + seq!['"'] + rest) by {
            assert(l.skip(i) =~= esc_char(c) + (esc_str(v2) + seq!['"'] + rest));
        }
        lemma_parse_bstr_esc(l, i + d, v2, rest);
        assert(seq![c] + v2 =~= v);
        if c == '"' || c == '\\' || c == '\n' {
            assert(d == 2);
            assert(l.skip(i)[1] == l[i + 1]);
            assert(l[i + 1] == esc_char(c)[1]);
            assert(l[i] == '\\');
            assert(crate::parse::is_escape(l[i + 1]));
            assert(crate::parse::unesc(l[i + 1]) == c);
            assert(parse_bstr(l, i) == Some((seq![c] + v2, i + d + esc_str(v2).len() + 1)));
        } else {
            assert(d == 1);
            assert(l[i] == c);
            assert(l[i] != '"' && l[i] != '\\');
            assert(parse_bstr(l, i) == Some((seq![c] + v2, i + d + esc_str(v2).len() + 1)));
        }
    }
}

/// Parsing a rendered quoted string recovers the value.
proof fn lemma_parse_quoted(l: Seq<char>, i: int, v: Seq<char>, rest: Seq<char>)
    requires
        0 <= i <= l.len(),
        l.skip(i) == quoted(v) + rest,
    ensures
        parse_str_at(l, i) == Some((v, i + quoted(v).len())),
{
    assert(l.skip(i).len() == l.len() - i);
    assert(l.skip(i)[0] == l[i]);
    assert(l[i] == '"');
    assert(l.skip(i + 1) =~= l.skip(i).skip(1));
    assert(l.skip(i).skip(1) =~= esc_str(v) + seq!['"'] + rest) by {
        assert(l.skip(i) =~= seq!['"'] + (esc_str(v) + seq!['"'] + rest));
    }
    lemma_parse_bstr_esc(l, i + 1, v, rest);
}

/// The items of a rendered non-empty array parse back to the values.
proof fn lemma_parse_arr(l: Seq<char>, i: int, vs: Seq<Seq<char>>, rest: Seq<char>)
    requires
        0 <= i <= l.len(),
        vs.len() > 0,
        l.skip(i) == arr_items(vs) + seq![']'] + rest,
    ensures
        parse_arr_items(l, i) == Some((vs, i + arr_items(vs).len() + 1)),
    decreases vs.len(),
{
    assert(l.skip(i).len() == l.len() - i);
    if vs.len() == 1 {
        assert(arr_items(vs) == quoted(vs[0]));
        assert(l.skip(i) =~= quoted(vs[0]) + (seq![']'] + rest));
        lemma_parse_quoted(l, i, vs[0], seq![']'] + rest);
        let j = i + quoted(vs[0]).len();
        assert(l.skip(i)[j - i] == l[j]);
        assert((arr_items(vs) + seq![']'] + rest)[j - i] == ']');
        assert(l[j] == ']');
        assert(!is_ws(']'));
        lemma_skip_ws_end(l, j, j);
        assert(l[j] != ',');
        assert(seq![vs[0]] =~= vs);
    } else {
        let q = quoted(vs[0]);
        let tail = arr_items(vs.drop_first());
        assert(arr_items(vs) == q + seq![',', ' '] + tail);
        assert(l.skip(i) =~= q + (seq![',', ' '] + tail + seq![']'] + rest));
        lemma_parse_quoted(l, i, vs[0], seq![',', ' '] + tail + seq![']'] + rest);
        let j = i + q.len();
        assert(l.skip(i)[j - i] == l[j]);
        assert((arr_items(vs) + seq![']'] + rest)[j - i] == ',');
        assert(l[j] == ',');
        assert(!is_ws(','));
        lemma_skip_ws_end(l, j, j);
        assert(l.skip(i)[j + 1 - i] == l[j + 1]);
        assert((arr_items(vs) + seq![']'] + rest)[j + 1 - i] == ' ');
        assert(l[j + 1] == ' ');
        assert(tail[0] == '"') by {
            assert(tail == quoted(vs.drop_first()[0]) + seq![',', ' '] + arr_items(
                vs.drop_first().drop_first(),
            ) || tail == quoted(vs.drop_first()[0]));
            assert(quoted(vs.drop_first()[0])[0] == '"');
        }
        assert(l.skip(i)[j + 2 - i] == l[j + 2]);
        assert((arr_items(vs) + seq![']'] + rest)[j + 2 - i] == tail[0]);
        assert(l[j + 2] == '"');
        assert(!is_ws('"'));
        assert(is_ws(l[j + 1]));
        lemma_skip_ws_end(l, j + 1, j + 2);
        assert(l.skip(j + 2) =~= l.skip(i).skip(j + 2 - i));
        assert(l.skip(i).skip(j + 2 - i) =~= tail + seq![']'] + rest) by {
            assert(l.skip(i) =~= (q + seq![',', ' ']) + (tail + seq![']'] + rest));
        }
        assert forall|k: int| 0 <= k < vs.drop_first().len() implies vs.drop_first()[k] == vs[k
            + 1] by {}
        lemma_parse_arr(l, j + 2, vs.drop_first(), rest);
        assert(seq![vs[0]] + vs.drop_first() =~= vs);
    }
}

/// A rendered two-segment path parses back to its segments.
proof fn lemma_parse_path_2(l: Seq<char>, i: int, a: Seq<char>, b: Seq<char>, rest: Seq<char>)
    requires
        0 <= i <= l.len(),
        valid_key(a),
        valid_key(b),
        rest.len() > 0,
        !is_key_char(rest[0]),
        rest[0] != '.',
        l.skip(i) == a + seq!['.'] + b + rest,
    ensures
        parse_path(l, i) == Some((seq![a, b], i + a.len() + 1 + b.len())),
{
    assert(l.skip(i).len() == l.len() - i);
    let sfx = a + seq!['.'] + b + rest;
    assert forall|j: int| i <= j < i + a.len() implies is_key_char(#[trigger] l[j]) by {
        assert(l[j] == l.skip(i)[j - i]);
        assert(sfx[j - i] == a[j - i]);
    }
    let ja = i + a.len();
    assert(l[ja] == l.skip(i)[a.len() as int]);
    assert(sfx[a.len() as int] == '.');
    assert(!is_key_char('.'));
    lemma_scan_key_end(l, i, ja);
    assert(l.subrange(i, ja) =~= a) by {
        assert(forall|t: int| 0 <= t < a.len() ==> l.subrange(i, ja)[t] == l[i + t]
            && l[i + t] == l.skip(i)[t] && sfx[t] == a[t]);
    }
    // second segment
    assert forall|j: int| ja + 1 <= j < ja + 1 + b.len() implies is_key_char(
        #[trigger] l[j],
    ) by {
        assert(l[j] == l.skip(i)[j - i]);
        assert(sfx[j - i] == b[j - i - a.len() - 1]);
    }
    let jb = ja + 1 + b.len();
    assert(jb <= l.len());
    if jb < l.len() {
        assert(l[jb] == l.skip(i)[jb - i]);
        assert(sfx[jb - i] == rest[0]);
        assert(!is_key_char(l[jb]));
    }
    lemma_scan_key_end(l, ja + 1, jb);
    assert(l.subrange(ja + 1, jb) =~= b) by {
        assert(forall|t: int| 0 <= t < b.len() ==> l.subrange(ja + 1, jb)[t] == l[ja + 1 + t]
            && l[ja + 1 + t] == l.skip(i)[a.len() + 1 + t] && sfx[a.len() + 1 + t] == b[t]);
    }
    assert(jb < l.len() ==> l[jb] != '.');
    assert(parse_path(l, ja + 1) == Some((seq![b], jb)));
    assert(seq![a] + seq![b] =~= seq![a, b]);
}

/// A rendered three-segment path parses back to its segments.
proof fn lemma_parse_path_3(
    l: Seq<char>,
    i: int,
    a: Seq<char>,
    b: Seq<char>,
    c: Seq<char>,
    rest: Seq<char>,
)
    requires
        0 <= i <= l.len(),
        valid_key(a),
        valid_key(b),
        valid_key(c),
        rest.len() > 0,
        !is_key_char(rest[0]),
        rest[0] != '.',
        l.skip(i) == a + seq!['.'] + b + seq!['.'] + c + rest,
    ensures
        parse_path(l, i) == Some((seq![a, b, c], i + a.len() + 1 + b.len() + 1 + c.len())),
{
    assert(l.skip(i).len() == l.len() - i);
    let sfx = a + seq!['.'] + b + seq!['.'] + c + rest;
    assert forall|j: int| i <= j < i + a.len() implies is_key_char(#[trigger] l[j]) by {
        assert(l[j] == l.skip(i)[j - i]);
        assert(sfx[j - i] == a[j - i]);
    }
    let ja = i + a.len();
    assert(l[ja] == l.skip(i)[a.len() as int]);
    assert(sfx[a.len() as int] == '.');
    assert(!is_key_char('.'));
    lemma_scan_key_end(l, i, ja);
    assert(l.subrange(i, ja) =~= a) by {
        assert(forall|t: int| 0 <= t < a.len() ==> l.subrange(i, ja)[t] == l[i + t]
            && l[i + t] == l.skip(i)[t] && sfx[t] == a[t]);
    }
    assert(l.skip(ja + 1) =~= l.skip(i).skip(a.len() as int + 1));
    assert(l.skip(i).skip(a.len() as int + 1) =~= b + seq!['.'] + c + rest) by {
        assert(l.skip(i) =~= (a + seq!['.']) + (b + seq!['.'] + c + rest));
    }
    lemma_parse_path_2(l, ja + 1, b, c, rest);
    assert(seq![a] + seq![b, c] =~= seq![a, b, c]);
}

/// Key characters are not punctuation or whitespace.
proof fn lemma_key_char_facts(c: char)
    requires
        is_key_char(c),
    ensures
        c != '[',
        c != ']',
        c != '.',
        c != '"',
        c != ',',
        c != '=',
        c != '\'',
        !is_ws(c),
{
}

/// A blank line classifies as blank.
proof fn lemma_classify_blank()
    ensures
        classify(Seq::<char>::empty()) == LineV::Blank,
{
}

/// A rendered application header classifies back to its path.
proof fn lemma_classify_hdr(n: Seq<char>)
    requires
        valid_key(n),
    ensures
        classify(hdr_line(n)) == LineV::Header(seq![kw_apps(), n]),
{
    lemma_kw_facts();
    let l = hdr_line(n);
    assert(l.len() == 7 + n.len());
    assert(l[0] == '[');
    assert(!is_ws('['));
    assert(!all_ws(l));
    assert(l[1] == kw_apps()[0]);
    assert(kw_apps()[0] == 'a');
    assert(l[1] != '[');
    assert(l.skip(1) =~= kw_apps() + seq!['.'] + n + seq![']']);
    assert(!is_key_char(']') && ']' != '.') by {
        lemma_key_char_facts('a');
    }
    assert((seq![']'])[0] == ']');
    lemma_parse_path_2(l, 1, kw_apps(), n, seq![']']);
    let j = 1 + kw_apps().len() as int + 1 + n.len() as int;
    assert(parse_path(l, 1) == Some((seq![kw_apps(), n], j)));
    assert(j < l.len());
    assert(l[j] == ']');
    lemma_skip_ws_end(l, j + 1, l.len() as int);
}

/// A rendered version sub-section header classifies back to its path.
proof fn lemma_classify_vhdr(n: Seq<char>)
    requires
        valid_key(n),
    ensures
        classify(vhdr_line(n)) == LineV::ArrHeader(seq![kw_apps(), n, kw_versions()]),
{
    lemma_kw_facts();
    let l = vhdr_line(n);
    assert(l.len() == 18 + n.len());
    assert(l[0] == '[');
    assert(l[1] == '[');
    assert(!is_ws('['));
    assert(!all_ws(l));
    assert(l.skip(2) =~= kw_apps() + seq!['.'] + n + seq!['.'] + kw_versions() + seq![']', ']']);
    assert(!is_key_char(']') && ']' != '.');
    assert((seq![']', ']'])[0] == ']');
    lemma_parse_path_3(l, 2, kw_apps(), n, kw_versions(), seq![']', ']']);
    let j = 2 + kw_apps().len() as int + 1 + n.len() as int + 1 + kw_versions().len() as int;
    assert(parse_path(l, 2) == Some((seq![kw_apps(), n, kw_versions()], j)));
    assert(j + 1 < l.len());
    assert(l[j] == ']');
    assert(l[j + 1] == ']');
    lemma_skip_ws_end(l, j + 2, l.len() as int);
}

/// A rendered string-valued key-value line classifies back to key and value.
proof fn lemma_classify_kv_str(k: Seq<char>, v: Seq<char>)
    requires
        valid_key(k),
    ensures
        classify(kv_line_str(k, v)) == LineV::Kv(k, ValV::VStr(v)),
{
    let l = kv_line_str(k, v);
    let kl = k.len() as int;
    assert(l.len() == kl + 3 + quoted(v).len());
    assert(l[0] == k[0]);
    lemma_key_char_facts(k[0]);
    assert(!all_ws(l));
    assert(l[0] != '[');
    assert forall|j: int| 0 <= j < kl implies is_key_char(#[trigger] l[j]) by {
        assert(l[j] == k[j]);
    }
    assert(l[kl] == ' ');
    assert(!is_key_char(' '));
    lemma_scan_key_end(l, 0, kl);
    assert(l.take(kl) =~= k);
    assert(l[kl + 1] == '=');
    assert(!is_ws('='));
    lemma_skip_ws_end(l, kl, kl + 1);
    assert(l[kl + 2] == ' ');
    assert(l[kl + 3] == quoted(v)[0]);
    assert(quoted(v)[0] == '"');
    assert(!is_ws('"'));
    lemma_skip_ws_end(l, kl + 2, kl + 3);
    assert(l[kl + 3] != '[');
    assert(l.skip(kl + 3) =~= quoted(v) + Seq::<char>::empty());
    lemma_parse_quoted(l, kl + 3, v, Seq::<char>::empty());
    assert(parse_str_at(l, kl + 3) == Some((v, l.len() as int)));
    assert(parse_val(l, kl + 3) == Some((ValV::VStr(v), l.len() as int)));
    lemma_skip_ws_end(l, l.len() as int, l.len() as int);
}

/// A rendered array-valued key-value line classifies back to key and items.
proof fn lemma_classify_kv_arr(k: Seq<char>, vs: Seq<Seq<char>>)
    requires
        valid_key(k),
    ensures
        classify(kv_line_arr(k, vs)) == LineV::Kv(k, ValV::VArr(vs)),
{
    let l = kv_line_arr(k, vs);
    let kl = k.len() as int;
    assert(l.len() == kl + 4 + arr_items(vs).len() + 1);
    assert(l[0] == k[0]);
    lemma_key_char_facts(k[0]);
    assert(!all_ws(l));
    assert(l[0] != '[');
    assert forall|j: int| 0 <= j < kl implies is_key_char(#[trigger] l[j]) by {
        assert(l[j] == k[j]);
    }
    assert(l[kl] == ' ');
    assert(!is_key_char(' '));
    lemma_scan_key_end(l, 0, kl);
    assert(l.take(kl) =~= k);
    assert(l[kl + 1] == '=');
    assert(!is_ws('='));
    lemma_skip_ws_end(l, kl, kl + 1);
    assert(l[kl + 2] == ' ');
    assert(l[kl + 3] == '[');
    assert(!is_ws('['));
    lemma_skip_ws_end(l, kl + 2, kl + 3);
    if vs.len() == 0 {
        assert(arr_items(vs).len() == 0);
        assert(l[kl + 4] == ']');
        assert(!is_ws(']'));
        lemma_skip_ws_end(l, kl + 4, kl + 4);
        assert(parse_val(l, kl + 3) == Some((ValV::VArr(Seq::empty()), kl + 5)));
        assert(kl + 5 == l.len());
        lemma_skip_ws_end(l, l.len() as int, l.len() as int);
        assert(vs =~= Seq::<Seq<char>>::empty());
    } else {
        assert(arr_items(vs)[0] == '"') by {
            if vs.len() == 1 {
                assert(arr_items(vs) == quoted(vs[0]));
            }
            assert(quoted(vs[0])[0] == '"');
        }
        assert(l[kl + 4] == arr_items(vs)[0]);
        assert(l[kl + 4] == '"');
        assert(!is_ws('"'));
        lemma_skip_ws_end(l, kl + 4, kl + 4);
        assert(l[kl + 4] != ']');
        assert(l.skip(kl + 4) =~= arr_items(vs) + seq![']'] + Seq::<char>::empty());
        lemma_parse_arr(l, kl + 4, vs, Seq::<char>::empty());
        assert(parse_arr_items(l, kl + 4) == Some((vs, l.len() as int)));
        assert(parse_val(l, kl + 3) == Some((ValV::VArr(vs), l.len() as int)));
        lemma_skip_ws_end(l, l.len() as int, l.len() as int);
    }
}

/// Folding over concatenated line sequences composes.
proof fn lemma_run_lines_add(st: ParseSt, a: Seq<Seq<char>>, b: Seq<Seq<char>>)
    ensures
        run_lines(st, a + b) == (match run_lines(st, a) {
            Ok(st2) => run_lines(st2, b),
            Err(e) => Err(e),
        }),
    decreases a.len(),
{
    if a.len() == 0 {
        assert(a + b =~~= b);
    } else {
        assert((a + b)[0] == a[0]);
        assert((a + b).drop_first() =~~= a.drop_first() + b);
        match crate::parse::step(st, a[0]) {
            Ok(st2) => {
                lemma_run_lines_add(st2, a.drop_first(), b);
            },
            Err(e) => {},
        }
    }
}

/// The state in which an application section stands open with everything of
/// the application already recorded.
spec fn open_mode(a: AppV) -> PMode {
    match a.versions {
        None => PMode::InApp {
            name: a.name,
            home_name: Some(a.home_name),
            bins: Some(a.bins),
        },
        Some(vs) => PMode::InVer {
            name: a.name,
            home_name: a.home_name,
            bins: a.bins,
            done: vs.drop_last(),
            version: Some(vs.last().version),
            home_path: Some(vs.last().home_path),
        },
    }
}

/// Closing the open state of a well-formed application yields it whole.
proof fn lemma_close_open(a: AppV)
    requires
        app_wf(a),
    ensures
        close_mode(open_mode(a)) == Ok::<Option<AppV>, Seq<char>>(Some(a)),
{
    match a.versions {
        Some(vs) => {
            assert(vs.len() > 0);
            assert(VerV { version: vs.last().version, home_path: vs.last().home_path }
                == vs.last());
            assert(vs.drop_last().push(vs.last()) =~= vs);
        },
        None => {},
    }
}

/// The fold's state after the first `k` version sub-sections of an
/// application whose versions are `vs`.
spec fn mode_k(a: AppV, vs: Seq<VerV>, k: int) -> PMode {
    if k == 0 {
        PMode::InApp { name: a.name, home_name: Some(a.home_name), bins: Some(a.bins) }
    } else {
        PMode::InVer {
            name: a.name,
            home_name: a.home_name,
            bins: a.bins,
            done: vs.take(k - 1),
            version: Some(vs[k - 1].version),
            home_path: Some(vs[k - 1].home_path),
        }
    }
}

/// One rendered version sub-section advances the state by one version.
proof fn lemma_run_one_ver(acc: Seq<AppV>, a: AppV, vs: Seq<VerV>, k: int)
    requires
        valid_key(a.name),
        0 <= k < vs.len(),
    ensures
        run_lines(ParseSt { acc, mode: mode_k(a, vs, k) }, ver_lines(a.name, vs[k]))
            == Ok::<ParseSt, crate::errors::ParseErrV>(ParseSt { acc, mode: mode_k(a, vs, k + 1) }),
{
    lemma_kw_facts();
    let ls = ver_lines(a.name, vs[k]);
    let st0 = ParseSt { acc, mode: mode_k(a, vs, k) };
    // blank line
    assert(ls[0] == Seq::<char>::empty());
    lemma_classify_blank();
    assert(crate::parse::step(st0, ls[0]) == Ok::<ParseSt, crate::errors::ParseErrV>(st0));
    // version sub-section header
    assert(ls.drop_first()[0] == vhdr_line(a.name));
    lemma_classify_vhdr(a.name);
    let segs = seq![kw_apps(), a.name, kw_versions()];
    assert(segs.len() == 3 && segs[0] == kw_apps() && segs[1] == a.name && segs[2]
        == kw_versions());
    let st1 = ParseSt {
        acc,
        mode: PMode::InVer {
            name: a.name,
            home_name: a.home_name,
            bins: a.bins,
            done: vs.take(k),
            version: None,
            home_path: None,
        },
    };
    assert(crate::parse::step(st0, vhdr_line(a.name)) == Ok::<ParseSt, crate::errors::ParseErrV>(
        st1,
    )) by {
        if k == 0 {
            assert(vs.take(0) =~= Seq::<VerV>::empty());
        } else {
            assert(vs.take(k - 1).push(VerV { version: vs[k - 1].version, home_path: vs[k - 1].home_path })
                =~= vs.take(k)) by {
                assert(VerV { version: vs[k - 1].version, home_path: vs[k - 1].home_path }
                    == vs[k - 1]);
            }
        }
    }
    // version line
    assert(ls.drop_first().drop_first()[0] == kv_line_str(kw_version(), vs[k].version));
    lemma_classify_kv_str(kw_version(), vs[k].version);
    let st2 = ParseSt {
        acc,
        mode: PMode::InVer {
            name: a.name,
            home_name: a.home_name,
            bins: a.bins,
            done: vs.take(k),
            version: Some(vs[k].version),
            home_path: None,
        },
    };
    assert(crate::parse::step(st1, kv_line_str(kw_version(), vs[k].version))
        == Ok::<ParseSt, crate::errors::ParseErrV>(st2));
    // home_path line
    assert(ls.drop_first().drop_first().drop_first()[0] == kv_line_str(
        kw_home_path(),
        vs[k].home_path,
    ));
    lemma_classify_kv_str(kw_home_path(), vs[k].home_path);
    let st3 = ParseSt { acc, mode: mode_k(a, vs, k + 1) };
    assert(crate::parse::step(st2, kv_line_str(kw_home_path(), vs[k].home_path))
        == Ok::<ParseSt, crate::errors::ParseErrV>(st3));
    assert(ls.drop_first().drop_first().drop_first().drop_first()
        =~~= Seq::<Seq<char>>::empty());
    assert(run_lines(st3, ls.drop_first().drop_first().drop_first().drop_first())
        == Ok::<ParseSt, crate::errors::ParseErrV>(st3));
    assert(run_lines(st2, ls.drop_first().drop_first().drop_first())
        == Ok::<ParseSt, crate::errors::ParseErrV>(st3));
    assert(run_lines(st1, ls.drop_first().drop_first())
        == Ok::<ParseSt, crate::errors::ParseErrV>(st3));
    assert(run_lines(st0, ls.drop_first()) == Ok::<ParseSt, crate::errors::ParseErrV>(st3));
    assert(run_lines(st0, ls) == Ok::<ParseSt, crate::errors::ParseErrV>(st3));
}

/// The remaining version sub-sections advance the state to the end.
proof fn lemma_run_vers_from(acc: Seq<AppV>, a: AppV, vs: Seq<VerV>, k: int)
    requires
        valid_key(a.name),
        0 <= k <= vs.len(),
    ensures
        run_lines(ParseSt { acc, mode: mode_k(a, vs, k) }, vers_lines(a.name, vs.skip(k)))
            == Ok::<ParseSt, crate::errors::ParseErrV>(
            ParseSt { acc, mode: mode_k(a, vs, vs.len() as int) },
        ),
    decreases vs.len() - k,
{
    if k == vs.len() {
        assert(vs.skip(k) =~= Seq::<VerV>::empty());
        assert(vers_lines(a.name, Seq::<VerV>::empty()) == Seq::<Seq<char>>::empty());
    } else {
        assert(vs.skip(k)[0] == vs[k]);
        assert(vs.skip(k).drop_first() =~= vs.skip(k + 1));
        assert(vers_lines(a.name, vs.skip(k)) == ver_lines(a.name, vs[k]) + vers_lines(
            a.name,
            vs.skip(k + 1),
        ));
        lemma_run_one_ver(acc, a, vs, k);
        lemma_run_lines_add(
            ParseSt { acc, mode: mode_k(a, vs, k) },
            ver_lines(a.name, vs[k]),
            vers_lines(a.name, vs.skip(k + 1)),
        );
        lemma_run_vers_from(acc, a, vs, k + 1);
    }
}

/// After its header, an application's remaining lines fill its open state.
proof fn lemma_run_app_block(acc: Seq<AppV>, a: AppV)
    requires
        app_wf(a),
    ensures
        run_lines(
            ParseSt {
                acc,
                mode: PMode::InApp { name: a.name, home_name: None, bins: None },
            },
            app_lines(a).drop_first(),
        ) == Ok::<ParseSt, crate::errors::ParseErrV>(ParseSt { acc, mode: open_mode(a) }),
{
    lemma_kw_facts();
    let ls = app_lines(a).drop_first();
    let st0 = ParseSt { acc, mode: PMode::InApp { name: a.name, home_name: None, bins: None } };
    assert(ls[0] == kv_line_str(kw_home_name(), a.home_name));
    lemma_classify_kv_str(kw_home_name(), a.home_name);
    let st1 = ParseSt {
        acc,
        mode: PMode::InApp { name: a.name, home_name: Some(a.home_name), bins: None },
    };
    assert(crate::parse::step(st0, ls[0]) == Ok::<ParseSt, crate::errors::ParseErrV>(st1));
    assert(ls.drop_first()[0] == kv_line_arr(kw_bins(), a.bins));
    lemma_classify_kv_arr(kw_bins(), a.bins);
    let st2 = ParseSt {
        acc,
        mode: PMode::InApp { name: a.name, home_name: Some(a.home_name), bins: Some(a.bins) },
    };
    assert(crate::parse::step(st1, kv_line_arr(kw_bins(), a.bins))
        == Ok::<ParseSt, crate::errors::ParseErrV>(st2));
    let tail = ls.drop_first().drop_first();
    let fin = ParseSt { acc, mode: open_mode(a) };
    match a.versions {
        None => {
            assert(tail =~~= Seq::<Seq<char>>::empty());
            assert(open_mode(a) == st2.mode);
            assert(run_lines(st2, tail) == Ok::<ParseSt, crate::errors::ParseErrV>(fin));
        },
        Some(vs) => {
            assert(tail =~~= vers_lines(a.name, vs));
            assert(vs.skip(0) =~= vs);
            assert(mode_k(a, vs, 0) == st2.mode);
            lemma_run_vers_from(acc, a, vs, 0);
            assert(vs.len() > 0);
            assert(mode_k(a, vs, vs.len() as int) == open_mode(a)) by {
                assert(vs.take(vs.len() - 1) =~= vs.drop_last());
                assert(vs[vs.len() - 1] == vs.last());
            }
            assert(run_lines(st2, tail) == Ok::<ParseSt, crate::errors::ParseErrV>(fin));
        },
    }
    assert(run_lines(st1, ls.drop_first()) == Ok::<ParseSt, crate::errors::ParseErrV>(fin));
    assert(run_lines(st0, ls) == Ok::<ParseSt, crate::errors::ParseErrV>(fin));
}

/// Inserting an entry greater than everything present appends it.
proof fn lemma_insert_at_end(acc: Seq<AppV>, a: AppV)
    requires
        forall|i: int| 0 <= i < acc.len() ==> lex_lt((#[trigger] acc[i]).name, a.name),
    ensures
        insert_app(acc, a) == acc.push(a),
    decreases acc.len(),
{
    if acc.len() == 0 {
        assert(insert_app(acc, a) =~= acc.push(a));
    } else {
        crate::text::lemma_lex_trichotomy(acc[0].name, a.name);
        assert forall|i: int| 0 <= i < acc.drop_first().len() implies lex_lt(
            (#[trigger] acc.drop_first()[i]).name,
            a.name,
        ) by {
            assert(acc.drop_first()[i] == acc[i + 1]);
        }
        lemma_insert_at_end(acc.drop_first(), a);
        assert(seq![acc[0]] + acc.drop_first().push(a) =~= acc.push(a));
    }
}

/// The lines after the first application's section: for each further
/// application, a separating blank line and its section.
spec fn rest_lines(rest: Seq<AppV>) -> Seq<Seq<char>> {
    if rest.len() == 0 {
        Seq::empty()
    } else {
        seq![Seq::<char>::empty()] + apps_lines(rest)
    }
}

/// The whole document's lines split into the first section and the rest.
proof fn lemma_apps_lines_split(apps: Seq<AppV>)
    requires
        apps.len() > 0,
    ensures
        apps_lines(apps) == app_lines(apps[0]) + rest_lines(apps.drop_first()),
{
    if apps.len() == 1 {
        assert(apps_lines(apps) =~~= app_lines(apps[0]) + rest_lines(apps.drop_first()));
    } else {
        assert(apps_lines(apps) =~~= app_lines(apps[0]) + rest_lines(apps.drop_first()));
    }
}

/// From one open application onwards, the remaining sections close each
/// application in turn and leave the last one open.
proof fn lemma_run_apps(acc: Seq<AppV>, prev: AppV, rest: Seq<AppV>)
    requires
        store_wf(acc + seq![prev] + rest),
        app_wf(prev),
        forall|i: int| 0 <= i < rest.len() ==> app_wf(#[trigger] rest[i]),
    ensures
        run_lines(ParseSt { acc, mode: open_mode(prev) }, rest_lines(rest))
            == Ok::<ParseSt, crate::errors::ParseErrV>(
            ParseSt {
                acc: acc + (seq![prev] + rest).drop_last(),
                mode: open_mode((seq![prev] + rest).last()),
            },
        ),
    decreases rest.len(),
{
    let whole = acc + seq![prev] + rest;
    if rest.len() == 0 {
        assert((seq![prev] + rest).drop_last() =~= Seq::<AppV>::empty());
        assert((seq![prev] + rest).last() == prev);
        assert(acc + Seq::<AppV>::empty() =~= acc);
        assert(run_lines(ParseSt { acc, mode: open_mode(prev) }, Seq::<Seq<char>>::empty())
            == Ok::<ParseSt, crate::errors::ParseErrV>(ParseSt { acc, mode: open_mode(prev) }));
    } else {
        lemma_kw_facts();
        let r0 = rest[0];
        let st0 = ParseSt { acc, mode: open_mode(prev) };
        // the separating blank line
        lemma_classify_blank();
        assert(rest_lines(rest)[0] == Seq::<char>::empty());
        assert(crate::parse::step(st0, Seq::<char>::empty())
            == Ok::<ParseSt, crate::errors::ParseErrV>(st0));
        // the next application's header closes `prev` and opens `r0`
        lemma_apps_lines_split(rest);
        assert(rest_lines(rest).drop_first() =~~= apps_lines(rest));
        assert(apps_lines(rest)[0] == app_lines(r0)[0]);
        assert(app_lines(r0)[0] == hdr_line(r0.name));
        lemma_classify_hdr(r0.name);
        let segs = seq![kw_apps(), r0.name];
        assert(segs.len() == 2 && segs[0] == kw_apps() && segs[1] == r0.name);
        lemma_close_open(prev);
        // prev appends at the end of acc
        assert forall|i: int| 0 <= i < acc.len() implies lex_lt(
            (#[trigger] acc[i]).name,
            prev.name,
        ) by {
            assert(whole[i] == acc[i]);
            assert(whole[acc.len() as int] == prev);
        }
        lemma_insert_at_end(acc, prev);
        let acc2 = acc.push(prev);
        // r0's name is new
        assert forall|i: int| 0 <= i < acc2.len() implies lex_lt(
            (#[trigger] acc2[i]).name,
            r0.name,
        ) by {
            assert(whole[acc.len() as int + 1] == r0);
            if i < acc.len() {
                assert(acc2[i] == whole[i]);
            } else {
                assert(acc2[i] == whole[acc.len() as int]);
            }
        }
        assert(!has_app(acc2, r0.name)) by {
            assert forall|i: int| 0 <= i < acc2.len() implies (#[trigger] acc2[i]).name
                != r0.name by {
                crate::text::lemma_lex_trichotomy(acc2[i].name, r0.name);
            }
        }
        let st1 = ParseSt {
            acc: acc2,
            mode: PMode::InApp { name: r0.name, home_name: None, bins: None },
        };
        assert(crate::parse::step(st0, hdr_line(r0.name))
            == Ok::<ParseSt, crate::errors::ParseErrV>(st1));
        // the rest of r0's section fills its open state
        lemma_run_app_block(acc2, r0);
        let st2 = ParseSt { acc: acc2, mode: open_mode(r0) };
        // induction over the remaining applications
        assert(acc2 + seq![r0] + rest.drop_first() =~= whole);
        assert forall|i: int| 0 <= i < rest.drop_first().len() implies app_wf(
            #[trigger] rest.drop_first()[i],
        ) by {
            assert(rest.drop_first()[i] == rest[i + 1]);
        }
        assert(app_wf(r0));
        lemma_run_apps(acc2, r0, rest.drop_first());
        // chain the pieces
        assert(apps_lines(rest) =~~= seq![hdr_line(r0.name)] + app_lines(r0).drop_first()
            + rest_lines(rest.drop_first())) by {
            assert(app_lines(r0)[0] == hdr_line(r0.name));
            assert(seq![hdr_line(r0.name)] + app_lines(r0).drop_first() =~~= app_lines(r0));
        }
        let fin = ParseSt {
            acc: acc2 + (seq![r0] + rest.drop_first()).drop_last(),
            mode: open_mode((seq![r0] + rest.drop_first()).last()),
        };
        lemma_run_lines_add(
            st1,
            app_lines(r0).drop_first(),
            rest_lines(rest.drop_first()),
        );
        assert(run_lines(st1, app_lines(r0).drop_first() + rest_lines(rest.drop_first()))
            == Ok::<ParseSt, crate::errors::ParseErrV>(fin));
        lemma_run_lines_add(
            st0,
            seq![hdr_line(r0.name)],
            app_lines(r0).drop_first() + rest_lines(rest.drop_first()),
        );
        assert(run_lines(st0, seq![hdr_line(r0.name)]) == Ok::<ParseSt, crate::errors::ParseErrV>(
            st1,
        )) by {
            assert(seq![hdr_line(r0.name)][0] == hdr_line(r0.name));
            assert(seq![hdr_line(r0.name)].drop_first() =~~= Seq::<Seq<char>>::empty());
            assert(run_lines(st1, Seq::<Seq<char>>::empty())
                == Ok::<ParseSt, crate::errors::ParseErrV>(st1));
        }
        assert(seq![hdr_line(r0.name)] + (app_lines(r0).drop_first() + rest_lines(
            rest.drop_first(),
        )) =~~= apps_lines(rest));
        assert(run_lines(st0, apps_lines(rest)) == Ok::<ParseSt, crate::errors::ParseErrV>(fin));
        assert(run_lines(st0, rest_lines(rest)) == Ok::<ParseSt, crate::errors::ParseErrV>(
            fin,
        )) by {
            assert(rest_lines(rest)[0] == Seq::<char>::empty());
            assert(rest_lines(rest).drop_first() =~~= apps_lines(rest));
        }
        // the final state is the one claimed
        assert(acc2 + (seq![r0] + rest.drop_first()).drop_last() =~= acc + (seq![prev]
            + rest).drop_last());
        assert((seq![r0] + rest.drop_first()).last() == (seq![prev] + rest).last()) by {
            assert((seq![r0] + rest.drop_first()).last() == rest.last());
            assert((seq![prev] + rest).last() == rest.last());
        }
    }
}

/// The round-trip law: the canonical text of a well-formed store parses
/// back to exactly that store.
pub proof fn law_render_then_parse(apps: Seq<AppV>)
    requires
        store_wf(apps),
    ensures
        spec_parse(spec_render(apps)) == Ok::<Seq<AppV>, crate::errors::ParseErrV>(apps),
{
    let init = ParseSt { acc: Seq::<AppV>::empty(), mode: PMode::Top };
    if apps.len() == 0 {
        assert(apps_lines(apps) == Seq::<Seq<char>>::empty());
        assert(spec_render(apps) == Seq::<char>::empty());
        assert(split_lines(Seq::<char>::empty()) == Seq::<Seq<char>>::empty());
        assert(run_lines(init, Seq::<Seq<char>>::empty())
            == Ok::<ParseSt, crate::errors::ParseErrV>(init));
        assert(apps =~= Seq::<AppV>::empty());
    } else {
        lemma_kw_facts();
        lemma_apps_lines_ok(apps);
        lemma_split_unlines(apps_lines(apps));
        assert(split_lines(spec_render(apps)) == apps_lines(apps));
        let a0 = apps[0];
        lemma_apps_lines_split(apps);
        lemma_classify_hdr(a0.name);
        let segs = seq![kw_apps(), a0.name];
        assert(segs.len() == 2 && segs[0] == kw_apps() && segs[1] == a0.name);
        assert(!has_app(Seq::<AppV>::empty(), a0.name));
        let st1 = ParseSt {
            acc: Seq::<AppV>::empty(),
            mode: PMode::InApp { name: a0.name, home_name: None, bins: None },
        };
        assert(crate::parse::step(init, hdr_line(a0.name))
            == Ok::<ParseSt, crate::errors::ParseErrV>(st1)) by {
            assert(close_mode(PMode::Top) == Ok::<Option<AppV>, Seq<char>>(None));
        }
        lemma_run_app_block(Seq::<AppV>::empty(), a0);
        let st2 = ParseSt { acc: Seq::<AppV>::empty(), mode: open_mode(a0) };
        assert(Seq::<AppV>::empty() + seq![a0] + apps.drop_first() =~= apps);
        lemma_run_apps(Seq::<AppV>::empty(), a0, apps.drop_first());
        let all = seq![a0] + apps.drop_first();
        assert(all =~= apps);
        let fin = ParseSt {
            acc: Seq::<AppV>::empty() + apps.drop_last(),
            mode: open_mode(apps.last()),
        };
        assert(all.drop_last() =~= apps.drop_last());
        assert(Seq::<AppV>::empty() + apps.drop_last() =~= apps.drop_last());
        // chain: header, then block, then the rest
        lemma_run_lines_add(
            st1,
            app_lines(a0).drop_first(),
            rest_lines(apps.drop_first()),
        );
        lemma_run_lines_add(
            init,
            seq![hdr_line(a0.name)],
            app_lines(a0).drop_first() + rest_lines(apps.drop_first()),
        );
        assert(run_lines(init, seq![hdr_line(a0.name)])
            == Ok::<ParseSt, crate::errors::ParseErrV>(st1)) by {
            assert(seq![hdr_line(a0.name)][0] == hdr_line(a0.name));
            assert(seq![hdr_line(a0.name)].drop_first() =~~= Seq::<Seq<char>>::empty());
            assert(run_lines(st1, Seq::<Seq<char>>::empty())
                == Ok::<ParseSt, crate::errors::ParseErrV>(st1));
        }
        assert(seq![hdr_line(a0.name)] + (app_lines(a0).drop_first() + rest_lines(
            apps.drop_first(),
        )) =~~= apps_lines(apps)) by {
            assert(app_lines(a0)[0] == hdr_line(a0.name));
            assert(seq![hdr_line(a0.name)] + app_lines(a0).drop_first() =~~= app_lines(a0));
        }
        assert(run_lines(init, apps_lines(apps)) == Ok::<ParseSt, crate::errors::ParseErrV>(fin));
        // closing at the end of the document appends the last application
        lemma_close_open(apps.last());
        assert forall|i: int| 0 <= i < apps.drop_last().len() implies lex_lt(
            (#[trigger] apps.drop_last()[i]).name,
            apps.last().name,
        ) by {
            assert(apps.drop_last()[i] == apps[i]);
            assert(apps.last() == apps[apps.len() - 1]);
        }
        lemma_insert_at_end(apps.drop_last(), apps.last());
        assert(apps.drop_last().push(apps.last()) =~= apps);
    }
}

/// The open section's name, where there is one, is a valid bare key.
spec fn pmode_wf(m: PMode) -> bool {
    match m {
        PMode::Top => true,
        PMode::InApp { name, .. } => valid_key(name),
        PMode::InVer { name, .. } => valid_key(name),
    }
}

/// Sorted insertion preserves well-formedness, and adds no entry beyond the
/// new one.
proof fn lemma_insert_app_wf(acc: Seq<AppV>, a: AppV)
    requires
        store_wf(acc),
        app_wf(a),
    ensures
        store_wf(insert_app(acc, a)),
    decreases acc.len(),
{
    let r = insert_app(acc, a);
    if acc.len() == 0 {
        assert(r == seq![a]);
        assert(store_wf(r)) by {
            assert(r[0] == a);
        }
    } else if lex_lt(a.name, acc[0].name) {
        assert(r == seq![a] + acc);
        assert forall|i: int, j: int| 0 <= i < j < r.len() implies lex_lt(
            (#[trigger] r[i]).name,
            (#[trigger] r[j]).name,
        ) by {
            assert(r[j] == acc[j - 1]);
            if i == 0 {
                if j > 1 {
                    crate::text::lemma_lex_trans(a.name, acc[0].name, acc[j - 1].name);
                }
            } else {
                assert(r[i] == acc[i - 1]);
            }
        }
        assert forall|i: int| 0 <= i < r.len() implies app_wf(#[trigger] r[i]) by {
            if i > 0 {
                assert(r[i] == acc[i - 1]);
            } else {
                assert(r[i] == a);
            }
        }
    } else if a.name == acc[0].name {
        assert(r == seq![a] + acc.drop_first());
        assert forall|i: int, j: int| 0 <= i < j < r.len() implies lex_lt(
            (#[trigger] r[i]).name,
            (#[trigger] r[j]).name,
        ) by {
            assert(r[j] == acc[j]);
            if i == 0 {
                assert(lex_lt(acc[0].name, acc[j].name));
            } else {
                assert(r[i] == acc[i]);
            }
        }
        assert forall|i: int| 0 <= i < r.len() implies app_wf(#[trigger] r[i]) by {
            if i > 0 {
                assert(r[i] == acc[i]);
            } else {
                assert(r[i] == a);
            }
        }
    } else {
        crate::text::lemma_lex_trichotomy(a.name, acc[0].name);
        assert(lex_lt(acc[0].name, a.name));
        let tail = acc.drop_first();
        assert(store_wf(tail)) by {
            assert forall|i: int, j: int| 0 <= i < j < tail.len() implies lex_lt(
                (#[trigger] tail[i]).name,
                (#[trigger] tail[j]).name,
            ) by {
                assert(tail[i] == acc[i + 1]);
                assert(tail[j] == acc[j + 1]);
            }
            assert forall|i: int| 0 <= i < tail.len() implies app_wf(#[trigger] tail[i]) by {
                assert(tail[i] == acc[i + 1]);
            }
        }
        lemma_insert_app_wf(tail, a);
        lemma_insert_members(tail, a);
        assert(r == seq![acc[0]] + insert_app(tail, a));
        assert forall|i: int, j: int| 0 <= i < j < r.len() implies lex_lt(
            (#[trigger] r[i]).name,
            (#[trigger] r[j]).name,
        ) by {
            if i == 0 {
                assert(r[j] == insert_app(tail, a)[j - 1]);
                let e = insert_app(tail, a)[j - 1];
                if e == a {
                    assert(lex_lt(acc[0].name, a.name));
                } else {
                    let k = choose|k: int| 0 <= k < tail.len() && insert_app(tail, a)[j - 1]
                        == tail[k];
                    assert(tail[k] == acc[k + 1]);
                    assert(lex_lt(acc[0].name, acc[k + 1].name));
                }
            } else {
                assert(r[i] == insert_app(tail, a)[i - 1]);
                assert(r[j] == insert_app(tail, a)[j - 1]);
            }
        }
        assert forall|i: int| 0 <= i < r.len() implies app_wf(#[trigger] r[i]) by {
            if i > 0 {
                assert(r[i] == insert_app(tail, a)[i - 1]);
            } else {
                assert(r[i] == acc[0]);
            }
        }
    }
}

/// Every entry of a sorted insertion is the new entry or one already there.
proof fn lemma_insert_members(acc: Seq<AppV>, a: AppV)
    ensures
        forall|j: int|
            0 <= j < insert_app(acc, a).len() ==> (#[trigger] insert_app(acc, a)[j]) == a
                || exists|k: int| 0 <= k < acc.len() && insert_app(acc, a)[j] == acc[k],
    decreases acc.len(),
{
    let r = insert_app(acc, a);
    if acc.len() == 0 {
        assert(r == seq![a]);
        assert(r[0] == a);
    } else if lex_lt(a.name, acc[0].name) {
        assert(r == seq![a] + acc);
        assert forall|j: int| 0 <= j < r.len() implies (#[trigger] r[j]) == a || exists|k: int|
            0 <= k < acc.len() && r[j] == acc[k] by {
            if j > 0 {
                assert(r[j] == acc[j - 1]);
            }
        }
    } else if a.name == acc[0].name {
        assert(r == seq![a] + acc.drop_first());
        assert forall|j: int| 0 <= j < r.len() implies (#[trigger] r[j]) == a || exists|k: int|
            0 <= k < acc.len() && r[j] == acc[k] by {
            if j > 0 {
                assert(r[j] == acc[j]);
            }
        }
    } else {
        lemma_insert_members(acc.drop_first(), a);
        assert(r == seq![acc[0]] + insert_app(acc.drop_first(), a));
        assert forall|j: int| 0 <= j < r.len() implies (#[trigger] r[j]) == a || exists|k: int|
            0 <= k < acc.len() && r[j] == acc[k] by {
            if j == 0 {
                assert(r[0] == acc[0]);
            } else {
                assert(r[j] == insert_app(acc.drop_first(), a)[j - 1]);
                let e = insert_app(acc.drop_first(), a)[j - 1];
                if e != a {
                    let k = choose|k: int| 0 <= k < acc.drop_first().len() && insert_app(
                        acc.drop_first(),
                        a,
                    )[j - 1] == acc.drop_first()[k];
                    assert(acc.drop_first()[k] == acc[k + 1]);
                }
            }
        }
    }
}

/// Closing any well-formed open section yields a well-formed application.
proof fn lemma_close_wf(m: PMode)
    requires
        pmode_wf(m),
    ensures
        match close_mode(m) {
            Ok(Some(a)) => app_wf(a),
            _ => true,
        },
{
}

/// One step keeps the accumulated store and the open section well formed.
proof fn lemma_step_wf(st: ParseSt, line: Seq<char>)
    requires
        store_wf(st.acc),
        pmode_wf(st.mode),
    ensures
        match crate::parse::step(st, line) {
            Ok(st2) => store_wf(st2.acc) && pmode_wf(st2.mode),
            Err(_) => true,
        },
{
    crate::load::lemma_classify_valid_segs(line);
    lemma_close_wf(st.mode);
    match classify(line) {
        LineV::Header(segs) => {
            if segs.len() == 2 && segs[0] == kw_apps() {
                match close_mode(st.mode) {
                    Ok(opt) => {
                        match opt {
                            Some(a) => {
                                lemma_insert_app_wf(st.acc, a);
                            },
                            None => {},
                        }
                    },
                    Err(_) => {},
                }
                assert(valid_key(segs[1]));
            }
        },
        _ => {},
    }
}

/// The whole fold keeps the state well formed.
proof fn lemma_run_wf(st: ParseSt, lines: Seq<Seq<char>>)
    requires
        store_wf(st.acc),
        pmode_wf(st.mode),
    ensures
        match run_lines(st, lines) {
            Ok(st2) => store_wf(st2.acc) && pmode_wf(st2.mode),
            Err(_) => true,
        },
    decreases lines.len(),
{
    if lines.len() > 0 {
        lemma_step_wf(st, lines[0]);
        match crate::parse::step(st, lines[0]) {
            Ok(st2) => {
                lemma_run_wf(st2, lines.drop_first());
            },
            Err(_) => {},
        }
    }
}

/// Whatever parses successfully is a well-formed store.
pub proof fn law_parse_wf(d: Seq<char>)
    ensures
        match spec_parse(d) {
            Ok(apps) => store_wf(apps),
            Err(_) => true,
        },
{
    let init = ParseSt { acc: Seq::<AppV>::empty(), mode: PMode::Top };
    assert(store_wf(init.acc));
    lemma_run_wf(init, split_lines(d));
    match run_lines(init, split_lines(d)) {
        Ok(st) => {
            lemma_close_wf(st.mode);
            match close_mode(st.mode) {
                Ok(Some(a)) => {
                    lemma_insert_app_wf(st.acc, a);
                },
                _ => {},
            }
        },
        Err(_) => {},
    }
}

/// Rendering what was parsed loses nothing: the canonical text of a parsed
/// document parses back to the same store, so the two documents agree on
/// every value and every ordering the schema records.
pub proof fn law_parse_then_render(d: Seq<char>, apps: Seq<AppV>)
    requires
        spec_parse(d) == Ok::<Seq<AppV>, crate::errors::ParseErrV>(apps),
    ensures
        spec_parse(spec_render(apps)) == Ok::<Seq<AppV>, crate::errors::ParseErrV>(apps),
{
    law_parse_wf(d);
    law_render_then_parse(apps);
}

} // verus!
