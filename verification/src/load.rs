//! The executable parser, proved equal to the mathematical definition of
//! parsing in [`crate::parse`].

use vstd::prelude::*;
use vstd::string::StringExecFns;
use crate::errors::{ParseErrV, ParseError};
use crate::model::{AppEntry, AppV, VerV, VersionEntry};
use crate::parse::{
    all_ws, classify, close_mode, is_escape, join_segs, parse_arr_items, parse_bstr, parse_lstr,
    parse_path, parse_str_at, parse_val, scan_key, skip_ws, unesc, LineV, PMode, ParseSt, ValV,
};
use crate::text::{chars_to_string, chars_to_vec, is_key_char, is_ws};

verus! {

fn is_ws_exec(c: char) -> (b: bool)
    ensures
        b == is_ws(c),
{
    c == ' ' || c == '\t'
}

fn is_key_char_exec(c: char) -> (b: bool)
    ensures
        b == is_key_char(c),
{
    let u = c as u32;
    (65 <= u && u <= 90) || (97 <= u && u <= 122) || (48 <= u && u <= 57) || u == 95 || u == 45
}

fn is_escape_exec(c: char) -> (b: bool)
    ensures
        b == is_escape(c),
{
    c == '"' || c == '\\' || c == 'n' || c == 't' || c == 'r'
}

fn unesc_exec(c: char) -> (r: char)
    ensures
        r == unesc(c),
{
    if c == 'n' {
        '\n'
    } else if c == 't' {
        '\t'
    } else if c == 'r' {
        '\r'
    } else {
        c
    }
}

fn skip_ws_exec(l: &Vec<char>, i: usize) -> (r: usize)
    requires
        i <= l.len(),
    ensures
        r as int == skip_ws(l@, i as int),
        i <= r <= l.len(),
{
    let mut j = i;
    loop
        invariant
            i <= j <= l.len(),
            skip_ws(l@, i as int) == skip_ws(l@, j as int),
        decreases l.len() - j,
    {
        if j >= l.len() {
            return j;
        }
        if !is_ws_exec(l[j]) {
            return j;
        }
        j = j + 1;
    }
}

fn scan_key_exec(l: &Vec<char>, i: usize) -> (r: usize)
    requires
        i <= l.len(),
    ensures
        r as int == scan_key(l@, i as int),
        i <= r <= l.len(),
{
    let mut j = i;
    loop
        invariant
            i <= j <= l.len(),
            scan_key(l@, i as int) == scan_key(l@, j as int),
        decreases l.len() - j,
    {
        if j >= l.len() {
            return j;
        }
        if !is_key_char_exec(l[j]) {
            return j;
        }
        j = j + 1;
    }
}

fn all_ws_exec(l: &Vec<char>) -> (b: bool)
    ensures
        b == all_ws(l@),
{
    let mut i: usize = 0;
    loop
        invariant
            0 <= i <= l.len(),
            forall|j: int| 0 <= j < i ==> is_ws(#[trigger] l@[j]),
        decreases l.len() - i,
    {
        if i >= l.len() {
            return true;
        }
        if !is_ws_exec(l[i]) {
            return false;
        }
        i = i + 1;
    }
}

fn parse_bstr_exec(l: &Vec<char>, i: usize) -> (r: Option<(Vec<char>, usize)>)
    requires
        i <= l.len(),
    ensures
        match r {
            Some((s, j)) => parse_bstr(l@, i as int) == Some((s@, j as int)) && i < j <= l.len(),
            None => parse_bstr(l@, i as int) is None,
        },
{
    let mut content: Vec<char> = Vec::new();
    let mut j = i;
    loop
        invariant
            i <= j <= l.len(),
            parse_bstr(l@, i as int) == (match parse_bstr(l@, j as int) {
                Some((s, e)) => Some::<(Seq<char>, int)>((content@ + s, e)),
                None => None::<(Seq<char>, int)>,
            }),
        decreases l.len() - j,
    {
        if j >= l.len() {
            return None;
        }
        let c = l[j];
        if c == '"' {
            proof {
                assert(parse_bstr(l@, j as int) == Some::<(Seq<char>, int)>((
                    Seq::empty(),
                    j as int + 1,
                )));
                assert(content@ + Seq::<char>::empty() =~= content@);
            }
            return Some((content, j + 1));
        } else if c == '\\' {
            if j + 1 < l.len() && is_escape_exec(l[j + 1]) {
                let u = unesc_exec(l[j + 1]);
                let ghost old_content = content@;
                content.push(u);
                proof {
                    match parse_bstr(l@, j as int + 2) {
                        Some((s, e)) => {
                            assert(old_content + (seq![u] + s) =~= content@ + s);
                        },
                        None => {},
                    }
                }
                j = j + 2;
            } else {
                return None;
            }
        } else {
            let ghost old_content = content@;
            content.push(c);
            proof {
                match parse_bstr(l@, j as int + 1) {
                    Some((s, e)) => {
                        assert(old_content + (seq![c] + s) =~= content@ + s);
                    },
                    None => {},
                }
            }
            j = j + 1;
        }
    }
}

fn parse_lstr_exec(l: &Vec<char>, i: usize) -> (r: Option<(Vec<char>, usize)>)
    requires
        i <= l.len(),
    ensures
        match r {
            Some((s, j)) => parse_lstr(l@, i as int) == Some((s@, j as int)) && i < j <= l.len(),
            None => parse_lstr(l@, i as int) is None,
        },
{
    let mut content: Vec<char> = Vec::new();
    let mut j = i;
    loop
        invariant
            i <= j <= l.len(),
            parse_lstr(l@, i as int) == (match parse_lstr(l@, j as int) {
                Some((s, e)) => Some::<(Seq<char>, int)>((content@ + s, e)),
                None => None::<(Seq<char>, int)>,
            }),
        decreases l.len() - j,
    {
        if j >= l.len() {
            return None;
        }
        let c = l[j];
        if c == '\'' {
            proof {
                assert(content@ + Seq::<char>::empty() =~= content@);
            }
            return Some((content, j + 1));
        } else {
            let ghost old_content = content@;
            content.push(c);
            proof {
                match parse_lstr(l@, j as int + 1) {
                    Some((s, e)) => {
                        assert(old_content + (seq![c] + s) =~= content@ + s);
                    },
                    None => {},
                }
            }
            j = j + 1;
        }
    }
}

fn parse_str_at_exec(l: &Vec<char>, i: usize) -> (r: Option<(Vec<char>, usize)>)
    requires
        i <= l.len(),
    ensures
        match r {
            Some((s, j)) => parse_str_at(l@, i as int) == Some((s@, j as int)) && i < j
                <= l.len(),
            None => parse_str_at(l@, i as int) is None,
        },
{
    if i < l.len() {
        let c = l[i];
        if c == '"' {
            parse_bstr_exec(l, i + 1)
        } else if c == '\'' {
            parse_lstr_exec(l, i + 1)
        } else {
            None
        }
    } else {
        None
    }
}

fn parse_arr_items_exec(l: &Vec<char>, i: usize) -> (r: Option<(Vec<String>, usize)>)
    requires
        i <= l.len(),
    ensures
        match r {
            Some((vs, j)) => parse_arr_items(l@, i as int) == Some((vs.deep_view(), j as int))
                && i < j <= l.len(),
            None => parse_arr_items(l@, i as int) is None,
        },
{
    let mut items: Vec<String> = Vec::new();
    let mut j = i;
    loop
        invariant
            i <= j <= l.len(),
            parse_arr_items(l@, i as int) == (match parse_arr_items(l@, j as int) {
                Some((vs, e)) => Some::<(Seq<Seq<char>>, int)>((items.deep_view() + vs, e)),
                None => None::<(Seq<Seq<char>>, int)>,
            }),
        decreases l.len() - j,
    {
        let sv = parse_str_at_exec(l, j);
        match sv {
            None => {
                return None;
            },
            Some((v, j2)) => {
                let ghost old_items = items.deep_view();
                let vstr = crate::text::vec_to_string(&v);
                items.push(vstr);
                proof {
                    assert(items.deep_view() =~= old_items.push(v@));
                }
                let k = skip_ws_exec(l, j2);
                if k < l.len() && l[k] == ',' {
                    let m = skip_ws_exec(l, k + 1);
                    proof {
                        match parse_arr_items(l@, m as int) {
                            Some((vs, e)) => {
                                assert(old_items + (seq![v@] + vs) =~= items.deep_view() + vs);
                            },
                            None => {},
                        }
                    }
                    j = m;
                } else if k < l.len() && l[k] == ']' {
                    proof {
                        assert(parse_arr_items(l@, j as int) == Some::<(Seq<Seq<char>>, int)>((
                            seq![v@],
                            k as int + 1,
                        )));
                        assert(old_items + seq![v@] =~= items.deep_view());
                    }
                    return Some((items, k + 1));
                } else {
                    return None;
                }
            },
        }
    }
}

fn parse_path_exec(l: &Vec<char>, i: usize) -> (r: Option<(Vec<String>, usize)>)
    requires
        i <= l.len(),
    ensures
        match r {
            Some((segs, j)) => parse_path(l@, i as int) == Some((segs.deep_view(), j as int))
                && i <= j <= l.len(),
            None => parse_path(l@, i as int) is None,
        },
{
    let mut segs: Vec<String> = Vec::new();
    let mut j = i;
    loop
        invariant
            i <= j <= l.len(),
            parse_path(l@, i as int) == (match parse_path(l@, j as int) {
                Some((ss, e)) => Some::<(Seq<Seq<char>>, int)>((segs.deep_view() + ss, e)),
                None => None::<(Seq<Seq<char>>, int)>,
            }),
        decreases l.len() - j,
    {
        let k = scan_key_exec(l, j);
        if k == j {
            return None;
        }
        let seg = chars_to_string(l, j, k);
        let ghost old_segs = segs.deep_view();
        segs.push(seg);
        proof {
            assert(segs.deep_view() =~= old_segs.push(l@.subrange(j as int, k as int)));
        }
        if k < l.len() && l[k] == '.' {
            proof {
                match parse_path(l@, k as int + 1) {
                    Some((ss, e)) => {
                        assert(old_segs + (seq![l@.subrange(j as int, k as int)] + ss)
                            =~= segs.deep_view() + ss);
                    },
                    None => {},
                }
            }
            j = k + 1;
        } else {
            proof {
                assert(parse_path(l@, j as int) == Some::<(Seq<Seq<char>>, int)>((
                    seq![l@.subrange(j as int, k as int)],
                    k as int,
                )));
                assert(old_segs + seq![l@.subrange(j as int, k as int)] =~= segs.deep_view());
            }
            return Some((segs, k));
        }
    }
}

/// A value on the right-hand side of a key-value line, as executable data.
pub(crate) enum ValE {
    VStr(String),
    VArr(Vec<String>),
}

/// The mathematical value of a [`ValE`].
pub(crate) open spec fn val_view(v: &ValE) -> ValV {
    match v {
        ValE::VStr(s) => ValV::VStr(s@),
        ValE::VArr(vs) => ValV::VArr(vs.deep_view()),
    }
}

fn parse_val_exec(l: &Vec<char>, i: usize) -> (r: Option<(ValE, usize)>)
    requires
        i <= l.len(),
    ensures
        match r {
            Some((v, j)) => parse_val(l@, i as int) == Some((val_view(&v), j as int)) && j
                <= l.len(),
            None => parse_val(l@, i as int) is None,
        },
{
    if i < l.len() && l[i] == '[' {
        let j = skip_ws_exec(l, i + 1);
        if j < l.len() && l[j] == ']' {
            let empty: Vec<String> = Vec::new();
            proof {
                assert(empty.deep_view() =~= Seq::<Seq<char>>::empty());
            }
            Some((ValE::VArr(empty), j + 1))
        } else {
            match parse_arr_items_exec(l, j) {
                Some((vs, e)) => Some((ValE::VArr(vs), e)),
                None => None,
            }
        }
    } else {
        match parse_str_at_exec(l, i) {
            Some((v, j)) => Some((ValE::VStr(crate::text::vec_to_string(&v)), j)),
            None => None,
        }
    }
}

/// One line of the document, as executable data.
pub(crate) enum LineE {
    Blank,
    Header(Vec<String>),
    ArrHeader(Vec<String>),
    Kv(String, ValE),
    Bad,
}

/// The mathematical value of a [`LineE`].
pub(crate) open spec fn line_view(l: &LineE) -> LineV {
    match l {
        LineE::Blank => LineV::Blank,
        LineE::Header(segs) => LineV::Header(segs.deep_view()),
        LineE::ArrHeader(segs) => LineV::ArrHeader(segs.deep_view()),
        LineE::Kv(k, v) => LineV::Kv(k@, val_view(v)),
        LineE::Bad => LineV::Bad,
    }
}

/// Every character a key scan passes over is a key character.
proof fn lemma_scan_key_chars(l: Seq<char>, i: int)
    requires
        0 <= i,
    ensures
        forall|k: int| i <= k < scan_key(l, i) ==> is_key_char(#[trigger] l[k]),
    decreases l.len() - i,
{
    if i < l.len() && is_key_char(l[i]) {
        lemma_scan_key_chars(l, i + 1);
    }
}

/// Every segment of a parsed path is a valid bare key.
proof fn lemma_parse_path_valid(l: Seq<char>, i: int)
    requires
        0 <= i <= l.len(),
    ensures
        match parse_path(l, i) {
            Some((segs, e)) => forall|k: int|
                0 <= k < segs.len() ==> crate::text::valid_key(#[trigger] segs[k]),
            None => true,
        },
    decreases l.len() - i,
{
    let j = scan_key(l, i);
    crate::parse::lemma_scan_key_bounds(l, i);
    if j != i {
        lemma_scan_key_chars(l, i);
        let seg = l.subrange(i, j);
        assert(crate::text::valid_key(seg)) by {
            assert(forall|k: int| 0 <= k < seg.len() ==> seg[k] == l[i + k]);
        }
        if j < l.len() && l[j] == '.' {
            lemma_parse_path_valid(l, j + 1);
            match parse_path(l, j + 1) {
                Some((segs, e)) => {
                    assert forall|k: int| 0 <= k < (seq![seg] + segs).len() implies
                        crate::text::valid_key(#[trigger] (seq![seg] + segs)[k]) by {
                        if k > 0 {
                            assert((seq![seg] + segs)[k] == segs[k - 1]);
                        }
                    }
                },
                None => {},
            }
        } else {
            assert(seq![seg][0] == seg);
        }
    }
}

/// A classified header's path segments are valid bare keys.
pub(crate) proof fn lemma_classify_valid_segs(l: Seq<char>)
    ensures
        match classify(l) {
            LineV::Header(segs) => forall|k: int|
                0 <= k < segs.len() ==> crate::text::valid_key(#[trigger] segs[k]),
            LineV::ArrHeader(segs) => forall|k: int|
                0 <= k < segs.len() ==> crate::text::valid_key(#[trigger] segs[k]),
            _ => true,
        },
{
    if !all_ws(l) && l.len() > 0 && l[0] == '[' {
        if l.len() >= 2 && l[1] == '[' {
            lemma_parse_path_valid(l, 2);
        } else {
            lemma_parse_path_valid(l, 1);
        }
    }
}

/// Classify one line of the document.
fn classify_exec(l: &Vec<char>) -> (r: LineE)
    ensures
        line_view(&r) == classify(l@),
        classify(l@) matches LineV::Header(segs) ==> forall|k: int|
            0 <= k < segs.len() ==> crate::text::valid_key(#[trigger] segs[k]),
        classify(l@) matches LineV::ArrHeader(segs) ==> forall|k: int|
            0 <= k < segs.len() ==> crate::text::valid_key(#[trigger] segs[k]),
{
    proof {
        lemma_classify_valid_segs(l@);
    }
    if all_ws_exec(l) {
        return LineE::Blank;
    }
    if l[0] == '[' {
        if l.len() >= 2 && l[1] == '[' {
            match parse_path_exec(l, 2) {
                Some((segs, j)) => {
                    if j < l.len() && j + 1 < l.len() && l[j] == ']' && l[j + 1] == ']' {
                        let e = skip_ws_exec(l, j + 2);
                        if e == l.len() {
                            LineE::ArrHeader(segs)
                        } else {
                            LineE::Bad
                        }
                    } else {
                        LineE::Bad
                    }
                },
                None => LineE::Bad,
            }
        } else {
            match parse_path_exec(l, 1) {
                Some((segs, j)) => {
                    if j < l.len() && l[j] == ']' {
                        let e = skip_ws_exec(l, j + 1);
                        if e == l.len() {
                            LineE::Header(segs)
                        } else {
                            LineE::Bad
                        }
                    } else {
                        LineE::Bad
                    }
                },
                None => LineE::Bad,
            }
        }
    } else {
        let j = scan_key_exec(l, 0);
        if j == 0 {
            return LineE::Bad;
        }
        let key = chars_to_string(l, 0, j);
        proof {
            assert(l@.subrange(0, j as int) =~= l@.take(j as int));
        }
        let k = skip_ws_exec(l, j);
        if k < l.len() && l[k] == '=' {
            let m = skip_ws_exec(l, k + 1);
            match parse_val_exec(l, m) {
                Some((v, e)) => {
                    let e2 = skip_ws_exec(l, e);
                    if e2 == l.len() {
                        LineE::Kv(key, v)
                    } else {
                        LineE::Bad
                    }
                },
                None => LineE::Bad,
            }
        } else {
            LineE::Bad
        }
    }
}

/// Where the executable fold stands.
pub(crate) enum ModeE {
    Top,
    InApp { name: String, home_name: Option<String>, bins: Option<Vec<String>> },
    InVer {
        name: String,
        home_name: String,
        bins: Vec<String>,
        done: Vec<VersionEntry>,
        version: Option<String>,
        home_path: Option<String>,
    },
}

/// The mathematical value of a [`ModeE`].
pub(crate) open spec fn mode_view(m: &ModeE) -> PMode {
    match m {
        ModeE::Top => PMode::Top,
        ModeE::InApp { name, home_name, bins } => PMode::InApp {
            name: name@,
            home_name: home_name.deep_view(),
            bins: bins.deep_view(),
        },
        ModeE::InVer { name, home_name, bins, done, version, home_path } => PMode::InVer {
            name: name@,
            home_name: home_name@,
            bins: bins.deep_view(),
            done: done.deep_view(),
            version: version.deep_view(),
            home_path: home_path.deep_view(),
        },
    }
}

/// The open section's name, where there is one, can stand as a bare key.
pub(crate) open spec fn mode_wf(m: &ModeE) -> bool {
    match m {
        ModeE::Top => true,
        ModeE::InApp { name, .. } => crate::text::valid_key(name@),
        ModeE::InVer { name, .. } => crate::text::valid_key(name@),
    }
}

/// Close the open section: the finished application entry, or the name of
/// the missing field.
fn close_exec(m: ModeE) -> (r: Result<Option<AppEntry>, String>)
    requires
        mode_wf(&m),
    ensures
        match r {
            Ok(None) => close_mode(mode_view(&m)) == Ok::<Option<AppV>, Seq<char>>(None),
            Ok(Some(e)) => close_mode(mode_view(&m)) == Ok::<Option<AppV>, Seq<char>>(
                Some(e.deep_view()),
            ) && crate::model::app_wf(e.deep_view()),
            Err(f) => close_mode(mode_view(&m)) == Err::<Option<AppV>, Seq<char>>(f@),
        },
{
    proof {
        crate::render::lemma_keywords();
    }
    match m {
        ModeE::Top => Ok(None),
        ModeE::InApp { name, home_name, bins } => match (home_name, bins) {
            (Some(h), Some(b)) => Ok(
                Some(AppEntry { name, home_name: h, bins: b, versions: None }),
            ),
            (None, _) => Err("home_name".to_owned()),
            (_, None) => Err("bins".to_owned()),
        },
        ModeE::InVer { name, home_name, bins, done, version, home_path } => match (
            version,
            home_path,
        ) {
            (Some(v), Some(hp)) => {
                let ghost old_done = done.deep_view();
                let mut done = done;
                done.push(VersionEntry { version: v, home_path: hp });
                proof {
                    assert(done.deep_view() =~= old_done.push(
                        VerV { version: v@, home_path: hp@ },
                    ));
                }
                Ok(Some(AppEntry { name, home_name, bins, versions: Some(done) }))
            },
            (None, _) => Err("version".to_owned()),
            (_, None) => Err("home_path".to_owned()),
        },
    }
}

/// The dotted form of a path, for schema error reports.
fn join_segs_exec(segs: &Vec<String>) -> (r: String)
    ensures
        r@ == join_segs(segs.deep_view()),
{
    let ghost dv = segs.deep_view();
    let mut out = String::new();
    let n = segs.len();
    let mut i: usize = 0;
    while i < n
        invariant
            0 <= i <= n,
            n == segs.len(),
            dv == segs.deep_view(),
            out@ == join_segs(dv.take(i as int)),
        decreases n - i,
    {
        if i > 0 {
            crate::text::push_char(&mut out, '.');
        }
        out.append(segs[i].as_str());
        proof {
            assert(dv[i as int] == segs@[i as int].deep_view());
            lemma_join_segs_snoc(dv.take(i as int), dv[i as int]);
            assert(dv.take(i as int + 1) =~= dv.take(i as int).push(dv[i as int]));
            if i == 0 {
                assert(join_segs(dv.take(0)) == Seq::<char>::empty()) by {
                    assert(dv.take(0) =~= Seq::<Seq<char>>::empty());
                }
                assert(out@ =~= join_segs(dv.take(i as int + 1)));
            } else {
                assert(out@ =~= join_segs(dv.take(i as int + 1)));
            }
        }
        i = i + 1;
    }
    proof {
        assert(dv.take(n as int) =~= dv);
    }
    out
}

/// One more path segment joins with a dot separator.
proof fn lemma_join_segs_snoc(segs: Seq<Seq<char>>, x: Seq<char>)
    ensures
        segs.len() == 0 ==> join_segs(segs.push(x)) == x,
        segs.len() > 0 ==> join_segs(segs.push(x)) == join_segs(segs) + seq!['.'] + x,
    decreases segs.len(),
{
    if segs.len() == 0 {
        assert(segs.push(x)[0] == x);
    } else if segs.len() == 1 {
        assert(segs.push(x).drop_first() =~= segs.drop_first().push(x));
        lemma_join_segs_snoc(segs.drop_first(), x);
        assert(join_segs(segs.push(x)) =~= join_segs(segs) + seq!['.'] + x);
    } else {
        assert(segs.push(x).drop_first() =~= segs.drop_first().push(x));
        lemma_join_segs_snoc(segs.drop_first(), x);
        assert(join_segs(segs.push(x)) =~= join_segs(segs) + seq!['.'] + x);
    }
}

/// One step of the fold: apply one line to the state; `acc` may change even
/// when the step fails, but stays well formed.
fn step_exec(acc: &mut Vec<AppEntry>, mode: ModeE, line: &Vec<char>) -> (r: Result<
    ModeE,
    ParseError,
>)
    requires
        crate::model::store_wf(old(acc).deep_view()),
        mode_wf(&mode),
    ensures
        crate::model::store_wf(final(acc).deep_view()),
        match r {
            Ok(m2) => crate::parse::step(
                ParseSt { acc: old(acc).deep_view(), mode: mode_view(&mode) },
                line@,
            ) == Ok::<ParseSt, ParseErrV>(
                ParseSt { acc: final(acc).deep_view(), mode: mode_view(&m2) },
            ) && mode_wf(&m2),
            Err(e) => crate::parse::step(
                ParseSt { acc: old(acc).deep_view(), mode: mode_view(&mode) },
                line@,
            ) == Err::<ParseSt, ParseErrV>(e@),
        },
{
    proof {
        crate::render::lemma_keywords();
    }
    let cl = classify_exec(line);
    match cl {
        LineE::Blank => Ok(mode),
        LineE::Bad => Err(ParseError::Syntax),
        LineE::Header(segs) => {
            proof {
                if segs@.len() >= 2 {
                    assert(segs.deep_view()[0] == segs@[0]@);
                    assert(segs.deep_view()[1] == segs@[1]@);
                }
            }
            if segs.len() == 2 && crate::text::str_cmp(segs[0].as_str(), "apps") == 0 {
                match close_exec(mode) {
                    Err(f) => Err(ParseError::Schema { field: f }),
                    Ok(opt) => {
                        match opt {
                            Some(entry) => {
                                crate::store::store_add(acc, entry);
                            },
                            None => {},
                        }
                        let (_pos, found) = crate::store::find_pos(acc, segs[1].as_str());
                        if found {
                            Err(ParseError::Syntax)
                        } else {
                            let mut segs = segs;
                            let name = segs.remove(1);
                            Ok(ModeE::InApp { name, home_name: None, bins: None })
                        }
                    },
                }
            } else {
                Err(ParseError::Schema { field: join_segs_exec(&segs) })
            }
        },
        LineE::ArrHeader(segs) => {
            proof {
                if segs@.len() >= 3 {
                    assert(segs.deep_view()[0] == segs@[0]@);
                    assert(segs.deep_view()[1] == segs@[1]@);
                    assert(segs.deep_view()[2] == segs@[2]@);
                }
            }
            if segs.len() == 3 && crate::text::str_cmp(segs[0].as_str(), "apps") == 0
                && crate::text::str_cmp(segs[2].as_str(), "versions") == 0 {
                match mode {
                    ModeE::Top => Err(ParseError::Schema { field: join_segs_exec(&segs) }),
                    ModeE::InApp { name, home_name, bins } => {
                        if crate::text::str_cmp(segs[1].as_str(), name.as_str()) != 0 {
                            Err(ParseError::Schema { field: join_segs_exec(&segs) })
                        } else {
                            match (home_name, bins) {
                                (Some(h), Some(b)) => {
                                    let done: Vec<VersionEntry> = Vec::new();
                                    proof {
                                        assert(done.deep_view() =~= Seq::<VerV>::empty());
                                    }
                                    Ok(
                                        ModeE::InVer {
                                            name,
                                            home_name: h,
                                            bins: b,
                                            done,
                                            version: None,
                                            home_path: None,
                                        },
                                    )
                                },
                                (None, _) => Err(
                                    ParseError::Schema { field: "home_name".to_owned() },
                                ),
                                (_, None) => Err(ParseError::Schema { field: "bins".to_owned() }),
                            }
                        }
                    },
                    ModeE::InVer { name, home_name, bins, done, version, home_path } => {
                        if crate::text::str_cmp(segs[1].as_str(), name.as_str()) != 0 {
                            Err(ParseError::Schema { field: join_segs_exec(&segs) })
                        } else {
                            match (version, home_path) {
                                (Some(v), Some(hp)) => {
                                    let ghost old_done = done.deep_view();
                                    let mut done = done;
                                    done.push(VersionEntry { version: v, home_path: hp });
                                    proof {
                                        assert(done.deep_view() =~= old_done.push(
                                            VerV { version: v@, home_path: hp@ },
                                        ));
                                    }
                                    Ok(
                                        ModeE::InVer {
                                            name,
                                            home_name,
                                            bins,
                                            done,
                                            version: None,
                                            home_path: None,
                                        },
                                    )
                                },
                                (None, _) => Err(
                                    ParseError::Schema { field: "version".to_owned() },
                                ),
                                (_, None) => Err(
                                    ParseError::Schema { field: "home_path".to_owned() },
                                ),
                            }
                        }
                    },
                }
            } else {
                Err(ParseError::Schema { field: join_segs_exec(&segs) })
            }
        },
        LineE::Kv(key, val) => match mode {
            ModeE::Top => Err(ParseError::Schema { field: key }),
            ModeE::InApp { name, home_name, bins } => {
                if crate::text::str_cmp(key.as_str(), "home_name") == 0 {
                    match val {
                        ValE::VStr(v) => {
                            if home_name.is_some() {
                                Err(ParseError::Syntax)
                            } else {
                                Ok(ModeE::InApp { name, home_name: Some(v), bins })
                            }
                        },
                        ValE::VArr(_) => Err(ParseError::Schema { field: key }),
                    }
                } else if crate::text::str_cmp(key.as_str(), "bins") == 0 {
                    match val {
                        ValE::VArr(vs) => {
                            if bins.is_some() {
                                Err(ParseError::Syntax)
                            } else {
                                Ok(ModeE::InApp { name, home_name, bins: Some(vs) })
                            }
                        },
                        ValE::VStr(_) => Err(ParseError::Schema { field: key }),
                    }
                } else {
                    Err(ParseError::Schema { field: key })
                }
            },
            ModeE::InVer { name, home_name, bins, done, version, home_path } => {
                if crate::text::str_cmp(key.as_str(), "version") == 0 {
                    match val {
                        ValE::VStr(v) => {
                            if version.is_some() {
                                Err(ParseError::Syntax)
                            } else {
                                Ok(
                                    ModeE::InVer {
                                        name,
                                        home_name,
                                        bins,
                                        done,
                                        version: Some(v),
                                        home_path,
                                    },
                                )
                            }
                        },
                        ValE::VArr(_) => Err(ParseError::Schema { field: key }),
                    }
                } else if crate::text::str_cmp(key.as_str(), "home_path") == 0 {
                    match val {
                        ValE::VStr(v) => {
                            if home_path.is_some() {
                                Err(ParseError::Syntax)
                            } else {
                                Ok(
                                    ModeE::InVer {
                                        name,
                                        home_name,
                                        bins,
                                        done,
                                        version,
                                        home_path: Some(v),
                                    },
                                )
                            }
                        },
                        ValE::VArr(_) => Err(ParseError::Schema { field: key }),
                    }
                } else {
                    Err(ParseError::Schema { field: key })
                }
            },
        },
    }
}

/// If the first `m` characters are not newlines, and the one after them is
/// (or the text ends there), the first newline stands at `m`.
pub(crate) proof fn lemma_first_nl_at(t: Seq<char>, m: int)
    requires
        0 <= m <= t.len(),
        forall|k: int| 0 <= k < m ==> t[k] != '\n',
        m < t.len() ==> t[m] == '\n',
    ensures
        crate::parse::first_nl(t) == m,
    decreases m,
{
    if m == 0 {
    } else {
        assert(t[0] != '\n');
        assert forall|k: int| 0 <= k < m - 1 implies t.drop_first()[k] != '\n' by {
            assert(t.drop_first()[k] == t[k + 1]);
        }
        assert(m - 1 < t.drop_first().len() ==> t.drop_first()[m - 1] == t[m]);
        lemma_first_nl_at(t.drop_first(), m - 1);
    }
}

/// Split the document into its lines.
fn split_exec(chars: &Vec<char>) -> (r: Vec<Vec<char>>)
    ensures
        r.deep_view() == crate::parse::split_lines(chars@),
{
    let mut lines: Vec<Vec<char>> = Vec::new();
    let mut cursor: usize = 0;
    proof {
        assert(chars@.skip(0) =~= chars@);
        assert(lines.deep_view() =~~= Seq::<Seq<char>>::empty());
        assert(Seq::<Seq<char>>::empty() + crate::parse::split_lines(chars@)
            =~~= crate::parse::split_lines(chars@));
    }
    while cursor < chars.len()
        invariant
            0 <= cursor <= chars.len(),
            crate::parse::split_lines(chars@) == lines.deep_view() + crate::parse::split_lines(
                chars@.skip(cursor as int),
            ),
        decreases chars.len() - cursor,
    {
        let ghost suffix = chars@.skip(cursor as int);
        let mut m = cursor;
        while m < chars.len() && chars[m] != '\n'
            invariant
                cursor <= m <= chars.len(),
                forall|k: int| cursor <= k < m ==> chars@[k] != '\n',
            decreases chars.len() - m,
        {
            m = m + 1;
        }
        proof {
            assert forall|k: int| 0 <= k < m - cursor implies suffix[k] != '\n' by {
                assert(suffix[k] == chars@[cursor + k]);
            }
            assert(m < chars.len() ==> suffix[m - cursor] == chars@[m as int]);
            lemma_first_nl_at(suffix, m - cursor as int);
        }
        let line = chars_to_vec(chars, cursor, m);
        let ghost old_lines = lines.deep_view();
        lines.push(line);
        proof {
            assert(lines.deep_view() =~~= old_lines.push(
                chars@.subrange(cursor as int, m as int),
            ));
            assert(suffix.take(m - cursor as int) =~= chars@.subrange(cursor as int, m as int));
        }
        if m < chars.len() {
            proof {
                assert(suffix.skip(m - cursor as int + 1) =~= chars@.skip(m as int + 1));
                assert(crate::parse::split_lines(suffix) == seq![
                    chars@.subrange(cursor as int, m as int),
                ] + crate::parse::split_lines(chars@.skip(m as int + 1)));
                assert(old_lines + crate::parse::split_lines(suffix) =~~= lines.deep_view()
                    + crate::parse::split_lines(chars@.skip(m as int + 1)));
            }
            cursor = m + 1;
        } else {
            proof {
                assert(suffix.len() > 0);
                assert(crate::parse::first_nl(suffix) == suffix.len());
                assert(suffix =~= chars@.subrange(cursor as int, m as int));
                assert(crate::parse::split_lines(suffix) == seq![suffix]);
                assert(chars@.skip(m as int) =~= Seq::<char>::empty());
                assert(crate::parse::split_lines(Seq::<char>::empty())
                    == Seq::<Seq<char>>::empty());
                assert(old_lines + crate::parse::split_lines(suffix) =~~= lines.deep_view()
                    + crate::parse::split_lines(chars@.skip(m as int)));
            }
            cursor = m;
        }
    }
    proof {
        assert(chars@.skip(cursor as int) =~= Seq::<char>::empty());
        assert(crate::parse::split_lines(Seq::<char>::empty()) == Seq::<Seq<char>>::empty());
        assert(lines.deep_view() + Seq::<Seq<char>>::empty() =~~= lines.deep_view());
    }
    lines
}

/// Parse a whole document into the sorted application list.
pub(crate) fn load_store(text: &str) -> (r: Result<Vec<AppEntry>, ParseError>)
    ensures
        match r {
            Ok(apps) => crate::parse::spec_parse(text@) == Ok::<Seq<AppV>, ParseErrV>(
                apps.deep_view(),
            ) && crate::model::store_wf(apps.deep_view()),
            Err(e) => crate::parse::spec_parse(text@) == Err::<Seq<AppV>, ParseErrV>(e@),
        },
{
    let chars = crate::text::str_to_chars(text);
    let lines = split_exec(&chars);
    let ghost ldv = lines.deep_view();
    let ghost init = ParseSt { acc: Seq::<AppV>::empty(), mode: PMode::Top };
    let mut acc: Vec<AppEntry> = Vec::new();
    let mut mode = ModeE::Top;
    proof {
        assert(acc.deep_view() =~= Seq::<AppV>::empty());
        assert(ldv.skip(0) =~= ldv);
    }
    let n = lines.len();
    let mut i: usize = 0;
    while i < n
        invariant
            0 <= i <= n,
            n == lines.len(),
            ldv == lines.deep_view(),
            ldv == crate::parse::split_lines(text@),
            init == (ParseSt { acc: Seq::<AppV>::empty(), mode: PMode::Top }),
            crate::model::store_wf(acc.deep_view()),
            mode_wf(&mode),
            crate::parse::run_lines(init, ldv) == crate::parse::run_lines(
                ParseSt { acc: acc.deep_view(), mode: mode_view(&mode) },
                ldv.skip(i as int),
            ),
        decreases n - i,
    {
        let ghost st_before = ParseSt { acc: acc.deep_view(), mode: mode_view(&mode) };
        proof {
            assert(ldv.skip(i as int)[0] == ldv[i as int]);
            assert(ldv.skip(i as int).drop_first() =~~= ldv.skip(i as int + 1));
            assert(ldv[i as int] == lines@[i as int].deep_view());
            assert(lines@[i as int].deep_view() =~= lines@[i as int]@);
        }
        let res = step_exec(&mut acc, mode, &lines[i]);
        match res {
            Ok(m2) => {
                mode = m2;
            },
            Err(e) => {
                proof {
                    assert(crate::parse::run_lines(st_before, ldv.skip(i as int))
                        == Err::<ParseSt, ParseErrV>(e@));
                }
                return Err(e);
            },
        }
        i = i + 1;
    }
    proof {
        assert(ldv.skip(n as int) =~= Seq::<Seq<char>>::empty());
        assert(crate::parse::run_lines(init, ldv) == Ok::<ParseSt, ParseErrV>(
            ParseSt { acc: acc.deep_view(), mode: mode_view(&mode) },
        ));
    }
    match close_exec(mode) {
        Err(f) => Err(ParseError::Schema { field: f }),
        Ok(None) => Ok(acc),
        Ok(Some(entry)) => {
            crate::store::store_add(&mut acc, entry);
            Ok(acc)
        },
    }
}

} // verus!
