//! The mathematical definition of parsing: a document is split into lines,
//! each line is classified as blank, section header, version sub-section
//! header or key-value pair, and a small state machine folds the lines into
//! the store, rejecting text that is not well formed (`Syntax`) or that does
//! not match the schema (`Schema`, naming the unexpected or missing field).

use vstd::prelude::*;
use crate::errors::ParseErrV;
use crate::model::{has_app, insert_app, AppV, VerV};
use crate::render::{kw_apps, kw_bins, kw_home_name, kw_home_path, kw_version, kw_versions};
use crate::text::{is_key_char, is_ws};

verus! {

/// Index of the first newline in the text, or its length when none occurs.
pub open spec fn first_nl(t: Seq<char>) -> int
    decreases t.len(),
{
    if t.len() == 0 {
        0
    } else if t[0] == '\n' {
        0
    } else {
        1 + first_nl(t.drop_first())
    }
}

pub proof fn lemma_first_nl_bounds(t: Seq<char>)
    ensures
        0 <= first_nl(t) <= t.len(),
        first_nl(t) < t.len() ==> t[first_nl(t)] == '\n',
        forall|j: int| 0 <= j < first_nl(t) ==> t[j] != '\n',
    decreases t.len(),
{
    if t.len() > 0 && t[0] != '\n' {
        lemma_first_nl_bounds(t.drop_first());
        assert forall|j: int| 0 <= j < first_nl(t) implies t[j] != '\n' by {
            if j > 0 {
                assert(t[j] == t.drop_first()[j - 1]);
            }
        }
    }
}

/// The lines of a text: split at every newline; a final fragment without a
/// terminating newline counts as a line of its own.
pub open spec fn split_lines(t: Seq<char>) -> Seq<Seq<char>>
    decreases t.len(),
    via split_lines_decreases
{
    if t.len() == 0 {
        Seq::empty()
    } else {
        let i = first_nl(t);
        if i == t.len() {
            seq![t]
        } else {
            seq![t.take(i)] + split_lines(t.skip(i + 1))
        }
    }
}

#[via_fn]
proof fn split_lines_decreases(t: Seq<char>) {
    lemma_first_nl_bounds(t);
}

/// First index at or after `i` that does not hold horizontal whitespace.
pub open spec fn skip_ws(l: Seq<char>, i: int) -> int
    decreases l.len() - i,
{
    if i >= l.len() {
        l.len() as int
    } else if is_ws(l[i]) {
        skip_ws(l, i + 1)
    } else {
        i
    }
}

/// First index at or after `i` that does not hold a bare key character.
pub open spec fn scan_key(l: Seq<char>, i: int) -> int
    decreases l.len() - i,
{
    if i >= l.len() {
        l.len() as int
    } else if is_key_char(l[i]) {
        scan_key(l, i + 1)
    } else {
        i
    }
}

pub proof fn lemma_skip_ws_bounds(l: Seq<char>, i: int)
    requires
        0 <= i,
    ensures
        i <= l.len() ==> i <= skip_ws(l, i) <= l.len(),
        i > l.len() ==> skip_ws(l, i) == l.len(),
    decreases l.len() - i,
{
    if i < l.len() && is_ws(l[i]) {
        lemma_skip_ws_bounds(l, i + 1);
    }
}

pub proof fn lemma_scan_key_bounds(l: Seq<char>, i: int)
    requires
        0 <= i,
    ensures
        i <= l.len() ==> i <= scan_key(l, i) <= l.len(),
        i > l.len() ==> scan_key(l, i) == l.len(),
    decreases l.len() - i,
{
    if i < l.len() && is_key_char(l[i]) {
        lemma_scan_key_bounds(l, i + 1);
    }
}

/// The characters an escape may name inside a quoted string.
pub open spec fn is_escape(c: char) -> bool {
    c == '"' || c == '\\' || c == 'n' || c == 't' || c == 'r'
}

/// The character an escape stands for.
pub open spec fn unesc(c: char) -> char {
    if c == 'n' {
        '\n'
    } else if c == 't' {
        '\t'
    } else if c == 'r' {
        '\r'
    } else {
        c
    }
}

/// Parse the body of a basic (double-quoted) string starting at `i`, up to
/// and including the closing quote: the decoded content and the index just
/// after the quote.
pub open spec fn parse_bstr(l: Seq<char>, i: int) -> Option<(Seq<char>, int)>
    decreases l.len() - i,
{
    if i < 0 || i >= l.len() {
        None
    } else if l[i] == '"' {
        Some((Seq::empty(), i + 1))
    } else if l[i] == '\\' {
        if i + 1 < l.len() && is_escape(l[i + 1]) {
            match parse_bstr(l, i + 2) {
                Some((s, j)) => Some((seq![unesc(l[i + 1])] + s, j)),
                None => None,
            }
        } else {
            None
        }
    } else {
        match parse_bstr(l, i + 1) {
            Some((s, j)) => Some((seq![l[i]] + s, j)),
            None => None,
        }
    }
}

/// Parse the body of a literal (single-quoted) string starting at `i`.
pub open spec fn parse_lstr(l: Seq<char>, i: int) -> Option<(Seq<char>, int)>
    decreases l.len() - i,
{
    if i < 0 || i >= l.len() {
        None
    } else if l[i] == '\'' {
        Some((Seq::empty(), i + 1))
    } else {
        match parse_lstr(l, i + 1) {
            Some((s, j)) => Some((seq![l[i]] + s, j)),
            None => None,
        }
    }
}

/// Parse a string token (basic or literal) whose opening quote stands at `i`.
pub open spec fn parse_str_at(l: Seq<char>, i: int) -> Option<(Seq<char>, int)> {
    if 0 <= i < l.len() {
        if l[i] == '"' {
            parse_bstr(l, i + 1)
        } else if l[i] == '\'' {
            parse_lstr(l, i + 1)
        } else {
            None
        }
    } else {
        None
    }
}

pub proof fn lemma_parse_bstr_bounds(l: Seq<char>, i: int)
    requires
        0 <= i,
    ensures
        match parse_bstr(l, i) {
            Some((s, j)) => i < j <= l.len(),
            None => true,
        },
    decreases l.len() - i,
{
    if 0 <= i < l.len() && l[i] != '"' {
        if l[i] == '\\' {
            if i + 1 < l.len() && is_escape(l[i + 1]) {
                lemma_parse_bstr_bounds(l, i + 2);
            }
        } else {
            lemma_parse_bstr_bounds(l, i + 1);
        }
    }
}

pub proof fn lemma_parse_lstr_bounds(l: Seq<char>, i: int)
    requires
        0 <= i,
    ensures
        match parse_lstr(l, i) {
            Some((s, j)) => i < j <= l.len(),
            None => true,
        },
    decreases l.len() - i,
{
    if 0 <= i < l.len() && l[i] != '\'' {
        lemma_parse_lstr_bounds(l, i + 1);
    }
}

pub proof fn lemma_parse_str_at_bounds(l: Seq<char>, i: int)
    requires
        0 <= i,
    ensures
        match parse_str_at(l, i) {
            Some((s, j)) => i < j <= l.len(),
            None => true,
        },
{
    if 0 <= i < l.len() {
        lemma_parse_bstr_bounds(l, i + 1);
        lemma_parse_lstr_bounds(l, i + 1);
    }
}

/// Parse the comma-separated string items of a non-empty array, starting on
/// the first item's opening quote, up to and including the closing bracket.
pub open spec fn parse_arr_items(l: Seq<char>, i: int) -> Option<(Seq<Seq<char>>, int)>
    decreases l.len() - i,
    via parse_arr_items_decreases
{
    if i < 0 {
        None
    } else {
        match parse_str_at(l, i) {
            None => None,
            Some((v, j)) => {
                let k = skip_ws(l, j);
                if k < l.len() && l[k] == ',' {
                    let m = skip_ws(l, k + 1);
                    match parse_arr_items(l, m) {
                        Some((vs, e)) => Some((seq![v] + vs, e)),
                        None => None,
                    }
                } else if k < l.len() && l[k] == ']' {
                    Some((seq![v], k + 1))
                } else {
                    None
                }
            },
        }
    }
}

#[via_fn]
proof fn parse_arr_items_decreases(l: Seq<char>, i: int) {
    if i >= 0 {
        lemma_parse_str_at_bounds(l, i);
        match parse_str_at(l, i) {
            Some((v, j)) => {
                lemma_skip_ws_bounds(l, j);
                let k = skip_ws(l, j);
                if k < l.len() && l[k] == ',' {
                    lemma_skip_ws_bounds(l, k + 1);
                }
            },
            None => {},
        }
    }
}

/// Parse a dotted path of bare keys starting at `i`: the segments and the
/// index of the first character after the path.
pub open spec fn parse_path(l: Seq<char>, i: int) -> Option<(Seq<Seq<char>>, int)>
    decreases l.len() - i,
    via parse_path_decreases
{
    if i < 0 {
        None
    } else {
        let j = scan_key(l, i);
        if j == i {
            None
        } else {
            let seg = l.subrange(i, j);
            if j < l.len() && l[j] == '.' {
                match parse_path(l, j + 1) {
                    Some((segs, e)) => Some((seq![seg] + segs, e)),
                    None => None,
                }
            } else {
                Some((seq![seg], j))
            }
        }
    }
}

#[via_fn]
proof fn parse_path_decreases(l: Seq<char>, i: int) {
    if i >= 0 {
        lemma_scan_key_bounds(l, i);
    }
}

/// A value on the right-hand side of a key-value line.
pub enum ValV {
    VStr(Seq<char>),
    VArr(Seq<Seq<char>>),
}

/// What one line of the document says.
pub enum LineV {
    Blank,
    Header(Seq<Seq<char>>),
    ArrHeader(Seq<Seq<char>>),
    Kv(Seq<char>, ValV),
    Bad,
}

/// A line is blank when it holds only horizontal whitespace.
pub open spec fn all_ws(l: Seq<char>) -> bool {
    forall|j: int| 0 <= j < l.len() ==> is_ws(#[trigger] l[j])
}

/// Parse a value starting at `i`; the whole rest of the line must be the
/// value followed by whitespace.
pub open spec fn parse_val(l: Seq<char>, i: int) -> Option<(ValV, int)> {
    if 0 <= i < l.len() && l[i] == '[' {
        let j = skip_ws(l, i + 1);
        if j < l.len() && l[j] == ']' {
            Some((ValV::VArr(Seq::empty()), j + 1))
        } else {
            match parse_arr_items(l, j) {
                Some((vs, e)) => Some((ValV::VArr(vs), e)),
                None => None,
            }
        }
    } else {
        match parse_str_at(l, i) {
            Some((v, j)) => Some((ValV::VStr(v), j)),
            None => None,
        }
    }
}

/// Classify one line.
pub open spec fn classify(l: Seq<char>) -> LineV {
    if all_ws(l) {
        LineV::Blank
    } else if l[0] == '[' {
        if l.len() >= 2 && l[1] == '[' {
            match parse_path(l, 2) {
                Some((segs, j)) => if j + 1 < l.len() && l[j] == ']' && l[j + 1] == ']'
                    && skip_ws(l, j + 2) == l.len() {
                    LineV::ArrHeader(segs)
                } else {
                    LineV::Bad
                },
                None => LineV::Bad,
            }
        } else {
            match parse_path(l, 1) {
                Some((segs, j)) => if j < l.len() && l[j] == ']' && skip_ws(l, j + 1) == l.len() {
                    LineV::Header(segs)
                } else {
                    LineV::Bad
                },
                None => LineV::Bad,
            }
        }
    } else {
        let j = scan_key(l, 0);
        if j == 0 {
            LineV::Bad
        } else {
            let key = l.take(j);
            let k = skip_ws(l, j);
            if k < l.len() && l[k] == '=' {
                let m = skip_ws(l, k + 1);
                match parse_val(l, m) {
                    Some((v, e)) => if skip_ws(l, e) == l.len() {
                        LineV::Kv(key, v)
                    } else {
                        LineV::Bad
                    },
                    None => LineV::Bad,
                }
            } else {
                LineV::Bad
            }
        }
    }
}

/// Where the fold stands: outside any section, inside an application's
/// key-value part, or inside one of its version sub-sections.
pub enum PMode {
    Top,
    InApp { name: Seq<char>, home_name: Option<Seq<char>>, bins: Option<Seq<Seq<char>>> },
    InVer {
        name: Seq<char>,
        home_name: Seq<char>,
        bins: Seq<Seq<char>>,
        done: Seq<VerV>,
        version: Option<Seq<char>>,
        home_path: Option<Seq<char>>,
    },
}

/// The fold's state: the applications closed so far, kept sorted, and the
/// open section.
pub struct ParseSt {
    pub acc: Seq<AppV>,
    pub mode: PMode,
}

/// Close the open section, if any: the finished application, or the field
/// that is missing.
pub open spec fn close_mode(mode: PMode) -> Result<Option<AppV>, Seq<char>> {
    match mode {
        PMode::Top => Ok(None),
        PMode::InApp { name, home_name, bins } => match (home_name, bins) {
            (Some(h), Some(b)) => Ok(
                Some(AppV { name, home_name: h, bins: b, versions: None }),
            ),
            (None, _) => Err(kw_home_name()),
            (_, None) => Err(kw_bins()),
        },
        PMode::InVer { name, home_name, bins, done, version, home_path } => match (
            version,
            home_path,
        ) {
            (Some(v), Some(hp)) => Ok(
                Some(
                    AppV {
                        name,
                        home_name,
                        bins,
                        versions: Some(done.push(VerV { version: v, home_path: hp })),
                    },
                ),
            ),
            (None, _) => Err(kw_version()),
            (_, None) => Err(kw_home_path()),
        },
    }
}

/// A closed application joins the accumulator at its sorted position.
pub open spec fn push_closed(acc: Seq<AppV>, opt: Option<AppV>) -> Seq<AppV> {
    match opt {
        None => acc,
        Some(a) => insert_app(acc, a),
    }
}

/// The dotted form of a path, for schema error reports.
pub open spec fn join_segs(segs: Seq<Seq<char>>) -> Seq<char>
    decreases segs.len(),
{
    if segs.len() == 0 {
        Seq::empty()
    } else if segs.len() == 1 {
        segs[0]
    } else {
        segs[0] + seq!['.'] + join_segs(segs.drop_first())
    }
}

/// One step of the fold: how one line changes the state, or fails.
pub open spec fn step(st: ParseSt, line: Seq<char>) -> Result<ParseSt, ParseErrV> {
    match classify(line) {
        LineV::Blank => Ok(st),
        LineV::Bad => Err(ParseErrV::Syntax),
        LineV::Header(segs) => {
            if segs.len() == 2 && segs[0] == kw_apps() {
                match close_mode(st.mode) {
                    Err(f) => Err(ParseErrV::Schema { field: f }),
                    Ok(opt) => {
                        let acc2 = push_closed(st.acc, opt);
                        if has_app(acc2, segs[1]) {
                            Err(ParseErrV::Syntax)
                        } else {
                            Ok(
                                ParseSt {
                                    acc: acc2,
                                    mode: PMode::InApp {
                                        name: segs[1],
                                        home_name: None,
                                        bins: None,
                                    },
                                },
                            )
                        }
                    },
                }
            } else {
                Err(ParseErrV::Schema { field: join_segs(segs) })
            }
        },
        LineV::ArrHeader(segs) => {
            if segs.len() == 3 && segs[0] == kw_apps() && segs[2] == kw_versions() {
                match st.mode {
                    PMode::Top => Err(ParseErrV::Schema { field: join_segs(segs) }),
                    PMode::InApp { name, home_name, bins } => {
                        if segs[1] != name {
                            Err(ParseErrV::Schema { field: join_segs(segs) })
                        } else {
                            match (home_name, bins) {
                                (Some(h), Some(b)) => Ok(
                                    ParseSt {
                                        acc: st.acc,
                                        mode: PMode::InVer {
                                            name,
                                            home_name: h,
                                            bins: b,
                                            done: Seq::empty(),
                                            version: None,
                                            home_path: None,
                                        },
                                    },
                                ),
                                (None, _) => Err(ParseErrV::Schema { field: kw_home_name() }),
                                (_, None) => Err(ParseErrV::Schema { field: kw_bins() }),
                            }
                        }
                    },
                    PMode::InVer { name, home_name, bins, done, version, home_path } => {
                        if segs[1] != name {
                            Err(ParseErrV::Schema { field: join_segs(segs) })
                        } else {
                            match (version, home_path) {
                                (Some(v), Some(hp)) => Ok(
                                    ParseSt {
                                        acc: st.acc,
                                        mode: PMode::InVer {
                                            name,
                                            home_name,
                                            bins,
                                            done: done.push(
                                                VerV { version: v, home_path: hp },
                                            ),
                                            version: None,
                                            home_path: None,
                                        },
                                    },
                                ),
                                (None, _) => Err(ParseErrV::Schema { field: kw_version() }),
                                (_, None) => Err(ParseErrV::Schema { field: kw_home_path() }),
                            }
                        }
                    },
                }
            } else {
                Err(ParseErrV::Schema { field: join_segs(segs) })
            }
        },
        LineV::Kv(key, val) => match st.mode {
            PMode::Top => Err(ParseErrV::Schema { field: key }),
            PMode::InApp { name, home_name, bins } => {
                if key == kw_home_name() {
                    match val {
                        ValV::VStr(v) => if home_name is Some {
                            Err(ParseErrV::Syntax)
                        } else {
                            Ok(
                                ParseSt {
                                    acc: st.acc,
                                    mode: PMode::InApp { name, home_name: Some(v), bins },
                                },
                            )
                        },
                        ValV::VArr(_) => Err(ParseErrV::Schema { field: key }),
                    }
                } else if key == kw_bins() {
                    match val {
                        ValV::VArr(vs) => if bins is Some {
                            Err(ParseErrV::Syntax)
                        } else {
                            Ok(
                                ParseSt {
                                    acc: st.acc,
                                    mode: PMode::InApp { name, home_name, bins: Some(vs) },
                                },
                            )
                        },
                        ValV::VStr(_) => Err(ParseErrV::Schema { field: key }),
                    }
                } else {
                    Err(ParseErrV::Schema { field: key })
                }
            },
            PMode::InVer { name, home_name, bins, done, version, home_path } => {
                if key == kw_version() {
                    match val {
                        ValV::VStr(v) => if version is Some {
                            Err(ParseErrV::Syntax)
                        } else {
                            Ok(
                                ParseSt {
                                    acc: st.acc,
                                    mode: PMode::InVer {
                                        name,
                                        home_name,
                                        bins,
                                        done,
                                        version: Some(v),
                                        home_path,
                                    },
                                },
                            )
                        },
                        ValV::VArr(_) => Err(ParseErrV::Schema { field: key }),
                    }
                } else if key == kw_home_path() {
                    match val {
                        ValV::VStr(v) => if home_path is Some {
                            Err(ParseErrV::Syntax)
                        } else {
                            Ok(
                                ParseSt {
                                    acc: st.acc,
                                    mode: PMode::InVer {
                                        name,
                                        home_name,
                                        bins,
                                        done,
                                        version,
                                        home_path: Some(v),
                                    },
                                },
                            )
                        },
                        ValV::VArr(_) => Err(ParseErrV::Schema { field: key }),
                    }
                } else {
                    Err(ParseErrV::Schema { field: key })
                }
            },
        },
    }
}

/// Fold the state machine over a sequence of lines.
pub open spec fn run_lines(st: ParseSt, lines: Seq<Seq<char>>) -> Result<ParseSt, ParseErrV>
    decreases lines.len(),
{
    if lines.len() == 0 {
        Ok(st)
    } else {
        match step(st, lines[0]) {
            Err(e) => Err(e),
            Ok(st2) => run_lines(st2, lines.drop_first()),
        }
    }
}

/// What parsing a whole document means.
pub open spec fn spec_parse(t: Seq<char>) -> Result<Seq<AppV>, ParseErrV> {
    match run_lines(ParseSt { acc: Seq::empty(), mode: PMode::Top }, split_lines(t)) {
        Err(e) => Err(e),
        Ok(st) => match close_mode(st.mode) {
            Err(f) => Err(ParseErrV::Schema { field: f }),
            Ok(opt) => Ok(push_closed(st.acc, opt)),
        },
    }
}

} // verus!
