//! Listing and installing language servers.

use crate::config::{language_named, parse_language};
use crate::detect::language::{all_languages, Language};
use crate::json::{entries_view, field, Json, JsonValue};
use crate::lsp::registry::{get_entry, servers_for};
use crate::text::{
    byte_count, byte_len, opt_view, pad_right, padded_right, str_eq, str_trim_end, trim_end,
};
use vstd::prelude::*;

verus! {

/// Row in the server list table.
#[derive(Debug)]
pub struct ServerListEntry {
    pub language: String,
    pub server_name: String,
    pub status: String,
    pub path: String,
    pub install_advice: String,
}

/// The mathematical value of a [`ServerListEntry`].
#[verifier::ext_equal]
pub struct Row {
    pub language: Seq<char>,
    pub server_name: Seq<char>,
    pub status: Seq<char>,
    pub path: Seq<char>,
    pub install_advice: Seq<char>,
}

impl View for ServerListEntry {
    type V = Row;

    open spec fn view(&self) -> Row {
        Row {
            language: self.language@,
            server_name: self.server_name@,
            status: self.status@,
            path: self.path@,
            install_advice: self.install_advice@,
        }
    }
}

/// The mathematical values of a list of rows.
pub open spec fn rows_view(v: Seq<ServerListEntry>) -> Seq<Row> {
    Seq::new(v.len(), |i: int| v[i]@)
}

/// The binary of the preferred server for the `i`-th language.
pub open spec fn preferred_binary(i: int) -> Seq<char> {
    servers_for(all_languages()[i])[0].binary_name
}

/// An earlier language has the same preferred server.
pub open spec fn is_shared(i: int) -> bool {
    exists|k: int| 0 <= k < i && #[trigger] preferred_binary(k) == preferred_binary(i)
}

/// The row of the `i`-th language, whose preferred server was found at `found`.
pub open spec fn server_row(i: int, found: Option<Seq<char>>) -> Row {
    let lang = all_languages()[i];
    let server = servers_for(lang)[0];
    Row {
        language: lang.label(),
        server_name: server.binary_name,
        status: if is_shared(i) {
            "shared"@
        } else if found is Some {
            "installed"@
        } else {
            "not installed"@
        },
        path: if is_shared(i) {
            "(shared with typescript)"@
        } else {
            match found {
                Some(p) => p,
                None => "run: krait server install "@ + lang.label(),
            }
        },
        install_advice: server.install_advice,
    }
}

/// Builds the list of all servers and their install status. `found` tells for each language where
/// its preferred server lies.
pub fn build_server_list(found: &Vec<Option<String>>) -> (r: Vec<ServerListEntry>)
    requires
        found@.len() == all_languages().len(),
    ensures
        rows_view(r@) == Seq::new(all_languages().len(), |i: int| server_row(i, opt_view(found@[i]))),
{
    let langs = Language::all();
    let mut binaries: Vec<&'static str> = Vec::new();
    let mut rows: Vec<ServerListEntry> = Vec::new();
    let mut i: usize = 0;
    while i < langs.len()
        invariant
            0 <= i <= langs@.len(),
            langs@ == all_languages(),
            found@.len() == langs@.len(),
            binaries@.len() == i,
            rows@.len() == i,
            forall|k: int| 0 <= k < i ==> (#[trigger] binaries@[k])@ == preferred_binary(k),
            forall|k: int| 0 <= k < i ==> (#[trigger] rows@[k])@ == server_row(k, opt_view(found@[k])),
        decreases langs@.len() - i,
    {
        let lang = langs[i];
        if let Some(preferred) = get_entry(lang) {
            let mut shared = false;
            let mut k: usize = 0;
            while k < binaries.len()
                invariant
                    0 <= k <= binaries@.len(),
                    binaries@.len() == i,
                    preferred.binary_name@ == preferred_binary(i as int),
                    forall|j: int| 0 <= j < i ==> (#[trigger] binaries@[j])@ == preferred_binary(j),
                    shared == exists|j: int| 0 <= j < k && #[trigger] preferred_binary(j) == preferred_binary(
                        i as int,
                    ),
                decreases binaries@.len() - k,
            {
                assert(binaries@[k as int]@ == preferred_binary(k as int));
                if str_eq(binaries[k], preferred.binary_name) {
                    shared = true;
                }
                k = k + 1;
            }
            assert(shared == is_shared(i as int));
            let row = if shared {
                ServerListEntry {
                    language: lang.name().to_string(),
                    server_name: preferred.binary_name.to_string(),
                    status: "shared".to_string(),
                    path: "(shared with typescript)".to_string(),
                    install_advice: preferred.install_advice.to_string(),
                }
            } else {
                let (status, path) = match &found[i] {
                    Some(p) => ("installed", p.clone()),
                    None => {
                        let mut advice = "run: krait server install ".to_string();
                        advice.append(lang.name());
                        ("not installed", advice)
                    },
                };
                ServerListEntry {
                    language: lang.name().to_string(),
                    server_name: preferred.binary_name.to_string(),
                    status: status.to_string(),
                    path,
                    install_advice: preferred.install_advice.to_string(),
                }
            };
            assert(row@ == server_row(i as int, opt_view(found@[i as int])));
            rows.push(row);
            binaries.push(preferred.binary_name);
        }
        i = i + 1;
    }
    assert(rows_view(rows@) =~= Seq::new(all_languages().len(), |i: int| server_row(i, opt_view(found@[i]))));
    rows
}

// ── Output ──────────────────────────────────────────────────────────────────

/// Bytes of the longest of the texts, and at least `least`.
pub open spec fn column_width(s: Seq<Seq<char>>, least: usize) -> usize
    decreases s.len(),
{
    if s.len() == 0 {
        least
    } else {
        let rest = column_width(s.drop_last(), least);
        let here = byte_len(s.last());
        if here > rest {
            here
        } else {
            rest
        }
    }
}

/// One row, its first three columns filled up to their widths.
pub open spec fn row_text(r: Row, lang_w: usize, name_w: usize, stat_w: usize) -> Seq<char> {
    pad_right(r.language, lang_w as int) + "  "@ + pad_right(r.server_name, name_w as int) + "  "@ + pad_right(
        r.status,
        stat_w as int,
    ) + "  "@ + r.path + "\n"@
}

/// All rows.
pub open spec fn rows_text(s: Seq<Row>, lang_w: usize, name_w: usize, stat_w: usize) -> Seq<char>
    decreases s.len(),
{
    if s.len() == 0 {
        Seq::empty()
    } else {
        rows_text(s.drop_last(), lang_w, name_w, stat_w) + row_text(s.last(), lang_w, name_w, stat_w)
    }
}

/// The advice for the servers that are not installed.
pub open spec fn advice_text(s: Seq<Row>) -> Seq<char>
    decreases s.len(),
{
    if s.len() == 0 {
        Seq::empty()
    } else if s.last().status == "not installed"@ {
        advice_text(s.drop_last()) + "  "@ + s.last().install_advice + "\n"@
    } else {
        advice_text(s.drop_last())
    }
}

/// Some server is not installed.
pub open spec fn some_missing(s: Seq<Row>) -> bool {
    exists|i: int| 0 <= i < s.len() && (#[trigger] s[i]).status == "not installed"@
}

/// The server list as text.
pub open spec fn list_text(s: Seq<Row>) -> Seq<char> {
    if s.len() == 0 {
        "no servers configured"@
    } else {
        let table = rows_text(
            s,
            column_width(Seq::new(s.len(), |i: int| s[i].language), 8),
            column_width(Seq::new(s.len(), |i: int| s[i].server_name), 11),
            column_width(Seq::new(s.len(), |i: int| s[i].status), 13),
        );
        trim_end(
            if some_missing(s) {
                table + "\n"@ + advice_text(s)
            } else {
                table
            },
        )
    }
}

/// Which column of a row.
#[derive(Clone, Copy, PartialEq, Eq, Structural)]
enum Column {
    Language,
    Name,
    Status,
}

spec fn column_of(s: Seq<Row>, c: Column) -> Seq<Seq<char>> {
    match c {
        Column::Language => Seq::new(s.len(), |i: int| s[i].language),
        Column::Name => Seq::new(s.len(), |i: int| s[i].server_name),
        Column::Status => Seq::new(s.len(), |i: int| s[i].status),
    }
}

fn width_of(rows: &[ServerListEntry], c: Column, least: usize) -> (r: usize)
    ensures
        r == column_width(column_of(rows_view(rows@), c), least),
{
    let ghost all = column_of(rows_view(rows@), c);
    let mut w: usize = least;
    let mut i: usize = 0;
    assert(all.take(0) =~= Seq::empty());
    while i < rows.len()
        invariant
            0 <= i <= rows@.len(),
            all == column_of(rows_view(rows@), c),
            w == column_width(all.take(i as int), least),
        decreases rows@.len() - i,
    {
        assert(all.take(i + 1).drop_last() =~= all.take(i as int));
        let n: usize = match c {
            Column::Language => byte_count(rows[i].language.as_str()),
            Column::Name => byte_count(rows[i].server_name.as_str()),
            Column::Status => byte_count(rows[i].status.as_str()),
        };
        assert(all.take(i + 1).last() == all[i as int]);
        if n > w {
            w = n;
        }
        i = i + 1;
    }
    assert(all.take(i as int) =~= all);
    w
}

/// Compact text formatter for the server list.
pub fn format_server_list(rows: &[ServerListEntry]) -> (r: String)
    ensures
        r@ == list_text(rows_view(rows@)),
{
    let ghost all = rows_view(rows@);
    if rows.len() == 0 {
        return "no servers configured".to_string();
    }
    let lang_w: usize = width_of(rows, Column::Language, 8);
    let name_w: usize = width_of(rows, Column::Name, 11);
    let stat_w: usize = width_of(rows, Column::Status, 13);
    let mut out = String::new();
    let mut advice = String::new();
    let mut missing = false;
    let mut i: usize = 0;
    assert(all.take(0) =~= Seq::empty());
    while i < rows.len()
        invariant
            0 <= i <= rows@.len(),
            all == rows_view(rows@),
            out@ == rows_text(all.take(i as int), lang_w, name_w, stat_w),
            advice@ == advice_text(all.take(i as int)),
            missing == exists|k: int| 0 <= k < i && (#[trigger] all[k]).status == "not installed"@,
        decreases rows@.len() - i,
    {
        let row = &rows[i];
        assert(all.take(i + 1).drop_last() =~= all.take(i as int));
        assert(all.take(i + 1).last() == row@);
        assert(all[i as int] == row@);
        out.append(format_row(row, lang_w, name_w, stat_w).as_str());
        if str_eq(row.status.as_str(), "not installed") {
            missing = true;
            advice.append("  ");
            advice.append(row.install_advice.as_str());
            advice.append("\n");
        }
        i = i + 1;
    }
    assert(all.take(i as int) =~= all);
    if missing {
        out.append("\n");
        out.append(advice.as_str());
    }
    str_trim_end(out.as_str())
}

fn format_row(row: &ServerListEntry, lang_w: usize, name_w: usize, stat_w: usize) -> (r: String)
    ensures
        r@ == row_text(row@, lang_w, name_w, stat_w),
{
    let mut line = padded_right(row.language.as_str(), lang_w);
    line.append("  ");
    line.append(padded_right(row.server_name.as_str(), name_w).as_str());
    line.append("  ");
    line.append(padded_right(row.status.as_str(), stat_w).as_str());
    line.append("  ");
    line.append(row.path.as_str());
    line.append("\n");
    line
}

/// The row that a JSON value describes, where it has all that a row needs.
pub open spec fn row_of_json(v: Json) -> Option<Row> {
    match (v.get("language"@), v.get("server_name"@), v.get("status"@), v.get("path"@)) {
        (Some(Json::Str(language)), Some(Json::Str(server_name)), Some(Json::Str(status)), Some(Json::Str(path))) => Some(
            Row { language, server_name, status, path, install_advice: v.str_or("install_advice"@, ""@) },
        ),
        _ => None,
    }
}

/// The rows that JSON values describe.
pub open spec fn rows_of_json(items: Seq<Json>) -> Seq<Row>
    decreases items.len(),
{
    if items.len() == 0 {
        Seq::empty()
    } else {
        match row_of_json(items.last()) {
            Some(r) => rows_of_json(items.drop_last()).push(r),
            None => rows_of_json(items.drop_last()),
        }
    }
}

fn get_text(v: &JsonValue, key: &str) -> (r: Option<String>)
    ensures
        match r {
            Some(s) => v@.get(key@) == Some(Json::Str(s@)),
            None => !(v@.get(key@) is Some && v@.get(key@)->0 is Str),
        },
{
    match v.get(key) {
        Some(x) => match x.as_str() {
            Some(s) => Some(s.to_string()),
            None => None,
        },
        None => None,
    }
}

/// Formats a JSON server list for compact output; items that are no rows are left out.
pub fn format_server_list_json(items: &Vec<JsonValue>) -> (r: String)
    ensures
        r@ == list_text(rows_of_json(crate::json::jsons(items@))),
{
    let ghost all = crate::json::jsons(items@);
    let mut rows: Vec<ServerListEntry> = Vec::new();
    let mut i: usize = 0;
    assert(all.take(0) =~= Seq::empty());
    assert(rows_view(rows@) =~= Seq::empty());
    while i < items.len()
        invariant
            0 <= i <= items@.len(),
            all == crate::json::jsons(items@),
            rows_view(rows@) == rows_of_json(all.take(i as int)),
        decreases items@.len() - i,
    {
        let v = &items[i];
        assert(all.take(i + 1).drop_last() =~= all.take(i as int));
        assert(all.take(i + 1).last() == v@);
        let language = get_text(v, "language");
        let server_name = get_text(v, "server_name");
        let status = get_text(v, "status");
        let path = get_text(v, "path");
        if let Some(language) = language {
            if let Some(server_name) = server_name {
                if let Some(status) = status {
                    if let Some(path) = path {
                        let ghost before = rows_view(rows@);
                        let row = ServerListEntry {
                            language,
                            server_name,
                            status,
                            path,
                            install_advice: v.str_or("install_advice", ""),
                        };
                        let ghost rv = row@;
                        rows.push(row);
                        assert(rows_view(rows@) =~= before.push(rv));
                    }
                }
            }
        }
        i = i + 1;
    }
    assert(all.take(i as int) =~= all);
    format_server_list(rows.as_slice())
}

// ── Installing ──────────────────────────────────────────────────────────────

/// The languages whose servers are to be installed: the one that is named, or all.
///
/// `Err` holds the message for a name that is no language.
pub fn install_targets(lang: Option<&str>) -> (r: Result<Vec<Language>, String>)
    ensures
        match lang {
            Some(name) => match language_named(name@) {
                Some(l) => r matches Ok(v) && v@ == seq![l],
                None => r matches Err(m) && m@ == "unknown language: "@ + name@,
            },
            None => r matches Ok(v) && v@ == all_languages(),
        },
{
    match lang {
        Some(name) => match parse_language(name) {
            Some(l) => {
                let v = vec![l];
                assert(v@ =~= seq![l]);
                Ok(v)
            },
            None => {
                let mut m = "unknown language: ".to_string();
                m.append(name);
                Err(m)
            },
        },
        None => Ok(Language::all()),
    }
}

/// What to do about a server that is to be installed.
#[derive(Debug, Clone, Copy, PartialEq, Eq, Structural)]
pub enum InstallAction {
    /// Nothing: it is there, and all are being installed.
    Skip,
    /// Say that it is there.
    ReportInstalled,
    /// Download it, after deleting the managed binary where `replace` says so.
    Download { replace: bool },
}

/// Decides what to do about a server that was found or not. A server that is there is installed
/// again only on demand.
pub fn install_action(found: bool, reinstall: bool, named: bool) -> (r: InstallAction)
    ensures
        r == if reinstall {
            InstallAction::Download { replace: true }
        } else if !found {
            InstallAction::Download { replace: false }
        } else if named {
            InstallAction::ReportInstalled
        } else {
            InstallAction::Skip
        },
{
    if reinstall {
        InstallAction::Download { replace: true }
    } else if !found {
        InstallAction::Download { replace: false }
    } else if named {
        InstallAction::ReportInstalled
    } else {
        InstallAction::Skip
    }
}

/// Says that a server is there already.
pub fn already_installed_text(binary_name: &str, path: &str) -> (r: String)
    ensures
        r@ == binary_name@ + " already installed at "@ + path@,
{
    let mut m = binary_name.to_string();
    m.append(" already installed at ");
    m.append(path);
    m
}

/// Tells in JSON that a server is there already.
pub fn already_installed_json(language: Language, binary_name: &str, path: &str) -> (r: JsonValue)
    ensures
        r@ == Json::Obj(
            seq![
                ("language"@, Json::Str(language.label())),
                ("server_name"@, Json::Str(binary_name@)),
                ("status"@, Json::Str("already_installed"@)),
                ("path"@, Json::Str(path@)),
            ],
        ),
{
    let fields = vec![
        field("language", JsonValue::str(language.name())),
        field("server_name", JsonValue::str(binary_name)),
        field("status", JsonValue::str("already_installed")),
        field("path", JsonValue::str(path)),
    ];
    assert(entries_view(fields@) =~= seq![
        ("language"@, Json::Str(language.label())),
        ("server_name"@, Json::Str(binary_name@)),
        ("status"@, Json::Str("already_installed"@)),
        ("path"@, Json::Str(path@)),
    ]);
    JsonValue::object(fields)
}

/// Tells in JSON that a server was installed.
pub fn installed_json(language: Language, binary_name: &str, path: &str) -> (r: JsonValue)
    ensures
        r@ == Json::Obj(
            seq![
                ("installed"@, Json::Str(binary_name@)),
                ("language"@, Json::Str(language.label())),
                ("path"@, Json::Str(path@)),
            ],
        ),
{
    let fields = vec![
        field("installed", JsonValue::str(binary_name)),
        field("language", JsonValue::str(language.name())),
        field("path", JsonValue::str(path)),
    ];
    assert(entries_view(fields@) =~= seq![
        ("installed"@, Json::Str(binary_name@)),
        ("language"@, Json::Str(language.label())),
        ("path"@, Json::Str(path@)),
    ]);
    JsonValue::object(fields)
}

/// Tells in JSON that the managed servers were removed.
pub fn cleaned_json(path: &str, bytes: u64) -> (r: JsonValue)
    ensures
        r@ == Json::Obj(
            seq![
                ("cleaned"@, Json::Bool(true)),
                ("path"@, Json::Str(path@)),
                ("bytes_freed"@, Json::Int(bytes as int)),
            ],
        ),
{
    let fields = vec![
        field("cleaned", JsonValue::Bool(true)),
        field("path", JsonValue::str(path)),
        field("bytes_freed", JsonValue::UInt(bytes)),
    ];
    assert(entries_view(fields@) =~= seq![
        ("cleaned"@, Json::Bool(true)),
        ("path"@, Json::Str(path@)),
        ("bytes_freed"@, Json::Int(bytes as int)),
    ]);
    JsonValue::object(fields)
}

/// Each row is shown on a line of its own, in order, its columns filled up to their widths.
pub proof fn all_rows_are_shown(s: Seq<Row>, lang_w: usize, name_w: usize, stat_w: usize)
    ensures
        rows_text(s, lang_w, name_w, stat_w) == s.map_values(|r: Row|
            pad_right(r.language, lang_w as int) + "  "@ + pad_right(r.server_name, name_w as int) + "  "@ + pad_right(r.status, stat_w as int) + "  "@ + r.path + "\n"@).flatten_alt(),
    decreases s.len(),
{
    let f = |r: Row|
            pad_right(r.language, lang_w as int) + "  "@ + pad_right(r.server_name, name_w as int) + "  "@ + pad_right(r.status, stat_w as int) + "  "@ + r.path + "\n"@;
    let all = s.map_values(f);
    if s.len() > 0 {
        all_rows_are_shown(s.drop_last(), lang_w, name_w, stat_w);
        assert(all.drop_last() =~= s.drop_last().map_values(f));
        assert(all.last() == f(s.last()));
        assert(rows_text(s, lang_w, name_w, stat_w) =~= all.flatten_alt());
    } else {
        assert(all.flatten_alt() =~= Seq::<char>::empty());
    }
}

/// Each value that has all that a row needs is read as a row, in order, and no other.
pub proof fn rows_are_read_from_their_values(items: Seq<Json>)
    ensures
        rows_of_json(items) == items.filter(|v: Json| row_of_json(v) is Some).map_values(|v: Json| row_of_json(v)->Some_0),
    decreases items.len(),
{
    reveal(Seq::filter);
    let p = |v: Json| row_of_json(v) is Some;
    let make = |v: Json| row_of_json(v)->Some_0;
    if items.len() > 0 {
        rows_are_read_from_their_values(items.drop_last());
        let rest = items.drop_last().filter(p);
        if p(items.last()) {
            assert(rest.push(items.last()).map_values(make) =~= rest.map_values(make).push(make(items.last())));
        }
    } else {
        assert(items.filter(p).map_values(make) =~= Seq::empty());
    }
}

/// The advice tells how to install each server that is missing, in order, and no other.
pub proof fn missing_servers_get_advice(s: Seq<Row>)
    ensures
        advice_text(s) == s.filter(|r: Row| r.status == "not installed"@).map_values(
            |r: Row| "  "@ + r.install_advice + "\n"@,
        ).flatten_alt(),
    decreases s.len(),
{
    reveal(Seq::filter);
    let p = |r: Row| r.status == "not installed"@;
    let f = |r: Row| "  "@ + r.install_advice + "\n"@;
    if s.len() > 0 {
        missing_servers_get_advice(s.drop_last());
        let rest = s.drop_last().filter(p);
        if p(s.last()) {
            let all = rest.push(s.last()).map_values(f);
            assert(all.drop_last() =~= rest.map_values(f));
            assert(all.last() == f(s.last()));
            assert(advice_text(s) =~= all.flatten_alt());
        }
    } else {
        assert(s.filter(p).map_values(f).flatten_alt() =~= Seq::<char>::empty());
    }
}

/// A column is as wide as the longest of its texts, and at least as wide as is asked.
pub proof fn column_holds_all(s: Seq<Seq<char>>, least: usize)
    ensures
        column_width(s, least) >= least,
        forall|i: int| 0 <= i < s.len() ==> byte_len(#[trigger] s[i]) <= column_width(s, least),
        column_width(s, least) == least || exists|i: int|
            0 <= i < s.len() && byte_len(#[trigger] s[i]) == column_width(s, least),
    decreases s.len(),
{
    if s.len() > 0 {
        let init = s.drop_last();
        column_holds_all(init, least);
        assert(s[s.len() - 1] == s.last());
        assert forall|i: int| 0 <= i < s.len() implies byte_len(#[trigger] s[i]) <= column_width(s, least) by {
            if i < init.len() {
                assert(init[i] == s[i]);
            }
        }
        if byte_len(s.last()) <= column_width(init, least) && column_width(init, least) != least {
            let k = choose|i: int| 0 <= i < init.len() && byte_len(#[trigger] init[i]) == column_width(init, least);
            assert(s[k] == init[k]);
        }
    }
}

/// A language's server is shown as installed at the place where it was found, and else as not installed with the
/// way to install it; one that an earlier language has already is shown as shared.
pub proof fn row_tells_of_its_server(i: int, found: Option<Seq<char>>)
    requires
        0 <= i < all_languages().len(),
    ensures
        server_row(i, found).language == all_languages()[i].label(),
        server_row(i, found).server_name == servers_for(all_languages()[i])[0].binary_name,
        !is_shared(i) && found is Some ==> server_row(i, found).status == "installed"@ && server_row(i, found).path
            == found->Some_0,
        !is_shared(i) && found is None ==> server_row(i, found).status == "not installed"@,
        is_shared(i) ==> server_row(i, found).status == "shared"@,
{
}

} // verus!
