//! Finding symbols, references and implementations.

use crate::commands::list::{entries, height, height_of_item, Entry, SymbolEntry};
use crate::commands::search::{lines_between, Hit, SearchOptions, SearchOutput};
use crate::commands::workspace_edit::{uri_path, uri_to_path};
use crate::commands::hover::{position_fields, position_json};
use crate::json::{entries_view, field, jsons, Json, JsonValue};
use crate::lang::go::{base, base_name};
use crate::paths::{
    is_absolute, joined, joined_is_shown, names, names_behind, path_join, relative_or_self, relative_to,
};
use crate::sorting::{is_order, rank, seen, sort, sorted_by, sorting_is_stable, Ranked};
use crate::text::{
    char_is_space, chars_of, contains, ends_with, eq_no_case, find, find_chars, find_is_first, is_space, join,
    join_strings, lex_is_order, lex_lt, lines, matches_at, occurs_at, opt_view, split_lines, starts_with,
    str_contains, str_ends_with, str_eq, str_eq_no_case, str_lt, str_starts_with, str_trim, str_trim_end,
    str_trim_start, string_of, trim, trim_end, trim_start, utf16_column, utf16_len, utf16_len_mono, views,
};
use vstd::prelude::*;

verus! {

// ── Results ─────────────────────────────────────────────────────────────────

/// Result of a symbol search.
pub struct SymbolMatch {
    pub path: String,
    pub line: u32,
    pub kind: String,
    pub preview: String,
    /// Full symbol body, where it was asked for.
    pub body: Option<String>,
}

/// The mathematical value of a [`SymbolMatch`].
#[verifier::ext_equal]
pub struct Found {
    pub path: Seq<char>,
    pub line: u32,
    pub kind: Seq<char>,
    pub preview: Seq<char>,
    pub body: Option<Seq<char>>,
}

impl View for SymbolMatch {
    type V = Found;

    open spec fn view(&self) -> Found {
        Found {
            path: self.path@,
            line: self.line,
            kind: self.kind@,
            preview: self.preview@,
            body: opt_view(self.body),
        }
    }
}

/// The function or class that contains a reference site.
pub struct ContainingSymbol {
    pub name: String,
    pub kind: String,
    pub line: u32,
}

/// The mathematical value of a [`ContainingSymbol`].
#[verifier::ext_equal]
pub struct Container {
    pub name: Seq<char>,
    pub kind: Seq<char>,
    pub line: u32,
}

impl View for ContainingSymbol {
    type V = Container;

    open spec fn view(&self) -> Container {
        Container { name: self.name@, kind: self.kind@, line: self.line }
    }
}

/// Result of a reference search.
pub struct ReferenceMatch {
    pub path: String,
    pub line: u32,
    pub preview: String,
    pub is_definition: bool,
    /// Set where the containing symbol was asked for.
    pub containing_symbol: Option<ContainingSymbol>,
}

/// The mathematical value of a [`ReferenceMatch`].
#[verifier::ext_equal]
pub struct Reference {
    pub path: Seq<char>,
    pub line: u32,
    pub preview: Seq<char>,
    pub is_definition: bool,
    pub containing_symbol: Option<Container>,
}

impl View for ReferenceMatch {
    type V = Reference;

    open spec fn view(&self) -> Reference {
        Reference {
            path: self.path@,
            line: self.line,
            preview: self.preview@,
            is_definition: self.is_definition,
            containing_symbol: match self.containing_symbol {
                Some(c) => Some(c@),
                None => None,
            },
        }
    }
}

/// Symbols stand by path and then by line.
pub open spec fn found_before(a: Found, b: Found) -> bool {
    lex_lt(a.path, b.path) || (a.path == b.path && a.line < b.line)
}

/// Definitions stand first; otherwise references stand by path and then by line.
pub open spec fn reference_before(a: Reference, b: Reference) -> bool {
    if a.is_definition != b.is_definition {
        a.is_definition
    } else {
        lex_lt(a.path, b.path) || (a.path == b.path && a.line < b.line)
    }
}

impl Ranked for SymbolMatch {
    open spec fn before(a: Found, b: Found) -> bool {
        found_before(a, b)
    }

    fn is_before(&self, other: &SymbolMatch) -> (r: bool) {
        str_lt(self.path.as_str(), other.path.as_str()) || (self.path == other.path && self.line < other.line)
    }
}

impl Ranked for ReferenceMatch {
    open spec fn before(a: Reference, b: Reference) -> bool {
        reference_before(a, b)
    }

    fn is_before(&self, other: &ReferenceMatch) -> (r: bool) {
        if self.is_definition != other.is_definition {
            self.is_definition
        } else {
            str_lt(self.path.as_str(), other.path.as_str()) || (self.path == other.path && self.line < other.line)
        }
    }
}

/// Path and line put symbols in a strict weak order.
pub proof fn found_order()
    ensures
        is_order(rank::<SymbolMatch>()),
{
    let lt = rank::<SymbolMatch>();
    assert forall|a: Found, b: Found| #[trigger] lt(a, b) implies !lt(b, a) by {
        lex_is_order(a.path, b.path, a.path);
    }
    assert forall|a: Found, b: Found, c: Found|
        #![trigger lt(a, b), lt(b, c)]
        #![trigger lt(a, b), lt(a, c)]
        #![trigger lt(b, c), lt(a, c)]
        !lt(a, b) && !lt(b, c) implies !lt(a, c) by {
        lex_is_order(a.path, b.path, c.path);
        lex_is_order(b.path, a.path, c.path);
        lex_is_order(b.path, c.path, a.path);
        lex_is_order(c.path, a.path, b.path);
        lex_is_order(c.path, b.path, a.path);
        lex_is_order(a.path, c.path, b.path);
    }
}

/// Being a definition, path and line put references in a strict weak order.
pub proof fn reference_order()
    ensures
        is_order(rank::<ReferenceMatch>()),
{
    let lt = rank::<ReferenceMatch>();
    assert forall|a: Reference, b: Reference| #[trigger] lt(a, b) implies !lt(b, a) by {
        lex_is_order(a.path, b.path, a.path);
    }
    assert forall|a: Reference, b: Reference, c: Reference|
        #![trigger lt(a, b), lt(b, c)]
        #![trigger lt(a, b), lt(a, c)]
        #![trigger lt(b, c), lt(a, c)]
        !lt(a, b) && !lt(b, c) implies !lt(a, c) by {
        lex_is_order(a.path, b.path, c.path);
        lex_is_order(b.path, a.path, c.path);
        lex_is_order(b.path, c.path, a.path);
        lex_is_order(c.path, a.path, b.path);
        lex_is_order(c.path, b.path, a.path);
        lex_is_order(a.path, c.path, b.path);
    }
}

// ── Previews ────────────────────────────────────────────────────────────────

/// Symbols with the lines of their files as previews.
pub open spec fn with_previews(s: Seq<Found>, contents: Seq<Option<Seq<char>>>) -> Seq<Found> {
    Seq::new(s.len(), |i: int| Found { preview: line_text(contents[i], s[i].line), ..s[i] })
}

/// References with the lines of their files as previews.
pub open spec fn with_reference_previews(s: Seq<Reference>, contents: Seq<Option<Seq<char>>>) -> Seq<Reference> {
    Seq::new(s.len(), |i: int| Reference { preview: line_text(contents[i], s[i].line), ..s[i] })
}

/// The views of optional texts.
pub open spec fn opt_views(v: Seq<Option<String>>) -> Seq<Option<Seq<char>>> {
    Seq::new(v.len(), |i: int| opt_view(v[i]))
}

fn preview_line(content: &Option<String>, line: u32) -> (r: String)
    ensures
        r@ == line_text(opt_view(*content), line),
{
    match content {
        Some(c) => read_line_preview(Some(c.as_str()), line),
        None => read_line_preview(None, line),
    }
}

/// Fills in the previews of symbols. `contents` are the texts of their files, where they can be
/// read, in the order of the symbols.
pub fn fill_previews(symbols: Vec<SymbolMatch>, contents: &Vec<Option<String>>) -> (r: Vec<SymbolMatch>)
    requires
        symbols@.len() == contents@.len(),
    ensures
        seen(r@) == with_previews(seen(symbols@), opt_views(contents@)),
{
    let ghost all = seen(symbols@);
    let ghost texts = opt_views(contents@);
    let ghost want = with_previews(all, texts);
    let total: usize = symbols.len();
    let mut out: Vec<SymbolMatch> = Vec::new();
    let mut i: usize = 0;
    assert(seen(out@) =~= want.take(0));
    for s in it: symbols
        invariant
            it.seq() == symbols@,
            i == it.index(),
            all == seen(it.seq()),
            total == all.len() == contents@.len(),
            texts == opt_views(contents@),
            want == with_previews(all, texts),
            seen(out@) == want.take(i as int),
    {
        let ghost sv = s@;
        assert(all[i as int] == sv);
        let preview = preview_line(&contents[i], s.line);
        let m = SymbolMatch { path: s.path, line: s.line, kind: s.kind, preview, body: s.body };
        let ghost mv = m@;
        let ghost before = seen(out@);
        out.push(m);
        assert(seen(out@) =~= before.push(mv));
        assert(mv == want[i as int]);
        assert(want.take(i + 1) =~= want.take(i as int).push(mv));
        i = i + 1;
    }
    assert(want.take(want.len() as int) =~= want);
    out
}

/// Fills in the previews of references. `contents` are the texts of their files, where they can be
/// read, in the order of the references.
pub fn fill_reference_previews(refs: Vec<ReferenceMatch>, contents: &Vec<Option<String>>) -> (r: Vec<ReferenceMatch>)
    requires
        refs@.len() == contents@.len(),
    ensures
        seen(r@) == with_reference_previews(seen(refs@), opt_views(contents@)),
{
    let ghost all = seen(refs@);
    let ghost texts = opt_views(contents@);
    let ghost want = with_reference_previews(all, texts);
    let total: usize = refs.len();
    let mut out: Vec<ReferenceMatch> = Vec::new();
    let mut i: usize = 0;
    assert(seen(out@) =~= want.take(0));
    for s in it: refs
        invariant
            it.seq() == refs@,
            i == it.index(),
            all == seen(it.seq()),
            total == all.len() == contents@.len(),
            texts == opt_views(contents@),
            want == with_reference_previews(all, texts),
            seen(out@) == want.take(i as int),
    {
        let ghost sv = s@;
        assert(all[i as int] == sv);
        let preview = preview_line(&contents[i], s.line);
        let m = ReferenceMatch {
            path: s.path,
            line: s.line,
            preview,
            is_definition: s.is_definition,
            containing_symbol: s.containing_symbol,
        };
        let ghost mv = m@;
        let ghost before = seen(out@);
        out.push(m);
        assert(seen(out@) =~= before.push(mv));
        assert(mv == want[i as int]);
        assert(want.take(i + 1) =~= want.take(i as int).push(mv));
        i = i + 1;
    }
    assert(want.take(want.len() as int) =~= want);
    out
}

// ── Requests ────────────────────────────────────────────────────────────────

/// Builds the parameters that ask for symbols by name.
pub fn query_params(name: &str) -> (r: JsonValue)
    ensures
        r@ == Json::Obj(seq![("query"@, Json::Str(name@))]),
{
    let fields = vec![field("query", JsonValue::str(name))];
    assert(entries_view(fields@) =~= seq![("query"@, Json::Str(name@))]);
    JsonValue::object(fields)
}

/// Builds the parameters that ask for the references to what stands at a position, its declaration
/// among them.
pub fn references_params(uri: &str, line: u32, character: u32) -> (r: JsonValue)
    ensures
        r@ == Json::Obj(
            position_json(uri@, line, character)->Obj_0.push(
                ("context"@, Json::Obj(seq![("includeDeclaration"@, Json::Bool(true))])),
            ),
        ),
{
    let context = vec![field("includeDeclaration", JsonValue::Bool(true))];
    assert(entries_view(context@) =~= seq![("includeDeclaration"@, Json::Bool(true))]);
    let mut fields = position_fields(uri, line, character);
    let ghost before = entries_view(fields@);
    let f = field("context", JsonValue::object(context));
    let ghost fv = (f.0@, f.1@);
    fields.push(f);
    assert(entries_view(fields@) =~= before.push(fv));
    JsonValue::object(fields)
}

/// The first of the symbols that were found, or the message that there is none.
pub fn first_symbol<'a>(name: &str, symbols: &'a Vec<SymbolMatch>) -> (r: Result<&'a SymbolMatch, String>)
    ensures
        match r {
            Ok(s) => symbols@.len() > 0 && *s == symbols@[0],
            Err(m) => symbols@.len() == 0 && m@ == "symbol '"@ + name@ + "' not found"@,
        },
{
    if symbols.len() == 0 {
        let mut m = "symbol '".to_string();
        m.append(name);
        m.append("' not found");
        return Err(m);
    }
    Ok(&symbols[0])
}

/// Resolves where a found symbol is: its file below the project root, and the position of its name
/// in that file's text.
pub fn resolve_symbol_location(name: &str, symbol: &SymbolMatch, content: Option<&str>, project_root: &str) -> (r: (
    String,
    u32,
    u32,
))
    ensures
        r.0@ == joined(project_root@, symbol.path@),
        (r.1, r.2) == name_position(opt_str(content), symbol.line, name@),
{
    let (line, character) = find_name_position(content, symbol.line, name);
    (path_join(project_root, symbol.path.as_str()), line, character)
}

// ── Kinds ───────────────────────────────────────────────────────────────────

/// A line of the protocol, counted from 0, as it is shown: counted from 1, in 32 bits.
pub open spec fn one_based(n: u64) -> u32 {
    (n as u32).wrapping_add(1)
}

/// The name of a symbol kind of the protocol.
pub open spec fn kind_name(kind: u64) -> Seq<char> {
    match kind {
        1 => "file"@,
        2 => "module"@,
        3 => "namespace"@,
        4 => "package"@,
        5 => "class"@,
        6 => "method"@,
        7 => "property"@,
        8 => "field"@,
        9 => "constructor"@,
        10 => "enum"@,
        11 => "interface"@,
        12 => "function"@,
        13 => "variable"@,
        14 => "constant"@,
        15 => "string"@,
        16 => "number"@,
        17 => "boolean"@,
        18 => "array"@,
        19 => "object"@,
        20 => "key"@,
        21 => "null"@,
        22 => "enum_member"@,
        23 => "struct"@,
        24 => "event"@,
        25 => "operator"@,
        26 => "type_parameter"@,
        _ => "unknown"@,
    }
}

/// Maps the protocol's symbol kinds to human-readable names.
pub fn symbol_kind_name(kind: u64) -> (r: &'static str)
    ensures
        r@ == kind_name(kind),
{
    match kind {
        1 => "file",
        2 => "module",
        3 => "namespace",
        4 => "package",
        5 => "class",
        6 => "method",
        7 => "property",
        8 => "field",
        9 => "constructor",
        10 => "enum",
        11 => "interface",
        12 => "function",
        13 => "variable",
        14 => "constant",
        15 => "string",
        16 => "number",
        17 => "boolean",
        18 => "array",
        19 => "object",
        20 => "key",
        21 => "null",
        22 => "enum_member",
        23 => "struct",
        24 => "event",
        25 => "operator",
        26 => "type_parameter",
        _ => "unknown",
    }
}

// ── Locations ───────────────────────────────────────────────────────────────

/// The line under `range`, `start` and `line` as it is shown.
pub open spec fn shown_start(item: Option<Json>) -> u32 {
    one_based(
        match item {
            Some(v) => match v.as_u64() {
                Some(n) => n,
                None => 0,
            },
            None => 0,
        },
    )
}

fn read_shown_start(item: Option<&JsonValue>) -> (r: u32)
    ensures
        r == shown_start(
            match item {
                Some(v) => Some(v@),
                None => None,
            },
        ),
{
    let n: u64 = match item {
        Some(v) => match v.as_u64() {
            Some(n) => n,
            None => 0,
        },
        None => 0,
    };
    (n as u32).wrapping_add(1)
}

/// The string of an optional value, or no text.
pub open spec fn text_or_none(v: Option<Json>) -> Seq<char> {
    match v {
        Some(Json::Str(s)) => s,
        _ => Seq::empty(),
    }
}

fn read_text(v: Option<&JsonValue>) -> (r: String)
    ensures
        r@ == text_or_none(
            match v {
                Some(x) => Some(x@),
                None => None,
            },
        ),
{
    match v {
        Some(x) => match x.as_str() {
            Some(s) => s.to_string(),
            None => String::new(),
        },
        None => String::new(),
    }
}

/// The file of a URI, relative to the project where it lies in it.
pub open spec fn uri_relative(uri: Seq<char>, root: Seq<char>) -> Seq<char> {
    relative_or_self(uri_path(uri), root)
}

/// The file of a URI, relative to the project where it lies in it.
pub fn uri_to_relative_path(uri: &str, project_root: &str) -> (r: String)
    ensures
        r@ == uri_relative(uri@, project_root@),
{
    let path = uri_to_path(uri);
    relative_to(path.as_str(), project_root)
}

/// The trimmed text of line `line`, counted from 1, or nothing where the file could not be read or
/// has no such line.
pub open spec fn line_text(content: Option<Seq<char>>, line: u32) -> Seq<char> {
    let i = if line > 0 {
        line - 1
    } else {
        0
    };
    match content {
        Some(c) => if i < lines(c).len() {
            trim(lines(c)[i])
        } else {
            Seq::empty()
        },
        None => Seq::empty(),
    }
}

/// The view of optional text.
pub open spec fn opt_str(o: Option<&str>) -> Option<Seq<char>> {
    match o {
        Some(s) => Some(s@),
        None => None,
    }
}

/// Reads a line of a file for display. `content` is the text of the file, where it could be read.
pub fn read_line_preview(content: Option<&str>, line: u32) -> (r: String)
    ensures
        r@ == line_text(opt_str(content), line),
{
    match content {
        Some(c) => {
            let ls = split_lines(c);
            let i: usize = line.saturating_sub(1) as usize;
            assert(views(ls@).len() == ls@.len());
            if i < ls.len() {
                assert(views(ls@)[i as int] == ls@[i as int]@);
                str_trim(ls[i].as_str())
            } else {
                String::new()
            }
        },
        None => String::new(),
    }
}

/// A character that names are made of. All characters beyond ASCII count as such.
pub open spec fn is_name_char(c: char) -> bool {
    ('a' <= c && c <= 'z') || ('A' <= c && c <= 'Z') || ('0' <= c && c <= '9') || c == '_' || c == '$' || c as u32
        >= 0x80
}

/// `name` stands at position `i` of `s` as a name of its own or, where `whole` does not hold, at the
/// start of one.
pub open spec fn is_name_at(s: Seq<char>, name: Seq<char>, i: int, whole: bool) -> bool {
    &&& occurs_at(s, name, i)
    &&& i == 0 || !is_name_char(s[i - 1])
    &&& !whole || i + name.len() == s.len() || !is_name_char(s[i + name.len()])
}

/// The first position from `i` on at which `name` stands as a name of its own, or at the start of
/// one.
pub open spec fn name_from(s: Seq<char>, name: Seq<char>, i: int, whole: bool) -> Option<int>
    decreases s.len() - i + 1,
{
    if i + name.len() > s.len() {
        None
    } else if is_name_at(s, name, i, whole) {
        Some(i)
    } else {
        name_from(s, name, i + 1, whole)
    }
}

/// Where `name` stands on line `from` or one of the next `left - 1` lines: the line and the column,
/// in UTF-16 units, both counted from 0.
pub open spec fn name_near(ls: Seq<Seq<char>>, from: int, left: int, name: Seq<char>, whole: bool) -> Option<(int, int)>
    decreases left,
{
    if left <= 0 || from >= ls.len() {
        None
    } else {
        match name_from(ls[from], name, 0, whole) {
            Some(i) => Some((from, utf16_len(ls[from].take(i)))),
            None => name_near(ls, from + 1, left - 1, name, whole),
        }
    }
}

/// Where a name stands that was reported on `line`, counted from 1: on that line or one of the three
/// below it, as a name of its own or else, where it stands so on none of them, at the start of one;
/// otherwise at the start of the line.
pub open spec fn name_position(content: Option<Seq<char>>, line: u32, name: Seq<char>) -> (u32, u32) {
    let start = if line > 0 {
        line - 1
    } else {
        0
    };
    match content {
        Some(c) => match name_near(lines(c), start, 4, name, true) {
            Some((l, col)) => (l as u32, col as u32),
            None => match name_near(lines(c), start, 4, name, false) {
                Some((l, col)) => (l as u32, col as u32),
                None => (start as u32, 0),
            },
        },
        None => (start as u32, 0),
    }
}

fn char_is_name(c: char) -> (r: bool)
    ensures
        r == is_name_char(c),
{
    ('a' <= c && c <= 'z') || ('A' <= c && c <= 'Z') || ('0' <= c && c <= '9') || c == '_' || c == '$' || c as u32
        >= 0x80
}

fn find_name(v: &Vec<char>, name: &Vec<char>, whole: bool) -> (r: Option<usize>)
    ensures
        match r {
            Some(i) => i <= v@.len() && name_from(v@, name@, 0, whole) == Some(i as int),
            None => name_from(v@, name@, 0, whole) is None,
        },
{
    let n: usize = v.len();
    let k: usize = name.len();
    if k > n {
        return None;
    }
    let mut i: usize = 0;
    while i <= n - k
        invariant
            n == v@.len(),
            k == name@.len(),
            k <= n,
            0 <= i <= n - k + 1,
            name_from(v@, name@, 0, whole) == name_from(v@, name@, i as int, whole),
        decreases n - i,
    {
        if matches_at(v, name, i) && (i == 0 || !char_is_name(v[i - 1])) && (!whole || i == n - k || !char_is_name(
            v[i + k],
        )) {
            return Some(i);
        }
        if i == n - k {
            assert(name_from(v@, name@, i + 1, whole) is None);
            return None;
        }
        i = i + 1;
    }
    None
}

fn find_name_near(ls: &Vec<String>, start: usize, name: &Vec<char>, whole: bool) -> (r: Option<(u32, u32)>)
    ensures
        match name_near(views(ls@), start as int, 4, name@, whole) {
            Some((l, col)) => r == Some((l as u32, col as u32)),
            None => r is None,
        },
{
    let ghost all = views(ls@);
    assert(all.len() == ls@.len());
    let n: usize = ls.len();
    let mut offset: usize = 0;
    while offset < 4
        invariant
            0 <= offset <= 4,
            n == ls@.len(),
            all == views(ls@),
            all.len() == n,
            name_near(all, start as int, 4, name@, whole) == name_near(
                all,
                start + offset,
                4 - offset,
                name@,
                whole,
            ),
        decreases 4 - offset,
    {
        if start >= n || offset >= n - start {
            return None;
        }
        let idx: usize = start + offset;
        let v = chars_of(ls[idx].as_str());
        assert(v@ == all[idx as int]);
        if let Some(i) = find_name(&v, name, whole) {
            return Some((idx as u32, utf16_column(&v, i)));
        }
        offset = offset + 1;
    }
    None
}

/// Finds the line and character offset, in UTF-16 units, of a name near the reported line.
///
/// Language servers sometimes report the line of a decorator instead of the name's own. A name inside
/// another one is not meant.
pub fn find_name_position(content: Option<&str>, line: u32, name: &str) -> (r: (u32, u32))
    ensures
        r == name_position(opt_str(content), line, name@),
{
    let first: u32 = line.saturating_sub(1);
    match content {
        Some(c) => {
            let ls = split_lines(c);
            let nv = chars_of(name);
            let start: usize = first as usize;
            match find_name_near(&ls, start, &nv, true) {
                Some(p) => p,
                None => match find_name_near(&ls, start, &nv, false) {
                    Some(p) => p,
                    None => (first, 0),
                },
            }
        },
        None => (first, 0),
    }
}

// ── Symbols ─────────────────────────────────────────────────────────────────

/// A reported symbol counts where its name, without a Go receiver, is the query but for case, or
/// starts with it.
pub open spec fn name_fits(name: Seq<char>, query: Seq<char>) -> bool {
    eq_no_case(base(name), query) || starts_with(base(name), query)
}

/// The symbols of a workspace symbol response that fit the query, as they came.
pub open spec fn fitting_symbols(items: Seq<Json>, query: Seq<char>, root: Seq<char>) -> Seq<Found>
    decreases items.len(),
{
    if items.len() == 0 {
        Seq::empty()
    } else {
        let rest = fitting_symbols(items.drop_last(), query, root);
        let item = items.last();
        if name_fits(item.str_or("name"@, Seq::empty()), query) {
            rest.push(
                Found {
                    path: uri_relative(text_or_none(item.get2("location"@, "uri"@)), root),
                    line: shown_start(location_start(item)),
                    kind: kind_name(item.u64_or("kind"@, 0)),
                    preview: Seq::empty(),
                    body: None,
                },
            )
        } else {
            rest
        }
    }
}

/// The first line of a symbol's location.
pub open spec fn location_start(item: Json) -> Option<Json> {
    match item.get("location"@) {
        Some(l) => l.get3("range"@, "start"@, "line"@),
        None => None,
    }
}

/// The items of a response, or none where it is no list.
pub open spec fn response_items(response: Json) -> Seq<Json> {
    match response.as_array() {
        Some(a) => a,
        None => Seq::empty(),
    }
}

/// Parses a workspace symbol response: the symbols that fit the query, by path and line.
///
/// The previews are left empty; [`read_line_preview`] gives them from the files' texts.
pub fn parse_symbol_results(response: &JsonValue, query: &str, project_root: &str) -> (r: Vec<SymbolMatch>)
    ensures
        seen(r@) == sorted_by(
            fitting_symbols(response_items(response@), query@, project_root@),
            rank::<SymbolMatch>(),
        ),
{
    let mut results: Vec<SymbolMatch> = Vec::new();
    assert(seen(results@) =~= Seq::empty());
    match response.as_array() {
        Some(items) => {
            let ghost all = jsons(items@);
            let mut i: usize = 0;
            assert(all.take(0) =~= Seq::empty());
            while i < items.len()
                invariant
                    0 <= i <= items@.len(),
                    all == jsons(items@),
                    seen(results@) == fitting_symbols(all.take(i as int), query@, project_root@),
                decreases items@.len() - i,
            {
                let item = &items[i];
                proof {
                    assert(all.take(i + 1).drop_last() =~= all.take(i as int));
                    assert(all.take(i + 1).last() == item@);
                    reveal_strlit("");
                    assert(""@ =~= Seq::empty());
                }
                let name = item.str_or("name", "");
                let match_name = base_name(name.as_str());
                if str_eq_no_case(match_name, query) || str_starts_with(match_name, query) {
                    let uri = read_text(item.get2("location", "uri"));
                    let line: u32 = match item.get("location") {
                        Some(l) => read_shown_start(l.get3("range", "start", "line")),
                        None => read_shown_start(None),
                    };
                    let ghost before = seen(results@);
                    let m = SymbolMatch {
                        path: uri_to_relative_path(uri.as_str(), project_root),
                        line,
                        kind: symbol_kind_name(item.u64_or("kind", 0)).to_string(),
                        preview: String::new(),
                        body: None,
                    };
                    let ghost v = m@;
                    results.push(m);
                    assert(seen(results@) =~= before.push(v));
                }
                i = i + 1;
            }
            assert(all.take(i as int) =~= all);
        },
        None => {},
    }
    sort(results)
}

/// The implementations of a response, as they came.
pub open spec fn located_implementations(items: Seq<Json>, root: Seq<char>) -> Seq<Found> {
    Seq::new(
        items.len(),
        |i: int|
            Found {
                path: uri_relative(
                    text_or_none(
                        match items[i].get("uri"@) {
                            Some(u) => Some(u),
                            None => items[i].get("targetUri"@),
                        },
                    ),
                    root,
                ),
                line: shown_start(
                    match items[i].get3("range"@, "start"@, "line"@) {
                        Some(l) => Some(l),
                        None => items[i].get3("targetRange"@, "start"@, "line"@),
                    },
                ),
                kind: "implementation"@,
                preview: Seq::empty(),
                body: None,
            },
    )
}

/// Parses a response with implementations, given as locations or as location links.
///
/// The previews are left empty; [`read_line_preview`] gives them from the files' texts.
pub fn parse_impl_results(response: &JsonValue, project_root: &str) -> (r: Vec<SymbolMatch>)
    ensures
        seen(r@) == sorted_by(
            located_implementations(response_items(response@), project_root@),
            rank::<SymbolMatch>(),
        ),
{
    let mut results: Vec<SymbolMatch> = Vec::new();
    match response.as_array() {
        Some(items) => {
            let mut i: usize = 0;
            let ghost want = located_implementations(jsons(items@), project_root@);
            while i < items.len()
                invariant
                    0 <= i <= items@.len(),
                    results@.len() == i,
                    want == located_implementations(jsons(items@), project_root@),
                    forall|k: int| 0 <= k < i ==> (#[trigger] results@[k])@ == want[k],
                decreases items@.len() - i,
            {
                let item = &items[i];
                let uri = match item.get("uri") {
                    Some(u) => read_text(Some(u)),
                    None => read_text(item.get("targetUri")),
                };
                let line: u32 = match item.get3("range", "start", "line") {
                    Some(l) => read_shown_start(Some(l)),
                    None => read_shown_start(item.get3("targetRange", "start", "line")),
                };
                results.push(
                    SymbolMatch {
                        path: uri_to_relative_path(uri.as_str(), project_root),
                        line,
                        kind: "implementation".to_string(),
                        preview: String::new(),
                        body: None,
                    },
                );
                assert(results@[i as int]@ == want[i as int]);
                i = i + 1;
            }
            assert(seen(results@) =~= want);
        },
        None => {
            assert(seen(results@) =~= Seq::empty());
            assert(located_implementations(response_items(response@), project_root@) =~= Seq::empty());
        },
    }
    sort(results)
}

// ── References ──────────────────────────────────────────────────────────────

/// Directories of artifacts and generated files, which reference results leave out.
pub open spec fn excluded_dirs() -> Seq<Seq<char>> {
    seq![
        "target/"@,
        ".git/"@,
        "node_modules/"@,
        ".mypy_cache/"@,
        "__pycache__/"@,
        ".cache/"@,
        "dist/"@,
        "build/"@,
        ".next/"@,
        ".nuxt/"@,
    ]
}

/// A path below one of the excluded directories.
pub open spec fn is_excluded(path: Seq<char>) -> bool {
    exists|i: int|
        0 <= i < excluded_dirs().len() && (starts_with(path, #[trigger] excluded_dirs()[i]) || contains(
            path,
            "/"@ + excluded_dirs()[i],
        ))
}

/// Whether a path lies below one of the excluded directories.
pub fn in_excluded_dir(path: &str) -> (r: bool)
    ensures
        r == is_excluded(path@),
{
    let dirs: [&str; 10] = [
        "target/",
        ".git/",
        "node_modules/",
        ".mypy_cache/",
        "__pycache__/",
        ".cache/",
        "dist/",
        "build/",
        ".next/",
        ".nuxt/",
    ];
    let mut i: usize = 0;
    while i < 10
        invariant
            0 <= i <= 10,
            forall|k: int| 0 <= k < 10 ==> (#[trigger] dirs@[k])@ == excluded_dirs()[k],
            forall|k: int|
                0 <= k < i ==> !starts_with(path@, #[trigger] excluded_dirs()[k]) && !contains(
                    path@,
                    "/"@ + excluded_dirs()[k],
                ),
        decreases 10 - i,
    {
        let dir = dirs[i];
        let mut inner = "/".to_string();
        inner.append(dir);
        assert(dirs@[i as int]@ == excluded_dirs()[i as int]);
        if str_starts_with(path, dir) || str_contains(path, inner.as_str()) {
            return true;
        }
        i = i + 1;
    }
    false
}

/// The references of a response that lie outside the excluded directories, as they came.
pub open spec fn kept_references(items: Seq<Json>, def_path: Seq<char>, def_line: u32, root: Seq<char>) -> Seq<Reference>
    decreases items.len(),
{
    if items.len() == 0 {
        Seq::empty()
    } else {
        let rest = kept_references(items.drop_last(), def_path, def_line, root);
        let item = items.last();
        let path = uri_relative(text_or_none(item.get("uri"@)), root);
        let line = shown_start(item.get3("range"@, "start"@, "line"@));
        if is_excluded(path) {
            rest
        } else {
            rest.push(
                Reference {
                    path,
                    line,
                    preview: Seq::empty(),
                    is_definition: path == def_path && line == def_line,
                    containing_symbol: None,
                },
            )
        }
    }
}

/// Parses a references response: the definition first, then by path and line.
///
/// The previews are left empty; [`read_line_preview`] gives them from the files' texts.
pub fn parse_reference_results(response: &JsonValue, def_path: &str, def_line: u32, project_root: &str) -> (r: Vec<
    ReferenceMatch,
>)
    ensures
        seen(r@) == sorted_by(
            kept_references(response_items(response@), def_path@, def_line, project_root@),
            rank::<ReferenceMatch>(),
        ),
{
    let mut results: Vec<ReferenceMatch> = Vec::new();
    assert(seen(results@) =~= Seq::empty());
    match response.as_array() {
        Some(items) => {
            let ghost all = jsons(items@);
            let mut i: usize = 0;
            assert(all.take(0) =~= Seq::empty());
            while i < items.len()
                invariant
                    0 <= i <= items@.len(),
                    all == jsons(items@),
                    seen(results@) == kept_references(all.take(i as int), def_path@, def_line, project_root@),
                decreases items@.len() - i,
            {
                let item = &items[i];
                proof {
                    assert(all.take(i + 1).drop_last() =~= all.take(i as int));
                    assert(all.take(i + 1).last() == item@);
                }
                let uri = read_text(item.get("uri"));
                let line: u32 = read_shown_start(item.get3("range", "start", "line"));
                let path = uri_to_relative_path(uri.as_str(), project_root);
                if !in_excluded_dir(path.as_str()) {
                    let is_definition = str_eq(path.as_str(), def_path) && line == def_line;
                    let ghost before = seen(results@);
                    let m = ReferenceMatch {
                        path,
                        line,
                        preview: String::new(),
                        is_definition,
                        containing_symbol: None,
                    };
                    let ghost v = m@;
                    results.push(m);
                    assert(seen(results@) =~= before.push(v));
                }
                i = i + 1;
            }
            assert(all.take(i as int) =~= all);
        },
        None => {},
    }
    sort(results)
}

/// A reference that looks like the definition of an implementation and is not the definition that
/// was asked about.
pub open spec fn is_implementation(r: Reference, name: Seq<char>, path: Seq<char>, line: u32) -> bool {
    let t = trim_start(r.preview);
    &&& !r.is_definition
    &&& (starts_with(t, "func "@) || starts_with(t, "function "@) || starts_with(t, "async function "@) || (contains(
        t,
        name,
    ) && ends_with(t, "{"@)))
    &&& !(r.path == path && r.line == line)
}

/// The implementations among references.
pub open spec fn implementations(refs: Seq<Reference>, name: Seq<char>, path: Seq<char>, line: u32) -> Seq<Found>
    decreases refs.len(),
{
    if refs.len() == 0 {
        Seq::empty()
    } else {
        let rest = implementations(refs.drop_last(), name, path, line);
        let r = refs.last();
        if is_implementation(r, name, path, line) {
            rest.push(Found { path: r.path, line: r.line, kind: "implementation"@, preview: r.preview, body: None })
        } else {
            rest
        }
    }
}

/// What follows when a server was asked for implementations.
pub enum ImplStep {
    /// Answer these.
    Done(Vec<SymbolMatch>),
    /// Ask for the references, and look for implementations among them.
    AskReferences,
}

/// Decides what follows from the implementations that a server told: the references are asked for
/// only where it told none.
pub fn on_implementations(found: Vec<SymbolMatch>) -> (r: ImplStep)
    ensures
        match r {
            ImplStep::Done(symbols) => found@.len() > 0 && symbols == found,
            ImplStep::AskReferences => found@.len() == 0,
        },
{
    if found.len() == 0 {
        ImplStep::AskReferences
    } else {
        ImplStep::Done(found)
    }
}

/// Finds implementations among references, for servers that do not tell them.
pub fn implementations_among(refs: &Vec<ReferenceMatch>, name: &str, interface_symbol: &SymbolMatch) -> (r: Vec<
    SymbolMatch,
>)
    ensures
        seen(r@) == implementations(seen(refs@), name@, interface_symbol@.path, interface_symbol.line),
{
    let mut results: Vec<SymbolMatch> = Vec::new();
    let ghost all = seen(refs@);
    let mut i: usize = 0;
    assert(all.take(0) =~= Seq::empty());
    assert(seen(results@) =~= Seq::empty());
    while i < refs.len()
        invariant
            0 <= i <= refs@.len(),
            all == seen(refs@),
            seen(results@) == implementations(
                all.take(i as int),
                name@,
                interface_symbol@.path,
                interface_symbol.line,
            ),
        decreases refs@.len() - i,
    {
        let m = &refs[i];
        assert(all.take(i + 1).drop_last() =~= all.take(i as int));
        assert(all.take(i + 1).last() == m@);
        let trimmed = str_trim_start(m.preview.as_str());
        let t = trimmed.as_str();
        let looks = str_starts_with(t, "func ") || str_starts_with(t, "function ") || str_starts_with(
            t,
            "async function ",
        ) || (str_contains(t, name) && str_ends_with(t, "{"));
        if !m.is_definition && looks && !(m.path == interface_symbol.path && m.line == interface_symbol.line) {
            let ghost before = seen(results@);
            let f = SymbolMatch {
                path: m.path.clone(),
                line: m.line,
                kind: "implementation".to_string(),
                preview: m.preview.clone(),
                body: None,
            };
            let ghost v = f@;
            results.push(f);
            assert(seen(results@) =~= before.push(v));
        }
        i = i + 1;
    }
    assert(all.take(i as int) =~= all);
    results
}

// ── Definitions found by text search ────────────────────────────────────────

/// The characters at the end of `s` that are no white space.
pub open spec fn word_at_end(s: Seq<char>) -> Seq<char>
    decreases s.len(),
{
    if s.len() == 0 || is_space(s.last()) {
        Seq::empty()
    } else {
        word_at_end(s.drop_last()).push(s.last())
    }
}

/// The last of the words of `s`; no text where there is none.
pub open spec fn last_word(s: Seq<char>) -> Seq<char> {
    word_at_end(trim_end(s))
}

/// The kind of symbol that a keyword defines.
pub open spec fn defined_kind(word: Seq<char>) -> Option<Seq<char>> {
    if word == "const"@ || word == "let"@ || word == "var"@ {
        Some("constant"@)
    } else if word == "function"@ || word == "fn"@ || word == "def"@ || word == "async"@ {
        Some("function"@)
    } else if word == "class"@ {
        Some("class"@)
    } else if word == "interface"@ {
        Some("interface"@)
    } else if word == "type"@ {
        Some("type_alias"@)
    } else if word == "struct"@ || word == "enum"@ {
        Some("struct"@)
    } else {
        None
    }
}

/// The kind of symbol that a line defines under `name`: what the word right before the first
/// occurrence of the name says.
pub open spec fn definition_kind(line: Seq<char>, name: Seq<char>) -> Option<Seq<char>> {
    let t = trim(line);
    match find(t, name) {
        Some(i) => defined_kind(last_word(t.take(i))),
        None => None,
    }
}

/// The last word of the first `end` characters.
fn last_word_of(v: &Vec<char>, end: usize) -> (r: String)
    requires
        end <= v@.len(),
    ensures
        r@ == last_word(v@.take(end as int)),
{
    let front = string_of(v, 0, end);
    assert(v@.subrange(0, end as int) =~= v@.take(end as int));
    let t = str_trim_end(front.as_str());
    let tv = chars_of(t.as_str());
    let n: usize = tv.len();
    let mut i: usize = n;
    assert(tv@.take(n as int) =~= tv@);
    assert(word_at_end(tv@.take(n as int)) + tv@.subrange(n as int, n as int) =~= word_at_end(tv@));
    while i > 0 && !char_is_space(tv[i - 1])
        invariant
            0 <= i <= n,
            n == tv@.len(),
            word_at_end(tv@.take(i as int)) + tv@.subrange(i as int, n as int) == word_at_end(tv@),
        decreases i,
    {
        assert(tv@.take(i as int).drop_last() =~= tv@.take(i - 1));
        assert(tv@.take(i as int).last() == tv@[i - 1]);
        assert(word_at_end(tv@.take(i - 1)) + tv@.subrange(i - 1, n as int) =~= word_at_end(tv@.take(i as int))
            + tv@.subrange(i as int, n as int));
        i = i - 1;
    }
    assert(i > 0 ==> tv@.take(i as int).last() == tv@[i - 1]);
    assert(word_at_end(tv@.take(i as int)) =~= Seq::empty());
    assert(Seq::<char>::empty() + tv@.subrange(i as int, n as int) =~= tv@.subrange(i as int, n as int));
    string_of(&tv, i, n)
}

/// If `line` is a definition site for `name`, gives the symbol kind.
///
/// Calls, imports and other uses give `None`.
pub fn classify_definition(line: &str, name: &str) -> (r: Option<&'static str>)
    ensures
        opt_str(r) == definition_kind(line@, name@),
{
    let trimmed = str_trim(line);
    let v = chars_of(trimmed.as_str());
    let p = chars_of(name);
    match find_chars(&v, &p, 0) {
        Some(i) => {
            let word = last_word_of(&v, i);
            let w = word.as_str();
            if str_eq(w, "const") || str_eq(w, "let") || str_eq(w, "var") {
                Some("constant")
            } else if str_eq(w, "function") || str_eq(w, "fn") || str_eq(w, "def") || str_eq(w, "async") {
                Some("function")
            } else if str_eq(w, "class") {
                Some("class")
            } else if str_eq(w, "interface") {
                Some("interface")
            } else if str_eq(w, "type") {
                Some("type_alias")
            } else if str_eq(w, "struct") || str_eq(w, "enum") {
                Some("struct")
            } else {
                None
            }
        },
        None => None,
    }
}

/// The definitions of `name` among search matches.
pub open spec fn definitions(matches: Seq<Hit>, name: Seq<char>) -> Seq<Found>
    decreases matches.len(),
{
    if matches.len() == 0 {
        Seq::empty()
    } else {
        let rest = definitions(matches.drop_last(), name);
        let m = matches.last();
        match definition_kind(m.preview, name) {
            Some(kind) => rest.push(Found { path: m.path, line: m.line, kind, preview: m.preview, body: None }),
            None => rest,
        }
    }
}

/// The search that finds where `name` stands as a word of its own.
fn word_search(name: &str, max_matches: usize) -> (r: SearchOptions)
    ensures
        r.pattern@ == name@,
        r.path is None,
        !r.ignore_case,
        r.word,
        r.literal,
        r.context == 0,
        !r.files_only,
        r.lang_filter is None,
        r.max_matches == max_matches,
{
    SearchOptions {
        pattern: name.to_string(),
        path: None,
        ignore_case: false,
        word: true,
        literal: true,
        context: 0,
        files_only: false,
        lang_filter: None,
        max_matches,
    }
}

/// Greatest number of matches among which definitions are looked for.
pub const MAX_SYMBOL_MATCHES: usize = 50;

/// The search for the definitions of `name`: where it stands as a word of its own, up to
/// [`MAX_SYMBOL_MATCHES`] times.
pub fn symbol_search(name: &str) -> (r: SearchOptions)
    ensures
        r.pattern@ == name@,
        r.path is None,
        !r.ignore_case,
        r.word,
        r.literal,
        r.context == 0,
        !r.files_only,
        r.lang_filter is None,
        r.max_matches == MAX_SYMBOL_MATCHES,
{
    word_search(name, MAX_SYMBOL_MATCHES)
}

/// The search for the uses of `name`: wherever it stands as a word of its own.
pub fn reference_search(name: &str) -> (r: SearchOptions)
    ensures
        r.pattern@ == name@,
        r.path is None,
        !r.ignore_case,
        r.word,
        r.literal,
        r.context == 0,
        !r.files_only,
        r.lang_filter is None,
        r.max_matches == usize::MAX,
{
    word_search(name, usize::MAX)
}

/// What follows when the servers were asked for the symbols with a name.
pub enum NameStep {
    /// Go on with these.
    Use(Vec<SymbolMatch>),
    /// Search the text of the project.
    SearchText,
}

/// Decides where the symbols with a name come from: the text of the project is searched only where
/// the server knows none.
pub fn on_symbols(found: Vec<SymbolMatch>) -> (r: NameStep)
    ensures
        match r {
            NameStep::Use(symbols) => found@.len() > 0 && symbols == found,
            NameStep::SearchText => found@.len() == 0,
        },
{
    if found.len() == 0 {
        NameStep::SearchText
    } else {
        NameStep::Use(found)
    }
}

/// Text-search fallback for finding a symbol: the matches of a word search that look like
/// definitions of it. `output` is what the search gave, where it did not fail.
pub fn text_search_find_symbol(name: &str, output: &Option<SearchOutput>) -> (r: Vec<SymbolMatch>)
    ensures
        seen(r@) == match *output {
            Some(o) => definitions(seen(o.matches@), name@),
            None => Seq::empty(),
        },
{
    let mut results: Vec<SymbolMatch> = Vec::new();
    assert(seen(results@) =~= Seq::empty());
    if let Some(o) = output {
        let ghost all = seen(o.matches@);
        let mut i: usize = 0;
        assert(all.take(0) =~= Seq::empty());
        while i < o.matches.len()
            invariant
                0 <= i <= o.matches@.len(),
                all == seen(o.matches@),
                seen(results@) == definitions(all.take(i as int), name@),
            decreases o.matches@.len() - i,
        {
            let m = &o.matches[i];
            assert(all.take(i + 1).drop_last() =~= all.take(i as int));
            assert(all.take(i + 1).last() == m@);
            if let Some(kind) = classify_definition(m.preview.as_str(), name) {
                let ghost before = seen(results@);
                let f = SymbolMatch {
                    path: m.path.clone(),
                    line: m.line,
                    kind: kind.to_string(),
                    preview: m.preview.clone(),
                    body: None,
                };
                let ghost v = f@;
                results.push(f);
                assert(seen(results@) =~= before.push(v));
            }
            i = i + 1;
        }
        assert(all.take(i as int) =~= all);
    }
    results
}

/// The references that search matches stand for.
pub open spec fn uses(matches: Seq<Hit>, name: Seq<char>) -> Seq<Reference> {
    Seq::new(
        matches.len(),
        |i: int|
            Reference {
                path: matches[i].path,
                line: matches[i].line,
                preview: matches[i].preview,
                is_definition: definition_kind(matches[i].preview, name) is Some,
                containing_symbol: None,
            },
    )
}

/// Text-search fallback for finding references: the matches of a word search, those that look
/// like definitions first. `output` is what the search gave, where it did not fail.
pub fn text_search_find_refs(name: &str, output: &Option<SearchOutput>) -> (r: Vec<ReferenceMatch>)
    ensures
        seen(r@) == match *output {
            Some(o) => sorted_by(uses(seen(o.matches@), name@), rank::<ReferenceMatch>()),
            None => Seq::empty(),
        },
{
    let mut results: Vec<ReferenceMatch> = Vec::new();
    if let Some(o) = output {
        let ghost want = uses(seen(o.matches@), name@);
        let mut i: usize = 0;
        while i < o.matches.len()
            invariant
                0 <= i <= o.matches@.len(),
                results@.len() == i,
                want == uses(seen(o.matches@), name@),
                forall|k: int| 0 <= k < i ==> (#[trigger] results@[k])@ == want[k],
            decreases o.matches@.len() - i,
        {
            let m = &o.matches[i];
            let is_definition = classify_definition(m.preview.as_str(), name).is_some();
            results.push(
                ReferenceMatch {
                    path: m.path.clone(),
                    line: m.line,
                    preview: m.preview.clone(),
                    is_definition,
                    containing_symbol: None,
                },
            );
            assert(results@[i as int]@ == want[i as int]);
            i = i + 1;
        }
        assert(seen(results@) =~= want);
        return sort(results);
    }
    assert(seen(results@) =~= Seq::empty());
    results
}

// ── Bodies ──────────────────────────────────────────────────────────────────

/// Opening less closing braces of a line.
pub open spec fn brace_balance(s: Seq<char>) -> int
    decreases s.len(),
{
    if s.len() == 0 {
        0
    } else {
        brace_balance(s.drop_last()) + if s.last() == '{' {
            1int
        } else if s.last() == '}' {
            -1
        } else {
            0
        }
    }
}

/// The last line of the body that starts at `start`, when the lines before line `i` left `depth`
/// braces open and `opened` tells whether there was any.
///
/// A body ends where its braces are closed, or at a semicolon that precedes any brace, but at the
/// latest with its 200th line or the end of the file.
pub open spec fn body_last_line(ls: Seq<Seq<char>>, start: int, i: int, depth: int, opened: bool) -> int
    decreases ls.len() - i,
{
    let depth2 = depth + brace_balance(ls[i]);
    let opened2 = opened || ls[i].contains('{');
    if (!opened2 && ends_with(trim_end(ls[i]), ";"@)) || (opened2 && depth2 <= 0) || i - start >= 199 || i + 1
        >= ls.len() {
        i
    } else {
        body_last_line(ls, start, i + 1, depth2, opened2)
    }
}

/// The body of the symbol that starts on line `start_line`, counted from 1.
pub open spec fn symbol_body(content: Seq<char>, start_line: u32) -> Option<Seq<char>> {
    let ls = lines(content);
    let start = if start_line > 0 {
        start_line - 1
    } else {
        0
    };
    if start >= ls.len() {
        None
    } else {
        Some(join(ls.subrange(start, body_last_line(ls, start, start, 0, false) + 1), "\n"@))
    }
}

/// Counts the braces of a line: opening less closing, and whether any opens.
fn count_braces(line: &str) -> (r: (i128, bool))
    ensures
        r.0 == brace_balance(line@),
        r.1 == line@.contains('{'),
        -(usize::MAX as int) <= r.0 <= usize::MAX,
{
    let v = chars_of(line);
    let n: usize = v.len();
    let mut balance: i128 = 0;
    let mut opens = false;
    let mut i: usize = 0;
    assert(v@.take(0) =~= Seq::empty());
    while i < n
        invariant
            0 <= i <= n,
            n == v@.len(),
            balance == brace_balance(v@.take(i as int)),
            -(i as int) <= balance <= i,
            opens == v@.take(i as int).contains('{'),
        decreases n - i,
    {
        let c: char = v[i];
        proof {
            let next = v@.take(i + 1);
            assert(next.drop_last() =~= v@.take(i as int));
            assert(next.last() == c);
            if opens {
                let k = choose|k: int| 0 <= k < i && v@.take(i as int)[k] == '{';
                assert(next[k] == '{');
            }
            if c == '{' {
                assert(next[i as int] == '{');
            }
            if next.contains('{') && c != '{' {
                let k = choose|k: int| 0 <= k < next.len() && next[k] == '{';
                assert(v@.take(i as int)[k] == '{');
            }
        }
        if c == '{' {
            balance = balance + 1;
            opens = true;
        } else if c == '}' {
            balance = balance - 1;
        }
        i = i + 1;
    }
    assert(v@.take(n as int) =~= v@);
    (balance, opens)
}

/// Extracts a symbol's full body from the text of a file, starting at `start_line`, counted from 1.
pub fn extract_symbol_body(content: &str, start_line: u32) -> (r: Option<String>)
    ensures
        opt_view(r) == symbol_body(content@, start_line),
{
    let ls = split_lines(content);
    let ghost all = views(ls@);
    let n: usize = ls.len();
    assert(all.len() == n);
    let start: usize = start_line.saturating_sub(1) as usize;
    if start >= n {
        return None;
    }
    let mut depth: i128 = 0;
    let mut opened = false;
    let mut i: usize = start;
    loop
        invariant_except_break
            body_last_line(all, start as int, start as int, 0, false) == body_last_line(
                all,
                start as int,
                i as int,
                depth as int,
                opened,
            ),
            -((i - start) * usize::MAX) <= depth <= (i - start) * usize::MAX,
        invariant
            start <= i < n,
            i - start <= 199,
            n == ls@.len(),
            all == views(ls@),
        ensures
            i == body_last_line(all, start as int, start as int, 0, false),
        decreases n - i,
    {
        let line = ls[i].as_str();
        assert(line@ == all[i as int]);
        let (balance, opens) = count_braces(line);
        let ghost before = depth;
        assert(-(200 * usize::MAX) <= depth <= 200 * usize::MAX) by (nonlinear_arith)
            requires
                -((i - start) * usize::MAX) <= depth <= (i - start) * usize::MAX,
                0 <= i - start <= 199,
        ;
        depth = depth + balance;
        proof {
            let k = i - start;
            assert((k + 1) * usize::MAX == k * usize::MAX + usize::MAX) by (nonlinear_arith);
        }
        opened = opened || opens;
        let trimmed = str_trim_end(line);
        if (!opened && str_ends_with(trimmed.as_str(), ";")) || (opened && depth <= 0) || i - start >= 199 || i + 1 >= n {
            break;
        }
        i = i + 1;
    }
    let body = lines_between(&ls, start, i + 1);
    Some(join_strings(&body, "\n"))
}

// ── Containing symbols ──────────────────────────────────────────────────────

/// The innermost symbol of an outline whose range holds `line`: the first on each level, as far
/// down as there is one.
pub open spec fn innermost(s: Seq<Entry>, line: u32) -> Option<Container>
    decreases s,
{
    if s.len() == 0 {
        None
    } else {
        match innermost(s.drop_last(), line) {
            Some(c) => Some(c),
            None => {
                let e = s.last();
                if e.line <= line <= e.end_line {
                    match innermost(e.children, line) {
                        Some(c) => Some(c),
                        None => Some(Container { name: e.name, kind: e.kind, line: e.line }),
                    }
                } else {
                    None
                }
            },
        }
    }
}

/// The view of an optional container.
pub open spec fn opt_container(o: Option<ContainingSymbol>) -> Option<Container> {
    match o {
        Some(c) => Some(c@),
        None => None,
    }
}

/// Finds the innermost symbol whose range contains `line`, counted from 1.
pub fn find_innermost_containing(symbols: &[SymbolEntry], line: u32) -> (r: Option<ContainingSymbol>)
    ensures
        opt_container(r) == innermost(entries(symbols@), line),
    decreases height(entries(symbols@)),
{
    let ghost all = entries(symbols@);
    let mut i: usize = 0;
    assert(all.take(0) =~= Seq::empty());
    while i < symbols.len()
        invariant
            0 <= i <= symbols@.len(),
            all == entries(symbols@),
            innermost(all.take(i as int), line) is None,
        decreases symbols@.len() - i,
    {
        let sym = &symbols[i];
        proof {
            sym.children_view();
            assert(all.take(i + 1).drop_last() =~= all.take(i as int));
            assert(all.take(i + 1).last() == sym@);
            height_of_item(all, i as int);
            innermost_prefix(all, i + 1, line);
        }
        if sym.line <= line && line <= sym.end_line {
            if let Some(child) = find_innermost_containing(sym.children.as_slice(), line) {
                return Some(child);
            }
            return Some(
                ContainingSymbol { name: sym.name.clone(), kind: sym.kind.clone(), line: sym.line },
            );
        }
        i = i + 1;
    }
    assert(all.take(i as int) =~= all);
    None
}

/// What is found among the first items is found among all.
proof fn innermost_prefix(s: Seq<Entry>, n: int, line: u32)
    requires
        0 <= n <= s.len(),
    ensures
        innermost(s.take(n), line) is Some ==> innermost(s, line) == innermost(s.take(n), line),
    decreases s.len() - n,
{
    if n < s.len() {
        innermost_prefix(s, n + 1, line);
        assert(s.take(n + 1).drop_last() =~= s.take(n));
    } else {
        assert(s.take(n) =~= s);
    }
}

/// A symbol that is found to contain a line starts at or before it.
pub proof fn innermost_contains(s: Seq<Entry>, line: u32)
    ensures
        innermost(s, line) matches Some(c) ==> c.line <= line,
    decreases s,
{
    if s.len() > 0 {
        innermost_contains(s.drop_last(), line);
        innermost_contains(s.last().children, line);
    }
}

// ── Laws ────────────────────────────────────────────────────────────────────

/// The place that a location of a response names: a path as seen from the project, and a line counted
/// from 1.
pub open spec fn spot(item: Json, root: Seq<char>) -> (Seq<char>, u32) {
    (uri_relative(text_or_none(item.get("uri"@)), root), shown_start(item.get3("range"@, "start"@, "line"@)))
}

/// A reference at a place. It is the definition where that is the place of the definition.
pub open spec fn reference_at(place: (Seq<char>, u32), def_path: Seq<char>, def_line: u32) -> Reference {
    Reference {
        path: place.0,
        line: place.1,
        preview: Seq::empty(),
        is_definition: place == (def_path, def_line),
        containing_symbol: None,
    }
}

/// The locations of a response outside the excluded directories are the references, each as often as
/// the response has it, whatever the definition is: that decides which of them is the definition, and
/// their order.
pub proof fn all_locations_are_references(items: Seq<Json>, def_path: Seq<char>, def_line: u32, root: Seq<char>)
    ensures
        ({
            let spots = items.map_values(|item: Json| spot(item, root));
            let kept = spots.filter(|place: (Seq<char>, u32)| !is_excluded(place.0));
            let r = sorted_by(kept_references(items, def_path, def_line, root), rank::<ReferenceMatch>());
            &&& r.len() == kept.len()
            &&& r.to_multiset() == kept.map_values(
                |place: (Seq<char>, u32)| reference_at(place, def_path, def_line),
            ).to_multiset()
            &&& forall|i: int|
                0 <= i < items.len() && !is_excluded(spot(#[trigger] items[i], root).0) ==> r.contains(
                    reference_at(spot(items[i], root), def_path, def_line),
                )
            &&& are_in_reference_order(r)
        }),
{
    let spots = items.map_values(|item: Json| spot(item, root));
    let kept = spots.filter(|place: (Seq<char>, u32)| !is_excluded(place.0));
    let refs = kept_references(items, def_path, def_line, root);
    kept_references_are_filtered(items, def_path, def_line, root);
    sorted_references(refs);
    let r = sorted_by(refs, rank::<ReferenceMatch>());
    let make = |place: (Seq<char>, u32)| reference_at(place, def_path, def_line);
    let p = |place: (Seq<char>, u32)| !is_excluded(place.0);
    assert forall|i: int| 0 <= i < items.len() && !is_excluded(spot(#[trigger] items[i], root).0) implies r.contains(
        reference_at(spot(items[i], root), def_path, def_line),
    ) by {
        assert(spots[i] == spot(items[i], root));
        filter_keeps(spots, p, i);
        let k = choose|k: int| 0 <= k < kept.len() && kept[k] == spots[i];
        assert(refs[k] == make(kept[k]));
        contained_after_sorting(refs, r, k);
    }
}

/// What a filter lets pass is there.
proof fn filter_keeps<T>(s: Seq<T>, p: spec_fn(T) -> bool, i: int)
    requires
        0 <= i < s.len(),
        p(s[i]),
    ensures
        s.filter(p).contains(s[i]),
    decreases s.len(),
{
    reveal(Seq::filter);
    let init = s.drop_last();
    if i < init.len() {
        filter_keeps(init, p, i);
        let k = choose|k: int| 0 <= k < init.filter(p).len() && init.filter(p)[k] == s[i];
        assert(s.filter(p)[k] == s[i]);
    } else {
        let r = s.filter(p);
        assert(r[r.len() - 1] == s[i]);
    }
}

proof fn contained_after_sorting<T>(s: Seq<T>, t: Seq<T>, k: int)
    requires
        s.to_multiset() == t.to_multiset(),
        0 <= k < s.len(),
    ensures
        t.contains(s[k]),
{
    broadcast use vstd::seq_lib::group_to_multiset_ensures;
    assert(s.contains(s[k]));
    assert(s.to_multiset().count(s[k]) > 0);
    assert(t.to_multiset().count(s[k]) > 0);
}

proof fn kept_references_are_filtered(items: Seq<Json>, def_path: Seq<char>, def_line: u32, root: Seq<char>)
    ensures
        kept_references(items, def_path, def_line, root) == items.map_values(|item: Json| spot(item, root)).filter(
            |place: (Seq<char>, u32)| !is_excluded(place.0),
        ).map_values(|place: (Seq<char>, u32)| reference_at(place, def_path, def_line)),
    decreases items.len(),
{
    reveal(Seq::filter);
    let see = |item: Json| spot(item, root);
    let p = |place: (Seq<char>, u32)| !is_excluded(place.0);
    let make = |place: (Seq<char>, u32)| reference_at(place, def_path, def_line);
    let spots = items.map_values(see);
    if items.len() > 0 {
        kept_references_are_filtered(items.drop_last(), def_path, def_line, root);
        assert(spots.drop_last() =~= items.drop_last().map_values(see));
        assert(spots.last() == see(items.last()));
        let rest = spots.drop_last().filter(p);
        if p(spots.last()) {
            assert(rest.push(spots.last()).map_values(make) =~= rest.map_values(make).push(make(spots.last())));
            assert(kept_references(items, def_path, def_line, root).last() == make(spots.last()));
        }
    } else {
        assert(spots.filter(p).map_values(make) =~= Seq::empty());
    }
}

/// Definitions come first; otherwise references stand by path, and those of one file by line.
pub open spec fn are_in_reference_order(r: Seq<Reference>) -> bool {
    forall|i: int, j: int|
        0 <= i < j < r.len() ==> {
            let a = #[trigger] r[i];
            let b = #[trigger] r[j];
            &&& b.is_definition ==> a.is_definition
            &&& a.is_definition == b.is_definition ==> !lex_lt(b.path, a.path)
            &&& a.is_definition == b.is_definition && a.path == b.path ==> a.line <= b.line
        }
}

proof fn sorted_references(refs: Seq<Reference>)
    ensures
        sorted_by(refs, rank::<ReferenceMatch>()).len() == refs.len(),
        sorted_by(refs, rank::<ReferenceMatch>()).to_multiset() == refs.to_multiset(),
        are_in_reference_order(sorted_by(refs, rank::<ReferenceMatch>())),
{
    let lt = rank::<ReferenceMatch>();
    reference_order();
    sorting_is_stable(refs, lt);
    let r = sorted_by(refs, lt);
    assert forall|i: int, j: int| 0 <= i < j < r.len() implies {
        let a = #[trigger] r[i];
        let b = #[trigger] r[j];
        &&& b.is_definition ==> a.is_definition
        &&& a.is_definition == b.is_definition ==> !lex_lt(b.path, a.path)
        &&& a.is_definition == b.is_definition && a.path == b.path ==> a.line <= b.line
    } by {
        assert(!lt(r[j], r[i]));
    }
}

/// A search of the text gives every match as a use, in the same order as references come.
pub proof fn all_matches_are_uses(matches: Seq<Hit>, name: Seq<char>)
    ensures
        ({
            let r = sorted_by(uses(matches, name), rank::<ReferenceMatch>());
            &&& r.len() == matches.len()
            &&& forall|i: int|
                0 <= i < matches.len() ==> exists|k: int|
                    0 <= k < r.len() && (#[trigger] r[k]).path == (#[trigger] matches[i]).path && r[k].line
                        == matches[i].line && r[k].preview == matches[i].preview && r[k].is_definition == (
                    definition_kind(matches[i].preview, name) is Some)
            &&& are_in_reference_order(r)
        }),
{
    let all = uses(matches, name);
    sorted_references(all);
    let r = sorted_by(all, rank::<ReferenceMatch>());
    assert forall|i: int| 0 <= i < matches.len() implies exists|k: int|
        0 <= k < r.len() && (#[trigger] r[k]).path == (#[trigger] matches[i]).path && r[k].line == matches[i].line
            && r[k].preview == matches[i].preview && r[k].is_definition == (definition_kind(
            matches[i].preview,
            name,
        ) is Some) by {
        contained_after_sorting(all, r, i);
        let k = choose|k: int| 0 <= k < r.len() && r[k] == all[i];
        assert(r[k].path == matches[i].path);
    }
}

/// The symbols that a server finds are those of its answer whose names fit, each as often as it is there,
/// by path and, in one file, by line.
pub proof fn all_fitting_symbols_are_found(items: Seq<Json>, query: Seq<char>, root: Seq<char>)
    ensures
        ({
            let kept = items.filter(|item: Json| name_fits(item.str_or("name"@, Seq::empty()), query));
            let r = sorted_by(fitting_symbols(items, query, root), rank::<SymbolMatch>());
            &&& r.to_multiset() == kept.map_values(|item: Json| found_at(item, root)).to_multiset()
            &&& r.len() == kept.len()
            &&& forall|i: int, j: int|
                0 <= i < j < r.len() ==> !lex_lt((#[trigger] r[j]).path, (#[trigger] r[i]).path) && (r[i].path
                    == r[j].path ==> r[i].line <= r[j].line)
        }),
{
    let lt = rank::<SymbolMatch>();
    let s = fitting_symbols(items, query, root);
    fitting_symbols_are_filtered(items, query, root);
    found_order();
    sorting_is_stable(s, lt);
    let r = sorted_by(s, lt);
    assert forall|i: int, j: int| 0 <= i < j < r.len() implies !lex_lt((#[trigger] r[j]).path, (#[trigger] r[i]).path)
        && (r[i].path == r[j].path ==> r[i].line <= r[j].line) by {
        assert(!lt(r[j], r[i]));
    }
}

/// A symbol where a server says that it is.
pub open spec fn found_at(item: Json, root: Seq<char>) -> Found {
    Found {
        path: uri_relative(text_or_none(item.get2("location"@, "uri"@)), root),
        line: shown_start(
            match item.get("location"@) {
                Some(l) => l.get3("range"@, "start"@, "line"@),
                None => None,
            },
        ),
        kind: kind_name(item.u64_or("kind"@, 0)),
        preview: Seq::empty(),
        body: None,
    }
}

proof fn fitting_symbols_are_filtered(items: Seq<Json>, query: Seq<char>, root: Seq<char>)
    ensures
        fitting_symbols(items, query, root) == items.filter(
            |item: Json| name_fits(item.str_or("name"@, Seq::empty()), query),
        ).map_values(|item: Json| found_at(item, root)),
    decreases items.len(),
{
    reveal(Seq::filter);
    let p = |item: Json| name_fits(item.str_or("name"@, Seq::empty()), query);
    let make = |item: Json| found_at(item, root);
    if items.len() > 0 {
        fitting_symbols_are_filtered(items.drop_last(), query, root);
        let rest = items.drop_last().filter(p);
        if p(items.last()) {
            assert(rest.push(items.last()).map_values(make) =~= rest.map_values(make).push(make(items.last())));
            assert(fitting_symbols(items, query, root).last() == make(items.last()));
        }
    } else {
        assert(items.filter(p).map_values(make) =~= Seq::empty());
    }
}

/// A name fits a query that it starts with or that it is but for the case of its letters, and no other.
/// The receiver before the name of a method does not count.
pub proof fn names_fit_what_they_start_with(name: Seq<char>, more: Seq<char>, query: Seq<char>)
    ensures
        base(name + more) == name + more ==> name_fits(name + more, name),
        base(name) == name && eq_no_case(name, query) ==> name_fits(name, query),
        name_fits(name, query) ==> base(name).len() >= query.len() && eq_no_case(
            base(name).take(query.len() as int),
            query,
        ),
{
    let whole = name + more;
    assert(whole.take(name.len() as int) =~= name);
    assert(whole.subrange(0, name.len() as int) =~= name);
    let b = base(name);
    if name_fits(name, query) {
        let front = b.take(query.len() as int);
        if eq_no_case(b, query) {
            assert(front =~= b);
        } else {
            assert(b.subrange(0, query.len() as int) =~= front);
            assert(front =~= query);
        }
    }
}

/// A line of the protocol is shown as the next number, and a file by its path below the project root.
pub proof fn locations_are_shown_from_one(n: int, root: Seq<char>, path: Seq<char>)
    requires
        0 <= n < u32::MAX,
        is_absolute(root),
        !is_absolute(path),
    ensures
        shown_start(Some(Json::Int(n))) == n + 1,
        shown_start(None) == 1,
        names(uri_relative("file://"@ + joined(root, path), root)) == names_behind(path),
{
    let u = "file://"@ + joined(root, path);
    let k = "file://"@.len() as int;
    assert(u.take(k) =~= "file://"@);
    assert(u.subrange(0, k) =~= "file://"@);
    assert(u.skip(k) =~= joined(root, path));
    joined_is_shown(root, path);
}

/// The directories of artifacts are excluded, at the top of a project and at any depth. A path is
/// excluded only where one of these names stands in it before a slash.
pub proof fn artifacts_are_excluded(outer: Seq<char>, rest: Seq<char>, i: int, path: Seq<char>)
    requires
        0 <= i < 10,
    ensures
        ({
            let dir = seq![
                "target/"@,
                ".git/"@,
                "node_modules/"@,
                ".mypy_cache/"@,
                "__pycache__/"@,
                ".cache/"@,
                "dist/"@,
                "build/"@,
                ".next/"@,
                ".nuxt/"@,
            ][i];
            is_excluded(dir + rest) && is_excluded(outer + "/"@ + dir + rest)
        }),
        is_excluded(path) ==> ({
            let dirs = seq![
                "target/"@,
                ".git/"@,
                "node_modules/"@,
                ".mypy_cache/"@,
                "__pycache__/"@,
                ".cache/"@,
                "dist/"@,
                "build/"@,
                ".next/"@,
                ".nuxt/"@,
            ];
            exists|k: int|
                0 <= k < 10 && (starts_with(path, #[trigger] dirs[k]) || contains(path, "/"@ + dirs[k]))
        }),
{
    let dir = excluded_dirs()[i];
    let s = dir + rest;
    assert(s.take(dir.len() as int) =~= dir);
    assert(s.subrange(0, dir.len() as int) =~= dir);
    assert(starts_with(s, excluded_dirs()[i]));
    let p = "/"@ + dir;
    let t = outer + "/"@ + dir + rest;
    assert(t.subrange(outer.len() as int, (outer.len() + p.len()) as int) =~= p);
    assert(occurs_at(t, p, outer.len() as int));
    find_is_first(t, p, outer.len() as int);
    assert(contains(t, "/"@ + excluded_dirs()[i]));
}

/// The references that look like definitions of functions, or name the method on a line that opens a
/// block, are its implementations, but for the definitions and the place that was asked about.
pub proof fn implementations_are_filtered(refs: Seq<Reference>, name: Seq<char>, path: Seq<char>, line: u32)
    ensures
        implementations(refs, name, path, line) == refs.filter(
            |r: Reference|
                !r.is_definition && !(r.path == path && r.line == line) && ({
                    let t = trim_start(r.preview);
                    starts_with(t, "func "@) || starts_with(t, "function "@) || starts_with(t, "async function "@) || (
                    contains(t, name) && ends_with(t, "{"@))
                }),
        ).map_values(
            |r: Reference| Found { path: r.path, line: r.line, kind: "implementation"@, preview: r.preview, body: None },
        ),
    decreases refs.len(),
{
    reveal(Seq::filter);
    let p = |r: Reference|
        !r.is_definition && !(r.path == path && r.line == line) && ({
            let t = trim_start(r.preview);
            starts_with(t, "func "@) || starts_with(t, "function "@) || starts_with(t, "async function "@) || (contains(
                t,
                name,
            ) && ends_with(t, "{"@))
        });
    let make = |r: Reference|
        Found { path: r.path, line: r.line, kind: "implementation"@, preview: r.preview, body: None };
    if refs.len() > 0 {
        implementations_are_filtered(refs.drop_last(), name, path, line);
        let rest = refs.drop_last().filter(p);
        if p(refs.last()) {
            assert(rest.push(refs.last()).map_values(make) =~= rest.map_values(make).push(make(refs.last())));
            assert(implementations(refs, name, path, line).last() == make(refs.last()));
        }
    } else {
        assert(refs.filter(p).map_values(make) =~= Seq::empty());
    }
}

/// A name of its own at a place: its characters stand there, and no character of a name right before or
/// behind them.
pub open spec fn stands_alone(s: Seq<char>, name: Seq<char>, i: int) -> bool {
    &&& 0 <= i
    &&& i + name.len() <= s.len()
    &&& forall|k: int| 0 <= k < name.len() ==> s[i + k] == #[trigger] name[k]
    &&& i > 0 ==> !is_name_char(s[i - 1])
    &&& i + name.len() < s.len() ==> !is_name_char(s[i + name.len()])
}

/// Letters, digits, the underscore and the dollar sign make names, and no other ASCII character does.
pub proof fn names_are_made_of_letters(c: char)
    requires
        (c as u32) < 0x80,
    ensures
        is_name_char(c) <==> {
            ||| 0x61 <= c as u32 <= 0x7a
            ||| 0x41 <= c as u32 <= 0x5a
            ||| 0x30 <= c as u32 <= 0x39
            ||| c as u32 == 0x5f
            ||| c as u32 == 0x24
        },
{
}

proof fn name_from_is_first(s: Seq<char>, name: Seq<char>, i: int)
    requires
        0 <= i,
    ensures
        match name_from(s, name, i, true) {
            Some(k) => i <= k && stands_alone(s, name, k) && forall|j: int| i <= j < k ==> !stands_alone(s, name, j),
            None => forall|j: int| i <= j ==> !stands_alone(s, name, j),
        },
    decreases s.len() - i + 1,
{
    if i + name.len() <= s.len() {
        let part = s.subrange(i, i + name.len());
        assert(stands_alone(s, name, i) == is_name_at(s, name, i, true)) by {
            if part == name {
                assert forall|k: int| 0 <= k < name.len() implies s[i + k] == #[trigger] name[k] by {
                    assert(part[k] == s[i + k]);
                }
            }
            if forall|k: int| 0 <= k < name.len() ==> s[i + k] == #[trigger] name[k] {
                assert(part =~= name);
            }
        }
        if !is_name_at(s, name, i, true) {
            name_from_is_first(s, name, i + 1);
        }
    }
}

proof fn name_near_is_first(ls: Seq<Seq<char>>, from: int, left: int, name: Seq<char>)
    requires
        0 <= from,
        0 <= left,
    ensures
        match name_near(ls, from, left, name, true) {
            Some((l, col)) => from <= l < from + left && l < ls.len() && (exists|i: int|
                stands_alone(ls[l], name, i) && col == utf16_len(#[trigger] ls[l].take(i)) && forall|j: int|
                    0 <= j < i ==> !stands_alone(ls[l], name, j)) && forall|m: int, j: int|
                from <= m < l && 0 <= j ==> !#[trigger] stands_alone(ls[m], name, j),
            None => forall|m: int, j: int|
                from <= m < from + left && m < ls.len() && 0 <= j ==> !#[trigger] stands_alone(ls[m], name, j),
        },
    decreases left,
{
    if left > 0 && from < ls.len() {
        name_from_is_first(ls[from], name, 0);
        match name_from(ls[from], name, 0, true) {
            Some(i) => {
                assert(stands_alone(ls[from], name, i) && utf16_len(ls[from].take(i)) == utf16_len(ls[from].take(i)));
            },
            None => {
                name_near_is_first(ls, from + 1, left - 1, name);
            },
        }
    }
}

/// A name that was reported on a line stands, as a name of its own, on the first of that line and the
/// three below it that has it so, at the first place there.
pub proof fn name_is_found_where_it_stands_alone(content: Seq<char>, line: u32, name: Seq<char>, l: int, i: int)
    requires
        line > 0,
        lines(content).len() <= u32::MAX,
        line - 1 <= l < line + 3,
        l < lines(content).len(),
        stands_alone(lines(content)[l], name, i),
        forall|j: int| 0 <= j < i ==> !stands_alone(lines(content)[l], name, j),
        forall|m: int, j: int| line - 1 <= m < l && 0 <= j ==> !#[trigger] stands_alone(lines(content)[m], name, j),
        utf16_len(lines(content)[l].take(i)) <= u32::MAX,
    ensures
        name_position(Some(content), line, name).0 == l,
        name_position(Some(content), line, name).1 == utf16_len(lines(content)[l].take(i)),
{
    let ls = lines(content);
    name_near_is_first(ls, line - 1, 4, name);
    match name_near(ls, line - 1, 4, name, true) {
        Some((m, col)) => {
            let k = choose|k: int|
                stands_alone(ls[m], name, k) && col == utf16_len(#[trigger] ls[m].take(k)) && forall|j: int|
                    0 <= j < k ==> !stands_alone(ls[m], name, j);
            assert(m == l);
            if k < i {
                assert(!stands_alone(ls[l], name, k));
            } else if i < k {
                assert(!stands_alone(ls[m], name, i));
            }
            utf16_len_mono(ls[l], i);
        },
        None => {
            assert(!stands_alone(ls[l], name, i));
        },
    }
}

/// Opening less closing braces of the lines from `a` up to `b`.
pub open spec fn braces_between(ls: Seq<Seq<char>>, a: int, b: int) -> int
    decreases b - a,
{
    if a >= b {
        0
    } else {
        braces_between(ls, a, b - 1) + brace_balance(ls[b - 1])
    }
}

/// Some line from `a` up to `b` opens a brace.
pub open spec fn opens_between(ls: Seq<Seq<char>>, a: int, b: int) -> bool {
    exists|i: int| a <= i < b && (#[trigger] ls[i]).contains('{')
}

/// A body that starts at line `start` is complete with line `e`: all its braces are closed again, or the
/// line ends with a semicolon and there was no brace.
pub open spec fn is_complete(ls: Seq<Seq<char>>, start: int, e: int) -> bool {
    if opens_between(ls, start, e + 1) {
        braces_between(ls, start, e + 1) <= 0
    } else {
        trim_end(ls[e]).len() > 0 && trim_end(ls[e]).last() == ';'
    }
}

proof fn body_ends_first(ls: Seq<Seq<char>>, start: int, i: int)
    requires
        0 <= start <= i < ls.len(),
        i - start <= 199,
    ensures
        ({
            let e = body_last_line(ls, start, i, braces_between(ls, start, i), opens_between(ls, start, i));
            &&& i <= e < ls.len()
            &&& e - start <= 199
            &&& forall|j: int| i <= j < e ==> !#[trigger] is_complete(ls, start, j)
            &&& is_complete(ls, start, e) || e - start == 199 || e == ls.len() - 1
        }),
    decreases ls.len() - i,
{
    reveal_strlit(";");
    let t = trim_end(ls[i]);
    let semi = ";"@;
    assert(ends_with(t, semi) == (t.len() > 0 && t.last() == ';')) by {
        if t.len() > 0 {
            assert(t.skip(t.len() - 1) =~= seq![t.last()]);
            assert(semi =~= seq![';']);
            if t.last() != ';' {
                assert(seq![t.last()][0] != semi[0]);
            }
        }
    }
    assert(opens_between(ls, start, i + 1) == (opens_between(ls, start, i) || ls[i].contains('{'))) by {
        if opens_between(ls, start, i) {
            let k = choose|k: int| start <= k < i && (#[trigger] ls[k]).contains('{');
            assert(start <= k < i + 1 && ls[k].contains('{'));
        }
    }
    let complete = is_complete(ls, start, i);
    if !complete && i - start < 199 && i + 1 < ls.len() {
        body_ends_first(ls, start, i + 1);
    }
}

/// The body of a symbol is made of the lines from its first line on, up to the first with which it is
/// complete, but no more than 200 and none behind the end of the file.
pub proof fn body_goes_to_its_last_brace(content: Seq<char>, start_line: u32, e: int)
    requires
        start_line > 0,
        start_line - 1 <= e < lines(content).len(),
        e - (start_line - 1) <= 199,
        forall|j: int| start_line - 1 <= j < e ==> !#[trigger] is_complete(lines(content), start_line - 1, j),
        is_complete(lines(content), start_line - 1, e) || e - (start_line - 1) == 199 || e == lines(content).len() - 1,
    ensures
        symbol_body(content, start_line) == Some(join(lines(content).subrange(start_line - 1, e + 1), seq!['\n'])),
{
    let ls = lines(content);
    let start = start_line - 1;
    reveal_strlit("\n");
    assert("\n"@ =~= seq!['\n']);
    body_ends_first(ls, start, start);
    assert(!opens_between(ls, start, start));
    let f = body_last_line(ls, start, start, 0, false);
    if f < e {
        assert(!is_complete(ls, start, f));
    } else if e < f {
        assert(!is_complete(ls, start, e));
    }
}

/// Each match whose line defines the name is a definition of the kind that the line tells, in order, and no other
/// match is one.
pub proof fn all_definitions_are_found(matches: Seq<Hit>, name: Seq<char>)
    ensures
        definitions(matches, name) == matches.filter(|m: Hit| definition_kind(m.preview, name) is Some).map_values(|m: Hit|
            Found {
                path: m.path,
                line: m.line,
                kind: definition_kind(m.preview, name)->Some_0,
                preview: m.preview,
                body: None,
            }),
    decreases matches.len(),
{
    reveal(Seq::filter);
    let p = |m: Hit| definition_kind(m.preview, name) is Some;
    let make = |m: Hit|
            Found {
                path: m.path,
                line: m.line,
                kind: definition_kind(m.preview, name)->Some_0,
                preview: m.preview,
                body: None,
            };
    if matches.len() > 0 {
        all_definitions_are_found(matches.drop_last(), name);
        let rest = matches.drop_last().filter(p);
        if p(matches.last()) {
            assert(rest.push(matches.last()).map_values(make) =~= rest.map_values(make).push(make(matches.last())));
        }
    } else {
        assert(matches.filter(p).map_values(make) =~= Seq::empty());
    }
}

/// The keywords of definitions, and the kinds of the symbols that they define.
pub proof fn keyword_tells_the_kind(word: Seq<char>)
    ensures
        word == "const"@ || word == "let"@ || word == "var"@ ==> defined_kind(word) == Some("constant"@),
        word == "function"@ || word == "fn"@ || word == "def"@ || word == "async"@ ==> defined_kind(word) == Some("function"@),
        word == "class"@ ==> defined_kind(word) == Some("class"@),
        word == "interface"@ ==> defined_kind(word) == Some("interface"@),
        word == "type"@ ==> defined_kind(word) == Some("type_alias"@),
        word == "struct"@ || word == "enum"@ ==> defined_kind(word) == Some("struct"@),
        defined_kind(word) is Some ==> word == "const"@ || word == "let"@ || word == "var"@ || word == "function"@ || word == "fn"@ || word == "def"@ || word == "async"@ || word == "class"@ || word == "interface"@ || word == "type"@ || word == "struct"@ || word == "enum"@,
{
    reveal_strlit("const");
    assert("const"@.len() == 5);
    reveal_strlit("let");
    assert("let"@.len() == 3);
    reveal_strlit("var");
    assert("var"@.len() == 3);
    reveal_strlit("function");
    assert("function"@.len() == 8);
    reveal_strlit("fn");
    assert("fn"@.len() == 2);
    reveal_strlit("def");
    assert("def"@.len() == 3);
    reveal_strlit("async");
    assert("async"@.len() == 5);
    reveal_strlit("class");
    assert("class"@.len() == 5);
    reveal_strlit("interface");
    assert("interface"@.len() == 9);
    reveal_strlit("type");
    assert("type"@.len() == 4);
    reveal_strlit("struct");
    assert("struct"@.len() == 6);
    reveal_strlit("enum");
    assert("enum"@.len() == 4);
    assert("const"@[0] != "async"@[0]);
    assert("let"@[0] != "def"@[0]);
    assert("var"@[0] != "def"@[0]);
    assert("const"@[1] != "class"@[1]);
    assert("async"@[0] != "class"@[0]);
    assert("type"@[0] != "enum"@[0]);
}

/// The word right before the first occurrence of a name tells what a line defines.
pub proof fn word_before_the_name_tells_the_kind(
    line: Seq<char>,
    front: Seq<char>,
    word: Seq<char>,
    gap: Seq<char>,
    name: Seq<char>,
    rest: Seq<char>,
)
    requires
        trim(line) == front + word + gap + name + rest,
        forall|k: int| 0 <= k < (front + word + gap).len() ==> !#[trigger] occurs_at(trim(line), name, k),
        word.len() > 0,
        forall|k: int| 0 <= k < word.len() ==> !is_space(#[trigger] word[k]),
        forall|k: int| 0 <= k < gap.len() ==> is_space(#[trigger] gap[k]),
        front.len() == 0 || is_space(front.last()),
    ensures
        definition_kind(line, name) == defined_kind(word),
{
    let t = trim(line);
    let before = front + word + gap;
    let n = before.len() as int;
    assert(t.subrange(n, n + name.len()) =~= name);
    assert(occurs_at(t, name, n));
    find_is_first(t, name, 0);
    assert(find(t, name) == Some(n));
    assert(t.take(n) =~= before);
    assert((front + word).last() == word[word.len() - 1]);
    end_stays(front + word, gap);
    last_word_is_read(front, word);
}

proof fn end_stays(s: Seq<char>, gap: Seq<char>)
    requires
        s.len() > 0,
        !is_space(s.last()),
        forall|k: int| 0 <= k < gap.len() ==> is_space(#[trigger] gap[k]),
    ensures
        trim_end(s + gap) == s,
    decreases gap.len(),
{
    if gap.len() == 0 {
        assert(s + gap =~= s);
    } else {
        assert((s + gap).last() == gap[gap.len() - 1]);
        assert((s + gap).drop_last() =~= s + gap.drop_last());
        end_stays(s, gap.drop_last());
    }
}

proof fn last_word_is_read(front: Seq<char>, word: Seq<char>)
    requires
        forall|k: int| 0 <= k < word.len() ==> !is_space(#[trigger] word[k]),
        front.len() == 0 || is_space(front.last()),
    ensures
        word_at_end(front + word) == word,
    decreases word.len(),
{
    if word.len() == 0 {
        assert(front + word =~= front);
        assert(word_at_end(front) =~= word);
    } else {
        assert((front + word).last() == word[word.len() - 1]);
        assert((front + word).drop_last() =~= front + word.drop_last());
        last_word_is_read(front, word.drop_last());
        assert(word =~= word.drop_last().push(word.last()));
    }
}

/// A line lies in the first entry whose lines hold it: in the innermost of those inside it that hold the line too,
/// or else in the entry itself.
pub proof fn line_lies_in_its_entry(s: Seq<Entry>, line: u32, i: int)
    requires
        0 <= i <= s.len(),
        forall|k: int| 0 <= k < i ==> !((#[trigger] s[k]).line <= line <= s[k].end_line),
        i < s.len() ==> s[i].line <= line <= s[i].end_line,
    ensures
        i == s.len() ==> innermost(s, line) is None,
        i < s.len() ==> innermost(s, line) == match innermost(s[i].children, line) {
            Some(c) => Some(c),
            None => Some(Container { name: s[i].name, kind: s[i].kind, line: s[i].line }),
        },
    decreases s.len(),
{
    if s.len() > 0 {
        let init = s.drop_last();
        assert(s[s.len() - 1] == s.last());
        assert forall|k: int| 0 <= k < init.len() && k < i implies !((#[trigger] init[k]).line <= line
            <= init[k].end_line) by {
            assert(init[k] == s[k]);
        }
        if i < init.len() {
            assert(init[i] == s[i]);
            line_lies_in_its_entry(init, line, i);
        } else {
            line_lies_in_its_entry(init, line, init.len() as int);
        }
    }
}

/// What is found gets the line of its file on which it stands as its preview, without the space around it, and is
/// else as it was.
pub proof fn previews_are_the_lines(s: Seq<Found>, r: Seq<Reference>, contents: Seq<Option<Seq<char>>>, i: int, text: Seq<char>)
    requires
        s.len() == contents.len(),
        r.len() == contents.len(),
        0 <= i < contents.len(),
        contents[i] == Some(text),
    ensures
        with_previews(s, contents).len() == s.len(),
        with_reference_previews(r, contents).len() == r.len(),
        0 < s[i].line <= lines(text).len() ==> with_previews(s, contents)[i] == (Found {
            preview: trim(lines(text)[s[i].line - 1]),
            ..s[i]
        }),
        0 < r[i].line <= lines(text).len() ==> with_reference_previews(r, contents)[i] == (Reference {
            preview: trim(lines(text)[r[i].line - 1]),
            ..r[i]
        }),
        s[i].line > lines(text).len() ==> with_previews(s, contents)[i].preview.len() == 0,
{
}

} // verus!
