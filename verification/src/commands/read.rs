//! Reading files and symbols with line numbers.

use crate::commands::find::{Found, SymbolMatch};
use crate::commands::search::{has_zero_byte, lines_between, looks_binary};
use crate::commands::DEFAULT_MAX_LINES;
use crate::json::{entries_view, field, Json, JsonValue};
use crate::lang::typescript::{is_overload_stub, is_stub};
use crate::lsp::symbols::{location_view, search_name, Symbol, SymbolLocation};
use crate::paths::{joined, path_join, relative_or_self, relative_to};
use crate::sorting::seen;
use crate::text::{
    char_index, decimal, decimal_of, decode_text, digit_count, ends_with, lines, pad_left, push_padded_left,
    slice_views, slices, split_lines, str_contains_char, str_ends_with, str_eq, unlines, views,
};
use vstd::prelude::*;
use vstd::utf8::{decode_utf8, valid_utf8};

verus! {

// ── Numbered lines ──────────────────────────────────────────────────────────

/// Width of the numbers of lines that end before line `last`: that of `last`, and at least 4.
pub open spec fn number_width(last: int) -> int {
    if decimal(last as nat).len() > 4 {
        decimal(last as nat).len() as int
    } else {
        4
    }
}

/// The first `n` lines, each behind its number and a tab, the numbers from `start` on set right.
pub open spec fn numbered_upto(ls: Seq<Seq<char>>, start: int, width: int, n: int) -> Seq<char>
    decreases n,
{
    if n <= 0 {
        Seq::empty()
    } else {
        numbered_upto(ls, start, width, n - 1) + pad_left(decimal((start + n - 1) as nat), width) + "\t"@ + ls[n - 1]
            + "\n"@
    }
}

/// The lines with their numbers, from `start` on.
pub open spec fn numbered(ls: Seq<Seq<char>>, start: int) -> Seq<char> {
    numbered_upto(ls, start, number_width(start + ls.len()), ls.len() as int)
}

/// Formats lines with their numbers.
pub fn format_numbered_lines(lines: &[&str], start_num: usize) -> (r: String)
    requires
        start_num + lines@.len() <= usize::MAX + 1,
    ensures
        r@ == numbered(slice_views(lines@), start_num as int),
{
    let n: usize = lines.len();
    let digits: usize = digit_count(start_num as u128 + n as u128);
    let width: usize = if digits > 4 {
        digits
    } else {
        4
    };
    let ghost all = slice_views(lines@);
    let mut out = String::new();
    let mut i: usize = 0;
    while i < n
        invariant
            0 <= i <= n,
            n == lines@.len(),
            all == slice_views(lines@),
            start_num + n <= usize::MAX + 1,
            out@ == numbered_upto(all, start_num as int, width as int, i as int),
        decreases n - i,
    {
        let num = decimal_of((start_num + i) as u64);
        push_padded_left(&mut out, num.as_str(), width);
        out.append("\t");
        out.append(lines[i]);
        out.append("\n");
        assert(all[i as int] == lines@[i as int]@);
        i = i + 1;
    }
    out
}

/// The greatest number of lines to show.
pub open spec fn line_limit(max_lines: Option<u32>) -> int {
    match max_lines {
        Some(n) => n as int,
        None => DEFAULT_MAX_LINES as int,
    }
}

/// The first `max` of the lines.
pub open spec fn first_lines(ls: Seq<Seq<char>>, max: int) -> Seq<Seq<char>> {
    if ls.len() > max {
        ls.take(max)
    } else {
        ls
    }
}

fn limit_of(max_lines: Option<u32>) -> (r: usize)
    ensures
        r == line_limit(max_lines),
{
    match max_lines {
        Some(n) => n as usize,
        None => DEFAULT_MAX_LINES as usize,
    }
}

// ── Files ───────────────────────────────────────────────────────────────────

/// Number of bytes at the start of a file in which a zero byte marks it as binary.
pub const BINARY_SCAN_SIZE: usize = 8192;

/// What came of reading a file.
pub enum FileRead {
    /// There is no such file.
    Missing,
    /// The file could not be read.
    Failed,
    /// The bytes of the file.
    Bytes(Vec<u8>),
}

/// The index of the first line to show.
pub open spec fn first_index(from: Option<u32>) -> int {
    match from {
        Some(n) => if n >= 1 {
            n - 1
        } else {
            0
        },
        None => 0,
    }
}

/// One past the index of the last line to show.
pub open spec fn last_index(to: Option<u32>, total: int) -> int {
    match to {
        Some(n) => if n <= total {
            n as int
        } else {
            total
        },
        None => total,
    }
}

/// The answer to reading a file: the lines from index `start` up to `end`, with their numbers, but
/// no more than `max` of them.
pub open spec fn file_json(rel: Seq<char>, ls: Seq<Seq<char>>, start: int, end: int, max: int) -> Json {
    let selected = ls.subrange(start, end);
    let shown = first_lines(selected, max);
    Json::Obj(
        seq![
            ("path"@, Json::Str(rel)),
            ("content"@, Json::Str(numbered(shown, start + 1))),
            ("from"@, Json::Int(start + 1)),
            ("to"@, Json::Int(start + shown.len())),
            ("total"@, Json::Int((ls.len() as u32) as int)),
            ("truncated"@, Json::Bool(selected.len() > max)),
        ],
    )
}

/// The answer to reading the lines from index `start` up to `end`.
fn file_answer(rel: String, all_lines: &Vec<String>, start: usize, end: usize, max_lines: Option<u32>) -> (r: JsonValue)
    requires
        start <= end <= all_lines@.len(),
        start < all_lines@.len(),
    ensures
        r@ == file_json(rel@, views(all_lines@), start as int, end as int, line_limit(max_lines)),
{
    let ghost ls = views(all_lines@);
    let count: usize = all_lines.len();
    let total: u32 = count as u32;
    let selected: usize = end - start;
    let max: usize = limit_of(max_lines);
    let truncated = selected > max;
    let shown: usize = if truncated {
        max
    } else {
        selected
    };
    let display = lines_between(all_lines, start, start + shown);
    assert(views(display@) =~= first_lines(ls.subrange(start as int, end as int), max as int));
    let borrowed = slices(&display);
    assert(borrowed@.len() == slice_views(borrowed@).len());
    let content_text = format_numbered_lines(borrowed.as_slice(), start + 1);
    let fields = vec![
        field("path", JsonValue::String(rel)),
        field("content", JsonValue::String(content_text)),
        field("from", JsonValue::number(start + 1)),
        field("to", JsonValue::number(start + shown)),
        field("total", JsonValue::UInt(total as u64)),
        field("truncated", JsonValue::Bool(truncated)),
    ];
    assert(entries_view(fields@) =~= file_json(rel@, ls, start as int, end as int, max as int)->Obj_0);
    JsonValue::object(fields)
}

/// The answer to reading a file, or why there is none.
pub open spec fn read_outcome(
    path: Seq<char>,
    read: FileRead,
    from: Option<u32>,
    to: Option<u32>,
    max: int,
    root: Seq<char>,
) -> Result<Json, Seq<char>> {
    match read {
        FileRead::Missing => Err("file not found: "@ + path),
        FileRead::Failed => Err("failed to read: "@ + path),
        FileRead::Bytes(raw) => if looks_binary(raw@, BINARY_SCAN_SIZE as int) {
            Err("binary file: "@ + path)
        } else if !valid_utf8(raw@) {
            Err("file is not valid UTF-8: "@ + path)
        } else {
            let ls = lines(decode_utf8(raw@));
            if first_index(from) >= ls.len() {
                Err(
                    "line "@ + decimal((first_index(from) + 1) as nat) + " is past end of file ("@ + decimal(
                        (ls.len() as u32) as nat,
                    ) + " lines)"@,
                )
            } else {
                Ok(
                    file_json(
                        relative_or_self(joined(root, path), root),
                        ls,
                        first_index(from),
                        last_index(to, ls.len() as int),
                        max,
                    ),
                )
            }
        },
    }
}

/// The lines of a text file are to be shown from one of them to an earlier one.
pub open spec fn runs_backwards(read: FileRead, from: Option<u32>, to: Option<u32>) -> bool {
    match (read, to) {
        (FileRead::Bytes(raw), Some(t)) => {
            &&& t < first_index(from) < lines(decode_utf8(raw@)).len()
            &&& valid_utf8(raw@)
            &&& !looks_binary(raw@, BINARY_SCAN_SIZE as int)
        },
        _ => false,
    }
}

/// The view of a result with a message.
pub open spec fn result_view(r: Result<JsonValue, String>) -> Result<Json, Seq<char>> {
    match r {
        Ok(v) => Ok(v@),
        Err(m) => Err(m@),
    }
}

fn message(text: &str, path: &str) -> (r: String)
    ensures
        r@ == text@ + path@,
{
    let mut m = text.to_string();
    m.append(path);
    m
}

/// Answers a request to read a file, with an optional line range and limit.
///
/// `read` is what came of reading the file at `path`, as seen from the project root.
pub fn handle_read_file(
    path: &str,
    read: FileRead,
    from: Option<u32>,
    to: Option<u32>,
    max_lines: Option<u32>,
    project_root: &str,
) -> (r: Result<JsonValue, String>)
    requires
        !runs_backwards(read, from, to),
    ensures
        result_view(r) == read_outcome(path@, read, from, to, line_limit(max_lines), project_root@),
{
    let raw = match read {
        FileRead::Missing => {
            return Err(message("file not found: ", path));
        },
        FileRead::Failed => {
            return Err(message("failed to read: ", path));
        },
        FileRead::Bytes(b) => b,
    };
    if has_zero_byte(&raw, BINARY_SCAN_SIZE) {
        return Err(message("binary file: ", path));
    }
    let content = match decode_text(raw) {
        Some(c) => c,
        None => {
            return Err(message("file is not valid UTF-8: ", path));
        },
    };
    let all_lines = split_lines(content.as_str());
    let ghost ls = views(all_lines@);
    let count: usize = all_lines.len();
    assert(ls.len() == count);
    let total: u32 = count as u32;
    let start: usize = match from {
        Some(n) => n.saturating_sub(1) as usize,
        None => 0,
    };
    let end: usize = match to {
        Some(t) => if (t as usize) < count {
            t as usize
        } else {
            count
        },
        None => count,
    };
    if start >= count {
        let mut m = "line ".to_string();
        crate::text::push_decimal(&mut m, start as u64 + 1);
        m.append(" is past end of file (");
        crate::text::push_decimal(&mut m, total as u64);
        m.append(" lines)");
        return Err(m);
    }
    let abs = path_join(project_root, path);
    let rel = relative_to(abs.as_str(), project_root);
    Ok(file_answer(rel, &all_lines, start, end, max_lines))
}

// ── Symbols ─────────────────────────────────────────────────────────────────

/// Index of the first line with an opening brace, or the number of lines where there is none.
pub open spec fn brace_line(ls: Seq<Seq<char>>) -> int
    decreases ls.len(),
{
    if ls.len() == 0 {
        0
    } else if ls[0].contains('{') {
        0
    } else {
        1 + brace_line(ls.drop_first())
    }
}

/// The lines of a symbol to show: all, or those of its signature. A signature ends with the first
/// line that has an opening brace; without one it is the first line.
pub open spec fn display_lines(selected: Seq<Seq<char>>, signature_only: bool) -> Seq<Seq<char>> {
    if signature_only {
        let n = brace_line(selected);
        let end = if 0 <= n < selected.len() {
            n + 1
        } else {
            1
        };
        first_lines(selected, end)
    } else {
        selected
    }
}

/// The answer to reading the symbol that stands on the lines `selected`, the first of which has
/// `start` lines before it.
pub open spec fn symbol_json(
    path: Seq<char>,
    name: Seq<char>,
    kind: Seq<char>,
    selected: Seq<Seq<char>>,
    start: int,
    signature_only: bool,
    max: int,
) -> Json {
    let display = display_lines(selected, signature_only);
    let shown = first_lines(display, max);
    Json::Obj(
        seq![
            ("path"@, Json::Str(path)),
            ("symbol"@, Json::Str(name)),
            ("kind"@, Json::Str(kind)),
            ("content"@, Json::Str(numbered(shown, start + 1))),
            ("from"@, Json::Int(start + 1)),
            ("to"@, Json::Int(start + shown.len())),
            ("truncated"@, Json::Bool(display.len() > max)),
        ],
    )
}

/// Number of lines of a symbol to show, before the limit.
fn display_count(ls: &Vec<String>, start: usize, end: usize, signature_only: bool) -> (r: usize)
    requires
        start <= end <= ls@.len(),
    ensures
        r <= end - start,
        display_lines(views(ls@).subrange(start as int, end as int), signature_only) == views(ls@).subrange(
            start as int,
            start + r,
        ),
{
    let ghost selected = views(ls@).subrange(start as int, end as int);
    if !signature_only {
        return end - start;
    }
    let mut i: usize = start;
    assert(selected.skip(0) =~= selected);
    while i < end && !str_contains_char(ls[i].as_str(), '{')
        invariant
            start <= i <= end <= ls@.len(),
            selected == views(ls@).subrange(start as int, end as int),
            brace_line(selected) == (i - start) + brace_line(selected.skip(i - start)),
        decreases end - i,
    {
        assert(selected.skip(i - start)[0] == ls@[i as int]@);
        assert(selected.skip(i - start).drop_first() =~= selected.skip(i + 1 - start));
        i = i + 1;
    }
    proof {
        if i < end {
            assert(selected.skip(i - start)[0] == ls@[i as int]@);
        }
    }
    let sig_end: usize = if i < end {
        i - start + 1
    } else {
        1
    };
    let count: usize = if sig_end < end - start {
        sig_end
    } else {
        end - start
    };
    assert(display_lines(selected, true) =~= views(ls@).subrange(start as int, start + count));
    count
}

/// The answer to reading the symbol on the lines from `start` up to `end`.
pub fn symbol_answer(
    path: &str,
    name: &str,
    kind: &str,
    ls: &Vec<String>,
    start: usize,
    end: usize,
    signature_only: bool,
    max_lines: Option<u32>,
) -> (r: JsonValue)
    requires
        start <= end <= ls@.len(),
        start < ls@.len(),
    ensures
        r@ == symbol_json(
            path@,
            name@,
            kind@,
            views(ls@).subrange(start as int, end as int),
            start as int,
            signature_only,
            line_limit(max_lines),
        ),
{
    let total: usize = ls.len();
    let ghost selected = views(ls@).subrange(start as int, end as int);
    let count: usize = display_count(ls, start, end, signature_only);
    let max: usize = limit_of(max_lines);
    let truncated = count > max;
    let shown: usize = if truncated {
        max
    } else {
        count
    };
    let display = lines_between(ls, start, start + shown);
    assert(views(display@) =~= first_lines(display_lines(selected, signature_only), max as int));
    let borrowed = slices(&display);
    assert(borrowed@.len() == slice_views(borrowed@).len());
    let content_text = format_numbered_lines(borrowed.as_slice(), start + 1);
    let fields = vec![
        field("path", JsonValue::str(path)),
        field("symbol", JsonValue::str(name)),
        field("kind", JsonValue::str(kind)),
        field("content", JsonValue::String(content_text)),
        field("from", JsonValue::number(start + 1)),
        field("to", JsonValue::number(start + shown)),
        field("truncated", JsonValue::Bool(truncated)),
    ];
    assert(entries_view(fields@) =~= symbol_json(
        path@,
        name@,
        kind@,
        selected,
        start as int,
        signature_only,
        max as int,
    )->Obj_0);
    JsonValue::object(fields)
}

/// A kind of symbol that may only refer to the one that is meant.
pub open spec fn is_secondary_kind(kind: Seq<char>) -> bool {
    kind == "property"@ || kind == "variable"@ || kind == "field"@
}

/// The places of the candidates of secondary kind, or of the others, in order.
pub open spec fn places(s: Seq<Found>, secondary: bool) -> Seq<(Seq<char>, u32)>
    decreases s.len(),
{
    if s.len() == 0 {
        Seq::empty()
    } else {
        let rest = places(s.drop_last(), secondary);
        if is_secondary_kind(s.last().kind) == secondary {
            rest.push((s.last().path, s.last().line))
        } else {
            rest
        }
    }
}

/// The order in which candidates are tried: those of secondary kind last.
pub open spec fn try_order(s: Seq<Found>) -> Seq<(Seq<char>, u32)> {
    places(s, false) + places(s, true)
}

/// What comes of trying a candidate: of resolving the name before the dot in its file, of resolving
/// the whole name there, and of reading the file.
pub struct Attempt {
    pub owner: Result<Symbol, Seq<char>>,
    pub member: Result<Symbol, Seq<char>>,
    pub content: Option<Seq<char>>,
}

impl Attempt {
    /// The symbol that a candidate is: a name with a dot is resolved only where what stands before
    /// the dot is.
    pub open spec fn resolved(self, name: Seq<char>) -> Result<Symbol, Seq<char>> {
        match self.owner {
            Ok(s) => if name.contains('.') {
                self.member
            } else {
                Ok(s)
            },
            Err(e) => Err(e),
        }
    }
}

/// A symbol to read: its name and how to show it, and the candidates in the order of trying.
pub struct ReadGoal {
    pub name: Seq<char>,
    pub signature_only: bool,
    pub max: int,
    pub has_body: bool,
    pub queue: Seq<(Seq<char>, u32)>,
}

/// The lines that a resolved symbol stands on.
pub open spec fn symbol_lines(content: Seq<char>, start_line: int, end_line: int) -> Seq<Seq<char>> {
    let ls = lines(content);
    ls.subrange(
        start_line,
        if end_line + 1 <= ls.len() {
            end_line + 1
        } else {
            ls.len() as int
        },
    )
}

impl ReadGoal {
    /// What candidate `i` resolved to has no body: it is declared only, or in a declaration file.
    pub open spec fn is_bodiless(self, i: int, selected: Seq<Seq<char>>) -> bool {
        ends_with(self.queue[i].0, ".d.ts"@) || is_stub(selected)
    }

    /// What is answered when the candidates from `i` on are tried with the results `attempts`,
    /// the earlier ones having left `err` as the last failure and `stub` as the first stub.
    ///
    /// The first candidate that resolves is answered. Where a body is asked for, one that has none
    /// is answered only when no later one has any.
    pub open spec fn outcome(
        self,
        attempts: Seq<Attempt>,
        i: int,
        err: Option<Seq<char>>,
        stub: Option<Json>,
    ) -> Result<Json, Seq<char>>
        decreases self.queue.len() - i,
    {
        if i >= self.queue.len() {
            match stub {
                Some(s) => Ok(s),
                None => Err(
                    match err {
                        Some(e) => e,
                        None => "symbol '"@ + self.name + "' not found in document symbols"@,
                    },
                ),
            }
        } else {
            match (attempts[i].resolved(self.name), attempts[i].content) {
                (Err(e), _) => self.outcome(attempts, i + 1, Some(e), stub),
                (Ok(_), None) => self.outcome(attempts, i + 1, Some("failed to read: "@ + self.queue[i].0), stub),
                (Ok(s), Some(content)) => if s.start_line >= lines(content).len() {
                    self.outcome(attempts, i + 1, Some("symbol range out of bounds"@), stub)
                } else {
                    let selected = symbol_lines(content, s.start_line as int, s.end_line as int);
                    let answer = symbol_json(
                        self.queue[i].0,
                        s.name,
                        s.kind,
                        selected,
                        s.start_line as int,
                        self.signature_only,
                        self.max,
                    );
                    if self.has_body && self.is_bodiless(i, selected) {
                        self.outcome(
                            attempts,
                            i + 1,
                            err,
                            match stub {
                                Some(s) => Some(s),
                                None => Some(answer),
                            },
                        )
                    } else {
                        Ok(answer)
                    }
                },
            }
        }
    }
}

/// A place where the symbol may stand: the path of a file and a line, counted from 1.
pub struct Candidate {
    pub path: String,
    pub line: u32,
}

/// The views of a list of candidates.
pub open spec fn candidate_views(v: Seq<Candidate>) -> Seq<(Seq<char>, u32)> {
    Seq::new(v.len(), |i: int| (v[i].path@, v[i].line))
}

/// What to do next to read a symbol.
pub enum ReadStep {
    /// Resolve this name in this file, near this line, counted from 0.
    Resolve { symbol: String, path: String, hint_line: Option<u32> },
    /// Answer this.
    Done(Result<JsonValue, String>),
}

/// Reads a symbol by trying candidates one after the other.
///
/// The caller asks for the next step; where that is to resolve a name, it hands back what came of it
/// by [`SymbolReader::on_resolved`]. Where that gives a symbol, it reads the file and hands back its
/// text by [`SymbolReader::on_found`], or tells by [`SymbolReader::on_unreadable`] that it has none.
pub struct SymbolReader {
    pub name: String,
    pub signature_only: bool,
    pub max_lines: Option<u32>,
    pub has_body: bool,
    pub queue: Vec<Candidate>,
    pub at: usize,
    /// Whether the name before the dot is resolved in the file of the candidate at `at`.
    pub owner_found: bool,
    pub last_err: Option<String>,
    pub stub_fallback: Option<JsonValue>,
}

/// The view of an optional value.
pub open spec fn opt_json(o: Option<JsonValue>) -> Option<Json> {
    match o {
        Some(v) => Some(v@),
        None => None,
    }
}

fn copy_places(candidates: &Vec<SymbolMatch>, secondary: bool, out: &mut Vec<Candidate>)
    ensures
        candidate_views(final(out)@) == candidate_views(old(out)@) + places(seen(candidates@), secondary),
{
    let ghost all = seen(candidates@);
    let ghost start = candidate_views(out@);
    let mut i: usize = 0;
    assert(all.take(0) =~= Seq::empty());
    assert(candidate_views(out@) =~= start + places(all.take(0), secondary));
    while i < candidates.len()
        invariant
            0 <= i <= candidates@.len(),
            all == seen(candidates@),
            candidate_views(out@) == start + places(all.take(i as int), secondary),
        decreases candidates@.len() - i,
    {
        let c = &candidates[i];
        assert(all.take(i + 1).drop_last() =~= all.take(i as int));
        assert(all.take(i + 1).last() == c@);
        let k = c.kind.as_str();
        let is_secondary = str_eq(k, "property") || str_eq(k, "variable") || str_eq(k, "field");
        if is_secondary == secondary {
            let ghost before = candidate_views(out@);
            out.push(Candidate { path: c.path.clone(), line: c.line });
            assert(candidate_views(out@) =~= before.push((c.path@, c.line)));
            assert(candidate_views(out@) =~= start + places(all.take(i + 1), secondary));
        }
        i = i + 1;
    }
    assert(all.take(i as int) =~= all);
}

impl SymbolReader {
    /// What is to be read.
    pub open spec fn goal(self) -> ReadGoal {
        ReadGoal {
            name: self.name@,
            signature_only: self.signature_only,
            max: line_limit(self.max_lines),
            has_body: self.has_body,
            queue: candidate_views(self.queue@),
        }
    }

    /// What is answered in the end, given what comes of each candidate.
    pub open spec fn outcome(self, attempts: Seq<Attempt>) -> Result<Json, Seq<char>> {
        self.goal().outcome(attempts, self.at as int, crate::text::opt_view(self.last_err), opt_json(self.stub_fallback))
    }

    /// What is known of the candidate at hand holds of `attempts`.
    pub open spec fn fits(self, attempts: Seq<Attempt>) -> bool {
        self.owner_found ==> self.name@.contains('.') && attempts[self.at as int].owner is Ok
    }

    /// What comes of resolving the name that is to be resolved next.
    pub open spec fn awaited(self, attempts: Seq<Attempt>) -> Result<Symbol, Seq<char>> {
        if self.owner_found {
            attempts[self.at as int].member
        } else {
            attempts[self.at as int].owner
        }
    }

    /// Starts to read the symbol `name` from candidates.
    ///
    /// `Err` holds the message for a symbol without any candidate.
    pub fn new(
        name: &str,
        candidates: &Vec<SymbolMatch>,
        signature_only: bool,
        max_lines: Option<u32>,
        has_body: bool,
    ) -> (r: Result<SymbolReader, String>)
        ensures
            match r {
                Ok(reader) => {
                    &&& candidates@.len() > 0
                    &&& reader.at == 0
                    &&& !reader.owner_found
                    &&& reader.goal() == (ReadGoal {
                        name: name@,
                        signature_only,
                        max: line_limit(max_lines),
                        has_body,
                        queue: try_order(seen(candidates@)),
                    })
                    &&& reader.last_err is None
                    &&& reader.stub_fallback is None
                },
                Err(m) => candidates@.len() == 0 && m@ == "symbol '"@ + name@ + "' not found"@,
            },
    {
        if candidates.len() == 0 {
            let mut m = "symbol '".to_string();
            m.append(name);
            m.append("' not found");
            return Err(m);
        }
        let mut queue: Vec<Candidate> = Vec::new();
        assert(candidate_views(queue@) =~= Seq::empty());
        copy_places(candidates, false, &mut queue);
        copy_places(candidates, true, &mut queue);
        assert(candidate_views(queue@) =~= try_order(seen(candidates@)));
        Ok(
            SymbolReader {
                name: name.to_string(),
                signature_only,
                max_lines,
                has_body,
                queue,
                at: 0,
                owner_found: false,
                last_err: None,
                stub_fallback: None,
            },
        )
    }

    /// The name to resolve next and where, or the answer.
    pub fn next_step(&self) -> (r: ReadStep)
        requires
            self.at <= self.queue@.len(),
        ensures
            match r {
                ReadStep::Resolve { symbol, path, hint_line } => {
                    let place = self.goal().queue[self.at as int];
                    &&& self.at < self.queue@.len()
                    &&& symbol@ == if self.owner_found {
                        self.name@
                    } else {
                        self.name@.take(char_index(self.name@, '.'))
                    }
                    &&& path@ == place.0
                    &&& hint_line == (if place.1 > 0 {
                        Some((place.1 - 1) as u32)
                    } else {
                        None
                    })
                },
                ReadStep::Done(answer) => self.at == self.queue@.len() && forall|a: Seq<Attempt>|
                    result_view(answer) == #[trigger] self.outcome(a),
            },
    {
        if self.at < self.queue.len() {
            let c = &self.queue[self.at];
            assert(self.goal().queue[self.at as int] == (c.path@, c.line));
            let hint_line = if c.line > 0 {
                Some((c.line - 1) as u32)
            } else {
                None
            };
            let symbol = if self.owner_found {
                self.name.clone()
            } else {
                search_name(self.name.as_str())
            };
            return ReadStep::Resolve { symbol, path: c.path.clone(), hint_line };
        }
        let answer = match &self.stub_fallback {
            Some(v) => Ok(v.copy()),
            None => match &self.last_err {
                Some(e) => Err(e.clone()),
                None => {
                    let mut m = "symbol '".to_string();
                    m.append(self.name.as_str());
                    m.append("' not found in document symbols");
                    Err(m)
                },
            },
        };
        ReadStep::Done(answer)
    }

    /// Takes notice of what came of resolving the name. Gives the symbol, where its file is to be read
    /// next.
    pub fn on_resolved(&mut self, resolved: Result<SymbolLocation, String>) -> (r: Option<SymbolLocation>)
        requires
            old(self).at < old(self).queue.len(),
        ensures
            final(self).goal() == old(self).goal(),
            match r {
                Some(s) => {
                    &&& *final(self) == *old(self)
                    &&& resolved matches Ok(t) && s == t
                    &&& old(self).owner_found || !old(self).name@.contains('.')
                    &&& forall|a: Seq<Attempt>|
                        #![trigger old(self).outcome(a)]
                        old(self).fits(a) && old(self).awaited(a) == location_view(resolved)
                            ==> a[old(self).at as int].resolved(old(self).name@) == Ok::<Symbol, Seq<char>>(s@)
                },
                None => {
                    &&& resolved is Ok ==> !old(self).owner_found && old(self).name@.contains('.')
                    &&& final(self).owner_found == resolved is Ok
                    &&& final(self).at == old(self).at + if resolved is Ok {
                        0int
                    } else {
                        1
                    }
                    &&& forall|a: Seq<Attempt>|
                        #![trigger old(self).outcome(a)]
                        old(self).fits(a) && old(self).awaited(a) == location_view(resolved) ==> final(self).fits(a)
                            && final(self).outcome(a) == old(self).outcome(a)
                },
            },
    {
        match resolved {
            Ok(s) => if self.owner_found || !str_contains_char(self.name.as_str(), '.') {
                Some(s)
            } else {
                self.owner_found = true;
                None
            },
            Err(e) => {
                self.last_err = Some(e);
                self.at = self.at + 1;
                self.owner_found = false;
                None
            },
        }
    }

    /// Takes notice that the file of the candidate that resolved cannot be read.
    pub fn on_unreadable(&mut self)
        requires
            old(self).at < old(self).queue.len(),
        ensures
            final(self).goal() == old(self).goal(),
            final(self).at == old(self).at + 1,
            !final(self).owner_found,
            forall|a: Seq<Attempt>|
                a[old(self).at as int].resolved(old(self).name@) is Ok && a[old(self).at as int].content is None
                    ==> #[trigger] final(self).outcome(a) == old(self).outcome(a),
    {
        let mut m = "failed to read: ".to_string();
        m.append(self.queue[self.at].path.as_str());
        assert(self.goal().queue[self.at as int].0 == self.queue@[self.at as int].path@);
        self.last_err = Some(m);
        self.at = self.at + 1;
        self.owner_found = false;
    }

    /// Takes notice of the lines and the file that the candidate resolved to, and answers where
    /// that settles it.
    pub fn on_found(&mut self, location: &SymbolLocation, content: &str) -> (r: Option<JsonValue>)
        requires
            old(self).at < old(self).queue.len(),
            location.start_line <= location.end_line + 1 || location.start_line >= lines(content@).len(),
        ensures
            final(self).goal() == old(self).goal(),
            final(self).at == old(self).at + 1,
            !final(self).owner_found,
            forall|a: Seq<Attempt>|
                a[old(self).at as int].resolved(old(self).name@) == Ok::<Symbol, Seq<char>>(location@)
                    && a[old(self).at as int].content == Some(content@) ==> match r {
                    Some(v) => #[trigger] old(self).outcome(a) == Ok::<Json, Seq<char>>(v@),
                    None => #[trigger] final(self).outcome(a) == old(self).outcome(a),
                },
    {
        let index: usize = self.at;
        self.at = self.at + 1;
        self.owner_found = false;
        let ls = split_lines(content);
        let count: usize = ls.len();
        assert(views(ls@).len() == count);
        let start: usize = location.start_line as usize;
        let past: u64 = location.end_line as u64 + 1;
        let end: usize = if past <= count as u64 {
            past as usize
        } else {
            count
        };
        if start >= count {
            self.last_err = Some("symbol range out of bounds".to_string());
            return None;
        }
        let ghost selected = symbol_lines(content@, location.start_line as int, location.end_line as int);
        assert(selected == views(ls@).subrange(start as int, end as int));
        let path = self.queue[index].path.clone();
        assert(self.goal().queue[index as int].0 == path@);
        let answer = symbol_answer(
            path.as_str(),
            location.name.as_str(),
            location.kind.as_str(),
            &ls,
            start,
            end,
            self.signature_only,
            self.max_lines,
        );
        let body = lines_between(&ls, start, end);
        let borrowed = slices(&body);
        if self.has_body && (str_ends_with(path.as_str(), ".d.ts") || is_overload_stub(borrowed.as_slice())) {
            if self.stub_fallback.is_none() {
                self.stub_fallback = Some(answer);
            }
            return None;
        }
        Some(answer)
    }
}

// ── Laws ────────────────────────────────────────────────────────────────────

/// Lines of a file, each behind its number and a tab: the first has the number `first`. The numbers are
/// set right to the width of the number behind the last, and to 4 at least.
pub open spec fn rows(ls: Seq<Seq<char>>, first: int) -> Seq<Seq<char>> {
    let digits = decimal((first + ls.len()) as nat).len() as int;
    Seq::new(
        ls.len(),
        |k: int|
            pad_left(
                decimal((first + k) as nat),
                if digits > 4 {
                    digits
                } else {
                    4
                },
            ) + seq!['\t'] + ls[k],
    )
}

proof fn numbered_upto_is_rows(ls: Seq<Seq<char>>, first: int, n: int)
    requires
        0 <= n <= ls.len(),
    ensures
        numbered_upto(ls, first, number_width(first + ls.len()), n) == unlines(rows(ls, first).take(n)),
    decreases n,
{
    reveal_strlit("\t");
    reveal_strlit("\n");
    assert("\t"@ =~= seq!['\t']);
    assert("\n"@ =~= seq!['\n']);
    let all = rows(ls, first);
    if n > 0 {
        numbered_upto_is_rows(ls, first, n - 1);
        assert(all.take(n).drop_last() =~= all.take(n - 1));
        assert(all.take(n).last() == all[n - 1]);
        assert(numbered_upto(ls, first, number_width(first + ls.len()), n) =~= unlines(all.take(n)));
    } else {
        assert(all.take(0) =~= Seq::empty());
        assert(unlines(all.take(0)) =~= Seq::empty());
    }
}

/// Numbered lines are all of the lines, in order, each on a line of its own behind its number.
pub proof fn numbering_shows_all_lines(ls: Seq<Seq<char>>, first: int)
    ensures
        numbered(ls, first) == unlines(rows(ls, first)),
{
    numbered_upto_is_rows(ls, first, ls.len() as int);
    assert(rows(ls, first).take(ls.len() as int) =~= rows(ls, first));
}

/// Reading lines of a file shows the lines from `start` up to `end`, or as many of them as the limit
/// allows, and says which these are, how many the file has, and whether the limit cut them.
pub proof fn file_shows_its_lines(rel: Seq<char>, ls: Seq<Seq<char>>, start: int, end: int, max: int)
    requires
        0 <= start <= end <= ls.len() <= u32::MAX,
        0 <= max,
    ensures
        ({
            let count = if end - start <= max {
                end - start
            } else {
                max
            };
            file_json(rel, ls, start, end, max) == Json::Obj(
                seq![
                    ("path"@, Json::Str(rel)),
                    ("content"@, Json::Str(unlines(rows(ls.subrange(start, start + count), start + 1)))),
                    ("from"@, Json::Int(start + 1)),
                    ("to"@, Json::Int(start + count)),
                    ("total"@, Json::Int(ls.len() as int)),
                    ("truncated"@, Json::Bool(end - start > max)),
                ],
            )
        }),
{
    let count = if end - start <= max {
        end - start
    } else {
        max
    };
    let shown = first_lines(ls.subrange(start, end), max);
    assert(shown =~= ls.subrange(start, start + count));
    numbering_shows_all_lines(shown, start + 1);
}

/// Reading a text file shows its lines from the one asked for, counted from 1, or the first, to the one
/// asked for, or the last, up to the limit.
pub proof fn reading_shows_what_is_asked(
    path: Seq<char>,
    raw: Vec<u8>,
    from: Option<u32>,
    to: Option<u32>,
    max: int,
    root: Seq<char>,
    first: int,
    last: int,
)
    requires
        valid_utf8(raw@),
        forall|i: int| 0 <= i < raw@.len() ==> #[trigger] raw@[i] != 0,
        lines(decode_utf8(raw@)).len() <= u32::MAX,
        0 <= max,
        first == match from {
            Some(n) => n as int,
            None => 1,
        },
        1 <= first <= lines(decode_utf8(raw@)).len(),
        last == match to {
            Some(n) => n as int,
            None => lines(decode_utf8(raw@)).len() as int,
        },
        first - 1 <= last <= lines(decode_utf8(raw@)).len(),
    ensures
        ({
            let ls = lines(decode_utf8(raw@));
            let asked = last - first + 1;
            let count = if asked <= max {
                asked
            } else {
                max
            };
            read_outcome(path, FileRead::Bytes(raw), from, to, max, root) == Ok::<Json, Seq<char>>(
                Json::Obj(
                    seq![
                        ("path"@, Json::Str(relative_or_self(joined(root, path), root))),
                        ("content"@, Json::Str(unlines(rows(ls.subrange(first - 1, first - 1 + count), first)))),
                        ("from"@, Json::Int(first)),
                        ("to"@, Json::Int(first - 1 + count)),
                        ("total"@, Json::Int(ls.len() as int)),
                        ("truncated"@, Json::Bool(asked > max)),
                    ],
                ),
            )
        }),
{
    let ls = lines(decode_utf8(raw@));
    assert(!looks_binary(raw@, BINARY_SCAN_SIZE as int));
    file_shows_its_lines(relative_or_self(joined(root, path), root), ls, first - 1, last, max);
}

/// A signature of `n` lines: it ends with the first line that has an opening brace, or is the first
/// line where none has.
pub open spec fn is_signature(ls: Seq<Seq<char>>, n: int) -> bool {
    &&& 1 <= n <= ls.len()
    &&& forall|i: int| 0 <= i < n - 1 ==> !(#[trigger] ls[i]).contains('{')
    &&& ls[n - 1].contains('{') || (n == 1 && forall|i: int| 0 <= i < ls.len() ==> !(#[trigger] ls[i]).contains('{'))
}

proof fn brace_line_is_first(ls: Seq<Seq<char>>)
    ensures
        0 <= brace_line(ls) <= ls.len(),
        forall|i: int| 0 <= i < brace_line(ls) ==> !(#[trigger] ls[i]).contains('{'),
        brace_line(ls) < ls.len() ==> ls[brace_line(ls)].contains('{'),
    decreases ls.len(),
{
    if ls.len() > 0 && !ls[0].contains('{') {
        let rest = ls.drop_first();
        brace_line_is_first(rest);
        assert forall|i: int| 0 <= i < brace_line(ls) implies !(#[trigger] ls[i]).contains('{') by {
            if i > 0 {
                assert(ls[i] == rest[i - 1]);
            }
        }
        if brace_line(ls) < ls.len() {
            assert(ls[brace_line(ls)] == rest[brace_line(rest)]);
        }
    }
}

/// The signature of a symbol ends with the first line that has an opening brace.
pub proof fn signature_ends_with_its_brace(ls: Seq<Seq<char>>)
    requires
        ls.len() > 0,
    ensures
        is_signature(ls, display_lines(ls, true).len() as int),
        display_lines(ls, true) == ls.take(display_lines(ls, true).len() as int),
        display_lines(ls, false) == ls,
{
    brace_line_is_first(ls);
    let n = display_lines(ls, true).len() as int;
    assert(display_lines(ls, true) =~= ls.take(n));
    assert(ls[0] == ls[n - 1] || n > 1);
}

/// A symbol that stands on the lines from `start_line` to `end_line` of a file, both counted from 0 and
/// the last one included, is shown by these lines, or as many of them as its signature has and the
/// limit allows.
pub proof fn symbol_shows_its_lines(
    path: Seq<char>,
    name: Seq<char>,
    kind: Seq<char>,
    content: Seq<char>,
    start_line: int,
    end_line: int,
    signature_only: bool,
    max: int,
    whole: int,
)
    requires
        0 <= start_line <= end_line < lines(content).len(),
        0 <= max,
        signature_only ==> is_signature(lines(content).subrange(start_line, end_line + 1), whole),
        !signature_only ==> whole == end_line - start_line + 1,
    ensures
        ({
            let count = if whole <= max {
                whole
            } else {
                max
            };
            symbol_json(
                path,
                name,
                kind,
                symbol_lines(content, start_line, end_line),
                start_line,
                signature_only,
                max,
            ) == Json::Obj(
                seq![
                    ("path"@, Json::Str(path)),
                    ("symbol"@, Json::Str(name)),
                    ("kind"@, Json::Str(kind)),
                    (
                        "content"@,
                        Json::Str(
                            unlines(rows(lines(content).subrange(start_line, start_line + count), start_line + 1)),
                        ),
                    ),
                    ("from"@, Json::Int(start_line + 1)),
                    ("to"@, Json::Int(start_line + count)),
                    ("truncated"@, Json::Bool(whole > max)),
                ],
            )
        }),
{
    let ls = lines(content);
    let selected = symbol_lines(content, start_line, end_line);
    assert(selected =~= ls.subrange(start_line, end_line + 1));
    signature_ends_with_its_brace(selected);
    let display = display_lines(selected, signature_only);
    if signature_only {
        let n = display.len() as int;
        if n < whole {
            assert(selected[n - 1] == selected[n - 1]);
        } else if whole < n {
            assert(selected[whole - 1] == selected[whole - 1]);
        }
        assert(n == whole);
    }
    let count = if whole <= max {
        whole
    } else {
        max
    };
    let shown = first_lines(display, max);
    assert(shown =~= ls.subrange(start_line, start_line + count));
    numbering_shows_all_lines(shown, start_line + 1);
}

impl ReadGoal {
    /// The lines of the symbol that a candidate resolves to lie in its file.
    pub open spec fn is_found(self, attempt: Attempt) -> bool {
        match (attempt.resolved(self.name), attempt.content) {
            (Ok(s), Some(c)) => s.start_line <= s.end_line && s.end_line < lines(c).len(),
            _ => false,
        }
    }

    /// What a candidate resolves to in its file counts as an answer at once: it has a body, or none is
    /// asked for. A body has an opening brace and does not stand in a declaration file.
    pub open spec fn settles(self, i: int, attempt: Attempt) -> bool {
        let s = attempt.resolved(self.name)->Ok_0;
        let ls = lines(attempt.content->Some_0).subrange(s.start_line as int, s.end_line + 1);
        self.is_found(attempt) && (!self.has_body || (!ends_with(self.queue[i].0, ".d.ts"@) && exists|k: int|
            0 <= k < ls.len() && (#[trigger] ls[k]).contains('{')))
    }

    /// The candidate does not resolve, or its file cannot be read.
    pub open spec fn fails(self, attempt: Attempt) -> bool {
        attempt.resolved(self.name) is Err || attempt.content is None
    }
}

/// What is answered for a symbol that stands on lines of a file: `whole` of them are to be shown, or as
/// many as the limit allows.
pub open spec fn shown_symbol(goal: ReadGoal, path: Seq<char>, s: Symbol, content: Seq<char>, whole: int) -> Json {
    let start = s.start_line as int;
    let count = if whole <= goal.max {
        whole
    } else {
        goal.max
    };
    Json::Obj(
        seq![
            ("path"@, Json::Str(path)),
            ("symbol"@, Json::Str(s.name)),
            ("kind"@, Json::Str(s.kind)),
            ("content"@, Json::Str(unlines(rows(lines(content).subrange(start, start + count), start + 1)))),
            ("from"@, Json::Int(start + 1)),
            ("to"@, Json::Int(start + count)),
            ("truncated"@, Json::Bool(whole > goal.max)),
        ],
    )
}

/// All lines of a symbol are to be shown, from its first to its last, or those of its signature.
pub open spec fn is_whole(goal: ReadGoal, s: Symbol, content: Seq<char>, whole: int) -> bool {
    if goal.signature_only {
        is_signature(lines(content).subrange(s.start_line as int, s.end_line + 1), whole)
    } else {
        whole == s.end_line - s.start_line + 1
    }
}

/// The first candidate that settles is answered, by the lines of its symbol; those before it, which fail
/// or have no body, do not matter.
pub proof fn first_settling_candidate_is_read(
    goal: ReadGoal,
    attempts: Seq<Attempt>,
    i: int,
    k: int,
    err: Option<Seq<char>>,
    stub: Option<Json>,
    whole: int,
)
    requires
        0 <= i <= k < goal.queue.len(),
        0 <= goal.max,
        forall|j: int|
            i <= j < k ==> goal.fails(#[trigger] attempts[j]) || (goal.is_found(attempts[j]) && !goal.settles(
                j,
                attempts[j],
            )),
        goal.settles(k, attempts[k]),
        is_whole(goal, attempts[k].resolved(goal.name)->Ok_0, attempts[k].content->Some_0, whole),
    ensures
        goal.outcome(attempts, i, err, stub) == Ok::<Json, Seq<char>>(
            shown_symbol(
                goal,
                goal.queue[k].0,
                attempts[k].resolved(goal.name)->Ok_0,
                attempts[k].content->Some_0,
                whole,
            ),
        ),
    decreases k - i,
{
    if i < k {
        assert(goal.fails(attempts[i]) || goal.is_found(attempts[i]));
        match (attempts[i].resolved(goal.name), attempts[i].content) {
            (Ok(s), Some(c)) => {
                unsettled_is_bodiless(goal, attempts[i], i);
                let answer = symbol_json(
                    goal.queue[i].0,
                    s.name,
                    s.kind,
                    symbol_lines(c, s.start_line as int, s.end_line as int),
                    s.start_line as int,
                    goal.signature_only,
                    goal.max,
                );
                let next = match stub {
                    Some(x) => Some(x),
                    None => Some(answer),
                };
                first_settling_candidate_is_read(goal, attempts, i + 1, k, err, next, whole);
            },
            (Ok(_), None) => {
                first_settling_candidate_is_read(
                    goal,
                    attempts,
                    i + 1,
                    k,
                    Some("failed to read: "@ + goal.queue[i].0),
                    stub,
                    whole,
                );
            },
            (Err(e), _) => {
                first_settling_candidate_is_read(goal, attempts, i + 1, k, Some(e), stub, whole);
            },
        }
    } else {
        let s = attempts[k].resolved(goal.name)->Ok_0;
        let c = attempts[k].content->Some_0;
        let ls = lines(c).subrange(s.start_line as int, s.end_line + 1);
        let selected = symbol_lines(c, s.start_line as int, s.end_line as int);
        assert(selected =~= ls);
        symbol_shows_its_lines(
            goal.queue[k].0,
            s.name,
            s.kind,
            c,
            s.start_line as int,
            s.end_line as int,
            goal.signature_only,
            goal.max,
            whole,
        );
    }
}

/// What is found and does not settle has no body where one is asked for.
proof fn unsettled_is_bodiless(goal: ReadGoal, attempt: Attempt, i: int)
    requires
        goal.is_found(attempt),
        !goal.settles(i, attempt),
    ensures
        goal.has_body,
        ({
            let s = attempt.resolved(goal.name)->Ok_0;
            let c = attempt.content->Some_0;
            goal.is_bodiless(i, symbol_lines(c, s.start_line as int, s.end_line as int))
        }),
{
    let s = attempt.resolved(goal.name)->Ok_0;
    let c = attempt.content->Some_0;
    let ls = lines(c).subrange(s.start_line as int, s.end_line + 1);
    assert(symbol_lines(c, s.start_line as int, s.end_line as int) =~= ls);
}

proof fn stub_stays(goal: ReadGoal, attempts: Seq<Attempt>, i: int, err: Option<Seq<char>>, stub: Json)
    requires
        0 <= i,
        forall|j: int|
            i <= j < goal.queue.len() ==> goal.fails(#[trigger] attempts[j]) || (goal.is_found(attempts[j])
                && !goal.settles(j, attempts[j])),
    ensures
        goal.outcome(attempts, i, err, Some(stub)) == Ok::<Json, Seq<char>>(stub),
    decreases goal.queue.len() - i,
{
    if i < goal.queue.len() {
        assert(goal.fails(attempts[i]) || goal.is_found(attempts[i]));
        match (attempts[i].resolved(goal.name), attempts[i].content) {
            (Ok(_), Some(_)) => {
                unsettled_is_bodiless(goal, attempts[i], i);
                stub_stays(goal, attempts, i + 1, err, stub);
            },
            (Ok(_), None) => {
                stub_stays(goal, attempts, i + 1, Some("failed to read: "@ + goal.queue[i].0), stub);
            },
            (Err(e), _) => {
                stub_stays(goal, attempts, i + 1, Some(e), stub);
            },
        }
    }
}

/// Where a body is asked for and no candidate has one, the first that is found at all is answered.
pub proof fn first_stub_is_answered_last(
    goal: ReadGoal,
    attempts: Seq<Attempt>,
    i: int,
    k: int,
    err: Option<Seq<char>>,
    whole: int,
)
    requires
        0 <= i <= k < goal.queue.len(),
        0 <= goal.max,
        forall|j: int| i <= j < k ==> goal.fails(#[trigger] attempts[j]),
        forall|j: int|
            k <= j < goal.queue.len() ==> goal.fails(#[trigger] attempts[j]) || (goal.is_found(attempts[j])
                && !goal.settles(j, attempts[j])),
        goal.is_found(attempts[k]),
        is_whole(goal, attempts[k].resolved(goal.name)->Ok_0, attempts[k].content->Some_0, whole),
    ensures
        goal.outcome(attempts, i, err, None) == Ok::<Json, Seq<char>>(
            shown_symbol(
                goal,
                goal.queue[k].0,
                attempts[k].resolved(goal.name)->Ok_0,
                attempts[k].content->Some_0,
                whole,
            ),
        ),
    decreases k - i,
{
    if i < k {
        assert(goal.fails(attempts[i]));
        match attempts[i].resolved(goal.name) {
            Ok(_) => {
                first_stub_is_answered_last(
                    goal,
                    attempts,
                    i + 1,
                    k,
                    Some("failed to read: "@ + goal.queue[i].0),
                    whole,
                );
            },
            Err(e) => {
                first_stub_is_answered_last(goal, attempts, i + 1, k, Some(e), whole);
            },
        }
    } else {
        let s = attempts[k].resolved(goal.name)->Ok_0;
        let c = attempts[k].content->Some_0;
        unsettled_is_bodiless(goal, attempts[k], k);
        symbol_shows_its_lines(
            goal.queue[k].0,
            s.name,
            s.kind,
            c,
            s.start_line as int,
            s.end_line as int,
            goal.signature_only,
            goal.max,
            whole,
        );
        stub_stays(goal, attempts, k + 1, err, shown_symbol(goal, goal.queue[k].0, s, c, whole));
    }
}

/// All candidates are tried in the order in which they are given, but for those that may only refer to
/// the symbol: properties, variables and fields come after all others.
pub proof fn all_candidates_are_tried(s: Seq<Found>)
    ensures
        try_order(s) == s.filter(|f: Found| f.kind != "property"@ && f.kind != "variable"@ && f.kind != "field"@).map_values(
            |f: Found| (f.path, f.line),
        ) + s.filter(|f: Found| !(f.kind != "property"@ && f.kind != "variable"@ && f.kind != "field"@)).map_values(
            |f: Found| (f.path, f.line),
        ),
    decreases s.len(),
{
    let main = |f: Found| f.kind != "property"@ && f.kind != "variable"@ && f.kind != "field"@;
    let other = |f: Found| !(f.kind != "property"@ && f.kind != "variable"@ && f.kind != "field"@);
    places_are_filtered(s, false, main);
    places_are_filtered(s, true, other);
}

proof fn places_are_filtered(s: Seq<Found>, secondary: bool, p: spec_fn(Found) -> bool)
    requires
        forall|f: Found| #[trigger] p(f) == (is_secondary_kind(f.kind) == secondary),
    ensures
        places(s, secondary) == s.filter(p).map_values(|f: Found| (f.path, f.line)),
    decreases s.len(),
{
    reveal(Seq::filter);
    let place = |f: Found| (f.path, f.line);
    if s.len() > 0 {
        places_are_filtered(s.drop_last(), secondary, p);
        let rest = s.drop_last().filter(p);
        if p(s.last()) {
            assert(rest.push(s.last()).map_values(place) =~= rest.map_values(place).push(place(s.last())));
        }
    } else {
        assert(s.filter(p).map_values(place) =~= Seq::empty());
    }
}

} // verus!
