//! What the daemon decides and answers for each request. What it cannot tell by itself (the files,
//! the index, what the language servers say, the time) it is given.

use crate::commands::find::{
    extract_symbol_body, find_innermost_containing, innermost, opt_container, opt_views, symbol_body, Found, Reference,
    ReferenceMatch, SymbolMatch,
};
use crate::commands::fix::opt_slice;
use crate::commands::list::{entries, Entry, SymbolEntry};
use crate::commands::read::result_view;
use crate::daemon::ignored::{all_rules, file_lines, filter_src_only, not_left_out};
use crate::daemon::values::{entries_value, entry_list, found_list, reference_list, references_value, symbols_value};
use crate::detect::language::{language_for_file, language_of, Language};
use crate::json::{Json, JsonValue};
use crate::lsp::pool::Readiness;
use crate::lsp::router::{
    firsts, firsts_keys, has_key, holds_place, merge_reference_results, merge_symbol_results, merged_references,
    merged_symbols, places, reference_place, seen_lists,
};
use crate::output::search::itself;
use crate::paths::is_absolute;
use crate::protocol::{failure, success, Answer, Response};
use crate::sorting::seen;
use crate::text::{
    contains, decimal, decimal_of, list_contains, opt_view, str_contains, str_eq, views,
};
use vstd::prelude::*;

verus! {

// ── Failures ────────────────────────────────────────────────────────────────

/// Seconds after its start in which the daemon takes a symbol that is not found for one that is not
/// indexed yet.
pub const INDEXING_GRACE_PERIOD_SECS: u64 = 60;

/// The language servers may still be indexing.
pub open spec fn still_indexing(readiness: Readiness, uptime: u64) -> bool {
    uptime < INDEXING_GRACE_PERIOD_SECS && readiness.total > 0 && readiness.ready < readiness.total
}

/// The answer while the language servers are indexing.
pub open spec fn indexing_answer(readiness: Readiness, uptime: u64) -> Answer {
    failure(
        "indexing"@,
        "LSP servers still indexing ("@ + decimal(readiness.ready as nat) + "/"@ + decimal(readiness.total as nat)
            + " ready, daemon uptime "@ + decimal(uptime as nat) + "s)"@,
        Some("Wait a few seconds and try again, or run `krait daemon status`"@),
    )
}

/// The answer where no symbol has the name.
pub open spec fn not_found_answer(name: Seq<char>) -> Answer {
    failure(
        "symbol_not_found"@,
        "symbol '"@ + name + "' not found"@,
        Some("Check the symbol name and try again"@),
    )
}

/// The answer where the project has no language.
pub open spec fn no_language_answer() -> Answer {
    failure("no_language"@, "No language detected in project"@, None)
}

fn is_indexing(readiness: &Readiness, uptime: u64) -> (r: bool)
    ensures
        r == still_indexing(*readiness, uptime),
{
    uptime < INDEXING_GRACE_PERIOD_SECS && readiness.total > 0 && !readiness.is_all_ready()
}

fn indexing_response(readiness: &Readiness, uptime: u64) -> (r: Response)
    ensures
        r@ == indexing_answer(*readiness, uptime),
{
    let mut m = "LSP servers still indexing (".to_string();
    m.append(decimal_of(readiness.ready as u64).as_str());
    m.append("/");
    m.append(decimal_of(readiness.total as u64).as_str());
    m.append(" ready, daemon uptime ");
    m.append(decimal_of(uptime).as_str());
    m.append("s)");
    Response::err_with_advice(
        "indexing",
        m.as_str(),
        "Wait a few seconds and try again, or run `krait daemon status`",
    )
}

fn not_found_text(name: &str) -> (r: String)
    ensures
        r@ == "symbol '"@ + name@ + "' not found"@,
{
    let mut m = "symbol '".to_string();
    m.append(name);
    m.append("' not found");
    m
}

/// The answer where no symbol has the name.
pub fn symbol_not_found(name: &str) -> (r: Response)
    ensures
        r@ == not_found_answer(name@),
{
    Response::err_with_advice(
        "symbol_not_found",
        not_found_text(name).as_str(),
        "Check the symbol name and try again",
    )
}

/// The answer where the project has no language.
pub fn no_language() -> (r: Response)
    ensures
        r@ == no_language_answer(),
{
    Response::err("no_language", "No language detected in project")
}

/// The answer after no language server had the symbol.
pub open spec fn missing_answer(name: Seq<char>, readiness: Readiness, uptime: u64) -> Answer {
    if still_indexing(readiness, uptime) {
        indexing_answer(readiness, uptime)
    } else {
        not_found_answer(name)
    }
}

/// The answer after no language server had the symbol to read.
pub fn read_symbol_missing(name: &str, readiness: &Readiness, uptime: u64) -> (r: Response)
    ensures
        r@ == missing_answer(name@, *readiness, uptime),
{
    if is_indexing(readiness, uptime) {
        indexing_response(readiness, uptime)
    } else {
        symbol_not_found(name)
    }
}

/// The answer after no language server had the symbol to edit.
pub fn edit_missing(name: &str, readiness: &Readiness, uptime: u64) -> (r: Response)
    ensures
        r@ == if still_indexing(*readiness, uptime) {
            failure(
                "indexing"@,
                "LSP servers still indexing ("@ + decimal(readiness.ready as nat) + "/"@ + decimal(
                    readiness.total as nat,
                ) + " ready)"@,
                Some("Wait a few seconds and try again"@),
            )
        } else {
            not_found_answer(name@)
        },
{
    if is_indexing(readiness, uptime) {
        let mut m = "LSP servers still indexing (".to_string();
        m.append(decimal_of(readiness.ready as u64).as_str());
        m.append("/");
        m.append(decimal_of(readiness.total as u64).as_str());
        m.append(" ready)");
        Response::err_with_advice("indexing", m.as_str(), "Wait a few seconds and try again")
    } else {
        symbol_not_found(name)
    }
}

// ── Finding symbols ─────────────────────────────────────────────────────────

/// The symbols whose path contains the text, or all.
pub open spec fn with_path(s: Seq<Found>, substr: Option<Seq<char>>) -> Seq<Found>
    decreases s.len(),
{
    match substr {
        Some(p) => if s.len() == 0 {
            Seq::empty()
        } else {
            let rest = with_path(s.drop_last(), substr);
            if contains(s.last().path, p) {
                rest.push(s.last())
            } else {
                rest
            }
        },
        None => s,
    }
}

/// Filters symbols to those whose path contains a text.
pub fn filter_by_path(symbols: Vec<SymbolMatch>, substr: Option<&str>) -> (r: Vec<SymbolMatch>)
    ensures
        seen(r@) == with_path(seen(symbols@), opt_slice(substr)),
{
    let p = match substr {
        Some(p) => p,
        None => {
            return symbols;
        },
    };
    let ghost all = seen(symbols@);
    let ghost wanted = Some(p@);
    let mut kept: Vec<SymbolMatch> = Vec::new();
    assert(all.take(0) =~= Seq::empty());
    assert(seen(kept@) =~= Seq::empty());
    for s in it: symbols
        invariant
            it.seq() == symbols@,
            all == seen(it.seq()),
            wanted == Some(p@),
            seen(kept@) == with_path(all.take(it.index()), wanted),
    {
        let ghost i = it.index();
        let ghost sv = s@;
        assert(all.take(i + 1).drop_last() =~= all.take(i));
        assert(all.take(i + 1).last() == sv);
        if str_contains(s.path.as_str(), p) {
            let ghost before = seen(kept@);
            kept.push(s);
            assert(seen(kept@) =~= before.push(sv));
        }
    }
    assert(all.take(all.len() as int) =~= all);
    kept
}

/// A symbol with the body that its file shows.
pub open spec fn with_body(f: Found, content: Option<Seq<char>>) -> Found {
    Found {
        body: match content {
            Some(c) => symbol_body(c, f.line),
            None => None,
        },
        ..f
    }
}

/// Symbols with the bodies that their files show.
pub open spec fn with_bodies(s: Seq<Found>, contents: Seq<Option<Seq<char>>>) -> Seq<Found> {
    Seq::new(s.len(), |i: int| with_body(s[i], contents[i]))
}

/// Fills in the body of each symbol. `contents` are the texts of their files, where they can be
/// read, in the order of the symbols.
pub fn populate_bodies(symbols: Vec<SymbolMatch>, contents: &Vec<Option<String>>) -> (r: Vec<SymbolMatch>)
    requires
        symbols@.len() == contents@.len(),
    ensures
        seen(r@) == with_bodies(seen(symbols@), opt_views(contents@)),
{
    let ghost all = seen(symbols@);
    let ghost texts = opt_views(contents@);
    let ghost want = with_bodies(all, texts);
    let total: usize = symbols.len();
    let mut out: Vec<SymbolMatch> = Vec::new();
    let mut i: usize = 0;
    assert(seen(out@) =~= want.take(0));
    for s in it: symbols
        invariant
            it.seq() == symbols@,
            i == it.index(),
            all == seen(it.seq()),
            total == all.len() == contents@.len(),
            texts == opt_views(contents@),
            want == with_bodies(all, texts),
            seen(out@) == want.take(i as int),
    {
        let ghost sv = s@;
        assert(all[i as int] == sv);
        let body = match &contents[i] {
            Some(c) => extract_symbol_body(c.as_str(), s.line),
            None => None,
        };
        let m = SymbolMatch { path: s.path, line: s.line, kind: s.kind, preview: s.preview, body };
        let ghost mv = m@;
        let ghost before = seen(out@);
        out.push(m);
        assert(seen(out@) =~= before.push(mv));
        assert(mv == with_body(sv, texts[i as int]));
        assert(want.take(i + 1) =~= want.take(i as int).push(mv));
        i = i + 1;
    }
    assert(want.take(want.len() as int) =~= want);
    out
}

/// What to do next for a symbol that is looked for.
pub enum FindStep {
    /// Ask the language servers.
    AskServers,
    /// Search the text of the project.
    SearchText,
    /// Answer with these symbols, with their bodies where they are asked for.
    Show(Vec<SymbolMatch>),
    /// Answer with this.
    Reply(Response),
}

/// Which of the symbols that are found are answered.
pub struct SymbolFilter {
    /// What the path has to contain.
    pub path_filter: Option<String>,
    /// Whether the symbols of ignored files are left out.
    pub src_only: bool,
    pub project_root: String,
    /// The lines of the project's ignore files.
    pub ignore_files: Vec<Vec<String>>,
}

impl SymbolFilter {
    /// The project root is an absolute path.
    pub open spec fn wf(self) -> bool {
        is_absolute(self.project_root@)
    }

    /// The symbols that are answered.
    pub open spec fn picked(self, s: Seq<Found>) -> Seq<Found> {
        let fitting = with_path(s, opt_view(self.path_filter));
        if self.src_only {
            not_left_out(fitting, self.project_root@, all_rules(file_lines(self.ignore_files@)))
        } else {
            fitting
        }
    }

    /// Picks the symbols that are answered.
    pub fn pick(&self, symbols: Vec<SymbolMatch>) -> (r: Vec<SymbolMatch>)
        requires
            self.wf(),
        ensures
            seen(r@) == self.picked(seen(symbols@)),
    {
        let substr: Option<&str> = match &self.path_filter {
            Some(p) => Some(p.as_str()),
            None => None,
        };
        let fitting = filter_by_path(symbols, substr);
        if self.src_only {
            filter_src_only(fitting, self.project_root.as_str(), &self.ignore_files)
        } else {
            fitting
        }
    }

    /// Decides after the index was asked: what it has is answered; otherwise the servers of the
    /// project's languages are asked.
    pub fn on_cache(&self, cached: Option<Vec<SymbolMatch>>, languages: &Vec<Language>) -> (r: FindStep)
        requires
            self.wf(),
        ensures
            match cached {
                Some(c) => r matches FindStep::Show(s) && seen(s@) == self.picked(seen(c@)),
                None => if languages@.len() == 0 {
                    r matches FindStep::Reply(a) && a@ == no_language_answer()
                } else {
                    r is AskServers
                },
            },
    {
        match cached {
            Some(c) => FindStep::Show(self.pick(c)),
            None => if languages.len() == 0 {
                FindStep::Reply(no_language())
            } else {
                FindStep::AskServers
            },
        }
    }

    /// Decides after the servers were asked: what they found is answered, merged. Where they found
    /// nothing, and are not indexing, the text is searched.
    pub fn on_results(&self, results: Vec<Vec<SymbolMatch>>, readiness: &Readiness, uptime: u64) -> (r: FindStep)
        requires
            self.wf(),
        ensures
            ({
                let merged = merged_symbols(seen_lists(results@));
                if merged.len() > 0 {
                    r matches FindStep::Show(s) && seen(s@) == self.picked(merged)
                } else if still_indexing(*readiness, uptime) {
                    r matches FindStep::Reply(a) && a@ == indexing_answer(*readiness, uptime)
                } else {
                    r is SearchText
                }
            }),
    {
        let merged = merge_symbol_results(results);
        assert(seen(merged@).len() == merged@.len());
        if merged.len() > 0 {
            FindStep::Show(self.pick(merged))
        } else if is_indexing(readiness, uptime) {
            FindStep::Reply(indexing_response(readiness, uptime))
        } else {
            FindStep::SearchText
        }
    }
}

/// The answer with symbols.
pub fn symbols_response(symbols: &Vec<SymbolMatch>) -> (r: Response)
    ensures
        r@ == success(found_list(seen(symbols@))),
{
    Response::ok(symbols_value(symbols.as_slice()))
}

// ── Finding references ──────────────────────────────────────────────────────

/// What to do next for references that are looked for.
pub enum RefStep {
    /// Search the text of the project for more than these.
    SearchText(Vec<ReferenceMatch>),
    /// Answer with these references, with their containing symbols where they are asked for.
    Show(Vec<ReferenceMatch>),
    /// Answer with this.
    Reply(Response),
}

/// Some reference is no definition.
pub open spec fn has_call_site(s: Seq<Reference>) -> bool {
    exists|i: int| 0 <= i < s.len() && !(#[trigger] s[i]).is_definition
}

fn any_call_site(refs: &Vec<ReferenceMatch>) -> (r: bool)
    ensures
        r == has_call_site(seen(refs@)),
{
    let ghost all = seen(refs@);
    let mut i: usize = 0;
    while i < refs.len()
        invariant
            0 <= i <= refs@.len(),
            all == seen(refs@),
            forall|k: int| 0 <= k < i ==> (#[trigger] all[k]).is_definition,
        decreases refs@.len() - i,
    {
        assert(all[i as int] == refs@[i as int]@);
        if !refs[i].is_definition {
            return true;
        }
        i = i + 1;
    }
    false
}

/// Decides after the servers were asked for references. Definitions alone are no answer: then the
/// text is searched for callers, unless the servers found nothing and are still indexing.
pub fn on_reference_results(results: Vec<Vec<ReferenceMatch>>, readiness: &Readiness, uptime: u64) -> (r: RefStep)
    ensures
        ({
            let merged = merged_references(seen_lists(results@));
            if has_call_site(merged) {
                r matches RefStep::Show(s) && seen(s@) == merged
            } else if merged.len() == 0 && still_indexing(*readiness, uptime) {
                r matches RefStep::Reply(a) && a@ == indexing_answer(*readiness, uptime)
            } else {
                r matches RefStep::SearchText(s) && seen(s@) == merged
            }
        }),
{
    let merged = merge_reference_results(results);
    assert(seen(merged@).len() == merged@.len());
    if any_call_site(&merged) {
        RefStep::Show(merged)
    } else if merged.len() == 0 && is_indexing(readiness, uptime) {
        RefStep::Reply(indexing_response(readiness, uptime))
    } else {
        RefStep::SearchText(merged)
    }
}

/// The references with those of another list that stand at other places.
pub open spec fn with_uses(found: Seq<Reference>, more: Seq<Reference>) -> Seq<Reference>
    decreases more.len(),
{
    if more.len() == 0 {
        found
    } else {
        let rest = with_uses(found, more.drop_last());
        if has_key(rest, places::<ReferenceMatch>(), reference_place(more.last())) {
            rest
        } else {
            rest.push(more.last())
        }
    }
}

/// Adds what a text search found to the references, one for each place.
pub fn combine_references(found: Vec<ReferenceMatch>, text_results: Vec<ReferenceMatch>) -> (r: Vec<ReferenceMatch>)
    ensures
        seen(r@) == with_uses(seen(found@), seen(text_results@)),
{
    let ghost start = seen(found@);
    let ghost all = seen(text_results@);
    let mut combined = found;
    assert(all.take(0) =~= Seq::empty());
    for m in it: text_results
        invariant
            it.seq() == text_results@,
            all == seen(it.seq()),
            seen(combined@) == with_uses(start, all.take(it.index())),
    {
        let ghost i = it.index();
        let ghost mv = m@;
        assert(all.take(i + 1).drop_last() =~= all.take(i));
        assert(all.take(i + 1).last() == mv);
        if !holds_place(&combined, &m) {
            let ghost before = seen(combined@);
            combined.push(m);
            assert(seen(combined@) =~= before.push(mv));
        }
    }
    assert(all.take(all.len() as int) =~= all);
    combined
}

/// Searching the text loses no reference, and none stands at the place of another that was there.
pub proof fn text_search_only_adds(found: Seq<Reference>, more: Seq<Reference>)
    ensures
        with_uses(found, more).len() >= found.len(),
        with_uses(found, more).take(found.len() as int) == found,
        forall|k: int|
            found.len() <= k < with_uses(found, more).len() ==> !has_key(
                found,
                places::<ReferenceMatch>(),
                reference_place(#[trigger] with_uses(found, more)[k]),
            ),
    decreases more.len(),
{
    if more.len() > 0 {
        let init = more.drop_last();
        text_search_only_adds(found, init);
        let rest = with_uses(found, init);
        let all = with_uses(found, more);
        assert(all.take(found.len() as int) =~= rest.take(found.len() as int));
        let key = places::<ReferenceMatch>();
        assert forall|k: int| found.len() <= k < all.len() implies !has_key(
            found,
            key,
            reference_place(#[trigger] all[k]),
        ) by {
            if k < rest.len() {
                assert(all[k] == rest[k]);
            } else {
                if has_key(found, key, reference_place(all[k])) {
                    let j = choose|j: int| 0 <= j < found.len() && key(#[trigger] found[j]) == reference_place(all[k]);
                    assert(rest.take(found.len() as int)[j] == found[j]);
                    assert(key(rest[j]) == reference_place(all[k]));
                }
            }
        }
    } else {
        assert(found.take(found.len() as int) =~= found);
    }
}

/// The paths of the references that are no definitions.
pub open spec fn call_paths(s: Seq<Reference>) -> Seq<Seq<char>>
    decreases s.len(),
{
    if s.len() == 0 {
        Seq::empty()
    } else if s.last().is_definition {
        call_paths(s.drop_last())
    } else {
        call_paths(s.drop_last()).push(s.last().path)
    }
}

/// The files whose outlines tell the containing symbols of references, each once.
pub fn files_to_outline(refs: &Vec<ReferenceMatch>) -> (r: Vec<String>)
    ensures
        views(r@) == firsts(call_paths(seen(refs@)), itself()),
{
    let ghost all = seen(refs@);
    let ghost key = itself();
    let mut out: Vec<String> = Vec::new();
    let mut i: usize = 0;
    assert(all.take(0) =~= Seq::empty());
    assert(views(out@) =~= Seq::empty());
    while i < refs.len()
        invariant
            0 <= i <= refs@.len(),
            all == seen(refs@),
            key == itself(),
            views(out@) == firsts(call_paths(all.take(i as int)), key),
        decreases refs@.len() - i,
    {
        let ghost done = call_paths(all.take(i as int));
        assert(all.take(i + 1).drop_last() =~= all.take(i as int));
        assert(all.take(i + 1).last() == refs@[i as int]@);
        if !refs[i].is_definition {
            let path = &refs[i].path;
            proof {
                assert(done.push(path@).drop_last() =~= done);
                firsts_keys(done, key);
                assert(has_key(firsts(done, key), key, path@) == has_key(done, key, path@));
                if views(out@).contains(path@) {
                    let k = choose|k: int| 0 <= k < views(out@).len() && views(out@)[k] == path@;
                    assert(key(views(out@)[k]) == path@);
                }
            }
            if !list_contains(&out, path.as_str()) {
                let ghost before = views(out@);
                out.push(path.clone());
                assert(views(out@) =~= before.push(path@));
            }
        }
        i = i + 1;
    }
    assert(all.take(i as int) =~= all);
    out
}

/// Outlines of files.
pub open spec fn outline_views(v: Seq<(String, Vec<SymbolEntry>)>) -> Seq<(Seq<char>, Seq<Entry>)> {
    Seq::new(v.len(), |i: int| (v[i].0@, entries(v[i].1@)))
}

/// The outline of a file, where there is one.
pub open spec fn outline_at(s: Seq<(Seq<char>, Seq<Entry>)>, path: Seq<char>) -> Option<Seq<Entry>>
    decreases s.len(),
{
    if s.len() == 0 {
        None
    } else if s[0].0 == path {
        Some(s[0].1)
    } else {
        outline_at(s.drop_first(), path)
    }
}

/// A reference with its containing symbol, where it is no definition and its file has an outline.
pub open spec fn enriched(r: Reference, outlines: Seq<(Seq<char>, Seq<Entry>)>) -> Reference {
    if r.is_definition {
        r
    } else {
        match outline_at(outlines, r.path) {
            Some(s) => Reference { containing_symbol: innermost(s, r.line), ..r },
            None => r,
        }
    }
}

fn outline_position(outlines: &Vec<(String, Vec<SymbolEntry>)>, path: &str) -> (r: usize)
    ensures
        r <= outlines@.len(),
        r < outlines@.len() ==> outline_at(outline_views(outlines@), path@) == Some(entries(outlines@[r as int].1@)),
        r == outlines@.len() ==> outline_at(outline_views(outlines@), path@) is None,
{
    let ghost all = outline_views(outlines@);
    let mut i: usize = 0;
    assert(all.skip(0) =~= all);
    while i < outlines.len()
        invariant
            0 <= i <= outlines@.len(),
            all == outline_views(outlines@),
            outline_at(all, path@) == outline_at(all.skip(i as int), path@),
        decreases outlines@.len() - i,
    {
        assert(all.skip(i as int)[0] == all[i as int]);
        assert(all.skip(i as int).drop_first() =~= all.skip(i + 1));
        if str_eq(outlines[i].0.as_str(), path) {
            return i;
        }
        i = i + 1;
    }
    i
}

/// Fills in the containing symbol of each reference that is no definition.
pub fn enrich_with_symbols(refs: Vec<ReferenceMatch>, outlines: &Vec<(String, Vec<SymbolEntry>)>) -> (r: Vec<
    ReferenceMatch,
>)
    ensures
        seen(r@) == Seq::new(refs@.len(), |i: int| enriched(refs@[i]@, outline_views(outlines@))),
{
    let ghost ov = outline_views(outlines@);
    let ghost want = Seq::new(refs@.len(), |i: int| enriched(refs@[i]@, ov));
    let ghost given = refs@;
    let mut out: Vec<ReferenceMatch> = Vec::new();
    assert(seen(out@) =~= want.take(0));
    for m in it: refs
        invariant
            it.seq() == given,
            ov == outline_views(outlines@),
            want == Seq::new(given.len(), |i: int| enriched(given[i]@, ov)),
            seen(out@) == want.take(it.index()),
    {
        let ghost i = it.index();
        let ghost mv = m@;
        let mut m2 = m;
        if !m2.is_definition {
            let at: usize = outline_position(outlines, m2.path.as_str());
            if at < outlines.len() {
                m2.containing_symbol = find_innermost_containing(outlines[at].1.as_slice(), m2.line);
                assert(m2@.containing_symbol == opt_container(m2.containing_symbol));
            }
        }
        let ghost nv = m2@;
        assert(nv == enriched(mv, ov));
        let ghost before = seen(out@);
        out.push(m2);
        assert(seen(out@) =~= before.push(nv));
        assert(want.take(i + 1) =~= want.take(i).push(nv));
    }
    assert(want.take(want.len() as int) =~= want);
    out
}

/// The answer with references; without any, the symbol is not found.
pub fn references_response(name: &str, refs: &Vec<ReferenceMatch>) -> (r: Response)
    ensures
        r@ == if refs@.len() == 0 {
            not_found_answer(name@)
        } else {
            success(reference_list(seen(refs@)))
        },
{
    if refs.len() == 0 {
        symbol_not_found(name)
    } else {
        Response::ok(references_value(refs.as_slice()))
    }
}

/// The answer with implementations: by path and line, one for each place.
pub fn implementations_response(name: &str, results: Vec<Vec<SymbolMatch>>) -> (r: Response)
    ensures
        ({
            let merged = merged_symbols(seen_lists(results@));
            r@ == if merged.len() == 0 {
                failure(
                    "impl_not_found"@,
                    "no implementations found for '"@ + name@ + "'"@,
                    Some(
                        "Try krait find refs <name> to see where it's called, or krait find symbol <name> for definitions"@,
                    ),
                )
            } else {
                success(found_list(merged))
            }
        }),
{
    let merged = merge_symbol_results(results);
    assert(seen(merged@).len() == merged@.len());
    if merged.len() == 0 {
        let mut m = "no implementations found for '".to_string();
        m.append(name);
        m.append("'");
        Response::err_with_advice(
            "impl_not_found",
            m.as_str(),
            "Try krait find refs <name> to see where it's called, or krait find symbol <name> for definitions",
        )
    } else {
        Response::ok(symbols_value(merged.as_slice()))
    }
}

// ── Reading ─────────────────────────────────────────────────────────────────

/// Whether the index may answer a read of a symbol by itself: where neither a path nor a body is
/// asked for.
pub fn reads_from_index(path_filter: Option<&str>, has_body: bool) -> (r: bool)
    ensures
        r == (path_filter is None && !has_body),
{
    path_filter.is_none() && !has_body
}

/// The candidates to read from, where there are any.
pub fn candidates_to_read(found: Option<Vec<SymbolMatch>>, path_filter: Option<&str>) -> (r: Option<Vec<SymbolMatch>>)
    ensures
        match r {
            Some(c) => found matches Some(f) && seen(c@) == with_path(seen(f@), opt_slice(path_filter)) && c@.len() > 0,
            None => found matches Some(f) ==> with_path(seen(f@), opt_slice(path_filter)).len() == 0,
        },
{
    match found {
        Some(f) => {
            let kept = filter_by_path(f, path_filter);
            assert(seen(kept@).len() == kept@.len());
            if kept.len() == 0 {
                None
            } else {
                Some(kept)
            }
        },
        None => None,
    }
}

/// The answer to a read of a file.
pub open spec fn file_answer(outcome: Result<Json, Seq<char>>) -> Answer {
    match outcome {
        Ok(data) => success(data),
        Err(m) => if contains(m, "not found"@) {
            failure("file_not_found"@, m, Some("Check the file path exists"@))
        } else if contains(m, "binary file"@) {
            failure("binary_file"@, m, None)
        } else {
            failure("read_failed"@, m, None)
        },
    }
}

/// The answer to a read of a file.
pub fn read_file_response(outcome: Result<JsonValue, String>) -> (r: Response)
    ensures
        r@ == file_answer(result_view(outcome)),
{
    match outcome {
        Ok(data) => Response::ok(data),
        Err(m) => if str_contains(m.as_str(), "not found") {
            Response::err_with_advice("file_not_found", m.as_str(), "Check the file path exists")
        } else if str_contains(m.as_str(), "binary file") {
            Response::err("binary_file", m.as_str())
        } else {
            Response::err("read_failed", m.as_str())
        },
    }
}

/// The answer with what a command gave, or with why it failed under a code.
pub fn outcome_response(code: &str, outcome: Result<JsonValue, String>) -> (r: Response)
    ensures
        r@ == match result_view(outcome) {
            Ok(data) => success(data),
            Err(m) => failure(code@, m, None),
        },
{
    match outcome {
        Ok(data) => Response::ok(data),
        Err(m) => Response::err(code, m.as_str()),
    }
}

/// The answer with what a command gave in one language. A symbol that is not found there may be
/// found in the next: then there is no answer yet.
pub fn language_outcome(code: &str, outcome: Result<JsonValue, String>) -> (r: Option<Response>)
    ensures
        match result_view(outcome) {
            Ok(data) => r matches Some(a) && a@ == success(data),
            Err(m) => if contains(m, "not found"@) {
                r is None
            } else {
                r matches Some(a) && a@ == failure(code@, m, None)
            },
        },
{
    match outcome {
        Ok(data) => Some(Response::ok(data)),
        Err(m) => if str_contains(m.as_str(), "not found") {
            None
        } else {
            Some(Response::err(code, m.as_str()))
        },
    }
}

// ── Listing ─────────────────────────────────────────────────────────────────

/// The language of a file, or else the first of the project.
pub open spec fn listed_language(path: Seq<char>, languages: Seq<Language>) -> Option<Language> {
    match language_of(path) {
        Some(l) => Some(l),
        None => if languages.len() > 0 {
            Some(languages[0])
        } else {
            None
        },
    }
}

/// Decides which language's server is asked about a file.
pub fn language_or_first(path: &str, languages: &Vec<Language>) -> (r: Option<Language>)
    ensures
        r == listed_language(path@, languages@),
{
    match language_for_file(path) {
        Some(l) => Some(l),
        None => if languages.len() > 0 {
            Some(languages[0])
        } else {
            None
        },
    }
}

/// The answer with the symbols of a file, or with why there are none.
pub fn list_symbols_response(outcome: Result<Vec<SymbolEntry>, String>) -> (r: Response)
    ensures
        r@ == match outcome {
            Ok(s) => success(entry_list(entries(s@))),
            Err(m) => if contains(m@, "not found"@) {
                failure("file_not_found"@, m@, Some("Check the file path exists"@))
            } else {
                failure("list_symbols_failed"@, m@, None)
            },
        },
{
    match outcome {
        Ok(s) => Response::ok(entries_value(s.as_slice())),
        Err(m) => if str_contains(m.as_str(), "not found") {
            Response::err_with_advice("file_not_found", m.as_str(), "Check the file path exists")
        } else {
            Response::err("list_symbols_failed", m.as_str())
        },
    }
}

/// The depth to which the files of a directory are outlined: at least one level.
pub fn directory_depth(depth: u8) -> (r: u8)
    ensures
        r == if depth == 0 {
            1
        } else {
            depth
        },
{
    if depth == 0 {
        1
    } else {
        depth
    }
}

/// A filter on paths keeps the symbols whose path contains the text, in order, and no others; without one
/// all are kept.
pub proof fn symbols_of_the_path_are_kept(s: Seq<Found>, text: Seq<char>)
    ensures
        with_path(s, Some(text)) == s.filter(|f: Found| contains(f.path, text)),
        with_path(s, None) == s,
    decreases s.len(),
{
    reveal(Seq::filter);
    if s.len() > 0 {
        symbols_of_the_path_are_kept(s.drop_last(), text);
    } else {
        assert(with_path(s, Some(text)) =~= Seq::empty());
    }
}

/// Bodies are filled in beside what is known of each symbol, from the text of its file.
pub proof fn bodies_are_filled_in(s: Seq<Found>, contents: Seq<Option<Seq<char>>>, i: int)
    requires
        0 <= i < s.len(),
        s.len() == contents.len(),
    ensures
        with_bodies(s, contents).len() == s.len(),
        with_bodies(s, contents)[i].path == s[i].path,
        with_bodies(s, contents)[i].line == s[i].line,
        with_bodies(s, contents)[i].kind == s[i].kind,
        with_bodies(s, contents)[i].preview == s[i].preview,
        contents[i] is Some ==> with_bodies(s, contents)[i].body == symbol_body(contents[i]->Some_0, s[i].line),
        contents[i] is None ==> with_bodies(s, contents)[i].body is None,
{
}

/// What a text search finds is all among the references in the end, by path and line.
pub proof fn text_search_adds_all(found: Seq<Reference>, more: Seq<Reference>, i: int)
    requires
        0 <= i < more.len(),
    ensures
        exists|k: int|
            0 <= k < with_uses(found, more).len() && (#[trigger] with_uses(found, more)[k]).path == more[i].path
                && with_uses(found, more)[k].line == more[i].line,
    decreases more.len(),
{
    let init = more.drop_last();
    let rest = with_uses(found, init);
    let all = with_uses(found, more);
    if i < init.len() {
        text_search_adds_all(found, init, i);
        assert(init[i] == more[i]);
        let k = choose|k: int| 0 <= k < rest.len() && (#[trigger] rest[k]).path == init[i].path && rest[k].line == init[i].line;
        assert(all[k] == rest[k]);
    } else {
        let key = places::<ReferenceMatch>();
        if has_key(rest, key, reference_place(more[i])) {
            let k = choose|k: int| 0 <= k < rest.len() && key(#[trigger] rest[k]) == reference_place(more[i]);
            assert(all[k].path == more[i].path && all[k].line == more[i].line);
        } else {
            assert(all[all.len() - 1] == more[i]);
        }
    }
}

/// The outline of a file is the first that is given for it.
pub proof fn first_outline_counts(s: Seq<(Seq<char>, Seq<Entry>)>, path: Seq<char>, i: int)
    requires
        0 <= i < s.len(),
        s[i].0 == path,
        forall|j: int| 0 <= j < i ==> (#[trigger] s[j]).0 != path,
    ensures
        outline_at(s, path) == Some(s[i].1),
    decreases i,
{
    if i > 0 {
        let rest = s.drop_first();
        assert forall|j: int| 0 <= j < i - 1 implies (#[trigger] rest[j]).0 != path by {
            assert(rest[j] == s[j + 1]);
        }
        assert(rest[i - 1] == s[i]);
        first_outline_counts(rest, path, i - 1);
        assert(s[0].0 != path);
    }
}

/// A use gets the symbol that contains its line, as its file's outline tells; a definition, and all else
/// that is known of a reference, stay as they are.
pub proof fn uses_get_their_symbol(r: Reference, outlines: Seq<(Seq<char>, Seq<Entry>)>, i: int)
    requires
        0 <= i < outlines.len(),
        outlines[i].0 == r.path,
        forall|j: int| 0 <= j < i ==> (#[trigger] outlines[j]).0 != r.path,
    ensures
        r.is_definition ==> enriched(r, outlines) == r,
        !r.is_definition ==> enriched(r, outlines) == (Reference {
            path: r.path,
            line: r.line,
            preview: r.preview,
            is_definition: false,
            containing_symbol: innermost(outlines[i].1, r.line),
        }),
{
    first_outline_counts(outlines, r.path, i);
}

/// The files to outline are those of the uses, definitions apart.
pub proof fn outlined_are_the_files_of_uses(s: Seq<Reference>)
    ensures
        call_paths(s) == s.filter(|r: Reference| !r.is_definition).map_values(|r: Reference| r.path),
    decreases s.len(),
{
    reveal(Seq::filter);
    let p = |r: Reference| !r.is_definition;
    let make = |r: Reference| r.path;
    if s.len() > 0 {
        outlined_are_the_files_of_uses(s.drop_last());
        let rest = s.drop_last().filter(p);
        if p(s.last()) {
            assert(rest.push(s.last()).map_values(make) =~= rest.map_values(make).push(make(s.last())));
        }
    } else {
        assert(s.filter(p).map_values(make) =~= Seq::empty());
    }
}

} // verus!
