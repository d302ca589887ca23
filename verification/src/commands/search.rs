//! Searching files for a pattern.

use crate::detect::language::{slice_contains, Language};
use crate::paths::{
    extension, is_absolute, joined, joined_is_shown, names, names_behind, path_extension, relative, strip_prefix,
};
use crate::index::builder::{path_texts, FilePath};
use crate::sorting::{rank, seen, sort, sorted_by};
use crate::text::{
    chars_of, decode_text, lines, opt_view, push_char, slice_views, split_lines, str_eq, views,
};
use vstd::prelude::*;
use vstd::utf8::{decode_utf8, valid_utf8};

verus! {

/// A single match found during search.
pub struct SearchMatch {
    pub path: String,
    pub line: u32,
    pub column: u32,
    pub preview: String,
    pub context_before: Vec<String>,
    pub context_after: Vec<String>,
}

/// The mathematical value of a [`SearchMatch`].
#[verifier::ext_equal]
pub struct Hit {
    pub path: Seq<char>,
    pub line: u32,
    pub column: u32,
    pub preview: Seq<char>,
    pub context_before: Seq<Seq<char>>,
    pub context_after: Seq<Seq<char>>,
}

impl View for SearchMatch {
    type V = Hit;

    open spec fn view(&self) -> Hit {
        Hit {
            path: self.path@,
            line: self.line,
            column: self.column,
            preview: self.preview@,
            context_before: views(self.context_before@),
            context_after: views(self.context_after@),
        }
    }
}

/// Aggregated search results.
pub struct SearchOutput {
    pub matches: Vec<SearchMatch>,
    pub total_matches: usize,
    pub files_searched: usize,
    pub files_with_matches: usize,
    pub truncated: bool,
}

/// Options controlling search behaviour.
pub struct SearchOptions {
    pub pattern: String,
    pub path: Option<String>,
    pub ignore_case: bool,
    pub word: bool,
    pub literal: bool,
    pub context: u32,
    pub files_only: bool,
    pub lang_filter: Option<String>,
    pub max_matches: usize,
}

// ── Patterns ────────────────────────────────────────────────────────────────

/// A compiled pattern.
#[verifier::external_type_specification]
#[verifier::external_body]
pub struct ExRegex(regex::Regex);

/// Why a pattern does not compile.
#[verifier::external_type_specification]
#[verifier::external_body]
pub struct ExRegexError(regex::Error);

/// The text from which a pattern was compiled.
pub uninterp spec fn compiled_from(re: regex::Regex) -> Seq<char>;

/// Whether a pattern was compiled to match letters of either case.
pub uninterp spec fn folds_case(re: regex::Regex) -> bool;

/// Whether `RegexBuilder` compiles a text.
pub uninterp spec fn is_pattern(text: Seq<char>, ignore_case: bool) -> bool;

/// Byte offset at which `Regex::find` finds the first match of the pattern with the text `pattern` in
/// a line.
pub uninterp spec fn first_match(pattern: Seq<char>, ignore_case: bool, line: Seq<char>) -> Option<usize>;

/// `RegexBuilder::build`, after `RegexBuilder::case_insensitive`: whether a text compiles depends on
/// the text and on that setting alone. What is compiled is a pattern with that text and setting.
#[verifier::external_body]
fn compile(pattern: &str, ignore_case: bool) -> (r: Result<regex::Regex, regex::Error>)
    ensures
        match r {
            Ok(re) => is_pattern(pattern@, ignore_case) && compiled_from(re) == pattern@ && folds_case(re)
                == ignore_case,
            Err(_) => !is_pattern(pattern@, ignore_case),
        },
{
    regex::RegexBuilder::new(pattern).case_insensitive(ignore_case).build()
}

/// `Regex::find` and `Match::start`: the byte offset of the first match depends on the text and the
/// setting of the pattern, and on the line, alone.
#[verifier::external_body]
fn find_start(re: &regex::Regex, line: &str) -> (r: Option<usize>)
    ensures
        r == first_match(compiled_from(*re), folds_case(*re), line@),
{
    re.find(line).map(|m| m.start())
}

/// What is searched for: the text of a pattern, and whether the case of letters does not matter.
pub struct Query {
    pub text: Seq<char>,
    pub ignore_case: bool,
}

impl Query {
    /// Byte offset of the first match in a line.
    pub open spec fn start_in(self, line: Seq<char>) -> Option<usize> {
        first_match(self.text, self.ignore_case, line)
    }
}

/// What a pattern searches for.
pub open spec fn query_of(re: regex::Regex) -> Query {
    Query { text: compiled_from(re), ignore_case: folds_case(re) }
}

/// A character that means something in a pattern.
pub open spec fn is_meta(c: char) -> bool {
    c == '\\' || c == '.' || c == '+' || c == '*' || c == '?' || c == '(' || c == ')' || c == '|' || c == '['
        || c == ']' || c == '{' || c == '}' || c == '^' || c == '$' || c == '#' || c == '&' || c == '-' || c == '~'
}

/// `s` with a backslash before each character that means something in a pattern.
pub open spec fn escaped(s: Seq<char>) -> Seq<char>
    decreases s.len(),
{
    if s.len() == 0 {
        Seq::empty()
    } else if is_meta(s.last()) {
        escaped(s.drop_last()).push('\\').push(s.last())
    } else {
        escaped(s.drop_last()).push(s.last())
    }
}

/// Puts a backslash before each character that means something in a pattern.
fn escape_pattern(pattern: &str) -> (r: String)
    ensures
        r@ == escaped(pattern@),
{
    let v = chars_of(pattern);
    let mut out = String::new();
    let mut i: usize = 0;
    assert(v@.take(0) =~= Seq::empty());
    while i < v.len()
        invariant
            0 <= i <= v@.len(),
            out@ == escaped(v@.take(i as int)),
        decreases v@.len() - i,
    {
        let c: char = v[i];
        assert(v@.take(i + 1).drop_last() =~= v@.take(i as int));
        assert(v@.take(i + 1).last() == c);
        if c == '\\' || c == '.' || c == '+' || c == '*' || c == '?' || c == '(' || c == ')' || c == '|' || c == '['
            || c == ']' || c == '{' || c == '}' || c == '^' || c == '$' || c == '#' || c == '&' || c == '-'
            || c == '~' {
            push_char(&mut out, '\\');
        }
        push_char(&mut out, c);
        i = i + 1;
    }
    assert(v@.take(i as int) =~= v@);
    out
}

/// A character that grep's basic patterns give its meaning by a backslash.
pub open spec fn is_grep_operator(c: char) -> bool {
    c == '|' || c == '+' || c == '?' || c == '(' || c == ')'
}

/// A pattern without the backslashes that stand before `|`, `+`, `?`, `(` and `)`.
pub open spec fn without_grep_escapes(s: Seq<char>) -> Seq<char>
    decreases s.len(),
{
    if s.len() == 0 {
        Seq::empty()
    } else if s[0] == '\\' && s.len() >= 2 && is_grep_operator(s[1]) {
        seq![s[1]] + without_grep_escapes(s.skip(2))
    } else {
        seq![s[0]] + without_grep_escapes(s.drop_first())
    }
}

/// The pattern that the options ask for.
pub open spec fn search_pattern(opts: SearchOptions) -> Seq<char> {
    let p = if opts.literal {
        escaped(opts.pattern@)
    } else {
        without_grep_escapes(opts.pattern@)
    };
    if opts.word {
        "\\b"@ + p + "\\b"@
    } else {
        p
    }
}

/// What the options search for.
pub open spec fn query(opts: SearchOptions) -> Query {
    Query { text: search_pattern(opts), ignore_case: opts.ignore_case }
}

/// Converts grep-style escape sequences to the syntax of the pattern language.
pub fn normalize_grep_escapes(pattern: &str) -> (r: String)
    ensures
        r@ == without_grep_escapes(pattern@),
{
    let v = chars_of(pattern);
    let mut out = String::new();
    let mut i: usize = 0;
    assert(v@.skip(0) =~= v@);
    assert(out@ + without_grep_escapes(v@.skip(0)) =~= without_grep_escapes(v@));
    while i < v.len()
        invariant
            0 <= i <= v@.len(),
            out@ + without_grep_escapes(v@.skip(i as int)) == without_grep_escapes(v@),
        decreases v@.len() - i,
    {
        let ghost rest = v@.skip(i as int);
        let ghost before = out@;
        let c: char = v[i];
        if c == '\\' && i + 1 < v.len() && (v[i + 1] == '|' || v[i + 1] == '+' || v[i + 1] == '?' || v[i + 1] == '('
            || v[i + 1] == ')') {
            push_char(&mut out, v[i + 1]);
            assert(rest.skip(2) =~= v@.skip(i + 2));
            assert(out@ + without_grep_escapes(v@.skip(i + 2)) =~= before + without_grep_escapes(rest));
            i = i + 2;
        } else {
            push_char(&mut out, c);
            assert(rest.drop_first() =~= v@.skip(i + 1));
            assert(out@ + without_grep_escapes(v@.skip(i + 1)) =~= before + without_grep_escapes(rest));
            i = i + 1;
        }
    }
    assert(v@.skip(i as int) =~= Seq::empty());
    assert(out@ + without_grep_escapes(v@.skip(i as int)) =~= out@);
    out
}

/// The pattern that the options ask for, as text.
pub fn pattern_text(opts: &SearchOptions) -> (r: String)
    ensures
        r@ == search_pattern(*opts),
{
    let pat = if opts.literal {
        escape_pattern(opts.pattern.as_str())
    } else {
        normalize_grep_escapes(opts.pattern.as_str())
    };
    if opts.word {
        let mut w = "\\b".to_string();
        w.append(pat.as_str());
        w.append("\\b");
        w
    } else {
        pat
    }
}

/// Compiles the pattern that the options ask for.
///
/// `Err` holds the message for a pattern that does not compile.
pub fn build_regex(opts: &SearchOptions) -> (r: Result<regex::Regex, String>)
    ensures
        match r {
            Ok(re) => is_pattern(search_pattern(*opts), opts.ignore_case) && query_of(re) == query(*opts),
            Err(m) => !is_pattern(search_pattern(*opts), opts.ignore_case) && m@ == "invalid regex pattern: "@
                + opts.pattern@,
        },
{
    let pat = pattern_text(opts);
    match compile(pat.as_str(), opts.ignore_case) {
        Ok(re) => Ok(re),
        Err(_) => {
            let mut m = "invalid regex pattern: ".to_string();
            m.append(opts.pattern.as_str());
            Err(m)
        },
    }
}

// ── One file ────────────────────────────────────────────────────────────────

/// Number of bytes at the start of a file in which a zero byte marks it as binary.
pub const BINARY_SCAN_BYTES: usize = 512;

/// A zero byte among the first `limit` bytes.
pub open spec fn looks_binary(bytes: Seq<u8>, limit: int) -> bool {
    exists|i: int| 0 <= i < bytes.len() && i < limit && bytes[i] == 0
}

/// Whether a zero byte stands among the first `limit` bytes.
pub fn has_zero_byte(bytes: &Vec<u8>, limit: usize) -> (r: bool)
    ensures
        r == looks_binary(bytes@, limit as int),
{
    let mut i: usize = 0;
    while i < bytes.len() && i < limit
        invariant
            0 <= i <= bytes@.len(),
            i <= limit,
            forall|k: int| 0 <= k < i ==> bytes@[k] != 0,
        decreases bytes@.len() - i,
    {
        if bytes[i] == 0 {
            return true;
        }
        i = i + 1;
    }
    false
}

/// The number of a line that `n` lines precede, or the greatest one where it is too large.
pub open spec fn line_number(n: int) -> u32 {
    if n + 1 <= u32::MAX {
        (n + 1) as u32
    } else {
        u32::MAX
    }
}

/// The number of a column that `n` bytes precede, or 1 where it is too large.
pub open spec fn column_number(n: int) -> u32 {
    if n + 1 <= u32::MAX {
        (n + 1) as u32
    } else {
        1
    }
}

/// The up to `context` lines before line `i`.
pub open spec fn lines_before(ls: Seq<Seq<char>>, i: int, context: int) -> Seq<Seq<char>> {
    ls.subrange(
        if i >= context {
            i - context
        } else {
            0
        },
        i,
    )
}

/// The up to `context` lines after line `i`.
pub open spec fn lines_after(ls: Seq<Seq<char>>, i: int, context: int) -> Seq<Seq<char>> {
    ls.subrange(
        i + 1,
        if i + 1 + context <= ls.len() {
            i + 1 + context
        } else {
            ls.len() as int
        },
    )
}

/// The matches in the first `n` lines, at most one in each.
pub open spec fn hits(ls: Seq<Seq<char>>, rel: Seq<char>, q: Query, context: int, n: int) -> Seq<Hit>
    decreases n,
{
    if n <= 0 {
        Seq::empty()
    } else {
        let rest = hits(ls, rel, q, context, n - 1);
        match q.start_in(ls[n - 1]) {
            Some(start) => rest.push(
                Hit {
                    path: rel,
                    line: line_number(n - 1),
                    column: column_number(start as int),
                    preview: ls[n - 1],
                    context_before: lines_before(ls, n - 1, context),
                    context_after: lines_after(ls, n - 1, context),
                },
            ),
            None => rest,
        }
    }
}

/// How a path is shown: relative to where the search starts, or else to the project root.
pub open spec fn shown_path(path: Seq<char>, search_root: Seq<char>, project_root: Seq<char>) -> Seq<char> {
    match relative(path, search_root) {
        Some(p) => p,
        None => match relative(path, project_root) {
            Some(p) => p,
            None => path,
        },
    }
}

/// The matches in a file. A binary file, and one that is no UTF-8, has none.
pub open spec fn file_hits(
    bytes: Seq<u8>,
    path: Seq<char>,
    search_root: Seq<char>,
    project_root: Seq<char>,
    q: Query,
    context: int,
) -> Seq<Hit> {
    if looks_binary(bytes, BINARY_SCAN_BYTES as int) || !valid_utf8(bytes) {
        Seq::empty()
    } else {
        let ls = lines(decode_utf8(bytes));
        hits(ls, shown_path(path, search_root, project_root), q, context, ls.len() as int)
    }
}

/// The lines from `from` up to `to`.
pub(crate) fn lines_between(ls: &Vec<String>, from: usize, to: usize) -> (r: Vec<String>)
    requires
        from <= to <= ls@.len(),
    ensures
        views(r@) == views(ls@).subrange(from as int, to as int),
{
    let mut r: Vec<String> = Vec::new();
    let mut i: usize = from;
    while i < to
        invariant
            from <= i <= to <= ls@.len(),
            r@ == ls@.subrange(from as int, i as int),
        decreases to - i,
    {
        r.push(ls[i].clone());
        i = i + 1;
        assert(r@ =~= ls@.subrange(from as int, i as int));
    }
    assert(views(r@) =~= views(ls@).subrange(from as int, to as int));
    r
}

/// Searches the bytes of one file.
pub fn search_file(
    bytes: Vec<u8>,
    path: &str,
    search_root: &str,
    project_root: &str,
    re: &regex::Regex,
    context: u32,
) -> (r: Vec<SearchMatch>)
    ensures
        seen(r@) == file_hits(bytes@, path@, search_root@, project_root@, query_of(*re), context as int),
{
    let mut result: Vec<SearchMatch> = Vec::new();
    assert(seen(result@) =~= Seq::empty());
    if has_zero_byte(&bytes, BINARY_SCAN_BYTES) {
        return result;
    }
    let content = match decode_text(bytes) {
        Some(s) => s,
        None => {
            return result;
        },
    };
    let rel = match strip_prefix(path, search_root) {
        Some(p) => p,
        None => match strip_prefix(path, project_root) {
            Some(p) => p,
            None => path.to_string(),
        },
    };
    let ls = split_lines(content.as_str());
    let ghost all = views(ls@);
    assert(all.len() == ls@.len());
    let ctx: usize = context as usize;
    let mut i: usize = 0;
    while i < ls.len()
        invariant
            0 <= i <= ls@.len(),
            all == views(ls@),
            ctx == context,
            seen(result@) == hits(all, rel@, query_of(*re), ctx as int, i as int),
        decreases ls@.len() - i,
    {
        let line = ls[i].as_str();
        assert(line@ == all[i as int]);
        let n: usize = ls.len();
        if let Some(start) = find_start(re, line) {
            let from: usize = if i >= ctx {
                i - ctx
            } else {
                0
            };
            let left: usize = n - i - 1;
            let to: usize = if ctx <= left {
                i + 1 + ctx
            } else {
                n
            };
            let line_no: u32 = if i < 0xffff_ffff {
                (i + 1) as u32
            } else {
                0xffff_ffff
            };
            let column: u32 = if start < 0xffff_ffff {
                (start + 1) as u32
            } else {
                1
            };
            let ghost before = seen(result@);
            let m = SearchMatch {
                path: rel.clone(),
                line: line_no,
                column,
                preview: ls[i].clone(),
                context_before: lines_between(&ls, from, i),
                context_after: lines_between(&ls, i + 1, to),
            };
            let ghost h = m@;
            result.push(m);
            assert(seen(result@) =~= before.push(h));
        }
        i = i + 1;
    }
    result
}

// ── All files ───────────────────────────────────────────────────────────────

/// The matches of all files, in order.
pub open spec fn all_hits(files: Seq<Seq<Hit>>) -> Seq<Hit>
    decreases files.len(),
{
    if files.len() == 0 {
        Seq::empty()
    } else {
        all_hits(files.drop_last()) + files.last()
    }
}

/// Number of files that are looked at before more than `max` matches have come up.
pub open spec fn files_reached(files: Seq<Seq<Hit>>, max: int) -> int
    decreases files.len(),
{
    if files.len() == 0 {
        0
    } else if all_hits(files.drop_last()).len() > max {
        files_reached(files.drop_last(), max)
    } else {
        files.len() as int
    }
}

/// Number of files that hold a match.
pub open spec fn files_hit(files: Seq<Seq<Hit>>) -> nat
    decreases files.len(),
{
    if files.len() == 0 {
        0
    } else {
        files_hit(files.drop_last()) + if files.last().len() > 0 {
            1nat
        } else {
            0
        }
    }
}

/// The matches of the files, by file.
pub open spec fn hits_by_file(v: Seq<Vec<SearchMatch>>) -> Seq<Seq<Hit>> {
    Seq::new(v.len(), |i: int| seen(v[i]@))
}

/// The first `max` of the matches.
pub open spec fn capped(s: Seq<Hit>, max: int) -> Seq<Hit> {
    if s.len() <= max {
        s
    } else {
        s.take(max)
    }
}

/// Flattens the matches of all files, up to a greatest number of them.
pub fn collect_results(file_results: Vec<Vec<SearchMatch>>, files_searched: usize, max_matches: usize) -> (r: SearchOutput)
    ensures
        ({
            let files = hits_by_file(file_results@);
            let all = all_hits(files);
            &&& seen(r.matches@) == capped(all, max_matches as int)
            &&& r.total_matches == r.matches@.len()
            &&& r.files_searched == files_searched
            &&& r.files_with_matches == files_hit(files.take(files_reached(files, max_matches as int)))
            &&& r.truncated == (all.len() > max_matches)
        }),
{
    let ghost files = hits_by_file(file_results@);
    let ghost max = max_matches as int;
    let mut matches: Vec<SearchMatch> = Vec::new();
    let mut files_with_matches: usize = 0;
    let mut truncated = false;
    let count: usize = file_results.len();
    assert(files.take(0) =~= Seq::empty());
    assert(seen(matches@) =~= capped(all_hits(files.take(0)), max));
    assert(files.take(0).take(0) =~= Seq::empty());
    for file_matches in it: file_results
        invariant
            files == hits_by_file(it.seq()),
            max == max_matches,
            seen(matches@) == capped(all_hits(files.take(it.index())), max),
            truncated == (all_hits(files.take(it.index())).len() > max),
            files_with_matches == files_hit(
                files.take(it.index()).take(files_reached(files.take(it.index()), max)),
            ),
            files_with_matches <= it.index(),
            it.seq().len() == count,
            it.seq() == file_results@,
    {
        let ghost k = it.index();
        let ghost done = files.take(k);
        let ghost next = files.take(k + 1);
        let ghost here = seen(file_matches@);
        assert(next.drop_last() =~= done);
        assert(next.last() == here);
        if !truncated {
            assert(next.take(next.len() as int) =~= next);
            proof {
                reached_all(done, max);
                assert(done.take(done.len() as int) =~= done);
            }
            if file_matches.len() > 0 {
                files_with_matches = files_with_matches + 1;
            }
            let ghost start = all_hits(done);
            let ghost given = file_matches@;
            assert(here.len() == file_matches@.len());
            assert(start + here.take(0) =~= start);
            for m in inner: file_matches
                invariant
                    inner.seq() == given,
                    here == seen(given),
                    max == max_matches,
                    start.len() <= max,
                    seen(matches@) == capped(start + here.take(inner.index()), max),
                    truncated == ((start + here.take(inner.index())).len() > max),
            {
                let ghost j = inner.index();
                let ghost sofar = start + here.take(j);
                let ghost after = start + here.take(j + 1);
                assert(after =~= sofar.push(m@));
                if matches.len() >= max_matches {
                    truncated = true;
                    assert(capped(after, max) =~= capped(sofar, max));
                } else {
                    let ghost before = seen(matches@);
                    matches.push(m);
                    assert(seen(matches@) =~= before.push(m@));
                    assert(capped(after, max) =~= after);
                }
            }
            assert(here.take(here.len() as int) =~= here);
        } else {
            assert(capped(all_hits(next), max) =~= capped(all_hits(done), max));
            proof {
                reached_bounds(done, max);
                let n = files_reached(done, max);
                assert(next.take(n) =~= done.take(n));
            }
        }
    }
    assert(files.take(files.len() as int) =~= files);
    let total_matches: usize = matches.len();
    SearchOutput { matches, total_matches, files_searched, files_with_matches, truncated }
}

proof fn reached_bounds(files: Seq<Seq<Hit>>, max: int)
    ensures
        0 <= files_reached(files, max) <= files.len(),
    decreases files.len(),
{
    if files.len() > 0 {
        reached_bounds(files.drop_last(), max);
    }
}

/// All files are reached where their matches together are no more than `max`.
pub proof fn reached_all(files: Seq<Seq<Hit>>, max: int)
    requires
        all_hits(files).len() <= max,
    ensures
        files_reached(files, max) == files.len(),
{
}

// ── Which files ─────────────────────────────────────────────────────────────

/// The extensions that a language flag of the command line stands for.
pub open spec fn flag_suffixes(lang: Seq<char>) -> Seq<Seq<char>> {
    if lang == "ts"@ || lang == "typescript"@ {
        Language::TypeScript.suffixes()
    } else if lang == "js"@ || lang == "javascript"@ {
        Language::JavaScript.suffixes()
    } else if lang == "rs"@ || lang == "rust"@ {
        Language::Rust.suffixes()
    } else if lang == "go"@ {
        Language::Go.suffixes()
    } else if lang == "c"@ || lang == "cpp"@ || lang == "c++"@ || lang == "cxx"@ {
        Language::Cpp.suffixes()
    } else {
        Seq::empty()
    }
}

/// Maps a language flag of the command line to file extensions.
pub fn extensions_for_lang(lang: &str) -> (r: &'static [&'static str])
    ensures
        slice_views(r@) == flag_suffixes(lang@),
{
    if str_eq(lang, "ts") || str_eq(lang, "typescript") {
        Language::TypeScript.extensions()
    } else if str_eq(lang, "js") || str_eq(lang, "javascript") {
        Language::JavaScript.extensions()
    } else if str_eq(lang, "rs") || str_eq(lang, "rust") {
        Language::Rust.extensions()
    } else if str_eq(lang, "go") {
        Language::Go.extensions()
    } else if str_eq(lang, "c") || str_eq(lang, "cpp") || str_eq(lang, "c++") || str_eq(lang, "cxx") {
        Language::Cpp.extensions()
    } else {
        let r: &'static [&'static str] = &[];
        assert(slice_views(r@) =~= flag_suffixes(lang@));
        r
    }
}

/// A file that a search looks at: any, or one with an extension of the language asked for.
pub open spec fn is_searched(path: Seq<char>, lang: Option<Seq<char>>) -> bool {
    match lang {
        Some(l) => match extension(path) {
            Some(ext) => flag_suffixes(l).contains(ext),
            None => false,
        },
        None => true,
    }
}

/// Whether a search looks at a file.
pub fn wants_file(path: &str, lang_filter: &Option<String>) -> (r: bool)
    ensures
        r == is_searched(path@, opt_view(*lang_filter)),
{
    match lang_filter {
        Some(lang) => match path_extension(path) {
            Some(ext) => slice_contains(extensions_for_lang(lang.as_str()), ext.as_str()),
            None => false,
        },
        None => true,
    }
}

/// The files that a search looks at, as they come.
pub open spec fn searched(files: Seq<Seq<char>>, lang: Option<Seq<char>>) -> Seq<Seq<char>>
    decreases files.len(),
{
    if files.len() == 0 {
        Seq::empty()
    } else {
        let rest = searched(files.drop_last(), lang);
        if is_searched(files.last(), lang) {
            rest.push(files.last())
        } else {
            rest
        }
    }
}

/// Selects the files that a search looks at, in the order of paths.
pub fn select_files(files: Vec<String>, lang_filter: &Option<String>) -> (r: Vec<String>)
    ensures
        views(r@) == sorted_by(searched(views(files@), opt_view(*lang_filter)), rank::<FilePath>()),
{
    let ghost all = views(files@);
    let ghost lang = opt_view(*lang_filter);
    let mut kept: Vec<FilePath> = Vec::new();
    assert(all.take(0) =~= Seq::empty());
    assert(seen(kept@) =~= Seq::empty());
    for f in it: files
        invariant
            it.seq() == files@,
            all == views(it.seq()),
            lang == opt_view(*lang_filter),
            seen(kept@) == searched(all.take(it.index()), lang),
    {
        let ghost i = it.index();
        let ghost fv = f@;
        assert(all.take(i + 1).drop_last() =~= all.take(i));
        assert(all.take(i + 1).last() == fv);
        if wants_file(f.as_str(), lang_filter) {
            let ghost before = seen(kept@);
            kept.push(FilePath { path: f });
            assert(seen(kept@) =~= before.push(fv));
        }
    }
    assert(all.take(all.len() as int) =~= all);
    path_texts(sort(kept))
}

/// A file to search: its path, and its bytes where it can be read.
pub struct SourceFile {
    pub path: String,
    pub bytes: Option<Vec<u8>>,
}

/// The directory that a search starts from.
pub open spec fn search_start(opts: SearchOptions, project_root: Seq<char>) -> Seq<char> {
    match opts.path {
        Some(p) => p@,
        None => project_root,
    }
}

/// The matches in a file to search; one that cannot be read has none.
pub open spec fn source_hits(f: SourceFile, opts: SearchOptions, project_root: Seq<char>) -> Seq<Hit> {
    match f.bytes {
        Some(b) => file_hits(
            b@,
            f.path@,
            search_start(opts, project_root),
            project_root,
            query(opts),
            opts.context as int,
        ),
        None => Seq::empty(),
    }
}

/// Runs a search on files. `Err` holds the message for a pattern that is none.
pub fn run(opts: &SearchOptions, files: Vec<SourceFile>, project_root: &str) -> (r: Result<SearchOutput, String>)
    ensures
        if is_pattern(search_pattern(*opts), opts.ignore_case) {
            let found = Seq::new(files@.len(), |i: int| source_hits(files@[i], *opts, project_root@));
            let all = all_hits(found);
            r matches Ok(o) && {
                &&& seen(o.matches@) == capped(all, opts.max_matches as int)
                &&& o.total_matches == o.matches@.len()
                &&& o.files_searched == files@.len()
                &&& o.files_with_matches == files_hit(found.take(files_reached(found, opts.max_matches as int)))
                &&& o.truncated == (all.len() > opts.max_matches)
            }
        } else {
            r matches Err(m) && m@ == "invalid regex pattern: "@ + opts.pattern@
        },
{
    let re = match build_regex(opts) {
        Ok(re) => re,
        Err(m) => {
            return Err(m);
        },
    };
    let search_root: String = match &opts.path {
        Some(p) => p.clone(),
        None => project_root.to_string(),
    };
    let count: usize = files.len();
    let ghost given = files@;
    let ghost found = Seq::new(given.len(), |i: int| source_hits(given[i], *opts, project_root@));
    let mut results: Vec<Vec<SearchMatch>> = Vec::new();
    assert(hits_by_file(results@) =~= found.take(0));
    for f in it: files
        invariant
            it.seq() == given,
            found == Seq::new(given.len(), |i: int| source_hits(given[i], *opts, project_root@)),
            search_root@ == search_start(*opts, project_root@),
            query_of(re) == query(*opts),
            hits_by_file(results@) == found.take(it.index()),
    {
        let ghost i = it.index();
        let ghost before = hits_by_file(results@);
        let matches: Vec<SearchMatch> = match f.bytes {
            Some(b) => search_file(b, f.path.as_str(), search_root.as_str(), project_root, &re, opts.context),
            None => Vec::new(),
        };
        let ghost mv = seen(matches@);
        assert(given[i].bytes is None ==> mv =~= Seq::empty());
        assert(mv == found[i]);
        results.push(matches);
        assert(hits_by_file(results@) =~= before.push(mv));
        assert(found.take(i + 1) =~= found.take(i).push(mv));
    }
    assert(found.take(found.len() as int) =~= found);
    Ok(collect_results(results, count, opts.max_matches))
}

// ── Laws ────────────────────────────────────────────────────────────────────

/// A search never shows more matches than asked for, and says that it left some out exactly when
/// it did.
pub proof fn capped_is_prefix(s: Seq<Hit>, max: int)
    requires
        0 <= max,
    ensures
        capped(s, max).len() <= max,
        capped(s, max).is_prefix_of(s),
        (s.len() > max) == (capped(s, max).len() < s.len()),
{
    let r = capped(s, max);
    assert(r =~= s.subrange(0, r.len() as int));
}

/// A pattern without backslashes is not changed by the conversion of grep escapes.
pub proof fn plain_pattern_is_kept(s: Seq<char>)
    requires
        !s.contains('\\'),
    ensures
        without_grep_escapes(s) == s,
    decreases s.len(),
{
    if s.len() > 0 {
        assert(s[0] != '\\');
        let t = s.drop_first();
        assert forall|i: int| 0 <= i < t.len() implies t[i] != '\\' by {
            assert(t[i] == s[i + 1]);
        }
        plain_pattern_is_kept(t);
        assert(seq![s[0]] + t =~= s);
    } else {
        assert(without_grep_escapes(s) =~= s);
    }
}

/// A character to which the pattern language gives a meaning.
pub open spec fn has_meaning(c: char) -> bool {
    "\\.+*?()|[]{}^$#&-~"@.contains(c)
}

/// The text that a pattern stands for character by character: a character with a meaning stands for
/// itself where a backslash is before it, and any other one without. `None` where some part of the
/// pattern has a meaning.
pub open spec fn literal_text(pattern: Seq<char>) -> Option<Seq<char>>
    decreases pattern.len(),
{
    if pattern.len() == 0 {
        Some(Seq::empty())
    } else if pattern[0] == '\\' {
        if pattern.len() >= 2 && has_meaning(pattern[1]) {
            match literal_text(pattern.skip(2)) {
                Some(t) => Some(seq![pattern[1]] + t),
                None => None,
            }
        } else {
            None
        }
    } else if has_meaning(pattern[0]) {
        None
    } else {
        match literal_text(pattern.drop_first()) {
            Some(t) => Some(seq![pattern[0]] + t),
            None => None,
        }
    }
}

proof fn meanings(c: char)
    ensures
        has_meaning(c) == is_meta(c),
        has_meaning('\\'),
{
    reveal_strlit("\\.+*?()|[]{}^$#&-~");
    let all = "\\.+*?()|[]{}^$#&-~"@;
    assert(all.len() == 18);
    assert(all[0] == '\\' && all[1] == '.' && all[2] == '+' && all[3] == '*' && all[4] == '?' && all[5] == '('
        && all[6] == ')' && all[7] == '|' && all[8] == '[' && all[9] == ']' && all[10] == '{' && all[11] == '}'
        && all[12] == '^' && all[13] == '$' && all[14] == '#' && all[15] == '&' && all[16] == '-' && all[17] == '~');
    if has_meaning(c) {
        let k = choose|k: int| 0 <= k < all.len() && all[k] == c;
        assert(k == 0 || k == 1 || k == 2 || k == 3 || k == 4 || k == 5 || k == 6 || k == 7 || k == 8 || k == 9 || k
            == 10 || k == 11 || k == 12 || k == 13 || k == 14 || k == 15 || k == 16 || k == 17);
    }
}

proof fn escaped_add(a: Seq<char>, b: Seq<char>)
    ensures
        escaped(a + b) == escaped(a) + escaped(b),
    decreases b.len(),
{
    if b.len() == 0 {
        assert(a + b =~= a);
        assert(escaped(a) + escaped(b) =~= escaped(a));
    } else {
        escaped_add(a, b.drop_last());
        assert((a + b).drop_last() =~= a + b.drop_last());
        assert((a + b).last() == b.last());
        assert(escaped(a + b) =~= escaped(a) + escaped(b));
    }
}

/// An escaped text is a pattern that stands for that text, character by character, whatever characters
/// it has: each that has a meaning stands behind a backslash, and no other backslash is there.
pub proof fn escaped_text_stands_for_itself(s: Seq<char>)
    ensures
        literal_text(escaped(s)) == Some(s),
    decreases s.len(),
{
    if s.len() == 0 {
        assert(escaped(s) =~= Seq::empty());
        assert(s =~= Seq::empty());
    } else {
        let c = s[0];
        let rest = s.drop_first();
        let one = seq![c];
        assert(s =~= one + rest);
        escaped_add(one, rest);
        escaped_text_stands_for_itself(rest);
        meanings(c);
        assert(one.drop_last() =~= Seq::empty());
        assert(one.last() == c);
        assert(escaped(one.drop_last()) =~= Seq::empty());
        let e = escaped(s);
        if is_meta(c) {
            assert(escaped(one) =~= seq!['\\', c]);
            assert(e[0] == '\\' && e[1] == c);
            assert(e.skip(2) =~= escaped(rest));
        } else {
            assert(escaped(one) =~= seq![c]);
            assert(e[0] == c);
            assert(e.drop_first() =~= escaped(rest));
        }
    }
}

/// A literal search is for a pattern that stands for the searched text, character by character; one for
/// whole words has it between two word boundaries. Letters of either case match just where that is
/// asked for.
pub proof fn literal_search_is_for_its_text(opts: SearchOptions)
    requires
        opts.literal,
    ensures
        !opts.word ==> literal_text(query(opts).text) == Some(opts.pattern@),
        opts.word ==> {
            let p = query(opts).text;
            &&& p.len() >= 4
            &&& p[0] == '\\' && p[1] == 'b'
            &&& p[p.len() - 2] == '\\' && p[p.len() - 1] == 'b'
            &&& literal_text(p.subrange(2, p.len() - 2)) == Some(opts.pattern@)
        },
        query(opts).ignore_case == opts.ignore_case,
{
    escaped_text_stands_for_itself(opts.pattern@);
    if opts.word {
        reveal_strlit("\\b");
        let p = query(opts).text;
        assert(p.subrange(2, p.len() - 2) =~= escaped(opts.pattern@));
    }
}

/// In a pattern that is not literal, a backslash before `|`, `+`, `?` or a parenthesis is dropped, as grep
/// has it, and all else is kept.
pub proof fn grep_operators_lose_their_backslash(plain: Seq<char>, c: char, rest: Seq<char>)
    requires
        !plain.contains('\\'),
        c != '\\',
    ensures
        without_grep_escapes(plain) == plain,
        c == '|' || c == '+' || c == '?' || c == '(' || c == ')' ==> without_grep_escapes(plain + seq!['\\', c] + rest)
            == plain + seq![c] + without_grep_escapes(rest),
        !(c == '|' || c == '+' || c == '?' || c == '(' || c == ')') ==> without_grep_escapes(
            plain + seq!['\\', c] + rest,
        ) == plain + seq!['\\', c] + without_grep_escapes(rest),
    decreases plain.len(),
{
    plain_pattern_is_kept(plain);
    let s = plain + seq!['\\', c] + rest;
    let w = without_grep_escapes(rest);
    if plain.len() == 0 {
        assert(s[0] == '\\' && s[1] == c);
        if is_grep_operator(c) {
            assert(s.skip(2) =~= rest);
            assert(without_grep_escapes(s) =~= plain + seq![c] + w);
        } else {
            let t = s.drop_first();
            assert(t =~= seq![c] + rest);
            assert(t[0] == c);
            assert(t.drop_first() =~= rest);
            assert(without_grep_escapes(t) =~= seq![c] + w);
            assert(without_grep_escapes(s) =~= plain + seq!['\\', c] + w);
        }
    } else {
        let p = plain.drop_first();
        assert forall|k: int| 0 <= k < p.len() implies p[k] != '\\' by {
            assert(p[k] == plain[k + 1]);
        }
        grep_operators_lose_their_backslash(p, c, rest);
        assert(s[0] == plain[0]);
        assert(plain[0] != '\\');
        assert(s.drop_first() =~= p + seq!['\\', c] + rest);
        if is_grep_operator(c) {
            assert(without_grep_escapes(s) =~= plain + seq![c] + w);
        } else {
            assert(without_grep_escapes(s) =~= plain + seq!['\\', c] + w);
        }
    }
}

/// The match on line `i` of a file, both it and the column counted from 1, with the lines around it.
pub open spec fn hit_on(ls: Seq<Seq<char>>, rel: Seq<char>, q: Query, context: int, i: int) -> Hit {
    Hit {
        path: rel,
        line: (i + 1) as u32,
        column: (q.start_in(ls[i])->Some_0 + 1) as u32,
        preview: ls[i],
        context_before: ls.subrange(
            if i < context {
                0
            } else {
                i - context
            },
            i,
        ),
        context_after: ls.subrange(
            i + 1,
            if ls.len() < i + 1 + context {
                ls.len() as int
            } else {
                i + 1 + context
            },
        ),
    }
}

/// Each line in which the pattern is found is a match, and no other: once, in order, with its number, the
/// column of the first place, the whole line, and as many lines before and behind it as asked for, as far
/// as the file has them.
pub proof fn all_matching_lines_are_hits(ls: Seq<Seq<char>>, rel: Seq<char>, q: Query, context: int, n: int)
    requires
        0 <= n <= ls.len() < u32::MAX,
        0 <= context,
        forall|i: int| 0 <= i < ls.len() ==> match #[trigger] q.start_in(ls[i]) {
            Some(start) => start < u32::MAX,
            None => true,
        },
    ensures
        hits(ls, rel, q, context, n) == Seq::new(n as nat, |i: int| i).filter(
            |i: int| q.start_in(ls[i]) is Some,
        ).map_values(|i: int| hit_on(ls, rel, q, context, i)),
    decreases n,
{
    reveal(Seq::filter);
    let p = |i: int| q.start_in(ls[i]) is Some;
    let make = |i: int| hit_on(ls, rel, q, context, i);
    let all = Seq::new(n as nat, |i: int| i);
    if n > 0 {
        all_matching_lines_are_hits(ls, rel, q, context, n - 1);
        assert(all.drop_last() =~= Seq::new((n - 1) as nat, |i: int| i));
        assert(all.last() == n - 1);
        let rest = all.drop_last().filter(p);
        assert(q.start_in(ls[n - 1]) is Some ==> q.start_in(ls[n - 1])->Some_0 < u32::MAX);
        if p(n - 1) {
            assert(rest.push(n - 1).map_values(make) =~= rest.map_values(make).push(make(n - 1)));
            assert(hits(ls, rel, q, context, n).last() == make(n - 1));
        }
    } else {
        assert(all =~= Seq::empty());
        assert(all.filter(p).map_values(make) =~= Seq::empty());
    }
}

/// A text file without zero bytes is searched line by line, and shown by its path below the directory
/// that the search starts from.
pub proof fn text_files_are_searched(
    bytes: Seq<u8>,
    dir: Seq<char>,
    path: Seq<char>,
    root: Seq<char>,
    q: Query,
    context: int,
)
    requires
        valid_utf8(bytes),
        forall|i: int| 0 <= i < bytes.len() ==> #[trigger] bytes[i] != 0,
        is_absolute(dir),
        !is_absolute(path),
    ensures
        ({
            let ls = lines(decode_utf8(bytes));
            exists|rel: Seq<char>|
                names(rel) == names_behind(path) && file_hits(bytes, joined(dir, path), dir, root, q, context)
                    == #[trigger] hits(ls, rel, q, context, ls.len() as int)
        }),
{
    assert(!looks_binary(bytes, BINARY_SCAN_BYTES as int));
    joined_is_shown(dir, path);
    let rel = relative(joined(dir, path), dir)->Some_0;
    let ls = lines(decode_utf8(bytes));
    assert(file_hits(bytes, joined(dir, path), dir, root, q, context) == hits(ls, rel, q, context, ls.len() as int));
}

/// The matches of all files are those of each, one file after the other, and the files with a match are
/// counted.
pub proof fn matches_of_all_files_are_collected(files: Seq<Seq<Hit>>)
    ensures
        all_hits(files) == files.flatten_alt(),
        files_hit(files) == files.filter(|f: Seq<Hit>| f.len() > 0).len(),
    decreases files.len(),
{
    reveal(Seq::filter);
    if files.len() > 0 {
        matches_of_all_files_are_collected(files.drop_last());
    }
}

/// Files are looked at until more matches have come up than are asked for, and no further.
pub proof fn files_are_reached_in_turn(files: Seq<Seq<Hit>>, max: int)
    requires
        0 <= max,
    ensures
        ({
            let n = files_reached(files, max);
            &&& 0 <= n <= files.len()
            &&& n < files.len() ==> all_hits(files.take(n)).len() > max
            &&& forall|k: int| 0 <= k < n ==> all_hits(#[trigger] files.take(k)).len() <= max
        }),
    decreases files.len(),
{
    let n = files_reached(files, max);
    if files.len() > 0 {
        let init = files.drop_last();
        files_are_reached_in_turn(init, max);
        assert(files.take(init.len() as int) =~= init);
        if all_hits(init).len() > max {
            assert(files.take(n) =~= init.take(n));
            if n == init.len() {
                assert(init.take(n) =~= init);
            }
            assert forall|k: int| 0 <= k < n implies all_hits(#[trigger] files.take(k)).len() <= max by {
                assert(files.take(k) =~= init.take(k));
            }
        } else {
            assert forall|k: int| 0 <= k < n implies all_hits(#[trigger] files.take(k)).len() <= max by {
                assert(init.take(k) =~= files.take(k));
                hits_grow(init, k);
            }
        }
    }
}

proof fn hits_grow(files: Seq<Seq<Hit>>, k: int)
    requires
        0 <= k <= files.len(),
    ensures
        all_hits(files.take(k)).len() <= all_hits(files).len(),
    decreases files.len() - k,
{
    if k < files.len() {
        hits_grow(files, k + 1);
        assert(files.take(k + 1).drop_last() =~= files.take(k));
    } else {
        assert(files.take(k) =~= files);
    }
}

/// A search looks at all files, or at those with an extension of the language that is asked for.
pub proof fn all_wanted_files_are_searched(files: Seq<Seq<char>>, lang: Option<Seq<char>>)
    ensures
        searched(files, lang) == files.filter(
            |path: Seq<char>|
                lang is None || (extension(path) is Some && flag_suffixes(lang->Some_0).contains(
                    extension(path)->Some_0,
                )),
        ),
    decreases files.len(),
{
    reveal(Seq::filter);
    if files.len() > 0 {
        all_wanted_files_are_searched(files.drop_last(), lang);
    } else {
        assert(searched(files, lang) =~= Seq::empty());
    }
}

} // verus!
