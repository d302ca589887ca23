//! Search results in few words.

use crate::commands::search::{hits, Hit, Query, SearchMatch, SearchOutput};
use crate::lsp::router::{firsts, firsts_keys, has_key};
use crate::sorting::{rank, seen, sort, sorted_by, sorting_is_stable, Ranked};
use crate::text::{
    byte_count, byte_len, decimal, digit_count, lex_is_order, lex_lt, list_contains, pad_left, pad_right, push_decimal,
    push_padded_left, push_padded_right, str_eq, str_lt, str_trim, trim, views,
};
use vstd::prelude::*;

verus! {

impl Ranked for String {
    /// Strings stand in the order of their characters.
    open spec fn before(a: Seq<char>, b: Seq<char>) -> bool {
        lex_lt(a, b)
    }

    fn is_before(&self, other: &String) -> (r: bool) {
        str_lt(self.as_str(), other.as_str())
    }
}

// ── Paths only ──────────────────────────────────────────────────────────────

/// The value itself.
pub open spec fn itself() -> spec_fn(Seq<char>) -> Seq<char> {
    |s: Seq<char>| s
}

/// The paths of matches.
pub open spec fn hit_paths(s: Seq<Hit>) -> Seq<Seq<char>> {
    Seq::new(s.len(), |i: int| s[i].path)
}

/// The paths of matches, each once, in order.
pub open spec fn distinct_paths(s: Seq<Hit>) -> Seq<Seq<char>> {
    sorted_by(firsts(hit_paths(s), itself()), rank::<String>())
}

/// Each on a line of its own.
pub open spec fn on_lines(s: Seq<Seq<char>>) -> Seq<char>
    decreases s.len(),
{
    if s.len() == 0 {
        Seq::empty()
    } else {
        on_lines(s.drop_last()) + s.last() + "\n"@
    }
}

/// A word for one or for several.
pub open spec fn plural(n: int, one: Seq<char>, many: Seq<char>) -> Seq<char> {
    if n == 1 {
        one
    } else {
        many
    }
}

/// The paths with matches, and how many there are.
pub open spec fn files_text(s: Seq<Hit>) -> Seq<char> {
    let paths = distinct_paths(s);
    on_lines(paths) + decimal(paths.len()) + " "@ + plural(paths.len() as int, "file"@, "files"@)
}

fn collect_paths(matches: &Vec<SearchMatch>) -> (r: Vec<String>)
    ensures
        seen(r@) == distinct_paths(seen(matches@)),
{
    let ghost all = hit_paths(seen(matches@));
    let ghost key = itself();
    let mut kept: Vec<String> = Vec::new();
    let mut i: usize = 0;
    assert(all.take(0) =~= Seq::empty());
    assert(seen(kept@) =~= Seq::empty());
    while i < matches.len()
        invariant
            0 <= i <= matches@.len(),
            all == hit_paths(seen(matches@)),
            key == itself(),
            seen(kept@) == firsts(all.take(i as int), key),
        decreases matches@.len() - i,
    {
        let path = &matches[i].path;
        proof {
            assert(all.take(i + 1).drop_last() =~= all.take(i as int));
            assert(all.take(i + 1).last() == path@);
            firsts_keys(all.take(i as int), key);
            assert(has_key(firsts(all.take(i as int), key), key, path@) == has_key(all.take(i as int), key, path@));
            assert(seen(kept@) =~= views(kept@));
            if views(kept@).contains(path@) {
                let k = choose|k: int| 0 <= k < views(kept@).len() && views(kept@)[k] == path@;
                assert(key(seen(kept@)[k]) == path@);
            }
        }
        if !list_contains(&kept, path.as_str()) {
            let ghost before = seen(kept@);
            kept.push(path.clone());
            assert(seen(kept@) =~= before.push(path@));
        }
        i = i + 1;
    }
    assert(all.take(i as int) =~= all);
    sort(kept)
}

fn format_files(matches: &Vec<SearchMatch>) -> (r: String)
    ensures
        r@ == files_text(seen(matches@)),
{
    let paths = collect_paths(matches);
    let ghost all = seen(paths@);
    let n: usize = paths.len();
    let mut out = String::new();
    let mut i: usize = 0;
    assert(all.take(0) =~= Seq::empty());
    while i < n
        invariant
            0 <= i <= n,
            n == paths@.len(),
            all == seen(paths@),
            out@ == on_lines(all.take(i as int)),
        decreases n - i,
    {
        assert(all.take(i + 1).drop_last() =~= all.take(i as int));
        assert(all.take(i + 1).last() == paths@[i as int]@);
        out.append(paths[i].as_str());
        out.append("\n");
        i = i + 1;
    }
    assert(all.take(i as int) =~= all);
    push_decimal(&mut out, n as u64);
    out.append(" ");
    out.append(
        if n == 1 {
            "file"
        } else {
            "files"
        },
    );
    out
}

// ── Counts ──────────────────────────────────────────────────────────────────

/// How many matches were found in how many files.
pub open spec fn counts_text(matches: usize, files: usize, truncated: bool) -> Seq<char> {
    decimal(matches as nat) + " "@ + plural(matches as int, "match"@, "matches"@) + " in "@ + decimal(files as nat)
        + " "@ + plural(files as int, "file"@, "files"@) + if truncated {
        " [truncated]"@
    } else {
        ""@
    }
}

fn push_counts(out: &mut String, matches: usize, files: usize, truncated: bool)
    ensures
        final(out)@ == old(out)@ + counts_text(matches, files, truncated),
{
    push_decimal(out, matches as u64);
    out.append(" ");
    out.append(
        if matches == 1 {
            "match"
        } else {
            "matches"
        },
    );
    out.append(" in ");
    push_decimal(out, files as u64);
    out.append(" ");
    out.append(
        if files == 1 {
            "file"
        } else {
            "files"
        },
    );
    out.append(
        if truncated {
            " [truncated]"
        } else {
            ""
        },
    );
    assert(final(out)@ =~= old(out)@ + counts_text(matches, files, truncated));
}

// ── One line for each match ─────────────────────────────────────────────────

/// Where a match stands.
pub open spec fn location_text(h: Hit) -> Seq<char> {
    h.path + ":"@ + decimal(h.line as nat) + ":"@ + decimal(h.column as nat)
}

/// Bytes of the longest location.
pub open spec fn location_width(s: Seq<Hit>) -> usize
    decreases s.len(),
{
    if s.len() == 0 {
        0
    } else {
        let rest = location_width(s.drop_last());
        let here = byte_len(location_text(s.last()));
        if here > rest {
            here
        } else {
            rest
        }
    }
}

/// The matches, each behind its location, which is filled up to `width`.
pub open spec fn flat_lines(s: Seq<Hit>, width: usize) -> Seq<char>
    decreases s.len(),
{
    if s.len() == 0 {
        Seq::empty()
    } else {
        flat_lines(s.drop_last(), width) + pad_right(location_text(s.last()), width as int) + "  "@ + trim(
            s.last().preview,
        ) + "\n"@
    }
}

fn location_of(m: &SearchMatch) -> (r: String)
    ensures
        r@ == location_text(m@),
{
    let mut out = m.path.clone();
    out.append(":");
    push_decimal(&mut out, m.line as u64);
    out.append(":");
    push_decimal(&mut out, m.column as u64);
    out
}

fn push_flat(out: &mut String, matches: &Vec<SearchMatch>)
    ensures
        final(out)@ == old(out)@ + flat_lines(seen(matches@), location_width(seen(matches@))),
{
    let ghost all = seen(matches@);
    let ghost start = out@;
    let mut width: usize = 0;
    let mut i: usize = 0;
    assert(all.take(0) =~= Seq::empty());
    while i < matches.len()
        invariant
            0 <= i <= matches@.len(),
            all == seen(matches@),
            width == location_width(all.take(i as int)),
        decreases matches@.len() - i,
    {
        assert(all.take(i + 1).drop_last() =~= all.take(i as int));
        assert(all.take(i + 1).last() == matches@[i as int]@);
        let n: usize = byte_count(location_of(&matches[i]).as_str());
        if n > width {
            width = n;
        }
        i = i + 1;
    }
    assert(all.take(i as int) =~= all);
    let mut j: usize = 0;
    assert(out@ =~= start + flat_lines(all.take(0), width));
    while j < matches.len()
        invariant
            0 <= j <= matches@.len(),
            all == seen(matches@),
            out@ == start + flat_lines(all.take(j as int), width),
        decreases matches@.len() - j,
    {
        assert(all.take(j + 1).drop_last() =~= all.take(j as int));
        assert(all.take(j + 1).last() == matches@[j as int]@);
        push_padded_right(out, location_of(&matches[j]).as_str(), width);
        out.append("  ");
        out.append(str_trim(matches[j].preview.as_str()).as_str());
        out.append("\n");
        j = j + 1;
        assert(out@ =~= start + flat_lines(all.take(j as int), width));
    }
    assert(all.take(j as int) =~= all);
}

// ── Matches with the lines around them ──────────────────────────────────────

/// The first `n` lines of a context, numbered from `first` on.
pub open spec fn context_lines(ls: Seq<Seq<char>>, first: int, width: int, n: int) -> Seq<char>
    decreases n,
{
    if n <= 0 {
        Seq::empty()
    } else {
        context_lines(ls, first, width, n - 1) + "  "@ + pad_left(decimal((first + n - 1) as nat), width) + "  "@ + ls[n
            - 1] + "\n"@
    }
}

/// A match between the lines before it and after it.
pub open spec fn block_text(h: Hit) -> Seq<char> {
    let width = decimal((h.line + h.context_after.len()) as nat).len() as int;
    context_lines(h.context_before, h.line - h.context_before.len(), width, h.context_before.len() as int) + "> "@
        + pad_left(decimal(h.line as nat), width) + "  "@ + trim(h.preview) + "\n"@ + context_lines(
        h.context_after,
        h.line + 1,
        width,
        h.context_after.len() as int,
    )
}

/// What stands above the match at `i`: its path, where it is the first of its file.
pub open spec fn heading_text(s: Seq<Hit>, i: int) -> Seq<char> {
    if i == 0 {
        s[0].path + "\n"@
    } else if s[i - 1].path != s[i].path {
        "──\n"@ + s[i].path + "\n"@
    } else {
        Seq::empty()
    }
}

/// The first `n` matches with their contexts, those of a file below its path and apart from those
/// of the next.
pub open spec fn blocks_text(s: Seq<Hit>, n: int) -> Seq<char>
    decreases n,
{
    if n <= 0 {
        Seq::empty()
    } else {
        blocks_text(s, n - 1) + heading_text(s, n - 1) + block_text(s[n - 1])
    }
}

fn push_context(out: &mut String, ls: &Vec<String>, first: u64, width: usize)
    requires
        first + ls@.len() <= u64::MAX,
    ensures
        final(out)@ == old(out)@ + context_lines(views(ls@), first as int, width as int, ls@.len() as int),
{
    let ghost all = views(ls@);
    let ghost start = out@;
    let n: usize = ls.len();
    let mut i: usize = 0;
    assert(out@ =~= start + context_lines(all, first as int, width as int, 0));
    while i < n
        invariant
            0 <= i <= n,
            n == ls@.len(),
            all == views(ls@),
            first + n <= u64::MAX,
            out@ == start + context_lines(all, first as int, width as int, i as int),
        decreases n - i,
    {
        let num = crate::text::decimal_of(first + i as u64);
        out.append("  ");
        push_padded_left(out, num.as_str(), width);
        out.append("  ");
        out.append(ls[i].as_str());
        out.append("\n");
        assert(all[i as int] == ls@[i as int]@);
        i = i + 1;
        assert(out@ =~= start + context_lines(all, first as int, width as int, i as int));
    }
}

/// A match that has no more lines before it than its line number allows, and whose line numbers
/// the machine can count.
pub open spec fn has_sound_context(h: Hit) -> bool {
    h.context_before.len() <= h.line && h.line + 1 + h.context_after.len() <= u64::MAX
}

fn push_block(out: &mut String, m: &SearchMatch)
    requires
        has_sound_context(m@),
    ensures
        final(out)@ == old(out)@ + block_text(m@),
{
    let ghost start = out@;
    assert(views(m.context_after@).len() == m.context_after@.len());
    assert(views(m.context_before@).len() == m.context_before@.len());
    let line: u64 = m.line as u64;
    let width: usize = digit_count(line as u128 + m.context_after.len() as u128);
    push_context(out, &m.context_before, line - m.context_before.len() as u64, width);
    let ghost mid = out@;
    out.append("> ");
    push_padded_left(out, crate::text::decimal_of(line).as_str(), width);
    out.append("  ");
    out.append(str_trim(m.preview.as_str()).as_str());
    out.append("\n");
    push_context(out, &m.context_after, line + 1, width);
    assert(final(out)@ =~= start + block_text(m@));
}

fn make_block(m: &SearchMatch) -> (r: String)
    requires
        has_sound_context(m@),
    ensures
        r@ == block_text(m@),
{
    let mut out = String::new();
    push_block(&mut out, m);
    assert(out@ =~= block_text(m@));
    out
}

fn make_heading(matches: &Vec<SearchMatch>, i: usize) -> (r: String)
    requires
        i < matches@.len(),
    ensures
        r@ == heading_text(seen(matches@), i as int),
{
    let ghost all = seen(matches@);
    assert(all[i as int] == matches@[i as int]@);
    if i == 0 {
        let mut out = matches[0].path.clone();
        out.append("\n");
        return out;
    }
    assert(all[i - 1] == matches@[i - 1]@);
    if str_eq(matches[i - 1].path.as_str(), matches[i].path.as_str()) {
        return String::new();
    }
    let mut out = "──\n".to_string();
    out.append(matches[i].path.as_str());
    out.append("\n");
    out
}

fn make_blocks(matches: &Vec<SearchMatch>) -> (r: String)
    requires
        forall|i: int| 0 <= i < matches@.len() ==> has_sound_context(#[trigger] seen(matches@)[i]),
    ensures
        r@ == blocks_text(seen(matches@), matches@.len() as int),
{
    let ghost all = seen(matches@);
    let n: usize = matches.len();
    let mut out = String::new();
    let mut i: usize = 0;
    while i < n
        invariant
            0 <= i <= n,
            n == matches@.len(),
            all == seen(matches@),
            forall|k: int| 0 <= k < matches@.len() ==> has_sound_context(#[trigger] seen(matches@)[k]),
            out@ == blocks_text(all, i as int),
        decreases n - i,
    {
        assert(all[i as int] == matches@[i as int]@);
        assert(has_sound_context(seen(matches@)[i as int]));
        let heading = make_heading(matches, i);
        let block = make_block(&matches[i]);
        out.append(heading.as_str());
        out.append(block.as_str());
        i = i + 1;
    }
    out
}

// ── All of it ───────────────────────────────────────────────────────────────

/// Search results in few words.
pub open spec fn search_text(o: SearchOutput, with_context: bool, files_only: bool) -> Seq<char> {
    let s = seen(o.matches@);
    let counts = counts_text(o.total_matches, o.files_with_matches, o.truncated);
    if files_only {
        files_text(s)
    } else if with_context {
        blocks_text(s, s.len() as int) + (if s.len() > 0 {
            "──\n"@
        } else {
            Seq::empty()
        }) + counts
    } else {
        flat_lines(s, location_width(s)) + counts
    }
}

/// Formats search results as compact output.
pub fn format_search(output: &SearchOutput, with_context: bool, files_only: bool) -> (r: String)
    requires
        with_context && !files_only ==> forall|i: int|
            0 <= i < output.matches@.len() ==> has_sound_context(#[trigger] seen(output.matches@)[i]),
    ensures
        r@ == search_text(*output, with_context, files_only),
{
    if files_only {
        return format_files(&output.matches);
    }
    let mut out = String::new();
    if with_context {
        out = make_blocks(&output.matches);
        if output.matches.len() > 0 {
            out.append("──\n");
        }
    } else {
        push_flat(&mut out, &output.matches);
    }
    push_counts(&mut out, output.total_matches, output.files_with_matches, output.truncated);
    assert(out@ =~= search_text(*output, with_context, files_only));
    out
}

/// What a search finds in a file has a sound context.
pub proof fn hits_have_sound_context(
    ls: Seq<Seq<char>>,
    rel: Seq<char>,
    q: Query,
    context: int,
    n: int,
)
    requires
        0 <= n <= ls.len() <= u32::MAX,
        0 <= context <= u32::MAX,
    ensures
        forall|i: int|
            0 <= i < hits(ls, rel, q, context, n).len() ==> has_sound_context(
                #[trigger] hits(ls, rel, q, context, n)[i],
            ),
    decreases n,
{
    if n > 0 {
        hits_have_sound_context(ls, rel, q, context, n - 1);
        let rest = hits(ls, rel, q, context, n - 1);
        let all = hits(ls, rel, q, context, n);
        assert forall|i: int| 0 <= i < all.len() implies has_sound_context(#[trigger] all[i]) by {
            if i < rest.len() {
                assert(all[i] == rest[i]);
            }
        }
    }
}

/// Each match is shown on a line of its own: its path, line and column, filled up to the width, and what
/// stands there without the space around it.
pub proof fn all_hits_are_shown(s: Seq<Hit>, width: usize)
    ensures
        flat_lines(s, width) == s.map_values(|h: Hit|
            pad_right(h.path + ":"@ + decimal(h.line as nat) + ":"@ + decimal(h.column as nat), width as int) + "  "@ + trim(h.preview) + "\n"@).flatten_alt(),
    decreases s.len(),
{
    let f = |h: Hit|
            pad_right(h.path + ":"@ + decimal(h.line as nat) + ":"@ + decimal(h.column as nat), width as int) + "  "@ + trim(h.preview) + "\n"@;
    let all = s.map_values(f);
    if s.len() > 0 {
        all_hits_are_shown(s.drop_last(), width);
        assert(all.drop_last() =~= s.drop_last().map_values(f));
        assert(all.last() == f(s.last()));
        assert(flat_lines(s, width) =~= all.flatten_alt());
    } else {
        assert(all.flatten_alt() =~= Seq::<char>::empty());
    }
}

/// Each text stands on a line of its own, in order.
pub proof fn all_are_on_lines(s: Seq<Seq<char>>)
    ensures
        on_lines(s) == s.map_values(|t: Seq<char>| t + "\n"@).flatten_alt(),
    decreases s.len(),
{
    let f = |t: Seq<char>| t + "\n"@;
    let all = s.map_values(f);
    if s.len() > 0 {
        all_are_on_lines(s.drop_last());
        assert(all.drop_last() =~= s.drop_last().map_values(f));
        assert(all.last() == f(s.last()));
        assert(on_lines(s) =~= all.flatten_alt());
    } else {
        assert(all.flatten_alt() =~= Seq::<char>::empty());
    }
}

/// The width is that of the longest location.
pub proof fn width_is_the_longest(s: Seq<Hit>)
    ensures
        forall|i: int|
            0 <= i < s.len() ==> byte_len(
                #[trigger] s[i].path + ":"@ + decimal(s[i].line as nat) + ":"@ + decimal(s[i].column as nat),
            ) <= location_width(s),
        location_width(s) > 0 ==> exists|i: int|
            0 <= i < s.len() && byte_len(
                #[trigger] s[i].path + ":"@ + decimal(s[i].line as nat) + ":"@ + decimal(s[i].column as nat),
            ) == location_width(s),
    decreases s.len(),
{
    if s.len() > 0 {
        let init = s.drop_last();
        width_is_the_longest(init);
        assert forall|i: int| 0 <= i < s.len() implies byte_len(
            #[trigger] s[i].path + ":"@ + decimal(s[i].line as nat) + ":"@ + decimal(s[i].column as nat),
        ) <= location_width(s) by {
            if i < init.len() {
                assert(init[i] == s[i]);
                assert(init[i].path == s[i].path);
            }
        }
        if location_width(s) > 0 {
            let k = if byte_len(location_text(s.last())) > location_width(init) {
                s.len() - 1
            } else {
                choose|i: int|
                    0 <= i < init.len() && byte_len(
                        #[trigger] init[i].path + ":"@ + decimal(init[i].line as nat) + ":"@ + decimal(
                            init[i].column as nat,
                        ),
                    ) == location_width(init)
            };
            assert(s[s.len() - 1] == s.last());
            if k < init.len() {
                assert(init[k] == s[k]);
            }
            assert(byte_len(s[k].path + ":"@ + decimal(s[k].line as nat) + ":"@ + decimal(s[k].column as nat))
                == location_width(s));
        }
    }
}

/// Each line of a context is shown behind its number.
pub proof fn all_context_is_shown(ls: Seq<Seq<char>>, first: int, width: int, n: int)
    requires
        0 <= n <= ls.len(),
    ensures
        context_lines(ls, first, width, n) == Seq::new(
            n as nat,
            |i: int| "  "@ + pad_left(decimal((first + i) as nat), width) + "  "@ + ls[i] + "\n"@,
        ).flatten_alt(),
    decreases n,
{
    let f = |i: int| "  "@ + pad_left(decimal((first + i) as nat), width) + "  "@ + ls[i] + "\n"@;
    let all = Seq::new(n as nat, f);
    if n > 0 {
        all_context_is_shown(ls, first, width, n - 1);
        assert(all.drop_last() =~= Seq::new((n - 1) as nat, f));
        assert(all.last() == f(n - 1));
        assert(context_lines(ls, first, width, n) =~= all.flatten_alt());
    } else {
        assert(all.flatten_alt() =~= Seq::<char>::empty());
    }
}

/// With their contexts, the matches are shown in order: each one marked, behind its number, between the lines
/// before it and those after it. The path stands above the first match of a file, and a rule above the path
/// of each file but the first.
pub proof fn all_blocks_are_shown(s: Seq<Hit>, n: int)
    requires
        0 <= n <= s.len(),
    ensures
        blocks_text(s, n) == Seq::new(
            n as nat,
            |i: int|
                {
                    let h = s[i];
                    let width = decimal((h.line + h.context_after.len()) as nat).len() as int;
                    let before = h.context_before.len() as int;
                    (if i > 0 && s[i - 1].path == h.path {
                        Seq::empty()
                    } else if i > 0 {
                        "──\n"@ + h.path + "\n"@
                    } else {
                        h.path + "\n"@
                    }) + (context_lines(h.context_before, h.line - before, width, before) + "> "@ + pad_left(
                        decimal(h.line as nat),
                        width,
                    ) + "  "@ + trim(h.preview) + "\n"@ + context_lines(
                        h.context_after,
                        h.line + 1,
                        width,
                        h.context_after.len() as int,
                    ))
                },
        ).flatten_alt(),
    decreases n,
{
    let f = |i: int|
        {
            let h = s[i];
            let width = decimal((h.line + h.context_after.len()) as nat).len() as int;
            let before = h.context_before.len() as int;
            (if i > 0 && s[i - 1].path == h.path {
                Seq::empty()
            } else if i > 0 {
                "──\n"@ + h.path + "\n"@
            } else {
                h.path + "\n"@
            }) + (context_lines(h.context_before, h.line - before, width, before) + "> "@ + pad_left(
                decimal(h.line as nat),
                width,
            ) + "  "@ + trim(h.preview) + "\n"@ + context_lines(
                h.context_after,
                h.line + 1,
                width,
                h.context_after.len() as int,
            ))
        };
    let all = Seq::new(n as nat, f);
    if n > 0 {
        all_blocks_are_shown(s, n - 1);
        assert(all.drop_last() =~= Seq::new((n - 1) as nat, f));
        assert(all.last() == f(n - 1));
        assert(f(n - 1) == heading_text(s, n - 1) + block_text(s[n - 1]));
        assert(blocks_text(s, n) =~= all.flatten_alt());
    } else {
        assert(all.flatten_alt() =~= Seq::<char>::empty());
    }
}

/// The listed paths are those of the matches, each once and in order.
pub proof fn all_paths_are_listed(s: Seq<Hit>, path: Seq<char>)
    ensures
        distinct_paths(s).contains(path) <==> exists|i: int| 0 <= i < s.len() && (#[trigger] s[i]).path == path,
        distinct_paths(s).no_duplicates(),
        forall|i: int, j: int|
            0 <= i < j < distinct_paths(s).len() ==> lex_lt(
                #[trigger] distinct_paths(s)[i],
                #[trigger] distinct_paths(s)[j],
            ),
{
    let paths = hit_paths(s);
    let once = firsts(paths, itself());
    let listed = distinct_paths(s);
    let lt = rank::<String>();
    let key = itself();
    firsts_keys(paths, key);
    assert forall|a: Seq<char>, b: Seq<char>| #[trigger] lt(a, b) implies !lt(b, a) by {
        lex_is_order(a, b, a);
    }
    assert forall|a: Seq<char>, b: Seq<char>, c: Seq<char>|
        !(#[trigger] lt(a, b)) && !(#[trigger] lt(b, c)) implies !lt(a, c) by {
        lex_is_order(a, b, c);
    }
    sorting_is_stable(once, lt);
    assert forall|i: int, j: int| 0 <= i < once.len() && 0 <= j < once.len() && i != j implies once[i] != once[j] by {
        if i < j {
            assert(key(once[i]) != key(once[j]));
        } else {
            assert(key(once[j]) != key(once[i]));
        }
    }
    once.lemma_multiset_has_no_duplicates();
    listed.lemma_multiset_has_no_duplicates_conv();
    assert forall|i: int, j: int| 0 <= i < j < listed.len() implies lex_lt(
        #[trigger] listed[i],
        #[trigger] listed[j],
    ) by {
        assert(!lt(listed[j], listed[i]));
        lex_is_order(listed[i], listed[j], listed[i]);
    }
    broadcast use vstd::seq_lib::group_to_multiset_ensures;
    assert(listed.contains(path) <==> listed.to_multiset().count(path) > 0);
    assert(once.contains(path) <==> once.to_multiset().count(path) > 0);
    assert(has_key(once, key, path) == has_key(paths, key, path));
    if once.contains(path) {
        let k = choose|k: int| 0 <= k < once.len() && once[k] == path;
        assert(key(once[k]) == path);
        let i = choose|i: int| 0 <= i < paths.len() && key(#[trigger] paths[i]) == path;
        assert(s[i].path == path);
    }
    if exists|i: int| 0 <= i < s.len() && (#[trigger] s[i]).path == path {
        let i = choose|i: int| 0 <= i < s.len() && (#[trigger] s[i]).path == path;
        assert(key(paths[i]) == path);
        let k = choose|k: int| 0 <= k < once.len() && key(#[trigger] once[k]) == path;
        assert(once[k] == path);
    }
}

} // verus!
