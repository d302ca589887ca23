//! What the index holds, and the texts of the queries on it that depend on their arguments.

use crate::text::{decimal, decimal_of, ends_with, join, join_strings, opt_view, str_ends_with, str_eq, views};
use vstd::prelude::*;

verus! {

/// A discovered workspace entry of the index.
#[derive(Debug)]
pub struct WorkspaceInfo {
    /// Path relative to the project root.
    pub path: String,
    /// Language name.
    pub language: String,
    /// Either `discovered` or `attached`.
    pub status: String,
    /// When the workspace was last used, as a Unix time.
    pub last_used_at: Option<i64>,
}

/// A symbol of the index. Lines and columns are counted from 0.
#[derive(Debug)]
pub struct CachedSymbol {
    pub name: String,
    pub kind: String,
    pub path: String,
    pub range_start_line: u32,
    pub range_start_col: u32,
    pub range_end_line: u32,
    pub range_end_col: u32,
    pub parent_name: Option<String>,
}

/// The mathematical value of a [`CachedSymbol`].
#[verifier::ext_equal]
pub struct Row {
    pub name: Seq<char>,
    pub kind: Seq<char>,
    pub path: Seq<char>,
    pub range_start_line: u32,
    pub range_start_col: u32,
    pub range_end_line: u32,
    pub range_end_col: u32,
    pub parent_name: Option<Seq<char>>,
}

impl View for CachedSymbol {
    type V = Row;

    open spec fn view(&self) -> Row {
        Row {
            name: self.name@,
            kind: self.kind@,
            path: self.path@,
            range_start_line: self.range_start_line,
            range_start_col: self.range_start_col,
            range_end_line: self.range_end_line,
            range_end_col: self.range_end_col,
            parent_name: opt_view(self.parent_name),
        }
    }
}

/// The patterns by which a symbol is found besides its plain name: a method with its receiver
/// before it, its name bare or in quotes.
pub fn name_patterns(name: &str) -> (r: (String, String))
    ensures
        r.0@ == "%)."@ + name@,
        r.1@ == "%).\""@ + name@ + "\""@,
{
    let mut bare = "%).".to_string();
    bare.append(name);
    let mut quoted = "%).\"".to_string();
    quoted.append(name);
    quoted.append("\"");
    (bare, quoted)
}

/// A stored name answers to `name`: it is that name, or a method with that name and a receiver before
/// it, the name bare or in quotes.
pub open spec fn answers_to(stored: Seq<char>, name: Seq<char>) -> bool {
    stored == name || ends_with(stored, ")."@ + name) || ends_with(stored, ").\""@ + name + "\""@)
}

/// Whether a stored name answers to `name`. The patterns of [`name_patterns`] are looser: to them the
/// case of letters does not matter, and some characters stand for others.
pub fn is_named(stored: &str, name: &str) -> (r: bool)
    ensures
        r == answers_to(stored@, name@),
{
    let mut bare = ").".to_string();
    bare.append(name);
    let mut quoted = ").\"".to_string();
    quoted.append(name);
    quoted.append("\"");
    str_eq(stored, name) || str_ends_with(stored, bare.as_str()) || str_ends_with(stored, quoted.as_str())
}

/// The parameters of a query: `?1`, `?2` and so on.
pub open spec fn placeholders(count: int) -> Seq<Seq<char>> {
    Seq::new(count as nat, |i: int| "?"@ + decimal((i + 1) as nat))
}

/// The query for the hashes of `count` files.
pub fn hashes_query(count: usize) -> (r: String)
    ensures
        r@ == "SELECT path, blake3_hash FROM files WHERE path IN ("@ + join(placeholders(count as int), ","@) + ")"@,
{
    let mut marks: Vec<String> = Vec::new();
    let mut i: usize = 0;
    while i < count
        invariant
            0 <= i <= count,
            views(marks@) =~= placeholders(i as int),
        decreases count - i,
    {
        let mut m = "?".to_string();
        m.append(decimal_of((i + 1) as u64).as_str());
        let ghost before = views(marks@);
        assert(m@ =~= "?"@ + decimal((i + 1) as nat));
        marks.push(m);
        assert(views(marks@) =~= before.push("?"@ + decimal((i + 1) as nat)));
        i = i + 1;
    }
    let mut q = "SELECT path, blake3_hash FROM files WHERE path IN (".to_string();
    q.append(join_strings(&marks, ",").as_str());
    q.append(")");
    q
}

} // verus!
