//! Listing the symbols of a file or a directory.

use crate::commands::find::{kind_name, one_based, symbol_kind_name};
use crate::json::{key_index, Json, JsonValue};
use crate::lsp::symbols::{entry_is_smaller, read_reported_line, reported_line};
use crate::text::{fill, push_fill, str_eq};
use vstd::prelude::*;

verus! {

/// A symbol in the document outline.
pub struct SymbolEntry {
    pub name: String,
    pub kind: String,
    pub line: u32,
    pub end_line: u32,
    pub children: Vec<SymbolEntry>,
}

/// The mathematical value of a [`SymbolEntry`].
#[verifier::ext_equal]
pub struct Entry {
    pub name: Seq<char>,
    pub kind: Seq<char>,
    pub line: u32,
    pub end_line: u32,
    pub children: Seq<Entry>,
}

impl View for SymbolEntry {
    type V = Entry;

    open spec fn view(&self) -> Entry {
        self.entry()
    }
}

/// The mathematical values of a list of entries.
pub open spec fn entries(v: Seq<SymbolEntry>) -> Seq<Entry> {
    Seq::new(v.len(), |i: int| v[i]@)
}

impl SymbolEntry {
    /// The mathematical value.
    pub open spec fn entry(self) -> Entry
        decreases self,
    {
        Entry {
            name: self.name@,
            kind: self.kind@,
            line: self.line,
            end_line: self.end_line,
            children: Seq::new(
                self.children@.len(),
                |i: int|
                    if 0 <= i < self.children@.len() {
                        self.children@[i].entry()
                    } else {
                        arbitrary()
                    },
            ),
        }
    }

    /// The children of an entry's value are the values of its children.
    pub proof fn children_view(self)
        ensures
            self@.children == entries(self.children@),
    {
        assert(self@.children =~= entries(self.children@));
    }
}

// ── Reading a response ──────────────────────────────────────────────────────

/// The outline that a document symbol response gives, down to depth `max_depth`; none where it is
/// no list.
pub open spec fn outline(value: Json, max_depth: u8, depth: u8) -> Seq<Entry>
    decreases value,
{
    match value {
        Json::Arr(items) => Seq::new(
            items.len(),
            |i: int|
                if 0 <= i < items.len() {
                    outline_entry(items[i], max_depth, depth)
                } else {
                    arbitrary()
                },
        ),
        _ => Seq::empty(),
    }
}

/// One entry of the outline.
pub open spec fn outline_entry(item: Json, max_depth: u8, depth: u8) -> Entry
    decreases item,
{
    Entry {
        name: item.str_or("name"@, Seq::empty()),
        kind: kind_name(item.u64_or("kind"@, 0)),
        line: one_based(reported_line(item, "start"@)),
        end_line: one_based(reported_line(item, "end"@)),
        children: if depth < max_depth {
            match item {
                Json::Obj(fields) => {
                    let i = key_index(fields, "children"@);
                    if 0 <= i < fields.len() {
                        outline(fields[i].1, max_depth, (depth + 1) as u8)
                    } else {
                        Seq::empty()
                    }
                },
                _ => Seq::empty(),
            }
        } else {
            Seq::empty()
        },
    }
}

/// Parses a document symbol response into an outline.
pub fn parse_document_symbols(value: &JsonValue, max_depth: u8, current_depth: u8) -> (r: Vec<SymbolEntry>)
    ensures
        entries(r@) == outline(value@, max_depth, current_depth),
    decreases value,
{
    let mut out: Vec<SymbolEntry> = Vec::new();
    match value {
        JsonValue::Array(items) => {
            proof {
                JsonValue::array_view(*items);
            }
            let mut i: usize = 0;
            while i < items.len()
                invariant
                    0 <= i <= items@.len(),
                    *value == JsonValue::Array(*items),
                    out@.len() == i,
                    forall|k: int|
                        0 <= k < i ==> (#[trigger] out@[k])@ == outline_entry(items@[k]@, max_depth, current_depth),
                decreases items@.len() - i,
            {
                assert(decreases_to!(*value => value->Array_0));
                assert(decreases_to!(items => items@[i as int]));
                out.push(parse_outline_entry(&items[i], max_depth, current_depth));
                i = i + 1;
            }
            assert(entries(out@) =~= outline(value@, max_depth, current_depth));
        },
        _ => {
            assert(entries(out@) =~= outline(value@, max_depth, current_depth));
        },
    }
    out
}

/// Parses one entry of the outline.
fn parse_outline_entry(item: &JsonValue, max_depth: u8, current_depth: u8) -> (r: SymbolEntry)
    ensures
        r@ == outline_entry(item@, max_depth, current_depth),
    decreases item,
{
    let name = item.str_or("name", "");
    let kind = symbol_kind_name(item.u64_or("kind", 0)).to_string();
    let start: u64 = read_reported_line(item, "start");
    let end: u64 = read_reported_line(item, "end");
    let mut children: Vec<SymbolEntry> = Vec::new();
    assert(entries(children@) =~= Seq::empty());
    if current_depth < max_depth {
        match item {
            JsonValue::Object(fields) => {
                proof {
                    JsonValue::object_view(*fields);
                }
                let ghost all = crate::json::entries_view(fields@);
                let mut i: usize = 0;
                assert(all.skip(0) =~= all);
                while i < fields.len() && !str_eq(fields[i].0.as_str(), "children")
                    invariant
                        0 <= i <= fields@.len(),
                        all == crate::json::entries_view(fields@),
                        key_index(all, "children"@) == i + key_index(all.skip(i as int), "children"@),
                    decreases fields@.len() - i,
                {
                    assert(all.skip(i as int)[0] == all[i as int]);
                    assert(all.skip(i as int).drop_first() =~= all.skip(i + 1));
                    i = i + 1;
                }
                if i < fields.len() {
                    proof {
                        assert(all.skip(i as int)[0] == all[i as int]);
                        entry_is_smaller(*item, i as int);
                    }
                    children = parse_document_symbols(&fields[i].1, max_depth, current_depth + 1);
                }
            },
            _ => {},
        }
    }
    proof {
        reveal_strlit("");
        assert(""@ =~= Seq::empty());
    }
    let r = SymbolEntry {
        name,
        kind,
        line: (start as u32).wrapping_add(1),
        end_line: (end as u32).wrapping_add(1),
        children,
    };
    proof {
        r.children_view();
    }
    r
}

// ── Output ──────────────────────────────────────────────────────────────────

/// The outline as text: a line of kind and name for each symbol, its children below it, two
/// spaces further in.
pub open spec fn outline_text(s: Seq<Entry>, indent: int) -> Seq<char>
    decreases s,
{
    if s.len() == 0 {
        Seq::empty()
    } else {
        let e = s.last();
        outline_text(s.drop_last(), indent) + fill(' ', 2 * indent) + e.kind + " "@ + e.name + "\n"@ + outline_text(
            e.children,
            indent + 1,
        )
    }
}

/// Levels of a tree.
pub open spec fn height(s: Seq<Entry>) -> nat
    decreases s,
{
    if s.len() == 0 {
        0
    } else {
        let above = height(s.drop_last());
        let below = height(s.last().children) + 1;
        if above > below {
            above
        } else {
            below
        }
    }
}

/// Formats symbols as compact output with indentation.
pub fn format_compact(symbols: &[SymbolEntry], indent: usize) -> (r: String)
    requires
        2 * (indent + height(entries(symbols@))) <= usize::MAX,
    ensures
        r@ == outline_text(entries(symbols@), indent as int),
    decreases height(entries(symbols@)), symbols@.len(),
{
    let mut out = String::new();
    let mut i: usize = 0;
    let ghost all = entries(symbols@);
    assert(all.take(0) =~= Seq::empty());
    while i < symbols.len()
        invariant
            0 <= i <= symbols@.len(),
            all == entries(symbols@),
            2 * (indent + height(all)) <= usize::MAX,
            out@ == outline_text(all.take(i as int), indent as int),
        decreases symbols@.len() - i,
    {
        let sym = &symbols[i];
        proof {
            sym.children_view();
            assert(all.take(i + 1).drop_last() =~= all.take(i as int));
            assert(all.take(i + 1).last() == sym@);
            height_of_item(all, i as int);
        }
        push_fill(&mut out, ' ', 2 * indent);
        out.append(sym.kind.as_str());
        out.append(" ");
        out.append(sym.name.as_str());
        out.append("\n");
        let below = format_compact(sym.children.as_slice(), indent + 1);
        out.append(below.as_str());
        i = i + 1;
    }
    assert(all.take(i as int) =~= all);
    out
}

/// What hangs below an item is less high than the whole.
pub proof fn height_of_item(s: Seq<Entry>, i: int)
    requires
        0 <= i < s.len(),
    ensures
        height(s[i].children) < height(s),
    decreases s.len(),
{
    if i < s.len() - 1 {
        assert(s.drop_last()[i] == s[i]);
        height_of_item(s.drop_last(), i);
    }
}

/// An outline has an entry for each symbol of the response, in order: its name, its kind, and its first
/// and last line, counted from 1. The symbols inside it are outlined below it as far as the depth allows,
/// and no further.
pub proof fn all_symbols_are_outlined(items: Seq<Json>, max_depth: u8, depth: u8, i: int, first: int, last: int)
    requires
        0 <= i < items.len(),
        items[i].get3("range"@, "start"@, "line"@) == Some(Json::Int(first)),
        items[i].get3("range"@, "end"@, "line"@) == Some(Json::Int(last)),
        0 <= first < u32::MAX,
        0 <= last < u32::MAX,
    ensures
        outline(Json::Arr(items), max_depth, depth).len() == items.len(),
        ({
            let e = outline(Json::Arr(items), max_depth, depth)[i];
            &&& items[i].get("name"@) matches Some(Json::Str(s)) ==> e.name == s
            &&& items[i].get("kind"@) matches Some(Json::Int(k)) ==> (0 <= k <= u64::MAX ==> e.kind == kind_name(
                k as u64,
            ))
            &&& e.line == first + 1
            &&& e.end_line == last + 1
            &&& depth >= max_depth ==> e.children.len() == 0
            &&& depth < max_depth ==> match items[i].get("children"@) {
                Some(c) => e.children == outline(c, max_depth, (depth + 1) as u8),
                None => e.children.len() == 0,
            }
        }),
{
}

/// The text of an outline has a line for each symbol, its kind and its name, two spaces in for each level,
/// and right below it those of the symbols inside it.
pub proof fn outline_shows_each_symbol(a: Seq<Entry>, e: Entry, indent: int)
    requires
        0 <= indent,
    ensures
        outline_text(a.push(e), indent) == outline_text(a, indent) + Seq::new((2 * indent) as nat, |i: int| ' ')
            + e.kind + seq![' '] + e.name + seq!['\n'] + outline_text(e.children, indent + 1),
        outline_text(Seq::empty(), indent) == Seq::<char>::empty(),
{
    reveal_strlit(" ");
    reveal_strlit("\n");
    assert(" "@ =~= seq![' ']);
    assert("\n"@ =~= seq!['\n']);
    assert(a.push(e).drop_last() =~= a);
    assert(a.push(e).last() == e);
    assert(fill(' ', 2 * indent) =~= Seq::new((2 * indent) as nat, |i: int| ' '));
}

} // verus!
