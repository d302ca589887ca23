//! Where symbols stand in a file, as a language server's document symbols tell.

use crate::commands::find::{kind_name, symbol_kind_name};
use crate::json::{Json, JsonValue};
use crate::lang::go::{is_method_of, receiver_method_matches};
use crate::paths::{extension, path_extension};
use crate::text::{
    char_index, chars_of, index_of_char, split_char, split_on, starts_with, str_eq, str_starts_with, string_of, views,
};
use vstd::prelude::*;

verus! {

/// A resolved symbol location with exact line ranges.
pub struct SymbolLocation {
    pub name: String,
    pub kind: String,
    /// First line, counted from 0.
    pub start_line: u32,
    /// Last line, counted from 0.
    pub end_line: u32,
    pub children: Vec<SymbolLocation>,
}

/// The mathematical value of a [`SymbolLocation`].
#[verifier::ext_equal]
pub struct Symbol {
    pub name: Seq<char>,
    pub kind: Seq<char>,
    pub start_line: u32,
    pub end_line: u32,
    pub children: Seq<Symbol>,
}

impl View for SymbolLocation {
    type V = Symbol;

    open spec fn view(&self) -> Symbol {
        self.symbol()
    }
}

/// The mathematical values of a list of symbols.
pub open spec fn symbols(v: Seq<SymbolLocation>) -> Seq<Symbol> {
    Seq::new(v.len(), |i: int| v[i]@)
}

impl SymbolLocation {
    /// The mathematical value.
    pub open spec fn symbol(self) -> Symbol
        decreases self,
    {
        Symbol {
            name: self.name@,
            kind: self.kind@,
            start_line: self.start_line,
            end_line: self.end_line,
            children: Seq::new(
                self.children@.len(),
                |i: int|
                    if 0 <= i < self.children@.len() {
                        self.children@[i].symbol()
                    } else {
                        arbitrary()
                    },
            ),
        }
    }

    /// The children of a symbol's value are the values of its children.
    pub proof fn children_view(self)
        ensures
            self@.children == symbols(self.children@),
    {
        assert(self@.children =~= symbols(self.children@));
    }
}

// ── Reading a response ──────────────────────────────────────────────────────

/// The line that a symbol of the protocol reports under `which`: that of its range, or else that
/// of its location.
pub open spec fn reported_line(item: Json, which: Seq<char>) -> u64 {
    let at = match item.get3("range"@, which, "line"@) {
        Some(v) => Some(v),
        None => match item.get("location"@) {
            Some(l) => l.get3("range"@, which, "line"@),
            None => None,
        },
    };
    match at {
        Some(v) => match v.as_u64() {
            Some(n) => n,
            None => 0,
        },
        None => 0,
    }
}

/// The symbols of a document symbol response; none where it is no list.
pub open spec fn parsed_symbols(value: Json) -> Seq<Symbol>
    decreases value,
{
    match value {
        Json::Arr(items) => Seq::new(
            items.len(),
            |i: int|
                if 0 <= i < items.len() {
                    parsed_symbol(items[i])
                } else {
                    arbitrary()
                },
        ),
        _ => Seq::empty(),
    }
}

/// One symbol of a document symbol response.
pub open spec fn parsed_symbol(item: Json) -> Symbol
    decreases item,
{
    Symbol {
        name: item.str_or("name"@, Seq::empty()),
        kind: kind_name(item.u64_or("kind"@, 0)),
        start_line: reported_line(item, "start"@) as u32,
        end_line: reported_line(item, "end"@) as u32,
        children: match item {
            Json::Obj(entries) => {
                let i = crate::json::key_index(entries, "children"@);
                if 0 <= i < entries.len() {
                    parsed_symbols(entries[i].1)
                } else {
                    Seq::empty()
                }
            },
            _ => Seq::empty(),
        },
    }
}

/// The line that a symbol of the protocol reports under `which`.
pub(crate) fn read_reported_line(item: &JsonValue, which: &str) -> (r: u64)
    ensures
        r == reported_line(item@, which@),
{
    let at = match item.get3("range", which, "line") {
        Some(v) => Some(v),
        None => match item.get("location") {
            Some(l) => l.get3("range", which, "line"),
            None => None,
        },
    };
    match at {
        Some(v) => match v.as_u64() {
            Some(n) => n,
            None => 0,
        },
        None => 0,
    }
}

/// The value of an entry is smaller than the object it stands in.
pub proof fn entry_is_smaller(v: JsonValue, i: int)
    requires
        v is Object,
        0 <= i < v->Object_0@.len(),
    ensures
        decreases_to!(v => v->Object_0@[i].1),
{
    let o = v->Object_0;
    assert(decreases_to!(v => o));
    assert(decreases_to!(o => o@[i]));
    assert(decreases_to!(o@[i] => o@[i].1));
}

/// Parses a document symbol response into a hierarchical tree.
pub fn parse_symbol_locations(value: &JsonValue) -> (r: Vec<SymbolLocation>)
    ensures
        symbols(r@) == parsed_symbols(value@),
    decreases value,
{
    let mut out: Vec<SymbolLocation> = Vec::new();
    match value {
        JsonValue::Array(items) => {
            proof {
                JsonValue::array_view(*items);
            }
            let mut i: usize = 0;
            while i < items.len()
                invariant
                    0 <= i <= items@.len(),
                    *value == JsonValue::Array(*items),
                    out@.len() == i,
                    forall|k: int| 0 <= k < i ==> (#[trigger] out@[k])@ == parsed_symbol(items@[k]@),
                decreases items@.len() - i,
            {
                assert(decreases_to!(*value => value->Array_0));
                assert(decreases_to!(items => items@[i as int]));
                out.push(parse_single_symbol(&items[i]));
                i = i + 1;
            }
            assert(symbols(out@) =~= parsed_symbols(value@));
        },
        _ => {
            assert(symbols(out@) =~= parsed_symbols(value@));
        },
    }
    out
}

/// Parses one symbol of a document symbol response.
fn parse_single_symbol(item: &JsonValue) -> (r: SymbolLocation)
    ensures
        r@ == parsed_symbol(item@),
    decreases item,
{
    let name = item.str_or("name", "");
    let kind = symbol_kind_name(item.u64_or("kind", 0)).to_string();
    let start: u64 = read_reported_line(item, "start");
    let end: u64 = read_reported_line(item, "end");
    let mut children: Vec<SymbolLocation> = Vec::new();
    assert(symbols(children@) =~= Seq::empty());
    match item {
        JsonValue::Object(entries) => {
            proof {
                JsonValue::object_view(*entries);
            }
            let ghost all = crate::json::entries_view(entries@);
            let mut i: usize = 0;
            assert(all.skip(0) =~= all);
            while i < entries.len() && !str_eq(entries[i].0.as_str(), "children")
                invariant
                    0 <= i <= entries@.len(),
                    all == crate::json::entries_view(entries@),
                    crate::json::key_index(all, "children"@) == i + crate::json::key_index(
                        all.skip(i as int),
                        "children"@,
                    ),
                decreases entries@.len() - i,
            {
                assert(all.skip(i as int)[0] == all[i as int]);
                assert(all.skip(i as int).drop_first() =~= all.skip(i + 1));
                i = i + 1;
            }
            if i < entries.len() {
                proof {
                    assert(all.skip(i as int)[0] == all[i as int]);
                    entry_is_smaller(*item, i as int);
                }
                children = parse_symbol_locations(&entries[i].1);
            }
        },
        _ => {},
    }
    proof {
        reveal_strlit("");
        assert(""@ =~= Seq::empty());
    }
    let r = SymbolLocation { name, kind, start_line: start as u32, end_line: end as u32, children };
    proof {
        r.children_view();
    }
    r
}

// ── Finding a symbol ────────────────────────────────────────────────────────

/// A symbol answers to its name, with or without type parameters or arguments behind it.
pub open spec fn answers_to(name: Seq<char>, query: Seq<char>) -> bool {
    ||| name == query
    ||| starts_with(name, query) && name.len() > query.len() && (name[query.len() as int] == '<'
        || name[query.len() as int] == '(' || name[query.len() as int] == ' ')
}

/// The symbols of a tree, each before its children.
pub open spec fn preorder(nodes: Seq<Symbol>) -> Seq<Symbol>
    decreases nodes,
{
    if nodes.len() == 0 {
        Seq::empty()
    } else {
        preorder(nodes.drop_last()) + seq![nodes.last()] + preorder(nodes.last().children)
    }
}

/// The symbols that answer to `query`, in order.
pub open spec fn named(s: Seq<Symbol>, query: Seq<char>) -> Seq<Symbol>
    decreases s.len(),
{
    if s.len() == 0 {
        Seq::empty()
    } else if answers_to(s.last().name, query) {
        named(s.drop_last(), query).push(s.last())
    } else {
        named(s.drop_last(), query)
    }
}

/// The first of the symbols, where there is one.
pub open spec fn first(s: Seq<Symbol>) -> Option<Symbol> {
    if s.len() > 0 {
        Some(s[0])
    } else {
        None
    }
}

/// The first symbol of a tree that answers to `query`.
pub open spec fn first_named(nodes: Seq<Symbol>, query: Seq<char>) -> Option<Symbol> {
    first(named(preorder(nodes), query))
}

/// Distance of a symbol's first line from `hint`.
pub open spec fn distance(s: Symbol, hint: u32) -> int {
    if s.start_line >= hint {
        s.start_line - hint
    } else {
        hint - s.start_line
    }
}

/// The symbol that starts closest to `hint`; of several, the first.
pub open spec fn closest(s: Seq<Symbol>, hint: u32) -> Symbol
    decreases s.len(),
{
    if s.len() <= 1 {
        s[0]
    } else {
        let c = closest(s.drop_last(), hint);
        if distance(s.last(), hint) < distance(c, hint) {
            s.last()
        } else {
            c
        }
    }
}

/// The symbol that the parts of a dotted name from `i` on lead to, starting among `level`.
///
/// Each part but the last is looked for on the level reached so far and else in the whole tree.
/// So is the last where there is no hint. Where there is one, the last part means the closest
/// of the symbols below that level that answer to it, or else of those in the whole tree.
pub open spec fn walked(
    tree: Seq<Symbol>,
    level: Seq<Symbol>,
    parts: Seq<Seq<char>>,
    hint: Option<u32>,
    i: int,
) -> Option<Symbol>
    decreases parts.len() - i,
{
    if i >= parts.len() {
        None
    } else if i == parts.len() - 1 && hint is Some {
        let below = named(preorder(level), parts[i]);
        let all = if below.len() > 0 {
            below
        } else {
            named(preorder(tree), parts[i])
        };
        if all.len() > 0 {
            Some(closest(all, hint->0))
        } else {
            None
        }
    } else {
        let found = match first(named(level, parts[i])) {
            Some(s) => Some(s),
            None => first_named(tree, parts[i]),
        };
        match found {
            Some(s) => if i == parts.len() - 1 {
                Some(s)
            } else {
                walked(tree, s.children, parts, hint, i + 1)
            },
            None => None,
        }
    }
}

/// The first of the symbols that is the method `method` of the Go type `receiver`.
pub open spec fn go_method(s: Seq<Symbol>, receiver: Seq<char>, method: Seq<char>) -> Option<Symbol>
    decreases s.len(),
{
    if s.len() == 0 {
        None
    } else if is_method_of(s[0].name, receiver, method) {
        Some(s[0])
    } else {
        go_method(s.drop_first(), receiver, method)
    }
}

/// The symbol that a dotted name means in a file.
pub open spec fn resolved(tree: Seq<Symbol>, name: Seq<char>, path: Seq<char>, hint: Option<u32>) -> Option<Symbol> {
    let parts = split_on(name, '.');
    let method = if parts.len() == 2 && extension(path) == Some("go"@) {
        go_method(tree, parts[0], parts[1])
    } else {
        None
    };
    match method {
        Some(s) => Some(s),
        None => walked(tree, tree, parts, hint, 0),
    }
}

/// Checks if a symbol's name matches the query: exactly, or followed by `<`, `(` or a space.
pub fn name_matches(symbol_name: &str, query: &str) -> (r: bool)
    ensures
        r == answers_to(symbol_name@, query@),
{
    if str_eq(symbol_name, query) {
        return true;
    }
    if str_starts_with(symbol_name, query) {
        let v = chars_of(symbol_name);
        let n: usize = crate::text::char_count(query);
        if n < v.len() {
            return v[n] == '<' || v[n] == '(' || v[n] == ' ';
        }
    }
    false
}

proof fn named_concat(a: Seq<Symbol>, b: Seq<Symbol>, query: Seq<char>)
    ensures
        named(a + b, query) == named(a, query) + named(b, query),
    decreases b.len(),
{
    if b.len() == 0 {
        assert(a + b =~= a);
        assert(named(b, query) =~= Seq::empty());
        assert(named(a, query) + named(b, query) =~= named(a, query));
    } else {
        assert((a + b).drop_last() =~= a + b.drop_last());
        named_concat(a, b.drop_last(), query);
        assert(named(a + b, query) =~= named(a, query) + named(b, query));
    }
}

proof fn named_single(x: Symbol, query: Seq<char>)
    ensures
        named(seq![x], query) == if answers_to(x.name, query) {
            seq![x]
        } else {
            Seq::empty()
        },
{
    assert(seq![x].drop_last() =~= Seq::empty());
    assert(named(Seq::empty(), query) =~= Seq::empty());
    assert(named(seq![x], query) =~= if answers_to(x.name, query) {
        seq![x]
    } else {
        Seq::empty()
    });
}

/// The values of borrowed symbols.
pub open spec fn borrowed(v: Seq<&SymbolLocation>) -> Seq<Symbol> {
    Seq::new(v.len(), |i: int| v[i]@)
}

/// Collects all symbols with the given name, each before those below it.
pub fn collect_recursive<'a>(nodes: &'a Vec<SymbolLocation>, name: &str, out: &mut Vec<&'a SymbolLocation>)
    ensures
        borrowed(final(out)@) == borrowed(old(out)@) + named(preorder(symbols(nodes@)), name@),
    decreases nodes,
{
    let ghost all = symbols(nodes@);
    let ghost start = borrowed(out@);
    let mut i: usize = 0;
    proof {
        assert(all.take(0) =~= Seq::empty());
        assert(preorder(all.take(0)) =~= Seq::empty());
        assert(named(preorder(all.take(0)), name@) =~= Seq::empty());
        assert(borrowed(out@) =~= start + named(preorder(all.take(0)), name@));
    }
    while i < nodes.len()
        invariant
            0 <= i <= nodes@.len(),
            all == symbols(nodes@),
            borrowed(out@) == start + named(preorder(all.take(i as int)), name@),
        decreases nodes@.len() - i,
    {
        let node = &nodes[i];
        let ghost before = borrowed(out@);
        if name_matches(node.name.as_str(), name) {
            out.push(node);
            assert(borrowed(out@) =~= before.push(node@));
        }
        let ghost mid = borrowed(out@);
        assert(decreases_to!(nodes => nodes@[i as int]));
        assert(decreases_to!(nodes@[i as int] => nodes@[i as int].children));
        collect_recursive(&node.children, name, out);
        proof {
            node.children_view();
            let next = all.take(i + 1);
            assert(next.drop_last() =~= all.take(i as int));
            assert(next.last() == node@);
            let head = preorder(all.take(i as int));
            let below = preorder(node@.children);
            named_concat(head + seq![node@], below, name@);
            named_concat(head, seq![node@], name@);
            named_single(node@, name@);
            assert(borrowed(out@) =~= start + named(preorder(next), name@));
        }
        i = i + 1;
    }
    assert(all.take(i as int) =~= all);
}

/// Depth-first search for a symbol by name through the full document symbol tree.
pub fn find_recursive<'a>(nodes: &'a Vec<SymbolLocation>, name: &str) -> (r: Option<&'a SymbolLocation>)
    ensures
        match r {
            Some(s) => first_named(symbols(nodes@), name@) == Some(s@),
            None => first_named(symbols(nodes@), name@) is None,
        },
    decreases nodes,
{
    let ghost all = symbols(nodes@);
    let mut i: usize = 0;
    proof {
        assert(all.take(0) =~= Seq::empty());
        assert(preorder(all.take(0)) =~= Seq::empty());
        assert(named(preorder(all.take(0)), name@) =~= Seq::empty());
    }
    while i < nodes.len()
        invariant
            0 <= i <= nodes@.len(),
            all == symbols(nodes@),
            named(preorder(all.take(i as int)), name@).len() == 0,
        decreases nodes@.len() - i,
    {
        let node = &nodes[i];
        proof {
            node.children_view();
            let next = all.take(i + 1);
            assert(next.drop_last() =~= all.take(i as int));
            assert(next.last() == node@);
            let head = preorder(all.take(i as int));
            let below = preorder(node@.children);
            named_concat(head + seq![node@], below, name@);
            named_concat(head, seq![node@], name@);
            named_single(node@, name@);
            preorder_prefix(all, i + 1, name@);
        }
        let ghost here = named(preorder(all.take(i + 1)), name@);
        let ghost whole = named(preorder(all), name@);
        assert(here.len() > 0 ==> here[0] == whole.subrange(0, here.len() as int)[0]);
        if name_matches(node.name.as_str(), name) {
            assert(here[0] == node@);
            return Some(node);
        }
        assert(decreases_to!(nodes => nodes@[i as int]));
        assert(decreases_to!(nodes@[i as int] => nodes@[i as int].children));
        if let Some(found) = find_recursive(&node.children, name) {
            return Some(found);
        }
        i = i + 1;
    }
    assert(all.take(i as int) =~= all);
    None
}

/// What answers among the first `n` nodes and below comes first in the whole tree.
proof fn preorder_prefix(nodes: Seq<Symbol>, n: int, query: Seq<char>)
    requires
        0 <= n <= nodes.len(),
    ensures
        named(preorder(nodes.take(n)), query).is_prefix_of(named(preorder(nodes), query)),
    decreases nodes.len() - n,
{
    if n == nodes.len() {
        assert(nodes.take(n) =~= nodes);
        let r = named(preorder(nodes), query);
        assert(r.subrange(0, r.len() as int) =~= r);
    } else {
        preorder_prefix(nodes, n + 1, query);
        let next = nodes.take(n + 1);
        assert(next.drop_last() =~= nodes.take(n));
        let head = preorder(nodes.take(n));
        named_concat(head + seq![next.last()], preorder(next.last().children), query);
        named_concat(head, seq![next.last()], query);
        let a = named(head, query);
        let b = named(preorder(next), query);
        let c = named(preorder(nodes), query);
        assert(a =~= b.subrange(0, a.len() as int));
        assert(a =~= c.subrange(0, a.len() as int));
    }
}

/// The symbol of the list that starts closest to `hint`; of several, the first.
fn find_closest<'a>(list: &Vec<&'a SymbolLocation>, hint: u32) -> (r: &'a SymbolLocation)
    requires
        list@.len() > 0,
    ensures
        r@ == closest(borrowed(list@), hint),
{
    let ghost all = borrowed(list@);
    let mut best: &'a SymbolLocation = list[0];
    let mut i: usize = 1;
    while i < list.len()
        invariant
            1 <= i <= list@.len(),
            all == borrowed(list@),
            best@ == closest(all.take(i as int), hint),
        decreases list@.len() - i,
    {
        assert(all.take(i + 1).drop_last() =~= all.take(i as int));
        let s: &'a SymbolLocation = list[i];
        let d: u32 = if s.start_line >= hint {
            s.start_line - hint
        } else {
            hint - s.start_line
        };
        let e: u32 = if best.start_line >= hint {
            best.start_line - hint
        } else {
            hint - best.start_line
        };
        if d < e {
            best = s;
        }
        i = i + 1;
    }
    assert(all.take(i as int) =~= all);
    best
}

/// The first symbol on one level that answers to `name`.
fn find_on_level<'a>(level: &'a Vec<SymbolLocation>, name: &str) -> (r: Option<&'a SymbolLocation>)
    ensures
        match r {
            Some(s) => first(named(symbols(level@), name@)) == Some(s@),
            None => first(named(symbols(level@), name@)) is None,
        },
{
    let ghost all = symbols(level@);
    let mut i: usize = 0;
    assert(named(all.take(0), name@) =~= Seq::empty());
    while i < level.len()
        invariant
            0 <= i <= level@.len(),
            all == symbols(level@),
            named(all.take(i as int), name@).len() == 0,
        decreases level@.len() - i,
    {
        assert(all.take(i + 1).drop_last() =~= all.take(i as int));
        if name_matches(level[i].name.as_str(), name) {
            proof {
                let here = all.take(i + 1);
                assert(named(here, name@) =~= seq![level@[i as int]@]);
                assert(all =~= here + all.skip(i + 1));
                named_concat(here, all.skip(i + 1), name@);
            }
            return Some(&level[i]);
        }
        i = i + 1;
    }
    assert(all.take(i as int) =~= all);
    None
}

/// Finds the symbol that a name means among the document symbols of a file.
///
/// A dotted name like `Config.new` is followed part by part. `hint_line`, counted from 0, tells
/// overloads apart: of several symbols with the name, the one that starts closest to it is meant.
/// The symbol is given without its children. `None` where there is no such symbol.
pub fn find_in_tree(tree: &Vec<SymbolLocation>, name: &str, file_path: &str, hint_line: Option<u32>) -> (r: Option<
    SymbolLocation,
>)
    ensures
        match r {
            Some(s) => match resolved(symbols(tree@), name@, file_path@, hint_line) {
                Some(t) => s@ == (Symbol { children: Seq::empty(), ..t }),
                None => false,
            },
            None => resolved(symbols(tree@), name@, file_path@, hint_line) is None,
        },
{
    let parts = split_char(name, '.');
    let ghost ps = views(parts@);
    assert(ps.len() == parts@.len());
    let ghost t = symbols(tree@);
    let is_go = match path_extension(file_path) {
        Some(e) => str_eq(e.as_str(), "go"),
        None => false,
    };
    if parts.len() == 2 && is_go {
        let mut k: usize = 0;
        assert(t.skip(0) =~= t);
        while k < tree.len()
            invariant
                0 <= k <= tree@.len(),
                t == symbols(tree@),
                parts@.len() == 2,
                ps == views(parts@),
                ps == split_on(name@, '.'),
                extension(file_path@) == Some("go"@),
                go_method(t, ps[0], ps[1]) == go_method(t.skip(k as int), ps[0], ps[1]),
            decreases tree@.len() - k,
        {
            assert(t.skip(k as int)[0] == tree@[k as int]@);
            assert(t.skip(k as int).drop_first() =~= t.skip(k + 1));
            if receiver_method_matches(tree[k].name.as_str(), parts[0].as_str(), parts[1].as_str()) {
                return Some(without_children(&tree[k]));
            }
            k = k + 1;
        }
    }
    let mut level: &Vec<SymbolLocation> = tree;
    let mut i: usize = 0;
    while i < parts.len()
        invariant
            0 <= i <= parts@.len(),
            ps == views(parts@),
            t == symbols(tree@),
            resolved(t, name@, file_path@, hint_line) == walked(t, symbols(level@), ps, hint_line, i as int),
        decreases parts@.len() - i,
    {
        let part = parts[i].as_str();
        assert(part@ == ps[i as int]);
        if i + 1 == parts.len() {
            if let Some(hint) = hint_line {
                let mut all: Vec<&SymbolLocation> = Vec::new();
                collect_recursive(level, part, &mut all);
                assert(borrowed(all@) =~= named(preorder(symbols(level@)), part@));
                if all.len() == 0 {
                    let ghost none = borrowed(all@);
                    collect_recursive(tree, part, &mut all);
                    assert(borrowed(all@) =~= named(preorder(t), part@));
                }
                assert(borrowed(all@).len() == all@.len());
                if all.len() == 0 {
                    return None;
                }
                return Some(without_children(find_closest(&all, hint)));
            }
        }
        let found = match find_on_level(level, part) {
            Some(s) => Some(s),
            None => find_recursive(tree, part),
        };
        match found {
            Some(s) => {
                if i + 1 == parts.len() {
                    return Some(without_children(s));
                }
                proof {
                    s.children_view();
                }
                level = &s.children;
            },
            None => {
                return None;
            },
        }
        i = i + 1;
    }
    None
}

/// A symbol without its children.
fn without_children(s: &SymbolLocation) -> (r: SymbolLocation)
    ensures
        r@ == (Symbol { children: Seq::empty(), ..s@ }),
{
    let r = SymbolLocation {
        name: s.name.clone(),
        kind: s.kind.clone(),
        start_line: s.start_line,
        end_line: s.end_line,
        children: Vec::new(),
    };
    proof {
        r.children_view();
        assert(symbols(r.children@) =~= Seq::empty());
    }
    r
}

/// Resolves a symbol's exact range from a document symbol response.
///
/// `Err` holds the message for a name that no symbol of the response answers to.
pub fn resolve_symbol_range(name: &str, file_path: &str, hint_line: Option<u32>, response: &JsonValue) -> (r: Result<
    SymbolLocation,
    String,
>)
    ensures
        match r {
            Ok(s) => match resolved(parsed_symbols(response@), name@, file_path@, hint_line) {
                Some(t) => s@ == (Symbol { children: Seq::empty(), ..t }),
                None => false,
            },
            Err(m) => resolved(parsed_symbols(response@), name@, file_path@, hint_line) is None && m@ == "symbol '"@
                + name@ + "' not found in document symbols"@,
        },
{
    let tree = parse_symbol_locations(response);
    match find_in_tree(&tree, name, file_path, hint_line) {
        Some(s) => Ok(s),
        None => {
            let mut m = "symbol '".to_string();
            m.append(name);
            m.append("' not found in document symbols");
            Err(m)
        },
    }
}

// ── Laws ────────────────────────────────────────────────────────────────────

/// The symbol that the parts of a name lead to answers to the last of them.
pub proof fn resolved_answers(tree: Seq<Symbol>, level: Seq<Symbol>, parts: Seq<Seq<char>>, hint: Option<u32>, i: int)
    requires
        0 <= i < parts.len(),
    ensures
        walked(tree, level, parts, hint, i) matches Some(s) ==> answers_to(s.name, parts.last()),
    decreases parts.len() - i,
{
    if i == parts.len() - 1 && hint is Some {
        let below = named(preorder(level), parts[i]);
        let all = if below.len() > 0 {
            below
        } else {
            named(preorder(tree), parts[i])
        };
        named_answer(preorder(level), parts[i]);
        named_answer(preorder(tree), parts[i]);
        if all.len() > 0 {
            closest_is_one(all, hint->0);
        }
    } else {
        named_answer(level, parts[i]);
        named_answer(preorder(tree), parts[i]);
        let found = match first(named(level, parts[i])) {
            Some(s) => Some(s),
            None => first_named(tree, parts[i]),
        };
        if found is Some && i < parts.len() - 1 {
            resolved_answers(tree, found->0.children, parts, hint, i + 1);
        }
    }
}

proof fn named_answer(s: Seq<Symbol>, query: Seq<char>)
    ensures
        forall|k: int| 0 <= k < named(s, query).len() ==> answers_to((#[trigger] named(s, query)[k]).name, query),
    decreases s.len(),
{
    if s.len() > 0 {
        let init = s.drop_last();
        named_answer(init, query);
        assert forall|k: int| 0 <= k < named(s, query).len() implies answers_to(
            (#[trigger] named(s, query)[k]).name,
            query,
        ) by {
            if k < named(init, query).len() {
                assert(named(s, query)[k] == named(init, query)[k]);
            }
        }
    }
}

/// The closest symbol is one of the list, and none of the list is closer.
pub proof fn closest_is_one(s: Seq<Symbol>, hint: u32)
    requires
        s.len() > 0,
    ensures
        exists|k: int| 0 <= k < s.len() && s[k] == closest(s, hint),
        forall|k: int| 0 <= k < s.len() ==> distance(closest(s, hint), hint) <= distance(#[trigger] s[k], hint),
    decreases s.len(),
{
    if s.len() == 1 {
        assert(s[0] == closest(s, hint));
    } else {
        let init = s.drop_last();
        closest_is_one(init, hint);
        let k = choose|k: int| 0 <= k < init.len() && init[k] == closest(init, hint);
        assert(s[k] == init[k]);
        assert(s[s.len() - 1] == s.last());
        assert forall|j: int| 0 <= j < s.len() implies distance(closest(s, hint), hint) <= distance(
            #[trigger] s[j],
            hint,
        ) by {
            if j < s.len() - 1 {
                assert(init[j] == s[j]);
            }
        }
    }
}

/// A symbol of the protocol is read as it says: its name, its kind, the lines of its range, and each of
/// the symbols inside it.
pub proof fn symbol_is_read_as_it_says(
    item: Json,
    name: Seq<char>,
    kind: u64,
    start_line: int,
    end_line: int,
    children: Seq<Json>,
)
    requires
        item.get("name"@) == Some(Json::Str(name)),
        item.get("kind"@) == Some(Json::Int(kind as int)),
        item.get3("range"@, "start"@, "line"@) == Some(Json::Int(start_line)),
        item.get3("range"@, "end"@, "line"@) == Some(Json::Int(end_line)),
        item.get("children"@) == Some(Json::Arr(children)),
        0 <= start_line <= u32::MAX,
        0 <= end_line <= u32::MAX,
    ensures
        parsed_symbol(item).name == name,
        parsed_symbol(item).kind == kind_name(kind),
        parsed_symbol(item).start_line == start_line,
        parsed_symbol(item).end_line == end_line,
        parsed_symbol(item).children == children.map_values(|c: Json| parsed_symbol(c)),
{
    all_symbols_are_read(children);
}

/// A response that lists symbols is read as just those symbols, in order.
pub proof fn all_symbols_are_read(items: Seq<Json>)
    ensures
        parsed_symbols(Json::Arr(items)) == items.map_values(|c: Json| parsed_symbol(c)),
{
    assert(parsed_symbols(Json::Arr(items)) =~= items.map_values(|c: Json| parsed_symbol(c)));
}

/// A symbol answers to its name alone, and to what stands before type parameters, arguments or a space.
pub proof fn name_answers_without_what_follows(name: Seq<char>, rest: Seq<char>)
    ensures
        answers_to(name + rest, name) <==> rest.len() == 0 || rest[0] == '<' || rest[0] == '(' || rest[0] == ' ',
{
    assert((name + rest).take(name.len() as int) =~= name);
    if rest.len() == 0 {
        assert(name + rest =~= name);
    } else {
        assert((name + rest)[name.len() as int] == rest[0]);
        assert((name + rest).len() > name.len());
    }
}

/// A symbol answers only to a start of its name.
pub proof fn answer_starts_the_name(name: Seq<char>, query: Seq<char>)
    ensures
        answers_to(name, query) ==> query.len() <= name.len() && query == name.take(query.len() as int),
{
    assert(name.take(name.len() as int) =~= name);
}

/// The symbols of a tree come in the order in which they stand: one, then those inside it, then those that
/// follow it.
pub proof fn symbols_come_as_they_stand(s: Symbol, rest: Seq<Symbol>)
    ensures
        preorder(seq![s] + rest) == seq![s] + preorder(s.children) + preorder(rest),
        preorder(Seq::empty()) == Seq::<Symbol>::empty(),
    decreases rest.len(),
{
    let all = seq![s] + rest;
    if rest.len() == 0 {
        assert(all =~= seq![s]);
        assert(all.drop_last() =~= Seq::empty());
        assert(preorder(rest) == Seq::<Symbol>::empty());
        assert(preorder(all.drop_last()) == Seq::<Symbol>::empty());
        assert(all.last() == s);
        assert(preorder(all) =~= seq![s] + preorder(s.children) + preorder(rest));
    } else {
        symbols_come_as_they_stand(s, rest.drop_last());
        assert(all.drop_last() =~= seq![s] + rest.drop_last());
        assert(all.last() == rest.last());
        assert(preorder(all) =~= seq![s] + preorder(s.children) + preorder(rest));
    }
}

/// The symbols that answer to a name are just those of the list that do, in order.
pub proof fn all_answering_symbols_are_named(s: Seq<Symbol>, query: Seq<char>)
    ensures
        named(s, query) == s.filter(|x: Symbol| answers_to(x.name, query)),
    decreases s.len(),
{
    reveal(Seq::filter);
    let p = |x: Symbol| answers_to(x.name, query);
    if s.len() > 0 {
        all_answering_symbols_are_named(s.drop_last(), query);
    } else {
        assert(named(s, query) =~= Seq::empty());
    }
}

proof fn first_answer(s: Seq<Symbol>, query: Seq<char>, i: int)
    requires
        0 <= i <= s.len(),
        i < s.len() ==> answers_to(s[i].name, query),
        forall|k: int| 0 <= k < i ==> !answers_to((#[trigger] s[k]).name, query),
    ensures
        first(named(s, query)) == if i < s.len() {
            Some(s[i])
        } else {
            None
        },
    decreases s.len(),
{
    if s.len() > 0 {
        let init = s.drop_last();
        assert forall|k: int| 0 <= k < init.len() && k < i implies !answers_to((#[trigger] init[k]).name, query) by {
            assert(init[k] == s[k]);
        }
        if i < init.len() {
            assert(init[i] == s[i]);
            first_answer(init, query, i);
            assert(named(s, query)[0] == named(init, query)[0]);
        } else {
            first_answer(init, query, init.len() as int);
            assert(s[s.len() - 1] == s.last());
        }
    }
}

proof fn plain_name(name: Seq<char>)
    requires
        !name.contains('.'),
    ensures
        split_on(name, '.') == seq![name],
{
    crate::text::char_index_is_first(name, '.');
    let n = char_index(name, '.');
    if 0 <= n < name.len() {
        assert(name[n] == '.');
    }
}

proof fn dotted_name(owner: Seq<char>, member: Seq<char>)
    requires
        !owner.contains('.'),
        !member.contains('.'),
    ensures
        split_on(owner + seq!['.'] + member, '.') == seq![owner, member],
{
    let tail = seq!['.'] + member;
    plain_name(owner);
    plain_name(member);
    crate::text::char_index_is_first(tail, '.');
    assert(tail[0] == '.');
    assert(char_index(tail, '.') == 0);
    assert(tail.take(0) =~= Seq::empty());
    assert(tail.skip(1) =~= member);
    assert(split_on(tail, '.') =~= seq![Seq::<char>::empty(), member]);
    crate::text::split_add(owner, tail, '.');
    assert(owner + tail =~= owner + seq!['.'] + member);
    assert(owner + Seq::<char>::empty() =~= owner);
    assert(split_on(owner + tail, '.') =~= seq![owner, member]);
}

/// A name without a dot means the first symbol of the top level that answers to it, and where there is none
/// the first of the whole tree.
pub proof fn plain_name_means_the_first(tree: Seq<Symbol>, name: Seq<char>, path: Seq<char>, i: int, k: int)
    requires
        !name.contains('.'),
        0 <= i <= tree.len(),
        forall|j: int| 0 <= j < i ==> !answers_to((#[trigger] tree[j]).name, name),
        i < tree.len() ==> answers_to(tree[i].name, name),
        0 <= k <= preorder(tree).len(),
        forall|j: int| 0 <= j < k ==> !answers_to((#[trigger] preorder(tree)[j]).name, name),
        k < preorder(tree).len() ==> answers_to(preorder(tree)[k].name, name),
    ensures
        resolved(tree, name, path, None) == if i < tree.len() {
            Some(tree[i])
        } else if k < preorder(tree).len() {
            Some(preorder(tree)[k])
        } else {
            None
        },
{
    plain_name(name);
    first_answer(tree, name, i);
    first_answer(preorder(tree), name, k);
}

/// With a line to go by, a name without a dot means, of all symbols of the tree that answer to it, the one that
/// starts closest to the line; of several that are as close, the first.
pub proof fn hint_picks_the_closest(tree: Seq<Symbol>, name: Seq<char>, path: Seq<char>, hint: u32, k: int)
    requires
        !name.contains('.'),
        0 <= k < preorder(tree).len(),
        answers_to(preorder(tree)[k].name, name),
        forall|j: int|
            0 <= j < preorder(tree).len() && answers_to((#[trigger] preorder(tree)[j]).name, name) ==> {
                let d = preorder(tree)[j].start_line - hint;
                let e = preorder(tree)[k].start_line - hint;
                let far = if d < 0 {
                    -d
                } else {
                    d
                };
                let near = if e < 0 {
                    -e
                } else {
                    e
                };
                near <= far && (j < k ==> near < far)
            },
    ensures
        resolved(tree, name, path, Some(hint)) == Some(preorder(tree)[k]),
{
    plain_name(name);
    closest_answer(preorder(tree), name, hint, k);
}

proof fn closest_answer(s: Seq<Symbol>, query: Seq<char>, hint: u32, k: int)
    requires
        0 <= k < s.len(),
        answers_to(s[k].name, query),
        forall|j: int|
            0 <= j < s.len() && answers_to((#[trigger] s[j]).name, query) ==> distance(s[k], hint) <= distance(s[j], hint)
                && (j < k ==> distance(s[k], hint) < distance(s[j], hint)),
    ensures
        named(s, query).len() > 0,
        closest(named(s, query), hint) == s[k],
    decreases s.len(),
{
    let init = s.drop_last();
    assert(s[s.len() - 1] == s.last());
    if k < init.len() {
        assert forall|j: int| 0 <= j < init.len() && answers_to((#[trigger] init[j]).name, query) implies distance(
            init[k],
            hint,
        ) <= distance(init[j], hint) && (j < k ==> distance(init[k], hint) < distance(init[j], hint)) by {
            assert(init[j] == s[j]);
        }
        closest_answer(init, query, hint, k);
        if answers_to(s.last().name, query) {
            assert(named(s, query).drop_last() =~= named(init, query));
        }
    } else {
        assert(named(s, query).drop_last() =~= named(init, query));
        if named(init, query).len() > 0 {
            closest_is_one(named(init, query), hint);
            let c = choose|c: int| 0 <= c < named(init, query).len() && named(init, query)[c] == closest(named(init, query), hint);
            named_stands(init, query, c);
            let j = choose|j: int| 0 <= j < init.len() && (#[trigger] init[j]) == named(init, query)[c] && answers_to(init[j].name, query);
            assert(s[j] == init[j]);
        }
    }
}

proof fn named_stands(s: Seq<Symbol>, query: Seq<char>, c: int)
    requires
        0 <= c < named(s, query).len(),
    ensures
        exists|j: int| 0 <= j < s.len() && (#[trigger] s[j]) == named(s, query)[c] && answers_to(s[j].name, query),
    decreases s.len(),
{
    let init = s.drop_last();
    assert(s[s.len() - 1] == s.last());
    if c < named(init, query).len() {
        named_stands(init, query, c);
        let j = choose|j: int| 0 <= j < init.len() && (#[trigger] init[j]) == named(init, query)[c] && answers_to(init[j].name, query);
        assert(s[j] == init[j]);
    }
}

/// A dotted name means the first symbol with the name behind the dot among those inside the first symbol of the
/// top level with the name before it.
pub proof fn dotted_name_means_the_member(
    tree: Seq<Symbol>,
    owner: Seq<char>,
    member: Seq<char>,
    path: Seq<char>,
    i: int,
    j: int,
)
    requires
        !owner.contains('.'),
        !member.contains('.'),
        extension(path) != Some("go"@),
        0 <= i < tree.len(),
        answers_to(tree[i].name, owner),
        forall|k: int| 0 <= k < i ==> !answers_to((#[trigger] tree[k]).name, owner),
        0 <= j < tree[i].children.len(),
        answers_to(tree[i].children[j].name, member),
        forall|k: int| 0 <= k < j ==> !answers_to((#[trigger] tree[i].children[k]).name, member),
    ensures
        resolved(tree, owner + seq!['.'] + member, path, None) == Some(tree[i].children[j]),
{
    let parts = split_on(owner + seq!['.'] + member, '.');
    dotted_name(owner, member);
    first_answer(tree, owner, i);
    first_answer(tree[i].children, member, j);
    reveal_with_fuel(walked, 3);
    assert(walked(tree, tree[i].children, parts, None, 1) == Some(tree[i].children[j]));
}

/// In a Go file a type and a method with a dot between them mean the first symbol of the top level that is that
/// method, whatever the line.
pub proof fn go_method_is_found(
    tree: Seq<Symbol>,
    receiver: Seq<char>,
    method: Seq<char>,
    path: Seq<char>,
    hint: Option<u32>,
    i: int,
)
    requires
        !receiver.contains('.'),
        !method.contains('.'),
        extension(path) == Some("go"@),
        0 <= i < tree.len(),
        is_method_of(tree[i].name, receiver, method),
        forall|k: int| 0 <= k < i ==> !is_method_of((#[trigger] tree[k]).name, receiver, method),
    ensures
        resolved(tree, receiver + seq!['.'] + method, path, hint) == Some(tree[i]),
{
    dotted_name(receiver, method);
    first_method(tree, receiver, method, i);
}

proof fn first_method(s: Seq<Symbol>, receiver: Seq<char>, method: Seq<char>, i: int)
    requires
        0 <= i < s.len(),
        is_method_of(s[i].name, receiver, method),
        forall|k: int| 0 <= k < i ==> !is_method_of((#[trigger] s[k]).name, receiver, method),
    ensures
        go_method(s, receiver, method) == Some(s[i]),
    decreases i,
{
    if i > 0 {
        let rest = s.drop_first();
        assert forall|k: int| 0 <= k < i - 1 implies !is_method_of((#[trigger] rest[k]).name, receiver, method) by {
            assert(rest[k] == s[k + 1]);
        }
        assert(rest[i - 1] == s[i]);
        assert(!is_method_of(s[0].name, receiver, method));
        first_method(rest, receiver, method, i - 1);
    }
}

/// The name by which a symbol to read is looked for: what stands before the first dot.
pub fn search_name(name: &str) -> (r: String)
    ensures
        r@ == name@.take(char_index(name@, '.')),
{
    let v = chars_of(name);
    assert(v@.skip(0) =~= v@);
    let dot: usize = index_of_char(&v, '.', 0);
    assert(v@.subrange(0, dot as int) =~= v@.take(dot as int));
    string_of(&v, 0, dot)
}

/// The view of a resolution.
pub open spec fn location_view(r: Result<SymbolLocation, String>) -> Result<Symbol, Seq<char>> {
    match r {
        Ok(s) => Ok(s@),
        Err(m) => Err(m@),
    }
}

} // verus!
